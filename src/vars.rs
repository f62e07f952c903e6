use vstd::prelude::*;

verus! {

/// The mapping that a sequence of name/value bindings denotes: a later
/// binding of a name replaces an earlier one.
pub open spec fn bindings_map(s: Seq<(String, String)>) -> Map<Seq<char>, Seq<char>>
    decreases s.len(),
{
    if s.len() == 0 {
        Map::empty()
    } else {
        bindings_map(s.drop_last()).insert(s.last().0@, s.last().1@)
    }
}

/// Shell variables: a mapping from case-sensitive names to values.
pub struct VarTable {
    bindings: Vec<(String, String)>,
}

impl View for VarTable {
    type V = Map<Seq<char>, Seq<char>>;

    closed spec fn view(&self) -> Map<Seq<char>, Seq<char>> {
        bindings_map(self.bindings@)
    }
}

impl VarTable {
    /// A table with no variables.
    pub fn new() -> (r: Self)
        ensures
            r@ == Map::<Seq<char>, Seq<char>>::empty(),
    {
        VarTable { bindings: Vec::new() }
    }

    /// Binds `name` to `value`, replacing any earlier value of `name`.
    pub fn insert(&mut self, name: String, value: String)
        ensures
            final(self)@ == old(self)@.insert(name@, value@),
    {
        let ghost prev = self.bindings@;
        self.bindings.push((name, value));
        proof {
            assert(self.bindings@.drop_last() =~= prev);
        }
    }

    /// The value bound to `name`, if any.
    pub fn get(&self, name: &String) -> (r: Option<&String>)
        ensures
            match r {
                Some(v) => self@.contains_key(name@) && self@[name@] == v@,
                None => !self@.contains_key(name@),
            },
    {
        let ghost s = self.bindings@;
        let ghost k = name@;
        let mut i: usize = self.bindings.len();
        proof {
            assert(s.take(i as int) =~= s);
        }
        while i > 0
            invariant
                s == self.bindings@,
                k == name@,
                i <= s.len(),
                bindings_map(s).contains_key(k) == bindings_map(s.take(i as int)).contains_key(k),
                bindings_map(s).contains_key(k) ==> bindings_map(s)[k] == bindings_map(s.take(i as int))[k],
            decreases i,
        {
            proof {
                assert(s.take(i as int).drop_last() =~= s.take(i - 1));
            }
            if self.bindings[i - 1].0 == *name {
                return Some(&self.bindings[i - 1].1);
            }
            i -= 1;
        }
        None
    }
}

} // verus!
