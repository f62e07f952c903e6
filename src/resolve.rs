use vstd::prelude::*;
use vstd::string::{StrSliceExecFns, StringExecFns};
use crate::hsh_cmds::{flag_of, Flag, Flags};
use crate::text::push_char;
use crate::vars::VarTable;

verus! {

/// Whether a character is alphanumeric, in the sense of Unicode's
/// `Alphabetic` and `Numeric` properties.
pub uninterp spec fn alphanumeric(c: char) -> bool;

/// An ASCII letter or digit.
pub open spec fn is_ascii_alnum(c: char) -> bool {
    'a' <= c <= 'z' || 'A' <= c <= 'Z' || '0' <= c <= '9'
}

/// Relies on `char::is_alphanumeric`, which tests those two Unicode
/// properties of the character alone; among ASCII characters exactly the
/// letters and digits have them.
#[verifier::external_body]
fn is_alphanumeric(c: char) -> (r: bool)
    ensures
        r == alphanumeric(c),
        c <= '\x7f' ==> (r == is_ascii_alnum(c)),
{
    c.is_alphanumeric()
}

/// A character that may stand in a variable's name: an underscore, an ASCII
/// letter or digit, or a non-ASCII alphanumeric character.
pub open spec fn is_name_char(c: char) -> bool {
    c == '_' || if c <= '\x7f' {
        is_ascii_alnum(c)
    } else {
        alphanumeric(c)
    }
}

/// What a `$name` reference turns into: a bare `$` stays, a bound name
/// gives its value, an unbound name gives nothing.
pub open spec fn var_text(name: Seq<char>, vars: Map<Seq<char>, Seq<char>>) -> Seq<char> {
    if name.len() == 0 {
        seq!['$']
    } else if vars.contains_key(name) {
        vars[name]
    } else {
        Seq::empty()
    }
}

/// One left-to-right scan of a token, giving its text and its flag
/// characters. `name` holds the name read so far after a `$`, if the scan
/// is inside a variable reference. A `-` makes every later character of
/// the token a flag character.
pub open spec fn scan_token(t: Seq<char>, vars: Map<Seq<char>, Seq<char>>, name: Option<Seq<char>>) -> (Seq<char>, Seq<char>)
    decreases t.len(), if name is Some { 1nat } else { 0nat },
{
    match name {
        Some(nm) => if t.len() > 0 && is_name_char(t[0]) {
            scan_token(t.drop_first(), vars, Some(nm.push(t[0])))
        } else {
            let rest = scan_token(t, vars, None);
            (var_text(nm, vars) + rest.0, rest.1)
        },
        None => if t.len() == 0 {
            (Seq::empty(), Seq::empty())
        } else if t[0] == '$' {
            scan_token(t.drop_first(), vars, Some(Seq::empty()))
        } else if t[0] == '-' {
            (Seq::empty(), t.drop_first())
        } else {
            let rest = scan_token(t.drop_first(), vars, None);
            (seq![t[0]] + rest.0, rest.1)
        },
    }
}

/// The text that token `t` resolves to.
pub open spec fn resolved_text(t: Seq<char>, vars: Map<Seq<char>, Seq<char>>) -> Seq<char> {
    scan_token(t, vars, None).0
}

/// The flag characters that token `t` carries.
pub open spec fn resolved_flags(t: Seq<char>, vars: Map<Seq<char>, Seq<char>>) -> Seq<char> {
    scan_token(t, vars, None).1
}

/// One flag for each character, in order.
pub open spec fn flags_of_chars(s: Seq<char>) -> Seq<Flag> {
    Seq::new(s.len(), |i: int| flag_of(s[i]))
}

/// Resolves one whitespace-free token: substitutes `$name` references,
/// appends the flag characters of a `-` run to `flags`, and gives the
/// remaining text, or `None` where nothing remains.
pub fn resolve_variable(input: &str, vars: &VarTable, flags: &mut Flags) -> (r: Option<String>)
    ensures
        final(flags)@ == old(flags)@ + flags_of_chars(resolved_flags(input@, vars@)),
        match r {
            Some(s) => s@ == resolved_text(input@, vars@) && s@.len() > 0,
            None => resolved_text(input@, vars@).len() == 0,
        },
{
    let ghost t = input@;
    let ghost m = vars@;
    let n = input.unicode_len();
    let mut result = String::new();
    let mut i: usize = 0;
    proof {
        assert(t.subrange(0, n as int) =~= t);
    }
    while i < n
        invariant
            t == input@,
            m == vars@,
            n == t.len(),
            i <= n,
            result@ + scan_token(t.subrange(i as int, n as int), m, None).0 == resolved_text(t, m),
            scan_token(t.subrange(i as int, n as int), m, None).1 == resolved_flags(t, m),
            flags@ == old(flags)@,
        decreases n - i,
    {
        let c = input.get_char(i);
        proof {
            assert(t.subrange(i as int, n as int).drop_first() =~= t.subrange(i + 1, n as int));
        }
        if c == '$' {
            let mut name = String::new();
            let mut j: usize = i + 1;
            while j < n && (is_alphanumeric(input.get_char(j)) || input.get_char(j) == '_')
                invariant
                    t == input@,
                    n == t.len(),
                    i < j <= n,
                    scan_token(t.subrange(i + 1, n as int), m, Some(Seq::empty()))
                        == scan_token(t.subrange(j as int, n as int), m, Some(name@)),
                decreases n - j,
            {
                let d = input.get_char(j);
                proof {
                    assert(t.subrange(j as int, n as int).drop_first() =~= t.subrange(j + 1, n as int));
                }
                push_char(&mut name, d);
                j += 1;
            }
            if !name.as_str().is_empty() {
                if let Some(value) = vars.get(&name) {
                    result.append(value.as_str());
                }
            } else {
                push_char(&mut result, '$');
            }
            i = j;
        } else if c == '-' {
            let mut j: usize = i + 1;
            proof {
                assert(flags_of_chars(t.subrange(i + 1, j as int)) =~= Seq::<Flag>::empty());
                assert(flags@ =~= old(flags)@ + flags_of_chars(t.subrange(i + 1, j as int)));
            }
            while j < n
                invariant
                    t == input@,
                    n == t.len(),
                    i < j <= n,
                    flags@ == old(flags)@ + flags_of_chars(t.subrange(i + 1, j as int)),
                decreases n - j,
            {
                flags.push(Flag::new(input.get_char(j)));
                proof {
                    let a = flags_of_chars(t.subrange(i + 1, j + 1));
                    let b = flags_of_chars(t.subrange(i + 1, j as int));
                    assert(a =~= b.push(Flag(t[j as int])));
                    assert(flags@ =~= old(flags)@ + a);
                }
                j += 1;
            }
            proof {
                assert(result@ =~= resolved_text(t, m));
            }
            if result.as_str().is_empty() {
                return None;
            } else {
                return Some(result);
            }
        } else {
            let ghost before = result@;
            push_char(&mut result, c);
            proof {
                let rest = scan_token(t.subrange(i + 1, n as int), m, None).0;
                assert(before + (seq![c] + rest) =~= result@ + rest);
            }
            i += 1;
        }
    }
    proof {
        assert(t.subrange(n as int, n as int) =~= Seq::<char>::empty());
        assert(flags_of_chars(resolved_flags(t, m)) =~= Seq::<Flag>::empty());
        assert(flags@ =~= old(flags)@ + flags_of_chars(resolved_flags(t, m)));
        assert(result@ =~= resolved_text(t, m));
    }
    if result.as_str().is_empty() {
        None
    } else {
        Some(result)
    }
}

/// The positional arguments that tokens `parts` resolve to: each token's
/// text, in order, leaving out the tokens that resolve to nothing.
pub open spec fn resolved_args(parts: Seq<Seq<char>>, vars: Map<Seq<char>, Seq<char>>) -> Seq<Seq<char>>
    decreases parts.len(),
{
    if parts.len() == 0 {
        Seq::empty()
    } else {
        let prev = resolved_args(parts.drop_last(), vars);
        let text = resolved_text(parts.last(), vars);
        if text.len() == 0 {
            prev
        } else {
            prev.push(text)
        }
    }
}

/// The flag characters of all tokens `parts`, in order.
pub open spec fn resolved_line_flags(parts: Seq<Seq<char>>, vars: Map<Seq<char>, Seq<char>>) -> Seq<char>
    decreases parts.len(),
{
    if parts.len() == 0 {
        Seq::empty()
    } else {
        resolved_line_flags(parts.drop_last(), vars) + resolved_flags(parts.last(), vars)
    }
}

/// Resolves the argument tokens of one line (the words after the command
/// word), collecting the flags of all of them into `flags`.
pub fn resolve_args(parts: &Vec<String>, vars: &VarTable, flags: &mut Flags) -> (r: Vec<String>)
    ensures
        r.deep_view() == resolved_args(parts.deep_view(), vars@),
        final(flags)@ == old(flags)@ + flags_of_chars(resolved_line_flags(parts.deep_view(), vars@)),
{
    let ghost ps = parts.deep_view();
    let mut args: Vec<String> = Vec::new();
    let mut i: usize = 0;
    proof {
        assert(flags_of_chars(resolved_line_flags(ps.take(0), vars@)) =~= Seq::<Flag>::empty());
        assert(flags@ =~= old(flags)@ + flags_of_chars(resolved_line_flags(ps.take(0), vars@)));
        assert(args.deep_view() =~= resolved_args(ps.take(0), vars@));
    }
    while i < parts.len()
        invariant
            ps == parts.deep_view(),
            i <= parts.len(),
            args.deep_view() == resolved_args(ps.take(i as int), vars@),
            flags@ == old(flags)@ + flags_of_chars(resolved_line_flags(ps.take(i as int), vars@)),
        decreases parts.len() - i,
    {
        let ghost args_before = args.deep_view();
        let r = resolve_variable(parts[i].as_str(), vars, flags);
        proof {
            assert(ps.take(i + 1).drop_last() =~= ps.take(i as int));
            assert(ps.take(i + 1).last() == parts@[i as int]@);
            let a = resolved_line_flags(ps.take(i as int), vars@);
            let b = resolved_flags(parts@[i as int]@, vars@);
            assert(flags_of_chars(a + b) =~= flags_of_chars(a) + flags_of_chars(b));
            assert(flags@ =~= old(flags)@ + flags_of_chars(a + b));
        }
        match r {
            Some(text) => {
                args.push(text);
                proof {
                    assert(args.deep_view() =~= args_before.push(resolved_text(parts@[i as int]@, vars@)));
                }
            },
            None => {},
        }
        i += 1;
    }
    proof {
        assert(ps.take(i as int) =~= ps);
    }
    args
}

/// Inside a `$` reference whose name so far is `p`, a run of name
/// characters completes the name, and the reference then gives its text.
proof fn lemma_scan_name(sfx: Seq<char>, p: Seq<char>, m: Map<Seq<char>, Seq<char>>)
    requires
        forall|i: int| 0 <= i < sfx.len() ==> is_name_char(#[trigger] sfx[i]),
    ensures
        scan_token(sfx, m, Some(p)) == (var_text(p + sfx, m), Seq::<char>::empty()),
    decreases sfx.len(),
{
    if sfx.len() == 0 {
        assert(scan_token(sfx, m, None) == (Seq::<char>::empty(), Seq::<char>::empty()));
        assert(p + sfx =~= p);
        assert(var_text(p, m) + Seq::<char>::empty() =~= var_text(p, m));
    } else {
        assert(is_name_char(sfx[0]));
        lemma_scan_name(sfx.drop_first(), p.push(sfx[0]), m);
        assert(p.push(sfx[0]) + sfx.drop_first() =~= p + sfx);
    }
}

/// A bare `$` stays as it is.
pub proof fn lemma_bare_dollar(m: Map<Seq<char>, Seq<char>>)
    ensures
        resolved_text(seq!['$'], m) == seq!['$'],
        resolved_flags(seq!['$'], m) == Seq::<char>::empty(),
{
    assert(seq!['$'].drop_first() =~= Seq::<char>::empty());
    lemma_scan_name(Seq::empty(), Seq::empty(), m);
    assert(Seq::<char>::empty() + Seq::<char>::empty() =~= Seq::<char>::empty());
}

/// A token `$name` gives the value bound to `name`, or nothing where `name`
/// is unbound.
pub proof fn lemma_variable_reference(name: Seq<char>, m: Map<Seq<char>, Seq<char>>)
    requires
        name.len() > 0,
        forall|i: int| 0 <= i < name.len() ==> is_name_char(#[trigger] name[i]),
    ensures
        resolved_text(seq!['$'] + name, m) == if m.contains_key(name) {
            m[name]
        } else {
            Seq::<char>::empty()
        },
        resolved_flags(seq!['$'] + name, m) == Seq::<char>::empty(),
{
    let t = seq!['$'] + name;
    assert(t.drop_first() =~= name);
    lemma_scan_name(name, Seq::empty(), m);
    assert(Seq::<char>::empty() + name =~= name);
}

/// A token `-s` carries each character of `s` as a flag and gives no text.
pub proof fn lemma_flag_run(s: Seq<char>, m: Map<Seq<char>, Seq<char>>)
    ensures
        resolved_text(seq!['-'] + s, m) == Seq::<char>::empty(),
        resolved_flags(seq!['-'] + s, m) == s,
{
    assert((seq!['-'] + s).drop_first() =~= s);
}

} // verus!
