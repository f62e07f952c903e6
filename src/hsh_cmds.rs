use vstd::prelude::*;
use vstd::string::StrSliceExecFns;
use crate::text::{push_char, char_string};

verus! {

/// A command's option flag: `ls -l` carries the flag `Flag('l')`.
#[derive(Debug, Clone, Copy, PartialEq, Eq, Structural)]
pub struct Flag(pub char);

/// The flag holding character `c`.
pub open spec fn flag_of(c: char) -> Flag {
    Flag(c)
}

impl Flag {
    /// Creates a new Flag holding the given character.
    pub fn new(flag: char) -> (r: Self)
        ensures
            r.0 == flag,
    {
        Flag(flag)
    }

    /// Parses a flag from text: `"l"` and `"-l"` both give `Flag('l')`.
    pub fn parse(s: &str) -> (r: Result<Flag, FlagErr>)
        ensures
            match r {
                Ok(f) => flag_text(s@) == Some(f.0),
                Err(e) => flag_text(s@) is None && e.0@ == s@,
            },
    {
        let n = s.unicode_len();
        if n == 1 {
            Ok(Flag(s.get_char(0)))
        } else if n == 2 && s.get_char(0) == '-' {
            Ok(Flag(s.get_char(1)))
        } else {
            Err(FlagErr(s.to_owned()))
        }
    }

    /// The flag's character as a string.
    pub fn to_string(&self) -> (r: String)
        ensures
            r@ == seq![self.0],
    {
        char_string(self.0)
    }
}

impl core::str::FromStr for Flag {
    type Err = FlagErr;

    fn from_str(s: &str) -> (r: Result<Flag, FlagErr>)
        ensures
            match r {
                Ok(f) => flag_text(s@) == Some(f.0),
                Err(e) => flag_text(s@) is None && e.0@ == s@,
            },
    {
        Flag::parse(s)
    }
}

/// The character named by a flag's text: a single character stands for
/// itself, and a dash followed by one character stands for that character.
/// Any other text names no flag.
pub open spec fn flag_text(s: Seq<char>) -> Option<char> {
    if s.len() == 1 {
        Some(s[0])
    } else if s.len() == 2 && s[0] == '-' {
        Some(s[1])
    } else {
        None
    }
}

/// A flag's text that names no flag.
#[derive(Debug)]
pub struct FlagErr(pub String);

impl FlagErr {
    /// The error message, quoting the rejected text.
    pub fn to_string(&self) -> (r: String)
        ensures
            r@ == "Invalid flag: "@ + self.0@,
    {
        let mut r = "Invalid flag: ".to_owned();
        r.append(self.0.as_str());
        r
    }
}

/// The characters of a sequence of flags, in order.
pub open spec fn flag_chars(s: Seq<Flag>) -> Seq<char> {
    s.map_values(|f: Flag| f.0)
}

/// The text form of a sequence of flags: a dash, then each flag's character.
pub open spec fn render_flags(s: Seq<Flag>) -> Seq<char> {
    seq!['-'] + flag_chars(s)
}

/// All the flags of one command invocation, in the order they were given.
/// Duplicates are allowed; membership is by value.
#[derive(Debug, Clone)]
pub struct Flags(pub Vec<Flag>);

impl View for Flags {
    type V = Seq<Flag>;

    open spec fn view(&self) -> Seq<Flag> {
        self.0@
    }
}

impl Default for Flags {
    fn default() -> (r: Flags)
        ensures
            r@ == Seq::<Flag>::empty(),
    {
        Flags(Vec::new())
    }
}

impl PartialEq for Flags {
    fn eq(&self, o: &Flags) -> (r: bool) {
        if self.0.len() != o.0.len() {
            return false;
        }
        let mut i: usize = 0;
        while i < self.0.len()
            invariant
                self@.len() == o@.len(),
                i <= self@.len(),
                forall|j: int| 0 <= j < i ==> self@[j] == o@[j],
            decreases self@.len() - i,
        {
            if self.0[i] != o.0[i] {
                return false;
            }
            i += 1;
        }
        proof { assert(self@ =~= o@); }
        true
    }
}

impl vstd::std_specs::cmp::PartialEqSpecImpl for Flags {
    open spec fn obeys_eq_spec() -> bool {
        true
    }

    open spec fn eq_spec(&self, o: &Flags) -> bool {
        self@ == o@
    }
}

impl Flags {
    /// Appends a flag at the end.
    pub fn push(&mut self, flag: Flag) -> (r: &mut Self)
        ensures
            r@ == old(self)@.push(flag),
            *final(self) == *final(r),
    {
        self.0.push(flag);
        self
    }

    /// Whether a flag equal to `flag` is present.
    pub fn contains(&self, flag: &Flag) -> (r: bool)
        ensures
            r == self@.contains(*flag),
    {
        let mut i: usize = 0;
        while i < self.0.len()
            invariant
                i <= self@.len(),
                forall|j: int| 0 <= j < i ==> self@[j] != *flag,
            decreases self@.len() - i,
        {
            if self.0[i] == *flag {
                return true;
            }
            i += 1;
        }
        false
    }

    /// Whether there are no flags.
    pub fn is_empty(&self) -> (r: bool)
        ensures
            r == (self@.len() == 0),
    {
        self.0.len() == 0
    }

    /// The text form: a dash followed by each flag's character in order.
    /// With no flags this is a bare dash.
    pub fn to_string(&self) -> (r: String)
        ensures
            r@ == render_flags(self@),
    {
        let mut r = char_string('-');
        let mut i: usize = 0;
        while i < self.0.len()
            invariant
                i <= self@.len(),
                r@ == render_flags(self@.take(i as int)),
            decreases self@.len() - i,
        {
            push_char(&mut r, self.0[i].0);
            proof {
                assert(self@.take(i + 1) =~= self@.take(i as int).push(self@[i as int]));
                assert(flag_chars(self@.take(i + 1)) =~= flag_chars(self@.take(i as int)).push(self@[i as int].0));
            }
            i += 1;
        }
        proof { assert(self@.take(i as int) =~= self@); }
        r
    }
}

} // verus!

verus! {

/// The built-in commands.
#[derive(Debug, Clone, Copy, PartialEq, Eq, Structural)]
pub enum HshCmds {
    Ls,
    Cd,
    Clear,
}

/// The literal word of each command.
pub open spec fn cmd_word(c: HshCmds) -> Seq<char> {
    match c {
        HshCmds::Ls => seq!['l', 's'],
        HshCmds::Cd => seq!['c', 'd'],
        HshCmds::Clear => seq!['c', 'l', 'e', 'a', 'r'],
    }
}

/// The command whose word is exactly `s`, if any.
pub open spec fn cmd_of_word(s: Seq<char>) -> Option<HshCmds> {
    if s == cmd_word(HshCmds::Ls) {
        Some(HshCmds::Ls)
    } else if s == cmd_word(HshCmds::Cd) {
        Some(HshCmds::Cd)
    } else if s == cmd_word(HshCmds::Clear) {
        Some(HshCmds::Clear)
    } else {
        None
    }
}

/// The flags a command accepts; `None` for a command that accepts none.
pub open spec fn allowed_flags(c: HshCmds) -> Option<Seq<Flag>> {
    match c {
        HshCmds::Ls => Some(seq![Flag('l'), Flag('a')]),
        HshCmds::Cd => None,
        HshCmds::Clear => None,
    }
}

/// Every flag of `flags` is in `allowed`.
pub open spec fn all_allowed(flags: Seq<Flag>, allowed: Seq<Flag>) -> bool {
    forall|i: int| 0 <= i < flags.len() ==> allowed.contains(#[trigger] flags[i])
}

/// `flags[i]` is the first flag of `flags` that is not in `allowed`.
pub open spec fn first_disallowed(flags: Seq<Flag>, allowed: Seq<Flag>, i: int) -> bool {
    &&& 0 <= i < flags.len()
    &&& !allowed.contains(flags[i])
    &&& all_allowed(flags.take(i), allowed)
}

/// What building `c` with `flags` gives: with an allow-list, a command that
/// keeps all the flags if each is allowed, else an error naming the first
/// flag that is not; without one, a command with no stored flags if there
/// are no flags, else an error naming all of them in their text form.
pub open spec fn build_result(c: HshCmds, flags: Seq<Flag>, r: Result<Command, HshCmdError>) -> bool {
    match allowed_flags(c) {
        Some(allowed) => match r {
            Ok(cmd) => all_allowed(flags, allowed) && cmd.command() == c && cmd.stored_flags() == Some(flags),
            Err(e) => e is FlagErr && e->FlagErr_0 == c && exists|i: int|
                first_disallowed(flags, allowed, i) && e->FlagErr_1@ == seq![#[trigger] flags[i].0],
        },
        None => match r {
            Ok(cmd) => flags.len() == 0 && cmd.command() == c && cmd.stored_flags() is None,
            Err(e) => flags.len() > 0 && e is FlagErr && e->FlagErr_0 == c && e->FlagErr_1@ == render_flags(flags),
        },
    }
}

/// An unknown command word, or a flag that a command does not accept.
#[derive(Debug)]
pub enum HshCmdError {
    CmdErr(String),
    FlagErr(HshCmds, String),
}

impl HshCmdError {
    /// The error message.
    pub fn to_string(&self) -> (r: String)
        ensures
            r@ == match self {
                HshCmdError::CmdErr(s) => "Unknown command '"@ + s@ + "'."@,
                HshCmdError::FlagErr(c, s) => "Unknown flag '"@ + s@ + "' for `"@ + cmd_word(*c) + "`."@,
            },
    {
        match self {
            HshCmdError::CmdErr(s) => {
                let mut r = "Unknown command '".to_owned();
                r.append(s.as_str());
                r.append("'.");
                r
            },
            HshCmdError::FlagErr(c, s) => {
                let mut r = "Unknown flag '".to_owned();
                r.append(s.as_str());
                r.append("' for `");
                r.append(c.to_string().as_str());
                r.append("`.");
                r
            },
        }
    }
}

impl HshCmds {
    /// Parses a command word; only the exact words `ls`, `cd` and `clear`
    /// are known.
    pub fn parse(s: &str) -> (r: Result<HshCmds, HshCmdError>)
        ensures
            match r {
                Ok(c) => cmd_of_word(s@) == Some(c),
                Err(e) => cmd_of_word(s@) is None && e is CmdErr && e->CmdErr_0@ == s@,
            },
    {
        proof {
            reveal_strlit("ls");
            reveal_strlit("cd");
            reveal_strlit("clear");
            assert("ls"@ =~= cmd_word(HshCmds::Ls));
            assert("cd"@ =~= cmd_word(HshCmds::Cd));
            assert("clear"@ =~= cmd_word(HshCmds::Clear));
        }
        let t = s.to_owned();
        if t == "ls".to_owned() {
            Ok(HshCmds::Ls)
        } else if t == "cd".to_owned() {
            Ok(HshCmds::Cd)
        } else if t == "clear".to_owned() {
            Ok(HshCmds::Clear)
        } else {
            Err(HshCmdError::CmdErr(t))
        }
    }

    /// The command's word.
    pub fn to_string(&self) -> (r: String)
        ensures
            r@ == cmd_word(*self),
    {
        proof {
            reveal_strlit("ls");
            reveal_strlit("cd");
            reveal_strlit("clear");
        }
        match self {
            HshCmds::Ls => "ls".to_owned(),
            HshCmds::Cd => "cd".to_owned(),
            HshCmds::Clear => "clear".to_owned(),
        }
    }

    /// Builds the command for `input` with the flags given on its line.
    pub fn from_input(input: Self, flags: Flags) -> (r: Result<(Self, Command), HshCmdError>)
        ensures
            match r {
                Ok((c, cmd)) => c == input && build_result(input, flags@, Ok(cmd)),
                Err(e) => build_result(input, flags@, Err(e)),
            },
    {
        let command_struct = input.build_command(flags)?;
        Ok((input, command_struct))
    }

    fn build_command(&self, flags: Flags) -> (r: Result<Command, HshCmdError>)
        ensures
            build_result(*self, flags@, r),
    {
        match self {
            HshCmds::Ls => {
                let valid = self.valid_flags();
                let mut flags_passed = Flags(Vec::new());
                let mut i: usize = 0;
                while i < flags.0.len()
                    invariant
                        *self == HshCmds::Ls,
                        valid matches Some(v) && v@ == seq![Flag('l'), Flag('a')],
                        i <= flags@.len(),
                        flags_passed@ == flags@.take(i as int),
                        all_allowed(flags@.take(i as int), seq![Flag('l'), Flag('a')]),
                    decreases flags@.len() - i,
                {
                    let flag = flags.0[i];
                    if let Some(f) = &valid {
                        if f.contains(&flag) {
                            flags_passed.push(flag);
                        } else {
                            let text = flag.to_string();
                            proof {
                                assert(first_disallowed(flags@, seq![Flag('l'), Flag('a')], i as int));
                                assert(text@ == seq![flags@[i as int].0]);
                            }
                            return Err(HshCmdError::FlagErr(HshCmds::Ls, text));
                        }
                    }
                    proof {
                        assert(flags@.take(i + 1) =~= flags@.take(i as int).push(flag));
                        let al = seq![Flag('l'), Flag('a')];
                        assert forall|j: int| 0 <= j < i + 1 implies al.contains(#[trigger] flags@.take(i + 1)[j]) by {
                            if j < i {
                                assert(flags@.take(i + 1)[j] == flags@.take(i as int)[j]);
                            }
                        }
                    }
                    i += 1;
                }
                proof { assert(flags@.take(i as int) =~= flags@); }
                Ok(Command::new(HshCmds::Ls, Some(flags_passed)))
            },
            HshCmds::Cd => {
                if !flags.is_empty() {
                    return Err(HshCmdError::FlagErr(HshCmds::Cd, flags.to_string()));
                }
                Ok(Command::new(HshCmds::Cd, None))
            },
            HshCmds::Clear => {
                if !flags.is_empty() {
                    return Err(HshCmdError::FlagErr(HshCmds::Clear, flags.to_string()));
                }
                Ok(Command::new(HshCmds::Clear, None))
            },
        }
    }

    fn valid_flags(&self) -> (r: Option<Flags>)
        ensures
            match r {
                Some(f) => allowed_flags(*self) == Some(f@),
                None => allowed_flags(*self) is None,
            },
    {
        let mut flags = Flags(Vec::new());
        match self {
            HshCmds::Ls => {
                flags.push(Flag::new('l'));
                flags.push(Flag::new('a'));
            },
            HshCmds::Cd => {
                return None;
            },
            HshCmds::Clear => {
                return None;
            },
        }
        proof { assert(flags@ =~= seq![Flag('l'), Flag('a')]); }
        Some(flags)
    }
}

impl core::str::FromStr for HshCmds {
    type Err = HshCmdError;

    fn from_str(s: &str) -> (r: Result<HshCmds, HshCmdError>)
        ensures
            match r {
                Ok(c) => cmd_of_word(s@) == Some(c),
                Err(e) => cmd_of_word(s@) is None && e is CmdErr && e->CmdErr_0@ == s@,
            },
    {
        HshCmds::parse(s)
    }
}

/// A built command, ready to be carried out by the caller.
#[derive(Debug)]
pub struct Command {
    pub cmd: HshCmds,
    opts: Option<Flags>,
}

impl Command {
    /// Which command this is.
    pub closed spec fn command(&self) -> HshCmds {
        self.cmd
    }

    /// The flags kept by the command; `None` for a command that takes none.
    pub closed spec fn stored_flags(&self) -> Option<Seq<Flag>> {
        match self.opts {
            Some(f) => Some(f@),
            None => None,
        }
    }

    fn new(cmd: HshCmds, opts: Option<Flags>) -> (r: Self)
        ensures
            r.command() == cmd,
            r.stored_flags() == match opts {
                Some(f) => Some(f@),
                None => None::<Seq<Flag>>,
            },
    {
        Self { cmd, opts }
    }

    /// The flags kept by the command.
    pub fn opts(&self) -> (r: Option<&Flags>)
        ensures
            match r {
                Some(f) => self.stored_flags() == Some(f@),
                None => self.stored_flags() is None,
            },
    {
        match &self.opts {
            Some(f) => Some(f),
            None => None,
        }
    }

    /// Changing directory is carried out by the caller; nothing is done here.
    pub fn execute_cd(&self) {
    }
}

} // verus!

verus! {

/// A single character and a dash followed by that character both name the
/// flag of that character.
pub proof fn lemma_flag_text_forms(c: char)
    ensures
        flag_text(seq![c]) == Some(c),
        flag_text(seq!['-', c]) == Some(c),
{
}

/// Empty text, text of more than two characters, and two characters that do
/// not start with a dash name no flag.
pub proof fn lemma_flag_text_rejects(s: Seq<char>)
    requires
        s.len() == 0 || s.len() > 2 || (s.len() == 2 && s[0] != '-'),
    ensures
        flag_text(s) is None,
{
}

/// Rendering is a dash followed by the flags' characters in insertion order:
/// appending a flag appends its character to the rendering.
pub proof fn lemma_render_push(s: Seq<Flag>, f: Flag)
    ensures
        render_flags(s.push(f)) == render_flags(s).push(f.0),
        render_flags(s).len() == s.len() + 1,
        render_flags(s)[0] == '-',
        forall|i: int| 0 <= i < s.len() ==> render_flags(s)[i + 1] == (#[trigger] s[i]).0,
{
    assert(flag_chars(s.push(f)) =~= flag_chars(s).push(f.0));
    assert(render_flags(s.push(f)) =~= render_flags(s).push(f.0));
}

/// A command that accepts no flags is built exactly when it is given none;
/// given any, the error names the command and all the flags' text form.
/// `r` stands for any result that `HshCmds::from_input` may give.
pub proof fn lemma_no_flag_command(c: HshCmds, flags: Seq<Flag>, r: Result<Command, HshCmdError>)
    requires
        allowed_flags(c) is None,
        build_result(c, flags, r),
    ensures
        flags.len() == 0 ==> (r matches Ok(cmd) && cmd.command() == c && cmd.stored_flags() is None),
        flags.len() > 0 ==> (r matches Err(HshCmdError::FlagErr(d, t)) && d == c && t@ == render_flags(flags)),
{
}

/// Parsing a command's word gives back that command.
pub proof fn lemma_cmd_word_round_trip(c: HshCmds)
    ensures
        cmd_of_word(cmd_word(c)) == Some(c),
{
    assert(cmd_word(HshCmds::Ls) != cmd_word(HshCmds::Cd));
    assert(cmd_word(HshCmds::Ls) != cmd_word(HshCmds::Clear));
    assert(cmd_word(HshCmds::Cd) != cmd_word(HshCmds::Clear));
}

} // verus!
