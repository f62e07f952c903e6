use hsh::errors::{ArgErr, ArgErrType, HshErr};
use hsh::hsh_cmds::{Flag, FlagErr, Flags, HshCmdError, HshCmds};
use hsh::resolve::{resolve_args, resolve_variable};
use hsh::vars::VarTable;

fn vars_with(pairs: &[(&str, &str)]) -> VarTable {
    let mut v = VarTable::new();
    for (k, val) in pairs {
        v.insert(k.to_string(), val.to_string());
    }
    v
}

#[test]
fn display_flag_vec() {
    let f1 = Flag::new('a');
    let f2 = Flag::new('b');
    let f3 = Flag::new('c');
    let f4 = Flag::new('d');
    let f5 = Flag::new('e');

    let flags = Flags(vec![f1, f2, f3, f4, f5]);

    let f6 = Flag::new('e');
    assert!(flags.contains(&f6));
    assert_eq!(flags.to_string(), format!("-abcde"))
}

#[test]
fn doc_test() {
    let flag_l = "l".parse::<Flag>().unwrap();
    assert_eq!(flag_l, Flag('l'));
    assert_eq!(flag_l.to_string(), format!("l"))
}

#[test]
fn flag_parse_plain_and_dashed() {
    for c in ['l', 'a', 'x', '-', 'é', '9'] {
        assert_eq!(Flag::parse(&c.to_string()).unwrap(), Flag(c));
        assert_eq!(Flag::parse(&format!("-{}", c)).unwrap(), Flag(c));
    }
    assert_eq!("-a".parse::<Flag>().unwrap(), Flag('a'));
}

#[test]
fn flag_parse_rejects() {
    for s in ["", "abc", "-ab", "ab", "x-"] {
        let e: FlagErr = Flag::parse(s).unwrap_err();
        assert_eq!(e.0, s);
    }
    assert_eq!(Flag::parse("ab").unwrap_err().to_string(), "Invalid flag: ab");
}

#[test]
fn flags_render_in_insertion_order() {
    let mut flags = Flags::default();
    assert!(flags.is_empty());
    assert_eq!(flags.to_string(), "-");
    flags.push(Flag::new('z')).push(Flag::new('a'));
    flags.push(Flag::new('z'));
    assert!(!flags.is_empty());
    assert_eq!(flags.to_string(), "-zaz");
    assert!(flags.contains(&Flag('a')));
    assert!(!flags.contains(&Flag('b')));
    assert_eq!(flags.clone(), flags);
    assert!(flags != Flags(vec![Flag('z'), Flag('a')]));
}

#[test]
fn resolve_variables() {
    let vars = vars_with(&[("VAR", "x")]);
    let mut flags = Flags::default();
    assert_eq!(resolve_variable("$VAR", &vars, &mut flags), Some("x".to_string()));
    assert_eq!(resolve_variable("$UNSET", &vars, &mut flags), None);
    assert_eq!(resolve_variable("$", &vars, &mut flags), Some("$".to_string()));
    assert!(flags.is_empty());
}

#[test]
fn resolve_variable_name_stops_at_non_name_char() {
    let vars = vars_with(&[("HOME", "/root"), ("A_1", "v")]);
    let mut flags = Flags::default();
    assert_eq!(resolve_variable("$HOME.txt", &vars, &mut flags), Some("/root.txt".to_string()));
    assert_eq!(resolve_variable("a$A_1/b", &vars, &mut flags), Some("av/b".to_string()));
    assert_eq!(resolve_variable("$/x", &vars, &mut flags), Some("$/x".to_string()));
    assert_eq!(resolve_variable("plain", &vars, &mut flags), Some("plain".to_string()));
    assert!(flags.is_empty());
}

#[test]
fn resolve_flag_run() {
    let vars = VarTable::new();
    let mut flags = Flags::default();
    assert_eq!(resolve_variable("-la", &vars, &mut flags), None);
    assert_eq!(flags, Flags(vec![Flag('l'), Flag('a')]));
    assert_eq!(resolve_variable("ab-c-d", &vars, &mut flags), Some("ab".to_string()));
    assert_eq!(flags.to_string(), "-lac-d");
}

#[test]
fn var_table_replaces_values() {
    let mut vars = vars_with(&[("X", "1"), ("Y", "2")]);
    vars.insert("X".to_string(), "3".to_string());
    assert_eq!(vars.get(&"X".to_string()), Some(&"3".to_string()));
    assert_eq!(vars.get(&"Y".to_string()), Some(&"2".to_string()));
    assert_eq!(vars.get(&"x".to_string()), None);
}

#[test]
fn build_ls() {
    let flags = Flags(vec![Flag('l'), Flag('a')]);
    let (c, cmd) = HshCmds::from_input(HshCmds::Ls, flags).unwrap();
    assert_eq!(c, HshCmds::Ls);
    assert_eq!(cmd.cmd, HshCmds::Ls);
    assert_eq!(cmd.opts().unwrap().to_string(), "-la");

    match HshCmds::from_input(HshCmds::Ls, Flags(vec![Flag('x')])) {
        Err(HshCmdError::FlagErr(c, s)) => {
            assert_eq!(c, HshCmds::Ls);
            assert_eq!(s, "x");
        }
        _ => panic!("expected an unknown flag"),
    }
    match HshCmds::from_input(HshCmds::Ls, Flags(vec![Flag('l'), Flag('q'), Flag('r')])) {
        Err(e) => assert_eq!(e.to_string(), "Unknown flag 'q' for `ls`."),
        _ => panic!("expected an unknown flag"),
    }
    let (_, cmd) = HshCmds::from_input(HshCmds::Ls, Flags::default()).unwrap();
    assert!(cmd.opts().unwrap().is_empty());
}

#[test]
fn build_cd_and_clear() {
    for c in [HshCmds::Cd, HshCmds::Clear] {
        match HshCmds::from_input(c, Flags(vec![Flag('l'), Flag('x')])) {
            Err(HshCmdError::FlagErr(d, s)) => {
                assert_eq!(d, c);
                assert_eq!(s, "-lx");
            }
            _ => panic!("expected an unknown flag"),
        }
        let (d, cmd) = HshCmds::from_input(c, Flags::default()).unwrap();
        assert_eq!(d, c);
        assert_eq!(cmd.cmd, c);
        assert!(cmd.opts().is_none());
        cmd.execute_cd();
    }
    let e = HshCmds::from_input(HshCmds::Cd, Flags(vec![Flag('a')])).unwrap_err();
    assert_eq!(e.to_string(), "Unknown flag '-a' for `cd`.");
}

#[test]
fn parse_command_words() {
    match "foo".parse::<HshCmds>() {
        Err(HshCmdError::CmdErr(w)) => assert_eq!(w, "foo"),
        _ => panic!("expected an unknown command"),
    }
    assert_eq!(HshCmds::parse("mcdir").unwrap_err().to_string(), "Unknown command 'mcdir'.");
    assert!(HshCmds::parse("LS").is_err());
    assert!(HshCmds::parse(" ls").is_err());
    for (w, c) in [("ls", HshCmds::Ls), ("cd", HshCmds::Cd), ("clear", HshCmds::Clear)] {
        let p = HshCmds::parse(w).unwrap();
        assert_eq!(p, c);
        assert_eq!(p.to_string(), w);
    }
}

#[test]
fn end_to_end_line() {
    let vars = vars_with(&[("HOME", "/root")]);
    let line = "ls -la $HOME";
    let mut parts = line.split_whitespace();
    let command = parts.next().unwrap();
    let rest: Vec<String> = parts.map(|s| s.to_string()).collect();
    let mut flags = Flags::default();
    let args = resolve_args(&rest, &vars, &mut flags);
    assert_eq!(args, vec!["/root".to_string()]);
    assert_eq!(flags.to_string(), "-la");
    let c = command.parse::<HshCmds>().unwrap();
    assert_eq!(c, HshCmds::Ls);
    let (c, cmd) = HshCmds::from_input(c, flags).unwrap();
    assert_eq!(c, HshCmds::Ls);
    assert_eq!(cmd.cmd, HshCmds::Ls);
    assert_eq!(cmd.opts().unwrap().to_string(), "-la");
}

#[test]
fn resolve_args_drops_empty_tokens() {
    let vars = vars_with(&[("A", "1")]);
    let rest: Vec<String> = ["$A", "-x", "$NONE", "b", "-y"].iter().map(|s| s.to_string()).collect();
    let mut flags = Flags::default();
    let args = resolve_args(&rest, &vars, &mut flags);
    assert_eq!(args, vec!["1".to_string(), "b".to_string()]);
    assert_eq!(flags.to_string(), "-xy");
}

#[test]
fn error_messages() {
    assert_eq!(ArgErrType::UnknownArg.to_string(), "Unknown argument");
    assert_eq!(ArgErrType::SomeOtherType.to_string(), "Some other type");
    let a = HshErr::ArgumentErr(ArgErr { exit_code: 2, err_type: ArgErrType::UnknownArg, message: "m".to_string() });
    assert_eq!(a.to_string(), "Arg Error");
    assert!(a.source().is_none());
    let io = std::io::Error::new(std::io::ErrorKind::Other, "boom");
    let e = HshErr::from(io);
    assert_eq!(e.to_string(), "IO Error: boom");
    assert!(e.source().is_some());
}
