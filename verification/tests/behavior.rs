//! Error cases, history lookups, and shell rendering.

use std::str::FromStr;

use supplements::command::Arg;
use supplements::command::Command;
use supplements::command::CommandInfo;
use supplements::command::Flag;
use supplements::command::FlagInfo;
use supplements::command::ValueCompleter;
use supplements::completion::Completion;
use supplements::completion::CompletionGroup;
use supplements::completion::Shell;
use supplements::error::Error;
use supplements::history::History;
use supplements::id;
use supplements::parsed_flag;

enum Comp {
    Fixed,
}

impl ValueCompleter for Comp {
    fn complete(&self, _history: &History, _arg: &str) -> Vec<Completion> {
        vec![Completion::new("fixed", "")]
    }
}

fn b_flag() -> Flag<Comp> {
    Flag {
        id: id::Flag::Single(id::SingleVal::new(1, "b")),
        info: FlagInfo {
            short: vec!['b'],
            long: vec!["long-b".to_string()],
            description: "".to_string(),
        },
        comp_options: Some(Comp::Fixed),
        once: false,
    }
}

fn c_flag() -> Flag<Comp> {
    Flag {
        id: id::Flag::No(id::NoVal::new(2, "c")),
        info: FlagInfo {
            short: vec!['c'],
            long: vec!["long-c".to_string()],
            description: "".to_string(),
        },
        comp_options: None,
        once: false,
    }
}

fn tree() -> Command<Comp> {
    Command {
        id: id::NoVal::new(3, "root"),
        info: CommandInfo {
            name: "root".to_string(),
            description: "".to_string(),
        },
        all_flags: vec![b_flag(), c_flag()],
        args: vec![Arg {
            id: id::Arg::Single(id::SingleVal::new(4, "a")),
            comp_options: Comp::Fixed,
            max_values: 1,
        }],
        commands: vec![],
    }
}

fn bare_tree() -> Command<Comp> {
    Command {
        id: id::NoVal::new(5, "bare"),
        info: CommandInfo {
            name: "bare".to_string(),
            description: "".to_string(),
        },
        all_flags: vec![],
        args: vec![],
        commands: vec![],
    }
}

fn run_on(cmd: Command<Comp>, args: &str, last_is_empty: bool) -> Result<Vec<Completion>, Error> {
    let mut argv: Vec<String> = vec!["prog".to_string()];
    if !args.is_empty() {
        for part in args.split(' ') {
            argv.push(part.to_string());
        }
    }
    cmd.supplement(&argv, last_is_empty).map(|g| g.into_inner().0)
}

#[test]
fn test_args_too_short() {
    assert_eq!(run_on(tree(), "", false).unwrap_err(), Error::ArgsTooShort);
}

#[test]
fn test_flag_not_found() {
    assert_eq!(
        run_on(tree(), "--nope x", false).unwrap_err(),
        Error::FlagNotFound("nope".to_string())
    );
    assert_eq!(
        run_on(tree(), "-z x", false).unwrap_err(),
        Error::FlagNotFound("z".to_string())
    );
}

#[test]
fn test_bool_flag_equals_value() {
    assert_eq!(
        run_on(tree(), "--long-c=x y", false).unwrap_err(),
        Error::BoolFlagEqualsValue("--long-c=x".to_string())
    );
    // The same rejection on the final token.
    assert_eq!(
        run_on(tree(), "--long-c=x", false).unwrap_err(),
        Error::BoolFlagEqualsValue("--long-c=x".to_string())
    );
}

#[test]
fn test_flag_no_value() {
    assert_eq!(
        run_on(tree(), "--long-b --long-c x", false).unwrap_err(),
        Error::FlagNoValue("b".to_string())
    );
}

#[test]
fn test_malformed_token() {
    assert_eq!(
        run_on(tree(), "---x y", false).unwrap_err(),
        Error::ParsedFlag(parsed_flag::Error::ConsecutiveDashes)
    );
    assert_eq!(
        run_on(tree(), "-a-b y", false).unwrap_err(),
        Error::ParsedFlag(parsed_flag::Error::DashNotAllowed)
    );
}

#[test]
fn test_no_possible_completion() {
    assert_eq!(
        run_on(bare_tree(), "-", false).unwrap_err(),
        Error::NoPossibleCompletion
    );
}

#[test]
fn test_unexpected_arg() {
    assert_eq!(
        run_on(bare_tree(), "z y", false).unwrap_err(),
        Error::UnexpectedArg("z".to_string())
    );
}

#[test]
fn test_history_lookups() {
    let mut h = History::default();
    let single = id::SingleVal::new(7, "s");
    let multi = id::MultiVal::new(8, "m");
    let no = id::NoVal::new(9, "n");
    h.push_no_val(no.clone());
    h.push_single_val(single.clone(), "one".to_string());
    h.push_single_val(single.clone(), "two".to_string());
    h.push_multi_val(multi.clone(), "a".to_string());
    h.push_multi_val(multi.clone(), "b".to_string());
    h.push_command(id::NoVal::new(10, "cmd"));

    // A later single value overwrites the earlier one in place.
    let found = h.find(single.clone()).unwrap();
    assert_eq!(found.value, "two");
    // Multi values accumulate in token order on one unit.
    let found = h.find(multi.clone()).unwrap();
    assert_eq!(found.value, vec!["a".to_string(), "b".to_string()]);
    assert!(h.find(no.clone()).is_some());
    assert!(h.find(id::NoVal::new(99, "none")).is_none());
    assert!(h.find_last(single.clone()).is_some());
    let all = h.find_all(&vec![single.clone()]);
    assert_eq!(all.len(), 1);
    assert_eq!(all[0].value, "two");

    let units = h.into_inner();
    assert_eq!(units.len(), 4);
}

#[test]
fn test_completion_builders() {
    let c = Completion::new("v", "d");
    assert_eq!(c.value, "v");
    assert_eq!(c.description, "d");
    assert_eq!(c.group, None);
    let c = c.value("w".to_string());
    assert_eq!(c.value, "w");
    let c = c.group("g");
    assert_eq!(c.group, Some("g".to_string()));
}

#[test]
fn test_shell_from_str() {
    assert!(matches!(Shell::from_str("zsh"), Ok(Shell::Zsh)));
    assert!(matches!(Shell::from_str("fish"), Ok(Shell::Fish)));
    assert!(matches!(Shell::from_str("bash"), Ok(Shell::Bash)));
    assert!(Shell::from_str("ksh").is_err());
}

#[test]
fn test_render_bash_filters_by_prefix() {
    let comps = vec![
        Completion::new("alpha", "first"),
        Completion::new("beta", "second"),
        Completion::new("al", ""),
        Completion::new("alps", ""),
    ];
    let group = CompletionGroup::new(comps, "al".to_string());
    let lines = group.render_bash();
    assert_eq!(lines, vec!["alpha".to_string(), "al".to_string(), "alps".to_string()]);
}

#[test]
fn test_render_fish_descriptions() {
    let comps = vec![
        Completion::new("alpha", "first"),
        Completion::new("all", "").group("command"),
        Completion::new("al", ""),
        Completion::new("beta", "second"),
    ];
    let group = CompletionGroup::new(comps, "al".to_string());
    let lines = group.render_fish();
    assert_eq!(
        lines,
        vec![
            "alpha\tfirst".to_string(),
            "all\tcommand".to_string(),
            "al\t".to_string(),
        ]
    );
}

#[test]
fn test_render_zsh_groups_sorted() {
    // Two candidates in the default group, one in `command`: the
    // smaller group comes first, each block lists its members, and the
    // output ends with the terminator.
    let comps = vec![
        Completion::new("--verbose", "say more"),
        Completion::new("sub", "a subcommand").group("command"),
        Completion::new("--quiet", ""),
    ];
    let group = CompletionGroup::new(comps, "".to_string());
    let lines = group.render_zsh();
    assert_eq!(
        lines,
        vec![
            "command".to_string(),
            "\tsub\tsub -- a subcommand".to_string(),
            "option".to_string(),
            "\t--verbose\t--verbose -- say more".to_string(),
            "\t--quiet\t--quiet".to_string(),
            "END".to_string(),
        ]
    );
}

#[test]
fn test_well_formed_declarations() {
    assert!(tree().is_well_formed());
    assert!(bare_tree().is_well_formed());
    // A boolean flag with a single-value identity is malformed.
    let broken: Command<Comp> = Command {
        id: id::NoVal::new(6, "broken"),
        info: CommandInfo {
            name: "broken".to_string(),
            description: "".to_string(),
        },
        all_flags: vec![Flag {
            id: id::Flag::Single(id::SingleVal::new(7, "s")),
            info: FlagInfo {
                short: vec![],
                long: vec!["s".to_string()],
                description: "".to_string(),
            },
            comp_options: None,
            once: false,
        }],
        args: vec![],
        commands: vec![],
    };
    assert!(!broken.is_well_formed());
}
