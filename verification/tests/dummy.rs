//! A git-like tree: a global flag inherited by the subcommands, a
//! value flag with fixed choices, and an implicit trailing slot that
//! absorbs external subcommands.

use supplements::command::Arg;
use supplements::command::Command;
use supplements::command::CommandInfo;
use supplements::command::Flag;
use supplements::command::FlagInfo;
use supplements::command::ValueCompleter;
use supplements::completion::Completion;
use supplements::history::History;
use supplements::id;

enum Comp {
    Nothing,
    Pretty,
}

impl ValueCompleter for Comp {
    fn complete(&self, _history: &History, _arg: &str) -> Vec<Completion> {
        match self {
            Comp::Nothing => vec![],
            Comp::Pretty => vec![
                Completion::new("oneline", "<sha1> <title line>"),
                Completion::new("short", "<sha1> / <author> / <title line>)"),
                Completion::new("full", "all details"),
            ],
        }
    }
}

fn git_dir_flag() -> Flag<Comp> {
    Flag {
        id: id::Flag::Single(id::SingleVal::new(10, "git-dir")),
        info: FlagInfo {
            short: vec![],
            long: vec!["git-dir".to_string()],
            description: "".to_string(),
        },
        comp_options: Some(Comp::Nothing),
        once: false,
    }
}

fn checkout() -> Command<Comp> {
    Command {
        id: id::NoVal::new(20, "checkout"),
        info: CommandInfo {
            name: "checkout".to_string(),
            description: "".to_string(),
        },
        all_flags: vec![git_dir_flag()],
        args: vec![
            Arg {
                id: id::Arg::Single(id::SingleVal::new(21, "file-or-commit")),
                comp_options: Comp::Nothing,
                max_values: 1,
            },
            Arg {
                id: id::Arg::Multi(id::MultiVal::new(22, "files")),
                comp_options: Comp::Nothing,
                max_values: usize::MAX,
            },
        ],
        commands: vec![],
    }
}

fn log() -> Command<Comp> {
    Command {
        id: id::NoVal::new(30, "log"),
        info: CommandInfo {
            name: "log".to_string(),
            description: "log".to_string(),
        },
        all_flags: vec![
            Flag {
                id: id::Flag::No(id::NoVal::new(31, "graph")),
                info: FlagInfo {
                    short: vec![],
                    long: vec!["graph".to_string()],
                    description: "".to_string(),
                },
                comp_options: None,
                once: true,
            },
            Flag {
                id: id::Flag::Single(id::SingleVal::new(32, "pretty")),
                info: FlagInfo {
                    short: vec![],
                    long: vec!["pretty".to_string()],
                    description: "".to_string(),
                },
                comp_options: Some(Comp::Pretty),
                once: true,
            },
            Flag {
                id: id::Flag::Single(id::SingleVal::new(33, "flag1")),
                info: FlagInfo {
                    short: vec![],
                    long: vec!["flag1".to_string()],
                    description: "".to_string(),
                },
                comp_options: Some(Comp::Nothing),
                once: true,
            },
            git_dir_flag(),
        ],
        args: vec![Arg {
            id: id::Arg::Single(id::SingleVal::new(34, "commit")),
            comp_options: Comp::Nothing,
            max_values: 1,
        }],
        commands: vec![],
    }
}

fn git() -> Command<Comp> {
    Command {
        id: id::NoVal::new(40, "git"),
        info: CommandInfo {
            name: "git".to_string(),
            description: "".to_string(),
        },
        all_flags: vec![git_dir_flag()],
        args: vec![Arg {
            // The implicit slot that absorbs external subcommands.
            id: id::Arg::Multi(id::MultiVal::new(41, "external")),
            comp_options: Comp::Nothing,
            max_values: usize::MAX,
        }],
        commands: vec![checkout(), log()],
    }
}

fn run(cmd: &str) -> Vec<Completion> {
    let argv: Vec<String> = cmd.split(' ').map(|s| s.to_string()).collect();
    git().supplement(&argv, false).unwrap().into_inner().0
}

fn map_comps(comps: &[Completion]) -> Vec<&str> {
    let mut ret: Vec<_> = comps.iter().map(|c| c.value.as_str()).collect();
    ret.sort();
    ret
}

#[test]
fn dummy_test_simple() {
    let comps = run("git -");
    assert_eq!(vec!["--git-dir"], map_comps(&comps));

    let comps = run("git g");
    assert_eq!(vec!["checkout", "log"], map_comps(&comps));

    let comps = run("git log -");
    assert_eq!(
        vec!["--flag1", "--git-dir", "--graph", "--pretty"],
        map_comps(&comps)
    );

    let comps = run("git checkout -");
    assert_eq!(vec!["--git-dir"], map_comps(&comps));
}
