//! End-to-end runs over a small command tree: a root with a boolean
//! flag, a value-taking flag, two positional slots and one subcommand.

use supplements::command::Arg;
use supplements::command::Command;
use supplements::command::CommandInfo;
use supplements::command::Flag;
use supplements::command::FlagInfo;
use supplements::command::ValueCompleter;
use supplements::completion::Completion;
use supplements::error::Error;
use supplements::history::History;
use supplements::history::HistoryUnit;
use supplements::history::HistoryUnitMultiVal;
use supplements::history::HistoryUnitNoVal;
use supplements::history::HistoryUnitSingleVal;
use supplements::id;

enum Comp {
    Echo,
    ArgOptions,
    DOption,
}

impl ValueCompleter for Comp {
    fn complete(&self, _history: &History, arg: &str) -> Vec<Completion> {
        match self {
            Comp::Echo => {
                let mut ret = vec![];
                if arg != "" {
                    ret.push(Completion::new(arg, ""));
                }
                ret.push(Completion::new(&format!("{arg}!"), ""));
                ret
            }
            Comp::ArgOptions => vec![
                Completion::new("arg-option1", ""),
                Completion::new("arg-option2", ""),
            ],
            Comp::DOption => vec![Completion::new("d-arg!", "")],
        }
    }
}

fn c_flag_id() -> id::NoVal {
    id::NoVal::new(1, "")
}
fn b_flag_id() -> id::SingleVal {
    id::SingleVal::new(2, "")
}
fn a_arg_id() -> id::SingleVal {
    id::SingleVal::new(3, "")
}
fn d_arg_id() -> id::MultiVal {
    id::MultiVal::new(4, "")
}
fn sub_id() -> id::NoVal {
    id::NoVal::new(5, "sub")
}
fn root_id() -> id::NoVal {
    id::NoVal::new(6, "root")
}

fn c_flag() -> Flag<Comp> {
    Flag {
        id: id::Flag::No(c_flag_id()),
        info: FlagInfo {
            short: vec!['c'],
            long: vec!["long-c".to_string(), "long-c-2".to_string()],
            description: "test description for flag C".to_string(),
        },
        comp_options: None,
        once: true,
    }
}
fn b_flag() -> Flag<Comp> {
    Flag {
        id: id::Flag::Single(b_flag_id()),
        info: FlagInfo {
            short: vec!['b', 'x'],
            long: vec!["long-b".to_string()],
            description: "test description for flag B".to_string(),
        },
        comp_options: Some(Comp::Echo),
        once: true,
    }
}
fn a_arg() -> Arg<Comp> {
    Arg {
        id: id::Arg::Single(a_arg_id()),
        comp_options: Comp::ArgOptions,
        max_values: 1,
    }
}
fn d_arg() -> Arg<Comp> {
    Arg {
        id: id::Arg::Multi(d_arg_id()),
        comp_options: Comp::DOption,
        max_values: 2,
    }
}
fn root() -> Command<Comp> {
    Command {
        id: root_id(),
        info: CommandInfo {
            name: "root".to_string(),
            description: "".to_string(),
        },
        all_flags: vec![b_flag(), c_flag()],
        args: vec![a_arg(), d_arg()],
        commands: vec![Command {
            id: sub_id(),
            info: CommandInfo {
                name: "sub".to_string(),
                description: "test sub description".to_string(),
            },
            all_flags: vec![b_flag()],
            args: vec![a_arg(), a_arg()],
            commands: vec![],
        }],
    }
}

fn no_unit(v: id::NoVal) -> HistoryUnit {
    HistoryUnit::No(HistoryUnitNoVal(v))
}
fn single_unit(v: id::SingleVal, value: &str) -> HistoryUnit {
    HistoryUnit::Single(HistoryUnitSingleVal {
        id: v,
        value: value.to_string(),
    })
}
fn multi_unit(v: id::MultiVal, values: &[&str]) -> HistoryUnit {
    HistoryUnit::Multi(HistoryUnitMultiVal {
        id: v,
        value: values.iter().map(|s| s.to_string()).collect(),
    })
}

fn try_run(args: &str, last_is_empty: bool) -> (Vec<HistoryUnit>, Result<Vec<Completion>, Error>) {
    let mut argv: Vec<String> = vec!["whatever".to_string()];
    for part in args.split(' ') {
        argv.push(part.to_string());
    }
    let mut history = History::default();
    let res = root().supplement_with_history(&mut history, &argv, last_is_empty);
    let res = res.map(|r| r.into_inner().0);
    (history.into_inner(), res)
}

fn run(args: &str, last_is_empty: bool) -> (Vec<HistoryUnit>, Vec<Completion>) {
    let (h, r) = try_run(args, last_is_empty);
    (h, r.unwrap())
}

fn map_comp_values(arr: &[Completion]) -> Vec<&str> {
    let mut v: Vec<_> = arr.iter().map(|c| &*c.value).collect();
    v.sort();
    v
}

fn complete_with(c: Comp, units: Vec<HistoryUnit>, arg: &str) -> Vec<Completion> {
    c.complete(&History::from(units), arg)
}

#[test]
fn test_args_last() {
    let (h, r) = run("sub a1", true);
    assert_eq!(h, vec![no_unit(sub_id()), single_unit(a_arg_id(), "a1")]);
    assert_eq!(r, complete_with(Comp::ArgOptions, h, ""));
}

#[test]
fn test_flags_not_last() {
    let expected = (
        vec![
            no_unit(c_flag_id()),
            single_unit(b_flag_id(), "option"),
            no_unit(sub_id()),
        ],
        complete_with(Comp::ArgOptions, vec![], ""),
    );

    let res = run("-c --long-b=option sub", true);
    assert_eq!(expected, res);
    let res = run("-c -b=option sub", true);
    assert_eq!(expected, res);
    let res = run("-cb=option sub", true);
    assert_eq!(expected, res);
    let res = run("-cb option sub", true);
    assert_eq!(expected, res);
    let res = run("-cboption sub", true);
    assert_eq!(expected, res);

    let (h, r) = run("-bc=option sub", true);
    assert_eq!(expected.1, r);
    assert_eq!(
        h,
        vec![single_unit(b_flag_id(), "c=option"), no_unit(sub_id())]
    );
}

#[test]
fn test_once_flag() {
    let (h, r) = run("-", false);
    assert_eq!(h, vec![]);
    assert_eq!(
        map_comp_values(&r),
        vec!["--long-b", "--long-c", "--long-c-2", "-b", "-c", "-x"],
    );

    let (h, r) = run("-b option -", false);
    assert_eq!(h, vec![single_unit(b_flag_id(), "option")]);
    assert_eq!(map_comp_values(&r), vec!["--long-c", "--long-c-2", "-c"],);
}

#[test]
fn test_flags_last() {
    let expected_h = vec![no_unit(c_flag_id())];

    let (h, r) = run("-c --long-b=x", false);
    assert_eq!(expected_h, h);
    assert_eq!(map_comp_values(&r), vec!["--long-b=x", "--long-b=x!"]);

    let (h, r) = run("-c -b=x", false);
    assert_eq!(expected_h, h);
    assert_eq!(map_comp_values(&r), vec!["-b=x", "-b=x!"]);

    let (h, r) = run("-cb=x", false);
    assert_eq!(expected_h, h);
    assert_eq!(map_comp_values(&r), vec!["-cb=x", "-cb=x!"]);

    let (h, r) = run("-cbx", false);
    assert_eq!(expected_h, h);
    assert_eq!(map_comp_values(&r), vec!["-cbx", "-cbx!"]);

    let (h, r) = run("-cb", false);
    assert_eq!(expected_h, h);
    assert_eq!(map_comp_values(&r), vec!["-cb!"]);

    let (h, r) = run("-c", false);
    assert_eq!(expected_h, h);
    assert_eq!(map_comp_values(&r), vec!["-cb", "-cx"]);
}

#[test]
fn test_flags_supplement() {
    let expected = (
        vec![no_unit(c_flag_id())],
        complete_with(Comp::Echo, vec![], "x"),
    );

    let res = run("-c --long-b x", false);
    assert_eq!(expected, res);
    let res = run("-c -b x", false);
    assert_eq!(expected, res);
    let res = run("-cb x", false);
    assert_eq!(expected, res);

    let res = run("-c x", false);
    assert_eq!(expected.0, res.0);
    assert_eq!(
        map_comp_values(&res.1),
        vec!["arg-option1", "arg-option2", "sub"]
    );
}

#[test]
fn test_fall_back_and_var_len_arg() {
    let (h, r) = run("arg1", true);
    assert_eq!(h, vec![single_unit(a_arg_id(), "arg1")]);
    assert_eq!(map_comp_values(&r), vec!["d-arg!"]);

    let (h, r) = run("arg1 d1", true);
    assert_eq!(
        h,
        vec![single_unit(a_arg_id(), "arg1"), multi_unit(d_arg_id(), &["d1"])]
    );
    assert_eq!(map_comp_values(&r), vec!["d-arg!"]);

    let expected_h = vec![
        single_unit(a_arg_id(), "arg1"),
        multi_unit(d_arg_id(), &["d1", "d2"]),
    ];

    let (h, r) = try_run("arg1 d1 d2", true);
    assert_eq!(h, expected_h);
    assert_eq!(r.unwrap_err(), Error::UnexpectedArg("".to_string()));

    let (h, r) = try_run("arg1 d1 d2 d3", true);
    assert_eq!(h, expected_h);
    assert_eq!(r.unwrap_err(), Error::UnexpectedArg("d3".to_string()));
}

#[test]
fn test_flag_after_args() {
    let (h, r) = run("sub arg1 --", false);
    assert_eq!(h, vec![no_unit(sub_id()), single_unit(a_arg_id(), "arg1")]);
    assert_eq!(map_comp_values(&r), vec!["--long-b"],);

    let (h, r) = run("sub arg1 --long-b flag1", false);
    assert_eq!(h, vec![no_unit(sub_id()), single_unit(a_arg_id(), "arg1")]);
    assert_eq!(map_comp_values(&r), vec!["flag1", "flag1!"],);

    let (h, r) = run("sub arg1 --long-b flag1", true);
    assert_eq!(
        h,
        vec![
            no_unit(sub_id()),
            single_unit(a_arg_id(), "arg1"),
            single_unit(b_flag_id(), "flag1")
        ]
    );
    assert_eq!(map_comp_values(&r), vec!["arg-option1", "arg-option2"],);
}

#[test]
fn test_flag_after_external_sub() {
    let expected_r = vec!["d-arg!"];

    let (h, r) = run("--long-b flag1 ext", true);
    assert_eq!(
        h,
        vec![
            single_unit(b_flag_id(), "flag1"),
            single_unit(a_arg_id(), "ext")
        ]
    );
    assert_eq!(map_comp_values(&r), expected_r);

    let (h, r) = run("ext --", false);
    assert_eq!(h, vec![single_unit(a_arg_id(), "ext")]);
    assert_eq!(map_comp_values(&r), expected_r);

    let (h, r) = run("ext --long-b flag1", false);
    assert_eq!(
        h,
        vec![
            single_unit(a_arg_id(), "ext"),
            multi_unit(d_arg_id(), &["--long-b"])
        ]
    );
    assert_eq!(map_comp_values(&r), expected_r);

    let expected_h = vec![
        single_unit(a_arg_id(), "ext"),
        multi_unit(d_arg_id(), &["--long-b", "flag1"]),
    ];
    let (h, r) = try_run("ext --long-b flag1", true);
    assert_eq!(h, expected_h);
    assert_eq!(r.unwrap_err(), Error::UnexpectedArg("".to_string()));
}
