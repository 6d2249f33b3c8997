//! The positional cursor's automaton: slot advance and multiplicity.

use supplements::arg_context::ArgsContext;
use supplements::command::Arg;
use supplements::command::ValueCompleter;
use supplements::completion::Completion;
use supplements::history::History;
use supplements::id;

struct NoOptions;

impl ValueCompleter for NoOptions {
    fn complete(&self, _history: &History, _arg: &str) -> Vec<Completion> {
        vec![]
    }
}

fn arg(num: u32, max_values: usize) -> Arg<NoOptions> {
    Arg {
        id: id::Arg::Single(id::SingleVal::new(num, "")),
        comp_options: NoOptions,
        max_values,
    }
}

#[test]
fn test_empty_arg_ctx() {
    let args: Vec<Arg<NoOptions>> = vec![];
    let mut ctx = ArgsContext::new();
    assert_eq!(ctx.has_seen_arg(), false);
    assert!(ctx.next_arg(&args).is_none());
    assert_eq!(ctx.has_seen_arg(), false);
}

#[test]
fn test_simple_arg_ctx() {
    let args = vec![arg(1, 1), arg(2, 1)];
    let mut ctx = ArgsContext::new();
    assert_eq!(ctx.has_seen_arg(), false);
    assert_eq!(args[ctx.next_arg(&args).unwrap()].id, args[0].id);
    assert_eq!(ctx.has_seen_arg(), true);
    assert_eq!(args[ctx.next_arg(&args).unwrap()].id, args[1].id);
    assert!(ctx.next_arg(&args).is_none());
}

#[test]
fn test_var_arg_ctx() {
    let args = vec![arg(1, 1), arg(3, 2), arg(4, 3)];
    let mut ctx = ArgsContext::new();
    assert_eq!(ctx.has_seen_arg(), false);
    assert_eq!(args[ctx.next_arg(&args).unwrap()].id, args[0].id);
    assert_eq!(ctx.has_seen_arg(), true);

    assert_eq!(args[ctx.next_arg(&args).unwrap()].id, args[1].id);
    assert_eq!(args[ctx.next_arg(&args).unwrap()].id, args[1].id);

    assert_eq!(args[ctx.next_arg(&args).unwrap()].id, args[2].id);
    assert_eq!(args[ctx.next_arg(&args).unwrap()].id, args[2].id);
    assert_eq!(args[ctx.next_arg(&args).unwrap()].id, args[2].id);

    assert!(ctx.next_arg(&args).is_none());
}
