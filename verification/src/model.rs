//! The mathematical model of the supplementation engine.
//!
//! These spec functions say exactly what the walker does: how the
//! positional cursor advances, which flags are effective, how a short
//! cluster resolves, what each token contributes to the history, and
//! which candidates the synthesizer produces for the final token.  The
//! executable engine is verified against `walk`.
//!
//! Candidates that come from a user-supplied value completer cannot be
//! pinned down here; for those branches the outcome names the completer
//! (by the identity of its flag or slot), the value handed to it, and
//! the wrapping applied to whatever it returns.

use vstd::prelude::*;

use crate::command::ArgView;
use crate::command::CommandView;
use crate::command::FlagView;
use crate::completion::CompView;
use crate::error::ErrorView;
use crate::history::spec_push_arg;
use crate::history::spec_push_multi_val;
use crate::history::spec_push_no_val;
use crate::history::spec_push_single_val;
use crate::history::unit_is_multi;
use crate::history::unit_is_no;
use crate::history::unit_is_single;
use crate::history::UnitView;
use crate::id::ArgIdView;
use crate::id::FlagIdView;
use crate::parsed_flag::flag_class;
use crate::parsed_flag::ClassView;

verus! {

/// The positional cursor: the current slot and how many values it has
/// absorbed so far.
pub struct CtxView {
    pub slot: int,
    pub cnt: int,
}

/// The cursor at the start of a command.
pub open spec fn ctx_new() -> CtxView {
    CtxView { slot: 0, cnt: 0 }
}

/// Has any positional value been consumed under this cursor?
pub open spec fn ctx_has_seen(c: CtxView) -> bool {
    c.slot != 0 || c.cnt != 0
}

/// One step of the cursor: the slot that receives the next value, and
/// the cursor afterwards; nothing once the slots are exhausted.
pub open spec fn ctx_next(args: Seq<ArgView>, c: CtxView) -> Option<(ArgView, CtxView)> {
    if c.slot < 0 || c.slot >= args.len() {
        None
    } else {
        let a = args[c.slot];
        if a.max_values == c.cnt + 1 {
            Some((a, CtxView { slot: c.slot + 1, cnt: 0 }))
        } else {
            Some((a, CtxView { slot: c.slot, cnt: c.cnt + 1 }))
        }
    }
}

/// Does the history hold a unit under this flag identity, with the
/// matching shape?
pub open spec fn flag_in_history(h: Seq<UnitView>, id: FlagIdView) -> bool {
    match id {
        FlagIdView::No(i) => exists|k: int| 0 <= k < h.len() && unit_is_no(#[trigger] h[k], i),
        FlagIdView::Single(i) => exists|k: int|
            0 <= k < h.len() && unit_is_single(#[trigger] h[k], i),
        FlagIdView::Multi(i) => exists|k: int|
            0 <= k < h.len() && unit_is_multi(#[trigger] h[k], i),
    }
}

/// A flag is effective unless its `once` bit is set and its identity is
/// already in history.
pub open spec fn flag_active(h: Seq<UnitView>, f: FlagView) -> bool {
    !f.once || !flag_in_history(h, f.id)
}

/// Index of the first flag satisfying `p`, or -1.
pub open spec fn first_flag_idx(flags: Seq<FlagView>, p: spec_fn(FlagView) -> bool) -> int
    decreases flags.len(),
{
    if flags.len() == 0 {
        -1
    } else if p(flags[0]) {
        0
    } else {
        let r = first_flag_idx(flags.skip(1), p);
        if r < 0 {
            -1
        } else {
            r + 1
        }
    }
}

/// What `first_flag_idx` means.
pub proof fn lemma_first_flag_idx(flags: Seq<FlagView>, p: spec_fn(FlagView) -> bool)
    ensures
        first_flag_idx(flags, p) == -1 <==> (forall|i: int|
            0 <= i < flags.len() ==> !p(flags[i])),
        first_flag_idx(flags, p) != -1 ==> {
            let j = first_flag_idx(flags, p);
            &&& 0 <= j < flags.len()
            &&& p(flags[j])
            &&& forall|i: int| 0 <= i < j ==> !p(flags[i])
        },
    decreases flags.len(),
{
    if flags.len() != 0 && !p(flags[0]) {
        let t = flags.skip(1);
        lemma_first_flag_idx(t, p);
        assert forall|i: int| 0 <= i < t.len() implies t[i] == flags[i + 1] by {}
        if first_flag_idx(flags, p) == -1 {
            assert forall|i: int| 0 <= i < flags.len() implies !p(flags[i]) by {
                if i >= 1 {
                    assert(!p(t[i - 1]));
                }
            }
        } else {
            let j = first_flag_idx(flags, p);
            assert(p(t[j - 1]));
            assert forall|i: int| 0 <= i < j implies !p(flags[i]) by {
                if i >= 1 {
                    assert(!p(t[i - 1]));
                }
            }
        }
        if forall|i: int| 0 <= i < flags.len() ==> !p(flags[i]) {
            assert forall|i: int| 0 <= i < t.len() implies !p(t[i]) by {
                assert(t[i] == flags[i + 1]);
            }
            assert(first_flag_idx(t, p) == -1);
        }
    }
}

/// An index satisfying `p`, before which none does, is the first match.
pub proof fn lemma_first_flag_idx_is(
    flags: Seq<FlagView>,
    p: spec_fn(FlagView) -> bool,
    j: int,
)
    requires
        0 <= j < flags.len(),
        p(flags[j]),
        forall|k: int| 0 <= k < j ==> !p(flags[k]),
    ensures
        first_flag_idx(flags, p) == j,
{
    lemma_first_flag_idx(flags, p);
    if first_flag_idx(flags, p) == -1 {
        assert(!p(flags[j]));
    } else {
        let i0 = first_flag_idx(flags, p);
        if i0 < j {
            assert(!p(flags[i0]));
        }
        if i0 > j {
            assert(!p(flags[j]));
        }
    }
}

/// Index of the first effective flag with this long alias, or -1.
pub open spec fn find_long_idx(flags: Seq<FlagView>, h: Seq<UnitView>, name: Seq<char>) -> int {
    first_flag_idx(flags, |f: FlagView| flag_active(h, f) && f.long.contains(name))
}

/// Index of the first effective flag with this short alias, or -1.
pub open spec fn find_short_idx(flags: Seq<FlagView>, h: Seq<UnitView>, c: char) -> int {
    first_flag_idx(flags, |f: FlagView| flag_active(h, f) && f.short.contains(c))
}

/// Index of the first subcommand with this name, or -1.
pub open spec fn first_cmd_idx(cmds: Seq<CommandView>, name: Seq<char>) -> int
    decreases cmds.len(),
{
    if cmds.len() == 0 {
        -1
    } else if cmds[0].name == name {
        0
    } else {
        let r = first_cmd_idx(cmds.skip(1), name);
        if r < 0 {
            -1
        } else {
            r + 1
        }
    }
}

/// What `first_cmd_idx` means.
pub proof fn lemma_first_cmd_idx(cmds: Seq<CommandView>, name: Seq<char>)
    ensures
        first_cmd_idx(cmds, name) == -1 <==> (forall|i: int|
            0 <= i < cmds.len() ==> (#[trigger] cmds[i]).name != name),
        first_cmd_idx(cmds, name) != -1 ==> {
            let j = first_cmd_idx(cmds, name);
            &&& 0 <= j < cmds.len()
            &&& cmds[j].name == name
            &&& forall|i: int| 0 <= i < j ==> (#[trigger] cmds[i]).name != name
        },
    decreases cmds.len(),
{
    if cmds.len() != 0 && cmds[0].name != name {
        let t = cmds.skip(1);
        lemma_first_cmd_idx(t, name);
        assert forall|i: int| 0 <= i < t.len() implies t[i] == cmds[i + 1] by {}
        if first_cmd_idx(cmds, name) == -1 {
            assert forall|i: int| 0 <= i < cmds.len() implies (#[trigger] cmds[i]).name
                != name by {
                if i >= 1 {
                    assert(t[i - 1].name != name);
                }
            }
        } else {
            let j = first_cmd_idx(cmds, name);
            assert(t[j - 1].name == name);
            assert forall|i: int| 0 <= i < j implies (#[trigger] cmds[i]).name != name by {
                if i >= 1 {
                    assert(t[i - 1].name != name);
                }
            }
        }
        if forall|i: int| 0 <= i < cmds.len() ==> (#[trigger] cmds[i]).name != name {
            assert forall|i: int| 0 <= i < t.len() implies (#[trigger] t[i]).name != name by {
                assert(t[i] == cmds[i + 1]);
            }
            assert(first_cmd_idx(t, name) == -1);
        }
    }
}

/// An index naming a subcommand, before which none does, is the first.
pub proof fn lemma_first_cmd_idx_is(cmds: Seq<CommandView>, name: Seq<char>, j: int)
    requires
        0 <= j < cmds.len(),
        cmds[j].name == name,
        forall|k: int| 0 <= k < j ==> (#[trigger] cmds[k]).name != name,
    ensures
        first_cmd_idx(cmds, name) == j,
{
    lemma_first_cmd_idx(cmds, name);
    if first_cmd_idx(cmds, name) == -1 {
        assert(cmds[j].name != name);
    } else {
        let i0 = first_cmd_idx(cmds, name);
        if i0 < j {
            assert(cmds[i0].name != name);
        }
        if i0 > j {
            assert(cmds[j].name != name);
        }
    }
}

/// History after recording a value under a flag identity.  A no-value
/// identity never receives a value; well-formed callers exclude it.
pub open spec fn spec_push_flag_val(h: Seq<UnitView>, id: FlagIdView, v: Seq<char>) -> Seq<
    UnitView,
> {
    match id {
        FlagIdView::Single(i) => spec_push_single_val(h, i, v),
        FlagIdView::Multi(i) => spec_push_multi_val(h, i, v),
        FlagIdView::No(i) => h,
    }
}

/// History after recording a boolean flag.  Only a no-value identity
/// can be recorded this way; well-formed callers guarantee it.
pub open spec fn spec_push_pure_flag(h: Seq<UnitView>, id: FlagIdView) -> Seq<UnitView> {
    match id {
        FlagIdView::No(i) => spec_push_no_val(h, i),
        _ => h,
    }
}

/// A resolved short cluster: the flag of its last examined character,
/// the attached value if any, and the part of the token the candidates
/// must extend.
pub struct ResolvedView {
    pub flag: FlagView,
    pub value: Option<Seq<char>>,
    pub flag_part: Seq<char>,
}

/// Resolution of a short cluster `s` from character position `i`,
/// left to right.  Boolean flags passed on the way are recorded at
/// once, so the history comes back updated even on an error.  The
/// first branch only totalizes the function; callers start at
/// position 1 of a token with at least two characters.
pub open spec fn resolve_shorts(
    flags: Seq<FlagView>,
    h: Seq<UnitView>,
    s: Seq<char>,
    i: int,
) -> (Seq<UnitView>, Result<ResolvedView, ErrorView>)
    decreases s.len() - i,
{
    if i < 1 || i >= s.len() {
        (h, Err(ErrorView::FlagNotFound(Seq::empty())))
    } else {
        let c = s[i];
        let j = find_short_idx(flags, h, c);
        if j == -1 {
            (h, Err(ErrorView::FlagNotFound(seq![c])))
        } else {
            let f = flags[j];
            if i == s.len() - 1 {
                (h, Ok(ResolvedView { flag: f, value: None, flag_part: s }))
            } else if s[i + 1] == '=' {
                if !f.takes_value {
                    (h, Err(ErrorView::BoolFlagEqualsValue(s)))
                } else {
                    (
                        h,
                        Ok(
                            ResolvedView {
                                flag: f,
                                value: Some(s.skip(i + 2)),
                                flag_part: s.take(i + 2),
                            },
                        ),
                    )
                }
            } else if f.takes_value {
                (
                    h,
                    Ok(
                        ResolvedView {
                            flag: f,
                            value: Some(s.skip(i + 1)),
                            flag_part: s.take(i + 1),
                        },
                    ),
                )
            } else {
                resolve_shorts(flags, spec_push_pure_flag(h, f.id), s, i + 1)
            }
        }
    }
}

/// The `--long` candidates of one flag.
pub open spec fn flag_long_comps(f: FlagView) -> Seq<CompView> {
    Seq::new(
        f.long.len(),
        |i: int| CompView {
            value: seq!['-', '-'] + f.long[i],
            description: f.description,
            group: None,
        },
    )
}

/// The `-s` candidates of one flag.
pub open spec fn flag_short_comps(f: FlagView) -> Seq<CompView> {
    Seq::new(
        f.short.len(),
        |i: int| CompView {
            value: seq!['-', f.short[i]],
            description: f.description,
            group: None,
        },
    )
}

/// The short candidates of one flag, each extending `part` in place.
pub open spec fn flag_tail_comps(f: FlagView, part: Seq<char>) -> Seq<CompView> {
    Seq::new(
        f.short.len(),
        |i: int| CompView {
            value: part + seq![f.short[i]],
            description: f.description,
            group: None,
        },
    )
}

/// Which candidate forms a flag contributes.
pub enum FlagCompMode {
    /// `--long` forms only.
    Longs,
    /// `--long` forms, then `-s` forms.
    LongsShorts,
    /// Short forms extending a typed cluster in place.
    Tail(Seq<char>),
}

/// The candidates of one flag under the given mode.
pub open spec fn flag_mode_comps(f: FlagView, m: FlagCompMode) -> Seq<CompView> {
    match m {
        FlagCompMode::Longs => flag_long_comps(f),
        FlagCompMode::LongsShorts => flag_long_comps(f) + flag_short_comps(f),
        FlagCompMode::Tail(part) => flag_tail_comps(f, part),
    }
}

/// The candidates of every effective flag, in declaration order.
pub open spec fn active_flags_comps(
    flags: Seq<FlagView>,
    h: Seq<UnitView>,
    m: FlagCompMode,
) -> Seq<CompView>
    decreases flags.len(),
{
    if flags.len() == 0 {
        Seq::empty()
    } else {
        let head = if flag_active(h, flags[0]) {
            flag_mode_comps(flags[0], m)
        } else {
            Seq::empty()
        };
        head + active_flags_comps(flags.skip(1), h, m)
    }
}

/// The subcommand candidates, each in the `command` group.
pub open spec fn subcommand_comps(cmds: Seq<CommandView>) -> Seq<CompView> {
    Seq::new(
        cmds.len(),
        |i: int| CompView {
            value: cmds[i].name,
            description: cmds[i].description,
            group: Some(seq!['c', 'o', 'm', 'm', 'a', 'n', 'd']),
        },
    )
}

/// Which completer the synthesizer hands the final token to.
pub enum CompleterRef {
    FlagRef(FlagIdView),
    ArgRef(ArgIdView),
}

/// How the synthesizer rewrites what a completer returns.
pub enum WrapView {
    /// Candidates pass through unchanged.
    Plain,
    /// Each candidate value becomes `--body=value`.
    LongEq(Seq<char>),
    /// Each candidate value extends the typed cluster part.
    Prefix(Seq<char>),
}

/// A candidate rewritten under a wrap.
pub open spec fn wrap_comp(w: WrapView, c: CompView) -> CompView {
    match w {
        WrapView::Plain => c,
        WrapView::LongEq(body) => CompView {
            value: seq!['-', '-'] + body + seq!['='] + c.value,
            ..c
        },
        WrapView::Prefix(part) => CompView { value: part + c.value, ..c },
    }
}

/// A candidate list rewritten under a wrap.
pub open spec fn wrap_all(w: WrapView, cs: Seq<CompView>) -> Seq<CompView> {
    cs.map_values(|c: CompView| wrap_comp(w, c))
}

/// The synthesizer's outcome for the final token: either a fully
/// determined candidate list, or `base` followed by the wrapped results
/// of one completer call.
pub enum SynthView {
    Fixed(Seq<CompView>),
    FromCompleter {
        target: CompleterRef,
        value: Seq<char>,
        wrap: WrapView,
        base: Seq<CompView>,
    },
}

/// The synthesizer: candidates for the final token `t`, and the history
/// as it stands afterwards.
pub open spec fn synth(cmd: CommandView, ctx: CtxView, h: Seq<UnitView>, t: Seq<char>) -> (
    Seq<UnitView>,
    Result<SynthView, ErrorView>,
) {
    let disable = cmd.commands.len() > 0 && ctx_has_seen(ctx);
    let cls = if disable {
        Ok(ClassView::NotFlag)
    } else {
        flag_class(t)
    };
    match cls {
        Err(e) => (h, Err(ErrorView::ParsedFlag(e))),
        Ok(ClassView::Empty) | Ok(ClassView::NotFlag) => {
            let cmd_comps = if ctx_has_seen(ctx) {
                Seq::<CompView>::empty()
            } else {
                subcommand_comps(cmd.commands)
            };
            match ctx_next(cmd.args, ctx) {
                Some((a, ctx2)) => (
                    h,
                    Ok(
                        SynthView::FromCompleter {
                            target: CompleterRef::ArgRef(a.id),
                            value: t,
                            wrap: WrapView::Plain,
                            base: cmd_comps,
                        },
                    ),
                ),
                None => if ctx_has_seen(ctx) || cmd.commands.len() == 0 {
                    (h, Err(ErrorView::UnexpectedArg(t)))
                } else {
                    (h, Ok(SynthView::Fixed(cmd_comps)))
                },
            }
        },
        Ok(ClassView::DoubleDash) | Ok(ClassView::Long { equal: None, .. }) => {
            let cs = active_flags_comps(cmd.flags, h, FlagCompMode::Longs);
            if cs.len() == 0 {
                (h, Err(ErrorView::NoPossibleCompletion))
            } else {
                (h, Ok(SynthView::Fixed(cs)))
            }
        },
        Ok(ClassView::SingleDash) => {
            let cs = active_flags_comps(cmd.flags, h, FlagCompMode::LongsShorts);
            if cs.len() == 0 {
                (h, Err(ErrorView::NoPossibleCompletion))
            } else {
                (h, Ok(SynthView::Fixed(cs)))
            }
        },
        Ok(ClassView::Long { body, equal: Some(v) }) => {
            let j = find_long_idx(cmd.flags, h, body);
            if j == -1 {
                (h, Err(ErrorView::FlagNotFound(body)))
            } else if !cmd.flags[j].takes_value {
                (h, Err(ErrorView::BoolFlagEqualsValue(t)))
            } else {
                (
                    h,
                    Ok(
                        SynthView::FromCompleter {
                            target: CompleterRef::FlagRef(cmd.flags[j].id),
                            value: v,
                            wrap: WrapView::LongEq(body),
                            base: Seq::empty(),
                        },
                    ),
                )
            }
        },
        Ok(ClassView::Short { .. }) | Ok(ClassView::MultiShort(..)) => {
            let (h1, res) = resolve_shorts(cmd.flags, h, t, 1);
            match res {
                Err(e) => (h1, Err(e)),
                Ok(rv) => if rv.flag.takes_value {
                    let value = match rv.value {
                        Some(v) => v,
                        None => Seq::empty(),
                    };
                    (
                        h1,
                        Ok(
                            SynthView::FromCompleter {
                                target: CompleterRef::FlagRef(rv.flag.id),
                                value,
                                wrap: WrapView::Prefix(rv.flag_part),
                                base: Seq::empty(),
                            },
                        ),
                    )
                } else {
                    let h2 = spec_push_pure_flag(h1, rv.flag.id);
                    let cs = active_flags_comps(
                        cmd.flags,
                        h2,
                        FlagCompMode::Tail(rv.flag_part),
                    );
                    if cs.len() == 0 {
                        (h2, Err(ErrorView::NoPossibleCompletion))
                    } else {
                        (h2, Ok(SynthView::Fixed(cs)))
                    }
                },
            }
        },
    }
}

/// The token stream the walker consumes: the program name dropped, an
/// empty terminal token appended when the caller asks for one.
pub open spec fn spec_tokens(args: Seq<Seq<char>>, last_is_empty: bool) -> Seq<Seq<char>> {
    let base = if args.len() >= 1 {
        args.skip(1)
    } else {
        Seq::<Seq<char>>::empty()
    };
    if last_is_empty {
        base.push(Seq::<char>::empty())
    } else {
        base
    }
}

/// Do these candidates agree with the synthesizer's outcome?  A fixed
/// outcome pins them down; a completer outcome pins the base and the
/// wrapping of whatever the completer returned.
pub open spec fn synth_matches(comps: Seq<CompView>, sv: SynthView) -> bool {
    match sv {
        SynthView::Fixed(cs) => comps == cs,
        SynthView::FromCompleter { target, value, wrap, base } => exists|raw: Seq<CompView>|
            comps == base + #[trigger] wrap_all(wrap, raw),
    }
}

/// Does this classification make a token unusable as a flag value?
pub open spec fn class_is_flag_like(c: ClassView) -> bool {
    match c {
        ClassView::DoubleDash => true,
        ClassView::Long { .. } => true,
        ClassView::Short { .. } => true,
        ClassView::MultiShort(..) => true,
        ClassView::Empty => false,
        ClassView::SingleDash => false,
        ClassView::NotFlag => false,
    }
}

/// The walk: what the engine does to the history, and what it returns,
/// for a command, a cursor, and the remaining tokens.  The final token
/// is the last element of `tokens`; it is never recorded.
pub open spec fn walk(
    cmd: CommandView,
    ctx: CtxView,
    h: Seq<UnitView>,
    tokens: Seq<Seq<char>>,
) -> (Seq<UnitView>, Result<SynthView, ErrorView>)
    decreases tokens.len(), 1int,
{
    if tokens.len() == 0 {
        (h, Err(ErrorView::ArgsTooShort))
    } else if tokens.len() == 1 {
        synth(cmd, ctx, h, tokens[0])
    } else {
        let t = tokens[0];
        let disable = cmd.commands.len() > 0 && ctx_has_seen(ctx);
        let cls = if disable {
            Ok(ClassView::NotFlag)
        } else {
            flag_class(t)
        };
        match cls {
            Err(e) => (h, Err(ErrorView::ParsedFlag(e))),
            Ok(ClassView::Empty) | Ok(ClassView::SingleDash) | Ok(ClassView::DoubleDash) => {
                match ctx_next(cmd.args, ctx) {
                    None => (h, Err(ErrorView::UnexpectedArg(t))),
                    Some((a, ctx2)) => walk(
                        cmd,
                        ctx2,
                        spec_push_arg(h, a.id, t),
                        tokens.skip(1),
                    ),
                }
            },
            Ok(ClassView::NotFlag) => {
                let j = if ctx_has_seen(ctx) {
                    -1
                } else {
                    first_cmd_idx(cmd.commands, t)
                };
                if j != -1 {
                    walk(
                        cmd.commands[j],
                        ctx_new(),
                        spec_push_no_val(h, cmd.commands[j].id),
                        tokens.skip(1),
                    )
                } else {
                    match ctx_next(cmd.args, ctx) {
                        None => (h, Err(ErrorView::UnexpectedArg(t))),
                        Some((a, ctx2)) => walk(
                            cmd,
                            ctx2,
                            spec_push_arg(h, a.id, t),
                            tokens.skip(1),
                        ),
                    }
                }
            },
            Ok(ClassView::Long { body, equal }) => {
                let j = find_long_idx(cmd.flags, h, body);
                if j == -1 {
                    (h, Err(ErrorView::FlagNotFound(body)))
                } else {
                    let f = cmd.flags[j];
                    match equal {
                        Some(v) => if !f.takes_value {
                            (h, Err(ErrorView::BoolFlagEqualsValue(t)))
                        } else {
                            walk(cmd, ctx, spec_push_flag_val(h, f.id, v), tokens.skip(1))
                        },
                        None => flag_value_step(cmd, ctx, h, f, tokens),
                    }
                }
            },
            Ok(ClassView::Short { .. }) | Ok(ClassView::MultiShort(..)) => {
                let (h1, res) = resolve_shorts(cmd.flags, h, t, 1);
                match res {
                    Err(e) => (h1, Err(e)),
                    Ok(rv) => match rv.value {
                        Some(v) => if !rv.flag.takes_value {
                            (h1, Err(ErrorView::BoolFlagEqualsValue(t)))
                        } else {
                            walk(
                                cmd,
                                ctx,
                                spec_push_flag_val(h1, rv.flag.id, v),
                                tokens.skip(1),
                            )
                        },
                        None => flag_value_step(cmd, ctx, h1, rv.flag, tokens),
                    },
                }
            },
        }
    }
}

/// A recognized flag with no attached value.  A boolean flag is
/// recorded at once; a value-taking flag consumes the next token as its
/// value, unless that token is itself a flag, or is the final token, in
/// which case its completer is consulted.
pub open spec fn flag_value_step(
    cmd: CommandView,
    ctx: CtxView,
    h: Seq<UnitView>,
    f: FlagView,
    tokens: Seq<Seq<char>>,
) -> (Seq<UnitView>, Result<SynthView, ErrorView>)
    decreases tokens.len(), 0int,
{
    if tokens.len() < 2 {
        (h, Err(ErrorView::ArgsTooShort))
    } else if !f.takes_value {
        walk(cmd, ctx, spec_push_pure_flag(h, f.id), tokens.skip(1))
    } else {
        let next = tokens[1];
        match flag_class(next) {
            Err(e) => (h, Err(ErrorView::ParsedFlag(e))),
            Ok(c2) => if class_is_flag_like(c2) {
                (h, Err(ErrorView::FlagNoValue(f.id.name())))
            } else if tokens.len() == 2 {
                (
                    h,
                    Ok(
                        SynthView::FromCompleter {
                            target: CompleterRef::FlagRef(f.id),
                            value: next,
                            wrap: WrapView::Plain,
                            base: Seq::empty(),
                        },
                    ),
                )
            } else {
                walk(cmd, ctx, spec_push_flag_val(h, f.id, next), tokens.skip(2))
            },
        }
    }
}

} // verus!
