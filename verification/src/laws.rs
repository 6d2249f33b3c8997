//! Laws of the walk: what holds of every run of the engine.
//!
//! Each law is stated over the model in `model`; the engine's public
//! functions return exactly what the model says (their contracts), so
//! these laws carry over to every execution.

use vstd::prelude::*;

use crate::command::CommandView;
use crate::command::FlagView;
use crate::history::first_match_idx;
use crate::history::lemma_first_match_idx;
use crate::history::spec_push_arg;
use crate::history::spec_push_multi_val;
use crate::history::spec_push_no_val;
use crate::history::spec_push_single_val;
use crate::history::unit_is_multi;
use crate::history::unit_is_no;
use crate::history::unit_is_single;
use crate::history::UnitView;
use crate::id::ArgIdView;
use crate::id::FlagIdView;
use crate::id::IdView;
use crate::model::ctx_has_seen;
use crate::model::ctx_new;
use crate::model::ctx_next;
use crate::model::find_long_idx;
use crate::model::find_short_idx;
use crate::model::first_cmd_idx;
use crate::model::flag_value_step;
use crate::model::resolve_shorts;
use crate::model::spec_push_flag_val;
use crate::model::spec_push_pure_flag;
use crate::model::synth;
use crate::model::walk;
use crate::parsed_flag::flag_class;
use crate::parsed_flag::ClassView;

verus! {

/// Unit `b` carries `a` forward: the same identity and shape, and for a
/// multi-value unit the earlier values as a prefix, in order.
pub open spec fn unit_extends(a: UnitView, b: UnitView) -> bool {
    match (a, b) {
        (UnitView::No { id: i }, UnitView::No { id: j }) => i == j,
        (UnitView::Single { id: i, .. }, UnitView::Single { id: j, .. }) => i == j,
        (
            UnitView::Multi { id: i, values: vs },
            UnitView::Multi { id: j, values: ws },
        ) => i == j && vs.is_prefix_of(ws),
        _ => false,
    }
}

/// History `h2` extends `h1`: every unit of `h1` is still at its place,
/// with its identity, and multi-value units have only grown at the end.
pub open spec fn history_extends(h1: Seq<UnitView>, h2: Seq<UnitView>) -> bool {
    &&& h1.len() <= h2.len()
    &&& forall|j: int| 0 <= j < h1.len() ==> unit_extends(#[trigger] h1[j], h2[j])
}

proof fn lemma_extends_refl(h: Seq<UnitView>)
    ensures
        history_extends(h, h),
{
    assert forall|j: int| 0 <= j < h.len() implies unit_extends(h[j], h[j]) by {
        match h[j] {
            UnitView::Multi { id, values } => {
                assert(values.is_prefix_of(values)) by {
                    assert(values =~= values.take(values.len() as int));
                }
            },
            _ => {},
        }
    }
}

proof fn lemma_unit_extends_trans(a: UnitView, b: UnitView, c: UnitView)
    requires
        unit_extends(a, b),
        unit_extends(b, c),
    ensures
        unit_extends(a, c),
{
    match (a, b, c) {
        (
            UnitView::Multi { values: x, .. },
            UnitView::Multi { values: y, .. },
            UnitView::Multi { values: z, .. },
        ) => {
            assert(x =~= y.take(x.len() as int));
            assert(y =~= z.take(y.len() as int));
            assert(x =~= z.take(x.len() as int));
        },
        _ => {},
    }
}

proof fn lemma_extends_trans(a: Seq<UnitView>, b: Seq<UnitView>, c: Seq<UnitView>)
    requires
        history_extends(a, b),
        history_extends(b, c),
    ensures
        history_extends(a, c),
{
    assert forall|j: int| 0 <= j < a.len() implies unit_extends(a[j], c[j]) by {
        lemma_unit_extends_trans(a[j], b[j], c[j]);
    }
}

proof fn lemma_push_no_extends(h: Seq<UnitView>, id: IdView)
    ensures
        history_extends(h, spec_push_no_val(h, id)),
{
    lemma_extends_refl(h);
}

proof fn lemma_push_single_extends(h: Seq<UnitView>, id: IdView, v: Seq<char>)
    ensures
        history_extends(h, spec_push_single_val(h, id, v)),
{
    lemma_extends_refl(h);
    let p = |u: UnitView| unit_is_single(u, id);
    lemma_first_match_idx(h, p);
    let j = first_match_idx(h, p);
    if j >= 0 {
        let h2 = h.update(j, UnitView::Single { id, value: v });
        assert forall|k: int| 0 <= k < h.len() implies unit_extends(h[k], h2[k]) by {
            if k != j {
                assert(h2[k] == h[k]);
                assert(unit_extends(h[k], h[k]));
            }
        }
    }
}

proof fn lemma_push_multi_extends(h: Seq<UnitView>, id: IdView, v: Seq<char>)
    ensures
        history_extends(h, spec_push_multi_val(h, id, v)),
{
    lemma_extends_refl(h);
    let p = |u: UnitView| unit_is_multi(u, id);
    lemma_first_match_idx(h, p);
    let j = first_match_idx(h, p);
    if j >= 0 {
        let old_values = h[j]->Multi_values;
        let h2 = h.update(j, UnitView::Multi { id, values: old_values.push(v) });
        assert forall|k: int| 0 <= k < h.len() implies unit_extends(h[k], h2[k]) by {
            if k != j {
                assert(h2[k] == h[k]);
                assert(unit_extends(h[k], h[k]));
            } else {
                assert(old_values =~= old_values.push(v).take(old_values.len() as int));
                assert(old_values.is_prefix_of(old_values.push(v)));
            }
        }
    }
}

proof fn lemma_push_arg_extends(h: Seq<UnitView>, id: ArgIdView, v: Seq<char>)
    ensures
        history_extends(h, spec_push_arg(h, id, v)),
{
    match id {
        ArgIdView::Single(i) => lemma_push_single_extends(h, i, v),
        ArgIdView::Multi(i) => lemma_push_multi_extends(h, i, v),
    }
}

proof fn lemma_push_flag_val_extends(h: Seq<UnitView>, id: FlagIdView, v: Seq<char>)
    ensures
        history_extends(h, spec_push_flag_val(h, id, v)),
{
    match id {
        FlagIdView::Single(i) => lemma_push_single_extends(h, i, v),
        FlagIdView::Multi(i) => lemma_push_multi_extends(h, i, v),
        FlagIdView::No(_) => lemma_extends_refl(h),
    }
}

proof fn lemma_push_pure_extends(h: Seq<UnitView>, id: FlagIdView)
    ensures
        history_extends(h, spec_push_pure_flag(h, id)),
{
    match id {
        FlagIdView::No(i) => lemma_push_no_extends(h, i),
        _ => lemma_extends_refl(h),
    }
}

proof fn lemma_resolve_extends(
    flags: Seq<FlagView>,
    h: Seq<UnitView>,
    s: Seq<char>,
    i: int,
)
    ensures
        history_extends(h, resolve_shorts(flags, h, s, i).0),
    decreases s.len() - i,
{
    lemma_extends_refl(h);
    if 1 <= i && i < s.len() {
        let c = s[i];
        let j = find_short_idx(flags, h, c);
        if j != -1 {
            let f = flags[j];
            if i != s.len() - 1 && s[i + 1] != '=' && !f.takes_value {
                let h1 = spec_push_pure_flag(h, f.id);
                lemma_push_pure_extends(h, f.id);
                lemma_resolve_extends(flags, h1, s, i + 1);
                lemma_extends_trans(h, h1, resolve_shorts(flags, h1, s, i + 1).0);
            }
        }
    }
}

proof fn lemma_synth_extends(cmd: CommandView, ctx: crate::model::CtxView, h: Seq<UnitView>, t: Seq<char>)
    ensures
        history_extends(h, synth(cmd, ctx, h, t).0),
{
    lemma_extends_refl(h);
    let disable = cmd.commands.len() > 0 && ctx_has_seen(ctx);
    let cls = if disable {
        Ok::<ClassView, crate::parsed_flag::Error>(ClassView::NotFlag)
    } else {
        flag_class(t)
    };
    match cls {
        Ok(ClassView::Short { .. }) | Ok(ClassView::MultiShort(..)) => {
            let (h1, res) = resolve_shorts(cmd.flags, h, t, 1);
            lemma_resolve_extends(cmd.flags, h, t, 1);
            match res {
                Ok(rv) => {
                    if !rv.flag.takes_value {
                        lemma_push_pure_extends(h1, rv.flag.id);
                        lemma_extends_trans(h, h1, spec_push_pure_flag(h1, rv.flag.id));
                    }
                },
                Err(_) => {},
            }
        },
        _ => {},
    }
}

/// The order law: the walk never removes or reorders what the history
/// already holds.  Every unit keeps its position and identity; a
/// single-value unit may see its value replaced in place; a multi-value
/// unit only accumulates further values at its end, in token order.
pub proof fn lemma_walk_extends(
    cmd: CommandView,
    ctx: crate::model::CtxView,
    h: Seq<UnitView>,
    tokens: Seq<Seq<char>>,
)
    ensures
        history_extends(h, walk(cmd, ctx, h, tokens).0),
    decreases tokens.len(), 1int,
{
    lemma_extends_refl(h);
    if tokens.len() == 0 {
    } else if tokens.len() == 1 {
        lemma_synth_extends(cmd, ctx, h, tokens[0]);
    } else {
        let t = tokens[0];
        let disable = cmd.commands.len() > 0 && ctx_has_seen(ctx);
        let cls = if disable {
            Ok::<ClassView, crate::parsed_flag::Error>(ClassView::NotFlag)
        } else {
            flag_class(t)
        };
        match cls {
            Err(_) => {},
            Ok(ClassView::Empty) | Ok(ClassView::SingleDash) | Ok(ClassView::DoubleDash) => {
                match ctx_next(cmd.args, ctx) {
                    None => {},
                    Some((a, ctx2)) => {
                        let h1 = spec_push_arg(h, a.id, t);
                        lemma_push_arg_extends(h, a.id, t);
                        lemma_walk_extends(cmd, ctx2, h1, tokens.skip(1));
                        lemma_extends_trans(h, h1, walk(cmd, ctx2, h1, tokens.skip(1)).0);
                    },
                }
            },
            Ok(ClassView::NotFlag) => {
                let j = if ctx_has_seen(ctx) {
                    -1int
                } else {
                    first_cmd_idx(cmd.commands, t)
                };
                if j != -1 {
                    let h1 = spec_push_no_val(h, cmd.commands[j].id);
                    lemma_push_no_extends(h, cmd.commands[j].id);
                    lemma_walk_extends(cmd.commands[j], ctx_new(), h1, tokens.skip(1));
                    lemma_extends_trans(
                        h,
                        h1,
                        walk(cmd.commands[j], ctx_new(), h1, tokens.skip(1)).0,
                    );
                } else {
                    match ctx_next(cmd.args, ctx) {
                        None => {},
                        Some((a, ctx2)) => {
                            let h1 = spec_push_arg(h, a.id, t);
                            lemma_push_arg_extends(h, a.id, t);
                            lemma_walk_extends(cmd, ctx2, h1, tokens.skip(1));
                            lemma_extends_trans(
                                h,
                                h1,
                                walk(cmd, ctx2, h1, tokens.skip(1)).0,
                            );
                        },
                    }
                }
            },
            Ok(ClassView::Long { body, equal }) => {
                let j = find_long_idx(cmd.flags, h, body);
                if j != -1 {
                    let f = cmd.flags[j];
                    match equal {
                        Some(v) => {
                            if f.takes_value {
                                let h1 = spec_push_flag_val(h, f.id, v);
                                lemma_push_flag_val_extends(h, f.id, v);
                                lemma_walk_extends(cmd, ctx, h1, tokens.skip(1));
                                lemma_extends_trans(
                                    h,
                                    h1,
                                    walk(cmd, ctx, h1, tokens.skip(1)).0,
                                );
                            }
                        },
                        None => {
                            lemma_flag_value_step_extends(cmd, ctx, h, f, tokens);
                        },
                    }
                }
            },
            Ok(ClassView::Short { .. }) | Ok(ClassView::MultiShort(..)) => {
                let (h1, res) = resolve_shorts(cmd.flags, h, t, 1);
                lemma_resolve_extends(cmd.flags, h, t, 1);
                match res {
                    Err(_) => {},
                    Ok(rv) => {
                        match rv.value {
                            Some(v) => {
                                if rv.flag.takes_value {
                                    let h2 = spec_push_flag_val(h1, rv.flag.id, v);
                                    lemma_push_flag_val_extends(h1, rv.flag.id, v);
                                    lemma_walk_extends(cmd, ctx, h2, tokens.skip(1));
                                    lemma_extends_trans(
                                        h1,
                                        h2,
                                        walk(cmd, ctx, h2, tokens.skip(1)).0,
                                    );
                                    lemma_extends_trans(
                                        h,
                                        h1,
                                        walk(cmd, ctx, h2, tokens.skip(1)).0,
                                    );
                                }
                            },
                            None => {
                                lemma_flag_value_step_extends(cmd, ctx, h1, rv.flag, tokens);
                                lemma_extends_trans(
                                    h,
                                    h1,
                                    flag_value_step(cmd, ctx, h1, rv.flag, tokens).0,
                                );
                            },
                        }
                    },
                }
            },
        }
    }
}

proof fn lemma_flag_value_step_extends(
    cmd: CommandView,
    ctx: crate::model::CtxView,
    h: Seq<UnitView>,
    f: FlagView,
    tokens: Seq<Seq<char>>,
)
    ensures
        history_extends(h, flag_value_step(cmd, ctx, h, f, tokens).0),
    decreases tokens.len(), 0int,
{
    lemma_extends_refl(h);
    if tokens.len() >= 2 {
        if !f.takes_value {
            let h1 = spec_push_pure_flag(h, f.id);
            lemma_push_pure_extends(h, f.id);
            lemma_walk_extends(cmd, ctx, h1, tokens.skip(1));
            lemma_extends_trans(h, h1, walk(cmd, ctx, h1, tokens.skip(1)).0);
        } else {
            let next = tokens[1];
            match flag_class(next) {
                Err(_) => {},
                Ok(c2) => {
                    if !crate::model::class_is_flag_like(c2) && tokens.len() > 2 {
                        let h1 = spec_push_flag_val(h, f.id, next);
                        lemma_push_flag_val_extends(h, f.id, next);
                        lemma_walk_extends(cmd, ctx, h1, tokens.skip(2));
                        lemma_extends_trans(h, h1, walk(cmd, ctx, h1, tokens.skip(2)).0);
                    }
                },
            }
        }
    }
}


/// No unit in the history records this no-value identity.
pub open spec fn no_unit_with(h: Seq<UnitView>, id: IdView) -> bool {
    forall|k: int| 0 <= k < h.len() ==> !unit_is_no(#[trigger] h[k], id)
}

/// The history holds at most one unit under this no-value identity.
pub open spec fn at_most_one_no(h: Seq<UnitView>, id: IdView) -> bool {
    forall|j: int, k: int|
        0 <= j < h.len() && 0 <= k < h.len() && unit_is_no(#[trigger] h[j], id)
            && unit_is_no(#[trigger] h[k], id) ==> j == k
}

/// The history holds at most one unit under this single-value identity.
pub open spec fn at_most_one_single(h: Seq<UnitView>, id: IdView) -> bool {
    forall|j: int, k: int|
        0 <= j < h.len() && 0 <= k < h.len() && unit_is_single(#[trigger] h[j], id)
            && unit_is_single(#[trigger] h[k], id) ==> j == k
}

/// The history holds at most one unit under this multi-value identity.
pub open spec fn at_most_one_multi(h: Seq<UnitView>, id: IdView) -> bool {
    forall|j: int, k: int|
        0 <= j < h.len() && 0 <= k < h.len() && unit_is_multi(#[trigger] h[j], id)
            && unit_is_multi(#[trigger] h[k], id) ==> j == k
}

/// Throughout the tree, every flag bearing this no-value identity has
/// its `once` bit set, and no command bears it.
pub open spec fn once_id_guarded(c: CommandView, id: IdView) -> bool
    decreases c,
{
    &&& forall|i: int|
        0 <= i < c.flags.len() ==> ((#[trigger] c.flags[i]).id == FlagIdView::No(id)
            ==> c.flags[i].once)
    &&& forall|i: int|
        0 <= i < c.commands.len() ==> (#[trigger] c.commands[i]).id != id
            && once_id_guarded(c.commands[i], id)
}

proof fn lemma_push_no_at_most(h: Seq<UnitView>, id2: IdView, id: IdView)
    requires
        at_most_one_no(h, id),
        id2 == id ==> no_unit_with(h, id),
    ensures
        at_most_one_no(spec_push_no_val(h, id2), id),
{
}

proof fn lemma_push_single_keeps_no(h: Seq<UnitView>, id2: IdView, v: Seq<char>, id: IdView)
    requires
        at_most_one_no(h, id),
    ensures
        at_most_one_no(spec_push_single_val(h, id2, v), id),
        no_unit_with(h, id) ==> no_unit_with(spec_push_single_val(h, id2, v), id),
{
    let p = |u: UnitView| unit_is_single(u, id2);
    lemma_first_match_idx(h, p);
}

proof fn lemma_push_multi_keeps_no(h: Seq<UnitView>, id2: IdView, v: Seq<char>, id: IdView)
    requires
        at_most_one_no(h, id),
    ensures
        at_most_one_no(spec_push_multi_val(h, id2, v), id),
        no_unit_with(h, id) ==> no_unit_with(spec_push_multi_val(h, id2, v), id),
{
    let p = |u: UnitView| unit_is_multi(u, id2);
    lemma_first_match_idx(h, p);
}

proof fn lemma_push_arg_keeps_no(h: Seq<UnitView>, aid: ArgIdView, v: Seq<char>, id: IdView)
    requires
        at_most_one_no(h, id),
    ensures
        at_most_one_no(spec_push_arg(h, aid, v), id),
{
    match aid {
        ArgIdView::Single(i) => lemma_push_single_keeps_no(h, i, v, id),
        ArgIdView::Multi(i) => lemma_push_multi_keeps_no(h, i, v, id),
    }
}

proof fn lemma_push_flag_val_keeps_no(
    h: Seq<UnitView>,
    fid: FlagIdView,
    v: Seq<char>,
    id: IdView,
)
    requires
        at_most_one_no(h, id),
    ensures
        at_most_one_no(spec_push_flag_val(h, fid, v), id),
{
    match fid {
        FlagIdView::Single(i) => lemma_push_single_keeps_no(h, i, v, id),
        FlagIdView::Multi(i) => lemma_push_multi_keeps_no(h, i, v, id),
        FlagIdView::No(_) => {},
    }
}

/// Flags guarded for this identity: any flag bearing it is `once`.
spec fn flags_once_guarded(flags: Seq<FlagView>, id: IdView) -> bool {
    forall|i: int|
        0 <= i < flags.len() ==> ((#[trigger] flags[i]).id == FlagIdView::No(id)
            ==> flags[i].once)
}

proof fn lemma_resolve_at_most(
    flags: Seq<FlagView>,
    h: Seq<UnitView>,
    s: Seq<char>,
    i: int,
    id: IdView,
)
    requires
        at_most_one_no(h, id),
        flags_once_guarded(flags, id),
    ensures
        at_most_one_no(resolve_shorts(flags, h, s, i).0, id),
        resolve_shorts(flags, h, s, i).1 matches Ok(rv) ==> (rv.flag.id == FlagIdView::No(
            id,
        ) ==> no_unit_with(resolve_shorts(flags, h, s, i).0, id)),
    decreases s.len() - i,
{
    if 1 <= i && i < s.len() {
        let c = s[i];
        let j = find_short_idx(flags, h, c);
        let p = |f: FlagView| crate::model::flag_active(h, f) && f.short.contains(c);
        crate::model::lemma_first_flag_idx(flags, p);
        if j != -1 {
            let f = flags[j];
            assert(crate::model::flag_active(h, f));
            if i == s.len() - 1 || s[i + 1] == '=' || f.takes_value {
                if f.id == FlagIdView::No(id) {
                    assert(f.once);
                    assert(!crate::model::flag_in_history(h, f.id));
                }
            } else {
                let h1 = spec_push_pure_flag(h, f.id);
                if f.id == FlagIdView::No(id) {
                    assert(f.once);
                    assert(!crate::model::flag_in_history(h, f.id));
                    assert(no_unit_with(h, id));
                    lemma_push_no_at_most(h, id, id);
                } else {
                    match f.id {
                        FlagIdView::No(other) => {
                            lemma_push_no_at_most(h, other, id);
                        },
                        _ => {},
                    }
                }
                lemma_resolve_at_most(flags, h1, s, i + 1, id);
            }
        }
    }
}

proof fn lemma_synth_at_most(
    cmd: CommandView,
    ctx: crate::model::CtxView,
    h: Seq<UnitView>,
    t: Seq<char>,
    id: IdView,
)
    requires
        at_most_one_no(h, id),
        once_id_guarded(cmd, id),
    ensures
        at_most_one_no(synth(cmd, ctx, h, t).0, id),
{
    let disable = cmd.commands.len() > 0 && ctx_has_seen(ctx);
    let cls = if disable {
        Ok::<ClassView, crate::parsed_flag::Error>(ClassView::NotFlag)
    } else {
        flag_class(t)
    };
    match cls {
        Ok(ClassView::Short { .. }) | Ok(ClassView::MultiShort(..)) => {
            let (h1, res) = resolve_shorts(cmd.flags, h, t, 1);
            lemma_resolve_at_most(cmd.flags, h, t, 1, id);
            match res {
                Ok(rv) => {
                    if !rv.flag.takes_value {
                        match rv.flag.id {
                            FlagIdView::No(other) => {
                                lemma_push_no_at_most(h1, other, id);
                            },
                            _ => {},
                        }
                    }
                },
                Err(_) => {},
            }
        },
        _ => {},
    }
}

/// The once law: when every flag bearing a no-value identity is
/// declared `once` throughout the tree, and no command bears it, the
/// walk leaves at most one unit under that identity in history.
/// Single- and multi-value identities satisfy this unconditionally, by
/// `lemma_walk_single_at_most_once` and `lemma_walk_multi_at_most_once`.
pub proof fn lemma_walk_once_at_most_once(
    cmd: CommandView,
    ctx: crate::model::CtxView,
    h: Seq<UnitView>,
    tokens: Seq<Seq<char>>,
    id: IdView,
)
    requires
        at_most_one_no(h, id),
        once_id_guarded(cmd, id),
    ensures
        at_most_one_no(walk(cmd, ctx, h, tokens).0, id),
    decreases tokens.len(), 1int,
{
    if tokens.len() == 0 {
    } else if tokens.len() == 1 {
        lemma_synth_at_most(cmd, ctx, h, tokens[0], id);
    } else {
        let t = tokens[0];
        let disable = cmd.commands.len() > 0 && ctx_has_seen(ctx);
        let cls = if disable {
            Ok::<ClassView, crate::parsed_flag::Error>(ClassView::NotFlag)
        } else {
            flag_class(t)
        };
        match cls {
            Err(_) => {},
            Ok(ClassView::Empty) | Ok(ClassView::SingleDash) | Ok(ClassView::DoubleDash) => {
                match ctx_next(cmd.args, ctx) {
                    None => {},
                    Some((a, ctx2)) => {
                        lemma_push_arg_keeps_no(h, a.id, t, id);
                        lemma_walk_once_at_most_once(
                            cmd,
                            ctx2,
                            spec_push_arg(h, a.id, t),
                            tokens.skip(1),
                            id,
                        );
                    },
                }
            },
            Ok(ClassView::NotFlag) => {
                let j = if ctx_has_seen(ctx) {
                    -1int
                } else {
                    first_cmd_idx(cmd.commands, t)
                };
                if j != -1 {
                    crate::model::lemma_first_cmd_idx(cmd.commands, t);
                    assert(cmd.commands[j].id != id);
                    lemma_push_no_at_most(h, cmd.commands[j].id, id);
                    lemma_walk_once_at_most_once(
                        cmd.commands[j],
                        ctx_new(),
                        spec_push_no_val(h, cmd.commands[j].id),
                        tokens.skip(1),
                        id,
                    );
                } else {
                    match ctx_next(cmd.args, ctx) {
                        None => {},
                        Some((a, ctx2)) => {
                            lemma_push_arg_keeps_no(h, a.id, t, id);
                            lemma_walk_once_at_most_once(
                                cmd,
                                ctx2,
                                spec_push_arg(h, a.id, t),
                                tokens.skip(1),
                                id,
                            );
                        },
                    }
                }
            },
            Ok(ClassView::Long { body, equal }) => {
                let j = find_long_idx(cmd.flags, h, body);
                let p = |f: FlagView| crate::model::flag_active(h, f) && f.long.contains(
                    body,
                );
                crate::model::lemma_first_flag_idx(cmd.flags, p);
                if j != -1 {
                    let f = cmd.flags[j];
                    assert(crate::model::flag_active(h, f));
                    match equal {
                        Some(v) => {
                            if f.takes_value {
                                lemma_push_flag_val_keeps_no(h, f.id, v, id);
                                lemma_walk_once_at_most_once(
                                    cmd,
                                    ctx,
                                    spec_push_flag_val(h, f.id, v),
                                    tokens.skip(1),
                                    id,
                                );
                            }
                        },
                        None => {
                            if f.id == FlagIdView::No(id) {
                                assert(f.once);
                                assert(!crate::model::flag_in_history(h, f.id));
                                assert(no_unit_with(h, id));
                            }
                            lemma_flag_value_step_at_most(cmd, ctx, h, f, tokens, id);
                        },
                    }
                }
            },
            Ok(ClassView::Short { .. }) | Ok(ClassView::MultiShort(..)) => {
                let (h1, res) = resolve_shorts(cmd.flags, h, t, 1);
                lemma_resolve_at_most(cmd.flags, h, t, 1, id);
                match res {
                    Err(_) => {},
                    Ok(rv) => {
                        match rv.value {
                            Some(v) => {
                                if rv.flag.takes_value {
                                    lemma_push_flag_val_keeps_no(h1, rv.flag.id, v, id);
                                    lemma_walk_once_at_most_once(
                                        cmd,
                                        ctx,
                                        spec_push_flag_val(h1, rv.flag.id, v),
                                        tokens.skip(1),
                                        id,
                                    );
                                }
                            },
                            None => {
                                lemma_flag_value_step_at_most(
                                    cmd,
                                    ctx,
                                    h1,
                                    rv.flag,
                                    tokens,
                                    id,
                                );
                            },
                        }
                    },
                }
            },
        }
    }
}

proof fn lemma_flag_value_step_at_most(
    cmd: CommandView,
    ctx: crate::model::CtxView,
    h: Seq<UnitView>,
    f: FlagView,
    tokens: Seq<Seq<char>>,
    id: IdView,
)
    requires
        at_most_one_no(h, id),
        once_id_guarded(cmd, id),
        f.id == FlagIdView::No(id) ==> no_unit_with(h, id),
    ensures
        at_most_one_no(flag_value_step(cmd, ctx, h, f, tokens).0, id),
    decreases tokens.len(), 0int,
{
    if tokens.len() >= 2 {
        if !f.takes_value {
            match f.id {
                FlagIdView::No(other) => {
                    lemma_push_no_at_most(h, other, id);
                },
                _ => {},
            }
            lemma_walk_once_at_most_once(
                cmd,
                ctx,
                spec_push_pure_flag(h, f.id),
                tokens.skip(1),
                id,
            );
        } else {
            let next = tokens[1];
            match flag_class(next) {
                Err(_) => {},
                Ok(c2) => {
                    if !crate::model::class_is_flag_like(c2) && tokens.len() > 2 {
                        lemma_push_flag_val_keeps_no(h, f.id, next, id);
                        lemma_walk_once_at_most_once(
                            cmd,
                            ctx,
                            spec_push_flag_val(h, f.id, next),
                            tokens.skip(2),
                            id,
                        );
                    }
                },
            }
        }
    }
}


proof fn lemma_push_single_shapes(h: Seq<UnitView>, id2: IdView, v: Seq<char>, id: IdView)
    requires
        at_most_one_single(h, id),
        at_most_one_multi(h, id),
    ensures
        at_most_one_single(spec_push_single_val(h, id2, v), id),
        at_most_one_multi(spec_push_single_val(h, id2, v), id),
{
    let p = |u: UnitView| unit_is_single(u, id2);
    lemma_first_match_idx(h, p);
}

proof fn lemma_push_multi_shapes(h: Seq<UnitView>, id2: IdView, v: Seq<char>, id: IdView)
    requires
        at_most_one_single(h, id),
        at_most_one_multi(h, id),
    ensures
        at_most_one_single(spec_push_multi_val(h, id2, v), id),
        at_most_one_multi(spec_push_multi_val(h, id2, v), id),
{
    let p = |u: UnitView| unit_is_multi(u, id2);
    lemma_first_match_idx(h, p);
}

proof fn lemma_push_arg_shapes(h: Seq<UnitView>, aid: ArgIdView, v: Seq<char>, id: IdView)
    requires
        at_most_one_single(h, id),
        at_most_one_multi(h, id),
    ensures
        at_most_one_single(spec_push_arg(h, aid, v), id),
        at_most_one_multi(spec_push_arg(h, aid, v), id),
{
    match aid {
        ArgIdView::Single(i) => lemma_push_single_shapes(h, i, v, id),
        ArgIdView::Multi(i) => lemma_push_multi_shapes(h, i, v, id),
    }
}

proof fn lemma_push_flag_val_shapes(
    h: Seq<UnitView>,
    fid: FlagIdView,
    v: Seq<char>,
    id: IdView,
)
    requires
        at_most_one_single(h, id),
        at_most_one_multi(h, id),
    ensures
        at_most_one_single(spec_push_flag_val(h, fid, v), id),
        at_most_one_multi(spec_push_flag_val(h, fid, v), id),
{
    match fid {
        FlagIdView::Single(i) => lemma_push_single_shapes(h, i, v, id),
        FlagIdView::Multi(i) => lemma_push_multi_shapes(h, i, v, id),
        FlagIdView::No(_) => {},
    }
}

proof fn lemma_resolve_shapes(
    flags: Seq<FlagView>,
    h: Seq<UnitView>,
    s: Seq<char>,
    i: int,
    id: IdView,
)
    requires
        at_most_one_single(h, id),
        at_most_one_multi(h, id),
    ensures
        at_most_one_single(resolve_shorts(flags, h, s, i).0, id),
        at_most_one_multi(resolve_shorts(flags, h, s, i).0, id),
    decreases s.len() - i,
{
    if 1 <= i && i < s.len() {
        let c = s[i];
        let j = find_short_idx(flags, h, c);
        if j != -1 {
            let f = flags[j];
            if i != s.len() - 1 && s[i + 1] != '=' && !f.takes_value {
                lemma_resolve_shapes(flags, spec_push_pure_flag(h, f.id), s, i + 1, id);
            }
        }
    }
}

proof fn lemma_synth_shapes(
    cmd: CommandView,
    ctx: crate::model::CtxView,
    h: Seq<UnitView>,
    t: Seq<char>,
    id: IdView,
)
    requires
        at_most_one_single(h, id),
        at_most_one_multi(h, id),
    ensures
        at_most_one_single(synth(cmd, ctx, h, t).0, id),
        at_most_one_multi(synth(cmd, ctx, h, t).0, id),
{
    let disable = cmd.commands.len() > 0 && ctx_has_seen(ctx);
    let cls = if disable {
        Ok::<ClassView, crate::parsed_flag::Error>(ClassView::NotFlag)
    } else {
        flag_class(t)
    };
    match cls {
        Ok(ClassView::Short { .. }) | Ok(ClassView::MultiShort(..)) => {
            lemma_resolve_shapes(cmd.flags, h, t, 1, id);
        },
        _ => {},
    }
}

proof fn lemma_walk_extends_shapes(
    cmd: CommandView,
    ctx: crate::model::CtxView,
    h: Seq<UnitView>,
    tokens: Seq<Seq<char>>,
    id: IdView,
)
    requires
        at_most_one_single(h, id),
        at_most_one_multi(h, id),
    ensures
        at_most_one_single(walk(cmd, ctx, h, tokens).0, id),
        at_most_one_multi(walk(cmd, ctx, h, tokens).0, id),
    decreases tokens.len(), 1int,
{
    if tokens.len() == 0 {
    } else if tokens.len() == 1 {
        lemma_synth_shapes(cmd, ctx, h, tokens[0], id);
    } else {
        let t = tokens[0];
        let disable = cmd.commands.len() > 0 && ctx_has_seen(ctx);
        let cls = if disable {
            Ok::<ClassView, crate::parsed_flag::Error>(ClassView::NotFlag)
        } else {
            flag_class(t)
        };
        match cls {
            Err(_) => {},
            Ok(ClassView::Empty) | Ok(ClassView::SingleDash) | Ok(ClassView::DoubleDash) => {
                match ctx_next(cmd.args, ctx) {
                    None => {},
                    Some((a, ctx2)) => {
                        lemma_push_arg_shapes(h, a.id, t, id);
                        lemma_walk_extends_shapes(
                            cmd,
                            ctx2,
                            spec_push_arg(h, a.id, t),
                            tokens.skip(1),
                            id,
                        );
                    },
                }
            },
            Ok(ClassView::NotFlag) => {
                let j = if ctx_has_seen(ctx) {
                    -1int
                } else {
                    first_cmd_idx(cmd.commands, t)
                };
                if j != -1 {
                    lemma_walk_extends_shapes(
                        cmd.commands[j],
                        ctx_new(),
                        spec_push_no_val(h, cmd.commands[j].id),
                        tokens.skip(1),
                        id,
                    );
                } else {
                    match ctx_next(cmd.args, ctx) {
                        None => {},
                        Some((a, ctx2)) => {
                            lemma_push_arg_shapes(h, a.id, t, id);
                            lemma_walk_extends_shapes(
                                cmd,
                                ctx2,
                                spec_push_arg(h, a.id, t),
                                tokens.skip(1),
                                id,
                            );
                        },
                    }
                }
            },
            Ok(ClassView::Long { body, equal }) => {
                let j = find_long_idx(cmd.flags, h, body);
                if j != -1 {
                    let f = cmd.flags[j];
                    match equal {
                        Some(v) => {
                            if f.takes_value {
                                lemma_push_flag_val_shapes(h, f.id, v, id);
                                lemma_walk_extends_shapes(
                                    cmd,
                                    ctx,
                                    spec_push_flag_val(h, f.id, v),
                                    tokens.skip(1),
                                    id,
                                );
                            }
                        },
                        None => {
                            lemma_flag_value_step_shapes(cmd, ctx, h, f, tokens, id);
                        },
                    }
                }
            },
            Ok(ClassView::Short { .. }) | Ok(ClassView::MultiShort(..)) => {
                let (h1, res) = resolve_shorts(cmd.flags, h, t, 1);
                lemma_resolve_shapes(cmd.flags, h, t, 1, id);
                match res {
                    Err(_) => {},
                    Ok(rv) => {
                        match rv.value {
                            Some(v) => {
                                if rv.flag.takes_value {
                                    lemma_push_flag_val_shapes(h1, rv.flag.id, v, id);
                                    lemma_walk_extends_shapes(
                                        cmd,
                                        ctx,
                                        spec_push_flag_val(h1, rv.flag.id, v),
                                        tokens.skip(1),
                                        id,
                                    );
                                }
                            },
                            None => {
                                lemma_flag_value_step_shapes(cmd, ctx, h1, rv.flag, tokens, id);
                            },
                        }
                    },
                }
            },
        }
    }
}

proof fn lemma_flag_value_step_shapes(
    cmd: CommandView,
    ctx: crate::model::CtxView,
    h: Seq<UnitView>,
    f: FlagView,
    tokens: Seq<Seq<char>>,
    id: IdView,
)
    requires
        at_most_one_single(h, id),
        at_most_one_multi(h, id),
    ensures
        at_most_one_single(flag_value_step(cmd, ctx, h, f, tokens).0, id),
        at_most_one_multi(flag_value_step(cmd, ctx, h, f, tokens).0, id),
    decreases tokens.len(), 0int,
{
    if tokens.len() >= 2 {
        if !f.takes_value {
            lemma_walk_extends_shapes(
                cmd,
                ctx,
                spec_push_pure_flag(h, f.id),
                tokens.skip(1),
                id,
            );
        } else {
            let next = tokens[1];
            match flag_class(next) {
                Err(_) => {},
                Ok(c2) => {
                    if !crate::model::class_is_flag_like(c2) && tokens.len() > 2 {
                        lemma_push_flag_val_shapes(h, f.id, next, id);
                        lemma_walk_extends_shapes(
                            cmd,
                            ctx,
                            spec_push_flag_val(h, f.id, next),
                            tokens.skip(2),
                            id,
                        );
                    }
                },
            }
        }
    }
}

/// The walk never duplicates a single-value identity: later sightings
/// overwrite the first unit in place.
pub proof fn lemma_walk_single_at_most_once(
    cmd: CommandView,
    ctx: crate::model::CtxView,
    h: Seq<UnitView>,
    tokens: Seq<Seq<char>>,
    id: IdView,
)
    requires
        at_most_one_single(h, id),
        at_most_one_multi(h, id),
    ensures
        at_most_one_single(walk(cmd, ctx, h, tokens).0, id),
{
    lemma_walk_extends_shapes(cmd, ctx, h, tokens, id);
}

/// The walk never duplicates a multi-value identity: later values
/// accumulate on the first unit.
pub proof fn lemma_walk_multi_at_most_once(
    cmd: CommandView,
    ctx: crate::model::CtxView,
    h: Seq<UnitView>,
    tokens: Seq<Seq<char>>,
    id: IdView,
)
    requires
        at_most_one_single(h, id),
        at_most_one_multi(h, id),
    ensures
        at_most_one_multi(walk(cmd, ctx, h, tokens).0, id),
{
    lemma_walk_extends_shapes(cmd, ctx, h, tokens, id);
}


/// No token in the stream is a multi-character short cluster.
pub open spec fn no_multishort(tokens: Seq<Seq<char>>) -> bool {
    forall|k: int|
        0 <= k < tokens.len() ==> !((#[trigger] flag_class(tokens[k])) matches Ok(
            ClassView::MultiShort(..),
        ))
}

proof fn lemma_push_single_len(h: Seq<UnitView>, id: IdView, v: Seq<char>)
    ensures
        spec_push_single_val(h, id, v).len() <= h.len() + 1,
{
    let p = |u: UnitView| unit_is_single(u, id);
    lemma_first_match_idx(h, p);
}

proof fn lemma_push_multi_len(h: Seq<UnitView>, id: IdView, v: Seq<char>)
    ensures
        spec_push_multi_val(h, id, v).len() <= h.len() + 1,
{
    let p = |u: UnitView| unit_is_multi(u, id);
    lemma_first_match_idx(h, p);
}

proof fn lemma_push_arg_len(h: Seq<UnitView>, aid: ArgIdView, v: Seq<char>)
    ensures
        spec_push_arg(h, aid, v).len() <= h.len() + 1,
{
    match aid {
        ArgIdView::Single(i) => lemma_push_single_len(h, i, v),
        ArgIdView::Multi(i) => lemma_push_multi_len(h, i, v),
    }
}

proof fn lemma_push_flag_val_len(h: Seq<UnitView>, fid: FlagIdView, v: Seq<char>)
    ensures
        spec_push_flag_val(h, fid, v).len() <= h.len() + 1,
{
    match fid {
        FlagIdView::Single(i) => lemma_push_single_len(h, i, v),
        FlagIdView::Multi(i) => lemma_push_multi_len(h, i, v),
        FlagIdView::No(_) => {},
    }
}

/// A single short flag, with or without an attached `=value`, records
/// nothing during cluster resolution.
proof fn lemma_resolve_short_no_push(flags: Seq<FlagView>, h: Seq<UnitView>, s: Seq<char>)
    requires
        flag_class(s) matches Ok(ClassView::Short { .. }),
    ensures
        resolve_shorts(flags, h, s, 1).0 == h,
{
    assert(s.len() == 2 || s[2] == '=');
}

proof fn lemma_synth_len(
    cmd: CommandView,
    ctx: crate::model::CtxView,
    h: Seq<UnitView>,
    t: Seq<char>,
)
    requires
        !(flag_class(t) matches Ok(ClassView::MultiShort(..))),
    ensures
        synth(cmd, ctx, h, t).0.len() <= h.len() + 1,
{
    let disable = cmd.commands.len() > 0 && ctx_has_seen(ctx);
    let cls = if disable {
        Ok::<ClassView, crate::parsed_flag::Error>(ClassView::NotFlag)
    } else {
        flag_class(t)
    };
    match cls {
        Ok(ClassView::Short { .. }) => {
            if !disable {
                lemma_resolve_short_no_push(cmd.flags, h, t);
            }
        },
        _ => {},
    }
}

/// The length law: while no token is a multi-character short cluster,
/// each consumed token adds at most one unit to the history, so the
/// history never outgrows the token stream.  A cluster such as one of
/// several boolean shorts records one unit per character and can
/// exceed this bound.
pub proof fn lemma_walk_history_bounded(
    cmd: CommandView,
    ctx: crate::model::CtxView,
    h: Seq<UnitView>,
    tokens: Seq<Seq<char>>,
)
    requires
        no_multishort(tokens),
    ensures
        walk(cmd, ctx, h, tokens).0.len() <= h.len() + tokens.len(),
    decreases tokens.len(), 1int,
{
    if tokens.len() == 0 {
    } else if tokens.len() == 1 {
        lemma_synth_len(cmd, ctx, h, tokens[0]);
    } else {
        let t = tokens[0];
        proof_skip_no_multishort(tokens, 1);
        let disable = cmd.commands.len() > 0 && ctx_has_seen(ctx);
        let cls = if disable {
            Ok::<ClassView, crate::parsed_flag::Error>(ClassView::NotFlag)
        } else {
            flag_class(t)
        };
        match cls {
            Err(_) => {},
            Ok(ClassView::Empty) | Ok(ClassView::SingleDash) | Ok(ClassView::DoubleDash) => {
                match ctx_next(cmd.args, ctx) {
                    None => {},
                    Some((a, ctx2)) => {
                        lemma_push_arg_len(h, a.id, t);
                        lemma_walk_history_bounded(
                            cmd,
                            ctx2,
                            spec_push_arg(h, a.id, t),
                            tokens.skip(1),
                        );
                    },
                }
            },
            Ok(ClassView::NotFlag) => {
                let j = if ctx_has_seen(ctx) {
                    -1int
                } else {
                    first_cmd_idx(cmd.commands, t)
                };
                if j != -1 {
                    lemma_walk_history_bounded(
                        cmd.commands[j],
                        ctx_new(),
                        spec_push_no_val(h, cmd.commands[j].id),
                        tokens.skip(1),
                    );
                } else {
                    match ctx_next(cmd.args, ctx) {
                        None => {},
                        Some((a, ctx2)) => {
                            lemma_push_arg_len(h, a.id, t);
                            lemma_walk_history_bounded(
                                cmd,
                                ctx2,
                                spec_push_arg(h, a.id, t),
                                tokens.skip(1),
                            );
                        },
                    }
                }
            },
            Ok(ClassView::Long { body, equal }) => {
                let j = find_long_idx(cmd.flags, h, body);
                if j != -1 {
                    let f = cmd.flags[j];
                    match equal {
                        Some(v) => {
                            if f.takes_value {
                                lemma_push_flag_val_len(h, f.id, v);
                                lemma_walk_history_bounded(
                                    cmd,
                                    ctx,
                                    spec_push_flag_val(h, f.id, v),
                                    tokens.skip(1),
                                );
                            }
                        },
                        None => {
                            lemma_flag_value_step_len(cmd, ctx, h, f, tokens);
                        },
                    }
                }
            },
            Ok(ClassView::Short { .. }) | Ok(ClassView::MultiShort(..)) => {
                lemma_resolve_short_no_push(cmd.flags, h, t);
                let (h1, res) = resolve_shorts(cmd.flags, h, t, 1);
                match res {
                    Err(_) => {},
                    Ok(rv) => {
                        match rv.value {
                            Some(v) => {
                                if rv.flag.takes_value {
                                    lemma_push_flag_val_len(h1, rv.flag.id, v);
                                    lemma_walk_history_bounded(
                                        cmd,
                                        ctx,
                                        spec_push_flag_val(h1, rv.flag.id, v),
                                        tokens.skip(1),
                                    );
                                }
                            },
                            None => {
                                lemma_flag_value_step_len(cmd, ctx, h1, rv.flag, tokens);
                            },
                        }
                    },
                }
            },
        }
    }
}

proof fn proof_skip_no_multishort(tokens: Seq<Seq<char>>, n: int)
    requires
        no_multishort(tokens),
        0 <= n <= tokens.len(),
    ensures
        no_multishort(tokens.skip(n)),
{
    assert forall|k: int|
        0 <= k < tokens.skip(n).len() implies !((#[trigger] flag_class(
        tokens.skip(n)[k],
    )) matches Ok(ClassView::MultiShort(..))) by {
        assert(tokens.skip(n)[k] == tokens[k + n]);
        assert(!(flag_class(tokens[k + n]) matches Ok(ClassView::MultiShort(..))));
    }
}

proof fn lemma_flag_value_step_len(
    cmd: CommandView,
    ctx: crate::model::CtxView,
    h: Seq<UnitView>,
    f: FlagView,
    tokens: Seq<Seq<char>>,
)
    requires
        no_multishort(tokens),
    ensures
        flag_value_step(cmd, ctx, h, f, tokens).0.len() <= h.len() + tokens.len(),
    decreases tokens.len(), 0int,
{
    if tokens.len() >= 2 {
        proof_skip_no_multishort(tokens, 1);
        proof_skip_no_multishort(tokens, 2);
        if !f.takes_value {
            lemma_walk_history_bounded(
                cmd,
                ctx,
                spec_push_pure_flag(h, f.id),
                tokens.skip(1),
            );
        } else {
            let next = tokens[1];
            match flag_class(next) {
                Err(_) => {},
                Ok(c2) => {
                    if !crate::model::class_is_flag_like(c2) && tokens.len() > 2 {
                        lemma_push_flag_val_len(h, f.id, next);
                        lemma_walk_history_bounded(
                            cmd,
                            ctx,
                            spec_push_flag_val(h, f.id, next),
                            tokens.skip(2),
                        );
                    }
                },
            }
        }
    }
}

/// The equivalence law: the five spellings of a value-carrying flag --
/// `--long=v`, `--long v`, `-s=v`, `-s v` and `-sv` -- drive the walk
/// to the same place: the flag's identity records `v`, and the walk
/// goes on over the remaining tokens, with the cursor untouched.
pub proof fn lemma_flag_form_equivalence(
    cmd: CommandView,
    ctx: crate::model::CtxView,
    h: Seq<UnitView>,
    rest: Seq<Seq<char>>,
    name: Seq<char>,
    ch: char,
    v: Seq<char>,
    t_long_eq: Seq<char>,
    t_long: Seq<char>,
    t_short_eq: Seq<char>,
    t_short: Seq<char>,
    t_attached: Seq<char>,
)
    requires
        rest.len() >= 1,
        !(cmd.commands.len() > 0 && ctx_has_seen(ctx)),
        flag_class(t_long_eq) == Ok::<ClassView, crate::parsed_flag::Error>(
            ClassView::Long { body: name, equal: Some(v) },
        ),
        flag_class(t_long) == Ok::<ClassView, crate::parsed_flag::Error>(
            ClassView::Long { body: name, equal: None },
        ),
        flag_class(t_short_eq) == Ok::<ClassView, crate::parsed_flag::Error>(
            ClassView::Short { body: ch, equal: Some(v) },
        ),
        flag_class(t_short) == Ok::<ClassView, crate::parsed_flag::Error>(
            ClassView::Short { body: ch, equal: None },
        ),
        flag_class(t_attached) == Ok::<ClassView, crate::parsed_flag::Error>(
            ClassView::MultiShort(seq![ch] + v),
        ),
        (match flag_class(v) {
            Ok(c) => !crate::model::class_is_flag_like(c),
            Err(_) => false,
        }),
        find_long_idx(cmd.flags, h, name) == find_short_idx(cmd.flags, h, ch),
        find_long_idx(cmd.flags, h, name) != -1,
        cmd.flags[find_long_idx(cmd.flags, h, name)].takes_value,
        v.len() >= 1,
        v[0] != '=',
    ensures
        ({
            let f = cmd.flags[find_long_idx(cmd.flags, h, name)];
            let target = walk(cmd, ctx, spec_push_flag_val(h, f.id, v), rest);
            &&& walk(cmd, ctx, h, seq![t_long_eq] + rest) == target
            &&& walk(cmd, ctx, h, seq![t_long, v] + rest) == target
            &&& walk(cmd, ctx, h, seq![t_short_eq] + rest) == target
            &&& walk(cmd, ctx, h, seq![t_short, v] + rest) == target
            &&& walk(cmd, ctx, h, seq![t_attached] + rest) == target
        }),
{
    let j = find_long_idx(cmd.flags, h, name);
    let f = cmd.flags[j];
    let p = |g: FlagView| crate::model::flag_active(h, g) && g.long.contains(name);
    crate::model::lemma_first_flag_idx(cmd.flags, p);

    // --long=v
    let toks1 = seq![t_long_eq] + rest;
    assert(toks1[0] == t_long_eq);
    assert(toks1.skip(1) =~= rest);
    assert(toks1.len() >= 2);

    // --long v
    let toks2 = seq![t_long, v] + rest;
    assert(toks2[0] == t_long);
    assert(toks2[1] == v);
    assert(toks2.skip(2) =~= rest);
    assert(toks2.len() >= 3);

    // -s=v
    let toks3 = seq![t_short_eq] + rest;
    assert(toks3[0] == t_short_eq);
    assert(toks3.skip(1) =~= rest);
    assert(toks3.len() >= 2);
    assert(t_short_eq.len() == 3 + v.len() && t_short_eq[1] == ch && t_short_eq[2] == '='
        && t_short_eq.skip(3) =~= v) by {
        assert(flag_class(t_short_eq) matches Ok(ClassView::Short { equal: Some(..), .. }));
        assert(t_short_eq.subrange(3, t_short_eq.len() as int) == v);
        assert(t_short_eq.skip(3) =~= t_short_eq.subrange(3, t_short_eq.len() as int));
    }
    assert(resolve_shorts(cmd.flags, h, t_short_eq, 1) == (
        h,
        Ok::<crate::model::ResolvedView, crate::error::ErrorView>(
            crate::model::ResolvedView {
                flag: f,
                value: Some(v),
                flag_part: t_short_eq.take(3),
            },
        ),
    )) by {
        assert(t_short_eq.skip(3) =~= v);
    }

    // -s v
    let toks4 = seq![t_short, v] + rest;
    assert(toks4[0] == t_short);
    assert(toks4[1] == v);
    assert(toks4.skip(2) =~= rest);
    assert(toks4.len() >= 3);
    assert(t_short.len() == 2 && t_short[1] == ch) by {
        assert(flag_class(t_short) matches Ok(ClassView::Short { equal: None, .. }));
    }

    // -sv
    let toks5 = seq![t_attached] + rest;
    assert(toks5[0] == t_attached);
    assert(toks5.skip(1) =~= rest);
    assert(toks5.len() >= 2);
    assert(t_attached.len() == 1 + 1 + v.len() && t_attached[1] == ch && t_attached.skip(2)
        =~= v && t_attached[2] == v[0]) by {
        assert(t_attached.skip(1) == seq![ch] + v);
        assert(t_attached.skip(1)[0] == ch);
        assert(t_attached.len() == 1 + (seq![ch] + v).len());
        assert forall|x: int| 0 <= x < v.len() implies t_attached.skip(2)[x] == v[x] by {
            assert(t_attached.skip(1)[x + 1] == (seq![ch] + v)[x + 1]);
        }
        assert(t_attached.skip(2) =~= v);
        assert(t_attached[2] == t_attached.skip(1)[1]);
    }

    let target = walk(cmd, ctx, spec_push_flag_val(h, f.id, v), rest);
    assert(walk(cmd, ctx, h, toks1) == target);
    assert(walk(cmd, ctx, h, toks2) == target) by {
        assert(flag_value_step(cmd, ctx, h, f, toks2) == target);
    }
    assert(walk(cmd, ctx, h, toks3) == target);
    assert(walk(cmd, ctx, h, toks4) == target) by {
        assert(resolve_shorts(cmd.flags, h, t_short, 1) == (
            h,
            Ok::<crate::model::ResolvedView, crate::error::ErrorView>(
                crate::model::ResolvedView { flag: f, value: None, flag_part: t_short },
            ),
        ));
        assert(flag_value_step(cmd, ctx, h, f, toks4) == target);
    }
    assert(walk(cmd, ctx, h, toks5) == target) by {
        assert(resolve_shorts(cmd.flags, h, t_attached, 1) == (
            h,
            Ok::<crate::model::ResolvedView, crate::error::ErrorView>(
                crate::model::ResolvedView {
                    flag: f,
                    value: Some(v),
                    flag_part: t_attached.take(2),
                },
            ),
        ));
    }
}


/// The equivalence law inside a cluster: with a boolean flag `x`
/// leading the cluster, `-xl=v` and `-xlv` also record `v` under the
/// value flag's identity -- after `x` itself is recorded -- and the
/// walk goes on over the remaining tokens.
pub proof fn lemma_cluster_flag_form_equivalence(
    cmd: CommandView,
    ctx: crate::model::CtxView,
    h: Seq<UnitView>,
    rest: Seq<Seq<char>>,
    bx: char,
    ch: char,
    v: Seq<char>,
    t_cluster_eq: Seq<char>,
    t_cluster: Seq<char>,
)
    requires
        rest.len() >= 1,
        !(cmd.commands.len() > 0 && ctx_has_seen(ctx)),
        flag_class(t_cluster_eq) == Ok::<ClassView, crate::parsed_flag::Error>(
            ClassView::MultiShort(seq![bx, ch, '='] + v),
        ),
        flag_class(t_cluster) == Ok::<ClassView, crate::parsed_flag::Error>(
            ClassView::MultiShort(seq![bx, ch] + v),
        ),
        find_short_idx(cmd.flags, h, bx) != -1,
        !cmd.flags[find_short_idx(cmd.flags, h, bx)].takes_value,
        ({
            let h1 = spec_push_pure_flag(h, cmd.flags[find_short_idx(cmd.flags, h, bx)].id);
            &&& find_short_idx(cmd.flags, h1, ch) != -1
            &&& cmd.flags[find_short_idx(cmd.flags, h1, ch)].takes_value
        }),
        v.len() >= 1,
        v[0] != '=',
    ensures
        ({
            let h1 = spec_push_pure_flag(h, cmd.flags[find_short_idx(cmd.flags, h, bx)].id);
            let f = cmd.flags[find_short_idx(cmd.flags, h1, ch)];
            let target = walk(cmd, ctx, spec_push_flag_val(h1, f.id, v), rest);
            &&& walk(cmd, ctx, h, seq![t_cluster_eq] + rest) == target
            &&& walk(cmd, ctx, h, seq![t_cluster] + rest) == target
        }),
{
    let jx = find_short_idx(cmd.flags, h, bx);
    let h1 = spec_push_pure_flag(h, cmd.flags[jx].id);
    let j1 = find_short_idx(cmd.flags, h1, ch);
    let f = cmd.flags[j1];

    // -xl=v
    let toks1 = seq![t_cluster_eq] + rest;
    assert(toks1[0] == t_cluster_eq);
    assert(toks1.skip(1) =~= rest);
    assert(toks1.len() >= 2);
    assert(t_cluster_eq.len() == 4 + v.len() && t_cluster_eq[1] == bx && t_cluster_eq[2]
        == ch && t_cluster_eq[3] == '=' && t_cluster_eq.skip(4) =~= v && t_cluster_eq[2]
        != '=') by {
        let body = seq![bx, ch, '='] + v;
        assert(t_cluster_eq.skip(1) == body);
        assert(t_cluster_eq.len() == 1 + body.len());
        assert(t_cluster_eq.skip(1)[0] == bx);
        assert(t_cluster_eq.skip(1)[1] == ch);
        assert(t_cluster_eq.skip(1)[2] == '=');
        assert(flag_class(t_cluster_eq) matches Ok(ClassView::MultiShort(..)));
        assert forall|x: int| 0 <= x < v.len() implies t_cluster_eq.skip(4)[x] == v[x] by {
            assert(t_cluster_eq.skip(1)[x + 3] == (seq![bx, ch, '='] + v)[x + 3]);
        }
        assert(t_cluster_eq.skip(4) =~= v);
        assert(t_cluster_eq[2] == t_cluster_eq.skip(1)[1]);
    }
    assert(resolve_shorts(cmd.flags, h, t_cluster_eq, 1) == (
        h1,
        Ok::<crate::model::ResolvedView, crate::error::ErrorView>(
            crate::model::ResolvedView {
                flag: f,
                value: Some(v),
                flag_part: t_cluster_eq.take(4),
            },
        ),
    )) by {
        assert(t_cluster_eq.skip(4int) =~= v);
        assert(resolve_shorts(cmd.flags, h1, t_cluster_eq, 2) == (
            h1,
            Ok::<crate::model::ResolvedView, crate::error::ErrorView>(
                crate::model::ResolvedView {
                    flag: f,
                    value: Some(v),
                    flag_part: t_cluster_eq.take(4),
                },
            ),
        ));
    }
    assert(walk(cmd, ctx, h, toks1) == walk(cmd, ctx, spec_push_flag_val(h1, f.id, v), rest));

    // -xlv
    let toks2 = seq![t_cluster] + rest;
    assert(toks2[0] == t_cluster);
    assert(toks2.skip(1) =~= rest);
    assert(toks2.len() >= 2);
    assert(t_cluster.len() == 3 + v.len() && t_cluster[1] == bx && t_cluster[2] == ch
        && t_cluster[3] == v[0] && t_cluster.skip(3) =~= v && t_cluster[2] != '=') by {
        let body = seq![bx, ch] + v;
        assert(t_cluster.skip(1) == body);
        assert(t_cluster.len() == 1 + body.len());
        assert(t_cluster.skip(1)[0] == bx);
        assert(t_cluster.skip(1)[1] == ch);
        assert(t_cluster.skip(1)[2] == v[0]);
        assert forall|x: int| 0 <= x < v.len() implies t_cluster.skip(3)[x] == v[x] by {
            assert(t_cluster.skip(1)[x + 2] == (seq![bx, ch] + v)[x + 2]);
        }
        assert(t_cluster.skip(3) =~= v);
        assert(t_cluster[2] == t_cluster.skip(1)[1]);
        assert(t_cluster[3] == t_cluster.skip(1)[2]);
    }
    assert(resolve_shorts(cmd.flags, h, t_cluster, 1) == (
        h1,
        Ok::<crate::model::ResolvedView, crate::error::ErrorView>(
            crate::model::ResolvedView {
                flag: f,
                value: Some(v),
                flag_part: t_cluster.take(3),
            },
        ),
    )) by {
        assert(t_cluster.skip(3int) =~= v);
        assert(resolve_shorts(cmd.flags, h1, t_cluster, 2) == (
            h1,
            Ok::<crate::model::ResolvedView, crate::error::ErrorView>(
                crate::model::ResolvedView {
                    flag: f,
                    value: Some(v),
                    flag_part: t_cluster.take(3),
                },
            ),
        ));
    }
    assert(walk(cmd, ctx, h, toks2) == walk(cmd, ctx, spec_push_flag_val(h1, f.id, v), rest));
}

} // verus!
