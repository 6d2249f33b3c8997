//! The executable engine: flag lookup, short-cluster resolution,
//! candidate generation, and the walk itself, each verified against the
//! model in `model`.

use vstd::prelude::*;
use vstd::string::StrSliceExecFns;

use crate::arg_context::ArgsContext;
use crate::command::command_wf;
use crate::command::flag_wf;
use crate::command::Command;
use crate::command::Flag;
use crate::command::FlagView;
use crate::command::ValueCompleter;
use crate::completion::comps_view;
use crate::completion::Completion;
use crate::completion::CompletionGroup;
use crate::completion::CompView;
use crate::error::Error;
use crate::error::ErrorView;
use crate::history::History;
use crate::history::ID;
use crate::id;
use crate::model;
use crate::model::active_flags_comps;
use crate::model::ctx_new;
use crate::model::find_long_idx;
use crate::model::find_short_idx;
use crate::model::first_cmd_idx;
use crate::model::flag_active;
use crate::model::flag_in_history;
use crate::model::flag_long_comps;
use crate::model::flag_mode_comps;
use crate::model::flag_short_comps;
use crate::model::flag_tail_comps;
use crate::model::resolve_shorts;
use crate::model::spec_push_flag_val;
use crate::model::spec_push_pure_flag;
use crate::model::subcommand_comps;
use crate::model::synth;
use crate::model::synth_matches;
use crate::model::walk;
use crate::model::wrap_all;
use crate::model::wrap_comp;
use crate::model::FlagCompMode;
use crate::model::WrapView;
use crate::model::class_is_flag_like;
use crate::parsed_flag::flag_class;
use crate::parsed_flag::ParsedFlag;
use crate::strutil::char_to_string;
use crate::strutil::str_concat;
use crate::strutil::str_eq;

verus! {

broadcast use vstd::std_specs::vec::axiom_vec_index_decreases;

/// Is this flag still effective under the given history?
fn flag_is_active<C>(f: &Flag<C>, history: &History) -> (r: bool)
    ensures
        r == flag_active(history@, f@),
{
    if !f.once {
        return true;
    }
    let found = match &f.id {
        id::Flag::No(v) => f_found_no(v, history),
        id::Flag::Single(v) => f_found_single(v, history),
        id::Flag::Multi(v) => f_found_multi(v, history),
    };
    !found
}

/// Is a no-value unit with this identity in history?
fn f_found_no(v: &id::NoVal, history: &History) -> (r: bool)
    ensures
        r == flag_in_history(history@, crate::id::FlagIdView::No(v@)),
{
    let r = history.find(v.clone());
    proof {
        if r is Some {
            let j = crate::history::first_match_idx(
                history@,
                |u: crate::history::UnitView| v.id_matches(u),
            );
            crate::history::lemma_first_match_idx(
                history@,
                |u: crate::history::UnitView| v.id_matches(u),
            );
        }
    }
    r.is_some()
}

/// Is a single-value unit with this identity in history?
fn f_found_single(v: &id::SingleVal, history: &History) -> (r: bool)
    ensures
        r == flag_in_history(history@, crate::id::FlagIdView::Single(v@)),
{
    let r = history.find(v.clone());
    proof {
        if r is Some {
            crate::history::lemma_first_match_idx(
                history@,
                |u: crate::history::UnitView| v.id_matches(u),
            );
        }
    }
    r.is_some()
}

/// Is a multi-value unit with this identity in history?
fn f_found_multi(v: &id::MultiVal, history: &History) -> (r: bool)
    ensures
        r == flag_in_history(history@, crate::id::FlagIdView::Multi(v@)),
{
    let r = history.find(v.clone());
    proof {
        if r is Some {
            crate::history::lemma_first_match_idx(
                history@,
                |u: crate::history::UnitView| v.id_matches(u),
            );
        }
    }
    r.is_some()
}

/// Does the alias list hold this long name?
fn long_contains(longs: &Vec<String>, name: &str) -> (r: bool)
    ensures
        r == (exists|k: int| 0 <= k < longs@.len() && (#[trigger] longs@[k])@ == name@),
{
    let n = longs.len();
    let mut i: usize = 0;
    while i < n
        invariant
            n == longs@.len(),
            i <= n,
            forall|k: int| 0 <= k < i ==> (#[trigger] longs@[k])@ != name@,
        decreases n - i,
    {
        if str_eq(longs[i].as_str(), name) {
            proof {
                assert((longs@[i as int])@ == name@);
            }
            return true;
        }
        i += 1;
    }
    false
}

/// Does the alias list hold this short character?
fn short_contains(shorts: &Vec<char>, c: char) -> (r: bool)
    ensures
        r == shorts@.contains(c),
{
    let n = shorts.len();
    let mut i: usize = 0;
    while i < n
        invariant
            n == shorts@.len(),
            i <= n,
            forall|k: int| 0 <= k < i ==> shorts@[k] != c,
        decreases n - i,
    {
        if shorts[i] == c {
            return true;
        }
        i += 1;
    }
    false
}

/// The first effective flag with this long alias.
fn find_long_flag<C>(flags: &Vec<Flag<C>>, history: &History, name: &str) -> (r: Option<usize>)
    ensures
        ({
            let fv = flags@.map_values(|f: Flag<C>| f@);
            let j = find_long_idx(fv, history@, name@);
            match r {
                Some(k) => k as int == j && 0 <= j < fv.len(),
                None => j == -1,
            }
        }),
{
    let ghost fv = flags@.map_values(|f: Flag<C>| f@);
    let ghost pred = |f: FlagView| flag_active(history@, f) && f.long.contains(name@);
    let n = flags.len();
    let mut i: usize = 0;
    while i < n
        invariant
            n == flags@.len(),
            i <= n,
            fv == flags@.map_values(|f: Flag<C>| f@),
            pred == (|f: FlagView| flag_active(history@, f) && f.long.contains(name@)),
            forall|k: int| 0 <= k < i ==> !pred(fv[k]),
        decreases n - i,
    {
        let active = flag_is_active(&flags[i], history);
        let has_long = long_contains(&flags[i].info.long, name);
        proof {
            let lv = flags@[i as int].info.long@;
            assert(fv[i as int].long =~= lv.map_values(|t: String| t@));
            if has_long {
                let k = choose|k: int| 0 <= k < lv.len() && (#[trigger] lv[k])@ == name@;
                assert(fv[i as int].long[k] == name@);
                assert(fv[i as int].long.contains(name@));
            } else if fv[i as int].long.contains(name@) {
                let k = choose|k: int|
                    0 <= k < fv[i as int].long.len() && fv[i as int].long[k] == name@;
                assert((lv[k])@ == name@);
                assert(false);
            }
        }
        if active && has_long {
            proof {
                assert(pred(fv[i as int]));
                model::lemma_first_flag_idx_is(fv, pred, i as int);
            }
            return Some(i);
        }
        proof {
            assert(!pred(fv[i as int]));
        }
        i += 1;
    }
    proof {
        model::lemma_first_flag_idx(fv, pred);
    }
    None
}

/// The first effective flag with this short alias.
fn find_short_flag<C>(flags: &Vec<Flag<C>>, history: &History, c: char) -> (r: Option<usize>)
    ensures
        ({
            let fv = flags@.map_values(|f: Flag<C>| f@);
            let j = find_short_idx(fv, history@, c);
            match r {
                Some(k) => k as int == j && 0 <= j < fv.len(),
                None => j == -1,
            }
        }),
{
    let ghost fv = flags@.map_values(|f: Flag<C>| f@);
    let ghost pred = |f: FlagView| flag_active(history@, f) && f.short.contains(c);
    let n = flags.len();
    let mut i: usize = 0;
    while i < n
        invariant
            n == flags@.len(),
            i <= n,
            fv == flags@.map_values(|f: Flag<C>| f@),
            pred == (|f: FlagView| flag_active(history@, f) && f.short.contains(c)),
            forall|k: int| 0 <= k < i ==> !pred(fv[k]),
        decreases n - i,
    {
        let hit = if !flag_is_active(&flags[i], history) {
            false
        } else {
            short_contains(&flags[i].info.short, c)
        };
        if hit {
            proof {
                assert(pred(fv[i as int]));
                model::lemma_first_flag_idx_is(fv, pred, i as int);
            }
            return Some(i);
        }
        proof {
            assert(!pred(fv[i as int]));
        }
        i += 1;
    }
    proof {
        model::lemma_first_flag_idx(fv, pred);
    }
    None
}

/// The first subcommand with this name.
fn find_subcommand<C>(cmds: &Vec<Command<C>>, name: &str) -> (r: Option<usize>)
    ensures
        ({
            let cv = cmds@.map_values(|c: Command<C>| c@);
            let j = first_cmd_idx(cv, name@);
            match r {
                Some(k) => k as int == j && 0 <= j < cv.len(),
                None => j == -1,
            }
        }),
{
    let ghost cv = cmds@.map_values(|c: Command<C>| c@);
    let n = cmds.len();
    let mut i: usize = 0;
    while i < n
        invariant
            n == cmds@.len(),
            i <= n,
            cv == cmds@.map_values(|c: Command<C>| c@),
            forall|k: int| 0 <= k < i ==> (#[trigger] cv[k]).name != name@,
        decreases n - i,
    {
        if str_eq(cmds[i].info.name.as_str(), name) {
            proof {
                assert(cv[i as int].name == name@);
                model::lemma_first_cmd_idx_is(cv, name@, i as int);
            }
            return Some(i);
        }
        proof {
            assert(cv[i as int].name != name@);
        }
        i += 1;
    }
    proof {
        model::lemma_first_cmd_idx(cv, name@);
    }
    None
}

/// Which candidate forms to generate for a flag.
enum GenMode {
    Longs,
    LongsShorts,
    Tail(String),
}

impl View for GenMode {
    type V = FlagCompMode;

    closed spec fn view(&self) -> FlagCompMode {
        match self {
            GenMode::Longs => FlagCompMode::Longs,
            GenMode::LongsShorts => FlagCompMode::LongsShorts,
            GenMode::Tail(part) => FlagCompMode::Tail(part@),
        }
    }
}

/// The `--long` candidates of one flag.
fn flag_long_completions<C>(f: &Flag<C>) -> (r: Vec<Completion>)
    ensures
        comps_view(r@) == flag_long_comps(f@),
{
    proof {
        reveal_strlit("--");
        assert("--"@ =~= seq!['-', '-']);
    }
    let mut ret: Vec<Completion> = Vec::new();
    let n = f.info.long.len();
    let mut i: usize = 0;
    while i < n
        invariant
            n == f.info.long@.len(),
            i <= n,
            "--"@ == seq!['-', '-'],
            ret@.len() == i,
            forall|k: int| 0 <= k < i ==> (#[trigger] ret@[k])@ == flag_long_comps(f@)[k],
        decreases n - i,
    {
        let value = str_concat("--", f.info.long[i].as_str());
        ret.push(
            Completion { value, description: f.info.description.clone(), group: None },
        );
        i += 1;
    }
    proof {
        assert(comps_view(ret@) =~= flag_long_comps(f@));
    }
    ret
}

/// The `-s` candidates of one flag.
fn flag_short_completions<C>(f: &Flag<C>) -> (r: Vec<Completion>)
    ensures
        comps_view(r@) == flag_short_comps(f@),
{
    proof {
        reveal_strlit("-");
        assert("-"@ =~= seq!['-']);
    }
    let mut ret: Vec<Completion> = Vec::new();
    let n = f.info.short.len();
    let mut i: usize = 0;
    while i < n
        invariant
            n == f.info.short@.len(),
            i <= n,
            "-"@ == seq!['-'],
            ret@.len() == i,
            forall|k: int| 0 <= k < i ==> (#[trigger] ret@[k])@ == flag_short_comps(f@)[k],
        decreases n - i,
    {
        let cs = char_to_string(f.info.short[i]);
        let value = str_concat("-", cs.as_str());
        proof {
            assert(value@ =~= seq!['-', f.info.short@[i as int]]);
        }
        ret.push(
            Completion { value, description: f.info.description.clone(), group: None },
        );
        i += 1;
    }
    proof {
        assert(comps_view(ret@) =~= flag_short_comps(f@));
    }
    ret
}

/// The short candidates of one flag, each extending `part` in place.
fn flag_tail_completions<C>(f: &Flag<C>, part: &str) -> (r: Vec<Completion>)
    ensures
        comps_view(r@) == flag_tail_comps(f@, part@),
{
    let mut ret: Vec<Completion> = Vec::new();
    let n = f.info.short.len();
    let mut i: usize = 0;
    while i < n
        invariant
            n == f.info.short@.len(),
            i <= n,
            ret@.len() == i,
            forall|k: int|
                0 <= k < i ==> (#[trigger] ret@[k])@ == flag_tail_comps(f@, part@)[k],
        decreases n - i,
    {
        let cs = char_to_string(f.info.short[i]);
        let value = str_concat(part, cs.as_str());
        proof {
            assert(value@ =~= part@ + seq![f.info.short@[i as int]]);
        }
        ret.push(
            Completion { value, description: f.info.description.clone(), group: None },
        );
        i += 1;
    }
    proof {
        assert(comps_view(ret@) =~= flag_tail_comps(f@, part@));
    }
    ret
}

/// The candidates of one flag under the given mode.
fn flag_mode_completions<C>(f: &Flag<C>, m: &GenMode) -> (r: Vec<Completion>)
    ensures
        comps_view(r@) == flag_mode_comps(f@, m@),
{
    match m {
        GenMode::Longs => flag_long_completions(f),
        GenMode::LongsShorts => {
            let mut ret = flag_long_completions(f);
            let mut shorts = flag_short_completions(f);
            ret.append(&mut shorts);
            proof {
                assert(comps_view(ret@) =~= flag_long_comps(f@) + flag_short_comps(f@));
            }
            ret
        },
        GenMode::Tail(part) => flag_tail_completions(f, part.as_str()),
    }
}

/// The candidates of every effective flag, in declaration order.
fn active_flags_completions<C>(flags: &Vec<Flag<C>>, history: &History, m: &GenMode) -> (r:
    Vec<Completion>)
    ensures
        comps_view(r@) == active_flags_comps(
            flags@.map_values(|f: Flag<C>| f@),
            history@,
            m@,
        ),
{
    let ghost fv = flags@.map_values(|f: Flag<C>| f@);
    let mut ret: Vec<Completion> = Vec::new();
    let n = flags.len();
    let mut i: usize = 0;
    proof {
        assert(fv.skip(0) =~= fv);
        assert(comps_view(ret@) + active_flags_comps(fv, history@, m@) =~= active_flags_comps(
            fv,
            history@,
            m@,
        ));
    }
    while i < n
        invariant
            n == flags@.len(),
            i <= n,
            fv == flags@.map_values(|f: Flag<C>| f@),
            comps_view(ret@) + active_flags_comps(fv.skip(i as int), history@, m@)
                == active_flags_comps(fv, history@, m@),
        decreases n - i,
    {
        let ghost pre = ret@;
        if flag_is_active(&flags[i], history) {
            let mut part = flag_mode_completions(&flags[i], m);
            ret.append(&mut part);
        }
        proof {
            let tail = fv.skip(i as int);
            assert(tail[0] == fv[i as int]);
            assert(tail.skip(1) =~= fv.skip(i + 1));
            if flag_active(history@, fv[i as int]) {
                assert(comps_view(ret@) =~= comps_view(pre) + flag_mode_comps(
                    fv[i as int],
                    m@,
                ));
            } else {
                assert(comps_view(ret@) =~= comps_view(pre));
            }
            assert(comps_view(ret@) + active_flags_comps(fv.skip(i + 1), history@, m@)
                =~= active_flags_comps(fv, history@, m@));
        }
        i += 1;
    }
    proof {
        assert(fv.skip(n as int) =~= Seq::<FlagView>::empty());
        assert(comps_view(ret@) =~= active_flags_comps(fv, history@, m@));
    }
    ret
}

/// The subcommand candidates, each in the `command` group.
fn subcommand_completions<C>(cmds: &Vec<Command<C>>) -> (r: Vec<Completion>)
    ensures
        comps_view(r@) == subcommand_comps(cmds@.map_values(|c: Command<C>| c@)),
{
    proof {
        reveal_strlit("command");
        assert("command"@ =~= seq!['c', 'o', 'm', 'm', 'a', 'n', 'd']);
    }
    let ghost cv = cmds@.map_values(|c: Command<C>| c@);
    let mut ret: Vec<Completion> = Vec::new();
    let n = cmds.len();
    let mut i: usize = 0;
    while i < n
        invariant
            n == cmds@.len(),
            i <= n,
            cv == cmds@.map_values(|c: Command<C>| c@),
            "command"@ == seq!['c', 'o', 'm', 'm', 'a', 'n', 'd'],
            ret@.len() == i,
            forall|k: int| 0 <= k < i ==> (#[trigger] ret@[k])@ == subcommand_comps(cv)[k],
        decreases n - i,
    {
        ret.push(
            Completion {
                value: cmds[i].info.name.clone(),
                description: cmds[i].info.description.clone(),
                group: Some("command".to_owned()),
            },
        );
        i += 1;
    }
    proof {
        assert(comps_view(ret@) =~= subcommand_comps(cv));
    }
    ret
}

/// How the synthesizer rewrites completer results.
enum WrapExec {
    LongEq(String),
    Prefix(String),
}

impl View for WrapExec {
    type V = WrapView;

    closed spec fn view(&self) -> WrapView {
        match self {
            WrapExec::LongEq(body) => WrapView::LongEq(body@),
            WrapExec::Prefix(part) => WrapView::Prefix(part@),
        }
    }
}

/// Completer results rewritten under a wrap.
fn wrap_completions(cs: Vec<Completion>, w: &WrapExec) -> (r: Vec<Completion>)
    ensures
        comps_view(r@) == wrap_all(w@, comps_view(cs@)),
{
    let prefix: String = match w {
        WrapExec::LongEq(body) => {
            proof {
                reveal_strlit("--");
                reveal_strlit("=");
                assert("--"@ =~= seq!['-', '-']);
                assert("="@ =~= seq!['=']);
            }
            let head = str_concat("--", body.as_str());
            str_concat(head.as_str(), "=")
        },
        WrapExec::Prefix(part) => part.clone(),
    };
    let ghost wv = w@;
    let mut ret: Vec<Completion> = Vec::new();
    let n = cs.len();
    let mut i: usize = 0;
    while i < n
        invariant
            n == cs@.len(),
            i <= n,
            wv == w@,
            (match wv {
                WrapView::LongEq(body) => prefix@ =~= seq!['-', '-'] + body + seq!['='],
                WrapView::Prefix(part) => prefix@ == part,
                WrapView::Plain => true,
            }),
            ret@.len() == i,
            forall|k: int|
                0 <= k < i ==> (#[trigger] ret@[k])@ == wrap_comp(wv, cs@[k]@),
        decreases n - i,
    {
        let c = &cs[i];
        let value = str_concat(prefix.as_str(), c.value.as_str());
        let group = match &c.group {
            Some(g) => Some(g.clone()),
            None => None,
        };
        proof {
            assert(value@ =~= wrap_comp(wv, cs@[i as int]@).value);
        }
        ret.push(Completion { value, description: c.description.clone(), group });
        i += 1;
    }
    proof {
        assert(comps_view(ret@) =~= wrap_all(wv, comps_view(cs@)));
    }
    ret
}

/// Record a value under a flag identity.  Well-formed callers never
/// hand a no-value identity here.
fn push_flag_value(history: &mut History, id: &id::Flag, value: String)
    requires
        !(id@ is No),
    ensures
        final(history)@ == spec_push_flag_val(old(history)@, id@, value@),
{
    match id {
        id::Flag::Single(v) => history.push_single_val(v.clone(), value),
        id::Flag::Multi(v) => history.push_multi_val(v.clone(), value),
        id::Flag::No(_) => {
            proof {
                assert(false);
            }
        },
    }
}

/// Record a boolean flag.  Well-formed callers only hand a no-value
/// identity here.
fn push_pure_flag(history: &mut History, id: &id::Flag)
    requires
        id@ is No,
    ensures
        final(history)@ == spec_push_pure_flag(old(history)@, id@),
{
    match id {
        id::Flag::No(v) => history.push_no_val(v.clone()),
        _ => {
            proof {
                assert(false);
            }
        },
    }
}

/// Does this classification make a token unusable as a flag value?
fn parsed_is_flag_like(c: &ParsedFlag) -> (r: bool)
    ensures
        r == class_is_flag_like(c@),
{
    match c {
        ParsedFlag::DoubleDash => true,
        ParsedFlag::Long { .. } => true,
        ParsedFlag::Short { .. } => true,
        ParsedFlag::MultiShort(..) => true,
        ParsedFlag::Empty => false,
        ParsedFlag::SingleDash => false,
        ParsedFlag::NotFlag => false,
    }
}

/// A resolved short cluster: the flag of the last examined character,
/// the attached value, and the typed part candidates must extend.
struct ResolvedShorts {
    flag_idx: usize,
    value: Option<String>,
    flag_part: String,
}

/// Resolve a short cluster left to right, recording boolean flags
/// passed on the way.
fn resolve_shorts_exec<C>(flags: &Vec<Flag<C>>, history: &mut History, shorts: &str) -> (r:
    Result<ResolvedShorts, Error>)
    requires
        shorts@.len() >= 2,
        forall|k: int| 0 <= k < flags@.len() ==> flag_wf((#[trigger] flags@[k])@),
    ensures
        ({
            let fv = flags@.map_values(|f: Flag<C>| f@);
            let (h2, res) = resolve_shorts(fv, old(history)@, shorts@, 1);
            &&& final(history)@ == h2
            &&& (match (r, res) {
                (Ok(rx), Ok(rv)) => {
                    &&& rx.flag_idx < flags@.len()
                    &&& fv[rx.flag_idx as int] == rv.flag
                    &&& (match (rx.value, rv.value) {
                        (Some(v), Some(w)) => v@ == w,
                        (None, None) => true,
                        _ => false,
                    })
                    &&& rx.flag_part@ == rv.flag_part
                },
                (Err(e), Err(ev)) => e@ == ev,
                _ => false,
            })
        }),
{
    let ghost fv = flags@.map_values(|f: Flag<C>| f@);
    let ghost h0 = old(history)@;
    let n = shorts.unicode_len();
    let mut i: usize = 1;
    loop
        invariant
            n == shorts@.len(),
            2 <= n,
            1 <= i < n,
            fv == flags@.map_values(|f: Flag<C>| f@),
            h0 == old(history)@,
            forall|k: int| 0 <= k < flags@.len() ==> flag_wf((#[trigger] flags@[k])@),
            resolve_shorts(fv, h0, shorts@, 1) == resolve_shorts(
                fv,
                history@,
                shorts@,
                i as int,
            ),
        decreases n - i,
    {
        let ch = shorts.get_char(i);
        match find_short_flag(flags, history, ch) {
            None => {
                return Err(Error::FlagNotFound(char_to_string(ch)));
            },
            Some(j) => {
                let f = &flags[j];
                if i + 1 == n {
                    return Ok(
                        ResolvedShorts {
                            flag_idx: j,
                            value: None,
                            flag_part: shorts.to_owned(),
                        },
                    );
                }
                if shorts.get_char(i + 1) == '=' {
                    if f.comp_options.is_none() {
                        return Err(Error::BoolFlagEqualsValue(shorts.to_owned()));
                    }
                    let value = shorts.substring_char(i + 2, n).to_owned();
                    let part = shorts.substring_char(0, i + 2).to_owned();
                    proof {
                        assert(value@ =~= shorts@.skip(i + 2));
                        assert(part@ =~= shorts@.take(i + 2));
                    }
                    return Ok(
                        ResolvedShorts { flag_idx: j, value: Some(value), flag_part: part },
                    );
                }
                if f.comp_options.is_some() {
                    let value = shorts.substring_char(i + 1, n).to_owned();
                    let part = shorts.substring_char(0, i + 1).to_owned();
                    proof {
                        assert(value@ =~= shorts@.skip(i + 1));
                        assert(part@ =~= shorts@.take(i + 1));
                    }
                    return Ok(
                        ResolvedShorts { flag_idx: j, value: Some(value), flag_part: part },
                    );
                }
                // A boolean flag inside the cluster: record it and move on.
                proof {
                    assert(flag_wf(fv[j as int]));
                }
                push_pure_flag(history, &f.id);
                i += 1;
            },
        }
    }
}


/// The candidate synthesizer for the final token.
///
/// The history comes back exactly as the model says; the candidates are
/// fully determined except where a user completer is consulted, in
/// which case they are the wrapped results of that call.
#[verifier::rlimit(60)]
#[verifier::spinoff_prover]
fn supplement_last<C: ValueCompleter>(
    cmd: &Command<C>,
    args_ctx: &mut ArgsContext,
    history: &mut History,
    arg: String,
) -> (r: Result<CompletionGroup, Error>)
    requires
        command_wf(cmd@),
        old(args_ctx)@.cnt < usize::MAX,
    ensures
        ({
            let (h2, res) = synth(cmd@, old(args_ctx)@, old(history)@, arg@);
            &&& final(history)@ == h2
            &&& (match (r, res) {
                (Ok(g), Ok(sv)) => g@.1 == arg@ && synth_matches(g@.0, sv),
                (Err(e), Err(ev)) => e@ == ev,
                _ => false,
            })
        }),
{
    proof {
        let cv = cmd.commands@.map_values(|c: Command<C>| c@);
        assert(cmd@.commands.len() == cv.len());
        assert forall|i: int| 0 <= i < cv.len() implies cmd@.commands[i] == cv[i] by {
            assert(cmd@.commands[i] == cmd.commands@[i]@);
            assert(cv[i] == cmd.commands@[i]@);
        }
        assert(cmd@.commands =~= cv);
    }
    let disable = cmd.commands.len() > 0 && args_ctx.has_seen_arg();
    let pf = if disable {
        ParsedFlag::NotFlag
    } else {
        match ParsedFlag::new(arg.as_str()) {
            Ok(c) => c,
            Err(e) => {
                return Err(Error::ParsedFlag(e));
            },
        }
    };
    match pf {
        ParsedFlag::Empty | ParsedFlag::NotFlag => {
            let cmd_comps: Vec<Completion> = if args_ctx.has_seen_arg() {
                Vec::new()
            } else {
                subcommand_completions(&cmd.commands)
            };
            match args_ctx.next_arg(&cmd.args) {
                Some(k) => {
                    let a = &cmd.args[k];
                    let raw = a.comp_options.complete(history, arg.as_str());
                    let mut out = cmd_comps;
                    let ghost base = comps_view(out@);
                    let mut tail = raw;
                    let ghost raw_v = comps_view(tail@);
                    out.append(&mut tail);
                    proof {
                        assert(wrap_all(WrapView::Plain, raw_v) =~= raw_v);
                        assert(comps_view(out@) =~= base + wrap_all(WrapView::Plain, raw_v));
                    }
                    Ok(CompletionGroup::new(out, arg))
                },
                None => {
                    if cmd_comps.is_empty() {
                        return Err(Error::UnexpectedArg(arg));
                    }
                    Ok(CompletionGroup::new(cmd_comps, arg))
                },
            }
        },
        ParsedFlag::DoubleDash | ParsedFlag::Long { equal: None, .. } => {
            let cs = active_flags_completions(&cmd.all_flags, history, &GenMode::Longs);
            if cs.is_empty() {
                return Err(Error::NoPossibleCompletion);
            }
            Ok(CompletionGroup::new(cs, arg))
        },
        ParsedFlag::SingleDash => {
            let cs = active_flags_completions(&cmd.all_flags, history, &GenMode::LongsShorts);
            if cs.is_empty() {
                return Err(Error::NoPossibleCompletion);
            }
            Ok(CompletionGroup::new(cs, arg))
        },
        ParsedFlag::Long { body, equal: Some(v) } => {
            match find_long_flag(&cmd.all_flags, history, body.as_str()) {
                None => Err(Error::FlagNotFound(body)),
                Some(j) => {
                    match &cmd.all_flags[j].comp_options {
                        None => Err(Error::BoolFlagEqualsValue(arg)),
                        Some(comp) => {
                            let raw = comp.complete(history, v.as_str());
                            let ghost raw_v = comps_view(raw@);
                            let wrapped = wrap_completions(raw, &WrapExec::LongEq(body));
                            proof {
                                assert(comps_view(wrapped@) =~= Seq::<CompView>::empty()
                                    + comps_view(wrapped@));
                            }
                            Ok(CompletionGroup::new(wrapped, arg))
                        },
                    }
                },
            }
        },
        ParsedFlag::Short { .. } | ParsedFlag::MultiShort(..) => {
            proof {
                assert(arg@.len() >= 2);
                assert forall|k: int|
                    0 <= k < cmd.all_flags@.len() implies flag_wf(
                    (#[trigger] cmd.all_flags@[k])@,
                ) by {
                    assert(cmd@.flags[k] == cmd.all_flags@[k]@);
                    assert(flag_wf(cmd@.flags[k]));
                }
            }
            match resolve_shorts_exec(&cmd.all_flags, history, arg.as_str()) {
                Err(e) => Err(e),
                Ok(rs) => {
                    match &cmd.all_flags[rs.flag_idx].comp_options {
                        Some(comp) => {
                            let value_ref: &str = match &rs.value {
                                Some(v) => v.as_str(),
                                None => "",
                            };
                            proof {
                                reveal_strlit("");
                                assert(""@ =~= Seq::<char>::empty());
                            }
                            let raw = comp.complete(history, value_ref);
                            let ghost raw_v = comps_view(raw@);
                            let wrapped = wrap_completions(
                                raw,
                                &WrapExec::Prefix(rs.flag_part),
                            );
                            proof {
                                assert(comps_view(wrapped@) =~= Seq::<CompView>::empty()
                                    + comps_view(wrapped@));
                            }
                            Ok(CompletionGroup::new(wrapped, arg))
                        },
                        None => {
                            proof {
                                assert(flag_wf(cmd@.flags[rs.flag_idx as int]));
                            }
                            push_pure_flag(history, &cmd.all_flags[rs.flag_idx].id);
                            let cs = active_flags_completions(
                                &cmd.all_flags,
                                history,
                                &GenMode::Tail(rs.flag_part),
                            );
                            if cs.is_empty() {
                                return Err(Error::NoPossibleCompletion);
                            }
                            Ok(CompletionGroup::new(cs, arg))
                        },
                    }
                },
            }
        },
    }
}



impl<C> Command<C> {
    /// Does the declaration satisfy the well-formedness the walker
    /// relies on: boolean flags carry no-value identities, value
    /// flags single- or multi-value identities, every positional slot
    /// absorbs at least one value, recursively through the tree.
    /// Callers outside verified code can test this before walking.
    pub fn is_well_formed(&self) -> (r: bool)
        ensures
            r == command_wf(self@),
        decreases self,
    {
        proof {
            crate::command::lemma_command_view(self);
        }
        let nf = self.all_flags.len();
        let mut i: usize = 0;
        while i < nf
            invariant
                nf == self.all_flags@.len(),
                i <= nf,
                forall|k: int| 0 <= k < i ==> flag_wf((#[trigger] self.all_flags@[k])@),
            decreases nf - i,
        {
            let f = &self.all_flags[i];
            let takes_value = f.comp_options.is_some();
            let is_no = match &f.id {
                id::Flag::No(_) => true,
                _ => false,
            };
            if takes_value == is_no {
                proof {
                    assert(!flag_wf(self@.flags[i as int]));
                }
                return false;
            }
            i += 1;
        }
        let na = self.args.len();
        let mut i: usize = 0;
        while i < na
            invariant
                na == self.args@.len(),
                i <= na,
                forall|k: int|
                    0 <= k < i ==> crate::command::arg_wf((#[trigger] self.args@[k])@),
            decreases na - i,
        {
            if self.args[i].max_values == 0 {
                proof {
                    assert(!crate::command::arg_wf(self@.args[i as int]));
                }
                return false;
            }
            i += 1;
        }
        let nc = self.commands.len();
        let mut i: usize = 0;
        while i < nc
            invariant
                nc == self.commands@.len(),
                i <= nc,
                forall|k: int| 0 <= k < i ==> command_wf((#[trigger] self.commands@[k])@),
                forall|k: int|
                    0 <= k < self.all_flags@.len() ==> flag_wf(
                        (#[trigger] self.all_flags@[k])@,
                    ),
                forall|k: int|
                    0 <= k < self.args@.len() ==> crate::command::arg_wf(
                        (#[trigger] self.args@[k])@,
                    ),
            decreases nc - i,
        {
            if !self.commands[i].is_well_formed() {
                proof {
                    crate::command::lemma_command_view(self);
                    assert(!command_wf(self@.commands[i as int]));
                }
                return false;
            }
            i += 1;
        }
        proof {
            crate::command::lemma_command_view(self);
            assert forall|k: int| 0 <= k < self@.flags.len() implies flag_wf(
                #[trigger] self@.flags[k],
            ) by {
                assert(self@.flags[k] == self.all_flags@[k]@);
            }
            assert forall|k: int| 0 <= k < self@.args.len() implies crate::command::arg_wf(
                #[trigger] self@.args[k],
            ) by {
                assert(self@.args[k] == self.args@[k]@);
            }
            assert forall|k: int| 0 <= k < self@.commands.len() implies command_wf(
                #[trigger] self@.commands[k],
            ) by {
                assert(self@.commands[k] == self.commands@[k]@);
            }
        }
        true
    }
}

impl<C: ValueCompleter> Command<C> {
    /// Produce completion candidates for a token stream, starting from
    /// an empty history.  The stream is argv-style: the program name
    /// first; an empty terminal token is appended when `last_is_empty`
    /// is set.  Fails with `ArgsTooShort` when nothing remains.
    pub fn supplement(&self, args: &Vec<String>, last_is_empty: bool) -> (r: Result<
        CompletionGroup,
        Error,
    >)
        requires
            command_wf(self@),
        ensures
            ({
                let toks = model::spec_tokens(
                    args@.map_values(|s: String| s@),
                    last_is_empty,
                );
                if toks.len() == 0 {
                    r matches Err(e) && e@ == ErrorView::ArgsTooShort
                } else {
                    let (h2, res) = walk(self@, ctx_new(), Seq::empty(), toks);
                    match (r, res) {
                        (Ok(g), Ok(sv)) => g@.1 == toks.last() && synth_matches(g@.0, sv),
                        (Err(e), Err(ev)) => e@ == ev,
                        _ => false,
                    }
                }
            }),
    {
        let mut history = History::default();
        self.supplement_with_history(&mut history, args, last_is_empty)
    }

    /// As `supplement`, but threading a caller-owned history through:
    /// it receives every successfully recognized unit, even when the
    /// call ends in an error.
    #[verifier::rlimit(60)]
    #[verifier::spinoff_prover]
    pub fn supplement_with_history(
        &self,
        history: &mut History,
        args: &Vec<String>,
        last_is_empty: bool,
    ) -> (r: Result<CompletionGroup, Error>)
        requires
            command_wf(self@),
        ensures
            ({
                let toks = model::spec_tokens(
                    args@.map_values(|s: String| s@),
                    last_is_empty,
                );
                if toks.len() == 0 {
                    &&& final(history)@ == old(history)@
                    &&& r matches Err(e) && e@ == ErrorView::ArgsTooShort
                } else {
                    let (h2, res) = walk(self@, ctx_new(), old(history)@, toks);
                    &&& final(history)@ == h2
                    &&& (match (r, res) {
                        (Ok(g), Ok(sv)) => g@.1 == toks.last() && synth_matches(g@.0, sv),
                        (Err(e), Err(ev)) => e@ == ev,
                        _ => false,
                    })
                }
            }),
    {
        let ghost h0 = old(history)@;
        // Materialize the stream: drop the program name, append the
        // empty terminal token when asked.
        let mut tokens: Vec<String> = Vec::new();
        if args.len() > 0 {
            let mut k: usize = 1;
            proof {
                assert(tokens@.map_values(|s: String| s@) =~= args@.map_values(
                    |s: String| s@,
                ).skip(1).take(0));
            }
            while k < args.len()
                invariant
                    1 <= k <= args@.len(),
                    tokens@.map_values(|s: String| s@) == args@.map_values(
                        |s: String| s@,
                    ).skip(1).take(k - 1),
                decreases args@.len() - k,
            {
                let ghost pre_toks = tokens@;
                let cloned = args[k].clone();
                proof {
                    assert(cloned == args@[k as int]);
                }
                tokens.push(cloned);
                proof {
                    let am = args@.map_values(|s: String| s@);
                    assert(pre_toks.map_values(|s: String| s@).len() == k - 1);
                    assert(pre_toks.len() == k - 1);
                    assert(tokens@ == pre_toks.push(args@[k as int]));
                    assert(tokens@[k - 1] == args@[k as int]);
                    assert forall|j: int|
                        0 <= j < k implies tokens@.map_values(|s: String| s@)[j] == am.skip(
                        1,
                    ).take(k as int)[j] by {
                        assert(tokens@.map_values(|s: String| s@)[j] == tokens@[j]@);
                        if j < k - 1 {
                            assert(tokens@[j] == pre_toks[j]);
                            assert(pre_toks.map_values(|s: String| s@)[j] == pre_toks[j]@);
                        } else {
                            assert(tokens@[j] == args@[k as int]);
                        }
                        assert(am.skip(1).take(k as int)[j] == am[j + 1]);
                        assert(am[j + 1] == args@[j + 1]@);
                    }
                    assert(tokens@.map_values(|s: String| s@) =~= am.skip(1).take(
                        k as int,
                    ));
                }
                k += 1;
            }
            proof {
                assert(tokens@.map_values(|s: String| s@) =~~= args@.map_values(
                    |s: String| s@,
                ).skip(1));
            }
        }
        let ghost base_toks = tokens@;
        proof {
            let am = args@.map_values(|s: String| s@);
            if args@.len() == 0 {
                assert(base_toks.map_values(|s: String| s@) =~= Seq::<Seq<char>>::empty());
            }
        }
        if last_is_empty {
            let empty_tok = String::new();
            let ghost etv = empty_tok@;
            tokens.push(empty_tok);
            proof {
                assert(etv =~= Seq::<char>::empty());
                assert(tokens@.map_values(|s: String| s@) =~= base_toks.map_values(
                    |s: String| s@,
                ).push(etv));
            }
        }
        let ghost toks = model::spec_tokens(args@.map_values(|s: String| s@), last_is_empty);
        proof {
            assert(tokens@.map_values(|s: String| s@) =~= toks);
        }
        if tokens.len() == 0 {
            return Err(Error::ArgsTooShort);
        }

        let mut cur: &Command<C> = self;
        let mut args_ctx = ArgsContext::new();
        let mut i: usize = 0;
        proof {
            assert(toks.skip(0) =~= toks);
        }
        loop
            invariant
                toks == model::spec_tokens(args@.map_values(|s: String| s@), last_is_empty),
                toks == tokens@.map_values(|s: String| s@),
                tokens@.len() <= usize::MAX,
                i < tokens@.len(),
                command_wf(cur@),
                args_ctx@.cnt <= i,
                h0 == old(history)@,
                walk(self@, ctx_new(), h0, toks) == walk(
                    cur@,
                    args_ctx@,
                    history@,
                    toks.skip(i as int),
                ),
            decreases tokens@.len() - i,
        {
            proof {
                crate::command::lemma_command_view(cur);
                assert(toks.skip(i as int)[0] == toks[i as int]);
                assert(toks[i as int] == tokens@[i as int]@);
            }
            let ghost cv = cur@;
            let ghost ctx_pre = args_ctx@;
            let ghost h_pre = history@;
            let ghost rest = toks.skip(i as int);
            if i + 1 == tokens.len() {
                // The final token: hand off to the synthesizer.
                proof {
                    assert(rest.len() == 1);
                    assert(toks.last() == toks[i as int]);
                    assert(walk(cv, ctx_pre, h_pre, rest) == synth(cv, ctx_pre, h_pre, rest[0]));
                }
                let r = supplement_last(cur, &mut args_ctx, history, tokens[i].clone());
                return r;
            }
            proof {
                assert(rest.len() >= 2);
            }
            let t = &tokens[i];
            let disable = cur.commands.len() > 0 && args_ctx.has_seen_arg();
            let ghost spec_cls = if disable {
                Ok::<crate::parsed_flag::ClassView, crate::parsed_flag::Error>(
                    crate::parsed_flag::ClassView::NotFlag,
                )
            } else {
                flag_class(rest[0])
            };
            let pf = if disable {
                ParsedFlag::NotFlag
            } else {
                match ParsedFlag::new(t.as_str()) {
                    Ok(c) => c,
                    Err(e) => {
                        proof {
                            assert(walk(cv, ctx_pre, h_pre, rest) == (
                                h_pre,
                                Err::<model::SynthView, ErrorView>(ErrorView::ParsedFlag(e)),
                            ));
                        }
                        return Err(Error::ParsedFlag(e));
                    },
                }
            };
            proof {
                assert(spec_cls == Ok::<crate::parsed_flag::ClassView, crate::parsed_flag::Error>(
                    pf@,
                ));
            }
            match pf {
                ParsedFlag::Empty | ParsedFlag::SingleDash | ParsedFlag::DoubleDash => {
                    let arg_owned = tokens[i].clone();
                    match args_ctx.next_arg(&cur.args) {
                        None => {
                            proof {
                                assert(model::ctx_next(cv.args, ctx_pre) is None);
                                assert(walk(cv, ctx_pre, h_pre, rest) == (
                                    h_pre,
                                    Err::<model::SynthView, ErrorView>(
                                        ErrorView::UnexpectedArg(rest[0]),
                                    ),
                                ));
                            }
                            return Err(Error::UnexpectedArg(arg_owned));
                        },
                        Some(k) => {
                            history.push_arg(cur.args[k].id.clone(), arg_owned);
                            proof {
                                let step = model::ctx_next(cv.args, ctx_pre);
                                assert(step matches Some(p) && p.0 == cv.args[k as int]
                                    && p.1 == args_ctx@);
                                assert(history@ == crate::history::spec_push_arg(
                                    h_pre,
                                    cv.args[k as int].id,
                                    rest[0],
                                ));
                                assert(rest.skip(1) =~= toks.skip(i + 1));
                                assert(walk(cv, ctx_pre, h_pre, rest) == walk(
                                    cv,
                                    args_ctx@,
                                    history@,
                                    toks.skip(i + 1),
                                ));
                            }
                            i += 1;
                        },
                    }
                },
                ParsedFlag::NotFlag => {
                    let sub = if args_ctx.has_seen_arg() {
                        None
                    } else {
                        find_subcommand(&cur.commands, t.as_str())
                    };
                    proof {
                        let j = if model::ctx_has_seen(ctx_pre) {
                            -1int
                        } else {
                            first_cmd_idx(cv.commands, rest[0])
                        };
                        assert(match sub {
                            Some(k) => k as int == j && 0 <= j < cv.commands.len(),
                            None => j == -1,
                        });
                    }
                    match sub {
                        Some(k) => {
                            history.push_no_val(cur.commands[k].id.clone());
                            proof {
                                assert(cv.commands[k as int] == cur.commands@[k as int]@);
                                assert(command_wf(cv.commands[k as int]));
                                assert(history@ == crate::history::spec_push_no_val(
                                    h_pre,
                                    cv.commands[k as int].id,
                                ));
                                assert(rest.skip(1) =~= toks.skip(i + 1));
                                assert(walk(cv, ctx_pre, h_pre, rest) == walk(
                                    cv.commands[k as int],
                                    ctx_new(),
                                    history@,
                                    toks.skip(i + 1),
                                ));
                            }
                            cur = &cur.commands[k];
                            args_ctx = ArgsContext::new();
                            i += 1;
                        },
                        None => {
                            let arg_owned = tokens[i].clone();
                            match args_ctx.next_arg(&cur.args) {
                                None => {
                                    proof {
                                        assert(model::ctx_next(cv.args, ctx_pre) is None);
                                        assert(walk(cv, ctx_pre, h_pre, rest) == (
                                            h_pre,
                                            Err::<model::SynthView, ErrorView>(
                                                ErrorView::UnexpectedArg(rest[0]),
                                            ),
                                        ));
                                    }
                                    return Err(Error::UnexpectedArg(arg_owned));
                                },
                                Some(k) => {
                                    history.push_arg(cur.args[k].id.clone(), arg_owned);
                                    proof {
                                        let step = model::ctx_next(cv.args, ctx_pre);
                                        assert(step matches Some(p) && p.0 == cv.args[k as int]
                                            && p.1 == args_ctx@);
                                        assert(history@ == crate::history::spec_push_arg(
                                            h_pre,
                                            cv.args[k as int].id,
                                            rest[0],
                                        ));
                                        assert(rest.skip(1) =~= toks.skip(i + 1));
                                        assert(walk(cv, ctx_pre, h_pre, rest) == walk(
                                            cv,
                                            args_ctx@,
                                            history@,
                                            toks.skip(i + 1),
                                        ));
                                    }
                                    i += 1;
                                },
                            }
                        },
                    }
                },
                ParsedFlag::Long { body, equal } => {
                    match find_long_flag(&cur.all_flags, history, body.as_str()) {
                        None => {
                            proof {
                                assert(find_long_idx(cv.flags, h_pre, body@) == -1);
                                assert(walk(cv, ctx_pre, h_pre, rest) == (
                                    h_pre,
                                    Err::<model::SynthView, ErrorView>(
                                        ErrorView::FlagNotFound(body@),
                                    ),
                                ));
                            }
                            return Err(Error::FlagNotFound(body));
                        },
                        Some(j) => {
                            proof {
                                assert(flag_wf(cv.flags[j as int]));
                            }
                            let f = &cur.all_flags[j];
                            match equal {
                                Some(v) => {
                                    if f.comp_options.is_none() {
                                        proof {
                                            assert(!cv.flags[j as int].takes_value);
                                            assert(walk(cv, ctx_pre, h_pre, rest) == (
                                                h_pre,
                                                Err::<model::SynthView, ErrorView>(
                                                    ErrorView::BoolFlagEqualsValue(rest[0]),
                                                ),
                                            ));
                                        }
                                        return Err(Error::BoolFlagEqualsValue(tokens[i].clone()));
                                    }
                                    push_flag_value(history, &f.id, v);
                                    proof {
                                        assert(rest.skip(1) =~= toks.skip(i + 1));
                                        assert(walk(cv, ctx_pre, h_pre, rest) == walk(
                                            cv,
                                            ctx_pre,
                                            history@,
                                            toks.skip(i + 1),
                                        ));
                                    }
                                    i += 1;
                                },
                                None => {
                                    proof {
                                        assert(walk(cv, ctx_pre, h_pre, rest)
                                            == model::flag_value_step(
                                            cv,
                                            ctx_pre,
                                            h_pre,
                                            cv.flags[j as int],
                                            rest,
                                        ));
                                    }
                                    match &f.comp_options {
                                        None => {
                                            push_pure_flag(history, &f.id);
                                            proof {
                                                assert(rest.skip(1) =~= toks.skip(i + 1));
                                                assert(walk(cv, ctx_pre, h_pre, rest) == walk(
                                                    cv,
                                                    ctx_pre,
                                                    history@,
                                                    toks.skip(i + 1),
                                                ));
                                            }
                                            i += 1;
                                        },
                                        Some(comp) => {
                                            proof {
                                                assert(rest[1] == toks[i + 1]);
                                                assert(toks[i + 1] == tokens@[i + 1]@);
                                            }
                                            let next_tok = tokens[i + 1].clone();
                                            let c2 = match ParsedFlag::new(next_tok.as_str()) {
                                                Ok(c) => c,
                                                Err(e) => {
                                                    proof {
                                                        assert(walk(cv, ctx_pre, h_pre, rest)
                                                            == (
                                                            h_pre,
                                                            Err::<model::SynthView, ErrorView>(
                                                                ErrorView::ParsedFlag(e),
                                                            ),
                                                        ));
                                                    }
                                                    return Err(Error::ParsedFlag(e));
                                                },
                                            };
                                            if parsed_is_flag_like(&c2) {
                                                proof {
                                                    assert(walk(cv, ctx_pre, h_pre, rest) == (
                                                        h_pre,
                                                        Err::<model::SynthView, ErrorView>(
                                                            ErrorView::FlagNoValue(
                                                                cv.flags[j as int].id.name(),
                                                            ),
                                                        ),
                                                    ));
                                                }
                                                return Err(Error::FlagNoValue(f.id.name()));
                                            }
                                            if i + 2 == tokens.len() {
                                                let raw = comp.complete(history, next_tok.as_str());
                                                proof {
                                                    let raw_v = comps_view(raw@);
                                                    assert(wrap_all(WrapView::Plain, raw_v)
                                                        =~= raw_v);
                                                    assert(raw_v =~= Seq::<CompView>::empty()
                                                        + wrap_all(WrapView::Plain, raw_v));
                                                    assert(rest.len() == 2);
                                                    assert(toks.last() == toks[i + 1]);
                                                }
                                                return Ok(CompletionGroup::new(raw, next_tok));
                                            }
                                            push_flag_value(history, &f.id, next_tok);
                                            proof {
                                                assert(rest.skip(2) =~= toks.skip(i + 2));
                                                assert(walk(cv, ctx_pre, h_pre, rest) == walk(
                                                    cv,
                                                    ctx_pre,
                                                    history@,
                                                    toks.skip(i + 2),
                                                ));
                                            }
                                            i += 2;
                                        },
                                    }
                                },
                            }
                        },
                    }
                },
                ParsedFlag::Short { .. } | ParsedFlag::MultiShort(..) => {
                    proof {
                        assert(tokens@[i as int]@.len() >= 2);
                        assert forall|k: int|
                            0 <= k < cur.all_flags@.len() implies flag_wf(
                            (#[trigger] cur.all_flags@[k])@,
                        ) by {
                            assert(cv.flags[k] == cur.all_flags@[k]@);
                            assert(flag_wf(cv.flags[k]));
                        }
                    }
                    let rs = match resolve_shorts_exec(&cur.all_flags, history, t.as_str()) {
                        Ok(rs) => rs,
                        Err(e) => {
                            proof {
                                let (h1, res) = resolve_shorts(cv.flags, h_pre, rest[0], 1);
                                assert(history@ == h1);
                                assert(res matches Err(ev) && e@ == ev);
                                assert(walk(cv, ctx_pre, h_pre, rest) == (
                                    h1,
                                    Err::<model::SynthView, ErrorView>(e@),
                                ));
                            }
                            return Err(e);
                        },
                    };
                    let ghost rh = history@;
                    let ghost rv = resolve_shorts(cv.flags, h_pre, rest[0], 1).1->Ok_0;
                    proof {
                        assert(flag_wf(cv.flags[rs.flag_idx as int]));
                        assert(cv.flags[rs.flag_idx as int] == rv.flag);
                    }
                    let f = &cur.all_flags[rs.flag_idx];
                    match rs.value {
                        Some(v) => {
                            if f.comp_options.is_none() {
                                proof {
                                    assert(!rv.flag.takes_value);
                                    assert(walk(cv, ctx_pre, h_pre, rest) == (
                                        rh,
                                        Err::<model::SynthView, ErrorView>(
                                            ErrorView::BoolFlagEqualsValue(rest[0]),
                                        ),
                                    ));
                                }
                                return Err(Error::BoolFlagEqualsValue(tokens[i].clone()));
                            }
                            push_flag_value(history, &f.id, v);
                            proof {
                                assert(rest.skip(1) =~= toks.skip(i + 1));
                                assert(walk(cv, ctx_pre, h_pre, rest) == walk(
                                    cv,
                                    ctx_pre,
                                    history@,
                                    toks.skip(i + 1),
                                ));
                            }
                            i += 1;
                        },
                        None => {
                            proof {
                                assert(walk(cv, ctx_pre, h_pre, rest)
                                    == model::flag_value_step(cv, ctx_pre, rh, rv.flag, rest));
                            }
                            match &f.comp_options {
                                None => {
                                    push_pure_flag(history, &f.id);
                                    proof {
                                        assert(rest.skip(1) =~= toks.skip(i + 1));
                                        assert(walk(cv, ctx_pre, h_pre, rest) == walk(
                                            cv,
                                            ctx_pre,
                                            history@,
                                            toks.skip(i + 1),
                                        ));
                                    }
                                    i += 1;
                                },
                                Some(comp) => {
                                    proof {
                                        assert(rest[1] == toks[i + 1]);
                                        assert(toks[i + 1] == tokens@[i + 1]@);
                                    }
                                    let next_tok = tokens[i + 1].clone();
                                    let c2 = match ParsedFlag::new(next_tok.as_str()) {
                                        Ok(c) => c,
                                        Err(e) => {
                                            proof {
                                                assert(walk(cv, ctx_pre, h_pre, rest) == (
                                                    rh,
                                                    Err::<model::SynthView, ErrorView>(
                                                        ErrorView::ParsedFlag(e),
                                                    ),
                                                ));
                                            }
                                            return Err(Error::ParsedFlag(e));
                                        },
                                    };
                                    if parsed_is_flag_like(&c2) {
                                        proof {
                                            assert(walk(cv, ctx_pre, h_pre, rest) == (
                                                rh,
                                                Err::<model::SynthView, ErrorView>(
                                                    ErrorView::FlagNoValue(rv.flag.id.name()),
                                                ),
                                            ));
                                        }
                                        return Err(Error::FlagNoValue(f.id.name()));
                                    }
                                    if i + 2 == tokens.len() {
                                        let raw = comp.complete(history, next_tok.as_str());
                                        proof {
                                            let raw_v = comps_view(raw@);
                                            assert(wrap_all(WrapView::Plain, raw_v) =~= raw_v);
                                            assert(raw_v =~= Seq::<CompView>::empty()
                                                + wrap_all(WrapView::Plain, raw_v));
                                            assert(rest.len() == 2);
                                            assert(toks.last() == toks[i + 1]);
                                        }
                                        return Ok(CompletionGroup::new(raw, next_tok));
                                    }
                                    push_flag_value(history, &f.id, next_tok);
                                    proof {
                                        assert(rest.skip(2) =~= toks.skip(i + 2));
                                        assert(walk(cv, ctx_pre, h_pre, rest) == walk(
                                            cv,
                                            ctx_pre,
                                            history@,
                                            toks.skip(i + 2),
                                        ));
                                    }
                                    i += 2;
                                },
                            }
                        },
                    }
                },
            }
        }
    }
}

} // verus!


