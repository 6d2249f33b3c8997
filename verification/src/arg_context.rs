//! The positional cursor: a small automaton over a command's declared
//! positional slots.

use vstd::prelude::*;

use crate::command::Arg;
use crate::command::ArgView;
use crate::model::ctx_has_seen;
use crate::model::ctx_new;
use crate::model::ctx_next;
use crate::model::CtxView;

verus! {

/// Cursor state: the current slot and the values it has absorbed.
/// The slot array itself is passed to `next_arg` by the caller, so the
/// cursor borrows nothing.
pub struct ArgsContext {
    slot: usize,
    cnt: usize,
}

impl View for ArgsContext {
    type V = CtxView;

    closed spec fn view(&self) -> CtxView {
        CtxView { slot: self.slot as int, cnt: self.cnt as int }
    }
}

impl ArgsContext {
    /// A cursor at the first slot, with nothing absorbed.
    pub fn new() -> (r: Self)
        ensures
            r@ == ctx_new(),
    {
        ArgsContext { slot: 0, cnt: 0 }
    }

    /// True once any positional value has been consumed.
    pub fn has_seen_arg(&self) -> (r: bool)
        ensures
            r == ctx_has_seen(self@),
    {
        self.slot != 0 || self.cnt != 0
    }

    /// The slot that receives the next value, advancing the cursor:
    /// when the slot's multiplicity is exhausted, move to the next slot;
    /// otherwise count one more value.  Nothing once past the end.
    pub fn next_arg<C>(&mut self, args: &Vec<Arg<C>>) -> (r: Option<usize>)
        requires
            old(self)@.cnt < usize::MAX,
        ensures
            ({
                let step = ctx_next(args@.map_values(|a: Arg<C>| a@), old(self)@);
                match step {
                    Option::None => r is None && final(self)@ == old(self)@,
                    Option::Some(p) => {
                        &&& r matches Some(k)
                        &&& r->0 as int == old(self)@.slot
                        &&& r->0 < args@.len()
                        &&& final(self)@ == p.1
                        &&& args@.map_values(|a: Arg<C>| a@)[r->0 as int] == p.0
                    },
                }
            }),
    {
        if self.slot >= args.len() {
            return None;
        }
        let idx = self.slot;
        let next = &args[idx];
        if next.max_values == self.cnt + 1 {
            self.slot = idx + 1;
            self.cnt = 0;
        } else {
            self.cnt = self.cnt + 1;
        }
        Some(idx)
    }
}

} // verus!
