//! Append-only log of recognized units, with indexed lookups by identity.
//!
//! Each unit is tagged by the shape of its identity: a no-value unit marks
//! that a flag or command was seen, a single-value unit keeps the most
//! recent value, a multi-value unit accumulates values in token order.

use vstd::prelude::*;

use crate::id;
use crate::id::IdView;

verus! {

/// Mathematical content of one history unit.
pub enum UnitView {
    No { id: IdView },
    Single { id: IdView, value: Seq<char> },
    Multi { id: IdView, values: Seq<Seq<char>> },
}

/// A no-value unit: the flag or command with this identity was seen.
#[derive(Debug)]
pub struct HistoryUnitNoVal(pub id::NoVal);

/// A single-value unit: the value is the most recent occurrence.
#[derive(Debug)]
pub struct HistoryUnitSingleVal {
    pub id: id::SingleVal,
    pub value: String,
}

/// A multi-value unit: values accumulate in token order.
#[derive(Debug)]
pub struct HistoryUnitMultiVal {
    pub id: id::MultiVal,
    pub value: Vec<String>,
}

/// One recognized unit, tagged by identity shape.
#[derive(Debug)]
pub enum HistoryUnit {
    No(HistoryUnitNoVal),
    Single(HistoryUnitSingleVal),
    Multi(HistoryUnitMultiVal),
}

impl View for HistoryUnitNoVal {
    type V = UnitView;

    open spec fn view(&self) -> UnitView {
        UnitView::No { id: self.0@ }
    }
}

impl View for HistoryUnitSingleVal {
    type V = UnitView;

    open spec fn view(&self) -> UnitView {
        UnitView::Single { id: self.id@, value: self.value@ }
    }
}

impl View for HistoryUnitMultiVal {
    type V = UnitView;

    open spec fn view(&self) -> UnitView {
        UnitView::Multi { id: self.id@, values: self.value@.map_values(|s: String| s@) }
    }
}

impl View for HistoryUnit {
    type V = UnitView;

    open spec fn view(&self) -> UnitView {
        match self {
            HistoryUnit::No(u) => u@,
            HistoryUnit::Single(u) => u@,
            HistoryUnit::Multi(u) => u@,
        }
    }
}

impl Clone for HistoryUnitNoVal {
    fn clone(&self) -> (r: Self)
        ensures
            r@ == self@,
    {
        HistoryUnitNoVal(self.0.clone())
    }
}

impl Clone for HistoryUnitSingleVal {
    fn clone(&self) -> (r: Self)
        ensures
            r@ == self@,
    {
        HistoryUnitSingleVal { id: self.id.clone(), value: self.value.clone() }
    }
}

impl Clone for HistoryUnitMultiVal {
    fn clone(&self) -> (r: Self)
        ensures
            r@ == self@,
    {
        let values = self.value.clone();
        proof {
            assert(values@.map_values(|s: String| s@) =~= self.value@.map_values(
                |s: String| s@,
            ));
        }
        HistoryUnitMultiVal { id: self.id.clone(), value: values }
    }
}

impl Clone for HistoryUnit {
    fn clone(&self) -> (r: Self)
        ensures
            r@ == self@,
    {
        match self {
            HistoryUnit::No(u) => HistoryUnit::No(u.clone()),
            HistoryUnit::Single(u) => HistoryUnit::Single(u.clone()),
            HistoryUnit::Multi(u) => HistoryUnit::Multi(u.clone()),
        }
    }
}

/// Character-wise equality of two value lists.
fn values_eq(a: &Vec<String>, b: &Vec<String>) -> (r: bool)
    ensures
        r == (a@.map_values(|s: String| s@) == b@.map_values(|s: String| s@)),
{
    let n = a.len();
    if n != b.len() {
        proof {
            assert(a@.map_values(|s: String| s@).len() != b@.map_values(
                |s: String| s@,
            ).len());
        }
        return false;
    }
    let mut i: usize = 0;
    while i < n
        invariant
            n == a@.len(),
            n == b@.len(),
            i <= n,
            forall|k: int| 0 <= k < i ==> (#[trigger] a@[k])@ == b@[k]@,
        decreases n - i,
    {
        if !crate::strutil::str_eq(a[i].as_str(), b[i].as_str()) {
            proof {
                assert(a@.map_values(|s: String| s@)[i as int] != b@.map_values(
                    |s: String| s@,
                )[i as int]);
            }
            return false;
        }
        i += 1;
    }
    proof {
        assert(a@.map_values(|s: String| s@) =~= b@.map_values(|s: String| s@));
    }
    true
}

impl PartialEq for HistoryUnitNoVal {
    fn eq(&self, other: &Self) -> bool {
        self.0 == other.0
    }
}

impl vstd::std_specs::cmp::PartialEqSpecImpl for HistoryUnitNoVal {
    open spec fn obeys_eq_spec() -> bool {
        true
    }

    open spec fn eq_spec(&self, other: &Self) -> bool {
        self@ == other@
    }
}

impl PartialEq for HistoryUnitSingleVal {
    fn eq(&self, other: &Self) -> bool {
        self.id == other.id && self.value == other.value
    }
}

impl vstd::std_specs::cmp::PartialEqSpecImpl for HistoryUnitSingleVal {
    open spec fn obeys_eq_spec() -> bool {
        true
    }

    open spec fn eq_spec(&self, other: &Self) -> bool {
        self@ == other@
    }
}

impl PartialEq for HistoryUnitMultiVal {
    fn eq(&self, other: &Self) -> bool {
        self.id == other.id && values_eq(&self.value, &other.value)
    }
}

impl vstd::std_specs::cmp::PartialEqSpecImpl for HistoryUnitMultiVal {
    open spec fn obeys_eq_spec() -> bool {
        true
    }

    open spec fn eq_spec(&self, other: &Self) -> bool {
        self@ == other@
    }
}

impl PartialEq for HistoryUnit {
    fn eq(&self, other: &Self) -> bool {
        match (self, other) {
            (HistoryUnit::No(a), HistoryUnit::No(b)) => *a == *b,
            (HistoryUnit::Single(a), HistoryUnit::Single(b)) => *a == *b,
            (HistoryUnit::Multi(a), HistoryUnit::Multi(b)) => *a == *b,
            _ => false,
        }
    }
}

impl vstd::std_specs::cmp::PartialEqSpecImpl for HistoryUnit {
    open spec fn obeys_eq_spec() -> bool {
        true
    }

    open spec fn eq_spec(&self, other: &Self) -> bool {
        self@ == other@
    }
}

/// Does this unit record the given no-value identity?
pub open spec fn unit_is_no(u: UnitView, id: IdView) -> bool {
    u matches UnitView::No { id: i } && i == id
}

/// Does this unit record the given single-value identity?
pub open spec fn unit_is_single(u: UnitView, id: IdView) -> bool {
    u matches UnitView::Single { id: i, .. } && i == id
}

/// Does this unit record the given multi-value identity?
pub open spec fn unit_is_multi(u: UnitView, id: IdView) -> bool {
    u matches UnitView::Multi { id: i, .. } && i == id
}

/// Index of the first unit satisfying `p`, or -1 if none does.
pub open spec fn first_match_idx(h: Seq<UnitView>, p: spec_fn(UnitView) -> bool) -> int
    decreases h.len(),
{
    if h.len() == 0 {
        -1
    } else if p(h[0]) {
        0
    } else {
        let r = first_match_idx(h.skip(1), p);
        if r < 0 {
            -1
        } else {
            r + 1
        }
    }
}

/// What `first_match_idx` means: it is the least index whose unit
/// satisfies `p`, and it is -1 exactly when no unit does.
pub proof fn lemma_first_match_idx(h: Seq<UnitView>, p: spec_fn(UnitView) -> bool)
    ensures
        first_match_idx(h, p) == -1 <==> (forall|i: int| 0 <= i < h.len() ==> !p(h[i])),
        first_match_idx(h, p) != -1 ==> {
            let j = first_match_idx(h, p);
            &&& 0 <= j < h.len()
            &&& p(h[j])
            &&& forall|i: int| 0 <= i < j ==> !p(h[i])
        },
    decreases h.len(),
{
    if h.len() != 0 && !p(h[0]) {
        let t = h.skip(1);
        lemma_first_match_idx(t, p);
        assert forall|i: int| 0 <= i < t.len() implies t[i] == h[i + 1] by {}
        if first_match_idx(h, p) == -1 {
            assert(first_match_idx(t, p) == -1);
            assert forall|i: int| 0 <= i < h.len() implies !p(h[i]) by {
                if i >= 1 {
                    assert(t[i - 1] == h[i]);
                    assert(!p(t[i - 1]));
                }
            }
        } else {
            let j = first_match_idx(h, p);
            assert(j == first_match_idx(t, p) + 1);
            assert(p(t[j - 1]));
            assert(t[j - 1] == h[j]);
            assert forall|i: int| 0 <= i < j implies !p(h[i]) by {
                if i >= 1 {
                    assert(t[i - 1] == h[i]);
                    assert(!p(t[i - 1]));
                }
            }
        }
        if forall|i: int| 0 <= i < h.len() ==> !p(h[i]) {
            assert forall|i: int| 0 <= i < t.len() implies !p(t[i]) by {
                assert(t[i] == h[i + 1]);
                assert(!p(h[i + 1]));
            }
            assert(first_match_idx(t, p) == -1);
        }
    }
}

/// An index whose unit satisfies `p`, before which no unit does, is the
/// first match.
pub proof fn lemma_first_match_idx_is(h: Seq<UnitView>, p: spec_fn(UnitView) -> bool, j: int)
    requires
        0 <= j < h.len(),
        p(h[j]),
        forall|k: int| 0 <= k < j ==> !p(h[k]),
    ensures
        first_match_idx(h, p) == j,
{
    lemma_first_match_idx(h, p);
    if first_match_idx(h, p) == -1 {
        assert(!p(h[j]));
    } else {
        let i0 = first_match_idx(h, p);
        if i0 < j {
            assert(!p(h[i0]));
        }
        if i0 > j {
            assert(!p(h[j]));
        }
    }
}

/// History after recording a no-value identity: always appended.
pub open spec fn spec_push_no_val(h: Seq<UnitView>, id: IdView) -> Seq<UnitView> {
    h.push(UnitView::No { id })
}

/// History after recording a single-value identity: the first unit with
/// the same identity is overwritten in place, else a unit is appended.
pub open spec fn spec_push_single_val(h: Seq<UnitView>, id: IdView, v: Seq<char>) -> Seq<
    UnitView,
> {
    let j = first_match_idx(h, |u: UnitView| unit_is_single(u, id));
    if j < 0 {
        h.push(UnitView::Single { id, value: v })
    } else {
        h.update(j, UnitView::Single { id, value: v })
    }
}

/// History after recording a multi-value identity: the value is appended
/// to the first unit with the same identity, else a unit is created.
pub open spec fn spec_push_multi_val(h: Seq<UnitView>, id: IdView, v: Seq<char>) -> Seq<
    UnitView,
> {
    let j = first_match_idx(h, |u: UnitView| unit_is_multi(u, id));
    if j < 0 {
        h.push(UnitView::Multi { id, values: seq![v] })
    } else {
        let old_values = h[j]->Multi_values;
        h.update(j, UnitView::Multi { id, values: old_values.push(v) })
    }
}

/// History after recording a positional value, dispatched on the shape
/// of the positional's identity.
pub open spec fn spec_push_arg(h: Seq<UnitView>, id: id::ArgIdView, v: Seq<char>) -> Seq<
    UnitView,
> {
    match id {
        id::ArgIdView::Single(i) => spec_push_single_val(h, i, v),
        id::ArgIdView::Multi(i) => spec_push_multi_val(h, i, v),
    }
}

/// Lookups are polymorphic over identity shape: an identity knows which
/// unit variant it matches and how to read it back.
pub trait ID: Sized {
    type Ret;

    /// Does the unit record this identity (with the matching shape)?
    spec fn id_matches(&self, u: UnitView) -> bool;

    /// The unit a returned reference stands for.
    spec fn ret_view(r: &Self::Ret) -> UnitView;

    /// Duplicate a returned unit, keeping its content.
    fn clone_ret(r: &Self::Ret) -> (c: Self::Ret)
        ensures
            Self::ret_view(&c) == Self::ret_view(r),
    ;

    /// Match a unit against this identity, casting to the shape's type.
    fn match_and_cast<'a>(&self, h: &'a HistoryUnit) -> (r: Option<&'a Self::Ret>)
        ensures
            r is Some <==> self.id_matches(h@),
            r matches Some(u) ==> Self::ret_view(u) == h@,
    ;
}

impl ID for id::NoVal {
    type Ret = HistoryUnitNoVal;

    open spec fn id_matches(&self, u: UnitView) -> bool {
        unit_is_no(u, self@)
    }

    open spec fn ret_view(r: &HistoryUnitNoVal) -> UnitView {
        r@
    }

    fn clone_ret(r: &HistoryUnitNoVal) -> (c: HistoryUnitNoVal) {
        r.clone()
    }

    fn match_and_cast<'a>(&self, h: &'a HistoryUnit) -> (r: Option<&'a HistoryUnitNoVal>) {
        match h {
            HistoryUnit::No(u) => {
                if u.0 == *self {
                    Some(u)
                } else {
                    None
                }
            },
            _ => None,
        }
    }
}

impl ID for id::SingleVal {
    type Ret = HistoryUnitSingleVal;

    open spec fn id_matches(&self, u: UnitView) -> bool {
        unit_is_single(u, self@)
    }

    open spec fn ret_view(r: &HistoryUnitSingleVal) -> UnitView {
        r@
    }

    fn clone_ret(r: &HistoryUnitSingleVal) -> (c: HistoryUnitSingleVal) {
        r.clone()
    }

    fn match_and_cast<'a>(&self, h: &'a HistoryUnit) -> (r: Option<&'a HistoryUnitSingleVal>) {
        match h {
            HistoryUnit::Single(u) => {
                if u.id == *self {
                    Some(u)
                } else {
                    None
                }
            },
            _ => None,
        }
    }
}

impl ID for id::MultiVal {
    type Ret = HistoryUnitMultiVal;

    open spec fn id_matches(&self, u: UnitView) -> bool {
        unit_is_multi(u, self@)
    }

    open spec fn ret_view(r: &HistoryUnitMultiVal) -> UnitView {
        r@
    }

    fn clone_ret(r: &HistoryUnitMultiVal) -> (c: HistoryUnitMultiVal) {
        r.clone()
    }

    fn match_and_cast<'a>(&self, h: &'a HistoryUnit) -> (r: Option<&'a HistoryUnitMultiVal>) {
        match h {
            HistoryUnit::Multi(u) => {
                if u.id == *self {
                    Some(u)
                } else {
                    None
                }
            },
            _ => None,
        }
    }
}

/// Does any identity in `ids` match the unit?
pub open spec fn any_id_matches<I: ID>(ids: Seq<I>, v: UnitView) -> bool {
    exists|k: int| 0 <= k < ids.len() && (#[trigger] ids[k]).id_matches(v)
}

/// The units of `h` recorded under any identity in `ids`, in order.
pub open spec fn matching_units<I: ID>(h: Seq<UnitView>, ids: Seq<I>) -> Seq<UnitView> {
    h.filter(|v: UnitView| any_id_matches(ids, v))
}

/// The unit contents a sequence of shape-cast units stands for.
pub open spec fn rets_view<I: ID>(s: Seq<I::Ret>) -> Seq<UnitView> {
    s.map_values(|u: I::Ret| I::ret_view(&u))
}

/// The record of all recognized units, in recognition order.
#[derive(Debug)]
pub struct History(Vec<HistoryUnit>);

impl View for History {
    type V = Seq<UnitView>;

    closed spec fn view(&self) -> Seq<UnitView> {
        self.0@.map_values(|u: HistoryUnit| u@)
    }
}

impl Default for History {
    /// An empty history.
    fn default() -> (r: Self)
        ensures
            r@ == Seq::<UnitView>::empty(),
    {
        History(Vec::new())
    }
}

impl History {
    /// The recorded units, in order.
    pub fn into_inner(self) -> (r: Vec<HistoryUnit>)
        ensures
            r@.map_values(|u: HistoryUnit| u@) == self@,
    {
        self.0
    }

    /// Record that a no-value identity (a boolean flag) was seen.
    pub fn push_no_val(&mut self, id: id::NoVal)
        ensures
            final(self)@ == spec_push_no_val(old(self)@, id@),
    {
        self.0.push(HistoryUnit::No(HistoryUnitNoVal(id)));
    }

    /// Record that a command was entered.
    pub fn push_command(&mut self, id: id::NoVal)
        ensures
            final(self)@ == spec_push_no_val(old(self)@, id@),
    {
        self.0.push(HistoryUnit::No(HistoryUnitNoVal(id)));
    }

    /// Record a value for a single-value identity; a later sighting
    /// overwrites the earlier one in place.
    pub fn push_single_val(&mut self, id: id::SingleVal, value: String)
        ensures
            final(self)@ == spec_push_single_val(old(self)@, id@, value@),
    {
        let ghost pred = |u: UnitView| unit_is_single(u, id@);
        let n = self.0.len();
        let mut i: usize = 0;
        while i < n
            invariant
                n == self.0.len(),
                i <= n,
                *self == *old(self),
                pred == (|u: UnitView| unit_is_single(u, id@)),
                forall|k: int| 0 <= k < i ==> !pred(self@[k]),
            decreases n - i,
        {
            let found = match &self.0[i] {
                HistoryUnit::Single(u) => u.id == id,
                _ => false,
            };
            if found {
                proof {
                    assert(pred(old(self)@[i as int]));
                    lemma_first_match_idx_is(old(self)@, pred, i as int);
                }
                self.0[i] = HistoryUnit::Single(HistoryUnitSingleVal { id, value });
                proof {
                    assert(self@ =~= old(self)@.update(
                        i as int,
                        UnitView::Single { id: id@, value: value@ },
                    ));
                }
                return ;
            }
            i += 1;
        }
        proof {
            lemma_first_match_idx(old(self)@, pred);
        }
        self.0.push(HistoryUnit::Single(HistoryUnitSingleVal { id, value }));
        proof {
            assert(self@ =~= old(self)@.push(UnitView::Single { id: id@, value: value@ }));
        }
    }

    /// Record a value for a multi-value identity; values accumulate on
    /// the first unit with that identity, in token order.
    pub fn push_multi_val(&mut self, id: id::MultiVal, value: String)
        ensures
            final(self)@ == spec_push_multi_val(old(self)@, id@, value@),
    {
        let ghost pred = |u: UnitView| unit_is_multi(u, id@);
        let n = self.0.len();
        let mut i: usize = 0;
        while i < n
            invariant
                n == self.0.len(),
                i <= n,
                *self == *old(self),
                pred == (|u: UnitView| unit_is_multi(u, id@)),
                forall|k: int| 0 <= k < i ==> !pred(self@[k]),
            decreases n - i,
        {
            let found = match &self.0[i] {
                HistoryUnit::Multi(u) => u.id == id,
                _ => false,
            };
            if found {
                proof {
                    assert(pred(old(self)@[i as int]));
                    lemma_first_match_idx_is(old(self)@, pred, i as int);
                }
                let u = &mut self.0[i];
                match u {
                    HistoryUnit::Multi(m) => {
                        m.value.push(value);
                        proof {
                            assert(m.value@.map_values(|s: String| s@) =~= old(
                                self,
                            )@[i as int]->Multi_values.push(value@));
                        }
                    },
                    _ => {
                        proof {
                            assert(false);
                        }
                    },
                }
                proof {
                    let old_values = old(self)@[i as int]->Multi_values;
                    assert(self@ =~= old(self)@.update(
                        i as int,
                        UnitView::Multi { id: id@, values: old_values.push(value@) },
                    ));
                }
                return ;
            }
            i += 1;
        }
        proof {
            lemma_first_match_idx(old(self)@, pred);
        }
        let ghost vv = value@;
        let mut vals: Vec<String> = Vec::new();
        vals.push(value);
        proof {
            assert(vals@ =~= seq![vals@[0]]);
            assert(vals@.map_values(|s: String| s@) =~= seq![vv]);
        }
        self.0.push(HistoryUnit::Multi(HistoryUnitMultiVal { id, value: vals }));
        proof {
            assert(self@ =~= old(self)@.push(UnitView::Multi { id: id@, values: seq![vv] }));
            assert(seq![vv] == seq![value@]);
        }
    }

    /// Record a positional value, dispatching on the identity's shape.
    pub fn push_arg(&mut self, id: id::Arg, value: String)
        ensures
            final(self)@ == spec_push_arg(old(self)@, id@, value@),
    {
        match id {
            id::Arg::Single(id) => self.push_single_val(id, value),
            id::Arg::Multi(id) => self.push_multi_val(id, value),
        }
    }

    /// The first unit recorded under this identity, if any.
    pub fn find<'a, I: ID>(&'a self, id: I) -> (r: Option<&'a I::Ret>)
        ensures
            match r {
                Some(u) => {
                    let j = first_match_idx(self@, |v: UnitView| id.id_matches(v));
                    &&& 0 <= j < self@.len()
                    &&& id.id_matches(self@[j])
                    &&& I::ret_view(u) == self@[j]
                },
                None => forall|i: int| 0 <= i < self@.len() ==> !id.id_matches(self@[i]),
            },
    {
        let ghost pred = |v: UnitView| id.id_matches(v);
        let n = self.0.len();
        let mut i: usize = 0;
        while i < n
            invariant
                n == self.0.len(),
                i <= n,
                pred == (|v: UnitView| id.id_matches(v)),
                forall|k: int| 0 <= k < i ==> !pred(self@[k]),
            decreases n - i,
        {
            let r = id.match_and_cast(&self.0[i]);
            if r.is_some() {
                proof {
                    assert(pred(self@[i as int]));
                    lemma_first_match_idx_is(self@, pred, i as int);
                }
                return r;
            }
            i += 1;
        }
        None
    }

    /// The last unit recorded under this identity, if any.
    pub fn find_last<'a, I: ID>(&'a self, id: I) -> (r: Option<&'a I::Ret>)
        ensures
            match r {
                Some(u) => exists|j: int|
                    {
                        &&& 0 <= j < self@.len()
                        &&& #[trigger] id.id_matches(self@[j])
                        &&& I::ret_view(u) == self@[j]
                        &&& forall|k: int| j < k < self@.len() ==> !id.id_matches(self@[k])
                    },
                None => forall|i: int| 0 <= i < self@.len() ==> !id.id_matches(self@[i]),
            },
    {
        let n = self.0.len();
        let mut i: usize = n;
        while i > 0
            invariant
                n == self.0.len(),
                i <= n,
                forall|k: int| i <= k < n ==> !id.id_matches(self@[k]),
            decreases i,
        {
            i -= 1;
            let r = id.match_and_cast(&self.0[i]);
            if r.is_some() {
                proof {
                    assert(id.id_matches(self@[i as int]));
                }
                return r;
            }
        }
        None
    }

    /// All units recorded under any of the given identities, in order.
    pub fn find_all<I: ID>(&self, ids: &Vec<I>) -> (r: Vec<I::Ret>)
        ensures
            rets_view::<I>(r@) == matching_units(self@, ids@),
    {
        let ghost pred = |v: UnitView| any_id_matches(ids@, v);
        let mut ret: Vec<I::Ret> = Vec::new();
        let n = self.0.len();
        let mut i: usize = 0;
        proof {
            reveal(Seq::filter);
            assert(self@.take(0) =~= Seq::<UnitView>::empty());
            assert(rets_view::<I>(ret@) =~= self@.take(0).filter(pred));
        }
        while i < n
            invariant
                n == self.0.len(),
                pred == (|v: UnitView| any_id_matches(ids@, v)),
                i <= n,
                rets_view::<I>(ret@) == self@.take(i as int).filter(pred),
            decreases n - i,
        {
            let u = &self.0[i];
            let mut matched: Option<&I::Ret> = None;
            let m = ids.len();
            let mut k: usize = 0;
            while k < m
                invariant
                    m == ids@.len(),
                    k <= m,
                    matched is None ==> forall|j: int|
                        0 <= j < k ==> !(#[trigger] ids@[j]).id_matches(u@),
                    matched matches Some(c) ==> I::ret_view(c) == u@ && any_id_matches(
                        ids@,
                        u@,
                    ),
                decreases m - k,
            {
                if matched.is_none() {
                    let r = ids[k].match_and_cast(u);
                    if r.is_some() {
                        matched = r;
                    }
                }
                k += 1;
            }
            proof {
                reveal(Seq::filter);
                assert(self@.take(i + 1).drop_last() =~= self@.take(i as int));
                assert(self@.take(i + 1).last() == self@[i as int]);
            }
            match matched {
                Some(c) => {
                    let cc = I::clone_ret(c);
                    ret.push(cc);
                    proof {
                        assert(rets_view::<I>(ret@) =~= self@.take(i + 1).filter(pred));
                    }
                },
                None => {
                    proof {
                        assert(!pred(u@));
                        assert(rets_view::<I>(ret@) =~= self@.take(i + 1).filter(pred));
                    }
                },
            }
            i += 1;
        }
        proof {
            assert(self@.take(n as int) =~= self@);
        }
        ret
    }
}

impl From<Vec<HistoryUnit>> for History {
    fn from(value: Vec<HistoryUnit>) -> (r: Self) {
        History(value)
    }
}

impl vstd::std_specs::convert::FromSpecImpl<Vec<HistoryUnit>> for History {
    open spec fn obeys_from_spec() -> bool {
        true
    }

    closed spec fn from_spec(t: Vec<HistoryUnit>) -> Self {
        History(t)
    }
}

} // verus!
