//! Completion candidates and the bundle handed to a shell renderer.
//!
//! A candidate carries a value, a description and an optional group.  A
//! completion group pairs the candidates with the typed last token,
//! the prefix a shell uses for its own filtering.

use vstd::prelude::*;

use vstd::string::StrSliceExecFns;

use vstd::multiset::Multiset;

use crate::strutil::str_concat;
use crate::strutil::str_eq;
use crate::strutil::str_starts_with;
use crate::strutil::spec_starts_with;

verus! {

/// Mathematical content of one candidate.
pub struct CompView {
    pub value: Seq<char>,
    pub description: Seq<char>,
    pub group: Option<Seq<char>>,
}

/// One completion candidate.
#[derive(Debug)]
pub struct Completion {
    pub value: String,
    pub description: String,
    pub group: Option<String>,
}

impl View for Completion {
    type V = CompView;

    open spec fn view(&self) -> CompView {
        CompView {
            value: self.value@,
            description: self.description@,
            group: match &self.group {
                Some(g) => Some(g@),
                None => None,
            },
        }
    }
}

impl Clone for Completion {
    fn clone(&self) -> (r: Self)
        ensures
            r@ == self@,
    {
        Completion {
            value: self.value.clone(),
            description: self.description.clone(),
            group: match &self.group {
                Some(g) => Some(g.clone()),
                None => None,
            },
        }
    }
}

impl PartialEq for Completion {
    fn eq(&self, other: &Self) -> bool {
        let group_eq = match (&self.group, &other.group) {
            (Some(a), Some(b)) => *a == *b,
            (None, None) => true,
            _ => false,
        };
        self.value == other.value && self.description == other.description && group_eq
    }
}

impl vstd::std_specs::cmp::PartialEqSpecImpl for Completion {
    open spec fn obeys_eq_spec() -> bool {
        true
    }

    open spec fn eq_spec(&self, other: &Self) -> bool {
        self@ == other@
    }
}

impl Completion {
    /// A candidate with no group.
    pub fn new(value: &str, description: &str) -> (r: Self)
        ensures
            r@ == (CompView { value: value@, description: description@, group: None }),
    {
        Completion { value: value.to_owned(), description: description.to_owned(), group: None }
    }

    /// The same candidate with its value replaced.
    pub fn value(self, value: String) -> (r: Self)
        ensures
            r@ == (CompView { value: value@, ..self@ }),
    {
        Completion { value, description: self.description, group: self.group }
    }

    /// The same candidate within the given group.
    pub fn group(self, group: &str) -> (r: Self)
        ensures
            r@ == (CompView { group: Some(group@), ..self@ }),
    {
        Completion { value: self.value, description: self.description, group: Some(group.to_owned()) }
    }
}

/// The views of a list of candidates.
pub open spec fn comps_view(s: Seq<Completion>) -> Seq<CompView> {
    s.map_values(|c: Completion| c@)
}


/// A shell dialect the candidates can be rendered for.
#[derive(Clone, Copy, Debug)]
pub enum Shell {
    Zsh,
    Fish,
    Bash,
}

impl core::str::FromStr for Shell {
    type Err = String;

    fn from_str(s: &str) -> Result<Self, String> {
        if crate::strutil::str_eq(s, "zsh") {
            Ok(Shell::Zsh)
        } else if crate::strutil::str_eq(s, "fish") {
            Ok(Shell::Fish)
        } else if crate::strutil::str_eq(s, "bash") {
            Ok(Shell::Bash)
        } else {
            Err(s.to_owned())
        }
    }
}

/// The prefix test a shell applies to each candidate's value.
pub open spec fn keep_pred(prefix: Seq<char>) -> spec_fn(CompView) -> bool {
    |c: CompView| spec_starts_with(c.value, prefix)
}

/// The value of a candidate, as a function.
pub open spec fn value_fn() -> spec_fn(CompView) -> Seq<char> {
    |c: CompView| c.value
}

/// The lines bash receives: the values of the candidates that pass the
/// shell's own prefix filter, in order.  Bash takes no descriptions.
pub open spec fn bash_lines(comps: Seq<CompView>, prefix: Seq<char>) -> Seq<Seq<char>> {
    comps.filter(keep_pred(prefix)).map_values(value_fn())
}

/// The description column fish shows: the candidate's description, or
/// its group when the description is empty.
pub open spec fn fish_desc(c: CompView) -> Seq<char> {
    if c.description.len() > 0 {
        c.description
    } else {
        match c.group {
            Some(g) => g,
            None => Seq::empty(),
        }
    }
}

/// One fish line: value, a tab, then the description column.
pub open spec fn fish_line(c: CompView) -> Seq<char> {
    c.value + seq!['\t'] + fish_desc(c)
}

/// One fish line, as a function.
pub open spec fn fish_line_fn() -> spec_fn(CompView) -> Seq<char> {
    |c: CompView| fish_line(c)
}

/// The lines fish receives, prefix-filtered like bash.
pub open spec fn fish_lines(comps: Seq<CompView>, prefix: Seq<char>) -> Seq<Seq<char>> {
    comps.filter(keep_pred(prefix)).map_values(fish_line_fn())
}


/// The zsh group of a candidate: its group field, or `option`.
pub open spec fn zsh_group_key(c: CompView) -> Seq<char> {
    match c.group {
        Some(g) => g,
        None => seq!['o', 'p', 't', 'i', 'o', 'n'],
    }
}

/// Membership of one zsh group, as a predicate.
pub open spec fn group_key_pred(g: Seq<char>) -> spec_fn(CompView) -> bool {
    |c: CompView| zsh_group_key(c) == g
}

/// The candidates of one zsh group, in order.
pub open spec fn group_members(comps: Seq<CompView>, g: Seq<char>) -> Seq<CompView> {
    comps.filter(group_key_pred(g))
}

/// The group names in first-appearance order, each once.
pub open spec fn distinct_groups(comps: Seq<CompView>) -> Seq<Seq<char>>
    decreases comps.len(),
{
    if comps.len() == 0 {
        Seq::empty()
    } else {
        let d = distinct_groups(comps.drop_last());
        if d.contains(zsh_group_key(comps.last())) {
            d
        } else {
            d.push(zsh_group_key(comps.last()))
        }
    }
}

/// One zsh candidate line: tab, value, tab, value, and the description
/// after ` -- ` when there is one.
pub open spec fn zsh_entry(c: CompView) -> Seq<char> {
    if c.description.len() == 0 {
        seq!['\t'] + c.value + seq!['\t'] + c.value
    } else {
        seq!['\t'] + c.value + seq!['\t'] + c.value + seq![' ', '-', '-', ' '] + c.description
    }
}

/// One zsh candidate line, as a function.
pub open spec fn zsh_entry_fn() -> spec_fn(CompView) -> Seq<char> {
    |c: CompView| zsh_entry(c)
}

/// One group's block: its name, then one line per member.
pub open spec fn zsh_group_block(comps: Seq<CompView>, g: Seq<char>) -> Seq<Seq<char>> {
    seq![g] + group_members(comps, g).map_values(zsh_entry_fn())
}

/// The blocks of the given groups, in their order.
pub open spec fn zsh_blocks(comps: Seq<CompView>, gs: Seq<Seq<char>>) -> Seq<Seq<char>>
    decreases gs.len(),
{
    if gs.len() == 0 {
        Seq::empty()
    } else {
        zsh_blocks(comps, gs.drop_last()) + zsh_group_block(comps, gs.last())
    }
}

/// Lexicographic order on character sequences, by code point; the
/// order std gives strings, since UTF-8 preserves code-point order.
pub open spec fn lex_le(a: Seq<char>, b: Seq<char>) -> bool
    decreases a.len(),
{
    if a.len() == 0 {
        true
    } else if b.len() == 0 {
        false
    } else if a[0] != b[0] {
        (a[0] as u32) < (b[0] as u32)
    } else {
        lex_le(a.skip(1), b.skip(1))
    }
}

/// How zsh orders the groups: fewer members first, ties by name.
pub open spec fn zsh_group_order(comps: Seq<CompView>) -> spec_fn(Seq<char>, Seq<char>) -> bool {
    |a: Seq<char>, b: Seq<char>|
        group_members(comps, a).len() < group_members(comps, b).len() || (group_members(
            comps,
            a,
        ).len() == group_members(comps, b).len() && lex_le(a, b))
}

proof fn lemma_char_cast_injective(a: char, b: char)
    requires
        a != b,
    ensures
        a as u32 != b as u32,
{
}

proof fn lemma_lex_le_refl(a: Seq<char>)
    ensures
        lex_le(a, a),
    decreases a.len(),
{
    if a.len() > 0 {
        lemma_lex_le_refl(a.skip(1));
    }
}

proof fn lemma_lex_le_connected(a: Seq<char>, b: Seq<char>)
    ensures
        lex_le(a, b) || lex_le(b, a),
    decreases a.len(),
{
    if a.len() > 0 && b.len() > 0 {
        if a[0] == b[0] {
            lemma_lex_le_connected(a.skip(1), b.skip(1));
        } else {
            lemma_char_cast_injective(a[0], b[0]);
        }
    }
}

proof fn lemma_lex_le_antisym(a: Seq<char>, b: Seq<char>)
    requires
        lex_le(a, b),
        lex_le(b, a),
    ensures
        a == b,
    decreases a.len(),
{
    if a.len() == 0 {
        assert(b.len() == 0);
        assert(a =~= b);
    } else {
        assert(b.len() > 0);
        assert(a[0] == b[0]);
        lemma_lex_le_antisym(a.skip(1), b.skip(1));
        assert(a.skip(1) == b.skip(1));
        assert(a.len() == b.len());
        assert forall|k: int| 0 <= k < a.len() implies a[k] == b[k] by {
            if k > 0 {
                assert(a.skip(1)[k - 1] == a[k]);
                assert(b.skip(1)[k - 1] == b[k]);
            }
        }
        assert(a =~= b);
    }
}

proof fn lemma_lex_le_trans(a: Seq<char>, b: Seq<char>, c: Seq<char>)
    requires
        lex_le(a, b),
        lex_le(b, c),
    ensures
        lex_le(a, c),
    decreases a.len(),
{
    if a.len() > 0 {
        assert(b.len() > 0);
        assert(c.len() > 0);
        if a[0] == b[0] && b[0] == c[0] {
            lemma_lex_le_trans(a.skip(1), b.skip(1), c.skip(1));
        }
    }
}

/// The zsh group order is a total order.
pub proof fn lemma_zsh_order_total(comps: Seq<CompView>)
    ensures
        vstd::relations::total_ordering(zsh_group_order(comps)),
{
    let r = zsh_group_order(comps);
    assert forall|x: Seq<char>| #[trigger] r(x, x) by {
        lemma_lex_le_refl(x);
    }
    assert forall|x: Seq<char>, y: Seq<char>| #[trigger] r(x, y) && #[trigger] r(
        y,
        x,
    ) implies x == y by {
        lemma_lex_le_antisym(x, y);
    }
    assert forall|x: Seq<char>, y: Seq<char>, z: Seq<char>|
        #[trigger] r(x, y) && #[trigger] r(y, z) implies r(x, z) by {
        if group_members(comps, x).len() == group_members(comps, y).len()
            && group_members(comps, y).len() == group_members(comps, z).len() {
            lemma_lex_le_trans(x, y, z);
        }
    }
    assert forall|x: Seq<char>, y: Seq<char>| #[trigger] r(x, y) || #[trigger] r(y, x) by {
        lemma_lex_le_connected(x, y);
    }
}


/// The zsh group name of one candidate.
fn key_of(c: &Completion) -> (k: String)
    ensures
        k@ == zsh_group_key(c@),
{
    match &c.group {
        Some(g) => g.clone(),
        None => {
            proof {
                reveal_strlit("option");
                assert("option"@ =~= seq!['o', 'p', 't', 'i', 'o', 'n']);
            }
            "option".to_owned()
        },
    }
}

/// Is this name already among the keys?
fn keys_contain(keys: &Vec<String>, k: &str) -> (r: bool)
    ensures
        r == (exists|j: int| 0 <= j < keys@.len() && (#[trigger] keys@[j])@ == k@),
{
    let n = keys.len();
    let mut i: usize = 0;
    while i < n
        invariant
            n == keys@.len(),
            i <= n,
            forall|j: int| 0 <= j < i ==> (#[trigger] keys@[j])@ != k@,
        decreases n - i,
    {
        if str_eq(keys[i].as_str(), k) {
            proof {
                assert((keys@[i as int])@ == k@);
            }
            return true;
        }
        i += 1;
    }
    false
}

/// The distinct group names of the candidates, in first appearance
/// order.
fn distinct_keys(comps: &Vec<Completion>) -> (keys: Vec<String>)
    ensures
        keys@.map_values(|s: String| s@) == distinct_groups(comps_view(comps@)),
{
    let mut keys: Vec<String> = Vec::new();
    let n = comps.len();
    let mut i: usize = 0;
    proof {
        assert(comps_view(comps@.take(0)) =~= Seq::<CompView>::empty());
        assert(keys@.map_values(|s: String| s@) =~= distinct_groups(
            comps_view(comps@.take(0)),
        ));
    }
    while i < n
        invariant
            n == comps@.len(),
            i <= n,
            keys@.map_values(|s: String| s@) == distinct_groups(
                comps_view(comps@.take(i as int)),
            ),
        decreases n - i,
    {
        let k = key_of(&comps[i]);
        let ghost pre_keys = keys@;
        let seen = keys_contain(&keys, k.as_str());
        proof {
            let kv = pre_keys.map_values(|s: String| s@);
            if seen {
                let j = choose|j: int| 0 <= j < pre_keys.len() && (#[trigger] pre_keys[j])@
                    == k@;
                assert(kv[j] == k@);
                assert(kv.contains(k@));
            } else if kv.contains(k@) {
                let j = choose|j: int| 0 <= j < kv.len() && kv[j] == k@;
                assert((pre_keys[j])@ == k@);
                assert(false);
            }
        }
        if !seen {
            keys.push(k);
        }
        proof {
            let cnew = comps_view(comps@.take(i + 1));
            assert(cnew.drop_last() =~= comps_view(comps@.take(i as int)));
            assert(cnew.last() == comps@[i as int]@);
            assert(keys@.map_values(|s: String| s@) =~= distinct_groups(cnew));
        }
        i += 1;
    }
    proof {
        assert(comps@.take(n as int) =~= comps@);
        assert(comps_view(comps@.take(n as int)) =~= comps_view(comps@));
    }
    keys
}

/// How many candidates belong to this group.
fn count_members(comps: &Vec<Completion>, g: &str) -> (r: usize)
    ensures
        r as nat == group_members(comps_view(comps@), g@).len(),
{
    let mut r: usize = 0;
    let n = comps.len();
    let mut i: usize = 0;
    proof {
        reveal(Seq::filter);
        assert(comps_view(comps@.take(0)) =~= Seq::<CompView>::empty());
    }
    while i < n
        invariant
            n == comps@.len(),
            i <= n,
            r <= i,
            r as nat == group_members(comps_view(comps@.take(i as int)), g@).len(),
        decreases n - i,
    {
        let k = key_of(&comps[i]);
        let hit = str_eq(k.as_str(), g);
        proof {
            reveal(Seq::filter);
            let cnew = comps_view(comps@.take(i + 1));
            assert(cnew.drop_last() =~= comps_view(comps@.take(i as int)));
            assert(cnew.last() == comps@[i as int]@);
            assert(hit == group_key_pred(g@)(cnew.last()));
        }
        if hit {
            r = r + 1;
        }
        i += 1;
    }
    proof {
        assert(comps@.take(n as int) =~= comps@);
        assert(comps_view(comps@.take(n as int)) =~= comps_view(comps@));
    }
    r
}

/// Lexicographic comparison of two names, by code point.
fn lex_le_exec(a: &str, b: &str) -> (r: bool)
    ensures
        r == lex_le(a@, b@),
{
    let an = a.unicode_len();
    let bn = b.unicode_len();
    let mut i: usize = 0;
    proof {
        assert(a@.skip(0) =~= a@);
        assert(b@.skip(0) =~= b@);
    }
    loop
        invariant
            an == a@.len(),
            bn == b@.len(),
            i <= an,
            i <= bn,
            lex_le(a@, b@) == lex_le(a@.skip(i as int), b@.skip(i as int)),
        decreases an - i,
    {
        if i >= an {
            return true;
        }
        if i >= bn {
            return false;
        }
        let ca = a.get_char(i);
        let cb = b.get_char(i);
        proof {
            assert(a@.skip(i as int)[0] == a@[i as int]);
            assert(b@.skip(i as int)[0] == b@[i as int]);
        }
        if ca != cb {
            return (ca as u32) < (cb as u32);
        }
        proof {
            assert(a@.skip(i as int).skip(1) =~= a@.skip(i + 1));
            assert(b@.skip(i as int).skip(1) =~= b@.skip(i + 1));
        }
        i += 1;
    }
}

/// Does group `a` come before (or equal) group `b` in zsh order?
fn group_before(comps: &Vec<Completion>, a: &str, b: &str) -> (r: bool)
    ensures
        r == zsh_group_order(comps_view(comps@))(a@, b@),
{
    let ca = count_members(comps, a);
    let cb = count_members(comps, b);
    if ca < cb {
        true
    } else if ca == cb {
        lex_le_exec(a, b)
    } else {
        false
    }
}

/// The group names sorted by the zsh order, via insertion.
fn sort_keys(comps: &Vec<Completion>, keys: Vec<String>) -> (out: Vec<String>)
    ensures
        vstd::relations::sorted_by(
            out@.map_values(|s: String| s@),
            zsh_group_order(comps_view(comps@)),
        ),
        out@.map_values(|s: String| s@).to_multiset() == keys@.map_values(
            |s: String| s@,
        ).to_multiset(),
{
    broadcast use vstd::seq_lib::group_to_multiset_ensures;
    broadcast use vstd::multiset::group_multiset_axioms;

    let ghost cv = comps_view(comps@);
    let ghost ord = zsh_group_order(cv);
    let mut out: Vec<String> = Vec::new();
    let n = keys.len();
    let mut i: usize = 0;
    proof {
        assert(out@.map_values(|s: String| s@) =~= Seq::<Seq<char>>::empty());
        assert(keys@.map_values(|s: String| s@).take(0) =~= Seq::<Seq<char>>::empty());
        assert(out@.map_values(|s: String| s@).to_multiset() =~= keys@.map_values(
            |s: String| s@,
        ).take(0).to_multiset());
    }
    while i < n
        invariant
            n == keys@.len(),
            i <= n,
            cv == comps_view(comps@),
            ord == zsh_group_order(cv),
            vstd::relations::sorted_by(out@.map_values(|s: String| s@), ord),
            out@.map_values(|s: String| s@).to_multiset() == keys@.map_values(
                |s: String| s@,
            ).take(i as int).to_multiset(),
        decreases n - i,
    {
        broadcast use vstd::seq_lib::group_to_multiset_ensures;
        broadcast use vstd::multiset::group_multiset_axioms;

        let k = keys[i].clone();
        let ghost kv = k@;
        let ghost pre = out@.map_values(|s: String| s@);
        let m = out.len();
        let mut pos: usize = 0;
        while pos < m && group_before(comps, out[pos].as_str(), k.as_str())
            invariant
                m == out@.len(),
                pos <= m,
                cv == comps_view(comps@),
                ord == zsh_group_order(cv),
                kv == k@,
                forall|t: int|
                    0 <= t < pos ==> ord((#[trigger] out@[t])@, kv),
            decreases m - pos,
        {
            pos += 1;
        }
        proof {
            lemma_zsh_order_total(cv);
            if pos < m {
                assert(!ord(pre[pos as int], kv));
                assert(ord(kv, pre[pos as int]));
            }
        }
        let ghost pre_toks = out@;
        out.insert(pos, k);
        proof {
            let now = out@.map_values(|s: String| s@);
            assert(out@ == pre_toks.insert(pos as int, keys@[i as int]));
            assert(now.len() == pre.len() + 1);
            assert forall|t: int| 0 <= t < now.len() implies now[t] == (if t < pos {
                pre[t]
            } else if t == pos {
                kv
            } else {
                pre[t - 1]
            }) by {
                assert(now[t] == out@[t]@);
            }
            // Sortedness: everything before the slot is at most `k`,
            // and `k` is at most everything from the slot on.
            assert forall|x: int, y: int| 0 <= x < y < now.len() implies ord(
                now[x],
                now[y],
            ) by {
                if y < pos {
                    assert(ord(pre[x], pre[y]));
                } else if x < pos && y == pos {
                    assert(ord(pre[x], kv));
                } else if x < pos && y > pos {
                    assert(ord(pre[x], pre[y - 1]));
                } else if x == pos && y > pos {
                    if pos < pre.len() {
                        assert(ord(kv, pre[pos as int]));
                        if y - 1 > pos {
                            assert(ord(pre[pos as int], pre[y - 1]));
                        }
                    }
                } else {
                    assert(ord(pre[x - 1], pre[y - 1]));
                }
            }
            // The multiset gains exactly `k`.
            assert(now =~= pre.take(pos as int) + (seq![kv] + pre.skip(pos as int)));
            vstd::seq_lib::lemma_multiset_commutative(
                pre.take(pos as int),
                seq![kv] + pre.skip(pos as int),
            );
            vstd::seq_lib::lemma_multiset_commutative(seq![kv], pre.skip(pos as int));
            assert(pre =~= pre.take(pos as int) + pre.skip(pos as int));
            vstd::seq_lib::lemma_multiset_commutative(
                pre.take(pos as int),
                pre.skip(pos as int),
            );
            assert(seq![kv] =~= Seq::<Seq<char>>::empty().push(kv));
            assert(seq![kv].to_multiset() =~= Multiset::<Seq<char>>::empty().insert(kv));
            assert(now.to_multiset() =~= pre.to_multiset().insert(kv));
            let km = keys@.map_values(|s: String| s@);
            assert(km.take(i + 1).drop_last() =~= km.take(i as int));
            assert(km.take(i + 1) =~= km.take(i as int).push(kv));
            assert(km.take(i + 1).to_multiset() =~= km.take(i as int).to_multiset().insert(
                kv,
            ));
        }
        i += 1;
    }
    proof {
        assert(keys@.map_values(|s: String| s@).take(n as int) =~= keys@.map_values(
            |s: String| s@,
        ));
    }
    out
}

/// The output bundle: candidates plus the last token as their prefix.
#[derive(Debug)]
pub struct CompletionGroup {
    arg: String,
    comps: Vec<Completion>,
}

impl View for CompletionGroup {
    type V = (Seq<CompView>, Seq<char>);

    closed spec fn view(&self) -> (Seq<CompView>, Seq<char>) {
        (comps_view(self.comps@), self.arg@)
    }
}

impl CompletionGroup {
    /// Bundle candidates with the token they complete.
    pub fn new(comps: Vec<Completion>, arg: String) -> (r: Self)
        ensures
            r@ == (comps_view(comps@), arg@),
    {
        CompletionGroup { arg, comps }
    }

    /// The candidates and the prefix.
    pub fn into_inner(self) -> (r: (Vec<Completion>, String))
        ensures
            comps_view(r.0@) == self@.0,
            r.1@ == self@.1,
    {
        (self.comps, self.arg)
    }
}


impl CompletionGroup {
    /// The bash rendering: one retained candidate value per line.
    ///
    /// Rendering then shell-side filtering retains exactly the
    /// candidates whose value begins with the supplied prefix; the
    /// contract states that round trip.
    pub fn render_bash(&self) -> (lines: Vec<String>)
        ensures
            lines@.map_values(|s: String| s@) == bash_lines(self@.0, self@.1),
    {
        let mut lines: Vec<String> = Vec::new();
        let n = self.comps.len();
        let mut i: usize = 0;
        while i < n
            invariant
                n == self.comps@.len(),
                i <= n,
                lines@.map_values(|s: String| s@) == bash_lines(
                    comps_view(self.comps@.take(i as int)),
                    self.arg@,
                ),
            decreases n - i,
        {
            let c = &self.comps[i];
            let ghost pre_lines = lines@;
            let kept = str_starts_with(c.value.as_str(), self.arg.as_str());
            if kept {
                lines.push(c.value.clone());
            }
            proof {
                reveal(Seq::filter);
                let p = keep_pred(self.arg@);
                let cpre = comps_view(self.comps@.take(i as int));
                let cnew = comps_view(self.comps@.take(i + 1));
                assert(cnew.drop_last() =~= cpre);
                assert(cnew.last() == self.comps@[i as int]@);
                assert(kept == p(cnew.last()));
                assert(cnew.filter(p) == (if p(cnew.last()) {
                    cpre.filter(p).push(cnew.last())
                } else {
                    cpre.filter(p)
                }));
                assert(pre_lines.map_values(|s: String| s@) == cpre.filter(p).map_values(
                    value_fn(),
                ));
                if kept {
                    assert(lines@ == pre_lines.push(self.comps@[i as int].value));
                    assert(lines@.map_values(|s: String| s@) =~= pre_lines.map_values(
                        |s: String| s@,
                    ).push(self.comps@[i as int].value@));
                } else {
                    assert(lines@ == pre_lines);
                }
                assert(lines@.map_values(|s: String| s@) =~= cnew.filter(p).map_values(
                    value_fn(),
                ));
            }
            i += 1;
        }
        proof {
            assert(self.comps@.take(n as int) =~= self.comps@);
            assert(comps_view(self.comps@.take(n as int)) =~= comps_view(self.comps@));
        }
        lines
    }

    /// The fish rendering: retained candidates as value, tab, then the
    /// description or group, filtered by prefix as in bash.
    pub fn render_fish(&self) -> (lines: Vec<String>)
        ensures
            lines@.map_values(|s: String| s@) == fish_lines(self@.0, self@.1),
    {
        proof {
            reveal_strlit("\t");
            assert("\t"@ =~= seq!['\t']);
        }
        let mut lines: Vec<String> = Vec::new();
        let n = self.comps.len();
        let mut i: usize = 0;
        while i < n
            invariant
                n == self.comps@.len(),
                i <= n,
                "\t"@ == seq!['\t'],
                lines@.map_values(|s: String| s@) == fish_lines(
                    comps_view(self.comps@.take(i as int)),
                    self.arg@,
                ),
            decreases n - i,
        {
            let c = &self.comps[i];
            let ghost pre_lines = lines@;
            let kept = str_starts_with(c.value.as_str(), self.arg.as_str());
            let ghost lview = fish_line(self.comps@[i as int]@);
            if kept {
                let desc: &str = if c.description.as_str().unicode_len() > 0 {
                    c.description.as_str()
                } else {
                    match &c.group {
                        Some(g) => g.as_str(),
                        None => "",
                    }
                };
                proof {
                    reveal_strlit("");
                    assert(""@ =~= Seq::<char>::empty());
                    assert(desc@ == fish_desc(self.comps@[i as int]@));
                }
                let head = str_concat(c.value.as_str(), "\t");
                let line = str_concat(head.as_str(), desc);
                proof {
                    assert(line@ =~= lview);
                }
                lines.push(line);
            }
            proof {
                reveal(Seq::filter);
                let p = keep_pred(self.arg@);
                let cpre = comps_view(self.comps@.take(i as int));
                let cnew = comps_view(self.comps@.take(i + 1));
                assert(cnew.drop_last() =~= cpre);
                assert(cnew.last() == self.comps@[i as int]@);
                assert(kept == p(cnew.last()));
                assert(cnew.filter(p) == (if p(cnew.last()) {
                    cpre.filter(p).push(cnew.last())
                } else {
                    cpre.filter(p)
                }));
                assert(pre_lines.map_values(|s: String| s@) == cpre.filter(p).map_values(
                    fish_line_fn(),
                ));
                if kept {
                    assert(lines@.len() == pre_lines.len() + 1);
                    assert(lines@[pre_lines.len() as int]@ == lview);
                    assert(lines@.map_values(|s: String| s@) =~= pre_lines.map_values(
                        |s: String| s@,
                    ).push(lview));
                } else {
                    assert(lines@ == pre_lines);
                }
                assert(lines@.map_values(|s: String| s@) =~= cnew.filter(p).map_values(
                    fish_line_fn(),
                ));
            }
            i += 1;
        }
        proof {
            assert(self.comps@.take(n as int) =~= self.comps@);
            assert(comps_view(self.comps@.take(n as int)) =~= comps_view(self.comps@));
        }
        lines
    }
}


impl CompletionGroup {
    /// The zsh rendering: groups ordered by ascending member count
    /// then name, each group's name followed by one line per member,
    /// then the terminator.  zsh filters by prefix itself, so every
    /// candidate is emitted.
    pub fn render_zsh(&self) -> (lines: Vec<String>)
        ensures
            lines@.map_values(|s: String| s@) == zsh_blocks(
                self@.0,
                distinct_groups(self@.0).sort_by(zsh_group_order(self@.0)),
            ).push(seq!['E', 'N', 'D']),
    {
        let ghost cv = comps_view(self.comps@);
        let ghost ord = zsh_group_order(cv);
        let keys = distinct_keys(&self.comps);
        let sorted = sort_keys(&self.comps, keys);
        let ghost sv = sorted@.map_values(|s: String| s@);
        proof {
            lemma_zsh_order_total(cv);
            distinct_groups(cv).lemma_sort_by_ensures(ord);
            vstd::seq_lib::lemma_sorted_unique(sv, distinct_groups(cv).sort_by(ord), ord);
            assert(sv == distinct_groups(cv).sort_by(ord));
        }
        proof {
            reveal_strlit("\t");
            reveal_strlit(" -- ");
            assert("\t"@ =~= seq!['\t']);
            assert(" -- "@ =~= seq![' ', '-', '-', ' ']);
        }
        let mut lines: Vec<String> = Vec::new();
        let gn = sorted.len();
        let mut gi: usize = 0;
        proof {
            assert(lines@.map_values(|s: String| s@) =~= zsh_blocks(cv, sv.take(0)));
        }
        while gi < gn
            invariant
                gn == sorted@.len(),
                gi <= gn,
                cv == comps_view(self.comps@),
                sv == sorted@.map_values(|s: String| s@),
                "\t"@ == seq!['\t'],
                " -- "@ == seq![' ', '-', '-', ' '],
                lines@.map_values(|s: String| s@) == zsh_blocks(cv, sv.take(gi as int)),
            decreases gn - gi,
        {
            let g = &sorted[gi];
            lines.push(g.clone());
            proof {
                reveal(Seq::filter);
                assert(comps_view(self.comps@.take(0)) =~= Seq::<CompView>::empty());
                assert(lines@.map_values(|s: String| s@) =~= zsh_blocks(cv, sv.take(gi as int))
                    + seq![sv[gi as int]] + group_members(
                    comps_view(self.comps@.take(0)),
                    sv[gi as int],
                ).map_values(zsh_entry_fn()));
            }
            let n = self.comps.len();
            let mut j: usize = 0;
            while j < n
                invariant
                    n == self.comps@.len(),
                    j <= n,
                    gi < gn,
                    gn == sorted@.len(),
                    cv == comps_view(self.comps@),
                    sv == sorted@.map_values(|s: String| s@),
                    "\t"@ == seq!['\t'],
                    " -- "@ == seq![' ', '-', '-', ' '],
                    lines@.map_values(|s: String| s@) == zsh_blocks(cv, sv.take(gi as int))
                        + seq![sv[gi as int]] + group_members(
                        comps_view(self.comps@.take(j as int)),
                        sv[gi as int],
                    ).map_values(zsh_entry_fn()),
                decreases n - j,
            {
                let c = &self.comps[j];
                let k = key_of(c);
                let hit = str_eq(k.as_str(), sorted[gi].as_str());
                let ghost pre_lines = lines@;
                if hit {
                    let head = str_concat("\t", c.value.as_str());
                    let mid = str_concat(head.as_str(), "\t");
                    let base = str_concat(mid.as_str(), c.value.as_str());
                    let line = if c.description.as_str().unicode_len() == 0 {
                        base
                    } else {
                        let with_sep = str_concat(base.as_str(), " -- ");
                        str_concat(with_sep.as_str(), c.description.as_str())
                    };
                    proof {
                        assert(line@ =~= zsh_entry(self.comps@[j as int]@));
                    }
                    lines.push(line);
                }
                proof {
                    reveal(Seq::filter);
                    let cpre = comps_view(self.comps@.take(j as int));
                    let cnew = comps_view(self.comps@.take(j + 1));
                    assert(cnew.drop_last() =~= cpre);
                    assert(cnew.last() == self.comps@[j as int]@);
                    assert(hit == group_key_pred(sv[gi as int])(cnew.last()));
                    assert(cnew.filter(group_key_pred(sv[gi as int])) == (if group_key_pred(
                        sv[gi as int],
                    )(cnew.last()) {
                        cpre.filter(group_key_pred(sv[gi as int])).push(cnew.last())
                    } else {
                        cpre.filter(group_key_pred(sv[gi as int]))
                    }));
                    if hit {
                        assert(lines@.map_values(|s: String| s@) =~= pre_lines.map_values(
                            |s: String| s@,
                        ).push(zsh_entry(self.comps@[j as int]@)));
                    }
                    assert(lines@.map_values(|s: String| s@) =~= zsh_blocks(
                        cv,
                        sv.take(gi as int),
                    ) + seq![sv[gi as int]] + group_members(cnew, sv[gi as int]).map_values(
                        zsh_entry_fn(),
                    ));
                }
                j += 1;
            }
            proof {
                assert(self.comps@.take(n as int) =~= self.comps@);
                assert(comps_view(self.comps@.take(n as int)) =~= cv);
                assert(sv.take(gi + 1).drop_last() =~= sv.take(gi as int));
                assert(sv.take(gi + 1).last() == sv[gi as int]);
                assert(zsh_blocks(cv, sv.take(gi + 1)) == zsh_blocks(cv, sv.take(gi as int))
                    + zsh_group_block(cv, sv[gi as int]));
                assert(lines@.map_values(|s: String| s@) =~= zsh_blocks(cv, sv.take(gi + 1)));
            }
            gi += 1;
        }
        proof {
            reveal_strlit("END");
            assert("END"@ =~= seq!['E', 'N', 'D']);
            assert(sv.take(gn as int) =~= sv);
        }
        lines.push("END".to_owned());
        proof {
            assert(lines@.map_values(|s: String| s@) =~= zsh_blocks(cv, sv).push(
                seq!['E', 'N', 'D'],
            ));
        }
        lines
    }
}

} // verus!
