//! Stable identities for declared flags, positional arguments and commands.
//!
//! Each identity pairs a numeric tag, unique within a declaration, with a
//! human-readable name.  Identities come in three shapes reflecting
//! multiplicity: no-value (boolean flags and commands), single-value and
//! multi-value.  History units are keyed by these identities.

use vstd::prelude::*;

verus! {

/// Mathematical content of an identity: its numeric tag and name.
pub struct IdView {
    pub num: u32,
    pub name: Seq<char>,
}

/// Identity of a unit that carries no value (a boolean flag or a command).
#[derive(Debug)]
pub struct NoVal {
    num: u32,
    name: String,
}

impl Clone for NoVal {
    fn clone(&self) -> (r: Self)
        ensures
            r == *self,
    {
        NoVal { num: self.num, name: self.name.clone() }
    }
}

/// Identity of a unit that carries at most one value.
#[derive(Debug)]
pub struct SingleVal {
    num: u32,
    name: String,
}

impl Clone for SingleVal {
    fn clone(&self) -> (r: Self)
        ensures
            r == *self,
    {
        SingleVal { num: self.num, name: self.name.clone() }
    }
}

/// Identity of a unit whose values accumulate.
#[derive(Debug)]
pub struct MultiVal {
    num: u32,
    name: String,
}

impl Clone for MultiVal {
    fn clone(&self) -> (r: Self)
        ensures
            r == *self,
    {
        MultiVal { num: self.num, name: self.name.clone() }
    }
}

impl View for NoVal {
    type V = IdView;

    closed spec fn view(&self) -> IdView {
        IdView { num: self.num, name: self.name@ }
    }
}

impl View for SingleVal {
    type V = IdView;

    closed spec fn view(&self) -> IdView {
        IdView { num: self.num, name: self.name@ }
    }
}

impl View for MultiVal {
    type V = IdView;

    closed spec fn view(&self) -> IdView {
        IdView { num: self.num, name: self.name@ }
    }
}

impl NoVal {
    pub fn new(num: u32, ident: &str) -> (r: Self)
        ensures
            r@ == (IdView { num, name: ident@ }),
    {
        NoVal { num, name: ident.to_owned() }
    }

    /// The human-readable name this identity was declared with.
    pub fn name(&self) -> (r: String)
        ensures
            r@ == self@.name,
    {
        self.name.clone()
    }
}

impl SingleVal {
    pub fn new(num: u32, ident: &str) -> (r: Self)
        ensures
            r@ == (IdView { num, name: ident@ }),
    {
        SingleVal { num, name: ident.to_owned() }
    }

    /// The human-readable name this identity was declared with.
    pub fn name(&self) -> (r: String)
        ensures
            r@ == self@.name,
    {
        self.name.clone()
    }
}

impl MultiVal {
    pub fn new(num: u32, ident: &str) -> (r: Self)
        ensures
            r@ == (IdView { num, name: ident@ }),
    {
        MultiVal { num, name: ident.to_owned() }
    }

    /// The human-readable name this identity was declared with.
    pub fn name(&self) -> (r: String)
        ensures
            r@ == self@.name,
    {
        self.name.clone()
    }
}

impl PartialEq for NoVal {
    fn eq(&self, other: &Self) -> bool {
        self.num == other.num && self.name == other.name
    }
}

impl vstd::std_specs::cmp::PartialEqSpecImpl for NoVal {
    open spec fn obeys_eq_spec() -> bool {
        true
    }

    open spec fn eq_spec(&self, other: &Self) -> bool {
        self@ == other@
    }
}

impl PartialEq for SingleVal {
    fn eq(&self, other: &Self) -> bool {
        self.num == other.num && self.name == other.name
    }
}

impl vstd::std_specs::cmp::PartialEqSpecImpl for SingleVal {
    open spec fn obeys_eq_spec() -> bool {
        true
    }

    open spec fn eq_spec(&self, other: &Self) -> bool {
        self@ == other@
    }
}

impl PartialEq for MultiVal {
    fn eq(&self, other: &Self) -> bool {
        self.num == other.num && self.name == other.name
    }
}

impl vstd::std_specs::cmp::PartialEqSpecImpl for MultiVal {
    open spec fn obeys_eq_spec() -> bool {
        true
    }

    open spec fn eq_spec(&self, other: &Self) -> bool {
        self@ == other@
    }
}

/// Spec-level shape-tagged identity of a positional argument.
pub enum ArgIdView {
    Single(IdView),
    Multi(IdView),
}

/// Identity of a positional argument: single- or multi-value.
#[derive(Debug)]
pub enum Arg {
    Single(SingleVal),
    Multi(MultiVal),
}

impl View for Arg {
    type V = ArgIdView;

    open spec fn view(&self) -> ArgIdView {
        match self {
            Arg::Single(id) => ArgIdView::Single(id@),
            Arg::Multi(id) => ArgIdView::Multi(id@),
        }
    }
}

impl Clone for Arg {
    fn clone(&self) -> (r: Self)
        ensures
            r == *self,
    {
        match self {
            Arg::Single(id) => Arg::Single(id.clone()),
            Arg::Multi(id) => Arg::Multi(id.clone()),
        }
    }
}

impl PartialEq for Arg {
    fn eq(&self, other: &Self) -> bool {
        match (self, other) {
            (Arg::Single(a), Arg::Single(b)) => *a == *b,
            (Arg::Multi(a), Arg::Multi(b)) => *a == *b,
            _ => false,
        }
    }
}

impl vstd::std_specs::cmp::PartialEqSpecImpl for Arg {
    open spec fn obeys_eq_spec() -> bool {
        true
    }

    open spec fn eq_spec(&self, other: &Self) -> bool {
        self@ == other@
    }
}

/// Spec-level shape-tagged identity of a flag.
pub enum FlagIdView {
    No(IdView),
    Single(IdView),
    Multi(IdView),
}

/// Identity of a flag: no-value (boolean), single- or multi-value.
#[derive(Debug)]
pub enum Flag {
    No(NoVal),
    Single(SingleVal),
    Multi(MultiVal),
}

impl View for Flag {
    type V = FlagIdView;

    open spec fn view(&self) -> FlagIdView {
        match self {
            Flag::No(id) => FlagIdView::No(id@),
            Flag::Single(id) => FlagIdView::Single(id@),
            Flag::Multi(id) => FlagIdView::Multi(id@),
        }
    }
}

impl Clone for Flag {
    fn clone(&self) -> (r: Self)
        ensures
            r == *self,
    {
        match self {
            Flag::No(id) => Flag::No(id.clone()),
            Flag::Single(id) => Flag::Single(id.clone()),
            Flag::Multi(id) => Flag::Multi(id.clone()),
        }
    }
}

impl PartialEq for Flag {
    fn eq(&self, other: &Self) -> bool {
        match (self, other) {
            (Flag::No(a), Flag::No(b)) => *a == *b,
            (Flag::Single(a), Flag::Single(b)) => *a == *b,
            (Flag::Multi(a), Flag::Multi(b)) => *a == *b,
            _ => false,
        }
    }
}

impl vstd::std_specs::cmp::PartialEqSpecImpl for Flag {
    open spec fn obeys_eq_spec() -> bool {
        true
    }

    open spec fn eq_spec(&self, other: &Self) -> bool {
        self@ == other@
    }
}

impl Flag {
    /// The name of the identity, whatever its shape.
    pub fn name(&self) -> (r: String)
        ensures
            r@ == self@.name(),
    {
        match self {
            Flag::No(id) => id.name(),
            Flag::Single(id) => id.name(),
            Flag::Multi(id) => id.name(),
        }
    }
}

impl FlagIdView {
    /// The name component, whatever the shape.
    pub open spec fn name(self) -> Seq<char> {
        match self {
            FlagIdView::No(id) => id.name,
            FlagIdView::Single(id) => id.name,
            FlagIdView::Multi(id) => id.name,
        }
    }
}

} // verus!
