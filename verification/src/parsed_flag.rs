//! Classification of a single command-line token.
//!
//! A token is empty, a bare `-`, a bare `--`, a long flag with an optional
//! `=value`, a single short flag with an optional `=value`, a cluster of
//! short characters, or not a flag at all.  Dash placement is validated:
//! two consecutive dashes inside a long body are rejected, and a dash
//! inside a short cluster is rejected, because a `-` cannot be a flag
//! character.

use vstd::prelude::*;
use vstd::string::StrSliceExecFns;

verus! {

/// A malformed token.
#[derive(Clone, Copy, Debug, PartialEq, Eq, Structural)]
pub enum Error {
    DashNotAllowed,
    ConsecutiveDashes,
}

/// Classification of one token, with owned copies of its parts.
#[derive(Debug)]
pub enum ParsedFlag {
    Empty,
    SingleDash,
    DoubleDash,
    Short { body: char, equal: Option<String> },
    MultiShort(String),
    Long { body: String, equal: Option<String> },
    NotFlag,
}

/// Mathematical content of a token classification.
pub enum ClassView {
    Empty,
    SingleDash,
    DoubleDash,
    Short { body: char, equal: Option<Seq<char>> },
    MultiShort(Seq<char>),
    Long { body: Seq<char>, equal: Option<Seq<char>> },
    NotFlag,
}

impl View for ParsedFlag {
    type V = ClassView;

    open spec fn view(&self) -> ClassView {
        match self {
            ParsedFlag::Empty => ClassView::Empty,
            ParsedFlag::SingleDash => ClassView::SingleDash,
            ParsedFlag::DoubleDash => ClassView::DoubleDash,
            ParsedFlag::Short { body, equal } => ClassView::Short {
                body: *body,
                equal: match equal {
                    Some(v) => Some(v@),
                    None => None,
                },
            },
            ParsedFlag::MultiShort(body) => ClassView::MultiShort(body@),
            ParsedFlag::Long { body, equal } => ClassView::Long {
                body: body@,
                equal: match equal {
                    Some(v) => Some(v@),
                    None => None,
                },
            },
            ParsedFlag::NotFlag => ClassView::NotFlag,
        }
    }
}

/// No two consecutive dashes after the leading dash.
pub open spec fn long_body_ok(s: Seq<char>) -> bool {
    forall|i: int| 1 <= i && i + 1 < s.len() ==> !(#[trigger] s[i] == '-' && s[i + 1] == '-')
}

/// No dash at all after the leading dash.
pub open spec fn shorts_ok(s: Seq<char>) -> bool {
    forall|i: int| 1 <= i < s.len() ==> s[i] != '-'
}

/// Index of the first `=` at or after position `i`, or -1 if none.
pub open spec fn first_eq_from(s: Seq<char>, i: int) -> int
    decreases s.len() - i,
{
    if i < 0 || i >= s.len() {
        -1
    } else if s[i] == '=' {
        i
    } else {
        first_eq_from(s, i + 1)
    }
}

/// What `first_eq_from` means: the least index at or after `i` holding
/// `=`, and -1 exactly when there is none.
pub proof fn lemma_first_eq_from(s: Seq<char>, i: int)
    requires
        0 <= i,
    ensures
        first_eq_from(s, i) == -1 <==> (forall|k: int| i <= k < s.len() ==> s[k] != '='),
        first_eq_from(s, i) != -1 ==> {
            let j = first_eq_from(s, i);
            &&& i <= j < s.len()
            &&& s[j] == '='
            &&& forall|k: int| i <= k < j ==> s[k] != '='
        },
    decreases s.len() - i,
{
    if i < s.len() && s[i] != '=' {
        lemma_first_eq_from(s, i + 1);
    }
}

/// The classification of a token, exactly as `ParsedFlag::new` decides it.
pub open spec fn flag_class(s: Seq<char>) -> Result<ClassView, Error> {
    if s.len() == 0 {
        Ok(ClassView::Empty)
    } else if s[0] != '-' {
        Ok(ClassView::NotFlag)
    } else if s.len() == 1 {
        Ok(ClassView::SingleDash)
    } else if s[1] == '-' {
        if s.len() == 2 {
            Ok(ClassView::DoubleDash)
        } else if !long_body_ok(s) {
            Err(Error::ConsecutiveDashes)
        } else {
            let p = first_eq_from(s, 2);
            if p == -1 {
                Ok(ClassView::Long { body: s.skip(2), equal: None })
            } else {
                Ok(
                    ClassView::Long {
                        body: s.subrange(2, p),
                        equal: Some(s.subrange(p + 1, s.len() as int)),
                    },
                )
            }
        }
    } else if !shorts_ok(s) {
        Err(Error::DashNotAllowed)
    } else if s.len() == 2 {
        Ok(ClassView::Short { body: s[1], equal: None })
    } else if s[2] == '=' {
        Ok(ClassView::Short { body: s[1], equal: Some(s.subrange(3, s.len() as int)) })
    } else {
        Ok(ClassView::MultiShort(s.skip(1)))
    }
}

impl ParsedFlag {
    /// Classify a token.  The result's parts are copies of the token's.
    pub fn new(s: &str) -> (r: Result<ParsedFlag, Error>)
        ensures
            (match r {
                Ok(c) => Ok::<ClassView, Error>(c@),
                Err(e) => Err::<ClassView, Error>(e),
            }) == flag_class(s@),
    {
        let n = s.unicode_len();
        if n == 0 {
            return Ok(ParsedFlag::Empty);
        }
        if s.get_char(0) != '-' {
            return Ok(ParsedFlag::NotFlag);
        }
        if n == 1 {
            return Ok(ParsedFlag::SingleDash);
        }
        if s.get_char(1) == '-' {
            if n == 2 {
                return Ok(ParsedFlag::DoubleDash);
            }
            // Reject two consecutive dashes after the leading one.
            let mut i: usize = 1;
            while i < n - 1
                invariant
                    n == s@.len(),
                    3 <= n,
                    s@[0] == '-',
                    s@[1] == '-',
                    1 <= i <= n,
                    forall|k: int|
                        1 <= k && k + 1 < i + 1 ==> !(#[trigger] s@[k] == '-' && s@[k + 1]
                            == '-'),
                decreases n - i,
            {
                if s.get_char(i) == '-' && s.get_char(i + 1) == '-' {
                    proof {
                        assert(s@[i as int] == '-' && s@[i as int + 1] == '-');
                        assert(!long_body_ok(s@));
                    }
                    return Err(Error::ConsecutiveDashes);
                }
                i += 1;
            }
            assert(long_body_ok(s@));
            // Split on the first `=` after the two dashes.
            proof {
                lemma_first_eq_from(s@, 2);
            }
            let mut p: usize = 2;
            while p < n && s.get_char(p) != '='
                invariant
                    n == s@.len(),
                    3 <= n,
                    s@[0] == '-',
                    s@[1] == '-',
                    long_body_ok(s@),
                    2 <= p <= n,
                    forall|k: int| 2 <= k < p ==> s@[k] != '=',
                decreases n - p,
            {
                p += 1;
            }
            if p == n {
                let body = s.substring_char(2, n).to_owned();
                return Ok(ParsedFlag::Long { body, equal: None });
            } else {
                proof {
                    lemma_first_eq_from(s@, 2);
                    assert(first_eq_from(s@, 2) == p as int) by {
                        if first_eq_from(s@, 2) == -1 {
                            assert(s@[p as int] == '=');
                        } else {
                            let j = first_eq_from(s@, 2);
                            if j < p {
                                assert(s@[j] != '=');
                            }
                            if j > p {
                                assert(s@[p as int] != '=');
                            }
                        }
                    }
                }
                let body = s.substring_char(2, p).to_owned();
                let equal = s.substring_char(p + 1, n).to_owned();
                return Ok(ParsedFlag::Long { body, equal: Some(equal) });
            }
        }
        // A single-dash form: a dash may not recur inside the cluster.
        let mut i: usize = 1;
        while i < n
            invariant
                n == s@.len(),
                2 <= n,
                s@[0] == '-',
                s@[1] != '-',
                1 <= i,
                forall|k: int| 1 <= k < i ==> s@[k] != '-',
            decreases n - i,
        {
            if s.get_char(i) == '-' {
                proof {
                    assert(s@[i as int] == '-');
                    assert(!shorts_ok(s@));
                }
                return Err(Error::DashNotAllowed);
            }
            i += 1;
        }
        assert(shorts_ok(s@));
        if n == 2 {
            Ok(ParsedFlag::Short { body: s.get_char(1), equal: None })
        } else if s.get_char(2) == '=' {
            let equal = s.substring_char(3, n).to_owned();
            Ok(ParsedFlag::Short { body: s.get_char(1), equal: Some(equal) })
        } else {
            let body = s.substring_char(1, n).to_owned();
            proof {
                assert(body@ =~= s@.skip(1));
            }
            Ok(ParsedFlag::MultiShort(body))
        }
    }
}

} // verus!
