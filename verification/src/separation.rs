//! Separator annotations.  A word may end in `S="..."`, naming an
//! arbitrary separator for its expansion result in place of the default
//! whitespace splitting.  `get_separator` detaches such an annotation;
//! a word without one keeps whitespace separation.

use vstd::prelude::*;

use crate::strutil::{chars_of, copy_range};

verus! {

/// How a word's expansion result is split into fields.
#[derive(Clone, PartialEq, Eq, Debug)]
pub enum Separator {
    /// Not split at all (quoted text).
    Unseparated,
    /// Split on whitespace runs: the default.
    Whitespace,
    /// Split on line breaks.
    Line,
    /// Split on the text named by an `S="..."` annotation.
    Arbitrary(String),
}

/// `s` ends in the annotation `S="sep"` whose `S` stands at `k`: the
/// separator between the quotes is not empty, holds no quote character,
/// and something precedes the annotation.
pub open spec fn is_sep_annotation(s: Seq<char>, k: int) -> bool {
    &&& 1 <= k
    &&& k + 3 < s.len() - 1
    &&& s[k] == 'S'
    &&& s[k + 1] == '='
    &&& s[k + 2] == '"'
    &&& s.last() == '"'
    &&& (forall|j: int| k + 3 <= j < s.len() - 1 ==> s[j] != '"')
}

/// An annotation's position is determined: its opening quote is the
/// last quote before the final one.
pub proof fn lemma_sep_annotation_unique(s: Seq<char>, k1: int, k2: int)
    requires
        is_sep_annotation(s, k1),
        is_sep_annotation(s, k2),
    ensures
        k1 == k2,
{
    if k1 < k2 {
        assert(s[k2 + 2] == '"');
        assert(k1 + 3 <= k2 + 2 < s.len() - 1);
        assert(false);
    }
    if k2 < k1 {
        assert(s[k1 + 2] == '"');
        assert(k2 + 3 <= k1 + 2 < s.len() - 1);
        assert(false);
    }
}

/// Detaches a trailing `S="..."` separator annotation: yields the text
/// before it and the named separator.  A word without a well-formed
/// annotation comes back whole, with whitespace separation.
pub fn get_separator(text: &str) -> (r: (String, Separator))
    ensures
        forall|k: int|
            is_sep_annotation(text@, k) ==> r.0@ == text@.take(k) && (match r.1 {
                Separator::Arbitrary(sep) => sep@ == text@.subrange(k + 3, text@.len() - 1),
                _ => false,
            }),
        (forall|k: int| !is_sep_annotation(text@, k)) ==> r.0@ == text@ && r.1
            == Separator::Whitespace,
{
    let cs = chars_of(text);
    let ghost s = text@;
    let n = cs.len();
    if n == 0 || cs[n - 1] != '"' {
        proof {
            assert forall|k: int| !is_sep_annotation(s, k) by {}
        }
        let mut copy = String::new();
        copy.append(text);
        return (copy, Separator::Whitespace);
    }
    // Find the last quote before the final one.
    let mut j: usize = n - 1;
    while j > 0
        invariant
            cs@ == s,
            n == s.len(),
            1 <= n,
            0 <= j <= n - 1,
            forall|idx: int| j <= idx < n - 1 ==> s[idx] != '"',
        decreases j,
    {
        j = j - 1;
        if cs[j] == '"' {
            // `j` is the annotation's opening quote, if there is one.
            let well_formed = j + 1 < n - 1 && j >= 3 && cs[j - 1] == '=' && cs[j - 2] == 'S';
            if well_formed {
                let ghost k = j - 2;
                proof {
                    assert(is_sep_annotation(s, j - 2));
                    assert forall|k2: int| is_sep_annotation(s, k2) implies k2 == j - 2 by {
                        lemma_sep_annotation_unique(s, k2, j - 2);
                    }
                }
                let prefix = copy_range(&cs, 0, j - 2);
                let sep = copy_range(&cs, j + 1, n - 1);
                return (prefix, Separator::Arbitrary(sep));
            } else {
                proof {
                    assert forall|k2: int| !is_sep_annotation(s, k2) by {
                        if is_sep_annotation(s, k2) {
                            if k2 + 2 < j {
                                assert(s[j as int] != '"');
                            } else if k2 + 2 > j {
                                assert(s[k2 + 2] != '"');
                            } else {
                                assert(k2 == j - 2);
                            }
                            assert(false);
                        }
                    }
                }
                let mut copy = String::new();
                copy.append(text);
                return (copy, Separator::Whitespace);
            }
        }
    }
    proof {
        assert forall|k2: int| !is_sep_annotation(s, k2) by {
            if is_sep_annotation(s, k2) {
                assert(s[k2 + 2] == '"');
                assert(k2 + 2 < s.len() - 1);
                assert(false);
            }
        }
    }
    let mut copy = String::new();
    copy.append(text);
    (copy, Separator::Whitespace)
}

} // verus!
