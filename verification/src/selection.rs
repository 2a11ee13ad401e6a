//! Field selection.  An unquoted token may end in a `[...]` selector, which
//! picks one field (`[n]`) or a contiguous range of fields (`[n..m]`, `[n..]`,
//! `[..m]`) out of the token's whitespace-split expansion result.
//!
//! `determine_selection` parses a selector's inner text exactly as written,
//! keeping one-sided ranges apart (`GreaterThan`, `LessThan`);
//! `_get_selection` folds those into `Slice` form, where a zero upper bound
//! means "to the end".

use vstd::prelude::*;

use crate::error::ShellError;
use crate::strutil::{chars_of, string_from_chars};

verus! {

/// How a token's fields are picked after separation.
#[derive(Clone, Copy, PartialEq, Eq, Debug)]
pub enum Selection {
    /// Keep every field.
    All,
    /// Keep nothing (an empty selector body, as in `[..]`).
    Nothing,
    /// Keep the single field at this position, if it exists.
    Index(usize),
    /// Keep fields `n..m`; an upper bound of zero means "to the end".
    Slice(usize, usize),
    /// Keep fields from this position to the end (`[n..]`).
    GreaterThan(usize),
    /// Keep fields before this position (`[..m]`).
    LessThan(usize),
}

/// The ten decimal digit characters.
pub open spec fn is_digit(c: char) -> bool {
    48 <= c as u32 <= 57
}

/// The numeric value of a digit character; zero for anything else.
pub open spec fn digit_val(c: char) -> nat {
    if is_digit(c) {
        (c as u32 - 48) as nat
    } else {
        0
    }
}

/// Every character of `s` is a decimal digit.
pub open spec fn all_digits(s: Seq<char>) -> bool {
    forall|i: int| 0 <= i < s.len() ==> is_digit(s[i])
}

/// The number written by a digit sequence, most significant digit first.
pub open spec fn digits_val(s: Seq<char>) -> nat
    decreases s.len(),
{
    if s.len() == 0 {
        0
    } else {
        digits_val(s.drop_last()) * 10 + digit_val(s.last())
    }
}

/// `s` is `a ++ ".." ++ b` where the dots start at `k` and `a`, `b` are
/// (possibly empty) digit runs.
pub open spec fn is_slice_form(s: Seq<char>, k: int) -> bool {
    &&& 0 <= k
    &&& k + 2 <= s.len()
    &&& s[k] == '.'
    &&& s[k + 1] == '.'
    &&& all_digits(s.take(k))
    &&& all_digits(s.skip(k + 2))
}

/// The selector grammar: a digit run, or two digit runs around `..`.
pub open spec fn selector_ok(s: Seq<char>) -> bool {
    all_digits(s) || exists|k: int| is_slice_form(s, k)
}

/// Both bounds of the selector fit in this machine's `usize`.
pub open spec fn selector_fits(s: Seq<char>) -> bool {
    if all_digits(s) {
        digits_val(s) <= usize::MAX
    } else {
        forall|k: int|
            is_slice_form(s, k) ==> digits_val(s.take(k)) <= usize::MAX && digits_val(
                s.skip(k + 2),
            ) <= usize::MAX
    }
}

/// The selection written by a selector in slice form with dots at `k`.
pub open spec fn slice_selection(s: Seq<char>, k: int) -> Selection {
    let a = s.take(k);
    let b = s.skip(k + 2);
    if a.len() > 0 && b.len() > 0 {
        Selection::Slice(digits_val(a) as usize, digits_val(b) as usize)
    } else if a.len() > 0 {
        Selection::GreaterThan(digits_val(a) as usize)
    } else if b.len() > 0 {
        Selection::LessThan(digits_val(b) as usize)
    } else {
        Selection::Nothing
    }
}

/// The selection a well-formed selector denotes.
pub open spec fn spec_selection_of(s: Seq<char>) -> Selection {
    if all_digits(s) {
        if s.len() == 0 {
            Selection::Nothing
        } else {
            Selection::Index(digits_val(s) as usize)
        }
    } else {
        let k = choose|k: int| is_slice_form(s, k);
        slice_selection(s, k)
    }
}

/// One-sided ranges written as `Slice`: a zero upper bound means "to the
/// end", so `[n..]` becomes `Slice(n, 0)` and `[..m]` becomes `Slice(0, m)`.
pub open spec fn normalize_selection(sel: Selection) -> Selection {
    match sel {
        Selection::GreaterThan(n) => Selection::Slice(n, 0),
        Selection::LessThan(m) => Selection::Slice(0, m),
        _ => sel,
    }
}

/// A selector has at most one `..`: its position is determined.
pub proof fn lemma_slice_form_unique(s: Seq<char>, k1: int, k2: int)
    requires
        is_slice_form(s, k1),
        is_slice_form(s, k2),
    ensures
        k1 == k2,
{
    if k1 < k2 {
        assert(is_digit(s.take(k2)[k1]));
        assert(s.take(k2)[k1] == '.');
        assert(false);
    }
    if k2 < k1 {
        assert(is_digit(s.take(k1)[k2]));
        assert(s.take(k1)[k2] == '.');
        assert(false);
    }
}

/// A digit run's prefix writes a number no larger than the whole run.
proof fn lemma_digits_val_take_le(s: Seq<char>, j: int)
    requires
        0 <= j <= s.len(),
    ensures
        digits_val(s.take(j)) <= digits_val(s),
    decreases s.len(),
{
    if j == s.len() {
        assert(s.take(j) =~= s);
    } else {
        lemma_digits_val_take_le(s.drop_last(), j);
        assert(s.drop_last().take(j) =~= s.take(j));
    }
}

/// Appending a digit multiplies by ten and adds its value.
proof fn lemma_digits_val_push(s: Seq<char>, c: char)
    ensures
        digits_val(s.push(c)) == digits_val(s) * 10 + digit_val(c),
{
    assert(s.push(c).drop_last() =~= s);
    assert(s.push(c).last() == c);
}

/// The states of the selector parser, named for what was last consumed.
#[derive(Clone, Copy, PartialEq, Eq)]
enum SelectorState {
    EnteringLoop,
    OnFirstNum,
    FoundFirstPeriod,
    FoundSecondPeriod,
}

/// Maps a selector's inner text to the selection it denotes:
/// `a` gives `Index(a)`, `a..b` gives `Slice(a, b)`, `a..` gives
/// `GreaterThan(a)`, `..b` gives `LessThan(b)`, and an empty selector
/// keeps nothing.  Anything else — or a bound that does not fit in
/// `usize` — is an invalid selection.
pub fn determine_selection(selection_text: &str) -> (r: Result<Selection, ShellError>)
    ensures
        match r {
            Ok(sel) => selector_ok(selection_text@) && selector_fits(selection_text@) && sel
                == spec_selection_of(selection_text@),
            Err(e) => e == ShellError::InvalidSelection && !(selector_ok(selection_text@)
                && selector_fits(selection_text@)),
        },
{
    let cs = chars_of(selection_text);
    let ghost s = selection_text@;
    let n = cs.len();

    let mut state = SelectorState::EnteringLoop;
    let mut first_num: Option<usize> = Option::None;
    let mut second_num: Option<usize> = Option::None;
    let ghost mut k0: int = 0;

    let mut i: usize = 0;
    while i < n
        invariant
            cs@ == s,
            n == s.len(),
            0 <= i <= n,
            state == SelectorState::EnteringLoop ==> i == 0 && first_num is None
                && second_num is None,
            state == SelectorState::OnFirstNum ==> {
                &&& 1 <= i
                &&& all_digits(s.take(i as int))
                &&& first_num == Option::Some(digits_val(s.take(i as int)) as usize)
                &&& digits_val(s.take(i as int)) <= usize::MAX
                &&& second_num is None
            },
            state == SelectorState::FoundFirstPeriod ==> {
                &&& 1 <= i
                &&& k0 == i - 1
                &&& s[i - 1] == '.'
                &&& all_digits(s.take(i - 1))
                &&& (if i - 1 == 0 {
                    first_num is None
                } else {
                    first_num == Option::Some(digits_val(s.take(i - 1)) as usize) && digits_val(
                        s.take(i - 1),
                    ) <= usize::MAX
                })
                &&& second_num is None
            },
            state == SelectorState::FoundSecondPeriod ==> {
                &&& 0 <= k0
                &&& k0 + 2 <= i
                &&& s[k0] == '.'
                &&& s[k0 + 1] == '.'
                &&& all_digits(s.take(k0))
                &&& all_digits(s.subrange(k0 + 2, i as int))
                &&& (if k0 == 0 {
                    first_num is None
                } else {
                    first_num == Option::Some(digits_val(s.take(k0)) as usize) && digits_val(
                        s.take(k0),
                    ) <= usize::MAX
                })
                &&& (if i == k0 + 2 {
                    second_num is None
                } else {
                    second_num == Option::Some(
                        digits_val(s.subrange(k0 + 2, i as int)) as usize,
                    ) && digits_val(s.subrange(k0 + 2, i as int)) <= usize::MAX
                })
            },
        decreases n - i,
    {
        let ch = cs[i];
        let digit = 48 <= ch as u32 && ch as u32 <= 57;
        let dval: usize = if digit {
            (ch as u32 - 48) as usize
        } else {
            0
        };
        match state {
            SelectorState::EnteringLoop => {
                if ch == '.' {
                    state = SelectorState::FoundFirstPeriod;
                    proof {
                        k0 = 0;
                    }
                } else if digit {
                    first_num = Option::Some(dval);
                    state = SelectorState::OnFirstNum;
                    proof {
                        assert(s.take(1int).drop_last() =~= Seq::<char>::empty());
                        assert(s.take(1int).last() == s[0]);
                        assert(is_digit(s[0]));
                        assert(digits_val(Seq::<char>::empty()) == 0);
                        assert(digits_val(s.take(1int)) == digit_val(s[0]));
                        assert forall|j: int| 0 <= j < 1 implies is_digit(#[trigger] s.take(1int)[j]) by {
                            assert(s.take(1int)[j] == s[0]);
                        }
                    }
                } else {
                    proof {
                        assert(!all_digits(s)) by { assert(!is_digit(s[0])); }
                        assert forall|k: int| !is_slice_form(s, k) by {
                            if is_slice_form(s, k) {
                                if k > 0 {
                                    assert(s.take(k)[0] == s[0]);
                                    assert(is_digit(s[0]));
                                }
                                assert(false);
                            }
                        }
                    }
                    return Result::Err(ShellError::InvalidSelection);
                }
            },
            SelectorState::OnFirstNum => {
                if digit {
                    let cur = first_num.unwrap();
                    let grown = match cur.checked_mul(10) {
                        Option::Some(t) => t.checked_add(dval),
                        Option::None => Option::None,
                    };
                    proof {
                        lemma_digits_val_push(s.take(i as int), s[i as int]);
                        assert(s.take(i as int).push(s[i as int]) =~= s.take(i + 1));
                        assert(is_digit(s[i as int]));
                        assert forall|j: int| 0 <= j < i + 1 implies is_digit(#[trigger] s.take(i + 1)[j]) by {
                            if j < i {
                                assert(s.take(i + 1)[j] == s.take(i as int)[j]);
                            } else {
                                assert(s.take(i + 1)[j] == s[i as int]);
                            }
                        }
                    }
                    match grown {
                        Option::Some(v) => {
                            first_num = Option::Some(v);
                        },
                        Option::None => {
                            // The number overflows this machine: the selector
                            // cannot be applied.
                            proof {
                                assert(digits_val(s.take(i + 1)) > usize::MAX);
                                if all_digits(s) {
                                    lemma_digits_val_take_le(s, i + 1);
                                } else {
                                    assert forall|k: int| is_slice_form(s, k) implies !(digits_val(
                                        s.take(k),
                                    ) <= usize::MAX && digits_val(s.skip(k + 2)) <= usize::MAX) by {
                                        if k <= i {
                                            assert(s.take(i + 1)[k] == s[k]);
                                            assert(is_digit(s[k]));
                                            assert(false);
                                        } else {
                                            assert(s.take(k).take(i + 1) =~= s.take(i + 1));
                                            lemma_digits_val_take_le(s.take(k), i + 1);
                                        }
                                    }
                                }
                            }
                            return Result::Err(ShellError::InvalidSelection);
                        },
                    }
                } else if ch == '.' {
                    state = SelectorState::FoundFirstPeriod;
                    proof {
                        k0 = i as int;
                    }
                } else {
                    proof {
                        assert(!all_digits(s)) by { assert(!is_digit(s[i as int])); }
                        assert forall|k: int| !is_slice_form(s, k) by {
                            if is_slice_form(s, k) {
                                if k < i {
                                    assert(s.take(i as int)[k] == s[k]);
                                    assert(is_digit(s[k]));
                                } else if k == i {
                                    assert(s[k] == '.');
                                } else {
                                    assert(s.take(k)[i as int] == s[i as int]);
                                    assert(is_digit(s[i as int]));
                                }
                                assert(false);
                            }
                        }
                    }
                    return Result::Err(ShellError::InvalidSelection);
                }
            },
            SelectorState::FoundFirstPeriod => {
                if ch == '.' {
                    state = SelectorState::FoundSecondPeriod;
                    proof {
                        assert(s.subrange(k0 + 2, i + 1) =~= Seq::<char>::empty());
                    }
                } else {
                    proof {
                        assert(!all_digits(s)) by { assert(!is_digit(s[k0])); }
                        assert forall|k: int| !is_slice_form(s, k) by {
                            if is_slice_form(s, k) {
                                if k < k0 {
                                    assert(s.take(k0)[k] == s[k]);
                                    assert(s[k] == '.');
                                    assert(is_digit(s.take(k0)[k]));
                                } else if k == k0 {
                                    assert(s[k0 + 1] == '.');
                                } else {
                                    assert(s.take(k)[k0] == s[k0]);
                                    assert(is_digit(s.take(k)[k0]));
                                }
                                assert(false);
                            }
                        }
                    }
                    return Result::Err(ShellError::InvalidSelection);
                }
            },
            SelectorState::FoundSecondPeriod => {
                if digit {
                    let cur = match second_num {
                        Option::Some(v) => v,
                        Option::None => 0,
                    };
                    let grown = match cur.checked_mul(10) {
                        Option::Some(t) => t.checked_add(dval),
                        Option::None => Option::None,
                    };
                    proof {
                        lemma_digits_val_push(s.subrange(k0 + 2, i as int), s[i as int]);
                        assert(s.subrange(k0 + 2, i as int).push(s[i as int]) =~= s.subrange(
                            k0 + 2,
                            i + 1,
                        ));
                        assert(is_digit(s[i as int]));
                        assert forall|j: int| 0 <= j < i + 1 - (k0 + 2) implies is_digit(
                            #[trigger] s.subrange(k0 + 2, i + 1)[j],
                        ) by {
                            if j < i - (k0 + 2) {
                                assert(s.subrange(k0 + 2, i + 1)[j] == s.subrange(
                                    k0 + 2,
                                    i as int,
                                )[j]);
                            } else {
                                assert(s.subrange(k0 + 2, i + 1)[j] == s[i as int]);
                            }
                        }
                    }
                    match grown {
                        Option::Some(v) => {
                            second_num = Option::Some(v);
                        },
                        Option::None => {
                            proof {
                                assert(digits_val(s.subrange(k0 + 2, i + 1)) > usize::MAX);
                                assert(!all_digits(s)) by { assert(!is_digit(s[k0])); }
                                assert forall|k: int| is_slice_form(s, k) implies !(digits_val(
                                    s.take(k),
                                ) <= usize::MAX && digits_val(s.skip(k + 2)) <= usize::MAX) by {
                                    lemma_slice_form_witness(s, k, k0);
                                    assert(s.skip(k0 + 2).take(i + 1 - (k0 + 2)) =~= s.subrange(
                                        k0 + 2,
                                        i + 1,
                                    ));
                                    lemma_digits_val_take_le(s.skip(k0 + 2), i + 1 - (k0 + 2));
                                }
                            }
                            return Result::Err(ShellError::InvalidSelection);
                        },
                    }
                } else {
                    proof {
                        assert(!all_digits(s)) by { assert(!is_digit(s[k0])); }
                        assert forall|k: int| !is_slice_form(s, k) by {
                            if is_slice_form(s, k) {
                                if k < k0 {
                                    assert(s.take(k0)[k] == s[k]);
                                    assert(s[k] == '.');
                                    assert(is_digit(s.take(k0)[k]));
                                } else if k == k0 {
                                    assert(s.skip(k0 + 2)[i - (k0 + 2)] == s[i as int]);
                                    assert(is_digit(s.skip(k0 + 2)[i - (k0 + 2)]));
                                } else {
                                    assert(s.take(k)[k0] == s[k0]);
                                    assert(is_digit(s.take(k)[k0]));
                                }
                                assert(false);
                            }
                        }
                    }
                    return Result::Err(ShellError::InvalidSelection);
                }
            },
        }
        i = i + 1;
    }

    match state {
        SelectorState::EnteringLoop => {
            proof {
                assert(s =~= Seq::<char>::empty());
            }
            Result::Ok(Selection::Nothing)
        },
        SelectorState::OnFirstNum => {
            proof {
                assert(s.take(n as int) =~= s);
            }
            Result::Ok(Selection::Index(first_num.unwrap()))
        },
        SelectorState::FoundFirstPeriod => {
            proof {
                assert(!all_digits(s)) by { assert(!is_digit(s[k0])); }
                assert forall|k: int| !is_slice_form(s, k) by {
                    if is_slice_form(s, k) {
                        if k < k0 {
                            assert(s.take(k0)[k] == s[k]);
                            assert(s[k] == '.');
                            assert(is_digit(s.take(k0)[k]));
                        } else if k == k0 {
                            assert(k0 + 2 <= s.len());
                        } else {
                            assert(s.take(k)[k0] == s[k0]);
                            assert(is_digit(s.take(k)[k0]));
                        }
                        assert(false);
                    }
                }
            }
            Result::Err(ShellError::InvalidSelection)
        },
        SelectorState::FoundSecondPeriod => {
            proof {
                assert(s.subrange(k0 + 2, n as int) =~= s.skip(k0 + 2));
                assert(is_slice_form(s, k0));
                assert(!all_digits(s)) by { assert(!is_digit(s[k0])); }
                let kc = choose|k: int| is_slice_form(s, k);
                lemma_slice_form_unique(s, kc, k0);
                assert forall|k: int| is_slice_form(s, k) implies digits_val(s.take(k))
                    <= usize::MAX && digits_val(s.skip(k + 2)) <= usize::MAX by {
                    lemma_slice_form_unique(s, k, k0);
                }
            }
            let r = match (first_num, second_num) {
                (Option::Some(a), Option::Some(b)) => Selection::Slice(a, b),
                (Option::Some(a), Option::None) => Selection::GreaterThan(a),
                (Option::None, Option::Some(b)) => Selection::LessThan(b),
                (Option::None, Option::None) => Selection::Nothing,
            };
            Result::Ok(r)
        },
    }
}

/// Helper naming the uniqueness argument for use under a quantifier.
proof fn lemma_slice_form_witness(s: Seq<char>, k: int, k0: int)
    requires
        is_slice_form(s, k),
        0 <= k0,
        k0 + 2 <= s.len(),
        s[k0] == '.',
        all_digits(s.take(k0)),
    ensures
        k == k0,
{
    if k < k0 {
        assert(is_digit(s.take(k0)[k]));
        assert(false);
    }
    if k0 < k {
        assert(is_digit(s.take(k)[k0]));
        assert(false);
    }
}

/// Parses a selector's inner text into its `Slice`-normal form, where a
/// zero upper bound means "to the end".
#[allow(non_snake_case)]
pub fn _get_selection(selector: String) -> (r: Result<Selection, ShellError>)
    ensures
        match r {
            Ok(sel) => selector_ok(selector@) && selector_fits(selector@) && sel
                == normalize_selection(spec_selection_of(selector@)),
            Err(e) => e == ShellError::InvalidSelection && !(selector_ok(selector@)
                && selector_fits(selector@)),
        },
{
    match determine_selection(selector.as_str()) {
        Result::Ok(sel) => {
            let normalized = match sel {
                Selection::GreaterThan(n) => Selection::Slice(n, 0),
                Selection::LessThan(m) => Selection::Slice(0, m),
                other => other,
            };
            Result::Ok(normalized)
        },
        Result::Err(e) => Result::Err(e),
    }
}

/// `b` is the last `[` of `s`.
pub open spec fn is_last_lbracket(s: Seq<char>, b: int) -> bool {
    &&& 0 <= b < s.len()
    &&& s[b] == '['
    &&& forall|j: int| b < j < s.len() ==> s[j] != '['
}

/// Splits `s` into text and selector, if `s` ends with `]`, holds a `[`,
/// and the selector between them is not empty.
pub open spec fn spec_selector_split(s: Seq<char>) -> Option<(Seq<char>, Seq<char>)> {
    if s.len() > 0 && s.last() == ']' && (exists|b: int| is_last_lbracket(s, b)) {
        let b = choose|b: int| is_last_lbracket(s, b);
        if b + 1 < s.len() - 1 {
            Option::Some((s.take(b), s.subrange(b + 1, s.len() - 1)))
        } else {
            Option::None
        }
    } else {
        Option::None
    }
}

/// There is only one last `[`.
pub proof fn lemma_last_lbracket_unique(s: Seq<char>, b1: int, b2: int)
    requires
        is_last_lbracket(s, b1),
        is_last_lbracket(s, b2),
    ensures
        b1 == b2,
{
}

/// Detaches a trailing `[...]` selector: returns the text before the last
/// `[` and the selector's inner text.  Yields nothing when `s` does not end
/// with `]`, has no `[`, or the selector is empty.
pub fn get_selector(text: &str) -> (r: Option<(String, String)>)
    ensures
        match r {
            Some(pair) => spec_selector_split(text@) == Option::Some((pair.0@, pair.1@)),
            None => spec_selector_split(text@) is None,
        },
{
    let cs = chars_of(text);
    let ghost s = text@;
    let n = cs.len();
    if n == 0 || cs[n - 1] != ']' {
        return Option::None;
    }
    // Search backward for the last `[`.
    let mut j: usize = n - 1;
    while j > 0
        invariant
            cs@ == s,
            n == s.len(),
            0 <= j <= n - 1,
            forall|idx: int| j <= idx < s.len() ==> s[idx] != '[',
        decreases j,
    {
        j = j - 1;
        if cs[j] == '[' {
            proof {
                assert(is_last_lbracket(s, j as int));
                let bc = choose|b: int| is_last_lbracket(s, b);
                lemma_last_lbracket_unique(s, bc, j as int);
            }
            if j + 2 < n {
                let mut prefix = Vec::<char>::new();
                let mut selector = Vec::<char>::new();
                let mut idx: usize = 0;
                while idx < j
                    invariant
                        cs@ == s,
                        n == s.len(),
                        j < n,
                        idx <= j,
                        prefix@ == s.take(idx as int),
                    decreases j - idx,
                {
                    prefix.push(cs[idx]);
                    proof {
                        assert(s.take(idx as int).push(s[idx as int]) =~= s.take(idx + 1));
                    }
                    idx = idx + 1;
                }
                let mut idx2: usize = j + 1;
                while idx2 < n - 1
                    invariant
                        cs@ == s,
                        n == s.len(),
                        j + 1 <= idx2 <= n - 1,
                        selector@ == s.subrange(j + 1, idx2 as int),
                    decreases n - idx2,
                {
                    selector.push(cs[idx2]);
                    proof {
                        assert(s.subrange(j + 1, idx2 as int).push(s[idx2 as int]) =~= s.subrange(
                            j + 1,
                            idx2 + 1,
                        ));
                    }
                    idx2 = idx2 + 1;
                }
                return Option::Some((string_from_chars(&prefix), string_from_chars(&selector)));
            } else {
                return Option::None;
            }
        }
    }
    proof {
        assert forall|b: int| !is_last_lbracket(s, b) by {
            if is_last_lbracket(s, b) {
                assert(s[b] != '[');
                assert(false);
            }
        }
    }
    Option::None
}

/// The combined result of selector detection on a token's raw text: the
/// text with its selector removed, and the selection in `Slice`-normal
/// form (`All` when no selector is present).
pub open spec fn spec_selection_split_ok(s: Seq<char>) -> bool {
    match spec_selector_split(s) {
        Option::Some(pair) => selector_ok(pair.1) && selector_fits(pair.1),
        Option::None => true,
    }
}

/// What `get_selection` returns on success.
pub open spec fn spec_selection_split(s: Seq<char>) -> (Seq<char>, Selection) {
    match spec_selector_split(s) {
        Option::Some(pair) => (pair.0, normalize_selection(spec_selection_of(pair.1))),
        Option::None => (s, Selection::All),
    }
}

/// Removes a trailing selector from `text` and parses it.  Text without a
/// selector keeps `Selection::All`; a malformed selector is an error.
pub fn get_selection(text: &str) -> (r: Result<(String, Selection), ShellError>)
    ensures
        match r {
            Ok(pair) => spec_selection_split_ok(text@) && pair.0@ == spec_selection_split(
                text@,
            ).0 && pair.1 == spec_selection_split(text@).1,
            Err(e) => e == ShellError::InvalidSelection && !spec_selection_split_ok(text@),
        },
{
    match get_selector(text) {
        Option::Some((stripped, selector)) => {
            match _get_selection(selector) {
                Result::Ok(sel) => Result::Ok((stripped, sel)),
                Result::Err(e) => Result::Err(e),
            }
        },
        Option::None => {
            let mut copy = String::new();
            copy.append(text);
            Result::Ok((copy, Selection::All))
        },
    }
}

} // verus!
