//! Recognition of decimal floating-point literals.
//!
//! [`is_number_text`] states the grammar that `f64::from_str` documents: an
//! optional sign, then `inf`, `infinity` or `nan` (case-insensitive) or a
//! decimal significand with an optional fraction and exponent. The engine
//! treats a token as a number exactly when it matches this grammar; the
//! value itself is computed by the effect handler.
use vstd::prelude::*;

verus! {

/// An ASCII decimal digit.
pub open spec fn is_digit(c: char) -> bool {
    '0' <= c && c <= '9'
}

/// Executable check for [`is_digit`].
pub fn digit_char(c: char) -> (r: bool)
    ensures
        r == is_digit(c),
{
    '0' <= c && c <= '9'
}

/// Every character of the sequence is a digit.
pub open spec fn all_digits(s: Seq<char>) -> bool {
    forall|i: int| 0 <= i < s.len() ==> is_digit(#[trigger] s[i])
}

/// One or more digits.
pub open spec fn is_count(s: Seq<char>) -> bool {
    s.len() > 0 && all_digits(s)
}

/// The sequence with one leading `+` or `-` removed, if present.
pub open spec fn strip_sign(s: Seq<char>) -> Seq<char> {
    if s.len() > 0 && (s[0] == '+' || s[0] == '-') {
        s.drop_first()
    } else {
        s
    }
}

/// Lower-cases the ASCII letters that can occur in `inf`, `infinity` and
/// `nan`; other characters stay as they are, which keeps word comparison
/// case-insensitive.
pub open spec fn word_lower(c: char) -> char {
    if c == 'I' {
        'i'
    } else if c == 'N' {
        'n'
    } else if c == 'F' {
        'f'
    } else if c == 'T' {
        't'
    } else if c == 'Y' {
        'y'
    } else if c == 'A' {
        'a'
    } else {
        c
    }
}

/// Executable check for [`word_lower`].
pub fn word_lower_char(c: char) -> (r: char)
    ensures
        r == word_lower(c),
{
    if c == 'I' {
        'i'
    } else if c == 'N' {
        'n'
    } else if c == 'F' {
        'f'
    } else if c == 'T' {
        't'
    } else if c == 'Y' {
        'y'
    } else if c == 'A' {
        'a'
    } else {
        c
    }
}

/// `inf`, `infinity` or `nan`, ignoring ASCII case.
pub open spec fn is_special_word(s: Seq<char>) -> bool {
    let l = s.map_values(|c: char| word_lower(c));
    l == seq!['i', 'n', 'f'] || l == seq!['i', 'n', 'f', 'i', 'n', 'i', 't', 'y'] || l == seq![
        'n',
        'a',
        'n',
    ]
}

/// The index of the first occurrence of `c1` or `c2`, or `-1` if neither
/// occurs.
pub open spec fn find_first(s: Seq<char>, c1: char, c2: char) -> int
    decreases s.len(),
{
    if s.len() == 0 {
        -1
    } else if s[0] == c1 || s[0] == c2 {
        0
    } else {
        let r = find_first(s.drop_first(), c1, c2);
        if r < 0 {
            -1
        } else {
            1 + r
        }
    }
}

/// `find_first` returns the least index holding one of the two characters,
/// or `-1` when there is none.
pub proof fn lemma_find_first(s: Seq<char>, c1: char, c2: char)
    ensures
        find_first(s, c1, c2) < 0 ==> forall|j: int| 0 <= j < s.len() ==> s[j] != c1 && s[j] != c2,
        find_first(s, c1, c2) >= 0 ==> {
            let i = find_first(s, c1, c2);
            &&& 0 <= i < s.len()
            &&& (s[i] == c1 || s[i] == c2)
            &&& forall|j: int| 0 <= j < i ==> s[j] != c1 && s[j] != c2
        },
    decreases s.len(),
{
    if s.len() > 0 && !(s[0] == c1 || s[0] == c2) {
        lemma_find_first(s.drop_first(), c1, c2);
        let r = find_first(s.drop_first(), c1, c2);
        if r < 0 {
            assert forall|j: int| 0 <= j < s.len() implies s[j] != c1 && s[j] != c2 by {
                if j > 0 {
                    assert(s.drop_first()[j - 1] == s[j]);
                }
            }
        } else {
            assert(s.drop_first()[r] == s[r + 1]);
            assert forall|j: int| 0 <= j < r + 1 implies s[j] != c1 && s[j] != c2 by {
                if j > 0 {
                    assert(s.drop_first()[j - 1] == s[j]);
                }
            }
        }
    }
}

/// A significand: digits with at most one `.`, at least two characters when
/// the dot is present at the front, and at least one digit somewhere.
pub open spec fn is_mantissa(m: Seq<char>) -> bool {
    let i = find_first(m, '.', '.');
    if i < 0 {
        is_count(m)
    } else {
        all_digits(m.take(i)) && all_digits(m.skip(i + 1)) && m.len() >= 2
    }
}

/// What follows the `e` or `E`: an optional sign and one or more digits.
pub open spec fn is_exp_tail(t: Seq<char>) -> bool {
    is_count(strip_sign(t))
}

/// An unsigned decimal literal: a significand, optionally followed by an
/// exponent introduced by the first `e` or `E`.
pub open spec fn is_decimal_text(b: Seq<char>) -> bool {
    let k = find_first(b, 'e', 'E');
    if k < 0 {
        is_mantissa(b)
    } else {
        is_mantissa(b.take(k)) && is_exp_tail(b.skip(k + 1))
    }
}

/// Text that `f64::from_str` accepts: an optional sign and then a special
/// word or a decimal literal.
pub open spec fn is_number_text(s: Seq<char>) -> bool {
    is_special_word(strip_sign(s)) || is_decimal_text(strip_sign(s))
}

/// Checks a run of characters for digits-only.
fn digits_in_range(s: &str, from: usize, to: usize) -> (r: bool)
    requires
        0 <= from <= to <= s@.len(),
    ensures
        r == all_digits(s@.subrange(from as int, to as int)),
{
    let mut j: usize = from;
    while j < to
        invariant
            from <= j <= to <= s@.len(),
            forall|k: int| from <= k < j ==> is_digit(#[trigger] s@[k]),
        decreases to - j,
    {
        if !digit_char(s.get_char(j)) {
            assert(!is_digit(s@.subrange(from as int, to as int)[j - from]));
            return false;
        }
        j += 1;
    }
    assert(forall|k: int|
        0 <= k < to - from ==> is_digit(#[trigger] s@.subrange(from as int, to as int)[k]));
    true
}

/// Finds the first occurrence of either character at or after `from`.
fn find_char2(s: &str, from: usize, c1: char, c2: char) -> (r: Option<usize>)
    requires
        0 <= from <= s@.len(),
    ensures
        ({
            let f = find_first(s@.skip(from as int), c1, c2);
            match r {
                Option::Some(i) => from <= i < s@.len() && f == i - from,
                Option::None => f < 0,
            }
        }),
{
    let n = s.unicode_len();
    let mut j: usize = from;
    while j < n
        invariant
            from <= j <= n,
            n == s@.len(),
            forall|k: int| from <= k < j ==> s@[k] != c1 && s@[k] != c2,
        decreases n - j,
    {
        let c = s.get_char(j);
        if c == c1 || c == c2 {
            proof {
                lemma_find_first(s@.skip(from as int), c1, c2);
                let f = find_first(s@.skip(from as int), c1, c2);
                if f < 0 {
                    assert(s@.skip(from as int)[j - from] == s@[j as int]);
                    assert(false);
                }
                if f != j - from {
                    if f < j - from {
                        assert(s@[from + f] != c1 && s@[from + f] != c2);
                        assert(s@.skip(from as int)[f] == s@[from + f]);
                        assert(false);
                    } else {
                        assert(s@.skip(from as int)[j - from] == s@[j as int]);
                        assert(false);
                    }
                }
            }
            return Option::Some(j);
        }
        j += 1;
    }
    proof {
        lemma_find_first(s@.skip(from as int), c1, c2);
        let f = find_first(s@.skip(from as int), c1, c2);
        if f >= 0 {
            assert(s@.skip(from as int)[f] == s@[from + f]);
            assert(false);
        }
    }
    Option::None
}

/// Decides whether a token is a decimal floating-point literal, exactly as
/// [`is_number_text`] states the grammar.
#[verifier::rlimit(100)]
pub fn is_number_token(s: &str) -> (r: bool)
    ensures
        r == is_number_text(s@),
{
    let n = s.unicode_len();
    let start: usize = if n > 0 && {
        let c0 = s.get_char(0);
        c0 == '+' || c0 == '-'
    } {
        1
    } else {
        0
    };
    let ghost b = s@.skip(start as int);
    proof {
        assert(b =~= strip_sign(s@));
    }
    let m = n - start;
    // The special words, ignoring ASCII case.
    if m == 3 || m == 8 {
        let l0 = word_lower_char(s.get_char(start));
        let l1 = word_lower_char(s.get_char(start + 1));
        let l2 = word_lower_char(s.get_char(start + 2));
        if m == 3 && ((l0 == 'i' && l1 == 'n' && l2 == 'f') || (l0 == 'n' && l1 == 'a' && l2
            == 'n')) {
            proof {
                let l = b.map_values(|c: char| word_lower(c));
                if l0 == 'i' {
                    assert(l =~= seq!['i', 'n', 'f']);
                } else {
                    assert(l =~= seq!['n', 'a', 'n']);
                }
            }
            return true;
        }
        if m == 8 && l0 == 'i' && l1 == 'n' && l2 == 'f' && word_lower_char(s.get_char(start + 3))
            == 'i' && word_lower_char(s.get_char(start + 4)) == 'n' && word_lower_char(
            s.get_char(start + 5),
        ) == 'i' && word_lower_char(s.get_char(start + 6)) == 't' && word_lower_char(
            s.get_char(start + 7),
        ) == 'y' {
            proof {
                let l = b.map_values(|c: char| word_lower(c));
                assert(l =~= seq!['i', 'n', 'f', 'i', 'n', 'i', 't', 'y']);
            }
            return true;
        }
    }
    proof {
        let l = b.map_values(|c: char| word_lower(c));
        assert(l.len() == b.len());
        if is_special_word(b) {
            assert(l.len() == 3 || l.len() == 8);
            assert(false);
        }
    }
    // A decimal literal: significand, then an optional exponent at the
    // first `e` or `E`.
    let epos = find_char2(s, start, 'e', 'E');
    let mant_to: usize = match epos {
        Option::Some(i) => i,
        Option::None => n,
    };
    let ghost mant = if find_first(b, 'e', 'E') < 0 {
        b
    } else {
        b.take(find_first(b, 'e', 'E'))
    };
    proof {
        assert(b.take(b.len() as int) =~= b);
        assert(s@.subrange(start as int, mant_to as int) =~= mant);
    }
    // The significand.
    let dot = find_char2(s, start, '.', '.');
    let mant_ok: bool = match dot {
        Option::Some(d) => {
            if d >= mant_to {
                // The dot sits in the exponent part, so the significand has
                // none; it must then be all digits, and the dot will fail
                // the exponent's digit check below.
                proof {
                    lemma_find_first(b, '.', '.');
                    lemma_find_first(mant, '.', '.');
                    let f = find_first(mant, '.', '.');
                    if f >= 0 {
                        assert(mant[f] == b[f]);
                        assert(b[f] != '.');
                        assert(false);
                    }
                }
                mant_to > start && digits_in_range(s, start, mant_to)
            } else {
                proof {
                    lemma_find_first(b, '.', '.');
                    lemma_find_first(mant, '.', '.');
                    let f = find_first(mant, '.', '.');
                    assert(mant[d - start] == b[d - start]);
                    if f < 0 {
                        assert(mant[d - start] == '.');
                        assert(false);
                    }
                    if f != d - start {
                        if f < d - start {
                            assert(mant[f] == b[f]);
                            assert(b[f] != '.');
                            assert(false);
                        } else {
                            assert(mant[d - start] == '.');
                            assert(false);
                        }
                    }
                    assert(mant.take(f) =~= s@.subrange(start as int, d as int));
                    assert(mant.skip(f + 1) =~= s@.subrange(d + 1, mant_to as int));
                }
                digits_in_range(s, start, d) && digits_in_range(s, d + 1, mant_to) && mant_to
                    - start >= 2
            }
        },
        Option::None => {
            proof {
                lemma_find_first(b, '.', '.');
                lemma_find_first(mant, '.', '.');
                let f = find_first(mant, '.', '.');
                if f >= 0 {
                    assert(mant[f] == b[f]);
                    assert(b[f] != '.');
                    assert(false);
                }
            }
            mant_to > start && digits_in_range(s, start, mant_to)
        },
    };
    if !mant_ok {
        return false;
    }
    // The exponent, when present.
    match epos {
        Option::None => true,
        Option::Some(e) => {
            let ghost t = b.skip(find_first(b, 'e', 'E') + 1);
            let tstart: usize = if e + 1 < n && {
                let ce = s.get_char(e + 1);
                ce == '+' || ce == '-'
            } {
                e + 2
            } else {
                e + 1
            };
            proof {
                assert(t =~= s@.subrange(e + 1, n as int));
                assert(strip_sign(t) =~= s@.subrange(tstart as int, n as int));
            }
            tstart < n && digits_in_range(s, tstart, n)
        },
    }
}

} // verus!
