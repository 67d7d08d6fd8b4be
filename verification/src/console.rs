//! The console command grammar: what a line typed into an NPC's console
//! means.  The console accepts `help`, `clear`, `motd`, `ask <text>` and
//! `go (x,y)`; everything around the grammar — capturing keys, printing
//! replies, the language-model request an `ask` turns into — lives
//! outside this crate.  Lines are handled as bytes.

use vstd::prelude::*;

verus! {

/// ASCII whitespace, as line trimming removes it.
pub open spec fn is_ws(b: u8) -> bool {
    b == 32 || b == 9 || b == 10 || b == 13
}

/// Number of leading whitespace bytes.
pub open spec fn trim_start_index(s: Seq<u8>) -> int
    decreases s.len(),
{
    if s.len() == 0 || !is_ws(s[0]) {
        0
    } else {
        1 + trim_start_index(s.drop_first())
    }
}

/// Length of `s` without its trailing whitespace.
pub open spec fn trim_end_index(s: Seq<u8>) -> int
    decreases s.len(),
{
    if s.len() == 0 || !is_ws(s.last()) {
        s.len() as int
    } else {
        trim_end_index(s.drop_last())
    }
}

/// The line without leading and trailing whitespace.
pub open spec fn trimmed(s: Seq<u8>) -> Seq<u8> {
    if trim_start_index(s) <= trim_end_index(s) {
        s.subrange(trim_start_index(s), trim_end_index(s))
    } else {
        Seq::empty()
    }
}

/// The index of the first occurrence of `b`, or the length when `b`
/// does not occur.
pub open spec fn first_index_of(s: Seq<u8>, b: u8) -> int
    decreases s.len(),
{
    if s.len() == 0 || s[0] == b {
        0
    } else {
        1 + first_index_of(s.drop_first(), b)
    }
}

/// How often `b` occurs in `s`.
pub open spec fn count_of(s: Seq<u8>, b: u8) -> int
    decreases s.len(),
{
    if s.len() == 0 {
        0
    } else {
        count_of(s.drop_last(), b) + if s.last() == b {
            1int
        } else {
            0int
        }
    }
}

/// The leading whitespace count is an index into the line, everything
/// before it is whitespace, and the byte there — if any — is not.
pub proof fn lemma_trim_start_char(s: Seq<u8>)
    ensures
        0 <= trim_start_index(s) <= s.len(),
        forall|k: int| 0 <= k < trim_start_index(s) ==> is_ws(#[trigger] s[k]),
        trim_start_index(s) < s.len() ==> !is_ws(s[trim_start_index(s)]),
    decreases s.len(),
{
    if s.len() > 0 && is_ws(s[0]) {
        lemma_trim_start_char(s.drop_first());
        assert forall|k: int| 0 <= k < trim_start_index(s) implies is_ws(#[trigger] s[k]) by {
            if k > 0 {
                assert(s.drop_first()[k - 1] == s[k]);
            }
        }
        if trim_start_index(s) < s.len() {
            assert(s.drop_first()[trim_start_index(s) - 1] == s[trim_start_index(s)]);
        }
    }
}

/// The trimmed end is an index into the line, everything at or after it
/// is whitespace, and the byte before it — if any — is not.
pub proof fn lemma_trim_end_char(s: Seq<u8>)
    ensures
        0 <= trim_end_index(s) <= s.len(),
        forall|k: int| trim_end_index(s) <= k < s.len() ==> is_ws(#[trigger] s[k]),
        trim_end_index(s) > 0 ==> !is_ws(s[trim_end_index(s) - 1]),
    decreases s.len(),
{
    if s.len() > 0 && is_ws(s.last()) {
        lemma_trim_end_char(s.drop_last());
        assert forall|k: int| trim_end_index(s) <= k < s.len() implies is_ws(#[trigger] s[k]) by {
            if k < s.len() - 1 {
                assert(s.drop_last()[k] == s[k]);
            }
        }
        if trim_end_index(s) > 0 {
            assert(s.drop_last()[trim_end_index(s) - 1] == s[trim_end_index(s) - 1]);
        }
    }
}

/// The first-occurrence index is an index into `s`, nothing before it
/// is `b`, and the byte there — if any — is `b`.
pub proof fn lemma_first_index_char(s: Seq<u8>, b: u8)
    ensures
        0 <= first_index_of(s, b) <= s.len(),
        forall|k: int| 0 <= k < first_index_of(s, b) ==> #[trigger] s[k] != b,
        first_index_of(s, b) < s.len() ==> s[first_index_of(s, b)] == b,
    decreases s.len(),
{
    if s.len() > 0 && s[0] != b {
        lemma_first_index_char(s.drop_first(), b);
        assert forall|k: int| 0 <= k < first_index_of(s, b) implies #[trigger] s[k] != b by {
            if k > 0 {
                assert(s.drop_first()[k - 1] == s[k]);
            }
        }
        if first_index_of(s, b) < s.len() {
            assert(s.drop_first()[first_index_of(s, b) - 1] == s[first_index_of(s, b)]);
        }
    }
}

/// A sequence with no occurrence of `b` before position `i` and `b` at
/// `i` — or none at all and `i` at the end — has `i` as its first
/// occurrence index.
pub proof fn lemma_first_index_unique(s: Seq<u8>, b: u8, i: int)
    requires
        0 <= i <= s.len(),
        forall|k: int| 0 <= k < i ==> #[trigger] s[k] != b,
        i < s.len() ==> s[i] == b,
    ensures
        first_index_of(s, b) == i,
{
    lemma_first_index_char(s, b);
    let w = first_index_of(s, b);
    if w < i {
        assert(s[w] != b);
    }
    if i < w {
        assert(s[i] != b);
    }
}

/// Counting occurrences splits around a removed occurrence-free prefix.
pub proof fn lemma_count_of_subrange_free(s: Seq<u8>, b: u8, i: int)
    requires
        0 <= i <= s.len(),
        forall|k: int| 0 <= k < i ==> #[trigger] s[k] != b,
        i < s.len() ==> s[i] == b,
    ensures
        i < s.len() ==> count_of(s, b) == 1 + count_of(s.subrange(i + 1, s.len() as int), b),
        i == s.len() ==> count_of(s, b) == 0,
{
    if i == s.len() {
        lemma_count_free(s, b);
    } else {
        lemma_count_split(s, b, i);
    }
}

/// An occurrence count is never negative.
pub proof fn lemma_count_nonneg(s: Seq<u8>, b: u8)
    ensures
        count_of(s, b) >= 0,
    decreases s.len(),
{
    if s.len() > 0 {
        lemma_count_nonneg(s.drop_last(), b);
    }
}

/// A sequence without `b` counts zero occurrences.
proof fn lemma_count_free(s: Seq<u8>, b: u8)
    requires
        forall|k: int| 0 <= k < s.len() ==> #[trigger] s[k] != b,
    ensures
        count_of(s, b) == 0,
    decreases s.len(),
{
    if s.len() > 0 {
        lemma_count_free(s.drop_last(), b);
    }
}

/// With `b` first occurring at `i`, the total count is one more than
/// the count after `i`.
proof fn lemma_count_split(s: Seq<u8>, b: u8, i: int)
    requires
        0 <= i < s.len(),
        forall|k: int| 0 <= k < i ==> #[trigger] s[k] != b,
        s[i] == b,
    ensures
        count_of(s, b) == 1 + count_of(s.subrange(i + 1, s.len() as int), b),
    decreases s.len(),
{
    if i == s.len() - 1 {
        lemma_count_free(s.drop_last(), b);
        assert(s.subrange(i + 1, s.len() as int) =~= Seq::empty());
    } else {
        lemma_count_split(s.drop_last(), b, i);
        assert(s.drop_last().subrange(i + 1, s.len() - 1) =~= s.subrange(
            i + 1,
            s.len() as int,
        ).drop_last());
    }
}

/// Counts the occurrences of `b` in `s[lo..hi]`.
pub fn count_between(s: &[u8], lo: usize, hi: usize, b: u8) -> (n: usize)
    requires
        lo <= hi <= s@.len(),
    ensures
        n == count_of(s@.subrange(lo as int, hi as int), b),
{
    let mut n: usize = 0;
    let mut i = lo;
    while i < hi
        invariant
            lo <= i <= hi <= s@.len(),
            n == count_of(s@.subrange(lo as int, i as int), b),
            n <= i - lo,
        decreases hi - i,
    {
        proof {
            assert(s@.subrange(lo as int, i + 1).drop_last() =~= s@.subrange(lo as int, i as int));
            assert(s@.subrange(lo as int, i + 1).last() == s@[i as int]);
        }
        if s[i] == b {
            n += 1;
        }
        i += 1;
    }
    n
}

/// Finds the first occurrence of `b` in `s[lo..hi]`, or `hi` when there
/// is none.
pub fn find_between(s: &[u8], lo: usize, hi: usize, b: u8) -> (i: usize)
    requires
        lo <= hi <= s@.len(),
    ensures
        i - lo == first_index_of(s@.subrange(lo as int, hi as int), b),
        lo <= i <= hi,
{
    let mut i = lo;
    while i < hi
        invariant
            lo <= i <= hi <= s@.len(),
            forall|k: int| lo <= k < i ==> #[trigger] s@[k] != b,
        decreases hi - i,
    {
        if s[i] == b {
            proof {
                lemma_first_index_unique_view(s@, lo as int, hi as int, i as int, b);
            }
            return i;
        }
        i += 1;
    }
    proof {
        lemma_first_index_unique_view(s@, lo as int, hi as int, hi as int, b);
    }
    hi
}

/// Transfers the first-occurrence characterization from the whole slice
/// to a subrange of it.
proof fn lemma_first_index_unique_view(s: Seq<u8>, lo: int, hi: int, i: int, b: u8)
    requires
        0 <= lo <= i <= hi <= s.len(),
        forall|k: int| lo <= k < i ==> #[trigger] s[k] != b,
        i < hi ==> s[i] == b,
    ensures
        first_index_of(s.subrange(lo, hi), b) == i - lo,
{
    let sub = s.subrange(lo, hi);
    assert forall|k: int| 0 <= k < i - lo implies #[trigger] sub[k] != b by {
        assert(sub[k] == s[k + lo]);
    }
    lemma_first_index_unique(sub, b, i - lo);
}

/// The trimmed window `[lo, hi)` of `s`: its whitespace-free core.
pub fn trim_bounds(s: &[u8]) -> (r: (usize, usize))
    ensures
        r.0 <= r.1 <= s@.len(),
        s@.subrange(r.0 as int, r.1 as int) == trimmed(s@),
{
    let n = s.len();
    let mut lo: usize = 0;
    while lo < n && (s[lo] == 32 || s[lo] == 9 || s[lo] == 10 || s[lo] == 13)
        invariant
            lo <= n == s@.len(),
            forall|k: int| 0 <= k < lo ==> is_ws(#[trigger] s@[k]),
        decreases n - lo,
    {
        lo += 1;
    }
    let mut hi: usize = n;
    while hi > lo && (s[hi - 1] == 32 || s[hi - 1] == 9 || s[hi - 1] == 10 || s[hi - 1] == 13)
        invariant
            lo <= hi <= n == s@.len(),
            forall|k: int| 0 <= k < lo ==> is_ws(#[trigger] s@[k]),
            forall|k: int| hi <= k < n ==> is_ws(#[trigger] s@[k]),
        decreases hi,
    {
        hi -= 1;
    }
    proof {
        lemma_trim_start_char(s@);
        lemma_trim_end_char(s@);
        let ts = trim_start_index(s@);
        let te = trim_end_index(s@);
        if lo < n && hi > lo {
            // Both bounds stopped at non-whitespace bytes.
            assert(!is_ws(s@[lo as int]));
            assert(!is_ws(s@[hi - 1]));
            assert(ts == lo) by {
                if ts < lo {
                    assert(is_ws(s@[ts]));
                }
                if lo < ts {
                    assert(is_ws(s@[lo as int]));
                }
            }
            assert(te == hi) by {
                if te < hi {
                    assert(is_ws(s@[hi - 1]));
                }
                if hi < te {
                    assert(is_ws(s@[te - 1])) by {
                        assert(hi <= te - 1 < n);
                    }
                }
            }
        } else {
            // The whole line is whitespace.
            assert(hi == lo);
            assert(forall|k: int| 0 <= k < s@.len() ==> is_ws(#[trigger] s@[k])) by {
                assert(forall|k: int| lo <= k < n ==> is_ws(#[trigger] s@[k]));
            }
            if ts <= te {
                assert(s@.subrange(ts, te) =~= s@.subrange(lo as int, hi as int)) by {
                    if ts < te {
                        assert(!is_ws(s@[te - 1]));
                        assert(is_ws(s@[te - 1]));
                    }
                }
            } else {
                assert(s@.subrange(lo as int, hi as int) =~= Seq::<u8>::empty());
            }
        }
    }
    (lo, hi)
}

/// A parenthesis byte, as coordinate arguments are wrapped in them.
pub open spec fn is_paren(b: u8) -> bool {
    b == 40 || b == 41
}

/// Number of leading parenthesis bytes.
pub open spec fn paren_start_index(s: Seq<u8>) -> int
    decreases s.len(),
{
    if s.len() == 0 || !is_paren(s[0]) {
        0
    } else {
        1 + paren_start_index(s.drop_first())
    }
}

/// Length of `s` without its trailing parenthesis bytes.
pub open spec fn paren_end_index(s: Seq<u8>) -> int
    decreases s.len(),
{
    if s.len() == 0 || !is_paren(s.last()) {
        s.len() as int
    } else {
        paren_end_index(s.drop_last())
    }
}

/// The sequence without leading and trailing parentheses.
pub open spec fn paren_trimmed(s: Seq<u8>) -> Seq<u8> {
    if paren_start_index(s) <= paren_end_index(s) {
        s.subrange(paren_start_index(s), paren_end_index(s))
    } else {
        Seq::empty()
    }
}

/// The leading parenthesis count is an index into `s`, everything
/// before it is a parenthesis, and the byte there — if any — is not.
pub proof fn lemma_paren_start_char(s: Seq<u8>)
    ensures
        0 <= paren_start_index(s) <= s.len(),
        forall|k: int| 0 <= k < paren_start_index(s) ==> is_paren(#[trigger] s[k]),
        paren_start_index(s) < s.len() ==> !is_paren(s[paren_start_index(s)]),
    decreases s.len(),
{
    if s.len() > 0 && is_paren(s[0]) {
        lemma_paren_start_char(s.drop_first());
        assert forall|k: int| 0 <= k < paren_start_index(s) implies is_paren(#[trigger] s[k]) by {
            if k > 0 {
                assert(s.drop_first()[k - 1] == s[k]);
            }
        }
        if paren_start_index(s) < s.len() {
            assert(s.drop_first()[paren_start_index(s) - 1] == s[paren_start_index(s)]);
        }
    }
}

/// The trimmed end is an index into `s`, everything at or after it is a
/// parenthesis, and the byte before it — if any — is not.
pub proof fn lemma_paren_end_char(s: Seq<u8>)
    ensures
        0 <= paren_end_index(s) <= s.len(),
        forall|k: int| paren_end_index(s) <= k < s.len() ==> is_paren(#[trigger] s[k]),
        paren_end_index(s) > 0 ==> !is_paren(s[paren_end_index(s) - 1]),
    decreases s.len(),
{
    if s.len() > 0 && is_paren(s.last()) {
        lemma_paren_end_char(s.drop_last());
        assert forall|k: int| paren_end_index(s) <= k < s.len() implies is_paren(
            #[trigger] s[k],
        ) by {
            if k < s.len() - 1 {
                assert(s.drop_last()[k] == s[k]);
            }
        }
        if paren_end_index(s) > 0 {
            assert(s.drop_last()[paren_end_index(s) - 1] == s[paren_end_index(s) - 1]);
        }
    }
}

/// The parenthesis-trimmed window `[lo2, hi2)` of `s[lo..hi]`.
pub fn paren_trim_bounds(s: &[u8], lo: usize, hi: usize) -> (r: (usize, usize))
    requires
        lo <= hi <= s@.len(),
    ensures
        lo <= r.0 <= r.1 <= hi,
        s@.subrange(r.0 as int, r.1 as int) == paren_trimmed(s@.subrange(lo as int, hi as int)),
{
    let ghost sub = s@.subrange(lo as int, hi as int);
    let mut lo2: usize = lo;
    while lo2 < hi && (s[lo2] == 40 || s[lo2] == 41)
        invariant
            lo <= lo2 <= hi <= s@.len(),
            forall|k: int| lo <= k < lo2 ==> is_paren(#[trigger] s@[k]),
        decreases hi - lo2,
    {
        lo2 += 1;
    }
    let mut hi2: usize = hi;
    while hi2 > lo2 && (s[hi2 - 1] == 40 || s[hi2 - 1] == 41)
        invariant
            lo2 <= hi2 <= hi <= s@.len(),
            forall|k: int| hi2 <= k < hi ==> is_paren(#[trigger] s@[k]),
        decreases hi2,
    {
        hi2 -= 1;
    }
    proof {
        lemma_paren_start_char(sub);
        lemma_paren_end_char(sub);
        let ps = paren_start_index(sub);
        let pe = paren_end_index(sub);
        assert(forall|k: int| 0 <= k < lo2 - lo ==> is_paren(#[trigger] sub[k]));
        assert(forall|k: int| hi2 - lo <= k < hi - lo ==> is_paren(#[trigger] sub[k]));
        if lo2 < hi && hi2 > lo2 {
            assert(!is_paren(sub[lo2 - lo]));
            assert(!is_paren(sub[hi2 - lo - 1]));
            assert(ps == lo2 - lo) by {
                if ps < lo2 - lo {
                    assert(is_paren(sub[ps]));
                }
                if lo2 - lo < ps {
                    assert(is_paren(sub[lo2 - lo]));
                }
            }
            assert(pe == hi2 - lo) by {
                if pe < hi2 - lo {
                    assert(is_paren(sub[hi2 - lo - 1]));
                }
                if hi2 - lo < pe {
                    assert(is_paren(sub[pe - 1])) by {
                        assert(hi2 - lo <= pe - 1 < sub.len());
                    }
                }
            }
            assert(s@.subrange(lo2 as int, hi2 as int) =~= sub.subrange(ps, pe));
        } else {
            assert(hi2 == lo2);
            assert(forall|k: int| 0 <= k < sub.len() ==> is_paren(#[trigger] sub[k]));
            if ps <= pe {
                assert(sub.subrange(ps, pe) =~= s@.subrange(lo2 as int, hi2 as int)) by {
                    if ps < pe {
                        assert(!is_paren(sub[pe - 1]));
                        assert(is_paren(sub[pe - 1]));
                    }
                }
            } else {
                assert(s@.subrange(lo2 as int, hi2 as int) =~= Seq::<u8>::empty());
            }
        }
    }
    (lo2, hi2)
}

/// Whether `b` is a decimal digit.
pub open spec fn is_digit(b: u8) -> bool {
    48 <= b <= 57
}

/// The number a sequence of decimal digits denotes.
pub open spec fn digits_value(s: Seq<u8>) -> int
    decreases s.len(),
{
    if s.len() == 0 {
        0
    } else {
        digits_value(s.drop_last()) * 10 + (s.last() - 48)
    }
}

/// A literal's digits: the token without its optional leading sign.
pub open spec fn literal_body(s: Seq<u8>) -> Seq<u8> {
    if s.len() > 0 && (s[0] == 43 || s[0] == 45) {
        s.drop_first()
    } else {
        s
    }
}

/// Whether `s` is a decimal integer literal that fits in `i32`: an
/// optional sign, then at least one digit, denoting a value in range.
pub open spec fn is_i32_literal(s: Seq<u8>) -> bool {
    &&& literal_body(s).len() >= 1
    &&& forall|k: int| 0 <= k < literal_body(s).len() ==> is_digit(#[trigger] literal_body(s)[k])
    &&& if s.len() > 0 && s[0] == 45 {
        digits_value(literal_body(s)) <= 0x8000_0000
    } else {
        digits_value(literal_body(s)) <= 0x7fff_ffff
    }
}

/// The value an `i32` literal denotes.
pub open spec fn i32_literal_value(s: Seq<u8>) -> int {
    if s.len() > 0 && s[0] == 45 {
        -digits_value(s.drop_first())
    } else if s.len() > 0 && s[0] == 43 {
        digits_value(s.drop_first())
    } else {
        digits_value(s)
    }
}

/// A digit string's value never shrinks as digits are appended.
proof fn lemma_digits_value_monotone(s: Seq<u8>, i: int)
    requires
        0 <= i <= s.len(),
        forall|k: int| 0 <= k < s.len() ==> is_digit(#[trigger] s[k]),
    ensures
        0 <= digits_value(s.take(i)) <= digits_value(s),
    decreases s.len() - i,
{
    lemma_digits_value_nonneg(s.take(i));
    if i < s.len() {
        lemma_digits_value_monotone(s, i + 1);
        assert(s.take(i + 1).drop_last() =~= s.take(i));
        lemma_digits_value_nonneg(s.take(i));
    } else {
        assert(s.take(i) =~= s);
    }
}

/// A digit string's value is never negative.
proof fn lemma_digits_value_nonneg(s: Seq<u8>)
    requires
        forall|k: int| 0 <= k < s.len() ==> is_digit(#[trigger] s[k]),
    ensures
        digits_value(s) >= 0,
    decreases s.len(),
{
    if s.len() > 0 {
        lemma_digits_value_nonneg(s.drop_last());
    }
}

/// Parses `s[lo..hi]` as a decimal `i32`, exactly when it is an `i32`
/// literal: an optional sign and at least one digit, with the value in
/// range.
pub fn parse_i32(s: &[u8], lo: usize, hi: usize) -> (r: Option<i32>)
    requires
        lo <= hi <= s@.len(),
    ensures
        r is Some <==> is_i32_literal(s@.subrange(lo as int, hi as int)),
        r matches Some(v) ==> v == i32_literal_value(s@.subrange(lo as int, hi as int)),
{
    let ghost tok = s@.subrange(lo as int, hi as int);
    if lo == hi {
        return None;
    }
    let negative = s[lo] == 45;
    let start = if negative || s[lo] == 43 {
        lo + 1
    } else {
        lo
    };
    let ghost body = literal_body(tok);
    proof {
        assert(body =~= s@.subrange(start as int, hi as int));
    }
    if start == hi {
        return None;
    }
    let mut value: u64 = 0;
    let mut i = start;
    while i < hi
        invariant
            lo <= start <= i <= hi <= s@.len(),
            start < hi,
            tok == s@.subrange(lo as int, hi as int),
            tok.len() > 0,
            negative == (tok[0] == 45),
            start == lo + (if tok[0] == 43 || tok[0] == 45 {
                1int
            } else {
                0int
            }),
            body == literal_body(tok),
            body == s@.subrange(start as int, hi as int),
            value == digits_value(body.take(i - start)),
            value <= 0x8000_0000,
            forall|k: int| 0 <= k < i - start ==> is_digit(#[trigger] body[k]),
        decreases hi - i,
    {
        let b = s[i];
        if b < 48 || b > 57 {
            proof {
                assert(b == s@[i as int]);
                assert(literal_body(tok)[i - start] == s@[i as int]);
                if is_i32_literal(tok) {
                    assert(is_digit(literal_body(tok)[i - start]));
                    assert(false);
                }
            }
            return None;
        }
        proof {
            assert(body[i - start] == s@[i as int]);
            assert(body.take(i - start + 1).drop_last() =~= body.take(i - start));
            assert(body.take(i - start + 1).last() == body[i - start]);
        }
        value = value * 10 + ((b - 48) as u64);
        if value > 0x8000_0000 {
            proof {
                if is_i32_literal(tok) {
                    lemma_digits_value_monotone(literal_body(tok), i - start + 1);
                    assert(digits_value(literal_body(tok)) >= digits_value(
                        literal_body(tok).take(i - start + 1),
                    ));
                    assert(false);
                }
            }
            return None;
        }
        i += 1;
    }
    proof {
        assert(body.take(hi - start) =~= body);
    }
    if negative {
        if value > 0x8000_0000 {
            return None;
        }
        proof {
            assert(tok[0] == 45);
        }
        if value == 0x8000_0000 {
            Some(i32::MIN)
        } else {
            Some(-((value) as i32))
        }
    } else {
        if value > 0x7fff_ffff {
            proof {
                assert(tok[0] != 45);
            }
            return None;
        }
        Some(value as i32)
    }
}

/// The bytes of the `clear` keyword.
pub open spec fn clear_word() -> Seq<u8> {
    seq![99u8, 108u8, 101u8, 97u8, 114u8]
}

/// The bytes of the `help` keyword.
pub open spec fn help_word() -> Seq<u8> {
    seq![104u8, 101u8, 108u8, 112u8]
}

/// The bytes of the `motd` keyword.
pub open spec fn motd_word() -> Seq<u8> {
    seq![109u8, 111u8, 116u8, 100u8]
}

/// The bytes of the `ask` keyword.
pub open spec fn ask_word() -> Seq<u8> {
    seq![97u8, 115u8, 107u8]
}

/// The bytes of the `go` keyword.
pub open spec fn go_word() -> Seq<u8> {
    seq![103u8, 111u8]
}

/// Whether `s[lo..hi]` holds exactly the bytes of `w`.
fn bytes_eq(s: &[u8], lo: usize, hi: usize, w: &Vec<u8>) -> (r: bool)
    requires
        lo <= hi <= s@.len(),
    ensures
        r == (s@.subrange(lo as int, hi as int) == w@),
{
    if hi - lo != w.len() {
        proof {
            assert(s@.subrange(lo as int, hi as int).len() != w@.len());
        }
        return false;
    }
    let mut j: usize = 0;
    while j < w.len()
        invariant
            lo <= hi <= s@.len(),
            hi - lo == w@.len(),
            j <= w@.len(),
            forall|k: int| 0 <= k < j ==> s@.subrange(lo as int, hi as int)[k] == #[trigger] w@[k],
        decreases w@.len() - j,
    {
        if s[lo + j] != w[j] {
            proof {
                assert(s@.subrange(lo as int, hi as int)[j as int] != w@[j as int]);
            }
            return false;
        }
        proof {
            assert(s@.subrange(lo as int, hi as int)[j as int] == s@[lo + j]);
        }
        j += 1;
    }
    proof {
        assert(s@.subrange(lo as int, hi as int) =~= w@);
    }
    true
}

/// Builds the exec bytes of a console keyword from its five possible
/// spellings.
fn keyword(which: u8) -> (w: Vec<u8>)
    requires
        which < 5,
    ensures
        which == 0 ==> w@ == clear_word(),
        which == 1 ==> w@ == help_word(),
        which == 2 ==> w@ == motd_word(),
        which == 3 ==> w@ == ask_word(),
        which == 4 ==> w@ == go_word(),
{
    let mut w: Vec<u8> = Vec::new();
    if which == 0 {
        w.push(99);
        w.push(108);
        w.push(101);
        w.push(97);
        w.push(114);
        proof {
            assert(w@ =~= clear_word());
        }
    } else if which == 1 {
        w.push(104);
        w.push(101);
        w.push(108);
        w.push(112);
        proof {
            assert(w@ =~= help_word());
        }
    } else if which == 2 {
        w.push(109);
        w.push(111);
        w.push(116);
        w.push(100);
        proof {
            assert(w@ =~= motd_word());
        }
    } else if which == 3 {
        w.push(97);
        w.push(115);
        w.push(107);
        proof {
            assert(w@ =~= ask_word());
        }
    } else {
        w.push(103);
        w.push(111);
        proof {
            assert(w@ =~= go_word());
        }
    }
    w
}

/// A console command the grammar accepts.
#[derive(Debug, PartialEq, Eq)]
pub enum ConsoleCommand {
    /// Wipe the conversation log.
    Clear,
    /// Show the command overview.
    Help,
    /// Show the machine greeting.
    Motd,
    /// Ask the dialogue service the given question.
    Ask(Vec<u8>),
    /// Order the NPC to walk to the given cell.
    Go(i32, i32),
}

/// Why a console line was rejected, one variant per console reply.
#[derive(Debug, PartialEq, Eq)]
pub enum CommandError {
    /// Nothing was typed at all.
    Empty,
    /// `ask` without a question.
    MissingQuestion,
    /// `go` without exactly one argument.
    GoUsage,
    /// A `go` argument that is not a coordinate pair.
    BadCoordinate,
    /// A first word that is no command.
    Unknown(Vec<u8>),
}

/// The first word of a trimmed line: everything before its first space.
pub open spec fn first_word(t: Seq<u8>) -> Seq<u8> {
    t.take(first_index_of(t, 32))
}

/// What follows the first space of a trimmed line.
pub open spec fn rest_after_word(t: Seq<u8>) -> Seq<u8> {
    t.skip(first_index_of(t, 32) + 1)
}

/// Whether a `go` argument is a well-formed coordinate pair once its
/// parentheses are stripped: exactly one comma with an `i32` literal on
/// each side.
pub open spec fn is_coordinate_pair(arg: Seq<u8>) -> bool {
    let inner = paren_trimmed(arg);
    &&& count_of(inner, 44) == 1
    &&& is_i32_literal(inner.take(first_index_of(inner, 44)))
    &&& is_i32_literal(inner.skip(first_index_of(inner, 44) + 1))
}

/// The coordinates a well-formed `go` argument denotes.
pub open spec fn coordinate_pair_value(arg: Seq<u8>) -> (int, int) {
    let inner = paren_trimmed(arg);
    (
        i32_literal_value(inner.take(first_index_of(inner, 44))),
        i32_literal_value(inner.skip(first_index_of(inner, 44) + 1)),
    )
}

/// Reads one console line and decides what it asks for.  The line is
/// trimmed; its first word picks the command.  `clear`, `help` and
/// `motd` stand alone; `ask` wants a question after it, handed back
/// verbatim; `go` wants exactly one argument of the shape `(x,y)` with
/// two `i32` coordinates.  Anything else is reported back as unknown.
pub fn commands_handler(line: &[u8]) -> (r: Result<ConsoleCommand, CommandError>)
    ensures
        line@.len() == 0 ==> r == Err::<ConsoleCommand, CommandError>(CommandError::Empty),
        line@.len() > 0 ==> ({
            let t = trimmed(line@);
            let word = first_word(t);
            if word == clear_word() {
                r == Ok::<ConsoleCommand, CommandError>(ConsoleCommand::Clear)
            } else if word == help_word() {
                r == Ok::<ConsoleCommand, CommandError>(ConsoleCommand::Help)
            } else if word == motd_word() {
                r == Ok::<ConsoleCommand, CommandError>(ConsoleCommand::Motd)
            } else if word == ask_word() {
                if count_of(t, 32) >= 1 {
                    r matches Ok(ConsoleCommand::Ask(q)) && q@ == rest_after_word(t)
                } else {
                    r == Err::<ConsoleCommand, CommandError>(CommandError::MissingQuestion)
                }
            } else if word == go_word() {
                if count_of(t, 32) != 1 {
                    r == Err::<ConsoleCommand, CommandError>(CommandError::GoUsage)
                } else if is_coordinate_pair(rest_after_word(t)) {
                    r matches Ok(ConsoleCommand::Go(x, y)) && x == coordinate_pair_value(
                        rest_after_word(t),
                    ).0 && y == coordinate_pair_value(rest_after_word(t)).1
                } else {
                    r == Err::<ConsoleCommand, CommandError>(CommandError::BadCoordinate)
                }
            } else {
                r matches Err(CommandError::Unknown(w)) && w@ == word
            }
        }),
{
    if line.len() == 0 {
        return Err(CommandError::Empty);
    }
    let (lo, hi) = trim_bounds(line);
    let ghost t = trimmed(line@);
    let space = find_between(line, lo, hi, 32);
    proof {
        assert(first_word(t) =~= line@.subrange(lo as int, space as int)) by {
            assert(t =~= line@.subrange(lo as int, hi as int));
            assert(first_word(t) =~= t.take(first_index_of(t, 32)));
        }
    }
    if bytes_eq(line, lo, space, &keyword(0)) {
        return Ok(ConsoleCommand::Clear);
    }
    if bytes_eq(line, lo, space, &keyword(1)) {
        return Ok(ConsoleCommand::Help);
    }
    if bytes_eq(line, lo, space, &keyword(2)) {
        return Ok(ConsoleCommand::Motd);
    }
    let spaces = count_between(line, lo, hi, 32);
    let ghost space_count = count_of(t, 32);
    proof {
        assert(spaces == space_count) by {
            assert(t =~= line@.subrange(lo as int, hi as int));
        }
    }
    if bytes_eq(line, lo, space, &keyword(3)) {
        if spaces >= 1 {
            proof {
                lemma_first_index_char(t, 32);
                lemma_count_of_subrange_free(t, 32, first_index_of(t, 32));
            }
            let mut question: Vec<u8> = Vec::new();
            let mut i = space + 1;
            proof {
                assert(rest_after_word(t) =~= line@.subrange(space + 1, hi as int)) by {
                    assert(t =~= line@.subrange(lo as int, hi as int));
                }
            }
            while i < hi
                invariant
                    lo <= space < i <= hi <= line@.len(),
                    question@ == line@.subrange(space + 1, i as int),
                decreases hi - i,
            {
                question.push(line[i]);
                proof {
                    assert(line@.subrange(space + 1, i + 1) =~= line@.subrange(
                        space + 1,
                        i as int,
                    ).push(line@[i as int]));
                }
                i += 1;
            }
            return Ok(ConsoleCommand::Ask(question));
        } else {
            proof {
                lemma_first_index_char(t, 32);
                lemma_count_of_subrange_free(t, 32, first_index_of(t, 32));
                lemma_count_nonneg(t.subrange(first_index_of(t, 32) + 1, t.len() as int), 32);
                assert(first_index_of(t, 32) == t.len());
            }
            return Err(CommandError::MissingQuestion);
        }
    }
    if bytes_eq(line, lo, space, &keyword(4)) {
        proof {
            lemma_first_index_char(t, 32);
            lemma_count_of_subrange_free(t, 32, first_index_of(t, 32));
        }
        if spaces != 1 {
            return Err(CommandError::GoUsage);
        }
        // Exactly one space: the argument is everything after it.
        let ghost arg = rest_after_word(t);
        proof {
            assert(arg =~= line@.subrange(space + 1, hi as int)) by {
                assert(t =~= line@.subrange(lo as int, hi as int));
            }
        }
        let (alo, ahi) = paren_trim_bounds(line, space + 1, hi);
        let ghost inner = paren_trimmed(arg);
        let comma = find_between(line, alo, ahi, 44);
        let commas = count_between(line, alo, ahi, 44);
        proof {
            assert(inner == line@.subrange(alo as int, ahi as int));
            assert(commas == count_of(inner, 44));
            assert(comma - alo == first_index_of(inner, 44));
        }
        if commas != 1 {
            return Err(CommandError::BadCoordinate);
        }
        proof {
            lemma_first_index_char(inner, 44);
            lemma_count_of_subrange_free(inner, 44, first_index_of(inner, 44));
            assert(first_index_of(inner, 44) < inner.len());
            assert(inner.take(first_index_of(inner, 44)) =~= line@.subrange(
                alo as int,
                comma as int,
            ));
            assert(inner.skip(first_index_of(inner, 44) + 1) =~= line@.subrange(
                comma + 1,
                ahi as int,
            ));
        }
        let x = parse_i32(line, alo, comma);
        let y = parse_i32(line, comma + 1, ahi);
        match (x, y) {
            (Some(x), Some(y)) => {
                return Ok(ConsoleCommand::Go(x, y));
            },
            _ => {
                return Err(CommandError::BadCoordinate);
            },
        }
    }
    let mut word: Vec<u8> = Vec::new();
    let mut i = lo;
    while i < space
        invariant
            lo <= i <= space <= line@.len(),
            word@ == line@.subrange(lo as int, i as int),
        decreases space - i,
    {
        word.push(line[i]);
        proof {
            assert(line@.subrange(lo as int, i + 1) =~= line@.subrange(lo as int, i as int).push(
                line@[i as int],
            ));
        }
        i += 1;
    }
    Err(CommandError::Unknown(word))
}

} // verus!
