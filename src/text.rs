//! Byte-level scanning shared by the tool-output parsers.
use vstd::prelude::*;

verus! {

/// Largest whole part `parse_thousandths` accepts.
pub const MAX_WHOLE: u64 = 1_000_000_000;

/// The decimal number starting at `p`, in thousandths (digits past the
/// third decimal are ignored), or `None` when no digit stands there or the
/// whole part exceeds `MAX_WHOLE`.
#[verifier::opaque]
pub open spec fn thousandths_at(s: Seq<u8>, p: int) -> Option<int> {
    let e = digit_end(s, p);
    if e == p {
        None
    } else {
        let whole = digits_value(s.subrange(p, e));
        if whole > MAX_WHOLE {
            None
        } else {
            let frac = if e < s.len() && s[e] == 46 {
                fraction_thousandths(s.subrange(e + 1, digit_end(s, e + 1)))
            } else {
                0
            };
            Some((whole * 1000 + frac) as int)
        }
    }
}

/// Parses the decimal number that starts at `p` into thousandths.
pub fn parse_thousandths(s: &[u8], p: usize) -> (r: Option<u64>)
    requires
        p <= s@.len(),
    ensures
        r matches Some(v) ==> thousandths_at(s@, p as int) == Some(v as int),
        r is None ==> thousandths_at(s@, p as int) is None,
{
    proof {
        reveal(thousandths_at);
    }
    let e = skip_digits(s, p);
    if e == p {
        return None;
    }
    let whole = match digits_up_to(s, p, e, MAX_WHOLE) {
        Some(w) => w,
        None => {
            return None;
        },
    };
    let mut frac: u64 = 0;
    if e < s.len() && s[e] == 46 {
        let fe = skip_digits(s, e + 1);
        let n = fe - (e + 1);
        let take = if n >= 3 {
            e + 4
        } else {
            fe
        };
        proof {
            lemma_three_digits(s@.subrange(e + 1, take as int));
        }
        let v = match digits_up_to(s, e + 1, take, 999) {
            Some(v) => v,
            None => 0,
        };
        proof {
            let d = s@.subrange(e + 1, fe as int);
            if n >= 3 {
                assert(d.subrange(0, 3) =~= s@.subrange(e + 1, take as int));
            } else {
                assert(d =~= s@.subrange(e + 1, take as int));
            }
            assert(n >= 3 ==> fraction_thousandths(d) == digits_value(s@.subrange(e + 1, take as int)));
        }
        frac = if n >= 3 {
            v
        } else if n == 2 {
            v * 10
        } else if n == 1 {
            v * 100
        } else {
            0
        };
    }
    Some(whole * 1000 + frac)
}


pub open spec fn is_digit(b: u8) -> bool {
    48 <= b <= 57
}

/// ASCII whitespace: space, tab, line feed, vertical tab, form feed, carriage return.
pub open spec fn is_space(b: u8) -> bool {
    b == 32 || (9 <= b <= 13)
}

/// `needle` occurs in `hay` starting at `i`.
pub open spec fn occurs_at(hay: Seq<u8>, needle: Seq<u8>, i: int) -> bool {
    0 <= i && i + needle.len() <= hay.len() && hay.subrange(i, i + needle.len()) == needle
}

/// The first position at which `needle` occurs, if any.
#[verifier::opaque]
pub open spec fn first_occurrence(hay: Seq<u8>, needle: Seq<u8>) -> Option<int> {
    if exists|i: int| occurs_at(hay, needle, i) {
        let i = choose|i: int|
            occurs_at(hay, needle, i) && forall|j: int| 0 <= j < i ==> !occurs_at(hay, needle, j);
        Some(i)
    } else {
        None
    }
}

/// The end of the run of digits that starts at `p`.
pub open spec fn digit_end(s: Seq<u8>, p: int) -> int
    decreases s.len() - p,
{
    if 0 <= p < s.len() && is_digit(s[p]) {
        digit_end(s, p + 1)
    } else {
        p
    }
}

/// The end of the run of whitespace that starts at `p`.
pub open spec fn space_end(s: Seq<u8>, p: int) -> int
    decreases s.len() - p,
{
    if 0 <= p < s.len() && is_space(s[p]) {
        space_end(s, p + 1)
    } else {
        p
    }
}

/// The value of a string of decimal digits.
pub open spec fn digits_value(d: Seq<u8>) -> nat
    decreases d.len(),
{
    if d.len() == 0 {
        0
    } else {
        digits_value(d.drop_last()) * 10 + (d.last() - 48) as nat
    }
}

/// Thousandths given by a string of fraction digits (digits past the third are ignored).
pub open spec fn fraction_thousandths(d: Seq<u8>) -> nat {
    if d.len() >= 3 {
        digits_value(d.subrange(0, 3))
    } else if d.len() == 2 {
        digits_value(d) * 10
    } else if d.len() == 1 {
        digits_value(d) * 100
    } else {
        0
    }
}

pub proof fn lemma_first_occurrence(hay: Seq<u8>, needle: Seq<u8>, i: int)
    requires
        occurs_at(hay, needle, i),
        forall|j: int| 0 <= j < i ==> !occurs_at(hay, needle, j),
    ensures
        first_occurrence(hay, needle) == Some(i),
{
    reveal(first_occurrence);
    let k = choose|k: int|
        occurs_at(hay, needle, k) && forall|j: int| 0 <= j < k ==> !occurs_at(hay, needle, j);
    assert(!(k < i));
    assert(!(i < k));
}

/// A copy of `s[a..b]`.
pub fn copy_range(s: &[u8], a: usize, b: usize) -> (r: Vec<u8>)
    requires
        a <= b <= s@.len(),
    ensures
        r@ == s@.subrange(a as int, b as int),
{
    let mut r: Vec<u8> = Vec::new();
    let mut k = a;
    while k < b
        invariant
            a <= k <= b <= s@.len(),
            r@ == s@.subrange(a as int, k as int),
        decreases b - k,
    {
        r.push(s[k]);
        k = k + 1;
        assert(r@ =~= s@.subrange(a as int, k as int));
    }
    r
}

/// Whether two byte strings are equal.
pub fn same_bytes(a: &[u8], b: &[u8]) -> (r: bool)
    ensures
        r == (a@ == b@),
{
    if a.len() != b.len() {
        return false;
    }
    let mut i: usize = 0;
    while i < a.len()
        invariant
            a@.len() == b@.len(),
            i <= a@.len(),
            forall|k: int| 0 <= k < i ==> a@[k] == b@[k],
        decreases a@.len() - i,
    {
        if a[i] != b[i] {
            return false;
        }
        i = i + 1;
    }
    assert(a@ =~= b@);
    true
}

/// The first position at which `needle` occurs in `hay`.
pub fn find(hay: &[u8], needle: &[u8]) -> (r: Option<usize>)
    ensures
        r matches Some(i) ==> first_occurrence(hay@, needle@) == Some(i as int) && occurs_at(
            hay@,
            needle@,
            i as int,
        ) && hay@.len() <= usize::MAX,
        r is None ==> first_occurrence(hay@, needle@) is None,
{
    if needle.len() > hay.len() {
        assert forall|j: int| !occurs_at(hay@, needle@, j) by {}
        proof {
            reveal(first_occurrence);
        }
        return None;
    }
    if needle.len() == 0 {
        assert(hay@.subrange(0, 0) =~= needle@);
        proof {
            lemma_first_occurrence(hay@, needle@, 0);
        }
        return Some(0);
    }
    let last: usize = hay.len() - needle.len();
    assert(hay@.len() <= usize::MAX);
    let mut i: usize = 0;
    while i <= last
        invariant
            1 <= needle@.len() <= hay@.len() <= usize::MAX,
            last == hay@.len() - needle@.len(),
            i <= last + 1,
            forall|j: int| 0 <= j < i ==> !occurs_at(hay@, needle@, j),
        decreases last + 1 - i,
    {
        let mut k: usize = 0;
        let mut same = true;
        while k < needle.len()
            invariant
                i <= last,
                1 <= needle@.len() <= hay@.len() <= usize::MAX,
                last == hay@.len() - needle@.len(),
                k <= needle@.len(),
                same == (forall|t: int| 0 <= t < k ==> hay@[i + t] == needle@[t]),
            decreases needle@.len() - k,
        {
            if hay[i + k] != needle[k] {
                same = false;
            }
            k = k + 1;
        }
        if same {
            assert(hay@.subrange(i as int, i + needle@.len()) =~= needle@);
            proof {
                lemma_first_occurrence(hay@, needle@, i as int);
            }
            return Some(i);
        }
        assert(!occurs_at(hay@, needle@, i as int)) by {
            if occurs_at(hay@, needle@, i as int) {
                let t = choose|t: int| 0 <= t < k && hay@[i + t] != needle@[t];
                assert(hay@.subrange(i as int, i + needle@.len())[t] == needle@[t]);
            }
        }
        i = i + 1;
    }
    assert forall|j: int| !occurs_at(hay@, needle@, j) by {
        if occurs_at(hay@, needle@, j) {
            assert(0 <= j < i);
        }
    }
    proof {
        reveal(first_occurrence);
    }
    None
}

/// The end of the run of digits that starts at `p`.
pub fn skip_digits(s: &[u8], p: usize) -> (r: usize)
    requires
        p <= s@.len(),
    ensures
        r as int == digit_end(s@, p as int),
        p <= r <= s@.len(),
        forall|k: int| p <= k < r ==> is_digit(#[trigger] s@[k]),
{
    let mut k = p;
    while k < s.len() && 48 <= s[k] && s[k] <= 57
        invariant
            p <= k <= s@.len(),
            digit_end(s@, p as int) == digit_end(s@, k as int),
            forall|t: int| p <= t < k ==> is_digit(#[trigger] s@[t]),
        decreases s@.len() - k,
    {
        k = k + 1;
    }
    k
}

/// The end of the run of whitespace that starts at `p`.
pub fn skip_spaces(s: &[u8], p: usize) -> (r: usize)
    requires
        p <= s@.len(),
    ensures
        r as int == space_end(s@, p as int),
        p <= r <= s@.len(),
{
    let mut k = p;
    while k < s.len() && (s[k] == 32 || (9 <= s[k] && s[k] <= 13))
        invariant
            p <= k <= s@.len(),
            space_end(s@, p as int) == space_end(s@, k as int),
        decreases s@.len() - k,
    {
        k = k + 1;
    }
    k
}

/// The value of the digits `s[a..b]`, or `None` when it exceeds `limit`.
pub fn digits_up_to(s: &[u8], a: usize, b: usize, limit: u64) -> (r: Option<u64>)
    requires
        a <= b <= s@.len(),
        forall|k: int| a <= k < b ==> is_digit(#[trigger] s@[k]),
    ensures
        r matches Some(v) ==> v as int == digits_value(s@.subrange(a as int, b as int))
            && v <= limit,
        r is None ==> digits_value(s@.subrange(a as int, b as int)) > limit,
{
    let mut v: u64 = 0;
    let mut k = a;
    while k < b
        invariant
            a <= k <= b <= s@.len(),
            forall|t: int| a <= t < b ==> is_digit(#[trigger] s@[t]),
            v as int == digits_value(s@.subrange(a as int, k as int)),
            v <= limit,
        decreases b - k,
    {
        let d: u64 = (s[k] - 48) as u64;
        assert(s@.subrange(a as int, k + 1).drop_last() =~= s@.subrange(a as int, k as int));
        if v > limit / 10 || v * 10 > limit || d > limit - v * 10 {
            proof {
                assert(v * 10 + d > limit) by (nonlinear_arith)
                    requires
                        v > limit / 10 || v * 10 > limit || d > limit - v * 10,
                ;
                assert(s@.subrange(a as int, k + 1) =~= s@.subrange(a as int, b as int).subrange(
                    0,
                    k + 1 - a,
                ));
                lemma_digits_grow(s@.subrange(a as int, k + 1), s@.subrange(a as int, b as int));
            }
            return None;
        }
        v = v * 10 + d;
        k = k + 1;
    }
    Some(v)
}

/// At `i` stands `key`, optional whitespace, and at least one digit.
pub open spec fn key_number_at(s: Seq<u8>, key: Seq<u8>, i: int) -> bool {
    occurs_at(s, key, i) && digit_end(s, space_end(s, i + key.len())) > space_end(
        s,
        i + key.len(),
    )
}

/// The leftmost position where `key`, optional whitespace and digits stand.
#[verifier::opaque]
pub open spec fn first_key_number(s: Seq<u8>, key: Seq<u8>) -> Option<int> {
    if exists|i: int| key_number_at(s, key, i) {
        Some(
            choose|i: int|
                key_number_at(s, key, i) && forall|j: int| 0 <= j < i ==> !key_number_at(s, key, j),
        )
    } else {
        None
    }
}

/// The number that follows the leftmost `key` (after optional whitespace).
pub open spec fn number_after_key(s: Seq<u8>, key: Seq<u8>) -> Option<nat> {
    match first_key_number(s, key) {
        Some(i) => {
            let p = space_end(s, i + key.len());
            Some(digits_value(s.subrange(p, digit_end(s, p))))
        },
        None => None,
    }
}

/// Whether `needle` occurs in `hay` at `i`.
pub fn occurs(hay: &[u8], needle: &[u8], i: usize) -> (r: bool)
    ensures
        r == occurs_at(hay@, needle@, i as int),
{
    if i > hay.len() || needle.len() > hay.len() - i {
        return false;
    }
    assert(hay@.len() <= usize::MAX);
    let mut k: usize = 0;
    while k < needle.len()
        invariant
            i + needle@.len() <= hay@.len() <= usize::MAX,
            k <= needle@.len(),
            forall|t: int| 0 <= t < k ==> hay@[i + t] == needle@[t],
        decreases needle@.len() - k,
    {
        if hay[i + k] != needle[k] {
            assert(hay@.subrange(i as int, i + needle@.len())[k as int] != needle@[k as int]);
            return false;
        }
        k = k + 1;
    }
    assert(hay@.subrange(i as int, i + needle@.len()) =~= needle@);
    true
}

/// The number after the leftmost `key`, as in `frame=  42`, or `None` when no
/// such number stands in `s` or it exceeds `limit`.
pub fn number_after(s: &[u8], key: &[u8], limit: u64) -> (r: Option<u64>)
    ensures
        r matches Some(v) ==> number_after_key(s@, key@) == Some(v as nat) && v <= limit,
        r is None ==> match number_after_key(s@, key@) {
            Some(v) => v > limit,
            None => true,
        },
{
    let n = s.len();
    let mut i: usize = 0;
    while i < n
        invariant
            n == s@.len(),
            i <= n,
            forall|j: int| 0 <= j < i ==> !key_number_at(s@, key@, j),
        decreases n - i,
    {
        if occurs(s, key, i) {
            let p = skip_spaces(s, i + key.len());
            let e = skip_digits(s, p);
            if e > p {
                proof {
                    lemma_first_key_number(s@, key@, i as int);
                }
                return digits_up_to(s, p, e, limit);
            }
        }
        i = i + 1;
    }
    proof {
        assert forall|j: int| !key_number_at(s@, key@, j) by {
            if key_number_at(s@, key@, j) {
                assert(0 <= j < n);
            }
        }
        reveal(first_key_number);
    }
    None
}

proof fn lemma_first_key_number(s: Seq<u8>, key: Seq<u8>, i: int)
    requires
        key_number_at(s, key, i),
        forall|j: int| 0 <= j < i ==> !key_number_at(s, key, j),
    ensures
        first_key_number(s, key) == Some(i),
{
    reveal(first_key_number);
    let k = choose|k: int|
        key_number_at(s, key, k) && forall|j: int| 0 <= j < k ==> !key_number_at(s, key, j);
    assert(!(k < i));
    assert(!(i < k));
}

/// The decimal digits of `n`, without leading zeros.
pub open spec fn decimal(n: nat) -> Seq<u8>
    decreases n,
{
    if n < 10 {
        seq![(48 + n) as u8]
    } else {
        decimal(n / 10).push((48 + n % 10) as u8)
    }
}

/// The decimal digits of `n`, with leading zeros up to `width` digits.
pub open spec fn padded_decimal(n: nat, width: nat) -> Seq<u8> {
    let d = decimal(n);
    if d.len() >= width {
        d
    } else {
        Seq::new((width - d.len()) as nat, |i: int| 48u8) + d
    }
}

/// Appends the decimal digits of `n`.
pub fn push_decimal(out: &mut Vec<u8>, n: u64)
    ensures
        final(out)@ == old(out)@ + decimal(n as nat),
    decreases n,
{
    if n >= 10 {
        push_decimal(out, n / 10);
    }
    out.push(48 + (n % 10) as u8);
    proof {
        if n < 10 {
            assert(decimal(n as nat) =~= seq![(48 + n) as u8]);
        }
    }
    assert(final(out)@ =~= old(out)@ + decimal(n as nat));
}

/// Appends the decimal digits of `n`, zero-padded to `width` digits.
pub fn push_padded(out: &mut Vec<u8>, n: u64, width: usize)
    ensures
        final(out)@ == old(out)@ + padded_decimal(n as nat, width as nat),
{
    let mut d: Vec<u8> = Vec::new();
    push_decimal(&mut d, n);
    assert(d@ =~= decimal(n as nat));
    let ghost start = out@;
    if d.len() < width {
        let mut k: usize = 0;
        while k < width - d.len()
            invariant
                d@ == decimal(n as nat),
                d@.len() < width,
                k <= width - d@.len(),
                out@ == start + Seq::new(k as nat, |i: int| 48u8),
            decreases width - d@.len() - k,
        {
            out.push(48);
            k = k + 1;
            assert(out@ =~= start + Seq::new(k as nat, |i: int| 48u8));
        }
    }
    let mut j: usize = 0;
    let ghost mid = out@;
    while j < d.len()
        invariant
            j <= d@.len(),
            out@ == mid + d@.subrange(0, j as int),
        decreases d@.len() - j,
    {
        out.push(d[j]);
        j = j + 1;
        assert(out@ =~= mid + d@.subrange(0, j as int));
    }
    assert(d@.subrange(0, j as int) =~= d@);
    assert(out@ =~= start + padded_decimal(n as nat, width as nat));
}

/// At most three digits are worth at most 999.
pub proof fn lemma_three_digits(d: Seq<u8>)
    requires
        d.len() <= 3,
        forall|k: int| 0 <= k < d.len() ==> is_digit(#[trigger] d[k]),
    ensures
        digits_value(d) <= 999,
{
    reveal_with_fuel(digits_value, 4);
    if d.len() >= 1 {
        assert(is_digit(d[d.len() - 1]));
    }
    if d.len() >= 2 {
        assert(is_digit(d.drop_last()[d.len() - 2]));
    }
    if d.len() >= 3 {
        assert(is_digit(d.drop_last().drop_last()[0]));
    }
}

/// Appending digits never makes the value smaller.
pub proof fn lemma_digits_grow(p: Seq<u8>, s: Seq<u8>)
    requires
        p.len() <= s.len(),
        p == s.subrange(0, p.len() as int),
        forall|k: int| 0 <= k < s.len() ==> is_digit(#[trigger] s[k]),
    ensures
        digits_value(p) <= digits_value(s),
    decreases s.len(),
{
    if p.len() < s.len() {
        assert(s.drop_last().subrange(0, p.len() as int) =~= p);
        lemma_digits_grow(p, s.drop_last());
    } else {
        assert(p =~= s);
    }
}

} // verus!
