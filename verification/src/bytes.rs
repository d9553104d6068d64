//! Byte-level scanning primitives shared by the parser and the serializer:
//! whitespace classification, line and token boundaries, trimming, and
//! decimal numerals.

use vstd::prelude::*;

verus! {

/// ASCII whitespace as the protocol engine understands it:
/// space, horizontal tab, carriage return, line feed.
pub open spec fn is_ws(b: u8) -> bool {
    b == 32 || b == 9 || b == 13 || b == 10
}

/// Index of the first non-whitespace byte at or after `i`, or `s.len()`.
pub open spec fn skip_ws(s: Seq<u8>, i: int) -> int
    decreases s.len() - i,
{
    if i < 0 || i >= s.len() {
        s.len() as int
    } else if is_ws(s[i]) {
        skip_ws(s, i + 1)
    } else {
        i
    }
}

/// Index of the first whitespace byte at or after `i`, or `s.len()`.
pub open spec fn token_end(s: Seq<u8>, i: int) -> int
    decreases s.len() - i,
{
    if i < 0 || i >= s.len() {
        s.len() as int
    } else if is_ws(s[i]) {
        i
    } else {
        token_end(s, i + 1)
    }
}

/// Index of the first line feed at or after `i`, or `s.len()`.
pub open spec fn line_end(s: Seq<u8>, i: int) -> int
    decreases s.len() - i,
{
    if i < 0 || i >= s.len() {
        s.len() as int
    } else if s[i] == 10 {
        i
    } else {
        line_end(s, i + 1)
    }
}

/// Position of the first `": "` at or after `i`, if any.
pub open spec fn find_sep(s: Seq<u8>, i: int) -> Option<int>
    decreases s.len() - i,
{
    if i < 0 || i + 1 >= s.len() {
        None
    } else if s[i] == 58 && s[i + 1] == 32 {
        Some(i)
    } else {
        find_sep(s, i + 1)
    }
}

/// Index right after the last non-whitespace byte strictly before `j`, or 0.
pub open spec fn end_trim(s: Seq<u8>, j: int) -> int
    decreases j,
{
    if j <= 0 {
        0
    } else if is_ws(s[j - 1]) {
        end_trim(s, j - 1)
    } else {
        j
    }
}

/// `s` with leading and trailing whitespace removed.
pub open spec fn spec_trim(s: Seq<u8>) -> Seq<u8> {
    let a = skip_ws(s, 0);
    let b = end_trim(s, s.len() as int);
    if a <= b {
        s.subrange(a, b)
    } else {
        Seq::empty()
    }
}

/// A line with its one trailing carriage return removed, if it has one;
/// this is what tolerates both CR-LF and bare-LF line endings.
pub open spec fn trim_cr(s: Seq<u8>) -> Seq<u8> {
    if s.len() > 0 && s[s.len() - 1] == 13 {
        s.drop_last()
    } else {
        s
    }
}

/// Every byte of `s` is an ASCII decimal digit, and there is at least one.
pub open spec fn is_digits(s: Seq<u8>) -> bool {
    s.len() > 0 && forall|i: int| 0 <= i < s.len() ==> 48 <= #[trigger] s[i] <= 57
}

/// The integer a digit string denotes (meaningful when `is_digits(s)`).
pub open spec fn dec_val(s: Seq<u8>) -> int
    decreases s.len(),
{
    if s.len() == 0 {
        0
    } else {
        10 * dec_val(s.drop_last()) + (s.last() - 48)
    }
}

/// The shortest decimal numeral of `n`, as bytes.
pub open spec fn dec_of(n: nat) -> Seq<u8>
    decreases n,
{
    if n < 10 {
        seq![(48 + n) as u8]
    } else {
        dec_of(n / 10).push((48 + n % 10) as u8)
    }
}

pub proof fn lemma_skip_ws_char(s: Seq<u8>, i: int, j: int)
    requires
        0 <= i <= j <= s.len(),
        forall|k: int| i <= k < j ==> is_ws(#[trigger] s[k]),
        j < s.len() ==> !is_ws(s[j]),
    ensures
        skip_ws(s, i) == j,
    decreases j - i,
{
    if i < j {
        lemma_skip_ws_char(s, i + 1, j);
    }
}

pub proof fn lemma_token_end_char(s: Seq<u8>, i: int, j: int)
    requires
        0 <= i <= j <= s.len(),
        forall|k: int| i <= k < j ==> !is_ws(#[trigger] s[k]),
        j < s.len() ==> is_ws(s[j]),
    ensures
        token_end(s, i) == j,
    decreases j - i,
{
    if i < j {
        lemma_token_end_char(s, i + 1, j);
    }
}

pub proof fn lemma_line_end_char(s: Seq<u8>, i: int, j: int)
    requires
        0 <= i <= j <= s.len(),
        forall|k: int| i <= k < j ==> #[trigger] s[k] != 10,
        j < s.len() ==> s[j] == 10,
    ensures
        line_end(s, i) == j,
    decreases j - i,
{
    if i < j {
        lemma_line_end_char(s, i + 1, j);
    }
}

pub proof fn lemma_find_sep_char(s: Seq<u8>, i: int, j: int)
    requires
        0 <= i <= j,
        j + 1 < s.len(),
        forall|k: int| i <= k < j ==> !(#[trigger] s[k] == 58 && s[k + 1] == 32),
        s[j] == 58 && s[j + 1] == 32,
    ensures
        find_sep(s, i) == Some(j),
    decreases j - i,
{
    if i < j {
        lemma_find_sep_char(s, i + 1, j);
    }
}

/// Bounds that every use of `skip_ws` may rely on, with what the scan saw.
pub proof fn lemma_skip_ws_bounds(s: Seq<u8>, i: int)
    requires
        0 <= i <= s.len(),
    ensures
        i <= skip_ws(s, i) <= s.len(),
        forall|k: int| i <= k < skip_ws(s, i) ==> is_ws(#[trigger] s[k]),
        skip_ws(s, i) < s.len() ==> !is_ws(s[skip_ws(s, i)]),
    decreases s.len() - i,
{
    if i < s.len() && is_ws(s[i]) {
        lemma_skip_ws_bounds(s, i + 1);
    }
}

/// A digit string read left to right grows monotonically: every prefix
/// denotes no more than the whole.
pub proof fn lemma_dec_val_prefix(s: Seq<u8>, i: int)
    requires
        0 <= i <= s.len(),
        forall|k: int| 0 <= k < s.len() ==> 48 <= #[trigger] s[k] <= 57,
    ensures
        0 <= dec_val(s.subrange(0, i)) <= dec_val(s),
    decreases s.len() - i,
{
    lemma_dec_val_nonneg(s.subrange(0, i));
    if i < s.len() {
        lemma_dec_val_prefix(s, i + 1);
        let t = s.subrange(0, i + 1);
        assert(t.drop_last() =~= s.subrange(0, i));
        assert(dec_val(t) == 10 * dec_val(s.subrange(0, i)) + (s[i] - 48));
    } else {
        assert(s.subrange(0, i) =~= s);
    }
}

pub proof fn lemma_dec_val_nonneg(s: Seq<u8>)
    requires
        forall|k: int| 0 <= k < s.len() ==> 48 <= #[trigger] s[k] <= 57,
    ensures
        dec_val(s) >= 0,
    decreases s.len(),
{
    if s.len() > 0 {
        assert(forall|k: int| 0 <= k < s.drop_last().len() ==> 48 <= #[trigger] s.drop_last()[k] <= 57);
        lemma_dec_val_nonneg(s.drop_last());
    }
}

/// The numeral of `n` reads back as `n`, and is made of digits.
pub proof fn lemma_dec_of_val(n: nat)
    ensures
        is_digits(dec_of(n)),
        dec_val(dec_of(n)) == n,
        forall|i: int| 0 <= i < dec_of(n).len() ==> 48 <= #[trigger] dec_of(n)[i] <= 57,
    decreases n,
{
    if n < 10 {
        let d = dec_of(n);
        assert(d.len() == 1);
        assert(dec_val(d.drop_last()) == 0);
        assert(dec_val(d) == d.last() - 48);
        assert(dec_val(d) == n);
    } else {
        lemma_dec_of_val(n / 10);
        let d = dec_of(n);
        assert(d.drop_last() =~= dec_of(n / 10));
        assert(d.last() == (48 + n % 10) as u8);
        assert(d.last() - 48 == n % 10);
        vstd::arithmetic::div_mod::lemma_fundamental_div_mod(n as int, 10);
        assert(dec_val(d) == 10 * dec_val(dec_of(n / 10)) + (d.last() - 48));
        assert(dec_val(d) == n);
    }
}

/// A sequence trims to empty exactly when it is all whitespace.
pub proof fn lemma_trim_empty_iff_all_ws(s: Seq<u8>)
    ensures
        spec_trim(s).len() == 0 <==> (forall|k: int| 0 <= k < s.len() ==> is_ws(#[trigger] s[k])),
{
    lemma_skip_ws_bounds(s, 0);
    lemma_end_trim_bounds(s, s.len() as int);
    let a = skip_ws(s, 0);
    let b = end_trim(s, s.len() as int);
    if forall|k: int| 0 <= k < s.len() ==> is_ws(#[trigger] s[k]) {
        assert(a == s.len());
    } else {
        let w = choose|k: int| 0 <= k < s.len() && !is_ws(#[trigger] s[k]);
        assert(a <= w);
        assert(b > w);
    }
}

pub proof fn lemma_end_trim_bounds(s: Seq<u8>, j: int)
    requires
        0 <= j <= s.len(),
    ensures
        0 <= end_trim(s, j) <= j,
        forall|k: int| end_trim(s, j) <= k < j ==> is_ws(#[trigger] s[k]),
        end_trim(s, j) > 0 ==> !is_ws(s[end_trim(s, j) - 1]),
    decreases j,
{
    if j > 0 && is_ws(s[j - 1]) {
        lemma_end_trim_bounds(s, j - 1);
    }
}

/// Trimming a sequence that starts and ends with non-whitespace changes nothing.
pub proof fn lemma_trim_fixed(s: Seq<u8>)
    requires
        s.len() > 0,
        !is_ws(s[0]),
        !is_ws(s[s.len() - 1]),
    ensures
        spec_trim(s) == s,
{
    assert(skip_ws(s, 0) == 0);
    assert(end_trim(s, s.len() as int) == s.len());
    assert(s.subrange(0, s.len() as int) =~= s);
}

/// Whether one byte is ASCII whitespace, decided at run time.
pub fn ws_byte(b: u8) -> (r: bool)
    ensures
        r == is_ws(b),
{
    b == 32 || b == 9 || b == 13 || b == 10
}

/// Whether two byte slices hold the same bytes.
pub fn bytes_eq(a: &[u8], b: &[u8]) -> (r: bool)
    ensures
        r == (a@ == b@),
{
    if a.len() != b.len() {
        assert(a@ != b@);
        return false;
    }
    let n = a.len();
    let mut i: usize = 0;
    while i < n
        invariant
            0 <= i <= n,
            n == a@.len() == b@.len(),
            forall|k: int| 0 <= k < i ==> a@[k] == b@[k],
        decreases n - i,
    {
        if a[i] != b[i] {
            assert(a@ != b@);
            return false;
        }
        i = i + 1;
    }
    assert(a@ =~= b@);
    true
}

/// Whether `s` begins with the bytes of `pre`.
pub fn starts_with(s: &[u8], pre: &[u8]) -> (r: bool)
    ensures
        r == (s@.len() >= pre@.len() && s@.subrange(0, pre@.len() as int) == pre@),
{
    if s.len() < pre.len() {
        return false;
    }
    let n = pre.len();
    let mut i: usize = 0;
    while i < n
        invariant
            0 <= i <= n,
            n == pre@.len() <= s@.len(),
            forall|k: int| 0 <= k < i ==> s@[k] == pre@[k],
        decreases n - i,
    {
        if s[i] != pre[i] {
            assert(s@.subrange(0, pre@.len() as int)[i as int] == s@[i as int]);
            assert(s@.subrange(0, pre@.len() as int) != pre@);
            return false;
        }
        i = i + 1;
    }
    assert(s@.subrange(0, pre@.len() as int) =~= pre@);
    true
}

/// A fresh copy of the bytes of `s` between `i` and `j`.
pub fn copy_range(s: &[u8], i: usize, j: usize) -> (r: Vec<u8>)
    requires
        i <= j <= s@.len(),
    ensures
        r@ == s@.subrange(i as int, j as int),
{
    let mut r: Vec<u8> = Vec::new();
    let mut k: usize = i;
    while k < j
        invariant
            i <= k <= j <= s@.len(),
            r@ == s@.subrange(i as int, k as int),
        decreases j - k,
    {
        r.push(s[k]);
        assert(r@ =~= s@.subrange(i as int, k as int + 1));
        k = k + 1;
    }
    r
}

/// The first non-whitespace position at or after `i`, at run time.
pub fn skip_ws_at(s: &[u8], i: usize) -> (r: usize)
    requires
        i <= s@.len(),
    ensures
        r == skip_ws(s@, i as int),
        i <= r <= s@.len(),
{
    let n = s.len();
    let mut k: usize = i;
    while k < n && ws_byte(s[k])
        invariant
            i <= k <= n,
            n == s@.len(),
            skip_ws(s@, i as int) == skip_ws(s@, k as int),
        decreases n - k,
    {
        k = k + 1;
    }
    k
}

/// The first whitespace position at or after `i`, at run time.
pub fn token_end_at(s: &[u8], i: usize) -> (r: usize)
    requires
        i <= s@.len(),
    ensures
        r == token_end(s@, i as int),
        i <= r <= s@.len(),
{
    let n = s.len();
    let mut k: usize = i;
    while k < n && !ws_byte(s[k])
        invariant
            i <= k <= n,
            n == s@.len(),
            token_end(s@, i as int) == token_end(s@, k as int),
        decreases n - k,
    {
        k = k + 1;
    }
    k
}

/// The first line feed position at or after `i`, at run time.
pub fn line_end_at(s: &[u8], i: usize) -> (r: usize)
    requires
        i <= s@.len(),
    ensures
        r == line_end(s@, i as int),
        i <= r <= s@.len(),
{
    let n = s.len();
    let mut k: usize = i;
    while k < n && s[k] != 10
        invariant
            i <= k <= n,
            n == s@.len(),
            line_end(s@, i as int) == line_end(s@, k as int),
        decreases n - k,
    {
        k = k + 1;
    }
    k
}

/// The first `": "` position at or after `i`, at run time.
pub fn find_sep_at(s: &[u8], i: usize) -> (r: Option<usize>)
    requires
        i <= s@.len(),
    ensures
        match r {
            Some(j) => find_sep(s@, i as int) == Some(j as int) && i <= j && j + 1 < s@.len(),
            None => find_sep(s@, i as int) == None::<int>,
        },
{
    let n = s.len();
    if n == 0 {
        return None;
    }
    let mut k: usize = i;
    while k < n - 1 && !(s[k] == 58 && s[k + 1] == 32)
        invariant
            i <= k <= n,
            n == s@.len(),
            n > 0,
            find_sep(s@, i as int) == find_sep(s@, k as int),
        decreases n - k,
    {
        k = k + 1;
    }
    if k < n - 1 {
        Some(k)
    } else {
        None
    }
}

/// `s` with leading and trailing whitespace removed, at run time.
pub fn trim(s: &[u8]) -> (r: Vec<u8>)
    ensures
        r@ == spec_trim(s@),
{
    let a = skip_ws_at(s, 0);
    let n = s.len();
    let mut b: usize = n;
    while b > 0 && ws_byte(s[b - 1])
        invariant
            0 <= b <= n,
            n == s@.len(),
            end_trim(s@, n as int) == end_trim(s@, b as int),
        decreases b,
    {
        b = b - 1;
    }
    if a <= b {
        copy_range(s, a, b)
    } else {
        let r: Vec<u8> = Vec::new();
        assert(r@ =~= spec_trim(s@));
        r
    }
}

/// The value of a digit string, when it is one and fits the machine;
/// this is how a `Content-Length` value is read.
pub fn parse_dec(s: &[u8]) -> (r: Option<usize>)
    ensures
        match r {
            Some(v) => is_digits(s@) && dec_val(s@) == v,
            None => !(is_digits(s@) && dec_val(s@) <= usize::MAX),
        },
{
    let n = s.len();
    if n == 0 {
        return None;
    }
    let mut acc: usize = 0;
    let mut i: usize = 0;
    while i < n
        invariant
            0 <= i <= n,
            n == s@.len(),
            n > 0,
            forall|k: int| 0 <= k < i ==> 48 <= #[trigger] s@[k] <= 57,
            acc == dec_val(s@.subrange(0, i as int)),
        decreases n - i,
    {
        let c = s[i];
        if c < 48 || c > 57 {
            assert(!is_digits(s@));
            return None;
        }
        let d = (c - 48) as usize;
        proof {
            let t = s@.subrange(0, i as int + 1);
            assert(t.drop_last() =~= s@.subrange(0, i as int));
            assert(dec_val(t) == 10 * acc + d);
        }
        if acc > usize::MAX / 10 || (acc == usize::MAX / 10 && d > usize::MAX % 10) {
            proof {
                assert(10 * acc + d > usize::MAX);
                if is_digits(s@) {
                    lemma_dec_val_prefix(s@, i as int + 1);
                    assert(dec_val(s@) >= dec_val(s@.subrange(0, i as int + 1)));
                    assert(dec_val(s@) > usize::MAX);
                }
            }
            return None;
        }
        assert(10 * acc + d <= usize::MAX);
        acc = acc * 10 + d;
        i = i + 1;
    }
    proof {
        assert(s@.subrange(0, n as int) =~= s@);
    }
    Some(acc)
}

/// Appends the bytes of `src` to `out`.
pub fn push_all(out: &mut Vec<u8>, src: &[u8])
    ensures
        final(out)@ == old(out)@ + src@,
{
    let n = src.len();
    let mut i: usize = 0;
    while i < n
        invariant
            0 <= i <= n,
            n == src@.len(),
            out@ == old(out)@ + src@.subrange(0, i as int),
        decreases n - i,
    {
        out.push(src[i]);
        assert(out@ =~= old(out)@ + src@.subrange(0, i as int + 1));
        i = i + 1;
    }
    assert(src@.subrange(0, n as int) =~= src@);
}

/// Appends the decimal numeral of `n` to `out`.
pub fn push_dec(out: &mut Vec<u8>, n: usize)
    ensures
        final(out)@ == old(out)@ + dec_of(n as nat),
    decreases n,
{
    if n < 10 {
        out.push((48 + n) as u8);
        assert(out@ =~= old(out)@ + dec_of(n as nat));
    } else {
        push_dec(out, n / 10);
        out.push((48 + n % 10) as u8);
        assert(out@ =~= old(out)@ + dec_of(n as nat));
    }
}

} // verus!
