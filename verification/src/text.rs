//! Character-level helpers shared by the parsers and formatters.

use vstd::prelude::*;

verus! {

/// The code of `c` after ASCII lower-casing (only `A`..=`Z` change).
pub open spec fn lower_code(c: char) -> u32 {
    if 65 <= (c as u32) && (c as u32) <= 90 {
        ((c as u32) + 32) as u32
    } else {
        c as u32
    }
}

/// `s`, lower-cased in ASCII, equals `lit`.
pub open spec fn lower_eq(s: Seq<char>, lit: Seq<char>) -> bool {
    &&& s.len() == lit.len()
    &&& forall|i: int| 0 <= i < s.len() ==> lower_code(#[trigger] s[i]) == (lit[i] as u32)
}

/// Whether `s` equals `lit` once `s` is lower-cased in ASCII.
pub fn eq_ignore_ascii_case(s: &str, lit: &str) -> (r: bool)
    ensures
        r == lower_eq(s@, lit@),
{
    let n = s.unicode_len();
    let m = lit.unicode_len();
    if n != m {
        return false;
    }
    let mut i: usize = 0;
    while i < n
        invariant
            n == s@.len(),
            m == lit@.len(),
            n == m,
            i <= n,
            forall|j: int| 0 <= j < i ==> lower_code(#[trigger] s@[j]) == (lit@[j] as u32),
        decreases n - i,
    {
        let c = s.get_char(i);
        let l = lit.get_char(i);
        let cc = c as u32;
        let lower: u32 = if 65 <= cc && cc <= 90 { cc + 32 } else { cc };
        if lower != l as u32 {
            return false;
        }
        i = i + 1;
    }
    true
}

} // verus!

verus! {

/// The character of a decimal digit.
pub open spec fn digit_char(d: int) -> char {
    if d == 0 { '0' }
    else if d == 1 { '1' }
    else if d == 2 { '2' }
    else if d == 3 { '3' }
    else if d == 4 { '4' }
    else if d == 5 { '5' }
    else if d == 6 { '6' }
    else if d == 7 { '7' }
    else if d == 8 { '8' }
    else { '9' }
}

/// Decimal text of a natural number, without leading zeros.
pub open spec fn dec(n: nat) -> Seq<char>
    decreases n,
{
    if n < 10 {
        seq![digit_char(n as int)]
    } else {
        dec(n / 10).push(digit_char((n % 10) as int))
    }
}

pub fn digit_to_char(d: u128) -> (c: char)
    requires
        d < 10,
    ensures
        c == digit_char(d as int),
{
    if d == 0 { '0' }
    else if d == 1 { '1' }
    else if d == 2 { '2' }
    else if d == 3 { '3' }
    else if d == 4 { '4' }
    else if d == 5 { '5' }
    else if d == 6 { '6' }
    else if d == 7 { '7' }
    else if d == 8 { '8' }
    else { '9' }
}

/// Appends the decimal text of `n`.
pub fn push_dec(out: &mut Vec<char>, n: u64)
    ensures
        final(out)@ == old(out)@ + dec(n as nat),
{
    push_dec128(out, n as u128);
}

/// Appends the decimal text of `n`.
pub fn push_dec128(out: &mut Vec<char>, n: u128)
    ensures
        final(out)@ == old(out)@ + dec(n as nat),
    decreases n,
{
    if n >= 10 {
        push_dec128(out, n / 10);
    }
    out.push(digit_to_char(n % 10));
    proof {
        if n >= 10 {
            assert(old(out)@ + dec(n as nat) =~= old(out)@ + dec((n / 10) as nat) + seq![digit_char((n % 10) as int)]);
        } else {
            assert(dec(n as nat) =~= seq![digit_char((n % 10) as int)]);
        }
    }
}

/// Appends the characters of `s`.
pub fn push_str_chars(out: &mut Vec<char>, s: &str)
    ensures
        final(out)@ == old(out)@ + s@,
{
    let n = s.unicode_len();
    let mut i: usize = 0;
    while i < n
        invariant
            n == s@.len(),
            i <= n,
            out@ == old(out)@ + s@.subrange(0, i as int),
        decreases n - i,
    {
        let c = s.get_char(i);
        out.push(c);
        assert(s@.subrange(0, i + 1) =~= s@.subrange(0, i as int).push(c));
        i = i + 1;
    }
    assert(s@.subrange(0, n as int) =~= s@);
}

/// Collects characters into a `String` (std's `FromIterator<char>`).
#[verifier::external_body]
pub(crate) fn string_from_chars(v: Vec<char>) -> (s: String)
    ensures
        s@ == v@,
{
    v.into_iter().collect()
}

} // verus!

verus! {

/// Whether a character has the Unicode `Alphabetic` property, as std's
/// `char::is_alphabetic` reports it.
pub uninterp spec fn unicode_alphabetic(c: char) -> bool;

/// std's `char::is_alphabetic`. Claimed: the result is the named
/// property of `c`, and among ASCII characters exactly the letters have it.
#[verifier::external_body]
pub(crate) fn char_is_alphabetic(c: char) -> (r: bool)
    ensures
        r == unicode_alphabetic(c),
        (c as u32) < 128 ==> (r <==> ((65 <= (c as u32) && (c as u32) <= 90) || (97 <= (c as u32)
            && (c as u32) <= 122))),
{
    c.is_alphabetic()
}

/// Length of the leading run of alphabetic characters.
pub open spec fn alpha_prefix_len(s: Seq<char>) -> nat
    decreases s.len(),
{
    if s.len() == 0 || !unicode_alphabetic(s[0]) {
        0
    } else {
        1 + alpha_prefix_len(s.drop_first())
    }
}

/// An ASCII decimal digit.
pub open spec fn is_ascii_digit(c: char) -> bool {
    48 <= (c as u32) && (c as u32) <= 57
}

/// The leading alphabetic characters of `s`.
pub fn alpha_prefix(s: &str) -> (r: String)
    ensures
        r@ == s@.take(alpha_prefix_len(s@) as int),
{
    let n = s.unicode_len();
    let mut out: Vec<char> = Vec::new();
    let mut i: usize = 0;
    while i < n && char_is_alphabetic(s.get_char(i))
        invariant
            n == s@.len(),
            i <= n,
            out@ == s@.take(i as int),
            forall|j: int| 0 <= j < i ==> unicode_alphabetic(#[trigger] s@[j]),
        decreases n - i,
    {
        let c = s.get_char(i);
        out.push(c);
        assert(s@.take(i + 1) =~= s@.take(i as int).push(c));
        i = i + 1;
    }
    proof {
        lemma_alpha_prefix_len(s@, i as int);
    }
    string_from_chars(out)
}

proof fn lemma_alpha_prefix_len(s: Seq<char>, i: int)
    requires
        0 <= i <= s.len(),
        forall|j: int| 0 <= j < i ==> unicode_alphabetic(#[trigger] s[j]),
        i < s.len() ==> !unicode_alphabetic(s[i]),
    ensures
        alpha_prefix_len(s) == i,
    decreases s.len(),
{
    if s.len() > 0 && i > 0 {
        let d = s.drop_first();
        assert forall|j: int| 0 <= j < i - 1 implies unicode_alphabetic(#[trigger] d[j]) by {
            assert(d[j] == s[j + 1]);
        }
        if i - 1 < d.len() {
            assert(d[i - 1] == s[i]);
        }
        lemma_alpha_prefix_len(d, i - 1);
    }
}

/// Whether `s` is exactly six ASCII digits.
pub fn is_six_digits(s: &str) -> (r: bool)
    ensures
        r == (s@.len() == 6 && forall|j: int| 0 <= j < 6 ==> is_ascii_digit(#[trigger] s@[j])),
{
    let n = s.unicode_len();
    if n != 6 {
        return false;
    }
    let mut i: usize = 0;
    while i < 6
        invariant
            n == s@.len(),
            n == 6,
            i <= 6,
            forall|j: int| 0 <= j < i ==> is_ascii_digit(#[trigger] s@[j]),
        decreases 6 - i,
    {
        let c = s.get_char(i) as u32;
        if !(48 <= c && c <= 57) {
            return false;
        }
        i = i + 1;
    }
    true
}

} // verus!

verus! {

/// Decimal text of an integer, with a leading `-` when negative.
pub open spec fn sdec(x: int) -> Seq<char> {
    if x < 0 {
        seq!['-'] + dec((-x) as nat)
    } else {
        dec(x as nat)
    }
}

/// `d` left-padded with `0` to at least `w` characters.
pub open spec fn pad_zeros(d: Seq<char>, w: nat) -> Seq<char> {
    if d.len() >= w {
        d
    } else {
        Seq::new((w - d.len()) as nat, |i: int| '0') + d
    }
}

/// Appends the signed decimal text of `x`.
pub fn push_sdec(out: &mut Vec<char>, x: i64)
    ensures
        final(out)@ == old(out)@ + sdec(x as int),
{
    if x < 0 {
        out.push('-');
        let m: i128 = -(x as i128);
        push_dec(out, m as u64);
        assert(old(out)@ + sdec(x as int) =~= old(out)@.push('-') + dec((-x) as nat));
    } else {
        push_dec(out, x as u64);
    }
}

/// Appends the decimal text of `n`, left-padded with zeros to `w` characters.
pub fn push_dec_padded(out: &mut Vec<char>, n: u64, w: usize)
    ensures
        final(out)@ == old(out)@ + pad_zeros(dec(n as nat), w as nat),
{
    let mut digits: Vec<char> = Vec::new();
    push_dec(&mut digits, n);
    assert(digits@ =~= dec(n as nat));
    let len = digits.len();
    if len < w {
        let mut k: usize = 0;
        while k < w - len
            invariant
                len < w,
                k <= w - len,
                out@ == old(out)@ + Seq::new(k as nat, |i: int| '0'),
            decreases w - len - k,
        {
            out.push('0');
            assert(Seq::new((k + 1) as nat, |i: int| '0') =~= Seq::new(k as nat, |i: int| '0').push('0'));
            k = k + 1;
        }
    }
    let mut i: usize = 0;
    let ghost base = out@;
    while i < len
        invariant
            len == digits@.len(),
            i <= len,
            out@ == base + digits@.subrange(0, i as int),
        decreases len - i,
    {
        out.push(digits[i]);
        assert(digits@.subrange(0, i + 1) =~= digits@.subrange(0, i as int).push(digits@[i as int]));
        i = i + 1;
    }
    assert(digits@.subrange(0, len as int) =~= digits@);
    assert(out@ =~= old(out)@ + pad_zeros(dec(n as nat), w as nat));
}

} // verus!

verus! {

/// An amount in micro-units written with two decimals, rounded half away
/// from zero, with a `-` before a negative amount.
pub open spec fn fixed2(x: int) -> Seq<char> {
    let a = if x < 0 { -x } else { x };
    let cents = (a + 5000) / 10000;
    (if x < 0 { seq!['-'] } else { Seq::empty() }) + dec((cents / 100) as nat) + seq!['.']
        + pad_zeros(dec((cents % 100) as nat), 2)
}

pub fn push_fixed2(out: &mut Vec<char>, x: i128)
    requires
        -0x100_0000_0000_0000_0000_0000_0000_0000 <= x <= 0x100_0000_0000_0000_0000_0000_0000_0000,
    ensures
        final(out)@ == old(out)@ + fixed2(x as int),
{
    let a: i128 = if x < 0 { -x } else { x };
    let cents: i128 = (a + 5000) / 10000;
    if x < 0 {
        out.push('-');
    }
    let ghost o1 = out@;
    push_dec128(out, (cents / 100) as u128);
    out.push('.');
    push_dec_padded(out, (cents % 100) as u64, 2);
    assert(out@ =~= old(out)@ + fixed2(x as int));
}

} // verus!

verus! {

/// Whether a character has the Unicode `White_Space` property, as std's
/// `char::is_whitespace` reports it.
pub uninterp spec fn unicode_whitespace(c: char) -> bool;

/// std's `char::is_whitespace`. Claimed: the result is the named property
/// of `c`, and among ASCII characters exactly space, tab, line feed,
/// vertical tab, form feed and carriage return have it.
#[verifier::external_body]
pub(crate) fn char_is_whitespace(c: char) -> (r: bool)
    ensures
        r == unicode_whitespace(c),
        (c as u32) < 128 ==> (r <==> ((c as u32) == 32 || (9 <= (c as u32) && (c as u32) <= 13))),
{
    c.is_whitespace()
}

/// Number of leading whitespace characters.
pub open spec fn leading_ws(s: Seq<char>) -> nat
    decreases s.len(),
{
    if s.len() == 0 || !unicode_whitespace(s[0]) { 0 } else { 1 + leading_ws(s.drop_first()) }
}

/// Number of trailing whitespace characters.
pub open spec fn trailing_ws(s: Seq<char>) -> nat
    decreases s.len(),
{
    if s.len() == 0 || !unicode_whitespace(s.last()) { 0 } else { 1 + trailing_ws(s.drop_last()) }
}

/// `s` without leading and trailing whitespace.
pub open spec fn trimmed(s: Seq<char>) -> Seq<char> {
    let t = s.skip(leading_ws(s) as int);
    t.take(t.len() - trailing_ws(t))
}

proof fn lemma_leading_ws_bound(s: Seq<char>)
    ensures
        leading_ws(s) <= s.len(),
        forall|j: int| 0 <= j < leading_ws(s) ==> unicode_whitespace(#[trigger] s[j]),
        leading_ws(s) < s.len() ==> !unicode_whitespace(s[leading_ws(s) as int]),
    decreases s.len(),
{
    if s.len() > 0 && unicode_whitespace(s[0]) {
        lemma_leading_ws_bound(s.drop_first());
        assert forall|j: int| 0 <= j < leading_ws(s) implies unicode_whitespace(#[trigger] s[j]) by {
            if j > 0 {
                assert(s[j] == s.drop_first()[j - 1]);
            }
        }
        if leading_ws(s) < s.len() {
            assert(s[leading_ws(s) as int] == s.drop_first()[leading_ws(s.drop_first()) as int]);
        }
    }
}

proof fn lemma_trailing_ws_bound(s: Seq<char>)
    ensures
        trailing_ws(s) <= s.len(),
        forall|j: int| s.len() - trailing_ws(s) <= j < s.len() ==> unicode_whitespace(#[trigger] s[j]),
        trailing_ws(s) < s.len() ==> !unicode_whitespace(s[s.len() - trailing_ws(s) - 1]),
    decreases s.len(),
{
    if s.len() > 0 && unicode_whitespace(s.last()) {
        lemma_trailing_ws_bound(s.drop_last());
        assert forall|j: int| s.len() - trailing_ws(s) <= j < s.len() implies unicode_whitespace(#[trigger] s[j]) by {
            if j < s.len() - 1 {
                assert(s[j] == s.drop_last()[j]);
            }
        }
        if trailing_ws(s) < s.len() {
            assert(s[s.len() - trailing_ws(s) - 1] == s.drop_last()[s.drop_last().len() - trailing_ws(s.drop_last()) - 1]);
        }
    }
}

proof fn lemma_leading_ws_unique(s: Seq<char>, k: int)
    requires
        0 <= k <= s.len(),
        forall|j: int| 0 <= j < k ==> unicode_whitespace(#[trigger] s[j]),
        k < s.len() ==> !unicode_whitespace(s[k]),
    ensures
        leading_ws(s) == k,
    decreases s.len(),
{
    if k > 0 {
        assert(unicode_whitespace(s[0]));
        assert forall|j: int| 0 <= j < k - 1 implies unicode_whitespace(#[trigger] s.drop_first()[j]) by {
            assert(s.drop_first()[j] == s[j + 1]);
        }
        if k - 1 < s.drop_first().len() {
            assert(s.drop_first()[k - 1] == s[k]);
        }
        lemma_leading_ws_unique(s.drop_first(), k - 1);
    }
}

proof fn lemma_trailing_ws_unique(s: Seq<char>, k: int)
    requires
        0 <= k <= s.len(),
        forall|j: int| s.len() - k <= j < s.len() ==> unicode_whitespace(#[trigger] s[j]),
        k < s.len() ==> !unicode_whitespace(s[s.len() - k - 1]),
    ensures
        trailing_ws(s) == k,
    decreases s.len(),
{
    if k > 0 {
        assert(unicode_whitespace(s.last()));
        let d = s.drop_last();
        assert forall|j: int| d.len() - (k - 1) <= j < d.len() implies unicode_whitespace(#[trigger] d[j]) by {
            assert(d[j] == s[j]);
        }
        if k - 1 < d.len() {
            assert(d[d.len() - (k - 1) - 1] == s[s.len() - k - 1]);
        }
        lemma_trailing_ws_unique(d, k - 1);
    }
}

/// `s` without leading and trailing whitespace (std's `str::trim`).
pub fn trim_text(s: &str) -> (r: String)
    ensures
        r@ == trimmed(s@),
{
    let n: usize = s.unicode_len();
    let mut a: usize = 0;
    while a < n && char_is_whitespace(s.get_char(a))
        invariant
            n == s@.len(),
            a <= n,
            forall|j: int| 0 <= j < a ==> unicode_whitespace(#[trigger] s@[j]),
        decreases n - a,
    {
        a = a + 1;
    }
    proof {
        lemma_leading_ws_unique(s@, a as int);
    }
    let ghost t = s@.skip(a as int);
    let mut b: usize = n;
    while b > a && char_is_whitespace(s.get_char(b - 1))
        invariant
            n == s@.len(),
            a <= b <= n,
            t == s@.skip(a as int),
            forall|j: int| b <= j < n ==> unicode_whitespace(#[trigger] s@[j]),
        decreases b - a,
    {
        b = b - 1;
    }
    proof {
        assert forall|j: int| t.len() - (n - b) <= j < t.len() implies unicode_whitespace(#[trigger] t[j]) by {
            assert(t[j] == s@[j + a]);
        }
        if n - b < t.len() {
            assert(t[t.len() - (n - b) - 1] == s@[b - 1]);
        }
        lemma_trailing_ws_unique(t, (n - b) as int);
    }
    let mut v: Vec<char> = Vec::new();
    let mut i: usize = a;
    while i < b
        invariant
            a <= i <= b <= n,
            n == s@.len(),
            v@ == s@.subrange(a as int, i as int),
        decreases b - i,
    {
        let c = s.get_char(i);
        v.push(c);
        assert(s@.subrange(a as int, i + 1) =~= s@.subrange(a as int, i as int).push(c));
        i = i + 1;
    }
    assert(v@ =~= trimmed(s@));
    string_from_chars(v)
}

} // verus!
