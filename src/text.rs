//! Decimal digit strings: their value, the canonical rendering of a number,
//! and the small scanning and building blocks that the parsers share.
use vstd::prelude::*;
use vstd::string::StringSliceAdditionalSpecFns;

verus! {

broadcast use vstd::string::is_ascii_spec_bytes;

pub open spec fn is_digit(c: char) -> bool {
    '0' <= c <= '9'
}

pub open spec fn digit_value(c: char) -> nat {
    (c as int - '0' as int) as nat
}

pub open spec fn digit_char(d: nat) -> char {
    ((d + 48) as u8) as char
}

pub open spec fn all_digits(t: Seq<char>) -> bool {
    forall|i: int| 0 <= i < t.len() ==> is_digit(#[trigger] t[i])
}

/// The number that a string of decimal digits spells, most significant first.
pub open spec fn value_of(t: Seq<char>) -> nat
    decreases t.len(),
{
    if t.len() == 0 {
        0
    } else {
        value_of(t.drop_last()) * 10 + digit_value(t.last())
    }
}

/// The usual decimal rendering of `n`: no sign, no leading zero.
pub open spec fn decimal(n: nat) -> Seq<char>
    decreases n,
{
    if n < 10 {
        seq![digit_char(n)]
    } else {
        decimal(n / 10).push(digit_char(n % 10))
    }
}

/// Digits only, at least one, and no leading zero unless the string is `"0"`.
pub open spec fn canonical(t: Seq<char>) -> bool {
    &&& t.len() >= 1
    &&& all_digits(t)
    &&& (t.len() == 1 || t[0] != '0')
}

proof fn lemma_digit(d: nat, c: char)
    ensures
        d < 10 ==> is_digit(digit_char(d)) && digit_value(digit_char(d)) == d,
        is_digit(c) ==> digit_value(c) < 10 && digit_char(digit_value(c)) == c,
{
    assert(d < 10 ==> digit_char(d) as int == d + 48);
    assert(is_digit(c) ==> digit_char(digit_value(c)) as int == c as int);
}

proof fn lemma_value_single(c: char)
    ensures
        value_of(seq![c]) == digit_value(c),
{
    let t = seq![c];
    assert(t.drop_last() =~= Seq::<char>::empty());
    assert(value_of(t.drop_last()) == 0);
    assert(t.last() == c);
}

pub proof fn lemma_decimal(n: nat)
    ensures
        canonical(decimal(n)),
        value_of(decimal(n)) == n,
        n < 10 ==> decimal(n).len() == 1,
        n >= 10 ==> decimal(n).len() >= 2,
        n < 100 ==> decimal(n).len() <= 2,
        n < 1000 ==> decimal(n).len() <= 3,
    decreases n,
{
    lemma_digit(n % 10, 'a');
    if n < 10 {
        lemma_value_single(digit_char(n));
    } else {
        lemma_decimal(n / 10);
        let t = decimal(n);
        assert(t.drop_last() =~= decimal(n / 10));
        assert(t[0] == decimal(n / 10)[0]);
        assert((n / 10) * 10 + n % 10 == n) by (nonlinear_arith);
        assert(n < 1000 ==> n / 10 < 100) by (nonlinear_arith);
        assert(n < 100 ==> n / 10 < 10) by (nonlinear_arith);
    }
}

proof fn lemma_value_at_least_first(t: Seq<char>)
    requires
        t.len() >= 1,
        all_digits(t),
    ensures
        value_of(t) >= digit_value(t[0]),
    decreases t.len(),
{
    if t.len() > 1 {
        let u = t.drop_last();
        assert(all_digits(u));
        lemma_value_at_least_first(u);
        assert(u[0] == t[0]);
    }
}

pub proof fn lemma_canonical_is_decimal(t: Seq<char>)
    requires
        canonical(t),
    ensures
        t == decimal(value_of(t)),
    decreases t.len(),
{
    let v = value_of(t);
    if t.len() == 1 {
        lemma_digit(0, t[0]);
        assert(t =~= seq![t[0]]);
        lemma_value_single(t[0]);
        assert(t =~= seq![digit_char(v)]);
    } else {
        let u = t.drop_last();
        assert(u[0] == t[0]);
        assert(canonical(u));
        lemma_value_at_least_first(u);
        lemma_canonical_is_decimal(u);
        let d = digit_value(t.last());
        lemma_digit(0, t.last());
        assert(v / 10 == value_of(u) && v % 10 == d) by (nonlinear_arith)
            requires
                v == value_of(u) * 10 + d,
                d < 10,
        ;
        assert(t =~= decimal(v / 10).push(digit_char(v % 10)));
    }
}

pub proof fn lemma_decimal_injective(m: nat, n: nat)
    requires
        decimal(m) == decimal(n),
    ensures
        m == n,
{
    lemma_decimal(m);
    lemma_decimal(n);
}

/// Relies on `String::push`: appends one character.
#[verifier::external_body]
pub(crate) fn push_char(s: &mut String, c: char)
    ensures
        final(s)@ == old(s)@.push(c),
{
    s.push(c)
}

fn digit_of(d: u8) -> (c: char)
    requires
        d < 10,
    ensures
        c == digit_char(d as nat),
{
    (d + 48) as char
}

/// Appends the decimal rendering of `n`.
pub(crate) fn push_decimal(s: &mut String, n: u8)
    ensures
        final(s)@ == old(s)@ + decimal(n as nat),
{
    let ghost start = s@;
    if n >= 100 {
        push_char(s, digit_of(n / 100));
    }
    if n >= 10 {
        push_char(s, digit_of((n / 10) % 10));
    }
    push_char(s, digit_of(n % 10));
    proof {
        let k = n as nat;
        if k >= 100 {
            assert(decimal(k / 100) == seq![digit_char(k / 100)]);
            assert(decimal(k / 10) =~= decimal(k / 100).push(digit_char((k / 10) % 10)));
        } else if k >= 10 {
            assert(decimal(k / 10) == seq![digit_char(k / 10)]);
        }
        assert(s@ =~= start + decimal(k));
    }
}

/// Whether `b` holds the bytes of the ASCII text `s`.
pub open spec fn ascii_bytes(s: &str, b: Seq<u8>) -> bool {
    &&& vstd::string::is_ascii(s)
    &&& b == s.spec_bytes()
}

/// The characters of `s` in `[lo, hi)` as a number, capped at `cap`, or `None`
/// where one of them is not a digit.
pub(crate) fn scan_digits(s: &str, b: &[u8], lo: usize, hi: usize, cap: u32) -> (r: Option<u32>)
    requires
        ascii_bytes(s, b@),
        lo <= hi <= s@.len(),
        1 <= cap <= 1000,
    ensures
        r is Some <==> all_digits(s@.subrange(lo as int, hi as int)),
        r matches Some(v) ==> v == if value_of(s@.subrange(lo as int, hi as int)) < cap {
            value_of(s@.subrange(lo as int, hi as int))
        } else {
            cap as nat
        },
{
    let mut acc: u32 = 0;
    let mut i: usize = lo;
    while i < hi
        invariant
            ascii_bytes(s, b@),
            lo <= i <= hi <= s@.len(),
            1 <= cap <= 1000,
            acc <= cap,
            all_digits(s@.subrange(lo as int, i as int)),
            acc == if value_of(s@.subrange(lo as int, i as int)) < cap {
                value_of(s@.subrange(lo as int, i as int))
            } else {
                cap as nat
            },
        decreases hi - i,
    {
        let x: u8 = b[i];
        assert(x == s@[i as int] as u8);
        if x < 48 || x > 57 {
            assert(s@.subrange(lo as int, hi as int)[i - lo] == s@[i as int]);
            return None;
        }
        let d: u32 = (x - 48) as u32;
        let ghost prev = value_of(s@.subrange(lo as int, i as int));
        let next: u32 = acc * 10 + d;
        let ghost cur = s@.subrange(lo as int, i + 1);
        assert(cur.drop_last() =~= s@.subrange(lo as int, i as int));
        assert(digit_value(cur.last()) == d);
        assert(value_of(cur) == prev * 10 + d);
        assert((if prev * 10 + d < cap { (prev * 10 + d) as nat } else { cap as nat }) == (if next
            < cap { next as nat } else { cap as nat })) by (nonlinear_arith)
            requires
                next == acc * 10 + d,
                acc == if prev < cap { prev } else { cap as nat },
                cap >= 1,
        ;
        acc = if next < cap { next } else { cap };
        i = i + 1;
        assert forall|j: int| 0 <= j < cur.len() implies is_digit(#[trigger] cur[j]) by {
            if j < cur.len() - 1 {
                assert(cur[j] == s@.subrange(lo as int, i - 1)[j]);
            }
        }
    }
    Some(acc)
}

/// The first index in `[lo, s.len())` that holds a dot, if any.
pub(crate) fn find_dot(s: &str, b: &[u8], lo: usize) -> (r: Option<usize>)
    requires
        ascii_bytes(s, b@),
        lo <= s@.len(),
    ensures
        match r {
            Some(k) => lo <= k < s@.len() && s@[k as int] == '.' && forall|j: int|
                lo <= j < k ==> s@[j] != '.',
            None => forall|j: int| lo <= j < s@.len() ==> s@[j] != '.',
        },
{
    let dot: u8 = 46;
    let mut i: usize = lo;
    while i < b.len()
        invariant
            ascii_bytes(s, b@),
            lo <= i <= s@.len(),
            b@.len() == s@.len(),
            dot == '.' as u8,
            forall|j: int| lo <= j < i ==> s@[j] != '.',
        decreases b@.len() - i,
    {
        assert(b@[i as int] == s@[i as int] as u8);
        if b[i] == dot {
            return Some(i);
        }
        i = i + 1;
    }
    None
}

} // verus!
