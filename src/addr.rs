//! IPv4 addresses: four octets, their 32-bit big-endian value and their
//! dotted-quad text.
use vstd::prelude::*;

use crate::text::{
    all_digits, ascii_bytes, canonical, decimal, find_dot, is_digit, lemma_canonical_is_decimal,
    lemma_decimal, push_char, push_decimal, scan_digits,
};

verus! {

broadcast use vstd::string::is_ascii_spec_bytes;

/// An IPv4 address, most significant octet first.
#[derive(Clone, Copy, Debug, PartialEq, Eq, Structural)]
pub struct Ipv4Addr(pub u8, pub u8, pub u8, pub u8);

/// The decimal text of `n`, a dot, then `rest`.
pub open spec fn dotted(n: u8, rest: Seq<char>) -> Seq<char> {
    decimal(n as nat) + seq!['.'] + rest
}

pub open spec fn digit_or_dot(t: Seq<char>) -> bool {
    forall|i: int| 0 <= i < t.len() ==> is_digit(#[trigger] t[i]) || t[i] == '.'
}

impl Ipv4Addr {
    /// The dotted-quad text, such as `192.168.1.1`.
    pub open spec fn text(self) -> Seq<char> {
        dotted(self.0, dotted(self.1, dotted(self.2, decimal(self.3 as nat))))
    }

    /// The address read as a big-endian 32-bit number.
    pub open spec fn bits(self) -> u32 {
        (self.0 as int * 0x100_0000 + self.1 as int * 0x1_0000 + self.2 as int * 0x100
            + self.3 as int) as u32
    }

    /// The address whose big-endian 32-bit value is `x`.
    pub open spec fn of_bits(x: u32) -> Ipv4Addr {
        Ipv4Addr(
            (x / 0x100_0000) as u8,
            ((x / 0x1_0000) % 0x100) as u8,
            ((x / 0x100) % 0x100) as u8,
            (x % 0x100) as u8,
        )
    }

    pub fn new(a: u8, b: u8, c: u8, d: u8) -> (r: Ipv4Addr)
        ensures
            r == Ipv4Addr(a, b, c, d),
    {
        Ipv4Addr(a, b, c, d)
    }

    pub fn octets(&self) -> (r: [u8; 4])
        ensures
            r@ == seq![self.0, self.1, self.2, self.3],
    {
        [self.0, self.1, self.2, self.3]
    }

    pub fn to_bits(&self) -> (r: u32)
        ensures
            r == self.bits(),
            r as int == self.0 as int * 0x100_0000 + self.1 as int * 0x1_0000 + self.2 as int
                * 0x100 + self.3 as int,
    {
        let a = self.0 as u32;
        let b = self.1 as u32;
        let c = self.2 as u32;
        let d = self.3 as u32;
        assert(a * 0x100_0000 + b * 0x1_0000 + c * 0x100 + d <= 0xffff_ffff) by (nonlinear_arith)
            requires
                a <= 255,
                b <= 255,
                c <= 255,
                d <= 255,
        ;
        a * 0x100_0000 + b * 0x1_0000 + c * 0x100 + d
    }

    pub fn from_bits(x: u32) -> (r: Ipv4Addr)
        ensures
            r == Ipv4Addr::of_bits(x),
    {
        Ipv4Addr(
            (x / 0x100_0000) as u8,
            ((x / 0x1_0000) % 0x100) as u8,
            ((x / 0x100) % 0x100) as u8,
            (x % 0x100) as u8,
        )
    }

    /// Renders the address as dotted-quad text.
    pub fn to_string(&self) -> (r: String)
        ensures
            r@ == self.text(),
    {
        let mut s = String::new();
        push_decimal(&mut s, self.0);
        push_char(&mut s, '.');
        push_decimal(&mut s, self.1);
        push_char(&mut s, '.');
        push_decimal(&mut s, self.2);
        push_char(&mut s, '.');
        push_decimal(&mut s, self.3);
        proof {
            assert(s@ =~= self.text());
        }
        s
    }

    /// Reads dotted-quad text: four octets in decimal, each without a leading
    /// zero, separated by single dots, and nothing else.
    pub fn parse(s: &str) -> (r: Option<Ipv4Addr>)
        ensures
            r matches Some(a) ==> s@ == a.text(),
            r is None ==> forall|a: Ipv4Addr| s@ != #[trigger] a.text(),
    {
        if !s.is_ascii() {
            proof {
                assert forall|a: Ipv4Addr| s@ != #[trigger] a.text() by {
                    lemma_text_chars(a);
                    if s@ == a.text() {
                        assert(vstd::utf8::is_ascii_chars(s@));
                    }
                }
            }
            return None;
        }
        let b = s.as_bytes();
        let len = b.len();
        let (v0, k1) = match parse_field(s, b, 0) {
            Some(f) => f,
            None => {
                proof {
                    assert(s@.subrange(0, s@.len() as int) =~= s@);
                }
                return None;
            },
        };
        let (v1, k2) = match parse_field(s, b, k1 + 1) {
            Some(f) => f,
            None => {
                proof {
                    assert forall|a: Ipv4Addr| s@ != #[trigger] a.text() by {
                        if s@ == a.text() {
                            lemma_text_split(s@, a, k1 as int, 0, 0, 1);
                        }
                    }
                }
                return None;
            },
        };
        let (v2, k3) = match parse_field(s, b, k2 + 1) {
            Some(f) => f,
            None => {
                proof {
                    assert forall|a: Ipv4Addr| s@ != #[trigger] a.text() by {
                        if s@ == a.text() {
                            lemma_text_split(s@, a, k1 as int, k2 as int, 0, 2);
                        }
                    }
                }
                return None;
            },
        };
        let v3 = match parse_octet(s, b, k3 + 1, len) {
            Some(v) => v,
            None => {
                proof {
                    assert forall|a: Ipv4Addr| s@ != #[trigger] a.text() by {
                        if s@ == a.text() {
                            lemma_text_split(s@, a, k1 as int, k2 as int, k3 as int, 3);
                        }
                    }
                }
                return None;
            },
        };
        proof {
            lemma_join(s@, k1 as int, k2 as int, k3 as int);
        }
        Some(Ipv4Addr(v0, v1, v2, v3))
    }
}

proof fn lemma_dotted_injective(n: u8, u: Seq<char>, m: u8, v: Seq<char>)
    requires
        dotted(n, u) == dotted(m, v),
    ensures
        n == m,
        u == v,
{
    lemma_decimal(n as nat);
    lemma_decimal(m as nat);
    let w = dotted(n, u);
    let dn = decimal(n as nat).len() as int;
    let dm = decimal(m as nat).len() as int;
    assert(w[dn] == '.');
    assert(dotted(m, v)[dm] == '.');
    if dn < dm {
        assert(dotted(m, v)[dn] == decimal(m as nat)[dn]);
    }
    if dm < dn {
        assert(w[dm] == decimal(n as nat)[dm]);
    }
    assert(w.subrange(0, dn) =~= decimal(n as nat));
    assert(dotted(m, v).subrange(0, dm) =~= decimal(m as nat));
    crate::text::lemma_decimal_injective(n as nat, m as nat);
    assert(w.subrange(dn + 1, w.len() as int) =~= u);
    assert(dotted(m, v).subrange(dm + 1, w.len() as int) =~= v);
}

/// Two addresses with the same text are the same address.
pub proof fn lemma_text_injective(a: Ipv4Addr, b: Ipv4Addr)
    requires
        a.text() == b.text(),
    ensures
        a == b,
{
    lemma_dotted_injective(
        a.0,
        dotted(a.1, dotted(a.2, decimal(a.3 as nat))),
        b.0,
        dotted(b.1, dotted(b.2, decimal(b.3 as nat))),
    );
    lemma_dotted_injective(a.1, dotted(a.2, decimal(a.3 as nat)), b.1, dotted(b.2, decimal(b.3 as nat)));
    lemma_dotted_injective(a.2, decimal(a.3 as nat), b.2, decimal(b.3 as nat));
    crate::text::lemma_decimal_injective(a.3 as nat, b.3 as nat);
}

/// A text cut at three dots is the pieces joined by dots.
proof fn lemma_join(t: Seq<char>, k1: int, k2: int, k3: int)
    requires
        0 <= k1 < k2 < k3 < t.len(),
        t[k1] == '.',
        t[k2] == '.',
        t[k3] == '.',
    ensures
        t == t.subrange(0, k1) + seq!['.'] + (t.subrange(k1 + 1, k2) + seq!['.'] + (t.subrange(
            k2 + 1,
            k3,
        ) + seq!['.'] + t.subrange(k3 + 1, t.len() as int))),
{
    let n = t.len() as int;
    assert(t.subrange(k2 + 1, n) =~= t.subrange(k2 + 1, k3) + seq!['.'] + t.subrange(k3 + 1, n));
    assert(t.subrange(k1 + 1, n) =~= t.subrange(k1 + 1, k2) + seq!['.'] + t.subrange(k2 + 1, n));
    assert(t =~= t.subrange(0, k1) + seq!['.'] + t.subrange(k1 + 1, n));
}

/// Every character of an address's text is a digit or a dot.
pub proof fn lemma_text_chars(a: Ipv4Addr)
    ensures
        digit_or_dot(a.text()),
{
    lemma_decimal(a.3 as nat);
    lemma_dotted_chars(a.2, decimal(a.3 as nat));
    lemma_dotted_chars(a.1, dotted(a.2, decimal(a.3 as nat)));
    lemma_dotted_chars(a.0, dotted(a.1, dotted(a.2, decimal(a.3 as nat))));
}

proof fn lemma_dotted_chars(n: u8, u: Seq<char>)
    requires
        digit_or_dot(u) || all_digits(u),
    ensures
        digit_or_dot(dotted(n, u)),
{
    lemma_decimal(n as nat);
    let d = decimal(n as nat);
    let t = dotted(n, u);
    assert forall|i: int| 0 <= i < t.len() implies is_digit(#[trigger] t[i]) || t[i] == '.' by {
        if i < d.len() {
            assert(t[i] == d[i]);
        } else if i > d.len() {
            assert(t[i] == u[i - d.len() - 1]);
        }
    }
}

/// Where the text from `lo` on is `dotted(n, u)` and `k` is the first dot from
/// `lo` on, the dot ends the decimal text of `n` and `u` follows it.
proof fn lemma_dotted_split(t: Seq<char>, lo: int, k: int, n: u8, u: Seq<char>)
    requires
        0 <= lo <= k < t.len(),
        t.subrange(lo, t.len() as int) == dotted(n, u),
        t[k] == '.',
        forall|j: int| lo <= j < k ==> t[j] != '.',
    ensures
        k == lo + decimal(n as nat).len(),
        t.subrange(lo, k) == decimal(n as nat),
        t.subrange(k + 1, t.len() as int) == u,
{
    lemma_decimal(n as nat);
    let d = decimal(n as nat);
    let w = dotted(n, u);
    let dl = d.len() as int;
    assert(w.len() == dl + 1 + u.len());
    assert(w[dl] == '.');
    assert(t[lo + dl] == w[dl]);
    if k < lo + dl {
        assert(t[k] == w[k - lo]);
        assert(w[k - lo] == d[k - lo]);
        assert(is_digit(d[k - lo]));
    }
    assert(t.subrange(lo, k) =~= d) by {
        assert forall|i: int| 0 <= i < dl implies t.subrange(lo, k)[i] == d[i] by {
            assert(t[lo + i] == w[i]);
        }
    }
    assert(t.subrange(k + 1, t.len() as int) =~= u) by {
        assert forall|i: int| 0 <= i < u.len() implies t.subrange(k + 1, t.len() as int)[i]
            == u[i] by {
            assert(t[k + 1 + i] == w[dl + 1 + i]);
        }
    }
}

/// Where `t` is the text of `a` and `k1`, `k2`, `k3` are its dots in order,
/// each found as the first one after the previous, the text splits at them
/// into the four octets.
proof fn lemma_text_split(t: Seq<char>, a: Ipv4Addr, k1: int, k2: int, k3: int, upto: int)
    requires
        t == a.text(),
        1 <= upto <= 3,
        0 <= k1 < t.len(),
        t[k1] == '.',
        forall|j: int| 0 <= j < k1 ==> t[j] != '.',
        upto >= 2 ==> k1 < k2 < t.len() && t[k2] == '.' && forall|j: int| k1 < j < k2 ==> t[j]
            != '.',
        upto >= 3 ==> k2 < k3 < t.len() && t[k3] == '.' && forall|j: int| k2 < j < k3 ==> t[j]
            != '.',
    ensures
        t.subrange(0, k1) == decimal(a.0 as nat),
        t.subrange(k1 + 1, t.len() as int) == dotted(a.1, dotted(a.2, decimal(a.3 as nat))),
        upto >= 2 ==> t.subrange(k1 + 1, k2) == decimal(a.1 as nat) && t.subrange(
            k2 + 1,
            t.len() as int,
        ) == dotted(a.2, decimal(a.3 as nat)),
        upto >= 3 ==> t.subrange(k2 + 1, k3) == decimal(a.2 as nat) && t.subrange(
            k3 + 1,
            t.len() as int,
        ) == decimal(a.3 as nat),
{
    let r2 = dotted(a.2, decimal(a.3 as nat));
    let r1 = dotted(a.1, r2);
    assert(t.subrange(0, t.len() as int) =~= t);
    lemma_dotted_split(t, 0, k1, a.0, r1);
    if upto >= 2 {
        lemma_dotted_split(t, k1 + 1, k2, a.1, r2);
    }
    if upto >= 3 {
        lemma_dotted_split(t, k2 + 1, k3, a.2, decimal(a.3 as nat));
    }
}

/// The octet whose decimal text is exactly the characters of `s` in `[lo, hi)`.
fn parse_octet(s: &str, b: &[u8], lo: usize, hi: usize) -> (r: Option<u8>)
    requires
        ascii_bytes(s, b@),
        lo <= hi <= s@.len(),
    ensures
        r matches Some(v) ==> s@.subrange(lo as int, hi as int) == decimal(v as nat),
        r is None ==> forall|v: u8| s@.subrange(lo as int, hi as int) != #[trigger] decimal(v as nat),
{
    let ghost t = s@.subrange(lo as int, hi as int);
    if lo == hi {
        proof {
            assert forall|v: u8| t != #[trigger] decimal(v as nat) by {
                lemma_decimal(v as nat);
            }
        }
        return None;
    }
    if hi - lo > 1 && b[lo] == 48 {
        proof {
            assert(t[0] == s@[lo as int]);
            assert forall|v: u8| t != #[trigger] decimal(v as nat) by {
                lemma_decimal(v as nat);
            }
        }
        return None;
    }
    match scan_digits(s, b, lo, hi, 256) {
        None => {
            proof {
                assert forall|v: u8| t != #[trigger] decimal(v as nat) by {
                    lemma_decimal(v as nat);
                }
            }
            None
        },
        Some(v) => {
            if v >= 256 {
                proof {
                    assert forall|w: u8| t != #[trigger] decimal(w as nat) by {
                        lemma_decimal(w as nat);
                    }
                }
                None
            } else {
                proof {
                    assert(t[0] == s@[lo as int]);
                    assert(canonical(t));
                    lemma_canonical_is_decimal(t);
                }
                Some(v as u8)
            }
        },
    }
}

/// One octet and the dot after it, starting at `lo`: the octet and the dot's index.
fn parse_field(s: &str, b: &[u8], lo: usize) -> (r: Option<(u8, usize)>)
    requires
        ascii_bytes(s, b@),
        lo <= s@.len(),
    ensures
        r matches Some((v, k)) ==> {
            &&& lo <= k < s@.len()
            &&& s@[k as int] == '.'
            &&& forall|j: int| lo <= j < k ==> s@[j] != '.'
            &&& s@.subrange(lo as int, k as int) == decimal(v as nat)
        },
        r is None ==> forall|n: u8, u: Seq<char>|
            s@.subrange(lo as int, s@.len() as int) != #[trigger] dotted(n, u),
{
    match find_dot(s, b, lo) {
        None => {
            proof {
                assert forall|n: u8, u: Seq<char>|
                    s@.subrange(lo as int, s@.len() as int) != #[trigger] dotted(n, u) by {
                    if s@.subrange(lo as int, s@.len() as int) == dotted(n, u) {
                        let dl = decimal(n as nat).len() as int;
                        let w = dotted(n, u);
                        assert(w.len() == dl + 1 + u.len());
                        assert(w[dl] == '.');
                        assert(s@.subrange(lo as int, s@.len() as int)[dl] == s@[lo + dl]);
                    }
                }
            }
            None
        },
        Some(k) => {
            match parse_octet(s, b, lo, k) {
                None => {
                    proof {
                        assert forall|n: u8, u: Seq<char>|
                            s@.subrange(lo as int, s@.len() as int) != #[trigger] dotted(n, u) by {
                            if s@.subrange(lo as int, s@.len() as int) == dotted(n, u) {
                                lemma_dotted_split(s@, lo as int, k as int, n, u);
                            }
                        }
                    }
                    None
                },
                Some(v) => Some((v, k)),
            }
        },
    }
}

} // verus!
