//! A gateway address with its mask, written `<address>/<mask>`.
use vstd::prelude::*;

use crate::addr::{digit_or_dot, lemma_text_injective, Ipv4Addr};
use crate::error::ParseError;
use crate::mask::{lemma_mask_text_round_trip, mask_from_text, Mask};
use crate::text::{decimal, lemma_decimal, push_char, push_decimal};

verus! {

#[derive(Clone, Copy, Debug, PartialEq, Eq, Structural)]
pub struct Subnet {
    pub gateway: Ipv4Addr,
    pub mask: Mask,
}

/// `k` is the one position of `t` that holds a slash.
pub open spec fn sole_slash(t: Seq<char>, k: int) -> bool {
    &&& 0 <= k < t.len()
    &&& t[k] == '/'
    &&& forall|j: int| 0 <= j < t.len() && j != k ==> t[j] != '/'
}

/// What reading `t` as a subnet gives. The text must hold exactly one slash;
/// before it stands the gateway, after it the mask.
pub open spec fn subnet_from_text(t: Seq<char>) -> Result<Subnet, ParseError> {
    if exists|k: int| sole_slash(t, k) {
        let k = choose|k: int| sole_slash(t, k);
        let g = t.subrange(0, k);
        if exists|a: Ipv4Addr| g == a.text() {
            let a = choose|a: Ipv4Addr| g == a.text();
            match mask_from_text(t.subrange(k + 1, t.len() as int)) {
                Ok(m) => Ok(Subnet { gateway: a, mask: m }),
                Err(e) => Err(e),
            }
        } else {
            Err(ParseError::InvalidAddressFormat)
        }
    } else {
        Err(ParseError::InvalidSubnetFormat)
    }
}

/// Relies on `str::split_once`: the text before and after the first
/// occurrence of the delimiter, or `None` where it does not occur.
#[verifier::external_body]
fn split_once_slash(s: &str) -> (r: Option<(&str, &str)>)
    ensures
        match r {
            Some((before, after)) => {
                &&& s@ == before@ + seq!['/'] + after@
                &&& forall|j: int| 0 <= j < before@.len() ==> before@[j] != '/'
            },
            None => forall|j: int| 0 <= j < s@.len() ==> s@[j] != '/',
        },
{
    s.split_once('/')
}

impl Subnet {
    pub open spec fn valid(self) -> bool {
        self.mask.valid()
    }

    /// The text form: the gateway, a slash, then the mask.
    pub open spec fn text(self) -> Seq<char> {
        self.gateway.text() + seq!['/'] + decimal(self.mask.0 as nat)
    }

    /// Renders the subnet as `<address>/<mask>`.
    pub fn to_string(&self) -> (r: String)
        ensures
            r@ == self.text(),
    {
        let mut s = self.gateway.to_string();
        push_char(&mut s, '/');
        push_decimal(&mut s, self.mask.0);
        proof {
            assert(s@ =~= self.text());
        }
        s
    }

    /// Reads a subnet from `<address>/<mask>`.
    pub fn parse(s: &str) -> (r: Result<Subnet, ParseError>)
        ensures
            r == subnet_from_text(s@),
            r matches Ok(sn) ==> sn.valid(),
    {
        let (gateway_text, mask_text) = match split_once_slash(s) {
            Some(parts) => parts,
            None => {
                return Err(ParseError::InvalidSubnetFormat);
            },
        };
        let ghost t = s@;
        let ghost k = gateway_text@.len() as int;
        proof {
            assert(t[k] == '/');
            assert(t.subrange(0, k) =~= gateway_text@);
            assert(t.subrange(k + 1, t.len() as int) =~= mask_text@);
        }
        if let Some((first, _)) = split_once_slash(mask_text) {
            proof {
                let j = first@.len() as int;
                assert(mask_text@[j] == '/');
                assert(t[k + 1 + j] == mask_text@[j]);
                assert forall|i: int| !sole_slash(t, i) by {
                    if sole_slash(t, i) {
                        assert(t[k] == '/' && t[k + 1 + j] == '/');
                    }
                }
            }
            return Err(ParseError::InvalidSubnetFormat);
        }
        proof {
            assert forall|j: int| 0 <= j < t.len() && j != k implies t[j] != '/' by {
                if j < k {
                    assert(t[j] == gateway_text@[j]);
                } else {
                    assert(t[j] == mask_text@[j - k - 1]);
                }
            }
            assert(sole_slash(t, k));
            let c = choose|i: int| sole_slash(t, i);
            assert(c == k);
        }
        let gateway = match Ipv4Addr::parse(gateway_text) {
            Some(a) => a,
            None => {
                return Err(ParseError::InvalidAddressFormat);
            },
        };
        proof {
            let a = choose|a: Ipv4Addr| gateway_text@ == a.text();
            lemma_text_injective(a, gateway);
        }
        match Mask::parse(mask_text) {
            Ok(mask) => Ok(Subnet { gateway, mask }),
            Err(e) => Err(e),
        }
    }
}

/// Reading the text of a valid subnet gives the subnet back.
pub proof fn lemma_subnet_text_round_trip(sn: Subnet)
    requires
        sn.valid(),
    ensures
        subnet_from_text(sn.text()) == Ok::<Subnet, ParseError>(sn),
{
    let t = sn.text();
    let g = sn.gateway.text();
    let d = decimal(sn.mask.0 as nat);
    let k = g.len() as int;
    crate::addr::lemma_text_chars(sn.gateway);
    lemma_decimal(sn.mask.0 as nat);
    assert forall|j: int| 0 <= j < t.len() && j != k implies t[j] != '/' by {
        if j < k {
            assert(t[j] == g[j]);
            assert(digit_or_dot(g));
        } else {
            assert(t[j] == d[j - k - 1]);
        }
    }
    assert(sole_slash(t, k));
    let c = choose|i: int| sole_slash(t, i);
    assert(c == k);
    assert(t.subrange(0, k) =~= g);
    assert(t.subrange(k + 1, t.len() as int) =~= d);
    let a = choose|a: Ipv4Addr| g == a.text();
    lemma_text_injective(a, sn.gateway);
    lemma_mask_text_round_trip(sn.mask);
}

impl std::str::FromStr for Subnet {
    type Err = ParseError;

    fn from_str(s: &str) -> Result<Subnet, ParseError> {
        Subnet::parse(s)
    }
}

} // verus!
