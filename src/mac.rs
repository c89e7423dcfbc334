//! MAC addresses that are locally administered and unicast.

use vstd::prelude::*;
use vstd::string::StringExecFns;
use rand::RngCore;

verus! {

/// A MAC address: six octets.
#[derive(Debug, Clone, Copy)]
pub struct MacAddress(pub [u8; 6]);

/// Whether the first octet marks a locally administered address.
pub open spec fn local_bit(first: u8) -> bool {
    first & 2 == 2
}

/// Whether the first octet marks a unicast address.
pub open spec fn unicast_bit(first: u8) -> bool {
    first & 1 == 1
}

/// The lower-case hexadecimal digit of `n`, for `n < 16`.
pub open spec fn hex_char(n: u8) -> char {
    if n == 0 {
        '0'
    } else if n == 1 {
        '1'
    } else if n == 2 {
        '2'
    } else if n == 3 {
        '3'
    } else if n == 4 {
        '4'
    } else if n == 5 {
        '5'
    } else if n == 6 {
        '6'
    } else if n == 7 {
        '7'
    } else if n == 8 {
        '8'
    } else if n == 9 {
        '9'
    } else if n == 10 {
        'a'
    } else if n == 11 {
        'b'
    } else if n == 12 {
        'c'
    } else if n == 13 {
        'd'
    } else if n == 14 {
        'e'
    } else {
        'f'
    }
}

/// The two hexadecimal digits of `b`.
pub open spec fn hex_pair(b: u8) -> Seq<char> {
    seq![hex_char(b / 16), hex_char(b % 16)]
}

/// The first `n` octets of `o` as hexadecimal pairs separated by colons.
pub open spec fn octets_text(o: Seq<u8>, n: int) -> Seq<char>
    decreases n,
{
    if n <= 0 {
        Seq::empty()
    } else if n == 1 {
        hex_pair(o[0])
    } else {
        octets_text(o, n - 1) + seq![':'] + hex_pair(o[n - 1])
    }
}

/// Relies on rand's thread_rng and RngCore::fill_bytes: six bytes drawn at
/// random, of which nothing is known.
#[verifier::external_body]
fn random_octets() -> (r: [u8; 6]) {
    let mut octets = [0u8; 6];
    rand::thread_rng().fill_bytes(&mut octets);
    octets
}

fn hex_digit(n: u8) -> (r: &'static str)
    requires
        n < 16,
    ensures
        r@ == seq![hex_char(n)],
{
    match n {
        0 => {
            proof {
                reveal_strlit("0");
            }
            "0"
        },
        1 => {
            proof {
                reveal_strlit("1");
            }
            "1"
        },
        2 => {
            proof {
                reveal_strlit("2");
            }
            "2"
        },
        3 => {
            proof {
                reveal_strlit("3");
            }
            "3"
        },
        4 => {
            proof {
                reveal_strlit("4");
            }
            "4"
        },
        5 => {
            proof {
                reveal_strlit("5");
            }
            "5"
        },
        6 => {
            proof {
                reveal_strlit("6");
            }
            "6"
        },
        7 => {
            proof {
                reveal_strlit("7");
            }
            "7"
        },
        8 => {
            proof {
                reveal_strlit("8");
            }
            "8"
        },
        9 => {
            proof {
                reveal_strlit("9");
            }
            "9"
        },
        10 => {
            proof {
                reveal_strlit("a");
            }
            "a"
        },
        11 => {
            proof {
                reveal_strlit("b");
            }
            "b"
        },
        12 => {
            proof {
                reveal_strlit("c");
            }
            "c"
        },
        13 => {
            proof {
                reveal_strlit("d");
            }
            "d"
        },
        14 => {
            proof {
                reveal_strlit("e");
            }
            "e"
        },
        _ => {
            proof {
                reveal_strlit("f");
            }
            "f"
        },
    }
}

impl MacAddress {
    /// A random address, marked as locally administered and unicast.
    pub fn new() -> (r: MacAddress)
        ensures
            local_bit(r.0[0]),
            unicast_bit(r.0[0]),
    {
        let octets = random_octets();
        MacAddress::from_octets(octets)
    }

    /// The address of `octets`, with the local and unicast bits of the first
    /// octet set.
    pub fn from_octets(octets: [u8; 6]) -> (r: MacAddress)
        ensures
            r.0@ == octets@.update(0, octets[0] | 3),
            local_bit(r.0[0]),
            unicast_bit(r.0[0]),
    {
        let mut o = octets;
        let b0 = o[0];
        let first = b0 | 3;
        o[0] = first;
        assert(first & 2 == 2 && first & 1 == 1) by (bit_vector)
            requires
                first == b0 | 3,
        ;
        MacAddress(o)
    }

    /// Whether the address is locally administered.
    pub fn is_local(&self) -> (r: bool)
        ensures
            r == local_bit(self.0[0]),
    {
        (self.0[0] & 2) == 2
    }

    /// Whether the address is unicast.
    pub fn is_unicast(&self) -> (r: bool)
        ensures
            r == unicast_bit(self.0[0]),
    {
        (self.0[0] & 1) == 1
    }

    /// The address as six pairs of lower-case hexadecimal digits separated by
    /// colons, as in `02:00:5e:10:00:01`.
    pub fn to_string(&self) -> (r: String)
        ensures
            r@ == octets_text(self.0@, 6),
    {
        let mut s = String::new();
        let mut i: usize = 0;
        while i < 6
            invariant
                i <= 6,
                s@ == octets_text(self.0@, i as int),
            decreases 6 - i,
        {
            if i > 0 {
                proof {
                    reveal_strlit(":");
                }
                s.append(":");
            }
            let b = self.0[i];
            s.append(hex_digit(b / 16));
            s.append(hex_digit(b % 16));
            i = i + 1;
        }
        s
    }
}

} // verus!
