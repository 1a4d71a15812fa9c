//! The pieces of the command-line client that compute rather than
//! talk: participant key material, the RPC path of a chain, and the
//! printable hex form of public keys.

use vstd::prelude::*;
use vstd::string::{StringExecFns, StringSliceAdditionalSpecFns};
use crate::transaction::SBytes64;

verus! {

/// Key material of one participant, as kept in the key file.
pub struct ZkretKey {
    pub secret_key: Vec<u8>,
    pub nullifier: Vec<u8>,
    pub pub_key: Vec<u8>,
    pub dh_pub_key: Vec<u8>,
    pub chain_id: String,
    pub chosen_pub_key: Vec<u8>,
}

/// Names the RPC endpoint of one chain.
pub struct RpcClient {
    pub url_path: String,
}

impl RpcClient {
    /// The RPC path of the given chain.
    pub fn new(chain_id: &str) -> (out: RpcClient)
        ensures
            out.url_path@ == "/ext/bc/"@ + chain_id@ + "/rpc"@,
    {
        let mut p = String::from_str("/ext/bc/");
        p.append(chain_id);
        p.append("/rpc");
        proof {
            assert(p@ =~= "/ext/bc/"@ + chain_id@ + "/rpc"@);
        }
        RpcClient { url_path: p }
    }
}

/// The lowercase hex digit of a value below 16.
pub open spec fn hex_digit(n: u8) -> char {
    if n == 0 {
        '0'
    } else if n == 1 {
        '1'
    } else if n == 2 {
        '2'
    } else if n == 3 {
        '3'
    } else if n == 4 {
        '4'
    } else if n == 5 {
        '5'
    } else if n == 6 {
        '6'
    } else if n == 7 {
        '7'
    } else if n == 8 {
        '8'
    } else if n == 9 {
        '9'
    } else if n == 10 {
        'a'
    } else if n == 11 {
        'b'
    } else if n == 12 {
        'c'
    } else if n == 13 {
        'd'
    } else if n == 14 {
        'e'
    } else {
        'f'
    }
}

/// The lowercase hex spelling of a byte string, high nibble of each
/// byte first.
pub open spec fn hex_chars(b: Seq<u8>) -> Seq<char> {
    Seq::new(
        2 * b.len(),
        |i: int|
            if i % 2 == 0 {
                hex_digit(b[i / 2] / 16)
            } else {
                hex_digit(b[i / 2] % 16)
            },
    )
}

fn push_hex_digit(s: &mut String, n: u8)
    requires
        n < 16,
    ensures
        final(s)@ == old(s)@.push(hex_digit(n)),
{
    if n == 0 {
        s.append("0");
        proof {
            reveal_strlit("0");
            assert(s@ =~= old(s)@.push(hex_digit(0u8)));
        }
    } else if n == 1 {
        s.append("1");
        proof {
            reveal_strlit("1");
            assert(s@ =~= old(s)@.push(hex_digit(1u8)));
        }
    } else if n == 2 {
        s.append("2");
        proof {
            reveal_strlit("2");
            assert(s@ =~= old(s)@.push(hex_digit(2u8)));
        }
    } else if n == 3 {
        s.append("3");
        proof {
            reveal_strlit("3");
            assert(s@ =~= old(s)@.push(hex_digit(3u8)));
        }
    } else if n == 4 {
        s.append("4");
        proof {
            reveal_strlit("4");
            assert(s@ =~= old(s)@.push(hex_digit(4u8)));
        }
    } else if n == 5 {
        s.append("5");
        proof {
            reveal_strlit("5");
            assert(s@ =~= old(s)@.push(hex_digit(5u8)));
        }
    } else if n == 6 {
        s.append("6");
        proof {
            reveal_strlit("6");
            assert(s@ =~= old(s)@.push(hex_digit(6u8)));
        }
    } else if n == 7 {
        s.append("7");
        proof {
            reveal_strlit("7");
            assert(s@ =~= old(s)@.push(hex_digit(7u8)));
        }
    } else if n == 8 {
        s.append("8");
        proof {
            reveal_strlit("8");
            assert(s@ =~= old(s)@.push(hex_digit(8u8)));
        }
    } else if n == 9 {
        s.append("9");
        proof {
            reveal_strlit("9");
            assert(s@ =~= old(s)@.push(hex_digit(9u8)));
        }
    } else if n == 10 {
        s.append("a");
        proof {
            reveal_strlit("a");
            assert(s@ =~= old(s)@.push(hex_digit(10u8)));
        }
    } else if n == 11 {
        s.append("b");
        proof {
            reveal_strlit("b");
            assert(s@ =~= old(s)@.push(hex_digit(11u8)));
        }
    } else if n == 12 {
        s.append("c");
        proof {
            reveal_strlit("c");
            assert(s@ =~= old(s)@.push(hex_digit(12u8)));
        }
    } else if n == 13 {
        s.append("d");
        proof {
            reveal_strlit("d");
            assert(s@ =~= old(s)@.push(hex_digit(13u8)));
        }
    } else if n == 14 {
        s.append("e");
        proof {
            reveal_strlit("e");
            assert(s@ =~= old(s)@.push(hex_digit(14u8)));
        }
    } else {
        s.append("f");
        proof {
            reveal_strlit("f");
            assert(s@ =~= old(s)@.push(hex_digit(15u8)));
        }
    }
}

/// Spells a public key as 128 lowercase hex characters.
pub fn pub_key_to_printable(pub_key: &SBytes64) -> (out: String)
    ensures
        out@ == hex_chars(pub_key@),
{
    let mut s = String::from_str("");
    proof {
        reveal_strlit("");
        assert(s@ =~= Seq::<char>::empty());
    }
    let mut i: usize = 0;
    while i < 32
        invariant
            i <= 32,
            s@ =~= hex_chars(pub_key@).take(2 * i),
        decreases 32 - i,
    {
        let b = pub_key.0[i];
        proof {
            assert(pub_key@[i as int] == pub_key.0@[i as int]);
        }
        push_hex_digit(&mut s, b / 16);
        push_hex_digit(&mut s, b % 16);
        proof {
            assert(s@ =~= hex_chars(pub_key@).take(2 * (i + 1)));
        }
        i += 1;
    }
    let mut i: usize = 0;
    while i < 32
        invariant
            i <= 32,
            s@ =~= hex_chars(pub_key@).take(64 + 2 * i),
        decreases 32 - i,
    {
        let b = pub_key.1[i];
        proof {
            assert(pub_key@[32 + i as int] == pub_key.1@[i as int]);
        }
        push_hex_digit(&mut s, b / 16);
        push_hex_digit(&mut s, b % 16);
        proof {
            assert(s@ =~= hex_chars(pub_key@).take(64 + 2 * (i + 1)));
        }
        i += 1;
    }
    proof {
        assert(s@ =~= hex_chars(pub_key@));
    }
    s
}

/// The value of one hex character given as its byte, or 16 for
/// anything else.  Both cases are read.
pub open spec fn nibble_of_byte(b: u8) -> u8 {
    if 48 <= b && b <= 57 {
        (b - 48) as u8
    } else if 97 <= b && b <= 102 {
        (b - 87) as u8
    } else if 65 <= b && b <= 70 {
        (b - 55) as u8
    } else {
        16u8
    }
}

/// Whether a byte spells a hex character.
pub open spec fn is_hex_byte(b: u8) -> bool {
    nibble_of_byte(b) < 16
}

/// The bytes a hex string spells, two characters to a byte, high
/// nibble first.
pub open spec fn bytes_of_hex(sb: Seq<u8>) -> Seq<u8> {
    Seq::new(
        sb.len() / 2,
        |k: int| (16 * nibble_of_byte(sb[2 * k]) + nibble_of_byte(sb[2 * k + 1])) as u8,
    )
}

/// Reads a public key back from its 128 hex characters.
pub fn printable_to_pub_key(s: &str) -> (out: SBytes64)
    requires
        s.spec_bytes().len() == 128,
        forall|i: int| 0 <= i < 128 ==> is_hex_byte(#[trigger] s.spec_bytes()[i]),
    ensures
        out@ == bytes_of_hex(s.spec_bytes()),
{
    let bytes = s.as_bytes();
    let mut lo = [0u8; 32];
    let mut hi = [0u8; 32];
    let mut i: usize = 0;
    while i < 32
        invariant
            i <= 32,
            bytes@.len() == 128,
            bytes@ == s.spec_bytes(),
            forall|t: int| 0 <= t < 128 ==> is_hex_byte(#[trigger] bytes@[t]),
            forall|t: int| 0 <= t < i ==> lo@[t] == bytes_of_hex(bytes@)[t],
        decreases 32 - i,
    {
        lo[i] = hex_pair(bytes[2 * i], bytes[2 * i + 1]);
        i += 1;
    }
    let mut i: usize = 0;
    while i < 32
        invariant
            i <= 32,
            bytes@.len() == 128,
            bytes@ == s.spec_bytes(),
            forall|t: int| 0 <= t < 128 ==> is_hex_byte(#[trigger] bytes@[t]),
            forall|t: int| 0 <= t < 32 ==> lo@[t] == bytes_of_hex(bytes@)[t],
            forall|t: int| 0 <= t < i ==> hi@[t] == bytes_of_hex(bytes@)[32 + t],
        decreases 32 - i,
    {
        hi[i] = hex_pair(bytes[64 + 2 * i], bytes[64 + 2 * i + 1]);
        i += 1;
    }
    let out = SBytes64(lo, hi);
    proof {
        assert(out@ =~= bytes_of_hex(s.spec_bytes()));
    }
    out
}

fn hex_pair(c1: u8, c2: u8) -> (v: u8)
    requires
        is_hex_byte(c1),
        is_hex_byte(c2),
    ensures
        v == 16 * nibble_of_byte(c1) + nibble_of_byte(c2),
{
    hex_val(c1) * 16 + hex_val(c2)
}

fn hex_val(b: u8) -> (v: u8)
    requires
        is_hex_byte(b),
    ensures
        v == nibble_of_byte(b),
{
    if b >= 48 && b <= 57 {
        b - 48
    } else if b >= 97 && b <= 102 {
        b - 87
    } else {
        b - 55
    }
}

} // verus!
