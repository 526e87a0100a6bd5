//! Parsing of protocol item strings: transaction ids as 64 hexadecimal
//! digits in display order, and outpoints as `txid:index` with a decimal
//! index.

use vstd::prelude::*;
use vstd::string::StringSliceAdditionalSpecFns;

use crate::types::{OutPoint, Txid};

verus! {

/// Value of one hexadecimal digit byte, or a negative number when the byte
/// is no hexadecimal digit.
pub open spec fn hex_val(b: u8) -> int {
    if 48 <= b <= 57 {
        b - 48
    } else if 97 <= b <= 102 {
        b - 87
    } else if 65 <= b <= 70 {
        b - 55
    } else {
        -1
    }
}

/// Whether every byte is a hexadecimal digit.
pub open spec fn hex_ok(s: Seq<u8>) -> bool {
    forall|i: int| 0 <= i < s.len() ==> hex_val(#[trigger] s[i]) >= 0
}

/// A transaction id string: exactly 64 hexadecimal digits.
pub open spec fn is_txid_hex(s: Seq<u8>) -> bool {
    s.len() == 64 && hex_ok(s)
}

/// The bytes an even-length hexadecimal string denotes, two digits each.
pub open spec fn bytes_of_hex(s: Seq<u8>) -> Seq<u8>
    decreases s.len(),
{
    if s.len() < 2 {
        Seq::empty()
    } else {
        bytes_of_hex(s.drop_last().drop_last()).push(
            (hex_val(s[s.len() - 2]) * 16 + hex_val(s[s.len() - 1])) as u8,
        )
    }
}

/// The 64-bit word that bytes `8k` to `8k + 7` spell, little-endian.
pub open spec fn word_from(bs: Seq<u8>, k: int) -> int {
    bs[8 * k] + 0x100 * bs[8 * k + 1] + 0x1_0000 * bs[8 * k + 2] + 0x100_0000 * bs[8 * k + 3]
        + 0x1_0000_0000 * bs[8 * k + 4] + 0x100_0000_0000 * bs[8 * k + 5] + 0x1_0000_0000_0000 * bs[
        8 * k + 6] + 0x100_0000_0000_0000 * bs[8 * k + 7]
}

/// The transaction id a 64-digit display-order hexadecimal string denotes.
pub open spec fn spec_txid_of_hex(s: Seq<u8>) -> Txid {
    let bs = bytes_of_hex(s);
    Txid {
        w0: word_from(bs, 0) as u64,
        w1: word_from(bs, 1) as u64,
        w2: word_from(bs, 2) as u64,
        w3: word_from(bs, 3) as u64,
    }
}

/// Value of one hexadecimal digit byte, when it is one.
fn hexd(b: u8) -> (r: Option<u8>)
    ensures
        match r {
            Some(v) => hex_val(b) == v && v < 16,
            None => hex_val(b) < 0,
        },
{
    if 48 <= b && b <= 57 {
        Some(b - 48)
    } else if 97 <= b && b <= 102 {
        Some(b - 87)
    } else if 65 <= b && b <= 70 {
        Some(b - 55)
    } else {
        None
    }
}

/// Parses exactly 64 hexadecimal digits into a transaction id.
pub fn parse_txid_bytes(b: &[u8]) -> (r: Option<Txid>)
    ensures
        match r {
            Some(t) => is_txid_hex(b@) && t == spec_txid_of_hex(b@),
            None => !is_txid_hex(b@),
        },
{
    if b.len() != 64 {
        return None;
    }
    let mut bytes: Vec<u8> = Vec::new();
    let mut j: usize = 0;
    while j < 32
        invariant
            b@.len() == 64,
            j <= 32,
            bytes@ == bytes_of_hex(b@.take(2 * j as int)),
            bytes@.len() == j,
            forall|i: int| 0 <= i < 2 * j ==> hex_val(#[trigger] b@[i]) >= 0,
        decreases 32 - j,
    {
        proof {
            assert(b@.take(2 * (j + 1) as int).drop_last().drop_last() =~= b@.take(2 * j as int));
        }
        let h1 = match hexd(b[2 * j]) {
            Some(v) => v,
            None => {
                return None;
            },
        };
        let h2 = match hexd(b[2 * j + 1]) {
            Some(v) => v,
            None => {
                return None;
            },
        };
        bytes.push(h1 * 16 + h2);
        j = j + 1;
    }
    proof {
        assert(b@.take(64) =~= b@);
    }
    let w0 = word_exec(&bytes, 0);
    let w1 = word_exec(&bytes, 1);
    let w2 = word_exec(&bytes, 2);
    let w3 = word_exec(&bytes, 3);
    Some(Txid { w0, w1, w2, w3 })
}

/// Executable counterpart of `word_from` over a 32-byte buffer.
fn word_exec(bs: &Vec<u8>, k: usize) -> (r: u64)
    requires
        bs@.len() == 32,
        k < 4,
    ensures
        r == word_from(bs@, k as int),
{
    (bs[8 * k] as u64) + 0x100 * (bs[8 * k + 1] as u64) + 0x1_0000 * (bs[8 * k + 2] as u64)
        + 0x100_0000 * (bs[8 * k + 3] as u64) + 0x1_0000_0000 * (bs[8 * k + 4] as u64)
        + 0x100_0000_0000 * (bs[8 * k + 5] as u64) + 0x1_0000_0000_0000 * (bs[8 * k + 6] as u64)
        + 0x100_0000_0000_0000 * (bs[8 * k + 7] as u64)
}

/// A decimal digit sequence and its value.
pub open spec fn dec_ok(s: Seq<u8>) -> bool {
    s.len() >= 1 && forall|i: int| 0 <= i < s.len() ==> 48 <= #[trigger] s[i] <= 57
}

/// The number a decimal digit sequence denotes.
pub open spec fn dec_val(s: Seq<u8>) -> int
    decreases s.len(),
{
    if s.len() == 0 {
        0
    } else {
        dec_val(s.drop_last()) * 10 + (s.last() - 48)
    }
}

/// A digit string never denotes a negative number.
pub proof fn lemma_dec_nonneg(s: Seq<u8>)
    requires
        forall|i: int| 0 <= i < s.len() ==> 48 <= #[trigger] s[i] <= 57,
    ensures
        dec_val(s) >= 0,
    decreases s.len(),
{
    if s.len() > 0 {
        lemma_dec_nonneg(s.drop_last());
        assert(s[s.len() - 1] == s.last());
    }
}

/// A longer digit string never denotes a smaller number.
pub proof fn lemma_dec_take_le(s: Seq<u8>, t: int)
    requires
        0 <= t <= s.len(),
        forall|i: int| 0 <= i < s.len() ==> 48 <= #[trigger] s[i] <= 57,
    ensures
        0 <= dec_val(s.take(t)) <= dec_val(s),
    decreases s.len() - t,
{
    assert forall|i: int| 0 <= i < s.take(t).len() implies 48 <= #[trigger] s.take(t)[i] <= 57 by {
        assert(s.take(t)[i] == s[i]);
    }
    lemma_dec_nonneg(s.take(t));
    if t == s.len() {
        assert(s.take(t) =~= s);
    } else {
        lemma_dec_take_le(s, t + 1);
        assert(s.take(t + 1).drop_last() =~= s.take(t));
        assert(dec_val(s.take(t + 1)) == dec_val(s.take(t)) * 10 + (s[t] - 48));
    }
}

/// Parses a whole byte slice as a decimal number fitting 32 bits.
pub fn parse_u32_bytes(b: &[u8]) -> (r: Option<u32>)
    ensures
        match r {
            Some(v) => dec_ok(b@) && v == dec_val(b@),
            None => !(dec_ok(b@) && dec_val(b@) <= 0xFFFF_FFFF),
        },
{
    let n = b.len();
    if n == 0 {
        return None;
    }
    let mut val: u64 = 0;
    let mut i: usize = 0;
    while i < n
        invariant
            n == b@.len(),
            i <= n,
            val == dec_val(b@.take(i as int)),
            val <= 0xFFFF_FFFF,
            forall|j: int| 0 <= j < i ==> 48 <= #[trigger] b@[j] <= 57,
        decreases n - i,
    {
        let d = b[i];
        if d < 48 || d > 57 {
            return None;
        }
        proof {
            assert(b@.take(i + 1).drop_last() =~= b@.take(i as int));
            assert(b@.take(i + 1).last() == b@[i as int]);
        }
        val = val * 10 + ((d - 48) as u64);
        if val > 0xFFFF_FFFF {
            proof {
                if dec_ok(b@) {
                    lemma_dec_take_le(b@, i + 1);
                }
            }
            return None;
        }
        i = i + 1;
    }
    proof {
        assert(b@.take(n as int) =~= b@);
    }
    Some(val as u32)
}

/// An outpoint string: a transaction id, a colon, and a decimal output
/// index fitting 32 bits.
pub open spec fn is_outpoint_str(s: Seq<u8>) -> bool {
    s.len() >= 66 && is_txid_hex(s.subrange(0, 64)) && s[64] == 58 && dec_ok(
        s.subrange(65, s.len() as int),
    ) && dec_val(s.subrange(65, s.len() as int)) <= 0xFFFF_FFFF
}

/// The outpoint such a string denotes.
pub open spec fn spec_outpoint_of(s: Seq<u8>) -> OutPoint {
    OutPoint {
        txid: spec_txid_of_hex(s.subrange(0, 64)),
        vout: dec_val(s.subrange(65, s.len() as int)) as u32,
    }
}

/// Parses `txid:index` into an outpoint.
pub fn parse_outpoint_bytes(b: &[u8]) -> (r: Option<OutPoint>)
    ensures
        match r {
            Some(op) => is_outpoint_str(b@) && op == spec_outpoint_of(b@),
            None => !is_outpoint_str(b@),
        },
{
    let n = b.len();
    if n < 66 {
        return None;
    }
    if *vstd::slice::slice_index_get(b, 64) != 58 {
        return None;
    }
    let tx_part = vstd::slice::slice_subrange(b, 0, 64);
    let txid = match parse_txid_bytes(tx_part) {
        Some(t) => t,
        None => {
            return None;
        },
    };
    let idx_part = vstd::slice::slice_subrange(b, 65, n);
    let vout = match parse_u32_bytes(idx_part) {
        Some(v) => v,
        None => {
            return None;
        },
    };
    Some(OutPoint { txid, vout })
}

/// Parses a transaction id string.
pub fn parse_txid(s: &str) -> (r: Option<Txid>)
    ensures
        match r {
            Some(t) => is_txid_hex(s.spec_bytes()) && t == spec_txid_of_hex(s.spec_bytes()),
            None => !is_txid_hex(s.spec_bytes()),
        },
{
    parse_txid_bytes(s.as_bytes())
}

/// Parses an outpoint string.
pub fn parse_outpoint(s: &str) -> (r: Option<OutPoint>)
    ensures
        match r {
            Some(op) => is_outpoint_str(s.spec_bytes()) && op == spec_outpoint_of(s.spec_bytes()),
            None => !is_outpoint_str(s.spec_bytes()),
        },
{
    parse_outpoint_bytes(s.as_bytes())
}

} // verus!
