//! Framing of a file transfer on a data connection: an 8-byte big-endian
//! length, then the contents in 1024-byte chunks and one final short read.
use vstd::prelude::*;

use vstd::arithmetic::div_mod::lemma_div_denominator;

verus! {

/// The size of one transfer chunk.
pub const CHUNK: u64 = 1024;

/// The number that big-endian bytes `b` spell.
pub open spec fn be_value(b: Seq<u8>) -> int
    decreases b.len(),
{
    if b.len() == 0 {
        0
    } else {
        be_value(b.drop_last()) * 256 + b.last() as int
    }
}

/// The `w` lowest bytes of `n`, most significant first.
pub open spec fn be_bytes(n: nat, w: nat) -> Seq<u8>
    decreases w,
{
    if w == 0 {
        Seq::empty()
    } else {
        be_bytes(n / 256, (w - 1) as nat).push((n % 256) as u8)
    }
}

pub open spec fn pow256(w: nat) -> nat
    decreases w,
{
    if w == 0 {
        1
    } else {
        256 * pow256((w - 1) as nat)
    }
}

proof fn lemma_pow256_pos(w: nat)
    ensures
        pow256(w) > 0,
    decreases w,
{
    if w > 0 {
        lemma_pow256_pos((w - 1) as nat);
    }
}

/// Byte `i` of the `w` lowest bytes of `n`, most significant first, is
/// `n / 256^(w - 1 - i)` taken modulo 256.
pub proof fn lemma_be_bytes_digit(n: nat, w: nat)
    ensures
        be_bytes(n, w).len() == w,
        forall|i: int|
            #![trigger be_bytes(n, w)[i]]
            0 <= i < w ==> be_bytes(n, w)[i] as int == (n / pow256((w - 1 - i) as nat)) % 256,
    decreases w,
{
    if w > 0 {
        lemma_be_bytes_digit(n / 256, (w - 1) as nat);
        let b = be_bytes(n, w);
        let d = be_bytes(n / 256, (w - 1) as nat);
        assert(b == d.push((n % 256) as u8));
        assert forall|i: int| #![trigger b[i]] 0 <= i < w implies b[i] as int == (n / pow256(
            (w - 1 - i) as nat,
        )) % 256 by {
            if i == w - 1 {
                assert(pow256(0) == 1);
                assert(b[i] == (n % 256) as u8);
                assert((w - 1 - i) as nat == 0);
                assert(n / 1 == n);
                assert(b[i] as int == n % 256);
            } else {
                assert(b[i] == d[i]);
                let k = (w - 2 - i) as nat;
                assert(d[i] as int == ((n / 256) / pow256(k)) % 256);
                lemma_pow256_pos(k);
                assert(pow256((w - 1 - i) as nat) == 256 * pow256(k));
                lemma_div_denominator(n as int, 256, pow256(k) as int);
                assert(n / pow256((w - 1 - i) as nat) == (n / 256) / pow256(k));
            }
        }
    }
}

/// How the receiver reads the length: the eight bytes as a two's-complement
/// `i64`.
pub open spec fn signed_length(b: Seq<u8>) -> int {
    if be_value(b) <= i64::MAX {
        be_value(b)
    } else {
        be_value(b) - 0x1_0000_0000_0000_0000
    }
}

proof fn lemma_be_bytes_value(n: nat, w: nat)
    requires
        n < pow256(w),
    ensures
        be_bytes(n, w).len() == w,
        be_value(be_bytes(n, w)) == n,
    decreases w,
{
    if w > 0 {
        let p = pow256((w - 1) as nat);
        assert(n / 256 < p) by (nonlinear_arith)
            requires
                n < 256 * p,
        ;
        lemma_be_bytes_value(n / 256, (w - 1) as nat);
        let b = be_bytes(n, w);
        assert(b.drop_last() =~= be_bytes(n / 256, (w - 1) as nat));
        assert(b.last() == (n % 256) as u8);
        assert((n / 256) * 256 + n % 256 == n);
    } else {
        assert(n == 0);
    }
}

proof fn lemma_be_value_bound(b: Seq<u8>)
    ensures
        0 <= be_value(b) < pow256(b.len()),
    decreases b.len(),
{
    if b.len() > 0 {
        lemma_be_value_bound(b.drop_last());
        let v = be_value(b.drop_last());
        let p = pow256((b.len() - 1) as nat);
        assert(v * 256 + b.last() < 256 * p) by (nonlinear_arith)
            requires
                0 <= v < p,
                b.last() < 256,
        ;
        assert(v * 256 + b.last() >= 0) by (nonlinear_arith)
            requires
                0 <= v,
                b.last() >= 0,
        ;
    }
}

proof fn lemma_pow256_8()
    ensures
        pow256(8) == 0x1_0000_0000_0000_0000,
{
    reveal_with_fuel(pow256, 9);
}

fn be_bytes_exec(n: u64, w: usize) -> (out: Vec<u8>)
    ensures
        out@ == be_bytes(n as nat, w as nat),
    decreases w,
{
    if w == 0 {
        Vec::new()
    } else {
        let mut v = be_bytes_exec(n / 256, w - 1);
        v.push((n % 256) as u8);
        v
    }
}

/// `len.to_be_bytes()`: how the sender writes a file's length.
pub fn encode_length(len: u64) -> (out: Vec<u8>)
    ensures
        out@ == be_bytes(len as nat, 8),
        out@.len() == 8,
        be_value(out@) == len,
{
    proof {
        lemma_pow256_8();
        lemma_be_bytes_value(len as nat, 8);
    }
    be_bytes_exec(len, 8)
}

/// How the receiver turns the eight length bytes into the number of bytes
/// still to read.
pub fn decode_length(b: &[u8]) -> (out: i64)
    requires
        b@.len() == 8,
    ensures
        out == signed_length(b@),
{
    let mut v: u64 = 0;
    let mut i: usize = 0;
    while i < 8
        invariant
            i <= 8,
            b@.len() == 8,
            v == be_value(b@.take(i as int)),
        decreases 8 - i,
    {
        proof {
            lemma_be_value_bound(b@.take(i as int));
            reveal_with_fuel(pow256, 9);
            assert(b@.take(i + 1).drop_last() =~= b@.take(i as int));
            assert(b@.take(i + 1).last() == b@[i as int]);
            assert(pow256(i as nat) <= pow256(7)) by {
                lemma_pow256_mono(i as nat, 7);
            }
            assert(v * 256 + b@[i as int] < 0x1_0000_0000_0000_0000) by (nonlinear_arith)
                requires
                    v < pow256(i as nat),
                    pow256(i as nat) <= pow256(7),
                    pow256(7) == 0x100_0000_0000_0000,
                    b@[i as int] < 256,
            ;
        }
        v = v * 256 + b[i] as u64;
        i = i + 1;
    }
    assert(b@.take(8) =~= b@);
    if v <= i64::MAX as u64 {
        v as i64
    } else {
        let low: u64 = v - 0x8000_0000_0000_0000u64;
        i64::MIN + low as i64
    }
}

proof fn lemma_pow256_mono(a: nat, b: nat)
    requires
        a <= b,
    ensures
        pow256(a) <= pow256(b),
    decreases b,
{
    if a < b {
        lemma_pow256_mono(a, (b - 1) as nat);
        assert(pow256(b) == 256 * pow256((b - 1) as nat));
    }
}

/// A length written by the sender is the length the receiver reads, for
/// every length below 2^63.
pub proof fn lemma_length_round_trip(len: u64)
    requires
        len <= i64::MAX,
    ensures
        signed_length(be_bytes(len as nat, 8)) == len,
{
    lemma_pow256_8();
    lemma_be_bytes_value(len as nat, 8);
}

/// How the receiver splits `len` bytes: full 1024-byte chunks while more
/// than 1024 bytes remain, then the rest in one read.
pub open spec fn receive_plan(len: int) -> (int, int) {
    if len > 1024 {
        ((len - 1) / 1024, len - 1024 * ((len - 1) / 1024))
    } else {
        (0, len)
    }
}

/// The length goes out as eight bytes, most significant first: byte `i`
/// is `len / 256^(7 - i)` modulo 256, so byte 7 is `len % 256` and byte 0
/// is `len / 2^56`.
pub proof fn lemma_length_big_endian(len: u64)
    ensures
        be_bytes(len as nat, 8).len() == 8,
        forall|i: int|
            #![trigger be_bytes(len as nat, 8)[i]]
            0 <= i < 8 ==> be_bytes(len as nat, 8)[i] as int == (len as nat / pow256((7 - i) as nat))
                % 256,
        be_bytes(len as nat, 8)[7] as int == len % 256,
        be_bytes(len as nat, 8)[0] as int == len / 0x100_0000_0000_0000,
{
    lemma_be_bytes_digit(len as nat, 8);
    assert(be_bytes(len as nat, 8)[7] as int == (len as nat / pow256(0)) % 256);
    assert(be_bytes(len as nat, 8)[0] as int == (len as nat / pow256(7)) % 256);
    reveal_with_fuel(pow256, 8);
    assert(pow256(7) == 0x100_0000_0000_0000);
    assert(len as nat / 0x100_0000_0000_0000 < 256);
}

/// The plan reads a transfer exactly: more than 1024 bytes go as at least
/// one full 1024-byte chunk and a last read of 1 to 1024 bytes that
/// together make up the length; a transfer of at most 1024 bytes goes in
/// one read of the whole length.
pub proof fn lemma_plan_covers_length(len: int)
    ensures
        len > 1024 ==> {
            &&& receive_plan(len).0 >= 1
            &&& 1 <= receive_plan(len).1 <= 1024
            &&& receive_plan(len).0 * 1024 + receive_plan(len).1 == len
        },
        len <= 1024 ==> receive_plan(len) == (0int, len),
{
    if len > 1024 {
        let full = (len - 1) / 1024;
        assert(1024 * full <= len - 1) by (nonlinear_arith)
            requires
                full == (len - 1) / 1024,
                len > 1024,
        ;
        assert(len - 1 < 1024 * full + 1024) by (nonlinear_arith)
            requires
                full == (len - 1) / 1024,
                len > 1024,
        ;
        assert(full * 1024 == 1024 * full) by (nonlinear_arith);
    }
}

/// The number of full chunks and the remaining bytes for a transfer of
/// `len` bytes (the receiver's count, which may be negative for a corrupt
/// length).
pub fn receive_chunks(len: i64) -> (r: (i64, i64))
    ensures
        r.0 == receive_plan(len as int).0,
        r.1 == receive_plan(len as int).1,
        len > 1024 ==> 1 <= r.1 <= 1024 && r.0 >= 1,
        r.1 <= 1024,
{
    if len > 1024 {
        let full = (len - 1) / 1024;
        proof {
            assert(1024 * full <= len - 1) by (nonlinear_arith)
                requires
                    full == (len - 1) / 1024,
                    len > 1024,
            ;
            assert(len - 1 < 1024 * full + 1024) by (nonlinear_arith)
                requires
                    full == (len - 1) / 1024,
                    len > 1024,
            ;
        }
        (full, len - 1024 * full)
    } else {
        (0, len)
    }
}

/// The number of full chunks and the remaining bytes the sender reads from
/// a file of `len` bytes.
pub fn send_chunks(len: u64) -> (r: (u64, u64))
    ensures
        r.0 == receive_plan(len as int).0,
        r.1 == receive_plan(len as int).1,
        r.1 <= 1024,
{
    if len > 1024 {
        let full = (len - 1) / 1024;
        proof {
            assert(1024 * full <= len - 1) by (nonlinear_arith)
                requires
                    full == (len - 1) / 1024,
                    len > 1024,
            ;
            assert(len - 1 < 1024 * full + 1024) by (nonlinear_arith)
                requires
                    full == (len - 1) / 1024,
                    len > 1024,
            ;
        }
        (full, len - 1024 * full)
    } else {
        (0, len)
    }
}

} // verus!
