//! Constants of the wire format and the big-endian length field.

use vstd::prelude::*;

verus! {

/// First byte of every frame.
pub const MAGIC: u8 = 0b1001_0101;

/// Type tag of a request that replaces the stored value.
pub const REQUEST_PUSH: u8 = 55;

/// Type tag of a request for the stored value.
pub const REQUEST_PULL: u8 = 56;

/// Type tag of the reply to an accepted push.
pub const RESPONSE_PUSH_OK: u8 = 100;

/// Type tag of the reply to a rejected push.
pub const RESPONSE_PUSH_ERR: u8 = 101;

/// Type tag of the reply that carries the stored value.
pub const RESPONSE_PULL_OK: u8 = 102;

/// Type tag of the reply to a rejected pull.
pub const RESPONSE_PULL_ERR: u8 = 103;

/// Largest payload a decoder accepts, in bytes (10 MiB).
pub const MAX_PAYLOAD_LEN: u64 = 10_485_760;

/// Bytes in the part every frame starts with: magic and type tag.
pub const HEADER_LEN: usize = 2;

/// Bytes in the length field that precedes a payload.
pub const LENGTH_LEN: usize = 8;

/// The number that the bytes `s` spell when read most significant byte first.
pub open spec fn be_value(s: Seq<u8>) -> nat
    decreases s.len(),
{
    if s.len() == 0 {
        0
    } else {
        be_value(s.drop_last()) * 256 + s.last() as nat
    }
}

/// The `width` low-order base-256 digits of `x`, most significant first.
pub open spec fn be_bytes(x: nat, width: nat) -> Seq<u8>
    decreases width,
{
    if width == 0 {
        Seq::<u8>::empty()
    } else {
        be_bytes(x / 256, (width - 1) as nat).push((x % 256) as u8)
    }
}

/// 256 to the power `n`.
pub open spec fn pow256(n: nat) -> nat
    decreases n,
{
    if n == 0 {
        1
    } else {
        256 * pow256((n - 1) as nat)
    }
}

/// Every power of 256 is positive.
pub proof fn lemma_pow256_positive(n: nat)
    ensures
        pow256(n) > 0,
    decreases n,
{
    if n > 0 {
        lemma_pow256_positive((n - 1) as nat);
    }
}

/// `be_bytes` yields exactly `width` bytes.
pub proof fn lemma_be_bytes_len(x: nat, width: nat)
    ensures
        be_bytes(x, width).len() == width,
    decreases width,
{
    if width > 0 {
        lemma_be_bytes_len(x / 256, (width - 1) as nat);
    }
}

/// A number spelt in `n` bytes is below 256 to the `n`.
pub proof fn lemma_be_value_bound(s: Seq<u8>)
    ensures
        be_value(s) < pow256(s.len()),
    decreases s.len(),
{
    if s.len() > 0 {
        lemma_be_value_bound(s.drop_last());
    }
}

/// Reading back the bytes written for `x` gives `x`, as far as `width` bytes hold it.
pub proof fn lemma_be_value_of_bytes(x: nat, width: nat)
    ensures
        be_value(be_bytes(x, width)) == x % pow256(width),
    decreases width,
{
    if width > 0 {
        let w = (width - 1) as nat;
        let head = be_bytes(x / 256, w);
        lemma_be_value_of_bytes(x / 256, w);
        assert(be_bytes(x, width).drop_last() =~= head);
        lemma_pow256_positive(w);
        lemma_mod_step(x, pow256(w));
    }
}

/// Writing the number that `s` spells, in as many bytes, gives `s` back.
pub proof fn lemma_be_bytes_of_value(s: Seq<u8>)
    ensures
        be_bytes(be_value(s), s.len()) == s,
    decreases s.len(),
{
    if s.len() > 0 {
        lemma_be_bytes_of_value(s.drop_last());
    }
}

/// Splitting off the lowest base-256 digit commutes with reduction modulo `256 * m`.
proof fn lemma_mod_step(x: nat, m: nat)
    requires
        m > 0,
    ensures
        ((x / 256) % m) * 256 + x % 256 == x % (256 * m),
{
    let q = x / 256;
    let r = x % 256;
    let k = q / m;
    let t = q % m;
    assert(q == k * m + t) by (nonlinear_arith)
        requires
            k == q / m,
            t == q % m,
            m > 0,
    ;
    assert(x == k * (256 * m) + (t * 256 + r)) by (nonlinear_arith)
        requires
            x == 256 * q + r,
            q == k * m + t,
    ;
    vstd::arithmetic::div_mod::lemma_fundamental_div_mod_converse(
        x as int,
        (256 * m) as int,
        k as int,
        (t * 256 + r) as int,
    );
}

/// Powers of 256 grow with the exponent.
pub proof fn lemma_pow256_monotonic(a: nat, b: nat)
    requires
        a <= b,
    ensures
        pow256(a) <= pow256(b),
    decreases b,
{
    if a < b {
        lemma_pow256_monotonic(a, (b - 1) as nat);
    }
}

/// Eight bytes hold exactly the numbers below 2 to the 64.
pub proof fn lemma_pow256_eight()
    ensures
        pow256(8) == 0x1_0000_0000_0000_0000,
{
    reveal_with_fuel(pow256, 9);
}

/// Appends to `out` the `width` low-order bytes of `x`, most significant first.
pub fn put_be(out: &mut Vec<u8>, x: u64, width: usize)
    ensures
        final(out)@ == old(out)@ + be_bytes(x as nat, width as nat),
    decreases width,
{
    if width > 0 {
        put_be(out, x / 256, width - 1);
        out.push((x % 256) as u8);
    }
}

/// The number that `bytes` spell, most significant byte first.
pub fn get_be(bytes: &[u8]) -> (x: u64)
    requires
        bytes@.len() <= 8,
    ensures
        x == be_value(bytes@),
{
    let mut acc: u64 = 0;
    let mut i: usize = 0;
    while i < bytes.len()
        invariant
            i <= bytes@.len() <= 8,
            acc == be_value(bytes@.take(i as int)),
        decreases bytes@.len() - i,
    {
        proof {
            let seen = bytes@.take(i as int);
            let next = bytes@.take(i + 1);
            assert(next.drop_last() =~= seen);
            lemma_be_value_bound(next);
            lemma_pow256_monotonic(next.len(), 8);
            lemma_pow256_eight();
        }
        acc = acc * 256 + bytes[i] as u64;
        i = i + 1;
    }
    assert(bytes@.take(i as int) =~= bytes@);
    acc
}

} // verus!
