//! Fixed-width unsigned integers as big- and little-endian bytes.
use vstd::prelude::*;

use crate::byte_vector::{from_slice_copy, read_error, ByteVector};
use crate::error::{Error, ErrorModel};

verus! {

/// `256` to the power `k`.
pub open spec fn pow256(k: nat) -> nat
    decreases k,
{
    if k == 0 {
        1
    } else {
        256 * pow256((k - 1) as nat)
    }
}

/// The `w` low-order bytes of `n`, most significant first.
pub open spec fn be_bytes(n: nat, w: nat) -> Seq<u8>
    decreases w,
{
    if w == 0 {
        Seq::empty()
    } else {
        be_bytes(n / 256, (w - 1) as nat).push((n % 256) as u8)
    }
}

/// The `w` low-order bytes of `n`, least significant first.
pub open spec fn le_bytes(n: nat, w: nat) -> Seq<u8>
    decreases w,
{
    if w == 0 {
        Seq::empty()
    } else {
        seq![(n % 256) as u8] + le_bytes(n / 256, (w - 1) as nat)
    }
}

/// The number that `b` spells with its most significant byte first.
pub open spec fn be_value(b: Seq<u8>) -> nat
    decreases b.len(),
{
    if b.len() == 0 {
        0
    } else {
        be_value(b.drop_last()) * 256 + b.last() as nat
    }
}

/// The number that `b` spells with its least significant byte first.
pub open spec fn le_value(b: Seq<u8>) -> nat
    decreases b.len(),
{
    if b.len() == 0 {
        0
    } else {
        b[0] as nat + 256 * le_value(b.skip(1))
    }
}

/// The `w` bytes of `n` in the given byte order.
pub open spec fn uint_bytes(n: nat, w: nat, big: bool) -> Seq<u8> {
    if big {
        be_bytes(n, w)
    } else {
        le_bytes(n, w)
    }
}

/// The number that `b` spells in the given byte order.
pub open spec fn uint_value(b: Seq<u8>, big: bool) -> nat {
    if big {
        be_value(b)
    } else {
        le_value(b)
    }
}

/// Reading a `w`-byte unsigned number from the front of `b`: the number and what follows it.
pub open spec fn decode_uint_spec(b: Seq<u8>, w: nat, big: bool) -> Result<(nat, Seq<u8>), ErrorModel> {
    if b.len() < w {
        Err(read_error(0, w, b.len()))
    } else {
        Ok((uint_value(b.take(w as int), big), b.skip(w as int)))
    }
}

/// The powers of 256 that the integer widths use.
pub proof fn lemma_pow256_widths()
    ensures
        pow256(1) == 0x100,
        pow256(2) == 0x1_0000,
        pow256(4) == 0x1_0000_0000,
        pow256(8) == 0x1_0000_0000_0000_0000,
{
    reveal_with_fuel(pow256, 9);
}

/// A number spelled by `k` bytes is below `256^k`.
pub proof fn lemma_value_bound(b: Seq<u8>, big: bool)
    ensures
        uint_value(b, big) < pow256(b.len()),
    decreases b.len(),
{
    if b.len() > 0 {
        let p = pow256((b.len() - 1) as nat);
        if big {
            lemma_value_bound(b.drop_last(), big);
            let v = be_value(b.drop_last());
            assert(v * 256 + b.last() < 256 * p) by (nonlinear_arith)
                requires
                    v < p,
                    b.last() < 256,
            ;
        } else {
            lemma_value_bound(b.skip(1), big);
            let v = le_value(b.skip(1));
            assert(b[0] + 256 * v < 256 * p) by (nonlinear_arith)
                requires
                    v < p,
                    b[0] < 256,
            ;
        }
    }
}

/// The bytes of a number below `256^w` spell that number again, in either byte order.
pub proof fn lemma_uint_round_trip(n: nat, w: nat, big: bool)
    requires
        n < pow256(w),
    ensures
        uint_bytes(n, w, big).len() == w,
        uint_value(uint_bytes(n, w, big), big) == n,
    decreases w,
{
    if w > 0 {
        let p = pow256((w - 1) as nat);
        assert(n / 256 < p) by (nonlinear_arith)
            requires
                n < 256 * p,
        ;
        lemma_uint_round_trip(n / 256, (w - 1) as nat, big);
        let s = uint_bytes(n, w, big);
        if big {
            assert(s.drop_last() =~= be_bytes(n / 256, (w - 1) as nat));
        } else {
            assert(s.skip(1) =~= le_bytes(n / 256, (w - 1) as nat));
        }
        assert((n / 256) * 256 + n % 256 == n) by (nonlinear_arith);
    } else {
        assert(n == 0) by {
            reveal_with_fuel(pow256, 1);
        }
    }
}

/// Bytes after the number change neither the number nor what precedes them.
pub proof fn lemma_decode_uint_prefix(b: Seq<u8>, g: Seq<u8>, w: nat, big: bool)
    requires
        decode_uint_spec(b, w, big) is Ok,
    ensures
        decode_uint_spec(b + g, w, big) == Ok::<(nat, Seq<u8>), ErrorModel>(
            (decode_uint_spec(b, w, big)->Ok_0.0, decode_uint_spec(b, w, big)->Ok_0.1 + g),
        ),
{
    assert((b + g).take(w as int) =~= b.take(w as int));
    assert((b + g).skip(w as int) =~= b.skip(w as int) + g);
}

/// Reading back the bytes of a number below `256^w` gives the number and consumes them all.
pub proof fn lemma_decode_uint_bytes(n: nat, w: nat, big: bool)
    requires
        n < pow256(w),
    ensures
        decode_uint_spec(uint_bytes(n, w, big), w, big) == Ok::<(nat, Seq<u8>), ErrorModel>(
            (n, Seq::empty()),
        ),
{
    lemma_uint_round_trip(n, w, big);
    let b = uint_bytes(n, w, big);
    assert(b.take(w as int) =~= b);
    assert(b.skip(w as int) =~= Seq::<u8>::empty());
}

/// Appends the `w` low-order bytes of `x` to `out` in the given byte order.
fn write_uint(x: u64, w: usize, big: bool, out: &mut Vec<u8>)
    ensures
        final(out)@ == old(out)@ + uint_bytes(x as nat, w as nat, big),
    decreases w,
{
    if w > 0 {
        if big {
            write_uint(x / 256, w - 1, big, out);
            out.push((x % 256) as u8);
            assert(final(out)@ =~= old(out)@ + uint_bytes(x as nat, w as nat, big));
        } else {
            out.push((x % 256) as u8);
            write_uint(x / 256, w - 1, big, out);
            assert(final(out)@ =~= old(out)@ + uint_bytes(x as nat, w as nat, big));
        }
    } else {
        assert(final(out)@ =~= old(out)@ + uint_bytes(x as nat, w as nat, big));
    }
}

/// The `w` low-order bytes of `x` as a byte vector, in the given byte order.
pub fn encode_uint(x: u64, w: usize, big: bool) -> (r: ByteVector)
    ensures
        r@ == uint_bytes(x as nat, w as nat, big),
{
    let mut v: Vec<u8> = Vec::new();
    write_uint(x, w, big, &mut v);
    assert(v@ =~= uint_bytes(x as nat, w as nat, big));
    from_slice_copy(v.as_slice())
}

/// Reads a `w`-byte unsigned number from the front of `bv`; also returns what follows it.
pub fn decode_uint(bv: &ByteVector, w: usize, big: bool) -> (r: Result<(u64, ByteVector), Error>)
    requires
        w <= 8,
    ensures
        match r {
            Ok((n, rest)) => decode_uint_spec(bv@, w as nat, big) == Ok::<(nat, Seq<u8>), ErrorModel>(
                (n as nat, rest@),
            ),
            Err(e) => decode_uint_spec(bv@, w as nat, big) == Err::<(nat, Seq<u8>), ErrorModel>(e@),
        },
{
    let mut buf = [0u8; 8];
    match bv.read(&mut buf, 0, w) {
        Err(e) => Err(e),
        Ok(_) => {
            let ghost b = bv@.take(w as int);
            assert(buf@.take(w as int) =~= b);
            let mut acc: u64 = 0;
            proof {
                lemma_pow256_widths();
                reveal_with_fuel(pow256, 9);
            }
            if big {
                let mut i: usize = 0;
                while i < w
                    invariant
                        i <= w <= 8,
                        buf@.take(w as int) == b,
                        acc as nat == be_value(b.take(i as int)),
                        pow256(8) == 0x1_0000_0000_0000_0000,
                    decreases w - i,
                {
                    proof {
                        lemma_value_bound(b.take(i as int), true);
                        lemma_pow_mono(i as nat, 7);
                        assert(b.take(i as int + 1).drop_last() =~= b.take(i as int));
                    }
                    acc = acc * 256 + buf[i] as u64;
                    i = i + 1;
                }
                assert(b.take(w as int) =~= b);
            } else {
                let mut i: usize = w;
                while i > 0
                    invariant
                        i <= w <= 8,
                        buf@.take(w as int) == b,
                        acc as nat == le_value(b.subrange(i as int, w as int)),
                        pow256(8) == 0x1_0000_0000_0000_0000,
                    decreases i,
                {
                    proof {
                        lemma_value_bound(b.subrange(i as int, w as int), false);
                        lemma_pow_mono((w - i) as nat, 7);
                        assert(b.subrange(i - 1, w as int).skip(1) =~= b.subrange(i as int, w as int));
                    }
                    acc = acc * 256 + buf[i - 1] as u64;
                    i = i - 1;
                }
                assert(b.subrange(0, w as int) =~= b);
            }
            match bv.drop(w) {
                Ok(rest) => Ok((acc, rest)),
                Err(e) => Err(e),
            }
        },
    }
}

/// Powers of 256 grow with the exponent.
proof fn lemma_pow_mono(a: nat, b: nat)
    requires
        a <= b,
    ensures
        pow256(a) <= pow256(b),
    decreases b,
{
    if a < b {
        lemma_pow_mono(a, (b - 1) as nat);
    }
}

} // verus!
