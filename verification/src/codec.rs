use vstd::prelude::*;

use crate::{Endian, RawTypes};

verus! {

// ---------------------------------------------------------------------------
// Record width
// ---------------------------------------------------------------------------

/// On-disk width in bytes of one sample of the given type.
pub open spec fn width_of(dt: RawTypes) -> int {
    match dt {
        RawTypes::Uint32 => 4,
        RawTypes::Uint64 => 8,
        RawTypes::Float64 => 8,
    }
}

pub fn width_of_exec(dt: RawTypes) -> (r: usize)
    ensures
        r as int == width_of(dt),
        1 <= r <= 8,
{
    match dt {
        RawTypes::Uint32 => 4,
        RawTypes::Uint64 => 8,
        RawTypes::Float64 => 8,
    }
}

// ---------------------------------------------------------------------------
// One record: 4- or 8-byte little/big-endian layouts
// ---------------------------------------------------------------------------

/// Little-endian layout of the low 32 bits of `v`.
pub open spec fn enc4_le(v: u64) -> Seq<u8> {
    seq![v as u8, (v >> 8) as u8, (v >> 16) as u8, (v >> 24) as u8]
}

/// Big-endian layout of the low 32 bits of `v`.
pub open spec fn enc4_be(v: u64) -> Seq<u8> {
    seq![(v >> 24) as u8, (v >> 16) as u8, (v >> 8) as u8, v as u8]
}

/// Little-endian layout of `v`.
pub open spec fn enc8_le(v: u64) -> Seq<u8> {
    seq![
        v as u8,
        (v >> 8) as u8,
        (v >> 16) as u8,
        (v >> 24) as u8,
        (v >> 32) as u8,
        (v >> 40) as u8,
        (v >> 48) as u8,
        (v >> 56) as u8,
    ]
}

/// Big-endian layout of `v`.
pub open spec fn enc8_be(v: u64) -> Seq<u8> {
    seq![
        (v >> 56) as u8,
        (v >> 48) as u8,
        (v >> 40) as u8,
        (v >> 32) as u8,
        (v >> 24) as u8,
        (v >> 16) as u8,
        (v >> 8) as u8,
        v as u8,
    ]
}

pub open spec fn dec4_le(b: Seq<u8>) -> u64 {
    (b[0] as u64) | (b[1] as u64) << 8 | (b[2] as u64) << 16 | (b[3] as u64) << 24
}

pub open spec fn dec4_be(b: Seq<u8>) -> u64 {
    (b[3] as u64) | (b[2] as u64) << 8 | (b[1] as u64) << 16 | (b[0] as u64) << 24
}

pub open spec fn dec8_le(b: Seq<u8>) -> u64 {
    (b[0] as u64) | (b[1] as u64) << 8 | (b[2] as u64) << 16 | (b[3] as u64) << 24 | (b[4] as u64)
        << 32 | (b[5] as u64) << 40 | (b[6] as u64) << 48 | (b[7] as u64) << 56
}

pub open spec fn dec8_be(b: Seq<u8>) -> u64 {
    (b[7] as u64) | (b[6] as u64) << 8 | (b[5] as u64) << 16 | (b[4] as u64) << 24 | (b[3] as u64)
        << 32 | (b[2] as u64) << 40 | (b[1] as u64) << 48 | (b[0] as u64) << 56
}

/// The on-disk bytes of one sample.
pub open spec fn enc_rec(v: u64, dt: RawTypes, e: Endian) -> Seq<u8> {
    match dt {
        RawTypes::Uint32 => match e {
            Endian::Big => enc4_be(v),
            Endian::Little => enc4_le(v),
        },
        _ => match e {
            Endian::Big => enc8_be(v),
            Endian::Little => enc8_le(v),
        },
    }
}

/// The sample value of one record's bytes.
pub open spec fn dec_rec(b: Seq<u8>, dt: RawTypes, e: Endian) -> u64 {
    match dt {
        RawTypes::Uint32 => match e {
            Endian::Big => dec4_be(b),
            Endian::Little => dec4_le(b),
        },
        _ => match e {
            Endian::Big => dec8_be(b),
            Endian::Little => dec8_le(b),
        },
    }
}

/// Appends the on-disk bytes of one sample.
pub fn enc_rec_push(out: &mut Vec<u8>, v: u64, dt: RawTypes, e: Endian)
    ensures
        final(out)@ == old(out)@ + enc_rec(v, dt, e),
{
    let four = match dt {
        RawTypes::Uint32 => true,
        _ => false,
    };
    let little = match e {
        Endian::Big => false,
        Endian::Little => true,
    };
    if four {
        if little {
            out.push(#[verifier::truncate] (v as u8));
            out.push(#[verifier::truncate] ((v >> 8) as u8));
            out.push(#[verifier::truncate] ((v >> 16) as u8));
            out.push(#[verifier::truncate] ((v >> 24) as u8));
            proof {
                assert(out@ =~= old(out)@ + enc4_le(v));
            }
        } else {
            out.push(#[verifier::truncate] ((v >> 24) as u8));
            out.push(#[verifier::truncate] ((v >> 16) as u8));
            out.push(#[verifier::truncate] ((v >> 8) as u8));
            out.push(#[verifier::truncate] (v as u8));
            proof {
                assert(out@ =~= old(out)@ + enc4_be(v));
            }
        }
    } else {
        if little {
            out.push(#[verifier::truncate] (v as u8));
            out.push(#[verifier::truncate] ((v >> 8) as u8));
            out.push(#[verifier::truncate] ((v >> 16) as u8));
            out.push(#[verifier::truncate] ((v >> 24) as u8));
            out.push(#[verifier::truncate] ((v >> 32) as u8));
            out.push(#[verifier::truncate] ((v >> 40) as u8));
            out.push(#[verifier::truncate] ((v >> 48) as u8));
            out.push(#[verifier::truncate] ((v >> 56) as u8));
            proof {
                assert(out@ =~= old(out)@ + enc8_le(v));
            }
        } else {
            out.push(#[verifier::truncate] ((v >> 56) as u8));
            out.push(#[verifier::truncate] ((v >> 48) as u8));
            out.push(#[verifier::truncate] ((v >> 40) as u8));
            out.push(#[verifier::truncate] ((v >> 32) as u8));
            out.push(#[verifier::truncate] ((v >> 24) as u8));
            out.push(#[verifier::truncate] ((v >> 16) as u8));
            out.push(#[verifier::truncate] ((v >> 8) as u8));
            out.push(#[verifier::truncate] (v as u8));
            proof {
                assert(out@ =~= old(out)@ + enc8_be(v));
            }
        }
    }
}

/// Decodes one record starting at byte `off`.
pub fn dec_rec_at(file: &[u8], off: usize, dt: RawTypes, e: Endian) -> (r: u64)
    requires
        off + width_of(dt) <= file@.len(),
    ensures
        r == dec_rec(file@.subrange(off as int, off + width_of(dt)), dt, e),
{
    let four = match dt {
        RawTypes::Uint32 => true,
        _ => false,
    };
    let little = match e {
        Endian::Big => false,
        Endian::Little => true,
    };
    if four {
        let b0 = file[off] as u64;
        let b1 = file[off + 1] as u64;
        let b2 = file[off + 2] as u64;
        let b3 = file[off + 3] as u64;
        if little {
            b0 | b1 << 8 | b2 << 16 | b3 << 24
        } else {
            b3 | b2 << 8 | b1 << 16 | b0 << 24
        }
    } else {
        let b0 = file[off] as u64;
        let b1 = file[off + 1] as u64;
        let b2 = file[off + 2] as u64;
        let b3 = file[off + 3] as u64;
        let b4 = file[off + 4] as u64;
        let b5 = file[off + 5] as u64;
        let b6 = file[off + 6] as u64;
        let b7 = file[off + 7] as u64;
        if little {
            b0 | b1 << 8 | b2 << 16 | b3 << 24 | b4 << 32 | b5 << 40 | b6 << 48 | b7 << 56
        } else {
            b7 | b6 << 8 | b5 << 16 | b4 << 24 | b3 << 32 | b2 << 40 | b1 << 48 | b0 << 56
        }
    }
}

// ---------------------------------------------------------------------------
// Record sequences
// ---------------------------------------------------------------------------

/// The concatenated on-disk bytes of a sequence of samples.
pub open spec fn enc_records(vs: Seq<u64>, dt: RawTypes, e: Endian) -> Seq<u8>
    decreases vs.len(),
{
    if vs.len() == 0 {
        seq![]
    } else {
        enc_records(vs.drop_last(), dt, e) + enc_rec(vs.last(), dt, e)
    }
}

/// `n` decoded records starting at byte `start`.
pub open spec fn dec_records(file: Seq<u8>, start: int, n: int, dt: RawTypes, e: Endian) -> Seq<
    u64,
> {
    Seq::new(
        n as nat,
        |i: int| dec_rec(file.subrange(start + i * width_of(dt), start + (i + 1) * width_of(dt)), dt, e),
    )
}

/// Encodes samples to their on-disk bytes.
pub fn encode_records(vs: &[u64], dt: RawTypes, e: Endian) -> (r: Vec<u8>)
    ensures
        r@ == enc_records(vs@, dt, e),
{
    let mut out: Vec<u8> = Vec::new();
    let mut i: usize = 0;
    while i < vs.len()
        invariant
            i <= vs@.len(),
            out@ == enc_records(vs@.subrange(0, i as int), dt, e),
        decreases vs@.len() - i,
    {
        enc_rec_push(&mut out, vs[i], dt, e);
        proof {
            let pre = vs@.subrange(0, i as int);
            let cur = vs@.subrange(0, i + 1 as int);
            assert(cur.drop_last() =~= pre);
            assert(cur.last() == vs@[i as int]);
        }
        i += 1;
    }
    proof {
        assert(vs@.subrange(0, vs@.len() as int) =~= vs@);
    }
    out
}

pub proof fn lemma_enc_records_len(vs: Seq<u64>, dt: RawTypes, e: Endian)
    ensures
        enc_records(vs, dt, e).len() == vs.len() * width_of(dt),
    decreases vs.len(),
{
    let w = width_of(dt);
    if vs.len() == 0 {
    } else {
        lemma_enc_records_len(vs.drop_last(), dt, e);
        assert((vs.len() - 1) * w + w == vs.len() * w) by (nonlinear_arith);
    }
}

/// Each record of an encoded run sits at its own offset.
pub proof fn lemma_enc_records_index(vs: Seq<u64>, dt: RawTypes, e: Endian, i: int)
    requires
        0 <= i < vs.len(),
    ensures
        enc_records(vs, dt, e).subrange(i * width_of(dt), (i + 1) * width_of(dt)) == enc_rec(
            vs[i],
            dt,
            e,
        ),
    decreases vs.len(),
{
    let w = width_of(dt);
    lemma_enc_records_len(vs, dt, e);
    lemma_enc_records_len(vs.drop_last(), dt, e);
    assert(enc_rec(vs.last(), dt, e).len() == w);
    if i == vs.len() - 1 {
        assert(i * w >= 0 && (i + 1) * w == vs.len() * w) by (nonlinear_arith)
            requires
                i == vs.len() - 1,
                0 <= i,
                w == width_of(dt),
                1 <= w,
        ;
        assert(enc_records(vs, dt, e).subrange(i * w, (i + 1) * w) =~= enc_rec(vs[i], dt, e));
    } else {
        lemma_enc_records_index(vs.drop_last(), dt, e, i);
        assert(0 <= i * w && (i + 1) * w <= (vs.len() - 1) * w) by (nonlinear_arith)
            requires
                0 <= i < vs.len() - 1,
                w == width_of(dt),
                1 <= w,
        ;
        assert(enc_records(vs, dt, e).subrange(i * w, (i + 1) * w) =~= enc_records(
            vs.drop_last(),
            dt,
            e,
        ).subrange(i * w, (i + 1) * w));
        assert(vs.drop_last()[i] == vs[i]);
    }
}

// ---------------------------------------------------------------------------
// Laws: round trip and endianness
// ---------------------------------------------------------------------------

/// Decoding an encoded 4-byte record gives back the value modulo 2^32.
pub proof fn lemma_roundtrip4(v: u64, e: Endian)
    ensures
        dec_rec(enc_rec(v, RawTypes::Uint32, e), RawTypes::Uint32, e) == v % 0x1_0000_0000,
{
    let b0 = v as u8;
    let b1 = (v >> 8) as u8;
    let b2 = (v >> 16) as u8;
    let b3 = (v >> 24) as u8;
    assert((b0 as u64) | (b1 as u64) << 8 | (b2 as u64) << 16 | (b3 as u64) << 24 == v
        % 0x1_0000_0000) by (bit_vector)
        requires
            b0 == v as u8,
            b1 == (v >> 8) as u8,
            b2 == (v >> 16) as u8,
            b3 == (v >> 24) as u8,
    ;
}

/// Decoding an encoded 8-byte record gives back the value.
pub proof fn lemma_roundtrip8(v: u64, dt: RawTypes, e: Endian)
    requires
        width_of(dt) == 8,
    ensures
        dec_rec(enc_rec(v, dt, e), dt, e) == v,
{
    let b0 = v as u8;
    let b1 = (v >> 8) as u8;
    let b2 = (v >> 16) as u8;
    let b3 = (v >> 24) as u8;
    let b4 = (v >> 32) as u8;
    let b5 = (v >> 40) as u8;
    let b6 = (v >> 48) as u8;
    let b7 = (v >> 56) as u8;
    assert((b0 as u64) | (b1 as u64) << 8 | (b2 as u64) << 16 | (b3 as u64) << 24 | (b4 as u64)
        << 32 | (b5 as u64) << 40 | (b6 as u64) << 48 | (b7 as u64) << 56 == v) by (bit_vector)
        requires
            b0 == v as u8,
            b1 == (v >> 8) as u8,
            b2 == (v >> 16) as u8,
            b3 == (v >> 24) as u8,
            b4 == (v >> 32) as u8,
            b5 == (v >> 40) as u8,
            b6 == (v >> 48) as u8,
            b7 == (v >> 56) as u8,
    ;
}

/// The big-endian layout of a value is the byte-reversed little-endian
/// layout; the two layouts differ exactly when the bytes are not a
/// palindrome.
pub proof fn lemma_endian_reverse(v: u64, dt: RawTypes)
    ensures
        enc_rec(v, dt, Endian::Big) == enc_rec(v, dt, Endian::Little).reverse(),
        enc_rec(v, dt, Endian::Little) != enc_rec(v, dt, Endian::Little).reverse() ==> enc_rec(
            v,
            dt,
            Endian::Big,
        ) != enc_rec(v, dt, Endian::Little),
{
    match dt {
        RawTypes::Uint32 => {
            assert(enc4_be(v) =~= enc4_le(v).reverse());
        },
        _ => {
            assert(enc8_be(v) =~= enc8_le(v).reverse());
        },
    }
}

} // verus!
