use vstd::prelude::*;

use crate::codec::{
    enc_rec, enc_records, encode_records, lemma_enc_records_index, lemma_enc_records_len,
    lemma_endian_reverse, width_of, width_of_exec,
};
use crate::getdata::lin_offset;
use crate::{lookup_entry, AccessError, Dirfile, Endian, Entry, EntryType, EntryTypeV, RawTypes};

verus! {

/// What a write prepares: for a raw field, the byte offset where the
/// encoded records belong and their on-disk bytes; derived fields are
/// read-only views and are refused.
pub open spec fn putdata_spec(
    entries: Seq<Entry>,
    name: Seq<u8>,
    ff: int,
    fs: int,
    data: Seq<u64>,
) -> Result<(int, Seq<u8>), AccessError> {
    match lookup_entry(entries, name) {
        None => Err(AccessError::UnknownField),
        Some(ev) => match ev.entry_type {
            EntryTypeV::Raw { spf, data_type } => {
                let off = lin_offset(ff, fs, spf as int) * width_of(data_type);
                if off > u64::MAX {
                    Err(AccessError::OffsetOverflow)
                } else {
                    Ok((off, enc_records(data, data_type, ev.options.endian)))
                }
            },
            _ => Err(AccessError::NotRaw),
        },
    }
}

impl Dirfile {
    /// Encodes `data` for the raw field `name` under the field's option
    /// snapshot: the byte offset of the first record and the records'
    /// on-disk bytes, ready to be written to the field's backing file.
    pub fn putdata(
        &self,
        name: &[u8],
        first_frame: usize,
        first_sample: usize,
        data: &[u64],
    ) -> (r: Result<(u64, Vec<u8>), AccessError>)
        ensures
            (match r {
                Ok(p) => putdata_spec(
                    self.entries@,
                    name@,
                    first_frame as int,
                    first_sample as int,
                    data@,
                ) == Ok::<_, AccessError>((p.0 as int, p.1@)),
                Err(e) => putdata_spec(
                    self.entries@,
                    name@,
                    first_frame as int,
                    first_sample as int,
                    data@,
                ) == Err::<(int, Seq<u8>), _>(e),
            }),
    {
        let entry = match self.find_entry(name) {
            None => {
                return Err(AccessError::UnknownField);
            },
            Some(e) => e,
        };
        match &entry.entry_type {
            EntryType::Raw(raw) => {
                let w = width_of_exec(raw.data_type);
                proof {
                    assert((first_frame as int) * (raw.spf as int) <= 0xffff_ffff_ffff_ffff
                        * 0xffff_ffff) by (nonlinear_arith)
                        requires
                            first_frame <= 0xffff_ffff_ffff_ffff,
                            raw.spf <= 0xffff_ffff,
                    ;
                }
                let off: u128 = (first_sample as u128) + (first_frame as u128) * (raw.spf as u128);
                proof {
                    assert((off as int) * (w as int) < 0x1_0000_0000_0000_0000_0000_0000_0000_0000)
                        by (nonlinear_arith)
                        requires
                            off <= 0x2_0000_0000_0000_0000_0000_0000u128,
                            w <= 8,
                    ;
                }
                let offb: u128 = off * (w as u128);
                if offb > 0xffff_ffff_ffff_ffffu128 {
                    return Err(AccessError::OffsetOverflow);
                }
                let bytes = encode_records(data, raw.data_type, entry.dirfile_options.endian);
                Ok((offb as u64, bytes))
            },
            _ => Err(AccessError::NotRaw),
        }
    }
}

/// Endianness of writes: two registries holding the same raw field but
/// for its endian snapshot prepare, for the same write, the same byte
/// offset and record-by-record byte-reversed bytes: each record is the
/// standard big- or little-endian layout of its value, the big-endian
/// record is the reversed little-endian one, and the two records differ
/// whenever that layout is not a palindrome.
pub proof fn lemma_putdata_endianness(
    entries_big: Seq<Entry>,
    entries_little: Seq<Entry>,
    name: Seq<u8>,
    ff: int,
    fs: int,
    data: Seq<u64>,
    spf: u32,
    dt: RawTypes,
)
    requires
        lookup_entry(entries_big, name) matches Some(eb) && eb.entry_type == (EntryTypeV::Raw {
            spf,
            data_type: dt,
        }) && eb.options.endian == Endian::Big,
        lookup_entry(entries_little, name) matches Some(el) && el.entry_type == (EntryTypeV::Raw {
            spf,
            data_type: dt,
        }) && el.options.endian == Endian::Little,
    ensures
        (match (
            putdata_spec(entries_big, name, ff, fs, data),
            putdata_spec(entries_little, name, ff, fs, data),
        ) {
            (Ok(pb), Ok(pl)) => {
                &&& pb.0 == pl.0
                &&& pb.1.len() == data.len() * width_of(dt)
                &&& pl.1.len() == data.len() * width_of(dt)
                &&& (forall|i: int|
                    0 <= i < data.len() ==> #[trigger] pb.1.subrange(
                        i * width_of(dt),
                        (i + 1) * width_of(dt),
                    ) == enc_rec(data[i], dt, Endian::Big))
                &&& (forall|i: int|
                    0 <= i < data.len() ==> #[trigger] pl.1.subrange(
                        i * width_of(dt),
                        (i + 1) * width_of(dt),
                    ) == enc_rec(data[i], dt, Endian::Little))
                &&& (forall|i: int|
                    0 <= i < data.len() ==> #[trigger] enc_rec(data[i], dt, Endian::Big) == enc_rec(
                        data[i],
                        dt,
                        Endian::Little,
                    ).reverse())
                &&& (forall|i: int|
                    0 <= i < data.len() && enc_rec(data[i], dt, Endian::Little) != enc_rec(
                        data[i],
                        dt,
                        Endian::Little,
                    ).reverse() ==> #[trigger] enc_rec(data[i], dt, Endian::Big) != enc_rec(
                        data[i],
                        dt,
                        Endian::Little,
                    ))
            },
            (Err(e1), Err(e2)) => e1 == e2,
            _ => false,
        }),
{
    let w = width_of(dt);
    lemma_enc_records_len(data, dt, Endian::Big);
    lemma_enc_records_len(data, dt, Endian::Little);
    let off = lin_offset(ff, fs, spf as int) * w;
    if off <= u64::MAX {
        assert forall|i: int| 0 <= i < data.len() implies enc_records(
            data,
            dt,
            Endian::Big,
        ).subrange(i * w, (i + 1) * w) == enc_rec(data[i], dt, Endian::Big) && enc_records(
            data,
            dt,
            Endian::Little,
        ).subrange(i * w, (i + 1) * w) == enc_rec(data[i], dt, Endian::Little) && enc_rec(
            data[i],
            dt,
            Endian::Big,
        ) == enc_rec(data[i], dt, Endian::Little).reverse() by {
            lemma_enc_records_index(data, dt, Endian::Big, i);
            lemma_enc_records_index(data, dt, Endian::Little, i);
            lemma_endian_reverse(data[i], dt);
        }
    }
}

} // verus!
