use vstd::prelude::*;

use crate::codec::{dec_rec, dec_rec_at, dec_records, width_of, width_of_exec};
use crate::float::{
    add_bits, div_bits, double_of_uint, f64_add, f64_div, f64_from_uint, f64_lt, f64_mul, f64_sub,
    f64_to_uint, lt_bits, mul_bits, sub_bits, uint_of_double,
};
use crate::{
    bytes_eq, join_path, join_spec, lookup_entry, lookup_upto, slice_to_vec, store_lookup, term_views, views_of,
    AccessError, Dirfile, Endian, Entry, EntryBit, EntryLincom, EntryLinterp, EntryRaw, EntryType,
    EntryTypeV, FileStore, RawTypes, TermV,
};

verus! {

/// What the 64-bit values of an evaluation result are: plain unsigned
/// integers, or IEEE-754 double bit patterns.
#[derive(Clone, Copy, Debug, PartialEq, Eq, Structural)]
pub enum ValueKind {
    UInt,
    Double,
}

pub open spec fn kind_of(dt: RawTypes) -> ValueKind {
    match dt {
        RawTypes::Float64 => ValueKind::Double,
        _ => ValueKind::UInt,
    }
}

pub fn kind_of_exec(dt: RawTypes) -> (r: ValueKind)
    ensures
        r == kind_of(dt),
{
    match dt {
        RawTypes::Float64 => ValueKind::Double,
        _ => ValueKind::UInt,
    }
}

// ---------------------------------------------------------------------------
// The window law and the raw read
// ---------------------------------------------------------------------------

/// Linear sample offset of a frame/sample coordinate pair.
pub open spec fn lin_offset(ff: int, fs: int, spf: int) -> int {
    fs + ff * spf
}

/// Number of records a frame/sample window asks for.
pub open spec fn rec_count(nf: int, ns: int, spf: int) -> int {
    nf * spf + ns
}

/// What a raw read returns: records decoded from the byte offset
/// `lin_offset * width`, truncated to what the file holds (a window past
/// the written extent yields a short result, not an error).
pub open spec fn read_raw_spec(
    file: Seq<u8>,
    dt: RawTypes,
    e: Endian,
    spf: int,
    ff: int,
    fs: int,
    nf: int,
    ns: int,
) -> Seq<u64> {
    let w = width_of(dt);
    let start = lin_offset(ff, fs, spf) * w;
    let want = rec_count(nf, ns, spf);
    let avail = if start >= file.len() {
        0
    } else {
        (file.len() - start) / w
    };
    let n = if want <= avail {
        want
    } else {
        avail
    };
    dec_records(file, start, n, dt, e)
}

// ---------------------------------------------------------------------------
// Per-sample transforms
// ---------------------------------------------------------------------------

/// The mask a bit field applies: `num_bits` ones starting at `start_bit`.
pub open spec fn mask_of(start_bit: u32, num_bits: u32) -> u64 {
    (0xffff_ffff_ffff_ffffu64 >> ((64 - num_bits) as u64)) << (start_bit as u64)
}

pub open spec fn masked_vals(u: Seq<u64>, start_bit: u32, num_bits: u32) -> Seq<u64> {
    Seq::new(u.len(), |i: int| u[i] & mask_of(start_bit, num_bits))
}

pub open spec fn uints_of(vals: Seq<u64>) -> Seq<u64> {
    Seq::new(vals.len(), |i: int| uint_of_double(vals[i]))
}

pub open spec fn doubles_of(vals: Seq<u64>) -> Seq<u64> {
    Seq::new(vals.len(), |i: int| double_of_uint(vals[i]))
}

/// A result's values as unsigned integers: doubles are converted.
pub open spec fn as_uint_vals(vals: Seq<u64>, k: ValueKind) -> Seq<u64> {
    match k {
        ValueKind::UInt => vals,
        ValueKind::Double => uints_of(vals),
    }
}

/// A result's values as double bit patterns: integers are converted.
pub open spec fn as_double_vals(vals: Seq<u64>, k: ValueKind) -> Seq<u64> {
    match k {
        ValueKind::Double => vals,
        ValueKind::UInt => doubles_of(vals),
    }
}

pub open spec fn zero_seq(n: nat) -> Seq<u64> {
    Seq::new(n, |i: int| 0u64)
}

/// One linear-combination step: pairwise `acc + m * v + b` in double
/// arithmetic, truncated to the shorter of the two sequences.
pub open spec fn lincom_apply(acc: Seq<u64>, vals: Seq<u64>, m: u64, b: u64) -> Seq<u64> {
    let n = if acc.len() <= vals.len() {
        acc.len()
    } else {
        vals.len()
    };
    Seq::new(n, |i: int| add_bits(add_bits(acc[i], mul_bits(m, vals[i])), b))
}

/// Binary search: the first index in `[lo, hi)` at which `x` is not below
/// `v` (all of `x` below `v` gives `hi`).
pub open spec fn bs_low(x: Seq<u64>, v: u64, lo: int, hi: int) -> int
    decreases hi - lo,
{
    if lo >= hi {
        lo
    } else {
        let mid = lo + (hi - lo) / 2;
        if lt_bits(x[mid], v) {
            bs_low(x, v, mid + 1, hi)
        } else {
            bs_low(x, v, lo, mid)
        }
    }
}

/// One table lookup: clamped at the table's ends, linear interpolation
/// `y1 + (v - x1) * (y2 - y1) / (x2 - x1)` between the bracketing points.
pub open spec fn linterp_one(x: Seq<u64>, y: Seq<u64>, v: u64) -> u64 {
    let low = bs_low(x, v, 0, x.len() as int);
    if low == 0 {
        y[0]
    } else if low == x.len() {
        y[x.len() - 1]
    } else {
        add_bits(
            y[low - 1],
            div_bits(
                mul_bits(sub_bits(v, x[low - 1]), sub_bits(y[low], y[low - 1])),
                sub_bits(x[low], x[low - 1]),
            ),
        )
    }
}

pub open spec fn linterp_vals(x: Seq<u64>, y: Seq<u64>, dv: Seq<u64>) -> Seq<u64> {
    Seq::new(dv.len(), |i: int| linterp_one(x, y, dv[i]))
}

// ---------------------------------------------------------------------------
// The evaluation of a field
// ---------------------------------------------------------------------------

pub open spec fn eval_measure(entries: Seq<Entry>, visited: Seq<Seq<u8>>) -> int {
    entries.len() + 1 - visited.len()
}

/// What evaluating the field `name` over a window returns: raw fields
/// decode their backing bytes, bit fields mask an unsigned read of their
/// parent, linear combinations fold their terms over double reads, and
/// lookup fields interpolate a double read. `visited` is the chain of
/// fields already being evaluated: revisiting one is a cycle error, as
/// is a chain longer than the registry (which only a revisit could make).
pub open spec fn eval_spec(
    entries: Seq<Entry>,
    files: Seq<(Vec<u8>, Vec<u8>)>,
    name: Seq<u8>,
    ff: int,
    fs: int,
    nf: int,
    ns: int,
    visited: Seq<Seq<u8>>,
) -> Result<(Seq<u64>, ValueKind), AccessError>
    decreases eval_measure(entries, visited), 0int, 0int,
{
    if visited.contains(name) {
        Err(AccessError::FieldCycle)
    } else if visited.len() > entries.len() {
        Err(AccessError::FieldCycle)
    } else {
        match lookup_entry(entries, name) {
            None => Err(AccessError::UnknownField),
            Some(ev) => match ev.entry_type {
                EntryTypeV::Raw { spf, data_type } => {
                    match store_lookup(files, join_spec(ev.dir, name)) {
                        None => Err(AccessError::MissingData),
                        Some(data) => Ok(
                            (
                                read_raw_spec(
                                    data,
                                    data_type,
                                    ev.options.endian,
                                    spf as int,
                                    ff,
                                    fs,
                                    nf,
                                    ns,
                                ),
                                kind_of(data_type),
                            ),
                        ),
                    }
                },
                EntryTypeV::Bit { start_bit, num_bits, parent } => {
                    if num_bits < 1 || start_bit + num_bits > 64 {
                        Err(AccessError::BitRange)
                    } else {
                        match eval_spec(entries, files, parent, ff, fs, nf, ns, visited.push(name)) {
                            Err(e) => Err(e),
                            Ok((vals, k)) => Ok(
                                (masked_vals(as_uint_vals(vals, k), start_bit, num_bits), ValueKind::UInt),
                            ),
                        }
                    }
                },
                EntryTypeV::Lincom { terms } => {
                    if terms.len() == 0 {
                        Err(AccessError::EmptyLincom)
                    } else {
                        match lincom_full_spec(
                            entries,
                            files,
                            terms,
                            ff,
                            fs,
                            nf,
                            ns,
                            visited.push(name),
                        ) {
                            Err(e) => Err(e),
                            Ok(acc) => Ok((acc, ValueKind::Double)),
                        }
                    }
                },
                EntryTypeV::Linterp { parent, lut, x, y } => {
                    if x.len() == 0 || x.len() != y.len() {
                        Err(AccessError::BadTable)
                    } else {
                        match eval_spec(entries, files, parent, ff, fs, nf, ns, visited.push(name)) {
                            Err(e) => Err(e),
                            Ok((vals, k)) => Ok(
                                (linterp_vals(x, y, as_double_vals(vals, k)), ValueKind::Double),
                            ),
                        }
                    }
                },
            },
        }
    }
}

/// A whole linear combination: the first term folded over a zero
/// accumulator of its parent's length, then the remaining terms.
pub open spec fn lincom_full_spec(
    entries: Seq<Entry>,
    files: Seq<(Vec<u8>, Vec<u8>)>,
    terms: Seq<TermV>,
    ff: int,
    fs: int,
    nf: int,
    ns: int,
    visited: Seq<Seq<u8>>,
) -> Result<Seq<u64>, AccessError>
    decreases eval_measure(entries, visited), 2int, 0int,
{
    if terms.len() == 0 {
        Err(AccessError::EmptyLincom)
    } else {
        match eval_spec(entries, files, terms[0].parent, ff, fs, nf, ns, visited) {
            Err(e) => Err(e),
            Ok((v0, k0)) => {
                let d0 = as_double_vals(v0, k0);
                let acc0 = lincom_apply(zero_seq(d0.len()), d0, terms[0].m, terms[0].b);
                lincom_rest_spec(entries, files, terms, 1, acc0, ff, fs, nf, ns, visited)
            },
        }
    }
}

/// The remaining terms of a linear combination, folded onto `acc`.
pub open spec fn lincom_rest_spec(
    entries: Seq<Entry>,
    files: Seq<(Vec<u8>, Vec<u8>)>,
    terms: Seq<TermV>,
    i: int,
    acc: Seq<u64>,
    ff: int,
    fs: int,
    nf: int,
    ns: int,
    visited: Seq<Seq<u8>>,
) -> Result<Seq<u64>, AccessError>
    decreases eval_measure(entries, visited), 1int, terms.len() - i,
{
    if i < 0 || i >= terms.len() {
        Ok(acc)
    } else {
        match eval_spec(entries, files, terms[i].parent, ff, fs, nf, ns, visited) {
            Err(e) => Err(e),
            Ok((vals, k)) => lincom_rest_spec(
                entries,
                files,
                terms,
                i + 1,
                lincom_apply(acc, as_double_vals(vals, k), terms[i].m, terms[i].b),
                ff,
                fs,
                nf,
                ns,
                visited,
            ),
        }
    }
}

// ---------------------------------------------------------------------------
// Executable evaluation
// ---------------------------------------------------------------------------

fn as_uint_exec(vals: Vec<u64>, k: ValueKind) -> (r: Vec<u64>)
    ensures
        r@ == as_uint_vals(vals@, k),
{
    match k {
        ValueKind::UInt => vals,
        ValueKind::Double => {
            let mut out: Vec<u64> = Vec::new();
            let mut i: usize = 0;
            while i < vals.len()
                invariant
                    i <= vals@.len(),
                    out@.len() == i,
                    forall|j: int| 0 <= j < i ==> out@[j] == uint_of_double(vals@[j]),
                decreases vals@.len() - i,
            {
                out.push(f64_to_uint(vals[i]));
                i += 1;
            }
            proof {
                assert(out@ =~= uints_of(vals@));
            }
            out
        },
    }
}

fn as_double_exec(vals: Vec<u64>, k: ValueKind) -> (r: Vec<u64>)
    ensures
        r@ == as_double_vals(vals@, k),
{
    match k {
        ValueKind::Double => vals,
        ValueKind::UInt => {
            let mut out: Vec<u64> = Vec::new();
            let mut i: usize = 0;
            while i < vals.len()
                invariant
                    i <= vals@.len(),
                    out@.len() == i,
                    forall|j: int| 0 <= j < i ==> out@[j] == double_of_uint(vals@[j]),
                decreases vals@.len() - i,
            {
                out.push(f64_from_uint(vals[i]));
                i += 1;
            }
            proof {
                assert(out@ =~= doubles_of(vals@));
            }
            out
        },
    }
}

fn lincom_apply_exec(acc: &Vec<u64>, vals: &Vec<u64>, m: u64, b: u64) -> (r: Vec<u64>)
    ensures
        r@ == lincom_apply(acc@, vals@, m, b),
{
    let n = if acc.len() <= vals.len() {
        acc.len()
    } else {
        vals.len()
    };
    let mut out: Vec<u64> = Vec::new();
    let mut i: usize = 0;
    while i < n
        invariant
            i <= n,
            n <= acc@.len(),
            n <= vals@.len(),
            out@.len() == i,
            forall|j: int| 0 <= j < i ==> out@[j] == add_bits(
                add_bits(acc@[j], mul_bits(m, vals@[j])),
                b,
            ),
        decreases n - i,
    {
        out.push(f64_add(f64_add(acc[i], f64_mul(m, vals[i])), b));
        i += 1;
    }
    proof {
        assert(out@ =~= lincom_apply(acc@, vals@, m, b));
    }
    out
}

fn zero_vec(n: usize) -> (r: Vec<u64>)
    ensures
        r@ == zero_seq(n as nat),
{
    let mut out: Vec<u64> = Vec::new();
    let mut i: usize = 0;
    while i < n
        invariant
            i <= n,
            out@.len() == i,
            forall|j: int| 0 <= j < i ==> out@[j] == 0u64,
        decreases n - i,
    {
        out.push(0);
        i += 1;
    }
    proof {
        assert(out@ =~= zero_seq(n as nat));
    }
    out
}

fn linterp_one_exec(x: &Vec<u64>, y: &Vec<u64>, v: u64) -> (r: u64)
    requires
        x@.len() >= 1,
        x@.len() == y@.len(),
    ensures
        r == linterp_one(x@, y@, v),
{
    let mut lo: usize = 0;
    let mut hi: usize = x.len();
    while lo < hi
        invariant
            0 <= lo <= hi <= x@.len(),
            bs_low(x@, v, lo as int, hi as int) == bs_low(x@, v, 0, x@.len() as int),
        decreases hi - lo,
    {
        let mid = lo + (hi - lo) / 2;
        if f64_lt(x[mid], v) {
            lo = mid + 1;
        } else {
            hi = mid;
        }
    }
    if lo == 0 {
        y[0]
    } else if lo == x.len() {
        y[y.len() - 1]
    } else {
        let x1 = x[lo - 1];
        let x2 = x[lo];
        let y1 = y[lo - 1];
        let y2 = y[lo];
        f64_add(y1, f64_div(f64_mul(f64_sub(v, x1), f64_sub(y2, y1)), f64_sub(x2, x1)))
    }
}

impl Dirfile {
    /// Decodes a window of a raw field out of its backing bytes; a window
    /// past the end of the bytes yields a short result.
    pub fn getraw(
        &self,
        entry_raw: &EntryRaw,
        file: &[u8],
        endian: Endian,
        first_frame: usize,
        first_sample: usize,
        num_frames: usize,
        num_samples: usize,
    ) -> (r: Vec<u64>)
        ensures
            r@ == read_raw_spec(
                file@,
                entry_raw.data_type,
                endian,
                entry_raw.spf as int,
                first_frame as int,
                first_sample as int,
                num_frames as int,
                num_samples as int,
            ),
    {
        let dt = entry_raw.data_type;
        let w = width_of_exec(dt);
        let spf = entry_raw.spf;
        proof {
            assert((first_frame as int) * (spf as int) <= 0xffff_ffff_ffff_ffff * 0xffff_ffff)
                by (nonlinear_arith)
                requires
                    first_frame <= 0xffff_ffff_ffff_ffff,
                    spf <= 0xffff_ffff,
            ;
            assert((num_frames as int) * (spf as int) <= 0xffff_ffff_ffff_ffff * 0xffff_ffff)
                by (nonlinear_arith)
                requires
                    num_frames <= 0xffff_ffff_ffff_ffff,
                    spf <= 0xffff_ffff,
            ;
        }
        let start: u128 = first_sample as u128 + (first_frame as u128) * (spf as u128);
        let want: u128 = (num_frames as u128) * (spf as u128) + (num_samples as u128);
        proof {
            assert((start as int) * (w as int) < 0x1_0000_0000_0000_0000_0000_0000_0000_0000)
                by (nonlinear_arith)
                requires
                    start <= 0x2_0000_0000_0000_0000_0000_0000u128,
                    w <= 8,
            ;
        }
        let startb: u128 = start * (w as u128);
        let flen: u128 = file.len() as u128;
        let mut out: Vec<u64> = Vec::new();
        if startb >= flen {
            proof {
                assert(out@ =~= read_raw_spec(
                    file@,
                    dt,
                    endian,
                    spf as int,
                    first_frame as int,
                    first_sample as int,
                    num_frames as int,
                    num_samples as int,
                ));
            }
            return out;
        }
        let avail: u128 = (flen - startb) / (w as u128);
        proof {
            assert((avail as int) == ((flen - startb) as int) / (w as int));
            assert(((flen - startb) as int) / (w as int) <= (flen - startb) as int) by (nonlinear_arith)
                requires
                    1 <= w as int <= 8,
                    0 <= (flen - startb) as int,
            ;
            assert(((flen - startb) as int) / (w as int) * (w as int) <= (flen - startb) as int)
                by (nonlinear_arith)
                requires
                    1 <= w as int <= 8,
                    0 <= (flen - startb) as int,
            ;
        }
        let n: usize = if want <= avail {
            want as usize
        } else {
            avail as usize
        };
        let start_b: usize = startb as usize;
        proof {
            assert((n as int) * (w as int) <= (avail as int) * (w as int)) by (nonlinear_arith)
                requires
                    0 <= n as int <= avail as int,
                    0 <= w as int,
            ;
        }
        let mut j: usize = 0;
        while j < n
            invariant
                j <= n,
                w as int == width_of(dt),
                1 <= w <= 8,
                start_b + n * w <= file@.len(),
                file@.len() <= usize::MAX,
                out@.len() == j,
                forall|t: int| 0 <= t < j ==> out@[t] == dec_rec(
                    file@.subrange(start_b + t * (w as int), start_b + (t + 1) * (w as int)),
                    dt,
                    endian,
                ),
            decreases n - j,
        {
            proof {
                assert(0 <= (j as int) * (w as int) && (j as int) * (w as int) <= ((j + 1) as int)
                    * (w as int) && ((j + 1) as int) * (w as int) <= (n as int) * (w as int))
                    by (nonlinear_arith)
                    requires
                        0 <= j as int,
                        j + 1 <= n as int,
                        1 <= w as int,
                ;
            }
            let off = start_b + j * w;
            let v = dec_rec_at(file, off, dt, endian);
            out.push(v);
            j += 1;
        }
        proof {
            assert(out@ =~= read_raw_spec(
                file@,
                dt,
                endian,
                spf as int,
                first_frame as int,
                first_sample as int,
                num_frames as int,
                num_samples as int,
            ));
        }
        out
    }

    fn visited_contains(visited: &Vec<Vec<u8>>, name: &[u8]) -> (r: bool)
        ensures
            r == views_of(visited@).contains(name@),
    {
        let mut i: usize = 0;
        while i < visited.len()
            invariant
                i <= visited@.len(),
                forall|j: int| 0 <= j < i ==> visited@[j]@ != name@,
            decreases visited@.len() - i,
        {
            if bytes_eq(visited[i].as_slice(), name) {
                proof {
                    assert(views_of(visited@)[i as int] == name@);
                }
                return true;
            }
            i += 1;
        }
        proof {
            assert(forall|j: int|
                0 <= j < views_of(visited@).len() ==> views_of(visited@)[j] != name@);
        }
        false
    }

    /// Evaluates `name` with `visited` the chain of fields already being
    /// evaluated; `visited` is restored before returning.
    fn eval_rec(
        &self,
        name: &[u8],
        ff: usize,
        fs: usize,
        nf: usize,
        ns: usize,
        files: &FileStore,
        visited: &mut Vec<Vec<u8>>,
    ) -> (r: Result<(Vec<u64>, ValueKind), AccessError>)
        ensures
            final(visited)@ == old(visited)@,
            (match r {
                Ok(p) => eval_spec(
                    self.entries@,
                    files.files@,
                    name@,
                    ff as int,
                    fs as int,
                    nf as int,
                    ns as int,
                    views_of(old(visited)@),
                ) == Ok::<_, AccessError>((p.0@, p.1)),
                Err(e) => eval_spec(
                    self.entries@,
                    files.files@,
                    name@,
                    ff as int,
                    fs as int,
                    nf as int,
                    ns as int,
                    views_of(old(visited)@),
                ) == Err::<(Seq<u64>, ValueKind), _>(e),
            }),
        decreases self.entries@.len() + 1 - visited@.len(), 0int, 0int,
    {
        if Self::visited_contains(visited, name) {
            return Err(AccessError::FieldCycle);
        }
        if visited.len() > self.entries.len() {
            return Err(AccessError::FieldCycle);
        }
        let entry = match self.find_entry(name) {
            None => {
                return Err(AccessError::UnknownField);
            },
            Some(e) => e,
        };
        match &entry.entry_type {
            EntryType::Raw(raw) => {
                let key = join_path(entry.dirfile_path.as_slice(), name);
                match files.get(key.as_slice()) {
                    None => Err(AccessError::MissingData),
                    Some(data) => {
                        let vals = self.getraw(
                            raw,
                            data.as_slice(),
                            entry.dirfile_options.endian,
                            ff,
                            fs,
                            nf,
                            ns,
                        );
                        let k = kind_of_exec(raw.data_type);
                        proof {
                            assert(eval_spec(
                                self.entries@,
                                files.files@,
                                name@,
                                ff as int,
                                fs as int,
                                nf as int,
                                ns as int,
                                views_of(visited@),
                            ) == Ok::<_, AccessError>((vals@, k)));
                        }
                        Ok((vals, k))
                    },
                }
            },
            EntryType::Bit(bit) => {
                if bit.num_bits < 1 || bit.num_bits > 64 || bit.start_bit > 64 - bit.num_bits {
                    return Err(AccessError::BitRange);
                }
                let owned = slice_to_vec(name);
                proof {
                    assert(views_of(visited@.push(owned)) =~= views_of(visited@).push(name@));
                }
                visited.push(owned);
                let pr = self.eval_rec(bit.parent_field.as_slice(), ff, fs, nf, ns, files, visited);
                let _popped = visited.pop();
                proof {
                    assert(visited@ =~= old(visited)@);
                }
                proof {
                    match &pr {
                        Err(e) => {
                            assert(eval_spec(
                                self.entries@,
                                files.files@,
                                name@,
                                ff as int,
                                fs as int,
                                nf as int,
                                ns as int,
                                views_of(old(visited)@),
                            ) == Err::<(Seq<u64>, ValueKind), AccessError>(*e));
                        },
                        Ok(_) => {},
                    }
                }
                match pr {
                    Err(e) => Err(e),
                    Ok(p) => {
                        let u = as_uint_exec(p.0, p.1);
                        let mask: u64 = (0xffff_ffff_ffff_ffffu64 >> ((64 - bit.num_bits) as u64))
                            << (bit.start_bit as u64);
                        let mut out: Vec<u64> = Vec::new();
                        let mut i: usize = 0;
                        while i < u.len()
                            invariant
                                i <= u@.len(),
                                out@.len() == i,
                                mask == mask_of(bit.start_bit, bit.num_bits),
                                forall|j: int| 0 <= j < i ==> out@[j] == (u@[j] & mask_of(
                                    bit.start_bit,
                                    bit.num_bits,
                                )),
                            decreases u@.len() - i,
                        {
                            out.push(u[i] & mask);
                            i += 1;
                        }
                        proof {
                            assert(out@ =~= masked_vals(u@, bit.start_bit, bit.num_bits));
                            assert(eval_spec(
                                self.entries@,
                                files.files@,
                                name@,
                                ff as int,
                                fs as int,
                                nf as int,
                                ns as int,
                                views_of(old(visited)@),
                            ) == Ok::<_, AccessError>((out@, ValueKind::UInt)));
                        }
                        Ok((out, ValueKind::UInt))
                    },
                }
            },
            EntryType::Lincom(lc) => {
                if lc.terms.len() == 0 {
                    return Err(AccessError::EmptyLincom);
                }
                let owned = slice_to_vec(name);
                proof {
                    assert(views_of(visited@.push(owned)) =~= views_of(visited@).push(name@));
                    assert(term_views(lc.terms@).len() == lc.terms@.len());
                    assert(term_views(lc.terms@)[0] == lc.terms@[0]@);
                }
                visited.push(owned);
                let first = self.eval_rec(
                    lc.terms[0].parent_field.as_slice(),
                    ff,
                    fs,
                    nf,
                    ns,
                    files,
                    visited,
                );
                let res = match first {
                    Err(e) => {
                        proof {
                            let v0 = views_of(old(visited)@);
                            assert(eval_spec(
                                self.entries@,
                                files.files@,
                                lc.terms@[0].parent_field@,
                                ff as int,
                                fs as int,
                                nf as int,
                                ns as int,
                                v0.push(name@),
                            ) == Err::<(Seq<u64>, ValueKind), AccessError>(e));
                            assert(term_views(lc.terms@)[0].parent == lc.terms@[0].parent_field@);
                            assert(lincom_full_spec(
                                self.entries@,
                                files.files@,
                                term_views(lc.terms@),
                                ff as int,
                                fs as int,
                                nf as int,
                                ns as int,
                                v0.push(name@),
                            ) == Err::<Seq<u64>, AccessError>(e));
                        }
                        Err(e)
                    },
                    Ok(p) => {
                        let ghost p0 = p.0@;
                        let ghost k0 = p.1;
                        let d0 = as_double_exec(p.0, p.1);
                        let z = zero_vec(d0.len());
                        let acc0 = lincom_apply_exec(&z, &d0, lc.terms[0].m, lc.terms[0].b);
                        let ghost acc0v = acc0@;
                        let rr = self.lincom_rest_exec(
                            &lc.terms,
                            1,
                            acc0,
                            ff,
                            fs,
                            nf,
                            ns,
                            files,
                            visited,
                        );
                        proof {
                            let v0 = views_of(old(visited)@);
                            assert(eval_spec(
                                self.entries@,
                                files.files@,
                                lc.terms@[0].parent_field@,
                                ff as int,
                                fs as int,
                                nf as int,
                                ns as int,
                                v0.push(name@),
                            ) == Ok::<_, AccessError>((p0, k0)));
                            assert(term_views(lc.terms@)[0] == lc.terms@[0]@);
                            assert(d0@ == as_double_vals(p0, k0));
                            assert(acc0v == lincom_apply(
                                zero_seq(d0@.len()),
                                d0@,
                                lc.terms@[0].m,
                                lc.terms@[0].b,
                            ));
                            match &rr {
                                Err(e) => {
                                    assert(lincom_full_spec(
                                        self.entries@,
                                        files.files@,
                                        term_views(lc.terms@),
                                        ff as int,
                                        fs as int,
                                        nf as int,
                                        ns as int,
                                        v0.push(name@),
                                    ) == Err::<Seq<u64>, AccessError>(*e));
                                },
                                Ok(v) => {
                                    assert(lincom_full_spec(
                                        self.entries@,
                                        files.files@,
                                        term_views(lc.terms@),
                                        ff as int,
                                        fs as int,
                                        nf as int,
                                        ns as int,
                                        v0.push(name@),
                                    ) == Ok::<Seq<u64>, AccessError>(v@));
                                },
                            }
                        }
                        rr
                    },
                };
                let _popped = visited.pop();
                proof {
                    assert(visited@ =~= old(visited)@);
                }
                proof {
                    match &res {
                        Err(e) => {
                            assert(eval_spec(
                                self.entries@,
                                files.files@,
                                name@,
                                ff as int,
                                fs as int,
                                nf as int,
                                ns as int,
                                views_of(old(visited)@),
                            ) == Err::<(Seq<u64>, ValueKind), AccessError>(*e));
                        },
                        Ok(acc) => {
                            assert(eval_spec(
                                self.entries@,
                                files.files@,
                                name@,
                                ff as int,
                                fs as int,
                                nf as int,
                                ns as int,
                                views_of(old(visited)@),
                            ) == Ok::<_, AccessError>((acc@, ValueKind::Double)));
                        },
                    }
                }
                match res {
                    Err(e) => Err(e),
                    Ok(acc) => Ok((acc, ValueKind::Double)),
                }
            },
            EntryType::Linterp(lt) => {
                if lt.x.len() == 0 || lt.x.len() != lt.y.len() {
                    return Err(AccessError::BadTable);
                }
                let owned = slice_to_vec(name);
                proof {
                    assert(views_of(visited@.push(owned)) =~= views_of(visited@).push(name@));
                }
                visited.push(owned);
                let pr = self.eval_rec(lt.parent_field.as_slice(), ff, fs, nf, ns, files, visited);
                let _popped = visited.pop();
                proof {
                    assert(visited@ =~= old(visited)@);
                }
                proof {
                    match &pr {
                        Err(e) => {
                            assert(eval_spec(
                                self.entries@,
                                files.files@,
                                name@,
                                ff as int,
                                fs as int,
                                nf as int,
                                ns as int,
                                views_of(old(visited)@),
                            ) == Err::<(Seq<u64>, ValueKind), AccessError>(*e));
                        },
                        Ok(_) => {},
                    }
                }
                match pr {
                    Err(e) => Err(e),
                    Ok(p) => {
                        let dv = as_double_exec(p.0, p.1);
                        let mut out: Vec<u64> = Vec::new();
                        let mut i: usize = 0;
                        while i < dv.len()
                            invariant
                                i <= dv@.len(),
                                out@.len() == i,
                                lt.x@.len() >= 1,
                                lt.x@.len() == lt.y@.len(),
                                forall|j: int| 0 <= j < i ==> out@[j] == linterp_one(
                                    lt.x@,
                                    lt.y@,
                                    dv@[j],
                                ),
                            decreases dv@.len() - i,
                        {
                            out.push(linterp_one_exec(&lt.x, &lt.y, dv[i]));
                            i += 1;
                        }
                        proof {
                            assert(out@ =~= linterp_vals(lt.x@, lt.y@, dv@));
                            assert(eval_spec(
                                self.entries@,
                                files.files@,
                                name@,
                                ff as int,
                                fs as int,
                                nf as int,
                                ns as int,
                                views_of(old(visited)@),
                            ) == Ok::<_, AccessError>((out@, ValueKind::Double)));
                        }
                        Ok((out, ValueKind::Double))
                    },
                }
            },
        }
    }

    /// The remaining linear-combination terms folded onto `acc`.
    fn lincom_rest_exec(
        &self,
        terms: &Vec<crate::LincomTerm>,
        i: usize,
        acc: Vec<u64>,
        ff: usize,
        fs: usize,
        nf: usize,
        ns: usize,
        files: &FileStore,
        visited: &mut Vec<Vec<u8>>,
    ) -> (r: Result<Vec<u64>, AccessError>)
        ensures
            final(visited)@ == old(visited)@,
            (match r {
                Ok(v) => lincom_rest_spec(
                    self.entries@,
                    files.files@,
                    term_views(terms@),
                    i as int,
                    acc@,
                    ff as int,
                    fs as int,
                    nf as int,
                    ns as int,
                    views_of(old(visited)@),
                ) == Ok::<_, AccessError>(v@),
                Err(e) => lincom_rest_spec(
                    self.entries@,
                    files.files@,
                    term_views(terms@),
                    i as int,
                    acc@,
                    ff as int,
                    fs as int,
                    nf as int,
                    ns as int,
                    views_of(old(visited)@),
                ) == Err::<Seq<u64>, _>(e),
            }),
        decreases self.entries@.len() + 1 - visited@.len(), 1int, terms@.len() - i,
    {
        if i >= terms.len() {
            return Ok(acc);
        }
        let pr = self.eval_rec(terms[i].parent_field.as_slice(), ff, fs, nf, ns, files, visited);
        match pr {
            Err(e) => Err(e),
            Ok(p) => {
                let dv = as_double_exec(p.0, p.1);
                let acc2 = lincom_apply_exec(&acc, &dv, terms[i].m, terms[i].b);
                self.lincom_rest_exec(terms, i + 1, acc2, ff, fs, nf, ns, files, visited)
            },
        }
    }

    /// Evaluates the field `name` over a frame/sample window against the
    /// given data store. The result is the samples as 64-bit values
    /// together with what they are (integers or double bit patterns).
    pub fn getdata(
        &self,
        name: &[u8],
        first_frame: usize,
        first_sample: usize,
        num_frames: usize,
        num_samples: usize,
        files: &FileStore,
    ) -> (r: Result<(Vec<u64>, ValueKind), AccessError>)
        ensures
            (match r {
                Ok(p) => eval_spec(
                    self.entries@,
                    files.files@,
                    name@,
                    first_frame as int,
                    first_sample as int,
                    num_frames as int,
                    num_samples as int,
                    Seq::empty(),
                ) == Ok::<_, AccessError>((p.0@, p.1)),
                Err(e) => eval_spec(
                    self.entries@,
                    files.files@,
                    name@,
                    first_frame as int,
                    first_sample as int,
                    num_frames as int,
                    num_samples as int,
                    Seq::empty(),
                ) == Err::<(Seq<u64>, ValueKind), _>(e),
            }),
    {
        let mut visited: Vec<Vec<u8>> = Vec::new();
        proof {
            assert(views_of(visited@) =~= Seq::<Seq<u8>>::empty());
        }
        self.eval_rec(name, first_frame, first_sample, num_frames, num_samples, files, &mut visited)
    }

    /// Masks a bit range out of an unsigned read of the parent field. The
    /// extracted bits keep their position: the value is masked, not
    /// shifted down.
    pub fn getbit(
        &self,
        entry_bit: &EntryBit,
        first_frame: usize,
        first_sample: usize,
        num_frames: usize,
        num_samples: usize,
        files: &FileStore,
    ) -> (r: Result<Vec<u64>, AccessError>)
        ensures
            (match r {
                Ok(v) => getbit_spec(
                    self.entries@,
                    files.files@,
                    entry_bit.start_bit,
                    entry_bit.num_bits,
                    entry_bit.parent_field@,
                    first_frame as int,
                    first_sample as int,
                    num_frames as int,
                    num_samples as int,
                ) == Ok::<_, AccessError>(v@),
                Err(e) => getbit_spec(
                    self.entries@,
                    files.files@,
                    entry_bit.start_bit,
                    entry_bit.num_bits,
                    entry_bit.parent_field@,
                    first_frame as int,
                    first_sample as int,
                    num_frames as int,
                    num_samples as int,
                ) == Err::<Seq<u64>, _>(e),
            }),
    {
        if entry_bit.num_bits < 1 || entry_bit.num_bits > 64 || entry_bit.start_bit > 64
            - entry_bit.num_bits {
            return Err(AccessError::BitRange);
        }
        let mut visited: Vec<Vec<u8>> = Vec::new();
        proof {
            assert(views_of(visited@) =~= Seq::<Seq<u8>>::empty());
        }
        let pr = self.eval_rec(
            entry_bit.parent_field.as_slice(),
            first_frame,
            first_sample,
            num_frames,
            num_samples,
            files,
            &mut visited,
        );
        match pr {
            Err(e) => Err(e),
            Ok(p) => {
                let u = as_uint_exec(p.0, p.1);
                let mask: u64 = (0xffff_ffff_ffff_ffffu64 >> ((64 - entry_bit.num_bits) as u64))
                    << (entry_bit.start_bit as u64);
                let mut out: Vec<u64> = Vec::new();
                let mut i: usize = 0;
                while i < u.len()
                    invariant
                        i <= u@.len(),
                        out@.len() == i,
                        mask == mask_of(entry_bit.start_bit, entry_bit.num_bits),
                        forall|j: int| 0 <= j < i ==> out@[j] == (u@[j] & mask_of(
                            entry_bit.start_bit,
                            entry_bit.num_bits,
                        )),
                    decreases u@.len() - i,
                {
                    out.push(u[i] & mask);
                    i += 1;
                }
                proof {
                    assert(out@ =~= masked_vals(u@, entry_bit.start_bit, entry_bit.num_bits));
                }
                Ok(out)
            },
        }
    }

    /// Evaluates a linear-combination entry: the sum over its terms of
    /// `m_i * parent_i + b_i`, in double arithmetic.
    pub fn getlincom(
        &self,
        entry_lincom: &EntryLincom,
        first_frame: usize,
        first_sample: usize,
        num_frames: usize,
        num_samples: usize,
        files: &FileStore,
    ) -> (r: Result<Vec<u64>, AccessError>)
        ensures
            (match r {
                Ok(v) => getlincom_spec(
                    self.entries@,
                    files.files@,
                    term_views(entry_lincom.terms@),
                    first_frame as int,
                    first_sample as int,
                    num_frames as int,
                    num_samples as int,
                ) == Ok::<_, AccessError>(v@),
                Err(e) => getlincom_spec(
                    self.entries@,
                    files.files@,
                    term_views(entry_lincom.terms@),
                    first_frame as int,
                    first_sample as int,
                    num_frames as int,
                    num_samples as int,
                ) == Err::<Seq<u64>, _>(e),
            }),
    {
        if entry_lincom.terms.len() == 0 {
            return Err(AccessError::EmptyLincom);
        }
        let mut visited: Vec<Vec<u8>> = Vec::new();
        proof {
            assert(views_of(visited@) =~= Seq::<Seq<u8>>::empty());
            assert(term_views(entry_lincom.terms@).len() == entry_lincom.terms@.len());
            assert(term_views(entry_lincom.terms@)[0] == entry_lincom.terms@[0]@);
        }
        let first = self.eval_rec(
            entry_lincom.terms[0].parent_field.as_slice(),
            first_frame,
            first_sample,
            num_frames,
            num_samples,
            files,
            &mut visited,
        );
        match first {
            Err(e) => Err(e),
            Ok(p) => {
                let ghost p0 = p.0@;
                let ghost k0 = p.1;
                let d0 = as_double_exec(p.0, p.1);
                let z = zero_vec(d0.len());
                let acc0 = lincom_apply_exec(
                    &z,
                    &d0,
                    entry_lincom.terms[0].m,
                    entry_lincom.terms[0].b,
                );
                let ghost acc0v = acc0@;
                let rr = self.lincom_rest_exec(
                    &entry_lincom.terms,
                    1,
                    acc0,
                    first_frame,
                    first_sample,
                    num_frames,
                    num_samples,
                    files,
                    &mut visited,
                );
                proof {
                    assert(d0@ == as_double_vals(p0, k0));
                    assert(acc0v == lincom_apply(
                        zero_seq(d0@.len()),
                        d0@,
                        entry_lincom.terms@[0].m,
                        entry_lincom.terms@[0].b,
                    ));
                }
                rr
            },
        }
    }

    /// Evaluates a lookup entry: each double read of the parent mapped
    /// through the piecewise-linear table, clamped at its ends.
    pub fn getlinterp(
        &self,
        entry_linterp: &EntryLinterp,
        first_frame: usize,
        first_sample: usize,
        num_frames: usize,
        num_samples: usize,
        files: &FileStore,
    ) -> (r: Result<Vec<u64>, AccessError>)
        ensures
            (match r {
                Ok(v) => getlinterp_spec(
                    self.entries@,
                    files.files@,
                    entry_linterp.parent_field@,
                    entry_linterp.x@,
                    entry_linterp.y@,
                    first_frame as int,
                    first_sample as int,
                    num_frames as int,
                    num_samples as int,
                ) == Ok::<_, AccessError>(v@),
                Err(e) => getlinterp_spec(
                    self.entries@,
                    files.files@,
                    entry_linterp.parent_field@,
                    entry_linterp.x@,
                    entry_linterp.y@,
                    first_frame as int,
                    first_sample as int,
                    num_frames as int,
                    num_samples as int,
                ) == Err::<Seq<u64>, _>(e),
            }),
    {
        if entry_linterp.x.len() == 0 || entry_linterp.x.len() != entry_linterp.y.len() {
            return Err(AccessError::BadTable);
        }
        let mut visited: Vec<Vec<u8>> = Vec::new();
        proof {
            assert(views_of(visited@) =~= Seq::<Seq<u8>>::empty());
        }
        let pr = self.eval_rec(
            entry_linterp.parent_field.as_slice(),
            first_frame,
            first_sample,
            num_frames,
            num_samples,
            files,
            &mut visited,
        );
        match pr {
            Err(e) => Err(e),
            Ok(p) => {
                let dv = as_double_exec(p.0, p.1);
                let mut out: Vec<u64> = Vec::new();
                let mut i: usize = 0;
                while i < dv.len()
                    invariant
                        i <= dv@.len(),
                        out@.len() == i,
                        entry_linterp.x@.len() >= 1,
                        entry_linterp.x@.len() == entry_linterp.y@.len(),
                        forall|j: int| 0 <= j < i ==> out@[j] == linterp_one(
                            entry_linterp.x@,
                            entry_linterp.y@,
                            dv@[j],
                        ),
                    decreases dv@.len() - i,
                {
                    out.push(linterp_one_exec(&entry_linterp.x, &entry_linterp.y, dv[i]));
                    i += 1;
                }
                proof {
                    assert(out@ =~= linterp_vals(entry_linterp.x@, entry_linterp.y@, dv@));
                }
                Ok(out)
            },
        }
    }
}

/// What `getbit` returns: the parent's unsigned read, masked.
pub open spec fn getbit_spec(
    entries: Seq<Entry>,
    files: Seq<(Vec<u8>, Vec<u8>)>,
    start_bit: u32,
    num_bits: u32,
    parent: Seq<u8>,
    ff: int,
    fs: int,
    nf: int,
    ns: int,
) -> Result<Seq<u64>, AccessError> {
    if num_bits < 1 || start_bit + num_bits > 64 {
        Err(AccessError::BitRange)
    } else {
        match eval_spec(entries, files, parent, ff, fs, nf, ns, Seq::empty()) {
            Err(e) => Err(e),
            Ok(p) => Ok(masked_vals(as_uint_vals(p.0, p.1), start_bit, num_bits)),
        }
    }
}

/// What `getlincom` returns: the terms folded in double arithmetic.
pub open spec fn getlincom_spec(
    entries: Seq<Entry>,
    files: Seq<(Vec<u8>, Vec<u8>)>,
    terms: Seq<TermV>,
    ff: int,
    fs: int,
    nf: int,
    ns: int,
) -> Result<Seq<u64>, AccessError> {
    if terms.len() == 0 {
        Err(AccessError::EmptyLincom)
    } else {
        lincom_full_spec(entries, files, terms, ff, fs, nf, ns, Seq::empty())
    }
}

/// What `getlinterp` returns: the parent's double read, each value mapped
/// through the table.
pub open spec fn getlinterp_spec(
    entries: Seq<Entry>,
    files: Seq<(Vec<u8>, Vec<u8>)>,
    parent: Seq<u8>,
    x: Seq<u64>,
    y: Seq<u64>,
    ff: int,
    fs: int,
    nf: int,
    ns: int,
) -> Result<Seq<u64>, AccessError> {
    if x.len() == 0 || x.len() != y.len() {
        Err(AccessError::BadTable)
    } else {
        match eval_spec(entries, files, parent, ff, fs, nf, ns, Seq::empty()) {
            Err(e) => Err(e),
            Ok(p) => Ok(linterp_vals(x, y, as_double_vals(p.0, p.1))),
        }
    }
}

// ---------------------------------------------------------------------------
// Laws
// ---------------------------------------------------------------------------

/// Round trip: the records encoded for a window, placed at that window's
/// byte offset, decode back to the written values when the same window is
/// read (a `Uint32` field keeps the low 32 bits of each value, so values
/// in range survive unchanged).
pub proof fn lemma_put_get_round_trip(
    prefix: Seq<u8>,
    vals: Seq<u64>,
    dt: RawTypes,
    e: Endian,
    spf: int,
    ff: int,
    fs: int,
    nf: int,
    ns: int,
)
    requires
        prefix.len() == lin_offset(ff, fs, spf) * crate::codec::width_of(dt),
        rec_count(nf, ns, spf) == vals.len(),
        dt matches RawTypes::Uint32 ==> forall|i: int|
            0 <= i < vals.len() ==> vals[i] < 0x1_0000_0000,
    ensures
        read_raw_spec(prefix + crate::codec::enc_records(vals, dt, e), dt, e, spf, ff, fs, nf, ns)
            == vals,
{
    let w = width_of(dt);
    let recs = crate::codec::enc_records(vals, dt, e);
    let file = prefix + recs;
    let start = lin_offset(ff, fs, spf) * w;
    crate::codec::lemma_enc_records_len(vals, dt, e);
    assert(vals.len() * w / w == vals.len() && (vals.len() == 0 || vals.len() * w >= 1))
        by (nonlinear_arith)
        requires
            1 <= w,
    ;
    if vals.len() == 0 {
        assert(read_raw_spec(file, dt, e, spf, ff, fs, nf, ns) =~= vals);
    } else {
        let n = vals.len() as int;
        assert(file.len() - start == n * w);
        assert forall|i: int| 0 <= i < n implies dec_records(file, start, n, dt, e)[i] == vals[i] by {
            assert(0 <= i * w && (i + 1) * w <= n * w && i * w <= (i + 1) * w)
                by (nonlinear_arith)
                requires
                    0 <= i < n,
                    1 <= w,
            ;
            crate::codec::lemma_enc_records_index(vals, dt, e, i);
            assert(file.subrange(start + i * w, start + (i + 1) * w) =~= recs.subrange(
                i * w,
                (i + 1) * w,
            ));
            match dt {
                RawTypes::Uint32 => {
                    crate::codec::lemma_roundtrip4(vals[i], e);
                    assert(vals[i] % 0x1_0000_0000 == vals[i]);
                },
                _ => {
                    crate::codec::lemma_roundtrip8(vals[i], dt, e);
                },
            }
        }
        assert(read_raw_spec(file, dt, e, spf, ff, fs, nf, ns) =~= vals);
    }
}

/// The bit-field mask is `num_bits` ones starting at `start_bit`: below
/// width 64 it equals `((1 << num_bits) - 1) << start_bit`, and at width
/// 64 it is all ones shifted to `start_bit` (so all ones at bit zero).
pub proof fn lemma_mask_shape(start_bit: u32, num_bits: u32)
    requires
        1 <= num_bits,
        start_bit + num_bits <= 64,
    ensures
        num_bits < 64 ==> mask_of(start_bit, num_bits) == ((((1u64 << (num_bits as u64))
            - 1) as u64) << (start_bit as u64)),
        num_bits == 64 ==> mask_of(start_bit, num_bits) == 0xffff_ffff_ffff_ffffu64,
{
    let s = start_bit as u64;
    let n = num_bits as u64;
    assert((64 - num_bits) as u64 == 64 - n);
    assert(n < 64 ==> (0xffff_ffff_ffff_ffffu64 >> ((64 - n) as u64)) << s == (((1u64 << n)
        - 1) as u64) << s) by (bit_vector)
        requires
            1 <= n <= 64,
            s + n <= 64,
    ;
    assert(n == 64 ==> (0xffff_ffff_ffff_ffffu64 >> ((64 - n) as u64)) << s
        == 0xffff_ffff_ffff_ffffu64) by (bit_vector)
        requires
            s + n <= 64,
    ;
}

/// Cycle detection, shortest instance: a field that names itself as its
/// own parent fails evaluation with the cycle error.
pub proof fn lemma_self_cycle(
    entries: Seq<Entry>,
    files: Seq<(Vec<u8>, Vec<u8>)>,
    name: Seq<u8>,
    ff: int,
    fs: int,
    nf: int,
    ns: int,
)
    requires
        lookup_entry(entries, name) matches Some(ev) && ev.entry_type matches EntryTypeV::Bit {
            start_bit,
            num_bits,
            parent,
        } && parent == name && num_bits >= 1 && start_bit + num_bits <= 64,
    ensures
        eval_spec(entries, files, name, ff, fs, nf, ns, Seq::empty()) == Err::<
            (Seq<u64>, ValueKind),
            AccessError,
        >(AccessError::FieldCycle),
{
    let chain = seq![name, name];
    assert(chain[0] == name && chain[1] == name && chain.last() == name);
    assert(first_parent(entries, name) == Some(name));
    assert(chain.take(1) =~= seq![name]);
    assert(chain.take(1).no_duplicates());
    assert(chain.take(1).contains(chain.last())) by {
        assert(chain.take(1)[0] == name);
    }
    lemma_parent_chain_cycle(entries, files, chain, ff, fs, nf, ns);
}


/// The parent that evaluation reads first, where the entry's own guards
/// pass: a bit or lookup field's parent, a linear combination's first
/// term's parent. Raw entries, absent entries, and entries whose guards
/// fail (reported with their own errors before any recursion) have none.
pub open spec fn first_parent(entries: Seq<Entry>, name: Seq<u8>) -> Option<Seq<u8>> {
    match lookup_entry(entries, name) {
        None => None,
        Some(ev) => match ev.entry_type {
            EntryTypeV::Raw { .. } => None,
            EntryTypeV::Bit { start_bit, num_bits, parent } => if num_bits < 1 || start_bit
                + num_bits > 64 {
                None
            } else {
                Some(parent)
            },
            EntryTypeV::Lincom { terms } => if terms.len() == 0 {
                None
            } else {
                Some(terms[0].parent)
            },
            EntryTypeV::Linterp { parent, x, y, .. } => if x.len() == 0 || x.len() != y.len() {
                None
            } else {
                Some(parent)
            },
        },
    }
}

proof fn lemma_lookup_some_names(s: Seq<Entry>, i: int, name: Seq<u8>)
    requires
        0 <= i <= s.len(),
        lookup_upto(s, i, name) is Some,
    ensures
        exists|k: int| 0 <= k < s.len() && (#[trigger] s[k].name@) == name,
    decreases i,
{
    if i > 0 {
        if s[i - 1].name@ == name {
            assert(0 <= i - 1 < s.len() && s[i - 1].name@ == name);
        } else {
            lemma_lookup_some_names(s, i - 1, name);
        }
    }
}

/// Distinct field names that are all registered number at most the
/// registry's entries.
proof fn lemma_distinct_registered_bound(entries: Seq<Entry>, names: Seq<Seq<u8>>)
    requires
        names.no_duplicates(),
        forall|a: int| 0 <= a < names.len() ==> lookup_entry(entries, #[trigger] names[a]) is Some,
    ensures
        names.len() <= entries.len(),
{
    broadcast use vstd::seq_lib::seq_to_set_is_finite;

    let nm = entries.map_values(|e: Entry| e.name@);
    assert forall|a: int| 0 <= a < names.len() implies nm.to_set().contains(
        #[trigger] names[a],
    ) by {
        lemma_lookup_some_names(entries, entries.len() as int, names[a]);
        let k = choose|k: int| 0 <= k < entries.len() && (#[trigger] entries[k].name@) == names[a];
        assert(nm[k] == names[a]);
        assert(nm.contains(names[a]));
    }
    assert(names.to_set().subset_of(nm.to_set()));
    names.unique_seq_to_set();
    nm.lemma_cardinality_of_set();
    vstd::set_lib::lemma_len_subset(names.to_set(), nm.to_set());
}

proof fn lemma_chain_cycle_rec(
    entries: Seq<Entry>,
    files: Seq<(Vec<u8>, Vec<u8>)>,
    chain: Seq<Seq<u8>>,
    j: int,
    ff: int,
    fs: int,
    nf: int,
    ns: int,
)
    requires
        chain.len() >= 2,
        0 <= j < chain.len(),
        forall|a: int|
            0 <= a < chain.len() - 1 ==> first_parent(entries, #[trigger] chain[a]) == Some(
                chain[a + 1],
            ),
        chain.take(chain.len() - 1).no_duplicates(),
        chain.take(chain.len() - 1).contains(chain.last()),
    ensures
        eval_spec(entries, files, chain[j], ff, fs, nf, ns, chain.take(j)) == Err::<
            (Seq<u64>, ValueKind),
            AccessError,
        >(AccessError::FieldCycle),
    decreases chain.len() - j,
{
    let visited = chain.take(j);
    if j == chain.len() - 1 {
        assert(chain.take(chain.len() - 1) =~= visited);
        assert(visited.contains(chain[j]));
    } else {
        assert(!visited.contains(chain[j])) by {
            if visited.contains(chain[j]) {
                let t = choose|t: int| 0 <= t < j && visited[t] == chain[j];
                assert(chain.take(chain.len() - 1)[t] == chain.take(chain.len() - 1)[j]);
            }
        }
        lemma_distinct_registered_bound(entries, chain.take(chain.len() - 1));
        assert(visited.len() <= entries.len());
        lemma_chain_cycle_rec(entries, files, chain, j + 1, ff, fs, nf, ns);
        assert(chain.take(j + 1) =~= visited.push(chain[j]));
        match lookup_entry(entries, chain[j]) {
            None => {
                assert(first_parent(entries, chain[j]) is None);
            },
            Some(ev) => {
                match ev.entry_type {
                    EntryTypeV::Raw { .. } => {
                        assert(first_parent(entries, chain[j]) is None);
                    },
                    EntryTypeV::Bit { .. } => {},
                    EntryTypeV::Lincom { terms } => {
                        assert(lincom_full_spec(
                            entries,
                            files,
                            terms,
                            ff,
                            fs,
                            nf,
                            ns,
                            visited.push(chain[j]),
                        ) == Err::<Seq<u64>, AccessError>(AccessError::FieldCycle));
                    },
                    EntryTypeV::Linterp { .. } => {},
                }
            },
        }
    }
}

/// Cycle detection in general: a field whose parent chain revisits
/// itself fails evaluation with the cycle error instead of recursing
/// without bound. `chain` is the path evaluation follows: each field's
/// first-read parent is the next field, the fields before the last are
/// distinct, and the last returns to one of them.
pub proof fn lemma_parent_chain_cycle(
    entries: Seq<Entry>,
    files: Seq<(Vec<u8>, Vec<u8>)>,
    chain: Seq<Seq<u8>>,
    ff: int,
    fs: int,
    nf: int,
    ns: int,
)
    requires
        chain.len() >= 2,
        forall|a: int|
            0 <= a < chain.len() - 1 ==> first_parent(entries, #[trigger] chain[a]) == Some(
                chain[a + 1],
            ),
        chain.take(chain.len() - 1).no_duplicates(),
        chain.take(chain.len() - 1).contains(chain.last()),
    ensures
        eval_spec(entries, files, chain[0], ff, fs, nf, ns, Seq::empty()) == Err::<
            (Seq<u64>, ValueKind),
            AccessError,
        >(AccessError::FieldCycle),
{
    lemma_chain_cycle_rec(entries, files, chain, 0, ff, fs, nf, ns);
    assert(chain.take(0) =~= Seq::<Seq<u8>>::empty());
}

} // verus!
