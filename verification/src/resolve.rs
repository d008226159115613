use vstd::prelude::*;

use crate::float::{double_bits_of_token, f64_parse};
use crate::format::{parse_format_file, parse_spec, Directive, FieldDefinition, Line, LineV};
use crate::{
    bytes_eq, default_options, join_path, join_spec, slice_to_vec, store_lookup, term_views,
    views_of, Dirfile, DirfileOptions, Endian, Entry, EntryBit, EntryLincom, EntryRaw, EntryType,
    EntryTypeV, EntryV, FileStore, LincomTerm, RawTypes, SchemaError, TermV,
};

verus! {

// ---------------------------------------------------------------------------
// Argument tokens
// ---------------------------------------------------------------------------

pub open spec fn kw_big() -> Seq<u8> {
    seq![98u8, 105u8, 103u8]  // big
}

pub open spec fn kw_little() -> Seq<u8> {
    seq![108u8, 105u8, 116u8, 116u8, 108u8, 101u8]  // little
}

pub open spec fn kw_none_enc() -> Seq<u8> {
    seq![110u8, 111u8, 110u8, 101u8]  // none
}

pub open spec fn kw_raw() -> Seq<u8> {
    seq![82u8, 65u8, 87u8]  // RAW
}

pub open spec fn kw_bit() -> Seq<u8> {
    seq![66u8, 73u8, 84u8]  // BIT
}

pub open spec fn kw_lincom() -> Seq<u8> {
    seq![76u8, 73u8, 78u8, 67u8, 79u8, 77u8]  // LINCOM
}

pub open spec fn kw_uint32() -> Seq<u8> {
    seq![85u8, 73u8, 78u8, 84u8, 51u8, 50u8]  // UINT32
}

pub open spec fn kw_uint64() -> Seq<u8> {
    seq![85u8, 73u8, 78u8, 84u8, 54u8, 52u8]  // UINT64
}

pub open spec fn kw_float64() -> Seq<u8> {
    seq![70u8, 76u8, 79u8, 65u8, 84u8, 54u8, 52u8]  // FLOAT64
}

pub open spec fn kw_format() -> Seq<u8> {
    seq![102u8, 111u8, 114u8, 109u8, 97u8, 116u8]  // format
}

fn kw_big_exec() -> (r: Vec<u8>)
    ensures
        r@ == kw_big(),
{
    let v: Vec<u8> = vec![98u8, 105u8, 103u8];
    proof {
        assert(v@ =~= kw_big());
    }
    v
}

fn kw_little_exec() -> (r: Vec<u8>)
    ensures
        r@ == kw_little(),
{
    let v: Vec<u8> = vec![108u8, 105u8, 116u8, 116u8, 108u8, 101u8];
    proof {
        assert(v@ =~= kw_little());
    }
    v
}

fn kw_none_enc_exec() -> (r: Vec<u8>)
    ensures
        r@ == kw_none_enc(),
{
    let v: Vec<u8> = vec![110u8, 111u8, 110u8, 101u8];
    proof {
        assert(v@ =~= kw_none_enc());
    }
    v
}

fn kw_raw_exec() -> (r: Vec<u8>)
    ensures
        r@ == kw_raw(),
{
    let v: Vec<u8> = vec![82u8, 65u8, 87u8];
    proof {
        assert(v@ =~= kw_raw());
    }
    v
}

fn kw_bit_exec() -> (r: Vec<u8>)
    ensures
        r@ == kw_bit(),
{
    let v: Vec<u8> = vec![66u8, 73u8, 84u8];
    proof {
        assert(v@ =~= kw_bit());
    }
    v
}

fn kw_lincom_exec() -> (r: Vec<u8>)
    ensures
        r@ == kw_lincom(),
{
    let v: Vec<u8> = vec![76u8, 73u8, 78u8, 67u8, 79u8, 77u8];
    proof {
        assert(v@ =~= kw_lincom());
    }
    v
}

fn kw_uint32_exec() -> (r: Vec<u8>)
    ensures
        r@ == kw_uint32(),
{
    let v: Vec<u8> = vec![85u8, 73u8, 78u8, 84u8, 51u8, 50u8];
    proof {
        assert(v@ =~= kw_uint32());
    }
    v
}

fn kw_uint64_exec() -> (r: Vec<u8>)
    ensures
        r@ == kw_uint64(),
{
    let v: Vec<u8> = vec![85u8, 73u8, 78u8, 84u8, 54u8, 52u8];
    proof {
        assert(v@ =~= kw_uint64());
    }
    v
}

fn kw_float64_exec() -> (r: Vec<u8>)
    ensures
        r@ == kw_float64(),
{
    let v: Vec<u8> = vec![70u8, 76u8, 79u8, 65u8, 84u8, 54u8, 52u8];
    proof {
        assert(v@ =~= kw_float64());
    }
    v
}

fn kw_format_exec() -> (r: Vec<u8>)
    ensures
        r@ == kw_format(),
{
    let v: Vec<u8> = vec![102u8, 111u8, 114u8, 109u8, 97u8, 116u8];
    proof {
        assert(v@ =~= kw_format());
    }
    v
}

/// The raw data type a token names.
pub open spec fn rawtype_of(tok: Seq<u8>) -> Option<RawTypes> {
    if tok == kw_uint32() {
        Some(RawTypes::Uint32)
    } else if tok == kw_uint64() {
        Some(RawTypes::Uint64)
    } else if tok == kw_float64() {
        Some(RawTypes::Float64)
    } else {
        None
    }
}

impl RawTypes {
    /// Classifies a raw data type tag.
    pub fn from_token(tok: &[u8]) -> (r: Option<RawTypes>)
        ensures
            r == rawtype_of(tok@),
    {
        if bytes_eq(tok, kw_uint32_exec().as_slice()) {
            Some(RawTypes::Uint32)
        } else if bytes_eq(tok, kw_uint64_exec().as_slice()) {
            Some(RawTypes::Uint64)
        } else if bytes_eq(tok, kw_float64_exec().as_slice()) {
            Some(RawTypes::Float64)
        } else {
            None
        }
    }
}

/// The byte order a token names (case-sensitive `big` or `little`).
pub open spec fn endian_of(tok: Seq<u8>) -> Option<Endian> {
    if tok == kw_big() {
        Some(Endian::Big)
    } else if tok == kw_little() {
        Some(Endian::Little)
    } else {
        None
    }
}

impl Endian {
    /// Classifies an `ENDIAN` argument.
    pub fn from_token(tok: &[u8]) -> (r: Option<Endian>)
        ensures
            r == endian_of(tok@),
    {
        if bytes_eq(tok, kw_big_exec().as_slice()) {
            Some(Endian::Big)
        } else if bytes_eq(tok, kw_little_exec().as_slice()) {
            Some(Endian::Little)
        } else {
            None
        }
    }
}

// ---------------------------------------------------------------------------
// Decimal integers
// ---------------------------------------------------------------------------

pub open spec fn is_digit(c: u8) -> bool {
    48 <= c <= 57
}

pub open spec fn all_digits(s: Seq<u8>) -> bool {
    forall|i: int| 0 <= i < s.len() ==> is_digit(s[i])
}

/// The decimal value of a digit string.
pub open spec fn dec_val(s: Seq<u8>) -> int
    decreases s.len(),
{
    if s.len() == 0 {
        0
    } else {
        dec_val(s.drop_last()) * 10 + (s.last() - 48)
    }
}

/// The value of a token as a `u32`: at least one digit, digits only, and
/// a value that fits.
pub open spec fn parse_u32_spec(s: Seq<u8>) -> Option<u32> {
    if s.len() >= 1 && all_digits(s) && dec_val(s) <= u32::MAX {
        Some(dec_val(s) as u32)
    } else {
        None
    }
}

proof fn lemma_dec_val_nonneg(s: Seq<u8>)
    requires
        all_digits(s),
    ensures
        dec_val(s) >= 0,
    decreases s.len(),
{
    if s.len() > 0 {
        assert(all_digits(s.drop_last()));
        lemma_dec_val_nonneg(s.drop_last());
    }
}

proof fn lemma_dec_val_prefix(s: Seq<u8>, i: int)
    requires
        0 <= i <= s.len(),
        all_digits(s),
    ensures
        dec_val(s.subrange(0, i)) <= dec_val(s),
    decreases s.len() - i,
{
    if i == s.len() {
        assert(s.subrange(0, i) =~= s);
    } else {
        lemma_dec_val_prefix(s, i + 1);
        let p1 = s.subrange(0, i + 1);
        assert(p1.drop_last() =~= s.subrange(0, i));
        assert(all_digits(p1.drop_last()));
        lemma_dec_val_nonneg(p1.drop_last());
        assert(dec_val(p1) == dec_val(s.subrange(0, i)) * 10 + (p1.last() - 48));
    }
}

/// Parses a decimal `u32` token.
pub fn parse_u32(s: &[u8]) -> (r: Option<u32>)
    ensures
        r == parse_u32_spec(s@),
{
    if s.len() == 0 {
        return None;
    }
    let mut val: u64 = 0;
    let mut i: usize = 0;
    while i < s.len()
        invariant
            i <= s@.len(),
            all_digits(s@.subrange(0, i as int)),
            val == dec_val(s@.subrange(0, i as int)),
            val <= u32::MAX,
        decreases s@.len() - i,
    {
        let c = s[i];
        if c < 48 || c > 57 {
            proof {
                assert(!is_digit(s@[i as int]));
            }
            return None;
        }
        val = val * 10 + ((c - 48) as u64);
        proof {
            let p1 = s@.subrange(0, i + 1 as int);
            assert(p1.drop_last() =~= s@.subrange(0, i as int));
            assert(p1.last() == s@[i as int]);
        }
        if val > 0xffff_ffffu64 {
            proof {
                if all_digits(s@) {
                    lemma_dec_val_prefix(s@, i + 1 as int);
                }
            }
            return None;
        }
        i += 1;
    }
    proof {
        assert(s@.subrange(0, s@.len() as int) =~= s@);
    }
    Some(val as u32)
}

// ---------------------------------------------------------------------------
// Field declarations to entry types
// ---------------------------------------------------------------------------

/// The longest coefficient token handed to the double parser; anything
/// longer is a malformed number outright.
pub open spec fn max_number_token_len() -> int {
    0x7fff_ffff
}

/// The linear-combination terms of an argument run, three tokens per term
/// from position `i` on: parent, slope, intercept.
pub open spec fn lincom_terms_of(args: Seq<Seq<u8>>, i: int) -> Result<Seq<TermV>, SchemaError>
    decreases args.len() - i,
{
    if i < 0 || i + 3 > args.len() {
        Ok(seq![])
    } else if args[i + 1].len() > max_number_token_len() {
        Err(SchemaError::BadNumber)
    } else {
        match double_bits_of_token(args[i + 1]) {
            None => Err(SchemaError::BadNumber),
            Some(m) => if args[i + 2].len() > max_number_token_len() {
                Err(SchemaError::BadNumber)
            } else {
                match double_bits_of_token(args[i + 2]) {
                    None => Err(SchemaError::BadNumber),
                    Some(b) => match lincom_terms_of(args, i + 3) {
                        Err(e) => Err(e),
                        Ok(rest) => Ok(seq![TermV { parent: args[i], m, b }] + rest),
                    },
                }
            },
        }
    }
}

/// The entry a field declaration resolves to, or the schema error it
/// raises. A `LINCOM` whose argument count is not a multiple of three
/// drops its first argument before chunking into triples.
pub open spec fn entry_type_of(ft: Seq<u8>, args: Seq<Seq<u8>>) -> Result<
    EntryTypeV,
    SchemaError,
> {
    if ft == kw_raw() {
        if args.len() < 2 {
            Err(SchemaError::MissingArgs)
        } else {
            match rawtype_of(args[0]) {
                None => Err(SchemaError::BadRawType),
                Some(dt) => match parse_u32_spec(args[1]) {
                    None => Err(SchemaError::BadNumber),
                    Some(spf) => if spf == 0 {
                        Err(SchemaError::BadNumber)
                    } else {
                        Ok(EntryTypeV::Raw { spf, data_type: dt })
                    },
                },
            }
        }
    } else if ft == kw_bit() {
        if args.len() < 3 {
            Err(SchemaError::MissingArgs)
        } else {
            match parse_u32_spec(args[1]) {
                None => Err(SchemaError::BadNumber),
                Some(sb) => match parse_u32_spec(args[2]) {
                    None => Err(SchemaError::BadNumber),
                    Some(nb) => Ok(
                        EntryTypeV::Bit { start_bit: sb, num_bits: nb, parent: args[0] },
                    ),
                },
            }
        }
    } else if ft == kw_lincom() {
        let base = if args.len() % 3 == 0 {
            0int
        } else {
            1int
        };
        if args.len() - base == 0 || (args.len() - base) % 3 != 0 {
            Err(SchemaError::MissingArgs)
        } else {
            match lincom_terms_of(args, base) {
                Err(e) => Err(e),
                Ok(terms) => Ok(EntryTypeV::Lincom { terms }),
            }
        }
    } else {
        Err(SchemaError::UnknownFieldType)
    }
}

fn lincom_build(args: &Vec<Vec<u8>>, i: usize) -> (r: Result<Vec<LincomTerm>, SchemaError>)
    ensures
        (match r {
            Ok(v) => lincom_terms_of(views_of(args@), i as int) == Ok::<_, SchemaError>(
                term_views(v@),
            ),
            Err(e) => lincom_terms_of(views_of(args@), i as int) == Err::<Seq<TermV>, _>(e),
        }),
    decreases args@.len() - i,
{
    if i >= args.len() || args.len() - i < 3 {
        proof {
            assert(term_views(Seq::<LincomTerm>::empty()) =~= Seq::<TermV>::empty());
        }
        return Ok(Vec::new());
    }
    if args[i + 1].len() > 0x7fff_ffff {
        return Err(SchemaError::BadNumber);
    }
    let m = match f64_parse(args[i + 1].as_slice()) {
        None => {
            return Err(SchemaError::BadNumber);
        },
        Some(m) => m,
    };
    if args[i + 2].len() > 0x7fff_ffff {
        return Err(SchemaError::BadNumber);
    }
    let b = match f64_parse(args[i + 2].as_slice()) {
        None => {
            return Err(SchemaError::BadNumber);
        },
        Some(b) => b,
    };
    match lincom_build(args, i + 3) {
        Err(e) => Err(e),
        Ok(rest) => {
            let ghost restv = rest@;
            let mut out = rest;
            let t = LincomTerm { parent_field: slice_to_vec(args[i].as_slice()), m, b };
            out.insert(0, t);
            proof {
                assert(term_views(out@) =~= seq![
                    TermV { parent: views_of(args@)[i as int], m, b },
                ] + term_views(restv));
            }
            Ok(out)
        },
    }
}

impl EntryType {
    /// Resolves a field declaration into a typed entry.
    pub fn from_field(fd: &FieldDefinition) -> (r: Result<EntryType, SchemaError>)
        ensures
            (match r {
                Ok(et) => entry_type_of(fd.field_type@, views_of(fd.args@)) == Ok::<
                    _,
                    SchemaError,
                >(et@),
                Err(e) => entry_type_of(fd.field_type@, views_of(fd.args@)) == Err::<
                    EntryTypeV,
                    _,
                >(e),
            }),
    {
        let ft = fd.field_type.as_slice();
        if bytes_eq(ft, kw_raw_exec().as_slice()) {
            if fd.args.len() < 2 {
                return Err(SchemaError::MissingArgs);
            }
            let dt = match RawTypes::from_token(fd.args[0].as_slice()) {
                None => {
                    return Err(SchemaError::BadRawType);
                },
                Some(dt) => dt,
            };
            let spf = match parse_u32(fd.args[1].as_slice()) {
                None => {
                    return Err(SchemaError::BadNumber);
                },
                Some(v) => v,
            };
            if spf == 0 {
                return Err(SchemaError::BadNumber);
            }
            Ok(EntryType::Raw(EntryRaw { spf, data_type: dt }))
        } else if bytes_eq(ft, kw_bit_exec().as_slice()) {
            if fd.args.len() < 3 {
                return Err(SchemaError::MissingArgs);
            }
            let sb = match parse_u32(fd.args[1].as_slice()) {
                None => {
                    return Err(SchemaError::BadNumber);
                },
                Some(v) => v,
            };
            let nb = match parse_u32(fd.args[2].as_slice()) {
                None => {
                    return Err(SchemaError::BadNumber);
                },
                Some(v) => v,
            };
            Ok(
                EntryType::Bit(
                    EntryBit {
                        start_bit: sb,
                        num_bits: nb,
                        parent_field: slice_to_vec(fd.args[0].as_slice()),
                    },
                ),
            )
        } else if bytes_eq(ft, kw_lincom_exec().as_slice()) {
            let base: usize = if fd.args.len() % 3 == 0 {
                0
            } else {
                1
            };
            if fd.args.len() - base == 0 || (fd.args.len() - base) % 3 != 0 {
                return Err(SchemaError::MissingArgs);
            }
            match lincom_build(&fd.args, base) {
                Err(e) => Err(e),
                Ok(terms) => Ok(EntryType::Lincom(EntryLincom { terms })),
            }
        } else {
            Err(SchemaError::UnknownFieldType)
        }
    }
}

// ---------------------------------------------------------------------------
// The resolution fold
// ---------------------------------------------------------------------------

/// The accumulator of schema resolution: the running option state, the
/// entries and warnings gathered so far, and the keys of the fragments
/// included so far.
pub struct ResolveSt {
    pub opts: DirfileOptions,
    pub entries: Seq<EntryV>,
    pub warnings: Seq<Directive>,
    pub frags: Seq<Seq<u8>>,
}

pub open spec fn init_state() -> ResolveSt {
    ResolveSt { opts: default_options(), entries: seq![], warnings: seq![], frags: seq![] }
}

/// The views of a sequence of entries.
pub open spec fn entry_views(s: Seq<Entry>) -> Seq<EntryV> {
    s.map_values(|e: Entry| e@)
}

/// The keys of a fragment list.
pub open spec fn frag_keys(s: Seq<(Vec<u8>, Dirfile)>) -> Seq<Seq<u8>> {
    s.map_values(|p: (Vec<u8>, Dirfile)| p.0@)
}

/// What resolving the registry rooted at `root` yields: the text
/// `root/format` parsed, then folded line by line from the default option
/// state. `fuel` bounds the INCLUDE depth.
pub open spec fn resolve_root_spec(
    root: Seq<u8>,
    texts: Seq<(Vec<u8>, Vec<u8>)>,
    fuel: nat,
) -> Result<ResolveSt, SchemaError>
    decreases fuel, 0int, 0int,
{
    match store_lookup(texts, join_spec(root, kw_format())) {
        None => Err(SchemaError::MissingText),
        Some(text) => if fuel == 0 {
            Err(SchemaError::IncludeDepth)
        } else {
            match parse_spec(text) {
                Err(e) => Err(e),
                Ok(lines) => resolve_lines_spec(
                    lines,
                    0,
                    init_state(),
                    root,
                    texts,
                    (fuel - 1) as nat,
                ),
            }
        },
    }
}

/// One pass over the parsed lines: directives mutate the option state or
/// recurse into fragments, field declarations append entries carrying the
/// option state of their moment.
pub open spec fn resolve_lines_spec(
    lines: Seq<LineV>,
    i: int,
    st: ResolveSt,
    root: Seq<u8>,
    texts: Seq<(Vec<u8>, Vec<u8>)>,
    fuel: nat,
) -> Result<ResolveSt, SchemaError>
    decreases fuel, 1int, lines.len() - i,
{
    if i < 0 || i >= lines.len() {
        Ok(st)
    } else {
        match lines[i] {
            LineV::Directive(d, args) => match d {
                Directive::Version => if args.len() < 1 {
                    Err(SchemaError::MissingArgs)
                } else {
                    match parse_u32_spec(args[0]) {
                        None => Err(SchemaError::BadNumber),
                        Some(v) => resolve_lines_spec(
                            lines,
                            i + 1,
                            ResolveSt { opts: DirfileOptions { version: v, ..st.opts }, ..st },
                            root,
                            texts,
                            fuel,
                        ),
                    }
                },
                Directive::Endian => if args.len() < 1 {
                    Err(SchemaError::MissingArgs)
                } else {
                    match endian_of(args[0]) {
                        None => Err(SchemaError::UnknownEndian),
                        Some(e) => resolve_lines_spec(
                            lines,
                            i + 1,
                            ResolveSt { opts: DirfileOptions { endian: e, ..st.opts }, ..st },
                            root,
                            texts,
                            fuel,
                        ),
                    }
                },
                Directive::Encoding => if args.len() < 1 {
                    Err(SchemaError::MissingArgs)
                } else if args[0] == kw_none_enc() {
                    resolve_lines_spec(lines, i + 1, st, root, texts, fuel)
                } else {
                    Err(SchemaError::UnsupportedEncoding)
                },
                Directive::Alias => Err(SchemaError::AliasUnsupported),
                Directive::Protect => resolve_lines_spec(
                    lines,
                    i + 1,
                    ResolveSt { warnings: st.warnings.push(Directive::Protect), ..st },
                    root,
                    texts,
                    fuel,
                ),
                Directive::Reference => resolve_lines_spec(
                    lines,
                    i + 1,
                    ResolveSt { warnings: st.warnings.push(Directive::Reference), ..st },
                    root,
                    texts,
                    fuel,
                ),
                Directive::Include => if args.len() != 1 {
                    Err(SchemaError::IncludeArgs)
                } else {
                    match resolve_root_spec(join_spec(root, args[0]), texts, fuel) {
                        Err(e) => Err(e),
                        Ok(_) => resolve_lines_spec(
                            lines,
                            i + 1,
                            ResolveSt { frags: st.frags.push(args[0]), ..st },
                            root,
                            texts,
                            fuel,
                        ),
                    }
                },
            },
            LineV::Field { name, field_type, args } => match entry_type_of(field_type, args) {
                Err(e) => Err(e),
                Ok(et) => resolve_lines_spec(
                    lines,
                    i + 1,
                    ResolveSt {
                        entries: st.entries.push(
                            EntryV { name, entry_type: et, options: st.opts, dir: root },
                        ),
                        ..st
                    },
                    root,
                    texts,
                    fuel,
                ),
            },
        }
    }
}

/// Whether `d` is the registry that resolving `root` against `texts`
/// yields: its own entries, warnings and root from the fold over its own
/// format text, and each fragment in turn resolved from its own root.
pub open spec fn is_resolved(
    d: Dirfile,
    root: Seq<u8>,
    texts: Seq<(Vec<u8>, Vec<u8>)>,
    fuel: nat,
) -> bool
    decreases fuel,
{
    fuel > 0 && match resolve_root_spec(root, texts, fuel) {
        Err(_) => false,
        Ok(rs) => {
            &&& entry_views(d.entries@) == rs.entries
            &&& d.root_dir@ == root
            &&& d.warnings@ == rs.warnings
            &&& frag_keys(d.fragments@) == rs.frags
            &&& (forall|k: int|
                0 <= k < d.fragments@.len() ==> is_resolved(
                    #[trigger] d.fragments@[k].1,
                    join_spec(root, d.fragments@[k].0@),
                    texts,
                    (fuel - 1) as nat,
                ))
        },
    }
}

/// Fragment isolation: an INCLUDE line hands the fragment to
/// `resolve_root_spec`, which starts from the default option state and
/// never sees the including file's accumulator; and the including file
/// carries exactly its previous option state past the INCLUDE.
pub proof fn lemma_fragment_isolation(
    lines: Seq<LineV>,
    i: int,
    st: ResolveSt,
    root: Seq<u8>,
    texts: Seq<(Vec<u8>, Vec<u8>)>,
    fuel: nat,
    arg: Seq<u8>,
)
    requires
        0 <= i < lines.len(),
        lines[i] == LineV::Directive(Directive::Include, seq![arg]),
    ensures
        resolve_lines_spec(lines, i, st, root, texts, fuel) == (match resolve_root_spec(
            join_spec(root, arg),
            texts,
            fuel,
        ) {
            Err(e) => Err::<ResolveSt, SchemaError>(e),
            Ok(_) => resolve_lines_spec(
                lines,
                i + 1,
                ResolveSt { frags: st.frags.push(arg), ..st },
                root,
                texts,
                fuel,
            ),
        }),
{
    assert(seq![arg].len() == 1);
    assert(seq![arg][0] == arg);
}

impl Dirfile {
    fn new_rec(root: Vec<u8>, texts: &FileStore, fuel: usize) -> (r: Result<Dirfile, SchemaError>)
        ensures
            (match r {
                Ok(d) => is_resolved(d, root@, texts.files@, fuel as nat),
                Err(e) => resolve_root_spec(root@, texts.files@, fuel as nat) == Err::<
                    ResolveSt,
                    _,
                >(e),
            }),
        decreases fuel,
    {
        let fkey = join_path(root.as_slice(), kw_format_exec().as_slice());
        let text = match texts.get(fkey.as_slice()) {
            None => {
                return Err(SchemaError::MissingText);
            },
            Some(t) => t,
        };
        if fuel == 0 {
            return Err(SchemaError::IncludeDepth);
        }
        let lines = match parse_format_file(text.as_slice()) {
            Err(e) => {
                return Err(e);
            },
            Ok(l) => l,
        };
        let ghost lsv = crate::format::line_views(lines@);
        let ghost tf = texts.files@;
        let ghost fm1 = (fuel - 1) as nat;
        let mut opts = DirfileOptions { version: 0, endian: Endian::Big, encoding: None };
        let mut entries: Vec<Entry> = Vec::new();
        let mut warnings: Vec<Directive> = Vec::new();
        let mut fragments: Vec<(Vec<u8>, Dirfile)> = Vec::new();
        proof {
            assert(entry_views(entries@) =~= Seq::<EntryV>::empty());
            assert(warnings@ =~= Seq::<Directive>::empty());
            assert(frag_keys(fragments@) =~= Seq::<Seq<u8>>::empty());
            assert(ResolveSt {
                opts: opts,
                entries: entry_views(entries@),
                warnings: warnings@,
                frags: frag_keys(fragments@),
            } == init_state());
        }
        let mut i: usize = 0;
        while i < lines.len()
            invariant
                i <= lines@.len(),
                1 <= fuel,
                fm1 == (fuel - 1) as nat,
                tf == texts.files@,
                lsv == crate::format::line_views(lines@),
                resolve_root_spec(root@, tf, fuel as nat) == resolve_lines_spec(
                    lsv,
                    0,
                    init_state(),
                    root@,
                    tf,
                    fm1,
                ),
                resolve_lines_spec(lsv, 0, init_state(), root@, tf, fm1) == resolve_lines_spec(
                    lsv,
                    i as int,
                    ResolveSt {
                        opts: opts,
                        entries: entry_views(entries@),
                        warnings: warnings@,
                        frags: frag_keys(fragments@),
                    },
                    root@,
                    tf,
                    fm1,
                ),
                forall|k: int|
                    0 <= k < fragments@.len() ==> is_resolved(
                        #[trigger] fragments@[k].1,
                        join_spec(root@, fragments@[k].0@),
                        tf,
                        ((fuel - 1)) as nat,
                    ),
            decreases lines@.len() - i,
        {
            let ghost st_pre = ResolveSt {
                opts: opts,
                entries: entry_views(entries@),
                warnings: warnings@,
                frags: frag_keys(fragments@),
            };
            proof {
                assert(lsv[i as int] == lines@[i as int]@);
            }
            match &lines[i] {
                Line::Directive(d, args) => {
                    match d {
                        Directive::Version => {
                            if args.len() < 1 {
                                return Err(SchemaError::MissingArgs);
                            }
                            let v = match parse_u32(args[0].as_slice()) {
                                None => {
                                    return Err(SchemaError::BadNumber);
                                },
                                Some(v) => v,
                            };
                            opts.version = v;
                        },
                        Directive::Endian => {
                            if args.len() < 1 {
                                return Err(SchemaError::MissingArgs);
                            }
                            let e = match Endian::from_token(args[0].as_slice()) {
                                None => {
                                    return Err(SchemaError::UnknownEndian);
                                },
                                Some(e) => e,
                            };
                            opts.endian = e;
                        },
                        Directive::Encoding => {
                            if args.len() < 1 {
                                return Err(SchemaError::MissingArgs);
                            }
                            if !bytes_eq(args[0].as_slice(), kw_none_enc_exec().as_slice()) {
                                return Err(SchemaError::UnsupportedEncoding);
                            }
                        },
                        Directive::Alias => {
                            return Err(SchemaError::AliasUnsupported);
                        },
                        Directive::Protect => {
                            warnings.push(Directive::Protect);
                        },
                        Directive::Reference => {
                            warnings.push(Directive::Reference);
                        },
                        Directive::Include => {
                            if args.len() != 1 {
                                return Err(SchemaError::IncludeArgs);
                            }
                            let child_root = join_path(root.as_slice(), args[0].as_slice());
                            let frag = match Self::new_rec(child_root, texts, fuel - 1) {
                                Err(e) => {
                                    return Err(e);
                                },
                                Ok(f) => f,
                            };
                            let key = slice_to_vec(args[0].as_slice());
                            let ghost fpre = fragments@;
                            fragments.push((key, frag));
                            proof {
                                assert(frag_keys(fragments@) =~= frag_keys(fpre).push(
                                    views_of(args@)[0],
                                ));
                            }
                        },
                    }
                },
                Line::FieldDefinition(fd) => {
                    let et = match EntryType::from_field(fd) {
                        Err(e) => {
                            return Err(e);
                        },
                        Ok(et) => et,
                    };
                    let entry = Entry {
                        entry_type: et,
                        name: slice_to_vec(fd.name.as_slice()),
                        dirfile_options: opts,
                        dirfile_path: slice_to_vec(root.as_slice()),
                    };
                    let ghost epre = entries@;
                    let ghost ev = entry@;
                    entries.push(entry);
                    proof {
                        assert(entry_views(entries@) =~= entry_views(epre).push(ev));
                    }
                },
            }
            i += 1;
        }
        proof {
            assert(resolve_lines_spec(
                lsv,
                lines@.len() as int,
                ResolveSt {
                    opts: opts,
                    entries: entry_views(entries@),
                    warnings: warnings@,
                    frags: frag_keys(fragments@),
                },
                root@,
                tf,
                fm1,
            ) == Ok::<ResolveSt, SchemaError>(ResolveSt {
                opts: opts,
                entries: entry_views(entries@),
                warnings: warnings@,
                frags: frag_keys(fragments@),
            }));
        }
        Ok(Dirfile { entries, root_dir: root, fragments, warnings })
    }

    /// Resolves the registry rooted at `root_dir`: reads `root_dir/format`
    /// out of `texts`, applies its directives in order, resolves each
    /// field declaration under the option state of its moment, and
    /// recursively resolves every included fragment. Any schema error
    /// aborts the whole resolution.
    pub fn new(root_dir: Vec<u8>, texts: &FileStore) -> (r: Result<Dirfile, SchemaError>)
        ensures
            (match r {
                Ok(d) => is_resolved(d, root_dir@, texts.files@, texts.files@.len() as nat),
                Err(e) => resolve_root_spec(root_dir@, texts.files@, texts.files@.len() as nat)
                    == Err::<ResolveSt, _>(e),
            }),
    {
        let fuel = texts.files.len();
        Self::new_rec(root_dir, texts, fuel)
    }
}

} // verus!
