use vstd::prelude::*;

pub mod codec;
pub mod float;
pub mod format;
pub mod getdata;
pub mod putdata;
pub mod resolve;

verus! {

// ---------------------------------------------------------------------------
// Dirfile-wide options
// ---------------------------------------------------------------------------

/// Byte order used to encode the fixed-width samples of a raw field.
#[derive(Clone, Copy, Debug)]
pub enum Endian {
    Big,
    Little,
}

/// On-disk data type of a raw field's samples.
#[derive(Clone, Copy, Debug)]
pub enum RawTypes {
    Uint32,
    Uint64,
    Float64,
}

/// Storage encodings named by the format grammar. Only "none" is supported;
/// this variant exists so an `ENCODING` directive value has a place to live.
#[derive(Clone, Copy, Debug)]
pub enum Encoding {
    Sie,
}

/// The per-dirfile option accumulator. Each entry captures the value this
/// had when its declaration line was processed.
#[derive(Clone, Copy, Debug)]
pub struct DirfileOptions {
    pub version: u32,
    pub endian: Endian,
    pub encoding: Option<Encoding>,
}

/// The option state a registry starts from: version 0, big-endian, no encoding.
pub open spec fn default_options() -> DirfileOptions {
    DirfileOptions { version: 0, endian: Endian::Big, encoding: None }
}

// ---------------------------------------------------------------------------
// Entries
// ---------------------------------------------------------------------------

/// A raw field: `spf` samples per frame, each of the given fixed-width type.
#[derive(Debug)]
pub struct EntryRaw {
    pub spf: u32,
    pub data_type: RawTypes,
}

/// A bitfield view over an unsigned integer read of `parent_field`.
#[derive(Debug)]
pub struct EntryBit {
    pub start_bit: u32,
    pub num_bits: u32,
    pub parent_field: Vec<u8>,
}

/// One term of a linear-combination field. `m` and `b` hold the IEEE-754
/// bit patterns of the slope and intercept.
#[derive(Debug)]
pub struct LincomTerm {
    pub parent_field: Vec<u8>,
    pub m: u64,
    pub b: u64,
}

/// A linear-combination field: the sum over its terms of `m_i * parent_i + b_i`.
#[derive(Debug)]
pub struct EntryLincom {
    pub terms: Vec<LincomTerm>,
}

/// A piecewise-linear lookup field. `x` and `y` hold the IEEE-754 bit
/// patterns of the table columns; `x` is expected ascending.
#[derive(Debug)]
pub struct EntryLinterp {
    pub parent_field: Vec<u8>,
    pub lookup_table_path: Vec<u8>,
    pub x: Vec<u64>,
    pub y: Vec<u64>,
}

#[derive(Debug)]
pub enum EntryType {
    Raw(EntryRaw),
    Bit(EntryBit),
    Lincom(EntryLincom),
    Linterp(EntryLinterp),
}

/// A named field together with the option snapshot and directory it was
/// declared under.
#[derive(Debug)]
pub struct Entry {
    pub entry_type: EntryType,
    pub name: Vec<u8>,
    pub dirfile_options: DirfileOptions,
    pub dirfile_path: Vec<u8>,
}

// ---------------------------------------------------------------------------
// Mathematical views of the entry types
// ---------------------------------------------------------------------------

/// The views of a sequence of linear-combination terms.
pub open spec fn term_views(s: Seq<LincomTerm>) -> Seq<TermV> {
    s.map_values(|t: LincomTerm| t@)
}

pub struct TermV {
    pub parent: Seq<u8>,
    pub m: u64,
    pub b: u64,
}

pub enum EntryTypeV {
    Raw { spf: u32, data_type: RawTypes },
    Bit { start_bit: u32, num_bits: u32, parent: Seq<u8> },
    Lincom { terms: Seq<TermV> },
    Linterp { parent: Seq<u8>, lut: Seq<u8>, x: Seq<u64>, y: Seq<u64> },
}

pub struct EntryV {
    pub name: Seq<u8>,
    pub entry_type: EntryTypeV,
    pub options: DirfileOptions,
    pub dir: Seq<u8>,
}

impl View for LincomTerm {
    type V = TermV;

    open spec fn view(&self) -> TermV {
        TermV { parent: self.parent_field@, m: self.m, b: self.b }
    }
}

impl View for EntryType {
    type V = EntryTypeV;

    open spec fn view(&self) -> EntryTypeV {
        match self {
            EntryType::Raw(r) => EntryTypeV::Raw { spf: r.spf, data_type: r.data_type },
            EntryType::Bit(b) => EntryTypeV::Bit {
                start_bit: b.start_bit,
                num_bits: b.num_bits,
                parent: b.parent_field@,
            },
            EntryType::Lincom(l) => EntryTypeV::Lincom { terms: term_views(l.terms@) },
            EntryType::Linterp(l) => EntryTypeV::Linterp {
                parent: l.parent_field@,
                lut: l.lookup_table_path@,
                x: l.x@,
                y: l.y@,
            },
        }
    }
}

impl View for Entry {
    type V = EntryV;

    open spec fn view(&self) -> EntryV {
        EntryV {
            name: self.name@,
            entry_type: self.entry_type@,
            options: self.dirfile_options,
            dir: self.dirfile_path@,
        }
    }
}

// ---------------------------------------------------------------------------
// Errors
// ---------------------------------------------------------------------------

/// Fatal errors raised while resolving a schema; `load` returns no partial
/// registry when one of these occurs.
#[derive(Clone, Copy, Debug)]
pub enum SchemaError {
    /// A non-empty, non-comment line with fewer than two tokens.
    ParseLine { line: usize },
    /// A `/NAME` line whose name is not a recognized directive.
    UnknownDirective { line: usize },
    /// A directive or field declaration with too few arguments.
    MissingArgs,
    /// A numeric argument that does not parse (or a zero samples-per-frame).
    BadNumber,
    /// An `ENDIAN` argument other than `big` or `little`.
    UnknownEndian,
    /// An `ENCODING` argument other than `none`.
    UnsupportedEncoding,
    /// An `ALIAS` directive; aliases are unsupported by design.
    AliasUnsupported,
    /// An `INCLUDE` directive without exactly one argument.
    IncludeArgs,
    /// A field declaration whose type tag is not recognized.
    UnknownFieldType,
    /// A `RAW` data type tag other than `UINT32`, `UINT64` or `FLOAT64`.
    BadRawType,
    /// The schema text of the root or of an included fragment is absent.
    MissingText,
    /// An INCLUDE chain deeper than the number of provided schema texts.
    IncludeDepth,
}

/// Per-call errors raised by `getdata`/`putdata`; they leave the registry
/// untouched.
#[derive(Clone, Copy, Debug)]
pub enum AccessError {
    /// The named field is not in the registry.
    UnknownField,
    /// The parent chain of a derived field revisits a field.
    FieldCycle,
    /// The backing data of a raw field is absent from the store.
    MissingData,
    /// A write was attempted on a derived (non-raw) field.
    NotRaw,
    /// A bit field with zero width or bits beyond position 64.
    BitRange,
    /// A linear-combination field with no terms.
    EmptyLincom,
    /// A lookup field with an empty table or columns of unequal length.
    BadTable,
    /// A byte offset beyond what a file offset can address.
    OffsetOverflow,
}

// ---------------------------------------------------------------------------
// Byte-sequence helpers
// ---------------------------------------------------------------------------

/// Exact byte equality of two slices.
pub fn bytes_eq(a: &[u8], b: &[u8]) -> (r: bool)
    ensures
        r == (a@ == b@),
{
    if a.len() != b.len() {
        proof {
            assert(a@.len() != b@.len());
        }
        return false;
    }
    let mut i: usize = 0;
    while i < a.len()
        invariant
            i <= a@.len(),
            a@.len() == b@.len(),
            forall|j: int| 0 <= j < i ==> a@[j] == b@[j],
        decreases a@.len() - i,
    {
        if a[i] != b[i] {
            return false;
        }
        i += 1;
    }
    proof {
        assert(a@ =~= b@);
    }
    true
}

/// A copy of the byte range `[i, j)` of a slice.
pub fn copy_range(s: &[u8], i: usize, j: usize) -> (r: Vec<u8>)
    requires
        i <= j <= s@.len(),
    ensures
        r@ == s@.subrange(i as int, j as int),
{
    let mut out: Vec<u8> = Vec::new();
    let mut k: usize = i;
    while k < j
        invariant
            i <= k <= j <= s@.len(),
            out@ == s@.subrange(i as int, k as int),
        decreases j - k,
    {
        out.push(s[k]);
        proof {
            assert(out@ =~= s@.subrange(i as int, k + 1 as int));
        }
        k += 1;
    }
    out
}

/// An owned copy of a whole slice.
pub fn slice_to_vec(s: &[u8]) -> (r: Vec<u8>)
    ensures
        r@ == s@,
{
    let r = copy_range(s, 0, s.len());
    proof {
        assert(s@.subrange(0, s@.len() as int) =~= s@);
    }
    r
}

/// Path join: `a`, a slash, `b`.
pub open spec fn join_spec(a: Seq<u8>, b: Seq<u8>) -> Seq<u8> {
    a + seq![47u8] + b
}

/// Joins a directory path and a file name with a slash.
pub fn join_path(a: &[u8], b: &[u8]) -> (r: Vec<u8>)
    ensures
        r@ == join_spec(a@, b@),
{
    let mut out = slice_to_vec(a);
    out.push(47);
    let mut i: usize = 0;
    while i < b.len()
        invariant
            i <= b@.len(),
            out@ == a@ + seq![47u8] + b@.subrange(0, i as int),
        decreases b@.len() - i,
    {
        out.push(b[i]);
        proof {
            assert(out@ =~= a@ + seq![47u8] + b@.subrange(0, i + 1 as int));
        }
        i += 1;
    }
    proof {
        assert(b@.subrange(0, b@.len() as int) =~= b@);
    }
    out
}

/// The views of a sequence of byte vectors.
pub open spec fn views_of(s: Seq<Vec<u8>>) -> Seq<Seq<u8>> {
    s.map_values(|v: Vec<u8>| v@)
}

// ---------------------------------------------------------------------------
// FileStore: named byte blobs handed in by the caller
// ---------------------------------------------------------------------------

/// An in-memory association of paths to file contents. The engine reads
/// schema texts and raw field data from one of these, and the surrounding
/// program decides how the contents reach it. A later `add` of the same
/// path shadows an earlier one.
pub struct FileStore {
    pub files: Vec<(Vec<u8>, Vec<u8>)>,
}

pub open spec fn store_upto(s: Seq<(Vec<u8>, Vec<u8>)>, i: int, key: Seq<u8>) -> Option<Seq<u8>>
    decreases i,
{
    if i <= 0 {
        None
    } else if s[i - 1].0@ == key {
        Some(s[i - 1].1@)
    } else {
        store_upto(s, i - 1, key)
    }
}

/// The content stored under `key`, latest addition first.
pub open spec fn store_lookup(s: Seq<(Vec<u8>, Vec<u8>)>, key: Seq<u8>) -> Option<Seq<u8>> {
    store_upto(s, s.len() as int, key)
}

impl FileStore {
    pub fn new() -> (r: FileStore)
        ensures
            r.files@.len() == 0,
    {
        FileStore { files: Vec::new() }
    }

    pub fn add(&mut self, key: Vec<u8>, data: Vec<u8>)
        ensures
            final(self).files@ == old(self).files@.push((key, data)),
    {
        self.files.push((key, data));
    }

    fn get_upto<'a>(files: &'a Vec<(Vec<u8>, Vec<u8>)>, i: usize, key: &[u8]) -> (r: Option<
        &'a Vec<u8>,
    >)
        requires
            i <= files@.len(),
        ensures
            match r {
                Some(v) => store_upto(files@, i as int, key@) == Some(v@),
                None => store_upto(files@, i as int, key@) is None,
            },
        decreases i,
    {
        if i == 0 {
            None
        } else if bytes_eq(files[i - 1].0.as_slice(), key) {
            Some(&files[i - 1].1)
        } else {
            Self::get_upto(files, i - 1, key)
        }
    }

    /// The content stored under `key`, if any.
    pub fn get<'a>(&'a self, key: &[u8]) -> (r: Option<&'a Vec<u8>>)
        ensures
            match r {
                Some(v) => store_lookup(self.files@, key@) == Some(v@),
                None => store_lookup(self.files@, key@) is None,
            },
    {
        Self::get_upto(&self.files, self.files.len(), key)
    }
}

// ---------------------------------------------------------------------------
// Dirfile: the resolved registry
// ---------------------------------------------------------------------------

/// A resolved registry: named entries, the root directory they were loaded
/// from, the registries of included fragments, and the directives that were
/// accepted with a warning. A name declared twice resolves to its latest
/// declaration.
pub struct Dirfile {
    pub entries: Vec<Entry>,
    pub root_dir: Vec<u8>,
    pub fragments: Vec<(Vec<u8>, Dirfile)>,
    pub warnings: Vec<crate::format::Directive>,
}

pub open spec fn lookup_upto(s: Seq<Entry>, i: int, name: Seq<u8>) -> Option<EntryV>
    decreases i,
{
    if i <= 0 {
        None
    } else if s[i - 1].name@ == name {
        Some(s[i - 1]@)
    } else {
        lookup_upto(s, i - 1, name)
    }
}

/// The entry registered under `name`: the latest declaration wins.
pub open spec fn lookup_entry(s: Seq<Entry>, name: Seq<u8>) -> Option<EntryV> {
    lookup_upto(s, s.len() as int, name)
}

impl Dirfile {
    fn find_upto<'a>(entries: &'a Vec<Entry>, i: usize, name: &[u8]) -> (r: Option<&'a Entry>)
        requires
            i <= entries@.len(),
        ensures
            match r {
                Some(e) => lookup_upto(entries@, i as int, name@) == Some(e@),
                None => lookup_upto(entries@, i as int, name@) is None,
            },
        decreases i,
    {
        if i == 0 {
            None
        } else if bytes_eq(entries[i - 1].name.as_slice(), name) {
            Some(&entries[i - 1])
        } else {
            Self::find_upto(entries, i - 1, name)
        }
    }

    /// The entry registered under `name`, if any.
    pub fn find_entry<'a>(&'a self, name: &[u8]) -> (r: Option<&'a Entry>)
        ensures
            match r {
                Some(e) => lookup_entry(self.entries@, name@) == Some(e@),
                None => lookup_entry(self.entries@, name@) is None,
            },
    {
        Self::find_upto(&self.entries, self.entries.len(), name)
    }
}

} // verus!
