use dirfile::format::{parse_format_file, Line};
use dirfile::getdata::ValueKind;
use dirfile::{AccessError, Dirfile, EntryLincom, EntryLinterp, EntryType, FileStore, SchemaError};

fn store_of(pairs: Vec<(&str, Vec<u8>)>) -> FileStore {
    let mut s = FileStore::new();
    for (k, v) in pairs {
        s.add(k.as_bytes().to_vec(), v);
    }
    s
}

fn u32_le_file(vals: &[u32]) -> Vec<u8> {
    let mut out = Vec::new();
    for v in vals {
        out.extend_from_slice(&v.to_le_bytes());
    }
    out
}

fn u64_le_file(vals: &[u64]) -> Vec<u8> {
    let mut out = Vec::new();
    for v in vals {
        out.extend_from_slice(&v.to_le_bytes());
    }
    out
}

fn f64_be_file(vals: &[f64]) -> Vec<u8> {
    let mut out = Vec::new();
    for v in vals {
        out.extend_from_slice(&v.to_be_bytes());
    }
    out
}

fn load(format: &str, data: Vec<(&str, Vec<u8>)>) -> (Dirfile, FileStore) {
    let mut texts = FileStore::new();
    texts.add(b"data/format".to_vec(), format.as_bytes().to_vec());
    let d = Dirfile::new(b"data".to_vec(), &texts).expect("schema resolves");
    (d, store_of(data))
}

#[test]
fn parse_directives_and_fields() {
    let text = b"# a comment\n/VERSION 7\n\nfield RAW UINT32 2\n";
    let lines = parse_format_file(text).expect("parses");
    assert_eq!(lines.len(), 2);
    assert!(matches!(&lines[0], Line::Directive(_, args) if args.len() == 1 && args[0] == b"7"));
    match &lines[1] {
        Line::FieldDefinition(fd) => {
            assert_eq!(fd.name, b"field".to_vec());
            assert_eq!(fd.field_type, b"RAW".to_vec());
            assert_eq!(fd.args, vec![b"UINT32".to_vec(), b"2".to_vec()]);
        },
        _ => panic!("expected a field declaration"),
    }
}

#[test]
fn parse_rejects_unknown_directive() {
    assert!(matches!(
        parse_format_file(b"/FROB 1\n"),
        Err(SchemaError::UnknownDirective { line: 0 })
    ));
}

#[test]
fn parse_rejects_one_token_line() {
    assert!(matches!(parse_format_file(b"ok RAW UINT32 1\nsolo\n"), Err(SchemaError::ParseLine { line: 1 })));
}

#[test]
fn offset_law_reads_five_records_from_twenty_three() {
    // samples_per_frame 10: first_frame=2, first_sample=3 begins at
    // linear offset 3 + 2*10 = 23.
    let vals: Vec<u32> = (0..300u32).collect();
    let (d, files) = load(
        "/ENDIAN little\nf RAW UINT32 10\n",
        vec![("data/f", u32_le_file(&vals))],
    );
    let (out, kind) = d.getdata(b"f", 2, 3, 0, 5, &files).expect("reads");
    assert_eq!(kind, ValueKind::UInt);
    assert_eq!(out, vec![23u64, 24, 25, 26, 27]);
}

#[test]
fn read_past_extent_truncates() {
    let (d, files) = load(
        "/ENDIAN little\nf RAW UINT32 1\n",
        vec![("data/f", u32_le_file(&[5, 6, 7]))],
    );
    let (out, _) = d.getdata(b"f", 0, 0, 0, 10, &files).expect("reads");
    assert_eq!(out, vec![5u64, 6, 7]);
}

#[test]
fn write_read_round_trip() {
    let (d, _) = load("/ENDIAN little\nf RAW UINT64 2\n", vec![]);
    let data: Vec<u64> = vec![1, 0xdead_beef_0123_4567, 3, u64::MAX];
    let (off, bytes) = d.putdata(b"f", 0, 0, &data).expect("writes");
    assert_eq!(off, 0);
    let mut files = FileStore::new();
    files.add(b"data/f".to_vec(), bytes);
    let (out, kind) = d.getdata(b"f", 0, 0, 2, 0, &files).expect("reads");
    assert_eq!(kind, ValueKind::UInt);
    assert_eq!(out, data);
}

#[test]
fn write_at_offset_round_trip() {
    let (d, _) = load("/ENDIAN big\nf RAW UINT32 10\n", vec![]);
    let data: Vec<u64> = vec![11, 22, 33, 44, 55];
    let (off, bytes) = d.putdata(b"f", 2, 3, &data).expect("writes");
    assert_eq!(off, 23 * 4);
    let mut content = vec![0u8; off as usize];
    content.extend_from_slice(&bytes);
    let mut files = FileStore::new();
    files.add(b"data/f".to_vec(), content);
    let (out, _) = d.getdata(b"f", 2, 3, 0, 5, &files).expect("reads");
    assert_eq!(out, data);
}

#[test]
fn endianness_little_layout() {
    let (d, _) = load("/ENDIAN little\nf RAW UINT64 1\n", vec![]);
    let v: u64 = 0x0102_0304_0506_0708;
    let (_, bytes) = d.putdata(b"f", 0, 0, &[v]).expect("writes");
    assert_eq!(bytes, v.to_le_bytes().to_vec());
    let rev: Vec<u8> = v.to_be_bytes().to_vec();
    assert_ne!(bytes, rev);
}

#[test]
fn endianness_big_layout_for_doubles() {
    let (d, _) = load("f RAW FLOAT64 1\n", vec![]);
    let v: f64 = 1234.5625;
    let (_, bytes) = d.putdata(b"f", 0, 0, &[v.to_bits()]).expect("writes");
    assert_eq!(bytes, v.to_be_bytes().to_vec());
}

#[test]
fn bit_extraction_masks_without_shifting() {
    // Parent raw value 0b1011_0000 with start_bit=4, num_bits=4: the mask
    // 0xF0 is applied and the bits keep their position.
    let (d, files) = load(
        "/ENDIAN little\np RAW UINT64 1\nb BIT p 4 4\n",
        vec![("data/p", u64_le_file(&[0b1011_0000u64]))],
    );
    let (out, kind) = d.getdata(b"b", 0, 0, 1, 0, &files).expect("reads");
    assert_eq!(kind, ValueKind::UInt);
    assert_eq!(out, vec![0b1011_0000u64 & 0xF0]);
    assert_eq!(out, vec![0b1011_0000u64]);
}

#[test]
fn bit_of_double_parent_converts_toward_zero() {
    let (d, files) = load(
        "/ENDIAN big\np RAW FLOAT64 1\nb BIT p 0 8\n",
        vec![("data/p", f64_be_file(&[13.7]))],
    );
    let (out, _) = d.getdata(b"b", 0, 0, 1, 0, &files).expect("reads");
    assert_eq!(out, vec![13u64]);
}

#[test]
fn lincom_two_term_chain() {
    // parentA = [1.0, 2.0] with (m=2, b=1), then parentB = [10.0, 20.0]
    // with (m=3, b=0): [2*1+1 + 3*10, 2*2+1 + 3*20] = [33.0, 65.0].
    let (d, files) = load(
        "pa RAW FLOAT64 1\npb RAW FLOAT64 1\nt LINCOM pa 2 1 pb 3 0\n",
        vec![
            ("data/pa", f64_be_file(&[1.0, 2.0])),
            ("data/pb", f64_be_file(&[10.0, 20.0])),
        ],
    );
    let (out, kind) = d.getdata(b"t", 0, 0, 2, 0, &files).expect("reads");
    assert_eq!(kind, ValueKind::Double);
    let vals: Vec<f64> = out.iter().map(|b| f64::from_bits(*b)).collect();
    assert_eq!(vals, vec![33.0, 65.0]);
}

#[test]
fn lincom_fractional_slope_and_integer_parent() {
    let (d, files) = load(
        "/ENDIAN little\np RAW UINT32 1\nt LINCOM p 2.5 1 \n",
        vec![("data/p", u32_le_file(&[7]))],
    );
    let (out, _) = d.getdata(b"t", 0, 0, 1, 0, &files).expect("reads");
    assert_eq!(f64::from_bits(out[0]), 2.5 * 7.0 + 1.0);
}

#[test]
fn lincom_drops_leading_tag_when_count_not_multiple_of_three() {
    let (d, files) = load(
        "p RAW FLOAT64 1\nt LINCOM extra p 2 1\n",
        vec![("data/p", f64_be_file(&[3.0]))],
    );
    let (out, _) = d.getdata(b"t", 0, 0, 1, 0, &files).expect("reads");
    assert_eq!(f64::from_bits(out[0]), 7.0);
}

#[test]
fn linterp_boundary_and_interpolation() {
    // Table x=[0,1,2], y=[0,10,20]: -5 clamps to 0, 1.5 interpolates to
    // 15, 5 clamps to 20.
    let (d, files) = load(
        "p RAW FLOAT64 1\n",
        vec![("data/p", f64_be_file(&[-5.0, 1.5, 5.0]))],
    );
    let entry = EntryLinterp {
        parent_field: b"p".to_vec(),
        lookup_table_path: b"lut".to_vec(),
        x: vec![0.0f64.to_bits(), 1.0f64.to_bits(), 2.0f64.to_bits()],
        y: vec![0.0f64.to_bits(), 10.0f64.to_bits(), 20.0f64.to_bits()],
    };
    let out = d.getlinterp(&entry, 0, 0, 3, 0, &files).expect("reads");
    let vals: Vec<f64> = out.iter().map(|b| f64::from_bits(*b)).collect();
    assert_eq!(vals, vec![0.0, 15.0, 20.0]);
}

#[test]
fn fragment_isolation() {
    // The fragment's ENDIAN/VERSION must not leak into the parent
    // registry's option state, nor the parent's into the fragment.
    let mut texts = FileStore::new();
    texts.add(
        b"data/format".to_vec(),
        b"/ENDIAN little\n/INCLUDE sub\nf RAW UINT32 1\n".to_vec(),
    );
    texts.add(
        b"data/sub/format".to_vec(),
        b"/VERSION 42\ng RAW UINT32 1\n".to_vec(),
    );
    let d = Dirfile::new(b"data".to_vec(), &texts).expect("resolves");
    let f = d.find_entry(b"f").expect("f exists");
    assert!(matches!(f.dirfile_options.endian, dirfile::Endian::Little));
    assert_eq!(f.dirfile_options.version, 0);
    assert_eq!(d.fragments.len(), 1);
    assert_eq!(d.fragments[0].0, b"sub".to_vec());
    let frag = &d.fragments[0].1;
    let g = frag.find_entry(b"g").expect("g exists");
    // the fragment starts from the default big-endian state, not the
    // parent's little-endian one
    assert!(matches!(g.dirfile_options.endian, dirfile::Endian::Big));
    assert_eq!(g.dirfile_options.version, 42);
    assert_eq!(g.dirfile_path, b"data/sub".to_vec());
}

#[test]
fn options_snapshot_is_per_declaration() {
    let (d, _) = load("a RAW UINT32 1\n/ENDIAN little\nb RAW UINT32 1\n", vec![]);
    let a = d.find_entry(b"a").expect("a exists");
    let b = d.find_entry(b"b").expect("b exists");
    assert!(matches!(a.dirfile_options.endian, dirfile::Endian::Big));
    assert!(matches!(b.dirfile_options.endian, dirfile::Endian::Little));
}

#[test]
fn redeclaration_last_wins() {
    let (d, _) = load("a RAW UINT32 1\na RAW UINT64 3\n", vec![]);
    let a = d.find_entry(b"a").expect("a exists");
    match &a.entry_type {
        EntryType::Raw(r) => {
            assert_eq!(r.spf, 3);
            assert!(matches!(r.data_type, dirfile::RawTypes::Uint64));
        },
        _ => panic!("expected a raw entry"),
    }
}

#[test]
fn cycle_detection() {
    let (d, files) = load("a BIT b 0 4\nb BIT a 0 4\nc BIT c 0 4\n", vec![]);
    assert!(matches!(d.getdata(b"a", 0, 0, 1, 0, &files), Err(AccessError::FieldCycle)));
    assert!(matches!(d.getdata(b"c", 0, 0, 1, 0, &files), Err(AccessError::FieldCycle)));
}

#[test]
fn cycle_detection_three_fields() {
    // a -> b -> c -> a, crossing all three derived kinds of parent link
    let (d, files) = load(
        "a BIT b 0 4\nb LINCOM c 1 0\nc BIT a 0 4\n",
        vec![],
    );
    assert!(matches!(d.getdata(b"a", 0, 0, 1, 0, &files), Err(AccessError::FieldCycle)));
    assert!(matches!(d.getdata(b"b", 0, 0, 1, 0, &files), Err(AccessError::FieldCycle)));
}

#[test]
fn schema_errors() {
    let try_load = |format: &str| -> Result<Dirfile, SchemaError> {
        let mut texts = FileStore::new();
        texts.add(b"data/format".to_vec(), format.as_bytes().to_vec());
        Dirfile::new(b"data".to_vec(), &texts)
    };
    assert!(matches!(try_load("/VERSION\n"), Err(SchemaError::MissingArgs)));
    assert!(matches!(try_load("/VERSION seven\n"), Err(SchemaError::BadNumber)));
    assert!(matches!(try_load("/ENDIAN BIG\n"), Err(SchemaError::UnknownEndian)));
    assert!(matches!(try_load("/ENCODING sie\n"), Err(SchemaError::UnsupportedEncoding)));
    assert!(matches!(try_load("/ALIAS x y\n"), Err(SchemaError::AliasUnsupported)));
    assert!(matches!(try_load("/INCLUDE a b\n"), Err(SchemaError::IncludeArgs)));
    assert!(matches!(try_load("f NOISE 1 2\n"), Err(SchemaError::UnknownFieldType)));
    assert!(matches!(try_load("f LINTERP p lut\n"), Err(SchemaError::UnknownFieldType)));
    assert!(matches!(try_load("f RAW INT13 1\n"), Err(SchemaError::BadRawType)));
    assert!(matches!(try_load("f RAW UINT32 0\n"), Err(SchemaError::BadNumber)));
    assert!(matches!(try_load("f RAW UINT32\n"), Err(SchemaError::MissingArgs)));
    assert!(matches!(try_load("f BIT p 3 x\n"), Err(SchemaError::BadNumber)));
    assert!(matches!(try_load("f LINCOM p 1\n"), Err(SchemaError::MissingArgs)));
    assert!(matches!(try_load("f LINCOM p nope 0\n"), Err(SchemaError::BadNumber)));
    assert!(matches!(try_load("/INCLUDE missing\n"), Err(SchemaError::MissingText)));
    let empty = FileStore::new();
    assert!(matches!(
        Dirfile::new(b"data".to_vec(), &empty),
        Err(SchemaError::MissingText)
    ));
}

#[test]
fn access_errors() {
    let (d, files) = load(
        "/ENDIAN little\nf RAW UINT32 1\nz BIT f 0 0\nw BIT f 60 10\n",
        vec![("data/f", u32_le_file(&[1]))],
    );
    assert!(matches!(d.getdata(b"nope", 0, 0, 1, 0, &files), Err(AccessError::UnknownField)));
    let none = FileStore::new();
    assert!(matches!(d.getdata(b"f", 0, 0, 1, 0, &none), Err(AccessError::MissingData)));
    assert!(matches!(d.getdata(b"z", 0, 0, 1, 0, &files), Err(AccessError::BitRange)));
    assert!(matches!(d.getdata(b"w", 0, 0, 1, 0, &files), Err(AccessError::BitRange)));
    assert!(matches!(d.putdata(b"z", 0, 0, &[1]), Err(AccessError::NotRaw)));
    assert!(matches!(d.putdata(b"nope", 0, 0, &[1]), Err(AccessError::UnknownField)));
    assert!(matches!(
        d.putdata(b"f", usize::MAX, usize::MAX, &[1]),
        Err(AccessError::OffsetOverflow)
    ));
    let empty_lincom = EntryLincom { terms: vec![] };
    assert!(matches!(
        d.getlincom(&empty_lincom, 0, 0, 1, 0, &files),
        Err(AccessError::EmptyLincom)
    ));
    let bad_table = EntryLinterp {
        parent_field: b"f".to_vec(),
        lookup_table_path: b"lut".to_vec(),
        x: vec![],
        y: vec![],
    };
    assert!(matches!(
        d.getlinterp(&bad_table, 0, 0, 1, 0, &files),
        Err(AccessError::BadTable)
    ));
}

#[test]
fn warnings_are_collected_not_fatal() {
    let (d, _) = load("/PROTECT f\n/REFERENCE f\nf RAW UINT32 1\n", vec![]);
    assert_eq!(d.warnings.len(), 2);
    assert!(d.find_entry(b"f").is_some());
}

#[test]
fn getbit_on_entry_value() {
    let (d, files) = load(
        "/ENDIAN little\np RAW UINT64 1\n",
        vec![("data/p", u64_le_file(&[0xFFu64]))],
    );
    let entry = dirfile::EntryBit { start_bit: 2, num_bits: 3, parent_field: b"p".to_vec() };
    let out = d.getbit(&entry, 0, 0, 1, 0, &files).expect("reads");
    assert_eq!(out, vec![0b0001_1100u64]);
}

#[test]
fn getlincom_on_entry_value() {
    let (d, files) = load(
        "p RAW FLOAT64 1\n",
        vec![("data/p", f64_be_file(&[4.0]))],
    );
    let entry = EntryLincom {
        terms: vec![dirfile::LincomTerm {
            parent_field: b"p".to_vec(),
            m: 0.5f64.to_bits(),
            b: (-1.0f64).to_bits(),
        }],
    };
    let out = d.getlincom(&entry, 0, 0, 1, 0, &files).expect("reads");
    assert_eq!(f64::from_bits(out[0]), 1.0);
}

#[test]
fn bit_over_lincom_chain() {
    // a derived field whose parent is itself derived: the lincom result
    // 6.0 is converted to an unsigned 6 before masking
    let (d, files) = load(
        "p RAW FLOAT64 1\nl LINCOM p 2 0\nb BIT l 0 8\n",
        vec![("data/p", f64_be_file(&[3.0]))],
    );
    let (out, kind) = d.getdata(b"b", 0, 0, 1, 0, &files).expect("reads");
    assert_eq!(kind, ValueKind::UInt);
    assert_eq!(out, vec![6u64]);
}

#[test]
fn nested_fragments() {
    let mut texts = FileStore::new();
    texts.add(b"data/format".to_vec(), b"/INCLUDE sub\n".to_vec());
    texts.add(b"data/sub/format".to_vec(), b"/INCLUDE deeper\n".to_vec());
    texts.add(b"data/sub/deeper/format".to_vec(), b"g RAW UINT32 1\n".to_vec());
    let d = Dirfile::new(b"data".to_vec(), &texts).expect("resolves");
    let inner = &d.fragments[0].1.fragments[0].1;
    assert!(inner.find_entry(b"g").is_some());
    assert_eq!(inner.root_dir, b"data/sub/deeper".to_vec());
}

#[test]
fn fragment_error_aborts_parent() {
    let mut texts = FileStore::new();
    texts.add(b"data/format".to_vec(), b"/INCLUDE sub\nf RAW UINT32 1\n".to_vec());
    texts.add(b"data/sub/format".to_vec(), b"/ENDIAN sideways\n".to_vec());
    assert!(matches!(
        Dirfile::new(b"data".to_vec(), &texts),
        Err(SchemaError::UnknownEndian)
    ));
}

#[test]
fn empty_window_reads_nothing() {
    let (d, files) = load(
        "/ENDIAN little\nf RAW UINT32 4\n",
        vec![("data/f", u32_le_file(&[1, 2, 3, 4]))],
    );
    let (out, _) = d.getdata(b"f", 0, 0, 0, 0, &files).expect("reads");
    assert_eq!(out, Vec::<u64>::new());
}
