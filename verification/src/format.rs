use vstd::prelude::*;

use crate::{bytes_eq, copy_range, views_of, SchemaError};

verus! {

// ---------------------------------------------------------------------------
// Parsed lines
// ---------------------------------------------------------------------------

/// The directives the format grammar recognizes.
#[derive(Clone, Copy, Debug)]
pub enum Directive {
    Version,
    Endian,
    Protect,
    Encoding,
    Reference,
    Alias,
    Include,
}

/// A field declaration line: name, type tag, and its positional arguments.
#[derive(Debug)]
pub struct FieldDefinition {
    pub name: Vec<u8>,
    pub field_type: Vec<u8>,
    pub args: Vec<Vec<u8>>,
}

/// One meaningful line of a format file.
#[derive(Debug)]
pub enum Line {
    Directive(Directive, Vec<Vec<u8>>),
    FieldDefinition(FieldDefinition),
}

/// Mathematical view of a parsed line.
pub enum LineV {
    Directive(Directive, Seq<Seq<u8>>),
    Field { name: Seq<u8>, field_type: Seq<u8>, args: Seq<Seq<u8>> },
}

impl View for Line {
    type V = LineV;

    open spec fn view(&self) -> LineV {
        match self {
            Line::Directive(d, args) => LineV::Directive(*d, views_of(args@)),
            Line::FieldDefinition(fd) => LineV::Field {
                name: fd.name@,
                field_type: fd.field_type@,
                args: views_of(fd.args@),
            },
        }
    }
}

// ---------------------------------------------------------------------------
// Keywords (ASCII byte sequences)
// ---------------------------------------------------------------------------

pub open spec fn kw_version() -> Seq<u8> {
    seq![86u8, 69u8, 82u8, 83u8, 73u8, 79u8, 78u8]  // VERSION
}

pub open spec fn kw_endian() -> Seq<u8> {
    seq![69u8, 78u8, 68u8, 73u8, 65u8, 78u8]  // ENDIAN
}

pub open spec fn kw_protect() -> Seq<u8> {
    seq![80u8, 82u8, 79u8, 84u8, 69u8, 67u8, 84u8]  // PROTECT
}

pub open spec fn kw_encoding() -> Seq<u8> {
    seq![69u8, 78u8, 67u8, 79u8, 68u8, 73u8, 78u8, 71u8]  // ENCODING
}

pub open spec fn kw_reference() -> Seq<u8> {
    seq![82u8, 69u8, 70u8, 69u8, 82u8, 69u8, 78u8, 67u8, 69u8]  // REFERENCE
}

pub open spec fn kw_alias() -> Seq<u8> {
    seq![65u8, 76u8, 73u8, 65u8, 83u8]  // ALIAS
}

pub open spec fn kw_include() -> Seq<u8> {
    seq![73u8, 78u8, 67u8, 76u8, 85u8, 68u8, 69u8]  // INCLUDE
}

fn kw_version_exec() -> (r: Vec<u8>)
    ensures
        r@ == kw_version(),
{
    let v: Vec<u8> = vec![86u8, 69u8, 82u8, 83u8, 73u8, 79u8, 78u8];
    proof {
        assert(v@ =~= kw_version());
    }
    v
}

fn kw_endian_exec() -> (r: Vec<u8>)
    ensures
        r@ == kw_endian(),
{
    let v: Vec<u8> = vec![69u8, 78u8, 68u8, 73u8, 65u8, 78u8];
    proof {
        assert(v@ =~= kw_endian());
    }
    v
}

fn kw_protect_exec() -> (r: Vec<u8>)
    ensures
        r@ == kw_protect(),
{
    let v: Vec<u8> = vec![80u8, 82u8, 79u8, 84u8, 69u8, 67u8, 84u8];
    proof {
        assert(v@ =~= kw_protect());
    }
    v
}

fn kw_encoding_exec() -> (r: Vec<u8>)
    ensures
        r@ == kw_encoding(),
{
    let v: Vec<u8> = vec![69u8, 78u8, 67u8, 79u8, 68u8, 73u8, 78u8, 71u8];
    proof {
        assert(v@ =~= kw_encoding());
    }
    v
}

fn kw_reference_exec() -> (r: Vec<u8>)
    ensures
        r@ == kw_reference(),
{
    let v: Vec<u8> = vec![82u8, 69u8, 70u8, 69u8, 82u8, 69u8, 78u8, 67u8, 69u8];
    proof {
        assert(v@ =~= kw_reference());
    }
    v
}

fn kw_alias_exec() -> (r: Vec<u8>)
    ensures
        r@ == kw_alias(),
{
    let v: Vec<u8> = vec![65u8, 76u8, 73u8, 65u8, 83u8];
    proof {
        assert(v@ =~= kw_alias());
    }
    v
}

fn kw_include_exec() -> (r: Vec<u8>)
    ensures
        r@ == kw_include(),
{
    let v: Vec<u8> = vec![73u8, 78u8, 67u8, 76u8, 85u8, 68u8, 69u8];
    proof {
        assert(v@ =~= kw_include());
    }
    v
}

/// The directive named by a token (the token without its leading slash).
pub open spec fn directive_of(tok: Seq<u8>) -> Option<Directive> {
    if tok == kw_version() {
        Some(Directive::Version)
    } else if tok == kw_endian() {
        Some(Directive::Endian)
    } else if tok == kw_protect() {
        Some(Directive::Protect)
    } else if tok == kw_encoding() {
        Some(Directive::Encoding)
    } else if tok == kw_reference() {
        Some(Directive::Reference)
    } else if tok == kw_alias() {
        Some(Directive::Alias)
    } else if tok == kw_include() {
        Some(Directive::Include)
    } else {
        None
    }
}

impl Directive {
    /// Classifies a directive name token.
    pub fn from_token(tok: &[u8]) -> (r: Option<Directive>)
        ensures
            r == directive_of(tok@),
    {
        if bytes_eq(tok, kw_version_exec().as_slice()) {
            Some(Directive::Version)
        } else if bytes_eq(tok, kw_endian_exec().as_slice()) {
            Some(Directive::Endian)
        } else if bytes_eq(tok, kw_protect_exec().as_slice()) {
            Some(Directive::Protect)
        } else if bytes_eq(tok, kw_encoding_exec().as_slice()) {
            Some(Directive::Encoding)
        } else if bytes_eq(tok, kw_reference_exec().as_slice()) {
            Some(Directive::Reference)
        } else if bytes_eq(tok, kw_alias_exec().as_slice()) {
            Some(Directive::Alias)
        } else if bytes_eq(tok, kw_include_exec().as_slice()) {
            Some(Directive::Include)
        } else {
            None
        }
    }
}

// ---------------------------------------------------------------------------
// Tokenization
// ---------------------------------------------------------------------------

/// Whitespace: space, tab, carriage return, newline.
pub open spec fn is_space(c: u8) -> bool {
    c == 32 || c == 9 || c == 13 || c == 10
}

/// True for any byte that does not separate tokens.
pub fn is_not_space(c: u8) -> (r: bool)
    ensures
        r == !is_space(c),
{
    !(c == 32 || c == 9 || c == 13 || c == 10)
}

/// The lines of `s` from position `i` on, `cur` being the partial line
/// read so far. Lines are separated by newline bytes.
pub open spec fn lines_from(s: Seq<u8>, i: int, cur: Seq<u8>) -> Seq<Seq<u8>>
    decreases s.len() - i,
{
    if i < 0 || i >= s.len() {
        seq![cur]
    } else if s[i] == 10 {
        seq![cur] + lines_from(s, i + 1, seq![])
    } else {
        lines_from(s, i + 1, cur.push(s[i]))
    }
}

pub open spec fn split_lines(s: Seq<u8>) -> Seq<Seq<u8>> {
    lines_from(s, 0, seq![])
}

fn lines_from_exec(s: &[u8], i: usize, cur: Vec<u8>) -> (r: Vec<Vec<u8>>)
    requires
        i <= s@.len(),
    ensures
        views_of(r@) == lines_from(s@, i as int, cur@),
    decreases s@.len() - i,
{
    if i >= s.len() {
        let mut out: Vec<Vec<u8>> = Vec::new();
        out.push(cur);
        proof {
            assert(views_of(out@) =~= lines_from(s@, i as int, cur@));
        }
        out
    } else if s[i] == 10 {
        let mut rest = lines_from_exec(s, i + 1, Vec::new());
        rest.insert(0, cur);
        proof {
            assert(views_of(rest@) =~= lines_from(s@, i as int, cur@));
        }
        rest
    } else {
        let mut c = cur;
        c.push(s[i]);
        lines_from_exec(s, i + 1, c)
    }
}

/// The whitespace-separated tokens of `s` from position `i` on, `cur`
/// being the partial token read so far.
pub open spec fn toks_from(s: Seq<u8>, i: int, cur: Seq<u8>) -> Seq<Seq<u8>>
    decreases s.len() - i,
{
    if i < 0 || i >= s.len() {
        if cur.len() > 0 {
            seq![cur]
        } else {
            seq![]
        }
    } else if is_space(s[i]) {
        if cur.len() > 0 {
            seq![cur] + toks_from(s, i + 1, seq![])
        } else {
            toks_from(s, i + 1, seq![])
        }
    } else {
        toks_from(s, i + 1, cur.push(s[i]))
    }
}

pub open spec fn tokenize(s: Seq<u8>) -> Seq<Seq<u8>> {
    toks_from(s, 0, seq![])
}

fn toks_from_exec(s: &[u8], i: usize, cur: Vec<u8>) -> (r: Vec<Vec<u8>>)
    requires
        i <= s@.len(),
    ensures
        views_of(r@) == toks_from(s@, i as int, cur@),
        forall|j: int| 0 <= j < r@.len() ==> r@[j]@.len() > 0,
    decreases s@.len() - i,
{
    if i >= s.len() {
        let mut out: Vec<Vec<u8>> = Vec::new();
        if cur.len() > 0 {
            out.push(cur);
        }
        proof {
            assert(views_of(out@) =~= toks_from(s@, i as int, cur@));
        }
        out
    } else if !is_not_space(s[i]) {
        if cur.len() > 0 {
            let mut rest = toks_from_exec(s, i + 1, Vec::new());
            rest.insert(0, cur);
            proof {
                assert(views_of(rest@) =~= toks_from(s@, i as int, cur@));
            }
            rest
        } else {
            proof {
                assert(cur@ =~= Seq::<u8>::empty());
            }
            toks_from_exec(s, i + 1, cur)
        }
    } else {
        let mut c = cur;
        c.push(s[i]);
        toks_from_exec(s, i + 1, c)
    }
}

// ---------------------------------------------------------------------------
// Line classification and the whole-file parse
// ---------------------------------------------------------------------------

/// What one line means: nothing (blank or comment), a parsed line, or a
/// fatal schema error naming the line.
pub open spec fn classify_line(toks: Seq<Seq<u8>>, lineno: usize) -> Result<
    Option<LineV>,
    SchemaError,
> {
    if toks.len() == 0 {
        Ok(None)
    } else if toks[0].len() == 0 {
        Ok(None)
    } else if toks[0][0] == 35 {  // '#': comment
        Ok(None)
    } else if toks[0][0] == 47 {  // '/': directive
        match directive_of(toks[0].skip(1)) {
            Some(d) => Ok(Some(LineV::Directive(d, toks.skip(1)))),
            None => Err(SchemaError::UnknownDirective { line: lineno }),
        }
    } else if toks.len() < 2 {
        Err(SchemaError::ParseLine { line: lineno })
    } else {
        Ok(Some(LineV::Field { name: toks[0], field_type: toks[1], args: toks.skip(2) }))
    }
}

fn classify_exec(toks: Vec<Vec<u8>>, lineno: usize) -> (r: Result<Option<Line>, SchemaError>)
    requires
        forall|j: int| 0 <= j < toks@.len() ==> toks@[j]@.len() > 0,
    ensures
        match r {
            Ok(Some(l)) => classify_line(views_of(toks@), lineno) == Ok::<_, SchemaError>(Some(l@)),
            Ok(None) => classify_line(views_of(toks@), lineno) == Ok::<Option<LineV>, SchemaError>(None),
            Err(e) => classify_line(views_of(toks@), lineno) == Err::<Option<LineV>, _>(e),
        },
{
    if toks.len() == 0 {
        return Ok(None);
    }
    let first_byte = toks[0][0];
    if first_byte == 35 {
        return Ok(None);
    }
    if first_byte == 47 {
        let name = copy_range(toks[0].as_slice(), 1, toks[0].len());
        match Directive::from_token(name.as_slice()) {
            Some(d) => {
                let mut t = toks;
                let _first = t.remove(0);
                proof {
                    assert(views_of(t@) =~= views_of(toks@).skip(1));
                }
                Ok(Some(Line::Directive(d, t)))
            },
            None => Err(SchemaError::UnknownDirective { line: lineno }),
        }
    } else if toks.len() < 2 {
        Err(SchemaError::ParseLine { line: lineno })
    } else {
        let mut t = toks;
        let name = t.remove(0);
        let field_type = t.remove(0);
        proof {
            assert(views_of(t@) =~= views_of(toks@).skip(2));
        }
        Ok(Some(Line::FieldDefinition(FieldDefinition { name, field_type, args: t })))
    }
}

/// The parse of a whole file, folding `classify_line` over its lines.
/// The views of a sequence of parsed lines.
pub open spec fn line_views(s: Seq<Line>) -> Seq<LineV> {
    s.map_values(|l: Line| l@)
}

pub open spec fn parse_lines_from(lines: Seq<Seq<u8>>, i: int, acc: Seq<LineV>) -> Result<
    Seq<LineV>,
    SchemaError,
>
    decreases lines.len() - i,
{
    if i < 0 || i >= lines.len() {
        Ok(acc)
    } else {
        match classify_line(tokenize(lines[i]), i as usize) {
            Err(e) => Err(e),
            Ok(None) => parse_lines_from(lines, i + 1, acc),
            Ok(Some(l)) => parse_lines_from(lines, i + 1, acc.push(l)),
        }
    }
}

/// The meaning of a format file: its ordered directive and field lines,
/// or the first fatal error.
pub open spec fn parse_spec(s: Seq<u8>) -> Result<Seq<LineV>, SchemaError> {
    parse_lines_from(split_lines(s), 0, seq![])
}

/// Parses a format file: comments and blank lines are skipped, `/NAME`
/// lines become directives, any other line is a field declaration.
pub fn parse_format_file(input: &[u8]) -> (r: Result<Vec<Line>, SchemaError>)
    ensures
        match r {
            Ok(v) => parse_spec(input@) == Ok::<_, SchemaError>(line_views(v@)),
            Err(e) => parse_spec(input@) == Err::<Seq<LineV>, _>(e),
        },
{
    let empty_line: Vec<u8> = Vec::new();
    proof {
        assert(empty_line@ =~= Seq::<u8>::empty());
    }
    let lines = lines_from_exec(input, 0, empty_line);
    let ghost lv = split_lines(input@);
    let mut out: Vec<Line> = Vec::new();
    proof {
        assert(line_views(out@) =~= Seq::<LineV>::empty());
    }
    let mut i: usize = 0;
    while i < lines.len()
        invariant
            i <= lines@.len(),
            lv == split_lines(input@),
            views_of(lines@) == lv,
            parse_lines_from(lv, 0, seq![]) == parse_lines_from(lv, i as int, line_views(out@)),
        decreases lines@.len() - i,
    {
        let empty_tok: Vec<u8> = Vec::new();
        proof {
            assert(empty_tok@ =~= Seq::<u8>::empty());
        }
        let toks = toks_from_exec(lines[i].as_slice(), 0, empty_tok);
        proof {
            assert(lv[i as int] == lines@[i as int]@);
            assert(views_of(toks@) == tokenize(lv[i as int]));
        }
        match classify_exec(toks, i) {
            Err(e) => {
                proof {
                    assert(parse_lines_from(lv, i as int, line_views(out@))
                        == Err::<Seq<LineV>, SchemaError>(e));
                }
                return Err(e);
            },
            Ok(None) => {},
            Ok(Some(l)) => {
                let ghost prev = line_views(out@);
                out.push(l);
                proof {
                    assert(line_views(out@) =~= prev.push(l@));
                }
            },
        }
        i += 1;
    }
    Ok(out)
}

} // verus!
