use crate::asset::{AssetTag, AssetValue};
use crate::error::{Error, Status};
use crate::formats::Format;
use crate::strutil::{
    chars_to_string, dec_value, find_char, fmt_dec_usize, lemma_find_char, parse_dec_usize,
    str_to_chars, subvec, udec, valid_dec_usize,
};
use vstd::prelude::*;
use vstd::string::StringExecFns;
use vstd::utf8::{decode_utf8, valid_utf8};

verus! {

/// A point with three coordinates, each kept as the numeric literal that was
/// parsed — validated against the grammar's coordinate form — so that a
/// caller may convert it to any float width.
#[derive(Clone, PartialEq, Eq, Debug)]
pub struct Point3 {
    pub x: String,
    pub y: String,
    pub z: String,
}

/// A point with two coordinates, kept as validated numeric literals.
#[derive(Clone, PartialEq, Eq, Debug)]
pub struct Point2 {
    pub x: String,
    pub y: String,
}

/// A mesh: its vertices, and the normals and texture coordinates its faces
/// reference, gathered in face order.
#[derive(Clone, PartialEq, Eq, Debug)]
pub struct Mesh {
    pub verts: Vec<Point3>,
    pub normals: Vec<Point3>,
    pub uvs: Vec<Point2>,
}

impl Mesh {
    pub fn empty() -> (m: Mesh)
        ensures
            m.verts@.len() == 0,
            m.normals@.len() == 0,
            m.uvs@.len() == 0,
    {
        Mesh { verts: Vec::new(), normals: Vec::new(), uvs: Vec::new() }
    }
}

/// A scene: named meshes in the order they were closed out.
#[derive(Clone, PartialEq, Eq, Debug)]
pub struct Scene {
    pub nodes: Vec<(Mesh, String)>,
}

/// A condition worth reporting that does not stop parsing. The parser returns
/// these beside the scene; callers decide whether to log them.
#[derive(Clone, Copy, PartialEq, Eq, Structural, Debug)]
pub enum Warning {
    /// An object's face-index count is not a multiple of three.
    BadIndexCount { found: usize },
    /// An object has more vertices than normals.
    MissingNormals { verts: usize, normals: usize },
    /// An object has more vertices than texture coordinates.
    MissingUvs { verts: usize, uvs: usize },
    /// A line whose first word is not a recognized command.
    UnknownCommand { line: usize },
}

// ------------------------------------------------------------------
// The mathematical model of the mesh-description grammar.
// ------------------------------------------------------------------

pub type Point3V = (Seq<char>, Seq<char>, Seq<char>);

pub type Point2V = (Seq<char>, Seq<char>);

/// A face entry: a 1-based vertex index with optional uv and normal indices.
pub type FaceIdx = (usize, Option<usize>, Option<usize>);

#[verifier::ext_equal]
pub struct MeshV {
    pub verts: Seq<Point3V>,
    pub normals: Seq<Point3V>,
    pub uvs: Seq<Point2V>,
}

pub open spec fn point3_v(p: Point3) -> Point3V {
    (p.x@, p.y@, p.z@)
}

pub open spec fn point2_v(p: Point2) -> Point2V {
    (p.x@, p.y@)
}

pub open spec fn mesh_v(m: Mesh) -> MeshV {
    MeshV {
        verts: m.verts@.map_values(|p: Point3| point3_v(p)),
        normals: m.normals@.map_values(|p: Point3| point3_v(p)),
        uvs: m.uvs@.map_values(|p: Point2| point2_v(p)),
    }
}

pub open spec fn scene_v(s: Scene) -> Seq<(MeshV, Seq<char>)> {
    s.nodes@.map_values(|n: (Mesh, String)| (mesh_v(n.0), n.1@))
}

/// The characters that separate words within a line.
pub open spec fn is_ws(c: char) -> bool {
    c == ' ' || c == '\t' || c == '\r' || c == '\u{000b}' || c == '\u{000c}'
}

/// Index of the first separator in `s`, or its length when none occurs.
pub open spec fn find_ws(s: Seq<char>) -> int
    decreases s.len(),
{
    if s.len() == 0 {
        0
    } else if is_ws(s[0]) {
        0
    } else {
        1 + find_ws(s.drop_first())
    }
}

pub proof fn lemma_find_ws(s: Seq<char>)
    ensures
        0 <= find_ws(s) <= s.len(),
        forall|j: int| 0 <= j < find_ws(s) ==> !is_ws(#[trigger] s[j]),
        find_ws(s) < s.len() ==> is_ws(s[find_ws(s)]),
    decreases s.len(),
{
    if s.len() > 0 && !is_ws(s[0]) {
        let rest = s.drop_first();
        lemma_find_ws(rest);
        assert forall|j: int| 0 <= j < find_ws(s) implies !is_ws(#[trigger] s[j]) by {
            if j >= 1 {
                assert(s[j] == rest[j - 1]);
                assert(!is_ws(rest[j - 1]));
            }
        }
        if find_ws(s) < s.len() {
            assert(s[find_ws(s)] == rest[find_ws(rest)]);
        }
    }
}

/// The words of a line: maximal runs of non-separator characters.
pub open spec fn tokens_of(s: Seq<char>) -> Seq<Seq<char>>
    decreases s.len(),
    via tokens_of_decreases
{
    if s.len() == 0 {
        Seq::<Seq<char>>::empty()
    } else if is_ws(s[0]) {
        tokens_of(s.drop_first())
    } else {
        seq![s.take(find_ws(s))] + tokens_of(s.skip(find_ws(s)))
    }
}

/// The lines of a text: split on `\n`, a trailing `\r` stripped from each
/// terminated line, and no phantom line after a final `\n`.
pub open spec fn strip_cr(s: Seq<char>) -> Seq<char> {
    if s.len() > 0 && s.last() == '\r' {
        s.drop_last()
    } else {
        s
    }
}

#[via_fn]
proof fn tokens_of_decreases(s: Seq<char>) {
    if s.len() > 0 && !is_ws(s[0]) {
        lemma_find_ws(s);
        assert(find_ws(s) >= 1);
    }
}

pub open spec fn lines_of(s: Seq<char>) -> Seq<Seq<char>>
    decreases s.len(),
    via lines_of_decreases
{
    if s.len() == 0 {
        Seq::<Seq<char>>::empty()
    } else {
        match find_char(s, '\n') {
            None => seq![s],
            Some(k) => seq![strip_cr(s.take(k))] + lines_of(s.skip(k + 1)),
        }
    }
}

/// The parts of a face token, split on `/` with empty parts kept.
#[via_fn]
proof fn lines_of_decreases(s: Seq<char>) {
    if s.len() > 0 {
        lemma_find_char(s, '\n');
    }
}

pub open spec fn split_slash(s: Seq<char>) -> Seq<Seq<char>>
    decreases s.len(),
    via split_slash_decreases
{
    match find_char(s, '/') {
        None => seq![s],
        Some(k) => seq![s.take(k)] + split_slash(s.skip(k + 1)),
    }
}

#[via_fn]
proof fn split_slash_decreases(s: Seq<char>) {
    lemma_find_char(s, '/');
}

// ------------------------------------------------------------------
// Coordinate literals: the numeric form a `v`/`vt`/`vn` word must have.
// ------------------------------------------------------------------

pub open spec fn all_dec(s: Seq<char>) -> bool {
    forall|j: int| 0 <= j < s.len() ==> crate::strutil::is_dec_digit(#[trigger] s[j])
}

/// Index of the first exponent marker (`e` or `E`), if any.
pub open spec fn find_exp(s: Seq<char>) -> Option<int>
    decreases s.len(),
{
    if s.len() == 0 {
        None
    } else if s[0] == 'e' || s[0] == 'E' {
        Some(0)
    } else {
        match find_exp(s.drop_first()) {
            None => None,
            Some(i) => Some(i + 1),
        }
    }
}

pub proof fn lemma_find_exp(s: Seq<char>)
    ensures
        match find_exp(s) {
            Some(i) => 0 <= i < s.len() && (s[i] == 'e' || s[i] == 'E') && (forall|j: int|
                0 <= j < i ==> s[j] != 'e' && s[j] != 'E'),
            None => forall|j: int| 0 <= j < s.len() ==> s[j] != 'e' && s[j] != 'E',
        },
    decreases s.len(),
{
    if s.len() > 0 && s[0] != 'e' && s[0] != 'E' {
        let rest = s.drop_first();
        lemma_find_exp(rest);
        match find_exp(rest) {
            Some(i) => {
                assert(s[i + 1] == rest[i]);
                assert forall|j: int| 0 <= j < i + 1 implies s[j] != 'e' && s[j] != 'E' by {
                    if j >= 1 {
                        assert(rest[j - 1] != 'e' && rest[j - 1] != 'E');
                    }
                }
            },
            None => {
                assert forall|j: int| 0 <= j < s.len() implies s[j] != 'e' && s[j] != 'E' by {
                    if j >= 1 {
                        assert(rest[j - 1] != 'e' && rest[j - 1] != 'E');
                    }
                }
            },
        }
    }
}

/// An optional sign, stripped before the digits are inspected.
pub open spec fn strip_sign(s: Seq<char>) -> Seq<char> {
    if s.len() > 0 && (s[0] == '+' || s[0] == '-') {
        s.drop_first()
    } else {
        s
    }
}

/// Digits with at most one point and at least one digit.
pub open spec fn is_mantissa(m: Seq<char>) -> bool {
    match find_char(m, '.') {
        None => m.len() > 0 && all_dec(m),
        Some(k) => {
            let a = m.take(k);
            let b = m.skip(k + 1);
            a.len() + b.len() > 0 && all_dec(a) && all_dec(b)
        },
    }
}

/// A signed run of digits.
pub open spec fn is_exp_part(e: Seq<char>) -> bool {
    strip_sign(e).len() > 0 && all_dec(strip_sign(e))
}

/// The numeric form a coordinate word must have: an optional sign, a mantissa
/// of digits with at most one point, and an optional `e`/`E` exponent with an
/// optional sign. Every such word is also a well-formed float literal for a
/// later conversion.
pub open spec fn is_coord(t: Seq<char>) -> bool {
    let u = strip_sign(t);
    match find_exp(u) {
        None => is_mantissa(u),
        Some(k) => is_mantissa(u.take(k)) && is_exp_part(u.skip(k + 1)),
    }
}

/// A modelled failure: its category and its exact diagnostic text.
#[verifier::ext_equal]
pub struct ObjErr {
    pub status: Status,
    pub msg: Seq<char>,
}

/// A malformed coordinate word, named with its 1-based line.
pub open spec fn coord_msg(line: usize, tok: Seq<char>) -> Seq<char> {
    "parsing coordinate on line "@ + udec(line as int) + ": '"@ + tok + "'"@
}

/// A face word whose part is not a numeral, named with its 1-based line.
pub open spec fn face_num_msg(line: usize, tok: Seq<char>) -> Seq<char> {
    "parsing face index on line "@ + udec(line as int) + ": '"@ + tok + "'"@
}

/// A face word whose leading vertex part is missing.
pub open spec fn face_missing_msg(line: usize, tok: Seq<char>) -> Seq<char> {
    "missing geometry index on line "@ + udec(line as int) + ": '"@ + tok + "'"@
}

/// A face word with more than three parts.
pub open spec fn face_form_msg(line: usize, tok: Seq<char>) -> Seq<char> {
    "unrecognized face index format on line "@ + udec(line as int) + ": '"@ + tok + "'"@
}

/// An out-of-range index, named together with the largest valid value.
pub open spec fn range_msg(kind: Seq<char>, idx: usize, max: int) -> Seq<char> {
    "face "@ + kind + " index "@ + udec(idx as int) + " out of range, max value is "@ + udec(max)
}

/// Reads one face token: `v`, `v/uv`, `v/uv/n`, with the uv and normal parts
/// possibly empty. The vertex part must be a decimal numeral; a missing
/// vertex part, a malformed or oversized numeral, or more than three parts
/// is malformed input, reported with the 1-based line and the word.
pub open spec fn face_entry(t: Seq<char>, line: usize) -> Result<FaceIdx, ObjErr> {
    let parts = split_slash(t);
    if parts.len() > 3 {
        Err(ObjErr { status: Status::InvalidArgument, msg: face_form_msg(line, t) })
    } else if parts[0].len() == 0 {
        Err(ObjErr { status: Status::InvalidArgument, msg: face_missing_msg(line, t) })
    } else if !valid_dec_usize(parts[0]) {
        Err(ObjErr { status: Status::InvalidArgument, msg: face_num_msg(line, t) })
    } else if parts.len() >= 2 && parts[1].len() > 0 && !valid_dec_usize(parts[1]) {
        Err(ObjErr { status: Status::InvalidArgument, msg: face_num_msg(line, t) })
    } else if parts.len() == 3 && parts[2].len() > 0 && !valid_dec_usize(parts[2]) {
        Err(ObjErr { status: Status::InvalidArgument, msg: face_num_msg(line, t) })
    } else {
        Ok(
            (
                dec_value(parts[0]) as usize,
                if parts.len() >= 2 && parts[1].len() > 0 {
                    Some(dec_value(parts[1]) as usize)
                } else {
                    None
                },
                if parts.len() == 3 && parts[2].len() > 0 {
                    Some(dec_value(parts[2]) as usize)
                } else {
                    None
                },
            ),
        )
    }
}

/// Assembles a mesh from gathered geometry and face entries, in entry order:
/// each entry appends its vertex and, when present, its normal and uv. Any
/// index of zero or beyond the gathered arrays is out of range, reported with
/// the index and the largest valid value.
pub open spec fn mesh_of(
    verts: Seq<Point3V>,
    normals: Seq<Point3V>,
    uvs: Seq<Point2V>,
    idx: Seq<FaceIdx>,
) -> Result<MeshV, ObjErr>
    decreases idx.len(),
{
    if idx.len() == 0 {
        Ok(MeshV { verts: Seq::empty(), normals: Seq::empty(), uvs: Seq::empty() })
    } else {
        match mesh_of(verts, normals, uvs, idx.drop_last()) {
            Err(s) => Err(s),
            Ok(m) => {
                let (v, uv, nm) = idx.last();
                let nm_ok = match nm {
                    Some(k) => 1 <= k <= normals.len(),
                    None => true,
                };
                let uv_ok = match uv {
                    Some(k) => 1 <= k <= uvs.len(),
                    None => true,
                };
                if !(1 <= v <= verts.len()) {
                    Err(
                        ObjErr {
                            status: Status::OutOfRange,
                            msg: range_msg("vertex"@, v, verts.len() as int),
                        },
                    )
                } else if !nm_ok {
                    Err(
                        ObjErr {
                            status: Status::OutOfRange,
                            msg: range_msg(
                                "normal"@,
                                match nm {
                                    Some(k) => k,
                                    None => 0,
                                },
                                normals.len() as int,
                            ),
                        },
                    )
                } else if !uv_ok {
                    Err(
                        ObjErr {
                            status: Status::OutOfRange,
                            msg: range_msg(
                                "uv"@,
                                match uv {
                                    Some(k) => k,
                                    None => 0,
                                },
                                uvs.len() as int,
                            ),
                        },
                    )
                } else {
                    Ok(
                        MeshV {
                            verts: m.verts.push(verts[v - 1]),
                            normals: match nm {
                                Some(k) => m.normals.push(normals[k - 1]),
                                None => m.normals,
                            },
                            uvs: match uv {
                                Some(k) => m.uvs.push(uvs[k - 1]),
                                None => m.uvs,
                            },
                        },
                    )
                }
            },
        }
    }
}

/// The parser's state between lines.
#[verifier::ext_equal]
pub struct ObjSt {
    pub verts: Seq<Point3V>,
    pub normals: Seq<Point3V>,
    pub uvs: Seq<Point2V>,
    pub indices: Seq<FaceIdx>,
    pub nodes: Seq<(MeshV, Seq<char>)>,
    pub cur: Option<Seq<char>>,
    pub warnings: Seq<Warning>,
}

pub open spec fn init_st() -> ObjSt {
    ObjSt {
        verts: Seq::empty(),
        normals: Seq::empty(),
        uvs: Seq::empty(),
        indices: Seq::empty(),
        nodes: Seq::empty(),
        cur: None,
        warnings: Seq::empty(),
    }
}

/// The validation warnings emitted when an object is closed out.
pub open spec fn close_warnings(st: ObjSt) -> Seq<Warning> {
    (if st.indices.len() % 3 != 0 {
        seq![Warning::BadIndexCount { found: st.indices.len() as usize }]
    } else {
        Seq::<Warning>::empty()
    }) + (if st.verts.len() > st.normals.len() {
        seq![
            Warning::MissingNormals {
                verts: st.verts.len() as usize,
                normals: st.normals.len() as usize,
            },
        ]
    } else {
        Seq::<Warning>::empty()
    }) + (if st.verts.len() > st.uvs.len() {
        seq![Warning::MissingUvs { verts: st.verts.len() as usize, uvs: st.uvs.len() as usize }]
    } else {
        Seq::<Warning>::empty()
    })
}

/// A malformed word among the coordinates of a line, if any: the leftmost
/// word that does not have the numeric form.
pub open spec fn bad_coord(toks: Seq<Seq<char>>, from: int, to: int) -> Option<Seq<char>>
    decreases to - from,
{
    if from >= to {
        None
    } else if !is_coord(toks[from]) {
        Some(toks[from])
    } else {
        bad_coord(toks, from + 1, to)
    }
}

/// One line of the grammar: `#` comments, `v`/`vt`/`vn` gather geometry after
/// validating each coordinate word, `o` closes the pending object (validating
/// it) and names the next, `f` gathers three face entries, and anything else
/// is an unknown command, warned about and skipped.
pub open spec fn obj_step(st: ObjSt, toks: Seq<Seq<char>>, line: usize) -> Result<ObjSt, ObjErr> {
    if toks.len() == 0 {
        Ok(ObjSt { warnings: st.warnings.push(Warning::UnknownCommand { line }), ..st })
    } else if toks[0] == seq!['#'] {
        Ok(st)
    } else if toks[0] == seq!['v'] && toks.len() == 4 {
        match bad_coord(toks, 1, 4) {
            Some(tok) => Err(ObjErr { status: Status::InvalidArgument, msg: coord_msg(line, tok) }),
            None => Ok(ObjSt { verts: st.verts.push((toks[1], toks[2], toks[3])), ..st }),
        }
    } else if toks[0] == seq!['v', 't'] && toks.len() == 3 {
        match bad_coord(toks, 1, 3) {
            Some(tok) => Err(ObjErr { status: Status::InvalidArgument, msg: coord_msg(line, tok) }),
            None => Ok(ObjSt { uvs: st.uvs.push((toks[1], toks[2])), ..st }),
        }
    } else if toks[0] == seq!['v', 'n'] && toks.len() == 4 {
        match bad_coord(toks, 1, 4) {
            Some(tok) => Err(ObjErr { status: Status::InvalidArgument, msg: coord_msg(line, tok) }),
            None => Ok(ObjSt { normals: st.normals.push((toks[1], toks[2], toks[3])), ..st }),
        }
    } else if toks[0] == seq!['o'] && toks.len() == 2 {
        match st.cur {
            None => Ok(ObjSt { cur: Some(toks[1]), ..st }),
            Some(prev) => match mesh_of(st.verts, st.normals, st.uvs, st.indices) {
                Err(s) => Err(s),
                Ok(m) => Ok(
                    ObjSt {
                        verts: Seq::empty(),
                        normals: Seq::empty(),
                        uvs: Seq::empty(),
                        indices: Seq::empty(),
                        nodes: st.nodes.push((m, prev)),
                        cur: Some(toks[1]),
                        warnings: st.warnings + close_warnings(st),
                    },
                ),
            },
        }
    } else if toks[0] == seq!['f'] && toks.len() == 4 {
        match face_entry(toks[1], line) {
            Err(s) => Err(s),
            Ok(e1) => match face_entry(toks[2], line) {
                Err(s) => Err(s),
                Ok(e2) => match face_entry(toks[3], line) {
                    Err(s) => Err(s),
                    Ok(e3) => Ok(
                        ObjSt { indices: st.indices.push(e1).push(e2).push(e3), ..st },
                    ),
                },
            },
        }
    } else {
        Ok(ObjSt { warnings: st.warnings.push(Warning::UnknownCommand { line }), ..st })
    }
}

/// The state after the first `n` lines, each numbered from one.
pub open spec fn obj_fold(lines: Seq<Seq<char>>) -> Result<ObjSt, ObjErr>
    decreases lines.len(),
{
    if lines.len() == 0 {
        Ok(init_st())
    } else {
        match obj_fold(lines.drop_last()) {
            Err(s) => Err(s),
            Ok(st) => obj_step(st, tokens_of(lines.last()), lines.len() as usize),
        }
    }
}

/// The final close: trailing geometry becomes one last mesh, validated and
/// named by the pending `o` name, or `<anonymous>` when none is pending.
pub open spec fn finish_spec(st: ObjSt) -> Result<
    (Seq<(MeshV, Seq<char>)>, Seq<Warning>),
    ObjErr,
> {
    match mesh_of(st.verts, st.normals, st.uvs, st.indices) {
        Err(s) => Err(s),
        Ok(m) => {
            let name = match st.cur {
                Some(n) => n,
                None => "<anonymous>"@,
            };
            Ok((st.nodes.push((m, name)), st.warnings + close_warnings(st)))
        },
    }
}

/// What parsing a whole text yields: the scene's meshes with their names, and
/// the warnings, or the first error.
pub open spec fn obj_spec(text: Seq<char>) -> Result<
    (Seq<(MeshV, Seq<char>)>, Seq<Warning>),
    ObjErr,
> {
    match obj_fold(lines_of(text)) {
        Err(s) => Err(s),
        Ok(st) => finish_spec(st),
    }
}

// ------------------------------------------------------------------
// The executable parser, proved equal to the model.
// ------------------------------------------------------------------

fn is_ws_exec(c: char) -> (r: bool)
    ensures
        r == is_ws(c),
{
    c == ' ' || c == '\t' || c == '\r' || c == '\u{000b}' || c == '\u{000c}'
}

/// Splits a line into its words.
fn tokenize(line: &Vec<char>) -> (r: Vec<Vec<char>>)
    ensures
        r.deep_view() == tokens_of(line@),
{
    let mut r: Vec<Vec<char>> = Vec::new();
    let mut i: usize = 0;
    proof {
        assert(line@.skip(0) =~= line@);
        assert(r.deep_view() + tokens_of(line@) =~~= tokens_of(line@));
    }
    while i < line.len()
        invariant
            i <= line.len(),
            tokens_of(line@) == r.deep_view() + tokens_of(line@.skip(i as int)),
        decreases line.len() - i,
    {
        if is_ws_exec(line[i]) {
            i = i + 1;
            proof {
                assert(line@.skip(i as int - 1).drop_first() =~= line@.skip(i as int));
            }
        } else {
            let start = i;
            while i < line.len() && !is_ws_exec(line[i])
                invariant
                    start <= i <= line.len(),
                    forall|k: int| start <= k < i ==> !is_ws(#[trigger] line@[k]),
                decreases line.len() - i,
            {
                i = i + 1;
            }
            let tok = subvec(line, start, i);
            proof {
                let s = line@.skip(start as int);
                lemma_find_ws(s);
                assert forall|k: int| 0 <= k < i - start implies !is_ws(#[trigger] s[k]) by {
                    assert(s[k] == line@[start + k]);
                }
                if i < line.len() {
                    assert(s[i - start] == line@[i as int]);
                    assert(is_ws(s[i - start]));
                    if find_ws(s) < i - start {
                        assert(!is_ws(s[find_ws(s)]));
                        assert(is_ws(s[find_ws(s)]));
                    }
                    assert(find_ws(s) == i - start);
                } else {
                    assert(i - start == s.len());
                    if find_ws(s) < s.len() {
                        assert(!is_ws(s[find_ws(s)]));
                        assert(is_ws(s[find_ws(s)]));
                    }
                    assert(find_ws(s) == i - start);
                }
                assert(!is_ws(s[0]));
                assert(tokens_of(s) == seq![s.take(find_ws(s))] + tokens_of(
                    s.skip(find_ws(s)),
                ));
                assert(tok@ =~= s.take(find_ws(s)));
                assert(s.skip(find_ws(s)) =~= line@.skip(i as int));
            }
            let ghost old_dv = r.deep_view();
            r.push(tok);
            proof {
                assert(r.deep_view() =~~= old_dv.push(tok@));
                assert(r.deep_view() + tokens_of(line@.skip(i as int)) =~~= old_dv + (seq![tok@]
                    + tokens_of(line@.skip(i as int))));
            }
        }
    }
    proof {
        assert(line@.skip(line@.len() as int) =~= Seq::<char>::empty());
        assert(r.deep_view() + Seq::<Seq<char>>::empty() =~~= r.deep_view());
    }
    r
}

/// Splits a text into its lines.
fn split_lines(cs: &Vec<char>) -> (r: Vec<Vec<char>>)
    ensures
        r.deep_view() == lines_of(cs@),
{
    let mut r: Vec<Vec<char>> = Vec::new();
    let mut pos: usize = 0;
    proof {
        assert(cs@.skip(0) =~= cs@);
        assert(r.deep_view() + lines_of(cs@) =~~= lines_of(cs@));
    }
    while pos < cs.len()
        invariant
            pos <= cs.len(),
            lines_of(cs@) == r.deep_view() + lines_of(cs@.skip(pos as int)),
        decreases cs.len() - pos,
    {
        let rest = subvec(cs, pos, cs.len());
        proof {
            assert(rest@ =~= cs@.skip(pos as int));
        }
        let ghost old_dv = r.deep_view();
        match crate::strutil::scan_char(&rest, '\n') {
            None => {
                proof {
                    assert(lines_of(rest@) == seq![rest@]);
                }
                let ghost rv = rest@;
                r.push(rest);
                pos = cs.len();
                proof {
                    assert(r.deep_view() =~~= old_dv.push(rv));
                    assert(cs@.skip(cs@.len() as int) =~= Seq::<char>::empty());
                    assert(r.deep_view() + lines_of(cs@.skip(pos as int)) =~~= old_dv + seq![rv]);
                }
            },
            Some(k) => {
                proof {
                    lemma_find_char(rest@, '\n');
                }
                let mut line = subvec(&rest, 0, k);
                proof {
                    assert(line@ =~= rest@.take(k as int));
                }
                if line.len() > 0 && line[line.len() - 1] == '\r' {
                    line.pop();
                    proof {
                        assert(line@ =~= strip_cr(rest@.take(k as int)));
                    }
                }
                proof {
                    assert(line@ =~= strip_cr(rest@.take(k as int)));
                }
                let ghost lv2 = line@;
                r.push(line);
                pos = pos + k + 1;
                proof {
                    assert(r.deep_view() =~~= old_dv.push(lv2));
                    assert(rest@.skip(k as int + 1) =~= cs@.skip(pos as int));
                    assert(lines_of(rest@) == seq![strip_cr(rest@.take(k as int))] + lines_of(
                        cs@.skip(pos as int),
                    ));
                    assert(r.deep_view() + lines_of(cs@.skip(pos as int)) =~~= old_dv + lines_of(
                        rest@,
                    ));
                }
            },
        }
    }
    proof {
        assert(cs@.skip(cs@.len() as int) =~= Seq::<char>::empty());
        assert(r.deep_view() + Seq::<Seq<char>>::empty() =~~= r.deep_view());
    }
    r
}

/// A face token always splits into at least one part.
proof fn lemma_split_slash_len(s: Seq<char>)
    ensures
        split_slash(s).len() >= 1,
{
}

/// Splits a face token on `/`.
fn split_slash_exec(t: &Vec<char>) -> (r: Vec<Vec<char>>)
    ensures
        r.deep_view() == split_slash(t@),
{
    let mut r: Vec<Vec<char>> = Vec::new();
    let mut pos: usize = 0;
    let ghost whole = t@;
    proof {
        assert(t@.skip(0) =~= t@);
        assert(r.deep_view() + split_slash(t@) =~~= split_slash(t@));
    }
    loop
        invariant
            pos <= t@.len(),
            whole == t@,
            split_slash(whole) == r.deep_view() + split_slash(t@.skip(pos as int)),
        decreases t@.len() - pos,
    {
        let rest = subvec(t, pos, t.len());
        proof {
            assert(rest@ =~= t@.skip(pos as int));
        }
        let ghost old_dv = r.deep_view();
        match crate::strutil::scan_char(&rest, '/') {
            None => {
                proof {
                    assert(split_slash(rest@) == seq![rest@]);
                }
                let ghost rv = rest@;
                r.push(rest);
                proof {
                    assert(r.deep_view() =~~= old_dv.push(rv));
                    assert(old_dv + seq![rv] =~~= r.deep_view());
                    assert(split_slash(whole) =~~= r.deep_view());
                }
                return r;
            },
            Some(k) => {
                proof {
                    lemma_find_char(rest@, '/');
                }
                let part = subvec(&rest, 0, k);
                proof {
                    assert(part@ =~= rest@.take(k as int));
                }
                let ghost pv = part@;
                r.push(part);
                pos = pos + k + 1;
                proof {
                    assert(r.deep_view() =~~= old_dv.push(pv));
                    assert(rest@.skip(k as int + 1) =~= t@.skip(pos as int));
                    assert(split_slash(rest@) == seq![rest@.take(k as int)] + split_slash(
                        t@.skip(pos as int),
                    ));
                    assert(r.deep_view() + split_slash(t@.skip(pos as int)) =~~= old_dv
                        + split_slash(rest@));
                }
            },
        }
    }
}

/// Builds a diagnostic of the form `{prefix}{line}: '{word}'`.
fn msg_line_tok(prefix: &str, line: usize, tok: &Vec<char>) -> (s: String)
    ensures
        s@ == prefix@ + udec(line as int) + ": '"@ + tok@ + "'"@,
{
    let mut m = str_to_chars(prefix);
    let mut d = fmt_dec_usize(line);
    m.append(&mut d);
    let mut mid = str_to_chars(": '");
    m.append(&mut mid);
    let mut t2 = subvec(tok, 0, tok.len());
    proof {
        assert(t2@ =~= tok@);
    }
    m.append(&mut t2);
    let mut q = str_to_chars("'");
    m.append(&mut q);
    chars_to_string(&m)
}

/// Builds a diagnostic of the form `face {kind} index {idx} out of range, max
/// value is {max}`.
fn msg_range(kind: &str, idx: usize, max_len: usize) -> (s: String)
    ensures
        s@ == range_msg(kind@, idx, max_len as int),
{
    let mut m = str_to_chars("face ");
    let mut k = str_to_chars(kind);
    m.append(&mut k);
    let mut m2 = str_to_chars(" index ");
    m.append(&mut m2);
    let mut d = fmt_dec_usize(idx);
    m.append(&mut d);
    let mut m3 = str_to_chars(" out of range, max value is ");
    m.append(&mut m3);
    let mut d2 = fmt_dec_usize(max_len);
    m.append(&mut d2);
    chars_to_string(&m)
}

fn all_dec_exec(t: &Vec<char>) -> (r: bool)
    ensures
        r == all_dec(t@),
{
    let mut i: usize = 0;
    while i < t.len()
        invariant
            i <= t.len(),
            forall|j: int| 0 <= j < i ==> crate::strutil::is_dec_digit(#[trigger] t@[j]),
        decreases t.len() - i,
    {
        let c = t[i];
        if !('0' <= c && c <= '9') {
            return false;
        }
        i = i + 1;
    }
    true
}

/// Scans for the first exponent marker.
fn scan_exp(t: &Vec<char>) -> (r: Option<usize>)
    ensures
        match r {
            Some(i) => find_exp(t@) == Some(i as int),
            None => find_exp(t@) == None::<int>,
        },
{
    let mut i: usize = 0;
    while i < t.len()
        invariant
            i <= t.len(),
            forall|j: int| 0 <= j < i ==> t@[j] != 'e' && t@[j] != 'E',
        decreases t.len() - i,
    {
        let c = t[i];
        if c == 'e' || c == 'E' {
            proof {
                lemma_find_exp(t@);
                match find_exp(t@) {
                    Some(k) => {
                        if k < i as int {
                            assert(t@[k] != 'e' && t@[k] != 'E');
                        } else if k > i as int {
                            assert(t@[i as int] != 'e' && t@[i as int] != 'E');
                        }
                    },
                    None => {
                        assert(t@[i as int] != 'e' && t@[i as int] != 'E');
                    },
                }
            }
            return Some(i);
        }
        i = i + 1;
    }
    proof {
        lemma_find_exp(t@);
        if let Some(k) = find_exp(t@) {
            assert(t@[k] != 'e' && t@[k] != 'E');
        }
    }
    None
}

fn strip_sign_exec(t: &Vec<char>) -> (r: Vec<char>)
    ensures
        r@ == strip_sign(t@),
{
    if t.len() > 0 && (t[0] == '+' || t[0] == '-') {
        let r = subvec(t, 1, t.len());
        proof {
            assert(r@ =~= t@.drop_first());
        }
        r
    } else {
        let r = subvec(t, 0, t.len());
        proof {
            assert(r@ =~= t@);
        }
        r
    }
}

fn is_mantissa_exec(m: &Vec<char>) -> (r: bool)
    ensures
        r == is_mantissa(m@),
{
    match crate::strutil::scan_char(m, '.') {
        None => m.len() > 0 && all_dec_exec(m),
        Some(k) => {
            proof {
                lemma_find_char(m@, '.');
                assert(find_char(m@, '.') == Some(k as int));
                assert(k < m.len());
            }
            let a = subvec(m, 0, k);
            let b = subvec(m, k + 1, m.len());
            proof {
                assert(a@ =~= m@.take(k as int));
                assert(b@ =~= m@.skip(k as int + 1));
                assert(a@.len() + b@.len() < m@.len());
            }
            a.len() + b.len() > 0 && all_dec_exec(&a) && all_dec_exec(&b)
        },
    }
}

/// Checks a coordinate word against the numeric form.
fn is_coord_exec(t: &Vec<char>) -> (r: bool)
    ensures
        r == is_coord(t@),
{
    let u = strip_sign_exec(t);
    match scan_exp(&u) {
        None => is_mantissa_exec(&u),
        Some(k) => {
            proof {
                lemma_find_exp(u@);
            }
            let m = subvec(&u, 0, k);
            let e = subvec(&u, k + 1, u.len());
            proof {
                assert(m@ =~= u@.take(k as int));
                assert(e@ =~= u@.skip(k as int + 1));
            }
            if !is_mantissa_exec(&m) {
                false
            } else {
                let d = strip_sign_exec(&e);
                d.len() > 0 && all_dec_exec(&d)
            }
        },
    }
}

/// Reads one face token.
fn face_entry_exec(t: &Vec<char>, line: usize) -> (r: Result<FaceIdx, Error>)
    ensures
        match face_entry(t@, line) {
            Ok(e) => r matches Ok(g) && g == e,
            Err(oe) => r matches Err(e) && e.status == oe.status && e.message@ == oe.msg,
        },
{
    let parts = split_slash_exec(t);
    proof {
        lemma_split_slash_len(t@);
        assert(parts@.len() == split_slash(t@).len());
        assert forall|j: int| 0 <= j < parts@.len() implies parts@[j]@ == split_slash(t@)[j] by {
            assert(parts.deep_view()[j] == parts@[j].deep_view());
        }
    }
    if parts.len() > 3 {
        return Err(
            Error::new(
                Status::InvalidArgument,
                msg_line_tok("unrecognized face index format on line ", line, t),
            ),
        );
    }
    if parts[0].len() == 0 {
        return Err(
            Error::new(
                Status::InvalidArgument,
                msg_line_tok("missing geometry index on line ", line, t),
            ),
        );
    }
    let v = match parse_dec_usize(&parts[0]) {
        Some(v) => v,
        None => {
            return Err(
                Error::new(
                    Status::InvalidArgument,
                    msg_line_tok("parsing face index on line ", line, t),
                ),
            );
        },
    };
    let uv: Option<usize> = if parts.len() >= 2 && parts[1].len() > 0 {
        match parse_dec_usize(&parts[1]) {
            Some(u) => Some(u),
            None => {
                return Err(
                    Error::new(
                        Status::InvalidArgument,
                        msg_line_tok("parsing face index on line ", line, t),
                    ),
                );
            },
        }
    } else {
        None
    };
    let nm: Option<usize> = if parts.len() == 3 && parts[2].len() > 0 {
        match parse_dec_usize(&parts[2]) {
            Some(u) => Some(u),
            None => {
                return Err(
                    Error::new(
                        Status::InvalidArgument,
                        msg_line_tok("parsing face index on line ", line, t),
                    ),
                );
            },
        }
    } else {
        None
    };
    Ok((v, uv, nm))
}

fn point3_dup(p: &Point3) -> (r: Point3)
    ensures
        point3_v(r) == point3_v(*p),
{
    Point3 { x: p.x.clone(), y: p.y.clone(), z: p.z.clone() }
}

fn point2_dup(p: &Point2) -> (r: Point2)
    ensures
        point2_v(r) == point2_v(*p),
{
    Point2 { x: p.x.clone(), y: p.y.clone() }
}

/// A failing prefix fails the whole assembly, with the same error.
proof fn lemma_mesh_of_err(
    gv: Seq<Point3V>,
    gn: Seq<Point3V>,
    gu: Seq<Point2V>,
    idx: Seq<FaceIdx>,
    j: int,
)
    requires
        0 <= j <= idx.len(),
        mesh_of(gv, gn, gu, idx.take(j)) is Err,
    ensures
        mesh_of(gv, gn, gu, idx) == mesh_of(gv, gn, gu, idx.take(j)),
    decreases idx.len() - j,
{
    if j < idx.len() {
        assert(idx.take(j + 1).drop_last() =~= idx.take(j));
        assert(mesh_of(gv, gn, gu, idx.take(j + 1)) == mesh_of(gv, gn, gu, idx.take(j)));
        lemma_mesh_of_err(gv, gn, gu, idx, j + 1);
    } else {
        assert(idx.take(j) =~= idx);
    }
}

/// Assembles a mesh from the gathered geometry and face entries.
fn build_mesh(
    verts: &Vec<Point3>,
    normals: &Vec<Point3>,
    uvs: &Vec<Point2>,
    indices: &Vec<FaceIdx>,
) -> (r: Result<Mesh, Error>)
    ensures
        match mesh_of(
            verts@.map_values(|p: Point3| point3_v(p)),
            normals@.map_values(|p: Point3| point3_v(p)),
            uvs@.map_values(|p: Point2| point2_v(p)),
            indices@,
        ) {
            Ok(mv) => r matches Ok(m) && mesh_v(m) == mv,
            Err(oe) => r matches Err(e) && e.status == oe.status && e.message@ == oe.msg,
        },
{
    let ghost gv = verts@.map_values(|p: Point3| point3_v(p));
    let ghost gn = normals@.map_values(|p: Point3| point3_v(p));
    let ghost gu = uvs@.map_values(|p: Point2| point2_v(p));
    let mut m = Mesh::empty();
    let mut i: usize = 0;
    proof {
        assert(mesh_v(m) =~= MeshV {
            verts: Seq::empty(),
            normals: Seq::empty(),
            uvs: Seq::empty(),
        });
        assert(indices@.take(0) =~= Seq::<FaceIdx>::empty());
    }
    while i < indices.len()
        invariant
            i <= indices.len(),
            gv == verts@.map_values(|p: Point3| point3_v(p)),
            gn == normals@.map_values(|p: Point3| point3_v(p)),
            gu == uvs@.map_values(|p: Point2| point2_v(p)),
            mesh_of(gv, gn, gu, indices@.take(i as int)) == Ok::<MeshV, ObjErr>(mesh_v(m)),
        decreases indices.len() - i,
    {
        let (v, uv, nm) = indices[i];
        proof {
            assert(indices@.take(i as int + 1).drop_last() =~= indices@.take(i as int));
            assert(indices@.take(i as int + 1).last() == indices@[i as int]);
        }
        if v < 1 || v > verts.len() {
            proof {
                assert(mesh_of(gv, gn, gu, indices@.take(i as int + 1)) matches Err(oe)
                    && oe.status == Status::OutOfRange && oe.msg == range_msg(
                    "vertex"@,
                    v,
                    gv.len() as int,
                ));
                lemma_mesh_of_err(gv, gn, gu, indices@, i as int + 1);
            }
            return Err(Error::new(Status::OutOfRange, msg_range("vertex", v, verts.len())));
        }
        let nm_ok = match nm {
            Some(k) => 1 <= k && k <= normals.len(),
            None => true,
        };
        let uv_ok = match uv {
            Some(k) => 1 <= k && k <= uvs.len(),
            None => true,
        };
        if !nm_ok {
            let bad = match nm {
                Some(k) => k,
                None => 0,
            };
            proof {
                assert(mesh_of(gv, gn, gu, indices@.take(i as int + 1)) matches Err(oe)
                    && oe.status == Status::OutOfRange && oe.msg == range_msg(
                    "normal"@,
                    bad,
                    gn.len() as int,
                ));
                lemma_mesh_of_err(gv, gn, gu, indices@, i as int + 1);
            }
            return Err(Error::new(Status::OutOfRange, msg_range("normal", bad, normals.len())));
        }
        if !uv_ok {
            let bad = match uv {
                Some(k) => k,
                None => 0,
            };
            proof {
                assert(mesh_of(gv, gn, gu, indices@.take(i as int + 1)) matches Err(oe)
                    && oe.status == Status::OutOfRange && oe.msg == range_msg(
                    "uv"@,
                    bad,
                    gu.len() as int,
                ));
                lemma_mesh_of_err(gv, gn, gu, indices@, i as int + 1);
            }
            return Err(Error::new(Status::OutOfRange, msg_range("uv", bad, uvs.len())));
        }
        let ghost before = mesh_v(m);
        m.verts.push(point3_dup(&verts[v - 1]));
        match nm {
            Some(k) => {
                m.normals.push(point3_dup(&normals[k - 1]));
            },
            None => {},
        }
        match uv {
            Some(k) => {
                m.uvs.push(point2_dup(&uvs[k - 1]));
            },
            None => {},
        }
        i = i + 1;
        proof {
            assert(mesh_v(m).verts =~= before.verts.push(gv[v - 1]));
            assert(mesh_v(m).normals =~= (match nm {
                Some(k) => before.normals.push(gn[k as int - 1]),
                None => before.normals,
            }));
            assert(mesh_v(m).uvs =~= (match uv {
                Some(k) => before.uvs.push(gu[k as int - 1]),
                None => before.uvs,
            }));
            assert(mesh_of(gv, gn, gu, indices@.take(i as int)) =~= Ok::<MeshV, ObjErr>(
                mesh_v(m),
            ));
        }
    }
    proof {
        assert(indices@.take(indices@.len() as int) =~= indices@);
    }
    Ok(m)
}

fn cmd1(t: &Vec<char>, c: char) -> (r: bool)
    ensures
        r <==> t@ == seq![c],
{
    if t.len() == 1 && t[0] == c {
        proof {
            assert(t@ =~= seq![c]);
        }
        true
    } else {
        proof {
            if t@ == seq![c] {
                assert(t@.len() == 1);
                assert(t@[0] == c);
            }
        }
        false
    }
}

fn cmd2(t: &Vec<char>, c1: char, c2: char) -> (r: bool)
    ensures
        r <==> t@ == seq![c1, c2],
{
    if t.len() == 2 && t[0] == c1 && t[1] == c2 {
        proof {
            assert(t@ =~= seq![c1, c2]);
        }
        true
    } else {
        proof {
            if t@ == seq![c1, c2] {
                assert(t@.len() == 2);
                assert(t@[0] == c1);
                assert(t@[1] == c2);
            }
        }
        false
    }
}

/// The parser's working state, one object at a time.
struct ObjParser {
    verts: Vec<Point3>,
    normals: Vec<Point3>,
    uvs: Vec<Point2>,
    indices: Vec<FaceIdx>,
    nodes: Vec<(Mesh, String)>,
    cur: Option<String>,
    warnings: Vec<Warning>,
}

impl ObjParser {
    spec fn st(&self) -> ObjSt {
        ObjSt {
            verts: self.verts@.map_values(|p: Point3| point3_v(p)),
            normals: self.normals@.map_values(|p: Point3| point3_v(p)),
            uvs: self.uvs@.map_values(|p: Point2| point2_v(p)),
            indices: self.indices@,
            nodes: self.nodes@.map_values(|n: (Mesh, String)| (mesh_v(n.0), n.1@)),
            cur: match self.cur {
                Some(s) => Some(s@),
                None => None,
            },
            warnings: self.warnings@,
        }
    }

    fn new() -> (p: ObjParser)
        ensures
            p.st() == init_st(),
    {
        let p = ObjParser {
            verts: Vec::new(),
            normals: Vec::new(),
            uvs: Vec::new(),
            indices: Vec::new(),
            nodes: Vec::new(),
            cur: None,
            warnings: Vec::new(),
        };
        proof {
            assert(p.st() =~~= init_st());
        }
        p
    }

    /// One line of input, as the model's step function describes it.
    #[verifier::rlimit(100)]
    fn handle_line(&mut self, line: &Vec<char>, line_no: usize) -> (r: Option<Error>)
        ensures
            match obj_step(old(self).st(), tokens_of(line@), line_no) {
                Ok(st) => r is None && final(self).st() == st,
                Err(oe) => r matches Some(e) && e.status == oe.status && e.message@ == oe.msg,
            },
    {
        let ghost st0 = self.st();
        let ghost gt = tokens_of(line@);
        let toks = tokenize(line);
        proof {
            assert(toks@.len() == gt.len());
            assert forall|j: int| 0 <= j < toks@.len() implies toks@[j]@ == gt[j] by {
                assert(toks.deep_view()[j] == toks@[j].deep_view());
            }
        }
        if toks.len() == 0 {
            self.warnings.push(Warning::UnknownCommand { line: line_no });
            proof {
                assert(self.st() =~~= ObjSt {
                    warnings: st0.warnings.push(Warning::UnknownCommand { line: line_no }),
                    ..st0
                });
            }
            return None;
        }
        if cmd1(&toks[0], '#') {
            return None;
        }
        if cmd1(&toks[0], 'v') && toks.len() == 4 {
            if !is_coord_exec(&toks[1]) {
                proof {
                    assert(bad_coord(gt, 1, 4) == Some(gt[1]));
                }
                return Some(
                    Error::new(
                        Status::InvalidArgument,
                        msg_line_tok("parsing coordinate on line ", line_no, &toks[1]),
                    ),
                );
            }
            if !is_coord_exec(&toks[2]) {
                proof {
                    assert(bad_coord(gt, 2, 4) == Some(gt[2]));
                    assert(bad_coord(gt, 1, 4) == Some(gt[2]));
                }
                return Some(
                    Error::new(
                        Status::InvalidArgument,
                        msg_line_tok("parsing coordinate on line ", line_no, &toks[2]),
                    ),
                );
            }
            if !is_coord_exec(&toks[3]) {
                proof {
                    assert(bad_coord(gt, 3, 4) == Some(gt[3]));
                    assert(bad_coord(gt, 2, 4) == Some(gt[3]));
                    assert(bad_coord(gt, 1, 4) == Some(gt[3]));
                }
                return Some(
                    Error::new(
                        Status::InvalidArgument,
                        msg_line_tok("parsing coordinate on line ", line_no, &toks[3]),
                    ),
                );
            }
            proof {
                assert(bad_coord(gt, 4, 4) == None::<Seq<char>>);
                assert(bad_coord(gt, 3, 4) == None::<Seq<char>>);
                assert(bad_coord(gt, 2, 4) == None::<Seq<char>>);
                assert(bad_coord(gt, 1, 4) == None::<Seq<char>>);
            }
            let p = Point3 {
                x: chars_to_string(&toks[1]),
                y: chars_to_string(&toks[2]),
                z: chars_to_string(&toks[3]),
            };
            let ghost pv = point3_v(p);
            self.verts.push(p);
            proof {
                assert(pv == (gt[1], gt[2], gt[3]));
                assert(self.st() =~~= ObjSt { verts: st0.verts.push((gt[1], gt[2], gt[3])), ..st0 });
            }
            return None;
        }
        if cmd2(&toks[0], 'v', 't') && toks.len() == 3 {
            if !is_coord_exec(&toks[1]) {
                proof {
                    assert(bad_coord(gt, 1, 3) == Some(gt[1]));
                }
                return Some(
                    Error::new(
                        Status::InvalidArgument,
                        msg_line_tok("parsing coordinate on line ", line_no, &toks[1]),
                    ),
                );
            }
            if !is_coord_exec(&toks[2]) {
                proof {
                    assert(bad_coord(gt, 2, 3) == Some(gt[2]));
                    assert(bad_coord(gt, 1, 3) == Some(gt[2]));
                }
                return Some(
                    Error::new(
                        Status::InvalidArgument,
                        msg_line_tok("parsing coordinate on line ", line_no, &toks[2]),
                    ),
                );
            }
            proof {
                assert(bad_coord(gt, 3, 3) == None::<Seq<char>>);
                assert(bad_coord(gt, 2, 3) == None::<Seq<char>>);
                assert(bad_coord(gt, 1, 3) == None::<Seq<char>>);
            }
            let p = Point2 { x: chars_to_string(&toks[1]), y: chars_to_string(&toks[2]) };
            let ghost pv = point2_v(p);
            self.uvs.push(p);
            proof {
                assert(pv == (gt[1], gt[2]));
                assert(self.st() =~~= ObjSt { uvs: st0.uvs.push((gt[1], gt[2])), ..st0 });
            }
            return None;
        }
        if cmd2(&toks[0], 'v', 'n') && toks.len() == 4 {
            if !is_coord_exec(&toks[1]) {
                proof {
                    assert(bad_coord(gt, 1, 4) == Some(gt[1]));
                }
                return Some(
                    Error::new(
                        Status::InvalidArgument,
                        msg_line_tok("parsing coordinate on line ", line_no, &toks[1]),
                    ),
                );
            }
            if !is_coord_exec(&toks[2]) {
                proof {
                    assert(bad_coord(gt, 2, 4) == Some(gt[2]));
                    assert(bad_coord(gt, 1, 4) == Some(gt[2]));
                }
                return Some(
                    Error::new(
                        Status::InvalidArgument,
                        msg_line_tok("parsing coordinate on line ", line_no, &toks[2]),
                    ),
                );
            }
            if !is_coord_exec(&toks[3]) {
                proof {
                    assert(bad_coord(gt, 3, 4) == Some(gt[3]));
                    assert(bad_coord(gt, 2, 4) == Some(gt[3]));
                    assert(bad_coord(gt, 1, 4) == Some(gt[3]));
                }
                return Some(
                    Error::new(
                        Status::InvalidArgument,
                        msg_line_tok("parsing coordinate on line ", line_no, &toks[3]),
                    ),
                );
            }
            proof {
                assert(bad_coord(gt, 4, 4) == None::<Seq<char>>);
                assert(bad_coord(gt, 3, 4) == None::<Seq<char>>);
                assert(bad_coord(gt, 2, 4) == None::<Seq<char>>);
                assert(bad_coord(gt, 1, 4) == None::<Seq<char>>);
            }
            let p = Point3 {
                x: chars_to_string(&toks[1]),
                y: chars_to_string(&toks[2]),
                z: chars_to_string(&toks[3]),
            };
            let ghost pv = point3_v(p);
            self.normals.push(p);
            proof {
                assert(pv == (gt[1], gt[2], gt[3]));
                assert(self.st() =~~= ObjSt {
                    normals: st0.normals.push((gt[1], gt[2], gt[3])),
                    ..st0
                });
            }
            return None;
        }
        if cmd1(&toks[0], 'o') && toks.len() == 2 {
            let name = chars_to_string(&toks[1]);
            let prev: Option<String> = match &self.cur {
                Some(p) => Some(p.clone()),
                None => None,
            };
            match prev {
                None => {
                    self.cur = Some(name);
                    proof {
                        assert(self.st() =~~= ObjSt { cur: Some(gt[1]), ..st0 });
                    }
                    return None;
                },
                Some(prev_name) => {
                    let m = match build_mesh(&self.verts, &self.normals, &self.uvs, &self.indices) {
                        Ok(m) => m,
                        Err(e) => {
                            return Some(e);
                        },
                    };
                    if self.indices.len() % 3 != 0 {
                        self.warnings.push(Warning::BadIndexCount { found: self.indices.len() });
                    }
                    if self.verts.len() > self.normals.len() {
                        self.warnings.push(
                            Warning::MissingNormals {
                                verts: self.verts.len(),
                                normals: self.normals.len(),
                            },
                        );
                    }
                    if self.verts.len() > self.uvs.len() {
                        self.warnings.push(
                            Warning::MissingUvs { verts: self.verts.len(), uvs: self.uvs.len() },
                        );
                    }
                    proof {
                        assert(self.warnings@ =~= st0.warnings + close_warnings(st0));
                    }
                    self.verts = Vec::new();
                    self.normals = Vec::new();
                    self.uvs = Vec::new();
                    self.indices = Vec::new();
                    let ghost mv = mesh_v(m);
                    self.nodes.push((m, prev_name));
                    self.cur = Some(name);
                    proof {
                        assert(self.st() =~~= ObjSt {
                            verts: Seq::empty(),
                            normals: Seq::empty(),
                            uvs: Seq::empty(),
                            indices: Seq::empty(),
                            nodes: st0.nodes.push((mv, prev_name@)),
                            cur: Some(gt[1]),
                            warnings: st0.warnings + close_warnings(st0),
                        });
                    }
                    return None;
                },
            }
        }
        if cmd1(&toks[0], 'f') && toks.len() == 4 {
            let e1 = match face_entry_exec(&toks[1], line_no) {
                Ok(e) => e,
                Err(e) => {
                    return Some(e);
                },
            };
            let e2 = match face_entry_exec(&toks[2], line_no) {
                Ok(e) => e,
                Err(e) => {
                    return Some(e);
                },
            };
            let e3 = match face_entry_exec(&toks[3], line_no) {
                Ok(e) => e,
                Err(e) => {
                    return Some(e);
                },
            };
            self.indices.push(e1);
            self.indices.push(e2);
            self.indices.push(e3);
            proof {
                assert(self.st() =~~= ObjSt {
                    indices: st0.indices.push(e1).push(e2).push(e3),
                    ..st0
                });
            }
            return None;
        }
        self.warnings.push(Warning::UnknownCommand { line: line_no });
        proof {
            assert(self.st() =~~= ObjSt {
                warnings: st0.warnings.push(Warning::UnknownCommand { line: line_no }),
                ..st0
            });
        }
        None
    }
}

/// Parses a whole mesh-description text: gathers geometry and faces line by
/// line, closes an object out at each `o` line and once more at the end, and
/// reports the scene together with the validation warnings.
///
/// Fails with `InvalidArgument` on bytes that are not UTF-8 or on malformed
/// face syntax, and with `OutOfRange` on a face index beyond the gathered
/// arrays, exactly as the grammar model `obj_spec` says.
pub fn parse_obj_scene(src: &Vec<u8>) -> (r: Result<(Scene, Vec<Warning>), Error>)
    ensures
        !valid_utf8(src@) ==> (r matches Err(e) && e.status == Status::InvalidArgument
            && e.message@ == "mesh description is not valid UTF-8"@),
        valid_utf8(src@) ==> match obj_spec(decode_utf8(src@)) {
            Ok(sw) => r matches Ok(p) && scene_v(p.0) == sw.0 && p.1@ == sw.1,
            Err(oe) => r matches Err(e) && e.status == oe.status && e.message@ == oe.msg,
        },
{
    let text = match core::str::from_utf8(src.as_slice()) {
        Ok(s) => s,
        Err(_) => {
            return Err(
                Error::text(Status::InvalidArgument, "mesh description is not valid UTF-8"),
            );
        },
    };
    let cs = str_to_chars(text);
    let ghost gtext = decode_utf8(src@);
    let lines = split_lines(&cs);
    let ghost gl = lines_of(gtext);
    proof {
        assert(lines@.len() == gl.len());
        assert forall|j: int| 0 <= j < lines@.len() implies lines@[j]@ == gl[j] by {
            assert(lines.deep_view()[j] == lines@[j].deep_view());
        }
    }
    let mut p = ObjParser::new();
    let mut i: usize = 0;
    proof {
        assert(gl.take(0) =~= Seq::<Seq<char>>::empty());
    }
    while i < lines.len()
        invariant
            i <= lines.len(),
            valid_utf8(src@),
            gl == lines_of(decode_utf8(src@)),
            lines@.len() == gl.len(),
            forall|j: int| 0 <= j < lines@.len() ==> #[trigger] lines@[j]@ == gl[j],
            obj_fold(gl.take(i as int)) == Ok::<ObjSt, ObjErr>(p.st()),
        decreases lines.len() - i,
    {
        proof {
            assert(gl.take(i as int + 1).drop_last() =~= gl.take(i as int));
            assert(gl.take(i as int + 1).last() == gl[i as int]);
            assert(gl.take(i as int + 1).len() == i + 1);
        }
        match p.handle_line(&lines[i], i + 1) {
            None => {},
            Some(e) => {
                proof {
                    assert(obj_fold(gl.take(i as int + 1)) matches Err(oe) && oe.status
                        == e.status && oe.msg == e.message@);
                    lemma_obj_fold_err(gl, i as int + 1);
                }
                return Err(e);
            },
        }
        i = i + 1;
    }
    proof {
        assert(gl.take(gl.len() as int) =~= gl);
    }
    // close out the trailing geometry as the final mesh
    let m = match build_mesh(&p.verts, &p.normals, &p.uvs, &p.indices) {
        Ok(m) => m,
        Err(e) => {
            return Err(e);
        },
    };
    if p.indices.len() % 3 != 0 {
        p.warnings.push(Warning::BadIndexCount { found: p.indices.len() });
    }
    if p.verts.len() > p.normals.len() {
        p.warnings.push(
            Warning::MissingNormals { verts: p.verts.len(), normals: p.normals.len() },
        );
    }
    if p.verts.len() > p.uvs.len() {
        p.warnings.push(Warning::MissingUvs { verts: p.verts.len(), uvs: p.uvs.len() });
    }
    let name: String = match &p.cur {
        Some(n) => n.clone(),
        None => {
            let anon = str_to_chars("<anonymous>");
            chars_to_string(&anon)
        },
    };
    let ghost mv = mesh_v(m);
    let ghost nm = name@;
    let mut nodes = p.nodes;
    nodes.push((m, name));
    let scene = Scene { nodes };
    proof {
        let ghost fin = finish_spec(obj_fold(gl)->Ok_0);
        assert(scene_v(scene) =~~= fin->Ok_0.0);
        assert(p.warnings@ =~= fin->Ok_0.1);
    }
    Ok((scene, p.warnings))
}

/// The final close always contributes a mesh, so a parsed scene is never
/// empty.
pub proof fn lemma_obj_spec_nonempty(text: Seq<char>)
    requires
        obj_spec(text) is Ok,
    ensures
        obj_spec(text)->Ok_0.0.len() >= 1,
{
}

/// The mesh-description format that yields the whole scene.
pub struct ObjScene;

impl Format for ObjScene {
    type Output = Scene;

    open spec fn tag_spec() -> AssetTag {
        AssetTag::Scene
    }

    open spec fn id_spec() -> u64 {
        5
    }

    fn tag() -> (t: AssetTag)
        ensures
            t == Self::tag_spec(),
    {
        AssetTag::Scene
    }

    fn format_id() -> (r: u64)
        ensures
            r == Self::id_spec(),
    {
        5
    }

    open spec fn label_spec() -> Seq<char> {
        "ObjScene"@
    }

    fn label() -> (r: String)
        ensures
            r@ == Self::label_spec(),
    {
        String::from_str("ObjScene")
    }

    /// Exactly the grammar model's verdict, with the warnings set aside; a
    /// caller that wants them parses through `parse_obj_scene`.
    fn parse(&self, src: &Vec<u8>) -> (r: Result<Self::Output, Error>)
        ensures
            !valid_utf8(src@) ==> (r matches Err(e) && e.status == Status::InvalidArgument
                && e.message@ == "mesh description is not valid UTF-8"@),
            valid_utf8(src@) ==> match obj_spec(decode_utf8(src@)) {
                Ok(sw) => r matches Ok(s) && scene_v(s) == sw.0,
                Err(oe) => r matches Err(e) && e.status == oe.status && e.message@ == oe.msg,
            },
    {
        match parse_obj_scene(src) {
            Ok(p) => Ok(p.0),
            Err(e) => Err(e),
        }
    }

    fn into_asset(out: Self::Output) -> (a: AssetValue)
        ensures
            a.tag_spec() == Self::tag_spec(),
    {
        AssetValue::Scene(out)
    }

    fn read_asset(a: &AssetValue) -> (r: Option<&Self::Output>)
        ensures
            r is Some <==> a.tag_spec() == Self::tag_spec(),
    {
        match a {
            AssetValue::Scene(s) => Some(s),
            _ => None,
        }
    }
}

/// The mesh-description format that yields only the last mesh of the scene.
pub struct ObjMesh;

impl Format for ObjMesh {
    type Output = Mesh;

    open spec fn tag_spec() -> AssetTag {
        AssetTag::Mesh
    }

    open spec fn id_spec() -> u64 {
        4
    }

    fn tag() -> (t: AssetTag)
        ensures
            t == Self::tag_spec(),
    {
        AssetTag::Mesh
    }

    fn format_id() -> (r: u64)
        ensures
            r == Self::id_spec(),
    {
        4
    }

    open spec fn label_spec() -> Seq<char> {
        "ObjMesh"@
    }

    fn label() -> (r: String)
        ensures
            r@ == Self::label_spec(),
    {
        String::from_str("ObjMesh")
    }

    /// The last mesh of the parsed scene, which always exists.
    fn parse(&self, src: &Vec<u8>) -> (r: Result<Self::Output, Error>)
        ensures
            !valid_utf8(src@) ==> (r matches Err(e) && e.status == Status::InvalidArgument
                && e.message@ == "mesh description is not valid UTF-8"@),
            valid_utf8(src@) ==> match obj_spec(decode_utf8(src@)) {
                Ok(sw) => r matches Ok(m) && mesh_v(m) == sw.0.last().0,
                Err(oe) => r matches Err(e) && e.status == oe.status && e.message@ == oe.msg,
            },
    {
        let p = match parse_obj_scene(src) {
            Ok(p) => p,
            Err(e) => {
                return Err(e);
            },
        };
        let mut scene = p.0;
        proof {
            if valid_utf8(src@) {
                lemma_obj_spec_nonempty(decode_utf8(src@));
            }
        }
        match scene.nodes.pop() {
            Some(node) => {
                proof {
                    let sw = obj_spec(decode_utf8(src@))->Ok_0;
                    assert(mesh_v(node.0) == sw.0.last().0);
                }
                Ok(node.0)
            },
            None => {
                proof {
                    assert(false);
                }
                Err(Error::text(Status::InvalidArgument, "empty scene"))
            },
        }
    }

    fn into_asset(out: Self::Output) -> (a: AssetValue)
        ensures
            a.tag_spec() == Self::tag_spec(),
    {
        AssetValue::Mesh(out)
    }

    fn read_asset(a: &AssetValue) -> (r: Option<&Self::Output>)
        ensures
            r is Some <==> a.tag_spec() == Self::tag_spec(),
    {
        match a {
            AssetValue::Mesh(m) => Some(m),
            _ => None,
        }
    }
}

/// A failing prefix fails the whole fold, with the same error.
proof fn lemma_obj_fold_err(lines: Seq<Seq<char>>, j: int)
    requires
        0 <= j <= lines.len(),
        obj_fold(lines.take(j)) is Err,
    ensures
        obj_fold(lines) == obj_fold(lines.take(j)),
    decreases lines.len() - j,
{
    if j < lines.len() {
        assert(lines.take(j + 1).drop_last() =~= lines.take(j));
        assert(obj_fold(lines.take(j + 1)) == obj_fold(lines.take(j)));
        lemma_obj_fold_err(lines, j + 1);
    } else {
        assert(lines.take(j) =~= lines);
    }
}

} // verus!
