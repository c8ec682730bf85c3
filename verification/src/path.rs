use crate::error::{Error, Status};
use crate::strutil::{
    chars_to_string, subvec, find_char, hex_value, lemma_find_char, lemma_find_char_is,
    lemma_find_char_none, lemma_uhex_value, parse_hex_u128, scan_char, str_to_chars, uhex,
    valid_hex_u128,
};
use vstd::prelude::*;

verus! {

/// The structured identity of a requested resource.
///
/// A locator is either a plain file path or a chunked container path together
/// with an optional 128-bit chunk identifier. When the identifier is absent,
/// opening a byte source for the locator is unsupported and fails.
#[derive(Debug, Clone, PartialEq, Eq, Hash)]
pub enum Path {
    /// A filesystem path, absolute or relative.
    File(String),
    /// A chunked container path and an optional chunk identifier.
    Chunk(String, Option<u128>),
}

/// The mathematical value of a locator: its paths as character sequences.
pub enum PathV {
    File(Seq<char>),
    Chunk(Seq<char>, Option<u128>),
}

impl View for Path {
    type V = PathV;

    open spec fn view(&self) -> PathV {
        match self {
            Path::File(p) => PathV::File(p@),
            Path::Chunk(p, id) => PathV::Chunk(p@, *id),
        }
    }
}

pub open spec fn is_alpha(c: char) -> bool {
    ('a' <= c && c <= 'z') || ('A' <= c && c <= 'Z')
}

/// The characters a scheme may contain after its initial letter.
pub open spec fn is_scheme_char(c: char) -> bool {
    is_alpha(c) || ('0' <= c && c <= '9') || c == '+' || c == '-' || c == '.'
}

/// Case-insensitive match of a character against a lowercase letter.
pub open spec fn char_ci(a: char, lower: char) -> bool {
    a == lower || ('A' <= a && a <= 'Z' && a as int + 32 == lower as int)
}

pub open spec fn scheme_is_file(s: Seq<char>) -> bool {
    s.len() == 4 && char_ci(s[0], 'f') && char_ci(s[1], 'i') && char_ci(s[2], 'l') && char_ci(
        s[3],
        'e',
    )
}

pub open spec fn scheme_is_bin(s: Seq<char>) -> bool {
    s.len() == 3 && char_ci(s[0], 'b') && char_ci(s[1], 'i') && char_ci(s[2], 'n')
}

/// Everything before the first `#`, which starts the fragment.
pub open spec fn before_frag(b: Seq<char>) -> Seq<char> {
    match find_char(b, '#') {
        None => b,
        Some(h) => b.take(h),
    }
}

/// Strips the `//` marker that announces an absolute path.
pub open spec fn body_path(b: Seq<char>) -> Seq<char> {
    if b.len() >= 2 && b[0] == '/' && b[1] == '/' {
        b.skip(2)
    } else {
        b
    }
}

/// Parsing after the scheme has been identified.
pub open spec fn parse_with_scheme(s: Seq<char>, rest: Seq<char>) -> Result<PathV, Status> {
    if scheme_is_file(s) {
        Ok(PathV::File(body_path(before_frag(rest))))
    } else if scheme_is_bin(s) {
        match find_char(rest, '#') {
            None => Ok(PathV::Chunk(body_path(rest), None)),
            Some(h) => {
                if valid_hex_u128(rest.skip(h + 1)) {
                    Ok(
                        PathV::Chunk(
                            body_path(rest.take(h)),
                            Some(hex_value(rest.skip(h + 1)) as u128),
                        ),
                    )
                } else {
                    Err(Status::InvalidArgument)
                }
            },
        }
    } else {
        Err(Status::Unimplemented)
    }
}

/// What parsing a locator text yields.
///
/// A text with no scheme, or whose first `:` lies beyond a `/` or `#`, is a
/// plain file path (the file scheme is the default). Otherwise the prefix
/// before the first `:` must be a well-formed scheme name, matched against
/// `file` and `bin` case-insensitively; any other scheme is unsupported.
pub open spec fn parse_spec(t: Seq<char>) -> Result<PathV, Status> {
    match find_char(t, ':') {
        None => Ok(PathV::File(body_path(before_frag(t)))),
        Some(i) => {
            if (match find_char(t, '/') {
                Some(k) => k < i,
                None => false,
            }) || (match find_char(t, '#') {
                Some(k) => k < i,
                None => false,
            }) {
                Ok(PathV::File(body_path(before_frag(t))))
            } else if i > 0 && is_alpha(t[0]) && (forall|j: int|
                1 <= j < i ==> is_scheme_char(#[trigger] t[j])) {
                parse_with_scheme(t.take(i), t.skip(i + 1))
            } else {
                Err(Status::InvalidArgument)
            }
        },
    }
}

pub open spec fn scheme_file_seq() -> Seq<char> {
    seq!['f', 'i', 'l', 'e', ':']
}

pub open spec fn scheme_bin_seq() -> Seq<char> {
    seq!['b', 'i', 'n', ':']
}

/// The `//` marker emitted for an absolute path.
pub open spec fn slashes(p: Seq<char>) -> Seq<char> {
    if p.len() > 0 && p[0] == '/' {
        seq!['/', '/']
    } else {
        Seq::<char>::empty()
    }
}

/// The canonical text of a locator: `scheme:path` for relative paths,
/// `scheme://path` for absolute ones, with `#` and an uppercase hexadecimal
/// identifier appended when a chunk id is present.
pub open spec fn display_spec(p: PathV) -> Seq<char> {
    match p {
        PathV::File(q) => scheme_file_seq() + slashes(q) + q,
        PathV::Chunk(q, None) => scheme_bin_seq() + slashes(q) + q,
        PathV::Chunk(q, Some(id)) => scheme_bin_seq() + slashes(q) + q + seq!['#'] + uhex(
            id as int,
        ),
    }
}

/// The scheme prefix of a schemed locator text: what precedes the first `:`.
pub open spec fn scheme_of(t: Seq<char>) -> Seq<char> {
    match find_char(t, ':') {
        Some(i) => t.take(i),
        None => Seq::<char>::empty(),
    }
}

/// A locator whose paths are free of `#`, so that its text form reparses.
pub open spec fn wf_locator(p: PathV) -> bool {
    match p {
        PathV::File(q) => forall|j: int| 0 <= j < q.len() ==> q[j] != '#',
        PathV::Chunk(q, _) => forall|j: int| 0 <= j < q.len() ==> q[j] != '#',
    }
}

fn char_ci_exec(a: char, lower: char) -> (r: bool)
    ensures
        r == char_ci(a, lower),
{
    a == lower || ('A' <= a && a <= 'Z' && (a as u32) + 32 == (lower as u32))
}

/// Removes the leading `//` marker, if present.
fn strip_body(b: Vec<char>) -> (r: Vec<char>)
    ensures
        r@ == body_path(b@),
{
    if b.len() >= 2 && b[0] == '/' && b[1] == '/' {
        let r = subvec(&b, 2, b.len());
        proof {
            assert(r@ =~= b@.skip(2));
        }
        r
    } else {
        b
    }
}

/// Keeps what precedes the first `#`.
fn before_frag_exec(b: &Vec<char>) -> (r: Vec<char>)
    ensures
        r@ == before_frag(b@),
{
    match scan_char(b, '#') {
        None => {
            let r = subvec(b, 0, b.len());
            proof {
                assert(r@ =~= b@);
            }
            r
        },
        Some(h) => {
            proof {
                lemma_find_char(b@, '#');
            }
            let r = subvec(b, 0, h);
            proof {
                assert(r@ =~= b@.take(h as int));
            }
            r
        },
    }
}

impl Path {
    /// Parses a locator text: `file:p`, `file://p`, `bin:p`, `bin:p#HEXID`,
    /// `bin://p#HEXID`, or a bare path, which defaults to the file scheme.
    ///
    /// Fails with `InvalidArgument` on a malformed scheme prefix or chunk-id
    /// fragment and with `Unimplemented` on any scheme other than `file` and
    /// `bin`, naming the offending scheme.
    pub fn parse(text: &str) -> (r: Result<Path, Error>)
        ensures
            r matches Ok(p) ==> parse_spec(text@) == Ok::<PathV, Status>(p@),
            r matches Err(e) ==> parse_spec(text@) == Err::<PathV, Status>(e.status),
            r matches Err(e) ==> (e.status == Status::Unimplemented ==> e.message@
                == "Unsupported URI scheme "@ + scheme_of(text@)),
    {
        let cs = str_to_chars(text);
        let n = cs.len();
        let col = scan_char(&cs, ':');
        let sl = scan_char(&cs, '/');
        let hs = scan_char(&cs, '#');
        proof {
            lemma_find_char(cs@, ':');
            lemma_find_char(cs@, '/');
            lemma_find_char(cs@, '#');
        }
        let no_scheme: bool = match col {
            None => true,
            Some(i) => {
                (match sl {
                    Some(k) => k < i,
                    None => false,
                }) || (match hs {
                    Some(k) => k < i,
                    None => false,
                })
            },
        };
        if no_scheme {
            let body = strip_body(before_frag_exec(&cs));
            return Ok(Path::File(chars_to_string(&body)));
        }
        let i = match col {
            Some(i) => i,
            None => {
                proof {
                    assert(false);
                }
                0
            },
        };
        if i == 0 {
            return Err(Error::text(Status::InvalidArgument, "empty locator scheme"));
        }
        let c0 = cs[0];
        if !(('a' <= c0 && c0 <= 'z') || ('A' <= c0 && c0 <= 'Z')) {
            return Err(Error::text(Status::InvalidArgument, "locator scheme must start with a letter"));
        }
        let mut j: usize = 1;
        while j < i
            invariant
                1 <= j <= i < cs@.len(),
                text@ == cs@,
                find_char(cs@, ':') == Some(i as int),
                !(match find_char(cs@, '/') {
                    Some(k) => k < i,
                    None => false,
                }),
                !(match find_char(cs@, '#') {
                    Some(k) => k < i,
                    None => false,
                }),
                is_alpha(cs@[0]),
                forall|k: int| 1 <= k < j ==> is_scheme_char(#[trigger] cs@[k]),
            decreases i - j,
        {
            let c = cs[j];
            if !(('a' <= c && c <= 'z') || ('A' <= c && c <= 'Z') || ('0' <= c && c <= '9') || c
                == '+' || c == '-' || c == '.') {
                proof {
                    let kj = j as int;
                    assert(!is_scheme_char(cs@[kj]));
                    assert(!(forall|k: int| 1 <= k < i ==> is_scheme_char(#[trigger] cs@[k]))) by {
                        if forall|k: int| 1 <= k < i ==> is_scheme_char(#[trigger] cs@[k]) {
                            assert(is_scheme_char(cs@[kj]));
                        }
                    }
                }
                return Err(Error::text(Status::InvalidArgument, "malformed locator scheme"));
            }
            j = j + 1;
        }
        let sch = subvec(&cs, 0, i);
        let rest = subvec(&cs, i + 1, n);
        proof {
            assert(sch@ =~= cs@.take(i as int));
            assert(rest@ =~= cs@.skip(i as int + 1));
        }
        if sch.len() == 4 && char_ci_exec(sch[0], 'f') && char_ci_exec(sch[1], 'i')
            && char_ci_exec(sch[2], 'l') && char_ci_exec(sch[3], 'e') {
            let body = strip_body(before_frag_exec(&rest));
            Ok(Path::File(chars_to_string(&body)))
        } else if sch.len() == 3 && char_ci_exec(sch[0], 'b') && char_ci_exec(sch[1], 'i')
            && char_ci_exec(sch[2], 'n') {
            match scan_char(&rest, '#') {
                None => {
                    let whole = subvec(&rest, 0, rest.len());
                    proof {
                        assert(whole@ =~= rest@);
                    }
                    let body = strip_body(whole);
                    Ok(Path::Chunk(chars_to_string(&body), None))
                },
                Some(h) => {
                    proof {
                        lemma_find_char(rest@, '#');
                    }
                    let f = subvec(&rest, h + 1, rest.len());
                    proof {
                        assert(f@ =~= rest@.skip(h as int + 1));
                    }
                    match parse_hex_u128(&f) {
                        Some(v) => {
                            let before = subvec(&rest, 0, h);
                            proof {
                                assert(before@ =~= rest@.take(h as int));
                            }
                            let body = strip_body(before);
                            Ok(Path::Chunk(chars_to_string(&body), Some(v)))
                        },
                        None => Err(
                            Error::text(Status::InvalidArgument, "malformed chunk-id fragment"),
                        ),
                    }
                },
            }
        } else {
            let mut msg = str_to_chars("Unsupported URI scheme ");
            let mut named = sch;
            msg.append(&mut named);
            proof {
                assert(msg@ =~= "Unsupported URI scheme "@ + scheme_of(cs@));
            }
            Err(Error::new(Status::Unimplemented, chars_to_string(&msg)))
        }
    }

    /// Renders the locator in its canonical text form, the exact inverse of
    /// `parse` for locators whose paths contain no `#`.
    pub fn display(&self) -> (s: String)
        ensures
            s@ == display_spec(self@),
    {
        let mut v: Vec<char> = Vec::new();
        match self {
            Path::File(q) => {
                v.push('f');
                v.push('i');
                v.push('l');
                v.push('e');
                v.push(':');
                proof {
                    assert(v@ =~= scheme_file_seq());
                }
                let mut pc = str_to_chars(q.as_str());
                if pc.len() > 0 && pc[0] == '/' {
                    v.push('/');
                    v.push('/');
                }
                proof {
                    assert(v@ =~= scheme_file_seq() + slashes(q@));
                }
                v.append(&mut pc);
                proof {
                    assert(v@ =~= scheme_file_seq() + slashes(q@) + q@);
                }
            },
            Path::Chunk(q, id) => {
                v.push('b');
                v.push('i');
                v.push('n');
                v.push(':');
                proof {
                    assert(v@ =~= scheme_bin_seq());
                }
                let mut pc = str_to_chars(q.as_str());
                if pc.len() > 0 && pc[0] == '/' {
                    v.push('/');
                    v.push('/');
                }
                proof {
                    assert(v@ =~= scheme_bin_seq() + slashes(q@));
                }
                v.append(&mut pc);
                proof {
                    assert(v@ =~= scheme_bin_seq() + slashes(q@) + q@);
                }
                match id {
                    None => {},
                    Some(cid) => {
                        v.push('#');
                        let mut hx = crate::strutil::fmt_hex_u128(*cid);
                        v.append(&mut hx);
                        proof {
                            assert(v@ =~= scheme_bin_seq() + slashes(q@) + q@ + seq!['#'] + uhex(
                                *cid as int,
                            ));
                        }
                    },
                }
            },
        }
        chars_to_string(&v)
    }
}

/// A path assembled from its absolute-path marker and its characters carries
/// no fragment and strips back to itself.
proof fn lemma_body_of(q: Seq<char>)
    requires
        forall|j: int| 0 <= j < q.len() ==> q[j] != '#',
    ensures
        find_char(slashes(q) + q, '#') == None::<int>,
        body_path(slashes(q) + q) == q,
        before_frag(slashes(q) + q) == slashes(q) + q,
{
    let b = slashes(q) + q;
    assert forall|j: int| 0 <= j < b.len() implies b[j] != '#' by {
        if j < slashes(q).len() {
            assert(b[j] == slashes(q)[j]);
            assert(slashes(q)[j] == '/');
        } else {
            assert(b[j] == q[j - slashes(q).len()]);
        }
    }
    lemma_find_char_none(b, '#');
    if q.len() > 0 && q[0] == '/' {
        assert(b[0] == '/' && b[1] == '/');
        assert(b.skip(2) =~= q);
    } else {
        assert(b =~= q);
        if b.len() >= 2 && b[0] == '/' && b[1] == '/' {
            assert(q[0] == '/');
        }
        assert(body_path(b) == q);
    }
}

/// Round-trip law: parsing a displayed locator yields the locator again. For
/// every locator whose paths carry no `#`, `parse` is a left inverse of
/// `display`, with the scheme normalized and the absolute or relative form
/// preserved.
#[verifier::rlimit(80)]
pub proof fn lemma_parse_display_roundtrip(p: PathV)
    requires
        wf_locator(p),
    ensures
        parse_spec(display_spec(p)) == Ok::<PathV, Status>(p),
{
    match p {
        PathV::File(q) => {
            let t = display_spec(p);
            assert(t =~= scheme_file_seq() + (slashes(q) + q));
            let body = slashes(q) + q;
            assert(t[0] == 'f' && t[1] == 'i' && t[2] == 'l' && t[3] == 'e' && t[4] == ':');
            assert forall|j: int| 5 <= j < t.len() implies t[j] == body[j - 5] by {}
            lemma_body_of(q);
            lemma_find_char_is(t, ':', 4);
            lemma_find_char(t, '/');
            if (match find_char(t, '/') {
                Some(k) => k < 4,
                None => false,
            }) {
                let k = find_char(t, '/')->Some_0;
                assert(t[k] == '/');
            }
            assert forall|j: int| 0 <= j < t.len() implies t[j] != '#' by {
                if j >= 5 {
                    assert(t[j] == body[j - 5]);
                }
            }
            lemma_find_char_none(t, '#');
            assert(t.take(4) =~= seq!['f', 'i', 'l', 'e']);
            assert(scheme_is_file(t.take(4)));
            assert(t.skip(5) =~= body);
            assert(parse_spec(t) == parse_with_scheme(t.take(4), body));
            assert(parse_with_scheme(t.take(4), body) == Ok::<PathV, Status>(
                PathV::File(body_path(before_frag(body))),
            ));
        },
        PathV::Chunk(q, oid) => {
            let t = display_spec(p);
            let body = slashes(q) + q;
            lemma_body_of(q);
            match oid {
                None => {
                    assert(t =~= scheme_bin_seq() + body);
                    assert(t[0] == 'b' && t[1] == 'i' && t[2] == 'n' && t[3] == ':');
                    assert forall|j: int| 4 <= j < t.len() implies t[j] == body[j - 4] by {}
                    lemma_find_char_is(t, ':', 3);
                    lemma_find_char(t, '/');
                    if (match find_char(t, '/') {
                        Some(k) => k < 3,
                        None => false,
                    }) {
                        let k = find_char(t, '/')->Some_0;
                        assert(t[k] == '/');
                    }
                    assert forall|j: int| 0 <= j < t.len() implies t[j] != '#' by {
                        if j >= 4 {
                            assert(t[j] == body[j - 4]);
                        }
                    }
                    lemma_find_char_none(t, '#');
                    assert(t.take(3) =~= seq!['b', 'i', 'n']);
                    assert(scheme_is_bin(t.take(3)));
                    assert(!scheme_is_file(t.take(3)));
                    assert(t.skip(4) =~= body);
                },
                Some(id) => {
                    let hx = uhex(id as int);
                    lemma_uhex_value(id as int);
                    assert(t =~= scheme_bin_seq() + (body + seq!['#'] + hx));
                    let rest = body + seq!['#'] + hx;
                    let m = body.len() as int;
                    assert(t[0] == 'b' && t[1] == 'i' && t[2] == 'n' && t[3] == ':');
                    assert forall|j: int| 4 <= j < t.len() implies t[j] == rest[j - 4] by {}
                    lemma_find_char_is(t, ':', 3);
                    lemma_find_char(t, '/');
                    if (match find_char(t, '/') {
                        Some(k) => k < 3,
                        None => false,
                    }) {
                        let k = find_char(t, '/')->Some_0;
                        assert(t[k] == '/');
                    }
                    // the first '#' of `rest` closes the path part
                    assert(rest[m] == '#');
                    assert forall|j: int| 0 <= j < m implies rest[j] != '#' by {
                        assert(rest[j] == body[j]);
                    }
                    lemma_find_char_is(rest, '#', m);
                    // so in `t` the first '#' sits past the scheme colon
                    lemma_find_char(t, '#');
                    if (match find_char(t, '#') {
                        Some(k) => k < 3,
                        None => false,
                    }) {
                        let k = find_char(t, '#')->Some_0;
                        assert(t[k] == '#');
                    }
                    assert(t.take(3) =~= seq!['b', 'i', 'n']);
                    assert(scheme_is_bin(t.take(3)));
                    assert(!scheme_is_file(t.take(3)));
                    assert(t.skip(4) =~= rest);
                    assert(rest.skip(m + 1) =~= hx);
                    assert(valid_hex_u128(rest.skip(m + 1)));
                    assert(hex_value(rest.skip(m + 1)) as u128 == id);
                    assert(rest.take(m) =~= body);
                    assert(parse_with_scheme(t.take(3), rest) == Ok::<PathV, Status>(
                        PathV::Chunk(q, Some(id)),
                    ));
                },
            }
        },
    }
}

/// Canonical re-serialization law: every locator text that parses re-serializes canonically:
/// displaying the parsed locator and parsing that text again yields the same
/// locator, the scheme normalized and the absolute or relative form preserved.
pub proof fn lemma_canonical_reparse(t: Seq<char>)
    requires
        parse_spec(t) is Ok,
    ensures
        parse_spec(display_spec(parse_spec(t)->Ok_0)) == parse_spec(t),
{
    lemma_parse_wf(t);
    lemma_parse_display_roundtrip(parse_spec(t)->Ok_0);
}

/// Every locator that `parse` yields is free of `#` in its path, hence fit for
/// the round-trip law.
pub proof fn lemma_parse_wf(t: Seq<char>)
    requires
        parse_spec(t) is Ok,
    ensures
        wf_locator(parse_spec(t)->Ok_0),
{
    lemma_find_char(t, '#');
    match find_char(t, ':') {
        None => {
            lemma_before_frag_no_hash(t);
            lemma_body_path_no_hash(before_frag(t));
        },
        Some(i) => {
            if (match find_char(t, '/') {
                Some(k) => k < i,
                None => false,
            }) || (match find_char(t, '#') {
                Some(k) => k < i,
                None => false,
            }) {
                lemma_before_frag_no_hash(t);
                lemma_body_path_no_hash(before_frag(t));
            } else if i > 0 && is_alpha(t[0]) && (forall|j: int|
                1 <= j < i ==> is_scheme_char(#[trigger] t[j])) {
                let rest = t.skip(i + 1);
                lemma_before_frag_no_hash(rest);
                lemma_body_path_no_hash(before_frag(rest));
                lemma_find_char(rest, '#');
                match find_char(rest, '#') {
                    None => {
                        assert(before_frag(rest) =~= rest);
                        lemma_body_path_no_hash(rest);
                    },
                    Some(h) => {
                        assert(rest.take(h) =~= before_frag(rest));
                        lemma_body_path_no_hash(rest.take(h));
                    },
                }
            }
        },
    }
}

/// What precedes the first `#` holds no `#`.
proof fn lemma_before_frag_no_hash(b: Seq<char>)
    ensures
        forall|j: int| 0 <= j < before_frag(b).len() ==> #[trigger] before_frag(b)[j] != '#',
{
    lemma_find_char(b, '#');
    match find_char(b, '#') {
        None => {
            assert(before_frag(b) =~= b);
        },
        Some(h) => {
            assert(before_frag(b) =~= b.take(h));
        },
    }
}

/// Stripping the absolute-path marker keeps a `#`-free path `#`-free.
proof fn lemma_body_path_no_hash(b: Seq<char>)
    requires
        forall|j: int| 0 <= j < b.len() ==> #[trigger] b[j] != '#',
    ensures
        forall|j: int| 0 <= j < body_path(b).len() ==> #[trigger] body_path(b)[j] != '#',
{
    if b.len() >= 2 && b[0] == '/' && b[1] == '/' {
        assert forall|j: int| 0 <= j < body_path(b).len() implies #[trigger] body_path(b)[j]
            != '#' by {
            assert(body_path(b)[j] == b[j + 2]);
        }
    }
}

// ------------------------------------------------------------------
// Byte sources: files and container chunks.
// ------------------------------------------------------------------

/// One chunk of a chunked container: its 128-bit identifier and its bytes.
pub struct ContainerChunk {
    pub id: u128,
    pub bytes: Vec<u8>,
}

/// The environment's byte supplier. The loader core never touches the
/// filesystem itself: a caller implements this capability with real file and
/// container reads and hands it to `load`.
pub trait Source {
    /// Reads a plain file whole.
    fn read_file(&self, path: &String) -> Result<Vec<u8>, Error>;

    /// Opens a chunked container and lists its chunks in container order,
    /// each with its identifier and bytes.
    fn read_container(&self, path: &String) -> Result<Vec<ContainerChunk>, Error>;
}

/// Index of the first chunk carrying `id`, if any.
pub open spec fn chunk_find(s: Seq<ContainerChunk>, id: u128) -> Option<int>
    decreases s.len(),
{
    if s.len() == 0 {
        None
    } else if s[0].id == id {
        Some(0)
    } else {
        match chunk_find(s.drop_first(), id) {
            None => None,
            Some(i) => Some(i + 1),
        }
    }
}

pub proof fn lemma_chunk_find(s: Seq<ContainerChunk>, id: u128)
    ensures
        match chunk_find(s, id) {
            Some(i) => 0 <= i < s.len() && s[i].id == id && (forall|j: int|
                0 <= j < i ==> s[j].id != id),
            None => forall|j: int| 0 <= j < s.len() ==> s[j].id != id,
        },
    decreases s.len(),
{
    if s.len() > 0 && s[0].id != id {
        let rest = s.drop_first();
        lemma_chunk_find(rest, id);
        match chunk_find(rest, id) {
            Some(i) => {
                assert(s[i + 1].id == rest[i].id);
                assert forall|j: int| 0 <= j < i + 1 implies s[j].id != id by {
                    if j >= 1 {
                        assert(rest[j - 1].id != id);
                    }
                }
            },
            None => {
                assert forall|j: int| 0 <= j < s.len() implies s[j].id != id by {
                    if j >= 1 {
                        assert(rest[j - 1].id != id);
                    }
                }
            },
        }
    }
}

pub open spec fn chunk_not_found_msg(id: u128) -> Seq<char> {
    "Chunk not found: "@ + uhex(id as int)
}

/// Scans a container's chunks in order and yields the bytes of the first
/// chunk whose identifier equals `id`; when no chunk matches, fails with
/// `NotFound`, naming the identifier in uppercase hexadecimal.
pub fn select_chunk(chunks: Vec<ContainerChunk>, id: u128) -> (r: Result<Vec<u8>, Error>)
    ensures
        match chunk_find(chunks@, id) {
            Some(i) => r matches Ok(b) && b@ == chunks@[i].bytes@,
            None => r matches Err(e) && e.status == Status::NotFound && e.message@
                == chunk_not_found_msg(id),
        },
{
    let mut i: usize = 0;
    let mut remaining = chunks;
    while i < remaining.len()
        invariant
            i <= remaining.len(),
            remaining@ == chunks@,
            forall|j: int| 0 <= j < i ==> chunks@[j].id != id,
        decreases remaining.len() - i,
    {
        if remaining[i].id == id {
            proof {
                lemma_chunk_find(chunks@, id);
                match chunk_find(chunks@, id) {
                    Some(k) => {
                        if k < i as int {
                            assert(chunks@[k].id != id);
                        } else if k > i as int {
                            assert(chunks@[i as int].id != id);
                        }
                    },
                    None => {
                        assert(chunks@[i as int].id != id);
                    },
                }
            }
            let c = remaining.remove(i);
            return Ok(c.bytes);
        }
        i = i + 1;
    }
    proof {
        lemma_chunk_find(chunks@, id);
        if let Some(k) = chunk_find(chunks@, id) {
            assert(chunks@[k].id != id);
        }
    }
    let mut msg = str_to_chars("Chunk not found: ");
    let mut hx = crate::strutil::fmt_hex_u128(id);
    msg.append(&mut hx);
    Err(Error::new(Status::NotFound, chars_to_string(&msg)))
}

/// Opens the byte source a locator names, through the caller's `Source`:
/// a file is read whole; a container locator with a chunk id yields exactly
/// that chunk's bytes (`NotFound` when absent); a container locator without a
/// chunk id is an unsupported access mode and fails with `Unimplemented`.
pub fn open_byte_source<S: Source>(p: &Path, io: &S) -> (r: Result<Vec<u8>, Error>)
    ensures
        (p@ matches PathV::Chunk(_, oid) && oid is None) ==> (r matches Err(e) && e.status
            == Status::Unimplemented),
{
    match p {
        Path::File(path) => io.read_file(path),
        Path::Chunk(path, Some(id)) => {
            match io.read_container(path) {
                Ok(chunks) => select_chunk(chunks, *id),
                Err(e) => Err(e),
            }
        },
        Path::Chunk(_, None) => Err(
            Error::text(
                Status::Unimplemented,
                "container-wide reads are not supported: no chunk id in locator",
            ),
        ),
    }
}

} // verus!
