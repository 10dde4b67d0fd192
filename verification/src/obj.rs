//! A line-oriented importer for a constrained subset of the Wavefront OBJ
//! text format.
//!
//! The recognised directives are `o`, `v`, `vn`, `f` and `s`; a line that
//! starts with `# ` is a comment, and any other line is silently ignored.
//! Faces must be triangles whose corners are `/`-separated index groups; the
//! first field of a group names a position, the third a normal, both
//! 1-based and global to the file. Each `o` line flushes the data gathered
//! so far into one mesh (unless nothing has accumulated yet), and the end of
//! the input flushes whatever remains, so a file produces one mesh per
//! object block, in file order. The corner normals of a flushed mesh keep
//! the order the face lines recorded them in. An object is emitted flat
//! (as read) unless the most recent `s` directive turned smooth shading on,
//! in which case the flushed mesh is smooth shaded first.
//!
//! The whole import is specified by `parse_obj_spec`, a line-by-line
//! interpreter over the input bytes; `parse_obj` is proved to return exactly
//! what it says, including which error each malformed input produces.

use crate::mesh::{
    identity_indices, models_of, smooth_shaded_model, Mesh, MeshModel,
};
use crate::vec3::{parse_scalar, parse_scalar_bits, Vector3};
use crate::vertex::{Normal, PositionVertex};
use vstd::prelude::*;

verus! {

pub const SPACE: u8 = 32;
pub const LF: u8 = 10;
pub const CR: u8 = 13;
pub const SLASH: u8 = 47;
pub const HASH: u8 = 35;
pub const PLUS: u8 = 43;
pub const DIGIT_ZERO: u8 = 48;
pub const DIGIT_NINE: u8 = 57;
pub const DOT: u8 = 46;
pub const LOWER_B: u8 = 98;
pub const LOWER_F: u8 = 102;
pub const LOWER_J: u8 = 106;
pub const LOWER_N: u8 = 110;
pub const LOWER_O: u8 = 111;
pub const LOWER_S: u8 = 115;
pub const LOWER_V: u8 = 118;

/// The index of the first occurrence of `c` in `l`, or `l.len()` when `c`
/// does not occur.
pub open spec fn find_byte(l: Seq<u8>, c: u8) -> int
    decreases l.len(),
{
    if l.len() == 0 {
        0
    } else if l[0] == c {
        0
    } else {
        1 + find_byte(l.subrange(1, l.len() as int), c)
    }
}

/// `find_byte` stays within the sequence.
pub proof fn lemma_find_byte_bounds(l: Seq<u8>, c: u8)
    ensures
        0 <= find_byte(l, c) <= l.len(),
    decreases l.len(),
{
    if l.len() > 0 && l[0] != c {
        lemma_find_byte_bounds(l.subrange(1, l.len() as int), c);
    }
}

/// `find_byte` finds an occurrence no later than any given one.
pub proof fn lemma_find_byte_le(l: Seq<u8>, c: u8, t: int)
    requires
        0 <= t < l.len(),
        l[t] == c,
    ensures
        find_byte(l, c) <= t,
    decreases l.len(),
{
    if l[0] != c {
        let tail = l.subrange(1, l.len() as int);
        assert(tail[t - 1] == l[t]);
        lemma_find_byte_le(tail, c, t - 1);
    }
}

/// Splitting yields at least one fragment.
pub proof fn lemma_split_bytes_min(l: Seq<u8>, c: u8)
    ensures
        split_bytes(l, c).len() >= 1,
    decreases l.len(),
{
    let j = find_byte(l, c);
    if 0 <= j < l.len() {
        lemma_split_bytes_min(l.subrange(j + 1, l.len() as int), c);
    }
}

/// Splitting at an occurring separator yields at least two fragments.
pub proof fn lemma_split_bytes_at_least_two(l: Seq<u8>, c: u8, t: int)
    requires
        0 <= t < l.len(),
        l[t] == c,
    ensures
        split_bytes(l, c).len() >= 2,
{
    lemma_find_byte_bounds(l, c);
    lemma_find_byte_le(l, c, t);
    let j = find_byte(l, c);
    lemma_split_bytes_min(l.subrange(j + 1, l.len() as int), c);
}

/// `find_byte` returns the position that holds `c` with nothing before it
/// holding `c` — or the length when nothing holds `c`.
pub proof fn lemma_find_byte_is_first(l: Seq<u8>, c: u8, f: int)
    requires
        0 <= f <= l.len(),
        forall|t: int| 0 <= t < f ==> l[t] != c,
        f < l.len() ==> l[f] == c,
    ensures
        find_byte(l, c) == f,
    decreases l.len(),
{
    if l.len() == 0 {
    } else if l[0] == c {
    } else {
        let tail = l.subrange(1, l.len() as int);
        assert forall|t: int| 0 <= t < f - 1 implies tail[t] != c by {
            assert(tail[t] == l[t + 1]);
        }
        lemma_find_byte_is_first(tail, c, f - 1);
    }
}

/// The fragments of `l` between occurrences of the separator `c`, in order:
/// one fragment more than there are separators, fragments may be empty, and
/// an empty input gives one empty fragment.
pub open spec fn split_bytes(l: Seq<u8>, c: u8) -> Seq<Seq<u8>>
    decreases l.len(),
{
    let j = find_byte(l, c);
    if 0 <= j < l.len() {
        seq![l.subrange(0, j)] + split_bytes(l.subrange(j + 1, l.len() as int), c)
    } else {
        seq![l]
    }
}

/// The line without its trailing carriage return, if it has one.
pub open spec fn strip_cr(l: Seq<u8>) -> Seq<u8> {
    if l.len() > 0 && l.last() == CR {
        l.drop_last()
    } else {
        l
    }
}

/// The input's lines: fragments between newline bytes, except that a final
/// empty fragment (from input that ends in a newline, or empty input) is
/// dropped, and a trailing carriage return is stripped from every line.
pub open spec fn obj_line_seq(b: Seq<u8>) -> Seq<Seq<u8>> {
    let parts = split_bytes(b, LF);
    let trimmed = if parts.len() > 0 && parts.last().len() == 0 {
        parts.drop_last()
    } else {
        parts
    };
    trimmed.map(|i: int, l: Seq<u8>| strip_cr(l))
}

/// Whether the byte is an ASCII decimal digit.
pub open spec fn is_digit(c: u8) -> bool {
    DIGIT_ZERO <= c <= DIGIT_NINE
}

/// Whether every byte is an ASCII decimal digit.
pub open spec fn all_digits(s: Seq<u8>) -> bool {
    forall|i: int| 0 <= i < s.len() ==> is_digit(s[i])
}

/// The number the digit string denotes in decimal.
pub open spec fn digits_value(s: Seq<u8>) -> int
    decreases s.len(),
{
    if s.len() == 0 {
        0
    } else {
        10 * digits_value(s.drop_last()) + (s.last() - DIGIT_ZERO)
    }
}

/// The token without one leading plus sign, if it has one.
pub open spec fn unsigned_body(s: Seq<u8>) -> Seq<u8> {
    if s.len() > 0 && s[0] == PLUS {
        s.subrange(1, s.len() as int)
    } else {
        s
    }
}

/// The unsigned integer the token denotes: an optional leading `+`, then at
/// least one decimal digit and nothing else, with a value that fits the
/// pointer-sized integer range — the inputs `str::parse::<usize>` accepts.
pub open spec fn parse_usize_spec(s: Seq<u8>) -> Option<usize> {
    let body = unsigned_body(s);
    if body.len() > 0 && all_digits(body) && digits_value(body) <= usize::MAX {
        Some(digits_value(body) as usize)
    } else {
        None
    }
}

/// A digit string denotes a number that is not negative.
proof fn lemma_digits_value_nonneg(s: Seq<u8>)
    requires
        all_digits(s),
    ensures
        digits_value(s) >= 0,
    decreases s.len(),
{
    if s.len() > 0 {
        lemma_digits_value_nonneg(s.drop_last());
    }
}

/// A prefix of a digit string never denotes more than the whole string.
proof fn lemma_digits_value_prefix_le(s: Seq<u8>, k: int)
    requires
        all_digits(s),
        0 <= k <= s.len(),
    ensures
        digits_value(s.subrange(0, k)) <= digits_value(s),
    decreases s.len() - k,
{
    if k == s.len() {
        assert(s.subrange(0, k) =~= s);
    } else {
        assert(s.subrange(0, k + 1).drop_last() =~= s.subrange(0, k));
        lemma_digits_value_nonneg(s.subrange(0, k));
        lemma_digits_value_prefix_le(s, k + 1);
    }
}

/// Parses an unsigned pointer-sized integer, accepting exactly the tokens
/// `parse_usize_spec` accepts.
fn parse_usize_token(t: &Vec<u8>) -> (r: Option<usize>)
    ensures
        r == parse_usize_spec(t@),
{
    let ghost body = unsigned_body(t@);
    let len = t.len();
    if len == 0 {
        return None;
    }
    let start: usize = if t[0] == PLUS {
        1
    } else {
        0
    };
    proof {
        assert(body =~= t@.subrange(start as int, len as int));
    }
    if start >= len {
        return None;
    }
    let mut acc: usize = 0;
    let mut i: usize = start;
    while i < len
        invariant
            start <= i <= len,
            len == t@.len(),
            start < len,
            body == unsigned_body(t@),
            body == t@.subrange(start as int, len as int),
            all_digits(t@.subrange(start as int, i as int)),
            acc == digits_value(t@.subrange(start as int, i as int)),
        decreases len - i,
    {
        let c = t[i];
        if c < DIGIT_ZERO || c > DIGIT_NINE {
            proof {
                assert(body[i - start] == c);
                assert(!all_digits(body));
            }
            return None;
        }
        let d = (c - DIGIT_ZERO) as usize;
        if acc > (usize::MAX - d) / 10 {
            proof {
                let pre = t@.subrange(start as int, i + 1);
                assert(pre.drop_last() =~= t@.subrange(start as int, i as int));
                assert(pre.last() == c);
                assert(digits_value(pre) > usize::MAX);
                if all_digits(body) {
                    assert(pre =~= body.subrange(0, i + 1 - start));
                    lemma_digits_value_prefix_le(body, i + 1 - start);
                }
            }
            return None;
        }
        acc = acc * 10 + d;
        proof {
            let pre = t@.subrange(start as int, i + 1);
            assert(pre.drop_last() =~= t@.subrange(start as int, i as int));
            assert(pre.last() == c);
            assert forall|j: int| 0 <= j < pre.len() implies is_digit(pre[j]) by {
                if j < i - start {
                    assert(pre[j] == t@.subrange(start as int, i as int)[j]);
                }
            }
        }
        i = i + 1;
    }
    proof {
        assert(body =~= t@.subrange(start as int, i as int));
        lemma_digits_value_nonneg(body);
    }
    Some(acc)
}

/// The byte sequence each vector holds, in order.
pub open spec fn views_of(v: Seq<Vec<u8>>) -> Seq<Seq<u8>> {
    v.map(|i: int, t: Vec<u8>| t@)
}

/// The integer value of every element, in order.
pub open spec fn ints_of(s: Seq<usize>) -> Seq<int> {
    s.map(|i: int, x: usize| x as int)
}

/// Why an OBJ import failed. Line numbers are 1-based.
#[derive(Clone, PartialEq, Eq, Debug)]
pub enum ObjError {
    /// The path does not end in the OBJ extension.
    UnsupportedExtension { path: String },
    /// The file could not be opened or read.
    Io { path: String },
    /// A token that should be numeric is missing or did not parse.
    Number { line: usize },
    /// A face line with too few corners or too few slash fields in a
    /// corner, or a face index below the current object's range.
    Face { line: usize },
    /// Mismatched or incomplete index triples, or an index past the
    /// object's data, found when flushing an object (the line is the `o`
    /// line's number, or the line count at end of input).
    Structure { line: usize },
}

/// Whether the line starts with the two given bytes.
pub open spec fn starts2(l: Seq<u8>, c0: u8, c1: u8) -> bool {
    l.len() >= 2 && l[0] == c0 && l[1] == c1
}

/// Whether the line starts with the three given bytes.
pub open spec fn starts3(l: Seq<u8>, c0: u8, c1: u8, c2: u8) -> bool {
    l.len() >= 3 && l[0] == c0 && l[1] == c1 && l[2] == c2
}

/// The bytes of the token `off`.
pub open spec fn off_token() -> Seq<u8> {
    seq![LOWER_O, LOWER_F, LOWER_F]
}

/// What the importer has gathered at some point of the file: the current
/// object's positions, normals and face index pairs (0-based, local to the
/// object), the running offsets that translate the file's global 1-based
/// indices into local ones, the shading flag, and the meshes flushed so
/// far.
#[verifier::ext_equal]
pub ghost struct ObjState {
    pub verts: Seq<PositionVertex>,
    pub norms: Seq<Normal>,
    pub vis: Seq<int>,
    pub nis: Seq<int>,
    pub voff: int,
    pub noff: int,
    pub flat: bool,
    pub meshes: Seq<MeshModel<PositionVertex>>,
}

/// The importer's starting state: nothing gathered, flat shading.
pub open spec fn obj_init() -> ObjState {
    ObjState {
        verts: Seq::empty(),
        norms: Seq::empty(),
        vis: Seq::empty(),
        nis: Seq::empty(),
        voff: 0,
        noff: 0,
        flat: true,
        meshes: Seq::empty(),
    }
}

/// The mesh the gathered data flushes to: the recorded positions and
/// normals are duplicated per corner, in recorded order, under sequential
/// indices; the mesh is then smooth shaded when the shading flag asks for
/// it. Fails when the vertex and normal index counts differ or are not
/// whole triangles, when an index points past the gathered data, or when
/// the corner count does not fit an index.
pub open spec fn spec_flush(st: ObjState, line_no: int) -> Result<
    MeshModel<PositionVertex>,
    ObjError,
> {
    if st.vis.len() != st.nis.len() || st.vis.len() % 3 != 0 {
        Err(ObjError::Structure { line: line_no as usize })
    } else if !(forall|j: int| 0 <= j < st.vis.len() ==> 0 <= #[trigger] st.vis[j]
        < st.verts.len()) {
        Err(ObjError::Structure { line: line_no as usize })
    } else if !(forall|j: int| 0 <= j < st.nis.len() ==> 0 <= #[trigger] st.nis[j]
        < st.norms.len()) {
        Err(ObjError::Structure { line: line_no as usize })
    } else if st.vis.len() > u32::MAX {
        Err(ObjError::Structure { line: line_no as usize })
    } else {
        let mesh = MeshModel {
            vertices: Seq::new(st.vis.len(), |j: int| st.verts[st.vis[j]]),
            normals: Seq::new(st.nis.len(), |j: int| st.norms[st.nis[j]]),
            indices: identity_indices(st.vis.len() as int),
        };
        if st.flat {
            Ok(mesh)
        } else {
            Ok(smooth_shaded_model(mesh))
        }
    }
}

/// One corner of a face line: at least three slash fields, of which the
/// first (position) and third (normal) must parse as unsigned integers no
/// smaller than the running offsets; yields the local 0-based index pair.
pub open spec fn parse_face_group(g: Seq<u8>, voff: int, noff: int, line_no: int) -> Result<
    (int, int),
    ObjError,
> {
    let parts = split_bytes(g, SLASH);
    if parts.len() < 3 {
        Err(ObjError::Face { line: line_no as usize })
    } else {
        match parse_usize_spec(parts[0]) {
            Option::None => Err(ObjError::Number { line: line_no as usize }),
            Option::Some(v) => if (v as int) < 1 + voff {
                Err(ObjError::Face { line: line_no as usize })
            } else {
                match parse_usize_spec(parts[2]) {
                    Option::None => Err(ObjError::Number { line: line_no as usize }),
                    Option::Some(n) => if (n as int) < 1 + noff {
                        Err(ObjError::Face { line: line_no as usize })
                    } else {
                        Ok(((v as int) - 1 - voff, (n as int) - 1 - noff))
                    },
                }
            },
        }
    }
}

/// A face line: exactly three corners are read (tokens past the third are
/// ignored), and their index pairs are appended to the gathered data.
pub open spec fn face_step(st: ObjState, toks: Seq<Seq<u8>>, line_no: int) -> Result<
    ObjState,
    ObjError,
> {
    if toks.len() < 4 {
        Err(ObjError::Face { line: line_no as usize })
    } else {
        match parse_face_group(toks[1], st.voff, st.noff, line_no) {
            Err(e) => Err(e),
            Ok((v1, n1)) => match parse_face_group(toks[2], st.voff, st.noff, line_no) {
                Err(e) => Err(e),
                Ok((v2, n2)) => match parse_face_group(toks[3], st.voff, st.noff, line_no) {
                    Err(e) => Err(e),
                    Ok((v3, n3)) => Ok(
                        ObjState {
                            vis: st.vis + seq![v1, v2, v3],
                            nis: st.nis + seq![n1, n2, n3],
                            ..st
                        },
                    ),
                },
            },
        }
    }
}

/// A position (`v`) or normal (`vn`) line: three coordinate tokens after
/// the directive, all of which must parse as floating-point numbers; extra
/// tokens are ignored.
pub open spec fn parse_coords(toks: Seq<Seq<u8>>, line_no: int) -> Result<Vector3, ObjError> {
    if toks.len() < 4 {
        Err(ObjError::Number { line: line_no as usize })
    } else {
        match (parse_scalar_bits(toks[1]), parse_scalar_bits(toks[2]), parse_scalar_bits(
            toks[3],
        )) {
            (Option::Some(x), Option::Some(y), Option::Some(z)) => Ok(Vector3 { x, y, z }),
            _ => Err(ObjError::Number { line: line_no as usize }),
        }
    }
}

/// How one line changes the importer's state.
pub open spec fn obj_step(st: ObjState, line: Seq<u8>, line_no: int) -> Result<
    ObjState,
    ObjError,
> {
    if starts2(line, HASH, SPACE) {
        Ok(st)
    } else if starts2(line, LOWER_O, SPACE) {
        // The index counts are checked on every object boundary; the rest
        // of the flush happens only once some vertex data has accumulated,
        // so an opening `o` line (or a repeated one) passes through.
        if st.vis.len() != st.nis.len() || st.vis.len() % 3 != 0 {
            Err(ObjError::Structure { line: line_no as usize })
        } else if st.verts.len() == 0 {
            Ok(st)
        } else {
            match spec_flush(st, line_no) {
                Err(e) => Err(e),
                Ok(m) => Ok(
                    ObjState {
                        verts: Seq::empty(),
                        norms: Seq::empty(),
                        vis: Seq::empty(),
                        nis: Seq::empty(),
                        voff: st.voff + st.verts.len(),
                        noff: st.noff + st.norms.len(),
                        flat: st.flat,
                        meshes: st.meshes.push(m),
                    },
                ),
            }
        }
    } else if starts2(line, LOWER_V, SPACE) {
        match parse_coords(split_bytes(line, SPACE), line_no) {
            Err(e) => Err(e),
            Ok(p) => Ok(
                ObjState { verts: st.verts.push(PositionVertex { position: p }), ..st },
            ),
        }
    } else if starts3(line, LOWER_V, LOWER_N, SPACE) {
        match parse_coords(split_bytes(line, SPACE), line_no) {
            Err(e) => Err(e),
            Ok(p) => Ok(
                ObjState {
                    norms: st.norms.push(Normal { normal: p.spec_normalised() }),
                    ..st
                },
            ),
        }
    } else if starts2(line, LOWER_F, SPACE) {
        face_step(st, split_bytes(line, SPACE), line_no)
    } else if starts2(line, LOWER_S, SPACE) {
        let toks = split_bytes(line, SPACE);
        Ok(ObjState { flat: toks[1] == off_token(), ..st })
    } else {
        Ok(st)
    }
}

/// The importer's state after the lines from `i` on, starting from `st`.
pub open spec fn obj_run(lines: Seq<Seq<u8>>, i: int, st: ObjState) -> Result<
    ObjState,
    ObjError,
>
    decreases lines.len() - i,
{
    if 0 <= i < lines.len() {
        match obj_step(st, lines[i], i + 1) {
            Err(e) => Err(e),
            Ok(s2) => obj_run(lines, i + 1, s2),
        }
    } else {
        Ok(st)
    }
}

/// What importing the given bytes produces: the state after every line,
/// flushed once more at end of input (so the last — or only — object is
/// emitted even without a closing `o` line).
pub open spec fn parse_obj_spec(bytes: Seq<u8>) -> Result<
    Seq<MeshModel<PositionVertex>>,
    ObjError,
> {
    let lines = obj_line_seq(bytes);
    match obj_run(lines, 0, obj_init()) {
        Err(e) => Err(e),
        Ok(st) => match spec_flush(st, lines.len() as int) {
            Err(e) => Err(e),
            Ok(m) => Ok(st.meshes.push(m)),
        },
    }
}

/// A fresh vector holding bytes `a..b` of `v`.
fn copy_range(v: &Vec<u8>, a: usize, b: usize) -> (r: Vec<u8>)
    requires
        a <= b <= v@.len(),
    ensures
        r@ == v@.subrange(a as int, b as int),
{
    let mut r: Vec<u8> = Vec::new();
    let mut i: usize = a;
    while i < b
        invariant
            a <= i <= b <= v@.len(),
            r@ == v@.subrange(a as int, i as int),
        decreases b - i,
    {
        r.push(v[i]);
        proof {
            assert(r@ =~= v@.subrange(a as int, i + 1));
        }
        i = i + 1;
    }
    proof {
        assert(r@ =~= v@.subrange(a as int, b as int));
    }
    r
}

/// Splits `l` at every occurrence of the separator `c`.
fn split_bytes_vec(l: &Vec<u8>, c: u8) -> (toks: Vec<Vec<u8>>)
    ensures
        views_of(toks@) == split_bytes(l@, c),
{
    let len = l.len();
    let mut toks: Vec<Vec<u8>> = Vec::new();
    let mut s: usize = 0;
    proof {
        assert(l@.subrange(0, len as int) =~= l@);
        assert(views_of(toks@) + split_bytes(l@, c) =~= split_bytes(l@, c));
    }
    loop
        invariant_except_break
            s <= len,
            len == l@.len(),
            split_bytes(l@, c) == views_of(toks@) + split_bytes(
                l@.subrange(s as int, len as int),
                c,
            ),
        ensures
            views_of(toks@) == split_bytes(l@, c),
        decreases len - s,
    {
        let ghost seg = l@.subrange(s as int, len as int);
        let mut j: usize = s;
        while j < len && l[j] != c
            invariant
                s <= j <= len,
                len == l@.len(),
                forall|t: int| s <= t < j ==> l@[t] != c,
            decreases len - j,
        {
            j = j + 1;
        }
        proof {
            assert forall|t: int| 0 <= t < j - s implies seg[t] != c by {
                assert(seg[t] == l@[s + t]);
            }
            if (j as int) < len {
                assert(seg[j - s] == l@[j as int]);
            }
            lemma_find_byte_is_first(seg, c, j - s);
        }
        let tok = copy_range(l, s, j);
        toks.push(tok);
        if j < len {
            proof {
                assert(tok@ =~= seg.subrange(0, j - s));
                assert(seg.subrange(j - s + 1, seg.len() as int) =~= l@.subrange(
                    j + 1,
                    len as int,
                ));
                assert(views_of(toks@) =~= views_of(toks@.drop_last()) + seq![tok@]);
            }
            s = j + 1;
        } else {
            proof {
                assert(tok@ =~= seg);
                assert(split_bytes(seg, c) =~= seq![seg]);
                assert(views_of(toks@) =~= views_of(toks@.drop_last()) + seq![tok@]);
                assert(views_of(toks@) =~= split_bytes(l@, c));
            }
            break;
        }
    }
    toks
}

/// Flushes the gathered object data into one mesh, per `spec_flush`.
fn flush_mesh(
    temp_vertices: &Vec<PositionVertex>,
    temp_normals: &Vec<Normal>,
    vis: &Vec<usize>,
    nis: &Vec<usize>,
    flat: bool,
    line_no: usize,
    Ghost(st): Ghost<ObjState>,
) -> (r: Result<Mesh<PositionVertex>, ObjError>)
    requires
        st.verts == temp_vertices@,
        st.norms == temp_normals@,
        st.vis == ints_of(vis@),
        st.nis == ints_of(nis@),
        st.flat == flat,
    ensures
        r is Ok <==> spec_flush(st, line_no as int) is Ok,
        (r matches Ok(m) ==> (spec_flush(st, line_no as int) matches Ok(mm) && m.model() == mm
            && m.wf())),
        (r matches Err(e) ==> spec_flush(st, line_no as int) == Err::<
            MeshModel<PositionVertex>,
            ObjError,
        >(e)),
{
    let count = vis.len();
    if count != nis.len() || count % 3 != 0 {
        return Err(ObjError::Structure { line: line_no });
    }
    let mut j: usize = 0;
    while j < count
        invariant
            j <= count,
            count == vis@.len(),
            count == nis@.len(),
            count % 3 == 0,
            st.verts == temp_vertices@,
            st.norms == temp_normals@,
            st.vis == ints_of(vis@),
            st.nis == ints_of(nis@),
            forall|t: int| 0 <= t < j ==> (vis@[t] as int) < temp_vertices@.len(),
        decreases count - j,
    {
        if vis[j] >= temp_vertices.len() {
            proof {
                assert(st.vis[j as int] == vis@[j as int] as int);
            }
            return Err(ObjError::Structure { line: line_no });
        }
        j = j + 1;
    }
    let mut j: usize = 0;
    while j < count
        invariant
            j <= count,
            count == vis@.len(),
            count == nis@.len(),
            count % 3 == 0,
            st.verts == temp_vertices@,
            st.norms == temp_normals@,
            st.vis == ints_of(vis@),
            st.nis == ints_of(nis@),
            forall|t: int| 0 <= t < count ==> (vis@[t] as int) < temp_vertices@.len(),
            forall|t: int| 0 <= t < j ==> (nis@[t] as int) < temp_normals@.len(),
        decreases count - j,
    {
        if nis[j] >= temp_normals.len() {
            proof {
                assert(st.nis[j as int] == nis@[j as int] as int);
            }
            return Err(ObjError::Structure { line: line_no });
        }
        j = j + 1;
    }
    proof {
        assert forall|t: int| 0 <= t < st.vis.len() implies 0 <= #[trigger] st.vis[t]
            < st.verts.len() by {
            assert(st.vis[t] == vis@[t] as int);
        }
        assert forall|t: int| 0 <= t < st.nis.len() implies 0 <= #[trigger] st.nis[t]
            < st.norms.len() by {
            assert(st.nis[t] == nis@[t] as int);
        }
    }
    if count > (u32::MAX as usize) {
        return Err(ObjError::Structure { line: line_no });
    }

    let mut vertices: Vec<PositionVertex> = Vec::new();
    let mut j: usize = 0;
    while j < count
        invariant
            j <= count,
            count == vis@.len(),
            count == nis@.len(),
            forall|t: int| 0 <= t < count ==> (vis@[t] as int) < temp_vertices@.len(),
            vertices@.len() == j,
            forall|t: int| 0 <= t < j ==> vertices@[t] == temp_vertices@[vis@[t] as int],
        decreases count - j,
    {
        vertices.push(temp_vertices[vis[j]]);
        j = j + 1;
    }
    let mut normals: Vec<Normal> = Vec::new();
    let mut j: usize = 0;
    while j < count
        invariant
            j <= count,
            count == nis@.len(),
            forall|t: int| 0 <= t < count ==> (nis@[t] as int) < temp_normals@.len(),
            normals@.len() == j,
            forall|t: int| 0 <= t < j ==> normals@[t] == temp_normals@[nis@[t] as int],
        decreases count - j,
    {
        normals.push(temp_normals[nis[j]]);
        j = j + 1;
    }
    let mut indices: Vec<u32> = Vec::new();
    let mut j: usize = 0;
    while j < count
        invariant
            j <= count,
            count <= u32::MAX,
            indices@.len() == j,
            forall|t: int| 0 <= t < j ==> indices@[t] == t as u32,
        decreases count - j,
    {
        indices.push(j as u32);
        j = j + 1;
    }

    let mesh = Mesh { vertices, normals, indices };
    let ghost flushed = MeshModel {
        vertices: Seq::new(st.vis.len(), |t: int| st.verts[st.vis[t]]),
        normals: Seq::new(st.nis.len(), |t: int| st.norms[st.nis[t]]),
        indices: identity_indices(st.vis.len() as int),
    };
    proof {
        assert(mesh.model() =~= flushed);
        assert(mesh.wf());
    }
    if flat {
        proof {
            assert(spec_flush(st, line_no as int) == Ok::<_, ObjError>(flushed));
        }
        Ok(mesh)
    } else {
        let sm = mesh.smooth_shaded();
        proof {
            assert(spec_flush(st, line_no as int) == Ok::<_, ObjError>(
                smooth_shaded_model(flushed),
            ));
        }
        Ok(sm)
    }
}

/// The bytes of the OBJ file extension, dot included.
pub open spec fn obj_suffix() -> Seq<u8> {
    seq![DOT, LOWER_O, LOWER_B, LOWER_J]
}

/// Whether the path (as bytes) ends in the OBJ extension.
pub fn has_obj_extension(path: &Vec<u8>) -> (r: bool)
    ensures
        r == (path@.len() >= 4 && path@.subrange(path@.len() - 4, path@.len() as int)
            == obj_suffix()),
{
    let len = path.len();
    if len < 4 {
        return false;
    }
    let ghost tail = path@.subrange(path@.len() - 4, path@.len() as int);
    if path[len - 4] == DOT && path[len - 3] == LOWER_O && path[len - 2] == LOWER_B && path[len
        - 1] == LOWER_J {
        proof {
            assert(tail =~= obj_suffix());
        }
        true
    } else {
        proof {
            if tail == obj_suffix() {
                assert(tail[0] == DOT && tail[1] == LOWER_O && tail[2] == LOWER_B && tail[3]
                    == LOWER_J);
            }
        }
        false
    }
}

/// Whether the token is exactly `off`.
fn is_off_token(t: &Vec<u8>) -> (r: bool)
    ensures
        r == (t@ == off_token()),
{
    if t.len() == 3 && t[0] == LOWER_O && t[1] == LOWER_F && t[2] == LOWER_F {
        proof {
            assert(t@ =~= off_token());
        }
        true
    } else {
        proof {
            if t@ == off_token() {
                assert(t@.len() == 3);
                assert(t@[0] == LOWER_O && t@[1] == LOWER_F && t@[2] == LOWER_F);
            }
        }
        false
    }
}

/// One corner of a face line, per `parse_face_group`.
fn parse_face_corner(g: &Vec<u8>, voff: usize, noff: usize, line_no: usize) -> (r: Result<
    (usize, usize),
    ObjError,
>)
    ensures
        (r matches Ok(p) ==> parse_face_group(g@, voff as int, noff as int, line_no as int)
            == Ok::<(int, int), ObjError>((p.0 as int, p.1 as int))),
        (r matches Err(e) ==> parse_face_group(g@, voff as int, noff as int, line_no as int)
            == Err::<(int, int), ObjError>(e)),
{
    let parts = split_bytes_vec(g, SLASH);
    if parts.len() < 3 {
        return Err(ObjError::Face { line: line_no });
    }
    let v = match parse_usize_token(&parts[0]) {
        Option::Some(v) => v,
        Option::None => {
            return Err(ObjError::Number { line: line_no });
        },
    };
    if v <= voff {
        return Err(ObjError::Face { line: line_no });
    }
    let nrm = match parse_usize_token(&parts[2]) {
        Option::Some(nrm) => nrm,
        Option::None => {
            return Err(ObjError::Number { line: line_no });
        },
    };
    if nrm <= noff {
        return Err(ObjError::Face { line: line_no });
    }
    Ok((v - 1 - voff, nrm - 1 - noff))
}

/// The input's lines, per `obj_line_seq`.
fn obj_lines(bytes: &Vec<u8>) -> (lines: Vec<Vec<u8>>)
    ensures
        views_of(lines@) == obj_line_seq(bytes@),
{
    let mut parts = split_bytes_vec(bytes, LF);
    let ghost raw = views_of(parts@);
    if parts.len() > 0 && parts[parts.len() - 1].len() == 0 {
        parts.pop();
        proof {
            assert(views_of(parts@) =~= raw.drop_last());
        }
    }
    let ghost trimmed = views_of(parts@);
    let mut lines: Vec<Vec<u8>> = Vec::new();
    let mut i: usize = 0;
    let n = parts.len();
    while i < n
        invariant
            i <= n,
            parts@.len() == n,
            trimmed == views_of(parts@),
            lines@.len() == i,
            forall|j: int| 0 <= j < i ==> lines@[j]@ == strip_cr(trimmed[j]),
        decreases n - i,
    {
        let t = &parts[i];
        let tlen = t.len();
        if tlen > 0 && t[tlen - 1] == CR {
            let stripped = copy_range(t, 0, tlen - 1);
            proof {
                assert(stripped@ =~= strip_cr(trimmed[i as int]));
            }
            lines.push(stripped);
        } else {
            let whole = copy_range(t, 0, tlen);
            proof {
                assert(whole@ =~= trimmed[i as int]);
            }
            lines.push(whole);
        }
        i = i + 1;
    }
    proof {
        assert(views_of(lines@) =~= obj_line_seq(bytes@));
    }
    lines
}

/// Imports meshes from the bytes of an OBJ file, per `parse_obj_spec`: one
/// mesh per object block, in file order, or the error the first offending
/// line produces.
pub fn parse_obj(bytes: &Vec<u8>) -> (r: Result<Vec<Mesh<PositionVertex>>, ObjError>)
    ensures
        r is Ok <==> parse_obj_spec(bytes@) is Ok,
        (r matches Ok(ms) ==> (parse_obj_spec(bytes@) matches Ok(models) && models_of(ms@)
            == models && forall|j: int| 0 <= j < ms@.len() ==> (#[trigger] ms@[j]).wf())),
        (r matches Err(e) ==> parse_obj_spec(bytes@) == Err::<
            Seq<MeshModel<PositionVertex>>,
            ObjError,
        >(e)),
{
    let lines = obj_lines(bytes);
    let ghost lseq = obj_line_seq(bytes@);

    let mut result: Vec<Mesh<PositionVertex>> = Vec::new();
    let mut temp_vertices: Vec<PositionVertex> = Vec::new();
    let mut temp_normals: Vec<Normal> = Vec::new();
    let mut vertex_indices: Vec<usize> = Vec::new();
    let mut normal_indices: Vec<usize> = Vec::new();
    let mut vertex_index_offset: usize = 0;
    let mut normal_index_offset: usize = 0;
    let mut flat_shaded: bool = true;
    let ghost mut st = obj_init();
    proof {
        assert(st.vis =~= ints_of(vertex_indices@));
        assert(st.nis =~= ints_of(normal_indices@));
        assert(st.meshes =~= models_of(result@));
    }

    let n = lines.len();
    let mut i: usize = 0;
    while i < n
        invariant
            i <= n,
            n == lines@.len(),
            views_of(lines@) == lseq,
            lseq == obj_line_seq(bytes@),
            st.verts == temp_vertices@,
            st.norms == temp_normals@,
            st.vis == ints_of(vertex_indices@),
            st.nis == ints_of(normal_indices@),
            st.voff == vertex_index_offset as int,
            st.noff == normal_index_offset as int,
            st.flat == flat_shaded,
            st.meshes == models_of(result@),
            forall|j: int| 0 <= j < result@.len() ==> (#[trigger] result@[j]).wf(),
            obj_run(lseq, 0, obj_init()) == obj_run(lseq, i as int, st),
            st.voff + st.verts.len() <= i,
            st.noff + st.norms.len() <= i,
        decreases n - i,
    {
        let ghost old_st = st;
        let line = &lines[i];
        proof {
            assert(line@ == lseq[i as int]);
        }
        let line_no = i + 1;
        let llen = line.len();

        if llen >= 2 && line[0] == HASH && line[1] == SPACE {
            // comment: nothing changes
        } else if llen >= 2 && line[0] == LOWER_O && line[1] == SPACE {
            if vertex_indices.len() != normal_indices.len() || vertex_indices.len() % 3 != 0 {
                proof {
                    assert(obj_run(lseq, i as int, old_st) == Err::<ObjState, ObjError>(
                        ObjError::Structure { line: line_no },
                    ));
                }
                return Err(ObjError::Structure { line: line_no });
            }
            if temp_vertices.len() > 0 {
                let fr = flush_mesh(
                    &temp_vertices,
                    &temp_normals,
                    &vertex_indices,
                    &normal_indices,
                    flat_shaded,
                    line_no,
                    Ghost(st),
                );
                match fr {
                    Result::Err(e) => {
                        proof {
                            assert(obj_step(old_st, lseq[i as int], i + 1) == Err::<
                                ObjState,
                                ObjError,
                            >(e));
                            assert(obj_run(lseq, i as int, old_st) == Err::<ObjState, ObjError>(
                                e,
                            ));
                        }
                        return Err(e);
                    },
                    Result::Ok(m) => {
                        vertex_index_offset = vertex_index_offset + temp_vertices.len();
                        normal_index_offset = normal_index_offset + temp_normals.len();
                        temp_vertices = Vec::new();
                        temp_normals = Vec::new();
                        vertex_indices = Vec::new();
                        normal_indices = Vec::new();
                        result.push(m);
                        proof {
                            st = ObjState {
                                verts: Seq::empty(),
                                norms: Seq::empty(),
                                vis: Seq::empty(),
                                nis: Seq::empty(),
                                voff: old_st.voff + old_st.verts.len(),
                                noff: old_st.noff + old_st.norms.len(),
                                flat: old_st.flat,
                                meshes: old_st.meshes.push(m.model()),
                            };
                            assert(st.vis =~= ints_of(vertex_indices@));
                            assert(st.nis =~= ints_of(normal_indices@));
                            assert(st.meshes =~= models_of(result@));
                            assert(obj_step(old_st, lseq[i as int], i + 1) == Ok::<
                                ObjState,
                                ObjError,
                            >(st));
                        }
                    },
                }
            } else {
                proof {
                    assert(obj_step(old_st, lseq[i as int], i + 1) == Ok::<ObjState, ObjError>(
                        st,
                    ));
                }
            }
        } else if llen >= 2 && line[0] == LOWER_V && line[1] == SPACE {
            let toks = split_bytes_vec(line, SPACE);
            if toks.len() < 4 {
                proof {
                    assert(obj_run(lseq, i as int, old_st) == Err::<ObjState, ObjError>(
                        ObjError::Number { line: line_no },
                    ));
                }
                return Err(ObjError::Number { line: line_no });
            }
            let o1 = parse_scalar(&toks[1]);
            let o2 = parse_scalar(&toks[2]);
            let o3 = parse_scalar(&toks[3]);
            match (o1, o2, o3) {
                (Option::Some(x), Option::Some(y), Option::Some(z)) => {
                    temp_vertices.push(PositionVertex { position: Vector3 { x, y, z } });
                    proof {
                        st = ObjState { verts: old_st.verts.push(
                            PositionVertex { position: Vector3 { x, y, z } },
                        ), ..old_st };
                        assert(obj_step(old_st, lseq[i as int], i + 1) == Ok::<
                            ObjState,
                            ObjError,
                        >(st));
                    }
                },
                _ => {
                    proof {
                        assert(obj_run(lseq, i as int, old_st) == Err::<ObjState, ObjError>(
                            ObjError::Number { line: line_no },
                        ));
                    }
                    return Err(ObjError::Number { line: line_no });
                },
            }
        } else if llen >= 3 && line[0] == LOWER_V && line[1] == LOWER_N && line[2] == SPACE {
            let toks = split_bytes_vec(line, SPACE);
            if toks.len() < 4 {
                proof {
                    assert(obj_run(lseq, i as int, old_st) == Err::<ObjState, ObjError>(
                        ObjError::Number { line: line_no },
                    ));
                }
                return Err(ObjError::Number { line: line_no });
            }
            let o1 = parse_scalar(&toks[1]);
            let o2 = parse_scalar(&toks[2]);
            let o3 = parse_scalar(&toks[3]);
            match (o1, o2, o3) {
                (Option::Some(x), Option::Some(y), Option::Some(z)) => {
                    let raw = Vector3 { x, y, z };
                    let unit = raw.normalised();
                    temp_normals.push(Normal { normal: unit });
                    proof {
                        st = ObjState { norms: old_st.norms.push(
                            Normal { normal: raw.spec_normalised() },
                        ), ..old_st };
                        assert(obj_step(old_st, lseq[i as int], i + 1) == Ok::<
                            ObjState,
                            ObjError,
                        >(st));
                    }
                },
                _ => {
                    proof {
                        assert(obj_run(lseq, i as int, old_st) == Err::<ObjState, ObjError>(
                            ObjError::Number { line: line_no },
                        ));
                    }
                    return Err(ObjError::Number { line: line_no });
                },
            }
        } else if llen >= 2 && line[0] == LOWER_F && line[1] == SPACE {
            let toks = split_bytes_vec(line, SPACE);
            if toks.len() < 4 {
                proof {
                    assert(obj_run(lseq, i as int, old_st) == Err::<ObjState, ObjError>(
                        ObjError::Face { line: line_no },
                    ));
                }
                return Err(ObjError::Face { line: line_no });
            }
            let c1 = match parse_face_corner(
                &toks[1],
                vertex_index_offset,
                normal_index_offset,
                line_no,
            ) {
                Result::Ok(c) => c,
                Result::Err(e) => {
                    proof {
                        assert(obj_run(lseq, i as int, old_st) == Err::<ObjState, ObjError>(e));
                    }
                    return Err(e);
                },
            };
            let c2 = match parse_face_corner(
                &toks[2],
                vertex_index_offset,
                normal_index_offset,
                line_no,
            ) {
                Result::Ok(c) => c,
                Result::Err(e) => {
                    proof {
                        assert(obj_run(lseq, i as int, old_st) == Err::<ObjState, ObjError>(e));
                    }
                    return Err(e);
                },
            };
            let c3 = match parse_face_corner(
                &toks[3],
                vertex_index_offset,
                normal_index_offset,
                line_no,
            ) {
                Result::Ok(c) => c,
                Result::Err(e) => {
                    proof {
                        assert(obj_run(lseq, i as int, old_st) == Err::<ObjState, ObjError>(e));
                    }
                    return Err(e);
                },
            };
            vertex_indices.push(c1.0);
            normal_indices.push(c1.1);
            vertex_indices.push(c2.0);
            normal_indices.push(c2.1);
            vertex_indices.push(c3.0);
            normal_indices.push(c3.1);
            proof {
                st = ObjState {
                    vis: old_st.vis + seq![c1.0 as int, c2.0 as int, c3.0 as int],
                    nis: old_st.nis + seq![c1.1 as int, c2.1 as int, c3.1 as int],
                    ..old_st
                };
                assert(st.vis =~= ints_of(vertex_indices@));
                assert(st.nis =~= ints_of(normal_indices@));
                assert(obj_step(old_st, lseq[i as int], i + 1) == Ok::<ObjState, ObjError>(st));
            }
        } else if llen >= 2 && line[0] == LOWER_S && line[1] == SPACE {
            proof {
                lemma_split_bytes_at_least_two(line@, SPACE, 1);
            }
            let toks = split_bytes_vec(line, SPACE);
            flat_shaded = is_off_token(&toks[1]);
            proof {
                st = ObjState { flat: flat_shaded, ..old_st };
                assert(obj_step(old_st, lseq[i as int], i + 1) == Ok::<ObjState, ObjError>(st));
            }
        } else {
            proof {
                assert(obj_step(old_st, lseq[i as int], i + 1) == Ok::<ObjState, ObjError>(st));
            }
        }

        proof {
            assert(obj_run(lseq, i as int, old_st) == obj_run(lseq, i + 1, st));
        }
        i = i + 1;
    }

    let fr = flush_mesh(
        &temp_vertices,
        &temp_normals,
        &vertex_indices,
        &normal_indices,
        flat_shaded,
        n,
        Ghost(st),
    );
    proof {
        assert(obj_run(lseq, n as int, st) == Ok::<ObjState, ObjError>(st));
        assert(obj_run(lseq, 0, obj_init()) == Ok::<ObjState, ObjError>(st));
    }
    match fr {
        Result::Err(e) => {
            return Err(e);
        },
        Result::Ok(m) => {
            result.push(m);
            proof {
                assert(models_of(result@) =~= st.meshes.push(m.model()));
            }
            Ok(result)
        },
    }
}

} // verus!
