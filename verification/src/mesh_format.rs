//! The mesh description text format.
//!
//! A mesh arrives as a line-oriented text file: `v` lines give vertex
//! positions, `vn` vertex normals, `vt` texture coordinates, and `f` lines
//! give faces as 1-based index references `v`, `v/vt` or `v/vt/vn` into the
//! buffers read so far.  A face with more than three corners becomes a
//! triangle fan anchored at its first corner.
//!
//! The coordinates themselves are decimal text for the caller to read as
//! numbers; this module settles everything discrete about the format —
//! which lines mean what, how fields and index references split, which
//! references are in range, and exactly which triangles come out.
//! Malformed input is reported as a fatal load-time error; nothing here
//! panics.

use vstd::prelude::*;

verus! {

/// ASCII space, the field separator.
pub const SPACE: u8 = 0x20;

/// ASCII `/`, the separator inside a face index reference.
pub const SLASH: u8 = 0x2f;

/// ASCII `+`, an optional sign in front of an index.
pub const PLUS: u8 = 0x2b;

/// A token as one group: empty tokens vanish, others stand alone.
pub open spec fn spec_group(cur: Seq<u8>) -> Seq<Seq<u8>> {
    if cur.len() == 0 {
        Seq::empty()
    } else {
        seq![cur]
    }
}

/// Fields of `s` when a partial token `cur` is already in hand.
pub open spec fn spec_fields_acc(s: Seq<u8>, cur: Seq<u8>) -> Seq<Seq<u8>>
    decreases s.len(),
{
    if s.len() == 0 {
        spec_group(cur)
    } else if s[0] == SPACE {
        spec_group(cur) + spec_fields_acc(s.drop_first(), Seq::empty())
    } else {
        spec_fields_acc(s.drop_first(), cur.push(s[0]))
    }
}

/// The space-separated fields of `s`: its maximal runs of non-space bytes,
/// in order.
pub open spec fn spec_fields(s: Seq<u8>) -> Seq<Seq<u8>> {
    spec_fields_acc(s, Seq::empty())
}

/// Splits `line[from..]` into its space-separated fields.
pub fn split_fields(line: &Vec<u8>, from: usize) -> (r: Vec<Vec<u8>>)
    requires
        from <= line@.len(),
    ensures
        r.deep_view() == spec_fields(line@.skip(from as int)),
{
    let ghost whole = line@.skip(from as int);
    let mut out: Vec<Vec<u8>> = Vec::new();
    let mut cur: Vec<u8> = Vec::new();
    let mut i: usize = from;
    proof {
        assert(out.deep_view() + spec_fields_acc(whole, cur@) =~~= spec_fields_acc(whole, cur@));
    }
    while i < line.len()
        invariant
            from <= i <= line@.len(),
            whole == line@.skip(from as int),
            spec_fields(whole) == out.deep_view() + spec_fields_acc(line@.skip(i as int), cur@),
        decreases line@.len() - i,
    {
        let ghost rest = line@.skip(i as int);
        let ghost old_deep = out.deep_view();
        let ghost old_cur = cur@;
        proof {
            assert(rest[0] == line@[i as int]);
            assert(rest.drop_first() =~~= line@.skip(i + 1));
        }
        let b = line[i];
        if b == SPACE {
            if cur.len() > 0 {
                out.push(cur);
                cur = Vec::new();
                proof {
                    assert(out.deep_view() =~~= old_deep.push(old_cur));
                    assert(old_deep + (seq![old_cur] + spec_fields_acc(line@.skip(i + 1), cur@))
                        =~~= old_deep.push(old_cur) + spec_fields_acc(line@.skip(i + 1), cur@));
                    assert(spec_fields_acc(rest, old_cur) == spec_group(old_cur)
                        + spec_fields_acc(rest.drop_first(), Seq::empty()));
                    assert(spec_fields(whole) == out.deep_view()
                        + spec_fields_acc(line@.skip(i + 1), cur@));
                }
            } else {
                proof {
                    assert(old_cur =~= Seq::<u8>::empty());
                    assert(old_deep + (spec_group(old_cur) + spec_fields_acc(
                        line@.skip(i + 1),
                        Seq::empty(),
                    )) =~~= old_deep + spec_fields_acc(line@.skip(i + 1), Seq::empty()));
                    assert(spec_fields_acc(rest, old_cur) == spec_group(old_cur)
                        + spec_fields_acc(rest.drop_first(), Seq::empty()));
                    assert(spec_fields(whole) == out.deep_view()
                        + spec_fields_acc(line@.skip(i + 1), cur@));
                }
            }
        } else {
            cur.push(b);
            proof {
                assert(spec_fields_acc(rest, old_cur) == spec_fields_acc(
                    rest.drop_first(),
                    old_cur.push(rest[0]),
                ));
                assert(spec_fields_acc(rest, old_cur) == spec_fields_acc(line@.skip(i + 1), cur@));
                assert(spec_fields(whole) == out.deep_view()
                    + spec_fields_acc(line@.skip(i + 1), cur@));
            }
        }
        i = i + 1;
    }
    proof {
        assert(line@.skip(line@.len() as int) =~~= Seq::<u8>::empty());
    }
    let ghost old_deep = out.deep_view();
    let ghost old_cur = cur@;
    if cur.len() > 0 {
        out.push(cur);
        proof {
            assert(out.deep_view() =~~= old_deep.push(old_cur));
            assert(old_deep + spec_group(old_cur) =~~= old_deep.push(old_cur));
        }
    } else {
        proof {
            assert(old_deep + spec_group(old_cur) =~~= old_deep);
        }
    }
    out
}

/// Position of the first occurrence of `b` in `s`, if any.
pub open spec fn spec_find(s: Seq<u8>, b: u8) -> Option<int>
    decreases s.len(),
{
    if s.len() == 0 {
        None
    } else if s[0] == b {
        Some(0int)
    } else {
        match spec_find(s.drop_first(), b) {
            Some(i) => Some(i + 1),
            None => None,
        }
    }
}

/// A byte at `i` with none of its kind before it is the first occurrence.
proof fn lemma_find_hit(s: Seq<u8>, b: u8, i: int)
    requires
        0 <= i < s.len(),
        s[i] == b,
        forall|j: int| 0 <= j < i ==> s[j] != b,
    ensures
        spec_find(s, b) == Some(i),
    decreases s.len(),
{
    if i > 0 {
        lemma_find_hit(s.drop_first(), b, i - 1);
    }
}

/// A sequence without `b` has no first occurrence of it.
proof fn lemma_find_miss(s: Seq<u8>, b: u8)
    requires
        forall|j: int| 0 <= j < s.len() ==> s[j] != b,
    ensures
        spec_find(s, b) is None,
    decreases s.len(),
{
    if s.len() > 0 {
        lemma_find_miss(s.drop_first(), b);
    }
}

/// Finds the first occurrence of `b` in `tok`.
pub fn find_byte(tok: &Vec<u8>, b: u8) -> (r: Option<usize>)
    ensures
        match r {
            Some(i) => spec_find(tok@, b) == Some(i as int),
            None => spec_find(tok@, b) is None,
        },
{
    let mut i: usize = 0;
    while i < tok.len()
        invariant
            i <= tok@.len(),
            forall|j: int| 0 <= j < i ==> tok@[j] != b,
        decreases tok@.len() - i,
    {
        if tok[i] == b {
            proof {
                lemma_find_hit(tok@, b, i as int);
            }
            return Some(i);
        }
        i = i + 1;
    }
    proof {
        lemma_find_miss(tok@, b);
    }
    None
}

/// Every byte of `s` is a decimal digit.
pub open spec fn spec_digits(s: Seq<u8>) -> bool {
    forall|i: int| 0 <= i < s.len() ==> 0x30 <= #[trigger] s[i] <= 0x39
}

/// The number the decimal digits of `s` denote, most significant first.
pub open spec fn spec_digits_value(s: Seq<u8>) -> int
    decreases s.len(),
{
    if s.len() == 0 {
        0
    } else {
        spec_digits_value(s.drop_last()) * 10 + (s.last() - 0x30)
    }
}

/// The digits of an index reference, once an optional leading `+` sign is
/// stripped.
pub open spec fn spec_index_digits(s: Seq<u8>) -> Seq<u8> {
    if s.len() > 0 && s[0] == PLUS {
        s.drop_first()
    } else {
        s
    }
}

/// Whether `s` is a well-formed machine-sized index: an optional `+`, then
/// at least one digit, denoting a value the machine can hold.
pub open spec fn spec_is_index(s: Seq<u8>) -> bool {
    let d = spec_index_digits(s);
    d.len() > 0 && spec_digits(d) && spec_digits_value(d) <= usize::MAX
}

/// The value an index reference denotes.
pub open spec fn spec_index_value(s: Seq<u8>) -> int {
    spec_digits_value(spec_index_digits(s))
}

/// A longer run of digits never denotes a smaller number.
proof fn lemma_digits_value_monotonic(d: Seq<u8>, k: int)
    requires
        0 <= k <= d.len(),
        spec_digits(d),
    ensures
        spec_digits_value(d.take(k)) <= spec_digits_value(d),
        spec_digits_value(d) >= 0,
    decreases d.len(),
{
    if d.len() == 0 {
        assert(d.take(k) =~= d);
    } else if k == d.len() {
        assert(d.take(k) =~= d);
        lemma_digits_value_monotonic(d.drop_last(), d.len() - 1);
    } else {
        lemma_digits_value_monotonic(d.drop_last(), k);
        assert(d.drop_last().take(k) =~= d.take(k));
        assert(spec_digits_value(d) == spec_digits_value(d.drop_last()) * 10 + (d.last() - 0x30));
        assert(spec_digits_value(d.drop_last()) * 10 >= spec_digits_value(d.drop_last()));
    }
}

/// Reads an index reference.  Returns its value exactly when the reference
/// is well formed and fits the machine, and nothing otherwise.
pub fn parse_index(tok: &Vec<u8>) -> (r: Option<usize>)
    ensures
        match r {
            Some(n) => spec_is_index(tok@) && n == spec_index_value(tok@),
            None => !spec_is_index(tok@),
        },
{
    let start: usize = if tok.len() > 0 && tok[0] == PLUS {
        1
    } else {
        0
    };
    let ghost d = spec_index_digits(tok@);
    proof {
        assert(d =~= tok@.skip(start as int));
    }
    if tok.len() == start {
        return None;
    }
    let mut acc: usize = 0;
    let mut i: usize = start;
    while i < tok.len()
        invariant
            start <= i <= tok@.len(),
            d == spec_index_digits(tok@),
            d =~= tok@.skip(start as int),
            acc == spec_digits_value(d.take(i - start)),
            spec_digits(d.take(i - start)),
        decreases tok@.len() - i,
    {
        let b = tok[i];
        let ghost k = i - start;
        proof {
            assert(d[k] == tok@[i as int]);
            assert(d.take(k + 1).drop_last() =~= d.take(k));
            assert(d.take(k + 1).last() == d[k]);
        }
        if b < 0x30 || b > 0x39 {
            proof {
                assert(!spec_digits(d));
            }
            return None;
        }
        let digit = (b - 0x30) as usize;
        let next = match acc.checked_mul(10) {
            None => None,
            Some(shifted) => shifted.checked_add(digit),
        };
        match next {
            None => {
                proof {
                    assert(spec_digits(d.take(k + 1)));
                    assert(spec_digits_value(d.take(k + 1)) > usize::MAX);
                    if spec_digits(d) {
                        lemma_digits_value_monotonic(d, k + 1);
                    }
                }
                return None;
            },
            Some(n) => {
                acc = n;
            },
        }
        i = i + 1;
    }
    proof {
        assert(d.take(tok@.len() - start) =~= d);
    }
    Some(acc)
}

// ---------------------------------------------------------------------------
// The parsed mesh: coordinates as text, structure resolved.
// ---------------------------------------------------------------------------

/// ASCII `v`.
pub const LOWER_V: u8 = 0x76;

/// ASCII `f`.
pub const LOWER_F: u8 = 0x66;

/// ASCII `n`.
pub const LOWER_N: u8 = 0x6e;

/// ASCII `t`.
pub const LOWER_T: u8 = 0x74;

/// A point or direction as three coordinate fields of decimal text.
#[derive(Debug)]
pub struct VertexText {
    pub x: Vec<u8>,
    pub y: Vec<u8>,
    pub z: Vec<u8>,
}

/// A surface coordinate pair as two fields of decimal text.
#[derive(Debug)]
pub struct UvText {
    pub u: Vec<u8>,
    pub v: Vec<u8>,
}

/// The three per-corner normals of one triangle.
#[derive(Debug)]
pub struct CornerNormalsText {
    pub a: VertexText,
    pub b: VertexText,
    pub c: VertexText,
}

/// The three per-corner surface coordinates of one triangle.
#[derive(Debug)]
pub struct CornerUvsText {
    pub a: UvText,
    pub b: UvText,
    pub c: UvText,
}

/// One triangle with its corner data fully resolved: the index references
/// of the face line are already replaced by the records they named.
#[derive(Debug)]
pub struct TriangleText {
    pub vert_a: VertexText,
    pub vert_b: VertexText,
    pub vert_c: VertexText,
    pub normals: Option<CornerNormalsText>,
    pub uvs: Option<CornerUvsText>,
}

/// The triangles of a parsed mesh description, in file order.
#[derive(Debug)]
pub struct MeshText {
    pub triangles: Vec<TriangleText>,
}

/// Mathematical image of a `VertexText`.
pub ghost struct VertexTextView {
    pub x: Seq<u8>,
    pub y: Seq<u8>,
    pub z: Seq<u8>,
}

/// Mathematical image of a `UvText`.
pub ghost struct UvTextView {
    pub u: Seq<u8>,
    pub v: Seq<u8>,
}

/// Mathematical image of a `CornerNormalsText`.
pub ghost struct CornerNormalsTextView {
    pub a: VertexTextView,
    pub b: VertexTextView,
    pub c: VertexTextView,
}

/// Mathematical image of a `CornerUvsText`.
pub ghost struct CornerUvsTextView {
    pub a: UvTextView,
    pub b: UvTextView,
    pub c: UvTextView,
}

/// Mathematical image of a `TriangleText`.
pub ghost struct TriangleTextView {
    pub vert_a: VertexTextView,
    pub vert_b: VertexTextView,
    pub vert_c: VertexTextView,
    pub normals: Option<CornerNormalsTextView>,
    pub uvs: Option<CornerUvsTextView>,
}

impl View for VertexText {
    type V = VertexTextView;

    open spec fn view(&self) -> VertexTextView {
        VertexTextView { x: self.x@, y: self.y@, z: self.z@ }
    }
}

impl DeepView for VertexText {
    type V = VertexTextView;

    open spec fn deep_view(&self) -> VertexTextView {
        self.view()
    }
}

impl View for UvText {
    type V = UvTextView;

    open spec fn view(&self) -> UvTextView {
        UvTextView { u: self.u@, v: self.v@ }
    }
}

impl DeepView for UvText {
    type V = UvTextView;

    open spec fn deep_view(&self) -> UvTextView {
        self.view()
    }
}

impl View for CornerNormalsText {
    type V = CornerNormalsTextView;

    open spec fn view(&self) -> CornerNormalsTextView {
        CornerNormalsTextView { a: self.a@, b: self.b@, c: self.c@ }
    }
}

impl View for CornerUvsText {
    type V = CornerUvsTextView;

    open spec fn view(&self) -> CornerUvsTextView {
        CornerUvsTextView { a: self.a@, b: self.b@, c: self.c@ }
    }
}

impl View for TriangleText {
    type V = TriangleTextView;

    open spec fn view(&self) -> TriangleTextView {
        TriangleTextView {
            vert_a: self.vert_a@,
            vert_b: self.vert_b@,
            vert_c: self.vert_c@,
            normals: match self.normals {
                Some(ref n) => Some(n@),
                None => None,
            },
            uvs: match self.uvs {
                Some(ref u) => Some(u@),
                None => None,
            },
        }
    }
}

impl DeepView for TriangleText {
    type V = TriangleTextView;

    open spec fn deep_view(&self) -> TriangleTextView {
        self.view()
    }
}

impl View for MeshText {
    type V = Seq<TriangleTextView>;

    open spec fn view(&self) -> Seq<TriangleTextView> {
        self.triangles.deep_view()
    }
}

/// Why a mesh description was rejected.  Any malformed line is fatal to the
/// whole load; the variant carries the zero-based line number.
#[derive(Clone, Copy, Debug, PartialEq, Eq, Structural)]
pub enum MeshParseError {
    /// A non-empty line of fewer than two bytes, too short to classify.
    TruncatedLine { line_no: usize },
    /// A position or normal line without exactly three coordinate fields.
    BadVertex { line_no: usize },
    /// A texture-coordinate line with fewer than two fields.
    BadUv { line_no: usize },
    /// A face reference that is not an index the machine can hold.
    BadIndex { line_no: usize },
    /// A face reference naming a record that was not read before the face.
    UnknownIndex { line_no: usize },
    /// A face with fewer than three corners.
    ShortFace { line_no: usize },
    /// A face where only some corners carry a normal or texture index.
    RaggedFace { line_no: usize },
}

/// Everything read so far: the three record buffers and the triangles
/// already assembled.
pub ghost struct MeshStateView {
    pub vbo: Seq<VertexTextView>,
    pub normals: Seq<VertexTextView>,
    pub uvs: Seq<UvTextView>,
    pub triangles: Seq<TriangleTextView>,
}

impl MeshStateView {
    /// The state before any line is read.
    pub open spec fn init() -> MeshStateView {
        MeshStateView {
            vbo: Seq::empty(),
            normals: Seq::empty(),
            uvs: Seq::empty(),
            triangles: Seq::empty(),
        }
    }
}

/// A position or normal line's payload: exactly three coordinate fields.
pub open spec fn spec_vertex_line(toks: Seq<Seq<u8>>) -> Option<VertexTextView> {
    if toks.len() == 3 {
        Some(VertexTextView { x: toks[0], y: toks[1], z: toks[2] })
    } else {
        None
    }
}

/// One corner of a face, as the values of its index references.
pub ghost struct FaceRefView {
    pub v: int,
    pub vt: Option<int>,
    pub vn: Option<int>,
}

/// How one face token splits at its slashes: the position slice, and the
/// texture and normal slices where present.  A token `a/b` keeps only the
/// position: without a second slash the middle part is dropped, and an
/// empty part between slashes is treated as absent.
pub open spec fn spec_face_slices(tok: Seq<u8>) -> (Seq<u8>, Option<Seq<u8>>, Option<Seq<u8>>) {
    match spec_find(tok, SLASH) {
        None => (tok, None, None),
        Some(i) => {
            let v = tok.take(i);
            let rest = tok.skip(i + 1);
            if rest.len() == 0 {
                (v, None, None)
            } else {
                match spec_find(rest, SLASH) {
                    None => (v, None, None),
                    Some(j) => {
                        let vt = rest.take(j);
                        let vn = rest.skip(j + 1);
                        (
                            v,
                            if vt.len() > 0 {
                                Some(vt)
                            } else {
                                None
                            },
                            if vn.len() > 0 {
                                Some(vn)
                            } else {
                                None
                            },
                        )
                    },
                }
            }
        },
    }
}

/// The index values one face token denotes, or nothing if any present part
/// is not a well-formed index.
pub open spec fn spec_face_ref(tok: Seq<u8>) -> Option<FaceRefView> {
    let (v, vt, vn) = spec_face_slices(tok);
    if !spec_is_index(v) {
        None
    } else if match vt {
        Some(s) => !spec_is_index(s),
        None => false,
    } {
        None
    } else if match vn {
        Some(s) => !spec_is_index(s),
        None => false,
    } {
        None
    } else {
        Some(
            FaceRefView {
                v: spec_index_value(v),
                vt: match vt {
                    Some(s) => Some(spec_index_value(s)),
                    None => None,
                },
                vn: match vn {
                    Some(s) => Some(spec_index_value(s)),
                    None => None,
                },
            },
        )
    }
}

/// The corners of a face line, or nothing if any token is malformed.
pub open spec fn spec_face_refs(toks: Seq<Seq<u8>>) -> Option<Seq<FaceRefView>>
    decreases toks.len(),
{
    if toks.len() == 0 {
        Some(Seq::empty())
    } else {
        match spec_face_refs(toks.drop_last()) {
            None => None,
            Some(s) => match spec_face_ref(toks.last()) {
                None => None,
                Some(fr) => Some(s.push(fr)),
            },
        }
    }
}

/// The position indices of a face, in corner order.
pub open spec fn spec_vs_of(refs: Seq<FaceRefView>) -> Seq<int>
    decreases refs.len(),
{
    if refs.len() == 0 {
        Seq::empty()
    } else {
        spec_vs_of(refs.drop_last()).push(refs.last().v)
    }
}

/// The texture indices of those corners that carry one, in corner order.
pub open spec fn spec_vts_of(refs: Seq<FaceRefView>) -> Seq<int>
    decreases refs.len(),
{
    if refs.len() == 0 {
        Seq::empty()
    } else {
        spec_vts_of(refs.drop_last()) + match refs.last().vt {
            Some(n) => seq![n],
            None => Seq::empty(),
        }
    }
}

/// The normal indices of those corners that carry one, in corner order.
pub open spec fn spec_vns_of(refs: Seq<FaceRefView>) -> Seq<int>
    decreases refs.len(),
{
    if refs.len() == 0 {
        Seq::empty()
    } else {
        spec_vns_of(refs.drop_last()) + match refs.last().vn {
            Some(n) => seq![n],
            None => Seq::empty(),
        }
    }
}

/// Every 1-based index refers to a record already read.
pub open spec fn spec_refs_in_range(ns: Seq<int>, limit: int) -> bool {
    forall|k: int| 0 <= k < ns.len() ==> 1 <= #[trigger] ns[k] <= limit
}

/// The triangle fan of a face: corner 0 is the anchor, and corners
/// `i + 1`, `i + 2` complete triangle `i`.  Normals and texture
/// coordinates attach only when the face carries them for every corner.
pub open spec fn spec_fan(
    st: MeshStateView,
    vs: Seq<int>,
    vts: Seq<int>,
    vns: Seq<int>,
) -> Seq<TriangleTextView> {
    Seq::new(
        (vs.len() - 2) as nat,
        |i: int|
            TriangleTextView {
                vert_a: st.vbo[vs[0] - 1],
                vert_b: st.vbo[vs[i + 1] - 1],
                vert_c: st.vbo[vs[i + 2] - 1],
                normals: if vns.len() > 0 {
                    Some(
                        CornerNormalsTextView {
                            a: st.normals[vns[0] - 1],
                            b: st.normals[vns[i + 1] - 1],
                            c: st.normals[vns[i + 2] - 1],
                        },
                    )
                } else {
                    None
                },
                uvs: if vts.len() > 0 {
                    Some(
                        CornerUvsTextView {
                            a: st.uvs[vts[0] - 1],
                            b: st.uvs[vts[i + 1] - 1],
                            c: st.uvs[vts[i + 2] - 1],
                        },
                    )
                } else {
                    None
                },
            },
    )
}

/// What one face line does to the state.
pub open spec fn spec_face_line(
    st: MeshStateView,
    toks: Seq<Seq<u8>>,
    line_no: usize,
) -> Result<MeshStateView, MeshParseError> {
    match spec_face_refs(toks) {
        None => Err(MeshParseError::BadIndex { line_no }),
        Some(refs) => {
            let vs = spec_vs_of(refs);
            let vts = spec_vts_of(refs);
            let vns = spec_vns_of(refs);
            if vs.len() < 3 {
                Err(MeshParseError::ShortFace { line_no })
            } else if (vts.len() != 0 && vts.len() != vs.len()) || (vns.len() != 0 && vns.len()
                != vs.len()) {
                Err(MeshParseError::RaggedFace { line_no })
            } else if !(spec_refs_in_range(vs, st.vbo.len() as int) && spec_refs_in_range(
                vts,
                st.uvs.len() as int,
            ) && spec_refs_in_range(vns, st.normals.len() as int)) {
                Err(MeshParseError::UnknownIndex { line_no })
            } else {
                Ok(MeshStateView { triangles: st.triangles + spec_fan(st, vs, vts, vns), ..st })
            }
        },
    }
}

/// What one line does to the state: empty lines and lines of unknown kind
/// pass it through, the four record kinds extend it, anything malformed is
/// a fatal error.
pub open spec fn spec_line_step(
    st: MeshStateView,
    line: Seq<u8>,
    line_no: usize,
) -> Result<MeshStateView, MeshParseError> {
    if line.len() == 0 {
        Ok(st)
    } else if line.len() == 1 {
        Err(MeshParseError::TruncatedLine { line_no })
    } else {
        let toks = spec_fields(line.skip(2));
        if line[0] == LOWER_V && line[1] == SPACE {
            match spec_vertex_line(toks) {
                Some(v) => Ok(MeshStateView { vbo: st.vbo.push(v), ..st }),
                None => Err(MeshParseError::BadVertex { line_no }),
            }
        } else if line[0] == LOWER_F && line[1] == SPACE {
            spec_face_line(st, toks, line_no)
        } else if line[0] == LOWER_V && line[1] == LOWER_N {
            match spec_vertex_line(toks) {
                Some(v) => Ok(MeshStateView { normals: st.normals.push(v), ..st }),
                None => Err(MeshParseError::BadVertex { line_no }),
            }
        } else if line[0] == LOWER_V && line[1] == LOWER_T {
            if toks.len() >= 2 {
                Ok(
                    MeshStateView {
                        uvs: st.uvs.push(UvTextView { u: toks[0], v: toks[1] }),
                        ..st
                    },
                )
            } else {
                Err(MeshParseError::BadUv { line_no })
            }
        } else {
            Ok(st)
        }
    }
}

/// The state after the first `n` lines.
pub open spec fn spec_parse_lines(lines: Seq<Seq<u8>>, n: int) -> Result<
    MeshStateView,
    MeshParseError,
>
    decreases n,
{
    if n <= 0 {
        Ok(MeshStateView::init())
    } else {
        match spec_parse_lines(lines, n - 1) {
            Err(e) => Err(e),
            Ok(st) => spec_line_step(st, lines[n - 1], (n - 1) as usize),
        }
    }
}

/// The triangles a whole mesh description denotes, or the error on the
/// first malformed line.
pub open spec fn spec_parse_mesh(lines: Seq<Seq<u8>>) -> Result<
    Seq<TriangleTextView>,
    MeshParseError,
> {
    match spec_parse_lines(lines, lines.len() as int) {
        Ok(st) => Ok(st.triangles),
        Err(e) => Err(e),
    }
}

// ---------------------------------------------------------------------------
// The parser.
// ---------------------------------------------------------------------------

/// A byte vector's deep view is its view.
broadcast proof fn lemma_bytes_deep_view(v: Vec<u8>)
    ensures
        #[trigger] v.deep_view() == v@,
{
    assert(v.deep_view() =~= v@);
}

/// Copies a byte vector.
fn clone_bytes(v: &Vec<u8>) -> (r: Vec<u8>)
    ensures
        r@ == v@,
{
    let mut out: Vec<u8> = Vec::new();
    let mut i: usize = 0;
    while i < v.len()
        invariant
            i <= v@.len(),
            out@ == v@.take(i as int),
        decreases v@.len() - i,
    {
        out.push(v[i]);
        i = i + 1;
        proof {
            assert(v@.take(i as int) =~= v@.take(i - 1).push(v@[i - 1]));
        }
    }
    proof {
        assert(v@.take(v@.len() as int) =~= v@);
    }
    out
}

/// Copies the byte range `[from, to)` of `v`.
fn bytes_range(v: &Vec<u8>, from: usize, to: usize) -> (r: Vec<u8>)
    requires
        from <= to <= v@.len(),
    ensures
        r@ == v@.subrange(from as int, to as int),
{
    let mut out: Vec<u8> = Vec::new();
    let mut i: usize = from;
    while i < to
        invariant
            from <= i <= to <= v@.len(),
            out@ == v@.subrange(from as int, i as int),
        decreases to - i,
    {
        out.push(v[i]);
        i = i + 1;
        proof {
            assert(v@.subrange(from as int, i as int) =~= v@.subrange(
                from as int,
                i - 1,
            ).push(v@[i - 1]));
        }
    }
    out
}

/// Copies a vertex record.
fn clone_vertex(v: &VertexText) -> (r: VertexText)
    ensures
        r@ == v@,
{
    VertexText { x: clone_bytes(&v.x), y: clone_bytes(&v.y), z: clone_bytes(&v.z) }
}

/// Copies a surface-coordinate record.
fn clone_uv(v: &UvText) -> (r: UvText)
    ensures
        r@ == v@,
{
    UvText { u: clone_bytes(&v.u), v: clone_bytes(&v.v) }
}

/// Reads a position or normal payload: exactly three coordinate fields.
fn vertex_from_tokens(toks: Vec<Vec<u8>>) -> (r: Option<VertexText>)
    ensures
        match r {
            Some(v) => spec_vertex_line(toks.deep_view()) == Some(v@),
            None => spec_vertex_line(toks.deep_view()) is None,
        },
{
    broadcast use lemma_bytes_deep_view;

    if toks.len() != 3 {
        return None;
    }
    let mut t = toks;
    let z = t.pop().unwrap();
    let y = t.pop().unwrap();
    let x = t.pop().unwrap();
    Some(VertexText { x, y, z })
}

/// The values of a machine-sized index sequence.
pub open spec fn spec_usizes(s: Seq<usize>) -> Seq<int> {
    Seq::new(s.len(), |i: int| s[i] as int)
}

/// A found byte lies inside the sequence.
proof fn lemma_find_props(s: Seq<u8>, b: u8)
    ensures
        match spec_find(s, b) {
            Some(i) => 0 <= i < s.len() && s[i] == b,
            None => true,
        },
    decreases s.len(),
{
    if s.len() > 0 && s[0] != b {
        lemma_find_props(s.drop_first(), b);
    }
}

/// A malformed token anywhere dooms the whole face line.
proof fn lemma_face_refs_none(toks: Seq<Seq<u8>>, n: int)
    requires
        0 <= n <= toks.len(),
        spec_face_refs(toks.take(n)) is None,
    ensures
        spec_face_refs(toks) is None,
    decreases toks.len() - n,
{
    if n < toks.len() {
        assert(toks.take(n + 1).drop_last() =~= toks.take(n));
        lemma_face_refs_none(toks, n + 1);
    } else {
        assert(toks.take(n) =~= toks);
    }
}

/// An error at any line is the result for every longer prefix.
proof fn lemma_parse_lines_err(lines: Seq<Seq<u8>>, n: int, m: int)
    requires
        0 <= n <= m,
        spec_parse_lines(lines, n) is Err,
    ensures
        spec_parse_lines(lines, m) == spec_parse_lines(lines, n),
    decreases m - n,
{
    if m > n {
        lemma_parse_lines_err(lines, n, m - 1);
    }
}

/// Checks that every index in `ns` refers to one of `limit` records.
fn refs_in_range(ns: &Vec<usize>, limit: usize) -> (ok: bool)
    ensures
        ok == spec_refs_in_range(spec_usizes(ns@), limit as int),
{
    let mut k: usize = 0;
    while k < ns.len()
        invariant
            k <= ns@.len(),
            forall|m: int| 0 <= m < k ==> 1 <= #[trigger] ns@[m] <= limit,
        decreases ns@.len() - k,
    {
        let n = ns[k];
        if n < 1 || n > limit {
            proof {
                assert(spec_usizes(ns@)[k as int] == ns@[k as int] as int);
                assert(!spec_refs_in_range(spec_usizes(ns@), limit as int));
            }
            return false;
        }
        k = k + 1;
    }
    proof {
        assert forall|m: int| 0 <= m < spec_usizes(ns@).len() implies 1 <= #[trigger] spec_usizes(
            ns@,
        )[m] <= limit by {
            assert(spec_usizes(ns@)[m] == ns@[m] as int);
        }
    }
    true
}

/// The record buffers and triangles accumulated while reading a mesh
/// description.
struct MeshBuilder {
    vbo: Vec<VertexText>,
    normals: Vec<VertexText>,
    uvs: Vec<UvText>,
    triangles: Vec<TriangleText>,
}

impl View for MeshBuilder {
    type V = MeshStateView;

    closed spec fn view(&self) -> MeshStateView {
        MeshStateView {
            vbo: self.vbo.deep_view(),
            normals: self.normals.deep_view(),
            uvs: self.uvs.deep_view(),
            triangles: self.triangles.deep_view(),
        }
    }
}

/// Reads one face token: the index values of its present parts.
fn parse_face_token(tok: &Vec<u8>) -> (r: Option<(usize, Option<usize>, Option<usize>)>)
    ensures
        match r {
            Some(t) => spec_face_ref(tok@) == Some(
                FaceRefView {
                    v: t.0 as int,
                    vt: match t.1 {
                        Some(n) => Some(n as int),
                        None => None,
                    },
                    vn: match t.2 {
                        Some(n) => Some(n as int),
                        None => None,
                    },
                },
            ),
            None => spec_face_ref(tok@) is None,
        },
{
    match find_byte(tok, SLASH) {
        None => match parse_index(tok) {
            None => None,
            Some(n) => Some((n, None, None)),
        },
        Some(i) => {
            let tok_len = tok.len();
            proof {
                lemma_find_props(tok@, SLASH);
                assert(i < tok_len);
            }
            let v_slice = bytes_range(tok, 0, i);
            let rest = bytes_range(tok, i + 1, tok_len);
            proof {
                assert(v_slice@ =~= tok@.take(i as int));
                assert(rest@ =~= tok@.skip(i + 1));
            }
            let mut vt_slice: Option<Vec<u8>> = None;
            let mut vn_slice: Option<Vec<u8>> = None;
            if rest.len() > 0 {
                match find_byte(&rest, SLASH) {
                    None => {},
                    Some(k) => {
                        proof {
                            lemma_find_props(rest@, SLASH);
                        }
                        let rest_len = rest.len();
                        proof {
                            assert(k < rest_len);
                        }
                        let vt_s = bytes_range(&rest, 0, k);
                        let vn_s = bytes_range(&rest, k + 1, rest_len);
                        proof {
                            assert(vt_s@ =~= rest@.take(k as int));
                            assert(vn_s@ =~= rest@.skip(k + 1));
                        }
                        if vt_s.len() > 0 {
                            vt_slice = Some(vt_s);
                        }
                        if vn_s.len() > 0 {
                            vn_slice = Some(vn_s);
                        }
                    },
                }
            }
            let v_val = match parse_index(&v_slice) {
                None => {
                    return None;
                },
                Some(n) => n,
            };
            let vt_val = match vt_slice {
                None => None,
                Some(s) => match parse_index(&s) {
                    None => {
                        return None;
                    },
                    Some(n) => Some(n),
                },
            };
            let vn_val = match vn_slice {
                None => None,
                Some(s) => match parse_index(&s) {
                    None => {
                        return None;
                    },
                    Some(n) => Some(n),
                },
            };
            Some((v_val, vt_val, vn_val))
        },
    }
}

/// Applies one face line to the state: parses every corner token, checks
/// the corner count, the per-corner attribute counts and the index ranges,
/// and appends the face's triangle fan.
fn apply_face_line(b: &mut MeshBuilder, line: &Vec<u8>, line_no: usize) -> (r: Result<
    (),
    MeshParseError,
>)
    requires
        2 <= line@.len(),
    ensures
        match r {
            Ok(_) => spec_face_line(old(b)@, spec_fields(line@.skip(2)), line_no) == Ok::<
                MeshStateView,
                MeshParseError,
            >(final(b)@),
            Err(e) => spec_face_line(old(b)@, spec_fields(line@.skip(2)), line_no) == Err::<
                MeshStateView,
                MeshParseError,
            >(e) && final(b)@ == old(b)@,
        },
{
    broadcast use lemma_bytes_deep_view;

    let toks = split_fields(line, 2);
    let ghost tv = toks.deep_view();
    let mut vs: Vec<usize> = Vec::new();
    let mut vts: Vec<usize> = Vec::new();
    let mut vns: Vec<usize> = Vec::new();
    let ghost mut refs: Seq<FaceRefView> = Seq::empty();
    proof {
        assert(tv.take(0) =~= Seq::<Seq<u8>>::empty());
        assert(spec_usizes(vs@) =~= spec_vs_of(refs));
        assert(spec_usizes(vts@) =~= spec_vts_of(refs));
        assert(spec_usizes(vns@) =~= spec_vns_of(refs));
    }
    let mut j: usize = 0;
    while j < toks.len()
        invariant
            j <= toks@.len(),
            toks@.len() == tv.len(),
            tv == toks.deep_view(),
            tv == spec_fields(line@.skip(2)),
            b@ == old(b)@,
            spec_face_refs(tv.take(j as int)) == Some(refs),
            spec_usizes(vs@) == spec_vs_of(refs),
            spec_usizes(vts@) == spec_vts_of(refs),
            spec_usizes(vns@) == spec_vns_of(refs),
        decreases toks@.len() - j,
    {
        let tok = &toks[j];
        proof {
            assert(tv[j as int] == toks@[j as int].deep_view());
            assert(tok@ == tv[j as int]);
            assert(tv.take(j + 1).drop_last() =~= tv.take(j as int));
            assert(tv.take(j + 1).last() == tv[j as int]);
        }
        match parse_face_token(tok) {
            None => {
                proof {
                    assert(spec_face_refs(tv.take(j + 1)) is None);
                    lemma_face_refs_none(tv, j + 1);
                }
                return Err(MeshParseError::BadIndex { line_no });
            },
            Some(t) => {
                let (v_n, vt_n, vn_n) = t;
                let ghost fr = FaceRefView {
                    v: v_n as int,
                    vt: match vt_n {
                        Some(n) => Some(n as int),
                        None => None,
                    },
                    vn: match vn_n {
                        Some(n) => Some(n as int),
                        None => None,
                    },
                };
                let ghost old_vs = vs@;
                let ghost old_vts = vts@;
                let ghost old_vns = vns@;
                vs.push(v_n);
                if let Some(n) = vt_n {
                    vts.push(n);
                }
                if let Some(n) = vn_n {
                    vns.push(n);
                }
                proof {
                    let refs2 = refs.push(fr);
                    assert(refs2.drop_last() =~= refs);
                    assert(spec_face_refs(tv.take(j + 1)) == Some(refs2));
                    assert(spec_usizes(vs@) =~= spec_usizes(old_vs).push(v_n as int));
                    assert(spec_vs_of(refs2) == spec_vs_of(refs).push(fr.v));
                    match fr.vt {
                        Some(n) => {
                            assert(spec_usizes(vts@) =~= spec_usizes(old_vts).push(n));
                            assert(spec_vts_of(refs2) =~= spec_vts_of(refs).push(n));
                        },
                        None => {
                            assert(vts@ == old_vts);
                            assert(spec_vts_of(refs2) =~= spec_vts_of(refs));
                        },
                    }
                    match fr.vn {
                        Some(n) => {
                            assert(spec_usizes(vns@) =~= spec_usizes(old_vns).push(n));
                            assert(spec_vns_of(refs2) =~= spec_vns_of(refs).push(n));
                        },
                        None => {
                            assert(vns@ == old_vns);
                            assert(spec_vns_of(refs2) =~= spec_vns_of(refs));
                        },
                    }
                    refs = refs2;
                }
            },
        }
        j = j + 1;
    }
    proof {
        assert(tv.take(toks@.len() as int) =~= tv);
    }
    if vs.len() < 3 {
        return Err(MeshParseError::ShortFace { line_no });
    }
    let n_corners = vs.len();
    if (vts.len() != 0 && vts.len() != n_corners) || (vns.len() != 0 && vns.len() != n_corners) {
        return Err(MeshParseError::RaggedFace { line_no });
    }
    let in_range = refs_in_range(&vs, b.vbo.len()) && refs_in_range(&vts, b.uvs.len())
        && refs_in_range(&vns, b.normals.len());
    if !in_range {
        return Err(MeshParseError::UnknownIndex { line_no });
    }
    let ghost st0 = b@;
    let ghost gvs = spec_usizes(vs@);
    let ghost gvts = spec_usizes(vts@);
    let ghost gvns = spec_usizes(vns@);
    let ghost fan = spec_fan(st0, gvs, gvts, gvns);
    let has_t = vts.len() > 0;
    let has_n = vns.len() > 0;
    proof {
        assert(fan.take(0) =~= Seq::<TriangleTextView>::empty());
        assert(st0.triangles + fan.take(0) =~= st0.triangles);
    }
    let mut i: usize = 0;
    while i < n_corners - 2
        invariant
            i <= n_corners - 2,
            n_corners == vs@.len(),
            3 <= n_corners,
            has_t == (vts@.len() > 0),
            has_n == (vns@.len() > 0),
            has_t ==> vts@.len() == n_corners,
            has_n ==> vns@.len() == n_corners,
            gvs == spec_usizes(vs@),
            gvts == spec_usizes(vts@),
            gvns == spec_usizes(vns@),
            fan == spec_fan(st0, gvs, gvts, gvns),
            spec_refs_in_range(gvs, st0.vbo.len() as int),
            spec_refs_in_range(gvts, st0.uvs.len() as int),
            spec_refs_in_range(gvns, st0.normals.len() as int),
            b.vbo.deep_view() == st0.vbo,
            b.normals.deep_view() == st0.normals,
            b.uvs.deep_view() == st0.uvs,
            b@.triangles == st0.triangles + fan.take(i as int),
        decreases n_corners - 2 - i,
    {
        proof {
            assert(gvs[0] == vs@[0] as int);
            assert(gvs[i + 1] == vs@[i + 1] as int);
            assert(gvs[i + 2] == vs@[i + 2] as int);
        }
        let va = clone_vertex(&b.vbo[vs[0] - 1]);
        let vb = clone_vertex(&b.vbo[vs[i + 1] - 1]);
        let vc = clone_vertex(&b.vbo[vs[i + 2] - 1]);
        let tri_normals: Option<CornerNormalsText> = if has_n {
            proof {
                assert(gvns[0] == vns@[0] as int);
                assert(gvns[i + 1] == vns@[i + 1] as int);
                assert(gvns[i + 2] == vns@[i + 2] as int);
            }
            Some(
                CornerNormalsText {
                    a: clone_vertex(&b.normals[vns[0] - 1]),
                    b: clone_vertex(&b.normals[vns[i + 1] - 1]),
                    c: clone_vertex(&b.normals[vns[i + 2] - 1]),
                },
            )
        } else {
            None
        };
        let tri_uvs: Option<CornerUvsText> = if has_t {
            proof {
                assert(gvts[0] == vts@[0] as int);
                assert(gvts[i + 1] == vts@[i + 1] as int);
                assert(gvts[i + 2] == vts@[i + 2] as int);
            }
            Some(
                CornerUvsText {
                    a: clone_uv(&b.uvs[vts[0] - 1]),
                    b: clone_uv(&b.uvs[vts[i + 1] - 1]),
                    c: clone_uv(&b.uvs[vts[i + 2] - 1]),
                },
            )
        } else {
            None
        };
        let tri = TriangleText {
            vert_a: va,
            vert_b: vb,
            vert_c: vc,
            normals: tri_normals,
            uvs: tri_uvs,
        };
        let ghost prev_tris = b@.triangles;
        proof {
            assert(tri@ == fan[i as int]);
        }
        b.triangles.push(tri);
        proof {
            assert(b@.triangles =~= prev_tris.push(fan[i as int]));
            assert(st0.triangles + fan.take(i + 1) =~= (st0.triangles + fan.take(
                i as int,
            )).push(fan[i as int]));
        }
        i = i + 1;
    }
    proof {
        assert(fan.take(n_corners - 2) =~= fan);
        assert(b@ == MeshStateView { triangles: st0.triangles + fan, ..st0 });
    }
    Ok(())
}

/// Applies one line to the state.
fn apply_line(b: &mut MeshBuilder, line: &Vec<u8>, line_no: usize) -> (r: Result<
    (),
    MeshParseError,
>)
    ensures
        match r {
            Ok(_) => spec_line_step(old(b)@, line@, line_no) == Ok::<
                MeshStateView,
                MeshParseError,
            >(final(b)@),
            Err(e) => spec_line_step(old(b)@, line@, line_no) == Err::<
                MeshStateView,
                MeshParseError,
            >(e) && final(b)@ == old(b)@,
        },
{
    broadcast use lemma_bytes_deep_view;

    if line.len() == 0 {
        return Ok(());
    }
    if line.len() == 1 {
        return Err(MeshParseError::TruncatedLine { line_no });
    }
    let b0 = line[0];
    let b1 = line[1];
    if b0 == LOWER_V && b1 == SPACE {
        let toks = split_fields(line, 2);
        match vertex_from_tokens(toks) {
            Some(v) => {
                let ghost prev = b@;
                let ghost vv = v@;
                b.vbo.push(v);
                proof {
                    assert(b@.vbo =~~= prev.vbo.push(vv));
                    assert(b@ == MeshStateView { vbo: prev.vbo.push(vv), ..prev });
                }
                Ok(())
            },
            None => Err(MeshParseError::BadVertex { line_no }),
        }
    } else if b0 == LOWER_F && b1 == SPACE {
        apply_face_line(b, line, line_no)
    } else if b0 == LOWER_V && b1 == LOWER_N {
        let toks = split_fields(line, 2);
        match vertex_from_tokens(toks) {
            Some(v) => {
                let ghost prev = b@;
                let ghost vv = v@;
                b.normals.push(v);
                proof {
                    assert(b@.normals =~~= prev.normals.push(vv));
                    assert(b@ == MeshStateView { normals: prev.normals.push(vv), ..prev });
                }
                Ok(())
            },
            None => Err(MeshParseError::BadVertex { line_no }),
        }
    } else if b0 == LOWER_V && b1 == LOWER_T {
        let toks = split_fields(line, 2);
        if toks.len() >= 2 {
            let uv = UvText { u: clone_bytes(&toks[0]), v: clone_bytes(&toks[1]) };
            let ghost prev = b@;
            let ghost uvv = uv@;
            b.uvs.push(uv);
            proof {
                assert(b@.uvs =~~= prev.uvs.push(uvv));
                assert(b@ == MeshStateView { uvs: prev.uvs.push(uvv), ..prev });
            }
            Ok(())
        } else {
            Err(MeshParseError::BadUv { line_no })
        }
    } else {
        Ok(())
    }
}

/// Reads a whole mesh description, given as its lines in order, and
/// returns the triangles it denotes — or the error of the first malformed
/// line, leaving no partial mesh behind.
pub fn parse_mesh(lines: &Vec<Vec<u8>>) -> (r: Result<MeshText, MeshParseError>)
    ensures
        match r {
            Ok(m) => spec_parse_mesh(lines.deep_view()) == Ok::<
                Seq<TriangleTextView>,
                MeshParseError,
            >(m@),
            Err(e) => spec_parse_mesh(lines.deep_view()) == Err::<
                Seq<TriangleTextView>,
                MeshParseError,
            >(e),
        },
{
    broadcast use lemma_bytes_deep_view;

    let ghost ld = lines.deep_view();
    let mut b = MeshBuilder {
        vbo: Vec::new(),
        normals: Vec::new(),
        uvs: Vec::new(),
        triangles: Vec::new(),
    };
    proof {
        assert(b@.vbo =~= Seq::<VertexTextView>::empty());
        assert(b@.normals =~= Seq::<VertexTextView>::empty());
        assert(b@.uvs =~= Seq::<UvTextView>::empty());
        assert(b@.triangles =~= Seq::<TriangleTextView>::empty());
        assert(b@ == MeshStateView::init());
    }
    let mut i: usize = 0;
    while i < lines.len()
        invariant
            i <= lines@.len(),
            lines@.len() == ld.len(),
            ld == lines.deep_view(),
            spec_parse_lines(ld, i as int) == Ok::<MeshStateView, MeshParseError>(b@),
        decreases ld.len() - i,
    {
        let line = &lines[i];
        proof {
            assert(ld[i as int] == lines@[i as int].deep_view());
            assert(line@ == ld[i as int]);
        }
        match apply_line(&mut b, line, i) {
            Ok(_) => {
                proof {
                    assert(spec_parse_lines(ld, i + 1) == Ok::<MeshStateView, MeshParseError>(b@));
                }
            },
            Err(e) => {
                proof {
                    assert(spec_parse_lines(ld, i + 1) == Err::<MeshStateView, MeshParseError>(e));
                    lemma_parse_lines_err(ld, i + 1, ld.len() as int);
                }
                return Err(e);
            },
        }
        i = i + 1;
    }
    Ok(MeshText { triangles: b.triangles })
}

} // verus!
