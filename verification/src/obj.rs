//! The Wavefront OBJ meshes that a scene may load: `v` lines give a
//! vertex (`v x y z`) or a coloured vertex (`v x y z r g b`), `f` lines a
//! triangle by the 1-based numbers of its three vertices. Other lines are
//! ignored.
//!
//! The numbers of `v` lines are floating-point; the library keeps them as
//! the texts that were read, and the caller tells which texts read as
//! numbers.
use vstd::prelude::*;
use crate::text;

verus! {

/// Three number texts, as a `v` line gives them.
#[derive(Debug, Clone)]
pub struct NumberTriple {
    pub first: String,
    pub second: String,
    pub third: String,
}

/// The colour of a vertex: the three channels that its line gave, or white
/// for a vertex that its line gave no colour.
#[derive(Debug, Clone)]
pub enum CornerColor {
    Given(NumberTriple),
    White,
}

/// A triangle: the 0-based numbers of its vertices, in the order of the
/// file, and whether each of the three has a colour entry.
#[derive(Clone, Copy, Debug, PartialEq, Eq, Structural)]
pub struct Face {
    pub first: usize,
    pub second: usize,
    pub third: usize,
    pub colored: bool,
}

/// The vertices, the colour entries and the triangles of a mesh.
#[derive(Debug)]
pub struct ObjModel {
    pub vertices: Vec<NumberTriple>,
    pub colors: Vec<CornerColor>,
    pub faces: Vec<Face>,
}

/// What reading a mesh gives: the mesh; no mesh, where a triangle names a
/// vertex past the last one read so far; or, where a triangle names vertex
/// 0, the fault of computing the vertex number below zero.
#[derive(Debug)]
pub enum ObjRead {
    Model(ObjModel),
    MissingVertex,
    ZeroIndex,
}

pub type TextTriple = (Seq<char>, Seq<char>, Seq<char>);

#[verifier::ext_equal]
pub ghost struct ModelView {
    pub vertices: Seq<TextTriple>,
    pub colors: Seq<Option<TextTriple>>,
    pub faces: Seq<Face>,
}

pub ghost enum ReadView {
    Model(ModelView),
    MissingVertex,
    ZeroIndex,
}

pub open spec fn triple_view(t: NumberTriple) -> TextTriple {
    (t.first@, t.second@, t.third@)
}

pub open spec fn color_view(c: CornerColor) -> Option<TextTriple> {
    match c {
        CornerColor::Given(t) => Some(triple_view(t)),
        CornerColor::White => None,
    }
}

impl View for ObjModel {
    type V = ModelView;

    open spec fn view(&self) -> ModelView {
        ModelView {
            vertices: self.vertices@.map_values(|t: NumberTriple| triple_view(t)),
            colors: self.colors@.map_values(|c: CornerColor| color_view(c)),
            faces: self.faces@,
        }
    }
}

impl View for ObjRead {
    type V = ReadView;

    open spec fn view(&self) -> ReadView {
        match self {
            ObjRead::Model(m) => ReadView::Model(m@),
            ObjRead::MissingVertex => ReadView::MissingVertex,
            ObjRead::ZeroIndex => ReadView::ZeroIndex,
        }
    }
}

pub open spec fn empty_model() -> ModelView {
    ModelView { vertices: seq![], colors: seq![], faces: seq![] }
}

pub open spec fn triple_at(parts: Seq<Seq<char>>, a: int) -> TextTriple {
    (parts[a], parts[a + 1], parts[a + 2])
}

pub open spec fn numbers_at(numeric: Seq<bool>, a: int) -> bool {
    numeric[a] && numeric[a + 1] && numeric[a + 2]
}

/// What a `v` line adds: with seven or more words, the vertex where words
/// 1 to 3 are numbers and, independently, its colour where words 4 to 6
/// are; with four to six words, the vertex and a white colour where words
/// 1 to 3 are numbers.
pub open spec fn vertex_step(m: ModelView, parts: Seq<Seq<char>>, numeric: Seq<bool>) -> ModelView {
    if parts.len() >= 7 {
        let m1 = if numbers_at(numeric, 1) {
            ModelView { vertices: m.vertices.push(triple_at(parts, 1)), ..m }
        } else {
            m
        };
        if numbers_at(numeric, 4) {
            ModelView { colors: m1.colors.push(Some(triple_at(parts, 4))), ..m1 }
        } else {
            m1
        }
    } else if parts.len() >= 4 && numbers_at(numeric, 1) {
        ModelView {
            vertices: m.vertices.push(triple_at(parts, 1)),
            colors: m.colors.push(None),
            ..m
        }
    } else {
        m
    }
}

pub open spec fn vertex_number(parts: Seq<Seq<char>>, a: int) -> Option<nat> {
    text::parse_unsigned(parts[a], usize::MAX as nat)
}

/// The fault, if any, of the vertex number `i` among `count` vertices.
pub open spec fn corner_fault(i: nat, count: nat) -> Option<ReadView> {
    if i == 0 {
        Some(ReadView::ZeroIndex)
    } else if i > count {
        Some(ReadView::MissingVertex)
    } else {
        None
    }
}

/// What an `f` line does: where it has three vertex numbers, a triangle if
/// all three name vertices read so far, else the fault of the first that
/// does not.
pub open spec fn face_step(m: ModelView, parts: Seq<Seq<char>>) -> ReadView {
    if parts.len() >= 4 && vertex_number(parts, 1) is Some && vertex_number(parts, 2) is Some
        && vertex_number(parts, 3) is Some {
        let i1 = vertex_number(parts, 1)->0;
        let i2 = vertex_number(parts, 2)->0;
        let i3 = vertex_number(parts, 3)->0;
        let count = m.vertices.len();
        if corner_fault(i1, count) is Some {
            corner_fault(i1, count)->0
        } else if corner_fault(i2, count) is Some {
            corner_fault(i2, count)->0
        } else if corner_fault(i3, count) is Some {
            corner_fault(i3, count)->0
        } else {
            let colors = m.colors.len();
            let face = Face {
                first: (i1 - 1) as usize,
                second: (i2 - 1) as usize,
                third: (i3 - 1) as usize,
                colored: i1 <= colors && i2 <= colors && i3 <= colors,
            };
            ReadView::Model(ModelView { faces: m.faces.push(face), ..m })
        }
    } else {
        ReadView::Model(m)
    }
}

/// What a line, given as its words, does to the mesh read so far.
pub open spec fn line_step(m: ModelView, parts: Seq<Seq<char>>, numeric: Seq<bool>) -> ReadView {
    if parts.len() == 0 {
        ReadView::Model(m)
    } else if parts[0] == "v"@ {
        ReadView::Model(vertex_step(m, parts, numeric))
    } else if parts[0] == "f"@ {
        face_step(m, parts)
    } else {
        ReadView::Model(m)
    }
}

/// Once a line has stopped the reading, later lines change nothing.
proof fn lemma_fault_stays(lines: Seq<Seq<Seq<char>>>, numeric: Seq<Seq<bool>>, n: nat, m: nat)
    requires
        n <= m,
        !(read_lines(lines, numeric, n) is Model),
    ensures
        read_lines(lines, numeric, m) == read_lines(lines, numeric, n),
    decreases m - n,
{
    if n < m {
        lemma_fault_stays(lines, numeric, n, (m - 1) as nat);
    }
}

/// Reading the first `n` lines.
pub open spec fn read_lines(lines: Seq<Seq<Seq<char>>>, numeric: Seq<Seq<bool>>, n: nat) -> ReadView
    decreases n,
{
    if n == 0 {
        ReadView::Model(empty_model())
    } else {
        match read_lines(lines, numeric, (n - 1) as nat) {
            ReadView::Model(m) => line_step(m, lines[n - 1], numeric[n - 1]),
            fault => fault,
        }
    }
}

/// Every triangle of a mesh names vertices of the mesh, and, where it is
/// coloured, colour entries of the mesh.
pub open spec fn faces_name_vertices(m: ModelView) -> bool {
    forall|k: int|
        0 <= k < m.faces.len() ==> {
            let f = #[trigger] m.faces[k];
            &&& f.first < m.vertices.len()
            &&& f.second < m.vertices.len()
            &&& f.third < m.vertices.len()
            &&& f.colored ==> f.first < m.colors.len() && f.second < m.colors.len() && f.third
                < m.colors.len()
        }
}

/// A mesh that reads without fault has triangles only over vertices (and
/// colours) that it read before them.
pub proof fn lemma_faces_name_vertices(
    lines: Seq<Seq<Seq<char>>>,
    numeric: Seq<Seq<bool>>,
    n: nat,
)
    ensures
        read_lines(lines, numeric, n) matches ReadView::Model(m) ==> faces_name_vertices(m),
    decreases n,
{
    if n > 0 {
        lemma_faces_name_vertices(lines, numeric, (n - 1) as nat);
        if let ReadView::Model(m) = read_lines(lines, numeric, (n - 1) as nat) {
            let parts = lines[n - 1];
            let numeric_line = numeric[n - 1];
            let v = vertex_step(m, parts, numeric_line);
            assert(v.faces == m.faces);
            assert(v.vertices.len() >= m.vertices.len());
            assert(v.colors.len() >= m.colors.len());
            assert(faces_name_vertices(v));
        }
    }
}

/// A `v` line whose words 1, 2 and 3 are numbers adds the vertex
/// (x, y, z) = (word 1, word 2, word 3), in that order, after the vertices
/// read so far. With seven or more words it adds, where words 4, 5 and 6 are
/// numbers, the colour (r, g, b) = (word 4, word 5, word 6); with four to
/// six words it adds a white colour. Triangles are left as they were.
pub proof fn lemma_vertex_line(m: ModelView, parts: Seq<Seq<char>>, numeric: Seq<bool>)
    requires
        parts.len() >= 4,
        numeric.len() == parts.len(),
        parts[0] == "v"@,
        numeric[1] && numeric[2] && numeric[3],
    ensures
        line_step(m, parts, numeric) matches ReadView::Model(next) && {
            &&& next.vertices == m.vertices.push((parts[1], parts[2], parts[3]))
            &&& next.faces == m.faces
            &&& parts.len() >= 7 && numeric[4] && numeric[5] && numeric[6] ==> next.colors
                == m.colors.push(Some((parts[4], parts[5], parts[6])))
            &&& parts.len() >= 7 && !(numeric[4] && numeric[5] && numeric[6]) ==> next.colors
                == m.colors
            &&& parts.len() < 7 ==> next.colors == m.colors.push(None)
        },
{
}

/// A `v` line with seven or more words whose words 4, 5 and 6 are numbers
/// adds the colour (r, g, b) = (word 4, word 5, word 6), whether or not its
/// vertex was read.
pub proof fn lemma_colored_vertex_line(m: ModelView, parts: Seq<Seq<char>>, numeric: Seq<bool>)
    requires
        parts.len() >= 7,
        numeric.len() == parts.len(),
        parts[0] == "v"@,
        numeric[4] && numeric[5] && numeric[6],
    ensures
        line_step(m, parts, numeric) matches ReadView::Model(next) && next.colors
            == m.colors.push(Some((parts[4], parts[5], parts[6]))),
{
}

/// An `f` line whose words 1, 2 and 3 are the numbers i1, i2 and i3 of
/// vertices read so far adds the triangle (i1 - 1, i2 - 1, i3 - 1), in that
/// order, and leaves the vertices and colours as they were; a number 0
/// stops the reading with `ZeroIndex`, and, failing that, a number past the
/// vertices read so far stops it with `MissingVertex`.
pub proof fn lemma_face_line(m: ModelView, parts: Seq<Seq<char>>, numeric: Seq<bool>, i1: nat, i2: nat, i3: nat)
    requires
        parts.len() >= 4,
        parts[0] == "f"@,
        text::parse_unsigned(parts[1], usize::MAX as nat) == Some(i1),
        text::parse_unsigned(parts[2], usize::MAX as nat) == Some(i2),
        text::parse_unsigned(parts[3], usize::MAX as nat) == Some(i3),
    ensures
        1 <= i1 <= m.vertices.len() && 1 <= i2 <= m.vertices.len() && 1 <= i3 <= m.vertices.len()
            ==> (line_step(m, parts, numeric) matches ReadView::Model(next) && {
            &&& next.vertices == m.vertices
            &&& next.colors == m.colors
            &&& next.faces.len() == m.faces.len() + 1
            &&& next.faces.drop_last() == m.faces
            &&& next.faces.last().first == i1 - 1
            &&& next.faces.last().second == i2 - 1
            &&& next.faces.last().third == i3 - 1
        }),
        i1 == 0 || i2 == 0 || i3 == 0 ==> line_step(m, parts, numeric) == ReadView::ZeroIndex
            || line_step(m, parts, numeric) == ReadView::MissingVertex,
        i1 == 0 ==> line_step(m, parts, numeric) == ReadView::ZeroIndex,
        i1 > m.vertices.len() || i2 > m.vertices.len() || i3 > m.vertices.len() ==> !(line_step(
            m,
            parts,
            numeric,
        ) is Model),
{
    reveal_strlit("v");
    reveal_strlit("f");
    assert(parts[0][0] != "v"@[0]);
    if 1 <= i1 <= m.vertices.len() && 1 <= i2 <= m.vertices.len() && 1 <= i3 <= m.vertices.len() {
        if let ReadView::Model(next) = line_step(m, parts, numeric) {
            assert(next.faces.drop_last() =~= m.faces);
        }
    }
}

pub open spec fn lines_view(lines: Seq<Vec<String>>) -> Seq<Seq<Seq<char>>> {
    lines.map_values(|l: Vec<String>| text::string_views(l@))
}

pub open spec fn flags_view(numeric: Seq<Vec<bool>>) -> Seq<Seq<bool>> {
    numeric.map_values(|l: Vec<bool>| l@)
}

/// The words of each line of a mesh file.
pub fn obj_lines(content: &str) -> (out: Vec<Vec<String>>)
    ensures
        lines_view(out@) == text::lines(content@).map_values(|l: Seq<char>| text::words(l)),
{
    let lines = text::split_lines(content);
    let ghost target = text::lines(content@).map_values(|l: Seq<char>| text::words(l));
    let mut out: Vec<Vec<String>> = Vec::new();
    let mut i: usize = 0;
    while i < lines.len()
        invariant
            i <= lines@.len(),
            text::string_views(lines@) == text::lines(content@),
            target == text::lines(content@).map_values(|l: Seq<char>| text::words(l)),
            target.len() == lines@.len(),
            lines_view(out@) == target.take(i as int),
        decreases lines@.len() - i,
    {
        assert(text::string_views(lines@)[i as int] == lines@[i as int]@);
        let words = text::split_words(lines[i].as_str());
        let ghost before = out@;
        let ghost copy = words;
        assert(target[i as int] == text::words(lines@[i as int]@));
        assert(text::string_views(copy@) == target[i as int]);
        out.push(words);
        assert(out@ == before.push(copy));
        assert(lines_view(before).len() == i);
        assert(before.len() == i);
        assert(out@.len() == i + 1);
        assert(lines_view(out@).len() == i + 1);
        assert(lines_view(out@)[i as int] == text::string_views(copy@));
        assert(lines_view(out@) =~= target.take(i + 1));
        i += 1;
    }
    assert(target.take(lines@.len() as int) =~= target);
    out
}

fn triple_of(parts: &Vec<String>, a: usize) -> (t: NumberTriple)
    requires
        a + 2 < parts.len(),
    ensures
        triple_view(t) == triple_at(text::string_views(parts@), a as int),
        t.first@ == parts@[a as int]@,
        t.second@ == parts@[a + 1]@,
        t.third@ == parts@[a + 2]@,
{
    NumberTriple { first: parts[a].clone(), second: parts[a + 1].clone(), third: parts[a + 2].clone() }
}

fn corner_check(i: usize, count: usize) -> (r: Option<ObjRead>)
    ensures
        match r {
            Some(fault) => corner_fault(i as nat, count as nat) == Some(fault@),
            None => corner_fault(i as nat, count as nat) is None,
        },
{
    if i == 0 {
        Some(ObjRead::ZeroIndex)
    } else if i > count {
        Some(ObjRead::MissingVertex)
    } else {
        None
    }
}

/// Reads a mesh from the words of its lines; `numeric[l][w]` tells whether
/// word `w` of line `l` reads as a floating-point number.
pub fn read_obj(lines: &Vec<Vec<String>>, numeric: &Vec<Vec<bool>>) -> (r: ObjRead)
    requires
        numeric@.len() == lines@.len(),
        forall|l: int| 0 <= l < lines@.len() ==> (#[trigger] numeric@[l])@.len() == lines@[l]@.len(),
    ensures
        r@ == read_lines(lines_view(lines@), flags_view(numeric@), lines@.len() as nat),
{
    let ghost lv = lines_view(lines@);
    let ghost nv = flags_view(numeric@);
    let mut model = ObjModel { vertices: Vec::new(), colors: Vec::new(), faces: Vec::new() };
    assert(model@ =~= empty_model());
    let mut l: usize = 0;
    while l < lines.len()
        invariant
            l <= lines@.len(),
            lv == lines_view(lines@),
            nv == flags_view(numeric@),
            numeric@.len() == lines@.len(),
            forall|j: int| 0 <= j < lines@.len() ==> (#[trigger] numeric@[j])@.len() == lines@[j]@.len(),
            read_lines(lv, nv, l as nat) == ReadView::Model(model@),
        decreases lines@.len() - l,
    {
        let parts = &lines[l];
        let flags = &numeric[l];
        let ghost pv = text::string_views(parts@);
        let ghost m = model@;
        assert(lv[l as int] == pv);
        assert(nv[l as int] == flags@);
        assert(flags@.len() == parts@.len());
        let ghost next = line_step(m, pv, flags@);
        assert(read_lines(lv, nv, (l + 1) as nat) == next);
        proof {
            reveal_strlit("v");
            reveal_strlit("f");
        }
        let n = parts.len();
        if n == 0 {
        } else if text::same_text(parts[0].as_str(), "v") {
            assert(pv[0] == parts@[0]@);
            if n >= 7 {
                if flags[1] && flags[2] && flags[3] {
                    let t = triple_of(parts, 1);
                    model.vertices.push(t);
                }
                if flags[4] && flags[5] && flags[6] {
                    let t = triple_of(parts, 4);
                    model.colors.push(CornerColor::Given(t));
                }
            } else if n >= 4 && flags[1] && flags[2] && flags[3] {
                let t = triple_of(parts, 1);
                model.colors.push(CornerColor::White);
                model.vertices.push(t);
            }
            assert(model@ =~= vertex_step(m, pv, flags@));
        } else if text::same_text(parts[0].as_str(), "f") {
            assert(pv[0] == parts@[0]@);
            if n >= 4 {
                assert(pv[1] == parts@[1]@);
                assert(pv[2] == parts@[2]@);
                assert(pv[3] == parts@[3]@);
                let i1 = text::parse_unsigned_text(parts[1].as_str(), usize::MAX as u64);
                let i2 = text::parse_unsigned_text(parts[2].as_str(), usize::MAX as u64);
                let i3 = text::parse_unsigned_text(parts[3].as_str(), usize::MAX as u64);
                match (i1, i2, i3) {
                    (Some(a), Some(b), Some(c)) => {
                        let a = a as usize;
                        let b = b as usize;
                        let c = c as usize;
                        let count = model.vertices.len();
                        match corner_check(a, count) {
                            Some(fault) => {
                                proof {
                                    lemma_fault_stays(lv, nv, (l + 1) as nat, lines@.len() as nat);
                                }
                                return fault;
                            },
                            None => {},
                        }
                        match corner_check(b, count) {
                            Some(fault) => {
                                proof {
                                    lemma_fault_stays(lv, nv, (l + 1) as nat, lines@.len() as nat);
                                }
                                return fault;
                            },
                            None => {},
                        }
                        match corner_check(c, count) {
                            Some(fault) => {
                                proof {
                                    lemma_fault_stays(lv, nv, (l + 1) as nat, lines@.len() as nat);
                                }
                                return fault;
                            },
                            None => {},
                        }
                        let colors = model.colors.len();
                        let face = Face {
                            first: a - 1,
                            second: b - 1,
                            third: c - 1,
                            colored: a <= colors && b <= colors && c <= colors,
                        };
                        model.faces.push(face);
                        assert(model@ =~= ModelView { faces: m.faces.push(face), ..m });
                    },
                    _ => {},
                }
            }
        }
        assert(read_lines(lv, nv, (l + 1) as nat) == ReadView::Model(model@));
        l += 1;
    }
    ObjRead::Model(model)
}

} // verus!
