//! The mesh text format.
//!
//! A mesh is described line by line: a line whose first token is `v`
//! lists a vertex as three coordinate numerals, a line whose first token
//! is `f` lists a triangular face as three one-based vertex indices, and
//! a line with any other first token is ignored (the caller may report a
//! diagnostic for each). Coordinates are kept as validated numeral
//! tokens — their floating-point values belong to the embedding
//! program — while face indices are read exactly and rebased to zero.

use vstd::prelude::*;

use crate::numerals::{
    digits_value, float_token, is_float_token, parse_u32_numeral, strip_plus, u32_numeral,
};
use crate::text::{split_into_lines, split_lines, split_tokens, tokens_of};

verus! {

/// The three coordinate numerals of one vertex, as written in the text.
#[derive(Debug)]
pub struct Vertex {
    pub x: Vec<u8>,
    pub y: Vec<u8>,
    pub z: Vec<u8>,
}

#[verifier::ext_equal]
pub ghost struct VertexV {
    pub x: Seq<u8>,
    pub y: Seq<u8>,
    pub z: Seq<u8>,
}

impl View for Vertex {
    type V = VertexV;

    open spec fn view(&self) -> VertexV {
        VertexV { x: self.x@, y: self.y@, z: self.z@ }
    }
}

/// One triangular face: positions in the vertex list, rebased to zero.
#[derive(Clone, Copy, Debug, PartialEq, Eq, Structural)]
pub struct Face {
    pub x: u32,
    pub y: u32,
    pub z: u32,
}

/// Everything a well-formed mesh text describes: its vertices and faces
/// in listing order, and how many lines were ignored.
#[derive(Debug)]
pub struct ObjData {
    pub vertices: Vec<Vertex>,
    pub faces: Vec<Face>,
    pub ignored: usize,
}

#[verifier::ext_equal]
pub ghost struct ObjDataV {
    pub vertices: Seq<VertexV>,
    pub faces: Seq<Face>,
    pub ignored: int,
}

impl View for ObjData {
    type V = ObjDataV;

    open spec fn view(&self) -> ObjDataV {
        ObjDataV {
            vertices: self.vertices@.map_values(|v: Vertex| v@),
            faces: self.faces@,
            ignored: self.ignored as int,
        }
    }
}

/// Why a mesh text is rejected; `line` is the position of the offending
/// line, counting from zero.
#[derive(Clone, Copy, Debug, PartialEq, Eq, Structural)]
pub enum ObjError {
    /// A line of whitespace only: it has no leading token to classify.
    BlankLine { line: usize },
    /// A vertex line carries a token that is not a coordinate numeral.
    BadCoordinate { line: usize },
    /// A vertex line lists fewer than three coordinates.
    MissingCoordinates { line: usize },
    /// A face line carries a token that is not an unsigned numeral.
    BadIndex { line: usize },
    /// A face line carries the index zero, which no one-based list has.
    ZeroIndex { line: usize },
    /// A face line lists fewer than three indices.
    MissingIndices { line: usize },
}

/// A usable face index token: an unsigned numeral with a one-based value.
pub open spec fn face_token_ok(t: Seq<u8>) -> bool {
    u32_numeral(t) && digits_value(strip_plus(t)) >= 1
}

/// The position of the first unusable index token at or after `k`, or
/// the token count if every one from `k` on is usable.
pub open spec fn first_bad_face_token(toks: Seq<Seq<u8>>, k: int) -> int
    decreases toks.len() - k,
{
    if k < 0 || k >= toks.len() {
        toks.len() as int
    } else if !face_token_ok(toks[k]) {
        k
    } else {
        first_bad_face_token(toks, k + 1)
    }
}

pub proof fn lemma_first_bad_face_token_from(toks: Seq<Seq<u8>>, j: int, k: int)
    requires
        0 <= j <= k <= toks.len(),
        forall|m: int| j <= m < k ==> face_token_ok(#[trigger] toks[m]),
    ensures
        first_bad_face_token(toks, j) == first_bad_face_token(toks, k),
    decreases k - j,
{
    if j < k {
        lemma_first_bad_face_token_from(toks, j + 1, k);
    }
}

pub open spec fn empty_model() -> ObjDataV {
    ObjDataV { vertices: Seq::empty(), faces: Seq::empty(), ignored: 0 }
}

/// What the lines from position `i` on add to the model `acc`, or the
/// first error among them. Vertex lines must carry at least three
/// coordinate numerals (a broken numeral anywhere in the line is
/// reported before a shortfall); face lines likewise with one-based
/// index numerals; every extra token beyond the third is validated and
/// dropped.
pub open spec fn parse_lines(ls: Seq<Seq<u8>>, i: int, acc: ObjDataV) -> Result<ObjDataV, ObjError>
    decreases ls.len() - i,
{
    if i < 0 || i >= ls.len() {
        Ok(acc)
    } else {
        let toks = tokens_of(ls[i]);
        if ls[i].len() == 0 {
            parse_lines(ls, i + 1, acc)
        } else if toks.len() == 0 {
            Err(ObjError::BlankLine { line: i as usize })
        } else if toks[0] == seq![0x76u8] {
            if exists|k: int| 1 <= k < toks.len() && !float_token(#[trigger] toks[k]) {
                Err(ObjError::BadCoordinate { line: i as usize })
            } else if toks.len() < 4 {
                Err(ObjError::MissingCoordinates { line: i as usize })
            } else {
                parse_lines(
                    ls,
                    i + 1,
                    ObjDataV {
                        vertices: acc.vertices.push(
                            VertexV { x: toks[1], y: toks[2], z: toks[3] },
                        ),
                        ..acc
                    },
                )
            }
        } else if toks[0] == seq![0x66u8] {
            let b = first_bad_face_token(toks, 1);
            if b < toks.len() {
                if !u32_numeral(toks[b]) {
                    Err(ObjError::BadIndex { line: i as usize })
                } else {
                    Err(ObjError::ZeroIndex { line: i as usize })
                }
            } else if toks.len() < 4 {
                Err(ObjError::MissingIndices { line: i as usize })
            } else {
                parse_lines(
                    ls,
                    i + 1,
                    ObjDataV {
                        faces: acc.faces.push(
                            Face {
                                x: (digits_value(strip_plus(toks[1])) - 1) as u32,
                                y: (digits_value(strip_plus(toks[2])) - 1) as u32,
                                z: (digits_value(strip_plus(toks[3])) - 1) as u32,
                            },
                        ),
                        ..acc
                    },
                )
            }
        } else {
            parse_lines(ls, i + 1, ObjDataV { ignored: acc.ignored + 1, ..acc })
        }
    }
}

/// The meaning of a mesh text: the model it describes, or the first
/// error in it.
pub open spec fn parse_obj_spec(text: Seq<u8>) -> Result<ObjDataV, ObjError> {
    parse_lines(split_lines(text), 0, empty_model())
}

/// Reads a mesh text into its vertices and faces, reporting the first
/// error exactly as `parse_obj_spec` names it.
#[verifier::loop_isolation(false)]
pub fn parse_obj(text: &[u8]) -> (r: Result<ObjData, ObjError>)
    ensures
        (match parse_obj_spec(text@) {
            Ok(m) => r matches Ok(d) && d@ == m,
            Err(e) => r matches Err(f) && f == e,
        }),
{
    let lines = split_into_lines(text);
    let ghost ls = split_lines(text@);
    let mut data = ObjData { vertices: Vec::new(), faces: Vec::new(), ignored: 0 };
    proof {
        assert(data@ =~= empty_model());
    }
    let mut i: usize = 0;
    while i < lines.len()
        invariant
            ls == split_lines(text@),
            lines@.map_values(|l: Vec<u8>| l@) == ls,
            i <= lines@.len(),
            lines@.len() == ls.len(),
            data@.ignored <= i,
            parse_lines(ls, 0, empty_model()) == parse_lines(ls, i as int, data@),
        decreases lines@.len() - i,
    {
        let ghost dv = data@;
        let line = &lines[i];
        assert(line@ == ls[i as int]);
        let mut toks = split_tokens(line.as_slice());
        let ghost tv = tokens_of(ls[i as int]);
        assert(toks@.map_values(|t: Vec<u8>| t@) == tv);
        assert(toks@.len() == tv.len());
        if line.len() == 0 {
            // An empty line contributes nothing.
        } else if toks.len() == 0 {
            assert(parse_lines(ls, i as int, dv) == Err::<ObjDataV, ObjError>(ObjError::BlankLine {
                line: i,
            }));
            return Err(ObjError::BlankLine { line: i });
        } else {
            let first_v = toks[0].len() == 1 && toks[0][0] == 0x76;
            let first_f = !first_v && toks[0].len() == 1 && toks[0][0] == 0x66;
            assert(tv[0] == toks@[0]@);
            if first_v {
                assert(tv[0] =~= seq![0x76u8]);
                let mut k: usize = 1;
                while k < toks.len()
                    invariant
                        1 <= k <= toks@.len(),
                        toks@.map_values(|t: Vec<u8>| t@) == tv,
                        toks@.len() == tv.len(),
                        forall|j: int| 1 <= j < k ==> float_token(#[trigger] tv[j]),
                    decreases toks@.len() - k,
                {
                    assert(tv[k as int] == toks@[k as int]@);
                    if !is_float_token(toks[k].as_slice()) {
                        return Err(ObjError::BadCoordinate { line: i });
                    }
                    k = k + 1;
                }
                if toks.len() < 4 {
                    return Err(ObjError::MissingCoordinates { line: i });
                }
                assert(tv[1] == toks@[1]@ && tv[2] == toks@[2]@ && tv[3] == toks@[3]@);
                toks.truncate(4);
                let z = toks.pop().unwrap();
                let y = toks.pop().unwrap();
                let x = toks.pop().unwrap();
                assert(x@ == tv[1] && y@ == tv[2] && z@ == tv[3]);
                data.vertices.push(Vertex { x, y, z });
                proof {
                    assert(data@ =~= ObjDataV {
                        vertices: dv.vertices.push(VertexV { x: tv[1], y: tv[2], z: tv[3] }),
                        ..dv
                    });
                    assert(data@.vertices =~= dv.vertices.push(
                        VertexV { x: tv[1], y: tv[2], z: tv[3] },
                    ));
                }
            } else if first_f {
                assert(tv[0] =~= seq![0x66u8]);
                assert(tv[0] != seq![0x76u8]);
                let mut vals: Vec<u32> = Vec::new();
                let mut k: usize = 1;
                while k < toks.len()
                    invariant
                        1 <= k <= toks@.len(),
                        toks@.map_values(|t: Vec<u8>| t@) == tv,
                        toks@.len() == tv.len(),
                        vals@.len() == k - 1,
                        forall|j: int| 1 <= j < k ==> face_token_ok(#[trigger] tv[j]),
                        forall|j: int|
                            1 <= j < k ==> vals@[j - 1] == digits_value(strip_plus(#[trigger] tv[j])),
                    decreases toks@.len() - k,
                {
                    assert(tv[k as int] == toks@[k as int]@);
                    match parse_u32_numeral(toks[k].as_slice()) {
                        None => {
                            proof {
                                lemma_first_bad_face_token_from(tv, 1, k as int);
                            }
                            return Err(ObjError::BadIndex { line: i });
                        },
                        Some(v) => {
                            if v == 0 {
                                proof {
                                    lemma_first_bad_face_token_from(tv, 1, k as int);
                                }
                                return Err(ObjError::ZeroIndex { line: i });
                            }
                            vals.push(v);
                        },
                    }
                    k = k + 1;
                }
                proof {
                    lemma_first_bad_face_token_from(tv, 1, tv.len() as int);
                }
                if toks.len() < 4 {
                    return Err(ObjError::MissingIndices { line: i });
                }
                let face = Face { x: vals[0] - 1, y: vals[1] - 1, z: vals[2] - 1 };
                data.faces.push(face);
                proof {
                    assert(data@ =~= ObjDataV { faces: dv.faces.push(face), ..dv });
                }
            } else {
                assert(tv[0] != seq![0x76u8] && tv[0] != seq![0x66u8]);
                data.ignored = data.ignored + 1;
                proof {
                    assert(data@ =~= ObjDataV { ignored: dv.ignored + 1, ..dv });
                }
            }
        }
        i = i + 1;
        assert(parse_lines(ls, 0, empty_model()) == parse_lines(ls, i as int, data@));
    }
    assert(parse_lines(ls, i as int, data@) == Ok::<ObjDataV, ObjError>(data@));
    Ok(data)
}

/// Accumulates the pieces of a mesh object before assembly; the
/// geometry arrives through `from_obj_file`.
#[derive(Debug)]
pub struct ObjBuilder {
    pub vertices: Option<Vec<Vertex>>,
    pub faces: Option<Vec<Face>>,
}

impl Default for ObjBuilder {
    fn default() -> (d: Self)
        ensures
            d.vertices is None,
            d.faces is None,
    {
        ObjBuilder { vertices: None, faces: None }
    }
}

impl ObjBuilder {
    /// Takes this builder's geometry from the contents of a mesh file,
    /// or reports the first error in it and leaves the builder as it
    /// was.
    pub fn from_obj_file(&mut self, text: &[u8]) -> (r: Result<(), ObjError>)
        ensures
            (match parse_obj_spec(text@) {
                Ok(m) => {
                    &&& r is Ok
                    &&& final(self).vertices matches Some(v) && v@.map_values(|x: Vertex| x@)
                        == m.vertices
                    &&& final(self).faces matches Some(f) && f@ == m.faces
                },
                Err(e) => r matches Err(f) && f == e && *final(self) == *old(self),
            }),
    {
        match parse_obj(text) {
            Ok(d) => {
                let ObjData { vertices, faces, ignored: _ } = d;
                self.vertices = Some(vertices);
                self.faces = Some(faces);
                Ok(())
            },
            Err(e) => Err(e),
        }
    }
}

} // verus!
