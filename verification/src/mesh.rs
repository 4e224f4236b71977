//! The lines of a mesh file, and the mesh that they build.
//!
//! A mesh file lists vertices and faces, one to a line. A vertex line holds
//! the keyword `v` and three numbers. A face line holds the keyword `f` and
//! three or four corners; a corner is the number of a vertex, a slash and the
//! number of a texture coordinate, and behind that a slash and the number of
//! a normal, or nothing. Vertices are numbered from one, in the order of
//! their lines. Any other line says nothing.

use crate::scan::{
    at_end, ends_at, index_at, keyword_at, number_at, scan_index, scan_keyword, scan_number,
    scan_slash, slash_at, Span,
};
use vstd::prelude::*;

verus! {

/// What one line of a mesh file says.
#[derive(Clone, Copy, Debug, PartialEq, Eq, Structural)]
pub enum Line {
    /// A vertex: where its three coordinates stand in the line.
    Vertex { x: Span, y: Span, z: Span },
    /// A face of three corners: the numbers of its vertices.
    Triangle { a: usize, b: usize, c: usize },
    /// A face of four corners: the numbers of its vertices, in order round
    /// the face.
    Quad { a: usize, b: usize, c: usize, d: usize },
    /// Nothing: a line of another kind.
    Other,
}

/// The corner that follows the blanks at `at`, and where it ends: the number
/// of a vertex, a slash, and the number of a texture coordinate; behind that
/// a slash and the number of a normal, or no slash. The numbers behind the
/// slashes are read and dropped.
pub open spec fn corner_at(line: Seq<u8>, at: int) -> Option<(usize, int)> {
    match index_at(line, at) {
        Some((vertex, slash)) => match slash_at(line, slash) {
            Some(texture) => match index_at(line, texture) {
                Some((_, end)) => match slash_at(line, end) {
                    Some(normal) => match index_at(line, normal) {
                        Some((_, last)) => Some((vertex, last)),
                        None => None,
                    },
                    None => Some((vertex, end)),
                },
                None => None,
            },
            None => None,
        },
        None => None,
    }
}

/// The three coordinates of a vertex line: the keyword `v`, three numbers,
/// and nothing behind them.
pub open spec fn vertex_of(line: Seq<u8>) -> Option<(Span, Span, Span)> {
    match keyword_at(line, 0, 0x76) {
        Some(p) => match number_at(line, p) {
            Some((x0, x1)) => match number_at(line, x1) {
                Some((y0, y1)) => match number_at(line, y1) {
                    Some((z0, z1)) => if ends_at(line, z1) {
                        Some(
                            (
                                Span { start: x0 as usize, end: x1 as usize },
                                Span { start: y0 as usize, end: y1 as usize },
                                Span { start: z0 as usize, end: z1 as usize },
                            ),
                        )
                    } else {
                        None
                    },
                    None => None,
                },
                None => None,
            },
            None => None,
        },
        None => None,
    }
}

/// The first three corners of a face line, and where the third ends: the
/// keyword `f` and three corners.
pub open spec fn three_corners_of(line: Seq<u8>) -> Option<(usize, usize, usize, int)> {
    match keyword_at(line, 0, 0x66) {
        Some(p) => match corner_at(line, p) {
            Some((a, end_a)) => match corner_at(line, end_a) {
                Some((b, end_b)) => match corner_at(line, end_b) {
                    Some((c, end_c)) => Some((a, b, c, end_c)),
                    None => None,
                },
                None => None,
            },
            None => None,
        },
        None => None,
    }
}

/// The vertex numbers of a face line of four corners, with nothing behind
/// them.
pub open spec fn quad_of(line: Seq<u8>) -> Option<(usize, usize, usize, usize)> {
    match three_corners_of(line) {
        Some((a, b, c, end_c)) => match corner_at(line, end_c) {
            Some((d, end_d)) => if ends_at(line, end_d) {
                Some((a, b, c, d))
            } else {
                None
            },
            None => None,
        },
        None => None,
    }
}

/// The vertex numbers of a face line of three corners, with nothing behind
/// them.
pub open spec fn triangle_of(line: Seq<u8>) -> Option<(usize, usize, usize)> {
    match three_corners_of(line) {
        Some((a, b, c, end_c)) => if ends_at(line, end_c) {
            Some((a, b, c))
        } else {
            None
        },
        None => None,
    }
}

/// What a line says: a vertex where it is a vertex line, else a face of four
/// corners where it is one, else a face of three corners where it is one, and
/// nothing else.
pub open spec fn line_of(line: Seq<u8>) -> Line {
    match vertex_of(line) {
        Some((x, y, z)) => Line::Vertex { x, y, z },
        None => match quad_of(line) {
            Some((a, b, c, d)) => Line::Quad { a, b, c, d },
            None => match triangle_of(line) {
                Some((a, b, c)) => Line::Triangle { a, b, c },
                None => Line::Other,
            },
        },
    }
}

/// Scans a corner, and tells the number of its vertex and where it ends.
fn scan_corner(line: &[u8], at: usize) -> (found: Option<(usize, usize)>)
    requires
        at <= line@.len(),
    ensures
        match found {
            Some((vertex, e)) => corner_at(line@, at as int) == Some((vertex, e as int)) && e
                <= line@.len(),
            None => corner_at(line@, at as int).is_none(),
        },
{
    match scan_index(line, at) {
        Some((vertex, slash)) => match scan_slash(line, slash) {
            Some(texture) => match scan_index(line, texture) {
                Some((_, end)) => match scan_slash(line, end) {
                    Some(normal) => match scan_index(line, normal) {
                        Some((_, last)) => Some((vertex, last)),
                        None => None,
                    },
                    None => Some((vertex, end)),
                },
                None => None,
            },
            None => None,
        },
        None => None,
    }
}

/// Reads a line as a vertex line.
fn parse_vertex(line: &[u8]) -> (found: Option<(Span, Span, Span)>)
    ensures
        found == vertex_of(line@),
{
    match scan_keyword(line, 0, 0x76) {
        Some(p) => match scan_number(line, p) {
            Some(x) => match scan_number(line, x.end) {
                Some(y) => match scan_number(line, y.end) {
                    Some(z) => if at_end(line, z.end) {
                        Some((x, y, z))
                    } else {
                        None
                    },
                    None => None,
                },
                None => None,
            },
            None => None,
        },
        None => None,
    }
}

/// Reads the first three corners of a face line.
fn parse_three_corners(line: &[u8]) -> (found: Option<(usize, usize, usize, usize)>)
    ensures
        match found {
            Some((a, b, c, e)) => three_corners_of(line@) == Some((a, b, c, e as int)) && e
                <= line@.len(),
            None => three_corners_of(line@).is_none(),
        },
{
    match scan_keyword(line, 0, 0x66) {
        Some(p) => match scan_corner(line, p) {
            Some((a, end_a)) => match scan_corner(line, end_a) {
                Some((b, end_b)) => match scan_corner(line, end_b) {
                    Some((c, end_c)) => Some((a, b, c, end_c)),
                    None => None,
                },
                None => None,
            },
            None => None,
        },
        None => None,
    }
}

/// Reads one line of a mesh file.
///
/// The line comes without its line end. The coordinates of a vertex are not
/// turned into numbers: the result tells where each stands in the line.
pub fn parse_line(line: &[u8]) -> (parsed: Line)
    ensures
        parsed == line_of(line@),
{
    match parse_vertex(line) {
        Some((x, y, z)) => {
            return Line::Vertex { x, y, z };
        },
        None => {},
    }
    match parse_three_corners(line) {
        Some((a, b, c, end_c)) => {
            match scan_corner(line, end_c) {
                Some((d, end_d)) => {
                    if at_end(line, end_d) {
                        return Line::Quad { a, b, c, d };
                    }
                },
                None => {},
            }
            if at_end(line, end_c) {
                Line::Triangle { a, b, c }
            } else {
                Line::Other
            }
        },
        None => Line::Other,
    }
}

/// A triangle of a mesh: the positions of its three corners in the list of
/// vertices, counted from zero.
#[derive(Clone, Copy, Debug, PartialEq, Eq, Structural)]
pub struct Corners {
    pub a: usize,
    pub b: usize,
    pub c: usize,
}

/// Why a line cannot be added to a mesh.
#[derive(Clone, Copy, Debug, PartialEq, Eq, Structural)]
pub enum MeshError {
    /// A face names a vertex that no line has given yet, or the vertex zero.
    UnknownVertex,
    /// The mesh has as many vertices as can be counted, and the line gives
    /// one more.
    TooManyVertices,
}

/// What a line has added to a mesh.
#[derive(Clone, Copy, Debug, PartialEq, Eq, Structural)]
pub enum Step {
    /// A vertex: where its three coordinates stand in the line.
    Vertex { x: Span, y: Span, z: Span },
    /// The triangles of a face: this many.
    Faces { count: usize },
    /// Nothing.
    Skipped,
}

/// Whether `number` names one of the first `count` vertices.
pub open spec fn names_vertex(number: usize, count: nat) -> bool {
    1 <= number <= count
}

/// The triangle with the vertices of the given numbers.
pub open spec fn corners_of(a: usize, b: usize, c: usize) -> Corners {
    Corners { a: (a - 1) as usize, b: (b - 1) as usize, c: (c - 1) as usize }
}

/// The triangles that a line adds to a mesh of `count` vertices: one for a
/// face of three corners; two for a face of four corners, which is cut from
/// its first corner to its third; none where the line is no face or names an
/// unknown vertex.
pub open spec fn triangles_of(line: Line, count: nat) -> Seq<Corners> {
    match line {
        Line::Triangle { a, b, c } => if names_vertex(a, count) && names_vertex(b, count)
            && names_vertex(c, count) {
            seq![corners_of(a, b, c)]
        } else {
            Seq::empty()
        },
        Line::Quad { a, b, c, d } => if names_vertex(a, count) && names_vertex(b, count)
            && names_vertex(c, count) && names_vertex(d, count) {
            seq![corners_of(a, b, c), corners_of(a, c, d)]
        } else {
            Seq::empty()
        },
        _ => Seq::empty(),
    }
}

/// Whether a line is a face that names an unknown vertex.
pub open spec fn names_unknown_vertex(line: Line, count: nat) -> bool {
    match line {
        Line::Triangle { a, b, c } => !(names_vertex(a, count) && names_vertex(b, count)
            && names_vertex(c, count)),
        Line::Quad { a, b, c, d } => !(names_vertex(a, count) && names_vertex(b, count)
            && names_vertex(c, count) && names_vertex(d, count)),
        _ => false,
    }
}

/// The mesh that the lines read so far have built: how many vertices they
/// gave, and the triangles of their faces. Every corner of every triangle is
/// one of the vertices.
pub struct Mesh {
    count: usize,
    triangles: Vec<Corners>,
}

impl Mesh {
    /// How many vertices the mesh has.
    pub closed spec fn vertices(&self) -> nat {
        self.count as nat
    }

    /// The triangles of the mesh, in the order of their lines.
    pub closed spec fn faces(&self) -> Seq<Corners> {
        self.triangles@
    }

    #[verifier::type_invariant]
    spec fn corners_are_vertices(&self) -> bool {
        forall|k: int|
            0 <= k < self.triangles@.len() ==> {
                &&& (#[trigger] self.triangles@[k]).a < self.count
                &&& self.triangles@[k].b < self.count
                &&& self.triangles@[k].c < self.count
            }
    }

    /// The mesh without a vertex and without a face.
    pub fn new() -> (mesh: Mesh)
        ensures
            mesh.vertices() == 0,
            mesh.faces() == Seq::<Corners>::empty(),
    {
        Mesh { count: 0, triangles: Vec::new() }
    }

    /// The mesh of `count` vertices without a face.
    pub fn of_vertices(count: usize) -> (mesh: Mesh)
        ensures
            mesh.vertices() == count,
            mesh.faces() == Seq::<Corners>::empty(),
    {
        Mesh { count, triangles: Vec::new() }
    }

    /// How many vertices the mesh has.
    pub fn vertex_count(&self) -> (count: usize)
        ensures
            count == self.vertices(),
    {
        self.count
    }

    /// The triangles of the mesh. Each corner is the position of a vertex.
    pub fn triangles(&self) -> (triangles: &Vec<Corners>)
        ensures
            triangles@ == self.faces(),
            forall|k: int|
                0 <= k < triangles@.len() ==> {
                    &&& (#[trigger] triangles@[k]).a < self.vertices()
                    &&& triangles@[k].b < self.vertices()
                    &&& triangles@[k].c < self.vertices()
                },
    {
        proof {
            use_type_invariant(self);
        }
        &self.triangles
    }

    /// Adds what one line of a mesh file says.
    ///
    /// A vertex line adds a vertex, and the result tells where its
    /// coordinates stand; it is an error where the vertices can no longer be
    /// counted. A face line adds its triangles, where every corner names a
    /// vertex that an earlier line gave; else it is an error. After an error
    /// the mesh is as it was. Any other line is skipped.
    pub fn read_line(&mut self, line: &[u8]) -> (step: Result<Step, MeshError>)
        ensures
            final(self).faces() == old(self).faces() + triangles_of(
                line_of(line@),
                old(self).vertices(),
            ),
            match line_of(line@) {
                Line::Vertex { x, y, z } => if old(self).vertices() < usize::MAX {
                    &&& step == Ok::<Step, MeshError>(Step::Vertex { x, y, z })
                    &&& final(self).vertices() == old(self).vertices() + 1
                } else {
                    &&& step == Err::<Step, MeshError>(MeshError::TooManyVertices)
                    &&& final(self).vertices() == old(self).vertices()
                },
                Line::Other => {
                    &&& step == Ok::<Step, MeshError>(Step::Skipped)
                    &&& final(self).vertices() == old(self).vertices()
                },
                face => {
                    &&& final(self).vertices() == old(self).vertices()
                    &&& step == if names_unknown_vertex(face, old(self).vertices()) {
                        Err::<Step, MeshError>(MeshError::UnknownVertex)
                    } else {
                        Ok::<Step, MeshError>(
                            Step::Faces {
                                count: triangles_of(face, old(self).vertices()).len() as usize,
                            },
                        )
                    }
                },
            },
    {
        proof {
            use_type_invariant(&*self);
        }
        let ghost before = self.triangles@;
        match parse_line(line) {
            Line::Vertex { x, y, z } => {
                assert(self.triangles@ =~= before + Seq::<Corners>::empty());
                if self.count < usize::MAX {
                    self.count = self.count + 1;
                    Ok(Step::Vertex { x, y, z })
                } else {
                    Err(MeshError::TooManyVertices)
                }
            },
            Line::Triangle { a, b, c } => {
                if self.names(a) && self.names(b) && self.names(c) {
                    let mut list: Vec<Corners> = Vec::new();
                    std::mem::swap(&mut list, &mut self.triangles);
                    list.push(Corners { a: a - 1, b: b - 1, c: c - 1 });
                    self.triangles = list;
                    assert(self.triangles@ =~= before + seq![corners_of(a, b, c)]);
                    Ok(Step::Faces { count: 1 })
                } else {
                    assert(self.triangles@ =~= before + Seq::<Corners>::empty());
                    Err(MeshError::UnknownVertex)
                }
            },
            Line::Quad { a, b, c, d } => {
                if self.names(a) && self.names(b) && self.names(c) && self.names(d) {
                    let mut list: Vec<Corners> = Vec::new();
                    std::mem::swap(&mut list, &mut self.triangles);
                    list.push(Corners { a: a - 1, b: b - 1, c: c - 1 });
                    list.push(Corners { a: a - 1, b: c - 1, c: d - 1 });
                    self.triangles = list;
                    assert(self.triangles@ =~= before + seq![
                        corners_of(a, b, c),
                        corners_of(a, c, d),
                    ]);
                    Ok(Step::Faces { count: 2 })
                } else {
                    assert(self.triangles@ =~= before + Seq::<Corners>::empty());
                    Err(MeshError::UnknownVertex)
                }
            },
            Line::Other => {
                assert(self.triangles@ =~= before + Seq::<Corners>::empty());
                Ok(Step::Skipped)
            },
        }
    }

    /// Whether `number` names a vertex of the mesh.
    fn names(&self, number: usize) -> (known: bool)
        ensures
            known == names_vertex(number, self.vertices()),
    {
        1 <= number && number <= self.count
    }
}

} // verus!
