//! The index buffers of a baked part: triangles, edges and optional edges,
//! as indices into the part's vertex buffer, with the colour code of each
//! edge.
//!
//! The vertex buffer itself (which merges vertices closer than the float
//! epsilon) belongs to the baker; these buffers take the index it gave each
//! vertex.

use vstd::prelude::*;

use crate::color::ColorReference;

verus! {

/// Triangles: for each corner, the index of its vertex and of its normal.
#[derive(Clone, Debug, Default)]
pub struct MeshBuffer {
    pub vertex_indices: Vec<u32>,
    pub normal_indices: Vec<u32>,
}

impl MeshBuffer {
    /// How many corners there are.
    pub fn len(&self) -> (res: usize)
        ensures
            res == self.vertex_indices@.len(),
    {
        self.vertex_indices.len()
    }

    /// Whether there is no corner.
    pub fn is_empty(&self) -> (res: bool)
        ensures
            res == (self.vertex_indices@.len() == 0),
    {
        self.vertex_indices.len() == 0
    }

    /// Whether each corner has a normal.
    pub fn is_valid(&self) -> (res: bool)
        ensures
            res == (self.vertex_indices@.len() == self.normal_indices@.len()),
    {
        self.vertex_indices.len() == self.normal_indices.len()
    }

    /// Adds a corner: the indices that the vertex buffer gave its vertex and
    /// its normal.
    pub fn add(&mut self, vertex_index: u32, normal_index: u32)
        ensures
            final(self).vertex_indices@ == old(self).vertex_indices@.push(vertex_index),
            final(self).normal_indices@ == old(self).normal_indices@.push(normal_index),
    {
        self.vertex_indices.push(vertex_index);
        self.normal_indices.push(normal_index);
    }

    /// Adds corners, their vertices' indices and their normals'.
    pub fn add_indices(&mut self, vertex_indices: Vec<u32>, normal_indices: Vec<u32>)
        ensures
            final(self).vertex_indices@ == old(self).vertex_indices@ + vertex_indices@,
            final(self).normal_indices@ == old(self).normal_indices@ + normal_indices@,
    {
        let mut vertex_indices = vertex_indices;
        let mut normal_indices = normal_indices;
        self.vertex_indices.append(&mut vertex_indices);
        self.normal_indices.append(&mut normal_indices);
    }
}

/// The colour code that an edge coloured `color` takes inside a part whose
/// colour is `top`: a colour gives its own code; the inherited colour (16)
/// gives `top`'s code, or `0x8000_0000` where `top` is no colour; the edge
/// colour (24) gives `top`'s code, or `0x4000_0000` where `top` is no
/// colour; anything else gives 0. (The flag the code sets beside a colour,
/// `2 << 31`, falls outside 32 bits and is 0.)
pub open spec fn edge_color_code(color: ColorReference, top: ColorReference) -> u32 {
    match color {
        ColorReference::Current => match top {
            ColorReference::Color(c) => c.code,
            _ => 0x8000_0000,
        },
        ColorReference::Complement => match top {
            ColorReference::Color(c) => c.code,
            _ => 0x4000_0000,
        },
        ColorReference::Color(c) => c.code,
        _ => 0,
    }
}

/// The colour code of an edge coloured `color` inside a part coloured
/// `top`.
fn color_code(color: &ColorReference, top: &ColorReference) -> (res: u32)
    ensures
        res == edge_color_code(*color, *top),
{
    assert((2u32 << 31u32) == 0u32) by (bit_vector);
    assert(forall|c: u32| (0u32 | c) == c) by (bit_vector);
    assert((2u32 << 30u32) == 0x8000_0000u32) by (bit_vector);
    assert((2u32 << 29u32) == 0x4000_0000u32) by (bit_vector);
    if color.is_current() {
        if let Some(c) = top.get_color() {
            2u32 << 31u32 | c.code
        } else {
            2u32 << 30u32
        }
    } else if color.is_complement() {
        if let Some(c) = top.get_color() {
            c.code
        } else {
            2u32 << 29u32
        }
    } else if let Some(c) = color.get_color() {
        2u32 << 31u32 | c.code
    } else {
        0
    }
}

/// Edges: for each end, the index of its vertex and the colour code of its
/// edge.
#[derive(Clone, Debug, Default)]
pub struct EdgeBuffer {
    pub vertex_indices: Vec<u32>,
    pub colors: Vec<u32>,
}

impl EdgeBuffer {
    /// Adds an end: the index the vertex buffer gave its vertex, and the
    /// code of its colour `color` inside a part coloured `top`.
    pub fn add(&mut self, vertex_index: u32, color: &ColorReference, top: &ColorReference)
        ensures
            final(self).vertex_indices@ == old(self).vertex_indices@.push(vertex_index),
            final(self).colors@ == old(self).colors@.push(edge_color_code(*color, *top)),
    {
        self.vertex_indices.push(vertex_index);
        let code = color_code(color, top);
        self.colors.push(code);
    }

    /// How many ends there are.
    pub fn len(&self) -> (res: usize)
        ensures
            res == self.vertex_indices@.len(),
    {
        self.vertex_indices.len()
    }

    /// Whether there is no end.
    pub fn is_empty(&self) -> (res: bool)
        ensures
            res == (self.vertex_indices@.len() == 0),
    {
        self.vertex_indices.len() == 0
    }

    /// Whether each end has a colour.
    pub fn is_valid(&self) -> (res: bool)
        ensures
            res == (self.vertex_indices@.len() == self.colors@.len()),
    {
        self.vertex_indices.len() == self.colors.len()
    }
}

/// Optional edges: for each end, the index of its vertex, of the two control
/// points, of the edge's direction, and the colour code of the edge.
#[derive(Clone, Debug, Default)]
pub struct OptionalEdgeBuffer {
    pub vertex_indices: Vec<u32>,
    pub control_1_indices: Vec<u32>,
    pub control_2_indices: Vec<u32>,
    pub direction_indices: Vec<u32>,
    pub colors: Vec<u32>,
}

impl OptionalEdgeBuffer {
    /// Adds an optional edge: the indices the vertex buffer gave its two
    /// ends, its two control points and its direction (the second end less
    /// the first), and its colour `color` inside a part coloured `top`.
    /// Both ends share the control points, the direction and the colour.
    pub fn add(
        &mut self,
        v1: u32,
        v2: u32,
        c1: u32,
        c2: u32,
        d: u32,
        color: &ColorReference,
        top: &ColorReference,
    )
        ensures
            final(self).vertex_indices@ == old(self).vertex_indices@.push(v1).push(v2),
            final(self).control_1_indices@ == old(self).control_1_indices@.push(c1).push(c1),
            final(self).control_2_indices@ == old(self).control_2_indices@.push(c2).push(c2),
            final(self).direction_indices@ == old(self).direction_indices@.push(d).push(d),
            final(self).colors@ == old(self).colors@.push(edge_color_code(*color, *top)).push(
                edge_color_code(*color, *top),
            ),
    {
        self.vertex_indices.push(v1);
        self.vertex_indices.push(v2);
        self.control_1_indices.push(c1);
        self.control_1_indices.push(c1);
        self.control_2_indices.push(c2);
        self.control_2_indices.push(c2);
        self.direction_indices.push(d);
        self.direction_indices.push(d);
        let code = color_code(color, top);
        self.colors.push(code);
        self.colors.push(code);
    }

    /// How many ends there are.
    pub fn len(&self) -> (res: usize)
        ensures
            res == self.vertex_indices@.len(),
    {
        self.vertex_indices.len()
    }

    /// Whether there is no end.
    pub fn is_empty(&self) -> (res: bool)
        ensures
            res == (self.vertex_indices@.len() == 0),
    {
        self.vertex_indices.len() == 0
    }

    /// Whether every end has its control points, direction and colour.
    pub fn is_valid(&self) -> (res: bool)
        ensures
            res == (self.vertex_indices@.len() == self.control_1_indices@.len() && self.vertex_indices@.len()
                == self.control_2_indices@.len() && self.vertex_indices@.len() == self.direction_indices@.len()
                && self.vertex_indices@.len() == self.colors@.len()),
    {
        self.vertex_indices.len() == self.control_1_indices.len() && self.vertex_indices.len()
            == self.control_2_indices.len() && self.vertex_indices.len() == self.direction_indices.len()
            && self.vertex_indices.len() == self.colors.len()
    }
}

} // verus!
