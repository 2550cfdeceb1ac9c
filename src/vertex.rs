use vstd::prelude::*;

use crate::builder::ImportError;
use crate::matrix::Vec3;

verus! {

/// A two-component vector of raw fixed-point values.
#[derive(Clone, Copy, Debug, PartialEq, Eq)]
pub struct Vec2 {
    pub x: i64,
    pub y: i64,
}

/// A four-component vector of raw fixed-point values.
#[derive(Clone, Copy, Debug, PartialEq, Eq)]
pub struct Vec4 {
    pub x: i64,
    pub y: i64,
    pub z: i64,
    pub w: i64,
}

/// The attributes of one vertex; an absent attribute is not packed at all.
#[derive(Clone, Copy, Debug, PartialEq, Eq)]
pub struct Vertex {
    pub position: Option<Vec3>,
    pub normal: Option<Vec3>,
    pub tex_coords_0: Option<Vec2>,
    pub tex_coords_1: Option<Vec2>,
    pub joints_0: Option<Vec4>,
    pub weights_0: Option<Vec4>,
}

/// One configured vertex attribute: its slot, component count, and the stride and offset
/// of the interleaved layout, both counted in components.
#[derive(Clone, Copy, Debug, PartialEq, Eq, Structural)]
pub struct AttributeLayout {
    pub slot: u32,
    pub count: u32,
    pub stride: u32,
    pub offset: u32,
}

pub open spec fn vec2_seq(v: Option<Vec2>) -> Seq<i64> {
    match v {
        Some(v) => seq![v.x, v.y],
        None => seq![],
    }
}

pub open spec fn vec3_seq(v: Option<Vec3>) -> Seq<i64> {
    match v {
        Some(v) => seq![v.x, v.y, v.z],
        None => seq![],
    }
}

pub open spec fn vec4_seq(v: Option<Vec4>) -> Seq<i64> {
    match v {
        Some(v) => seq![v.x, v.y, v.z, v.w],
        None => seq![],
    }
}

/// The packed components of a vertex: position, normal, first texture coordinates, first
/// joints and first weights, each only when present.
pub open spec fn packed(v: Vertex) -> Seq<i64> {
    vec3_seq(v.position) + vec3_seq(v.normal) + vec2_seq(v.tex_coords_0) + vec4_seq(v.joints_0)
        + vec4_seq(v.weights_0)
}

/// The packed components of a run of vertices, one after another.
pub open spec fn packed_all(vs: Seq<Vertex>) -> Seq<i64>
    decreases vs.len(),
{
    if vs.len() == 0 {
        seq![]
    } else {
        packed_all(vs.drop_last()) + packed(vs.last())
    }
}

/// The component count of each attribute that `v` has, in packing order.
pub open spec fn lengths_of(v: Vertex) -> Seq<u32> {
    (if v.position is Some { seq![3u32] } else { seq![] }) + (if v.normal is Some {
        seq![3u32]
    } else {
        seq![]
    }) + (if v.tex_coords_0 is Some { seq![2u32] } else { seq![] }) + (if v.joints_0 is Some {
        seq![4u32]
    } else {
        seq![]
    }) + (if v.weights_0 is Some { seq![4u32] } else { seq![] })
}

/// The sum of the first `n` lengths.
pub open spec fn prefix_sum(lengths: Seq<u32>, n: int) -> int
    decreases n,
{
    if n <= 0 {
        0
    } else {
        prefix_sum(lengths, n - 1) + lengths[n - 1]
    }
}

/// The layout of interleaved attributes of the given lengths: one slot each, in order,
/// the stride their sum and each offset the sum of those before it.
pub open spec fn layout_of(lengths: Seq<u32>) -> Seq<AttributeLayout> {
    Seq::new(
        lengths.len(),
        |i: int|
            AttributeLayout {
                slot: i as u32,
                count: lengths[i],
                stride: prefix_sum(lengths, lengths.len() as int) as u32,
                offset: prefix_sum(lengths, i) as u32,
            },
    )
}

fn push_vec2(data: &mut Vec<i64>, v: Option<Vec2>)
    ensures
        final(data)@ == old(data)@ + vec2_seq(v),
{
    if let Some(v) = v {
        data.push(v.x);
        data.push(v.y);
    }
    proof {
        assert(final(data)@ =~= old(data)@ + vec2_seq(v));
    }
}

fn push_vec3(data: &mut Vec<i64>, v: Option<Vec3>)
    ensures
        final(data)@ == old(data)@ + vec3_seq(v),
{
    if let Some(v) = v {
        data.push(v.x);
        data.push(v.y);
        data.push(v.z);
    }
    proof {
        assert(final(data)@ =~= old(data)@ + vec3_seq(v));
    }
}

fn push_vec4(data: &mut Vec<i64>, v: Option<Vec4>)
    ensures
        final(data)@ == old(data)@ + vec4_seq(v),
{
    if let Some(v) = v {
        data.push(v.x);
        data.push(v.y);
        data.push(v.z);
        data.push(v.w);
    }
    proof {
        assert(final(data)@ =~= old(data)@ + vec4_seq(v));
    }
}

impl Vertex {
    /// Appends the vertex's packed components to `data`.
    pub fn pack_into(&self, data: &mut Vec<i64>)
        ensures
            final(data)@ == old(data)@ + packed(*self),
    {
        let ghost start = data@;
        push_vec3(data, self.position);
        push_vec3(data, self.normal);
        push_vec2(data, self.tex_coords_0);
        push_vec4(data, self.joints_0);
        push_vec4(data, self.weights_0);
        proof {
            assert(data@ =~= start + packed(*self));
        }
    }

    /// The vertex's components in packing order.
    pub fn pack_data(&self) -> (r: Vec<i64>)
        ensures
            r@ == packed(*self),
    {
        let mut data: Vec<i64> = Vec::new();
        self.pack_into(&mut data);
        proof {
            assert(data@ =~= packed(*self));
        }
        data
    }
}

/// The vertices of one primitive.
#[derive(Debug)]
pub struct VertexSet {
    pub vertices: Vec<Vertex>,
}

impl VertexSet {
    /// All vertices packed one after another.
    pub fn pack_vertices(&self) -> (r: Vec<i64>)
        ensures
            r@ == packed_all(self.vertices@),
    {
        let mut data: Vec<i64> = Vec::new();
        let mut i: usize = 0;
        while i < self.vertices.len()
            invariant
                0 <= i <= self.vertices@.len(),
                data@ == packed_all(self.vertices@.subrange(0, i as int)),
            decreases self.vertices@.len() - i,
        {
            proof {
                assert(self.vertices@.subrange(0, i + 1).drop_last() =~= self.vertices@.subrange(
                    0,
                    i as int,
                ));
            }
            self.vertices[i].pack_into(&mut data);
            i += 1;
        }
        proof {
            assert(self.vertices@.subrange(0, i as int) =~= self.vertices@);
        }
        data
    }

    /// The component count of each attribute, in packing order, as the first vertex has
    /// them; none when there is no vertex.
    pub fn data_lengths(&self) -> (r: Vec<u32>)
        ensures
            self.vertices@.len() == 0 ==> r@.len() == 0,
            self.vertices@.len() > 0 ==> r@ == lengths_of(self.vertices@[0]),
            r@.len() <= 5,
            forall|i: int| 0 <= i < r@.len() ==> #[trigger] r@[i] <= 4,
    {
        let mut data_lengths: Vec<u32> = Vec::new();
        if self.vertices.len() == 0 {
            return data_lengths;
        }
        let first = &self.vertices[0];
        if first.position.is_some() {
            data_lengths.push(3);
        }
        if first.normal.is_some() {
            data_lengths.push(3);
        }
        if first.tex_coords_0.is_some() {
            data_lengths.push(2);
        }
        if first.joints_0.is_some() {
            data_lengths.push(4);
        }
        if first.weights_0.is_some() {
            data_lengths.push(4);
        }
        proof {
            assert(data_lengths@ =~= lengths_of(self.vertices@[0]));
        }
        data_lengths
    }

    /// The attribute layout that matches the packing: one slot per present attribute.
    pub fn attribute_layout(&self) -> (r: Vec<AttributeLayout>)
        ensures
            self.vertices@.len() == 0 ==> r@.len() == 0,
            self.vertices@.len() > 0 ==> r@ == layout_of(lengths_of(self.vertices@[0])),
    {
        let lengths = self.data_lengths();
        proof {
            assert(lengths@.len() <= 5);
            assert forall|n: int| 0 <= n <= lengths@.len() implies 0 <= #[trigger] prefix_sum(
                lengths@,
                n,
            ) <= 4 * n by {
                lemma_prefix_sum_bound(lengths@, n);
            }
        }
        let mut total: u32 = 0;
        let mut k: usize = 0;
        while k < lengths.len()
            invariant
                0 <= k <= lengths@.len() <= 5,
                total == prefix_sum(lengths@, k as int),
                forall|n: int|
                    0 <= n <= lengths@.len() ==> 0 <= #[trigger] prefix_sum(lengths@, n) <= 4 * n,
            decreases lengths@.len() - k,
        {
            proof {
                assert(prefix_sum(lengths@, k + 1) == prefix_sum(lengths@, k as int) + lengths@[k as int]);
                assert(prefix_sum(lengths@, k + 1) <= 4 * (k + 1));
            }
            total = total + lengths[k];
            k += 1;
        }
        let mut r: Vec<AttributeLayout> = Vec::new();
        let mut offset: u32 = 0;
        let mut i: usize = 0;
        while i < lengths.len()
            invariant
                0 <= i <= lengths@.len() <= 5,
                total == prefix_sum(lengths@, lengths@.len() as int),
                offset == prefix_sum(lengths@, i as int),
                forall|n: int|
                    0 <= n <= lengths@.len() ==> 0 <= #[trigger] prefix_sum(lengths@, n) <= 4 * n,
                r@ == layout_of(lengths@).subrange(0, i as int),
            decreases lengths@.len() - i,
        {
            r.push(AttributeLayout { slot: i as u32, count: lengths[i], stride: total, offset });
            proof {
                assert(prefix_sum(lengths@, i + 1) == prefix_sum(lengths@, i as int) + lengths@[i as int]);
                assert(prefix_sum(lengths@, i + 1) <= 4 * (i + 1));
            }
            offset = offset + lengths[i];
            i += 1;
            proof {
                assert(r@ =~= layout_of(lengths@).subrange(0, i as int));
            }
        }
        proof {
            assert(r@ =~= layout_of(lengths@));
        }
        r
    }
}

/// Element `i` of `s`, when there is one.
pub open spec fn at<T>(s: Seq<T>, i: int) -> Option<T> {
    if 0 <= i < s.len() {
        Some(s[i])
    } else {
        None
    }
}

/// Vertex `i` assembled from the attribute arrays: its position, and each other attribute
/// whose array reaches that far.
pub open spec fn assembled(
    positions: Seq<Vec3>,
    normals: Seq<Vec3>,
    tex_coords_0: Seq<Vec2>,
    tex_coords_1: Seq<Vec2>,
    joints_0: Seq<Vec4>,
    weights_0: Seq<Vec4>,
    i: int,
) -> Vertex {
    Vertex {
        position: Some(positions[i]),
        normal: at(normals, i),
        tex_coords_0: at(tex_coords_0, i),
        tex_coords_1: at(tex_coords_1, i),
        joints_0: at(joints_0, i),
        weights_0: at(weights_0, i),
    }
}

fn get_at<T: Copy>(v: &Vec<T>, i: usize) -> (r: Option<T>)
    ensures
        r == at(v@, i as int),
{
    if i < v.len() {
        Some(v[i])
    } else {
        None
    }
}

/// Assembles a primitive's vertices, one per position; an absent optional attribute is
/// given as an empty array. A primitive without positions cannot be imported.
pub fn assemble_vertices(
    positions: Option<Vec<Vec3>>,
    normals: &Vec<Vec3>,
    tex_coords_0: &Vec<Vec2>,
    tex_coords_1: &Vec<Vec2>,
    joints_0: &Vec<Vec4>,
    weights_0: &Vec<Vec4>,
) -> (r: Result<VertexSet, ImportError>)
    ensures
        positions is None <==> r == Err::<VertexSet, ImportError>(ImportError::MissingPositions),
        positions matches Some(p) ==> r matches Ok(vs) && vs.vertices@.len() == p@.len()
            && forall|i: int|
            0 <= i < p@.len() ==> #[trigger] vs.vertices@[i] == assembled(
                p@,
                normals@,
                tex_coords_0@,
                tex_coords_1@,
                joints_0@,
                weights_0@,
                i,
            ),
{
    let positions = match positions {
        Some(p) => p,
        None => {
            return Err(ImportError::MissingPositions);
        },
    };
    let mut vertices: Vec<Vertex> = Vec::new();
    let mut i: usize = 0;
    while i < positions.len()
        invariant
            0 <= i <= positions@.len(),
            vertices@.len() == i,
            forall|k: int|
                0 <= k < i ==> #[trigger] vertices@[k] == assembled(
                    positions@,
                    normals@,
                    tex_coords_0@,
                    tex_coords_1@,
                    joints_0@,
                    weights_0@,
                    k,
                ),
        decreases positions@.len() - i,
    {
        vertices.push(
            Vertex {
                position: Some(positions[i]),
                normal: get_at(normals, i),
                tex_coords_0: get_at(tex_coords_0, i),
                tex_coords_1: get_at(tex_coords_1, i),
                joints_0: get_at(joints_0, i),
                weights_0: get_at(weights_0, i),
            },
        );
        i += 1;
    }
    Ok(VertexSet { vertices })
}

/// A primitive whose vertices have positions and normals and nothing else is laid out as
/// two attributes of three components, with a stride of six and offsets zero and three.
pub proof fn lemma_position_normal_layout(vs: Seq<Vertex>)
    requires
        vs.len() > 0,
        vs[0].position is Some,
        vs[0].normal is Some,
        vs[0].tex_coords_0 is None,
        vs[0].joints_0 is None,
        vs[0].weights_0 is None,
    ensures
        layout_of(lengths_of(vs[0])) == seq![
            AttributeLayout { slot: 0, count: 3, stride: 6, offset: 0 },
            AttributeLayout { slot: 1, count: 3, stride: 6, offset: 3 },
        ],
{
    let l = lengths_of(vs[0]);
    assert(l =~= seq![3u32, 3u32]);
    assert(prefix_sum(l, 0) == 0);
    assert(l[0] == 3 && l[1] == 3);
    assert(prefix_sum(l, 1) == 3);
    assert(prefix_sum(l, 2) == 6);
    assert(layout_of(l) =~= seq![
        AttributeLayout { slot: 0, count: 3, stride: 6, offset: 0 },
        AttributeLayout { slot: 1, count: 3, stride: 6, offset: 3 },
    ]);
}

proof fn lemma_prefix_sum_bound(lengths: Seq<u32>, n: int)
    requires
        0 <= n <= lengths.len(),
        forall|i: int| 0 <= i < lengths.len() ==> lengths[i] <= 4,
    ensures
        0 <= prefix_sum(lengths, n) <= 4 * n,
    decreases n,
{
    if n > 0 {
        lemma_prefix_sum_bound(lengths, n - 1);
    }
}

} // verus!
