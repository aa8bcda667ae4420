//! Vertex adjacency data for mesh objects, and its packed record form.
//!
//! Adjacency lists the vertex indices of the faces around each vertex,
//! including faces that only touch through a duplicated ("split") vertex at
//! the same position.  Each vertex gets a fixed number of slots; unused
//! slots hold `-1`.

use vstd::prelude::*;
use vstd::std_specs::cmp::PartialEqSpec;

use crate::mesh_data::{MeshObjectData, VectorData};

verus! {

/// On disk, each vertex gets this many adjacency slots: at most nine
/// adjacent triangles, two vertices each, with the shared vertex omitted.
pub const MAX_ADJACENT_VERTICES: usize = 18;

/// Errors while converting between the record and friendly adjacency forms.
#[derive(Debug)]
pub enum Error {
    /// An error reported by a caller-supplied buffer writer.
    Io,
    /// A computed byte range does not lie inside the index buffer.
    BufferOffsetOutOfRange { start: usize, end: usize, buffer_size: usize },
}

/// What one face `(a, b, c)` contributes to the adjacency row of vertex `v`:
/// for each corner equal to `v`, the other two corners in winding order.
pub open spec fn face_contribution(a: u32, b: u32, c: u32, v: int) -> Seq<i16> {
    (if a as int == v {
        seq![b as i16, c as i16]
    } else {
        Seq::empty()
    }) + (if b as int == v {
        seq![c as i16, a as i16]
    } else {
        Seq::empty()
    }) + (if c as int == v {
        seq![a as i16, b as i16]
    } else {
        Seq::empty()
    })
}

/// The adjacency row of vertex `v` over the first `nfaces` complete faces.
pub open spec fn adjacency_row(indices: Seq<u32>, v: int, nfaces: int) -> Seq<i16>
    decreases nfaces,
{
    if nfaces <= 0 {
        Seq::empty()
    } else {
        adjacency_row(indices, v, nfaces - 1) + face_contribution(
            indices[3 * (nfaces - 1)],
            indices[3 * (nfaces - 1) + 1],
            indices[3 * (nfaces - 1) + 2],
            v,
        )
    }
}

/// The row of vertex `i` after merging split edges: the concatenation of the
/// rows of the first `j` vertices whose position equals the position of `i`.
pub open spec fn seam_row<T: PartialEqSpec>(
    positions: Seq<T>,
    indices: Seq<u32>,
    nfaces: int,
    i: int,
    j: int,
) -> Seq<i16>
    decreases j,
{
    if j <= 0 {
        Seq::empty()
    } else {
        seam_row(positions, indices, nfaces, i, j - 1) + (if positions[j - 1].eq_spec(
            &positions[i],
        ) {
            adjacency_row(indices, j - 1, nfaces)
        } else {
            Seq::empty()
        })
    }
}

/// A row brought to exactly `pad` slots: truncated, or filled with `-1`.
pub open spec fn padded_row(row: Seq<i16>, pad: nat) -> Seq<i16> {
    if row.len() >= pad {
        row.take(pad as int)
    } else {
        row + Seq::new((pad - row.len()) as nat, |k: int| -1i16)
    }
}

/// The padded rows of the first `v` vertices, concatenated.
pub open spec fn adjacency_prefix<T: PartialEqSpec>(
    indices: Seq<u32>,
    positions: Seq<T>,
    pad: nat,
    v: int,
) -> Seq<i16>
    decreases v,
{
    if v <= 0 {
        Seq::empty()
    } else {
        adjacency_prefix(indices, positions, pad, v - 1) + padded_row(
            seam_row(positions, indices, indices.len() as int / 3, v - 1, positions.len() as int),
            pad,
        )
    }
}

/// The full adjacency buffer: one padded, seam-merged row per vertex.
pub open spec fn spec_triangle_adjacency<T: PartialEqSpec>(
    indices: Seq<u32>,
    positions: Seq<T>,
    pad: nat,
) -> Seq<i16> {
    adjacency_prefix(indices, positions, pad, positions.len() as int)
}

/// Computes the per-vertex adjacency buffer from triangle faces.
///
/// `vertex_indices` is read in complete faces of three; a trailing partial
/// face is ignored.  Every index of a complete face must name a vertex.
/// Two vertices at equal positions share their adjacent faces, which keeps
/// recalculated normals free of seams.  Each vertex receives exactly
/// `padding_size` slots.
#[verifier::rlimit(80)]
pub fn triangle_adjacency<T: PartialEq>(
    vertex_indices: &[u32],
    vertex_positions: &[T],
    padding_size: usize,
) -> (r: Vec<i16>)
    requires
        forall|k: int|
            0 <= k < 3 * (vertex_indices@.len() as int / 3) ==> (vertex_indices@[k] as int)
                < vertex_positions@.len(),
    ensures
        r@.len() == vertex_positions@.len() * padding_size,
        T::obeys_eq_spec() ==> r@ == spec_triangle_adjacency(
            vertex_indices@,
            vertex_positions@,
            padding_size as nat,
        ),
{
    let n: usize = vertex_positions.len();
    let total: usize = vertex_indices.len();
    let nfaces: usize = total / 3;
    proof {
        assert(3 * (total as int / 3) <= total as int) by (nonlinear_arith);
    }

    // The faces adjacent to each vertex, one row per vertex.
    let mut rows: Vec<Vec<i16>> = Vec::new();
    for v in 0..n
        invariant
            rows@.len() == v,
            forall|w: int| 0 <= w < v ==> rows@[w]@ == adjacency_row(vertex_indices@, w, nfaces as int),
            nfaces == vertex_indices@.len() / 3,
            3 * (nfaces as int) <= total as int,
            total == vertex_indices@.len(),
            forall|k: int|
                0 <= k < 3 * (nfaces as int) ==> (vertex_indices@[k] as int) < n,
            n == vertex_positions@.len(),
    {
        let mut row: Vec<i16> = Vec::new();
        for f in 0..nfaces
            invariant
                row@ == adjacency_row(vertex_indices@, v as int, f as int),
                nfaces == vertex_indices@.len() / 3,
                3 * (nfaces as int) <= total as int,
                total == vertex_indices@.len(),
                forall|k: int|
                    0 <= k < 3 * (nfaces as int) ==> (vertex_indices@[k] as int) < n,
                v < n,
                n == vertex_positions@.len(),
        {
            proof {
                assert(3 * (f as int) + 2 < 3 * (nfaces as int));
            }
            let a = vertex_indices[3 * f];
            let b = vertex_indices[3 * f + 1];
            let c = vertex_indices[3 * f + 2];
            if a as usize == v {
                row.push(#[verifier::truncate] (b as i16));
                row.push(#[verifier::truncate] (c as i16));
            }
            if b as usize == v {
                row.push(#[verifier::truncate] (c as i16));
                row.push(#[verifier::truncate] (a as i16));
            }
            if c as usize == v {
                row.push(#[verifier::truncate] (a as i16));
                row.push(#[verifier::truncate] (b as i16));
            }
            proof {
                assert(row@ =~= adjacency_row(vertex_indices@, v as int, f + 1));
            }
        }
        rows.push(row);
    }

    // Merge rows of vertices that share a position, pad, and flatten.
    let mut result: Vec<i16> = Vec::new();
    proof {
        assert(0 * padding_size == 0) by (nonlinear_arith);
    }
    for i in 0..n
        invariant
            result@.len() == i * padding_size,
            T::obeys_eq_spec() ==> result@ == adjacency_prefix(
                vertex_indices@,
                vertex_positions@,
                padding_size as nat,
                i as int,
            ),
            rows@.len() == n,
            forall|w: int| 0 <= w < n ==> rows@[w]@ == adjacency_row(vertex_indices@, w, nfaces as int),
            nfaces == vertex_indices@.len() / 3,
            n == vertex_positions@.len(),
    {
        let mut merged: Vec<i16> = Vec::new();
        for j in 0..n
            invariant
                T::obeys_eq_spec() ==> merged@ == seam_row(
                    vertex_positions@,
                    vertex_indices@,
                    nfaces as int,
                    i as int,
                    j as int,
                ),
                rows@.len() == n,
                forall|w: int|
                    0 <= w < n ==> rows@[w]@ == adjacency_row(vertex_indices@, w, nfaces as int),
                nfaces == vertex_indices@.len() / 3,
                n == vertex_positions@.len(),
                i < n,
        {
            let ghost merged_before = merged@;
            if vertex_positions[j] == vertex_positions[i] {
                let src = &rows[j];
                let len = src.len();
                for k in 0..len
                    invariant
                        merged@ == merged_before + src@.take(k as int),
                        src@.len() == len,
                        rows@.len() == n,
                        j < n,
                        src@ == rows@[j as int]@,
                {
                    merged.push(src[k]);
                    proof {
                        assert(merged@ =~= merged_before + src@.take(k + 1));
                    }
                }
                proof {
                    assert(merged@ =~= merged_before + src@);
                }
            }
            proof {
                if T::obeys_eq_spec() {
                    assert(merged@ =~= seam_row(
                        vertex_positions@,
                        vertex_indices@,
                        nfaces as int,
                        i as int,
                        j + 1,
                    ));
                }
            }
        }
        // Bring the merged row to exactly `padding_size` slots.
        let ghost result_before = result@;
        if merged.len() >= padding_size {
            for k in 0..padding_size
                invariant
                    result@.len() == i * padding_size + k,
                    merged@.len() >= padding_size,
                    result@ == result_before + merged@.take(k as int),
                    result_before.len() == i * padding_size,
            {
                result.push(merged[k]);
                proof {
                    assert(result@ =~= result_before + merged@.take(k + 1));
                }
            }
        } else {
            let start = merged.len();
            for k in 0..start
                invariant
                    result@.len() == i * padding_size + k,
                    merged@.len() == start,
                    start < padding_size,
                    result@ == result_before + merged@.take(k as int),
                    result_before.len() == i * padding_size,
            {
                result.push(merged[k]);
                proof {
                    assert(result@ =~= result_before + merged@.take(k + 1));
                }
            }
            proof {
                assert(result@ =~= result_before + merged@);
            }
            for k in start..padding_size
                invariant
                    result@.len() == i * padding_size + k,
                    merged@.len() == start,
                    start < padding_size,
                    result@ == result_before + merged@ + Seq::new(
                        (k - start) as nat,
                        |m: int| -1i16,
                    ),
                    result_before.len() == i * padding_size,
            {
                result.push(-1i16);
                proof {
                    assert(result@ =~= result_before + merged@ + Seq::new(
                        (k + 1 - start) as nat,
                        |m: int| -1i16,
                    ));
                }
            }
        }
        proof {
            assert(result@.len() == i * padding_size + padding_size);
            assert((i + 1) * padding_size == i * padding_size + padding_size) by (nonlinear_arith);
            if T::obeys_eq_spec() {
                assert(result@ =~= adjacency_prefix(
                    vertex_indices@,
                    vertex_positions@,
                    padding_size as nat,
                    i + 1,
                ));
            }
        }
    }
    result
}

/// One entry of the packed adjacency record: which mesh object it belongs
/// to, and where its indices start in the shared index buffer, in bytes.
#[derive(PartialEq, Eq, Structural, Clone, Copy, Debug)]
pub struct AdjEntry {
    pub mesh_object_index: u32,
    pub index_buffer_offset: u32,
}

/// The packed adjacency record: entries with byte offsets into one shared
/// buffer of adjacency indices.
pub struct Adj {
    pub entries: Vec<AdjEntry>,
    pub index_buffer: Vec<i16>,
}

/// The friendly adjacency form: one list of adjacency indices per entry.
#[derive(Debug)]
pub struct AdjData {
    pub entries: Vec<AdjEntryData>,
}

/// Adjacency data for one mesh object.
#[derive(Debug)]
pub struct AdjEntryData {
    /// The index of the corresponding mesh object.
    pub mesh_object_index: usize,
    /// The vertex indices of adjacent faces; unused slots hold `-1`.
    pub vertex_adjacency: Vec<i16>,
}

impl PartialEq for AdjEntryData {
    fn eq(&self, other: &Self) -> (r: bool) {
        let veq = self.vertex_adjacency == other.vertex_adjacency;
        proof {
            if veq {
                assert(self.vertex_adjacency@ =~= other.vertex_adjacency@);
            } else if self.vertex_adjacency@ == other.vertex_adjacency@ {
                assert(PartialEqSpec::eq_spec(&self.vertex_adjacency, &other.vertex_adjacency));
            }
        }
        self.mesh_object_index == other.mesh_object_index && veq
    }
}

impl vstd::std_specs::cmp::PartialEqSpecImpl for AdjEntryData {
    open spec fn obeys_eq_spec() -> bool {
        true
    }

    open spec fn eq_spec(&self, other: &Self) -> bool {
        self.mesh_object_index == other.mesh_object_index && self.vertex_adjacency@
            == other.vertex_adjacency@
    }
}

impl PartialEq for AdjData {
    fn eq(&self, other: &Self) -> (r: bool) {
        self.entries == other.entries
    }
}

impl vstd::std_specs::cmp::PartialEqSpecImpl for AdjData {
    open spec fn obeys_eq_spec() -> bool {
        true
    }

    open spec fn eq_spec(&self, other: &Self) -> bool {
        self.entries@.len() == other.entries@.len() && (forall|i: int|
            0 <= i < self.entries@.len() ==> PartialEqSpec::eq_spec(
                &self.entries@[i],
                &other.entries@[i],
            ))
    }
}

impl AdjEntryData {
    /// Computes the vertex adjacency information from triangle faces.
    /// `vertex_indices.len()` should be a multiple of three; every index of
    /// a complete face must name one of `vertex_positions`.
    pub fn from_triangle_faces<T: PartialEq>(
        mesh_object_index: usize,
        vertex_positions: &[T],
        vertex_indices: &[u32],
    ) -> (r: Self)
        requires
            forall|k: int|
                0 <= k < 3 * (vertex_indices@.len() as int / 3) ==> (vertex_indices@[k] as int)
                    < vertex_positions@.len(),
        ensures
            r.mesh_object_index == mesh_object_index,
            r.vertex_adjacency@.len() == vertex_positions@.len() * MAX_ADJACENT_VERTICES,
            T::obeys_eq_spec() ==> r.vertex_adjacency@ == spec_triangle_adjacency(
                vertex_indices@,
                vertex_positions@,
                MAX_ADJACENT_VERTICES as nat,
            ),
    {
        AdjEntryData {
            mesh_object_index,
            vertex_adjacency: triangle_adjacency(
                vertex_indices,
                vertex_positions,
                MAX_ADJACENT_VERTICES,
            ),
        }
    }

    /// Computes the adjacency information of a mesh object from its first
    /// position attribute; an object without positions gets an empty list.
    pub fn from_mesh_object(mesh_object_index: usize, object: &MeshObjectData) -> (r: Self)
        requires
            object.positions@.len() > 0 ==> valid_indices(
                object.vertex_indices@,
                object.positions@[0].data,
            ),
        ensures
            r.mesh_object_index == mesh_object_index,
            object.positions@.len() == 0 ==> r.vertex_adjacency@ == Seq::<i16>::empty(),
            object.positions@.len() > 0 ==> r.vertex_adjacency@ == spec_adjacency_of(
                object.vertex_indices@,
                object.positions@[0].data,
            ),
    {
        if object.positions.len() > 0 {
            Self::from_vector_data(
                mesh_object_index,
                &object.positions[0].data,
                &object.vertex_indices,
            )
        } else {
            AdjEntryData { mesh_object_index, vertex_adjacency: Vec::new() }
        }
    }

    /// Computes the adjacency information from one attribute's values.
    pub fn from_vector_data(
        mesh_object_index: usize,
        vertex_positions: &VectorData,
        vertex_indices: &[u32],
    ) -> (r: Self)
        requires
            valid_indices(vertex_indices@, *vertex_positions),
        ensures
            r.mesh_object_index == mesh_object_index,
            r.vertex_adjacency@ == spec_adjacency_of(vertex_indices@, *vertex_positions),
    {
        AdjEntryData {
            mesh_object_index,
            vertex_adjacency: match vertex_positions {
                VectorData::Vector2(v) => triangle_adjacency(
                    vertex_indices,
                    v.as_slice(),
                    MAX_ADJACENT_VERTICES,
                ),
                VectorData::Vector3(v) => triangle_adjacency(
                    vertex_indices,
                    v.as_slice(),
                    MAX_ADJACENT_VERTICES,
                ),
                VectorData::Vector4(v) => triangle_adjacency(
                    vertex_indices,
                    v.as_slice(),
                    MAX_ADJACENT_VERTICES,
                ),
            },
        }
    }
}

/// The byte offset at which entry `k`'s indices start: two bytes for each
/// index of the entries before it.
pub open spec fn adj_offset(entries: Seq<AdjEntryData>, k: int) -> int
    decreases k,
{
    if k <= 0 {
        0
    } else {
        adj_offset(entries, k - 1) + 2 * entries[k - 1].vertex_adjacency@.len()
    }
}

/// The adjacency lists of the first `k` entries, concatenated.
pub open spec fn adj_concat(entries: Seq<AdjEntryData>, k: int) -> Seq<i16>
    decreases k,
{
    if k <= 0 {
        Seq::empty()
    } else {
        adj_concat(entries, k - 1) + entries[k - 1].vertex_adjacency@
    }
}

impl Adj {
    /// Packs the friendly form: entries get increasing byte offsets and the
    /// adjacency lists are concatenated into one buffer.
    pub fn try_from(data: &AdjData) -> (r: Result<Self, Error>)
        requires
            adj_offset(data.entries@, data.entries@.len() as int) <= u64::MAX,
        ensures
            r matches Ok(adj) && {
                &&& adj.entries@.len() == data.entries@.len()
                &&& (forall|i: int|
                    0 <= i < adj.entries@.len() ==> adj.entries@[i].mesh_object_index
                        == data.entries@[i].mesh_object_index as u32)
                &&& (forall|i: int|
                    0 <= i < adj.entries@.len() ==> adj.entries@[i].index_buffer_offset
                        == adj_offset(data.entries@, i) as u32)
                &&& adj.index_buffer@ == adj_concat(data.entries@, data.entries@.len() as int)
            },
    {
        let mut entries: Vec<AdjEntry> = Vec::new();
        let mut index_buffer: Vec<i16> = Vec::new();
        let mut offset: u64 = 0;
        let n = data.entries.len();
        for i in 0..n
            invariant
                n == data.entries@.len(),
                entries@.len() == i,
                offset == adj_offset(data.entries@, i as int),
                adj_offset(data.entries@, n as int) <= u64::MAX,
                forall|j: int|
                    0 <= j < i ==> entries@[j].mesh_object_index == data.entries@[j].mesh_object_index
                        as u32,
                forall|j: int|
                    0 <= j < i ==> entries@[j].index_buffer_offset == adj_offset(data.entries@, j)
                        as u32,
                index_buffer@ == adj_concat(data.entries@, i as int),
        {
            let e = &data.entries[i];
            entries.push(
                AdjEntry {
                    mesh_object_index: #[verifier::truncate] (e.mesh_object_index as u32),
                    index_buffer_offset: #[verifier::truncate] (offset as u32),
                },
            );
            let ghost buffer_before = index_buffer@;
            let len = e.vertex_adjacency.len();
            for k in 0..len
                invariant
                    index_buffer@ == buffer_before + e.vertex_adjacency@.take(k as int),
                    len == e.vertex_adjacency@.len(),
                    e == &data.entries@[i as int],
                    i < n,
                    n == data.entries@.len(),
            {
                index_buffer.push(e.vertex_adjacency[k]);
                proof {
                    assert(index_buffer@ =~= buffer_before + e.vertex_adjacency@.take(k + 1));
                }
            }
            proof {
                assert(index_buffer@ =~= adj_concat(data.entries@, i + 1));
                assert(adj_offset(data.entries@, i + 1) <= adj_offset(data.entries@, n as int))
                    by {
                    lemma_adj_offset_mono(data.entries@, i + 1, n as int);
                }
            }
            offset = offset + 2 * (len as u64);
        }
        Ok(Adj { entries, index_buffer })
    }
}

/// The byte offsets are non-decreasing in the entry count.
proof fn lemma_adj_offset_mono(entries: Seq<AdjEntryData>, a: int, b: int)
    requires
        a <= b,
    ensures
        adj_offset(entries, a) <= adj_offset(entries, b),
    decreases b - a,
{
    if a < b {
        lemma_adj_offset_mono(entries, a, b - 1);
    }
}

/// The half-open index range (not byte range) of entry `i`'s slice of the
/// buffer: from its own offset to the next entry's offset, the last entry
/// taking the rest of the buffer.
pub open spec fn row_start(adj: Adj, i: int) -> int {
    adj.entries@[i].index_buffer_offset as int / 2
}

/// The end of entry `i`'s index range; see [`row_start`].
pub open spec fn row_end(adj: Adj, i: int) -> int {
    if i + 1 < adj.entries@.len() {
        adj.entries@[i + 1].index_buffer_offset as int / 2
    } else {
        adj.index_buffer@.len() as int
    }
}

/// Whether entry `i`'s range lies inside the buffer.
pub open spec fn row_ok(adj: Adj, i: int) -> bool {
    if i + 1 < adj.entries@.len() {
        row_start(adj, i) <= row_end(adj, i) && row_end(adj, i) <= adj.index_buffer@.len()
    } else {
        row_start(adj, i) <= adj.index_buffer@.len()
    }
}

/// The error payload reported for entry `i`: its byte offsets and the
/// buffer's size in bytes.
pub open spec fn row_error(adj: Adj, i: int) -> Error {
    Error::BufferOffsetOutOfRange {
        start: adj.entries@[i].index_buffer_offset as usize,
        end: if i + 1 < adj.entries@.len() {
            adj.entries@[i + 1].index_buffer_offset as usize
        } else {
            (2 * adj.index_buffer@.len()) as usize
        },
        buffer_size: (2 * adj.index_buffer@.len()) as usize,
    }
}

impl AdjData {
    /// Unpacks the record form.  The byte offsets are assumed increasing:
    /// each entry's data ends where the next entry's begins, and the last
    /// entry takes the rest of the buffer.  An entry whose range falls
    /// outside the buffer is reported with its byte offsets.
    pub fn try_from(adj: &Adj) -> (r: Result<Self, Error>)
        requires
            2 * adj.index_buffer@.len() <= usize::MAX,
        ensures
            match r {
                Ok(data) => {
                    &&& (forall|i: int| 0 <= i < adj.entries@.len() ==> row_ok(*adj, i))
                    &&& data.entries@.len() == adj.entries@.len()
                    &&& (forall|i: int|
                        0 <= i < data.entries@.len() ==> data.entries@[i].mesh_object_index
                            == adj.entries@[i].mesh_object_index as usize)
                    &&& (forall|i: int|
                        0 <= i < data.entries@.len() ==> data.entries@[i].vertex_adjacency@
                            == adj.index_buffer@.subrange(row_start(*adj, i), row_end(*adj, i)))
                },
                Err(e) => exists|i: int|
                    {
                        &&& 0 <= i < adj.entries@.len()
                        &&& !row_ok(*adj, i)
                        &&& (forall|j: int| 0 <= j < i ==> row_ok(*adj, j))
                        &&& e == row_error(*adj, i)
                    },
            },
    {
        let n = adj.entries.len();
        let blen = adj.index_buffer.len();
        let mut entries: Vec<AdjEntryData> = Vec::new();
        for i in 0..n
            invariant
                n == adj.entries@.len(),
                blen == adj.index_buffer@.len(),
                2 * adj.index_buffer@.len() <= usize::MAX,
                entries@.len() == i,
                forall|j: int| 0 <= j < i ==> row_ok(*adj, j),
                forall|j: int|
                    0 <= j < i ==> entries@[j].mesh_object_index == adj.entries@[j].mesh_object_index
                        as usize,
                forall|j: int|
                    0 <= j < i ==> entries@[j].vertex_adjacency@ == adj.index_buffer@.subrange(
                        row_start(*adj, j),
                        row_end(*adj, j),
                    ),
        {
            let entry = &adj.entries[i];
            let start = entry.index_buffer_offset as usize / 2;
            let end = if i + 1 < n {
                adj.entries[i + 1].index_buffer_offset as usize / 2
            } else {
                blen
            };
            let in_range = if i + 1 < n {
                start <= end && end <= blen
            } else {
                start <= blen
            };
            if !in_range {
                let err = Error::BufferOffsetOutOfRange {
                    start: entry.index_buffer_offset as usize,
                    end: if i + 1 < n {
                        adj.entries[i + 1].index_buffer_offset as usize
                    } else {
                        2 * blen
                    },
                    buffer_size: 2 * blen,
                };
                proof {
                    assert(!row_ok(*adj, i as int));
                    assert(err == row_error(*adj, i as int));
                }
                return Err(err);
            }
            let mut row: Vec<i16> = Vec::new();
            for k in start..end
                invariant
                    row@ == adj.index_buffer@.subrange(start as int, k as int),
                    start <= k <= end <= blen,
                    blen == adj.index_buffer@.len(),
            {
                row.push(adj.index_buffer[k]);
                proof {
                    assert(row@ =~= adj.index_buffer@.subrange(start as int, k + 1));
                }
            }
            entries.push(AdjEntryData { mesh_object_index: entry.mesh_object_index as usize, vertex_adjacency: row });
        }
        Ok(AdjData { entries })
    }
}

/// Whether every complete face of `indices` names a vertex of `positions`.
pub open spec fn valid_indices(indices: Seq<u32>, positions: VectorData) -> bool {
    forall|k: int|
        0 <= k < 3 * (indices.len() as int / 3) ==> (indices[k] as int) < vector_data_len(positions)
}

/// How many vertices an attribute holds.
pub open spec fn vector_data_len(positions: VectorData) -> nat {
    match positions {
        VectorData::Vector2(v) => v@.len(),
        VectorData::Vector3(v) => v@.len(),
        VectorData::Vector4(v) => v@.len(),
    }
}

/// The adjacency buffer of an attribute's positions, with the standard
/// slot count.  Component tuples compare by their bit patterns.
pub open spec fn spec_adjacency_of(indices: Seq<u32>, positions: VectorData) -> Seq<i16> {
    match positions {
        VectorData::Vector2(v) => spec_triangle_adjacency(
            indices,
            v@,
            MAX_ADJACENT_VERTICES as nat,
        ),
        VectorData::Vector3(v) => spec_triangle_adjacency(
            indices,
            v@,
            MAX_ADJACENT_VERTICES as nat,
        ),
        VectorData::Vector4(v) => spec_triangle_adjacency(
            indices,
            v@,
            MAX_ADJACENT_VERTICES as nat,
        ),
    }
}

} // verus!
