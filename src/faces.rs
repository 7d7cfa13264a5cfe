//! Triangles of an indexed mesh: the index list read three at a time.
use vstd::prelude::*;

verus! {

/// Every index of the first `3 * (indices.len() / 3)` entries names a vertex.
pub open spec fn faces_in_range(indices: Seq<u32>, vertex_count: nat) -> bool {
    forall|i: int| 0 <= i < 3 * (indices.len() / 3) ==> #[trigger] indices[i] < vertex_count
}

/// Corner `j` of triangle `k`.
pub open spec fn corner(indices: Seq<u32>, k: int, j: int) -> usize {
    indices[3 * k + j] as usize
}

/// The triangles of a mesh whose `indices` list corners three by three,
/// over `vertex_count` vertices. A trailing one or two indices form no
/// triangle and are ignored. `None` when a used index is not below
/// `vertex_count`.
pub fn triangle_faces(indices: &Vec<u32>, vertex_count: usize) -> (r: Option<
    Vec<(usize, usize, usize)>,
>)
    ensures
        r is Some <==> faces_in_range(indices@, vertex_count as nat),
        r matches Some(faces) ==> {
            &&& faces@.len() == indices@.len() / 3
            &&& forall|k: int|
                0 <= k < faces@.len() ==> #[trigger] faces@[k] == (
                    corner(indices@, k, 0),
                    corner(indices@, k, 1),
                    corner(indices@, k, 2),
                )
        },
{
    let count = indices.len() / 3;
    let mut faces: Vec<(usize, usize, usize)> = Vec::new();
    let mut k: usize = 0;
    while k < count
        invariant
            count == indices@.len() / 3,
            indices@.len() <= usize::MAX,
            k <= count,
            faces@.len() == k,
            forall|i: int| 0 <= i < 3 * k ==> #[trigger] indices@[i] < vertex_count,
            forall|m: int|
                0 <= m < k ==> #[trigger] faces@[m] == (
                    corner(indices@, m, 0),
                    corner(indices@, m, 1),
                    corner(indices@, m, 2),
                ),
        decreases count - k,
    {
        proof {
            let len = indices@.len() as int;
            vstd::arithmetic::div_mod::lemma_fundamental_div_mod(len, 3);
            assert(3 * k + 3 <= len);
        }
        let a = indices[3 * k];
        let b = indices[3 * k + 1];
        let c = indices[3 * k + 2];
        if a as usize >= vertex_count || b as usize >= vertex_count || c as usize
            >= vertex_count {
            proof {
                assert(3 * k + 3 <= 3 * count);
                if a as usize >= vertex_count {
                    assert(indices@[3 * k as int] >= vertex_count);
                } else if b as usize >= vertex_count {
                    assert(indices@[3 * k + 1] >= vertex_count);
                } else {
                    assert(indices@[3 * k + 2] >= vertex_count);
                }
            }
            return None;
        }
        faces.push((a as usize, b as usize, c as usize));
        k = k + 1;
    }
    Some(faces)
}

} // verus!
