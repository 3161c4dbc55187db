//! Raw voxel payloads, in chunks of fixed size.

use vstd::prelude::*;

verus! {

/// The number of voxels of a chunk.
pub const CHUNK_LEN: usize = 256;

/// The voxels of the world, chunk by chunk.
pub struct WorldData {
    pub basic_data: Vec<VoxelChunk>,
}

/// `CHUNK_LEN` voxels.
#[derive(Clone, Copy, Debug, PartialEq, Eq)]
pub struct VoxelChunk {
    pub voxel_data: [u32; 256],
}

/// `TryFrom<Vec<T>>` for `[T; N]`, through `try_into`. By std's
/// documentation the array holds the vector's whole contents if the
/// vector's length is exactly the array's, and the vector comes back
/// unchanged in `Err` if it is not.
#[verifier::external_body]
fn array_from_vec<Type, const Length: usize>(vec: Vec<Type>) -> (r: Result<[Type; Length], Vec<Type>>)
    ensures
        r is Ok <==> vec@.len() == Length,
        r matches Ok(array) ==> array@ == vec@,
        r matches Err(back) ==> back@ == vec@,
{
    vec.try_into()
}

impl WorldData {
    /// The vector's items as an array of the same length.
    pub fn vec_to_array<Type, const Length: usize>(vec: Vec<Type>) -> (r: [Type; Length])
        requires
            vec@.len() == Length,
        ensures
            r@ == vec@,
    {
        match array_from_vec(vec) {
            Ok(array) => array,
            Err(_) => vstd::pervasive::unreached(),
        }
    }

    /// The world of one chunk whose voxels are numbered in order.
    pub fn collect() -> (r: WorldData)
        ensures
            r.basic_data@.len() == 1,
            forall|i: int| 0 <= i < CHUNK_LEN ==> r.basic_data@[0].voxel_data@[i] == i,
    {
        let mut basic_voxel_input: Vec<u32> = Vec::new();
        for index in 0..256u32
            invariant
                basic_voxel_input@.len() == index,
                forall|i: int| 0 <= i < index ==> basic_voxel_input@[i] == i,
        {
            basic_voxel_input.push(index);
        }
        let voxel_chunk = VoxelChunk { voxel_data: WorldData::vec_to_array(basic_voxel_input) };
        WorldData { basic_data: vec![voxel_chunk] }
    }
}

} // verus!
