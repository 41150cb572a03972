//! A voxel world core: run-length encoded block storage, chunks, a sparse
//! chunk map with edit propagation, and a parallel face-culling mesher.

pub mod rle;
pub mod chunk;
pub mod storage;
pub mod mesher;
