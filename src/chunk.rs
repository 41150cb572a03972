use crate::rle::{rep, RLE};
use vstd::laws_eq::obeys_concrete_eq;
use vstd::std_specs::cmp::PartialEqSpec;
use vstd::prelude::*;

verus! {

/// Cells along one edge of a chunk.
pub const CHUNK_SIZE: usize = 32;

/// Cells in one layer of a chunk.
pub const CHUNK_SIZE_2: usize = 1024;

/// Cells in a chunk.
pub const CHUNK_SIZE_3: usize = 32768;

/// The kind of block held by a cell.
#[derive(Debug, Clone, Copy, Eq)]
pub enum BlockType {
    Dynamic,
    Air,
    Dirt,
    Grass,
    Rock,
}

impl BlockType {
    /// A distinct number for each kind.
    pub open spec fn spec_code(self) -> u8 {
        match self {
            BlockType::Dynamic => 0,
            BlockType::Air => 1,
            BlockType::Dirt => 2,
            BlockType::Grass => 3,
            BlockType::Rock => 4,
        }
    }

    fn code(&self) -> (r: u8)
        ensures
            r == self.spec_code(),
    {
        match self {
            BlockType::Dynamic => 0,
            BlockType::Air => 1,
            BlockType::Dirt => 2,
            BlockType::Grass => 3,
            BlockType::Rock => 4,
        }
    }
}

impl PartialEq for BlockType {
    fn eq(&self, o: &BlockType) -> (r: bool) {
        self.code() == o.code()
    }
}

impl vstd::std_specs::cmp::PartialEqSpecImpl for BlockType {
    open spec fn obeys_eq_spec() -> bool {
        true
    }

    open spec fn eq_spec(&self, o: &BlockType) -> bool {
        self.spec_code() == o.spec_code()
    }
}

/// The face of a block, by the direction it faces.
#[derive(Debug, Clone, Copy, PartialEq, Eq, Structural)]
pub enum Direction {
    Top,
    Bottom,
    Right,
    Left,
    Front,
    Back,
}

/// `==` on blocks is equality of values.
pub proof fn lemma_block_type_eq()
    ensures
        obeys_concrete_eq::<BlockType>(),
{
    reveal(obeys_concrete_eq);
    assert forall|a: BlockType, b: BlockType| a.eq_spec(&b) <==> a == b by {
        match a {
            BlockType::Dynamic => {},
            BlockType::Air => {},
            BlockType::Dirt => {},
            BlockType::Grass => {},
            BlockType::Rock => {},
        }
    }
}

impl BlockType {
    /// Light passes through Air and Dynamic blocks; the others are solid.
    pub open spec fn spec_is_transparent(self) -> bool {
        self is Air || self is Dynamic
    }

    /// The texture layer for a face of a solid block; none for the others.
    pub open spec fn spec_texture_index(self, direction: Direction) -> Option<u32> {
        match self {
            BlockType::Dirt => Some(0),
            BlockType::Grass => if direction is Top {
                Some(1)
            } else {
                Some(0)
            },
            BlockType::Rock => Some(2),
            _ => None,
        }
    }

    pub fn is_transparent(&self) -> (r: bool)
        ensures
            r == self.spec_is_transparent(),
    {
        match self {
            BlockType::Air => true,
            BlockType::Dynamic => true,
            _ => false,
        }
    }

    pub fn texture_index(&self, direction: Direction) -> (r: Option<u32>)
        ensures
            r == self.spec_texture_index(direction),
    {
        match self {
            BlockType::Dirt => Some(0),
            BlockType::Grass => match direction {
                Direction::Top => Some(1),
                _ => Some(0),
            },
            BlockType::Rock => Some(2),
            _ => None,
        }
    }
}

/// Why a chunk access was refused.
#[derive(Debug, Clone, Copy, PartialEq, Eq, Structural)]
pub enum VoxelError {
    /// A local coordinate is not below the chunk edge length.
    ChunkCoordOutOfRange,
}

/// Whether a local coordinate lies inside a chunk.
pub open spec fn in_chunk(p: (usize, usize, usize)) -> bool {
    p.0 < CHUNK_SIZE && p.1 < CHUNK_SIZE && p.2 < CHUNK_SIZE
}

/// The linear index of a local coordinate.
pub open spec fn local_index(p: (usize, usize, usize)) -> int {
    p.0 + p.1 * CHUNK_SIZE + p.2 * CHUNK_SIZE_2
}

/// A cube of 32 by 32 by 32 blocks, stored run-length encoded.
pub struct Chunk {
    blocks: RLE<BlockType>,
}

impl Chunk {
    /// The block store is well formed and holds exactly one chunk of cells.
    pub closed spec fn wf(&self) -> bool {
        &&& self.blocks.wf()
        &&& self.blocks@.len() == CHUNK_SIZE_3
    }

    /// The blocks, by linear index.
    pub closed spec fn view(&self) -> Seq<BlockType> {
        self.blocks@
    }

    /// The number of runs the blocks are stored in.
    pub closed spec fn spec_compressed_len(&self) -> nat {
        self.blocks.runs().len()
    }

    /// A well-formed chunk has one block per cell.
    pub proof fn lemma_len(&self)
        requires
            self.wf(),
        ensures
            self@.len() == CHUNK_SIZE_3,
    {
    }

    /// What `get_block` gives for a local coordinate.
    pub open spec fn spec_get_block(&self, p: (usize, usize, usize)) -> Result<BlockType, VoxelError> {
        if in_chunk(p) {
            Ok(self@[local_index(p)])
        } else {
            Err(VoxelError::ChunkCoordOutOfRange)
        }
    }

    /// A chunk of Air only, held in a single run.
    pub fn new() -> (r: Self)
        ensures
            r.wf(),
            r@ == rep(CHUNK_SIZE_3 as nat, BlockType::Air),
            r.spec_compressed_len() == 1,
    {
        Chunk { blocks: RLE::filled(CHUNK_SIZE_3, BlockType::Air) }
    }

    /// The linear index `x + y * 32 + z * 32 * 32` of a local coordinate.
    pub fn vec_to_index(position: (usize, usize, usize)) -> (r: Result<usize, VoxelError>)
        ensures
            in_chunk(position) ==> r == Ok::<usize, VoxelError>(local_index(position) as usize),
            !in_chunk(position) ==> r == Err::<usize, VoxelError>(
                VoxelError::ChunkCoordOutOfRange,
            ),
            r is Ok ==> r->Ok_0 < CHUNK_SIZE_3,
    {
        if position.0 < CHUNK_SIZE && position.1 < CHUNK_SIZE && position.2 < CHUNK_SIZE {
            return Ok(position.0 + position.1 * CHUNK_SIZE + position.2 * CHUNK_SIZE_2);
        }
        Err(VoxelError::ChunkCoordOutOfRange)
    }

    /// The block at a local coordinate.
    pub fn get_block(&self, position: (usize, usize, usize)) -> (r: Result<BlockType, VoxelError>)
        requires
            self.wf(),
        ensures
            r == self.spec_get_block(position),
    {
        let index = match Self::vec_to_index(position) {
            Ok(i) => i,
            Err(e) => {
                return Err(e);
            },
        };
        match self.blocks.get(index) {
            Ok(b) => Ok(b),
            Err(_) => Err(VoxelError::ChunkCoordOutOfRange),
        }
    }

    /// Places a block at a local coordinate.
    pub fn set_block(&mut self, position: (usize, usize, usize), block: &BlockType) -> (r: Result<
        (),
        VoxelError,
    >)
        requires
            old(self).wf(),
        ensures
            final(self).wf(),
            in_chunk(position) ==> r == Ok::<(), VoxelError>(()) && final(self)@ == old(
                self,
            )@.update(local_index(position), *block),
            !in_chunk(position) ==> r == Err::<(), VoxelError>(VoxelError::ChunkCoordOutOfRange)
                && *final(self) == *old(self),
            final(self).spec_compressed_len() <= old(self).spec_compressed_len() + 2,
    {
        let index = match Self::vec_to_index(position) {
            Ok(i) => i,
            Err(e) => {
                return Err(e);
            },
        };
        proof {
            lemma_block_type_eq();
        }
        match self.blocks.set(index, block) {
            Ok(()) => Ok(()),
            Err(_) => Err(VoxelError::ChunkCoordOutOfRange),
        }
    }

    /// The block at a local coordinate known to lie inside the chunk.
    pub fn block_at(&self, position: (usize, usize, usize)) -> (r: BlockType)
        requires
            self.wf(),
            in_chunk(position),
        ensures
            r == self@[local_index(position)],
    {
        match self.get_block(position) {
            Ok(b) => b,
            Err(_) => BlockType::Air,
        }
    }

    /// The number of runs the blocks are stored in.
    pub fn compressed_len(&self) -> (r: usize)
        requires
            self.wf(),
        ensures
            r == self.spec_compressed_len(),
    {
        self.blocks.compressed_len()
    }
}

} // verus!
