use v_voxels::chunk::{BlockType, Chunk, Direction, VoxelError, CHUNK_SIZE_3};
use v_voxels::storage::{world_point_to_chunk_block, ChunkMarker, ChunkStorage};

#[test]
fn block_properties() {
    assert!(BlockType::Air.is_transparent());
    assert!(BlockType::Dynamic.is_transparent());
    assert!(!BlockType::Dirt.is_transparent());
    assert!(!BlockType::Rock.is_transparent());
    assert_eq!(BlockType::Grass.texture_index(Direction::Top), Some(1));
    assert_eq!(BlockType::Grass.texture_index(Direction::Left), Some(0));
    assert_eq!(BlockType::Dirt.texture_index(Direction::Top), Some(0));
    assert_eq!(BlockType::Rock.texture_index(Direction::Back), Some(2));
    assert_eq!(BlockType::Air.texture_index(Direction::Top), None);
    assert!(BlockType::Air == BlockType::Air);
    assert!(BlockType::Air != BlockType::Dirt);
}

#[test]
fn vec_to_index_layout_and_bounds() {
    assert_eq!(Chunk::vec_to_index((0, 0, 0)), Ok(0));
    assert_eq!(Chunk::vec_to_index((1, 2, 3)), Ok(1 + 2 * 32 + 3 * 1024));
    assert_eq!(Chunk::vec_to_index((31, 31, 31)), Ok(CHUNK_SIZE_3 - 1));
    assert_eq!(Chunk::vec_to_index((32, 0, 0)), Err(VoxelError::ChunkCoordOutOfRange));
    assert_eq!(Chunk::vec_to_index((0, 32, 0)), Err(VoxelError::ChunkCoordOutOfRange));
    assert_eq!(Chunk::vec_to_index((0, 0, 40)), Err(VoxelError::ChunkCoordOutOfRange));
}

#[test]
fn new_chunk_splits_into_two_runs() {
    let mut c = Chunk::new();
    assert_eq!(c.compressed_len(), 1);
    assert_eq!(c.get_block((5, 6, 7)), Ok(BlockType::Air));
    assert_eq!(c.set_block((0, 0, 0), &BlockType::Dirt), Ok(()));
    assert_eq!(c.compressed_len(), 2);
    assert_eq!(c.get_block((0, 0, 0)), Ok(BlockType::Dirt));
    assert_eq!(c.get_block((1, 0, 0)), Ok(BlockType::Air));
    assert_eq!(c.set_block((0, 0, 0), &BlockType::Dirt), Ok(()));
    assert_eq!(c.compressed_len(), 2);
    assert_eq!(c.set_block((3, 0, 32), &BlockType::Dirt), Err(VoxelError::ChunkCoordOutOfRange));
    assert_eq!(c.get_block((32, 0, 0)), Err(VoxelError::ChunkCoordOutOfRange));
}

#[test]
fn world_point_split_rounds_down() {
    assert_eq!(world_point_to_chunk_block((0, 0, 0)), ((0, 0, 0), (0, 0, 0)));
    assert_eq!(world_point_to_chunk_block((31, 32, 65)), ((0, 1, 2), (31, 0, 1)));
    assert_eq!(world_point_to_chunk_block((-1, -32, -33)), ((-1, -1, -2), (31, 0, 31)));
    assert_eq!(
        world_point_to_chunk_block((i32::MIN, i32::MAX, 0)),
        ((-67108864, 67108863, 0), (0, 31, 0))
    );
}

#[test]
fn get_block_creates_chunks_lazily() {
    let mut w = ChunkStorage::new();
    assert_eq!(w.pop_needed(), None);
    assert_eq!(w.get_block(&(40, -3, 5)), BlockType::Air);
    assert_eq!(w.pop_needed(), Some((1, -1, 0)));
    assert_eq!(w.pop_needed(), None);
    assert_eq!(w.get_block(&(41, -2, 6)), BlockType::Air);
    assert_eq!(w.pop_needed(), None);
    assert!(!w.has_changed());
}

#[test]
fn set_block_then_get_block() {
    let mut w = ChunkStorage::new();
    w.set_block(&BlockType::Rock, &(-5, 70, 12));
    assert_eq!(w.get_block(&(-5, 70, 12)), BlockType::Rock);
    assert_eq!(w.get_block(&(-4, 70, 12)), BlockType::Air);
    assert_eq!(w.peek_block((-5, 70, 12)), BlockType::Rock);
    assert_eq!(w.peek_block((1000, 0, 0)), BlockType::Air);
    assert_eq!(w.pop_needed(), Some((-1, 2, 0)));
    w.set_block(&BlockType::Dirt, &(-5, 70, 12));
    assert_eq!(w.get_block(&(-5, 70, 12)), BlockType::Dirt);
}

#[test]
fn edit_on_face_marks_neighbour_changed() {
    let mut w = ChunkStorage::new();
    w.set_block(&BlockType::Dirt, &(32, 40, 70));
    let mut own = ChunkMarker { coords: (1, 1, 2), renderable: true, changed: false };
    let mut left = ChunkMarker { coords: (0, 1, 2), renderable: true, changed: false };
    let mut right = ChunkMarker { coords: (2, 1, 2), renderable: true, changed: false };
    let mut below = ChunkMarker { coords: (1, 0, 2), renderable: true, changed: false };
    w.acknowledge_changed(&mut own);
    w.acknowledge_changed(&mut left);
    w.acknowledge_changed(&mut right);
    w.acknowledge_changed(&mut below);
    assert!(own.changed);
    assert!(left.changed);
    assert!(!right.changed);
    assert!(!below.changed);
    assert!(!w.has_changed());
}

#[test]
fn edit_on_far_face_marks_next_chunk() {
    let mut w = ChunkStorage::new();
    w.set_block(&BlockType::Dirt, &(5, 31, -1));
    let mut up = ChunkMarker { coords: (0, 1, -1), renderable: true, changed: false };
    let mut back = ChunkMarker { coords: (0, 0, 0), renderable: true, changed: false };
    let mut own = ChunkMarker { coords: (0, 0, -1), renderable: true, changed: false };
    w.acknowledge_changed(&mut up);
    w.acknowledge_changed(&mut back);
    w.acknowledge_changed(&mut own);
    assert!(up.changed && back.changed && own.changed);
    let mut again = ChunkMarker { coords: (0, 0, -1), renderable: true, changed: false };
    w.acknowledge_changed(&mut again);
    assert!(!again.changed);
}

#[test]
fn inner_edit_marks_only_own_chunk() {
    let mut w = ChunkStorage::new();
    w.set_block(&BlockType::Dirt, &(5, 5, 5));
    assert!(w.has_changed());
    let mut other = ChunkMarker { coords: (-1, 0, 0), renderable: true, changed: false };
    w.acknowledge_changed(&mut other);
    assert!(!other.changed);
    let mut own = ChunkMarker::default();
    w.acknowledge_changed(&mut own);
    assert!(own.changed);
    assert!(!w.has_changed());
}

#[test]
fn set_chunk_replaces_a_chunk() {
    let mut w = ChunkStorage::new();
    let mut c = Chunk::new();
    assert_eq!(c.set_block((1, 2, 3), &BlockType::Grass), Ok(()));
    w.set_chunk(&(70, 0, 0), c);
    assert_eq!(w.get_block(&(65, 2, 3)), BlockType::Grass);
    assert_eq!(w.pop_needed(), None);
}
