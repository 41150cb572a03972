use v_voxels::chunk::BlockType;
use v_voxels::mesher::{merge_batches, ChunkMesherSystem, VoxelVertex};
use v_voxels::storage::{ChunkMarker, ChunkStorage};

fn marker(coords: (i32, i32, i32)) -> ChunkMarker {
    ChunkMarker { coords, renderable: true, changed: true }
}

fn check_winding(verts: &[VoxelVertex], tris: &[u32]) {
    assert_eq!(tris.len(), verts.len() / 4 * 6);
    for q in 0..verts.len() / 4 {
        let b = (4 * q) as u32;
        assert_eq!(&tris[6 * q..6 * q + 6], &[b, b + 1, b + 2, b + 2, b + 3, b]);
    }
}

#[test]
fn single_block_in_air_gives_six_quads() {
    let mut w = ChunkStorage::new();
    w.set_block(&BlockType::Dirt, &(0, 0, 0));
    let mut m = marker((0, 0, 0));
    let (verts, tris) = ChunkMesherSystem::mesh_chunk(&w, &mut m);
    assert_eq!(verts.len(), 24);
    assert_eq!(tris.len(), 36);
    check_winding(&verts, &tris);
    for v in &verts {
        assert!(v.position.0.abs() == 1 && v.position.1.abs() == 1 && v.position.2.abs() == 1);
        assert_eq!(v.tex_index, 0);
    }
    let lights: Vec<u32> = verts.iter().map(|v| v.lighting).collect();
    assert_eq!(lights, vec![0, 0, 0, 0, 1, 1, 1, 1, 2, 2, 2, 2, 3, 3, 3, 3, 4, 4, 4, 4, 5, 5, 5, 5]);
    assert_eq!(verts[0], VoxelVertex::new((1, 1, 1), (1, 1), 0, 0));
    assert_eq!(verts[2], VoxelVertex::new((-1, 1, -1), (0, 0), 0, 0));
    assert_eq!(verts[20], VoxelVertex::new((-1, -1, -1), (1, 1), 0, 5));
}

#[test]
fn grass_top_face_uses_its_own_texture() {
    let mut w = ChunkStorage::new();
    w.set_block(&BlockType::Grass, &(4, 5, 6));
    let (verts, _) = ChunkMesherSystem::mesh_chunk(&w, &mut marker((0, 0, 0)));
    assert_eq!(verts.len(), 24);
    for v in &verts {
        let want = if v.lighting == 0 { 1 } else { 0 };
        assert_eq!(v.tex_index, want);
        assert!(v.position.0 == 7 || v.position.0 == 9);
    }
}

#[test]
fn enclosed_block_emits_nothing() {
    let mut w = ChunkStorage::new();
    for x in 10..13 {
        for y in 10..13 {
            for z in 10..13 {
                w.set_block(&BlockType::Rock, &(x, y, z));
            }
        }
    }
    let (verts, tris) = ChunkMesherSystem::mesh_chunk(&w, &mut marker((0, 0, 0)));
    assert_eq!(verts.len(), 54 * 4);
    check_winding(&verts, &tris);
    for q in verts.chunks(4) {
        let cx = q.iter().map(|v| v.position.0).sum::<i32>() / 4;
        let cy = q.iter().map(|v| v.position.1).sum::<i32>() / 4;
        let cz = q.iter().map(|v| v.position.2).sum::<i32>() / 4;
        let inner = (cx - 23).abs() <= 1 && (cy - 23).abs() <= 1 && (cz - 23).abs() <= 1;
        assert!(!inner);
    }
}

#[test]
fn neighbour_chunk_culls_border_face() {
    let mut w = ChunkStorage::new();
    w.set_block(&BlockType::Dirt, &(31, 0, 0));
    w.set_block(&BlockType::Dirt, &(32, 0, 0));
    let (verts, _) = ChunkMesherSystem::mesh_chunk(&w, &mut marker((0, 0, 0)));
    assert_eq!(verts.len(), 20);
    assert!(verts.iter().all(|v| v.lighting != 2));
    let (verts, _) = ChunkMesherSystem::mesh_chunk(&w, &mut marker((1, 0, 0)));
    assert_eq!(verts.len(), 20);
    assert!(verts.iter().all(|v| v.lighting != 3));
}

#[test]
fn empty_chunk_gives_empty_mesh() {
    let w = ChunkStorage::new();
    let (verts, tris) = ChunkMesherSystem::mesh_chunk(&w, &mut marker((7, -3, 2)));
    assert!(verts.is_empty() && tris.is_empty());
}

#[test]
fn remesh_only_changed_renderable_markers() {
    let mut w = ChunkStorage::new();
    w.set_block(&BlockType::Rock, &(3, 3, 3));
    let mut idle = ChunkMarker { coords: (0, 0, 0), renderable: true, changed: false };
    assert!(ChunkMesherSystem::remesh(&w, &mut idle).is_none());
    let mut hidden = ChunkMarker { coords: (0, 0, 0), renderable: false, changed: true };
    assert!(ChunkMesherSystem::remesh(&w, &mut hidden).is_none());
    assert!(hidden.changed);
    let mut due = marker((0, 0, 0));
    let (verts, tris) = ChunkMesherSystem::remesh(&w, &mut due).unwrap();
    assert!(!due.changed);
    assert_eq!((verts.len(), tris.len()), (24, 36));
}

#[test]
fn merge_batches_keeps_order_and_winding() {
    let v = |n: u32| VoxelVertex::new((0, 0, 0), (0, 0), n, 0);
    let batches = vec![vec![v(0), v(1), v(2), v(3)], vec![], vec![v(4), v(5), v(6), v(7), v(8), v(9), v(10), v(11)]];
    let (verts, tris) = merge_batches(&batches);
    let order: Vec<u32> = verts.iter().map(|x| x.tex_index).collect();
    assert_eq!(order, (0..12).collect::<Vec<u32>>());
    assert_eq!(tris, vec![0, 1, 2, 2, 3, 0, 4, 5, 6, 6, 7, 4, 8, 9, 10, 10, 11, 8]);
}
