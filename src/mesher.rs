use crate::chunk::{BlockType, Direction, CHUNK_SIZE};
use crate::storage::{world_block, ChunkCoord, ChunkMarker, ChunkStorage};
use rayon::iter::{IndexedParallelIterator, IntoParallelIterator, ParallelIterator};
use vstd::arithmetic::div_mod::lemma_fundamental_div_mod;
use vstd::prelude::*;

verus! {

/// One corner of a block face, ready for the renderer. Positions are in
/// half-block units relative to the chunk origin: corner `k` of block `x`
/// lies at `2 * x - 1` or `2 * x + 1`. Texture coordinates are 0 or 1.
#[derive(Debug, Clone, Copy, PartialEq, Eq)]
pub struct VoxelVertex {
    pub position: (i32, i32, i32),
    pub tex_coord: (u32, u32),
    pub tex_index: u32,
    pub lighting: u32,
}

impl VoxelVertex {
    pub fn new(position: (i32, i32, i32), texcoord: (u32, u32), tex: u32, lighting: u32) -> (r: Self)
        ensures
            r.position == position,
            r.tex_coord == texcoord,
            r.tex_index == tex,
            r.lighting == lighting,
    {
        VoxelVertex { position, tex_coord: texcoord, tex_index: tex, lighting }
    }
}

/// The faces in the order the mesher visits them.
pub open spec fn direction_at(i: int) -> Direction {
    if i == 0 {
        Direction::Top
    } else if i == 1 {
        Direction::Bottom
    } else if i == 2 {
        Direction::Right
    } else if i == 3 {
        Direction::Left
    } else if i == 4 {
        Direction::Front
    } else {
        Direction::Back
    }
}

/// The lighting tag of a face: its place in the visiting order.
pub open spec fn lighting_of(d: Direction) -> u32 {
    match d {
        Direction::Top => 0,
        Direction::Bottom => 1,
        Direction::Right => 2,
        Direction::Left => 3,
        Direction::Front => 4,
        Direction::Back => 5,
    }
}

/// The step from a block to its neighbour across a face.
pub open spec fn step(d: Direction) -> (int, int, int) {
    match d {
        Direction::Top => (0, 1, 0),
        Direction::Bottom => (0, -1, 0),
        Direction::Right => (1, 0, 0),
        Direction::Left => (-1, 0, 0),
        Direction::Front => (0, 0, 1),
        Direction::Back => (0, 0, -1),
    }
}

/// Corner `k` of a face, as a signed half-block offset from the block centre.
pub open spec fn corner(d: Direction, k: int) -> (int, int, int) {
    match d {
        Direction::Top => if k == 0 {
            (1, 1, 1)
        } else if k == 1 {
            (1, 1, -1)
        } else if k == 2 {
            (-1, 1, -1)
        } else {
            (-1, 1, 1)
        },
        Direction::Bottom => if k == 0 {
            (1, -1, 1)
        } else if k == 1 {
            (-1, -1, 1)
        } else if k == 2 {
            (-1, -1, -1)
        } else {
            (1, -1, -1)
        },
        Direction::Right => if k == 0 {
            (1, 1, 1)
        } else if k == 1 {
            (1, -1, 1)
        } else if k == 2 {
            (1, -1, -1)
        } else {
            (1, 1, -1)
        },
        Direction::Left => if k == 0 {
            (-1, -1, -1)
        } else if k == 1 {
            (-1, -1, 1)
        } else if k == 2 {
            (-1, 1, 1)
        } else {
            (-1, 1, -1)
        },
        Direction::Front => if k == 0 {
            (1, 1, 1)
        } else if k == 1 {
            (-1, 1, 1)
        } else if k == 2 {
            (-1, -1, 1)
        } else {
            (1, -1, 1)
        },
        Direction::Back => if k == 0 {
            (-1, -1, -1)
        } else if k == 1 {
            (-1, 1, -1)
        } else if k == 2 {
            (1, 1, -1)
        } else {
            (1, -1, -1)
        },
    }
}

/// Texture coordinate of corner `k`, the same on every face.
pub open spec fn tex_corner(k: int) -> (u32, u32) {
    if k == 0 {
        (1, 1)
    } else if k == 1 {
        (1, 0)
    } else if k == 2 {
        (0, 0)
    } else {
        (0, 1)
    }
}

/// Corner `k` of face `d` of the block at local `(x, y, z)`.
pub open spec fn face_vertex(x: int, y: int, z: int, d: Direction, tex: u32, k: int) -> VoxelVertex {
    let c = corner(d, k);
    VoxelVertex {
        position: ((2 * x + c.0) as i32, (2 * y + c.1) as i32, (2 * z + c.2) as i32),
        tex_coord: tex_corner(k),
        tex_index: tex,
        lighting: lighting_of(d),
    }
}

/// The quad of face `d` of the block at local `(x, y, z)`.
pub open spec fn face_vertices(x: int, y: int, z: int, d: Direction, tex: u32) -> Seq<VoxelVertex> {
    seq![
        face_vertex(x, y, z, d, tex, 0),
        face_vertex(x, y, z, d, tex, 1),
        face_vertex(x, y, z, d, tex, 2),
        face_vertex(x, y, z, d, tex, 3),
    ]
}

/// The world position of local `(x, y, z)` in chunk `c`.
pub open spec fn global(c: ChunkCoord, x: int, y: int, z: int) -> (int, int, int) {
    (
        c.0 * (CHUNK_SIZE as int) + x,
        c.1 * (CHUNK_SIZE as int) + y,
        c.2 * (CHUNK_SIZE as int) + z,
    )
}

/// The neighbour of a world position across face `d`.
pub open spec fn beside(g: (int, int, int), d: Direction) -> (int, int, int) {
    (g.0 + step(d).0, g.1 + step(d).1, g.2 + step(d).2)
}

/// The quad of face `d` of a solid block when the neighbour across that
/// face is transparent; nothing when it is solid.
pub open spec fn open_face(
    w: Map<ChunkCoord, Seq<BlockType>>,
    c: ChunkCoord,
    x: int,
    y: int,
    z: int,
    d: Direction,
) -> Seq<VoxelVertex> {
    let g = global(c, x, y, z);
    if world_block(w, beside(g, d)).spec_is_transparent() {
        face_vertices(x, y, z, d, world_block(w, g).spec_texture_index(d)->Some_0)
    } else {
        Seq::empty()
    }
}

/// The open faces among the first `n` faces of a block, in visiting order.
pub open spec fn open_faces(
    w: Map<ChunkCoord, Seq<BlockType>>,
    c: ChunkCoord,
    x: int,
    y: int,
    z: int,
    n: int,
) -> Seq<VoxelVertex>
    decreases n,
{
    if n <= 0 {
        Seq::empty()
    } else {
        open_faces(w, c, x, y, z, n - 1) + open_face(w, c, x, y, z, direction_at(n - 1))
    }
}

/// The geometry of one cell: nothing for a transparent block, else the quad
/// of each face whose neighbour is transparent.
pub open spec fn cell_vertices(
    w: Map<ChunkCoord, Seq<BlockType>>,
    c: ChunkCoord,
    x: int,
    y: int,
    z: int,
) -> Seq<VoxelVertex> {
    if world_block(w, global(c, x, y, z)).spec_is_transparent() {
        Seq::empty()
    } else {
        open_faces(w, c, x, y, z, 6)
    }
}

/// The geometry of the first `n` cells of the row at `(x, y)`.
pub open spec fn row_vertices(
    w: Map<ChunkCoord, Seq<BlockType>>,
    c: ChunkCoord,
    x: int,
    y: int,
    n: int,
) -> Seq<VoxelVertex>
    decreases n,
{
    if n <= 0 {
        Seq::empty()
    } else {
        row_vertices(w, c, x, y, n - 1) + cell_vertices(w, c, x, y, n - 1)
    }
}

/// The geometry of the first `m` rows of the slice at `x`.
pub open spec fn slice_rows(w: Map<ChunkCoord, Seq<BlockType>>, c: ChunkCoord, x: int, m: int) -> Seq<
    VoxelVertex,
>
    decreases m,
{
    if m <= 0 {
        Seq::empty()
    } else {
        slice_rows(w, c, x, m - 1) + row_vertices(w, c, x, m - 1, CHUNK_SIZE as int)
    }
}

/// The geometry of the slice at `x`.
pub open spec fn slice_vertices(w: Map<ChunkCoord, Seq<BlockType>>, c: ChunkCoord, x: int) -> Seq<
    VoxelVertex,
> {
    slice_rows(w, c, x, CHUNK_SIZE as int)
}

fn direction_exec(i: usize) -> (r: Direction)
    ensures
        r == direction_at(i as int),
{
    if i == 0 {
        Direction::Top
    } else if i == 1 {
        Direction::Bottom
    } else if i == 2 {
        Direction::Right
    } else if i == 3 {
        Direction::Left
    } else if i == 4 {
        Direction::Front
    } else {
        Direction::Back
    }
}

fn lighting_exec(d: Direction) -> (r: u32)
    ensures
        r == lighting_of(d),
{
    match d {
        Direction::Top => 0,
        Direction::Bottom => 1,
        Direction::Right => 2,
        Direction::Left => 3,
        Direction::Front => 4,
        Direction::Back => 5,
    }
}

fn step_exec(d: Direction) -> (r: (i64, i64, i64))
    ensures
        r.0 == step(d).0,
        r.1 == step(d).1,
        r.2 == step(d).2,
{
    match d {
        Direction::Top => (0, 1, 0),
        Direction::Bottom => (0, -1, 0),
        Direction::Right => (1, 0, 0),
        Direction::Left => (-1, 0, 0),
        Direction::Front => (0, 0, 1),
        Direction::Back => (0, 0, -1),
    }
}

fn corner_exec(d: Direction, k: usize) -> (r: (i32, i32, i32))
    ensures
        r.0 == corner(d, k as int).0,
        r.1 == corner(d, k as int).1,
        r.2 == corner(d, k as int).2,
{
    match d {
        Direction::Top => if k == 0 {
            (1, 1, 1)
        } else if k == 1 {
            (1, 1, -1)
        } else if k == 2 {
            (-1, 1, -1)
        } else {
            (-1, 1, 1)
        },
        Direction::Bottom => if k == 0 {
            (1, -1, 1)
        } else if k == 1 {
            (-1, -1, 1)
        } else if k == 2 {
            (-1, -1, -1)
        } else {
            (1, -1, -1)
        },
        Direction::Right => if k == 0 {
            (1, 1, 1)
        } else if k == 1 {
            (1, -1, 1)
        } else if k == 2 {
            (1, -1, -1)
        } else {
            (1, 1, -1)
        },
        Direction::Left => if k == 0 {
            (-1, -1, -1)
        } else if k == 1 {
            (-1, -1, 1)
        } else if k == 2 {
            (-1, 1, 1)
        } else {
            (-1, 1, -1)
        },
        Direction::Front => if k == 0 {
            (1, 1, 1)
        } else if k == 1 {
            (-1, 1, 1)
        } else if k == 2 {
            (-1, -1, 1)
        } else {
            (1, -1, 1)
        },
        Direction::Back => if k == 0 {
            (-1, -1, -1)
        } else if k == 1 {
            (-1, 1, -1)
        } else if k == 2 {
            (1, 1, -1)
        } else {
            (1, -1, -1)
        },
    }
}

fn tex_corner_exec(k: usize) -> (r: (u32, u32))
    ensures
        r == tex_corner(k as int),
{
    if k == 0 {
        (1, 1)
    } else if k == 1 {
        (1, 0)
    } else if k == 2 {
        (0, 0)
    } else {
        (0, 1)
    }
}

/// Appends the quad of face `d` of the block at local `(x, y, z)`.
fn push_face(verts: &mut Vec<VoxelVertex>, x: usize, y: usize, z: usize, d: Direction, tex: u32)
    requires
        x < CHUNK_SIZE,
        y < CHUNK_SIZE,
        z < CHUNK_SIZE,
    ensures
        final(verts)@ == old(verts)@ + face_vertices(x as int, y as int, z as int, d, tex),
{
    let ghost start = verts@;
    let ghost quad = face_vertices(x as int, y as int, z as int, d, tex);
    let mut k: usize = 0;
    while k < 4
        invariant
            k <= 4,
            x < CHUNK_SIZE,
            y < CHUNK_SIZE,
            z < CHUNK_SIZE,
            quad == face_vertices(x as int, y as int, z as int, d, tex),
            verts@ == start + quad.take(k as int),
        decreases 4 - k,
    {
        let c = corner_exec(d, k);
        let position = (2 * x as i32 + c.0, 2 * y as i32 + c.1, 2 * z as i32 + c.2);
        let v = VoxelVertex::new(position, tex_corner_exec(k), tex, lighting_exec(d));
        verts.push(v);
        proof {
            assert(v == face_vertex(x as int, y as int, z as int, d, tex, k as int));
            assert(quad.take(k + 1) =~= quad.take(k as int).push(v));
        }
        k = k + 1;
    }
    assert(quad.take(4) =~= quad);
}

/// Appends the quad of face `d` of the solid block `block` at local
/// `(x, y, z)` of chunk `c` (world position `g`) when the neighbour across
/// that face is transparent.
fn emit_face(
    world: &ChunkStorage,
    verts: &mut Vec<VoxelVertex>,
    c: ChunkCoord,
    x: usize,
    y: usize,
    z: usize,
    g: (i64, i64, i64),
    block: BlockType,
    d: Direction,
)
    requires
        world.wf(),
        x < CHUNK_SIZE,
        y < CHUNK_SIZE,
        z < CHUNK_SIZE,
        (g.0 as int, g.1 as int, g.2 as int) == global(c, x as int, y as int, z as int),
        block == world_block(world.chunks(), global(c, x as int, y as int, z as int)),
        !block.spec_is_transparent(),
    ensures
        final(verts)@ == old(verts)@ + open_face(world.chunks(), c, x as int, y as int, z as int, d),
{
    let s = step_exec(d);
    let neighbour = world.peek_block((g.0 + s.0, g.1 + s.1, g.2 + s.2));
    if neighbour.is_transparent() {
        match block.texture_index(d) {
            Some(tex) => {
                push_face(verts, x, y, z, d, tex);
            },
            None => {},
        }
    } else {
        assert(old(verts)@ + Seq::<VoxelVertex>::empty() =~= old(verts)@);
    }
}

/// The geometry of the slice at `x` of chunk `c`: for each row `y` and
/// then each cell `z`, the open faces of each solid block.
pub fn mesh_slice(world: &ChunkStorage, c: ChunkCoord, x: usize) -> (r: Vec<VoxelVertex>)
    requires
        world.wf(),
        x < CHUNK_SIZE,
    ensures
        r@ == slice_vertices(world.chunks(), c, x as int),
        r@.len() % 4 == 0,
        r@.len() <= 24576,
{
    let ghost w = world.chunks();
    let mut verts: Vec<VoxelVertex> = Vec::new();
    let mut y: usize = 0;
    while y < CHUNK_SIZE
        invariant
            world.wf(),
            w == world.chunks(),
            x < CHUNK_SIZE,
            y <= CHUNK_SIZE,
            verts@ == slice_rows(w, c, x as int, y as int),
            verts@.len() % 4 == 0,
            verts@.len() <= 768 * y,
        decreases CHUNK_SIZE - y,
    {
        let ghost row_start = verts@;
        let mut z: usize = 0;
        while z < CHUNK_SIZE
            invariant
                world.wf(),
                w == world.chunks(),
                x < CHUNK_SIZE,
                y < CHUNK_SIZE,
                z <= CHUNK_SIZE,
                verts@ == row_start + row_vertices(w, c, x as int, y as int, z as int),
                verts@.len() % 4 == 0,
                verts@.len() <= row_start.len() + 24 * z,
            decreases CHUNK_SIZE - z,
        {
            let ghost cell_start = verts@;
            let g = (
                c.0 as i64 * 32 + x as i64,
                c.1 as i64 * 32 + y as i64,
                c.2 as i64 * 32 + z as i64,
            );
            let block = world.peek_block(g);
            if !block.is_transparent() {
                let mut i: usize = 0;
                while i < 6
                    invariant
                        world.wf(),
                        w == world.chunks(),
                        x < CHUNK_SIZE,
                        y < CHUNK_SIZE,
                        z < CHUNK_SIZE,
                        i <= 6,
                        (g.0 as int, g.1 as int, g.2 as int) == global(c, x as int, y as int, z as int),
                        block == world_block(w, global(c, x as int, y as int, z as int)),
                        !block.spec_is_transparent(),
                        verts@ == cell_start + open_faces(w, c, x as int, y as int, z as int, i as int),
                        verts@.len() == cell_start.len() + open_faces(w, c, x as int, y as int, z as int, i as int).len(),
                        verts@.len() % 4 == 0,
                        verts@.len() <= cell_start.len() + 4 * i,
                    decreases 6 - i,
                {
                    let ghost before = verts@;
                    emit_face(world, &mut verts, c, x, y, z, g, block, direction_exec(i));
                    proof {
                        assert(cell_start + open_faces(w, c, x as int, y as int, z as int, i as int)
                            + open_face(w, c, x as int, y as int, z as int, direction_at(i as int))
                            =~= cell_start + open_faces(w, c, x as int, y as int, z as int, i + 1));
                    }
                    i = i + 1;
                }
            } else {
                assert(cell_vertices(w, c, x as int, y as int, z as int) =~= Seq::<VoxelVertex>::empty());
            }
            proof {
                assert(row_start + row_vertices(w, c, x as int, y as int, z as int) + cell_vertices(
                    w,
                    c,
                    x as int,
                    y as int,
                    z as int,
                ) =~= row_start + row_vertices(w, c, x as int, y as int, z + 1));
            }
            z = z + 1;
        }
        proof {
            assert(slice_rows(w, c, x as int, y as int) + row_vertices(w, c, x as int, y as int, 32)
                =~= slice_rows(w, c, x as int, y + 1));
        }
        y = y + 1;
    }
    verts
}

/// The geometry of the first `n` slices of chunk `c`, slice by slice.
pub open spec fn mesh_slices(w: Map<ChunkCoord, Seq<BlockType>>, c: ChunkCoord, n: int) -> Seq<
    VoxelVertex,
>
    decreases n,
{
    if n <= 0 {
        Seq::empty()
    } else {
        mesh_slices(w, c, n - 1) + slice_vertices(w, c, n - 1)
    }
}

/// The geometry of chunk `c`.
pub open spec fn mesh_vertices(w: Map<ChunkCoord, Seq<BlockType>>, c: ChunkCoord) -> Seq<VoxelVertex> {
    mesh_slices(w, c, CHUNK_SIZE as int)
}

/// The triangle list of `q` quads laid out one after another: quad `k`
/// (vertices `4k .. 4k + 4`) gives triangles `(0, 1, 2)` and `(2, 3, 0)`
/// relative to `4k`.
pub open spec fn quad_indices(q: nat) -> Seq<u32>
    decreases q,
{
    if q == 0 {
        Seq::empty()
    } else {
        let b = 4 * (q - 1);
        quad_indices((q - 1) as nat) + seq![
            b as u32,
            (b + 1) as u32,
            (b + 2) as u32,
            (b + 2) as u32,
            (b + 3) as u32,
            b as u32,
        ]
    }
}

/// The batches joined in order.
pub open spec fn flatten(batches: Seq<Seq<VoxelVertex>>) -> Seq<VoxelVertex>
    decreases batches.len(),
{
    if batches.len() == 0 {
        Seq::empty()
    } else {
        flatten(batches.drop_last()) + batches.last()
    }
}

/// The contents of each batch.
pub open spec fn batch_views(batches: Seq<Vec<VoxelVertex>>) -> Seq<Seq<VoxelVertex>> {
    batches.map_values(|b: Vec<VoxelVertex>| b@)
}

proof fn lemma_flatten_prefix(batches: Seq<Seq<VoxelVertex>>, i: int)
    requires
        0 <= i <= batches.len(),
    ensures
        flatten(batches.take(i)).len() <= flatten(batches).len(),
    decreases batches.len(),
{
    if i < batches.len() {
        assert(batches.drop_last().take(i) =~= batches.take(i));
        lemma_flatten_prefix(batches.drop_last(), i);
    } else {
        assert(batches.take(i) =~= batches);
    }
}

/// Joins vertex batches into one vertex list and builds its triangle list:
/// for every four incoming vertices, two triangles relative to the index
/// of the first of them, so winding never depends on who produced a batch.
pub fn merge_batches(batches: &Vec<Vec<VoxelVertex>>) -> (r: (Vec<VoxelVertex>, Vec<u32>))
    requires
        forall|i: int| 0 <= i < batches@.len() ==> #[trigger] batches@[i]@.len() % 4 == 0,
        flatten(batch_views(batches@)).len() <= 0x4000_0000,
    ensures
        r.0@ == flatten(batch_views(batches@)),
        r.0@.len() % 4 == 0,
        r.1@ == quad_indices((r.0@.len() / 4) as nat),
{
    let ghost views = batch_views(batches@);
    let mut final_verts: Vec<VoxelVertex> = Vec::new();
    let mut tris: Vec<u32> = Vec::new();
    let ghost mut q: nat = 0;
    let mut i: usize = 0;
    proof {
        assert(views.take(0) =~= Seq::<Seq<VoxelVertex>>::empty());
    }
    while i < batches.len()
        invariant
            views == batch_views(batches@),
            i <= batches@.len(),
            forall|j: int| 0 <= j < batches@.len() ==> #[trigger] batches@[j]@.len() % 4 == 0,
            flatten(views).len() <= 0x4000_0000,
            final_verts@ == flatten(views.take(i as int)),
            final_verts@.len() == 4 * q,
            tris@ == quad_indices(q),
        decreases batches@.len() - i,
    {
        let batch = &batches[i];
        let tri_start = final_verts.len();
        let tri_count = batch.len() / 4;
        proof {
            lemma_fundamental_div_mod(batch@.len() as int, 4);
            assert(views.take(i + 1).drop_last() =~= views.take(i as int));
            assert(views[i as int] == batch@);
            lemma_flatten_prefix(views, i + 1);
        }
        let ghost start = final_verts@;
        let mut j: usize = 0;
        while j < batch.len()
            invariant
                j <= batch@.len(),
                final_verts@ == start + batch@.take(j as int),
            decreases batch@.len() - j,
        {
            final_verts.push(batch[j]);
            assert(batch@.take(j + 1) =~= batch@.take(j as int).push(batch@[j as int]));
            j = j + 1;
        }
        assert(batch@.take(j as int) =~= batch@);
        let mut t: usize = 0;
        while t < tri_count
            invariant
                t <= tri_count,
                tri_start == 4 * q,
                tri_start + 4 * tri_count <= 0x4000_0000,
                tris@ == quad_indices((q + t) as nat),
            decreases tri_count - t,
        {
            let b = (tri_start + 4 * t) as u32;
            tris.push(b);
            tris.push(b + 1);
            tris.push(b + 2);
            tris.push(b + 2);
            tris.push(b + 3);
            tris.push(b);
            proof {
                let qq = (q + t) as nat;
                assert(quad_indices((qq + 1) as nat) == quad_indices(qq) + seq![
                    (4 * qq) as u32,
                    (4 * qq + 1) as u32,
                    (4 * qq + 2) as u32,
                    (4 * qq + 2) as u32,
                    (4 * qq + 3) as u32,
                    (4 * qq) as u32,
                ]);
                assert(tris@ =~= quad_indices((qq + 1) as nat));
            }
            t = t + 1;
        }
        proof {
            q = q + tri_count as nat;
        }
        i = i + 1;
    }
    proof {
        assert(views.take(i as int) =~= views);
        assert((4 * q) / 4 == q) by (nonlinear_arith);
        assert((4 * q) % 4 == 0) by (nonlinear_arith);
    }
    (final_verts, tris)
}

/// Relies on rayon's indexed parallel iterators (`into_par_iter` on a range,
/// `map`, then `collect_into_vec`): the closure runs once for each index of
/// the range, on the worker pool, and the result for index `i` lands at
/// position `i` of the vector.
#[verifier::external_body]
fn mesh_slices_parallel(world: &ChunkStorage, c: ChunkCoord) -> (r: Vec<Vec<VoxelVertex>>)
    requires
        world.wf(),
    ensures
        r@.len() == CHUNK_SIZE,
        forall|x: int|
            0 <= x < CHUNK_SIZE ==> #[trigger] r@[x]@ == slice_vertices(world.chunks(), c, x),
        forall|x: int| 0 <= x < CHUNK_SIZE ==> #[trigger] r@[x]@.len() % 4 == 0,
        forall|x: int| 0 <= x < CHUNK_SIZE ==> #[trigger] r@[x]@.len() <= 24576,
{
    let mut slices = Vec::new();
    (0..CHUNK_SIZE).into_par_iter().map(|x| mesh_slice(world, c, x)).collect_into_vec(&mut slices);
    slices
}

proof fn lemma_slices_joined(views: Seq<Seq<VoxelVertex>>, w: Map<ChunkCoord, Seq<BlockType>>, c: ChunkCoord, n: int)
    requires
        0 <= n <= views.len(),
        forall|x: int| 0 <= x < views.len() ==> #[trigger] views[x] == slice_vertices(w, c, x),
        forall|x: int| 0 <= x < views.len() ==> #[trigger] views[x].len() <= 24576,
    ensures
        flatten(views.take(n)) == mesh_slices(w, c, n),
        mesh_slices(w, c, n).len() <= 24576 * n,
    decreases n,
{
    if n == 0 {
        assert(views.take(0) =~= Seq::<Seq<VoxelVertex>>::empty());
    } else {
        assert(views.take(n).drop_last() =~= views.take(n - 1));
        lemma_slices_joined(views, w, c, n - 1);
    }
}

/// Meshes chunks for rendering. Meshing reads the world and never changes
/// it. A chunk edited while its mesh is being built is flagged changed
/// again and meshed anew later; the newest mesh replaces older ones (last
/// result wins, with no version counter on chunks).
pub struct ChunkMesherSystem {}

impl ChunkMesherSystem {
    /// The geometry of the chunk a marker shows: the slices along x are
    /// meshed in parallel, each culling faces against its neighbours
    /// (across chunk borders too, a missing chunk reading as Air), then
    /// joined in slice order with one triangle list built over the result.
    pub fn mesh_chunk(chunks: &ChunkStorage, marker: &mut ChunkMarker) -> (r: (
        Vec<VoxelVertex>,
        Vec<u32>,
    ))
        requires
            chunks.wf(),
        ensures
            r.0@ == mesh_vertices(chunks.chunks(), old(marker).coords),
            r.0@.len() % 4 == 0,
            r.1@ == quad_indices((r.0@.len() / 4) as nat),
            *final(marker) == *old(marker),
    {
        let batches = mesh_slices_parallel(chunks, marker.coords);
        let ghost views = batch_views(batches@);
        proof {
            assert forall|x: int| 0 <= x < views.len() implies #[trigger] views[x] == slice_vertices(
                chunks.chunks(),
                marker.coords,
                x,
            ) && views[x].len() <= 24576 by {
                assert(views[x] == batches@[x]@);
            }
            lemma_slices_joined(views, chunks.chunks(), marker.coords, CHUNK_SIZE as int);
            assert(views.take(CHUNK_SIZE as int) =~= views);
        }
        merge_batches(&batches)
    }

    /// Re-meshes the chunk of a marker that is both changed and renderable,
    /// clearing its changed flag; leaves any other marker alone.
    pub fn remesh(chunks: &ChunkStorage, marker: &mut ChunkMarker) -> (r: Option<(Vec<VoxelVertex>, Vec<u32>)>)
        requires
            chunks.wf(),
        ensures
            !(old(marker).changed && old(marker).renderable) ==> r is None && *final(marker) == *old(marker),
            old(marker).changed && old(marker).renderable ==> r is Some
                && final(marker).coords == old(marker).coords
                && final(marker).renderable
                && !final(marker).changed
                && r->Some_0.0@ == mesh_vertices(chunks.chunks(), old(marker).coords)
                && r->Some_0.1@ == quad_indices((r->Some_0.0@.len() / 4) as nat),
    {
        if !marker.changed || !marker.renderable {
            return None;
        }
        marker.changed = false;
        Some(Self::mesh_chunk(chunks, marker))
    }
}

/// A triangle list of `q` quads has `2 * q` triangles.
pub proof fn lemma_quad_indices_len(q: nat)
    ensures
        quad_indices(q).len() == 6 * q,
    decreases q,
{
    if q > 0 {
        lemma_quad_indices_len((q - 1) as nat);
    }
}

/// Face culling: a solid block whose six neighbours are all solid yields no
/// geometry, and one whose six neighbours are all transparent yields a quad
/// for each face: 24 vertices, indexed as 12 triangles.
pub proof fn lemma_face_culling(
    w: Map<ChunkCoord, Seq<BlockType>>,
    c: ChunkCoord,
    x: int,
    y: int,
    z: int,
)
    requires
        !world_block(w, global(c, x, y, z)).spec_is_transparent(),
    ensures
        (forall|i: int|
            0 <= i < 6 ==> !#[trigger] world_block(
                w,
                beside(global(c, x, y, z), direction_at(i)),
            ).spec_is_transparent()) ==> cell_vertices(w, c, x, y, z) == Seq::<VoxelVertex>::empty(),
        (forall|i: int|
            0 <= i < 6 ==> #[trigger] world_block(
                w,
                beside(global(c, x, y, z), direction_at(i)),
            ).spec_is_transparent()) ==> cell_vertices(w, c, x, y, z).len() == 24 && quad_indices(
            (cell_vertices(w, c, x, y, z).len() / 4) as nat,
        ).len() == 36,
{
    let g = global(c, x, y, z);
    reveal_with_fuel(open_faces, 7);
    lemma_quad_indices_len(6);
    if forall|i: int|
        0 <= i < 6 ==> !#[trigger] world_block(w, beside(g, direction_at(i))).spec_is_transparent() {
        assert(!world_block(w, beside(g, direction_at(0))).spec_is_transparent());
        assert(!world_block(w, beside(g, direction_at(1))).spec_is_transparent());
        assert(!world_block(w, beside(g, direction_at(2))).spec_is_transparent());
        assert(!world_block(w, beside(g, direction_at(3))).spec_is_transparent());
        assert(!world_block(w, beside(g, direction_at(4))).spec_is_transparent());
        assert(!world_block(w, beside(g, direction_at(5))).spec_is_transparent());
        assert(cell_vertices(w, c, x, y, z) =~= Seq::<VoxelVertex>::empty());
    }
    if forall|i: int|
        0 <= i < 6 ==> #[trigger] world_block(w, beside(g, direction_at(i))).spec_is_transparent() {
        assert(world_block(w, beside(g, direction_at(0))).spec_is_transparent());
        assert(world_block(w, beside(g, direction_at(1))).spec_is_transparent());
        assert(world_block(w, beside(g, direction_at(2))).spec_is_transparent());
        assert(world_block(w, beside(g, direction_at(3))).spec_is_transparent());
        assert(world_block(w, beside(g, direction_at(4))).spec_is_transparent());
        assert(world_block(w, beside(g, direction_at(5))).spec_is_transparent());
        assert(cell_vertices(w, c, x, y, z).len() == 24);
    }
}

/// Whether every cell of chunk `c` but the one at `(x0, y0, z0)` holds a
/// transparent block.
pub open spec fn only_solid_cell(
    w: Map<ChunkCoord, Seq<BlockType>>,
    c: ChunkCoord,
    x0: int,
    y0: int,
    z0: int,
) -> bool {
    forall|x: int, y: int, z: int|
        0 <= x < CHUNK_SIZE && 0 <= y < CHUNK_SIZE && 0 <= z < CHUNK_SIZE && (x, y, z) != (x0, y0, z0)
            ==> #[trigger] world_block(w, global(c, x, y, z)).spec_is_transparent()
}

proof fn lemma_lone_cell_row(
    w: Map<ChunkCoord, Seq<BlockType>>,
    c: ChunkCoord,
    x0: int,
    y0: int,
    z0: int,
    x: int,
    y: int,
    n: int,
)
    requires
        only_solid_cell(w, c, x0, y0, z0),
        0 <= x < CHUNK_SIZE,
        0 <= y < CHUNK_SIZE,
        0 <= n <= CHUNK_SIZE,
    ensures
        row_vertices(w, c, x, y, n) == if x == x0 && y == y0 && 0 <= z0 < n {
            cell_vertices(w, c, x0, y0, z0)
        } else {
            Seq::empty()
        },
    decreases n,
{
    if n > 0 {
        lemma_lone_cell_row(w, c, x0, y0, z0, x, y, n - 1);
        let z = n - 1;
        if (x, y, z) != (x0, y0, z0) {
            assert(world_block(w, global(c, x, y, z)).spec_is_transparent());
        }
        assert(row_vertices(w, c, x, y, n - 1) + cell_vertices(w, c, x, y, z) =~= if x == x0 && y
            == y0 && 0 <= z0 < n {
            cell_vertices(w, c, x0, y0, z0)
        } else {
            Seq::empty()
        });
    }
}

proof fn lemma_lone_cell_slice(
    w: Map<ChunkCoord, Seq<BlockType>>,
    c: ChunkCoord,
    x0: int,
    y0: int,
    z0: int,
    x: int,
    m: int,
)
    requires
        only_solid_cell(w, c, x0, y0, z0),
        0 <= z0 < CHUNK_SIZE,
        0 <= x < CHUNK_SIZE,
        0 <= m <= CHUNK_SIZE,
    ensures
        slice_rows(w, c, x, m) == if x == x0 && 0 <= y0 < m {
            cell_vertices(w, c, x0, y0, z0)
        } else {
            Seq::empty()
        },
    decreases m,
{
    if m > 0 {
        lemma_lone_cell_slice(w, c, x0, y0, z0, x, m - 1);
        lemma_lone_cell_row(w, c, x0, y0, z0, x, m - 1, CHUNK_SIZE as int);
        assert(slice_rows(w, c, x, m - 1) + row_vertices(w, c, x, m - 1, CHUNK_SIZE as int) =~= if x
            == x0 && 0 <= y0 < m {
            cell_vertices(w, c, x0, y0, z0)
        } else {
            Seq::empty()
        });
    }
}

proof fn lemma_lone_cell_mesh(
    w: Map<ChunkCoord, Seq<BlockType>>,
    c: ChunkCoord,
    x0: int,
    y0: int,
    z0: int,
    n: int,
)
    requires
        only_solid_cell(w, c, x0, y0, z0),
        0 <= y0 < CHUNK_SIZE,
        0 <= z0 < CHUNK_SIZE,
        0 <= n <= CHUNK_SIZE,
    ensures
        mesh_slices(w, c, n) == if 0 <= x0 < n {
            cell_vertices(w, c, x0, y0, z0)
        } else {
            Seq::empty()
        },
    decreases n,
{
    if n > 0 {
        lemma_lone_cell_mesh(w, c, x0, y0, z0, n - 1);
        lemma_lone_cell_slice(w, c, x0, y0, z0, n - 1, CHUNK_SIZE as int);
        assert(mesh_slices(w, c, n - 1) + slice_vertices(w, c, n - 1) =~= if 0 <= x0 < n {
            cell_vertices(w, c, x0, y0, z0)
        } else {
            Seq::empty()
        });
    }
}

/// Face culling over a whole chunk: when the block at `(x0, y0, z0)` is the
/// only solid block of its chunk, the chunk's geometry is that block's own:
/// nothing when its six neighbours are all solid, and six quads (24
/// vertices, 12 triangles) when they are all transparent.
pub proof fn lemma_lone_block_mesh(
    w: Map<ChunkCoord, Seq<BlockType>>,
    c: ChunkCoord,
    x0: int,
    y0: int,
    z0: int,
)
    requires
        0 <= x0 < CHUNK_SIZE,
        0 <= y0 < CHUNK_SIZE,
        0 <= z0 < CHUNK_SIZE,
        !world_block(w, global(c, x0, y0, z0)).spec_is_transparent(),
        only_solid_cell(w, c, x0, y0, z0),
    ensures
        mesh_vertices(w, c) == cell_vertices(w, c, x0, y0, z0),
        (forall|i: int|
            0 <= i < 6 ==> !#[trigger] world_block(
                w,
                beside(global(c, x0, y0, z0), direction_at(i)),
            ).spec_is_transparent()) ==> mesh_vertices(w, c).len() == 0,
        (forall|i: int|
            0 <= i < 6 ==> #[trigger] world_block(
                w,
                beside(global(c, x0, y0, z0), direction_at(i)),
            ).spec_is_transparent()) ==> mesh_vertices(w, c).len() == 24 && quad_indices(
            (mesh_vertices(w, c).len() / 4) as nat,
        ).len() == 36,
{
    lemma_lone_cell_mesh(w, c, x0, y0, z0, CHUNK_SIZE as int);
    lemma_face_culling(w, c, x0, y0, z0);
}

} // verus!
