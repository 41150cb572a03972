use crate::chunk::{
    in_chunk, local_index, BlockType, Chunk, VoxelError, CHUNK_SIZE, CHUNK_SIZE_3,
};
use crate::rle::rep;
use dashmap::DashMap;
use vstd::arithmetic::div_mod::{lemma_fundamental_div_mod, lemma_fundamental_div_mod_converse};
use vstd::prelude::*;

verus! {

/// A chunk coordinate: the position of a chunk in the world grid.
pub type ChunkCoord = (i32, i32, i32);

/// A block position in world space, in block units.
pub type BlockPos = (i32, i32, i32);

/// A local coordinate inside a chunk.
pub type LocalPos = (usize, usize, usize);

/// dashmap's sharded concurrent map, held opaquely: what it contains is
/// named by `chunk_map_contents`, and each method used is a wrapper below.
#[verifier::external_type_specification]
#[verifier::external_body]
#[verifier::reject_recursive_types(K)]
#[verifier::reject_recursive_types(V)]
#[verifier::reject_recursive_types(S)]
pub struct ExDashMap<K, V, S>(DashMap<K, V, S>);

/// The concurrent map from chunk coordinates to chunks.
pub type ChunkMap = DashMap<ChunkCoord, Chunk>;

/// The chunks held by a concurrent chunk map, by coordinate (one value per
/// key, as in any map).
pub uninterp spec fn chunk_map_contents(m: ChunkMap) -> Map<ChunkCoord, Chunk>;

/// Relies on `DashMap::new`: a new map holds no entries.
#[verifier::external_body]
fn new_chunk_map() -> (r: ChunkMap)
    ensures
        forall|k: ChunkCoord| !chunk_map_contents(r).contains_key(k),
{
    DashMap::new()
}

/// Relies on `DashMap::insert`: afterwards the key holds the new value, the
/// other entries are unchanged, and the value the key held before is returned.
#[verifier::external_body]
fn insert_chunk(m: &mut ChunkMap, key: ChunkCoord, chunk: Chunk) -> (r: Option<
    Chunk,
>)
    ensures
        chunk_map_contents(*final(m)) == chunk_map_contents(*old(m)).insert(key, chunk),
        r == chunk_map_contents(*old(m)).get(key),
{
    m.insert(key, chunk)
}

/// Relies on `DashMap::remove`: afterwards the key holds nothing, the other
/// entries are unchanged, and the value the key held is returned.
#[verifier::external_body]
fn remove_chunk(m: &mut ChunkMap, key: ChunkCoord) -> (r: Option<Chunk>)
    ensures
        chunk_map_contents(*final(m)) == chunk_map_contents(*old(m)).remove(key),
        r == chunk_map_contents(*old(m)).get(key),
{
    m.remove(&key).map(|(_, chunk)| chunk)
}

/// Relies on `DashMap::view`: the closure runs on the value held by the key,
/// under the key's read lock, and its result is returned; nothing when the
/// key holds no value.
#[verifier::external_body]
fn view_chunk_block(m: &ChunkMap, key: ChunkCoord, local: LocalPos) -> (r: Option<BlockType>)
    requires
        in_chunk(local),
        chunk_map_contents(*m).contains_key(key) ==> chunk_map_contents(*m)[key].wf(),
    ensures
        r == match chunk_map_contents(*m).get(key) {
            Some(chunk) => Some(chunk@[local_index(local)]),
            None => None,
        },
{
    m.view(&key, |_, chunk| chunk.block_at(local))
}

/// The chunk coordinate along one axis of a world block position:
/// division by the chunk edge length, rounded down.
pub open spec fn axis_chunk(n: int) -> int {
    n / (CHUNK_SIZE as int)
}

/// The local coordinate along one axis: the remainder, in `[0, 32)`.
pub open spec fn axis_local(n: int) -> int {
    n % (CHUNK_SIZE as int)
}

/// The chunk holding a world block position.
pub open spec fn chunk_of(p: BlockPos) -> ChunkCoord {
    (axis_chunk(p.0 as int) as i32, axis_chunk(p.1 as int) as i32, axis_chunk(p.2 as int) as i32)
}

/// The local coordinate of a world block position inside its chunk.
pub open spec fn local_of(p: BlockPos) -> LocalPos {
    (
        axis_local(p.0 as int) as usize,
        axis_local(p.1 as int) as usize,
        axis_local(p.2 as int) as usize,
    )
}

/// Splits one axis of a world block position into chunk and local parts.
fn split_axis(n: i32) -> (r: (i32, usize))
    ensures
        r.0 == axis_chunk(n as int),
        r.1 == axis_local(n as int),
        r.1 < CHUNK_SIZE,
        -67108864 <= r.0 < 67108864,
{
    let (c, l) = split_axis_wide(n as i64);
    (c as i32, l)
}

/// Splits a world block position into its chunk coordinate and its local
/// coordinate in that chunk.
pub fn world_point_to_chunk_block(place: BlockPos) -> (r: (ChunkCoord, LocalPos))
    ensures
        r.0 == chunk_of(place),
        r.1 == local_of(place),
        in_chunk(r.1),
        -67108864 <= r.0.0 < 67108864,
        -67108864 <= r.0.1 < 67108864,
        -67108864 <= r.0.2 < 67108864,
{
    let (cx, lx) = split_axis(place.0);
    let (cy, ly) = split_axis(place.1);
    let (cz, lz) = split_axis(place.2);
    ((cx, cy, cz), (lx, ly, lz))
}

/// A chunk holding Air only.
pub open spec fn air_chunk() -> Seq<BlockType> {
    rep(CHUNK_SIZE_3 as nat, BlockType::Air)
}

/// The blocks of chunk `c`, with a missing chunk read as Air only.
pub open spec fn chunk_or_air(chunks: Map<ChunkCoord, Seq<BlockType>>, c: ChunkCoord) -> Seq<
    BlockType,
> {
    if chunks.contains_key(c) {
        chunks[c]
    } else {
        air_chunk()
    }
}

/// Whether an integer fits in an `i32`.
pub open spec fn fits_i32(n: int) -> bool {
    i32::MIN <= n <= i32::MAX
}

/// The block at an integer world position: the block of the chunk that
/// covers it, with a chunk that is missing (or lies beyond the coordinate
/// range) read as Air.
pub open spec fn world_block(chunks: Map<ChunkCoord, Seq<BlockType>>, g: (int, int, int)) -> BlockType {
    let c = (axis_chunk(g.0), axis_chunk(g.1), axis_chunk(g.2));
    if fits_i32(c.0) && fits_i32(c.1) && fits_i32(c.2) {
        chunk_or_air(chunks, (c.0 as i32, c.1 as i32, c.2 as i32))[axis_local(g.0) + axis_local(
            g.1,
        ) * (CHUNK_SIZE as int) + axis_local(g.2) * (CHUNK_SIZE as int) * (CHUNK_SIZE as int)]
    } else {
        BlockType::Air
    }
}

/// A world block position as integers.
pub open spec fn pos_int(p: BlockPos) -> (int, int, int) {
    (p.0 as int, p.1 as int, p.2 as int)
}

/// The chunks whose geometry an edit at `p` may change: the chunk holding
/// `p`, and across each chunk face that `p` lies on, the neighbouring chunk.
pub open spec fn touched_chunks(p: BlockPos) -> Set<ChunkCoord> {
    let c = chunk_of(p);
    let l = local_of(p);
    let last = (CHUNK_SIZE - 1) as usize;
    set![c].union(
        if l.0 == 0 {
            set![((c.0 - 1) as i32, c.1, c.2)]
        } else if l.0 == last {
            set![((c.0 + 1) as i32, c.1, c.2)]
        } else {
            Set::empty()
        },
    ).union(
        if l.1 == 0 {
            set![(c.0, (c.1 - 1) as i32, c.2)]
        } else if l.1 == last {
            set![(c.0, (c.1 + 1) as i32, c.2)]
        } else {
            Set::empty()
        },
    ).union(
        if l.2 == 0 {
            set![(c.0, c.1, (c.2 - 1) as i32)]
        } else if l.2 == last {
            set![(c.0, c.1, (c.2 + 1) as i32)]
        } else {
            Set::empty()
        },
    )
}

/// The sparse world: chunks created on first touch, the coordinates of
/// chunks created and not yet handed out ("needed"), and the coordinates
/// of chunks whose geometry an edit may have changed ("changed").
pub struct ChunkStorage {
    map: ChunkMap,
    needed_chunks: Vec<ChunkCoord>,
    changed_chunks: Vec<ChunkCoord>,
}

impl ChunkStorage {
    /// Every stored chunk is well formed and no coordinate is listed twice
    /// as changed.
    pub closed spec fn wf(&self) -> bool {
        &&& forall|k: ChunkCoord| #[trigger]
            chunk_map_contents(self.map).contains_key(k) ==> chunk_map_contents(self.map)[k].wf()
        &&& self.changed_chunks@.no_duplicates()
    }

    /// The blocks of each stored chunk, by chunk coordinate.
    pub closed spec fn chunks(&self) -> Map<ChunkCoord, Seq<BlockType>> {
        chunk_map_contents(self.map).map_values(|c: Chunk| c@)
    }

    /// Coordinates of created chunks not yet handed out, oldest first.
    pub closed spec fn needed(&self) -> Seq<ChunkCoord> {
        self.needed_chunks@
    }

    /// Coordinates of chunks waiting to be re-meshed.
    pub closed spec fn changed(&self) -> Set<ChunkCoord> {
        Set::new(|k: ChunkCoord| self.changed_chunks@.contains(k))
    }

    /// An empty world.
    pub fn new() -> (r: Self)
        ensures
            r.wf(),
            r.chunks() == Map::<ChunkCoord, Seq<BlockType>>::empty(),
            r.needed() == Seq::<ChunkCoord>::empty(),
            r.changed() == Set::<ChunkCoord>::empty(),
    {
        let r = ChunkStorage { map: new_chunk_map(), needed_chunks: Vec::new(), changed_chunks: Vec::new() };
        assert(r.chunks() =~= Map::<ChunkCoord, Seq<BlockType>>::empty());
        assert(r.changed() =~= Set::<ChunkCoord>::empty());
        r
    }

    /// The block at a world position, read without creating anything: a
    /// chunk that does not exist reads as Air.
    pub fn peek_block(&self, place: (i64, i64, i64)) -> (r: BlockType)
        requires
            self.wf(),
        ensures
            r == world_block(self.chunks(), (place.0 as int, place.1 as int, place.2 as int)),
    {
        let (cx, lx) = split_axis_wide(place.0);
        let (cy, ly) = split_axis_wide(place.1);
        let (cz, lz) = split_axis_wide(place.2);
        if cx < i32::MIN as i64 || cx > i32::MAX as i64 || cy < i32::MIN as i64 || cy > i32::MAX as i64
            || cz < i32::MIN as i64 || cz > i32::MAX as i64 {
            return BlockType::Air;
        }
        let key = (cx as i32, cy as i32, cz as i32);
        match view_chunk_block(&self.map, key, (lx, ly, lz)) {
            Some(b) => b,
            None => {
                proof {
                    assert(air_chunk()[lx + ly * 32 + lz * 1024] == BlockType::Air);
                }
                BlockType::Air
            },
        }
    }
}

impl ChunkStorage {
    /// Where `c` stands in the changed list, if it is there.
    fn find_changed(&self, c: ChunkCoord) -> (r: Option<usize>)
        ensures
            r is Some ==> r->Some_0 < self.changed_chunks@.len() && self.changed_chunks@[r->Some_0 as int]
                == c,
            r is None ==> !self.changed_chunks@.contains(c),
    {
        let mut i: usize = 0;
        while i < self.changed_chunks.len()
            invariant
                i <= self.changed_chunks@.len(),
                forall|j: int| 0 <= j < i ==> self.changed_chunks@[j] != c,
            decreases self.changed_chunks@.len() - i,
        {
            let e = self.changed_chunks[i];
            if e.0 == c.0 && e.1 == c.1 && e.2 == c.2 {
                return Some(i);
            }
            i = i + 1;
        }
        None
    }

    /// Adds `c` to the changed coordinates.
    fn mark_changed(&mut self, c: ChunkCoord)
        requires
            old(self).wf(),
        ensures
            final(self).wf(),
            final(self).changed() == old(self).changed().insert(c),
            final(self).chunks() == old(self).chunks(),
            final(self).needed() == old(self).needed(),
    {
        let ghost before = self.changed_chunks@;
        match self.find_changed(c) {
            Some(_) => {
                assert(self.changed() =~= old(self).changed().insert(c));
            },
            None => {
                self.changed_chunks.push(c);
                proof {
                    let after = self.changed_chunks@;
                    assert forall|k: ChunkCoord| after.contains(k) <==> (before.contains(k) || k == c) by {
                        if before.contains(k) {
                            let j = choose|j: int| 0 <= j < before.len() && before[j] == k;
                            assert(after[j] == k);
                        }
                        if k == c {
                            assert(after[before.len() as int] == k);
                        }
                    }
                    assert(self.changed() =~= old(self).changed().insert(c));
                }
            },
        }
    }

    /// Takes chunk `c` out of the map, or a fresh Air chunk when there is
    /// none; a fresh chunk has its coordinate queued as needed.
    fn take_chunk(&mut self, c: ChunkCoord) -> (r: Chunk)
        requires
            old(self).wf(),
        ensures
            r.wf(),
            r@ == chunk_or_air(old(self).chunks(), c),
            chunk_map_contents(final(self).map) == chunk_map_contents(old(self).map).remove(c),
            forall|k: ChunkCoord| #[trigger]
                chunk_map_contents(final(self).map).contains_key(k) ==> chunk_map_contents(
                    final(self).map,
                )[k].wf(),
            final(self).changed_chunks == old(self).changed_chunks,
            final(self).needed() == if old(self).chunks().contains_key(c) {
                old(self).needed()
            } else {
                old(self).needed().push(c)
            },
    {
        match remove_chunk(&mut self.map, c) {
            Some(chunk) => chunk,
            None => {
                self.needed_chunks.push(c);
                Chunk::new()
            },
        }
    }

    /// Puts chunk `c` back into the map.
    fn put_chunk(&mut self, c: ChunkCoord, chunk: Chunk)
        requires
            chunk.wf(),
            forall|k: ChunkCoord| #[trigger]
                chunk_map_contents(old(self).map).contains_key(k) ==> chunk_map_contents(
                    old(self).map,
                )[k].wf(),
            old(self).changed_chunks@.no_duplicates(),
        ensures
            final(self).wf(),
            chunk_map_contents(final(self).map) == chunk_map_contents(old(self).map).insert(c, chunk),
            final(self).changed_chunks == old(self).changed_chunks,
            final(self).needed_chunks == old(self).needed_chunks,
    {
        let _ = insert_chunk(&mut self.map, c, chunk);
    }

    /// The block at a world position. A chunk that does not exist yet is
    /// created as Air and its coordinate queued as needed.
    pub fn get_block(&mut self, place: &BlockPos) -> (r: BlockType)
        requires
            old(self).wf(),
        ensures
            final(self).wf(),
            r == world_block(old(self).chunks(), pos_int(*place)),
            final(self).chunks() == if old(self).chunks().contains_key(chunk_of(*place)) {
                old(self).chunks()
            } else {
                old(self).chunks().insert(chunk_of(*place), air_chunk())
            },
            final(self).needed() == if old(self).chunks().contains_key(chunk_of(*place)) {
                old(self).needed()
            } else {
                old(self).needed().push(chunk_of(*place))
            },
            final(self).changed() == old(self).changed(),
    {
        let (c, l) = world_point_to_chunk_block(*place);
        let chunk = self.take_chunk(c);
        let b = chunk.block_at(l);
        self.put_chunk(c, chunk);
        proof {
            let m0 = chunk_map_contents(old(self).map);
            let m1 = chunk_map_contents(self.map);
            assert(m1 =~= m0.remove(c).insert(c, chunk));
            if m0.contains_key(c) {
                assert(self.chunks() =~= old(self).chunks());
            } else {
                assert(self.chunks() =~= old(self).chunks().insert(c, air_chunk()));
            }
            assert(self.changed() =~= old(self).changed());
        }
        b
    }

    /// Places a block at a world position, creating its chunk (as Air,
    /// queued as needed) when it does not exist yet, and marks as changed
    /// the edited chunk and every neighbour across a chunk face that the
    /// position lies on.
    pub fn set_block(&mut self, block: &BlockType, place: &BlockPos)
        requires
            old(self).wf(),
        ensures
            final(self).wf(),
            final(self).chunks() == old(self).chunks().insert(
                chunk_of(*place),
                chunk_or_air(old(self).chunks(), chunk_of(*place)).update(
                    local_index(local_of(*place)),
                    *block,
                ),
            ),
            final(self).needed() == if old(self).chunks().contains_key(chunk_of(*place)) {
                old(self).needed()
            } else {
                old(self).needed().push(chunk_of(*place))
            },
            final(self).changed() == old(self).changed().union(touched_chunks(*place)),
    {
        let (c, l) = world_point_to_chunk_block(*place);
        let mut chunk = self.take_chunk(c);
        let _ = chunk.set_block(l, block);
        self.put_chunk(c, chunk);
        proof {
            let m0 = chunk_map_contents(old(self).map);
            let m1 = chunk_map_contents(self.map);
            assert(m1 =~= m0.remove(c).insert(c, chunk));
            assert(self.chunks() =~= old(self).chunks().insert(
                c,
                chunk_or_air(old(self).chunks(), c).update(local_index(l), *block),
            ));
        }
        let ghost mid = self.changed();
        let last = CHUNK_SIZE - 1;
        if l.0 == 0 {
            self.mark_changed((c.0 - 1, c.1, c.2));
        } else if l.0 == last {
            self.mark_changed((c.0 + 1, c.1, c.2));
        }
        if l.1 == 0 {
            self.mark_changed((c.0, c.1 - 1, c.2));
        } else if l.1 == last {
            self.mark_changed((c.0, c.1 + 1, c.2));
        }
        if l.2 == 0 {
            self.mark_changed((c.0, c.1, c.2 - 1));
        } else if l.2 == last {
            self.mark_changed((c.0, c.1, c.2 + 1));
        }
        self.mark_changed(c);
        assert(self.changed() =~= mid.union(touched_chunks(*place)));
    }

    /// Stores `chunk` as the chunk covering a world position, replacing any
    /// chunk there.
    pub fn set_chunk(&mut self, place: &BlockPos, chunk: Chunk)
        requires
            old(self).wf(),
            chunk.wf(),
        ensures
            final(self).wf(),
            final(self).chunks() == old(self).chunks().insert(chunk_of(*place), chunk@),
            final(self).needed() == old(self).needed(),
            final(self).changed() == old(self).changed(),
    {
        let (c, _l) = world_point_to_chunk_block(*place);
        let ghost v = chunk@;
        self.put_chunk(c, chunk);
        assert(self.chunks() =~= old(self).chunks().insert(c, v));
        assert(self.changed() =~= old(self).changed());
    }

    /// Hands out the most recently queued needed coordinate.
    pub fn pop_needed(&mut self) -> (r: Option<ChunkCoord>)
        requires
            old(self).wf(),
        ensures
            final(self).wf(),
            old(self).needed().len() == 0 ==> r is None && final(self).needed() == old(self).needed(),
            old(self).needed().len() > 0 ==> r == Some(old(self).needed().last())
                && final(self).needed() == old(self).needed().drop_last(),
            final(self).chunks() == old(self).chunks(),
            final(self).changed() == old(self).changed(),
    {
        let r = self.needed_chunks.pop();
        assert(self.changed() =~= old(self).changed());
        r
    }

    /// Whether any chunk waits to be re-meshed.
    pub fn has_changed(&self) -> (r: bool)
        ensures
            r == (self.changed() != Set::<ChunkCoord>::empty()),
    {
        if self.changed_chunks.len() == 0 {
            assert(self.changed() =~= Set::<ChunkCoord>::empty());
            false
        } else {
            assert(self.changed().contains(self.changed_chunks@[0]));
            true
        }
    }

    /// Matches a chunk marker against the changed coordinates: when its
    /// chunk is listed, the marker is flagged changed; either way the
    /// coordinate leaves the list.
    pub fn acknowledge_changed(&mut self, marker: &mut ChunkMarker)
        requires
            old(self).wf(),
        ensures
            final(self).wf(),
            final(marker).coords == old(marker).coords,
            final(marker).renderable == old(marker).renderable,
            final(marker).changed == (old(marker).changed || old(self).changed().contains(
                old(marker).coords,
            )),
            final(self).changed() == old(self).changed().remove(old(marker).coords),
            final(self).chunks() == old(self).chunks(),
            final(self).needed() == old(self).needed(),
    {
        let c = marker.coords;
        match self.find_changed(c) {
            Some(i) => {
                marker.changed = true;
                let ghost before = self.changed_chunks@;
                self.changed_chunks.remove(i);
                proof {
                    let after = self.changed_chunks@;
                    assert(after =~= before.remove(i as int));
                    assert forall|k: ChunkCoord| after.contains(k) <==> (before.contains(k) && k != c) by {
                        if after.contains(k) {
                            let j = choose|j: int| 0 <= j < after.len() && after[j] == k;
                            if j < i {
                                assert(before[j] == k);
                            } else {
                                assert(before[j + 1] == k);
                            }
                        }
                        if before.contains(k) && k != c {
                            let j = choose|j: int| 0 <= j < before.len() && before[j] == k;
                            if j < i {
                                assert(after[j] == k);
                            } else {
                                assert(after[j - 1] == k);
                            }
                        }
                    }
                    assert(self.changed() =~= old(self).changed().remove(c));
                }
            },
            None => {
                assert(self.changed() =~= old(self).changed().remove(c));
            },
        }
    }
}

impl Default for ChunkStorage {
    fn default() -> (r: Self)
        ensures
            r.wf(),
            r.chunks() == Map::<ChunkCoord, Seq<BlockType>>::empty(),
            r.needed() == Seq::<ChunkCoord>::empty(),
            r.changed() == Set::<ChunkCoord>::empty(),
    {
        Self::new()
    }
}

/// Marks a chunk's place in the world for the entity layer: which chunk it
/// shows, whether it can be drawn, and whether its mesh is out of date.
pub struct ChunkMarker {
    pub coords: ChunkCoord,
    pub renderable: bool,
    pub changed: bool,
}

impl Default for ChunkMarker {
    fn default() -> (r: Self)
        ensures
            r.coords == (0i32, 0i32, 0i32),
            !r.renderable,
            !r.changed,
    {
        ChunkMarker { coords: (0, 0, 0), renderable: false, changed: false }
    }
}

/// Splits one axis of a wide world position into chunk and local parts.
fn split_axis_wide(n: i64) -> (r: (i64, usize))
    ensures
        r.0 == axis_chunk(n as int),
        r.1 == axis_local(n as int),
        r.1 < CHUNK_SIZE,
        n == 32 * r.0 + r.1,
{
    if n >= 0 {
        let m = n as u64;
        let q = m / 32;
        let rem = m % 32;
        proof {
            lemma_fundamental_div_mod_converse(n as int, 32, q as int, rem as int);
        }
        (q as i64, rem as usize)
    } else {
        let m = (-(n + 1)) as u64;
        let q = m / 32;
        let rem = m % 32;
        proof {
            lemma_fundamental_div_mod_converse(n as int, 32, -(q as int) - 1, 31 - rem as int);
        }
        (-(q as i64) - 1, (31 - rem) as usize)
    }
}

/// Cross-chunk propagation: an edit marks its own chunk as changed and,
/// when it lies on a chunk face (local coordinate 0 or 31 on an axis), the
/// neighbouring chunk across that face as well.
pub proof fn lemma_cross_chunk_propagation(
    place: BlockPos,
    before: Set<ChunkCoord>,
    after: Set<ChunkCoord>,
)
    requires
        after == before.union(touched_chunks(place)),
    ensures
        after.contains(chunk_of(place)),
        local_of(place).0 == 0 ==> after.contains(
            ((chunk_of(place).0 - 1) as i32, chunk_of(place).1, chunk_of(place).2),
        ),
        local_of(place).1 == 0 ==> after.contains(
            (chunk_of(place).0, (chunk_of(place).1 - 1) as i32, chunk_of(place).2),
        ),
        local_of(place).2 == 0 ==> after.contains(
            (chunk_of(place).0, chunk_of(place).1, (chunk_of(place).2 - 1) as i32),
        ),
        local_of(place).0 == CHUNK_SIZE - 1 ==> after.contains(
            ((chunk_of(place).0 + 1) as i32, chunk_of(place).1, chunk_of(place).2),
        ),
        local_of(place).1 == CHUNK_SIZE - 1 ==> after.contains(
            (chunk_of(place).0, (chunk_of(place).1 + 1) as i32, chunk_of(place).2),
        ),
        local_of(place).2 == CHUNK_SIZE - 1 ==> after.contains(
            (chunk_of(place).0, chunk_of(place).1, (chunk_of(place).2 + 1) as i32),
        ),
        before.subset_of(after),
{
}

impl ChunkStorage {
    /// Every stored chunk has one block per cell.
    pub proof fn lemma_chunk_lens(&self)
        requires
            self.wf(),
        ensures
            forall|k: ChunkCoord| #[trigger]
                self.chunks().contains_key(k) ==> self.chunks()[k].len() == CHUNK_SIZE_3,
    {
        assert forall|k: ChunkCoord| #[trigger]
            self.chunks().contains_key(k) implies self.chunks()[k].len() == CHUNK_SIZE_3 by {
            chunk_map_contents(self.map)[k].lemma_len();
        }
    }
}

/// Per-position consistency: after an edit that writes `block` at `place`,
/// the world reads `block` at `place` and reads as before everywhere else.
pub proof fn lemma_set_then_get(
    before: ChunkStorage,
    after: ChunkStorage,
    place: BlockPos,
    block: BlockType,
    g: (int, int, int),
)
    requires
        before.wf(),
        after.chunks() == before.chunks().insert(
            chunk_of(place),
            chunk_or_air(before.chunks(), chunk_of(place)).update(
                local_index(local_of(place)),
                block,
            ),
        ),
    ensures
        world_block(after.chunks(), pos_int(place)) == block,
        g != pos_int(place) ==> world_block(after.chunks(), g) == world_block(before.chunks(), g),
{
    before.lemma_chunk_lens();
    let p = pos_int(place);
    lemma_fundamental_div_mod(p.0, 32);
    lemma_fundamental_div_mod(p.1, 32);
    lemma_fundamental_div_mod(p.2, 32);
    lemma_fundamental_div_mod(g.0, 32);
    lemma_fundamental_div_mod(g.1, 32);
    lemma_fundamental_div_mod(g.2, 32);
    assert(-67108864 <= axis_chunk(p.0) < 67108864);
    assert(-67108864 <= axis_chunk(p.1) < 67108864);
    assert(-67108864 <= axis_chunk(p.2) < 67108864);
}

} // verus!
