//! Collider bookkeeping for terrain chunks: a least-recently-used cache of
//! colliders keyed by a chunk's voxel hash, and the voxel coordinates that a
//! chunk collider is built from.

use vstd::prelude::*;
use std::collections::{HashMap, VecDeque};
use crate::grid::{grid, grid_layer, grid_row, lemma_grid_congruent, lemma_grid_len};
use crate::voxel::WorldVoxel;

verus! {

broadcast use vstd::std_specs::hash::group_hash_axioms;

/// Largest number of colliders the chunk collider cache keeps.
pub const CHUNK_COLLIDER_CACHE_MAX_ENTRIES: usize = 512;

/// `s` with every occurrence of `key` removed, the rest in order.
pub open spec fn seq_without(s: Seq<u64>, key: u64) -> Seq<u64>
    decreases s.len(),
{
    if s.len() == 0 {
        s
    } else {
        let rest = seq_without(s.drop_last(), key);
        if s.last() == key {
            rest
        } else {
            rest.push(s.last())
        }
    }
}

/// The access order after `key` was used: `key` moves to (or joins at) the
/// most recent end, every other key keeps its place.
pub open spec fn touched(order: Seq<u64>, key: u64) -> Seq<u64> {
    seq_without(order, key).push(key)
}

/// The cache's consistency: the access order lists every cached key exactly
/// once, and nothing else.
pub open spec fn lru_wf<C>(entries: Map<u64, C>, order: Seq<u64>) -> bool {
    &&& order.no_duplicates()
    &&& forall|k: u64| #[trigger] entries.contains_key(k) <==> order.contains(k)
}

/// Contents and access order after inserting `collider` under `key` with the
/// given capacity. A capacity of 0 caches nothing. Otherwise the entry is
/// stored (replacing any collider under the same key) and becomes the most
/// recently used; when the key was new and the cache now holds more than
/// `capacity` colliders, the least recently used one is dropped.
pub open spec fn insert_result<C>(
    entries: Map<u64, C>,
    order: Seq<u64>,
    key: u64,
    collider: C,
    capacity: usize,
) -> (Map<u64, C>, Seq<u64>) {
    if capacity == 0 {
        (entries, order)
    } else {
        let stored = entries.insert(key, collider);
        let used = touched(order, key);
        if !entries.contains_key(key) && stored.len() > capacity {
            (stored.remove(used[0]), used.drop_first())
        } else {
            (stored, used)
        }
    }
}

proof fn lemma_without_absent(s: Seq<u64>, key: u64)
    requires
        !s.contains(key),
    ensures
        seq_without(s, key) == s,
    decreases s.len(),
{
    if s.len() > 0 {
        assert(!s.drop_last().contains(key)) by {
            if s.drop_last().contains(key) {
                let i = choose|i: int| 0 <= i < s.drop_last().len() && s.drop_last()[i] == key;
                assert(s[i] == key);
            }
        }
        lemma_without_absent(s.drop_last(), key);
        assert(s.last() != key) by {
            assert(s[s.len() - 1] == s.last());
        }
        assert(s.drop_last().push(s.last()) =~= s);
    }
}

proof fn lemma_without_at(s: Seq<u64>, key: u64, i: int)
    requires
        s.no_duplicates(),
        0 <= i < s.len(),
        s[i] == key,
    ensures
        seq_without(s, key) == s.remove(i),
    decreases s.len(),
{
    let d = s.drop_last();
    assert(d.no_duplicates()) by {
        assert forall|a: int, b: int| 0 <= a < d.len() && 0 <= b < d.len() && a != b implies d[a] != d[b] by {
            assert(d[a] == s[a] && d[b] == s[b]);
        }
    }
    if i == s.len() - 1 {
        assert(!d.contains(key)) by {
            if d.contains(key) {
                let j = choose|j: int| 0 <= j < d.len() && d[j] == key;
                assert(s[j] == s[i]);
            }
        }
        lemma_without_absent(d, key);
        assert(s.remove(i) =~= d);
    } else {
        assert(s.last() != key) by {
            assert(s[s.len() - 1] != s[i]);
        }
        lemma_without_at(d, key, i);
        assert(d.remove(i).push(s.last()) =~= s.remove(i));
    }
}

/// What `touched` keeps: no duplicates, the same keys plus `key`, with
/// `key` last.
proof fn lemma_touched(order: Seq<u64>, key: u64)
    requires
        order.no_duplicates(),
    ensures
        touched(order, key).no_duplicates(),
        touched(order, key).last() == key,
        forall|k: u64| #[trigger] touched(order, key).contains(k) <==> (order.contains(k) || k == key),
        touched(order, key).len() == if order.contains(key) { order.len() } else { order.len() + 1 },
{
    let t = touched(order, key);
    if order.contains(key) {
        let i = choose|i: int| 0 <= i < order.len() && order[i] == key;
        lemma_without_at(order, key, i);
        let r = order.remove(i);
        assert(t == r.push(key));
        assert forall|k: u64| #[trigger] t.contains(k) <==> (order.contains(k) || k == key) by {
            if order.contains(k) && k != key {
                let j = choose|j: int| 0 <= j < order.len() && order[j] == k;
                if j < i {
                    assert(t[j] == k);
                } else {
                    assert(t[j - 1] == k);
                }
            }
            if t.contains(k) && k != key {
                let j = choose|j: int| 0 <= j < t.len() && t[j] == k;
                if j < i {
                    assert(order[j] == k);
                } else {
                    assert(order[j + 1] == k);
                }
            }
            if k == key {
                assert(t[t.len() - 1] == key);
            }
        }
        assert forall|a: int, b: int| 0 <= a < t.len() && 0 <= b < t.len() && a != b implies t[a] != t[b] by {
            let oa = if a < i { a } else { a + 1 };
            let ob = if b < i { b } else { b + 1 };
            if a == t.len() - 1 {
                assert(t[b] == order[ob]);
                assert(ob != i);
            } else if b == t.len() - 1 {
                assert(t[a] == order[oa]);
                assert(oa != i);
            } else {
                assert(t[a] == order[oa] && t[b] == order[ob]);
            }
        }
    } else {
        lemma_without_absent(order, key);
        assert(t == order.push(key));
        assert forall|k: u64| #[trigger] t.contains(k) <==> (order.contains(k) || k == key) by {
            if order.contains(k) {
                let j = choose|j: int| 0 <= j < order.len() && order[j] == k;
                assert(t[j] == k);
            }
            if t.contains(k) && k != key {
                let j = choose|j: int| 0 <= j < t.len() && t[j] == k;
                assert(order[j] == k);
            }
            if k == key {
                assert(t[t.len() - 1] == key);
            }
        }
        assert forall|a: int, b: int| 0 <= a < t.len() && 0 <= b < t.len() && a != b implies t[a] != t[b] by {
            if a == t.len() - 1 {
                assert(order.contains(t[b]));
            } else if b == t.len() - 1 {
                assert(order.contains(t[a]));
            }
        }
    }
}

/// A consistent cache holds as many colliders as its access order lists keys.
pub proof fn lemma_lru_len<C>(entries: Map<u64, C>, order: Seq<u64>)
    requires
        lru_wf(entries, order),
    ensures
        entries.dom().finite(),
        entries.len() == order.len(),
{
    assert(entries.dom() =~= order.to_set());
    order.unique_seq_to_set();
}

/// After an insert with a non-zero capacity, the inserted collider is cached
/// under its key and the key is the most recently used one: an insert is
/// never undone by its own eviction.
pub proof fn lemma_insert_caches_entry<C>(entries: Map<u64, C>, order: Seq<u64>, key: u64, collider: C, capacity: usize)
    requires
        lru_wf(entries, order),
        capacity > 0,
    ensures
        insert_result(entries, order, key, collider, capacity).0.contains_key(key),
        insert_result(entries, order, key, collider, capacity).0[key] == collider,
        insert_result(entries, order, key, collider, capacity).1.last() == key,
{
    let stored = entries.insert(key, collider);
    let used = touched(order, key);
    lemma_touched(order, key);
    lemma_lru_len(entries, order);
    if !entries.contains_key(key) && stored.len() > capacity {
        assert(!order.contains(key));
        assert(used.len() == order.len() + 1);
        assert(stored.len() == entries.len() + 1);
        assert(used.len() >= 2);
        assert(used[0] != used[used.len() - 1]);
        assert(used.drop_first().last() == used.last());
    }
}

/// An insert never takes a cache that was within `capacity` past it.
pub proof fn lemma_insert_respects_capacity<C>(entries: Map<u64, C>, order: Seq<u64>, key: u64, collider: C, capacity: usize)
    requires
        lru_wf(entries, order),
        entries.len() <= capacity,
    ensures
        insert_result(entries, order, key, collider, capacity).0.len() <= capacity,
{
    lemma_lru_len(entries, order);
    if capacity > 0 {
        let stored = entries.insert(key, collider);
        let used = touched(order, key);
        lemma_touched(order, key);
        if !entries.contains_key(key) {
            assert(stored.len() == entries.len() + 1);
            if stored.len() > capacity {
                assert(used.contains(used[0]));
                assert(stored.contains_key(used[0]));
                assert(stored.remove(used[0]).len() == stored.len() - 1);
            }
        } else {
            assert(stored.dom() =~= entries.dom());
        }
    }
}

/// When a new key arrives at a full cache, the collider that goes is the
/// least recently used one, and every other collider stays.
pub proof fn lemma_insert_evicts_least_recently_used<C>(entries: Map<u64, C>, order: Seq<u64>, key: u64, collider: C, capacity: usize)
    requires
        lru_wf(entries, order),
        capacity > 0,
        !entries.contains_key(key),
        entries.len() >= capacity,
    ensures
        order.len() > 0,
        insert_result(entries, order, key, collider, capacity).0 == entries.remove(order[0]).insert(key, collider),
        insert_result(entries, order, key, collider, capacity).1 == order.drop_first().push(key),
{
    lemma_lru_len(entries, order);
    lemma_touched(order, key);
    assert(!order.contains(key));
    lemma_without_absent(order, key);
    let used = touched(order, key);
    assert(used == order.push(key));
    assert(used[0] == order[0]);
    assert(order.contains(order[0]));
    assert(order[0] != key);
    let stored = entries.insert(key, collider);
    assert(stored.len() == entries.len() + 1);
    assert(stored.remove(used[0]) =~= entries.remove(order[0]).insert(key, collider));
    assert(used.drop_first() =~= order.drop_first().push(key));
}

/// Inserting under a key that is already cached replaces its collider in
/// place: no entry is added or dropped.
pub proof fn lemma_insert_existing_key_replaces<C>(entries: Map<u64, C>, order: Seq<u64>, key: u64, collider: C, capacity: usize)
    requires
        lru_wf(entries, order),
        capacity > 0,
        entries.contains_key(key),
    ensures
        insert_result(entries, order, key, collider, capacity).0 == entries.insert(key, collider),
        insert_result(entries, order, key, collider, capacity).0.len() == entries.len(),
        insert_result(entries, order, key, collider, capacity).1.len() == order.len(),
{
    lemma_lru_len(entries, order);
    lemma_touched(order, key);
    assert(entries.insert(key, collider).dom() =~= entries.dom());
}

/// Linear index of voxel `(x, y, z)` in a dense X/Y/Z chunk array of extents
/// `sx` x `sy` x ...
pub open spec fn chunk_index(sx: int, sy: int, x: int, y: int, z: int) -> int {
    x + sx * y + sx * sy * z
}

/// The collider coordinate of voxel `(x, y, z)`.
pub open spec fn voxel_coord(x: int, y: int, z: int) -> (i32, i32, i32) {
    (x as i32, y as i32, z as i32)
}

/// Each voxel contributes its coordinate.
pub open spec fn coord_cell() -> spec_fn(int, int, int) -> Seq<(i32, i32, i32)> {
    |x: int, y: int, z: int| seq![voxel_coord(x, y, z)]
}

/// Each solid voxel contributes its coordinate; other voxels contribute
/// nothing.
pub open spec fn solid_cell(voxels: Seq<WorldVoxel>, sx: int, sy: int) -> spec_fn(int, int, int) -> Seq<(i32, i32, i32)> {
    |x: int, y: int, z: int|
        if voxels[chunk_index(sx, sy, x, y, z)] is Solid { seq![voxel_coord(x, y, z)] } else { Seq::empty() }
}

/// The coordinates of every solid inner voxel (the one-voxel border of the
/// chunk array left out), X fastest, then Y, then Z.
pub open spec fn solid_inner_coords(voxels: Seq<WorldVoxel>, sx: int, sy: int, sz: int) -> Seq<(i32, i32, i32)> {
    grid(solid_cell(voxels, sx, sy), 1, sx - 1, 1, sy - 1, 1, sz - 1)
}

/// The coordinates of every inner voxel, in the same order.
pub open spec fn inner_coords(sx: int, sy: int, sz: int) -> Seq<(i32, i32, i32)> {
    grid(coord_cell(), 1, sx - 1, 1, sy - 1, 1, sz - 1)
}

/// The extents have an inner part whose size fits in `u32`.
pub open spec fn inner_volume_fits(sx: u32, sy: u32, sz: u32) -> bool {
    &&& 2 <= sx
    &&& 2 <= sy
    &&& 2 <= sz
    &&& (sx - 2) * (sy - 2) <= u32::MAX
    &&& (sx - 2) * (sy - 2) * (sz - 2) <= u32::MAX
}

/// Linear index of the last inner voxel.
pub open spec fn last_inner_index(sx: u32, sy: u32, sz: u32) -> int {
    chunk_index(sx as int, sy as int, sx - 2, sy - 2, sz - 2)
}

/// Every inner voxel lies in an array of `len` voxels and its index fits in
/// `u32`; the extents and their X/Y layer size fit in `u32` as well.
pub open spec fn inner_voxels_readable(sx: u32, sy: u32, sz: u32, len: int) -> bool {
    &&& inner_volume_fits(sx, sy, sz)
    &&& sx * sy <= u32::MAX
    &&& (sx == 2 || sy == 2 || sz == 2) || (last_inner_index(sx, sy, sz) <= u32::MAX
        && last_inner_index(sx, sy, sz) < len)
}

proof fn lemma_inner_index_bounds(sx: int, sy: int, sz: int, x: int, y: int, z: int)
    requires
        1 <= x <= sx - 2,
        1 <= y <= sy - 2,
        1 <= z <= sz - 2,
    ensures
        0 <= sx * y <= sx * (sy - 2),
        0 <= sx * sy * z <= sx * sy * (sz - 2),
        chunk_index(sx, sy, x, y, z) <= chunk_index(sx, sy, sx - 2, sy - 2, sz - 2),
{
    assert(0 <= sx * y <= sx * (sy - 2)) by (nonlinear_arith)
        requires 1 <= y <= sy - 2, sx >= 3;
    assert(0 <= sx * sy * z <= sx * sy * (sz - 2)) by (nonlinear_arith)
        requires 1 <= z <= sz - 2, sx >= 3, sy >= 3;
}

/// Coordinates of the solid voxels inside the one-voxel border of a chunk
/// array with extents `sx` x `sy` x `sz`, X fastest, then Y, then Z.
pub fn collect_solid_voxel_coordinates(voxels: &[WorldVoxel], sx: u32, sy: u32, sz: u32) -> (coords: Vec<(i32, i32, i32)>)
    requires
        inner_voxels_readable(sx, sy, sz, voxels@.len() as int),
    ensures
        coords@ == solid_inner_coords(voxels@, sx as int, sy as int, sz as int),
{
    let inner_volume = ((sx - 2) * (sy - 2) * (sz - 2)) as usize;
    let capacity = if inner_volume < voxels.len() { inner_volume } else { voxels.len() };
    let mut coords: Vec<(i32, i32, i32)> = Vec::with_capacity(capacity);
    let yz_stride = sx * sy;
    let ghost cell = solid_cell(voxels@, sx as int, sy as int);

    let mut z: u32 = 1;
    while z < sz - 1
        invariant
            inner_voxels_readable(sx, sy, sz, voxels@.len() as int),
            yz_stride == sx * sy,
            cell == solid_cell(voxels@, sx as int, sy as int),
            1 <= z <= sz - 1,
            coords@ == grid(cell, 1, sx - 1, 1, sy - 1, 1, z as int),
        decreases sz - 1 - z,
    {
        let mut y: u32 = 1;
        while y < sy - 1
            invariant
                inner_voxels_readable(sx, sy, sz, voxels@.len() as int),
                yz_stride == sx * sy,
                cell == solid_cell(voxels@, sx as int, sy as int),
                1 <= z < sz - 1,
                1 <= y <= sy - 1,
                coords@ == grid(cell, 1, sx - 1, 1, sy - 1, 1, z as int) + grid_layer(cell, z as int, 1, sx - 1, 1, y as int),
            decreases sy - 1 - y,
        {
            let mut x: u32 = 1;
            while x < sx - 1
                invariant
                    inner_voxels_readable(sx, sy, sz, voxels@.len() as int),
                    yz_stride == sx * sy,
                    cell == solid_cell(voxels@, sx as int, sy as int),
                    1 <= z < sz - 1,
                    1 <= y < sy - 1,
                    1 <= x <= sx - 1,
                    coords@ == grid(cell, 1, sx - 1, 1, sy - 1, 1, z as int)
                        + grid_layer(cell, z as int, 1, sx - 1, 1, y as int)
                        + grid_row(cell, y as int, z as int, 1, x as int),
                decreases sx - 1 - x,
            {
                proof {
                    lemma_inner_index_bounds(sx as int, sy as int, sz as int, x as int, y as int, z as int);
                }
                let index = (x + sx * y + yz_stride * z) as usize;
                let ghost before = coords@;
                if matches!(voxels[index], WorldVoxel::Solid(_)) {
                    coords.push((x as i32, y as i32, z as i32));
                }
                proof {
                    let a = grid(cell, 1, sx - 1, 1, sy - 1, 1, z as int);
                    let b = grid_layer(cell, z as int, 1, sx - 1, 1, y as int);
                    let r = grid_row(cell, y as int, z as int, 1, x as int);
                    assert(grid_row(cell, y as int, z as int, 1, x + 1) == r + cell(x as int, y as int, z as int));
                    assert(coords@ =~= a + b + (r + cell(x as int, y as int, z as int)));
                }
                x += 1;
            }
            proof {
                let a = grid(cell, 1, sx - 1, 1, sy - 1, 1, z as int);
                let b = grid_layer(cell, z as int, 1, sx - 1, 1, y as int);
                let r = grid_row(cell, y as int, z as int, 1, sx - 1);
                assert(grid_layer(cell, z as int, 1, sx - 1, 1, y + 1) == b + r);
                assert(coords@ =~= a + (b + r));
            }
            y += 1;
        }
        proof {
            let a = grid(cell, 1, sx - 1, 1, sy - 1, 1, z as int);
            let b = grid_layer(cell, z as int, 1, sx - 1, 1, sy - 1);
            assert(grid(cell, 1, sx - 1, 1, sy - 1, 1, z + 1) == a + b);
        }
        z += 1;
    }

    coords
}

/// Coordinates of every voxel inside the one-voxel border of a chunk with
/// extents `sx` x `sy` x `sz`, X fastest, then Y, then Z.
pub fn full_chunk_coordinates(sx: u32, sy: u32, sz: u32) -> (coords: Vec<(i32, i32, i32)>)
    requires
        inner_volume_fits(sx, sy, sz),
    ensures
        coords@ == inner_coords(sx as int, sy as int, sz as int),
{
    let inner_volume = ((sx - 2) * (sy - 2) * (sz - 2)) as usize;
    let mut coords: Vec<(i32, i32, i32)> = Vec::with_capacity(inner_volume);
    let ghost cell = coord_cell();

    let mut z: u32 = 1;
    while z < sz - 1
        invariant
            inner_volume_fits(sx, sy, sz),
            cell == coord_cell(),
            1 <= z <= sz - 1,
            coords@ == grid(cell, 1, sx - 1, 1, sy - 1, 1, z as int),
        decreases sz - 1 - z,
    {
        let mut y: u32 = 1;
        while y < sy - 1
            invariant
                inner_volume_fits(sx, sy, sz),
                cell == coord_cell(),
                1 <= z < sz - 1,
                1 <= y <= sy - 1,
                coords@ == grid(cell, 1, sx - 1, 1, sy - 1, 1, z as int) + grid_layer(cell, z as int, 1, sx - 1, 1, y as int),
            decreases sy - 1 - y,
        {
            let mut x: u32 = 1;
            while x < sx - 1
                invariant
                    inner_volume_fits(sx, sy, sz),
                    cell == coord_cell(),
                    1 <= z < sz - 1,
                    1 <= y < sy - 1,
                    1 <= x <= sx - 1,
                    coords@ == grid(cell, 1, sx - 1, 1, sy - 1, 1, z as int)
                        + grid_layer(cell, z as int, 1, sx - 1, 1, y as int)
                        + grid_row(cell, y as int, z as int, 1, x as int),
                decreases sx - 1 - x,
            {
                coords.push((x as i32, y as i32, z as i32));
                proof {
                    let a = grid(cell, 1, sx - 1, 1, sy - 1, 1, z as int);
                    let b = grid_layer(cell, z as int, 1, sx - 1, 1, y as int);
                    let r = grid_row(cell, y as int, z as int, 1, x as int);
                    assert(grid_row(cell, y as int, z as int, 1, x + 1) == r + cell(x as int, y as int, z as int));
                    assert(coords@ =~= a + b + (r + cell(x as int, y as int, z as int)));
                }
                x += 1;
            }
            proof {
                let a = grid(cell, 1, sx - 1, 1, sy - 1, 1, z as int);
                let b = grid_layer(cell, z as int, 1, sx - 1, 1, y as int);
                let r = grid_row(cell, y as int, z as int, 1, sx - 1);
                assert(grid_layer(cell, z as int, 1, sx - 1, 1, y + 1) == b + r);
                assert(coords@ =~= a + (b + r));
            }
            y += 1;
        }
        proof {
            let a = grid(cell, 1, sx - 1, 1, sy - 1, 1, z as int);
            let b = grid_layer(cell, z as int, 1, sx - 1, 1, sy - 1);
            assert(grid(cell, 1, sx - 1, 1, sy - 1, 1, z + 1) == a + b);
        }
        z += 1;
    }

    coords
}

/// A chunk whose voxels are all solid yields, for its collider, exactly the
/// coordinates of a full chunk: the shortcut for full chunks agrees with
/// scanning their voxels.
pub proof fn lemma_full_chunk_matches_solid_scan(voxels: Seq<WorldVoxel>, sx: int, sy: int, sz: int)
    requires
        forall|i: int| 0 <= i < voxels.len() ==> (#[trigger] voxels[i]) is Solid,
        forall|x: int, y: int, z: int| 1 <= x < sx - 1 && 1 <= y < sy - 1 && 1 <= z < sz - 1
            ==> 0 <= #[trigger] chunk_index(sx, sy, x, y, z) < voxels.len(),
    ensures
        solid_inner_coords(voxels, sx, sy, sz) == inner_coords(sx, sy, sz),
{
    let f = solid_cell(voxels, sx, sy);
    let g = coord_cell();
    assert forall|x: int, y: int, z: int| 1 <= x < sx - 1 && 1 <= y < sy - 1 && 1 <= z < sz - 1
        implies #[trigger] f(x, y, z) == g(x, y, z) by {
        assert(0 <= chunk_index(sx, sy, x, y, z) < voxels.len());
    }
    lemma_grid_congruent(f, g, 1, sx - 1, 1, sy - 1, 1, sz - 1);
}

/// A full chunk with extents of at least 2 has one collider coordinate per
/// inner voxel: `(sx - 2) * (sy - 2) * (sz - 2)`.
pub proof fn lemma_full_chunk_coordinate_count(sx: int, sy: int, sz: int)
    requires
        2 <= sx,
        2 <= sy,
        2 <= sz,
    ensures
        inner_coords(sx, sy, sz).len() == (sx - 2) * (sy - 2) * (sz - 2),
{
    lemma_grid_len(coord_cell(), 1, sx - 1, 1, sy - 1, 1, sz - 1);
}

/// What a meshed chunk needs for its collider.
#[derive(Clone, Copy, Debug, PartialEq, Eq, Structural)]
pub enum ColliderAction {
    /// Remove any collider and mark the chunk done: it is drawn at a lower
    /// level of detail, or it holds no voxels.
    Clear,
    /// Leave the chunk for a later frame: its voxel data is not there yet.
    Wait,
    /// Give the chunk a collider built from its voxels.
    Build,
}

/// The collider action for a meshed chunk: only full-detail chunks (level of
/// detail 0) with voxel data that is not empty get a collider.
pub fn collider_action(lod_level: u8, has_data: bool, is_empty: bool) -> (action: ColliderAction)
    ensures
        action == if lod_level != 0 {
            ColliderAction::Clear
        } else if !has_data {
            ColliderAction::Wait
        } else if is_empty {
            ColliderAction::Clear
        } else {
            ColliderAction::Build
        },
{
    if lod_level != 0 {
        return ColliderAction::Clear;
    }
    if !has_data {
        return ColliderAction::Wait;
    }
    if is_empty {
        return ColliderAction::Clear;
    }
    ColliderAction::Build
}

/// The voxels of a chunk, as far as its collider needs them.
pub enum ChunkVoxels {
    /// The chunk's voxel array, in dense X/Y/Z order.
    Voxels(Vec<WorldVoxel>),
    /// The chunk is entirely solid and keeps no voxel array.
    Full,
    /// The chunk keeps no voxel array and is not entirely solid.
    Unavailable,
}

/// The coordinates a chunk collider is built from: none for chunks too small
/// to have inner voxels (an extent under 3) or without voxels to read;
/// otherwise the solid inner voxels, or all inner voxels of a full chunk,
/// unless that list is empty.
pub open spec fn spec_collider_coordinates(voxels: ChunkVoxels, shape: Seq<u32>) -> Option<Seq<(i32, i32, i32)>> {
    if shape[0] < 3 || shape[1] < 3 || shape[2] < 3 {
        None
    } else {
        let coords = match voxels {
            ChunkVoxels::Voxels(v) => solid_inner_coords(v@, shape[0] as int, shape[1] as int, shape[2] as int),
            ChunkVoxels::Full => inner_coords(shape[0] as int, shape[1] as int, shape[2] as int),
            ChunkVoxels::Unavailable => Seq::empty(),
        };
        if coords.len() == 0 { None } else { Some(coords) }
    }
}

/// The chunk's voxels can be scanned: a voxel array covers the inner voxels
/// of `shape`, and the inner volume of a full chunk fits in `u32`.
pub open spec fn collider_voxels_readable(voxels: ChunkVoxels, shape: Seq<u32>) -> bool {
    shape[0] < 3 || shape[1] < 3 || shape[2] < 3 || match voxels {
        ChunkVoxels::Voxels(v) => inner_voxels_readable(shape[0], shape[1], shape[2], v@.len() as int),
        ChunkVoxels::Full => inner_volume_fits(shape[0], shape[1], shape[2]),
        ChunkVoxels::Unavailable => true,
    }
}

fn inner_volume_check(sx: u32, sy: u32, sz: u32) -> (fits: bool)
    ensures
        fits == inner_volume_fits(sx, sy, sz),
{
    if sx < 2 || sy < 2 || sz < 2 {
        return false;
    }
    let (a, b, c) = ((sx - 2) as u64, (sy - 2) as u64, (sz - 2) as u64);
    assert(a * b <= u64::MAX) by (nonlinear_arith) requires a <= u32::MAX, b <= u32::MAX;
    let ab = a * b;
    if ab > u32::MAX as u64 {
        return false;
    }
    assert(ab * c <= u64::MAX) by (nonlinear_arith) requires ab <= u32::MAX, c <= u32::MAX;
    ab * c <= u32::MAX as u64
}

/// Whether `collider_coordinates` can scan these voxels with this shape.
pub fn collider_voxels_fit(voxels: &ChunkVoxels, shape: [u32; 3]) -> (fits: bool)
    ensures
        fits == collider_voxels_readable(*voxels, shape@),
{
    let (sx, sy, sz) = (shape[0], shape[1], shape[2]);
    if sx < 3 || sy < 3 || sz < 3 {
        return true;
    }
    match voxels {
        ChunkVoxels::Voxels(v) => {
            if !inner_volume_check(sx, sy, sz) {
                return false;
            }
            let (a, b) = (sx as u64, sy as u64);
            assert(a * b <= u64::MAX) by (nonlinear_arith) requires a <= u32::MAX, b <= u32::MAX;
            let layer = a * b;
            if layer > u32::MAX as u64 {
                return false;
            }
            let (x, y, z) = ((sx - 2) as u64, (sy - 2) as u64, (sz - 2) as u64);
            assert(a * y <= layer && layer * z <= 0xFFFF_FFFFu64 * 0xFFFF_FFFFu64) by (nonlinear_arith)
                requires layer == a * b, y < b, layer <= u32::MAX, z <= u32::MAX, a >= 0;
            let last = x + a * y + layer * z;
            assert(last == last_inner_index(sx, sy, sz));
            last <= u32::MAX as u64 && last < v.len() as u64
        },
        ChunkVoxels::Full => inner_volume_check(sx, sy, sz),
        ChunkVoxels::Unavailable => true,
    }
}

/// The coordinates a chunk collider is built from, if any.
pub fn collider_coordinates(voxels: &ChunkVoxels, shape: [u32; 3]) -> (coords: Option<Vec<(i32, i32, i32)>>)
    requires
        collider_voxels_readable(*voxels, shape@),
    ensures
        match coords {
            Some(c) => spec_collider_coordinates(*voxels, shape@) == Some(c@),
            None => spec_collider_coordinates(*voxels, shape@) is None,
        },
{
    let (sx, sy, sz) = (shape[0], shape[1], shape[2]);
    if sx < 3 || sy < 3 || sz < 3 {
        return None;
    }

    let coords = match voxels {
        ChunkVoxels::Voxels(v) => collect_solid_voxel_coordinates(v.as_slice(), sx, sy, sz),
        ChunkVoxels::Full => full_chunk_coordinates(sx, sy, sz),
        ChunkVoxels::Unavailable => {
            return None;
        },
    };

    if coords.len() == 0 {
        return None;
    }
    Some(coords)
}

/// Using a key moves only that key: it ends up most recently used, appears
/// nowhere else, and every other key keeps its place relative to the rest.
/// Dropping the key from the new order gives the old order with the key
/// dropped.
pub proof fn lemma_touch_moves_only_the_key(order: Seq<u64>, key: u64)
    ensures
        touched(order, key).len() >= 1,
        touched(order, key).last() == key,
        !touched(order, key).drop_last().contains(key),
        seq_without(touched(order, key), key) == seq_without(order, key),
        touched(order, key).drop_last() == seq_without(order, key),
{
    let t = touched(order, key);
    let w = seq_without(order, key);
    lemma_without_excludes(order, key);
    assert(t.drop_last() =~= w);
    assert(t.last() == key);
    lemma_without_absent(w, key);
    assert(seq_without(t, key) == seq_without(t.drop_last(), key));
}

proof fn lemma_without_excludes(s: Seq<u64>, key: u64)
    ensures
        !seq_without(s, key).contains(key),
        seq_without(s, key).len() <= s.len(),
    decreases s.len(),
{
    if s.len() > 0 {
        lemma_without_excludes(s.drop_last(), key);
        let rest = seq_without(s.drop_last(), key);
        if s.last() != key {
            assert forall|j: int| 0 <= j < rest.push(s.last()).len() implies rest.push(s.last())[j] != key by {
                if j < rest.len() {
                    assert(rest.push(s.last())[j] == rest[j]);
                }
            }
        }
    }
}

/// In a consistent access order, using a key keeps the relative order of
/// every two other keys: if `a` was used before `b`, it still was after.
pub proof fn lemma_touch_keeps_relative_order(order: Seq<u64>, key: u64, i: int, j: int)
    requires
        order.no_duplicates(),
        0 <= i < j < order.len(),
        order[i] != key,
        order[j] != key,
    ensures
        exists|p: int, q: int| 0 <= p < q < touched(order, key).len()
            && touched(order, key)[p] == order[i] && touched(order, key)[q] == order[j],
{
    let t = touched(order, key);
    if order.contains(key) {
        let c = choose|c: int| 0 <= c < order.len() && order[c] == key;
        lemma_without_at(order, key, c);
        let p = if i < c { i } else { i - 1 };
        let q = if j < c { j } else { j - 1 };
        assert(t[p] == order[i]);
        assert(t[q] == order[j]);
    } else {
        lemma_without_absent(order, key);
        assert(t[i] == order[i]);
        assert(t[j] == order[j]);
    }
}

/// A key just used survives the next eviction: after a hit on `used` in a
/// cache holding at least two colliders, inserting a new key into the full
/// cache evicts the key that was least recently used before the hit (or the
/// next one, if that was `used`), never `used` itself.
pub proof fn lemma_hit_protects_from_next_eviction<C>(
    entries: Map<u64, C>,
    order: Seq<u64>,
    used: u64,
    key: u64,
    collider: C,
    capacity: usize,
)
    requires
        lru_wf(entries, order),
        entries.contains_key(used),
        !entries.contains_key(key),
        entries.len() >= 2,
        entries.len() >= capacity,
        capacity > 0,
    ensures
        insert_result(entries, touched(order, used), key, collider, capacity).0.contains_key(used),
        insert_result(entries, touched(order, used), key, collider, capacity).0.contains_key(key),
        order[0] != used ==> !insert_result(entries, touched(order, used), key, collider, capacity).0.contains_key(order[0]),
        order[0] == used ==> !insert_result(entries, touched(order, used), key, collider, capacity).0.contains_key(order[1]),
{
    lemma_lru_len(entries, order);
    lemma_touched(order, used);
    let o2 = touched(order, used);
    assert(lru_wf(entries, o2)) by {
        assert forall|k: u64| #[trigger] entries.contains_key(k) <==> o2.contains(k) by {}
    }
    lemma_insert_evicts_least_recently_used(entries, o2, key, collider, capacity);
    lemma_touch_moves_only_the_key(order, used);
    let w = seq_without(order, used);
    assert(o2.len() == order.len());
    assert(o2[0] == w[0]);
    assert(w.contains(o2[0]));
    assert(o2[0] != used);
    let c = choose|c: int| 0 <= c < order.len() && order[c] == used;
    lemma_without_at(order, used, c);
    if order[0] != used {
        assert(c != 0);
        assert(w[0] == order[0]);
    } else {
        assert(c == 0) by {
            if c != 0 {
                assert(order[c] == order[0]);
            }
        }
        assert(w[0] == order[1]);
    }
}

/// A cache of chunk colliders keyed by the hash of a chunk's voxels, which
/// drops the least recently used collider once it is full.
pub struct ChunkColliderCache<C> {
    colliders: HashMap<u64, C>,
    access_order: VecDeque<u64>,
}

impl<C> ChunkColliderCache<C> {
    /// The cached colliders by key.
    pub closed spec fn entries(&self) -> Map<u64, C> {
        self.colliders@
    }

    /// The cached keys from least to most recently used.
    pub closed spec fn order(&self) -> Seq<u64> {
        self.access_order@
    }

    /// The cache is consistent.
    pub open spec fn wf(&self) -> bool {
        lru_wf(self.entries(), self.order())
    }

    /// Number of cached colliders.
    pub fn len(&self) -> (n: usize)
        ensures
            n == self.entries().len(),
    {
        self.colliders.len()
    }

    /// Number of keys in the access order.
    pub fn access_order_len(&self) -> (n: usize)
        ensures
            n == self.order().len(),
    {
        self.access_order.len()
    }

    /// Moves `key` to the most recently used end of the access order.
    fn touch(&mut self, key: u64)
        requires
            old(self).order().no_duplicates(),
        ensures
            final(self).order() == touched(old(self).order(), key),
            final(self).entries() == old(self).entries(),
    {
        let n = self.access_order.len();
        let mut i: usize = 0;
        let mut found: Option<usize> = None;
        while i < n
            invariant_except_break
                found is None,
            invariant
                n == self.access_order@.len(),
                i <= n,
                forall|j: int| 0 <= j < i ==> self.access_order@[j] != key,
            ensures
                found is None ==> i == n,
                found matches Some(j) ==> j == i && i < n && self.access_order@[i as int] == key,
            decreases n - i,
        {
            if self.access_order[i] == key {
                found = Some(i);
                break;
            }
            i += 1;
        }
        proof {
            if found is None {
                assert(!self.access_order@.contains(key)) by {
                    if self.access_order@.contains(key) {
                        let j = choose|j: int| 0 <= j < self.access_order@.len() && self.access_order@[j] == key;
                        assert(self.access_order@[j] != key);
                    }
                }
                lemma_without_absent(self.access_order@, key);
            } else {
                lemma_without_at(self.access_order@, key, i as int);
            }
        }
        if let Some(index) = found {
            self.access_order.remove(index);
        }
        self.access_order.push_back(key);
    }
    /// Looks up the collider cached under `key`. A hit makes `key` the most
    /// recently used entry and hands out a clone of its collider; a miss
    /// changes nothing.
    pub fn get(&mut self, key: u64) -> (collider: Option<C>)
        where C: Clone,
        requires
            old(self).wf(),
        ensures
            final(self).wf(),
            final(self).entries() == old(self).entries(),
            collider is Some <==> old(self).entries().contains_key(key),
            old(self).entries().contains_key(key) ==> final(self).order() == touched(old(self).order(), key),
            !old(self).entries().contains_key(key) ==> final(self).order() == old(self).order(),
            collider matches Some(c) ==> cloned(old(self).entries()[key], c),
    {
        let collider = match self.colliders.get(&key) {
            Some(c) => Some(c.clone()),
            None => None,
        };
        if collider.is_some() {
            self.touch(key);
            proof {
                lemma_touched(old(self).order(), key);
            }
        }
        collider
    }

    /// Inserts `collider` under `key` with the default capacity.
    pub fn insert(&mut self, key: u64, collider: C)
        requires
            old(self).wf(),
        ensures
            final(self).wf(),
            (final(self).entries(), final(self).order())
                == insert_result(old(self).entries(), old(self).order(), key, collider, CHUNK_COLLIDER_CACHE_MAX_ENTRIES),
    {
        self.insert_with_capacity(key, collider, CHUNK_COLLIDER_CACHE_MAX_ENTRIES);
    }

    /// Inserts `collider` under `key` and makes it the most recently used
    /// entry; when a new key takes the cache past `capacity`, the least
    /// recently used entry is dropped. A capacity of 0 caches nothing.
    pub fn insert_with_capacity(&mut self, key: u64, collider: C, capacity: usize)
        requires
            old(self).wf(),
        ensures
            final(self).wf(),
            (final(self).entries(), final(self).order())
                == insert_result(old(self).entries(), old(self).order(), key, collider, capacity),
    {
        if capacity == 0 {
            return;
        }

        let is_new = !self.colliders.contains_key(&key);
        self.colliders.insert(key, collider);
        self.touch(key);
        proof {
            lemma_touched(old(self).order(), key);
        }

        if is_new && self.colliders.len() > capacity {
            let oldest = self.access_order.pop_front();
            if let Some(oldest) = oldest {
                self.colliders.remove(&oldest);
                proof {
                    let used = touched(old(self).order(), key);
                    assert(self.access_order@ =~= used.drop_first());
                    assert forall|k: u64| #[trigger] self.colliders@.contains_key(k) <==> self.access_order@.contains(k) by {
                        if self.access_order@.contains(k) {
                            let j = choose|j: int| 0 <= j < self.access_order@.len() && self.access_order@[j] == k;
                            assert(used[j + 1] == k);
                            assert(used.contains(k));
                        }
                        if used.contains(k) && k != used[0] {
                            let j = choose|j: int| 0 <= j < used.len() && used[j] == k;
                            assert(j != 0);
                            assert(self.access_order@[j - 1] == k);
                        }
                        if k == used[0] {
                            assert(!self.access_order@.contains(k)) by {
                                if self.access_order@.contains(k) {
                                    let j = choose|j: int| 0 <= j < self.access_order@.len() && self.access_order@[j] == k;
                                    assert(used[j + 1] == used[0]);
                                }
                            }
                        }
                    }
                }
            }
        }
    }
}

impl<C> Default for ChunkColliderCache<C> {
    /// An empty cache.
    fn default() -> (cache: Self)
        ensures
            cache.wf(),
            cache.entries() == Map::<u64, C>::empty(),
            cache.order() == Seq::<u64>::empty(),
    {
        ChunkColliderCache { colliders: HashMap::new(), access_order: VecDeque::new() }
    }

}

} // verus!
