use vstd::prelude::*;
use std::collections::BTreeMap;
use crate::coordinates::Coordinate;
use crate::chunks::{Chunk, WhitelistMap, BlockView};

verus! {

broadcast use {vstd::laws_cmp::group_laws_cmp, vstd::std_specs::btree::group_btree_axioms};

/// A block position used by the path search.
#[derive(Clone, Copy, Debug, Eq, Hash, Ord, PartialEq, PartialOrd, Structural)]
pub struct Pos(pub i32, pub i32, pub i32);

/// The key under which a position is kept in the barrier map.
pub open spec fn pos_key(p: Pos) -> (i32, i32, i32) {
    (p.0, p.1, p.2)
}

/// Whether an integer fits in an `i32`.
pub open spec fn fits_i32(v: int) -> bool {
    i32::MIN <= v <= i32::MAX
}

/// The range `start - radius .. start + radius`.
pub fn range_calculator(start: i32, radius: i32) -> (r: std::ops::Range<i32>)
    requires
        fits_i32(start - radius),
        fits_i32(start + radius),
    ensures
        r.start == start - radius,
        r.end == start + radius,
{
    (start - radius)..(start + radius)
}

/// The six unit steps along an axis, in the order the search tries
/// them.
pub open spec fn neighbour_offsets() -> Seq<(i32, i32, i32)> {
    seq![(-1i32, 0i32, 0i32), (0i32, -1i32, 0i32), (0i32, 0i32, -1i32), (0i32, 0i32, 1i32), (0i32, 1i32, 0i32), (1i32, 0i32, 0i32)]
}

/// The position one step `o` away from `p`.
pub open spec fn step(p: Pos, o: (i32, i32, i32)) -> Pos {
    Pos((p.0 + o.0) as i32, (p.1 + o.1) as i32, (p.2 + o.2) as i32)
}

/// The six positions next to `p`, in the order the search tries them.
pub open spec fn neighbours(p: Pos) -> Seq<Pos> {
    neighbour_offsets().map_values(|o: (i32, i32, i32)| step(p, o))
}

/// The positions next to `p` that are not barriers in `barriers`.
pub open spec fn open_neighbours(p: Pos, barriers: Map<(i32, i32, i32), bool>) -> Seq<Pos> {
    neighbours(p).filter(|q: Pos| !barriers.contains_key(pos_key(q)))
}

/// Whether none of `p`'s neighbours is off the range of `i32`.
pub open spec fn neighbours_fit(p: Pos) -> bool {
    &&& i32::MIN < p.0 < i32::MAX
    &&& i32::MIN < p.1 < i32::MAX
    &&& i32::MIN < p.2 < i32::MAX
}

impl Pos {
    /// The positions a turtle can move to in one step from here (each at
    /// cost 1): the six neighbours along the axes that are not barriers.
    pub fn successors(&self, map: &BTreeMap<(i32, i32, i32), bool>) -> (r: Vec<(Pos, i16)>)
        requires
            neighbours_fit(*self),
        ensures
            r@.len() == open_neighbours(*self, map@).len(),
            forall|i: int| 0 <= i < r@.len() ==> (#[trigger] r@[i]).0 == open_neighbours(*self, map@)[i] && r@[i].1 == 1,
    {
        let offsets: [(i32, i32, i32); 6] = [(-1, 0, 0), (0, -1, 0), (0, 0, -1), (0, 0, 1), (0, 1, 0), (1, 0, 0)];
        assert(offsets@ == neighbour_offsets());
        let ghost pred = |q: Pos| !map@.contains_key(pos_key(q));
        let ghost all = neighbours(*self);
        let mut successors: Vec<(Pos, i16)> = Vec::new();
        let mut i: usize = 0;
        while i < 6
            invariant
                i <= 6,
                offsets@ == neighbour_offsets(),
                neighbours_fit(*self),
                all == neighbours(*self),
                pred == (|q: Pos| !map@.contains_key(pos_key(q))),
                successors@.len() == all.take(i as int).filter(pred).len(),
                forall|j: int| 0 <= j < successors@.len() ==>
                    (#[trigger] successors@[j]).0 == all.take(i as int).filter(pred)[j] && successors@[j].1 == 1,
            decreases 6 - i,
        {
            let o = offsets[i];
            let next = Pos(self.0 + o.0, self.1 + o.1, self.2 + o.2);
            assert(next == all[i as int]);
            assert(all.take(i + 1).drop_last() =~= all.take(i as int));
            assert(all.take(i + 1).last() == next);
            let ghost before = all.take(i as int).filter(pred);
            proof {
                reveal_with_fuel(Seq::<_>::filter, 1);
            }
            assert(all.take(i + 1).filter(pred) == if pred(next) {
                before.push(next)
            } else {
                before
            });
            if !map.contains_key(&(next.0, next.1, next.2)) {
                successors.push((next, 1));
            }
            i = i + 1;
        }
        assert(all.take(6) =~= all);
        successors
    }
}

/// A position is among the open neighbours of `p` exactly when it is
/// next to `p` and not a barrier.
pub proof fn lemma_open_neighbours(p: Pos, barriers: Map<(i32, i32, i32), bool>, q: Pos)
    ensures
        open_neighbours(p, barriers).contains(q) <==> (neighbours(p).contains(q) && !barriers.contains_key(pos_key(q))),
{
    let pred = |x: Pos| !barriers.contains_key(pos_key(x));
    let ns = neighbours(p);
    if ns.contains(q) && pred(q) {
        let i = choose|i: int| 0 <= i < ns.len() && ns[i] == q;
        ns.lemma_filter_contains(pred, i);
    }
    if ns.filter(pred).contains(q) {
        let i = choose|i: int| 0 <= i < ns.filter(pred).len() && ns.filter(pred)[i] == q;
        ns.lemma_filter_pred(pred, i);
        ns.lemma_filter_contains_rev(pred, q);
    }
}

/// The world position of the block at index `(i, j, k)` of the chunk
/// at chunk coordinate `c`.
pub open spec fn block_key(c: Coordinate, i: int, j: int, k: int) -> (i32, i32, i32) {
    (
        ((i as i32) as int + c.x * 16) as i32,
        ((j as i32) as int + c.y * 16) as i32,
        ((k as i32) as int + c.z * 16) as i32,
    )
}

/// A barrier's key lies in the chunk the block was stored in, at the
/// block's position inside that chunk: for indices in `0..16`, the
/// chunk coordinate of the key is the chunk's coordinate and its local
/// coordinate is `(i, j, k)`.
pub proof fn lemma_block_key_in_its_chunk(c: Coordinate, i: int, j: int, k: int)
    requires
        0 <= i < 16,
        0 <= j < 16,
        0 <= k < 16,
        fits_i32(c.x * 16 + i),
        fits_i32(c.y * 16 + j),
        fits_i32(c.z * 16 + k),
    ensures
        ({
            let key = block_key(c, i, j, k);
            let w = Coordinate { x: key.0, y: key.1, z: key.2 };
            &&& w.world_to_chunk_coords_spec() == c
            &&& w.world_to_local_coords_spec() == Coordinate { x: i as i32, y: j as i32, z: k as i32 }
        }),
{
    lemma_split_16(c.x as int, i);
    lemma_split_16(c.y as int, j);
    lemma_split_16(c.z as int, k);
}

proof fn lemma_split_16(c: int, i: int)
    requires
        0 <= i < 16,
    ensures
        (c * 16 + i) / 16 == c,
        (c * 16 + i) % 16 == i,
{
}

/// Whether `(i, j, k)` indexes a block of the grid.
pub open spec fn in_grid(g: Seq<Seq<Seq<BlockView>>>, i: int, j: int, k: int) -> bool {
    0 <= i < g.len() && 0 <= j < g[i].len() && 0 <= k < g[i][j].len()
}

/// Whether the block at `(i, j, k)` of the chunk is a barrier: a block
/// whose name the whitelist does not hold.
pub open spec fn is_barrier_block(chunk: Chunk, wl: WhitelistMap, i: int, j: int, k: int) -> bool {
    in_grid(chunk.grid(), i, j, k) && !wl.allows(chunk.grid()[i][j][k].name)
}

/// Whether index `(i, j, k)` comes before `(r, c, b)` in the order the
/// chunk is scanned.
pub open spec fn scanned_before(i: int, j: int, k: int, r: int, c: int, b: int) -> bool {
    i < r || (i == r && (j < c || (j == c && k < b)))
}

/// World positions of the chunk's barrier blocks scanned before `(r, c, b)`.
pub open spec fn barriers_before(chunk: Chunk, wl: WhitelistMap, r: int, c: int, b: int) -> Set<(i32, i32, i32)> {
    Set::new(
        |p: (i32, i32, i32)|
            exists|i: int, j: int, k: int|
                #![trigger block_key(chunk.coordinates, i, j, k)]
                is_barrier_block(chunk, wl, i, j, k) && scanned_before(i, j, k, r, c, b) && block_key(chunk.coordinates, i, j, k) == p,
    )
}

/// World positions of all the chunk's barrier blocks.
pub open spec fn chunk_barriers(chunk: Chunk, wl: WhitelistMap) -> Set<(i32, i32, i32)> {
    barriers_before(chunk, wl, chunk.grid().len() as int, 0, 0)
}

/// The map `m` with every position of `s` added as a barrier.
pub open spec fn with_barriers(m: Map<(i32, i32, i32), bool>, s: Set<(i32, i32, i32)>) -> Map<(i32, i32, i32), bool> {
    m.union_prefer_right(Map::new(|p: (i32, i32, i32)| s.contains(p), |p: (i32, i32, i32)| false))
}

/// Whether the world position of every barrier block of the chunk, and
/// the chunk's own corner, can be computed in `i32`.
pub open spec fn barrier_positions_fit(chunk: Chunk, wl: WhitelistMap) -> bool {
    forall|i: int, j: int, k: int|
        #![trigger chunk.grid()[i][j][k]]
        is_barrier_block(chunk, wl, i, j, k) ==> {
            &&& fits_i32(chunk.coordinates.x * 16)
            &&& fits_i32(chunk.coordinates.y * 16)
            &&& fits_i32(chunk.coordinates.z * 16)
            &&& fits_i32((i as i32) as int + chunk.coordinates.x * 16)
            &&& fits_i32((j as i32) as int + chunk.coordinates.y * 16)
            &&& fits_i32((k as i32) as int + chunk.coordinates.z * 16)
        }
}

/// Adds the chunk's barriers to the map: the world position of every
/// block whose name is not on the whitelist.
pub fn add_chunk_to_map(chunk: &Chunk, map: &mut BTreeMap<(i32, i32, i32), bool>, whitelist: &WhitelistMap)
    requires
        barrier_positions_fit(*chunk, *whitelist),
    ensures
        final(map)@ == with_barriers(old(map)@, chunk_barriers(*chunk, *whitelist)),
{
    let ghost m0 = old(map)@;
    let ghost g = chunk.grid();
    let ghost cc = chunk.coordinates;
    let mut r: usize = 0;
    proof {
        assert(barriers_before(*chunk, *whitelist, 0, 0, 0) =~= Set::empty());
        assert(map@ =~= with_barriers(m0, Set::empty()));
    }
    while r < chunk.block_data.len()
        invariant
            r <= chunk.block_data.len(),
            g == chunk.grid(),
            cc == chunk.coordinates,
            barrier_positions_fit(*chunk, *whitelist),
            map@ == with_barriers(m0, barriers_before(*chunk, *whitelist, r as int, 0, 0)),
        decreases chunk.block_data.len() - r,
    {
        let plane = &chunk.block_data[r];
        assert(plane@.len() == g[r as int].len());
        let mut c: usize = 0;
        while c < plane.len()
            invariant
                r < chunk.block_data.len(),
                c <= plane.len(),
                *plane == chunk.block_data@[r as int],
                plane@.len() == g[r as int].len(),
                g == chunk.grid(),
                cc == chunk.coordinates,
                barrier_positions_fit(*chunk, *whitelist),
                map@ == with_barriers(m0, barriers_before(*chunk, *whitelist, r as int, c as int, 0)),
            decreases plane.len() - c,
        {
            let row = &plane[c];
            assert(row@.len() == g[r as int][c as int].len());
            let mut b: usize = 0;
            while b < row.len()
                invariant
                    r < chunk.block_data.len(),
                    c < plane.len(),
                    b <= row.len(),
                    *plane == chunk.block_data@[r as int],
                    *row == plane@[c as int],
                    row@.len() == g[r as int][c as int].len(),
                    g == chunk.grid(),
                    cc == chunk.coordinates,
                    barrier_positions_fit(*chunk, *whitelist),
                    map@ == with_barriers(m0, barriers_before(*chunk, *whitelist, r as int, c as int, b as int)),
                decreases row.len() - b,
            {
                let ghost before = barriers_before(*chunk, *whitelist, r as int, c as int, b as int);
                let ghost after = barriers_before(*chunk, *whitelist, r as int, c as int, b + 1);
                assert(row@[b as int]@ == g[r as int][c as int][b as int]);
                if !whitelist.contains(row[b].name()) {
                    assert(is_barrier_block(*chunk, *whitelist, r as int, c as int, b as int));
                    assert(chunk.grid()[r as int][c as int][b as int] == g[r as int][c as int][b as int]);
                    let key = (r as i32 + chunk.coordinates.x * 16, c as i32 + chunk.coordinates.y * 16, b as i32 + chunk.coordinates.z * 16);
                    assert(key == block_key(cc, r as int, c as int, b as int));
                    map.insert(key, false);
                    assert(after =~= before.insert(key));
                    assert(map@ =~= with_barriers(m0, after));
                } else {
                    assert(!is_barrier_block(*chunk, *whitelist, r as int, c as int, b as int));
                    assert(after =~= before);
                }
                b = b + 1;
            }
            assert(barriers_before(*chunk, *whitelist, r as int, c as int, row.len() as int)
                =~= barriers_before(*chunk, *whitelist, r as int, c + 1, 0));
            c = c + 1;
        }
        assert(barriers_before(*chunk, *whitelist, r as int, plane.len() as int, 0)
            =~= barriers_before(*chunk, *whitelist, r + 1, 0, 0));
        r = r + 1;
    }
}

/// A barrier that adding a full-size chunk puts into the map, at a
/// position the map did not hold before, lies inside that chunk: its
/// chunk coordinate is the chunk's, and the block at its local
/// coordinate is one the whitelist does not allow.
pub proof fn lemma_added_barrier_lies_in_its_chunk(
    chunk: Chunk,
    whitelist: WhitelistMap,
    before: Map<(i32, i32, i32), bool>,
    p: (i32, i32, i32),
)
    requires
        chunk.is_full_size(),
        barrier_positions_fit(chunk, whitelist),
        !before.contains_key(p),
        with_barriers(before, chunk_barriers(chunk, whitelist)).contains_key(p),
    ensures
        ({
            let w = Coordinate { x: p.0, y: p.1, z: p.2 };
            let l = w.world_to_local_coords_spec();
            &&& w.world_to_chunk_coords_spec() == chunk.coordinates
            &&& 0 <= l.x < 16 && 0 <= l.y < 16 && 0 <= l.z < 16
            &&& !whitelist.allows(chunk.grid()[l.x as int][l.y as int][l.z as int].name)
        }),
{
    let g = chunk.grid();
    assert(chunk_barriers(chunk, whitelist).contains(p));
    let (i, j, k) = choose|i: int, j: int, k: int|
        #![trigger block_key(chunk.coordinates, i, j, k)]
        is_barrier_block(chunk, whitelist, i, j, k) && scanned_before(i, j, k, g.len() as int, 0, 0)
            && block_key(chunk.coordinates, i, j, k) == p;
    assert(0 <= i < 16);
    assert(g[i].len() == 16);
    assert(g[i][j].len() == 16);
    assert(0 <= j < 16 && 0 <= k < 16);
    let b = g[i][j][k];
    assert(is_barrier_block(chunk, whitelist, i, j, k));
    assert(chunk.grid()[i][j][k] == b);
    assert((i as i32) as int == i && (j as i32) as int == j && (k as i32) as int == k);
    lemma_block_key_in_its_chunk(chunk.coordinates, i, j, k);
}

/// How many chunks around the start chunk, along each axis and in each
/// direction, the search loads.
pub const SEARCH_RADIUS: i32 = 5;

/// The chunk coordinate of the `i`-th chunk (`0 <= i < 1000`) that a
/// search from `start_chunk` loads: x varies slowest, z fastest, each
/// from 5 below to 4 above the start chunk's coordinate.
pub open spec fn search_chunk(start_chunk: Coordinate, i: int) -> Coordinate {
    Coordinate {
        x: (start_chunk.x - 5 + i / 100) as i32,
        y: (start_chunk.y - 5 + (i / 10) % 10) as i32,
        z: (start_chunk.z - 5 + i % 10) as i32,
    }
}

proof fn lemma_index_digits(a: int, b: int, c: int)
    requires
        0 <= a,
        0 <= b < 10,
        0 <= c < 10,
    ensures
        (a * 100 + b * 10 + c) / 100 == a,
        ((a * 100 + b * 10 + c) / 10) % 10 == b,
        (a * 100 + b * 10 + c) % 10 == c,
{
    let n = a * 100 + b * 10 + c;
    assert(n / 10 == a * 10 + b) by (nonlinear_arith)
        requires
            n == a * 100 + b * 10 + c,
            0 <= c < 10,
    ;
    assert((a * 10 + b) % 10 == b) by (nonlinear_arith)
        requires
            0 <= b < 10,
            0 <= a,
    ;
    assert(n / 100 == a) by (nonlinear_arith)
        requires
            n == a * 100 + b * 10 + c,
            0 <= b < 10,
            0 <= c < 10,
    ;
    assert(n % 10 == c) by (nonlinear_arith)
        requires
            n == a * 100 + b * 10 + c,
            0 <= c < 10,
    ;
}

/// The chunks a search from world position `start` loads, in the order
/// it loads them: the 10 by 10 by 10 chunks around the chunk of `start`.
pub fn pathfind_chunk_coordinates(start: &Coordinate) -> (r: Vec<Coordinate>)
    ensures
        r@.len() == 1000,
        forall|i: int| 0 <= i < 1000 ==> #[trigger] r@[i] == search_chunk(start.world_to_chunk_coords_spec(), i),
{
    let start_chunk = start.world_to_chunk_coords();
    assert(start_chunk == start.world_to_chunk_coords_spec());
    let mut r: Vec<Coordinate> = Vec::new();
    let xs = range_calculator(start_chunk.x, SEARCH_RADIUS);
    let mut x: i32 = xs.start;
    while x < xs.end
        invariant
            xs.start == start_chunk.x - 5,
            xs.end == start_chunk.x + 5,
            xs.start <= x <= xs.end,
            fits_i32(start_chunk.y - 5) && fits_i32(start_chunk.y + 5),
            fits_i32(start_chunk.z - 5) && fits_i32(start_chunk.z + 5),
            r@.len() == (x - xs.start) * 100,
            forall|i: int| 0 <= i < r@.len() ==> #[trigger] r@[i] == search_chunk(start_chunk, i),
        decreases xs.end - x,
    {
        let ys = range_calculator(start_chunk.y, SEARCH_RADIUS);
        let mut y: i32 = ys.start;
        while y < ys.end
            invariant
                xs.start == start_chunk.x - 5,
                xs.start <= x < xs.end,
                xs.end == start_chunk.x + 5,
                ys.start == start_chunk.y - 5,
                ys.end == start_chunk.y + 5,
                ys.start <= y <= ys.end,
                fits_i32(start_chunk.z - 5) && fits_i32(start_chunk.z + 5),
                r@.len() == (x - xs.start) * 100 + (y - ys.start) * 10,
                forall|i: int| 0 <= i < r@.len() ==> #[trigger] r@[i] == search_chunk(start_chunk, i),
            decreases ys.end - y,
        {
            let zs = range_calculator(start_chunk.z, SEARCH_RADIUS);
            let mut z: i32 = zs.start;
            while z < zs.end
                invariant
                    xs.start == start_chunk.x - 5,
                    xs.start <= x < xs.end,
                    ys.start == start_chunk.y - 5,
                    ys.start <= y < ys.end,
                    ys.end == start_chunk.y + 5,
                    zs.start == start_chunk.z - 5,
                    zs.end == start_chunk.z + 5,
                    zs.start <= z <= zs.end,
                    r@.len() == (x - xs.start) * 100 + (y - ys.start) * 10 + (z - zs.start),
                    forall|i: int| 0 <= i < r@.len() ==> #[trigger] r@[i] == search_chunk(start_chunk, i),
                decreases zs.end - z,
            {
                let ghost n = r@.len() as int;
                proof {
                    lemma_index_digits(x - xs.start, y - ys.start, z - zs.start);
                }
                r.push(Coordinate::new(x, y, z));
                assert(n / 100 == x - xs.start);
                assert((n / 10) % 10 == y - ys.start);
                assert(n % 10 == z - zs.start);
                assert(r@[n] == search_chunk(start_chunk, n));
                z = z + 1;
            }
            y = y + 1;
        }
        x = x + 1;
    }
    r
}

/// The barriers of all the given chunks, added chunk by chunk to `m`.
pub open spec fn all_barriers(m: Map<(i32, i32, i32), bool>, chunks: Seq<Chunk>, wl: WhitelistMap) -> Map<(i32, i32, i32), bool>
    decreases chunks.len(),
{
    if chunks.len() == 0 {
        m
    } else {
        with_barriers(all_barriers(m, chunks.drop_last(), wl), chunk_barriers(chunks.last(), wl))
    }
}

/// The barrier map of the searched region: every block of the loaded
/// chunks whose name is not on the whitelist.
pub fn build_barrier_map(chunks: &Vec<Chunk>, whitelist: &WhitelistMap) -> (map: BTreeMap<(i32, i32, i32), bool>)
    requires
        forall|i: int| 0 <= i < chunks@.len() ==> barrier_positions_fit(#[trigger] chunks@[i], *whitelist),
    ensures
        map@ == all_barriers(Map::empty(), chunks@, *whitelist),
{
    let mut map: BTreeMap<(i32, i32, i32), bool> = BTreeMap::new();
    let mut i: usize = 0;
    while i < chunks.len()
        invariant
            i <= chunks.len(),
            forall|j: int| 0 <= j < chunks@.len() ==> barrier_positions_fit(#[trigger] chunks@[j], *whitelist),
            map@ == all_barriers(Map::empty(), chunks@.take(i as int), *whitelist),
        decreases chunks.len() - i,
    {
        assert(chunks@.take(i + 1).drop_last() =~= chunks@.take(i as int));
        add_chunk_to_map(&chunks[i], &mut map, whitelist);
        i = i + 1;
    }
    assert(chunks@.take(chunks.len() as int) =~= chunks@);
    map
}

/// `|a - b|` as an unsigned number (`i32::abs_diff`).
pub fn abs_diff(a: i32, b: i32) -> (d: u32)
    ensures
        d as int == if a >= b { a - b } else { b - a },
{
    if a >= b {
        (a as i64 - b as i64) as u32
    } else {
        (b as i64 - a as i64) as u32
    }
}

/// Distance between two positions counted in steps along the axes.
pub open spec fn manhattan(a: Pos, b: Pos) -> int {
    (if a.0 >= b.0 { a.0 - b.0 } else { b.0 - a.0 })
        + (if a.1 >= b.1 { a.1 - b.1 } else { b.1 - a.1 })
        + (if a.2 >= b.2 { a.2 - b.2 } else { b.2 - a.2 })
}

/// The distance the search cap counts is a distance: the same from
/// either end, never negative, zero only from a position to itself, at
/// least the gap along any one axis (whichever way that gap points), and
/// never more than going round by a third position.
pub proof fn lemma_manhattan_is_a_distance(a: Pos, b: Pos, c: Pos)
    ensures
        manhattan(a, b) == manhattan(b, a),
        manhattan(a, b) >= 0,
        manhattan(a, b) == 0 <==> a == b,
        manhattan(a, b) >= a.0 - b.0 && manhattan(a, b) >= b.0 - a.0,
        manhattan(a, b) >= a.1 - b.1 && manhattan(a, b) >= b.1 - a.1,
        manhattan(a, b) >= a.2 - b.2 && manhattan(a, b) >= b.2 - a.2,
        manhattan(a, c) <= manhattan(a, b) + manhattan(b, c),
{
}

/// A position that lies `d` blocks from another along a single axis, in
/// either direction, is `d` steps from it: the search stops 200 blocks
/// from its start in every direction alike.
pub proof fn lemma_manhattan_along_one_axis(a: Pos, b: Pos, d: int)
    requires
        d >= 0,
        ({
            ||| b.1 == a.1 && b.2 == a.2 && (b.0 == a.0 + d || b.0 == a.0 - d)
            ||| b.0 == a.0 && b.2 == a.2 && (b.1 == a.1 + d || b.1 == a.1 - d)
            ||| b.0 == a.0 && b.1 == a.1 && (b.2 == a.2 + d || b.2 == a.2 - d)
        }),
    ensures
        manhattan(a, b) == d,
{
}

/// How far (in steps along the axes) one search may take a turtle from
/// its start before it stops.
pub const MAX_SEARCH_DISTANCE: u32 = 200;

/// Whether the search may stop at `check_pos`: it is the goal, or it is
/// at least 200 steps (along the axes) away from the start.
pub fn smart_goal(goal: &Pos, check_pos: &Pos, start_pos: &Pos) -> (r: bool)
    requires
        *goal != *check_pos ==> manhattan(*start_pos, *check_pos) <= u32::MAX,
    ensures
        r == (*goal == *check_pos || manhattan(*start_pos, *check_pos) >= MAX_SEARCH_DISTANCE),
{
    if *goal == *check_pos {
        true
    } else {
        abs_diff(start_pos.0, check_pos.0) + abs_diff(start_pos.1, check_pos.1) + abs_diff(start_pos.2, check_pos.2)
            >= MAX_SEARCH_DISTANCE
    }
}

} // verus!
