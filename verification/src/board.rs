use vstd::arithmetic::div_mod::{lemma_fundamental_div_mod_converse, lemma_mod_bound};
use vstd::prelude::*;
use vstd::set_lib::{lemma_int_range, lemma_len_subset, set_int_range};

verus! {

/// A tile coordinate.
#[derive(Clone, Copy, Debug, PartialEq, Eq, Hash, Structural)]
pub struct IVec2 {
    pub x: i32,
    pub y: i32,
}

impl IVec2 {
    /// The coordinate (x, y).
    pub fn new(x: i32, y: i32) -> (p: IVec2)
        ensures
            p == (IVec2 { x, y }),
    {
        IVec2 { x, y }
    }
}

/// The coordinate (x, y).
pub fn ivec2(x: i32, y: i32) -> (p: IVec2)
    ensures
        p == (IVec2 { x, y }),
{
    IVec2 { x, y }
}

/// A handle to something that lives in the world. Handles are given out in
/// creation order and never reused.
#[derive(Clone, Copy, Debug, PartialEq, Eq, Hash, Structural)]
pub struct Entity {
    pub index: usize,
}

/// The largest number of tiles a board may have. It keeps every path cost, and
/// every distance estimate added to one, within `u32`.
pub const MAX_TILES: usize = 0x4000_0000;

/// The occupancy grid: which entity, if any, stands on each tile.
#[derive(Debug)]
pub struct GameBoard {
    /// Width and height in tiles.
    pub size: [usize; 2],
    /// World coordinate of the tile (0, 0).
    pub position: IVec2,
    /// The occupant of each tile, row by row.
    pub board: Vec<Option<Entity>>,
    pub has_blobby: Vec<bool>,
    pub start: IVec2,
    pub dest: IVec2,
}

/// A coordinate pushed to the nearest value in `[0, n)`.
pub open spec fn clamp_axis(v: int, n: int) -> int {
    if v < 0 {
        0
    } else if v >= n {
        n - 1
    } else {
        v
    }
}

/// A board as a value.
#[verifier::ext_equal]
pub struct Grid {
    /// Width in tiles.
    pub cols: int,
    /// Height in tiles.
    pub rows: int,
    /// World coordinate of the tile (0, 0).
    pub origin: IVec2,
    /// The occupant of each tile, row by row.
    pub tiles: Seq<Option<Entity>>,
    /// For each tile, row by row, whether a unit was marked on it.
    pub marks: Seq<bool>,
    pub start: IVec2,
    pub dest: IVec2,
}

impl View for GameBoard {
    type V = Grid;

    open spec fn view(&self) -> Grid {
        Grid {
            cols: self.size[0] as int,
            rows: self.size[1] as int,
            origin: self.position,
            tiles: self.board@,
            marks: self.has_blobby@,
            start: self.start,
            dest: self.dest,
        }
    }
}

impl Grid {
    /// A board of the given size on which nothing stands.
    pub open spec fn empty(cols: int, rows: int, origin: IVec2, start: IVec2, dest: IVec2) -> Grid {
        Grid {
            cols,
            rows,
            origin,
            tiles: Seq::new((cols * rows) as nat, |i: int| None::<Entity>),
            marks: Seq::new((cols * rows) as nat, |i: int| false),
            start,
            dest,
        }
    }

    /// The board of a new game: 24 tiles by 24, with its corner at (-12, -12).
    pub open spec fn fresh() -> Grid {
        Grid::empty(
            24,
            24,
            IVec2 { x: -12i32, y: -12i32 },
            IVec2 { x: 0, y: 0 },
            IVec2 { x: 22, y: 22 },
        )
    }

    /// Width in tiles.
    pub open spec fn width(&self) -> int {
        self.cols
    }

    /// Height in tiles.
    pub open spec fn height(&self) -> int {
        self.rows
    }

    /// The board has at least one tile, no more than `MAX_TILES`, and one slot per tile.
    pub open spec fn wf(&self) -> bool {
        &&& 1 <= self.width()
        &&& 1 <= self.height()
        &&& self.width() * self.height() <= MAX_TILES
        &&& self.tiles.len() == self.width() * self.height()
        &&& self.marks.len() == self.width() * self.height()
    }

    /// Whether a coordinate names a tile of the board.
    pub open spec fn in_bounds(&self, ls: IVec2) -> bool {
        0 <= ls.x < self.width() && 0 <= ls.y < self.height()
    }

    /// The nearest tile of the board.
    pub open spec fn clamped(&self, ls: IVec2) -> IVec2 {
        IVec2 {
            x: clamp_axis(ls.x as int, self.width()) as i32,
            y: clamp_axis(ls.y as int, self.height()) as i32,
        }
    }

    /// Row-major index of the nearest tile of the board.
    pub open spec fn spec_ls_to_idx(&self, ls: IVec2) -> int {
        clamp_axis(ls.x as int, self.width()) + clamp_axis(ls.y as int, self.height())
            * self.width()
    }

    /// The tile with a given row-major index.
    pub open spec fn spec_idx_to_ls(&self, idx: int) -> IVec2 {
        IVec2 {
            x: (idx % self.width()) as i32,
            y: ((idx / self.width()) % self.height()) as i32,
        }
    }

    /// The world coordinate of a tile coordinate; the sum wraps around like `i32`.
    pub open spec fn spec_ls_to_ws(&self, ls: IVec2) -> IVec2 {
        IVec2 {
            x: wrap_i32(ls.x + self.origin.x),
            y: wrap_i32(ls.y + self.origin.y),
        }
    }

    /// The tile coordinate of a world coordinate; the difference wraps around like `i32`.
    pub open spec fn spec_ws_to_ls(&self, ws: IVec2) -> IVec2 {
        IVec2 {
            x: wrap_i32(ws.x - self.origin.x),
            y: wrap_i32(ws.y - self.origin.y),
        }
    }

    /// Neither side of a well-formed board is longer than `MAX_TILES`.
    pub proof fn lemma_sides(&self)
        requires
            self.wf(),
        ensures
            self.width() <= MAX_TILES,
            self.height() <= MAX_TILES,
    {
        let w = self.width();
        let h = self.height();
        assert(w <= w * h && h <= w * h) by (nonlinear_arith)
            requires
                1 <= w,
                1 <= h,
        ;
    }
    /// For each tile, row by row, whether something stands on it.
    pub open spec fn occupancy(&self) -> Seq<bool> {
        Seq::new(self.tiles.len(), |i: int| self.tiles[i] is Some)
    }

    /// The coordinate names a tile of the board on which nothing stands.
    pub open spec fn vacant(&self, x: int, y: int) -> bool {
        &&& 0 <= x < self.width()
        &&& 0 <= y < self.height()
        &&& self.tiles[x + y * self.width()] is None
    }

    /// The successors of `ls` that the first `n` moves give: each move that ends
    /// on a vacant tile, at cost 1.
    pub open spec fn successors_upto(&self, ls: IVec2, n: int) -> Seq<(IVec2, u32)>
        decreases n,
    {
        if n <= 0 {
            Seq::empty()
        } else {
            let before = self.successors_upto(ls, n - 1);
            let x = ls.x + offset(n - 1).0;
            let y = ls.y + offset(n - 1).1;
            if self.vacant(x, y) {
                before.push((IVec2 { x: x as i32, y: y as i32 }, 1u32))
            } else {
                before
            }
        }
    }

    /// The tiles a unit can step to from `ls`, each at cost 1.
    pub open spec fn spec_successors(&self, ls: IVec2) -> Seq<(IVec2, u32)> {
        self.successors_upto(ls, 8)
    }

    /// `b` is among the successors of `a`, at some cost.
    pub open spec fn yields(&self, a: IVec2, b: IVec2) -> bool {
        exists|c: u32| self.spec_successors(a).contains((b, c))
    }

    /// `p` leads from `start` to `end`, each waypoint among the successors of the one before it.
    pub open spec fn is_chain(&self, start: IVec2, end: IVec2, p: Seq<IVec2>) -> bool {
        &&& p.len() >= 1
        &&& p[0] == start
        &&& p[p.len() - 1] == end
        &&& forall|i: int| 0 <= i < p.len() - 1 ==> self.yields(#[trigger] p[i], p[i + 1])
    }

    /// Some chain of successors leads from `start` to `end`.
    pub open spec fn linked(&self, start: IVec2, end: IVec2) -> bool {
        exists|p: Seq<IVec2>| self.is_chain(start, end, p)
    }

    /// One move from `a` ends on `b`, and `b` is a vacant tile.
    pub open spec fn step(&self, a: IVec2, b: IVec2) -> bool {
        adjacent(a, b) && self.vacant(b.x as int, b.y as int)
    }

    /// `p` leads from `start` to `end` by single moves onto vacant tiles.
    pub open spec fn is_route(&self, start: IVec2, end: IVec2, p: Seq<IVec2>) -> bool {
        &&& p.len() >= 1
        &&& p[0] == start
        &&& p[p.len() - 1] == end
        &&& forall|i: int| 0 <= i < p.len() - 1 ==> self.step(#[trigger] p[i], p[i + 1])
    }

    /// Some route leads from `start` to `end`.
    pub open spec fn reachable(&self, start: IVec2, end: IVec2) -> bool {
        exists|p: Seq<IVec2>| self.is_route(start, end, p)
    }

    /// The route that `path` returns, with its cost.
    pub open spec fn spec_path(&self, start: IVec2, end: IVec2) -> Option<(Seq<IVec2>, u32)> {
        if !self.in_bounds(end) && start != end {
            None
        } else {
            match astar_nodes(self.occupancy(), self.width(), self.height(), start, end) {
                Some(p) => Some((p, (p.len() - 1) as u32)),
                None => None,
            }
        }
    }

    /// The successors found among the first `n` moves are exactly the ends of
    /// those moves that are vacant tiles.
    pub proof fn lemma_successors_upto(&self, a: IVec2, n: int, b: IVec2, c: u32)
        requires
            self.wf(),
            0 <= n <= 8,
        ensures
            self.successors_upto(a, n).contains((b, c)) <==> (c == 1 && self.vacant(
                b.x as int,
                b.y as int,
            ) && exists|j: int| 0 <= j < n && b.x == a.x + offset(j).0 && b.y == a.y + offset(j).1),
        decreases n,
    {
        self.lemma_sides();
        if n > 0 {
            self.lemma_successors_upto(a, n - 1, b, c);
            let before = self.successors_upto(a, n - 1);
            let x = a.x + offset(n - 1).0;
            let y = a.y + offset(n - 1).1;
            let hit = c == 1 && self.vacant(b.x as int, b.y as int) && exists|j: int|
                0 <= j < n && b.x == a.x + offset(j).0 && b.y == a.y + offset(j).1;
            if self.vacant(x, y) {
                let item = (IVec2 { x: x as i32, y: y as i32 }, 1u32);
                let now = before.push(item);
                assert(now[before.len() as int] == item);
                if now.contains((b, c)) {
                    let i = choose|i: int| 0 <= i < now.len() && now[i] == (b, c);
                    if i < before.len() {
                        assert(before[i] == (b, c));
                        assert(before.contains((b, c)));
                    } else {
                        assert(b.x == a.x + offset(n - 1).0 && b.y == a.y + offset(n - 1).1);
                    }
                    assert(hit);
                }
                if hit {
                    let j = choose|j: int|
                        0 <= j < n && b.x == a.x + offset(j).0 && b.y == a.y + offset(j).1;
                    if j < n - 1 {
                        assert(before.contains((b, c)));
                        let i = choose|i: int| 0 <= i < before.len() && before[i] == (b, c);
                        assert(now[i] == (b, c));
                    } else {
                        assert(item == (b, c));
                    }
                    assert(now.contains((b, c)));
                }
            } else {
                if hit {
                    let j = choose|j: int|
                        0 <= j < n && b.x == a.x + offset(j).0 && b.y == a.y + offset(j).1;
                    assert(j < n - 1);
                }
            }
        } else {
            assert(self.successors_upto(a, n) =~= Seq::empty());
        }
    }

    /// A coordinate is among the successors of another exactly when one move
    /// leads from the one to the other and ends on a vacant tile.
    pub proof fn lemma_yields_is_step(&self, a: IVec2, b: IVec2)
        requires
            self.wf(),
        ensures
            self.yields(a, b) <==> self.step(a, b),
    {
        if self.yields(a, b) {
            let c = choose|c: u32| self.spec_successors(a).contains((b, c));
            self.lemma_successors_upto(a, 8, b, c);
        }
        if self.step(a, b) {
            self.lemma_successors_upto(a, 8, b, 1);
            let dx = b.x - a.x;
            let dy = b.y - a.y;
            let j: int = if dx == -1 && dy == 0 {
                0
            } else if dx == 1 && dy == 0 {
                1
            } else if dx == 0 && dy == -1 {
                2
            } else if dx == 0 && dy == 1 {
                3
            } else if dx == -1 && dy == -1 {
                4
            } else if dx == -1 && dy == 1 {
                5
            } else if dx == 1 && dy == -1 {
                6
            } else {
                7
            };
            assert(0 <= j < 8 && b.x == a.x + offset(j).0 && b.y == a.y + offset(j).1);
            assert(self.spec_successors(a).contains((b, 1u32)));
        }
    }

    /// A chain of successors is a route.
    pub proof fn lemma_chain_is_route(&self, start: IVec2, end: IVec2, p: Seq<IVec2>)
        requires
            self.wf(),
            self.is_chain(start, end, p),
        ensures
            self.is_route(start, end, p),
    {
        assert forall|i: int| 0 <= i < p.len() - 1 implies self.step(#[trigger] p[i], p[i + 1]) by {
            self.lemma_yields_is_step(p[i], p[i + 1]);
        }
    }

    /// A route is a chain of successors.
    pub proof fn lemma_route_is_chain(&self, start: IVec2, end: IVec2, p: Seq<IVec2>)
        requires
            self.wf(),
            self.is_route(start, end, p),
        ensures
            self.is_chain(start, end, p),
            self.linked(start, end),
    {
        assert forall|i: int| 0 <= i < p.len() - 1 implies self.yields(#[trigger] p[i], p[i + 1]) by {
            self.lemma_yields_is_step(p[i], p[i + 1]);
        }
    }

    /// No route ends on a coordinate outside the board, unless it starts there.
    pub proof fn lemma_outside_unreachable(&self, start: IVec2, end: IVec2)
        requires
            !self.in_bounds(end),
            start != end,
        ensures
            !self.reachable(start, end),
    {
        if self.reachable(start, end) {
            let p = choose|p: Seq<IVec2>| self.is_route(start, end, p);
            assert(p.len() >= 2);
            assert(self.step(p[p.len() - 2], p[p.len() - 2 + 1]));
        }
    }

    /// A route that visits no tile twice has at most one waypoint more than the
    /// board has tiles.
    pub proof fn lemma_route_length(&self, start: IVec2, end: IVec2, p: Seq<IVec2>)
        requires
            self.wf(),
            self.is_route(start, end, p),
            p.no_duplicates(),
        ensures
            p.len() <= self.width() * self.height() + 1,
    {
        let w = self.width();
        let h = self.height();
        let idxs = Seq::new((p.len() - 1) as nat, |i: int| p[i + 1].x + p[i + 1].y * w);
        assert forall|i: int| 0 <= i < idxs.len() implies 0 <= #[trigger] idxs[i] < w * h by {
            assert(self.step(p[i], p[i + 1]));
            lemma_index_in_range(p[i + 1].x as int, p[i + 1].y as int, w, h);
        }
        assert forall|i: int, j: int| 0 <= i < idxs.len() && 0 <= j < idxs.len() && i != j implies idxs[i]
            != idxs[j] by {
            assert(self.step(p[i], p[i + 1]));
            assert(self.step(p[j], p[j + 1]));
            if idxs[i] == idxs[j] {
                lemma_fundamental_div_mod_converse(idxs[i], w, p[i + 1].y as int, p[i + 1].x as int);
                lemma_fundamental_div_mod_converse(idxs[j], w, p[j + 1].y as int, p[j + 1].x as int);
                assert(p[i + 1] == p[j + 1]);
            }
        }
        assert(idxs.no_duplicates());
        idxs.unique_seq_to_set();
        lemma_int_range(0, w * h);
        assert(idxs.to_set().subset_of(set_int_range(0, w * h))) by {
            assert forall|v: int| idxs.to_set().contains(v) implies set_int_range(0, w * h).contains(
                v,
            ) by {
                let i = choose|i: int| 0 <= i < idxs.len() && idxs[i] == v;
                assert(0 <= idxs[i] < w * h);
            }
        }
        lemma_len_subset(idxs.to_set(), set_int_range(0, w * h));
    }

    /// On a route that starts on a vacant tile, every waypoint is a vacant
    /// tile, and each is one of the eight moves away from the one before it.
    pub proof fn lemma_route_is_free(&self, start: IVec2, end: IVec2, p: Seq<IVec2>, i: int)
        requires
            self.is_route(start, end, p),
            self.vacant(start.x as int, start.y as int),
            0 <= i < p.len(),
        ensures
            self.vacant(p[i].x as int, p[i].y as int),
            i + 1 < p.len() ==> adjacent(p[i], p[i + 1]),
    {
        if i > 0 {
            assert(self.step(p[i - 1], p[i - 1 + 1]));
        }
    }

    /// Clamping a coordinate onto the board gives a tile of the board, leaves a
    /// tile of the board as it is, does nothing more when applied again, and
    /// does not change the index that the coordinate stands for.
    pub proof fn lemma_clamp(&self, ls: IVec2)
        requires
            self.wf(),
        ensures
            self.in_bounds(self.clamped(ls)),
            self.in_bounds(ls) ==> self.clamped(ls) == ls,
            self.clamped(self.clamped(ls)) == self.clamped(ls),
            self.spec_ls_to_idx(ls) == self.spec_ls_to_idx(self.clamped(ls)),
    {
        self.lemma_sides();
    }

    /// The tile that a coordinate is clamped to is, on each axis, at least as
    /// near to it as any other tile of the board.
    pub proof fn lemma_clamp_nearest(&self, ls: IVec2, t: IVec2)
        requires
            self.wf(),
            self.in_bounds(t),
        ensures
            spec_manhattan(ls, self.clamped(ls)) <= spec_manhattan(ls, t),
    {
        self.lemma_sides();
    }

    /// The index of a coordinate leads back to the tile it was clamped to, and
    /// the tile of an index leads back to the index.
    pub proof fn lemma_index_round_trip(&self, ls: IVec2, idx: int)
        requires
            self.wf(),
            0 <= idx < self.width() * self.height(),
        ensures
            self.spec_idx_to_ls(self.spec_ls_to_idx(ls)) == self.clamped(ls),
            self.spec_ls_to_idx(self.spec_idx_to_ls(idx)) == idx,
    {
        self.lemma_sides();
        let w = self.width();
        let h = self.height();
        let c = self.clamped(ls);
        lemma_index_in_range(c.x as int, c.y as int, w, h);
        lemma_fundamental_div_mod_converse(c.x + c.y * w, w, c.y as int, c.x as int);
        vstd::arithmetic::div_mod::lemma_small_mod(c.y as nat, h as nat);
        let x = idx % w;
        let q = idx / w;
        vstd::arithmetic::div_mod::lemma_fundamental_div_mod(idx, w);
        lemma_mod_bound(idx, w);
        assert(0 <= q < h) by (nonlinear_arith)
            requires
                idx == w * q + x,
                0 <= x < w,
                0 <= idx < w * h,
                0 < w,
        ;
        vstd::arithmetic::div_mod::lemma_small_mod(q as nat, h as nat);
        assert(w * q == q * w) by (nonlinear_arith);
    }

    /// Going to world coordinates and back, or back and forth, returns the coordinate.
    pub proof fn lemma_world_round_trip(&self, p: IVec2)
        ensures
            self.spec_ws_to_ls(self.spec_ls_to_ws(p)) == p,
            self.spec_ls_to_ws(self.spec_ws_to_ls(p)) == p,
    {
    }

    /// Clearing a tile a second time changes nothing.
    pub proof fn lemma_destroy_idempotent(&self, idx: int)
        requires
            0 <= idx < self.tiles.len(),
        ensures
            self.tiles.update(idx, None).update(idx, None) == self.tiles.update(idx, None),
            self.tiles[idx] is None ==> self.tiles.update(idx, None) == self.tiles,
    {
    }

    /// A goal is out of reach when it lies inside an enclosure that the start is
    /// outside of and that no move enters: whenever a move from a coordinate
    /// outside the enclosure would end inside it, the tile it would end on is
    /// occupied or off the board. Then `path` finds nothing.
    pub proof fn lemma_walled_off(&self, start: IVec2, end: IVec2, enclosure: Set<IVec2>)
        requires
            enclosure.contains(end),
            !enclosure.contains(start),
            forall|a: IVec2, b: IVec2|
                !enclosure.contains(a) && enclosure.contains(b) && adjacent(a, b) ==> !self.vacant(
                    b.x as int,
                    b.y as int,
                ),
        ensures
            !self.reachable(start, end),
    {
        if self.reachable(start, end) {
            let p = choose|p: Seq<IVec2>| self.is_route(start, end, p);
            self.lemma_stays_outside(start, end, enclosure, p, p.len() - 1);
        }
    }

    /// A route that starts outside an enclosure which no move enters stays outside of it.
    proof fn lemma_stays_outside(
        &self,
        start: IVec2,
        end: IVec2,
        enclosure: Set<IVec2>,
        p: Seq<IVec2>,
        n: int,
    )
        requires
            !enclosure.contains(start),
            self.is_route(start, end, p),
            0 <= n < p.len(),
            forall|a: IVec2, b: IVec2|
                !enclosure.contains(a) && enclosure.contains(b) && adjacent(a, b) ==> !self.vacant(
                    b.x as int,
                    b.y as int,
                ),
        ensures
            !enclosure.contains(p[n]),
        decreases n,
    {
        if n > 0 {
            self.lemma_stays_outside(start, end, enclosure, p, n - 1);
        }
    }
    /// The tile coordinate under a point of the world.
    pub open spec fn spec_ws_vec3_to_ls(&self, ws: Vec3) -> IVec2 {
        self.spec_ws_to_ls(spec_vec3_to_ivec2(ws))
    }

    /// The centre of a tile, on the ground.
    pub open spec fn spec_ls_to_ws_vec3(&self, ls: IVec2) -> Vec3 {
        let corner = spec_ivec2_to_vec3(self.spec_ls_to_ws(ls));
        Vec3 { x: (corner.x + HALF_UNIT) as i64, y: 0, z: (corner.z + HALF_UNIT) as i64 }
    }

    /// Board coordinates, in thousandths, as world coordinates.
    pub open spec fn spec_ls_to_ws_f(&self, ls: Vec2) -> Vec2 {
        Vec2 {
            x: (ls.x + self.origin.x * UNIT) as i64,
            y: (ls.y + self.origin.y * UNIT) as i64,
        }
    }

    /// World coordinates, in thousandths, as board coordinates.
    pub open spec fn spec_ws_to_ls_f(&self, ws: Vec2) -> Vec2 {
        Vec2 {
            x: (ws.x - self.origin.x * UNIT) as i64,
            y: (ws.y - self.origin.y * UNIT) as i64,
        }
    }

    /// A point anywhere within a tile, at any height, belongs to that tile.
    pub proof fn lemma_point_in_tile(&self, ls: IVec2, dx: i64, y: i64, dz: i64)
        requires
            0 <= dx < UNIT,
            0 <= dz < UNIT,
        ensures
            self.spec_ws_vec3_to_ls(
                Vec3 {
                    x: (spec_ivec2_to_vec3(self.spec_ls_to_ws(ls)).x + dx) as i64,
                    y,
                    z: (spec_ivec2_to_vec3(self.spec_ls_to_ws(ls)).z + dz) as i64,
                },
            ) == ls,
            self.spec_ws_vec3_to_ls(self.spec_ls_to_ws_vec3(ls)) == ls,
    {
        let ws = self.spec_ls_to_ws(ls);
        lemma_fundamental_div_mod_converse(ws.x * 1000 + dx, 1000, ws.x as int, dx as int);
        lemma_fundamental_div_mod_converse(ws.y * 1000 + dz, 1000, ws.y as int, dz as int);
        lemma_fundamental_div_mod_converse(ws.x * 1000 + 500, 1000, ws.x as int, 500);
        lemma_fundamental_div_mod_converse(ws.y * 1000 + 500, 1000, ws.y as int, 500);
    }
}

impl GameBoard {
    /// The board has at least one tile, no more than `MAX_TILES`, and one slot per tile.
    pub open spec fn wf(&self) -> bool {
        self@.wf()
    }

    /// Whether the board is well formed.
    pub fn is_sound(&self) -> (ok: bool)
        ensures
            ok == self.wf(),
    {
        if self.size[0] < 1 || self.size[1] < 1 {
            return false;
        }
        if self.size[0] > MAX_TILES || self.size[1] > MAX_TILES {
            proof {
                let w = self@.width();
                let h = self@.height();
                assert(w <= w * h && h <= w * h) by (nonlinear_arith)
                    requires
                        1 <= w,
                        1 <= h,
                ;
            }
            return false;
        }
        assert(self.size[0] * self.size[1] <= MAX_TILES * MAX_TILES) by (nonlinear_arith)
            requires
                self.size[0] <= MAX_TILES,
                self.size[1] <= MAX_TILES,
        ;
        let tiles = self.size[0] as u64 * self.size[1] as u64;
        tiles <= MAX_TILES as u64 && self.board.len() as u64 == tiles && self.has_blobby.len() as u64
            == tiles
    }

    /// An empty board.
    pub fn new(position: IVec2, size: [usize; 2], start: IVec2, dest: IVec2) -> (b: GameBoard)
        requires
            1 <= size[0],
            1 <= size[1],
            size[0] * size[1] <= MAX_TILES,
        ensures
            b.wf(),
            b@ == Grid::empty(size[0] as int, size[1] as int, position, start, dest),
            b.size == size,
    {
        let n = size[0] * size[1];
        let mut board: Vec<Option<Entity>> = Vec::new();
        let mut has_blobby: Vec<bool> = Vec::new();
        let mut i: usize = 0;
        while i < n
            invariant
                i <= n,
                board.len() == i,
                has_blobby.len() == i,
                forall|j: int| 0 <= j < i ==> board[j] is None,
                forall|j: int| 0 <= j < i ==> !has_blobby[j],
            decreases n - i,
        {
            board.push(None);
            has_blobby.push(false);
            i += 1;
        }
        let b = GameBoard { size, position, has_blobby, board, start, dest };
        proof {
            let want = Grid::empty(size[0] as int, size[1] as int, position, start, dest);
            assert(b@.tiles =~= want.tiles);
            assert(b@.marks =~= want.marks);
        }
        b
    }

    /// Clears the mark of every tile.
    pub fn reset_has_blobby(&mut self)
        requires
            old(self).wf(),
        ensures
            final(self).wf(),
            final(self)@ == (Grid {
                marks: Seq::new(old(self)@.marks.len(), |i: int| false),
                ..old(self)@
            }),
    {
        let n = self.size[0] * self.size[1];
        let mut has_blobby: Vec<bool> = Vec::new();
        let mut i: usize = 0;
        while i < n
            invariant
                i <= n,
                has_blobby.len() == i,
                forall|j: int| 0 <= j < i ==> !has_blobby[j],
            decreases n - i,
        {
            has_blobby.push(false);
            i += 1;
        }
        self.has_blobby = has_blobby;
    }

    /// The world coordinate of a tile coordinate.
    pub fn ls_to_ws(&self, ls: IVec2) -> (ws: IVec2)
        ensures
            ws == self@.spec_ls_to_ws(ls),
    {
        IVec2 {
            x: ls.x.wrapping_add(self.position.x),
            y: ls.y.wrapping_add(self.position.y),
        }
    }

    /// The tile coordinate of a world coordinate.
    pub fn ws_to_ls(&self, ws: IVec2) -> (ls: IVec2)
        ensures
            ls == self@.spec_ws_to_ls(ws),
    {
        IVec2 {
            x: ws.x.wrapping_sub(self.position.x),
            y: ws.y.wrapping_sub(self.position.y),
        }
    }

    /// The row-major index of a tile. A coordinate outside the board counts as
    /// the nearest tile of the board.
    pub fn ls_to_idx(&self, ls: IVec2) -> (idx: usize)
        requires
            self.wf(),
        ensures
            idx == self@.spec_ls_to_idx(ls),
            idx < self.board.len(),
    {
        proof {
            self@.lemma_sides();
        }
        let x: usize = if ls.x < 0 {
            0
        } else if ls.x as usize >= self.size[0] {
            self.size[0] - 1
        } else {
            ls.x as usize
        };
        let y: usize = if ls.y < 0 {
            0
        } else if ls.y as usize >= self.size[1] {
            self.size[1] - 1
        } else {
            ls.y as usize
        };
        proof {
            lemma_index_in_range(x as int, y as int, self@.width(), self@.height());
        }
        x + y * self.size[0]
    }

    /// The tile with a given row-major index.
    pub fn idx_to_ls(&self, idx: usize) -> (ls: IVec2)
        requires
            self.wf(),
        ensures
            ls == self@.spec_idx_to_ls(idx as int),
            self@.in_bounds(ls),
    {
        let x = idx % self.size[0];
        let y = (idx / self.size[0]) % self.size[1];
        proof {
            self@.lemma_sides();
            lemma_mod_bound(idx as int, self@.width());
            lemma_mod_bound(idx as int / self@.width(), self@.height());
        }
        IVec2 { x: x as i32, y: y as i32 }
    }

    /// The tiles a unit can step to from `ls`: the ends of the eight moves that
    /// are vacant tiles of the board, each at cost 1, in the order of the moves.
    pub fn successors(&self, ls: IVec2) -> (s: Vec<(IVec2, u32)>)
        requires
            self.wf(),
        ensures
            s@ == self@.spec_successors(ls),
    {
        let mut s: Vec<(IVec2, u32)> = Vec::new();
        let mut i: usize = 0;
        proof {
            self@.lemma_sides();
        }
        while i < 8
            invariant
                i <= 8,
                self.wf(),
                self@.width() <= MAX_TILES,
                self@.height() <= MAX_TILES,
                s@ == self@.successors_upto(ls, i as int),
            decreases 8 - i,
        {
            let o = offset_at(i);
            let x: i64 = ls.x as i64 + o.0;
            let y: i64 = ls.y as i64 + o.1;
            if 0 <= x && x < self.size[0] as i64 && 0 <= y && y < self.size[1] as i64 {
                proof {
                    lemma_index_in_range(x as int, y as int, self@.width(), self@.height());
                }
                let idx: usize = x as usize + y as usize * self.size[0];
                if self.board[idx].is_none() {
                    s.push((IVec2 { x: x as i32, y: y as i32 }, 1));
                }
            }
            i += 1;
        }
        s
    }

    /// Searches a route from `start` to `end` over vacant tiles, moving one tile
    /// at a time in any of the eight directions.
    ///
    /// A route is found exactly when one exists. It starts at `start`, ends at
    /// `end`, visits no tile twice, and costs one per move. Which of several
    /// routes is found depends on the board and the two coordinates alone.
    pub fn path(&self, start: IVec2, end: IVec2) -> (r: Option<(Vec<IVec2>, u32)>)
        requires
            self.wf(),
        ensures
            r is Some <==> self@.reachable(start, end),
            r matches Some(found) ==> self@.is_route(start, end, found.0@)
                && found.0@.no_duplicates() && found.1 == found.0.len() - 1,
            path_view(r) == self@.spec_path(start, end),
    {
        if !self.is_inside(end) && !same_tile(start, end) {
            proof {
                self@.lemma_outside_unreachable(start, end);
            }
            return None;
        }
        match astar_search(self, start, end) {
            Some(p) => {
                proof {
                    self@.lemma_chain_is_route(start, end, p@);
                    self@.lemma_route_length(start, end, p@);
                }
                let cost = (p.len() - 1) as u32;
                Some((p, cost))
            },
            None => {
                proof {
                    if self@.reachable(start, end) {
                        let q = choose|q: Seq<IVec2>| self@.is_route(start, end, q);
                        self@.lemma_route_is_chain(start, end, q);
                    }
                }
                None
            },
        }
    }

    /// Whether a coordinate names a tile of the board.
    pub fn is_inside(&self, ls: IVec2) -> (inside: bool)
        requires
            self.wf(),
        ensures
            inside == self@.in_bounds(ls),
    {
        proof {
            self@.lemma_sides();
        }
        0 <= ls.x && (ls.x as usize) < self.size[0] && 0 <= ls.y && (ls.y as usize) < self.size[1]
    }

    /// Clears a tile. Clearing a tile on which nothing stands changes nothing.
    pub fn destroy(&mut self, idx: usize)
        requires
            old(self).wf(),
            idx < old(self).board.len(),
        ensures
            final(self).wf(),
            final(self)@ == (Grid {
                tiles: old(self)@.tiles.update(idx as int, None),
                ..old(self)@
            }),
    {
        self.board.set(idx, None);
    }

    /// Board coordinates, in thousandths, to world coordinates.
    pub fn ls_to_ws_f(&self, ls: Vec2) -> (ws: Vec2)
        requires
            ls.bounded(),
        ensures
            ws == self@.spec_ls_to_ws_f(ls),
    {
        Vec2 {
            x: ls.x + self.position.x as i64 * UNIT,
            y: ls.y + self.position.y as i64 * UNIT,
        }
    }

    /// World coordinates, in thousandths, to board coordinates.
    pub fn ws_to_ls_f(&self, ws: Vec2) -> (ls: Vec2)
        requires
            ws.bounded(),
        ensures
            ls == self@.spec_ws_to_ls_f(ws),
    {
        Vec2 {
            x: ws.x - self.position.x as i64 * UNIT,
            y: ws.y - self.position.y as i64 * UNIT,
        }
    }

    /// The tile coordinate under a point of the world.
    pub fn ws_vec3_to_ls(&self, ws: Vec3) -> (ls: IVec2)
        ensures
            ls == self@.spec_ws_vec3_to_ls(ws),
    {
        self.ws_to_ls(vec3_to_ivec2(ws))
    }

    /// A point of the world in board coordinates, in thousandths.
    pub fn ws_vec3_to_ls_f(&self, ws: Vec3) -> (ls: Vec2)
        requires
            ws.bounded(),
        ensures
            ls == self@.spec_ws_to_ls_f(Vec2 { x: ws.x, y: ws.z }),
    {
        self.ws_to_ls_f(vec3_to_vec2(ws))
    }

    /// The centre of a tile, on the ground.
    pub fn ls_to_ws_vec3(&self, ls: IVec2) -> (ws: Vec3)
        ensures
            ws == self@.spec_ls_to_ws_vec3(ls),
            ws.bounded(),
    {
        let corner = ivec2_to_vec3(self.ls_to_ws(ls));
        Vec3 { x: corner.x + HALF_UNIT, y: 0, z: corner.z + HALF_UNIT }
    }

    /// A point in board coordinates, in thousandths, as a point on the ground of
    /// the world, shifted by half a tile along both axes of the ground.
    pub fn ls_f_to_ws_vec3(&self, ls: Vec2) -> (ws: Vec3)
        requires
            ls.bounded(),
        ensures
            ws.x == self@.spec_ls_to_ws_f(ls).x + HALF_UNIT,
            ws.y == 0,
            ws.z == self@.spec_ls_to_ws_f(ls).y + HALF_UNIT,
    {
        let flat = vec2_to_vec3(self.ls_to_ws_f(ls));
        Vec3 { x: flat.x + HALF_UNIT, y: 0, z: flat.z + HALF_UNIT }
    }
}

/// The value of `v` wrapped into the range of `i32`.
pub open spec fn wrap_i32(v: int) -> i32 {
    if v > i32::MAX {
        (v - 0x1_0000_0000) as i32
    } else if v < i32::MIN {
        (v + 0x1_0000_0000) as i32
    } else {
        v as i32
    }
}

/// A tile inside a `w` by `h` board has a row-major index below `w * h`.
pub proof fn lemma_index_in_range(x: int, y: int, w: int, h: int)
    requires
        0 <= x < w,
        0 <= y < h,
    ensures
        0 <= x + y * w < w * h,
        0 <= y * w,
{
    assert(y * w <= (h - 1) * w) by (nonlinear_arith)
        requires
            0 <= y <= h - 1,
            0 < w,
    ;
    assert((h - 1) * w == w * h - w) by (nonlinear_arith);
    assert(0 <= y * w) by (nonlinear_arith)
        requires
            0 <= y,
            0 < w,
    ;
}

/// The `i`-th of the eight moves a unit can make, in the order in which they are tried.
pub open spec fn offset(i: int) -> (int, int) {
    if i == 0 {
        (-1, 0)
    } else if i == 1 {
        (1, 0)
    } else if i == 2 {
        (0, -1)
    } else if i == 3 {
        (0, 1)
    } else if i == 4 {
        (-1, -1)
    } else if i == 5 {
        (-1, 1)
    } else if i == 6 {
        (1, -1)
    } else {
        (1, 1)
    }
}

/// Two coordinates are one of the eight moves apart.
pub open spec fn adjacent(a: IVec2, b: IVec2) -> bool {
    &&& -1 <= b.x - a.x <= 1
    &&& -1 <= b.y - a.y <= 1
    &&& a != b
}

/// The distance between two coordinates when only the four straight moves count.
pub open spec fn spec_manhattan(a: IVec2, b: IVec2) -> int {
    (if a.x >= b.x {
        a.x - b.x
    } else {
        b.x - a.x
    }) + (if a.y >= b.y {
        a.y - b.y
    } else {
        b.y - a.y
    })
}

/// The distance estimate that guides the path search: the straight-move
/// distance, held at `u32::MAX` where it would not fit.
pub fn manhattan(a: IVec2, b: IVec2) -> (d: u32)
    ensures
        d == (if spec_manhattan(a, b) > u32::MAX {
            u32::MAX as int
        } else {
            spec_manhattan(a, b)
        }),
{
    let dx: i64 = if a.x >= b.x {
        a.x as i64 - b.x as i64
    } else {
        b.x as i64 - a.x as i64
    };
    let dy: i64 = if a.y >= b.y {
        a.y as i64 - b.y as i64
    } else {
        b.y as i64 - a.y as i64
    };
    let d = dx + dy;
    if d > u32::MAX as i64 {
        u32::MAX
    } else {
        d as u32
    }
}

/// Whether two coordinates are the same.
pub fn same_tile(a: IVec2, b: IVec2) -> (same: bool)
    ensures
        same == (a == b),
{
    a.x == b.x && a.y == b.y
}

/// The `i`-th of the eight moves.
fn offset_at(i: usize) -> (o: (i64, i64))
    requires
        i < 8,
    ensures
        o.0 == offset(i as int).0,
        o.1 == offset(i as int).1,
{
    if i == 0 {
        (-1, 0)
    } else if i == 1 {
        (1, 0)
    } else if i == 2 {
        (0, -1)
    } else if i == 3 {
        (0, 1)
    } else if i == 4 {
        (-1, -1)
    } else if i == 5 {
        (-1, 1)
    } else if i == 6 {
        (1, -1)
    } else {
        (1, 1)
    }
}

/// What the path search found for a board with the given occupancy and size,
/// between two coordinates: the waypoints from the first to the second, or
/// nothing. The same arguments always give the same waypoints.
pub uninterp spec fn astar_nodes(
    occupied: Seq<bool>,
    width: int,
    height: int,
    start: IVec2,
    end: IVec2,
) -> Option<Seq<IVec2>>;

/// The waypoints that a search found, if it found any.
pub open spec fn nodes_of(r: Option<Vec<IVec2>>) -> Option<Seq<IVec2>> {
    match r {
        Some(p) => Some(p@),
        None => None,
    }
}

/// `pathfinding::prelude::astar`, searching from `start` for `end`, with
/// `GameBoard::successors` as the neighbours of a node, `manhattan` to `end` as
/// the estimate, and `same_tile` with `end` as the test for the goal; the cost
/// that it reports is dropped.
///
/// Its answer depends on the occupancy, the size and the two coordinates alone.
/// When it finds waypoints, they start at `start`, end at `end`, never repeat,
/// and each one after the first is among the successors of the one before it.
/// It finds none only if no chain of successors leads from `start` to `end`.
#[verifier::external_body]
fn astar_search(board: &GameBoard, start: IVec2, end: IVec2) -> (r: Option<Vec<IVec2>>)
    requires
        board.wf(),
        board@.in_bounds(end) || start == end,
    ensures
        nodes_of(r) == astar_nodes(board@.occupancy(), board@.width(), board@.height(), start, end),
        r matches Some(p) ==> board@.is_chain(start, end, p@) && p@.no_duplicates(),
        r is None ==> !board@.linked(start, end),
{
    pathfinding::prelude::astar(
        &start,
        |p| board.successors(*p),
        |p| manhattan(*p, end),
        |p| same_tile(*p, end),
    ).map(|found| found.0)
}

/// The view of what `path` returns: the waypoints and the cost.
pub open spec fn path_view(r: Option<(Vec<IVec2>, u32)>) -> Option<(Seq<IVec2>, u32)> {
    match r {
        Some(found) => Some((found.0@, found.1)),
        None => None,
    }
}

impl Default for GameBoard {
    /// The board of a new game: 24 tiles by 24, with its corner at (-12, -12).
    fn default() -> (b: GameBoard)
        ensures
            b.wf(),
            b@ == Grid::fresh(),
    {
        GameBoard::new(ivec2(-12, -12), [24, 24], ivec2(0, 0), ivec2(22, 22))
    }
}

/// World coordinates are held in thousandths of a tile's side.
pub const UNIT: i64 = 1000;

/// Half a tile's side: from a tile's corner to its centre.
pub const HALF_UNIT: i64 = 500;

/// No world coordinate that the simulation produces lies further from the
/// origin than this.
pub const WORLD_LIMIT: i64 = 0x400_0000_0000;

/// A point of the ground plane, in thousandths.
#[derive(Clone, Copy, Debug, PartialEq, Eq, Structural)]
pub struct Vec2 {
    pub x: i64,
    pub y: i64,
}

/// A point of the world, in thousandths. The ground plane is spanned by `x` and `z`.
#[derive(Clone, Copy, Debug, PartialEq, Eq, Structural)]
pub struct Vec3 {
    pub x: i64,
    pub y: i64,
    pub z: i64,
}

/// The point (x, y).
pub fn vec2(x: i64, y: i64) -> (p: Vec2)
    ensures
        p == (Vec2 { x, y }),
{
    Vec2 { x, y }
}

/// The point (x, y, z).
pub fn vec3(x: i64, y: i64, z: i64) -> (p: Vec3)
    ensures
        p == (Vec3 { x, y, z }),
{
    Vec3 { x, y, z }
}

impl Vec2 {
    /// No coordinate lies further from the origin than `WORLD_LIMIT`.
    pub open spec fn bounded(self) -> bool {
        &&& -WORLD_LIMIT <= self.x <= WORLD_LIMIT
        &&& -WORLD_LIMIT <= self.y <= WORLD_LIMIT
    }

    /// Whether no coordinate lies further from the origin than `WORLD_LIMIT`.
    pub fn is_bounded(&self) -> (ok: bool)
        ensures
            ok == self.bounded(),
    {
        -WORLD_LIMIT <= self.x && self.x <= WORLD_LIMIT && -WORLD_LIMIT <= self.y && self.y
            <= WORLD_LIMIT
    }
}

impl Vec3 {
    /// No coordinate lies further from the origin than `WORLD_LIMIT`.
    pub open spec fn bounded(self) -> bool {
        &&& -WORLD_LIMIT <= self.x <= WORLD_LIMIT
        &&& -WORLD_LIMIT <= self.y <= WORLD_LIMIT
        &&& -WORLD_LIMIT <= self.z <= WORLD_LIMIT
    }

    /// Whether no coordinate lies further from the origin than `WORLD_LIMIT`.
    pub fn is_bounded(&self) -> (ok: bool)
        ensures
            ok == self.bounded(),
    {
        -WORLD_LIMIT <= self.x && self.x <= WORLD_LIMIT && -WORLD_LIMIT <= self.y && self.y
            <= WORLD_LIMIT && -WORLD_LIMIT <= self.z && self.z <= WORLD_LIMIT
    }
}

/// The whole tiles in a world coordinate, rounded down and held within `i32`.
pub open spec fn spec_tile_of(v: i64) -> i32 {
    let q = v as int / UNIT as int;
    if q > i32::MAX {
        i32::MAX
    } else if q < i32::MIN {
        i32::MIN
    } else {
        q as i32
    }
}

/// The whole tiles in a world coordinate, rounded down and held within `i32`.
pub fn tile_of(v: i64) -> (t: i32)
    ensures
        t == spec_tile_of(v),
{
    let q: i64 = if v >= 0 {
        v / UNIT
    } else {
        let n: i64 = -(v + 1);
        proof {
            let a = n as int / 1000;
            let b = n as int % 1000;
            vstd::arithmetic::div_mod::lemma_fundamental_div_mod(n as int, 1000);
            lemma_mod_bound(n as int, 1000);
            lemma_fundamental_div_mod_converse(v as int, 1000, -a - 1, 999 - b);
        }
        -(n / UNIT) - 1
    };
    if q > i32::MAX as i64 {
        i32::MAX
    } else if q < i32::MIN as i64 {
        i32::MIN
    } else {
        q as i32
    }
}

/// The tile coordinate under a point of the world.
pub open spec fn spec_vec3_to_ivec2(p: Vec3) -> IVec2 {
    IVec2 { x: spec_tile_of(p.x), y: spec_tile_of(p.z) }
}

/// The corner of a tile, on the ground.
pub open spec fn spec_ivec2_to_vec3(p: IVec2) -> Vec3 {
    Vec3 { x: (p.x * UNIT) as i64, y: 0, z: (p.y * UNIT) as i64 }
}

/// The tile coordinate under a point of the world: each ground coordinate rounded down.
pub fn vec3_to_ivec2(p: Vec3) -> (t: IVec2)
    ensures
        t == spec_vec3_to_ivec2(p),
{
    IVec2 { x: tile_of(p.x), y: tile_of(p.z) }
}

/// The ground coordinates of a point of the world.
pub fn vec3_to_vec2(p: Vec3) -> (q: Vec2)
    ensures
        q == (Vec2 { x: p.x, y: p.z }),
{
    Vec2 { x: p.x, y: p.z }
}

/// The corner of a tile, on the ground.
pub fn ivec2_to_vec3(p: IVec2) -> (q: Vec3)
    ensures
        q == spec_ivec2_to_vec3(p),
{
    Vec3 { x: p.x as i64 * UNIT, y: 0, z: p.y as i64 * UNIT }
}

/// The point on the ground with the given ground coordinates.
pub fn vec2_to_vec3(p: Vec2) -> (q: Vec3)
    ensures
        q == (Vec3 { x: p.x, y: 0, z: p.y }),
{
    Vec3 { x: p.x, y: 0, z: p.y }
}

} // verus!
