//! The fixed-size world of the game's first version: a 20 by 20 grid of open
//! ground, ponds, trees and berry bushes around a safe zone in the middle.
use vstd::prelude::*;
use crate::inventory::{Inventory, Item, item_weight, slots_after_try_add};
use crate::rng::random_range;

pub mod bush;

verus! {

/// Width and height of the grid.
pub const GRID_SIZE: usize = 20;

#[derive(Clone, Copy, PartialEq, Eq, Structural, Debug)]
pub enum Tile {
    Empty,
    Bush,
    BerryBush,
    Water,
    TreeTrunk,
}

/// A bush after the player interacts with it, and what it yields.
pub open spec fn bush_result(t: Tile) -> (Tile, Option<Item>) {
    match t {
        Tile::BerryBush => (Tile::Bush, Some(Item::Berry)),
        Tile::Bush => (Tile::Empty, Some(Item::Twig)),
        _ => (t, None),
    }
}

impl Tile {
    /// Interacting: bushes yield their berries or a twig; other tiles do nothing.
    pub fn interact(&mut self) -> (r: Option<Item>)
        ensures
            (*final(self), r) == bush_result(*old(self)),
    {
        match self {
            Tile::BerryBush | Tile::Bush => bush::interact_with_bush(self),
            _ => None,
        }
    }
}

/// The cell lies in the safe zone around the player's start.
pub open spec fn in_safe_zone(x: int, y: int) -> bool {
    9 <= x < 12 && 9 <= y < 12
}

/// The tiles of a grid, read as a function of the coordinates.
pub open spec fn grid_fn(g: [[Tile; GRID_SIZE]; GRID_SIZE]) -> spec_fn(int, int) -> Tile {
    |x: int, y: int| g[x][y]
}

/// The grid holds, at every cell, the tile that `f` gives.
pub open spec fn same_grid(g: [[Tile; GRID_SIZE]; GRID_SIZE], f: spec_fn(int, int) -> Tile) -> bool {
    forall|x: int, y: int| 0 <= x < GRID_SIZE && 0 <= y < GRID_SIZE ==> #[trigger] g[x][y] == f(x, y)
}

/// Two tile functions agree on every cell of the grid.
pub open spec fn agree(f: spec_fn(int, int) -> Tile, g: spec_fn(int, int) -> Tile) -> bool {
    forall|x: int, y: int| 0 <= x < GRID_SIZE && 0 <= y < GRID_SIZE ==> #[trigger] f(x, y) == g(x, y)
}

pub open spec fn set_tile(f: spec_fn(int, int) -> Tile, x: int, y: int, t: Tile) -> spec_fn(int, int) -> Tile {
    |a: int, b: int| if a == x && b == y { t } else { f(a, b) }
}

/// The grid before anything is placed: open ground everywhere.
pub open spec fn empty_ground() -> spec_fn(int, int) -> Tile {
    |x: int, y: int| Tile::Empty
}

/// The step of a pond's growth in each of the four directions, by number:
/// down, up, right, left.
pub open spec fn dir_offset(dir: int) -> (int, int) {
    if dir == 0 {
        (0, 1)
    } else if dir == 1 {
        (0, -1)
    } else if dir == 2 {
        (1, 0)
    } else {
        (-1, 0)
    }
}

/// One step of a pond's growth: from its `idx`-th water tile, one step in
/// direction `dir`; a cell inside the grid that is not water yet becomes water
/// and joins the pond.
pub open spec fn pond_move(f: spec_fn(int, int) -> Tile, water: Seq<(i32, i32)>, idx: int, dir: int) -> (
    spec_fn(int, int) -> Tile,
    Seq<(i32, i32)>,
) {
    if 0 <= idx < water.len() && 0 <= dir < 4 {
        let nx = water[idx].0 + dir_offset(dir).0;
        let ny = water[idx].1 + dir_offset(dir).1;
        if 0 <= nx < GRID_SIZE && 0 <= ny < GRID_SIZE && f(nx, ny) != Tile::Water {
            (set_tile(f, nx, ny, Tile::Water), water.push((nx as i32, ny as i32)))
        } else {
            (f, water)
        }
    } else {
        (f, water)
    }
}

/// The growth steps of a pond, `(tile index, direction)` each, taken in order.
pub open spec fn pond_moves(f: spec_fn(int, int) -> Tile, water: Seq<(i32, i32)>, moves: Seq<(usize, usize)>) -> (
    spec_fn(int, int) -> Tile,
    Seq<(i32, i32)>,
)
    decreases moves.len(),
{
    if moves.len() == 0 {
        (f, water)
    } else {
        let r = pond_moves(f, water, moves.drop_last());
        pond_move(r.0, r.1, moves.last().0 as int, moves.last().1 as int)
    }
}

/// A pond: its starting cell becomes water, then it grows by its moves.
pub open spec fn grow_pond(f: spec_fn(int, int) -> Tile, start: (i32, i32), moves: Seq<(usize, usize)>) -> spec_fn(
    int,
    int,
) -> Tile {
    pond_moves(set_tile(f, start.0 as int, start.1 as int, Tile::Water), seq![start], moves).0
}

/// The ponds, each a starting cell and its moves, grown in order.
pub open spec fn grow_ponds(f: spec_fn(int, int) -> Tile, ponds: Seq<((i32, i32), Seq<(usize, usize)>)>) -> spec_fn(
    int,
    int,
) -> Tile
    decreases ponds.len(),
{
    if ponds.len() == 0 {
        f
    } else {
        grow_pond(grow_ponds(f, ponds.drop_last()), ponds.last().0, ponds.last().1)
    }
}

/// Trees at the given spots, in order, each where the ground is still open.
pub open spec fn plant_trees(f: spec_fn(int, int) -> Tile, spots: Seq<(usize, usize)>) -> spec_fn(int, int) -> Tile
    decreases spots.len(),
{
    if spots.len() == 0 {
        f
    } else {
        let g = plant_trees(f, spots.drop_last());
        let (tx, ty) = spots.last();
        if g(tx as int, ty as int) == Tile::Empty {
            set_tile(g, tx as int, ty as int, Tile::TreeTrunk)
        } else {
            g
        }
    }
}

/// A berry bush on each open cell whose roll is below 20 out of 100.
pub open spec fn grow_bushes(f: spec_fn(int, int) -> Tile, rolls: [[usize; GRID_SIZE]; GRID_SIZE]) -> spec_fn(
    int,
    int,
) -> Tile {
    |x: int, y: int| if f(x, y) == Tile::Empty && rolls[x][y] < 20 { Tile::BerryBush } else { f(x, y) }
}

/// The safe zone cleared to open ground.
pub open spec fn clear_safe_zone(f: spec_fn(int, int) -> Tile) -> spec_fn(int, int) -> Tile {
    |x: int, y: int| if in_safe_zone(x, y) { Tile::Empty } else { f(x, y) }
}

/// The grid that given draws produce: the ponds, then the trees, then the
/// berry bushes, then the cleared safe zone.
pub open spec fn grid_from_draws(
    ponds: Seq<((i32, i32), Seq<(usize, usize)>)>,
    spots: Seq<(usize, usize)>,
    rolls: [[usize; GRID_SIZE]; GRID_SIZE],
) -> spec_fn(int, int) -> Tile {
    clear_safe_zone(grow_bushes(plant_trees(grow_ponds(empty_ground(), ponds), spots), rolls))
}

/// The draws lie in the ranges the generator draws them from: two or three
/// ponds starting inside 2..18 with 10 to 24 moves each, 5 to 9 tree spots
/// inside 2..18, and bush rolls below 100.
pub open spec fn draws_in_range(
    ponds: Seq<((i32, i32), Seq<(usize, usize)>)>,
    spots: Seq<(usize, usize)>,
    rolls: [[usize; GRID_SIZE]; GRID_SIZE],
) -> bool {
    &&& 2 <= ponds.len() < 4
    &&& forall|i: int| 0 <= i < ponds.len() ==> {
        let p = #[trigger] ponds[i];
        &&& 2 <= p.0.0 < 18 && 2 <= p.0.1 < 18
        &&& 10 <= p.1.len() < 25
        &&& forall|j: int| 0 <= j < p.1.len() ==> (#[trigger] p.1[j]).1 < 4
    }
    &&& 5 <= spots.len() < 10
    &&& forall|i: int| 0 <= i < spots.len() ==> 2 <= (#[trigger] spots[i]).0 < 18 && 2 <= spots[i].1 < 18
    &&& forall|x: int, y: int| 0 <= x < GRID_SIZE && 0 <= y < GRID_SIZE ==> #[trigger] rolls[x][y] < 100
}

pub open spec fn water_in_grid(water: Seq<(i32, i32)>) -> bool {
    forall|m: int| 0 <= m < water.len() ==> 0 <= (#[trigger] water[m]).0 < GRID_SIZE && 0 <= water[m].1 < GRID_SIZE
}

spec fn ground_or_water(f: spec_fn(int, int) -> Tile) -> bool {
    forall|x: int, y: int| 0 <= x < GRID_SIZE && 0 <= y < GRID_SIZE ==> #[trigger] f(x, y) == Tile::Empty || f(x, y) == Tile::Water
}

spec fn no_bush_trees_inside(f: spec_fn(int, int) -> Tile) -> bool {
    forall|x: int, y: int| 0 <= x < GRID_SIZE && 0 <= y < GRID_SIZE ==> {
        &&& #[trigger] f(x, y) != Tile::Bush
        &&& f(x, y) != Tile::BerryBush
        &&& f(x, y) == Tile::TreeTrunk ==> 2 <= x < 18 && 2 <= y < 18
    }
}

proof fn lemma_pond_moves_facts(f: spec_fn(int, int) -> Tile, water: Seq<(i32, i32)>, moves: Seq<(usize, usize)>)
    requires
        water_in_grid(water),
    ensures
        water_in_grid(pond_moves(f, water, moves).1),
        ground_or_water(f) ==> ground_or_water(pond_moves(f, water, moves).0),
    decreases moves.len(),
{
    if moves.len() > 0 {
        lemma_pond_moves_facts(f, water, moves.drop_last());
        let r = pond_moves(f, water, moves.drop_last());
        let m = moves.last();
        if 0 <= m.0 < r.1.len() && m.1 < 4 {
            let nx = r.1[m.0 as int].0 + dir_offset(m.1 as int).0;
            let ny = r.1[m.0 as int].1 + dir_offset(m.1 as int).1;
            let w2 = r.1.push((nx as i32, ny as i32));
            if 0 <= nx < GRID_SIZE && 0 <= ny < GRID_SIZE {
            assert forall|k: int| 0 <= k < w2.len() implies 0 <= (#[trigger] w2[k]).0 < GRID_SIZE && 0 <= w2[k].1 < GRID_SIZE by {
                if k < r.1.len() {
                    assert(w2[k] == r.1[k]);
                }
            }
            }
        }
    }
}

/// Moves that agree on the grid give grids that agree and the same pond.
proof fn lemma_pond_moves_agree(f: spec_fn(int, int) -> Tile, g: spec_fn(int, int) -> Tile, water: Seq<(i32, i32)>, moves: Seq<(usize, usize)>)
    requires
        agree(f, g),
    ensures
        agree(pond_moves(f, water, moves).0, pond_moves(g, water, moves).0),
        pond_moves(f, water, moves).1 == pond_moves(g, water, moves).1,
    decreases moves.len(),
{
    if moves.len() > 0 {
        lemma_pond_moves_agree(f, g, water, moves.drop_last());
    }
}

proof fn lemma_grow_ponds_kinds(ponds: Seq<((i32, i32), Seq<(usize, usize)>)>)
    requires
        forall|i: int| 0 <= i < ponds.len() ==> 0 <= (#[trigger] ponds[i]).0.0 < GRID_SIZE && 0 <= ponds[i].0.1 < GRID_SIZE,
    ensures
        ground_or_water(grow_ponds(empty_ground(), ponds)),
    decreases ponds.len(),
{
    if ponds.len() > 0 {
        lemma_grow_ponds_kinds(ponds.drop_last());
        let f = grow_ponds(empty_ground(), ponds.drop_last());
        let p = ponds.last();
        assert(ponds[ponds.len() - 1] == p);
        let s = set_tile(f, p.0.0 as int, p.0.1 as int, Tile::Water);
        assert(seq![p.0][0] == p.0);
        lemma_pond_moves_facts(s, seq![p.0], p.1);
    }
}

proof fn lemma_plant_trees_kinds(f: spec_fn(int, int) -> Tile, spots: Seq<(usize, usize)>)
    requires
        ground_or_water(f),
        forall|i: int| 0 <= i < spots.len() ==> 2 <= (#[trigger] spots[i]).0 < 18 && 2 <= spots[i].1 < 18,
    ensures
        no_bush_trees_inside(plant_trees(f, spots)),
    decreases spots.len(),
{
    if spots.len() > 0 {
        lemma_plant_trees_kinds(f, spots.drop_last());
        assert(spots[spots.len() - 1] == spots.last());
    }
}

proof fn lemma_plant_trees_agree(f: spec_fn(int, int) -> Tile, g: spec_fn(int, int) -> Tile, spots: Seq<(usize, usize)>)
    requires
        agree(f, g),
        forall|i: int| 0 <= i < spots.len() ==> (#[trigger] spots[i]).0 < GRID_SIZE && spots[i].1 < GRID_SIZE,
    ensures
        agree(plant_trees(f, spots), plant_trees(g, spots)),
    decreases spots.len(),
{
    if spots.len() > 0 {
        lemma_plant_trees_agree(f, g, spots.drop_last());
        assert(spots[spots.len() - 1] == spots.last());
    }
}

/// One step of a pond's growth, as `pond_move` says.
pub fn pond_step(grid: &mut [[Tile; GRID_SIZE]; GRID_SIZE], water: &mut Vec<(i32, i32)>, idx: usize, dir: usize)
    requires
        idx < old(water)@.len(),
        dir < 4,
        water_in_grid(old(water)@),
    ensures
        same_grid(*final(grid), pond_move(grid_fn(*old(grid)), old(water)@, idx as int, dir as int).0),
        final(water)@ == pond_move(grid_fn(*old(grid)), old(water)@, idx as int, dir as int).1,
{
    let (cx, cy) = water[idx];
    let dirs: [(i32, i32); 4] = [(0, 1), (0, -1), (1, 0), (-1, 0)];
    let (dx, dy) = dirs[dir];
    let nx = cx + dx;
    let ny = cy + dy;
    if nx >= 0 && nx < 20 && ny >= 0 && ny < 20 && grid[nx as usize][ny as usize] != Tile::Water {
        grid[nx as usize][ny as usize] = Tile::Water;
        water.push((nx, ny));
    }
}

/// Plants a tree at each spot, in order, where the ground is still open.
pub fn place_trees(grid: &mut [[Tile; GRID_SIZE]; GRID_SIZE], spots: &Vec<(usize, usize)>)
    requires
        forall|i: int| 0 <= i < spots@.len() ==> (#[trigger] spots@[i]).0 < GRID_SIZE && spots@[i].1 < GRID_SIZE,
    ensures
        same_grid(*final(grid), plant_trees(grid_fn(*old(grid)), spots@)),
{
    let ghost g0 = *grid;
    let mut k: usize = 0;
    while k < spots.len()
        invariant
            k <= spots@.len(),
            forall|i: int| 0 <= i < spots@.len() ==> (#[trigger] spots@[i]).0 < GRID_SIZE && spots@[i].1 < GRID_SIZE,
            same_grid(*grid, plant_trees(grid_fn(g0), spots@.take(k as int))),
        decreases spots@.len() - k,
    {
        let (tx, ty) = spots[k];
        proof {
            assert(spots@.take(k as int + 1).drop_last() =~= spots@.take(k as int));
            assert(spots@.take(k as int + 1).last() == spots@[k as int]);
        }
        if grid[tx][ty] == Tile::Empty {
            grid[tx][ty] = Tile::TreeTrunk;
        }
        k = k + 1;
    }
    proof {
        assert(spots@.take(k as int) =~= spots@);
    }
}

/// Grows a berry bush on each open cell whose roll is below 20.
pub fn place_bushes(grid: &mut [[Tile; GRID_SIZE]; GRID_SIZE], rolls: &[[usize; GRID_SIZE]; GRID_SIZE])
    ensures
        same_grid(*final(grid), grow_bushes(grid_fn(*old(grid)), *rolls)),
{
    let ghost g0 = *grid;
    let mut x: usize = 0;
    while x < GRID_SIZE
        invariant
            x <= GRID_SIZE,
            forall|a: int, b: int| 0 <= a < GRID_SIZE && 0 <= b < GRID_SIZE ==> #[trigger] grid[a][b] == if a < x {
                grow_bushes(grid_fn(g0), *rolls)(a, b)
            } else {
                g0[a][b]
            },
        decreases GRID_SIZE - x,
    {
        let mut y: usize = 0;
        while y < GRID_SIZE
            invariant
                x < GRID_SIZE,
                y <= GRID_SIZE,
                forall|a: int, b: int| 0 <= a < GRID_SIZE && 0 <= b < GRID_SIZE ==> #[trigger] grid[a][b] == if a < x || (a
                    == x && b < y) {
                    grow_bushes(grid_fn(g0), *rolls)(a, b)
                } else {
                    g0[a][b]
                },
            decreases GRID_SIZE - y,
        {
            if grid[x][y] == Tile::Empty && rolls[x][y] < 20 {
                grid[x][y] = Tile::BerryBush;
            }
            y = y + 1;
        }
        x = x + 1;
    }
}

/// Generates the grid: two or three ponds grown from random starting points,
/// five to nine trees, berry bushes on about a fifth of the open ground, and an
/// empty safe zone in the middle. The grid is the one `grid_from_draws` gives
/// for draws in the generator's ranges; which draws come out is left open.
pub fn generate_grid() -> (grid: [[Tile; GRID_SIZE]; GRID_SIZE])
    ensures
        exists|ponds: Seq<((i32, i32), Seq<(usize, usize)>)>, spots: Seq<(usize, usize)>, rolls: [[usize; GRID_SIZE]; GRID_SIZE]|
            draws_in_range(ponds, spots, rolls) && #[trigger] same_grid(grid, grid_from_draws(ponds, spots, rolls)),
        forall|x: int, y: int| in_safe_zone(x, y) ==> #[trigger] grid[x][y] == Tile::Empty,
        forall|x: int, y: int| 0 <= x < GRID_SIZE && 0 <= y < GRID_SIZE ==> #[trigger] grid[x][y] != Tile::Bush,
        forall|x: int, y: int| 0 <= x < GRID_SIZE && 0 <= y < GRID_SIZE && #[trigger] grid[x][y] == Tile::TreeTrunk
            ==> 2 <= x < 18 && 2 <= y < 18,
{
    let mut grid = [[Tile::Empty; GRID_SIZE]; GRID_SIZE];
    let ghost mut ponds: Seq<((i32, i32), Seq<(usize, usize)>)> = Seq::empty();
    let num_ponds = random_range(2, 4);
    let mut p: usize = 0;
    while p < num_ponds
        invariant
            p <= num_ponds,
            2 <= num_ponds < 4,
            ponds.len() == p,
            forall|i: int| 0 <= i < ponds.len() ==> {
                let q = #[trigger] ponds[i];
                &&& 2 <= q.0.0 < 18 && 2 <= q.0.1 < 18
                &&& 10 <= q.1.len() < 25
                &&& forall|j: int| 0 <= j < q.1.len() ==> (#[trigger] q.1[j]).1 < 4
            },
            same_grid(grid, grow_ponds(empty_ground(), ponds)),
        decreases num_ponds - p,
    {
        let start_x = random_range(2, 18) as i32;
        let start_y = random_range(2, 18) as i32;
        let pond_size = random_range(10, 25);
        let ghost f0 = grow_ponds(empty_ground(), ponds);
        let ghost start = (start_x, start_y);
        let ghost mut moves: Seq<(usize, usize)> = Seq::empty();
        let mut water_tiles: Vec<(i32, i32)> = Vec::new();
        water_tiles.push((start_x, start_y));
        grid[start_x as usize][start_y as usize] = Tile::Water;
        proof {
            assert(water_tiles@ =~= seq![start]);
        }
        let mut n: usize = 0;
        while n < pond_size
            invariant
                n <= pond_size,
                10 <= pond_size < 25,
                2 <= start.0 < 18,
                2 <= start.1 < 18,
                moves.len() == n,
                forall|j: int| 0 <= j < moves.len() ==> (#[trigger] moves[j]).1 < 4,
                1 <= water_tiles@.len() <= n + 1,
                water_in_grid(water_tiles@),
                same_grid(grid, pond_moves(set_tile(f0, start.0 as int, start.1 as int, Tile::Water), seq![start], moves).0),
                water_tiles@ == pond_moves(set_tile(f0, start.0 as int, start.1 as int, Tile::Water), seq![start], moves).1,
            decreases pond_size - n,
        {
            let idx = random_range(0, water_tiles.len());
            let dir = random_range(0, 4);
            let ghost fcur = pond_moves(set_tile(f0, start.0 as int, start.1 as int, Tile::Water), seq![start], moves).0;
            let ghost g_before = grid;
            pond_step(&mut grid, &mut water_tiles, idx, dir);
            proof {
                let s0 = set_tile(f0, start.0 as int, start.1 as int, Tile::Water);
                let m2 = moves.push((idx, dir));
                assert(m2.drop_last() =~= moves);
                assert(agree(grid_fn(g_before), fcur));
                lemma_pond_moves_agree(grid_fn(g_before), fcur, water_tiles@, seq![]);
                assert(agree(pond_move(grid_fn(g_before), pond_moves(s0, seq![start], moves).1, idx as int, dir as int).0,
                    pond_move(fcur, pond_moves(s0, seq![start], moves).1, idx as int, dir as int).0));
                moves = m2;
                assert(seq![start][0] == start);
                assert(water_in_grid(seq![start]));
                lemma_pond_moves_facts(s0, seq![start], moves);
            }
            n = n + 1;
        }
        proof {
            let q = (start, moves);
            let p2 = ponds.push(q);
            assert(p2.drop_last() =~= ponds);
            assert(p2.last() == q);
            assert forall|i: int| 0 <= i < p2.len() implies {
                let r = #[trigger] p2[i];
                &&& 2 <= r.0.0 < 18 && 2 <= r.0.1 < 18
                &&& 10 <= r.1.len() < 25
                &&& forall|j: int| 0 <= j < r.1.len() ==> (#[trigger] r.1[j]).1 < 4
            } by {
                if i < ponds.len() {
                    assert(p2[i] == ponds[i]);
                }
            }
            ponds = p2;
        }
        p = p + 1;
    }
    let num_trees = random_range(5, 10);
    let mut spots: Vec<(usize, usize)> = Vec::new();
    let mut k: usize = 0;
    while k < num_trees
        invariant
            k <= num_trees,
            5 <= num_trees < 10,
            spots@.len() == k,
            forall|i: int| 0 <= i < spots@.len() ==> 2 <= (#[trigger] spots@[i]).0 < 18 && 2 <= spots@[i].1 < 18,
        decreases num_trees - k,
    {
        let tx = random_range(2, 18);
        let ty = random_range(2, 18);
        spots.push((tx, ty));
        k = k + 1;
    }
    let ghost g_ponds = grid;
    place_trees(&mut grid, &spots);
    let mut rolls = [[0usize; GRID_SIZE]; GRID_SIZE];
    let mut x: usize = 0;
    while x < GRID_SIZE
        invariant
            x <= GRID_SIZE,
            forall|a: int, b: int| 0 <= a < GRID_SIZE && 0 <= b < GRID_SIZE ==> #[trigger] rolls[a][b] < 100,
        decreases GRID_SIZE - x,
    {
        let mut y: usize = 0;
        while y < GRID_SIZE
            invariant
                x < GRID_SIZE,
                y <= GRID_SIZE,
                forall|a: int, b: int| 0 <= a < GRID_SIZE && 0 <= b < GRID_SIZE ==> #[trigger] rolls[a][b] < 100,
            decreases GRID_SIZE - y,
        {
            if grid[x][y] == Tile::Empty {
                rolls[x][y] = random_range(0, 100);
            }
            y = y + 1;
        }
        x = x + 1;
    }
    let ghost g_trees = grid;
    place_bushes(&mut grid, &rolls);
    let ghost g_bushes = grid;
    let mut x: usize = 9;
    while x < 12
        invariant
            9 <= x <= 12,
            forall|a: int, b: int| 0 <= a < GRID_SIZE && 0 <= b < GRID_SIZE ==> #[trigger] grid[a][b] == if in_safe_zone(
                a,
                b,
            ) && a < x {
                Tile::Empty
            } else {
                g_bushes[a][b]
            },
        decreases 12 - x,
    {
        let mut y: usize = 9;
        while y < 12
            invariant
                9 <= x < 12,
                9 <= y <= 12,
                forall|a: int, b: int| 0 <= a < GRID_SIZE && 0 <= b < GRID_SIZE ==> #[trigger] grid[a][b] == if in_safe_zone(
                    a,
                    b,
                ) && (a < x || (a == x && b < y)) {
                    Tile::Empty
                } else {
                    g_bushes[a][b]
                },
            decreases 12 - y,
        {
            grid[x][y] = Tile::Empty;
            y = y + 1;
        }
        x = x + 1;
    }
    proof {
        let fp = grow_ponds(empty_ground(), ponds);
        assert forall|i: int| 0 <= i < spots@.len() implies (#[trigger] spots@[i]).0 < GRID_SIZE && spots@[i].1 < GRID_SIZE by {}
        lemma_plant_trees_agree(grid_fn(g_ponds), fp, spots@);
        assert forall|i: int| 0 <= i < ponds.len() implies 0 <= (#[trigger] ponds[i]).0.0 < GRID_SIZE && 0 <= ponds[i].0.1 < GRID_SIZE by {}
        lemma_grow_ponds_kinds(ponds);
        lemma_plant_trees_kinds(fp, spots@);
        let ft = plant_trees(fp, spots@);
        let fb = grow_bushes(ft, rolls);
        assert(agree(grid_fn(g_trees), ft));
        assert(agree(grid_fn(g_bushes), fb));
        assert(same_grid(grid, grid_from_draws(ponds, spots@, rolls)));
        assert(draws_in_range(ponds, spots@, rolls));
    }
    grid
}

/// Using the faced tile (left click or space): drinking from water when space
/// is pressed, else interacting with the tile. Gives the tile afterwards, the
/// item gained, and whether the player drank.
pub open spec fn grid_use_step(t: Tile, use_pressed: bool, space: bool) -> (Tile, Option<Item>, bool) {
    if use_pressed || space {
        if t == Tile::Water && space {
            (t, None, true)
        } else {
            let r = bush_result(t);
            (r.0, r.1, false)
        }
    } else {
        (t, None, false)
    }
}

/// What acting on the faced tile did: whether the player drank and whether the
/// fishing line was cast.
#[derive(Clone, Copy, PartialEq, Eq, Structural, Debug)]
pub struct GridActions {
    pub drank: bool,
    pub cast_line: bool,
}

/// Acts on the tile the player faces, if it lies inside the grid: using it
/// first, then casting the line (right click) when it is water and the rod is
/// equipped. An item gained goes to the inventory when it fits.
pub fn use_faced_tile(
    grid: &mut [[Tile; GRID_SIZE]; GRID_SIZE],
    face_x: usize,
    face_y: usize,
    inventory: &mut Inventory,
    use_pressed: bool,
    space: bool,
    fish_pressed: bool,
) -> (r: GridActions)
    requires
        face_x < GRID_SIZE && face_y < GRID_SIZE ==> (grid_use_step(old(grid)[face_x as int][face_y as int], use_pressed, space).1
            matches Some(item) ==> old(inventory).total() + item_weight(item) <= u32::MAX),
    ensures
        !(face_x < GRID_SIZE && face_y < GRID_SIZE) ==> *final(grid) == *old(grid) && *final(inventory) == *old(inventory)
            && r == (GridActions { drank: false, cast_line: false }),
        face_x < GRID_SIZE && face_y < GRID_SIZE ==> ({
            let u = grid_use_step(old(grid)[face_x as int][face_y as int], use_pressed, space);
            &&& forall|x: int, y: int| 0 <= x < GRID_SIZE && 0 <= y < GRID_SIZE ==> #[trigger] final(grid)[x][y] == if x
                == face_x && y == face_y {
                u.0
            } else {
                old(grid)[x][y]
            }
            &&& final(inventory).slots@ == match u.1 {
                Some(item) => slots_after_try_add(old(inventory).slots@, item, old(inventory).max_capacity),
                None => old(inventory).slots@,
            }
            &&& r == (GridActions {
                drank: u.2,
                cast_line: fish_pressed && u.0 == Tile::Water && old(inventory).equipped == Some(Item::FishingRod),
            })
        }),
        final(inventory).max_capacity == old(inventory).max_capacity,
        final(inventory).equipped == old(inventory).equipped,
        old(inventory).wf() ==> final(inventory).wf(),
{
    let mut r = GridActions { drank: false, cast_line: false };
    if !(face_x < GRID_SIZE && face_y < GRID_SIZE) {
        return r;
    }
    if use_pressed || space {
        let faced = grid[face_x][face_y];
        if faced == Tile::Water && space {
            r.drank = true;
        } else {
            let mut t = faced;
            let item = t.interact();
            grid[face_x][face_y] = t;
            if let Some(item) = item {
                inventory.try_add_item(item);
            }
        }
    }
    if fish_pressed {
        if grid[face_x][face_y] == Tile::Water && inventory.equipped == Some(Item::FishingRod) {
            r.cast_line = true;
        }
    }
    r
}

} // verus!
