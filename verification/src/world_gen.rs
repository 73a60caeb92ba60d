//! Generation of the starting world by wave function collapse: every cell
//! starts out able to become any of the world's tiles, the most constrained
//! cell is collapsed to one tile picked at random by weight, and the choice is
//! propagated to the neighbours through the adjacency rules until every cell
//! holds a single tile.
use vstd::prelude::*;
use crate::WORLD_SIZE;
use crate::environment::{Direction, Tile, tile_weight};
use crate::environment::water::WaterVariant;
use crate::environment::wfc_rules::{RuleError, RuleRegistry, built_from, dir_index, names_known, parsed_rules};
use crate::rng::random_range;

verus! {

/// Number of cells of the world.
pub const CELL_COUNT: usize = 1681;

/// Position of the middle cell, where the player starts, in the row-major list of cells.
pub const MIDDLE_CELL: usize = 840;

/// A cell of the world being generated and the tiles it may still become.
pub struct Cell {
    pub x: usize,
    pub y: usize,
    pub possibilities: Vec<Tile>,
}

impl Cell {
    /// The number of tiles the cell may still become.
    pub fn entropy(&self) -> (e: usize)
        ensures
            e == self.possibilities@.len(),
    {
        self.possibilities.len()
    }
}

/// Why a world could not be generated.
#[derive(Debug, Clone, PartialEq, Eq)]
pub enum WorldGenError {
    /// The adjacency rules could not be read.
    Rules(RuleError),
    /// The rules left the cell at (x, y) with no tile it could become.
    Deadlock { x: usize, y: usize },
}

/// The tiles the generator places: grass and every piece of water.
pub open spec fn is_wfc_tile(t: Tile) -> bool {
    t == Tile::Grass || t is Water
}

pub open spec fn wfc_tiles() -> Seq<Tile> {
    seq![
        Tile::Grass,
        Tile::Water(WaterVariant::Center),
        Tile::Water(WaterVariant::TopLeft),
        Tile::Water(WaterVariant::Top),
        Tile::Water(WaterVariant::TopRight),
        Tile::Water(WaterVariant::Right),
        Tile::Water(WaterVariant::BottomRight),
        Tile::Water(WaterVariant::Bottom),
        Tile::Water(WaterVariant::BottomLeft),
        Tile::Water(WaterVariant::Left),
        Tile::Water(WaterVariant::InverseCornerTR),
        Tile::Water(WaterVariant::InverseCornerTL),
        Tile::Water(WaterVariant::InverseCornerBL),
        Tile::Water(WaterVariant::InverseCornerBR),
    ]
}

fn all_wfc_tiles() -> (r: Vec<Tile>)
    ensures
        r@ == wfc_tiles(),
{
    let r = vec![
        Tile::Grass,
        Tile::Water(WaterVariant::Center),
        Tile::Water(WaterVariant::TopLeft),
        Tile::Water(WaterVariant::Top),
        Tile::Water(WaterVariant::TopRight),
        Tile::Water(WaterVariant::Right),
        Tile::Water(WaterVariant::BottomRight),
        Tile::Water(WaterVariant::Bottom),
        Tile::Water(WaterVariant::BottomLeft),
        Tile::Water(WaterVariant::Left),
        Tile::Water(WaterVariant::InverseCornerTR),
        Tile::Water(WaterVariant::InverseCornerTL),
        Tile::Water(WaterVariant::InverseCornerBL),
        Tile::Water(WaterVariant::InverseCornerBR),
    ];
    proof {
        assert(r@ =~= wfc_tiles());
    }
    r
}

// ---------------------------------------------------------------------------
// Weighted choice
// ---------------------------------------------------------------------------

/// Sum of the weights of a list of tiles.
pub open spec fn weight_sum(s: Seq<Tile>) -> int
    decreases s.len(),
{
    if s.len() == 0 {
        0
    } else {
        weight_sum(s.drop_last()) + tile_weight(s.last())
    }
}

/// Walks the list subtracting each tile's weight from the roll and gives the
/// first tile at which the roll drops below zero.
pub open spec fn pick_from(s: Seq<Tile>, roll: int) -> Option<Tile>
    decreases s.len(),
{
    if s.len() == 0 {
        None
    } else if roll - tile_weight(s[0]) < 0 {
        Some(s[0])
    } else {
        pick_from(s.drop_first(), roll - tile_weight(s[0]))
    }
}

/// The tile a roll picks from a list: the tile `pick_from` finds, else the first
/// tile, else grass.
pub open spec fn weighted_pick(s: Seq<Tile>, roll: int) -> Tile {
    match pick_from(s, roll) {
        Some(t) => t,
        None => if s.len() > 0 {
            s[0]
        } else {
            Tile::Grass
        },
    }
}

proof fn lemma_tile_weight_range(t: Tile)
    ensures
        1 <= tile_weight(t) <= 50,
{
}

proof fn lemma_weight_sum_bounds(s: Seq<Tile>)
    ensures
        s.len() <= weight_sum(s) <= 50 * s.len(),
    decreases s.len(),
{
    if s.len() > 0 {
        lemma_weight_sum_bounds(s.drop_last());
        lemma_tile_weight_range(s.last());
    }
}

proof fn lemma_weight_sum_take(s: Seq<Tile>, i: int)
    requires
        0 <= i < s.len(),
    ensures
        weight_sum(s.take(i + 1)) == weight_sum(s.take(i)) + tile_weight(s[i]),
{
    assert(s.take(i + 1).drop_last() =~= s.take(i));
}

proof fn lemma_weight_sum_prefix(s: Seq<Tile>, i: int)
    requires
        0 <= i <= s.len(),
    ensures
        weight_sum(s.take(i)) <= weight_sum(s),
    decreases s.len() - i,
{
    if i < s.len() {
        lemma_weight_sum_prefix(s, i + 1);
        lemma_weight_sum_take(s, i);
        lemma_tile_weight_range(s[i]);
    } else {
        assert(s.take(i) =~= s);
    }
}

proof fn lemma_weight_sum_first(s: Seq<Tile>)
    requires
        s.len() > 0,
    ensures
        weight_sum(s) == tile_weight(s[0]) + weight_sum(s.drop_first()),
    decreases s.len(),
{
    if s.len() > 1 {
        lemma_weight_sum_first(s.drop_last());
        assert(s.drop_last().drop_first() =~= s.drop_first().drop_last());
        assert(s.drop_first().last() == s.last());
        assert(s.drop_last()[0] == s[0]);
    } else {
        assert(s.drop_first().len() == 0);
        assert(s.drop_last().len() == 0);
        assert(s.last() == s[0]);
        assert(weight_sum(s.drop_first()) == 0);
        assert(weight_sum(s.drop_last()) == 0);
    }
}

/// A picked tile comes from the list.
proof fn lemma_pick_from_contains(s: Seq<Tile>, roll: int)
    ensures
        pick_from(s, roll) matches Some(t) ==> s.contains(t),
    decreases s.len(),
{
    if s.len() > 0 && roll - tile_weight(s[0]) >= 0 {
        lemma_pick_from_contains(s.drop_first(), roll - tile_weight(s[0]));
        if let Some(t) = pick_from(s.drop_first(), roll - tile_weight(s[0])) {
            let m = choose|m: int| 0 <= m < s.drop_first().len() && s.drop_first()[m] == t;
            assert(s[m + 1] == t);
        }
    } else if s.len() > 0 {
        assert(s[0] == s[0]);
    }
}

/// A roll below the total weight always lands on a tile.
proof fn lemma_pick_from_lands(s: Seq<Tile>, roll: int)
    requires
        0 <= roll < weight_sum(s),
    ensures
        pick_from(s, roll) is Some,
    decreases s.len(),
{
    lemma_weight_sum_first(s);
    if roll - tile_weight(s[0]) >= 0 {
        lemma_pick_from_lands(s.drop_first(), roll - tile_weight(s[0]));
    }
}

/// A weighted pick from a non-empty list is one of its tiles, and a roll below
/// the total weight is decided by the walk itself, never by the fallback.
pub proof fn law_weighted_pick_from_list(s: Seq<Tile>, roll: int)
    requires
        s.len() > 0,
    ensures
        s.contains(weighted_pick(s, roll)),
        0 <= roll < weight_sum(s) ==> pick_from(s, roll) == Some(weighted_pick(s, roll)),
{
    lemma_pick_from_contains(s, roll);
    assert(s[0] == s[0]);
    if 0 <= roll < weight_sum(s) {
        lemma_pick_from_lands(s, roll);
    }
}

/// Picks the tile a roll selects: the roll is reduced by each tile's weight in
/// turn, and the tile at which it drops below zero is taken.
pub fn pick_weighted(possibilities: &Vec<Tile>, roll: i32) -> (t: Tile)
    requires
        roll >= 0,
    ensures
        t == weighted_pick(possibilities@, roll as int),
{
    let ghost s = possibilities@;
    let mut rng_val: i32 = roll;
    let mut i: usize = 0;
    proof {
        assert(s.skip(0) =~= s);
    }
    while i < possibilities.len()
        invariant
            s == possibilities@,
            i <= s.len(),
            rng_val >= 0,
            pick_from(s, roll as int) == pick_from(s.skip(i as int), rng_val as int),
        decreases s.len() - i,
    {
        let tile = possibilities[i];
        proof {
            lemma_tile_weight_range(tile);
            assert(s.skip(i as int)[0] == tile);
            assert(s.skip(i as int).drop_first() =~= s.skip(i as int + 1));
        }
        rng_val = rng_val - tile.weight();
        if rng_val < 0 {
            return tile;
        }
        i = i + 1;
    }
    proof {
        assert(s.skip(i as int).len() == 0);
    }
    if possibilities.len() > 0 {
        possibilities[0]
    } else {
        Tile::Grass
    }
}

/// Picks one of the tiles at random, each with a chance proportional to its weight.
pub fn collapse_with_weights(possibilities: &Vec<Tile>) -> (t: Tile)
    requires
        weight_sum(possibilities@) <= i32::MAX,
    ensures
        possibilities@.len() > 0 ==> possibilities@.contains(t),
        possibilities@.len() == 0 ==> t == Tile::Grass,
        exists|roll: int| 0 <= roll <= weight_sum(possibilities@) && t == weighted_pick(possibilities@, roll),
{
    let ghost s = possibilities@;
    let mut total_weight: i32 = 0;
    let mut i: usize = 0;
    while i < possibilities.len()
        invariant
            s == possibilities@,
            i <= s.len(),
            total_weight == weight_sum(s.take(i as int)),
            weight_sum(s) <= i32::MAX,
        decreases s.len() - i,
    {
        proof {
            lemma_weight_sum_take(s, i as int);
            lemma_weight_sum_prefix(s, i as int + 1);
        }
        total_weight = total_weight + possibilities[i].weight();
        i = i + 1;
    }
    proof {
        assert(s.take(i as int) =~= s);
        lemma_weight_sum_bounds(s);
    }
    let roll = random_range(0, total_weight as usize);
    let t = pick_weighted(possibilities, roll as i32);
    proof {
        if s.len() > 0 {
            law_weighted_pick_from_list(s, roll as int);
        }
    }
    t
}

// ---------------------------------------------------------------------------
// The grid of cells
// ---------------------------------------------------------------------------

/// A cell may still become between one and all of the generator's tiles, and
/// only those.
pub open spec fn cell_ok(c: Cell) -> bool {
    &&& 1 <= c.possibilities@.len() <= 14
    &&& forall|i: int| 0 <= i < c.possibilities@.len() ==> is_wfc_tile(#[trigger] c.possibilities@[i])
}

/// The cells of the world in row-major order (cell (x, y) at `x * 41 + y`), each
/// well formed, with grass fixed at the middle.
pub open spec fn cells_ok(cells: Seq<Cell>) -> bool {
    &&& cells.len() == CELL_COUNT
    &&& forall|i: int| 0 <= i < CELL_COUNT ==> cell_ok(#[trigger] cells[i])
    &&& cells[MIDDLE_CELL as int].possibilities@ == seq![Tile::Grass]
}

/// How far the cells are from being settled: the number of surplus possibilities.
pub open spec fn excess(cells: Seq<Cell>) -> int
    decreases cells.len(),
{
    if cells.len() == 0 {
        0
    } else {
        excess(cells.drop_last()) + cells.last().possibilities@.len() - 1
    }
}

proof fn lemma_excess_nonneg(cells: Seq<Cell>)
    requires
        forall|i: int| 0 <= i < cells.len() ==> (#[trigger] cells[i]).possibilities@.len() >= 1,
    ensures
        excess(cells) >= 0,
    decreases cells.len(),
{
    if cells.len() > 0 {
        assert forall|i: int| 0 <= i < cells.drop_last().len() implies (#[trigger] cells.drop_last()[i]).possibilities@.len() >= 1 by {
            assert(cells.drop_last()[i] == cells[i]);
        }
        lemma_excess_nonneg(cells.drop_last());
        assert(cells.last() == cells[cells.len() - 1]);
    }
}

proof fn lemma_excess_update(cells: Seq<Cell>, i: int, c: Cell)
    requires
        0 <= i < cells.len(),
    ensures
        excess(cells.update(i, c)) == excess(cells) - cells[i].possibilities@.len() + c.possibilities@.len(),
    decreases cells.len(),
{
    if i == cells.len() - 1 {
        assert(cells.update(i, c).drop_last() =~= cells.drop_last());
    } else {
        lemma_excess_update(cells.drop_last(), i, c);
        assert(cells.update(i, c).drop_last() =~= cells.drop_last().update(i, c));
    }
}

/// The number of cells that may still become more than one tile.
pub open spec fn open_count(cells: Seq<Cell>) -> int
    decreases cells.len(),
{
    if cells.len() == 0 {
        0
    } else {
        open_count(cells.drop_last()) + if cells.last().possibilities@.len() > 1 { 1int } else { 0int }
    }
}

proof fn lemma_open_count_update(cells: Seq<Cell>, i: int, c: Cell)
    requires
        0 <= i < cells.len(),
    ensures
        open_count(cells.update(i, c)) == open_count(cells) - (if cells[i].possibilities@.len() > 1 { 1int } else { 0int })
            + (if c.possibilities@.len() > 1 { 1int } else { 0int }),
    decreases cells.len(),
{
    if i == cells.len() - 1 {
        assert(cells.update(i, c).drop_last() =~= cells.drop_last());
    } else {
        lemma_open_count_update(cells.drop_last(), i, c);
        assert(cells.update(i, c).drop_last() =~= cells.drop_last().update(i, c));
    }
}

/// The neighbour of cell (x, y) in direction `d`, if it lies inside the world.
pub open spec fn neighbor_of(x: int, y: int, d: Direction) -> Option<(int, int)> {
    match d {
        Direction::North => if y > 0 { Some((x, y - 1)) } else { None },
        Direction::East => if x + 1 < WORLD_SIZE { Some((x + 1, y)) } else { None },
        Direction::South => if y + 1 < WORLD_SIZE { Some((x, y + 1)) } else { None },
        Direction::West => if x > 0 { Some((x - 1, y)) } else { None },
    }
}

fn neighbor(x: usize, y: usize, d: Direction) -> (r: Option<(usize, usize)>)
    requires
        x < WORLD_SIZE,
        y < WORLD_SIZE,
    ensures
        r is None <==> neighbor_of(x as int, y as int, d) is None,
        r matches Some((a, b)) ==> a < WORLD_SIZE && b < WORLD_SIZE && neighbor_of(x as int, y as int, d) == Some((a as int, b as int)),
{
    match d {
        Direction::North => if y > 0 { Some((x, y - 1)) } else { None },
        Direction::East => if x + 1 < WORLD_SIZE { Some((x + 1, y)) } else { None },
        Direction::South => if y + 1 < WORLD_SIZE { Some((x, y + 1)) } else { None },
        Direction::West => if x > 0 { Some((x - 1, y)) } else { None },
    }
}

fn copy_tiles(v: &Vec<Tile>) -> (r: Vec<Tile>)
    ensures
        r@ == v@,
{
    let mut r: Vec<Tile> = Vec::new();
    let mut i: usize = 0;
    while i < v.len()
        invariant
            i <= v.len(),
            r@ == v@.take(i as int),
        decreases v.len() - i,
    {
        r.push(v[i]);
        i = i + 1;
        proof {
            assert(r@ =~= v@.take(i as int));
        }
    }
    proof {
        assert(v@.take(i as int) =~= v@);
    }
    r
}

/// Some tile of `current` lets `t` lie in direction `dir` of it.
pub open spec fn allowed_by_any(registry: RuleRegistry, current: Seq<Tile>, dir: Direction, t: Tile) -> bool {
    exists|m: int| 0 <= m < current.len() && #[trigger] registry.allows(current[m], dir, t)
}

/// Collects every tile that some tile of `current` allows in direction `dir`.
fn allowed_by(registry: &RuleRegistry, current: &Vec<Tile>, dir: Direction) -> (r: Vec<Tile>)
    requires
        registry.wf(),
    ensures
        forall|t: Tile| #[trigger] r@.contains(t) == allowed_by_any(*registry, current@, dir, t),
{
    let mut out: Vec<Tile> = Vec::new();
    let mut i: usize = 0;
    while i < current.len()
        invariant
            registry.wf(),
            i <= current.len(),
            forall|t: Tile| #[trigger] out@.contains(t) == allowed_by_any(*registry, current@.take(i as int), dir, t),
        decreases current.len() - i,
    {
        let list = registry.allowed(current[i], dir);
        let ghost before = out@;
        let mut n: usize = 0;
        while n < list.len()
            invariant
                registry.wf(),
                i < current.len(),
                n <= list.len(),
                forall|t: Tile| #[trigger] list@.contains(t) == registry.allows(current@[i as int], dir, t),
                out@ == before + list@.take(n as int),
                forall|t: Tile| #[trigger] before.contains(t) == allowed_by_any(*registry, current@.take(i as int), dir, t),
            decreases list.len() - n,
        {
            out.push(list[n]);
            n = n + 1;
            proof {
                assert(out@ =~= before + list@.take(n as int));
            }
        }
        proof {
            assert(list@.take(n as int) =~= list@);
            let c = current@.take(i as int + 1);
            assert forall|t: Tile| #[trigger] out@.contains(t) == allowed_by_any(*registry, c, dir, t) by {
                if out@.contains(t) {
                    let k = choose|k: int| 0 <= k < out@.len() && out@[k] == t;
                    if k < before.len() {
                        assert(before[k] == t);
                        assert(before.contains(t));
                        let m = choose|m: int| 0 <= m < current@.take(i as int).len() && #[trigger] registry.allows(current@.take(i as int)[m], dir, t);
                        assert(c[m] == current@.take(i as int)[m]);
                    } else {
                        assert(list@[k - before.len()] == t);
                        assert(list@.contains(t));
                        assert(c[i as int] == current@[i as int]);
                    }
                }
                if allowed_by_any(*registry, c, dir, t) {
                    let m = choose|m: int| 0 <= m < c.len() && #[trigger] registry.allows(c[m], dir, t);
                    if m < i {
                        assert(current@.take(i as int)[m] == c[m]);
                        assert(allowed_by_any(*registry, current@.take(i as int), dir, t));
                        assert(before.contains(t));
                        let k = choose|k: int| 0 <= k < before.len() && before[k] == t;
                        assert(out@[k] == t);
                    } else {
                        assert(list@.contains(t));
                        let k = choose|k: int| 0 <= k < list@.len() && list@[k] == t;
                        assert(out@[before.len() + k] == t);
                    }
                }
            }
        }
        i = i + 1;
    }
    proof {
        assert(current@.take(i as int) =~= current@);
    }
    out
}

/// The tiles of `poss`, in order, that `allowed` holds.
pub open spec fn kept_by(poss: Seq<Tile>, allowed: Seq<Tile>) -> Seq<Tile> {
    poss.filter(|t: Tile| allowed.contains(t))
}

/// Keeps, in order, the tiles of `poss` that `allowed` holds.
fn keep_allowed(poss: &Vec<Tile>, allowed: &Vec<Tile>) -> (r: Vec<Tile>)
    ensures
        r@ == kept_by(poss@, allowed@),
{
    let ghost pred = |t: Tile| allowed@.contains(t);
    let mut r: Vec<Tile> = Vec::new();
    let mut i: usize = 0;
    proof {
        reveal(Seq::filter);
        assert(poss@.take(0).filter(pred) =~= Seq::<Tile>::empty());
    }
    while i < poss.len()
        invariant
            i <= poss.len(),
            pred == (|t: Tile| allowed@.contains(t)),
            r@ == poss@.take(i as int).filter(pred),
        decreases poss.len() - i,
    {
        let t = poss[i];
        proof {
            assert(poss@.take(i as int + 1) =~= poss@.take(i as int).push(t));
            poss@.take(i as int).lemma_filter_push(t, pred);
        }
        if list_has(allowed, t) {
            r.push(t);
        }
        i = i + 1;
    }
    proof {
        assert(poss@.take(i as int) =~= poss@);
    }
    r
}

fn list_has(v: &Vec<Tile>, t: Tile) -> (r: bool)
    ensures
        r == v@.contains(t),
{
    let mut i: usize = 0;
    while i < v.len()
        invariant
            i <= v.len(),
            forall|j: int| 0 <= j < i ==> v@[j] != t,
        decreases v.len() - i,
    {
        if v[i] == t {
            return true;
        }
        i = i + 1;
    }
    false
}

/// Narrowing a cell keeps exactly the tiles it could already become that the
/// rules allow next to the changed cell.
pub proof fn law_narrowing_keeps_allowed(poss: Seq<Tile>, allowed: Seq<Tile>, t: Tile)
    ensures
        kept_by(poss, allowed).contains(t) == (poss.contains(t) && allowed.contains(t)),
{
    let pred = |x: Tile| allowed.contains(x);
    let f = poss.filter(pred);
    if f.contains(t) {
        poss.lemma_filter_contains_rev(pred, t);
        let i = choose|i: int| 0 <= i < f.len() && f[i] == t;
        poss.lemma_filter_pred(pred, i);
    }
    if poss.contains(t) && allowed.contains(t) {
        let i = choose|i: int| 0 <= i < poss.len() && poss[i] == t;
        poss.lemma_filter_contains(pred, i);
    }
}

/// Facts about a filtered list of possibilities.
proof fn lemma_kept(poss: Seq<Tile>, allowed: Seq<Tile>)
    requires
        forall|i: int| 0 <= i < poss.len() ==> is_wfc_tile(#[trigger] poss[i]),
    ensures
        kept_by(poss, allowed).len() <= poss.len(),
        forall|i: int| 0 <= i < kept_by(poss, allowed).len() ==> is_wfc_tile(#[trigger] kept_by(poss, allowed)[i]),
{
    let pred = |t: Tile| allowed.contains(t);
    let f = poss.filter(pred);
    poss.lemma_filter_len(pred);
    assert forall|i: int| 0 <= i < f.len() implies is_wfc_tile(#[trigger] f[i]) by {
        assert(f.contains(f[i]));
        poss.lemma_filter_contains_rev(pred, f[i]);
        let j = choose|j: int| 0 <= j < poss.len() && poss[j] == f[i];
        assert(is_wfc_tile(poss[j]));
    }
}

/// Position of cell (x, y) in the row-major list of cells.
pub open spec fn cell_index(x: int, y: int) -> int {
    x * WORLD_SIZE + y
}

/// `to` is down to at most one tile (whatever the rules say of it), or every
/// tile it may still become is allowed in direction `dir` of some tile of `from`.
pub open spec fn supported_unless_decided(registry: RuleRegistry, from: Seq<Tile>, dir: Direction, to: Seq<Tile>) -> bool {
    to.len() <= 1 || forall|j: int| 0 <= j < to.len() ==> #[trigger] allowed_by_any(registry, from, dir, to[j])
}

/// The cell in direction `d` of (x, y), if any, is down to at most one tile
/// or supported by (x, y).
pub open spec fn arc_supported_unless_decided(registry: RuleRegistry, cells: Seq<Cell>, x: int, y: int, d: Direction) -> bool {
    match neighbor_of(x, y, d) {
        Some((a, b)) => supported_unless_decided(
            registry,
            cells[cell_index(x, y)].possibilities@,
            d,
            cells[cell_index(a, b)].possibilities@,
        ),
        None => true,
    }
}

/// The arc from (x, y) in direction `d` must hold once a change at
/// (start_x, start_y) has spread: it starts at that cell, or at a cell that the
/// spreading changed, or it held before.
pub open spec fn arc_due(
    registry: RuleRegistry,
    before: Seq<Cell>,
    cells: Seq<Cell>,
    start_x: int,
    start_y: int,
    x: int,
    y: int,
    d: Direction,
) -> bool {
    ||| x == start_x && y == start_y
    ||| cells[cell_index(x, y)].possibilities@ != before[cell_index(x, y)].possibilities@
    ||| arc_supported_unless_decided(registry, before, x, y, d)
}

/// Every cell keeps its coordinates.
pub open spec fn same_coords(before: Seq<Cell>, cells: Seq<Cell>) -> bool {
    &&& cells.len() == before.len()
    &&& forall|i: int| 0 <= i < cells.len() ==> (#[trigger] cells[i]).x == before[i].x && cells[i].y == before[i].y
}

/// Every tile a cell may become is one it could already become before.
pub open spec fn narrowed(before: Seq<Cell>, cells: Seq<Cell>) -> bool {
    &&& cells.len() == before.len()
    &&& forall|i: int, t: Tile| 0 <= i < cells.len() && #[trigger] cells[i].possibilities@.contains(t) ==> before[i].possibilities@.contains(t)
}

spec fn in_stack(stack: Seq<(usize, usize)>, x: int, y: int) -> bool {
    exists|m: int| 0 <= m < stack.len() && #[trigger] stack[m] == (x as usize, y as usize)
}

/// A due arc holds, or its cell waits on the stack, or it is one of the arcs of
/// the cell (cx, cy) whose direction has not been handled yet.
spec fn arc_settled(
    registry: RuleRegistry,
    before: Seq<Cell>,
    cells: Seq<Cell>,
    stack: Seq<(usize, usize)>,
    start_x: int,
    start_y: int,
    cx: int,
    cy: int,
    k: int,
    x: int,
    y: int,
    d: Direction,
) -> bool {
    arc_due(registry, before, cells, start_x, start_y, x, y, d) ==> {
        ||| in_stack(stack, x, y)
        ||| arc_supported_unless_decided(registry, cells, x, y, d)
        ||| (x == cx && y == cy && dir_index(d) >= k)
    }
}

spec fn all_settled(
    registry: RuleRegistry,
    before: Seq<Cell>,
    cells: Seq<Cell>,
    stack: Seq<(usize, usize)>,
    start_x: int,
    start_y: int,
    cx: int,
    cy: int,
    k: int,
) -> bool {
    forall|x: int, y: int, d: Direction|
        0 <= x < WORLD_SIZE && 0 <= y < WORLD_SIZE ==> #[trigger] arc_settled(
            registry,
            before,
            cells,
            stack,
            start_x,
            start_y,
            cx,
            cy,
            k,
            x,
            y,
            d,
        )
}

proof fn lemma_cell_index_inj(x: int, y: int, a: int, b: int)
    requires
        0 <= x < WORLD_SIZE,
        0 <= y < WORLD_SIZE,
        0 <= a < WORLD_SIZE,
        0 <= b < WORLD_SIZE,
        cell_index(x, y) == cell_index(a, b),
    ensures
        x == a,
        y == b,
{
    assert(x * 41 + y == a * 41 + b);
    assert(x == a && y == b) by (nonlinear_arith)
        requires
            0 <= x < 41,
            0 <= y < 41,
            0 <= a < 41,
            0 <= b < 41,
            x * 41 + y == a * 41 + b,
    ;
}

proof fn lemma_cell_index_range(x: int, y: int)
    requires
        0 <= x < WORLD_SIZE,
        0 <= y < WORLD_SIZE,
    ensures
        0 <= cell_index(x, y) < CELL_COUNT,
{
    assert(0 <= x * 41 + y < 1681) by (nonlinear_arith)
        requires
            0 <= x < 41,
            0 <= y < 41,
    ;
}

proof fn lemma_neighbor_range(x: int, y: int, d: Direction)
    requires
        0 <= x < WORLD_SIZE,
        0 <= y < WORLD_SIZE,
    ensures
        neighbor_of(x, y, d) matches Some((a, b)) ==> 0 <= a < WORLD_SIZE && 0 <= b < WORLD_SIZE,
{
}

/// A filter that keeps as many elements as it was given keeps them all.
proof fn lemma_filter_keeps_all(s: Seq<Tile>, pred: spec_fn(Tile) -> bool)
    requires
        s.filter(pred).len() == s.len(),
    ensures
        s.filter(pred) == s,
    decreases s.len(),
{
    reveal(Seq::filter);
    if s.len() > 0 {
        s.drop_last().lemma_filter_len(pred);
        if pred(s.last()) {
            lemma_filter_keeps_all(s.drop_last(), pred);
            assert(s.drop_last().push(s.last()) =~= s);
        }
    }
}

/// Right after the cell (cx, cy) is taken off the stack, its own arcs are the
/// ones still pending.
proof fn lemma_settled_after_pop(
    registry: RuleRegistry,
    before: Seq<Cell>,
    cells: Seq<Cell>,
    stack: Seq<(usize, usize)>,
    start_x: int,
    start_y: int,
    cx: usize,
    cy: usize,
)
    requires
        stack.len() > 0,
        stack.last() == (cx, cy),
        all_settled(registry, before, cells, stack, start_x, start_y, 0, 0, 4),
    ensures
        all_settled(registry, before, cells, stack.drop_last(), start_x, start_y, cx as int, cy as int, 0),
{
    let s1 = stack.drop_last();
    assert forall|x: int, y: int, d: Direction|
        0 <= x < WORLD_SIZE && 0 <= y < WORLD_SIZE implies #[trigger] arc_settled(
            registry,
            before,
            cells,
            s1,
            start_x,
            start_y,
            cx as int,
            cy as int,
            0,
            x,
            y,
            d,
        ) by {
        assert(arc_settled(registry, before, cells, stack, start_x, start_y, 0, 0, 4, x, y, d));
        if arc_due(registry, before, cells, start_x, start_y, x, y, d) && in_stack(stack, x, y) && !(x == cx && y == cy) {
            let m = choose|m: int| 0 <= m < stack.len() && #[trigger] stack[m] == (x as usize, y as usize);
            assert(m != stack.len() - 1);
            assert(s1[m] == stack[m]);
        }
    }
}

/// Handling a direction in which nothing changes: the arc of (cx, cy) in that
/// direction already holds.
proof fn lemma_settled_skip(
    registry: RuleRegistry,
    before: Seq<Cell>,
    cells: Seq<Cell>,
    stack: Seq<(usize, usize)>,
    start_x: int,
    start_y: int,
    cx: int,
    cy: int,
    k: int,
    d: Direction,
)
    requires
        dir_index(d) == k,
        arc_supported_unless_decided(registry, cells, cx, cy, d),
        all_settled(registry, before, cells, stack, start_x, start_y, cx, cy, k),
    ensures
        all_settled(registry, before, cells, stack, start_x, start_y, cx, cy, k + 1),
{
    assert forall|x: int, y: int, e: Direction|
        0 <= x < WORLD_SIZE && 0 <= y < WORLD_SIZE implies #[trigger] arc_settled(
            registry,
            before,
            cells,
            stack,
            start_x,
            start_y,
            cx,
            cy,
            k + 1,
            x,
            y,
            e,
        ) by {
        assert(arc_settled(registry, before, cells, stack, start_x, start_y, cx, cy, k, x, y, e));
    }
}

/// Narrowing the neighbour (nx, ny) of (cx, cy) in direction `d` to tiles that
/// (cx, cy) supports settles that arc; the neighbour goes on the stack when it
/// changed, and every other arc stays as it was or is kept by the narrowing.
proof fn lemma_settled_narrow(
    registry: RuleRegistry,
    before: Seq<Cell>,
    cells: Seq<Cell>,
    cells1: Seq<Cell>,
    stack: Seq<(usize, usize)>,
    stack1: Seq<(usize, usize)>,
    start_x: int,
    start_y: int,
    cx: int,
    cy: int,
    k: int,
    d: Direction,
    nx: usize,
    ny: usize,
    changed: bool,
)
    requires
        0 <= cx < WORLD_SIZE,
        0 <= cy < WORLD_SIZE,
        cells.len() == CELL_COUNT,
        dir_index(d) == k,
        neighbor_of(cx, cy, d) == Some((nx as int, ny as int)),
        nx < WORLD_SIZE,
        ny < WORLD_SIZE,
        cells1.len() == CELL_COUNT,
        forall|i: int| 0 <= i < CELL_COUNT && i != cell_index(nx as int, ny as int) ==> #[trigger] cells1[i] == cells[i],
        forall|t: Tile| #[trigger] cells1[cell_index(nx as int, ny as int)].possibilities@.contains(t)
            ==> cells[cell_index(nx as int, ny as int)].possibilities@.contains(t),
        cells1[cell_index(nx as int, ny as int)].possibilities@.len() <= cells[cell_index(nx as int, ny as int)].possibilities@.len(),
        forall|j: int| 0 <= j < cells1[cell_index(nx as int, ny as int)].possibilities@.len()
            ==> #[trigger] allowed_by_any(registry, cells[cell_index(cx, cy)].possibilities@, d,
                cells1[cell_index(nx as int, ny as int)].possibilities@[j]),
        changed ==> stack1 == stack.push((nx, ny)),
        !changed ==> stack1 == stack && cells1[cell_index(nx as int, ny as int)].possibilities@
            == cells[cell_index(nx as int, ny as int)].possibilities@,
        all_settled(registry, before, cells, stack, start_x, start_y, cx, cy, k),
    ensures
        all_settled(registry, before, cells1, stack1, start_x, start_y, cx, cy, k + 1),
{
    let n = cell_index(nx as int, ny as int);
    let p = cell_index(cx, cy);
    lemma_cell_index_range(nx as int, ny as int);
    lemma_cell_index_range(cx, cy);
    assert(p != n) by {
        if p == n {
            lemma_cell_index_inj(cx, cy, nx as int, ny as int);
        }
    }
    if changed {
        assert(stack1[stack.len() as int] == (nx, ny));
    }
    assert forall|x: int, y: int, e: Direction|
        0 <= x < WORLD_SIZE && 0 <= y < WORLD_SIZE implies #[trigger] arc_settled(
            registry,
            before,
            cells1,
            stack1,
            start_x,
            start_y,
            cx,
            cy,
            k + 1,
            x,
            y,
            e,
        ) by {
        assert(arc_settled(registry, before, cells, stack, start_x, start_y, cx, cy, k, x, y, e));
        let i = cell_index(x, y);
        lemma_cell_index_range(x, y);
        lemma_neighbor_range(x, y, e);
        if in_stack(stack, x, y) {
            let m = choose|m: int| 0 <= m < stack.len() && #[trigger] stack[m] == (x as usize, y as usize);
            assert(stack1[m] == stack[m]);
        }
        if i == n {
            lemma_cell_index_inj(x, y, nx as int, ny as int);
            if !changed {
                assert(cells1[i].possibilities@ == cells[i].possibilities@);
                if let Some((a, b)) = neighbor_of(x, y, e) {
                    lemma_cell_index_range(a, b);
                    if cell_index(a, b) != n {
                        assert(cells1[cell_index(a, b)] == cells[cell_index(a, b)]);
                    }
                }
            } else {
                assert(stack1[stack.len() as int] == (x as usize, y as usize));
            }
        } else {
            assert(cells1[i] == cells[i]);
            if let Some((a, b)) = neighbor_of(x, y, e) {
                lemma_cell_index_range(a, b);
                let jn = cell_index(a, b);
                if jn != n {
                    assert(cells1[jn] == cells[jn]);
                } else {
                    lemma_cell_index_inj(a, b, nx as int, ny as int);
                    let to = cells[n].possibilities@;
                    let to1 = cells1[n].possibilities@;
                    let from = cells[i].possibilities@;
                    if x == cx && y == cy && e == d {
                        assert(supported_unless_decided(registry, from, e, to1));
                    } else if arc_supported_unless_decided(registry, cells, x, y, e) && to1.len() > 1 {
                                        assert forall|j: int| 0 <= j < to1.len() implies #[trigger] allowed_by_any(registry, from, e, to1[j]) by {
                            assert(to1.contains(to1[j]));
                            let q = choose|q: int| 0 <= q < to.len() && to[q] == to1[j];
                            assert(allowed_by_any(registry, from, e, to[q]));
                        }
                    }
                }
            }
        }
    }
}

/// The tiles each cell may still become.
pub open spec fn doms(cells: Seq<Cell>) -> Seq<Seq<Tile>> {
    cells.map_values(|c: Cell| c.possibilities@)
}

/// The directions in the order a cell's neighbours are visited.
pub open spec fn dir_at(k: int) -> Direction {
    if k == 0 {
        Direction::North
    } else if k == 1 {
        Direction::East
    } else if k == 2 {
        Direction::South
    } else {
        Direction::West
    }
}

/// The tiles that some tile of `current` allows in direction `dir`.
pub open spec fn allowed_pred(registry: RuleRegistry, current: Seq<Tile>, dir: Direction) -> spec_fn(Tile) -> bool {
    |t: Tile| allowed_by_any(registry, current, dir, t)
}

/// Narrowing the neighbour of (cx, cy) in direction `dir`, when it has more than
/// one tile left, to the tiles some tile of `current` allows there: the cell
/// with nothing left is an error; a neighbour that lost tiles goes on the stack.
pub open spec fn narrow_toward(
    registry: RuleRegistry,
    doms: Seq<Seq<Tile>>,
    stack: Seq<(usize, usize)>,
    cx: int,
    cy: int,
    current: Seq<Tile>,
    dir: Direction,
) -> Result<(Seq<Seq<Tile>>, Seq<(usize, usize)>), (usize, usize)> {
    match neighbor_of(cx, cy, dir) {
        None => Ok((doms, stack)),
        Some((nx, ny)) => {
            let q = doms[cell_index(nx, ny)];
            if q.len() > 1 {
                let kept = q.filter(allowed_pred(registry, current, dir));
                if kept.len() == 0 {
                    Err((nx as usize, ny as usize))
                } else {
                    Ok((
                        doms.update(cell_index(nx, ny), kept),
                        if kept.len() < q.len() { stack.push((nx as usize, ny as usize)) } else { stack },
                    ))
                }
            } else {
                Ok((doms, stack))
            }
        },
    }
}

/// Narrowing the neighbours of (cx, cy) in the directions from the `k`-th on.
pub open spec fn narrow_from(
    registry: RuleRegistry,
    doms: Seq<Seq<Tile>>,
    stack: Seq<(usize, usize)>,
    cx: int,
    cy: int,
    current: Seq<Tile>,
    k: int,
) -> Result<(Seq<Seq<Tile>>, Seq<(usize, usize)>), (usize, usize)>
    decreases 4 - k,
{
    if k >= 4 {
        Ok((doms, stack))
    } else {
        match narrow_toward(registry, doms, stack, cx, cy, current, dir_at(k)) {
            Err(e) => Err(e),
            Ok((d2, s2)) => narrow_from(registry, d2, s2, cx, cy, current, k + 1),
        }
    }
}

/// Spreading: the cell on top of the stack is taken off and narrows its
/// neighbours, for at most `rounds` cells; the error names the cell left with
/// no tile.
pub open spec fn spread(registry: RuleRegistry, doms: Seq<Seq<Tile>>, stack: Seq<(usize, usize)>, rounds: nat) -> Result<
    Seq<Seq<Tile>>,
    (usize, usize),
>
    decreases rounds,
{
    if stack.len() == 0 || rounds == 0 {
        Ok(doms)
    } else {
        let (cx, cy) = stack.last();
        match narrow_from(registry, doms, stack.drop_last(), cx as int, cy as int, doms[cell_index(cx as int, cy as int)], 0) {
            Err(e) => Err(e),
            Ok((d2, s2)) => spread(registry, d2, s2, (rounds - 1) as nat),
        }
    }
}

/// Enough rounds for spreading in a well-formed world to run out of cells: it
/// takes at most one round per cell on the stack plus one per tile removed.
pub open spec fn spread_rounds() -> nat {
    21854
}

proof fn lemma_excess_upper(cells: Seq<Cell>)
    requires
        forall|i: int| 0 <= i < cells.len() ==> (#[trigger] cells[i]).possibilities@.len() <= 14,
    ensures
        excess(cells) <= 13 * cells.len(),
    decreases cells.len(),
{
    if cells.len() > 0 {
        assert forall|i: int| 0 <= i < cells.drop_last().len() implies (#[trigger] cells.drop_last()[i]).possibilities@.len() <= 14 by {
            assert(cells.drop_last()[i] == cells[i]);
        }
        lemma_excess_upper(cells.drop_last());
        assert(cells.last() == cells[cells.len() - 1]);
    }
}

proof fn lemma_doms_update(cells: Seq<Cell>, i: int, c: Cell)
    requires
        0 <= i < cells.len(),
    ensures
        doms(cells.update(i, c)) == doms(cells).update(i, c.possibilities@),
{
    assert(doms(cells.update(i, c)) =~= doms(cells).update(i, c.possibilities@));
}

/// Spreads the consequences of a change at (start_x, start_y): every cell that
/// changes narrows the tiles its undecided neighbours may still become to those
/// the rules allow next to one of its own, and changed neighbours spread in turn.
/// On success every arc from the start cell, from a cell that changed, or that
/// held before, holds; cells only ever lose tiles.
fn propagate(cells: &mut Vec<Cell>, registry: &RuleRegistry, start_x: usize, start_y: usize) -> (r: Result<(), WorldGenError>)
    requires
        registry.wf(),
        cells_ok(old(cells)@),
        start_x < WORLD_SIZE,
        start_y < WORLD_SIZE,
    ensures
        r is Ok ==> cells_ok(final(cells)@) && excess(final(cells)@) <= excess(old(cells)@),
        r is Ok ==> forall|x: int, y: int, d: Direction|
            0 <= x < WORLD_SIZE && 0 <= y < WORLD_SIZE
                && #[trigger] arc_due(*registry, old(cells)@, final(cells)@, start_x as int, start_y as int, x, y, d)
                ==> arc_supported_unless_decided(*registry, final(cells)@, x, y, d),
        narrowed(old(cells)@, final(cells)@),
        same_coords(old(cells)@, final(cells)@),
        r matches Err(e) ==> e is Deadlock,
        r is Ok ==> open_count(final(cells)@) <= open_count(old(cells)@),
        match spread(*registry, doms(old(cells)@), seq![(start_x, start_y)], spread_rounds()) {
            Ok(d) => r is Ok && doms(final(cells)@) == d,
            Err((x, y)) => r matches Err(WorldGenError::Deadlock { x: a, y: b }) && a == x && b == y,
        },
{
    let ghost before = cells@;
    let ghost sx = start_x as int;
    let ghost sy = start_y as int;
    let mut stack: Vec<(usize, usize)> = Vec::new();
    stack.push((start_x, start_y));
    let ghost mut rounds: nat = spread_rounds();
    proof {
        lemma_excess_nonneg(cells@);
        assert forall|i: int| 0 <= i < cells@.len() implies (#[trigger] cells@[i]).possibilities@.len() <= 14 by {
            assert(cell_ok(cells@[i]));
        }
        lemma_excess_upper(cells@);
        assert(stack@ =~= seq![(start_x, start_y)]);
        assert(stack@[0] == (start_x, start_y));
        assert forall|x: int, y: int, d: Direction|
            0 <= x < WORLD_SIZE && 0 <= y < WORLD_SIZE implies #[trigger] arc_settled(
                *registry, before, cells@, stack@, sx, sy, 0, 0, 4, x, y, d) by {
            if x == sx && y == sy {
                assert(stack@[0] == (x as usize, y as usize));
            }
        }
    }
    loop
        invariant
            registry.wf(),
            before == old(cells)@,
            sx == start_x,
            sy == start_y,
            cells_ok(cells@),
            narrowed(before, cells@),
            same_coords(before, cells@),
            excess(cells@) <= excess(old(cells)@),
            excess(cells@) >= 0,
            forall|m: int| 0 <= m < stack@.len() ==> (#[trigger] stack@[m]).0 < WORLD_SIZE && stack@[m].1 < WORLD_SIZE,
            all_settled(*registry, before, cells@, stack@, sx, sy, 0, 0, 4),
            open_count(cells@) <= open_count(before),
            stack@.len() + excess(cells@) <= rounds,
            spread(*registry, doms(before), seq![(start_x, start_y)], spread_rounds())
                == spread(*registry, doms(cells@), stack@, rounds),
        ensures
            same_coords(before, cells@),
            open_count(cells@) <= open_count(before),
            spread(*registry, doms(before), seq![(start_x, start_y)], spread_rounds()) == Ok::<Seq<Seq<Tile>>, (usize, usize)>(doms(cells@)),
            cells_ok(cells@),
            narrowed(before, cells@),
            excess(cells@) <= excess(old(cells)@),
            all_settled(*registry, before, cells@, stack@, sx, sy, 0, 0, 4),
            stack@.len() == 0,
        decreases excess(cells@), stack@.len(),
    {
        let ghost stack0 = stack@;
        let top = stack.pop();
        match top {
            None => {
                break;
            },
            Some((cx, cy)) => {
                let ghost e0 = excess(cells@);
                let ghost s0 = stack@.len();
                let ghost d0 = doms(cells@);
                let ghost target = narrow_from(*registry, d0, stack@, cx as int, cy as int, d0[cell_index(cx as int, cy as int)], 0);
                let ghost o0 = open_count(cells@);
                proof {
                    lemma_settled_after_pop(*registry, before, cells@, stack0, sx, sy, cx, cy);
                    assert(stack@ == stack0.drop_last());
                    assert(rounds >= 1);
                    assert(stack0.last() == (cx, cy));
                }
                let current = copy_tiles(&cells[cx * WORLD_SIZE + cy].possibilities);
                let dirs = [Direction::North, Direction::East, Direction::South, Direction::West];
                let mut k: usize = 0;
                while k < 4
                    invariant
                        registry.wf(),
                        before == old(cells)@,
                        cells_ok(cells@),
                        narrowed(before, cells@),
                        same_coords(before, cells@),
                        k <= 4,
                        dirs@ == seq![Direction::North, Direction::East, Direction::South, Direction::West],
                        cx < WORLD_SIZE,
                        cy < WORLD_SIZE,
                        current@ == cells@[cell_index(cx as int, cy as int)].possibilities@,
                        excess(cells@) <= e0,
                        e0 <= excess(old(cells)@),
                        stack@.len() + excess(cells@) <= s0 + e0,
                        stack@.len() >= s0,
                        forall|m: int| 0 <= m < stack@.len() ==> (#[trigger] stack@[m]).0 < WORLD_SIZE && stack@[m].1 < WORLD_SIZE,
                        all_settled(*registry, before, cells@, stack@, sx, sy, cx as int, cy as int, k as int),
                        open_count(cells@) <= o0,
                        o0 <= open_count(before),
                        current@ == d0[cell_index(cx as int, cy as int)],
                        narrow_from(*registry, doms(cells@), stack@, cx as int, cy as int, current@, k as int) == target,
                        spread(*registry, doms(before), seq![(start_x, start_y)], spread_rounds()) == match target {
                            Err(e) => Err(e),
                            Ok((d2, s2)) => spread(*registry, d2, s2, (rounds - 1) as nat),
                        },
                        rounds >= 1,
                    decreases 4 - k,
                {
                    let dir = dirs[k];
                    let ghost dk = doms(cells@);
                    let ghost sk = stack@;
                    proof {
                        assert(dir_index(dir) == k);
                        assert(dir == dir_at(k as int));
                        lemma_cell_index_range(cx as int, cy as int);
                    }
                    match neighbor(cx, cy, dir) {
                        None => {
                            proof {
                                assert(narrow_toward(*registry, dk, sk, cx as int, cy as int, current@, dir) == Ok::<(Seq<Seq<Tile>>, Seq<(usize, usize)>), (usize, usize)>((dk, sk)));
                                lemma_settled_skip(*registry, before, cells@, stack@, sx, sy, cx as int, cy as int, k as int, dir);
                            }
                        },
                        Some((nx, ny)) => {
                            let nidx = nx * WORLD_SIZE + ny;
                            proof {
                                lemma_cell_index_range(nx as int, ny as int);
                                assert(nidx as int == cell_index(nx as int, ny as int));
                            }
                            if cells[nidx].entropy() > 1 {
                                let count_before = cells[nidx].possibilities.len();
                                let allowed = allowed_by(registry, &current, dir);
                                let kept = keep_allowed(&cells[nidx].possibilities, &allowed);
                                let ghost pred = |t: Tile| allowed@.contains(t);
                                let ghost to = cells@[nidx as int].possibilities@;
                                proof {
                                    lemma_kept(to, allowed@);
                                    assert(pred =~= allowed_pred(*registry, current@, dir));
                                    assert(kept@ == to.filter(allowed_pred(*registry, current@, dir)));
                                    assert(dk[nidx as int] == to);
                                    assert forall|j: int| 0 <= j < kept@.len() implies #[trigger] allowed_by_any(
                                        *registry, current@, dir, kept@[j]) by {
                                        to.lemma_filter_pred(pred, j);
                                        assert(allowed@.contains(kept@[j]));
                                    }
                                    assert forall|t: Tile| #[trigger] kept@.contains(t) implies to.contains(t) by {
                                        to.lemma_filter_contains_rev(pred, t);
                                    }
                                    if kept@.len() == to.len() {
                                        lemma_filter_keeps_all(to, pred);
                                    }
                                }
                                if kept.len() == 0 {
                                    return Err(WorldGenError::Deadlock { x: nx, y: ny });
                                }
                                let kept_len = kept.len();
                                let cell_x = cells[nidx].x;
                                let cell_y = cells[nidx].y;
                                let ghost cells0 = cells@;
                                let ghost st0 = stack@;
                                cells.set(nidx, Cell { x: cell_x, y: cell_y, possibilities: kept });
                                proof {
                                    lemma_doms_update(cells0, nidx as int, cells@[nidx as int]);
                                    lemma_open_count_update(cells0, nidx as int, cells@[nidx as int]);
                                    lemma_excess_update(cells0, nidx as int, cells@[nidx as int]);
                                    assert(nidx != MIDDLE_CELL);
                                    assert forall|i: int| 0 <= i < CELL_COUNT implies cell_ok(#[trigger] cells@[i]) by {
                                        if i != nidx {
                                            assert(cells@[i] == cells0[i]);
                                        }
                                    }
                                    assert forall|i: int, t: Tile| 0 <= i < cells@.len() && #[trigger] cells@[i].possibilities@.contains(t)
                                        implies before[i].possibilities@.contains(t) by {
                                        if i != nidx {
                                            assert(cells@[i] == cells0[i]);
                                        }
                                        assert(cells0[i].possibilities@.contains(t));
                                    }
                                    assert forall|i: int| 0 <= i < cells@.len() implies (#[trigger] cells@[i]).x == before[i].x && cells@[i].y == before[i].y by {
                                        if i != nidx {
                                            assert(cells@[i] == cells0[i]);
                                        }
                                    }
                                    assert(cells@[cell_index(cx as int, cy as int)] == cells0[cell_index(cx as int, cy as int)]) by {
                                        if cell_index(cx as int, cy as int) == nidx {
                                            lemma_cell_index_inj(cx as int, cy as int, nx as int, ny as int);
                                        }
                                    }
                                }
                                if kept_len < count_before {
                                    stack.push((nx, ny));
                                }
                                proof {
                                    assert(narrow_toward(*registry, dk, sk, cx as int, cy as int, current@, dir)
                                        == Ok::<(Seq<Seq<Tile>>, Seq<(usize, usize)>), (usize, usize)>((doms(cells@), stack@)));
                                    lemma_settled_narrow(
                                        *registry, before, cells0, cells@, st0, stack@, sx, sy,
                                        cx as int, cy as int, k as int, dir, nx, ny, kept_len < count_before,
                                    );
                                }
                            } else {
                                proof {
                                    assert(narrow_toward(*registry, dk, sk, cx as int, cy as int, current@, dir) == Ok::<(Seq<Seq<Tile>>, Seq<(usize, usize)>), (usize, usize)>((dk, sk)));
                                    lemma_settled_skip(*registry, before, cells@, stack@, sx, sy, cx as int, cy as int, k as int, dir);
                                }
                            }
                        },
                    }
                    k = k + 1;
                }
                proof {
                    assert forall|i: int| 0 <= i < cells@.len() implies (#[trigger] cells@[i]).possibilities@.len() >= 1 by {
                        assert(cell_ok(cells@[i]));
                    }
                    lemma_excess_nonneg(cells@);
                    assert(target == Ok::<(Seq<Seq<Tile>>, Seq<(usize, usize)>), (usize, usize)>((doms(cells@), stack@)));
                    rounds = (rounds - 1) as nat;
                    assert forall|x: int, y: int, d: Direction|
                        0 <= x < WORLD_SIZE && 0 <= y < WORLD_SIZE implies #[trigger] arc_settled(
                            *registry, before, cells@, stack@, sx, sy, 0, 0, 4, x, y, d) by {
                        assert(arc_settled(*registry, before, cells@, stack@, sx, sy, cx as int, cy as int, 4, x, y, d));
                    }
                }
            },
        }
    }
    proof {
        assert forall|x: int, y: int, d: Direction|
            0 <= x < WORLD_SIZE && 0 <= y < WORLD_SIZE
                && #[trigger] arc_due(*registry, before, cells@, sx, sy, x, y, d)
                implies arc_supported_unless_decided(*registry, cells@, x, y, d) by {
            assert(arc_settled(*registry, before, cells@, stack@, sx, sy, 0, 0, 4, x, y, d));
        }
    }
    Ok(())
}

/// The fewest tiles any cell with more than one tile left may still become;
/// 9999 when every cell is down to one tile.
pub open spec fn min_open_len(doms: Seq<Seq<Tile>>) -> int
    decreases doms.len(),
{
    if doms.len() == 0 {
        9999
    } else {
        let m = min_open_len(doms.drop_last());
        let l = doms.last().len();
        if l > 1 && l < m {
            l as int
        } else {
            m
        }
    }
}

/// The cells among the first `n` (in row-major order) that may still become
/// exactly `m` tiles, as (x, y).
pub open spec fn candidates_upto(doms: Seq<Seq<Tile>>, m: int, n: nat) -> Seq<(usize, usize)>
    decreases n,
{
    if n == 0 {
        Seq::empty()
    } else {
        let prev = candidates_upto(doms, m, (n - 1) as nat);
        if doms[n - 1].len() == m {
            prev.push((((n - 1) / WORLD_SIZE as int) as usize, ((n - 1) % WORLD_SIZE as int) as usize))
        } else {
            prev
        }
    }
}

/// The cells with the fewest tiles left among those with more than one, in
/// row-major order; none when every cell is down to one tile.
pub open spec fn candidates(doms: Seq<Seq<Tile>>) -> Seq<(usize, usize)> {
    if min_open_len(doms) == 9999 {
        Seq::empty()
    } else {
        candidates_upto(doms, min_open_len(doms), CELL_COUNT as nat)
    }
}

/// One round of the collapse: the `pick`-th candidate cell becomes the tile the
/// roll picks by weight, and the change spreads from it.
pub open spec fn collapse_result(registry: RuleRegistry, doms: Seq<Seq<Tile>>, pick: int, roll: int) -> Result<
    Seq<Seq<Tile>>,
    (usize, usize),
> {
    let c = candidates(doms)[pick];
    let i = cell_index(c.0 as int, c.1 as int);
    spread(registry, doms.update(i, seq![weighted_pick(doms[i], roll)]), seq![c], spread_rounds())
}

/// The whole collapse driven by the given draws, a cell pick and a weight roll
/// per round, each in its range: the settled world, or the cell that ran out of
/// tiles; `None` when the draws do not fit the run.
pub open spec fn wfc_run(registry: RuleRegistry, doms: Seq<Seq<Tile>>, draws: Seq<(usize, i32)>) -> Option<
    Result<Seq<Seq<Tile>>, (usize, usize)>,
>
    decreases draws.len(),
{
    let cands = candidates(doms);
    if draws.len() == 0 {
        if cands.len() == 0 {
            Some(Ok(doms))
        } else {
            None
        }
    } else if cands.len() == 0 {
        None
    } else {
        let (pick, roll) = draws[0];
        if pick < cands.len() && 0 <= roll < weight_sum(doms[cell_index(cands[pick as int].0 as int, cands[pick as int].1 as int)]) {
            match collapse_result(registry, doms, pick as int, roll as int) {
                Err(e) => if draws.len() == 1 {
                    Some(Err(e))
                } else {
                    None
                },
                Ok(d2) => wfc_run(registry, d2, draws.drop_first()),
            }
        } else {
            None
        }
    }
}

/// The world before the collapse: grass at the middle, every other cell able
/// to become any of the generator's tiles.
pub open spec fn initial_doms() -> Seq<Seq<Tile>> {
    Seq::new(CELL_COUNT as nat, |i: int| if i == MIDDLE_CELL { seq![Tile::Grass] } else { wfc_tiles() })
}

proof fn lemma_index_div_mod(x: int, y: int)
    requires
        0 <= x,
        0 <= y < WORLD_SIZE,
    ensures
        (x * WORLD_SIZE + y) / WORLD_SIZE as int == x,
        (x * WORLD_SIZE + y) % WORLD_SIZE as int == y,
{
    assert((x * 41 + y) / 41 == x && (x * 41 + y) % 41 == y) by (nonlinear_arith)
        requires
            0 <= x,
            0 <= y < 41,
    ;
}

proof fn lemma_open_count_le(cells: Seq<Cell>)
    ensures
        0 <= open_count(cells) <= cells.len(),
    decreases cells.len(),
{
    if cells.len() > 0 {
        lemma_open_count_le(cells.drop_last());
    }
}

/// The cells with the fewest tiles left among those with more than one, in
/// row-major order, as (x, y); none when every cell is down to one tile.
pub fn lowest_entropy_cells(cells: &Vec<Cell>) -> (r: Vec<(usize, usize)>)
    requires
        cells_ok(cells@),
    ensures
        r@ == candidates(doms(cells@)),
        r@.len() == 0 <==> forall|i: int| 0 <= i < CELL_COUNT ==> (#[trigger] cells@[i]).possibilities@.len() == 1,
        forall|m: int| 0 <= m < r@.len() ==> (#[trigger] r@[m]).0 < WORLD_SIZE && r@[m].1 < WORLD_SIZE
            && cells@[cell_index(r@[m].0 as int, r@[m].1 as int)].possibilities@.len() > 1,
        r@.len() <= CELL_COUNT,
{
    let ghost d = doms(cells@);
    let mut min_entropy: usize = 9999;
    let mut i: usize = 0;
    while i < CELL_COUNT
        invariant
            cells_ok(cells@),
            d == doms(cells@),
            i <= CELL_COUNT,
            min_entropy == min_open_len(d.take(i as int)),
            min_entropy == 9999 || (1 < min_entropy <= 14 && exists|j: int| 0 <= j < i && (#[trigger] cells@[j]).possibilities@.len() == min_entropy),
            forall|j: int| 0 <= j < i && (#[trigger] cells@[j]).possibilities@.len() > 1 ==> min_entropy <= cells@[j].possibilities@.len(),
        decreases CELL_COUNT - i,
    {
        let e = cells[i].entropy();
        proof {
            assert(d.take(i as int + 1).drop_last() =~= d.take(i as int));
            assert(d.take(i as int + 1).last() == cells@[i as int].possibilities@);
        }
        if e > 1 && e < min_entropy {
            min_entropy = e;
        }
        i = i + 1;
    }
    proof {
        assert(d.take(i as int) =~= d);
    }
    let mut lowest: Vec<(usize, usize)> = Vec::new();
    if min_entropy == 9999 {
        proof {
            assert forall|j: int| 0 <= j < CELL_COUNT implies (#[trigger] cells@[j]).possibilities@.len() == 1 by {
                assert(cell_ok(cells@[j]));
            }
        }
        return lowest;
    }
    let mut x: usize = 0;
    while x < WORLD_SIZE
        invariant
            cells_ok(cells@),
            d == doms(cells@),
            x <= WORLD_SIZE,
            1 < min_entropy <= 14,
            min_entropy == min_open_len(d),
            lowest@ == candidates_upto(d, min_entropy as int, (x * WORLD_SIZE) as nat),
            lowest@.len() > 0 || forall|j: int| 0 <= j < x * WORLD_SIZE ==> (#[trigger] cells@[j]).possibilities@.len() != min_entropy,
            forall|m: int| 0 <= m < lowest@.len() ==> (#[trigger] lowest@[m]).0 < WORLD_SIZE
                && lowest@[m].1 < WORLD_SIZE
                && cells@[lowest@[m].0 * WORLD_SIZE + lowest@[m].1].possibilities@.len() == min_entropy,
            lowest@.len() <= x * WORLD_SIZE,
            exists|j: int| 0 <= j < CELL_COUNT && (#[trigger] cells@[j]).possibilities@.len() == min_entropy,
        decreases WORLD_SIZE - x,
    {
        let mut y: usize = 0;
        while y < WORLD_SIZE
            invariant
                cells_ok(cells@),
                d == doms(cells@),
                x < WORLD_SIZE,
                y <= WORLD_SIZE,
                1 < min_entropy <= 14,
                min_entropy == min_open_len(d),
                lowest@ == candidates_upto(d, min_entropy as int, (x * WORLD_SIZE + y) as nat),
                lowest@.len() > 0 || forall|j: int| 0 <= j < x * WORLD_SIZE + y ==> (#[trigger] cells@[j]).possibilities@.len() != min_entropy,
                forall|m: int| 0 <= m < lowest@.len() ==> (#[trigger] lowest@[m]).0 < WORLD_SIZE
                    && lowest@[m].1 < WORLD_SIZE
                    && cells@[lowest@[m].0 * WORLD_SIZE + lowest@[m].1].possibilities@.len() == min_entropy,
                lowest@.len() <= x * WORLD_SIZE + y,
                exists|j: int| 0 <= j < CELL_COUNT && (#[trigger] cells@[j]).possibilities@.len() == min_entropy,
            decreases WORLD_SIZE - y,
        {
            proof {
                lemma_index_div_mod(x as int, y as int);
                lemma_cell_index_range(x as int, y as int);
            }
            if cells[x * WORLD_SIZE + y].entropy() == min_entropy {
                lowest.push((x, y));
            }
            y = y + 1;
        }
        x = x + 1;
    }
    proof {
        if lowest@.len() == 0 {
            let j = choose|j: int| 0 <= j < CELL_COUNT && (#[trigger] cells@[j]).possibilities@.len() == min_entropy;
            assert(cells@[j].possibilities@.len() != min_entropy);
        }
        assert(!(forall|i: int| 0 <= i < CELL_COUNT ==> (#[trigger] cells@[i]).possibilities@.len() == 1)) by {
            let j = choose|j: int| 0 <= j < CELL_COUNT && (#[trigger] cells@[j]).possibilities@.len() == min_entropy;
        }
    }
    lowest
}

/// Sum of the weights of the tiles.
fn weight_total(possibilities: &Vec<Tile>) -> (total: i32)
    requires
        weight_sum(possibilities@) <= i32::MAX,
    ensures
        total == weight_sum(possibilities@),
{
    let ghost s = possibilities@;
    let mut total_weight: i32 = 0;
    let mut i: usize = 0;
    while i < possibilities.len()
        invariant
            s == possibilities@,
            i <= s.len(),
            total_weight == weight_sum(s.take(i as int)),
            weight_sum(s) <= i32::MAX,
        decreases s.len() - i,
    {
        proof {
            lemma_weight_sum_take(s, i as int);
            lemma_weight_sum_prefix(s, i as int + 1);
        }
        total_weight = total_weight + possibilities[i].weight();
        i = i + 1;
    }
    proof {
        assert(s.take(i as int) =~= s);
    }
    total_weight
}

/// One round of the collapse with its draws given: the `pick`-th of the cells
/// with the fewest tiles left becomes the tile `roll` picks by weight, and the
/// change spreads to the rest of the world, exactly as `collapse_result` says.
pub fn collapse_step(cells: &mut Vec<Cell>, registry: &RuleRegistry, pick: usize, roll: i32) -> (r: Result<(), WorldGenError>)
    requires
        registry.wf(),
        cells_ok(old(cells)@),
        pick < candidates(doms(old(cells)@)).len(),
        roll >= 0,
    ensures
        match collapse_result(*registry, doms(old(cells)@), pick as int, roll as int) {
            Ok(d) => r is Ok && doms(final(cells)@) == d,
            Err((x, y)) => r matches Err(WorldGenError::Deadlock { x: a, y: b }) && a == x && b == y,
        },
        r is Ok ==> cells_ok(final(cells)@) && open_count(final(cells)@) < open_count(old(cells)@),
        narrowed(old(cells)@, final(cells)@),
        same_coords(old(cells)@, final(cells)@),
{
    let ghost d0 = doms(cells@);
    let cands = lowest_entropy_cells(cells);
    let (cx, cy) = cands[pick];
    let idx = cx * WORLD_SIZE + cy;
    proof {
        lemma_cell_index_range(cx as int, cy as int);
        assert(cell_ok(cells@[idx as int]));
        assert(d0[idx as int] == cells@[idx as int].possibilities@);
    }
    let chosen_tile = pick_weighted(&cells[idx].possibilities, roll);
    let cell_x = cells[idx].x;
    let cell_y = cells[idx].y;
    let ghost before = cells@;
    cells.set(idx, Cell { x: cell_x, y: cell_y, possibilities: vec![chosen_tile] });
    proof {
        let poss = before[idx as int].possibilities@;
        law_weighted_pick_from_list(poss, roll as int);
        let m = choose|m: int| 0 <= m < poss.len() && poss[m] == chosen_tile;
        assert(cell_ok(before[idx as int]));
        assert(is_wfc_tile(poss[m]));
        assert(cells@[idx as int].possibilities@ =~= seq![chosen_tile]);
        lemma_doms_update(before, idx as int, cells@[idx as int]);
        lemma_open_count_update(before, idx as int, cells@[idx as int]);
        assert(idx != MIDDLE_CELL) by {
            assert(before[MIDDLE_CELL as int].possibilities@.len() == 1);
        }
        assert forall|i: int| 0 <= i < CELL_COUNT implies cell_ok(#[trigger] cells@[i]) by {
            if i != idx {
                assert(cells@[i] == before[i]);
            }
        }
        assert(cands@[pick as int] == (cx, cy));
        assert forall|i: int, t: Tile| 0 <= i < cells@.len() && #[trigger] cells@[i].possibilities@.contains(t)
            implies before[i].possibilities@.contains(t) by {
            if i == idx {
                let p = cells@[i].possibilities@;
                assert(p[0] == chosen_tile);
            } else {
                assert(cells@[i] == before[i]);
            }
        }
    }
    let ghost after_set = cells@;
    proof {
        assert forall|i: int| 0 <= i < cells@.len() implies (#[trigger] cells@[i]).x == before[i].x && cells@[i].y == before[i].y by {
            if i != idx {
                assert(cells@[i] == before[i]);
            }
        }
    }
    let r = propagate(cells, registry, cx, cy);
    proof {
        assert forall|i: int| 0 <= i < cells@.len() implies (#[trigger] cells@[i]).x == before[i].x && cells@[i].y == before[i].y by {
            assert(cells@[i].x == after_set[i].x);
        }
        assert forall|i: int, t: Tile| 0 <= i < cells@.len() && #[trigger] cells@[i].possibilities@.contains(t)
            implies before[i].possibilities@.contains(t) by {
            assert(after_set[i].possibilities@.contains(t));
        }
    }
    r
}

/// Each cell of the settled world holds exactly the grid's tile.
pub open spec fn grid_matches(grid: [[Tile; WORLD_SIZE]; WORLD_SIZE], d: Seq<Seq<Tile>>) -> bool {
    forall|x: int, y: int| 0 <= x < WORLD_SIZE && 0 <= y < WORLD_SIZE ==> #[trigger] d[cell_index(x, y)] == seq![grid[x][y]]
}

/// The collapse driven by `draws` settles the world into `grid`.
pub open spec fn run_gives_grid(registry: RuleRegistry, draws: Seq<(usize, i32)>, grid: [[Tile; WORLD_SIZE]; WORLD_SIZE]) -> bool {
    match wfc_run(registry, initial_doms(), draws) {
        Some(Ok(d)) => grid_matches(grid, d),
        _ => false,
    }
}

proof fn lemma_open_count_pos(cells: Seq<Cell>, i: int)
    requires
        0 <= i < cells.len(),
        cells[i].possibilities@.len() > 1,
    ensures
        open_count(cells) >= 1,
    decreases cells.len(),
{
    lemma_open_count_le(cells.drop_last());
    if i < cells.len() - 1 {
        assert(cells.drop_last()[i] == cells[i]);
        lemma_open_count_pos(cells.drop_last(), i);
    }
}

/// Collapses the world cell by cell until every cell holds one tile. The cell
/// collapsed next is picked at random among the cells with the fewest
/// possibilities left, and its tile at random by weight. The outcome is what
/// `wfc_run` gives for some draws in their ranges, at most one round per cell;
/// which draws come out is left open.
pub fn run_wave_function_collapse(registry: &RuleRegistry) -> (r: Result<[[Tile; WORLD_SIZE]; WORLD_SIZE], WorldGenError>)
    requires
        registry.wf(),
    ensures
        r matches Ok(grid) ==> grid[20][20] == Tile::Grass && forall|x: int, y: int|
            0 <= x < WORLD_SIZE && 0 <= y < WORLD_SIZE ==> is_wfc_tile(#[trigger] grid[x][y]),
        r matches Ok(grid) ==> exists|draws: Seq<(usize, i32)>| draws.len() <= CELL_COUNT
            && #[trigger] run_gives_grid(*registry, draws, grid),
        r matches Err(e) ==> e is Deadlock,
        r matches Err(WorldGenError::Deadlock { x, y }) ==> exists|draws: Seq<(usize, i32)>| draws.len() <= CELL_COUNT
            && #[trigger] wfc_run(*registry, initial_doms(), draws) == Some(Err::<Seq<Seq<Tile>>, (usize, usize)>((x, y))),
{
    let mut cells: Vec<Cell> = Vec::new();
    let mut x: usize = 0;
    while x < WORLD_SIZE
        invariant
            x <= WORLD_SIZE,
            cells@.len() == x * WORLD_SIZE,
            forall|i: int| 0 <= i < cells@.len() ==> cell_ok(#[trigger] cells@[i]),
            forall|i: int| 0 <= i < cells@.len() ==> (#[trigger] cells@[i]).possibilities@ == wfc_tiles(),
        decreases WORLD_SIZE - x,
    {
        let mut y: usize = 0;
        while y < WORLD_SIZE
            invariant
                x < WORLD_SIZE,
                y <= WORLD_SIZE,
                cells@.len() == x * WORLD_SIZE + y,
                forall|i: int| 0 <= i < cells@.len() ==> cell_ok(#[trigger] cells@[i]),
                forall|i: int| 0 <= i < cells@.len() ==> (#[trigger] cells@[i]).possibilities@ == wfc_tiles(),
            decreases WORLD_SIZE - y,
        {
            let possibilities = all_wfc_tiles();
            cells.push(Cell { x, y, possibilities });
            proof {
                assert(cell_ok(cells@[cells@.len() - 1]));
            }
            y = y + 1;
        }
        x = x + 1;
    }
    let middle = WORLD_SIZE / 2;
    cells.set(middle * WORLD_SIZE + middle, Cell { x: middle, y: middle, possibilities: vec![Tile::Grass] });
    let ghost mut done: Seq<(usize, i32)> = Seq::empty();
    proof {
        assert(cells@[MIDDLE_CELL as int].possibilities@ =~= seq![Tile::Grass]);
        assert(cells_ok(cells@));
        lemma_excess_nonneg(cells@);
        assert(doms(cells@) =~= initial_doms());
        assert forall|rest: Seq<(usize, i32)>| #[trigger] wfc_run(*registry, initial_doms(), done + rest) == wfc_run(*registry, doms(cells@), rest) by {
            assert(done + rest =~= rest);
        }
        lemma_open_count_le(cells@);
    }
    loop
        invariant
            registry.wf(),
            cells_ok(cells@),
            forall|rest: Seq<(usize, i32)>| #[trigger] wfc_run(*registry, initial_doms(), done + rest) == wfc_run(*registry, doms(cells@), rest),
            done.len() + open_count(cells@) <= CELL_COUNT,
            open_count(cells@) >= 0,
        ensures
            cells_ok(cells@),
            forall|i: int| 0 <= i < CELL_COUNT ==> (#[trigger] cells@[i]).possibilities@.len() == 1,
            done.len() <= CELL_COUNT,
            wfc_run(*registry, initial_doms(), done) == Some(Ok::<Seq<Seq<Tile>>, (usize, usize)>(doms(cells@))),
        decreases open_count(cells@),
    {
        let cands = lowest_entropy_cells(&cells);
        if cands.len() == 0 {
            proof {
                assert(done + Seq::<(usize, i32)>::empty() =~= done);
                assert(wfc_run(*registry, initial_doms(), done + Seq::<(usize, i32)>::empty()) == wfc_run(*registry, doms(cells@), Seq::<(usize, i32)>::empty()));
            }
            break;
        }
        let pick = random_range(0, cands.len());
        let (cx, cy) = cands[pick];
        let idx = cx * WORLD_SIZE + cy;
        proof {
            lemma_cell_index_range(cx as int, cy as int);
            assert(cell_ok(cells@[idx as int]));
            lemma_weight_sum_bounds(cells@[idx as int].possibilities@);
            lemma_open_count_pos(cells@, idx as int);
        }
        let total = weight_total(&cells[idx].possibilities);
        let roll = random_range(0, total as usize) as i32;
        let ghost draw = (pick, roll);
        let ghost d_before = doms(cells@);
        let res = collapse_step(&mut cells, registry, pick, roll);
        match res {
            Err(e) => {
                proof {
                    let s = seq![draw];
                    assert(s[0] == draw);
                    assert(wfc_run(*registry, initial_doms(), done + s) == wfc_run(*registry, d_before, s));
                    assert(done.push(draw) =~= done + s);
                }
                return Err(e);
            },
            Ok(()) => {},
        }
        proof {
            let d_after = doms(cells@);
            assert forall|rest: Seq<(usize, i32)>| #[trigger] wfc_run(*registry, initial_doms(), done.push(draw) + rest) == wfc_run(*registry, d_after, rest) by {
                let s = seq![draw] + rest;
                assert(done.push(draw) + rest =~= done + s);
                assert(s[0] == draw);
                assert(s.drop_first() =~= rest);
                assert(wfc_run(*registry, initial_doms(), done + s) == wfc_run(*registry, d_before, s));
            }
            done = done.push(draw);
            lemma_open_count_le(cells@);
        }
    }
    let mut final_grid = [[Tile::Grass; WORLD_SIZE]; WORLD_SIZE];
    let ghost d_final = doms(cells@);
    let mut x: usize = 0;
    while x < WORLD_SIZE
        invariant
            cells_ok(cells@),
            d_final == doms(cells@),
            forall|i: int| 0 <= i < CELL_COUNT ==> (#[trigger] cells@[i]).possibilities@.len() == 1,
            x <= WORLD_SIZE,
            final_grid[20][20] == Tile::Grass,
            forall|a: int, b: int| 0 <= a < WORLD_SIZE && 0 <= b < WORLD_SIZE ==> is_wfc_tile(#[trigger] final_grid[a][b]),
            forall|a: int, b: int| 0 <= a < x && 0 <= b < WORLD_SIZE ==> #[trigger] d_final[cell_index(a, b)] == seq![final_grid[a][b]],
        decreases WORLD_SIZE - x,
    {
        let mut y: usize = 0;
        while y < WORLD_SIZE
            invariant
                cells_ok(cells@),
                d_final == doms(cells@),
                forall|i: int| 0 <= i < CELL_COUNT ==> (#[trigger] cells@[i]).possibilities@.len() == 1,
                x < WORLD_SIZE,
                y <= WORLD_SIZE,
                final_grid[20][20] == Tile::Grass,
                forall|a: int, b: int| 0 <= a < WORLD_SIZE && 0 <= b < WORLD_SIZE ==> is_wfc_tile(#[trigger] final_grid[a][b]),
                forall|a: int, b: int| 0 <= a < WORLD_SIZE && 0 <= b < WORLD_SIZE && (a < x || (a == x && b < y))
                    ==> #[trigger] d_final[cell_index(a, b)] == seq![final_grid[a][b]],
            decreases WORLD_SIZE - y,
        {
            let t = cells[x * WORLD_SIZE + y].possibilities[0];
            proof {
                lemma_cell_index_range(x as int, y as int);
                assert(cell_ok(cells@[x * WORLD_SIZE + y]));
                assert(cells@[x * WORLD_SIZE + y].possibilities@ =~= seq![t]);
                if x == 20 && y == 20 {
                    assert(x * WORLD_SIZE + y == MIDDLE_CELL);
                }
            }
            final_grid[x][y] = t;
            proof {
                assert forall|a: int, b: int| 0 <= a < WORLD_SIZE && 0 <= b < WORLD_SIZE && (a < x || (a == x && b < y + 1))
                    implies #[trigger] d_final[cell_index(a, b)] == seq![final_grid[a][b]] by {
                    if a == x && b == y {
                        assert(d_final[cell_index(a, b)] == cells@[x * WORLD_SIZE + y].possibilities@);
                    }
                }
            }
            y = y + 1;
        }
        x = x + 1;
    }
    proof {
        assert(grid_matches(final_grid, d_final));
        assert(run_gives_grid(*registry, done, final_grid));
    }
    Ok(final_grid)
}

/// The rules text reads as rules with every name known, and `registry`
/// allows exactly what they say.
pub open spec fn rules_give(text: Seq<char>, registry: RuleRegistry) -> bool {
    match parsed_rules(text) {
        Some(e) => built_from(Ok(registry), e),
        None => false,
    }
}

/// Generates the starting world from the text of the adjacency rules.
pub fn generate_wfc_grid(rules_json: &str) -> (r: Result<[[Tile; WORLD_SIZE]; WORLD_SIZE], WorldGenError>)
    ensures
        parsed_rules(rules_json@) is None ==> r matches Err(WorldGenError::Rules(RuleError::Json)),
        parsed_rules(rules_json@) matches Some(e) && !names_known(e) ==> r matches Err(WorldGenError::Rules(_)),
        r matches Err(WorldGenError::Rules(err)) ==> parsed_rules(rules_json@) is None || (parsed_rules(rules_json@) matches Some(e) && !names_known(e)),
        r matches Ok(grid) ==> grid[20][20] == Tile::Grass && forall|x: int, y: int|
            0 <= x < WORLD_SIZE && 0 <= y < WORLD_SIZE ==> is_wfc_tile(#[trigger] grid[x][y]),
        r matches Ok(grid) ==> exists|registry: RuleRegistry, draws: Seq<(usize, i32)>|
            rules_give(rules_json@, registry) && draws.len() <= CELL_COUNT && #[trigger] run_gives_grid(registry, draws, grid),
        r matches Err(WorldGenError::Deadlock { x, y }) ==> exists|registry: RuleRegistry, draws: Seq<(usize, i32)>|
            rules_give(rules_json@, registry) && draws.len() <= CELL_COUNT
                && #[trigger] wfc_run(registry, initial_doms(), draws) == Some(Err::<Seq<Seq<Tile>>, (usize, usize)>((x, y))),
{
    match RuleRegistry::new(rules_json) {
        Err(e) => Err(WorldGenError::Rules(e)),
        Ok(registry) => run_wave_function_collapse(&registry),
    }
}

} // verus!
