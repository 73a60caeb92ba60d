//! Bookkeeping of the chunks of the endless world: which are loaded, which are
//! being generated, and which are far enough from the player to unload.
use vstd::prelude::*;
use std::collections::HashMap;
use crate::chunk::Chunk;

verus! {

broadcast use vstd::std_specs::hash::group_hash_axioms;

/// The key under which the chunk at offset (x, y) is kept: both coordinates
/// shifted to be non-negative and packed into one number.
pub open spec fn chunk_key_of(x: i32, y: i32) -> u64 {
    ((x as int + 0x8000_0000) * 0x1_0000_0000 + (y as int + 0x8000_0000)) as u64
}

/// The key of the chunk at offset (x, y), as `chunk_key_of` says.
pub fn chunk_key(chunk_x: i32, chunk_y: i32) -> (k: u64)
    ensures
        k == chunk_key_of(chunk_x, chunk_y),
{
    let hi: u64 = (chunk_x as i64 + 0x8000_0000) as u64;
    let lo: u64 = (chunk_y as i64 + 0x8000_0000) as u64;
    hi * 0x1_0000_0000 + lo
}

/// Different offsets have different keys.
pub proof fn law_chunk_keys_distinct(a: i32, b: i32, c: i32, d: i32)
    ensures
        chunk_key_of(a, b) == chunk_key_of(c, d) ==> a == c && b == d,
{
    let p = a as int + 0x8000_0000;
    let q = b as int + 0x8000_0000;
    let r = c as int + 0x8000_0000;
    let s = d as int + 0x8000_0000;
    assert(0 <= p * 0x1_0000_0000 + q <= u64::MAX) by (nonlinear_arith)
        requires
            0 <= p < 0x1_0000_0000,
            0 <= q < 0x1_0000_0000,
    ;
    assert(0 <= r * 0x1_0000_0000 + s <= u64::MAX) by (nonlinear_arith)
        requires
            0 <= r < 0x1_0000_0000,
            0 <= s < 0x1_0000_0000,
    ;
    assert(p * 0x1_0000_0000 + q == r * 0x1_0000_0000 + s ==> p == r && q == s) by (nonlinear_arith)
        requires
            0 <= p < 0x1_0000_0000,
            0 <= q < 0x1_0000_0000,
            0 <= r < 0x1_0000_0000,
            0 <= s < 0x1_0000_0000,
    ;
}

pub open spec fn abs_diff(a: i32, b: i32) -> int {
    if a >= b { a - b } else { b - a }
}

/// Chunk `c` lies within `radius` chunks of the player's chunk on both axes.
pub open spec fn within_radius(c: Chunk, player_chunk_x: i32, player_chunk_y: i32, radius: i32) -> bool {
    abs_diff(c.chunk_x, player_chunk_x) <= radius && abs_diff(c.chunk_y, player_chunk_y) <= radius
}

/// Every chunk is kept under the key of its own offset.
pub open spec fn keyed_by_offset(m: Map<u64, Chunk>) -> bool {
    forall|k: u64| #[trigger] m.contains_key(k) ==> k == chunk_key_of(m[k].chunk_x, m[k].chunk_y)
}

/// The loaded chunks after the given chunks arrive in order: each is stored
/// under its key, a later one replacing an earlier one at the same offset.
pub open spec fn loaded_after(m: Map<u64, Chunk>, incoming: Seq<Chunk>) -> Map<u64, Chunk>
    decreases incoming.len(),
{
    if incoming.len() == 0 {
        m
    } else {
        let c = incoming.last();
        loaded_after(m, incoming.drop_last()).insert(chunk_key_of(c.chunk_x, c.chunk_y), c)
    }
}

/// The chunks being generated after the given chunks arrive: each arrival ends
/// the generation at its offset.
pub open spec fn generating_after(g: Map<u64, bool>, incoming: Seq<Chunk>) -> Map<u64, bool>
    decreases incoming.len(),
{
    if incoming.len() == 0 {
        g
    } else {
        let c = incoming.last();
        generating_after(g, incoming.drop_last()).remove(chunk_key_of(c.chunk_x, c.chunk_y))
    }
}

/// The loaded chunks that lie within `radius` of the player's chunk.
pub open spec fn nearby_chunks(m: Map<u64, Chunk>, player_chunk_x: i32, player_chunk_y: i32, radius: i32) -> Map<u64, Chunk> {
    Map::new(|k: u64| m.contains_key(k) && within_radius(m[k], player_chunk_x, player_chunk_y, radius), |k: u64| m[k])
}

/// The player's own chunk is within any radius that is not negative.
pub proof fn law_own_chunk_within_radius(c: Chunk, player_chunk_x: i32, player_chunk_y: i32, radius: i32)
    requires
        radius >= 0,
        c.chunk_x == player_chunk_x,
        c.chunk_y == player_chunk_y,
    ensures
        within_radius(c, player_chunk_x, player_chunk_y, radius),
{
}

/// Whether a chunk is within the radius depends only on its offsets from the
/// player's chunk along each axis, the same either way along an axis, and a
/// chunk one step beyond the radius along either axis is out.
pub proof fn law_radius_by_offsets(c: Chunk, px: i32, py: i32, d: Chunk, qx: i32, qy: i32, radius: i32)
    ensures
        (c.chunk_x - px == d.chunk_x - qx && c.chunk_y - py == d.chunk_y - qy) ==> within_radius(c, px, py, radius)
            == within_radius(d, qx, qy, radius),
        (c.chunk_x - px == qx - d.chunk_x && c.chunk_y - py == qy - d.chunk_y) ==> within_radius(c, px, py, radius)
            == within_radius(d, qx, qy, radius),
        c.chunk_x - px == radius + 1 || c.chunk_y - py == radius + 1 ==> !within_radius(c, px, py, radius),
{
}

/// The player's own chunk stays loaded through a cleanup with a radius that is
/// not negative.
pub proof fn law_cleanup_keeps_own_chunk(m: Map<u64, Chunk>, player_chunk_x: i32, player_chunk_y: i32, radius: i32, k: u64)
    requires
        radius >= 0,
        m.contains_key(k),
        m[k].chunk_x == player_chunk_x,
        m[k].chunk_y == player_chunk_y,
    ensures
        nearby_chunks(m, player_chunk_x, player_chunk_y, radius).contains_key(k),
{
}

pub struct ChunkManager {
    /// The chunks in memory, each under the key of its offset.
    pub loaded_chunks: HashMap<u64, Chunk>,
    /// Keys of the offsets whose chunks are being generated.
    pub generating: HashMap<u64, bool>,
    pub world_seed: u32,
}

/// The chunk at (x, y) is neither loaded nor being generated, so a request
/// for it starts its generation.
pub open spec fn would_start(m: ChunkManager, x: i32, y: i32) -> bool {
    !(m.loaded_chunks@.contains_key(chunk_key_of(x, y)) || m.generating@.contains_key(chunk_key_of(x, y)))
}

/// The chunks being generated after a request for the chunk at (x, y).
pub open spec fn generating_after_request(m: ChunkManager, x: i32, y: i32) -> Map<u64, bool> {
    if would_start(m, x, y) {
        m.generating@.insert(chunk_key_of(x, y), true)
    } else {
        m.generating@
    }
}

/// After a request for a chunk it is loaded or being generated, so asking for
/// it again starts nothing: a chunk is never generated twice at once.
pub proof fn law_request_once(m: ChunkManager, x: i32, y: i32)
    ensures
        m.loaded_chunks@.contains_key(chunk_key_of(x, y)) || generating_after_request(m, x, y).contains_key(chunk_key_of(x, y)),
{
}

/// A chunk stays loaded through a cleanup exactly when it lies within the radius.
pub proof fn law_cleanup_keeps_nearby(m: Map<u64, Chunk>, player_chunk_x: i32, player_chunk_y: i32, radius: i32, k: u64)
    ensures
        nearby_chunks(m, player_chunk_x, player_chunk_y, radius).contains_key(k) == (m.contains_key(k) && within_radius(
            m[k],
            player_chunk_x,
            player_chunk_y,
            radius,
        )),
        nearby_chunks(m, player_chunk_x, player_chunk_y, radius).contains_key(k) ==> nearby_chunks(
            m,
            player_chunk_x,
            player_chunk_y,
            radius,
        )[k] == m[k],
{
}

/// Whether the chunk lies within `radius` of the player's chunk; the
/// differences are taken in a wider type, so nothing overflows.
pub fn chunk_within_radius(c: &Chunk, player_chunk_x: i32, player_chunk_y: i32, radius: i32) -> (r: bool)
    ensures
        r == within_radius(*c, player_chunk_x, player_chunk_y, radius),
{
    let dx: i64 = c.chunk_x as i64 - player_chunk_x as i64;
    let dy: i64 = c.chunk_y as i64 - player_chunk_y as i64;
    let ax: i64 = if dx < 0 { -dx } else { dx };
    let ay: i64 = if dy < 0 { -dy } else { dy };
    ax <= radius as i64 && ay <= radius as i64
}

/// Keeps the chunks for which `chunk_within_radius` holds, with std's
/// `HashMap::retain`, which keeps exactly the entries for which the predicate
/// returns true. Claimed: the map afterwards is `nearby_chunks` of the map
/// before; the closure only calls the verified `chunk_within_radius`, whose
/// result is `within_radius`.
#[verifier::external_body]
fn retain_nearby(m: &mut HashMap<u64, Chunk>, player_chunk_x: i32, player_chunk_y: i32, radius: i32)
    ensures
        final(m)@ == nearby_chunks(old(m)@, player_chunk_x, player_chunk_y, radius),
{
    m.retain(|_, c| chunk_within_radius(c, player_chunk_x, player_chunk_y, radius));
}

impl ChunkManager {
    /// Every loaded chunk is kept under the key of its offset.
    pub open spec fn wf(&self) -> bool {
        keyed_by_offset(self.loaded_chunks@)
    }

    pub fn new(seed: u32) -> (m: Self)
        ensures
            m.loaded_chunks@ == Map::<u64, Chunk>::empty(),
            m.generating@ == Map::<u64, bool>::empty(),
            m.world_seed == seed,
            m.wf(),
    {
        ChunkManager { loaded_chunks: HashMap::new(), generating: HashMap::new(), world_seed: seed }
    }

    /// Marks the chunk at (chunk_x, chunk_y) as being generated, unless it is
    /// loaded or already being generated. Returns whether its generation is to
    /// be started.
    pub fn request_chunk(&mut self, chunk_x: i32, chunk_y: i32) -> (started: bool)
        ensures
            started == would_start(*old(self), chunk_x, chunk_y),
            final(self).generating@ == generating_after_request(*old(self), chunk_x, chunk_y),
            final(self).loaded_chunks@ == old(self).loaded_chunks@,
            final(self).world_seed == old(self).world_seed,
    {
        let key = chunk_key(chunk_x, chunk_y);
        if self.loaded_chunks.contains_key(&key) || self.generating.contains_key(&key) {
            return false;
        }
        self.generating.insert(key, true);
        true
    }

    /// Stores the chunks whose generation has finished, in the order given.
    pub fn process_incoming_chunks(&mut self, incoming: Vec<Chunk>)
        ensures
            final(self).loaded_chunks@ == loaded_after(old(self).loaded_chunks@, incoming@),
            final(self).generating@ == generating_after(old(self).generating@, incoming@),
            final(self).world_seed == old(self).world_seed,
            old(self).wf() ==> final(self).wf(),
    {
        let ghost all = incoming@;
        let mut rest = incoming;
        let ghost mut done: Seq<Chunk> = Seq::empty();
        while rest.len() > 0
            invariant
                all == done + rest@,
                self.loaded_chunks@ == loaded_after(old(self).loaded_chunks@, done),
                self.generating@ == generating_after(old(self).generating@, done),
                self.world_seed == old(self).world_seed,
                old(self).wf() ==> self.wf(),
            decreases rest.len(),
        {
            let chunk = rest.remove(0);
            let key = chunk_key(chunk.chunk_x, chunk.chunk_y);
            let ghost c = chunk;
            self.generating.remove(&key);
            self.loaded_chunks.insert(key, chunk);
            proof {
                let d2 = done.push(c);
                assert(d2.drop_last() =~= done);
                assert(d2.last() == c);
                done = d2;
                assert(all =~= done + rest@);
            }
        }
        proof {
            assert(all =~= done);
        }
    }

    /// Unloads every chunk farther than `radius` chunks from the player's chunk
    /// on either axis.
    pub fn cleanup_distant_chunks(&mut self, player_chunk_x: i32, player_chunk_y: i32, radius: i32)
        requires
            forall|k: u64| #[trigger] old(self).loaded_chunks@.contains_key(k) ==> -i32::MAX <= old(self).loaded_chunks@[k].chunk_x
                - player_chunk_x <= i32::MAX && -i32::MAX <= old(self).loaded_chunks@[k].chunk_y - player_chunk_y <= i32::MAX,
        ensures
            final(self).loaded_chunks@ == nearby_chunks(old(self).loaded_chunks@, player_chunk_x, player_chunk_y, radius),
            final(self).generating@ == old(self).generating@,
            final(self).world_seed == old(self).world_seed,
            old(self).wf() ==> final(self).wf(),
    {
        retain_nearby(&mut self.loaded_chunks, player_chunk_x, player_chunk_y, radius);
    }
}

} // verus!
