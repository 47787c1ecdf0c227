//! The neighbor-scoped tick context: a transient view over one chunk and its
//! eight neighbors, used while ticking that chunk's elements.
//!
//! Positions handed to the context are offsets from the center chunk's own
//! origin and may fall outside the chunk extent to reach a neighbor; the
//! neighbor slots are indexed row-major over the unit chunk offsets. A slot
//! left empty acts as an impassable boundary: reads yield an opaque boundary
//! element and moves into it are refused, while a direct write lazily creates
//! the missing chunk.

use crate::chunk::{fresh_chunk_model, Chunk, ChunkModel};
use crate::coords::{dir_to_index, world_to_chunk_position, world_to_element_position,
    CHUNK_SIZE_I32};
use crate::element::{can_displace, clamp_vel, trunc_div, Element, ElementKind, Velocity};
use crate::line::{lemma_line_point_in_box, line_count, line_point, GridLineIterator};
use crate::rect::Pos;
use rand::RngExt;
use rand::SeedableRng;
use vstd::arithmetic::div_mod::lemma_fundamental_div_mod_converse;
use vstd::prelude::*;

verus! {

#[verifier::external_type_specification]
#[verifier::external_body]
pub struct ExStdRng(rand::rngs::StdRng);

/// Relies on rand::rngs::StdRng::from_rng over rand::rng(): a standard
/// generator freshly seeded from the thread-local generator, itself seeded
/// from operating-system entropy; nothing is assumed of its state.
#[verifier::external_body]
fn rng_from_os() -> rand::rngs::StdRng {
    rand::rngs::StdRng::from_rng(&mut rand::rng())
}

/// Relies on rand::RngExt::random at type bool: a fair coin toss; nothing is
/// assumed of the outcome, every caller handles both.
#[verifier::external_body]
fn rng_coin(rng: &mut rand::rngs::StdRng) -> bool {
    rng.random()
}

/// Positions a neighbor context can reach: anywhere in the center chunk or at
/// most one whole chunk away on each axis.
pub open spec fn pos_in_reach(pos: Pos) -> bool {
    &&& -CHUNK_SIZE_I32 <= pos.x < 2 * CHUNK_SIZE_I32
    &&& -CHUNK_SIZE_I32 <= pos.y < 2 * CHUNK_SIZE_I32
}

/// The neighbor slot holding a center-relative position: floor-division of
/// each axis by the chunk side gives a unit chunk offset, negated vertically,
/// then laid out row-major.
pub open spec fn slot_of(pos: Pos) -> int {
    (pos.x as int / 64 + 1) + (-(pos.y as int / 64) + 1) * 3
}

/// The cell inside that chunk: the euclidean remainder on each axis.
pub open spec fn local_of(pos: Pos) -> Pos {
    Pos { x: (pos.x as int % 64) as i32, y: (pos.y as int % 64) as i32 }
}

/// The chunk coordinate of a neighbor slot.
pub open spec fn slot_chunk_pos(center: Pos, j: int) -> Pos {
    Pos { x: (center.x + j % 3 - 1) as i32, y: (center.y + j / 3 - 1) as i32 }
}

/// The opaque element reported for positions whose chunk is absent: a wall of
/// sand-colored matter that nothing can move into, making unloaded space an
/// impassable boundary rather than open air.
pub open spec fn boundary_element() -> Element {
    Element {
        color: (245u8, 226u8, 24u8),
        velocity: Velocity { x: 0i32, y: 0i32 },
        kind: ElementKind::Sand,
        wframe: 0u8,
    }
}

proof fn lemma_div64_range(v: int)
    requires
        -64 <= v < 128,
    ensures
        -1 <= v / 64 <= 1,
        v % 64 == v - 64 * (v / 64),
        v < 0 ==> v / 64 == -1,
        0 <= v < 64 ==> v / 64 == 0,
        64 <= v ==> v / 64 == 1,
{
    if v < 0 {
        lemma_fundamental_div_mod_converse(v, 64, -1, v + 64);
    } else if v < 64 {
        lemma_fundamental_div_mod_converse(v, 64, 0, v);
    } else {
        lemma_fundamental_div_mod_converse(v, 64, 1, v - 64);
    }
}

/// The mathematical value of a [`LocalApi`]: the center coordinate, the nine
/// neighbor slots as chunk models, the slots created during this tick step,
/// the element being processed with its position, and the tick stamp. The
/// random source has no model: contracts hold for every draw.
#[verifier::ext_equal]
pub struct ApiModel {
    pub center: Pos,
    pub chunks: Seq<Option<ChunkModel>>,
    pub new_chunks: Seq<usize>,
    pub element: (Element, Pos),
    pub wframe: u8,
}

impl ApiModel {
    pub open spec fn wf(self) -> bool {
        &&& self.chunks.len() == 9
        &&& -0xFF_FFFF <= self.center.x <= 0xFF_FFFF
        &&& -0xFF_FFFF <= self.center.y <= 0xFF_FFFF
        &&& (forall|j: int|
            0 <= j < 9 ==> ((#[trigger] self.chunks[j]) matches Some(c) ==> c.wf() && c.position
                == slot_chunk_pos(self.center, j)))
        &&& self.element.0.wf()
    }

    pub open spec fn slot_present(self, j: int) -> bool {
        0 <= j < self.chunks.len() && self.chunks[j] is Some
    }

    /// The element seen at a center-relative position: the cell of the slot
    /// chunk holding it, or the opaque boundary element if that chunk is
    /// absent.
    pub open spec fn get_at(self, pos: Pos) -> Element {
        match self.chunks[slot_of(pos)] {
            Some(c) => c.cell(local_of(pos)),
            None => boundary_element(),
        }
    }

    /// Whether the element being processed may move into a position: never
    /// into an absent chunk, and otherwise by density displacement.
    pub open spec fn can_move(self, pos: Pos) -> bool {
        match self.chunks[slot_of(pos)] {
            Some(c) => can_displace(self.element.0.kind, c.cell(local_of(pos)).kind),
            None => false,
        }
    }

    pub open spec fn with_chunk(self, j: int, c: ChunkModel) -> ApiModel {
        ApiModel { chunks: self.chunks.update(j, Some(c)), ..self }
    }

    /// Mark a cell dirty in a slot, if that slot holds a chunk.
    pub open spec fn mark_in_slot(self, j: int, p: Pos) -> ApiModel {
        match self.chunks[j] {
            Some(c) => self.with_chunk(j, c.mark_point(p)),
            None => self,
        }
    }

    /// The model of [`LocalApi::set_wframe`]: stamp the cell at the processed
    /// element's position, if its chunk is present.
    pub open spec fn set_stamp_at(self, wframe: u8) -> ApiModel {
        let j = slot_of(self.element.1);
        match self.chunks[j] {
            Some(c) => self.with_chunk(j, c.set_stamp(local_of(self.element.1), wframe)),
            None => self,
        }
    }

    /// The model of [`LocalApi::mark_element_dirty`].
    pub open spec fn mark_element_spec(self) -> ApiModel {
        self.mark_in_slot(slot_of(self.element.1), local_of(self.element.1))
    }

    /// The model of [`LocalApi::update_element`]: stamp the cell at the
    /// processed element's position with the current tick, give it the new
    /// velocity, and mirror the result into the context's element field.
    pub open spec fn update_velocity_spec(self, v: Velocity) -> ApiModel {
        let j = slot_of(self.element.1);
        let lp = local_of(self.element.1);
        match self.chunks[j] {
            Some(c) => {
                let e2 = Element { wframe: self.wframe, velocity: v, ..c.cell(lp) };
                ApiModel { element: (e2, self.element.1), ..self.with_chunk(j, c.put_cell(lp, e2)) }
            },
            None => self,
        }
    }

    /// The model of [`LocalApi::set_element`]: lazily create the target chunk
    /// if absent (recording the slot), mark the seam cells of the fixed edge
    /// neighbors when the write lands on a chunk border, then write the cell.
    pub open spec fn set_element_spec(self, pos: Pos, e: Element) -> ApiModel {
        let j = slot_of(pos);
        let lp = local_of(pos);
        let m1 = if self.chunks[j] is None {
            ApiModel {
                chunks: self.chunks.update(j, Some(fresh_chunk_model(slot_chunk_pos(self.center, j)))),
                new_chunks: self.new_chunks.push(j as usize),
                ..self
            }
        } else {
            self
        };
        let m2 = if lp.x == 0 {
            m1.mark_in_slot(3, Pos { x: 63i32, y: lp.y })
        } else if lp.x == 63 {
            m1.mark_in_slot(5, Pos { x: 0i32, y: lp.y })
        } else {
            m1
        };
        let m3 = if lp.y == 0 {
            m2.mark_in_slot(7, Pos { x: lp.x, y: 63i32 })
        } else if lp.y == 63 {
            m2.mark_in_slot(1, Pos { x: lp.x, y: 0i32 })
        } else {
            m2
        };
        match m3.chunks[j] {
            Some(c) => m3.with_chunk(j, c.set_cell(lp, e)),
            None => m3,
        }
    }

    /// The model of [`LocalApi::swap_elements`]: a no-op unless both positions
    /// resolve to present chunks, else the two cells are exchanged, each write
    /// carrying the seam-marking behavior of [`LocalApi::set_element`].
    pub open spec fn swap_spec(self, source: Pos, target: Pos, known: Option<Element>) -> ApiModel {
        if !self.slot_present(slot_of(source)) || !self.slot_present(slot_of(target)) {
            self
        } else {
            let se = match known {
                Some(e) => e,
                None => self.get_at(source),
            };
            let te = self.get_at(target);
            self.set_element_spec(source, te).set_element_spec(target, se)
        }
    }

    /// The model of [`LocalApi::accelerate`]: add to the processed element's
    /// velocity, clamping each axis, then mark its cell dirty; a no-op if its
    /// chunk is absent.
    pub open spec fn accelerate_spec(self, dx: int, dy: int) -> ApiModel {
        let j = slot_of(self.element.1);
        let lp = local_of(self.element.1);
        match self.chunks[j] {
            Some(c) => {
                let cv = c.cell(lp).velocity;
                let v2 = Velocity {
                    x: clamp_vel(cv.x + dx) as i32,
                    y: clamp_vel(cv.y + dy) as i32,
                };
                self.update_velocity_spec(v2).mark_element_spec()
            },
            None => self,
        }
    }

    /// The model of [`LocalApi::move_element`]: walk the rasterized line from
    /// the element's position toward its position plus its velocity in whole
    /// cells, stopping before the first cell it may not enter. A changed
    /// destination swaps the element there (with horizontal friction when the
    /// move was purely horizontal); a refused move bounces the velocity.
    pub open spec fn move_spec(self) -> ApiModel {
        let j = slot_of(self.element.1);
        if !(self.chunks[j] is Some) {
            self
        } else {
            let start = local_of(self.element.1);
            let vel = self.element.0.velocity;
            let end = Pos {
                x: (start.x + trunc_div(vel.x as int, 100)) as i32,
                y: (start.y + trunc_div(vel.y as int, 100)) as i32,
            };
            if end == start {
                self
            } else {
                let dest = walk_dest(self, start, end, 1, start);
                if dest != start {
                    let m1 = self.swap_spec(start, dest, Some(self.element.0));
                    let m2 = ApiModel { element: (m1.element.0, dest), ..m1 };
                    if dest.x != start.x && dest.y == start.y {
                        let cv = m2.get_at(dest).velocity;
                        m2.update_velocity_spec(
                            Velocity { x: trunc_div(cv.x * 80, 100) as i32, y: cv.y },
                        )
                    } else {
                        m2
                    }
                } else {
                    let cv = self.get_at(self.element.1).velocity;
                    self.update_velocity_spec(cv.bounced_spec())
                }
            }
        }
    }
}

/// The last point of the rasterized line from `p1` to `p2` that a consecutive
/// walk from index `i` (with `cur` the last point accepted so far) reaches
/// while `m.can_move` accepts every point on the way.
pub open spec fn walk_dest(m: ApiModel, p1: Pos, p2: Pos, i: int, cur: Pos) -> Pos
    decreases line_count(p1, p2) - i
        when 0 <= i <= line_count(p1, p2)
{
    if i >= line_count(p1, p2) {
        cur
    } else if m.can_move(line_point(p1, p2, i)) {
        walk_dest(m, p1, p2, i + 1, line_point(p1, p2, i))
    } else {
        cur
    }
}

/// Both translation results are in range: the slot index is one of the nine,
/// and the cell position is inside its chunk.
pub proof fn lemma_resolve_range(p: Pos)
    requires
        pos_in_reach(p),
    ensures
        0 <= slot_of(p) < 9,
        Chunk::in_chunk(local_of(p)),
        slot_of(p) % 3 == p.x as int / 64 + 1,
        slot_of(p) / 3 == -(p.y as int / 64) + 1,
{
    lemma_div64_range(p.x as int);
    lemma_div64_range(p.y as int);
    lemma_fundamental_div_mod_converse(
        slot_of(p),
        3,
        -(p.y as int / 64) + 1,
        p.x as int / 64 + 1,
    );
}

/// The tick stamp and the velocity write of an element update are never
/// observed separately: whenever the processed element's chunk is present,
/// updating it leaves both the cell and the mirrored element stamped with the
/// current tick and carrying the new velocity.
pub proof fn lemma_update_stamps(m: ApiModel, v: Velocity)
    requires
        m.wf(),
        pos_in_reach(m.element.1),
        m.slot_present(slot_of(m.element.1)),
    ensures
        m.update_velocity_spec(v).get_at(m.element.1).wframe == m.wframe,
        m.update_velocity_spec(v).get_at(m.element.1).velocity == v,
        m.update_velocity_spec(v).element.0 == m.update_velocity_spec(v).get_at(m.element.1),
{
    lemma_resolve_range(m.element.1);
}

/// Writing through a slot whose chunk is absent creates exactly one chunk, at
/// the chunk coordinate the position implies, installs it in that slot
/// (leaving every other slot's occupancy unchanged), records the slot index
/// exactly once for later registry insertion, and then performs the write: the
/// written cell holds the element.
pub proof fn lemma_set_element_creates(m: ApiModel, pos: Pos, e: Element)
    requires
        m.wf(),
        pos_in_reach(pos),
        e.wf(),
        !(m.chunks[slot_of(pos)] is Some),
    ensures
        ({
            let r = m.set_element_spec(pos, e);
            &&& (r.chunks[slot_of(pos)] matches Some(c) && c.position == slot_chunk_pos(
                m.center,
                slot_of(pos),
            ))
            &&& r.new_chunks == m.new_chunks.push(slot_of(pos) as usize)
            &&& r.get_at(pos) == e
            &&& forall|j: int|
                0 <= j < 9 && j != slot_of(pos) ==> ((#[trigger] r.chunks[j]) is Some) == (
                m.chunks[j] is Some)
        }),
{
    lemma_resolve_range(pos);
}

/// Whatever a context reads at an in-reach position is a well-formed element.
pub proof fn lemma_get_at_wf(m: ApiModel, p: Pos)
    requires
        m.wf(),
        pos_in_reach(p),
    ensures
        m.get_at(p).wf(),
{
    lemma_resolve_range(p);
}

/// The chunk models held by a sequence of optional chunks.
pub open spec fn chunk_views(s: Seq<Option<Chunk>>) -> Seq<Option<ChunkModel>> {
    Seq::new(
        s.len(),
        |i: int|
            match s[i] {
                Some(c) => Some(c@),
                None => None,
            },
    )
}

proof fn lemma_chunk_views_update(s: Seq<Option<Chunk>>, j: int, c: Chunk)
    requires
        0 <= j < s.len(),
    ensures
        chunk_views(s.update(j, Some(c))) == chunk_views(s).update(j, Some(c@)),
{
    assert(chunk_views(s.update(j, Some(c))) =~= chunk_views(s).update(j, Some(c@)));
}

/// A transient view over the chunk being ticked and its eight neighbors,
/// holding the element currently being processed, the global tick stamp, a
/// random source, and the slots of any chunks created during this step.
pub struct LocalApi {
    pub center: Pos,
    pub chunks: Vec<Option<Chunk>>,
    pub new_chunks: Vec<usize>,
    pub element: (Element, Pos),
    pub wframe: u8,
    pub rng: rand::rngs::StdRng,
}

impl View for LocalApi {
    type V = ApiModel;

    open spec fn view(&self) -> ApiModel {
        ApiModel {
            center: self.center,
            chunks: chunk_views(self.chunks@),
            new_chunks: self.new_chunks@,
            element: self.element,
            wframe: self.wframe,
        }
    }
}

impl LocalApi {
    pub fn new(
        center: Pos,
        wframe: u8,
        element: (Element, Pos),
        chunks: Vec<Option<Chunk>>,
    ) -> (r: LocalApi)
        requires
            chunks@.len() == 9,
            -0xFF_FFFF <= center.x <= 0xFF_FFFF,
            -0xFF_FFFF <= center.y <= 0xFF_FFFF,
            forall|j: int|
                0 <= j < 9 ==> ((#[trigger] chunks@[j]) matches Some(c) ==> c.wf() && c.position
                    == slot_chunk_pos(center, j)),
            element.0.wf(),
        ensures
            r@ == (ApiModel {
                center,
                chunks: chunk_views(chunks@),
                new_chunks: Seq::<usize>::empty(),
                element,
                wframe,
            }),
            r@.wf(),
    {
        let r = LocalApi {
            center,
            chunks,
            element,
            wframe,
            new_chunks: Vec::new(),
            rng: rng_from_os(),
        };
        proof {
            assert(r@.chunks.len() == 9);
            assert forall|j: int| 0 <= j < 9 implies ((#[trigger] r@.chunks[j]) matches Some(c)
                ==> c.wf() && c.position == slot_chunk_pos(center, j)) by {
                if r.chunks@[j] is Some {
                    assert(r@.chunks[j] == Some(r.chunks@[j]->0@));
                }
            }
        }
        r
    }

    /// Resolve a center-relative position to its neighbor slot and the cell
    /// inside that chunk.
    fn resolve(position: Pos) -> (r: (usize, Pos))
        requires
            pos_in_reach(position),
        ensures
            r.0 == slot_of(position),
            r.1 == local_of(position),
            r.0 < 9,
            Chunk::in_chunk(r.1),
    {
        proof {
            lemma_div64_range(position.x as int);
            lemma_div64_range(position.y as int);
        }
        let cp = world_to_chunk_position(position);
        let index = ((cp.x + 1) + (cp.y + 1) * 3) as usize;
        let ep = world_to_element_position(position);
        (index, ep)
    }

    fn chunk_index_exists(&self, chunk_index: usize) -> (r: bool)
        ensures
            r == self@.slot_present(chunk_index as int),
    {
        self.chunks.len() > chunk_index && self.chunks[chunk_index].is_some()
    }

    /// A fair coin toss mapped to a horizontal direction. Only the random
    /// source changes; the model is untouched.
    pub fn random_direction(&mut self) -> (r: i32)
        ensures
            r == 1 || r == -1,
            final(self)@ == old(self)@,
    {
        if rng_coin(&mut self.rng) {
            1
        } else {
            -1
        }
    }

    /// Whether the element being processed may move into `position`: false if
    /// the chunk holding it is absent, else true iff the occupant is air or
    /// strictly less dense.
    pub fn can_move_to(&self, position: Pos) -> (r: bool)
        requires
            self@.wf(),
            pos_in_reach(position),
        ensures
            r == self@.can_move(position),
    {
        let (chunk_index, element_position) = Self::resolve(position);
        if !self.chunk_index_exists(chunk_index) {
            return false;
        }
        let dest = match &self.chunks[chunk_index] {
            Some(c) => *c.get_element(element_position),
            None => Element::default(),
        };
        matches!(dest.kind, ElementKind::Air) || dest.kind.density()
            < self.element.0.kind.density()
    }

    /// The element at `position`, or the opaque boundary element if the chunk
    /// holding it is absent.
    pub fn get_element(&self, position: Pos) -> (r: Element)
        requires
            self@.wf(),
            pos_in_reach(position),
        ensures
            r == self@.get_at(position),
    {
        let (chunk_index, element_position) = Self::resolve(position);
        match &self.chunks[chunk_index] {
            Some(c) => *c.get_element(element_position),
            None => Element {
                wframe: 0,
                color: (245, 226, 24),
                velocity: Velocity::zero(),
                kind: ElementKind::Sand,
            },
        }
    }

    /// Stamp the cell at the processed element's position with a tick value;
    /// a no-op if its chunk is absent.
    pub fn set_wframe(&mut self, wframe: u8)
        requires
            old(self)@.wf(),
            pos_in_reach(old(self).element.1),
        ensures
            final(self)@ == old(self)@.set_stamp_at(wframe),
            final(self)@.wf(),
            final(self)@.center == old(self)@.center,
            final(self)@.wframe == old(self)@.wframe,
            final(self)@.element.0.wf(),
            forall|j: int|
                0 <= j < 9 && old(self)@.chunks[j] is Some
                    ==> (#[trigger] final(self)@.chunks[j]) is Some,
    {
        let (chunk_index, element_position) = Self::resolve(self.element.1);
        if !self.chunk_index_exists(chunk_index) {
            return ;
        }
        match &mut self.chunks[chunk_index] {
            Some(c) => {
                c.set_wframe(element_position, wframe);
            },
            None => {},
        }
        proof {
            lemma_chunk_views_update(
                old(self).chunks@,
                chunk_index as int,
                self.chunks@[chunk_index as int]->0,
            );
            assert(self@ =~= old(self)@.set_stamp_at(wframe));
        }
    }

    /// Mark the processed element's cell dirty; a no-op if its chunk is
    /// absent.
    pub fn mark_element_dirty(&mut self)
        requires
            old(self)@.wf(),
            pos_in_reach(old(self).element.1),
        ensures
            final(self)@ == old(self)@.mark_element_spec(),
            final(self)@.wf(),
            final(self)@.center == old(self)@.center,
            final(self)@.wframe == old(self)@.wframe,
            final(self)@.element.0.wf(),
            forall|j: int|
                0 <= j < 9 && old(self)@.chunks[j] is Some
                    ==> (#[trigger] final(self)@.chunks[j]) is Some,
    {
        let (chunk_index, element_position) = Self::resolve(self.element.1);
        if !self.chunk_index_exists(chunk_index) {
            return ;
        }
        match &mut self.chunks[chunk_index] {
            Some(c) => {
                c.mark_point_dirty(element_position);
            },
            None => {},
        }
        proof {
            lemma_chunk_views_update(
                old(self).chunks@,
                chunk_index as int,
                self.chunks@[chunk_index as int]->0,
            );
            assert(self@ =~= old(self)@.mark_element_spec());
        }
    }

    /// Stamp the processed element's cell with the current tick and replace
    /// its velocity, mirroring the new value into the context; the stamp and
    /// the mutation are never observable separately. A no-op if the chunk is
    /// absent.
    pub fn update_element(&mut self, velocity: Velocity)
        requires
            old(self)@.wf(),
            pos_in_reach(old(self).element.1),
            velocity.wf(),
        ensures
            final(self)@ == old(self)@.update_velocity_spec(velocity),
            final(self)@.wf(),
            final(self)@.center == old(self)@.center,
            final(self)@.wframe == old(self)@.wframe,
            final(self)@.element.0.wf(),
            forall|j: int|
                0 <= j < 9 && old(self)@.chunks[j] is Some
                    ==> (#[trigger] final(self)@.chunks[j]) is Some,
    {
        let (chunk_index, element_position) = Self::resolve(self.element.1);
        if !self.chunk_index_exists(chunk_index) {
            return ;
        }
        let wframe = self.wframe;
        let mut updated: Element = Element::default();
        match &mut self.chunks[chunk_index] {
            Some(c) => {
                let e = c.get_element_mut(element_position);
                e.wframe = wframe;
                e.velocity = velocity;
                updated = *e;
            },
            None => {},
        }
        self.element.0 = updated;
        proof {
            lemma_chunk_views_update(
                old(self).chunks@,
                chunk_index as int,
                self.chunks@[chunk_index as int]->0,
            );
            assert(self@ =~= old(self)@.update_velocity_spec(velocity));
        }
    }

    /// Mark one cell dirty in one slot, if that slot holds a chunk.
    fn mark_slot_point(&mut self, j: usize, p: Pos)
        requires
            j < 9,
            old(self)@.chunks.len() == 9,
            Chunk::in_chunk(p),
        ensures
            final(self)@ == old(self)@.mark_in_slot(j as int, p),
    {
        match &mut self.chunks[j] {
            Some(c) => {
                c.mark_point_dirty(p);
            },
            None => {},
        }
        proof {
            if old(self).chunks@[j as int] is Some {
                lemma_chunk_views_update(old(self).chunks@, j as int, self.chunks@[j as int]->0);
                assert(self@ =~= old(self)@.mark_in_slot(j as int, p));
            } else {
                assert(self@.chunks =~= old(self)@.chunks);
                assert(self@ =~= old(self)@.mark_in_slot(j as int, p));
            }
        }
    }

    /// Write an element at a center-relative position. If the chunk holding it
    /// is absent, it is created on the spot (recording the slot for later
    /// registry insertion). A write landing on a chunk border also marks the
    /// seam cell of the fixed edge neighbor dirty, keeping seams consistent.
    pub fn set_element(&mut self, position: Pos, element: Element)
        requires
            old(self)@.wf(),
            pos_in_reach(position),
            element.wf(),
        ensures
            final(self)@ == old(self)@.set_element_spec(position, element),
            final(self)@.wf(),
            final(self)@.center == old(self)@.center,
            final(self)@.wframe == old(self)@.wframe,
            final(self)@.element.0.wf(),
            forall|j: int|
                0 <= j < 9 && old(self)@.chunks[j] is Some
                    ==> (#[trigger] final(self)@.chunks[j]) is Some,
    {
        proof {
            lemma_resolve_range(position);
        }
        let ghost m0 = self@;
        let (chunk_index, element_position) = Self::resolve(position);
        if !self.chunk_index_exists(chunk_index) {
            let dir = world_to_chunk_position(position);
            let chunk_world_position = Pos { x: self.center.x + dir.x, y: self.center.y + dir.y };
            let chunk = Chunk::new(chunk_world_position);
            self.new_chunks.push(chunk_index);
            self.chunks[chunk_index] = Some(chunk);
            proof {
                assert(chunk_world_position == slot_chunk_pos(m0.center, chunk_index as int));
                lemma_chunk_views_update(old(self).chunks@, chunk_index as int, chunk);
            }
        }
        let ghost m1 = (if m0.chunks[slot_of(position)] is None {
            ApiModel {
                chunks: m0.chunks.update(
                    slot_of(position),
                    Some(fresh_chunk_model(slot_chunk_pos(m0.center, slot_of(position)))),
                ),
                new_chunks: m0.new_chunks.push(slot_of(position) as usize),
                ..m0
            }
        } else {
            m0
        });
        proof {
            assert(self@ =~= m1);
        }
        if element_position.x == 0 {
            let left = dir_to_index(Pos { x: -1, y: 0 });
            self.mark_slot_point(left, Pos { x: CHUNK_SIZE_I32 - 1, y: element_position.y });
        } else if element_position.x == CHUNK_SIZE_I32 - 1 {
            let right = dir_to_index(Pos { x: 1, y: 0 });
            self.mark_slot_point(right, Pos { x: 0, y: element_position.y });
        }
        let ghost m2 = (if local_of(position).x == 0 {
            m1.mark_in_slot(3, Pos { x: 63i32, y: local_of(position).y })
        } else if local_of(position).x == 63 {
            m1.mark_in_slot(5, Pos { x: 0i32, y: local_of(position).y })
        } else {
            m1
        });
        proof {
            assert(self@ == m2);
        }
        if element_position.y == 0 {
            let up = dir_to_index(Pos { x: 0, y: 1 });
            self.mark_slot_point(up, Pos { x: element_position.x, y: CHUNK_SIZE_I32 - 1 });
        } else if element_position.y == CHUNK_SIZE_I32 - 1 {
            let down = dir_to_index(Pos { x: 0, y: -1 });
            self.mark_slot_point(down, Pos { x: element_position.x, y: 0 });
        }
        let ghost m3 = (if local_of(position).y == 0 {
            m2.mark_in_slot(7, Pos { x: local_of(position).x, y: 63i32 })
        } else if local_of(position).y == 63 {
            m2.mark_in_slot(1, Pos { x: local_of(position).x, y: 0i32 })
        } else {
            m2
        });
        proof {
            assert(self@ == m3);
            lemma_set_element_stage_wf(m0, position);
            assert(m3.wf());
            assert(self.chunks@.len() == 9);
            assert(self@.chunks[chunk_index as int] is Some);
            assert(self@.chunks[chunk_index as int]->0.wf());
        }
        match &mut self.chunks[chunk_index] {
            Some(c) => {
                c.set_element(element_position, element);
            },
            None => {},
        }
        proof {
            lemma_chunk_views_update(
                old(self).chunks@,
                chunk_index as int,
                self.chunks@[chunk_index as int]->0,
            );
            assert(self@ =~= m3.with_chunk(
                chunk_index as int,
                m3.chunks[chunk_index as int]->0.set_cell(element_position, element),
            ));
            assert(self@ == old(self)@.set_element_spec(position, element));
            lemma_set_element_wf(m0, position, element);
        }
    }

    /// Exchange the elements at two positions; a no-op unless both positions
    /// resolve to present chunks. A caller that already knows the source
    /// element may supply it instead of having it re-read.
    pub fn swap_elements(&mut self, source: Pos, target: Pos, source_element: Option<Element>)
        requires
            old(self)@.wf(),
            pos_in_reach(source),
            pos_in_reach(target),
            (source_element matches Some(e) ==> e.wf()),
        ensures
            final(self)@ == old(self)@.swap_spec(source, target, source_element),
            final(self)@.wf(),
            final(self)@.center == old(self)@.center,
            final(self)@.wframe == old(self)@.wframe,
            final(self)@.element.0.wf(),
            forall|j: int|
                0 <= j < 9 && old(self)@.chunks[j] is Some
                    ==> (#[trigger] final(self)@.chunks[j]) is Some,
    {
        let (source_chunk_index, _source_pos) = Self::resolve(source);
        let (target_chunk_index, _target_pos) = Self::resolve(target);
        if !self.chunk_index_exists(source_chunk_index) {
            return ;
        }
        if !self.chunk_index_exists(target_chunk_index) {
            return ;
        }
        proof {
            lemma_get_at_wf(self@, source);
            lemma_get_at_wf(self@, target);
        }
        let source_element = match source_element {
            Some(e) => e,
            None => self.get_element(source),
        };
        let target_element = self.get_element(target);
        self.set_element(source, target_element);
        self.set_element(target, source_element);
    }

    /// Add an acceleration to the processed element's velocity, clamping each
    /// axis to the allowed band, and mark its cell dirty; a no-op if its chunk
    /// is absent. The acceleration is in hundredths of a cell per tick; the
    /// bound on it is a machine limit only, the clamp takes care of the rest.
    pub fn accelerate(&mut self, x: i32, y: i32)
        requires
            old(self)@.wf(),
            pos_in_reach(old(self).element.1),
            -100000 <= x <= 100000,
            -100000 <= y <= 100000,
        ensures
            final(self)@ == old(self)@.accelerate_spec(x as int, y as int),
            final(self)@.wf(),
            final(self)@.center == old(self)@.center,
            final(self)@.wframe == old(self)@.wframe,
            final(self)@.element.0.wf(),
            forall|j: int|
                0 <= j < 9 && old(self)@.chunks[j] is Some
                    ==> (#[trigger] final(self)@.chunks[j]) is Some,
    {
        let (chunk_index, element_position) = Self::resolve(self.element.1);
        if !self.chunk_index_exists(chunk_index) {
            return ;
        }
        let current = match &self.chunks[chunk_index] {
            Some(c) => *c.get_element(element_position),
            None => Element::default(),
        };
        let v2 = current.velocity.add_clamped(x, y);
        self.update_element(v2);
        self.mark_element_dirty();
    }

    /// Move the processed element along its velocity: walk the rasterized
    /// line from its position toward the target offset, stopping before the
    /// first cell it may not enter. A changed destination swaps the element
    /// there, with horizontal friction when the move was purely horizontal; a
    /// fully refused move bounces the velocity instead.
    pub fn move_element(&mut self)
        requires
            old(self)@.wf(),
            pos_in_reach(old(self).element.1),
        ensures
            final(self)@ == old(self)@.move_spec(),
            final(self)@.wf(),
            final(self)@.center == old(self)@.center,
            final(self)@.wframe == old(self)@.wframe,
            final(self)@.element.0.wf(),
            forall|j: int|
                0 <= j < 9 && old(self)@.chunks[j] is Some
                    ==> (#[trigger] final(self)@.chunks[j]) is Some,
    {
        proof {
            lemma_resolve_range(old(self).element.1);
        }
        let (chunk_index, element_position) = Self::resolve(self.element.1);
        if !self.chunk_index_exists(chunk_index) {
            return ;
        }
        let start_position = element_position;
        let (offset_x, offset_y) = self.element.0.velocity.cell_offset();
        let end_position = Pos { x: start_position.x + offset_x, y: start_position.y + offset_y };
        if start_position == end_position {
            return ;
        }
        let mut iter = GridLineIterator::new(start_position, end_position);
        let first = iter.next();
        proof {
            crate::line::lemma_line_shape(start_position, end_position);
            assert(first == Some(start_position));
        }
        let mut destination = start_position;
        loop
            invariant_except_break
                walk_dest(self@, start_position, end_position, 1, start_position) == walk_dest(
                    self@,
                    start_position,
                    end_position,
                    iter.index as int,
                    destination,
                ),
            invariant
                self@.wf(),
                self@ == old(self)@,
                iter.wf(),
                iter.pos1 == start_position,
                iter.pos2 == end_position,
                1 <= iter.index <= line_count(start_position, end_position),
                Chunk::in_chunk(start_position),
                pos_in_reach(end_position),
                pos_in_reach(destination),
            ensures
                destination == walk_dest(self@, start_position, end_position, 1, start_position),
                pos_in_reach(destination),
            decreases line_count(start_position, end_position) - iter.index,
        {
            let ghost index_before = iter.index as int;
            let next_point = iter.next();
            match next_point {
                None => {
                    proof {
                        assert(walk_dest(
                            self@,
                            start_position,
                            end_position,
                            index_before,
                            destination,
                        ) == destination);
                    }
                    break ;
                },
                Some(pos) => {
                    proof {
                        lemma_line_point_in_box(start_position, end_position, index_before);
                    }
                    if self.can_move_to(pos) {
                        destination = pos;
                    } else {
                        proof {
                            assert(walk_dest(
                                self@,
                                start_position,
                                end_position,
                                index_before,
                                destination,
                            ) == destination);
                        }
                        break ;
                    }
                },
            }
        }
        if destination.x != start_position.x || destination.y != start_position.y {
            let known = self.element.0;
            self.swap_elements(start_position, destination, Some(known));
            let ghost m1 = old(self)@.swap_spec(
                start_position,
                destination,
                Some(old(self).element.0),
            );
            self.element.1 = destination;
            proof {
                assert(self@ =~= (ApiModel { element: (m1.element.0, destination), ..m1 }));
            }
            if destination.x != start_position.x && destination.y == start_position.y {
                proof {
                    lemma_get_at_wf(self@, self.element.1);
                }
                let current = self.get_element(self.element.1);
                let v2 = current.velocity.with_x_scaled(80);
                self.update_element(v2);
            }
        } else {
            proof {
                lemma_get_at_wf(self@, self.element.1);
            }
            let current = self.get_element(self.element.1);
            let v2 = current.velocity.bounced();
            self.update_element(v2);
        }
    }
}

/// Marking a cell in a slot keeps the model well-formed and no slot appears
/// or disappears.
proof fn lemma_wf_mark_in_slot(m: ApiModel, j: int, p: Pos)
    requires
        m.wf(),
        0 <= j < 9,
    ensures
        m.mark_in_slot(j, p).wf(),
        forall|k: int|
            0 <= k < 9 ==> ((#[trigger] m.mark_in_slot(j, p).chunks[k]) is Some) == (m.chunks[k]
                is Some),
        m.mark_in_slot(j, p).center == m.center,
{
    let r = m.mark_in_slot(j, p);
    match m.chunks[j] {
        Some(c) => {
            assert(c.mark_point(p).grid == c.grid);
            assert(c.mark_point(p).wf());
            assert forall|k: int|
                0 <= k < 9 implies ((#[trigger] r.chunks[k]) matches Some(cc) ==> cc.wf()
                && cc.position == slot_chunk_pos(r.center, k)) by {
                if k != j {
                    assert(r.chunks[k] == m.chunks[k]);
                }
            }
        },
        None => {},
    }
}

/// Every stage of a write (lazy creation, seam marking) keeps the model
/// well-formed, and the written slot holds a chunk.
proof fn lemma_set_element_stage_wf(m: ApiModel, pos: Pos)
    requires
        m.wf(),
        pos_in_reach(pos),
    ensures
        ({
            let j = slot_of(pos);
            let lp = local_of(pos);
            let m1 = (if m.chunks[j] is None {
                ApiModel {
                    chunks: m.chunks.update(
                        j,
                        Some(fresh_chunk_model(slot_chunk_pos(m.center, j))),
                    ),
                    new_chunks: m.new_chunks.push(j as usize),
                    ..m
                }
            } else {
                m
            });
            let m2 = (if lp.x == 0 {
                m1.mark_in_slot(3, Pos { x: 63i32, y: lp.y })
            } else if lp.x == 63 {
                m1.mark_in_slot(5, Pos { x: 0i32, y: lp.y })
            } else {
                m1
            });
            let m3 = (if lp.y == 0 {
                m2.mark_in_slot(7, Pos { x: lp.x, y: 63i32 })
            } else if lp.y == 63 {
                m2.mark_in_slot(1, Pos { x: lp.x, y: 0i32 })
            } else {
                m2
            });
            m3.wf() && m3.chunks[j] is Some && m3.center == m.center
        }),
{
    lemma_resolve_range(pos);
    let j = slot_of(pos);
    let lp = local_of(pos);
    let fresh = fresh_chunk_model(slot_chunk_pos(m.center, j));
    assert(fresh.wf()) by {
        assert(forall|i: int| 0 <= i < fresh.grid.len() ==> (#[trigger] fresh.grid[i]).wf());
    }
    let m1 = (if m.chunks[j] is None {
        ApiModel {
            chunks: m.chunks.update(j, Some(fresh)),
            new_chunks: m.new_chunks.push(j as usize),
            ..m
        }
    } else {
        m
    });
    assert(m1.wf()) by {
        if m.chunks[j] is None {
            assert forall|k: int|
                0 <= k < 9 implies ((#[trigger] m1.chunks[k]) matches Some(c) ==> c.wf()
                && c.position == slot_chunk_pos(m1.center, k)) by {
                if k != j {
                    assert(m1.chunks[k] == m.chunks[k]);
                }
            }
        }
    }
    let m2 = (if lp.x == 0 {
        m1.mark_in_slot(3, Pos { x: 63i32, y: lp.y })
    } else if lp.x == 63 {
        m1.mark_in_slot(5, Pos { x: 0i32, y: lp.y })
    } else {
        m1
    });
    if lp.x == 0 {
        lemma_wf_mark_in_slot(m1, 3, Pos { x: 63i32, y: lp.y });
    } else if lp.x == 63 {
        lemma_wf_mark_in_slot(m1, 5, Pos { x: 0i32, y: lp.y });
    }
    let m3 = (if lp.y == 0 {
        m2.mark_in_slot(7, Pos { x: lp.x, y: 63i32 })
    } else if lp.y == 63 {
        m2.mark_in_slot(1, Pos { x: lp.x, y: 0i32 })
    } else {
        m2
    });
    if lp.y == 0 {
        lemma_wf_mark_in_slot(m2, 7, Pos { x: lp.x, y: 63i32 });
    } else if lp.y == 63 {
        lemma_wf_mark_in_slot(m2, 1, Pos { x: lp.x, y: 0i32 });
    }
    assert(m1.chunks[j] is Some);
    assert(m2.chunks[j] is Some);
    assert(m3.chunks[j] is Some);
}

/// A write keeps the model well-formed.
proof fn lemma_set_element_wf(m: ApiModel, pos: Pos, e: Element)
    requires
        m.wf(),
        pos_in_reach(pos),
        e.wf(),
    ensures
        m.set_element_spec(pos, e).wf(),
        m.set_element_spec(pos, e).center == m.center,
        m.set_element_spec(pos, e).element == m.element,
        m.set_element_spec(pos, e).wframe == m.wframe,
{
    lemma_resolve_range(pos);
    lemma_set_element_stage_wf(m, pos);
    let j = slot_of(pos);
    let lp = local_of(pos);
    let m1 = (if m.chunks[j] is None {
        ApiModel {
            chunks: m.chunks.update(
                j,
                Some(fresh_chunk_model(slot_chunk_pos(m.center, j))),
            ),
            new_chunks: m.new_chunks.push(j as usize),
            ..m
        }
    } else {
        m
    });
    let m2 = (if lp.x == 0 {
        m1.mark_in_slot(3, Pos { x: 63i32, y: lp.y })
    } else if lp.x == 63 {
        m1.mark_in_slot(5, Pos { x: 0i32, y: lp.y })
    } else {
        m1
    });
    let m3 = (if lp.y == 0 {
        m2.mark_in_slot(7, Pos { x: lp.x, y: 63i32 })
    } else if lp.y == 63 {
        m2.mark_in_slot(1, Pos { x: lp.x, y: 0i32 })
    } else {
        m2
    });
    let c = m3.chunks[j]->0;
    let r = m3.with_chunk(j, c.set_cell(lp, e));
    assert(c.set_cell(lp, e).wf()) by {
        assert forall|i: int|
            0 <= i < c.set_cell(lp, e).grid.len() implies (#[trigger] c.set_cell(
            lp,
            e,
        ).grid[i]).wf() by {
            if i != Chunk::index_spec(lp) {
                assert(c.set_cell(lp, e).grid[i] == c.grid[i]);
            }
        }
    }
    assert(r.wf()) by {
        assert forall|k: int|
            0 <= k < 9 implies ((#[trigger] r.chunks[k]) matches Some(cc) ==> cc.wf()
            && cc.position == slot_chunk_pos(r.center, k)) by {
            if k != j {
                assert(r.chunks[k] == m3.chunks[k]);
            }
        }
    }
    assert(m.set_element_spec(pos, e) == r);
}

} // verus!
