//! The world registry: the owner of every chunk, keyed by chunk coordinate,
//! and the driver that advances the world one tick at a time. It also carries
//! the queue of freshly created chunk coordinates, which a rendering
//! collaborator drains to create a surface per chunk, and the pause flag.

use crate::chunk::{fresh_chunk_model, Chunk, ChunkModel};
use crate::coords::{
    dir_of_index, world_to_chunk_position, world_to_chunk_spec, world_to_element_position,
    world_to_element_spec,
};
use crate::element::{trunc_div, Element, ElementKind, Velocity};
use crate::local_api::{chunk_views, lemma_get_at_wf, slot_chunk_pos, ApiModel, LocalApi};
use crate::rect::{Pos, Rect};
use vstd::prelude::*;

verus! {

/// Whether two chunk coordinates are distinct neighbors (sharing an edge or a
/// corner).
pub open spec fn is_adjacent(a: Pos, b: Pos) -> bool {
    &&& !(a == b)
    &&& -1 <= a.x - b.x <= 1
    &&& -1 <= a.y - b.y <= 1
}

/// The chunk coordinate of the `k`-th chunk a fresh world starts with.
pub open spec fn initial_chunk_pos(k: int) -> Pos {
    Pos { x: (k / 3 - 1) as i32, y: (k % 3) as i32 }
}

/// The mathematical value of a [`Sandbox`]: the same fields with the chunks
/// as a sequence of chunk models.
#[verifier::ext_equal]
pub struct WorldModel {
    pub wframe: u8,
    pub chunks: Seq<ChunkModel>,
    pub fresh_chunks: Seq<Pos>,
    pub active: bool,
}

/// The chunk models held by a sequence of chunks.
pub open spec fn chunk_models(s: Seq<Chunk>) -> Seq<ChunkModel> {
    Seq::new(s.len(), |i: int| s[i]@)
}

/// The first index of the chunk model holding a coordinate, if any.
pub open spec fn model_index_of(chunks: Seq<ChunkModel>, position: Pos) -> Option<int>
    decreases chunks.len(),
{
    if chunks.len() == 0 {
        None::<int>
    } else if chunks[0].position == position {
        Some(0int)
    } else {
        match model_index_of(chunks.skip(1), position) {
            Some(i) => Some(i + 1),
            None => None,
        }
    }
}

/// What [`model_index_of`] finds: an index holding the coordinate, or a
/// guarantee that none does.
pub proof fn lemma_model_index_of(chunks: Seq<ChunkModel>, position: Pos)
    ensures
        match model_index_of(chunks, position) {
            Some(i) => 0 <= i < chunks.len() && chunks[i].position == position,
            None => forall|k: int|
                0 <= k < chunks.len() ==> (#[trigger] chunks[k]).position != position,
        },
    decreases chunks.len(),
{
    if chunks.len() != 0 && chunks[0].position != position {
        lemma_model_index_of(chunks.skip(1), position);
        match model_index_of(chunks.skip(1), position) {
            Some(i) => {
                assert(chunks.skip(1)[i] == chunks[i + 1]);
            },
            None => {
                assert forall|k: int|
                    0 <= k < chunks.len() implies (#[trigger] chunks[k]).position != position by {
                    if k >= 1 {
                        assert(chunks.skip(1)[k - 1] == chunks[k]);
                    }
                }
            },
        }
    }
}

/// With unique coordinates, [`model_index_of`] is the only index holding one.
pub proof fn lemma_model_index_unique(chunks: Seq<ChunkModel>, position: Pos, i: int)
    requires
        0 <= i < chunks.len(),
        chunks[i].position == position,
        forall|a: int, b: int|
            #![trigger chunks[a], chunks[b]]
            0 <= a < b < chunks.len() ==> chunks[a].position != chunks[b].position,
    ensures
        model_index_of(chunks, position) == Some(i),
{
    lemma_model_index_of(chunks, position);
    match model_index_of(chunks, position) {
        Some(j) => {
            if i < j {
                assert(chunks[i].position != chunks[j].position);
            } else if j < i {
                assert(chunks[j].position != chunks[i].position);
            }
        },
        None => {
            assert(chunks[i].position != position);
        },
    }
}

/// A trivially true marker used as a quantifier trigger where the quantified
/// witness itself is the only thing worth matching on.
pub open spec fn api_witness(m: ApiModel) -> bool {
    true
}

/// A trivially true marker used as a quantifier trigger for chunk-sequence
/// witnesses.
pub open spec fn chunks_witness(s: Seq<ChunkModel>) -> bool {
    true
}

/// One element-processing step of the scan relation: the context moved from
/// `m0` to `m1` by dispatching `position` with some pair of coin outcomes.
pub open spec fn steps_to(m0: ApiModel, m1: ApiModel, position: Pos) -> bool {
    exists|c1: int, c2: int|
        #[trigger] coin(c1) && #[trigger] coin(c2) && m1 == tick_element_spec(m0, position, c1, c2)
}

/// The context moved from `m0` to `m1` by dispatching rows `y0..y1` of column
/// `x` in ascending order.
pub open spec fn column_scanned(m0: ApiModel, m1: ApiModel, x: i32, y0: int, y1: int) -> bool
    decreases y1 - y0,
{
    if y0 >= y1 {
        m1 == m0
    } else {
        exists|mid: ApiModel|
            #[trigger] api_witness(mid) && column_scanned(m0, mid, x, y0, y1 - 1) && steps_to(
                mid,
                m1,
                Pos { x, y: (y1 - 1) as i32 },
            )
    }
}

/// The context moved from `m0` to `m1` by scanning the columns of `cols` in
/// order, each over rows `y0..y1`.
pub open spec fn columns_scanned(
    m0: ApiModel,
    m1: ApiModel,
    cols: Seq<i32>,
    y0: int,
    y1: int,
) -> bool
    decreases cols.len(),
{
    if cols.len() == 0 {
        m1 == m0
    } else {
        exists|mid: ApiModel|
            #[trigger] api_witness(mid) && columns_scanned(m0, mid, cols.drop_last(), y0, y1)
                && column_scanned(mid, m1, cols.last(), y0, y1)
    }
}

/// The column order of one tick's scan: even ticks ascending, odd descending.
pub open spec fn scan_order(wframe: u8, min_x: i32, max_x: i32) -> Seq<i32> {
    if min_x >= max_x {
        Seq::<i32>::empty()
    } else if wframe as int % 2 == 0 {
        Seq::new((max_x - min_x) as nat, |k: int| (min_x + k) as i32)
    } else {
        Seq::new((max_x - min_x) as nat, |k: int| (max_x - 1 - k) as i32)
    }
}

/// The neighbor context a tick step builds for a chunk: each slot holds the
/// registered chunk at the slot's coordinate, none otherwise.
pub open spec fn start_api(chunks: Seq<ChunkModel>, center: Pos, wframe: u8) -> ApiModel {
    ApiModel {
        center,
        chunks: Seq::new(
            9,
            |j: int|
                match model_index_of(chunks, slot_chunk_pos(center, j)) {
                    Some(i) => Some(chunks[i]),
                    None => None,
                },
        ),
        new_chunks: Seq::<usize>::empty(),
        element: (Element::default_spec(), Pos { x: 0i32, y: 0i32 }),
        wframe,
    }
}

/// The registry after one chunk's scan wrote its nine slots back: every chunk
/// whose coordinate is the center or one of its eight neighbors takes its
/// slot's final value, every other chunk is untouched.
pub open spec fn slots_written(
    chunks: Seq<ChunkModel>,
    center: Pos,
    slots: Seq<Option<ChunkModel>>,
) -> Seq<ChunkModel> {
    Seq::new(
        chunks.len(),
        |i: int|
            {
                let dx = chunks[i].position.x - center.x;
                let dy = chunks[i].position.y - center.y;
                if -1 <= dx <= 1 && -1 <= dy <= 1 {
                    match slots[(dx + 1) + (dy + 1) * 3] {
                        Some(c) => c,
                        None => chunks[i],
                    }
                } else {
                    chunks[i]
                }
            },
    )
}

/// The chunks a scan step created, in slot order: the slots that hold a chunk
/// after the scan although no registered chunk had their coordinate before.
pub open spec fn slots_created(
    chunks: Seq<ChunkModel>,
    center: Pos,
    slots: Seq<Option<ChunkModel>>,
    j: int,
) -> Seq<ChunkModel>
    decreases 9 - j,
{
    if j >= 9 {
        Seq::<ChunkModel>::empty()
    } else {
        let rest = slots_created(chunks, center, slots, j + 1);
        if model_index_of(chunks, slot_chunk_pos(center, j)) is None && slots[j] is Some {
            seq![slots[j]->0] + rest
        } else {
            rest
        }
    }
}

/// A chunk's dirty-rectangle buffers after rotation: the accumulated next
/// rectangle becomes current, and the next one starts empty.
pub open spec fn rotated(c: ChunkModel) -> ChunkModel {
    ChunkModel {
        current_dirty_rect: c.next_dirty_rect,
        next_dirty_rect: Rect::empty_spec(),
        ..c
    }
}

pub open spec fn chunk_model_active(c: ChunkModel) -> bool {
    !c.current_dirty_rect.is_empty_spec() || !c.next_dirty_rect.is_empty_spec()
}

/// Chunk coordinates far enough from the numeric rim that all nine slot
/// coordinates exist; a tick processes only such chunks.
pub open spec fn chunk_pos_in_world(p: Pos) -> bool {
    &&& -0xFF_FFFF <= p.x <= 0xFF_FFFF
    &&& -0xFF_FFFF <= p.y <= 0xFF_FFFF
}

/// One registered chunk's whole tick step, relating the registry before to
/// the registry after and the chunks the step created: an inactive chunk (or
/// one at the numeric rim) changes nothing; an active one is scanned over its
/// current dirty rectangle in scan order through [`tick_element_spec`], its
/// nine slots are written back, and its dirty buffers are rotated.
pub open spec fn chunk_ticked(
    chunks0: Seq<ChunkModel>,
    chunks1: Seq<ChunkModel>,
    created: Seq<ChunkModel>,
    k: int,
    wframe: u8,
) -> bool {
    let c = chunks0[k];
    if !chunk_model_active(c) || !chunk_pos_in_world(c.position) {
        chunks1 == chunks0 && created == Seq::<ChunkModel>::empty()
    } else {
        exists|api1: ApiModel|
            {
                &&& #[trigger] api_witness(api1)
                &&& columns_scanned(
                    start_api(chunks0, c.position, wframe),
                    api1,
                    scan_order(wframe, c.current_dirty_rect.min.x, c.current_dirty_rect.max.x),
                    c.current_dirty_rect.min.y as int,
                    c.current_dirty_rect.max.y as int,
                )
                &&& ({
                    let written = slots_written(chunks0, c.position, api1.chunks);
                    chunks1 == written.update(k, rotated(written[k]))
                })
                &&& created == slots_created(chunks0, c.position, api1.chunks, 0)
            }
    }
}

/// The pass over the snapshot: the first `k` registered chunks processed in
/// order, accumulating the chunks created along the way.
pub open spec fn pass_ticked(
    chunks0: Seq<ChunkModel>,
    chunks1: Seq<ChunkModel>,
    created: Seq<ChunkModel>,
    k: int,
    wframe: u8,
) -> bool
    decreases k,
{
    if k <= 0 {
        chunks1 == chunks0 && created == Seq::<ChunkModel>::empty()
    } else {
        exists|mid: Seq<ChunkModel>, c1: Seq<ChunkModel>, c2: Seq<ChunkModel>|
            {
                &&& #[trigger] chunks_witness(mid)
                &&& #[trigger] chunks_witness(c1)
                &&& #[trigger] chunks_witness(c2)
                &&& pass_ticked(chunks0, mid, c1, k - 1, wframe)
                &&& chunk_ticked(mid, chunks1, c2, k - 1, wframe)
                &&& created == c1 + c2
            }
    }
}

/// One more element extends a column scan.
proof fn lemma_column_scanned_step(m0: ApiModel, mid: ApiModel, m1: ApiModel, x: i32, y0: int, y: int)
    requires
        y0 <= y,
        column_scanned(m0, mid, x, y0, y),
        steps_to(mid, m1, Pos { x, y: y as i32 }),
    ensures
        column_scanned(m0, m1, x, y0, y + 1),
{
    assert(api_witness(mid));
    assert(column_scanned(m0, mid, x, y0, (y + 1) - 1));
    assert(steps_to(mid, m1, Pos { x, y: ((y + 1) - 1) as i32 }));
}

/// One more column extends a chunk scan.
proof fn lemma_columns_scanned_step(
    m0: ApiModel,
    mid: ApiModel,
    m1: ApiModel,
    cols: Seq<i32>,
    y0: int,
    y1: int,
)
    requires
        cols.len() > 0,
        columns_scanned(m0, mid, cols.drop_last(), y0, y1),
        column_scanned(mid, m1, cols.last(), y0, y1),
    ensures
        columns_scanned(m0, m1, cols, y0, y1),
{
    assert(api_witness(mid));
}

/// One more chunk extends the pass.
proof fn lemma_pass_ticked_step(
    chunks0: Seq<ChunkModel>,
    mid: Seq<ChunkModel>,
    chunks1: Seq<ChunkModel>,
    c1: Seq<ChunkModel>,
    c2: Seq<ChunkModel>,
    k: int,
    wframe: u8,
)
    requires
        k >= 0,
        pass_ticked(chunks0, mid, c1, k, wframe),
        chunk_ticked(mid, chunks1, c2, k, wframe),
    ensures
        pass_ticked(chunks0, chunks1, c1 + c2, k + 1, wframe),
{
    assert(chunks_witness(mid));
    assert(chunks_witness(c1));
    assert(chunks_witness(c2));
    assert(pass_ticked(chunks0, mid, c1, (k + 1) - 1, wframe));
    assert(chunk_ticked(mid, chunks1, c2, (k + 1) - 1, wframe));
}

/// The model of [`Sandbox::add_chunk`]: insert the chunk at its coordinate
/// (replacing any chunk already there), enqueue the coordinate, and mark
/// every neighbor fully dirty.
pub open spec fn model_add_chunk(w: WorldModel, c: ChunkModel) -> WorldModel {
    let inserted = match model_index_of(w.chunks, c.position) {
        Some(i) => w.chunks.update(i, c),
        None => w.chunks.push(c),
    };
    let marked = Seq::new(
        inserted.len(),
        |i: int|
            if is_adjacent(inserted[i].position, c.position) {
                inserted[i].mark_all()
            } else {
                inserted[i]
            },
    );
    WorldModel { chunks: marked, fresh_chunks: w.fresh_chunks.push(c.position), ..w }
}

/// The registry after folding every chunk created during a tick back in, in
/// creation order.
pub open spec fn folded_in(w: WorldModel, pending: Seq<ChunkModel>) -> WorldModel
    decreases pending.len(),
{
    if pending.len() == 0 {
        w
    } else {
        folded_in(model_add_chunk(w, pending[0]), pending.skip(1))
    }
}

/// The world registry: all chunks (a chunk, once created, is never removed),
/// the wrapping tick counter, the queue of freshly created chunk coordinates,
/// and the pause flag.
pub struct Sandbox {
    pub wframe: u8,
    pub chunks: Vec<Chunk>,
    pub fresh_chunks: Vec<Pos>,
    pub active: bool,
}

impl View for Sandbox {
    type V = WorldModel;

    open spec fn view(&self) -> WorldModel {
        WorldModel {
            wframe: self.wframe,
            chunks: chunk_models(self.chunks@),
            fresh_chunks: self.fresh_chunks@,
            active: self.active,
        }
    }
}

impl Sandbox {
    /// Every chunk is well-formed and chunk coordinates are unique.
    pub open spec fn wf(self) -> bool {
        &&& (forall|i: int| 0 <= i < self.chunks@.len() ==> (#[trigger] self.chunks@[i]).wf())
        &&& (forall|i: int, k: int|
            #![trigger self.chunks@[i], self.chunks@[k]]
            0 <= i < k < self.chunks@.len() ==> self.chunks@[i].position
                != self.chunks@[k].position)
    }

    pub open spec fn has_chunk_at(self, position: Pos) -> bool {
        exists|i: int|
            0 <= i < self.chunks@.len() && (#[trigger] self.chunks@[i]).position == position
    }

    /// A fresh world: a three-by-three block of empty chunks, running.
    pub fn new() -> (r: Sandbox)
        ensures
            r.wf(),
            r.active,
            r.wframe == 0,
            r.chunks@.len() == 9,
            r.fresh_chunks@.len() == 9,
            forall|k: int|
                0 <= k < 9 ==> (#[trigger] r.chunks@[k])@ == fresh_chunk_model(
                    initial_chunk_pos(k),
                ),
            forall|k: int| 0 <= k < 9 ==> (#[trigger] r.fresh_chunks@[k]) == initial_chunk_pos(k),
    {
        let mut sandbox = Sandbox {
            wframe: 0,
            chunks: Vec::new(),
            fresh_chunks: Vec::new(),
            active: true,
        };
        let mut x: i32 = -1;
        while x <= 1
            invariant
                -1 <= x <= 2,
                sandbox.wf(),
                sandbox.active,
                sandbox.wframe == 0,
                sandbox.chunks@.len() == (x + 1) * 3,
                sandbox.fresh_chunks@.len() == (x + 1) * 3,
                forall|k: int|
                    0 <= k < sandbox.chunks@.len() ==> (#[trigger] sandbox.chunks@[k])@
                        == fresh_chunk_model(initial_chunk_pos(k)),
                forall|k: int|
                    0 <= k < sandbox.fresh_chunks@.len() ==> (#[trigger] sandbox.fresh_chunks@[k])
                        == initial_chunk_pos(k),
            decreases 2 - x,
        {
            let mut y: i32 = 0;
            while y <= 2
                invariant
                    -1 <= x <= 1,
                    0 <= y <= 3,
                    sandbox.wf(),
                    sandbox.active,
                    sandbox.wframe == 0,
                    sandbox.chunks@.len() == (x + 1) * 3 + y,
                    sandbox.fresh_chunks@.len() == (x + 1) * 3 + y,
                    forall|k: int|
                        0 <= k < sandbox.chunks@.len() ==> (#[trigger] sandbox.chunks@[k])@
                            == fresh_chunk_model(initial_chunk_pos(k)),
                    forall|k: int|
                        0 <= k < sandbox.fresh_chunks@.len() ==> (
                        #[trigger] sandbox.fresh_chunks@[k]) == initial_chunk_pos(k),
                decreases 3 - y,
            {
                let ghost before = sandbox.chunks@;
                sandbox.add_chunk(Chunk::new(Pos { x, y }));
                proof {
                    assert(initial_chunk_pos(before.len() as int) == (Pos { x, y })) by {
                        vstd::arithmetic::div_mod::lemma_fundamental_div_mod_converse(
                            before.len() as int,
                            3,
                            x + 1,
                            y as int,
                        );
                    }
                    assert forall|k: int| 0 <= k < sandbox.chunks@.len() implies (
                    #[trigger] sandbox.chunks@[k])@ == fresh_chunk_model(initial_chunk_pos(k)) by {
                        if k < before.len() {
                            assert(before[k]@ == fresh_chunk_model(initial_chunk_pos(k)));
                            assert(!is_adjacent(before[k].position, (Pos { x, y }))
                                ==> sandbox.chunks@[k]@ == before[k]@);
                            assert(sandbox.chunks@[k]@.grid == before[k]@.grid);
                            assert(sandbox.chunks@[k]@ =~= fresh_chunk_model(initial_chunk_pos(k)));
                        }
                    }
                }
                y += 1;
            }
            x += 1;
        }
        sandbox
    }

    /// The index of the chunk at a coordinate, if one exists.
    pub fn chunk_index_of(&self, position: Pos) -> (r: Option<usize>)
        ensures
            match r {
                Some(i) => i < self.chunks@.len() && self.chunks@[i as int].position == position,
                None => !self.has_chunk_at(position),
            },
    {
        let mut i: usize = 0;
        while i < self.chunks.len()
            invariant
                i <= self.chunks@.len(),
                forall|k: int| 0 <= k < i ==> (#[trigger] self.chunks@[k]).position != position,
            decreases self.chunks@.len() - i,
        {
            if self.chunks[i].position == position {
                return Some(i);
            }
            i += 1;
        }
        None
    }

    /// A read-only view of the chunk at a coordinate, for rendering and
    /// inspection.
    pub fn get_chunk(&self, position: Pos) -> (r: Option<&Chunk>)
        ensures
            match r {
                Some(c) => self.has_chunk_at(position) && c.position == position && (exists|i: int|
                    0 <= i < self.chunks@.len() && *c == #[trigger] self.chunks@[i]),
                None => !self.has_chunk_at(position),
            },
    {
        match self.chunk_index_of(position) {
            Some(i) => Some(&self.chunks[i]),
            None => None,
        }
    }

    /// Hand over the coordinates of every chunk created since the queue was
    /// last drained, leaving the queue empty. A rendering collaborator calls
    /// this to create one visual surface per new chunk.
    pub fn take_fresh_chunks(&mut self) -> (r: Vec<Pos>)
        ensures
            r@ == old(self).fresh_chunks@,
            final(self).fresh_chunks@.len() == 0,
            final(self).chunks == old(self).chunks,
            final(self).wframe == old(self).wframe,
            final(self).active == old(self).active,
    {
        let mut drained: Vec<Pos> = Vec::new();
        core::mem::swap(&mut drained, &mut self.fresh_chunks);
        drained
    }

    /// Insert a chunk into the registry (replacing any chunk already at its
    /// coordinate), enqueue its coordinate for the fresh-chunk queue, and mark
    /// all its existing neighbors fully dirty, since new adjacent terrain
    /// changes their boundary conditions.
    pub fn add_chunk(&mut self, chunk: Chunk)
        requires
            old(self).wf(),
            chunk.wf(),
        ensures
            final(self).wf(),
            final(self).wframe == old(self).wframe,
            final(self).active == old(self).active,
            final(self).fresh_chunks@ == old(self).fresh_chunks@.push(chunk.position),
            old(self).has_chunk_at(chunk.position) ==> final(self).chunks@.len() == old(self).chunks@.len(),
            !old(self).has_chunk_at(chunk.position) ==> final(self).chunks@.len() == old(self).chunks@.len() + 1,
            forall|i: int|
                0 <= i < old(self).chunks@.len() ==> (#[trigger] final(self).chunks@[i])@ == (
                if old(self).chunks@[i].position == chunk.position {
                    chunk@
                } else if is_adjacent(old(self).chunks@[i].position, chunk.position) {
                    old(self).chunks@[i]@.mark_all()
                } else {
                    old(self).chunks@[i]@
                }),
            forall|i: int|
                0 <= i < old(self).chunks@.len() ==> (#[trigger] final(self).chunks@[i]).position
                    == old(self).chunks@[i].position,
            !old(self).has_chunk_at(chunk.position) ==> final(self).chunks@[old(self).chunks@.len() as int]@ == chunk@,
            final(self)@ == model_add_chunk(old(self)@, chunk@),
    {
        let ghost m0 = self@;
        let position = chunk.position;
        let found = self.chunk_index_of(position);
        proof {
            match found {
                Some(i) => {
                    lemma_model_index_unique(m0.chunks, position, i as int);
                },
                None => {
                    lemma_model_index_of(m0.chunks, position);
                    if model_index_of(m0.chunks, position) is Some {
                        let i = model_index_of(m0.chunks, position)->0;
                        assert(self.chunks@[i].position == position);
                    }
                },
            }
        }
        let ghost inserted = (match model_index_of(m0.chunks, position) {
            Some(i) => m0.chunks.update(i, chunk@),
            None => m0.chunks.push(chunk@),
        });
        match found {
            Some(i) => {
                self.chunks[i] = chunk;
            },
            None => {
                self.chunks.push(chunk);
            },
        }
        proof {
            assert(chunk_models(self.chunks@) =~= inserted);
        }
        let ghost mid = self@;
        self.fresh_chunks.push(position);
        self.mark_chunks_surrounding_as_dirty(position);
        proof {
            assert(self@.chunks =~= Seq::new(
                inserted.len(),
                |i: int|
                    if is_adjacent(inserted[i].position, position) {
                        inserted[i].mark_all()
                    } else {
                        inserted[i]
                    },
            )) by {
                assert forall|i: int| 0 <= i < inserted.len() implies self@.chunks[i] == (
                if is_adjacent(inserted[i].position, position) {
                    inserted[i].mark_all()
                } else {
                    inserted[i]
                }) by {
                    assert(mid.chunks[i] == inserted[i]);
                    assert(self.chunks@[i]@ == (if is_adjacent(mid.chunks[i].position, position) {
                        mid.chunks[i].mark_all()
                    } else {
                        mid.chunks[i]
                    }));
                }
            }
            assert(self@ =~= model_add_chunk(m0, chunk@));
        }
    }

    /// Mark every existing neighbor of a chunk coordinate fully dirty, so that
    /// each is completely rescanned on the next tick.
    pub fn mark_chunks_surrounding_as_dirty(&mut self, position: Pos)
        requires
            old(self).wf(),
        ensures
            final(self).wf(),
            final(self).wframe == old(self).wframe,
            final(self).active == old(self).active,
            final(self).fresh_chunks@ == old(self).fresh_chunks@,
            final(self).chunks@.len() == old(self).chunks@.len(),
            forall|i: int|
                0 <= i < old(self).chunks@.len() ==> (#[trigger] final(self).chunks@[i])@ == (
                if is_adjacent(old(self).chunks@[i].position, position) {
                    old(self).chunks@[i]@.mark_all()
                } else {
                    old(self).chunks@[i]@
                }),
            forall|i: int|
                0 <= i < old(self).chunks@.len() ==> (#[trigger] final(self).chunks@[i]).position
                    == old(self).chunks@[i].position,
    {
        let n = self.chunks.len();
        let mut i: usize = 0;
        while i < n
            invariant
                i <= n,
                n == self.chunks@.len(),
                n == old(self).chunks@.len(),
                self.wframe == old(self).wframe,
                self.active == old(self).active,
                self.fresh_chunks@ == old(self).fresh_chunks@,
                self.wf(),
                forall|k: int|
                    0 <= k < i ==> (#[trigger] self.chunks@[k])@ == (if is_adjacent(
                        old(self).chunks@[k].position,
                        position,
                    ) {
                        old(self).chunks@[k]@.mark_all()
                    } else {
                        old(self).chunks@[k]@
                    }),
                forall|k: int| i <= k < n ==> self.chunks@[k] == old(self).chunks@[k],
                forall|k: int|
                    0 <= k < n ==> (#[trigger] self.chunks@[k]).position == old(self).chunks@[k].position,
            decreases n - i,
        {
            let cx = self.chunks[i].position.x as i64;
            let cy = self.chunks[i].position.y as i64;
            let px = position.x as i64;
            let py = position.y as i64;
            let same = cx == px && cy == py;
            let near_x = cx >= px - 1 && cx <= px + 1;
            let near_y = cy >= py - 1 && cy <= py + 1;
            if !same && near_x && near_y {
                let c = &mut self.chunks[i];
                c.mark_dirty_everything();
            }
            i += 1;
        }
    }

    /// Write an element at a world position, creating the owning chunk first
    /// if it does not exist yet (which also enqueues it on the fresh-chunk
    /// queue and marks its existing neighbors fully dirty). The written cell
    /// is marked dirty either way.
    pub fn place_element(&mut self, world_position: Pos, element: Element)
        requires
            old(self).wf(),
            element.wf(),
            -0x100_0000 <= world_position.x <= 0x100_0000,
            -0x100_0000 <= world_position.y <= 0x100_0000,
        ensures
            final(self).wf(),
            final(self).wframe == old(self).wframe,
            final(self).active == old(self).active,
            ({
                let cp = world_to_chunk_spec(world_position);
                let lp = world_to_element_spec(world_position);
                &&& (old(self).has_chunk_at(cp) ==> {
                    &&& final(self).chunks@.len() == old(self).chunks@.len()
                    &&& final(self).fresh_chunks@ == old(self).fresh_chunks@
                    &&& (forall|i: int|
                        0 <= i < old(self).chunks@.len() ==> (#[trigger] final(self).chunks@[i])@ == (if old(self).chunks@[i].position == cp {
                            old(self).chunks@[i]@.set_cell(lp, element)
                        } else {
                            old(self).chunks@[i]@
                        }))
                })
                &&& (!old(self).has_chunk_at(cp) ==> {
                    &&& final(self).chunks@.len() == old(self).chunks@.len() + 1
                    &&& final(self).fresh_chunks@ == old(self).fresh_chunks@.push(cp)
                    &&& (forall|i: int|
                        0 <= i < old(self).chunks@.len() ==> (#[trigger] final(self).chunks@[i])@ == (if is_adjacent(old(self).chunks@[i].position, cp) {
                            old(self).chunks@[i]@.mark_all()
                        } else {
                            old(self).chunks@[i]@
                        }))
                    &&& final(self).chunks@[old(self).chunks@.len() as int]@ == fresh_chunk_model(
                        cp,
                    ).set_cell(lp, element)
                })
            }),
    {
        let chunk_position = world_to_chunk_position(world_position);
        let element_position = world_to_element_position(world_position);
        let index = match self.chunk_index_of(chunk_position) {
            Some(i) => i,
            None => {
                self.add_chunk(Chunk::new(chunk_position));
                self.chunks.len() - 1
            },
        };
        let c = &mut self.chunks[index];
        c.set_element(element_position, element);
    }
}

/// Whether some slot of a source table points at registry index `i`.
pub open spec fn holds_index(sources: Seq<Option<usize>>, i: int) -> bool {
    exists|t: int| 0 <= t < sources.len() && ((#[trigger] sources[t]) matches Some(s) && s == i)
}

/// The slot index of a unit chunk offset, and the coordinate it stands for.
proof fn lemma_slot_of_delta(center: Pos, dx: int, dy: int)
    requires
        -1 <= dx <= 1,
        -1 <= dy <= 1,
        -0xFF_FFFF <= center.x <= 0xFF_FFFF,
        -0xFF_FFFF <= center.y <= 0xFF_FFFF,
    ensures
        0 <= (dx + 1) + (dy + 1) * 3 < 9,
        slot_chunk_pos(center, (dx + 1) + (dy + 1) * 3) == (Pos {
            x: (center.x + dx) as i32,
            y: (center.y + dy) as i32,
        }),
{
    let t = (dx + 1) + (dy + 1) * 3;
    vstd::arithmetic::div_mod::lemma_fundamental_div_mod_converse(t, 3, dy + 1, dx + 1);
}

/// Distinct slots stand for distinct chunk coordinates.
proof fn lemma_slot_pos_injective(center: Pos, t1: int, t2: int)
    requires
        0 <= t1 < 9,
        0 <= t2 < 9,
        t1 != t2,
        -0xFF_FFFF <= center.x <= 0xFF_FFFF,
        -0xFF_FFFF <= center.y <= 0xFF_FFFF,
    ensures
        slot_chunk_pos(center, t1) != slot_chunk_pos(center, t2),
{
    vstd::arithmetic::div_mod::lemma_mod_bound(t1, 3);
    vstd::arithmetic::div_mod::lemma_mod_bound(t2, 3);
    vstd::arithmetic::div_mod::lemma_fundamental_div_mod(t1, 3);
    vstd::arithmetic::div_mod::lemma_fundamental_div_mod(t2, 3);
    if slot_chunk_pos(center, t1) == slot_chunk_pos(center, t2) {
        assert(t1 % 3 == t2 % 3);
        assert(t1 / 3 == t2 / 3);
        assert(false);
    }
}

proof fn lemma_chunk_models_update(s: Seq<Chunk>, j: int, c: Chunk)
    requires
        0 <= j < s.len(),
    ensures
        chunk_models(s.update(j, c)) == chunk_models(s).update(j, c@),
{
    assert(chunk_models(s.update(j, c)) =~= chunk_models(s).update(j, c@));
}

proof fn lemma_chunk_models_push(s: Seq<Chunk>, c: Chunk)
    ensures
        chunk_models(s.push(c)) == chunk_models(s).push(c@),
{
    assert(chunk_models(s.push(c)) =~= chunk_models(s).push(c@));
}

impl Sandbox {
    /// Advance the world one step: a no-op while paused. The wrapping tick
    /// counter is incremented, and the registry moves to exactly the world
    /// that [`pass_ticked`] relates it to, for some sequence of coin
    /// outcomes, followed by [`folded_in`] over the chunks the pass created:
    /// every chunk registered at the start of the tick that is active (and
    /// far enough from the numeric world rim that its neighbors have
    /// coordinates) is scanned over its current dirty rectangle, column by
    /// column in [`scan_order`], cell by cell through [`tick_element_spec`];
    /// its nine neighbor slots are written back and its dirty buffers
    /// rotated; and every chunk created during the pass is folded into the
    /// registry by [`model_add_chunk`], which enqueues its coordinate once
    /// and marks its neighbors fully dirty. Chunk coordinates and the order
    /// of registered chunks never change.
    #[verifier::rlimit(100)]
    #[verifier::spinoff_prover]
    pub fn tick(&mut self)
        requires
            old(self).wf(),
        ensures
            final(self).wf(),
            !old(self).active ==> *final(self) == *old(self),
            final(self).active == old(self).active,
            old(self).active ==> final(self).wframe == (if old(self).wframe == 255 {
                0u8
            } else {
                (old(self).wframe + 1) as u8
            }),
            final(self).chunks@.len() >= old(self).chunks@.len(),
            forall|i: int|
                0 <= i < old(self).chunks@.len() ==> (#[trigger] final(self).chunks@[i]).position
                    == old(self).chunks@[i].position,
            old(self).fresh_chunks@.is_prefix_of(final(self).fresh_chunks@),
            old(self).active ==> exists|scanned: Seq<ChunkModel>, created: Seq<ChunkModel>|
                #[trigger] pass_ticked(
                    chunk_models(old(self).chunks@),
                    scanned,
                    created,
                    old(self).chunks@.len() as int,
                    final(self).wframe,
                ) && final(self)@ == folded_in(
                    WorldModel {
                        wframe: final(self).wframe,
                        chunks: scanned,
                        fresh_chunks: old(self).fresh_chunks@,
                        active: true,
                    },
                    created,
                ),
    {
        if !self.active {
            return ;
        }
        self.wframe = self.wframe.wrapping_add(1);
        let wframe = self.wframe;
        let ghost models0 = chunk_models(self.chunks@);
        let chunk_count = self.chunks.len();
        let mut pending: Vec<Chunk> = Vec::new();
        let mut k: usize = 0;
        proof {
            assert(chunk_models(pending@) =~= Seq::<ChunkModel>::empty());
            assert(pass_ticked(models0, chunk_models(self.chunks@), chunk_models(pending@), 0, wframe));
        }
        while k < chunk_count
            invariant
                k <= chunk_count,
                self.wf(),
                self.active,
                self.wframe == wframe,
                self.chunks@.len() == chunk_count,
                self.fresh_chunks@ == old(self).fresh_chunks@,
                models0 == chunk_models(old(self).chunks@),
                models0.len() == chunk_count,
                forall|i: int|
                    0 <= i < chunk_count ==> (#[trigger] self.chunks@[i]).position == old(self).chunks@[i].position,
                forall|i: int| 0 <= i < pending@.len() ==> (#[trigger] pending@[i]).wf(),
                pass_ticked(models0, chunk_models(self.chunks@), chunk_models(pending@), k as int, wframe),
            decreases chunk_count - k,
        {
            let ghost models_k = chunk_models(self.chunks@);
            let ghost pending0 = pending@;
            let is_active = self.chunks[k].active();
            let center = self.chunks[k].position;
            let in_world = center.x >= -0xFF_FFFF && center.x <= 0xFF_FFFF && center.y >= -0xFF_FFFF
                && center.y <= 0xFF_FFFF;
            if is_active && in_world {
                let dirty = self.chunks[k].dirty_rect();
                proof {
                    assert forall|a: int, b: int|
                        #![trigger models_k[a], models_k[b]]
                        0 <= a < b < chunk_count implies models_k[a].position != models_k[b].position by {
                        assert(models_k[a].position == self.chunks@[a].position);
                        assert(models_k[b].position == self.chunks@[b].position);
                    }
                }
                let mut slots: Vec<Option<Chunk>> = Vec::new();
                let mut sources: Vec<Option<usize>> = Vec::new();
                let mut j: usize = 0;
                while j < 9
                    invariant
                        j <= 9,
                        slots@.len() == j,
                        sources@.len() == j,
                        self.wf(),
                        self.active,
                        self.wframe == wframe,
                        self.fresh_chunks@ == old(self).fresh_chunks@,
                        self.chunks@.len() == chunk_count,
                        models_k.len() == chunk_count,
                        -0xFF_FFFF <= center.x <= 0xFF_FFFF,
                        -0xFF_FFFF <= center.y <= 0xFF_FFFF,
                        forall|i: int|
                            0 <= i < chunk_count ==> (#[trigger] self.chunks@[i]).position == old(self).chunks@[i].position,
                        forall|i: int|
                            0 <= i < chunk_count ==> (#[trigger] models_k[i]).position == self.chunks@[i].position,
                        forall|a: int, b: int|
                            #![trigger models_k[a], models_k[b]]
                            0 <= a < b < chunk_count ==> models_k[a].position != models_k[b].position,
                        forall|t: int|
                            0 <= t < j ==> match #[trigger] sources@[t] {
                                Some(i) => i < chunk_count && model_index_of(
                                    models_k,
                                    slot_chunk_pos(center, t),
                                ) == Some(i as int) && self.chunks@[i as int].position
                                    == slot_chunk_pos(center, t) && (slots@[t] matches Some(c)
                                    && c.wf() && c.position == slot_chunk_pos(center, t) && c@
                                    == models_k[i as int]),
                                None => model_index_of(models_k, slot_chunk_pos(center, t))
                                    is None && slots@[t] is None,
                            },
                        forall|i: int|
                            0 <= i < chunk_count && !holds_index(sources@, i) ==> chunk_models(
                                self.chunks@,
                            )[i] == models_k[i],
                    decreases 9 - j,
                {
                    let dir = dir_of_index(j);
                    let target = Pos { x: center.x + dir.x, y: center.y + dir.y };
                    proof {
                        assert(target == slot_chunk_pos(center, j as int));
                    }
                    let ghost sources_before = sources@;
                    match self.chunk_index_of(target) {
                        Some(i) => {
                            proof {
                                assert(models_k[i as int].position == target);
                                lemma_model_index_unique(models_k, target, i as int);
                                assert(!holds_index(sources_before, i as int)) by {
                                    if holds_index(sources_before, i as int) {
                                        let t2 = choose|t2: int|
                                            0 <= t2 < sources_before.len() && ((
                                            #[trigger] sources_before[t2]) matches Some(s2) && s2
                                                == i as int);
                                        assert(models_k[i as int].position == slot_chunk_pos(
                                            center,
                                            t2,
                                        ));
                                        lemma_slot_pos_injective(center, t2, j as int);
                                    }
                                }
                                assert(chunk_models(self.chunks@)[i as int] == models_k[i as int]);
                            }
                            let ghost before_swap = self.chunks@;
                            let mut taken = Chunk::new(target);
                            let slot_ref = &mut self.chunks[i];
                            core::mem::swap(&mut taken, slot_ref);
                            proof {
                                assert(taken == before_swap[i as int]);
                                assert(taken@ == models_k[i as int]);
                                lemma_chunk_models_update(
                                    before_swap,
                                    i as int,
                                    self.chunks@[i as int],
                                );
                            }
                            slots.push(Some(taken));
                            sources.push(Some(i));
                            proof {
                                assert forall|i2: int|
                                    0 <= i2 < chunk_count && !holds_index(sources@, i2) implies
                                    chunk_models(self.chunks@)[i2] == models_k[i2] by {
                                    assert(sources@[j as int] == Some(i));
                                    if i2 != i as int {
                                        if !holds_index(sources_before, i2) {
                                        } else {
                                            let t2 = choose|t2: int|
                                                0 <= t2 < sources_before.len() && ((
                                                #[trigger] sources_before[t2]) matches Some(s2)
                                                    && s2 == i2);
                                            assert(sources@[t2] == sources_before[t2]);
                                        }
                                    }
                                }
                            }
                        },
                        None => {
                            proof {
                                lemma_model_index_of(models_k, target);
                                if model_index_of(models_k, target) is Some {
                                    let i2 = model_index_of(models_k, target)->0;
                                    assert(models_k[i2].position == target);
                                    assert(self.chunks@[i2].position == target);
                                }
                                assert(model_index_of(models_k, target) is None);
                            }
                            slots.push(None);
                            sources.push(None);
                            proof {
                                assert forall|i2: int|
                                    0 <= i2 < chunk_count && !holds_index(sources@, i2) implies
                                    chunk_models(self.chunks@)[i2] == models_k[i2] by {
                                    if !holds_index(sources_before, i2) {
                                    } else {
                                        let t2 = choose|t2: int|
                                            0 <= t2 < sources_before.len() && ((
                                            #[trigger] sources_before[t2]) matches Some(s2) && s2
                                                == i2);
                                        assert(sources@[t2] == sources_before[t2]);
                                    }
                                }
                            }
                        },
                    }
                    j += 1;
                }
                proof {
                    assert forall|t: int|
                        0 <= t < 9 implies ((#[trigger] slots@[t]) matches Some(c) ==> c.wf()
                        && c.position == slot_chunk_pos(center, t)) by {
                        if slots@[t] is Some {
                            assert(sources@[t] is Some || slots@[t] is None);
                        }
                    }
                }
                let mut api = LocalApi::new(
                    center,
                    wframe,
                    (Element::default(), Pos { x: 0, y: 0 }),
                    slots,
                );
                proof {
                    assert forall|t: int|
                        0 <= t < 9 && sources@[t] is Some implies (#[trigger] api@.chunks[t])
                        is Some by {
                        assert(api@.chunks[t] == chunk_views(slots@)[t]);
                    }
                    assert(api@.chunks =~= start_api(models_k, center, wframe).chunks) by {
                        assert forall|t: int|
                            0 <= t < 9 implies api@.chunks[t] == start_api(
                            models_k,
                            center,
                            wframe,
                        ).chunks[t] by {
                            assert(api@.chunks[t] == chunk_views(slots@)[t]);
                            match sources@[t] {
                                Some(i) => {},
                                None => {},
                            }
                        }
                    }
                    assert(api@ =~= start_api(models_k, center, wframe));
                }
                let ghost api_start = api@;
                let cols = scan_columns(wframe, dirty.min.x, dirty.max.x);
                let ghost y_lo = dirty.min.y as int;
                let ghost y_hi = dirty.max.y as int;
                let mut ci: usize = 0;
                proof {
                    assert(cols@.take(0) =~= Seq::<i32>::empty());
                }
                while ci < cols.len()
                    invariant
                        ci <= cols@.len(),
                        api@.wf(),
                        api@.center == center,
                        api@.wframe == wframe,
                        sources@.len() == 9,
                        y_lo == dirty.min.y as int,
                        y_hi == dirty.max.y as int,
                        forall|t: int|
                            0 <= t < 9 && sources@[t] is Some ==> (#[trigger] api@.chunks[t])
                                is Some,
                        columns_scanned(api_start, api@, cols@.take(ci as int), y_lo, y_hi),
                    decreases cols@.len() - ci,
                {
                    let x = cols[ci];
                    let ghost col_start = api@;
                    let mut y = dirty.min.y;
                    while y < dirty.max.y
                        invariant
                            api@.wf(),
                            api@.center == center,
                            api@.wframe == wframe,
                            sources@.len() == 9,
                            y <= dirty.max.y || y == dirty.min.y,
                            dirty.min.y <= y,
                            y_lo == dirty.min.y as int,
                            y_hi == dirty.max.y as int,
                            forall|t: int|
                                0 <= t < 9 && sources@[t] is Some ==> (#[trigger] api@.chunks[t])
                                    is Some,
                            column_scanned(col_start, api@, x, y_lo, y as int),
                        decreases dirty.max.y - y,
                    {
                        let ghost api_before = api@;
                        tick_element(Pos { x, y }, &mut api);
                        proof {
                            let (c1, c2) = choose|c1: int, c2: int|
                                #[trigger] coin(c1) && #[trigger] coin(c2) && api@
                                    == tick_element_spec(api_before, Pos { x, y }, c1, c2);
                            assert(steps_to(api_before, api@, Pos { x, y }));
                            lemma_column_scanned_step(
                                col_start,
                                api_before,
                                api@,
                                x,
                                y_lo,
                                y as int,
                            );
                        }
                        y += 1;
                    }
                    proof {
                        assert(column_scanned(col_start, api@, x, y_lo, y_hi));
                        assert(cols@.take(ci as int + 1).drop_last() =~= cols@.take(ci as int));
                        assert(cols@.take(ci as int + 1).last() == x);
                        lemma_columns_scanned_step(
                            api_start,
                            col_start,
                            api@,
                            cols@.take(ci as int + 1),
                            y_lo,
                            y_hi,
                        );
                    }
                    ci += 1;
                }
                proof {
                    assert(cols@.take(cols@.len() as int) =~= cols@);
                }
                let ghost api1 = api@;
                let ghost created_k = slots_created(models_k, center, api1.chunks, 0);
                let ghost restore_start = chunk_models(self.chunks@);
                let mut j2: usize = 0;
                while j2 < 9
                    invariant
                        j2 <= 9,
                        api@.wf(),
                        api@.center == center,
                        api1.center == center,
                        sources@.len() == 9,
                        api@.chunks.len() == 9,
                        api1.chunks.len() == 9,
                        self.wf(),
                        self.chunks@.len() == chunk_count,
                        models_k.len() == chunk_count,
                        self.wframe == wframe,
                        self.active,
                        self.fresh_chunks@ == old(self).fresh_chunks@,
                        -0xFF_FFFF <= center.x <= 0xFF_FFFF,
                        -0xFF_FFFF <= center.y <= 0xFF_FFFF,
                        forall|i: int|
                            0 <= i < chunk_count ==> (#[trigger] self.chunks@[i]).position == old(self).chunks@[i].position,
                        forall|i: int|
                            0 <= i < chunk_count ==> (#[trigger] models_k[i]).position == self.chunks@[i].position,
                        forall|t: int|
                            0 <= t < 9 ==> match #[trigger] sources@[t] {
                                Some(i) => i < chunk_count && model_index_of(
                                    models_k,
                                    slot_chunk_pos(center, t),
                                ) == Some(i as int) && self.chunks@[i as int].position
                                    == slot_chunk_pos(center, t) && api1.chunks[t] is Some,
                                None => model_index_of(models_k, slot_chunk_pos(center, t))
                                    is None,
                            },
                        forall|t: int| j2 <= t < 9 ==> api@.chunks[t] == api1.chunks[t],
                        forall|t: int|
                            0 <= t < j2 ==> ((#[trigger] sources@[t]) matches Some(i)
                                ==> chunk_models(self.chunks@)[i as int] == api1.chunks[t]->0),
                        forall|i: int|
                            0 <= i < chunk_count && !holds_index(sources@, i) ==> chunk_models(
                                self.chunks@,
                            )[i] == models_k[i],
                        chunk_models(pending0) + created_k == chunk_models(pending@)
                            + slots_created(models_k, center, api1.chunks, j2 as int),
                        forall|i: int| 0 <= i < pending@.len() ==> (#[trigger] pending@[i]).wf(),
                    decreases 9 - j2,
                {
                    let ghost api_prev = api@;
                    let mut taken: Option<Chunk> = None;
                    let slot_ref = &mut api.chunks[j2];
                    core::mem::swap(&mut taken, slot_ref);
                    proof {
                        assert((taken matches Some(c) ==> Some(c@) == api_prev.chunks[j2 as int])
                            && (taken is None ==> api_prev.chunks[j2 as int] is None));
                        assert(api_prev.chunks[j2 as int] == api1.chunks[j2 as int]);
                        assert(api@.chunks =~= api_prev.chunks.update(j2 as int, None));
                        assert forall|t: int|
                            0 <= t < 9 implies ((#[trigger] api@.chunks[t]) matches Some(c)
                            ==> c.wf() && c.position == slot_chunk_pos(api@.center, t)) by {
                            if t != j2 {
                                assert(api@.chunks[t] == api_prev.chunks[t]);
                            }
                        }
                        assert(api@.wf());
                        assert((taken matches Some(c) ==> c.wf() && c.position == slot_chunk_pos(
                            center,
                            j2 as int,
                        )));
                    }
                    match sources[j2] {
                        Some(i) => {
                            match taken {
                                Some(c) => {
                                    let ghost before_restore = self.chunks@;
                                    self.chunks[i] = c;
                                    proof {
                                        lemma_chunk_models_update(before_restore, i as int, c);
                                        assert forall|i2: int|
                                            0 <= i2 < chunk_count && !holds_index(sources@, i2)
                                            implies chunk_models(self.chunks@)[i2]
                                            == models_k[i2] by {
                                            assert(sources@[j2 as int] == Some(i));
                                            assert(i2 != i as int);
                                        }
                                        assert(slots_created(
                                            models_k,
                                            center,
                                            api1.chunks,
                                            j2 as int,
                                        ) == slots_created(
                                            models_k,
                                            center,
                                            api1.chunks,
                                            j2 as int + 1,
                                        ));
                                    }
                                },
                                None => {},
                            }
                        },
                        None => {
                            match taken {
                                Some(c) => {
                                    let ghost before_push = pending@;
                                    pending.push(c);
                                    proof {
                                        lemma_chunk_models_push(before_push, c);
                                        assert(c@ == api1.chunks[j2 as int]->0);
                                        assert(slots_created(
                                            models_k,
                                            center,
                                            api1.chunks,
                                            j2 as int,
                                        ) == seq![api1.chunks[j2 as int]->0] + slots_created(
                                            models_k,
                                            center,
                                            api1.chunks,
                                            j2 as int + 1,
                                        ));
                                        assert(chunk_models(pending0) + created_k == chunk_models(
                                            pending@,
                                        ) + slots_created(
                                            models_k,
                                            center,
                                            api1.chunks,
                                            j2 as int + 1,
                                        )) by {
                                            assert(chunk_models(before_push) + (seq![
                                                api1.chunks[j2 as int]->0,
                                            ] + slots_created(
                                                models_k,
                                                center,
                                                api1.chunks,
                                                j2 as int + 1,
                                            )) =~= chunk_models(pending@) + slots_created(
                                                models_k,
                                                center,
                                                api1.chunks,
                                                j2 as int + 1,
                                            ));
                                        }
                                    }
                                },
                                None => {
                                    proof {
                                        assert(api1.chunks[j2 as int] is None);
                                        assert(slots_created(
                                            models_k,
                                            center,
                                            api1.chunks,
                                            j2 as int,
                                        ) == slots_created(
                                            models_k,
                                            center,
                                            api1.chunks,
                                            j2 as int + 1,
                                        ));
                                    }
                                },
                            }
                        },
                    }
                    j2 += 1;
                }
                let ghost written = slots_written(models_k, center, api1.chunks);
                proof {
                    assert(chunk_models(self.chunks@) =~= written) by {
                        assert forall|i: int|
                            0 <= i < chunk_count implies chunk_models(self.chunks@)[i]
                            == written[i] by {
                            let posi = models_k[i].position;
                            let dx = posi.x - center.x;
                            let dy = posi.y - center.y;
                            if holds_index(sources@, i) {
                                let t = choose|t: int|
                                    0 <= t < sources@.len() && ((#[trigger] sources@[t])
                                        matches Some(s2) && s2 == i);
                                assert(self.chunks@[i].position == slot_chunk_pos(center, t));
                                lemma_slot_of_delta(center, t % 3 - 1, t / 3 - 1);
                                vstd::arithmetic::div_mod::lemma_mod_bound(t, 3);
                                vstd::arithmetic::div_mod::lemma_fundamental_div_mod(t, 3);
                                assert(dx == t % 3 - 1 && dy == t / 3 - 1);
                                assert((dx + 1) + (dy + 1) * 3 == t);
                                assert(chunk_models(self.chunks@)[i] == api1.chunks[t]->0);
                            } else {
                                assert(chunk_models(self.chunks@)[i] == models_k[i]);
                                if -1 <= dx <= 1 && -1 <= dy <= 1 {
                                    lemma_slot_of_delta(center, dx, dy);
                                    let t = (dx + 1) + (dy + 1) * 3;
                                    assert(models_k[i].position == slot_chunk_pos(center, t));
                                    lemma_model_index_unique(models_k, slot_chunk_pos(center, t), i);
                                    assert(sources@[t] is Some);
                                    assert(holds_index(sources@, i));
                                }
                            }
                        }
                    }
                }
                let ghost before_rotate = self.chunks@;
                let rotated_chunk = &mut self.chunks[k];
                rotated_chunk.current_dirty_rect = rotated_chunk.next_dirty_rect;
                rotated_chunk.next_dirty_rect = Rect::empty();
                proof {
                    lemma_chunk_models_update(before_rotate, k as int, self.chunks@[k as int]);
                    assert(self.chunks@[k as int]@ =~= rotated(written[k as int]));
                    assert(chunk_models(self.chunks@) =~= written.update(
                        k as int,
                        rotated(written[k as int]),
                    ));
                    assert(chunk_model_active(models_k[k as int]));
                    assert(chunk_pos_in_world(models_k[k as int].position));
                    assert(dirty == models_k[k as int].current_dirty_rect);
                    assert(cols@ == scan_order(
                        wframe,
                        models_k[k as int].current_dirty_rect.min.x,
                        models_k[k as int].current_dirty_rect.max.x,
                    ));
                    assert(columns_scanned(
                        start_api(models_k, center, wframe),
                        api1,
                        scan_order(
                            wframe,
                            models_k[k as int].current_dirty_rect.min.x,
                            models_k[k as int].current_dirty_rect.max.x,
                        ),
                        models_k[k as int].current_dirty_rect.min.y as int,
                        models_k[k as int].current_dirty_rect.max.y as int,
                    ));
                    assert(api_witness(api1));
                    assert(chunk_ticked(
                        models_k,
                        chunk_models(self.chunks@),
                        created_k,
                        k as int,
                        wframe,
                    ));
                    assert(chunk_models(pending@) =~= chunk_models(pending0) + created_k) by {
                        assert(slots_created(models_k, center, api1.chunks, 9) =~= Seq::<
                            ChunkModel,
                        >::empty());
                        assert(chunk_models(pending@) + Seq::<ChunkModel>::empty() =~= chunk_models(
                            pending@,
                        ));
                    }
                    lemma_pass_ticked_step(
                        models0,
                        models_k,
                        chunk_models(self.chunks@),
                        chunk_models(pending0),
                        created_k,
                        k as int,
                        wframe,
                    );
                    assert(pass_ticked(
                        models0,
                        chunk_models(self.chunks@),
                        chunk_models(pending@),
                        k as int + 1,
                        wframe,
                    ));
                }
            } else {
                proof {
                    assert(!chunk_model_active(models_k[k as int]) || !chunk_pos_in_world(
                        models_k[k as int].position,
                    ));
                    assert(chunk_ticked(
                        models_k,
                        chunk_models(self.chunks@),
                        Seq::<ChunkModel>::empty(),
                        k as int,
                        wframe,
                    ));
                    assert(chunk_models(pending@) =~= chunk_models(pending0) + Seq::<
                        ChunkModel,
                    >::empty());
                    lemma_pass_ticked_step(
                        models0,
                        models_k,
                        chunk_models(self.chunks@),
                        chunk_models(pending0),
                        Seq::<ChunkModel>::empty(),
                        k as int,
                        wframe,
                    );
                    assert(pass_ticked(
                        models0,
                        chunk_models(self.chunks@),
                        chunk_models(pending@),
                        k as int + 1,
                        wframe,
                    ));
                }
            }
            k += 1;
        }
        let ghost scanned_mid = chunk_models(self.chunks@);
        let ghost created_all = chunk_models(pending@);
        let ghost fold_target = folded_in(
            WorldModel {
                wframe,
                chunks: scanned_mid,
                fresh_chunks: old(self).fresh_chunks@,
                active: true,
            },
            created_all,
        );
        proof {
            assert(self@ =~= (WorldModel {
                wframe,
                chunks: scanned_mid,
                fresh_chunks: old(self).fresh_chunks@,
                active: true,
            }));
        }
        while pending.len() > 0
            invariant
                self.wf(),
                self.active,
                self.wframe == wframe,
                self.chunks@.len() >= chunk_count,
                old(self).fresh_chunks@.is_prefix_of(self.fresh_chunks@),
                forall|i: int|
                    0 <= i < chunk_count ==> (#[trigger] self.chunks@[i]).position == old(self).chunks@[i].position,
                forall|i: int| 0 <= i < pending@.len() ==> (#[trigger] pending@[i]).wf(),
                folded_in(self@, chunk_models(pending@)) == fold_target,
            decreases pending@.len(),
        {
            let ghost fresh_before = self.fresh_chunks@;
            let ghost pending_before = pending@;
            let ghost world_before = self@;
            let next = pending.remove(0);
            self.add_chunk(next);
            proof {
                assert(fresh_before.is_prefix_of(self.fresh_chunks@)) by {
                    assert(self.fresh_chunks@.subrange(0, fresh_before.len() as int)
                        =~= fresh_before);
                }
                assert(old(self).fresh_chunks@.is_prefix_of(self.fresh_chunks@)) by {
                    assert(self.fresh_chunks@.subrange(0, old(self).fresh_chunks@.len() as int)
                        =~= old(self).fresh_chunks@);
                }
                assert(chunk_models(pending@) =~= chunk_models(pending_before).skip(1)) by {
                    assert(pending@ =~= pending_before.skip(1));
                    assert forall|i2: int|
                        0 <= i2 < pending@.len() implies chunk_models(pending@)[i2] == chunk_models(
                        pending_before,
                    ).skip(1)[i2] by {
                        assert(pending@[i2] == pending_before[i2 + 1]);
                    }
                }
                assert(chunk_models(pending_before)[0] == next@);
                assert(folded_in(world_before, chunk_models(pending_before)) == folded_in(
                    self@,
                    chunk_models(pending@),
                ));
            }
        }
        proof {
            assert(chunk_models(pending@) =~= Seq::<ChunkModel>::empty());
            assert(folded_in(self@, Seq::<ChunkModel>::empty()) == self@);
            assert(self@ == fold_target);
            assert(pass_ticked(models0, scanned_mid, created_all, chunk_count as int, wframe));
        }
    }
}

/// A fair-coin outcome mapped to a horizontal direction.
pub open spec fn coin(c: int) -> bool {
    c == 1 || c == -1
}

/// The horizontal bias direction of a sand element: the sign of its current
/// horizontal velocity, or a coin toss when it is at rest.
pub open spec fn sand_dir(m: ApiModel, c: int) -> int {
    if m.element.0.velocity.x == 0 {
        c
    } else if m.element.0.velocity.x > 0 {
        1
    } else {
        -1
    }
}

/// Scale the processed element's horizontal velocity by `num` percent,
/// stamping the cell, as [`LocalApi::update_element`] does.
pub open spec fn damp_x_spec(m: ApiModel, num: int) -> ApiModel {
    let cv = m.get_at(m.element.1).velocity;
    m.update_velocity_spec(Velocity { x: trunc_div(cv.x * num, 100) as i32, y: cv.y })
}

/// The sand rule: fall straight down when the cell below is open (with
/// horizontal damping), else slide along the open diagonal in the bias
/// direction, else the opposite diagonal, else keep the velocity; always
/// finish with one movement step.
pub open spec fn sand_step_spec(m: ApiModel, c: int) -> ApiModel {
    let p = m.element.1;
    let dir = sand_dir(m, c);
    let below = Pos { x: p.x, y: (p.y + 1) as i32 };
    let diag_a = Pos { x: (p.x + dir) as i32, y: (p.y + 1) as i32 };
    let side_a = Pos { x: (p.x + dir) as i32, y: p.y };
    let diag_b = Pos { x: (p.x - dir) as i32, y: (p.y + 1) as i32 };
    let side_b = Pos { x: (p.x - dir) as i32, y: p.y };
    let m1 = if m.can_move(below) {
        damp_x_spec(m, 60).accelerate_spec(0, 50)
    } else if m.can_move(diag_a) && m.can_move(side_a) {
        m.accelerate_spec(60 * dir, 50)
    } else if m.can_move(diag_b) && m.can_move(side_b) {
        m.accelerate_spec(-60 * dir, 50)
    } else {
        m
    };
    m1.move_spec()
}

/// The water rule: like sand with its own constants, and when neither falling
/// nor sliding is open, flow horizontally: at the base speed, or boosted when
/// the cell below holds the same material (pooling).
pub open spec fn water_step_spec(m: ApiModel, c1: int, c2: int) -> ApiModel {
    let p = m.element.1;
    let dir = c1;
    let below = Pos { x: p.x, y: (p.y + 1) as i32 };
    let diag_a = Pos { x: (p.x + dir) as i32, y: (p.y + 1) as i32 };
    let side_a = Pos { x: (p.x + dir) as i32, y: p.y };
    let diag_b = Pos { x: (p.x - dir) as i32, y: (p.y + 1) as i32 };
    let side_b = Pos { x: (p.x - dir) as i32, y: p.y };
    let m1 = if m.can_move(below) {
        damp_x_spec(m, 40).accelerate_spec(0, 50)
    } else if m.can_move(diag_a) && m.can_move(side_a) {
        m.accelerate_spec(50 * dir, 50)
    } else if m.can_move(diag_b) && m.can_move(side_b) {
        m.accelerate_spec(-50 * dir, 50)
    } else {
        let dir2 = sand_dir(m, c2);
        let speed: int = if m.get_at(below).kind == m.element.0.kind {
            110
        } else {
            60
        };
        let flow_a = Pos { x: (p.x + dir2) as i32, y: p.y };
        let flow_b = Pos { x: (p.x - dir2) as i32, y: p.y };
        if m.can_move(flow_a) {
            m.accelerate_spec(speed * dir2, 0)
        } else if m.can_move(flow_b) {
            m.accelerate_spec(-speed * dir2, 0)
        } else {
            m
        }
    };
    m1.move_spec()
}

/// The pooling boost: when water can neither fall nor slide on either
/// diagonal, it flows horizontally toward the first open side, at the boosted
/// speed of one and a tenth cells per tick when the cell directly below holds
/// the same material, and at the base speed of six tenths otherwise.
pub proof fn lemma_water_pooling(m: ApiModel, c1: int, c2: int)
    requires
        coin(c1),
        coin(c2),
        ({
            let p = m.element.1;
            let dir = c1;
            &&& !m.can_move(Pos { x: p.x, y: (p.y + 1) as i32 })
            &&& !(m.can_move(Pos { x: (p.x + dir) as i32, y: (p.y + 1) as i32 }) && m.can_move(
                Pos { x: (p.x + dir) as i32, y: p.y },
            ))
            &&& !(m.can_move(Pos { x: (p.x - dir) as i32, y: (p.y + 1) as i32 }) && m.can_move(
                Pos { x: (p.x - dir) as i32, y: p.y },
            ))
            &&& m.can_move(Pos { x: (p.x + sand_dir(m, c2)) as i32, y: p.y })
        }),
    ensures
        m.get_at(Pos { x: m.element.1.x, y: (m.element.1.y + 1) as i32 }).kind == m.element.0.kind
            ==> water_step_spec(m, c1, c2) == m.accelerate_spec(
            110 * sand_dir(m, c2),
            0,
        ).move_spec(),
        m.get_at(Pos { x: m.element.1.x, y: (m.element.1.y + 1) as i32 }).kind != m.element.0.kind
            ==> water_step_spec(m, c1, c2) == m.accelerate_spec(
            60 * sand_dir(m, c2),
            0,
        ).move_spec(),
{
}

/// One element's processing step: nothing happens for a position outside the
/// chunk, for an air cell, or for an element already stamped with the current
/// tick; otherwise the element is stamped first and then dispatched through
/// its material rule.
pub open spec fn tick_element_spec(m: ApiModel, position: Pos, c1: int, c2: int) -> ApiModel {
    if !Chunk::in_chunk(position) {
        m
    } else {
        let e0 = m.get_at(position);
        if e0.kind == ElementKind::Air || m.wframe == e0.wframe {
            m
        } else {
            let e1 = Element { wframe: m.wframe, ..e0 };
            let m1 = ApiModel { element: (e1, position), ..m };
            let m2 = m1.set_stamp_at(m1.wframe);
            match e1.kind {
                ElementKind::Sand => sand_step_spec(m2, c1),
                ElementKind::Water => water_step_spec(m2, c1, c2),
                _ => m2,
            }
        }
    }
}

/// Within one tick, an element already stamped with the current tick value is
/// never dispatched through a material rule again: processing it is a no-op.
/// Every dispatch stamps the element first, and a swap carries the stamp along
/// with it, so an element swapped forward into a cell the scan has not reached
/// yet is skipped when the scan arrives there.
pub proof fn lemma_stamped_element_not_reprocessed(m: ApiModel, position: Pos, c1: int, c2: int)
    requires
        Chunk::in_chunk(position),
        m.get_at(position).wframe == m.wframe,
    ensures
        tick_element_spec(m, position, c1, c2) == m,
{
}

/// Process one element of the chunk being ticked: skip positions outside the
/// chunk, air, and elements already stamped with the current tick; stamp and
/// dispatch everything else through its material rule.
#[verifier::rlimit(100)]
#[verifier::spinoff_prover]
pub fn tick_element(position: Pos, api: &mut LocalApi)
    requires
        old(api)@.wf(),
    ensures
        final(api)@.wf(),
        final(api)@.center == old(api)@.center,
        final(api)@.wframe == old(api)@.wframe,
        forall|j: int|
            0 <= j < 9 && old(api)@.chunks[j] is Some ==> (#[trigger] final(api)@.chunks[j])
                is Some,
        exists|c1: int, c2: int|
            #[trigger] coin(c1) && #[trigger] coin(c2) && final(api)@ == tick_element_spec(
                old(api)@,
                position,
                c1,
                c2,
            ),
        Chunk::in_chunk(position) && (old(api)@.get_at(position).kind == ElementKind::Air || old(
            api,
        )@.get_at(position).wframe == old(api)@.wframe) ==> final(api)@ == old(api)@,
        !Chunk::in_chunk(position) ==> final(api)@ == old(api)@,
{
    if Chunk::is_outside(position) {
        proof {
            assert(coin(1));
            assert(tick_element_spec(api@, position, 1, 1) == api@);
        }
        return ;
    }
    let mut element = api.get_element(position);
    if matches!(element.kind, ElementKind::Air) || api.wframe == element.wframe {
        proof {
            assert(coin(1));
            assert(tick_element_spec(api@, position, 1, 1) == api@);
        }
        return ;
    }
    let ghost m0 = api@;
    let wframe = api.wframe;
    element.wframe = wframe;
    api.element = (element, position);
    proof {
        lemma_get_at_wf(m0, position);
        assert(api@ =~= (ApiModel { element: (element, position), ..m0 }));
        assert(api@.wf());
    }
    let ghost m1 = api@;
    api.set_wframe(wframe);
    let ghost m2 = m1.set_stamp_at(wframe);
    match api.element.0.kind {
        ElementKind::Sand => {
            tick_sand(position, api);
            proof {
                let c = choose|c: int| coin(c) && api@ == sand_step_spec(m2, c);
                assert(coin(c) && coin(1) && api@ == tick_element_spec(m0, position, c, 1));
            }
        },
        ElementKind::Water => {
            tick_water(position, api);
            proof {
                let (c1, c2) = choose|c1: int, c2: int|
                    #[trigger] coin(c1) && #[trigger] coin(c2) && api@ == water_step_spec(
                        m2,
                        c1,
                        c2,
                    );
                assert(coin(c1) && coin(c2) && api@ == tick_element_spec(m0, position, c1, c2));
            }
        },
        _ => {
            proof {
                assert(coin(1) && api@ == tick_element_spec(m0, position, 1, 1));
            }
        },
    }
}

/// The sand rule (see [`sand_step_spec`]).
#[verifier::rlimit(100)]
#[verifier::spinoff_prover]
pub fn tick_sand(position: Pos, api: &mut LocalApi)
    requires
        old(api)@.wf(),
        Chunk::in_chunk(position),
        old(api)@.element.1 == position,
    ensures
        final(api)@.wf(),
        final(api)@.center == old(api)@.center,
        final(api)@.wframe == old(api)@.wframe,
        forall|j: int|
            0 <= j < 9 && old(api)@.chunks[j] is Some ==> (#[trigger] final(api)@.chunks[j])
                is Some,
        exists|c: int| #[trigger] coin(c) && final(api)@ == sand_step_spec(old(api)@, c),
{
    let vx = api.element.0.velocity.x;
    let dir: i32 = if vx == 0 {
        api.random_direction()
    } else if vx > 0 {
        1
    } else {
        -1
    };
    let ghost c: int = if vx == 0 {
        dir as int
    } else {
        1
    };
    proof {
        assert(coin(c));
        assert(sand_dir(old(api)@, c) == dir);
    }
    let below = Pos { x: position.x, y: position.y + 1 };
    if api.can_move_to(below) {
        proof {
            lemma_get_at_wf(api@, position);
        }
        let current = api.get_element(position);
        let v2 = current.velocity.with_x_scaled(60);
        api.update_element(v2);
        api.accelerate(0, 50);
    } else if api.can_move_to(Pos { x: position.x + dir, y: position.y + 1 }) && api.can_move_to(
        Pos { x: position.x + dir, y: position.y },
    ) {
        api.accelerate(60 * dir, 50);
    } else if api.can_move_to(Pos { x: position.x - dir, y: position.y + 1 }) && api.can_move_to(
        Pos { x: position.x - dir, y: position.y },
    ) {
        api.accelerate(-60 * dir, 50);
    }
    api.move_element();
    proof {
        assert(api@ == sand_step_spec(old(api)@, c));
    }
}

/// The water rule (see [`water_step_spec`]).
#[verifier::rlimit(100)]
#[verifier::spinoff_prover]
pub fn tick_water(position: Pos, api: &mut LocalApi)
    requires
        old(api)@.wf(),
        Chunk::in_chunk(position),
        old(api)@.element.1 == position,
    ensures
        final(api)@.wf(),
        final(api)@.center == old(api)@.center,
        final(api)@.wframe == old(api)@.wframe,
        forall|j: int|
            0 <= j < 9 && old(api)@.chunks[j] is Some ==> (#[trigger] final(api)@.chunks[j])
                is Some,
        exists|c1: int, c2: int|
            #[trigger] coin(c1) && #[trigger] coin(c2) && final(api)@ == water_step_spec(
                old(api)@,
                c1,
                c2,
            ),
{
    let dir = api.random_direction();
    let ghost c1: int = dir as int;
    let below = Pos { x: position.x, y: position.y + 1 };
    let ghost mut c2: int = 1;
    if api.can_move_to(below) {
        proof {
            lemma_get_at_wf(api@, position);
        }
        let current = api.get_element(position);
        let v2 = current.velocity.with_x_scaled(40);
        api.update_element(v2);
        api.accelerate(0, 50);
    } else if api.can_move_to(Pos { x: position.x + dir, y: position.y + 1 }) && api.can_move_to(
        Pos { x: position.x + dir, y: position.y },
    ) {
        api.accelerate(50 * dir, 50);
    } else if api.can_move_to(Pos { x: position.x - dir, y: position.y + 1 }) && api.can_move_to(
        Pos { x: position.x - dir, y: position.y },
    ) {
        api.accelerate(-50 * dir, 50);
    } else {
        let vx = api.element.0.velocity.x;
        let dir2: i32 = if vx == 0 {
            let d = api.random_direction();
            proof {
                c2 = d as int;
            }
            d
        } else if vx > 0 {
            1
        } else {
            -1
        };
        proof {
            assert(coin(c2));
            assert(sand_dir(old(api)@, c2) == dir2);
        }
        let same_below = {
            let below_element = api.get_element(below);
            let own_kind = api.element.0.kind;
            below_element.kind == own_kind
        };
        let speed: i32 = if same_below {
            110
        } else {
            60
        };
        if api.can_move_to(Pos { x: position.x + dir2, y: position.y }) {
            api.accelerate(speed * dir2, 0);
        } else if api.can_move_to(Pos { x: position.x - dir2, y: position.y }) {
            api.accelerate(-speed * dir2, 0);
        }
    }
    api.move_element();
    proof {
        assert(coin(c1));
        assert(coin(c2));
        assert(api@ == water_step_spec(old(api)@, c1, c2));
    }
}

/// The columns of a dirty rectangle in the order one tick scans them: even
/// ticks walk the major axis ascending, odd ticks descending, which removes a
/// sideways bias from the automaton.
pub fn scan_columns(wframe: u8, min_x: i32, max_x: i32) -> (r: Vec<i32>)
    ensures
        min_x >= max_x ==> r@.len() == 0,
        min_x < max_x ==> r@.len() == max_x - min_x,
        wframe as int % 2 == 0 ==> forall|k: int| 0 <= k < r@.len() ==> r@[k] == min_x + k,
        wframe as int % 2 != 0 ==> forall|k: int| 0 <= k < r@.len() ==> r@[k] == max_x - 1 - k,
        r@ == scan_order(wframe, min_x, max_x),
{
    let mut cols: Vec<i32> = Vec::new();
    if min_x >= max_x {
        proof {
            assert(cols@ =~= scan_order(wframe, min_x, max_x));
        }
        return cols;
    }
    if wframe % 2 == 0 {
        let mut x = min_x;
        while x < max_x
            invariant
                min_x <= x <= max_x,
                cols@.len() == x - min_x,
                forall|k: int| 0 <= k < cols@.len() ==> cols@[k] == min_x + k,
            decreases max_x - x,
        {
            cols.push(x);
            x += 1;
        }
        proof {
            assert(cols@ =~= scan_order(wframe, min_x, max_x));
        }
    } else {
        let mut x = max_x - 1;
        loop
            invariant_except_break
                min_x <= x <= max_x - 1,
                cols@.len() == max_x - 1 - x,
                forall|k: int| 0 <= k < cols@.len() ==> cols@[k] == max_x - 1 - k,
                min_x < max_x,
            ensures
                cols@.len() == max_x - min_x,
                forall|k: int| 0 <= k < cols@.len() ==> cols@[k] == max_x - 1 - k,
            decreases x - min_x,
        {
            cols.push(x);
            if x == min_x {
                break ;
            }
            x -= 1;
        }
        proof {
            assert(cols@ =~= scan_order(wframe, min_x, max_x));
        }
    }
    cols
}

} // verus!
