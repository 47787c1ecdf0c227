//! A chunk: one fixed-size square tile of the world, holding its grid of
//! elements and a double-buffered pair of dirty rectangles. The current dirty
//! rectangle is the region to process this tick; writes accumulate into the
//! next one, and the tick driver rotates the two afterwards.

use crate::coords::{CHUNK_SIZE, CHUNK_SIZE_I32};
use crate::element::{Element, ElementKind};
use crate::rect::{Pos, Rect};
use vstd::prelude::*;

verus! {

/// The rectangle covering a whole chunk.
pub open spec fn full_chunk_rect() -> Rect {
    Rect {
        min: Pos { x: 0i32, y: 0i32 },
        max: Pos { x: CHUNK_SIZE_I32, y: CHUNK_SIZE_I32 },
    }
}

/// The mathematical value of a [`Chunk`]: the same fields with the element
/// grid as a sequence. All contracts over chunks are stated in terms of this
/// model.
#[verifier::ext_equal]
pub struct ChunkModel {
    pub position: Pos,
    pub current_dirty_rect: Rect,
    pub next_dirty_rect: Rect,
    pub grid: Seq<Element>,
}

impl ChunkModel {
    pub open spec fn wf(self) -> bool {
        &&& self.grid.len() == CHUNK_SIZE * CHUNK_SIZE
        &&& (forall|i: int| 0 <= i < self.grid.len() ==> (#[trigger] self.grid[i]).wf())
        &&& -0x100_0000 <= self.position.x <= 0x100_0000
        &&& -0x100_0000 <= self.position.y <= 0x100_0000
    }

    /// The element at a cell.
    pub open spec fn cell(self, position: Pos) -> Element {
        self.grid[Chunk::index_spec(position)]
    }

    /// Overwrite a cell without touching the dirty rectangles.
    pub open spec fn put_cell(self, position: Pos, e: Element) -> ChunkModel {
        ChunkModel { grid: self.grid.update(Chunk::index_spec(position), e), ..self }
    }

    /// Grow the next dirty rectangle by a cell plus the two-cell margin.
    pub open spec fn mark_point(self, position: Pos) -> ChunkModel {
        ChunkModel {
            next_dirty_rect: self.next_dirty_rect.union_point_plus_spec(
                position,
                Pos { x: 2i32, y: 2i32 },
            ),
            ..self
        }
    }

    /// Overwrite a cell and mark it dirty for the next tick.
    pub open spec fn set_cell(self, position: Pos, e: Element) -> ChunkModel {
        self.mark_point(position).put_cell(position, e)
    }

    /// Overwrite only a cell's tick stamp.
    pub open spec fn set_stamp(self, position: Pos, wframe: u8) -> ChunkModel {
        self.put_cell(position, Element { wframe, ..self.cell(position) })
    }

    /// Both dirty rectangles cover the whole chunk.
    pub open spec fn mark_all(self) -> ChunkModel {
        ChunkModel {
            current_dirty_rect: full_chunk_rect(),
            next_dirty_rect: full_chunk_rect(),
            ..self
        }
    }
}

/// The model of a fresh chunk: all air, fully dirty.
pub open spec fn fresh_chunk_model(position: Pos) -> ChunkModel {
    ChunkModel {
        position,
        current_dirty_rect: full_chunk_rect(),
        next_dirty_rect: full_chunk_rect(),
        grid: Seq::new((CHUNK_SIZE * CHUNK_SIZE) as nat, |i: int| Element::default_spec()),
    }
}

/// One square tile of the world grid. `position` is its chunk coordinate;
/// the element grid is laid out x-major: cell `(x, y)` lives at index
/// `x * CHUNK_SIZE + y`.
#[derive(Clone, Debug)]
pub struct Chunk {
    pub position: Pos,
    pub current_dirty_rect: Rect,
    pub next_dirty_rect: Rect,
    pub elements: Vec<Element>,
}

impl View for Chunk {
    type V = ChunkModel;

    open spec fn view(&self) -> ChunkModel {
        ChunkModel {
            position: self.position,
            current_dirty_rect: self.current_dirty_rect,
            next_dirty_rect: self.next_dirty_rect,
            grid: self.elements@,
        }
    }
}

impl Chunk {
    /// The element grid, as a sequence indexed x-major.
    pub open spec fn grid(self) -> Seq<Element> {
        self.elements@
    }

    /// The grid holds exactly one element per cell, every velocity is inside
    /// the clamp band, and the chunk coordinate is small enough that every
    /// neighbor arithmetic stays in machine range.
    pub open spec fn wf(self) -> bool {
        self@.wf()
    }

    /// Whether a position addresses a cell of this chunk.
    pub open spec fn in_chunk(position: Pos) -> bool {
        &&& 0 <= position.x < CHUNK_SIZE_I32
        &&& 0 <= position.y < CHUNK_SIZE_I32
    }

    pub open spec fn index_spec(position: Pos) -> int {
        position.x * CHUNK_SIZE_I32 + position.y
    }

    /// The element at a cell.
    pub open spec fn spec_element(self, position: Pos) -> Element {
        self@.cell(position)
    }

    pub open spec fn active_spec(self) -> bool {
        !self.current_dirty_rect.is_empty_spec() || !self.next_dirty_rect.is_empty_spec()
    }

    /// A fresh chunk: all air, with both dirty rectangles covering the whole
    /// chunk so that every cell is processed on the next tick.
    pub fn new(position: Pos) -> (r: Chunk)
        requires
            -0x100_0000 <= position.x <= 0x100_0000,
            -0x100_0000 <= position.y <= 0x100_0000,
        ensures
            r.wf(),
            r.position == position,
            r.current_dirty_rect == full_chunk_rect(),
            r.next_dirty_rect == full_chunk_rect(),
            r@ == fresh_chunk_model(position),
    {
        let mut elements: Vec<Element> = Vec::new();
        let mut i: usize = 0;
        while i < CHUNK_SIZE * CHUNK_SIZE
            invariant
                i <= CHUNK_SIZE * CHUNK_SIZE,
                elements@.len() == i,
                forall|k: int| 0 <= k < i ==> elements@[k] == Element::default_spec(),
            decreases CHUNK_SIZE * CHUNK_SIZE - i,
        {
            elements.push(Element::default());
            i += 1;
        }
        let c = Chunk {
            position,
            current_dirty_rect: Rect::new(
                Pos { x: 0, y: 0 },
                Pos { x: CHUNK_SIZE_I32, y: CHUNK_SIZE_I32 },
            ),
            next_dirty_rect: Rect::new(
                Pos { x: 0, y: 0 },
                Pos { x: CHUNK_SIZE_I32, y: CHUNK_SIZE_I32 },
            ),
            elements,
        };
        proof {
            assert(c@ =~= fresh_chunk_model(position));
        }
        c
    }

    /// Whether a position lies outside the chunk extent.
    pub fn is_outside(position: Pos) -> (r: bool)
        ensures
            r == !Self::in_chunk(position),
    {
        position.x < 0 || position.y < 0 || position.x >= CHUNK_SIZE_I32 || position.y
            >= CHUNK_SIZE_I32
    }

    /// The region that changed last tick and must be processed this tick.
    pub fn dirty_rect(&self) -> (r: Rect)
        ensures
            r == self.current_dirty_rect,
    {
        self.current_dirty_rect
    }

    /// A chunk is active while either dirty rectangle is non-empty.
    pub fn active(&self) -> (r: bool)
        ensures
            r == self.active_spec(),
    {
        !self.current_dirty_rect.is_empty() || !self.next_dirty_rect.is_empty()
    }

    /// Whether a cell holds air.
    pub fn is_empty(&self, position: Pos) -> (r: bool)
        requires
            self.wf(),
            Self::in_chunk(position),
        ensures
            r == (self.spec_element(position).kind == ElementKind::Air),
    {
        matches!(self.get_element(position).kind, ElementKind::Air)
    }

    pub fn get_element(&self, position: Pos) -> (r: &Element)
        requires
            self.wf(),
            Self::in_chunk(position),
        ensures
            *r == self.spec_element(position),
    {
        &self.elements[Self::to_index(position.x, position.y)]
    }

    pub fn get_element_mut(&mut self, position: Pos) -> (r: &mut Element)
        requires
            old(self).wf(),
            Self::in_chunk(position),
        ensures
            *r == old(self).spec_element(position),
            final(self)@ == old(self)@.put_cell(position, *final(r)),
    {
        &mut self.elements[Self::to_index(position.x, position.y)]
    }

    /// Write a cell and mark it dirty for the next tick.
    pub fn set_element(&mut self, position: Pos, element: Element)
        requires
            old(self).wf(),
            Self::in_chunk(position),
            element.wf(),
        ensures
            final(self).wf(),
            final(self)@ == old(self)@.set_cell(position, element),
    {
        self.mark_point_dirty(position);
        let i = Self::to_index(position.x, position.y);
        self.elements[i] = element;
        proof {
            assert(self@ =~= old(self)@.set_cell(position, element));
        }
    }

    /// Overwrite one cell's tick stamp without touching the dirty rectangles.
    pub fn set_wframe(&mut self, position: Pos, wframe: u8)
        requires
            old(self).wf(),
            Self::in_chunk(position),
        ensures
            final(self).wf(),
            final(self)@ == old(self)@.set_stamp(position, wframe),
    {
        let i = Self::to_index(position.x, position.y);
        self.elements[i].wframe = wframe;
        proof {
            assert(self@ =~= old(self)@.set_stamp(position, wframe));
        }
    }

    /// Grow the next dirty rectangle to cover a cell plus a two-cell margin,
    /// the radius a single-cell change can influence on the following pass.
    pub fn mark_point_dirty(&mut self, position: Pos)
        requires
            Self::in_chunk(position),
        ensures
            final(self)@ == old(self)@.mark_point(position),
    {
        self.next_dirty_rect.union_point_plus(position, Pos { x: 2, y: 2 });
        proof {
            assert(self@ =~= old(self)@.mark_point(position));
        }
    }

    /// Mark the whole chunk dirty for both this tick and the next one, used
    /// when adjacent terrain newly appeared and every cell must be rechecked.
    pub fn mark_dirty_everything(&mut self)
        ensures
            final(self)@ == old(self)@.mark_all(),
    {
        self.next_dirty_rect = Rect::new(
            Pos { x: 0, y: 0 },
            Pos { x: CHUNK_SIZE_I32, y: CHUNK_SIZE_I32 },
        );
        self.current_dirty_rect = self.next_dirty_rect;
        proof {
            assert(self@ =~= old(self)@.mark_all());
        }
    }

    /// The x-major index of a cell.
    pub fn to_index(x: i32, y: i32) -> (r: usize)
        requires
            0 <= x < CHUNK_SIZE_I32,
            0 <= y < CHUNK_SIZE_I32,
        ensures
            r == x * CHUNK_SIZE_I32 + y,
            r < CHUNK_SIZE * CHUNK_SIZE,
    {
        (x * CHUNK_SIZE_I32 + y) as usize
    }
}

} // verus!
