use vstd::prelude::*;

use crate::reference::CyclicReference;

verus! {

/// A reference into a [`Heap`], in one of the shapes an ownership wrapper
/// can take.
pub enum Handle {
    /// A shared-ownership handle to the cell at this index. Its identity is
    /// the index; access to the cell is probed without blocking.
    Shared(usize),
    /// An exclusive view of a reference (a mutable borrow or guard already
    /// held): everything is passed through to the reference it views.
    Exclusive(Box<Handle>),
    /// A read-only view of a reference: identity and references pass
    /// through, but it can never break anything.
    ReadOnly(Box<Handle>),
    /// An optional slot. Breaking it empties the slot.
    Optional(Option<Box<Handle>>),
}

/// What a cell holds.
pub enum Payload {
    /// The terminal state that breaking leaves behind: it holds nothing.
    Empty,
    /// A live value and the references it holds (possibly none).
    Links(Vec<Handle>),
}

/// One allocation of a [`Heap`]: its payload, and whether it is borrowed
/// elsewhere, which makes it uninspectable for now.
pub struct Cell {
    pub payload: Payload,
    pub borrowed: bool,
}

/// The state of one cell, as contracts see it: `links` is `None` once the
/// payload has been reset to empty.
pub ghost struct CellState {
    pub links: Option<Seq<Handle>>,
    pub borrowed: bool,
}

/// An arena of cells; a cell's index is its identity.
pub struct Heap {
    pub cells: Vec<Cell>,
}

impl View for Cell {
    type V = CellState;

    open spec fn view(&self) -> CellState {
        CellState {
            links: match &self.payload {
                Payload::Empty => None,
                Payload::Links(v) => Some(v@),
            },
            borrowed: self.borrowed,
        }
    }
}

impl View for Heap {
    type V = Seq<CellState>;

    open spec fn view(&self) -> Seq<CellState> {
        self.cells@.map_values(|c: Cell| c@)
    }
}

/// Whether the cell at `i` exists and is not borrowed elsewhere.
pub open spec fn accessible(heap: Seq<CellState>, i: usize) -> bool {
    i < heap.len() && !heap[i as int].borrowed
}

/// The references a cell holds: none once it has been emptied.
pub open spec fn refs_of(c: CellState) -> Seq<Handle> {
    match c.links {
        Some(s) => s,
        None => seq![],
    }
}

/// The state of a cell after its payload is reset.
pub open spec fn emptied() -> CellState {
    CellState { links: None, borrowed: false }
}

impl Handle {
    /// The identity of what the handle reaches: the index of its cell, if
    /// there is one behind it.
    pub open spec fn spec_id(&self, heap: Seq<CellState>) -> Option<usize>
        decreases self,
    {
        match self {
            Handle::Shared(i) => Some(*i),
            Handle::Exclusive(b) => b.spec_id(heap),
            Handle::ReadOnly(b) => b.spec_id(heap),
            Handle::Optional(Some(b)) => b.spec_id(heap),
            Handle::Optional(None) => None,
        }
    }

    /// The references held by the cell behind the handle, or `None` when
    /// there is no such cell or it is borrowed elsewhere.
    pub open spec fn spec_references(&self, heap: Seq<CellState>) -> Option<Seq<Handle>>
        decreases self,
    {
        match self {
            Handle::Shared(i) => if accessible(heap, *i) {
                Some(refs_of(heap[*i as int]))
            } else {
                None
            },
            Handle::Exclusive(b) => b.spec_references(heap),
            Handle::ReadOnly(b) => b.spec_references(heap),
            Handle::Optional(Some(b)) => b.spec_references(heap),
            Handle::Optional(None) => None,
        }
    }

    /// An attempt to break through the handle: a shared handle empties its
    /// cell when it can, an exclusive view passes the attempt on, a read-only
    /// view makes no progress, and an optional slot is emptied itself.
    pub open spec fn spec_broken(&self, heap: Seq<CellState>) -> (Handle, Seq<CellState>, bool)
        decreases self,
    {
        match self {
            Handle::Shared(i) => if accessible(heap, *i) && heap[*i as int].links is Some {
                (*self, heap.update(*i as int, emptied()), true)
            } else {
                (*self, heap, false)
            },
            Handle::Exclusive(b) => {
                let (b2, h2, r) = b.spec_broken(heap);
                (Handle::Exclusive(Box::new(b2)), h2, r)
            },
            Handle::ReadOnly(_) => (*self, heap, false),
            Handle::Optional(_) => (Handle::Optional(None), heap, true),
        }
    }

    /// A copy of this handle.
    pub fn duplicate(&self) -> (r: Handle)
        ensures
            r == *self,
        decreases self,
    {
        match self {
            Handle::Shared(i) => Handle::Shared(*i),
            Handle::Exclusive(b) => Handle::Exclusive(Box::new(b.duplicate())),
            Handle::ReadOnly(b) => Handle::ReadOnly(Box::new(b.duplicate())),
            Handle::Optional(Some(b)) => Handle::Optional(Some(Box::new(b.duplicate()))),
            Handle::Optional(None) => Handle::Optional(None),
        }
    }

    fn id_in(&self, heap: &Heap) -> (r: Option<usize>)
        ensures
            r == self.spec_id(heap@),
        decreases self,
    {
        match self {
            Handle::Shared(i) => Some(*i),
            Handle::Exclusive(b) => b.id_in(heap),
            Handle::ReadOnly(b) => b.id_in(heap),
            Handle::Optional(Some(b)) => b.id_in(heap),
            Handle::Optional(None) => None,
        }
    }

    fn references_in(&self, heap: &Heap) -> (r: Option<Vec<Handle>>)
        ensures
            match r {
                Some(v) => self.spec_references(heap@) == Some(v@),
                None => self.spec_references(heap@) is None,
            },
        decreases self,
    {
        match self {
            Handle::Shared(i) => {
                if *i < heap.cells.len() && !heap.cells[*i].borrowed {
                    Some(heap.copy_refs(*i))
                } else {
                    None
                }
            },
            Handle::Exclusive(b) => b.references_in(heap),
            Handle::ReadOnly(b) => b.references_in(heap),
            Handle::Optional(Some(b)) => b.references_in(heap),
            Handle::Optional(None) => None,
        }
    }

    fn break_in(self, heap: &mut Heap) -> (r: (Handle, bool))
        ensures
            (r.0, final(heap)@, r.1) == self.spec_broken(old(heap)@),
        decreases self,
    {
        match self {
            Handle::Shared(i) => {
                if i < heap.cells.len() && !heap.cells[i].borrowed && heap.cells[i].is_live() {
                    heap.clear(i);
                    (Handle::Shared(i), true)
                } else {
                    (Handle::Shared(i), false)
                }
            },
            Handle::Exclusive(b) => {
                let (b2, r) = (*b).break_in(heap);
                (Handle::Exclusive(Box::new(b2)), r)
            },
            Handle::ReadOnly(b) => (Handle::ReadOnly(b), false),
            Handle::Optional(_) => (Handle::Optional(None), true),
        }
    }
}

impl Cell {
    /// Whether the payload has not been reset to empty.
    pub fn is_live(&self) -> (r: bool)
        ensures
            r == self@.links is Some,
    {
        match &self.payload {
            Payload::Empty => false,
            Payload::Links(_) => true,
        }
    }
}

impl Heap {
    /// A copy of the references held by the cell at `i`.
    fn copy_refs(&self, i: usize) -> (r: Vec<Handle>)
        requires
            i < self@.len(),
        ensures
            r@ == refs_of(self@[i as int]),
    {
        let mut out: Vec<Handle> = Vec::new();
        let src = match &self.cells[i].payload {
            Payload::Empty => return out,
            Payload::Links(v) => v,
        };
        let mut k: usize = 0;
        while k < src.len()
            invariant
                k <= src@.len(),
                src@ == refs_of(self@[i as int]),
                out@ == src@.subrange(0, k as int),
            decreases src@.len() - k,
        {
            out.push(src[k].duplicate());
            k = k + 1;
            assert(out@ =~= src@.subrange(0, k as int));
        }
        assert(src@.subrange(0, src@.len() as int) =~= src@);
        out
    }

    /// Resets the payload of the cell at `i` to empty.
    fn clear(&mut self, i: usize)
        requires
            i < old(self)@.len(),
            !old(self)@[i as int].borrowed,
        ensures
            final(self)@ == old(self)@.update(i as int, emptied()),
    {
        let mut empty = Cell { payload: Payload::Empty, borrowed: false };
        self.cells.set_and_swap(i, &mut empty);
        assert(final(self)@ =~= old(self)@.update(i as int, emptied()));
    }
}

impl CyclicReference for Handle {
    type Heap = Heap;

    open spec fn id_of(&self, heap: Seq<CellState>) -> Option<usize> {
        self.spec_id(heap)
    }

    open spec fn references_of(&self, heap: Seq<CellState>) -> Option<Seq<Handle>> {
        self.spec_references(heap)
    }

    open spec fn broken_by(&self, heap: Seq<CellState>) -> (Handle, Seq<CellState>, bool) {
        self.spec_broken(heap)
    }

    fn break_references(&mut self, heap: &mut Heap) -> (r: bool) {
        let mut taken = Handle::Optional(None);
        std::mem::swap(self, &mut taken);
        let (back, r) = taken.break_in(heap);
        *self = back;
        r
    }

    fn get_references(&self, heap: &Heap) -> (r: Option<Vec<Handle>>) {
        self.references_in(heap)
    }

    fn get_id(&self, heap: &Heap) -> (r: Option<usize>) {
        self.id_in(heap)
    }
}

} // verus!
