use vstd::prelude::*;

use crate::collector::{finish, lemma_usize_set_bounded, pass_of, step};
use crate::heap::{accessible, emptied, refs_of, CellState, Handle};

verus! {

/// Whether every reference in `s` is a plain shared handle.
pub open spec fn all_shared(s: Seq<Handle>) -> bool {
    forall|k: int| 0 <= k < s.len() ==> #[trigger] s[k] is Shared
}

/// Whether every cell of the heap holds only plain shared handles.
pub open spec fn shared_graph(heap: Seq<CellState>) -> bool {
    forall|i: int| 0 <= i < heap.len() ==> all_shared(refs_of(#[trigger] heap[i]))
}

/// The identities that the shared handles of `s` point at.
pub open spec fn ids_of(s: Seq<Handle>) -> Set<usize> {
    Set::new(|i: usize| s.contains(Handle::Shared(i)))
}

/// Whether breaking the cell at `i` would make progress.
pub open spec fn breakable(heap: Seq<CellState>, i: usize) -> bool {
    accessible(heap, i) && heap[i as int].links is Some
}

/// The cells a pass over a stack of shared handles will still break: the
/// breakable cells among those the stack points at and not seen yet.
pub open spec fn pending(heap: Seq<CellState>, seen: Set<usize>, stack: Seq<Handle>) -> Set<usize> {
    ids_of(stack).difference(seen).filter(|i: usize| breakable(heap, i))
}

/// The heap with the cells of `ids` emptied.
pub open spec fn cleared(heap: Seq<CellState>, ids: Set<usize>) -> Seq<CellState> {
    Seq::new(
        heap.len(),
        |j: int|
            if j <= usize::MAX && ids.contains(j as usize) {
                emptied()
            } else {
                heap[j]
            },
    )
}

/// On a stack of shared handles, a pass breaks exactly the breakable cells
/// that the stack points at and that have not been seen, and empties them: a
/// broken cell holds nothing more, so nothing further is pushed.
pub proof fn lemma_finish_shared(
    heap: Seq<CellState>,
    seen: Set<usize>,
    stack: Seq<Handle>,
    broken: nat,
)
    requires
        all_shared(stack),
    ensures
        finish::<Handle>(heap, seen, stack, broken).1 == broken + pending(heap, seen, stack).len(),
        finish::<Handle>(heap, seen, stack, broken).0 == cleared(heap, pending(heap, seen, stack)),
    decreases usize::MAX + 1 - seen.len(), stack.len(),
{
    lemma_usize_set_bounded(seen);
    let pend = ids_of(stack).difference(seen).filter(|i: usize| breakable(heap, i));
    lemma_usize_set_bounded(pend);
    if stack.len() == 0 {
        assert(pend =~= Set::empty());
        assert(cleared(heap, pend) =~= heap);
    } else {
        let top = stack.last();
        let rest = stack.drop_last();
        let i = top->Shared_0;
        assert(stack =~= rest.push(top));
        assert(top == Handle::Shared(i));
        assert(all_shared(rest));
        assert forall|j: usize| #[trigger] ids_of(stack).contains(j) <==> ids_of(rest).contains(j)
            || j == i by {
            if stack.contains(Handle::Shared(j)) && j != i {
                let k = choose|k: int| 0 <= k < stack.len() && stack[k] == Handle::Shared(j);
                assert(rest[k] == Handle::Shared(j));
            }
            if rest.contains(Handle::Shared(j)) {
                let k = choose|k: int| 0 <= k < rest.len() && rest[k] == Handle::Shared(j);
                assert(stack[k] == Handle::Shared(j));
            }
            if j == i {
                assert(stack[stack.len() - 1] == Handle::Shared(j));
            }
        }
        let (h2, s2, st2, b2) = step::<Handle>(heap, seen, stack, broken);
        if seen.contains(i) {
            assert(ids_of(rest).difference(seen) =~= ids_of(stack).difference(seen));
            assert(pending(heap, seen, rest) =~= pend);
            lemma_finish_shared(heap, seen, rest, broken);
        } else {
            lemma_usize_set_bounded(s2);
            assert(st2 =~= rest);
            assert(s2 == seen.insert(i));
            assert forall|j: usize| j != i implies breakable(h2, j) == breakable(heap, j) by {}
            let pend2 = ids_of(rest).difference(s2).filter(|j: usize| breakable(h2, j));
            assert(pend2 =~= pend.remove(i));
            lemma_finish_shared(h2, s2, rest, b2);
            if breakable(heap, i) {
                assert(pend.contains(i));
                assert(b2 == broken + 1);
            } else {
                assert(!pend.contains(i));
                assert(b2 == broken);
            }
            assert forall|j: int| 0 <= j < heap.len() implies #[trigger] cleared(h2, pend2)[j]
                == cleared(heap, pend)[j] by {
                if j != i as int {
                    assert(h2[j] == heap[j]);
                }
            }
            assert(cleared(h2, pend2) =~= cleared(heap, pend));
        }
    }
}

/// In a graph made of shared handles, the order in which a live cell lists
/// its references does not change the number of nodes a pass breaks, nor
/// whether the pass can start at all.
pub proof fn lemma_child_order_irrelevant(
    heap: Seq<CellState>,
    root: usize,
    node: usize,
    reordered: Seq<Handle>,
)
    requires
        shared_graph(heap),
        node < heap.len(),
        heap[node as int].links is Some,
        reordered.to_multiset() == refs_of(heap[node as int]).to_multiset(),
    ensures
        ({
            let after = heap.update(
                node as int,
                CellState { links: Some(reordered), borrowed: heap[node as int].borrowed },
            );
            &&& pass_of::<Handle>(Handle::Shared(root), heap) is Some <==> pass_of::<Handle>(
                Handle::Shared(root),
                after,
            ) is Some
            &&& pass_of::<Handle>(Handle::Shared(root), heap) is Some ==> pass_of::<Handle>(
                Handle::Shared(root),
                heap,
            )->Some_0.1 == pass_of::<Handle>(Handle::Shared(root), after)->Some_0.1
        }),
{
    let old_refs = refs_of(heap[node as int]);
    let after = heap.update(
        node as int,
        CellState { links: Some(reordered), borrowed: heap[node as int].borrowed },
    );
    reordered.to_multiset_ensures();
    old_refs.to_multiset_ensures();
    assert(reordered.len() == old_refs.len());
    assert forall|h: Handle| reordered.contains(h) <==> old_refs.contains(h) by {
        assert(reordered.contains(h) <==> reordered.to_multiset().count(h) > 0);
        assert(old_refs.contains(h) <==> old_refs.to_multiset().count(h) > 0);
    }
    assert(ids_of(reordered) =~= ids_of(old_refs));
    assert forall|k: int| 0 <= k < reordered.len() implies #[trigger] reordered[k] is Shared by {
        assert(old_refs.contains(reordered[k]));
    }
    assert forall|j: usize| breakable(after, j) == breakable(heap, j) by {}
    let seen = set![root];
    if accessible(heap, root) {
        let refs = refs_of(heap[root as int]);
        let refs2 = refs_of(after[root as int]);
        assert(all_shared(refs));
        lemma_finish_shared(heap, seen, refs, 0);
        lemma_finish_shared(after, seen, refs2, 0);
        assert(ids_of(refs2) =~= ids_of(refs));
        assert(pending(after, seen, refs2) =~= pending(heap, seen, refs));
    }
}

/// In a graph made of shared handles, a pass leaves nothing for a second
/// pass from the same root: the second one breaks nothing and changes
/// nothing.
pub proof fn lemma_second_pass_breaks_nothing(heap: Seq<CellState>, root: usize)
    requires
        shared_graph(heap),
        pass_of::<Handle>(Handle::Shared(root), heap) is Some,
    ensures
        ({
            let after = pass_of::<Handle>(Handle::Shared(root), heap)->Some_0.0;
            pass_of::<Handle>(Handle::Shared(root), after) == Some((after, 0nat))
        }),
{
    let seen = set![root];
    let refs = refs_of(heap[root as int]);
    assert(all_shared(refs));
    lemma_finish_shared(heap, seen, refs, 0);
    let done = pending(heap, seen, refs);
    let after = cleared(heap, done);
    assert(!done.contains(root));
    assert(after[root as int] == heap[root as int]);
    lemma_finish_shared(after, seen, refs, 0);
    assert(pending(after, seen, refs) =~= Set::empty());
    assert(cleared(after, Set::empty()) =~= after);
}

/// Whether `after` keeps the length of `heap` and every cell of it that is
/// borrowed elsewhere.
pub open spec fn keeps_borrowed(heap: Seq<CellState>, after: Seq<CellState>) -> bool {
    &&& after.len() == heap.len()
    &&& forall|i: int| 0 <= i < heap.len() && #[trigger] heap[i].borrowed ==> after[i] == heap[i]
}

/// Breaking through any handle leaves borrowed cells as they were.
pub proof fn lemma_break_keeps_borrowed(h: Handle, heap: Seq<CellState>)
    ensures
        keeps_borrowed(heap, h.spec_broken(heap).1),
    decreases h,
{
    match h {
        Handle::Exclusive(b) => lemma_break_keeps_borrowed(*b, heap),
        _ => {},
    }
}

/// The rest of a pass leaves borrowed cells as they were.
pub proof fn lemma_finish_keeps_borrowed(
    heap: Seq<CellState>,
    seen: Set<usize>,
    stack: Seq<Handle>,
    broken: nat,
)
    ensures
        keeps_borrowed(heap, finish::<Handle>(heap, seen, stack, broken).0),
    decreases usize::MAX + 1 - seen.len(), stack.len(),
{
    lemma_usize_set_bounded(seen);
    if stack.len() > 0 {
        let (h2, s2, st2, b2) = step::<Handle>(heap, seen, stack, broken);
        lemma_usize_set_bounded(s2);
        lemma_break_keeps_borrowed(stack.last(), heap);
        lemma_finish_keeps_borrowed(h2, s2, st2, b2);
    }
}

/// A pass never changes a cell that is borrowed elsewhere: such a cell can
/// be neither inspected nor broken, so nothing it holds is broken through it.
pub proof fn lemma_borrowed_cells_untouched(root: Handle, heap: Seq<CellState>)
    requires
        pass_of::<Handle>(root, heap) is Some,
    ensures
        keeps_borrowed(heap, pass_of::<Handle>(root, heap)->Some_0.0),
{
    let id = root.spec_id(heap)->Some_0;
    let refs = root.spec_references(heap)->Some_0;
    lemma_finish_keeps_borrowed(heap, set![id], refs, 0);
}

/// Whether `after` keeps the length of `heap` and the cells at `ids`.
pub open spec fn keeps_cells(heap: Seq<CellState>, after: Seq<CellState>, ids: Set<usize>) -> bool {
    &&& after.len() == heap.len()
    &&& forall|i: usize| i < heap.len() && #[trigger] ids.contains(i) ==> after[i as int]
        == heap[i as int]
}

/// Breaking through a handle changes at most the cell of its own identity.
pub proof fn lemma_break_touches_own_cell(h: Handle, heap: Seq<CellState>)
    ensures
        h.spec_broken(heap).1.len() == heap.len(),
        forall|j: usize|
            j < heap.len() && Some(j) != h.spec_id(heap) ==> #[trigger] h.spec_broken(heap).1[j as int]
                == heap[j as int],
    decreases h,
{
    match h {
        Handle::Exclusive(b) => lemma_break_touches_own_cell(*b, heap),
        _ => {},
    }
}

/// The rest of a pass leaves the cells of identities already seen as they
/// were.
pub proof fn lemma_finish_keeps_seen(
    heap: Seq<CellState>,
    seen: Set<usize>,
    stack: Seq<Handle>,
    broken: nat,
)
    ensures
        keeps_cells(heap, finish::<Handle>(heap, seen, stack, broken).0, seen),
    decreases usize::MAX + 1 - seen.len(), stack.len(),
{
    lemma_usize_set_bounded(seen);
    if stack.len() > 0 {
        let (h2, s2, st2, b2) = step::<Handle>(heap, seen, stack, broken);
        lemma_usize_set_bounded(s2);
        lemma_break_touches_own_cell(stack.last(), heap);
        lemma_finish_keeps_seen(h2, s2, st2, b2);
        assert forall|i: usize| i < heap.len() && #[trigger] seen.contains(i) implies h2[i as int]
            == heap[i as int] && s2.contains(i) by {}
    }
}

/// A pass from a shared handle never breaks the root's own cell, so the
/// caller's handle to the structure stays usable.
pub proof fn lemma_root_cell_untouched(root: usize, heap: Seq<CellState>)
    requires
        pass_of::<Handle>(Handle::Shared(root), heap) is Some,
    ensures
        ({
            let after = pass_of::<Handle>(Handle::Shared(root), heap)->Some_0.0;
            after.len() == heap.len() && after[root as int] == heap[root as int]
        }),
{
    let refs = refs_of(heap[root as int]);
    lemma_finish_keeps_seen(heap, set![root], refs, 0);
    assert(set![root].contains(root));
}

} // verus!
