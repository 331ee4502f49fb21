use vstd::prelude::*;
use vstd::relations::injective_on;
use vstd::set_lib::{lemma_int_range, lemma_len_subset, lemma_map_size, set_int_range};

use crate::reference::CyclicReference;

verus! {

broadcast use vstd::laws_cmp::group_laws_cmp;

/// Every set of `usize` values is finite, with at most `usize::MAX + 1` members.
pub proof fn lemma_usize_set_bounded(s: Set<usize>)
    ensures
        s.finite(),
        s.len() <= usize::MAX + 1,
{
    let range = set_int_range(0, usize::MAX + 1);
    let f = |i: int| i as usize;
    let all = Set::new(|x: usize| true);
    lemma_int_range(0, usize::MAX + 1);
    assert forall|x: usize| #[trigger] all.contains(x) implies range.map(f).contains(x) by {
        assert(range.contains(x as int));
        assert(f(x as int) == x);
    }
    assert(range.map(f) =~= all);
    assert(injective_on(f, range)) by {
        assert forall|a: int, b: int| range.contains(a) && range.contains(b) && #[trigger] f(a) == #[trigger] f(b) implies a == b by {}
    }
    lemma_map_size(range, all, f);
    lemma_len_subset(s, all);
}

/// What one step of a pass does with the reference on top of the stack:
/// the heap, the seen set, the stack and the break count afterwards.
pub open spec fn step<R: CyclicReference>(
    heap: <R::Heap as View>::V,
    seen: Set<usize>,
    stack: Seq<R>,
    broken: nat,
) -> (<R::Heap as View>::V, Set<usize>, Seq<R>, nat)
    recommends
        stack.len() > 0,
{
    let top = stack.last();
    let rest = stack.drop_last();
    match top.id_of(heap) {
        None => (heap, seen, rest, broken),
        Some(id) => if seen.contains(id) {
            (heap, seen, rest, broken)
        } else {
            let (top2, heap2, progress) = top.broken_by(heap);
            let count = if progress { broken + 1 } else { broken };
            match top2.references_of(heap2) {
                Some(children) => (heap2, seen.insert(id), rest + children, count),
                None => (heap2, seen.insert(id), rest, count),
            }
        },
    }
}

/// The heap and the break count at the end of a pass that has reached the
/// given seen set, stack and count: steps are taken until the stack is empty.
pub open spec fn finish<R: CyclicReference>(
    heap: <R::Heap as View>::V,
    seen: Set<usize>,
    stack: Seq<R>,
    broken: nat,
) -> (<R::Heap as View>::V, nat)
    decreases usize::MAX + 1 - seen.len(), stack.len(),
    via finish_decreases::<R>
{
    if stack.len() == 0 {
        (heap, broken)
    } else {
        let (h, s, st, b) = step::<R>(heap, seen, stack, broken);
        finish::<R>(h, s, st, b)
    }
}

#[via_fn]
proof fn finish_decreases<R: CyclicReference>(
    heap: <R::Heap as View>::V,
    seen: Set<usize>,
    stack: Seq<R>,
    broken: nat,
) {
    lemma_usize_set_bounded(seen);
    if stack.len() != 0 {
        let (h, s, st, b) = step::<R>(heap, seen, stack, broken);
        lemma_usize_set_bounded(s);
    }
}

/// The outcome of a whole pass from `root` over `heap`: `None` when the
/// root has no identity or cannot be inspected, else the heap at the end of
/// the pass and the number of nodes whose references were severed.
pub open spec fn pass_of<R: CyclicReference>(root: R, heap: <R::Heap as View>::V) -> Option<
    (<R::Heap as View>::V, nat),
> {
    match root.id_of(heap) {
        None => None,
        Some(id) => match root.references_of(heap) {
            None => None,
            Some(children) => Some(finish::<R>(heap, set![id], children, 0)),
        },
    }
}

/// Runs a cycle collection starting at `reference`, and returns the number of
/// nodes whose references were severed, or `None` if `reference` has no
/// identity or cannot be inspected.
///
/// This is a depth-first walk over the graph that `get_references` reveals.
/// It records the identity of each node it reaches. A node reached for the
/// first time has its references broken and is then expanded; a node seen
/// before, or one without identity, is passed over. The root is never broken.
pub fn collect<R: CyclicReference>(reference: &mut R, heap: &mut R::Heap) -> (r: Option<usize>)
    ensures
        *final(reference) == *old(reference),
        old(reference).id_of(old(heap)@) is None ==> r is None && final(heap)@ == old(heap)@,
        old(reference).references_of(old(heap)@) is None ==> r is None && final(heap)@
            == old(heap)@,
        match pass_of::<R>(*old(reference), old(heap)@) {
            None => r is None && final(heap)@ == old(heap)@,
            Some((h, n)) => r is Some && r->Some_0 == n && final(heap)@ == h,
        },
{
    let mut seen: std::collections::BTreeSet<usize> = std::collections::BTreeSet::new();
    let root_id = match reference.get_id(heap) {
        None => return None,
        Some(id) => id,
    };
    seen.insert(root_id);
    let mut to_visit: Vec<R> = match reference.get_references(heap) {
        None => return None,
        Some(refs) => refs,
    };
    let mut broken: usize = 0;
    assert(seen@ =~= set![root_id]);
    proof {
        lemma_usize_set_bounded(seen@);
    }
    while to_visit.len() > 0
        invariant
            finish::<R>(heap@, seen@, to_visit@, broken as nat) == pass_of::<R>(
                *reference,
                old(heap)@,
            )->Some_0,
            pass_of::<R>(*reference, old(heap)@) is Some,
            broken + 1 <= seen@.len(),
        decreases usize::MAX + 1 - seen@.len(), to_visit@.len(),
    {
        proof {
            lemma_usize_set_bounded(seen@);
        }
        let ghost before = (heap@, seen@, to_visit@, broken as nat);
        let mut refe = to_visit.pop().unwrap();
        let id = match refe.get_id(heap) {
            None => continue,
            Some(id) => id,
        };
        if seen.insert(id) {
            proof {
                lemma_usize_set_bounded(seen@);
            }
            if refe.break_references(heap) {
                broken = broken + 1;
            }
            match refe.get_references(heap) {
                None => {},
                Some(mut refs) => to_visit.append(&mut refs),
            }
        }
        assert(step::<R>(before.0, before.1, before.2, before.3) == (
            heap@,
            seen@,
            to_visit@,
            broken as nat,
        ));
    }
    Some(broken)
}

} // verus!
