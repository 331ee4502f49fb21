use cycle_collect::{collect, Cell, CyclicReference, Handle, Heap, Payload};

fn shared(i: usize) -> Handle {
    Handle::Shared(i)
}

fn heap_of(cells: Vec<(Vec<Handle>, bool)>) -> Heap {
    Heap {
        cells: cells
            .into_iter()
            .map(|(refs, borrowed)| Cell { payload: Payload::Links(refs), borrowed })
            .collect(),
    }
}

// The number of references the cell holds, or `None` once it was emptied.
fn refs_len(heap: &Heap, i: usize) -> Option<usize> {
    match &heap.cells[i].payload {
        Payload::Empty => None,
        Payload::Links(v) => Some(v.len()),
    }
}

#[test]
fn root_without_identity_aborts() {
    let mut heap = heap_of(vec![(vec![shared(1)], false), (vec![shared(0)], false)]);
    let mut root = Handle::Optional(None);
    assert_eq!(collect(&mut root, &mut heap), None);
    assert_eq!(refs_len(&heap, 0), Some(1));
    assert_eq!(refs_len(&heap, 1), Some(1));
}

#[test]
fn borrowed_root_aborts() {
    let mut heap = heap_of(vec![(vec![shared(1)], true), (vec![shared(0)], false)]);
    let mut root = shared(0);
    assert_eq!(collect(&mut root, &mut heap), None);
    assert_eq!(refs_len(&heap, 0), Some(1));
    assert_eq!(refs_len(&heap, 1), Some(1));
}

#[test]
fn dangling_root_aborts() {
    let mut heap = heap_of(vec![(vec![shared(0)], false)]);
    let mut root = Handle::ReadOnly(Box::new(shared(4)));
    assert_eq!(collect(&mut root, &mut heap), None);
    assert_eq!(refs_len(&heap, 0), Some(1));
}

#[test]
fn self_cycle_breaks_nothing() {
    let mut heap = heap_of(vec![(vec![shared(0)], false)]);
    let mut root = shared(0);
    assert_eq!(collect(&mut root, &mut heap), Some(0));
    assert_eq!(refs_len(&heap, 0), Some(1));
}

// Breaking A resets it and so releases its link to B: B is never reached
// through A. The pass breaks one node; a second pass finds A already empty.
#[test]
fn linear_chain_then_rerun() {
    let mut heap = heap_of(vec![
        (vec![shared(1)], false),
        (vec![shared(2)], false),
        (vec![], false),
    ]);
    let mut root = shared(0);
    assert_eq!(collect(&mut root, &mut heap), Some(1));
    assert_eq!(refs_len(&heap, 0), Some(1));
    assert_eq!(refs_len(&heap, 1), None);
    assert_eq!(refs_len(&heap, 2), Some(0));
    assert_eq!(collect(&mut root, &mut heap), Some(0));
}

// A pair whose second half points back at itself: the first half is a live
// value that holds nothing, and the back-edge to the root is passed over.
#[test]
fn pair_pointing_at_itself() {
    let mut heap = heap_of(vec![(vec![shared(1), shared(0)], false), (vec![], false)]);
    let mut root = shared(0);
    assert_eq!(collect(&mut root, &mut heap), Some(1));
    assert_eq!(refs_len(&heap, 0), Some(2));
    assert_eq!(refs_len(&heap, 1), None);
}

#[test]
fn emptied_children_are_not_counted() {
    let mut heap = heap_of(vec![(vec![shared(1), shared(2)], false), (vec![], false), (vec![], false)]);
    heap.cells[1].payload = Payload::Empty;
    let mut root = shared(0);
    assert_eq!(collect(&mut root, &mut heap), Some(1));
    assert!(!heap.cells[1].is_live());
    assert!(!heap.cells[2].is_live());
    assert!(heap.cells[0].is_live());
}

#[test]
fn linear_chain_through_read_only_views() {
    let mut heap = heap_of(vec![
        (vec![Handle::ReadOnly(Box::new(shared(1)))], false),
        (vec![shared(2)], false),
        (vec![shared(3)], false),
        (vec![], false),
    ]);
    let mut root = shared(0);
    assert_eq!(collect(&mut root, &mut heap), Some(1));
    assert_eq!(refs_len(&heap, 1), Some(1));
    assert_eq!(refs_len(&heap, 2), None);
    assert_eq!(refs_len(&heap, 3), Some(0));
}

#[test]
fn shared_child_broken_once() {
    let mut heap = heap_of(vec![
        (vec![shared(1), shared(1)], false),
        (vec![shared(2)], false),
        (vec![], false),
    ]);
    let mut root = shared(0);
    assert_eq!(collect(&mut root, &mut heap), Some(1));
    assert_eq!(refs_len(&heap, 0), Some(2));
    assert_eq!(refs_len(&heap, 1), None);
}

#[test]
fn uninspectable_child_is_skipped() {
    let mut heap = heap_of(vec![
        (vec![shared(1)], false),
        (vec![shared(2)], true),
        (vec![shared(0)], false),
    ]);
    let mut root = shared(0);
    assert_eq!(collect(&mut root, &mut heap), Some(0));
    assert_eq!(refs_len(&heap, 1), Some(1));
    assert_eq!(refs_len(&heap, 2), Some(1));
}

#[test]
fn child_order_does_not_change_count() {
    let orders: Vec<Vec<usize>> = vec![
        vec![1, 2, 1, 3, 4, 5],
        vec![5, 3, 1, 1, 4, 2],
        vec![2, 4, 3, 5, 1, 1],
        vec![1, 1, 5, 4, 3, 2],
    ];
    for order in orders {
        let mut heap = heap_of(vec![
            (order.iter().map(|i| shared(*i)).collect(), false),
            (vec![shared(0)], false),
            (vec![], false),
            (vec![shared(2), shared(1)], false),
            (vec![shared(3)], true),
            (vec![], false),
        ]);
        heap.cells[5].payload = Payload::Empty;
        let mut root = shared(0);
        assert_eq!(collect(&mut root, &mut heap), Some(3));
        assert_eq!(refs_len(&heap, 4), Some(1));
    }
}

#[test]
fn distinct_children_all_broken() {
    let mut heap = heap_of(vec![
        (vec![shared(1), shared(2), shared(3), shared(4), shared(5)], false),
        (vec![shared(0)], false),
        (vec![shared(1)], false),
        (vec![shared(2)], false),
        (vec![shared(3)], false),
        (vec![shared(4)], false),
    ]);
    let mut root = shared(0);
    assert_eq!(collect(&mut root, &mut heap), Some(5));
    for i in 1..6 {
        assert_eq!(refs_len(&heap, i), None);
    }
    assert_eq!(refs_len(&heap, 0), Some(5));
}

#[test]
fn exclusive_view_breaks_cell() {
    let mut heap = heap_of(vec![
        (vec![Handle::Exclusive(Box::new(shared(1)))], false),
        (vec![shared(0)], false),
    ]);
    let mut root = shared(0);
    assert_eq!(collect(&mut root, &mut heap), Some(1));
    assert_eq!(refs_len(&heap, 1), None);
}

#[test]
fn optional_slot_is_emptied_not_the_cell() {
    let mut heap = heap_of(vec![
        (vec![Handle::Optional(Some(Box::new(shared(1))))], false),
        (vec![shared(0)], false),
    ]);
    let mut root = shared(0);
    assert_eq!(collect(&mut root, &mut heap), Some(1));
    assert_eq!(refs_len(&heap, 1), Some(1));
}

#[test]
fn empty_optional_and_dangling_children_are_passed_over() {
    let mut heap = heap_of(vec![(vec![Handle::Optional(None), shared(9)], false)]);
    let mut root = shared(0);
    assert_eq!(collect(&mut root, &mut heap), Some(0));
    assert_eq!(refs_len(&heap, 0), Some(2));
}

#[test]
fn handle_operations() {
    let mut heap = heap_of(vec![(vec![shared(1)], false), (vec![shared(0)], true)]);
    let view = Handle::ReadOnly(Box::new(shared(0)));
    assert_eq!(view.get_id(&heap), Some(0));
    assert_eq!(view.get_references(&heap).map(|v| v.len()), Some(1));
    assert_eq!(shared(1).get_references(&heap).map(|v| v.len()), None);
    assert_eq!(Handle::Optional(None).get_id(&heap), None);

    let mut locked = shared(1);
    assert!(!locked.break_references(&mut heap));
    let mut read_only = Handle::ReadOnly(Box::new(shared(0)));
    assert!(!read_only.break_references(&mut heap));
    assert_eq!(refs_len(&heap, 0), Some(1));

    let mut open = Handle::Exclusive(Box::new(shared(0)));
    assert!(open.break_references(&mut heap));
    assert_eq!(refs_len(&heap, 0), None);
    assert!(!open.break_references(&mut heap));

    let mut slot = Handle::Optional(Some(Box::new(shared(1))));
    assert!(slot.break_references(&mut heap));
    assert!(matches!(slot, Handle::Optional(None)));
    assert_eq!(slot.get_id(&heap), None);
}

#[test]
fn duplicate_keeps_shape() {
    let h = Handle::Exclusive(Box::new(Handle::Optional(Some(Box::new(shared(3))))));
    let d = h.duplicate();
    match d {
        Handle::Exclusive(inner) => match *inner {
            Handle::Optional(Some(b)) => assert!(matches!(*b, Handle::Shared(3))),
            _ => panic!("wrong inner shape"),
        },
        _ => panic!("wrong outer shape"),
    }
}
