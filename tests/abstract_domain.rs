use rust_ffi_checker::block_state::{Allocation, BlockState};
use rust_ffi_checker::lattice::MemoryState;
use rust_ffi_checker::name::Name;

fn class_of(names: &[usize]) -> Allocation {
    Allocation { set: names.iter().map(|n| Name::Number(*n)).collect() }
}

fn text(s: &str) -> Name {
    Name::Name(s.to_string())
}

#[test]
fn test_mem_state_ordering() {
    let untainted = MemoryState::Untainted;
    let tainted = MemoryState::Tainted;
    let borrowed = MemoryState::Borrowed;
    let forgotten = MemoryState::Forgotten;
    let unknown = MemoryState::Unknown;
    assert!(untainted < tainted);
    assert!(untainted < borrowed);
    assert!(untainted < forgotten);
    assert!(untainted < unknown);

    assert!(tainted > untainted);
    assert!(tainted < borrowed);
    assert!(tainted < forgotten);
    assert!(tainted < unknown);

    assert!(borrowed > untainted);
    assert!(borrowed > tainted);
    assert!(!(borrowed < forgotten));
    assert!(!(borrowed == forgotten));
    assert!(!(borrowed > forgotten));
    assert!(borrowed < unknown);

    assert!(forgotten > untainted);
    assert!(forgotten > tainted);
    assert!(forgotten < unknown);

    assert!(unknown > untainted);
    assert!(unknown > tainted);
    assert!(unknown > borrowed);
    assert!(unknown > forgotten);
}

#[test]
fn test_mem_state_union() {
    let untainted = MemoryState::Untainted;
    let tainted = MemoryState::Tainted;
    let borrowed = MemoryState::Borrowed;
    let forgotten = MemoryState::Forgotten;
    let unknown = MemoryState::Unknown;

    assert_eq!(untainted.union(tainted), tainted);
    assert_eq!(untainted.union(borrowed), borrowed);
    assert_eq!(tainted.union(forgotten), forgotten);
    assert_eq!(borrowed.union(forgotten), unknown);
    assert_eq!(borrowed.union(unknown), unknown);
}

#[test]
fn test_block_state_order() {
    let untainted = MemoryState::Untainted;
    let tainted = MemoryState::Tainted;
    let borrowed = MemoryState::Borrowed;
    let forgotten = MemoryState::Forgotten;
    let unknown = MemoryState::Unknown;

    let alloc1 = class_of(&[1, 2]);
    let alloc2 = class_of(&[3, 4]);
    let alloc3 = class_of(&[5]);

    let state1 = BlockState::from_entries(vec![(alloc1.clone(), untainted), (alloc2.clone(), tainted)]);
    let state2 = BlockState::from_entries(vec![(alloc1.clone(), untainted), (alloc2.clone(), borrowed)]);
    let state3 = BlockState::from_entries(vec![(alloc1.clone(), untainted), (alloc2.clone(), forgotten)]);
    let state4 = BlockState::from_entries(vec![
        (alloc1.clone(), untainted),
        (alloc2.clone(), forgotten),
        (alloc3.clone(), unknown),
    ]);

    assert!(state1 < state2);
    assert!(!(state2 < state3));
    assert!(!(state2 > state3));
    assert!(!(state2 == state3));
    assert!(!(state2 < state4));
    assert!(!(state2 > state4));
    assert!(!(state2 == state4));
    assert!(state3 < state4);
}

#[test]
fn test_block_state_union() {
    let untainted = MemoryState::Untainted;
    let tainted = MemoryState::Tainted;
    let borrowed = MemoryState::Borrowed;
    let forgotten = MemoryState::Forgotten;
    let unknown = MemoryState::Unknown;

    let alloc1 = class_of(&[1, 2]);
    let alloc2 = class_of(&[3, 4]);
    let alloc3 = class_of(&[5]);
    let alloc4 = class_of(&[1, 2, 3]);
    let alloc5 = class_of(&[3]);
    let alloc6 = class_of(&[4, 5, 6]);

    // {{1,2}: U, {3,4}: T}
    let state1 = BlockState::from_entries(vec![(alloc1.clone(), untainted), (alloc2.clone(), tainted)]);
    // {{1,2}: U, {3,4}: B}
    let state2 = BlockState::from_entries(vec![(alloc1.clone(), untainted), (alloc2.clone(), borrowed)]);
    // {{1,2}: U, {3,4}: F}
    let state3 = BlockState::from_entries(vec![(alloc1.clone(), untainted), (alloc2.clone(), forgotten)]);
    // {{1,2}: U, {3,4}: Unknown}
    let state4 = BlockState::from_entries(vec![(alloc1.clone(), untainted), (alloc2.clone(), unknown)]);
    // {{1,2}: U, {3,4}: F, {5}: Unknown}
    let state5 = BlockState::from_entries(vec![
        (alloc1.clone(), untainted),
        (alloc2.clone(), forgotten),
        (alloc3.clone(), unknown),
    ]);
    // {{1,2}: U, {3,4}: Unknown, {5}: Unknown}
    let state6 = BlockState::from_entries(vec![
        (alloc1.clone(), untainted),
        (alloc2.clone(), unknown),
        (alloc3.clone(), unknown),
    ]);
    // {{1,2,3}: T, {4,5,6}: Unknown}
    let state7 = BlockState::from_entries(vec![(alloc4.clone(), tainted), (alloc6.clone(), unknown)]);
    // {{1,2}: T, {3}: F}
    let state8 = BlockState::from_entries(vec![(alloc1.clone(), tainted), (alloc5.clone(), forgotten)]);
    // {{1,2,3}: F, {4,5,6}: Unknown}
    let state9 = BlockState::from_entries(vec![(alloc4.clone(), forgotten), (alloc6.clone(), unknown)]);

    assert!(state1.union(&state2) == state2);
    assert!(state2.union(&state3) == state4);
    assert!(state1.union(&state5) == state5);
    assert!(state2.union(&state5) == state6);
    assert!(state7.union(&state8) == state9);

    assert_eq!(state5.is_tainted(&Name::Number(3)), true);
    assert_eq!(state5.is_tainted(&Name::Number(1)), false);
}

#[test]
fn union_is_an_upper_bound_for_every_pair() {
    let all = [
        MemoryState::Untainted,
        MemoryState::Tainted,
        MemoryState::Borrowed,
        MemoryState::Forgotten,
        MemoryState::Unknown,
    ];
    for a in all {
        for b in all {
            let u = a.union(b);
            assert!(a.is_le(&u));
            assert!(b.is_le(&u));
            assert_eq!(u, b.union(a));
        }
        assert_eq!(a.union(a), a);
        assert_eq!(MemoryState::Untainted.union(a), a);
        assert_eq!(MemoryState::Unknown.union(a), MemoryState::Unknown);
    }
    assert_eq!(MemoryState::Borrowed.union(MemoryState::Forgotten), MemoryState::Unknown);
}

#[test]
fn clearing_after_setting_untracks_the_name() {
    let mut s = BlockState::new();
    let n = text("a.b");
    s.set_tainted(&n, MemoryState::Borrowed);
    assert!(s.get_allocation(&n).is_some());
    s.set_tainted(&n, MemoryState::Untainted);
    assert!(s.get_allocation(&n).is_none());
    assert_eq!(s.get_memory_state(&n), MemoryState::Untainted);
}

#[test]
fn setting_a_field_taints_its_prefixes() {
    let mut s = BlockState::new();
    s.set_tainted(&text("x.y.z"), MemoryState::Tainted);
    assert!(s.is_tainted(&text("x")));
    assert!(s.is_tainted(&text("x.y")));
    assert!(s.is_tainted(&text("x.y.z")));
    assert!(!s.is_tainted(&text("x.y.w")));
    assert!(!s.is_tainted(&text("y")));
}

#[test]
fn numbers_have_no_prefixes() {
    let mut s = BlockState::new();
    s.set_tainted(&Name::Number(12), MemoryState::Forgotten);
    assert_eq!(s.get_memory_state(&Name::Number(12)), MemoryState::Forgotten);
    assert_eq!(s.get_memory_state(&Name::Number(1)), MemoryState::Untainted);
    assert_eq!(s.get_allocation(&Name::Number(12)).unwrap().set.len(), 1);
}

#[test]
fn propagation_shares_the_class() {
    let mut s = BlockState::new();
    let from = Name::Number(1);
    let to = Name::Number(2);
    s.set_tainted(&from, MemoryState::Borrowed);
    s.propagate_taint(&from, &to);
    assert_eq!(s.get_memory_state(&to), MemoryState::Borrowed);
    let class = s.get_allocation(&to).unwrap();
    assert!(class.contains(&from));
    assert!(class.contains(&to));
    // an untainted source takes the target out of its class
    s.propagate_taint(&Name::Number(9), &to);
    assert_eq!(s.get_memory_state(&to), MemoryState::Untainted);
    assert_eq!(s.get_memory_state(&from), MemoryState::Borrowed);
}

#[test]
fn union_lies_above_both_operands() {
    let mut a = BlockState::new();
    a.set_tainted(&Name::Number(1), MemoryState::Borrowed);
    a.propagate_taint(&Name::Number(1), &Name::Number(2));
    let mut b = BlockState::new();
    b.set_tainted(&Name::Number(2), MemoryState::Forgotten);
    b.set_tainted(&Name::Number(7), MemoryState::Tainted);
    let u = a.union(&b);
    assert!(a.is_le(&u));
    assert!(b.is_le(&u));
    assert_eq!(u.get_memory_state(&Name::Number(1)), MemoryState::Unknown);
    assert_eq!(u.get_memory_state(&Name::Number(2)), MemoryState::Unknown);
    assert_eq!(u.get_memory_state(&Name::Number(7)), MemoryState::Tainted);
    assert!(!u.is_le(&a));
}

#[test]
fn union_merges_chains_of_classes() {
    // {1,2}: T and {3}: B on one side, {2,3}: T on the other
    let a = BlockState::from_entries(vec![(class_of(&[1, 2]), MemoryState::Tainted), (class_of(&[3]), MemoryState::Borrowed)]);
    let b = BlockState::from_entries(vec![(class_of(&[2, 3]), MemoryState::Tainted)]);
    let u = a.union(&b);
    let expected = BlockState::from_entries(vec![(class_of(&[1, 2, 3]), MemoryState::Borrowed)]);
    assert!(u == expected);
}

#[test]
fn setting_a_field_keeps_sibling_fields_with_their_prefix() {
    let mut s = BlockState::new();
    s.set_tainted(&text("x.a"), MemoryState::Tainted);
    s.set_tainted(&text("x.b"), MemoryState::Borrowed);
    // x.a shared its class with x, so it moves along with x
    assert_eq!(s.get_memory_state(&text("x")), MemoryState::Borrowed);
    assert_eq!(s.get_memory_state(&text("x.a")), MemoryState::Borrowed);
    assert_eq!(s.get_memory_state(&text("x.b")), MemoryState::Borrowed);
    assert!(s.get_allocation(&text("x.a")).unwrap().contains(&text("x")));
}
