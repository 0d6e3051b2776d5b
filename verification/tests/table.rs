use refcount_interner::table::{find, holder_counts, register, sweep};
use refcount_interner::{Handle, RcHandle, RcInterner};

fn handles(values: &[i32]) -> (RcInterner<i32>, Vec<RcHandle<i32>>) {
    let mut interner = RcInterner::new();
    let mut out = Vec::new();
    for v in values {
        out.push(interner.intern(*v));
    }
    (interner, out)
}

#[test]
fn sweep_keeps_entries_with_more_than_one_holder() {
    let out = sweep(vec![10, 20, 30, 40], &vec![1, 2, 3, 1]);
    assert_eq!(out, vec![20, 30]);
    let out = sweep(vec!["a", "b", "c"], &vec![2, 2, 2]);
    assert_eq!(out, vec!["a", "b", "c"]);
    let out = sweep(vec!["a", "b", "c"], &vec![1, 1, 1]);
    assert!(out.is_empty());
    let out = sweep(vec![1u8, 2, 3], &vec![0, 5, usize::MAX]);
    assert_eq!(out, vec![2, 3]);
}

#[test]
fn sweep_keeps_entries_without_a_count() {
    let out = sweep(vec![10, 20, 30], &vec![1]);
    assert_eq!(out, vec![20, 30]);
    let out = sweep(vec![10, 20, 30], &Vec::new());
    assert_eq!(out, vec![10, 20, 30]);
    let out = sweep(vec![10], &vec![1, 1, 1]);
    assert!(out.is_empty());
    let out: Vec<i32> = sweep(Vec::new(), &vec![1, 2]);
    assert!(out.is_empty());
}

#[test]
fn sweep_twice_with_survivors_counts_changes_nothing() {
    let counts = vec![1, 3, 1, 2, 2];
    let once = sweep(vec!['a', 'b', 'c', 'd', 'e'], &counts);
    let left = sweep(counts.clone(), &counts);
    assert_eq!(left, vec![3, 2, 2]);
    let twice = sweep(once.clone(), &left);
    assert_eq!(twice, once);
    assert_eq!(once, vec!['b', 'd', 'e']);
}

#[test]
fn find_gives_the_oldest_match() {
    let (_interner, hs) = handles(&[5, 6, 7]);
    assert_eq!(find(&hs, &5), Some(0));
    assert_eq!(find(&hs, &7), Some(2));
    assert_eq!(find(&hs, &8), None);
    let mut twice = Vec::new();
    twice.push(hs[1].clone());
    twice.push(hs[0].clone());
    twice.push(hs[1].clone());
    assert_eq!(find(&twice, &6), Some(0));
    assert_eq!(find(&twice, &5), Some(1));
    let none: Vec<RcHandle<i32>> = Vec::new();
    assert_eq!(find(&none, &5), None);
}

#[test]
fn register_adds_only_new_values() {
    let (_interner, hs) = handles(&[5, 6]);
    let mut list = Vec::new();
    register(&mut list, hs[0].clone());
    register(&mut list, hs[1].clone());
    assert_eq!(list.len(), 2);
    let (_other, more) = handles(&[6, 9]);
    register(&mut list, more[0].clone());
    assert_eq!(list.len(), 2);
    assert!(list[1].ptr_eq(&hs[1]));
    assert!(!list[1].ptr_eq(&more[0]));
    register(&mut list, more[1].clone());
    assert_eq!(list.len(), 3);
    assert!(list[2].ptr_eq(&more[1]));
}

#[test]
fn holder_counts_reads_each_entry() {
    let (interner, hs) = handles(&[1, 2, 3]);
    let extra = hs[1].clone();
    assert_eq!(holder_counts(&hs), vec![2, 3, 2]);
    drop(extra);
    drop(interner);
    assert_eq!(holder_counts(&hs), vec![1, 1, 1]);
    let none: Vec<RcHandle<i32>> = Vec::new();
    assert!(holder_counts(&none).is_empty());
}
