use refcount_interner::{Handle, Key, RcHandle, RcInterner};
use std::cell::Cell;
use std::rc::Rc;

/// A value that counts how often it is cloned and dropped; only `id` takes part in `==`.
struct Probe {
    id: u32,
    clones: Rc<Cell<u32>>,
    drops: Rc<Cell<u32>>,
}

impl Probe {
    fn new(id: u32, clones: &Rc<Cell<u32>>, drops: &Rc<Cell<u32>>) -> Probe {
        Probe { id, clones: clones.clone(), drops: drops.clone() }
    }
}

impl Clone for Probe {
    fn clone(&self) -> Probe {
        self.clones.set(self.clones.get() + 1);
        Probe { id: self.id, clones: self.clones.clone(), drops: self.drops.clone() }
    }
}

impl Drop for Probe {
    fn drop(&mut self) {
        self.drops.set(self.drops.get() + 1);
    }
}

impl PartialEq for Probe {
    fn eq(&self, other: &Probe) -> bool {
        self.id == other.id
    }
}

impl Eq for Probe {}

#[test]
fn rc_new_interner_is_empty() {
    let interner: RcInterner<i32> = RcInterner::new();
    assert_eq!(interner.len(), 0);
    assert!(interner.try_intern(&42).is_none());
    let by_default: RcInterner<str> = Default::default();
    assert_eq!(by_default.len(), 0);
    assert!(by_default.try_intern("hello").is_none());
}

#[test]
fn rc_intern_returns_the_value() {
    let mut interner = RcInterner::new();
    let x = interner.intern(42);
    let y = interner.intern(1337);
    assert_eq!(*x, 42);
    assert_eq!(*y, 1337);
    assert_eq!(*x.get(), 42);
    assert_ne!(*x, *y);
    assert!(!x.ptr_eq(&y));
    assert!(!Rc::ptr_eq(x.as_rc(), y.as_rc()));
    assert_eq!(interner.len(), 2);
}

#[test]
fn rc_equal_values_share_one_allocation() {
    let mut interner = RcInterner::new();
    let first = String::from("dedup");
    let mut second = String::from("de");
    second.push_str("dup");
    assert_ne!(first.as_ptr(), second.as_ptr());
    let a = interner.intern(first);
    let b = interner.intern(second);
    assert!(a.ptr_eq(&b));
    assert!(Rc::ptr_eq(a.as_rc(), b.as_rc()));
    assert_eq!(a.as_ptr(), b.as_ptr());
    assert_eq!(interner.len(), 1);
}

#[test]
fn rc_intern_twice_shares_allocation() {
    let mut interner = RcInterner::new();
    let x = interner.intern(42);
    let again = interner.intern(42);
    assert!(x.ptr_eq(&again));
    assert!(Rc::ptr_eq(x.as_rc(), again.as_rc()));
    assert_eq!(interner.len(), 1);
}

#[test]
fn rc_try_intern_misses_then_hits() {
    let mut interner = RcInterner::new();
    assert!(interner.try_intern(&42).is_none());
    let x = interner.intern(42);
    let found = interner.try_intern(&42).unwrap();
    assert!(found.ptr_eq(&x));
    assert!(Rc::ptr_eq(found.as_rc(), x.as_rc()));
    assert_eq!(*found, 42);
    assert!(interner.try_intern(&1337).is_none());
    assert_eq!(interner.len(), 1);
}

#[test]
fn rc_try_intern_adds_nothing() {
    let mut interner = RcInterner::new();
    let _x = interner.intern(1);
    assert!(interner.try_intern(&2).is_none());
    assert!(interner.try_intern(&2).is_none());
    assert_eq!(interner.len(), 1);
}

#[test]
fn rc_intern_cloned_keeps_the_allocation() {
    let mut interner = RcInterner::new();
    let value = String::from("borrowed");
    let a = interner.intern_cloned(&value);
    let b = interner.intern_cloned(&value);
    assert!(a.ptr_eq(&b));
    assert!(Rc::ptr_eq(a.as_rc(), b.as_rc()));
    assert_eq!(*a, value);
    assert_ne!(a.as_ptr(), value.as_ptr());
    assert_eq!(interner.len(), 1);
}

#[test]
fn rc_intern_cloned_clones_only_on_a_miss() {
    let clones = Rc::new(Cell::new(0));
    let drops = Rc::new(Cell::new(0));
    let mut interner = RcInterner::new();
    let probe = Probe::new(7, &clones, &drops);
    let a = interner.intern_cloned(&probe);
    assert_eq!(clones.get(), 1);
    let b = interner.intern_cloned(&probe);
    let c = interner.intern_cloned(&Probe::new(7, &clones, &drops));
    assert_eq!(clones.get(), 1);
    assert!(a.ptr_eq(&b));
    assert!(a.ptr_eq(&c));
    assert_eq!(a.id, 7);
}

#[test]
fn rc_intern_drops_the_value_on_a_hit() {
    let clones = Rc::new(Cell::new(0));
    let drops = Rc::new(Cell::new(0));
    let mut interner = RcInterner::new();
    let a = interner.intern(Probe::new(1, &clones, &drops));
    assert_eq!(drops.get(), 0);
    let b = interner.intern(Probe::new(1, &clones, &drops));
    assert_eq!(drops.get(), 1);
    assert!(a.ptr_eq(&b));
    let c = interner.intern_boxed(Box::new(Probe::new(1, &clones, &drops)));
    assert_eq!(drops.get(), 2);
    assert!(a.ptr_eq(&c));
    assert_eq!(clones.get(), 0);
    assert_eq!(interner.len(), 1);
}

#[test]
fn rc_first_value_stays_canonical() {
    let clones = Rc::new(Cell::new(0));
    let drops = Rc::new(Cell::new(0));
    let other_clones = Rc::new(Cell::new(0));
    let mut interner = RcInterner::new();
    let a = interner.intern(Probe::new(3, &clones, &drops));
    let b = interner.intern(Probe::new(3, &other_clones, &drops));
    assert!(Rc::ptr_eq(&b.clones, &clones));
    assert!(a.ptr_eq(&b));
}

#[test]
fn rc_intern_boxed_moves_the_value() {
    let mut interner = RcInterner::new();
    let x = Box::new(42);
    let y = interner.intern_boxed(x);
    assert_eq!(*y, 42);
    let z = interner.intern(42);
    assert!(y.ptr_eq(&z));
    let w = interner.intern_boxed(Box::new(43));
    assert_eq!(*w, 43);
    assert!(!w.ptr_eq(&y));
    assert_eq!(interner.len(), 2);
}

#[test]
fn rc_intern_boxed_takes_unsized_values() {
    let mut texts: RcInterner<str> = RcInterner::new();
    let boxed: Box<str> = Box::from("boxed");
    let a = texts.intern_boxed(boxed);
    let b = texts.intern_str("boxed");
    assert_eq!(&*a, "boxed");
    assert!(a.ptr_eq(&b));
    let mut slices: RcInterner<[u8]> = RcInterner::new();
    let boxed: Box<[u8]> = Box::from([1u8, 2, 3]);
    let c = slices.intern_boxed(boxed);
    let d = slices.intern_slice(&[1, 2, 3]);
    assert_eq!(&*c, &[1u8, 2, 3]);
    assert!(c.ptr_eq(&d));
}

#[test]
fn rc_shrink_to_fit_reclaims_unheld_entries() {
    let mut interner = RcInterner::new();
    let x = interner.intern(42);
    let y = interner.intern(1337);
    let z = y.clone();
    drop(x);
    drop(y);
    interner.shrink_to_fit();
    assert!(interner.try_intern(&42).is_none());
    let found = interner.try_intern(&1337).unwrap();
    assert!(found.ptr_eq(&z));
    assert!(Rc::ptr_eq(found.as_rc(), z.as_rc()));
    assert_eq!(interner.len(), 1);
}

#[test]
fn rc_shrink_to_fit_frees_the_value() {
    let clones = Rc::new(Cell::new(0));
    let drops = Rc::new(Cell::new(0));
    let mut interner = RcInterner::new();
    let a = interner.intern(Probe::new(1, &clones, &drops));
    let b = interner.intern(Probe::new(2, &clones, &drops));
    drop(a);
    assert_eq!(drops.get(), 0);
    interner.shrink_to_fit();
    assert_eq!(drops.get(), 1);
    assert_eq!(interner.len(), 1);
    assert_eq!(b.id, 2);
    drop(b);
    assert_eq!(drops.get(), 1);
    drop(interner);
    assert_eq!(drops.get(), 2);
}

#[test]
fn rc_without_shrink_to_fit_entries_stay() {
    let mut interner = RcInterner::new();
    let x = interner.intern(42);
    drop(x);
    assert_eq!(interner.len(), 1);
    let found = interner.try_intern(&42).unwrap();
    assert_eq!(*found, 42);
}

#[test]
fn rc_shrink_to_fit_twice_changes_nothing_more() {
    let mut interner = RcInterner::new();
    let a = interner.intern(1);
    let b = interner.intern(2);
    let c = interner.intern(3);
    drop(b);
    interner.shrink_to_fit();
    assert_eq!(interner.len(), 2);
    let a1 = interner.try_intern(&1).unwrap();
    let c1 = interner.try_intern(&3).unwrap();
    drop(a1);
    drop(c1);
    interner.shrink_to_fit();
    assert_eq!(interner.len(), 2);
    assert!(interner.try_intern(&1).unwrap().ptr_eq(&a));
    assert!(interner.try_intern(&2).is_none());
    assert!(interner.try_intern(&3).unwrap().ptr_eq(&c));
}

#[test]
fn rc_shrink_to_fit_on_empty_and_on_all_unheld() {
    let mut interner: RcInterner<i32> = RcInterner::new();
    interner.shrink_to_fit();
    assert_eq!(interner.len(), 0);
    for i in 0..100 {
        let h = interner.intern(i);
        assert_eq!(*h, i);
    }
    assert_eq!(interner.len(), 100);
    interner.shrink_to_fit();
    assert_eq!(interner.len(), 0);
    assert!(interner.try_intern(&5).is_none());
}

#[test]
fn rc_shrink_to_fit_keeps_held_entries_in_order() {
    let mut interner = RcInterner::new();
    let mut held = Vec::new();
    for i in 0..50 {
        let h = interner.intern(i);
        if i % 3 == 0 {
            held.push(h);
        }
    }
    interner.shrink_to_fit();
    assert_eq!(interner.len(), held.len());
    for h in held.iter() {
        let found = interner.try_intern(&**h).unwrap();
        assert!(found.ptr_eq(h));
    }
    assert!(interner.try_intern(&1).is_none());
    assert!(interner.try_intern(&49).is_none());
}

#[test]
fn rc_value_can_be_interned_again_after_reclaim() {
    let mut interner = RcInterner::new();
    let x = interner.intern(String::from("again"));
    drop(x);
    interner.shrink_to_fit();
    assert_eq!(interner.len(), 0);
    let y = interner.intern(String::from("again"));
    assert_eq!(&**y, "again");
    assert_eq!(interner.len(), 1);
    assert_eq!(y.holders(), 2);
}

#[test]
fn rc_slice_entry_points_agree() {
    let mut interner = RcInterner::new();
    let s = interner.intern_slice(&[1, 2, 3]);
    let v = interner.intern_vec(vec![1, 2, 3]);
    assert!(s.ptr_eq(&v));
    assert!(Rc::ptr_eq(s.as_rc(), v.as_rc()));
    assert_eq!(&*s, &[1, 2, 3]);
    assert_eq!(interner.len(), 1);
    let other = interner.intern_vec(vec![1, 2]);
    assert!(!other.ptr_eq(&s));
    assert_eq!(&*other, &[1, 2]);
    let back = interner.intern_slice(&[1, 2]);
    assert!(back.ptr_eq(&other));
    assert_eq!(interner.len(), 2);
}

#[test]
fn rc_text_entry_points_agree() {
    let mut interner = RcInterner::new();
    let a = interner.intern_str("hello");
    let b = interner.intern_string(String::from("hello"));
    assert!(a.ptr_eq(&b));
    assert!(Rc::ptr_eq(a.as_rc(), b.as_rc()));
    assert_eq!(&*a, "hello");
    assert_eq!(interner.len(), 1);
    let c = interner.intern_string(String::from("world"));
    let d = interner.intern_str("world");
    assert!(c.ptr_eq(&d));
    assert!(!c.ptr_eq(&a));
    assert_eq!(&*c, "world");
    assert_eq!(interner.len(), 2);
}

#[test]
fn rc_intern_slice_clones_the_items() {
    let clones = Rc::new(Cell::new(0));
    let drops = Rc::new(Cell::new(0));
    let items = [Probe::new(1, &clones, &drops), Probe::new(2, &clones, &drops)];
    let mut interner = RcInterner::new();
    let a = interner.intern_slice(&items);
    assert_eq!(clones.get(), 2);
    let b = interner.intern_slice(&items);
    assert_eq!(clones.get(), 2);
    assert!(a.ptr_eq(&b));
    assert_eq!(a.len(), 2);
    assert_eq!(a[0].id, 1);
    assert_eq!(a[1].id, 2);
}

#[test]
fn rc_intern_vec_moves_the_items() {
    let clones = Rc::new(Cell::new(0));
    let drops = Rc::new(Cell::new(0));
    let mut interner = RcInterner::new();
    let a = interner.intern_vec(vec![Probe::new(1, &clones, &drops), Probe::new(2, &clones, &drops)]);
    assert_eq!(clones.get(), 0);
    assert_eq!(drops.get(), 0);
    let b = interner.intern_vec(vec![Probe::new(1, &clones, &drops), Probe::new(2, &clones, &drops)]);
    assert_eq!(clones.get(), 0);
    assert_eq!(drops.get(), 2);
    assert!(a.ptr_eq(&b));
}

#[test]
fn rc_empty_text_and_empty_slice() {
    let mut texts = RcInterner::new();
    let a = texts.intern_str("");
    let b = texts.intern_string(String::new());
    let c = texts.intern_str("x");
    assert!(a.ptr_eq(&b));
    assert!(!a.ptr_eq(&c));
    assert_eq!(&*a, "");
    let mut slices: RcInterner<[i32]> = RcInterner::new();
    let d = slices.intern_slice(&[]);
    let e = slices.intern_vec(Vec::new());
    let f = slices.intern_slice(&[0]);
    assert!(d.ptr_eq(&e));
    assert!(!d.ptr_eq(&f));
    assert!(d.is_empty());
}

#[test]
fn rc_text_with_equal_prefix_is_kept_apart() {
    let mut interner = RcInterner::new();
    let a = interner.intern_str("abc");
    let b = interner.intern_str("abd");
    let c = interner.intern_str("ab");
    let d = interner.intern_str("héllo");
    let e = interner.intern_string(String::from("héllo"));
    assert!(!a.ptr_eq(&b));
    assert!(!a.ptr_eq(&c));
    assert!(d.ptr_eq(&e));
    assert_eq!(interner.len(), 4);
}

#[test]
fn rc_interning_another_value_leaves_the_first_alone() {
    let mut interner = RcInterner::new();
    let x = interner.intern(42);
    let y = interner.intern(1337);
    assert_eq!(*y, 1337);
    let found = interner.try_intern(&42).unwrap();
    assert!(found.ptr_eq(&x));
    assert!(std::ptr::eq(found.get(), x.get()));
    assert_eq!(*x, 42);
    interner.shrink_to_fit();
    assert!(interner.try_intern(&42).unwrap().ptr_eq(&x));
    assert!(interner.try_intern(&1337).unwrap().ptr_eq(&y));
}

#[test]
fn rc_holders_counts_the_table_and_every_handle() {
    let mut interner = RcInterner::new();
    let x = interner.intern(42);
    assert_eq!(x.holders(), 2);
    let y = x.clone();
    assert_eq!(x.holders(), 3);
    let z = x.share();
    assert_eq!(y.holders(), 4);
    assert!(z.ptr_eq(&x));
    assert!(y.ptr_eq(&x));
    drop(y);
    drop(z);
    assert_eq!(x.holders(), 2);
    assert_eq!(Rc::strong_count(x.as_rc()), 2);
    let again = interner.intern(42);
    assert_eq!(x.holders(), 3);
    drop(again);
    let found = interner.try_intern(&42);
    assert_eq!(x.holders(), 3);
    drop(found);
    interner.shrink_to_fit();
    assert_eq!(x.holders(), 2);
    drop(interner);
    assert_eq!(x.holders(), 1);
    assert_eq!(*x, 42);
}

#[test]
fn rc_handle_gives_up_its_rc() {
    let mut interner = RcInterner::new();
    let x: RcHandle<String> = interner.intern(String::from("inside"));
    let again = interner.intern(String::from("inside"));
    let rc: Rc<String> = x.into_rc();
    assert_eq!(*rc, "inside");
    assert!(Rc::ptr_eq(&rc, again.as_rc()));
    assert_eq!(Rc::strong_count(&rc), 3);
}

#[test]
fn rc_handles_outlive_the_interner() {
    let mut interner = RcInterner::new();
    let x = interner.intern_str("kept");
    drop(interner);
    assert_eq!(&*x, "kept");
    assert_eq!(x.holders(), 1);
}

#[test]
fn rc_two_interners_do_not_share() {
    let mut one = RcInterner::new();
    let mut two = RcInterner::new();
    let a = one.intern(5);
    let b = two.intern(5);
    assert!(!a.ptr_eq(&b));
    assert_eq!(*a, *b);
}

#[test]
fn rc_many_values_round_trip() {
    let mut interner = RcInterner::new();
    let mut handles = Vec::new();
    for i in 0..200u32 {
        handles.push(interner.intern(i.to_string()));
    }
    assert_eq!(interner.len(), 200);
    for i in 0..200u32 {
        let again = interner.intern(i.to_string());
        assert!(again.ptr_eq(&handles[i as usize]));
        assert_eq!(*again, i.to_string());
    }
    assert_eq!(interner.len(), 200);
}

#[test]
fn key_is_same_goes_by_contents() {
    assert!("abc".is_same("abc"));
    assert!(!"abc".is_same("abd"));
    assert!(!"abc".is_same("ab"));
    assert!("".is_same(""));
    assert!(String::from("héllo").as_str().is_same("héllo"));
    let a: &[i32] = &[1, 2, 3];
    let b: &[i32] = &[1, 2, 3];
    let c: &[i32] = &[1, 2, 4];
    let d: &[i32] = &[1, 2];
    assert!(a.is_same(b));
    assert!(!a.is_same(c));
    assert!(!a.is_same(d));
    assert!(!d.is_same(a));
    assert!(42.is_same(&42));
    assert!(!42.is_same(&43));
    assert!(String::from("x").is_same(&String::from("x")));
}

#[test]
fn rc_try_intern_gives_the_interned_value() {
    let mut interner = RcInterner::new();
    let _x = interner.intern(42);
    assert_eq!(interner.try_intern(&42).map(|h| h.into_rc()), Some(Rc::new(42)));
    assert_eq!(interner.try_intern(&1337).map(|h| h.into_rc()), None);
}

#[test]
fn rc_ptr_eq_agrees_with_the_rc_inside() {
    let mut interner = RcInterner::new();
    let a = interner.intern_str("one");
    let b = interner.intern_str("two");
    let c = interner.intern_string(String::from("one"));
    assert_eq!(a.ptr_eq(&b), Rc::ptr_eq(a.as_rc(), b.as_rc()));
    assert_eq!(a.ptr_eq(&c), Rc::ptr_eq(a.as_rc(), c.as_rc()));
    assert_eq!(b.ptr_eq(&c), Rc::ptr_eq(b.as_rc(), c.as_rc()));
    assert!(a.ptr_eq(&a));
    assert!(a.ptr_eq(&c));
    assert!(!a.ptr_eq(&b));
}
