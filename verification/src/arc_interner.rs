//! The interner whose handles threads can share.

use crate::buffers::{boxed_slice, boxed_text, release_spare};
use crate::handle::Handle;
use crate::key::Key;
use crate::arc_handle::{allocate, allocate_boxed, allocate_slice, allocate_text, ArcHandle};
use crate::table::{
    distinct, find, holder_counts, interned, kept, lemma_kept_distinct, lemma_lookup_finds,
    lemma_lookup_misses, lemma_lookup_same_key, lookup, register, registered, sweep,
};
use vstd::prelude::*;

verus! {

/// A table of `Arc` handles with one entry for each value interned: whoever interns a
/// value that is the same as an entry's gets a handle into that entry's allocation.
///
/// An entry stays until `shrink_to_fit` finds that nobody but the table holds it.
///
/// Handles may be cloned and dropped on any thread. The table has no lock of its own:
/// what changes it takes `&mut self`, and threads that share one interner put it behind
/// a lock of theirs.
pub struct ArcInterner<T: ?Sized + Key> {
    entries: Vec<ArcHandle<T>>,
}

impl<T: ?Sized + Key> View for ArcInterner<T> {
    type V = Seq<ArcHandle<T>>;

    /// The entries, oldest first.
    closed spec fn view(&self) -> Seq<ArcHandle<T>> {
        self.entries@
    }
}

impl<T: ?Sized + Key> ArcInterner<T> {
    #[verifier::type_invariant]
    spec fn one_entry_per_value(&self) -> bool {
        T::decides() ==> distinct(self.entries@)
    }

    /// An empty interner.
    pub fn new() -> (r: Self)
        ensures
            r@ == Seq::<ArcHandle<T>>::empty(),
    {
        ArcInterner { entries: Vec::new() }
    }

    /// The number of entries.
    pub fn len(&self) -> (n: usize)
        ensures
            n == self@.len(),
    {
        self.entries.len()
    }

    /// A handle to the entry that stands for `t`, if there is one. Nothing is added.
    pub fn try_intern(&self, t: &T) -> (r: Option<ArcHandle<T>>)
        ensures
            r matches Some(h) ==> self@.contains(h),
            T::decides() ==> r == lookup(self@, t),
            T::decides() ==> distinct(self@),
    {
        proof {
            use_type_invariant(self);
            lemma_lookup_misses(self.entries@, t);
        }
        match find(&self.entries, t) {
            Some(i) => {
                proof {
                    if T::decides() {
                        lemma_lookup_finds(self.entries@, t, i as int);
                    }
                }
                Some(self.entries[i].share())
            },
            None => None,
        }
    }

    /// Adds `h`, whose value no entry has, as the youngest entry.
    fn append(&mut self, h: ArcHandle<T>)
        requires
            T::decides() ==> lookup(old(self)@, h.value()) is None,
        ensures
            final(self)@ == old(self)@.push(h),
    {
        proof {
            use_type_invariant(&*self);
            lemma_lookup_misses(self.entries@, h.value());
        }
        let mut entries: Vec<ArcHandle<T>> = Vec::new();
        std::mem::swap(&mut entries, &mut self.entries);
        entries.push(h);
        self.entries = entries;
    }

    /// Offers `h` to the table, which takes it unless an entry has the same value.
    fn offer(&mut self, h: ArcHandle<T>)
        ensures
            final(self)@ == old(self)@ || final(self)@ == old(self)@.push(h),
            T::decides() ==> final(self)@ == registered(old(self)@, h),
    {
        proof {
            use_type_invariant(&*self);
            lemma_lookup_misses(self.entries@, h.value());
        }
        let mut entries: Vec<ArcHandle<T>> = Vec::new();
        std::mem::swap(&mut entries, &mut self.entries);
        register(&mut entries, h);
        self.entries = entries;
    }

    /// Interns a boxed value. Where an entry stands for it, the box is dropped and the
    /// result is a handle to that entry. Where none does, the value is moved into a new
    /// allocation, which becomes the youngest entry.
    pub fn intern_boxed(&mut self, t: Box<T>) -> (r: ArcHandle<T>)
        ensures
            T::decides() ==> interned(old(self)@, &*t, final(self)@, r),
            T::decides() && lookup(old(self)@, &*t) is None ==> r.value() == &*t && final(self)@
                == old(self)@.push(r),
            final(self)@ == old(self)@ || final(self)@ == old(self)@.push(r),
            T::decides() ==> distinct(final(self)@),
    {
        let known = self.try_intern(&*t);
        match known {
            Some(h) => h,
            None => {
                let h = allocate_boxed(t);
                self.append(h.share());
                proof {
                    use_type_invariant(&*self);
                }
                h
            },
        }
    }

    /// Drops every entry that nobody but the table holds, and gives the table's spare
    /// room back.
    pub fn shrink_to_fit(&mut self)
        ensures
            exists|holders: Seq<usize>|
                holders.len() == old(self)@.len() && final(self)@ == #[trigger] kept(
                    old(self)@,
                    holders,
                ),
            T::decides() ==> distinct(final(self)@),
    {
        proof {
            use_type_invariant(&*self);
        }
        let holders = holder_counts(&self.entries);
        let mut entries: Vec<ArcHandle<T>> = Vec::new();
        std::mem::swap(&mut entries, &mut self.entries);
        let mut entries = sweep(entries, &holders);
        release_spare(&mut entries);
        proof {
            if T::decides() {
                lemma_kept_distinct(old(self)@, holders@);
            }
        }
        self.entries = entries;
        assert(self@ == kept(old(self)@, holders@));
    }
}

impl<T: Key> ArcInterner<T> {
    /// Interns a value. Where an entry stands for it, the value is dropped and the result
    /// is a handle to that entry. Where none does, the value is moved into a new
    /// allocation, which becomes the youngest entry.
    pub fn intern(&mut self, t: T) -> (r: ArcHandle<T>)
        ensures
            T::decides() ==> interned(old(self)@, &t, final(self)@, r),
            T::decides() && lookup(old(self)@, &t) is None ==> *r.value() == t && final(self)@
                == old(self)@.push(r),
            final(self)@ == old(self)@ || final(self)@ == old(self)@.push(r),
            T::decides() ==> distinct(final(self)@),
    {
        let known = self.try_intern(&t);
        match known {
            Some(h) => h,
            None => {
                let h = allocate(t);
                self.append(h.share());
                proof {
                    use_type_invariant(&*self);
                }
                h
            },
        }
    }
}

impl<T: Key + Clone> ArcInterner<T> {
    /// Interns a borrowed value. Where an entry stands for it, the result is a handle to
    /// that entry and nothing is cloned. Where none does, a clone of the value goes into
    /// a new allocation, which is offered to the table.
    pub fn intern_cloned(&mut self, t: &T) -> (r: ArcHandle<T>)
        ensures
            T::decides() ==> interned(old(self)@, t, final(self)@, r),
            T::decides() && lookup(old(self)@, t) is None ==> cloned(*t, *r.value()),
            final(self)@ == old(self)@ || final(self)@ == old(self)@.push(r),
            T::decides() ==> distinct(final(self)@),
    {
        let known = self.try_intern(t);
        match known {
            Some(h) => h,
            None => {
                let h = allocate(t.clone());
                self.offer(h.share());
                proof {
                    use_type_invariant(&*self);
                }
                h
            },
        }
    }
}

impl<T: Eq + Clone> ArcInterner<[T]> {
    /// Interns a borrowed slice. Where an entry stands for it, the result is a handle to
    /// that entry and nothing is cloned. Where none does, a clone of each item goes into
    /// a new allocation, which is offered to the table.
    pub fn intern_slice(&mut self, t: &[T]) -> (r: ArcHandle<[T]>)
        ensures
            <[T]>::decides() ==> interned(old(self)@, t, final(self)@, r),
            <[T]>::decides() && lookup(old(self)@, t) is None ==> {
                &&& r.value()@.len() == t@.len()
                &&& forall|i: int| 0 <= i < t@.len() ==> cloned(#[trigger] t@[i], r.value()@[i])
            },
            final(self)@ == old(self)@ || final(self)@ == old(self)@.push(r),
            <[T]>::decides() ==> distinct(final(self)@),
    {
        let known = self.try_intern(t);
        match known {
            Some(h) => h,
            None => {
                let h = allocate_slice(t);
                self.offer(h.share());
                proof {
                    use_type_invariant(&*self);
                }
                h
            },
        }
    }

    /// Interns the items of a vector as a slice, without copying them: on a miss the
    /// vector's own items move into the new allocation.
    pub fn intern_vec(&mut self, t: Vec<T>) -> (r: ArcHandle<[T]>)
        ensures
            <[T]>::decides() ==> forall|k: &[T]|
                k@ == t@ ==> #[trigger] interned(old(self)@, k, final(self)@, r),
            <[T]>::decides() ==> forall|k: &[T]|
                k@ == t@ && #[trigger] lookup(old(self)@, k) is None ==> r.value()@ == t@
                    && final(self)@ == old(self)@.push(r),
            final(self)@ == old(self)@ || final(self)@ == old(self)@.push(r),
            <[T]>::decides() ==> distinct(final(self)@),
    {
        let b = boxed_slice(t);
        let ghost key: &[T] = &*b;
        let r = self.intern_boxed(b);
        proof {
            assert forall|k: &[T]| k@ == t@ implies lookup(old(self)@, k) == lookup(
                old(self)@,
                key,
            ) by {
                lemma_lookup_same_key(old(self)@, k, key);
            }
        }
        r
    }
}

impl ArcInterner<str> {
    /// Interns borrowed text. Where an entry stands for it, the result is a handle to
    /// that entry and nothing is copied. Where none does, a copy of the text goes into a
    /// new allocation, which becomes the youngest entry.
    pub fn intern_str(&mut self, t: &str) -> (r: ArcHandle<str>)
        ensures
            interned(old(self)@, t, final(self)@, r),
            lookup(old(self)@, t) is None ==> r.value()@ == t@ && final(self)@ == old(
                self,
            )@.push(r),
            distinct(final(self)@),
    {
        let known = self.try_intern(t);
        match known {
            Some(h) => h,
            None => {
                let h = allocate_text(t);
                proof {
                    lemma_lookup_same_key(self@, h.value(), t);
                }
                self.append(h.share());
                proof {
                    use_type_invariant(&*self);
                }
                h
            },
        }
    }

    /// Interns an owned string without copying it: on a miss the string's own text moves
    /// into the new allocation.
    pub fn intern_string(&mut self, t: String) -> (r: ArcHandle<str>)
        ensures
            forall|k: &str| k@ == t@ ==> #[trigger] interned(old(self)@, k, final(self)@, r),
            forall|k: &str|
                k@ == t@ && #[trigger] lookup(old(self)@, k) is None ==> r.value()@ == t@
                    && final(self)@ == old(self)@.push(r),
            distinct(final(self)@),
    {
        let b = boxed_text(t);
        let ghost key: &str = &*b;
        let r = self.intern_boxed(b);
        proof {
            assert forall|k: &str| k@ == t@ implies lookup(old(self)@, k) == lookup(
                old(self)@,
                key,
            ) by {
                lemma_lookup_same_key(old(self)@, k, key);
            }
        }
        r
    }
}

impl<T: ?Sized + Key> Default for ArcInterner<T> {
    fn default() -> (r: Self)
        ensures
            r@ == Seq::<ArcHandle<T>>::empty(),
    {
        ArcInterner::new()
    }
}

} // verus!
