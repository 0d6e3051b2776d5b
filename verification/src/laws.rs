//! What holds of interning and compaction whatever the table and the values.
//!
//! The laws are stated over plain lists of handles and the relations that the interners'
//! contracts use, so they apply to `RcInterner` and `ArcInterner` alike: take the views
//! before and after a call for the lists.

use crate::handle::Handle;
use crate::key::{lawful, lemma_slice_lawful, lemma_text_lawful, Key};
use crate::table::{
    distinct, held, interned, is_first_match, kept, lemma_kept_grows, lemma_kept_positions,
    lemma_kept_shorter, lemma_lookup_finds, lemma_lookup_misses, lemma_lookup_same_key, lookup,
};
use vstd::prelude::*;

verus! {

/// Looking up a value of which nothing the same was ever interned gives nothing: an
/// empty table has no entry for any value.
pub proof fn lemma_empty_table_misses<H: Handle>(key: &H::Target)
    where H::Target: Key
    ensures
        lookup(Seq::<H>::empty(), key) is None,
{
    lemma_lookup_misses(Seq::<H>::empty(), key);
}

/// Once a value is interned, looking it up gives the very handle that interning
/// returned. This asks of a handle made on a miss only that its value is the same as the
/// one interned, which a move grants and a clone should.
pub proof fn lemma_interned_is_found<H: Handle>(pre: Seq<H>, key: &H::Target, post: Seq<H>, r: H)
    where H::Target: Key
    requires
        lawful::<H::Target>(),
        interned(pre, key, post, r),
        lookup(pre, key) is None ==> r.value().same(key),
    ensures
        lookup(post, key) == Some(r),
{
    lemma_lookup_misses(pre, key);
    lemma_lookup_misses(pre, r.value());
    if lookup(pre, key) is None {
        // No entry is the same as `key`, so none is the same as `r`'s value: `r` was added.
        assert(post == pre.push(r));
        lemma_lookup_finds(post, key, pre.len() as int);
    }
}

/// Interning two values that are the same gives one handle twice, whatever was interned
/// before: the second call returns what the first returned and leaves the table alone.
pub proof fn lemma_same_value_same_handle<H: Handle>(
    pre: Seq<H>,
    first: &H::Target,
    mid: Seq<H>,
    h1: H,
    second: &H::Target,
    post: Seq<H>,
    h2: H,
)
    where H::Target: Key
    requires
        lawful::<H::Target>(),
        first.same(second),
        interned(pre, first, mid, h1),
        lookup(pre, first) is None ==> h1.value().same(first),
        interned(mid, second, post, h2),
    ensures
        h2 == h1,
        h2.addr() == h1.addr(),
        post == mid,
{
    lemma_interned_is_found(pre, first, mid, h1);
    // An entry is the same as `first` exactly when it is the same as `second`.
    lemma_lookup_same_key(mid, first, second);
}

/// Interning one value twice gives one handle twice: the second call finds the entry of
/// the first, returns a handle into its allocation and leaves the table as it is.
pub proof fn lemma_repeat_finds_entry<H: Handle>(
    pre: Seq<H>,
    key: &H::Target,
    mid: Seq<H>,
    h1: H,
    post: Seq<H>,
    h2: H,
)
    where H::Target: Key
    requires
        lawful::<H::Target>(),
        interned(pre, key, mid, h1),
        lookup(pre, key) is None ==> h1.value().same(key),
        interned(mid, key, post, h2),
    ensures
        h2 == h1,
        h2.addr() == h1.addr(),
        post == mid,
{
    lemma_same_value_same_handle(pre, key, mid, h1, key, post, h2);
}

/// Text interned from a borrowed `str` and from an owned `String` lands on one handle
/// where the characters agree.
pub proof fn lemma_same_text_same_handle<H: Handle<Target = str>>(
    pre: Seq<H>,
    first: &str,
    mid: Seq<H>,
    h1: H,
    second: &str,
    post: Seq<H>,
    h2: H,
)
    requires
        first@ == second@,
        interned(pre, first, mid, h1),
        lookup(pre, first) is None ==> h1.value()@ == first@,
        interned(mid, second, post, h2),
    ensures
        h2 == h1,
        h2.addr() == h1.addr(),
        post == mid,
{
    lemma_text_lawful();
    lemma_same_value_same_handle(pre, first, mid, h1, second, post, h2);
}

/// Items interned from a borrowed slice and from an owned vector land on one handle
/// where the items agree.
pub proof fn lemma_same_items_same_handle<T: Eq, H: Handle<Target = [T]>>(
    pre: Seq<H>,
    first: &[T],
    mid: Seq<H>,
    h1: H,
    second: &[T],
    post: Seq<H>,
    h2: H,
)
    requires
        lawful::<T>(),
        first@ == second@,
        interned(pre, first, mid, h1),
        lookup(pre, first) is None ==> h1.value().same(first),
        interned(mid, second, post, h2),
    ensures
        h2 == h1,
        h2.addr() == h1.addr(),
        post == mid,
{
    lemma_slice_lawful::<T>();
    lemma_same_value_same_handle(pre, first, mid, h1, second, post, h2);
}

/// Interning one value leaves the entry of every other value where it was: what a
/// lookup found before, it finds after.
pub proof fn lemma_interning_spares_others<H: Handle>(
    pre: Seq<H>,
    other: &H::Target,
    e: H,
    key: &H::Target,
    post: Seq<H>,
    r: H,
)
    where H::Target: Key
    requires
        lookup(pre, other) == Some(e),
        interned(pre, key, post, r),
    ensures
        lookup(post, other) == Some(e),
{
    let i = choose|i: int| is_first_match(pre, other, i);
    if post != pre {
        lemma_lookup_finds(post, other, i);
    }
}

/// Interning keeps to one entry per value.
pub proof fn lemma_interning_keeps_distinct<H: Handle>(pre: Seq<H>, key: &H::Target, post: Seq<H>, r: H)
    where H::Target: Key
    requires
        distinct(pre),
        interned(pre, key, post, r),
    ensures
        distinct(post),
        pre.len() <= post.len(),
{
    lemma_lookup_misses(pre, r.value());
}

/// An entry that is held outlives compaction: the lookup that found it finds it still.
pub proof fn lemma_held_entry_survives<H: Handle>(
    pre: Seq<H>,
    holders: Seq<usize>,
    key: &H::Target,
    i: int,
)
    where H::Target: Key
    requires
        is_first_match(pre, key, i),
        held(holders, i),
    ensures
        lookup(kept(pre, holders), key) == Some(pre[i]),
{
    let post = kept(pre, holders);
    let k = lemma_kept_index(pre, holders, i);
    assert forall|b: int| 0 <= b < k implies !(#[trigger] post[b]).value().same(key) by {
        let j = lemma_kept_positions(pre, holders, b);
        if i <= j {
            lemma_kept_grows(pre, holders, i, j);
        }
    }
    lemma_lookup_finds(post, key, k);
}

/// An entry that nobody holds is gone after compaction, and with it the only entry for
/// its value: the lookup that found it finds nothing.
pub proof fn lemma_unheld_entry_goes<H: Handle>(
    pre: Seq<H>,
    holders: Seq<usize>,
    key: &H::Target,
    i: int,
)
    where H::Target: Key
    requires
        lawful::<H::Target>(),
        distinct(pre),
        is_first_match(pre, key, i),
        !held(holders, i),
    ensures
        lookup(kept(pre, holders), key) is None,
{
    let post = kept(pre, holders);
    assert forall|b: int| 0 <= b < post.len() implies !(#[trigger] post[b]).value().same(key) by {
        // What is kept at `b` was entry `j`, which is not entry `i`; two entries are never
        // the same as one key.
        let j = lemma_kept_positions(pre, holders, b);
        assert(j != i);
    }
    lemma_lookup_misses(post, key);
}

/// Compacting twice in a row, with every survivor held the second time as it was the
/// first, removes nothing the second time.
pub proof fn lemma_compaction_settles<A>(entries: Seq<A>, holders: Seq<usize>)
    ensures
        kept(kept(entries, holders), kept(holders, holders)) == kept(entries, holders),
{
    let later = kept(holders, holders);
    assert forall|k: int| 0 <= k < later.len() implies #[trigger] later[k] > 1 by {
        lemma_kept_positions(holders, holders, k);
    }
    lemma_all_held_all_kept(kept(entries, holders), later);
}

/// Where every count exceeds one, compaction removes nothing.
pub proof fn lemma_all_held_all_kept<A>(entries: Seq<A>, holders: Seq<usize>)
    requires
        forall|k: int| 0 <= k < holders.len() ==> #[trigger] holders[k] > 1,
    ensures
        kept(entries, holders) == entries,
    decreases entries.len(),
{
    if entries.len() > 0 {
        lemma_all_held_all_kept(entries.drop_last(), holders);
    }
}

/// Where entry `i` is held, it is kept, at the place that counts the kept entries
/// before it.
proof fn lemma_kept_index<A>(entries: Seq<A>, holders: Seq<usize>, i: int) -> (k: int)
    requires
        0 <= i < entries.len(),
        held(holders, i),
    ensures
        0 <= k < kept(entries, holders).len(),
        kept(entries, holders)[k] == entries[i],
        k == kept(entries.take(i), holders).len(),
    decreases entries.len(),
{
    let last = entries.len() - 1;
    lemma_kept_shorter(entries.drop_last(), holders);
    if i == last {
        kept(entries.drop_last(), holders).len() as int
    } else {
        let k = lemma_kept_index(entries.drop_last(), holders, i);
        assert(entries.drop_last().take(i) == entries.take(i));
        k
    }
}

} // verus!
