//! The table behind both interners: a list of handles, oldest first, and what it means to
//! look a value up in it, to add to it and to compact it.

use crate::handle::Handle;
use crate::key::Key;
use vstd::prelude::*;

verus! {

/// Entry `i` is the oldest entry whose value is the same as `key`.
pub open spec fn is_first_match<H: Handle>(entries: Seq<H>, key: &H::Target, i: int) -> bool
    where H::Target: Key
{
    &&& 0 <= i < entries.len()
    &&& entries[i].value().same(key)
    &&& forall|j: int| 0 <= j < i ==> !(#[trigger] entries[j]).value().same(key)
}

/// No entry's value is the same as `key`.
pub open spec fn absent<H: Handle>(entries: Seq<H>, key: &H::Target) -> bool
    where H::Target: Key
{
    forall|j: int| 0 <= j < entries.len() ==> !(#[trigger] entries[j]).value().same(key)
}

/// The entry that stands for `key`: the oldest one whose value is the same, if there is
/// any.
pub open spec fn lookup<H: Handle>(entries: Seq<H>, key: &H::Target) -> Option<H>
    where H::Target: Key
{
    if exists|i: int| is_first_match(entries, key, i) {
        Some(entries[choose|i: int| is_first_match(entries, key, i)])
    } else {
        None
    }
}

/// No two entries hold the same value.
pub open spec fn distinct<H: Handle>(entries: Seq<H>) -> bool
    where H::Target: Key
{
    forall|i: int, j: int|
        0 <= i < j < entries.len() ==> !(#[trigger] entries[i]).value().same(
            (#[trigger] entries[j]).value(),
        )
}

/// The table after `h` was offered to it: `h` is added at the end unless an entry with
/// the same value is there already.
pub open spec fn registered<H: Handle>(entries: Seq<H>, h: H) -> Seq<H>
    where H::Target: Key
{
    if lookup(entries, h.value()) is None {
        entries.push(h)
    } else {
        entries
    }
}

/// What interning `key` does to a table and what it returns. Where an entry stands for
/// `key`, the table stays as it is and `r` is that entry. Where none does, the table is
/// the old one after `r` was offered to it; what `r` then points to is for the function
/// that interns to say.
pub open spec fn interned<H: Handle>(pre: Seq<H>, key: &H::Target, post: Seq<H>, r: H) -> bool
    where H::Target: Key
{
    match lookup(pre, key) {
        Some(e) => r == e && post == pre,
        None => post == registered(pre, r),
    }
}

/// Whether entry `i` is held by anyone but the table, going by the counts in `holders`:
/// it is unless its count is there and is at most one.
pub open spec fn held(holders: Seq<usize>, i: int) -> bool {
    0 <= i < holders.len() ==> holders[i] > 1
}

/// The entries that are held, in their old order.
pub open spec fn kept<A>(entries: Seq<A>, holders: Seq<usize>) -> Seq<A>
    decreases entries.len(),
{
    if entries.len() == 0 {
        Seq::empty()
    } else {
        let before = kept(entries.drop_last(), holders);
        if held(holders, entries.len() - 1) {
            before.push(entries.last())
        } else {
            before
        }
    }
}

/// The oldest match is the entry that `lookup` gives.
pub proof fn lemma_lookup_finds<H: Handle>(entries: Seq<H>, key: &H::Target, i: int)
    where H::Target: Key
    requires
        is_first_match(entries, key, i),
    ensures
        lookup(entries, key) == Some(entries[i]),
{
    // Whatever oldest match is chosen, it is `i`: of two different places, the elder
    // would be a match before the younger.
    let c = choose|c: int| is_first_match(entries, key, c);
    assert(c == i);
}

/// `lookup` gives nothing exactly when no entry matches.
pub proof fn lemma_lookup_misses<H: Handle>(entries: Seq<H>, key: &H::Target)
    where H::Target: Key
    ensures
        lookup(entries, key) is None <==> absent(entries, key),
{
    if lookup(entries, key) is None && !absent(entries, key) {
        let j = choose|j: int| 0 <= j < entries.len() && (#[trigger] entries[j]).value().same(key);
        lemma_first_match_exists(entries, key, j);
    }
}

/// Where some entry up to `j` matches, there is an oldest one.
proof fn lemma_first_match_exists<H: Handle>(entries: Seq<H>, key: &H::Target, j: int)
    where H::Target: Key
    requires
        0 <= j < entries.len(),
        entries[j].value().same(key),
    ensures
        exists|i: int| is_first_match(entries, key, i),
    decreases j,
{
    if exists|k: int| 0 <= k < j && (#[trigger] entries[k]).value().same(key) {
        let k = choose|k: int| 0 <= k < j && (#[trigger] entries[k]).value().same(key);
        lemma_first_match_exists(entries, key, k);
    } else {
        assert(is_first_match(entries, key, j));
    }
}

/// Two keys that every entry treats alike are looked up alike.
pub proof fn lemma_lookup_same_key<H: Handle>(entries: Seq<H>, a: &H::Target, b: &H::Target)
    where H::Target: Key
    requires
        forall|j: int|
            0 <= j < entries.len() ==> (#[trigger] entries[j]).value().same(a) == entries[j].value().same(b),
    ensures
        lookup(entries, a) == lookup(entries, b),
{
    lemma_lookup_misses(entries, a);
    lemma_lookup_misses(entries, b);
    if lookup(entries, a) is Some {
        let i = choose|i: int| is_first_match(entries, a, i);
        lemma_lookup_finds(entries, b, i);
    }
}

/// Looks `key` up: the index of the oldest entry whose value is the same.
pub fn find<H: Handle>(entries: &Vec<H>, key: &H::Target) -> (r: Option<usize>)
    where H::Target: Key
    ensures
        r matches Some(i) ==> i < entries@.len(),
        <H::Target as Key>::decides() ==> match r {
            Some(i) => is_first_match(entries@, key, i as int),
            None => absent(entries@, key),
        },
{
    let mut i: usize = 0;
    while i < entries.len()
        invariant
            i <= entries.len(),
            <H::Target as Key>::decides() ==> forall|j: int|
                0 <= j < i ==> !(#[trigger] entries@[j]).value().same(key),
        decreases entries.len() - i,
    {
        if entries[i].get().is_same(key) {
            return Some(i);
        }
        i += 1;
    }
    None
}

/// Offers `h` to the table: it is added at the end unless an entry with the same value
/// is there already, and then it is dropped.
pub fn register<H: Handle>(entries: &mut Vec<H>, h: H)
    where H::Target: Key
    ensures
        final(entries)@ == old(entries)@ || final(entries)@ == old(entries)@.push(h),
        <H::Target as Key>::decides() ==> final(entries)@ == registered(old(entries)@, h),
{
    let found = find(entries, h.get());
    proof {
        lemma_lookup_misses(entries@, h.value());
        if found is Some && <H::Target as Key>::decides() {
            lemma_lookup_finds(entries@, h.value(), found.unwrap() as int);
        }
    }
    if found.is_none() {
        entries.push(h);
    }
}

/// Reads, entry by entry, how many handles into its allocation are alive.
pub fn holder_counts<H: Handle>(entries: &Vec<H>) -> (holders: Vec<usize>)
    ensures
        holders@.len() == entries@.len(),
        forall|i: int| 0 <= i < holders@.len() ==> #[trigger] holders@[i] >= 1,
{
    let mut holders: Vec<usize> = Vec::new();
    let mut i: usize = 0;
    while i < entries.len()
        invariant
            i <= entries.len(),
            holders@.len() == i,
            forall|j: int| 0 <= j < holders@.len() ==> #[trigger] holders@[j] >= 1,
        decreases entries.len() - i,
    {
        holders.push(entries[i].holders());
        i += 1;
    }
    holders
}

/// Drops the entries that nobody but the table holds, going by the counts in `holders`,
/// and returns the others in their old order.
pub fn sweep<H>(entries: Vec<H>, holders: &Vec<usize>) -> (out: Vec<H>)
    ensures
        out@ == kept(entries@, holders@),
{
    let ghost old_entries = entries@;
    assert(old_entries.len() <= usize::MAX) by {
        assert(entries.len() == old_entries.len());
    }
    let mut out: Vec<H> = Vec::new();
    let mut i: usize = 0;
    for h in it: entries
        invariant
            i == it.index(),
            it.seq() == old_entries,
            old_entries.len() <= usize::MAX,
            out@ == kept(old_entries.take(i as int), holders@),
    {
        assert(old_entries.take(i + 1).drop_last() == old_entries.take(i as int));
        if i >= holders.len() || holders[i] > 1 {
            out.push(h);
        }
        i += 1;
    }
    assert(old_entries.take(i as int) == old_entries);
    out
}

/// Every entry that is kept was an entry before, and entries keep their order.
pub proof fn lemma_kept_positions<A>(entries: Seq<A>, holders: Seq<usize>, k: int) -> (i: int)
    requires
        0 <= k < kept(entries, holders).len(),
    ensures
        k <= i < entries.len(),
        held(holders, i),
        kept(entries, holders)[k] == entries[i],
        kept(entries.take(i), holders).len() == k,
    decreases entries.len(),
{
    let before = kept(entries.drop_last(), holders);
    let last = entries.len() - 1;
    lemma_kept_shorter(entries.drop_last(), holders);
    if held(holders, last) && k == before.len() {
        last
    } else {
        let i = lemma_kept_positions(entries.drop_last(), holders, k);
        assert(entries.drop_last().take(i) == entries.take(i));
        i
    }
}

/// Compaction never adds an entry.
pub proof fn lemma_kept_shorter<A>(entries: Seq<A>, holders: Seq<usize>)
    ensures
        kept(entries, holders).len() <= entries.len(),
    decreases entries.len(),
{
    if entries.len() > 0 {
        lemma_kept_shorter(entries.drop_last(), holders);
    }
}

/// Compaction leaves no two entries with the same value where there were none.
pub proof fn lemma_kept_distinct<H: Handle>(entries: Seq<H>, holders: Seq<usize>)
    where H::Target: Key
    requires
        distinct(entries),
    ensures
        distinct(kept(entries, holders)),
{
    let out = kept(entries, holders);
    assert forall|a: int, b: int| 0 <= a < b < out.len() implies !(#[trigger] out[a]).value().same(
        (#[trigger] out[b]).value(),
    ) by {
        let i = lemma_kept_positions(entries, holders, a);
        let j = lemma_kept_positions(entries, holders, b);
        if j <= i {
            lemma_kept_grows(entries, holders, j, i);
        }
    }
}

/// A longer prefix keeps at least as many entries.
pub proof fn lemma_kept_grows<A>(entries: Seq<A>, holders: Seq<usize>, i: int, j: int)
    requires
        0 <= i <= j <= entries.len(),
    ensures
        kept(entries.take(i), holders).len() <= kept(entries.take(j), holders).len(),
    decreases j - i,
{
    if i < j {
        lemma_kept_grows(entries, holders, i, j - 1);
        assert(entries.take(j).drop_last() == entries.take(j - 1));
    }
}

} // verus!
