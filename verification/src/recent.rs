//! Short lists of what was seen lately: bounded, aged out by time, and, when full, making room
//! by forgetting the oldest.

use vstd::prelude::*;

use crate::bounded::BoundedVec;
use crate::hash::AddressHash;
use crate::table::{age, elapsed, Stamped};

verus! {

/// Something kept under an address.
pub trait Filed: Sized {
    /// The address it is kept under.
    spec fn filed_under(self) -> AddressHash;

    /// Read the address.
    fn label(&self) -> (key: AddressHash)
        ensures
            key == self.filed_under(),
    ;
}

/// Where the first entry under an address stands.
pub open spec fn index_of<T: Filed>(s: Seq<T>, key: AddressHash) -> Option<int>
    decreases s.len(),
{
    if s.len() == 0 {
        None
    } else {
        match index_of(s.drop_last(), key) {
            Some(i) => Some(i),
            None => if s.last().filed_under() == key {
                Some(s.len() - 1)
            } else {
                None
            },
        }
    }
}

/// Whether an entry has outlived its time.
pub open spec fn is_aged<T: Stamped>(entry: T, now: u64, ttl: u64) -> bool {
    age(now, entry.stamped_at()) >= ttl
}

/// Where the first entry that has outlived its time stands.
pub open spec fn first_aged<T: Stamped>(s: Seq<T>, now: u64, ttl: u64) -> Option<int>
    decreases s.len(),
{
    if s.len() == 0 {
        None
    } else {
        match first_aged(s.drop_last(), now, ttl) {
            Some(i) => Some(i),
            None => if is_aged(s.last(), now, ttl) {
                Some(s.len() - 1)
            } else {
                None
            },
        }
    }
}

/// An entry taken out, with the last in its place.
pub open spec fn swapped_out<T>(s: Seq<T>, i: int) -> Seq<T> {
    s.update(i, s.last()).drop_last()
}

/// The entries left when every one that has outlived its time is taken out, first one first.
pub open spec fn without_aged<T: Stamped>(s: Seq<T>, now: u64, ttl: u64) -> Seq<T>
    decreases s.len(),
{
    match first_aged(s, now, ttl) {
        Some(i) => if 0 <= i < s.len() {
            without_aged(swapped_out(s, i), now, ttl)
        } else {
            s
        },
        None => s,
    }
}

/// The entries that have not outlived their time, in their order.
pub open spec fn still_fresh<T: Stamped>(s: Seq<T>, now: u64, ttl: u64) -> Seq<T>
    decreases s.len(),
{
    if s.len() == 0 {
        s
    } else if is_aged(s.last(), now, ttl) {
        still_fresh(s.drop_last(), now, ttl)
    } else {
        still_fresh(s.drop_last(), now, ttl).push(s.last())
    }
}

/// The entries not kept under an address, in their order.
pub open spec fn not_under<T: Filed>(s: Seq<T>, key: AddressHash) -> Seq<T>
    decreases s.len(),
{
    if s.len() == 0 {
        s
    } else if s.last().filed_under() == key {
        not_under(s.drop_last(), key)
    } else {
        not_under(s.drop_last(), key).push(s.last())
    }
}

/// Where the oldest entry stands, the first of several.
pub open spec fn oldest<T: Stamped>(s: Seq<T>) -> int
    decreases s.len(),
{
    if s.len() <= 1 {
        0
    } else {
        let before = oldest(s.drop_last());
        if s.last().stamped_at() < s[before].stamped_at() {
            s.len() - 1
        } else {
            before
        }
    }
}

/// Whether an entry that is not there yet costs the oldest its place.
pub open spec fn displaces<T: Filed>(s: Seq<T>, key: AddressHash, capacity: nat) -> bool {
    index_of(s, key) is None && s.len() >= capacity && s.len() > 0
}

/// With one more entry at the end, for which the oldest makes room in a full list.
pub open spec fn with_latest<T: Stamped>(s: Seq<T>, entry: T, capacity: nat) -> Seq<T> {
    if s.len() < capacity {
        s.push(entry)
    } else if capacity > 0 {
        swapped_out(s, oldest(s)).push(entry)
    } else {
        s
    }
}

/// With an entry in: in place of the one under its address, or at the end.
pub open spec fn remembered<T: Filed + Stamped>(s: Seq<T>, entry: T, capacity: nat) -> Seq<T> {
    match index_of(s, entry.filed_under()) {
        Some(i) => s.update(i, entry),
        None => with_latest(s, entry, capacity),
    }
}

/// An entry is found where it is, and not before.
pub proof fn lemma_index_of<T: Filed>(s: Seq<T>, key: AddressHash)
    ensures
        match index_of(s, key) {
            Some(i) => 0 <= i < s.len() && s[i].filed_under() == key && forall|j: int|
                0 <= j < i ==> (#[trigger] s[j]).filed_under() != key,
            None => forall|j: int| 0 <= j < s.len() ==> (#[trigger] s[j]).filed_under() != key,
        },
    decreases s.len(),
{
    if s.len() > 0 {
        let before = s.drop_last();
        lemma_index_of(before, key);
        match index_of(before, key) {
            Some(i) => {
                assert(before[i] == s[i]);
                assert forall|j: int| 0 <= j < i implies (#[trigger] s[j]).filed_under() != key by {
                    assert(before[j].filed_under() != key);
                }
            },
            None => {
                assert forall|j: int| 0 <= j < s.len() - 1 implies (#[trigger] s[j]).filed_under()
                    != key by {
                    assert(before[j].filed_under() != key);
                }
            },
        }
    }
}

/// The first entry with a property is the one found: there is no other.
pub proof fn lemma_index_is<T: Filed>(s: Seq<T>, key: AddressHash, i: int)
    requires
        0 <= i < s.len(),
        s[i].filed_under() == key,
        forall|j: int| 0 <= j < i ==> (#[trigger] s[j]).filed_under() != key,
    ensures
        index_of(s, key) == Some(i),
{
    lemma_index_of(s, key);
    if let Some(k) = index_of(s, key) {
        if k < i {
            assert(s[k].filed_under() != key);
        }
    } else {
        assert(s[i].filed_under() != key);
    }
}

/// An aged entry is found where it is, and not before.
pub proof fn lemma_first_aged<T: Stamped>(s: Seq<T>, now: u64, ttl: u64)
    ensures
        match first_aged(s, now, ttl) {
            Some(i) => 0 <= i < s.len() && is_aged(s[i], now, ttl) && forall|j: int|
                0 <= j < i ==> !is_aged(#[trigger] s[j], now, ttl),
            None => forall|j: int| 0 <= j < s.len() ==> !is_aged(#[trigger] s[j], now, ttl),
        },
    decreases s.len(),
{
    if s.len() > 0 {
        let before = s.drop_last();
        lemma_first_aged(before, now, ttl);
        match first_aged(before, now, ttl) {
            Some(i) => {
                assert(before[i] == s[i]);
                assert forall|j: int| 0 <= j < i implies !is_aged(#[trigger] s[j], now, ttl) by {
                    assert(!is_aged(before[j], now, ttl));
                }
            },
            None => {
                assert forall|j: int| 0 <= j < s.len() - 1 implies !is_aged(
                    #[trigger] s[j],
                    now,
                    ttl,
                ) by {
                    assert(!is_aged(before[j], now, ttl));
                }
            },
        }
    }
}

/// Nothing is older than the oldest.
pub proof fn lemma_oldest<T: Stamped>(s: Seq<T>)
    requires
        s.len() > 0,
    ensures
        0 <= oldest(s) < s.len(),
        forall|j: int|
            0 <= j < s.len() ==> s[oldest(s)].stamped_at() <= (#[trigger] s[j]).stamped_at(),
        forall|j: int|
            0 <= j < oldest(s) ==> s[oldest(s)].stamped_at() < (#[trigger] s[j]).stamped_at(),
    decreases s.len(),
{
    if s.len() > 1 {
        let before = s.drop_last();
        lemma_oldest(before);
        assert(before[oldest(before)] == s[oldest(before)]);
        assert forall|j: int| 0 <= j < s.len() implies s[oldest(s)].stamped_at()
            <= (#[trigger] s[j]).stamped_at() by {
            if j < s.len() - 1 {
                assert(before[j] == s[j]);
            }
        }
        assert forall|j: int| 0 <= j < oldest(s) implies s[oldest(s)].stamped_at()
            < (#[trigger] s[j]).stamped_at() by {
            assert(before[j] == s[j]);
        }
    }
}

/// Aging never makes a list longer, and leaves nothing that has outlived its time.
pub proof fn lemma_without_aged<T: Stamped>(s: Seq<T>, now: u64, ttl: u64)
    ensures
        without_aged(s, now, ttl).len() <= s.len(),
        forall|j: int|
            0 <= j < without_aged(s, now, ttl).len() ==> !is_aged(
                #[trigger] without_aged(s, now, ttl)[j],
                now,
                ttl,
            ) && s.contains(without_aged(s, now, ttl)[j]),
        forall|j: int|
            0 <= j < s.len() && !is_aged(#[trigger] s[j], now, ttl) ==> without_aged(
                s,
                now,
                ttl,
            ).contains(s[j]),
    decreases s.len(),
{
    lemma_first_aged(s, now, ttl);
    let kept = without_aged(s, now, ttl);
    match first_aged(s, now, ttl) {
        None => {
            assert forall|j: int| 0 <= j < kept.len() implies !is_aged(#[trigger] kept[j], now, ttl)
                && s.contains(kept[j]) by {
                assert(s[j] == kept[j]);
            }
        },
        Some(i) => {
            let rest = swapped_out(s, i);
            lemma_without_aged(rest, now, ttl);
            assert forall|j: int| 0 <= j < kept.len() implies !is_aged(#[trigger] kept[j], now, ttl)
                && s.contains(kept[j]) by {
                let k = choose|k: int| 0 <= k < rest.len() && rest[k] == kept[j];
                let from = if k == i {
                    s.len() - 1
                } else {
                    k
                };
                assert(s[from] == kept[j]);
            }
            assert forall|j: int| 0 <= j < s.len() && !is_aged(#[trigger] s[j], now, ttl) implies
                kept.contains(s[j]) by {
                let to = if j == s.len() - 1 {
                    i
                } else {
                    j
                };
                assert(rest[to] == s[j]);
            }
        },
    }
}

/// Where the first entry under an address stands.
pub fn find<T: Filed, const N: usize>(list: &BoundedVec<T, N>, key: &AddressHash) -> (at: Option<
    usize,
>)
    ensures
        match at {
            Some(i) => index_of(list.view(), *key) == Some(i as int) && i < list.view().len(),
            None => index_of(list.view(), *key) is None,
        },
{
    let items = list.items();
    let mut i: usize = 0;
    while i < items.len()
        invariant
            i <= items@.len(),
            items@ == list.view(),
            forall|j: int| 0 <= j < i ==> (#[trigger] items@[j]).filed_under() != *key,
        decreases items@.len() - i,
    {
        if items[i].label() == *key {
            proof {
                lemma_index_is(items@, *key, i as int);
            }
            return Some(i);
        }
        i += 1;
    }
    proof {
        lemma_index_of(items@, *key);
    }
    None
}

/// Take out every entry that has outlived its time. Returns how many went.
pub fn drop_aged<T: Stamped, const N: usize>(
    list: &mut BoundedVec<T, N>,
    now: u64,
    ttl: u64,
) -> (gone: usize)
    ensures
        final(list).view() == without_aged(old(list).view(), now, ttl),
        gone == old(list).view().len() - final(list).view().len(),
{
    let ghost before = list.view();
    let mut gone: usize = 0;
    let mut i: usize = 0;
    let total: usize = list.len();
    while i < list.len()
        invariant
            i <= list.view().len(),
            gone + list.view().len() == before.len(),
            before.len() == total,
            without_aged(list.view(), now, ttl) == without_aged(before, now, ttl),
            forall|j: int| 0 <= j < i ==> !is_aged(#[trigger] list.view()[j], now, ttl),
        decreases list.view().len() - i,
    {
        let here = list.items();
        if elapsed(now, here[i].stamp()) >= ttl {
            let ghost held = list.view();
            proof {
                lemma_first_aged(held, now, ttl);
                let k = first_aged(held, now, ttl)->0;
                if k < i {
                    assert(!is_aged(held[k], now, ttl));
                }
                assert(k == i);
            }
            let _ = list.swap_remove(i);
            gone += 1;
            proof {
                assert forall|j: int| 0 <= j < i implies !is_aged(
                    #[trigger] list.view()[j],
                    now,
                    ttl,
                ) by {
                    assert(held[j] == list.view()[j]);
                }
            }
        } else {
            i += 1;
        }
    }
    proof {
        lemma_first_aged(list.view(), now, ttl);
    }
    gone
}

/// Keep only what has not outlived its time, in its order.
pub fn keep_fresh<T: Stamped + Copy, const N: usize>(
    list: &mut BoundedVec<T, N>,
    now: u64,
    ttl: u64,
)
    ensures
        final(list).view() == still_fresh(old(list).view(), now, ttl),
        final(list).view().len() <= old(list).view().len(),
{
    let mut kept: BoundedVec<T, N> = BoundedVec::new();
    let items = list.items();
    let mut i: usize = 0;
    proof {
        assert(items@.subrange(0, 0) =~= Seq::<T>::empty());
    }
    while i < items.len()
        invariant
            i <= items@.len() <= N,
            kept.view() == still_fresh(items@.subrange(0, i as int), now, ttl),
            kept.view().len() <= i,
        decreases items@.len() - i,
    {
        let ghost next = items@.subrange(0, i + 1);
        proof {
            assert(next.drop_last() =~= items@.subrange(0, i as int));
        }
        let entry = items[i];
        if elapsed(now, entry.stamp()) < ttl {
            let _ = kept.push(entry);
        }
        i += 1;
    }
    proof {
        assert(items@.subrange(0, i as int) =~= items@);
    }
    *list = kept;
}

/// Keep only what is not under an address, in its order.
pub fn drop_under<T: Filed + Copy, const N: usize>(list: &mut BoundedVec<T, N>, key: &AddressHash)
    ensures
        final(list).view() == not_under(old(list).view(), *key),
{
    let mut kept: BoundedVec<T, N> = BoundedVec::new();
    let items = list.items();
    let mut i: usize = 0;
    proof {
        assert(items@.subrange(0, 0) =~= Seq::<T>::empty());
    }
    while i < items.len()
        invariant
            i <= items@.len() <= N,
            kept.view() == not_under(items@.subrange(0, i as int), *key),
            kept.view().len() <= i,
        decreases items@.len() - i,
    {
        let ghost next = items@.subrange(0, i + 1);
        proof {
            assert(next.drop_last() =~= items@.subrange(0, i as int));
        }
        let entry = items[i];
        if !(entry.label() == *key) {
            let _ = kept.push(entry);
        }
        i += 1;
    }
    proof {
        assert(items@.subrange(0, i as int) =~= items@);
    }
    *list = kept;
}

/// Where the oldest entry stands.
fn find_oldest<T: Stamped, const N: usize>(list: &BoundedVec<T, N>) -> (at: usize)
    requires
        list.view().len() > 0,
    ensures
        at == oldest(list.view()),
        at < list.view().len(),
{
    let items = list.items();
    let mut at: usize = 0;
    let mut i: usize = 1;
    proof {
        assert(items@.subrange(0, 1).len() == 1);
    }
    while i < items.len()
        invariant
            1 <= i <= items@.len(),
            at < i,
            at == oldest(items@.subrange(0, i as int)),
        decreases items@.len() - i,
    {
        let ghost next = items@.subrange(0, i + 1);
        proof {
            assert(next.drop_last() =~= items@.subrange(0, i as int));
        }
        if items[i].stamp() < items[at].stamp() {
            at = i;
        }
        i += 1;
    }
    proof {
        assert(items@.subrange(0, i as int) =~= items@);
    }
    at
}

/// Put an entry at the end; in a full list the oldest makes room. Returns whether it is in, and
/// whether the oldest went.
pub fn push_latest<T: Stamped, const N: usize>(list: &mut BoundedVec<T, N>, entry: T) -> (done: (
    bool,
    bool,
))
    ensures
        final(list).view() == with_latest(old(list).view(), entry, N as nat),
        old(list).view().len() <= N,
        done.0 == (N > 0),
        done.1 == (old(list).view().len() >= N && old(list).view().len() > 0),
{
    let n: usize = list.len();
    let mut displaced = false;
    if n >= N && n > 0 {
        let at: usize = find_oldest(list);
        let _ = list.swap_remove(at);
        displaced = true;
    }
    match list.push(entry) {
        Ok(()) => (true, displaced),
        Err(_) => (false, displaced),
    }
}

/// Put an entry in: in place of the one under its address, or at the end. Returns whether the
/// oldest went to make room.
pub fn remember<T: Filed + Stamped, const N: usize>(list: &mut BoundedVec<T, N>, entry: T) -> (displaced:
    bool)
    ensures
        final(list).view() == remembered(old(list).view(), entry, N as nat),
        displaced == displaces(old(list).view(), entry.filed_under(), N as nat),
{
    match find(list, &entry.label()) {
        Some(i) => {
            list.set(i, entry);
            false
        },
        None => push_latest(list, entry).1,
    }
}

// ---------------------------------------------------------------------------------------
// Laws.
/// A list never outgrows its bound, whatever is put in.
pub proof fn law_remembering_is_bounded<T: Filed + Stamped>(s: Seq<T>, entry: T, capacity: nat)
    requires
        s.len() <= capacity,
    ensures
        remembered(s, entry, capacity).len() <= capacity,
        s.len() <= remembered(s, entry, capacity).len(),
{
    lemma_index_of(s, entry.filed_under());
    if s.len() > 0 {
        lemma_oldest(s);
    }
}

/// What was just put in is found.
pub proof fn law_latest_is_found<T: Filed + Stamped>(s: Seq<T>, entry: T, capacity: nat)
    requires
        s.len() <= capacity,
        capacity > 0,
    ensures
        match index_of(remembered(s, entry, capacity), entry.filed_under()) {
            Some(i) => remembered(s, entry, capacity)[i] == entry,
            None => false,
        },
{
    let key = entry.filed_under();
    let after = remembered(s, entry, capacity);
    lemma_index_of(s, key);
    match index_of(s, key) {
        Some(i) => {
            assert forall|j: int| 0 <= j < i implies (#[trigger] after[j]).filed_under() != key by {
                assert(s[j] == after[j]);
            }
            lemma_index_is(after, key, i);
        },
        None => {
            let last = after.len() - 1;
            if s.len() >= capacity {
                lemma_oldest(s);
            }
            assert forall|j: int| 0 <= j < last implies (#[trigger] after[j]).filed_under() != key by {
                let from = if s.len() >= capacity && j == oldest(s) {
                    s.len() - 1
                } else {
                    j
                };
                assert(after[j] == s[from]);
            }
            lemma_index_is(after, key, last);
        },
    }
}

/// Only the oldest makes room: every other entry under another address stays.
pub proof fn law_only_the_oldest_goes<T: Filed + Stamped>(
    s: Seq<T>,
    entry: T,
    capacity: nat,
    i: int,
)
    requires
        0 <= i < s.len() <= capacity,
        s[i].filed_under() != entry.filed_under(),
        displaces(s, entry.filed_under(), capacity) ==> i != oldest(s),
    ensures
        remembered(s, entry, capacity).contains(s[i]),
{
    let after = remembered(s, entry, capacity);
    lemma_index_of(s, entry.filed_under());
    if index_of(s, entry.filed_under()) is None && s.len() >= capacity {
        lemma_oldest(s);
        let to = if i == s.len() - 1 {
            oldest(s)
        } else {
            i
        };
        assert(after[to] == s[i]);
    } else {
        assert(after[i] == s[i]);
    }
}

/// What is fresh is what has not outlived its time, and what is not under an address is what
/// is under another, each in its order.
pub proof fn law_entries_stay_in_their_order<T: Filed + Stamped>(
    s: Seq<T>,
    now: u64,
    ttl: u64,
    key: AddressHash,
)
    ensures
        still_fresh(s, now, ttl) == s.filter(|entry: T| age(now, entry.stamped_at()) < ttl),
        not_under(s, key) == s.filter(|entry: T| entry.filed_under() != key),
    decreases s.len(),
{
    reveal(Seq::filter);
    if s.len() > 0 {
        law_entries_stay_in_their_order(s.drop_last(), now, ttl, key);
    }
}

/// What is taken out is what has outlived its time, each of it once, and nothing else.
pub proof fn law_aging_is_by_time<T: Stamped>(s: Seq<T>, now: u64, ttl: u64)
    ensures
        without_aged(s, now, ttl).to_multiset() == s.filter(
            |entry: T| age(now, entry.stamped_at()) < ttl,
        ).to_multiset(),
    decreases s.len(),
{
    broadcast use vstd::seq_lib::group_to_multiset_ensures;

    let fresh = |entry: T| age(now, entry.stamped_at()) < ttl;
    lemma_first_aged(s, now, ttl);
    match first_aged(s, now, ttl) {
        None => {
            lemma_all_pass(s, fresh);
        },
        Some(i) => {
            let rest = swapped_out(s, i);
            law_aging_is_by_time(rest, now, ttl);
            assert(s.remove(i).to_multiset() =~= rest.to_multiset()) by {
                assert(s.update(i, s.last()).drop_last() =~= rest);
                if i == s.len() - 1 {
                    assert(s.remove(i) =~= rest);
                } else {
                    let middle = s.subrange(i + 1, s.len() - 1);
                    let head = s.subrange(0, i);
                    let tail = seq![s.last()];
                    assert(s.remove(i) =~= head + (middle + tail));
                    assert(rest =~= head + (tail + middle));
                    vstd::seq_lib::lemma_multiset_commutative(head, middle + tail);
                    vstd::seq_lib::lemma_multiset_commutative(head, tail + middle);
                    vstd::seq_lib::lemma_multiset_commutative(middle, tail);
                    vstd::seq_lib::lemma_multiset_commutative(tail, middle);
                    assert((middle + tail).to_multiset() =~= (tail + middle).to_multiset());
                }
            }
            lemma_filter_counts(s, fresh);
            lemma_filter_counts(rest, fresh);
            let left = s.filter(fresh).to_multiset();
            let right = rest.filter(fresh).to_multiset();
            assert(!fresh(s[i]));
            assert(s.remove(i).to_multiset() =~= s.to_multiset().remove(s[i]));
            assert forall|x: T| left.count(x) == #[trigger] right.count(x) by {}
            assert(left =~= right);
        },
    }
}

/// Where all pass, a filter keeps all.
proof fn lemma_all_pass<T>(s: Seq<T>, pass: spec_fn(T) -> bool)
    requires
        forall|j: int| 0 <= j < s.len() ==> pass(#[trigger] s[j]),
    ensures
        s.filter(pass) == s,
    decreases s.len(),
{
    reveal(Seq::filter);
    if s.len() > 0 {
        assert(pass(s[s.len() - 1]));
        lemma_all_pass(s.drop_last(), pass);
        assert(s.drop_last().push(s.last()) =~= s);
    }
}

/// A filter keeps as many of each as there were, or none.
proof fn lemma_filter_counts<T>(s: Seq<T>, pass: spec_fn(T) -> bool)
    ensures
        forall|x: T| #[trigger]
            s.filter(pass).to_multiset().count(x) == if pass(x) {
                s.to_multiset().count(x)
            } else {
                0
            },
    decreases s.len(),
{
    broadcast use vstd::seq_lib::group_to_multiset_ensures;

    reveal(Seq::filter);
    if s.len() > 0 {
        let before = s.drop_last();
        lemma_filter_counts(before, pass);
        assert(before.push(s.last()) =~= s);
        assert(s.to_multiset() =~= before.to_multiset().insert(s.last()));
        if pass(s.last()) {
            assert(s.filter(pass) == before.filter(pass).push(s.last()));
            assert(s.filter(pass).to_multiset() =~= before.filter(pass).to_multiset().insert(
                s.last(),
            ));
        }
        assert forall|x: T| #[trigger]
            s.filter(pass).to_multiset().count(x) == if pass(x) {
                s.to_multiset().count(x)
            } else {
                0
            } by {
            assert(before.filter(pass).to_multiset().count(x) == if pass(x) {
                before.to_multiset().count(x)
            } else {
                0
            });
        }
    }
}

/// The latest stands at the end. While there is room the rest stays as it was; in a full list
/// one goes that is as old as any, and it alone.
pub proof fn law_latest_comes_last<T: Stamped>(s: Seq<T>, entry: T, capacity: nat)
    requires
        s.len() <= capacity,
        capacity > 0,
    ensures
        s.len() < capacity ==> with_latest(s, entry, capacity) == s.push(entry),
        s.len() == capacity ==> {
            let after = with_latest(s, entry, capacity);
            &&& after.len() == capacity
            &&& after.last() == entry
            &&& exists|o: int|
                #![trigger s[o]]
                0 <= o < s.len() && (forall|j: int|
                    0 <= j < s.len() ==> s[o].stamped_at() <= (#[trigger] s[j]).stamped_at() && (j
                        != o ==> after.contains(s[j])))
        },
{
    if s.len() == capacity {
        lemma_oldest(s);
        let o = oldest(s);
        let after = with_latest(s, entry, capacity);
        assert forall|j: int| 0 <= j < s.len() implies s[o].stamped_at() <= (
        #[trigger] s[j]).stamped_at() && (j != o ==> after.contains(s[j])) by {
            if j != o {
                let at = if j == s.len() - 1 {
                    o
                } else {
                    j
                };
                assert(after[at] == s[j]);
            }
        }
    }
}

} // verus!
