//! Collections with a fixed capacity, held by `heapless`.
//!
//! What each one holds is a sequence that verified code reasons about; the methods that reach
//! the outside collection say what they do to it.

use vstd::prelude::*;

verus! {

// ---------------------------------------------------------------------------------------
// A list.
/// The storage of a [`BoundedVec`].
#[verifier::external_body]
#[verifier::reject_recursive_types(T)]
struct VecCell<T, const N: usize> {
    items: heapless::Vec<T, N>,
}

/// A list of at most `N` items.
#[verifier::reject_recursive_types(T)]
pub struct BoundedVec<T, const N: usize> {
    cell: VecCell<T, N>,
    contents: Ghost<Seq<T>>,
}

impl<T, const N: usize> BoundedVec<T, N> {
    /// The items, first to last.
    pub closed spec fn view(&self) -> Seq<T> {
        self.contents@
    }

    /// `heapless::Vec::new`: an empty list.
    #[verifier::external_body]
    pub(crate) fn new() -> (list: Self)
        ensures
            list.view() == Seq::<T>::empty(),
    {
        BoundedVec {
            cell: VecCell { items: heapless::Vec::new() },
            contents: Ghost(Seq::empty()),
        }
    }

    /// `heapless::Vec::as_slice`: the items, of which there are never more than the capacity.
    #[verifier::external_body]
    pub(crate) fn items(&self) -> (items: &[T])
        ensures
            items@ == self.view(),
            items@.len() <= N,
    {
        self.cell.items.as_slice()
    }

    /// `heapless::Vec::push`: one more item at the end, or the item back where the list is
    /// full.
    #[verifier::external_body]
    pub(crate) fn push(&mut self, item: T) -> (result: Result<(), T>)
        ensures
            match result {
                Ok(()) => old(self).view().len() < N && final(self).view() == old(
                    self,
                ).view().push(item),
                Err(back) => old(self).view().len() >= N && back == item && final(self).view()
                    == old(self).view(),
            },
    {
        self.cell.items.push(item)
    }

    /// `heapless::Vec::swap_remove`: the item at `i` is taken out and the last takes its
    /// place.
    #[verifier::external_body]
    pub(crate) fn swap_remove(&mut self, i: usize) -> (item: T)
        requires
            i < old(self).view().len(),
        ensures
            item == old(self).view()[i as int],
            final(self).view() == old(self).view().update(
                i as int,
                old(self).view().last(),
            ).drop_last(),
    {
        self.cell.items.swap_remove(i)
    }

    /// `heapless::Vec::as_mut_slice`: the item at `i` is replaced.
    #[verifier::external_body]
    pub(crate) fn set(&mut self, i: usize, item: T)
        requires
            i < old(self).view().len(),
        ensures
            final(self).view() == old(self).view().update(i as int, item),
    {
        self.cell.items.as_mut_slice()[i] = item;
    }

    /// How many items there are.
    pub fn len(&self) -> (n: usize)
        ensures
            n == self.view().len(),
            n <= N,
    {
        self.items().len()
    }
}

impl<const N: usize> BoundedVec<u8, N> {
    /// `heapless::Vec::extend_from_slice`: the bytes at the end, or nothing at all where they
    /// do not fit.
    #[verifier::external_body]
    pub(crate) fn extend(&mut self, more: &[u8]) -> (fits: bool)
        ensures
            fits == (old(self).view().len() + more@.len() <= N),
            final(self).view() == (if fits {
                old(self).view() + more@
            } else {
                old(self).view()
            }),
    {
        self.cell.items.extend_from_slice(more).is_ok()
    }

    /// The bytes.
    pub fn as_slice(&self) -> (items: &[u8])
        ensures
            items@ == self.view(),
            items@.len() <= N,
    {
        self.items()
    }
}

// ---------------------------------------------------------------------------------------
// A queue.
/// The storage of a [`BoundedDeque`].
#[verifier::external_body]
#[verifier::reject_recursive_types(T)]
struct DequeCell<T, const N: usize> {
    items: heapless::Deque<T, N>,
}

/// A queue of at most `N` items.
#[verifier::reject_recursive_types(T)]
pub struct BoundedDeque<T, const N: usize> {
    cell: DequeCell<T, N>,
    contents: Ghost<Seq<T>>,
}

impl<T, const N: usize> BoundedDeque<T, N> {
    /// The items, front to back.
    pub closed spec fn view(&self) -> Seq<T> {
        self.contents@
    }

    /// `heapless::Deque::new`: an empty queue. A capacity of zero does not compile.
    #[verifier::external_body]
    pub(crate) fn new() -> (queue: Self)
        ensures
            queue.view() == Seq::<T>::empty(),
    {
        BoundedDeque {
            cell: DequeCell { items: heapless::Deque::new() },
            contents: Ghost(Seq::empty()),
        }
    }

    /// `heapless::Deque::len`: how many items there are, never more than the capacity.
    #[verifier::external_body]
    pub(crate) fn len(&self) -> (n: usize)
        ensures
            n == self.view().len(),
            n <= N,
    {
        self.cell.items.len()
    }

    /// `heapless::Deque::push_back`: one more item at the back, or the item back where the
    /// queue is full.
    #[verifier::external_body]
    pub(crate) fn push_back(&mut self, item: T) -> (result: Result<(), T>)
        ensures
            match result {
                Ok(()) => old(self).view().len() < N && final(self).view() == old(
                    self,
                ).view().push(item),
                Err(back) => old(self).view().len() >= N && back == item && final(self).view()
                    == old(self).view(),
            },
    {
        self.cell.items.push_back(item)
    }

    /// `heapless::Deque::pop_front`: the item at the front, if there is one.
    #[verifier::external_body]
    pub(crate) fn pop_front(&mut self) -> (item: Option<T>)
        ensures
            match item {
                Some(first) => old(self).view().len() > 0 && first == old(self).view()[0]
                    && final(self).view() == old(self).view().subrange(
                    1,
                    old(self).view().len() as int,
                ),
                None => old(self).view().len() == 0 && final(self).view() == old(self).view(),
            },
    {
        self.cell.items.pop_front()
    }
}

// ---------------------------------------------------------------------------------------
// A map.
/// The storage of a [`BoundedMap`].
#[verifier::external_body]
#[verifier::reject_recursive_types(V)]
struct MapCell<V, const N: usize> {
    rows: heapless::index_map::FnvIndexMap<u16, V, N>,
}

/// A map of at most `N` rows, which keeps them in the order they were put in. Taking one out
/// moves the last into its place.
#[verifier::reject_recursive_types(V)]
pub struct BoundedMap<V, const N: usize> {
    cell: MapCell<V, N>,
    contents: Ghost<Seq<(u16, V)>>,
}

/// Where a key stands.
pub open spec fn row_of<V>(rows: Seq<(u16, V)>, key: u16) -> Option<int>
    decreases rows.len(),
{
    if rows.len() == 0 {
        None
    } else if rows.last().0 == key {
        Some(rows.len() - 1)
    } else {
        row_of(rows.drop_last(), key)
    }
}

/// A key stands where its row is, and nowhere if no row has it.
pub proof fn lemma_row_of<V>(rows: Seq<(u16, V)>, key: u16)
    ensures
        match row_of(rows, key) {
            Some(i) => 0 <= i < rows.len() && rows[i].0 == key,
            None => forall|i: int| 0 <= i < rows.len() ==> (#[trigger] rows[i]).0 != key,
        },
    decreases rows.len(),
{
    if rows.len() > 0 && rows.last().0 != key {
        lemma_row_of(rows.drop_last(), key);
        if row_of(rows.drop_last(), key) is None {
            assert forall|i: int| 0 <= i < rows.len() implies (#[trigger] rows[i]).0 != key by {
                if i < rows.len() - 1 {
                    assert(rows.drop_last()[i].0 != key);
                }
            }
        }
    }
}

/// The rows with the one at `i` taken out: the last takes its place.
pub open spec fn without_row<V>(rows: Seq<(u16, V)>, i: int) -> Seq<(u16, V)> {
    rows.update(i, rows.last()).drop_last()
}

impl<V, const N: usize> BoundedMap<V, N> {
    /// The rows, in their order.
    pub closed spec fn view(&self) -> Seq<(u16, V)> {
        self.contents@
    }

    /// `heapless::IndexMap::new`: an empty map. A capacity that is no power of two above one
    /// does not compile.
    #[verifier::external_body]
    pub(crate) fn new() -> (map: Self)
        ensures
            map.view() == Seq::<(u16, V)>::empty(),
    {
        BoundedMap {
            cell: MapCell { rows: heapless::index_map::FnvIndexMap::new() },
            contents: Ghost(Seq::empty()),
        }
    }

    /// `heapless::IndexMap::len`: how many rows there are, never more than the capacity.
    #[verifier::external_body]
    pub(crate) fn len(&self) -> (n: usize)
        ensures
            n == self.view().len(),
            n <= N,
    {
        self.cell.rows.len()
    }

    /// `heapless::IndexMap::contains_key`: whether a key has a row.
    #[verifier::external_body]
    pub(crate) fn contains_key(&self, key: u16) -> (known: bool)
        ensures
            known == (row_of(self.view(), key) is Some),
    {
        self.cell.rows.contains_key(&key)
    }

    /// `heapless::IndexMap::get_index`: the row at `i`.
    #[verifier::external_body]
    pub(crate) fn row(&self, i: usize) -> (row: (u16, &V))
        requires
            i < self.view().len(),
        ensures
            row.0 == self.view()[i as int].0,
            *row.1 == self.view()[i as int].1,
    {
        let (key, value) = self.cell.rows.get_index(i).expect("the index was checked");
        (*key, value)
    }

    /// `heapless::IndexMap::get_index_mut`: the value of the row at `i` is replaced.
    #[verifier::external_body]
    pub(crate) fn set_value(&mut self, i: usize, value: V)
        requires
            i < old(self).view().len(),
        ensures
            final(self).view() == old(self).view().update(
                i as int,
                (old(self).view()[i as int].0, value),
            ),
    {
        let (_, slot) = self.cell.rows.get_index_mut(i).expect("the index was checked");
        *slot = value;
    }

    /// `heapless::IndexMap::insert`: a row at the end where the key has none, else its value
    /// replaced, or the row back where there is no room for it.
    #[verifier::external_body]
    pub(crate) fn insert(&mut self, key: u16, value: V) -> (result: Result<Option<V>, (u16, V)>)
        ensures
            match (result, row_of(old(self).view(), key)) {
                (Ok(before), Some(i)) => before == Some(old(self).view()[i].1)
                    && final(self).view() == old(self).view().update(i, (key, value)),
                (Ok(before), None) => before is None && old(self).view().len() < N
                    && final(self).view() == old(self).view().push((key, value)),
                (Err(back), at) => at is None && old(self).view().len() >= N && back == (
                    key,
                    value,
                ) && final(self).view() == old(self).view(),
            },
    {
        self.cell.rows.insert(key, value)
    }

    /// `heapless::IndexMap::remove`: the value of a key, taken out.
    #[verifier::external_body]
    pub(crate) fn remove(&mut self, key: u16) -> (value: Option<V>)
        ensures
            match row_of(old(self).view(), key) {
                Some(i) => value == Some(old(self).view()[i].1) && final(self).view()
                    == without_row(old(self).view(), i),
                None => value is None && final(self).view() == old(self).view(),
            },
    {
        self.cell.rows.remove(&key)
    }
}

/// Where a key stands depends on the keys alone.
pub proof fn lemma_row_by_keys<A, B>(a: Seq<(u16, A)>, b: Seq<(u16, B)>, key: u16)
    requires
        a.len() == b.len(),
        forall|i: int| 0 <= i < a.len() ==> (#[trigger] a[i]).0 == b[i].0,
    ensures
        row_of(a, key) == row_of(b, key),
    decreases a.len(),
{
    if a.len() > 0 {
        let n = a.len() - 1;
        assert(a[n].0 == b[n].0);
        assert forall|i: int| 0 <= i < n implies (#[trigger] a.drop_last()[i]).0
            == b.drop_last()[i].0 by {
            assert(a[i].0 == b[i].0);
        }
        lemma_row_by_keys(a.drop_last(), b.drop_last(), key);
    }
}

} // verus!
