use vstd::prelude::*;
use crate::container::DataContainer;
use crate::dynamic::DynArray;
use crate::element::{all_below, ints, is_block, RawMatrixElem};
use crate::layout::iota;
use crate::error::Error;

verus! {

/// Which axes of its entries an axis-coupled collection binds to its shared length.
#[derive(Clone, Copy, Debug, PartialEq, Eq, Structural)]
pub enum Axis {
    /// The number of rows.
    Row,
    /// The number of columns.
    Column,
    /// Both: entries are square.
    Both,
}

/// Whether a matrix with `nrows` rows and `ncols` columns fits length `n` along `axis`.
pub open spec fn fits(axis: Axis, n: usize, nrows: usize, ncols: usize) -> bool {
    match axis {
        Axis::Row => nrows == n,
        Axis::Column => ncols == n,
        Axis::Both => nrows == n && ncols == n,
    }
}

/// Whether `new` is `old` with the selection `idx` applied along `axis`.
pub open spec fn entry_subset(axis: Axis, idx: Seq<usize>, old: RawMatrixElem, new: RawMatrixElem) -> bool {
    match axis {
        Axis::Row => new.nrows == idx.len() && new.ncols == old.ncols && is_block(
            old.stored(),
            old.ncols as int,
            ints(idx),
            iota(old.ncols as nat),
            new.stored(),
        ),
        Axis::Column => new.ncols == idx.len() && new.nrows == old.nrows && is_block(
            old.stored(),
            old.ncols as int,
            iota(old.nrows as nat),
            ints(idx),
            new.stored(),
        ),
        Axis::Both => new.nrows == idx.len() && new.ncols == idx.len() && is_block(
            old.stored(),
            old.ncols as int,
            ints(idx),
            ints(idx),
            new.stored(),
        ),
    }
}

/// Length of a two-dimensional array along the bound axis.
pub open spec fn axis_len(axis: Axis, d: DynArray) -> usize {
    if axis == Axis::Column { d.shape_view()[1] } else { d.shape_view()[0] }
}

/// Whether every item is a two-dimensional array, square where both axes are bound.
pub open spec fn items_shaped(axis: Axis, items: Seq<(String, DynArray)>) -> bool {
    forall|i: int|
        0 <= i < items.len() ==> (#[trigger] items[i]).1.wf() && items[i].1.shape_view().len() == 2
            && (axis == Axis::Both ==> items[i].1.shape_view()[0] == items[i].1.shape_view()[1])
}

/// Whether every item has length `len` along the bound axis.
pub open spec fn items_len(axis: Axis, items: Seq<(String, DynArray)>, len: usize) -> bool {
    forall|i: int| 0 <= i < items.len() ==> axis_len(axis, (#[trigger] items[i]).1) == len
}

/// A keyed matrix of an axis-coupled collection.
#[derive(Debug)]
pub struct AxisEntry {
    pub key: String,
    pub elem: RawMatrixElem,
}

/// Matrices under distinct keys, all of one length along the bound axis.
#[derive(Debug)]
pub struct AxisArrays {
    pub axis: Axis,
    pub entries: Vec<AxisEntry>,
}

/// The keys of the entries, in order.
pub open spec fn keys_of(entries: Seq<AxisEntry>) -> Seq<Seq<char>> {
    entries.map_values(|e: AxisEntry| e.key@)
}

impl AxisArrays {
    /// Every entry is well formed and fits length `n`, and keys are distinct.
    pub open spec fn wf(&self, n: usize) -> bool {
        &&& forall|k: int|
            0 <= k < self.entries@.len() ==> (#[trigger] self.entries@[k]).elem.wf() && fits(
                self.axis,
                n,
                self.entries@[k].elem.nrows,
                self.entries@[k].elem.ncols,
            )
        &&& keys_of(self.entries@).no_duplicates()
    }

    /// An empty collection bound along `axis`.
    pub fn new(axis: Axis) -> (r: AxisArrays)
        ensures
            r.axis == axis,
            r.entries@.len() == 0,
            forall|n: usize| r.wf(n),
    {
        let r = AxisArrays { axis, entries: Vec::new() };
        assert(keys_of(r.entries@) =~= Seq::<Seq<char>>::empty());
        r
    }

    /// Number of entries.
    pub fn len(&self) -> (r: usize)
        ensures
            r == self.entries@.len(),
    {
        self.entries.len()
    }

    /// Position of the entry under `key`.
    pub fn position(&self, key: &str) -> (r: Option<usize>)
        ensures
            r matches Some(i) ==> i < self.entries@.len() && self.entries@[i as int].key@ == key@,
            r is None ==> !keys_of(self.entries@).contains(key@),
    {
        let k: String = key.to_owned();
        let mut i: usize = 0;
        while i < self.entries.len()
            invariant
                i <= self.entries@.len(),
                k@ == key@,
                forall|j: int| 0 <= j < i ==> (#[trigger] self.entries@[j]).key@ != key@,
            decreases self.entries@.len() - i,
        {
            if self.entries[i].key == k {
                return Some(i);
            }
            i = i + 1;
        }
        proof {
            if keys_of(self.entries@).contains(key@) {
                let j = choose|j: int| 0 <= j < keys_of(self.entries@).len() && keys_of(self.entries@)[j] == key@;
                assert(self.entries@[j].key@ == key@);
            }
        }
        None
    }

    /// The entry under `key`.
    pub fn get(&self, key: &str) -> (r: Option<&RawMatrixElem>)
        ensures
            r matches Some(e) ==> exists|i: int|
                0 <= i < self.entries@.len() && self.entries@[i].key@ == key@ && self.entries@[i].elem
                    == *e,
            r is None ==> !keys_of(self.entries@).contains(key@),
    {
        match self.position(key) {
            Some(i) => Some(&self.entries[i].elem),
            None => None,
        }
    }

    /// The keys, in order.
    pub fn keys(&self) -> (r: Vec<String>)
        ensures
            r@.map_values(|s: String| s@) == keys_of(self.entries@),
    {
        let mut out: Vec<String> = Vec::new();
        let mut i: usize = 0;
        while i < self.entries.len()
            invariant
                i <= self.entries@.len(),
                out@.len() == i,
                forall|j: int| 0 <= j < i ==> (#[trigger] out@[j])@ == self.entries@[j].key@,
            decreases self.entries@.len() - i,
        {
            out.push(self.entries[i].key.clone());
            i = i + 1;
        }
        assert(out@.map_values(|s: String| s@) =~= keys_of(self.entries@));
        out
    }

    /// Removes the entry under `key`; says whether there was one.
    pub fn delete(&mut self, key: &str, Ghost(n): Ghost<usize>) -> (r: bool)
        requires
            old(self).wf(n),
        ensures
            final(self).wf(n),
            final(self).axis == old(self).axis,
            r == keys_of(old(self).entries@).contains(key@),
            !keys_of(final(self).entries@).contains(key@),
            r ==> exists|i: int|
                0 <= i < old(self).entries@.len() && old(self).entries@[i].key@ == key@
                    && final(self).entries@ == old(self).entries@.remove(i),
            !r ==> *final(self) == *old(self),
    {
        match self.position(key) {
            Some(i) => {
                let ghost before = self.entries@;
                let _ = self.entries.remove(i);
                proof {
                    assert(keys_of(self.entries@) =~= keys_of(before).remove(i as int));
                    assert(keys_of(before)[i as int] == key@);
                    assert(keys_of(before).contains(key@));
                    if keys_of(self.entries@).contains(key@) {
                        let j = choose|j: int| 0 <= j < keys_of(self.entries@).len() && keys_of(self.entries@)[j] == key@;
                        if j < i {
                            assert(keys_of(before)[j] == key@);
                        } else {
                            assert(keys_of(before)[j + 1] == key@);
                        }
                    }
                    assert forall|x: int, y: int| 0 <= x < keys_of(self.entries@).len() && 0 <= y < keys_of(self.entries@).len() && x != y implies keys_of(self.entries@)[x] != keys_of(self.entries@)[y] by {
                        let x2 = if x < i { x } else { x + 1 };
                        let y2 = if y < i { y } else { y + 1 };
                        assert(keys_of(before)[x2] != keys_of(before)[y2]);
                    }
                    assert forall|k: int| 0 <= k < self.entries@.len() implies (#[trigger] self.entries@[k]).elem.wf() && fits(
                        self.axis, n, self.entries@[k].elem.nrows, self.entries@[k].elem.ncols) by {
                        let k2 = if k < i { k } else { k + 1 };
                        assert(self.entries@[k] == before[k2]);
                    }
                    assert(self.entries@ == before.remove(i as int));
                }
                true
            },
            None => false,
        }
    }

    /// Adds `data`, a two-dimensional array, under `key`, replacing a previous entry. The
    /// shared length `n` must match the entry along the bound axis, unless it is zero and
    /// nothing is bound to it yet (`bound` says whether anything outside the collection is):
    /// then the entry sets it. Returns the new shared length.
    pub fn insert(&mut self, n: usize, bound: bool, key: &str, data: &DynArray) -> (r: Result<usize, Error>)
        requires
            old(self).wf(n),
        ensures
            r matches Ok(m) ==> final(self).wf(m) && keys_of(final(self).entries@).contains(key@)
                && (m == n || (n == 0 && !bound && old(self).entries@.len() == 0)),
            r is Err ==> *final(self) == *old(self),
            final(self).axis == old(self).axis,
            r is Ok ==> exists|i: int|
                0 <= i < final(self).entries@.len() && final(self).entries@[i].key@ == key@
                    && final(self).entries@[i].elem.stored().same_as(*data)
                    && final(self).entries@[i].elem.cache is None,
            r is Ok ==> forall|j: int|
                0 <= j < old(self).entries@.len() && old(self).entries@[j].key@ != key@ ==> #[trigger] final(self).entries@[j]
                    == old(self).entries@[j],
            r is Ok ==> forall|s: Seq<char>|
                keys_of(final(self).entries@).contains(s) <==> (keys_of(old(self).entries@).contains(s)
                    || s == key@),
            !(data.wf() && data.shape_view().len() == 2) ==> r == Err::<usize, Error>(Error::ShapeMismatch),
            data.wf() && data.shape_view().len() == 2 ==> ({
                let nr = data.shape_view()[0];
                let nc = data.shape_view()[1];
                let len = if old(self).axis == Axis::Column { nc } else { nr };
                let square = old(self).axis != Axis::Both || nr == nc;
                let free = n == 0 && !bound && old(self).entries@.len() == 0;
                &&& (square && (len == n || free)) ==> r == Ok::<usize, Error>(len)
                &&& !(square && (len == n || free)) ==> r == Err::<usize, Error>(Error::AxisMismatch)
            }),
    {
        let elem = match RawMatrixElem::from_array(data) {
            Ok(e) => e,
            Err(e) => {
                return Err(e);
            },
        };
        let nr = elem.nrows;
        let nc = elem.ncols;
        let len = match self.axis {
            Axis::Column => nc,
            _ => nr,
        };
        let square = match self.axis {
            Axis::Both => nr == nc,
            _ => true,
        };
        let free = n == 0 && !bound && self.entries.len() == 0;
        if !(square && (len == n || free)) {
            return Err(Error::AxisMismatch);
        }
        let ghost before = self.entries@;
        match self.position(key) {
            Some(i) => {
                let k: String = key.to_owned();
                self.entries.set(i, AxisEntry { key: k, elem });
                proof {
                    assert(keys_of(self.entries@) =~= keys_of(before).update(i as int, key@));
                    assert(keys_of(before)[i as int] == key@);
                    assert(keys_of(self.entries@) =~= keys_of(before));
                    assert(keys_of(self.entries@)[i as int] == key@);
                    assert(keys_of(before).contains(key@));
                }
            },
            None => {
                let k: String = key.to_owned();
                self.entries.push(AxisEntry { key: k, elem });
                proof {
                    assert(keys_of(self.entries@) =~= keys_of(before).push(key@));
                    assert(keys_of(self.entries@)[before.len() as int] == key@);
                    assert forall|t: Seq<char>| keys_of(self.entries@).contains(t) <==> (keys_of(before).contains(t)
                        || t == key@) by {
                        if keys_of(self.entries@).contains(t) && t != key@ {
                            let j = choose|j: int| 0 <= j < keys_of(self.entries@).len() && keys_of(self.entries@)[j] == t;
                            assert(keys_of(before)[j] == t);
                        }
                        if keys_of(before).contains(t) {
                            let j = choose|j: int| 0 <= j < keys_of(before).len() && keys_of(before)[j] == t;
                            assert(keys_of(self.entries@)[j] == t);
                        }
                    }
                    assert forall|x: int, y: int| 0 <= x < keys_of(self.entries@).len() && 0 <= y < keys_of(self.entries@).len() && x != y implies keys_of(self.entries@)[x] != keys_of(self.entries@)[y] by {
                        if x < before.len() && y < before.len() {
                            assert(keys_of(before)[x] != keys_of(before)[y]);
                        } else if x < before.len() {
                            assert(keys_of(before).contains(keys_of(before)[x]));
                        } else {
                            assert(keys_of(before).contains(keys_of(before)[y]));
                        }
                    }
                }
            },
        }
        Ok(len)
    }

    /// Replaces every entry with `items`, added in order. All must be two-dimensional (square
    /// where both axes are bound) and share one length along the bound axis; the shared length
    /// `n` must be it, unless `n` is zero and nothing outside the collection is bound. Returns the
    /// new shared length, `n` itself when `items` is empty.
    pub fn replace_all(&mut self, n: usize, bound: bool, items: &Vec<(String, DynArray)>) -> (r: Result<usize, Error>)
        requires
            old(self).wf(n),
        ensures
            final(self).axis == old(self).axis,
            r is Err ==> *final(self) == *old(self),
            !items_shaped(old(self).axis, items@) ==> r == Err::<usize, Error>(Error::ShapeMismatch),
            items_shaped(old(self).axis, items@) && items@.len() == 0 ==> r == Ok::<usize, Error>(n),
            items_shaped(old(self).axis, items@) && items@.len() > 0 ==> ({
                let len = axis_len(old(self).axis, items@[0].1);
                let fine = items_len(old(self).axis, items@, len) && (len == n || (n == 0 && !bound));
                &&& fine ==> r == Ok::<usize, Error>(len)
                &&& !fine ==> r == Err::<usize, Error>(Error::AxisMismatch)
            }),
            r matches Ok(m) ==> final(self).wf(m) && forall|t: Seq<char>|
                keys_of(final(self).entries@).contains(t) <==> (exists|i: int|
                    0 <= i < items@.len() && (#[trigger] items@[i]).0@ == t),
    {
        let mut i: usize = 0;
        while i < items.len()
            invariant
                i <= items@.len(),
                *self == *old(self),
                forall|j: int| 0 <= j < i ==> (#[trigger] items@[j]).1.wf() && items@[j].1.shape_view().len() == 2
                    && (self.axis == Axis::Both ==> items@[j].1.shape_view()[0] == items@[j].1.shape_view()[1]),
            decreases items@.len() - i,
        {
            let d = &items[i].1;
            if !d.is_wf() || d.ndim() != 2 {
                return Err(Error::ShapeMismatch);
            }
            let sh = d.shape();
            if self.axis == Axis::Both && sh[0] != sh[1] {
                return Err(Error::ShapeMismatch);
            }
            i = i + 1;
        }
        if items.len() == 0 {
            self.entries = Vec::new();
            assert(keys_of(self.entries@) =~= Seq::<Seq<char>>::empty());
            return Ok(n);
        }
        let first = items[0].1.shape();
        let len = if self.axis == Axis::Column { first[1] } else { first[0] };
        let mut k: usize = 0;
        while k < items.len()
            invariant
                k <= items@.len(),
                *self == *old(self),
                items@.len() > 0,
                len == axis_len(self.axis, items@[0].1),
                forall|j: int| 0 <= j < k ==> axis_len(self.axis, (#[trigger] items@[j]).1) == len,
                items_shaped(self.axis, items@),
            decreases items@.len() - k,
        {
            let sh = items[k].1.shape();
            let l = if self.axis == Axis::Column { sh[1] } else { sh[0] };
            if l != len {
                return Err(Error::AxisMismatch);
            }
            k = k + 1;
        }
        if !(len == n || (n == 0 && !bound)) {
            return Err(Error::AxisMismatch);
        }
        let mut fresh = AxisArrays::new(self.axis);
        let mut t: usize = 0;
        while t < items.len()
            invariant
                t <= items@.len(),
                *self == *old(self),
                items@.len() > 0,
                fresh.axis == self.axis,
                fresh.wf(len),
                t == 0 ==> fresh.entries@.len() == 0,
                items_shaped(self.axis, items@),
                items_len(self.axis, items@, len),
                forall|u: Seq<char>|
                    keys_of(fresh.entries@).contains(u) <==> (exists|j: int| 0 <= j < t && (#[trigger] items@[j]).0@ == u),
            decreases items@.len() - t,
        {
            let ghost before = fresh;
            let res = fresh.insert(len, true, items[t].0.as_str(), &items[t].1);
            assert(axis_len(self.axis, items@[t as int].1) == len);
            match res {
                Ok(_) => {},
                Err(_) => {
                    return vstd::pervasive::unreached();
                },
            }
            proof {
                assert forall|u: Seq<char>|
                    keys_of(fresh.entries@).contains(u) <==> (exists|j: int| 0 <= j < t + 1 && (#[trigger] items@[j]).0@ == u) by {
                    if keys_of(fresh.entries@).contains(u) && !keys_of(before.entries@).contains(u) {
                        assert(items@[t as int].0@ == u);
                    }
                    if exists|j: int| 0 <= j < t + 1 && (#[trigger] items@[j]).0@ == u {
                        let j = choose|j: int| 0 <= j < t + 1 && (#[trigger] items@[j]).0@ == u;
                        if j < t {
                            assert(keys_of(before.entries@).contains(u));
                        }
                    }
                }
            }
            t = t + 1;
        }
        self.entries = fresh.entries;
        Ok(len)
    }

    /// Applies the selection `idx` to the bound axis of every entry: rows, columns, or both.
    pub fn subset(&mut self, idx: &Vec<usize>, Ghost(n): Ghost<usize>) -> (r: Result<(), Error>)
        requires
            old(self).wf(n),
        ensures
            !all_below(idx@, n) && old(self).entries@.len() > 0 ==> r == Err::<(), Error>(Error::Bounds),
            r is Err ==> *final(self) == *old(self),
            (all_below(idx@, n) || old(self).entries@.len() == 0) ==> r is Ok,
            r is Ok ==> final(self).wf(idx@.len() as usize) && keys_of(final(self).entries@) == keys_of(old(self).entries@),
            r is Ok ==> final(self).entries@.len() == old(self).entries@.len() && forall|k: int|
                0 <= k < old(self).entries@.len() ==> entry_subset(
                    old(self).axis,
                    idx@,
                    #[trigger] old(self).entries@[k].elem,
                    final(self).entries@[k].elem,
                ),
            final(self).axis == old(self).axis,
    {
        let count = idx.len();
        assert(count == idx@.len());
        if self.entries.len() > 0 {
            let mut j: usize = 0;
            assert(self.entries@[0].elem.wf() && fits(self.axis, n, self.entries@[0].elem.nrows, self.entries@[0].elem.ncols));
            let first_n = match self.axis {
                Axis::Column => self.entries[0].elem.ncols,
                _ => self.entries[0].elem.nrows,
            };
            while j < idx.len()
                invariant
                    j <= idx@.len(),
                    first_n == n,
                    self.entries@.len() > 0,
                    *self == *old(self),
                    forall|t: int| 0 <= t < j ==> #[trigger] idx@[t] < n,
                decreases idx@.len() - j,
            {
                if idx[j] >= first_n {
                    assert(!(idx@[j as int] < n));
                    assert(!all_below(idx@, n));
                    return Err(Error::Bounds);
                }
                j = j + 1;
            }
        }
        let ghost before = self.entries@;
        let mut entries: Vec<AxisEntry> = Vec::new();
        let mut rest: Vec<AxisEntry> = Vec::new();
        core::mem::swap(&mut rest, &mut self.entries);
        let total = rest.len();
        let mut i: usize = 0;
        while i < total
            invariant
                i <= total,
                count == idx@.len(),
                total == before.len(),
                rest@ == before.skip(i as int),
                entries@.len() == i,
                before.len() > 0 ==> all_below(idx@, n),
                forall|k: int| 0 <= k < before.len() ==> (#[trigger] before[k]).elem.wf() && fits(self.axis, n, before[k].elem.nrows, before[k].elem.ncols),
                forall|k: int| 0 <= k < i ==> (#[trigger] entries@[k]).key@ == before[k].key@ && entries@[k].elem.wf() && fits(self.axis, count, entries@[k].elem.nrows, entries@[k].elem.ncols),
                forall|k: int| 0 <= k < i ==> entry_subset(self.axis, idx@, before[k].elem, (#[trigger] entries@[k]).elem),
            decreases total - i,
        {
            let mut e = rest.remove(0);
            assert(e == before[i as int]);
            assert(rest@ =~= before.skip(i + 1));
            match self.axis {
                Axis::Row => {
                    if e.elem.subset_rows(idx).is_err() {
                        return vstd::pervasive::unreached();
                    }
                    assert(e.elem.nrows == count);
                },
                Axis::Column => {
                    if e.elem.subset_cols(idx).is_err() {
                        return vstd::pervasive::unreached();
                    }
                    assert(e.elem.ncols == count);
                },
                Axis::Both => {
                    if e.elem.subset(idx, idx).is_err() {
                        return vstd::pervasive::unreached();
                    }
                    assert(e.elem.nrows == count && e.elem.ncols == count);
                },
            }
            assert(e.key@ == before[i as int].key@);
            assert(e.elem.wf());
            assert(fits(self.axis, count, e.elem.nrows, e.elem.ncols));
            assert(entry_subset(self.axis, idx@, before[i as int].elem, e.elem));
            entries.push(e);
            i = i + 1;
        }
        self.entries = entries;
        proof {
            assert(keys_of(self.entries@) =~= keys_of(before));
        }
        Ok(())
    }
}

/// Whether some entry is under `key`.
pub open spec fn has_key(entries: Seq<ElemEntry>, key: Seq<char>) -> bool {
    exists|j: int| 0 <= j < entries.len() && (#[trigger] entries[j]).key@ == key
}

/// A named stored entity of a free-form collection.
#[derive(Debug)]
pub struct ElemEntry {
    pub key: String,
    pub container: DataContainer,
}

/// Stored entities under keys, with no axis bound.
#[derive(Debug)]
pub struct ElemCollection {
    pub entries: Vec<ElemEntry>,
}

impl ElemCollection {
    pub fn new() -> (r: ElemCollection)
        ensures
            r.entries@.len() == 0,
    {
        ElemCollection { entries: Vec::new() }
    }

    /// Position of the entry under `key`.
    pub fn position(&self, key: &str) -> (r: Option<usize>)
        ensures
            r matches Some(i) ==> i < self.entries@.len() && self.entries@[i as int].key@ == key@,
            r is None ==> forall|j: int| 0 <= j < self.entries@.len() ==> (#[trigger] self.entries@[j]).key@ != key@,
    {
        let k: String = key.to_owned();
        let mut i: usize = 0;
        while i < self.entries.len()
            invariant
                i <= self.entries@.len(),
                k@ == key@,
                forall|j: int| 0 <= j < i ==> (#[trigger] self.entries@[j]).key@ != key@,
            decreases self.entries@.len() - i,
        {
            if self.entries[i].key == k {
                return Some(i);
            }
            i = i + 1;
        }
        None
    }

    /// Stores `container` under `key`, replacing a previous entry.
    pub fn insert(&mut self, key: &str, container: DataContainer) -> (r: usize)
        ensures
            r < final(self).entries@.len() && final(self).entries@[r as int].key@ == key@
                && final(self).entries@[r as int].container == container,
            forall|j: int|
                0 <= j < old(self).entries@.len() && old(self).entries@[j].key@ != key@
                    ==> #[trigger] final(self).entries@[j] == old(self).entries@[j],
            forall|u: Seq<char>|
                has_key(final(self).entries@, u) <==> (has_key(old(self).entries@, u) || u == key@),
    {
        let ghost before = self.entries@;
        let k: String = key.to_owned();
        match self.position(key) {
            Some(i) => {
                self.entries.set(i, ElemEntry { key: k, container });
                assert(self.entries@[i as int].key@ == key@);
                proof {
                    assert forall|u: Seq<char>|
                        has_key(self.entries@, u) <==> (has_key(before, u) || u == key@) by {
                        if has_key(self.entries@, u) {
                            let j = choose|j: int| 0 <= j < self.entries@.len() && (#[trigger] self.entries@[j]).key@ == u;
                            if j != i {
                                assert(before[j] == self.entries@[j]);
                            }
                        }
                        if has_key(before, u) {
                            let j = choose|j: int| 0 <= j < before.len() && (#[trigger] before[j]).key@ == u;
                            if j != i {
                                assert(before[j] == self.entries@[j]);
                            } else {
                                assert(self.entries@[i as int].key@ == u);
                            }
                        }
                        if u == key@ {
                            assert(self.entries@[i as int].key@ == u);
                        }
                    }
                }
                i
            },
            None => {
                let n = self.entries.len();
                self.entries.push(ElemEntry { key: k, container });
                assert(self.entries@[n as int].key@ == key@);
                proof {
                    assert forall|u: Seq<char>|
                        has_key(self.entries@, u) <==> (has_key(before, u) || u == key@) by {
                        if has_key(self.entries@, u) {
                            let j = choose|j: int| 0 <= j < self.entries@.len() && (#[trigger] self.entries@[j]).key@ == u;
                            if j < n {
                                assert(before[j] == self.entries@[j]);
                            }
                        }
                        if has_key(before, u) {
                            let j = choose|j: int| 0 <= j < before.len() && (#[trigger] before[j]).key@ == u;
                            assert(before[j] == self.entries@[j]);
                        }
                        if u == key@ {
                            assert(self.entries@[n as int].key@ == u);
                        }
                    }
                }
                n
            },
        }
    }

    /// The entity under `key`.
    pub fn get(&self, key: &str) -> (r: Option<&DataContainer>)
        ensures
            r matches Some(c) ==> exists|i: int| 0 <= i < self.entries@.len() && self.entries@[i].key@ == key@ && self.entries@[i].container == *c,
            r is None ==> forall|j: int| 0 <= j < self.entries@.len() ==> (#[trigger] self.entries@[j]).key@ != key@,
    {
        match self.position(key) {
            Some(i) => Some(&self.entries[i].container),
            None => None,
        }
    }
}

} // verus!
