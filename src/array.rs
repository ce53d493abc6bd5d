use vstd::prelude::*;
use crate::error::Error;
use crate::layout::{flat_positions, int_lists, iota, lemma_positions_distinct, lemma_positions_full, lemma_positions_len, lemma_positions_within, positions};
use crate::selection::{lemma_out_shape_size, out_shape_of, range_len, step_abs, SelectInfo, SelectInfoElem};
use crate::shape::{lemma_prod_push, prod, shape_size};

verus! {

/// An element type that arrays can hold: a copy of a value is equal to it.
pub trait Element: Sized {
    fn duplicate(&self) -> (r: Self)
        ensures
            r == *self,
    ;

    /// Whether two values are equal as values: equal numbers, or strings of the same characters.
    spec fn same_value(a: Self, b: Self) -> bool;

    fn equals(&self, other: &Self) -> (r: bool)
        ensures
            r == Self::same_value(*self, *other),
    ;
}

impl Element for i8 {
    fn duplicate(&self) -> (r: Self) {
        *self
    }

    open spec fn same_value(a: Self, b: Self) -> bool {
        a == b
    }

    fn equals(&self, other: &Self) -> (r: bool) {
        *self == *other
    }
}

impl Element for i16 {
    fn duplicate(&self) -> (r: Self) {
        *self
    }

    open spec fn same_value(a: Self, b: Self) -> bool {
        a == b
    }

    fn equals(&self, other: &Self) -> (r: bool) {
        *self == *other
    }
}

impl Element for i32 {
    fn duplicate(&self) -> (r: Self) {
        *self
    }

    open spec fn same_value(a: Self, b: Self) -> bool {
        a == b
    }

    fn equals(&self, other: &Self) -> (r: bool) {
        *self == *other
    }
}

impl Element for i64 {
    fn duplicate(&self) -> (r: Self) {
        *self
    }

    open spec fn same_value(a: Self, b: Self) -> bool {
        a == b
    }

    fn equals(&self, other: &Self) -> (r: bool) {
        *self == *other
    }
}

impl Element for u8 {
    fn duplicate(&self) -> (r: Self) {
        *self
    }

    open spec fn same_value(a: Self, b: Self) -> bool {
        a == b
    }

    fn equals(&self, other: &Self) -> (r: bool) {
        *self == *other
    }
}

impl Element for u16 {
    fn duplicate(&self) -> (r: Self) {
        *self
    }

    open spec fn same_value(a: Self, b: Self) -> bool {
        a == b
    }

    fn equals(&self, other: &Self) -> (r: bool) {
        *self == *other
    }
}

impl Element for u32 {
    fn duplicate(&self) -> (r: Self) {
        *self
    }

    open spec fn same_value(a: Self, b: Self) -> bool {
        a == b
    }

    fn equals(&self, other: &Self) -> (r: bool) {
        *self == *other
    }
}

impl Element for u64 {
    fn duplicate(&self) -> (r: Self) {
        *self
    }

    open spec fn same_value(a: Self, b: Self) -> bool {
        a == b
    }

    fn equals(&self, other: &Self) -> (r: bool) {
        *self == *other
    }
}

impl Element for bool {
    fn duplicate(&self) -> (r: Self) {
        *self
    }

    open spec fn same_value(a: Self, b: Self) -> bool {
        a == b
    }

    fn equals(&self, other: &Self) -> (r: bool) {
        *self == *other
    }
}

impl Element for String {
    fn duplicate(&self) -> (r: Self) {
        self.clone()
    }

    open spec fn same_value(a: Self, b: Self) -> bool {
        a@ == b@
    }

    fn equals(&self, other: &Self) -> (r: bool) {
        *self == *other
    }
}

/// The elements of `data` at the positions `pos`, in order.
pub open spec fn picked<T>(data: Seq<T>, pos: Seq<int>) -> Seq<T> {
    pos.map_values(|p: int| data[p])
}

/// `data` after writing `vals[k]` at position `pos[k]`, for each `k` in order.
pub open spec fn scatter<T>(data: Seq<T>, pos: Seq<int>, vals: Seq<T>) -> Seq<T>
    decreases pos.len(),
{
    if pos.len() == 0 {
        data
    } else {
        scatter(data, pos.drop_last(), vals).update(pos.last(), vals[pos.len() - 1])
    }
}

/// Copies the elements of `data` at the positions `pos`.
pub fn gather<T: Element>(data: &Vec<T>, pos: &Vec<usize>) -> (r: Vec<T>)
    requires
        forall|k: int| 0 <= k < pos@.len() ==> #[trigger] pos@[k] < data@.len(),
    ensures
        r@ == picked(data@, pos@.map_values(|x: usize| x as int)),
{
    let mut out: Vec<T> = Vec::new();
    let mut k: usize = 0;
    while k < pos.len()
        invariant
            k <= pos@.len(),
            forall|j: int| 0 <= j < pos@.len() ==> #[trigger] pos@[j] < data@.len(),
            out@ =~= picked(data@, pos@.map_values(|x: usize| x as int)).take(k as int),
        decreases pos@.len() - k,
    {
        let v = data[pos[k]].duplicate();
        out.push(v);
        k = k + 1;
    }
    assert(picked(data@, pos@.map_values(|x: usize| x as int)).take(k as int) =~= picked(
        data@,
        pos@.map_values(|x: usize| x as int),
    ));
    out
}

/// Row-major offset of the multi-index `idx` in an array of shape `shape`.
pub open spec fn offset(shape: Seq<usize>, idx: Seq<usize>) -> int
    decreases shape.len(),
{
    if shape.len() == 0 || idx.len() == 0 {
        0
    } else {
        offset(shape.drop_last(), idx.drop_last()) * shape.last() + idx.last()
    }
}

/// Every entry of `idx` is below the length of its axis.
pub open spec fn index_within(shape: Seq<usize>, idx: Seq<usize>) -> bool {
    idx.len() == shape.len() && forall|a: int| 0 <= a < shape.len() ==> #[trigger] idx[a] < shape[a]
}

pub proof fn lemma_offset_below(shape: Seq<usize>, idx: Seq<usize>)
    requires
        index_within(shape, idx),
    ensures
        0 <= offset(shape, idx) < prod(shape),
    decreases shape.len(),
{
    if shape.len() == 0 {
        assert(prod(shape) == 1);
    } else {
        let n = shape.len() - 1;
        let sd = shape.drop_last();
        let id = idx.drop_last();
        assert(index_within(sd, id)) by {
            assert forall|a: int| 0 <= a < sd.len() implies #[trigger] id[a] < sd[a] by {
                assert(idx[a] < shape[a]);
            }
        }
        lemma_offset_below(sd, id);
        assert(idx[n] < shape[n]);
        lemma_prod_push(sd, shape[n]);
        assert(sd.push(shape[n]) =~= shape);
        let o = offset(sd, id);
        assert(0 <= o * shape[n] + idx[n] < prod(sd) * shape[n]) by (nonlinear_arith)
            requires
                0 <= o < prod(sd),
                0 <= idx[n] < shape[n],
        ;
    }
}

/// Rows stacked by `vstack`: the sum of the first dimensions.
pub open spec fn rows_total<T>(arrs: Seq<NdArray<T>>) -> int
    decreases arrs.len(),
{
    if arrs.len() == 0 {
        0
    } else {
        rows_total(arrs.drop_last()) + arrs.last().shape@[0]
    }
}

/// The elements of all arrays, one array after the other.
pub open spec fn data_concat<T>(arrs: Seq<NdArray<T>>) -> Seq<T>
    decreases arrs.len(),
{
    if arrs.len() == 0 {
        Seq::empty()
    } else {
        data_concat(arrs.drop_last()) + arrs.last().data@
    }
}

/// The arrays can be stacked along their first axis: there is at least one, each has an axis,
/// and all agree on the remaining axes.
pub open spec fn stackable<T>(arrs: Seq<NdArray<T>>) -> bool {
    &&& arrs.len() > 0
    &&& forall|i: int|
        0 <= i < arrs.len() ==> (#[trigger] arrs[i]).shape@.len() >= 1 && arrs[i].shape@.drop_first()
            == arrs[0].shape@.drop_first()
}

/// Whether two shapes have at least one axis each and agree past the first.
pub fn same_trailing(a: &Vec<usize>, b: &Vec<usize>) -> (r: bool)
    ensures
        r == (a@.len() >= 1 && b@.len() >= 1 && a@.drop_first() == b@.drop_first()),
{
    if a.len() == 0 || b.len() == 0 || a.len() != b.len() {
        assert(a@.len() >= 1 && b@.len() >= 1 ==> a@.drop_first().len() != b@.drop_first().len());
        return false;
    }
    let mut i: usize = 1;
    while i < a.len()
        invariant
            1 <= i <= a@.len(),
            a@.len() == b@.len(),
            forall|j: int| 1 <= j < i ==> a@[j] == b@[j],
        decreases a@.len() - i,
    {
        if a[i] != b[i] {
            assert(a@.drop_first()[i - 1] != b@.drop_first()[i - 1]);
            return false;
        }
        i = i + 1;
    }
    assert(a@.drop_first() =~= b@.drop_first());
    true
}

proof fn lemma_stack_size<T: Element>(arrs: Seq<NdArray<T>>, tail: Seq<usize>)
    requires
        forall|i: int|
            0 <= i < arrs.len() ==> (#[trigger] arrs[i]).wf() && arrs[i].shape@.len() >= 1
                && arrs[i].shape@.drop_first() == tail,
    ensures
        data_concat(arrs).len() == rows_total(arrs) * prod(tail),
        rows_total(arrs) >= 0,
    decreases arrs.len(),
{
    if arrs.len() > 0 {
        let last = arrs.last();
        assert(arrs.drop_last().len() == arrs.len() - 1);
        assert forall|i: int| 0 <= i < arrs.drop_last().len() implies (#[trigger] arrs.drop_last()[i]).wf()
            && arrs.drop_last()[i].shape@.len() >= 1 && arrs.drop_last()[i].shape@.drop_first()
            == tail by {
            assert(arrs.drop_last()[i] == arrs[i]);
        }
        lemma_stack_size(arrs.drop_last(), tail);
        assert(last == arrs[arrs.len() - 1]);
        assert(prod(last.shape@) == last.shape@[0] * prod(tail));
        let r = rows_total(arrs.drop_last());
        assert(r * prod(tail) + last.shape@[0] * prod(tail) == (r + last.shape@[0]) * prod(tail))
            by (nonlinear_arith);
    }
}

/// An N-dimensional array: its shape and its elements in row-major order.
#[derive(Clone, Debug, PartialEq, Eq)]
pub struct NdArray<T> {
    pub shape: Vec<usize>,
    pub data: Vec<T>,
}

/// Copies every element of `v`.
pub fn duplicate_vec<T: Element>(v: &Vec<T>) -> (r: Vec<T>)
    ensures
        r@ == v@,
{
    let mut out: Vec<T> = Vec::new();
    let mut i: usize = 0;
    while i < v.len()
        invariant
            i <= v@.len(),
            out@ == v@.take(i as int),
        decreases v@.len() - i,
    {
        out.push(v[i].duplicate());
        assert(v@.take(i + 1) =~= v@.take(i as int).push(v@[i as int]));
        i = i + 1;
    }
    assert(v@.take(i as int) =~= v@);
    out
}

impl<T: Element> NdArray<T> {
    /// The elements fill the shape exactly.
    pub open spec fn wf(&self) -> bool {
        self.data@.len() == prod(self.shape@)
    }

    /// Builds an array from a shape and its elements in row-major order.
    pub fn from_shape_vec(shape: Vec<usize>, data: Vec<T>) -> (r: Result<NdArray<T>, Error>)
        ensures
            data@.len() == prod(shape@) ==> (r matches Ok(a) && a.shape@ == shape@ && a.data@
                == data@),
            data@.len() != prod(shape@) ==> r == Err::<NdArray<T>, Error>(Error::ShapeMismatch),
    {
        let count = data.len();
        match shape_size(&shape) {
            Some(n) => {
                if n == count {
                    Ok(NdArray { shape, data })
                } else {
                    Err(Error::ShapeMismatch)
                }
            },
            None => Err(Error::ShapeMismatch),
        }
    }

    /// Whether both arrays have the same shape and elements.
    pub open spec fn same(&self, other: NdArray<T>) -> bool {
        self.shape@ == other.shape@ && self.data@ == other.data@
    }

    /// Checks that the elements fill the shape exactly.
    pub fn is_wf(&self) -> (r: bool)
        ensures
            r == self.wf(),
    {
        let n = self.data.len();
        match shape_size(&self.shape) {
            Some(m) => m == n,
            None => false,
        }
    }

    /// A copy of the array.
    pub fn copy(&self) -> (r: NdArray<T>)
        ensures
            r.same(*self),
    {
        NdArray { shape: duplicate_vec(&self.shape), data: duplicate_vec(&self.data) }
    }

    /// Number of axes.
    pub fn ndim(&self) -> (r: usize)
        ensures
            r == self.shape@.len(),
    {
        self.shape.len()
    }

    /// Number of elements.
    pub fn len(&self) -> (r: usize)
        ensures
            r == self.data@.len(),
    {
        self.data.len()
    }

    /// The element at the multi-index `index`, if it lies inside the array.
    pub fn get(&self, index: &Vec<usize>) -> (r: Option<T>)
        requires
            self.wf(),
        ensures
            index_within(self.shape@, index@) ==> r == Some(self.data@[offset(self.shape@, index@)]),
            !index_within(self.shape@, index@) ==> r is None,
    {
        let n = self.shape.len();
        if index.len() != n {
            return None;
        }
        let total = self.data.len();
        let mut c: usize = 0;
        while c < n
            invariant
                c <= n,
                n == self.shape@.len(),
                index@.len() == n,
                forall|b: int| 0 <= b < c ==> #[trigger] index@[b] < self.shape@[b],
            decreases n - c,
        {
            if index[c] >= self.shape[c] {
                assert(!(index@[c as int] < self.shape@[c as int]));
                return None;
            }
            c = c + 1;
        }
        let mut off: usize = 0;
        let mut a: usize = 0;
        assert(prod(self.shape@.take(0)) == 1);
        proof {
            lemma_prod_take_le(self.shape@, 0);
        }
        while a < n
            invariant
                a <= n,
                n == self.shape@.len(),
                index@.len() == n,
                total == self.data@.len(),
                self.wf(),
                forall|b: int| 0 <= b < n ==> #[trigger] index@[b] < self.shape@[b],
                off == offset(self.shape@.take(a as int), index@.take(a as int)),
                off < prod(self.shape@.take(a as int)),
            decreases n - a,
        {
            let ghost st = self.shape@.take(a as int);
            let ghost st1 = self.shape@.take(a + 1);
            proof {
                assert(st1.drop_last() =~= st);
                assert(index@.take(a + 1).drop_last() =~= index@.take(a as int));
                lemma_prod_push(st, self.shape@[a as int]);
                assert(st.push(self.shape@[a as int]) =~= st1);
                let d = self.shape@[a as int];
                assert(off * d + index@[a as int] < prod(st) * d) by (nonlinear_arith)
                    requires
                        off < prod(st),
                        index@[a as int] < d,
                ;
                lemma_prod_take_le(self.shape@, a + 1);
                if prod(st1) > prod(self.shape@) {
                    let b = choose|b: int| a + 1 <= b < n && self.shape@[b] == 0;
                    assert(index@[b] < self.shape@[b]);
                }
            }
            off = off * self.shape[a] + index[a];
            a = a + 1;
        }
        assert(self.shape@.take(n as int) =~= self.shape@);
        assert(index@.take(n as int) =~= index@);
        Some(self.data[off].duplicate())
    }

    /// Stacks arrays along their first axis.
    pub fn vstack(arrs: &Vec<NdArray<T>>) -> (r: Result<NdArray<T>, Error>)
        requires
            forall|i: int| 0 <= i < arrs@.len() ==> (#[trigger] arrs@[i]).wf(),
        ensures
            !stackable(arrs@) ==> r == Err::<NdArray<T>, Error>(Error::ShapeMismatch),
            stackable(arrs@) && rows_total(arrs@) <= usize::MAX && data_concat(arrs@).len()
                <= usize::MAX ==> (r matches Ok(a) && a.wf() && a.shape@ == seq![
                rows_total(arrs@) as usize,
            ] + arrs@[0].shape@.drop_first() && a.data@ == data_concat(arrs@)),
            stackable(arrs@) && (rows_total(arrs@) > usize::MAX || data_concat(arrs@).len()
                > usize::MAX) ==> r == Err::<NdArray<T>, Error>(Error::ShapeMismatch),
    {
        if arrs.len() == 0 {
            return Err(Error::ShapeMismatch);
        }
        let mut i: usize = 0;
        while i < arrs.len()
            invariant
                i <= arrs@.len(),
                arrs@.len() > 0,
                forall|j: int|
                    0 <= j < i ==> (#[trigger] arrs@[j]).shape@.len() >= 1 && arrs@[j].shape@.drop_first()
                        == arrs@[0].shape@.drop_first(),
            decreases arrs@.len() - i,
        {
            if !same_trailing(&arrs[i].shape, &arrs[0].shape) {
                return Err(Error::ShapeMismatch);
            }
            i = i + 1;
        }
        let mut rows: usize = 0;
        let mut data: Vec<T> = Vec::new();
        let mut k: usize = 0;
        while k < arrs.len()
            invariant
                k <= arrs@.len(),
                stackable(arrs@),
                forall|i: int| 0 <= i < arrs@.len() ==> (#[trigger] arrs@[i]).wf(),
                rows == rows_total(arrs@.take(k as int)),
                data@ == data_concat(arrs@.take(k as int)),
            decreases arrs@.len() - k,
        {
            let ghost tk = arrs@.take(k as int);
            let ghost tk1 = arrs@.take(k + 1);
            assert(tk1.drop_last() =~= tk);
            let a = &arrs[k];
            assert(tk1.last() == arrs@[k as int]);
            let d0 = a.shape[0];
            rows = match rows.checked_add(d0) {
                Some(v) => v,
                None => {
                    proof {
                        lemma_rows_total_prefix(arrs@, k + 1);
                    }
                    return Err(Error::ShapeMismatch);
                },
            };
            let m = a.data.len();
            let mut j: usize = 0;
            let ghost before = data@;
            while j < m
                invariant
                    j <= m,
                    k < arrs@.len(),
                    m == a.data@.len(),
                    *a == arrs@[k as int],
                    tk1 == arrs@.take(k + 1),
                    tk1.drop_last() == tk,
                    tk1.last() == arrs@[k as int],
                    before == data_concat(tk),
                    data@ == before + a.data@.take(j as int),
                decreases m - j,
            {
                if data.len() == usize::MAX {
                    proof {
                        assert(data@.len() == before.len() + j);
                        lemma_concat_prefix(arrs@, k + 1);
                        assert(data_concat(tk1) == before + a.data@);
                    }
                    return Err(Error::ShapeMismatch);
                }
                data.push(a.data[j].duplicate());
                assert(a.data@.take(j + 1) =~= a.data@.take(j as int).push(a.data@[j as int]));
                j = j + 1;
            }
            assert(a.data@.take(m as int) =~= a.data@);
            k = k + 1;
        }
        assert(arrs@.take(k as int) =~= arrs@);
        let total_len = data.len();
        assert(total_len == data_concat(arrs@).len());
        let ghost tail = arrs@[0].shape@.drop_first();
        proof {
            lemma_stack_size(arrs@, tail);
        }
        let mut shape: Vec<usize> = Vec::new();
        shape.push(rows);
        let mut b: usize = 1;
        let first = &arrs[0].shape;
        while b < first.len()
            invariant
                1 <= b <= first@.len(),
                first@.len() >= 1,
                shape@ == seq![rows] + first@.subrange(1, b as int),
            decreases first@.len() - b,
        {
            shape.push(first[b]);
            assert(first@.subrange(1, b + 1) =~= first@.subrange(1, b as int).push(first@[b as int]));
            b = b + 1;
        }
        assert(first@.subrange(1, b as int) =~= tail);
        assert((seq![rows] + tail).drop_first() =~= tail);
        Ok(NdArray { shape, data })
    }

    /// The part of the array that `info` selects.
    pub fn select(&self, info: &SelectInfo) -> (r: Result<NdArray<T>, Error>)
        requires
            self.wf(),
        ensures
            info.elems@.len() != self.shape@.len() ==> r == Err::<NdArray<T>, Error>(
                Error::ShapeMismatch,
            ),
            info.elems@.len() == self.shape@.len() && !info.valid_for(self.shape@) ==> r == Err::<
                NdArray<T>,
                Error,
            >(Error::Bounds),
            info.valid_for(self.shape@) ==> (r matches Ok(a) && a.wf() && a.shape@
                == info.out_shape(self.shape@) && a.data@ == picked(
                self.data@,
                positions(self.shape@, info.index_lists(self.shape@)),
            )),
    {
        let lists = match info.resolve(&self.shape) {
            Ok(l) => l,
            Err(e) => {
                return Err(e);
            },
        };
        let ghost ls = int_lists(lists@);
        let pos = flat_positions(&self.shape, &lists, self.data.len());
        proof {
            lemma_positions_within(self.shape@, ls);
            assert forall|k: int| 0 <= k < pos@.len() implies #[trigger] pos@[k] < self.data@.len() by {
                assert(pos@.map_values(|x: usize| x as int)[k] == pos@[k] as int);
            }
            lemma_positions_len(self.shape@, ls);
            assert forall|a: int| 0 <= a < info.elems@.len() implies (#[trigger] info.elems@[a]).indices(
                self.shape@[a] as nat,
            ).len() <= usize::MAX by {
                assert(ls[a] == info.index_lists(self.shape@)[a]);
            }
            lemma_out_shape_size(info.elems@, self.shape@);
        }
        let data = gather(&self.data, &pos);
        let shape = info.output_shape(&self.shape);
        Ok(NdArray { shape, data })
    }

    /// Writes `view` over the part of the array that `info` selects; where a position is
    /// selected more than once, the last write stays.
    pub fn write_slice(&mut self, view: &NdArray<T>, info: &SelectInfo) -> (r: Result<(), Error>)
        requires
            old(self).wf(),
            view.wf(),
        ensures
            info.elems@.len() != old(self).shape@.len() ==> r == Err::<(), Error>(
                Error::ShapeMismatch,
            ),
            info.elems@.len() == old(self).shape@.len() && !info.valid_for(old(self).shape@) ==> r
                == Err::<(), Error>(Error::Bounds),
            info.valid_for(old(self).shape@) && view.shape@ != info.out_shape(old(self).shape@)
                ==> r == Err::<(), Error>(Error::ShapeMismatch),
            info.valid_for(old(self).shape@) && view.shape@ == info.out_shape(old(self).shape@)
                ==> r is Ok,
            r is Ok ==> final(self).shape@ == old(self).shape@ && final(self).data@ == scatter(
                old(self).data@,
                positions(old(self).shape@, info.index_lists(old(self).shape@)),
                view.data@,
            ),
            r is Err ==> *final(self) == *old(self),
            final(self).wf(),
    {
        let lists = match info.resolve(&self.shape) {
            Ok(l) => l,
            Err(e) => {
                return Err(e);
            },
        };
        let out_shape = info.output_shape(&self.shape);
        if !same_dims(&out_shape, &view.shape) {
            return Err(Error::ShapeMismatch);
        }
        let ghost ls = int_lists(lists@);
        let pos = flat_positions(&self.shape, &lists, self.data.len());
        let ghost ps = pos@.map_values(|x: usize| x as int);
        proof {
            lemma_positions_within(self.shape@, ls);
            lemma_positions_len(self.shape@, ls);
            assert forall|a: int| 0 <= a < info.elems@.len() implies (#[trigger] info.elems@[a]).indices(
                self.shape@[a] as nat,
            ).len() <= usize::MAX by {
                assert(ls[a] == info.index_lists(self.shape@)[a]);
            }
            lemma_out_shape_size(info.elems@, self.shape@);
        }
        let ghost start = self.data@;
        let mut k: usize = 0;
        while k < pos.len()
            invariant
                k <= pos@.len(),
                pos@.len() == view.data@.len(),
                ps == pos@.map_values(|x: usize| x as int),
                forall|j: int| 0 <= j < ps.len() ==> 0 <= #[trigger] ps[j] < start.len(),
                self.shape@ == old(self).shape@,
                start == old(self).data@,
                self.data@ == scatter(start, ps.take(k as int), view.data@),
                self.data@.len() == start.len(),
            decreases pos@.len() - k,
        {
            let p = pos[k];
            assert(ps[k as int] == p as int);
            let v = view.data[k].duplicate();
            self.data.set(p, v);
            proof {
                let t = ps.take(k + 1);
                assert(t.drop_last() =~= ps.take(k as int));
                assert(t.last() == p as int);
            }
            k = k + 1;
        }
        assert(ps.take(k as int) =~= ps);
        Ok(())
    }
}

proof fn lemma_prod_take_le(s: Seq<usize>, j: int)
    requires
        0 <= j <= s.len(),
    ensures
        prod(s.take(j)) <= prod(s) || exists|b: int| j <= b < s.len() && s[b] == 0,
    decreases s.len() - j,
{
    if j < s.len() {
        lemma_prod_take_le(s, j + 1);
        lemma_prod_push(s.take(j), s[j]);
        assert(s.take(j).push(s[j]) =~= s.take(j + 1));
        if s[j] != 0 {
            assert(prod(s.take(j)) <= prod(s.take(j)) * s[j]) by (nonlinear_arith)
                requires
                    s[j] >= 1,
            ;
        }
    } else {
        assert(s.take(j) =~= s);
    }
}

proof fn lemma_rows_total_prefix<T>(arrs: Seq<NdArray<T>>, k: int)
    requires
        0 <= k <= arrs.len(),
        forall|i: int| 0 <= i < arrs.len() ==> (#[trigger] arrs[i]).shape@.len() >= 1,
    ensures
        rows_total(arrs.take(k)) <= rows_total(arrs),
    decreases arrs.len() - k,
{
    if k < arrs.len() {
        lemma_rows_total_prefix(arrs, k + 1);
        assert(arrs.take(k + 1).drop_last() =~= arrs.take(k));
        assert(arrs.take(k + 1).last() == arrs[k]);
    } else {
        assert(arrs.take(k) =~= arrs);
    }
}

proof fn lemma_concat_prefix<T>(arrs: Seq<NdArray<T>>, k: int)
    requires
        0 <= k <= arrs.len(),
    ensures
        data_concat(arrs.take(k)).len() <= data_concat(arrs).len(),
    decreases arrs.len() - k,
{
    if k < arrs.len() {
        lemma_concat_prefix(arrs, k + 1);
        assert(arrs.take(k + 1).drop_last() =~= arrs.take(k));
    } else {
        assert(arrs.take(k) =~= arrs);
    }
}

/// Whether two shapes are equal.
pub fn same_dims(a: &Vec<usize>, b: &Vec<usize>) -> (r: bool)
    ensures
        r == (a@ == b@),
{
    if a.len() != b.len() {
        return false;
    }
    let mut i: usize = 0;
    while i < a.len()
        invariant
            i <= a@.len(),
            a@.len() == b@.len(),
            forall|j: int| 0 <= j < i ==> a@[j] == b@[j],
        decreases a@.len() - i,
    {
        if a[i] != b[i] {
            return false;
        }
        i = i + 1;
    }
    assert(a@ =~= b@);
    true
}

pub proof fn lemma_scatter_len<T>(data: Seq<T>, pos: Seq<int>, vals: Seq<T>)
    requires
        forall|j: int| 0 <= j < pos.len() ==> 0 <= #[trigger] pos[j] < data.len(),
    ensures
        scatter(data, pos, vals).len() == data.len(),
    decreases pos.len(),
{
    if pos.len() > 0 {
        lemma_scatter_len(data, pos.drop_last(), vals);
        assert(0 <= pos[pos.len() - 1] < data.len());
    }
}

/// Writing at distinct positions leaves each written value in place.
pub proof fn lemma_scatter_at<T>(data: Seq<T>, pos: Seq<int>, vals: Seq<T>, k: int)
    requires
        pos.no_duplicates(),
        forall|j: int| 0 <= j < pos.len() ==> 0 <= #[trigger] pos[j] < data.len(),
        0 <= k < pos.len(),
    ensures
        scatter(data, pos, vals)[pos[k]] == vals[k],
    decreases pos.len(),
{
    let n = pos.len() - 1;
    lemma_scatter_len(data, pos.drop_last(), vals);
    if k < n {
        assert(pos.drop_last()[k] == pos[k]);
        assert(pos[k] != pos[n]);
        lemma_scatter_at(data, pos.drop_last(), vals, k);
    }
}

/// A selection of one axis that names every position of it once, in order.
pub open spec fn covers_in_order(e: SelectInfoElem, len: nat) -> bool {
    e.keeps_axis() && e.indices(len) == iota(len)
}

proof fn lemma_out_shape_whole(elems: Seq<SelectInfoElem>, shape: Seq<usize>)
    requires
        elems.len() == shape.len(),
        forall|a: int| 0 <= a < shape.len() ==> covers_in_order(#[trigger] elems[a], shape[a] as nat),
    ensures
        out_shape_of(elems, shape) == shape,
    decreases elems.len(),
{
    if elems.len() > 0 {
        let n = elems.len() - 1;
        assert(covers_in_order(elems[n], shape[n] as nat));
        lemma_out_shape_whole(elems.drop_last(), shape.drop_last());
        assert(shape.drop_last().push(shape.last()) =~= shape);
    } else {
        assert(shape =~= Seq::<usize>::empty());
    }
}

/// Selecting every position of every axis, in order, reads the whole array unchanged.
pub proof fn lemma_select_whole<T: Element>(a: NdArray<T>, info: SelectInfo)
    requires
        a.wf(),
        info.elems@.len() == a.shape@.len(),
        forall|k: int|
            0 <= k < a.shape@.len() ==> covers_in_order(#[trigger] info.elems@[k], a.shape@[k] as nat),
    ensures
        info.out_shape(a.shape@) == a.shape@,
        picked(a.data@, positions(a.shape@, info.index_lists(a.shape@))) == a.data@,
{
    lemma_out_shape_whole(info.elems@, a.shape@);
    let ls = info.index_lists(a.shape@);
    assert forall|k: int| 0 <= k < a.shape@.len() implies #[trigger] ls[k] == iota(
        a.shape@[k] as nat,
    ) by {
        assert(covers_in_order(info.elems@[k], a.shape@[k] as nat));
    }
    lemma_positions_full(a.shape@, ls);
    assert(picked(a.data@, iota(prod(a.shape@))) =~= a.data@);
}

/// Reading through a selection of whole axes gives the whole array.
pub proof fn lemma_read_full_slice<T: Element>(a: NdArray<T>, info: SelectInfo)
    requires
        a.wf(),
        info.elems@.len() == a.shape@.len(),
        forall|k: int| 0 <= k < info.elems@.len() ==> #[trigger] info.elems@[k] == SelectInfoElem::Full,
    ensures
        info.valid_for(a.shape@),
        info.out_shape(a.shape@) == a.shape@,
        picked(a.data@, positions(a.shape@, info.index_lists(a.shape@))) == a.data@,
{
    assert forall|k: int| 0 <= k < a.shape@.len() implies covers_in_order(
        #[trigger] info.elems@[k],
        a.shape@[k] as nat,
    ) by {
        assert(info.elems@[k].indices(a.shape@[k] as nat) =~= iota(a.shape@[k] as nat));
    }
    lemma_select_whole(a, info);
}

/// Reading through the range `0..L` with step one on every axis of length `L` gives the whole
/// array.
pub proof fn lemma_read_unit_ranges<T: Element>(a: NdArray<T>, info: SelectInfo)
    requires
        a.wf(),
        info.elems@.len() == a.shape@.len(),
        forall|k: int|
            0 <= k < info.elems@.len() ==> #[trigger] info.elems@[k] == (SelectInfoElem::Range {
                start: 0,
                end: a.shape@[k],
                step: 1,
            }),
    ensures
        info.valid_for(a.shape@),
        info.out_shape(a.shape@) == a.shape@,
        picked(a.data@, positions(a.shape@, info.index_lists(a.shape@))) == a.data@,
{
    assert forall|k: int| 0 <= k < a.shape@.len() implies covers_in_order(
        #[trigger] info.elems@[k],
        a.shape@[k] as nat,
    ) by {
        let l = a.shape@[k] as int;
        if l > 0 {
            assert(range_len(0, l, 1) == l);
        }
        assert(info.elems@[k].indices(l as nat) =~= iota(l as nat));
    }
    lemma_select_whole(a, info);
}

/// Reading through the index list `[0, 1, ..., L - 1]` on every axis of length `L` gives the
/// whole array.
pub proof fn lemma_read_all_indices<T: Element>(a: NdArray<T>, info: SelectInfo)
    requires
        a.wf(),
        info.elems@.len() == a.shape@.len(),
        forall|k: int|
            0 <= k < info.elems@.len() ==> (#[trigger] info.elems@[k] is Index && info.elems@[k]->Index_0@.map_values(
                |x: usize| x as int,
            ) == iota(a.shape@[k] as nat)),
    ensures
        info.valid_for(a.shape@),
        info.out_shape(a.shape@) == a.shape@,
        picked(a.data@, positions(a.shape@, info.index_lists(a.shape@))) == a.data@,
{
    assert forall|k: int| 0 <= k < a.shape@.len() implies (#[trigger] info.elems@[k]).valid_for(
        a.shape@[k] as nat,
    ) by {
        let v = info.elems@[k]->Index_0;
        assert(v@.map_values(|x: usize| x as int) == iota(a.shape@[k] as nat));
        assert(v@.len() == a.shape@[k]);
        assert forall|j: int| 0 <= j < v@.len() implies v@[j] < a.shape@[k] by {
            assert(v@.map_values(|x: usize| x as int)[j] == j);
        }
    }
    assert forall|k: int| 0 <= k < a.shape@.len() implies covers_in_order(
        #[trigger] info.elems@[k],
        a.shape@[k] as nat,
    ) by {}
    lemma_select_whole(a, info);
}

/// Whether a selection of one axis names no position twice.
pub open spec fn no_repeats(e: SelectInfoElem) -> bool {
    match e {
        SelectInfoElem::Index(v) => v@.no_duplicates(),
        _ => true,
    }
}

proof fn lemma_indices_distinct(e: SelectInfoElem, len: nat)
    requires
        e.valid_for(len),
        no_repeats(e),
    ensures
        e.indices(len).no_duplicates(),
{
    match e {
        SelectInfoElem::Range { start, end, step } => {
            let s = e.indices(len);
            let a = step_abs(step);
            assert forall|i: int, j: int| 0 <= i < s.len() && 0 <= j < s.len() && i != j implies s[i]
                != s[j] by {
                assert(i * a != j * a) by (nonlinear_arith)
                    requires
                        i != j,
                        a > 0,
                ;
            }
        },
        SelectInfoElem::Index(v) => {
            let s = e.indices(len);
            assert forall|i: int, j: int| 0 <= i < s.len() && 0 <= j < s.len() && i != j implies s[i]
                != s[j] by {
                assert(v@[i] != v@[j]);
            }
        },
        _ => {},
    }
}

/// Writing a value through a selection that names no position twice, then reading through the
/// same selection, gives the value back.
pub proof fn lemma_write_then_read<T: Element>(a: NdArray<T>, view: NdArray<T>, info: SelectInfo)
    requires
        a.wf(),
        view.wf(),
        info.valid_for(a.shape@),
        view.shape@ == info.out_shape(a.shape@),
        forall|k: int| 0 <= k < info.elems@.len() ==> no_repeats(#[trigger] info.elems@[k]),
    ensures
        ({
            let pos = positions(a.shape@, info.index_lists(a.shape@));
            picked(scatter(a.data@, pos, view.data@), pos) == view.data@
        }),
{
    let ls = info.index_lists(a.shape@);
    assert(crate::layout::lists_within(a.shape@, ls)) by {
        assert forall|x: int, j: int| 0 <= x < a.shape@.len() && 0 <= j < ls[x].len() implies 0
            <= #[trigger] ls[x][j] < a.shape@[x] by {
            let e = info.elems@[x];
            assert(e.valid_for(a.shape@[x] as nat));
            match e {
                SelectInfoElem::Range { start, end, step } => {
                    crate::selection::lemma_range_step_below(
                        start as int,
                        end as int,
                        step_abs(step),
                        j,
                    );
                },
                _ => {},
            }
        }
    }
    assert forall|x: int| 0 <= x < ls.len() implies (#[trigger] ls[x]).no_duplicates() by {
        lemma_indices_distinct(info.elems@[x], a.shape@[x] as nat);
    }
    lemma_positions_distinct(a.shape@, ls);
    lemma_positions_within(a.shape@, ls);
    lemma_positions_len(a.shape@, ls);
    let pos = positions(a.shape@, ls);
    assert forall|x: int| 0 <= x < ls.len() implies (#[trigger] info.elems@[x]).indices(
        a.shape@[x] as nat,
    ).len() <= usize::MAX by {
        crate::selection::lemma_indices_len_fits(info.elems@[x], a.shape@[x] as nat);
    }
    lemma_out_shape_size(info.elems@, a.shape@);
    let got = picked(scatter(a.data@, pos, view.data@), pos);
    assert forall|k: int| 0 <= k < pos.len() implies got[k] == view.data@[k] by {
        lemma_scatter_at(a.data@, pos, view.data@, k);
    }
    assert(got =~= view.data@);
}

} // verus!
