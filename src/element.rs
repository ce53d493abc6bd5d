use vstd::prelude::*;
use crate::array::duplicate_vec;
use crate::config::{default_config, WriteConfig};
use crate::encoding::array_written;
use crate::container::DataContainer;
use crate::dynamic::{lemma_dyn_selection_elements, lemma_same_as, lemma_same_as_trans, DynArray};
use crate::error::Error;
use crate::layout::{iota, lemma_positions_2d, positions};
use crate::selection::{lemma_indices_len_fits, out_shape_of, SelectInfo, SelectInfoElem};

verus! {

/// Whether every entry of `idx` is below `n`.
pub open spec fn all_below(idx: Seq<usize>, n: usize) -> bool {
    forall|j: int| 0 <= j < idx.len() ==> #[trigger] idx[j] < n
}

/// The entries of `idx` as integers.
pub open spec fn ints(idx: Seq<usize>) -> Seq<int> {
    idx.map_values(|x: usize| x as int)
}

/// Whether `r` is the block of the two-dimensional array `a`, with `nc` columns, made of the rows
/// `rows` and the columns `cols`, in that order.
pub open spec fn is_block(a: DynArray, nc: int, rows: Seq<int>, cols: Seq<int>, r: DynArray) -> bool {
    &&& r.wf()
    &&& r.scalar_type() == a.scalar_type()
    &&& r.shape_view() == seq![rows.len() as usize, cols.len() as usize]
    &&& forall|i: int, j: int|
        0 <= i < rows.len() && 0 <= j < cols.len() ==> #[trigger] r.element_at(i * cols.len() + j)
            == a.element_at(rows[i] * nc + cols[j])
}

/// The block of a two-dimensional array picked by a selection of rows and one of columns.
fn take_block(a: &DynArray, rows: SelectInfoElem, cols: SelectInfoElem) -> (r: Result<DynArray, Error>)
    requires
        a.wf(),
        a.shape_view().len() == 2,
        rows.keeps_axis(),
        cols.keeps_axis(),
    ensures
        rows.valid_for(a.shape_view()[0] as nat) && cols.valid_for(a.shape_view()[1] as nat) ==> (r matches Ok(b)
            && is_block(
            *a,
            a.shape_view()[1] as int,
            rows.indices(a.shape_view()[0] as nat),
            cols.indices(a.shape_view()[1] as nat),
            b,
        )),
        !(rows.valid_for(a.shape_view()[0] as nat) && cols.valid_for(a.shape_view()[1] as nat)) ==> r
            == Err::<DynArray, Error>(Error::Bounds),
{
    let ghost sh = a.shape_view();
    let info = SelectInfo::new(vec![rows, cols]);
    assert(info.elems@ =~= seq![rows, cols]);
    let res = a.select(&info);
    match res {
        Ok(b) => {
            proof {
                let nr = sh[0];
                let nc = sh[1];
                assert(sh =~= seq![nr, nc]);
                let rl = rows.indices(nr as nat);
                let cl = cols.indices(nc as nat);
                assert(info.valid_for(sh));
                lemma_indices_len_fits(rows, nr as nat);
                lemma_indices_len_fits(cols, nc as nat);
                lemma_dyn_selection_elements(*a, info, b);
                assert(info.index_lists(sh) =~= seq![rl, cl]);
                reveal_with_fuel(out_shape_of, 3);
                assert(info.elems@.drop_last() =~= seq![rows]);
                assert(sh.drop_last() =~= seq![nr]);
                assert(seq![rows].drop_last() =~= Seq::<SelectInfoElem>::empty());
                assert(seq![nr].drop_last() =~= Seq::<usize>::empty());
                assert(info.out_shape(sh) =~= seq![rl.len() as usize, cl.len() as usize]);
                assert forall|i: int, j: int| 0 <= i < rl.len() && 0 <= j < cl.len() implies #[trigger] b.element_at(
                    i * cl.len() + j,
                ) == a.element_at(rl[i] * nc + cl[j]) by {
                    lemma_positions_2d(nr, nc, rl, cl, i, j);
                    let q = i * cl.len() + j;
                    assert(positions(sh, info.index_lists(sh)) == positions(seq![nr, nc], seq![rl, cl]));
                    assert(0 <= q < rl.len() * cl.len()) by (nonlinear_arith)
                        requires
                            0 <= i < rl.len(),
                            0 <= j < cl.len(),
                            q == i * cl.len() + j,
                    ;
                    assert(0 <= q < b.len_view());
                    assert(b.element_at(q) == a.element_at(positions(sh, info.index_lists(sh))[q]));
                }
            }
            Ok(b)
        },
        Err(e) => Err(e),
    }
}

/// A two-dimensional array element backed by a stored dataset, with an optional in-memory copy.
#[derive(Debug)]
pub struct RawMatrixElem {
    pub nrows: usize,
    pub ncols: usize,
    pub container: DataContainer,
    pub cache: Option<DynArray>,
    pub cache_enabled: bool,
}

impl RawMatrixElem {
    /// The array in the backing dataset.
    pub open spec fn stored(&self) -> DynArray {
        self.container->Dataset_0.data
    }

    /// The backing dataset holds a two-dimensional array of `nrows` by `ncols`, and the cached
    /// copy, where there is one, equals it.
    pub open spec fn wf(&self) -> bool {
        &&& self.container is Dataset
        &&& self.stored().wf()
        &&& self.stored().shape_view() == seq![self.nrows, self.ncols]
        &&& self.cache matches Some(c) ==> c.same_as(self.stored()) && c.wf()
        &&& !self.cache_enabled ==> self.cache is None
    }

    /// Wraps a stored container, which must be a dataset holding a two-dimensional array.
    pub fn new_elem(container: DataContainer) -> (r: Result<RawMatrixElem, Error>)
        ensures
            r matches Ok(e) ==> e.wf() && e.container == container && e.cache is None,
            container is Group ==> r == Err::<RawMatrixElem, Error>(Error::DTypeMismatch),
            container matches DataContainer::Dataset(d) ==> (r is Ok <==> (d.data.wf()
                && d.data.shape_view().len() == 2)),
            container is Dataset && r is Err ==> r == Err::<RawMatrixElem, Error>(
                Error::ShapeMismatch,
            ),
    {
        let (nrows, ncols) = match &container {
            DataContainer::Group(_) => {
                return Err(Error::DTypeMismatch);
            },
            DataContainer::Dataset(d) => {
                if !d.data.is_wf() {
                    return Err(Error::ShapeMismatch);
                }
                let shape = d.data.shape();
                if shape.len() != 2 {
                    return Err(Error::ShapeMismatch);
                }
                assert(shape@ =~= seq![shape@[0], shape@[1]]);
                (shape[0], shape[1])
            },
        };
        Ok(RawMatrixElem { nrows, ncols, container, cache: None, cache_enabled: false })
    }

    /// Writes `data`, a two-dimensional array, and wraps the written dataset.
    pub fn from_array(data: &DynArray) -> (r: Result<RawMatrixElem, Error>)
        ensures
            data.wf() && data.shape_view().len() == 2 ==> (r matches Ok(e) && e.wf()
                && e.stored().same_as(*data) && e.nrows == data.shape_view()[0] && e.ncols
                == data.shape_view()[1] && e.cache is None && array_written(
                *data,
                default_config(),
                e.container,
            )),
            !(data.wf() && data.shape_view().len() == 2) ==> r == Err::<RawMatrixElem, Error>(
                Error::ShapeMismatch,
            ),
    {
        let c = data.write(&WriteConfig::default());
        proof {
            lemma_same_as(c->Dataset_0.data, *data);
        }
        RawMatrixElem::new_elem(c)
    }

    /// Keeps a copy of the array in memory from the next read on.
    pub fn enable_cache(&mut self)
        requires
            old(self).wf(),
        ensures
            final(self).wf(),
            final(self).cache_enabled,
            final(self).container == old(self).container,
            final(self).cache == old(self).cache,
            final(self).nrows == old(self).nrows && final(self).ncols == old(self).ncols,
    {
        self.cache_enabled = true;
    }

    /// Drops the in-memory copy and keeps none from now on.
    pub fn disable_cache(&mut self)
        requires
            old(self).wf(),
        ensures
            final(self).wf(),
            !final(self).cache_enabled,
            final(self).cache is None,
            final(self).container == old(self).container,
            final(self).nrows == old(self).nrows && final(self).ncols == old(self).ncols,
    {
        self.cache = None;
        self.cache_enabled = false;
    }

    /// The whole array; it is kept in memory when caching is enabled.
    pub fn read_elem(&mut self) -> (r: DynArray)
        requires
            old(self).wf(),
        ensures
            final(self).wf(),
            r.same_as(old(self).stored()),
            r.wf(),
            final(self).container == old(self).container,
            final(self).cache_enabled == old(self).cache_enabled,
            old(self).cache is Some ==> final(self).cache == old(self).cache,
            final(self).cache_enabled ==> final(self).cache is Some,
            final(self).nrows == old(self).nrows && final(self).ncols == old(self).ncols,
    {
        match &self.cache {
            Some(c) => {
                let r = c.copy();
                proof {
                    lemma_same_as_trans(r, *c, self.stored());
                }
                r
            },
            None => {
                let d = match &self.container {
                    DataContainer::Dataset(d) => d,
                    DataContainer::Group(_) => vstd::pervasive::unreached(),
                };
                let r = d.data.copy();
                if self.cache_enabled {
                    self.cache = Some(d.data.copy());
                }
                r
            },
        }
    }

    /// The array to read from: the cached copy where there is one, else the stored array.
    fn source(&self) -> (r: &DynArray)
        requires
            self.wf(),
        ensures
            r.same_as(self.stored()),
            r.wf(),
    {
        match &self.cache {
            Some(c) => c,
            None => match &self.container {
                DataContainer::Dataset(d) => {
                    proof {
                        lemma_same_as(d.data, d.data);
                    }
                    &d.data
                },
                DataContainer::Group(_) => vstd::pervasive::unreached(),
            },
        }
    }

    /// The block made of the rows `rows` and the columns `cols` of the array.
    fn read_block(&self, rows: SelectInfoElem, cols: SelectInfoElem) -> (r: Result<DynArray, Error>)
        requires
            self.wf(),
            rows.keeps_axis(),
            cols.keeps_axis(),
        ensures
            rows.valid_for(self.nrows as nat) && cols.valid_for(self.ncols as nat) ==> (r matches Ok(b)
                && is_block(
                self.stored(),
                self.ncols as int,
                rows.indices(self.nrows as nat),
                cols.indices(self.ncols as nat),
                b,
            )),
            !(rows.valid_for(self.nrows as nat) && cols.valid_for(self.ncols as nat)) ==> r == Err::<
                DynArray,
                Error,
            >(Error::Bounds),
    {
        let src = self.source();
        proof {
            lemma_same_as(*src, self.stored());
        }
        take_block(src, rows, cols)
    }

    /// The rows `idx` of the array, in order.
    pub fn read_rows(&self, idx: &Vec<usize>) -> (r: Result<DynArray, Error>)
        requires
            self.wf(),
        ensures
            all_below(idx@, self.nrows) ==> (r matches Ok(b) && is_block(
                self.stored(),
                self.ncols as int,
                ints(idx@),
                iota(self.ncols as nat),
                b,
            )),
            !all_below(idx@, self.nrows) ==> r == Err::<DynArray, Error>(Error::Bounds),
    {
        let n = idx.len();
        assert(n == idx@.len());
        let rows = SelectInfoElem::Index(duplicate_vec(idx));
        self.read_block(rows, SelectInfoElem::Full)
    }

    /// The columns `idx` of the array, in order.
    pub fn read_columns(&self, idx: &Vec<usize>) -> (r: Result<DynArray, Error>)
        requires
            self.wf(),
        ensures
            all_below(idx@, self.ncols) ==> (r matches Ok(b) && is_block(
                self.stored(),
                self.ncols as int,
                iota(self.nrows as nat),
                ints(idx@),
                b,
            )),
            !all_below(idx@, self.ncols) ==> r == Err::<DynArray, Error>(Error::Bounds),
    {
        let n = idx.len();
        assert(n == idx@.len());
        let cols = SelectInfoElem::Index(duplicate_vec(idx));
        self.read_block(SelectInfoElem::Full, cols)
    }

    /// The rows `ridx` and the columns `cidx` of the array, in order.
    pub fn read_partial(&self, ridx: &Vec<usize>, cidx: &Vec<usize>) -> (r: Result<DynArray, Error>)
        requires
            self.wf(),
        ensures
            all_below(ridx@, self.nrows) && all_below(cidx@, self.ncols) ==> (r matches Ok(b)
                && is_block(self.stored(), self.ncols as int, ints(ridx@), ints(cidx@), b)),
            !(all_below(ridx@, self.nrows) && all_below(cidx@, self.ncols)) ==> r == Err::<
                DynArray,
                Error,
            >(Error::Bounds),
    {
        let n = ridx.len();
        let m = cidx.len();
        assert(n == ridx@.len() && m == cidx@.len());
        let rows = SelectInfoElem::Index(duplicate_vec(ridx));
        let cols = SelectInfoElem::Index(duplicate_vec(cidx));
        self.read_block(rows, cols)
    }

    /// The rows from `start` up to `end`.
    pub fn read_row_slice(&self, start: usize, end: usize) -> (r: Result<DynArray, Error>)
        requires
            self.wf(),
        ensures
            start <= end <= self.nrows ==> (r matches Ok(b) && is_block(
                self.stored(),
                self.ncols as int,
                Seq::new((end - start) as nat, |i: int| start + i),
                iota(self.ncols as nat),
                b,
            )),
            !(start <= end <= self.nrows) ==> r == Err::<DynArray, Error>(Error::Bounds),
    {
        let rows = SelectInfoElem::Range { start, end, step: 1 };
        proof {
            if start < end {
                assert(crate::selection::range_len(start as int, end as int, 1) == end - start);
            }
            assert(crate::selection::step_abs(1) == 1);
            assert forall|k: int| 0 <= k < (end - start) implies #[trigger] (k * 1) == k by {}
            if start <= end {
                assert(rows.indices(self.nrows as nat) =~= Seq::new((end - start) as nat, |i: int| start + i));
            }
        }
        self.read_block(rows, SelectInfoElem::Full)
    }

    /// Replaces the backing dataset with `data`, and the cached copy where there is one.
    fn replace(&mut self, data: DynArray)
        requires
            old(self).wf(),
            data.wf(),
            data.shape_view().len() == 2,
        ensures
            final(self).wf(),
            final(self).stored().same_as(data),
            final(self).nrows == data.shape_view()[0],
            final(self).ncols == data.shape_view()[1],
            final(self).cache_enabled == old(self).cache_enabled,
            (final(self).cache is Some) == (old(self).cache is Some),
    {
        let shape = data.shape();
        assert(shape@ =~= seq![shape@[0], shape@[1]]);
        let c = data.write(&WriteConfig::default());
        proof {
            lemma_same_as(c->Dataset_0.data, data);
        }
        if self.cache.is_some() {
            self.cache = Some(data);
        }
        self.container = c;
        self.nrows = shape[0];
        self.ncols = shape[1];
        proof {
            if self.cache is Some {
                lemma_same_as(c->Dataset_0.data, self.cache->0);
            }
        }
    }

    /// Keeps only the rows `idx`, in order, in the backing dataset and in the cached copy.
    pub fn subset_rows(&mut self, idx: &Vec<usize>) -> (r: Result<(), Error>)
        requires
            old(self).wf(),
        ensures
            final(self).wf(),
            !all_below(idx@, old(self).nrows) ==> r == Err::<(), Error>(Error::Bounds),
            r is Err ==> *final(self) == *old(self),
            all_below(idx@, old(self).nrows) ==> r is Ok,
            r is Ok ==> final(self).nrows == idx@.len() && final(self).ncols == old(self).ncols
                && is_block(
                old(self).stored(),
                old(self).ncols as int,
                ints(idx@),
                iota(old(self).ncols as nat),
                final(self).stored(),
            ) && (final(self).cache is Some) == (old(self).cache is Some),
    {
        let n = idx.len();
        assert(n == idx@.len());
        match self.read_rows(idx) {
            Ok(data) => {
                let ghost before = self.stored();
                self.replace(data);
                proof {
                    lemma_block_same(before, old(self).ncols as int, ints(idx@), iota(old(self).ncols as nat), data, self.stored());
                    assert(ints(idx@).len() == idx@.len());
                    assert(data.shape_view()[0] == idx@.len());
                }
                Ok(())
            },
            Err(e) => Err(e),
        }
    }

    /// Keeps only the columns `idx`, in order, in the backing dataset and in the cached copy.
    pub fn subset_cols(&mut self, idx: &Vec<usize>) -> (r: Result<(), Error>)
        requires
            old(self).wf(),
        ensures
            final(self).wf(),
            !all_below(idx@, old(self).ncols) ==> r == Err::<(), Error>(Error::Bounds),
            r is Err ==> *final(self) == *old(self),
            all_below(idx@, old(self).ncols) ==> r is Ok,
            r is Ok ==> final(self).ncols == idx@.len() && final(self).nrows == old(self).nrows
                && is_block(
                old(self).stored(),
                old(self).ncols as int,
                iota(old(self).nrows as nat),
                ints(idx@),
                final(self).stored(),
            ) && (final(self).cache is Some) == (old(self).cache is Some),
    {
        let n = idx.len();
        assert(n == idx@.len());
        match self.read_columns(idx) {
            Ok(data) => {
                let ghost before = self.stored();
                self.replace(data);
                proof {
                    lemma_block_same(before, old(self).ncols as int, iota(old(self).nrows as nat), ints(idx@), data, self.stored());
                    assert(ints(idx@).len() == idx@.len());
                    assert(data.shape_view()[1] == idx@.len());
                }
                Ok(())
            },
            Err(e) => Err(e),
        }
    }

    /// Keeps only the rows `ridx` and the columns `cidx`, in order.
    pub fn subset(&mut self, ridx: &Vec<usize>, cidx: &Vec<usize>) -> (r: Result<(), Error>)
        requires
            old(self).wf(),
        ensures
            final(self).wf(),
            !(all_below(ridx@, old(self).nrows) && all_below(cidx@, old(self).ncols)) ==> r == Err::<
                (),
                Error,
            >(Error::Bounds),
            r is Err ==> *final(self) == *old(self),
            all_below(ridx@, old(self).nrows) && all_below(cidx@, old(self).ncols) ==> r is Ok,
            r is Ok ==> final(self).nrows == ridx@.len() && final(self).ncols == cidx@.len()
                && is_block(
                old(self).stored(),
                old(self).ncols as int,
                ints(ridx@),
                ints(cidx@),
                final(self).stored(),
            ) && (final(self).cache is Some) == (old(self).cache is Some),
    {
        let n = ridx.len();
        let m = cidx.len();
        assert(n == ridx@.len() && m == cidx@.len());
        match self.read_partial(ridx, cidx) {
            Ok(data) => {
                let ghost before = self.stored();
                self.replace(data);
                proof {
                    lemma_block_same(before, old(self).ncols as int, ints(ridx@), ints(cidx@), data, self.stored());
                    assert(ints(ridx@).len() == ridx@.len());
                    assert(ints(cidx@).len() == cidx@.len());
                }
                Ok(())
            },
            Err(e) => Err(e),
        }
    }

    /// Replaces the array with `data`, a two-dimensional array.
    pub fn update(&mut self, data: &DynArray) -> (r: Result<(), Error>)
        requires
            old(self).wf(),
        ensures
            final(self).wf(),
            data.wf() && data.shape_view().len() == 2 ==> (r is Ok && final(self).stored().same_as(
                *data,
            ) && final(self).nrows == data.shape_view()[0] && final(self).ncols
                == data.shape_view()[1]),
            !(data.wf() && data.shape_view().len() == 2) ==> r == Err::<(), Error>(
                Error::ShapeMismatch,
            ) && *final(self) == *old(self),
    {
        if !data.is_wf() || data.ndim() != 2 {
            return Err(Error::ShapeMismatch);
        }
        let d = data.copy();
        proof {
            lemma_same_as(d, *data);
        }
        self.replace(d);
        proof {
            lemma_same_as_trans(self.stored(), d, *data);
        }
        Ok(())
    }
}

/// A block stays a block of the same array when copied.
proof fn lemma_block_same(a: DynArray, nc: int, rows: Seq<int>, cols: Seq<int>, b: DynArray, c: DynArray)
    requires
        is_block(a, nc, rows, cols, b),
        c.same_as(b),
    ensures
        is_block(a, nc, rows, cols, c),
{
    lemma_same_as(c, b);
}

/// The `k`-th range of rows when `n` rows are read `size` at a time.
pub open spec fn chunk_at(n: usize, size: usize, k: int) -> (usize, usize) {
    let start = k * size;
    let end = if start + size <= n { start + size } else { n as int };
    (start as usize, end as usize)
}

/// Number of ranges of `size` rows, the last one possibly short, that cover `n` rows.
pub open spec fn nchunks(n: usize, size: usize) -> nat {
    if n == 0 || size == 0 {
        0
    } else {
        ((n - 1) / (size as int) + 1) as nat
    }
}

proof fn lemma_nchunks(n: usize, size: usize, k: int)
    requires
        size > 0,
        k >= 0,
        k * size >= n,
        k == 0 || (k - 1) * size < n,
    ensures
        k == nchunks(n, size),
{
    if n > 0 {
        let q = (n - 1) / (size as int);
        let r = (n - 1) % (size as int);
        vstd::arithmetic::div_mod::lemma_fundamental_div_mod(n - 1, size as int);
        assert(k > 0) by (nonlinear_arith)
            requires
                k * size >= n,
                n > 0,
                k >= 0,
        ;
        assert(k <= q + 1) by (nonlinear_arith)
            requires
                (k - 1) * size < n,
                n - 1 == size * q + r,
                0 <= r < size,
        ;
        assert(k >= q + 1) by (nonlinear_arith)
            requires
                k * size >= n,
                n - 1 == size * q + r,
                0 <= r < size,
                size > 0,
        ;
    } else {
        assert(k == 0) by (nonlinear_arith)
            requires
                k == 0 || (k - 1) * size < n,
                n == 0,
                k >= 0,
                size > 0,
        ;
    }
}

/// The ranges of rows that reading `n` rows `size` at a time visits, in order; the last one may
/// be short.
pub fn chunk_bounds(n: usize, size: usize) -> (r: Vec<(usize, usize)>)
    requires
        size > 0,
    ensures
        forall|k: int| 0 <= k < r@.len() ==> #[trigger] r@[k] == chunk_at(n, size, k),
        r@.len() == nchunks(n, size),
{
    let mut out: Vec<(usize, usize)> = Vec::new();
    let mut start: usize = 0;
    while start < n
        invariant
            size > 0,
            start <= n,
            out@.len() * size <= n ==> start == out@.len() * size,
            out@.len() * size > n ==> start == n,
            start < n ==> start == out@.len() * size,
            out@.len() == 0 || (out@.len() - 1) * size < n,
            forall|k: int| 0 <= k < out@.len() ==> #[trigger] out@[k] == chunk_at(n, size, k),
        decreases n - start,
    {
        let end = if n - start > size {
            start + size
        } else {
            n
        };
        let ghost k = out@.len();
        out.push((start, end));
        proof {
            assert((k + 1) * size == k * size + size) by (nonlinear_arith);
            assert(out@[k as int] == chunk_at(n, size, k as int));
        }
        start = end;
    }
    proof {
        lemma_nchunks(n, size, out@.len() as int);
    }
    out
}

} // verus!
