use vstd::prelude::*;
use crate::array::{duplicate_vec, scatter, Element, NdArray};
use crate::config::WriteConfig;
use crate::container::{member_lookup, str_attr, DataContainer, Dataset, Group, Member};
use crate::dynamic::{DynArray, DynElement};
use crate::encoding::{lemma_tag_lengths, type_of, version_ok};
use crate::error::Error;

verus! {

/// A compressed sparse row matrix: row `i` holds the entries `indptr[i]..indptr[i + 1]` of
/// `indices` (their columns) and `data` (their values).
#[derive(Debug)]
pub struct CsrMatrix<T> {
    pub nrows: usize,
    pub ncols: usize,
    pub indptr: Vec<usize>,
    pub indices: Vec<usize>,
    pub data: Vec<T>,
}

/// Flat row-major positions of the entries of the first `r` rows, entry after entry.
pub open spec fn entry_positions(indptr: Seq<usize>, indices: Seq<usize>, nc: int, r: int) -> Seq<int>
    decreases r,
{
    if r <= 0 {
        Seq::empty()
    } else {
        entry_positions(indptr, indices, nc, r - 1) + Seq::new(
            (indptr[r] - indptr[r - 1]) as nat,
            |t: int| (r - 1) * nc + indices[indptr[r - 1] + t],
        )
    }
}

impl<T: Element> CsrMatrix<T> {
    /// The row pointers start at zero, never decrease and end at the number of entries, and
    /// every column index is below the number of columns.
    pub open spec fn wf(&self) -> bool {
        &&& self.indptr@.len() == self.nrows + 1
        &&& self.indptr@[0] == 0
        &&& forall|i: int| 0 <= i < self.nrows ==> #[trigger] self.indptr@[i] <= self.indptr@[i + 1]
        &&& self.indptr@[self.nrows as int] == self.indices@.len()
        &&& self.indices@.len() == self.data@.len()
        &&& forall|k: int| 0 <= k < self.indices@.len() ==> #[trigger] self.indices@[k] < self.ncols
    }

    /// The dense row-major elements: `zero` everywhere, then each entry written in order.
    pub open spec fn dense(&self, zero: T) -> Seq<T> {
        scatter(
            Seq::new((self.nrows * self.ncols) as nat, |q: int| zero),
            entry_positions(self.indptr@, self.indices@, self.ncols as int, self.nrows as int),
            self.data@,
        )
    }

    /// Checks the layout rules of `wf`.
    pub fn is_wf(&self) -> (r: bool)
        ensures
            r == self.wf(),
    {
        let n = self.indptr.len();
        if self.nrows >= usize::MAX || n != self.nrows + 1 || self.indptr[0] != 0 {
            return false;
        }
        let mut i: usize = 0;
        while i < self.nrows
            invariant
                i <= self.nrows,
                self.indptr@.len() == self.nrows + 1,
                forall|a: int| 0 <= a < i ==> #[trigger] self.indptr@[a] <= self.indptr@[a + 1],
            decreases self.nrows - i,
        {
            if self.indptr[i] > self.indptr[i + 1] {
                return false;
            }
            i = i + 1;
        }
        if self.indptr[self.nrows] != self.indices.len() || self.indices.len() != self.data.len() {
            return false;
        }
        let mut k: usize = 0;
        while k < self.indices.len()
            invariant
                k <= self.indices@.len(),
                forall|b: int| 0 <= b < k ==> #[trigger] self.indices@[b] < self.ncols,
            decreases self.indices@.len() - k,
        {
            if self.indices[k] >= self.ncols {
                assert(!(self.indices@[k as int] < self.ncols));
                return false;
            }
            k = k + 1;
        }
        true
    }

    /// The dense row-major elements, with `zero` where there is no entry.
    pub fn to_dense(&self, zero: &T) -> (r: Result<NdArray<T>, Error>)
        requires
            self.wf(),
        ensures
            self.nrows * self.ncols <= usize::MAX ==> (r matches Ok(a) && a.shape@ == seq![
                self.nrows,
                self.ncols,
            ] && a.data@ == self.dense(*zero) && a.wf()),
            self.nrows * self.ncols > usize::MAX ==> r == Err::<NdArray<T>, Error>(Error::ShapeMismatch),
    {
        let total = match self.nrows.checked_mul(self.ncols) {
            Some(t) => t,
            None => {
                return Err(Error::ShapeMismatch);
            },
        };
        let mut out: Vec<T> = Vec::new();
        let mut q: usize = 0;
        while q < total
            invariant
                q <= total,
                out@ =~= Seq::new(q as nat, |p: int| *zero),
            decreases total - q,
        {
            out.push(zero.duplicate());
            q = q + 1;
        }
        let ghost zeros = out@;
        let nc = self.ncols;
        let ghost np = self.nrows * self.ncols;
        let mut i: usize = 0;
        while i < self.nrows
            invariant
                self.wf(),
                i <= self.nrows,
                total == self.nrows * self.ncols,
                nc == self.ncols,
                zeros.len() == total,
                zeros == Seq::new(total as nat, |p: int| *zero),
                entry_positions(self.indptr@, self.indices@, nc as int, i as int).len() == self.indptr@[i as int],
                out@ == scatter(zeros, entry_positions(self.indptr@, self.indices@, nc as int, i as int), self.data@),
                out@.len() == total,
            decreases self.nrows - i,
        {
            let lo = self.indptr[i];
            let hi = self.indptr[i + 1];
            assert(self.indptr@[i as int] <= self.indptr@[i + 1]);
            let ghost prev = entry_positions(self.indptr@, self.indices@, nc as int, i as int);
            let ghost row = Seq::new((hi - lo) as nat, |t: int| i * nc + self.indices@[lo + t]);
            assert(entry_positions(self.indptr@, self.indices@, nc as int, i + 1) == prev + row);
            proof {
                lemma_indptr_le_end(self.indptr@, self.nrows as int, i + 1);
            }
            let mut k: usize = lo;
            while k < hi
                invariant
                    self.wf(),
                    i < self.nrows,
                    lo <= k <= hi,
                    lo == self.indptr@[i as int],
                    hi == self.indptr@[i + 1],
                    hi <= self.indices@.len(),
                    nc == self.ncols,
                    total == self.nrows * self.ncols,
                    prev.len() == lo,
                    row == Seq::new((hi - lo) as nat, |t: int| i * nc + self.indices@[lo + t]),
                    out@.len() == total,
                    out@ == scatter(zeros, prev + row.take(k - lo), self.data@),
                decreases hi - k,
            {
                let c = self.indices[k];
                assert(c < nc);
                proof {
                    assert(i * nc + c < self.nrows * nc) by (nonlinear_arith)
                        requires
                            i < self.nrows,
                            c < nc,
                    ;
                    let ps = prev + row.take(k + 1 - lo);
                    assert(ps.drop_last() =~= prev + row.take(k - lo));
                    assert(ps.last() == i * nc + c);
                    assert(ps.len() - 1 == k);
                }
                let v = self.data[k].duplicate();
                out.set(i * nc + c, v);
                k = k + 1;
            }
            assert(row.take(hi - lo) =~= row);
            i = i + 1;
        }
        let a = NdArray { shape: vec![self.nrows, self.ncols], data: out };
        proof {
            let sh = seq![self.nrows, self.ncols];
            assert(a.shape@ =~= sh);
            assert(sh.drop_first() =~= seq![self.ncols]);
            assert(seq![self.ncols].drop_first() =~= Seq::<usize>::empty());
            assert(crate::shape::prod(Seq::<usize>::empty()) == 1);
            assert(crate::shape::prod(seq![self.ncols]) == self.ncols * crate::shape::prod(Seq::<usize>::empty()));
            assert(crate::shape::prod(seq![self.ncols]) == self.ncols);
            assert(crate::shape::prod(sh) == self.nrows * crate::shape::prod(seq![self.ncols]));
            assert(zeros =~= Seq::new((self.nrows * self.ncols) as nat, |q: int| *zero));
        }
        Ok(a)
    }
}

proof fn lemma_indptr_le_end(indptr: Seq<usize>, n: int, i: int)
    requires
        0 <= i <= n,
        indptr.len() == n + 1,
        forall|a: int| 0 <= a < n ==> #[trigger] indptr[a] <= indptr[a + 1],
    ensures
        indptr[i] <= indptr[n],
    decreases n - i,
{
    if i < n {
        lemma_indptr_le_end(indptr, n, i + 1);
    }
}

/// The entries of a one-dimensional `u64` array as integers.
pub open spec fn u64_values(a: DynArray) -> Option<Seq<int>> {
    match a {
        DynArray::U64(x) => if x.shape@.len() == 1 {
            Some(x.data@.map_values(|v: u64| v as int))
        } else {
            None
        },
        _ => None,
    }
}

/// The dataset of member `name` of a group container.
pub open spec fn member_data(c: DataContainer, name: Seq<char>) -> Option<DynArray> {
    match c {
        DataContainer::Group(g) => match member_lookup(g.members@, name) {
            Some(d) => Some(d.data),
            None => None,
        },
        DataContainer::Dataset(_) => None,
    }
}

/// Whether the group `c` stores the matrix `m`: its values in `data`, its column indices in
/// `indices`, its row pointers in `indptr`, and its shape in the attribute `shape`.
pub open spec fn csr_stored<T: DynElement>(c: DataContainer, m: CsrMatrix<T>) -> bool {
    &&& c is Group
    &&& member_data(c, "data"@) matches Some(d) && T::array_of(d) matches Some(x) && x.data@
        == m.data@
    &&& member_data(c, "indices"@) matches Some(d) && u64_values(d) == Some(
        m.indices@.map_values(|v: usize| v as int),
    )
    &&& member_data(c, "indptr"@) matches Some(d) && u64_values(d) == Some(
        m.indptr@.map_values(|v: usize| v as int),
    )
    &&& match crate::container::attr_lookup(c->Group_0.attrs@, "shape"@) {
        Some(a) => u64_values(a) == Some(seq![m.nrows as int, m.ncols as int]),
        None => false,
    }
}

/// Whether `c` is what writing `m` produces.
pub open spec fn csr_written<T: DynElement>(m: CsrMatrix<T>, c: DataContainer) -> bool {
    &&& csr_stored(c, m)
    &&& str_attr(c->Group_0.attrs@, "encoding-type"@) == Some("csr_matrix"@)
    &&& version_ok(c->Group_0.attrs@)
}

/// A one-dimensional `u64` array holding `v`.
fn u64_array(v: &Vec<usize>) -> (r: DynArray)
    ensures
        u64_values(r) == Some(v@.map_values(|x: usize| x as int)),
        r.wf(),
{
    let mut data: Vec<u64> = Vec::new();
    let mut i: usize = 0;
    while i < v.len()
        invariant
            i <= v@.len(),
            data@.len() == i,
            forall|j: int| 0 <= j < i ==> data@[j] as int == v@[j] as int,
        decreases v@.len() - i,
    {
        data.push(v[i] as u64);
        i = i + 1;
    }
    let n = data.len();
    let a = NdArray { shape: vec![n], data };
    proof {
        assert(a.shape@ =~= seq![n]);
        assert(seq![n].drop_first() =~= Seq::<usize>::empty());
        assert(crate::shape::prod(Seq::<usize>::empty()) == 1);
        assert(crate::shape::prod(seq![n]) == n * crate::shape::prod(Seq::<usize>::empty()));
        assert(a.data@.map_values(|x: u64| x as int) =~= v@.map_values(|x: usize| x as int));
    }
    DynArray::U64(a)
}

/// The entries of a one-dimensional `u64` array as `usize` values.
fn usize_values(a: &DynArray) -> (r: Result<Vec<usize>, Error>)
    ensures
        r matches Ok(v) ==> u64_values(*a) == Some(v@.map_values(|x: usize| x as int)),
        u64_values(*a) is None ==> r is Err,
        u64_values(*a) is Some && (forall|i: int|
            0 <= i < u64_values(*a)->0.len() ==> #[trigger] u64_values(*a)->0[i] <= usize::MAX) ==> r is Ok,
{
    match a {
        DynArray::U64(x) => {
            if x.shape.len() != 1 {
                return Err(Error::DTypeMismatch);
            }
            let mut out: Vec<usize> = Vec::new();
            let mut i: usize = 0;
            while i < x.data.len()
                invariant
                    i <= x.data@.len(),
                    x.shape@.len() == 1,
                    *a == DynArray::U64(*x),
                    out@.len() == i,
                    forall|j: int| 0 <= j < i ==> out@[j] as int == x.data@[j] as int,
                decreases x.data@.len() - i,
            {
                if (x.data[i] as u128) > (usize::MAX as u128) {
                    assert(u64_values(*a) == Some(x.data@.map_values(|v: u64| v as int)));
                    assert(u64_values(*a)->0[i as int] > usize::MAX);
                    return Err(Error::Cast);
                }
                out.push(x.data[i] as usize);
                i = i + 1;
            }
            assert(x.data@.map_values(|v: u64| v as int) =~= out@.map_values(|v: usize| v as int));
            Ok(out)
        },
        _ => Err(Error::DTypeMismatch),
    }
}

fn data_member<'a>(g: &'a Group, name: &str) -> (r: Result<&'a DynArray, Error>)
    ensures
        r matches Ok(d) ==> member_data(DataContainer::Group(*g), name@) == Some(*d),
        member_data(DataContainer::Group(*g), name@) is Some ==> r is Ok,
        member_data(DataContainer::Group(*g), name@) is None ==> r == Err::<&DynArray, Error>(Error::NotFound),
{
    match g.open_dataset(name) {
        Ok(d) => Ok(&d.data),
        Err(e) => Err(e),
    }
}

impl<T: DynElement> CsrMatrix<T> {
    /// Writes the matrix as a group of three datasets with its shape as an attribute.
    pub fn write(&self) -> (r: DataContainer)
        ensures
            csr_written(*self, r),
    {
        let nnz = self.data.len();
        let values = T::into_dyn(NdArray { shape: vec![nnz], data: duplicate_vec(&self.data) });
        let mut g = Group::new();
        let dv = match values.write(&WriteConfig::default()) {
            DataContainer::Dataset(d) => d,
            DataContainer::Group(_) => vstd::pervasive::unreached(),
        };
        let di = match u64_array(&self.indices).write(&WriteConfig::default()) {
            DataContainer::Dataset(d) => d,
            DataContainer::Group(_) => vstd::pervasive::unreached(),
        };
        let dp = match u64_array(&self.indptr).write(&WriteConfig::default()) {
            DataContainer::Dataset(d) => d,
            DataContainer::Group(_) => vstd::pervasive::unreached(),
        };
        g.members.push(Member { name: "data".to_owned(), dataset: dv });
        g.members.push(Member { name: "indices".to_owned(), dataset: di });
        g.members.push(Member { name: "indptr".to_owned(), dataset: dp });
        let shape = vec![self.nrows, self.ncols];
        g.new_array_attr("shape", u64_array(&shape));
        let ghost a0 = g.attrs@;
        g.new_str_attr("encoding-type", "csr_matrix");
        let ghost a1 = g.attrs@;
        g.new_str_attr("encoding-version", "0.2.0");
        proof {
            reveal_strlit("data");
            reveal_strlit("indices");
            reveal_strlit("indptr");
            lemma_tag_lengths();
            let ms = g.members@;
            reveal_with_fuel(member_lookup, 4);
            assert("data"@.len() == 4 && "indices"@.len() == 7 && "indptr"@.len() == 6);
            assert(ms[0].name@ == "data"@ && ms[1].name@ == "indices"@ && ms[2].name@ == "indptr"@);
            assert(member_lookup(ms, "data"@) == Some(ms[0].dataset));
            assert(ms.drop_first()[0] == ms[1]);
            assert(member_lookup(ms, "indices"@) == Some(ms[1].dataset));
            assert(ms.drop_first().drop_first()[0] == ms[2]);
            assert(member_lookup(ms, "indptr"@) == Some(ms[2].dataset));
            crate::dynamic::lemma_same_as(dv.data, values);
            T::lemma_array_of_same(dv.data, values);
            assert(shape@.map_values(|v: usize| v as int) =~= seq![self.nrows as int, self.ncols as int]);
            assert(crate::container::attr_lookup(g.attrs@, "shape"@) == crate::container::attr_lookup(a0, "shape"@));
            assert(crate::container::attr_lookup(g.attrs@, "encoding-type"@) == crate::container::attr_lookup(a1, "encoding-type"@));
            match values {
                _ => {},
            }
        }
        DataContainer::Group(g)
    }

    /// Reads a matrix from a group written by `write`.
    pub fn read(c: &DataContainer) -> (r: Result<CsrMatrix<T>, Error>)
        ensures
            r matches Ok(m) ==> m.wf() && csr_stored(*c, m),
            c is Dataset ==> r is Err && r->Err_0 == Error::DTypeMismatch,
            c is Group && member_data(*c, "data"@) is None ==> r is Err && r->Err_0 == Error::NotFound,
            (exists|m: CsrMatrix<T>| csr_stored(*c, m) && m.wf()) ==> r is Ok,
    {
        let ghost good = exists|m: CsrMatrix<T>| csr_stored(*c, m) && m.wf();
        let ghost w = if good { choose|m: CsrMatrix<T>| csr_stored(*c, m) && m.wf() } else { arbitrary() };
        let g = match c {
            DataContainer::Group(g) => g,
            DataContainer::Dataset(_) => {
                return Err(Error::DTypeMismatch);
            },
        };
        let d = match data_member(g, "data") {
            Ok(d) => d,
            Err(e) => {
                return Err(e);
            },
        };
        let copied = d.copy();
        proof {
            T::lemma_array_of_same(copied, *d);
        }
        let values = match T::from_dyn(copied) {
            Some(x) => x,
            None => {
                return Err(Error::DTypeMismatch);
            },
        };
        let indices = match data_member(g, "indices") {
            Ok(a) => match usize_values(a) {
                Ok(v) => v,
                Err(e) => {
                    return Err(e);
                },
            },
            Err(e) => {
                return Err(e);
            },
        };
        let indptr = match data_member(g, "indptr") {
            Ok(a) => match usize_values(a) {
                Ok(v) => v,
                Err(e) => {
                    return Err(e);
                },
            },
            Err(e) => {
                return Err(e);
            },
        };
        let shape = match g.get_array_attr("shape") {
            Ok(a) => match usize_values(a) {
                Ok(v) => v,
                Err(e) => {
                    return Err(e);
                },
            },
            Err(e) => {
                return Err(e);
            },
        };
        proof {
            if good {
                let sm = shape@.map_values(|v: usize| v as int);
                assert(sm == seq![w.nrows as int, w.ncols as int]);
                assert(sm.len() == 2);
            }
        }
        if shape.len() != 2 {
            return Err(Error::ShapeMismatch);
        }
        let m = CsrMatrix { nrows: shape[0], ncols: shape[1], indptr, indices, data: values.data };
        proof {
            if good {
                let sm = shape@.map_values(|v: usize| v as int);
                assert(sm[0] == w.nrows as int && sm[1] == w.ncols as int);
                let a = m.indices@.map_values(|v: usize| v as int);
                let b = w.indices@.map_values(|v: usize| v as int);
                assert(a.len() == b.len());
                assert forall|i: int| 0 <= i < m.indices@.len() implies m.indices@[i] == w.indices@[i] by {
                    assert(a[i] == b[i]);
                }
                assert(m.indices@ =~= w.indices@);
                let p = m.indptr@.map_values(|v: usize| v as int);
                let q = w.indptr@.map_values(|v: usize| v as int);
                assert(p.len() == q.len());
                assert forall|i: int| 0 <= i < m.indptr@.len() implies m.indptr@[i] == w.indptr@[i] by {
                    assert(p[i] == q[i]);
                }
                assert(m.indptr@ =~= w.indptr@);
                assert(m.data@ == w.data@);
            }
        }
        if !m.is_wf() {
            return Err(Error::ShapeMismatch);
        }
        assert(shape@.map_values(|v: usize| v as int) =~= seq![m.nrows as int, m.ncols as int]);
        Ok(m)
    }
}

/// Reading back a written matrix gives the same matrix, so the same dense array.
pub proof fn lemma_csr_round_trip<T: DynElement>(m: CsrMatrix<T>, c: DataContainer, back: CsrMatrix<T>, zero: T)
    requires
        csr_written(m, c),
        csr_stored(c, back),
    ensures
        back.nrows == m.nrows,
        back.ncols == m.ncols,
        back.indptr@ == m.indptr@,
        back.indices@ == m.indices@,
        back.data@ == m.data@,
        back.dense(zero) == m.dense(zero),
        type_of(c) == Ok::<crate::datatype::DataType, Error>(
            crate::datatype::DataType::CsrMatrix(T::tag()),
        ),
{
    lemma_tag_lengths();
    let dd = member_data(c, "data"@)->0;
    assert(T::array_of(dd) is Some);
    T::lemma_array_of_tag(dd);
    let a = back.indices@.map_values(|v: usize| v as int);
    let b = m.indices@.map_values(|v: usize| v as int);
    let di = member_data(c, "indices"@)->0;
    assert(u64_values(di) == Some(a));
    assert(u64_values(di) == Some(b));
    assert(a == b);
    assert(a.len() == b.len());
    assert forall|i: int| 0 <= i < back.indices@.len() implies back.indices@[i] == m.indices@[i] by {
        assert(a[i] == b[i]);
    }
    assert(back.indices@ =~= m.indices@);
    let p = back.indptr@.map_values(|v: usize| v as int);
    let q = m.indptr@.map_values(|v: usize| v as int);
    let dp = member_data(c, "indptr"@)->0;
    assert(u64_values(dp) == Some(p));
    assert(u64_values(dp) == Some(q));
    assert(p == q);
    assert(p.len() == q.len());
    assert forall|i: int| 0 <= i < back.indptr@.len() implies back.indptr@[i] == m.indptr@[i] by {
        assert(p[i] == q[i]);
    }
    assert(back.indptr@ =~= m.indptr@);
    let sa = seq![back.nrows as int, back.ncols as int];
    let sb = seq![m.nrows as int, m.ncols as int];
    assert(sa == sb);
    assert(sa[0] == sb[0] && sa[1] == sb[1]);
}

/// A sparse matrix element backed by a stored group.
#[derive(Debug)]
pub struct CsrElem<T> {
    pub nrows: usize,
    pub ncols: usize,
    pub container: DataContainer,
    pub element: core::marker::PhantomData<T>,
}

impl<T: DynElement> CsrElem<T> {
    /// The backing group stores a well-formed matrix of `nrows` by `ncols`.
    pub open spec fn wf(&self) -> bool {
        exists|m: CsrMatrix<T>|
            csr_stored(self.container, m) && m.wf() && m.nrows == self.nrows && m.ncols == self.ncols
    }

    /// Writes `m` and wraps the written group.
    pub fn from_matrix(m: &CsrMatrix<T>) -> (r: CsrElem<T>)
        requires
            m.wf(),
        ensures
            r.wf(),
            csr_written(*m, r.container),
            r.nrows == m.nrows && r.ncols == m.ncols,
    {
        let c = m.write();
        CsrElem { nrows: m.nrows, ncols: m.ncols, container: c, element: core::marker::PhantomData }
    }

    /// Wraps a stored group, which must hold a well-formed matrix.
    pub fn new_elem(container: DataContainer) -> (r: Result<CsrElem<T>, Error>)
        ensures
            r matches Ok(e) ==> e.wf() && e.container == container,
            (exists|m: CsrMatrix<T>| csr_stored(container, m) && m.wf()) ==> r is Ok,
    {
        match CsrMatrix::<T>::read(&container) {
            Ok(m) => {
                let nrows = m.nrows;
                let ncols = m.ncols;
                Ok(CsrElem { nrows, ncols, container, element: core::marker::PhantomData })
            },
            Err(e) => Err(e),
        }
    }

    /// The stored matrix.
    pub fn read_elem(&self) -> (r: Result<CsrMatrix<T>, Error>)
        requires
            self.wf(),
        ensures
            r matches Ok(m) && m.wf() && csr_stored(self.container, m) && m.nrows == self.nrows
                && m.ncols == self.ncols,
    {
        let ghost w = choose|m: CsrMatrix<T>|
            csr_stored(self.container, m) && m.wf() && m.nrows == self.nrows && m.ncols == self.ncols;
        let r = CsrMatrix::<T>::read(&self.container);
        proof {
            if r is Ok {
                lemma_stored_fields(self.container, w, r->Ok_0);
            }
        }
        r
    }
}

/// Two matrices stored by the same group have the same fields.
pub proof fn lemma_stored_fields<T: DynElement>(c: DataContainer, a: CsrMatrix<T>, b: CsrMatrix<T>)
    requires
        csr_stored(c, a),
        csr_stored(c, b),
    ensures
        a.nrows == b.nrows && a.ncols == b.ncols,
        a.indptr@ == b.indptr@ && a.indices@ == b.indices@ && a.data@ == b.data@,
{
    let sa = seq![a.nrows as int, a.ncols as int];
    let sb = seq![b.nrows as int, b.ncols as int];
    assert(sa == sb);
    assert(sa[0] == sb[0] && sa[1] == sb[1]);
    let x = a.indices@.map_values(|v: usize| v as int);
    let y = b.indices@.map_values(|v: usize| v as int);
    let di = member_data(c, "indices"@)->0;
    assert(u64_values(di) == Some(x));
    assert(u64_values(di) == Some(y));
    assert(x.len() == y.len());
    assert forall|i: int| 0 <= i < a.indices@.len() implies a.indices@[i] == b.indices@[i] by {
        assert(x[i] == y[i]);
    }
    assert(a.indices@ =~= b.indices@);
    let p = a.indptr@.map_values(|v: usize| v as int);
    let q = b.indptr@.map_values(|v: usize| v as int);
    let dp = member_data(c, "indptr"@)->0;
    assert(u64_values(dp) == Some(p));
    assert(u64_values(dp) == Some(q));
    assert(p.len() == q.len());
    assert forall|i: int| 0 <= i < a.indptr@.len() implies a.indptr@[i] == b.indptr@[i] by {
        assert(p[i] == q[i]);
    }
    assert(a.indptr@ =~= b.indptr@);
}

} // verus!
