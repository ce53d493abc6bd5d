use vstd::prelude::*;
use crate::array::{duplicate_vec, NdArray};
use crate::config::WriteConfig;
use crate::container::{member_lookup, str_attr, attr_lookup, DataContainer, Group, Member};
use crate::dynamic::{lemma_dyn_selection_elements, DynArray};
use crate::element::{all_below, ints};
use crate::encoding::{lemma_tag_lengths, version_ok};
use crate::error::Error;
use crate::layout::{lemma_positions_1d, positions};
use crate::selection::{lemma_indices_len_fits, out_shape_of, SelectInfo, SelectInfoElem};

verus! {

/// A named column of a data frame.
#[derive(Debug)]
pub struct Column {
    pub name: String,
    pub values: DynArray,
}

/// Columns of equal length, one of which, named by `index_name`, identifies the rows.
#[derive(Debug)]
pub struct DataFrame {
    pub index_name: String,
    pub columns: Vec<Column>,
}

/// The names of the columns, in order.
pub open spec fn names_of(cols: Seq<Column>) -> Seq<Seq<char>> {
    cols.map_values(|c: Column| c.name@)
}

/// Whether `r` holds the entries of the one-dimensional array `a` at `idx`, in order.
pub open spec fn is_gather(a: DynArray, idx: Seq<usize>, r: DynArray) -> bool {
    &&& r.wf()
    &&& r.scalar_type() == a.scalar_type()
    &&& r.shape_view() == seq![idx.len() as usize]
    &&& forall|i: int| 0 <= i < idx.len() ==> #[trigger] r.element_at(i) == a.element_at(idx[i] as int)
}

/// The entries of a one-dimensional array at `idx`, in order.
pub fn take_1d(a: &DynArray, idx: &Vec<usize>) -> (r: Result<DynArray, Error>)
    requires
        a.wf(),
        a.shape_view().len() == 1,
    ensures
        all_below(idx@, a.shape_view()[0]) ==> (r matches Ok(b) && is_gather(*a, idx@, b)),
        !all_below(idx@, a.shape_view()[0]) ==> r == Err::<DynArray, Error>(Error::Bounds),
{
    let ghost sh = a.shape_view();
    let n = idx.len();
    assert(n == idx@.len());
    let e = SelectInfoElem::Index(duplicate_vec(idx));
    let info = SelectInfo::new(vec![e]);
    assert(info.elems@ =~= seq![e]);
    match a.select(&info) {
        Ok(b) => {
            proof {
                let len = sh[0];
                assert(sh =~= seq![len]);
                let l = e.indices(len as nat);
                assert(l == ints(idx@));
                lemma_indices_len_fits(e, len as nat);
                lemma_dyn_selection_elements(*a, info, b);
                assert(info.index_lists(sh) =~= seq![l]);
                lemma_positions_1d(len, l);
                reveal_with_fuel(out_shape_of, 2);
                assert(info.elems@.drop_last() =~= Seq::<SelectInfoElem>::empty());
                assert(sh.drop_last() =~= Seq::<usize>::empty());
                assert(info.out_shape(sh) =~= seq![idx@.len() as usize]);
                assert forall|i: int| 0 <= i < idx@.len() implies #[trigger] b.element_at(i)
                    == a.element_at(idx@[i] as int) by {
                    assert(positions(sh, info.index_lists(sh))[i] == l[i]);
                }
            }
            Ok(b)
        },
        Err(e) => Err(e),
    }
}

impl DataFrame {
    /// Number of rows: the length of the columns, or zero without columns.
    pub open spec fn height(&self) -> nat {
        if self.columns@.len() == 0 {
            0
        } else {
            self.columns@[0].values.shape_view()[0] as nat
        }
    }

    /// Every column is a one-dimensional array with one entry per row.
    pub open spec fn wf(&self) -> bool {
        forall|k: int|
            0 <= k < self.columns@.len() ==> (#[trigger] self.columns@[k]).values.wf()
                && self.columns@[k].values.shape_view().len() == 1
                && self.columns@[k].values.shape_view()[0] == self.height()
    }

    /// Builds a frame from columns, which must be one-dimensional arrays of one length.
    pub fn new(index_name: String, columns: Vec<Column>) -> (r: Result<DataFrame, Error>)
        ensures
            r matches Ok(f) ==> f.wf() && f.index_name == index_name && f.columns == columns,
            r is Err ==> r == Err::<DataFrame, Error>(Error::ShapeMismatch),
            (DataFrame { index_name, columns }).wf() ==> r is Ok,
    {
        let mut k: usize = 0;
        let mut h: usize = 0;
        while k < columns.len()
            invariant
                k <= columns@.len(),
                k > 0 ==> h == columns@[0].values.shape_view()[0],
                forall|j: int|
                    0 <= j < k ==> (#[trigger] columns@[j]).values.wf()
                        && columns@[j].values.shape_view().len() == 1
                        && columns@[j].values.shape_view()[0] == columns@[0].values.shape_view()[0],
            decreases columns@.len() - k,
        {
            let v = &columns[k].values;
            if !v.is_wf() || v.ndim() != 1 {
                return Err(Error::ShapeMismatch);
            }
            let shape = v.shape();
            if k == 0 {
                h = shape[0];
            } else if shape[0] != h {
                return Err(Error::ShapeMismatch);
            }
            k = k + 1;
        }
        Ok(DataFrame { index_name, columns })
    }

    /// Number of rows.
    pub fn nrows(&self) -> (r: usize)
        requires
            self.wf(),
        ensures
            r == self.height(),
    {
        if self.columns.len() == 0 {
            0
        } else {
            let shape = self.columns[0].values.shape();
            shape[0]
        }
    }

    /// The column names, in order.
    pub fn column_names(&self) -> (r: Vec<String>)
        ensures
            r@.map_values(|s: String| s@) == names_of(self.columns@),
    {
        let mut out: Vec<String> = Vec::new();
        let mut k: usize = 0;
        while k < self.columns.len()
            invariant
                k <= self.columns@.len(),
                out@.len() == k,
                forall|j: int| 0 <= j < k ==> (#[trigger] out@[j])@ == self.columns@[j].name@,
            decreases self.columns@.len() - k,
        {
            out.push(self.columns[k].name.clone());
            k = k + 1;
        }
        assert(out@.map_values(|s: String| s@) =~= names_of(self.columns@));
        out
    }

    /// The rows `idx` of every column, in order.
    pub fn select_rows(&self, idx: &Vec<usize>) -> (r: Result<DataFrame, Error>)
        requires
            self.wf(),
        ensures
            self.columns@.len() > 0 && !all_below(idx@, self.height() as usize) ==> r == Err::<
                DataFrame,
                Error,
            >(Error::Bounds),
            (self.columns@.len() == 0 || all_below(idx@, self.height() as usize)) ==> (r matches Ok(f)
                && f.wf() && f.index_name@ == self.index_name@ && f.columns@.len()
                == self.columns@.len() && names_of(f.columns@) == names_of(self.columns@)
                && forall|k: int|
                0 <= k < self.columns@.len() ==> is_gather(
                    #[trigger] self.columns@[k].values,
                    idx@,
                    f.columns@[k].values,
                )),
    {
        let mut cols: Vec<Column> = Vec::new();
        let mut k: usize = 0;
        while k < self.columns.len()
            invariant
                self.wf(),
                k <= self.columns@.len(),
                cols@.len() == k,
                k > 0 ==> all_below(idx@, self.height() as usize),
                forall|j: int|
                    0 <= j < k ==> (#[trigger] cols@[j]).name@ == self.columns@[j].name@ && is_gather(
                        self.columns@[j].values,
                        idx@,
                        cols@[j].values,
                    ),
            decreases self.columns@.len() - k,
        {
            let c = &self.columns[k];
            match take_1d(&c.values, idx) {
                Ok(v) => {
                    cols.push(Column { name: c.name.clone(), values: v });
                },
                Err(e) => {
                    return Err(e);
                },
            }
            k = k + 1;
        }
        let f = DataFrame { index_name: self.index_name.clone(), columns: cols };
        assert(names_of(f.columns@) =~= names_of(self.columns@));
        Ok(f)
    }
}

/// The names held by a one-dimensional string array.
pub open spec fn names_in(a: DynArray) -> Option<Seq<Seq<char>>> {
    match a {
        DynArray::String(x) => if x.shape@.len() == 1 && x.data@.len() == x.shape@[0] {
            Some(x.data@.map_values(|s: String| s@))
        } else {
            None
        },
        _ => None,
    }
}

/// The `column-order` attribute of a container, where it is a list of names.
pub open spec fn order_of(c: DataContainer) -> Option<Seq<Seq<char>>> {
    match c {
        DataContainer::Group(g) => match attr_lookup(g.attrs@, "column-order"@) {
            Some(a) => names_in(a),
            None => None,
        },
        DataContainer::Dataset(_) => None,
    }
}

/// The `_index` attribute of a container.
pub open spec fn index_of(c: DataContainer) -> Option<Seq<char>> {
    match c {
        DataContainer::Group(g) => str_attr(g.attrs@, "_index"@),
        DataContainer::Dataset(_) => None,
    }
}

/// Whether a frame can be read from `c`: a group with both attributes and a member for every
/// listed column.
pub open spec fn frame_readable(c: DataContainer) -> bool {
    &&& c is Group
    &&& index_of(c) is Some
    &&& order_of(c) is Some
    &&& forall|k: int|
        0 <= k < order_of(c)->0.len() ==> member_lookup(c->Group_0.members@, #[trigger] order_of(c)->0[k]) is Some
}

/// Whether `c` is what writing `df` produces: a group tagged `dataframe` with one member per
/// column, in order, the column names in `column-order` and the index column's name in `_index`.
pub open spec fn frame_written(df: DataFrame, c: DataContainer) -> bool {
    &&& c is Group
    &&& str_attr(c->Group_0.attrs@, "encoding-type"@) == Some("dataframe"@)
    &&& version_ok(c->Group_0.attrs@)
    &&& index_of(c) == Some(df.index_name@)
    &&& order_of(c) == Some(names_of(df.columns@))
    &&& c->Group_0.members@.len() == df.columns@.len()
    &&& forall|k: int|
        0 <= k < df.columns@.len() ==> (#[trigger] c->Group_0.members@[k]).name@ == df.columns@[k].name@
            && c->Group_0.members@[k].dataset.data.same_as(df.columns@[k].values)
}

proof fn lemma_member_some(members: Seq<Member>, name: Seq<char>, k: int)
    requires
        0 <= k < members.len(),
        members[k].name@ == name,
    ensures
        member_lookup(members, name) is Some,
    decreases k,
{
    if k > 0 && members[0].name@ != name {
        lemma_member_some(members.drop_first(), name, k - 1);
    }
}

impl DataFrame {
    /// Writes the frame as a group with one dataset per column.
    pub fn write(&self) -> (r: DataContainer)
        ensures
            frame_written(*self, r),
    {
        let mut g = Group::new();
        let mut k: usize = 0;
        while k < self.columns.len()
            invariant
                k <= self.columns@.len(),
                g.attrs@.len() == 0,
                g.members@.len() == k,
                forall|j: int|
                    0 <= j < k ==> (#[trigger] g.members@[j]).name@ == self.columns@[j].name@
                        && g.members@[j].dataset.data.same_as(self.columns@[j].values),
            decreases self.columns@.len() - k,
        {
            let c = self.columns[k].values.write(&WriteConfig::default());
            let d = match c {
                DataContainer::Dataset(d) => d,
                DataContainer::Group(_) => vstd::pervasive::unreached(),
            };
            g.members.push(Member { name: self.columns[k].name.clone(), dataset: d });
            k = k + 1;
        }
        let names = self.column_names();
        let n = names.len();
        let order = DynArray::String(NdArray { shape: vec![n], data: names });
        let ghost members = g.members;
        g.new_str_attr("encoding-type", "dataframe");
        let ghost a1 = g.attrs@;
        g.new_str_attr("encoding-version", "0.2.0");
        let ghost a2 = g.attrs@;
        g.new_str_attr("_index", self.index_name.as_str());
        let ghost a3 = g.attrs@;
        g.new_array_attr("column-order", order);
        proof {
            lemma_tag_lengths();
            assert(attr_lookup(g.attrs@, "_index"@) == attr_lookup(a3, "_index"@));
            assert(attr_lookup(g.attrs@, "encoding-version"@) == attr_lookup(a2, "encoding-version"@));
            assert(attr_lookup(g.attrs@, "encoding-type"@) == attr_lookup(a1, "encoding-type"@));
            assert(names_in(order) == Some(names_of(self.columns@)));
        }
        DataContainer::Group(g)
    }

    /// Reads a frame written by `write`.
    pub fn read(c: &DataContainer) -> (r: Result<DataFrame, Error>)
        ensures
            frame_readable(*c) ==> r is Ok,
            r matches Ok(f) ==> f.index_name@ == index_of(*c)->0 && names_of(f.columns@) == order_of(*c)->0,
            r matches Ok(f) ==> forall|k: int|
                0 <= k < f.columns@.len() ==> member_lookup(c->Group_0.members@, #[trigger] f.columns@[k].name@)
                    is Some && f.columns@[k].values.same_as(
                    member_lookup(c->Group_0.members@, f.columns@[k].name@)->0.data,
                ),
    {
        let g = match c {
            DataContainer::Group(g) => g,
            DataContainer::Dataset(_) => {
                return Err(Error::DTypeMismatch);
            },
        };
        let index_name = match g.get_str_attr("_index") {
            Ok(s) => s,
            Err(e) => {
                return Err(e);
            },
        };
        let names = match g.get_array_attr("column-order") {
            Ok(DynArray::String(x)) => {
                if x.shape.len() != 1 || x.data.len() != x.shape[0] {
                    return Err(Error::DTypeMismatch);
                }
                &x.data
            },
            Ok(_) => {
                return Err(Error::DTypeMismatch);
            },
            Err(e) => {
                return Err(e);
            },
        };
        let ghost want = order_of(*c)->0;
        assert(names@.map_values(|s: String| s@) == want);
        let mut columns: Vec<Column> = Vec::new();
        let mut k: usize = 0;
        while k < names.len()
            invariant
                k <= names@.len(),
                want == names@.map_values(|s: String| s@),
                *c == DataContainer::Group(*g),
                order_of(*c) == Some(want),
                columns@.len() == k,
                forall|j: int| 0 <= j < k ==> (#[trigger] columns@[j]).name@ == names@[j]@,
                forall|j: int|
                    0 <= j < k ==> member_lookup(g.members@, (#[trigger] columns@[j]).name@) is Some
                        && columns@[j].values.same_as(member_lookup(g.members@, columns@[j].name@)->0.data),
                frame_readable(*c) ==> forall|j: int|
                    0 <= j < want.len() ==> member_lookup(g.members@, #[trigger] want[j]) is Some,
            decreases names@.len() - k,
        {
            let d = match g.open_dataset(names[k].as_str()) {
                Ok(d) => d,
                Err(e) => {
                    proof {
                        if frame_readable(*c) {
                            assert(member_lookup(g.members@, want[k as int]) is Some);
                        }
                    }
                    return Err(e);
                },
            };
            columns.push(Column { name: names[k].clone(), values: d.data.copy() });
            k = k + 1;
        }
        let f = DataFrame { index_name, columns };
        assert(names_of(f.columns@) =~= want);
        Ok(f)
    }
}

/// Reading back a written frame keeps the order of the columns and the name of the index column.
pub proof fn lemma_frame_round_trip(df: DataFrame, c: DataContainer)
    requires
        frame_written(df, c),
    ensures
        frame_readable(c),
        order_of(c) == Some(names_of(df.columns@)),
        index_of(c) == Some(df.index_name@),
        crate::encoding::type_of(c) == Ok::<crate::datatype::DataType, Error>(
            crate::datatype::DataType::DataFrame,
        ),
{
    lemma_tag_lengths();
    let g = c->Group_0;
    assert forall|k: int| 0 <= k < order_of(c)->0.len() implies member_lookup(g.members@, #[trigger] order_of(c)->0[k]) is Some by {
        assert(order_of(c)->0[k] == df.columns@[k].name@);
        assert(g.members@[k].name@ == df.columns@[k].name@);
        lemma_member_some(g.members@, df.columns@[k].name@, k);
    }
}

} // verus!
