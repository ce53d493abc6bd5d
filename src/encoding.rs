use vstd::prelude::*;
use crate::array::{Element, NdArray};
use crate::config::{default_block, effective_compression, effective_config, WriteConfig};
use crate::container::{attr_lookup, member_lookup, str_attr, Attr, DataContainer, Dataset, Group, Member};
use crate::datatype::{DataType, ScalarType};
use crate::dynamic::{DynArray, DynScalar};
use crate::error::Error;

verus! {

/// The `encoding-type` tag of a container; groups default to `mapping` and datasets to
/// `numeric-scalar`.
pub open spec fn tag_of(c: DataContainer) -> Seq<char> {
    match c {
        DataContainer::Group(g) => match str_attr(g.attrs@, "encoding-type"@) {
            Some(t) => t,
            None => "mapping"@,
        },
        DataContainer::Dataset(d) => match str_attr(d.attrs@, "encoding-type"@) {
            Some(t) => t,
            None => "numeric-scalar"@,
        },
    }
}

/// Element type of the `data` member of a sparse group.
pub open spec fn sparse_dtype(c: DataContainer) -> Result<ScalarType, Error> {
    match c {
        DataContainer::Group(g) => match member_lookup(g.members@, "data"@) {
            Some(d) => Ok(d.data.scalar_type()),
            None => Err(Error::NotFound),
        },
        DataContainer::Dataset(_) => Err(Error::DTypeMismatch),
    }
}

/// Element type of a dataset container.
pub open spec fn dataset_dtype(c: DataContainer) -> Result<ScalarType, Error> {
    match c {
        DataContainer::Dataset(d) => Ok(d.data.scalar_type()),
        DataContainer::Group(_) => Err(Error::DTypeMismatch),
    }
}

/// What a container holds, as its tag says.
pub open spec fn type_of(c: DataContainer) -> Result<DataType, Error> {
    let t = tag_of(c);
    if t == "string"@ {
        Ok(DataType::Scalar(ScalarType::String))
    } else if t == "numeric-scalar"@ {
        match dataset_dtype(c) {
            Ok(s) => Ok(DataType::Scalar(s)),
            Err(e) => Err(e),
        }
    } else if t == "categorical"@ {
        Ok(DataType::Categorical)
    } else if t == "string-array"@ {
        Ok(DataType::Array(ScalarType::String))
    } else if t == "array"@ {
        match dataset_dtype(c) {
            Ok(s) => Ok(DataType::Array(s)),
            Err(e) => Err(e),
        }
    } else if t == "csc_matrix"@ {
        match sparse_dtype(c) {
            Ok(s) => Ok(DataType::CscMatrix(s)),
            Err(e) => Err(e),
        }
    } else if t == "csr_matrix"@ {
        match sparse_dtype(c) {
            Ok(s) => Ok(DataType::CsrMatrix(s)),
            Err(e) => Err(e),
        }
    } else if t == "dataframe"@ {
        Ok(DataType::DataFrame)
    } else if t == "mapping"@ || t == "dict"@ {
        Ok(DataType::Mapping)
    } else {
        Err(Error::EncodingUnsupported)
    }
}

/// The lengths of the tags and attribute names, which tell most of them apart.
pub proof fn lemma_tag_lengths()
    ensures
        "string"@.len() == 6,
        "numeric-scalar"@.len() == 14,
        "categorical"@.len() == 11,
        "string-array"@.len() == 12,
        "array"@.len() == 5,
        "csc_matrix"@.len() == 10,
        "csr_matrix"@.len() == 10,
        "csc_matrix"@ != "csr_matrix"@,
        "dataframe"@.len() == 9,
        "mapping"@.len() == 7,
        "dict"@.len() == 4,
        "encoding-type"@.len() == 13,
        "encoding-version"@.len() == 16,
        "shape"@.len() == 5,
        "_index"@.len() == 6,
        "column-order"@.len() == 12,
{
    reveal_strlit("string");
    reveal_strlit("numeric-scalar");
    reveal_strlit("categorical");
    reveal_strlit("string-array");
    reveal_strlit("array");
    reveal_strlit("csc_matrix");
    reveal_strlit("csr_matrix");
    assert("csc_matrix"@[2] != "csr_matrix"@[2]);
    reveal_strlit("dataframe");
    reveal_strlit("mapping");
    reveal_strlit("dict");
    reveal_strlit("encoding-type");
    reveal_strlit("encoding-version");
    reveal_strlit("shape");
    reveal_strlit("_index");
    reveal_strlit("column-order");
}

/// Whether `t` has the same characters as `lit`.
fn is_tag(t: &String, lit: &str) -> (r: bool)
    ensures
        r == (t@ == lit@),
{
    let l: String = lit.to_owned();
    *t == l
}

/// Position of the first member named `name`.
fn find_member(members: &Vec<Member>, name: &str) -> (r: Option<usize>)
    ensures
        r matches Some(i) ==> i < members@.len() && member_lookup(members@, name@) == Some(
            members@[i as int].dataset,
        ),
        r is None ==> member_lookup(members@, name@) is None,
{
    let key: String = name.to_owned();
    let mut i: usize = 0;
    while i < members.len()
        invariant
            i <= members@.len(),
            key@ == name@,
            forall|j: int| 0 <= j < i ==> (#[trigger] members@[j]).name@ != name@,
        decreases members@.len() - i,
    {
        if members[i].name == key {
            proof {
                lemma_member_first(members@, name@, i as int);
            }
            return Some(i);
        }
        i = i + 1;
    }
    proof {
        lemma_member_none(members@, name@);
    }
    None
}

proof fn lemma_member_first(members: Seq<Member>, name: Seq<char>, i: int)
    requires
        0 <= i < members.len(),
        members[i].name@ == name,
        forall|j: int| 0 <= j < i ==> (#[trigger] members[j]).name@ != name,
    ensures
        member_lookup(members, name) == Some(members[i].dataset),
    decreases i,
{
    if i > 0 {
        lemma_member_first(members.drop_first(), name, i - 1);
    }
}

proof fn lemma_member_none(members: Seq<Member>, name: Seq<char>)
    requires
        forall|j: int| 0 <= j < members.len() ==> (#[trigger] members[j]).name@ != name,
    ensures
        member_lookup(members, name) is None,
    decreases members.len(),
{
    if members.len() > 0 {
        lemma_member_none(members.drop_first(), name);
    }
}

impl Group {
    /// The dataset named `name` in the group.
    pub fn open_dataset(&self, name: &str) -> (r: Result<&Dataset, Error>)
        ensures
            member_lookup(self.members@, name@) is None ==> r == Err::<&Dataset, Error>(
                Error::NotFound,
            ),
            member_lookup(self.members@, name@) matches Some(d) ==> r == Ok::<&Dataset, Error>(&d),
    {
        match find_member(&self.members, name) {
            Some(i) => Ok(&self.members[i].dataset),
            None => Err(Error::NotFound),
        }
    }

    /// Whether the group has a dataset named `name`.
    pub fn contains(&self, name: &str) -> (r: bool)
        ensures
            r == member_lookup(self.members@, name@) is Some,
    {
        find_member(&self.members, name).is_some()
    }
}

impl DataContainer {
    /// The group, where the container is one.
    pub fn as_group(&self) -> (r: Result<&Group, Error>)
        ensures
            self matches DataContainer::Group(g) ==> r == Ok::<&Group, Error>(&g),
            self is Dataset ==> r == Err::<&Group, Error>(Error::DTypeMismatch),
    {
        match self {
            DataContainer::Group(g) => Ok(g),
            DataContainer::Dataset(_) => Err(Error::DTypeMismatch),
        }
    }

    /// The dataset, where the container is one.
    pub fn as_dataset(&self) -> (r: Result<&Dataset, Error>)
        ensures
            self matches DataContainer::Dataset(d) ==> r == Ok::<&Dataset, Error>(&d),
            self is Group ==> r == Err::<&Dataset, Error>(Error::DTypeMismatch),
    {
        match self {
            DataContainer::Dataset(d) => Ok(d),
            DataContainer::Group(_) => Err(Error::DTypeMismatch),
        }
    }

    /// The container's `encoding-type` tag, or the default for its kind.
    pub fn encoding_tag(&self) -> (r: String)
        ensures
            r@ == tag_of(*self),
    {
        match self {
            DataContainer::Group(g) => match g.get_str_attr("encoding-type") {
                Ok(t) => t,
                Err(_) => "mapping".to_owned(),
            },
            DataContainer::Dataset(d) => match d.get_str_attr("encoding-type") {
                Ok(t) => t,
                Err(_) => "numeric-scalar".to_owned(),
            },
        }
    }

    /// What the container holds, as its `encoding-type` tag says.
    pub fn encoding_type(&self) -> (r: Result<DataType, Error>)
        ensures
            r == type_of(*self),
    {
        let t = self.encoding_tag();
        if is_tag(&t, "string") {
            Ok(DataType::Scalar(ScalarType::String))
        } else if is_tag(&t, "numeric-scalar") {
            match self.as_dataset() {
                Ok(d) => Ok(DataType::Scalar(d.data.dtype())),
                Err(e) => Err(e),
            }
        } else if is_tag(&t, "categorical") {
            Ok(DataType::Categorical)
        } else if is_tag(&t, "string-array") {
            Ok(DataType::Array(ScalarType::String))
        } else if is_tag(&t, "array") {
            match self.as_dataset() {
                Ok(d) => Ok(DataType::Array(d.data.dtype())),
                Err(e) => Err(e),
            }
        } else if is_tag(&t, "csc_matrix") {
            match self.sparse_data_type() {
                Ok(s) => Ok(DataType::CscMatrix(s)),
                Err(e) => Err(e),
            }
        } else if is_tag(&t, "csr_matrix") {
            match self.sparse_data_type() {
                Ok(s) => Ok(DataType::CsrMatrix(s)),
                Err(e) => Err(e),
            }
        } else if is_tag(&t, "dataframe") {
            Ok(DataType::DataFrame)
        } else if is_tag(&t, "mapping") || is_tag(&t, "dict") {
            Ok(DataType::Mapping)
        } else {
            Err(Error::EncodingUnsupported)
        }
    }

    fn sparse_data_type(&self) -> (r: Result<ScalarType, Error>)
        ensures
            r == sparse_dtype(*self),
    {
        match self.as_group() {
            Ok(g) => match g.open_dataset("data") {
                Ok(d) => Ok(d.data.dtype()),
                Err(e) => Err(e),
            },
            Err(e) => Err(e),
        }
    }
}

/// The scalar held by a zero-dimensional array of one element.
pub open spec fn scalar_in(a: DynArray) -> Option<DynScalar> {
    if a.shape_view().len() == 0 && a.len_view() == 1 {
        Some(a.element_at(0))
    } else {
        None
    }
}

/// The tag a scalar is written with.
pub open spec fn scalar_tag(s: DynScalar) -> Seq<char> {
    if s is String {
        "string"@
    } else {
        "numeric-scalar"@
    }
}

/// The tag an array is written with.
pub open spec fn array_tag(a: DynArray) -> Seq<char> {
    if a.scalar_type() == ScalarType::String {
        "string-array"@
    } else {
        "array"@
    }
}

/// Version written beside every tag.
pub open spec fn version_ok(attrs: Seq<Attr>) -> bool {
    str_attr(attrs, "encoding-version"@) == Some("0.2.0"@)
}

/// Whether `c` is what writing the scalar `s` produces: a dataset holding `s` with no axes,
/// tagged for its type.
pub open spec fn scalar_written(s: DynScalar, c: DataContainer) -> bool {
    &&& c is Dataset
    &&& scalar_in(c->Dataset_0.data) == Some(s)
    &&& c->Dataset_0.data.wf()
    &&& str_attr(c->Dataset_0.attrs@, "encoding-type"@) == Some(scalar_tag(s))
    &&& version_ok(c->Dataset_0.attrs@)
}

/// What reading a scalar from `c` gives.
pub open spec fn scalar_read(c: DataContainer) -> Result<DynScalar, Error> {
    match c {
        DataContainer::Group(_) => Err(Error::DTypeMismatch),
        DataContainer::Dataset(d) => match scalar_in(d.data) {
            Some(s) => Ok(s),
            None => Err(Error::ShapeMismatch),
        },
    }
}

/// Whether `c` is what writing the array `a` with `config` produces: a dataset holding the
/// elements of `a`, tagged for its type, compressed only when it has more than a hundred
/// elements, with the given block shape or else the default one for its shape.
pub open spec fn array_written(a: DynArray, config: WriteConfig, c: DataContainer) -> bool {
    &&& c is Dataset
    &&& c->Dataset_0.data.same_as(a)
    &&& c->Dataset_0.data.wf() == a.wf()
    &&& str_attr(c->Dataset_0.attrs@, "encoding-type"@) == Some(array_tag(a))
    &&& version_ok(c->Dataset_0.attrs@)
    &&& c->Dataset_0.config.compression == effective_compression(config.compression, a.len_view())
    &&& c->Dataset_0.config.block_size is Some
    &&& config.block_size is Some ==> c->Dataset_0.config.block_size->0@ == config.block_size->0@
    &&& config.block_size is None ==> c->Dataset_0.config.block_size->0@ == default_block(
        a.shape_view(),
    )
}

/// What reading an array from `c` gives.
pub open spec fn array_read(c: DataContainer) -> Result<DynArray, Error> {
    match c {
        DataContainer::Group(_) => Err(Error::DTypeMismatch),
        DataContainer::Dataset(d) => Ok(d.data),
    }
}

/// A dataset holding `data`, laid out by `config`, with the two encoding attributes.
fn tagged_dataset(data: DynArray, config: WriteConfig, tag: &str) -> (r: Dataset)
    ensures
        r.data == data,
        r.config == config,
        str_attr(r.attrs@, "encoding-type"@) == Some(tag@),
        version_ok(r.attrs@),
{
    let mut d = Dataset { data, config, attrs: Vec::new() };
    d.new_str_attr("encoding-type", tag);
    let ghost mid = d.attrs@;
    d.new_str_attr("encoding-version", "0.2.0");
    proof {
        lemma_tag_lengths();
        assert(attr_lookup(d.attrs@, "encoding-type"@) == attr_lookup(mid, "encoding-type"@));
    }
    d
}

/// An array with no axes holding `v`.
fn zero_dim<T: Element>(v: T) -> (r: NdArray<T>)
    ensures
        r.shape@.len() == 0,
        r.data@ == seq![v],
        r.wf(),
{
    let r = NdArray { shape: Vec::new(), data: vec![v] };
    assert(r.data@ =~= seq![v]);
    r
}

impl DynScalar {
    /// The scalar as a zero-dimensional array.
    pub fn to_array(&self) -> (r: DynArray)
        ensures
            scalar_in(r) == Some(*self),
            r.wf(),
    {
        match self {
            DynScalar::I8(x) => DynArray::I8(zero_dim(x.duplicate())),
            DynScalar::I16(x) => DynArray::I16(zero_dim(x.duplicate())),
            DynScalar::I32(x) => DynArray::I32(zero_dim(x.duplicate())),
            DynScalar::I64(x) => DynArray::I64(zero_dim(x.duplicate())),
            DynScalar::U8(x) => DynArray::U8(zero_dim(x.duplicate())),
            DynScalar::U16(x) => DynArray::U16(zero_dim(x.duplicate())),
            DynScalar::U32(x) => DynArray::U32(zero_dim(x.duplicate())),
            DynScalar::U64(x) => DynArray::U64(zero_dim(x.duplicate())),
            DynScalar::F32(x) => DynArray::F32(zero_dim(x.duplicate())),
            DynScalar::F64(x) => DynArray::F64(zero_dim(x.duplicate())),
            DynScalar::Bool(x) => DynArray::Bool(zero_dim(x.duplicate())),
            DynScalar::String(x) => DynArray::String(zero_dim(x.duplicate())),
        }
    }

    /// Writes the scalar as a dataset with no axes.
    pub fn write(&self) -> (r: DataContainer)
        ensures
            scalar_written(*self, r),
    {
        let data = self.to_array();
        let shape: Vec<usize> = Vec::new();
        let config = effective_config(&WriteConfig::default(), &shape, 1);
        let tag = match self {
            DynScalar::String(_) => "string",
            _ => "numeric-scalar",
        };
        DataContainer::Dataset(tagged_dataset(data, config, tag))
    }

    /// Reads a scalar from a dataset with no axes.
    pub fn read(c: &DataContainer) -> (r: Result<DynScalar, Error>)
        ensures
            r == scalar_read(*c),
    {
        match c {
            DataContainer::Group(_) => Err(Error::DTypeMismatch),
            DataContainer::Dataset(d) => match &d.data {
                DynArray::I8(x) => if x.shape.len() == 0 && x.data.len() == 1 {
                    Ok(DynScalar::I8(x.data[0].duplicate()))
                } else {
                    Err(Error::ShapeMismatch)
                },
                DynArray::I16(x) => if x.shape.len() == 0 && x.data.len() == 1 {
                    Ok(DynScalar::I16(x.data[0].duplicate()))
                } else {
                    Err(Error::ShapeMismatch)
                },
                DynArray::I32(x) => if x.shape.len() == 0 && x.data.len() == 1 {
                    Ok(DynScalar::I32(x.data[0].duplicate()))
                } else {
                    Err(Error::ShapeMismatch)
                },
                DynArray::I64(x) => if x.shape.len() == 0 && x.data.len() == 1 {
                    Ok(DynScalar::I64(x.data[0].duplicate()))
                } else {
                    Err(Error::ShapeMismatch)
                },
                DynArray::U8(x) => if x.shape.len() == 0 && x.data.len() == 1 {
                    Ok(DynScalar::U8(x.data[0].duplicate()))
                } else {
                    Err(Error::ShapeMismatch)
                },
                DynArray::U16(x) => if x.shape.len() == 0 && x.data.len() == 1 {
                    Ok(DynScalar::U16(x.data[0].duplicate()))
                } else {
                    Err(Error::ShapeMismatch)
                },
                DynArray::U32(x) => if x.shape.len() == 0 && x.data.len() == 1 {
                    Ok(DynScalar::U32(x.data[0].duplicate()))
                } else {
                    Err(Error::ShapeMismatch)
                },
                DynArray::U64(x) => if x.shape.len() == 0 && x.data.len() == 1 {
                    Ok(DynScalar::U64(x.data[0].duplicate()))
                } else {
                    Err(Error::ShapeMismatch)
                },
                DynArray::F32(x) => if x.shape.len() == 0 && x.data.len() == 1 {
                    Ok(DynScalar::F32(x.data[0].duplicate()))
                } else {
                    Err(Error::ShapeMismatch)
                },
                DynArray::F64(x) => if x.shape.len() == 0 && x.data.len() == 1 {
                    Ok(DynScalar::F64(x.data[0].duplicate()))
                } else {
                    Err(Error::ShapeMismatch)
                },
                DynArray::Bool(x) => if x.shape.len() == 0 && x.data.len() == 1 {
                    Ok(DynScalar::Bool(x.data[0].duplicate()))
                } else {
                    Err(Error::ShapeMismatch)
                },
                DynArray::String(x) => if x.shape.len() == 0 && x.data.len() == 1 {
                    Ok(DynScalar::String(x.data[0].duplicate()))
                } else {
                    Err(Error::ShapeMismatch)
                },
            },
        }
    }
}

impl DynArray {
    /// Writes the array as a dataset laid out by `config`.
    pub fn write(&self, config: &WriteConfig) -> (r: DataContainer)
        ensures
            array_written(*self, *config, r),
    {
        let shape = self.shape();
        let len = self.len();
        let cfg = effective_config(config, &shape, len);
        let tag = match self {
            DynArray::String(_) => "string-array",
            _ => "array",
        };
        DataContainer::Dataset(tagged_dataset(self.copy(), cfg, tag))
    }

    /// Reads an array from a dataset.
    pub fn read(c: &DataContainer) -> (r: Result<DynArray, Error>)
        ensures
            array_read(*c) is Err ==> r == array_read(*c),
            array_read(*c) matches Ok(a) ==> (r matches Ok(x) && x.same_as(a) && x.wf() == a.wf()),
    {
        match c {
            DataContainer::Group(_) => Err(Error::DTypeMismatch),
            DataContainer::Dataset(d) => Ok(d.data.copy()),
        }
    }
}

/// Reading back a written scalar gives the scalar, and the container reports the scalar's type.
pub proof fn lemma_scalar_round_trip(s: DynScalar, c: DataContainer)
    requires
        scalar_written(s, c),
    ensures
        scalar_read(c) == Ok::<DynScalar, Error>(s),
        type_of(c) == Ok::<DataType, Error>(DataType::Scalar(s.scalar_type())),
{
    lemma_tag_lengths();
    let d = c->Dataset_0;
    if !(s is String) {
        assert(scalar_in(d.data) == Some(s));
        assert(d.data.element_at(0) == s);
        assert(d.data.scalar_type() == s.scalar_type());
    }
}

/// Reading back a written array gives an array with the same type, shape and elements, and the
/// container reports the array's type.
pub proof fn lemma_array_round_trip(a: DynArray, config: WriteConfig, c: DataContainer)
    requires
        array_written(a, config, c),
    ensures
        array_read(c) matches Ok(x) && x.same_as(a),
        type_of(c) == Ok::<DataType, Error>(DataType::Array(a.scalar_type())),
{
    lemma_tag_lengths();
    let d = c->Dataset_0;
    assert(d.data.scalar_type() == a.scalar_type());
}

} // verus!
