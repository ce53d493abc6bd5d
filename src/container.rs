use vstd::prelude::*;
use crate::array::NdArray;
use crate::config::WriteConfig;
use crate::dynamic::DynArray;
use crate::error::Error;

verus! {

/// A named attribute of a group or dataset.
#[derive(Debug)]
pub struct Attr {
    pub name: String,
    pub value: DynArray,
}

/// A stored array with its layout and attributes.
#[derive(Debug)]
pub struct Dataset {
    pub data: DynArray,
    pub config: WriteConfig,
    pub attrs: Vec<Attr>,
}

/// A named dataset inside a group.
#[derive(Debug)]
pub struct Member {
    pub name: String,
    pub dataset: Dataset,
}

/// A group of named datasets with attributes.
#[derive(Debug)]
pub struct Group {
    pub members: Vec<Member>,
    pub attrs: Vec<Attr>,
}

/// A stored entity: a group or a dataset.
#[derive(Debug)]
pub enum DataContainer {
    Group(Group),
    Dataset(Dataset),
}

/// The value of the first attribute named `name`.
pub open spec fn attr_lookup(attrs: Seq<Attr>, name: Seq<char>) -> Option<DynArray>
    decreases attrs.len(),
{
    if attrs.len() == 0 {
        None
    } else if attrs[0].name@ == name {
        Some(attrs[0].value)
    } else {
        attr_lookup(attrs.drop_first(), name)
    }
}

/// The dataset of the first member named `name`.
pub open spec fn member_lookup(members: Seq<Member>, name: Seq<char>) -> Option<Dataset>
    decreases members.len(),
{
    if members.len() == 0 {
        None
    } else if members[0].name@ == name {
        Some(members[0].dataset)
    } else {
        member_lookup(members.drop_first(), name)
    }
}

/// The string held by a scalar string array.
pub open spec fn str_of(a: DynArray) -> Option<Seq<char>> {
    match a {
        DynArray::String(x) => if x.shape@.len() == 0 && x.data@.len() == 1 {
            Some(x.data@[0]@)
        } else {
            None
        },
        _ => None,
    }
}

/// The string attribute `name`, where there is one.
pub open spec fn str_attr(attrs: Seq<Attr>, name: Seq<char>) -> Option<Seq<char>> {
    match attr_lookup(attrs, name) {
        Some(a) => str_of(a),
        None => None,
    }
}

proof fn lemma_attr_lookup_first(attrs: Seq<Attr>, name: Seq<char>, i: int)
    requires
        0 <= i < attrs.len(),
        attrs[i].name@ == name,
        forall|j: int| 0 <= j < i ==> (#[trigger] attrs[j]).name@ != name,
    ensures
        attr_lookup(attrs, name) == Some(attrs[i].value),
    decreases i,
{
    if i > 0 {
        lemma_attr_lookup_first(attrs.drop_first(), name, i - 1);
    }
}

proof fn lemma_attr_lookup_none(attrs: Seq<Attr>, name: Seq<char>)
    requires
        forall|j: int| 0 <= j < attrs.len() ==> (#[trigger] attrs[j]).name@ != name,
    ensures
        attr_lookup(attrs, name) is None,
    decreases attrs.len(),
{
    if attrs.len() > 0 {
        lemma_attr_lookup_none(attrs.drop_first(), name);
    }
}

/// Lookups of other names are unaffected by replacing the value of entry `i`, or by adding an
/// entry, with the name `name`.
proof fn lemma_attr_lookup_other(attrs: Seq<Attr>, after: Seq<Attr>, name: Seq<char>, other: Seq<char>)
    requires
        other != name,
        after.len() >= attrs.len(),
        forall|j: int| 0 <= j < attrs.len() && attrs[j].name@ != name ==> #[trigger] after[j] == attrs[j],
        forall|j: int| 0 <= j < attrs.len() && attrs[j].name@ == name ==> (#[trigger] after[j]).name@ == name,
        forall|j: int| attrs.len() <= j < after.len() ==> (#[trigger] after[j]).name@ == name,
    ensures
        attr_lookup(after, other) == attr_lookup(attrs, other),
    decreases after.len(),
{
    if after.len() > 0 {
        if attrs.len() == 0 {
            lemma_attr_lookup_none(after, other);
        } else {
            lemma_attr_lookup_other(attrs.drop_first(), after.drop_first(), name, other);
        }
    }
}

/// Position of the first entry named `name`.
fn find_attr(attrs: &Vec<Attr>, name: &String) -> (r: Option<usize>)
    ensures
        r matches Some(i) ==> i < attrs@.len() && attrs@[i as int].name@ == name@ && attr_lookup(
            attrs@,
            name@,
        ) == Some(attrs@[i as int].value) && forall|j: int|
            0 <= j < i ==> (#[trigger] attrs@[j]).name@ != name@,
        r is None ==> attr_lookup(attrs@, name@) is None,
{
    let mut i: usize = 0;
    while i < attrs.len()
        invariant
            i <= attrs@.len(),
            forall|j: int| 0 <= j < i ==> (#[trigger] attrs@[j]).name@ != name@,
        decreases attrs@.len() - i,
    {
        if attrs[i].name == *name {
            proof {
                lemma_attr_lookup_first(attrs@, name@, i as int);
            }
            return Some(i);
        }
        i = i + 1;
    }
    proof {
        lemma_attr_lookup_none(attrs@, name@);
    }
    None
}

/// Sets attribute `name` to `value`, replacing a previous value.
fn set_attr(attrs: &mut Vec<Attr>, name: String, value: DynArray)
    ensures
        attr_lookup(final(attrs)@, name@) == Some(value),
        forall|n: Seq<char>| n != name@ ==> attr_lookup(final(attrs)@, n) == attr_lookup(
            old(attrs)@,
            n,
        ),
{
    let ghost before = attrs@;
    let ghost nm = name@;
    match find_attr(attrs, &name) {
        Some(i) => {
            attrs.set(i, Attr { name, value });
            proof {
                assert forall|j: int| 0 <= j < i implies (#[trigger] attrs@[j]).name@ != nm by {
                    assert(attrs@[j] == before[j]);
                }
                lemma_attr_lookup_first(attrs@, nm, i as int);
            }
        },
        None => {
            attrs.push(Attr { name, value });
            proof {
                assert forall|j: int| 0 <= j < before.len() implies (#[trigger] attrs@[j]).name@ != nm by {
                    assert(attrs@[j] == before[j]);
                    if before[j].name@ == nm {
                        lemma_attr_lookup_some_if(before, nm, j);
                    }
                }
                lemma_attr_lookup_first(attrs@, nm, before.len() as int);
            }
        },
    }
    proof {
        assert forall|n: Seq<char>| n != nm implies attr_lookup(attrs@, n) == attr_lookup(before, n) by {
            lemma_attr_lookup_other(before, attrs@, nm, n);
        }
    }
}

proof fn lemma_attr_lookup_some_if(attrs: Seq<Attr>, name: Seq<char>, j: int)
    requires
        0 <= j < attrs.len(),
        attrs[j].name@ == name,
    ensures
        attr_lookup(attrs, name) is Some,
    decreases j,
{
    if j > 0 && attrs[0].name@ != name {
        lemma_attr_lookup_some_if(attrs.drop_first(), name, j - 1);
    }
}

/// A zero-dimensional string array holding `s`.
pub fn str_array(s: &str) -> (r: DynArray)
    ensures
        str_of(r) == Some(s@),
        r.wf(),
{
    let v: String = s.to_owned();
    let data = vec![v];
    let a = NdArray { shape: Vec::new(), data };
    assert(a.shape@ =~= Seq::<usize>::empty());
    DynArray::String(a)
}

/// Attribute operations shared by groups and datasets.
fn get_str_in(attrs: &Vec<Attr>, name: &str) -> (r: Result<String, Error>)
    ensures
        attr_lookup(attrs@, name@) is None ==> r == Err::<String, Error>(Error::NotFound),
        attr_lookup(attrs@, name@) is Some && str_of(attr_lookup(attrs@, name@)->0) is None ==> r
            == Err::<String, Error>(Error::DTypeMismatch),
        str_attr(attrs@, name@) matches Some(s) ==> (r matches Ok(t) && t@ == s),
{
    let key: String = name.to_owned();
    match find_attr(attrs, &key) {
        None => Err(Error::NotFound),
        Some(i) => match &attrs[i].value {
            DynArray::String(x) => {
                if x.shape.len() == 0 && x.data.len() == 1 {
                    Ok(x.data[0].clone())
                } else {
                    Err(Error::DTypeMismatch)
                }
            },
            _ => Err(Error::DTypeMismatch),
        },
    }
}

impl Dataset {
    /// The attribute `name`.
    pub fn get_array_attr(&self, name: &str) -> (r: Result<&DynArray, Error>)
        ensures
            attr_lookup(self.attrs@, name@) is None ==> r == Err::<&DynArray, Error>(Error::NotFound),
            attr_lookup(self.attrs@, name@) matches Some(a) ==> r == Ok::<&DynArray, Error>(&a),
    {
        let key: String = name.to_owned();
        match find_attr(&self.attrs, &key) {
            None => Err(Error::NotFound),
            Some(i) => Ok(&self.attrs[i].value),
        }
    }

    /// The string attribute `name`.
    pub fn get_str_attr(&self, name: &str) -> (r: Result<String, Error>)
        ensures
            attr_lookup(self.attrs@, name@) is None ==> r == Err::<String, Error>(Error::NotFound),
            attr_lookup(self.attrs@, name@) is Some && str_of(attr_lookup(self.attrs@, name@)->0)
                is None ==> r == Err::<String, Error>(Error::DTypeMismatch),
            str_attr(self.attrs@, name@) matches Some(s) ==> (r matches Ok(t) && t@ == s),
    {
        get_str_in(&self.attrs, name)
    }

    /// Sets attribute `name` to `value`, replacing a previous value.
    pub fn new_array_attr(&mut self, name: &str, value: DynArray)
        ensures
            attr_lookup(final(self).attrs@, name@) == Some(value),
            forall|n: Seq<char>| n != name@ ==> attr_lookup(final(self).attrs@, n) == attr_lookup(
                old(self).attrs@,
                n,
            ),
            final(self).data == old(self).data,
            final(self).config == old(self).config,
    {
        set_attr(&mut self.attrs, name.to_owned(), value);
    }

    /// Sets the string attribute `name` to `value`, replacing a previous value.
    pub fn new_str_attr(&mut self, name: &str, value: &str)
        ensures
            str_attr(final(self).attrs@, name@) == Some(value@),
            forall|n: Seq<char>| n != name@ ==> attr_lookup(final(self).attrs@, n) == attr_lookup(
                old(self).attrs@,
                n,
            ),
            final(self).data == old(self).data,
            final(self).config == old(self).config,
    {
        self.new_array_attr(name, str_array(value));
    }
}

impl Group {
    /// An empty group.
    pub fn new() -> (r: Group)
        ensures
            r.members@.len() == 0,
            r.attrs@.len() == 0,
    {
        Group { members: Vec::new(), attrs: Vec::new() }
    }

    /// The attribute `name`.
    pub fn get_array_attr(&self, name: &str) -> (r: Result<&DynArray, Error>)
        ensures
            attr_lookup(self.attrs@, name@) is None ==> r == Err::<&DynArray, Error>(Error::NotFound),
            attr_lookup(self.attrs@, name@) matches Some(a) ==> r == Ok::<&DynArray, Error>(&a),
    {
        let key: String = name.to_owned();
        match find_attr(&self.attrs, &key) {
            None => Err(Error::NotFound),
            Some(i) => Ok(&self.attrs[i].value),
        }
    }

    /// The string attribute `name`.
    pub fn get_str_attr(&self, name: &str) -> (r: Result<String, Error>)
        ensures
            attr_lookup(self.attrs@, name@) is None ==> r == Err::<String, Error>(Error::NotFound),
            attr_lookup(self.attrs@, name@) is Some && str_of(attr_lookup(self.attrs@, name@)->0)
                is None ==> r == Err::<String, Error>(Error::DTypeMismatch),
            str_attr(self.attrs@, name@) matches Some(s) ==> (r matches Ok(t) && t@ == s),
    {
        get_str_in(&self.attrs, name)
    }

    /// Sets attribute `name` to `value`, replacing a previous value.
    pub fn new_array_attr(&mut self, name: &str, value: DynArray)
        ensures
            attr_lookup(final(self).attrs@, name@) == Some(value),
            forall|n: Seq<char>| n != name@ ==> attr_lookup(final(self).attrs@, n) == attr_lookup(
                old(self).attrs@,
                n,
            ),
            final(self).members == old(self).members,
    {
        set_attr(&mut self.attrs, name.to_owned(), value);
    }

    /// Sets the string attribute `name` to `value`, replacing a previous value.
    pub fn new_str_attr(&mut self, name: &str, value: &str)
        ensures
            str_attr(final(self).attrs@, name@) == Some(value@),
            forall|n: Seq<char>| n != name@ ==> attr_lookup(final(self).attrs@, n) == attr_lookup(
                old(self).attrs@,
                n,
            ),
            final(self).members == old(self).members,
    {
        self.new_array_attr(name, str_array(value));
    }
}

} // verus!
