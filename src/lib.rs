use vstd::prelude::*;

pub mod anndata;
pub mod array;
pub mod collection;
pub mod config;
pub mod container;
pub mod datatype;
pub mod dynamic;
pub mod element;
pub mod encoding;
pub mod error;
pub mod frame;
pub mod layout;
pub mod selection;
pub mod shape;
pub mod sparse;

verus! {

} // verus!
