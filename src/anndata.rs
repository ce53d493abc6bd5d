use vstd::prelude::*;
use crate::collection::{has_key, axis_len, items_len, items_shaped, entry_subset, fits, keys_of, Axis, AxisArrays, ElemCollection};
use crate::config::default_config;
use crate::container::DataContainer;
use crate::element::{ints, is_block};
use crate::encoding::array_written;
use crate::frame::{is_gather, names_of};
use crate::dynamic::DynArray;
use crate::element::{all_below, chunk_at, chunk_bounds, nchunks, RawMatrixElem};
use crate::error::Error;
use crate::frame::DataFrame;

verus! {

/// Whether a frame binds its axis: one is present.
pub fn frame_binds(f: &Option<DataFrame>) -> (r: bool)
    ensures
        r == f is Some,
{
    f.is_some()
}

/// An annotated matrix: a primary matrix of observations by variables, a data frame per axis,
/// matrices bound to each axis, and free-form entries.
#[derive(Debug)]
pub struct AnnData {
    pub filename: String,
    pub n_obs: usize,
    pub n_vars: usize,
    pub x: Option<RawMatrixElem>,
    pub obs: Option<DataFrame>,
    pub var: Option<DataFrame>,
    pub obsm: AxisArrays,
    pub obsp: AxisArrays,
    pub varm: AxisArrays,
    pub varp: AxisArrays,
    pub uns: ElemCollection,
}

impl AnnData {
    /// The shapes of all elements agree with the two axis lengths.
    pub open spec fn wf(&self) -> bool {
        &&& self.x matches Some(x) ==> x.wf() && x.nrows == self.n_obs && x.ncols == self.n_vars
        &&& self.obs matches Some(f) ==> f.wf() && f.height() == self.n_obs
        &&& self.var matches Some(f) ==> f.wf() && f.height() == self.n_vars
        &&& self.obsm.axis == Axis::Row && self.obsm.wf(self.n_obs)
        &&& self.obsp.axis == Axis::Both && self.obsp.wf(self.n_obs)
        &&& self.varm.axis == Axis::Row && self.varm.wf(self.n_vars)
        &&& self.varp.axis == Axis::Both && self.varp.wf(self.n_vars)
    }

    /// Whether an element other than `X` is bound to the observation axis.
    pub open spec fn obs_bound(&self) -> bool {
        self.obs is Some || self.obsm.entries@.len() > 0 || self.obsp.entries@.len() > 0
    }

    /// Whether an element other than `X` is bound to the variable axis.
    pub open spec fn var_bound(&self) -> bool {
        self.var is Some || self.varm.entries@.len() > 0 || self.varp.entries@.len() > 0
    }

    /// Whether an axis now of length `n` can take length `len`: it already has it, or it is zero
    /// with nothing bound to it.
    pub open spec fn accepts(n: usize, bound: bool, len: usize) -> bool {
        n == len || (n == 0 && !bound)
    }

    /// A new annotated matrix with the given axis lengths and no elements.
    pub fn new(filename: &str, n_obs: usize, n_vars: usize) -> (r: AnnData)
        ensures
            r.wf(),
            r.filename@ == filename@,
            r.n_obs == n_obs,
            r.n_vars == n_vars,
            r.x is None && r.obs is None && r.var is None,
            r.obsm.entries@.len() == 0 && r.obsp.entries@.len() == 0,
            r.varm.entries@.len() == 0 && r.varp.entries@.len() == 0,
            r.uns.entries@.len() == 0,
    {
        AnnData {
            filename: filename.to_owned(),
            n_obs,
            n_vars,
            x: None,
            obs: None,
            var: None,
            obsm: AxisArrays::new(Axis::Row),
            obsp: AxisArrays::new(Axis::Both),
            varm: AxisArrays::new(Axis::Row),
            varp: AxisArrays::new(Axis::Both),
            uns: ElemCollection::new(),
        }
    }

    pub fn n_obs(&self) -> (r: usize)
        ensures
            r == self.n_obs,
    {
        self.n_obs
    }

    pub fn n_vars(&self) -> (r: usize)
        ensures
            r == self.n_vars,
    {
        self.n_vars
    }

    pub fn filename(&self) -> (r: String)
        ensures
            r@ == self.filename@,
    {
        self.filename.clone()
    }

    /// Whether `new` is `old` with `X` set to `data`: `X` is written from `data` with the
    /// default configuration, the axis lengths follow its shape, and nothing else changes.
    pub open spec fn x_set(old: AnnData, data: DynArray, new: AnnData) -> bool {
        &&& new.x matches Some(x) && x.stored().same_as(data) && x.cache is None
        &&& array_written(data, default_config(), new.x->0.container)
        &&& new.n_obs == data.shape_view()[0]
        &&& new.n_vars == data.shape_view()[1]
        &&& new.obs == old.obs && new.var == old.var
        &&& new.obsm == old.obsm && new.obsp == old.obsp
        &&& new.varm == old.varm && new.varp == old.varp
        &&& new.uns == old.uns && new.filename == old.filename
    }

    /// Sets `X` to `data`, a two-dimensional array; each axis must already have its length, or
    /// be zero with nothing else bound to it.
    pub fn set_x(&mut self, data: &DynArray) -> (r: Result<(), Error>)
        requires
            old(self).wf(),
        ensures
            final(self).wf(),
            !(data.wf() && data.shape_view().len() == 2) ==> r == Err::<(), Error>(Error::ShapeMismatch),
            data.wf() && data.shape_view().len() == 2 ==> (r is Ok <==> (Self::accepts(
                old(self).n_obs,
                old(self).obs_bound(),
                data.shape_view()[0],
            ) && Self::accepts(old(self).n_vars, old(self).var_bound(), data.shape_view()[1]))),
            r is Ok ==> Self::x_set(*old(self), *data, *final(self)),
            r is Err ==> r == Err::<(), Error>(Error::ShapeMismatch) && *final(self) == *old(self),
    {
        let elem = match RawMatrixElem::from_array(data) {
            Ok(e) => e,
            Err(e) => {
                return Err(e);
            },
        };
        let rows = elem.nrows;
        let cols = elem.ncols;
        let obs_bound = frame_binds(&self.obs) || self.obsm.len() > 0 || self.obsp.len() > 0;
        let var_bound = frame_binds(&self.var) || self.varm.len() > 0 || self.varp.len() > 0;
        if !(self.n_obs == rows || (self.n_obs == 0 && !obs_bound)) {
            return Err(Error::ShapeMismatch);
        }
        if !(self.n_vars == cols || (self.n_vars == 0 && !var_bound)) {
            return Err(Error::ShapeMismatch);
        }
        proof {
            if self.n_obs != rows {
                assert(self.obsm.entries@.len() == 0 && self.obsp.entries@.len() == 0);
                assert(self.obsm.wf(rows)) by {
                    assert(keys_of(self.obsm.entries@) =~= Seq::<Seq<char>>::empty());
                }
                assert(self.obsp.wf(rows)) by {
                    assert(keys_of(self.obsp.entries@) =~= Seq::<Seq<char>>::empty());
                }
            }
            if self.n_vars != cols {
                assert(self.varm.wf(cols)) by {
                    assert(keys_of(self.varm.entries@) =~= Seq::<Seq<char>>::empty());
                }
                assert(self.varp.wf(cols)) by {
                    assert(keys_of(self.varp.entries@) =~= Seq::<Seq<char>>::empty());
                }
            }
        }
        self.x = Some(elem);
        self.n_obs = rows;
        self.n_vars = cols;
        Ok(())
    }

    /// Removes `X`; everything else stays, the axis lengths included.
    pub fn del_x(&mut self)
        requires
            old(self).wf(),
        ensures
            final(self).wf(),
            final(self).x is None,
            final(self).obs == old(self).obs && final(self).var == old(self).var && final(self).obsm == old(self).obsm && final(self).obsp == old(self).obsp && final(self).varm == old(self).varm && final(self).varp == old(self).varp && final(self).uns == old(self).uns && final(self).filename == old(self).filename && final(self).n_obs == old(self).n_obs && final(self).n_vars == old(self).n_vars,
    {
        self.x = None;
    }

    /// A copy of `X`, if there is one.
    pub fn read_x(&mut self) -> (r: Option<DynArray>)
        requires
            old(self).wf(),
        ensures
            final(self).wf(),
            old(self).x is None ==> r is None,
            old(self).x matches Some(x) ==> (r matches Some(a) && a.same_as(x.stored())),
            old(self).x matches Some(x) ==> final(self).x matches Some(y) && y.container == x.container,
            final(self).obs == old(self).obs && final(self).var == old(self).var && final(self).obsm == old(self).obsm && final(self).obsp == old(self).obsp && final(self).varm == old(self).varm && final(self).varp == old(self).varp && final(self).uns == old(self).uns && final(self).filename == old(self).filename && final(self).n_obs == old(self).n_obs && final(self).n_vars == old(self).n_vars,
    {
        match &mut self.x {
            Some(x) => Some(x.read_elem()),
            None => None,
        }
    }

    /// Sets the observation frame; its height must be `n_obs`, or `n_obs` must be zero with
    /// nothing else bound to that axis.
    pub fn set_obs(&mut self, obs: DataFrame) -> (r: Result<(), Error>)
        requires
            old(self).wf(),
            obs.wf(),
        ensures
            final(self).wf(),
            r is Ok <==> Self::accepts(
                old(self).n_obs,
                old(self).x is Some || old(self).obsm.entries@.len() > 0 || old(self).obsp.entries@.len() > 0,
                obs.height() as usize,
            ),
            r is Ok ==> final(self).obs == Some(obs) && final(self).n_obs == obs.height(),
            r is Ok ==> final(self).x == old(self).x && final(self).var == old(self).var && final(self).obsm == old(self).obsm && final(self).obsp == old(self).obsp && final(self).varm == old(self).varm && final(self).varp == old(self).varp && final(self).uns == old(self).uns && final(self).filename == old(self).filename && final(self).n_vars == old(self).n_vars,
            r is Err ==> r == Err::<(), Error>(Error::ShapeMismatch) && *final(self) == *old(self),
    {
        let h = obs.nrows();
        let bound = self.x.is_some() || self.obsm.len() > 0 || self.obsp.len() > 0;
        if !(self.n_obs == h || (self.n_obs == 0 && !bound)) {
            return Err(Error::ShapeMismatch);
        }
        proof {
            if self.n_obs != h {
                assert(self.obsm.wf(h)) by {
                    assert(keys_of(self.obsm.entries@) =~= Seq::<Seq<char>>::empty());
                }
                assert(self.obsp.wf(h)) by {
                    assert(keys_of(self.obsp.entries@) =~= Seq::<Seq<char>>::empty());
                }
            }
        }
        self.obs = Some(obs);
        self.n_obs = h;
        Ok(())
    }

    /// Sets the variable frame; its height must be `n_vars`, or `n_vars` must be zero with
    /// nothing else bound to that axis.
    pub fn set_var(&mut self, var: DataFrame) -> (r: Result<(), Error>)
        requires
            old(self).wf(),
            var.wf(),
        ensures
            final(self).wf(),
            r is Ok <==> Self::accepts(
                old(self).n_vars,
                old(self).x is Some || old(self).varm.entries@.len() > 0 || old(self).varp.entries@.len() > 0,
                var.height() as usize,
            ),
            r is Ok ==> final(self).var == Some(var) && final(self).n_vars == var.height(),
            r is Ok ==> final(self).x == old(self).x && final(self).obs == old(self).obs && final(self).obsm == old(self).obsm && final(self).obsp == old(self).obsp && final(self).varm == old(self).varm && final(self).varp == old(self).varp && final(self).uns == old(self).uns && final(self).filename == old(self).filename && final(self).n_obs == old(self).n_obs,
            r is Err ==> r == Err::<(), Error>(Error::ShapeMismatch) && *final(self) == *old(self),
    {
        let h = var.nrows();
        let bound = self.x.is_some() || self.varm.len() > 0 || self.varp.len() > 0;
        if !(self.n_vars == h || (self.n_vars == 0 && !bound)) {
            return Err(Error::ShapeMismatch);
        }
        proof {
            if self.n_vars != h {
                assert(self.varm.wf(h)) by {
                    assert(keys_of(self.varm.entries@) =~= Seq::<Seq<char>>::empty());
                }
                assert(self.varp.wf(h)) by {
                    assert(keys_of(self.varp.entries@) =~= Seq::<Seq<char>>::empty());
                }
            }
        }
        self.var = Some(var);
        self.n_vars = h;
        Ok(())
    }

    /// Adds `data`, a two-dimensional array, to `obsm` under `key`, replacing a previous entry. Its rows
    /// must number `n_obs`, unless `n_obs` is zero with nothing bound to that axis: then
    /// they set it.
    pub fn add_obsm(&mut self, key: &str, data: &DynArray) -> (r: Result<(), Error>)
        requires
            old(self).wf(),
        ensures
            final(self).wf(),
            r is Err ==> *final(self) == *old(self),
            !(data.wf() && data.shape_view().len() == 2) ==> r == Err::<(), Error>(Error::ShapeMismatch),
            data.wf() && data.shape_view().len() == 2 ==> ({
                let fine = (data.shape_view()[0] == old(self).n_obs || old(self).n_obs == 0 && !(old(self).x is Some || binds(old(self).obs) || old(self).obsp.entries@.len() > 0) && old(self).obsm.entries@.len() == 0);
                &&& fine ==> r is Ok
                &&& !fine ==> r == Err::<(), Error>(Error::AxisMismatch)
            }),
            r is Ok ==> final(self).n_obs == data.shape_view()[0] && arrays_added(
                old(self).obsm,
                key@,
                *data,
                final(self).obsm,
            ),
            r is Ok ==> final(self).x == old(self).x && final(self).obs == old(self).obs && final(self).var == old(self).var && final(self).obsp == old(self).obsp && final(self).varm == old(self).varm && final(self).varp == old(self).varp && final(self).uns == old(self).uns && final(self).filename == old(self).filename && final(self).n_vars == old(self).n_vars,
    {
        let bound = self.x.is_some() || frame_binds(&self.obs) || self.obsp.len() > 0;
        let ghost n0 = self.n_obs;
        match self.obsm.insert(self.n_obs, bound, key, data) {
            Ok(m) => {
                proof {
                    if m != n0 {
                        assert(self.obsp.wf(m)) by {
                            assert(keys_of(self.obsp.entries@) =~= Seq::<Seq<char>>::empty());
                        }
                    }
                }
                self.n_obs = m;
                Ok(())
            },
            Err(e) => Err(e),
        }
    }

    /// Adds `data`, a square two-dimensional array, to `obsp` under `key`, replacing a previous entry. Its rows
    /// must number `n_obs`, unless `n_obs` is zero with nothing bound to that axis: then
    /// they set it.
    pub fn add_obsp(&mut self, key: &str, data: &DynArray) -> (r: Result<(), Error>)
        requires
            old(self).wf(),
        ensures
            final(self).wf(),
            r is Err ==> *final(self) == *old(self),
            !(data.wf() && data.shape_view().len() == 2) ==> r == Err::<(), Error>(Error::ShapeMismatch),
            data.wf() && data.shape_view().len() == 2 ==> ({
                let fine = (data.shape_view()[0] == old(self).n_obs || old(self).n_obs == 0 && !(old(self).x is Some || binds(old(self).obs) || old(self).obsm.entries@.len() > 0) && old(self).obsp.entries@.len() == 0) && data.shape_view()[0] == data.shape_view()[1];
                &&& fine ==> r is Ok
                &&& !fine ==> r == Err::<(), Error>(Error::AxisMismatch)
            }),
            r is Ok ==> final(self).n_obs == data.shape_view()[0] && arrays_added(
                old(self).obsp,
                key@,
                *data,
                final(self).obsp,
            ),
            r is Ok ==> final(self).x == old(self).x && final(self).obs == old(self).obs && final(self).var == old(self).var && final(self).obsm == old(self).obsm && final(self).varm == old(self).varm && final(self).varp == old(self).varp && final(self).uns == old(self).uns && final(self).filename == old(self).filename && final(self).n_vars == old(self).n_vars,
    {
        let bound = self.x.is_some() || frame_binds(&self.obs) || self.obsm.len() > 0;
        let ghost n0 = self.n_obs;
        match self.obsp.insert(self.n_obs, bound, key, data) {
            Ok(m) => {
                proof {
                    if m != n0 {
                        assert(self.obsm.wf(m)) by {
                            assert(keys_of(self.obsm.entries@) =~= Seq::<Seq<char>>::empty());
                        }
                    }
                }
                self.n_obs = m;
                Ok(())
            },
            Err(e) => Err(e),
        }
    }

    /// Adds `data`, a two-dimensional array, to `varm` under `key`, replacing a previous entry. Its rows
    /// must number `n_vars`, unless `n_vars` is zero with nothing bound to that axis: then
    /// they set it.
    pub fn add_varm(&mut self, key: &str, data: &DynArray) -> (r: Result<(), Error>)
        requires
            old(self).wf(),
        ensures
            final(self).wf(),
            r is Err ==> *final(self) == *old(self),
            !(data.wf() && data.shape_view().len() == 2) ==> r == Err::<(), Error>(Error::ShapeMismatch),
            data.wf() && data.shape_view().len() == 2 ==> ({
                let fine = (data.shape_view()[0] == old(self).n_vars || old(self).n_vars == 0 && !(old(self).x is Some || binds(old(self).var) || old(self).varp.entries@.len() > 0) && old(self).varm.entries@.len() == 0);
                &&& fine ==> r is Ok
                &&& !fine ==> r == Err::<(), Error>(Error::AxisMismatch)
            }),
            r is Ok ==> final(self).n_vars == data.shape_view()[0] && arrays_added(
                old(self).varm,
                key@,
                *data,
                final(self).varm,
            ),
            r is Ok ==> final(self).x == old(self).x && final(self).obs == old(self).obs && final(self).var == old(self).var && final(self).obsm == old(self).obsm && final(self).obsp == old(self).obsp && final(self).varp == old(self).varp && final(self).uns == old(self).uns && final(self).filename == old(self).filename && final(self).n_obs == old(self).n_obs,
    {
        let bound = self.x.is_some() || frame_binds(&self.var) || self.varp.len() > 0;
        let ghost n0 = self.n_vars;
        match self.varm.insert(self.n_vars, bound, key, data) {
            Ok(m) => {
                proof {
                    if m != n0 {
                        assert(self.varp.wf(m)) by {
                            assert(keys_of(self.varp.entries@) =~= Seq::<Seq<char>>::empty());
                        }
                    }
                }
                self.n_vars = m;
                Ok(())
            },
            Err(e) => Err(e),
        }
    }

    /// Adds `data`, a square two-dimensional array, to `varp` under `key`, replacing a previous entry. Its rows
    /// must number `n_vars`, unless `n_vars` is zero with nothing bound to that axis: then
    /// they set it.
    pub fn add_varp(&mut self, key: &str, data: &DynArray) -> (r: Result<(), Error>)
        requires
            old(self).wf(),
        ensures
            final(self).wf(),
            r is Err ==> *final(self) == *old(self),
            !(data.wf() && data.shape_view().len() == 2) ==> r == Err::<(), Error>(Error::ShapeMismatch),
            data.wf() && data.shape_view().len() == 2 ==> ({
                let fine = (data.shape_view()[0] == old(self).n_vars || old(self).n_vars == 0 && !(old(self).x is Some || binds(old(self).var) || old(self).varm.entries@.len() > 0) && old(self).varp.entries@.len() == 0) && data.shape_view()[0] == data.shape_view()[1];
                &&& fine ==> r is Ok
                &&& !fine ==> r == Err::<(), Error>(Error::AxisMismatch)
            }),
            r is Ok ==> final(self).n_vars == data.shape_view()[0] && arrays_added(
                old(self).varp,
                key@,
                *data,
                final(self).varp,
            ),
            r is Ok ==> final(self).x == old(self).x && final(self).obs == old(self).obs && final(self).var == old(self).var && final(self).obsm == old(self).obsm && final(self).obsp == old(self).obsp && final(self).varm == old(self).varm && final(self).uns == old(self).uns && final(self).filename == old(self).filename && final(self).n_obs == old(self).n_obs,
    {
        let bound = self.x.is_some() || frame_binds(&self.var) || self.varm.len() > 0;
        let ghost n0 = self.n_vars;
        match self.varp.insert(self.n_vars, bound, key, data) {
            Ok(m) => {
                proof {
                    if m != n0 {
                        assert(self.varm.wf(m)) by {
                            assert(keys_of(self.varm.entries@) =~= Seq::<Seq<char>>::empty());
                        }
                    }
                }
                self.n_vars = m;
                Ok(())
            },
            Err(e) => Err(e),
        }
    }

    /// Replaces `obsm` with `items`, added in order; a later item replaces an earlier one of
    /// the same key. All must share one length along the bound axis, which must be `n_obs`
    /// unless `n_obs` is zero with nothing else bound to that axis.
    pub fn set_obsm(&mut self, items: &Vec<(String, DynArray)>) -> (r: Result<(), Error>)
        requires
            old(self).wf(),
        ensures
            final(self).wf(),
            r is Err ==> *final(self) == *old(self),
            !items_shaped(Axis::Row, items@) ==> r == Err::<(), Error>(Error::ShapeMismatch),
            items_shaped(Axis::Row, items@) && items@.len() == 0 ==> r is Ok && final(self).n_obs
                == old(self).n_obs,
            items_shaped(Axis::Row, items@) && items@.len() > 0 ==> ({
                let len = axis_len(Axis::Row, items@[0].1);
                let fine = items_len(Axis::Row, items@, len) && (len == old(self).n_obs || (old(self).n_obs
                    == 0 && !(old(self).x is Some || binds(old(self).obs) || old(self).obsp.entries@.len() > 0)));
                &&& fine ==> r is Ok && final(self).n_obs == len
                &&& !fine ==> r == Err::<(), Error>(Error::AxisMismatch)
            }),
            r is Ok ==> forall|t: Seq<char>|
                keys_of(final(self).obsm.entries@).contains(t) <==> (exists|i: int|
                    0 <= i < items@.len() && (#[trigger] items@[i]).0@ == t),
            r is Ok ==> final(self).x == old(self).x && final(self).obs == old(self).obs && final(self).var == old(self).var && final(self).obsp == old(self).obsp && final(self).varm == old(self).varm && final(self).varp == old(self).varp && final(self).uns == old(self).uns && final(self).filename == old(self).filename && final(self).n_vars == old(self).n_vars,
    {
        let bound = self.x.is_some() || frame_binds(&self.obs) || self.obsp.len() > 0;
        let ghost n0 = self.n_obs;
        match self.obsm.replace_all(self.n_obs, bound, items) {
            Ok(m) => {
                proof {
                    if m != n0 {
                        assert(self.obsp.wf(m)) by {
                            assert(keys_of(self.obsp.entries@) =~= Seq::<Seq<char>>::empty());
                        }
                    }
                }
                self.n_obs = m;
                Ok(())
            },
            Err(e) => Err(e),
        }
    }

    /// Replaces `obsp` with `items`, added in order; a later item replaces an earlier one of
    /// the same key. All must share one length along the bound axis, which must be `n_obs`
    /// unless `n_obs` is zero with nothing else bound to that axis.
    pub fn set_obsp(&mut self, items: &Vec<(String, DynArray)>) -> (r: Result<(), Error>)
        requires
            old(self).wf(),
        ensures
            final(self).wf(),
            r is Err ==> *final(self) == *old(self),
            !items_shaped(Axis::Both, items@) ==> r == Err::<(), Error>(Error::ShapeMismatch),
            items_shaped(Axis::Both, items@) && items@.len() == 0 ==> r is Ok && final(self).n_obs
                == old(self).n_obs,
            items_shaped(Axis::Both, items@) && items@.len() > 0 ==> ({
                let len = axis_len(Axis::Both, items@[0].1);
                let fine = items_len(Axis::Both, items@, len) && (len == old(self).n_obs || (old(self).n_obs
                    == 0 && !(old(self).x is Some || binds(old(self).obs) || old(self).obsm.entries@.len() > 0)));
                &&& fine ==> r is Ok && final(self).n_obs == len
                &&& !fine ==> r == Err::<(), Error>(Error::AxisMismatch)
            }),
            r is Ok ==> forall|t: Seq<char>|
                keys_of(final(self).obsp.entries@).contains(t) <==> (exists|i: int|
                    0 <= i < items@.len() && (#[trigger] items@[i]).0@ == t),
            r is Ok ==> final(self).x == old(self).x && final(self).obs == old(self).obs && final(self).var == old(self).var && final(self).obsm == old(self).obsm && final(self).varm == old(self).varm && final(self).varp == old(self).varp && final(self).uns == old(self).uns && final(self).filename == old(self).filename && final(self).n_vars == old(self).n_vars,
    {
        let bound = self.x.is_some() || frame_binds(&self.obs) || self.obsm.len() > 0;
        let ghost n0 = self.n_obs;
        match self.obsp.replace_all(self.n_obs, bound, items) {
            Ok(m) => {
                proof {
                    if m != n0 {
                        assert(self.obsm.wf(m)) by {
                            assert(keys_of(self.obsm.entries@) =~= Seq::<Seq<char>>::empty());
                        }
                    }
                }
                self.n_obs = m;
                Ok(())
            },
            Err(e) => Err(e),
        }
    }

    /// Replaces `varm` with `items`, added in order; a later item replaces an earlier one of
    /// the same key. All must share one length along the bound axis, which must be `n_vars`
    /// unless `n_vars` is zero with nothing else bound to that axis.
    pub fn set_varm(&mut self, items: &Vec<(String, DynArray)>) -> (r: Result<(), Error>)
        requires
            old(self).wf(),
        ensures
            final(self).wf(),
            r is Err ==> *final(self) == *old(self),
            !items_shaped(Axis::Row, items@) ==> r == Err::<(), Error>(Error::ShapeMismatch),
            items_shaped(Axis::Row, items@) && items@.len() == 0 ==> r is Ok && final(self).n_vars
                == old(self).n_vars,
            items_shaped(Axis::Row, items@) && items@.len() > 0 ==> ({
                let len = axis_len(Axis::Row, items@[0].1);
                let fine = items_len(Axis::Row, items@, len) && (len == old(self).n_vars || (old(self).n_vars
                    == 0 && !(old(self).x is Some || binds(old(self).var) || old(self).varp.entries@.len() > 0)));
                &&& fine ==> r is Ok && final(self).n_vars == len
                &&& !fine ==> r == Err::<(), Error>(Error::AxisMismatch)
            }),
            r is Ok ==> forall|t: Seq<char>|
                keys_of(final(self).varm.entries@).contains(t) <==> (exists|i: int|
                    0 <= i < items@.len() && (#[trigger] items@[i]).0@ == t),
            r is Ok ==> final(self).x == old(self).x && final(self).obs == old(self).obs && final(self).var == old(self).var && final(self).obsm == old(self).obsm && final(self).obsp == old(self).obsp && final(self).varp == old(self).varp && final(self).uns == old(self).uns && final(self).filename == old(self).filename && final(self).n_obs == old(self).n_obs,
    {
        let bound = self.x.is_some() || frame_binds(&self.var) || self.varp.len() > 0;
        let ghost n0 = self.n_vars;
        match self.varm.replace_all(self.n_vars, bound, items) {
            Ok(m) => {
                proof {
                    if m != n0 {
                        assert(self.varp.wf(m)) by {
                            assert(keys_of(self.varp.entries@) =~= Seq::<Seq<char>>::empty());
                        }
                    }
                }
                self.n_vars = m;
                Ok(())
            },
            Err(e) => Err(e),
        }
    }

    /// Replaces `varp` with `items`, added in order; a later item replaces an earlier one of
    /// the same key. All must share one length along the bound axis, which must be `n_vars`
    /// unless `n_vars` is zero with nothing else bound to that axis.
    pub fn set_varp(&mut self, items: &Vec<(String, DynArray)>) -> (r: Result<(), Error>)
        requires
            old(self).wf(),
        ensures
            final(self).wf(),
            r is Err ==> *final(self) == *old(self),
            !items_shaped(Axis::Both, items@) ==> r == Err::<(), Error>(Error::ShapeMismatch),
            items_shaped(Axis::Both, items@) && items@.len() == 0 ==> r is Ok && final(self).n_vars
                == old(self).n_vars,
            items_shaped(Axis::Both, items@) && items@.len() > 0 ==> ({
                let len = axis_len(Axis::Both, items@[0].1);
                let fine = items_len(Axis::Both, items@, len) && (len == old(self).n_vars || (old(self).n_vars
                    == 0 && !(old(self).x is Some || binds(old(self).var) || old(self).varm.entries@.len() > 0)));
                &&& fine ==> r is Ok && final(self).n_vars == len
                &&& !fine ==> r == Err::<(), Error>(Error::AxisMismatch)
            }),
            r is Ok ==> forall|t: Seq<char>|
                keys_of(final(self).varp.entries@).contains(t) <==> (exists|i: int|
                    0 <= i < items@.len() && (#[trigger] items@[i]).0@ == t),
            r is Ok ==> final(self).x == old(self).x && final(self).obs == old(self).obs && final(self).var == old(self).var && final(self).obsm == old(self).obsm && final(self).obsp == old(self).obsp && final(self).varm == old(self).varm && final(self).uns == old(self).uns && final(self).filename == old(self).filename && final(self).n_obs == old(self).n_obs,
    {
        let bound = self.x.is_some() || frame_binds(&self.var) || self.varm.len() > 0;
        let ghost n0 = self.n_vars;
        match self.varp.replace_all(self.n_vars, bound, items) {
            Ok(m) => {
                proof {
                    if m != n0 {
                        assert(self.varm.wf(m)) by {
                            assert(keys_of(self.varm.entries@) =~= Seq::<Seq<char>>::empty());
                        }
                    }
                }
                self.n_vars = m;
                Ok(())
            },
            Err(e) => Err(e),
        }
    }

    /// Replaces the free-form collection with `items`, stored in order; a later item replaces an
    /// earlier one of the same key.
    pub fn set_uns(&mut self, items: Vec<(String, DataContainer)>)
        requires
            old(self).wf(),
        ensures
            final(self).wf(),
            forall|t: Seq<char>|
                has_key(final(self).uns.entries@, t) <==> (exists|i: int|
                    0 <= i < items@.len() && (#[trigger] items@[i]).0@ == t),
            final(self).x == old(self).x && final(self).obs == old(self).obs && final(self).var == old(self).var && final(self).obsm == old(self).obsm && final(self).obsp == old(self).obsp && final(self).varm == old(self).varm && final(self).varp == old(self).varp && final(self).filename == old(self).filename && final(self).n_obs == old(self).n_obs && final(self).n_vars == old(self).n_vars,
    {
        let ghost all = items@;
        let mut fresh = ElemCollection::new();
        let mut rest = items;
        let n = rest.len();
        let mut i: usize = 0;
        while i < n
            invariant
                i <= n,
                n == all.len(),
                rest@ == all.skip(i as int),
                forall|u: Seq<char>|
                    has_key(fresh.entries@, u) <==> (exists|j: int| 0 <= j < i && (#[trigger] all[j]).0@ == u),
            decreases n - i,
        {
            let (key, c) = rest.remove(0);
            assert(all[i as int] == (key, c));
            assert(rest@ =~= all.skip(i + 1));
            let ghost before = fresh.entries@;
            fresh.insert(key.as_str(), c);
            proof {
                assert forall|u: Seq<char>|
                    has_key(fresh.entries@, u) <==> (exists|j: int| 0 <= j < i + 1 && (#[trigger] all[j]).0@ == u) by {
                    if has_key(fresh.entries@, u) && !has_key(before, u) {
                        assert(all[i as int].0@ == u);
                    }
                    if exists|j: int| 0 <= j < i + 1 && (#[trigger] all[j]).0@ == u {
                        let j = choose|j: int| 0 <= j < i + 1 && (#[trigger] all[j]).0@ == u;
                        if j < i {
                            assert(has_key(before, u));
                        }
                    }
                }
            }
            i = i + 1;
        }
        self.uns = fresh;
    }

    /// Stores `container` in the free-form collection under `key`.
    pub fn add_uns(&mut self, key: &str, container: DataContainer)
        requires
            old(self).wf(),
        ensures
            final(self).wf(),
            exists|i: int|
                0 <= i < final(self).uns.entries@.len() && final(self).uns.entries@[i].key@ == key@
                    && final(self).uns.entries@[i].container == container,
            forall|j: int|
                0 <= j < old(self).uns.entries@.len() && old(self).uns.entries@[j].key@ != key@
                    ==> #[trigger] final(self).uns.entries@[j] == old(self).uns.entries@[j],
            final(self).x == old(self).x && final(self).obs == old(self).obs && final(self).var == old(self).var && final(self).obsm == old(self).obsm && final(self).obsp == old(self).obsp && final(self).varm == old(self).varm && final(self).varp == old(self).varp && final(self).filename == old(self).filename && final(self).n_obs == old(self).n_obs && final(self).n_vars == old(self).n_vars,
    {
        let i = self.uns.insert(key, container);
        assert(self.uns.entries@[i as int].key@ == key@);
    }

    /// Keeps only the observations `idx`, in order, in every element bound to the observation
    /// axis.
    pub fn subset_obs(&mut self, idx: &Vec<usize>) -> (r: Result<(), Error>)
        requires
            old(self).wf(),
        ensures
            final(self).wf(),
            !all_below(idx@, old(self).n_obs) ==> r == Err::<(), Error>(Error::Bounds) && *final(self)
                == *old(self),
            all_below(idx@, old(self).n_obs) ==> r is Ok && obs_subset(*old(self), idx@, *final(self)),
    {
        let n = self.n_obs;
        let count = idx.len();
        let mut j: usize = 0;
        while j < idx.len()
            invariant
                j <= idx@.len(),
                n == self.n_obs,
                *self == *old(self),
                self.wf(),
                forall|t: int| 0 <= t < j ==> #[trigger] idx@[t] < n,
            decreases idx@.len() - j,
        {
            if idx[j] >= self.n_obs {
                assert(!(idx@[j as int] < n));
                assert(!all_below(idx@, n));
                return Err(Error::Bounds);
            }
            j = j + 1;
        }
        if let Some(x) = &mut self.x {
            if x.subset_rows(idx).is_err() {
                return vstd::pervasive::unreached();
            }
        }
        let new_obs = match &self.obs {
            Some(f) => match f.select_rows(idx) {
                Ok(g) => {
                    proof {
                        if f.columns@.len() == 0 && idx@.len() > 0 {
                            assert(idx@[0] < f.height());
                        }
                    }
                    Some(g)
                },
                Err(_) => {
                    return vstd::pervasive::unreached();
                },
            },
            None => None,
        };
        self.obs = new_obs;
        if self.obsm.subset(idx, Ghost(n)).is_err() {
            return vstd::pervasive::unreached();
        }
        if self.obsp.subset(idx, Ghost(n)).is_err() {
            return vstd::pervasive::unreached();
        }
        self.n_obs = count;
        Ok(())
    }

    /// Keeps only the variables `idx`, in order, in every element bound to the variable axis.
    pub fn subset_var(&mut self, idx: &Vec<usize>) -> (r: Result<(), Error>)
        requires
            old(self).wf(),
        ensures
            final(self).wf(),
            !all_below(idx@, old(self).n_vars) ==> r == Err::<(), Error>(Error::Bounds) && *final(self)
                == *old(self),
            all_below(idx@, old(self).n_vars) ==> r is Ok && var_subset(*old(self), idx@, *final(self)),
    {
        let n = self.n_vars;
        let count = idx.len();
        let mut j: usize = 0;
        while j < idx.len()
            invariant
                j <= idx@.len(),
                n == self.n_vars,
                *self == *old(self),
                self.wf(),
                forall|t: int| 0 <= t < j ==> #[trigger] idx@[t] < n,
            decreases idx@.len() - j,
        {
            if idx[j] >= self.n_vars {
                assert(!(idx@[j as int] < n));
                assert(!all_below(idx@, n));
                return Err(Error::Bounds);
            }
            j = j + 1;
        }
        if let Some(x) = &mut self.x {
            if x.subset_cols(idx).is_err() {
                return vstd::pervasive::unreached();
            }
        }
        let new_var = match &self.var {
            Some(f) => match f.select_rows(idx) {
                Ok(g) => {
                    proof {
                        if f.columns@.len() == 0 && idx@.len() > 0 {
                            assert(idx@[0] < f.height());
                        }
                    }
                    Some(g)
                },
                Err(_) => {
                    return vstd::pervasive::unreached();
                },
            },
            None => None,
        };
        self.var = new_var;
        if self.varm.subset(idx, Ghost(n)).is_err() {
            return vstd::pervasive::unreached();
        }
        if self.varp.subset(idx, Ghost(n)).is_err() {
            return vstd::pervasive::unreached();
        }
        self.n_vars = count;
        Ok(())
    }

    /// Keeps only the observations `ridx` and the variables `cidx`, in order.
    pub fn subset(&mut self, ridx: &Vec<usize>, cidx: &Vec<usize>) -> (r: Result<(), Error>)
        requires
            old(self).wf(),
        ensures
            final(self).wf(),
            !(all_below(ridx@, old(self).n_obs) && all_below(cidx@, old(self).n_vars)) ==> r == Err::<
                (),
                Error,
            >(Error::Bounds) && *final(self) == *old(self),
            all_below(ridx@, old(self).n_obs) && all_below(cidx@, old(self).n_vars) ==> r is Ok
                && both_subset(*old(self), ridx@, cidx@, *final(self)),
    {
        let n = self.n_obs;
        let m = self.n_vars;
        let rcount = ridx.len();
        let ccount = cidx.len();
        let mut j: usize = 0;
        while j < ridx.len()
            invariant
                j <= ridx@.len(),
                n == self.n_obs,
                *self == *old(self),
                self.wf(),
                forall|t: int| 0 <= t < j ==> #[trigger] ridx@[t] < n,
            decreases ridx@.len() - j,
        {
            if ridx[j] >= self.n_obs {
                assert(!(ridx@[j as int] < n));
                assert(!all_below(ridx@, n));
                return Err(Error::Bounds);
            }
            j = j + 1;
        }
        let mut j: usize = 0;
        while j < cidx.len()
            invariant
                j <= cidx@.len(),
                m == self.n_vars,
                *self == *old(self),
                self.wf(),
                forall|t: int| 0 <= t < j ==> #[trigger] cidx@[t] < m,
            decreases cidx@.len() - j,
        {
            if cidx[j] >= self.n_vars {
                assert(!(cidx@[j as int] < m));
                assert(!all_below(cidx@, m));
                return Err(Error::Bounds);
            }
            j = j + 1;
        }
        if let Some(x) = &mut self.x {
            if x.subset(ridx, cidx).is_err() {
                return vstd::pervasive::unreached();
            }
        }
        let new_obs = match &self.obs {
            Some(f) => match f.select_rows(ridx) {
                Ok(g) => {
                    proof {
                        if f.columns@.len() == 0 && ridx@.len() > 0 {
                            assert(ridx@[0] < f.height());
                        }
                    }
                    Some(g)
                },
                Err(_) => {
                    return vstd::pervasive::unreached();
                },
            },
            None => None,
        };
        self.obs = new_obs;
        let new_var = match &self.var {
            Some(f) => match f.select_rows(cidx) {
                Ok(g) => {
                    proof {
                        if f.columns@.len() == 0 && cidx@.len() > 0 {
                            assert(cidx@[0] < f.height());
                        }
                    }
                    Some(g)
                },
                Err(_) => {
                    return vstd::pervasive::unreached();
                },
            },
            None => None,
        };
        self.var = new_var;
        if self.obsm.subset(ridx, Ghost(n)).is_err() {
            return vstd::pervasive::unreached();
        }
        if self.obsp.subset(ridx, Ghost(n)).is_err() {
            return vstd::pervasive::unreached();
        }
        if self.varm.subset(cidx, Ghost(m)).is_err() {
            return vstd::pervasive::unreached();
        }
        if self.varp.subset(cidx, Ghost(m)).is_err() {
            return vstd::pervasive::unreached();
        }
        self.n_obs = rcount;
        self.n_vars = ccount;
        Ok(())
    }
}

/// Whether a frame binds its axis: one is present.
pub open spec fn binds(f: Option<DataFrame>) -> bool {
    f is Some
}

/// Whether `new` is `old` with an entry for `key` holding `data`, and every other key kept.
pub open spec fn arrays_added(old: AxisArrays, key: Seq<char>, data: DynArray, new: AxisArrays) -> bool {
    &&& new.axis == old.axis
    &&& exists|i: int|
        0 <= i < new.entries@.len() && new.entries@[i].key@ == key && new.entries@[i].elem.stored().same_as(data)
    &&& forall|j: int|
        0 <= j < old.entries@.len() && old.entries@[j].key@ != key ==> #[trigger] new.entries@[j] == old.entries@[j]
    &&& forall|s: Seq<char>| keys_of(new.entries@).contains(s) <==> (keys_of(old.entries@).contains(s) || s == key)
}

/// Whether the optional matrix `new` is `old` with the selection `idx` applied along `axis`.
pub open spec fn opt_entry_subset(axis: Axis, idx: Seq<usize>, old: Option<RawMatrixElem>, new: Option<RawMatrixElem>) -> bool {
    match (old, new) {
        (None, None) => true,
        (Some(a), Some(b)) => entry_subset(axis, idx, a, b),
        _ => false,
    }
}

/// Whether the optional frame `new` holds the rows `idx` of `old`, column by column.
pub open spec fn frame_rows(old: Option<DataFrame>, idx: Seq<usize>, new: Option<DataFrame>) -> bool {
    match (old, new) {
        (None, None) => true,
        (Some(f), Some(g)) => g.index_name@ == f.index_name@ && g.columns@.len() == f.columns@.len()
            && names_of(g.columns@) == names_of(f.columns@) && forall|k: int|
            0 <= k < f.columns@.len() ==> is_gather(#[trigger] f.columns@[k].values, idx, g.columns@[k].values),
        _ => false,
    }
}

/// Whether `new` is `old` with the selection `idx` applied to every entry.
pub open spec fn arrays_subset(old: AxisArrays, idx: Seq<usize>, new: AxisArrays) -> bool {
    &&& new.axis == old.axis
    &&& new.entries@.len() == old.entries@.len()
    &&& keys_of(new.entries@) == keys_of(old.entries@)
    &&& forall|k: int|
        0 <= k < old.entries@.len() ==> entry_subset(old.axis, idx, #[trigger] old.entries@[k].elem, new.entries@[k].elem)
}

/// What keeping the observations `idx` does: every element bound to the observation axis keeps
/// those rows, in order, and the rest stays.
pub open spec fn obs_subset(old: AnnData, idx: Seq<usize>, new: AnnData) -> bool {
    &&& new.n_obs == idx.len()
    &&& new.n_vars == old.n_vars
    &&& opt_entry_subset(Axis::Row, idx, old.x, new.x)
    &&& frame_rows(old.obs, idx, new.obs)
    &&& arrays_subset(old.obsm, idx, new.obsm)
    &&& arrays_subset(old.obsp, idx, new.obsp)
    &&& new.var == old.var && new.varm == old.varm && new.varp == old.varp
    &&& new.uns == old.uns && new.filename == old.filename
}

/// What keeping the variables `idx` does: every element bound to the variable axis keeps those
/// entries, in order, and the rest stays.
pub open spec fn var_subset(old: AnnData, idx: Seq<usize>, new: AnnData) -> bool {
    &&& new.n_vars == idx.len()
    &&& new.n_obs == old.n_obs
    &&& opt_entry_subset(Axis::Column, idx, old.x, new.x)
    &&& frame_rows(old.var, idx, new.var)
    &&& arrays_subset(old.varm, idx, new.varm)
    &&& arrays_subset(old.varp, idx, new.varp)
    &&& new.obs == old.obs && new.obsm == old.obsm && new.obsp == old.obsp
    &&& new.uns == old.uns && new.filename == old.filename
}

/// What keeping the observations `ridx` and the variables `cidx` does.
pub open spec fn both_subset(old: AnnData, ridx: Seq<usize>, cidx: Seq<usize>, new: AnnData) -> bool {
    &&& new.n_obs == ridx.len()
    &&& new.n_vars == cidx.len()
    &&& (old.x is None <==> new.x is None)
    &&& old.x matches Some(a) ==> (new.x matches Some(b) && b.nrows == ridx.len() && b.ncols == cidx.len()
        && is_block(a.stored(), a.ncols as int, ints(ridx), ints(cidx), b.stored()))
    &&& frame_rows(old.obs, ridx, new.obs)
    &&& frame_rows(old.var, cidx, new.var)
    &&& arrays_subset(old.obsm, ridx, new.obsm)
    &&& arrays_subset(old.obsp, ridx, new.obsp)
    &&& arrays_subset(old.varm, cidx, new.varm)
    &&& arrays_subset(old.varp, cidx, new.varp)
    &&& new.uns == old.uns && new.filename == old.filename
}

/// Every annotated matrix in a well-formed state keeps `X` at `n_obs` by `n_vars`, every entry
/// of `obsm` at `n_obs` rows, and every entry of `obsp` at `n_obs` by `n_obs`.
pub proof fn lemma_axis_invariants(a: AnnData)
    requires
        a.wf(),
    ensures
        a.x matches Some(x) ==> x.stored().shape_view() == seq![a.n_obs, a.n_vars],
        forall|k: int| 0 <= k < a.obsm.entries@.len() ==> (#[trigger] a.obsm.entries@[k]).elem.nrows == a.n_obs,
        forall|k: int| 0 <= k < a.obsp.entries@.len() ==> (#[trigger] a.obsp.entries@[k]).elem.nrows == a.n_obs
            && a.obsp.entries@[k].elem.ncols == a.n_obs,
        forall|k: int| 0 <= k < a.varm.entries@.len() ==> (#[trigger] a.varm.entries@[k]).elem.nrows == a.n_vars,
        forall|k: int| 0 <= k < a.varp.entries@.len() ==> (#[trigger] a.varp.entries@[k]).elem.nrows == a.n_vars
            && a.varp.entries@[k].elem.ncols == a.n_vars,
{
    assert forall|k: int| 0 <= k < a.obsm.entries@.len() implies (#[trigger] a.obsm.entries@[k]).elem.nrows == a.n_obs by {
        assert(fits(a.obsm.axis, a.n_obs, a.obsm.entries@[k].elem.nrows, a.obsm.entries@[k].elem.ncols));
    }
    assert forall|k: int| 0 <= k < a.obsp.entries@.len() implies (#[trigger] a.obsp.entries@[k]).elem.nrows == a.n_obs
        && a.obsp.entries@[k].elem.ncols == a.n_obs by {
        assert(fits(a.obsp.axis, a.n_obs, a.obsp.entries@[k].elem.nrows, a.obsp.entries@[k].elem.ncols));
    }
    assert forall|k: int| 0 <= k < a.varm.entries@.len() implies (#[trigger] a.varm.entries@[k]).elem.nrows == a.n_vars by {
        assert(fits(a.varm.axis, a.n_vars, a.varm.entries@[k].elem.nrows, a.varm.entries@[k].elem.ncols));
    }
    assert forall|k: int| 0 <= k < a.varp.entries@.len() implies (#[trigger] a.varp.entries@[k]).elem.nrows == a.n_vars
        && a.varp.entries@[k].elem.ncols == a.n_vars by {
        assert(fits(a.varp.axis, a.n_vars, a.varp.entries@[k].elem.nrows, a.varp.entries@[k].elem.ncols));
    }
}

/// Setting `X` twice to the same array leaves the same observable state as setting it once.
pub proof fn lemma_set_x_idempotent(s0: AnnData, data: DynArray, s1: AnnData, s2: AnnData)
    requires
        AnnData::x_set(s0, data, s1),
        AnnData::x_set(s1, data, s2),
    ensures
        s2.n_obs == s1.n_obs,
        s2.n_vars == s1.n_vars,
        s2.x->0.stored().same_as(s1.x->0.stored()),
        s2.obs == s1.obs && s2.var == s1.var,
        s2.obsm == s1.obsm && s2.obsp == s1.obsp,
        s2.varm == s1.varm && s2.varp == s1.varp,
        s2.uns == s1.uns,
        crate::encoding::type_of(s2.x->0.container) == crate::encoding::type_of(s1.x->0.container),
        crate::encoding::tag_of(s2.x->0.container) == crate::encoding::tag_of(s1.x->0.container),
{
    crate::encoding::lemma_array_round_trip(data, default_config(), s1.x->0.container);
    crate::encoding::lemma_array_round_trip(data, default_config(), s2.x->0.container);
    crate::dynamic::lemma_same_as(s1.x->0.stored(), data);
    crate::dynamic::lemma_same_as_trans(s2.x->0.stored(), data, s1.x->0.stored());
}

/// Keeping every row of a matrix, in order, keeps the matrix.
pub proof fn lemma_subset_all_rows(old_x: DynArray, nr: usize, nc: usize, new_x: DynArray)
    requires
        old_x.wf(),
        old_x.shape_view() == seq![nr, nc],
        crate::element::is_block(old_x, nc as int, crate::layout::iota(nr as nat), crate::layout::iota(nc as nat), new_x),
    ensures
        new_x.same_as(old_x),
{
    let n = old_x.len_view();
    assert(n == crate::shape::prod(seq![nr, nc]));
    assert(seq![nr, nc].drop_first() =~= seq![nc]);
    assert(seq![nc].drop_first() =~= Seq::<usize>::empty());
    assert(crate::shape::prod(Seq::<usize>::empty()) == 1);
    assert(crate::shape::prod(seq![nc]) == nc * crate::shape::prod(Seq::<usize>::empty()));
    assert(crate::shape::prod(seq![nc]) == nc);
    assert(crate::shape::prod(seq![nr, nc]) == nr * crate::shape::prod(seq![nc]));
    assert(n == nr * nc);
    assert(new_x.shape_view() =~= seq![nr, nc]);
    assert(new_x.len_view() == nr * nc);
    assert forall|q: int| 0 <= q < new_x.len_view() implies #[trigger] new_x.element_at(q) == old_x.element_at(q) by {
        let i = q / (nc as int);
        let j = q % (nc as int);
        assert(nc > 0) by (nonlinear_arith)
            requires
                0 <= q < nr * nc,
        ;
        vstd::arithmetic::div_mod::lemma_fundamental_div_mod(q, nc as int);
        assert(0 <= j < nc);
        assert(0 <= i < nr) by (nonlinear_arith)
            requires
                q == nc * i + j,
                0 <= j < nc,
                0 <= q < nr * nc,
        ;
        assert(crate::layout::iota(nr as nat)[i] == i);
        assert(crate::layout::iota(nc as nat)[j] == j);
        assert(i * nc + j == q) by (nonlinear_arith)
            requires
                q == nc * i + j,
        ;
        assert(new_x.element_at(i * (crate::layout::iota(nc as nat).len() as int) + j) == old_x.element_at(
            crate::layout::iota(nr as nat)[i] * nc + crate::layout::iota(nc as nat)[j],
        ));
    }
    crate::dynamic::lemma_same_from_elements(new_x, old_x);
}

/// Keeping every entry of a one-dimensional array, in order, keeps the array.
pub proof fn lemma_gather_all(a: DynArray, n: usize, idx: Seq<usize>, r: DynArray)
    requires
        a.wf(),
        a.shape_view() == seq![n],
        ints(idx) == crate::layout::iota(n as nat),
        is_gather(a, idx, r),
    ensures
        r.same_as(a),
{
    assert(seq![n].drop_first() =~= Seq::<usize>::empty());
    assert(crate::shape::prod(Seq::<usize>::empty()) == 1);
    assert(crate::shape::prod(seq![n]) == n * crate::shape::prod(Seq::<usize>::empty()));
    assert(ints(idx).len() == idx.len());
    assert(crate::layout::iota(n as nat).len() == n);
    assert(idx.len() == n);
    assert(r.shape_view() =~= seq![n]);
    assert forall|q: int| 0 <= q < r.len_view() implies #[trigger] r.element_at(q) == a.element_at(q) by {
        assert(ints(idx)[q] == q);
    }
    crate::dynamic::lemma_same_from_elements(r, a);
}

proof fn lemma_arrays_subset_all(old: AxisArrays, n: usize, idx: Seq<usize>, new: AxisArrays)
    requires
        old.wf(n),
        old.axis != Axis::Column,
        ints(idx) == crate::layout::iota(n as nat),
        arrays_subset(old, idx, new),
    ensures
        forall|k: int|
            0 <= k < old.entries@.len() ==> (#[trigger] new.entries@[k]).elem.stored().same_as(
                old.entries@[k].elem.stored(),
            ),
{
    assert forall|k: int| 0 <= k < old.entries@.len() implies (#[trigger] new.entries@[k]).elem.stored().same_as(
        old.entries@[k].elem.stored(),
    ) by {
        let a = old.entries@[k].elem;
        let b = new.entries@[k].elem;
        assert(a.wf() && fits(old.axis, n, a.nrows, a.ncols));
        assert(entry_subset(old.axis, idx, a, b));
        lemma_subset_all_rows(a.stored(), a.nrows, a.ncols, b.stored());
    }
}

/// Keeping every observation, in order, keeps the axis lengths and the contents of `X`, of
/// every observation column and of every `obsm` and `obsp` entry.
pub proof fn lemma_subset_obs_identity(old: AnnData, idx: Seq<usize>, new: AnnData)
    requires
        old.wf(),
        ints(idx) == crate::layout::iota(old.n_obs as nat),
        obs_subset(old, idx, new),
    ensures
        new.n_obs == old.n_obs,
        new.n_vars == old.n_vars,
        old.x matches Some(a) ==> new.x->0.stored().same_as(a.stored()),
        old.obs matches Some(f) ==> forall|k: int|
            0 <= k < f.columns@.len() ==> (#[trigger] new.obs->0.columns@[k]).values.same_as(f.columns@[k].values),
        forall|k: int|
            0 <= k < old.obsm.entries@.len() ==> (#[trigger] new.obsm.entries@[k]).elem.stored().same_as(
                old.obsm.entries@[k].elem.stored(),
            ),
        forall|k: int|
            0 <= k < old.obsp.entries@.len() ==> (#[trigger] new.obsp.entries@[k]).elem.stored().same_as(
                old.obsp.entries@[k].elem.stored(),
            ),
{
    assert(ints(idx).len() == idx.len());
    assert(crate::layout::iota(old.n_obs as nat).len() == old.n_obs);
    assert(idx.len() == old.n_obs);
    if let Some(a) = old.x {
        lemma_subset_all_rows(a.stored(), a.nrows, a.ncols, new.x->0.stored());
    }
    if let Some(f) = old.obs {
        assert forall|k: int| 0 <= k < f.columns@.len() implies (#[trigger] new.obs->0.columns@[k]).values.same_as(
            f.columns@[k].values,
        ) by {
            assert(f.columns@[k].values.wf() && f.columns@[k].values.shape_view().len() == 1);
            let h = f.columns@[k].values.shape_view()[0];
            assert(f.columns@[k].values.shape_view() =~= seq![h]);
            assert(h == old.n_obs);
            lemma_gather_all(f.columns@[k].values, h, idx, new.obs->0.columns@[k].values);
        }
    }
    lemma_arrays_subset_all(old.obsm, old.n_obs, idx, new.obsm);
    lemma_arrays_subset_all(old.obsp, old.n_obs, idx, new.obsp);
}

/// The characters of each string.
pub open spec fn strs(v: Seq<String>) -> Seq<Seq<char>> {
    v.map_values(|s: String| s@)
}

/// Whether `v` holds a string with the characters `s`.
fn holds(v: &Vec<String>, s: &String) -> (r: bool)
    ensures
        r == strs(v@).contains(s@),
{
    let mut i: usize = 0;
    while i < v.len()
        invariant
            i <= v@.len(),
            forall|j: int| 0 <= j < i ==> (#[trigger] v@[j])@ != s@,
        decreases v@.len() - i,
    {
        if v[i] == *s {
            assert(strs(v@)[i as int] == s@);
            return true;
        }
        i = i + 1;
    }
    proof {
        if strs(v@).contains(s@) {
            let j = choose|j: int| 0 <= j < strs(v@).len() && strs(v@)[j] == s@;
            assert(v@[j]@ == s@);
        }
    }
    false
}

/// The strings of the first list that every list holds, in the order of the first.
pub fn intersections(sets: Vec<Vec<String>>) -> (r: Vec<String>)
    requires
        sets@.len() > 0,
    ensures
        forall|s: Seq<char>|
            strs(r@).contains(s) <==> (forall|i: int| 0 <= i < sets@.len() ==> strs(#[trigger] sets@[i]@).contains(s)),
{
    let first = &sets[0];
    let mut out: Vec<String> = Vec::new();
    let mut k: usize = 0;
    while k < first.len()
        invariant
            sets@.len() > 0,
            *first == sets@[0],
            k <= first@.len(),
            forall|s: Seq<char>|
                strs(out@).contains(s) <==> (strs(first@.take(k as int)).contains(s) && forall|i: int|
                    0 <= i < sets@.len() ==> strs(#[trigger] sets@[i]@).contains(s)),
        decreases first@.len() - k,
    {
        let x = &first[k];
        let mut all = true;
        let mut i: usize = 0;
        while i < sets.len()
            invariant
                i <= sets@.len(),
                k < first@.len(),
                *x == first@[k as int],
                *first == sets@[0],
                forall|s: Seq<char>|
                    strs(out@).contains(s) <==> (strs(first@.take(k as int)).contains(s) && forall|j: int|
                        0 <= j < sets@.len() ==> strs(#[trigger] sets@[j]@).contains(s)),
                all == (forall|j: int| 0 <= j < i ==> strs(#[trigger] sets@[j]@).contains(x@)),
            decreases sets@.len() - i,
        {
            if !holds(&sets[i], x) {
                all = false;
            }
            i = i + 1;
        }
        let ghost before = out@;
        if all {
            out.push(x.clone());
        }
        proof {
            assert(strs(first@.take(k + 1)) =~= strs(first@.take(k as int)).push(x@));
            assert forall|s: Seq<char>|
                strs(out@).contains(s) <==> (strs(first@.take(k + 1)).contains(s) && forall|i: int|
                    0 <= i < sets@.len() ==> strs(#[trigger] sets@[i]@).contains(s)) by {
                let t = strs(first@.take(k as int));
                assert(strs(first@.take(k + 1)).contains(s) <==> (t.contains(s) || s == x@)) by {
                    if s == x@ {
                        assert(strs(first@.take(k + 1))[k as int] == s);
                    }
                    if strs(first@.take(k + 1)).contains(s) && s != x@ {
                        let j = choose|j: int| 0 <= j < k + 1 && #[trigger] strs(first@.take(k + 1))[j] == s;
                        assert(t[j] == s);
                    }
                    if t.contains(s) {
                        let j = choose|j: int| 0 <= j < k && #[trigger] t[j] == s;
                        assert(strs(first@.take(k + 1))[j] == s);
                    }
                }
                if all {
                    assert(strs(out@) =~= strs(before).push(x@));
                    assert(strs(out@).contains(s) <==> (strs(before).contains(s) || s == x@)) by {
                        if s == x@ {
                            assert(strs(out@)[before.len() as int] == s);
                        }
                        if strs(out@).contains(s) && s != x@ {
                            let j = choose|j: int| 0 <= j < strs(out@).len() && strs(out@)[j] == s;
                            assert(strs(before)[j] == s);
                        }
                        if strs(before).contains(s) {
                            let j = choose|j: int| 0 <= j < strs(before).len() && strs(before)[j] == s;
                            assert(strs(out@)[j] == s);
                        }
                    }
                } else {
                    assert(strs(out@) =~= strs(before));
                }
            }
        }
        k = k + 1;
    }
    proof {
        assert(first@.take(k as int) =~= first@);
        assert forall|s: Seq<char>|
            (forall|i: int| 0 <= i < sets@.len() ==> strs(#[trigger] sets@[i]@).contains(s)) implies strs(
            first@,
        ).contains(s) by {
            assert(strs(sets@[0]@).contains(s));
        }
    }
    out
}

/// An annotated matrix under a name.
#[derive(Debug)]
pub struct NamedAnnData {
    pub name: String,
    pub data: AnnData,
}

/// Annotated matrices stacked along the observations, sharing their variables.
#[derive(Debug)]
pub struct AnnDataSet {
    pub anndatas: Vec<NamedAnnData>,
    pub n_obs: usize,
    pub n_vars: usize,
    /// Observation columns that every member has.
    pub obs: Vec<String>,
    /// `obsm` keys that every member has.
    pub obsm: Vec<String>,
}

/// The observation column names of a member.
pub open spec fn obs_names(a: AnnData) -> Seq<Seq<char>> {
    match a.obs {
        Some(f) => names_of(f.columns@),
        None => Seq::empty(),
    }
}

/// Total number of observations.
pub open spec fn obs_total(ads: Seq<NamedAnnData>) -> int
    decreases ads.len(),
{
    if ads.len() == 0 {
        0
    } else {
        obs_total(ads.drop_last()) + ads.last().data.n_obs
    }
}

/// The identifying column of a frame: the first column named by its index name.
pub open spec fn id_column(cols: Seq<crate::frame::Column>, name: Seq<char>) -> Option<DynArray>
    decreases cols.len(),
{
    if cols.len() == 0 {
        None
    } else if cols[0].name@ == name {
        Some(cols[0].values)
    } else {
        id_column(cols.drop_first(), name)
    }
}

/// The identifying column of a member's variable frame.
pub open spec fn var_ids(a: AnnData) -> Option<DynArray> {
    match a.var {
        Some(f) => id_column(f.columns@, f.index_name@),
        None => None,
    }
}

/// Every member has variable identifiers, all equal to those of the first.
pub open spec fn vars_agree(ads: Seq<NamedAnnData>) -> bool {
    forall|k: int|
        0 <= k < ads.len() ==> var_ids(#[trigger] ads[k].data) is Some && var_ids(ads[k].data)->0.equal_values(
            var_ids(ads[0].data)->0,
        )
}

/// The chunks of `X` of every member, member after member.
pub open spec fn all_chunks(ads: Seq<NamedAnnData>, size: usize) -> Seq<(usize, usize, usize)>
    decreases ads.len(),
{
    if ads.len() == 0 {
        Seq::empty()
    } else {
        let n = match ads.last().data.x {
            Some(x) => x.nrows,
            None => 0,
        };
        all_chunks(ads.drop_last(), size) + Seq::new(
            nchunks(n, size),
            |c: int| ((ads.len() - 1) as usize, chunk_at(n, size, c).0, chunk_at(n, size, c).1),
        )
    }
}

fn find_id_column(f: &DataFrame) -> (r: Option<&DynArray>)
    ensures
        r matches Some(a) ==> id_column(f.columns@, f.index_name@) == Some(*a),
        r is None ==> id_column(f.columns@, f.index_name@) is None,
{
    let mut i: usize = 0;
    assert(f.columns@.skip(0) =~= f.columns@);
    while i < f.columns.len()
        invariant
            i <= f.columns@.len(),
            id_column(f.columns@, f.index_name@) == id_column(f.columns@.skip(i as int), f.index_name@),
        decreases f.columns@.len() - i,
    {
        assert(f.columns@.skip(i as int).drop_first() =~= f.columns@.skip(i + 1));
        if f.columns[i].name == f.index_name {
            return Some(&f.columns[i].values);
        }
        i = i + 1;
    }
    None
}

impl AnnDataSet {
    /// Stacks annotated matrices along the observations. All must have the same variable
    /// identifiers; the observation count is the sum of theirs, the variable count the first
    /// one's, and the observation columns and `obsm` keys kept are those every member has.
    pub fn new(anndatas: Vec<NamedAnnData>) -> (r: Result<AnnDataSet, Error>)
        requires
            anndatas@.len() > 0,
        ensures
            !vars_agree(anndatas@) ==> r == Err::<AnnDataSet, Error>(Error::AxisMismatch),
            vars_agree(anndatas@) && obs_total(anndatas@) > usize::MAX ==> r == Err::<AnnDataSet, Error>(
                Error::ShapeMismatch,
            ),
            vars_agree(anndatas@) && obs_total(anndatas@) <= usize::MAX ==> (r matches Ok(s)
                && s.anndatas@ == anndatas@ && s.n_obs == obs_total(anndatas@) && s.n_vars
                == anndatas@[0].data.n_vars),
            r matches Ok(s) ==> forall|t: Seq<char>|
                strs(s.obs@).contains(t) <==> (forall|k: int|
                    0 <= k < anndatas@.len() ==> obs_names(#[trigger] anndatas@[k].data).contains(t)),
            r matches Ok(s) ==> forall|t: Seq<char>|
                strs(s.obsm@).contains(t) <==> (forall|k: int|
                    0 <= k < anndatas@.len() ==> keys_of(#[trigger] anndatas@[k].data.obsm.entries@).contains(t)),
    {
        let first = match &anndatas[0].data.var {
            Some(f) => match find_id_column(f) {
                Some(c) => c,
                None => {
                    return Err(Error::AxisMismatch);
                },
            },
            None => {
                return Err(Error::AxisMismatch);
            },
        };
        let mut total: usize = 0;
        let mut obs_sets: Vec<Vec<String>> = Vec::new();
        let mut obsm_sets: Vec<Vec<String>> = Vec::new();
        let mut k: usize = 0;
        while k < anndatas.len()
            invariant
                k <= anndatas@.len(),
                anndatas@.len() > 0,
                var_ids(anndatas@[0].data) == Some(*first),
                forall|j: int| 0 <= j < k ==> var_ids(#[trigger] anndatas@[j].data) is Some && var_ids(
                    anndatas@[j].data,
                )->0.equal_values(*first),
                total == obs_total(anndatas@.take(k as int)),
                obs_sets@.len() == k,
                obsm_sets@.len() == k,
                forall|j: int| 0 <= j < k ==> strs((#[trigger] obs_sets@[j])@) == obs_names(anndatas@[j].data),
                forall|j: int| 0 <= j < k ==> strs((#[trigger] obsm_sets@[j])@) == keys_of(anndatas@[j].data.obsm.entries@),
            decreases anndatas@.len() - k,
        {
            let a = &anndatas[k].data;
            let ids = match &a.var {
                Some(f) => match find_id_column(f) {
                    Some(c) => c,
                    None => {
                        return Err(Error::AxisMismatch);
                    },
                },
                None => {
                    return Err(Error::AxisMismatch);
                },
            };
            if !ids.equals(first) {
                return Err(Error::AxisMismatch);
            }
            assert(anndatas@.take(k + 1).drop_last() =~= anndatas@.take(k as int));
            total = match total.checked_add(a.n_obs) {
                Some(t) => t,
                None => {
                    proof {
                        lemma_obs_total_prefix(anndatas@, k + 1);
                    }
                    if vars_agree_exec(&anndatas, first) {
                        return Err(Error::ShapeMismatch);
                    }
                    return Err(Error::AxisMismatch);
                },
            };
            let names = match &a.obs {
                Some(f) => f.column_names(),
                None => Vec::new(),
            };
            assert(strs(names@) =~= obs_names(*a));
            obs_sets.push(names);
            obsm_sets.push(a.obsm.keys());
            k = k + 1;
        }
        assert(anndatas@.take(k as int) =~= anndatas@);
        let n_vars = anndatas[0].data.n_vars;
        let ghost os = obs_sets@;
        let ghost ms = obsm_sets@;
        let obs = intersections(obs_sets);
        let obsm = intersections(obsm_sets);
        proof {
            assert forall|t: Seq<char>| strs(obs@).contains(t) <==> (forall|k: int|
                0 <= k < anndatas@.len() ==> obs_names(#[trigger] anndatas@[k].data).contains(t)) by {
                if forall|k: int| 0 <= k < anndatas@.len() ==> obs_names(#[trigger] anndatas@[k].data).contains(t) {
                    assert forall|i: int| 0 <= i < os.len() implies strs(#[trigger] os[i]@).contains(t) by {
                        assert(obs_names(anndatas@[i].data).contains(t));
                    }
                }
                if strs(obs@).contains(t) {
                    assert forall|k: int| 0 <= k < anndatas@.len() implies obs_names(#[trigger] anndatas@[k].data).contains(t) by {
                        assert(strs(os[k]@).contains(t));
                    }
                }
            }
            assert forall|t: Seq<char>| strs(obsm@).contains(t) <==> (forall|k: int|
                0 <= k < anndatas@.len() ==> keys_of(#[trigger] anndatas@[k].data.obsm.entries@).contains(t)) by {
                if forall|k: int| 0 <= k < anndatas@.len() ==> keys_of(#[trigger] anndatas@[k].data.obsm.entries@).contains(t) {
                    assert forall|i: int| 0 <= i < ms.len() implies strs(#[trigger] ms[i]@).contains(t) by {
                        assert(keys_of(anndatas@[i].data.obsm.entries@).contains(t));
                    }
                }
                if strs(obsm@).contains(t) {
                    assert forall|k: int| 0 <= k < anndatas@.len() implies keys_of(#[trigger] anndatas@[k].data.obsm.entries@).contains(t) by {
                        assert(strs(ms[k]@).contains(t));
                    }
                }
            }
        }
        Ok(AnnDataSet { anndatas, n_obs: total, n_vars, obs, obsm })
    }

    pub fn n_obs(&self) -> (r: usize)
        ensures
            r == self.n_obs,
    {
        self.n_obs
    }

    pub fn n_vars(&self) -> (r: usize)
        ensures
            r == self.n_vars,
    {
        self.n_vars
    }

    /// The row ranges read when `X` is read `size` rows at a time, as (member, start, end),
    /// member after member; chunks are not realigned across members.
    pub fn chunked_x(&self, size: usize) -> (r: Vec<(usize, usize, usize)>)
        requires
            size > 0,
        ensures
            r@ == all_chunks(self.anndatas@, size),
    {
        let mut out: Vec<(usize, usize, usize)> = Vec::new();
        let mut k: usize = 0;
        while k < self.anndatas.len()
            invariant
                size > 0,
                k <= self.anndatas@.len(),
                out@ == all_chunks(self.anndatas@.take(k as int), size),
            decreases self.anndatas@.len() - k,
        {
            let n = match &self.anndatas[k].data.x {
                Some(x) => x.nrows,
                None => 0,
            };
            let bounds = chunk_bounds(n, size);
            let ghost before = out@;
            let mut c: usize = 0;
            while c < bounds.len()
                invariant
                    c <= bounds@.len(),
                    bounds@.len() == nchunks(n, size),
                    forall|t: int| 0 <= t < bounds@.len() ==> #[trigger] bounds@[t] == chunk_at(n, size, t),
                    out@ == before + Seq::new(
                        c as nat,
                        |t: int| (k, chunk_at(n, size, t).0, chunk_at(n, size, t).1),
                    ),
                decreases bounds@.len() - c,
            {
                let (s, e) = bounds[c];
                out.push((k, s, e));
                assert(bounds@[c as int] == chunk_at(n, size, c as int));
                assert(out@ =~= before + Seq::new(
                    (c + 1) as nat,
                    |t: int| (k, chunk_at(n, size, t).0, chunk_at(n, size, t).1),
                ));
                c = c + 1;
            }
            proof {
                let t = self.anndatas@.take(k + 1);
                assert(t.drop_last() =~= self.anndatas@.take(k as int));
                assert(t.last() == self.anndatas@[k as int]);
                assert(out@ =~= all_chunks(t, size));
            }
            k = k + 1;
        }
        assert(self.anndatas@.take(k as int) =~= self.anndatas@);
        out
    }
}

fn vars_agree_exec(anndatas: &Vec<NamedAnnData>, first: &DynArray) -> (r: bool)
    requires
        anndatas@.len() > 0,
        var_ids(anndatas@[0].data) == Some(*first),
    ensures
        r == vars_agree(anndatas@),
{
    let mut k: usize = 0;
    while k < anndatas.len()
        invariant
            k <= anndatas@.len(),
            anndatas@.len() > 0,
            var_ids(anndatas@[0].data) == Some(*first),
            forall|j: int| 0 <= j < k ==> var_ids(#[trigger] anndatas@[j].data) is Some && var_ids(
                anndatas@[j].data,
            )->0.equal_values(*first),
        decreases anndatas@.len() - k,
    {
        let ok = match &anndatas[k].data.var {
            Some(f) => match find_id_column(f) {
                Some(c) => c.equals(first),
                None => false,
            },
            None => false,
        };
        if !ok {
            assert(!(var_ids(anndatas@[k as int].data) is Some && var_ids(anndatas@[k as int].data)->0.equal_values(
                var_ids(anndatas@[0].data)->0,
            )));
            return false;
        }
        k = k + 1;
    }
    true
}

proof fn lemma_obs_total_prefix(ads: Seq<NamedAnnData>, k: int)
    requires
        0 <= k <= ads.len(),
    ensures
        obs_total(ads.take(k)) <= obs_total(ads),
    decreases ads.len() - k,
{
    if k < ads.len() {
        lemma_obs_total_prefix(ads, k + 1);
        assert(ads.take(k + 1).drop_last() =~= ads.take(k));
    } else {
        assert(ads.take(k) =~= ads);
    }
}

} // verus!
