use vstd::prelude::*;
use crate::error::Error;
use crate::layout::{int_lists, lists_within, prod_lens};
use crate::shape::{prod, lemma_prod_push};

verus! {

/// Number of elements of the half-open range `[start, end)` taken every `step_abs` elements.
pub open spec fn range_len(start: int, end: int, step_abs: int) -> int {
    if end <= start || step_abs <= 0 {
        0
    } else {
        (end - start - 1) / step_abs + 1
    }
}

/// Magnitude of a non-zero step.
pub open spec fn step_abs(step: isize) -> int {
    if step < 0 { -step } else { step as int }
}

/// The `k`-th position picked by a range: forward from `start` for a positive step,
/// backward from `end - 1` for a negative one.
pub open spec fn range_at(start: int, end: int, step: isize, k: int) -> int {
    if step > 0 {
        start + k * step_abs(step)
    } else {
        end - 1 - k * step_abs(step)
    }
}

/// A step of a range stays inside it: the `k`-th pick lies less than `end - start` past the
/// first one.
pub proof fn lemma_range_step_below(start: int, end: int, a: int, k: int)
    requires
        a > 0,
        start < end,
        0 <= k < range_len(start, end, a),
    ensures
        0 <= k * a < end - start,
{
    let d = end - start - 1;
    let q = d / a;
    assert(d == a * q + d % a && 0 <= d % a < a) by {
        vstd::arithmetic::div_mod::lemma_fundamental_div_mod(d, a);
    }
    assert(k <= q);
    assert(0 <= k * a <= q * a) by (nonlinear_arith)
        requires
            0 <= k <= q,
            a > 0,
    ;
}

/// Selection along one axis.
#[derive(Clone, Debug, PartialEq, Eq)]
pub enum SelectInfoElem {
    /// The whole axis.
    Full,
    /// Every `|step|`-th element of `[start, end)`; a negative step walks it backwards.
    Range { start: usize, end: usize, step: isize },
    /// The listed positions, in order; repeats are allowed.
    Index(Vec<usize>),
    /// One position; the axis is dropped from the result.
    Scalar(usize),
}

/// Checks that every entry of `v` is below `len`.
pub fn all_below(v: &Vec<usize>, len: usize) -> (r: bool)
    ensures
        r == (v@.len() <= usize::MAX && forall|j: int| 0 <= j < v@.len() ==> v@[j] < len),
{
    let n = v.len();
    assert(n == v@.len());
    let mut j: usize = 0;
    while j < v.len()
        invariant
            j <= v.len(),
            forall|i: int| 0 <= i < j ==> v@[i] < len,
        decreases v.len() - j,
    {
        if v[j] >= len {
            assert(!(v@[j as int] < len));
            return false;
        }
        j = j + 1;
    }
    true
}

impl SelectInfoElem {
    /// The positions along an axis of length `len` that this selection picks, in order.
    pub open spec fn indices(&self, len: nat) -> Seq<int> {
        match self {
            SelectInfoElem::Full => Seq::new(len, |i: int| i),
            SelectInfoElem::Range { start, end, step } => Seq::new(
                range_len(*start as int, *end as int, step_abs(*step)) as nat,
                |k: int| range_at(*start as int, *end as int, *step, k),
            ),
            SelectInfoElem::Index(v) => v@.map_values(|x: usize| x as int),
            SelectInfoElem::Scalar(i) => seq![*i as int],
        }
    }

    /// Whether the selection is well formed for an axis of length `len`.
    pub open spec fn valid_for(&self, len: nat) -> bool {
        match self {
            SelectInfoElem::Full => true,
            SelectInfoElem::Range { start, end, step } => *step != 0 && *end <= len && (*step > 0
                ==> *start <= *end),
            SelectInfoElem::Index(v) => v@.len() <= usize::MAX && forall|j: int|
                0 <= j < v@.len() ==> v@[j] < len,
            SelectInfoElem::Scalar(i) => *i < len,
        }
    }

    /// Whether the axis is kept in the selected result.
    pub open spec fn keeps_axis(&self) -> bool {
        !(self is Scalar)
    }

    /// Resolves the selection to the list of positions it picks along an axis of length `len`.
    pub fn resolve(&self, len: usize) -> (r: Vec<usize>)
        requires
            self.valid_for(len as nat),
        ensures
            r@.map_values(|x: usize| x as int) == self.indices(len as nat),
            forall|j: int| 0 <= j < r@.len() ==> r@[j] < len,
            r@.len() <= usize::MAX,
    {
        match self {
            SelectInfoElem::Full => {
                let mut out: Vec<usize> = Vec::new();
                let mut k: usize = 0;
                while k < len
                    invariant
                        k <= len,
                        out@.len() == k,
                        forall|i: int| 0 <= i < k ==> out@[i] == i && out@[i] < len,
                    decreases len - k,
                {
                    out.push(k);
                    k = k + 1;
                }
                assert(out@.map_values(|x: usize| x as int) =~= Seq::new(len as nat, |i: int| i));
                out
            },
            SelectInfoElem::Range { start, end, step } => {
                let a: usize = if *step > 0 {
                    *step as usize
                } else {
                    ((-(*step + 1)) as usize) + 1
                };
                let n: usize = if *end <= *start {
                    0
                } else {
                    (*end - *start - 1) / a + 1
                };
                let ghost want = self.indices(len as nat);
                assert(n == want.len());
                let mut out: Vec<usize> = Vec::new();
                let mut k: usize = 0;
                while k < n
                    invariant
                        k <= n,
                        n == want.len(),
                        a == step_abs(*step),
                        a > 0,
                        *end <= len,
                        n == range_len(*start as int, *end as int, a as int),
                        want == Seq::new(n as nat, |i: int| range_at(*start as int, *end as int, *step, i)),
                        out@.len() == k,
                        forall|i: int| 0 <= i < k ==> out@[i] as int == want[i],
                        forall|i: int| 0 <= i < k ==> out@[i] < len,
                    decreases n - k,
                {
                    proof {
                        lemma_range_step_below(*start as int, *end as int, a as int, k as int);
                    }
                    let p: usize = if *step > 0 {
                        *start + k * a
                    } else {
                        *end - 1 - k * a
                    };
                    out.push(p);
                    k = k + 1;
                }
                assert(out@.map_values(|x: usize| x as int) =~= want);
                out
            },
            SelectInfoElem::Index(v) => {
                let out = v.clone();
                let count = out.len();
                assert(count == out@.len());
                assert(out@.map_values(|x: usize| x as int) == self.indices(len as nat));
                assert(forall|j: int| 0 <= j < out@.len() ==> out@[j] == v@[j]);
                out
            },
            SelectInfoElem::Scalar(i) => {
                let out = vec![*i];
                assert(out@.map_values(|x: usize| x as int) =~= seq![*i as int]);
                out
            },
        }
    }

    pub fn full() -> (r: SelectInfoElem)
        ensures
            r == SelectInfoElem::Full,
    {
        SelectInfoElem::Full
    }

    /// Checks that the selection is well formed for an axis of length `len`.
    pub fn is_valid_for(&self, len: usize) -> (r: bool)
        ensures
            r == self.valid_for(len as nat),
    {
        match self {
            SelectInfoElem::Full => true,
            SelectInfoElem::Range { start, end, step } => *step != 0 && *end <= len && (*step < 0
                || *start <= *end),
            SelectInfoElem::Index(v) => all_below(v, len),
            SelectInfoElem::Scalar(i) => *i < len,
        }
    }
}

/// Shape of the result of selecting `elems` from an array of shape `shape`: one axis for each
/// selection but a scalar one, as long as the positions it picks.
pub open spec fn out_shape_of(elems: Seq<SelectInfoElem>, shape: Seq<usize>) -> Seq<usize>
    decreases elems.len(),
{
    if elems.len() == 0 {
        Seq::empty()
    } else {
        let rest = out_shape_of(elems.drop_last(), shape.drop_last());
        let e = elems.last();
        if e.keeps_axis() {
            rest.push(e.indices(shape.last() as nat).len() as usize)
        } else {
            rest
        }
    }
}

/// A selection with one element per axis.
#[derive(Clone, Debug, PartialEq, Eq)]
pub struct SelectInfo {
    pub elems: Vec<SelectInfoElem>,
}

impl SelectInfo {
    /// Whether there is one well formed selection for each axis of `shape`.
    pub open spec fn valid_for(&self, shape: Seq<usize>) -> bool {
        &&& self.elems@.len() == shape.len()
        &&& forall|a: int| 0 <= a < shape.len() ==> (#[trigger] self.elems@[a]).valid_for(shape[a] as nat)
    }

    /// The positions picked along each axis.
    pub open spec fn index_lists(&self, shape: Seq<usize>) -> Seq<Seq<int>> {
        Seq::new(self.elems@.len(), |a: int| self.elems@[a].indices(shape[a] as nat))
    }

    /// Shape of the selected part of an array of shape `shape`.
    pub open spec fn out_shape(&self, shape: Seq<usize>) -> Seq<usize> {
        out_shape_of(self.elems@, shape)
    }

    pub fn new(elems: Vec<SelectInfoElem>) -> (r: SelectInfo)
        ensures
            r.elems@ == elems@,
    {
        SelectInfo { elems }
    }

    /// A selection of the whole of every one of `n` axes.
    pub fn full_slice(n: usize) -> (r: SelectInfo)
        ensures
            r.elems@.len() == n,
            forall|a: int| 0 <= a < n ==> r.elems@[a] == SelectInfoElem::Full,
    {
        let mut elems: Vec<SelectInfoElem> = Vec::new();
        let mut i: usize = 0;
        while i < n
            invariant
                i <= n,
                elems@.len() == i,
                forall|a: int| 0 <= a < i ==> elems@[a] == SelectInfoElem::Full,
            decreases n - i,
        {
            elems.push(SelectInfoElem::Full);
            i = i + 1;
        }
        SelectInfo { elems }
    }

    /// Resolves the selection against `shape` into one list of positions per axis.
    pub fn resolve(&self, shape: &Vec<usize>) -> (r: Result<Vec<Vec<usize>>, Error>)
        ensures
            self.elems@.len() != shape@.len() ==> r == Err::<Vec<Vec<usize>>, Error>(
                Error::ShapeMismatch,
            ),
            self.elems@.len() == shape@.len() && !self.valid_for(shape@) ==> r == Err::<
                Vec<Vec<usize>>,
                Error,
            >(Error::Bounds),
            self.valid_for(shape@) ==> (r matches Ok(lists) && int_lists(lists@)
                == self.index_lists(shape@) && lists_within(shape@, int_lists(lists@)) && forall|
                b: int,
            | 0 <= b < lists@.len() ==> (#[trigger] lists@[b])@.len() <= usize::MAX),
    {
        if self.elems.len() != shape.len() {
            return Err(Error::ShapeMismatch);
        }
        let mut lists: Vec<Vec<usize>> = Vec::new();
        let mut a: usize = 0;
        while a < shape.len()
            invariant
                a <= shape@.len(),
                self.elems@.len() == shape@.len(),
                lists@.len() == a,
                forall|b: int| 0 <= b < a ==> (#[trigger] self.elems@[b]).valid_for(shape@[b] as nat),
                forall|b: int|
                    0 <= b < a ==> (#[trigger] lists@[b])@.map_values(|x: usize| x as int)
                        == self.elems@[b].indices(shape@[b] as nat),
                forall|b: int, j: int|
                    0 <= b < a && 0 <= j < lists@[b]@.len() ==> #[trigger] lists@[b]@[j] < shape@[b],
                forall|b: int| 0 <= b < a ==> (#[trigger] lists@[b])@.len() <= usize::MAX,
            decreases shape@.len() - a,
        {
            if !self.elems[a].is_valid_for(shape[a]) {
                return Err(Error::Bounds);
            }
            let l = self.elems[a].resolve(shape[a]);
            lists.push(l);
            a = a + 1;
        }
        proof {
            assert(int_lists(lists@) =~= self.index_lists(shape@));
            let ls = int_lists(lists@);
            assert forall|b: int, j: int| 0 <= b < shape@.len() && 0 <= j < ls[b].len() implies 0
                <= #[trigger] ls[b][j] < shape@[b] by {
                assert(ls[b][j] == lists@[b]@[j] as int);
            }
        }
        Ok(lists)
    }

    /// Shape of the selected part of an array of shape `shape`.
    pub fn output_shape(&self, shape: &Vec<usize>) -> (r: Vec<usize>)
        requires
            self.valid_for(shape@),
        ensures
            r@ == self.out_shape(shape@),
    {
        let mut out: Vec<usize> = Vec::new();
        let mut a: usize = 0;
        while a < shape.len()
            invariant
                a <= shape@.len(),
                self.valid_for(shape@),
                out@ == out_shape_of(self.elems@.take(a as int), shape@.take(a as int)),
            decreases shape@.len() - a,
        {
            let e = &self.elems[a];
            assert(self.elems@.take(a + 1).drop_last() =~= self.elems@.take(a as int));
            assert(shape@.take(a + 1).drop_last() =~= shape@.take(a as int));
            match e {
                SelectInfoElem::Scalar(_) => {},
                _ => {
                    let l = e.resolve(shape[a]);
                    assert(l@.len() == e.indices(shape@[a as int] as nat).len());
                    out.push(l.len());
                },
            }
            a = a + 1;
        }
        assert(self.elems@.take(a as int) =~= self.elems@);
        assert(shape@.take(a as int) =~= shape@);
        out
    }
}

/// Each axis of the result has as many entries as the positions picked along it, so the result
/// has as many elements as the selection picks.
pub proof fn lemma_out_shape_size(elems: Seq<SelectInfoElem>, shape: Seq<usize>)
    requires
        elems.len() == shape.len(),
        forall|a: int| 0 <= a < shape.len() ==> (#[trigger] elems[a]).indices(shape[a] as nat).len() <= usize::MAX,
    ensures
        prod(out_shape_of(elems, shape)) == prod_lens(
            Seq::new(elems.len(), |a: int| elems[a].indices(shape[a] as nat)),
        ),
    decreases elems.len(),
{
    let ls = Seq::new(elems.len(), |a: int| elems[a].indices(shape[a] as nat));
    if elems.len() == 0 {
        assert(prod(Seq::<usize>::empty()) == 1);
        assert(prod_lens(ls) == 1);
    } else {
        let n = elems.len() - 1;
        let ed = elems.drop_last();
        let sd = shape.drop_last();
        lemma_out_shape_size(ed, sd);
        let ls2 = Seq::new(ed.len(), |a: int| ed[a].indices(sd[a] as nat));
        assert(ls2 =~= ls.drop_last());
        lemma_prod_lens_push(ls2, ls[n]);
        assert(ls2.push(ls[n]) =~= ls);
        let e = elems.last();
        assert(e.indices(shape.last() as nat).len() <= usize::MAX);
        lemma_prod_push(out_shape_of(ed, sd), e.indices(shape.last() as nat).len() as usize);
        assert(ls[n] == e.indices(shape.last() as nat));
        if !e.keeps_axis() {
            assert(ls[n].len() == 1);
            assert(prod_lens(ls) == prod_lens(ls2) * 1);
        } else {
            assert(out_shape_of(elems, shape) == out_shape_of(ed, sd).push(
                e.indices(shape.last() as nat).len() as usize,
            ));
        }
    }
}

pub proof fn lemma_prod_lens_push(ls: Seq<Seq<int>>, l: Seq<int>)
    ensures
        prod_lens(ls.push(l)) == prod_lens(ls) * l.len(),
    decreases ls.len(),
{
    if ls.len() == 0 {
        assert(ls.push(l).drop_first() =~= ls);
        assert(prod_lens(ls) == 1);
        assert(prod_lens(ls.push(l)) == l.len() * prod_lens(ls));
        assert(l.len() * 1 == 1 * l.len()) by (nonlinear_arith);
    } else {
        lemma_prod_lens_push(ls.drop_first(), l);
        assert(ls.push(l).drop_first() =~= ls.drop_first().push(l));
        assert(ls.push(l)[0] == ls[0]);
        assert(prod_lens(ls.push(l)) == ls[0].len() * prod_lens(ls.drop_first().push(l)));
        assert(ls[0].len() * (prod_lens(ls.drop_first()) * l.len()) == (ls[0].len() * prod_lens(
            ls.drop_first(),
        )) * l.len()) by (nonlinear_arith);
    }
}

/// A well formed selection picks no more positions than fit in `usize`.
pub proof fn lemma_indices_len_fits(e: SelectInfoElem, len: nat)
    requires
        e.valid_for(len),
        len <= usize::MAX,
    ensures
        e.indices(len).len() <= usize::MAX,
{
    match e {
        SelectInfoElem::Range { start, end, step } => {
            if start < end {
                let d = end - start - 1;
                let a = step_abs(step);
                assert(d / a <= d) by {
                    vstd::arithmetic::div_mod::lemma_div_is_ordered_by_denominator(d as int, 1, a);
                }
            }
        },
        _ => {},
    }
}

/// Positions of the `true` entries of a mask, in order.
pub open spec fn mask_indices(mask: Seq<bool>) -> Seq<usize>
    decreases mask.len(),
{
    if mask.len() == 0 {
        Seq::empty()
    } else if mask.last() {
        mask_indices(mask.drop_last()).push((mask.len() - 1) as usize)
    } else {
        mask_indices(mask.drop_last())
    }
}

/// Positions of the `true` entries of `mask`, in order.
pub fn boolean_mask_to_indices(mask: &Vec<bool>) -> (r: Vec<usize>)
    ensures
        r@ == mask_indices(mask@),
        forall|j: int| 0 <= j < r@.len() ==> #[trigger] r@[j] < mask@.len(),
{
    let mut out: Vec<usize> = Vec::new();
    let mut i: usize = 0;
    while i < mask.len()
        invariant
            i <= mask@.len(),
            out@ == mask_indices(mask@.take(i as int)),
            forall|j: int| 0 <= j < out@.len() ==> #[trigger] out@[j] < i,
        decreases mask@.len() - i,
    {
        assert(mask@.take(i + 1).drop_last() =~= mask@.take(i as int));
        if mask[i] {
            out.push(i);
        }
        i = i + 1;
    }
    assert(mask@.take(i as int) =~= mask@);
    out
}

impl SelectInfoElem {
    /// The selection of the positions where `mask`, one entry per position of an axis of length
    /// `len`, is `true`; an empty mask selects nothing.
    pub fn from_mask(mask: &Vec<bool>, len: usize) -> (r: Result<SelectInfoElem, Error>)
        ensures
            mask@.len() == len ==> r == Ok::<SelectInfoElem, Error>(
                SelectInfoElem::Index(r->Ok_0->Index_0),
            ) && r->Ok_0->Index_0@ == mask_indices(mask@),
            mask@.len() == 0 ==> (r matches Ok(e) && e is Index && e->Index_0@.len() == 0),
            mask@.len() != len && mask@.len() != 0 ==> r == Err::<SelectInfoElem, Error>(
                Error::ShapeMismatch,
            ),
    {
        if mask.len() == len {
            Ok(SelectInfoElem::Index(boolean_mask_to_indices(mask)))
        } else if mask.len() == 0 {
            Ok(SelectInfoElem::Index(Vec::new()))
        } else {
            Err(Error::ShapeMismatch)
        }
    }
}

} // verus!
