use vstd::prelude::*;

verus! {

/// Product of a sequence of dimension sizes; the empty product is one.
pub open spec fn prod(s: Seq<usize>) -> nat
    decreases s.len(),
{
    if s.len() == 0 {
        1
    } else {
        (s[0] as nat) * prod(s.drop_first())
    }
}

pub proof fn lemma_prod_push(s: Seq<usize>, x: usize)
    ensures
        prod(s.push(x)) == prod(s) * x,
    decreases s.len(),
{
    if s.len() == 0 {
        assert(s.push(x).drop_first() =~= s);
        assert(prod(s) == 1);
        assert(prod(s.push(x)) == x * prod(s));
    } else {
        lemma_prod_push(s.drop_first(), x);
        assert(s.push(x).drop_first() =~= s.drop_first().push(x));
        assert(s.push(x)[0] == s[0]);
        assert(prod(s.push(x)) == s[0] * prod(s.drop_first().push(x)));
        assert(s[0] * (prod(s.drop_first()) * x) == (s[0] * prod(s.drop_first())) * x)
            by (nonlinear_arith);
    }
}

/// With no zero dimension, a suffix of a shape spans no more elements than the whole.
pub proof fn lemma_prod_skip_le(s: Seq<usize>, j: int)
    requires
        0 <= j <= s.len(),
        forall|a: int| 0 <= a < s.len() ==> #[trigger] s[a] >= 1,
    ensures
        prod(s.skip(j)) <= prod(s),
    decreases j,
{
    if j > 0 {
        lemma_prod_skip_le(s, j - 1);
        assert(s.skip(j - 1).drop_first() =~= s.skip(j));
        let p = prod(s.skip(j));
        assert(s[j - 1] * p >= p) by (nonlinear_arith)
            requires
                s[j - 1] >= 1,
        ;
    } else {
        assert(s.skip(0) =~= s);
    }
}

/// A shape has no elements exactly when one of its dimensions is zero.
pub proof fn lemma_prod_zero(s: Seq<usize>)
    ensures
        (prod(s) == 0) == (exists|a: int| 0 <= a < s.len() && s[a] == 0),
    decreases s.len(),
{
    if s.len() > 0 {
        lemma_prod_zero(s.drop_first());
        let p = prod(s.drop_first());
        assert((s[0] * p == 0) == (s[0] == 0 || p == 0)) by (nonlinear_arith);
        if exists|a: int| 0 <= a < s.len() && s[a] == 0 {
            let a = choose|a: int| 0 <= a < s.len() && s[a] == 0;
            if a > 0 {
                assert(s.drop_first()[a - 1] == 0);
            }
        }
        if exists|a: int| 0 <= a < s.drop_first().len() && s.drop_first()[a] == 0 {
            let a = choose|a: int| 0 <= a < s.drop_first().len() && s.drop_first()[a] == 0;
            assert(s[a + 1] == 0);
        }
    }
}

/// Number of elements of an array of shape `shape`, or `None` where it exceeds `usize`.
pub fn shape_size(shape: &Vec<usize>) -> (r: Option<usize>)
    ensures
        r matches Some(n) ==> n == prod(shape@),
        r is None ==> prod(shape@) > usize::MAX,
{
    let mut z: usize = 0;
    while z < shape.len()
        invariant
            z <= shape@.len(),
            forall|a: int| 0 <= a < z ==> shape@[a] != 0,
        decreases shape@.len() - z,
    {
        if shape[z] == 0 {
            proof {
                lemma_prod_zero(shape@);
            }
            return Some(0);
        }
        z = z + 1;
    }
    let mut i: usize = shape.len();
    let mut acc: usize = 1;
    assert(shape@.skip(i as int) =~= Seq::<usize>::empty());
    while i > 0
        invariant
            i <= shape@.len(),
            acc == prod(shape@.skip(i as int)),
            forall|a: int| 0 <= a < shape@.len() ==> #[trigger] shape@[a] >= 1,
        decreases i,
    {
        assert(shape@.skip(i - 1).drop_first() =~= shape@.skip(i as int));
        match shape[i - 1].checked_mul(acc) {
            Some(v) => {
                acc = v;
            },
            None => {
                proof {
                    lemma_prod_skip_le(shape@, i - 1);
                }
                return None;
            },
        }
        i = i - 1;
    }
    assert(shape@.skip(0) =~= shape@);
    Some(acc)
}

/// The dimension sizes of an N-dimensional array; a shape of no axes describes a scalar.
#[derive(Clone, Debug, PartialEq, Eq)]
pub struct Shape {
    pub dims: Vec<usize>,
}

impl View for Shape {
    type V = Seq<usize>;

    open spec fn view(&self) -> Seq<usize> {
        self.dims@
    }
}

impl Shape {
    pub fn new(dims: Vec<usize>) -> (r: Shape)
        ensures
            r@ == dims@,
    {
        Shape { dims }
    }

    /// Number of axes.
    pub fn ndim(&self) -> (r: usize)
        ensures
            r == self@.len(),
    {
        self.dims.len()
    }
}

} // verus!
