use vstd::prelude::*;
use crate::shape::prod;

verus! {

/// Row-major positions of the blocks picked by `first`: for each picked index `f`, in order,
/// the positions `f * stride + p` for every `p` of `sub`.
pub open spec fn expand(first: Seq<int>, stride: int, sub: Seq<int>) -> Seq<int>
    decreases first.len(),
{
    if first.len() == 0 {
        Seq::empty()
    } else {
        expand(first.drop_last(), stride, sub) + sub.map_values(|p: int| first.last() * stride + p)
    }
}

/// Flat row-major positions, within an array of shape `shape`, of the elements picked by one
/// list of indices per axis.
pub open spec fn positions(shape: Seq<usize>, lists: Seq<Seq<int>>) -> Seq<int>
    decreases shape.len(),
{
    if shape.len() == 0 {
        seq![0int]
    } else {
        expand(
            lists[0],
            prod(shape.drop_first()) as int,
            positions(shape.drop_first(), lists.drop_first()),
        )
    }
}

/// Product of the lengths of the index lists.
pub open spec fn prod_lens(lists: Seq<Seq<int>>) -> nat
    decreases lists.len(),
{
    if lists.len() == 0 {
        1
    } else {
        lists[0].len() * prod_lens(lists.drop_first())
    }
}

/// Every index list picks positions inside its axis.
pub open spec fn lists_within(shape: Seq<usize>, lists: Seq<Seq<int>>) -> bool {
    &&& lists.len() == shape.len()
    &&& forall|a: int, j: int|
        0 <= a < shape.len() && 0 <= j < lists[a].len() ==> 0 <= #[trigger] lists[a][j] < shape[a]
}

/// The list `0, 1, ..., n - 1`.
pub open spec fn iota(n: nat) -> Seq<int> {
    Seq::new(n, |i: int| i)
}

pub proof fn lemma_expand_len(first: Seq<int>, stride: int, sub: Seq<int>)
    ensures
        expand(first, stride, sub).len() == first.len() * sub.len(),
    decreases first.len(),
{
    if first.len() > 0 {
        lemma_expand_len(first.drop_last(), stride, sub);
        assert(first.len() * sub.len() == (first.len() - 1) * sub.len() + sub.len())
            by (nonlinear_arith);
    }
}

pub proof fn lemma_positions_len(shape: Seq<usize>, lists: Seq<Seq<int>>)
    requires
        lists.len() == shape.len(),
    ensures
        positions(shape, lists).len() == prod_lens(lists),
    decreases shape.len(),
{
    if shape.len() > 0 {
        lemma_positions_len(shape.drop_first(), lists.drop_first());
        lemma_expand_len(
            lists[0],
            prod(shape.drop_first()) as int,
            positions(shape.drop_first(), lists.drop_first()),
        );
    }
}

/// Every element of an expansion lies in the block of one of the picked indices.
pub proof fn lemma_expand_member(first: Seq<int>, stride: int, sub: Seq<int>, i: int)
    requires
        0 <= i < expand(first, stride, sub).len(),
    ensures
        exists|k: int, j: int|
            0 <= k < first.len() && 0 <= j < sub.len() && expand(first, stride, sub)[i]
                == first[k] * stride + sub[j],
    decreases first.len(),
{
    lemma_expand_len(first, stride, sub);
    let e = expand(first.drop_last(), stride, sub);
    lemma_expand_len(first.drop_last(), stride, sub);
    if i < e.len() {
        lemma_expand_member(first.drop_last(), stride, sub, i);
        let (k, j) = choose|k: int, j: int|
            0 <= k < first.drop_last().len() && 0 <= j < sub.len() && e[i] == first.drop_last()[k]
                * stride + sub[j];
        assert(expand(first, stride, sub)[i] == first[k] * stride + sub[j]);
    } else {
        let j = i - e.len();
        assert(expand(first, stride, sub)[i] == first[first.len() - 1] * stride + sub[j]);
    }
}

/// Blocks of distinct indices do not overlap.
pub proof fn lemma_block_disjoint(x: int, y: int, stride: int, p: int, q: int)
    requires
        x != y,
        0 <= p < stride,
        0 <= q < stride,
    ensures
        x * stride + p != y * stride + q,
{
    if x < y {
        assert(x * stride + stride <= y * stride) by (nonlinear_arith)
            requires
                x < y,
                stride > 0,
        ;
    } else {
        assert(y * stride + stride <= x * stride) by (nonlinear_arith)
            requires
                y < x,
                stride > 0,
        ;
    }
}

/// A block index below the axis length keeps its positions below the axis block bound.
pub proof fn lemma_block_below(x: int, n: int, stride: int, p: int)
    requires
        0 <= x < n,
        0 <= p < stride,
    ensures
        0 <= x * stride + p < n * stride,
{
    assert(0 <= x * stride + p && x * stride + stride <= n * stride) by (nonlinear_arith)
        requires
            0 <= x < n,
            0 <= p < stride,
    ;
}

pub proof fn lemma_positions_within(shape: Seq<usize>, lists: Seq<Seq<int>>)
    requires
        lists_within(shape, lists),
    ensures
        forall|i: int|
            0 <= i < positions(shape, lists).len() ==> 0 <= #[trigger] positions(shape, lists)[i]
                < prod(shape),
    decreases shape.len(),
{
    if shape.len() > 0 {
        let sh = shape.drop_first();
        let ls = lists.drop_first();
        assert(lists_within(sh, ls)) by {
            assert forall|a: int, j: int| 0 <= a < sh.len() && 0 <= j < ls[a].len() implies 0
                <= #[trigger] ls[a][j] < sh[a] by {
                assert(ls[a][j] == lists[a + 1][j]);
            }
        }
        lemma_positions_within(sh, ls);
        let sub = positions(sh, ls);
        let st = prod(sh) as int;
        assert forall|i: int| 0 <= i < positions(shape, lists).len() implies 0
            <= #[trigger] positions(shape, lists)[i] < prod(shape) by {
            lemma_expand_member(lists[0], st, sub, i);
            let (k, j) = choose|k: int, j: int|
                0 <= k < lists[0].len() && 0 <= j < sub.len() && expand(lists[0], st, sub)[i]
                    == lists[0][k] * st + sub[j];
            assert(0 <= lists[0][k] < shape[0]);
            lemma_block_below(lists[0][k], shape[0] as int, st, sub[j]);
        }
    }
}

pub proof fn lemma_expand_distinct(first: Seq<int>, stride: int, sub: Seq<int>)
    requires
        first.no_duplicates(),
        sub.no_duplicates(),
        forall|j: int| 0 <= j < sub.len() ==> 0 <= #[trigger] sub[j] < stride,
    ensures
        expand(first, stride, sub).no_duplicates(),
    decreases first.len(),
{
    if first.len() > 0 {
        let fd = first.drop_last();
        assert(fd.no_duplicates());
        lemma_expand_distinct(fd, stride, sub);
        let e = expand(fd, stride, sub);
        let f = first.last();
        let b = sub.map_values(|p: int| f * stride + p);
        lemma_expand_len(fd, stride, sub);
        assert forall|i: int, j: int| 0 <= i < e.len() && 0 <= j < b.len() implies e[i] != b[j] by {
            lemma_expand_member(fd, stride, sub, i);
            let (k, l) = choose|k: int, l: int|
                0 <= k < fd.len() && 0 <= l < sub.len() && e[i] == fd[k] * stride + sub[l];
            assert(fd[k] == first[k]);
            assert(first[k] != f);
            lemma_block_disjoint(fd[k], f, stride, sub[l], sub[j]);
        }
        let all = e + b;
        assert(all =~= expand(first, stride, sub));
        assert forall|i: int, j: int| 0 <= i < all.len() && 0 <= j < all.len() && i != j implies all[i]
            != all[j] by {
            if i < e.len() && j < e.len() {
            } else if i >= e.len() && j >= e.len() {
                assert(b[i - e.len()] == f * stride + sub[i - e.len()]);
                assert(b[j - e.len()] == f * stride + sub[j - e.len()]);
            } else if i < e.len() {
                assert(all[j] == b[j - e.len()]);
            } else {
                assert(all[i] == b[i - e.len()]);
            }
        }
    }
}

/// Index lists without repeats pick each flat position at most once.
pub proof fn lemma_positions_distinct(shape: Seq<usize>, lists: Seq<Seq<int>>)
    requires
        lists_within(shape, lists),
        forall|a: int| 0 <= a < lists.len() ==> (#[trigger] lists[a]).no_duplicates(),
    ensures
        positions(shape, lists).no_duplicates(),
    decreases shape.len(),
{
    if shape.len() > 0 {
        let sh = shape.drop_first();
        let ls = lists.drop_first();
        assert(lists_within(sh, ls)) by {
            assert forall|a: int, j: int| 0 <= a < sh.len() && 0 <= j < ls[a].len() implies 0
                <= #[trigger] ls[a][j] < sh[a] by {
                assert(ls[a][j] == lists[a + 1][j]);
            }
        }
        assert forall|a: int| 0 <= a < ls.len() implies (#[trigger] ls[a]).no_duplicates() by {
            assert(ls[a] == lists[a + 1]);
        }
        lemma_positions_distinct(sh, ls);
        lemma_positions_within(sh, ls);
        assert(lists[0] == lists[0]);
        lemma_expand_distinct(lists[0], prod(sh) as int, positions(sh, ls));
    }
}

pub proof fn lemma_expand_iota(m: nat, stride: nat)
    ensures
        expand(iota(m), stride as int, iota(stride)) =~= iota(m * stride),
    decreases m,
{
    if m == 0 {
        assert(m * stride == 0) by (nonlinear_arith)
            requires
                m == 0,
        ;
    } else {
        lemma_expand_iota((m - 1) as nat, stride);
        assert(iota(m).drop_last() =~= iota((m - 1) as nat));
        assert((m - 1) * stride + stride == m * stride) by (nonlinear_arith)
            requires
                m > 0,
        ;
        lemma_expand_len(iota(m), stride as int, iota(stride));
        let e = expand(iota(m), stride as int, iota(stride));
        let prev = expand(iota((m - 1) as nat), stride as int, iota(stride));
        assert(e == prev + iota(stride).map_values(|p: int| (m - 1) * stride + p));
        assert(e.len() == m * stride);
        assert forall|i: int| 0 <= i < m * stride implies e[i] == iota(m * stride)[i] by {
            if i >= (m - 1) * stride {
                assert(e[i] == (m - 1) * stride + (i - (m - 1) * stride));
            } else {
                assert(e[i] == prev[i]);
            }
        }
    }
}

/// Selecting every index of every axis, in order, visits the flat positions in order.
pub proof fn lemma_positions_full(shape: Seq<usize>, lists: Seq<Seq<int>>)
    requires
        lists.len() == shape.len(),
        forall|a: int| 0 <= a < shape.len() ==> #[trigger] lists[a] == iota(shape[a] as nat),
    ensures
        positions(shape, lists) == iota(prod(shape)),
    decreases shape.len(),
{
    if shape.len() == 0 {
        assert(positions(shape, lists) =~= iota(1));
    } else {
        let sh = shape.drop_first();
        let ls = lists.drop_first();
        assert forall|a: int| 0 <= a < sh.len() implies #[trigger] ls[a] == iota(sh[a] as nat) by {
            assert(ls[a] == lists[a + 1]);
        }
        lemma_positions_full(sh, ls);
        assert(lists[0] == iota(shape[0] as nat));
        lemma_expand_iota(shape[0] as nat, prod(sh));
    }
}

pub proof fn lemma_expand_at(first: Seq<int>, stride: int, sub: Seq<int>, i: int, j: int)
    requires
        0 <= i < first.len(),
        0 <= j < sub.len(),
    ensures
        0 <= i * sub.len() + j < expand(first, stride, sub).len(),
        expand(first, stride, sub)[i * sub.len() + j] == first[i] * stride + sub[j],
    decreases first.len(),
{
    let n = first.len() - 1;
    let m = sub.len() as int;
    lemma_expand_len(first, stride, sub);
    lemma_expand_len(first.drop_last(), stride, sub);
    assert(0 <= i * m + j < (n + 1) * m) by (nonlinear_arith)
        requires
            0 <= i <= n,
            0 <= j < m,
    ;
    if i < n {
        lemma_expand_at(first.drop_last(), stride, sub, i, j);
        assert(i * m + j < n * m) by (nonlinear_arith)
            requires
                0 <= i < n,
                0 <= j < m,
        ;
    } else {
        assert(n * m + j - n * m == j);
    }
}

/// In two dimensions, the picked positions are row-major over the picked rows and columns.
pub proof fn lemma_positions_2d(nr: usize, nc: usize, rows: Seq<int>, cols: Seq<int>, i: int, j: int)
    requires
        0 <= i < rows.len(),
        0 <= j < cols.len(),
    ensures
        positions(seq![nr, nc], seq![rows, cols]).len() == rows.len() * cols.len(),
        positions(seq![nr, nc], seq![rows, cols])[i * cols.len() + j] == rows[i] * nc + cols[j],
{
    let shape = seq![nr, nc];
    let ls = seq![rows, cols];
    assert(shape.drop_first() =~= seq![nc]);
    assert(ls.drop_first() =~= seq![cols]);
    assert(seq![nc].drop_first() =~= Seq::<usize>::empty());
    assert(seq![cols].drop_first() =~= Seq::<Seq<int>>::empty());
    let inner = positions(seq![nc], seq![cols]);
    assert(prod(Seq::<usize>::empty()) == 1);
    assert(prod(seq![nc]) == nc * prod(Seq::<usize>::empty()));
    assert(positions(Seq::<usize>::empty(), Seq::<Seq<int>>::empty()) == seq![0int]);
    assert(inner == expand(cols, 1, seq![0int]));
    lemma_expand_len(cols, 1, seq![0int]);
    assert forall|k: int| 0 <= k < cols.len() implies #[trigger] inner[k] == cols[k] by {
        lemma_expand_at(cols, 1, seq![0int], k, 0);
    }
    assert(inner =~= cols);
    assert(positions(shape, ls) == expand(rows, nc as int, inner));
    lemma_expand_len(rows, nc as int, cols);
    lemma_expand_at(rows, nc as int, cols, i, j);
}

/// In one dimension, the picked positions are the picked indices.
pub proof fn lemma_positions_1d(n: usize, list: Seq<int>)
    ensures
        positions(seq![n], seq![list]) == list,
{
    assert(seq![n].drop_first() =~= Seq::<usize>::empty());
    assert(seq![list].drop_first() =~= Seq::<Seq<int>>::empty());
    assert(prod(Seq::<usize>::empty()) == 1);
    assert(positions(Seq::<usize>::empty(), Seq::<Seq<int>>::empty()) == seq![0int]);
    let p = positions(seq![n], seq![list]);
    assert(p == expand(list, 1, seq![0int]));
    lemma_expand_len(list, 1, seq![0int]);
    assert forall|k: int| 0 <= k < list.len() implies #[trigger] p[k] == list[k] by {
        lemma_expand_at(list, 1, seq![0int], k, 0);
    }
    assert(p =~= list);
}

/// Index lists as sequences of integers.
pub open spec fn int_lists(lists: Seq<Vec<usize>>) -> Seq<Seq<int>> {
    lists.map_values(|v: Vec<usize>| v@.map_values(|x: usize| x as int))
}

proof fn lemma_prod_skip(shape: Seq<usize>, axis: int)
    requires
        0 <= axis < shape.len(),
    ensures
        prod(shape.skip(axis)) == shape[axis] * prod(shape.skip(axis + 1)),
{
    assert(shape.skip(axis).drop_first() =~= shape.skip(axis + 1));
}

/// No positions are picked from an array with no elements.
pub proof fn lemma_positions_empty(shape: Seq<usize>, lists: Seq<Seq<int>>)
    requires
        lists_within(shape, lists),
        prod(shape) == 0,
    ensures
        positions(shape, lists).len() == 0,
    decreases shape.len(),
{
    lemma_positions_len(shape, lists);
    if shape.len() > 0 {
        let sh = shape.drop_first();
        let ls = lists.drop_first();
        if shape[0] == 0 {
            if lists[0].len() > 0 {
                assert(0 <= lists[0][0] < shape[0]);
            }
            assert(prod_lens(lists) == 0);
        } else {
            assert(prod(sh) == 0) by (nonlinear_arith)
                requires
                    prod(shape) == shape[0] * prod(sh),
                    prod(shape) == 0,
                    shape[0] > 0,
            ;
            assert(lists_within(sh, ls)) by {
                assert forall|a: int, j: int| 0 <= a < sh.len() && 0 <= j < ls[a].len() implies 0
                    <= #[trigger] ls[a][j] < sh[a] by {
                    assert(ls[a][j] == lists[a + 1][j]);
                }
            }
            lemma_positions_empty(sh, ls);
            lemma_positions_len(sh, ls);
            assert(prod_lens(lists) == lists[0].len() * prod_lens(ls));
            assert(prod_lens(lists) == 0) by (nonlinear_arith)
                requires
                    prod_lens(lists) == lists[0].len() * prod_lens(ls),
                    prod_lens(ls) == 0,
            ;
        }
    }
}

/// Appends to `out` the positions picked from axis `axis` on, shifted by `base`; `total` is
/// the number of elements spanned by those axes.
fn push_positions(
    shape: &Vec<usize>,
    lists: &Vec<Vec<usize>>,
    axis: usize,
    base: usize,
    total: usize,
    out: &mut Vec<usize>,
)
    requires
        axis <= shape@.len(),
        lists_within(shape@, int_lists(lists@)),
        total == prod(shape@.skip(axis as int)),
        base + total <= usize::MAX,
    ensures
        ({
            let p = positions(shape@.skip(axis as int), int_lists(lists@).skip(axis as int));
            &&& final(out)@.len() == old(out)@.len() + p.len()
            &&& forall|i: int| 0 <= i < old(out)@.len() ==> final(out)@[i] == old(out)@[i]
            &&& forall|i: int|
                0 <= i < p.len() ==> final(out)@[old(out)@.len() + i] == base + p[i]
        }),
    decreases shape@.len() - axis,
{
    let ghost ls = int_lists(lists@);
    if axis == shape.len() {
        out.push(base);
        assert(shape@.skip(axis as int).len() == 0);
        return;
    }
    let ghost here = ls.skip(axis as int);
    let ghost sub_shape = shape@.skip(axis + 1);
    let ghost sub_lists = ls.skip(axis + 1);
    let ghost sub = positions(sub_shape, sub_lists);
    let ghost first = ls[axis as int];
    assert(shape@.skip(axis as int).drop_first() =~= sub_shape);
    assert(here.drop_first() =~= sub_lists);
    assert(here[0] == first);
    let list = &lists[axis];
    let n = list.len();
    assert(first.len() == n);
    let ghost o = out@.len();
    if n == 0 {
        assert(first =~= Seq::<int>::empty());
        return;
    }
    let d = shape[axis];
    assert(0 <= first[0] < shape@[axis as int]);
    proof {
        lemma_prod_skip(shape@, axis as int);
        vstd::arithmetic::div_mod::lemma_div_multiples_vanish(prod(sub_shape) as int, d as int);
    }
    let stride = total / d;
    let next = axis + 1;
    assert(stride == prod(sub_shape));
    proof {
        assert forall|a: int, j: int|
            0 <= a < sub_shape.len() && 0 <= j < sub_lists[a].len() implies 0
            <= #[trigger] sub_lists[a][j] < sub_shape[a] by {
            assert(sub_lists[a][j] == ls[a + axis + 1][j]);
        }
        lemma_positions_within(sub_shape, sub_lists);
    }
    let mut k: usize = 0;
    while k < n
        invariant
            0 <= k <= n,
            n == first.len(),
            n == list@.len(),
            first == list@.map_values(|x: usize| x as int),
            forall|j: int| 0 <= j < n ==> 0 <= #[trigger] first[j] < d,
            d == shape@[axis as int],
            stride == prod(sub_shape),
            total == d * stride,
            base + total <= usize::MAX,
            axis < shape@.len(),
            next == axis + 1,
            sub_shape == shape@.skip(axis + 1),
            sub_lists == ls.skip(axis + 1),
            ls == int_lists(lists@),
            lists_within(shape@, ls),
            sub == positions(sub_shape, sub_lists),
            o <= out@.len(),
            forall|i: int| 0 <= i < o ==> out@[i] == old(out)@[i],
            o == old(out)@.len(),
            out@.len() == o + expand(first.take(k as int), stride as int, sub).len(),
            forall|i: int|
                0 <= i < expand(first.take(k as int), stride as int, sub).len() ==> out@[o + i]
                    == base + expand(first.take(k as int), stride as int, sub)[i],
        decreases n - k,
    {
        let x = list[k];
        assert(first[k as int] == x);
        proof {
            assert(x * stride + stride <= d * stride) by (nonlinear_arith)
                requires
                    x < d,
            ;
        }
        let ghost before = out@;
        let ghost e = expand(first.take(k as int), stride as int, sub);
        push_positions(shape, lists, next, base + x * stride, stride, out);
        proof {
            assert(first.take(k + 1).drop_last() =~= first.take(k as int));
            assert(first.take(k + 1).last() == x);
            let e2 = expand(first.take(k + 1), stride as int, sub);
            assert(e2 == e + sub.map_values(|p: int| x * stride + p));
            assert forall|i: int| 0 <= i < e2.len() implies out@[o + i] == base + e2[i] by {
                if i < e.len() {
                    assert(out@[o + i] == before[o + i]);
                } else {
                    assert(out@[before.len() + (i - e.len())] == base + x * stride + sub[i
                        - e.len()]);
                }
            }
        }
        k = k + 1;
    }
    assert(first.take(n as int) =~= first);
}

/// The flat row-major positions picked by `lists` from an array of shape `shape`.
pub fn flat_positions(shape: &Vec<usize>, lists: &Vec<Vec<usize>>, total: usize) -> (r: Vec<usize>)
    requires
        lists_within(shape@, int_lists(lists@)),
        total == prod(shape@),
    ensures
        r@.map_values(|x: usize| x as int) == positions(shape@, int_lists(lists@)),
{
    let mut out: Vec<usize> = Vec::new();
    if total == 0 {
        proof {
            lemma_positions_empty(shape@, int_lists(lists@));
        }
        assert(out@.map_values(|x: usize| x as int) =~= positions(shape@, int_lists(lists@)));
        return out;
    }
    assert(shape@.skip(0) =~= shape@);
    push_positions(shape, lists, 0, 0, total, &mut out);
    assert(int_lists(lists@).skip(0) =~= int_lists(lists@));
    assert(out@.map_values(|x: usize| x as int) =~= positions(shape@, int_lists(lists@)));
    out
}

} // verus!
