//! The scanline linker: per row, every column's separation is turned into the
//! constraint "these two columns must show the same color", and the
//! constraints are resolved into a link table `same` where `same[x] == x`
//! marks a free column and `same[x] > x` a column bound to a later one. The
//! table stays acyclic because entries only ever point upward, so a single
//! backward pass can resolve every color.

use vstd::prelude::*;
use vstd::arithmetic::div_mod::lemma_fundamental_div_mod_converse_div;
use vstd::arithmetic::div_mod::lemma_div_is_ordered;
use vstd::arithmetic::div_mod::lemma_div_pos_is_pos;
use crate::grid::DepthMap;
use crate::disparity::sep_spec;
use crate::disparity::separation;

verus! {

/// A well-formed link table: every entry points at itself or at a larger
/// column, and stays inside the row.
pub open spec fn wf_links(same: Seq<u32>) -> bool {
    forall|i: int| 0 <= i < same.len() ==> i <= #[trigger] same[i] < same.len()
}

/// The root that the chain from `x` ends at: follow `same` until a fixpoint.
pub open spec fn root_of(same: Seq<u32>, x: int) -> int
    decreases same.len() - x
        when wf_links(same) && 0 <= x < same.len()
{
    if same[x] as int == x {
        x
    } else {
        root_of(same, same[x] as int)
    }
}

/// The column reached from `x` after at most `fuel` link-following steps,
/// stopping early at a root.
pub open spec fn chase(same: Seq<u32>, x: int, fuel: nat) -> int
    decreases fuel
{
    if fuel == 0 || !(0 <= x < same.len()) {
        x
    } else if same[x] as int == x {
        x
    } else {
        chase(same, same[x] as int, (fuel - 1) as nat)
    }
}

proof fn lemma_root_of(same: Seq<u32>, x: int)
    requires
        wf_links(same),
        0 <= x < same.len(),
    ensures
        x <= root_of(same, x) < same.len(),
        same[root_of(same, x)] as int == root_of(same, x),
    decreases same.len() - x,
{
    if same[x] as int != x {
        lemma_root_of(same, same[x] as int);
    }
}

proof fn lemma_chase_reaches_root(same: Seq<u32>, x: int, fuel: nat)
    requires
        wf_links(same),
        0 <= x < same.len(),
        fuel >= same.len() - x,
    ensures
        chase(same, x, fuel) == root_of(same, x),
    decreases fuel,
{
    if same[x] as int != x {
        lemma_chase_reaches_root(same, same[x] as int, (fuel - 1) as nat);
    }
}

/// Law: in a well-formed link table every entry points at itself or upward,
/// the chain from any column ends at a root inside the row, and following the
/// chain at most `width` times already reaches that root.
pub proof fn lemma_chain_terminates(same: Seq<u32>, x: int)
    requires
        wf_links(same),
        0 <= x < same.len(),
    ensures
        x <= same[x] as int && same[x] < same.len(),
        x <= root_of(same, x) < same.len(),
        same[root_of(same, x)] as int == root_of(same, x),
        chase(same, x, same.len()) == root_of(same, x),
{
    lemma_root_of(same, x);
    lemma_chase_reaches_root(same, x, same.len());
}

/// What the forward-chasing merge leaves in the table: walk `left` up its
/// chain while the followed entry stays below `right`; at the first entry
/// that is a root, equals `right`, or jumps past `right`, point it at
/// `right` (a jump past `right` drops the older, farther constraint).
pub open spec fn merge_links(same: Seq<u32>, left: int, right: int) -> Seq<u32>
    decreases same.len() - left
        when wf_links(same) && 0 <= left <= right < same.len()
{
    let l = same[left] as int;
    if l == left || l == right {
        same.update(left, right as u32)
    } else if l < right {
        merge_links(same, l, right)
    } else {
        same.update(left, right as u32)
    }
}

proof fn lemma_merge_links_wf(same: Seq<u32>, left: int, right: int)
    requires
        wf_links(same),
        0 <= left <= right < same.len(),
        right <= u32::MAX,
    ensures
        merge_links(same, left, right).len() == same.len(),
        wf_links(merge_links(same, left, right)),
        forall|j: int| 0 <= j < left ==> merge_links(same, left, right)[j] == same[j],
    decreases same.len() - left,
{
    let l = same[left] as int;
    if l != left && l != right && l < right {
        lemma_merge_links_wf(same, l, right);
    } else {
        lemma_update_wf(same, left, right);
    }
}

/// Law: right after a merge, the two columns it was asked to link lead to the
/// same root, so the backward color pass gives them the same color.
pub proof fn lemma_merge_links_roots(same: Seq<u32>, left: int, right: int)
    requires
        wf_links(same),
        0 <= left <= right < same.len(),
        right <= u32::MAX,
    ensures
        root_of(merge_links(same, left, right), left)
            == root_of(merge_links(same, left, right), right),
    decreases same.len() - left,
{
    let l = same[left] as int;
    let m = merge_links(same, left, right);
    lemma_merge_links_wf(same, left, right);
    if l != left && l != right && l < right {
        lemma_merge_links_roots(same, l, right);
        lemma_merge_links_wf(same, l, right);
        assert(m == merge_links(same, l, right));
        assert(m[left] as int == l);
        assert(root_of(m, left) == root_of(m, l));
    } else {
        assert(m == same.update(left, right as u32));
        if left != right {
            assert(m[left] as int == right);
            assert(root_of(m, left) == root_of(m, right));
        }
    }
}

proof fn lemma_update_wf(same: Seq<u32>, i: int, v: int)
    requires
        wf_links(same),
        0 <= i <= v < same.len(),
        v <= u32::MAX,
    ensures
        wf_links(same.update(i, v as u32)),
{
    let t = same.update(i, v as u32);
    assert forall|j: int| 0 <= j < t.len() implies j <= #[trigger] t[j] < t.len() by {
        if j != i {
            assert(t[j] == same[j]);
        }
    }
}

/// Forward-chasing merge: record the constraint that columns `left` and
/// `right` must show the same color, re-linking transitive chains of earlier
/// constraints so that every entry keeps pointing only upward.
pub fn merge_pair(same: &mut Vec<u32>, left: u32, right: u32)
    requires
        wf_links(old(same)@),
        left <= right,
        (right as int) < old(same)@.len(),
    ensures
        final(same)@ == merge_links(old(same)@, left as int, right as int),
        wf_links(final(same)@),
        final(same)@.len() == old(same)@.len(),
        root_of(final(same)@, left as int) == root_of(final(same)@, right as int),
{
    let ghost s0 = same@;
    let ghost l0 = left as int;
    let ghost r0 = right as int;
    let mut left = left;
    let mut right = right;
    let mut l: u32 = same[left as usize];
    while l != left && l != right
        invariant
            wf_links(same@),
            same@.len() == s0.len(),
            left <= right,
            (right as int) < same@.len(),
            l == same@[left as int],
            wf_links(s0),
            0 <= l0 <= r0 < s0.len(),
            merge_links(s0, l0, r0) == merge_links(same@, left as int, right as int),
        decreases
            same@.len() - left as int
                + if same@[left as int] as int == left as int
                    || same@[left as int] as int == right as int { 0int } else { 1int },
    {
        if l < right {
            left = l;
            l = same[left as usize];
        } else {
            proof {
                assert(merge_links(same@, left as int, right as int)
                    == same@.update(left as int, right as u32));
                lemma_update_wf(same@, left as int, right as int);
            }
            same.set(left as usize, right);
            left = right;
            l = same[left as usize];
            right = l;
            proof {
                assert(same@.update(left as int, right) =~= same@);
                assert(merge_links(same@, left as int, right as int)
                    == same@.update(left as int, right));
            }
        }
    }
    proof {
        assert(merge_links(same@, left as int, right as int)
            == same@.update(left as int, right as u32));
        lemma_update_wf(same@, left as int, right as int);
    }
    same.set(left as usize, right);
    proof {
        lemma_merge_links_wf(s0, l0, r0);
        lemma_merge_links_roots(s0, l0, r0);
    }
}

/// Whether the pair that separation `s` puts around column `x` lies inside
/// the row: the pair is `x - s/2` and `x - s/2 + s` in half-pixel arithmetic,
/// and binds only when neither end leaves `[0, width)`.
pub open spec fn pair_in_bounds(x: int, s: int, width: int) -> bool {
    s <= 2 * x && 2 * x + s < 2 * width
}

/// The left column of the pair, truncated to a whole column.
pub open spec fn pair_left(x: int, s: int) -> int {
    (2 * x - s) / 2
}

/// The right column of the pair, truncated to a whole column.
pub open spec fn pair_right(x: int, s: int) -> int {
    (2 * x + s) / 2
}

/// One column's effect on the link table: merge its pair when it is in
/// bounds, and leave the table untouched otherwise.
pub open spec fn constrain_links(same: Seq<u32>, x: int, s: int) -> Seq<u32> {
    if pair_in_bounds(x, s, same.len() as int) {
        merge_links(same, pair_left(x, s), pair_right(x, s))
    } else {
        same
    }
}

/// Apply one column's separation constraint to the row's link table. An
/// out-of-bounds pair imposes no constraint and leaves every entry unchanged.
pub fn constrain(same: &mut Vec<u32>, x: u32, s: u32)
    requires
        wf_links(old(same)@),
        old(same)@.len() <= u32::MAX,
    ensures
        final(same)@ == constrain_links(old(same)@, x as int, s as int),
        wf_links(final(same)@),
        final(same)@.len() == old(same)@.len(),
        !pair_in_bounds(x as int, s as int, old(same)@.len() as int)
            ==> final(same)@ == old(same)@,
{
    let width: u64 = same.len() as u64;
    let dx: u64 = 2 * (x as u64);
    let s64: u64 = s as u64;
    if s64 <= dx && dx + s64 < 2 * width {
        let left: u32 = ((dx - s64) / 2) as u32;
        let right: u32 = ((dx + s64) / 2) as u32;
        proof {
            let xi = x as int;
            let si = s as int;
            let wi = width as int;
            lemma_div_pos_is_pos(2 * xi - si, 2);
            lemma_div_is_ordered(2 * xi - si, 2 * xi + si, 2);
            lemma_div_is_ordered(2 * xi + si, 2 * wi - 1, 2);
            lemma_fundamental_div_mod_converse_div(2 * wi - 1, 2, wi - 1, 1);
            assert(pair_left(xi, si) <= pair_right(xi, si) <= wi - 1);
            assert(left as int == pair_left(xi, si));
            assert(right as int == pair_right(xi, si));
        }
        merge_pair(same, left, right);
    }
}

/// The link table of row `y` after the columns of `[0, n)` have applied
/// their constraints, processed left to right; every column starts free.
pub open spec fn row_links_upto(z: DepthMap, y: int, e: int, mn: int, md: int, n: int) -> Seq<u32>
    decreases n,
{
    if n <= 0 {
        Seq::new(z.width as nat, |i: int| i as u32)
    } else {
        constrain_links(
            row_links_upto(z, y, e, mn, md, n - 1),
            n - 1,
            sep_spec(z.sample(n - 1, y) as int, e, mn, md),
        )
    }
}

/// The finished link table of row `y`.
pub open spec fn row_links(z: DepthMap, y: int, e: int, mn: int, md: int) -> Seq<u32> {
    row_links_upto(z, y, e, mn, md, z.width as int)
}

/// Build the link table for row `y` of the depth map: start with every
/// column free and apply each column's separation constraint left to right.
pub fn link_row(z: &DepthMap, y: u32, e: u32, mu_num: u32, mu_den: u32) -> (same: Vec<u32>)
    requires
        z.wf(),
        y < z.height,
        mu_num < mu_den,
    ensures
        same@ == row_links(*z, y as int, e as int, mu_num as int, mu_den as int),
        wf_links(same@),
        same@.len() == z.width as int,
{
    let width = z.width;
    let mut same: Vec<u32> = Vec::new();
    let mut i: u32 = 0;
    while i < width
        invariant
            i <= width,
            same@.len() == i as int,
            forall|j: int| 0 <= j < i as int ==> same@[j] == j as u32,
        decreases width - i,
    {
        same.push(i);
        i += 1;
    }
    proof {
        assert(same@ =~= Seq::new(z.width as nat, |j: int| j as u32));
        assert forall|j: int| 0 <= j < same@.len()
            implies j <= #[trigger] same@[j] < same@.len() by {}
    }
    let mut x: u32 = 0;
    while x < width
        invariant
            z.wf(),
            x <= width,
            width == z.width,
            y < z.height,
            mu_num < mu_den,
            wf_links(same@),
            same@.len() == width as int,
            same@ == row_links_upto(*z, y as int, e as int, mu_num as int, mu_den as int, x as int),
        decreases width - x,
    {
        let d = z.depth_at(x, y);
        let s = separation(d, e, mu_num, mu_den);
        constrain(&mut same, x, s);
        x += 1;
    }
    same
}

} // verus!
