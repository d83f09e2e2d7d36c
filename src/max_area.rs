//! The largest area of water held between two of a row of vertical lines:
//! for lines `i < j` it is `(j - i) * min(height[i], height[j])`.

use vstd::prelude::*;

verus! {

pub open spec fn min_height(a: i32, b: i32) -> int {
    if a <= b {
        a as int
    } else {
        b as int
    }
}

/// The area between lines `i` and `j`.
pub open spec fn pair_area(h: Seq<i32>, i: int, j: int) -> int {
    (j - i) * min_height(h[i], h[j])
}

/// Heights are non-negative, and no area can exceed `i32::MAX`.
pub open spec fn heights_fit(h: Seq<i32>) -> bool {
    forall|k: int| 0 <= k < h.len() ==> 0 <= #[trigger] h[k] && h[k] * h.len() <= i32::MAX
}

/// `r` is the largest `(j - i) * h[j]` over the pairs `i < j` whose left
/// line is at least as tall as the right one, or 0 when there is none.
pub open spec fn is_left_tall_best(h: Seq<i32>, r: int) -> bool {
    &&& r >= 0
    &&& forall|i: int, j: int|
        #![trigger h[i], h[j]]
        0 <= i < j < h.len() && h[i] >= h[j] ==> (j - i) * h[j] <= r
    &&& (r == 0 || exists|i: int, j: int|
        #![trigger h[i], h[j]]
        0 <= i < j < h.len() && h[i] >= h[j] && r == (j - i) * h[j])
}

/// The largest of `h[0..=g]`.
pub open spec fn max_upto(h: Seq<i32>, g: int) -> i32
    decreases g,
{
    if g <= 0 {
        h[0]
    } else if max_upto(h, g - 1) >= h[g] {
        max_upto(h, g - 1)
    } else {
        h[g]
    }
}

proof fn lemma_max_upto_bounds(h: Seq<i32>, g: int, k: int)
    requires
        0 <= k <= g,
    ensures
        h[k] <= max_upto(h, g),
    decreases g,
{
    if k < g {
        lemma_max_upto_bounds(h, g - 1, k);
    }
}

proof fn lemma_max_upto_attained(h: Seq<i32>, g: int) -> (k: int)
    requires
        0 <= g,
    ensures
        0 <= k <= g,
        max_upto(h, g) == h[k],
    decreases g,
{
    if g == 0 || max_upto(h, g - 1) < h[g] {
        g
    } else {
        lemma_max_upto_attained(h, g - 1)
    }
}

proof fn lemma_max_upto_monotonic(h: Seq<i32>, a: int, b: int)
    requires
        0 <= a <= b,
    ensures
        max_upto(h, a) <= max_upto(h, b),
{
    let k = lemma_max_upto_attained(h, a);
    lemma_max_upto_bounds(h, b, k);
}

fn prefix_max(h: &Vec<i32>) -> (pm: Vec<i32>)
    ensures
        pm@.len() == h@.len(),
        forall|g: int| 0 <= g < pm@.len() ==> pm@[g] == max_upto(h@, g),
{
    let mut pm: Vec<i32> = Vec::new();
    let n = h.len();
    let mut i: usize = 0;
    while i < n
        invariant
            i <= n,
            n == h@.len(),
            pm@.len() == i,
            forall|g: int| 0 <= g < pm@.len() ==> pm@[g] == max_upto(h@, g),
        decreases n - i,
    {
        if i == 0 {
            pm.push(h[0]);
        } else {
            let last = pm[i - 1];
            let v = if last >= h[i] {
                last
            } else {
                h[i]
            };
            pm.push(v);
        }
        i = i + 1;
    }
    pm
}

/// The largest area over pairs whose left line is at least as tall as the
/// right one: for each line, the farthest line to its left that is at least
/// as tall is found by binary search over the prefix maxima.
fn max_area_helper(height: &Vec<i32>) -> (r: i32)
    requires
        heights_fit(height@),
    ensures
        is_left_tall_best(height@, r as int),
{
    let h = height;
    let pm = prefix_max(h);
    let n = h.len();
    let mut acc: i32 = 0;
    let mut j: usize = 1;
    while j < n
        invariant
            1 <= j,
            n == h@.len(),
            pm@.len() == n,
            forall|g: int| 0 <= g < pm@.len() ==> pm@[g] == max_upto(h@, g),
            heights_fit(h@),
            acc >= 0,
            forall|i: int, jj: int|
                #![trigger h@[i], h@[jj]]
                0 <= i < jj < j && jj < n && h@[i] >= h@[jj] ==> (jj - i) * h@[jj] <= acc,
            acc == 0 || exists|i: int, jj: int|
                #![trigger h@[i], h@[jj]]
                0 <= i < jj < n && h@[i] >= h@[jj] && acc == (jj - i) * h@[jj],
        decreases n - j,
    {
        let hj = h[j];
        // first index below j whose prefix maximum reaches hj, or j if none
        let mut low: usize = 0;
        let mut high: usize = j;
        while low < high
            invariant
                low <= high <= j,
                j < n,
                pm@.len() == n,
                hj == h@[j as int],
                forall|g: int| 0 <= g < pm@.len() ==> pm@[g] == max_upto(h@, g),
                forall|g: int| 0 <= g < low ==> pm@[g] < hj,
                forall|g: int| high <= g < j ==> pm@[g] >= hj,
            decreases high - low,
        {
            let g = low + (high - low) / 2;
            if pm[g] >= hj {
                proof {
                    assert forall|x: int| g <= x < j implies pm@[x] >= hj by {
                        lemma_max_upto_monotonic(h@, g as int, x);
                    }
                }
                high = g;
            } else {
                proof {
                    assert forall|x: int| 0 <= x <= g implies pm@[x] < hj by {
                        lemma_max_upto_monotonic(h@, x, g as int);
                    }
                }
                low = g + 1;
            }
        }
        proof {
            // no line left of `low` reaches hj
            assert forall|i: int| 0 <= i < low implies h@[i] < hj by {
                lemma_max_upto_bounds(h@, i, i);
            }
        }
        if low < j && hj > 0 {
            proof {
                let k = lemma_max_upto_attained(h@, low as int);
                if k < low {
                    lemma_max_upto_bounds(h@, low - 1, k);
                }
                assert(h@[low as int] >= hj);
                assert(0 <= hj && hj * n <= i32::MAX);
                assert((j - low) * hj <= n * hj) by (nonlinear_arith)
                    requires
                        0 <= low < j < n,
                        0 <= hj,
                ;
                assert(j - low <= n * hj) by (nonlinear_arith)
                    requires
                        0 <= low < j < n,
                        1 <= hj,
                ;
                assert((j - low) * hj >= 0) by (nonlinear_arith)
                    requires
                        low < j,
                        0 <= hj,
                ;
                assert forall|i: int| 0 <= i < j && h@[i] >= hj implies (j - i) * hj <= (j - low)
                    * hj by {
                    assert(i >= low);
                    assert((j - i) * hj <= (j - low) * hj) by (nonlinear_arith)
                        requires
                            low <= i < j,
                            0 <= hj,
                    ;
                }
            }
            let area = (j - low) as i32 * hj;
            if area > acc {
                acc = area;
            }
        } else {
            proof {
                assert forall|i: int| 0 <= i < j && h@[i] >= hj implies (j - i) * hj <= acc by {
                    assert(hj == 0);
                    assert((j - i) * hj == 0);
                }
            }
        }
        j = j + 1;
    }
    acc
}

/// The reverse of `v`.
fn reversed(v: &Vec<i32>) -> (r: Vec<i32>)
    ensures
        r@ == v@.reverse(),
{
    let mut r: Vec<i32> = Vec::new();
    let n = v.len();
    let mut i: usize = n;
    while i > 0
        invariant
            i <= n,
            n == v@.len(),
            r@ == v@.subrange(i as int, n as int).reverse(),
        decreases i,
    {
        i = i - 1;
        let ghost before = r@;
        r.push(v[i]);
        assert(r@ =~= v@.subrange(i as int, n as int).reverse());
    }
    assert(v@.subrange(0, n as int) =~= v@);
    r
}

/// The largest area between any two lines, 0 for fewer than two lines.
pub fn max_area(height: Vec<i32>) -> (r: i32)
    requires
        heights_fit(height@),
    ensures
        r >= 0,
        forall|i: int, j: int| 0 <= i < j < height@.len() ==> pair_area(height@, i, j) <= r,
        r == 0 || exists|i: int, j: int|
            0 <= i < j < height@.len() && r == pair_area(height@, i, j),
{
    let ghost h = height@;
    let n = height.len();
    let rev = reversed(&height);
    proof {
        assert forall|k: int| 0 <= k < rev@.len() implies 0 <= #[trigger] rev@[k] && rev@[k]
            * rev@.len() <= i32::MAX by {
            assert(rev@[k] == h[n - 1 - k]);
        }
    }
    let forward = max_area_helper(&height);
    let backward = max_area_helper(&rev);
    let r = if forward >= backward {
        forward
    } else {
        backward
    };
    proof {
        let hr = rev@;
        assert forall|i: int, j: int| 0 <= i < j < n implies pair_area(h, i, j) <= r by {
            if h[i] >= h[j] {
                assert(h[i] >= h[j]);
            } else {
                let a = n - 1 - j;
                let b = n - 1 - i;
                assert(hr[a] == h[j] && hr[b] == h[i]);
                assert(hr[a] >= hr[b]);
            }
        }
        if r != 0 {
            if r == forward {
                let (i, j) = choose|i: int, j: int|
                    0 <= i < j < n && h[i] >= h[j] && forward == (j - i) * h[j];
                assert(r == pair_area(h, i, j));
            } else {
                let (a, b) = choose|a: int, b: int|
                    0 <= a < b < n && hr[a] >= hr[b] && backward == (b - a) * hr[b];
                let i = n - 1 - b;
                let j = n - 1 - a;
                assert(hr[a] == h[j] && hr[b] == h[i]);
                assert(r == pair_area(h, i, j));
            }
        }
    }
    r
}

} // verus!
