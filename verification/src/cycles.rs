//! Cycle detection over a directed graph of node indices.
//!
//! A depth-first traversal with three-state marking either returns a
//! genuine cycle — an ordered list of nodes, each with an edge to the
//! next and the last back to the first — or proves the graph acyclic
//! by exhibiting a reverse-topological numbering.

use vstd::prelude::*;
use vstd::pervasive::VecAdditionalExecFns;

verus! {

/// The views of an adjacency list.
pub open spec fn adj_views(adj: Vec<Vec<usize>>) -> Seq<Seq<usize>> {
    adj@.map_values(|x: Vec<usize>| x@)
}

pub const WHITE: u8 = 0;

pub const GRAY: u8 = 1;

pub const BLACK: u8 = 2;

/// Whether the edge set holds an edge from `u` to `v`.
pub open spec fn has_pair(ps: Seq<(usize, usize)>, u: usize, v: usize) -> bool {
    exists|i: int| 0 <= i < ps.len() && ps[i] == (u, v)
}

/// A non-empty node list where each node has an edge to the next and
/// the last has an edge back to the first.
pub open spec fn is_cycle(ps: Seq<(usize, usize)>, p: Seq<usize>) -> bool {
    &&& p.len() > 0
    &&& forall|k: int| 0 <= k < p.len() - 1 ==> has_pair(ps, #[trigger] p[k], p[k + 1])
    &&& has_pair(ps, p[p.len() - 1], p[0])
}

/// No cycle exists.
pub open spec fn spec_acyclic(ps: Seq<(usize, usize)>) -> bool {
    forall|p: Seq<usize>| !is_cycle(ps, p)
}

/// How many entries hold colour `c`.
pub open spec fn count_c(s: Seq<u8>, c: u8) -> nat
    decreases s.len(),
{
    if s.len() == 0 {
        0
    } else {
        count_c(s.drop_last(), c) + (if s.last() == c {
            1nat
        } else {
            0nat
        })
    }
}

pub proof fn lemma_count_le_len(s: Seq<u8>, c: u8)
    ensures
        count_c(s, c) <= s.len(),
    decreases s.len(),
{
    if s.len() > 0 {
        lemma_count_le_len(s.drop_last(), c);
    }
}

pub proof fn lemma_count_update(s: Seq<u8>, c: u8, i: int, v: u8)
    requires
        0 <= i < s.len(),
    ensures
        count_c(s.update(i, v), c) == count_c(s, c) + (if v == c {
            1int
        } else {
            0int
        }) - (if s[i] == c {
            1int
        } else {
            0int
        }),
    decreases s.len(),
{
    if s.len() > 0 {
        if i == s.len() - 1 {
            assert(s.update(i, v).drop_last() =~= s.drop_last());
        } else {
            assert(s.update(i, v).drop_last() =~= s.drop_last().update(i, v));
            lemma_count_update(s.drop_last(), c, i, v);
        }
    }
}

/// Turning whites into non-whites never increases the white count.
pub proof fn lemma_count_white_mono(s1: Seq<u8>, s2: Seq<u8>)
    requires
        s1.len() == s2.len(),
        forall|i: int| 0 <= i < s2.len() && s2[i] == WHITE ==> s1[i] == WHITE,
    ensures
        count_c(s2, WHITE) <= count_c(s1, WHITE),
    decreases s1.len(),
{
    if s1.len() > 0 {
        assert(forall|i: int|
            0 <= i < s2.drop_last().len() && s2.drop_last()[i] == WHITE ==> s1.drop_last()[i]
                == WHITE);
        lemma_count_white_mono(s1.drop_last(), s2.drop_last());
    }
}

/// Along consecutive edges the numbering strictly decreases.
pub proof fn lemma_chain_decreasing(
    ps: Seq<(usize, usize)>,
    nums: Seq<usize>,
    n: int,
    p: Seq<usize>,
    k: int,
)
    requires
        nums.len() == n,
        forall|u: usize, v: usize| has_pair(ps, u, v) ==> u < n && v < n,
        forall|u: usize, v: usize|
            has_pair(ps, u, v) ==> nums[v as int] < nums[u as int],
        0 < k < p.len(),
        forall|j: int| 0 <= j < p.len() - 1 ==> has_pair(ps, #[trigger] p[j], p[j + 1]),
    ensures
        nums[p[k] as int] < nums[p[0] as int],
    decreases k,
{
    if k == 1 {
        assert(has_pair(ps, p[0], p[1]));
    } else {
        lemma_chain_decreasing(ps, nums, n, p, k - 1);
        assert(has_pair(ps, p[k - 1], p[k]));
    }
}

/// A reverse-topological numbering rules every cycle out.
pub proof fn lemma_topo_acyclic(ps: Seq<(usize, usize)>, nums: Seq<usize>, n: int)
    requires
        nums.len() == n,
        forall|u: usize, v: usize| has_pair(ps, u, v) ==> u < n && v < n,
        forall|u: usize, v: usize|
            has_pair(ps, u, v) ==> nums[v as int] < nums[u as int],
    ensures
        spec_acyclic(ps),
{
    assert forall|p: Seq<usize>| !is_cycle(ps, p) by {
        if is_cycle(ps, p) {
            let last = p.len() - 1;
            assert(has_pair(ps, p[last], p[0]));
            if p.len() == 1 {
                assert(nums[p[0] as int] < nums[p[0] as int]);
            } else {
                lemma_chain_decreasing(ps, nums, n, p, last);
                assert(nums[p[0] as int] < nums[p[last] as int]);
            }
        }
    }
}

/// Colour values are only ever white, gray or black.
pub open spec fn colors_dom(colors: Seq<u8>) -> bool {
    forall|i: int| 0 <= i < colors.len() ==> colors[i] == WHITE || colors[i] == GRAY || colors[i] == BLACK
}

/// The path holds gray nodes joined by edges.
pub open spec fn path_wf(
    n: int,
    ps: Seq<(usize, usize)>,
    colors: Seq<u8>,
    path: Seq<usize>,
) -> bool {
    &&& (forall|k: int|
        0 <= k < path.len() ==> (#[trigger] path[k]) < n && colors[path[k] as int] == GRAY)
    &&& (forall|i: int|
        0 <= i < n && colors[i] == GRAY ==> exists|k: int|
            0 <= k < path.len() && path[k] == i as usize)
    &&& (forall|k: int|
        0 <= k < path.len() - 1 ==> has_pair(ps, #[trigger] path[k], path[k + 1]))
}

/// Finished nodes point only at finished nodes with smaller numbers,
/// and the counter counts them.
#[verifier::opaque]
pub open spec fn black_wf(
    adj: Seq<Seq<usize>>,
    colors: Seq<u8>,
    nums: Seq<usize>,
    counter: usize,
) -> bool {
    let n = adj.len();
    &&& colors.len() == n
    &&& nums.len() == n
    &&& counter == count_c(colors, BLACK)
    &&& (forall|u: int, j: int|
        0 <= u < n && colors[u] == BLACK && 0 <= j < adj[u].len() ==> colors[adj[u][j] as int]
            == BLACK && nums[adj[u][j] as int] < nums[u])
    &&& (forall|u: int| 0 <= u < n && colors[u] == BLACK ==> nums[u] < counter)
}

/// The static shape of the adjacency list against the edge set.
pub open spec fn adj_wf(adj: Seq<Seq<usize>>, ps: Seq<(usize, usize)>) -> bool {
    &&& (forall|u: int, j: int|
        0 <= u < adj.len() && 0 <= j < adj[u].len() ==> (#[trigger] adj[u][j]) < adj.len())
    &&& (forall|u: int, j: int|
        0 <= u < adj.len() && 0 <= j < adj[u].len() ==> has_pair(ps, u as usize, adj[u][j]))
}

/// Closes the cycle once a gray node is met: the tail of the path from
/// that node, which the current node points back into.
fn extract_cycle(path: &Vec<usize>, v: usize, u: usize, Ghost(ps): Ghost<Seq<(usize, usize)>>) -> (r:
    Vec<usize>)
    requires
        path@.len() > 0,
        path@[path@.len() - 1] == u,
        forall|k: int| 0 <= k < path@.len() - 1 ==> has_pair(ps, #[trigger] path@[k], path@[k + 1]),
        has_pair(ps, u, v),
        exists|k: int| 0 <= k < path@.len() && path@[k] == v,
    ensures
        is_cycle(ps, r@),
{
    let mut k: usize = 0;
    let pl = path.len();
    while k < pl && path[k] != v
        invariant
            pl == path@.len(),
            k <= pl,
            forall|t: int| 0 <= t < k ==> path@[t] != v,
        decreases pl - k,
    {
        k = k + 1;
    }
    proof {
        if k == pl {
            assert(false);
        }
    }
    let mut cyc: Vec<usize> = Vec::new();
    let mut t: usize = k;
    while t < pl
        invariant
            pl == path@.len(),
            k <= t <= pl,
            k < pl,
            path@[k as int] == v,
            cyc@ =~= path@.subrange(k as int, t as int),
        decreases pl - t,
    {
        cyc.push(path[t]);
        t = t + 1;
    }
    proof {
        assert(cyc@ =~= path@.subrange(k as int, pl as int));
        assert(cyc@.len() == pl - k);
        assert(cyc@[cyc@.len() - 1] == path@[pl - 1]);
        assert(cyc@[0] == path@[k as int]);
        assert(forall|t2: int|
            0 <= t2 < cyc@.len() - 1 ==> has_pair(ps, #[trigger] cyc@[t2], cyc@[t2 + 1]));
        assert(has_pair(ps, cyc@[cyc@.len() - 1], cyc@[0]));
    }
    cyc
}

/// One depth-first visit from a white node: either finds a cycle, or
/// blackens everything reachable while keeping the numbering sound.
#[verifier::rlimit(100)]
fn dfs(
    adj: &Vec<Vec<usize>>,
    Ghost(ps): Ghost<Seq<(usize, usize)>>,
    colors: &mut Vec<u8>,
    nums: &mut Vec<usize>,
    counter: &mut usize,
    path: &mut Vec<usize>,
    u: usize,
) -> (r: Option<Vec<usize>>)
    requires
        u < adj@.len(),
        old(colors)@.len() == adj@.len(),
        old(nums)@.len() == adj@.len(),
        old(colors)@[u as int] == WHITE,
        old(path)@.len() > 0 ==> has_pair(ps, old(path)@[old(path)@.len() - 1], u),
        adj_wf(adj_views(*adj), ps),
        colors_dom(old(colors)@),
        path_wf(adj@.len() as int, ps, old(colors)@, old(path)@),
        black_wf(adj_views(*adj), old(colors)@, old(nums)@, *old(counter)),
    ensures
        match r {
            Some(cyc) => is_cycle(ps, cyc@),
            None => {
                &&& black_wf(adj_views(*adj), final(colors)@, final(nums)@, *final(counter))
                &&& colors_dom(final(colors)@)
                &&& path_wf(adj@.len() as int, ps, final(colors)@, final(path)@)
                &&& final(path)@ == old(path)@
                &&& final(colors)@.len() == old(colors)@.len()
                &&& final(nums)@.len() == old(nums)@.len()
                &&& final(colors)@[u as int] == BLACK
                &&& (forall|i: int|
                    0 <= i < old(colors)@.len() && old(colors)@[i] != WHITE
                        ==> final(colors)@[i] == old(colors)@[i])
                &&& (forall|i: int|
                    0 <= i < old(colors)@.len() && final(colors)@[i] == WHITE
                        ==> old(colors)@[i] == WHITE)
                &&& (forall|i: int|
                    0 <= i < old(colors)@.len() ==> (final(colors)@[i] == GRAY <==> old(colors)@[i]
                        == GRAY))
                &&& (forall|i: int|
                    0 <= i < old(colors)@.len() && old(colors)@[i] == BLACK ==> final(nums)@[i]
                        == old(nums)@[i])
            },
        },
    decreases count_c(colors@, WHITE), 0int, 0int,
{
    let ghost adjv = adj_views(*adj);
    let ghost entry_colors = colors@;
    path.push(u);
    colors.set(u, GRAY);
    proof {
        lemma_count_update(entry_colors, BLACK, u as int, GRAY);
        lemma_count_update(entry_colors, WHITE, u as int, GRAY);
        reveal(black_wf);
        assert(black_wf(adjv, colors@, nums@, *counter));
        let n = adjv.len();
        assert forall|i: int| 0 <= i < n && colors@[i] == GRAY implies exists|k: int|
            0 <= k < path@.len() && path@[k] == i as usize by {
            if i == u as int {
                assert(path@[path@.len() - 1] == u);
            } else {
                assert(entry_colors[i] == GRAY);
                let k = choose|k: int|
                    0 <= k < old(path)@.len() && old(path)@[k] == i as usize;
                assert(path@[k] == i as usize);
            }
        }
        assert(path_wf(n as int, ps, colors@, path@));
    }
    let rec = dfs_children(adj, Ghost(ps), colors, nums, counter, path, u, 0);
    match rec {
        Some(cyc) => {
            return Some(cyc);
        },
        None => {},
    }
    path.pop();
    proof {
        assert(path@ =~= old(path)@);
    }
    let c = *counter;
    let ln = colors.len();
    let ghost end_colors = colors@;
    proof {
        reveal(black_wf);
        assert(end_colors[u as int] == GRAY);
        assert(count_c(end_colors, BLACK) < end_colors.len()) by {
            lemma_count_black_lt(end_colors, u as int);
        }
        assert(c < ln);
    }
    colors.set(u, BLACK);
    nums.set(u, c);
    *counter = c + 1;
    proof {
        reveal(black_wf);
        lemma_count_update(end_colors, BLACK, u as int, BLACK);
        lemma_count_update(end_colors, WHITE, u as int, BLACK);
        let n = adjv.len();
        assert(black_wf(adjv, colors@, nums@, *counter));
        assert forall|i: int| 0 <= i < n && colors@[i] == GRAY implies exists|k: int|
            0 <= k < path@.len() && path@[k] == i as usize by {
            let k = choose|k: int|
                0 <= k < old(path)@.push(u).len() && old(path)@.push(u)[k] == i as usize;
            assert(old(path)@.push(u)[k] == i as usize);
            assert(i != u as int);
            assert(k < old(path)@.len());
            assert(path@[k] == i as usize);
        }
        assert(path_wf(n as int, ps, colors@, path@));
    }
    None
}

/// Visits the successors of the gray node `u`, from position `j` on.
#[verifier::rlimit(100)]
fn dfs_children(
    adj: &Vec<Vec<usize>>,
    Ghost(ps): Ghost<Seq<(usize, usize)>>,
    colors: &mut Vec<u8>,
    nums: &mut Vec<usize>,
    counter: &mut usize,
    path: &mut Vec<usize>,
    u: usize,
    j: usize,
) -> (r: Option<Vec<usize>>)
    requires
        u < adj@.len(),
        j <= adj@[u as int]@.len(),
        old(colors)@.len() == adj@.len(),
        old(nums)@.len() == adj@.len(),
        old(colors)@[u as int] == GRAY,
        old(path)@.len() > 0 && old(path)@[old(path)@.len() - 1] == u,
        adj_wf(adj_views(*adj), ps),
        colors_dom(old(colors)@),
        path_wf(adj@.len() as int, ps, old(colors)@, old(path)@),
        black_wf(adj_views(*adj), old(colors)@, old(nums)@, *old(counter)),
        forall|jj: int|
            0 <= jj < j ==> old(colors)@[adj_views(*adj)[u as int][jj] as int] == BLACK,
    ensures
        match r {
            Some(cyc) => is_cycle(ps, cyc@),
            None => {
                &&& black_wf(adj_views(*adj), final(colors)@, final(nums)@, *final(counter))
                &&& colors_dom(final(colors)@)
                &&& path_wf(adj@.len() as int, ps, final(colors)@, final(path)@)
                &&& final(path)@ == old(path)@
                &&& final(colors)@.len() == old(colors)@.len()
                &&& final(nums)@.len() == old(nums)@.len()
                &&& (forall|jj: int|
                    0 <= jj < adj_views(*adj)[u as int].len() ==> final(colors)@[adj_views(
                        *adj,
                    )[u as int][jj] as int] == BLACK)
                &&& (forall|i: int|
                    0 <= i < old(colors)@.len() && old(colors)@[i] != WHITE
                        ==> final(colors)@[i] == old(colors)@[i])
                &&& (forall|i: int|
                    0 <= i < old(colors)@.len() && final(colors)@[i] == WHITE
                        ==> old(colors)@[i] == WHITE)
                &&& (forall|i: int|
                    0 <= i < old(colors)@.len() ==> (final(colors)@[i] == GRAY <==> old(colors)@[i]
                        == GRAY))
                &&& (forall|i: int|
                    0 <= i < old(colors)@.len() && old(colors)@[i] == BLACK ==> final(nums)@[i]
                        == old(nums)@[i])
            },
        },
    decreases count_c(colors@, WHITE), 1int, adj@[u as int]@.len() - j,
{
    let ghost adjv = adj_views(*adj);
    let m = adj[u].len();
    if j == m {
        return None;
    }
    let v = adj[u][j];
    let cv = colors[v];
    if cv == GRAY {
        let cyc = extract_cycle(path, v, u, Ghost(ps));
        return Some(cyc);
    }
    if cv == WHITE {
        let rec = dfs(adj, Ghost(ps), colors, nums, counter, path, v);
        match rec {
            Some(cyc) => {
                return Some(cyc);
            },
            None => {},
        }
    } else {
        proof {
            assert(cv == BLACK);
        }
    }
    proof {
        assert(colors@[adjv[u as int][j as int] as int] == BLACK);
        lemma_count_white_mono(old(colors)@, colors@);
    }
    dfs_children(adj, Ghost(ps), colors, nums, counter, path, u, j + 1)
}

/// A sequence holding a gray entry has fewer blacks than entries.
pub proof fn lemma_count_black_lt(s: Seq<u8>, i: int)
    requires
        0 <= i < s.len(),
        s[i] == GRAY,
    ensures
        count_c(s, BLACK) < s.len(),
    decreases s.len(),
{
    if i == s.len() - 1 {
        lemma_count_le_len(s.drop_last(), BLACK);
    } else {
        lemma_count_black_lt(s.drop_last(), i);
    }
}

/// Runs the traversal from every node: a found cycle, or a numbering
/// that certifies the graph acyclic.
#[verifier::loop_isolation(false)]
pub fn find_cycle(adj: &Vec<Vec<usize>>, Ghost(ps): Ghost<Seq<(usize, usize)>>) -> (r: Option<
    Vec<usize>,
>)
    requires
        forall|u: usize, v: usize|
            has_pair(ps, u, v) ==> u < adj_views(*adj).len() && v < adj_views(*adj).len(),
        forall|u: int, j: int|
            0 <= u < adj_views(*adj).len() && 0 <= j < adj_views(*adj)[u].len() ==> (#[trigger] adj_views(
                *adj,
            )[u][j]) < adj_views(*adj).len(),
        forall|u: int, j: int|
            0 <= u < adj_views(*adj).len() && 0 <= j < adj_views(*adj)[u].len() ==> has_pair(
                ps,
                u as usize,
                adj_views(*adj)[u][j],
            ),
        forall|u: usize, v: usize|
            has_pair(ps, u, v) ==> exists|j: int|
                0 <= j < adj_views(*adj)[u as int].len() && adj_views(*adj)[u as int][j] == v,
    ensures
        match r {
            Some(cyc) => is_cycle(ps, cyc@) && !spec_acyclic(ps),
            None => spec_acyclic(ps),
        },
{
    let n = adj.len();
    let ghost adjv = adj_views(*adj);
    let mut colors: Vec<u8> = Vec::new();
    let mut nums: Vec<usize> = Vec::new();
    let mut i: usize = 0;
    while i < n
        invariant
            i <= n,
            colors@.len() == i,
            nums@.len() == i,
            forall|t: int| 0 <= t < i ==> colors@[t] == WHITE,
            forall|t: int| 0 <= t < i ==> nums@[t] == 0usize,
        decreases n - i,
    {
        colors.push(WHITE);
        nums.push(0);
        i = i + 1;
    }
    proof {
        reveal(black_wf);
        lemma_count_all_white(colors@);
        assert(black_wf(adjv, colors@, nums@, 0usize));
    }
    let mut counter: usize = 0;
    let mut path: Vec<usize> = Vec::new();
    let mut s: usize = 0;
    while s < n
        invariant
            s <= n,
            n == adj@.len(),
            colors@.len() == n,
            nums@.len() == n,
            path@.len() == 0,
            adj_wf(adjv, ps),
            colors_dom(colors@),
            path_wf(adjv.len() as int, ps, colors@, path@),
            black_wf(adjv, colors@, nums@, counter),
            forall|t: int| 0 <= t < s ==> colors@[t] != WHITE && colors@[t] != GRAY,
            forall|t: int| 0 <= t < n ==> colors@[t] != GRAY,
        decreases n - s,
    {
        if colors[s] == WHITE {
            let r = dfs(adj, Ghost(ps), &mut colors, &mut nums, &mut counter, &mut path, s);
            match r {
                Some(cyc) => {
                    proof {
                        lemma_cycle_not_acyclic(ps, cyc@);
                    }
                    return Some(cyc);
                },
                None => {
                },
            }
        }
        s = s + 1;
    }
    proof {
        reveal(black_wf);
        assert(forall|t: int| 0 <= t < n ==> colors@[t] == BLACK);
        assert forall|u: usize, v: usize| has_pair(ps, u, v) implies nums@[v as int] < nums@[u as int] by {
            let j = choose|j: int| 0 <= j < adjv[u as int].len() && adjv[u as int][j] == v;
            assert(colors@[u as int] == BLACK);
            assert(nums@[adjv[u as int][j] as int] < nums@[u as int]);
        }
        lemma_topo_acyclic(ps, nums@, n as int);
    }
    None
}

/// A concrete cycle refutes acyclicity.
pub proof fn lemma_cycle_not_acyclic(ps: Seq<(usize, usize)>, p: Seq<usize>)
    requires
        is_cycle(ps, p),
    ensures
        !spec_acyclic(ps),
{
}

/// A freshly built colour array is all white.
pub proof fn lemma_count_all_white(s: Seq<u8>)
    requires
        forall|t: int| 0 <= t < s.len() ==> s[t] == WHITE,
    ensures
        count_c(s, BLACK) == 0,
    decreases s.len(),
{
    if s.len() > 0 {
        lemma_count_all_white(s.drop_last());
    }
}

} // verus!
