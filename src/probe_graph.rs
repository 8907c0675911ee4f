use vstd::prelude::*;
use crate::probe::{ProbeError, StateConfig};
use crate::text::str_eq;

verus! {

/// Position of the last entry of `names` equal to `n`, or -1.
pub open spec fn last_index_of(names: Seq<Seq<char>>, n: Seq<char>) -> int
    decreases names.len(),
{
    if names.len() == 0 {
        -1
    } else if names.last() == n {
        names.len() - 1
    } else {
        last_index_of(names.drop_last(), n)
    }
}

pub proof fn lemma_last_index_of(names: Seq<Seq<char>>, n: Seq<char>)
    ensures
        -1 <= last_index_of(names, n) < names.len(),
        last_index_of(names, n) >= 0 ==> names[last_index_of(names, n)] == n,
        last_index_of(names, n) == -1 <==> !names.contains(n),
        forall|j: int| last_index_of(names, n) < j < names.len() ==> names[j] != n,
    decreases names.len(),
{
    if names.len() > 0 {
        lemma_last_index_of(names.drop_last(), n);
        if names.last() != n {
            assert forall|j: int| last_index_of(names, n) < j < names.len() implies names[j] != n by {
                if j < names.len() - 1 {
                    assert(names.drop_last()[j] == names[j]);
                }
            }
            if names.contains(n) {
                let k = choose|k: int| 0 <= k < names.len() && names[k] == n;
                assert(names.drop_last()[k] == n);
            }
            if names.drop_last().contains(n) {
                let k = choose|k: int| 0 <= k < names.drop_last().len() && names.drop_last()[k] == n;
                assert(names[k] == n);
            }
        } else {
            assert(names[names.len() - 1] == n);
        }
    }
}

pub open spec fn probe_names(states: Seq<StateConfig>) -> Seq<Seq<char>> {
    states.map_values(|s: StateConfig| s.name@)
}

/// The dependency graph: entry `d` of row `i` is the index of the probe that
/// the `d`-th dependency of probe `i` names (the last probe of that name), or
/// -1 when no probe has that name.
pub open spec fn dep_graph(states: Seq<StateConfig>) -> Seq<Seq<int>> {
    Seq::new(
        states.len(),
        |i: int| Seq::new(states[i].deps@.len(), |d: int| last_index_of(probe_names(states), states[i].deps@[d]@)),
    )
}

pub open spec fn all_deps_known(g: Seq<Seq<int>>) -> bool {
    forall|i: int, d: int| 0 <= i < g.len() && 0 <= d < g[i].len() ==> 0 <= #[trigger] g[i][d] < g.len()
}

/// `layers` holds no empty layer, places every probe in exactly one layer, every dependency of a
/// probe in an earlier layer, and every probe past layer 0 right after the
/// latest of its dependencies.
pub open spec fn valid_layering(g: Seq<Seq<int>>, layers: Seq<Seq<int>>) -> bool {
    &&& forall|m: int| 0 <= m < layers.len() ==> (#[trigger] layers[m]).len() > 0
    &&& forall|m: int, a: int| 0 <= m < layers.len() && 0 <= a < layers[m].len() ==> (#[trigger] layers[m][a]) < g.len() && 0 <= layers[m][a]
    &&& forall|m: int| 0 <= m < layers.len() ==> (#[trigger] layers[m]).no_duplicates()
    &&& forall|m1: int, m2: int, i: int| 0 <= m1 < layers.len() && 0 <= m2 < layers.len()
        && (#[trigger] layers[m1].contains(i)) && (#[trigger] layers[m2].contains(i)) ==> m1 == m2
    &&& forall|i: int| 0 <= i < g.len() ==> #[trigger] placed(layers, i)
    &&& forall|m: int, i: int, d: int|
        #![trigger layers[m].contains(i), g[i as int][d]]
        0 <= m < layers.len() && layers[m].contains(i) && 0 <= d < g[i as int].len()
            ==> placed_before(layers, g[i as int][d], m)
    &&& forall|m: int, i: int| 0 < m < layers.len() && (#[trigger] layers[m].contains(i))
        ==> exists|d: int| 0 <= d < g[i as int].len() && #[trigger] layers[m - 1].contains(g[i as int][d])
}

/// `i` stands in some layer.
pub open spec fn placed(layers: Seq<Seq<int>>, i: int) -> bool {
    exists|m: int| 0 <= m < layers.len() && #[trigger] layers[m].contains(i)
}

/// `j` stands in a layer before layer `m`.
pub open spec fn placed_before(layers: Seq<Seq<int>>, j: int, m: int) -> bool {
    exists|m2: int| 0 <= m2 < m && #[trigger] layers[m2].contains(j)
}

/// A non-empty set of probes each of which depends on a member of the set:
/// the graph has a cycle.
pub open spec fn has_cycle(g: Seq<Seq<int>>) -> bool {
    exists|s: Set<int>| #[trigger] stuck_set(g, s)
}

pub open spec fn stuck_set(g: Seq<Seq<int>>, s: Set<int>) -> bool {
    &&& exists|i: int| s.contains(i)
    &&& forall|i: int| #[trigger] s.contains(i) ==> 0 <= i < g.len()
        && exists|d: int| 0 <= d < g[i].len() && s.contains(#[trigger] g[i][d])
}

pub open spec fn count_true(s: Seq<bool>) -> nat
    decreases s.len(),
{
    if s.len() == 0 {
        0
    } else {
        count_true(s.drop_last()) + if s.last() { 1nat } else { 0nat }
    }
}

pub(crate) proof fn lemma_count_true_flip(s: Seq<bool>, i: int)
    requires
        0 <= i < s.len(),
        !s[i],
    ensures
        count_true(s.update(i, true)) == count_true(s) + 1,
    decreases s.len(),
{
    if i < s.len() - 1 {
        assert(s.update(i, true).drop_last() =~= s.drop_last().update(i, true));
        lemma_count_true_flip(s.drop_last(), i);
    } else {
        assert(s.update(i, true).drop_last() =~= s.drop_last());
    }
}

pub(crate) proof fn lemma_count_true_bounded(s: Seq<bool>)
    ensures
        count_true(s) <= s.len(),
    decreases s.len(),
{
    if s.len() > 0 {
        lemma_count_true_bounded(s.drop_last());
    }
}

pub(crate) proof fn lemma_count_true_none(s: Seq<bool>)
    requires
        forall|i: int| 0 <= i < s.len() ==> !s[i],
    ensures
        count_true(s) == 0,
    decreases s.len(),
{
    if s.len() > 0 {
        assert forall|i: int| 0 <= i < s.drop_last().len() implies !s.drop_last()[i] by {
            assert(s.drop_last()[i] == s[i]);
        }
        lemma_count_true_none(s.drop_last());
        assert(!s[s.len() - 1]);
    }
}

proof fn lemma_count_true_full(s: Seq<bool>)
    requires
        count_true(s) == s.len(),
    ensures
        forall|i: int| 0 <= i < s.len() ==> s[i],
    decreases s.len(),
{
    if s.len() > 0 {
        lemma_count_true_bounded(s.drop_last());
        lemma_count_true_full(s.drop_last());
        assert forall|i: int| 0 <= i < s.len() implies s[i] by {
            if i < s.len() - 1 {
                assert(s.drop_last()[i] == s[i]);
            }
        }
    }
}

proof fn lemma_count_true_not_full(s: Seq<bool>)
    requires
        count_true(s) < s.len(),
    ensures
        exists|i: int| 0 <= i < s.len() && !s[i],
    decreases s.len(),
{
    if s.len() > 0 {
        if s.last() {
            lemma_count_true_not_full(s.drop_last());
            let i = choose|i: int| 0 <= i < s.drop_last().len() && !s.drop_last()[i];
            assert(!s[i]);
        } else {
            assert(!s[s.len() - 1]);
        }
    }
}

/// Probe `j` is not placed yet and all its dependencies are.
pub open spec fn ready_spec(gi: Seq<Seq<int>>, done: Seq<bool>, j: int) -> bool {
    !done[j] && forall|e: int| 0 <= e < gi[j].len() ==> done[#[trigger] gi[j][e]]
}

pub open spec fn layer_views(layers: Seq<Vec<usize>>) -> Seq<Seq<int>> {
    layers.map_values(|l: Vec<usize>| l@.map_values(|x: usize| x as int))
}

proof fn lemma_push_contains(s: Seq<int>, v: int, x: int)
    ensures
        s.push(v).contains(x) <==> (s.contains(x) || x == v),
{
    if s.contains(x) {
        let k = choose|k: int| 0 <= k < s.len() && s[k] == x;
        assert(s.push(v)[k] == x);
    }
    if x == v {
        assert(s.push(v)[s.len() as int] == x);
    }
    if s.push(v).contains(x) {
        let k = choose|k: int| 0 <= k < s.push(v).len() && s.push(v)[k] == x;
        if k < s.len() {
            assert(s[k] == x);
        }
    }
}

/// What holds after each round of the layering: `done` marks the placed
/// probes, `lvl` gives each placed probe its layer (-1 for the others).
pub open spec fn layering_inv(gi: Seq<Seq<int>>, done: Seq<bool>, lvl: Seq<int>, ls: Seq<Seq<int>>) -> bool {
    let n = gi.len();
    let k = ls.len();
    &&& all_deps_known(gi)
    &&& done.len() == n
    &&& lvl.len() == n
    &&& forall|i: int| 0 <= i < n ==> (done[i] <==> 0 <= #[trigger] lvl[i] < k)
    &&& forall|i: int| 0 <= i < n ==> -1 <= #[trigger] lvl[i] < k
    &&& forall|m: int, a: int| 0 <= m < k && 0 <= a < ls[m].len() ==> (#[trigger] ls[m][a]) < n && 0 <= ls[m][a] && lvl[ls[m][a]] == m
    &&& forall|i: int| 0 <= i < n && #[trigger] done[i] ==> ls[lvl[i]].contains(i)
    &&& forall|m: int| 0 <= m < k ==> (#[trigger] ls[m]).no_duplicates()
    &&& forall|m: int| 0 <= m < k ==> (#[trigger] ls[m]).len() > 0
    &&& forall|i: int, d: int| 0 <= i < n && done[i] && 0 <= d < gi[i].len()
        ==> done[#[trigger] gi[i][d]] && lvl[gi[i][d]] < lvl[i]
    &&& forall|i: int| 0 <= i < n && done[i] && #[trigger] lvl[i] > 0
        ==> exists|d: int| 0 <= d < gi[i].len() && lvl[#[trigger] gi[i][d]] == lvl[i] - 1
    &&& forall|i: int| 0 <= i < n && !(#[trigger] done[i]) && k > 0
        ==> exists|d: int| 0 <= d < gi[i].len() && !(done[#[trigger] gi[i][d]] && lvl[gi[i][d]] < k - 1)
}

proof fn lemma_round(
    gi: Seq<Seq<int>>,
    done0: Seq<bool>,
    lvl0: Seq<int>,
    ls: Seq<Seq<int>>,
    rv: Seq<int>,
    done1: Seq<bool>,
    lvl1: Seq<int>,
)
    requires
        layering_inv(gi, done0, lvl0, ls),
        forall|b: int| 0 <= b < rv.len() ==> 0 <= (#[trigger] rv[b]) < gi.len() && ready_spec(gi, done0, rv[b] as int),
        forall|b: int, c: int| 0 <= b < c < rv.len() ==> rv[b] < rv[c],
        rv.len() > 0,
        forall|j: int| 0 <= j < gi.len() && ready_spec(gi, done0, j) ==> #[trigger] rv.contains(j),
        done1.len() == gi.len(),
        lvl1.len() == gi.len(),
        forall|j: int| 0 <= j < gi.len() ==> (#[trigger] done1[j]) == (done0[j] || rv.contains(j)),
        forall|j: int| 0 <= j < gi.len() ==> (#[trigger] lvl1[j]) == if rv.contains(j) { ls.len() as int } else { lvl0[j] },
    ensures
        layering_inv(gi, done1, lvl1, ls.push(rv)),
{
    let n = gi.len();
    let k = ls.len() as int;
    let l1 = ls.push(rv);
    assert(l1[k] == rv);
    assert forall|m: int| 0 <= m < k implies #[trigger] l1[m] == ls[m] by {}
    assert forall|x: int| 0 <= x < n implies (done1[x] <==> 0 <= #[trigger] lvl1[x] < l1.len()) by {
        if rv.contains(x) {
        } else {
        }
    }
    assert forall|m: int, b: int| 0 <= m < l1.len() && 0 <= b < l1[m].len()
        implies 0 <= (#[trigger] l1[m][b]) < n && lvl1[l1[m][b]] == m by {
        if m < k {
            let x = ls[m][b];
            assert(lvl0[x as int] == m);
            assert(done0[x as int]);
            if rv.contains(x) {
                let c = choose|c: int| 0 <= c < rv.len() && rv[c] == x;
                assert(ready_spec(gi, done0, rv[c] as int));
            }
        } else {
            assert(rv.contains(rv[b]));
        }
    }
    assert forall|x: int| 0 <= x < n && #[trigger] done1[x] implies l1[lvl1[x]].contains(x) by {
        if rv.contains(x) {
        } else {
            assert(done0[x]);
        }
    }
    assert forall|x: int| 0 <= x < n implies -1 <= #[trigger] lvl1[x] < l1.len() by {
        if rv.contains(x) {
        } else {
        }
    }
    assert forall|m: int| 0 <= m < l1.len() implies (#[trigger] l1[m]).len() > 0 by {}
    assert forall|m: int| 0 <= m < l1.len() implies (#[trigger] l1[m]).no_duplicates() by {
        if m == k {
            assert forall|b: int, c: int| 0 <= b < rv.len() && 0 <= c < rv.len() && b != c implies rv[b] != rv[c] by {
                if b < c {
                    assert(rv[b] < rv[c]);
                } else {
                    assert(rv[c] < rv[b]);
                }
            }
        }
    }
    assert forall|x: int, d: int| 0 <= x < n && done1[x] && 0 <= d < gi[x].len()
        implies done1[#[trigger] gi[x][d]] && lvl1[gi[x][d]] < lvl1[x] by {
        let y = gi[x][d];
        assert(0 <= y < n);
        if rv.contains(x) {
            let c = choose|c: int| 0 <= c < rv.len() && rv[c] == x;
            assert(ready_spec(gi, done0, x));
            assert(done0[y]);
        } else {
            assert(done0[x]);
            assert(done0[y]);
        }
        if rv.contains(y) {
            let c2 = choose|c2: int| 0 <= c2 < rv.len() && rv[c2] == y;
            assert(ready_spec(gi, done0, y));
        }
    }
    assert forall|x: int| 0 <= x < n && done1[x] && #[trigger] lvl1[x] > 0
        implies exists|d: int| 0 <= d < gi[x].len() && lvl1[#[trigger] gi[x][d]] == lvl1[x] - 1 by {
        if rv.contains(x) {
            let c = choose|c: int| 0 <= c < rv.len() && rv[c] == x;
            assert(ready_spec(gi, done0, x));
            assert(k > 0);
            assert(!done0[x]);
            let d = choose|d: int| 0 <= d < gi[x].len() && !(done0[#[trigger] gi[x][d]] && lvl0[gi[x][d]] < k - 1);
            let y = gi[x][d];
            assert(0 <= y < n);
            assert(done0[y]);
            if rv.contains(y) {
                let c2 = choose|c2: int| 0 <= c2 < rv.len() && rv[c2] == y;
                assert(ready_spec(gi, done0, y));
            }
            assert(lvl1[y] == k - 1);
        } else {
            assert(done0[x]);
            let d = choose|d: int| 0 <= d < gi[x].len() && lvl0[#[trigger] gi[x][d]] == lvl0[x] - 1;
            let y = gi[x][d];
            assert(0 <= y < n);
            assert(done0[y]);
            if rv.contains(y) {
                let c2 = choose|c2: int| 0 <= c2 < rv.len() && rv[c2] == y;
                assert(ready_spec(gi, done0, y));
            }
            assert(lvl1[y] == lvl1[x] - 1);
        }
    }
    assert forall|x: int| 0 <= x < n && !(#[trigger] done1[x]) && l1.len() > 0
        implies exists|d: int| 0 <= d < gi[x].len() && !(done1[#[trigger] gi[x][d]] && lvl1[gi[x][d]] < l1.len() - 1) by {
        assert(!rv.contains(x));
        assert(!ready_spec(gi, done0, x));
        let d = choose|d: int| 0 <= d < gi[x].len() && !done0[#[trigger] gi[x][d]];
        let y = gi[x][d];
        assert(0 <= y < n);
        if rv.contains(y) {
            assert(lvl1[y] == k);
        }
    }
}

proof fn lemma_mark_step(before: Seq<bool>, after: Seq<bool>, done0: Seq<bool>, pre: Seq<int>, j: int)
    requires
        0 <= j < before.len(),
        before.len() == done0.len(),
        after == before.update(j, true),
        forall|x: int| 0 <= x < before.len() ==> (#[trigger] before[x]) == (done0[x] || pre.contains(x)),
    ensures
        forall|x: int| 0 <= x < after.len() ==> (#[trigger] after[x]) == (done0[x] || pre.push(j).contains(x)),
{
    assert forall|x: int| 0 <= x < after.len() implies (#[trigger] after[x]) == (done0[x] || pre.push(j).contains(x)) by {
        lemma_push_contains(pre, j, x);
        if x != j {
            assert(after[x] == before[x]);
            assert(before[x] == (done0[x] || pre.contains(x)));
        }
    }
}

proof fn lemma_complete(gi: Seq<Seq<int>>, done: Seq<bool>, lvl: Seq<int>, ls: Seq<Seq<int>>)
    requires
        layering_inv(gi, done, lvl, ls),
        forall|i: int| 0 <= i < gi.len() ==> done[i],
    ensures
        valid_layering(gi, ls),
{
    assert forall|x: int| 0 <= x < gi.len() implies #[trigger] placed(ls, x) by {
        assert(done[x as int]);
        assert(ls[lvl[x as int]].contains(x));
    }
    assert forall|m: int, x: int, d: int|
        #![trigger ls[m].contains(x), gi[x as int][d]]
        0 <= m < ls.len() && ls[m].contains(x) && 0 <= d < gi[x as int].len()
        implies placed_before(ls, gi[x as int][d], m) by {
        let b = choose|b: int| 0 <= b < ls[m].len() && ls[m][b] == x;
        assert(lvl[x as int] == m);
        let y = gi[x as int][d];
        assert(0 <= y < gi.len());
        assert(done[x as int]);
        assert(done[y]);
        assert(ls[lvl[y]].contains(y));
    }
    assert forall|m: int, x: int| 0 < m < ls.len() && #[trigger] ls[m].contains(x)
        implies exists|d: int| 0 <= d < gi[x as int].len() && #[trigger] ls[m - 1].contains(gi[x as int][d]) by {
        let b = choose|b: int| 0 <= b < ls[m].len() && ls[m][b] == x;
        assert(lvl[x as int] == m);
        assert(done[x as int]);
        let d = choose|d: int| 0 <= d < gi[x as int].len() && lvl[#[trigger] gi[x as int][d]] == lvl[x as int] - 1;
        let y = gi[x as int][d];
        assert(0 <= y < gi.len());
        assert(done[y]);
        assert(ls[lvl[y]].contains(y));
    }
    assert forall|m1: int, m2: int, x: int| 0 <= m1 < ls.len() && 0 <= m2 < ls.len()
        && (#[trigger] ls[m1].contains(x)) && (#[trigger] ls[m2].contains(x)) implies m1 == m2 by {
        let b1 = choose|b: int| 0 <= b < ls[m1].len() && ls[m1][b] == x;
        let b2 = choose|b: int| 0 <= b < ls[m2].len() && ls[m2][b] == x;
        assert(lvl[x as int] == m1);
        assert(lvl[x as int] == m2);
    }
}

proof fn lemma_stuck(gi: Seq<Seq<int>>, done: Seq<bool>, lvl: Seq<int>, ls: Seq<Seq<int>>)
    requires
        layering_inv(gi, done, lvl, ls),
        exists|i: int| 0 <= i < done.len() && !done[i],
        forall|j: int| 0 <= j < gi.len() ==> !ready_spec(gi, done, j),
    ensures
        has_cycle(gi),
{
    let n = gi.len();
    let s = Set::new(|x: int| 0 <= x < n && !done[x]);
    assert forall|x: int| #[trigger] s.contains(x) implies 0 <= x < gi.len()
        && exists|d: int| 0 <= d < gi[x].len() && s.contains(#[trigger] gi[x][d]) by {
        assert(!ready_spec(gi, done, x));
        let d = choose|d: int| 0 <= d < gi[x].len() && !done[#[trigger] gi[x][d]];
        assert(0 <= gi[x][d] < n);
        assert(s.contains(gi[x][d]));
    }
    let w = choose|i: int| 0 <= i < done.len() && !done[i];
    assert(s.contains(w));
    assert(stuck_set(gi, s));
}

pub open spec fn int_view(v: Seq<usize>) -> Seq<int> {
    v.map_values(|x: usize| x as int)
}

/// Groups probes into layers: layer 0 holds the probes without dependencies,
/// and each later layer those whose dependencies all stand in earlier layers.
/// `None` when some probes can never be placed.
fn layers_of(g: &Vec<Vec<usize>>, Ghost(gi): Ghost<Seq<Seq<int>>>) -> (r: Option<Vec<Vec<usize>>>)
    requires
        gi.len() == g@.len(),
        forall|i: int| 0 <= i < g@.len() ==> (#[trigger] g@[i])@.len() == gi[i].len(),
        forall|i: int, d: int| 0 <= i < g@.len() && 0 <= d < gi[i].len() ==> #[trigger] gi[i][d] == g@[i]@[d] as int,
        all_deps_known(gi),
    ensures
        match r {
            Some(layers) => valid_layering(gi, layer_views(layers@)),
            None => has_cycle(gi),
        },
{
    let n = g.len();
    let mut done: Vec<bool> = Vec::new();
    let mut z: usize = 0;
    while z < n
        invariant
            z <= n,
            done@.len() == z,
            forall|i: int| 0 <= i < z ==> !done@[i],
        decreases n - z,
    {
        done.push(false);
        z = z + 1;
    }
    proof {
        lemma_count_true_none(done@);
    }
    let ghost mut lvl: Seq<int> = Seq::new(n as nat, |i: int| -1int);
    let mut layers: Vec<Vec<usize>> = Vec::new();
    assert(layering_inv(gi, done@, lvl, layer_views(layers@)));
    let mut processed: usize = 0;
    loop
        invariant
            n == g@.len(),
            gi.len() == n,
            forall|i: int| 0 <= i < g@.len() ==> (#[trigger] g@[i])@.len() == gi[i].len(),
            forall|i: int, d: int| 0 <= i < g@.len() && 0 <= d < gi[i].len() ==> #[trigger] gi[i][d] == g@[i]@[d] as int,
            layering_inv(gi, done@, lvl, layer_views(layers@)),
            processed == count_true(done@),
            processed <= n,
        decreases n - processed,
    {
        let ghost done0 = done@;
        let ghost lvl0 = lvl;
        let ghost processed0 = processed;
        let mut ready: Vec<usize> = Vec::new();
        let mut i: usize = 0;
        while i < n
            invariant
                i <= n,
                n == g@.len(),
                gi.len() == n,
                forall|i: int| 0 <= i < g@.len() ==> (#[trigger] g@[i])@.len() == gi[i].len(),
                forall|i: int, d: int| 0 <= i < g@.len() && 0 <= d < gi[i].len() ==> #[trigger] gi[i][d] == g@[i]@[d] as int,
                all_deps_known(gi),
                done@ == done0,
                done0.len() == n,
                forall|a: int| 0 <= a < ready@.len() ==> 0 <= (#[trigger] int_view(ready@)[a]) < i && ready_spec(gi, done0, int_view(ready@)[a]),
                forall|a: int, b: int| 0 <= a < b < ready@.len() ==> int_view(ready@)[a] < int_view(ready@)[b],
                forall|j: int| 0 <= j < i && ready_spec(gi, done0, j) ==> #[trigger] int_view(ready@).contains(j),
            decreases n - i,
        {
            let ghost before = int_view(ready@);
            if !done[i] {
                let row = &g[i];
                let mut all = true;
                let mut d: usize = 0;
                while d < row.len()
                    invariant
                        i < n,
                        row == &g@[i as int],
                        n == g@.len(),
                        gi.len() == n,
                        row@.len() == gi[i as int].len(),
                        forall|e: int| 0 <= e < gi[i as int].len() ==> #[trigger] gi[i as int][e] == row@[e] as int,
                        all_deps_known(gi),
                        done@ == done0,
                        done0.len() == n,
                        d <= row@.len(),
                        all <==> forall|e: int| 0 <= e < d ==> done0[#[trigger] gi[i as int][e]],
                    decreases row.len() - d,
                {
                    assert(0 <= gi[i as int][d as int] < n);
                    if !done[row[d]] {
                        all = false;
                    }
                    d = d + 1;
                }
                if all {
                    ready.push(i);
                    assert(int_view(ready@) =~= before.push(i as int));
                }
            }
            assert forall|j: int| 0 <= j < i + 1 && ready_spec(gi, done0, j) implies #[trigger] int_view(ready@).contains(j) by {
                if int_view(ready@) != before {
                    lemma_push_contains(before, i as int, j);
                } else {
                    assert(j != i);
                }
            }
            i = i + 1;
        }
        if ready.len() == 0 {
            if processed == n {
                proof {
                    lemma_count_true_full(done@);
                    lemma_complete(gi, done@, lvl, layer_views(layers@));
                }
                return Some(layers);
            }
            proof {
                lemma_count_true_not_full(done@);
                assert forall|j: int| 0 <= j < gi.len() implies !ready_spec(gi, done@, j) by {
                    if ready_spec(gi, done@, j) {
                        assert(int_view(ready@).contains(j));
                    }
                }
                lemma_stuck(gi, done@, lvl, layer_views(layers@));
            }
            return None;
        }
        let ghost k = layers@.len() as int;
        let ghost rv = int_view(ready@);
        let mut a: usize = 0;
        while a < ready.len()
            invariant
                a <= ready@.len(),
                rv == int_view(ready@),
                n == done@.len(),
                done0.len() == n,
                lvl0.len() == n,
                lvl.len() == n,
                forall|b: int| 0 <= b < rv.len() ==> 0 <= (#[trigger] rv[b]) < n && ready_spec(gi, done0, rv[b]),
                forall|b: int, c: int| 0 <= b < c < rv.len() ==> rv[b] < rv[c],
                forall|j: int| 0 <= j < n ==> (#[trigger] done@[j]) == (done0[j] || rv.subrange(0, a as int).contains(j)),
                forall|j: int| 0 <= j < n ==> (#[trigger] lvl[j]) == if rv.subrange(0, a as int).contains(j) { k } else { lvl0[j] },
                processed == count_true(done@),
                processed == processed0 + a,
                processed <= n,
            decreases ready.len() - a,
        {
            let j = ready[a];
            assert(rv[a as int] == j as int);
            assert(!rv.subrange(0, a as int).contains(j as int)) by {
                if rv.subrange(0, a as int).contains(j as int) {
                    let b = choose|b: int| 0 <= b < a && rv.subrange(0, a as int)[b] == j as int;
                    assert(rv[b] < rv[a as int]);
                }
            }
            assert(ready_spec(gi, done0, j as int));
            assert(!done@[j as int]);
            proof {
                lemma_count_true_flip(done@, j as int);
                lemma_count_true_bounded(done@.update(j as int, true));
                lvl = lvl.update(j as int, k);
            }
            let ghost done_before = done@;
            done.set(j, true);
            assert(done@ == done_before.update(j as int, true));
            processed = processed + 1;
            let ghost pre = rv.subrange(0, a as int);
            a = a + 1;
            assert(rv.subrange(0, a as int) =~= pre.push(j as int));
            proof {
                lemma_mark_step(done_before, done@, done0, pre, j as int);
            }
            assert forall|x: int| 0 <= x < n implies (#[trigger] lvl[x]) == if rv.subrange(0, a as int).contains(x) { k } else { lvl0[x] } by {
                lemma_push_contains(pre, j as int, x);
            }
        }
        assert(rv.subrange(0, rv.len() as int) =~= rv);
        let ghost ls0 = layer_views(layers@);
        layers.push(ready);
        proof {
            assert(layer_views(layers@) =~= ls0.push(rv));
            lemma_round(gi, done0, lvl0, ls0, rv, done@, lvl);
        }
    }
}

/// Index of the last probe named `name`.
fn find_probe(states: &Vec<StateConfig>, name: &str) -> (r: Option<usize>)
    ensures
        match r {
            Some(i) => i as int == last_index_of(probe_names(states@), name@),
            None => last_index_of(probe_names(states@), name@) == -1,
        },
{
    let ghost names = probe_names(states@);
    assert(names.subrange(0, states@.len() as int) =~= names);
    let mut i: usize = states.len();
    while i > 0
        invariant
            i <= states.len(),
            names == probe_names(states@),
            last_index_of(names, name@) == last_index_of(names.subrange(0, i as int), name@),
        decreases i,
    {
        let ghost pre = names.subrange(0, i as int);
        assert(pre.drop_last() =~= names.subrange(0, i - 1));
        assert(pre.last() == states@[i - 1].name@);
        if str_eq(states[i - 1].name.as_str(), name) {
            return Some(i - 1);
        }
        i = i - 1;
    }
    assert(names.subrange(0, 0) =~= Seq::<Seq<char>>::empty());
    None
}

/// Resolves every dependency name to a probe index, or reports the first
/// dependency (in probe order, then declaration order) that names no probe.
pub(crate) fn resolve_graph(states: &Vec<StateConfig>) -> (r: Result<Vec<Vec<usize>>, ProbeError>)
    ensures
        match r {
            Ok(g) => all_deps_known(dep_graph(states@)) && g@.len() == states@.len()
                && forall|i: int| 0 <= i < g@.len() ==> (#[trigger] g@[i])@.map_values(|x: usize| x as int) == dep_graph(states@)[i],
            Err(ProbeError::UnknownDependency { probe, dep }) => !all_deps_known(dep_graph(states@))
                && exists|i: int, d: int| 0 <= i < states@.len() && 0 <= d < states@[i].deps@.len()
                && dep_graph(states@)[i][d] == -1 && probe@ == states@[i].name@ && dep@ == (#[trigger] states@[i].deps@[d])@,
            Err(ProbeError::Cycle) => false,
        },
{
    let ghost g = dep_graph(states@);
    let mut out: Vec<Vec<usize>> = Vec::new();
    let mut i: usize = 0;
    while i < states.len()
        invariant
            i <= states.len(),
            g == dep_graph(states@),
            out@.len() == i,
            forall|k: int| 0 <= k < i ==> (#[trigger] out@[k])@.map_values(|x: usize| x as int) == g[k],
            forall|k: int, d: int| 0 <= k < i && 0 <= d < g[k].len() ==> 0 <= #[trigger] g[k][d] < g.len(),
        decreases states.len() - i,
    {
        let st = &states[i];
        let mut row: Vec<usize> = Vec::new();
        let mut d: usize = 0;
        while d < st.deps.len()
            invariant
                i < states.len(),
                st == &states@[i as int],
                g == dep_graph(states@),
                d <= st.deps@.len(),
                row@.map_values(|x: usize| x as int) == g[i as int].subrange(0, d as int),
                forall|e: int| 0 <= e < d ==> 0 <= #[trigger] g[i as int][e] < g.len(),
            decreases st.deps.len() - d,
        {
            proof {
                lemma_last_index_of(probe_names(states@), st.deps@[d as int]@);
            }
            match find_probe(states, st.deps[d].as_str()) {
                Some(j) => {
                    let ghost before = row@.map_values(|x: usize| x as int);
                    row.push(j);
                    assert(row@.map_values(|x: usize| x as int) =~= before.push(j as int));
                    assert(g[i as int].subrange(0, d + 1) =~= g[i as int].subrange(0, d as int).push(g[i as int][d as int]));
                },
                None => {
                    assert(g[i as int][d as int] == -1);
                    return Err(ProbeError::UnknownDependency { probe: st.name.clone(), dep: st.deps[d].clone() });
                },
            }
            d = d + 1;
        }
        assert(g[i as int].subrange(0, st.deps@.len() as int) =~= g[i as int]);
        out.push(row);
        assert forall|k: int| 0 <= k < i + 1 implies (#[trigger] out@[k])@.map_values(|x: usize| x as int) == g[k] by {}
        i = i + 1;
    }
    Ok(out)
}

proof fn lemma_no_member_at_layer(g: Seq<Seq<int>>, layers: Seq<Seq<int>>, st: Set<int>, m: int, i: int)
    requires
        valid_layering(g, layers),
        stuck_set(g, st),
        0 <= m < layers.len(),
        layers[m].contains(i),
    ensures
        !st.contains(i),
    decreases m,
{
    if st.contains(i) {
        let b = choose|b: int| 0 <= b < layers[m].len() && layers[m][b] == i;
        assert(0 <= layers[m][b] < g.len());
        let d = choose|d: int| 0 <= d < g[i].len() && st.contains(#[trigger] g[i][d]);
        assert(layers[m].contains(i) && 0 <= d < g[i].len());
        assert(placed_before(layers, g[i][d], m));
        let m2 = choose|m2: int| 0 <= m2 < m && #[trigger] layers[m2].contains(g[i][d]);
        lemma_no_member_at_layer(g, layers, st, m2, g[i][d]);
    }
}

/// A graph that can be layered has no cycle.
pub proof fn lemma_layering_excludes_cycle(g: Seq<Seq<int>>, layers: Seq<Seq<int>>)
    requires
        valid_layering(g, layers),
    ensures
        !has_cycle(g),
{
    if has_cycle(g) {
        let st = choose|st: Set<int>| #[trigger] stuck_set(g, st);
        let i = choose|i: int| st.contains(i);
        assert(0 <= i < g.len());
        assert(placed(layers, i));
        let m = choose|m: int| 0 <= m < layers.len() && #[trigger] layers[m].contains(i);
        lemma_no_member_at_layer(g, layers, st, m, i);
    }
}

/// Groups probes into evaluation layers (Kahn's algorithm): every dependency
/// must name a probe, and the graph must be acyclic. Within a layer probes are
/// independent; each layer depends only on earlier ones.
pub fn topo_sort(states: &Vec<StateConfig>) -> (r: Result<Vec<Vec<usize>>, ProbeError>)
    ensures
        r is Ok <==> (all_deps_known(dep_graph(states@)) && !has_cycle(dep_graph(states@))),
        match r {
            Ok(layers) => valid_layering(dep_graph(states@), layer_views(layers@)),
            Err(ProbeError::UnknownDependency { probe, dep }) => !all_deps_known(dep_graph(states@))
                && exists|i: int, d: int| 0 <= i < states@.len() && 0 <= d < states@[i].deps@.len()
                && dep_graph(states@)[i][d] == -1 && probe@ == states@[i].name@ && dep@ == (#[trigger] states@[i].deps@[d])@,
            Err(ProbeError::Cycle) => all_deps_known(dep_graph(states@)) && has_cycle(dep_graph(states@)),
        },
{
    let g = resolve_graph(states)?;
    let ghost gi = dep_graph(states@);
    assert forall|i: int| 0 <= i < g@.len() implies (#[trigger] g@[i])@.len() == gi[i].len() by {
        assert(g@[i]@.map_values(|x: usize| x as int) == gi[i]);
    }
    assert forall|i: int, d: int| 0 <= i < g@.len() && 0 <= d < gi[i].len() implies #[trigger] gi[i][d] == g@[i]@[d] as int by {
        assert(g@[i]@.map_values(|x: usize| x as int) == gi[i]);
        assert(g@[i]@.map_values(|x: usize| x as int)[d] == g@[i]@[d] as int);
    }
    match layers_of(&g, Ghost(gi)) {
        Some(layers) => {
            proof {
                lemma_layering_excludes_cycle(gi, layer_views(layers@));
            }
            Ok(layers)
        },
        None => Err(ProbeError::Cycle),
    }
}

/// A probe graph with a cycle is refused; since the layering
/// is computed before any probe is evaluated, no command runs.
pub proof fn lemma_cycle_refused(states: Seq<StateConfig>, layers: Seq<Seq<int>>)
    requires
        has_cycle(dep_graph(states)),
    ensures
        !valid_layering(dep_graph(states), layers),
{
    if valid_layering(dep_graph(states), layers) {
        lemma_layering_excludes_cycle(dep_graph(states), layers);
    }
}

/// When probe `c` depends on `b` and `b` on `a`, both `a`
/// and `b` stand in layers strictly before the layer of `c`, so neither
/// shares `c`'s layer and both are evaluated before it.
pub proof fn lemma_chain_ordered(
    g: Seq<Seq<int>>,
    layers: Seq<Seq<int>>,
    a: int,
    b: int,
    c: int,
    db: int,
    da: int,
    mc: int,
)
    requires
        valid_layering(g, layers),
        0 <= c < g.len(),
        0 <= db < g[c].len(),
        g[c][db] == b,
        0 <= b < g.len(),
        0 <= da < g[b].len(),
        g[b][da] == a,
        0 <= mc < layers.len(),
        layers[mc].contains(c),
    ensures
        forall|m: int| 0 <= m < layers.len() && #[trigger] layers[m].contains(b) ==> m < mc,
        forall|m: int| 0 <= m < layers.len() && #[trigger] layers[m].contains(a) ==> m < mc,
{
    assert(layers[mc].contains(c) && 0 <= db < g[c].len());
    assert(placed_before(layers, g[c][db], mc));
    let mb = choose|m2: int| 0 <= m2 < mc && #[trigger] layers[m2].contains(b);
    assert(layers[mb].contains(b) && 0 <= da < g[b].len());
    assert(placed_before(layers, g[b][da], mb));
    let ma = choose|m2: int| 0 <= m2 < mb && #[trigger] layers[m2].contains(a);
    assert forall|m: int| 0 <= m < layers.len() && #[trigger] layers[m].contains(b) implies m < mc by {
        assert(layers[mb].contains(b));
    }
    assert forall|m: int| 0 <= m < layers.len() && #[trigger] layers[m].contains(a) implies m < mc by {
        assert(layers[ma].contains(a));
    }
}

/// Probe `i` is named in `needed`.
pub open spec fn wanted(states: Seq<StateConfig>, needed: Seq<String>, i: int) -> bool {
    exists|k: int| 0 <= k < needed.len() && #[trigger] needed[k]@ == states[i].name@
}

/// Probe `j` is named by dependency `d` of probe `i`.
pub open spec fn dep_names(states: Seq<StateConfig>, i: int, d: int, j: int) -> bool {
    0 <= d < states[i].deps@.len() && states[i].deps@[d]@ == states[j].name@
}

/// `s` holds every wanted probe and, with a probe, every probe that one of
/// its dependencies names.
pub open spec fn closed_over(states: Seq<StateConfig>, needed: Seq<String>, s: Set<int>) -> bool {
    &&& forall|i: int| 0 <= i < states.len() && wanted(states, needed, i) ==> #[trigger] s.contains(i)
    &&& forall|i: int, d: int, j: int| 0 <= i < states.len() && 0 <= j < states.len() && s.contains(i)
        && #[trigger] dep_names(states, i, d, j) ==> #[trigger] s.contains(j)
}

fn names_match(a: &String, b: &String) -> (r: bool)
    ensures
        r == (a@ == b@),
{
    str_eq(a.as_str(), b.as_str())
}

/// The probes that evaluating the `needed` ones requires: those named in
/// `needed` and, transitively, those their dependencies name. `r[i]` tells
/// whether probe `i` is required; the required probes form the least set
/// closed under dependencies that holds the wanted ones.
pub fn required_states(states: &Vec<StateConfig>, needed: &Vec<String>) -> (r: Vec<bool>)
    ensures
        r@.len() == states@.len(),
        closed_over(states@, needed@, Set::new(|i: int| 0 <= i < r@.len() && r@[i])),
        forall|s: Set<int>, i: int| closed_over(states@, needed@, s) && 0 <= i < r@.len() && r@[i] ==> s.contains(i),
{
    let n = states.len();
    let mut marked: Vec<bool> = Vec::new();
    let mut processed: usize = 0;
    let mut z: usize = 0;
    while z < n
        invariant
            z <= n,
            n == states@.len(),
            marked@.len() == z,
            processed == count_true(marked@),
            processed <= z,
            forall|i: int| 0 <= i < z ==> marked@[i] == wanted(states@, needed@, i),
        decreases n - z,
    {
        let mut w = false;
        let mut k: usize = 0;
        while k < needed.len()
            invariant
                z < n,
                n == states@.len(),
                k <= needed@.len(),
                w <==> exists|q: int| 0 <= q < k && #[trigger] needed@[q]@ == states@[z as int].name@,
            decreases needed.len() - k,
        {
            if names_match(&needed[k], &states[z].name) {
                w = true;
            }
            k = k + 1;
        }
        let ghost before = marked@;
        marked.push(w);
        proof {
            assert(marked@.drop_last() =~= before);
            lemma_count_true_bounded(before);
        }
        if w {
            processed = processed + 1;
        }
        z = z + 1;
    }
    loop
        invariant
            n == states@.len(),
            marked@.len() == n,
            processed == count_true(marked@),
            processed <= n,
            forall|i: int| 0 <= i < n && wanted(states@, needed@, i) ==> #[trigger] marked@[i],
            forall|s: Set<int>, i: int| closed_over(states@, needed@, s) && 0 <= i < n && marked@[i] ==> s.contains(i),
        decreases n - processed,
    {
        let ghost start = processed;
        let mut changed = false;
        let mut i: usize = 0;
        while i < n
            invariant
                n == states@.len(),
                marked@.len() == n,
                i <= n,
                processed == count_true(marked@),
                processed <= n,
                processed >= start,
                changed ==> processed > start,
                forall|x: int| 0 <= x < n && wanted(states@, needed@, x) ==> #[trigger] marked@[x],
                forall|s: Set<int>, x: int| closed_over(states@, needed@, s) && 0 <= x < n && marked@[x] ==> s.contains(x),
                !changed ==> forall|x: int, d: int, j: int| 0 <= x < i && 0 <= j < n && marked@[x]
                    && #[trigger] dep_names(states@, x, d, j) ==> marked@[j],
            decreases n - i,
        {
            if marked[i] {
                let deps = &states[i].deps;
                let mut d: usize = 0;
                while d < deps.len()
                    invariant
                        n == states@.len(),
                        marked@.len() == n,
                        i < n,
                        marked@[i as int],
                        deps == &states@[i as int].deps,
                        d <= deps@.len(),
                        processed == count_true(marked@),
                        processed <= n,
                        processed >= start,
                        changed ==> processed > start,
                        forall|x: int| 0 <= x < n && wanted(states@, needed@, x) ==> #[trigger] marked@[x],
                        forall|s: Set<int>, x: int| closed_over(states@, needed@, s) && 0 <= x < n && marked@[x] ==> s.contains(x),
                        !changed ==> forall|x: int, e: int, j: int| 0 <= x < i && 0 <= j < n && marked@[x]
                            && #[trigger] dep_names(states@, x, e, j) ==> marked@[j],
                        !changed ==> forall|e: int, j: int| 0 <= e < d && 0 <= j < n
                            && #[trigger] dep_names(states@, i as int, e, j) ==> marked@[j],
                    decreases deps.len() - d,
                {
                    let mut j: usize = 0;
                    while j < n
                        invariant
                            n == states@.len(),
                            marked@.len() == n,
                            i < n,
                            j <= n,
                            marked@[i as int],
                            deps == &states@[i as int].deps,
                            d < deps@.len(),
                            processed == count_true(marked@),
                            processed <= n,
                            processed >= start,
                            changed ==> processed > start,
                            forall|x: int| 0 <= x < n && wanted(states@, needed@, x) ==> #[trigger] marked@[x],
                            forall|s: Set<int>, x: int| closed_over(states@, needed@, s) && 0 <= x < n && marked@[x] ==> s.contains(x),
                            !changed ==> forall|x: int, e: int, y: int| 0 <= x < i && 0 <= y < n && marked@[x]
                                && #[trigger] dep_names(states@, x, e, y) ==> marked@[y],
                            !changed ==> forall|e: int, y: int| 0 <= e < d && 0 <= y < n
                                && #[trigger] dep_names(states@, i as int, e, y) ==> marked@[y],
                            !changed ==> forall|y: int| 0 <= y < j && #[trigger] dep_names(states@, i as int, d as int, y) ==> marked@[y],
                        decreases n - j,
                    {
                        if !marked[j] && names_match(&deps[d], &states[j].name) {
                            let ghost before = marked@;
                            proof {
                                lemma_count_true_flip(before, j as int);
                                lemma_count_true_bounded(before.update(j as int, true));
                                assert forall|s: Set<int>| closed_over(states@, needed@, s) implies s.contains(j as int) by {
                                    assert(s.contains(i as int));
                                    assert(dep_names(states@, i as int, d as int, j as int));
                                }
                            }
                            marked.set(j, true);
                            processed = processed + 1;
                            changed = true;
                            assert forall|s: Set<int>, x: int| closed_over(states@, needed@, s) && 0 <= x < n && marked@[x]
                                implies s.contains(x) by {
                                if x != j as int {
                                    assert(before[x]);
                                }
                            }
                            assert forall|x: int| 0 <= x < n && wanted(states@, needed@, x) implies #[trigger] marked@[x] by {
                                if x != j as int {
                                    assert(before[x]);
                                }
                            }
                        }
                        j = j + 1;
                    }
                    d = d + 1;
                }
            }
            i = i + 1;
        }
        if !changed {
            proof {
                let m = Set::new(|x: int| 0 <= x < marked@.len() && marked@[x]);
                assert forall|x: int, e: int, y: int| 0 <= x < states@.len() && 0 <= y < states@.len() && m.contains(x)
                    && #[trigger] dep_names(states@, x, e, y) implies #[trigger] m.contains(y) by {
                    assert(marked@[x]);
                }
                assert forall|x: int| 0 <= x < states@.len() && wanted(states@, needed@, x) implies #[trigger] m.contains(x) by {
                    assert(marked@[x]);
                }
                assert(closed_over(states@, needed@, m));
            }
            return marked;
        }
    }
}

} // verus!
