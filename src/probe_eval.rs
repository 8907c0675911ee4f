use vstd::prelude::*;
use crate::probe::{clone_opt, opt_text, eval_probe, evaluated, ProbeError, ResultView, StateConfig, StateResult};
use crate::probe_graph::{
    all_deps_known, dep_graph, has_cycle, layer_views, placed, placed_before, resolve_graph, topo_sort,
    valid_layering,
};

verus! {

pub open spec fn view_of(r: StateResult) -> ResultView {
    r@
}

/// The results of the probes listed in `row`, in order.
pub open spec fn dep_views(rs: Seq<StateResult>, row: Seq<int>) -> Seq<ResultView> {
    row.map_values(|j: int| rs[j]@)
}

/// The results so far of the probes listed in `row`, in order.
pub open spec fn partial_dep_views(results: Seq<Option<StateResult>>, row: Seq<int>) -> Seq<ResultView> {
    row.map_values(|j: int| results[j]->Some_0@)
}

/// Probe `x` has a result, computed from the results its dependencies have.
pub open spec fn settled(
    states: Seq<StateConfig>,
    outputs: Seq<Option<String>>,
    gi: Seq<Seq<int>>,
    results: Seq<Option<StateResult>>,
    x: int,
) -> bool {
    &&& results[x] is Some
    &&& forall|d: int| 0 <= d < gi[x].len() ==> (#[trigger] results[gi[x][d]]) is Some
    &&& evaluated(states[x], opt_text(outputs[x]), partial_dep_views(results, gi[x]), results[x]->Some_0@)
}

proof fn lemma_settle(
    states: Seq<StateConfig>,
    outputs: Seq<Option<String>>,
    gi: Seq<Seq<int>>,
    lv: Seq<Seq<int>>,
    old: Seq<Option<StateResult>>,
    new: Seq<Option<StateResult>>,
    i: int,
    m: int,
)
    requires
        valid_layering(gi, lv),
        all_deps_known(gi),
        gi.len() == old.len(),
        0 <= m < lv.len(),
        lv[m].contains(i),
        0 <= i < old.len(),
        new.len() == old.len(),
        new[i] is Some,
        forall|x: int| 0 <= x < old.len() && x != i ==> new[x] == old[x],
        forall|d: int| 0 <= d < gi[i].len() ==> (#[trigger] old[gi[i][d]]) is Some,
        evaluated(states[i], opt_text(outputs[i]), partial_dep_views(old, gi[i]), new[i]->Some_0@),
        forall|x: int| 0 <= x < old.len() && (#[trigger] old[x]) is Some
            ==> settled(states, outputs, gi, old, x) && exists|m2: int| 0 <= m2 <= m && #[trigger] lv[m2].contains(x),
    ensures
        forall|x: int| 0 <= x < new.len() && (#[trigger] new[x]) is Some
            ==> settled(states, outputs, gi, new, x) && exists|m2: int| 0 <= m2 <= m && #[trigger] lv[m2].contains(x),
{
    assert forall|x: int| 0 <= x < new.len() && (#[trigger] new[x]) is Some
        implies settled(states, outputs, gi, new, x) && exists|m2: int| 0 <= m2 <= m && #[trigger] lv[m2].contains(x) by {
        if x == i {
            assert forall|d: int| 0 <= d < gi[i].len() implies (#[trigger] new[gi[i][d]]) is Some by {
                assert(old[gi[i][d]] is Some);
                assert(0 <= gi[i][d] < gi.len());
                if gi[i][d] != i {
                    assert(new[gi[i][d]] == old[gi[i][d]]);
                }
            }
            assert(partial_dep_views(new, gi[i]) =~= partial_dep_views(old, gi[i])) by {
                assert forall|d: int| 0 <= d < gi[i].len() implies new[gi[i][d]] == old[gi[i][d]] by {
                    assert(0 <= gi[i][d] < gi.len());
                    if gi[i][d] == i {
                        assert(lv[m].contains(i) && 0 <= d < gi[i].len());
                        assert(placed_before(lv, gi[i][d], m));
                        let m3 = choose|m3: int| 0 <= m3 < m && #[trigger] lv[m3].contains(gi[i][d]);
                        assert(lv[m3].contains(i));
                    }
                }
            }
        } else {
            assert(old[x] is Some);
            let m2 = choose|m2: int| 0 <= m2 <= m && #[trigger] lv[m2].contains(x);
            assert forall|d: int| 0 <= d < gi[x].len() implies new[gi[x][d]] == old[gi[x][d]] by {
                assert(0 <= gi[x][d] < gi.len());
                if gi[x][d] == i {
                    assert(lv[m2].contains(x) && 0 <= d < gi[x].len());
                    assert(placed_before(lv, gi[x][d], m2));
                    let m3 = choose|m3: int| 0 <= m3 < m2 && #[trigger] lv[m3].contains(gi[x][d]);
                    assert(lv[m3].contains(i));
                }
            }
            assert forall|d: int| 0 <= d < gi[x].len() implies (#[trigger] new[gi[x][d]]) is Some by {
                assert(new[gi[x][d]] == old[gi[x][d]]);
            }
            assert(partial_dep_views(new, gi[x]) =~= partial_dep_views(old, gi[x]));
        }
    }
}

#[verifier::rlimit(60)]
/// The results of the probes listed in `row`, each of which has one.
fn collect_deps(results: &Vec<Option<StateResult>>, row: &Vec<usize>, Ghost(gr): Ghost<Seq<int>>) -> (r: Vec<StateResult>)
    requires
        row@.map_values(|x: usize| x as int) == gr,
        forall|e: int| 0 <= e < gr.len() ==> 0 <= #[trigger] gr[e] < results@.len() && results@[gr[e]] is Some,
    ensures
        r@.map_values(|x: StateResult| x@) == partial_dep_views(results@, gr),
{
    let mut deps: Vec<StateResult> = Vec::new();
    let mut d: usize = 0;
    while d < row.len()
        invariant
            row@.map_values(|x: usize| x as int) == gr,
            forall|e: int| 0 <= e < gr.len() ==> 0 <= #[trigger] gr[e] < results@.len() && results@[gr[e]] is Some,
            d <= row@.len(),
            deps@.map_values(|x: StateResult| x@) == partial_dep_views(results@, gr.subrange(0, d as int)),
        decreases row.len() - d,
    {
        let j = row[d];
        assert(gr[d as int] == j as int);
        match &results[j] {
            Some(dep) => {
                let ghost before = deps@.map_values(|x: StateResult| x@);
                deps.push(dep.duplicate());
                assert(deps@.map_values(|x: StateResult| x@) =~= before.push(results@[j as int]->Some_0@));
                assert(partial_dep_views(results@, gr.subrange(0, d + 1)) =~= partial_dep_views(results@, gr.subrange(0, d as int)).push(
                    results@[j as int]->Some_0@,
                ));
            },
            None => {},
        }
        d = d + 1;
    }
    assert(gr.subrange(0, row@.len() as int) =~= gr);
    deps
}

fn result_at(results: &Vec<Option<StateResult>>, i: usize) -> (r: StateResult)
    requires
        i < results@.len(),
        results@[i as int] is Some,
    ensures
        r@ == results@[i as int]->Some_0@,
{
    match &results[i] {
        Some(res) => res.duplicate(),
        None => StateResult { name: String::new(), original: None, raw: String::new(), json: false, templates: Vec::new() },
    }
}

/// Evaluates every probe, layer by layer, each from its command output
/// (`outputs[i]` for probe `i`) and the final results of its dependencies,
/// and returns the results in definition order. Structural errors (an unknown
/// dependency, a cycle) are reported before anything is evaluated.
#[verifier::rlimit(100)]
pub fn eval_all(states: &Vec<StateConfig>, outputs: &Vec<Option<String>>) -> (r: Result<Vec<StateResult>, ProbeError>)
    requires
        outputs@.len() == states@.len(),
    ensures
        r is Ok <==> (all_deps_known(dep_graph(states@)) && !has_cycle(dep_graph(states@))),
        match r {
            Ok(rs) => rs@.len() == states@.len() && forall|i: int| 0 <= i < rs@.len()
                ==> evaluated(states@[i], opt_text(outputs@[i]), dep_views(rs@, dep_graph(states@)[i]), #[trigger] rs@[i]@),
            Err(_) => true,
        },
{
    let layers = topo_sort(states)?;
    let g = match resolve_graph(states) {
        Ok(g) => g,
        Err(e) => return Err(e),
    };
    let ghost gi = dep_graph(states@);
    let ghost lv = layer_views(layers@);
    let n = states.len();
    let mut results: Vec<Option<StateResult>> = Vec::new();
    let mut z: usize = 0;
    while z < n
        invariant
            z <= n,
            results@.len() == z,
            forall|x: int| 0 <= x < z ==> results@[x] is None,
        decreases n - z,
    {
        results.push(None);
        z = z + 1;
    }
    let mut m: usize = 0;
    while m < layers.len()
        invariant
            n == states@.len(),
            outputs@.len() == n,
            gi == dep_graph(states@),
            all_deps_known(gi),
            lv == layer_views(layers@),
            valid_layering(gi, lv),
            g@.len() == n,
            forall|i: int| 0 <= i < g@.len() ==> (#[trigger] g@[i])@.map_values(|x: usize| x as int) == gi[i],
            results@.len() == n,
            m <= layers@.len(),
            forall|m2: int, x: int| 0 <= m2 < m && #[trigger] lv[m2].contains(x) ==> results@[x] is Some,
            forall|x: int| 0 <= x < n && (#[trigger] results@[x]) is Some
                ==> settled(states@, outputs@, gi, results@, x) && exists|m2: int| 0 <= m2 < m && #[trigger] lv[m2].contains(x),
        decreases layers.len() - m,
    {
        let layer = &layers[m];
        let mut a: usize = 0;
        while a < layer.len()
            invariant
                n == states@.len(),
                outputs@.len() == n,
                gi == dep_graph(states@),
                all_deps_known(gi),
                lv == layer_views(layers@),
                valid_layering(gi, lv),
                g@.len() == n,
                forall|i: int| 0 <= i < g@.len() ==> (#[trigger] g@[i])@.map_values(|x: usize| x as int) == gi[i],
                results@.len() == n,
                m < layers@.len(),
                layer == &layers@[m as int],
                a <= layer@.len(),
                forall|m2: int, x: int| 0 <= m2 < m && #[trigger] lv[m2].contains(x) ==> results@[x] is Some,
                forall|b: int| 0 <= b < a ==> (#[trigger] results@[layer@[b] as int]) is Some,
                forall|x: int| 0 <= x < n && (#[trigger] results@[x]) is Some
                    ==> settled(states@, outputs@, gi, results@, x) && exists|m2: int| 0 <= m2 <= m && #[trigger] lv[m2].contains(x),
            decreases layer.len() - a,
        {
            let i = layer[a];
            assert(lv[m as int][a as int] == i as int);
            assert(0 <= lv[m as int][a as int] < gi.len());
            assert(lv[m as int].contains(i as int));
            let row = &g[i];
            assert(row@.map_values(|x: usize| x as int) == gi[i as int]);
            proof {
                assert forall|e: int| 0 <= e < gi[i as int].len() implies (#[trigger] results@[gi[i as int][e]]) is Some by {
                    assert(lv[m as int].contains(i as int) && 0 <= e < gi[i as int].len());
                    assert(placed_before(lv, gi[i as int][e], m as int));
                    let m2 = choose|m2: int| 0 <= m2 < m && #[trigger] lv[m2].contains(gi[i as int][e]);
                }
            }
            let deps = collect_deps(&results, row, Ghost(gi[i as int]));
            let output = clone_opt(&outputs[i]);
            assert(opt_text(output) == opt_text(outputs@[i as int]));
            let res = eval_probe(&states[i], output, &deps);
            let ghost old_results = results@;
            results.set(i, Some(res));
            proof {
                assert(forall|x: int| 0 <= x < n && (#[trigger] old_results[x]) is Some
                    ==> settled(states@, outputs@, gi, old_results, x) && exists|m2: int| 0 <= m2 <= m && #[trigger] lv[m2].contains(x));
                lemma_settle(states@, outputs@, gi, lv, old_results, results@, i as int, m as int);
            }
            assert forall|b: int| 0 <= b < a + 1 implies (#[trigger] results@[layer@[b] as int]) is Some by {
                assert(lv[m as int][b] == layer@[b] as int);
                assert(0 <= lv[m as int][b] < gi.len());
                if b < a {
                    assert(old_results[layer@[b] as int] is Some);
                } else {
                    assert(layer@[b] == i);
                }
            }
            a = a + 1;
        }
        assert forall|m2: int, x: int| 0 <= m2 < m + 1 && #[trigger] lv[m2].contains(x) implies results@[x] is Some by {
            if m2 == m as int {
                let b = choose|b: int| 0 <= b < lv[m2].len() && lv[m2][b] == x;
                assert(layer@[b] as int == x);
            }
        }
        m = m + 1;
    }
    let mut out: Vec<StateResult> = Vec::new();
    let mut i: usize = 0;
    while i < n
        invariant
            n == states@.len(),
            outputs@.len() == n,
            gi == dep_graph(states@),
            lv == layer_views(layers@),
            valid_layering(gi, lv),
            results@.len() == n,
            i <= n,
            out@.len() == i,
            forall|m2: int, x: int| 0 <= m2 < lv.len() && #[trigger] lv[m2].contains(x) ==> results@[x] is Some,
            forall|x: int| 0 <= x < n && (#[trigger] results@[x]) is Some ==> settled(states@, outputs@, gi, results@, x),
            forall|x: int| 0 <= x < i ==> #[trigger] view_of(out@[x]) == view_of(results@[x]->Some_0),
        decreases n - i,
    {
        assert(placed(lv, i as int));
        let ghost mm = choose|mm: int| 0 <= mm < lv.len() && #[trigger] lv[mm].contains(i as int);
        assert(results@[i as int] is Some);
        let ghost before = out@;
        out.push(result_at(&results, i));
        let ghost k = i as int;
        let ghost prev = before;
        i = i + 1;
        assert(out@[k]@ == results@[k]->Some_0@);
        assert forall|x: int| 0 <= x < i implies #[trigger] view_of(out@[x]) == view_of(results@[x]->Some_0) by {
            if x < k {
                assert(out@[x] == prev[x]);
            }
        }
    }
    proof {
        assert forall|x: int| 0 <= x < out@.len()
            implies evaluated(states@[x], opt_text(outputs@[x]), dep_views(out@, gi[x]), #[trigger] out@[x]@) by {
            assert(view_of(out@[x]) == view_of(results@[x]->Some_0));
            assert(placed(lv, x));
            let mm = choose|mm: int| 0 <= mm < lv.len() && #[trigger] lv[mm].contains(x);
            assert(results@[x] is Some);
            assert(settled(states@, outputs@, gi, results@, x));
            assert(dep_views(out@, gi[x]) =~= partial_dep_views(results@, gi[x])) by {
                assert forall|d: int| 0 <= d < gi[x].len() implies out@[gi[x][d]]@ == results@[gi[x][d]]->Some_0@ by {
                    assert(0 <= gi[x][d] < gi.len());
                    assert(placed(lv, gi[x][d]));
                    let m3 = choose|m3: int| 0 <= m3 < lv.len() && #[trigger] lv[m3].contains(gi[x][d]);
                    assert(view_of(out@[gi[x][d]]) == view_of(results@[gi[x][d]]->Some_0));
                }
            }
        }
    }
    Ok(out)
}

} // verus!
