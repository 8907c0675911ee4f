use vstd::prelude::*;
use crate::item::{cache_id_of, opt_view, Mode, StateItem};
use crate::registry::{lookup_in, ProviderKind};
use crate::requirement::RequirementV;
use crate::runner::{
    cache_allows_skip, collected_requirements, count_of, next_spec, Action, Event, Verdict,
};

verus! {

/// The fingerprint stored under `id`, if any.
pub open spec fn stored_at(store: Map<Seq<char>, Seq<char>>, id: Seq<char>) -> Option<Seq<char>> {
    if store.contains_key(id) {
        Some(store[id])
    } else {
        None
    }
}

/// The last decision for one item when the driver answers every step: the
/// gate evaluates to `gate`, the check to `check`, the apply to `apply`.
pub open spec fn item_final(
    mode: Mode,
    provider: Option<ProviderKind>,
    has_gate: bool,
    allow_skip: bool,
    gate: bool,
    check: bool,
    apply: bool,
) -> Action {
    let a0 = next_spec(mode, provider, has_gate, allow_skip, Event::Start);
    let a1 = if a0 is RunGate {
        next_spec(mode, provider, has_gate, allow_skip, Event::Gate(gate))
    } else {
        a0
    };
    let a2 = if a1 is Check {
        next_spec(mode, provider, has_gate, allow_skip, Event::Checked(check))
    } else {
        a1
    };
    if a2 is Apply {
        next_spec(mode, provider, has_gate, allow_skip, Event::Applied(apply))
    } else {
        a2
    }
}

/// The last decision for item `i` of a run, against the store as the earlier
/// items of the run left it.
pub open spec fn action_at(
    mode: Mode,
    kinds: Seq<ProviderKind>,
    items: Seq<StateItem>,
    store: Map<Seq<char>, Seq<char>>,
    gates: Seq<bool>,
    checks: Seq<bool>,
    applies: Seq<bool>,
    i: nat,
) -> Action
    decreases i, 1nat,
{
    let it = items[i as int];
    let st = store_after(mode, kinds, items, store, gates, checks, applies, i);
    item_final(
        mode,
        lookup_in(kinds, it.kind@),
        it.run_if is Some,
        cache_allows_skip(opt_view(it.cache_key), stored_at(st, cache_id_of(it.kind@, it.key@))),
        gates[i as int],
        checks[i as int],
        applies[i as int],
    )
}

/// The fingerprint store after the first `n` items of a run: a successful
/// apply of an item with a cache key records that key under the item's id.
pub open spec fn store_after(
    mode: Mode,
    kinds: Seq<ProviderKind>,
    items: Seq<StateItem>,
    store: Map<Seq<char>, Seq<char>>,
    gates: Seq<bool>,
    checks: Seq<bool>,
    applies: Seq<bool>,
    n: nat,
) -> Map<Seq<char>, Seq<char>>
    decreases n, 0nat,
{
    if n == 0 {
        store
    } else {
        let st = store_after(mode, kinds, items, store, gates, checks, applies, (n - 1) as nat);
        let it = items[n - 1];
        let a = action_at(mode, kinds, items, store, gates, checks, applies, (n - 1) as nat);
        if a == Action::Finish(Verdict::Changed) && it.cache_key is Some {
            st.insert(cache_id_of(it.kind@, it.key@), it.cache_key->Some_0@)
        } else {
            st
        }
    }
}

/// Plan mode is pure enumeration: whatever the event, the decision is never
/// to call a provider's check or apply.
pub proof fn lemma_plan_never_calls_provider(
    provider: Option<ProviderKind>,
    has_gate: bool,
    allow_skip: bool,
    event: Event,
)
    ensures
        !(next_spec(Mode::Plan, provider, has_gate, allow_skip, event) is Check),
        !(next_spec(Mode::Plan, provider, has_gate, allow_skip, event) is Apply),
{
}

/// In Apply mode, an item whose check is satisfied and whose
/// stored fingerprint equals its declared cache key finishes as satisfied,
/// without an apply.
pub proof fn lemma_cache_hit_skips_apply(
    provider: ProviderKind,
    has_gate: bool,
    cache_key: Seq<char>,
    stored: Seq<char>,
)
    requires
        stored == cache_key,
    ensures
        next_spec(
            Mode::Apply,
            Some(provider),
            has_gate,
            cache_allows_skip(Some(cache_key), Some(stored)),
            Event::Checked(true),
        ) == Action::Finish(Verdict::Satisfied),
{
}

/// In Apply mode, when an item's declared cache key
/// differs from the stored one and its check is satisfied, the item is applied
/// once; after that apply succeeds the store holds the new key, and the next
/// satisfied check finishes without applying again.
pub proof fn lemma_cache_change_applies_once(
    mode: Mode,
    kinds: Seq<ProviderKind>,
    item: StateItem,
    store: Map<Seq<char>, Seq<char>>,
    gate: bool,
)
    requires
        mode == Mode::Apply,
        item.cache_key is Some,
        lookup_in(kinds, item.kind@) is Some,
        !lookup_in(kinds, item.kind@)->Some_0.is_check_only_spec(),
        stored_at(store, cache_id_of(item.kind@, item.key@)) != Some(item.cache_key->Some_0@),
        item.run_if is Some ==> gate,
    ensures
        ({
            let p = lookup_in(kinds, item.kind@);
            let id = cache_id_of(item.kind@, item.key@);
            let key = item.cache_key->Some_0@;
            let allow = cache_allows_skip(opt_view(item.cache_key), stored_at(store, id));
            let first = item_final(mode, p, item.run_if is Some, allow, gate, true, true);
            let store2 = if first == Action::Finish(Verdict::Changed) { store.insert(id, key) } else { store };
            let allow2 = cache_allows_skip(opt_view(item.cache_key), stored_at(store2, id));
            &&& next_spec(mode, p, item.run_if is Some, allow, Event::Checked(true)) == Action::Apply(p->Some_0)
            &&& first == Action::Finish(Verdict::Changed)
            &&& stored_at(store2, id) == Some(key)
            &&& item_final(mode, p, item.run_if is Some, allow2, gate, true, true) == Action::Finish(Verdict::Satisfied)
        }),
{
    let id = cache_id_of(item.kind@, item.key@);
    let key = item.cache_key->Some_0@;
    assert(stored_at(store.insert(id, key), id) == Some(key));
}

/// In every mode, an item whose gate fails finishes as skipped before
/// any provider is consulted, and the skip adds only to the skipped tally.
pub proof fn lemma_gate_failure_skips(
    mode: Mode,
    provider: Option<ProviderKind>,
    allow_skip: bool,
    check: bool,
    apply: bool,
    verdicts: Seq<Verdict>,
)
    ensures
        next_spec(mode, provider, true, allow_skip, Event::Start) == Action::RunGate,
        next_spec(mode, provider, true, allow_skip, Event::Gate(false)) == Action::Finish(Verdict::Skipped),
        item_final(mode, provider, true, allow_skip, false, check, apply) == Action::Finish(Verdict::Skipped),
        count_of(verdicts.push(Verdict::Skipped), Verdict::Skipped) == count_of(verdicts, Verdict::Skipped) + 1,
        forall|v: Verdict| v != Verdict::Skipped ==> count_of(verdicts.push(Verdict::Skipped), v) == count_of(verdicts, v),
{
    assert(verdicts.push(Verdict::Skipped).drop_last() =~= verdicts);
}

proof fn lemma_store_entry_untouched(
    mode: Mode,
    kinds: Seq<ProviderKind>,
    items: Seq<StateItem>,
    store: Map<Seq<char>, Seq<char>>,
    gates: Seq<bool>,
    checks: Seq<bool>,
    applies: Seq<bool>,
    n: nat,
    m: nat,
    id: Seq<char>,
)
    requires
        n <= m <= items.len(),
        forall|j: int| n <= j < m ==> cache_id_of(items[j].kind@, items[j].key@) != id,
    ensures
        stored_at(store_after(mode, kinds, items, store, gates, checks, applies, m), id)
            == stored_at(store_after(mode, kinds, items, store, gates, checks, applies, n), id),
    decreases m,
{
    if m > n {
        lemma_store_entry_untouched(mode, kinds, items, store, gates, checks, applies, n, (m - 1) as nat, id);
        let st = store_after(mode, kinds, items, store, gates, checks, applies, (m - 1) as nat);
        let it = items[m - 1];
        let id2 = cache_id_of(it.kind@, it.key@);
        if it.cache_key is Some {
            assert(stored_at(st.insert(id2, it.cache_key->Some_0@), id) == stored_at(st, id));
        }
    }
}

/// In Apply mode, when items have distinct cache ids and no item failed in a
/// first run, a second run that sees every check satisfied (no drift), the
/// same gates, and the store the first run left changes nothing.
pub proof fn lemma_second_apply_changes_nothing(
    kinds: Seq<ProviderKind>,
    items: Seq<StateItem>,
    store: Map<Seq<char>, Seq<char>>,
    gates: Seq<bool>,
    checks: Seq<bool>,
    applies: Seq<bool>,
    applies2: Seq<bool>,
)
    requires
        gates.len() == items.len(),
        checks.len() == items.len(),
        applies.len() == items.len(),
        applies2.len() == items.len(),
        forall|i: int, j: int| 0 <= i < items.len() && 0 <= j < items.len() && i != j
            ==> cache_id_of(items[i].kind@, items[i].key@) != cache_id_of(items[j].kind@, items[j].key@),
        forall|i: nat| i < items.len()
            ==> action_at(Mode::Apply, kinds, items, store, gates, checks, applies, i) != Action::Finish(Verdict::Failed),
    ensures
        ({
            let store1 = store_after(Mode::Apply, kinds, items, store, gates, checks, applies, items.len() as nat);
            let all_ok = Seq::new(items.len(), |i: int| true);
            forall|i: nat| i < items.len()
                ==> action_at(Mode::Apply, kinds, items, store1, gates, all_ok, applies2, i) != Action::Finish(Verdict::Changed)
        }),
{
    let store1 = store_after(Mode::Apply, kinds, items, store, gates, checks, applies, items.len() as nat);
    let all_ok = Seq::new(items.len(), |i: int| true);
    assert forall|i: nat| i < items.len()
        implies action_at(Mode::Apply, kinds, items, store1, gates, all_ok, applies2, i) != Action::Finish(Verdict::Changed) by {
        let it = items[i as int];
        let id = cache_id_of(it.kind@, it.key@);
        let p = lookup_in(kinds, it.kind@);
        lemma_store_entry_untouched(Mode::Apply, kinds, items, store1, gates, all_ok, applies2, 0, i, id);
        lemma_store_entry_untouched(Mode::Apply, kinds, items, store, gates, checks, applies, i + 1, items.len() as nat, id);
        let st_before = store_after(Mode::Apply, kinds, items, store, gates, checks, applies, i);
        let allow1 = cache_allows_skip(opt_view(it.cache_key), stored_at(st_before, id));
        let first = action_at(Mode::Apply, kinds, items, store, gates, checks, applies, i);
        assert(first == item_final(Mode::Apply, p, it.run_if is Some, allow1, gates[i as int], checks[i as int], applies[i as int]));
        let st_after = store_after(Mode::Apply, kinds, items, store, gates, checks, applies, i + 1);
        if it.cache_key is Some {
            if first == Action::Finish(Verdict::Changed) {
                assert(stored_at(st_after, id) == Some(it.cache_key->Some_0@));
            } else {
                assert(st_after == st_before);
            }
        }
    }
}

/// When every item of a non-empty run has the same kind,
/// that kind's requirements are collected exactly once.
pub proof fn lemma_same_kind_requirements_once(
    kinds: Seq<ProviderKind>,
    names: Seq<Seq<char>>,
    kind: Seq<char>,
)
    requires
        names.len() > 0,
        forall|i: int| 0 <= i < names.len() ==> names[i] == kind,
    ensures
        collected_requirements(kinds, names) == match lookup_in(kinds, kind) {
            Some(p) => p.requirements_spec(),
            None => Seq::<RequirementV>::empty(),
        },
    decreases names.len(),
{
    if names.len() == 1 {
        assert(names.drop_last() =~= Seq::<Seq<char>>::empty());
        assert(collected_requirements(kinds, names.drop_last()) =~= Seq::<RequirementV>::empty());
        match lookup_in(kinds, kind) {
            Some(p) => {
                assert(Seq::<RequirementV>::empty() + p.requirements_spec() =~= p.requirements_spec());
            },
            None => {},
        }
    } else {
        lemma_same_kind_requirements_once(kinds, names.drop_last(), kind);
        assert(names.drop_last()[0] == names.last());
    }
}

} // verus!
