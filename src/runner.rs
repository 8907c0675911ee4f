use vstd::prelude::*;
use crate::item::{cache_id_of, Mode, StateItem};
use crate::registry::{lookup_in, ProviderKind, ProviderRegistry};
use crate::requirement::{Requirement, RequirementV};
use crate::text::str_eq;

verus! {

/// How one item ended in a run.
#[derive(PartialEq, Eq, Structural, Clone, Copy, Debug)]
pub enum Verdict {
    /// Its gate failed: no provider was consulted.
    Skipped,
    /// Plan mode: counted, nothing consulted.
    Planned,
    /// The check reported the state as present (and, in Apply mode, the cache allowed the skip).
    Satisfied,
    /// Check mode: the check reported the state as missing.
    Missing,
    /// Apply mode: the provider applied the state successfully.
    Changed,
    /// Apply mode: applying failed; the run goes on.
    Failed,
    /// Apply mode: an assertion-style provider's check failed.
    Issue,
}

/// What happened since the last decision for an item.
#[derive(PartialEq, Eq, Structural, Clone, Copy, Debug)]
pub enum Event {
    /// The item has just been taken up.
    Start,
    /// Its gate predicate was evaluated.
    Gate(bool),
    /// The provider's check ran; `true` means satisfied.
    Checked(bool),
    /// The provider's apply ran; `true` means success.
    Applied(bool),
}

/// What the driver of a run must do next for an item.
#[derive(PartialEq, Eq, Structural, Clone, Copy, Debug)]
pub enum Action {
    /// Evaluate the item's gate predicate.
    RunGate,
    /// Call the provider's check.
    Check(ProviderKind),
    /// Call the provider's apply.
    Apply(ProviderKind),
    /// The item is done, with this verdict.
    Finish(Verdict),
    /// The item's kind names no registered provider: the run must stop.
    UnknownProvider,
}

/// Whether a satisfied check lets Apply skip the item: either it declares no
/// cache fingerprint, or the stored one equals the declared one.
pub open spec fn cache_allows_skip(cache_key: Option<Seq<char>>, stored: Option<Seq<char>>) -> bool {
    match cache_key {
        None => true,
        Some(k) => stored == Some(k),
    }
}

/// What follows a passed gate, or the start of an item without one.
pub open spec fn after_gate(mode: Mode, provider: Option<ProviderKind>) -> Action {
    if mode == Mode::Plan {
        Action::Finish(Verdict::Planned)
    } else {
        match provider {
            None => Action::UnknownProvider,
            Some(p) => Action::Check(p),
        }
    }
}

/// The reconciliation decision for one item, given its provider (if its kind is
/// registered), whether it has a gate, whether the cache allows a skip, and the
/// latest event.
pub open spec fn next_spec(
    mode: Mode,
    provider: Option<ProviderKind>,
    has_gate: bool,
    allow_skip: bool,
    event: Event,
) -> Action {
    match event {
        Event::Start => if has_gate {
            Action::RunGate
        } else {
            after_gate(mode, provider)
        },
        Event::Gate(passed) => if !passed {
            Action::Finish(Verdict::Skipped)
        } else {
            after_gate(mode, provider)
        },
        Event::Checked(ok) => if mode == Mode::Plan {
            Action::Finish(Verdict::Planned)
        } else {
            match provider {
                None => Action::UnknownProvider,
                Some(p) => if mode == Mode::Check {
                    if ok {
                        Action::Finish(Verdict::Satisfied)
                    } else {
                        Action::Finish(Verdict::Missing)
                    }
                } else if ok && allow_skip {
                    Action::Finish(Verdict::Satisfied)
                } else if p.is_check_only_spec() {
                    Action::Finish(Verdict::Issue)
                } else {
                    Action::Apply(p)
                },
            }
        },
        Event::Applied(ok) => if mode == Mode::Plan {
            Action::Finish(Verdict::Planned)
        } else if ok {
            Action::Finish(Verdict::Changed)
        } else {
            Action::Finish(Verdict::Failed)
        },
    }
}

/// The kind strings of `items`, in order.
pub open spec fn item_kinds(items: Seq<StateItem>) -> Seq<Seq<char>> {
    items.map_values(|i: StateItem| i.kind@)
}

/// Requirements of the distinct kinds in `names`, each kind contributing once,
/// at its first appearance.
pub open spec fn collected_requirements(kinds: Seq<ProviderKind>, names: Seq<Seq<char>>) -> Seq<RequirementV>
    decreases names.len(),
{
    if names.len() == 0 {
        Seq::empty()
    } else {
        let prev = collected_requirements(kinds, names.drop_last());
        if names.drop_last().contains(names.last()) {
            prev
        } else {
            match lookup_in(kinds, names.last()) {
                Some(p) => prev + p.requirements_spec(),
                None => prev,
            }
        }
    }
}

/// Whether the provider of `item` runs with elevated privileges.
pub open spec fn item_needs_sudo(kinds: Seq<ProviderKind>, item: StateItem) -> bool {
    match lookup_in(kinds, item.kind@) {
        Some(p) => p.needs_sudo_spec(),
        None => false,
    }
}

/// How a run begins.
pub enum RunStart {
    /// Item `i` names no registered provider: nothing may be done.
    UnknownKind(usize),
    /// Resolve these prerequisites in order (stopping at the first that
    /// fails), pre-authenticate elevation if `elevate`, then take the items.
    Proceed { requirements: Vec<Requirement>, elevate: bool },
}

/// Orchestrates Plan/Check/Apply over items: it owns the registry and the mode,
/// and decides each step; the caller performs the step and reports the event.
pub struct Runner {
    registry: ProviderRegistry,
    mode: Mode,
}

impl Runner {
    pub closed spec fn kinds(&self) -> Seq<ProviderKind> {
        self.registry.kinds()
    }

    pub closed spec fn mode_spec(&self) -> Mode {
        self.mode
    }

    pub fn new(mode: Mode) -> (r: Runner)
        ensures
            r.mode_spec() == mode,
            r.kinds() == crate::registry::registry_order(),
    {
        Runner { registry: ProviderRegistry::new(), mode }
    }

    pub fn mode(&self) -> (r: Mode)
        ensures
            r == self.mode_spec(),
    {
        self.mode
    }

    /// The provider that handles `item`, if its kind is registered.
    pub fn provider_for(&self, item: &StateItem) -> (r: Option<ProviderKind>)
        ensures
            r == lookup_in(self.kinds(), item.kind@),
    {
        self.registry.get(item.kind.as_str())
    }

    pub fn allow_skip(item: &StateItem, stored: &Option<String>) -> (r: bool)
        ensures
            r == cache_allows_skip(crate::item::opt_view(item.cache_key), crate::item::opt_view(*stored)),
    {
        match &item.cache_key {
            None => true,
            Some(k) => match stored {
                Some(s) => str_eq(s.as_str(), k.as_str()),
                None => false,
            },
        }
    }

    /// The next step for `item`, given the fingerprint stored for it by an
    /// earlier run and the latest event.
    pub fn next(&self, item: &StateItem, stored: &Option<String>, event: Event) -> (r: Action)
        ensures
            r == next_spec(
                self.mode_spec(),
                lookup_in(self.kinds(), item.kind@),
                item.run_if is Some,
                cache_allows_skip(crate::item::opt_view(item.cache_key), crate::item::opt_view(*stored)),
                event,
            ),
    {
        let provider = self.provider_for(item);
        let after_gate = if self.mode == Mode::Plan {
            Action::Finish(Verdict::Planned)
        } else {
            match provider {
                None => Action::UnknownProvider,
                Some(p) => Action::Check(p),
            }
        };
        match event {
            Event::Start => if item.run_if.is_some() {
                Action::RunGate
            } else {
                after_gate
            },
            Event::Gate(passed) => if !passed {
                Action::Finish(Verdict::Skipped)
            } else {
                after_gate
            },
            Event::Checked(ok) => if self.mode == Mode::Plan {
                Action::Finish(Verdict::Planned)
            } else {
                match provider {
                    None => Action::UnknownProvider,
                    Some(p) => if self.mode == Mode::Check {
                        if ok {
                            Action::Finish(Verdict::Satisfied)
                        } else {
                            Action::Finish(Verdict::Missing)
                        }
                    } else if ok && Self::allow_skip(item, stored) {
                        Action::Finish(Verdict::Satisfied)
                    } else if p.is_check_only() {
                        Action::Finish(Verdict::Issue)
                    } else {
                        Action::Apply(p)
                    },
                }
            },
            Event::Applied(ok) => if self.mode == Mode::Plan {
                Action::Finish(Verdict::Planned)
            } else if ok {
                Action::Finish(Verdict::Changed)
            } else {
                Action::Finish(Verdict::Failed)
            },
        }
    }

    /// Prerequisites of the distinct kinds present in `items`, kinds taken in
    /// order of first appearance; kinds that name no provider add nothing.
    pub fn collect_requirements(&self, items: &Vec<StateItem>) -> (r: Vec<Requirement>)
        ensures
            r@.map_values(|x: Requirement| x@) == collected_requirements(self.kinds(), item_kinds(items@)),
    {
        let ghost names = item_kinds(items@);
        let mut out: Vec<Requirement> = Vec::new();
        let mut i: usize = 0;
        while i < items.len()
            invariant
                i <= items.len(),
                names == item_kinds(items@),
                out@.map_values(|x: Requirement| x@) == collected_requirements(self.kinds(), names.subrange(0, i as int)),
            decreases items.len() - i,
        {
            let mut seen = false;
            let mut j: usize = 0;
            while j < i
                invariant
                    j <= i,
                    i < items.len(),
                    names == item_kinds(items@),
                    seen ==> names.subrange(0, i as int).contains(names[i as int]),
                    !seen ==> forall|k: int| 0 <= k < j ==> names[k] != names[i as int],
                decreases i - j,
            {
                if str_eq(items[j].kind.as_str(), items[i].kind.as_str()) {
                    seen = true;
                    assert(names.subrange(0, i as int)[j as int] == names[i as int]);
                }
                j = j + 1;
            }
            let ghost prefix = names.subrange(0, i as int);
            assert(names.subrange(0, i + 1).drop_last() =~= prefix);
            assert(names.subrange(0, i + 1).last() == names[i as int]);
            assert(names[i as int] == items@[i as int].kind@);
            if !seen {
                assert(!prefix.contains(names[i as int]));
                match self.provider_for(&items[i]) {
                    Some(p) => {
                        let reqs = p.requirements();
                        let ghost before = out@.map_values(|x: Requirement| x@);
                        let mut k: usize = 0;
                        while k < reqs.len()
                            invariant
                                k <= reqs.len(),
                                out@.map_values(|x: Requirement| x@) == before + reqs@.map_values(|x: Requirement| x@).subrange(0, k as int),
                            decreases reqs.len() - k,
                        {
                            let ghost o = out@.map_values(|x: Requirement| x@);
                            out.push(reqs[k].duplicate());
                            assert(out@.map_values(|x: Requirement| x@) =~= o.push(reqs@[k as int]@));
                            assert(reqs@.map_values(|x: Requirement| x@).subrange(0, k + 1) =~= reqs@.map_values(|x: Requirement| x@).subrange(0, k as int).push(reqs@[k as int]@));
                            k = k + 1;
                        }
                        assert(reqs@.map_values(|x: Requirement| x@).subrange(0, reqs.len() as int) =~= reqs@.map_values(|x: Requirement| x@));
                    },
                    None => {},
                }
            } else {
                assert(prefix.contains(names[i as int]));
            }
            i = i + 1;
        }
        assert(names.subrange(0, items.len() as int) =~= names);
        out
    }

    /// Whether elevation must be pre-authenticated: not when already running
    /// as the superuser, else when some item's provider needs it.
    pub fn any_needs_sudo(&self, items: &Vec<StateItem>, is_root: bool) -> (r: bool)
        ensures
            r == (!is_root && exists|i: int| 0 <= i < items@.len() && #[trigger] item_needs_sudo(self.kinds(), items@[i])),
    {
        if is_root {
            return false;
        }
        let mut i: usize = 0;
        while i < items.len()
            invariant
                i <= items.len(),
                !is_root,
                forall|j: int| 0 <= j < i ==> !#[trigger] item_needs_sudo(self.kinds(), items@[j]),
            decreases items.len() - i,
        {
            match self.provider_for(&items[i]) {
                Some(p) => {
                    if p.needs_sudo() {
                        assert(item_needs_sudo(self.kinds(), items@[i as int]));
                        return true;
                    }
                },
                None => {},
            }
            i = i + 1;
        }
        false
    }

    /// The first item whose kind names no registered provider.
    pub fn unknown_kind(&self, items: &Vec<StateItem>) -> (r: Option<usize>)
        ensures
            match r {
                Some(i) => i < items@.len() && lookup_in(self.kinds(), items@[i as int].kind@) is None
                    && forall|j: int| 0 <= j < i ==> lookup_in(self.kinds(), #[trigger] items@[j].kind@) is Some,
                None => forall|j: int| 0 <= j < items@.len() ==> lookup_in(self.kinds(), #[trigger] items@[j].kind@) is Some,
            },
    {
        let mut i: usize = 0;
        while i < items.len()
            invariant
                i <= items@.len(),
                forall|j: int| 0 <= j < i ==> lookup_in(self.kinds(), #[trigger] items@[j].kind@) is Some,
            decreases items.len() - i,
        {
            if self.provider_for(&items[i]).is_none() {
                return Some(i);
            }
            i = i + 1;
        }
        None
    }

    /// What a run does before its first item: a structural error (an item
    /// whose kind names no provider) stops it before anything changes; in
    /// Apply mode it then resolves the deduplicated prerequisites of the
    /// kinds present and pre-authenticates elevation when needed.
    pub fn start(&self, items: &Vec<StateItem>, is_root: bool) -> (r: RunStart)
        ensures
            match r {
                RunStart::UnknownKind(i) => i < items@.len() && lookup_in(self.kinds(), items@[i as int].kind@) is None,
                RunStart::Proceed { requirements, elevate } => {
                    &&& forall|j: int| 0 <= j < items@.len() ==> lookup_in(self.kinds(), #[trigger] items@[j].kind@) is Some
                    &&& requirements@.map_values(|x: Requirement| x@) == if self.mode_spec() == Mode::Apply {
                        crate::requirement::dedup_views(collected_requirements(self.kinds(), item_kinds(items@)))
                    } else {
                        Seq::empty()
                    }
                    &&& elevate == (self.mode_spec() == Mode::Apply && !is_root && exists|i: int|
                        0 <= i < items@.len() && #[trigger] item_needs_sudo(self.kinds(), items@[i]))
                },
            },
            (items@.len() > 0 && exists|i: int| 0 <= i < items@.len() && lookup_in(self.kinds(), #[trigger] items@[i].kind@) is None)
                ==> r is UnknownKind,
    {
        match self.unknown_kind(items) {
            Some(i) => return RunStart::UnknownKind(i),
            None => {},
        }
        if self.mode != Mode::Apply {
            let requirements: Vec<Requirement> = Vec::new();
            assert(requirements@.map_values(|x: Requirement| x@) =~= Seq::<RequirementV>::empty());
            return RunStart::Proceed { requirements, elevate: false };
        }
        let requirements = crate::requirement::resolve_requirements(&self.collect_requirements(items));
        let elevate = self.any_needs_sudo(items, is_root);
        RunStart::Proceed { requirements, elevate }
    }

    /// The fingerprint to persist once `item` has finished with `verdict`: its
    /// declared cache key under its cache id, after a successful apply only.
    pub fn cache_update(item: &StateItem, verdict: Verdict) -> (r: Option<(String, String)>)
        ensures
            match r {
                Some((id, k)) => verdict == Verdict::Changed && item.cache_key is Some
                    && id@ == cache_id_of(item.kind@, item.key@) && k@ == item.cache_key->Some_0@,
                None => verdict != Verdict::Changed || item.cache_key is None,
            },
    {
        if verdict != Verdict::Changed {
            return None;
        }
        match &item.cache_key {
            Some(k) => Some((item.cache_id(), k.clone())),
            None => None,
        }
    }
}

/// How many of `vs` are `v`.
pub open spec fn count_of(vs: Seq<Verdict>, v: Verdict) -> nat
    decreases vs.len(),
{
    if vs.len() == 0 {
        0
    } else {
        count_of(vs.drop_last(), v) + if vs.last() == v { 1nat } else { 0nat }
    }
}

pub proof fn lemma_count_of_bounded(vs: Seq<Verdict>, v: Verdict)
    ensures
        count_of(vs, v) <= vs.len(),
    decreases vs.len(),
{
    if vs.len() > 0 {
        lemma_count_of_bounded(vs.drop_last(), v);
    }
}

/// The end-of-run tally of verdicts. `total` counts the items that took part,
/// that is all but the skipped ones.
pub struct Summary {
    pub total: usize,
    pub skipped: usize,
    pub planned: usize,
    pub satisfied: usize,
    pub missing: usize,
    pub changed: usize,
    pub failed: usize,
    pub issues: usize,
}

impl Summary {
    pub fn tally(verdicts: &Vec<Verdict>) -> (r: Summary)
        ensures
            r.skipped == count_of(verdicts@, Verdict::Skipped),
            r.planned == count_of(verdicts@, Verdict::Planned),
            r.satisfied == count_of(verdicts@, Verdict::Satisfied),
            r.missing == count_of(verdicts@, Verdict::Missing),
            r.changed == count_of(verdicts@, Verdict::Changed),
            r.failed == count_of(verdicts@, Verdict::Failed),
            r.issues == count_of(verdicts@, Verdict::Issue),
            r.total == verdicts@.len() - count_of(verdicts@, Verdict::Skipped),
    {
        let mut r = Summary { total: 0, skipped: 0, planned: 0, satisfied: 0, missing: 0, changed: 0, failed: 0, issues: 0 };
        let mut i: usize = 0;
        while i < verdicts.len()
            invariant
                i <= verdicts.len(),
                r.skipped == count_of(verdicts@.subrange(0, i as int), Verdict::Skipped),
                r.planned == count_of(verdicts@.subrange(0, i as int), Verdict::Planned),
                r.satisfied == count_of(verdicts@.subrange(0, i as int), Verdict::Satisfied),
                r.missing == count_of(verdicts@.subrange(0, i as int), Verdict::Missing),
                r.changed == count_of(verdicts@.subrange(0, i as int), Verdict::Changed),
                r.failed == count_of(verdicts@.subrange(0, i as int), Verdict::Failed),
                r.issues == count_of(verdicts@.subrange(0, i as int), Verdict::Issue),
                r.total == 0,
            decreases verdicts.len() - i,
        {
            let ghost pre = verdicts@.subrange(0, i as int);
            assert(verdicts@.subrange(0, i + 1).drop_last() =~= pre);
            proof {
                lemma_count_of_bounded(pre, verdicts@[i as int]);
            }
            match verdicts[i] {
                Verdict::Skipped => r.skipped = r.skipped + 1,
                Verdict::Planned => r.planned = r.planned + 1,
                Verdict::Satisfied => r.satisfied = r.satisfied + 1,
                Verdict::Missing => r.missing = r.missing + 1,
                Verdict::Changed => r.changed = r.changed + 1,
                Verdict::Failed => r.failed = r.failed + 1,
                Verdict::Issue => r.issues = r.issues + 1,
            }
            i = i + 1;
        }
        assert(verdicts@.subrange(0, verdicts.len() as int) =~= verdicts@);
        proof {
            lemma_count_of_bounded(verdicts@, Verdict::Skipped);
        }
        r.total = verdicts.len() - r.skipped;
        r
    }

    /// A run fails exactly when some item failed to apply.
    pub fn has_failures(&self) -> (r: bool)
        ensures
            r == (self.failed > 0),
    {
        self.failed > 0
    }
}

} // verus!
