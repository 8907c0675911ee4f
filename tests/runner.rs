use dek::item::{cache_file_name, CheckResult, Mode, StateItem};
use dek::registry::{ProviderKind, ProviderRegistry};
use dek::requirement::{path_with, resolve_requirements, InstallMethod, Requirement, ResolveAction, ResolveEvent};
use dek::runner::{Action, Event, RunStart, Runner, Summary, Verdict};

/// Plays the caller's part for one item: answers each requested step with the
/// given outcome and records the steps requested.
fn drive(
    runner: &Runner,
    item: &StateItem,
    stored: &Option<String>,
    gate: bool,
    check: bool,
    apply_ok: bool,
) -> (Vec<Action>, Action) {
    let mut steps = Vec::new();
    let mut action = runner.next(item, stored, Event::Start);
    loop {
        steps.push(action);
        let event = match action {
            Action::RunGate => Event::Gate(gate),
            Action::Check(_) => Event::Checked(check),
            Action::Apply(_) => Event::Applied(apply_ok),
            Action::Finish(_) | Action::UnknownProvider => return (steps, action),
        };
        action = runner.next(item, stored, event);
    }
}

fn verdict(a: Action) -> Verdict {
    match a {
        Action::Finish(v) => v,
        _ => panic!("item did not finish"),
    }
}

fn calls_provider(steps: &[Action]) -> bool {
    steps.iter().any(|a| matches!(a, Action::Check(_) | Action::Apply(_)))
}

#[test]
fn plan_mode_never_calls_provider() {
    let runner = Runner::new(Mode::Plan);
    let items = vec![
        StateItem::new("package.apt", "curl"),
        StateItem::new("command", "x").with_run_if(Some("true".to_string())),
        StateItem::new("no.such.kind", "y"),
    ];
    for item in &items {
        for gate in [true, false] {
            let (steps, last) = drive(&runner, item, &None, gate, false, false);
            assert!(!calls_provider(&steps));
            assert!(matches!(last, Action::Finish(Verdict::Planned) | Action::Finish(Verdict::Skipped)));
        }
    }
    for e in [Event::Start, Event::Gate(true), Event::Checked(false), Event::Applied(true)] {
        let a = runner.next(&items[0], &None, e);
        assert!(!matches!(a, Action::Check(_) | Action::Apply(_)));
    }
}

#[test]
fn check_mode_counts_satisfied_and_missing() {
    let runner = Runner::new(Mode::Check);
    let item = StateItem::new("package.apt", "curl");
    let (steps, last) = drive(&runner, &item, &None, true, true, false);
    assert_eq!(steps[0], Action::Check(ProviderKind::Apt));
    assert_eq!(verdict(last), Verdict::Satisfied);
    let (steps, last) = drive(&runner, &item, &None, true, false, false);
    assert!(!steps.iter().any(|a| matches!(a, Action::Apply(_))));
    assert_eq!(verdict(last), Verdict::Missing);
}

#[test]
fn cache_hit_skips_apply() {
    let runner = Runner::new(Mode::Apply);
    let item = StateItem::new("command", "build").with_cache_key(Some("v1".to_string()));
    let (steps, last) = drive(&runner, &item, &Some("v1".to_string()), true, true, true);
    assert!(!steps.iter().any(|a| matches!(a, Action::Apply(_))));
    assert_eq!(verdict(last), Verdict::Satisfied);
    assert!(Runner::cache_update(&item, Verdict::Satisfied).is_none());
}

#[test]
fn cache_change_forces_one_reapply() {
    let runner = Runner::new(Mode::Apply);
    let item = StateItem::new("command", "build").with_cache_key(Some("v2".to_string()));
    let mut stored = Some("v1".to_string());
    let (steps, last) = drive(&runner, &item, &stored, true, true, true);
    assert_eq!(steps.iter().filter(|a| matches!(a, Action::Apply(_))).count(), 1);
    assert_eq!(verdict(last), Verdict::Changed);
    let (id, key) = Runner::cache_update(&item, Verdict::Changed).unwrap();
    assert_eq!(id, "command:build");
    assert_eq!(key, "v2");
    stored = Some(key);
    let (steps, last) = drive(&runner, &item, &stored, true, true, true);
    assert!(!steps.iter().any(|a| matches!(a, Action::Apply(_))));
    assert_eq!(verdict(last), Verdict::Satisfied);
}

#[test]
fn missing_check_applies_even_with_fresh_cache() {
    let runner = Runner::new(Mode::Apply);
    let item = StateItem::new("command", "build").with_cache_key(Some("v1".to_string()));
    let (_, last) = drive(&runner, &item, &Some("v1".to_string()), true, false, true);
    assert_eq!(verdict(last), Verdict::Changed);
}

#[test]
fn failed_gate_skips_in_every_mode() {
    for mode in [Mode::Plan, Mode::Check, Mode::Apply] {
        let runner = Runner::new(mode);
        let item = StateItem::new("package.apt", "curl").with_run_if(Some("false".to_string()));
        let (steps, last) = drive(&runner, &item, &None, false, true, true);
        assert_eq!(steps[0], Action::RunGate);
        assert!(!calls_provider(&steps));
        assert_eq!(verdict(last), Verdict::Skipped);
    }
    let s = Summary::tally(&vec![Verdict::Skipped, Verdict::Changed]);
    assert_eq!((s.skipped, s.changed, s.failed, s.satisfied, s.total), (1, 1, 0, 0, 1));
}

#[test]
fn second_apply_changes_nothing() {
    let runner = Runner::new(Mode::Apply);
    let items = vec![
        StateItem::new("package.apt", "curl"),
        StateItem::new("command", "a").with_cache_key(Some("k1".to_string())),
        StateItem::new("command", "b").with_cache_key(Some("k2".to_string())),
    ];
    let mut store: Vec<(String, String)> = vec![("command:b".to_string(), "k2".to_string())];
    let lookup = |store: &Vec<(String, String)>, item: &StateItem| {
        store.iter().find(|(id, _)| *id == item.cache_id()).map(|(_, k)| k.clone())
    };
    let mut first = Vec::new();
    for (item, check) in items.iter().zip([false, true, true]) {
        let stored = lookup(&store, item);
        let (_, last) = drive(&runner, item, &stored, true, check, true);
        let v = verdict(last);
        if let Some((id, key)) = Runner::cache_update(item, v) {
            store.retain(|(i, _)| *i != id);
            store.push((id, key));
        }
        first.push(v);
    }
    assert_eq!(first, vec![Verdict::Changed, Verdict::Changed, Verdict::Satisfied]);
    let mut second = Vec::new();
    for item in &items {
        let stored = lookup(&store, item);
        let (_, last) = drive(&runner, item, &stored, true, true, true);
        second.push(verdict(last));
    }
    assert_eq!(Summary::tally(&second).changed, 0);
}

#[test]
fn same_kind_items_resolve_requirements_once() {
    let runner = Runner::new(Mode::Apply);
    let items = vec![
        StateItem::new("package.cargo", "ripgrep"),
        StateItem::new("package.cargo", "fd-find"),
        StateItem::new("package.cargo", "bat"),
    ];
    let reqs = runner.collect_requirements(&items);
    assert_eq!(reqs.len(), 2);
    assert_eq!(reqs[0].binary, "cargo");
    assert_eq!(reqs[1].binary, "cargo-binstall");
    let unique = resolve_requirements(&reqs);
    assert_eq!(unique.len(), 2);
}

#[test]
fn requirements_dedup_keeps_first_seen_order() {
    let r = |b: &str, m: InstallMethod| Requirement::binary(b, m);
    let reqs = vec![
        r("npm", InstallMethod::Webi("node".to_string())),
        r("go", InstallMethod::Webi("golang".to_string())),
        r("npm", InstallMethod::Webi("node".to_string())),
        r("npm", InstallMethod::Npm("node".to_string())),
    ];
    let unique = resolve_requirements(&reqs);
    let names: Vec<&str> = unique.iter().map(|x| x.binary.as_str()).collect();
    assert_eq!(names, vec!["npm", "go", "npm"]);
    assert!(unique[2].install.same_as(&InstallMethod::Npm("node".to_string())));
}

#[test]
fn two_apt_items_apply_sequentially() {
    let runner = Runner::new(Mode::Apply);
    let items = vec![StateItem::new("package.apt", "curl"), StateItem::new("package.apt", "git")];
    assert!(runner.collect_requirements(&items).is_empty());
    let mut verdicts = Vec::new();
    for item in &items {
        let (steps, last) = drive(&runner, item, &None, true, false, true);
        assert_eq!(steps, vec![Action::Check(ProviderKind::Apt), Action::Apply(ProviderKind::Apt), last]);
        verdicts.push(verdict(last));
    }
    let s = Summary::tally(&verdicts);
    assert_eq!((s.total, s.changed, s.failed), (2, 2, 0));
    assert!(runner.any_needs_sudo(&items, false));
    assert!(!runner.any_needs_sudo(&items, true));
}

#[test]
fn failing_assertion_is_an_issue_not_a_failure() {
    let runner = Runner::new(Mode::Apply);
    let item = StateItem::new("assert", "disk has space").with_value("df\0check\0\0\0");
    let (steps, last) = drive(&runner, &item, &None, true, false, true);
    assert!(!steps.iter().any(|a| matches!(a, Action::Apply(_))));
    let s = Summary::tally(&vec![verdict(last)]);
    assert_eq!((s.issues, s.changed, s.failed), (1, 0, 0));
    assert!(!s.has_failures());
}

#[test]
fn failed_apply_is_counted_and_run_fails() {
    let runner = Runner::new(Mode::Apply);
    let item = StateItem::new("command", "x");
    let (_, last) = drive(&runner, &item, &None, true, false, false);
    assert_eq!(verdict(last), Verdict::Failed);
    let s = Summary::tally(&vec![Verdict::Failed, Verdict::Changed, Verdict::Issue]);
    assert_eq!((s.failed, s.changed, s.issues, s.total), (1, 1, 1, 3));
    assert!(s.has_failures());
}

#[test]
fn unknown_kind_stops_the_run() {
    let runner = Runner::new(Mode::Check);
    let item = StateItem::new("package.nix", "hello");
    let (_, last) = drive(&runner, &item, &None, true, true, true);
    assert_eq!(last, Action::UnknownProvider);
}

#[test]
fn registry_lookup_is_exact() {
    let reg = ProviderRegistry::new();
    assert!(reg.get("package.apt") == Some(ProviderKind::Apt));
    assert!(reg.get("service") == Some(ProviderKind::Systemd));
    assert!(reg.get("file.template") == Some(ProviderKind::Template));
    assert!(reg.get("package").is_none());
    assert!(reg.get("Package.apt").is_none());
    assert_eq!(ProviderKind::Assert.name(), "assert");
    assert!(ProviderKind::Assert.is_check_only());
    assert!(!ProviderKind::Command.is_check_only());
    assert_eq!(ProviderKind::Pipx.requirements()[0].binary, "pipx");
    assert!(ProviderKind::Alias.requirements().is_empty());
}

#[test]
fn items_and_check_results() {
    let item = StateItem::new("env", "EDITOR").with_value("vim");
    assert_eq!(item.kind, "env");
    assert_eq!(item.value.as_deref(), Some("vim"));
    assert_eq!(item.cache_id(), "env:EDITOR");
    assert!(CheckResult::Satisfied.is_satisfied());
    assert!(!CheckResult::Missing { detail: "x".to_string() }.is_satisfied());
}

#[test]
fn cache_file_name_is_md5_hex() {
    assert_eq!(cache_file_name("abc"), "900150983cd24fb0d6963f7d28e17f72");
    assert_eq!(cache_file_name(""), "d41d8cd98f00b204e9800998ecf8427e");
}

#[test]
fn requirement_resolution_steps() {
    let req = Requirement::binary("go", InstallMethod::Webi("golang".to_string()));
    assert_eq!(req.next_step(false, ResolveEvent::Start), ResolveAction::Look);
    assert_eq!(req.next_step(false, ResolveEvent::Looked(true)), ResolveAction::Done);
    assert_eq!(req.next_step(false, ResolveEvent::Looked(false)), ResolveAction::Install);
    assert_eq!(req.next_step(true, ResolveEvent::Installed(true)), ResolveAction::ExtendPath);
    assert_eq!(req.next_step(true, ResolveEvent::Installed(false)), ResolveAction::Fail);
    assert_eq!(req.next_step(true, ResolveEvent::PathExtended), ResolveAction::Look);
    assert_eq!(req.next_step(true, ResolveEvent::Looked(false)), ResolveAction::Fail);
    assert_eq!(req.install.bin_dirs(), vec![".local/bin", ".local/opt/go/bin", "go/bin"]);
    assert!(InstallMethod::Npm("x".to_string()).bin_dirs().is_empty());
}

#[test]
fn search_path_extension() {
    assert_eq!(path_with("/usr/bin:/bin", "/h/.cargo/bin"), "/h/.cargo/bin:/usr/bin:/bin");
    assert_eq!(path_with("/h/.cargo/bin:/usr/bin", "/h/.cargo/bin"), "/h/.cargo/bin:/usr/bin");
    assert_eq!(path_with("", "/h/go/bin"), "/h/go/bin");
}

#[test]
fn unknown_kind_stops_run_before_any_item() {
    let runner = Runner::new(Mode::Apply);
    let items = vec![StateItem::new("package.cargo", "bat"), StateItem::new("package.nix", "hello")];
    assert!(matches!(runner.start(&items, false), RunStart::UnknownKind(1)));
    let ok = vec![StateItem::new("package.cargo", "bat"), StateItem::new("package.apt", "git")];
    match runner.start(&ok, false) {
        RunStart::Proceed { requirements, elevate } => {
            assert_eq!(requirements.len(), 2);
            assert!(elevate);
        }
        RunStart::UnknownKind(_) => panic!("all kinds are known"),
    }
    match Runner::new(Mode::Check).start(&ok, false) {
        RunStart::Proceed { requirements, elevate } => assert!(requirements.is_empty() && !elevate),
        RunStart::UnknownKind(_) => panic!("all kinds are known"),
    }
}
