use dek::probe::{
    apply_rewrites, completions, context_key, eval_probe, parse_query, rewrite_with, ProbeError,
    RewriteRule, StateConfig, StateResult,
};
use dek::probe::render_with_probes;
use dek::probe_eval::eval_all;
use dek::probe_graph::{required_states, topo_sort};

fn probe(name: &str, deps: &[&str]) -> StateConfig {
    StateConfig {
        name: name.to_string(),
        cmd: None,
        deps: deps.iter().map(|d| d.to_string()).collect(),
        expr: None,
        templates: Vec::new(),
        rewrite: Vec::new(),
        ttl: None,
        json: false,
    }
}

fn rule(pattern: &str, value: &str) -> RewriteRule {
    RewriteRule { pattern: pattern.to_string(), value: value.to_string() }
}

#[test]
fn os_probe_rewrites_linux() {
    let mut os = probe("os", &[]);
    os.cmd = Some("uname -s".to_string());
    os.rewrite = vec![rule("^Linux$", "linux")];
    let r = eval_probe(&os, Some("Linux".to_string()), &Vec::new());
    assert_eq!(r.get_variant(None).as_deref(), Some("linux"));
    assert_eq!(r.get_variant(Some("raw")).as_deref(), Some("linux"));
    assert_eq!(r.get_variant(Some("original")).as_deref(), Some("Linux"));
}

#[test]
fn unmatched_rewrite_keeps_raw_as_original() {
    let mut os = probe("os", &[]);
    os.rewrite = vec![rule("^Linux$", "linux")];
    let r = eval_probe(&os, Some("Darwin".to_string()), &Vec::new());
    assert_eq!(r.raw, "Darwin");
    assert!(r.original.is_none());
    assert_eq!(r.get_variant(Some("original")).as_deref(), Some("Darwin"));
}

#[test]
fn first_matching_rule_wins_and_bad_patterns_are_skipped() {
    let rules = vec![rule("(", "broken"), rule("^x", "first"), rule("x", "second")];
    let (raw, original) = apply_rewrites("xyz".to_string(), &rules);
    assert_eq!(raw, "first");
    assert_eq!(original.as_deref(), Some("xyz"));
    let (raw, original) = rewrite_with("abc".to_string(), &rules, Some(2));
    assert_eq!((raw.as_str(), original.as_deref()), ("second", Some("abc")));
    let (raw, original) = rewrite_with("abc".to_string(), &rules, None);
    assert_eq!((raw.as_str(), original), ("abc", None));
}

#[test]
fn chain_is_layered_in_order() {
    let states = vec![probe("c", &["b"]), probe("a", &[]), probe("b", &["a"])];
    let layers = topo_sort(&states).ok().unwrap();
    assert_eq!(layers, vec![vec![1], vec![2], vec![0]]);
}

#[test]
fn independent_probes_share_a_layer() {
    let states = vec![probe("a", &[]), probe("b", &[]), probe("c", &["a", "b"])];
    let layers = topo_sort(&states).ok().unwrap();
    assert_eq!(layers, vec![vec![0, 1], vec![2]]);
}

#[test]
fn cycle_is_refused() {
    let states = vec![probe("a", &["c"]), probe("b", &["a"]), probe("c", &["b"]), probe("d", &[])];
    assert!(matches!(topo_sort(&states), Err(ProbeError::Cycle)));
    let outputs = vec![None, None, None, Some("x".to_string())];
    assert!(matches!(eval_all(&states, &outputs), Err(ProbeError::Cycle)));
    let selfloop = vec![probe("a", &["a"])];
    assert!(matches!(topo_sort(&selfloop), Err(ProbeError::Cycle)));
}

#[test]
fn unknown_dependency_is_refused() {
    let states = vec![probe("a", &[]), probe("b", &["a", "zz"])];
    match topo_sort(&states) {
        Err(ProbeError::UnknownDependency { probe, dep }) => {
            assert_eq!(probe, "b");
            assert_eq!(dep, "zz");
        }
        _ => panic!("expected an unknown dependency"),
    }
}

#[test]
fn dependents_see_rewritten_values() {
    let mut a = probe("os-name", &[]);
    a.rewrite = vec![rule("^Linux$", "linux")];
    let mut b = probe("b", &["os-name"]);
    b.expr = Some("{{ os_name.raw }}-{{ os_name.original }}".to_string());
    let mut c = probe("c", &["b"]);
    c.expr = Some("[{{ b }}]".to_string());
    let states = vec![c, b, a];
    let outputs = vec![None, None, Some("Linux".to_string())];
    let rs = eval_all(&states, &outputs).ok().unwrap();
    assert_eq!(rs[2].raw, "linux");
    assert_eq!(rs[1].raw, "linux-Linux");
    assert!(rs[0].raw.contains("linux-Linux"));
    assert_eq!(rs[0].name, "c");
}

#[test]
fn named_templates_render_or_stay_empty() {
    let mut p = probe("ver", &[]);
    p.json = true;
    p.templates = vec![
        ("major".to_string(), "{{ raw.major }}".to_string()),
        ("bad".to_string(), "{{ missing.field }}".to_string()),
    ];
    let r = eval_probe(&p, Some("{\"major\": 3}".to_string()), &Vec::new());
    assert_eq!(r.get_variant(Some("major")).as_deref(), Some("3"));
    assert_eq!(r.get_variant(Some("bad")).as_deref(), Some(""));
    assert_eq!(r.get_variant(Some("nope")), None);
}

#[test]
fn fromjson_filter_parses() {
    let mut p = probe("j", &[]);
    p.expr = Some("{{ (raw | fromjson).k }}".to_string());
    let r = eval_probe(&p, Some("{\"k\": \"v\"}".to_string()), &Vec::new());
    assert_eq!(r.raw, "v");
}

#[test]
fn queries_split_at_first_dot() {
    let q = parse_query("os.original");
    assert_eq!(q.name, "os");
    assert_eq!(q.variant.as_deref(), Some("original"));
    let q = parse_query("a.b.c");
    assert_eq!((q.name.as_str(), q.variant.as_deref()), ("a", Some("b.c")));
    let q = parse_query("plain");
    assert_eq!((q.name.as_str(), q.variant), ("plain", None));
}

#[test]
fn result_addressing() {
    let r = StateResult {
        name: "n".to_string(),
        original: None,
        raw: "v".to_string(),
        json: false,
        templates: vec![("t".to_string(), "T".to_string())],
    };
    assert_eq!(r.get_variant(Some("t")).as_deref(), Some("T"));
    assert_eq!(r.get_variant(Some("original")).as_deref(), Some("v"));
    let d = r.duplicate();
    assert_eq!(d.templates, r.templates);
}

#[test]
fn completion_names_are_sorted() {
    let mut b = probe("b", &[]);
    b.templates = vec![("short".to_string(), "x".to_string())];
    let states = vec![b, probe("a", &[])];
    assert_eq!(
        completions(&states),
        vec!["a", "a.original", "a.raw", "b", "b.original", "b.raw", "b.short"]
    );
}

#[test]
fn context_keys_use_underscores() {
    assert_eq!(context_key("os-name-x"), "os_name_x");
    assert_eq!(context_key("plain"), "plain");
}

#[test]
fn required_probes_are_the_transitive_closure() {
    let states = vec![
        probe("a", &[]),
        probe("b", &["a"]),
        probe("c", &["b", "ghost"]),
        probe("d", &[]),
        probe("e", &["d"]),
    ];
    let needed = vec!["c".to_string(), "unknown".to_string()];
    assert_eq!(required_states(&states, &needed), vec![true, true, true, false, false]);
    assert_eq!(required_states(&states, &Vec::new()), vec![false; 5]);
    let cyclic = vec![probe("x", &["y"]), probe("y", &["x"]), probe("z", &[])];
    assert_eq!(required_states(&cyclic, &vec!["y".to_string()]), vec![true, true, false]);
}

#[test]
fn file_templates_see_probe_values() {
    let mut os = probe("host-os", &[]);
    os.rewrite = vec![rule("^Linux$", "linux")];
    let results = eval_all(&vec![os], &vec![Some("Linux".to_string())]).ok().unwrap();
    let text = render_with_probes("os={{ host_os.raw }} was={{ host_os.original }} x={{ nope }}", &results);
    assert_eq!(text.as_deref(), Some("os=linux was=Linux x="));
}

#[test]
fn chain_layers_are_single_and_non_empty() {
    let states = vec![probe("a", &[]), probe("b", &["a"]), probe("c", &["b"])];
    assert_eq!(topo_sort(&states).ok().unwrap(), vec![vec![0], vec![1], vec![2]]);
}

#[test]
fn expression_sees_dependency_by_name() {
    let mut b = probe("b", &[]);
    b.rewrite = vec![rule("^Linux$", "linux")];
    let mut c = probe("c", &["b"]);
    c.expr = Some("{{ b.raw }}".to_string());
    let rs = eval_all(&vec![b, c], &vec![Some("Linux".to_string()), None]).ok().unwrap();
    assert_eq!(rs[1].raw, "linux");
}
