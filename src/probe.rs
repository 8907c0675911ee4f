use vstd::prelude::*;
use crate::assertion::joined;
use crate::externs::{
    json_parse, json_quote, json_quoted, regex_is_match, regex_match, render_template, rendered, template_error,
    template_value_of_json,
};
use crate::item::opt_view;
use crate::externs::json_well_formed;
use crate::probe_graph::{
    all_deps_known, dep_graph, has_cycle, layer_views, placed, placed_before, resolve_graph, topo_sort,
    valid_layering,
};
use crate::text::{split_once, split_once_spec, str_eq};

verus! {

/// A rewrite rule: when `pattern` (a regular expression) matches the raw
/// value, the raw value becomes `value`.
pub struct RewriteRule {
    pub pattern: String,
    pub value: String,
}

/// Definition of a named probe: a fact about the machine, computed by a shell
/// command and/or a template expression over the probes it depends on.
pub struct StateConfig {
    pub name: String,
    pub cmd: Option<String>,
    pub deps: Vec<String>,
    pub expr: Option<String>,
    /// Named sub-templates, in declaration order; when two share a name,
    /// addressing that name finds the first.
    pub templates: Vec<(String, String)>,
    pub rewrite: Vec<RewriteRule>,
    pub ttl: Option<String>,
    pub json: bool,
}

/// Structural errors of a probe graph; either aborts the evaluation before
/// any command runs.
pub enum ProbeError {
    UnknownDependency { probe: String, dep: String },
    Cycle,
}

/// The evaluated value of a probe: `raw` after rewriting, `original` the text
/// before a rewrite rule fired (`None` if none fired), the named templates
/// rendered, and whether `raw` is to be read as JSON.
pub struct StateResult {
    pub name: String,
    pub original: Option<String>,
    pub raw: String,
    pub json: bool,
    pub templates: Vec<(String, String)>,
}

pub open spec fn pairs_view(v: Seq<(String, String)>) -> Seq<(Seq<char>, Seq<char>)> {
    v.map_values(|p: (String, String)| (p.0@, p.1@))
}

/// The first template value named `name`.
pub open spec fn template_lookup(ts: Seq<(Seq<char>, Seq<char>)>, name: Seq<char>) -> Option<Seq<char>>
    decreases ts.len(),
{
    if ts.len() == 0 {
        None
    } else if ts[0].0 == name {
        Some(ts[0].1)
    } else {
        template_lookup(ts.drop_first(), name)
    }
}

/// Result addressing: no variant or `raw` gives the raw value, `original` the
/// pre-rewrite text (the raw value if no rewrite fired), any other name the
/// rendered template of that name.
pub open spec fn variant_spec(
    raw: Seq<char>,
    original: Option<Seq<char>>,
    templates: Seq<(Seq<char>, Seq<char>)>,
    variant: Option<Seq<char>>,
) -> Option<Seq<char>> {
    match variant {
        None => Some(raw),
        Some(v) => if v == "raw"@ {
            Some(raw)
        } else if v == "original"@ {
            match original {
                Some(o) => Some(o),
                None => Some(raw),
            }
        } else {
            template_lookup(templates, v)
        },
    }
}

fn clone_pairs(v: &Vec<(String, String)>) -> (r: Vec<(String, String)>)
    ensures
        pairs_view(r@) == pairs_view(v@),
{
    let mut r: Vec<(String, String)> = Vec::new();
    let mut i: usize = 0;
    while i < v.len()
        invariant
            i <= v.len(),
            pairs_view(r@) == pairs_view(v@).subrange(0, i as int),
        decreases v.len() - i,
    {
        let ghost before = pairs_view(r@);
        r.push((v[i].0.clone(), v[i].1.clone()));
        assert(pairs_view(r@) =~= before.push((v@[i as int].0@, v@[i as int].1@)));
        assert(pairs_view(v@).subrange(0, i + 1) =~= pairs_view(v@).subrange(0, i as int).push(pairs_view(v@)[i as int]));
        i = i + 1;
    }
    assert(pairs_view(v@).subrange(0, v@.len() as int) =~= pairs_view(v@));
    r
}

pub(crate) fn clone_opt(o: &Option<String>) -> (r: Option<String>)
    ensures
        opt_view(r) == opt_view(*o),
{
    match o {
        Some(s) => Some(s.clone()),
        None => None,
    }
}

impl StateResult {
    pub fn duplicate(&self) -> (r: StateResult)
        ensures
            r@ == self@,
    {
        StateResult {
            name: self.name.clone(),
            original: clone_opt(&self.original),
            raw: self.raw.clone(),
            json: self.json,
            templates: clone_pairs(&self.templates),
        }
    }

    /// The value addressed by `variant` (see `variant_spec`).
    pub fn get_variant(&self, variant: Option<&str>) -> (r: Option<String>)
        ensures
            opt_view(r) == variant_spec(
                self.raw@,
                opt_view(self.original),
                pairs_view(self.templates@),
                match variant {
                    Some(v) => Some(v@),
                    None => None,
                },
            ),
    {
        match variant {
            None => Some(self.raw.clone()),
            Some(v) => {
                if str_eq(v, "raw") {
                    Some(self.raw.clone())
                } else if str_eq(v, "original") {
                    match &self.original {
                        Some(o) => Some(o.clone()),
                        None => Some(self.raw.clone()),
                    }
                } else {
                    let ghost ts = pairs_view(self.templates@);
                    assert(ts.subrange(0, ts.len() as int) =~= ts);
                    let mut i: usize = 0;
                    while i < self.templates.len()
                        invariant
                            i <= self.templates@.len(),
                            ts == pairs_view(self.templates@),
                            variant == Some(v),
                            v@ != "raw"@,
                            v@ != "original"@,
                            template_lookup(ts, v@) == template_lookup(ts.subrange(i as int, ts.len() as int), v@),
                        decreases self.templates.len() - i,
                    {
                        let ghost rest = ts.subrange(i as int, ts.len() as int);
                        assert(rest.drop_first() =~= ts.subrange(i + 1, ts.len() as int));
                        assert(rest[0] == ts[i as int]);
                        assert(ts[i as int] == (self.templates@[i as int].0@, self.templates@[i as int].1@));
                        if str_eq(self.templates[i].0.as_str(), v) {
                            assert(rest.len() > 0);
                            assert(template_lookup(rest, v@) == Some(ts[i as int].1));
                            return Some(self.templates[i].1.clone());
                        }
                        i = i + 1;
                    }
                    None
                }
            },
        }
    }
}

/// A query for a probe value: a probe name and an optional variant, written
/// `name` or `name.variant`.
pub struct StateQuery {
    pub name: String,
    pub variant: Option<String>,
}

/// Splits a query at its first dot.
pub fn parse_query(s: &str) -> (r: StateQuery)
    ensures
        match split_once_spec(s@, '.') {
            Some((n, v)) => r.name@ == n && opt_view(r.variant) == Some(v),
            None => r.name@ == s@ && r.variant is None,
        },
{
    match split_once(s, '.') {
        Some((name, variant)) => StateQuery { name, variant: Some(variant) },
        None => StateQuery { name: String::from_str(s), variant: None },
    }
}

/// Index of the first rule whose pattern compiles and matches `raw`.
pub open spec fn first_rewrite(rules: Seq<RewriteRule>, raw: Seq<char>) -> Option<int>
    decreases rules.len(),
{
    if rules.len() == 0 {
        None
    } else if regex_match(rules[0].pattern@, raw) == Some(true) {
        Some(0)
    } else {
        match first_rewrite(rules.drop_first(), raw) {
            Some(i) => Some(i + 1),
            None => None,
        }
    }
}

/// The raw value and the retained original after rewriting `raw` with the
/// rule at `hit`, if any.
pub open spec fn rewrite_outcome(rules: Seq<RewriteRule>, raw: Seq<char>, hit: Option<int>) -> (Seq<char>, Option<Seq<char>>) {
    match hit {
        Some(i) => (rules[i].value@, Some(raw)),
        None => (raw, None),
    }
}

proof fn lemma_first_rewrite(rules: Seq<RewriteRule>, raw: Seq<char>)
    ensures
        match first_rewrite(rules, raw) {
            Some(i) => 0 <= i < rules.len() && regex_match(rules[i].pattern@, raw) == Some(true)
                && forall|j: int| 0 <= j < i ==> regex_match(rules[j].pattern@, raw) != Some(true),
            None => forall|j: int| 0 <= j < rules.len() ==> regex_match(rules[j].pattern@, raw) != Some(true),
        },
    decreases rules.len(),
{
    if rules.len() > 0 {
        lemma_first_rewrite(rules.drop_first(), raw);
        if regex_match(rules[0].pattern@, raw) != Some(true) {
            match first_rewrite(rules.drop_first(), raw) {
                Some(i) => {
                    assert(rules.drop_first()[i] == rules[i + 1]);
                    assert forall|j: int| 0 <= j < i + 1 implies regex_match(rules[j].pattern@, raw) != Some(true) by {
                        if j > 0 {
                            assert(rules.drop_first()[j - 1] == rules[j]);
                        }
                    }
                },
                None => {
                    assert forall|j: int| 0 <= j < rules.len() implies regex_match(rules[j].pattern@, raw) != Some(true) by {
                        if j > 0 {
                            assert(rules.drop_first()[j - 1] == rules[j]);
                        }
                    }
                },
            }
        }
    }
}

/// When a rule matches, the first matching rule in declared
/// order supplies the value addressed by `name` and `name.raw`, while
/// `name.original` addresses the text before the rewrite; when none matches,
/// all three address the unmodified text.
pub proof fn lemma_rewrite_addressing(
    rules: Seq<RewriteRule>,
    raw: Seq<char>,
    templates: Seq<(Seq<char>, Seq<char>)>,
)
    ensures
        ({
            let hit = first_rewrite(rules, raw);
            let out = rewrite_outcome(rules, raw, hit);
            &&& variant_spec(out.0, out.1, templates, Some("original"@)) == Some(raw)
            &&& match hit {
                Some(i) => {
                    &&& 0 <= i < rules.len()
                    &&& regex_match(rules[i].pattern@, raw) == Some(true)
                    &&& forall|j: int| 0 <= j < i ==> regex_match(rules[j].pattern@, raw) != Some(true)
                    &&& variant_spec(out.0, out.1, templates, None) == Some(rules[i].value@)
                    &&& variant_spec(out.0, out.1, templates, Some("raw"@)) == Some(rules[i].value@)
                },
                None => {
                    &&& forall|j: int| 0 <= j < rules.len() ==> regex_match(rules[j].pattern@, raw) != Some(true)
                    &&& variant_spec(out.0, out.1, templates, None) == Some(raw)
                    &&& variant_spec(out.0, out.1, templates, Some("raw"@)) == Some(raw)
                },
            }
        }),
{
    reveal_strlit("raw");
    reveal_strlit("original");
    assert("raw"@ != "original"@) by {
        assert("raw"@.len() != "original"@.len());
    }
    lemma_first_rewrite(rules, raw);
}

/// Applies the rule at `hit` to `raw`: its value replaces `raw`, which is kept
/// as the original; with no rule, `raw` stays and no original is kept.
pub fn rewrite_with(raw: String, rules: &Vec<RewriteRule>, hit: Option<usize>) -> (r: (String, Option<String>))
    requires
        match hit {
            Some(i) => i < rules@.len(),
            None => true,
        },
    ensures
        (r.0@, opt_view(r.1)) == rewrite_outcome(rules@, raw@, match hit {
            Some(i) => Some(i as int),
            None => None,
        }),
{
    match hit {
        Some(i) => (rules[i].value.clone(), Some(raw)),
        None => (raw, None),
    }
}

/// Applies the first matching rewrite rule, in declared order; patterns that
/// do not compile are passed over.
pub fn apply_rewrites(raw: String, rules: &Vec<RewriteRule>) -> (r: (String, Option<String>))
    ensures
        (r.0@, opt_view(r.1)) == rewrite_outcome(rules@, raw@, first_rewrite(rules@, raw@)),
{
    assert(rules@.subrange(0, rules@.len() as int) =~= rules@);
    let mut i: usize = 0;
    while i < rules.len()
        invariant
            i <= rules@.len(),
            first_rewrite(rules@, raw@) == match first_rewrite(rules@.subrange(i as int, rules@.len() as int), raw@) {
                Some(j) => Some(j + i),
                None => None,
            },
        decreases rules.len() - i,
    {
        let ghost rest = rules@.subrange(i as int, rules@.len() as int);
        assert(rest.drop_first() =~= rules@.subrange(i + 1, rules@.len() as int));
        assert(rest[0] == rules@[i as int]);
        if regex_is_match(rules[i].pattern.as_str(), raw.as_str()) == Some(true) {
            return rewrite_with(raw, rules, Some(i));
        }
        i = i + 1;
    }
    assert(rules@.subrange(i as int, rules@.len() as int) =~= Seq::<RewriteRule>::empty());
    rewrite_with(raw, rules, None)
}

/// The `fromjson` template filter: parses its input as JSON.
pub fn fromjson_filter(s: String) -> (r: Result<minijinja::Value, minijinja::Error>)
    ensures
        r is Ok == json_well_formed(s@),
{
    match json_parse(s.as_str()) {
        Some(v) => Ok(template_value_of_json(&v)),
        None => Err(template_error(String::from_str("invalid JSON"))),
    }
}

/// `s` with every `-` replaced by `_`, so that a probe name can be used as a
/// template variable.
pub open spec fn underscored(s: Seq<char>) -> Seq<char> {
    s.map_values(|c: char| if c == '-' { '_' } else { c })
}

pub fn context_key(name: &str) -> (r: String)
    ensures
        r@ == underscored(name@),
{
    let n = name.unicode_len();
    let mut r = String::new();
    assert(name@.subrange(0, 0) =~= Seq::<char>::empty());
    assert(underscored(Seq::<char>::empty()) =~= r@);
    let mut i: usize = 0;
    while i < n
        invariant
            n == name@.len(),
            i <= n,
            r@ == underscored(name@.subrange(0, i as int)),
        decreases n - i,
    {
        let c = name.get_char(i);
        proof {
            reveal_strlit("_");
        }
        if c == '-' {
            r.append("_");
        } else {
            let one = name.substring_char(i, i + 1);
            assert(one@ =~= seq![c]);
            r.append(one);
        }
        assert(underscored(name@.subrange(0, i + 1)) =~= underscored(name@.subrange(0, i as int)).push(
            if c == '-' { '_' } else { c },
        ));
        i = i + 1;
    }
    assert(name@.subrange(0, n as int) =~= name@);
    r
}

/// The view of a result: name, pre-rewrite text, raw text, JSON flag and
/// named template texts.
pub ghost struct ResultView {
    pub name: Seq<char>,
    pub original: Option<Seq<char>>,
    pub raw: Seq<char>,
    pub json: bool,
    pub templates: Seq<(Seq<char>, Seq<char>)>,
}

impl View for StateResult {
    type V = ResultView;

    open spec fn view(&self) -> ResultView {
        ResultView {
            name: self.name@,
            original: opt_view(self.original),
            raw: self.raw@,
            json: self.json,
            templates: pairs_view(self.templates@),
        }
    }
}

/// A template context value for a text: the JSON document itself when it is
/// flagged as JSON and parses, else the text as a JSON string.
pub open spec fn json_leaf(text: Seq<char>, as_json: bool) -> Seq<char> {
    if as_json && json_well_formed(text) {
        text
    } else {
        json_quoted(text)
    }
}

pub open spec fn json_member(key: Seq<char>, value: Seq<char>) -> Seq<char> {
    json_quoted(key) + ":"@ + value
}

pub open spec fn json_object(members: Seq<Seq<char>>) -> Seq<char> {
    "{"@ + joined(members, ","@) + "}"@
}

/// The members a result contributes: `raw`, `original` when a rewrite
/// fired, and each named template.
pub open spec fn result_members(r: ResultView) -> Seq<Seq<char>> {
    seq![json_member("raw"@, json_leaf(r.raw, r.json))] + match r.original {
        Some(o) => seq![json_member("original"@, json_quoted(o))],
        None => Seq::empty(),
    } + r.templates.map_values(|t: (Seq<char>, Seq<char>)| json_member(t.0, json_quoted(t.1)))
}

/// A dependency's result under its own (underscored) name.
pub open spec fn dep_member(d: ResultView) -> Seq<char> {
    json_member(underscored(d.name), json_object(result_members(d)))
}

/// The rendering context of a probe: its `raw` value, its `original` if a
/// rewrite fired, and each dependency's result under its own name.
pub open spec fn context_json(raw: Seq<char>, json: bool, original: Option<Seq<char>>, deps: Seq<ResultView>) -> Seq<char> {
    json_object(
        result_members(ResultView { name: Seq::empty(), original, raw, json, templates: Seq::empty() })
            + deps.map_values(|d: ResultView| dep_member(d)),
    )
}

fn leaf_text(text: &str, as_json: bool) -> (r: String)
    ensures
        r@ == json_leaf(text@, as_json),
{
    if as_json && json_parse(text).is_some() {
        String::from_str(text)
    } else {
        json_quote(text)
    }
}

fn member(key: &str, value: String) -> (r: String)
    ensures
        r@ == json_member(key@, value@),
{
    let mut r = json_quote(key);
    r.append(":");
    r.append(value.as_str());
    r
}

fn object(members: &Vec<String>) -> (r: String)
    ensures
        r@ == json_object(texts(members@)),
{
    let ghost tv = texts(members@);
    let mut r = String::from_str("{");
    let mut i: usize = 0;
    assert(tv.subrange(0, 0) =~= Seq::<Seq<char>>::empty());
    while i < members.len()
        invariant
            i <= members@.len(),
            tv == texts(members@),
            r@ == "{"@ + joined(tv.subrange(0, i as int), ","@),
        decreases members.len() - i,
    {
        let ghost pre = tv.subrange(0, i as int);
        assert(tv.subrange(0, i + 1).drop_last() =~= pre);
        if i > 0 {
            r.append(",");
        }
        r.append(members[i].as_str());
        proof {
            if i == 0 {
                assert(r@ =~= "{"@ + joined(tv.subrange(0, i + 1), ","@));
            } else {
                assert(r@ =~= "{"@ + joined(tv.subrange(0, i + 1), ","@));
            }
        }
        i = i + 1;
    }
    assert(tv.subrange(0, members@.len() as int) =~= tv);
    r.append("}");
    r
}

fn result_member_list(raw: &str, json: bool, original: &Option<String>, templates: &Vec<(String, String)>) -> (r: Vec<String>)
    ensures
        texts(r@) == result_members(
            ResultView { name: Seq::empty(), original: opt_view(*original), raw: raw@, json, templates: pairs_view(templates@) },
        ),
{
    let ghost v = ResultView { name: Seq::empty(), original: opt_view(*original), raw: raw@, json, templates: pairs_view(templates@) };
    let ghost tm = v.templates.map_values(|t: (Seq<char>, Seq<char>)| json_member(t.0, json_quoted(t.1)));
    let mut r: Vec<String> = Vec::new();
    r.push(member("raw", leaf_text(raw, json)));
    match original {
        Some(o) => r.push(member("original", json_quote(o.as_str()))),
        None => {},
    }
    let ghost head = texts(r@);
    assert(head =~= seq![json_member("raw"@, json_leaf(raw@, json))] + match v.original {
        Some(o) => seq![json_member("original"@, json_quoted(o))],
        None => Seq::<Seq<char>>::empty(),
    });
    let mut i: usize = 0;
    while i < templates.len()
        invariant
            i <= templates@.len(),
            tm == v.templates.map_values(|t: (Seq<char>, Seq<char>)| json_member(t.0, json_quoted(t.1))),
            v.templates == pairs_view(templates@),
            texts(r@) == head + tm.subrange(0, i as int),
        decreases templates.len() - i,
    {
        let ghost before = texts(r@);
        r.push(member(templates[i].0.as_str(), json_quote(templates[i].1.as_str())));
        assert(texts(r@) =~= before.push(tm[i as int]));
        assert(tm.subrange(0, i + 1) =~= tm.subrange(0, i as int).push(tm[i as int]));
        i = i + 1;
    }
    assert(tm.subrange(0, tm.len() as int) =~= tm);
    r
}

fn dep_member_list(deps: &Vec<StateResult>) -> (r: Vec<String>)
    ensures
        texts(r@) == deps@.map_values(|d: StateResult| d@).map_values(|d: ResultView| dep_member(d)),
{
    let ghost want = deps@.map_values(|d: StateResult| d@).map_values(|d: ResultView| dep_member(d));
    let mut r: Vec<String> = Vec::new();
    let mut i: usize = 0;
    while i < deps.len()
        invariant
            i <= deps@.len(),
            want == deps@.map_values(|d: StateResult| d@).map_values(|d: ResultView| dep_member(d)),
            texts(r@) == want.subrange(0, i as int),
        decreases deps.len() - i,
    {
        let d = &deps[i];
        let fields = result_member_list(d.raw.as_str(), d.json, &d.original, &d.templates);
        let ghost before = texts(r@);
        r.push(member(context_key(d.name.as_str()).as_str(), object(&fields)));
        assert(texts(r@) =~= before.push(want[i as int]));
        assert(want.subrange(0, i + 1) =~= want.subrange(0, i as int).push(want[i as int]));
        i = i + 1;
    }
    assert(want.subrange(0, want.len() as int) =~= want);
    r
}

/// The rendering context of a probe (see `context_json`).
fn context_text(raw: &str, json: bool, original: &Option<String>, deps: &Vec<StateResult>) -> (r: String)
    ensures
        r@ == context_json(raw@, json, opt_view(*original), deps@.map_values(|d: StateResult| d@)),
{
    let empty: Vec<(String, String)> = Vec::new();
    let mut members = result_member_list(raw, json, original, &empty);
    let ghost own = texts(members@);
    let mut rest = dep_member_list(deps);
    let ghost rv = texts(rest@);
    members.append(&mut rest);
    assert(texts(members@) =~= own + rv);
    assert(pairs_view(empty@) =~= Seq::<(Seq<char>, Seq<char>)>::empty());
    object(&members)
}

/// The rendering context of a file template: each probe result under its
/// own (underscored) name.
pub open spec fn probes_json(results: Seq<ResultView>) -> Seq<char> {
    json_object(results.map_values(|d: ResultView| dep_member(d)))
}

/// Renders a file template, leniently, against probe results: each result
/// is exposed under its underscored name with `raw`, `original` and its named
/// templates. `None` when the template does not render.
pub fn render_with_probes(source: &str, results: &Vec<StateResult>) -> (r: Option<String>)
    ensures
        opt_view(r) == rendered(source@, probes_json(results@.map_values(|d: StateResult| d@)), false),
{
    let members = dep_member_list(results);
    let ctx = object(&members);
    render_template(source, ctx.as_str(), false)
}

pub open spec fn opt_text(o: Option<String>) -> Seq<char> {
    match o {
        Some(s) => s@,
        None => Seq::empty(),
    }
}

pub open spec fn text_or_empty(o: Option<Seq<char>>) -> Seq<char> {
    match o {
        Some(t) => t,
        None => Seq::empty(),
    }
}

/// The text a probe's rewrite rules apply to: the command output (empty
/// without a command), or, with an expression, the expression rendered
/// leniently against the command output and the dependency results (empty
/// when rendering fails).
pub open spec fn probe_base(state: StateConfig, output: Seq<char>, deps: Seq<ResultView>) -> Seq<char> {
    match state.expr {
        None => output,
        Some(e) => text_or_empty(rendered(e@, context_json(output, state.json, None, deps), false)),
    }
}

/// What evaluating `state` gives, when its command printed `output` (empty
/// without a command) and its
/// dependencies' results are `deps`: the rewrite of `probe_base`, and each
/// named template rendered strictly against the rewritten value, its
/// original and the dependencies (an empty text when rendering fails).
#[verifier::opaque]
pub open spec fn evaluated(state: StateConfig, output: Seq<char>, deps: Seq<ResultView>, r: ResultView) -> bool {
    let base = probe_base(state, output, deps);
    let out = rewrite_outcome(state.rewrite@, base, first_rewrite(state.rewrite@, base));
    &&& r.name == state.name@
    &&& r.json == state.json
    &&& r.raw == out.0
    &&& r.original == out.1
    &&& r.templates.len() == state.templates@.len()
    &&& forall|k: int| 0 <= k < r.templates.len() ==> #[trigger] r.templates[k] == (
        state.templates@[k].0@,
        text_or_empty(rendered(state.templates@[k].1@, context_json(out.0, state.json, out.1, deps), true)),
    )
}

/// Evaluates one probe from its command output (`None` when it has no
/// command) and the results of its dependencies: renders the expression if
/// any, applies the rewrite rules, and renders the named templates. A
/// template that fails to render yields an empty string.
pub fn eval_probe(state: &StateConfig, cmd_output: Option<String>, deps: &Vec<StateResult>) -> (r: StateResult)
    ensures
        evaluated(*state, opt_text(cmd_output), deps@.map_values(|d: StateResult| d@), r@),
{
    let ghost dv = deps@.map_values(|d: StateResult| d@);
    let ghost out = cmd_output;
    let cmd_raw = match cmd_output {
        Some(s) => s,
        None => String::new(),
    };
    let before = match &state.expr {
        Some(e) => {
            let ctx = context_text(cmd_raw.as_str(), state.json, &None, deps);
            match render_template(e.as_str(), ctx.as_str(), false) {
                Some(t) => t,
                None => String::new(),
            }
        },
        None => cmd_raw,
    };
    assert(before@ == probe_base(*state, opt_text(out), dv));
    let (raw, original) = apply_rewrites(before, &state.rewrite);
    let mut templates: Vec<(String, String)> = Vec::new();
    let ctx = context_text(raw.as_str(), state.json, &original, deps);
    let mut i: usize = 0;
    while i < state.templates.len()
        invariant
            i <= state.templates@.len(),
            ctx@ == context_json(raw@, state.json, opt_view(original), dv),
            pairs_view(templates@).len() == i,
            forall|k: int| 0 <= k < i ==> #[trigger] pairs_view(templates@)[k] == (
                state.templates@[k].0@,
                text_or_empty(rendered(state.templates@[k].1@, ctx@, true)),
            ),
        decreases state.templates.len() - i,
    {
        let text = match render_template(state.templates[i].1.as_str(), ctx.as_str(), true) {
            Some(t) => t,
            None => String::new(),
        };
        let ghost before_t = pairs_view(templates@);
        templates.push((state.templates[i].0.clone(), text));
        assert(pairs_view(templates@) =~= before_t.push(pairs_view(templates@)[i as int]));
        i = i + 1;
    }
    let r = StateResult { name: state.name.clone(), original, raw, json: state.json, templates };
    proof {
        reveal(evaluated);
    }
    r
}

/// Code-point lexicographic order, the order of Rust's `str` comparison.
pub open spec fn text_lt(a: Seq<char>, b: Seq<char>) -> bool
    decreases a.len(),
{
    if a.len() == 0 {
        b.len() > 0
    } else if b.len() == 0 {
        false
    } else if a[0] != b[0] {
        (a[0] as int) < (b[0] as int)
    } else {
        text_lt(a.drop_first(), b.drop_first())
    }
}

proof fn lemma_text_lt_total(a: Seq<char>, b: Seq<char>)
    ensures
        a != b ==> text_lt(a, b) || text_lt(b, a),
        text_lt(a, b) ==> !text_lt(b, a),
    decreases a.len(),
{
    if a.len() > 0 && b.len() > 0 {
        lemma_text_lt_total(a.drop_first(), b.drop_first());
        if a[0] == b[0] && a.drop_first() == b.drop_first() {
            assert(a =~= seq![a[0]] + a.drop_first());
            assert(b =~= seq![b[0]] + b.drop_first());
        }
    } else if a.len() == 0 && b.len() == 0 {
        assert(a =~= b);
    }
}

proof fn lemma_text_lt_transitive(a: Seq<char>, b: Seq<char>, c: Seq<char>)
    requires
        text_lt(a, b),
        text_lt(b, c),
    ensures
        text_lt(a, c),
    decreases a.len(),
{
    if a.len() > 0 && b.len() > 0 && c.len() > 0 {
        if a[0] == b[0] && b[0] == c[0] {
            lemma_text_lt_transitive(a.drop_first(), b.drop_first(), c.drop_first());
        }
    }
}

fn str_lt(a: &str, b: &str) -> (r: bool)
    ensures
        r == text_lt(a@, b@),
{
    let n = a.unicode_len();
    let k = b.unicode_len();
    assert(a@.subrange(0, n as int) =~= a@);
    assert(b@.subrange(0, k as int) =~= b@);
    let mut i: usize = 0;
    while i < n && i < k
        invariant
            n == a@.len(),
            k == b@.len(),
            i <= n,
            i <= k,
            text_lt(a@, b@) == text_lt(a@.subrange(i as int, n as int), b@.subrange(i as int, k as int)),
        decreases n - i,
    {
        let x = a.get_char(i);
        let y = b.get_char(i);
        let ghost sa = a@.subrange(i as int, n as int);
        let ghost sb = b@.subrange(i as int, k as int);
        assert(sa[0] == x && sb[0] == y);
        if x != y {
            return (x as u32) < (y as u32);
        }
        assert(sa.drop_first() =~= a@.subrange(i + 1, n as int));
        assert(sb.drop_first() =~= b@.subrange(i + 1, k as int));
        i = i + 1;
    }
    proof {
        if i == n {
            assert(a@.subrange(i as int, n as int) =~= Seq::<char>::empty());
        }
        if i == k {
            assert(b@.subrange(i as int, k as int) =~= Seq::<char>::empty());
        }
    }
    i == n && i < k
}

/// The names a query can address, for shell completion: each probe's name,
/// `name.raw`, `name.original`, and `name.<template>` for each template.
pub open spec fn completion_names(states: Seq<StateConfig>) -> Seq<Seq<char>>
    decreases states.len(),
{
    if states.len() == 0 {
        Seq::empty()
    } else {
        let s = states.last();
        completion_names(states.drop_last()) + seq![s.name@, s.name@ + ".raw"@, s.name@ + ".original"@]
            + s.templates@.map_values(|t: (String, String)| s.name@ + "."@ + t.0@)
    }
}

pub open spec fn sorted_texts(v: Seq<Seq<char>>) -> bool {
    forall|i: int, j: int| 0 <= i < j < v.len() ==> !text_lt(#[trigger] v[j], #[trigger] v[i])
}

pub open spec fn texts(v: Seq<String>) -> Seq<Seq<char>> {
    v.map_values(|s: String| s@)
}

/// Inserts `x` into the sorted `v`, after every entry not greater than it.
fn insert_sorted(v: &mut Vec<String>, x: String)
    requires
        sorted_texts(texts(old(v)@)),
    ensures
        sorted_texts(texts(final(v)@)),
        texts(final(v)@).to_multiset() == texts(old(v)@).to_multiset().insert(x@),
{
    let ghost xv = x@;
    let ghost tv = texts(v@);
    let mut pos: usize = 0;
    let mut stop = false;
    while pos < v.len() && !stop
        invariant
            pos <= v@.len(),
            tv == texts(v@),
            xv == x@,
            sorted_texts(tv),
            stop ==> pos < v@.len() && text_lt(xv, tv[pos as int]),
            forall|k: int| 0 <= k < pos ==> !text_lt(xv, #[trigger] tv[k]),
        decreases v.len() - pos + (if stop { 0int } else { 1int }),
    {
        if str_lt(x.as_str(), v[pos].as_str()) {
            stop = true;
        } else {
            pos = pos + 1;
        }
    }
    proof {
        assert forall|k: int| pos <= k < tv.len() implies text_lt(xv, #[trigger] tv[k]) by {
            assert(stop);
            if k > pos {
                assert(!text_lt(tv[k], tv[pos as int]));
                lemma_text_lt_total(tv[k], tv[pos as int]);
                if tv[k] != tv[pos as int] {
                    lemma_text_lt_transitive(xv, tv[pos as int], tv[k]);
                }
            }
        }
    }
    v.insert(pos, x);
    proof {
        let nv = texts(v@);
        assert(nv =~= tv.insert(pos as int, xv));
        assert forall|i: int, j: int| 0 <= i < j < nv.len() implies !text_lt(#[trigger] nv[j], #[trigger] nv[i]) by {
            if j < pos {
            } else if i > pos {
                assert(nv[i] == tv[i - 1] && nv[j] == tv[j - 1]);
            } else if i == pos {
                assert(text_lt(xv, tv[j - 1]));
                lemma_text_lt_total(xv, tv[j - 1]);
            } else if j == pos {
                assert(!text_lt(xv, tv[i]));
            } else {
                assert(nv[j] == tv[j - 1]);
            }
        }
        vstd::seq_lib::to_multiset_insert(tv, pos as int, xv);
    }
}

fn join_name(name: &String, suffix: &str) -> (r: String)
    ensures
        r@ == name@ + suffix@,
{
    let mut r = name.clone();
    r.append(suffix);
    r
}

/// Every addressable query name, sorted.
pub fn completions(states: &Vec<StateConfig>) -> (r: Vec<String>)
    ensures
        sorted_texts(texts(r@)),
        texts(r@).to_multiset() == completion_names(states@).to_multiset(),
{
    let mut out: Vec<String> = Vec::new();
    assert(texts(out@) =~= Seq::<Seq<char>>::empty());
    assert(states@.subrange(0, 0) =~= Seq::<StateConfig>::empty());
    let mut i: usize = 0;
    while i < states.len()
        invariant
            i <= states@.len(),
            sorted_texts(texts(out@)),
            texts(out@).to_multiset() == completion_names(states@.subrange(0, i as int)).to_multiset(),
        decreases states.len() - i,
    {
        let st = &states[i];
        let ghost pre = completion_names(states@.subrange(0, i as int));
        assert(states@.subrange(0, i + 1).drop_last() =~= states@.subrange(0, i as int));
        assert(states@.subrange(0, i + 1).last() == *st);
        let ghost tm = st.templates@.map_values(|t: (String, String)| st.name@ + "."@ + t.0@);
        let ghost three = seq![st.name@, st.name@ + ".raw"@, st.name@ + ".original"@];
        insert_sorted(&mut out, st.name.clone());
        insert_sorted(&mut out, join_name(&st.name, ".raw"));
        insert_sorted(&mut out, join_name(&st.name, ".original"));
        proof {
            let n0 = st.name@;
            let n1 = st.name@ + ".raw"@;
            let n2 = st.name@ + ".original"@;
            assert(pre + three =~= pre.push(n0).push(n1).push(n2));
            vstd::seq_lib::to_multiset_build(pre, n0);
            vstd::seq_lib::to_multiset_build(pre.push(n0), n1);
            vstd::seq_lib::to_multiset_build(pre.push(n0).push(n1), n2);
            assert(tm.subrange(0, 0) =~= Seq::<Seq<char>>::empty());
            assert(pre + three + tm.subrange(0, 0) =~= pre + three);
        }
        let mut t: usize = 0;
        while t < st.templates.len()
            invariant
                t <= st.templates@.len(),
                sorted_texts(texts(out@)),
                tm == st.templates@.map_values(|t: (String, String)| st.name@ + "."@ + t.0@),
                texts(out@).to_multiset() == (pre + three + tm.subrange(0, t as int)).to_multiset(),
            decreases st.templates.len() - t,
        {
            let mut q = join_name(&st.name, ".");
            q.append(st.templates[t].0.as_str());
            insert_sorted(&mut out, q);
            proof {
                assert(tm.subrange(0, t + 1) =~= tm.subrange(0, t as int).push(tm[t as int]));
                assert((pre + three + tm.subrange(0, t + 1)) =~= (pre + three + tm.subrange(0, t as int)).push(tm[t as int]));
                vstd::seq_lib::to_multiset_build(pre + three + tm.subrange(0, t as int), tm[t as int]);
            }
            t = t + 1;
        }
        proof {
            assert(tm.subrange(0, tm.len() as int) =~= tm);
            assert(completion_names(states@.subrange(0, i + 1)) =~= pre + three + tm);
        }
        i = i + 1;
    }
    assert(states@.subrange(0, states@.len() as int) =~= states@);
    out
}

} // verus!
