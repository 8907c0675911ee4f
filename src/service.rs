use vstd::prelude::*;
use crate::text::{trim_text, trimmed};
use crate::text::{split_once, split_once_spec, str_eq};

verus! {

/// The settings of a service item: the desired state (`active` or
/// `inactive`), whether it starts at boot, and its scope (`system` or
/// `user`).
pub struct ServiceConfig {
    pub state: String,
    pub enabled: bool,
    pub scope: String,
}

pub ghost struct ServiceView {
    pub state: Seq<char>,
    pub enabled: bool,
    pub scope: Seq<char>,
}

impl ServiceConfig {
    pub open spec fn view(&self) -> ServiceView {
        ServiceView { state: self.state@, enabled: self.enabled, scope: self.scope@ }
    }

    pub fn is_user(&self) -> (r: bool)
        ensures
            r == (self.scope@ == "user"@),
    {
        str_eq(self.scope.as_str(), "user")
    }
}

/// The pieces of `s` between the separators `sep`.
pub open spec fn split_all(s: Seq<char>, sep: char) -> Seq<Seq<char>>
    decreases s.len(),
{
    if s.len() == 0 {
        seq![Seq::empty()]
    } else {
        let prev = split_all(s.drop_last(), sep);
        if s.last() == sep {
            prev.push(Seq::empty())
        } else {
            prev.update(prev.len() - 1, prev.last().push(s.last()))
        }
    }
}

/// One `key=value` part applied to the settings; unknown keys and parts
/// without `=` change nothing.
pub open spec fn apply_part(cfg: ServiceView, part: Seq<char>) -> ServiceView {
    match split_once_spec(part, '=') {
        None => cfg,
        Some((k, v)) => {
            let key = trimmed(k);
            let val = trimmed(v);
            if key == "state"@ {
                ServiceView { state: val, ..cfg }
            } else if key == "enabled"@ {
                ServiceView { enabled: val == "true"@, ..cfg }
            } else if key == "scope"@ {
                ServiceView { scope: val, ..cfg }
            } else {
                cfg
            }
        },
    }
}

pub open spec fn apply_parts(cfg: ServiceView, parts: Seq<Seq<char>>) -> ServiceView
    decreases parts.len(),
{
    if parts.len() == 0 {
        cfg
    } else {
        apply_part(apply_parts(cfg, parts.drop_last()), parts.last())
    }
}

pub open spec fn default_service() -> ServiceView {
    ServiceView { state: "active"@, enabled: false, scope: "system"@ }
}

fn apply_one(cfg: &mut ServiceConfig, part: &str)
    ensures
        final(cfg).view() == apply_part(old(cfg).view(), part@),
{
    match split_once(part, '=') {
        None => {},
        Some((k, v)) => {
            let key = trim_text(k.as_str());
            let val = trim_text(v.as_str());
            if str_eq(key.as_str(), "state") {
                cfg.state = val;
            } else if str_eq(key.as_str(), "enabled") {
                cfg.enabled = str_eq(val.as_str(), "true");
            } else if str_eq(key.as_str(), "scope") {
                cfg.scope = val;
            }
        },
    }
}

/// Reads a service item's value, comma-separated `key=value` parts applied
/// in order over the defaults (`state=active`, `enabled=false`,
/// `scope=system`); an item without a value keeps the defaults.
pub fn parse_service_config(value: Option<&str>) -> (r: ServiceConfig)
    ensures
        r.view() == match value {
            Some(v) => apply_parts(default_service(), split_all(v@, ',')),
            None => default_service(),
        },
{
    let mut cfg = ServiceConfig {
        state: String::from_str("active"),
        enabled: false,
        scope: String::from_str("system"),
    };
    let v = match value {
        Some(v) => v,
        None => return cfg,
    };
    let n = v.unicode_len();
    let ghost mut done: Seq<Seq<char>> = Seq::empty();
    let mut start: usize = 0;
    let mut i: usize = 0;
    assert(v@.subrange(0, 0) =~= Seq::<char>::empty());
    while i < n
        invariant
            n == v@.len(),
            start <= i,
            i <= n,
            split_all(v@.subrange(0, i as int), ',') == done.push(v@.subrange(start as int, i as int)),
            cfg.view() == apply_parts(default_service(), done),
        decreases n - i,
    {
        assert(v@.subrange(0, i + 1).drop_last() =~= v@.subrange(0, i as int));
        if v.get_char(i) == ',' {
            let part = v.substring_char(start, i);
            apply_one(&mut cfg, part);
            proof {
                let nd = done.push(part@);
                assert(nd.drop_last() =~= done);
                done = nd;
                assert(v@.subrange(i + 1, i + 1) =~= Seq::<char>::empty());
            }
            start = i + 1;
        } else {
            proof {
                let cur = v@.subrange(start as int, i as int);
                assert(v@.subrange(start as int, i + 1) =~= cur.push(v@[i as int]));
            }
        }
        i = i + 1;
    }
    assert(v@.subrange(0, n as int) =~= v@);
    let part = v.substring_char(start, n);
    apply_one(&mut cfg, part);
    proof {
        assert(done.push(part@).drop_last() =~= done);
    }
    cfg
}

} // verus!
