use vstd::prelude::*;
use crate::externs::{md5_hex, md5_hex_of};
use vstd::string::StringSliceAdditionalSpecFns;

verus! {

/// Outcome of checking whether a desired state already holds.
pub enum CheckResult {
    Satisfied,
    Missing { detail: String },
}

impl CheckResult {
    pub fn is_satisfied(&self) -> (r: bool)
        ensures
            r == (self is Satisfied),
    {
        match self {
            CheckResult::Satisfied => true,
            CheckResult::Missing { .. } => false,
        }
    }
}

/// One desired-state unit: a provider kind, the key it is about, an optional
/// value, an optional gating shell predicate and an optional cache fingerprint.
pub struct StateItem {
    pub kind: String,
    pub key: String,
    pub value: Option<String>,
    pub run_if: Option<String>,
    pub cache_key: Option<String>,
}

pub open spec fn opt_view(o: Option<String>) -> Option<Seq<char>> {
    match o {
        Some(s) => Some(s@),
        None => None,
    }
}

impl StateItem {
    pub fn new(kind: &str, key: &str) -> (r: StateItem)
        ensures
            r.kind@ == kind@,
            r.key@ == key@,
            r.value is None,
            r.run_if is None,
            r.cache_key is None,
    {
        StateItem {
            kind: String::from_str(kind),
            key: String::from_str(key),
            value: None,
            run_if: None,
            cache_key: None,
        }
    }

    pub fn with_value(self, value: &str) -> (r: StateItem)
        ensures
            r.kind@ == self.kind@,
            r.key@ == self.key@,
            opt_view(r.value) == Some(value@),
            r.run_if == self.run_if,
            r.cache_key == self.cache_key,
    {
        StateItem { value: Some(String::from_str(value)), ..self }
    }

    pub fn with_run_if(self, run_if: Option<String>) -> (r: StateItem)
        ensures
            r.kind == self.kind,
            r.key == self.key,
            r.value == self.value,
            r.run_if == run_if,
            r.cache_key == self.cache_key,
    {
        StateItem { run_if, ..self }
    }

    pub fn with_cache_key(self, cache_key: Option<String>) -> (r: StateItem)
        ensures
            r.kind == self.kind,
            r.key == self.key,
            r.value == self.value,
            r.run_if == self.run_if,
            r.cache_key == cache_key,
    {
        StateItem { cache_key, ..self }
    }

    /// Identifier under which the item's cache fingerprint is stored:
    /// the kind and the key joined by a colon.
    pub fn cache_id(&self) -> (r: String)
        ensures
            r@ == cache_id_of(self.kind@, self.key@),
    {
        let mut r = self.kind.clone();
        proof {
            reveal_strlit(":");
        }
        r.append(":");
        r.append(self.key.as_str());
        r
    }
}

/// Name of the file that holds the cached value for `key`: the MD5 digest
/// of the key's bytes in lowercase hex, so that distinct keys map to distinct
/// files in one directory.
pub fn cache_file_name(key: &str) -> (r: String)
    ensures
        r@ == md5_hex_of(key.spec_bytes()),
        r@.len() == 32,
{
    md5_hex(key.as_bytes())
}

pub open spec fn cache_id_of(kind: Seq<char>, key: Seq<char>) -> Seq<char> {
    kind + seq![':'] + key
}

/// How a run treats its items: enumerate them, check them, or bring them into
/// conformance.
#[derive(PartialEq, Eq, Structural, Clone, Copy, Debug)]
pub enum Mode {
    Apply,
    Check,
    Plan,
}

} // verus!
