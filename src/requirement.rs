use vstd::prelude::*;
use crate::externs::command_exists;
use crate::text::str_eq;
use crate::util::{contains_str, str_contains};

verus! {

/// Strategy for installing a missing prerequisite binary.
pub enum InstallMethod {
    /// The rustup installer script.
    Rustup,
    /// The cargo-binstall release installer script.
    CargoBinstall,
    /// `cargo install <crate>`.
    Cargo(String),
    /// The detected system package manager.
    System(String),
    /// `go install <module>`.
    Go(String),
    /// `npm install -g <package>`.
    Npm(String),
    /// `pip install --user <package>`.
    Pip(String),
    /// The webinstall.dev script for a package.
    Webi(String),
}

pub ghost enum InstallMethodV {
    Rustup,
    CargoBinstall,
    Cargo(Seq<char>),
    System(Seq<char>),
    Go(Seq<char>),
    Npm(Seq<char>),
    Pip(Seq<char>),
    Webi(Seq<char>),
}

impl View for InstallMethod {
    type V = InstallMethodV;

    open spec fn view(&self) -> InstallMethodV {
        match self {
            InstallMethod::Rustup => InstallMethodV::Rustup,
            InstallMethod::CargoBinstall => InstallMethodV::CargoBinstall,
            InstallMethod::Cargo(s) => InstallMethodV::Cargo(s@),
            InstallMethod::System(s) => InstallMethodV::System(s@),
            InstallMethod::Go(s) => InstallMethodV::Go(s@),
            InstallMethod::Npm(s) => InstallMethodV::Npm(s@),
            InstallMethod::Pip(s) => InstallMethodV::Pip(s@),
            InstallMethod::Webi(s) => InstallMethodV::Webi(s@),
        }
    }
}

impl InstallMethod {
    pub fn same_as(&self, other: &InstallMethod) -> (r: bool)
        ensures
            r == (self@ == other@),
    {
        match self {
            InstallMethod::Rustup => match other {
                InstallMethod::Rustup => true,
                _ => false,
            },
            InstallMethod::CargoBinstall => match other {
                InstallMethod::CargoBinstall => true,
                _ => false,
            },
            InstallMethod::Cargo(a) => match other {
                InstallMethod::Cargo(b) => str_eq(a.as_str(), b.as_str()),
                _ => false,
            },
            InstallMethod::System(a) => match other {
                InstallMethod::System(b) => str_eq(a.as_str(), b.as_str()),
                _ => false,
            },
            InstallMethod::Go(a) => match other {
                InstallMethod::Go(b) => str_eq(a.as_str(), b.as_str()),
                _ => false,
            },
            InstallMethod::Npm(a) => match other {
                InstallMethod::Npm(b) => str_eq(a.as_str(), b.as_str()),
                _ => false,
            },
            InstallMethod::Pip(a) => match other {
                InstallMethod::Pip(b) => str_eq(a.as_str(), b.as_str()),
                _ => false,
            },
            InstallMethod::Webi(a) => match other {
                InstallMethod::Webi(b) => str_eq(a.as_str(), b.as_str()),
                _ => false,
            },
        }
    }

    pub fn duplicate(&self) -> (r: InstallMethod)
        ensures
            r@ == self@,
    {
        match self {
            InstallMethod::Rustup => InstallMethod::Rustup,
            InstallMethod::CargoBinstall => InstallMethod::CargoBinstall,
            InstallMethod::Cargo(s) => InstallMethod::Cargo(s.clone()),
            InstallMethod::System(s) => InstallMethod::System(s.clone()),
            InstallMethod::Go(s) => InstallMethod::Go(s.clone()),
            InstallMethod::Npm(s) => InstallMethod::Npm(s.clone()),
            InstallMethod::Pip(s) => InstallMethod::Pip(s.clone()),
            InstallMethod::Webi(s) => InstallMethod::Webi(s.clone()),
        }
    }
}

/// A binary that must be resolvable on the search path, and how to install it.
/// Two requirements are the same when binary and install strategy agree.
pub struct Requirement {
    pub binary: String,
    pub install: InstallMethod,
}

pub ghost struct RequirementV {
    pub binary: Seq<char>,
    pub install: InstallMethodV,
}

impl View for Requirement {
    type V = RequirementV;

    open spec fn view(&self) -> RequirementV {
        RequirementV { binary: self.binary@, install: self.install@ }
    }
}

impl Requirement {
    pub fn binary(cmd: &str, install: InstallMethod) -> (r: Requirement)
        ensures
            r.binary@ == cmd@,
            r.install@ == install@,
    {
        Requirement { binary: String::from_str(cmd), install }
    }

    pub fn same_as(&self, other: &Requirement) -> (r: bool)
        ensures
            r == (self@ == other@),
    {
        str_eq(self.binary.as_str(), other.binary.as_str()) && self.install.same_as(&other.install)
    }

    pub fn duplicate(&self) -> (r: Requirement)
        ensures
            r@ == self@,
    {
        Requirement { binary: self.binary.clone(), install: self.install.duplicate() }
    }

    /// Whether the binary currently resolves on the executable search path.
    /// This depends on the machine, so nothing is promised of the answer.
    pub fn is_satisfied(&self) -> (r: bool) {
        command_exists(self.binary.as_str())
    }
}

/// Directories, relative to the home directory, where an install strategy
/// puts binaries that the search path may not yet cover.
pub open spec fn bin_dirs_spec(m: InstallMethodV) -> Seq<Seq<char>> {
    match m {
        InstallMethodV::Rustup | InstallMethodV::CargoBinstall | InstallMethodV::Cargo(_) => seq![".cargo/bin"@],
        InstallMethodV::Webi(_) => seq![".local/bin"@, ".local/opt/go/bin"@, "go/bin"@],
        _ => Seq::empty(),
    }
}

impl InstallMethod {
    pub fn bin_dirs(&self) -> (r: Vec<&'static str>)
        ensures
            r@.map_values(|d: &'static str| d@) == bin_dirs_spec(self@),
    {
        let mut r: Vec<&'static str> = Vec::new();
        match self {
            InstallMethod::Rustup | InstallMethod::CargoBinstall | InstallMethod::Cargo(_) => {
                r.push(".cargo/bin");
            },
            InstallMethod::Webi(_) => {
                r.push(".local/bin");
                r.push(".local/opt/go/bin");
                r.push("go/bin");
            },
            _ => {},
        }
        assert(r@.map_values(|d: &'static str| d@) =~= bin_dirs_spec(self@));
        r
    }
}

/// The search path with `dir` put in front, unless the path already
/// mentions it.
pub open spec fn path_with_spec(path: Seq<char>, dir: Seq<char>) -> Seq<char> {
    if contains_str(path, dir) {
        path
    } else if path.len() == 0 {
        dir
    } else {
        dir + ":"@ + path
    }
}

pub fn path_with(path: &str, dir: &str) -> (r: String)
    ensures
        r@ == path_with_spec(path@, dir@),
{
    if str_contains(path, dir) {
        return String::from_str(path);
    }
    if path.unicode_len() == 0 {
        return String::from_str(dir);
    }
    let mut r = String::from_str(dir);
    r.append(":");
    r.append(path);
    r
}

/// What happened in resolving a requirement.
#[derive(PartialEq, Eq, Structural, Clone, Copy, Debug)]
pub enum ResolveEvent {
    Start,
    /// Whether the binary resolved on the search path.
    Looked(bool),
    /// Whether the install strategy succeeded.
    Installed(bool),
    /// The install directories were added to the search path.
    PathExtended,
}

/// What the caller must do next to resolve a requirement.
#[derive(PartialEq, Eq, Structural, Clone, Copy, Debug)]
pub enum ResolveAction {
    /// Look the binary up on the search path.
    Look,
    /// Run the install strategy.
    Install,
    /// Put the strategy's directories on the search path.
    ExtendPath,
    /// The binary resolves.
    Done,
    /// The binary could not be installed: the run must stop.
    Fail,
}

/// Resolution of one requirement: nothing to do if the binary resolves;
/// otherwise install, extend the search path, and look again.
pub open spec fn resolve_step(installed: bool, event: ResolveEvent) -> ResolveAction {
    match event {
        ResolveEvent::Start => ResolveAction::Look,
        ResolveEvent::Looked(found) => if found {
            ResolveAction::Done
        } else if installed {
            ResolveAction::Fail
        } else {
            ResolveAction::Install
        },
        ResolveEvent::Installed(ok) => if ok {
            ResolveAction::ExtendPath
        } else {
            ResolveAction::Fail
        },
        ResolveEvent::PathExtended => ResolveAction::Look,
    }
}

impl Requirement {
    /// The next step in resolving this requirement; `installed` tells whether
    /// its install strategy already ran.
    pub fn next_step(&self, installed: bool, event: ResolveEvent) -> (r: ResolveAction)
        ensures
            r == resolve_step(installed, event),
    {
        match event {
            ResolveEvent::Start => ResolveAction::Look,
            ResolveEvent::Looked(found) => if found {
                ResolveAction::Done
            } else if installed {
                ResolveAction::Fail
            } else {
                ResolveAction::Install
            },
            ResolveEvent::Installed(ok) => if ok {
                ResolveAction::ExtendPath
            } else {
                ResolveAction::Fail
            },
            ResolveEvent::PathExtended => ResolveAction::Look,
        }
    }
}

/// The views of `reqs` with later repetitions removed, first occurrences kept in order.
pub open spec fn dedup_views(reqs: Seq<RequirementV>) -> Seq<RequirementV>
    decreases reqs.len(),
{
    if reqs.len() == 0 {
        Seq::empty()
    } else {
        let prev = dedup_views(reqs.drop_last());
        if prev.contains(reqs.last()) {
            prev
        } else {
            prev.push(reqs.last())
        }
    }
}

pub proof fn lemma_dedup_views_props(reqs: Seq<RequirementV>)
    ensures
        dedup_views(reqs).no_duplicates(),
        forall|r: RequirementV| dedup_views(reqs).contains(r) <==> reqs.contains(r),
    decreases reqs.len(),
{
    if reqs.len() > 0 {
        lemma_dedup_views_props(reqs.drop_last());
        assert forall|r: RequirementV| reqs.contains(r) <==> (reqs.drop_last().contains(r) || r == reqs.last()) by {
            if reqs.contains(r) {
                let k = choose|k: int| 0 <= k < reqs.len() && reqs[k] == r;
                if k < reqs.len() - 1 {
                    assert(reqs.drop_last()[k] == r);
                }
            }
            if reqs.drop_last().contains(r) {
                let k = choose|k: int| 0 <= k < reqs.drop_last().len() && reqs.drop_last()[k] == r;
                assert(reqs[k] == r);
            }
            if r == reqs.last() {
                assert(reqs[reqs.len() - 1] == r);
            }
        }
        let prev = dedup_views(reqs.drop_last());
        if !prev.contains(reqs.last()) {
            assert forall|r: RequirementV| prev.push(reqs.last()).contains(r) <==> (prev.contains(r) || r == reqs.last()) by {
                if prev.push(reqs.last()).contains(r) {
                    let k = choose|k: int| 0 <= k < prev.push(reqs.last()).len() && prev.push(reqs.last())[k] == r;
                    if k < prev.len() {
                        assert(prev[k] == r);
                    }
                }
                if prev.contains(r) {
                    let k = choose|k: int| 0 <= k < prev.len() && prev[k] == r;
                    assert(prev.push(reqs.last())[k] == r);
                }
                if r == reqs.last() {
                    assert(prev.push(reqs.last())[prev.len() as int] == r);
                }
            }
            assert forall|i: int, j: int| 0 <= i < prev.push(reqs.last()).len() && 0 <= j < prev.push(reqs.last()).len() && i != j
                implies prev.push(reqs.last())[i] != prev.push(reqs.last())[j] by {
                if i < prev.len() && j < prev.len() {
                } else if i < prev.len() {
                    assert(prev.contains(prev[i]));
                } else {
                    assert(prev.contains(prev[j]));
                }
            }
        }
    }
}

/// Requirements to resolve for a run: each distinct requirement once, in the
/// order of its first occurrence in `reqs`.
pub fn resolve_requirements(reqs: &Vec<Requirement>) -> (r: Vec<Requirement>)
    ensures
        r@.map_values(|x: Requirement| x@) == dedup_views(reqs@.map_values(|x: Requirement| x@)),
{
    let ghost views = reqs@.map_values(|x: Requirement| x@);
    let mut out: Vec<Requirement> = Vec::new();
    let mut i: usize = 0;
    while i < reqs.len()
        invariant
            i <= reqs.len(),
            views == reqs@.map_values(|x: Requirement| x@),
            out@.map_values(|x: Requirement| x@) == dedup_views(views.subrange(0, i as int)),
        decreases reqs.len() - i,
    {
        let ghost outv = out@.map_values(|x: Requirement| x@);
        let mut seen = false;
        let mut j: usize = 0;
        while j < out.len()
            invariant
                j <= out.len(),
                i < reqs.len(),
                outv == out@.map_values(|x: Requirement| x@),
                seen ==> outv.contains(reqs@[i as int]@),
                !seen ==> forall|k: int| 0 <= k < j ==> outv[k] != reqs@[i as int]@,
            decreases out.len() - j,
        {
            if out[j].same_as(&reqs[i]) {
                seen = true;
                assert(outv[j as int] == reqs@[i as int]@);
            }
            j = j + 1;
        }
        assert(views.subrange(0, i + 1).drop_last() =~= views.subrange(0, i as int));
        assert(views.subrange(0, i + 1).last() == reqs@[i as int]@);
        assert(seen == outv.contains(reqs@[i as int]@));
        if !seen {
            out.push(reqs[i].duplicate());
            assert(out@.map_values(|x: Requirement| x@) =~= outv.push(reqs@[i as int]@));
        }
        i = i + 1;
    }
    assert(views.subrange(0, reqs.len() as int) =~= views);
    out
}

} // verus!
