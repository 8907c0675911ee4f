use vstd::prelude::*;
use crate::requirement::{InstallMethod, InstallMethodV, Requirement, RequirementV};
use crate::text::str_eq;

verus! {

/// The closed set of resource kinds that the engine knows how to check and apply.
#[derive(PartialEq, Eq, Structural, Clone, Copy, Debug)]
pub enum ProviderKind {
    Os,
    Apt,
    Pacman,
    Cargo,
    Go,
    Webi,
    Npm,
    Pip,
    Pipx,
    Systemd,
    Copy,
    Fetch,
    Symlink,
    EnsureLine,
    FileLine,
    Template,
    Alias,
    Env,
    Command,
    Script,
    Assert,
}

impl ProviderKind {
    /// The kind string that items name this provider by.
    pub open spec fn name_spec(self) -> Seq<char> {
        match self {
            ProviderKind::Os => "package.os"@,
            ProviderKind::Apt => "package.apt"@,
            ProviderKind::Pacman => "package.pacman"@,
            ProviderKind::Cargo => "package.cargo"@,
            ProviderKind::Go => "package.go"@,
            ProviderKind::Webi => "package.webi"@,
            ProviderKind::Npm => "package.npm"@,
            ProviderKind::Pip => "package.pip"@,
            ProviderKind::Pipx => "package.pipx"@,
            ProviderKind::Systemd => "service"@,
            ProviderKind::Copy => "file.copy"@,
            ProviderKind::Fetch => "file.fetch"@,
            ProviderKind::Symlink => "file.symlink"@,
            ProviderKind::EnsureLine => "file.ensure_line"@,
            ProviderKind::FileLine => "file.line"@,
            ProviderKind::Template => "file.template"@,
            ProviderKind::Alias => "alias"@,
            ProviderKind::Env => "env"@,
            ProviderKind::Command => "command"@,
            ProviderKind::Script => "script"@,
            ProviderKind::Assert => "assert"@,
        }
    }

    pub fn name(&self) -> (r: &'static str)
        ensures
            r@ == self.name_spec(),
    {
        match self {
            ProviderKind::Os => "package.os",
            ProviderKind::Apt => "package.apt",
            ProviderKind::Pacman => "package.pacman",
            ProviderKind::Cargo => "package.cargo",
            ProviderKind::Go => "package.go",
            ProviderKind::Webi => "package.webi",
            ProviderKind::Npm => "package.npm",
            ProviderKind::Pip => "package.pip",
            ProviderKind::Pipx => "package.pipx",
            ProviderKind::Systemd => "service",
            ProviderKind::Copy => "file.copy",
            ProviderKind::Fetch => "file.fetch",
            ProviderKind::Symlink => "file.symlink",
            ProviderKind::EnsureLine => "file.ensure_line",
            ProviderKind::FileLine => "file.line",
            ProviderKind::Template => "file.template",
            ProviderKind::Alias => "alias",
            ProviderKind::Env => "env",
            ProviderKind::Command => "command",
            ProviderKind::Script => "script",
            ProviderKind::Assert => "assert",
        }
    }

    /// Prerequisites that must resolve before items of this kind are applied.
    pub open spec fn requirements_spec(self) -> Seq<RequirementV> {
        match self {
            ProviderKind::Cargo => seq![
                RequirementV { binary: "cargo"@, install: InstallMethodV::Rustup },
                RequirementV { binary: "cargo-binstall"@, install: InstallMethodV::CargoBinstall },
            ],
            ProviderKind::Go => seq![RequirementV { binary: "go"@, install: InstallMethodV::Webi("golang"@) }],
            ProviderKind::Npm => seq![RequirementV { binary: "npm"@, install: InstallMethodV::Webi("node"@) }],
            ProviderKind::Pip => seq![RequirementV { binary: "pip3"@, install: InstallMethodV::Webi("python"@) }],
            ProviderKind::Pipx => seq![RequirementV { binary: "pipx"@, install: InstallMethodV::Pip("pipx"@) }],
            _ => Seq::empty(),
        }
    }

    pub fn requirements(&self) -> (r: Vec<Requirement>)
        ensures
            r@.map_values(|x: Requirement| x@) == self.requirements_spec(),
    {
        let mut r: Vec<Requirement> = Vec::new();
        match self {
            ProviderKind::Cargo => {
                r.push(Requirement::binary("cargo", InstallMethod::Rustup));
                r.push(Requirement::binary("cargo-binstall", InstallMethod::CargoBinstall));
            },
            ProviderKind::Go => {
                r.push(Requirement::binary("go", InstallMethod::Webi(String::from_str("golang"))));
            },
            ProviderKind::Npm => {
                r.push(Requirement::binary("npm", InstallMethod::Webi(String::from_str("node"))));
            },
            ProviderKind::Pip => {
                r.push(Requirement::binary("pip3", InstallMethod::Webi(String::from_str("python"))));
            },
            ProviderKind::Pipx => {
                r.push(Requirement::binary("pipx", InstallMethod::Pip(String::from_str("pipx"))));
            },
            _ => {},
        }
        proof {
            assert(r@.map_values(|x: Requirement| x@) =~= self.requirements_spec());
        }
        r
    }

    /// Assertion-style providers only ever check; their failures are issues.
    pub open spec fn is_check_only_spec(self) -> bool {
        self is Assert
    }

    pub fn is_check_only(&self) -> (r: bool)
        ensures
            r == self.is_check_only_spec(),
    {
        match self {
            ProviderKind::Assert => true,
            _ => false,
        }
    }

    /// Providers that run the system package manager or init system with
    /// elevated privileges.
    pub open spec fn needs_sudo_spec(self) -> bool {
        self is Os || self is Apt || self is Pacman || self is Systemd
    }

    pub fn needs_sudo(&self) -> (r: bool)
        ensures
            r == self.needs_sudo_spec(),
    {
        match self {
            ProviderKind::Os | ProviderKind::Apt | ProviderKind::Pacman | ProviderKind::Systemd => true,
            _ => false,
        }
    }
}

/// The registry's fixed lookup order.
pub open spec fn registry_order() -> Seq<ProviderKind> {
    seq![
        ProviderKind::Os,
        ProviderKind::Apt,
        ProviderKind::Pacman,
        ProviderKind::Cargo,
        ProviderKind::Go,
        ProviderKind::Webi,
        ProviderKind::Npm,
        ProviderKind::Pip,
        ProviderKind::Pipx,
        ProviderKind::Systemd,
        ProviderKind::Copy,
        ProviderKind::Fetch,
        ProviderKind::Symlink,
        ProviderKind::EnsureLine,
        ProviderKind::FileLine,
        ProviderKind::Template,
        ProviderKind::Alias,
        ProviderKind::Env,
        ProviderKind::Command,
        ProviderKind::Script,
        ProviderKind::Assert,
    ]
}

/// The first provider in `kinds` whose kind string is `name`.
pub open spec fn lookup_in(kinds: Seq<ProviderKind>, name: Seq<char>) -> Option<ProviderKind>
    decreases kinds.len(),
{
    if kinds.len() == 0 {
        None
    } else if kinds[0].name_spec() == name {
        Some(kinds[0])
    } else {
        lookup_in(kinds.drop_first(), name)
    }
}

pub proof fn lemma_lookup_in_found(kinds: Seq<ProviderKind>, name: Seq<char>)
    ensures
        match lookup_in(kinds, name) {
            Some(p) => kinds.contains(p) && p.name_spec() == name,
            None => forall|p: ProviderKind| kinds.contains(p) ==> p.name_spec() != name,
        },
    decreases kinds.len(),
{
    if kinds.len() > 0 {
        lemma_lookup_in_found(kinds.drop_first(), name);
        if kinds[0].name_spec() == name {
            assert(kinds.contains(kinds[0]));
        } else {
            match lookup_in(kinds.drop_first(), name) {
                Some(p) => {
                    let k = choose|k: int| 0 <= k < kinds.drop_first().len() && kinds.drop_first()[k] == p;
                    assert(kinds[k + 1] == p);
                },
                None => {
                    assert forall|p: ProviderKind| kinds.contains(p) implies p.name_spec() != name by {
                        let k = choose|k: int| 0 <= k < kinds.len() && kinds[k] == p;
                        if k > 0 {
                            assert(kinds.drop_first()[k - 1] == p);
                        }
                    }
                },
            }
        }
    }
}

/// The fixed, ordered collection of providers, looked up by exact kind string.
pub struct ProviderRegistry {
    providers: Vec<ProviderKind>,
}

impl ProviderRegistry {
    pub closed spec fn kinds(&self) -> Seq<ProviderKind> {
        self.providers@
    }

    pub fn new() -> (r: ProviderRegistry)
        ensures
            r.kinds() == registry_order(),
    {
        let mut providers: Vec<ProviderKind> = Vec::new();
        providers.push(ProviderKind::Os);
        providers.push(ProviderKind::Apt);
        providers.push(ProviderKind::Pacman);
        providers.push(ProviderKind::Cargo);
        providers.push(ProviderKind::Go);
        providers.push(ProviderKind::Webi);
        providers.push(ProviderKind::Npm);
        providers.push(ProviderKind::Pip);
        providers.push(ProviderKind::Pipx);
        providers.push(ProviderKind::Systemd);
        providers.push(ProviderKind::Copy);
        providers.push(ProviderKind::Fetch);
        providers.push(ProviderKind::Symlink);
        providers.push(ProviderKind::EnsureLine);
        providers.push(ProviderKind::FileLine);
        providers.push(ProviderKind::Template);
        providers.push(ProviderKind::Alias);
        providers.push(ProviderKind::Env);
        providers.push(ProviderKind::Command);
        providers.push(ProviderKind::Script);
        providers.push(ProviderKind::Assert);
        proof {
            assert(providers@ =~= registry_order());
        }
        ProviderRegistry { providers }
    }

    /// The first registered provider whose kind string is exactly `kind`.
    pub fn get(&self, kind: &str) -> (r: Option<ProviderKind>)
        ensures
            r == lookup_in(self.kinds(), kind@),
            match r {
                Some(p) => self.kinds().contains(p) && p.name_spec() == kind@,
                None => forall|p: ProviderKind| self.kinds().contains(p) ==> p.name_spec() != kind@,
            },
    {
        proof {
            lemma_lookup_in_found(self.providers@, kind@);
        }
        assert(self.providers@.subrange(0, self.providers@.len() as int) =~= self.providers@);
        let mut i: usize = 0;
        while i < self.providers.len()
            invariant
                i <= self.providers@.len(),
                lookup_in(self.providers@, kind@) == lookup_in(self.providers@.subrange(i as int, self.providers@.len() as int), kind@),
            decreases self.providers.len() - i,
        {
            let p = self.providers[i];
            let ghost rest = self.providers@.subrange(i as int, self.providers@.len() as int);
            assert(rest[0] == p);
            assert(rest.drop_first() =~= self.providers@.subrange(i + 1, self.providers@.len() as int));
            if str_eq(p.name(), kind) {
                return Some(p);
            }
            i = i + 1;
        }
        None
    }
}

/// Provider for `package.os` items.
pub struct OsProvider;

impl OsProvider {
    pub fn kind(&self) -> (r: ProviderKind)
        ensures
            r == ProviderKind::Os,
    {
        ProviderKind::Os
    }
}

/// Provider for `package.apt` items.
pub struct AptProvider;

impl AptProvider {
    pub fn kind(&self) -> (r: ProviderKind)
        ensures
            r == ProviderKind::Apt,
    {
        ProviderKind::Apt
    }
}

/// Provider for `package.pacman` items.
pub struct PacmanProvider;

impl PacmanProvider {
    pub fn kind(&self) -> (r: ProviderKind)
        ensures
            r == ProviderKind::Pacman,
    {
        ProviderKind::Pacman
    }
}

/// Provider for `package.cargo` items.
pub struct CargoProvider;

impl CargoProvider {
    pub fn kind(&self) -> (r: ProviderKind)
        ensures
            r == ProviderKind::Cargo,
    {
        ProviderKind::Cargo
    }
}

/// Provider for `package.go` items.
pub struct GoProvider;

impl GoProvider {
    pub fn kind(&self) -> (r: ProviderKind)
        ensures
            r == ProviderKind::Go,
    {
        ProviderKind::Go
    }
}

/// Provider for `package.webi` items.
pub struct WebiProvider;

impl WebiProvider {
    pub fn kind(&self) -> (r: ProviderKind)
        ensures
            r == ProviderKind::Webi,
    {
        ProviderKind::Webi
    }
}

/// Provider for `package.npm` items.
pub struct NpmProvider;

impl NpmProvider {
    pub fn kind(&self) -> (r: ProviderKind)
        ensures
            r == ProviderKind::Npm,
    {
        ProviderKind::Npm
    }
}

/// Provider for `package.pip` items.
pub struct PipProvider;

impl PipProvider {
    pub fn kind(&self) -> (r: ProviderKind)
        ensures
            r == ProviderKind::Pip,
    {
        ProviderKind::Pip
    }
}

/// Provider for `package.pipx` items.
pub struct PipxProvider;

impl PipxProvider {
    pub fn kind(&self) -> (r: ProviderKind)
        ensures
            r == ProviderKind::Pipx,
    {
        ProviderKind::Pipx
    }
}

/// Provider for `service` items.
pub struct SystemdProvider;

impl SystemdProvider {
    pub fn kind(&self) -> (r: ProviderKind)
        ensures
            r == ProviderKind::Systemd,
    {
        ProviderKind::Systemd
    }
}

/// Provider for `file.copy` items.
pub struct CopyProvider;

impl CopyProvider {
    pub fn kind(&self) -> (r: ProviderKind)
        ensures
            r == ProviderKind::Copy,
    {
        ProviderKind::Copy
    }
}

/// Provider for `file.fetch` items.
pub struct FetchProvider;

impl FetchProvider {
    pub fn kind(&self) -> (r: ProviderKind)
        ensures
            r == ProviderKind::Fetch,
    {
        ProviderKind::Fetch
    }
}

/// Provider for `file.symlink` items.
pub struct SymlinkProvider;

impl SymlinkProvider {
    pub fn kind(&self) -> (r: ProviderKind)
        ensures
            r == ProviderKind::Symlink,
    {
        ProviderKind::Symlink
    }
}

/// Provider for `file.ensure_line` items.
pub struct EnsureLineProvider;

impl EnsureLineProvider {
    pub fn kind(&self) -> (r: ProviderKind)
        ensures
            r == ProviderKind::EnsureLine,
    {
        ProviderKind::EnsureLine
    }
}

/// Provider for `file.line` items.
pub struct FileLineProvider;

impl FileLineProvider {
    pub fn kind(&self) -> (r: ProviderKind)
        ensures
            r == ProviderKind::FileLine,
    {
        ProviderKind::FileLine
    }
}

/// Provider for `file.template` items.
pub struct TemplateProvider;

impl TemplateProvider {
    pub fn kind(&self) -> (r: ProviderKind)
        ensures
            r == ProviderKind::Template,
    {
        ProviderKind::Template
    }
}

/// Provider for `alias` items.
pub struct AliasProvider;

impl AliasProvider {
    pub fn kind(&self) -> (r: ProviderKind)
        ensures
            r == ProviderKind::Alias,
    {
        ProviderKind::Alias
    }
}

/// Provider for `env` items.
pub struct EnvProvider;

impl EnvProvider {
    pub fn kind(&self) -> (r: ProviderKind)
        ensures
            r == ProviderKind::Env,
    {
        ProviderKind::Env
    }
}

/// Provider for `command` items.
pub struct CommandProvider;

impl CommandProvider {
    pub fn kind(&self) -> (r: ProviderKind)
        ensures
            r == ProviderKind::Command,
    {
        ProviderKind::Command
    }
}

/// Provider for `script` items.
pub struct ScriptProvider;

impl ScriptProvider {
    pub fn kind(&self) -> (r: ProviderKind)
        ensures
            r == ProviderKind::Script,
    {
        ProviderKind::Script
    }
}

/// Provider for `assert` items.
pub struct AssertProvider;

impl AssertProvider {
    pub fn kind(&self) -> (r: ProviderKind)
        ensures
            r == ProviderKind::Assert,
    {
        ProviderKind::Assert
    }
}

} // verus!
