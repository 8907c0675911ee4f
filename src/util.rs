use vstd::prelude::*;
use crate::externs::command_exists;
use crate::text::{split_once, split_once_spec};

verus! {

/// Splits a package spec `pkg:bin` into package and binary; without a colon
/// the binary is named like the package.
pub fn parse_spec(spec: &str) -> (r: (String, String))
    ensures
        match split_once_spec(spec@, ':') {
            Some((p, b)) => r.0@ == p && r.1@ == b,
            None => r.0@ == spec@ && r.1@ == spec@,
        },
{
    match split_once(spec, ':') {
        Some(pair) => pair,
        None => (String::from_str(spec), String::from_str(spec)),
    }
}

/// The text after the last `c` of `s` (all of `s` without one).
pub open spec fn after_last(s: Seq<char>, c: char) -> Seq<char>
    decreases s.len(),
{
    if s.len() == 0 {
        s
    } else if s.last() == c {
        Seq::empty()
    } else {
        after_last(s.drop_last(), c).push(s.last())
    }
}

/// The text before the first `c` of `s` (all of `s` without one).
pub open spec fn before_first(s: Seq<char>, c: char) -> Seq<char> {
    match split_once_spec(s, c) {
        Some((a, _)) => a,
        None => s,
    }
}

fn last_segment(s: &str, c: char) -> (r: String)
    ensures
        r@ == after_last(s@, c),
{
    let n = s.unicode_len();
    let mut i: usize = n;
    assert(s@.subrange(0, n as int) =~= s@);
    assert(after_last(s@, c) + s@.subrange(n as int, n as int) =~= after_last(s@, c));
    while i > 0 && s.get_char(i - 1) != c
        invariant
            n == s@.len(),
            i <= n,
            after_last(s@, c) == after_last(s@.subrange(0, i as int), c) + s@.subrange(i as int, n as int),
        decreases i,
    {
        let ghost pre = s@.subrange(0, i as int);
        assert(pre.drop_last() =~= s@.subrange(0, i - 1));
        assert(s@.subrange(i - 1, n as int) =~= seq![pre.last()] + s@.subrange(i as int, n as int));
        assert(after_last(pre.drop_last(), c).push(pre.last()) + s@.subrange(i as int, n as int)
            =~= after_last(pre.drop_last(), c) + s@.subrange(i - 1, n as int));
        i = i - 1;
    }
    proof {
        let pre = s@.subrange(0, i as int);
        if i > 0 {
            assert(pre.last() == c);
        } else {
            assert(pre =~= Seq::<char>::empty());
        }
        assert(after_last(pre, c) =~= Seq::<char>::empty());
        assert(Seq::<char>::empty() + s@.subrange(i as int, n as int) =~= s@.subrange(i as int, n as int));
    }
    String::from_str(s.substring_char(i, n))
}

/// A Go binary's name from its module path: the last path segment, without
/// an `@version`.
pub fn go_bin_from_path(pkg: &str) -> (r: String)
    ensures
        r@ == after_last(before_first(pkg@, '@'), '/'),
{
    match split_once(pkg, '@') {
        Some((path, _)) => last_segment(path.as_str(), '/'),
        None => last_segment(pkg, '/'),
    }
}

/// A Go package spec `module:bin` names its binary; otherwise the binary is
/// named after the module path.
pub fn go_bin_name(spec: &str) -> (r: String)
    ensures
        r@ == match split_once_spec(spec@, ':') {
            Some((_, b)) => b,
            None => after_last(before_first(spec@, '@'), '/'),
        },
{
    match split_once(spec, ':') {
        Some((_, bin)) => bin,
        None => go_bin_from_path(spec),
    }
}

/// A Go package spec as module and binary.
pub fn go_parse_spec(spec: &str) -> (r: (String, String))
    ensures
        match split_once_spec(spec@, ':') {
            Some((p, b)) => r.0@ == p && r.1@ == b,
            None => r.0@ == spec@ && r.1@ == after_last(before_first(spec@, '@'), '/'),
        },
{
    match split_once(spec, ':') {
        Some(pair) => pair,
        None => (String::from_str(spec), go_bin_from_path(spec)),
    }
}

/// A fetch item's value: the destination path and, after a NUL, an optional
/// cache lifetime; a lifetime that does not parse counts as none.
pub fn parse_fetch_value(value: Option<&str>) -> (r: (String, Option<u64>))
    ensures
        ({
            let raw = match value {
                Some(v) => v@,
                None => Seq::<char>::empty(),
            };
            let (path, ttl) = match split_once_spec(raw, '\0') {
                Some((p, t)) => (p, t),
                None => (raw, Seq::<char>::empty()),
            };
            &&& r.0@ == path
            &&& r.1 == if ttl.len() == 0 {
                None
            } else {
                match duration_secs(ttl) {
                    Some(n) => Some(n as u64),
                    None => None,
                }
            }
        }),
{
    let raw = match value {
        Some(v) => v,
        None => "",
    };
    proof {
        reveal_strlit("");
    }
    let (path, ttl) = match split_once(raw, '\0') {
        Some(pair) => pair,
        None => (String::from_str(raw), String::new()),
    };
    if ttl.unicode_len() == 0 {
        return (path, None);
    }
    match parse_duration(ttl.as_str()) {
        Ok(n) => (path, Some(n)),
        Err(_) => (path, None),
    }
}

/// Whether `hay` ends with `suffix`.
pub open spec fn ends_with(hay: Seq<char>, suffix: Seq<char>) -> bool {
    suffix.len() <= hay.len() && hay.subrange(hay.len() - suffix.len(), hay.len() as int) == suffix
}

pub fn str_ends_with(hay: &str, suffix: &str) -> (r: bool)
    ensures
        r == ends_with(hay@, suffix@),
{
    let n = hay.unicode_len();
    let k = suffix.unicode_len();
    if k > n {
        return false;
    }
    let tail = hay.substring_char(n - k, n);
    crate::text::str_eq(tail, suffix)
}

/// Whether `needle` occurs in `hay`.
pub open spec fn contains_str(hay: Seq<char>, needle: Seq<char>) -> bool {
    exists|i: int| 0 <= i && i + needle.len() <= hay.len() && #[trigger] hay.subrange(i, i + needle.len()) == needle
}

pub fn str_contains(hay: &str, needle: &str) -> (r: bool)
    ensures
        r == contains_str(hay@, needle@),
{
    let n = hay.unicode_len();
    let k = needle.unicode_len();
    if k > n {
        return false;
    }
    let last = n - k;
    let mut i: usize = 0;
    loop
        invariant
            n == hay@.len(),
            k == needle@.len(),
            k <= n,
            last == n - k,
            i <= last,
            forall|j: int| 0 <= j < i ==> #[trigger] hay@.subrange(j, j + k) != needle@,
        decreases last - i,
    {
        if crate::text::str_eq(hay.substring_char(i, i + k), needle) {
            return true;
        }
        if i == last {
            assert forall|j: int| 0 <= j && j + needle@.len() <= hay@.len()
                implies #[trigger] hay@.subrange(j, j + needle@.len()) != needle@ by {
                assert(j <= last);
            }
            return false;
        }
        i = i + 1;
    }
}

/// Whether a file name names a gzip-compressed tar archive.
pub fn is_tar_gz(file_name: &str) -> (r: bool)
    ensures
        r == (ends_with(file_name@, ".tar.gz"@) || ends_with(file_name@, ".tgz"@)),
{
    str_ends_with(file_name, ".tar.gz") || str_ends_with(file_name, ".tgz")
}

/// The user's shell family.
#[derive(PartialEq, Eq, Structural, Clone, Copy, Debug)]
pub enum Shell {
    Zsh,
    Bash,
    Fish,
}

impl Shell {
    /// The shell named by the login shell path (`$SHELL`): zsh if it mentions
    /// zsh, else fish if it mentions fish, else bash.
    pub fn detect(shell_path: Option<&str>) -> (r: Shell)
        ensures
            r == match shell_path {
                Some(p) => if contains_str(p@, "zsh"@) {
                    Shell::Zsh
                } else if contains_str(p@, "fish"@) {
                    Shell::Fish
                } else {
                    Shell::Bash
                },
                None => Shell::Bash,
            },
    {
        match shell_path {
            Some(p) => if str_contains(p, "zsh") {
                Shell::Zsh
            } else if str_contains(p, "fish") {
                Shell::Fish
            } else {
                Shell::Bash
            },
            None => Shell::Bash,
        }
    }

    pub fn name(&self) -> (r: &'static str)
        ensures
            r@ == match self {
                Shell::Zsh => "zsh"@,
                Shell::Bash => "bash"@,
                Shell::Fish => "fish"@,
            },
    {
        match self {
            Shell::Zsh => "zsh",
            Shell::Bash => "bash",
            Shell::Fish => "fish",
        }
    }

    /// The shell's startup file, relative to the home directory (`~`).
    pub fn rc_file(&self) -> (r: &'static str)
        ensures
            r@ == match self {
                Shell::Zsh => "~/.zshrc"@,
                Shell::Bash => "~/.bashrc"@,
                Shell::Fish => "~/.config/fish/config.fish"@,
            },
    {
        match self {
            Shell::Zsh => "~/.zshrc",
            Shell::Bash => "~/.bashrc",
            Shell::Fish => "~/.config/fish/config.fish",
        }
    }
}

/// The system package manager.
#[derive(PartialEq, Eq, Structural, Clone, Copy, Debug)]
pub enum SysPkgManager {
    Apt,
    Pacman,
    Brew,
}

impl SysPkgManager {
    /// The package manager to use given which of their binaries resolve:
    /// pacman first, then apt-get, then brew.
    pub fn pick(has_pacman: bool, has_apt_get: bool, has_brew: bool) -> (r: Option<SysPkgManager>)
        ensures
            r == if has_pacman {
                Some(SysPkgManager::Pacman)
            } else if has_apt_get {
                Some(SysPkgManager::Apt)
            } else if has_brew {
                Some(SysPkgManager::Brew)
            } else {
                None
            },
    {
        if has_pacman {
            Some(SysPkgManager::Pacman)
        } else if has_apt_get {
            Some(SysPkgManager::Apt)
        } else if has_brew {
            Some(SysPkgManager::Brew)
        } else {
            None
        }
    }

    /// Detects the package manager on this machine by looking its binaries
    /// up on the search path.
    pub fn detect() -> (r: Option<SysPkgManager>) {
        if command_exists("pacman") {
            SysPkgManager::pick(true, false, false)
        } else if command_exists("apt-get") {
            SysPkgManager::pick(false, true, false)
        } else {
            SysPkgManager::pick(false, false, command_exists("brew"))
        }
    }
}

/// A digit character for a value below ten.
pub open spec fn digit_char(d: nat) -> char {
    if d == 0 { '0' } else if d == 1 { '1' } else if d == 2 { '2' } else if d == 3 { '3' } else if d == 4 { '4' }
    else if d == 5 { '5' } else if d == 6 { '6' } else if d == 7 { '7' } else if d == 8 { '8' } else { '9' }
}

/// The decimal representation of `n`, without leading zeros.
pub open spec fn decimal(n: nat) -> Seq<char>
    decreases n,
{
    if n < 10 {
        seq![digit_char(n)]
    } else {
        decimal(n / 10).push(digit_char(n % 10))
    }
}

fn digit_str(d: u64) -> (r: &'static str)
    requires
        d < 10,
    ensures
        r@ == seq![digit_char(d as nat)],
{
    proof {
        reveal_strlit("0");
        reveal_strlit("1");
        reveal_strlit("2");
        reveal_strlit("3");
        reveal_strlit("4");
        reveal_strlit("5");
        reveal_strlit("6");
        reveal_strlit("7");
        reveal_strlit("8");
        reveal_strlit("9");
    }
    let r = if d == 0 { "0" } else if d == 1 { "1" } else if d == 2 { "2" } else if d == 3 { "3" } else if d == 4 { "4" }
    else if d == 5 { "5" } else if d == 6 { "6" } else if d == 7 { "7" } else if d == 8 { "8" } else { "9" };
    assert(r@ =~= seq![digit_char(d as nat)]);
    r
}

/// Appends the decimal representation of `n` to `out`.
pub fn push_decimal(out: &mut String, n: u64)
    ensures
        final(out)@ == old(out)@ + decimal(n as nat),
    decreases n,
{
    if n >= 10 {
        push_decimal(out, n / 10);
    }
    let ghost mid = out@;
    out.append(digit_str(n % 10));
    proof {
        if n >= 10 {
            assert(out@ =~= old(out)@ + decimal(n as nat));
        } else {
            assert(out@ =~= old(out)@ + decimal(n as nat));
        }
    }
}

/// How long a step took, for display: minutes and seconds from a minute on,
/// whole seconds from a second on, else milliseconds.
pub open spec fn duration_text(millis: nat) -> Seq<char> {
    let secs = millis / 1000;
    if secs >= 60 {
        decimal(secs / 60) + "m"@ + decimal(secs % 60) + "s"@
    } else if secs > 0 {
        decimal(secs) + "s"@
    } else {
        decimal(millis) + "ms"@
    }
}

pub fn format_duration(millis: u64) -> (r: String)
    ensures
        r@ == duration_text(millis as nat),
{
    let secs = millis / 1000;
    let mut r = String::new();
    if secs >= 60 {
        push_decimal(&mut r, secs / 60);
        r.append("m");
        push_decimal(&mut r, secs % 60);
        r.append("s");
    } else if secs > 0 {
        push_decimal(&mut r, secs);
        r.append("s");
    } else {
        push_decimal(&mut r, millis);
        r.append("ms");
    }
    assert(r@ =~= duration_text(millis as nat));
    r
}

/// A byte count for display: mebibytes with one decimal (ties to even) from
/// one MiB on, whole kibibytes from one KiB on, else bytes.
pub open spec fn bytes_text(bytes: nat) -> Seq<char> {
    if bytes >= 1048576 {
        let q = bytes * 10 / 1048576;
        let rem = bytes * 10 % 1048576;
        let t = if rem * 2 > 1048576 || (rem * 2 == 1048576 && q % 2 == 1) { q + 1 } else { q };
        decimal(t / 10) + "."@ + decimal(t % 10) + "M"@
    } else if bytes >= 1024 {
        decimal(bytes / 1024) + "K"@
    } else {
        decimal(bytes) + "B"@
    }
}

pub fn format_bytes(bytes: u64) -> (r: String)
    ensures
        r@ == bytes_text(bytes as nat),
{
    let mut r = String::new();
    if bytes >= 1048576 {
        let q = bytes / 1048576 * 10 + (bytes % 1048576) * 10 / 1048576;
        let rem = (bytes % 1048576) * 10 % 1048576;
        assert(q == bytes * 10 / 1048576 && rem == bytes * 10 % 1048576) by (nonlinear_arith)
            requires
                q == bytes / 1048576 * 10 + (bytes % 1048576) * 10 / 1048576,
                rem == (bytes % 1048576) * 10 % 1048576,
        ;
        let t = if rem * 2 > 1048576 || (rem * 2 == 1048576 && q % 2 == 1) { q + 1 } else { q };
        push_decimal(&mut r, t / 10);
        r.append(".");
        push_decimal(&mut r, t % 10);
        r.append("M");
    } else if bytes >= 1024 {
        push_decimal(&mut r, bytes / 1024);
        r.append("K");
    } else {
        push_decimal(&mut r, bytes);
        r.append("B");
    }
    assert(r@ =~= bytes_text(bytes as nat));
    r
}

/// Where a fetched URL is stored: a plain path, or a path with a cache
/// lifetime.
pub enum FetchTarget {
    Path(String),
    WithOptions { path: String, ttl: Option<String> },
}

impl FetchTarget {
    pub fn path(&self) -> (r: &str)
        ensures
            r@ == match self {
                FetchTarget::Path(p) => p@,
                FetchTarget::WithOptions { path, .. } => path@,
            },
    {
        match self {
            FetchTarget::Path(p) => p.as_str(),
            FetchTarget::WithOptions { path, .. } => path.as_str(),
        }
    }

    pub fn ttl(&self) -> (r: Option<&str>)
        ensures
            match self {
                FetchTarget::Path(_) => r is None,
                FetchTarget::WithOptions { ttl, .. } => match ttl {
                    Some(t) => r is Some && r->Some_0@ == t@,
                    None => r is None,
                },
            },
    {
        match self {
            FetchTarget::Path(_) => None,
            FetchTarget::WithOptions { ttl, .. } => match ttl {
                Some(t) => Some(t.as_str()),
                None => None,
            },
        }
    }
}

/// Why a duration text was refused.
pub enum DurationError {
    /// A unit letter without digits before it.
    MissingNumber,
    /// A letter other than `s`, `m`, `h`, `d`.
    UnknownUnit(char),
    /// The number of seconds does not fit in 64 bits.
    TooLarge,
}

pub open spec fn is_digit(c: char) -> bool {
    '0' <= c && c <= '9'
}

/// Seconds per unit letter.
pub open spec fn unit_secs(c: char) -> Option<int> {
    if c == 's' {
        Some(1)
    } else if c == 'm' {
        Some(60)
    } else if c == 'h' {
        Some(3600)
    } else if c == 'd' {
        Some(86400)
    } else {
        None
    }
}

/// Reads `s` from position `i`, with `total` seconds so far and the digits
/// pending since the last unit (`pending` of value `num`). A trailing number
/// counts as seconds.
pub open spec fn duration_from(s: Seq<char>, i: int, total: int, num: int, pending: bool) -> Option<int>
    decreases s.len() - i,
{
    if i >= s.len() {
        if !pending {
            Some(total)
        } else if total + num > u64::MAX {
            None
        } else {
            Some(total + num)
        }
    } else if is_digit(s[i]) {
        duration_from(s, i + 1, total, num * 10 + (s[i] as int - '0' as int), true)
    } else if !pending {
        None
    } else {
        match unit_secs(s[i]) {
            None => None,
            Some(u) => if total + num * u > u64::MAX {
                None
            } else {
                duration_from(s, i + 1, total + num * u, 0, false)
            },
        }
    }
}

/// The number of seconds that a text such as `1h30m`, `45s`, `2d` or `90`
/// stands for.
pub open spec fn duration_secs(s: Seq<char>) -> Option<int> {
    duration_from(s, 0, 0, 0, false)
}

/// Parses a human-readable duration into seconds: numbers each followed by a
/// unit (`s`, `m`, `h`, `d`) are summed; a trailing bare number counts as
/// seconds.
pub fn parse_duration(text: &str) -> (r: Result<u64, DurationError>)
    ensures
        match r {
            Ok(n) => duration_secs(text@) == Some(n as int),
            Err(_) => duration_secs(text@) is None,
        },
{
    let n = text.unicode_len();
    let mut total: u64 = 0;
    let mut num: u64 = 0;
    let mut big = false;
    let ghost mut num_int: int = 0;
    let mut pending = false;
    let mut i: usize = 0;
    while i < n
        invariant
            n == text@.len(),
            i <= n,
            duration_secs(text@) == duration_from(text@, i as int, total as int, num_int, pending),
            big <==> num_int > u64::MAX,
            !big ==> num as int == num_int,
            num_int >= 0,
            !pending ==> num_int == 0,
        decreases n - i,
    {
        let c = text.get_char(i);
        if '0' <= c && c <= '9' {
            let d = (c as u32 - '0' as u32) as u64;
            proof {
                num_int = num_int * 10 + (c as int - '0' as int);
            }
            if !big {
                if num <= (u64::MAX - d) / 10 {
                    num = num * 10 + d;
                } else {
                    big = true;
                }
            }
            pending = true;
        } else {
            if !pending {
                return Err(DurationError::MissingNumber);
            }
            let unit: u64 = if c == 's' {
                1
            } else if c == 'm' {
                60
            } else if c == 'h' {
                3600
            } else if c == 'd' {
                86400
            } else {
                return Err(DurationError::UnknownUnit(c));
            };
            if big {
                assert(num_int * unit > u64::MAX) by (nonlinear_arith)
                    requires
                        num_int > u64::MAX,
                        unit >= 1,
                ;
                return Err(DurationError::TooLarge);
            }
            if num > 0 && unit > (u64::MAX - total) / num {
                assert(total + num * unit > u64::MAX) by (nonlinear_arith)
                    requires
                        num > 0,
                        unit > (u64::MAX - total) as int / num as int,
                        total <= u64::MAX,
                ;
                return Err(DurationError::TooLarge);
            }
            assert(num * unit <= u64::MAX - total) by (nonlinear_arith)
                requires
                    num == 0 || unit <= (u64::MAX - total) as int / num as int,
                    total <= u64::MAX,
            ;
            total = total + num * unit;
            num = 0;
            proof {
                num_int = 0;
            }
            pending = false;
        }
        i = i + 1;
    }
    if pending {
        if big || num > u64::MAX - total {
            return Err(DurationError::TooLarge);
        }
        total = total + num;
    }
    Ok(total)
}

} // verus!
