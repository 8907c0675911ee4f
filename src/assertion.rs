use vstd::prelude::*;
use crate::externs::{regex_is_match, regex_match};
use crate::text::{trim_text, trimmed};
use crate::item::{opt_view, CheckResult};
use crate::text::{split_once, split_once_spec, str_eq};
use crate::util::{decimal, push_decimal};

verus! {

/// How an assertion reads its command's result.
#[derive(PartialEq, Eq, Structural, Clone, Copy, Debug)]
pub enum AssertMode {
    /// The command must exit with success, and its output may have to match.
    Check,
    /// Each non-empty output line is a finding; no line means the assertion holds.
    Foreach,
}

/// An assertion item's value: the command, the mode, optional patterns for
/// standard output and standard error, and an optional failure message.
pub struct Assertion {
    pub cmd: String,
    pub mode: AssertMode,
    pub stdout_pattern: Option<String>,
    pub stderr_pattern: Option<String>,
    pub message: Option<String>,
}

/// Why an assertion could not be evaluated.
pub enum AssertError {
    /// A pattern that is not a valid regular expression.
    InvalidPattern { pattern: String },
}

/// `s` cut at `sep` into at most `n` fields; the last field keeps the rest.
pub open spec fn fields(s: Seq<char>, sep: char, n: nat) -> Seq<Seq<char>>
    decreases n,
{
    if n <= 1 {
        seq![s]
    } else {
        match split_once_spec(s, sep) {
            Some((a, b)) => seq![a] + fields(b, sep, (n - 1) as nat),
            None => seq![s],
        }
    }
}

/// The field at `i`, absent when missing or empty.
pub open spec fn field_at(fs: Seq<Seq<char>>, i: int) -> Option<Seq<char>> {
    if 0 <= i < fs.len() && fs[i].len() > 0 {
        Some(fs[i])
    } else {
        None
    }
}

/// The assertion an item value encodes: NUL-separated command, mode,
/// stdout pattern, stderr pattern and message.
pub open spec fn assertion_of(value: Seq<char>) -> (Seq<char>, AssertMode, Option<Seq<char>>, Option<Seq<char>>, Option<Seq<char>>) {
    let fs = fields(value, '\0', 5);
    (
        fs[0],
        if field_at(fs, 1) == Some("foreach"@) { AssertMode::Foreach } else { AssertMode::Check },
        field_at(fs, 2),
        field_at(fs, 3),
        field_at(fs, 4),
    )
}

fn non_empty(s: String) -> (r: Option<String>)
    ensures
        opt_view(r) == if s@.len() > 0 { Some(s@) } else { None },
{
    if s.unicode_len() > 0 {
        Some(s)
    } else {
        None
    }
}

impl Assertion {
    /// Reads an assertion from an item value.
    pub fn parse(value: &str) -> (r: Assertion)
        ensures
            (r.cmd@, r.mode, opt_view(r.stdout_pattern), opt_view(r.stderr_pattern), opt_view(r.message))
                == assertion_of(value@),
    {
        proof {
            reveal_strlit("foreach");
        }
        let ghost fs = fields(value@, '\0', 5);
        let mut parts: Vec<String> = Vec::new();
        let mut rest = String::from_str(value);
        let mut k: usize = 0;
        let mut stop = false;
        while k < 4 && !stop
            invariant
                k <= 4,
                stop ==> split_once_spec(rest@, '\0') is None,
                fs == fields(value@, '\0', 5),
                fs == parts@.map_values(|p: String| p@) + fields(rest@, '\0', (5 - k) as nat),
                parts@.len() == k,
            decreases 4 - k + (if stop { 0int } else { 1int }),
        {
            match split_once(rest.as_str(), '\0') {
                Some((a, b)) => {
                    let ghost before = parts@.map_values(|p: String| p@);
                    parts.push(a);
                    assert(parts@.map_values(|p: String| p@) =~= before.push(parts@[k as int]@));
                    assert(fields(rest@, '\0', (5 - k) as nat) == seq![parts@[k as int]@] + fields(b@, '\0', (5 - k - 1) as nat));
                    assert(before + (seq![parts@[k as int]@] + fields(b@, '\0', (4 - k) as nat)) =~= before.push(parts@[k as int]@)
                        + fields(b@, '\0', (4 - k) as nat));
                    rest = b;
                },
                None => {
                    stop = true;
                },
            }
            if !stop {
                k = k + 1;
            }
        }
        let ghost pv = parts@.map_values(|p: String| p@);
        assert(fields(rest@, '\0', (5 - k) as nat) == seq![rest@]);
        parts.push(rest);
        assert(parts@.map_values(|p: String| p@) =~= pv.push(parts@[k as int]@));
        let n = parts.len();
        let mut message: Option<String> = None;
        let mut stderr_pattern: Option<String> = None;
        let mut stdout_pattern: Option<String> = None;
        let mut mode = AssertMode::Check;
        let ghost whole = parts@.map_values(|p: String| p@);
        assert(whole == fs);
        if n > 4 {
            message = non_empty(parts.pop().unwrap());
        }
        if n > 3 {
            stderr_pattern = non_empty(parts.pop().unwrap());
        }
        if n > 2 {
            stdout_pattern = non_empty(parts.pop().unwrap());
        }
        if n > 1 {
            let m = parts.pop().unwrap();
            if str_eq(m.as_str(), "foreach") {
                mode = AssertMode::Foreach;
            }
        }
        let cmd = parts.pop().unwrap();
        Assertion { cmd, mode, stdout_pattern, stderr_pattern, message }
    }
}

/// The pieces of `s` between line feeds.
pub open spec fn split_lines(s: Seq<char>) -> Seq<Seq<char>>
    decreases s.len(),
{
    if s.len() == 0 {
        seq![Seq::empty()]
    } else {
        let prev = split_lines(s.drop_last());
        if s.last() == '\n' {
            prev.push(Seq::empty())
        } else {
            prev.update(prev.len() - 1, prev.last().push(s.last()))
        }
    }
}

/// A line without the carriage return that may end it.
pub open spec fn strip_cr(line: Seq<char>) -> Seq<char> {
    if line.len() > 0 && line.last() == '\r' {
        line.drop_last()
    } else {
        line
    }
}

/// The non-empty lines of `pieces`, carriage returns stripped, in order.
pub open spec fn findings_of(pieces: Seq<Seq<char>>) -> Seq<Seq<char>>
    decreases pieces.len(),
{
    if pieces.len() == 0 {
        Seq::empty()
    } else {
        let prev = findings_of(pieces.drop_last());
        if strip_cr(pieces.last()).len() > 0 {
            prev.push(strip_cr(pieces.last()))
        } else {
            prev
        }
    }
}

/// `items` joined with `sep` between them.
pub open spec fn joined(items: Seq<Seq<char>>, sep: Seq<char>) -> Seq<char>
    decreases items.len(),
{
    if items.len() == 0 {
        Seq::empty()
    } else if items.len() == 1 {
        items[0]
    } else {
        joined(items.drop_last(), sep) + sep + items.last()
    }
}

fn add_piece(piece: &str, any: bool, text: String, Ghost(done): Ghost<Seq<Seq<char>>>) -> (r: (bool, String))
    requires
        any == (findings_of(done).len() > 0),
        text@ == joined(findings_of(done), ", "@),
    ensures
        r.0 == (findings_of(done.push(piece@)).len() > 0),
        r.1@ == joined(findings_of(done.push(piece@)), ", "@),
{
    proof {
        reveal_strlit(", ");
    }
    let ghost pv = piece@;
    let plen = piece.unicode_len();
    let line = if plen > 0 && piece.get_char(plen - 1) == '\r' {
        piece.substring_char(0, plen - 1)
    } else {
        piece
    };
    assert(line@ == strip_cr(pv)) by {
        if plen > 0 && pv.last() == '\r' {
            assert(line@ =~= pv.drop_last());
        }
    }
    assert(done.push(pv).drop_last() =~= done);
    let mut text = text;
    let mut any = any;
    if line.unicode_len() > 0 {
        if any {
            text.append(", ");
        }
        text.append(line);
        any = true;
        proof {
            let f = findings_of(done);
            assert(findings_of(done.push(pv)) == f.push(line@));
            assert(f.push(line@).drop_last() =~= f);
            if f.len() == 0 {
                assert(text@ =~= joined(f.push(line@), ", "@));
            }
        }
    }
    (any, text)
}

/// The non-empty output lines, each a finding, and their display text.
fn findings(out: &str) -> (r: (bool, String))
    ensures
        r.0 == (findings_of(split_lines(out@)).len() > 0),
        r.1@ == joined(findings_of(split_lines(out@)), ", "@),
{
    let n = out.unicode_len();
    let mut any = false;
    let mut text = String::new();
    let ghost mut done: Seq<Seq<char>> = Seq::empty();
    let mut start: usize = 0;
    let mut i: usize = 0;
    assert(out@.subrange(0, 0) =~= Seq::<char>::empty());
    while i < n
        invariant
            n == out@.len(),
            start <= i,
            i <= n,
            split_lines(out@.subrange(0, i as int)) == done.push(out@.subrange(start as int, i as int)),
            any == (findings_of(done).len() > 0),
            text@ == joined(findings_of(done), ", "@),
        decreases n - i,
    {
        let pre = Ghost(out@.subrange(0, i + 1));
        assert(pre@.drop_last() =~= out@.subrange(0, i as int));
        if out.get_char(i) == '\n' {
            let piece = out.substring_char(start, i);
            let r = add_piece(piece, any, text, Ghost(done));
            any = r.0;
            text = r.1;
            proof {
                done = done.push(piece@);
                assert(out@.subrange(i + 1, i + 1) =~= Seq::<char>::empty());
            }
            start = i + 1;
        } else {
            proof {
                let cur = out@.subrange(start as int, i as int);
                assert(out@.subrange(start as int, i + 1) =~= cur.push(out@[i as int]));
            }
        }
        i = i + 1;
    }
    assert(out@.subrange(0, n as int) =~= out@);
    let piece = out.substring_char(start, n);
    add_piece(piece, any, text, Ghost(done))
}

/// The text of an exit code.
pub open spec fn int_text(c: int) -> Seq<char> {
    if c < 0 {
        "-"@ + decimal((-c) as nat)
    } else {
        decimal(c as nat)
    }
}

fn push_int(out: &mut String, c: i32)
    ensures
        final(out)@ == old(out)@ + int_text(c as int),
{
    if c < 0 {
        out.append("-");
        push_decimal(out, (-(c as i64)) as u64);
    } else {
        push_decimal(out, c as u64);
    }
}

/// What an assertion in check mode reports when its command failed.
pub open spec fn exit_detail(message: Option<Seq<char>>, code: int, stderr: Seq<char>) -> Seq<char> {
    match message {
        Some(m) => m,
        None => "exit "@ + int_text(code) + ": "@ + trimmed(stderr),
    }
}

/// What an assertion reports when a stream does not match its pattern.
pub open spec fn mismatch_detail(message: Option<Seq<char>>, stream: Seq<char>, text: Seq<char>, pattern: Seq<char>) -> Seq<char> {
    match message {
        Some(m) => m,
        None => stream + " '"@ + trimmed(text) + "' doesn't match '"@ + pattern + "'"@,
    }
}

/// The outcome of an assertion, given how its command ended: `Ok(None)` when
/// it holds, `Ok(Some(detail))` when it does not, `Err(p)` when pattern `p`
/// does not compile.
pub open spec fn assertion_outcome(
    mode: AssertMode,
    stdout_pattern: Option<Seq<char>>,
    stderr_pattern: Option<Seq<char>>,
    message: Option<Seq<char>>,
    success: bool,
    code: int,
    stdout: Seq<char>,
    stderr: Seq<char>,
) -> Result<Option<Seq<char>>, Seq<char>> {
    if mode == AssertMode::Foreach {
        let fs = findings_of(split_lines(stdout));
        if fs.len() == 0 {
            Ok(None)
        } else {
            Ok(Some(joined(fs, ", "@)))
        }
    } else if !success {
        Ok(Some(exit_detail(message, code, stderr)))
    } else {
        let out_check: Result<bool, Seq<char>> = match stdout_pattern {
            None => Ok(true),
            Some(p) => match regex_match(p, stdout) {
                None => Err(p),
                Some(m) => Ok(m),
            },
        };
        match out_check {
            Err(p) => Err(p),
            Ok(false) => Ok(Some(mismatch_detail(message, "stdout"@, stdout, stdout_pattern->Some_0))),
            Ok(true) => match stderr_pattern {
                None => Ok(None),
                Some(p) => match regex_match(p, stderr) {
                    None => Err(p),
                    Some(true) => Ok(None),
                    Some(false) => Ok(Some(mismatch_detail(message, "stderr"@, stderr, p))),
                },
            },
        }
    }
}

fn mismatch(message: &Option<String>, stream: &str, text: &str, pattern: &String) -> (r: String)
    ensures
        r@ == mismatch_detail(opt_view(*message), stream@, text@, pattern@),
{
    match message {
        Some(m) => m.clone(),
        None => {
            let mut r = String::from_str(stream);
            r.append(" '");
            let t = trim_text(text);
            r.append(t.as_str());
            r.append("' doesn't match '");
            r.append(pattern.as_str());
            r.append("'");
            r
        },
    }
}

impl Assertion {
    /// Judges the assertion from its command's exit status and output.
    pub fn judge(&self, success: bool, code: i32, stdout: &str, stderr: &str) -> (r: Result<CheckResult, AssertError>)
        ensures
            match assertion_outcome(
                self.mode,
                opt_view(self.stdout_pattern),
                opt_view(self.stderr_pattern),
                opt_view(self.message),
                success,
                code as int,
                stdout@,
                stderr@,
            ) {
                Ok(None) => r is Ok && r->Ok_0 is Satisfied,
                Ok(Some(d)) => r is Ok && r->Ok_0 is Missing && r->Ok_0->detail@ == d,
                Err(p) => r is Err && r->Err_0->pattern@ == p,
            },
    {
        if self.mode == AssertMode::Foreach {
            let (any, text) = findings(stdout);
            if !any {
                return Ok(CheckResult::Satisfied);
            }
            return Ok(CheckResult::Missing { detail: text });
        }
        if !success {
            let detail = match &self.message {
                Some(m) => m.clone(),
                None => {
                    let mut d = String::from_str("exit ");
                    push_int(&mut d, code);
                    d.append(": ");
                    let t = trim_text(stderr);
                    d.append(t.as_str());
                    d
                },
            };
            return Ok(CheckResult::Missing { detail });
        }
        match &self.stdout_pattern {
            Some(p) => match regex_is_match(p.as_str(), stdout) {
                None => return Err(AssertError::InvalidPattern { pattern: p.clone() }),
                Some(false) => return Ok(CheckResult::Missing { detail: mismatch(&self.message, "stdout", stdout, p) }),
                Some(true) => {},
            },
            None => {},
        }
        match &self.stderr_pattern {
            Some(p) => match regex_is_match(p.as_str(), stderr) {
                None => Err(AssertError::InvalidPattern { pattern: p.clone() }),
                Some(false) => Ok(CheckResult::Missing { detail: mismatch(&self.message, "stderr", stderr, p) }),
                Some(true) => Ok(CheckResult::Satisfied),
            },
            None => Ok(CheckResult::Satisfied),
        }
    }
}

} // verus!
