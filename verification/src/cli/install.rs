//! `install` / `uninstall`: the commands that put the renderer into the coding
//! agent's `settings.json` (or behind a tokenwatch wrap pointer) and take it
//! out again.
//!
//! Windows requires the statusLine command to follow the `<interpreter>
//! <script>` shape, so on that platform a tiny `.mjs` wrapper sits beside the
//! binary; POSIX uses the bare binary path, single-quoted so paths with
//! spaces survive the agent's shell parse.

use vstd::prelude::*;

use crate::config::invalid_with;
use crate::error::Error;
use crate::render::color::seq_eq;
use crate::text::{chars_of, digit_char, hex_char, starts_with, is_whitespace, is_ws, occurs_at, occurs_at_exec, push_str};

verus! {

pub const EXE_BASENAME_WINDOWS: &'static str = "ccstatusline-rs.exe";
pub const EXE_BASENAME_POSIX: &'static str = "ccstatusline-rs";
pub const WRAPPER_BASENAME: &'static str = "ccstatusline-rs.mjs";
pub const BACKUP_INFIX: &'static str = ".ccstatusline-rs-bak-";
pub const TOKENWATCH_BASENAME: &'static str = "tokenwatch-statusline.mjs";
/// File name of the tokenwatch wrap pointer, a sibling of `settings.json`.
pub const TW_PREV_BASENAME: &'static str = ".tw-statusline-prev.json";

#[derive(Clone, Copy, PartialEq, Eq, Structural, Debug)]
pub enum Platform {
    Windows,
    Posix,
}

/// `std::path::MAIN_SEPARATOR`, the primary path separator of the platform
/// the code was built for. The contract states nothing of it: it depends on
/// the build target.
#[verifier::external_body]
fn main_separator() -> (c: char) {
    std::path::MAIN_SEPARATOR
}

impl Platform {
    /// The platform whose primary path separator is `sep`: backslash is
    /// Windows, anything else POSIX.
    pub fn from_separator(sep: char) -> (p: Platform)
        ensures
            (p == Platform::Windows) == (sep == '\\'),
    {
        if sep == '\\' {
            Platform::Windows
        } else {
            Platform::Posix
        }
    }

    /// The platform this binary runs on.
    pub fn current() -> (p: Platform) {
        Platform::from_separator(main_separator())
    }

    pub open spec fn spec_exe_basename(self) -> Seq<char> {
        match self {
            Platform::Windows => EXE_BASENAME_WINDOWS@,
            Platform::Posix => EXE_BASENAME_POSIX@,
        }
    }

    /// File name of the installed binary.
    pub fn exe_basename(self) -> (s: &'static str)
        ensures
            s@ == self.spec_exe_basename(),
    {
        match self {
            Platform::Windows => EXE_BASENAME_WINDOWS,
            Platform::Posix => EXE_BASENAME_POSIX,
        }
    }

    pub open spec fn spec_ours_basename(self) -> Seq<char> {
        match self {
            Platform::Windows => WRAPPER_BASENAME@,
            Platform::Posix => EXE_BASENAME_POSIX@,
        }
    }

    /// File name that a statusLine command of ours ends in: the `.mjs`
    /// wrapper on Windows, the bare binary on POSIX.
    pub fn ours_basename(self) -> (s: &'static str)
        ensures
            s@ == self.spec_ours_basename(),
    {
        match self {
            Platform::Windows => WRAPPER_BASENAME,
            Platform::Posix => EXE_BASENAME_POSIX,
        }
    }
}

// ---------- POSIX single quoting ----------

pub open spec fn quote_char(c: char) -> Seq<char> {
    if c == '\'' {
        seq!['\'', '\\', '\'', '\'']
    } else {
        seq![c]
    }
}

/// The text between the outer quotes: every apostrophe becomes `'\''`
/// (close, escaped apostrophe, reopen).
pub open spec fn quote_body(s: Seq<char>) -> Seq<char>
    decreases s.len(),
{
    if s.len() == 0 {
        seq![]
    } else {
        quote_body(s.drop_last()) + quote_char(s.last())
    }
}

/// `s` as one single-quoted POSIX shell word.
pub open spec fn shell_quote(s: Seq<char>) -> Seq<char> {
    seq!['\''] + quote_body(s) + seq!['\'']
}

/// How a POSIX shell reads a word made of single-quoted runs and
/// backslash-escaped characters; `quoted` says whether a single-quoted run
/// is open. `None` when the text is not such a word.
pub open spec fn shell_word(t: Seq<char>, quoted: bool) -> Option<Seq<char>>
    decreases t.len(),
{
    if t.len() == 0 {
        if quoted {
            None
        } else {
            Some(seq![])
        }
    } else if quoted {
        if t[0] == '\'' {
            shell_word(t.drop_first(), false)
        } else {
            match shell_word(t.drop_first(), true) {
                Some(r) => Some(seq![t[0]] + r),
                None => None,
            }
        }
    } else if t[0] == '\'' {
        shell_word(t.drop_first(), true)
    } else if t[0] == '\\' && t.len() >= 2 {
        match shell_word(t.subrange(2, t.len() as int), false) {
            Some(r) => Some(seq![t[1]] + r),
            None => None,
        }
    } else {
        None
    }
}

proof fn lemma_quote_body_concat(a: Seq<char>, b: Seq<char>)
    ensures
        quote_body(a + b) == quote_body(a) + quote_body(b),
    decreases b.len(),
{
    if b.len() == 0 {
        assert(a + b =~= a);
        assert(quote_body(a) + quote_body(b) =~= quote_body(a));
    } else {
        lemma_quote_body_concat(a, b.drop_last());
        assert((a + b).drop_last() =~= a + b.drop_last());
        assert((a + b).last() == b.last());
        assert(quote_body(a + b) == quote_body(a + b.drop_last()) + quote_char(b.last()));
        assert(quote_body(a) + quote_body(b) =~= quote_body(a) + quote_body(b.drop_last())
            + quote_char(b.last()));
    }
}

proof fn lemma_quote_body_first(s: Seq<char>)
    requires
        s.len() > 0,
    ensures
        quote_body(s) == quote_char(s[0]) + quote_body(s.drop_first()),
{
    assert(s =~= seq![s[0]] + s.drop_first());
    lemma_quote_body_concat(seq![s[0]], s.drop_first());
    let one = seq![s[0]];
    assert(one.drop_last() =~= Seq::<char>::empty());
    assert(one.last() == s[0]);
    assert(quote_body(one) == quote_body(one.drop_last()) + quote_char(one.last()));
    assert(quote_body(Seq::<char>::empty()) + quote_char(s[0]) =~= quote_char(s[0]));
}

proof fn lemma_read_quoted(s: Seq<char>, rest: Seq<char>)
    ensures
        shell_word(quote_body(s) + seq!['\''] + rest, true) == match shell_word(rest, false) {
            Some(r) => Some(s + r),
            None => None::<Seq<char>>,
        },
    decreases s.len(),
{
    let t = quote_body(s) + seq!['\''] + rest;
    if s.len() == 0 {
        assert(t =~= seq!['\''] + rest);
        assert(t[0] == '\'');
        assert(t.drop_first() =~= rest);
        assert(shell_word(t, true) == shell_word(rest, false));
        match shell_word(rest, false) {
            Some(r) => assert(s + r =~= r),
            None => {},
        }
    } else {
        let c = s[0];
        let s1 = s.drop_first();
        lemma_quote_body_first(s);
        lemma_read_quoted(s1, rest);
        let t1 = quote_body(s1) + seq!['\''] + rest;
        if c == '\'' {
            assert(t =~= seq!['\'', '\\', '\''] + (seq!['\''] + t1));
            assert(t[0] == '\'');
            let u = t.drop_first();
            assert(u =~= seq!['\\', '\''] + (seq!['\''] + t1));
            assert(shell_word(t, true) == shell_word(u, false));
            assert(u[0] == '\\' && u[1] == '\'' && u.len() >= 2);
            let w = u.subrange(2, u.len() as int);
            assert(w =~= seq!['\''] + t1);
            assert(shell_word(u, false) == match shell_word(w, false) {
                Some(r) => Some(seq![u[1]] + r),
                None => None::<Seq<char>>,
            });
            assert(w[0] == '\'');
            assert(w.drop_first() =~= t1);
            assert(shell_word(w, false) == shell_word(t1, true));
            match shell_word(rest, false) {
                Some(r) => assert(seq![c] + (s1 + r) =~= s + r),
                None => {},
            }
        } else {
            assert(t =~= seq![c] + t1);
            assert(t[0] == c);
            assert(t.drop_first() =~= t1);
            assert(shell_word(t, true) == match shell_word(t1, true) {
                Some(r) => Some(seq![c] + r),
                None => None::<Seq<char>>,
            });
            match shell_word(rest, false) {
                Some(r) => assert(seq![c] + (s1 + r) =~= s + r),
                None => {},
            }
        }
    }
}

/// Law: a POSIX shell reads the quoted word back as exactly the given
/// text, whatever characters (spaces, apostrophes, backslashes) it holds.
pub proof fn shell_quote_reads_back(s: Seq<char>)
    ensures
        shell_word(shell_quote(s), false) == Some(s),
{
    let q = shell_quote(s);
    assert(q[0] == '\'');
    assert(q.drop_first() =~= quote_body(s) + seq!['\''] + Seq::<char>::empty());
    lemma_read_quoted(s, Seq::<char>::empty());
    assert(s + Seq::<char>::empty() =~= s);
}

/// Wrap `s` in single quotes for a POSIX shell, escaping apostrophes.
pub fn posix_shell_quote(s: &str) -> (out: String)
    ensures
        out@ == shell_quote(s@),
{
    let v = chars_of(s);
    let mut out = String::new();
    out.push('\'');
    let mut i: usize = 0;
    while i < v.len()
        invariant
            i <= v@.len(),
            v@ == s@,
            out@ == seq!['\''] + quote_body(v@.take(i as int)),
        decreases v.len() - i,
    {
        let ch = v[i];
        if ch == '\'' {
            out.push('\'');
            out.push('\\');
            out.push('\'');
            out.push('\'');
        } else {
            out.push(ch);
        }
        proof {
            assert(v@.take(i + 1).drop_last() =~= v@.take(i as int));
            assert(v@.take(i + 1).last() == ch);
            assert(out@ =~= seq!['\''] + quote_body(v@.take(i + 1)));
        }
        i += 1;
    }
    out.push('\'');
    proof {
        assert(v@.take(i as int) =~= s@);
    }
    out
}

// ---------- JSON string literals ----------

/// How a JSON string literal spells one character: quote, backslash and
/// the C0 controls are escaped (`\b \t \n \f \r`, otherwise `\u00xx` in
/// lowercase hex); everything else, non-ASCII included, stands as itself.
pub open spec fn json_escape(c: char) -> Seq<char> {
    let u = c as u32;
    if c == '"' {
        seq!['\\', '"']
    } else if c == '\\' {
        seq!['\\', '\\']
    } else if u == 0x08 {
        seq!['\\', 'b']
    } else if u == 0x09 {
        seq!['\\', 't']
    } else if u == 0x0a {
        seq!['\\', 'n']
    } else if u == 0x0c {
        seq!['\\', 'f']
    } else if u == 0x0d {
        seq!['\\', 'r']
    } else if u < 0x20 {
        seq!['\\', 'u', '0', '0', hex_char((u / 16) as nat), hex_char((u % 16) as nat)]
    } else {
        seq![c]
    }
}

pub open spec fn json_body(s: Seq<char>) -> Seq<char>
    decreases s.len(),
{
    if s.len() == 0 {
        seq![]
    } else {
        json_body(s.drop_last()) + json_escape(s.last())
    }
}

/// `s` as a JSON string literal.
pub open spec fn json_quote(s: Seq<char>) -> Seq<char> {
    seq!['"'] + json_body(s) + seq!['"']
}

/// `serde_json::to_string` on a string slice: the JSON string literal
/// for `s`, escaped as `json_escape` says. Serializing a `str` into the
/// in-memory buffer cannot fail; the fallback of an empty literal is never
/// taken.
#[verifier::external_body]
fn json_string(s: &str) -> (r: String)
    ensures
        r@ == json_quote(s@),
{
    match serde_json::to_string(s) {
        Ok(v) => v,
        Err(_) => String::from("\"\""),
    }
}

// ---------- commands ----------

/// The statusLine command for the installed renderer.
pub open spec fn compose_spec(platform: Platform, exe: Seq<char>, wrapper: Option<Seq<char>>) -> Seq<char> {
    match platform {
        Platform::Windows => {
            let target = match wrapper {
                Some(w) => w,
                None => exe,
            };
            "node "@ + json_quote(target)
        },
        Platform::Posix => shell_quote(exe),
    }
}

/// Build the statusLine command: `node "<wrapper>"` on Windows (the
/// install path always writes a wrapper; without one the binary path is
/// used), the single-quoted binary path on POSIX.
pub fn compose_command(platform: Platform, exe: &str, wrapper: Option<&str>) -> (cmd: String)
    ensures
        cmd@ == compose_spec(
            platform,
            exe@,
            match wrapper {
                Some(w) => Some(w@),
                None => None,
            },
        ),
{
    match platform {
        Platform::Windows => {
            let target = match wrapper {
                Some(w) => w,
                None => exe,
            };
            let lit = json_string(target);
            let mut out = String::new();
            push_str(&mut out, "node ");
            push_str(&mut out, lit.as_str());
            out
        },
        Platform::Posix => posix_shell_quote(exe),
    }
}

pub const WRAPPER_IMPORT: &'static str = "import { spawn } from 'node:child_process';\n";
pub const WRAPPER_SPAWN_OPEN: &'static str = "const child = spawn(";
pub const WRAPPER_SPAWN_CLOSE: &'static str = ", [], { stdio: ['inherit', 'inherit', 'inherit'] });\n";
/// `code ?? 1` keeps signal termination visible as a failure exit.
pub const WRAPPER_ON_EXIT: &'static str = "child.on('exit', code => process.exit(code ?? 1));\n";
pub const WRAPPER_ON_ERROR: &'static str = "child.on('error', err => { console.error(err); process.exit(1); });\n";

/// The Node wrapper that runs the binary with inherited stdio.
pub open spec fn wrapper_body_spec(exe: Seq<char>) -> Seq<char> {
    WRAPPER_IMPORT@ + WRAPPER_SPAWN_OPEN@ + json_quote(exe) + WRAPPER_SPAWN_CLOSE@ + WRAPPER_ON_EXIT@
        + WRAPPER_ON_ERROR@
}

/// The `.mjs` wrapper that Windows' statusLine runs through `node`: a
/// single-line import and LF-only line endings.
pub fn wrapper_body(exe: &str) -> (body: String)
    ensures
        body@ == wrapper_body_spec(exe@),
{
    let lit = json_string(exe);
    let mut out = String::new();
    push_str(&mut out, WRAPPER_IMPORT);
    push_str(&mut out, WRAPPER_SPAWN_OPEN);
    push_str(&mut out, lit.as_str());
    push_str(&mut out, WRAPPER_SPAWN_CLOSE);
    push_str(&mut out, WRAPPER_ON_EXIT);
    push_str(&mut out, WRAPPER_ON_ERROR);
    proof {
        assert(out@ =~= wrapper_body_spec(exe@));
    }
    out
}

// ---------- recognising commands ----------

/// May stand right before a basename: a path separator, a quote or
/// whitespace.
pub open spec fn before_boundary(c: char) -> bool {
    c == '\\' || c == '/' || c == '"' || c == '\'' || is_ws(c)
}

/// May stand right after a basename: a quote or whitespace.
pub open spec fn after_boundary(c: char) -> bool {
    c == '"' || c == '\'' || is_ws(c)
}

/// `base` occurs in `cmd` at `i` as a whole file name.
pub open spec fn basename_at(cmd: Seq<char>, base: Seq<char>, i: int) -> bool {
    &&& occurs_at(cmd, base, i)
    &&& (i == 0 || before_boundary(cmd[i - 1]))
    &&& (i + base.len() == cmd.len() || after_boundary(cmd[i + base.len()]))
}

pub open spec fn contains_basename_spec(cmd: Seq<char>, base: Seq<char>) -> bool {
    exists|i: int| basename_at(cmd, base, i)
}

fn before_boundary_exec(c: char) -> (b: bool)
    ensures
        b == before_boundary(c),
{
    c == '\\' || c == '/' || c == '"' || c == '\'' || is_whitespace(c)
}

fn after_boundary_exec(c: char) -> (b: bool)
    ensures
        b == after_boundary(c),
{
    c == '"' || c == '\'' || is_whitespace(c)
}

/// Whether `basename` occurs in `cmd` as a whole file name: a boundary scan
/// over every occurrence, so quoted Windows paths with spaces match and
/// longer names such as `my-tokenwatch-statusline.mjs` do not.
pub fn contains_basename(cmd: &str, basename: &str) -> (b: bool)
    ensures
        b == contains_basename_spec(cmd@, basename@),
{
    let v = chars_of(cmd);
    let p = chars_of(basename);
    let mut i: usize = 0;
    loop
        invariant
            v@ == cmd@,
            p@ == basename@,
            i <= v@.len(),
            forall|j: int| 0 <= j < i ==> !basename_at(v@, p@, j),
        ensures
            i == v@.len(),
            forall|j: int| 0 <= j <= i ==> !basename_at(v@, p@, j),
        decreases v.len() - i,
    {
        if occurs_at_exec(v.as_slice(), p.as_slice(), i) {
            let end = i + p.len();
            let before_ok = i == 0 || before_boundary_exec(v[i - 1]);
            let after_ok = end == v.len() || after_boundary_exec(v[end]);
            if before_ok && after_ok {
                proof {
                    assert(basename_at(v@, p@, i as int));
                }
                return true;
            }
        }
        if i == v.len() {
            break;
        }
        i += 1;
    }
    proof {
        assert forall|j: int| !basename_at(v@, p@, j) by {
            if 0 <= j <= i {
            } else if j > i {
                assert(!occurs_at(v@, p@, j));
            }
        }
    }
    false
}

pub open spec fn is_tokenwatch_spec(cmd: Seq<char>) -> bool {
    contains_basename_spec(cmd, TOKENWATCH_BASENAME@)
}

/// The command runs neo-mem's tokenwatch statusline script.
pub fn is_tokenwatch_command(cmd: &str) -> (b: bool)
    ensures
        b == is_tokenwatch_spec(cmd@),
{
    contains_basename(cmd, TOKENWATCH_BASENAME)
}

pub open spec fn is_ours_spec(platform: Platform, cmd: Seq<char>) -> bool {
    contains_basename_spec(cmd, platform.spec_ours_basename())
}

/// The command runs this renderer, from whatever directory it was
/// installed in.
pub fn is_ours_wrap_command(platform: Platform, cmd: &str) -> (b: bool)
    ensures
        b == is_ours_spec(platform, cmd@),
{
    contains_basename(cmd, platform.ours_basename())
}

// ---------- settings backups ----------

/// Three-digit, zero-padded rendering of a counter below 1000.
pub open spec fn pad3(n: nat) -> Seq<char> {
    seq![digit_char((n / 100) % 10), digit_char((n / 10) % 10), digit_char(n % 10)]
}

/// Every backup of `<stem>` starts with this.
pub open spec fn backup_prefix(stem: Seq<char>) -> Seq<char> {
    stem + BACKUP_INFIX@
}

/// `<stem>.ccstatusline-rs-bak-<ts>-<nnn>`.
pub open spec fn backup_name_spec(stem: Seq<char>, ts: Seq<char>, n: nat) -> Seq<char> {
    backup_prefix(stem) + ts + seq!['-'] + pad3(n)
}

/// Counter `n` gives the first backup name not yet taken.
pub open spec fn first_free(names: Seq<String>, stem: Seq<char>, ts: Seq<char>, n: nat) -> bool {
    &&& n <= 999
    &&& !name_taken(names, backup_name_spec(stem, ts, n))
    &&& forall|m: nat| m < n ==> name_taken(names, #[trigger] backup_name_spec(stem, ts, m))
}

/// `name` is the first backup name not yet taken.
pub open spec fn is_next_backup(names: Seq<String>, stem: Seq<char>, ts: Seq<char>, name: Seq<char>) -> bool {
    exists|n: nat| #[trigger] first_free(names, stem, ts, n) && name == backup_name_spec(stem, ts, n)
}

/// A file of that name already sits in the directory.
pub open spec fn name_taken(names: Seq<String>, name: Seq<char>) -> bool {
    exists|j: int| 0 <= j < names.len() && (#[trigger] names[j])@ == name
}

pub open spec fn no_file_name_msg() -> Seq<char> {
    "settings path has no file name"@
}

pub open spec fn exhausted_msg(ts: Seq<char>) -> Seq<char> {
    "exhausted backup counter at "@ + ts + " (>=1000 in same second)"@
}

fn no_file_name() -> (e: Error)
    ensures
        invalid_with(e, no_file_name_msg()),
{
    let mut m = String::new();
    push_str(&mut m, "settings path has no file name");
    Error::InvalidConfig { reason: m }
}

fn contains_name(names: &[String], name: &[char]) -> (b: bool)
    ensures
        b == name_taken(names@, name@),
{
    let mut j: usize = 0;
    while j < names.len()
        invariant
            j <= names@.len(),
            forall|k: int| 0 <= k < j ==> (#[trigger] names@[k])@ != name@,
        decreases names.len() - j,
    {
        let v = chars_of(names[j].as_str());
        if seq_eq(v.as_slice(), name) {
            return true;
        }
        j += 1;
    }
    false
}

/// The name of the next settings backup: the first counter from `000` to
/// `999` whose name is not among the directory's `existing` file names.
/// A settings path without a file name (`stem` is `None`) and a second
/// with all thousand names taken are refused.
pub fn next_backup_name(stem: Option<&str>, ts: &str, existing: &[String]) -> (r: Result<String, Error>)
    ensures
        match stem {
            None => r is Err && invalid_with(r->Err_0, no_file_name_msg()),
            Some(st) => match r {
                Ok(name) => is_next_backup(existing@, st@, ts@, name@),
                Err(e) => invalid_with(e, exhausted_msg(ts@)) && forall|m: nat|
                    m <= 999 ==> name_taken(existing@, #[trigger] backup_name_spec(st@, ts@, m)),
            },
        },
{
    let st = match stem {
        None => return Err(no_file_name()),
        Some(st) => st,
    };
    let mut n: u32 = 0;
    while n <= 999
        invariant
            stem == Some(st),
            n <= 1000,
            forall|m: nat| m < n ==> name_taken(existing@, #[trigger] backup_name_spec(st@, ts@, m)),
        decreases 1000 - n,
    {
        let mut name = String::new();
        push_str(&mut name, st);
        push_str(&mut name, BACKUP_INFIX);
        push_str(&mut name, ts);
        name.push('-');
        name.push((((n / 100) % 10) as u8 + 48) as char);
        name.push((((n / 10) % 10) as u8 + 48) as char);
        name.push(((n % 10) as u8 + 48) as char);
        proof {
            assert(name@ =~= backup_name_spec(st@, ts@, n as nat));
        }
        let v = chars_of(name.as_str());
        if !contains_name(existing, v.as_slice()) {
            proof {
                let k: nat = n as nat;
                assert(first_free(existing@, st@, ts@, k));
                assert(name@ == backup_name_spec(st@, ts@, k));
                assert(is_next_backup(existing@, st@, ts@, name@));
            }
            return Ok(name);
        }
        n += 1;
    }
    let mut m = String::new();
    push_str(&mut m, "exhausted backup counter at ");
    push_str(&mut m, ts);
    push_str(&mut m, " (>=1000 in same second)");
    proof {
        assert(m@ =~= exhausted_msg(ts@));
    }
    Err(Error::InvalidConfig { reason: m })
}

/// Lexicographic order of character sequences (by code point, which for
/// UTF-8 text is also the order of the bytes).
pub open spec fn seq_lt(a: Seq<char>, b: Seq<char>) -> bool
    decreases a.len(),
{
    if a.len() == 0 {
        b.len() > 0
    } else if b.len() == 0 {
        false
    } else if a[0] != b[0] {
        let (x, y) = (a[0], b[0]);
        x < y
    } else {
        seq_lt(a.drop_first(), b.drop_first())
    }
}

proof fn lemma_lt_total(a: Seq<char>, b: Seq<char>)
    ensures
        seq_lt(a, b) || a == b || seq_lt(b, a),
    decreases a.len(),
{
    if a.len() > 0 && b.len() > 0 && a[0] == b[0] {
        lemma_lt_total(a.drop_first(), b.drop_first());
        if a.drop_first() == b.drop_first() {
            assert forall|i: int| 0 <= i < a.len() implies a[i] == b[i] by {
                if i > 0 {
                    assert(a[i] == a.drop_first()[i - 1]);
                    assert(b[i] == b.drop_first()[i - 1]);
                }
            }
            assert(a =~= b);
        }
    } else if a.len() == 0 && b.len() == 0 {
        assert(a =~= b);
    }
}

proof fn lemma_lt_asym(a: Seq<char>, b: Seq<char>)
    ensures
        !(seq_lt(a, b) && seq_lt(b, a)),
        !seq_lt(a, a),
    decreases a.len(),
{
    if a.len() > 0 && b.len() > 0 && a[0] == b[0] {
        lemma_lt_asym(a.drop_first(), b.drop_first());
    }
    if a.len() > 0 {
        lemma_lt_asym(a.drop_first(), a.drop_first());
    }
}

proof fn lemma_lt_trans(a: Seq<char>, b: Seq<char>, c: Seq<char>)
    requires
        seq_lt(a, b),
        seq_lt(b, c),
    ensures
        seq_lt(a, c),
    decreases a.len(),
{
    if a.len() > 0 && b.len() > 0 && c.len() > 0 && a[0] == b[0] && b[0] == c[0] {
        lemma_lt_trans(a.drop_first(), b.drop_first(), c.drop_first());
    }
}

fn lt_from(a: &[char], b: &[char], k: usize) -> (r: bool)
    requires
        k <= a@.len(),
        k <= b@.len(),
    ensures
        r == seq_lt(a@.skip(k as int), b@.skip(k as int)),
    decreases a.len() - k,
{
    if k == a.len() {
        return k < b.len();
    }
    if k == b.len() {
        return false;
    }
    proof {
        assert(a@.skip(k as int)[0] == a@[k as int]);
        assert(b@.skip(k as int)[0] == b@[k as int]);
    }
    let x = a[k];
    let y = b[k];
    if x != y {
        return x < y;
    }
    proof {
        assert(a@.skip(k as int).drop_first() =~= a@.skip(k + 1));
        assert(b@.skip(k as int).drop_first() =~= b@.skip(k + 1));
    }
    lt_from(a, b, k + 1)
}

fn str_lt(a: &str, b: &str) -> (r: bool)
    ensures
        r == seq_lt(a@, b@),
{
    let va = chars_of(a);
    let vb = chars_of(b);
    proof {
        assert(va@.skip(0) =~= va@);
        assert(vb@.skip(0) =~= vb@);
    }
    lt_from(va.as_slice(), vb.as_slice(), 0)
}

fn has_prefix(s: &str, prefix: &[char]) -> (b: bool)
    ensures
        b == starts_with(s@, prefix@),
{
    let v = chars_of(s);
    occurs_at_exec(v.as_slice(), prefix, 0)
}

/// `found` is the most recent backup of `stem` among `names`: the index of
/// a greatest backup name, or `None` when no name is a backup.
pub open spec fn is_latest_backup(names: Seq<String>, stem: Seq<char>, found: Option<usize>) -> bool {
    match found {
        Some(i) => i < names.len() && starts_with(names[i as int]@, backup_prefix(stem)) && forall|j: int|
            0 <= j < names.len() && starts_with((#[trigger] names[j])@, backup_prefix(stem)) ==> !seq_lt(
                names[i as int]@,
                names[j]@,
            ),
        None => forall|j: int| 0 <= j < names.len() ==> !starts_with((#[trigger] names[j])@, backup_prefix(stem)),
    }
}

/// The most recent settings backup among a directory's file names: the
/// greatest name, in lexicographic order, that starts with
/// `<stem>.ccstatusline-rs-bak-` (timestamp and counter then order the
/// backups by age). A settings path without a file name is refused.
pub fn latest_backup(stem: Option<&str>, names: &[String]) -> (r: Result<Option<usize>, Error>)
    ensures
        match stem {
            None => r is Err && invalid_with(r->Err_0, no_file_name_msg()),
            Some(st) => match r {
                Ok(o) => is_latest_backup(names@, st@, o),
                Err(_) => false,
            },
        },
{
    let st = match stem {
        None => return Err(no_file_name()),
        Some(st) => st,
    };
    let mut pre = String::new();
    push_str(&mut pre, st);
    push_str(&mut pre, BACKUP_INFIX);
    let pv = chars_of(pre.as_str());
    let ghost prefix = backup_prefix(st@);
    assert(pv@ == prefix);
    let mut best: Option<usize> = None;
    let mut j: usize = 0;
    while j < names.len()
        invariant
            j <= names@.len(),
            pv@ == prefix,
            match best {
                Some(i) => i < j && starts_with(names@[i as int]@, prefix) && forall|k: int|
                    0 <= k < j && starts_with((#[trigger] names@[k])@, prefix) ==> !seq_lt(
                        names@[i as int]@,
                        names@[k]@,
                    ),
                None => forall|k: int| 0 <= k < j ==> !starts_with((#[trigger] names@[k])@, prefix),
            },
        decreases names.len() - j,
    {
        if has_prefix(names[j].as_str(), pv.as_slice()) {
            match best {
                None => {
                    proof {
                        lemma_lt_asym(names@[j as int]@, names@[j as int]@);
                    }
                    best = Some(j);
                },
                Some(i) => {
                    if str_lt(names[i].as_str(), names[j].as_str()) {
                        proof {
                            let nj = names@[j as int]@;
                            let ni = names@[i as int]@;
                            assert forall|k: int|
                                0 <= k < j + 1 && starts_with((#[trigger] names@[k])@, prefix)
                                    implies !seq_lt(nj, names@[k]@) by {
                                let nk = names@[k]@;
                                lemma_lt_asym(nj, nk);
                                if k < j {
                                    lemma_lt_total(ni, nk);
                                    if seq_lt(nk, ni) {
                                        lemma_lt_trans(nk, ni, nj);
                                        lemma_lt_asym(nk, nj);
                                    }
                                }
                            }
                        }
                        best = Some(j);
                    } else {
                        proof {
                            let ni = names@[i as int]@;
                            assert forall|k: int|
                                0 <= k < j + 1 && starts_with((#[trigger] names@[k])@, prefix)
                                    implies !seq_lt(ni, names@[k]@) by {
                            }
                        }
                    }
                },
            }
        }
        j += 1;
    }
    Ok(best)
}

// ---------- install ----------

#[derive(Clone, Copy, PartialEq, Eq, Structural, Debug)]
pub enum InstallMode {
    /// `statusLine` points straight at the renderer.
    Direct,
    /// `statusLine` stays tokenwatch's; the wrap pointer names the renderer.
    Wrap,
}

pub open spec fn opt_str(o: Option<&str>) -> Option<Seq<char>> {
    match o {
        Some(s) => Some(s@),
        None => None,
    }
}

pub open spec fn install_mode_spec(settings_command: Option<Seq<char>>) -> InstallMode {
    match settings_command {
        Some(c) => if is_tokenwatch_spec(c) {
            InstallMode::Wrap
        } else {
            InstallMode::Direct
        },
        None => InstallMode::Direct,
    }
}

/// Wrap mode when the current `statusLine.command` is tokenwatch; direct
/// mode for no command, an empty one or any other (which is replaced, and
/// recorded as the previous command).
pub fn install_mode(settings_command: Option<&str>) -> (m: InstallMode)
    ensures
        m == install_mode_spec(opt_str(settings_command)),
{
    match settings_command {
        Some(c) => if is_tokenwatch_command(c) {
            InstallMode::Wrap
        } else {
            InstallMode::Direct
        },
        None => InstallMode::Direct,
    }
}

/// What the tokenwatch wrap pointer file holds.
#[derive(Clone, Debug)]
pub enum PrevFile {
    /// No such file (or an empty one).
    Absent,
    /// The file is not the JSON object `{ "command": ... }`.
    Unparsable,
    Parsed { command: String },
}

/// The wrap pointer names this renderer.
pub open spec fn prev_ours(platform: Platform, prev: PrevFile) -> bool {
    match prev {
        PrevFile::Parsed { command } => is_ours_spec(platform, command@),
        _ => false,
    }
}

/// Whether the wrap pointer (read again just before it is removed) still
/// names this renderer.
pub fn wrap_pointer_is_ours(platform: Platform, prev: &PrevFile) -> (b: bool)
    ensures
        b == prev_ours(platform, *prev),
{
    match prev {
        PrevFile::Parsed { command } => is_ours_wrap_command(platform, command.as_str()),
        _ => false,
    }
}

fn owned(s: &str) -> (r: String)
    ensures
        r@ == s@,
{
    let mut r = String::new();
    push_str(&mut r, s);
    r
}

/// Wrap-mode install, before the pointer is written: an absent pointer is
/// fine, one of ours (from any bin dir) is replaced and its command
/// reported, an unreadable one or one naming another tool is refused.
pub fn check_wrap_pointer(platform: Platform, prev_path: &str, prev: &PrevFile) -> (r: Result<Option<String>, Error>)
    ensures
        match *prev {
            PrevFile::Absent => r matches Ok(None),
            PrevFile::Unparsable => r matches Err(Error::InvalidPrev { path }) && path@ == prev_path@,
            PrevFile::Parsed { command } => if is_ours_spec(platform, command@) {
                r matches Ok(Some(c)) && c@ == command@
            } else {
                r matches Err(Error::WrapConflict { path, existing_command }) && path@ == prev_path@
                    && existing_command@ == command@
            },
        },
{
    match prev {
        PrevFile::Absent => Ok(None),
        PrevFile::Unparsable => Err(Error::InvalidPrev { path: owned(prev_path) }),
        PrevFile::Parsed { command } => {
            if is_ours_wrap_command(platform, command.as_str()) {
                Ok(Some(command.clone()))
            } else {
                Err(Error::WrapConflict { path: owned(prev_path), existing_command: command.clone() })
            }
        },
    }
}

/// The binary is copied unless the destination is the running binary
/// itself, or (without `--force`) already holds the same bytes.
pub open spec fn copy_binary_spec(same_file: bool, dest_exists: bool, force: bool, contents_equal: bool) -> bool {
    !same_file && !(dest_exists && !force && contents_equal)
}

/// Whether `install` copies the binary, as [`copy_binary_spec`] says.
pub fn should_copy_binary(same_file: bool, dest_exists: bool, force: bool, contents_equal: bool) -> (b: bool)
    ensures
        b == copy_binary_spec(same_file, dest_exists, force, contents_equal),
{
    if same_file {
        false
    } else {
        !(dest_exists && !force && contents_equal)
    }
}

/// Path components, under the home directory, of the default bin dir:
/// `bin` on Windows, `.local/bin` on POSIX.
pub fn default_bin_dir_parts(platform: Platform) -> (parts: Vec<&'static str>)
    ensures
        match platform {
            Platform::Windows => parts@.len() == 1 && parts@[0]@ == "bin"@,
            Platform::Posix => parts@.len() == 2 && parts@[0]@ == ".local"@ && parts@[1]@ == "bin"@,
        },
{
    let mut parts: Vec<&'static str> = Vec::new();
    match platform {
        Platform::Windows => parts.push("bin"),
        Platform::Posix => {
            parts.push(".local");
            parts.push("bin");
        },
    }
    parts
}

/// File names, in the bin dir, that `uninstall --purge-binary` deletes
/// when present: the installed binary and the `.mjs` wrapper, nothing else.
pub fn purge_targets(platform: Platform) -> (names: Vec<&'static str>)
    ensures
        names@.len() == 2,
        names@[0]@ == platform.spec_exe_basename(),
        names@[1]@ == WRAPPER_BASENAME@,
{
    let mut names: Vec<&'static str> = Vec::new();
    names.push(platform.exe_basename());
    names.push(WRAPPER_BASENAME);
    names
}

/// What `install` writes once the binary is in place.
pub enum InstallPlan {
    /// Replace `statusLine` in `settings.json` with `command`; back the
    /// settings file up first when it exists.
    Direct { command: String, backup_settings: bool },
    /// Leave `settings.json` alone and write `command` into tokenwatch's
    /// wrap pointer; `previous_wrap_command` is the pointer's earlier command
    /// (one of ours) when there was one.
    Wrap { command: String, previous_wrap_command: Option<String> },
}

/// Decide what `install` writes: the mode follows the current
/// `statusLine.command`; wrap mode first checks the pointer file (a
/// pointer naming another tool, or an unreadable one, is refused before
/// anything is written) and never touches `settings.json`.
pub fn plan_install(
    platform: Platform,
    exe: &str,
    wrapper: Option<&str>,
    settings_exists: bool,
    settings_command: Option<&str>,
    prev_path: &str,
    prev: &PrevFile,
) -> (r: Result<InstallPlan, Error>)
    ensures
        ({
            let cmd = compose_spec(platform, exe@, opt_str(wrapper));
            match install_mode_spec(opt_str(settings_command)) {
                InstallMode::Direct => r matches Ok(InstallPlan::Direct { command, backup_settings })
                    && command@ == cmd && backup_settings == settings_exists,
                InstallMode::Wrap => match *prev {
                    PrevFile::Absent => r matches Ok(InstallPlan::Wrap { command, previous_wrap_command: None })
                        && command@ == cmd,
                    PrevFile::Unparsable => r matches Err(Error::InvalidPrev { path }) && path@ == prev_path@,
                    PrevFile::Parsed { command: old } => if is_ours_spec(platform, old@) {
                        r matches Ok(InstallPlan::Wrap { command, previous_wrap_command: Some(p) })
                            && command@ == cmd && p@ == old@
                    } else {
                        r matches Err(Error::WrapConflict { path, existing_command })
                            && path@ == prev_path@ && existing_command@ == old@
                    },
                },
            }
        }),
{
    let command = compose_command(platform, exe, wrapper);
    match install_mode(settings_command) {
        InstallMode::Direct => Ok(InstallPlan::Direct { command, backup_settings: settings_exists }),
        InstallMode::Wrap => match check_wrap_pointer(platform, prev_path, prev) {
            Ok(previous_wrap_command) => Ok(InstallPlan::Wrap { command, previous_wrap_command }),
            Err(e) => Err(e),
        },
    }
}

pub const WRAP_EXPLANATION: &'static str = "settings.json untouched \u{2014} tokenwatch wrap-mode in effect";

pub struct InstallArgs {
    pub bin_dir: Option<String>,
    pub settings: Option<String>,
    pub force: bool,
}

pub struct UninstallArgs {
    pub settings: Option<String>,
    pub backup: Option<String>,
    pub bin_dir: Option<String>,
    pub purge_binary: bool,
}

/// What `install` did. Wrap mode leaves `settings.json` alone, so it has
/// no backup; it reports the pointer file instead.
pub struct InstallReport {
    pub installed: bool,
    pub mode: InstallMode,
    pub bin: String,
    pub wrapper: Option<String>,
    pub settings: String,
    pub backup: Option<String>,
    pub copied_binary: bool,
    pub previous_command: Option<String>,
    pub wrap_prev_path: Option<String>,
    pub previous_wrap_command: Option<String>,
    pub wrap_explanation: Option<String>,
}

/// A file that `--purge-binary` found but could not delete.
pub struct FailedRemoval {
    pub path: String,
    pub error: String,
}

// ---------- uninstall ----------

/// What `uninstall` undoes.
pub enum UninstallPlan {
    /// Restore `settings.json` from this backup.
    Direct { restore_from: String },
    /// Remove the wrap pointer; `settings.json` is left alone.
    Wrap,
}

/// What uninstall resolves to, before any file is touched.
pub enum UninstallOutcome {
    Direct(Seq<char>),
    Wrap,
    Stale(Seq<char>),
    NoBackup,
    NoTraces,
}

/// Mode resolution asks for positive evidence that we installed
/// something: an explicit `--backup` forces direct mode; a wrap pointer of
/// ours behind a `statusLine` that is no longer tokenwatch is stale and
/// refused first; a pointer of ours behind tokenwatch is wrap mode; a
/// settings backup, or a `statusLine` command of ours, is direct mode
/// (which then needs a backup); anything else left no trace of us.
pub open spec fn uninstall_outcome(
    platform: Platform,
    explicit_backup: Option<Seq<char>>,
    settings_command: Option<Seq<char>>,
    prev: PrevFile,
    latest_backup: Option<Seq<char>>,
) -> UninstallOutcome {
    let cmd = match settings_command {
        Some(c) => c,
        None => seq![],
    };
    match explicit_backup {
        Some(b) => UninstallOutcome::Direct(b),
        None => if prev_ours(platform, prev) && !is_tokenwatch_spec(cmd) {
            UninstallOutcome::Stale(cmd)
        } else if prev_ours(platform, prev) {
            UninstallOutcome::Wrap
        } else {
            match latest_backup {
                Some(b) => UninstallOutcome::Direct(b),
                None => if is_ours_spec(platform, cmd) {
                    UninstallOutcome::NoBackup
                } else {
                    UninstallOutcome::NoTraces
                },
            }
        },
    }
}

/// Decide what `uninstall` undoes, from the `--backup` flag, the current
/// `statusLine.command`, the wrap pointer and the newest settings backup.
pub fn plan_uninstall(
    platform: Platform,
    settings_path: &str,
    prev_path: &str,
    explicit_backup: Option<&str>,
    settings_command: Option<&str>,
    prev: &PrevFile,
    latest_backup: Option<&str>,
) -> (r: Result<UninstallPlan, Error>)
    ensures
        match uninstall_outcome(
            platform,
            opt_str(explicit_backup),
            opt_str(settings_command),
            *prev,
            opt_str(latest_backup),
        ) {
            UninstallOutcome::Direct(b) => r matches Ok(UninstallPlan::Direct { restore_from })
                && restore_from@ == b,
            UninstallOutcome::Wrap => r matches Ok(UninstallPlan::Wrap),
            UninstallOutcome::Stale(c) => r matches Err(
                Error::StaleWrapPointer { prev_path: pp, settings_command: sc },
            ) && pp@ == prev_path@ && sc@ == c,
            UninstallOutcome::NoBackup => r matches Err(Error::NoBackupFound { settings })
                && settings@ == settings_path@,
            UninstallOutcome::NoTraces => r matches Err(
                Error::NoInstallTraces { settings, prev_path: pp },
            ) && settings@ == settings_path@ && pp@ == prev_path@,
        },
{
    if let Some(b) = explicit_backup {
        return Ok(UninstallPlan::Direct { restore_from: owned(b) });
    }
    let cmd: &str = match settings_command {
        Some(c) => c,
        None => "",
    };
    proof {
        reveal_strlit("");
        let want = match opt_str(settings_command) {
            Some(c) => c,
            None => seq![],
        };
        assert(cmd@ =~= want);
    }
    let ours = wrap_pointer_is_ours(platform, prev);
    let tokenwatch = is_tokenwatch_command(cmd);
    if ours && !tokenwatch {
        return Err(Error::StaleWrapPointer { prev_path: owned(prev_path), settings_command: owned(cmd) });
    }
    if ours {
        return Ok(UninstallPlan::Wrap);
    }
    if let Some(b) = latest_backup {
        return Ok(UninstallPlan::Direct { restore_from: owned(b) });
    }
    if is_ours_wrap_command(platform, cmd) {
        Err(Error::NoBackupFound { settings: owned(settings_path) })
    } else {
        Err(Error::NoInstallTraces { settings: owned(settings_path), prev_path: owned(prev_path) })
    }
}

/// What `uninstall` did.
pub struct UninstallReport {
    pub uninstalled: bool,
    pub mode: InstallMode,
    pub settings: String,
    pub restored_from: Option<String>,
    pub removed: Vec<String>,
    pub failed_removals: Vec<FailedRemoval>,
    pub removed_wrap_prev: Option<String>,
}


// ---------- laws ----------

proof fn lemma_quote_body_plain(s: Seq<char>)
    requires
        forall|i: int| 0 <= i < s.len() ==> s[i] != '\'',
    ensures
        quote_body(s) == s,
    decreases s.len(),
{
    if s.len() > 0 {
        lemma_quote_body_plain(s.drop_last());
        assert(s.drop_last() + seq![s.last()] =~= s);
    }
}

proof fn lemma_json_body_concat(a: Seq<char>, b: Seq<char>)
    ensures
        json_body(a + b) == json_body(a) + json_body(b),
    decreases b.len(),
{
    if b.len() == 0 {
        assert(a + b =~= a);
        assert(json_body(a) + json_body(b) =~= json_body(a));
    } else {
        lemma_json_body_concat(a, b.drop_last());
        assert((a + b).drop_last() =~= a + b.drop_last());
        assert((a + b).last() == b.last());
        assert(json_body(a) + json_body(b) =~= json_body(a) + json_body(b.drop_last())
            + json_escape(b.last()));
    }
}

pub open spec fn json_plain(c: char) -> bool {
    c != '"' && c != '\\' && (c as u32) >= 0x20
}

proof fn lemma_json_body_plain(s: Seq<char>)
    requires
        forall|i: int| 0 <= i < s.len() ==> json_plain(s[i]),
    ensures
        json_body(s) == s,
    decreases s.len(),
{
    if s.len() > 0 {
        lemma_json_body_plain(s.drop_last());
        assert(json_plain(s.last()));
        assert(s.drop_last() + seq![s.last()] =~= s);
    }
}

proof fn lemma_found(cmd: Seq<char>, pre: Seq<char>, base: Seq<char>, post: Seq<char>)
    requires
        cmd == pre + base + post,
        pre.len() > 0,
        before_boundary(pre.last()),
        post.len() > 0,
        after_boundary(post[0]),
    ensures
        contains_basename_spec(cmd, base),
{
    let i = pre.len() as int;
    assert(cmd.subrange(i, i + base.len()) =~= base);
    assert(cmd[i - 1] == pre.last());
    assert(cmd[i + base.len()] == post[0]);
    assert(basename_at(cmd, base, i));
}

/// Law: the command that `install` writes is recognised as ours, from any
/// bin dir (the binary, on POSIX, or the wrapper, on Windows, sits after a
/// path separator). So a repeated or relocated wrap install finds its own
/// pointer and replaces it instead of refusing it as another tool's, and
/// `uninstall` right after a wrap install (with `statusLine` still
/// tokenwatch) resolves to wrap mode.
pub proof fn installed_command_is_ours(
    platform: Platform,
    dir: Seq<char>,
    sep: char,
    exe: Seq<char>,
    wrapper: Seq<char>,
    settings_command: Seq<char>,
    latest_backup: Option<Seq<char>>,
)
    requires
        sep == '/' || sep == '\\',
        platform == Platform::Posix ==> exe == dir + seq![sep] + EXE_BASENAME_POSIX@,
        platform == Platform::Windows ==> wrapper == dir + seq![sep] + WRAPPER_BASENAME@,
    ensures
        is_ours_spec(platform, compose_spec(platform, exe, Some(wrapper))),
        forall|c: String|
            c@ == compose_spec(platform, exe, Some(wrapper)) ==> prev_ours(
                platform,
                PrevFile::Parsed { command: c },
            ) && (is_tokenwatch_spec(settings_command) ==> uninstall_outcome(
                platform,
                None,
                Some(settings_command),
                PrevFile::Parsed { command: c },
                latest_backup,
            ) is Wrap),
{
    reveal_strlit("ccstatusline-rs");
    reveal_strlit("ccstatusline-rs.mjs");
    reveal_strlit("node ");
    let cmd = compose_spec(platform, exe, Some(wrapper));
    match platform {
        Platform::Posix => {
            let base = EXE_BASENAME_POSIX@;
            let tail = seq![sep] + base;
            assert(exe =~= dir + tail);
            lemma_quote_body_concat(dir, tail);
            assert forall|i: int| 0 <= i < tail.len() implies tail[i] != '\'' by {
                if i > 0 {
                    assert(tail[i] == base[i - 1]);
                }
            }
            lemma_quote_body_plain(tail);
            let pre = seq!['\''] + quote_body(dir) + seq![sep];
            assert(cmd =~= pre + base + seq!['\'']);
            assert(pre.last() == sep);
            lemma_found(cmd, pre, base, seq!['\'']);
        },
        Platform::Windows => {
            let base = WRAPPER_BASENAME@;
            lemma_json_body_concat(dir, seq![sep]);
            lemma_json_body_concat(dir + seq![sep], base);
            assert forall|i: int| 0 <= i < base.len() implies json_plain(base[i]) by {}
            lemma_json_body_plain(base);
            assert(seq![sep].drop_last() =~= Seq::<char>::empty());
            assert(json_body(seq![sep]) == json_body(Seq::<char>::empty()) + json_escape(sep));
            let esc = json_escape(sep);
            assert(esc.last() == sep);
            let pre = "node "@ + seq!['"'] + json_body(dir) + esc;
            assert(json_body(dir + seq![sep]) =~= json_body(dir) + esc);
            assert(cmd =~= pre + base + seq!['"']);
            assert(pre.last() == sep);
            lemma_found(cmd, pre, base, seq!['"']);
        },
    }
}


proof fn lemma_lt_common_prefix(p: Seq<char>, x: Seq<char>, y: Seq<char>)
    ensures
        seq_lt(p + x, p + y) == seq_lt(x, y),
    decreases p.len(),
{
    if p.len() == 0 {
        assert(p + x =~= x);
        assert(p + y =~= y);
    } else {
        assert((p + x)[0] == p[0]);
        assert((p + y)[0] == p[0]);
        assert((p + x).drop_first() =~= p.drop_first() + x);
        assert((p + y).drop_first() =~= p.drop_first() + y);
        lemma_lt_common_prefix(p.drop_first(), x, y);
    }
}

proof fn lemma_digit_lt(a: nat, b: nat)
    requires
        a < b < 10,
    ensures
        digit_char(a) < digit_char(b),
{
}

proof fn lemma_pad3_lt(n: nat, m: nat)
    requires
        n < m <= 999,
    ensures
        seq_lt(pad3(n), pad3(m)),
{
    let x = pad3(n);
    let y = pad3(m);
    let (n2, n1, n0) = ((n / 100) % 10, (n / 10) % 10, n % 10);
    let (m2, m1, m0) = ((m / 100) % 10, (m / 10) % 10, m % 10);
    assert(n == n2 * 100 + n1 * 10 + n0);
    assert(m == m2 * 100 + m1 * 10 + m0);
    if n2 != m2 {
        assert(n2 < m2);
        lemma_digit_lt(n2, m2);
        assert(x[0] != y[0]);
    } else {
        assert(x[0] == y[0]);
        let x1 = x.drop_first();
        let y1 = y.drop_first();
        assert(x1 =~= seq![digit_char(n1), digit_char(n0)]);
        assert(y1 =~= seq![digit_char(m1), digit_char(m0)]);
        if n1 != m1 {
            assert(n1 < m1);
            lemma_digit_lt(n1, m1);
            assert(x1[0] != y1[0]);
            assert(seq_lt(x1, y1));
        } else {
            assert(n0 < m0);
            lemma_digit_lt(n0, m0);
            let x2 = x1.drop_first();
            let y2 = y1.drop_first();
            assert(x2 =~= seq![digit_char(n0)]);
            assert(y2 =~= seq![digit_char(m0)]);
            assert(x2[0] != y2[0]);
            assert(seq_lt(x2, y2));
            assert(x1[0] == y1[0]);
            assert(seq_lt(x1, y1));
        }
        assert(seq_lt(x, y));
    }
}

/// Law: within one second, a later backup (a higher counter) sorts after
/// an earlier one, so the latest-backup lookup restores the newest.
pub proof fn later_backup_sorts_last(stem: Seq<char>, ts: Seq<char>, n: nat, m: nat)
    requires
        n < m <= 999,
    ensures
        seq_lt(backup_name_spec(stem, ts, n), backup_name_spec(stem, ts, m)),
{
    let p = backup_prefix(stem) + ts + seq!['-'];
    lemma_pad3_lt(n, m);
    lemma_lt_common_prefix(p, pad3(n), pad3(m));
}

/// What the destination holds after an install that copies from `src`
/// (a different file): `src` when the binary is copied, else what it held.
pub open spec fn binary_after_install(dest: Option<Seq<u8>>, src: Seq<u8>, force: bool) -> Option<Seq<u8>> {
    if copy_binary_spec(false, dest is Some, force, dest == Some(src)) {
        Some(src)
    } else {
        dest
    }
}

/// Law: after any install the destination holds the binary's bytes; so a
/// second install without `--force` does not copy it again, while a forced
/// one always does. The first install copies exactly when the destination
/// is missing or differs.
pub proof fn repeated_install_copies_once(dest: Option<Seq<u8>>, src: Seq<u8>)
    ensures
        copy_binary_spec(false, dest is Some, false, dest == Some(src)) == (dest != Some(src)),
        binary_after_install(dest, src, false) == Some(src),
        !copy_binary_spec(false, true, false, binary_after_install(dest, src, false) == Some(src)),
        copy_binary_spec(false, true, true, binary_after_install(dest, src, false) == Some(src)),
        binary_after_install(binary_after_install(dest, src, false), src, true) == Some(src),
{
}

/// The settings directory (file name to contents) after a direct install
/// backs `stem` up as `backup` and writes `written` in its place.
pub open spec fn files_after_install(
    files: Map<Seq<char>, Seq<u8>>,
    stem: Seq<char>,
    backup: Seq<char>,
    written: Seq<u8>,
) -> Map<Seq<char>, Seq<u8>> {
    files.insert(backup, files[stem]).insert(stem, written)
}

/// The settings directory after `uninstall` restores `stem` from `backup`.
pub open spec fn files_after_restore(files: Map<Seq<char>, Seq<u8>>, stem: Seq<char>, backup: Seq<char>) -> Map<
    Seq<char>,
    Seq<u8>,
> {
    files.insert(stem, files[backup])
}

/// Law: `install` followed by `uninstall` gives the settings file back byte
/// for byte. With no backup beside the settings file and no wrap pointer of
/// ours, the backup that install writes (the first free name) is the one
/// the latest-backup lookup finds afterwards, uninstall resolves to
/// restoring it, and the restore leaves the directory as before plus that
/// backup.
pub proof fn uninstall_undoes_install(
    platform: Platform,
    names: Seq<String>,
    files: Map<Seq<char>, Seq<u8>>,
    stem: Seq<char>,
    ts: Seq<char>,
    backup: String,
    written: Seq<u8>,
    settings_command: Option<Seq<char>>,
    prev: PrevFile,
)
    requires
        files.dom().contains(stem),
        forall|j: int| 0 <= j < names.len() ==> !starts_with((#[trigger] names[j])@, backup_prefix(stem)),
        is_next_backup(names, stem, ts, backup@),
        !prev_ours(platform, prev),
    ensures
        forall|found: Option<usize>|
            is_latest_backup(names.push(backup), stem, found) ==> (found matches Some(i) && i
                == names.len()),
        uninstall_outcome(platform, None, settings_command, prev, Some(backup@))
            == UninstallOutcome::Direct(backup@),
        files_after_restore(files_after_install(files, stem, backup@, written), stem, backup@)[stem]
            == files[stem],
        files_after_restore(files_after_install(files, stem, backup@, written), stem, backup@)
            == files.insert(backup@, files[stem]),
{
    let n = choose|n: nat| #[trigger] first_free(names, stem, ts, n) && backup@ == backup_name_spec(stem, ts, n);
    let pre = backup_prefix(stem);
    assert(backup@.subrange(0, pre.len() as int) =~= pre);
    assert(starts_with(backup@, pre));
    assert(backup@ != stem) by {
        assert(backup@.len() > stem.len());
    }
    let after = names.push(backup);
    assert forall|found: Option<usize>| is_latest_backup(after, stem, found) implies (found matches Some(i)
        && i == names.len()) by {
        match found {
            Some(i) => {
                if i < names.len() {
                    assert(after[i as int] == names[i as int]);
                }
            },
            None => {
                assert(after[names.len() as int] == backup);
            },
        }
    }
    let f1 = files_after_install(files, stem, backup@, written);
    assert(f1[backup@] == files[stem]);
    assert(files_after_restore(f1, stem, backup@) =~= files.insert(backup@, files[stem]));
}


} // verus!
