//! Git state: the parsers for `git status --porcelain=v1 --branch -z` and
//! `git diff --shortstat` output, and the probe as a state machine that
//! decides which `git` command to run next and what its output means.
//! Running `git`, the cache files and the clock are the caller's job.

use vstd::prelude::*;
use vstd::utf8::valid_utf8;
use vstd::utf8::decode_utf8;

use crate::context::payload::opt_view;
use crate::text::{chars_of, contains_seq, find_first, occurs_at, starts_with, string_of_range, trim, trim_bounds, trim_string};


verus! {

/// A snapshot of the repository that contains the working directory.
pub struct GitState {
    pub repo_root: String,
    pub branch: Option<String>,
    pub porcelain: PorcelainCounts,
    pub diff: DiffShortstat,
    /// Unix epoch seconds when the snapshot was captured.
    pub captured_at: i64,
}

/// Per-class entry counts from `git status --porcelain`.
#[derive(Clone, Copy, PartialEq, Eq, Structural, Debug, Default)]
pub struct PorcelainCounts {
    pub staged: u32,
    pub unstaged: u32,
    pub untracked: u32,
    pub conflicts: u32,
}

/// Line-level summary from `git diff --shortstat`.
#[derive(Clone, Copy, PartialEq, Eq, Structural, Debug, Default)]
pub struct DiffShortstat {
    pub insertions: u32,
    pub deletions: u32,
    pub files_changed: u32,
}

impl PorcelainCounts {
    /// No entry of any class.
    pub open spec fn spec_clean(self) -> bool {
        self.staged == 0 && self.unstaged == 0 && self.untracked == 0 && self.conflicts == 0
    }

    pub fn is_clean(&self) -> (b: bool)
        ensures
            b == self.spec_clean(),
    {
        self.staged == 0 && self.unstaged == 0 && self.untracked == 0 && self.conflicts == 0
    }
}

// ---------- splitting ----------

/// Index of the first `sep` in `s` (or `s.len()` when there is none).
pub open spec fn first_sep<T>(s: Seq<T>, sep: T) -> nat
    decreases s.len(),
{
    if s.len() == 0 {
        0
    } else if s[0] == sep {
        0
    } else {
        1 + first_sep(s.drop_first(), sep)
    }
}

pub proof fn lemma_first_sep<T>(s: Seq<T>, sep: T)
    ensures
        first_sep(s, sep) <= s.len(),
        forall|i: int| 0 <= i < first_sep(s, sep) ==> s[i] != sep,
        first_sep(s, sep) < s.len() ==> s[first_sep(s, sep) as int] == sep,
    decreases s.len(),
{
    if s.len() > 0 && s[0] != sep {
        lemma_first_sep(s.drop_first(), sep);
        assert forall|i: int| 0 <= i < first_sep(s, sep) implies s[i] != sep by {
            if i > 0 {
                assert(s[i] == s.drop_first()[i - 1]);
            }
        }
    }
}

/// The pieces of `s` between separators, as `slice::split` yields them:
/// an empty input gives one empty piece, and a trailing separator gives a
/// trailing empty piece.
pub open spec fn split_seq<T>(s: Seq<T>, sep: T) -> Seq<Seq<T>>
    decreases s.len(),
{
    let i = first_sep(s, sep);
    if i < s.len() {
        seq![s.take(i as int)] + split_seq(s.skip(i + 1 as int), sep)
    } else {
        seq![s]
    }
}

/// When `s[from..at]` holds no separator and `s[at]` is one, the first
/// piece of `s[from..]` ends at `at`.
proof fn lemma_split_step<T>(s: Seq<T>, sep: T, from: int, at: int)
    requires
        0 <= from <= at < s.len(),
        forall|j: int| from <= j < at ==> s[j] != sep,
        s[at] == sep,
    ensures
        split_seq(s.skip(from), sep) == seq![s.subrange(from, at)] + split_seq(
            s.skip(at + 1),
            sep,
        ),
{
    let t = s.skip(from);
    lemma_first_sep(t, sep);
    let i = first_sep(t, sep);
    if i < at - from {
        assert(t[i as int] == s[from + i]);
    }
    if i > at - from {
        assert(t[at - from] == s[at]);
    }
    assert(i == at - from);
    assert(t.take(i as int) =~= s.subrange(from, at));
    assert(t.skip(i as int + 1) =~= s.skip(at + 1));
}

/// When `s[from..]` holds no separator, it is the last piece.
proof fn lemma_split_last<T>(s: Seq<T>, sep: T, from: int)
    requires
        0 <= from <= s.len(),
        forall|j: int| from <= j < s.len() ==> s[j] != sep,
    ensures
        split_seq(s.skip(from), sep) == seq![s.skip(from)],
{
    let t = s.skip(from);
    lemma_first_sep(t, sep);
    let i = first_sep(t, sep);
    if i < t.len() {
        assert(t[i as int] == s[from + i]);
    }
}

/// The pieces named by a list of `(start, end)` bounds.
pub open spec fn pieces<T>(s: Seq<T>, bounds: Seq<(usize, usize)>) -> Seq<Seq<T>> {
    bounds.map_values(|b: (usize, usize)| s.subrange(b.0 as int, b.1 as int))
}

/// Bounds of the `sep`-separated chunks of a byte slice.
pub fn split_bounds_u8(raw: &[u8], sep: u8) -> (r: Vec<(usize, usize)>)
    ensures
        pieces(raw@, r@) == split_seq(raw@, sep),
        forall|k: int| 0 <= k < r@.len() ==> #[trigger] r@[k].0 <= r@[k].1 <= raw@.len(),
        r@.len() >= 1,
        r@.len() <= raw@.len() + 1,
{
    let mut out: Vec<(usize, usize)> = Vec::new();
    let mut start: usize = 0;
    let mut i: usize = 0;
    proof {
        assert(raw@.skip(0) =~= raw@);
    }
    while i < raw.len()
        invariant
            start <= i <= raw@.len(),
            forall|j: int| start <= j < i ==> raw@[j] != sep,
            pieces(raw@, out@) + split_seq(raw@.skip(start as int), sep) == split_seq(raw@, sep),
            forall|k: int| 0 <= k < out@.len() ==> #[trigger] out@[k].0 <= out@[k].1 <= raw@.len(),
            out@.len() <= start,
        decreases raw.len() - i,
    {
        if raw[i] == sep {
            proof {
                lemma_split_step(raw@, sep, start as int, i as int);
            }
            let ghost before = out@;
            out.push((start, i));
            proof {
                assert(out@.drop_last() =~= before);
                assert(pieces(raw@, out@) =~= pieces(raw@, before).push(
                    raw@.subrange(start as int, i as int),
                ));
                assert(pieces(raw@, out@) + split_seq(raw@.skip(i + 1), sep) =~= pieces(raw@, before) + split_seq(raw@.skip(start as int), sep));
            }
            start = i + 1;
        }
        i += 1;
    }
    proof {
        lemma_split_last(raw@, sep, start as int);
        assert(raw@.skip(start as int) =~= raw@.subrange(start as int, raw@.len() as int));
    }
    let ghost before = out@;
    out.push((start, raw.len()));
    proof {
        assert(out@.drop_last() =~= before);
        assert(pieces(raw@, out@) =~= pieces(raw@, before).push(
            raw@.subrange(start as int, raw@.len() as int),
        ));
    }
    out
}

/// Bounds of the `sep`-separated pieces of a character slice.
pub fn split_bounds_char(raw: &[char], sep: char) -> (r: Vec<(usize, usize)>)
    ensures
        pieces(raw@, r@) == split_seq(raw@, sep),
        forall|k: int| 0 <= k < r@.len() ==> #[trigger] r@[k].0 <= r@[k].1 <= raw@.len(),
        r@.len() >= 1,
        r@.len() <= raw@.len() + 1,
{
    let mut out: Vec<(usize, usize)> = Vec::new();
    let mut start: usize = 0;
    let mut i: usize = 0;
    proof {
        assert(raw@.skip(0) =~= raw@);
    }
    while i < raw.len()
        invariant
            start <= i <= raw@.len(),
            forall|j: int| start <= j < i ==> raw@[j] != sep,
            pieces(raw@, out@) + split_seq(raw@.skip(start as int), sep) == split_seq(raw@, sep),
            forall|k: int| 0 <= k < out@.len() ==> #[trigger] out@[k].0 <= out@[k].1 <= raw@.len(),
            out@.len() <= start,
        decreases raw.len() - i,
    {
        if raw[i] == sep {
            proof {
                lemma_split_step(raw@, sep, start as int, i as int);
            }
            let ghost before = out@;
            out.push((start, i));
            proof {
                assert(out@.drop_last() =~= before);
                assert(pieces(raw@, out@) =~= pieces(raw@, before).push(
                    raw@.subrange(start as int, i as int),
                ));
                assert(pieces(raw@, out@) + split_seq(raw@.skip(i + 1), sep) =~= pieces(raw@, before) + split_seq(raw@.skip(start as int), sep));
            }
            start = i + 1;
        }
        i += 1;
    }
    proof {
        lemma_split_last(raw@, sep, start as int);
        assert(raw@.skip(start as int) =~= raw@.subrange(start as int, raw@.len() as int));
    }
    let ghost before = out@;
    out.push((start, raw.len()));
    proof {
        assert(out@.drop_last() =~= before);
        assert(pieces(raw@, out@) =~= pieces(raw@, before).push(
            raw@.subrange(start as int, raw@.len() as int),
        ));
    }
    out
}

} // verus!

verus! {

// ---------- porcelain ----------

/// What `String::from_utf8_lossy` makes of `bytes`.
pub uninterp spec fn utf8_lossy_chars(bytes: Seq<u8>) -> Seq<char>;

/// `String::from_utf8_lossy(bytes).into_owned()`: the text of `bytes`, with
/// each invalid sequence replaced by U+FFFD. The contract names the result
/// and states that valid UTF-8 decodes unchanged; it says nothing of how
/// invalid input is replaced.
#[verifier::external_body]
fn utf8_lossy(bytes: &[u8]) -> (s: String)
    ensures
        s@ == utf8_lossy_chars(bytes@),
        valid_utf8(bytes@) ==> s@ == decode_utf8(bytes@),
{
    String::from_utf8_lossy(bytes).into_owned()
}

/// The header git prints before a repository's first commit
/// (`No commits yet on <branch>`, or `Initial commit on <branch>` in older
/// releases). It names no branch that exists yet.
pub open spec fn is_unborn_header(rest: Seq<char>) -> bool {
    starts_with(rest, "No commits yet on "@) || starts_with(rest, "Initial commit on "@)
}

/// The branch named by a `## <branch>[...<upstream>]` header line.
/// Detached HEAD (`## HEAD (no branch)`), the header of a repository with
/// no commit yet, and an empty name give `None`, so that the probe asks
/// `rev-parse` instead.
pub open spec fn branch_header_spec(line: Seq<char>) -> Option<Seq<char>> {
    if !starts_with(line, seq!['#', '#', ' ']) {
        None
    } else {
        let rest = trim(line.skip(3));
        if starts_with(rest, "HEAD (no branch"@) || is_unborn_header(rest) {
            None
        } else {
            let end = if contains_seq(rest, seq!['.', '.', '.']) {
                choose|i: int|
                    occurs_at(rest, seq!['.', '.', '.'], i) && forall|j: int|
                        0 <= j < i ==> !occurs_at(rest, seq!['.', '.', '.'], j)
            } else {
                rest.len() as int
            };
            let name = trim(rest.take(end));
            if name.len() == 0 {
                None
            } else {
                Some(name)
            }
        }
    }
}

/// Parse the `## ...` branch header of `git status --branch`.
pub fn parse_branch_header(line: &str) -> (r: Option<String>)
    ensures
        match r {
            Some(b) => branch_header_spec(line@) == Some(b@),
            None => branch_header_spec(line@) is None,
        },
{
    let v = chars_of(line);
    let hdr: [char; 3] = ['#', '#', ' '];
    if v.len() < 3 || v[0] != '#' || v[1] != '#' || v[2] != ' ' {
        proof {
            if v@.len() >= 3 {
                assert(v@.subrange(0, 3)[0] == v@[0]);
                assert(v@.subrange(0, 3)[1] == v@[1]);
                assert(v@.subrange(0, 3)[2] == v@[2]);
            }
        }
        return None;
    }
    proof {
        assert(v@.subrange(0, 3) =~= seq!['#', '#', ' ']);
    }
    let (a, b) = trim_bounds(v.as_slice(), 3, v.len());
    let ghost rest = v@.subrange(a as int, b as int);
    proof {
        assert(v@.subrange(3, v@.len() as int) =~= line@.skip(3));
    }
    let rest_v: Vec<char> = slice_to_vec(v.as_slice(), a, b);
    let no_branch = chars_of("HEAD (no branch");
    if crate::text::occurs_at_exec(rest_v.as_slice(), no_branch.as_slice(), 0) {
        return None;
    }
    let no_commits = chars_of("No commits yet on ");
    if crate::text::occurs_at_exec(rest_v.as_slice(), no_commits.as_slice(), 0) {
        return None;
    }
    let initial = chars_of("Initial commit on ");
    if crate::text::occurs_at_exec(rest_v.as_slice(), initial.as_slice(), 0) {
        return None;
    }
    let dots: [char; 3] = ['.', '.', '.'];
    let end = match find_first(rest_v.as_slice(), dots.as_slice()) {
        Some(i) => {
            proof {
                assert(dots@ =~= seq!['.', '.', '.']);
                let c = choose|k: int|
                    occurs_at(rest, seq!['.', '.', '.'], k) && forall|j: int|
                        0 <= j < k ==> !occurs_at(rest, seq!['.', '.', '.'], j);
                assert(occurs_at(rest, seq!['.', '.', '.'], i as int));
                if c < i {
                } else if c > i {
                }
                assert(c == i);
            }
            i
        },
        None => {
            proof {
                assert(dots@ =~= seq!['.', '.', '.']);
            }
            rest_v.len()
        },
    };
    let (c, d) = trim_bounds(rest_v.as_slice(), 0, end);
    proof {
        assert(rest_v@.subrange(0, end as int) =~= rest.take(end as int));
    }
    if c == d {
        return None;
    }
    Some(string_of_range(rest_v.as_slice(), c, d))
}

/// Copy of `v[from..to]`.
pub fn slice_to_vec(v: &[char], from: usize, to: usize) -> (r: Vec<char>)
    requires
        from <= to <= v@.len(),
    ensures
        r@ == v@.subrange(from as int, to as int),
{
    let mut r: Vec<char> = Vec::new();
    let mut i = from;
    while i < to
        invariant
            from <= i <= to <= v@.len(),
            r@ == v@.subrange(from as int, i as int),
        decreases to - i,
    {
        r.push(v[i]);
        i += 1;
        proof {
            assert(r@ =~= v@.subrange(from as int, i as int));
        }
    }
    r
}

/// Entry tallies, in the order staged, unstaged, untracked, conflicts.
pub type Tally = (nat, nat, nat, nat);

/// Tally of one porcelain entry whose status letters are `x` and `y`.
/// `!!` (ignored) counts nowhere; `??` is untracked; any `U`, `AA` or `DD`
/// is a conflict; otherwise a non-space `x` is staged and a non-space `y`
/// unstaged.
pub open spec fn entry_tally(x: u8, y: u8) -> Tally {
    if x == 33 && y == 33 {
        (0, 0, 0, 0)
    } else if x == 63 && y == 63 {
        (0, 0, 1, 0)
    } else if x == 85 || y == 85 || (x == 65 && y == 65) || (x == 68 && y == 68) {
        (0, 0, 0, 1)
    } else {
        ((if x != 32 { 1nat } else { 0nat }), (if y != 32 { 1nat } else { 0nat }), 0, 0)
    }
}

/// A rename or copy entry (`R` / `C` in the first column) carries its old
/// path in the next chunk, which is not an entry of its own.
pub open spec fn carries_old_path(x: u8, y: u8) -> bool {
    !(x == 33 && y == 33) && !(x == 63 && y == 63) && (x == 82 || x == 67)
}

pub open spec fn tally_add(a: Tally, b: Tally) -> Tally {
    (a.0 + b.0, a.1 + b.1, a.2 + b.2, a.3 + b.3)
}

/// Tally of a sequence of NUL-separated porcelain chunks. Chunks shorter
/// than two bytes are skipped.
pub open spec fn tally_entries(es: Seq<Seq<u8>>) -> Tally
    decreases es.len(),
{
    if es.len() == 0 {
        (0, 0, 0, 0)
    } else {
        let e = es[0];
        if e.len() < 2 {
            tally_entries(es.drop_first())
        } else {
            let rest = if carries_old_path(e[0], e[1]) {
                if es.len() >= 2 {
                    es.skip(2)
                } else {
                    seq![]
                }
            } else {
                es.drop_first()
            };
            tally_add(entry_tally(e[0], e[1]), tally_entries(rest))
        }
    }
}

/// Law: the chunk after a rename or copy entry is its old path and never
/// counts, whatever it looks like (even `?? x` or `UU x`).
pub proof fn rename_old_path_never_counts(e: Seq<u8>, old: Seq<u8>, rest: Seq<Seq<u8>>)
    requires
        e.len() >= 2,
        e[0] == 82 || e[0] == 67,
    ensures
        tally_entries(seq![e, old] + rest) == tally_add(entry_tally(e[0], e[1]), tally_entries(rest)),
{
    let es = seq![e, old] + rest;
    assert(es[0] == e);
    assert(es.skip(2) =~= rest);
}

/// Status letters `x`, `y` of an entry that is a merge conflict: either
/// column `U`, or both `A`, or both `D`.
pub open spec fn is_conflict_entry(x: u8, y: u8) -> bool {
    x == 85 || y == 85 || (x == 65 && y == 65) || (x == 68 && y == 68)
}

/// Law: an entry that is not ignored (`!!`), untracked (`??`) or a
/// conflict is staged exactly when its index column is not a space and
/// unstaged exactly when its worktree column is not a space, whatever the
/// letter there (`M`, `D`, `T`, `A`, ...); it counts as neither untracked
/// nor conflicted. Such an entry (other than a rename or copy) adds exactly
/// that to the tally of the entries after it.
pub proof fn status_columns_count_independently(x: u8, y: u8, e: Seq<u8>, rest: Seq<Seq<u8>>)
    requires
        !(x == 33 && y == 33),
        !(x == 63 && y == 63),
        !is_conflict_entry(x, y),
    ensures
        entry_tally(x, y).0 == (if x != 32 { 1nat } else { 0nat }),
        entry_tally(x, y).1 == (if y != 32 { 1nat } else { 0nat }),
        entry_tally(x, y).2 == 0,
        entry_tally(x, y).3 == 0,
        e.len() >= 2 && e[0] == x && e[1] == y && x != 82 && x != 67 ==> tally_entries(seq![e] + rest)
            == tally_add(entry_tally(x, y), tally_entries(rest)),
{
    if e.len() >= 2 && e[0] == x && e[1] == y && x != 82 && x != 67 {
        let es = seq![e] + rest;
        assert(es[0] == e);
        assert(es.drop_first() =~= rest);
    }
}

/// The first chunk is a branch header when it starts with `## `.
pub open spec fn has_branch_header(chunks: Seq<Seq<u8>>) -> bool {
    chunks.len() > 0 && chunks[0].len() >= 3 && chunks[0][0] == 35 && chunks[0][1] == 35
        && chunks[0][2] == 32
}

/// What `parse_porcelain` returns for `raw`: the branch from the header
/// chunk, if there is one, and the tally of the remaining chunks.
pub open spec fn porcelain_spec(raw: Seq<u8>) -> (Option<Seq<char>>, Tally) {
    let chunks = split_seq(raw, 0u8);
    if has_branch_header(chunks) {
        (branch_header_spec(utf8_lossy_chars(chunks[0])), tally_entries(chunks.drop_first()))
    } else {
        (None, tally_entries(chunks))
    }
}

pub open spec fn counts_tally(c: PorcelainCounts) -> Tally {
    (c.staged as nat, c.unstaged as nat, c.untracked as nat, c.conflicts as nat)
}

/// Parse `git status --porcelain=v1 --branch -z` output into the branch
/// name and per-class counts.
pub fn parse_porcelain(raw: &[u8]) -> (r: (Option<String>, PorcelainCounts))
    requires
        raw@.len() < u32::MAX,
    ensures
        counts_tally(r.1) == porcelain_spec(raw@).1,
        match r.0 {
            Some(b) => porcelain_spec(raw@).0 == Some(b@),
            None => porcelain_spec(raw@).0 is None,
        },
{
    let bounds = split_bounds_u8(raw, 0u8);
    let ghost chunks = split_seq(raw@, 0u8);
    proof {
        assert(pieces(raw@, bounds@).len() == bounds@.len());
    }
    let (s0, e0) = bounds[0];
    proof {
        assert(pieces(raw@, bounds@)[0] == raw@.subrange(s0 as int, e0 as int));
    }
    let header = e0 - s0 >= 3 && raw[s0] == 35u8 && raw[s0 + 1] == 35u8 && raw[s0 + 2] == 32u8;
    let mut branch: Option<String> = None;
    let mut k: usize = 0;
    if header {
        let line = utf8_lossy(vstd::slice::slice_subrange(raw, s0, e0));
        branch = parse_branch_header(line.as_str());
        k = 1;
    }
    let ghost es = if header { chunks.drop_first() } else { chunks };
    proof {
        assert(header == has_branch_header(chunks));
        assert(chunks.skip(k as int) =~= es);
    }
    let mut staged: u32 = 0;
    let mut unstaged: u32 = 0;
    let mut untracked: u32 = 0;
    let mut conflicts: u32 = 0;
    while k < bounds.len()
        invariant
            pieces(raw@, bounds@) == chunks,
            bounds@.len() <= raw@.len() + 1,
            raw@.len() < u32::MAX,
            forall|q: int| 0 <= q < bounds@.len() ==> #[trigger] bounds@[q].0 <= bounds@[q].1 <= raw@.len(),
            k <= bounds@.len(),
            staged <= k && unstaged <= k && untracked <= k && conflicts <= k,
            tally_add(
                (staged as nat, unstaged as nat, untracked as nat, conflicts as nat),
                tally_entries(chunks.skip(k as int)),
            ) == tally_entries(es),
        decreases bounds.len() - k,
    {
        let (s, e) = bounds[k];
        let ghost cur = chunks.skip(k as int);
        proof {
            assert(cur[0] == chunks[k as int]);
            assert(chunks[k as int] == raw@.subrange(s as int, e as int));
            assert(cur.drop_first() =~= chunks.skip(k + 1));
        }
        if e - s < 2 {
            k += 1;
        } else {
            let x = raw[s];
            let y = raw[s + 1];
            proof {
                assert(cur[0][0] == x);
                assert(cur[0][1] == y);
            }
            if x == 33u8 && y == 33u8 {
            } else if x == 63u8 && y == 63u8 {
                untracked += 1;
            } else if x == 85u8 || y == 85u8 || (x == 65u8 && y == 65u8) || (x == 68u8 && y == 68u8) {
                conflicts += 1;
            } else {
                if x != 32u8 {
                    staged += 1;
                }
                if y != 32u8 {
                    unstaged += 1;
                }
            }
            if !(x == 33u8 && y == 33u8) && !(x == 63u8 && y == 63u8) && (x == 82u8 || x == 67u8) {
                proof {
                    if cur.len() >= 2 {
                        assert(cur.skip(2) =~= chunks.skip(k + 2));
                    } else {
                        assert(chunks.skip(k + 1) =~= seq![]);
                    }
                }
                k += 1;
                if k < bounds.len() {
                    k += 1;
                }
            } else {
                k += 1;
            }
        }
    }
    (branch, PorcelainCounts { staged, unstaged, untracked, conflicts })
}

} // verus!

verus! {

// ---------- shortstat ----------

/// Index of the first whitespace character of `s` (or `s.len()`).
pub open spec fn first_ws(s: Seq<char>) -> nat
    decreases s.len(),
{
    if s.len() == 0 {
        0
    } else if crate::text::is_ws(s[0]) {
        0
    } else {
        1 + first_ws(s.drop_first())
    }
}

/// Value of a run of ASCII digits.
pub open spec fn digits_value(s: Seq<char>) -> nat
    decreases s.len(),
{
    if s.len() == 0 {
        0
    } else {
        (digits_value(s.drop_last()) * 10 + (s.last() as int - 48)) as nat
    }
}

pub open spec fn all_digits(s: Seq<char>) -> bool {
    forall|i: int| 0 <= i < s.len() ==> '0' <= #[trigger] s[i] <= '9'
}

/// `str::parse::<u32>`: an optional `+`, then one or more ASCII digits whose
/// value fits in `u32`.
pub open spec fn parse_u32_spec(s: Seq<char>) -> Option<u32> {
    let body = if s.len() > 0 && s[0] == '+' {
        s.drop_first()
    } else {
        s
    };
    if body.len() > 0 && all_digits(body) && digits_value(body) <= u32::MAX {
        Some(digits_value(body) as u32)
    } else {
        None
    }
}

/// The number that opens a shortstat clause such as `5 files changed`,
/// or 0 when its first word is not a `u32`. `t` is already trimmed, so its
/// first word runs up to the first whitespace.
pub open spec fn clause_number(t: Seq<char>) -> u32 {
    match parse_u32_spec(t.take(first_ws(t) as int)) {
        Some(v) => v,
        None => 0,
    }
}

pub open spec fn is_files_clause(t: Seq<char>) -> bool {
    crate::text::ends_with(t, "files changed"@) || crate::text::ends_with(t, "file changed"@)
}

pub open spec fn is_insertions_clause(t: Seq<char>) -> bool {
    !is_files_clause(t) && contains_seq(t, "insertion"@)
}

pub open spec fn is_deletions_clause(t: Seq<char>) -> bool {
    !is_files_clause(t) && !contains_seq(t, "insertion"@) && contains_seq(t, "deletion"@)
}

/// The trimmed comma-separated clauses of a shortstat line.
pub open spec fn shortstat_clauses(raw: Seq<char>) -> Seq<Seq<char>> {
    split_seq(raw, ',').map_values(|t: Seq<char>| trim(t))
}

/// Number of the last clause among the first `n` that is of `kind`
/// (0 = files, 1 = insertions, 2 = deletions), or 0 when there is none.
pub open spec fn last_clause_number(cs: Seq<Seq<char>>, n: int, kind: int) -> u32
    decreases n,
{
    if n <= 0 {
        0
    } else {
        let t = cs[n - 1];
        let hit = if kind == 0 {
            is_files_clause(t)
        } else if kind == 1 {
            is_insertions_clause(t)
        } else {
            is_deletions_clause(t)
        };
        if hit {
            clause_number(t)
        } else {
            last_clause_number(cs, n - 1, kind)
        }
    }
}

/// What `parse_shortstat` returns: each field is the number of the last
/// clause of its kind, so a later clause overrides an earlier one.
pub open spec fn shortstat_spec(raw: Seq<char>) -> DiffShortstat {
    let cs = shortstat_clauses(raw);
    DiffShortstat {
        files_changed: last_clause_number(cs, cs.len() as int, 0),
        insertions: last_clause_number(cs, cs.len() as int, 1),
        deletions: last_clause_number(cs, cs.len() as int, 2),
    }
}

/// Parse `v[from..to]` as `str::parse::<u32>` does.
pub fn parse_u32_range(v: &[char], from: usize, to: usize) -> (r: Option<u32>)
    requires
        from <= to <= v@.len(),
    ensures
        r == parse_u32_spec(v@.subrange(from as int, to as int)),
{
    let ghost s = v@.subrange(from as int, to as int);
    let mut i = from;
    if i < to && v[i] == '+' {
        i += 1;
    }
    let ghost body = v@.subrange(i as int, to as int);
    proof {
        if s.len() > 0 && s[0] == '+' {
            assert(body =~= s.drop_first());
        } else {
            assert(body =~= s);
        }
    }
    if i == to {
        return None;
    }
    let start = i;
    let mut acc: u64 = 0;
    while i < to
        invariant
            from <= start < to <= v@.len(),
            start <= i <= to,
            body == v@.subrange(start as int, to as int),
            s == v@.subrange(from as int, to as int),
            body == (if s.len() > 0 && s[0] == '+' { s.drop_first() } else { s }),
            all_digits(v@.subrange(start as int, i as int)),
            acc == digits_value(v@.subrange(start as int, i as int)),
            acc <= u32::MAX,
        decreases to - i,
    {
        let c = v[i];
        let ghost pre = v@.subrange(start as int, i as int);
        let ghost nxt = v@.subrange(start as int, i + 1);
        proof {
            assert(nxt.drop_last() =~= pre);
            assert(nxt.last() == c);
        }
        if c < '0' || c > '9' {
            proof {
                assert(body[i - start] == c);
                assert(!('0' <= body[i - start] <= '9'));
                assert(!all_digits(body));
            }
            return None;
        }
        acc = acc * 10 + (c as u64 - 48);
        if acc > 4294967295 {
            proof {
                if all_digits(body) {
                    lemma_digits_value_prefix_mono(body, (i + 1 - start) as int);
                    assert(body.take((i + 1 - start) as int) =~= nxt);
                }
            }
            return None;
        }
        i += 1;
        proof {
            assert(all_digits(nxt));
        }
    }
    Some(acc as u32)
}

/// The value of a digit run never drops when it grows.
proof fn lemma_digits_value_prefix_mono(s: Seq<char>, n: int)
    requires
        0 <= n <= s.len(),
        all_digits(s),
    ensures
        digits_value(s.take(n)) <= digits_value(s),
    decreases s.len() - n,
{
    if n < s.len() {
        lemma_digits_value_prefix_mono(s, n + 1);
        assert(s.take(n + 1).drop_last() =~= s.take(n));
        assert('0' <= s[n] <= '9');
    } else {
        assert(s.take(n) =~= s);
    }
}

/// Index of the first whitespace in `v[from..to]`, relative to `from`.
fn first_ws_exec(v: &[char], from: usize, to: usize) -> (r: usize)
    requires
        from <= to <= v@.len(),
    ensures
        from <= r <= to,
        r - from == first_ws(v@.subrange(from as int, to as int)),
{
    let mut i = from;
    while i < to && !crate::text::is_whitespace(v[i])
        invariant
            from <= i <= to <= v@.len(),
            forall|j: int| from <= j < i ==> !crate::text::is_ws(#[trigger] v@[j]),
        decreases to - i,
    {
        i += 1;
    }
    proof {
        lemma_first_ws_at(v@.subrange(from as int, to as int), (i - from) as int);
    }
    i
}

proof fn lemma_first_ws_at(s: Seq<char>, k: int)
    requires
        0 <= k <= s.len(),
        forall|j: int| 0 <= j < k ==> !crate::text::is_ws(#[trigger] s[j]),
        k < s.len() ==> crate::text::is_ws(s[k]),
    ensures
        first_ws(s) == k,
    decreases s.len(),
{
    if k > 0 {
        assert(!crate::text::is_ws(s[0]));
        assert forall|j: int| 0 <= j < k - 1 implies !crate::text::is_ws(
            #[trigger] s.drop_first()[j],
        ) by {
            assert(s.drop_first()[j] == s[j + 1]);
        }
        if k - 1 < s.len() - 1 {
            assert(s.drop_first()[k - 1] == s[k]);
        }
        lemma_first_ws_at(s.drop_first(), k - 1);
    }
}

/// Parse `git diff --shortstat` output, e.g.
/// ` 5 files changed, 100 insertions(+), 20 deletions(-)`.
pub fn parse_shortstat(raw: &str) -> (r: DiffShortstat)
    ensures
        r == shortstat_spec(raw@),
{
    let v = chars_of(raw);
    let bounds = split_bounds_char(v.as_slice(), ',');
    let ghost cs = shortstat_clauses(raw@);
    let files_a = chars_of("files changed");
    let file_a = chars_of("file changed");
    let ins_a = chars_of("insertion");
    let del_a = chars_of("deletion");
    let mut files: u32 = 0;
    let mut ins: u32 = 0;
    let mut dels: u32 = 0;
    let mut k: usize = 0;
    proof {
        assert(cs.len() == bounds@.len());
    }
    while k < bounds.len()
        invariant
            v@ == raw@,
            pieces(v@, bounds@) == split_seq(raw@, ','),
            cs == shortstat_clauses(raw@),
            cs.len() == bounds@.len(),
            forall|q: int| 0 <= q < bounds@.len() ==> #[trigger] bounds@[q].0 <= bounds@[q].1 <= v@.len(),
            k <= bounds@.len(),
            files_a@ == "files changed"@,
            file_a@ == "file changed"@,
            ins_a@ == "insertion"@,
            del_a@ == "deletion"@,
            files == last_clause_number(cs, k as int, 0),
            ins == last_clause_number(cs, k as int, 1),
            dels == last_clause_number(cs, k as int, 2),
        decreases bounds.len() - k,
    {
        let (s, e) = bounds[k];
        let (a, b) = trim_bounds(v.as_slice(), s, e);
        let t = slice_to_vec(v.as_slice(), a, b);
        proof {
            assert(pieces(v@, bounds@)[k as int] == v@.subrange(s as int, e as int));
            assert(cs[k as int] == t@);
        }
        let is_files = ends_with_exec(t.as_slice(), files_a.as_slice()) || ends_with_exec(
            t.as_slice(),
            file_a.as_slice(),
        );
        let n = t.len();
        let w = first_ws_exec(t.as_slice(), 0, n);
        let num = match parse_u32_range(t.as_slice(), 0, w) {
            Some(x) => x,
            None => 0,
        };
        proof {
            assert(t@.subrange(0, n as int) =~= t@);
            assert(t@.subrange(0, w as int) =~= t@.take(w as int));
            assert(num == clause_number(t@));
        }
        if is_files {
            files = num;
        } else if contains_exec_chars(t.as_slice(), ins_a.as_slice()) {
            ins = num;
        } else if contains_exec_chars(t.as_slice(), del_a.as_slice()) {
            dels = num;
        }
        k += 1;
    }
    DiffShortstat { insertions: ins, deletions: dels, files_changed: files }
}

fn ends_with_exec(v: &[char], p: &[char]) -> (b: bool)
    ensures
        b == crate::text::ends_with(v@, p@),
{
    if p.len() > v.len() {
        return false;
    }
    crate::text::occurs_at_exec(v, p, v.len() - p.len())
}

fn contains_exec_chars(v: &[char], p: &[char]) -> (b: bool)
    ensures
        b == contains_seq(v@, p@),
{
    crate::text::contains_exec(v, p)
}


// ---------- the probe ----------

/// The `git` invocations the probe makes.
#[derive(Clone, Copy, PartialEq, Eq, Structural, Debug)]
pub enum GitCommand {
    /// `git rev-parse --show-toplevel`, in the working directory.
    ShowToplevel,
    /// `git --no-optional-locks status --porcelain=v1 --branch -z`.
    Status,
    /// `git rev-parse --abbrev-ref HEAD`.
    AbbrevRef,
    /// `git diff --shortstat`.
    DiffUnstaged,
    /// `git diff --cached --shortstat`.
    DiffStaged,
}

pub open spec fn git_args_spec(c: GitCommand) -> Seq<Seq<char>> {
    match c {
        GitCommand::ShowToplevel => seq!["rev-parse"@, "--show-toplevel"@],
        GitCommand::Status => seq!["--no-optional-locks"@, "status"@, "--porcelain=v1"@, "--branch"@, "-z"@],
        GitCommand::AbbrevRef => seq!["rev-parse"@, "--abbrev-ref"@, "HEAD"@],
        GitCommand::DiffUnstaged => seq!["diff"@, "--shortstat"@],
        GitCommand::DiffStaged => seq!["diff"@, "--cached"@, "--shortstat"@],
    }
}

impl GitCommand {
    /// The arguments after `git`.
    pub fn args(self) -> (v: Vec<&'static str>)
        ensures
            v@.map_values(|s: &'static str| s@) == git_args_spec(self),
    {
        let mut v: Vec<&'static str> = Vec::new();
        match self {
            GitCommand::ShowToplevel => {
                v.push("rev-parse");
                v.push("--show-toplevel");
            },
            GitCommand::Status => {
                v.push("--no-optional-locks");
                v.push("status");
                v.push("--porcelain=v1");
                v.push("--branch");
                v.push("-z");
            },
            GitCommand::AbbrevRef => {
                v.push("rev-parse");
                v.push("--abbrev-ref");
                v.push("HEAD");
            },
            GitCommand::DiffUnstaged => {
                v.push("diff");
                v.push("--shortstat");
            },
            GitCommand::DiffStaged => {
                v.push("diff");
                v.push("--cached");
                v.push("--shortstat");
            },
        }
        proof {
            assert(v@.map_values(|s: &'static str| s@) =~= git_args_spec(self));
        }
        v
    }
}

/// Where the probe stands.
#[derive(Clone, Copy, PartialEq, Eq, Structural, Debug)]
pub enum ProbeStage {
    /// Waiting for the repository root.
    Locate,
    /// Waiting for the cache lookup.
    Cache,
    /// Waiting for `git status`.
    Status,
    /// Waiting for the `HEAD` name, when the status header named no branch.
    Branch,
    /// Waiting for the unstaged diff stats.
    Unstaged,
    /// Waiting for the staged diff stats.
    Staged,
    /// Waiting for the clock.
    Stamp,
    /// Finished.
    Done,
}

pub open spec fn stage_rank(s: ProbeStage) -> nat {
    match s {
        ProbeStage::Locate => 0,
        ProbeStage::Cache => 1,
        ProbeStage::Status => 2,
        ProbeStage::Branch => 3,
        ProbeStage::Unstaged => 4,
        ProbeStage::Staged => 5,
        ProbeStage::Stamp => 6,
        ProbeStage::Done => 7,
    }
}

/// The git probe as a state machine: the caller runs what each step asks
/// for (a `git` command, a cache lookup, the clock) and feeds the outcome
/// back, until the probe finishes. Any failure of `git` before the status
/// is known, and a directory outside any repository, finish with no
/// snapshot; later failures only leave their part empty.
pub struct GitProbe {
    pub stage: ProbeStage,
    pub cwd: String,
    pub repo_root: String,
    pub branch: Option<String>,
    pub porcelain: PorcelainCounts,
    pub unstaged: DiffShortstat,
    pub diff: DiffShortstat,
}

/// What the caller reports back.
pub enum ProbeEvent {
    /// The standard output of the `git` command asked for; `None` when it
    /// failed (could not start, timed out, exited non-zero, unreadable).
    Git(Option<Vec<u8>>),
    /// The cached snapshot for the repository root, when a fresh and
    /// readable one exists.
    Cache(Option<GitState>),
    /// The current time, Unix epoch seconds.
    Clock(i64),
}

/// What the caller does next.
pub enum ProbeAction {
    RunGit { dir: String, command: GitCommand },
    ReadCache { repo_root: String },
    ReadClock,
    /// The probe is over. `store`: write the snapshot to the cache.
    Finish { state: Option<GitState>, store: bool },
}

pub open spec fn opt_bytes(o: Option<Vec<u8>>) -> Option<Seq<u8>> {
    match o {
        Some(b) => Some(b@),
        None => None,
    }
}

/// The repository root printed by `git rev-parse --show-toplevel`:
/// trimmed, and `None` when blank.
pub open spec fn repo_root_spec(out: Seq<u8>) -> Option<Seq<char>> {
    let t = trim(utf8_lossy_chars(out));
    if t.len() == 0 {
        None
    } else {
        Some(t)
    }
}

/// The branch from `git rev-parse --abbrev-ref HEAD`: trimmed, and `None`
/// when it failed, is blank or is `HEAD` (detached).
pub open spec fn branch_fallback_spec(out: Option<Seq<u8>>) -> Option<Seq<char>> {
    match out {
        Some(b) => {
            let t = trim(utf8_lossy_chars(b));
            if t.len() == 0 || t == "HEAD"@ {
                None
            } else {
                Some(t)
            }
        },
        None => None,
    }
}

pub open spec fn zero_stat() -> DiffShortstat {
    DiffShortstat { insertions: 0, deletions: 0, files_changed: 0 }
}

/// The stats of a `git diff --shortstat` run; all zero when it failed.
pub open spec fn stat_spec(out: Option<Seq<u8>>) -> DiffShortstat {
    match out {
        Some(b) => shortstat_spec(utf8_lossy_chars(b)),
        None => zero_stat(),
    }
}

/// `a + b` in 32 bits, wrapping as release builds do.
pub open spec fn add_wrap(a: u32, b: u32) -> u32 {
    if a + b > u32::MAX {
        (a + b - 0x1_0000_0000) as u32
    } else {
        (a + b) as u32
    }
}

/// Unstaged plus staged stats.
pub open spec fn add_stats(a: DiffShortstat, b: DiffShortstat) -> DiffShortstat {
    DiffShortstat {
        insertions: add_wrap(a.insertions, b.insertions),
        deletions: add_wrap(a.deletions, b.deletions),
        files_changed: add_wrap(a.files_changed, b.files_changed),
    }
}

fn add_wrap_exec(a: u32, b: u32) -> (r: u32)
    ensures
        r == add_wrap(a, b),
{
    let s: u64 = a as u64 + b as u64;
    if s > 0xffff_ffff {
        (s - 0x1_0000_0000) as u32
    } else {
        s as u32
    }
}

fn stat_of(out: Option<Vec<u8>>) -> (r: DiffShortstat)
    ensures
        r == stat_spec(opt_bytes(out)),
{
    match out {
        Some(b) => {
            let text = utf8_lossy(b.as_slice());
            parse_shortstat(text.as_str())
        },
        None => DiffShortstat { insertions: 0, deletions: 0, files_changed: 0 },
    }
}

fn trimmed_text(b: &[u8]) -> (r: String)
    ensures
        r@ == trim(utf8_lossy_chars(b@)),
{
    let text = utf8_lossy(b);
    trim_string(text.as_str())
}

fn is_head(v: &[char]) -> (b: bool)
    ensures
        b == (v@ == "HEAD"@),
{
    let h = chars_of("HEAD");
    crate::render::color::seq_eq(v, h.as_slice())
}

fn finish_empty(cwd: String) -> (r: (GitProbe, ProbeAction))
    ensures
        r.0.stage == ProbeStage::Done,
        r.0.cwd == cwd,
        r.1 matches ProbeAction::Finish { state: None, store: false },
{
    (
        GitProbe {
            stage: ProbeStage::Done,
            cwd,
            repo_root: String::new(),
            branch: None,
            porcelain: PorcelainCounts { staged: 0, unstaged: 0, untracked: 0, conflicts: 0 },
            unstaged: DiffShortstat { insertions: 0, deletions: 0, files_changed: 0 },
            diff: DiffShortstat { insertions: 0, deletions: 0, files_changed: 0 },
        },
        ProbeAction::Finish { state: None, store: false },
    )
}

/// Start probing the repository that contains `cwd`: first ask for its
/// root. Drive the returned machine with [`GitProbe::step`].
pub fn probe(cwd: String) -> (r: (GitProbe, ProbeAction))
    ensures
        r.0.stage == ProbeStage::Locate,
        r.0.cwd@ == cwd@,
        r.1 matches ProbeAction::RunGit { dir, command } && dir@ == cwd@ && command
            == GitCommand::ShowToplevel,
{
    let dir = cwd.clone();
    (
        GitProbe {
            stage: ProbeStage::Locate,
            cwd,
            repo_root: String::new(),
            branch: None,
            porcelain: PorcelainCounts { staged: 0, unstaged: 0, untracked: 0, conflicts: 0 },
            unstaged: DiffShortstat { insertions: 0, deletions: 0, files_changed: 0 },
            diff: DiffShortstat { insertions: 0, deletions: 0, files_changed: 0 },
        },
        ProbeAction::RunGit { dir, command: GitCommand::ShowToplevel },
    )
}

impl GitProbe {
    /// Take the outcome of the last action and decide the next one.
    pub fn step(self, ev: ProbeEvent) -> (r: (GitProbe, ProbeAction))
        requires
            ev matches ProbeEvent::Git(Some(b)) ==> b@.len() < u32::MAX,
        ensures
            r.0.cwd@ == self.cwd@,
            r.0.stage == ProbeStage::Done || stage_rank(r.0.stage) > stage_rank(self.stage),
            r.0.stage == ProbeStage::Done <==> r.1 is Finish,
            self.stage != ProbeStage::Locate && r.0.stage != ProbeStage::Done ==> r.0.repo_root@
                == self.repo_root@,
            match (self.stage, ev) {
                (ProbeStage::Locate, ProbeEvent::Git(Some(b))) => match repo_root_spec(b@) {
                    None => r.1 matches ProbeAction::Finish { state: None, store: false },
                    Some(root) => r.0.stage == ProbeStage::Cache && r.0.repo_root@ == root
                        && (r.1 matches ProbeAction::ReadCache { repo_root } && repo_root@ == root),
                },
                (ProbeStage::Cache, ProbeEvent::Cache(Some(st))) => r.1 matches ProbeAction::Finish {
                    state: Some(s),
                    store: false,
                } && s == st,
                (ProbeStage::Cache, ProbeEvent::Cache(None)) => r.0.stage == ProbeStage::Status
                    && (r.1 matches ProbeAction::RunGit { dir, command } && dir@ == self.repo_root@
                    && command == GitCommand::Status),
                (ProbeStage::Status, ProbeEvent::Git(Some(b))) => {
                    &&& counts_tally(r.0.porcelain) == porcelain_spec(b@).1
                    &&& opt_view(r.0.branch) == porcelain_spec(b@).0
                    &&& r.1 matches ProbeAction::RunGit { dir, command } && dir@ == self.repo_root@
                        && command == (if porcelain_spec(b@).0 is Some {
                        GitCommand::DiffUnstaged
                    } else {
                        GitCommand::AbbrevRef
                    })
                    &&& r.0.stage == (if porcelain_spec(b@).0 is Some {
                        ProbeStage::Unstaged
                    } else {
                        ProbeStage::Branch
                    })
                },
                (ProbeStage::Branch, ProbeEvent::Git(o)) => {
                    &&& opt_view(r.0.branch) == branch_fallback_spec(opt_bytes(o))
                    &&& r.0.porcelain == self.porcelain
                    &&& r.0.stage == ProbeStage::Unstaged
                    &&& r.1 matches ProbeAction::RunGit { dir, command } && dir@ == self.repo_root@
                        && command == GitCommand::DiffUnstaged
                },
                (ProbeStage::Unstaged, ProbeEvent::Git(o)) => {
                    &&& r.0.unstaged == stat_spec(opt_bytes(o))
                    &&& opt_view(r.0.branch) == opt_view(self.branch)
                    &&& r.0.porcelain == self.porcelain
                    &&& r.0.stage == ProbeStage::Staged
                    &&& r.1 matches ProbeAction::RunGit { dir, command } && dir@ == self.repo_root@
                        && command == GitCommand::DiffStaged
                },
                (ProbeStage::Staged, ProbeEvent::Git(o)) => {
                    &&& r.0.diff == add_stats(self.unstaged, stat_spec(opt_bytes(o)))
                    &&& opt_view(r.0.branch) == opt_view(self.branch)
                    &&& r.0.porcelain == self.porcelain
                    &&& r.0.stage == ProbeStage::Stamp
                    &&& r.1 is ReadClock
                },
                (ProbeStage::Stamp, ProbeEvent::Clock(t)) => r.1 matches ProbeAction::Finish {
                    state: Some(s),
                    store: true,
                } && s.repo_root@ == self.repo_root@ && opt_view(s.branch) == opt_view(self.branch)
                    && s.porcelain == self.porcelain && s.diff == self.diff && s.captured_at == t,
                _ => r.1 matches ProbeAction::Finish { state: None, store: false },
            },
    {
        let GitProbe { stage, cwd, repo_root, branch, porcelain, unstaged, diff } = self;
        match (stage, ev) {
            (ProbeStage::Locate, ProbeEvent::Git(Some(b))) => {
                let root = trimmed_text(b.as_slice());
                let rv = chars_of(root.as_str());
                if rv.len() == 0 {
                    return finish_empty(cwd);
                }
                let dir = root.clone();
                (
                    GitProbe { stage: ProbeStage::Cache, cwd, repo_root: root, branch, porcelain, unstaged, diff },
                    ProbeAction::ReadCache { repo_root: dir },
                )
            },
            (ProbeStage::Cache, ProbeEvent::Cache(Some(st))) => (
                GitProbe { stage: ProbeStage::Done, cwd, repo_root, branch, porcelain, unstaged, diff },
                ProbeAction::Finish { state: Some(st), store: false },
            ),
            (ProbeStage::Cache, ProbeEvent::Cache(None)) => {
                let dir = repo_root.clone();
                (
                    GitProbe { stage: ProbeStage::Status, cwd, repo_root, branch, porcelain, unstaged, diff },
                    ProbeAction::RunGit { dir, command: GitCommand::Status },
                )
            },
            (ProbeStage::Status, ProbeEvent::Git(Some(b))) => {
                let (br, counts) = parse_porcelain(b.as_slice());
                let dir = repo_root.clone();
                let has_branch = br.is_some();
                if has_branch {
                    (
                        GitProbe { stage: ProbeStage::Unstaged, cwd, repo_root, branch: br, porcelain: counts, unstaged, diff },
                        ProbeAction::RunGit { dir, command: GitCommand::DiffUnstaged },
                    )
                } else {
                    (
                        GitProbe { stage: ProbeStage::Branch, cwd, repo_root, branch: br, porcelain: counts, unstaged, diff },
                        ProbeAction::RunGit { dir, command: GitCommand::AbbrevRef },
                    )
                }
            },
            (ProbeStage::Branch, ProbeEvent::Git(o)) => {
                let fallback = match o {
                    Some(b) => {
                        let t = trimmed_text(b.as_slice());
                        let tv = chars_of(t.as_str());
                        if tv.len() == 0 || is_head(tv.as_slice()) {
                            None
                        } else {
                            Some(t)
                        }
                    },
                    None => None,
                };
                let dir = repo_root.clone();
                (
                    GitProbe { stage: ProbeStage::Unstaged, cwd, repo_root, branch: fallback, porcelain, unstaged, diff },
                    ProbeAction::RunGit { dir, command: GitCommand::DiffUnstaged },
                )
            },
            (ProbeStage::Unstaged, ProbeEvent::Git(o)) => {
                let st = stat_of(o);
                let dir = repo_root.clone();
                (
                    GitProbe { stage: ProbeStage::Staged, cwd, repo_root, branch, porcelain, unstaged: st, diff },
                    ProbeAction::RunGit { dir, command: GitCommand::DiffStaged },
                )
            },
            (ProbeStage::Staged, ProbeEvent::Git(o)) => {
                let st = stat_of(o);
                let total = DiffShortstat {
                    insertions: add_wrap_exec(unstaged.insertions, st.insertions),
                    deletions: add_wrap_exec(unstaged.deletions, st.deletions),
                    files_changed: add_wrap_exec(unstaged.files_changed, st.files_changed),
                };
                (
                    GitProbe { stage: ProbeStage::Stamp, cwd, repo_root, branch, porcelain, unstaged, diff: total },
                    ProbeAction::ReadClock,
                )
            },
            (ProbeStage::Stamp, ProbeEvent::Clock(t)) => {
                let state = GitState { repo_root, branch, porcelain, diff, captured_at: t };
                (
                    GitProbe {
                        stage: ProbeStage::Done,
                        cwd,
                        repo_root: String::new(),
                        branch: None,
                        porcelain,
                        unstaged,
                        diff,
                    },
                    ProbeAction::Finish { state: Some(state), store: true },
                )
            },
            _ => finish_empty(cwd),
        }
    }
}

/// A cached snapshot is used while it is at most this old.
pub const CACHE_TTL_NANOS: u128 = 2_000_000_000;

/// A cache file last written at `modified` is still fresh at `now` (both
/// in nanoseconds since the epoch); one from the future is not.
pub fn cache_is_fresh(modified: u128, now: u128) -> (b: bool)
    ensures
        b == (modified <= now && now - modified <= CACHE_TTL_NANOS),
{
    modified <= now && now - modified <= CACHE_TTL_NANOS
}

} // verus!
