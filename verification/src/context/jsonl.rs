//! Cumulative session tokens over the session transcript (JSONL).
//!
//! Each transcript line that parses is handed over as a [`TranscriptLine`];
//! this module decides which lines count. Lines flagged as API errors and
//! lines without a `message.usage` are skipped. A line whose `stop_reason`
//! is set is a finished turn and always counts. A line without one is a
//! streaming partial: it counts only when it is the last usage-bearing line
//! (the live turn, or the single surviving frame of a legacy transcript).

use vstd::prelude::*;

use crate::text::{hex_fixed, push_hex_fixed, push_str};

verus! {

/// Token usage summed over a session.
#[derive(Clone, Copy, PartialEq, Eq, Structural, Debug, Default)]
pub struct SessionTokens {
    pub input: u64,
    pub output: u64,
    pub cached: u64,
}

impl SessionTokens {
    pub open spec fn spec_total(self) -> nat {
        (self.input + self.output + self.cached) as nat
    }

    /// Input, output and cached tokens together.
    pub fn total(self) -> (t: u64)
        requires
            self.spec_total() <= u64::MAX,
        ensures
            t == self.spec_total(),
    {
        self.input + self.output + self.cached
    }
}

/// The `message.usage` block of a transcript line.
#[derive(Clone, Copy, PartialEq, Eq, Structural, Debug, Default)]
pub struct Usage {
    pub input_tokens: Option<u64>,
    pub output_tokens: Option<u64>,
    pub cache_creation_input_tokens: Option<u64>,
    pub cache_read_input_tokens: Option<u64>,
}

/// The `message` node of a transcript line.
#[derive(Clone, Copy, PartialEq, Eq, Structural, Debug, Default)]
pub struct MessageNode {
    pub usage: Option<Usage>,
    /// `stop_reason` is present and not `null`.
    pub has_stop_reason: bool,
}

/// One parsed transcript line.
#[derive(Clone, Copy, PartialEq, Eq, Structural, Debug, Default)]
pub struct TranscriptLine {
    pub message: Option<MessageNode>,
    /// The `isApiErrorMessage` flag.
    pub is_api_error: Option<bool>,
}

pub open spec fn opt_nat(v: Option<u64>) -> nat {
    match v {
        Some(x) => x as nat,
        None => 0,
    }
}

/// Tokens a usage block contributes: input, output, and the two cache
/// counts together.
pub open spec fn usage_tokens(u: Usage) -> (nat, nat, nat) {
    (
        opt_nat(u.input_tokens),
        opt_nat(u.output_tokens),
        opt_nat(u.cache_creation_input_tokens) + opt_nat(u.cache_read_input_tokens),
    )
}

/// The line carries usage and is not an API error.
pub open spec fn bears_usage(l: TranscriptLine) -> bool {
    !(l.is_api_error == Some(true)) && l.message is Some && l.message->0.usage is Some
}

pub open spec fn line_usage(l: TranscriptLine) -> Usage {
    l.message->0.usage->0
}

pub open spec fn line_stops(l: TranscriptLine) -> bool {
    l.message->0.has_stop_reason
}

pub open spec fn add3(a: (nat, nat, nat), b: (nat, nat, nat)) -> (nat, nat, nat) {
    (a.0 + b.0, a.1 + b.1, a.2 + b.2)
}

/// Tokens of the finished turns among the first `n` lines.
pub open spec fn finished_sum(ls: Seq<TranscriptLine>, n: int) -> (nat, nat, nat)
    decreases n,
{
    if n <= 0 {
        (0, 0, 0)
    } else if bears_usage(ls[n - 1]) && line_stops(ls[n - 1]) {
        add3(finished_sum(ls, n - 1), usage_tokens(line_usage(ls[n - 1])))
    } else {
        finished_sum(ls, n - 1)
    }
}

/// Index of the last usage-bearing line among the first `n`.
pub open spec fn last_usage_line(ls: Seq<TranscriptLine>, n: int) -> Option<int>
    decreases n,
{
    if n <= 0 {
        None
    } else if bears_usage(ls[n - 1]) {
        Some(n - 1)
    } else {
        last_usage_line(ls, n - 1)
    }
}

/// The session total the transcript yields: `None` when no line carries
/// usage; otherwise the finished turns, plus the last usage-bearing line
/// when it has no stop reason.
pub open spec fn session_tokens_spec(ls: Seq<TranscriptLine>) -> Option<(nat, nat, nat)> {
    match last_usage_line(ls, ls.len() as int) {
        None => None,
        Some(i) => Some(
            if line_stops(ls[i]) {
                finished_sum(ls, ls.len() as int)
            } else {
                add3(finished_sum(ls, ls.len() as int), usage_tokens(line_usage(ls[i])))
            },
        ),
    }
}

/// Each component of the session total fits in `u64`.
pub open spec fn session_tokens_fit(ls: Seq<TranscriptLine>) -> bool {
    match session_tokens_spec(ls) {
        None => true,
        Some(t) => t.0 <= u64::MAX && t.1 <= u64::MAX && t.2 <= u64::MAX,
    }
}

pub open spec fn tokens_view(t: SessionTokens) -> (nat, nat, nat) {
    (t.input as nat, t.output as nat, t.cached as nat)
}

pub open spec fn le3(a: (nat, nat, nat), b: (nat, nat, nat)) -> bool {
    a.0 <= b.0 && a.1 <= b.1 && a.2 <= b.2
}

proof fn lemma_finished_sum_mono(ls: Seq<TranscriptLine>, k: int, n: int)
    requires
        0 <= k <= n,
    ensures
        le3(finished_sum(ls, k), finished_sum(ls, n)),
    decreases n - k,
{
    if k < n {
        lemma_finished_sum_mono(ls, k, n - 1);
    }
}

proof fn lemma_last_usage_line(ls: Seq<TranscriptLine>, n: int)
    ensures
        match last_usage_line(ls, n) {
            Some(i) => 0 <= i < n && bears_usage(ls[i]),
            None => true,
        },
    decreases n,
{
    if n > 0 {
        lemma_last_usage_line(ls, n - 1);
    }
}

/// Pending partial usage after the first `n` lines: the last
/// usage-bearing line, when it has no stop reason.
pub open spec fn pending_after(ls: Seq<TranscriptLine>, n: int) -> Option<Usage> {
    match last_usage_line(ls, n) {
        Some(i) => if line_stops(ls[i]) {
            None
        } else {
            Some(line_usage(ls[i]))
        },
        None => None,
    }
}

fn opt_u64(v: Option<u64>) -> (r: u64)
    ensures
        r == opt_nat(v),
{
    match v {
        Some(x) => x,
        None => 0,
    }
}

/// Total the session tokens of a transcript, as the JSONL probe does.
pub fn tally_transcript(lines: &[TranscriptLine]) -> (r: Option<SessionTokens>)
    requires
        session_tokens_fit(lines@),
    ensures
        match r {
            Some(t) => session_tokens_spec(lines@) == Some(tokens_view(t)),
            None => session_tokens_spec(lines@) is None,
        },
{
    let ghost ls = lines@;
    let ghost n = ls.len() as int;
    let mut input: u64 = 0;
    let mut output: u64 = 0;
    let mut cached: u64 = 0;
    let mut counted_any = false;
    let mut pending: Option<Usage> = None;
    let mut k: usize = 0;
    proof {
        lemma_last_usage_line(ls, n);
        lemma_finished_sum_mono(ls, 0, n);
    }
    while k < lines.len()
        invariant
            ls == lines@,
            n == ls.len(),
            k <= n,
            session_tokens_fit(ls),
            (input as nat, output as nat, cached as nat) == finished_sum(ls, k as int),
            pending == pending_after(ls, k as int),
            counted_any == (last_usage_line(ls, k as int) is Some),
            le3(finished_sum(ls, k as int), finished_sum(ls, n)),
            last_usage_line(ls, k as int) is Some ==> last_usage_line(ls, n) is Some,
        decreases n - k,
    {
        let line = lines[k];
        proof {
            lemma_finished_sum_mono(ls, k + 1, n);
            lemma_last_usage_line(ls, n);
            if bears_usage(ls[k as int]) {
                lemma_last_usage_line_at_least(ls, k as int, n);
            }
        }
        let is_err = match line.is_api_error {
            Some(b) => b,
            None => false,
        };
        if !is_err {
            if let Some(msg) = line.message {
                if let Some(u) = msg.usage {
                    if msg.has_stop_reason {
                        proof {
                            assert(finished_sum(ls, k + 1) == add3(
                                finished_sum(ls, k as int),
                                usage_tokens(u),
                            ));
                            lemma_fit_bound(ls, n);
                        }
                        let cc = opt_u64(u.cache_creation_input_tokens);
                        let cr = opt_u64(u.cache_read_input_tokens);
                        input = input + opt_u64(u.input_tokens);
                        output = output + opt_u64(u.output_tokens);
                        cached = cached + (cc + cr);
                        pending = None;
                    } else {
                        pending = Some(u);
                    }
                    counted_any = true;
                }
            }
        }
        k += 1;
    }
    proof {
        lemma_last_usage_line(ls, n);
    }
    if let Some(u) = pending {
        proof {
            lemma_fit_bound(ls, n);
        }
        let cc = opt_u64(u.cache_creation_input_tokens);
        let cr = opt_u64(u.cache_read_input_tokens);
        input = input + opt_u64(u.input_tokens);
        output = output + opt_u64(u.output_tokens);
        cached = cached + (cc + cr);
    }
    if counted_any {
        Some(SessionTokens { input, output, cached })
    } else {
        None
    }
}

/// When some line bears usage, the overall last usage-bearing line is at
/// or after it.
proof fn lemma_last_usage_line_at_least(ls: Seq<TranscriptLine>, k: int, n: int)
    requires
        0 <= k < n,
        bears_usage(ls[k]),
    ensures
        last_usage_line(ls, n) is Some,
        last_usage_line(ls, n)->0 >= k,
    decreases n - k,
{
    if n - 1 > k {
        if !bears_usage(ls[n - 1]) {
            lemma_last_usage_line_at_least(ls, k, n - 1);
        }
    }
}

/// Under the fit precondition, the finished sum and the total fit.
proof fn lemma_fit_bound(ls: Seq<TranscriptLine>, n: int)
    requires
        n == ls.len(),
        session_tokens_fit(ls),
    ensures
        last_usage_line(ls, n) is Some ==> {
            let f = finished_sum(ls, n);
            &&& f.0 <= u64::MAX && f.1 <= u64::MAX && f.2 <= u64::MAX
        },
{
}

/// Whether [`tally_transcript`] can total these lines without overflow.
pub fn transcript_fits(lines: &[TranscriptLine]) -> (b: bool)
    ensures
        b == session_tokens_fit(lines@),
{
    let ghost ls = lines@;
    let ghost n = ls.len() as int;
    let max: u128 = 0xffff_ffff_ffff_ffff;
    let mut input: u128 = 0;
    let mut output: u128 = 0;
    let mut cached: u128 = 0;
    let mut pending: Option<Usage> = None;
    let mut any = false;
    let mut k: usize = 0;
    proof {
        lemma_last_usage_line(ls, n);
    }
    while k < lines.len()
        invariant
            ls == lines@,
            n == ls.len(),
            k <= n,
            max == u64::MAX,
            (input as nat, output as nat, cached as nat) == finished_sum(ls, k as int),
            input <= max && output <= max && cached <= max,
            pending == pending_after(ls, k as int),
            any == (last_usage_line(ls, k as int) is Some),
        decreases n - k,
    {
        let line = lines[k];
        proof {
            lemma_finished_sum_mono(ls, k + 1, n);
            if bears_usage(ls[k as int]) {
                lemma_last_usage_line_at_least(ls, k as int, n);
            }
        }
        let is_err = match line.is_api_error {
            Some(b) => b,
            None => false,
        };
        if !is_err {
            if let Some(msg) = line.message {
                if let Some(u) = msg.usage {
                    if msg.has_stop_reason {
                        input = input + opt_u64(u.input_tokens) as u128;
                        output = output + opt_u64(u.output_tokens) as u128;
                        cached = cached + opt_u64(u.cache_creation_input_tokens) as u128
                            + opt_u64(u.cache_read_input_tokens) as u128;
                        if input > max || output > max || cached > max {
                            proof {
                                lemma_last_usage_line_at_least(ls, k as int, n);
                                lemma_last_usage_line(ls, n);
                                assert(le3(finished_sum(ls, k + 1), finished_sum(ls, n)));
                            }
                            return false;
                        }
                        pending = None;
                    } else {
                        pending = Some(u);
                    }
                    any = true;
                }
            }
        }
        k += 1;
    }
    if let Some(u) = pending {
        input = input + opt_u64(u.input_tokens) as u128;
        output = output + opt_u64(u.output_tokens) as u128;
        cached = cached + opt_u64(u.cache_creation_input_tokens) as u128
            + opt_u64(u.cache_read_input_tokens) as u128;
    }
    input <= max && output <= max && cached <= max
}

// ---------- cache ----------

/// The 64-bit XXH3 hash of `data`.
pub uninterp spec fn xxh3_64_of(data: Seq<u8>) -> u64;

/// `xxhash_rust::xxh3::xxh3_64`: the contract names the hash of the input
/// bytes and states nothing more of it.
#[verifier::external_body]
fn xxh3_64(data: &[u8]) -> (h: u64)
    ensures
        h == xxh3_64_of(data@),
{
    xxhash_rust::xxh3::xxh3_64(data)
}

/// The cache file name for a transcript path: its XXH3 hash as 16 lowercase
/// hex digits, then `.json`.
pub open spec fn cache_file_name_spec(path: Seq<char>) -> Seq<char> {
    hex_fixed(xxh3_64_of(vstd::utf8::encode_utf8(path)) as nat, 16) + ".json"@
}

pub fn cache_file_name(path: &str) -> (name: String)
    ensures
        name@ == cache_file_name_spec(path@),
{
    let h = xxh3_64(path.as_bytes());
    let mut s = String::new();
    push_hex_fixed(&mut s, h, 16);
    push_str(&mut s, ".json");
    proof {
        assert(s@ =~= cache_file_name_spec(path@));
    }
    s
}

/// A cached probe result, keyed on the transcript's modification time and
/// size.
#[derive(Clone, Copy, PartialEq, Eq, Structural, Debug)]
pub struct CacheEntry {
    pub mtime_ns: u128,
    pub size: u64,
    pub tokens: SessionTokens,
}

impl CacheEntry {
    /// The entry still describes a transcript with this mtime and size.
    pub fn matches(&self, mtime_ns: u128, size: u64) -> (b: bool)
        ensures
            b == (self.mtime_ns == mtime_ns && self.size == size),
    {
        self.mtime_ns == mtime_ns && self.size == size
    }
}


/// What the cached token probe does, once the transcript's metadata and
/// the cache entry (if any) are known.
#[derive(Clone, Copy, PartialEq, Eq, Structural, Debug)]
pub enum TokenLookup {
    /// The transcript does not exist (yet): no tokens.
    NoTranscript,
    /// The cache entry still describes the transcript: its tokens.
    Cached(SessionTokens),
    /// Parse the transcript, then store the result under its metadata.
    Reparse,
}

/// The cached probe's decision for a transcript with metadata `meta` and
/// the cache entry `entry`.
pub open spec fn token_lookup_spec(meta: Option<(u128, u64)>, entry: Option<CacheEntry>) -> TokenLookup {
    match meta {
        None => TokenLookup::NoTranscript,
        Some((m, sz)) => match entry {
            Some(e) if e.mtime_ns == m && e.size == sz => TokenLookup::Cached(e.tokens),
            _ => TokenLookup::Reparse,
        },
    }
}

/// The cached probe's decision. `meta` is the transcript's `(mtime_ns,
/// size)`, `None` when it cannot be read; `entry` is the cache entry for the
/// transcript, when one exists and parses. A matching entry skips the
/// parse.
pub fn probe_session_tokens_cached(meta: Option<(u128, u64)>, entry: Option<CacheEntry>) -> (r: TokenLookup)
    ensures
        r == token_lookup_spec(meta, entry),
{
    match meta {
        None => TokenLookup::NoTranscript,
        Some((m, sz)) => match entry {
            Some(e) => if e.matches(m, sz) {
                TokenLookup::Cached(e.tokens)
            } else {
                TokenLookup::Reparse
            },
            None => TokenLookup::Reparse,
        },
    }
}

/// The entry a reparse stores: the fresh total under the metadata read
/// before the parse, when both are known.
pub open spec fn entry_to_store_spec(meta: Option<(u128, u64)>, parsed: Option<SessionTokens>) -> Option<CacheEntry> {
    match (meta, parsed) {
        (Some((m, sz)), Some(t)) => Some(CacheEntry { mtime_ns: m, size: sz, tokens: t }),
        _ => None,
    }
}

/// What to write to the cache after a reparse (nothing when the transcript
/// had no metadata or yielded no total).
pub fn entry_to_store(meta: Option<(u128, u64)>, parsed: Option<SessionTokens>) -> (r: Option<CacheEntry>)
    ensures
        r == entry_to_store_spec(meta, parsed),
{
    match (meta, parsed) {
        (Some((m, sz)), Some(t)) => Some(CacheEntry { mtime_ns: m, size: sz, tokens: t }),
        _ => None,
    }
}

/// The cache entry after one cached probe: a reparse that stores an entry
/// replaces the old one; otherwise the cache is left as it was.
pub open spec fn entry_after_probe(
    meta: Option<(u128, u64)>,
    entry: Option<CacheEntry>,
    parsed: Option<SessionTokens>,
) -> Option<CacheEntry> {
    if token_lookup_spec(meta, entry) == TokenLookup::Reparse && entry_to_store_spec(meta, parsed) is Some {
        entry_to_store_spec(meta, parsed)
    } else {
        entry
    }
}

/// What one cached probe answers: no tokens without a transcript, the
/// cached total on a hit, the fresh parse otherwise.
pub open spec fn probe_answer(
    meta: Option<(u128, u64)>,
    entry: Option<CacheEntry>,
    parsed: Option<SessionTokens>,
) -> Option<SessionTokens> {
    match token_lookup_spec(meta, entry) {
        TokenLookup::NoTranscript => None,
        TokenLookup::Cached(t) => Some(t),
        TokenLookup::Reparse => parsed,
    }
}

// ---------- laws ----------

/// Law: starting from an empty cache, the first probe parses; after the
/// transcript changes size the next probe parses again rather than serving
/// the old total; and a further probe with the transcript unchanged serves
/// the total of that second parse from the cache.
pub proof fn resized_transcript_is_parsed_again(
    m1: u128,
    s1: u64,
    m2: u128,
    s2: u64,
    t1: Option<SessionTokens>,
    t2: Option<SessionTokens>,
)
    requires
        s1 != s2,
    ensures
        probe_answer(Some((m1, s1)), None, t1) == t1,
        ({
            let e1 = entry_after_probe(Some((m1, s1)), None, t1);
            &&& token_lookup_spec(Some((m2, s2)), e1) == TokenLookup::Reparse
            &&& probe_answer(Some((m2, s2)), e1, t2) == t2
            &&& (t2 is Some ==> probe_answer(
                Some((m2, s2)),
                entry_after_probe(Some((m2, s2)), e1, t2),
                t2,
            ) == t2)
        }),
{
}

/// Law: a cache hit answers what a fresh parse of the transcript answers,
/// as long as an entry stored under the transcript's current metadata was
/// computed from its current content; and a missing transcript gives no
/// tokens.
pub proof fn cache_hit_equals_fresh_parse(
    meta: Option<(u128, u64)>,
    entry: Option<CacheEntry>,
    fresh: Option<SessionTokens>,
)
    requires
        match (meta, entry) {
            (Some((m, sz)), Some(e)) => e.mtime_ns == m && e.size == sz ==> fresh == Some(e.tokens),
            _ => true,
        },
    ensures
        meta is Some ==> probe_answer(meta, entry, fresh) == fresh,
        meta is None ==> probe_answer(meta, entry, fresh) is None,
{
}

proof fn lemma_skip_line_prefix(a: Seq<TranscriptLine>, l: TranscriptLine, b: Seq<TranscriptLine>, n: int)
    requires
        0 <= n <= a.len(),
    ensures
        finished_sum(a + seq![l] + b, n) == finished_sum(a + b, n),
        last_usage_line(a + seq![l] + b, n) == last_usage_line(a + b, n),
    decreases n,
{
    if n > 0 {
        lemma_skip_line_prefix(a, l, b, n - 1);
        assert((a + seq![l] + b)[n - 1] == a[n - 1]);
        assert((a + b)[n - 1] == a[n - 1]);
    }
}

proof fn lemma_skip_line(a: Seq<TranscriptLine>, l: TranscriptLine, b: Seq<TranscriptLine>, k: int)
    requires
        !bears_usage(l),
        0 <= k <= b.len(),
    ensures
        finished_sum(a + seq![l] + b, a.len() + 1 + k) == finished_sum(a + b, a.len() + k),
        last_usage_line(a + seq![l] + b, a.len() + 1 + k) == match last_usage_line(
            a + b,
            a.len() + k,
        ) {
            Some(i) => Some(
                if i < a.len() {
                    i
                } else {
                    i + 1
                },
            ),
            None => None::<int>,
        },
    decreases k,
{
    let s1 = a + seq![l] + b;
    let s2 = a + b;
    if k == 0 {
        lemma_skip_line_prefix(a, l, b, a.len() as int);
        assert(s1[a.len() as int] == l);
        lemma_last_usage_line(s2, a.len() as int);
    } else {
        lemma_skip_line(a, l, b, k - 1);
        assert(s1[a.len() + k] == b[k - 1]);
        assert(s2[a.len() + k - 1] == b[k - 1]);
        lemma_last_usage_line(s2, a.len() + k - 1);
    }
}

/// Law: a line that carries no usage (a parse survivor without
/// `message.usage`, or an API error) changes nothing, wherever it stands.
pub proof fn usage_free_line_changes_nothing(a: Seq<TranscriptLine>, l: TranscriptLine, b: Seq<TranscriptLine>)
    requires
        !bears_usage(l),
    ensures
        session_tokens_spec(a + seq![l] + b) == session_tokens_spec(a + b),
{
    let s1 = a + seq![l] + b;
    let s2 = a + b;
    lemma_skip_line(a, l, b, b.len() as int);
    assert(s1.len() == a.len() + 1 + b.len());
    assert(s2.len() == a.len() + b.len());
    lemma_last_usage_line(s2, s2.len() as int);
    match last_usage_line(s2, s2.len() as int) {
        Some(i) => {
            if i < a.len() {
                assert(s1[i] == s2[i]);
            } else {
                assert(s1[i + 1] == s2[i]);
            }
        },
        None => {},
    }
}

/// Law: a finished turn (usage with a stop reason) at the end counts on top
/// of the earlier finished turns, and the streaming partials before it no
/// longer count.
pub proof fn finished_turn_supersedes_partials(ls: Seq<TranscriptLine>, l: TranscriptLine)
    requires
        bears_usage(l),
        line_stops(l),
    ensures
        session_tokens_spec(ls.push(l)) == Some(add3(finished_sum(ls, ls.len() as int), usage_tokens(line_usage(l)))),
{
    let s = ls.push(l);
    assert(s[ls.len() as int] == l);
    lemma_finished_prefix(ls, l, ls.len() as int);
}

/// Law: a streaming partial at the end (the live turn) counts on top of
/// every finished turn before it.
pub proof fn live_turn_counts(ls: Seq<TranscriptLine>, l: TranscriptLine)
    requires
        bears_usage(l),
        !line_stops(l),
    ensures
        session_tokens_spec(ls.push(l)) == Some(add3(finished_sum(ls, ls.len() as int), usage_tokens(line_usage(l)))),
{
    let s = ls.push(l);
    assert(s[ls.len() as int] == l);
    lemma_finished_prefix(ls, l, ls.len() as int);
}

proof fn lemma_finished_prefix(ls: Seq<TranscriptLine>, l: TranscriptLine, n: int)
    requires
        0 <= n <= ls.len(),
    ensures
        finished_sum(ls.push(l), n) == finished_sum(ls, n),
    decreases n,
{
    if n > 0 {
        lemma_finished_prefix(ls, l, n - 1);
        assert(ls.push(l)[n - 1] == ls[n - 1]);
    }
}

} // verus!
