//! Semantic, presentation-free view over the payload. Widgets read here,
//! never from [`payload::Payload`] directly.

pub mod git;
pub mod jsonl;
pub mod payload;

use vstd::prelude::*;

use crate::context::git::GitState;
use crate::context::payload::{opt_non_empty, opt_non_empty_exec, opt_view, Payload, RateLimitPeriod};
use crate::error::Error;


verus! {

#[derive(Clone, Copy, Debug, PartialEq, Eq, Structural)]
pub struct ContextWindowMetrics {
    pub used_tokens: u64,
    pub total_tokens: u64,
    /// Whole percent, 0 to 100.
    pub used_percent: u8,
}

#[derive(Clone, Copy, Debug)]
pub struct TimerMetrics {
    /// Whole percent, 0 to 100.
    pub used_percent: u8,
    pub resets_at: jiff::Timestamp,
}

pub struct Context {
    pub model_display: Option<String>,
    pub cwd: Option<String>,
    pub context_metrics: Option<ContextWindowMetrics>,
    pub session_tokens: Option<u64>,
    /// Session cost in whole cents.
    pub session_cost_cents: Option<i64>,
    pub block: Option<TimerMetrics>,
    pub weekly: Option<TimerMetrics>,
    /// Populated only by [`Context::with_git`].
    pub git: Option<GitState>,
    /// Time zone for reset clocks.
    pub tz: jiff::tz::TimeZone,
}

/// The working directory: top-level `cwd`, then `workspace.current_dir`,
/// then `workspace.project_dir`, the first that is not blank, trimmed.
pub open spec fn cwd_spec(p: Payload) -> Option<Seq<char>> {
    match opt_non_empty(p.cwd) {
        Some(c) => Some(c),
        None => match p.workspace {
            Some(w) => match opt_non_empty(w.current_dir) {
                Some(c) => Some(c),
                None => opt_non_empty(w.project_dir),
            },
            None => None,
        },
    }
}

/// The payload's working directory, as [`cwd_spec`] says.
pub fn payload_cwd(p: &Payload) -> (r: Option<String>)
    ensures
        opt_view(r) == cwd_spec(*p),
{
    match opt_non_empty_exec(&p.cwd) {
        Some(c) => Some(c),
        None => match &p.workspace {
            Some(w) => match opt_non_empty_exec(&w.current_dir) {
                Some(c) => Some(c),
                None => opt_non_empty_exec(&w.project_dir),
            },
            None => None,
        },
    }
}

/// The transcript path the session-token probe must read, when the payload
/// carries no `ccstatusline_rs.session_tokens` override.
pub open spec fn transcript_probe_spec(p: Payload) -> Option<Seq<char>> {
    let ext_tokens = match p.extension {
        Some(e) => e.session_tokens,
        None => None,
    };
    if ext_tokens is Some {
        None
    } else {
        opt_non_empty(p.transcript_path)
    }
}

pub fn transcript_probe_path(p: &Payload) -> (r: Option<String>)
    ensures
        opt_view(r) == transcript_probe_spec(*p),
{
    let has_ext = match &p.extension {
        Some(e) => e.session_tokens.is_some(),
        None => false,
    };
    if has_ext {
        None
    } else {
        opt_non_empty_exec(&p.transcript_path)
    }
}

/// A whole percent held to 0..=100.
pub open spec fn clamp_pct_spec(p: u8) -> u8 {
    if p > 100 {
        100
    } else {
        p
    }
}

/// `p`, held to 0..=100.
pub fn clamp_pct(p: u8) -> (r: u8)
    ensures
        r == clamp_pct_spec(p),
        r <= 100,
{
    if p > 100 {
        100
    } else {
        p
    }
}

/// The context-window metrics with their percent held to 0..=100.
pub open spec fn metrics_spec(m: Option<ContextWindowMetrics>) -> Option<ContextWindowMetrics> {
    match m {
        Some(k) => Some(ContextWindowMetrics { used_percent: clamp_pct_spec(k.used_percent), ..k }),
        None => None,
    }
}

/// A timer needs both a usable percent and a reset instant; the percent is
/// held to 0..=100.
pub open spec fn timer_spec(p: Option<RateLimitPeriod>) -> Option<(u8, jiff::Timestamp)> {
    match p {
        Some(r) => match (r.used_percent, r.resets_at) {
            (Some(pct), Some(ts)) => Some((clamp_pct_spec(pct), ts)),
            _ => None,
        },
        None => None,
    }
}

pub open spec fn timer_view(t: Option<TimerMetrics>) -> Option<(u8, jiff::Timestamp)> {
    match t {
        Some(m) => Some((m.used_percent, m.resets_at)),
        None => None,
    }
}

fn extract_timer(p: &Option<RateLimitPeriod>) -> (r: Option<TimerMetrics>)
    ensures
        timer_view(r) == timer_spec(*p),
{
    match p {
        Some(r) => match (r.used_percent, r.resets_at) {
            (Some(pct), Some(ts)) => Some(TimerMetrics { used_percent: clamp_pct(pct), resets_at: ts }),
            _ => None,
        },
        None => None,
    }
}

/// What a context built from `payload` holds, besides its time zone and
/// git state.
pub open spec fn context_from(c: Context, payload: Payload, transcript_tokens: Option<u64>) -> bool {
    &&& opt_view(c.model_display) == (match payload.model {
        Some(m) => m.spec_display(),
        None => None,
    })
    &&& opt_view(c.cwd) == cwd_spec(payload)
    &&& c.context_metrics == metrics_spec(match payload.context_window {
        Some(w) => w.metrics,
        None => None,
    })
    &&& c.session_tokens == (match payload.extension {
        Some(e) if e.session_tokens is Some => e.session_tokens,
        _ => if transcript_probe_spec(payload) is Some {
            transcript_tokens
        } else {
            None
        },
    })
    &&& c.session_cost_cents == (match payload.cost {
        Some(k) => k.total_cost_cents,
        None => None,
    })
    &&& timer_view(c.block) == timer_spec(match payload.rate_limits {
        Some(rl) => rl.five_hour,
        None => None,
    })
    &&& timer_view(c.weekly) == timer_spec(match payload.rate_limits {
        Some(rl) => rl.seven_day,
        None => None,
    })
}

/// Every percent a context holds is within 0..=100.
pub open spec fn percents_in_range(c: Context) -> bool {
    &&& (c.context_metrics matches Some(m) ==> m.used_percent <= 100)
    &&& (c.block matches Some(t) ==> t.used_percent <= 100)
    &&& (c.weekly matches Some(t) ==> t.used_percent <= 100)
}

impl Context {
    /// Build the context. `transcript_tokens` is the total the JSONL probe
    /// found at [`transcript_probe_path`] (`None` when that path is `None`
    /// or the probe found nothing).
    pub fn from_payload(payload: &Payload, tz: jiff::tz::TimeZone, transcript_tokens: Option<u64>) -> (r: Result<Context, Error>)
        ensures
            r is Ok,
            r matches Ok(c) ==> context_from(c, *payload, transcript_tokens) && c.git is None && c.tz == tz,
            r matches Ok(c) ==> percents_in_range(c),
    {
        let model_display = match &payload.model {
            Some(m) => m.display_string(),
            None => None,
        };
        let cwd = payload_cwd(payload);
        let context_metrics = match &payload.context_window {
            Some(w) => match w.metrics {
                Some(k) => Some(ContextWindowMetrics { used_percent: clamp_pct(k.used_percent), ..k }),
                None => None,
            },
            None => None,
        };
        let ext_tokens = match &payload.extension {
            Some(e) => e.session_tokens,
            None => None,
        };
        let session_tokens = match ext_tokens {
            Some(t) => Some(t),
            None => {
                let probe_path = transcript_probe_path(payload);
                match probe_path {
                    Some(_) => transcript_tokens,
                    None => None,
                }
            },
        };
        let session_cost_cents = match &payload.cost {
            Some(k) => k.total_cost_cents,
            None => None,
        };
        let (five, seven) = match &payload.rate_limits {
            Some(rl) => (rl.five_hour, rl.seven_day),
            None => (None, None),
        };
        let block = extract_timer(&five);
        let weekly = extract_timer(&seven);
        Ok(Context {
            model_display,
            cwd,
            context_metrics,
            session_tokens,
            session_cost_cents,
            block,
            weekly,
            git: None,
            tz,
        })
    }

    /// Attach the result of the git probe.
    pub fn with_git(self, git: Option<GitState>) -> (r: Context)
        ensures
            r.git == git,
            r.model_display == self.model_display,
            r.cwd == self.cwd,
            r.context_metrics == self.context_metrics,
            r.session_tokens == self.session_tokens,
            r.session_cost_cents == self.session_cost_cents,
            r.block == self.block,
            r.weekly == self.weekly,
            r.tz == self.tz,
    {
        Context { git, ..self }
    }
}


// ---------- time zone ----------

/// Which time zone a config's `tz` value asks for.
#[derive(Clone, Debug)]
pub enum TzRequest {
    /// `None` or empty: the project default, Asia/Seoul.
    ProjectDefault,
    /// `"system"` in any ASCII case: the host clock.
    System,
    /// Any other IANA name.
    Named(String),
}

pub open spec fn is_system_name(n: Seq<char>) -> bool {
    crate::text::ascii_lower_seq(n) == "system"@
}

pub fn tz_request(name: Option<&str>) -> (r: TzRequest)
    ensures
        match name {
            None => r is ProjectDefault,
            Some(n) => if n@.len() == 0 {
                r is ProjectDefault
            } else if is_system_name(n@) {
                r is System
            } else {
                r matches TzRequest::Named(m) && m@ == n@
            },
        },
{
    match name {
        None => TzRequest::ProjectDefault,
        Some(n) => {
            if n.is_empty() {
                return TzRequest::ProjectDefault;
            }
            let v = crate::text::chars_of(n);
            let lowered = crate::render::color::lower_chars(v.as_slice());
            let sys = crate::text::chars_of("system");
            let mut same = lowered.len() == sys.len();
            let mut i: usize = 0;
            if same {
                while i < lowered.len()
                    invariant
                        lowered@.len() == sys@.len(),
                        i <= lowered@.len(),
                        same ==> forall|j: int| 0 <= j < i ==> lowered@[j] == sys@[j],
                        !same ==> lowered@ != sys@,
                    decreases lowered.len() - i,
                {
                    if lowered[i] != sys[i] {
                        same = false;
                    }
                    i += 1;
                }
                proof {
                    if same {
                        assert(lowered@ =~= sys@);
                    }
                }
            }
            if same {
                TzRequest::System
            } else {
                TzRequest::Named(n.to_owned())
            }
        },
    }
}

/// `TimeZone::get(name)`. Which names resolve depends on the time zone
/// database of the machine, so the contract states nothing of the result.
#[verifier::external_body]
fn lookup_tz(name: &str) -> Option<jiff::tz::TimeZone> {
    jiff::tz::TimeZone::get(name).ok()
}

/// `TimeZone::system()`, the host's time zone. It depends on the
/// environment, so the contract states nothing of it.
#[verifier::external_body]
fn system_tz() -> jiff::tz::TimeZone {
    jiff::tz::TimeZone::system()
}

/// What a time zone lookup for `requested` gives: the zone it found, or an
/// `InvalidTimezone` error naming the request when it found none.
pub fn zone_or_error(requested: String, found: Option<jiff::tz::TimeZone>) -> (r: Result<
    jiff::tz::TimeZone,
    Error,
>)
    ensures
        match found {
            Some(tz) => r matches Ok(t) && t == tz,
            None => r matches Err(Error::InvalidTimezone { name: m }) && m@ == requested@,
        },
{
    match found {
        Some(tz) => Ok(tz),
        None => Err(Error::InvalidTimezone { name: requested }),
    }
}

/// The IANA name of the project default time zone.
pub const DEFAULT_TZ_NAME: &'static str = "Asia/Seoul";

/// Resolve a config's `tz`: `None` / empty to Asia/Seoul, `"system"` to the
/// host clock, anything else by name. An unknown name is an
/// `InvalidTimezone` error naming it.
pub fn resolve_tz(name: Option<&str>) -> (r: Result<jiff::tz::TimeZone, Error>)
    ensures
        r matches Err(e) ==> (e matches Error::InvalidTimezone { name: m } && (match name {
            Some(n) if n@.len() > 0 => m@ == n@ && !is_system_name(n@),
            _ => m@ == DEFAULT_TZ_NAME@,
        })),
        (match name {
            Some(n) => n@.len() > 0 && is_system_name(n@),
            None => false,
        }) ==> r is Ok,
{
    match tz_request(name) {
        TzRequest::ProjectDefault => zone_or_error(
            DEFAULT_TZ_NAME.to_owned(),
            lookup_tz(DEFAULT_TZ_NAME),
        ),
        TzRequest::System => Ok(system_tz()),
        TzRequest::Named(n) => {
            let found = lookup_tz(n.as_str());
            zone_or_error(n, found)
        },
    }
}
} // verus!
