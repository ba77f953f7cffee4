//! The agent's stdin payload, as the library reads it. JSON parsing,
//! the permissive number coercion and the floating-point fields are
//! resolved before a payload reaches this type: percentages arrive as whole
//! percents, reset times as timestamps, cost as whole cents.

use vstd::prelude::*;

use crate::context::{ContextWindowMetrics};
use crate::text::{trim, trim_string};

verus! {

#[derive(Clone, Debug, Default)]
pub struct Payload {
    pub hook_event_name: Option<String>,
    pub session_id: Option<String>,
    pub transcript_path: Option<String>,
    pub cwd: Option<String>,
    pub model: Option<ModelField>,
    pub workspace: Option<Workspace>,
    pub version: Option<String>,
    pub cost: Option<Cost>,
    pub context_window: Option<ContextWindow>,
    pub rate_limits: Option<RateLimits>,
    /// The namespaced `ccstatusline_rs` block.
    pub extension: Option<Extension>,
}

/// `model` is either a plain string or an object.
#[derive(Clone, Debug)]
pub enum ModelField {
    Plain(String),
    Structured { id: Option<String>, display_name: Option<String> },
}

/// `Some(trim(s))` unless it is empty.
pub open spec fn non_empty_spec(s: Seq<char>) -> Option<Seq<char>> {
    if trim(s).len() == 0 {
        None
    } else {
        Some(trim(s))
    }
}

pub open spec fn opt_non_empty(s: Option<String>) -> Option<Seq<char>> {
    match s {
        Some(t) => non_empty_spec(t@),
        None => None,
    }
}

pub open spec fn opt_view(s: Option<String>) -> Option<Seq<char>> {
    match s {
        Some(t) => Some(t@),
        None => None,
    }
}

/// The trimmed string, or `None` when nothing is left.
pub fn non_empty(s: &str) -> (r: Option<String>)
    ensures
        opt_view(r) == non_empty_spec(s@),
{
    let t = trim_string(s);
    if t.as_str().is_empty() {
        None
    } else {
        Some(t)
    }
}

pub fn opt_non_empty_exec(s: &Option<String>) -> (r: Option<String>)
    ensures
        opt_view(r) == opt_non_empty(*s),
{
    match s {
        Some(t) => non_empty(t.as_str()),
        None => None,
    }
}

impl ModelField {
    /// `display_name`, then `id`, then the plain string; blank values count
    /// as absent.
    pub open spec fn spec_display(&self) -> Option<Seq<char>> {
        match self {
            ModelField::Plain(s) => non_empty_spec(s@),
            ModelField::Structured { id, display_name } => match opt_non_empty(*display_name) {
                Some(d) => Some(d),
                None => opt_non_empty(*id),
            },
        }
    }

    pub fn display_string(&self) -> (r: Option<String>)
        ensures
            opt_view(r) == self.spec_display(),
    {
        match self {
            ModelField::Plain(s) => non_empty(s.as_str()),
            ModelField::Structured { id, display_name } => {
                match opt_non_empty_exec(display_name) {
                    Some(d) => Some(d),
                    None => opt_non_empty_exec(id),
                }
            },
        }
    }
}

#[derive(Clone, Debug, Default)]
pub struct Workspace {
    pub current_dir: Option<String>,
    pub project_dir: Option<String>,
}

/// `cost.total_cost_usd`, as whole cents (only finite amounts arrive).
#[derive(Clone, Copy, Debug, Default)]
pub struct Cost {
    pub total_cost_cents: Option<i64>,
}

/// `context_window`, reduced to the metrics it yields (when it yields any).
#[derive(Clone, Copy, Debug, Default)]
pub struct ContextWindow {
    pub metrics: Option<ContextWindowMetrics>,
}

#[derive(Clone, Copy, Debug, Default)]
pub struct RateLimits {
    pub five_hour: Option<RateLimitPeriod>,
    pub seven_day: Option<RateLimitPeriod>,
    pub seven_day_sonnet: Option<RateLimitPeriod>,
    pub seven_day_opus: Option<RateLimitPeriod>,
}

/// One rate-limit window: the whole percent used (clamped to 0..=100) and
/// the reset instant, each present only when the payload gave a usable
/// value.
#[derive(Clone, Copy, Debug, Default)]
pub struct RateLimitPeriod {
    pub used_percent: Option<u8>,
    pub resets_at: Option<jiff::Timestamp>,
}

#[derive(Clone, Copy, Debug, Default, PartialEq, Eq, Structural)]
pub struct Extension {
    pub session_tokens: Option<u64>,
}

} // verus!
