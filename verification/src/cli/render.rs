//! The default invocation: a payload in, the status line out. Reading stdin,
//! loading the config and running the probes stay with the caller; this
//! module decides what to probe and renders.

use vstd::prelude::*;

use crate::config::Config;
use crate::context::git::GitState;
use crate::context::payload::{opt_view, Payload};
use crate::context::{context_from, cwd_spec, is_system_name, payload_cwd, resolve_tz, Context, DEFAULT_TZ_NAME};
use crate::error::Error;
use crate::render::color::{ColorEnv, ColorMode};
use crate::render::{all_outputs_ok, config_needs_git, render_spec, SegView};
use crate::config::{colors_unique, config_colors_ok};
use crate::text::{chars_of, trim, trim_string};

verus! {

/// Blank input (nothing but whitespace) renders as the empty payload.
pub fn payload_is_blank(raw: &str) -> (b: bool)
    ensures
        b == (trim(raw@).len() == 0),
{
    let t = trim_string(raw);
    let v = chars_of(t.as_str());
    v.len() == 0
}

/// The directory the git probe must inspect: the payload's working
/// directory, when some line of the layout holds a git widget.
pub fn git_probe_dir(cfg: &Config, payload: &Payload) -> (r: Option<String>)
    ensures
        opt_view(r) == (if config_needs_git(*cfg) {
            cwd_spec(*payload)
        } else {
            None
        }),
{
    if cfg.needs_git() {
        payload_cwd(payload)
    } else {
        None
    }
}

/// The context of a render: built from the payload, with the git probe's
/// result attached only when the layout needs git and there is a working
/// directory.
pub open spec fn render_context(c: Context, cfg: Config, payload: Payload, transcript_tokens: Option<u64>, git: Option<GitState>) -> bool {
    &&& context_from(c, payload, transcript_tokens)
    &&& c.git == (if config_needs_git(cfg) && cwd_spec(payload) is Some {
        git
    } else {
        None
    })
}

/// A time zone name that resolves whatever the time zone database holds.
pub open spec fn tz_always_resolves(name: Option<String>) -> bool {
    match name {
        Some(n) => n@.len() > 0 && is_system_name(n@),
        None => false,
    }
}

/// The error of a time zone that did not resolve.
pub open spec fn tz_error(name: Option<String>, e: Error) -> bool {
    e matches Error::InvalidTimezone { name: m } && (match name {
        Some(n) if n@.len() > 0 => m@ == n@ && !is_system_name(n@),
        _ => m@ == DEFAULT_TZ_NAME@,
    })
}

/// Render `payload` against `cfg` under a color mode. `transcript_tokens`
/// is what the session-token probe found for the payload's transcript and
/// `git` what the git probe found in [`git_probe_dir`]. Only the time zone
/// lookup can fail.
pub fn render_with_mode(
    payload: &Payload,
    cfg: &Config,
    transcript_tokens: Option<u64>,
    git: Option<GitState>,
    mode: ColorMode,
    env: &ColorEnv,
) -> (r: Result<String, Error>)
    requires
        colors_unique(crate::config::colors_view(cfg.colors@)),
        config_colors_ok(*cfg),
    ensures
        match r {
            Ok(out) => exists|ctx: Context, outs: Seq<Seq<Option<Seq<SegView>>>>|
                render_context(ctx, *cfg, *payload, transcript_tokens, git) && all_outputs_ok(
                    &ctx,
                    *cfg,
                    outs,
                ) && out@ == render_spec(*cfg, outs, mode.spec_resolve(*env)),
            Err(e) => tz_error(cfg.tz, e),
        },
        tz_always_resolves(cfg.tz) ==> r is Ok,
{
    let tz_name: Option<&str> = match &cfg.tz {
        Some(n) => Some(n.as_str()),
        None => None,
    };
    let tz = match resolve_tz(tz_name) {
        Ok(tz) => tz,
        Err(e) => return Err(e),
    };
    let ctx = match Context::from_payload(payload, tz, transcript_tokens) {
        Ok(c) => c,
        Err(e) => return Err(e),
    };
    let ctx = if cfg.needs_git() && ctx.cwd.is_some() {
        ctx.with_git(git)
    } else {
        ctx
    };
    let out = crate::render::render(&ctx, cfg, mode, env);
    Ok(out)
}

/// Render against an explicit config, color on unless the environment
/// turns it off.
pub fn render_with(payload: &Payload, cfg: &Config, transcript_tokens: Option<u64>, git: Option<GitState>, env: &ColorEnv) -> (r: Result<String, Error>)
    requires
        colors_unique(crate::config::colors_view(cfg.colors@)),
        config_colors_ok(*cfg),
    ensures
        match r {
            Ok(out) => exists|ctx: Context, outs: Seq<Seq<Option<Seq<SegView>>>>|
                render_context(ctx, *cfg, *payload, transcript_tokens, git) && all_outputs_ok(
                    &ctx,
                    *cfg,
                    outs,
                ) && out@ == render_spec(*cfg, outs, ColorMode::Auto.spec_resolve(*env)),
            Err(e) => tz_error(cfg.tz, e),
        },
        tz_always_resolves(cfg.tz) ==> r is Ok,
{
    render_with_mode(payload, cfg, transcript_tokens, git, ColorMode::Auto, env)
}

/// Render against the built-in default layout, whatever config sits on
/// disk.
pub fn render_string(payload: &Payload, transcript_tokens: Option<u64>, env: &ColorEnv) -> (r: Result<String, Error>)
    ensures
        match r {
            Ok(out) => exists|ctx: Context, cfg: Config, outs: Seq<Seq<Option<Seq<SegView>>>>|
                cfg@.lines == crate::config::default_lines() && cfg@.colors.len() == 0 && cfg.tz is None
                    && render_context(ctx, cfg, *payload, transcript_tokens, None) && all_outputs_ok(
                    &ctx,
                    cfg,
                    outs,
                ) && out@ == render_spec(cfg, outs, ColorMode::Auto.spec_resolve(*env)),
            Err(e) => e matches Error::InvalidTimezone { name: m } && m@ == DEFAULT_TZ_NAME@,
        },
{
    let cfg = Config::default_layout();
    proof {
        assert(colors_unique(crate::config::colors_view(cfg.colors@)));
    }
    render_with(payload, &cfg, transcript_tokens, None, env)
}

} // verus!
