//! Widget registry. Each widget is a pure function of the [`Context`]
//! returning the segments it shows, or `None` when it has nothing to show.

pub mod block_timer;
pub mod context_bar;
pub mod cwd;
pub mod git_branch;
pub mod git_changes;
pub mod git_status;
pub mod model;
pub mod session_cost;
pub mod session_tokens;
pub mod weekly_timer;

use vstd::prelude::*;

use crate::context::Context;
use crate::render::color::{AnsiColor, Color, Style};
use crate::render::format::{clock_spec, filled_cells, percent_paren_spec, repeat_char, weekly_reset_spec};
use crate::render::{SegView, Segment};

verus! {

/// The widget kinds, in registry order.
#[derive(Clone, Copy, PartialEq, Eq, Structural, Debug)]
pub enum WidgetKind {
    Model,
    Cwd,
    ContextBar,
    SessionTokens,
    SessionCost,
    BlockTimer,
    WeeklyTimer,
    GitBranch,
    GitStatus,
    GitChanges,
}

pub open spec fn kind_name_spec(k: WidgetKind) -> Seq<char> {
    match k {
        WidgetKind::Model => "model"@,
        WidgetKind::Cwd => "cwd"@,
        WidgetKind::ContextBar => "context_bar"@,
        WidgetKind::SessionTokens => "session_tokens"@,
        WidgetKind::SessionCost => "session_cost"@,
        WidgetKind::BlockTimer => "block_timer"@,
        WidgetKind::WeeklyTimer => "weekly_timer"@,
        WidgetKind::GitBranch => "git_branch"@,
        WidgetKind::GitStatus => "git_status"@,
        WidgetKind::GitChanges => "git_changes"@,
    }
}

/// The kind registered under `name`.
pub open spec fn find_spec(name: Seq<char>) -> Option<WidgetKind> {
    if name == "model"@ {
        Some(WidgetKind::Model)
    } else if name == "cwd"@ {
        Some(WidgetKind::Cwd)
    } else if name == "context_bar"@ {
        Some(WidgetKind::ContextBar)
    } else if name == "session_tokens"@ {
        Some(WidgetKind::SessionTokens)
    } else if name == "session_cost"@ {
        Some(WidgetKind::SessionCost)
    } else if name == "block_timer"@ {
        Some(WidgetKind::BlockTimer)
    } else if name == "weekly_timer"@ {
        Some(WidgetKind::WeeklyTimer)
    } else if name == "git_branch"@ {
        Some(WidgetKind::GitBranch)
    } else if name == "git_status"@ {
        Some(WidgetKind::GitStatus)
    } else if name == "git_changes"@ {
        Some(WidgetKind::GitChanges)
    } else {
        None
    }
}

/// Names of the registered kinds, in registry order.
pub open spec fn registry_spec() -> Seq<Seq<char>> {
    seq![
        "model"@,
        "cwd"@,
        "context_bar"@,
        "session_tokens"@,
        "session_cost"@,
        "block_timer"@,
        "weekly_timer"@,
        "git_branch"@,
        "git_status"@,
        "git_changes"@,
    ]
}

impl WidgetKind {
    pub fn name(self) -> (s: &'static str)
        ensures
            s@ == kind_name_spec(self),
    {
        match self {
            WidgetKind::Model => "model",
            WidgetKind::Cwd => "cwd",
            WidgetKind::ContextBar => "context_bar",
            WidgetKind::SessionTokens => "session_tokens",
            WidgetKind::SessionCost => "session_cost",
            WidgetKind::BlockTimer => "block_timer",
            WidgetKind::WeeklyTimer => "weekly_timer",
            WidgetKind::GitBranch => "git_branch",
            WidgetKind::GitStatus => "git_status",
            WidgetKind::GitChanges => "git_changes",
        }
    }

    /// The widget reads the git probe.
    pub open spec fn spec_needs_git(self) -> bool {
        self is GitBranch || self is GitStatus || self is GitChanges
    }

    pub fn needs_git(self) -> (b: bool)
        ensures
            b == self.spec_needs_git(),
    {
        match self {
            WidgetKind::GitBranch | WidgetKind::GitStatus | WidgetKind::GitChanges => true,
            _ => false,
        }
    }
}

fn is_kind(v: &[char], name: &str) -> (b: bool)
    ensures
        b == (v@ == name@),
{
    let n = crate::text::chars_of(name);
    crate::render::color::seq_eq(v, n.as_slice())
}

/// Look a widget kind up by name.
pub fn find(kind: &str) -> (r: Option<WidgetKind>)
    ensures
        r == find_spec(kind@),
{
    let v = crate::text::chars_of(kind);
    let s = v.as_slice();
    if is_kind(s, "model") {
        Some(WidgetKind::Model)
    } else if is_kind(s, "cwd") {
        Some(WidgetKind::Cwd)
    } else if is_kind(s, "context_bar") {
        Some(WidgetKind::ContextBar)
    } else if is_kind(s, "session_tokens") {
        Some(WidgetKind::SessionTokens)
    } else if is_kind(s, "session_cost") {
        Some(WidgetKind::SessionCost)
    } else if is_kind(s, "block_timer") {
        Some(WidgetKind::BlockTimer)
    } else if is_kind(s, "weekly_timer") {
        Some(WidgetKind::WeeklyTimer)
    } else if is_kind(s, "git_branch") {
        Some(WidgetKind::GitBranch)
    } else if is_kind(s, "git_status") {
        Some(WidgetKind::GitStatus)
    } else if is_kind(s, "git_changes") {
        Some(WidgetKind::GitChanges)
    } else {
        None
    }
}

/// The names of every registered widget kind, in registry order.
pub fn registry() -> (v: Vec<&'static str>)
    ensures
        v@.map_values(|s: &'static str| s@) == registry_spec(),
{
    let mut v: Vec<&'static str> = Vec::new();
    v.push("model");
    v.push("cwd");
    v.push("context_bar");
    v.push("session_tokens");
    v.push("session_cost");
    v.push("block_timer");
    v.push("weekly_timer");
    v.push("git_branch");
    v.push("git_status");
    v.push("git_changes");
    proof {
        assert(v@.map_values(|s: &'static str| s@) =~= registry_spec());
    }
    v
}

/// The two-row default layout.
pub fn default_layout() -> (rows: Vec<Vec<&'static str>>)
    ensures
        rows@.map_values(|r: Vec<&'static str>| r@.map_values(|s: &'static str| s@))
            == crate::config::default_lines(),
{
    let mut first: Vec<&'static str> = Vec::new();
    first.push("model");
    first.push("cwd");
    first.push("context_bar");
    first.push("session_tokens");
    first.push("session_cost");
    let mut second: Vec<&'static str> = Vec::new();
    second.push("block_timer");
    second.push("weekly_timer");
    let mut rows: Vec<Vec<&'static str>> = Vec::new();
    rows.push(first);
    rows.push(second);
    proof {
        let f = |r: Vec<&'static str>| r@.map_values(|s: &'static str| s@);
        assert(f(rows@[0]) =~= crate::config::default_lines()[0]);
        assert(f(rows@[1]) =~= crate::config::default_lines()[1]);
        assert(rows@.map_values(f) =~= crate::config::default_lines());
    }
    rows
}

// ---------- shared segment shapes ----------

/// The theme's dim style: bright black foreground.
pub open spec fn dim_style() -> Style {
    Style { fg: Some(Color::Ansi(AnsiColor::BrightBlack)), bg: None, bold: false }
}

pub open spec fn fg_style(a: AnsiColor) -> Style {
    Style { fg: Some(Color::Ansi(a)), bg: None, bold: false }
}

/// The cells of a ten-cell bar: the filled run in the tier color and the
/// empty run unstyled, each omitted when it has no cells.
pub open spec fn bar_cells_spec(percent: u8) -> Seq<SegView> {
    let f = filled_cells(percent, 10);
    let e = (10 - f) as nat;
    (if f > 0 {
        seq![(repeat_char('#', f), fg_style(crate::render::color::tier_color_spec(percent)))]
    } else {
        seq![]
    }) + (if e > 0 {
        seq![(repeat_char('.', e), Style::spec_plain())]
    } else {
        seq![]
    })
}

/// Segments of a timer widget: dim `icon label `, the bracketed bar, the
/// dim `(pct%)`, and ` ↻ ` with the reset time.
pub open spec fn timer_segs_spec(percent: u8, clock: Seq<char>, icon: Seq<char>, label: Seq<char>) -> Seq<SegView> {
    seq![(icon + seq![' '] + label + seq![' '], dim_style()), (seq!['['], Style::spec_plain())]
        + bar_cells_spec(percent) + seq![
        (seq![']'], Style::spec_plain()),
        (percent_paren_spec(percent), dim_style()),
        (" \u{21bb} "@ + clock, Style::spec_plain()),
    ]
}

/// What a widget of `kind` may show for `ctx`. The two timers show a reset
/// time that depends on the time zone database, so for them any in-range
/// clock reading is allowed; every other widget is fully determined.
pub open spec fn widget_output_ok(kind: WidgetKind, ctx: &Context, out: Option<Seq<SegView>>) -> bool {
    match kind {
        WidgetKind::BlockTimer => match ctx.block {
            None => out is None,
            Some(t) => exists|h: nat, m: nat|
                h <= 23 && m <= 59 && out == Some(
                    timer_segs_spec(t.used_percent, clock_spec(h, m), "\u{23f1}"@, "5h"@),
                ),
        },
        WidgetKind::WeeklyTimer => match ctx.weekly {
            None => out is None,
            Some(t) => exists|mo: nat, d: nat, h: nat, m: nat|
                1 <= mo <= 12 && 1 <= d <= 31 && h <= 23 && m <= 59 && out == Some(
                    timer_segs_spec(
                        t.used_percent,
                        weekly_reset_spec(mo, d, h, m),
                        "\u{1f4c5}"@,
                        "7d"@,
                    ),
                ),
        },
        WidgetKind::Model => out == model::model_spec(ctx),
        WidgetKind::Cwd => out == cwd::cwd_spec(ctx),
        WidgetKind::ContextBar => out == context_bar::context_bar_spec(ctx),
        WidgetKind::SessionTokens => out == session_tokens::session_tokens_spec(ctx),
        WidgetKind::SessionCost => out == session_cost::session_cost_spec(ctx),
        WidgetKind::GitBranch => out == git_branch::git_branch_spec(ctx),
        WidgetKind::GitStatus => out == git_status::git_status_spec(ctx),
        WidgetKind::GitChanges => out == git_changes::git_changes_spec(ctx),
    }
}

pub open spec fn opt_segs_view(o: Option<Vec<Segment>>) -> Option<Seq<SegView>> {
    match o {
        Some(v) => Some(crate::render::segs_view(v@)),
        None => None,
    }
}

/// Run the widget of `kind`.
pub fn render_widget(kind: WidgetKind, ctx: &Context) -> (r: Option<Vec<Segment>>)
    ensures
        widget_output_ok(kind, ctx, opt_segs_view(r)),
{
    match kind {
        WidgetKind::Model => model::render(ctx),
        WidgetKind::Cwd => cwd::render(ctx),
        WidgetKind::ContextBar => context_bar::render(ctx),
        WidgetKind::SessionTokens => session_tokens::render(ctx),
        WidgetKind::SessionCost => session_cost::render(ctx),
        WidgetKind::BlockTimer => block_timer::render(ctx),
        WidgetKind::WeeklyTimer => weekly_timer::render(ctx),
        WidgetKind::GitBranch => git_branch::render(ctx),
        WidgetKind::GitStatus => git_status::render(ctx),
        WidgetKind::GitChanges => git_changes::render(ctx),
    }
}

/// Push the cells of a ten-cell bar.
pub fn push_bar_cells(out: &mut Vec<Segment>, percent: u8)
    ensures
        crate::render::segs_view(final(out)@) == crate::render::segs_view(old(out)@) + bar_cells_spec(percent),
{
    let filled = crate::render::format::bar_filled_count(percent, 10);
    let empty = 10 - filled;
    let ghost before = crate::render::segs_view(out@);
    if filled > 0 {
        let tier = Style::fg(crate::render::color::bar_tier_color(percent));
        let cells = repeat_string('#', filled);
        out.push(Segment::styled(cells, tier));
    }
    if empty > 0 {
        let cells = repeat_string('.', empty);
        out.push(Segment::plain(cells));
    }
    proof {
        assert(crate::render::segs_view(out@) =~= before + bar_cells_spec(percent));
    }
}

/// `n` copies of `c`.
pub fn repeat_string(c: char, n: usize) -> (s: String)
    ensures
        s@ == repeat_char(c, n as nat),
{
    let mut s = String::new();
    let mut i: usize = 0;
    while i < n
        invariant
            i <= n,
            s@ == repeat_char(c, i as nat),
        decreases n - i,
    {
        s.push(c);
        i += 1;
        proof {
            assert(s@ =~= repeat_char(c, i as nat));
        }
    }
    s
}

} // verus!
