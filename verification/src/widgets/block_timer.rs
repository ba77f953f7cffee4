//! Five-hour block timer: `⏱ 5h [bar](pct%) ↻ HH:mm`. Icon and label are
//! dim, filled cells take the tier color, the percent is dim.

use vstd::prelude::*;

use crate::context::Context;
use crate::render::color::{AnsiColor, Color, Style};
use crate::render::format::{format_clock, format_percent_paren};
use crate::render::Segment;
use crate::text::push_str;

verus! {

/// Window label: the length of the window, not the elapsed time.
pub const WINDOW_LABEL: &'static str = "5h";

/// Segments of a timer widget.
pub fn timer_segments(percent: u8, reset_clock: String, icon: &str, window_label: &str) -> (v: Vec<Segment>)
    ensures
        crate::render::segs_view(v@) == super::timer_segs_spec(
            percent,
            reset_clock@,
            icon@,
            window_label@,
        ),
{
    let dim = Style::fg(Color::Ansi(AnsiColor::BrightBlack));
    let mut out: Vec<Segment> = Vec::new();
    let mut head = String::new();
    push_str(&mut head, icon);
    head.push(' ');
    push_str(&mut head, window_label);
    head.push(' ');
    let s0 = Segment::styled(head, dim);
    let ghost v0 = crate::render::seg_view(s0);
    out.push(s0);
    let mut open = String::new();
    open.push('[');
    let s1 = Segment::plain(open);
    let ghost v1 = crate::render::seg_view(s1);
    out.push(s1);
    let ghost a = crate::render::segs_view(out@);
    proof {
        assert(out@.len() == 2);
        assert(a[0] == v0);
        assert(a[1] == v1);
        assert(v0 == (icon@ + seq![' '] + window_label@ + seq![' '], super::dim_style()));
        assert(v1.0 =~= seq!['[']);
        assert(a =~= seq![
            (icon@ + seq![' '] + window_label@ + seq![' '], super::dim_style()),
            (seq!['['], Style::spec_plain()),
        ]);
    }
    super::push_bar_cells(&mut out, percent);
    let ghost b = crate::render::segs_view(out@);
    let mut close = String::new();
    close.push(']');
    out.push(Segment::plain(close));
    let pct = format_percent_paren(percent);
    out.push(Segment::styled(pct, dim));
    let mut when = String::new();
    push_str(&mut when, " \u{21bb} ");
    push_str(&mut when, reset_clock.as_str());
    out.push(Segment::plain(when));
    proof {
        assert(crate::render::segs_view(out@) =~= b + seq![
            crate::render::seg_view(out@[out@.len() - 3]),
            crate::render::seg_view(out@[out@.len() - 2]),
            crate::render::seg_view(out@[out@.len() - 1]),
        ]);
        assert(crate::render::segs_view(out@) =~= super::timer_segs_spec(
            percent,
            reset_clock@,
            icon@,
            window_label@,
        ));
    }
    out
}

pub fn render(ctx: &Context) -> (r: Option<Vec<Segment>>)
    ensures
        super::widget_output_ok(super::WidgetKind::BlockTimer, ctx, super::opt_segs_view(r)),
{
    match ctx.block {
        Some(t) => {
            let clock = format_clock(t.resets_at, &ctx.tz);
            let v = timer_segments(t.used_percent, clock, "\u{23f1}", WINDOW_LABEL);
            Some(v)
        },
        None => None,
    }
}

} // verus!
