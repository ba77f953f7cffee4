//! Seven-day timer: `📅 7d [bar](pct%) ↻ M/d HH:mm`, styled as the block
//! timer.

use vstd::prelude::*;

use crate::context::Context;
use crate::render::format::format_weekly_reset;
use crate::render::Segment;

verus! {

/// Window label: the length of the window.
pub const WINDOW_LABEL: &'static str = "7d";

pub fn render(ctx: &Context) -> (r: Option<Vec<Segment>>)
    ensures
        super::widget_output_ok(super::WidgetKind::WeeklyTimer, ctx, super::opt_segs_view(r)),
{
    match ctx.weekly {
        Some(t) => {
            let when = format_weekly_reset(t.resets_at, &ctx.tz);
            let v = super::block_timer::timer_segments(t.used_percent, when, "\u{1f4c5}", WINDOW_LABEL);
            Some(v)
        },
        None => None,
    }
}

} // verus!
