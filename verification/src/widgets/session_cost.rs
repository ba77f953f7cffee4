//! Session cost widget: `💰 $D.CC`, yellow.

use vstd::prelude::*;

use crate::context::Context;
use crate::render::color::{AnsiColor, Color, Style};
use crate::render::format::{cost_spec, format_cost_cents};
use crate::render::{SegView, Segment};
use crate::text::push_str;

verus! {

pub open spec fn session_cost_spec(ctx: &Context) -> Option<Seq<SegView>> {
    match ctx.session_cost_cents {
        Some(c) => Some(seq![("\u{1f4b0} "@ + cost_spec(c), super::fg_style(AnsiColor::Yellow))]),
        None => None,
    }
}

pub fn render(ctx: &Context) -> (r: Option<Vec<Segment>>)
    ensures
        super::opt_segs_view(r) == session_cost_spec(ctx),
{
    match ctx.session_cost_cents {
        Some(c) => {
            let mut t = String::new();
            push_str(&mut t, "\u{1f4b0} ");
            let a = format_cost_cents(c);
            push_str(&mut t, a.as_str());
            let mut v: Vec<Segment> = Vec::new();
            v.push(Segment::styled(t, Style::fg(Color::Ansi(AnsiColor::Yellow))));
            proof {
                assert(crate::render::segs_view(v@) =~= session_cost_spec(ctx)->0);
            }
            Some(v)
        },
        None => None,
    }
}

} // verus!
