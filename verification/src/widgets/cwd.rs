//! Working directory widget: `📂 <path>`, blue, untruncated.

use vstd::prelude::*;

use crate::context::Context;
use crate::context::payload::opt_view;
use crate::render::color::{AnsiColor, Color, Style};
use crate::render::{SegView, Segment};
use crate::text::push_str;

verus! {

pub open spec fn cwd_spec(ctx: &Context) -> Option<Seq<SegView>> {
    match opt_view(ctx.cwd) {
        Some(c) => Some(seq![("\u{1f4c2} "@ + c, super::fg_style(AnsiColor::Blue))]),
        None => None,
    }
}

pub fn render(ctx: &Context) -> (r: Option<Vec<Segment>>)
    ensures
        super::opt_segs_view(r) == cwd_spec(ctx),
{
    match &ctx.cwd {
        Some(c) => {
            let mut t = String::new();
            push_str(&mut t, "\u{1f4c2} ");
            push_str(&mut t, c.as_str());
            let mut v: Vec<Segment> = Vec::new();
            v.push(Segment::styled(t, Style::fg(Color::Ansi(AnsiColor::Blue))));
            proof {
                assert(crate::render::segs_view(v@) =~= cwd_spec(ctx)->0);
            }
            Some(v)
        },
        None => None,
    }
}

} // verus!
