//! Branch name from the git probe: `🌿 <branch>`, green.

use vstd::prelude::*;

use crate::context::Context;
use crate::context::payload::opt_view;
use crate::render::color::{AnsiColor, Color, Style};
use crate::render::{SegView, Segment};
use crate::text::push_str;

verus! {

pub open spec fn git_branch_spec(ctx: &Context) -> Option<Seq<SegView>> {
    match ctx.git {
        Some(g) => match opt_view(g.branch) {
            Some(b) => Some(seq![("\u{1f33f} "@ + b, super::fg_style(AnsiColor::Green))]),
            None => None,
        },
        None => None,
    }
}

pub fn render(ctx: &Context) -> (r: Option<Vec<Segment>>)
    ensures
        super::opt_segs_view(r) == git_branch_spec(ctx),
{
    match &ctx.git {
        Some(g) => match &g.branch {
            Some(b) => {
                let mut t = String::new();
                push_str(&mut t, "\u{1f33f} ");
                push_str(&mut t, b.as_str());
                let mut v: Vec<Segment> = Vec::new();
                v.push(Segment::styled(t, Style::fg(Color::Ansi(AnsiColor::Green))));
                proof {
                    assert(crate::render::segs_view(v@) =~= git_branch_spec(ctx)->0);
                }
                Some(v)
            },
            None => None,
        },
        None => None,
    }
}

} // verus!
