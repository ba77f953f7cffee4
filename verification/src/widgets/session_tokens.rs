//! Session token widget: `📊 <abbreviated count>`, magenta.

use vstd::prelude::*;

use crate::context::Context;
use crate::render::color::{AnsiColor, Color, Style};
use crate::render::format::{abbreviate_spec, abbreviate_tokens};
use crate::render::{SegView, Segment};
use crate::text::push_str;

verus! {

pub open spec fn session_tokens_spec(ctx: &Context) -> Option<Seq<SegView>> {
    match ctx.session_tokens {
        Some(n) => Some(
            seq![("\u{1f4ca} "@ + abbreviate_spec(n as nat), super::fg_style(AnsiColor::Magenta))],
        ),
        None => None,
    }
}

pub fn render(ctx: &Context) -> (r: Option<Vec<Segment>>)
    ensures
        super::opt_segs_view(r) == session_tokens_spec(ctx),
{
    match ctx.session_tokens {
        Some(n) => {
            let mut t = String::new();
            push_str(&mut t, "\u{1f4ca} ");
            let a = abbreviate_tokens(n);
            push_str(&mut t, a.as_str());
            let mut v: Vec<Segment> = Vec::new();
            v.push(Segment::styled(t, Style::fg(Color::Ansi(AnsiColor::Magenta))));
            proof {
                assert(crate::render::segs_view(v@) =~= session_tokens_spec(ctx)->0);
            }
            Some(v)
        },
        None => None,
    }
}

} // verus!
