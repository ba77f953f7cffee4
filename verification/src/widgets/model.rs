//! Model widget: `✦ [<display name>]`, cyan and bold.

use vstd::prelude::*;

use crate::context::Context;
use crate::context::payload::opt_view;
use crate::render::color::{AnsiColor, Color, Style};
use crate::render::{SegView, Segment};
use crate::text::push_str;

verus! {

pub open spec fn model_style() -> Style {
    Style { fg: Some(Color::Ansi(AnsiColor::Cyan)), bg: None, bold: true }
}

pub open spec fn model_spec(ctx: &Context) -> Option<Seq<SegView>> {
    match opt_view(ctx.model_display) {
        Some(name) => Some(seq![("\u{2726} ["@ + name + "]"@, model_style())]),
        None => None,
    }
}

pub fn render(ctx: &Context) -> (r: Option<Vec<Segment>>)
    ensures
        super::opt_segs_view(r) == model_spec(ctx),
{
    match &ctx.model_display {
        Some(name) => {
            let mut t = String::new();
            push_str(&mut t, "\u{2726} [");
            push_str(&mut t, name.as_str());
            push_str(&mut t, "]");
            let style = Style { fg: Some(Color::Ansi(AnsiColor::Cyan)), bg: None, bold: true };
            let mut v: Vec<Segment> = Vec::new();
            v.push(Segment::styled(t, style));
            proof {
                assert(crate::render::segs_view(v@) =~= model_spec(ctx)->0);
            }
            Some(v)
        },
        None => None,
    }
}

} // verus!
