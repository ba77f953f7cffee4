//! Context usage: `🔋 [bar] used/total(pct%)`. The filled cells take the
//! usage tier color; icon, brackets, empty cells and numbers stay plain.

use vstd::prelude::*;

use crate::context::Context;
use crate::render::color::Style;
use crate::render::format::{abbreviate_spec, abbreviate_tokens, format_percent_paren, percent_paren_spec};
use crate::render::{SegView, Segment};
use crate::text::push_str;

verus! {

pub open spec fn context_bar_spec(ctx: &Context) -> Option<Seq<SegView>> {
    match ctx.context_metrics {
        Some(m) => Some(
            seq![("\u{1f50b} ["@, Style::spec_plain())] + super::bar_cells_spec(m.used_percent) + seq![
                (
                    "] "@ + abbreviate_spec(m.used_tokens as nat) + "/"@ + abbreviate_spec(
                        m.total_tokens as nat,
                    ) + percent_paren_spec(m.used_percent),
                    Style::spec_plain(),
                ),
            ],
        ),
        None => None,
    }
}

pub fn render(ctx: &Context) -> (r: Option<Vec<Segment>>)
    ensures
        super::opt_segs_view(r) == context_bar_spec(ctx),
{
    match ctx.context_metrics {
        Some(m) => {
            let mut v: Vec<Segment> = Vec::new();
            let mut head = String::new();
            push_str(&mut head, "\u{1f50b} [");
            v.push(Segment::plain(head));
            let ghost after_head = crate::render::segs_view(v@);
            super::push_bar_cells(&mut v, m.used_percent);
            let mut tail = String::new();
            push_str(&mut tail, "] ");
            let used = abbreviate_tokens(m.used_tokens);
            push_str(&mut tail, used.as_str());
            push_str(&mut tail, "/");
            let total = abbreviate_tokens(m.total_tokens);
            push_str(&mut tail, total.as_str());
            let pct = format_percent_paren(m.used_percent);
            push_str(&mut tail, pct.as_str());
            let ghost before_tail = crate::render::segs_view(v@);
            v.push(Segment::plain(tail));
            proof {
                assert(crate::render::segs_view(v@) =~= before_tail.push(
                    crate::render::seg_view(v@[v@.len() - 1]),
                ));
                assert(crate::render::segs_view(v@) =~= context_bar_spec(ctx)->0);
            }
            Some(v)
        },
        None => None,
    }
}

} // verus!
