//! Diff summary: `📝 +<ins> -<dels>`, insertions green and deletions red.
//! Hidden when both are zero.

use vstd::prelude::*;

use crate::context::Context;
use crate::render::color::{AnsiColor, Color, Style};
use crate::render::{line_text, SegView, Segment};
use crate::text::{decimal, push_decimal, push_str};

verus! {

pub open spec fn git_changes_spec(ctx: &Context) -> Option<Seq<SegView>> {
    match ctx.git {
        Some(g) => if g.diff.insertions == 0 && g.diff.deletions == 0 {
            None
        } else {
            Some(
                seq![
                    ("\u{1f4dd} "@, Style::spec_plain()),
                    (seq!['+'] + decimal(g.diff.insertions as nat), super::fg_style(AnsiColor::Green)),
                    (seq![' '], Style::spec_plain()),
                    (seq!['-'] + decimal(g.diff.deletions as nat), super::fg_style(AnsiColor::Red)),
                ],
            )
        },
        None => None,
    }
}

pub fn render(ctx: &Context) -> (r: Option<Vec<Segment>>)
    ensures
        super::opt_segs_view(r) == git_changes_spec(ctx),
{
    match &ctx.git {
        Some(g) => {
            let d = g.diff;
            if d.insertions == 0 && d.deletions == 0 {
                return None;
            }
            let mut icon = String::new();
            push_str(&mut icon, "\u{1f4dd} ");
            let mut ins = String::new();
            ins.push('+');
            push_decimal(&mut ins, d.insertions as u64);
            let mut sp = String::new();
            sp.push(' ');
            let mut del = String::new();
            del.push('-');
            push_decimal(&mut del, d.deletions as u64);
            let mut v: Vec<Segment> = Vec::new();
            v.push(Segment::plain(icon));
            v.push(Segment::styled(ins, Style::fg(Color::Ansi(AnsiColor::Green))));
            v.push(Segment::plain(sp));
            v.push(Segment::styled(del, Style::fg(Color::Ansi(AnsiColor::Red))));
            proof {
                assert(crate::render::segs_view(v@) =~= git_changes_spec(ctx)->0);
            }
            Some(v)
        },
        None => None,
    }
}

/// Law: with a git snapshot, the widget is hidden exactly when both
/// insertions and deletions are zero; otherwise its text (colors aside) is
/// `📝 +<insertions> -<deletions>`, so a change of only one kind still
/// shows, with `+0` or `-0` for the other. Without a snapshot it is hidden.
pub proof fn git_changes_hidden_only_without_changes(ctx: &Context)
    ensures
        ctx.git is None ==> git_changes_spec(ctx) is None,
        ctx.git matches Some(g) ==> (git_changes_spec(ctx) is None <==> (g.diff.insertions == 0
            && g.diff.deletions == 0)),
        ctx.git matches Some(g) ==> (git_changes_spec(ctx) matches Some(segs) ==> line_text(segs, false)
            == "\u{1f4dd} +"@ + decimal(g.diff.insertions as nat) + " -"@ + decimal(
            g.diff.deletions as nat,
        )),
{
    reveal_strlit("\u{1f4dd} +");
    reveal_strlit("\u{1f4dd} ");
    reveal_strlit(" -");
    if let Some(g) = ctx.git {
        if let Some(segs) = git_changes_spec(ctx) {
            let i = seq!['+'] + decimal(g.diff.insertions as nat);
            let d = seq!['-'] + decimal(g.diff.deletions as nat);
            assert(segs.len() == 4);
            assert(segs.drop_last().drop_last().drop_last().drop_last() =~= Seq::<SegView>::empty());
            reveal_with_fuel(line_text, 5);
            assert(line_text(segs, false) == "\u{1f4dd} "@ + i + seq![' '] + d);
            assert("\u{1f4dd} "@ + i + seq![' '] + d =~= "\u{1f4dd} +"@ + decimal(g.diff.insertions as nat) + " -"@
                + decimal(g.diff.deletions as nat));
        }
    }
}

} // verus!
