//! Porcelain summary: `⛓ S2 M3 ?1 !1`, each class shown only when non-zero
//! (`S` staged, `M` unstaged, `?` untracked, `!` conflicts); a clean repo
//! shows `⛓ ✓`. Yellow.

use vstd::prelude::*;

use crate::context::Context;
use crate::context::git::PorcelainCounts;
use crate::render::color::{AnsiColor, Color, Style};
use crate::render::{SegView, Segment};
use crate::text::{decimal, push_decimal, push_str};

verus! {

/// The non-zero classes, each as its letter and count.
pub open spec fn status_parts(p: PorcelainCounts) -> Seq<Seq<char>> {
    (if p.staged > 0 { seq![seq!['S'] + decimal(p.staged as nat)] } else { seq![] }) + (if p.unstaged
        > 0 {
        seq![seq!['M'] + decimal(p.unstaged as nat)]
    } else {
        seq![]
    }) + (if p.untracked > 0 {
        seq![seq!['?'] + decimal(p.untracked as nat)]
    } else {
        seq![]
    }) + (if p.conflicts > 0 {
        seq![seq!['!'] + decimal(p.conflicts as nat)]
    } else {
        seq![]
    })
}

/// Parts joined with single spaces.
pub open spec fn join_spaces(parts: Seq<Seq<char>>) -> Seq<char>
    decreases parts.len(),
{
    if parts.len() == 0 {
        seq![]
    } else if parts.len() == 1 {
        parts[0]
    } else {
        join_spaces(parts.drop_last()) + seq![' '] + parts.last()
    }
}

pub open spec fn status_body(p: PorcelainCounts) -> Seq<char> {
    if status_parts(p).len() == 0 {
        "\u{2713}"@
    } else {
        join_spaces(status_parts(p))
    }
}

pub open spec fn git_status_spec(ctx: &Context) -> Option<Seq<SegView>> {
    match ctx.git {
        Some(g) => Some(
            seq![("\u{26d3} "@ + status_body(g.porcelain), super::fg_style(AnsiColor::Yellow))],
        ),
        None => None,
    }
}

fn push_part(s: &mut String, any: bool, letter: char, n: u32)
    requires
        n > 0,
    ensures
        final(s)@ == old(s)@ + (if any { seq![' '] } else { seq![] }) + seq![letter] + decimal(n as nat),
{
    if any {
        s.push(' ');
    }
    s.push(letter);
    push_decimal(s, n as u64);
    proof {
        assert(final(s)@ =~= old(s)@ + (if any { seq![' '] } else { seq![] }) + seq![letter] + decimal(n as nat));
    }
}

proof fn lemma_join_push(parts: Seq<Seq<char>>, p: Seq<char>)
    ensures
        join_spaces(parts.push(p)) == join_spaces(parts) + (if parts.len() > 0 { seq![' '] } else { seq![] }) + p,
{
    assert(parts.push(p).drop_last() =~= parts);
    if parts.len() == 0 {
        assert(join_spaces(parts.push(p)) == p);
        assert(join_spaces(parts) =~= seq![]);
        assert(join_spaces(parts) + seq![] + p =~= p);
    }
}

pub fn render(ctx: &Context) -> (r: Option<Vec<Segment>>)
    ensures
        super::opt_segs_view(r) == git_status_spec(ctx),
{
    match &ctx.git {
        Some(g) => {
            let p = g.porcelain;
            let mut body = String::new();
            let mut any = false;
            let ghost mut parts: Seq<Seq<char>> = seq![];
            assert(body@ == join_spaces(parts));
            if p.staged > 0 {
                proof { lemma_join_push(parts, seq!['S'] + decimal(p.staged as nat)); }
                push_part(&mut body, any, 'S', p.staged);
                proof { parts = parts.push(seq!['S'] + decimal(p.staged as nat)); }
                any = true;
            }
            assert(body@ == join_spaces(parts) && any == (parts.len() > 0));
            if p.unstaged > 0 {
                proof { lemma_join_push(parts, seq!['M'] + decimal(p.unstaged as nat)); }
                push_part(&mut body, any, 'M', p.unstaged);
                proof { parts = parts.push(seq!['M'] + decimal(p.unstaged as nat)); }
                any = true;
            }
            assert(body@ == join_spaces(parts) && any == (parts.len() > 0));
            if p.untracked > 0 {
                proof { lemma_join_push(parts, seq!['?'] + decimal(p.untracked as nat)); }
                push_part(&mut body, any, '?', p.untracked);
                proof { parts = parts.push(seq!['?'] + decimal(p.untracked as nat)); }
                any = true;
            }
            assert(body@ == join_spaces(parts) && any == (parts.len() > 0));
            if p.conflicts > 0 {
                proof { lemma_join_push(parts, seq!['!'] + decimal(p.conflicts as nat)); }
                push_part(&mut body, any, '!', p.conflicts);
                proof { parts = parts.push(seq!['!'] + decimal(p.conflicts as nat)); }
                any = true;
            }
            assert(body@ == join_spaces(parts) && any == (parts.len() > 0));
            proof {
                assert(parts =~= status_parts(p));
            }
            let mut t = String::new();
            push_str(&mut t, "\u{26d3} ");
            if !any {
                push_str(&mut t, "\u{2713}");
            } else {
                push_str(&mut t, body.as_str());
            }
            let mut v: Vec<Segment> = Vec::new();
            v.push(Segment::styled(t, Style::fg(Color::Ansi(AnsiColor::Yellow))));
            proof {
                assert(crate::render::segs_view(v@) =~= git_status_spec(ctx)->0);
            }
            Some(v)
        },
        None => None,
    }
}

} // verus!
