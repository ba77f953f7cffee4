//! Segment composition and ANSI output. Widgets hand over segments (text
//! plus style); styling becomes escape codes only here.

pub mod color;
pub mod format;

use vstd::prelude::*;

use crate::render::color::{Color, Style};
use crate::config::{color_index, colors_unique, colors_view, config_colors_ok, Config, row_view};
use crate::context::Context;
use crate::text::{decimal, push_str};
use crate::widgets::{find_spec, widget_output_ok};

verus! {

/// A run of text with one style.
#[derive(Clone, Debug)]
pub struct Segment {
    pub text: String,
    pub style: Style,
}

/// Plain view of a segment.
pub type SegView = (Seq<char>, Style);

pub open spec fn seg_view(s: Segment) -> SegView {
    (s.text@, s.style)
}

pub open spec fn segs_view(v: Seq<Segment>) -> Seq<SegView> {
    v.map_values(|s: Segment| seg_view(s))
}

impl Segment {
    /// Unstyled text.
    pub fn plain(text: String) -> (s: Segment)
        ensures
            seg_view(s) == (text@, Style::spec_plain()),
    {
        Segment { text, style: Style::plain() }
    }

    pub fn styled(text: String, style: Style) -> (s: Segment)
        ensures
            seg_view(s) == (text@, style),
    {
        Segment { text, style }
    }
}

/// The segments of one output row.
#[derive(Clone, Debug)]
pub struct Line {
    pub segments: Vec<Segment>,
}

impl Line {
    pub fn push(&mut self, segment: Segment)
        ensures
            final(self).segments@ == old(self).segments@.push(segment),
    {
        self.segments.push(segment);
    }

    pub fn is_empty(&self) -> (b: bool)
        ensures
            b == (self.segments@.len() == 0),
    {
        self.segments.len() == 0
    }
}

// ---------- ANSI codes (anstyle) ----------

pub open spec fn esc_code(body: Seq<char>) -> Seq<char> {
    seq!['\x1b', '['] + body + seq!['m']
}

/// `ESC[1m`.
pub open spec fn sgr_bold_spec() -> Seq<char> {
    esc_code(seq!['1'])
}

/// `ESC[0m`.
pub open spec fn sgr_reset_spec() -> Seq<char> {
    esc_code(seq!['0'])
}

/// Foreground code of palette color `i`: `3i` for 0..8, `9(i-8)` above.
pub open spec fn ansi_fg_spec(i: nat) -> Seq<char> {
    if i < 8 {
        esc_code(seq!['3'] + decimal(i))
    } else {
        esc_code(seq!['9'] + decimal((i - 8) as nat))
    }
}

/// Background code of palette color `i`: `4i` for 0..8, `10(i-8)` above.
pub open spec fn ansi_bg_spec(i: nat) -> Seq<char> {
    if i < 8 {
        esc_code(seq!['4'] + decimal(i))
    } else {
        esc_code(seq!['1', '0'] + decimal((i - 8) as nat))
    }
}

/// 24-bit color code, `38;2;r;g;b` (foreground) or `48;2;r;g;b`.
pub open spec fn rgb_spec(lead: char, r: nat, g: nat, b: nat) -> Seq<char> {
    esc_code(seq![lead, '8', ';', '2', ';'] + decimal(r) + seq![';'] + decimal(g) + seq![';']
        + decimal(b))
}

/// `anstyle::Effects::BOLD.render()`: `ESC[1m`.
#[verifier::external_body]
fn sgr_bold() -> (s: String)
    ensures
        s@ == sgr_bold_spec(),
{
    anstyle::Effects::BOLD.render().to_string()
}

/// `anstyle::Reset.render()`: `ESC[0m`.
#[verifier::external_body]
fn sgr_reset() -> (s: String)
    ensures
        s@ == sgr_reset_spec(),
{
    anstyle::Reset.render().to_string()
}

/// `AnsiColor::render_fg()` of the palette color with index `i`
/// (`Ansi256Color(i).into_ansi()`): `ESC[3Xm` or `ESC[9Xm`.
#[verifier::external_body]
fn sgr_ansi_fg(i: u8) -> (s: String)
    requires
        i < 16,
    ensures
        s@ == ansi_fg_spec(i as nat),
{
    match anstyle::Ansi256Color(i).into_ansi() {
        Some(c) => c.render_fg().to_string(),
        None => String::new(),
    }
}

/// `AnsiColor::render_bg()` of the palette color with index `i`:
/// `ESC[4Xm` or `ESC[10Xm`.
#[verifier::external_body]
fn sgr_ansi_bg(i: u8) -> (s: String)
    requires
        i < 16,
    ensures
        s@ == ansi_bg_spec(i as nat),
{
    match anstyle::Ansi256Color(i).into_ansi() {
        Some(c) => c.render_bg().to_string(),
        None => String::new(),
    }
}

/// `RgbColor(r, g, b).render_fg()`: `ESC[38;2;r;g;bm`.
#[verifier::external_body]
fn sgr_rgb_fg(r: u8, g: u8, b: u8) -> (s: String)
    ensures
        s@ == rgb_spec('3', r as nat, g as nat, b as nat),
{
    anstyle::RgbColor(r, g, b).render_fg().to_string()
}

/// `RgbColor(r, g, b).render_bg()`: `ESC[48;2;r;g;bm`.
#[verifier::external_body]
fn sgr_rgb_bg(r: u8, g: u8, b: u8) -> (s: String)
    ensures
        s@ == rgb_spec('4', r as nat, g as nat, b as nat),
{
    anstyle::RgbColor(r, g, b).render_bg().to_string()
}

pub open spec fn fg_code(c: Option<Color>) -> Seq<char> {
    match c {
        Some(Color::Ansi(a)) => ansi_fg_spec(a.spec_index() as nat),
        Some(Color::Rgb(r, g, b)) => rgb_spec('3', r as nat, g as nat, b as nat),
        None => seq![],
    }
}

pub open spec fn bg_code(c: Option<Color>) -> Seq<char> {
    match c {
        Some(Color::Ansi(a)) => ansi_bg_spec(a.spec_index() as nat),
        Some(Color::Rgb(r, g, b)) => rgb_spec('4', r as nat, g as nat, b as nat),
        None => seq![],
    }
}

/// The escape codes that open a style, in anstyle's order: effects, then
/// foreground, then background.
pub open spec fn style_prefix(st: Style) -> Seq<char> {
    (if st.bold { sgr_bold_spec() } else { seq![] }) + fg_code(st.fg) + bg_code(st.bg)
}

/// Text of one segment: bare when color is off or the style is plain,
/// otherwise wrapped in the style's codes and a reset.
pub open spec fn seg_text(s: SegView, color_on: bool) -> Seq<char> {
    if !color_on || s.1 == Style::spec_plain() {
        s.0
    } else {
        style_prefix(s.1) + s.0 + sgr_reset_spec()
    }
}

/// Concatenated text of a row.
pub open spec fn line_text(segs: Seq<SegView>, color_on: bool) -> Seq<char>
    decreases segs.len(),
{
    if segs.len() == 0 {
        seq![]
    } else {
        line_text(segs.drop_last(), color_on) + seg_text(segs.last(), color_on)
    }
}

/// Rows joined with `\n`; empty rows are dropped, and there is no trailing
/// newline.
pub open spec fn emit_spec(lines: Seq<Seq<SegView>>, color_on: bool) -> Seq<char>
    decreases lines.len(),
{
    if lines.len() == 0 {
        seq![]
    } else {
        let prev = emit_spec(lines.drop_last(), color_on);
        let last = lines.last();
        if last.len() == 0 {
            prev
        } else if prev.len() == 0 && all_empty(lines.drop_last()) {
            line_text(last, color_on)
        } else {
            prev + seq!['\n'] + line_text(last, color_on)
        }
    }
}

/// Every row is empty.
pub open spec fn all_empty(lines: Seq<Seq<SegView>>) -> bool {
    forall|i: int| 0 <= i < lines.len() ==> (#[trigger] lines[i]).len() == 0
}

fn push_color_code(s: &mut String, c: Option<Color>, foreground: bool)
    ensures
        final(s)@ == old(s)@ + (if foreground { fg_code(c) } else { bg_code(c) }),
{
    match c {
        Some(Color::Ansi(a)) => {
            let i = a.index();
            let code = if foreground { sgr_ansi_fg(i) } else { sgr_ansi_bg(i) };
            push_str(s, code.as_str());
        },
        Some(Color::Rgb(r, g, b)) => {
            let code = if foreground { sgr_rgb_fg(r, g, b) } else { sgr_rgb_bg(r, g, b) };
            push_str(s, code.as_str());
        },
        None => {
            proof {
                assert(final(s)@ =~= old(s)@ + (if foreground { fg_code(c) } else { bg_code(c) }));
            }
        },
    }
}

fn push_segment(out: &mut String, seg: &Segment, color_on: bool)
    ensures
        final(out)@ == old(out)@ + seg_text(seg_view(*seg), color_on),
{
    let ghost o = out@;
    let ghost st = seg.style;
    if !color_on || seg.style.is_plain() {
        push_str(out, seg.text.as_str());
    } else {
        let ghost bold_part = if st.bold { sgr_bold_spec() } else { seq![] };
        if seg.style.bold {
            let b = sgr_bold();
            push_str(out, b.as_str());
        }
        assert(out@ == o + bold_part);
        push_color_code(out, seg.style.fg, true);
        assert(out@ == o + bold_part + fg_code(st.fg));
        push_color_code(out, seg.style.bg, false);
        assert(out@ == o + bold_part + fg_code(st.fg) + bg_code(st.bg));
        push_str(out, seg.text.as_str());
        let r = sgr_reset();
        push_str(out, r.as_str());
        proof {
            assert(style_prefix(st) == bold_part + fg_code(st.fg) + bg_code(st.bg));
            assert(out@ =~= o + (style_prefix(st) + seg.text@ + sgr_reset_spec()));
        }
    }
}

pub open spec fn lines_segs_view(ls: Seq<Line>) -> Seq<Seq<SegView>> {
    ls.map_values(|l: Line| segs_view(l.segments@))
}

proof fn lemma_emit_empty_prefix(lines: Seq<Seq<SegView>>, color_on: bool)
    ensures
        all_empty(lines) ==> emit_spec(lines, color_on).len() == 0,
    decreases lines.len(),
{
    if lines.len() > 0 {
        lemma_emit_empty_prefix(lines.drop_last(), color_on);
        if all_empty(lines) {
            assert(all_empty(lines.drop_last())) by {
                assert forall|i: int| 0 <= i < lines.drop_last().len() implies (
                #[trigger] lines.drop_last()[i]).len() == 0 by {
                    assert(lines.drop_last()[i] == lines[i]);
                }
            }
            assert(lines.last() == lines[lines.len() - 1]);
        }
    }
}

/// Join the rows into the final output string.
pub fn emit(lines: &[Line], color_on: bool) -> (out: String)
    ensures
        out@ == emit_spec(lines_segs_view(lines@), color_on),
{
    let ghost lv = lines_segs_view(lines@);
    let mut out = String::new();
    let mut first_line = true;
    let mut i: usize = 0;
    proof {
        assert(lv.take(0) =~= Seq::<Seq<SegView>>::empty());
    }
    while i < lines.len()
        invariant
            i <= lines@.len(),
            lv == lines_segs_view(lines@),
            out@ == emit_spec(lv.take(i as int), color_on),
            first_line == all_empty(lv.take(i as int)),
        decreases lines.len() - i,
    {
        let line = &lines[i];
        let ghost pre = lv.take(i as int);
        let ghost nxt = lv.take(i + 1);
        proof {
            assert(nxt.drop_last() =~= pre);
            assert(nxt.last() == lv[i as int]);
            assert(lv[i as int] == segs_view(line.segments@));
            lemma_emit_empty_prefix(pre, color_on);
        }
        if line.is_empty() {
            proof {
                assert(all_empty(nxt) == all_empty(pre)) by {
                    if all_empty(pre) {
                        assert forall|k: int| 0 <= k < nxt.len() implies (#[trigger] nxt[k]).len() == 0 by {
                            if k < pre.len() {
                                assert(nxt[k] == pre[k]);
                            }
                        }
                    } else {
                        let k = choose|k: int| 0 <= k < pre.len() && (#[trigger] pre[k]).len() != 0;
                        assert(nxt[k] == pre[k]);
                    }
                }
            }
        } else {
            if !first_line {
                out.push('\n');
            }
            let ghost before = out@;
            let mut j: usize = 0;
            let ghost segs = segs_view(line.segments@);
            proof {
                assert(segs.take(0) =~= Seq::<SegView>::empty());
            }
            while j < line.segments.len()
                invariant
                    j <= line.segments@.len(),
                    segs == segs_view(line.segments@),
                    out@ == before + line_text(segs.take(j as int), color_on),
                decreases line.segments.len() - j,
            {
                push_segment(&mut out, &line.segments[j], color_on);
                j += 1;
                proof {
                    assert(segs.take(j as int).drop_last() =~= segs.take(j - 1));
                    assert(segs.take(j as int).last() == seg_view(line.segments@[j - 1]));
                }
            }
            proof {
                assert(segs.take(segs.len() as int) =~= segs);
                assert(!all_empty(nxt)) by {
                    assert(nxt[i as int].len() != 0);
                }
            }
            first_line = false;
        }
        i += 1;
    }
    proof {
        assert(lv.take(lines@.len() as int) =~= lv);
    }
    out
}


// ---------- rows ----------

/// The separator between two widgets on a row.
pub const INTER_WIDGET_SEPARATOR: &'static str = " | ";

/// The user's style for `kind`, when color is on, the config has an entry
/// for it, and the entry's colors parse.
pub open spec fn override_spec(cfg: Config, kind: Seq<char>, color_on: bool) -> Option<Style> {
    if !color_on {
        None
    } else {
        match color_index(colors_view(cfg.colors@), kind) {
            Some(i) => match cfg.colors@[i].1.style_spec() {
                Ok(st) => Some(st),
                Err(_) => None,
            },
            None => None,
        }
    }
}

/// Replace every segment's style (a user override wins absolutely).
pub open spec fn restyle(segs: Seq<SegView>, st: Option<Style>) -> Seq<SegView> {
    match st {
        Some(s) => segs.map_values(|x: SegView| (x.0, s)),
        None => segs,
    }
}

/// The widget outputs of a row: one per kind, `None` for unknown kinds,
/// and what each widget may show otherwise.
pub open spec fn outputs_ok(ctx: &Context, kinds: Seq<Seq<char>>, outs: Seq<Option<Seq<SegView>>>) -> bool {
    outs.len() == kinds.len() && forall|j: int|
        0 <= j < kinds.len() ==> match find_spec(#[trigger] kinds[j]) {
            None => outs[j] is None,
            Some(k) => widget_output_ok(k, ctx, outs[j]),
        }
}

/// The first `n` widget outputs of a row, joined with separators; the
/// flag says whether any widget has shown something.
pub open spec fn row_spec(
    cfg: Config,
    kinds: Seq<Seq<char>>,
    outs: Seq<Option<Seq<SegView>>>,
    color_on: bool,
    n: int,
) -> (Seq<SegView>, bool)
    decreases n,
{
    if n <= 0 {
        (seq![], false)
    } else {
        let (prev, any) = row_spec(cfg, kinds, outs, color_on, n - 1);
        match outs[n - 1] {
            None => (prev, any),
            Some(segs) => (
                prev + (if any {
                    seq![(" | "@, Style::spec_plain())]
                } else {
                    seq![]
                }) + restyle(segs, override_spec(cfg, kinds[n - 1], color_on)),
                true,
            ),
        }
    }
}

fn restyle_exec(segs: Vec<Segment>, st: Option<Style>) -> (r: Vec<Segment>)
    ensures
        segs_view(r@) == restyle(segs_view(segs@), st),
{
    match st {
        None => segs,
        Some(s) => {
            let mut r: Vec<Segment> = Vec::new();
            let mut i: usize = 0;
            while i < segs.len()
                invariant
                    i <= segs@.len(),
                    segs_view(r@) == restyle(segs_view(segs@), Some(s)).take(i as int),
                decreases segs.len() - i,
            {
                let t = segs[i].text.clone();
                let ghost before = segs_view(r@);
                let ghost full = restyle(segs_view(segs@), Some(s));
                r.push(Segment { text: t, style: s });
                proof {
                    assert(segs_view(r@) =~= before.push((segs@[i as int].text@, s)));
                    assert(full[i as int] == (segs_view(segs@)[i as int].0, s));
                    assert(full.take(i + 1) =~= full.take(i as int).push(full[i as int]));
                }
                i += 1;
            }
            proof {
                assert(restyle(segs_view(segs@), Some(s)).take(segs@.len() as int) =~= restyle(segs_view(segs@), Some(s)));
            }
            r
        },
    }
}

proof fn lemma_row_spec_prefix(
    cfg: Config,
    kinds: Seq<Seq<char>>,
    outs: Seq<Option<Seq<SegView>>>,
    extra: Option<Seq<SegView>>,
    color_on: bool,
    n: int,
)
    requires
        0 <= n <= outs.len(),
    ensures
        row_spec(cfg, kinds, outs.push(extra), color_on, n) == row_spec(cfg, kinds, outs, color_on, n),
    decreases n,
{
    if n > 0 {
        lemma_row_spec_prefix(cfg, kinds, outs, extra, color_on, n - 1);
        assert(outs.push(extra)[n - 1] == outs[n - 1]);
    }
}

/// The style override `build_line` applies to `kind`.
fn override_for(cfg: &Config, kind: &str, color_on: bool) -> (r: Option<Style>)
    requires
        colors_unique(colors_view(cfg.colors@)),
        config_colors_ok(*cfg),
    ensures
        r == override_spec(*cfg, kind@, color_on),
{
    if !color_on {
        return None;
    }
    match crate::config::find_color(&cfg.colors, kind) {
        Some(i) => {
            proof {
                assert(crate::render::color::opt_text_ok(cfg.colors@[i as int].1.fg));
            }
            match cfg.colors[i].1.to_style() {
                Ok(st) => Some(st),
                Err(_) => None,
            }
        },
        None => None,
    }
}

/// Assemble one row: each known widget that shows something, separated by
/// ` | `, with the user override (if any) replacing its styles.
pub fn build_line(ctx: &Context, kinds: &Vec<String>, cfg: &Config, color_on: bool) -> (line: Line)
    requires
        colors_unique(colors_view(cfg.colors@)),
        config_colors_ok(*cfg),
    ensures
        exists|outs: Seq<Option<Seq<SegView>>>|
            outputs_ok(ctx, row_view(*kinds), outs) && segs_view(line.segments@) == row_spec(
                *cfg,
                row_view(*kinds),
                outs,
                color_on,
                kinds@.len() as int,
            ).0,
{
    let ghost kv = row_view(*kinds);
    let mut line = Line { segments: Vec::new() };
    let mut first = true;
    let ghost mut outs: Seq<Option<Seq<SegView>>> = seq![];
    let mut j: usize = 0;
    while j < kinds.len()
        invariant
            j <= kinds@.len(),
            kv == row_view(*kinds),
            colors_unique(colors_view(cfg.colors@)),
            config_colors_ok(*cfg),
            outs.len() == j,
            forall|q: int|
                0 <= q < j ==> match find_spec(#[trigger] kv[q]) {
                    None => outs[q] is None,
                    Some(k) => widget_output_ok(k, ctx, outs[q]),
                },
            segs_view(line.segments@) == row_spec(*cfg, kv, outs, color_on, j as int).0,
            first == !row_spec(*cfg, kv, outs, color_on, j as int).1,
        decreases kinds.len() - j,
    {
        let kind = kinds[j].as_str();
        proof {
            assert(kv[j as int] == kind@);
            lemma_row_spec_prefix(*cfg, kv, outs, None, color_on, j as int);
        }
        match crate::widgets::find(kind) {
            None => {
                proof {
                    outs = outs.push(None);
                }
            },
            Some(k) => {
                let out = crate::widgets::render_widget(k, ctx);
                match out {
                    None => {
                        proof {
                            outs = outs.push(None);
                        }
                    },
                    Some(segs) => {
                        let ghost sv = segs_view(segs@);
                        proof {
                            lemma_row_spec_prefix(*cfg, kv, outs, Some(sv), color_on, j as int);
                        }
                        let st = override_for(cfg, kind, color_on);
                        let mut styled = restyle_exec(segs, st);
                        if !first {
                            let mut sep = String::new();
                            push_str(&mut sep, INTER_WIDGET_SEPARATOR);
                            line.push(Segment::plain(sep));
                        }
                        let ghost before = segs_view(line.segments@);
                        let ghost added = segs_view(styled@);
                        line.segments.append(&mut styled);
                        proof {
                            assert(segs_view(line.segments@) =~= before + added);
                            outs = outs.push(Some(sv));
                        }
                        first = false;
                    },
                }
            },
        }
        j += 1;
    }
    proof {
        assert(outputs_ok(ctx, kv, outs));
    }
    line
}

/// A row's kinds name at least one git widget.
pub open spec fn config_needs_git(cfg: Config) -> bool {
    exists|i: int, j: int|
        0 <= i < cfg.lines@.len() && 0 <= j < cfg.lines@[i]@.len() && (match find_spec(
            #[trigger] cfg.lines@[i]@[j]@,
        ) {
            Some(k) => k.spec_needs_git(),
            None => false,
        })
}

/// The rendered output of `cfg` for the given widget outputs.
pub open spec fn render_spec(cfg: Config, outs: Seq<Seq<Option<Seq<SegView>>>>, color_on: bool) -> Seq<char> {
    emit_spec(
        Seq::new(
            cfg.lines@.len(),
            |i: int| row_spec(cfg, row_view(cfg.lines@[i]), outs[i], color_on, cfg.lines@[i]@.len() as int).0,
        ),
        color_on,
    )
}

/// Every row's outputs are what its widgets may show.
pub open spec fn all_outputs_ok(ctx: &Context, cfg: Config, outs: Seq<Seq<Option<Seq<SegView>>>>) -> bool {
    outs.len() == cfg.lines@.len() && forall|i: int|
        0 <= i < cfg.lines@.len() ==> outputs_ok(ctx, row_view(#[trigger] cfg.lines@[i]), outs[i])
}

/// Render `cfg` against `ctx`, with styling when `color_on`.
pub fn render_with_mode(ctx: &Context, cfg: &Config, color_on: bool) -> (out: String)
    requires
        colors_unique(colors_view(cfg.colors@)),
        config_colors_ok(*cfg),
    ensures
        exists|outs: Seq<Seq<Option<Seq<SegView>>>>|
            all_outputs_ok(ctx, *cfg, outs) && out@ == render_spec(*cfg, outs, color_on),
{
    let mut lines: Vec<Line> = Vec::new();
    let ghost mut outs: Seq<Seq<Option<Seq<SegView>>>> = seq![];
    let mut i: usize = 0;
    while i < cfg.lines.len()
        invariant
            i <= cfg.lines@.len(),
            colors_unique(colors_view(cfg.colors@)),
            config_colors_ok(*cfg),
            lines@.len() == i,
            outs.len() == i,
            forall|q: int|
                0 <= q < i ==> outputs_ok(ctx, row_view(#[trigger] cfg.lines@[q]), outs[q]),
            forall|q: int|
                0 <= q < i ==> segs_view((#[trigger] lines@[q]).segments@) == row_spec(
                    *cfg,
                    row_view(cfg.lines@[q]),
                    outs[q],
                    color_on,
                    cfg.lines@[q]@.len() as int,
                ).0,
        decreases cfg.lines.len() - i,
    {
        let line = build_line(ctx, &cfg.lines[i], cfg, color_on);
        let ghost o = choose|o: Seq<Option<Seq<SegView>>>|
            outputs_ok(ctx, row_view(cfg.lines@[i as int]), o) && segs_view(line.segments@)
                == row_spec(*cfg, row_view(cfg.lines@[i as int]), o, color_on, cfg.lines@[i as int]@.len() as int).0;
        lines.push(line);
        proof {
            outs = outs.push(o);
        }
        i += 1;
    }
    let out = emit(lines.as_slice(), color_on);
    proof {
        let want = Seq::new(
            cfg.lines@.len(),
            |q: int| row_spec(*cfg, row_view(cfg.lines@[q]), outs[q], color_on, cfg.lines@[q]@.len() as int).0,
        );
        assert(lines_segs_view(lines@) =~= want);
        assert(all_outputs_ok(ctx, *cfg, outs));
    }
    out
}

/// Render under a color mode and environment.
pub fn render(ctx: &Context, cfg: &Config, mode: crate::render::color::ColorMode, env: &crate::render::color::ColorEnv) -> (out: String)
    requires
        colors_unique(colors_view(cfg.colors@)),
        config_colors_ok(*cfg),
    ensures
        exists|outs: Seq<Seq<Option<Seq<SegView>>>>|
            all_outputs_ok(ctx, *cfg, outs) && out@ == render_spec(*cfg, outs, mode.spec_resolve(*env)),
{
    let on = mode.resolve(env);
    render_with_mode(ctx, cfg, on)
}

/// Render the default layout.
pub fn render_default(ctx: &Context, color_on: bool) -> (out: String)
    ensures
        exists|outs: Seq<Seq<Option<Seq<SegView>>>>, cfg: Config|
            cfg@.lines == crate::config::default_lines() && cfg@.colors.len() == 0 && all_outputs_ok(ctx, cfg, outs) && out@ == render_spec(cfg, outs, color_on),
{
    let cfg = Config::default_layout();
    proof {
        assert(colors_unique(colors_view(cfg.colors@)));
    }
    render_with_mode(ctx, &cfg, color_on)
}

// ---------- laws ----------

proof fn lemma_row_spec_color_off(
    a: Config,
    b: Config,
    kinds: Seq<Seq<char>>,
    outs: Seq<Option<Seq<SegView>>>,
    n: int,
)
    ensures
        row_spec(a, kinds, outs, false, n) == row_spec(b, kinds, outs, false, n),
    decreases n,
{
    if n > 0 {
        lemma_row_spec_color_off(a, b, kinds, outs, n - 1);
    }
}

/// Law: with color off (`NO_COLOR`, or `ColorMode::Never`) the color
/// overrides of a config make no difference: two configs with the same
/// layout render the same text.
pub proof fn color_off_ignores_overrides(a: Config, b: Config, outs: Seq<Seq<Option<Seq<SegView>>>>)
    requires
        a.lines@ == b.lines@,
    ensures
        render_spec(a, outs, false) == render_spec(b, outs, false),
{
    let ra = Seq::new(
        a.lines@.len(),
        |i: int| row_spec(a, row_view(a.lines@[i]), outs[i], false, a.lines@[i]@.len() as int).0,
    );
    let rb = Seq::new(
        b.lines@.len(),
        |i: int| row_spec(b, row_view(b.lines@[i]), outs[i], false, b.lines@[i]@.len() as int).0,
    );
    assert forall|i: int| 0 <= i < ra.len() implies ra[i] == rb[i] by {
        lemma_row_spec_color_off(a, b, row_view(a.lines@[i]), outs[i], a.lines@[i]@.len() as int);
    }
    assert(ra =~= rb);
}

proof fn lemma_line_text_plain(segs: Seq<SegView>)
    ensures
        line_text(segs, false) == line_text(segs.map_values(|x: SegView| (x.0, Style::spec_plain())), true),
    decreases segs.len(),
{
    if segs.len() > 0 {
        let m = segs.map_values(|x: SegView| (x.0, Style::spec_plain()));
        lemma_line_text_plain(segs.drop_last());
        assert(m.drop_last() =~= segs.drop_last().map_values(|x: SegView| (x.0, Style::spec_plain())));
    }
}

/// Law: with color off a row's text is just its segments' texts, the same
/// as with color on and every style plain: no escape code is emitted.
pub proof fn color_off_is_plain_text(segs: Seq<SegView>)
    ensures
        line_text(segs, false) == line_text(segs.map_values(|x: SegView| (x.0, Style::spec_plain())), true),
{
    lemma_line_text_plain(segs);
}


/// Law: a user override replaces the style of every segment of the widget
/// (it is not merged with the theme) and keeps the texts.
pub proof fn override_replaces_every_style(segs: Seq<SegView>, st: Style)
    ensures
        restyle(segs, Some(st)).len() == segs.len(),
        forall|i: int|
            0 <= i < segs.len() ==> (#[trigger] restyle(segs, Some(st))[i]) == (segs[i].0, st),
{
}

/// Law: a config with no color entry for a kind (as after `config color
/// <kind> --clear`) leaves that widget's own theme styles in place.
pub proof fn missing_override_keeps_theme(cfg: Config, kind: Seq<char>, segs: Seq<SegView>, color_on: bool)
    requires
        color_index(colors_view(cfg.colors@), kind) is None,
    ensures
        override_spec(cfg, kind, color_on) is None,
        restyle(segs, override_spec(cfg, kind, color_on)) == segs,
{
}

} // verus!
