//! The on-disk layout: which widgets go on which line, the time zone, and
//! per-widget color overrides. Every mutation funnels through
//! [`Config::validate`] semantics so unknown widget kinds, bad colors and
//! version mismatches never reach disk.

use vstd::prelude::*;

use crate::context::payload::opt_view;
use crate::error::Error;
use crate::render::color::{opt_text_ok, parse_color, parse_color_spec, ColorStyle, Style};
use crate::text::{decimal, push_decimal, push_str};
use crate::widgets::find_spec;

verus! {

/// Schema version. Bumped only on breaking changes; unknown values are
/// refused.
pub const CONFIG_VERSION: u32 = 1;

#[derive(Clone, Debug)]
pub struct Config {
    pub version: u32,
    /// IANA timezone name, `"system"`, or `None` for the project default.
    pub tz: Option<String>,
    /// Outer vector = lines, top to bottom. Inner vector = widget kinds,
    /// left to right.
    pub lines: Vec<Vec<String>>,
    /// Per-widget color overrides, one entry per widget kind (kinds are
    /// unique). Serialized as a map sorted by kind.
    pub colors: Vec<(String, ColorStyle)>,
}

/// Plain view of a color override.
pub struct ColorStyleView {
    pub fg: Option<Seq<char>>,
    pub bg: Option<Seq<char>>,
    pub bold: Option<bool>,
}

pub open spec fn style_view(c: ColorStyle) -> ColorStyleView {
    ColorStyleView { fg: opt_view(c.fg), bg: opt_view(c.bg), bold: c.bold }
}

/// Plain view of a config.
pub struct ConfigView {
    pub version: u32,
    pub tz: Option<Seq<char>>,
    pub lines: Seq<Seq<Seq<char>>>,
    pub colors: Seq<(Seq<char>, ColorStyleView)>,
}

pub open spec fn row_view(r: Vec<String>) -> Seq<Seq<char>> {
    r@.map_values(|k: String| k@)
}

pub open spec fn lines_view(ls: Seq<Vec<String>>) -> Seq<Seq<Seq<char>>> {
    ls.map_values(|r: Vec<String>| row_view(r))
}

pub open spec fn colors_view(cs: Seq<(String, ColorStyle)>) -> Seq<(Seq<char>, ColorStyleView)> {
    cs.map_values(|e: (String, ColorStyle)| (e.0@, style_view(e.1)))
}

impl View for Config {
    type V = ConfigView;

    open spec fn view(&self) -> ConfigView {
        ConfigView {
            version: self.version,
            tz: opt_view(self.tz),
            lines: lines_view(self.lines@),
            colors: colors_view(self.colors@),
        }
    }
}

/// No two color entries name the same widget kind.
pub open spec fn colors_unique(cs: Seq<(Seq<char>, ColorStyleView)>) -> bool {
    forall|i: int, j: int| 0 <= i < j < cs.len() ==> (#[trigger] cs[i]).0 != (#[trigger] cs[j]).0
}

/// Index of the color entry for `kind`.
pub open spec fn color_index(cs: Seq<(Seq<char>, ColorStyleView)>, kind: Seq<char>) -> Option<int> {
    if exists|i: int| 0 <= i < cs.len() && (#[trigger] cs[i]).0 == kind {
        Some(choose|i: int| 0 <= i < cs.len() && (#[trigger] cs[i]).0 == kind)
    } else {
        None
    }
}

/// Every color string of the config parses without a panic.
pub open spec fn config_colors_ok(cfg: Config) -> bool {
    forall|i: int|
        0 <= i < cfg.colors@.len() ==> opt_text_ok((#[trigger] cfg.colors@[i]).1.fg) && opt_text_ok(
            cfg.colors@[i].1.bg,
        )
}

pub open spec fn default_lines() -> Seq<Seq<Seq<char>>> {
    seq![
        seq!["model"@, "cwd"@, "context_bar"@, "session_tokens"@, "session_cost"@],
        seq!["block_timer"@, "weekly_timer"@],
    ]
}

pub fn str_vec(items: &[&str]) -> (v: Vec<String>)
    ensures
        v@.len() == items@.len(),
        forall|i: int| 0 <= i < items@.len() ==> (#[trigger] v@[i])@ == items@[i]@,
{
    let mut v: Vec<String> = Vec::new();
    let mut i: usize = 0;
    while i < items.len()
        invariant
            i <= items@.len(),
            v@.len() == i,
            forall|j: int| 0 <= j < i ==> (#[trigger] v@[j])@ == items@[j]@,
        decreases items.len() - i,
    {
        v.push(items[i].to_owned());
        i += 1;
    }
    v
}

impl Config {
    /// The default two-line layout, no time zone, no color overrides.
    pub fn default_layout() -> (c: Config)
        ensures
            c@.version == CONFIG_VERSION,
            c@.tz is None,
            c@.lines == default_lines(),
            c@.colors.len() == 0,
    {
        let first = str_vec(&["model", "cwd", "context_bar", "session_tokens", "session_cost"]);
        let second = str_vec(&["block_timer", "weekly_timer"]);
        let mut lines: Vec<Vec<String>> = Vec::new();
        lines.push(first);
        lines.push(second);
        let c = Config { version: CONFIG_VERSION, tz: None, lines, colors: Vec::new() };
        proof {
            assert(row_view(c.lines@[0]) =~= default_lines()[0]);
            assert(row_view(c.lines@[1]) =~= default_lines()[1]);
            assert(c@.lines =~= default_lines());
        }
        c
    }
}

/// Look up the color entry for `kind`.
pub fn find_color(colors: &Vec<(String, ColorStyle)>, kind: &str) -> (r: Option<usize>)
    requires
        colors_unique(colors_view(colors@)),
    ensures
        match r {
            Some(i) => i < colors@.len() && colors@[i as int].0@ == kind@ && color_index(
                colors_view(colors@),
                kind@,
            ) == Some(i as int),
            None => color_index(colors_view(colors@), kind@) is None,
        },
{
    let kv = crate::text::chars_of(kind);
    let mut i: usize = 0;
    while i < colors.len()
        invariant
            i <= colors@.len(),
            kv@ == kind@,
            colors_unique(colors_view(colors@)),
            forall|j: int| 0 <= j < i ==> colors@[j].0@ != kind@,
        decreases colors.len() - i,
    {
        let ev = crate::text::chars_of(colors[i].0.as_str());
        if crate::render::color::seq_eq(ev.as_slice(), kv.as_slice()) {
            proof {
                let cs = colors_view(colors@);
                assert(cs[i as int].0 == kind@);
                let c = choose|j: int| 0 <= j < cs.len() && (#[trigger] cs[j]).0 == kind@;
                if c != i {
                    if c < i {
                        assert(colors@[c].0@ == cs[c].0);
                    } else {
                        let ii = i as int;
                        assert(colors_unique(cs));
                        assert(0 <= ii < c < cs.len());
                        assert(cs[ii].0 != cs[c].0);
                    }
                }
            }
            return Some(i);
        }
        i += 1;
    }
    proof {
        let cs = colors_view(colors@);
        assert forall|j: int| 0 <= j < cs.len() implies (#[trigger] cs[j]).0 != kind@ by {
            assert(cs[j].0 == colors@[j].0@);
        }
    }
    None
}


// ---------- messages ----------

pub open spec fn unknown_kind_msg(kind: Seq<char>) -> Seq<char> {
    "unknown widget kind '"@ + kind + "'"@
}

pub open spec fn add_line_msg(idx: nat, n: nat) -> Seq<char> {
    "line "@ + decimal(idx) + " out of range (have "@ + decimal(n) + " lines, use "@ + decimal(n)
        + " to create a new line)"@
}

pub open spec fn position_msg(pos: nat, line: nat, len: nat) -> Seq<char> {
    "position "@ + decimal(pos) + " out of range on line "@ + decimal(line) + " ("@ + decimal(len)
        + " widgets)"@
}

pub open spec fn remove_line_msg(line: nat, n: nat) -> Seq<char> {
    "line "@ + decimal(line) + " out of range ("@ + decimal(n) + " lines)"@
}

pub open spec fn no_style_msg() -> Seq<char> {
    "specify at least one of --fg / --bg / --bold / --no-bold / --clear"@
}

pub open spec fn version_msg(v: nat) -> Seq<char> {
    "unsupported config version "@ + decimal(v) + " (expected 1)"@
}

pub open spec fn kind_at_msg(kind: Seq<char>, line: nat, pos: nat) -> Seq<char> {
    "unknown widget kind '"@ + kind + "' at line "@ + decimal(line) + ", position "@ + decimal(pos)
}

pub open spec fn color_kind_msg(kind: Seq<char>) -> Seq<char> {
    "colors: unknown widget kind '"@ + kind + "'"@
}

pub open spec fn color_style_msg(kind: Seq<char>, err: Seq<char>) -> Seq<char> {
    "colors."@ + kind + ": "@ + err
}

fn invalid(reason: String) -> (e: Error)
    ensures
        e matches Error::InvalidConfig { reason: r } && r@ == reason@,
{
    Error::InvalidConfig { reason }
}

fn push_num(s: &mut String, n: usize)
    ensures
        final(s)@ == old(s)@ + decimal(n as nat),
{
    push_decimal(s, n as u64);
}

/// The error is an `InvalidConfig` whose reason is `m`.
pub open spec fn invalid_with(e: Error, m: Seq<char>) -> bool {
    e matches Error::InvalidConfig { reason: r } && r@ == m
}

// ---------- add / remove ----------

/// Row the widget goes to, with the rows after any needed new empty row:
/// no line means the last row (creating one when there are none); a line
/// equal to the row count creates a new row; a larger line is an error.
pub open spec fn add_target(lines: Seq<Seq<Seq<char>>>, line: Option<usize>) -> Result<(Seq<Seq<Seq<char>>>, nat), Seq<char>> {
    match line {
        None => if lines.len() == 0 {
            Ok((seq![seq![]], 0))
        } else {
            Ok((lines, (lines.len() - 1) as nat))
        },
        Some(i) => if i == lines.len() {
            Ok((lines.push(seq![]), i as nat))
        } else if i < lines.len() {
            Ok((lines, i as nat))
        } else {
            Err(add_line_msg(i as nat, lines.len()))
        },
    }
}

/// `config add <kind> [--line N] [--position M]`.
pub open spec fn add_spec(c: ConfigView, kind: Seq<char>, line: Option<usize>, position: Option<usize>) -> Result<ConfigView, Seq<char>> {
    if find_spec(kind) is None {
        Err(unknown_kind_msg(kind))
    } else {
        match add_target(c.lines, line) {
            Err(m) => Err(m),
            Ok((ls, idx)) => {
                let row = ls[idx as int];
                match position {
                    None => Ok(ConfigView { lines: ls.update(idx as int, row.push(kind)), ..c }),
                    Some(p) => if p <= row.len() {
                        Ok(ConfigView { lines: ls.update(idx as int, row.insert(p as int, kind)), ..c })
                    } else {
                        Err(position_msg(p as nat, idx, row.len()))
                    },
                }
            },
        }
    }
}

/// `config remove --line N --position M`.
pub open spec fn remove_spec(c: ConfigView, line: usize, position: usize) -> Result<ConfigView, Seq<char>> {
    if line >= c.lines.len() {
        Err(remove_line_msg(line as nat, c.lines.len()))
    } else if position >= c.lines[line as int].len() {
        Err(position_msg(position as nat, line as nat, c.lines[line as int].len()))
    } else {
        Ok(ConfigView { lines: c.lines.update(line as int, c.lines[line as int].remove(position as int)), ..c })
    }
}

pub open spec fn result_matches(r: Result<Config, Error>, s: Result<ConfigView, Seq<char>>) -> bool {
    match r {
        Ok(c) => s == Ok::<ConfigView, Seq<char>>(c@),
        Err(e) => s is Err && invalid_with(e, s->Err_0),
    }
}

proof fn lemma_lines_update(ls: Seq<Vec<String>>, i: int, row: Vec<String>)
    requires
        0 <= i < ls.len(),
    ensures
        lines_view(ls.remove(i).insert(i, row)) == lines_view(ls).update(i, row_view(row)),
{
    assert(ls.remove(i).insert(i, row) =~= ls.update(i, row));
    assert(lines_view(ls.update(i, row)) =~= lines_view(ls).update(i, row_view(row)));
}

fn take_row(lines: &mut Vec<Vec<String>>, i: usize) -> (row: Vec<String>)
    requires
        i < old(lines)@.len(),
    ensures
        row == old(lines)@[i as int],
        final(lines)@ == old(lines)@.remove(i as int),
{
    lines.remove(i)
}

impl Config {
    /// Insert or append a widget.
    pub fn add_widget(self, kind: &str, line: Option<usize>, position: Option<usize>) -> (r: Result<Config, Error>)
        ensures
            result_matches(r, add_spec(self@, kind@, line, position)),
    {
        let mut cfg = self;
        if crate::widgets::find(kind).is_none() {
            let mut m = String::new();
            push_str(&mut m, "unknown widget kind '");
            push_str(&mut m, kind);
            push_str(&mut m, "'");
            return Err(invalid(m));
        }
        let ghost c0 = cfg@;
        let n = cfg.lines.len();
        let line_idx: usize = match line {
            None => {
                if n == 0 {
                    let e: Vec<String> = Vec::new();
                    let ghost before = cfg.lines@;
                    cfg.lines.push(e);
                    proof {
                        assert(row_view(e) =~= Seq::<Seq<char>>::empty());
                        assert(cfg.lines@ =~= before.push(e));
                        assert(lines_view(cfg.lines@) =~= seq![seq![]]);
                    }
                }
                cfg.lines.len() - 1
            },
            Some(idx) => {
                if idx == n {
                    let ghost before = cfg.lines@;
                    let e: Vec<String> = Vec::new();
                    cfg.lines.push(e);
                    proof {
                        assert(row_view(e) =~= Seq::<Seq<char>>::empty());
                        assert(cfg.lines@ =~= before.push(e));
                        assert(lines_view(cfg.lines@) =~= lines_view(before).push(seq![]));
                    }
                    idx
                } else if idx < n {
                    idx
                } else {
                    let mut m = String::new();
                    push_str(&mut m, "line ");
                    push_num(&mut m, idx);
                    push_str(&mut m, " out of range (have ");
                    push_num(&mut m, n);
                    push_str(&mut m, " lines, use ");
                    push_num(&mut m, n);
                    push_str(&mut m, " to create a new line)");
                    proof {
                        assert(m@ =~= add_line_msg(idx as nat, n as nat));
                    }
                    return Err(invalid(m));
                }
            },
        };
        proof {
            let t = add_target(c0.lines, line);
            assert(t is Ok);
            assert(t->Ok_0.0 =~= lines_view(cfg.lines@));
            assert(t->Ok_0.1 == line_idx);
        }
        let ghost ls = cfg.lines@;
        let mut row = take_row(&mut cfg.lines, line_idx);
        let row_len = row.len();
        let ghost rv = row_view(row);
        match position {
            None => {
                row.push(kind.to_owned());
                proof {
                    assert(row_view(row) =~= rv.push(kind@));
                }
            },
            Some(pos) => {
                if pos <= row_len {
                    row.insert(pos, kind.to_owned());
                    proof {
                        assert(row_view(row) =~= rv.insert(pos as int, kind@));
                    }
                } else {
                    let mut m = String::new();
                    push_str(&mut m, "position ");
                    push_num(&mut m, pos);
                    push_str(&mut m, " out of range on line ");
                    push_num(&mut m, line_idx);
                    push_str(&mut m, " (");
                    push_num(&mut m, row_len);
                    push_str(&mut m, " widgets)");
                    proof {
                        assert(m@ =~= position_msg(pos as nat, line_idx as nat, row_len as nat));
                    }
                    return Err(invalid(m));
                }
            },
        }
        cfg.lines.insert(line_idx, row);
        proof {
            lemma_lines_update(ls, line_idx as int, row);
            assert(cfg@ == (ConfigView { lines: lines_view(ls).update(line_idx as int, row_view(row)), ..c0 }));
        }
        Ok(cfg)
    }

    /// Remove the widget at `(line, position)`.
    pub fn remove_widget(self, line: usize, position: usize) -> (r: Result<Config, Error>)
        ensures
            result_matches(r, remove_spec(self@, line, position)),
    {
        let mut cfg = self;
        let n = cfg.lines.len();
        if line >= n {
            let mut m = String::new();
            push_str(&mut m, "line ");
            push_num(&mut m, line);
            push_str(&mut m, " out of range (");
            push_num(&mut m, n);
            push_str(&mut m, " lines)");
            proof {
                assert(m@ =~= remove_line_msg(line as nat, n as nat));
            }
            return Err(invalid(m));
        }
        let ghost ls = cfg.lines@;
        let ghost c0 = cfg@;
        let row_len = cfg.lines[line].len();
        if position >= row_len {
            let mut m = String::new();
            push_str(&mut m, "position ");
            push_num(&mut m, position);
            push_str(&mut m, " out of range on line ");
            push_num(&mut m, line);
            push_str(&mut m, " (");
            push_num(&mut m, row_len);
            push_str(&mut m, " widgets)");
            proof {
                assert(m@ =~= position_msg(position as nat, line as nat, row_len as nat));
            }
            return Err(invalid(m));
        }
        let mut row = take_row(&mut cfg.lines, line);
        let ghost rv = row_view(row);
        row.remove(position);
        proof {
            assert(row_view(row) =~= rv.remove(position as int));
        }
        cfg.lines.insert(line, row);
        proof {
            lemma_lines_update(ls, line as int, row);
        }
        Ok(cfg)
    }
}

// ---------- color ----------

pub open spec fn empty_style_view() -> ColorStyleView {
    ColorStyleView { fg: None, bg: None, bold: None }
}

pub open spec fn view_is_empty(e: ColorStyleView) -> bool {
    e.fg is None && e.bg is None && e.bold is None
}

/// The entry after `config color`: given colors replace, `--bold` sets
/// bold on, `--no-bold` sets it off, anything not given is kept.
pub open spec fn apply_style(e: ColorStyleView, fg: Option<Seq<char>>, bg: Option<Seq<char>>, bold: bool, no_bold: bool) -> ColorStyleView {
    ColorStyleView {
        fg: if fg is Some {
            fg
        } else {
            e.fg
        },
        bg: if bg is Some {
            bg
        } else {
            e.bg
        },
        bold: if bold {
            Some(true)
        } else if no_bold {
            Some(false)
        } else {
            e.bold
        },
    }
}

/// The color entries with the one for `kind` removed.
pub open spec fn colors_without(cs: Seq<(Seq<char>, ColorStyleView)>, kind: Seq<char>) -> Seq<(Seq<char>, ColorStyleView)> {
    match color_index(cs, kind) {
        Some(i) => cs.remove(i),
        None => cs,
    }
}

/// The color entries with the one for `kind` set to `e` (an empty entry
/// is dropped instead).
pub open spec fn colors_with(cs: Seq<(Seq<char>, ColorStyleView)>, kind: Seq<char>, e: ColorStyleView) -> Seq<(Seq<char>, ColorStyleView)> {
    if view_is_empty(e) {
        colors_without(cs, kind)
    } else {
        match color_index(cs, kind) {
            Some(i) => cs.update(i, (kind, e)),
            None => cs.push((kind, e)),
        }
    }
}

pub open spec fn opt_color_err(s: Option<Seq<char>>) -> Option<Seq<char>> {
    match s {
        Some(t) => match parse_color_spec(t) {
            Err(e) => Some(e),
            Ok(_) => None,
        },
        None => None,
    }
}

/// `config color <kind> [--fg C] [--bg C] [--bold | --no-bold] [--clear]`:
/// the kind must be registered; `--clear` drops the entry; otherwise at
/// least one setting is needed and both colors must parse before the entry
/// is touched.
pub open spec fn color_spec(
    c: ConfigView,
    kind: Seq<char>,
    fg: Option<Seq<char>>,
    bg: Option<Seq<char>>,
    bold: bool,
    no_bold: bool,
    clear: bool,
) -> Result<ConfigView, Seq<char>> {
    if find_spec(kind) is None {
        Err(unknown_kind_msg(kind))
    } else if clear {
        Ok(ConfigView { colors: colors_without(c.colors, kind), ..c })
    } else if fg is None && bg is None && !bold && !no_bold {
        Err(no_style_msg())
    } else if opt_color_err(fg) is Some {
        Err("fg: "@ + opt_color_err(fg)->0)
    } else if opt_color_err(bg) is Some {
        Err("bg: "@ + opt_color_err(bg)->0)
    } else {
        let old_entry = match color_index(c.colors, kind) {
            Some(i) => c.colors[i].1,
            None => empty_style_view(),
        };
        Ok(ConfigView { colors: colors_with(c.colors, kind, apply_style(old_entry, fg, bg, bold, no_bold)), ..c })
    }
}

fn check_color_arg(prefix: &str, value: &Option<String>) -> (r: Result<(), Error>)
    requires
        opt_text_ok(*value),
    ensures
        match opt_color_err(opt_view(*value)) {
            Some(e) => invalid_with(r->Err_0, prefix@ + e) && r is Err,
            None => r is Ok,
        },
{
    if let Some(v) = value {
        match parse_color(v.as_str()) {
            Ok(_) => {},
            Err(err) => {
                let mut m = String::new();
                push_str(&mut m, prefix);
                push_str(&mut m, err.as_str());
                return Err(invalid(m));
            },
        }
    }
    Ok(())
}

proof fn lemma_colors_update(cs: Seq<(String, ColorStyle)>, i: int, e: (String, ColorStyle))
    requires
        0 <= i < cs.len(),
    ensures
        colors_view(cs.update(i, e)) == colors_view(cs).update(i, (e.0@, style_view(e.1))),
        colors_view(cs.remove(i)) == colors_view(cs).remove(i),
{
    assert(colors_view(cs.update(i, e)) =~= colors_view(cs).update(i, (e.0@, style_view(e.1))));
    assert(colors_view(cs.remove(i)) =~= colors_view(cs).remove(i));
}

proof fn lemma_unique_remove(cs: Seq<(Seq<char>, ColorStyleView)>, i: int)
    requires
        colors_unique(cs),
        0 <= i < cs.len(),
    ensures
        colors_unique(cs.remove(i)),
{
    let r = cs.remove(i);
    assert forall|a: int, b: int| 0 <= a < b < r.len() implies (#[trigger] r[a]).0 != (#[trigger] r[b]).0 by {
        let a2 = if a < i { a } else { a + 1 };
        let b2 = if b < i { b } else { b + 1 };
        assert(r[a] == cs[a2]);
        assert(r[b] == cs[b2]);
    }
}

impl Config {
    /// Set, change or clear the color override of one widget kind.
    pub fn set_color(
        self,
        kind: &str,
        fg: Option<String>,
        bg: Option<String>,
        bold: bool,
        no_bold: bool,
        clear: bool,
    ) -> (r: Result<Config, Error>)
        requires
            colors_unique(self@.colors),
            opt_text_ok(fg),
            opt_text_ok(bg),
        ensures
            result_matches(r, color_spec(self@, kind@, opt_view(fg), opt_view(bg), bold, no_bold, clear)),
            r matches Ok(c) ==> colors_unique(c@.colors),
    {
        let mut cfg = self;
        if crate::widgets::find(kind).is_none() {
            let mut m = String::new();
            push_str(&mut m, "unknown widget kind '");
            push_str(&mut m, kind);
            push_str(&mut m, "'");
            return Err(invalid(m));
        }
        let ghost c0 = cfg@;
        let idx = find_color(&cfg.colors, kind);
        if clear {
            if let Some(i) = idx {
                let ghost cs = cfg.colors@;
                let _gone = cfg.colors.remove(i);
                proof {
                    lemma_colors_update(cs, i as int, _gone);
                    lemma_unique_remove(colors_view(cs), i as int);
                }
            }
            return Ok(cfg);
        }
        if fg.is_none() && bg.is_none() && !bold && !no_bold {
            let mut m = String::new();
            push_str(&mut m, "specify at least one of --fg / --bg / --bold / --no-bold / --clear");
            return Err(invalid(m));
        }
        match check_color_arg("fg: ", &fg) {
            Ok(()) => {},
            Err(e) => return Err(e),
        }
        match check_color_arg("bg: ", &bg) {
            Ok(()) => {},
            Err(e) => return Err(e),
        }
        let ghost cs = cfg.colors@;
        let mut entry = match idx {
            Some(i) => {
                let (_k, st) = cfg.colors.remove(i);
                proof {
                    lemma_colors_update(cs, i as int, (_k, st));
                }
                st
            },
            None => ColorStyle { fg: None, bg: None, bold: None },
        };
        let ghost old_entry = style_view(entry);
        if let Some(v) = fg {
            entry.fg = Some(v);
        }
        if let Some(v) = bg {
            entry.bg = Some(v);
        }
        if bold {
            entry.bold = Some(true);
        } else if no_bold {
            entry.bold = Some(false);
        }
        proof {
            assert(style_view(entry) == apply_style(old_entry, opt_view(fg), opt_view(bg), bold, no_bold));
        }
        if entry.is_empty() {
            proof {
                if let Some(i) = idx {
                    lemma_unique_remove(colors_view(cs), i as int);
                }
            }
            return Ok(cfg);
        }
        let mut k = String::new();
        push_str(&mut k, kind);
        match idx {
            Some(i) => {
                cfg.colors.insert(i, (k, entry));
                proof {
                    let ii = i as int;
                    assert(cfg.colors@ =~= cs.update(ii, (k, entry)));
                    lemma_colors_update(cs, ii, (k, entry));
                    let nv = colors_view(cfg.colors@);
                    assert forall|a: int, b: int| 0 <= a < b < nv.len() implies (#[trigger] nv[a]).0 != (#[trigger] nv[b]).0 by {
                        let ov = colors_view(cs);
                        if a != ii && b != ii {
                            assert(nv[a] == ov[a]);
                            assert(nv[b] == ov[b]);
                        } else if a == ii {
                            assert(nv[b] == ov[b]);
                            assert(ov[ii].0 == kind@);
                        } else {
                            assert(nv[a] == ov[a]);
                            assert(ov[ii].0 == kind@);
                        }
                    }
                }
            },
            None => {
                cfg.colors.push((k, entry));
                proof {
                    assert(colors_view(cfg.colors@) =~= colors_view(cs).push((kind@, style_view(entry))));
                    let nv = colors_view(cfg.colors@);
                    let ov = colors_view(cs);
                    assert forall|a: int, b: int| 0 <= a < b < nv.len() implies (#[trigger] nv[a]).0 != (#[trigger] nv[b]).0 by {
                        if b < ov.len() {
                            assert(nv[a] == ov[a]);
                            assert(nv[b] == ov[b]);
                        } else {
                            assert(nv[a] == ov[a]);
                            assert(ov[a].0 != kind@);
                        }
                    }
                }
            },
        }
        Ok(cfg)
    }
}


// ---------- validation ----------

/// The first position at or after `j` in `row` whose kind is not
/// registered.
pub open spec fn first_unknown_in_row(row: Seq<Seq<char>>, j: nat) -> Option<nat>
    decreases row.len() - j,
{
    if j >= row.len() {
        None
    } else if find_spec(row[j as int]) is None {
        Some(j)
    } else {
        first_unknown_in_row(row, j + 1)
    }
}

/// The first (line, position), from line `i` on, whose kind is not
/// registered.
pub open spec fn first_unknown(lines: Seq<Seq<Seq<char>>>, i: nat) -> Option<(nat, nat)>
    decreases lines.len() - i,
{
    if i >= lines.len() {
        None
    } else {
        match first_unknown_in_row(lines[i as int], 0) {
            Some(j) => Some((i, j)),
            None => first_unknown(lines, i + 1),
        }
    }
}

/// What `ColorStyle::to_style` gives for an entry, read off its view.
pub open spec fn style_view_spec(e: ColorStyleView) -> Result<Style, Seq<char>> {
    let fg = match e.fg {
        Some(t) => match parse_color_spec(t) {
            Ok(c) => Ok(Some(c)),
            Err(m) => Err(m),
        },
        None => Ok(None),
    };
    let bg = match e.bg {
        Some(t) => match parse_color_spec(t) {
            Ok(c) => Ok(Some(c)),
            Err(m) => Err(m),
        },
        None => Ok(None),
    };
    match fg {
        Err(m) => Err(m),
        Ok(f) => match bg {
            Err(m) => Err(m),
            Ok(b) => Ok(Style { fg: f, bg: b, bold: e.bold == Some(true) }),
        },
    }
}

pub proof fn lemma_style_view(c: ColorStyle)
    ensures
        c.style_spec() == style_view_spec(style_view(c)),
{
}

/// What is wrong with one color entry: an unregistered kind, or a color
/// string that does not parse.
pub open spec fn color_entry_error(e: (Seq<char>, ColorStyleView)) -> Option<Seq<char>> {
    if find_spec(e.0) is None {
        Some(color_kind_msg(e.0))
    } else {
        match style_view_spec(e.1) {
            Err(m) => Some(color_style_msg(e.0, m)),
            Ok(_) => None,
        }
    }
}

pub open spec fn first_color_error(cs: Seq<(Seq<char>, ColorStyleView)>, i: nat) -> Option<Seq<char>>
    decreases cs.len() - i,
{
    if i >= cs.len() {
        None
    } else {
        match color_entry_error(cs[i as int]) {
            Some(m) => Some(m),
            None => first_color_error(cs, i + 1),
        }
    }
}

/// The first problem of a config, checked in this order: the schema
/// version, every widget kind of the layout (line by line), every color
/// entry.
pub open spec fn validate_view(c: ConfigView) -> Option<Seq<char>> {
    if c.version != CONFIG_VERSION {
        Some(version_msg(c.version as nat))
    } else {
        match first_unknown(c.lines, 0) {
            Some((i, j)) => Some(kind_at_msg(c.lines[i as int][j as int], i, j)),
            None => first_color_error(c.colors, 0),
        }
    }
}

pub open spec fn validate_spec(c: Config) -> Option<Seq<char>> {
    validate_view(c@)
}

impl Config {
    /// Refuse an unknown schema version, an unregistered widget kind in the
    /// layout, and a color entry for an unregistered kind or with a color
    /// string that does not parse.
    pub fn validate(&self) -> (r: Result<(), Error>)
        requires
            config_colors_ok(*self),
        ensures
            match validate_spec(*self) {
                Some(m) => r is Err && invalid_with(r->Err_0, m),
                None => r is Ok,
            },
    {
        if self.version != CONFIG_VERSION {
            let mut m = String::new();
            push_str(&mut m, "unsupported config version ");
            push_decimal(&mut m, self.version as u64);
            push_str(&mut m, " (expected 1)");
            proof {
                assert(m@ =~= version_msg(self.version as nat));
            }
            return Err(invalid(m));
        }
        let ghost lv = lines_view(self.lines@);
        let mut i: usize = 0;
        while i < self.lines.len()
            invariant
                i <= self.lines@.len(),
                lv == lines_view(self.lines@),
                self.version == CONFIG_VERSION,
                first_unknown(lv, 0) == first_unknown(lv, i as nat),
            decreases self.lines.len() - i,
        {
            let row = &self.lines[i];
            let ghost rv = row_view(*row);
            assert(rv == lv[i as int]);
            let mut j: usize = 0;
            while j < row.len()
                invariant
                    j <= row@.len(),
                    i < self.lines@.len(),
                    *row == self.lines@[i as int],
                    lv == lines_view(self.lines@),
                    rv == lv[i as int],
                    first_unknown(lv, 0) == first_unknown(lv, i as nat),
                    self.version == CONFIG_VERSION,
                    rv == row_view(*row),
                    first_unknown_in_row(rv, 0) == first_unknown_in_row(rv, j as nat),
                decreases row.len() - j,
            {
                if crate::widgets::find(row[j].as_str()).is_none() {
                    proof {
                        assert(first_unknown_in_row(rv, j as nat) == Some(j as nat));
                        assert(first_unknown(lv, i as nat) == Some((i as nat, j as nat)));
                    }
                    let mut m = String::new();
                    push_str(&mut m, "unknown widget kind '");
                    push_str(&mut m, row[j].as_str());
                    push_str(&mut m, "' at line ");
                    push_num(&mut m, i);
                    push_str(&mut m, ", position ");
                    push_num(&mut m, j);
                    proof {
                        assert(m@ =~= kind_at_msg(lv[i as int][j as int], i as nat, j as nat));
                    }
                    return Err(invalid(m));
                }
                j += 1;
            }
            proof {
                assert(first_unknown_in_row(rv, j as nat) is None);
            }
            i += 1;
        }
        let mut k: usize = 0;
        while k < self.colors.len()
            invariant
                k <= self.colors@.len(),
                config_colors_ok(*self),
                first_unknown(lv, 0) is None,
                lv == lines_view(self.lines@),
                self.version == CONFIG_VERSION,
                first_color_error(self@.colors, 0) == first_color_error(self@.colors, k as nat),
            decreases self.colors.len() - k,
        {
            let entry = &self.colors[k];
            if crate::widgets::find(entry.0.as_str()).is_none() {
                let mut m = String::new();
                push_str(&mut m, "colors: unknown widget kind '");
                push_str(&mut m, entry.0.as_str());
                push_str(&mut m, "'");
                proof {
                    assert(m@ =~= color_kind_msg(entry.0@));
                }
                return Err(invalid(m));
            }
            proof {
                assert(entry.1.texts_ok());
                lemma_style_view(entry.1);
                assert(self@.colors[k as int] == (entry.0@, style_view(entry.1)));
            }
            match entry.1.to_style() {
                Err(e) => {
                    let mut m = String::new();
                    push_str(&mut m, "colors.");
                    push_str(&mut m, entry.0.as_str());
                    push_str(&mut m, ": ");
                    push_str(&mut m, e.as_str());
                    proof {
                        assert(m@ =~= color_style_msg(entry.0@, e@));
                    }
                    return Err(invalid(m));
                },
                Ok(_) => {},
            }
            k += 1;
        }
        Ok(())
    }
}


// ---------- git ----------

impl Config {
    /// Some line holds a git widget, so the render needs the git probe.
    pub fn needs_git(&self) -> (b: bool)
        ensures
            b == crate::render::config_needs_git(*self),
    {
        let mut i: usize = 0;
        while i < self.lines.len()
            invariant
                i <= self.lines@.len(),
                forall|a: int, b: int|
                    0 <= a < i && 0 <= b < self.lines@[a]@.len() ==> !(match find_spec(
                        #[trigger] self.lines@[a]@[b]@,
                    ) {
                        Some(k) => k.spec_needs_git(),
                        None => false,
                    }),
            decreases self.lines.len() - i,
        {
            let row = &self.lines[i];
            let mut j: usize = 0;
            while j < row.len()
                invariant
                    j <= row@.len(),
                    i < self.lines@.len(),
                    *row == self.lines@[i as int],
                    forall|a: int, b: int|
                        0 <= a < i && 0 <= b < self.lines@[a]@.len() ==> !(match find_spec(
                            #[trigger] self.lines@[a]@[b]@,
                        ) {
                            Some(k) => k.spec_needs_git(),
                            None => false,
                        }),
                    forall|b: int|
                        0 <= b < j ==> !(match find_spec(#[trigger] self.lines@[i as int]@[b]@) {
                            Some(k) => k.spec_needs_git(),
                            None => false,
                        }),
                decreases row.len() - j,
            {
                match crate::widgets::find(row[j].as_str()) {
                    Some(k) => {
                        if k.needs_git() {
                            proof {
                                assert(match find_spec(self.lines@[i as int]@[j as int]@) {
                                    Some(k) => k.spec_needs_git(),
                                    None => false,
                                });
                            }
                            return true;
                        }
                    },
                    None => {},
                }
                j += 1;
            }
            i += 1;
        }
        false
    }
}


// ---------- laws ----------

/// Every widget kind of the layout is registered.
pub open spec fn layout_known(lines: Seq<Seq<Seq<char>>>) -> bool {
    forall|i: int, j: int|
        0 <= i < lines.len() && 0 <= j < lines[i].len() ==> find_spec(#[trigger] lines[i][j]) is Some
}

/// Every color entry names a registered kind and parses.
pub open spec fn colors_valid(cs: Seq<(Seq<char>, ColorStyleView)>) -> bool {
    forall|i: int| 0 <= i < cs.len() ==> color_entry_error(#[trigger] cs[i]) is None
}

proof fn lemma_first_unknown_in_row(row: Seq<Seq<char>>, j: nat)
    ensures
        first_unknown_in_row(row, j) is None <==> forall|k: int|
            j <= k < row.len() ==> find_spec(#[trigger] row[k]) is Some,
    decreases row.len() - j,
{
    if j < row.len() {
        lemma_first_unknown_in_row(row, j + 1);
    }
}

proof fn lemma_first_unknown(lines: Seq<Seq<Seq<char>>>, i: nat)
    ensures
        first_unknown(lines, i) is None <==> forall|a: int, b: int|
            i <= a < lines.len() && 0 <= b < lines[a].len() ==> find_spec(#[trigger] lines[a][b]) is Some,
    decreases lines.len() - i,
{
    if i < lines.len() {
        lemma_first_unknown(lines, i + 1);
        lemma_first_unknown_in_row(lines[i as int], 0);
    }
}

proof fn lemma_first_color_error(cs: Seq<(Seq<char>, ColorStyleView)>, i: nat)
    ensures
        first_color_error(cs, i) is None <==> forall|k: int|
            i <= k < cs.len() ==> color_entry_error(#[trigger] cs[k]) is None,
    decreases cs.len() - i,
{
    if i < cs.len() {
        lemma_first_color_error(cs, i + 1);
    }
}

/// A config passes `validate` exactly when its version is supported, its
/// layout names only registered kinds and all its color entries are good.
pub proof fn lemma_validate_view(c: ConfigView)
    ensures
        validate_view(c) is None <==> (c.version == CONFIG_VERSION && layout_known(c.lines)
            && colors_valid(c.colors)),
{
    lemma_first_unknown(c.lines, 0);
    lemma_first_color_error(c.colors, 0);
}

/// Law: adding a widget at a line and position, then removing the widget
/// at that same place, gives back the config it started from.
pub proof fn add_then_remove_restores(c: ConfigView, kind: Seq<char>, line: usize, position: usize)
    requires
        find_spec(kind) is Some,
        line < c.lines.len(),
        position <= c.lines[line as int].len(),
    ensures
        add_spec(c, kind, Some(line), Some(position)) is Ok,
        remove_spec(add_spec(c, kind, Some(line), Some(position))->Ok_0, line, position) == Ok::<
            ConfigView,
            Seq<char>,
        >(c),
{
    let c2 = add_spec(c, kind, Some(line), Some(position))->Ok_0;
    let row = c.lines[line as int];
    assert(c2.lines == c.lines.update(line as int, row.insert(position as int, kind)));
    assert(row.insert(position as int, kind).remove(position as int) =~= row);
    assert(c2.lines.update(line as int, c2.lines[line as int].remove(position as int)) =~= c.lines);
}

/// Law: `config add` keeps a valid config valid.
pub proof fn add_keeps_valid(c: ConfigView, kind: Seq<char>, line: Option<usize>, position: Option<usize>)
    requires
        validate_view(c) is None,
        add_spec(c, kind, line, position) is Ok,
    ensures
        validate_view(add_spec(c, kind, line, position)->Ok_0) is None,
{
    lemma_validate_view(c);
    let c2 = add_spec(c, kind, line, position)->Ok_0;
    let (ls, idx) = add_target(c.lines, line)->Ok_0;
    assert(layout_known(ls)) by {
        assert forall|i: int, j: int| 0 <= i < ls.len() && 0 <= j < ls[i].len() implies find_spec(
            #[trigger] ls[i][j],
        ) is Some by {
            if i < c.lines.len() {
                assert(ls[i] == c.lines[i]);
            }
        }
    }
    let row = ls[idx as int];
    assert forall|i: int, j: int| 0 <= i < c2.lines.len() && 0 <= j < c2.lines[i].len() implies find_spec(
        #[trigger] c2.lines[i][j],
    ) is Some by {
        if i != idx {
            assert(c2.lines[i] == ls[i]);
        } else {
            match position {
                None => {
                    assert(c2.lines[i] == row.push(kind));
                    if j < row.len() {
                        assert(c2.lines[i][j] == row[j]);
                    }
                },
                Some(p) => {
                    assert(c2.lines[i] == row.insert(p as int, kind));
                    if j < p {
                        assert(c2.lines[i][j] == row[j]);
                    } else if j > p {
                        assert(c2.lines[i][j] == row[j - 1]);
                    }
                },
            }
        }
    }
    lemma_validate_view(c2);
}

/// Law: `config remove` keeps a valid config valid.
pub proof fn remove_keeps_valid(c: ConfigView, line: usize, position: usize)
    requires
        validate_view(c) is None,
        remove_spec(c, line, position) is Ok,
    ensures
        validate_view(remove_spec(c, line, position)->Ok_0) is None,
{
    lemma_validate_view(c);
    let c2 = remove_spec(c, line, position)->Ok_0;
    let row = c.lines[line as int];
    assert forall|i: int, j: int| 0 <= i < c2.lines.len() && 0 <= j < c2.lines[i].len() implies find_spec(
        #[trigger] c2.lines[i][j],
    ) is Some by {
        if i != line {
            assert(c2.lines[i] == c.lines[i]);
        } else {
            assert(c2.lines[i] == row.remove(position as int));
            if j < position {
                assert(c2.lines[i][j] == row[j]);
            } else {
                assert(c2.lines[i][j] == row[j + 1]);
            }
        }
    }
    lemma_validate_view(c2);
}

proof fn lemma_color_index_some(cs: Seq<(Seq<char>, ColorStyleView)>, kind: Seq<char>)
    ensures
        color_index(cs, kind) matches Some(i) ==> 0 <= i < cs.len() && cs[i].0 == kind,
        color_index(cs, kind) is None ==> forall|j: int| 0 <= j < cs.len() ==> (#[trigger] cs[j]).0 != kind,
{
}

proof fn lemma_color_index_unique(cs: Seq<(Seq<char>, ColorStyleView)>, kind: Seq<char>, j: int)
    requires
        colors_unique(cs),
        0 <= j < cs.len(),
        cs[j].0 == kind,
    ensures
        color_index(cs, kind) == Some(j),
{
    lemma_color_index_some(cs, kind);
    let i = color_index(cs, kind)->0;
    if i != j {
        if i < j {
            assert(cs[i].0 != cs[j].0);
        } else {
            assert(cs[j].0 != cs[i].0);
        }
    }
}

/// Every entry of `w` is an entry of `cs`.
pub open spec fn entries_from(w: Seq<(Seq<char>, ColorStyleView)>, cs: Seq<(Seq<char>, ColorStyleView)>) -> bool {
    forall|j: int| 0 <= j < w.len() ==> cs.contains(#[trigger] w[j])
}

proof fn lemma_colors_with(cs: Seq<(Seq<char>, ColorStyleView)>, kind: Seq<char>, e: ColorStyleView)
    requires
        colors_unique(cs),
    ensures
        colors_unique(colors_with(cs, kind, e)),
        colors_unique(colors_without(cs, kind)),
        color_index(colors_without(cs, kind), kind) is None,
        !view_is_empty(e) ==> (color_index(colors_with(cs, kind, e), kind) matches Some(i)
            && colors_with(cs, kind, e)[i] == (kind, e)),
        view_is_empty(e) ==> color_index(colors_with(cs, kind, e), kind) is None,
        entries_from(colors_without(cs, kind), cs),
        forall|j: int|
            0 <= j < colors_with(cs, kind, e).len() && (#[trigger] colors_with(cs, kind, e)[j]).0 != kind
                ==> cs.contains(colors_with(cs, kind, e)[j]),
{
    lemma_color_index_some(cs, kind);
    let w = colors_without(cs, kind);
    match color_index(cs, kind) {
        Some(i) => {
            assert forall|a: int, b: int| 0 <= a < b < w.len() implies (#[trigger] w[a]).0 != (#[trigger] w[b]).0 by {
                let a2 = if a < i { a } else { a + 1 };
                let b2 = if b < i { b } else { b + 1 };
                assert(w[a] == cs[a2]);
                assert(w[b] == cs[b2]);
            }
            assert forall|j: int| 0 <= j < w.len() implies (#[trigger] w[j]).0 != kind by {
                let j2 = if j < i { j } else { j + 1 };
                assert(w[j] == cs[j2]);
                if cs[j2].0 == kind {
                    lemma_color_index_unique(cs, kind, j2);
                }
            }
            assert forall|j: int| 0 <= j < w.len() implies cs.contains(#[trigger] w[j]) by {
                let j2 = if j < i { j } else { j + 1 };
                assert(w[j] == cs[j2]);
            }
            if !view_is_empty(e) {
                let u = cs.update(i, (kind, e));
                assert forall|a: int, b: int| 0 <= a < b < u.len() implies (#[trigger] u[a]).0 != (#[trigger] u[b]).0 by {
                    if a != i && b != i {
                    } else if a == i {
                        assert(u[b] == cs[b]);
                    } else {
                        assert(u[a] == cs[a]);
                    }
                }
                lemma_color_index_unique(u, kind, i);
                assert forall|j: int| 0 <= j < u.len() && (#[trigger] u[j]).0 != kind implies cs.contains(u[j]) by {
                    assert(u[j] == cs[j]);
                }
            }
        },
        None => {
            assert(w == cs);
            assert forall|j: int| 0 <= j < w.len() implies cs.contains(#[trigger] w[j]) by {
                assert(w[j] == cs[j]);
            }
            if !view_is_empty(e) {
                let u = cs.push((kind, e));
                assert forall|a: int, b: int| 0 <= a < b < u.len() implies (#[trigger] u[a]).0 != (#[trigger] u[b]).0 by {
                    if b < cs.len() {
                        assert(u[a] == cs[a]);
                        assert(u[b] == cs[b]);
                    } else {
                        assert(u[a] == cs[a]);
                    }
                }
                lemma_color_index_unique(u, kind, cs.len() as int);
                assert forall|j: int| 0 <= j < u.len() && (#[trigger] u[j]).0 != kind implies cs.contains(u[j]) by {
                    assert(u[j] == cs[j]);
                }
            }
        },
    }
}

/// Law: after `config color`, the override for that kind is exactly what
/// the command asked for: none after `--clear`, otherwise the old entry
/// (or an empty one) with the given settings applied. Entries stay one per
/// kind.
pub proof fn color_sets_override(
    c: ConfigView,
    kind: Seq<char>,
    fg: Option<Seq<char>>,
    bg: Option<Seq<char>>,
    bold: bool,
    no_bold: bool,
    clear: bool,
)
    requires
        colors_unique(c.colors),
        color_spec(c, kind, fg, bg, bold, no_bold, clear) is Ok,
    ensures
        ({
            let c2 = color_spec(c, kind, fg, bg, bold, no_bold, clear)->Ok_0;
            let old_entry = match color_index(c.colors, kind) {
                Some(i) => c.colors[i].1,
                None => empty_style_view(),
            };
            &&& colors_unique(c2.colors)
            &&& c2.lines == c.lines
            &&& c2.version == c.version
            &&& clear ==> color_index(c2.colors, kind) is None
            &&& !clear ==> (color_index(c2.colors, kind) matches Some(i) && c2.colors[i] == (
                kind,
                apply_style(old_entry, fg, bg, bold, no_bold),
            ))
        }),
{
    let old_entry = match color_index(c.colors, kind) {
        Some(i) => c.colors[i].1,
        None => empty_style_view(),
    };
    let e = apply_style(old_entry, fg, bg, bold, no_bold);
    lemma_colors_with(c.colors, kind, e);
    if !clear {
        assert(bold || no_bold || fg is Some || bg is Some);
        assert(!view_is_empty(e));
    }
}

/// Law: `config color` keeps a valid config valid.
pub proof fn color_keeps_valid(
    c: ConfigView,
    kind: Seq<char>,
    fg: Option<Seq<char>>,
    bg: Option<Seq<char>>,
    bold: bool,
    no_bold: bool,
    clear: bool,
)
    requires
        validate_view(c) is None,
        colors_unique(c.colors),
        color_spec(c, kind, fg, bg, bold, no_bold, clear) is Ok,
    ensures
        validate_view(color_spec(c, kind, fg, bg, bold, no_bold, clear)->Ok_0) is None,
{
    lemma_validate_view(c);
    let c2 = color_spec(c, kind, fg, bg, bold, no_bold, clear)->Ok_0;
    let old_entry = match color_index(c.colors, kind) {
        Some(i) => c.colors[i].1,
        None => empty_style_view(),
    };
    let e = apply_style(old_entry, fg, bg, bold, no_bold);
    lemma_colors_with(c.colors, kind, e);
    lemma_color_index_some(c.colors, kind);
    if clear {
        assert(entries_from(c2.colors, c.colors));
        assert forall|j: int| 0 <= j < c2.colors.len() implies color_entry_error(#[trigger] c2.colors[j]) is None by {
            assert(c.colors.contains(c2.colors[j]));
            let k = choose|k: int| 0 <= k < c.colors.len() && c.colors[k] == c2.colors[j];
            assert(color_entry_error(c.colors[k]) is None);
        }
    } else {
        assert(style_view_spec(old_entry) is Ok) by {
            match color_index(c.colors, kind) {
                Some(i) => {
                    assert(color_entry_error(c.colors[i]) is None);
                },
                None => {},
            }
        }
        assert(color_entry_error((kind, e)) is None);
        assert forall|j: int| 0 <= j < c2.colors.len() implies color_entry_error(#[trigger] c2.colors[j]) is None by {
            if c2.colors[j].0 == kind {
                let i = color_index(c2.colors, kind)->0;
                lemma_color_index_unique(c2.colors, kind, j);
            } else {
                assert(c.colors.contains(c2.colors[j]));
                let k = choose|k: int| 0 <= k < c.colors.len() && c.colors[k] == c2.colors[j];
                assert(color_entry_error(c.colors[k]) is None);
            }
        }
    }
    lemma_validate_view(c2);
}


/// The override entry for `kind` (the empty entry when there is none).
pub open spec fn entry_of(cs: Seq<(Seq<char>, ColorStyleView)>, kind: Seq<char>) -> ColorStyleView {
    match color_index(cs, kind) {
        Some(i) => cs[i].1,
        None => empty_style_view(),
    }
}

proof fn lemma_entry_of_at(cs: Seq<(Seq<char>, ColorStyleView)>, j: int)
    requires
        colors_unique(cs),
        0 <= j < cs.len(),
    ensures
        entry_of(cs, cs[j].0) == cs[j].1,
{
    let k = cs[j].0;
    assert(exists|i: int| 0 <= i < cs.len() && (#[trigger] cs[i]).0 == k);
    let i = color_index(cs, k)->0;
    assert(0 <= i < cs.len() && cs[i].0 == k);
    if i < j {
        assert(cs[i].0 != cs[j].0);
    } else if j < i {
        assert(cs[j].0 != cs[i].0);
    }
}

proof fn lemma_entry_of_absent(cs: Seq<(Seq<char>, ColorStyleView)>, k: Seq<char>)
    requires
        forall|j: int| 0 <= j < cs.len() ==> (#[trigger] cs[j]).0 != k,
    ensures
        entry_of(cs, k) == empty_style_view(),
{
}

/// Looking a kind up after `colors_with` gives the entry just set for that
/// kind, and what was there before for every other kind.
proof fn lemma_colors_with_entry(cs: Seq<(Seq<char>, ColorStyleView)>, kind: Seq<char>, e: ColorStyleView, k: Seq<char>)
    requires
        colors_unique(cs),
    ensures
        entry_of(colors_with(cs, kind, e), kind) == e,
        k != kind ==> entry_of(colors_with(cs, kind, e), k) == entry_of(cs, k),
{
    let r = colors_with(cs, kind, e);
    let idx = color_index(cs, kind);
    if let Some(i) = idx {
        assert(0 <= i < cs.len() && cs[i].0 == kind);
    } else {
        assert(forall|j: int| 0 <= j < cs.len() ==> (#[trigger] cs[j]).0 != kind);
    }
    // Shape of the result.
    if view_is_empty(e) {
        assert(e == empty_style_view());
        if let Some(i) = idx {
            lemma_unique_remove(cs, i);
            assert forall|j: int| 0 <= j < r.len() implies (#[trigger] r[j]).0 != kind by {
                let j2 = if j < i { j } else { j + 1 };
                assert(r[j] == cs[j2]);
                if j2 < i {
                    assert(cs[j2].0 != cs[i].0);
                } else {
                    assert(cs[i].0 != cs[j2].0);
                }
            }
        }
        lemma_entry_of_absent(r, kind);
    } else {
        match idx {
            Some(i) => {
                assert forall|a: int, b: int| 0 <= a < b < r.len() implies (#[trigger] r[a]).0 != (#[trigger] r[b]).0 by {
                    if a != i && b != i {
                        assert(r[a] == cs[a] && r[b] == cs[b]);
                    } else if a == i {
                        assert(r[b] == cs[b]);
                        assert(cs[i].0 != cs[b].0);
                    } else {
                        assert(r[a] == cs[a]);
                        assert(cs[a].0 != cs[i].0);
                    }
                }
                assert(r[i] == (kind, e));
                lemma_entry_of_at(r, i);
            },
            None => {
                let n = cs.len() as int;
                assert forall|a: int, b: int| 0 <= a < b < r.len() implies (#[trigger] r[a]).0 != (#[trigger] r[b]).0 by {
                    assert(r[a] == cs[a]);
                    if b < n {
                        assert(r[b] == cs[b]);
                    }
                }
                assert(r[n] == (kind, e));
                lemma_entry_of_at(r, n);
            },
        }
    }
    // Every other kind.
    if k != kind {
        if exists|j: int| 0 <= j < cs.len() && (#[trigger] cs[j]).0 == k {
            let j = choose|j: int| 0 <= j < cs.len() && (#[trigger] cs[j]).0 == k;
            lemma_entry_of_at(cs, j);
            if view_is_empty(e) {
                match idx {
                    Some(i) => {
                        let j2 = if j < i { j } else { j - 1 };
                        assert(j != i);
                        assert(r[j2] == cs[j]);
                        lemma_unique_remove(cs, i);
                        lemma_entry_of_at(r, j2);
                    },
                    None => {},
                }
            } else {
                match idx {
                    Some(i) => {
                        assert(j != i);
                        assert(r[j] == cs[j]);
                        lemma_entry_of_at(r, j);
                    },
                    None => {
                        assert(r[j] == cs[j]);
                        lemma_entry_of_at(r, j);
                    },
                }
            }
        } else {
            lemma_entry_of_absent(cs, k);
            assert forall|j: int| 0 <= j < r.len() implies (#[trigger] r[j]).0 != k by {
                if view_is_empty(e) {
                    if let Some(i) = idx {
                        let j2 = if j < i { j } else { j + 1 };
                        assert(r[j] == cs[j2]);
                    }
                } else {
                    match idx {
                        Some(i) => {
                            if j != i {
                                assert(r[j] == cs[j]);
                            }
                        },
                        None => {
                            if j < cs.len() {
                                assert(r[j] == cs[j]);
                            }
                        },
                    }
                }
            }
            lemma_entry_of_absent(r, k);
        }
    }
}

/// Law: `config color <kind>` without `--clear` changes only what it is
/// given. In the entry for `kind`, a given `--fg` or `--bg` replaces that
/// color and one not given keeps its old value (whatever the other flag
/// says); `--bold` / `--no-bold` set bold, and without either bold is
/// kept. Every other kind's entry, and the rest of the config, are
/// unchanged.
pub proof fn color_changes_only_given_settings(
    c: ConfigView,
    kind: Seq<char>,
    fg: Option<Seq<char>>,
    bg: Option<Seq<char>>,
    bold: bool,
    no_bold: bool,
    other: Seq<char>,
)
    requires
        colors_unique(c.colors),
        color_spec(c, kind, fg, bg, bold, no_bold, false) is Ok,
    ensures
        ({
            let after = color_spec(c, kind, fg, bg, bold, no_bold, false)->Ok_0;
            let before_e = entry_of(c.colors, kind);
            let after_e = entry_of(after.colors, kind);
            &&& after_e.fg == (if fg is Some { fg } else { before_e.fg })
            &&& after_e.bg == (if bg is Some { bg } else { before_e.bg })
            &&& after_e.bold == (if bold { Some(true) } else if no_bold { Some(false) } else { before_e.bold })
            &&& (other != kind ==> entry_of(after.colors, other) == entry_of(c.colors, other))
            &&& after.version == c.version && after.tz == c.tz && after.lines == c.lines
        }),
{
    let old_entry = entry_of(c.colors, kind);
    lemma_colors_with_entry(c.colors, kind, apply_style(old_entry, fg, bg, bold, no_bold), other);
}

/// Law: `config color <kind> --clear` (whatever else is given) removes
/// every override of `kind` and leaves every other kind's entry, and the rest of the config, alone.
pub proof fn color_clear_drops_only_that_kind(
    c: ConfigView,
    kind: Seq<char>,
    fg: Option<Seq<char>>,
    bg: Option<Seq<char>>,
    bold: bool,
    no_bold: bool,
    other: Seq<char>,
)
    requires
        colors_unique(c.colors),
        color_spec(c, kind, fg, bg, bold, no_bold, true) is Ok,
    ensures
        ({
            let after = color_spec(c, kind, fg, bg, bold, no_bold, true)->Ok_0;
            &&& entry_of(after.colors, kind) == empty_style_view()
            &&& (other != kind ==> entry_of(after.colors, other) == entry_of(c.colors, other))
            &&& after.version == c.version && after.tz == c.tz && after.lines == c.lines
        }),
{
    lemma_colors_with_entry(c.colors, kind, empty_style_view(), other);
    assert(colors_with(c.colors, kind, empty_style_view()) == colors_without(c.colors, kind));
}

} // verus!
