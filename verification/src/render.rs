//! Turns a finished explanation into terminal text: a title, wrapped paragraphs, and
//! one section per kind of content, colored when the theme asks for it.
use crate::cli::{bounds_locate, line_bounds, lines_of};
use crate::model::{level_text, texts, CodeExample, Citation, Explanation};
use crate::cli::lemma_lines_free_of;
use crate::text::{
    chars_of, contains, free_of, join, lemma_contains_concat, lemma_contains_grow,
    lemma_contains_trans, lemma_free_of_concat, lemma_free_of_repeat, lemma_free_of_subrange,
    lemma_free_of_trim, repeat_char, repeat_string, string_of_range, trim, trim_str,
};
use owo_colors::{AnsiColors, Effect, OwoColorize, Style};
use vstd::prelude::*;
use vstd::string::{StrSliceExecFns, StringExecFns};

verus! {

/// The styles the renderer uses.
#[derive(Debug, Clone, Copy, PartialEq, Eq, Structural)]
pub enum Tone {
    /// Bold bright white: the title line.
    Title,
    /// Dimmed: the rule under the title.
    Rule,
    /// Bold bright cyan: section headings.
    Heading,
    /// Bold yellow: bullet markers.
    Marker,
    /// Green: code lines.
    Code,
    /// Bold: citation titles.
    Strong,
    /// Blue, underlined: citation links.
    Link,
    /// Dimmed: what a citation supports.
    Faint,
}

/// The foreground colors the renderer uses, as ANSI names them.
#[derive(Debug, Clone, Copy, PartialEq, Eq, Structural)]
pub enum Ink {
    Green,
    Yellow,
    Blue,
    BrightCyan,
    BrightWhite,
}

/// The text effects the renderer uses.
#[derive(Debug, Clone, Copy, PartialEq, Eq, Structural)]
pub enum Mark {
    Bold,
    Dimmed,
    Underline,
}

/// How a tone is drawn: an optional foreground color and three effects.
#[derive(Debug, Clone, Copy, PartialEq, Eq, Structural)]
pub struct ToneStyle {
    pub ink: Option<Ink>,
    pub bold: bool,
    pub dimmed: bool,
    pub underline: bool,
}

/// The renderer's color scheme.
pub open spec fn tone_style_of(tone: Tone) -> ToneStyle {
    match tone {
        Tone::Title => ToneStyle { ink: Some(Ink::BrightWhite), bold: true, dimmed: false, underline: false },
        Tone::Rule => ToneStyle { ink: None, bold: false, dimmed: true, underline: false },
        Tone::Heading => ToneStyle { ink: Some(Ink::BrightCyan), bold: true, dimmed: false, underline: false },
        Tone::Marker => ToneStyle { ink: Some(Ink::Yellow), bold: true, dimmed: false, underline: false },
        Tone::Code => ToneStyle { ink: Some(Ink::Green), bold: false, dimmed: false, underline: false },
        Tone::Strong => ToneStyle { ink: None, bold: true, dimmed: false, underline: false },
        Tone::Link => ToneStyle { ink: Some(Ink::Blue), bold: false, dimmed: false, underline: true },
        Tone::Faint => ToneStyle { ink: None, bold: false, dimmed: true, underline: false },
    }
}

/// The style each tone is drawn in.
pub fn tone_style(tone: Tone) -> (r: ToneStyle)
    ensures
        r == tone_style_of(tone),
{
    match tone {
        Tone::Title => ToneStyle { ink: Some(Ink::BrightWhite), bold: true, dimmed: false, underline: false },
        Tone::Rule => ToneStyle { ink: None, bold: false, dimmed: true, underline: false },
        Tone::Heading => ToneStyle { ink: Some(Ink::BrightCyan), bold: true, dimmed: false, underline: false },
        Tone::Marker => ToneStyle { ink: Some(Ink::Yellow), bold: true, dimmed: false, underline: false },
        Tone::Code => ToneStyle { ink: Some(Ink::Green), bold: false, dimmed: false, underline: false },
        Tone::Strong => ToneStyle { ink: None, bold: true, dimmed: false, underline: false },
        Tone::Link => ToneStyle { ink: Some(Ink::Blue), bold: false, dimmed: false, underline: true },
        Tone::Faint => ToneStyle { ink: None, bold: false, dimmed: true, underline: false },
    }
}

/// The SGR foreground code of an ink.
pub open spec fn ink_code(ink: Ink) -> Seq<char> {
    match ink {
        Ink::Green => "32"@,
        Ink::Yellow => "33"@,
        Ink::Blue => "34"@,
        Ink::BrightCyan => "96"@,
        Ink::BrightWhite => "97"@,
    }
}

/// The SGR codes of a set of effects, in the order bold (1), dimmed (2), underline (4),
/// each once whatever the list repeats.
pub open spec fn mark_codes(marks: Seq<Mark>) -> Seq<Seq<char>> {
    (if marks.contains(Mark::Bold) { seq!["1"@] } else { seq![] }) + (if marks.contains(
        Mark::Dimmed,
    ) {
        seq!["2"@]
    } else {
        seq![]
    }) + (if marks.contains(Mark::Underline) { seq!["4"@] } else { seq![] })
}

/// The SGR codes of a style: the foreground first, then the effects.
pub open spec fn style_codes(st: ToneStyle) -> Seq<Seq<char>> {
    (match st.ink {
        Some(i) => seq![ink_code(i)],
        None => seq![],
    }) + (if st.bold { seq!["1"@] } else { seq![] }) + (if st.dimmed { seq!["2"@] } else { seq![] })
        + (if st.underline { seq!["4"@] } else { seq![] })
}

/// `text` between `ESC [ codes m` and the reset `ESC [ 0 m`, the codes separated by
/// `;`; with no codes, `text` as it is.
pub open spec fn sgr_wrapped(text: Seq<char>, codes: Seq<Seq<char>>) -> Seq<char> {
    if codes.len() == 0 {
        text
    } else {
        seq![esc(), '['] + join(codes, ";"@) + seq!['m'] + text + seq![esc(), '[', '0', 'm']
    }
}

/// The SGR parameters of each tone.
pub open spec fn tone_codes(tone: Tone) -> Seq<char> {
    join(style_codes(tone_style_of(tone)), ";"@)
}

pub open spec fn esc() -> char {
    '\x1b'
}

/// `text` between the ANSI escape that switches the tone on and the reset.
pub open spec fn styled_text(text: Seq<char>, tone: Tone) -> Seq<char> {
    seq![esc(), '['] + tone_codes(tone) + seq!['m'] + text + seq![esc(), '[', '0', 'm']
}

/// `owo_colors`: `text.style(Style::new().color(ink).effects(marks)).to_string()`.
/// Claims the text that `Style::fmt_prefix` and `fmt_suffix` write around `text`:
/// `ESC [`, the foreground code, then `1`, `2`, `4` for bold, dimmed and underline when
/// present, separated by `;`, then `m`; after the text `ESC [ 0 m`.
#[verifier::external_body]
fn sgr_inked(text: &str, ink: Ink, marks: &[Mark]) -> (r: String)
    ensures
        r@ == sgr_wrapped(text@, seq![ink_code(ink)] + mark_codes(marks@)),
{
    let color = match ink {
        Ink::Green => AnsiColors::Green,
        Ink::Yellow => AnsiColors::Yellow,
        Ink::Blue => AnsiColors::Blue,
        Ink::BrightCyan => AnsiColors::BrightCyan,
        Ink::BrightWhite => AnsiColors::BrightWhite,
    };
    let effects: Vec<Effect> = marks.iter().map(|m| match m {
        Mark::Bold => Effect::Bold,
        Mark::Dimmed => Effect::Dimmed,
        Mark::Underline => Effect::Underline,
    }).collect();
    OwoColorize::style(&text, Style::new().color(color).effects(&effects)).to_string()
}

/// `owo_colors`: `text.style(Style::new().effects(marks)).to_string()`. Claims the
/// same framing as `sgr_inked` without a foreground code; with no effects the style is
/// plain and the text comes back unchanged.
#[verifier::external_body]
fn sgr_marked(text: &str, marks: &[Mark]) -> (r: String)
    ensures
        r@ == sgr_wrapped(text@, mark_codes(marks@)),
{
    let effects: Vec<Effect> = marks.iter().map(|m| match m {
        Mark::Bold => Effect::Bold,
        Mark::Dimmed => Effect::Dimmed,
        Mark::Underline => Effect::Underline,
    }).collect();
    OwoColorize::style(&text, Style::new().effects(&effects)).to_string()
}

/// The effects a style turns on, as a list.
pub open spec fn style_marks(st: ToneStyle) -> Seq<Mark> {
    (if st.bold { seq![Mark::Bold] } else { seq![] }) + (if st.dimmed { seq![Mark::Dimmed] } else {
        seq![]
    }) + (if st.underline { seq![Mark::Underline] } else { seq![] })
}

proof fn lemma_style_marks(st: ToneStyle)
    ensures
        mark_codes(style_marks(st)) == (if st.bold { seq!["1"@] } else { seq![] }) + (if st.dimmed {
            seq!["2"@]
        } else {
            seq![]
        }) + (if st.underline { seq!["4"@] } else { seq![] }),
{
    let m = style_marks(st);
    let b = if st.bold { seq![Mark::Bold] } else { Seq::<Mark>::empty() };
    let d = if st.dimmed { seq![Mark::Dimmed] } else { Seq::<Mark>::empty() };
    let u = if st.underline { seq![Mark::Underline] } else { Seq::<Mark>::empty() };
    assert(m == b + d + u);
    if st.bold {
        assert(m[0] == Mark::Bold);
    } else {
        assert forall|i: int| 0 <= i < m.len() implies m[i] != Mark::Bold by {
            if i < d.len() {
                assert(m[i] == d[i]);
            } else {
                assert(m[i] == u[i - d.len()]);
            }
        }
    }
    if st.dimmed {
        assert(m[b.len() as int] == Mark::Dimmed);
    } else {
        assert forall|i: int| 0 <= i < m.len() implies m[i] != Mark::Dimmed by {
            if i < b.len() {
                assert(m[i] == b[i]);
            } else {
                assert(m[i] == u[i - b.len()]);
            }
        }
    }
    if st.underline {
        assert(m[(b.len() + d.len()) as int] == Mark::Underline);
    } else {
        assert forall|i: int| 0 <= i < m.len() implies m[i] != Mark::Underline by {
            if i < b.len() {
                assert(m[i] == b[i]);
            } else {
                assert(m[i] == d[i - b.len()]);
            }
        }
    }
}

/// `text` drawn in `tone`: the style of the tone, written as SGR codes around it.
fn styled(text: &str, tone: Tone) -> (r: String)
    ensures
        r@ == styled_text(text@, tone),
{
    let st = tone_style(tone);
    let mut marks: Vec<Mark> = Vec::new();
    if st.bold {
        marks.push(Mark::Bold);
    }
    if st.dimmed {
        marks.push(Mark::Dimmed);
    }
    if st.underline {
        marks.push(Mark::Underline);
    }
    proof {
        assert(marks@ =~= style_marks(st));
        lemma_style_marks(st);
        assert(style_codes(st).len() > 0);
    }
    match st.ink {
        Some(ink) => {
            assert(seq![ink_code(ink)] + mark_codes(marks@) =~= style_codes(st));
            sgr_inked(text, ink, marks.as_slice())
        },
        None => {
            assert(mark_codes(marks@) =~= style_codes(st));
            sgr_marked(text, marks.as_slice())
        },
    }
}

/// What `textwrap::fill` makes of `text` at `width` with the given indents.
pub uninterp spec fn filled(
    text: Seq<char>,
    width: usize,
    initial_indent: Seq<char>,
    subsequent_indent: Seq<char>,
) -> Seq<char>;

/// `textwrap::fill` with `Options::new(width).initial_indent(..).subsequent_indent(..)`.
/// Claims that the result is named by `filled`, and that every character of it comes
/// from the text or an indent, or is a line break or a hyphen: `fill` only joins
/// slices of the text's words and the indents with `\n` (a `-` is the only penalty
/// its word splitters add). The line-breaking algorithm itself is not stated.
#[verifier::external_body]
fn fill(text: &str, width: usize, initial_indent: &str, subsequent_indent: &str) -> (r: String)
    ensures
        r@ == filled(text@, width, initial_indent@, subsequent_indent@),
        forall|i: int|
            0 <= i < r@.len() ==> text@.contains(#[trigger] r@[i]) || initial_indent@.contains(
                r@[i],
            ) || subsequent_indent@.contains(r@[i]) || r@[i] == '\n' || r@[i] == '-',
{
    textwrap::fill(
        text,
        textwrap::Options::new(width).initial_indent(initial_indent).subsequent_indent(
            subsequent_indent,
        ),
    )
}

/// `text` as the theme paints it.
pub open spec fn painted(color: bool, text: Seq<char>, tone: Tone) -> Seq<char> {
    if color {
        styled_text(text, tone)
    } else {
        text
    }
}

/// The wrap width left beside an indent: never below 20.
pub open spec fn wrap_width(width: usize, indent: nat) -> usize {
    let w = if width >= indent {
        (width - indent) as usize
    } else {
        0usize
    };
    if w < 20 {
        20
    } else {
        w
    }
}

/// `str::split("\n\n")`: the pieces between non-overlapping blank-line separators,
/// found from the left.
pub open spec fn paragraphs(s: Seq<char>) -> Seq<Seq<char>>
    decreases s.len(),
{
    if s.len() == 0 {
        seq![seq![]]
    } else if s.len() >= 2 && s[0] == '\n' && s[1] == '\n' {
        seq![seq![]] + paragraphs(s.subrange(2, s.len() as int))
    } else {
        let rest = paragraphs(s.drop_first());
        seq![seq![s[0]] + rest[0]] + rest.drop_first()
    }
}

/// One paragraph of body text: trimmed, wrapped and followed by a blank line; nothing
/// when it is blank.
pub open spec fn paragraph_text(p: Seq<char>, indent: Seq<char>, width: usize) -> Seq<char> {
    let t = trim(p);
    if t.len() == 0 {
        seq![]
    } else {
        filled(t, wrap_width(width, indent.len()), indent, indent) + "\n\n"@
    }
}

pub open spec fn body_parts(ps: Seq<Seq<char>>, indent: Seq<char>, width: usize) -> Seq<char>
    decreases ps.len(),
{
    if ps.len() == 0 {
        seq![]
    } else {
        body_parts(ps.drop_last(), indent, width) + paragraph_text(ps.last(), indent, width)
    }
}

/// Body text: each paragraph of `text` wrapped with `indent`.
pub open spec fn body_text(text: Seq<char>, indent: Seq<char>, width: usize) -> Seq<char> {
    body_parts(paragraphs(text), indent, width)
}

pub open spec fn heading_text(color: bool, text: Seq<char>) -> Seq<char> {
    "\n"@ + painted(color, text, Tone::Heading) + "\n"@
}

/// One bullet: the painted marker, a space, and the item wrapped under itself.
pub open spec fn bullet_text(color: bool, width: usize, item: Seq<char>, marker: Seq<char>) -> Seq<char> {
    painted(color, marker, Tone::Marker) + " "@ + filled(
        item,
        wrap_width(width, marker.len() + 1),
        seq![],
        repeat_char(' ', marker.len() + 1),
    ) + "\n"@
}

pub open spec fn bullet_parts(color: bool, width: usize, items: Seq<Seq<char>>, marker: Seq<char>) -> Seq<char>
    decreases items.len(),
{
    if items.len() == 0 {
        seq![]
    } else {
        bullet_parts(color, width, items.drop_last(), marker) + bullet_text(
            color,
            width,
            items.last(),
            marker,
        )
    }
}

/// A bulleted list followed by a blank line.
pub open spec fn bullets_text(color: bool, width: usize, items: Seq<Seq<char>>, marker: Seq<char>) -> Seq<char> {
    bullet_parts(color, width, items, marker) + "\n"@
}

pub open spec fn code_parts(color: bool, lines: Seq<Seq<char>>) -> Seq<char>
    decreases lines.len(),
{
    if lines.len() == 0 {
        seq![]
    } else {
        code_parts(color, lines.drop_last()) + "  "@ + painted(color, lines.last(), Tone::Code)
            + "\n"@
    }
}

/// The code example: heading, indented code lines, a blank line, then the commentary
/// when it is not blank.
pub open spec fn example_text(color: bool, width: usize, ex: CodeExample) -> Seq<char> {
    heading_text(color, "In code ("@ + ex.language@ + ")"@) + code_parts(color, lines_of(ex.code@))
        + "\n"@ + (if trim(ex.commentary@).len() == 0 {
        seq![]
    } else {
        body_text(ex.commentary@, "  "@, width)
    })
}

/// One source: its title, its URL on the next line when there is one, then what it
/// supports.
pub open spec fn citation_text(color: bool, c: Citation) -> Seq<char> {
    "  "@ + painted(color, c.title@, Tone::Strong) + (match c.url {
        Some(u) => "\n    "@ + painted(color, u@, Tone::Link),
        None => seq![],
    }) + "\n"@ + "    "@ + painted(color, c.supports@, Tone::Faint) + "\n"@
}

pub open spec fn citation_parts(color: bool, cs: Seq<Citation>) -> Seq<char>
    decreases cs.len(),
{
    if cs.len() == 0 {
        seq![]
    } else {
        citation_parts(color, cs.drop_last()) + citation_text(color, cs.last())
    }
}

pub open spec fn title_text(e: Explanation) -> Seq<char> {
    e.topic@ + "  ("@ + level_text(e.level) + ")"@
}

/// The rule under the title: as long as the title plus 8, but no wider than the theme.
pub open spec fn rule_len(width: usize, title_len: nat) -> nat {
    if width <= title_len + 8 {
        width as nat
    } else {
        title_len + 8
    }
}

pub open spec fn analogy_section(color: bool, width: usize, e: Explanation) -> Seq<char> {
    if e.analogy@.len() == 0 {
        seq![]
    } else {
        heading_text(color, "Think of it like this"@) + body_text(e.analogy@, "  "@, width)
    }
}

pub open spec fn list_section(
    color: bool,
    width: usize,
    items: Seq<Seq<char>>,
    title: Seq<char>,
    marker: Seq<char>,
) -> Seq<char> {
    if items.len() == 0 {
        seq![]
    } else {
        heading_text(color, title) + bullets_text(color, width, items, marker)
    }
}

pub open spec fn example_section(color: bool, width: usize, e: Explanation) -> Seq<char> {
    match e.example {
        Some(ex) => example_text(color, width, ex),
        None => seq![],
    }
}

pub open spec fn sources_section(color: bool, e: Explanation) -> Seq<char> {
    if e.citations@.len() == 0 {
        seq![]
    } else {
        heading_text(color, "Sources"@) + citation_parts(color, e.citations@) + "\n"@
    }
}

pub open spec fn limits_marker() -> Seq<char> {
    "  \u{26A0}"@
}

pub open spec fn caveats_marker() -> Seq<char> {
    "  ?"@
}

pub open spec fn corrections_marker() -> Seq<char> {
    "  \u{270E}"@
}

/// The title line, the rule under it, the summary and the main text.
pub open spec fn head_part(c: bool, w: usize, e: Explanation) -> Seq<char> {
    let title = title_text(e);
    painted(c, title, Tone::Title) + "\n"@ + painted(
        c,
        repeat_char('\u{2500}', rule_len(w, title.len())),
        Tone::Rule,
    ) + "\n"@ + body_text(e.summary@, seq![], w) + body_text(e.plain@, seq![], w)
}

pub open spec fn limits_section(c: bool, w: usize, e: Explanation) -> Seq<char> {
    list_section(c, w, texts(e.analogy_limits@), "Where that breaks down"@, limits_marker())
}

pub open spec fn caveats_section(c: bool, w: usize, e: Explanation) -> Seq<char> {
    list_section(c, w, texts(e.caveats@), "Unverified"@, caveats_marker())
}

pub open spec fn corrections_section(c: bool, w: usize, e: Explanation) -> Seq<char> {
    list_section(c, w, texts(e.corrections@), "The fact-check pass changed"@, corrections_marker())
}

/// The whole rendering of an explanation.
pub open spec fn rendered(e: Explanation, theme: Theme) -> Seq<char> {
    let c = theme.color;
    let w = theme.width;
    head_part(c, w, e) + analogy_section(c, w, e) + limits_section(c, w, e) + example_section(c, w, e)
        + caveats_section(c, w, e) + corrections_section(c, w, e) + sources_section(c, e)
}

/// Every string of the list is free of `c`.
pub open spec fn all_free_of(items: Seq<Seq<char>>, c: char) -> bool {
    forall|k: int| 0 <= k < items.len() ==> free_of(#[trigger] items[k], c)
}

/// No text of the explanation holds an escape character.
pub open spec fn escape_free(e: Explanation) -> bool {
    &&& free_of(e.topic@, esc())
    &&& free_of(e.summary@, esc())
    &&& free_of(e.plain@, esc())
    &&& free_of(e.analogy@, esc())
    &&& all_free_of(texts(e.analogy_limits@), esc())
    &&& all_free_of(texts(e.caveats@), esc())
    &&& all_free_of(texts(e.corrections@), esc())
    &&& match e.example {
        Some(ex) => free_of(ex.language@, esc()) && free_of(ex.code@, esc()) && free_of(
            ex.commentary@,
            esc(),
        ),
        None => true,
    }
    &&& forall|k: int|
        0 <= k < e.citations@.len() ==> citation_escape_free(#[trigger] e.citations@[k])
}

pub open spec fn citation_escape_free(c: Citation) -> bool {
    &&& free_of(c.title@, esc())
    &&& free_of(c.supports@, esc())
    &&& match c.url {
        Some(u) => free_of(u@, esc()),
        None => true,
    }
}

proof fn lemma_literal_free(s: Seq<char>)
    requires
        forall|i: int| 0 <= i < s.len() ==> (#[trigger] s[i] as u32) >= 32,
    ensures
        free_of(s, esc()),
{
    assert forall|i: int| 0 <= i < s.len() implies s[i] != esc() by {
        assert((s[i] as u32) >= 32);
    }
}

proof fn lemma_heading_free(t: Seq<char>)
    requires
        free_of(t, esc()),
    ensures
        free_of(heading_text(false, t), esc()),
{
    reveal_strlit("\n");
    assert(free_of("\n"@, esc())) by {
        assert("\n"@[0] == '\n');
    }
    lemma_free_of_concat("\n"@, t, esc());
    lemma_free_of_concat("\n"@ + t, "\n"@, esc());
}

proof fn lemma_code_parts_free(lines: Seq<Seq<char>>)
    requires
        forall|k: int| 0 <= k < lines.len() ==> free_of(#[trigger] lines[k], esc()),
    ensures
        free_of(code_parts(false, lines), esc()),
    decreases lines.len(),
{
    if lines.len() > 0 {
        assert forall|k: int| 0 <= k < lines.drop_last().len() implies free_of(
            #[trigger] lines.drop_last()[k],
            esc(),
        ) by {
            assert(lines.drop_last()[k] == lines[k]);
        }
        lemma_code_parts_free(lines.drop_last());
        reveal_strlit("  ");
        reveal_strlit("\n");
        lemma_literal_free("  "@);
        assert(free_of("\n"@, esc())) by {
            assert("\n"@[0] == '\n');
        }
        assert(free_of(lines.last(), esc())) by {
            assert(free_of(lines[lines.len() - 1], esc()));
        }
        let pre = code_parts(false, lines.drop_last());
        lemma_free_of_concat(pre, "  "@, esc());
        lemma_free_of_concat(pre + "  "@, lines.last(), esc());
        lemma_free_of_concat(pre + "  "@ + lines.last(), "\n"@, esc());
    }
}

proof fn lemma_citations_free(cs: Seq<Citation>)
    requires
        forall|k: int| 0 <= k < cs.len() ==> citation_escape_free(#[trigger] cs[k]),
    ensures
        free_of(citation_parts(false, cs), esc()),
    decreases cs.len(),
{
    if cs.len() > 0 {
        assert forall|k: int| 0 <= k < cs.drop_last().len() implies citation_escape_free(
            #[trigger] cs.drop_last()[k],
        ) by {
            assert(cs.drop_last()[k] == cs[k]);
        }
        lemma_citations_free(cs.drop_last());
        let c = cs.last();
        assert(citation_escape_free(cs[cs.len() - 1]));
        reveal_strlit("  ");
        reveal_strlit("\n    ");
        reveal_strlit("\n");
        reveal_strlit("    ");
        lemma_literal_free("  "@);
        lemma_literal_free("    "@);
        assert(free_of("\n"@, esc())) by {
            assert("\n"@[0] == '\n');
        }
        assert(free_of("\n    "@, esc())) by {
            assert forall|i: int| 0 <= i < 5 implies "\n    "@[i] != esc() by {}
        }
        let url_part = match c.url {
            Some(u) => "\n    "@ + u@,
            None => Seq::<char>::empty(),
        };
        match c.url {
            Some(u) => {
                lemma_free_of_concat("\n    "@, u@, esc());
            },
            None => {},
        }
        let t = "  "@ + c.title@ + url_part + "\n"@ + "    "@ + c.supports@ + "\n"@;
        lemma_free_of_concat("  "@, c.title@, esc());
        lemma_free_of_concat("  "@ + c.title@, url_part, esc());
        lemma_free_of_concat("  "@ + c.title@ + url_part, "\n"@, esc());
        lemma_free_of_concat("  "@ + c.title@ + url_part + "\n"@, "    "@, esc());
        lemma_free_of_concat("  "@ + c.title@ + url_part + "\n"@ + "    "@, c.supports@, esc());
        lemma_free_of_concat(
            "  "@ + c.title@ + url_part + "\n"@ + "    "@ + c.supports@,
            "\n"@,
            esc(),
        );
        assert(citation_text(false, c) == t);
        lemma_free_of_concat(citation_parts(false, cs.drop_last()), t, esc());
    }
}

/// How output looks: colored or plain, and how wide.
pub struct Theme {
    pub color: bool,
    pub width: usize,
}

impl Default for Theme {
    fn default() -> (r: Self)
        ensures
            r.color,
            r.width == 88,
    {
        Theme { color: true, width: 88 }
    }
}

impl Theme {
    /// Appends `text`, painted in `tone` when the theme is colored.
    fn paint(&self, out: &mut String, text: &str, tone: Tone)
        ensures
            final(out)@ == old(out)@ + painted(self.color, text@, tone),
    {
        if self.color {
            let s = styled(text, tone);
            out.append(s.as_str());
        } else {
            out.append(text);
        }
    }

    fn heading(&self, out: &mut String, text: &str)
        ensures
            final(out)@ == old(out)@ + heading_text(self.color, text@),
    {
        out.append("\n");
        self.paint(out, text, Tone::Heading);
        out.append("\n");
        proof {
            reveal_strlit("\n");
        }
        assert(out@ =~= old(out)@ + heading_text(self.color, text@));
    }

    /// Appends one paragraph, `v[lo..hi]`.
    fn paragraph(&self, out: &mut String, v: &Vec<char>, lo: usize, hi: usize, indent: &str)
        requires
            lo <= hi <= v@.len(),
        ensures
            final(out)@ == old(out)@ + paragraph_text(v@.subrange(lo as int, hi as int), indent@, self.width),
            free_of(v@.subrange(lo as int, hi as int), esc()) && free_of(indent@, esc()) ==> free_of(
                paragraph_text(v@.subrange(lo as int, hi as int), indent@, self.width),
                esc(),
            ),
    {
        let p = string_of_range(v, lo, hi);
        let t = trim_str(p.as_str());
        if t.is_empty() {
            assert(out@ =~= old(out)@ + paragraph_text(v@.subrange(lo as int, hi as int), indent@, self.width));
            return;
        }
        let n = indent.unicode_len();
        let w0 = if self.width >= n {
            self.width - n
        } else {
            0
        };
        let w = if w0 < 20 {
            20
        } else {
            w0
        };
        let f = fill(t, w, indent, indent);
        out.append(f.as_str());
        out.append("\n\n");
        proof {
            reveal_strlit("\n\n");
            if free_of(p@, esc()) && free_of(indent@, esc()) {
                lemma_free_of_trim(p@, esc());
                assert forall|i: int| 0 <= i < f@.len() implies f@[i] != esc() by {
                    if f@[i] == esc() {
                        if t@.contains(f@[i]) {
                            let j = choose|j: int| 0 <= j < t@.len() && t@[j] == f@[i];
                            assert(t@[j] != esc());
                        }
                        if indent@.contains(f@[i]) {
                            let j = choose|j: int| 0 <= j < indent@.len() && indent@[j] == f@[i];
                            assert(indent@[j] != esc());
                        }
                    }
                }
                assert(free_of("\n\n"@, esc())) by {
                    assert("\n\n"@[0] == '\n' && "\n\n"@[1] == '\n');
                }
                lemma_free_of_concat(f@, "\n\n"@, esc());
            }
        }
        assert(out@ =~= old(out)@ + paragraph_text(v@.subrange(lo as int, hi as int), indent@, self.width));
    }

    /// Appends `text` as wrapped paragraphs with `indent`.
    fn body(&self, out: &mut String, text: &str, indent: &str)
        ensures
            final(out)@ == old(out)@ + body_text(text@, indent@, self.width),
            free_of(text@, esc()) && free_of(indent@, esc()) ==> free_of(
                body_text(text@, indent@, self.width),
                esc(),
            ),
    {
        let v = chars_of(text);
        let n = v.len();
        let mut i: usize = 0;
        let mut start: usize = 0;
        let ghost mut done: Seq<Seq<char>> = seq![];
        proof {
            assert(v@.subrange(0, n as int) =~= v@);
            assert(v@.subrange(0, 0) =~= Seq::<char>::empty());
            lemma_paragraphs_nonempty(v@);
            assert(seq![v@.subrange(0, 0) + paragraphs(v@)[0]] + paragraphs(v@).drop_first()
                =~= paragraphs(v@));
        }
        while i < n
            invariant
                start <= i <= n == v@.len(),
                v@ == text@,
                paragraphs(v@) == done + (seq![v@.subrange(start as int, i as int) + paragraphs(
                    v@.subrange(i as int, n as int),
                )[0]] + paragraphs(v@.subrange(i as int, n as int)).drop_first()),
                out@ == old(out)@ + body_parts(done, indent@, self.width),
                free_of(v@, esc()) && free_of(indent@, esc()) ==> free_of(
                    body_parts(done, indent@, self.width),
                    esc(),
                ),
            decreases n - i,
        {
            let ghost rest = v@.subrange(i as int, n as int);
            let ghost cur = v@.subrange(start as int, i as int);
            if i + 1 < n && v[i] == '\n' && v[i + 1] == '\n' {
                proof {
                    assert(rest[0] == '\n' && rest[1] == '\n');
                    assert(rest.subrange(2, rest.len() as int) =~= v@.subrange(i + 2, n as int));
                    lemma_paragraphs_nonempty(v@.subrange(i + 2, n as int));
                    let p2 = paragraphs(v@.subrange(i + 2, n as int));
                    assert(paragraphs(rest) == seq![seq![]] + p2);
                    assert(paragraphs(rest)[0] =~= Seq::<char>::empty());
                    assert(cur + paragraphs(rest)[0] =~= cur);
                    assert(paragraphs(rest).drop_first() =~= p2);
                    assert(v@.subrange(i + 2, i + 2) =~= Seq::<char>::empty());
                    assert(seq![v@.subrange(i + 2, i + 2) + p2[0]] + p2.drop_first() =~= p2);
                    assert(done + (seq![cur] + p2) =~= done.push(cur) + p2);
                }
                self.paragraph(out, &v, start, i, indent);
                proof {
                    assert(done.push(cur).drop_last() =~= done);
                    if free_of(v@, esc()) && free_of(indent@, esc()) {
                        lemma_free_of_subrange(v@, start as int, i as int, esc());
                        lemma_free_of_concat(
                            body_parts(done, indent@, self.width),
                            paragraph_text(cur, indent@, self.width),
                            esc(),
                        );
                    }
                    done = done.push(cur);
                }
                i = i + 2;
                start = i;
            } else {
                proof {
                    assert(rest.drop_first() =~= v@.subrange(i + 1, n as int));
                    lemma_paragraphs_nonempty(v@.subrange(i + 1, n as int));
                    let r1 = paragraphs(v@.subrange(i + 1, n as int));
                    assert(paragraphs(rest) == seq![seq![rest[0]] + r1[0]] + r1.drop_first());
                    assert(rest[0] == v@[i as int]);
                    assert(cur + (seq![v@[i as int]] + r1[0]) =~= v@.subrange(start as int, i + 1)
                        + r1[0]);
                }
                i = i + 1;
            }
        }
        proof {
            let last = v@.subrange(start as int, n as int);
            assert(v@.subrange(n as int, n as int) =~= Seq::<char>::empty());
            assert(paragraphs(Seq::<char>::empty()) == seq![Seq::<char>::empty()]);
            assert(last + Seq::<char>::empty() =~= last);
            assert(seq![last] + seq![Seq::<char>::empty()].drop_first() =~= seq![last]);
            assert(paragraphs(v@) =~= done.push(last));
            assert(done.push(last).drop_last() =~= done);
        }
        self.paragraph(out, &v, start, n, indent);
        proof {
            let last = v@.subrange(start as int, n as int);
            if free_of(v@, esc()) && free_of(indent@, esc()) {
                lemma_free_of_subrange(v@, start as int, n as int, esc());
                lemma_free_of_concat(
                    body_parts(done, indent@, self.width),
                    paragraph_text(last, indent@, self.width),
                    esc(),
                );
            }
        }
    }

    /// Appends one bullet per item, then a blank line.
    fn bullets(&self, out: &mut String, items: &Vec<String>, marker: &str)
        requires
            marker@.len() < 8,
        ensures
            final(out)@ == old(out)@ + bullets_text(self.color, self.width, texts(items@), marker@),
            !self.color && free_of(marker@, esc()) && all_free_of(texts(items@), esc()) ==> free_of(
                bullets_text(self.color, self.width, texts(items@), marker@),
                esc(),
            ),
    {
        let m = marker.unicode_len();
        let ghost items_v = texts(items@);
        let mut k: usize = 0;
        while k < items.len()
            invariant
                k <= items@.len(),
                items_v == texts(items@),
                m == marker@.len(),
                m < 8,
                out@ == old(out)@ + bullet_parts(
                    self.color,
                    self.width,
                    items_v.subrange(0, k as int),
                    marker@,
                ),
                !self.color && free_of(marker@, esc()) && all_free_of(items_v, esc()) ==> free_of(
                    bullet_parts(self.color, self.width, items_v.subrange(0, k as int), marker@),
                    esc(),
                ),
            decreases items@.len() - k,
        {
            let ghost before = out@;
            self.paint(out, marker, Tone::Marker);
            out.append(" ");
            let indent = repeat_string(' ', m + 1);
            let w0 = if self.width >= m + 1 {
                self.width - (m + 1)
            } else {
                0
            };
            let w = if w0 < 20 {
                20
            } else {
                w0
            };
            let f = fill(items[k].as_str(), w, "", indent.as_str());
            out.append(f.as_str());
            out.append("\n");
            proof {
                reveal_strlit("");
                assert(""@ =~= Seq::<char>::empty());
                assert(w == wrap_width(self.width, marker@.len() + 1));
                reveal_strlit(" ");
                reveal_strlit("\n");
                let now = items_v.subrange(0, k + 1);
                assert(now.drop_last() =~= items_v.subrange(0, k as int));
                assert(now.last() == items@[k as int]@);
                assert(out@ =~= before + bullet_text(self.color, self.width, now.last(), marker@));
                if !self.color && free_of(marker@, esc()) && all_free_of(items_v, esc()) {
                    let item = items@[k as int]@;
                    assert(free_of(items_v[k as int], esc()));
                    lemma_free_of_repeat(' ', (m + 1) as nat, esc());
                    assert forall|i: int| 0 <= i < f@.len() implies f@[i] != esc() by {
                        if f@[i] == esc() {
                            if item.contains(f@[i]) {
                                let j = choose|j: int| 0 <= j < item.len() && item[j] == f@[i];
                                assert(item[j] != esc());
                            }
                            if indent@.contains(f@[i]) {
                                let j = choose|j: int| 0 <= j < indent@.len() && indent@[j] == f@[i];
                                assert(indent@[j] != esc());
                            }
                        }
                    }
                    lemma_literal_free(" "@);
                    assert(free_of("\n"@, esc())) by {
                        assert("\n"@[0] == '\n');
                    }
                    lemma_free_of_concat(marker@, " "@, esc());
                    lemma_free_of_concat(marker@ + " "@, f@, esc());
                    lemma_free_of_concat(marker@ + " "@ + f@, "\n"@, esc());
                    lemma_free_of_concat(
                        bullet_parts(self.color, self.width, items_v.subrange(0, k as int), marker@),
                        bullet_text(self.color, self.width, now.last(), marker@),
                        esc(),
                    );
                }
            }
            k = k + 1;
        }
        assert(items_v.subrange(0, k as int) =~= items_v);
        out.append("\n");
        proof {
            reveal_strlit("\n");
        }
        assert(out@ =~= old(out)@ + bullets_text(self.color, self.width, texts(items@), marker@));
        proof {
            if !self.color && free_of(marker@, esc()) && all_free_of(texts(items@), esc()) {
                assert(free_of("\n"@, esc())) by {
                    assert("\n"@[0] == '\n');
                }
                lemma_free_of_concat(
                    bullet_parts(self.color, self.width, items_v, marker@),
                    "\n"@,
                    esc(),
                );
            }
        }
    }

    /// Appends the code example section.
    fn example(&self, out: &mut String, ex: &CodeExample)
        ensures
            final(out)@ == old(out)@ + example_text(self.color, self.width, *ex),
            !self.color && free_of(ex.language@, esc()) && free_of(ex.code@, esc()) && free_of(
                ex.commentary@,
                esc(),
            ) ==> free_of(example_text(self.color, self.width, *ex), esc()),
    {
        let mut title = String::from_str("In code (");
        title.append(ex.language.as_str());
        title.append(")");
        self.heading(out, title.as_str());
        let ghost after_heading = out@;
        let v = chars_of(ex.code.as_str());
        let bounds = line_bounds(&v);
        let ghost ls = lines_of(v@);
        let mut k: usize = 0;
        while k < bounds.len()
            invariant
                k <= bounds@.len(),
                bounds_locate(v@, bounds@, ls),
                ls == lines_of(v@),
                out@ == after_heading + code_parts(self.color, ls.subrange(0, k as int)),
            decreases bounds@.len() - k,
        {
            let ghost before = out@;
            out.append("  ");
            let (a, b) = bounds[k];
            assert(bounds@[k as int].0 <= bounds@[k as int].1 <= v@.len());
            let line = string_of_range(&v, a, b);
            self.paint(out, line.as_str(), Tone::Code);
            out.append("\n");
            proof {
                reveal_strlit("  ");
                reveal_strlit("\n");
                let now = ls.subrange(0, k + 1);
                assert(now.drop_last() =~= ls.subrange(0, k as int));
                assert(now.last() == ls[k as int]);
                assert(out@ =~= before + "  "@ + painted(self.color, now.last(), Tone::Code) + "\n"@);
            }
            k = k + 1;
        }
        assert(ls.subrange(0, k as int) =~= ls);
        out.append("\n");
        let commentary = trim_str(ex.commentary.as_str());
        if !commentary.is_empty() {
            self.body(out, ex.commentary.as_str(), "  ");
        }
        proof {
            reveal_strlit("\n");
            reveal_strlit("  ");
            reveal_strlit(")");
            reveal_strlit("In code (");
        }
        assert(out@ =~= old(out)@ + example_text(self.color, self.width, *ex));
        proof {
            if !self.color && free_of(ex.language@, esc()) && free_of(ex.code@, esc()) && free_of(
                ex.commentary@,
                esc(),
            ) {
                lemma_literal_free("In code ("@);
                lemma_literal_free(")"@);
                lemma_literal_free("  "@);
                lemma_free_of_concat("In code ("@, ex.language@, esc());
                lemma_free_of_concat("In code ("@ + ex.language@, ")"@, esc());
                lemma_heading_free("In code ("@ + ex.language@ + ")"@);
                lemma_lines_free_of(ex.code@, esc());
                lemma_code_parts_free(lines_of(ex.code@));
                assert(free_of("\n"@, esc())) by {
                    assert("\n"@[0] == '\n');
                }
                let h = heading_text(false, "In code ("@ + ex.language@ + ")"@);
                let cp = code_parts(false, lines_of(ex.code@));
                lemma_free_of_concat(h, cp, esc());
                lemma_free_of_concat(h + cp, "\n"@, esc());
                let tail = if trim(ex.commentary@).len() == 0 {
                    Seq::<char>::empty()
                } else {
                    body_text(ex.commentary@, "  "@, self.width)
                };
                lemma_free_of_concat(h + cp + "\n"@, tail, esc());
            }
        }
    }

    /// Appends the sources section's entries.
    fn citations(&self, out: &mut String, cs: &Vec<Citation>)
        ensures
            final(out)@ == old(out)@ + citation_parts(self.color, cs@),
    {
        let mut k: usize = 0;
        while k < cs.len()
            invariant
                k <= cs@.len(),
                out@ == old(out)@ + citation_parts(self.color, cs@.subrange(0, k as int)),
            decreases cs@.len() - k,
        {
            let ghost before = out@;
            let c = &cs[k];
            out.append("  ");
            self.paint(out, c.title.as_str(), Tone::Strong);
            match &c.url {
                Some(u) => {
                    out.append("\n    ");
                    self.paint(out, u.as_str(), Tone::Link);
                },
                None => {},
            }
            out.append("\n");
            out.append("    ");
            self.paint(out, c.supports.as_str(), Tone::Faint);
            out.append("\n");
            proof {
                reveal_strlit("  ");
                reveal_strlit("\n");
                reveal_strlit("\n    ");
                reveal_strlit("    ");
                let now = cs@.subrange(0, k + 1);
                assert(now.drop_last() =~= cs@.subrange(0, k as int));
                assert(now.last() == cs@[k as int]);
                assert(out@ =~= before + citation_text(self.color, now.last()));
            }
            k = k + 1;
        }
        assert(cs@.subrange(0, k as int) =~= cs@);
    }
}

proof fn lemma_paragraphs_nonempty(s: Seq<char>)
    ensures
        paragraphs(s).len() >= 1,
    decreases s.len(),
{
    if s.len() >= 2 && s[0] == '\n' && s[1] == '\n' {
        lemma_paragraphs_nonempty(s.subrange(2, s.len() as int));
    } else if s.len() > 0 {
        lemma_paragraphs_nonempty(s.drop_first());
    }
}

impl Theme {
    /// Appends the title line and the rule under it.
    fn title(&self, out: &mut String, e: &Explanation)
        ensures
            final(out)@ == old(out)@ + painted(self.color, title_text(*e), Tone::Title) + "\n"@
                + painted(
                self.color,
                repeat_char('\u{2500}', rule_len(self.width, title_text(*e).len())),
                Tone::Rule,
            ) + "\n"@,
            !self.color && free_of(e.topic@, esc()) ==> free_of(
                title_text(*e) + "\n"@ + repeat_char('\u{2500}', rule_len(self.width, title_text(*e).len()))
                    + "\n"@,
                esc(),
            ),
    {
        let mut title = String::from_str(e.topic.as_str());
        title.append("  (");
        title.append(e.level.label());
        title.append(")");
        self.paint(out, title.as_str(), Tone::Title);
        out.append("\n");
        let count = title.as_str().unicode_len();
        let n = if count >= self.width {
            self.width
        } else if self.width - count <= 8 {
            self.width
        } else {
            count + 8
        };
        let rule = repeat_string('\u{2500}', n);
        self.paint(out, rule.as_str(), Tone::Rule);
        out.append("\n");
        proof {
            reveal_strlit("\n");
            reveal_strlit("  (");
            reveal_strlit(")");
            if !self.color && free_of(e.topic@, esc()) {
                lemma_literal_free("  ("@);
                lemma_literal_free(")"@);
                reveal_strlit("5");
                reveal_strlit("15");
                reveal_strlit("expert");
                lemma_literal_free(level_text(e.level));
                lemma_free_of_concat(e.topic@, "  ("@, esc());
                lemma_free_of_concat(e.topic@ + "  ("@, level_text(e.level), esc());
                lemma_free_of_concat(e.topic@ + "  ("@ + level_text(e.level), ")"@, esc());
                assert(free_of("\n"@, esc())) by {
                    assert("\n"@[0] == '\n');
                }
                let t = title_text(*e);
                let r = repeat_char('\u{2500}', rule_len(self.width, t.len()));
                lemma_free_of_repeat('\u{2500}', rule_len(self.width, t.len()), esc());
                lemma_free_of_concat(t, "\n"@, esc());
                lemma_free_of_concat(t + "\n"@, r, esc());
                lemma_free_of_concat(t + "\n"@ + r, "\n"@, esc());
            }
        }
    }

    fn analogy(&self, out: &mut String, e: &Explanation)
        ensures
            final(out)@ == old(out)@ + analogy_section(self.color, self.width, *e),
            !self.color && free_of(e.analogy@, esc()) ==> free_of(
                analogy_section(self.color, self.width, *e),
                esc(),
            ),
    {
        if !e.analogy.as_str().is_empty() {
            self.heading(out, "Think of it like this");
            self.body(out, e.analogy.as_str(), "  ");
            proof {
                if !self.color && free_of(e.analogy@, esc()) {
                    reveal_strlit("Think of it like this");
                    reveal_strlit("  ");
                    lemma_literal_free("Think of it like this"@);
                    lemma_literal_free("  "@);
                    lemma_heading_free("Think of it like this"@);
                    lemma_free_of_concat(
                        heading_text(false, "Think of it like this"@),
                        body_text(e.analogy@, "  "@, self.width),
                        esc(),
                    );
                }
            }
        } else {
            assert(out@ =~= old(out)@ + analogy_section(self.color, self.width, *e));
        }
    }

    fn list(&self, out: &mut String, items: &Vec<String>, title: &str, marker: &str)
        requires
            marker@.len() < 8,
        ensures
            final(out)@ == old(out)@ + list_section(self.color, self.width, texts(items@), title@, marker@),
            !self.color && free_of(title@, esc()) && free_of(marker@, esc()) && all_free_of(
                texts(items@),
                esc(),
            ) ==> free_of(list_section(self.color, self.width, texts(items@), title@, marker@), esc()),
    {
        if items.len() > 0 {
            self.heading(out, title);
            self.bullets(out, items, marker);
            proof {
                if !self.color && free_of(title@, esc()) && free_of(marker@, esc()) && all_free_of(
                    texts(items@),
                    esc(),
                ) {
                    lemma_heading_free(title@);
                    lemma_free_of_concat(
                        heading_text(false, title@),
                        bullets_text(false, self.width, texts(items@), marker@),
                        esc(),
                    );
                }
            }
        } else {
            assert(out@ =~= old(out)@ + list_section(self.color, self.width, texts(items@), title@, marker@));
        }
    }

    fn example_part(&self, out: &mut String, e: &Explanation)
        ensures
            final(out)@ == old(out)@ + example_section(self.color, self.width, *e),
            !self.color && escape_free(*e) ==> free_of(example_section(self.color, self.width, *e), esc()),
    {
        match &e.example {
            Some(ex) => self.example(out, ex),
            None => {
                assert(out@ =~= old(out)@ + example_section(self.color, self.width, *e));
            },
        }
    }

    fn sources(&self, out: &mut String, e: &Explanation)
        ensures
            final(out)@ == old(out)@ + sources_section(self.color, *e),
            !self.color && escape_free(*e) ==> free_of(sources_section(self.color, *e), esc()),
    {
        if e.citations.len() > 0 {
            self.heading(out, "Sources");
            self.citations(out, &e.citations);
            out.append("\n");
            proof {
                reveal_strlit("\n");
                if !self.color && escape_free(*e) {
                    reveal_strlit("Sources");
                    lemma_literal_free("Sources"@);
                    lemma_heading_free("Sources"@);
                    lemma_citations_free(e.citations@);
                    assert(free_of("\n"@, esc())) by {
                        assert("\n"@[0] == '\n');
                    }
                    let h = heading_text(false, "Sources"@);
                    lemma_free_of_concat(h, citation_parts(false, e.citations@), esc());
                    lemma_free_of_concat(h + citation_parts(false, e.citations@), "\n"@, esc());
                }
            }
        } else {
            assert(out@ =~= old(out)@ + sources_section(self.color, *e));
        }
    }
}

/// Renders an explanation for the terminal.
pub fn render(explanation: &Explanation, theme: &Theme) -> (r: String)
    ensures
        r@ == rendered(*explanation, *theme),
        !theme.color && escape_free(*explanation) ==> free_of(r@, esc()),
{
    let e = explanation;
    let mut out = String::new();
    theme.title(&mut out, e);
    let ghost head = out@;
    theme.body(&mut out, e.summary.as_str(), "");
    let ghost s1 = out@;
    theme.body(&mut out, e.plain.as_str(), "");
    let ghost s2 = out@;
    theme.analogy(&mut out, e);
    let ghost s3 = out@;
    proof {
        reveal_strlit("  \u{26A0}");
        reveal_strlit("  ?");
        reveal_strlit("  \u{270E}");
        reveal_strlit("");
        reveal_strlit("Where that breaks down");
        reveal_strlit("Unverified");
        reveal_strlit("The fact-check pass changed");
        assert(""@ =~= Seq::<char>::empty());
    }
    theme.list(&mut out, &e.analogy_limits, "Where that breaks down", "  \u{26A0}");
    let ghost s4 = out@;
    theme.example_part(&mut out, e);
    let ghost s5 = out@;
    theme.list(&mut out, &e.caveats, "Unverified", "  ?");
    let ghost s6 = out@;
    theme.list(&mut out, &e.corrections, "The fact-check pass changed", "  \u{270E}");
    let ghost s7 = out@;
    theme.sources(&mut out, e);
    proof {
        let c = theme.color;
        let w = theme.width;
        assert(s1 == head + body_text(e.summary@, seq![], w));
        assert(s2 == s1 + body_text(e.plain@, seq![], w));
        assert(out@ =~= rendered(*e, *theme));
        if !c && escape_free(*e) {
            lemma_literal_free("Where that breaks down"@);
            lemma_literal_free("Unverified"@);
            lemma_literal_free("The fact-check pass changed"@);
            lemma_literal_free(limits_marker());
            lemma_literal_free(caveats_marker());
            lemma_literal_free(corrections_marker());
            lemma_free_of_concat(head, body_text(e.summary@, seq![], w), esc());
            lemma_free_of_concat(s1, body_text(e.plain@, seq![], w), esc());
            lemma_free_of_concat(s2, analogy_section(c, w, *e), esc());
            lemma_free_of_concat(
                s3,
                list_section(c, w, texts(e.analogy_limits@), "Where that breaks down"@, limits_marker()),
                esc(),
            );
            lemma_free_of_concat(s4, example_section(c, w, *e), esc());
            lemma_free_of_concat(
                s5,
                list_section(c, w, texts(e.caveats@), "Unverified"@, caveats_marker()),
                esc(),
            );
            lemma_free_of_concat(
                s6,
                list_section(
                    c,
                    w,
                    texts(e.corrections@),
                    "The fact-check pass changed"@,
                    corrections_marker(),
                ),
                esc(),
            );
            lemma_free_of_concat(s7, sources_section(c, *e), esc());
        }
    }
    out
}

proof fn lemma_painted_contains(c: bool, t: Seq<char>, tone: Tone)
    ensures
        contains(painted(c, t, tone), t),
{
    if c {
        let pre = seq![esc(), '['] + tone_codes(tone) + seq!['m'];
        lemma_contains_concat(pre, t, seq![esc(), '[', '0', 'm']);
        assert(styled_text(t, tone) =~= pre + t + seq![esc(), '[', '0', 'm']);
    } else {
        lemma_contains_concat(seq![], t, seq![]);
        assert(Seq::<char>::empty() + t + Seq::<char>::empty() =~= t);
    }
}

proof fn lemma_heading_contains(c: bool, t: Seq<char>, rest: Seq<char>)
    ensures
        contains(heading_text(c, t) + rest, t),
{
    lemma_painted_contains(c, t, Tone::Heading);
    lemma_contains_grow(painted(c, t, Tone::Heading), t, "\n"@, "\n"@ + rest);
    assert(heading_text(c, t) + rest =~= "\n"@ + painted(c, t, Tone::Heading) + ("\n"@ + rest));
}

/// Where the parts of a rendering stand: a prefix, then `mid`, then a suffix.
proof fn lemma_contains_middle(pre: Seq<char>, mid: Seq<char>, post: Seq<char>, n: Seq<char>)
    requires
        contains(mid, n),
    ensures
        contains(pre + mid + post, n),
{
    lemma_contains_grow(mid, n, pre, post);
}

/// A part of a seven-part text occurs in the whole of it.
proof fn lemma_part_of_seven(
    a0: Seq<char>,
    a1: Seq<char>,
    a2: Seq<char>,
    a3: Seq<char>,
    a4: Seq<char>,
    a5: Seq<char>,
    a6: Seq<char>,
    k: int,
    n: Seq<char>,
)
    requires
        0 <= k < 7,
        contains(seq![a0, a1, a2, a3, a4, a5, a6][k], n),
    ensures
        contains(a0 + a1 + a2 + a3 + a4 + a5 + a6, n),
{
    let p = seq![a0, a1, a2, a3, a4, a5, a6];
    let whole = a0 + a1 + a2 + a3 + a4 + a5 + a6;
    if k == 0 {
        lemma_contains_middle(seq![], a0, a1 + a2 + a3 + a4 + a5 + a6, n);
        assert(whole =~= Seq::<char>::empty() + a0 + (a1 + a2 + a3 + a4 + a5 + a6));
    } else if k == 1 {
        lemma_contains_middle(a0, a1, a2 + a3 + a4 + a5 + a6, n);
        assert(whole =~= a0 + a1 + (a2 + a3 + a4 + a5 + a6));
    } else if k == 2 {
        lemma_contains_middle(a0 + a1, a2, a3 + a4 + a5 + a6, n);
        assert(whole =~= (a0 + a1) + a2 + (a3 + a4 + a5 + a6));
    } else if k == 3 {
        lemma_contains_middle(a0 + a1 + a2, a3, a4 + a5 + a6, n);
        assert(whole =~= (a0 + a1 + a2) + a3 + (a4 + a5 + a6));
    } else if k == 4 {
        lemma_contains_middle(a0 + a1 + a2 + a3, a4, a5 + a6, n);
        assert(whole =~= (a0 + a1 + a2 + a3) + a4 + (a5 + a6));
    } else if k == 5 {
        lemma_contains_middle(a0 + a1 + a2 + a3 + a4, a5, a6, n);
    } else {
        lemma_contains_middle(a0 + a1 + a2 + a3 + a4 + a5, a6, seq![], n);
        assert(whole =~= whole + Seq::<char>::empty());
    }
}

/// `n` occurs in the rendering when it occurs in section `k` of it (0 is the head).
proof fn lemma_section_in_whole(e: Explanation, theme: Theme, k: int, n: Seq<char>)
    requires
        0 <= k < 7,
        contains(render_sections(e, theme)[k], n),
    ensures
        contains(rendered(e, theme), n),
{
    let c = theme.color;
    let w = theme.width;
    lemma_part_of_seven(
        head_part(c, w, e),
        analogy_section(c, w, e),
        limits_section(c, w, e),
        example_section(c, w, e),
        caveats_section(c, w, e),
        corrections_section(c, w, e),
        sources_section(c, e),
        k,
        n,
    );
}

/// The seven parts of a rendering, in order.
pub open spec fn render_sections(e: Explanation, theme: Theme) -> Seq<Seq<char>> {
    let c = theme.color;
    let w = theme.width;
    seq![
        head_part(c, w, e),
        analogy_section(c, w, e),
        limits_section(c, w, e),
        example_section(c, w, e),
        caveats_section(c, w, e),
        corrections_section(c, w, e),
        sources_section(c, e),
    ]
}

proof fn lemma_title_shown(e: Explanation, theme: Theme)
    ensures
        contains(rendered(e, theme), e.topic@),
{
    let c = theme.color;
    let w = theme.width;
    let title = title_text(e);
    let p0 = painted(c, title, Tone::Title);
    let rest = "\n"@ + painted(c, repeat_char('\u{2500}', rule_len(w, title.len())), Tone::Rule)
        + "\n"@ + body_text(e.summary@, seq![], w) + body_text(e.plain@, seq![], w);
    assert(contains(title, e.topic@)) by {
        lemma_contains_concat(seq![], e.topic@, "  ("@ + level_text(e.level) + ")"@);
        assert(title =~= Seq::<char>::empty() + e.topic@ + ("  ("@ + level_text(e.level) + ")"@));
    }
    lemma_painted_contains(c, title, Tone::Title);
    lemma_contains_trans(p0, title, e.topic@);
    assert(head_part(c, w, e) =~= Seq::<char>::empty() + p0 + rest);
    lemma_contains_middle(seq![], p0, rest, e.topic@);
    lemma_section_in_whole(e, theme, 0, e.topic@);
}

proof fn lemma_analogy_shown(e: Explanation, theme: Theme)
    requires
        e.analogy@.len() > 0,
    ensures
        contains(rendered(e, theme), "Think of it like this"@),
{
    lemma_heading_contains(
        theme.color,
        "Think of it like this"@,
        body_text(e.analogy@, "  "@, theme.width),
    );
    lemma_section_in_whole(e, theme, 1, "Think of it like this"@);
}

proof fn lemma_list_shown(c: bool, w: usize, items: Seq<Seq<char>>, title: Seq<char>, marker: Seq<char>)
    requires
        items.len() > 0,
    ensures
        contains(list_section(c, w, items, title, marker), title),
{
    lemma_heading_contains(c, title, bullets_text(c, w, items, marker));
}

proof fn lemma_example_shown(e: Explanation, theme: Theme)
    requires
        e.example is Some,
    ensures
        contains(rendered(e, theme), "In code ("@ + e.example->0.language@ + ")"@),
{
    let c = theme.color;
    let w = theme.width;
    let x = e.example->0;
    let t = "In code ("@ + x.language@ + ")"@;
    let rest = code_parts(c, lines_of(x.code@)) + "\n"@ + (if trim(x.commentary@).len() == 0 {
        Seq::<char>::empty()
    } else {
        body_text(x.commentary@, "  "@, w)
    });
    lemma_heading_contains(c, t, rest);
    assert(example_section(c, w, e) =~= heading_text(c, t) + rest);
    lemma_section_in_whole(e, theme, 3, t);
}

proof fn lemma_sources_shown(e: Explanation, theme: Theme)
    requires
        e.citations@.len() > 0,
    ensures
        contains(rendered(e, theme), "Sources"@),
{
    let c = theme.color;
    lemma_heading_contains(c, "Sources"@, citation_parts(c, e.citations@) + "\n"@);
    assert(sources_section(c, e) =~= heading_text(c, "Sources"@) + (citation_parts(
        c,
        e.citations@,
    ) + "\n"@));
    lemma_section_in_whole(e, theme, 6, "Sources"@);
}

/// Every section that has content is shown under its heading, whatever the theme:
/// the title names the topic, and the analogy, its limits, the code example, the
/// unverified claims, the corrections and the sources each get their heading when
/// they are not empty.
pub proof fn every_filled_section_is_headed(e: Explanation, theme: Theme)
    ensures
        contains(rendered(e, theme), e.topic@),
        e.analogy@.len() > 0 ==> contains(rendered(e, theme), "Think of it like this"@),
        e.analogy_limits@.len() > 0 ==> contains(rendered(e, theme), "Where that breaks down"@),
        e.example matches Some(ex) ==> contains(
            rendered(e, theme),
            "In code ("@ + ex.language@ + ")"@,
        ),
        e.caveats@.len() > 0 ==> contains(rendered(e, theme), "Unverified"@),
        e.corrections@.len() > 0 ==> contains(rendered(e, theme), "The fact-check pass changed"@),
        e.citations@.len() > 0 ==> contains(rendered(e, theme), "Sources"@),
{
    let c = theme.color;
    let w = theme.width;
    lemma_title_shown(e, theme);
    if e.analogy@.len() > 0 {
        lemma_analogy_shown(e, theme);
    }
    if e.analogy_limits@.len() > 0 {
        lemma_list_shown(c, w, texts(e.analogy_limits@), "Where that breaks down"@, limits_marker());
        lemma_section_in_whole(e, theme, 2, "Where that breaks down"@);
    }
    if e.example is Some {
        lemma_example_shown(e, theme);
    }
    if e.caveats@.len() > 0 {
        lemma_list_shown(c, w, texts(e.caveats@), "Unverified"@, caveats_marker());
        lemma_section_in_whole(e, theme, 4, "Unverified"@);
    }
    if e.corrections@.len() > 0 {
        lemma_list_shown(
            c,
            w,
            texts(e.corrections@),
            "The fact-check pass changed"@,
            corrections_marker(),
        );
        lemma_section_in_whole(e, theme, 5, "The fact-check pass changed"@);
    }
    if e.citations@.len() > 0 {
        lemma_sources_shown(e, theme);
    }
}


proof fn lemma_bullet_parts_contains(c: bool, w: usize, items: Seq<Seq<char>>, marker: Seq<char>, i: int)
    requires
        0 <= i < items.len(),
    ensures
        contains(bullet_parts(c, w, items, marker), bullet_text(c, w, items[i], marker)),
    decreases items.len(),
{
    let front = bullet_parts(c, w, items.drop_last(), marker);
    let last = bullet_text(c, w, items.last(), marker);
    if i == items.len() - 1 {
        lemma_contains_concat(front, last, seq![]);
        assert(front + last + Seq::<char>::empty() =~= bullet_parts(c, w, items, marker));
    } else {
        lemma_bullet_parts_contains(c, w, items.drop_last(), marker, i);
        assert(items.drop_last()[i] == items[i]);
        lemma_contains_grow(front, bullet_text(c, w, items[i], marker), seq![], last);
        assert(Seq::<char>::empty() + front + last =~= bullet_parts(c, w, items, marker));
    }
}

proof fn lemma_list_item_shown(c: bool, w: usize, items: Seq<Seq<char>>, title: Seq<char>, marker: Seq<char>, i: int)
    requires
        0 <= i < items.len(),
    ensures
        contains(list_section(c, w, items, title, marker), bullet_text(c, w, items[i], marker)),
{
    lemma_bullet_parts_contains(c, w, items, marker, i);
    lemma_contains_grow(
        bullet_parts(c, w, items, marker),
        bullet_text(c, w, items[i], marker),
        heading_text(c, title),
        "\n"@,
    );
    assert(list_section(c, w, items, title, marker) =~= heading_text(c, title) + bullet_parts(
        c,
        w,
        items,
        marker,
    ) + "\n"@);
}

/// Every item of a bulleted section is shown: each analogy limit, each unverified
/// claim and each correction appears in the rendering as its own bullet, under its
/// section's marker.
pub proof fn every_list_item_is_shown(e: Explanation, theme: Theme)
    ensures
        forall|i: int|
            0 <= i < e.analogy_limits@.len() ==> contains(
                rendered(e, theme),
                #[trigger] bullet_text(theme.color, theme.width, e.analogy_limits@[i]@, limits_marker()),
            ),
        forall|i: int|
            0 <= i < e.caveats@.len() ==> contains(
                rendered(e, theme),
                #[trigger] bullet_text(theme.color, theme.width, e.caveats@[i]@, caveats_marker()),
            ),
        forall|i: int|
            0 <= i < e.corrections@.len() ==> contains(
                rendered(e, theme),
                #[trigger] bullet_text(theme.color, theme.width, e.corrections@[i]@, corrections_marker()),
            ),
{
    let c = theme.color;
    let w = theme.width;
    assert forall|i: int| 0 <= i < e.analogy_limits@.len() implies contains(
        rendered(e, theme),
        #[trigger] bullet_text(c, w, e.analogy_limits@[i]@, limits_marker()),
    ) by {
        let items = texts(e.analogy_limits@);
        assert(items[i] == e.analogy_limits@[i]@);
        lemma_list_item_shown(c, w, items, "Where that breaks down"@, limits_marker(), i);
        lemma_section_in_whole(e, theme, 2, bullet_text(c, w, items[i], limits_marker()));
    }
    assert forall|i: int| 0 <= i < e.caveats@.len() implies contains(
        rendered(e, theme),
        #[trigger] bullet_text(c, w, e.caveats@[i]@, caveats_marker()),
    ) by {
        let items = texts(e.caveats@);
        assert(items[i] == e.caveats@[i]@);
        lemma_list_item_shown(c, w, items, "Unverified"@, caveats_marker(), i);
        lemma_section_in_whole(e, theme, 4, bullet_text(c, w, items[i], caveats_marker()));
    }
    assert forall|i: int| 0 <= i < e.corrections@.len() implies contains(
        rendered(e, theme),
        #[trigger] bullet_text(c, w, e.corrections@[i]@, corrections_marker()),
    ) by {
        let items = texts(e.corrections@);
        assert(items[i] == e.corrections@[i]@);
        lemma_list_item_shown(c, w, items, "The fact-check pass changed"@, corrections_marker(), i);
        lemma_section_in_whole(e, theme, 5, bullet_text(c, w, items[i], corrections_marker()));
    }
}

} // verus!
