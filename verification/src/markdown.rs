//! Markdown laid out as styled terminal lines. The parser's events come in as
//! `MarkdownEvent` values; this module decides what each does to the lines: blank
//! lines between blocks, quote bars, list markers, fenced code frames, link targets,
//! and tables as grids or, when too narrow, as records. The lines are then wrapped to
//! the width.
use vstd::prelude::*;
use pulldown_cmark::{
    Alignment as ParserAlignment, CodeBlockKind, Event as ParserEvent,
    HeadingLevel as ParserHeadingLevel, Options, Parser, Tag, TagEnd,
};

use crate::render::{allocate, border, column_widths, grid_fits, lemma_grid_within_width, lemma_wrapped_rows_fit, ones, padding, sanitize, space_string, total, Alignment, row_bounds, wrap_starts, wrap_state};
use crate::text::{chars_of, concat, decimal, decimal_string, display_width, join, joined_with, is_white_space, line_width, push_char, texts, white_space};

verus! {

/// A foreground colour; `Unset` leaves the one underneath.
#[derive(Debug, Clone, Copy, PartialEq, Eq)]
pub enum Tint {
    Unset,
    Yellow,
    Magenta,
    Red,
    DarkGray,
}

/// The text attributes that the renderer sets.
#[derive(Debug, Clone, Copy, PartialEq, Eq)]
pub struct TextStyle {
    pub bold: bool,
    pub dim: bool,
    pub italic: bool,
    pub underlined: bool,
    pub crossed_out: bool,
    pub reversed: bool,
    pub fg: Tint,
}

/// No attribute.
pub open spec fn plain_style() -> TextStyle {
    TextStyle {
        bold: false,
        dim: false,
        italic: false,
        underlined: false,
        crossed_out: false,
        reversed: false,
        fg: Tint::Unset,
    }
}

/// Dim only: frames, bars and prefixes.
pub open spec fn dim_style() -> TextStyle {
    TextStyle { dim: true, ..plain_style() }
}

/// Bold only.
pub open spec fn bold_style() -> TextStyle {
    TextStyle { bold: true, ..plain_style() }
}

/// Italic only.
pub open spec fn italic_style() -> TextStyle {
    TextStyle { italic: true, ..plain_style() }
}

/// Underlined only.
pub open spec fn underlined_style() -> TextStyle {
    TextStyle { underlined: true, ..plain_style() }
}

/// Crossed out only.
pub open spec fn crossed_out_style() -> TextStyle {
    TextStyle { crossed_out: true, ..plain_style() }
}

/// Inline code: bold and dim.
pub open spec fn code_style() -> TextStyle {
    TextStyle { bold: true, dim: true, ..plain_style() }
}

impl TextStyle {
    /// `self` with the attributes of `other` added, and its colour if it has one.
    pub open spec fn patched(self, other: TextStyle) -> TextStyle {
        TextStyle {
            bold: self.bold || other.bold,
            dim: self.dim || other.dim,
            italic: self.italic || other.italic,
            underlined: self.underlined || other.underlined,
            crossed_out: self.crossed_out || other.crossed_out,
            reversed: self.reversed || other.reversed,
            fg: if other.fg is Unset {
                self.fg
            } else {
                other.fg
            },
        }
    }

    /// `self` with the attributes of `other` added.
    pub fn patch(self, other: TextStyle) -> (r: TextStyle)
        ensures
            r == self.patched(other),
    {
        TextStyle {
            bold: self.bold || other.bold,
            dim: self.dim || other.dim,
            italic: self.italic || other.italic,
            underlined: self.underlined || other.underlined,
            crossed_out: self.crossed_out || other.crossed_out,
            reversed: self.reversed || other.reversed,
            fg: match other.fg {
                Tint::Unset => self.fg,
                _ => other.fg,
            },
        }
    }

    /// No attribute.
    pub fn plain() -> (s: TextStyle)
        ensures
            s == plain_style(),
    {
        TextStyle {
            bold: false,
            dim: false,
            italic: false,
            underlined: false,
            crossed_out: false,
            reversed: false,
            fg: Tint::Unset,
        }
    }

    /// Dim only.
    pub fn dim() -> (s: TextStyle)
        ensures
            s == dim_style(),
    {
        TextStyle { dim: true, ..TextStyle::plain() }
    }

    /// Bold only.
    pub fn bold() -> (s: TextStyle)
        ensures
            s == bold_style(),
    {
        TextStyle { bold: true, ..TextStyle::plain() }
    }

    /// Italic only.
    pub fn italic() -> (s: TextStyle)
        ensures
            s == italic_style(),
    {
        TextStyle { italic: true, ..TextStyle::plain() }
    }

    /// Underlined only.
    pub fn underlined() -> (s: TextStyle)
        ensures
            s == underlined_style(),
    {
        TextStyle { underlined: true, ..TextStyle::plain() }
    }

    /// Crossed out only.
    pub fn crossed_out() -> (s: TextStyle)
        ensures
            s == crossed_out_style(),
    {
        TextStyle { crossed_out: true, ..TextStyle::plain() }
    }

    /// Bold and dim.
    pub fn code() -> (s: TextStyle)
        ensures
            s == code_style(),
    {
        TextStyle { bold: true, dim: true, ..TextStyle::plain() }
    }
}

/// A run of text in one style.
#[derive(Debug, Clone)]
pub struct StyledSpan {
    pub text: String,
    pub style: TextStyle,
}

/// What a span holds.
pub struct SpanView {
    pub text: Seq<char>,
    pub style: TextStyle,
}

impl View for StyledSpan {
    type V = SpanView;

    open spec fn view(&self) -> SpanView {
        SpanView { text: self.text@, style: self.style }
    }
}

/// A terminal line: spans drawn over the line's own style.
#[derive(Debug, Clone)]
pub struct StyledLine {
    pub spans: Vec<StyledSpan>,
    pub style: TextStyle,
}

/// What a line holds.
pub struct LineView {
    pub spans: Seq<SpanView>,
    pub style: TextStyle,
}

/// What each span holds.
pub open spec fn spans_view(spans: Seq<StyledSpan>) -> Seq<SpanView> {
    spans.map_values(|s: StyledSpan| s@)
}

impl View for StyledLine {
    type V = LineView;

    open spec fn view(&self) -> LineView {
        LineView { spans: spans_view(self.spans@), style: self.style }
    }
}

/// What each line holds.
pub open spec fn lines_view(lines: Seq<StyledLine>) -> Seq<LineView> {
    lines.map_values(|l: StyledLine| l@)
}

/// A span of `text` in `style`.
pub open spec fn span_of(text: Seq<char>, style: TextStyle) -> SpanView {
    SpanView { text, style }
}

/// A line of `spans` over `style`.
pub open spec fn line_of(spans: Seq<SpanView>, style: TextStyle) -> LineView {
    LineView { spans, style }
}

pub proof fn lemma_spans_push(v: Seq<StyledSpan>, s: StyledSpan)
    ensures
        spans_view(v.push(s)) == spans_view(v).push(s@),
{
    assert(spans_view(v.push(s)) =~= spans_view(v).push(s@));
}

pub proof fn lemma_lines_push(v: Seq<StyledLine>, l: StyledLine)
    ensures
        lines_view(v.push(l)) == lines_view(v).push(l@),
{
    assert(lines_view(v.push(l)) =~= lines_view(v).push(l@));
}

impl StyledSpan {
    /// A span of `text` in `style`.
    pub fn new(text: String, style: TextStyle) -> (s: StyledSpan)
        ensures
            s@ == span_of(text@, style),
    {
        StyledSpan { text, style }
    }

    /// An equal span.
    pub fn duplicate(&self) -> (s: StyledSpan)
        ensures
            s@ == self@,
    {
        StyledSpan { text: self.text.clone(), style: self.style }
    }
}

/// An equal run of spans.
pub fn duplicate_spans(spans: &Vec<StyledSpan>) -> (r: Vec<StyledSpan>)
    ensures
        spans_view(r@) == spans_view(spans@),
{
    let mut r: Vec<StyledSpan> = Vec::new();
    let mut i: usize = 0;
    while i < spans.len()
        invariant
            i <= spans.len(),
            spans_view(r@) == spans_view(spans@.take(i as int)),
        decreases spans.len() - i,
    {
        proof {
            lemma_spans_push(r@, spans@[i as int]);
            assert(spans@.take(i + 1) =~= spans@.take(i as int).push(spans@[i as int]));
        }
        r.push(spans[i].duplicate());
        proof {
            lemma_spans_push(spans@.take(i as int), spans@[i as int]);
        }
        i += 1;
    }
    proof {
        assert(spans@.take(spans.len() as int) =~= spans@);
    }
    r
}

impl StyledLine {
    /// A line with no span.
    pub fn empty(style: TextStyle) -> (l: StyledLine)
        ensures
            l@ == line_of(seq![], style),
    {
        let l = StyledLine { spans: Vec::new(), style };
        proof {
            assert(l@.spans =~= Seq::<SpanView>::empty());
        }
        l
    }

    /// An equal line.
    pub fn duplicate(&self) -> (l: StyledLine)
        ensures
            l@ == self@,
    {
        StyledLine { spans: duplicate_spans(&self.spans), style: self.style }
    }

    /// The characters of the line, span after span.
    pub fn text(&self) -> (s: String)
        ensures
            s@ == spans_text(self@.spans),
    {
        let mut s = String::new();
        let mut i: usize = 0;
        while i < self.spans.len()
            invariant
                i <= self.spans.len(),
                s@ == spans_text(spans_view(self.spans@.take(i as int))),
            decreases self.spans.len() - i,
        {
            proof {
                assert(self.spans@.take(i + 1) =~= self.spans@.take(i as int).push(
                    self.spans@[i as int],
                ));
                lemma_spans_push(self.spans@.take(i as int), self.spans@[i as int]);
                assert(spans_view(self.spans@.take(i + 1)).drop_last() =~= spans_view(
                    self.spans@.take(i as int),
                ));
            }
            s.append(self.spans[i].text.as_str());
            i += 1;
        }
        proof {
            assert(self.spans@.take(self.spans.len() as int) =~= self.spans@);
        }
        s
    }
}

/// The characters of the spans, one after another.
pub open spec fn spans_text(spans: Seq<SpanView>) -> Seq<char>
    decreases spans.len(),
{
    if spans.len() == 0 {
        seq![]
    } else {
        spans_text(spans.drop_last()) + spans.last().text
    }
}

/// The number of terminal cells that a span of `text` occupies, as ratatui measures a
/// span.
pub uninterp spec fn text_cells(text: Seq<char>) -> nat;

/// Calls `ratatui::text::Span::width` on a span of `text`. The contract only names
/// the result: it is `text_cells` of the characters of `text`.
#[verifier::external_body]
fn cells_of(text: &str) -> (w: usize)
    ensures
        w as nat == text_cells(text@),
{
    ratatui::text::Span::raw(text).width()
}

/// The cells of the spans together.
pub open spec fn spans_width(spans: Seq<SpanView>) -> int
    decreases spans.len(),
{
    if spans.len() == 0 {
        0
    } else {
        spans_width(spans.drop_last()) + text_cells(spans.last().text)
    }
}

/// The cells of the spans together, as a `usize` measures them (saturating).
pub open spec fn measured(spans: Seq<SpanView>) -> int {
    if spans_width(spans) > usize::MAX {
        usize::MAX as int
    } else {
        spans_width(spans)
    }
}

proof fn lemma_spans_width_nonneg(spans: Seq<SpanView>)
    ensures
        spans_width(spans) >= 0,
    decreases spans.len(),
{
    if spans.len() > 0 {
        lemma_spans_width_nonneg(spans.drop_last());
    }
}

/// The cells that `spans` occupy (saturating at `usize::MAX`).
pub fn width_of(spans: &Vec<StyledSpan>) -> (w: usize)
    ensures
        w as int == measured(spans_view(spans@)),
{
    let mut w: usize = 0;
    let mut i: usize = 0;
    while i < spans.len()
        invariant
            i <= spans.len(),
            w as int == measured(spans_view(spans@.take(i as int))),
        decreases spans.len() - i,
    {
        let c = cells_of(spans[i].text.as_str());
        proof {
            assert(spans@.take(i + 1) =~= spans@.take(i as int).push(spans@[i as int]));
            lemma_spans_push(spans@.take(i as int), spans@[i as int]);
            assert(spans_view(spans@.take(i + 1)).drop_last() =~= spans_view(
                spans@.take(i as int),
            ));
            lemma_spans_width_nonneg(spans_view(spans@.take(i as int)));
        }
        w = w.saturating_add(c);
        i += 1;
    }
    proof {
        assert(spans@.take(spans.len() as int) =~= spans@);
    }
    w
}

/// The symbols that ratatui draws for `text`: its extended grapheme clusters, leaving
/// out those that hold a control character.
pub uninterp spec fn drawn_graphemes(text: Seq<char>) -> Seq<Seq<char>>;

/// Calls `ratatui::text::Span::styled_graphemes` on a span of `text` and keeps each
/// grapheme's symbol. The contract only names the result: it is `drawn_graphemes` of
/// the characters of `text`.
#[verifier::external_body]
fn graphemes(text: &str) -> (g: Vec<String>)
    ensures
        texts(g@) == drawn_graphemes(text@),
{
    ratatui::text::Span::raw(text).styled_graphemes(ratatui::style::Style::default()).map(
        |g| g.symbol.to_string(),
    ).collect()
}

/// The graphemes of a span, each in the span's style drawn over `base`.
pub open spec fn span_graphemes(s: SpanView, base: TextStyle) -> Seq<SpanView> {
    drawn_graphemes(s.text).map_values(|g: Seq<char>| span_of(g, base.patched(s.style)))
}

/// The graphemes of the spans in order, each in its span's style over `base`.
pub open spec fn line_graphemes(spans: Seq<SpanView>, base: TextStyle) -> Seq<SpanView>
    decreases spans.len(),
{
    if spans.len() == 0 {
        seq![]
    } else {
        line_graphemes(spans.drop_last(), base) + span_graphemes(spans.last(), base)
    }
}

/// A width held below half of `usize::MAX`, so that two of them add up.
pub open spec fn bounded(w: int) -> usize {
    if w > usize::MAX / 2 {
        (usize::MAX / 2) as usize
    } else {
        w as usize
    }
}

/// The cells that each grapheme takes, measured as a line of its symbol.
pub open spec fn grapheme_widths(gs: Seq<SpanView>) -> Seq<usize> {
    gs.map_values(|g: SpanView| bounded(line_width(g.text) as int))
}

/// The character that a wrapped row repeats of a prefix: bars and white space stay,
/// anything else becomes a space.
pub open spec fn blanked(c: char) -> char {
    if c == '│' || is_white_space(c) {
        c
    } else {
        ' '
    }
}

/// Each character blanked.
pub open spec fn blank_all(s: Seq<char>) -> Seq<char> {
    s.map_values(|c: char| blanked(c))
}

/// What a wrapped row after the first starts with: the line's first span, if dim, with
/// all but bars and white space blanked, when it is narrower than the width.
pub open spec fn continuation_of(l: LineView, width: int) -> Option<SpanView> {
    if l.spans.len() > 0 && l.spans[0].style.dim {
        let p = span_of(blank_all(l.spans[0].text), l.spans[0].style);
        if (text_cells(p.text) as int) < width {
            Some(p)
        } else {
            None
        }
    } else {
        None
    }
}

/// The cells of the continuation prefix, if any.
pub open spec fn continuation_width(c: Option<SpanView>) -> int {
    match c {
        Some(p) => text_cells(p.text) as int,
        None => 0,
    }
}

/// Row `r` of a wrapped line: the continuation prefix after the first row, then the
/// graphemes between the row's start and the next row's. Every row but the last keeps
/// the line's style; the last keeps it only when there is no other.
pub open spec fn wrap_row(
    gs: Seq<SpanView>,
    starts: Seq<int>,
    cont: Option<SpanView>,
    style: TextStyle,
    r: int,
) -> LineView {
    line_of(
        (if r > 0 && cont is Some {
            seq![cont.unwrap()]
        } else {
            seq![]
        }) + gs.subrange(
            row_bounds(starts, gs.len() as int, r).0,
            row_bounds(starts, gs.len() as int, r).1,
        ),
        if r < starts.len() || starts.len() == 0 {
            style
        } else {
            plain_style()
        },
    )
}

/// Where the graphemes of a line too wide for `width` start new rows.
pub open spec fn wrap_points(l: LineView, width: int) -> Seq<int> {
    wrap_state(
        grapheme_widths(line_graphemes(l.spans, l.style)),
        bounded(width) as int,
        bounded(continuation_width(continuation_of(l, width))) as int,
    ).1
}

/// A line cut into rows of at most `width` cells: a line that fits stays as it is;
/// otherwise its graphemes go, in order, into rows where `wrap_state` breaks them.
pub open spec fn spec_wrap_line(l: LineView, width: int) -> Seq<LineView> {
    if measured(l.spans) <= width {
        seq![l]
    } else {
        let starts = wrap_points(l, width);
        Seq::new(
            (starts.len() + 1) as nat,
            |r: int|
                wrap_row(
                    line_graphemes(l.spans, l.style),
                    starts,
                    continuation_of(l, width),
                    l.style,
                    r,
                ),
        )
    }
}

/// The continuation prefix of `line` for rows of `width` cells, if any.
fn continuation(line: &StyledLine, width: usize) -> (c: Option<StyledSpan>)
    ensures
        match c {
            Some(p) => continuation_of(line@, width as int) == Some(p@),
            None => continuation_of(line@, width as int) is None,
        },
{
    if line.spans.len() > 0 && line.spans[0].style.dim {
        let first = &line.spans[0];
        let mut text = String::new();
        for c in it: first.text.chars()
            invariant
                text@ == blank_all(it.seq().take(it.index() as int)),
        {
            let b = if c == '│' || white_space(c) {
                c
            } else {
                ' '
            };
            proof {
                assert(blank_all(it.seq().take(it.index() + 1)) =~= blank_all(
                    it.seq().take(it.index() as int),
                ).push(b));
            }
            push_char(&mut text, b);
        }
        proof {
            assert(line@.spans[0] == first@);
            assert(text@ =~= blank_all(first.text@));
        }
        if cells_of(text.as_str()) < width {
            Some(StyledSpan { text, style: first.style })
        } else {
            None
        }
    } else {
        None
    }
}

/// The graphemes of `line`, each in its span's style over the line's.
fn line_grapheme_spans(line: &StyledLine) -> (gs: Vec<StyledSpan>)
    ensures
        spans_view(gs@) == line_graphemes(line@.spans, line.style),
{
    let mut gs: Vec<StyledSpan> = Vec::new();
    let mut i: usize = 0;
    while i < line.spans.len()
        invariant
            i <= line.spans.len(),
            spans_view(gs@) == line_graphemes(spans_view(line.spans@.take(i as int)), line.style),
        decreases line.spans.len() - i,
    {
        let span = &line.spans[i];
        let symbols = graphemes(span.text.as_str());
        let style = line.style.patch(span.style);
        let ghost before = spans_view(gs@);
        let ghost all = span_graphemes(span@, line.style);
        let mut j: usize = 0;
        while j < symbols.len()
            invariant
                j <= symbols.len(),
                texts(symbols@) == drawn_graphemes(span.text@),
                all == span_graphemes(span@, line.style),
                style == line.style.patched(span.style),
                spans_view(gs@) == before + all.take(j as int),
            decreases symbols.len() - j,
        {
            let g = StyledSpan { text: symbols[j].clone(), style };
            proof {
                lemma_spans_push(gs@, g);
                assert(texts(symbols@)[j as int] == symbols@[j as int]@);
                assert(all.take(j + 1) =~= all.take(j as int).push(g@));
                assert(before + all.take(j + 1) =~= (before + all.take(j as int)).push(g@));
            }
            gs.push(g);
            j += 1;
        }
        proof {
            assert(all.take(symbols.len() as int) =~= all);
            let prev = line.spans@.take(i as int);
            assert(line.spans@.take(i + 1) =~= prev.push(line.spans@[i as int]));
            lemma_spans_push(prev, line.spans@[i as int]);
            assert(spans_view(prev.push(line.spans@[i as int])).drop_last() =~= spans_view(prev));
        }
        i += 1;
    }
    proof {
        assert(line.spans@.take(line.spans.len() as int) =~= line.spans@);
    }
    gs
}

/// The cells of each grapheme, held below half of `usize::MAX`.
fn widths_of(gs: &Vec<StyledSpan>) -> (ws: Vec<usize>)
    ensures
        ws@ == grapheme_widths(spans_view(gs@)),
{
    let mut ws: Vec<usize> = Vec::new();
    let mut i: usize = 0;
    while i < gs.len()
        invariant
            i <= gs.len(),
            ws@ == grapheme_widths(spans_view(gs@)).take(i as int),
        decreases gs.len() - i,
    {
        let w = display_width(gs[i].text.as_str());
        let half: usize = usize::MAX / 2;
        let b = if w > half {
            half
        } else {
            w
        };
        proof {
            assert(grapheme_widths(spans_view(gs@)).take(i + 1) =~= ws@.push(b));
        }
        ws.push(b);
        i += 1;
    }
    ws
}

/// `line` cut into rows of at most `width` cells where `spec_wrap_line` says.
pub fn wrap_line(line: StyledLine, width: usize) -> (rows: Vec<StyledLine>)
    ensures
        lines_view(rows@) == spec_wrap_line(line@, width as int),
{
    if width_of(&line.spans) <= width {
        let mut rows: Vec<StyledLine> = Vec::new();
        proof {
            lemma_lines_push(rows@, line);
        }
        rows.push(line);
        proof {
            assert(lines_view(rows@) =~= seq![line@]);
        }
        return rows;
    }
    let cont = continuation(&line, width);
    let gs = line_grapheme_spans(&line);
    let ws = widths_of(&gs);
    let cw: usize = match &cont {
        Some(p) => cells_of(p.text.as_str()),
        None => 0,
    };
    let half: usize = usize::MAX / 2;
    let bw: usize = if width > half {
        half
    } else {
        width
    };
    let bcw: usize = if cw > half {
        half
    } else {
        cw
    };
    let starts = wrap_starts(&ws, bw, bcw);
    let ghost g = spans_view(gs@);
    let ghost st = wrap_points(line@, width as int);
    let ghost cv = continuation_of(line@, width as int);
    proof {
        lemma_wrapped_rows_fit(ws@, bw as int, bcw as int);
        assert(st == starts@.map_values(|k: usize| k as int));
        assert(st.len() == starts@.len());
        assert forall|j: int| 0 <= j < starts@.len() implies st[j] == starts@[j] as int by {}
    }
    let mut rows: Vec<StyledLine> = Vec::new();
    let mut current: Vec<StyledSpan> = Vec::new();
    let mut p: usize = 0;
    let mut k: usize = 0;
    while k < gs.len()
        invariant
            g == spans_view(gs@),
            g == line_graphemes(line@.spans, line.style),
            st == wrap_points(line@, width as int),
            cv == continuation_of(line@, width as int),
            match cont {
                Some(c) => cv == Some(c@),
                None => cv is None,
            },
            st.len() == starts@.len(),
            forall|j: int| 0 <= j < starts@.len() ==> st[j] == starts@[j] as int,
            forall|i: int, j: int| 0 <= i < j < st.len() ==> st[i] < st[j],
            forall|i: int| 0 <= i < st.len() ==> 0 < #[trigger] st[i] < g.len(),
            k <= gs.len(),
            p <= starts.len(),
            p < starts.len() ==> k <= st[p as int],
            p > 0 ==> st[p - 1] <= k,
            lines_view(rows@) == Seq::new(p as nat, |r: int| wrap_row(g, st, cv, line.style, r)),
            spans_view(current@) == (if p > 0 && cv is Some {
                seq![cv.unwrap()]
            } else {
                seq![]
            }) + g.subrange(row_bounds(st, g.len() as int, p as int).0, k as int),
        decreases gs.len() - k,
    {
        if p < starts.len() && starts[p] == k {
            let full = StyledLine { spans: current, style: line.style };
            proof {
                lemma_lines_push(rows@, full);
                assert(row_bounds(st, g.len() as int, p as int).1 == k);
                assert(full@ == wrap_row(g, st, cv, line.style, p as int));
                assert(Seq::new((p + 1) as nat, |r: int| wrap_row(g, st, cv, line.style, r))
                    =~= Seq::new(p as nat, |r: int| wrap_row(g, st, cv, line.style, r)).push(
                    full@,
                ));
            }
            rows.push(full);
            current = Vec::new();
            match &cont {
                Some(prefix) => {
                    let d = prefix.duplicate();
                    proof {
                        lemma_spans_push(current@, d);
                    }
                    current.push(d);
                },
                None => {},
            }
            p += 1;
            proof {
                assert(row_bounds(st, g.len() as int, p as int).0 == k);
                assert(g.subrange(k as int, k as int) =~= Seq::<SpanView>::empty());
                assert(spans_view(current@) =~= (if p > 0 && cv is Some {
                    seq![cv.unwrap()]
                } else {
                    seq![]
                }) + g.subrange(row_bounds(st, g.len() as int, p as int).0, k as int));
            }
        }
        let d = gs[k].duplicate();
        proof {
            lemma_spans_push(current@, d);
            let a = row_bounds(st, g.len() as int, p as int).0;
            assert(a <= k);
            assert(g.subrange(a, k + 1) =~= g.subrange(a, k as int).push(g[k as int]));
        }
        current.push(d);
        k += 1;
    }
    let style = if p == 0 {
        line.style
    } else {
        TextStyle::plain()
    };
    let last = StyledLine { spans: current, style };
    proof {
        assert(p == starts.len());
        lemma_lines_push(rows@, last);
        assert(row_bounds(st, g.len() as int, p as int).1 == g.len());
        assert(g.len() == k);
        assert(last@ == wrap_row(g, st, cv, line.style, p as int));
        assert(Seq::new((p + 1) as nat, |r: int| wrap_row(g, st, cv, line.style, r)) =~= Seq::new(
            p as nat,
            |r: int| wrap_row(g, st, cv, line.style, r),
        ).push(last@));
    }
    rows.push(last);
    rows
}

/// The graphemes of the first `k` rows of a wrapped line, without the continuation
/// prefix that rows after the first start with when `prefixed`.
pub open spec fn row_graphemes(rows: Seq<LineView>, prefixed: bool, k: int) -> Seq<SpanView>
    decreases k,
{
    if k <= 0 {
        seq![]
    } else {
        row_graphemes(rows, prefixed, k - 1) + (if k - 1 > 0 && prefixed {
            rows[k - 1].spans.drop_first()
        } else {
            rows[k - 1].spans
        })
    }
}

/// Wrapping a line that does not fit loses no grapheme and adds none: the rows'
/// graphemes, the continuation prefix aside, are the line's graphemes in order, each
/// in its span's style over the line's. And every row fits the width with its prefix,
/// but a row whose only grapheme that takes cells is its last one (see `row_fits`).
pub proof fn lemma_wrap_keeps_graphemes(l: LineView, width: int)
    requires
        0 <= width,
        measured(l.spans) > width,
    ensures
        row_graphemes(
            spec_wrap_line(l, width),
            continuation_of(l, width) is Some,
            spec_wrap_line(l, width).len() as int,
        ) == line_graphemes(l.spans, l.style),
        forall|r: int|
            0 <= r < spec_wrap_line(l, width).len() ==> crate::render::row_fits(
                grapheme_widths(line_graphemes(l.spans, l.style)),
                wrap_points(l, width),
                bounded(width) as int,
                bounded(continuation_width(continuation_of(l, width))) as int,
                r,
            ),
{
    let gs = line_graphemes(l.spans, l.style);
    let n = gs.len() as int;
    let st = wrap_points(l, width);
    let cont = continuation_of(l, width);
    let rows = spec_wrap_line(l, width);
    let ws = grapheme_widths(gs);
    assert(ws.len() == n);
    lemma_wrapped_rows_fit(ws, bounded(width) as int, bounded(continuation_width(cont)) as int);
    assert forall|k: int| 1 <= k <= rows.len() implies #[trigger] row_graphemes(
        rows,
        cont is Some,
        k,
    ) == gs.subrange(0, row_bounds(st, n, k - 1).1) by {
        lemma_row_graphemes_prefix(l, width, k);
    }
    assert(row_bounds(st, n, rows.len() - 1).1 == n);
    assert(gs.subrange(0, n) =~= gs);
}

/// The first `k` rows of a wrapped line hold its graphemes up to where row `k - 1`
/// ends.
proof fn lemma_row_graphemes_prefix(l: LineView, width: int, k: int)
    requires
        0 <= width,
        measured(l.spans) > width,
        1 <= k <= spec_wrap_line(l, width).len(),
    ensures
        row_graphemes(spec_wrap_line(l, width), continuation_of(l, width) is Some, k)
            == line_graphemes(l.spans, l.style).subrange(
            0,
            row_bounds(wrap_points(l, width), line_graphemes(l.spans, l.style).len() as int, k - 1).1,
        ),
    decreases k,
{
    let gs = line_graphemes(l.spans, l.style);
    let n = gs.len() as int;
    let st = wrap_points(l, width);
    let cont = continuation_of(l, width);
    let rows = spec_wrap_line(l, width);
    let ws = grapheme_widths(gs);
    assert(ws.len() == n);
    lemma_wrapped_rows_fit(ws, bounded(width) as int, bounded(continuation_width(cont)) as int);
    let r = k - 1;
    let a = row_bounds(st, n, r).0;
    let b = row_bounds(st, n, r).1;
    assert(0 <= a <= b <= n) by {
        if r > 0 && r < st.len() {
            assert(st[r - 1] < st[r]);
        }
    }
    let body = gs.subrange(a, b);
    assert(rows[r] == wrap_row(gs, st, cont, l.style, r));
    if r > 0 && cont is Some {
        assert(rows[r].spans == seq![cont.unwrap()] + body);
        assert(rows[r].spans.drop_first() =~= body);
    } else {
        assert(rows[r].spans =~= body);
    }
    if k == 1 {
        assert(row_graphemes(rows, cont is Some, 0) =~= Seq::<SpanView>::empty());
        assert(a == 0);
        assert(row_graphemes(rows, cont is Some, 1) =~= body);
    } else {
        lemma_row_graphemes_prefix(l, width, k - 1);
        assert(row_bounds(st, n, r - 1).1 == a);
        assert(gs.subrange(0, a) + gs.subrange(a, b) =~= gs.subrange(0, b));
    }
}

/// Each line wrapped to `width` cells, the rows in order.
pub open spec fn wrapped_all(lines: Seq<LineView>, width: int) -> Seq<LineView>
    decreases lines.len(),
{
    if lines.len() == 0 {
        seq![]
    } else {
        wrapped_all(lines.drop_last(), width) + spec_wrap_line(lines.last(), width)
    }
}

/// At least one cell of width.
pub open spec fn at_least_one(width: int) -> int {
    if width < 1 {
        1
    } else {
        width
    }
}

/// Each line wrapped to `width` cells (at least one), the rows in order.
pub fn wrap_lines(lines: Vec<StyledLine>, width: usize) -> (rows: Vec<StyledLine>)
    ensures
        lines_view(rows@) == wrapped_all(lines_view(lines@), at_least_one(width as int)),
{
    let w: usize = if width < 1 {
        1
    } else {
        width
    };
    let mut rows: Vec<StyledLine> = Vec::new();
    let mut i: usize = 0;
    while i < lines.len()
        invariant
            i <= lines.len(),
            w as int == at_least_one(width as int),
            lines_view(rows@) == wrapped_all(lines_view(lines@.take(i as int)), w as int),
        decreases lines.len() - i,
    {
        let mut wrapped = wrap_line(lines[i].duplicate(), w);
        let ghost before = lines_view(rows@);
        let ghost more = lines_view(wrapped@);
        rows.append(&mut wrapped);
        proof {
            assert(lines_view(rows@) =~= before + more);
            let prev = lines@.take(i as int);
            assert(lines@.take(i + 1) =~= prev.push(lines@[i as int]));
            lemma_lines_push(prev, lines@[i as int]);
            assert(lines_view(prev.push(lines@[i as int])).drop_last() =~= lines_view(prev));
        }
        i += 1;
    }
    proof {
        assert(lines@.take(lines.len() as int) =~= lines@);
    }
    rows
}

/// The pieces of `s` between newlines, as `str::split('\n')` gives them: one more
/// than there are newlines.
pub open spec fn newline_parts(s: Seq<char>) -> Seq<Seq<char>>
    decreases s.len(),
{
    if s.len() == 0 {
        seq![seq![]]
    } else {
        let p = newline_parts(s.drop_last());
        if s.last() == '\n' {
            p.push(seq![])
        } else {
            p.update(p.len() - 1, p.last().push(s.last()))
        }
    }
}

pub proof fn lemma_newline_parts_len(s: Seq<char>)
    ensures
        newline_parts(s).len() >= 1,
    decreases s.len(),
{
    if s.len() > 0 {
        lemma_newline_parts_len(s.drop_last());
    }
}

/// The pieces of `s` between newlines.
pub fn split_newlines(s: &str) -> (parts: Vec<String>)
    ensures
        texts(parts@) == newline_parts(s@),
{
    let v = chars_of(s);
    let mut parts: Vec<String> = Vec::new();
    let mut cur = String::new();
    let mut i: usize = 0;
    while i < v.len()
        invariant
            i <= v.len(),
            v@ == s@,
            texts(parts@).push(cur@) == newline_parts(v@.take(i as int)),
        decreases v.len() - i,
    {
        let c = v[i];
        let ghost done = v@.take(i as int);
        let ghost pv = texts(parts@);
        let ghost cv = cur@;
        proof {
            assert(v@.take(i + 1).drop_last() =~= done);
            assert(v@.take(i + 1).last() == c);
            lemma_newline_parts_len(done);
        }
        if c == '\n' {
            let mut finished = String::new();
            std::mem::swap(&mut finished, &mut cur);
            parts.push(finished);
            proof {
                assert(texts(parts@) =~= pv.push(cv));
                assert(texts(parts@).push(cur@) =~= newline_parts(done).push(seq![]));
            }
        } else {
            push_char(&mut cur, c);
            proof {
                assert(texts(parts@).push(cur@) =~= pv.push(cv).update(pv.len() as int, cv.push(c)));
            }
        }
        i += 1;
    }
    proof {
        assert(v@.take(v.len() as int) =~= s@);
    }
    let ghost pv = texts(parts@);
    parts.push(cur);
    proof {
        assert(texts(parts@) =~= pv.push(cur@));
    }
    parts
}

/// `unit` written `n` times.
pub open spec fn repeat_text(unit: Seq<char>, n: nat) -> Seq<char>
    decreases n,
{
    if n == 0 {
        seq![]
    } else {
        repeat_text(unit, (n - 1) as nat) + unit
    }
}

/// `unit` written `n` times.
pub fn repeated(unit: &str, n: usize) -> (s: String)
    ensures
        s@ == repeat_text(unit@, n as nat),
{
    let mut s = String::new();
    let mut i: usize = 0;
    while i < n
        invariant
            i <= n,
            s@ == repeat_text(unit@, i as nat),
        decreases n - i,
    {
        s.append(unit);
        i += 1;
    }
    s
}

/// A line of `text` over `style`, as a raw span: no span when the text is empty.
pub open spec fn styled_line(text: Seq<char>, style: TextStyle) -> LineView {
    line_of(
        if text.len() == 0 {
            seq![]
        } else {
            seq![span_of(text, plain_style())]
        },
        style,
    )
}

/// A line of `text` over `style`.
pub fn line_styled(text: String, style: TextStyle) -> (l: StyledLine)
    ensures
        l@ == styled_line(text@, style),
{
    let mut spans: Vec<StyledSpan> = Vec::new();
    if !text.as_str().is_empty() {
        let span = StyledSpan { text, style: TextStyle::plain() };
        proof {
            lemma_spans_push(spans@, span);
        }
        spans.push(span);
    }
    let l = StyledLine { spans, style };
    proof {
        assert(l@.spans =~= styled_line(text@, style).spans);
    }
    l
}

/// The plain lines of `text` before wrapping: each piece between newlines made safe.
pub open spec fn literal_lines(text: Seq<char>) -> Seq<LineView> {
    newline_parts(text).map_values(
        |p: Seq<char>| styled_line(crate::render::spec_sanitize(p, 0), plain_style()),
    )
}

/// `text` as lines of at most `width` cells (at least one): each piece between
/// newlines made safe, then wrapped.
pub fn literal(text: &str, width: usize) -> (lines: Vec<StyledLine>)
    ensures
        lines_view(lines@) == wrapped_all(literal_lines(text@), at_least_one(width as int)),
{
    let parts = split_newlines(text);
    let mut raw: Vec<StyledLine> = Vec::new();
    let mut i: usize = 0;
    while i < parts.len()
        invariant
            i <= parts.len(),
            texts(parts@) == newline_parts(text@),
            lines_view(raw@) == literal_lines(text@).take(i as int),
        decreases parts.len() - i,
    {
        let l = line_styled(sanitize(parts[i].as_str(), 0), TextStyle::plain());
        proof {
            lemma_lines_push(raw@, l);
            assert(texts(parts@)[i as int] == parts@[i as int]@);
            assert(literal_lines(text@).take(i + 1) =~= literal_lines(text@).take(i as int).push(
                l@,
            ));
        }
        raw.push(l);
        i += 1;
    }
    proof {
        assert(literal_lines(text@).take(parts.len() as int) =~= literal_lines(text@));
    }
    wrap_lines(raw, width)
}

/// What each run of spans holds.
pub open spec fn runs_view(v: Seq<Vec<StyledSpan>>) -> Seq<Seq<SpanView>> {
    v.map_values(|l: Vec<StyledSpan>| spans_view(l@))
}

pub proof fn lemma_runs_push(v: Seq<Vec<StyledSpan>>, l: Vec<StyledSpan>)
    ensures
        runs_view(v.push(l)) == runs_view(v).push(spans_view(l@)),
{
    assert(runs_view(v.push(l)) =~= runs_view(v).push(spans_view(l@)));
}

/// A table cell being filled: its finished lines and the line being written.
pub struct Cell {
    pub lines: Vec<Vec<StyledSpan>>,
    pub current: Vec<StyledSpan>,
}

/// What a cell holds.
pub struct CellView {
    pub lines: Seq<Seq<SpanView>>,
    pub current: Seq<SpanView>,
}

impl View for Cell {
    type V = CellView;

    open spec fn view(&self) -> CellView {
        CellView { lines: runs_view(self.lines@), current: spans_view(self.current@) }
    }
}

/// A cell with nothing in it.
pub open spec fn empty_cell() -> CellView {
    CellView { lines: seq![], current: seq![] }
}

/// The cell with its current line finished and a new one begun.
pub open spec fn cell_break(c: CellView) -> CellView {
    CellView { lines: c.lines.push(c.current), current: seq![] }
}

/// The cell with `part` (a piece without newlines) made safe and added in `style`,
/// unless it is empty.
pub open spec fn cell_part(c: CellView, part: Seq<char>, style: TextStyle) -> CellView {
    if part.len() == 0 {
        c
    } else {
        CellView {
            lines: c.lines,
            current: c.current.push(
                span_of(crate::render::spec_sanitize(part, measured(c.current)), style),
            ),
        }
    }
}

/// The cell with the pieces of a text added in `style`, a new line begun between
/// neighbouring pieces.
pub open spec fn cell_text(c: CellView, parts: Seq<Seq<char>>, style: TextStyle) -> CellView
    decreases parts.len(),
{
    if parts.len() == 0 {
        c
    } else {
        let before = cell_text(c, parts.drop_last(), style);
        cell_part(
            if parts.len() > 1 {
                cell_break(before)
            } else {
                before
            },
            parts.last(),
            style,
        )
    }
}

/// The lines of a finished cell: the current line counts if it holds something or is
/// the only one.
pub open spec fn cell_finish(c: CellView) -> Seq<Seq<SpanView>> {
    if c.current.len() > 0 || c.lines.len() == 0 {
        c.lines.push(c.current)
    } else {
        c.lines
    }
}

/// The widest of the runs, in cells (0 for none).
pub open spec fn widest(runs: Seq<Seq<SpanView>>) -> int
    decreases runs.len(),
{
    if runs.len() == 0 {
        0
    } else if widest(runs.drop_last()) >= measured(runs.last()) {
        widest(runs.drop_last())
    } else {
        measured(runs.last())
    }
}

/// How wide a cell wants its column: its widest line, at least one cell.
pub open spec fn cell_width(c: CellView) -> int {
    let w = widest(c.lines.push(c.current));
    if w < 1 {
        1
    } else {
        w
    }
}

proof fn lemma_widest_bounds(runs: Seq<Seq<SpanView>>)
    ensures
        0 <= widest(runs) <= usize::MAX,
    decreases runs.len(),
{
    if runs.len() > 0 {
        lemma_widest_bounds(runs.drop_last());
        lemma_spans_width_nonneg(runs.last());
    }
}

impl Cell {
    /// An empty cell.
    pub fn new() -> (c: Cell)
        ensures
            c@ == empty_cell(),
    {
        let c = Cell { lines: Vec::new(), current: Vec::new() };
        proof {
            assert(c@.lines =~= empty_cell().lines);
            assert(c@.current =~= empty_cell().current);
        }
        c
    }

    /// Finishes the current line and begins a new one.
    pub fn line_break(&mut self)
        ensures
            final(self)@ == cell_break(old(self)@),
    {
        let mut finished: Vec<StyledSpan> = Vec::new();
        std::mem::swap(&mut finished, &mut self.current);
        proof {
            lemma_runs_push(self.lines@, finished);
        }
        self.lines.push(finished);
        proof {
            assert(spans_view(self.current@) =~= Seq::<SpanView>::empty());
        }
    }

    /// Adds `part`, a piece without newlines, made safe, unless it is empty.
    fn push_part(&mut self, part: &str, style: TextStyle)
        ensures
            final(self)@ == cell_part(old(self)@, part@, style),
    {
        if !part.is_empty() {
            let column = width_of(&self.current);
            let span = StyledSpan { text: sanitize(part, column), style };
            proof {
                lemma_spans_push(self.current@, span);
            }
            self.current.push(span);
        }
    }

    /// Adds `text` in `style`; each newline in it begins a new line.
    pub fn text(&mut self, text: &str, style: TextStyle)
        ensures
            final(self)@ == cell_text(old(self)@, newline_parts(text@), style),
    {
        let parts = split_newlines(text);
        let ghost start = self@;
        let mut i: usize = 0;
        while i < parts.len()
            invariant
                i <= parts.len(),
                texts(parts@) == newline_parts(text@),
                self@ == cell_text(start, newline_parts(text@).take(i as int), style),
            decreases parts.len() - i,
        {
            proof {
                let ps = newline_parts(text@);
                assert(ps.take(i + 1).drop_last() =~= ps.take(i as int));
                assert(ps.take(i + 1).last() == parts@[i as int]@);
            }
            if i > 0 {
                self.line_break();
            }
            self.push_part(parts[i].as_str(), style);
            i += 1;
        }
        proof {
            assert(newline_parts(text@).take(parts.len() as int) =~= newline_parts(text@));
        }
    }

    /// The cell's lines.
    pub fn finish(self) -> (lines: Vec<Vec<StyledSpan>>)
        ensures
            runs_view(lines@) == cell_finish(self@),
    {
        let mut lines = self.lines;
        if self.current.len() > 0 || lines.len() == 0 {
            proof {
                lemma_runs_push(lines@, self.current);
            }
            lines.push(self.current);
        }
        lines
    }

    /// The cells of the widest line, at least one.
    pub fn width(&self) -> (w: usize)
        ensures
            w as int == cell_width(self@),
    {
        let mut w: usize = 0;
        let mut i: usize = 0;
        while i < self.lines.len()
            invariant
                i <= self.lines.len(),
                w as int == widest(runs_view(self.lines@).take(i as int)),
            decreases self.lines.len() - i,
        {
            let lw = width_of(&self.lines[i]);
            proof {
                assert(runs_view(self.lines@).take(i + 1).drop_last() =~= runs_view(
                    self.lines@,
                ).take(i as int));
            }
            if lw > w {
                w = lw;
            }
            i += 1;
        }
        let cw = width_of(&self.current);
        proof {
            assert(runs_view(self.lines@).take(self.lines.len() as int) =~= runs_view(
                self.lines@,
            ));
            assert(self@.lines.push(self@.current).drop_last() =~= self@.lines);
        }
        if cw > w {
            w = cw;
        }
        if w < 1 {
            w = 1;
        }
        w
    }
}

/// What each cell holds.
pub open spec fn cells_view(v: Seq<Cell>) -> Seq<CellView> {
    v.map_values(|c: Cell| c@)
}

/// What each row of cells holds.
pub open spec fn rows_view(v: Seq<Vec<Cell>>) -> Seq<Seq<CellView>> {
    v.map_values(|r: Vec<Cell>| cells_view(r@))
}

/// A cell, or an empty one.
pub open spec fn cell_or_empty(c: Option<CellView>) -> CellView {
    match c {
        Some(c) => c,
        None => empty_cell(),
    }
}

/// A table being filled: its columns' alignments, finished rows, the row and the cell
/// being filled.
pub struct Table {
    pub alignments: Vec<Alignment>,
    pub rows: Vec<Vec<Cell>>,
    pub row: Vec<Cell>,
    pub cell: Option<Cell>,
}

/// What a table holds.
pub struct TableView {
    pub alignments: Seq<Alignment>,
    pub rows: Seq<Seq<CellView>>,
    pub row: Seq<CellView>,
    pub cell: Option<CellView>,
}

impl View for Table {
    type V = TableView;

    open spec fn view(&self) -> TableView {
        TableView {
            alignments: self.alignments@,
            rows: rows_view(self.rows@),
            row: cells_view(self.row@),
            cell: match self.cell {
                Some(c) => Some(c@),
                None => None,
            },
        }
    }
}

impl Table {
    /// A table with columns aligned as `alignments` and no rows.
    pub fn new(alignments: Vec<Alignment>) -> (t: Table)
        ensures
            t@ == (TableView { alignments: alignments@, rows: seq![], row: seq![], cell: None }),
    {
        let t = Table { alignments, rows: Vec::new(), row: Vec::new(), cell: None };
        proof {
            assert(t@.rows =~= Seq::<Seq<CellView>>::empty());
            assert(t@.row =~= Seq::<CellView>::empty());
        }
        t
    }

    /// Begins a row.
    pub fn start_row(&mut self)
        ensures
            final(self)@ == (TableView { row: seq![], ..old(self)@ }),
    {
        self.row = Vec::new();
        proof {
            assert(cells_view(self.row@) =~= Seq::<CellView>::empty());
        }
    }

    /// Ends a row: it is kept if it has a cell.
    pub fn end_row(&mut self)
        ensures
            final(self)@ == (if old(self)@.row.len() > 0 {
                TableView { rows: old(self)@.rows.push(old(self)@.row), row: seq![], ..old(self)@ }
            } else {
                old(self)@
            }),
    {
        if self.row.len() > 0 {
            let mut finished: Vec<Cell> = Vec::new();
            std::mem::swap(&mut finished, &mut self.row);
            proof {
                assert(rows_view(self.rows@.push(finished)) =~= rows_view(self.rows@).push(
                    cells_view(finished@),
                ));
            }
            self.rows.push(finished);
            proof {
                assert(cells_view(self.row@) =~= Seq::<CellView>::empty());
            }
        }
    }

    /// Begins a cell.
    pub fn start_cell(&mut self)
        ensures
            final(self)@ == (TableView { cell: Some(empty_cell()), ..old(self)@ }),
    {
        self.cell = Some(Cell::new());
    }

    /// Ends a cell: the cell (or an empty one) joins the row.
    pub fn end_cell(&mut self)
        ensures
            final(self)@ == (TableView {
                row: old(self)@.row.push(cell_or_empty(old(self)@.cell)),
                cell: None,
                ..old(self)@
            }),
    {
        let c = match self.cell.take() {
            Some(c) => c,
            None => Cell::new(),
        };
        proof {
            assert(cells_view(self.row@.push(c)) =~= cells_view(self.row@).push(c@));
        }
        self.row.push(c);
    }

    /// Adds `text` in `style` to the cell being filled (begun if none is).
    pub fn text(&mut self, text: &str, style: TextStyle)
        ensures
            final(self)@ == (TableView {
                cell: Some(cell_text(cell_or_empty(old(self)@.cell), newline_parts(text@), style)),
                ..old(self)@
            }),
    {
        let mut c = match self.cell.take() {
            Some(c) => c,
            None => Cell::new(),
        };
        c.text(text, style);
        self.cell = Some(c);
    }

    /// Begins a new line in the cell being filled (begun if none is).
    pub fn line_break(&mut self)
        ensures
            final(self)@ == (TableView {
                cell: Some(cell_break(cell_or_empty(old(self)@.cell))),
                ..old(self)@
            }),
    {
        let mut c = match self.cell.take() {
            Some(c) => c,
            None => Cell::new(),
        };
        c.line_break();
        self.cell = Some(c);
    }
}

/// The most cells that a row has.
pub open spec fn longest_row(rows: Seq<Seq<CellView>>) -> int
    decreases rows.len(),
{
    if rows.len() == 0 {
        0
    } else if longest_row(rows.drop_last()) >= rows.last().len() {
        longest_row(rows.drop_last())
    } else {
        rows.last().len() as int
    }
}

/// The table's columns: as many as it has alignments or its longest row has cells.
pub open spec fn column_count(t: TableView) -> int {
    if t.alignments.len() >= longest_row(t.rows) {
        t.alignments.len() as int
    } else {
        longest_row(t.rows)
    }
}

proof fn lemma_longest_row(rows: Seq<Seq<CellView>>)
    ensures
        longest_row(rows) >= 0,
        forall|i: int| 0 <= i < rows.len() ==> #[trigger] rows[i].len() <= longest_row(rows),
    decreases rows.len(),
{
    if rows.len() > 0 {
        lemma_longest_row(rows.drop_last());
        assert forall|i: int| 0 <= i < rows.len() implies #[trigger] rows[i].len() <= longest_row(
            rows,
        ) by {
            if i < rows.len() - 1 {
                assert(rows.drop_last()[i] == rows[i]);
            }
        }
    }
}

/// How wide column `j` wants to be: its widest cell, at least one cell.
pub open spec fn natural_width(rows: Seq<Seq<CellView>>, j: int) -> int
    decreases rows.len(),
{
    if rows.len() == 0 {
        1
    } else if j < rows.last().len() && cell_width(rows.last()[j]) > natural_width(
        rows.drop_last(),
        j,
    ) {
        cell_width(rows.last()[j])
    } else {
        natural_width(rows.drop_last(), j)
    }
}

proof fn lemma_natural_width_bounds(rows: Seq<Seq<CellView>>, j: int)
    ensures
        1 <= natural_width(rows, j) <= usize::MAX,
    decreases rows.len(),
{
    if rows.len() > 0 {
        lemma_natural_width_bounds(rows.drop_last(), j);
        let c = rows.last()[j];
        lemma_widest_bounds(c.lines.push(c.current));
    }
}

/// The natural widths of the first `n` columns.
pub open spec fn natural_widths(rows: Seq<Seq<CellView>>, n: nat) -> Seq<usize> {
    Seq::new(n, |j: int| natural_width(rows, j) as usize)
}

/// The widths that the columns get in a grid `width` cells wide.
pub open spec fn table_widths(t: TableView, width: usize) -> Seq<usize> {
    let n = column_count(t);
    let available = width - crate::render::overhead(n as usize);
    allocate(
        natural_widths(t.rows, n as nat),
        ones(n as nat),
        (if available > n {
            available - n
        } else {
            0
        }) as nat,
    )
}

/// A table laid out as a grid fits its width: each column is at least one cell wide
/// and no wider than its widest cell, and the columns with the borders and padding take
/// at most `width` cells.
pub proof fn lemma_grid_fits_width(t: TableView, width: usize)
    requires
        column_count(t) > 0,
        width >= crate::render::overhead(column_count(t) as usize) + column_count(t),
    ensures
        table_widths(t, width).len() == column_count(t),
        forall|j: int|
            0 <= j < column_count(t) ==> 1 <= #[trigger] table_widths(t, width)[j] <= natural_width(
                t.rows,
                j,
            ),
        crate::render::overhead(column_count(t) as usize) + total(table_widths(t, width)) <= width,
{
    let n = column_count(t);
    let natural = natural_widths(t.rows, n as nat);
    assert forall|j: int| 0 <= j < natural.len() implies natural[j] >= 1 by {
        lemma_natural_width_bounds(t.rows, j);
    }
    assert forall|j: int| 0 <= j < natural.len() implies natural[j] == natural_width(t.rows, j) by {
        lemma_natural_width_bounds(t.rows, j);
    }
    let available = (width - crate::render::overhead(n as usize)) as usize;
    lemma_grid_within_width(natural, available);
}

impl Table {
    /// The table's columns.
    fn column_count_of(&self) -> (n: usize)
        ensures
            n as int == column_count(self@),
    {
        let mut longest: usize = 0;
        let mut i: usize = 0;
        while i < self.rows.len()
            invariant
                i <= self.rows.len(),
                longest as int == longest_row(rows_view(self.rows@).take(i as int)),
            decreases self.rows.len() - i,
        {
            proof {
                assert(rows_view(self.rows@).take(i + 1).drop_last() =~= rows_view(
                    self.rows@,
                ).take(i as int));
            }
            if self.rows[i].len() > longest {
                longest = self.rows[i].len();
            }
            i += 1;
        }
        proof {
            assert(rows_view(self.rows@).take(self.rows.len() as int) =~= rows_view(self.rows@));
        }
        if self.alignments.len() >= longest {
            self.alignments.len()
        } else {
            longest
        }
    }

    /// The natural widths of the `n` columns.
    fn natural_widths_of(&self, n: usize) -> (natural: Vec<usize>)
        requires
            n as int == column_count(self@),
        ensures
            natural@ == natural_widths(self@.rows, n as nat),
    {
        let ghost rows = self@.rows;
        let mut natural: Vec<usize> = Vec::new();
        let mut j: usize = 0;
        while j < n
            invariant
                j <= n,
                natural@.len() == j,
                forall|k: int| 0 <= k < j ==> natural@[k] == 1,
            decreases n - j,
        {
            natural.push(1);
            j += 1;
        }
        proof {
            lemma_longest_row(rows);
        }
        let mut r: usize = 0;
        while r < self.rows.len()
            invariant
                rows == self@.rows,
                n as int == column_count(self@),
                forall|i: int| 0 <= i < rows.len() ==> #[trigger] rows[i].len() <= longest_row(rows),
                r <= self.rows.len(),
                natural@.len() == n,
                forall|k: int| 0 <= k < n ==> natural@[k] == natural_width(rows.take(r as int), k),
            decreases self.rows.len() - r,
        {
            let row = &self.rows[r];
            let ghost before = natural@;
            proof {
                assert(rows.take(r + 1).drop_last() =~= rows.take(r as int));
                assert(rows.take(r + 1).last() == rows[r as int]);
                assert(rows[r as int] == cells_view(row@));
                assert(rows[r as int].len() <= longest_row(rows));
            }
            let mut idx: usize = 0;
            while idx < row.len()
                invariant
                    rows == self@.rows,
                    row == &self.rows@[r as int],
                    rows[r as int] == cells_view(row@),
                    row.len() <= n,
                    r < rows.len(),
                    idx <= row.len(),
                    natural@.len() == n,
                    forall|k: int|
                        0 <= k < n ==> natural@[k] == (if k < idx {
                            natural_width(rows.take(r + 1), k)
                        } else {
                            natural_width(rows.take(r as int), k)
                        }),
                decreases row.len() - idx,
            {
                let w = row[idx].width();
                proof {
                    assert(rows.take(r + 1).drop_last() =~= rows.take(r as int));
                    assert(rows.take(r + 1).last()[idx as int] == row@[idx as int]@);
                }
                if w > natural[idx] {
                    natural.set(idx, w);
                }
                idx += 1;
            }
            proof {
                assert forall|k: int| 0 <= k < n implies natural@[k] == natural_width(
                    rows.take(r + 1),
                    k,
                ) by {
                    assert(rows.take(r + 1).drop_last() =~= rows.take(r as int));
                }
            }
            r += 1;
        }
        proof {
            assert(rows.take(self.rows.len() as int) =~= rows);
            assert(natural@ =~= natural_widths(rows, n as nat));
        }
        natural
    }
}

/// Appends `s` to `v`.
pub(crate) fn push_span(v: &mut Vec<StyledSpan>, s: StyledSpan)
    ensures
        spans_view(final(v)@) == spans_view(old(v)@).push(s@),
{
    proof {
        lemma_spans_push(v@, s);
    }
    v.push(s);
}

/// Appends copies of `more` to `v`.
pub(crate) fn push_spans(v: &mut Vec<StyledSpan>, more: &Vec<StyledSpan>)
    ensures
        spans_view(final(v)@) == spans_view(old(v)@) + spans_view(more@),
{
    let mut copy = duplicate_spans(more);
    let ghost a = spans_view(v@);
    v.append(&mut copy);
    proof {
        assert(spans_view(v@) =~= a + spans_view(more@));
    }
}

/// Appends `l` to `v`.
pub(crate) fn push_line(v: &mut Vec<StyledLine>, l: StyledLine)
    ensures
        lines_view(final(v)@) == lines_view(old(v)@).push(l@),
{
    proof {
        lemma_lines_push(v@, l);
    }
    v.push(l);
}

/// Appends the lines of `more` to `v`.
pub(crate) fn push_lines(v: &mut Vec<StyledLine>, more: Vec<StyledLine>)
    ensures
        lines_view(final(v)@) == lines_view(old(v)@) + lines_view(more@),
{
    let mut more = more;
    let ghost a = lines_view(v@);
    let ghost b = lines_view(more@);
    v.append(&mut more);
    proof {
        assert(lines_view(v@) =~= a + b);
    }
}

/// `n` spaces, unstyled.
pub open spec fn blank(n: int) -> SpanView {
    span_of(crate::render::spaces(n as nat), plain_style())
}

/// A dim column bar.
pub open spec fn bar() -> SpanView {
    span_of(seq!['│'], dim_style())
}

/// `n` spaces, unstyled.
pub(crate) fn blank_span(n: usize) -> (s: StyledSpan)
    ensures
        s@ == blank(n as int),
{
    StyledSpan { text: space_string(n), style: TextStyle::plain() }
}

/// A dim column bar.
pub(crate) fn bar_span() -> (s: StyledSpan)
    ensures
        s@ == bar(),
{
    let mut text = String::new();
    push_char(&mut text, '│');
    proof {
        assert(text@ =~= seq!['│']);
    }
    StyledSpan { text, style: TextStyle::dim() }
}

impl Cell {
    /// An equal cell.
    pub fn duplicate(&self) -> (c: Cell)
        ensures
            c@ == self@,
    {
        let mut lines: Vec<Vec<StyledSpan>> = Vec::new();
        let mut i: usize = 0;
        while i < self.lines.len()
            invariant
                i <= self.lines.len(),
                runs_view(lines@) == runs_view(self.lines@).take(i as int),
            decreases self.lines.len() - i,
        {
            let l = duplicate_spans(&self.lines[i]);
            proof {
                lemma_runs_push(lines@, l);
                assert(runs_view(self.lines@).take(i + 1) =~= runs_view(self.lines@).take(
                    i as int,
                ).push(spans_view(l@)));
            }
            lines.push(l);
            i += 1;
        }
        proof {
            assert(runs_view(self.lines@).take(self.lines.len() as int) =~= runs_view(
                self.lines@,
            ));
        }
        Cell { lines, current: duplicate_spans(&self.current) }
    }
}

/// A table border line: dim.
pub open spec fn border_line(left: char, middle: char, right: char, widths: Seq<usize>) -> LineView {
    styled_line(crate::render::spec_border(left, middle, right, widths), dim_style())
}

/// The style of a table row's cells: bold for the header.
pub open spec fn row_style(header: bool) -> TextStyle {
    if header {
        bold_style()
    } else {
        plain_style()
    }
}

/// The lines of a finished cell in `style`, each wrapped to `width`.
pub open spec fn cell_rows(c: CellView, style: TextStyle, width: int) -> Seq<LineView> {
    wrapped_all(cell_finish(c).map_values(|l: Seq<SpanView>| line_of(l, style)), width)
}

/// Each cell of a row as its lines, wrapped to its column's width.
pub open spec fn row_cells(row: Seq<CellView>, widths: Seq<usize>, header: bool) -> Seq<
    Seq<LineView>,
> {
    Seq::new(row.len(), |j: int| cell_rows(row[j], row_style(header), widths[j] as int))
}

/// The most lines that a cell has (0 for none).
pub open spec fn most_lines(cells: Seq<Seq<LineView>>) -> int
    decreases cells.len(),
{
    if cells.len() == 0 {
        0
    } else if most_lines(cells.drop_last()) >= cells.last().len() {
        most_lines(cells.drop_last())
    } else {
        cells.last().len() as int
    }
}

/// How many lines a row of the grid takes: as many as its tallest cell.
pub open spec fn row_height(cells: Seq<Seq<LineView>>) -> int {
    if cells.len() == 0 {
        1
    } else {
        most_lines(cells)
    }
}

/// The alignment of column `j`; a column without one aligns left.
pub open spec fn column_alignment(alignments: Seq<Alignment>, j: int) -> Alignment {
    if j < alignments.len() {
        alignments[j]
    } else {
        Alignment::Unspecified
    }
}

/// Column `j` of line `li` of a grid row: a space, the cell's line padded to the
/// column's width as the column aligns (or blank), a space and a bar.
pub open spec fn grid_piece(
    cells: Seq<Seq<LineView>>,
    widths: Seq<usize>,
    alignments: Seq<Alignment>,
    li: int,
    j: int,
) -> Seq<SpanView> {
    seq![blank(1)] + (if j < cells.len() && li < cells[j].len() {
        let cl = cells[j][li];
        let m = measured(cl.spans);
        let remaining = if widths[j] >= m {
            widths[j] - m
        } else {
            0
        };
        let pad = crate::render::spec_padding(column_alignment(alignments, j), remaining as usize);
        seq![blank(pad.0 as int)] + cl.spans + seq![blank(pad.1 as int)]
    } else {
        seq![blank(widths[j] as int)]
    }) + seq![blank(1), bar()]
}

/// The first `k` columns of line `li` of a grid row.
pub open spec fn grid_pieces(
    cells: Seq<Seq<LineView>>,
    widths: Seq<usize>,
    alignments: Seq<Alignment>,
    li: int,
    k: int,
) -> Seq<SpanView>
    decreases k,
{
    if k <= 0 {
        seq![]
    } else {
        grid_pieces(cells, widths, alignments, li, k - 1) + grid_piece(
            cells,
            widths,
            alignments,
            li,
            k - 1,
        )
    }
}

/// Line `li` of a grid row: a bar, then every column.
pub open spec fn grid_line(
    cells: Seq<Seq<LineView>>,
    widths: Seq<usize>,
    alignments: Seq<Alignment>,
    li: int,
) -> LineView {
    line_of(seq![bar()] + grid_pieces(cells, widths, alignments, li, widths.len() as int), plain_style())
}

/// The lines of a grid row.
pub open spec fn row_lines(
    row: Seq<CellView>,
    widths: Seq<usize>,
    alignments: Seq<Alignment>,
    header: bool,
) -> Seq<LineView> {
    let cells = row_cells(row, widths, header);
    Seq::new(row_height(cells) as nat, |li: int| grid_line(cells, widths, alignments, li))
}

/// The lines of the first `k` rows of a grid; a rule follows the header when more
/// rows come.
pub open spec fn grid_body(
    rows: Seq<Seq<CellView>>,
    widths: Seq<usize>,
    alignments: Seq<Alignment>,
    k: int,
) -> Seq<LineView>
    decreases k,
{
    if k <= 0 {
        seq![]
    } else {
        grid_body(rows, widths, alignments, k - 1) + row_lines(rows[k - 1], widths, alignments, k == 1)
            + (if k == 1 && rows.len() > 1 {
            seq![border_line('├', '┼', '┤', widths)]
        } else {
            seq![]
        })
    }
}

/// A table drawn as a grid with columns `widths`.
pub open spec fn grid_lines(rows: Seq<Seq<CellView>>, widths: Seq<usize>, alignments: Seq<Alignment>) -> Seq<
    LineView,
> {
    seq![border_line('┌', '┬', '┐', widths)] + grid_body(rows, widths, alignments, rows.len() as int)
        + seq![border_line('└', '┴', '┘', widths)]
}

/// What each list of lines holds.
pub open spec fn grid_view(v: Seq<Vec<StyledLine>>) -> Seq<Seq<LineView>> {
    v.map_values(|ls: Vec<StyledLine>| lines_view(ls@))
}

/// The lines of a finished cell in the row's style, each wrapped to `width`.
fn cell_rows_of(c: &Cell, header: bool, width: usize) -> (ls: Vec<StyledLine>)
    requires
        width >= 1,
    ensures
        lines_view(ls@) == cell_rows(c@, row_style(header), width as int),
{
    let style = if header {
        TextStyle::bold()
    } else {
        TextStyle::plain()
    };
    let finished = c.duplicate().finish();
    let ghost fin = cell_finish(c@);
    let ghost target = fin.map_values(|l: Seq<SpanView>| line_of(l, row_style(header)));
    let mut raw: Vec<StyledLine> = Vec::new();
    let mut i: usize = 0;
    while i < finished.len()
        invariant
            i <= finished.len(),
            runs_view(finished@) == fin,
            target == fin.map_values(|l: Seq<SpanView>| line_of(l, row_style(header))),
            style == row_style(header),
            lines_view(raw@) == target.take(i as int),
        decreases finished.len() - i,
    {
        let l = StyledLine { spans: duplicate_spans(&finished[i]), style };
        proof {
            assert(target.take(i + 1) =~= target.take(i as int).push(l@));
        }
        push_line(&mut raw, l);
        i += 1;
    }
    proof {
        assert(target.take(finished.len() as int) =~= target);
    }
    wrap_lines(raw, width)
}

/// Line `li` of a grid row whose cells are `cells`.
fn grid_line_of(
    cells: &Vec<Vec<StyledLine>>,
    widths: &Vec<usize>,
    alignments: &Vec<Alignment>,
    li: usize,
) -> (l: StyledLine)
    ensures
        l@ == grid_line(grid_view(cells@), widths@, alignments@, li as int),
{
    let ghost g = grid_view(cells@);
    let mut spans: Vec<StyledSpan> = Vec::new();
    push_span(&mut spans, bar_span());
    let mut j: usize = 0;
    while j < widths.len()
        invariant
            j <= widths.len(),
            g == grid_view(cells@),
            spans_view(spans@) == seq![bar()] + grid_pieces(g, widths@, alignments@, li as int, j as int),
        decreases widths.len() - j,
    {
        let ghost before = spans_view(spans@);
        push_span(&mut spans, blank_span(1));
        if j < cells.len() && li < cells[j].len() {
            let cl = &cells[j][li];
            let m = width_of(&cl.spans);
            let remaining = widths[j].saturating_sub(m);
            let align = if j < alignments.len() {
                alignments[j]
            } else {
                Alignment::Unspecified
            };
            let pad = padding(align, remaining);
            push_span(&mut spans, blank_span(pad.0));
            push_spans(&mut spans, &cl.spans);
            push_span(&mut spans, blank_span(pad.1));
            proof {
                assert(g[j as int][li as int] == cl@);
                assert(column_alignment(alignments@, j as int) == align);
            }
        } else {
            push_span(&mut spans, blank_span(widths[j]));
        }
        push_span(&mut spans, blank_span(1));
        push_span(&mut spans, bar_span());
        proof {
            assert(spans_view(spans@) =~= before + grid_piece(
                g,
                widths@,
                alignments@,
                li as int,
                j as int,
            ));
        }
        j += 1;
    }
    StyledLine { spans, style: TextStyle::plain() }
}

/// The lines of a grid row.
fn row_lines_of(row: &Vec<Cell>, widths: &Vec<usize>, alignments: &Vec<Alignment>, header: bool) -> (lines:
    Vec<StyledLine>)
    requires
        row@.len() <= widths@.len(),
        forall|j: int| 0 <= j < widths@.len() ==> widths@[j] >= 1,
    ensures
        lines_view(lines@) == row_lines(cells_view(row@), widths@, alignments@, header),
{
    let ghost target = row_cells(cells_view(row@), widths@, header);
    let mut cells: Vec<Vec<StyledLine>> = Vec::new();
    let mut j: usize = 0;
    while j < row.len()
        invariant
            j <= row.len(),
            row@.len() <= widths@.len(),
            forall|k: int| 0 <= k < widths@.len() ==> widths@[k] >= 1,
            target == row_cells(cells_view(row@), widths@, header),
            grid_view(cells@) == target.take(j as int),
        decreases row.len() - j,
    {
        let c = cell_rows_of(&row[j], header, widths[j]);
        proof {
            assert(grid_view(cells@.push(c)) =~= grid_view(cells@).push(lines_view(c@)));
            assert(target.take(j + 1) =~= target.take(j as int).push(lines_view(c@)));
        }
        cells.push(c);
        j += 1;
    }
    proof {
        assert(target.take(row.len() as int) =~= target);
    }
    let mut height: usize = 0;
    let mut k: usize = 0;
    while k < cells.len()
        invariant
            k <= cells.len(),
            grid_view(cells@) == target,
            height as int == most_lines(target.take(k as int)),
        decreases cells.len() - k,
    {
        proof {
            assert(target.take(k + 1).drop_last() =~= target.take(k as int));
            assert(target.take(k + 1).last() == lines_view(cells@[k as int]@));
        }
        if cells[k].len() > height {
            height = cells[k].len();
        }
        k += 1;
    }
    proof {
        assert(target.take(cells.len() as int) =~= target);
    }
    if cells.len() == 0 {
        height = 1;
    }
    let ghost want = row_lines(cells_view(row@), widths@, alignments@, header);
    let mut lines: Vec<StyledLine> = Vec::new();
    let mut li: usize = 0;
    while li < height
        invariant
            li <= height,
            grid_view(cells@) == target,
            target == row_cells(cells_view(row@), widths@, header),
            height as int == row_height(target),
            want == row_lines(cells_view(row@), widths@, alignments@, header),
            lines_view(lines@) == want.take(li as int),
        decreases height - li,
    {
        let l = grid_line_of(&cells, widths, alignments, li);
        proof {
            assert(want.len() == height);
            assert(want[li as int] == grid_line(target, widths@, alignments@, li as int));
            assert(want.take(li + 1) =~= want.take(li as int).push(l@));
        }
        push_line(&mut lines, l);
        li += 1;
    }
    proof {
        assert(want.take(height as int) =~= want);
    }
    lines
}

/// The text of the spans, one after another.
pub fn spans_string(spans: &Vec<StyledSpan>) -> (s: String)
    ensures
        s@ == spans_text(spans_view(spans@)),
{
    let mut s = String::new();
    let mut i: usize = 0;
    while i < spans.len()
        invariant
            i <= spans.len(),
            s@ == spans_text(spans_view(spans@.take(i as int))),
        decreases spans.len() - i,
    {
        proof {
            assert(spans@.take(i + 1) =~= spans@.take(i as int).push(spans@[i as int]));
            lemma_spans_push(spans@.take(i as int), spans@[i as int]);
            assert(spans_view(spans@.take(i + 1)).drop_last() =~= spans_view(spans@.take(i as int)));
        }
        s.append(spans[i].text.as_str());
        i += 1;
    }
    proof {
        assert(spans@.take(spans.len() as int) =~= spans@);
    }
    s
}

/// The text of each run.
pub open spec fn run_texts(runs: Seq<Seq<SpanView>>) -> Seq<Seq<char>> {
    runs.map_values(|l: Seq<SpanView>| spans_text(l))
}

/// A header cell as a record label: its lines' text joined with spaces.
pub open spec fn header_text(c: CellView) -> Seq<char> {
    joined_with(run_texts(cell_finish(c)), seq![' '])
}

/// The label of field `j` of a record: the column's header, or `Column` and the
/// column's number when the header is missing or empty.
pub open spec fn column_label(headers: Seq<Seq<char>>, j: int) -> Seq<char> {
    if j < headers.len() && headers[j].len() > 0 {
        headers[j]
    } else {
        "Column "@ + decimal((j + 1) as nat)
    }
}

/// The runs one after another.
pub open spec fn flatten_runs(runs: Seq<Seq<SpanView>>) -> Seq<SpanView>
    decreases runs.len(),
{
    if runs.len() == 0 {
        seq![]
    } else {
        flatten_runs(runs.drop_last()) + runs.last()
    }
}

/// A field of a record before wrapping: the label and `: `, then the cell's lines run
/// together, all over bold.
pub open spec fn record_line(label: Seq<char>, c: CellView) -> LineView {
    line_of(
        seq![span_of(label + seq![':', ' '], plain_style())] + flatten_runs(cell_finish(c)),
        bold_style(),
    )
}

/// The first `k` fields of a record, each wrapped to `width`.
pub open spec fn record_fields(row: Seq<CellView>, headers: Seq<Seq<char>>, width: int, k: int) -> Seq<
    LineView,
>
    decreases k,
{
    if k <= 0 {
        seq![]
    } else {
        record_fields(row, headers, width, k - 1) + spec_wrap_line(
            record_line(column_label(headers, k - 1), row[k - 1]),
            width,
        )
    }
}

/// The first `k` records, an empty line between neighbours.
pub open spec fn record_rows(rows: Seq<Seq<CellView>>, headers: Seq<Seq<char>>, width: int, k: int) -> Seq<
    LineView,
>
    decreases k,
{
    if k <= 0 {
        seq![]
    } else {
        record_rows(rows, headers, width, k - 1) + (if k > 1 {
            seq![line_of(seq![], plain_style())]
        } else {
            seq![]
        }) + record_fields(rows[k - 1], headers, width, rows[k - 1].len() as int)
    }
}

/// A table too narrow for a grid: every row after the header as a record of fields
/// labelled by the header's cells.
pub open spec fn records(rows: Seq<Seq<CellView>>, width: int) -> Seq<LineView> {
    if rows.len() == 0 {
        seq![]
    } else {
        record_rows(
            rows.drop_first(),
            rows[0].map_values(|c: CellView| header_text(c)),
            at_least_one(width),
            rows.len() - 1,
        )
    }
}

/// A table laid out in `width` cells: nothing without columns, records when a grid of
/// one-cell columns does not fit, else a grid with columns as wide as `table_widths`.
pub open spec fn spec_table_lines(t: TableView, width: usize) -> Seq<LineView> {
    let n = column_count(t);
    if n == 0 {
        seq![]
    } else if !(width >= crate::render::overhead(n as usize) + n) {
        records(t.rows, width as int)
    } else {
        grid_lines(t.rows, table_widths(t, width), t.alignments)
    }
}

/// The label of each header cell.
fn header_texts(row: &Vec<Cell>) -> (h: Vec<String>)
    ensures
        texts(h@) == cells_view(row@).map_values(|c: CellView| header_text(c)),
{
    let ghost want = cells_view(row@).map_values(|c: CellView| header_text(c));
    let mut h: Vec<String> = Vec::new();
    let mut j: usize = 0;
    while j < row.len()
        invariant
            j <= row.len(),
            want == cells_view(row@).map_values(|c: CellView| header_text(c)),
            texts(h@) == want.take(j as int),
        decreases row.len() - j,
    {
        let fin = row[j].duplicate().finish();
        let ghost runs = runs_view(fin@);
        let mut parts: Vec<String> = Vec::new();
        let mut i: usize = 0;
        while i < fin.len()
            invariant
                i <= fin.len(),
                runs == runs_view(fin@),
                texts(parts@) == run_texts(runs).take(i as int),
            decreases fin.len() - i,
        {
            let t = spans_string(&fin[i]);
            proof {
                assert(runs[i as int] == spans_view(fin@[i as int]@));
                assert(run_texts(runs)[i as int] == spans_text(runs[i as int]));
                assert(texts(parts@.push(t)) =~= texts(parts@).push(t@));
                assert(texts(parts@).push(t@) =~= run_texts(runs).take(i + 1));
            }
            parts.push(t);
            i += 1;
        }
        proof {
            assert(run_texts(runs).take(fin.len() as int) =~= run_texts(runs));
        }
        let mut sep = String::new();
        push_char(&mut sep, ' ');
        proof {
            assert(sep@ =~= seq![' ']);
        }
        let text = join(&parts, sep.as_str());
        proof {
            assert(want[j as int] == header_text(row@[j as int]@));
            assert(text@ == want[j as int]);
            assert(texts(h@.push(text)) =~= texts(h@).push(text@));
            assert(texts(h@).push(text@) =~= want.take(j + 1));
        }
        h.push(text);
        j += 1;
    }
    proof {
        assert(want.take(row.len() as int) =~= want);
    }
    h
}

/// The label of field `j`.
fn column_label_of(headers: &Vec<String>, j: usize) -> (s: String)
    requires
        j < usize::MAX,
    ensures
        s@ == column_label(texts(headers@), j as int),
{
    if j < headers.len() && !headers[j].as_str().is_empty() {
        headers[j].clone()
    } else {
        let number = decimal_string(j as u64 + 1);
        concat("Column ", number.as_str())
    }
}

/// A field of a record before wrapping.
fn record_line_of(label: String, c: &Cell) -> (l: StyledLine)
    ensures
        l@ == record_line(label@, c@),
{
    let mut text = label;
    push_char(&mut text, ':');
    push_char(&mut text, ' ');
    proof {
        assert(text@ =~= label@ + seq![':', ' ']);
    }
    let mut spans: Vec<StyledSpan> = Vec::new();
    push_span(&mut spans, StyledSpan { text, style: TextStyle::plain() });
    let fin = c.duplicate().finish();
    let ghost runs = runs_view(fin@);
    proof {
        assert(runs.take(0) =~= Seq::<Seq<SpanView>>::empty());
        assert(spans_view(spans@) =~= seq![span_of(label@ + seq![':', ' '], plain_style())]
            + flatten_runs(runs.take(0)));
    }
    let mut i: usize = 0;
    while i < fin.len()
        invariant
            i <= fin.len(),
            runs == runs_view(fin@),
            spans_view(spans@) == seq![span_of(label@ + seq![':', ' '], plain_style())]
                + flatten_runs(runs.take(i as int)),
        decreases fin.len() - i,
    {
        push_spans(&mut spans, &fin[i]);
        proof {
            assert(runs.take(i + 1).drop_last() =~= runs.take(i as int));
        }
        i += 1;
    }
    proof {
        assert(runs.take(fin.len() as int) =~= runs);
    }
    StyledLine { spans, style: TextStyle::bold() }
}

impl Table {
    /// The table as records.
    fn records_of(&self, width: usize) -> (lines: Vec<StyledLine>)
        ensures
            lines_view(lines@) == records(self@.rows, width as int),
    {
        let mut lines: Vec<StyledLine> = Vec::new();
        if self.rows.len() == 0 {
            return lines;
        }
        let ghost rows = self@.rows;
        let ghost rest = rows.drop_first();
        let headers = header_texts(&self.rows[0]);
        let ghost hs = texts(headers@);
        let w: usize = if width < 1 {
            1
        } else {
            width
        };
        let mut k: usize = 1;
        while k < self.rows.len()
            invariant
                1 <= k <= self.rows.len(),
                rows == self@.rows,
                rest == rows.drop_first(),
                hs == texts(headers@),
                hs == rows[0].map_values(|c: CellView| header_text(c)),
                w as int == at_least_one(width as int),
                lines_view(lines@) == record_rows(rest, hs, w as int, k - 1),
            decreases self.rows.len() - k,
        {
            let ghost before = lines_view(lines@);
            if k > 1 {
                push_line(&mut lines, StyledLine::empty(TextStyle::plain()));
            }
            let ghost mid = lines_view(lines@);
            let row = &self.rows[k];
            proof {
                assert(rest[k - 1] == cells_view(row@));
            }
            let mut j: usize = 0;
            while j < row.len()
                invariant
                    j <= row.len(),
                    row == &self.rows@[k as int],
                    rest[k - 1] == cells_view(row@),
                    hs == texts(headers@),
                    lines_view(lines@) == mid + record_fields(rest[k - 1], hs, w as int, j as int),
                decreases row.len() - j,
            {
                let label = column_label_of(&headers, j);
                let l = record_line_of(label, &row[j]);
                let rows_of = wrap_line(l, w);
                push_lines(&mut lines, rows_of);
                proof {
                    assert(mid + record_fields(rest[k - 1], hs, w as int, j + 1) =~= mid
                        + record_fields(rest[k - 1], hs, w as int, j as int) + spec_wrap_line(
                        record_line(column_label(hs, j as int), rest[k - 1][j as int]),
                        w as int,
                    ));
                }
                j += 1;
            }
            proof {
                assert(record_rows(rest, hs, w as int, k as int) =~= before + (if k > 1 {
                    seq![line_of(seq![], plain_style())]
                } else {
                    seq![]
                }) + record_fields(rest[k - 1], hs, w as int, rest[k - 1].len() as int));
            }
            k += 1;
        }
        lines
    }
}

/// Each width is at most the total of all.
proof fn lemma_total_covers(widths: Seq<usize>)
    ensures
        forall|j: int| 0 <= j < widths.len() ==> #[trigger] widths[j] <= total(widths),
    decreases widths.len(),
{
    if widths.len() > 0 {
        lemma_total_covers(widths.drop_last());
        assert forall|j: int| 0 <= j < widths.len() implies #[trigger] widths[j] <= total(widths) by {
            if j < widths.len() - 1 {
                assert(widths.drop_last()[j] == widths[j]);
            }
            lemma_total_nonneg(widths.drop_last());
        }
    }
}

/// A total is not negative.
proof fn lemma_total_nonneg(widths: Seq<usize>)
    ensures
        total(widths) >= 0,
    decreases widths.len(),
{
    if widths.len() > 0 {
        lemma_total_nonneg(widths.drop_last());
    }
}

impl Table {
    /// The table laid out in `width` cells, as `spec_table_lines` says.
    pub fn render(&self, width: usize) -> (lines: Vec<StyledLine>)
        ensures
            lines_view(lines@) == spec_table_lines(self@, width),
    {
        let n = self.column_count_of();
        if n == 0 {
            return Vec::new();
        }
        if !grid_fits(n, width) {
            return self.records_of(width);
        }
        let ghost rows = self@.rows;
        let natural = self.natural_widths_of(n);
        proof {
            assert forall|j: int| 0 <= j < natural@.len() implies natural@[j] >= 1 by {
                lemma_natural_width_bounds(rows, j);
            }
            assert(n * 3 + 1 <= usize::MAX);
        }
        let available = width - (n * 3 + 1);
        let widths = column_widths(&natural, available);
        proof {
            lemma_grid_within_width(natural@, available);
            lemma_total_covers(widths@);
            lemma_longest_row(rows);
            assert(widths@ == table_widths(self@, width));
        }
        let ghost ws = widths@;
        let mut lines: Vec<StyledLine> = Vec::new();
        push_line(&mut lines, line_styled(border('┌', '┬', '┐', &widths), TextStyle::dim()));
        let mut k: usize = 0;
        while k < self.rows.len()
            invariant
                rows == self@.rows,
                ws == widths@,
                widths@.len() == n,
                n as int == column_count(self@),
                forall|i: int| 0 <= i < rows.len() ==> #[trigger] rows[i].len() <= longest_row(rows),
                forall|j: int| 0 <= j < ws.len() ==> #[trigger] ws[j] >= 1,
                forall|j: int| 0 <= j < ws.len() ==> #[trigger] ws[j] < usize::MAX - 2,
                k <= self.rows.len(),
                lines_view(lines@) == seq![border_line('┌', '┬', '┐', ws)] + grid_body(
                    rows,
                    ws,
                    self@.alignments,
                    k as int,
                ),
            decreases self.rows.len() - k,
        {
            let ghost before = lines_view(lines@);
            proof {
                assert(rows[k as int] == cells_view(self.rows@[k as int]@));
                assert(rows[k as int].len() <= longest_row(rows));
            }
            let body = row_lines_of(&self.rows[k], &widths, &self.alignments, k == 0);
            push_lines(&mut lines, body);
            if k == 0 && self.rows.len() > 1 {
                push_line(&mut lines, line_styled(border('├', '┼', '┤', &widths), TextStyle::dim()));
            }
            proof {
                assert(lines_view(lines@) =~= seq![border_line('┌', '┬', '┐', ws)] + grid_body(
                    rows,
                    ws,
                    self@.alignments,
                    k + 1,
                ));
            }
            k += 1;
        }
        push_line(&mut lines, line_styled(border('└', '┴', '┘', &widths), TextStyle::dim()));
        proof {
            assert(lines_view(lines@) =~= grid_lines(rows, ws, self@.alignments));
        }
        lines
    }
}

/// A heading's level.
#[derive(Debug, Clone, Copy, PartialEq, Eq)]
pub enum HeadingLevel {
    H1,
    H2,
    H3,
    H4,
    H5,
    H6,
}

/// Where a block or an inline element begins.
#[derive(Debug, Clone)]
pub enum MarkdownTag {
    Paragraph,
    Heading(HeadingLevel),
    BlockQuote,
    /// A code block, with its fence's language when it is fenced.
    CodeBlock(Option<String>),
    /// A list, with the number of its first item when it is ordered.
    List(Option<u64>),
    Item,
    Emphasis,
    Strong,
    Strikethrough,
    /// A link to the destination.
    Link(String),
    Image,
    /// A table with its columns' alignments.
    Table(Vec<Alignment>),
    TableHead,
    TableRow,
    TableCell,
    /// Any other element; it changes nothing.
    Other,
}

/// Where a block or an inline element ends.
#[derive(Debug, Clone, Copy, PartialEq, Eq)]
pub enum MarkdownTagEnd {
    Paragraph,
    Heading,
    BlockQuote,
    CodeBlock,
    Item,
    List,
    Emphasis,
    Strong,
    Strikethrough,
    Link,
    Image,
    Table,
    TableHead,
    TableRow,
    TableCell,
    Other,
}

/// One step of a markdown document, as its parser reports it.
#[derive(Debug, Clone)]
pub enum MarkdownEvent {
    Start(MarkdownTag),
    End(MarkdownTagEnd),
    Text(String),
    Code(String),
    /// Raw HTML, as a block or inline.
    Html(String),
    /// A soft or hard line break.
    Break,
    Rule,
    TaskListMarker(bool),
    FootnoteReference(String),
    InlineMath(String),
    DisplayMath(String),
}

/// An event with the byte range of the source that it covers.
#[derive(Debug, Clone)]
pub struct MarkdownItem {
    pub event: MarkdownEvent,
    pub start: usize,
    pub end: usize,
}

/// A list item's prefixes: for its first line and for the lines after it.
pub struct PrefixView {
    pub first: Seq<char>,
    pub continuation: Seq<char>,
    pub first_line: bool,
}

/// What the writer holds: the finished lines, the line being written, the style
/// stack, the open quotes, lists (each with its next number, 0 if unordered), items
/// and links (destination and label so far), whether a block just ended, whether a
/// code block is open, and the table being filled.
pub struct WriterView {
    pub width: usize,
    pub lines: Seq<LineView>,
    pub current: Seq<SpanView>,
    pub styles: Seq<TextStyle>,
    pub quote_depth: usize,
    pub lists: Seq<u64>,
    pub prefixes: Seq<PrefixView>,
    pub after_block: bool,
    pub code_block: bool,
    pub links: Seq<(Seq<char>, Seq<char>)>,
    pub table: Option<TableView>,
}

/// A writer for lines `width` cells wide (at least one) with nothing written.
pub open spec fn new_writer(width: usize) -> WriterView {
    WriterView {
        width: at_least_one(width as int) as usize,
        lines: seq![],
        current: seq![],
        styles: seq![plain_style()],
        quote_depth: 0,
        lists: seq![],
        prefixes: seq![],
        after_block: false,
        code_block: false,
        links: seq![],
        table: None,
    }
}

/// The style that text gets now.
pub open spec fn top_style(w: WriterView) -> TextStyle {
    w.styles.last()
}

/// `s` drawn over the current style becomes the current style.
pub open spec fn with_style(w: WriterView, s: TextStyle) -> WriterView {
    WriterView { styles: w.styles.push(top_style(w).patched(s)), ..w }
}

/// The style before the last one pushed comes back; the base style stays.
pub open spec fn without_style(w: WriterView) -> WriterView {
    if w.styles.len() > 1 {
        WriterView { styles: w.styles.drop_last(), ..w }
    } else {
        w
    }
}

/// A quote bar and a space.
pub open spec fn quote_bar() -> Seq<char> {
    seq!['│', ' ']
}

/// What a line starts with: a bar per open quote, then a bar inside a code block or
/// else the innermost item's prefix.
pub open spec fn prefix_text(w: WriterView) -> Seq<char> {
    repeat_text(quote_bar(), w.quote_depth as nat) + (if w.code_block {
        quote_bar()
    } else if w.prefixes.len() > 0 {
        if w.prefixes.last().first_line {
            w.prefixes.last().first
        } else {
            w.prefixes.last().continuation
        }
    } else {
        seq![]
    })
}

/// The line being written, begun with its prefix (dim) if it holds nothing yet.
pub open spec fn ensure_prefix(w: WriterView) -> WriterView {
    if w.current.len() > 0 || prefix_text(w).len() == 0 {
        w
    } else {
        WriterView { current: seq![span_of(prefix_text(w), dim_style())], ..w }
    }
}

/// The innermost item has a line written.
pub open spec fn mark_written(w: WriterView) -> WriterView {
    if w.prefixes.len() > 0 {
        WriterView {
            prefixes: w.prefixes.update(
                w.prefixes.len() - 1,
                PrefixView { first_line: false, ..w.prefixes.last() },
            ),
            ..w
        }
    } else {
        w
    }
}

/// The current line, finished.
pub open spec fn finish_current(w: WriterView) -> WriterView {
    mark_written(
        WriterView { lines: w.lines.push(line_of(w.current, plain_style())), current: seq![], ..w },
    )
}

/// A line break: the current line, with its prefix even if empty, is finished.
pub open spec fn line_break(w: WriterView) -> WriterView {
    finish_current(ensure_prefix(w))
}

/// The current line is finished if it holds anything.
pub open spec fn flush(w: WriterView) -> WriterView {
    if w.current.len() > 0 {
        finish_current(w)
    } else {
        w
    }
}

/// A new block: the current line is finished, and an empty line follows unless the
/// last line is already empty.
pub open spec fn separate(w: WriterView) -> WriterView {
    let f = flush(w);
    if f.lines.len() > 0 && measured(f.lines.last().spans) > 0 {
        WriterView { lines: f.lines.push(line_of(seq![], plain_style())), ..f }
    } else {
        f
    }
}

/// The innermost open link's label grows by `t`.
pub open spec fn add_to_link(w: WriterView, t: Seq<char>) -> WriterView {
    if w.links.len() > 0 {
        WriterView {
            links: w.links.update(w.links.len() - 1, (w.links.last().0, w.links.last().1 + t)),
            ..w
        }
    } else {
        w
    }
}

/// A piece of text without newlines written in `style`: made safe and added after
/// the prefix, unless it is empty.
pub open spec fn write_part(w: WriterView, part: Seq<char>, style: TextStyle) -> WriterView {
    if part.len() == 0 {
        w
    } else {
        let p = ensure_prefix(w);
        WriterView {
            current: p.current.push(
                span_of(crate::render::spec_sanitize(part, measured(p.current)), style),
            ),
            ..p
        }
    }
}

/// The pieces of a text written in `style`, a line break between neighbours.
pub open spec fn write_parts(w: WriterView, parts: Seq<Seq<char>>, style: TextStyle) -> WriterView
    decreases parts.len(),
{
    if parts.len() == 0 {
        w
    } else {
        let before = write_parts(w, parts.drop_last(), style);
        write_part(
            if parts.len() > 1 {
                line_break(before)
            } else {
                before
            },
            parts.last(),
            style,
        )
    }
}

/// Text written in `style`: it joins the open link's label, and goes into the table's
/// cell if a table is open, else into the lines.
pub open spec fn write_text(w: WriterView, t: Seq<char>, style: TextStyle) -> WriterView {
    let l = add_to_link(w, t);
    match l.table {
        Some(tb) => WriterView {
            table: Some(
                TableView {
                    cell: Some(cell_text(cell_or_empty(tb.cell), newline_parts(t), style)),
                    ..tb
                },
            ),
            ..l
        },
        None => write_parts(l, newline_parts(t), style),
    }
}

/// The style of a heading of `level`.
pub open spec fn heading_style(level: HeadingLevel) -> TextStyle {
    match level {
        HeadingLevel::H1 => TextStyle { bold: true, underlined: true, ..plain_style() },
        HeadingLevel::H2 => bold_style(),
        HeadingLevel::H3 => TextStyle { bold: true, italic: true, ..plain_style() },
        _ => italic_style(),
    }
}

/// What follows `┌─` at the top of a code block: a space and the fence's language.
pub open spec fn fence_label(language: Option<String>) -> Seq<char> {
    match language {
        Some(l) => if l@.len() > 0 {
            seq![' '] + l@
        } else {
            seq![]
        },
        None => seq![],
    }
}

/// The number after `n` as a `u64` counts, wrapping to 0.
pub open spec fn next_number(n: u64) -> u64 {
    if n == u64::MAX {
        0
    } else {
        (n + 1) as u64
    }
}

/// A list item begins: the line is finished; in an ordered list the item takes the
/// list's next number, else a dash; its prefix is indented two spaces per enclosing
/// list, and its later lines are indented as far.
pub open spec fn start_item(w: WriterView) -> WriterView {
    let f = flush(w);
    let depth: nat = if f.lists.len() > 0 {
        (f.lists.len() - 1) as nat
    } else {
        0
    };
    let ordered = f.lists.len() > 0 && f.lists.last() > 0;
    let marker = if ordered {
        decimal(f.lists.last() as nat) + seq!['.', ' ']
    } else {
        seq!['-', ' ']
    };
    let first = repeat_text(seq![' ', ' '], depth) + marker;
    WriterView {
        lists: if ordered {
            f.lists.update(f.lists.len() - 1, next_number(f.lists.last()))
        } else {
            f.lists
        },
        prefixes: f.prefixes.push(
            PrefixView {
                first,
                continuation: crate::render::spaces(first.len()),
                first_line: true,
            },
        ),
        ..f
    }
}

/// What the beginning of an element does.
pub open spec fn start_tag(w: WriterView, tag: MarkdownTag) -> WriterView {
    match tag {
        MarkdownTag::Paragraph => WriterView {
            after_block: false,
            ..(if w.after_block && w.lists.len() == 0 {
                separate(w)
            } else {
                w
            })
        },
        MarkdownTag::Heading(level) => with_style(separate(w), heading_style(level)),
        MarkdownTag::BlockQuote => {
            let s = separate(w);
            WriterView {
                quote_depth: if s.quote_depth < usize::MAX {
                    (s.quote_depth + 1) as usize
                } else {
                    s.quote_depth
                },
                ..s
            }
        },
        MarkdownTag::CodeBlock(language) => {
            let s = separate(w);
            WriterView {
                lines: s.lines.push(
                    styled_line(seq!['┌', '─'] + fence_label(language), dim_style()),
                ),
                code_block: true,
                ..s
            }
        },
        MarkdownTag::List(first) => {
            let s = if w.lists.len() == 0 {
                separate(w)
            } else {
                w
            };
            WriterView {
                lists: s.lists.push(
                    match first {
                        Some(n) => n,
                        None => 0,
                    },
                ),
                ..s
            }
        },
        MarkdownTag::Item => start_item(w),
        MarkdownTag::Emphasis => with_style(w, italic_style()),
        MarkdownTag::Strong => with_style(w, bold_style()),
        MarkdownTag::Strikethrough => with_style(w, crossed_out_style()),
        MarkdownTag::Link(destination) => with_style(
            WriterView { links: w.links.push((destination@, seq![])), ..w },
            underlined_style(),
        ),
        MarkdownTag::Table(alignments) => {
            let s = separate(w);
            WriterView {
                table: Some(
                    TableView { alignments: alignments@, rows: seq![], row: seq![], cell: None },
                ),
                ..s
            }
        },
        _ => w,
    }
}

/// A link ends: its style goes; a label other than the destination is followed by the
/// destination in brackets.
pub open spec fn end_link(w: WriterView) -> WriterView {
    let u = without_style(w);
    if u.links.len() > 0 {
        let link = u.links.last();
        let p = WriterView { links: u.links.drop_last(), ..u };
        if link.1 != link.0 {
            write_text(p, seq![' ', '('] + link.0 + seq![')'], top_style(p))
        } else {
            p
        }
    } else {
        u
    }
}

/// What the end of an element does.
pub open spec fn end_tag(w: WriterView, tag: MarkdownTagEnd) -> WriterView {
    match tag {
        MarkdownTagEnd::Paragraph => WriterView { after_block: true, ..flush(w) },
        MarkdownTagEnd::Heading => WriterView { after_block: true, ..flush(without_style(w)) },
        MarkdownTagEnd::BlockQuote => {
            let f = flush(w);
            WriterView {
                quote_depth: if f.quote_depth > 0 {
                    (f.quote_depth - 1) as usize
                } else {
                    0
                },
                after_block: true,
                ..f
            }
        },
        MarkdownTagEnd::CodeBlock => {
            let f = flush(w);
            WriterView {
                lines: f.lines.push(styled_line(seq!['└', '─'], dim_style())),
                code_block: false,
                after_block: true,
                ..f
            }
        },
        MarkdownTagEnd::Item => {
            let f = flush(w);
            if f.prefixes.len() > 0 {
                WriterView { prefixes: f.prefixes.drop_last(), ..f }
            } else {
                f
            }
        },
        MarkdownTagEnd::List => {
            let f = flush(w);
            let lists = if f.lists.len() > 0 {
                f.lists.drop_last()
            } else {
                f.lists
            };
            WriterView { lists, after_block: lists.len() == 0 || f.after_block, ..f }
        },
        MarkdownTagEnd::Emphasis => without_style(w),
        MarkdownTagEnd::Strong => without_style(w),
        MarkdownTagEnd::Strikethrough => without_style(w),
        MarkdownTagEnd::Link => end_link(w),
        _ => w,
    }
}

/// The writer with its table changed to `t`.
pub open spec fn with_table(w: WriterView, t: TableView) -> WriterView {
    WriterView { table: Some(t), ..w }
}

/// What an event does inside a table, or `None` for an event that a table leaves to
/// the rest of the writer.
pub open spec fn table_event(w: WriterView, t: TableView, e: MarkdownEvent) -> Option<WriterView> {
    match e {
        MarkdownEvent::Start(MarkdownTag::TableHead) => Some(
            with_table(w, TableView { row: seq![], ..t }),
        ),
        MarkdownEvent::Start(MarkdownTag::TableRow) => Some(
            with_table(w, TableView { row: seq![], ..t }),
        ),
        MarkdownEvent::Start(MarkdownTag::TableCell) => Some(
            with_table(w, TableView { cell: Some(empty_cell()), ..t }),
        ),
        MarkdownEvent::End(MarkdownTagEnd::TableCell) => Some(
            with_table(w, TableView { row: t.row.push(cell_or_empty(t.cell)), cell: None, ..t }),
        ),
        MarkdownEvent::End(MarkdownTagEnd::TableHead) => Some(with_table(w, end_table_row(t))),
        MarkdownEvent::End(MarkdownTagEnd::TableRow) => Some(with_table(w, end_table_row(t))),
        MarkdownEvent::End(MarkdownTagEnd::Table) => Some(
            WriterView {
                lines: w.lines + spec_table_lines(t, w.width),
                table: None,
                after_block: true,
                ..w
            },
        ),
        MarkdownEvent::Text(text) => Some(write_text(w, text@, top_style(w))),
        MarkdownEvent::Code(code) => Some(
            write_text(w, code@, top_style(w).patched(code_style())),
        ),
        MarkdownEvent::Break => Some(
            with_table(w, TableView { cell: Some(cell_break(cell_or_empty(t.cell))), ..t }),
        ),
        MarkdownEvent::Start(MarkdownTag::Strong) => Some(with_style(w, bold_style())),
        MarkdownEvent::End(MarkdownTagEnd::Strong) => Some(without_style(w)),
        MarkdownEvent::Start(MarkdownTag::Emphasis) => Some(with_style(w, italic_style())),
        MarkdownEvent::End(MarkdownTagEnd::Emphasis) => Some(without_style(w)),
        MarkdownEvent::Start(MarkdownTag::Strikethrough) => Some(
            with_style(w, crossed_out_style()),
        ),
        MarkdownEvent::End(MarkdownTagEnd::Strikethrough) => Some(without_style(w)),
        _ => None,
    }
}

/// A row ends: it is kept if it has a cell.
pub open spec fn end_table_row(t: TableView) -> TableView {
    if t.row.len() > 0 {
        TableView { rows: t.rows.push(t.row), row: seq![], ..t }
    } else {
        t
    }
}

/// What an event does: a table takes its own events; the rest go by kind.
pub open spec fn apply_event(w: WriterView, e: MarkdownEvent) -> WriterView {
    if w.table is Some && table_event(w, w.table.unwrap(), e) is Some {
        table_event(w, w.table.unwrap(), e).unwrap()
    } else {
        match e {
            MarkdownEvent::Start(tag) => start_tag(w, tag),
            MarkdownEvent::End(tag) => end_tag(w, tag),
            MarkdownEvent::Text(t) => write_text(w, t@, top_style(w)),
            MarkdownEvent::Code(c) => write_text(w, c@, top_style(w).patched(code_style())),
            MarkdownEvent::Html(h) => write_text(w, h@, top_style(w)),
            MarkdownEvent::Break => line_break(w),
            MarkdownEvent::Rule => {
                let s = separate(w);
                WriterView {
                    lines: s.lines.push(styled_line(repeat_text(seq!['─'], s.width as nat), dim_style())),
                    after_block: true,
                    ..s
                }
            },
            MarkdownEvent::TaskListMarker(checked) => write_text(
                w,
                if checked {
                    seq!['[', 'x', ']', ' ']
                } else {
                    seq!['[', ' ', ']', ' ']
                },
                top_style(w).patched(dim_style()),
            ),
            MarkdownEvent::FootnoteReference(r) => write_text(
                w,
                seq!['[', '^'] + r@ + seq![']'],
                top_style(w),
            ),
            MarkdownEvent::InlineMath(m) => write_text(w, seq!['$'] + m@ + seq!['$'], top_style(w)),
            MarkdownEvent::DisplayMath(m) => write_text(
                w,
                seq!['$', '$'] + m@ + seq!['$', '$'],
                top_style(w),
            ),
        }
    }
}

/// The lines without the empty (zero-width) ones at the end.
pub open spec fn trim_blank_end(lines: Seq<LineView>) -> Seq<LineView>
    decreases lines.len(),
{
    if lines.len() > 0 && measured(lines.last().spans) == 0 {
        trim_blank_end(lines.drop_last())
    } else {
        lines
    }
}

/// The writer's lines once everything is written: the current line finished, empty
/// lines at the end dropped, and every line wrapped to the width.
pub open spec fn finished_lines(w: WriterView) -> Seq<LineView> {
    wrapped_all(trim_blank_end(flush(w).lines), w.width as int)
}

/// The characters of `s` whose UTF-8 byte offsets lie in `start..end` (offsets
/// counted saturating at `usize::MAX`).
pub open spec fn bytes_slice(s: Seq<char>, start: int, end: int) -> Seq<char>
    decreases s.len(),
{
    if s.len() == 0 {
        seq![]
    } else {
        let before = bytes_slice(s.drop_last(), start, end);
        let offset = crate::text::utf8_len(s.drop_last());
        if start <= offset && offset < end {
            before.push(s.last())
        } else {
            before
        }
    }
}

/// The characters of `source` in `start..end`, or from `start` to the end when `end`
/// is `None`, by UTF-8 byte offsets.
pub fn source_text(source: &str, start: usize, end: Option<usize>) -> (t: String)
    ensures
        t@ == bytes_slice(
            source@,
            start as int,
            match end {
                Some(e) => e as int,
                None => usize::MAX + 1,
            },
        ),
{
    let ghost stop: int = match end {
        Some(e) => e as int,
        None => usize::MAX + 1,
    };
    let v = chars_of(source);
    let mut t = String::new();
    let mut offset: usize = 0;
    let mut i: usize = 0;
    while i < v.len()
        invariant
            i <= v.len(),
            v@ == source@,
            stop == match end {
                Some(e) => e as int,
                None => usize::MAX + 1,
            },
            offset as int == crate::text::utf8_len(v@.take(i as int)),
            t@ == bytes_slice(v@.take(i as int), start as int, stop),
        decreases v.len() - i,
    {
        let c = v[i];
        let inside = start <= offset && match end {
            Some(e) => offset < e,
            None => true,
        };
        proof {
            assert(v@.take(i + 1).drop_last() =~= v@.take(i as int));
            assert(v@.take(i + 1).last() == c);
        }
        if inside {
            push_char(&mut t, c);
        }
        proof {
            crate::text::lemma_encode_push(v@.take(i as int), c);
            assert(v@.take(i + 1) =~= v@.take(i as int).push(c));
        }
        offset = offset.saturating_add(utf8_char_len(c));
        i += 1;
    }
    proof {
        assert(v@.take(v.len() as int) =~= source@);
    }
    t
}

/// The number of bytes that encode `c` in UTF-8.
fn utf8_char_len(c: char) -> (w: usize)
    ensures
        w as int == vstd::utf8::encode_scalar(c as u32).len(),
{
    let u = c as u32;
    if u <= 0x7F {
        1
    } else if u <= 0x7FF {
        2
    } else if u <= 0xFFFF {
        3
    } else {
        4
    }
}

/// Where the events leave the writer and an image being skipped: an image's events
/// are passed over, and at its end the image's source is written as plain text.
pub open spec fn fold_items(source: Seq<char>, items: Seq<MarkdownItem>, w: WriterView) -> (
    WriterView,
    Option<usize>,
)
    decreases items.len(),
{
    if items.len() == 0 {
        (w, None)
    } else {
        let (before, image) = fold_items(source, items.drop_last(), w);
        let item = items.last();
        match image {
            Some(start) => if item.event matches MarkdownEvent::End(MarkdownTagEnd::Image) {
                (
                    write_text(
                        before,
                        bytes_slice(source, start as int, item.end as int),
                        plain_style(),
                    ),
                    None,
                )
            } else {
                (before, image)
            },
            None => if item.event matches MarkdownEvent::Start(MarkdownTag::Image) {
                (before, Some(item.start))
            } else {
                (apply_event(before, item.event), None)
            },
        }
    }
}

/// A markdown document, given as its source and its parser's events, as lines of at
/// most `width` cells: the events written in order (an image as its source text, even
/// one left open at the end), then the lines finished.
pub open spec fn spec_render(source: Seq<char>, items: Seq<MarkdownItem>, width: usize) -> Seq<
    LineView,
> {
    let (w, image) = fold_items(source, items, new_writer(width));
    finished_lines(
        match image {
            Some(start) => write_text(w, bytes_slice(source, start as int, usize::MAX + 1), plain_style()),
            None => w,
        },
    )
}

/// A writer can write: it has a base style and a width.
pub open spec fn writable(w: WriterView) -> bool {
    w.styles.len() >= 1 && w.width >= 1
}

/// A list item's prefixes.
struct ItemPrefix {
    first: String,
    continuation: String,
    first_line: bool,
}

impl View for ItemPrefix {
    type V = PrefixView;

    closed spec fn view(&self) -> PrefixView {
        PrefixView {
            first: self.first@,
            continuation: self.continuation@,
            first_line: self.first_line,
        }
    }
}

/// Turns markdown events into lines; see `WriterView`.
struct Writer {
    width: usize,
    lines: Vec<StyledLine>,
    current: Vec<StyledSpan>,
    styles: Vec<TextStyle>,
    quote_depth: usize,
    lists: Vec<u64>,
    prefixes: Vec<ItemPrefix>,
    after_block: bool,
    code_block: bool,
    links: Vec<(String, String)>,
    table: Option<Table>,
}

impl View for Writer {
    type V = WriterView;

    closed spec fn view(&self) -> WriterView {
        WriterView {
            width: self.width,
            lines: lines_view(self.lines@),
            current: spans_view(self.current@),
            styles: self.styles@,
            quote_depth: self.quote_depth,
            lists: self.lists@,
            prefixes: self.prefixes@.map_values(|p: ItemPrefix| p@),
            after_block: self.after_block,
            code_block: self.code_block,
            links: self.links@.map_values(|l: (String, String)| (l.0@, l.1@)),
            table: match self.table {
                Some(t) => Some(t@),
                None => None,
            },
        }
    }
}

/// A quote bar and a space.
fn quote_bar_string() -> (s: String)
    ensures
        s@ == quote_bar(),
{
    let mut s = String::new();
    push_char(&mut s, '│');
    push_char(&mut s, ' ');
    proof {
        assert(s@ =~= quote_bar());
    }
    s
}

/// The style of a heading of `level`.
fn heading_style_of(level: HeadingLevel) -> (s: TextStyle)
    ensures
        s == heading_style(level),
{
    match level {
        HeadingLevel::H1 => TextStyle { bold: true, underlined: true, ..TextStyle::plain() },
        HeadingLevel::H2 => TextStyle::bold(),
        HeadingLevel::H3 => TextStyle { bold: true, italic: true, ..TextStyle::plain() },
        _ => TextStyle::italic(),
    }
}

impl Writer {
    /// A writer for lines `width` cells wide (at least one).
    fn new(width: usize) -> (w: Writer)
        ensures
            w@ == new_writer(width),
            writable(w@),
    {
        let mut styles: Vec<TextStyle> = Vec::new();
        styles.push(TextStyle::plain());
        let w = Writer {
            width: if width < 1 {
                1
            } else {
                width
            },
            lines: Vec::new(),
            current: Vec::new(),
            styles,
            quote_depth: 0,
            lists: Vec::new(),
            prefixes: Vec::new(),
            after_block: false,
            code_block: false,
            links: Vec::new(),
            table: None,
        };
        proof {
            assert(w@.lines =~= new_writer(width).lines);
            assert(w@.current =~= new_writer(width).current);
            assert(w@.styles =~= new_writer(width).styles);
            assert(w@.lists =~= new_writer(width).lists);
            assert(w@.prefixes =~= new_writer(width).prefixes);
            assert(w@.links =~= new_writer(width).links);
        }
        w
    }

    /// The style that text gets now.
    fn style(&self) -> (s: TextStyle)
        requires
            writable(self@),
        ensures
            s == top_style(self@),
    {
        self.styles[self.styles.len() - 1]
    }

    /// Draws `s` over the current style.
    fn push_style(&mut self, s: TextStyle)
        requires
            writable(old(self)@),
        ensures
            final(self)@ == with_style(old(self)@, s),
            writable(final(self)@),
    {
        let top = self.style().patch(s);
        self.styles.push(top);
    }

    /// Brings back the style before the last one pushed.
    fn pop_style(&mut self)
        requires
            writable(old(self)@),
        ensures
            final(self)@ == without_style(old(self)@),
            writable(final(self)@),
    {
        if self.styles.len() > 1 {
            self.styles.pop();
        }
    }

    /// What a line starts with now.
    fn prefix(&self) -> (p: String)
        ensures
            p@ == prefix_text(self@),
    {
        let bar = quote_bar_string();
        let mut p = repeated(bar.as_str(), self.quote_depth);
        if self.code_block {
            p.append(bar.as_str());
        } else if self.prefixes.len() > 0 {
            let last = &self.prefixes[self.prefixes.len() - 1];
            proof {
                assert(self@.prefixes.last() == last@);
            }
            if last.first_line {
                p.append(last.first.as_str());
            } else {
                p.append(last.continuation.as_str());
            }
        }
        p
    }

    /// Begins the current line with its prefix if it holds nothing.
    fn ensure_prefix(&mut self)
        requires
            writable(old(self)@),
        ensures
            final(self)@ == ensure_prefix(old(self)@),
            writable(final(self)@),
    {
        if self.current.len() == 0 {
            let p = self.prefix();
            let ghost pv = p@;
            if !p.as_str().is_empty() {
                push_span(&mut self.current, StyledSpan { text: p, style: TextStyle::dim() });
                proof {
                    assert(spans_view(self.current@) =~= seq![span_of(pv, dim_style())]);
                }
            }
        }
    }

    /// Notes that the innermost item has a line written.
    fn mark_written(&mut self)
        requires
            writable(old(self)@),
        ensures
            final(self)@ == mark_written(old(self)@),
            writable(final(self)@),
    {
        if self.prefixes.len() > 0 {
            let ghost before = self.prefixes@;
            let mut p = self.prefixes.pop().unwrap();
            p.first_line = false;
            self.prefixes.push(p);
            proof {
                assert(self.prefixes@.map_values(|p: ItemPrefix| p@) =~= before.map_values(
                    |p: ItemPrefix| p@,
                ).update(
                    before.len() - 1,
                    PrefixView { first_line: false, ..before.map_values(|p: ItemPrefix| p@).last() },
                ));
            }
        }
    }

    /// Finishes the current line.
    fn finish_current(&mut self)
        requires
            writable(old(self)@),
        ensures
            final(self)@ == finish_current(old(self)@),
            writable(final(self)@),
    {
        let mut cur: Vec<StyledSpan> = Vec::new();
        std::mem::swap(&mut cur, &mut self.current);
        push_line(&mut self.lines, StyledLine { spans: cur, style: TextStyle::plain() });
        proof {
            assert(spans_view(self.current@) =~= Seq::<SpanView>::empty());
        }
        self.mark_written();
    }

    /// Finishes the current line, with its prefix even if it is empty.
    fn line_break(&mut self)
        requires
            writable(old(self)@),
        ensures
            final(self)@ == line_break(old(self)@),
            writable(final(self)@),
    {
        self.ensure_prefix();
        self.finish_current();
    }

    /// Finishes the current line if it holds anything.
    fn flush(&mut self)
        requires
            writable(old(self)@),
        ensures
            final(self)@ == flush(old(self)@),
            writable(final(self)@),
    {
        if self.current.len() > 0 {
            self.finish_current();
        }
    }

    /// Begins a block: see `separate`.
    fn separate(&mut self)
        requires
            writable(old(self)@),
        ensures
            final(self)@ == separate(old(self)@),
            writable(final(self)@),
    {
        self.flush();
        let n = self.lines.len();
        if n > 0 && width_of(&self.lines[n - 1].spans) > 0 {
            push_line(&mut self.lines, StyledLine::empty(TextStyle::plain()));
        }
    }

    /// Adds `t` to the innermost open link's label.
    fn add_to_link(&mut self, t: &str)
        requires
            writable(old(self)@),
        ensures
            final(self)@ == add_to_link(old(self)@, t@),
            writable(final(self)@),
    {
        if self.links.len() > 0 {
            let ghost before = self.links@;
            let (destination, mut label) = self.links.pop().unwrap();
            label.append(t);
            self.links.push((destination, label));
            proof {
                let f = |l: (String, String)| (l.0@, l.1@);
                assert(self.links@.map_values(f) =~= before.map_values(f).update(
                    before.len() - 1,
                    (before.map_values(f).last().0, before.map_values(f).last().1 + t@),
                ));
            }
        }
    }

    /// Writes a piece of text without newlines: see `write_part`.
    fn write_part(&mut self, part: &str, style: TextStyle)
        requires
            writable(old(self)@),
        ensures
            final(self)@ == write_part(old(self)@, part@, style),
            writable(final(self)@),
    {
        if !part.is_empty() {
            self.ensure_prefix();
            let column = width_of(&self.current);
            push_span(&mut self.current, StyledSpan { text: sanitize(part, column), style });
        }
    }

    /// Writes `t` in `style`: see `write_text`.
    fn text(&mut self, t: &str, style: TextStyle)
        requires
            writable(old(self)@),
        ensures
            final(self)@ == write_text(old(self)@, t@, style),
            writable(final(self)@),
    {
        self.add_to_link(t);
        if self.table.is_some() {
            let mut table = self.table.take().unwrap();
            table.text(t, style);
            self.table = Some(table);
            return;
        }
        let parts = split_newlines(t);
        let ghost start = self@;
        let mut i: usize = 0;
        while i < parts.len()
            invariant
                i <= parts.len(),
                texts(parts@) == newline_parts(t@),
                writable(self@),
                self@ == write_parts(start, newline_parts(t@).take(i as int), style),
            decreases parts.len() - i,
        {
            proof {
                let ps = newline_parts(t@);
                assert(ps.take(i + 1).drop_last() =~= ps.take(i as int));
                assert(ps.take(i + 1).last() == parts@[i as int]@);
            }
            if i > 0 {
                self.line_break();
            }
            self.write_part(parts[i].as_str(), style);
            i += 1;
        }
        proof {
            assert(newline_parts(t@).take(parts.len() as int) =~= newline_parts(t@));
        }
    }
}

/// A copy of the alignments.
fn copy_alignments(a: &Vec<Alignment>) -> (r: Vec<Alignment>)
    ensures
        r@ == a@,
{
    let mut r: Vec<Alignment> = Vec::new();
    let mut i: usize = 0;
    while i < a.len()
        invariant
            i <= a.len(),
            r@ == a@.take(i as int),
        decreases a.len() - i,
    {
        r.push(a[i]);
        proof {
            assert(r@ =~= a@.take(i + 1));
        }
        i += 1;
    }
    proof {
        assert(a@.take(a.len() as int) =~= a@);
    }
    r
}

/// The number of characters of `s`.
fn char_count(s: &str) -> (n: usize)
    ensures
        n == s@.len(),
{
    chars_of(s).len()
}

impl Writer {
    /// A list item begins: see `start_item`.
    fn start_item(&mut self)
        requires
            writable(old(self)@),
        ensures
            final(self)@ == start_item(old(self)@),
            writable(final(self)@),
    {
        self.flush();
        let ghost f = self@;
        let n = self.lists.len();
        let depth: usize = if n > 0 {
            n - 1
        } else {
            0
        };
        let mut marker = String::new();
        if n > 0 && self.lists[n - 1] > 0 {
            let next = self.lists[n - 1];
            marker = decimal_string(next);
            push_char(&mut marker, '.');
            push_char(&mut marker, ' ');
            self.lists.set(
                n - 1,
                if next == u64::MAX {
                    0
                } else {
                    next + 1
                },
            );
            proof {
                assert(marker@ =~= decimal(next as nat) + seq!['.', ' ']);
            }
        } else {
            push_char(&mut marker, '-');
            push_char(&mut marker, ' ');
            proof {
                assert(marker@ =~= seq!['-', ' ']);
            }
        }
        let mut unit = String::new();
        push_char(&mut unit, ' ');
        push_char(&mut unit, ' ');
        proof {
            assert(unit@ =~= seq![' ', ' ']);
        }
        let indent = repeated(unit.as_str(), depth);
        let first = concat(indent.as_str(), marker.as_str());
        let continuation = space_string(char_count(first.as_str()));
        let ghost before = self.prefixes@;
        let item = ItemPrefix { first, continuation, first_line: true };
        self.prefixes.push(item);
        proof {
            assert(self.prefixes@.map_values(|p: ItemPrefix| p@) =~= before.map_values(
                |p: ItemPrefix| p@,
            ).push(item@));
            assert(self@.lists =~= start_item(old(self)@).lists);
        }
    }

    /// The beginning of an element: see `start_tag`.
    fn start(&mut self, tag: &MarkdownTag)
        requires
            writable(old(self)@),
        ensures
            final(self)@ == start_tag(old(self)@, *tag),
            writable(final(self)@),
    {
        match tag {
            MarkdownTag::Paragraph => {
                if self.after_block && self.lists.len() == 0 {
                    self.separate();
                }
                self.after_block = false;
            },
            MarkdownTag::Heading(level) => {
                self.separate();
                self.push_style(heading_style_of(*level));
            },
            MarkdownTag::BlockQuote => {
                self.separate();
                self.quote_depth = self.quote_depth.saturating_add(1);
            },
            MarkdownTag::CodeBlock(language) => {
                self.separate();
                let mut top = String::new();
                push_char(&mut top, '┌');
                push_char(&mut top, '─');
                match language {
                    Some(l) => {
                        if !l.as_str().is_empty() {
                            push_char(&mut top, ' ');
                            top.append(l.as_str());
                        }
                    },
                    None => {},
                }
                proof {
                    assert(top@ =~= seq!['┌', '─'] + fence_label(*language));
                }
                push_line(&mut self.lines, line_styled(top, TextStyle::dim()));
                self.code_block = true;
            },
            MarkdownTag::List(first) => {
                if self.lists.len() == 0 {
                    self.separate();
                }
                let n = match first {
                    Some(n) => *n,
                    None => 0,
                };
                self.lists.push(n);
            },
            MarkdownTag::Item => self.start_item(),
            MarkdownTag::Emphasis => self.push_style(TextStyle::italic()),
            MarkdownTag::Strong => self.push_style(TextStyle::bold()),
            MarkdownTag::Strikethrough => self.push_style(TextStyle::crossed_out()),
            MarkdownTag::Link(destination) => {
                let ghost before = self.links@;
                self.links.push((destination.clone(), String::new()));
                proof {
                    let f = |l: (String, String)| (l.0@, l.1@);
                    assert(self.links@.map_values(f) =~= before.map_values(f).push(
                        (destination@, seq![]),
                    ));
                }
                self.push_style(TextStyle::underlined());
            },
            MarkdownTag::Table(alignments) => {
                self.separate();
                self.table = Some(Table::new(copy_alignments(alignments)));
            },
            _ => {},
        }
    }

    /// The end of a link: see `end_link`.
    fn end_link(&mut self)
        requires
            writable(old(self)@),
        ensures
            final(self)@ == end_link(old(self)@),
            writable(final(self)@),
    {
        self.pop_style();
        if self.links.len() > 0 {
            let ghost before = self.links@;
            let (destination, label) = self.links.pop().unwrap();
            proof {
                let f = |l: (String, String)| (l.0@, l.1@);
                assert(self.links@.map_values(f) =~= before.map_values(f).drop_last());
                assert(before.map_values(f).last() == (destination@, label@));
            }
            if label != destination {
                let mut note = String::new();
                push_char(&mut note, ' ');
                push_char(&mut note, '(');
                note.append(destination.as_str());
                push_char(&mut note, ')');
                proof {
                    assert(note@ =~= seq![' ', '('] + destination@ + seq![')']);
                }
                let style = self.style();
                self.text(note.as_str(), style);
            }
        }
    }

    /// The end of an element: see `end_tag`.
    fn end(&mut self, tag: MarkdownTagEnd)
        requires
            writable(old(self)@),
        ensures
            final(self)@ == end_tag(old(self)@, tag),
            writable(final(self)@),
    {
        match tag {
            MarkdownTagEnd::Paragraph => {
                self.flush();
                self.after_block = true;
            },
            MarkdownTagEnd::Heading => {
                self.pop_style();
                self.flush();
                self.after_block = true;
            },
            MarkdownTagEnd::BlockQuote => {
                self.flush();
                self.quote_depth = self.quote_depth.saturating_sub(1);
                self.after_block = true;
            },
            MarkdownTagEnd::CodeBlock => {
                self.flush();
                let mut bottom = String::new();
                push_char(&mut bottom, '└');
                push_char(&mut bottom, '─');
                proof {
                    assert(bottom@ =~= seq!['└', '─']);
                }
                push_line(&mut self.lines, line_styled(bottom, TextStyle::dim()));
                self.code_block = false;
                self.after_block = true;
            },
            MarkdownTagEnd::Item => {
                self.flush();
                if self.prefixes.len() > 0 {
                    let ghost before = self.prefixes@;
                    self.prefixes.pop();
                    proof {
                        assert(self.prefixes@.map_values(|p: ItemPrefix| p@) =~= before.map_values(
                            |p: ItemPrefix| p@,
                        ).drop_last());
                    }
                }
            },
            MarkdownTagEnd::List => {
                self.flush();
                if self.lists.len() > 0 {
                    self.lists.pop();
                }
                if self.lists.len() == 0 {
                    self.after_block = true;
                }
            },
            MarkdownTagEnd::Emphasis => self.pop_style(),
            MarkdownTagEnd::Strong => self.pop_style(),
            MarkdownTagEnd::Strikethrough => self.pop_style(),
            MarkdownTagEnd::Link => self.end_link(),
            _ => {},
        }
    }
}

impl Writer {
    /// An event inside a table: see `table_event`. Returns whether the table took it.
    fn table_event(&mut self, e: &MarkdownEvent) -> (taken: bool)
        requires
            writable(old(self)@),
            old(self)@.table is Some,
        ensures
            taken == table_event(old(self)@, old(self)@.table.unwrap(), *e) is Some,
            taken ==> final(self)@ == table_event(old(self)@, old(self)@.table.unwrap(), *e).unwrap(),
            !taken ==> final(self)@ == old(self)@,
            writable(final(self)@),
    {
        match e {
            MarkdownEvent::Start(MarkdownTag::TableHead) | MarkdownEvent::Start(MarkdownTag::TableRow) => {
                let mut t = self.table.take().unwrap();
                t.start_row();
                self.table = Some(t);
            },
            MarkdownEvent::Start(MarkdownTag::TableCell) => {
                let mut t = self.table.take().unwrap();
                t.start_cell();
                self.table = Some(t);
            },
            MarkdownEvent::End(MarkdownTagEnd::TableCell) => {
                let mut t = self.table.take().unwrap();
                t.end_cell();
                self.table = Some(t);
            },
            MarkdownEvent::End(MarkdownTagEnd::TableHead) | MarkdownEvent::End(MarkdownTagEnd::TableRow) => {
                let mut t = self.table.take().unwrap();
                t.end_row();
                self.table = Some(t);
            },
            MarkdownEvent::End(MarkdownTagEnd::Table) => {
                let t = self.table.take().unwrap();
                let rendered = t.render(self.width);
                push_lines(&mut self.lines, rendered);
                self.after_block = true;
            },
            MarkdownEvent::Text(text) => {
                let style = self.style();
                self.text(text.as_str(), style);
            },
            MarkdownEvent::Code(code) => {
                let style = self.style().patch(TextStyle::code());
                self.text(code.as_str(), style);
            },
            MarkdownEvent::Break => {
                let mut t = self.table.take().unwrap();
                t.line_break();
                self.table = Some(t);
            },
            MarkdownEvent::Start(MarkdownTag::Strong) => self.push_style(TextStyle::bold()),
            MarkdownEvent::End(MarkdownTagEnd::Strong) => self.pop_style(),
            MarkdownEvent::Start(MarkdownTag::Emphasis) => self.push_style(TextStyle::italic()),
            MarkdownEvent::End(MarkdownTagEnd::Emphasis) => self.pop_style(),
            MarkdownEvent::Start(MarkdownTag::Strikethrough) => self.push_style(
                TextStyle::crossed_out(),
            ),
            MarkdownEvent::End(MarkdownTagEnd::Strikethrough) => self.pop_style(),
            _ => {
                return false;
            },
        }
        true
    }

    /// An event: see `apply_event`.
    fn event(&mut self, e: &MarkdownEvent)
        requires
            writable(old(self)@),
        ensures
            final(self)@ == apply_event(old(self)@, *e),
            writable(final(self)@),
    {
        if self.table.is_some() && self.table_event(e) {
            return;
        }
        match e {
            MarkdownEvent::Start(tag) => self.start(tag),
            MarkdownEvent::End(tag) => self.end(*tag),
            MarkdownEvent::Text(t) => {
                let style = self.style();
                self.text(t.as_str(), style);
            },
            MarkdownEvent::Code(c) => {
                let style = self.style().patch(TextStyle::code());
                self.text(c.as_str(), style);
            },
            MarkdownEvent::Html(h) => {
                let style = self.style();
                self.text(h.as_str(), style);
            },
            MarkdownEvent::Break => self.line_break(),
            MarkdownEvent::Rule => {
                self.separate();
                let mut unit = String::new();
                push_char(&mut unit, '─');
                proof {
                    assert(unit@ =~= seq!['─']);
                }
                let rule = repeated(unit.as_str(), self.width);
                push_line(&mut self.lines, line_styled(rule, TextStyle::dim()));
                self.after_block = true;
            },
            MarkdownEvent::TaskListMarker(checked) => {
                let mut mark = String::new();
                push_char(&mut mark, '[');
                push_char(
                    &mut mark,
                    if *checked {
                        'x'
                    } else {
                        ' '
                    },
                );
                push_char(&mut mark, ']');
                push_char(&mut mark, ' ');
                proof {
                    assert(mark@ =~= (if *checked {
                        seq!['[', 'x', ']', ' ']
                    } else {
                        seq!['[', ' ', ']', ' ']
                    }));
                }
                let style = self.style().patch(TextStyle::dim());
                self.text(mark.as_str(), style);
            },
            MarkdownEvent::FootnoteReference(r) => {
                let mut note = String::new();
                push_char(&mut note, '[');
                push_char(&mut note, '^');
                note.append(r.as_str());
                push_char(&mut note, ']');
                proof {
                    assert(note@ =~= seq!['[', '^'] + r@ + seq![']']);
                }
                let style = self.style();
                self.text(note.as_str(), style);
            },
            MarkdownEvent::InlineMath(m) => {
                let mut math = String::new();
                push_char(&mut math, '$');
                math.append(m.as_str());
                push_char(&mut math, '$');
                proof {
                    assert(math@ =~= seq!['$'] + m@ + seq!['$']);
                }
                let style = self.style();
                self.text(math.as_str(), style);
            },
            MarkdownEvent::DisplayMath(m) => {
                let mut math = String::new();
                push_char(&mut math, '$');
                push_char(&mut math, '$');
                math.append(m.as_str());
                push_char(&mut math, '$');
                push_char(&mut math, '$');
                proof {
                    assert(math@ =~= seq!['$', '$'] + m@ + seq!['$', '$']);
                }
                let style = self.style();
                self.text(math.as_str(), style);
            },
        }
    }

    /// The writer's lines: see `finished_lines`.
    fn finish(self) -> (lines: Vec<StyledLine>)
        requires
            writable(self@),
        ensures
            lines_view(lines@) == finished_lines(self@),
    {
        let ghost start = self@;
        let mut w = self;
        w.flush();
        let ghost flushed = lines_view(w.lines@);
        let mut lines = w.lines;
        while lines.len() > 0 && width_of(&lines[lines.len() - 1].spans) == 0
            invariant
                trim_blank_end(lines_view(lines@)) == trim_blank_end(flushed),
            decreases lines.len(),
        {
            let ghost before = lines_view(lines@);
            lines.pop();
            proof {
                assert(lines_view(lines@) =~= before.drop_last());
            }
        }
        proof {
            assert(trim_blank_end(lines_view(lines@)) == lines_view(lines@));
        }
        wrap_lines(lines, w.width)
    }
}

/// A markdown document, given as its source and its parser's events with their
/// source ranges, laid out as lines of at most `width` cells: see `spec_render`.
pub fn render(source: &str, items: &Vec<MarkdownItem>, width: usize) -> (lines: Vec<StyledLine>)
    ensures
        lines_view(lines@) == spec_render(source@, items@, width),
{
    let mut w = Writer::new(width);
    let mut image: Option<usize> = None;
    let mut k: usize = 0;
    while k < items.len()
        invariant
            k <= items.len(),
            writable(w@),
            (w@, image) == fold_items(source@, items@.take(k as int), new_writer(width)),
        decreases items.len() - k,
    {
        let item = &items[k];
        proof {
            assert(items@.take(k + 1).drop_last() =~= items@.take(k as int));
            assert(items@.take(k + 1).last() == *item);
        }
        match image {
            Some(start) => {
                if matches!(item.event, MarkdownEvent::End(MarkdownTagEnd::Image)) {
                    let t = source_text(source, start, Some(item.end));
                    w.text(t.as_str(), TextStyle::plain());
                    image = None;
                }
            },
            None => {
                if matches!(item.event, MarkdownEvent::Start(MarkdownTag::Image)) {
                    image = Some(item.start);
                } else {
                    w.event(&item.event);
                }
            },
        }
        k += 1;
    }
    proof {
        assert(items@.take(items.len() as int) =~= items@);
    }
    match image {
        Some(start) => {
            let t = source_text(source, start, None);
            w.text(t.as_str(), TextStyle::plain());
        },
        None => {},
    }
    w.finish()
}

/// The items that pulldown-cmark gives for `source` with tables, strikethrough, task
/// lists and GitHub's extensions on: each event, as a `MarkdownEvent`, with the byte
/// range of the source that it covers.
pub uninterp spec fn markdown_items(source: Seq<char>) -> Seq<MarkdownItem>;

#[verifier::external_type_specification]
#[verifier::external_body]
pub struct ExParserEvent<'a>(ParserEvent<'a>);

#[verifier::external_type_specification]
#[verifier::external_body]
pub struct ExParserTag<'a>(Tag<'a>);

#[verifier::external_type_specification]
#[verifier::external_body]
pub struct ExParserTagEnd(TagEnd);

#[verifier::external_type_specification]
#[verifier::external_body]
pub struct ExParserHeadingLevel(ParserHeadingLevel);

#[verifier::external_type_specification]
#[verifier::external_body]
pub struct ExParserAlignment(ParserAlignment);

/// Calls `pulldown_cmark::Parser::new_ext` with those options and
/// `into_offset_iter`, and converts each event (see `event_of`) and its range. The
/// contract only names the result: it is `markdown_items` of the source.
#[verifier::external_body]
pub fn parse_markdown(source: &str) -> (items: Vec<MarkdownItem>)
    ensures
        items@ == markdown_items(source@),
{
    let options = Options::ENABLE_GFM | Options::ENABLE_TABLES | Options::ENABLE_STRIKETHROUGH
        | Options::ENABLE_TASKLISTS;
    let mut items = Vec::new();
    for (event, range) in Parser::new_ext(source, options).into_offset_iter() {
        items.push(MarkdownItem { event: event_of(event), start: range.start, end: range.end });
    }
    items
}

/// Converts a `pulldown_cmark::Event` into a `MarkdownEvent`, variant for variant
/// (soft and hard breaks alike, block and inline HTML alike); strings are copied.
#[verifier::external_body]
fn event_of(event: ParserEvent<'_>) -> MarkdownEvent {
    match event {
        ParserEvent::Start(tag) => MarkdownEvent::Start(tag_of(tag)),
        ParserEvent::End(end) => MarkdownEvent::End(end_of(end)),
        ParserEvent::Text(text) => MarkdownEvent::Text(text.to_string()),
        ParserEvent::Code(code) => MarkdownEvent::Code(code.to_string()),
        ParserEvent::Html(html) | ParserEvent::InlineHtml(html) => MarkdownEvent::Html(html.to_string()),
        ParserEvent::SoftBreak | ParserEvent::HardBreak => MarkdownEvent::Break,
        ParserEvent::Rule => MarkdownEvent::Rule,
        ParserEvent::TaskListMarker(checked) => MarkdownEvent::TaskListMarker(checked),
        ParserEvent::FootnoteReference(r) => MarkdownEvent::FootnoteReference(r.to_string()),
        ParserEvent::InlineMath(math) => MarkdownEvent::InlineMath(math.to_string()),
        ParserEvent::DisplayMath(math) => MarkdownEvent::DisplayMath(math.to_string()),
    }
}

/// Converts a block `pulldown_cmark::Tag` into a `MarkdownTag`, variant for variant;
/// the others go to `inline_tag_of`.
#[verifier::external_body]
fn tag_of(tag: Tag<'_>) -> MarkdownTag {
    match tag {
        Tag::Paragraph => MarkdownTag::Paragraph,
        Tag::Heading { level, .. } => MarkdownTag::Heading(level_of(level)),
        Tag::BlockQuote(_) => MarkdownTag::BlockQuote,
        Tag::CodeBlock(CodeBlockKind::Fenced(l)) => MarkdownTag::CodeBlock(Some(l.to_string())),
        Tag::CodeBlock(CodeBlockKind::Indented) => MarkdownTag::CodeBlock(None),
        Tag::List(first) => MarkdownTag::List(first),
        Tag::Item => MarkdownTag::Item,
        Tag::Table(a) => MarkdownTag::Table(a.into_iter().map(alignment_of).collect()),
        other => inline_tag_of(other),
    }
}

/// Converts an inline or table-part `pulldown_cmark::Tag` into a `MarkdownTag`,
/// variant for variant; a tag that the layout does not know is `Other`.
#[verifier::external_body]
fn inline_tag_of(tag: Tag<'_>) -> MarkdownTag {
    match tag {
        Tag::Emphasis => MarkdownTag::Emphasis,
        Tag::Strong => MarkdownTag::Strong,
        Tag::Strikethrough => MarkdownTag::Strikethrough,
        Tag::Link { dest_url, .. } => MarkdownTag::Link(dest_url.to_string()),
        Tag::Image { .. } => MarkdownTag::Image,
        Tag::TableHead => MarkdownTag::TableHead,
        Tag::TableRow => MarkdownTag::TableRow,
        Tag::TableCell => MarkdownTag::TableCell,
        _ => MarkdownTag::Other,
    }
}

/// Converts a block `pulldown_cmark::TagEnd` into a `MarkdownTagEnd`, variant for
/// variant; the others go to `inline_end_of`.
#[verifier::external_body]
fn end_of(end: TagEnd) -> MarkdownTagEnd {
    match end {
        TagEnd::Paragraph => MarkdownTagEnd::Paragraph,
        TagEnd::Heading(_) => MarkdownTagEnd::Heading,
        TagEnd::BlockQuote(_) => MarkdownTagEnd::BlockQuote,
        TagEnd::CodeBlock => MarkdownTagEnd::CodeBlock,
        TagEnd::Item => MarkdownTagEnd::Item,
        TagEnd::List(_) => MarkdownTagEnd::List,
        TagEnd::Table => MarkdownTagEnd::Table,
        other => inline_end_of(other),
    }
}

/// Converts an inline or table-part `pulldown_cmark::TagEnd` into a `MarkdownTagEnd`,
/// variant for variant; an end that the layout does not know is `Other`.
#[verifier::external_body]
fn inline_end_of(end: TagEnd) -> MarkdownTagEnd {
    match end {
        TagEnd::Emphasis => MarkdownTagEnd::Emphasis,
        TagEnd::Strong => MarkdownTagEnd::Strong,
        TagEnd::Strikethrough => MarkdownTagEnd::Strikethrough,
        TagEnd::Link => MarkdownTagEnd::Link,
        TagEnd::Image => MarkdownTagEnd::Image,
        TagEnd::TableHead => MarkdownTagEnd::TableHead,
        TagEnd::TableRow => MarkdownTagEnd::TableRow,
        TagEnd::TableCell => MarkdownTagEnd::TableCell,
        _ => MarkdownTagEnd::Other,
    }
}

/// Converts a `ParserHeadingLevel` into a `HeadingLevel`, level for level.
#[verifier::external_body]
fn level_of(level: ParserHeadingLevel) -> HeadingLevel {
    match level {
        ParserHeadingLevel::H1 => HeadingLevel::H1,
        ParserHeadingLevel::H2 => HeadingLevel::H2,
        ParserHeadingLevel::H3 => HeadingLevel::H3,
        ParserHeadingLevel::H4 => HeadingLevel::H4,
        ParserHeadingLevel::H5 => HeadingLevel::H5,
        ParserHeadingLevel::H6 => HeadingLevel::H6,
    }
}

/// Converts a `ParserAlignment` into an `Alignment`; no alignment is
/// `Unspecified`.
#[verifier::external_body]
fn alignment_of(alignment: ParserAlignment) -> Alignment {
    match alignment {
        ParserAlignment::None => Alignment::Unspecified,
        ParserAlignment::Left => Alignment::Left,
        ParserAlignment::Center => Alignment::Center,
        ParserAlignment::Right => Alignment::Right,
    }
}

/// A markdown document laid out as lines of at most `width` cells: pulldown-cmark's
/// items for it, written as `spec_render` says.
pub fn render_markdown(source: &str, width: usize) -> (lines: Vec<StyledLine>)
    ensures
        lines_view(lines@) == spec_render(source@, markdown_items(source@), width),
{
    let items = parse_markdown(source);
    render(source, &items, width)
}

/// Paragraphs are set apart: when a paragraph ends with text in its last line and the
/// next paragraph starts (outside any list or table), the last line is finished and
/// exactly one empty line follows it before anything of the next paragraph.
pub proof fn lemma_paragraphs_are_separated(w: WriterView)
    requires
        w.table is None,
        w.lists.len() == 0,
        measured(w.current) > 0,
    ensures
        ({
            let next = apply_event(
                apply_event(w, MarkdownEvent::End(MarkdownTagEnd::Paragraph)),
                MarkdownEvent::Start(MarkdownTag::Paragraph),
            );
            &&& next.lines == w.lines + seq![
                line_of(w.current, plain_style()),
                line_of(seq![], plain_style()),
            ]
            &&& next.current.len() == 0
        }),
{
    assert(w.current.len() > 0);
    let e = apply_event(w, MarkdownEvent::End(MarkdownTagEnd::Paragraph));
    assert(e.lines == w.lines.push(line_of(w.current, plain_style())));
    assert(e.lines.last() == line_of(w.current, plain_style()));
    let next = apply_event(e, MarkdownEvent::Start(MarkdownTag::Paragraph));
    assert(next.lines =~= w.lines + seq![
        line_of(w.current, plain_style()),
        line_of(seq![], plain_style()),
    ]);
}

} // verus!
