//! What the chat pane shows: every entry of the conversation as lines, an empty line
//! between entries, and the reply being streamed with a cursor after it.
use vstd::prelude::*;

use crate::chat::ChatEntry;
use crate::markdown::{
    blank, blank_span, dim_style, duplicate_spans, line_of, lines_view, literal, literal_lines,
    markdown_items, measured, plain_style, push_line, push_lines, push_span, render_markdown,
    span_of, spec_render, width_of, wrap_lines, wrapped_all, LineView, StyledLine,
    StyledSpan, TextStyle, Tint,
};
use crate::text::concat;

verus! {

/// Plain text in colour `fg`, bold or not.
pub open spec fn tinted(fg: Tint, bold: bool) -> TextStyle {
    TextStyle { fg, bold, ..plain_style() }
}

/// Reversed video only.
pub open spec fn reversed_style() -> TextStyle {
    TextStyle { reversed: true, ..plain_style() }
}

/// The lines, or one empty line if there are none.
pub open spec fn some_line(lines: Seq<LineView>) -> Seq<LineView> {
    if lines.len() == 0 {
        seq![line_of(seq![], plain_style())]
    } else {
        lines
    }
}

/// Each line filled with spaces to `width` cells and shown in reverse video.
pub open spec fn reversed_lines(lines: Seq<LineView>, width: int) -> Seq<LineView> {
    let ls = some_line(lines);
    Seq::new(
        ls.len(),
        |i: int|
            line_of(
                ls[i].spans.push(
                    blank(
                        if width >= measured(ls[i].spans) {
                            width - measured(ls[i].spans)
                        } else {
                            0
                        },
                    ),
                ),
                reversed_style(),
            ),
    )
}

/// Each line over `style`.
pub open spec fn restyled(lines: Seq<LineView>, style: TextStyle) -> Seq<LineView> {
    lines.map_values(|l: LineView| line_of(l.spans, style))
}

/// `text` as plain wrapped lines over `style`.
pub open spec fn literal_entry(text: Seq<char>, width: usize, style: TextStyle) -> Seq<LineView> {
    restyled(wrapped_all(literal_lines(text), crate::markdown::at_least_one(width as int)), style)
}

/// The lines of one entry: the user's words in reverse video, the assistant's as
/// markdown, tool calls, results, errors and notes as tinted plain text.
#[verifier::opaque]
pub open spec fn entry_lines(e: ChatEntry, width: usize) -> Seq<LineView> {
    match e {
        ChatEntry::User(t) => reversed_lines(
            spec_render(t@, markdown_items(t@), width),
            width as int,
        ),
        ChatEntry::Assistant(t) => spec_render(t@, markdown_items(t@), width),
        ChatEntry::ToolCall { name, arguments } => literal_entry(
            "[tool] "@ + name@ + "("@ + arguments@ + ")"@,
            width,
            tinted(Tint::Yellow, true),
        ),
        ChatEntry::ToolResult { name, output } => literal_entry(
            "[result] "@ + name@ + ": "@ + output@,
            width,
            tinted(Tint::Magenta, false),
        ),
        ChatEntry::Error(message) => literal_entry(
            "[error] "@ + message@,
            width,
            tinted(Tint::Red, true),
        ),
        ChatEntry::Activity(message) => literal_entry(
            "[activity] "@ + message@,
            width,
            tinted(Tint::DarkGray, false),
        ),
    }
}

/// The first `k` entries, each followed by an empty line.
pub open spec fn chat_body(
    entries: Seq<ChatEntry>,
    width: usize,
    k: int,
) -> Seq<LineView>
    decreases k,
{
    if k <= 0 {
        seq![]
    } else {
        chat_body(entries, width, k - 1) + some_line(
            entry_lines(entries[k - 1], width),
        ) + seq![line_of(seq![], plain_style())]
    }
}

/// The reply being streamed: its markdown with a dim cursor after the last line,
/// wrapped again.
pub open spec fn streaming_lines(text: Seq<char>, width: usize) -> Seq<
    LineView,
> {
    let ls = some_line(spec_render(text, markdown_items(text), width));
    let last = ls.last();
    wrapped_all(
        ls.update(ls.len() - 1, line_of(last.spans.push(span_of(seq!['▌'], dim_style())), last.style)),
        width as int,
    )
}

/// The chat pane's lines for `width` cells (at least one): the entries, an empty line
/// after each, then the reply being streamed; with nothing streaming, the last empty
/// line goes.
pub open spec fn spec_chat_lines(
    entries: Seq<ChatEntry>,
    streaming: Seq<char>,
    width: usize,
) -> Seq<LineView> {
    let w = crate::markdown::at_least_one(width as int) as usize;
    let body = chat_body(entries, w, entries.len() as int);
    if streaming.len() > 0 {
        body + streaming_lines(streaming, w)
    } else if body.len() > 0 {
        body.drop_last()
    } else {
        body
    }
}

/// The lines, or one empty line if there are none.
fn some_line_of(lines: Vec<StyledLine>) -> (r: Vec<StyledLine>)
    ensures
        lines_view(r@) == some_line(lines_view(lines@)),
{
    let mut r = lines;
    if r.len() == 0 {
        push_line(&mut r, StyledLine::empty(TextStyle::plain()));
        proof {
            assert(lines_view(r@) =~= some_line(lines_view(Seq::<StyledLine>::empty())));
        }
    }
    r
}

/// Each line filled to `width` cells, in reverse video.
fn reverse(lines: Vec<StyledLine>, width: usize) -> (r: Vec<StyledLine>)
    ensures
        lines_view(r@) == reversed_lines(lines_view(lines@), width as int),
{
    let ls = some_line_of(lines);
    let ghost want = reversed_lines(lines_view(lines@), width as int);
    let mut r: Vec<StyledLine> = Vec::new();
    let mut i: usize = 0;
    while i < ls.len()
        invariant
            i <= ls.len(),
            lines_view(ls@) == some_line(lines_view(lines@)),
            want == reversed_lines(lines_view(lines@), width as int),
            lines_view(r@) == want.take(i as int),
        decreases ls.len() - i,
    {
        let w = width_of(&ls[i].spans);
        let mut spans = duplicate_spans(&ls[i].spans);
        push_span(&mut spans, blank_span(width.saturating_sub(w)));
        let l = StyledLine { spans, style: TextStyle { reversed: true, ..TextStyle::plain() } };
        proof {
            assert(lines_view(ls@)[i as int] == ls@[i as int]@);
            assert(want.take(i + 1) =~= want.take(i as int).push(l@));
        }
        push_line(&mut r, l);
        i += 1;
    }
    proof {
        assert(want.take(ls.len() as int) =~= want);
    }
    r
}

/// `text` as plain wrapped lines over `style`.
fn literal_entry_of(text: &str, width: usize, style: TextStyle) -> (r: Vec<StyledLine>)
    ensures
        lines_view(r@) == literal_entry(text@, width, style),
{
    let ls = literal(text, width);
    let ghost want = literal_entry(text@, width, style);
    let mut r: Vec<StyledLine> = Vec::new();
    let mut i: usize = 0;
    while i < ls.len()
        invariant
            i <= ls.len(),
            lines_view(ls@) == wrapped_all(literal_lines(text@), crate::markdown::at_least_one(width as int)),
            want == literal_entry(text@, width, style),
            lines_view(r@) == want.take(i as int),
        decreases ls.len() - i,
    {
        let l = StyledLine { spans: duplicate_spans(&ls[i].spans), style };
        proof {
            assert(lines_view(ls@)[i as int] == ls@[i as int]@);
            assert(want.take(i + 1) =~= want.take(i as int).push(l@));
        }
        push_line(&mut r, l);
        i += 1;
    }
    proof {
        assert(want.take(ls.len() as int) =~= want);
    }
    r
}

/// The lines of one entry: see `entry_lines`.
fn entry_lines_of(e: &ChatEntry, width: usize) -> (r: Vec<StyledLine>)
    ensures
        lines_view(r@) == entry_lines(*e, width),
{
    reveal(entry_lines);
    match e {
        ChatEntry::User(t) => reverse(render_markdown(t.as_str(), width), width),
        ChatEntry::Assistant(t) => render_markdown(t.as_str(), width),
        ChatEntry::ToolCall { name, arguments } => {
            let a = concat("[tool] ", name.as_str());
            let b = concat(a.as_str(), "(");
            let c = concat(b.as_str(), arguments.as_str());
            let d = concat(c.as_str(), ")");
            literal_entry_of(d.as_str(), width, TextStyle { fg: Tint::Yellow, bold: true, ..TextStyle::plain() })
        },
        ChatEntry::ToolResult { name, output } => {
            let a = concat("[result] ", name.as_str());
            let b = concat(a.as_str(), ": ");
            let c = concat(b.as_str(), output.as_str());
            literal_entry_of(c.as_str(), width, TextStyle { fg: Tint::Magenta, ..TextStyle::plain() })
        },
        ChatEntry::Error(message) => {
            let a = concat("[error] ", message.as_str());
            literal_entry_of(a.as_str(), width, TextStyle { fg: Tint::Red, bold: true, ..TextStyle::plain() })
        },
        ChatEntry::Activity(message) => {
            let a = concat("[activity] ", message.as_str());
            literal_entry_of(a.as_str(), width, TextStyle { fg: Tint::DarkGray, ..TextStyle::plain() })
        },
    }
}

/// The reply being streamed: see `streaming_lines`.
fn streaming_of(text: &str, width: usize) -> (r: Vec<StyledLine>)
    requires
        width >= 1,
    ensures
        lines_view(r@) == streaming_lines(text@, width),
{
    let mut more = some_line_of(render_markdown(text, width));
    let ghost ls = lines_view(more@);
    let n = more.len();
    let last = more.pop().unwrap();
    let mut spans = last.spans;
    let mut cursor = String::new();
    crate::text::push_char(&mut cursor, '▌');
    proof {
        assert(cursor@ =~= seq!['▌']);
    }
    push_span(&mut spans, StyledSpan { text: cursor, style: TextStyle::dim() });
    push_line(&mut more, StyledLine { spans, style: last.style });
    proof {
        assert(lines_view(more@) =~= ls.update(
            n - 1,
            line_of(ls.last().spans.push(span_of(seq!['▌'], dim_style())), ls.last().style),
        ));
    }
    wrap_lines(more, width)
}

/// The chat pane's lines: see `spec_chat_lines`.
pub fn chat_lines(
    entries: &Vec<ChatEntry>,
    streaming: &str,
    width: usize,
) -> (lines: Vec<StyledLine>)
    ensures
        lines_view(lines@) == spec_chat_lines(entries@, streaming@, width),
{
    let w: usize = if width < 1 {
        1
    } else {
        width
    };
    let mut lines: Vec<StyledLine> = Vec::new();
    let mut k: usize = 0;
    while k < entries.len()
        invariant
            k <= entries.len(),
            w as int == crate::markdown::at_least_one(width as int),
            lines_view(lines@) == chat_body(entries@, w, k as int),
        decreases entries.len() - k,
    {
        let entry = some_line_of(entry_lines_of(&entries[k], w));
        push_lines(&mut lines, entry);
        push_line(&mut lines, StyledLine::empty(TextStyle::plain()));
        k += 1;
    }
    if !streaming.is_empty() {
        push_lines(&mut lines, streaming_of(streaming, w));
    } else if lines.len() > 0 {
        let ghost before = lines_view(lines@);
        lines.pop();
        proof {
            assert(lines_view(lines@) =~= before.drop_last());
        }
    }
    lines
}

} // verus!
