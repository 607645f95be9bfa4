//! The chat screen's layout decisions: how tall the input is, how far each pane
//! scrolls, what the status bar and the input's title say, and where the cursor is
//! drawn in its row.
use vstd::prelude::*;

use crate::text::{concat, decimal, decimal_string, string_from_range};

verus! {

/// The height of the input pane: five rows for a confirmation; otherwise the draft's
/// rows plus the borders, at least three, and at most a third of the screen (but never
/// below three).
pub open spec fn spec_input_height(confirming: bool, rows: u16, screen_height: u16) -> u16 {
    if confirming {
        5
    } else {
        let wanted = if rows + 2 < 3 {
            3
        } else {
            (rows + 2) as u16
        };
        let third = if screen_height / 3 < 3 {
            3
        } else {
            (screen_height / 3) as u16
        };
        if wanted < third {
            wanted
        } else {
            third
        }
    }
}

/// The height of the input pane, given whether a confirmation is shown, how many rows
/// the draft takes and the screen's height.
pub fn input_height(confirming: bool, rows: u16, screen_height: u16) -> (h: u16)
    requires
        confirming || rows <= u16::MAX - 2,
    ensures
        h == spec_input_height(confirming, rows, screen_height),
        3 <= h,
{
    if confirming {
        return 5;
    }
    let wanted = if rows + 2 < 3 {
        3
    } else {
        rows + 2
    };
    let third = if screen_height / 3 < 3 {
        3
    } else {
        screen_height / 3
    };
    if wanted < third {
        wanted
    } else {
        third
    }
}

/// How far the chat scrolls from its top: to the bottom, less the lines the user
/// scrolled up, never above the top. Counts are capped at `u16::MAX`.
pub open spec fn spec_chat_scroll(content_lines: usize, pane_height: u16, offset: usize) -> u16 {
    let content = if content_lines > u16::MAX {
        u16::MAX as int
    } else {
        content_lines as int
    };
    let bottom = if content > pane_height {
        content - pane_height
    } else {
        0
    };
    let up = if offset > u16::MAX {
        u16::MAX as int
    } else {
        offset as int
    };
    (if bottom > up {
        bottom - up
    } else {
        0
    }) as u16
}

/// How far the chat scrolls from its top.
pub fn chat_scroll(content_lines: usize, pane_height: u16, offset: usize) -> (s: u16)
    ensures
        s == spec_chat_scroll(content_lines, pane_height, offset),
{
    let content: u16 = if content_lines > 65535 {
        65535
    } else {
        content_lines as u16
    };
    let bottom: u16 = if content > pane_height {
        content - pane_height
    } else {
        0
    };
    let up: u16 = if offset > 65535 {
        65535
    } else {
        offset as u16
    };
    if bottom > up {
        bottom - up
    } else {
        0
    }
}

/// How far the draft scrolls so that the cursor's row stays in view: the cursor row
/// less the rows that fit below the top, never negative.
pub open spec fn spec_input_scroll(cursor_row: usize, pane_height: u16) -> u16 {
    let viewport = if pane_height < 2 {
        0
    } else {
        pane_height - 2
    };
    let keep = if viewport < 1 {
        0
    } else {
        viewport - 1
    };
    (if cursor_row > keep {
        cursor_row - keep
    } else {
        0
    }) as u16
}

/// How far the draft scrolls so that the cursor's row stays in view.
pub fn input_scroll(cursor_row: usize, pane_height: u16) -> (s: u16)
    ensures
        s == spec_input_scroll(cursor_row, pane_height),
{
    let viewport: usize = if pane_height < 2 {
        0
    } else {
        (pane_height - 2) as usize
    };
    let keep: usize = if viewport < 1 {
        0
    } else {
        viewport - 1
    };
    let rows: usize = if cursor_row > keep {
        cursor_row - keep
    } else {
        0
    };
    rows as u16
}

/// The draft's pane grows with the draft, one row per row of text plus the borders,
/// from three rows up to a third of the screen (or three, on a short screen), and no
/// further.
pub proof fn lemma_input_pane_grows_to_a_third(rows: u16, screen_height: u16)
    requires
        rows <= u16::MAX - 2,
    ensures
        3 <= spec_input_height(false, rows, screen_height),
        spec_input_height(false, rows, screen_height) <= (if screen_height / 3 < 3 {
            3
        } else {
            screen_height / 3
        }),
        3 <= rows + 2 <= screen_height / 3 ==> spec_input_height(false, rows, screen_height) == rows
            + 2,
{
}

/// The cursor's row is always in view: the draft scrolls no further than the cursor's
/// row, and far enough that the row is within the pane's inner height (when the pane
/// has room for a row and the scroll fits a `u16`).
pub proof fn lemma_cursor_row_in_view(cursor_row: usize, pane_height: u16)
    requires
        pane_height >= 3,
        cursor_row < u16::MAX,
    ensures
        spec_input_scroll(cursor_row, pane_height) <= cursor_row,
        cursor_row < spec_input_scroll(cursor_row, pane_height) + (pane_height - 2),
{
}

/// The right side of the status bar.
pub open spec fn spec_status(confirming: bool, running: bool, tokens: u32) -> Seq<char> {
    if confirming {
        " awaiting confirmation... "@
    } else if running {
        " thinking... "@
    } else {
        " tokens: "@ + decimal(tokens as nat) + " "@
    }
}

/// The right side of the status bar: waiting for a confirmation, thinking, or the
/// input tokens of the last request.
pub fn status_text(confirming: bool, running: bool, tokens: u32) -> (s: String)
    ensures
        s@ == spec_status(confirming, running, tokens),
{
    if confirming {
        String::from_str(" awaiting confirmation... ")
    } else if running {
        String::from_str(" thinking... ")
    } else {
        let mut s = concat(" tokens: ", decimal_string(tokens as u64).as_str());
        s.append(" ");
        s
    }
}

/// The model part of the status bar.
pub fn model_text(model_id: &str) -> (s: String)
    ensures
        s@ == " model: "@ + model_id@ + " "@,
{
    let mut s = concat(" model: ", model_id);
    s.append(" ");
    s
}

/// The key that inserts a line break in the draft.
pub open spec fn newline_key(shift_enter_supported: bool) -> Seq<char> {
    if shift_enter_supported {
        "Shift+Enter"@
    } else {
        "Ctrl+J"@
    }
}

/// The input pane's title: how to insert a line break, and whether a turn runs.
pub open spec fn spec_input_title(shift_enter_supported: bool, running: bool) -> Seq<char> {
    if running {
        " Input ("@ + newline_key(shift_enter_supported) + " for newline, waiting...) "@
    } else {
        " Input ("@ + newline_key(shift_enter_supported) + " for newline) "@
    }
}

/// The input pane's title.
pub fn input_title(shift_enter_supported: bool, running: bool) -> (s: String)
    ensures
        s@ == spec_input_title(shift_enter_supported, running),
{
    let key = if shift_enter_supported {
        "Shift+Enter"
    } else {
        "Ctrl+J"
    };
    let mut s = concat(" Input (", key);
    if running {
        s.append(" for newline, waiting...) ");
    } else {
        s.append(" for newline) ");
    }
    s
}

/// The confirmation pane's title: the tool and its arguments.
pub fn confirmation_title(name: &str, arguments: &str) -> (s: String)
    ensures
        s@ == " "@ + name@ + "("@ + arguments@ + ") "@,
{
    let mut s = concat(" ", name);
    s.append("(");
    s.append(arguments);
    s.append(") ");
    s
}

/// The marker before a choice of the confirmation pane.
pub fn choice_marker(selected: bool) -> (s: &'static str)
    ensures
        s@ == (if selected {
            "> "@
        } else {
            "  "@
        }),
{
    if selected {
        "> "
    } else {
        "  "
    }
}

/// How the row `start..end` of the draft that holds the cursor is drawn: the text
/// before the cursor, the character under it (a space at the row's end) and the rest.
pub struct CursorRow {
    pub before: String,
    pub under: char,
    pub after: String,
}

/// Where the cursor is drawn in the row `start..end`: clamped into it.
pub open spec fn clamp_cursor(cursor: int, start: int, end: int) -> int {
    if cursor < start {
        start
    } else if cursor > end {
        end
    } else {
        cursor
    }
}

/// Splits the row `start..end` of `chars` at the cursor.
pub fn cursor_row(chars: &Vec<char>, start: usize, end: usize, cursor: usize) -> (r: CursorRow)
    requires
        start <= end <= chars@.len(),
    ensures
        ({
            let c = clamp_cursor(cursor as int, start as int, end as int);
            &&& r.before@ == chars@.subrange(start as int, c)
            &&& r.under == (if c < end {
                chars@[c]
            } else {
                ' '
            })
            &&& r.after@ == chars@.subrange(if c < end { c + 1 } else { end as int }, end as int)
        }),
{
    let c = if cursor < start {
        start
    } else if cursor > end {
        end
    } else {
        cursor
    };
    let before = string_from_range(chars, start, c);
    let under = if c < end {
        chars[c]
    } else {
        ' '
    };
    let after_start = if c < end {
        c + 1
    } else {
        end
    };
    let after = string_from_range(chars, after_start, end);
    CursorRow { before, under, after }
}

} // verus!
