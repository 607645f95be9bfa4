//! The draft editor: a character buffer with a cursor, soft wrapping for display
//! and cursor movement across wrapped rows.
use std::ops::Range;

use vstd::prelude::*;

use crate::text::{
    all_white_space, char_width, chars_of, display_width, is_all_white_space, is_white_space,
    line_width, string_from_chars, string_from_range, white_space,
};

verus! {

/// The abstract state of a draft: its characters and the cursor, counted in characters.
pub struct DraftState {
    pub text: Seq<char>,
    pub cursor: int,
}

/// The draft after `ch` is inserted at the cursor.
pub open spec fn spec_insert(s: DraftState, ch: char) -> DraftState {
    DraftState {
        text: s.text.take(s.cursor) + seq![ch] + s.text.skip(s.cursor),
        cursor: s.cursor + 1,
    }
}

/// The draft after `t` is inserted at the cursor.
pub open spec fn spec_insert_str(s: DraftState, t: Seq<char>) -> DraftState {
    DraftState { text: s.text.take(s.cursor) + t + s.text.skip(s.cursor), cursor: s.cursor + t.len() }
}

/// The draft after a backspace: the character before the cursor is removed.
pub open spec fn spec_backspace(s: DraftState) -> DraftState {
    if s.cursor == 0 {
        s
    } else {
        DraftState { text: s.text.remove(s.cursor - 1), cursor: s.cursor - 1 }
    }
}

/// The draft after the cursor moves one character left, stopping at 0.
pub open spec fn spec_move_left(s: DraftState) -> DraftState {
    if s.cursor > 0 {
        DraftState { cursor: s.cursor - 1, ..s }
    } else {
        s
    }
}

/// The draft after the cursor moves one character right, stopping at the end.
pub open spec fn spec_move_right(s: DraftState) -> DraftState {
    if s.cursor < s.text.len() {
        DraftState { cursor: s.cursor + 1, ..s }
    } else {
        s
    }
}

/// Soft-wrapping state after the first `i` characters of `chars` were laid out:
/// the finished rows, the start of the open row and the width used in it.
pub struct WrapState {
    pub rows: Seq<(int, int)>,
    pub start: int,
    pub column: int,
}

/// Lays out `chars[..i]` in rows of `width` cells: an explicit line break ends a row
/// (the break belongs to no row), and a character that would not fit in a non-empty
/// row starts the next one.
pub open spec fn wrap_prefix(chars: Seq<char>, width: int, i: int) -> WrapState
    decreases i,
{
    if i <= 0 {
        WrapState { rows: seq![], start: 0, column: 0 }
    } else {
        let s = wrap_prefix(chars, width, i - 1);
        let idx = i - 1;
        let ch = chars[idx];
        if ch == '\n' {
            WrapState { rows: s.rows.push((s.start, idx)), start: idx + 1, column: 0 }
        } else {
            let w = char_width(ch) as int;
            if s.column > 0 && s.column + w > width {
                WrapState { rows: s.rows.push((s.start, idx)), start: idx, column: w }
            } else {
                WrapState { column: s.column + w, ..s }
            }
        }
    }
}

/// The visible rows of a draft at `width` cells (at least one), as character ranges.
/// A full last row with the cursor at the end gets an empty row after it.
pub open spec fn spec_visual_rows(chars: Seq<char>, cursor: int, width: int) -> Seq<(int, int)> {
    let width = if width < 1 { 1 } else { width };
    let s = wrap_prefix(chars, width, chars.len() as int);
    let rows = s.rows.push((s.start, chars.len() as int));
    if s.column >= width && cursor == chars.len() {
        rows.push((chars.len() as int, chars.len() as int))
    } else {
        rows
    }
}

/// The last row whose range holds the cursor (row 0 if none does).
pub open spec fn cursor_row(rows: Seq<(int, int)>, cursor: int, k: int) -> int
    decreases k,
{
    if k <= 0 {
        0
    } else if rows[k - 1].0 <= cursor <= rows[k - 1].1 {
        k - 1
    } else {
        cursor_row(rows, cursor, k - 1)
    }
}

/// The cursor's visual row and the display width of its row up to the cursor.
pub open spec fn spec_cursor_position(s: DraftState, width: int) -> (int, int) {
    let rows = spec_visual_rows(s.text, s.cursor, width);
    let row = cursor_row(rows, s.cursor, rows.len() as int);
    let start = rows[row].0;
    let end = if s.cursor < start { start } else { s.cursor };
    (row, line_width(s.text.subrange(start, end)) as int)
}

/// How many leading characters of `chars[i..end]` fit, one by one, within `column`
/// cells when `used` cells are taken already.
pub open spec fn fitting(chars: Seq<char>, i: int, end: int, used: int, column: int) -> int
    decreases end - i,
{
    if i >= end {
        0
    } else if used + char_width(chars[i]) > column {
        0
    } else {
        1 + fitting(chars, i + 1, end, used + char_width(chars[i]), column)
    }
}

/// The draft after the cursor moves `direction` visual rows at `width` cells, keeping
/// its display column where the target row allows.
pub open spec fn spec_move_vertical(s: DraftState, width: int, direction: int) -> DraftState {
    let rows = spec_visual_rows(s.text, s.cursor, width);
    let (row, column) = spec_cursor_position(s, width);
    let moved = if row + direction < 0 { 0 } else { row + direction };
    let target = if moved > rows.len() - 1 { rows.len() - 1 } else { moved };
    if target == row {
        s
    } else {
        let (start, end) = rows[target];
        DraftState { cursor: start + fitting(s.text, start, end, 0, column), ..s }
    }
}

/// Where the `$name` being typed before position `k` starts: the nearest `$` before
/// `k` with no white space between it and `k`.
pub open spec fn dollar_start(text: Seq<char>, k: int) -> Option<int>
    decreases k,
{
    if k <= 0 {
        None
    } else if text[k - 1] == '$' {
        Some(k - 1)
    } else if is_white_space(text[k - 1]) {
        None
    } else {
        dollar_start(text, k - 1)
    }
}

/// The partial skill name typed after a `$` right before the cursor, if any.
pub open spec fn spec_dollar_query(s: DraftState) -> Option<Seq<char>> {
    match dollar_start(s.text, s.cursor) {
        Some(j) => Some(s.text.subrange(j + 1, s.cursor)),
        None => None,
    }
}

/// The draft after the partial `$name` before the cursor is completed to `$name `,
/// with the cursor after the space; without a partial name the draft is unchanged.
pub open spec fn spec_complete_dollar(s: DraftState, name: Seq<char>) -> DraftState {
    match dollar_start(s.text, s.cursor) {
        Some(j) => DraftState {
            text: s.text.take(j + 1) + name + seq![' '] + s.text.skip(s.cursor),
            cursor: j + 2 + name.len(),
        },
        None => s,
    }
}

/// A simple UTF-8 aware line-editor buffer with a cursor position (in chars).
pub struct InputBuffer {
    buf: Vec<char>,
    cursor: usize,
}

impl View for InputBuffer {
    type V = DraftState;

    closed spec fn view(&self) -> DraftState {
        DraftState { text: self.buf@, cursor: self.cursor as int }
    }
}

impl InputBuffer {
    #[verifier::type_invariant]
    spec fn cursor_in_text(&self) -> bool {
        self.cursor <= self.buf.len()
    }

    /// Moves the characters out (the draft is left empty) and returns them with the cursor.
    fn detach(&mut self) -> (r: (Vec<char>, usize))
        ensures
            r.0@ == old(self)@.text,
            r.1 as int == old(self)@.cursor,
            r.1 <= r.0@.len(),
            final(self)@.text == Seq::<char>::empty(),
            final(self)@.cursor == 0,
    {
        proof {
            use_type_invariant(&*self);
        }
        let cursor = self.cursor;
        self.cursor = 0;
        let mut buf: Vec<char> = Vec::new();
        std::mem::swap(&mut buf, &mut self.buf);
        (buf, cursor)
    }

    /// Installs `buf` with the cursor at `cursor`.
    fn attach(&mut self, buf: Vec<char>, cursor: usize)
        requires
            old(self)@.cursor == 0,
            cursor <= buf@.len(),
        ensures
            final(self)@.text == buf@,
            final(self)@.cursor == cursor,
    {
        self.buf = buf;
        self.cursor = cursor;
    }

    /// An empty draft with the cursor at 0.
    pub fn new() -> (b: Self)
        ensures
            b@.text == Seq::<char>::empty(),
            b@.cursor == 0,
    {
        Self { buf: Vec::new(), cursor: 0 }
    }

    /// The cursor never leaves the draft.
    pub fn cursor_bound(&self)
        ensures
            0 <= self@.cursor <= self@.text.len(),
    {
        proof {
            use_type_invariant(self);
        }
    }

    /// Insert a character at the current cursor position, then advance the cursor.
    pub fn insert(&mut self, ch: char)
        ensures
            final(self)@ == spec_insert(old(self)@, ch),
    {
        proof {
            use_type_invariant(&*self);
        }
        let (mut buf, cursor) = self.detach();
        let ghost old_text = buf@;
        buf.insert(cursor, ch);
        let new_len = buf.len();
        proof {
            assert(buf@ =~= old_text.take(cursor as int) + seq![ch] + old_text.skip(cursor as int));
        }
        self.attach(buf, cursor + 1);
    }

    /// Insert pasted text at the current cursor position.
    pub fn insert_str(&mut self, text: &str)
        ensures
            final(self)@ == spec_insert_str(old(self)@, text@),
    {
        proof {
            use_type_invariant(&*self);
        }
        let chars = chars_of(text);
        let (mut buf, mut cursor) = self.detach();
        let ghost old_text = buf@;
        let ghost c0 = cursor as int;
        let mut i: usize = 0;
        while i < chars.len()
            invariant
                i <= chars.len(),
                chars@ == text@,
                0 <= c0 <= old_text.len(),
                cursor == c0 + i,
                buf@ == old_text.take(c0) + chars@.take(i as int) + old_text.skip(c0),
            decreases chars.len() - i,
        {
            let ghost before = buf@;
            buf.insert(cursor, chars[i]);
            let new_len = buf.len();
            cursor = cursor + 1;
            proof {
                assert(old_text.take(c0).len() == c0);
                assert(chars@.take(i as int).len() == i);
                assert(before.take(c0 + i) =~= old_text.take(c0) + chars@.take(i as int));
                assert(before.skip(c0 + i) =~= old_text.skip(c0));
                assert(buf@ =~= old_text.take(c0) + chars@.take(i + 1) + old_text.skip(c0));
            }
            i += 1;
        }
        proof {
            assert(chars@.take(chars.len() as int) =~= chars@);
        }
        self.attach(buf, cursor);
    }

    /// Delete the character immediately before the cursor (backspace semantics).
    /// Does nothing when the cursor is at position 0.
    pub fn backspace(&mut self)
        ensures
            final(self)@ == spec_backspace(old(self)@),
    {
        proof {
            use_type_invariant(&*self);
        }
        if self.cursor == 0 {
            return;
        }
        let (mut buf, cursor) = self.detach();
        buf.remove(cursor - 1);
        self.attach(buf, cursor - 1);
    }

    /// Move the cursor one character to the left (clamped to 0).
    pub fn move_left(&mut self)
        ensures
            final(self)@ == spec_move_left(old(self)@),
    {
        proof {
            use_type_invariant(&*self);
        }
        if self.cursor > 0 {
            self.cursor = self.cursor - 1;
        }
    }

    /// Move the cursor one character to the right (clamped to buffer length).
    pub fn move_right(&mut self)
        ensures
            final(self)@ == spec_move_right(old(self)@),
    {
        proof {
            use_type_invariant(&*self);
        }
        if self.cursor < self.buf.len() {
            self.cursor = self.cursor + 1;
        }
    }

    /// Move the cursor up by one visually wrapped row.
    pub fn move_up(&mut self, width: usize)
        ensures
            final(self)@ == spec_move_vertical(old(self)@, width as int, -1),
    {
        self.move_vertical(width, -1);
    }

    /// Move the cursor down by one visually wrapped row.
    pub fn move_down(&mut self, width: usize)
        ensures
            final(self)@ == spec_move_vertical(old(self)@, width as int, 1),
    {
        self.move_vertical(width, 1);
    }

    /// The current content.
    pub fn content(&self) -> (s: String)
        ensures
            s@ == self@.text,
    {
        string_from_chars(&self.buf)
    }

    /// The current cursor position (in chars).
    pub fn cursor(&self) -> (c: usize)
        ensures
            c == self@.cursor,
    {
        self.cursor
    }

    /// Whether the draft holds only white space (so it must not be submitted).
    pub fn is_blank(&self) -> (b: bool)
        ensures
            b == all_white_space(self@.text),
    {
        is_all_white_space(&self.buf)
    }

    /// Character ranges for each visible row at the given terminal width.
    pub fn visual_rows(&self, width: usize) -> (rows: Vec<Range<usize>>)
        ensures
            rows@.len() == spec_visual_rows(self@.text, self@.cursor, width as int).len(),
            forall|k: int|
                0 <= k < rows@.len() ==> (#[trigger] rows@[k]).start as int == spec_visual_rows(
                    self@.text,
                    self@.cursor,
                    width as int,
                )[k].0 && rows@[k].end as int == spec_visual_rows(
                    self@.text,
                    self@.cursor,
                    width as int,
                )[k].1,
    {
        let width = if width < 1 { 1 } else { width };
        let ghost w = width as int;
        let mut rows: Vec<Range<usize>> = Vec::new();
        let mut start: usize = 0;
        let mut column: usize = 0;
        let n = self.buf.len();
        let mut index: usize = 0;
        while index < n
            invariant
                n == self.buf@.len(),
                index <= n,
                w == width as int,
                width >= 1,
                wrap_prefix(self.buf@, w, index as int).start == start as int,
                wrap_prefix(self.buf@, w, index as int).column == column as int,
                wrap_prefix(self.buf@, w, index as int).rows.len() == rows@.len(),
                forall|k: int|
                    0 <= k < rows@.len() ==> (#[trigger] rows@[k]).start as int == wrap_prefix(
                        self.buf@,
                        w,
                        index as int,
                    ).rows[k].0 && rows@[k].end as int == wrap_prefix(
                        self.buf@,
                        w,
                        index as int,
                    ).rows[k].1,
                start <= index,
            decreases n - index,
        {
            let ch = self.buf[index];
            if ch == '\n' {
                rows.push(start..index);
                start = index + 1;
                column = 0;
            } else {
                let one = vec![ch];
                let piece = string_from_chars(&one);
                let char_width = display_width(piece.as_str());
                proof {
                    assert(piece@ =~= seq![ch]);
                }
                if column > 0 && (char_width > width || column > width - char_width) {
                    rows.push(start..index);
                    start = index;
                    column = char_width;
                } else {
                    column = column + char_width;
                }
            }
            index += 1;
        }
        rows.push(start..n);
        if column >= width && self.cursor == n {
            rows.push(n..n);
        }
        rows
    }

    /// The cursor's visual row and display-cell column.
    pub fn cursor_position(&self, width: usize) -> (p: (usize, usize))
        ensures
            p.0 as int == spec_cursor_position(self@, width as int).0,
            p.1 as int == spec_cursor_position(self@, width as int).1,
    {
        proof {
            use_type_invariant(self);
        }
        let rows = self.visual_rows(width);
        let ghost srows = spec_visual_rows(self@.text, self@.cursor, width as int);
        let mut k: usize = rows.len();
        let mut row: usize = 0;
        let mut found = false;
        while k > 0 && !found
            invariant
                k <= rows@.len(),
                rows@.len() == srows.len(),
                forall|j: int|
                    0 <= j < rows@.len() ==> (#[trigger] rows@[j]).start as int == srows[j].0
                        && rows@[j].end as int == srows[j].1,
                !found ==> row == 0,
                found ==> row as int == cursor_row(srows, self.cursor as int, srows.len() as int),
                !found ==> cursor_row(srows, self.cursor as int, srows.len() as int) == cursor_row(
                    srows,
                    self.cursor as int,
                    k as int,
                ),
            decreases k + (if found { 0int } else { 1int }),
        {
            if rows[k - 1].start <= self.cursor && self.cursor <= rows[k - 1].end {
                row = k - 1;
                found = true;
            } else {
                k -= 1;
            }
        }
        proof {
            lemma_visual_rows_shape(self@.text, self@.cursor, width as int);
            lemma_cursor_row_bound(srows, self.cursor as int, srows.len() as int);
        }
        let start = rows[row].start;
        let end = if self.cursor < start { start } else { self.cursor };
        let piece = string_from_range(&self.buf, start, end);
        let column = display_width(piece.as_str());
        (row, column)
    }

    /// Where the partial `$name` before the cursor starts, if there is one.
    fn dollar_position(&self) -> (r: Option<usize>)
        ensures
            r is None <==> dollar_start(self@.text, self@.cursor) is None,
            r matches Some(j) ==> dollar_start(self@.text, self@.cursor) == Some(j as int) && j
                < self@.cursor,
    {
        proof {
            use_type_invariant(self);
        }
        let mut k = self.cursor;
        while k > 0
            invariant
                k <= self.cursor <= self.buf.len(),
                dollar_start(self@.text, self@.cursor) == dollar_start(self@.text, k as int),
            decreases k,
        {
            let c = self.buf[k - 1];
            if c == '$' {
                return Some(k - 1);
            }
            if white_space(c) {
                return None;
            }
            k -= 1;
        }
        None
    }

    /// The partial skill name typed after a `$` right before the cursor, if any.
    pub fn dollar_query(&self) -> (q: Option<String>)
        ensures
            match spec_dollar_query(self@) {
                Some(t) => q matches Some(s) && s@ == t,
                None => q is None,
            },
    {
        proof {
            use_type_invariant(self);
        }
        match self.dollar_position() {
            Some(j) => Some(string_from_range(&self.buf, j + 1, self.cursor)),
            None => None,
        }
    }

    /// Completes the partial `$name` before the cursor to `$name ` (the given name and
    /// a space), leaving the cursor after the space.
    pub fn complete_dollar(&mut self, name: &str)
        ensures
            final(self)@ == spec_complete_dollar(old(self)@, name@),
    {
        proof {
            use_type_invariant(&*self);
        }
        match self.dollar_position() {
            None => {},
            Some(j) => {
                let (buf, cursor) = self.detach();
                let name_chars = chars_of(name);
                let mut out: Vec<char> = Vec::new();
                let mut i: usize = 0;
                while i <= j
                    invariant
                        j < cursor <= buf@.len(),
                        i <= j + 1,
                        out@ == buf@.take(i as int),
                    decreases j + 1 - i,
                {
                    out.push(buf[i]);
                    proof {
                        assert(buf@.take(i as int).push(buf@[i as int]) =~= buf@.take(i + 1));
                    }
                    i += 1;
                }
                let mut k: usize = 0;
                while k < name_chars.len()
                    invariant
                        k <= name_chars.len(),
                        name_chars@ == name@,
                        j < cursor <= buf@.len(),
                        out@ == buf@.take(j + 1) + name_chars@.take(k as int),
                    decreases name_chars.len() - k,
                {
                    out.push(name_chars[k]);
                    proof {
                        assert(out@ =~= buf@.take(j + 1) + name_chars@.take(k + 1));
                    }
                    k += 1;
                }
                out.push(' ');
                let new_cursor = out.len();
                proof {
                    assert(name_chars@.take(name_chars.len() as int) =~= name@);
                    assert(out@ =~= buf@.take(j + 1) + name@ + seq![' ']);
                }
                let ghost head = out@;
                let mut m = cursor;
                while m < buf.len()
                    invariant
                        cursor <= m <= buf@.len(),
                        out@ == head + buf@.subrange(cursor as int, m as int),
                    decreases buf.len() - m,
                {
                    out.push(buf[m]);
                    proof {
                        assert(out@ =~= head + buf@.subrange(cursor as int, m + 1));
                    }
                    m += 1;
                }
                proof {
                    assert(buf@.subrange(cursor as int, buf@.len() as int) =~= buf@.skip(cursor as int));
                }
                self.attach(out, new_cursor);
            },
        }
    }

    /// Consume the buffer, returning its contents and resetting to empty.
    pub fn take(&mut self) -> (s: String)
        ensures
            s@ == old(self)@.text,
            final(self)@.text == Seq::<char>::empty(),
            final(self)@.cursor == 0,
    {
        let (buf, _) = self.detach();
        string_from_chars(&buf)
    }

    /// Move the cursor `direction` visual rows, keeping its display column.
    fn move_vertical(&mut self, width: usize, direction: i8)
        requires
            direction == 1 || direction == -1,
        ensures
            final(self)@ == spec_move_vertical(old(self)@, width as int, direction as int),
    {
        proof {
            use_type_invariant(&*self);
        }
        let rows = self.visual_rows(width);
        let (row, column) = self.cursor_position(width);
        proof {
            lemma_visual_rows_shape(self@.text, self@.cursor, width as int);
            let srows = spec_visual_rows(self@.text, self@.cursor, width as int);
            lemma_cursor_row_bound(srows, self@.cursor, srows.len() as int);
        }
        let nrows = rows.len();
        let moved = if direction < 0 {
            if row == 0 { 0 } else { row - 1 }
        } else {
            row + 1
        };
        let target = if moved > nrows - 1 { nrows - 1 } else { moved };
        if target == row {
            return;
        }
        let start = rows[target].start;
        let end = rows[target].end;
        let mut target_cursor = start;
        let mut target_column: usize = 0;
        let mut i = start;
        let mut stop = false;
        let ghost old_self = self@;
        while i < end && !stop
            invariant
                start <= i <= end <= self.buf@.len(),
                old_self == self@,
                target_cursor == i,
                !stop ==> fitting(self.buf@, start as int, end as int, 0, column as int) == (i - start)
                    + fitting(self.buf@, i as int, end as int, target_column as int, column as int),
                stop ==> fitting(self.buf@, start as int, end as int, 0, column as int) == i - start,
                target_column <= column,
            decreases end - i + (if stop { 0int } else { 1int }),
        {
            let one = vec![self.buf[i]];
            let piece = string_from_chars(&one);
            let w = display_width(piece.as_str());
            proof {
                assert(piece@ =~= seq![self.buf@[i as int]]);
            }
            if w > column || target_column > column - w {
                stop = true;
            } else {
                target_column = target_column + w;
                target_cursor = i + 1;
                i += 1;
            }
        }
        self.cursor = target_cursor;
    }
}

/// The rows of a draft start at 0, end at its length, never run backwards, and
/// are separated only by soft wraps (no gap) or by one explicit line break.
pub proof fn lemma_visual_rows_shape(chars: Seq<char>, cursor: int, width: int)
    requires
        0 <= cursor <= chars.len(),
    ensures
        ({
            let rows = spec_visual_rows(chars, cursor, width);
            &&& rows.len() >= 1
            &&& rows[0].0 == 0
            &&& rows[rows.len() - 1].1 == chars.len()
            &&& forall|k: int| 0 <= k < rows.len() ==> 0 <= (#[trigger] rows[k]).0 <= rows[k].1 <= chars.len()
        }),
{
    let w = if width < 1 { 1 } else { width };
    lemma_wrap_prefix_shape(chars, w, chars.len() as int);
}

/// The row chosen for the cursor is one of the rows.
proof fn lemma_cursor_row_bound(rows: Seq<(int, int)>, cursor: int, k: int)
    requires
        k >= 1,
    ensures
        0 <= cursor_row(rows, cursor, k) < k,
    decreases k,
{
    if k > 1 {
        lemma_cursor_row_bound(rows, cursor, k - 1);
        if !(rows[k - 1].0 <= cursor <= rows[k - 1].1) {
            assert(cursor_row(rows, cursor, k) == cursor_row(rows, cursor, k - 1));
        }
    } else {
        assert(cursor_row(rows, cursor, 0) == 0);
    }
}

/// Shape of the rows laid out so far.
proof fn lemma_wrap_prefix_shape(chars: Seq<char>, width: int, i: int)
    requires
        0 <= i <= chars.len(),
    ensures
        ({
            let s = wrap_prefix(chars, width, i);
            &&& 0 <= s.start <= i
            &&& s.rows.len() > 0 ==> s.rows[0].0 == 0
            &&& s.rows.len() == 0 ==> s.start == 0
            &&& forall|k: int| 0 <= k < s.rows.len() ==> 0 <= (#[trigger] s.rows[k]).0 <= s.rows[k].1 <= i
        }),
    decreases i,
{
    if i > 0 {
        lemma_wrap_prefix_shape(chars, width, i - 1);
    }
}

} // verus!

verus! {

/// Two consecutive rows meet either at a soft wrap (no character between them) or
/// at one explicit line break.
pub open spec fn joined(chars: Seq<char>, end: int, next_start: int) -> bool {
    ||| end == next_start
    ||| (end + 1 == next_start && 0 <= end < chars.len() && chars[end] == '\n')
}

/// `rows` lay out the whole draft: they start at 0, end at its length, meet only at
/// soft wraps or explicit line breaks, and no row shows a line break.
pub open spec fn rows_tile(chars: Seq<char>, rows: Seq<(int, int)>) -> bool {
    &&& rows.len() >= 1
    &&& rows[0].0 == 0
    &&& rows[rows.len() - 1].1 == chars.len()
    &&& forall|k: int| 0 <= k < rows.len() ==> (#[trigger] rows[k]).0 <= rows[k].1
    &&& forall|k: int|
        0 <= k < rows.len() - 1 ==> #[trigger] joined(chars, rows[k].1, rows[k + 1].0)
    &&& forall|k: int, j: int|
        #![trigger rows[k], chars[j]]
        0 <= k < rows.len() && rows[k].0 <= j < rows[k].1 ==> chars[j] != '\n' && 0 <= j
            < chars.len()
}

/// Soft wrapping is display only: the visual rows of any draft, at any width and
/// cursor, lay out exactly its characters, split only at soft wraps and at its
/// explicit line breaks, which no row shows.
pub proof fn lemma_visual_rows_tile(chars: Seq<char>, cursor: int, width: int)
    ensures
        rows_tile(chars, spec_visual_rows(chars, cursor, width)),
{
    let w = if width < 1 { 1 } else { width };
    let n = chars.len() as int;
    lemma_wrap_prefix_tile(chars, w, n);
    let s = wrap_prefix(chars, w, n);
    let rows = s.rows.push((s.start, n));
    assert(rows_tile(chars, rows)) by {
        assert forall|k: int| 0 <= k < rows.len() - 1 implies #[trigger] joined(
            chars,
            rows[k].1,
            rows[k + 1].0,
        ) by {
            if k < s.rows.len() - 1 {
                assert(rows[k] == s.rows[k] && rows[k + 1] == s.rows[k + 1]);
            }
        }
        assert forall|k: int, j: int|
            #![trigger rows[k], chars[j]]
            0 <= k < rows.len() && rows[k].0 <= j < rows[k].1 implies chars[j] != '\n' && 0 <= j
            < chars.len() by {
            if k < s.rows.len() {
                assert(rows[k] == s.rows[k]);
            }
        }
    }
    if s.column >= w && cursor == n {
        let rows2 = rows.push((n, n));
        assert(rows_tile(chars, rows2)) by {
            assert forall|k: int| 0 <= k < rows2.len() - 1 implies #[trigger] joined(
                chars,
                rows2[k].1,
                rows2[k + 1].0,
            ) by {
                if k < rows.len() - 1 {
                    assert(rows2[k] == rows[k] && rows2[k + 1] == rows[k + 1]);
                    assert(joined(chars, rows[k].1, rows[k + 1].0));
                }
            }
            assert forall|k: int, j: int|
                #![trigger rows2[k], chars[j]]
                0 <= k < rows2.len() && rows2[k].0 <= j < rows2[k].1 implies chars[j] != '\n' && 0
                <= j < chars.len() by {
                if k < rows.len() {
                    assert(rows2[k] == rows[k]);
                }
            }
        }
    }
}

/// What holds of the rows laid out after the first `i` characters.
proof fn lemma_wrap_prefix_tile(chars: Seq<char>, width: int, i: int)
    requires
        0 <= i <= chars.len(),
    ensures
        ({
            let s = wrap_prefix(chars, width, i);
            &&& 0 <= s.start <= i
            &&& s.rows.len() == 0 ==> s.start == 0
            &&& s.rows.len() > 0 ==> s.rows[0].0 == 0
            &&& s.rows.len() > 0 ==> joined(chars, s.rows[s.rows.len() - 1].1, s.start)
            &&& forall|k: int| 0 <= k < s.rows.len() ==> 0 <= (#[trigger] s.rows[k]).0 <= s.rows[k].1 <= i
            &&& forall|k: int|
                0 <= k < s.rows.len() - 1 ==> #[trigger] joined(chars, s.rows[k].1, s.rows[k + 1].0)
            &&& forall|k: int, j: int|
                #![trigger s.rows[k], chars[j]]
                0 <= k < s.rows.len() && s.rows[k].0 <= j < s.rows[k].1 ==> chars[j] != '\n'
            &&& forall|j: int| s.start <= j < i ==> #[trigger] chars[j] != '\n'
        }),
    decreases i,
{
    if i > 0 {
        lemma_wrap_prefix_tile(chars, width, i - 1);
        let p = wrap_prefix(chars, width, i - 1);
        let s = wrap_prefix(chars, width, i);
        let idx = i - 1;
        if s.rows.len() > p.rows.len() {
            assert(s.rows == p.rows.push((p.start, idx)));
            assert forall|k: int| 0 <= k < s.rows.len() - 1 implies #[trigger] joined(
                chars,
                s.rows[k].1,
                s.rows[k + 1].0,
            ) by {
                if k < p.rows.len() - 1 {
                    assert(s.rows[k] == p.rows[k] && s.rows[k + 1] == p.rows[k + 1]);
                } else {
                    assert(s.rows[k] == p.rows[k]);
                }
            }
            assert forall|k: int, j: int|
                #![trigger s.rows[k], chars[j]]
                0 <= k < s.rows.len() && s.rows[k].0 <= j < s.rows[k].1 implies chars[j] != '\n' by {
                if k < p.rows.len() {
                    assert(s.rows[k] == p.rows[k]);
                }
            }
        } else {
            assert(s.rows == p.rows);
        }
    }
}

/// A backspace right after inserting a character gives back the draft as it was.
pub proof fn lemma_backspace_undoes_insert(s: DraftState, ch: char)
    requires
        0 <= s.cursor <= s.text.len(),
    ensures
        spec_backspace(spec_insert(s, ch)) == s,
{
    let t = spec_insert(s, ch);
    assert(t.text.remove(s.cursor) =~= s.text);
}

} // verus!
