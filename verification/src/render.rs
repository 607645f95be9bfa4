//! The layout rules of the chat's text rendering: how text is made safe to show, how
//! a line is wrapped to the screen's width, and how tables are laid out or, when too
//! narrow, shown as records.
use vstd::prelude::*;

use crate::text::{chars_of, display_width, line_width, push_char};

verus! {

/// A control character, as `char::is_control` tells (Unicode category Cc).
pub open spec fn is_control(c: char) -> bool {
    (c as u32) <= 0x1F || (0x7F <= (c as u32) && (c as u32) <= 0x9F)
}

/// The lowercase hexadecimal digit for `d` below 16.
pub open spec fn hex_digit(d: nat) -> char {
    if d < 10 {
        ((d + 48) as u8) as char
    } else {
        ((d + 87) as u8) as char
    }
}

/// How a character is shown: a carriage return as `\r`, another control character as
/// `\x` and two hexadecimal digits, anything else as itself (tabs are handled apart).
pub open spec fn escaped(c: char) -> Seq<char> {
    if c == '\r' {
        seq!['\\', 'r']
    } else if is_control(c) {
        seq!['\\', 'x', hex_digit((c as u32 / 16) as nat), hex_digit((c as u32 % 16) as nat)]
    } else {
        seq![c]
    }
}

/// `n` spaces.
pub open spec fn spaces(n: nat) -> Seq<char> {
    Seq::new(n, |i: int| ' ')
}

/// `text` made safe to show from display column `column` on: a tab becomes the
/// spaces up to the next multiple of four, control characters are escaped.
pub open spec fn spec_sanitize(text: Seq<char>, column: int) -> Seq<char>
    decreases text.len(),
{
    if text.len() == 0 {
        seq![]
    } else if text[0] == '\t' {
        let n = 4 - column % 4;
        spaces(n as nat) + spec_sanitize(text.drop_first(), column + n)
    } else {
        let e = escaped(text[0]);
        e + spec_sanitize(text.drop_first(), column + line_width(e))
    }
}

/// The lowercase hexadecimal digit for `d` below 16.
fn hex(d: u32) -> (c: char)
    requires
        d < 16,
    ensures
        c == hex_digit(d as nat),
{
    if d < 10 {
        ((d + 48) as u8) as char
    } else {
        ((d + 87) as u8) as char
    }
}

/// `n` spaces.
pub fn space_string(n: usize) -> (s: String)
    ensures
        s@ == spaces(n as nat),
{
    let mut s = String::new();
    let mut i: usize = 0;
    while i < n
        invariant
            i <= n,
            s@ == spaces(i as nat),
        decreases n - i,
    {
        push_char(&mut s, ' ');
        assert(s@ =~= spaces((i + 1) as nat));
        i += 1;
    }
    s
}

/// How a character other than a tab is shown.
fn escape(c: char) -> (s: String)
    ensures
        s@ == escaped(c),
{
    let u = c as u32;
    let mut s = String::new();
    if c == '\r' {
        push_char(&mut s, '\\');
        push_char(&mut s, 'r');
    } else if u <= 0x1F || (0x7F <= u && u <= 0x9F) {
        push_char(&mut s, '\\');
        push_char(&mut s, 'x');
        push_char(&mut s, hex(u / 16));
        push_char(&mut s, hex(u % 16));
    } else {
        push_char(&mut s, c);
    }
    proof {
        assert(s@ =~= escaped(c));
    }
    s
}

/// `text` made safe to show from display column `column` on: tabs expand to the next
/// multiple of four columns, carriage returns and other control characters are
/// written as escapes.
pub fn sanitize(text: &str, column: usize) -> (s: String)
    ensures
        s@ == spec_sanitize(text@, column as int),
{
    let v = chars_of(text);
    let mut out = String::new();
    let mut col4: usize = column % 4;
    let ghost mut col: int = column as int;
    let mut i: usize = 0;
    proof {
        assert(v@.skip(0) =~= v@);
    }
    while i < v.len()
        invariant
            i <= v.len(),
            v@ == text@,
            col4 < 4,
            col4 == col % 4,
            col >= 0,
            out@ + spec_sanitize(v@.skip(i as int), col) == spec_sanitize(text@, column as int),
        decreases v.len() - i,
    {
        let ghost rest = v@.skip(i as int);
        proof {
            assert(rest.drop_first() =~= v@.skip(i + 1));
            assert(rest[0] == v@[i as int]);
        }
        let c = v[i];
        if c == '\t' {
            let n: usize = 4 - col4;
            let pad = space_string(n);
            proof {
                assert(out@ + pad@ + spec_sanitize(v@.skip(i + 1), col + n) =~= out@ + (spaces(
                    n as nat,
                ) + spec_sanitize(rest.drop_first(), col + n)));
                assert((col + n) % 4 == 0) by {
                    assert(col == (col / 4) * 4 + col4);
                    assert(col + n == (col / 4) * 4 + 4);
                    vstd::arithmetic::div_mod::lemma_mod_multiples_basic(col / 4 + 1, 4);
                    assert((col / 4 + 1) * 4 == (col / 4) * 4 + 4) by (nonlinear_arith);
                }
                col = col + n;
            }
            out.append(pad.as_str());
            col4 = 0;
        } else {
            let e = escape(c);
            let w = display_width(e.as_str());
            proof {
                assert(out@ + e@ + spec_sanitize(v@.skip(i + 1), col + w) =~= out@ + (e@
                    + spec_sanitize(rest.drop_first(), col + line_width(e@))));
                assert((col + w) % 4 == (col4 + w % 4) % 4) by {
                    vstd::arithmetic::div_mod::lemma_add_mod_noop(col, w as int, 4);
                }
                col = col + w;
            }
            out.append(e.as_str());
            col4 = (col4 + w % 4) % 4;
        }
        i += 1;
    }
    proof {
        assert(v@.skip(v.len() as int) =~= Seq::<char>::empty());
        assert(out@ + Seq::<char>::empty() =~= out@);
    }
    out
}

/// How a table column aligns its cells.
#[derive(Debug, Clone, Copy, PartialEq, Eq)]
pub enum Alignment {
    /// No alignment given: cells start at the left.
    Unspecified,
    Left,
    Center,
    Right,
}

/// The spaces before and after a cell line that leaves `remaining` cells of its
/// column free.
pub open spec fn spec_padding(alignment: Alignment, remaining: usize) -> (usize, usize) {
    match alignment {
        Alignment::Center => ((remaining / 2) as usize, (remaining - remaining / 2) as usize),
        Alignment::Right => (remaining, 0),
        _ => (0, remaining),
    }
}

/// The spaces before and after a cell line that leaves `remaining` cells free.
pub fn padding(alignment: Alignment, remaining: usize) -> (p: (usize, usize))
    ensures
        p == spec_padding(alignment, remaining),
        p.0 + p.1 == remaining,
{
    match alignment {
        Alignment::Center => (remaining / 2, remaining - remaining / 2),
        Alignment::Right => (remaining, 0),
        _ => (0, remaining),
    }
}

/// A table of `columns` columns needs one border cell at each side and between
/// columns plus a space on each side of every cell: `3 * columns + 1` cells besides
/// the cells' own, saturating.
pub open spec fn overhead(columns: usize) -> int {
    if 3 * columns + 1 > usize::MAX {
        usize::MAX as int
    } else {
        3 * columns + 1
    }
}

/// Whether a grid of `columns` columns fits `width`, each column at least one cell
/// wide; otherwise the table is shown as records.
pub fn grid_fits(columns: usize, width: usize) -> (b: bool)
    ensures
        b == (width >= overhead(columns) + columns),
{
    let o: usize = if columns > (usize::MAX - 1) / 3 {
        usize::MAX
    } else {
        columns * 3 + 1
    };
    match o.checked_add(columns) {
        Some(need) => width >= need,
        None => false,
    }
}

/// The column that gains a cell next: among the columns narrower than their natural
/// width, the one that lacks the most, the last of equals; none when all have theirs.
pub open spec fn widest_gap(natural: Seq<usize>, widths: Seq<usize>, k: int) -> Option<int>
    decreases k,
{
    if k <= 0 {
        None
    } else {
        let i = k - 1;
        match widest_gap(natural, widths, k - 1) {
            None => if natural[i] > widths[i] {
                Some(i)
            } else {
                None
            },
            Some(j) => if natural[i] > widths[i] && natural[i] - widths[i] >= natural[j]
                - widths[j] {
                Some(i)
            } else {
                Some(j)
            },
        }
    }
}

/// The column widths after `steps` more cells are handed out one at a time, each to
/// the column that lacks the most.
pub open spec fn allocate(natural: Seq<usize>, widths: Seq<usize>, steps: nat) -> Seq<usize>
    decreases steps,
{
    if steps == 0 {
        widths
    } else {
        match widest_gap(natural, widths, widths.len() as int) {
            None => widths,
            Some(i) => allocate(natural, widths.update(i, (widths[i] + 1) as usize), (steps - 1) as nat),
        }
    }
}

/// The sum of the widths.
pub open spec fn total(widths: Seq<usize>) -> int
    decreases widths.len(),
{
    if widths.len() == 0 {
        0
    } else {
        total(widths.drop_last()) + widths.last()
    }
}

/// The column picked by `widest_gap` lacks cells.
proof fn lemma_widest_gap(natural: Seq<usize>, widths: Seq<usize>, k: int)
    requires
        0 <= k <= widths.len() == natural.len(),
    ensures
        widest_gap(natural, widths, k) matches Some(i) ==> 0 <= i < k && natural[i] > widths[i],
        widest_gap(natural, widths, k) is None ==> forall|j: int|
            0 <= j < k ==> natural[j] <= widths[j],
    decreases k,
{
    if k > 0 {
        lemma_widest_gap(natural, widths, k - 1);
    }
}

/// Adding one cell to a column adds one to the total.
proof fn lemma_total_update(widths: Seq<usize>, i: int, w: usize)
    requires
        0 <= i < widths.len(),
    ensures
        total(widths.update(i, w)) == total(widths) - widths[i] + w,
    decreases widths.len(),
{
    if i < widths.len() - 1 {
        assert(widths.update(i, w).drop_last() =~= widths.drop_last().update(i, w));
        lemma_total_update(widths.drop_last(), i, w);
    } else {
        assert(widths.update(i, w).drop_last() =~= widths.drop_last());
    }
}

/// Handing out cells never takes a column past its natural width, never leaves one
/// below a cell, and hands out no more than `steps` cells.
pub proof fn lemma_allocate_bounds(natural: Seq<usize>, widths: Seq<usize>, steps: nat)
    requires
        widths.len() == natural.len(),
        forall|j: int| 0 <= j < widths.len() ==> 1 <= #[trigger] widths[j] <= natural[j],
    ensures
        allocate(natural, widths, steps).len() == widths.len(),
        forall|j: int|
            0 <= j < widths.len() ==> 1 <= #[trigger] allocate(natural, widths, steps)[j]
                <= natural[j],
        total(allocate(natural, widths, steps)) <= total(widths) + steps,
    decreases steps,
{
    if steps > 0 {
        lemma_widest_gap(natural, widths, widths.len() as int);
        match widest_gap(natural, widths, widths.len() as int) {
            None => {},
            Some(i) => {
                let next = widths.update(i, (widths[i] + 1) as usize);
                lemma_total_update(widths, i, (widths[i] + 1) as usize);
                lemma_allocate_bounds(natural, next, (steps - 1) as nat);
            },
        }
    }
}

/// `n` columns of one cell each.
pub open spec fn ones(n: nat) -> Seq<usize> {
    Seq::new(n, |j: int| 1usize)
}

/// The widths of the table's columns: each starts at one cell, and the cells left of
/// `available` go one at a time to the column that lacks the most of its natural
/// width (the last of equals), until none lacks any.
pub fn column_widths(natural: &Vec<usize>, available: usize) -> (widths: Vec<usize>)
    requires
        forall|j: int| 0 <= j < natural@.len() ==> natural@[j] >= 1,
    ensures
        widths@ == allocate(
            natural@,
            ones(natural@.len()),
            (if available > natural@.len() { available - natural@.len() } else { 0 }) as nat,
        ),
{
    let n = natural.len();
    let mut widths: Vec<usize> = Vec::new();
    let mut k: usize = 0;
    while k < n
        invariant
            k <= n,
            n == natural@.len(),
            widths@ == ones(k as nat),
        decreases n - k,
    {
        widths.push(1);
        assert(widths@ =~= ones((k + 1) as nat));
        k += 1;
    }
    let steps: usize = if available > n {
        available - n
    } else {
        0
    };
    let ghost start = widths@;
    let mut done: usize = 0;
    proof {
        lemma_allocate_bounds(natural@, start, 0);
    }
    while done < steps
        invariant
            done <= steps,
            n == natural@.len() == widths@.len() == start.len(),
            start == ones(n as nat),
            steps == (if available > n {
                available - n
            } else {
                0
            }),
            forall|j: int| 0 <= j < n ==> natural@[j] >= 1,
            forall|j: int| 0 <= j < n ==> 1 <= #[trigger] start[j] <= natural@[j],
            allocate(natural@, start, steps as nat) == allocate(
                natural@,
                widths@,
                (steps - done) as nat,
            ),
            forall|j: int| 0 <= j < n ==> 1 <= #[trigger] widths@[j] <= natural@[j],
        decreases steps - done,
    {
        let mut best: Option<usize> = None;
        let mut i: usize = 0;
        while i < n
            invariant
                i <= n,
                n == natural@.len() == widths@.len(),
                forall|j: int| 0 <= j < n ==> 1 <= #[trigger] widths@[j] <= natural@[j],
                match best {
                    Some(b) => widest_gap(natural@, widths@, i as int) == Some(b as int),
                    None => widest_gap(natural@, widths@, i as int) is None,
                },
            decreases n - i,
        {
            if natural[i] > widths[i] {
                match best {
                    None => {
                        best = Some(i);
                    },
                    Some(b) => {
                        proof {
                            lemma_widest_gap(natural@, widths@, i as int);
                        }
                        if natural[i] - widths[i] >= natural[b] - widths[b] {
                            best = Some(i);
                        }
                    },
                }
            }
            i += 1;
        }
        match best {
            None => {
                proof {
                    assert(allocate(natural@, widths@, (steps - done) as nat) == widths@);
                }
                return widths;
            },
            Some(b) => {
                proof {
                    lemma_widest_gap(natural@, widths@, n as int);
                }
                let w = widths[b] + 1;
                widths.set(b, w);
            },
        }
        done += 1;
    }
    widths
}

/// The border cells after the left corner: for each column two more `─` than its
/// width, then `middle` between columns and `right` after the last.
pub open spec fn border_cells(middle: char, right: char, widths: Seq<usize>) -> Seq<char>
    decreases widths.len(),
{
    if widths.len() == 0 {
        seq![]
    } else {
        Seq::new((widths[0] + 2) as nat, |i: int| '─') + (if widths.len() == 1 {
            seq![right]
        } else {
            seq![middle]
        }) + border_cells(middle, right, widths.drop_first())
    }
}

/// A border line of a table with columns `widths`.
pub open spec fn spec_border(left: char, middle: char, right: char, widths: Seq<usize>) -> Seq<char> {
    seq![left] + border_cells(middle, right, widths)
}

/// A border line of a table with columns `widths`: `left`, then for each column its
/// width plus two of `─`, with `middle` between columns and `right` at the end.
pub fn border(left: char, middle: char, right: char, widths: &Vec<usize>) -> (s: String)
    requires
        forall|j: int| 0 <= j < widths@.len() ==> widths@[j] < usize::MAX - 2,
    ensures
        s@ == spec_border(left, middle, right, widths@),
{
    let mut s = String::new();
    push_char(&mut s, left);
    let mut i: usize = 0;
    proof {
        assert(widths@.skip(0) =~= widths@);
    }
    while i < widths.len()
        invariant
            i <= widths.len(),
            forall|j: int| 0 <= j < widths@.len() ==> widths@[j] < usize::MAX - 2,
            s@ + border_cells(middle, right, widths@.skip(i as int)) == spec_border(
                left,
                middle,
                right,
                widths@,
            ),
        decreases widths.len() - i,
    {
        let ghost before = s@;
        let ghost rest = widths@.skip(i as int);
        let n = widths[i] + 2;
        let mut k: usize = 0;
        while k < n
            invariant
                k <= n,
                s@ == before + Seq::new(k as nat, |j: int| '─'),
            decreases n - k,
        {
            push_char(&mut s, '─');
            assert(s@ =~= before + Seq::new((k + 1) as nat, |j: int| '─'));
            k += 1;
        }
        if i + 1 == widths.len() {
            push_char(&mut s, right);
        } else {
            push_char(&mut s, middle);
        }
        proof {
            assert(rest.drop_first() =~= widths@.skip(i + 1));
            assert(rest[0] == widths@[i as int]);
            assert(s@ + border_cells(middle, right, widths@.skip(i + 1)) =~= before + border_cells(
                middle,
                right,
                rest,
            ));
        }
        i += 1;
    }
    proof {
        assert(widths@.skip(widths.len() as int) =~= Seq::<usize>::empty());
        assert(s@ + Seq::<char>::empty() =~= s@);
    }
    s
}

/// `n` columns of one cell each take `n` cells.
proof fn lemma_total_ones(n: nat)
    ensures
        total(ones(n)) == n,
    decreases n,
{
    if n > 0 {
        assert(ones(n).drop_last() =~= ones((n - 1) as nat));
        lemma_total_ones((n - 1) as nat);
    }
}

/// A table laid out as a grid fits the width it was laid out for: with `available`
/// the width less the borders and spaces, the columns never take more than that,
/// none is narrower than a cell and none wider than its widest cell.
pub proof fn lemma_grid_within_width(natural: Seq<usize>, available: usize)
    requires
        forall|j: int| 0 <= j < natural.len() ==> natural[j] >= 1,
        available >= natural.len(),
    ensures
        ({
            let widths = allocate(natural, ones(natural.len()), (available - natural.len()) as nat);
            &&& widths.len() == natural.len()
            &&& total(widths) <= available
            &&& forall|j: int| 0 <= j < natural.len() ==> 1 <= #[trigger] widths[j] <= natural[j]
        }),
{
    lemma_total_ones(natural.len());
    lemma_allocate_bounds(natural, ones(natural.len()), (available - natural.len()) as nat);
}

/// Where rows start when graphemes of widths `ws` are laid out in rows of `width`
/// cells, a row after the first starting with `continuation` cells of prefix: a
/// grapheme goes to a new row when the current row holds something and it would
/// overflow. Gives the width used in the last row and the starts of the rows after
/// the first.
pub open spec fn wrap_state(ws: Seq<usize>, width: int, continuation: int) -> (int, Seq<int>)
    decreases ws.len(),
{
    if ws.len() == 0 {
        (0, seq![])
    } else {
        let (used, starts) = wrap_state(ws.drop_last(), width, continuation);
        let w = ws.last() as int;
        if used > 0 && used + w > width {
            (continuation + w, starts.push(ws.len() - 1))
        } else {
            (used + w, starts)
        }
    }
}

/// The sum of `ws[from..to]`.
pub open spec fn span_width(ws: Seq<usize>, from: int, to: int) -> int
    decreases to - from,
{
    if to <= from {
        0
    } else {
        span_width(ws, from, to - 1) + ws[to - 1]
    }
}

/// Where the graphemes of widths `ws` start new rows, in order: see `wrap_state`.
pub fn wrap_starts(ws: &Vec<usize>, width: usize, continuation: usize) -> (starts: Vec<usize>)
    requires
        continuation <= width,
        width <= usize::MAX / 2,
        forall|j: int| 0 <= j < ws@.len() ==> ws@[j] <= usize::MAX / 2,
    ensures
        starts@.map_values(|k: usize| k as int) == wrap_state(ws@, width as int, continuation as int).1,
{
    let mut starts: Vec<usize> = Vec::new();
    let mut used: usize = 0;
    let mut k: usize = 0;
    while k < ws.len()
        invariant
            k <= ws.len(),
            continuation <= width,
            width <= usize::MAX / 2,
            forall|j: int| 0 <= j < ws@.len() ==> ws@[j] <= usize::MAX / 2,
            (used as int, starts@.map_values(|k: usize| k as int)) == wrap_state(
                ws@.take(k as int),
                width as int,
                continuation as int,
            ),
            used as int == wrap_state(ws@.take(k as int), width as int, continuation as int).0,
        decreases ws.len() - k,
    {
        proof {
            assert(ws@.take(k + 1).drop_last() =~= ws@.take(k as int));
            assert(ws@.take(k + 1).last() == ws@[k as int]);
        }
        let w = ws[k];
        let ghost before = starts@;
        if used > 0 && (w > width || used > width - w) {
            starts.push(k);
            used = continuation + w;
            proof {
                assert(starts@.map_values(|k: usize| k as int) =~= before.map_values(
                    |k: usize| k as int,
                ).push(k as int));
            }
        } else {
            used = used + w;
        }
        k += 1;
    }
    proof {
        assert(ws@.take(ws.len() as int) =~= ws@);
    }
    starts
}

/// Where row `r` of `n` graphemes starts and ends, given the starts of the rows after
/// the first.
pub open spec fn row_bounds(starts: Seq<int>, n: int, r: int) -> (int, int) {
    (
        if r == 0 {
            0
        } else {
            starts[r - 1]
        },
        if r < starts.len() {
            starts[r]
        } else {
            n
        },
    )
}

/// Row `r` fits `width` cells with its prefix, or all it holds before its last
/// grapheme takes no cells (so no earlier break could have helped).
pub open spec fn row_fits(ws: Seq<usize>, starts: Seq<int>, width: int, continuation: int, r: int) -> bool {
    let (a, b) = row_bounds(starts, ws.len() as int, r);
    (if r == 0 {
        0
    } else {
        continuation
    }) + span_width(ws, a, b) <= width || (a < b && span_width(ws, a, b - 1) == 0)
}

/// Sums of cell widths are not negative.
proof fn lemma_span_nonneg(ws: Seq<usize>, from: int, to: int)
    ensures
        span_width(ws, from, to) >= 0,
    decreases to - from,
{
    if to > from {
        lemma_span_nonneg(ws, from, to - 1);
    }
}

/// The sum of a range does not look past its end.
proof fn lemma_span_prefix(ws: Seq<usize>, w: usize, from: int, to: int)
    requires
        0 <= from,
        to <= ws.len(),
    ensures
        span_width(ws.push(w), from, to) == span_width(ws, from, to),
    decreases to - from,
{
    if to > from {
        lemma_span_prefix(ws, w, from, to - 1);
    }
}

/// What wrapping keeps true: the row starts increase within the graphemes, the last
/// row's used width is its prefix and graphemes, every row fits (see `row_fits`).
proof fn lemma_wrap_state(ws: Seq<usize>, width: int, continuation: int)
    requires
        continuation >= 0,
        width >= 0,
    ensures
        ({
            let (used, starts) = wrap_state(ws, width, continuation);
            let n = ws.len() as int;
            let last = if starts.len() == 0 {
                0
            } else {
                starts.last()
            };
            &&& forall|i: int, j: int| 0 <= i < j < starts.len() ==> starts[i] < starts[j]
            &&& forall|i: int| 0 <= i < starts.len() ==> 0 < #[trigger] starts[i] < n
            &&& n > 0 ==> last < n
            &&& used == (if starts.len() == 0 {
                0
            } else {
                continuation
            }) + span_width(ws, last, n)
            &&& forall|r: int| 0 <= r <= starts.len() ==> row_fits(ws, starts, width, continuation, r)
        }),
    decreases ws.len(),
{
    if ws.len() == 0 {
        assert(row_fits(ws, seq![], width, continuation, 0));
    } else {
        let prev = ws.drop_last();
        lemma_wrap_state(prev, width, continuation);
        let (used, starts) = wrap_state(prev, width, continuation);
        let n = prev.len() as int;
        let w = ws.last();
        let last = if starts.len() == 0 {
            0
        } else {
            starts.last()
        };
        assert(prev.push(w) =~= ws);
        lemma_span_nonneg(prev, last, n);
        assert forall|a: int, b: int| 0 <= a && b <= n implies span_width(ws, a, b) == span_width(
            prev,
            a,
            b,
        ) by {
            lemma_span_prefix(prev, w, a, b);
        }
        if used > 0 && used + w > width {
            let starts2 = starts.push(n);
            assert(wrap_state(ws, width, continuation) == (continuation + w, starts2));
            assert(ws[n] == w);
            assert(span_width(ws, n, n) == 0);
            assert(span_width(ws, n, n + 1) == w);
            assert forall|r: int| 0 <= r <= starts2.len() implies row_fits(
                ws,
                starts2,
                width,
                continuation,
                r,
            ) by {
                if r < starts.len() {
                    assert(row_fits(prev, starts, width, continuation, r));
                    let (a, b) = row_bounds(starts, n, r);
                    assert(row_bounds(starts2, n + 1, r) == (a, b));
                    if a < b {
                        lemma_span_prefix(prev, w, a, b - 1);
                    }
                } else if r == starts.len() {
                    assert(row_fits(prev, starts, width, continuation, r));
                    assert(row_bounds(starts2, n + 1, r) == (last, n));
                    if last < n {
                        lemma_span_prefix(prev, w, last, n - 1);
                    }
                } else {
                    assert(row_bounds(starts2, n + 1, r) == (n, n + 1));
                }
            }
        } else {
            assert(wrap_state(ws, width, continuation) == (used + w, starts));
            assert(span_width(ws, last, n + 1) == span_width(prev, last, n) + w);
            assert forall|r: int| 0 <= r <= starts.len() implies row_fits(
                ws,
                starts,
                width,
                continuation,
                r,
            ) by {
                if r < starts.len() {
                    assert(row_fits(prev, starts, width, continuation, r));
                    let (a, b) = row_bounds(starts, n, r);
                    assert(row_bounds(starts, n + 1, r) == (a, b));
                    if a < b {
                        lemma_span_prefix(prev, w, a, b - 1);
                    }
                } else {
                    assert(row_bounds(starts, n + 1, r) == (last, n + 1));
                    if used == 0 {
                        lemma_span_nonneg(prev, last, n);
                        assert(span_width(ws, last, n) == 0);
                    }
                }
            }
        }
    }
}

/// Wrapping splits the graphemes, in order, into rows that each hold at least one,
/// and fits every row into the width with its prefix, except a row whose only
/// grapheme that takes cells is its last one and is too wide by itself.
pub proof fn lemma_wrapped_rows_fit(ws: Seq<usize>, width: int, continuation: int)
    requires
        continuation >= 0,
        width >= 0,
    ensures
        forall|i: int, j: int|
            0 <= i < j < wrap_state(ws, width, continuation).1.len() ==> wrap_state(
                ws,
                width,
                continuation,
            ).1[i] < wrap_state(ws, width, continuation).1[j],
        forall|i: int|
            0 <= i < wrap_state(ws, width, continuation).1.len() ==> 0 < #[trigger] wrap_state(
                ws,
                width,
                continuation,
            ).1[i] < ws.len(),
        forall|r: int|
            0 <= r <= wrap_state(ws, width, continuation).1.len() ==> row_fits(
                ws,
                wrap_state(ws, width, continuation).1,
                width,
                continuation,
                r,
            ),
{
    lemma_wrap_state(ws, width, continuation);
}

} // verus!
