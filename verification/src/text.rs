//! Character-level helpers shared by the library: conversions between `String`
//! and `Vec<char>`, Unicode white space, and the terminal display width of text.
use vstd::prelude::*;
use vstd::utf8::{encode_scalar, encode_utf8};

verus! {

/// The number of terminal cells that `text` occupies, as ratatui measures a line.
pub uninterp spec fn line_width(text: Seq<char>) -> nat;

/// The display width of one character, measured as a one-character line.
pub open spec fn char_width(c: char) -> nat {
    line_width(seq![c])
}

/// Calls `ratatui::text::Line::width` on a line built from `text`.
/// The contract only names the result: it is `line_width` of the characters of `text`.
#[verifier::external_body]
pub(crate) fn display_width(text: &str) -> (w: usize)
    ensures
        w as nat == line_width(text@),
{
    ratatui::text::Line::from(text.to_string()).width()
}

/// Calls `String::push`, which appends one character.
#[verifier::external_body]
pub(crate) fn push_char(s: &mut String, c: char)
    ensures
        final(s)@ == old(s)@.push(c),
{
    s.push(c);
}

/// The characters of `s`, in order.
pub fn chars_of(s: &str) -> (v: Vec<char>)
    ensures
        v@ == s@,
{
    let mut v: Vec<char> = Vec::new();
    for c in it: s.chars()
        invariant
            v@ == it.seq().take(it.index() as int),
    {
        v.push(c);
    }
    v
}

/// A `String` holding exactly the characters of `v`.
pub fn string_from_chars(v: &Vec<char>) -> (s: String)
    ensures
        s@ == v@,
{
    let mut s = String::new();
    let mut i: usize = 0;
    while i < v.len()
        invariant
            i <= v.len(),
            s@ == v@.take(i as int),
        decreases v.len() - i,
    {
        push_char(&mut s, v[i]);
        assert(v@.take(i as int).push(v@[i as int]) =~= v@.take(i + 1));
        i += 1;
    }
    assert(v@.take(v.len() as int) =~= v@);
    s
}

/// A `String` holding the characters `v[start..end]`.
pub fn string_from_range(v: &Vec<char>, start: usize, end: usize) -> (s: String)
    requires
        start <= end <= v.len(),
    ensures
        s@ == v@.subrange(start as int, end as int),
{
    let mut s = String::new();
    let mut i: usize = start;
    while i < end
        invariant
            start <= i <= end <= v.len(),
            s@ == v@.subrange(start as int, i as int),
        decreases end - i,
    {
        push_char(&mut s, v[i]);
        assert(v@.subrange(start as int, i as int).push(v@[i as int]) =~= v@.subrange(
            start as int,
            i + 1,
        ));
        i += 1;
    }
    s
}

/// The text of `a` followed by the text of `b`.
pub fn concat(a: &str, b: &str) -> (s: String)
    ensures
        s@ == a@ + b@,
{
    let mut s = a.to_owned();
    s.append(b);
    s
}

/// Unicode `White_Space`, the property that `char::is_whitespace` tests.
pub open spec fn is_white_space(c: char) -> bool {
    let u = c as u32;
    ||| 0x09 <= u <= 0x0D
    ||| u == 0x20
    ||| u == 0x85
    ||| u == 0xA0
    ||| u == 0x1680
    ||| 0x2000 <= u <= 0x200A
    ||| u == 0x2028
    ||| u == 0x2029
    ||| u == 0x202F
    ||| u == 0x205F
    ||| u == 0x3000
}

/// Whether `c` is Unicode white space.
pub fn white_space(c: char) -> (b: bool)
    ensures
        b == is_white_space(c),
{
    let u = c as u32;
    (0x09 <= u && u <= 0x0D) || u == 0x20 || u == 0x85 || u == 0xA0 || u == 0x1680 || (0x2000
        <= u && u <= 0x200A) || u == 0x2028 || u == 0x2029 || u == 0x202F || u == 0x205F || u
        == 0x3000
}

/// Every character of `s` is white space (so trimming it leaves nothing).
pub open spec fn all_white_space(s: Seq<char>) -> bool {
    forall|i: int| 0 <= i < s.len() ==> is_white_space(#[trigger] s[i])
}

/// Whether every character of `v` is white space.
pub fn is_all_white_space(v: &Vec<char>) -> (b: bool)
    ensures
        b == all_white_space(v@),
{
    let mut i: usize = 0;
    while i < v.len()
        invariant
            i <= v.len(),
            forall|j: int| 0 <= j < i ==> is_white_space(#[trigger] v@[j]),
        decreases v.len() - i,
    {
        if !white_space(v[i]) {
            return false;
        }
        i += 1;
    }
    true
}

/// The number of bytes in the UTF-8 encoding of `s`, or `usize::MAX` if that is more.
pub open spec fn utf8_len(s: Seq<char>) -> int {
    let n = encode_utf8(s).len() as int;
    if n > usize::MAX {
        usize::MAX as int
    } else {
        n
    }
}

/// Appending a character adds its own encoding to the encoding of the text.
pub proof fn lemma_encode_push(s: Seq<char>, c: char)
    ensures
        encode_utf8(s.push(c)).len() == encode_utf8(s).len() + encode_scalar(c as u32).len(),
    decreases s.len(),
{
    let t = s.push(c);
    assert(encode_utf8(t) == encode_scalar(t[0] as u32) + encode_utf8(t.drop_first()));
    if s.len() == 0 {
        assert(t.drop_first() =~= Seq::<char>::empty());
        assert(t[0] == c);
        assert(encode_utf8(s) =~= Seq::<u8>::empty());
    } else {
        assert(t.drop_first() =~= s.drop_first().push(c));
        lemma_encode_push(s.drop_first(), c);
        assert(encode_utf8(s) == encode_scalar(s[0] as u32) + encode_utf8(s.drop_first()));
    }
}

/// The encoding of a concatenation is as long as the two encodings together.
pub proof fn lemma_encode_concat(a: Seq<char>, b: Seq<char>)
    ensures
        encode_utf8(a + b).len() == encode_utf8(a).len() + encode_utf8(b).len(),
    decreases a.len(),
{
    if a.len() > 0 {
        assert((a + b).drop_first() =~= a.drop_first() + b);
        lemma_encode_concat(a.drop_first(), b);
    } else {
        assert(a + b =~= b);
    }
}

/// The number of bytes that encode `c` in UTF-8.
fn char_utf8_width(c: char) -> (w: usize)
    ensures
        w as int == encode_scalar(c as u32).len(),
{
    let u = c as u32;
    if u <= 0x7F {
        1
    } else if u <= 0x7FF {
        2
    } else if u <= 0xFFFF {
        3
    } else {
        4
    }
}

/// The number of UTF-8 bytes of `s` (saturating at `usize::MAX`).
pub fn utf8_byte_len(s: &str) -> (n: usize)
    ensures
        n as int == utf8_len(s@),
{
    let mut n: usize = 0;
    let ghost mut done: Seq<char> = Seq::empty();
    for c in it: s.chars()
        invariant
            done == it.seq().take(it.index() as int),
            n as int == utf8_len(done),
    {
        proof {
            assert(it.seq().take(it.index() + 1) =~= done.push(c));
            lemma_encode_push(done, c);
            done = done.push(c);
        }
        n = n.saturating_add(char_utf8_width(c));
    }
    proof {
        assert(done =~= s@);
    }
    n
}

/// The decimal digits of `n`, most significant first.
pub open spec fn decimal(n: nat) -> Seq<char>
    decreases n,
{
    if n < 10 {
        seq![digit_char(n)]
    } else {
        decimal(n / 10).push(digit_char(n % 10))
    }
}

/// The character of a digit below ten.
pub open spec fn digit_char(d: nat) -> char {
    if d == 0 {
        '0'
    } else if d == 1 {
        '1'
    } else if d == 2 {
        '2'
    } else if d == 3 {
        '3'
    } else if d == 4 {
        '4'
    } else if d == 5 {
        '5'
    } else if d == 6 {
        '6'
    } else if d == 7 {
        '7'
    } else if d == 8 {
        '8'
    } else {
        '9'
    }
}

fn digit(d: u64) -> (c: char)
    requires
        d < 10,
    ensures
        c == digit_char(d as nat),
{
    if d == 0 {
        '0'
    } else if d == 1 {
        '1'
    } else if d == 2 {
        '2'
    } else if d == 3 {
        '3'
    } else if d == 4 {
        '4'
    } else if d == 5 {
        '5'
    } else if d == 6 {
        '6'
    } else if d == 7 {
        '7'
    } else if d == 8 {
        '8'
    } else {
        '9'
    }
}

/// `n` written in decimal.
pub fn decimal_string(n: u64) -> (s: String)
    ensures
        s@ == decimal(n as nat),
    decreases n,
{
    if n < 10 {
        let mut s = String::new();
        push_char(&mut s, digit(n));
        s
    } else {
        let mut s = decimal_string(n / 10);
        push_char(&mut s, digit(n % 10));
        s
    }
}

/// The characters of each string.
pub open spec fn texts(lines: Seq<String>) -> Seq<Seq<char>> {
    lines.map_values(|l: String| l@)
}

/// The strings of `parts` joined with `sep` between neighbours.
pub open spec fn joined_with(parts: Seq<Seq<char>>, sep: Seq<char>) -> Seq<char>
    decreases parts.len(),
{
    if parts.len() == 0 {
        seq![]
    } else if parts.len() == 1 {
        parts[0]
    } else {
        joined_with(parts.drop_last(), sep) + sep + parts.last()
    }
}

/// The strings of `parts` joined with `sep`.
pub fn join(parts: &Vec<String>, sep: &str) -> (s: String)
    ensures
        s@ == joined_with(texts(parts@), sep@),
{
    let ghost views = texts(parts@);
    let mut s = String::new();
    let mut i: usize = 0;
    while i < parts.len()
        invariant
            i <= parts.len(),
            views == texts(parts@),
            s@ == joined_with(views.take(i as int), sep@),
        decreases parts.len() - i,
    {
        if i != 0 {
            s.append(sep);
        }
        s.append(parts[i].as_str());
        proof {
            assert(views.take(i + 1).drop_last() =~= views.take(i as int));
            if i == 0 {
                assert(s@ =~= views.take(1)[0]);
            }
        }
        i += 1;
    }
    proof {
        assert(views.take(parts.len() as int) =~= views);
    }
    s
}

/// `a` comes strictly before `b` in the order of their characters' code points.
pub open spec fn text_lt(a: Seq<char>, b: Seq<char>) -> bool
    decreases a.len(),
{
    if b.len() == 0 {
        false
    } else if a.len() == 0 {
        true
    } else if (a[0] as u32) < (b[0] as u32) {
        true
    } else if (a[0] as u32) > (b[0] as u32) {
        false
    } else {
        text_lt(a.drop_first(), b.drop_first())
    }
}

/// Whether `a` comes strictly before `b` (by code points, as `str` orders them).
pub fn text_less(a: &Vec<char>, b: &Vec<char>) -> (r: bool)
    ensures
        r == text_lt(a@, b@),
{
    let mut i: usize = 0;
    proof {
        assert(a@.skip(0) =~= a@);
        assert(b@.skip(0) =~= b@);
    }
    while i < a.len() && i < b.len() && a[i] == b[i]
        invariant
            i <= a.len(),
            i <= b.len(),
            text_lt(a@, b@) == text_lt(a@.skip(i as int), b@.skip(i as int)),
        decreases a.len() - i,
    {
        proof {
            assert(a@.skip(i as int).drop_first() =~= a@.skip(i + 1));
            assert(b@.skip(i as int).drop_first() =~= b@.skip(i + 1));
        }
        i += 1;
    }
    let ghost sa = a@.skip(i as int);
    let ghost sb = b@.skip(i as int);
    if i == b.len() {
        proof {
            assert(sb.len() == 0);
        }
        false
    } else if i == a.len() {
        proof {
            assert(sa.len() == 0 && sb.len() > 0);
        }
        true
    } else {
        proof {
            assert(sa[0] == a@[i as int] && sb[0] == b@[i as int]);
            vstd::utf8::char_u32_cast(sa[0], sa[0] as u32);
            vstd::utf8::char_u32_cast(sb[0], sb[0] as u32);
        }
        (a[i] as u32) < (b[i] as u32)
    }
}

/// `base` joined with `rel` as a path: an absolute `rel` replaces `base`; otherwise a
/// `/` separates them unless `base` is empty or already ends with one.
pub open spec fn path_join(base: Seq<char>, rel: Seq<char>) -> Seq<char> {
    if rel.len() > 0 && rel[0] == '/' {
        rel
    } else if base.len() == 0 || base.last() == '/' {
        base + rel
    } else {
        base + seq!['/'] + rel
    }
}

/// Joins `rel` to `base` as a path.
pub fn join_path(base: &str, rel: &str) -> (p: String)
    ensures
        p@ == path_join(base@, rel@),
{
    let b = chars_of(base);
    let r = chars_of(rel);
    if r.len() > 0 && r[0] == '/' {
        return rel.to_owned();
    }
    if b.len() == 0 || b[b.len() - 1] == '/' {
        concat(base, rel)
    } else {
        let mut p = base.to_owned();
        push_char(&mut p, '/');
        p.append(rel);
        p
    }
}

/// The first index at or after `i` where `pat` occurs in `s`.
pub open spec fn find_from(s: Seq<char>, pat: Seq<char>, i: int) -> Option<int>
    decreases s.len() + 1 - i,
{
    if i < 0 || i + pat.len() > s.len() {
        None
    } else if s.subrange(i, i + pat.len()) == pat {
        Some(i)
    } else {
        find_from(s, pat, i + 1)
    }
}

/// Whether `pat` occurs in `v` at `i`.
pub fn occurs_at(v: &Vec<char>, pat: &Vec<char>, i: usize) -> (b: bool)
    requires
        i <= v.len(),
    ensures
        b == (i + pat.len() <= v.len() && v@.subrange(i as int, i + pat.len()) == pat@),
{
    if pat.len() > v.len() - i {
        return false;
    }
    let mut k: usize = 0;
    while k < pat.len()
        invariant
            k <= pat.len(),
            i + pat.len() <= v.len(),
            v@.subrange(i as int, i + k) == pat@.take(k as int),
        decreases pat.len() - k,
    {
        if v[i + k] != pat[k] {
            proof {
                assert(v@.subrange(i as int, i + pat.len())[k as int] == v@[i + k]);
            }
            return false;
        }
        proof {
            assert(v@.subrange(i as int, i + k + 1) =~= v@.subrange(i as int, i + k).push(v@[i + k]));
            assert(pat@.take(k + 1) =~= pat@.take(k as int).push(pat@[k as int]));
        }
        k += 1;
    }
    proof {
        assert(pat@.take(pat.len() as int) =~= pat@);
    }
    true
}

/// The first index at or after `from` where `pat` occurs in `v`.
pub fn find(v: &Vec<char>, pat: &Vec<char>, from: usize) -> (r: Option<usize>)
    requires
        from <= v.len(),
    ensures
        match r {
            Some(i) => find_from(v@, pat@, from as int) == Some(i as int) && i + pat@.len()
                <= v@.len(),
            None => find_from(v@, pat@, from as int) is None,
        },
{
    let mut i = from;
    while i <= v.len()
        invariant
            from <= i <= v.len() + 1,
            find_from(v@, pat@, from as int) == find_from(v@, pat@, i as int),
        decreases v.len() + 1 - i,
    {
        if occurs_at(v, pat, i) {
            return Some(i);
        }
        if i == v.len() {
            proof {
                assert(find_from(v@, pat@, i + 1) is None);
            }
            return None;
        }
        i += 1;
    }
    None
}

/// `pat` occurs somewhere in `s`.
pub open spec fn contains_text(s: Seq<char>, pat: Seq<char>) -> bool {
    find_from(s, pat, 0) is Some
}

/// Whether `pat` occurs somewhere in `s`.
pub fn contains_str(s: &str, pat: &str) -> (b: bool)
    ensures
        b == contains_text(s@, pat@),
{
    let v = chars_of(s);
    let p = chars_of(pat);
    find(&v, &p, 0).is_some()
}

/// `s` with each CR LF pair and each lone CR turned into LF.
pub open spec fn spec_normalize_newlines(s: Seq<char>) -> Seq<char>
    decreases s.len(),
{
    if s.len() == 0 {
        seq![]
    } else if s[0] == '\r' && s.len() > 1 && s[1] == '\n' {
        seq!['\n'] + spec_normalize_newlines(s.skip(2))
    } else if s[0] == '\r' {
        seq!['\n'] + spec_normalize_newlines(s.skip(1))
    } else {
        seq![s[0]] + spec_normalize_newlines(s.skip(1))
    }
}

/// `text` with each CR LF pair and each lone CR turned into LF.
pub fn normalize_newlines(text: &str) -> (r: String)
    ensures
        r@ == spec_normalize_newlines(text@),
{
    let v = chars_of(text);
    let mut out: Vec<char> = Vec::new();
    let mut i: usize = 0;
    proof {
        assert(v@.skip(0) =~= v@);
        assert(out@ + spec_normalize_newlines(v@) =~= spec_normalize_newlines(v@));
    }
    while i < v.len()
        invariant
            i <= v.len(),
            v@ == text@,
            out@ + spec_normalize_newlines(v@.skip(i as int)) == spec_normalize_newlines(v@),
        decreases v.len() - i,
    {
        let ghost rest = v@.skip(i as int);
        let ghost before = out@;
        if v[i] == '\r' && i + 1 < v.len() && v[i + 1] == '\n' {
            out.push('\n');
            proof {
                assert(rest.skip(2) =~= v@.skip(i + 2));
                assert(out@ + spec_normalize_newlines(v@.skip(i + 2)) =~= before + (seq!['\n']
                    + spec_normalize_newlines(rest.skip(2))));
            }
            i += 2;
        } else {
            if v[i] == '\r' {
                out.push('\n');
            } else {
                out.push(v[i]);
            }
            proof {
                assert(rest.skip(1) =~= v@.skip(i + 1));
                assert(out@ + spec_normalize_newlines(v@.skip(i + 1)) =~= before + (seq![out@.last()]
                    + spec_normalize_newlines(rest.skip(1))));
            }
            i += 1;
        }
    }
    proof {
        assert(v@.skip(v.len() as int) =~= Seq::<char>::empty());
        assert(out@ + Seq::<char>::empty() =~= out@);
    }
    string_from_chars(&out)
}

/// What `find_from` finds is an occurrence of `pat` at or after `i`.
pub proof fn lemma_find_from(s: Seq<char>, pat: Seq<char>, i: int)
    ensures
        find_from(s, pat, i) matches Some(j) ==> i <= j && j + pat.len() <= s.len()
            && s.subrange(j, j + pat.len()) == pat,
    decreases s.len() + 1 - i,
{
    if !(i < 0 || i + pat.len() > s.len()) && s.subrange(i, i + pat.len()) != pat {
        lemma_find_from(s, pat, i + 1);
    }
}

/// How many occurrences of the non-empty `pat` follow one another, without
/// overlapping, from `i` on, each found by searching after the last.
pub open spec fn count_from(s: Seq<char>, pat: Seq<char>, i: int) -> nat
    decreases s.len() + 1 - i,
{
    if pat.len() == 0 {
        0
    } else {
        match find_from(s, pat, i) {
            Some(j) => {
                proof {
                    lemma_find_from(s, pat, i);
                }
                1 + count_from(s, pat, j + pat.len())
            },
            None => 0,
        }
    }
}

/// The number of matches of `pat` in `s`, as `str::matches` counts them: an empty
/// pattern matches at every character boundary.
pub open spec fn match_count(s: Seq<char>, pat: Seq<char>) -> nat {
    if pat.len() == 0 {
        s.len() + 1
    } else {
        count_from(s, pat, 0)
    }
}

/// The number of matches of `pat` in `v`.
pub fn count_matches(v: &Vec<char>, pat: &Vec<char>) -> (n: usize)
    requires
        v@.len() < usize::MAX,
    ensures
        n == match_count(v@, pat@),
{
    if pat.len() == 0 {
        return v.len() + 1;
    }
    let mut n: usize = 0;
    let mut i: usize = 0;
    while i <= v.len()
        invariant
            pat@.len() > 0,
            i <= v.len() + 1,
            n <= i,
            n + count_from(v@, pat@, i as int) == count_from(v@, pat@, 0),
        decreases v.len() + 1 - i,
    {
        match find(v, pat, i) {
            Some(j) => {
                proof {
                    lemma_find_from(v@, pat@, i as int);
                }
                n = n + 1;
                i = j + pat.len();
            },
            None => {
                return n;
            },
        }
    }
    proof {
        assert(count_from(v@, pat@, i as int) == 0);
    }
    n
}

/// `s` with the first occurrence of `pat` replaced by `with`; unchanged if there is none.
pub open spec fn replace_first(s: Seq<char>, pat: Seq<char>, with: Seq<char>) -> Seq<char> {
    match find_from(s, pat, 0) {
        Some(j) => s.take(j) + with + s.skip(j + pat.len()),
        None => s,
    }
}

/// The index of the first line feed at or after `i`, or the length of `s`.
pub open spec fn newline_from(s: Seq<char>, i: int) -> int
    decreases s.len() - i,
{
    if i < 0 || i >= s.len() {
        s.len() as int
    } else if s[i] == '\n' {
        i
    } else {
        newline_from(s, i + 1)
    }
}

/// Where the search for a line feed stops.
pub proof fn lemma_newline_from(s: Seq<char>, i: int)
    requires
        0 <= i <= s.len(),
    ensures
        i <= newline_from(s, i) <= s.len(),
        newline_from(s, i) < s.len() ==> s[newline_from(s, i)] == '\n',
    decreases s.len() - i,
{
    if i < s.len() && s[i] != '\n' {
        lemma_newline_from(s, i + 1);
    }
}

/// `t` without a carriage return at its end.
pub open spec fn strip_cr(t: Seq<char>) -> Seq<char> {
    if t.len() > 0 && t.last() == '\r' {
        t.drop_last()
    } else {
        t
    }
}

/// The lines of `s` from `i` on, as `str::lines` gives them: split after each line
/// feed, which is dropped together with a carriage return before it; a last line
/// without a line feed is kept as it is.
pub open spec fn lines_from(s: Seq<char>, i: int) -> Seq<Seq<char>>
    decreases s.len() - i,
{
    if i < 0 || i >= s.len() {
        seq![]
    } else {
        let j = newline_from(s, i);
        proof {
            lemma_newline_from(s, i);
        }
        if j < s.len() {
            seq![strip_cr(s.subrange(i, j))] + lines_from(s, j + 1)
        } else {
            seq![s.subrange(i, s.len() as int)]
        }
    }
}

/// The lines of `s`, as `str::lines` gives them.
pub open spec fn spec_lines(s: Seq<char>) -> Seq<Seq<char>> {
    lines_from(s, 0)
}

/// The index of the first line feed at or after `i`, or the length of `v`.
fn next_newline(v: &Vec<char>, i: usize) -> (j: usize)
    requires
        i <= v.len(),
    ensures
        j == newline_from(v@, i as int),
{
    let mut j = i;
    while j < v.len()
        invariant
            i <= j <= v.len(),
            newline_from(v@, i as int) == newline_from(v@, j as int),
        decreases v.len() - j,
    {
        if v[j] == '\n' {
            return j;
        }
        j += 1;
    }
    j
}

/// The lines of `s`, as `str::lines` gives them.
pub fn lines_of(s: &str) -> (lines: Vec<String>)
    ensures
        texts(lines@) == spec_lines(s@),
{
    let v = chars_of(s);
    let mut out: Vec<String> = Vec::new();
    let mut i: usize = 0;
    while i < v.len()
        invariant
            i <= v.len(),
            v@ == s@,
            texts(out@) + lines_from(v@, i as int) == spec_lines(v@),
        decreases v.len() - i,
    {
        let j = next_newline(&v, i);
        let ghost before = texts(out@);
        proof {
            lemma_newline_from(v@, i as int);
        }
        if j < v.len() {
            let end = if j > i && v[j - 1] == '\r' {
                j - 1
            } else {
                j
            };
            out.push(string_from_range(&v, i, end));
            proof {
                assert(strip_cr(v@.subrange(i as int, j as int)) =~= v@.subrange(
                    i as int,
                    end as int,
                ));
                assert(texts(out@) =~= before.push(v@.subrange(i as int, end as int)));
                assert(texts(out@) + lines_from(v@, j + 1) =~= before + lines_from(v@, i as int));
            }
            i = j + 1;
        } else {
            out.push(string_from_range(&v, i, v.len()));
            proof {
                assert(texts(out@) =~= before.push(v@.subrange(i as int, v@.len() as int)));
                assert(texts(out@) + lines_from(v@, v@.len() as int) =~= before + lines_from(
                    v@,
                    i as int,
                ));
            }
            i = v.len();
        }
    }
    proof {
        assert(texts(out@) + lines_from(v@, i as int) =~= texts(out@));
    }
    out
}

} // verus!
