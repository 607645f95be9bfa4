//! Skill metadata: how skills are listed for the model within a context budget,
//! which `$name` invocations a message makes, and how a catalog is assembled.
use vstd::prelude::*;

use crate::error::Error;
use crate::text::{texts, all_white_space, is_all_white_space, find, find_from, join_path, path_join, decimal, decimal_string, join, joined_with, text_less, text_lt, lemma_encode_concat, lemma_encode_push, utf8_len, utf8_byte_len, chars_of, concat, is_white_space, string_from_chars, string_from_range, white_space};

verus! {

/// Percent of the context window that skill metadata may take.
pub const SKILL_METADATA_CONTEXT_PERCENT: usize = 2;

/// Bytes counted as one token when costing prompt lines.
pub const APPROX_BYTES_PER_TOKEN: usize = 4;

/// Longest description, in characters, that is listed before it is cut.
pub const MAX_DESCRIPTION_CHARS: usize = 1024;

/// A discovered skill.
#[derive(Debug, Clone, PartialEq, Eq)]
pub struct SkillInfo {
    pub name: String,
    pub description: String,
    pub path: String,
    pub allow_implicit_invocation: bool,
}

/// The listing line of a skill with the given (possibly shortened) description.
pub open spec fn spec_format_skill(
    name: Seq<char>,
    description: Seq<char>,
    implicit: bool,
    path: Seq<char>,
) -> Seq<char> {
    "- $"@ + name + ": "@ + (if description.len() == 0 {
        Seq::<char>::empty()
    } else {
        description + " "@
    }) + "["@ + (if implicit {
        "implicit allowed"@
    } else {
        "explicit only"@
    }) + "] ("@ + path + ")"@
}

/// The listing line of `skill` with `description` in place of its own.
pub fn format_skill(skill: &SkillInfo, description: &str) -> (line: String)
    ensures
        line@ == spec_format_skill(
            skill.name@,
            description@,
            skill.allow_implicit_invocation,
            skill.path@,
        ),
{
    let mut line = concat("- $", skill.name.as_str());
    line.append(": ");
    if !description.is_empty() {
        line.append(description);
        line.append(" ");
    }
    line.append("[");
    if skill.allow_implicit_invocation {
        line.append("implicit allowed");
    } else {
        line.append("explicit only");
    }
    line.append("] (");
    line.append(skill.path.as_str());
    line.append(")");
    proof {
        if description@.len() == 0 {
            assert(description@ =~= Seq::<char>::empty());
        }
        let d = if description@.len() == 0 {
            Seq::<char>::empty()
        } else {
            description@ + " "@
        };
        let imp = if skill.allow_implicit_invocation {
            "implicit allowed"@
        } else {
            "explicit only"@
        };
        assert(line@ =~= "- $"@ + skill.name@ + ": "@ + d + "["@ + imp + "] ("@ + skill.path@
            + ")"@);
    }
    line
}

/// `a + b`, or `usize::MAX` when that does not fit.
pub open spec fn sat_add(a: int, b: int) -> int {
    if a + b > usize::MAX {
        usize::MAX as int
    } else {
        a + b
    }
}

/// Tokens a prompt line costs: its bytes plus a line break, rounded up to whole tokens.
pub open spec fn spec_line_cost(line: Seq<char>) -> int {
    sat_add(sat_add(utf8_len(line), 1), 3) / 4
}

/// Tokens a prompt line costs.
pub fn line_cost(line: &str) -> (c: usize)
    ensures
        c as int == spec_line_cost(line@),
{
    utf8_byte_len(line).saturating_add(1).saturating_add(APPROX_BYTES_PER_TOKEN - 1) / APPROX_BYTES_PER_TOKEN
}

/// Tokens a list of prompt lines costs.
pub open spec fn spec_lines_cost(lines: Seq<Seq<char>>) -> int
    decreases lines.len(),
{
    if lines.len() == 0 {
        0
    } else {
        spec_lines_cost(lines.drop_last()) + spec_line_cost(lines.last())
    }
}

/// Tokens a list of prompt lines costs, saturating at `usize::MAX`.
pub fn lines_cost(lines: &Vec<String>) -> (c: usize)
    ensures
        c as int == (if spec_lines_cost(texts(lines@)) > usize::MAX {
            usize::MAX as int
        } else {
            spec_lines_cost(texts(lines@))
        }),
{
    let mut total: usize = 0;
    let mut i: usize = 0;
    while i < lines.len()
        invariant
            i <= lines.len(),
            total as int == (if spec_lines_cost(texts(lines@).take(i as int)) > usize::MAX {
                usize::MAX as int
            } else {
                spec_lines_cost(texts(lines@).take(i as int))
            }),
        decreases lines.len() - i,
    {
        proof {
            assert(texts(lines@).take(i + 1).drop_last() =~= texts(lines@).take(i as int));
            lemma_lines_cost_nonneg(texts(lines@).take(i as int));
        }
        let c = line_cost(lines[i].as_str());
        total = total.saturating_add(c);
        i += 1;
    }
    proof {
        assert(texts(lines@).take(lines.len() as int) =~= texts(lines@));
    }
    total
}

/// The cost of a prefix never exceeds the cost of the whole list.
pub proof fn lemma_lines_cost_prefix(lines: Seq<Seq<char>>, k: int)
    requires
        0 <= k <= lines.len(),
    ensures
        0 <= spec_lines_cost(lines.take(k)) <= spec_lines_cost(lines),
    decreases lines.len() - k,
{
    lemma_lines_cost_nonneg(lines.take(k));
    if k < lines.len() {
        lemma_lines_cost_prefix(lines, k + 1);
        assert(lines.take(k + 1).drop_last() =~= lines.take(k));
    } else {
        assert(lines.take(k) =~= lines);
    }
}

/// Costs are never negative.
pub proof fn lemma_lines_cost_nonneg(lines: Seq<Seq<char>>)
    ensures
        spec_lines_cost(lines) >= 0,
    decreases lines.len(),
{
    if lines.len() > 0 {
        lemma_lines_cost_nonneg(lines.drop_last());
    }
}

/// A character allowed in a skill name invocation.
pub open spec fn is_name_char(c: char) -> bool {
    ||| ('a' <= c && c <= 'z')
    ||| ('A' <= c && c <= 'Z')
    ||| ('0' <= c && c <= '9')
    ||| c == '-'
    ||| c == '_'
}

fn name_char(c: char) -> (b: bool)
    ensures
        b == is_name_char(c),
{
    ('a' <= c && c <= 'z') || ('A' <= c && c <= 'Z') || ('0' <= c && c <= '9') || c == '-' || c
        == '_'
}

/// Splitting `s[..i]` at white space: the finished words and the word still open.
pub open spec fn split_words(s: Seq<char>, i: int) -> (Seq<Seq<char>>, Seq<char>)
    decreases i,
{
    if i <= 0 {
        (seq![], seq![])
    } else {
        let (done, cur) = split_words(s, i - 1);
        if is_white_space(s[i - 1]) {
            if cur.len() > 0 {
                (done.push(cur), seq![])
            } else {
                (done, cur)
            }
        } else {
            (done, cur.push(s[i - 1]))
        }
    }
}

/// The white-space separated words of `s`, in order.
pub open spec fn words(s: Seq<char>) -> Seq<Seq<char>> {
    let (done, cur) = split_words(s, s.len() as int);
    if cur.len() > 0 {
        done.push(cur)
    } else {
        done
    }
}

/// Index of the first name character of `w` at or after `i` (or `w.len()`).
pub open spec fn first_name_char(w: Seq<char>, i: int) -> int
    decreases w.len() - i,
{
    if i >= w.len() {
        w.len() as int
    } else if is_name_char(w[i]) {
        i
    } else {
        first_name_char(w, i + 1)
    }
}

/// One past the last name character of `w[lo..j]` (or `lo`).
pub open spec fn last_name_end(w: Seq<char>, lo: int, j: int) -> int
    decreases j - lo,
{
    if j <= lo {
        lo
    } else if is_name_char(w[j - 1]) {
        j
    } else {
        last_name_end(w, lo, j - 1)
    }
}

/// `w` without the characters at either end that cannot be part of a name.
pub open spec fn trim_name(w: Seq<char>) -> Seq<char> {
    let lo = first_name_char(w, 0);
    w.subrange(lo, last_name_end(w, lo, w.len() as int))
}

/// The names invoked with `$name` in the words `ws`.
pub open spec fn names_in(ws: Seq<Seq<char>>) -> Seq<Seq<char>>
    decreases ws.len(),
{
    if ws.len() == 0 {
        seq![]
    } else {
        let rest = names_in(ws.drop_last());
        let w = ws.last();
        if w.len() > 0 && w[0] == '$' && trim_name(w.drop_first()).len() > 0 {
            rest.push(trim_name(w.drop_first()))
        } else {
            rest
        }
    }
}

/// The skill names a message invokes explicitly, in order.
pub open spec fn spec_explicit_names(input: Seq<char>) -> Seq<Seq<char>> {
    names_in(words(input))
}

/// The name invoked by the word `w`, if it invokes one.
fn word_name(w: &Vec<char>) -> (r: Option<String>)
    ensures
        match r {
            Some(n) => w@.len() > 0 && w@[0] == '$' && trim_name(w@.drop_first()).len() > 0
                && n@ == trim_name(w@.drop_first()),
            None => !(w@.len() > 0 && w@[0] == '$' && trim_name(w@.drop_first()).len() > 0),
        },
{
    if w.len() == 0 || w[0] != '$' {
        return None;
    }
    let ghost rest = w@.drop_first();
    let mut lo: usize = 1;
    while lo < w.len() && !name_char(w[lo])
        invariant
            1 <= lo <= w.len(),
            rest == w@.drop_first(),
            first_name_char(rest, 0) == first_name_char(rest, lo - 1),
        decreases w.len() - lo,
    {
        proof {
            assert(rest[lo - 1] == w@[lo as int]);
        }
        lo += 1;
    }
    let mut hi: usize = w.len();
    while hi > lo && !name_char(w[hi - 1])
        invariant
            1 <= lo <= hi <= w.len(),
            rest == w@.drop_first(),
            last_name_end(rest, lo - 1, rest.len() as int) == last_name_end(rest, lo - 1, hi - 1),
        decreases hi,
    {
        proof {
            assert(rest[hi - 2] == w@[hi - 1]);
        }
        hi -= 1;
    }
    proof {
        assert(first_name_char(rest, 0) == lo - 1);
        assert(last_name_end(rest, lo - 1, rest.len() as int) == hi - 1);
        assert(rest.subrange(lo - 1, hi - 1) =~= w@.subrange(lo as int, hi as int));
    }
    if hi == lo {
        None
    } else {
        Some(string_from_range(w, lo, hi))
    }
}

/// The skill names a message invokes with `$name`, in order.
pub fn explicit_names(input: &str) -> (names: Vec<String>)
    ensures
        texts(names@) == spec_explicit_names(input@),
{
    let chars = chars_of(input);
    let mut names: Vec<String> = Vec::new();
    let mut cur: Vec<char> = Vec::new();
    let mut i: usize = 0;
    while i < chars.len()
        invariant
            i <= chars.len(),
            chars@ == input@,
            split_words(chars@, i as int).1 == cur@,
            texts(names@) == names_in(split_words(chars@, i as int).0),
        decreases chars.len() - i,
    {
        let c = chars[i];
        if white_space(c) {
            if cur.len() > 0 {
                let found = word_name(&cur);
                if let Some(n) = found {
                    names.push(n);
                }
                proof {
                    let done = split_words(chars@, i as int).0;
                    assert(done.push(cur@).drop_last() =~= done);
                }
                cur = Vec::new();
            }
        } else {
            cur.push(c);
        }
        i += 1;
        proof {
            assert(texts(names@) =~= names_in(split_words(chars@, i as int).0));
        }
    }
    if cur.len() > 0 {
        let found = word_name(&cur);
        if let Some(n) = found {
            names.push(n);
        }
        proof {
            let done = split_words(chars@, chars.len() as int).0;
            assert(done.push(cur@).drop_last() =~= done);
        }
    }
    proof {
        assert(texts(names@) =~= spec_explicit_names(input@));
    }
    names
}

/// The characters listed for a description: at most 1024, the longest cut to 1021
/// followed by `...`.
pub open spec fn spec_description(d: Seq<char>) -> Seq<char> {
    if d.len() > MAX_DESCRIPTION_CHARS {
        d.take(MAX_DESCRIPTION_CHARS - 3) + seq!['.', '.', '.']
    } else {
        d
    }
}

/// The listed description of a skill.
pub open spec fn desc_of(skill: SkillInfo) -> Seq<char> {
    spec_description(skill.description@)
}

/// The listing line of a skill showing the first `k` characters of its description.
pub open spec fn line_of(skill: SkillInfo, k: int) -> Seq<char> {
    spec_format_skill(
        skill.name@,
        desc_of(skill).take(k),
        skill.allow_implicit_invocation,
        skill.path@,
    )
}

/// The listing lines of the skills without descriptions.
pub open spec fn minimum_lines(skills: Seq<SkillInfo>) -> Seq<Seq<char>> {
    Seq::new(skills.len(), |i: int| line_of(skills[i], 0))
}

/// The listing lines when skill `i` shows `alloc[i]` characters of its description.
pub open spec fn listed_with(skills: Seq<SkillInfo>, alloc: Seq<int>) -> Seq<Seq<char>> {
    Seq::new(skills.len(), |i: int| line_of(skills[i], alloc[i]))
}

/// Tokens the skill listing may take: 2% of the context window, at least one.
pub open spec fn spec_budget(context_window: u32) -> int {
    let scaled = if context_window as int * SKILL_METADATA_CONTEXT_PERCENT > usize::MAX {
        usize::MAX as int
    } else {
        context_window as int * SKILL_METADATA_CONTEXT_PERCENT
    };
    let budget = scaled / 100;
    if budget < 1 {
        1
    } else {
        budget
    }
}

/// Lines taken in order while their running cost stays within `budget`; a line that
/// does not fit is skipped and later, cheaper ones may still be taken.
pub open spec fn greedy_lines(lines: Seq<Seq<char>>, budget: int, used: int) -> Seq<Seq<char>>
    decreases lines.len(),
{
    if lines.len() == 0 {
        seq![]
    } else {
        let c = spec_line_cost(lines[0]);
        if sat_add(used, c) <= budget {
            seq![lines[0]] + greedy_lines(lines.drop_first(), budget, sat_add(used, c))
        } else {
            greedy_lines(lines.drop_first(), budget, used)
        }
    }
}

/// `alloc` gives each skill a prefix of its description such that the listing fits
/// in `budget` and no single description could show one more character.
pub open spec fn allocation_is_maximal(skills: Seq<SkillInfo>, alloc: Seq<int>, budget: int) -> bool {
    &&& alloc.len() == skills.len()
    &&& forall|i: int| 0 <= i < skills.len() ==> 0 <= #[trigger] alloc[i] <= desc_of(skills[i]).len()
    &&& spec_lines_cost(listed_with(skills, alloc)) <= budget
    &&& forall|i: int|
        0 <= i < skills.len() && #[trigger] alloc[i] < desc_of(skills[i]).len() ==> spec_lines_cost(
            listed_with(skills, alloc.update(i, alloc[i] + 1)),
        ) > budget
}

/// One round of handing out description characters, from skill `index` on: each skill
/// whose description is not all shown gets one more character if the cost that adds
/// is within what `remaining` leaves. Gives the allocation, what remains, and whether
/// any skill got a character.
pub open spec fn round_step(
    skills: Seq<SkillInfo>,
    alloc: Seq<int>,
    remaining: int,
    changed: bool,
    index: int,
) -> (Seq<int>, int, bool)
    decreases skills.len() - index,
{
    if index < 0 || index >= skills.len() {
        (alloc, remaining, changed)
    } else if alloc[index] < desc_of(skills[index]).len() {
        let now = spec_line_cost(line_of(skills[index], alloc[index]));
        let next = spec_line_cost(line_of(skills[index], alloc[index] + 1));
        let delta = if next >= now {
            next - now
        } else {
            0
        };
        if delta <= remaining {
            round_step(
                skills,
                alloc.update(index, alloc[index] + 1),
                remaining - delta,
                true,
                index + 1,
            )
        } else {
            round_step(skills, alloc, remaining, changed, index + 1)
        }
    } else {
        round_step(skills, alloc, remaining, changed, index + 1)
    }
}

/// Rounds of `round_step` from skill 0, at most `rounds` of them, until one hands out
/// nothing.
pub open spec fn round_robin(skills: Seq<SkillInfo>, alloc: Seq<int>, remaining: int, rounds: nat) -> Seq<
    int,
>
    decreases rounds,
{
    if rounds == 0 {
        alloc
    } else {
        let (next, left, changed) = round_step(skills, alloc, remaining, false, 0);
        if changed {
            round_robin(skills, next, left, (rounds - 1) as nat)
        } else {
            alloc
        }
    }
}

/// The description characters each skill shows: starting from none, rounds over the
/// skills in order give each one more character while the budget allows, until a
/// round gives none (there are never more rounds than characters to give).
pub open spec fn robin_allocation(skills: Seq<SkillInfo>, budget: int) -> Seq<int> {
    let zero = Seq::new(skills.len(), |i: int| 0int);
    round_robin(
        skills,
        zero,
        budget - spec_lines_cost(minimum_lines(skills)),
        (slack(skills, zero, skills.len() as int) + 1) as nat,
    )
}

/// `lines` list `skills` for a model with `context_window` tokens, `shortened` tells
/// whether a description was cut for the budget and `omitted` how many skills were
/// left out. When the lines without descriptions do not fit, they are taken greedily
/// and all descriptions are dropped; otherwise every skill is listed with the
/// description prefix that `robin_allocation` gives it, which is maximal.
pub open spec fn listing_ok(
    skills: Seq<SkillInfo>,
    context_window: u32,
    lines: Seq<Seq<char>>,
    shortened: bool,
    omitted: int,
) -> bool {
    let budget = spec_budget(context_window);
    if spec_lines_cost(minimum_lines(skills)) > budget {
        &&& lines == greedy_lines(minimum_lines(skills), budget, 0)
        &&& shortened
        &&& omitted == skills.len() - lines.len()
    } else {
        &&& omitted == 0
        &&& lines == listed_with(skills, robin_allocation(skills, budget))
        &&& shortened == (exists|i: int|
            0 <= i < skills.len() && #[trigger] robin_allocation(skills, budget)[i] < desc_of(
                skills[i],
            ).len())
        &&& exists|alloc: Seq<int>|
            #![trigger listed_with(skills, alloc)]
            allocation_is_maximal(skills, alloc, budget) && lines == listed_with(skills, alloc)
                && shortened == (exists|i: int|
                0 <= i < skills.len() && #[trigger] alloc[i] < desc_of(skills[i]).len())
    }
}

/// The skill listing never costs more than its budget, and skills are left out only
/// when even their lines without descriptions do not fit: otherwise every skill is
/// listed and only descriptions are shortened.
pub proof fn lemma_listing_within_budget(
    skills: Seq<SkillInfo>,
    context_window: u32,
    lines: Seq<Seq<char>>,
    shortened: bool,
    omitted: int,
)
    requires
        listing_ok(skills, context_window, lines, shortened, omitted),
    ensures
        spec_lines_cost(lines) <= spec_budget(context_window),
        spec_lines_cost(minimum_lines(skills)) <= spec_budget(context_window) ==> omitted == 0
            && lines.len() == skills.len(),
        omitted > 0 ==> shortened,
{
    let budget = spec_budget(context_window);
    if spec_lines_cost(minimum_lines(skills)) > budget {
        lemma_greedy_cost(minimum_lines(skills), budget, 0);
    } else {
        let alloc = choose|alloc: Seq<int>|
            #![trigger listed_with(skills, alloc)]
            allocation_is_maximal(skills, alloc, budget) && lines == listed_with(skills, alloc)
                && shortened == (exists|i: int|
                0 <= i < skills.len() && #[trigger] alloc[i] < desc_of(skills[i]).len());
        assert(listed_with(skills, alloc).len() == skills.len());
    }
}

/// The cost of two lists together is the sum of their costs.
pub proof fn lemma_lines_cost_concat(a: Seq<Seq<char>>, b: Seq<Seq<char>>)
    ensures
        spec_lines_cost(a + b) == spec_lines_cost(a) + spec_lines_cost(b),
    decreases b.len(),
{
    if b.len() == 0 {
        assert(a + b =~= a);
    } else {
        assert((a + b).drop_last() =~= a + b.drop_last());
        lemma_lines_cost_concat(a, b.drop_last());
    }
}

/// Greedily taken lines cost at most what is left of the budget.
proof fn lemma_greedy_cost(lines: Seq<Seq<char>>, budget: int, used: int)
    requires
        0 <= used <= budget < usize::MAX,
    ensures
        spec_lines_cost(greedy_lines(lines, budget, used)) <= budget - used,
    decreases lines.len(),
{
    if lines.len() > 0 {
        let c = spec_line_cost(lines[0]);
        let rest = lines.drop_first();
        assert(utf8_len(lines[0]) >= 0);
        assert(c >= 0);
        if sat_add(used, c) <= budget {
            assert(used + c <= budget);
            lemma_greedy_cost(rest, budget, used + c);
            lemma_lines_cost_concat(seq![lines[0]], greedy_lines(rest, budget, used + c));
            let one = seq![lines[0]];
            assert(one.drop_last() =~= Seq::<Seq<char>>::empty());
            assert(spec_lines_cost(one.drop_last()) == 0);
            assert(one.last() == lines[0]);
            assert(spec_lines_cost(one) == spec_lines_cost(one.drop_last()) + spec_line_cost(one.last()));
        } else {
            lemma_greedy_cost(rest, budget, used);
        }
    }
}

/// Characters of descriptions not yet shown, over the first `k` skills.
pub open spec fn slack(skills: Seq<SkillInfo>, alloc: Seq<int>, k: int) -> int
    decreases k,
{
    if k <= 0 {
        0
    } else {
        slack(skills, alloc, k - 1) + (desc_of(skills[k - 1]).len() - alloc[k - 1])
    }
}

/// Showing one more character of one description lowers the slack by one.
proof fn lemma_slack_step(skills: Seq<SkillInfo>, alloc: Seq<int>, i: int, k: int)
    requires
        0 <= i < alloc.len(),
        0 <= k <= alloc.len(),
    ensures
        slack(skills, alloc.update(i, alloc[i] + 1), k) == slack(skills, alloc, k) - (if i < k {
            1int
        } else {
            0int
        }),
    decreases k,
{
    if k > 0 {
        lemma_slack_step(skills, alloc, i, k - 1);
    }
}

/// Slack is never negative while every allocation is within its description.
proof fn lemma_slack_nonneg(skills: Seq<SkillInfo>, alloc: Seq<int>, k: int)
    requires
        0 <= k <= alloc.len(),
        alloc.len() == skills.len(),
        forall|i: int| 0 <= i < skills.len() ==> 0 <= #[trigger] alloc[i] <= desc_of(skills[i]).len(),
    ensures
        slack(skills, alloc, k) >= 0,
    decreases k,
{
    if k > 0 {
        lemma_slack_nonneg(skills, alloc, k - 1);
        assert(alloc[k - 1] <= desc_of(skills[k - 1]).len());
    }
}

/// Replacing one line changes the total cost by the difference of the two lines.
pub proof fn lemma_lines_cost_update(lines: Seq<Seq<char>>, i: int, x: Seq<char>)
    requires
        0 <= i < lines.len(),
    ensures
        spec_lines_cost(lines.update(i, x)) == spec_lines_cost(lines) - spec_line_cost(lines[i])
            + spec_line_cost(x),
    decreases lines.len(),
{
    if i < lines.len() - 1 {
        lemma_lines_cost_update(lines.drop_last(), i, x);
        assert(lines.update(i, x).drop_last() =~= lines.drop_last().update(i, x));
    } else {
        assert(lines.update(i, x).drop_last() =~= lines.drop_last());
    }
}

/// Showing one more character of a description never makes its line cheaper.
pub proof fn lemma_line_cost_grows(skill: SkillInfo, k: int)
    requires
        0 <= k < desc_of(skill).len(),
    ensures
        spec_line_cost(line_of(skill, k)) <= spec_line_cost(line_of(skill, k + 1)),
{
    let d = desc_of(skill);
    let pre = "- $"@ + skill.name@ + ": "@;
    let imp = if skill.allow_implicit_invocation {
        "implicit allowed"@
    } else {
        "explicit only"@
    };
    let post = "["@ + imp + "] ("@ + skill.path@ + ")"@;
    let part = |j: int|
        if d.take(j).len() == 0 {
            Seq::<char>::empty()
        } else {
            d.take(j) + " "@
        };
    assert(line_of(skill, k) =~= pre + part(k) + post);
    assert(line_of(skill, k + 1) =~= pre + part(k + 1) + post);
    lemma_encode_concat(pre + part(k), post);
    lemma_encode_concat(pre, part(k));
    lemma_encode_concat(pre + part(k + 1), post);
    lemma_encode_concat(pre, part(k + 1));
    assert(d.take(k + 1) =~= d.take(k).push(d[k]));
    lemma_encode_push(d.take(k), d[k]);
    lemma_encode_concat(d.take(k + 1), " "@);
    if k > 0 {
        lemma_encode_concat(d.take(k), " "@);
    }
}

/// The listed description of a skill.
fn listed_description(skill: &SkillInfo) -> (d: Vec<char>)
    ensures
        d@ == desc_of(*skill),
{
    let mut chars = chars_of(skill.description.as_str());
    if chars.len() > MAX_DESCRIPTION_CHARS {
        chars.truncate(MAX_DESCRIPTION_CHARS - 3);
        chars.push('.');
        chars.push('.');
        chars.push('.');
        proof {
            assert(chars@ =~= desc_of(*skill));
        }
    }
    chars
}

/// Lists skills for the model within 2% of the context window. When even the lines
/// without descriptions do not fit, descriptions are dropped and lines are taken in
/// order while they fit; otherwise every skill is listed and each shows the longest
/// description prefix the budget leaves it. Returns the lines, whether any
/// description was shortened, and how many skills were left out.
pub fn prompt_lines(skills: &Vec<SkillInfo>, context_window: u32) -> (r: (Vec<String>, bool, usize))
    ensures
        listing_ok(skills@, context_window, texts(r.0@), r.1, r.2 as int),
{
    let window = context_window as usize;
    let scaled = if window > usize::MAX / SKILL_METADATA_CONTEXT_PERCENT {
        usize::MAX
    } else {
        window * SKILL_METADATA_CONTEXT_PERCENT
    };
    let budget0 = scaled / 100;
    let budget = if budget0 < 1 { 1 } else { budget0 };
    let ghost b = spec_budget(context_window);
    assert(budget as int == b);
    let n = skills.len();
    let mut descriptions: Vec<Vec<char>> = Vec::new();
    let mut minimum: Vec<String> = Vec::new();
    let mut i: usize = 0;
    while i < n
        invariant
            n == skills@.len(),
            i <= n,
            descriptions@.len() == i,
            minimum@.len() == i,
            forall|j: int| 0 <= j < i ==> (#[trigger] descriptions@[j])@ == desc_of(skills@[j]),
            forall|j: int| 0 <= j < i ==> (#[trigger] minimum@[j])@ == line_of(skills@[j], 0),
        decreases n - i,
    {
        descriptions.push(listed_description(&skills[i]));
        let line = format_skill(&skills[i], "");
        proof {
            reveal_strlit("");
            assert(""@ =~= desc_of(skills@[i as int]).take(0));
        }
        minimum.push(line);
        i += 1;
    }
    proof {
        assert(texts(minimum@) =~= minimum_lines(skills@));
    }
    let minimum_cost = lines_cost(&minimum);
    if minimum_cost > budget {
        let mut used: usize = 0;
        let mut included: Vec<String> = Vec::new();
        let mut k: usize = 0;
        proof {
            assert(texts(included@) =~= Seq::<Seq<char>>::empty());
            assert(texts(minimum@).skip(0) =~= texts(minimum@));
        }
        while k < n
            invariant
                n == skills@.len(),
                k <= n,
                minimum@.len() == n,
                texts(minimum@) == minimum_lines(skills@),
                budget as int == b,
                texts(included@) + greedy_lines(texts(minimum@).skip(k as int), b, used as int)
                    == greedy_lines(minimum_lines(skills@), b, 0),
            decreases n - k,
        {
            let cost = line_cost(minimum[k].as_str());
            proof {
                assert(texts(minimum@).skip(k as int).drop_first() =~= texts(minimum@).skip(k + 1));
                assert(texts(minimum@).skip(k as int)[0] == minimum@[k as int]@);
            }
            if used.saturating_add(cost) <= budget {
                used = used.saturating_add(cost);
                let line = minimum[k].clone();
                proof {
                    assert(texts(included@.push(line)) =~= texts(included@) + seq![line@]);
                }
                included.push(line);
            }
            k += 1;
        }
        proof {
            assert(texts(minimum@).skip(n as int) =~= Seq::<Seq<char>>::empty());
            lemma_greedy_len(minimum_lines(skills@), b, 0);
        }
        let count = included.len();
        return (included, true, n - count);
    }
    let mut allocated: Vec<usize> = Vec::new();
    let mut costs: Vec<usize> = Vec::new();
    i = 0;
    while i < n
        invariant
            n == skills@.len(),
            i <= n,
            minimum@.len() == n,
            texts(minimum@) == minimum_lines(skills@),
            allocated@.len() == i,
            costs@.len() == i,
            forall|j: int| 0 <= j < i ==> #[trigger] allocated@[j] == 0,
            forall|j: int| 0 <= j < i ==> #[trigger] costs@[j] as int == spec_line_cost(
                line_of(skills@[j], 0),
            ),
        decreases n - i,
    {
        allocated.push(0);
        costs.push(line_cost(minimum[i].as_str()));
        proof {
            assert(minimum@[i as int]@ == texts(minimum@)[i as int]);
        }
        i += 1;
    }
    let ghost alloc0 = Seq::new(n as nat, |j: int| 0int);
    proof {
        assert(listed_with(skills@, alloc0) =~= minimum_lines(skills@));
    }
    let mut remaining: usize = budget - minimum_cost;
    let mut changed = true;
    let ghost mut alloc: Seq<int> = alloc0;
    let ghost target = robin_allocation(skills@, b);
    let ghost mut fuel: nat = (slack(skills@, alloc0, n as int) + 1) as nat;
    proof {
        assert(alloc0 =~= Seq::new(skills@.len(), |i: int| 0int));
        lemma_slack_nonneg(skills@, alloc0, n as int);
    }
    while changed
        invariant
            target == robin_allocation(skills@, b),
            changed ==> round_robin(skills@, alloc, remaining as int, fuel) == target,
            changed ==> fuel > slack(skills@, alloc, n as int),
            !changed ==> alloc == target,
            n == skills@.len(),
            descriptions@.len() == n,
            forall|j: int| 0 <= j < n ==> (#[trigger] descriptions@[j])@ == desc_of(skills@[j]),
            budget as int == b,
            alloc.len() == n,
            allocated@.len() == n,
            costs@.len() == n,
            forall|j: int| 0 <= j < n ==> #[trigger] allocated@[j] as int == alloc[j],
            forall|j: int| 0 <= j < n ==> 0 <= #[trigger] alloc[j] <= desc_of(skills@[j]).len(),
            forall|j: int| 0 <= j < n ==> #[trigger] costs@[j] as int == spec_line_cost(
                line_of(skills@[j], alloc[j]),
            ),
            remaining as int == b - spec_lines_cost(listed_with(skills@, alloc)),
            !changed ==> allocation_is_maximal(skills@, alloc, b),
        decreases slack(skills@, alloc, n as int) + (if changed { 1int } else { 0int }),
    {
        changed = false;
        let ghost start_alloc = alloc;
        let ghost start_rem = remaining as int;
        proof {
            lemma_slack_nonneg(skills@, alloc, n as int);
        }
        let mut index: usize = 0;
        while index < n
            invariant
                round_step(skills@, start_alloc, start_rem, false, 0) == round_step(
                    skills@,
                    alloc,
                    remaining as int,
                    changed,
                    index as int,
                ),
                n == skills@.len(),
                index <= n,
                descriptions@.len() == n,
                forall|j: int| 0 <= j < n ==> (#[trigger] descriptions@[j])@ == desc_of(skills@[j]),
                budget as int == b,
                alloc.len() == n,
                allocated@.len() == n,
                costs@.len() == n,
                forall|j: int| 0 <= j < n ==> #[trigger] allocated@[j] as int == alloc[j],
                forall|j: int| 0 <= j < n ==> 0 <= #[trigger] alloc[j] <= desc_of(skills@[j]).len(),
                forall|j: int| 0 <= j < n ==> #[trigger] costs@[j] as int == spec_line_cost(
                    line_of(skills@[j], alloc[j]),
                ),
                remaining as int == b - spec_lines_cost(listed_with(skills@, alloc)),
                changed ==> slack(skills@, alloc, n as int) < slack(skills@, start_alloc, n as int),
                !changed ==> alloc == start_alloc,
                !changed ==> forall|j: int|
                    0 <= j < index && #[trigger] alloc[j] < desc_of(skills@[j]).len()
                        ==> spec_lines_cost(listed_with(skills@, alloc.update(j, alloc[j] + 1)))
                        > b,
            decreases n - index,
        {
            if allocated[index] < descriptions[index].len() {
                let next = allocated[index] + 1;
                let description = string_from_range(&descriptions[index], 0, next);
                let line = format_skill(&skills[index], description.as_str());
                let next_cost = line_cost(line.as_str());
                let delta = next_cost.saturating_sub(costs[index]);
                let ghost new_alloc = alloc.update(index as int, next as int);
                proof {
                    assert(description@ =~= desc_of(skills@[index as int]).take(next as int));
                    assert(listed_with(skills@, new_alloc) =~= listed_with(skills@, alloc).update(
                        index as int,
                        line@,
                    ));
                    lemma_lines_cost_update(listed_with(skills@, alloc), index as int, line@);
                    lemma_slack_step(skills@, alloc, index as int, n as int);
                    lemma_line_cost_grows(skills@[index as int], alloc[index as int]);
                    assert(listed_with(skills@, alloc)[index as int] == line_of(
                        skills@[index as int],
                        alloc[index as int],
                    ));
                }
                if delta <= remaining {
                    allocated.set(index, next);
                    costs.set(index, next_cost);
                    remaining = remaining - delta;
                    proof {
                        alloc = new_alloc;
                    }
                    changed = true;
                }
            }
            index += 1;
        }
        proof {
            lemma_slack_nonneg(skills@, alloc, n as int);
            if changed {
                fuel = (fuel - 1) as nat;
            }
        }
    }
    let mut shortened = false;
    let mut lines: Vec<String> = Vec::new();
    i = 0;
    while i < n
        invariant
            n == skills@.len(),
            i <= n,
            descriptions@.len() == n,
            forall|j: int| 0 <= j < n ==> (#[trigger] descriptions@[j])@ == desc_of(skills@[j]),
            alloc.len() == n,
            allocated@.len() == n,
            forall|j: int| 0 <= j < n ==> #[trigger] allocated@[j] as int == alloc[j],
            forall|j: int| 0 <= j < n ==> 0 <= #[trigger] alloc[j] <= desc_of(skills@[j]).len(),
            lines@.len() == i,
            forall|j: int| 0 <= j < i ==> (#[trigger] lines@[j])@ == line_of(skills@[j], alloc[j]),
            shortened == (exists|j: int| 0 <= j < i && #[trigger] alloc[j] < desc_of(skills@[j]).len()),
        decreases n - i,
    {
        if allocated[i] < descriptions[i].len() {
            shortened = true;
        }
        let description = string_from_range(&descriptions[i], 0, allocated[i]);
        proof {
            assert(description@ =~= desc_of(skills@[i as int]).take(alloc[i as int]));
        }
        lines.push(format_skill(&skills[i], description.as_str()));
        i += 1;
    }
    proof {
        assert(texts(lines@) =~= listed_with(skills@, alloc));
    }
    (lines, shortened, 0)
}

/// Greedy selection never takes more lines than it is offered.
proof fn lemma_greedy_len(lines: Seq<Seq<char>>, budget: int, used: int)
    ensures
        greedy_lines(lines, budget, used).len() <= lines.len(),
    decreases lines.len(),
{
    if lines.len() > 0 {
        let c = spec_line_cost(lines[0]);
        lemma_greedy_len(lines.drop_first(), budget, sat_add(used, c));
        lemma_greedy_len(lines.drop_first(), budget, used);
    }
}

/// The names of skills appear in ascending order.
pub open spec fn sorted_by_name(skills: Seq<SkillInfo>) -> bool {
    forall|i: int, j: int|
        0 <= i < j < skills.len() ==> !text_lt(#[trigger] skills[j].name@, #[trigger] skills[i].name@)
}

/// `text_lt` is a strict total order on texts.
pub proof fn lemma_text_lt_total(a: Seq<char>, b: Seq<char>)
    ensures
        !text_lt(a, b) && !text_lt(b, a) ==> a == b,
        text_lt(a, b) ==> !text_lt(b, a),
    decreases a.len(),
{
    if a.len() > 0 && b.len() > 0 {
        lemma_text_lt_total(a.drop_first(), b.drop_first());
        if a[0] == b[0] && a.drop_first() == b.drop_first() {
            assert(a =~= seq![a[0]] + a.drop_first());
            assert(b =~= seq![b[0]] + b.drop_first());
        }
        vstd::utf8::char_u32_cast(a[0], a[0] as u32);
        vstd::utf8::char_u32_cast(b[0], b[0] as u32);
    } else if a.len() == 0 && b.len() == 0 {
        assert(a =~= b);
    }
}

/// `text_lt` is transitive, and not being below is transitive too.
pub proof fn lemma_text_lt_trans(a: Seq<char>, b: Seq<char>, c: Seq<char>)
    ensures
        text_lt(a, b) && text_lt(b, c) ==> text_lt(a, c),
        !text_lt(b, a) && !text_lt(c, b) ==> !text_lt(c, a),
    decreases a.len(),
{
    lemma_text_lt_total(a, b);
    lemma_text_lt_total(b, c);
    lemma_text_lt_total(a, c);
    if a.len() > 0 && b.len() > 0 && c.len() > 0 {
        lemma_text_lt_trans(a.drop_first(), b.drop_first(), c.drop_first());
    }
}

/// Sorts skills by name (stable insertion sort).
pub fn sort_by_name(skills: &mut Vec<SkillInfo>)
    ensures
        sorted_by_name(final(skills)@),
        final(skills)@.to_multiset() == old(skills)@.to_multiset(),
{
    let n = skills.len();
    if n == 0 {
        return;
    }
    let mut i: usize = 1;
    while i < n
        invariant
            1 <= i <= n,
            n == skills@.len(),
            sorted_by_name(skills@.take(i as int)),
            skills@.to_multiset() == old(skills)@.to_multiset(),
        decreases n - i,
    {
        let ghost s0 = skills@;
        let key = chars_of(skills[i].name.as_str());
        let mut j: usize = i;
        while j > 0 && text_less(&key, &chars_of(skills[j - 1].name.as_str()))
            invariant
                0 <= j <= i < n,
                n == skills@.len(),
                skills@ == s0,
                key@ == s0[i as int].name@,
                forall|k: int| j <= k < i ==> text_lt(key@, #[trigger] s0[k].name@),
            decreases j,
        {
            j -= 1;
        }
        let x = skills.remove(i);
        skills.insert(j, x);
        proof {
            let t = skills@;
            let r = s0.remove(i as int);
            assert(t == r.insert(j as int, s0[i as int]));
            s0.to_multiset_ensures();
            t.to_multiset_ensures();
            assert(t.remove(j as int) =~= r);
            assert(t[j as int] == s0[i as int]);
            assert(t.to_multiset() =~= s0.to_multiset()) by {
                assert(t.remove(j as int).to_multiset() =~= t.to_multiset().remove(t[j as int]));
                assert(s0.remove(i as int).to_multiset() =~= s0.to_multiset().remove(s0[i as int]));
                assert(t.to_multiset().remove(s0[i as int]) =~= s0.to_multiset().remove(s0[i as int]));
                assert(t.to_multiset().count(s0[i as int]) > 0);
                assert(s0.to_multiset().count(s0[i as int]) > 0);
                assert forall|v: SkillInfo| #[trigger] t.to_multiset().count(v) == s0.to_multiset().count(v) by {
                    if v != s0[i as int] {
                        assert(t.to_multiset().remove(s0[i as int]).count(v) == t.to_multiset().count(v));
                        assert(s0.to_multiset().remove(s0[i as int]).count(v) == s0.to_multiset().count(v));
                    } else {
                        assert(t.to_multiset().remove(s0[i as int]).count(v) == t.to_multiset().count(v) - 1);
                        assert(s0.to_multiset().remove(s0[i as int]).count(v) == s0.to_multiset().count(v) - 1);
                    }
                }
            }
            let u = t.take(i + 1);
            let key_name = s0[i as int].name@;
            assert forall|a: int, b: int| 0 <= a < b < u.len() implies !text_lt(
                #[trigger] u[b].name@,
                #[trigger] u[a].name@,
            ) by {
                let w = s0.take(i as int);
                if a == j as int {
                    assert(u[b] == s0[b - 1]);
                    lemma_text_lt_total(key_name, u[b].name@);
                } else if b == j as int {
                    assert(u[a] == s0[a]);
                    lemma_text_lt_total(key_name, s0[j - 1].name@);
                    if a < j - 1 {
                        assert(w[a] == s0[a] && w[j - 1] == s0[j - 1]);
                        assert(!text_lt(s0[j - 1].name@, s0[a].name@));
                        lemma_text_lt_trans(s0[a].name@, s0[j - 1].name@, key_name);
                    }
                } else {
                    let oa = if a < j { a } else { a - 1 };
                    let ob = if b < j { b } else { b - 1 };
                    assert(u[a] == s0[oa] && u[b] == s0[ob]);
                    assert(w[oa] == s0[oa] && w[ob] == s0[ob]);
                }
            }
        }
        i += 1;
    }
    proof {
        assert(skills@.take(n as int) =~= skills@);
    }
}

impl SkillInfo {
    /// A copy of the skill.
    pub fn duplicate(&self) -> (c: SkillInfo)
        ensures
            c == *self,
    {
        SkillInfo {
            name: self.name.clone(),
            description: self.description.clone(),
            path: self.path.clone(),
            allow_implicit_invocation: self.allow_implicit_invocation,
        }
    }
}

/// Some skill in `skills` is called `name`.
pub open spec fn has_name(skills: Seq<SkillInfo>, name: Seq<char>) -> bool {
    exists|i: int| 0 <= i < skills.len() && (#[trigger] skills[i]).name@ == name
}

/// `catalog` extended, in order, by the skills of `found` whose name is not taken yet:
/// the first skill of a name wins.
pub open spec fn add_new(catalog: Seq<SkillInfo>, found: Seq<SkillInfo>) -> Seq<SkillInfo>
    decreases found.len(),
{
    if found.len() == 0 {
        catalog
    } else {
        let c = add_new(catalog, found.drop_last());
        if has_name(c, found.last().name@) {
            c
        } else {
            c.push(found.last())
        }
    }
}

/// Whether some skill in `skills` is called `name`.
pub fn contains_name(skills: &Vec<SkillInfo>, name: &String) -> (b: bool)
    ensures
        b == has_name(skills@, name@),
{
    let mut i: usize = 0;
    while i < skills.len()
        invariant
            i <= skills.len(),
            forall|k: int| 0 <= k < i ==> (#[trigger] skills@[k]).name@ != name@,
        decreases skills.len() - i,
    {
        if skills[i].name == *name {
            return true;
        }
        i += 1;
    }
    false
}

/// Appends the skills of `found` whose names are not in `catalog` yet, keeping the
/// first skill of each name.
pub fn add_new_skills(catalog: &mut Vec<SkillInfo>, found: &Vec<SkillInfo>)
    ensures
        final(catalog)@ == add_new(old(catalog)@, found@),
{
    let mut i: usize = 0;
    while i < found.len()
        invariant
            i <= found.len(),
            catalog@ == add_new(old(catalog)@, found@.take(i as int)),
        decreases found.len() - i,
    {
        proof {
            assert(found@.take(i + 1).drop_last() =~= found@.take(i as int));
            assert(found@.take(i + 1).last() == found@[i as int]);
        }
        if !contains_name(catalog, &found[i].name) {
            catalog.push(found[i].duplicate());
        }
        i += 1;
    }
    proof {
        assert(found@.take(found.len() as int) =~= found@);
    }
}

/// The warning given when skills had to be left out of the listing.
pub open spec fn omitted_warning(omitted: nat) -> Seq<char> {
    "exceeded the 2% skills context budget; removed all descriptions and omitted "@ + decimal(
        omitted,
    ) + " lowest-precedence entries from implicit selection"@
}

/// The warning given when descriptions were shortened.
pub open spec fn shortened_warning() -> Seq<char> {
    "skill descriptions were shortened to fit the 2% skills context budget; every skill remains available"@
}

/// The warnings the budget adds.
pub open spec fn budget_warnings(shortened: bool, omitted: int) -> Seq<Seq<char>> {
    if omitted > 0 {
        seq![omitted_warning(omitted as nat)]
    } else if shortened {
        seq![shortened_warning()]
    } else {
        seq![]
    }
}

/// The message for an explicit invocation of an unknown skill.
pub open spec fn missing_skill_message(name: Seq<char>) -> Seq<char> {
    "explicit skill `$"@ + name + "` was not found or is invalid"@
}

/// The first name of `names` that no skill has.
pub open spec fn first_missing(skills: Seq<SkillInfo>, names: Seq<Seq<char>>) -> Option<Seq<char>>
    decreases names.len(),
{
    if names.len() == 0 {
        None
    } else if !has_name(skills, names[0]) {
        Some(names[0])
    } else {
        first_missing(skills, names.drop_first())
    }
}

/// The skills found for one turn: the listing given to the model and warnings.
pub struct SkillCatalog {
    pub skills: Vec<SkillInfo>,
    pub warnings: Vec<String>,
    pub prompt: String,
}

/// The listing of `lines` as one text, a line each.
pub open spec fn listing_text(lines: Seq<Seq<char>>) -> Seq<char> {
    joined_with(lines, seq!['\n'])
}

impl SkillCatalog {
    /// The listing text given to the model.
    pub open spec fn prompt_text(&self) -> Seq<char> {
        self.prompt@
    }

    /// A catalog without skills.
    pub fn empty() -> (c: SkillCatalog)
        ensures
            c.skills@.len() == 0,
            c.warnings@.len() == 0,
            c.prompt_text().len() == 0,
    {
        SkillCatalog { skills: Vec::new(), warnings: Vec::new(), prompt: String::new() }
    }

    /// The catalog of `skills` (already in precedence order) for a model with
    /// `context_window` tokens; `warnings` come from discovery, and the budget adds one
    /// when descriptions were shortened or skills left out.
    pub fn new(skills: Vec<SkillInfo>, warnings: Vec<String>, context_window: u32) -> (c: SkillCatalog)
        ensures
            c.skills@ == skills@,
            exists|lines: Seq<Seq<char>>, shortened: bool, omitted: int|
                #![trigger listing_ok(skills@, context_window, lines, shortened, omitted)]
                listing_ok(skills@, context_window, lines, shortened, omitted) && c.prompt_text()
                    == listing_text(lines) && texts(c.warnings@) == texts(warnings@)
                    + budget_warnings(shortened, omitted),
    {
        let (lines, shortened, omitted) = prompt_lines(&skills, context_window);
        let sep = vec!['\n'];
        let sep_text = crate::text::string_from_chars(&sep);
        let prompt = join(&lines, sep_text.as_str());
        let mut warnings = warnings;
        let ghost before = warnings@;
        if omitted > 0 {
            let count = decimal_string(omitted as u64);
            proof {
                assert(omitted as u64 as nat == omitted as nat);
            }
            let mut message = String::from_str(
                "exceeded the 2% skills context budget; removed all descriptions and omitted ",
            );
            message.append(count.as_str());
            message.append(" lowest-precedence entries from implicit selection");
            warnings.push(message);
        } else if shortened {
            warnings.push(
                String::from_str(
                    "skill descriptions were shortened to fit the 2% skills context budget; every skill remains available",
                ),
            );
        }
        proof {
            assert(texts(warnings@) =~= texts(before) + budget_warnings(shortened, omitted as int));
            assert(listing_ok(skills@, context_window, texts(lines@), shortened, omitted as int));
            assert(sep_text@ =~= seq!['\n']);
            assert(prompt@ == listing_text(texts(lines@)));
        }
        SkillCatalog { skills, warnings, prompt }
    }

    /// The listing text given to the model.
    pub fn prompt(&self) -> (s: String)
        ensures
            s@ == self.prompt_text(),
    {
        self.prompt.clone()
    }

    /// Checks that every `$name` the input invokes names a skill of the catalog;
    /// the first that does not is reported.
    pub fn validate_explicit(&self, input: &str) -> (r: Result<(), Error>)
        ensures
            match first_missing(self.skills@, spec_explicit_names(input@)) {
                None => r is Ok,
                Some(name) => r matches Err(Error::Other(m)) && m@ == missing_skill_message(name),
            },
    {
        let names = explicit_names(input);
        let ghost views = texts(names@);
        let mut i: usize = 0;
        proof {
            assert(views.skip(0) =~= views);
        }
        while i < names.len()
            invariant
                i <= names.len(),
                views == texts(names@),
                views == spec_explicit_names(input@),
                first_missing(self.skills@, views) == first_missing(self.skills@, views.skip(i as int)),
            decreases names.len() - i,
        {
            proof {
                assert(views.skip(i as int).drop_first() =~= views.skip(i + 1));
                assert(views.skip(i as int)[0] == names@[i as int]@);
            }
            if !contains_name(&self.skills, &names[i]) {
                let mut message = String::from_str("explicit skill `$");
                message.append(names[i].as_str());
                message.append("` was not found or is invalid");
                return Err(Error::Other(message));
            }
            i += 1;
        }
        proof {
            assert(views.skip(names.len() as int) =~= Seq::<Seq<char>>::empty());
        }
        Ok(())
    }
}

/// The YAML frontmatter of a `SKILL.md` text: what follows a leading `---` line up to
/// the next line break followed by `---`.
pub open spec fn spec_frontmatter(text: Seq<char>) -> Option<Seq<char>> {
    if text.len() >= 4 && text.take(4) == seq!['-', '-', '-', '\n'] {
        match find_from(text.skip(4), seq!['\n', '-', '-', '-'], 0) {
            Some(i) => Some(text.skip(4).take(i)),
            None => None,
        }
    } else {
        None
    }
}

/// The message for a `SKILL.md` without frontmatter.
pub open spec fn missing_frontmatter_message(path: Seq<char>) -> Seq<char> {
    path + ": missing YAML frontmatter"@
}

/// The YAML frontmatter of the `SKILL.md` at `path` with content `text`.
pub fn frontmatter(path: &str, text: &str) -> (r: Result<String, Error>)
    ensures
        match spec_frontmatter(text@) {
            Some(y) => r matches Ok(s) && s@ == y,
            None => r matches Err(Error::Other(m)) && m@ == missing_frontmatter_message(path@),
        },
{
    let chars = chars_of(text);
    let open = vec!['-', '-', '-', '\n'];
    let close = vec!['\n', '-', '-', '-'];
    if occurs_prefix(&chars, &open) {
        let rest_len = chars.len() - 4;
        let mut rest: Vec<char> = Vec::new();
        let mut k: usize = 4;
        while k < chars.len()
            invariant
                4 <= k <= chars.len(),
                rest@ == chars@.subrange(4, k as int),
            decreases chars.len() - k,
        {
            rest.push(chars[k]);
            proof {
                assert(chars@.subrange(4, k + 1) =~= chars@.subrange(4, k as int).push(chars@[k as int]));
            }
            k += 1;
        }
        proof {
            assert(rest@ =~= chars@.skip(4));
        }
        match find(&rest, &close, 0) {
            Some(i) => {
                return Ok(string_from_range(&rest, 0, i));
            },
            None => {},
        }
    }
    Err(Error::Other(concat(path, ": missing YAML frontmatter")))
}

/// Whether `v` starts with `pat`.
fn occurs_prefix(v: &Vec<char>, pat: &Vec<char>) -> (b: bool)
    requires
        pat@.len() == 4,
    ensures
        b == (v@.len() >= 4 && v@.take(4) == pat@),
{
    let r = crate::text::occurs_at(v, pat, 0);
    proof {
        if v@.len() >= 4 {
            assert(v@.subrange(0, 4) =~= v@.take(4));
        }
    }
    r
}

/// The message for a skill whose name or description is blank.
pub open spec fn blank_metadata_message(path: Seq<char>) -> Seq<char> {
    path + ": name and description must be non-empty"@
}

/// The skill described by the metadata of the `SKILL.md` at `path`; a blank name or
/// description is refused.
pub fn skill_from_metadata(
    path: &str,
    name: String,
    description: String,
    allow_implicit_invocation: bool,
) -> (r: Result<SkillInfo, Error>)
    ensures
        all_white_space(name@) || all_white_space(description@) ==> (r matches Err(Error::Other(m))
            && m@ == blank_metadata_message(path@)),
        !(all_white_space(name@) || all_white_space(description@)) ==> (r matches Ok(s) && s.name
            == name && s.description == description && s.path@ == path@
            && s.allow_implicit_invocation == allow_implicit_invocation),
{
    let n = chars_of(name.as_str());
    let d = chars_of(description.as_str());
    if is_all_white_space(&n) || is_all_white_space(&d) {
        return Err(Error::Other(concat(path, ": name and description must be non-empty")));
    }
    Ok(SkillInfo { name, description, path: path.to_owned(), allow_implicit_invocation })
}

/// The repository skill directories searched from a workdir, nearest first: the
/// workdir and its ancestors up to the first that holds `.git` (or only the workdir
/// when none does), each joined with `.agents/skills`.
pub open spec fn spec_skill_roots(ancestors: Seq<Seq<char>>, has_git: Seq<bool>) -> Seq<Seq<char>> {
    let last = match first_true(has_git, 0) {
        Some(i) => i,
        None => 0,
    };
    Seq::new((last + 1) as nat, |i: int| path_join(ancestors[i], ".agents/skills"@))
}

/// The first index at or after `i` where `flags` holds.
pub open spec fn first_true(flags: Seq<bool>, i: int) -> Option<int>
    decreases flags.len() - i,
{
    if i < 0 || i >= flags.len() {
        None
    } else if flags[i] {
        Some(i)
    } else {
        first_true(flags, i + 1)
    }
}

/// The repository skill directories for a workdir whose ancestors (itself first) are
/// `ancestors`, where `has_git[i]` tells whether `ancestors[i]` holds `.git`.
pub fn repository_skill_roots(ancestors: &Vec<String>, has_git: &Vec<bool>) -> (roots: Vec<String>)
    requires
        ancestors@.len() >= 1,
        has_git@.len() == ancestors@.len(),
    ensures
        texts(roots@) == spec_skill_roots(texts(ancestors@), has_git@),
{
    let mut last: usize = 0;
    let mut i: usize = 0;
    let mut found = false;
    while i < has_git.len() && !found
        invariant
            i <= has_git@.len(),
            found ==> first_true(has_git@, 0) == Some(last as int) && last < has_git@.len(),
            !found ==> first_true(has_git@, 0) == first_true(has_git@, i as int) && last == 0,
        decreases has_git@.len() - i + (if found { 0int } else { 1int }),
    {
        if has_git[i] {
            last = i;
            found = true;
        } else {
            i += 1;
        }
    }
    let mut roots: Vec<String> = Vec::new();
    let mut k: usize = 0;
    let n = ancestors.len();
    while k <= last
        invariant
            n == ancestors@.len(),
            last < n,
            k <= last + 1,
            roots@.len() == k,
            forall|j: int| 0 <= j < k ==> (#[trigger] roots@[j])@ == path_join(
                ancestors@[j]@,
                ".agents/skills"@,
            ),
        decreases last + 1 - k,
    {
        roots.push(join_path(ancestors[k].as_str(), ".agents/skills"));
        k += 1;
    }
    proof {
        assert(texts(roots@) =~= spec_skill_roots(texts(ancestors@), has_git@));
    }
    roots
}


/// Skills may be chosen implicitly unless their policy says otherwise.
pub fn default_true() -> (b: bool)
    ensures
        b,
{
    true
}

/// `"{path}: {detail}"` as an error.
fn at_path(path: &str, detail: &str) -> (e: Error)
    ensures
        e matches Error::Other(m) && m@ == path@ + ": "@ + detail@,
{
    let mut m = concat(path, ": ");
    m.append(detail);
    Error::Other(m)
}

/// The error for a `SKILL.md` that could not be read.
pub fn unreadable_skill(path: &str, reason: &str) -> (e: Error)
    ensures
        e matches Error::Other(m) && m@ == path@ + ": "@ + reason@,
{
    at_path(path, reason)
}

/// The error for frontmatter that is not the expected metadata.
pub fn invalid_metadata(path: &str, reason: &str) -> (e: Error)
    ensures
        e matches Error::Other(m) && m@ == path@ + ": invalid metadata: "@ + reason@,
{
    let mut m = concat(path, ": invalid metadata: ");
    m.append(reason);
    Error::Other(m)
}

/// The error for a policy file that is not the expected policy.
pub fn invalid_policy(path: &str, reason: &str) -> (e: Error)
    ensures
        e matches Error::Other(m) && m@ == path@ + ": invalid policy: "@ + reason@,
{
    let mut m = concat(path, ": invalid policy: ");
    m.append(reason);
    Error::Other(m)
}

/// The policy file of the skill in directory `dir`.
pub fn policy_path(dir: &str) -> (p: String)
    ensures
        p@ == path_join(dir@, "agents/openai.yaml"@),
{
    join_path(dir, "agents/openai.yaml")
}

/// The `SKILL.md` of the skill directory `dir`.
pub fn skill_file(dir: &str) -> (p: String)
    ensures
        p@ == path_join(dir@, "SKILL.md"@),
{
    join_path(dir, "SKILL.md")
}

/// Refuses metadata whose name or description is blank.
pub fn check_metadata(path: &str, name: &str, description: &str) -> (r: Result<(), Error>)
    ensures
        all_white_space(name@) || all_white_space(description@) ==> (r matches Err(Error::Other(m))
            && m@ == blank_metadata_message(path@)),
        !(all_white_space(name@) || all_white_space(description@)) ==> r is Ok,
{
    let n = chars_of(name);
    let d = chars_of(description);
    if is_all_white_space(&n) || is_all_white_space(&d) {
        return Err(Error::Other(concat(path, ": name and description must be non-empty")));
    }
    Ok(())
}

/// Explicit invocations are valid exactly when every `$name` is the name of a skill of
/// the catalog; otherwise the name reported is the first one, in order, that no skill
/// has, all names before it being skills' names.
pub proof fn lemma_first_missing(skills: Seq<SkillInfo>, names: Seq<Seq<char>>)
    ensures
        first_missing(skills, names) is None <==> forall|i: int|
            0 <= i < names.len() ==> has_name(skills, #[trigger] names[i]),
        first_missing(skills, names) is Some ==> exists|i: int|
            0 <= i < names.len() && #[trigger] names[i] == first_missing(skills, names).unwrap()
                && !has_name(skills, names[i]) && forall|j: int|
                0 <= j < i ==> has_name(skills, #[trigger] names[j]),
    decreases names.len(),
{
    if names.len() > 0 {
        let rest = names.drop_first();
        lemma_first_missing(skills, rest);
        if !has_name(skills, names[0]) {
            assert(names[0] == first_missing(skills, names).unwrap());
        } else {
            assert forall|i: int| 0 <= i < rest.len() implies #[trigger] rest[i] == names[i + 1] by {}
            if first_missing(skills, rest) is None {
                assert forall|i: int| 0 <= i < names.len() implies has_name(skills, #[trigger] names[i]) by {
                    if i > 0 {
                        assert(rest[i - 1] == names[i]);
                    }
                }
            } else {
                let k = choose|i: int|
                    0 <= i < rest.len() && #[trigger] rest[i] == first_missing(skills, rest).unwrap()
                        && !has_name(skills, rest[i]) && forall|j: int|
                        0 <= j < i ==> has_name(skills, #[trigger] rest[j]);
                assert(names[k + 1] == rest[k]);
                assert forall|j: int| 0 <= j < k + 1 implies has_name(skills, #[trigger] names[j]) by {
                    if j > 0 {
                        assert(rest[j - 1] == names[j]);
                    }
                }
                assert(!has_name(skills, rest[k]));
            }
        }
    }
}

} // verus!
