//! Showing a payload to somebody who has little room for it: its beginning, the lines
//! round a word, or its last messages.
use vstd::prelude::*;
use crate::numbers;
use crate::order;
use crate::pieces;
use crate::text;
use crate::unicode;

verus! {

/// Bytes of a payload that are shown at most.
pub const READ_MAX_BYTES: usize = 8 * 1024;

/// Lines before and after a match that are shown with it.
pub const GREP_CONTEXT_LINES: usize = 3;

/// Message blocks that are shown at most.
pub const TAIL_MAX_BLOCKS: u32 = 200;

/// Candidates that are listed where no number is given.
pub const DEFAULT_LIST_LIMIT: u32 = 20;

// ---------------------------------------------------------------------------
// The beginning
// ---------------------------------------------------------------------------

/// How many characters of the text fit into so many bytes.
pub open spec fn fitting(s: Seq<char>, max: int) -> int
    decreases s.len(),
{
    if s.len() == 0 || order::width(s[0]) > max {
        0
    } else {
        1 + fitting(s.drop_first(), max - order::width(s[0]))
    }
}

/// The text, or as much of it as fits into so many bytes with a note on the rest.
pub open spec fn truncated(body: Seq<char>, max: nat) -> Seq<char> {
    if order::byte_len(body) <= max {
        body
    } else {
        let shown = body.take(fitting(body, max as int));
        shown + "\n\n…(truncated "@ + numbers::decimal(
            (order::byte_len(body) - order::byte_len(shown)) as nat,
        ) + " bytes; pass `grep=<pattern>` to filter)"@
    }
}

/// The text, or as much of it as fits into so many bytes with a note on the rest.
pub fn truncate_bytes(body: &str, max: usize) -> (r: String)
    ensures
        r@ == truncated(body@, max as nat),
{
    let len: usize = order::bytes_in(body);
    if len <= max {
        return body.to_string();
    }
    let v = text::chars_of(body);
    let mut end: usize = 0;
    let mut i: usize = 0;
    let mut full = false;
    assert(body@.skip(0) =~= body@);
    assert(body@.take(0) =~= Seq::<char>::empty());
    proof {
        order::lemma_byte_len(seq![], seq![], 'a');
    }
    while i < v.len() && !full
        invariant
            i <= v@.len(),
            v@ == body@,
            end <= max,
            end == order::byte_len(body@.take(i as int)),
            fitting(body@, max as int) == i + fitting(body@.skip(i as int), max - end),
            full ==> fitting(body@.skip(i as int), max - end) == 0,
        decreases v@.len() - i, if full { 0int } else { 1int },
    {
        let w: usize = order::char_width(v[i]);
        assert(body@.skip(i as int)[0] == v@[i as int]);
        assert(body@.skip(i as int).drop_first() =~= body@.skip(i + 1));
        if w > max - end {
            full = true;
        } else {
            proof {
                order::lemma_byte_len(body@.take(i as int), seq![], v@[i as int]);
                assert(body@.take(i as int).push(v@[i as int]) =~= body@.take(i + 1));
            }
            end = end + w;
            i = i + 1;
        }
    }
    assert(fitting(body@, max as int) == i);
    proof {
        order::lemma_byte_len(body@.take(i as int), body@.skip(i as int), 'a');
        assert(body@.take(i as int) + body@.skip(i as int) =~= body@);
    }
    let mut out = text::string_between(&v, 0, i);
    assert(out@ =~= body@.take(i as int));
    out.append("\n\n…(truncated ");
    numbers::push_decimal(&mut out, (len - end) as u64);
    out.append(" bytes; pass `grep=<pattern>` to filter)");
    out
}

// ---------------------------------------------------------------------------
// Lines round a word
// ---------------------------------------------------------------------------

/// The line is shown: it is hit, or lies near one that is.
pub open spec fn kept(hits: Seq<bool>, i: int) -> bool {
    exists|j: int|
        0 <= j < hits.len() && i - GREP_CONTEXT_LINES <= j <= i + GREP_CONTEXT_LINES
            && #[trigger] hits[j]
}

/// The lines up to the `n`th that are shown, with a rule where some are left out between.
pub open spec fn shown(lines: Seq<Seq<char>>, hits: Seq<bool>, n: int) -> Seq<char>
    decreases n,
{
    if n <= 0 {
        seq![]
    } else {
        let before = shown(lines, hits, n - 1);
        if kept(hits, n - 1) {
            let rule = if before.len() > 0 && !(n >= 2 && kept(hits, n - 2)) {
                "---\n"@
            } else {
                seq![]
            };
            before + rule + lines[n - 1] + "\n"@
        } else {
            before
        }
    }
}

/// The lines that are shown, or a note that there are none.
pub open spec fn shown_or_note(lines: Seq<Seq<char>>, hits: Seq<bool>, needle: Seq<char>) -> Seq<
    char,
> {
    let out = shown(lines, hits, lines.len() as int);
    if out.len() == 0 {
        "(no lines matched `"@ + needle + "`)\n"@
    } else {
        out
    }
}

fn is_kept(hits: &Vec<bool>, i: usize) -> (r: bool)
    requires
        i < hits@.len(),
    ensures
        r == kept(hits@, i as int),
{
    let mut j: usize = if i < GREP_CONTEXT_LINES {
        0
    } else {
        i - GREP_CONTEXT_LINES
    };
    let ghost first = j as int;
    while j < hits.len() && (j < i || j - i <= GREP_CONTEXT_LINES)
        invariant
            first <= j <= hits@.len(),
            i < hits@.len(),
            first == (if i < GREP_CONTEXT_LINES {
                0int
            } else {
                i - GREP_CONTEXT_LINES
            }),
            forall|k: int| first <= k < j ==> !#[trigger] hits@[k],
        decreases hits@.len() - j,
    {
        if hits[j] {
            return true;
        }
        j += 1;
    }
    false
}

/// The lines that are shown where `hits` tells of each whether it is hit.
pub fn show_hits(lines: &Vec<String>, hits: &Vec<bool>, needle: &str) -> (r: String)
    requires
        hits@.len() == lines@.len(),
    ensures
        r@ == shown_or_note(text::texts(lines@), hits@, needle@),
{
    let ghost all = text::texts(lines@);
    let mut out = String::new();
    let mut in_block = false;
    let mut i: usize = 0;
    while i < lines.len()
        invariant
            i <= lines@.len(),
            hits@.len() == lines@.len(),
            all == text::texts(lines@),
            out@ == shown(all, hits@, i as int),
            in_block == (i > 0 && kept(hits@, i - 1)),
        decreases lines@.len() - i,
    {
        assert(all[i as int] == lines@[i as int]@);
        if is_kept(hits, i) {
            let ghost before = out@;
            if !in_block && !out.as_str().is_empty() {
                out.append("---\n");
            }
            out.append(lines[i].as_str());
            out.append("\n");
            in_block = true;
            assert(out@ =~= shown(all, hits@, i + 1));
        } else {
            in_block = false;
        }
        i += 1;
    }
    if out.as_str().is_empty() {
        let mut note = "(no lines matched `".to_string();
        note.append(needle);
        note.append("`)\n");
        return note;
    }
    out
}

/// Of each line, whether the word stands in it, whatever its case.
pub open spec fn hits_of(lines: Seq<Seq<char>>, needle: Seq<char>) -> Seq<bool> {
    Seq::new(
        lines.len(),
        |i: int| text::has(unicode::lowercase(lines[i]), unicode::lowercase(needle)),
    )
}

/// The lines in which the word stands, whatever its case, with those near them.
pub fn grep_filter(body: &str, needle: &str) -> (r: String)
    ensures
        r@ == shown_or_note(
            pieces::lines_of(body@),
            hits_of(pieces::lines_of(body@), needle@),
            needle@,
        ),
{
    let lower_needle = unicode::to_lowercase(needle);
    let lines = pieces::lines(body);
    let ghost all = text::texts(lines@);
    let mut hits: Vec<bool> = Vec::new();
    let mut i: usize = 0;
    while i < lines.len()
        invariant
            i <= lines@.len(),
            all == text::texts(lines@),
            lower_needle@ == unicode::lowercase(needle@),
            hits@ == hits_of(all, needle@).take(i as int),
        decreases lines@.len() - i,
    {
        let low = unicode::to_lowercase(lines[i].as_str());
        let hit = text::contains(low.as_str(), lower_needle.as_str());
        assert(all[i as int] == lines@[i as int]@);
        hits.push(hit);
        i += 1;
        assert(hits@ =~= hits_of(all, needle@).take(i as int));
    }
    assert(hits@ =~= hits_of(all, needle@));
    show_hits(&lines, &hits, needle)
}

// ---------------------------------------------------------------------------
// The last messages
// ---------------------------------------------------------------------------

/// A message block begins here: at the beginning of a line.
pub open spec fn block_at(s: Seq<char>, p: int) -> bool {
    text::occurs_at(s, "## "@, p) && (p == 0 || s[p - 1] == '\n')
}

/// Where message blocks begin before the position.
pub open spec fn starts_before(s: Seq<char>, p: int) -> Seq<int>
    decreases p,
{
    if p <= 0 {
        seq![]
    } else {
        let before = starts_before(s, p - 1);
        if block_at(s, p - 1) {
            before.push(p - 1)
        } else {
            before
        }
    }
}

/// Where message blocks begin.
pub open spec fn starts_of(s: Seq<char>) -> Seq<int> {
    starts_before(s, s.len() as int)
}

/// What stands before the first message and the last `n` messages, with a note on those
/// between; the whole text where it has no more than `n`.
pub open spec fn tail_of(s: Seq<char>, n: nat) -> Seq<char> {
    let starts = starts_of(s);
    if starts.len() <= n {
        s
    } else {
        s.take(starts[0]) + "\n…(omitted "@ + numbers::decimal((starts.len() - n) as nat)
            + " earlier message block(s))\n\n"@ + s.skip(starts[starts.len() - n])
    }
}

proof fn lemma_starts_in_range(s: Seq<char>, p: int)
    requires
        p <= s.len(),
    ensures
        forall|i: int|
            0 <= i < starts_before(s, p).len() ==> 0 <= #[trigger] starts_before(s, p)[i] < p
                && block_at(s, starts_before(s, p)[i]),
        forall|i: int, j: int|
            0 <= i < j < starts_before(s, p).len() ==> #[trigger] starts_before(s, p)[i]
                < #[trigger] starts_before(s, p)[j],
    decreases p,
{
    if p > 0 {
        lemma_starts_in_range(s, p - 1);
        let before = starts_before(s, p - 1);
        let now = starts_before(s, p);
        assert forall|i: int| 0 <= i < now.len() implies 0 <= #[trigger] now[i] < p && block_at(
            s,
            now[i],
        ) by {
            if i < before.len() {
                assert(now[i] == before[i]);
            }
        }
        assert forall|i: int, j: int| 0 <= i < j < now.len() implies #[trigger] now[i]
            < #[trigger] now[j] by {
            assert(now[i] == before[i]);
            if j < before.len() {
                assert(now[j] == before[j]);
            }
        }
    }
}

/// What stands before the first message and the last `n` messages.
pub fn tail_blocks(body: &str, n: usize) -> (r: String)
    requires
        n > 0 || starts_of(body@).len() == 0,
    ensures
        r@ == tail_of(body@, n as nat),
{
    let v = text::chars_of(body);
    let mut starts: Vec<usize> = Vec::new();
    let mut i: usize = 0;
    proof {
        reveal_strlit("## ");
    }
    while i < v.len()
        invariant
            i <= v@.len(),
            v@ == body@,
            "## "@.len() == 3,
            "## "@[0] == '#',
            "## "@[1] == '#',
            "## "@[2] == ' ',
            starts@.len() == starts_before(body@, i as int).len(),
            forall|k: int|
                0 <= k < starts@.len() ==> (#[trigger] starts@[k]) as int == starts_before(
                    body@,
                    i as int,
                )[k],
        decreases v@.len() - i,
    {
        let here = v.len() - i >= 3 && v[i] == '#' && v[i + 1] == '#' && v[i + 2] == ' ' && (i == 0
            || v[i - 1] == '\n');
        proof {
            let s = body@;
            if s.len() - i >= 3 {
                let part = s.subrange(i as int, i + 3);
                assert(part[0] == s[i as int] && part[1] == s[i + 1] && part[2] == s[i + 2]);
                if here {
                    assert(part =~= "## "@);
                }
            }
        }
        assert(here == block_at(body@, i as int));
        if here {
            starts.push(i);
        }
        i += 1;
    }
    if starts.len() <= n {
        return body.to_string();
    }
    proof {
        lemma_starts_in_range(body@, body@.len() as int);
    }
    let first: usize = starts[0];
    let last: usize = starts[starts.len() - n];
    assert(first == starts_of(body@)[0]);
    assert(last == starts_of(body@)[starts@.len() - n]);
    let mut out = text::string_between(&v, 0, first);
    assert(out@ =~= body@.take(first as int));
    out.append("\n…(omitted ");
    numbers::push_decimal(&mut out, (starts.len() - n) as u64);
    out.append(" earlier message block(s))\n\n");
    let tail = text::string_between(&v, last, v.len());
    assert(tail@ =~= body@.skip(last as int));
    out.append(tail.as_str());
    out
}

// ---------------------------------------------------------------------------
// Requests
// ---------------------------------------------------------------------------

/// What a request for a payload is shown. Last messages come before a search, and a search
/// before the beginning.
pub open spec fn reading_of(
    raw: Seq<char>,
    tail: Option<u32>,
    grep: Option<Seq<char>>,
) -> Seq<char> {
    if tail matches Some(n) && n > 0 {
        tail_of(
            raw,
            if tail->0 < TAIL_MAX_BLOCKS {
                tail->0 as nat
            } else {
                TAIL_MAX_BLOCKS as nat
            },
        )
    } else if grep matches Some(g) && pieces::trimmed(g).len() > 0 {
        let needle = pieces::trimmed(grep->0);
        shown_or_note(pieces::lines_of(raw), hits_of(pieces::lines_of(raw), needle), needle)
    } else {
        truncated(raw, READ_MAX_BYTES as nat)
    }
}

/// What a request for a payload is shown.
pub fn read_candidate_inner(raw: &str, tail: Option<u32>, grep: Option<&str>) -> (r: String)
    ensures
        r@ == reading_of(raw@, tail, text::opt_str(grep)),
{
    match tail {
        Some(n) => {
            if n > 0 {
                let n: u32 = if n < TAIL_MAX_BLOCKS {
                    n
                } else {
                    TAIL_MAX_BLOCKS
                };
                return tail_blocks(raw, n as usize);
            }
        },
        None => {},
    }
    match grep {
        Some(g) => {
            let needle = pieces::trim(g);
            if !needle.as_str().is_empty() {
                return grep_filter(raw, needle.as_str());
            }
        },
        None => {},
    }
    truncate_bytes(raw, READ_MAX_BYTES)
}

/// How many candidates are listed: at least one and at most 200.
pub fn list_limit(limit: Option<u32>) -> (r: i64)
    ensures
        ({
            let n = match limit {
                Some(n) => n,
                None => DEFAULT_LIST_LIMIT,
            };
            r == (if n < 1 {
                1
            } else if n > 200 {
                200
            } else {
                n as int
            })
        }),
{
    let n: u32 = match limit {
        Some(n) => n,
        None => DEFAULT_LIST_LIMIT,
    };
    if n < 1 {
        1
    } else if n > 200 {
        200
    } else {
        n as i64
    }
}

/// What is said of a candidate that is not there.
pub fn candidate_not_found(candidate_id: &str) -> (r: String)
    ensures
        r@ == "candidate "@ + candidate_id@ + " not found"@,
{
    let mut out = "candidate ".to_string();
    out.append(candidate_id);
    out.append(" not found");
    out
}

// ---------------------------------------------------------------------------
// Laws
// ---------------------------------------------------------------------------

/// What is shown of a text that is too long fits, and the next character would not: it is
/// cut between two characters, as late as can be.
pub proof fn law_truncation_is_tight(s: Seq<char>, max: int)
    requires
        0 <= max,
    ensures
        0 <= fitting(s, max) <= s.len(),
        order::byte_len(s.take(fitting(s, max))) <= max,
        fitting(s, max) < s.len() ==> order::byte_len(s.take(fitting(s, max) + 1)) > max,
    decreases s.len(),
{
    let k = fitting(s, max);
    order::lemma_byte_len(seq![], seq![], 'a');
    if s.len() == 0 || order::width(s[0]) > max {
        assert(s.take(0) =~= Seq::<char>::empty());
        if s.len() > 0 {
            order::lemma_byte_len(seq![], seq![], s[0]);
            assert(s.take(1) =~= Seq::<char>::empty().push(s[0]));
        }
    } else {
        let rest = s.drop_first();
        let left = max - order::width(s[0]);
        law_truncation_is_tight(rest, left);
        let head = Seq::<char>::empty().push(s[0]);
        order::lemma_byte_len(seq![], seq![], s[0]);
        assert(s.take(k) =~= head + rest.take(k - 1));
        order::lemma_byte_len(head, rest.take(k - 1), 'a');
        if k < s.len() {
            assert(s.take(k + 1) =~= head + rest.take(k));
            order::lemma_byte_len(head, rest.take(k), 'a');
        }
    }
}

/// Every line that is hit is shown, and so are those within three lines of it.
pub proof fn law_matches_are_shown_in_context(
    lines: Seq<Seq<char>>,
    hits: Seq<bool>,
    needle: Seq<char>,
    i: int,
    near: int,
)
    requires
        hits.len() == lines.len(),
        0 <= i < lines.len(),
        0 <= near < lines.len(),
        hits[i],
        i - GREP_CONTEXT_LINES <= near <= i + GREP_CONTEXT_LINES,
    ensures
        text::has(shown_or_note(lines, hits, needle), lines[near] + "\n"@),
{
    assert(kept(hits, near));
    lemma_kept_is_shown(lines, hits, near, lines.len() as int);
    reveal_strlit("\n");
    let out = shown(lines, hits, lines.len() as int);
    let k = choose|k: int| text::occurs_at(out, lines[near] + "\n"@, k);
    assert(out.len() > 0);
}

proof fn lemma_kept_is_shown(lines: Seq<Seq<char>>, hits: Seq<bool>, i: int, n: int)
    requires
        0 <= i < n <= lines.len(),
        kept(hits, i),
    ensures
        text::has(shown(lines, hits, n), lines[i] + "\n"@),
    decreases n,
{
    let line = lines[i] + "\n"@;
    let now = shown(lines, hits, n);
    let before = shown(lines, hits, n - 1);
    if i < n - 1 {
        lemma_kept_is_shown(lines, hits, i, n - 1);
        let k = choose|k: int| text::occurs_at(before, line, k);
        assert(now.take(before.len() as int) =~= before);
        assert(now.subrange(k, k + line.len()) =~= before.subrange(k, k + line.len()));
        assert(text::occurs_at(now, line, k));
    } else {
        let k = now.len() - line.len();
        assert(now.subrange(k, k + line.len()) =~= line);
        assert(text::occurs_at(now, line, k));
    }
}

/// The last messages are as many as were asked for, where there are that many: what is
/// shown of them begins with a message and holds that many beginnings.
pub proof fn law_tail_has_the_last_blocks(s: Seq<char>, n: nat)
    requires
        0 < n < starts_of(s).len(),
    ensures
        ({
            let starts = starts_of(s);
            let tail = s.skip(starts[starts.len() - n]);
            block_at(tail, 0) && starts_of(tail).len() == n
        }),
{
    let starts = starts_of(s);
    lemma_starts_in_range(s, s.len() as int);
    let m = starts.len() - n;
    let p = starts[m];
    reveal_strlit("## ");
    assert(block_at(s, p));
    assert(s.skip(p).subrange(0, 3) =~= s.subrange(p, p + 3));
    lemma_starts_count(s, p, m);
    lemma_starts_of_tail(s, p, (s.len() - p) as int);
}

/// As many blocks begin before the position as the list has before it.
proof fn lemma_starts_count(s: Seq<char>, p: int, m: int)
    requires
        0 <= m < starts_of(s).len(),
        p == starts_of(s)[m],
    ensures
        starts_before(s, p).len() == m,
{
    lemma_starts_in_range(s, s.len() as int);
    lemma_starts_prefix(s, p, s.len() as int);
    lemma_starts_in_range(s, p);
    let all = starts_of(s);
    let before = starts_before(s, p);
    if before.len() > m {
        assert(before[m] == all[m]);
    }
    if before.len() < m {
        let q = all[before.len() as int];
        assert(q < p);
        lemma_starts_has(s, q, p);
        let k = choose|k: int| 0 <= k < before.len() && before[k] == q;
        assert(all[k] == q);
    }
}

proof fn lemma_starts_prefix(s: Seq<char>, p: int, q: int)
    requires
        p <= q,
    ensures
        starts_before(s, p).is_prefix_of(starts_before(s, q)),
    decreases q - p,
{
    if p < q {
        lemma_starts_prefix(s, p, q - 1);
    }
}

proof fn lemma_starts_has(s: Seq<char>, q: int, p: int)
    requires
        0 <= q < p,
        block_at(s, q),
    ensures
        starts_before(s, p).contains(q),
    decreases p - q,
{
    let before = starts_before(s, p - 1);
    let now = starts_before(s, p);
    if q < p - 1 {
        lemma_starts_has(s, q, p - 1);
        let k = choose|k: int| 0 <= k < before.len() && before[k] == q;
        assert(now[k] == q);
    } else {
        assert(now[before.len() as int] == q);
    }
}

/// The blocks of what follows a block's beginning are those of the whole from there on.
proof fn lemma_starts_of_tail(s: Seq<char>, p: int, k: int)
    requires
        0 <= p,
        0 <= k <= s.len() - p,
        block_at(s, p),
    ensures
        starts_before(s, p + k).len() == starts_before(s, p).len() + starts_before(
            s.skip(p),
            k,
        ).len(),
    decreases k,
{
    if k > 0 {
        lemma_starts_of_tail(s, p, k - 1);
        reveal_strlit("## ");
        let t = s.skip(p);
        let q = k - 1;
        assert(block_at(t, q) == block_at(s, p + q)) by {
            if q + 3 <= t.len() {
                assert(t.subrange(q, q + 3) =~= s.subrange(p + q, p + q + 3));
            }
            if q > 0 {
                assert(t[q - 1] == s[p + q - 1]);
            }
        }
    }
}

/// A message block begins wherever a line begins with `## `, and nowhere else; the beginnings
/// are listed in order, each once.
pub proof fn law_blocks_begin_at_headings(s: Seq<char>, p: int)
    ensures
        starts_of(s).contains(p) <==> 0 <= p && p + 3 <= s.len() && s[p] == '#' && s[p + 1] == '#'
            && s[p + 2] == ' ' && (p == 0 || s[p - 1] == '\n'),
        forall|i: int, j: int|
            0 <= i < j < starts_of(s).len() ==> #[trigger] starts_of(s)[i]
                < #[trigger] starts_of(s)[j],
{
    reveal_strlit("## ");
    lemma_starts_in_range(s, s.len() as int);
    if starts_of(s).contains(p) {
        let i = choose|i: int| 0 <= i < starts_of(s).len() && starts_of(s)[i] == p;
        assert(block_at(s, starts_of(s)[i]));
        let at = s.subrange(p, p + 3);
        assert(at == "## "@);
        assert(at[0] == s[p] && at[1] == s[p + 1] && at[2] == s[p + 2]);
    } else if 0 <= p && p + 3 <= s.len() && s[p] == '#' && s[p + 1] == '#' && s[p + 2] == ' ' && (p
        == 0 || s[p - 1] == '\n') {
        assert(s.subrange(p, p + 3) =~= "## "@);
        lemma_starts_has(s, p, s.len() as int);
    }
}

/// Asked for its last messages, a text with more of them is shown as what stands before the
/// first one, a note on how many are left out, and an end of the text that begins with a
/// message and holds exactly as many as were asked for. A text with no more than that is
/// shown whole.
pub proof fn law_tail_shows_the_last_blocks(s: Seq<char>, n: nat)
    requires
        0 < n,
    ensures
        starts_of(s).len() <= n ==> tail_of(s, n) == s,
        n < starts_of(s).len() ==> exists|p: int, q: int|
            #![trigger s.take(p), s.skip(q)]
            0 <= p <= q <= s.len() && tail_of(s, n) == s.take(p) + "\n…(omitted "@
                + numbers::decimal((starts_of(s).len() - n) as nat)
                + " earlier message block(s))\n\n"@ + s.skip(q) && block_at(s, p) && (forall|k: int|
                0 <= k < p ==> !block_at(s, k)) && block_at(s.skip(q), 0) && starts_of(
                s.skip(q),
            ).len() == n,
{
    if n < starts_of(s).len() {
        let starts = starts_of(s);
        lemma_starts_in_range(s, s.len() as int);
        law_tail_has_the_last_blocks(s, n);
        let p = starts[0];
        let q = starts[starts.len() - n];
        assert forall|k: int| 0 <= k < p implies !block_at(s, k) by {
            if block_at(s, k) {
                lemma_starts_has(s, k, s.len() as int);
                let i = choose|i: int| 0 <= i < starts.len() && starts[i] == k;
                if i > 0 {
                    assert(starts[0] < starts[i]);
                }
            }
        }
        assert(tail_of(s, n) == s.take(p) + "\n…(omitted "@ + numbers::decimal(
            (starts.len() - n) as nat,
        ) + " earlier message block(s))\n\n"@ + s.skip(q));
    }
}

/// A text that fits is shown whole. Of one that does not, as much is shown as fits, and the
/// note says how many bytes are missing: with what is shown they make up the text.
pub proof fn law_truncation_says_what_is_missing(body: Seq<char>, max: nat)
    ensures
        order::byte_len(body) <= max ==> truncated(body, max) == body,
        order::byte_len(body) > max ==> exists|k: int|
            #![trigger body.take(k)]
            0 <= k < body.len() && order::byte_len(body.take(k)) <= max && order::byte_len(
                body.take(k + 1),
            ) > max && truncated(body, max) == body.take(k) + "\n\n…(truncated "@
                + numbers::decimal((order::byte_len(body) - order::byte_len(body.take(k))) as nat)
                + " bytes; pass `grep=<pattern>` to filter)"@,
{
    if order::byte_len(body) > max {
        law_truncation_is_tight(body, max as int);
        let k = fitting(body, max as int);
        assert(body.take(body.len() as int) =~= body);
        assert(k < body.len());
        assert(truncated(body, max) == body.take(k) + "\n\n…(truncated "@ + numbers::decimal(
            (order::byte_len(body) - order::byte_len(body.take(k))) as nat,
        ) + " bytes; pass `grep=<pattern>` to filter)"@);
    }
}

/// Lines that are not within three lines of a match are left out, and a rule stands where
/// something is left out between two lines that are shown.
pub proof fn law_far_lines_are_left_out(lines: Seq<Seq<char>>, hits: Seq<bool>, n: int)
    requires
        hits.len() == lines.len(),
        0 < n <= lines.len(),
    ensures
        ({
            let near = |i: int|
                exists|j: int|
                    0 <= j < hits.len() && i - 3 <= j <= i + 3 && #[trigger] hits[j];
            let before = shown(lines, hits, n - 1);
            let after = shown(lines, hits, n);
            if !near(n - 1) {
                after == before
            } else if before.len() == 0 || (n >= 2 && near(n - 2)) {
                after == before + lines[n - 1] + "\n"@
            } else {
                after == before + "---\n"@ + lines[n - 1] + "\n"@
            }
        }),
        shown(lines, hits, 0) == Seq::<char>::empty(),
{
    let before = shown(lines, hits, n - 1);
    assert(before + Seq::<char>::empty() =~= before);
}

/// A line is a match where it has the word, whatever the case of either.
pub proof fn law_matches_ignore_case(lines: Seq<Seq<char>>, needle: Seq<char>, i: int)
    requires
        0 <= i < lines.len(),
    ensures
        hits_of(lines, needle).len() == lines.len(),
        hits_of(lines, needle)[i] <==> exists|k: int| #[trigger]
            text::occurs_at(unicode::lowercase(lines[i]), unicode::lowercase(needle), k),
        (forall|j: int| 0 <= j < lines.len() ==> !#[trigger] hits_of(lines, needle)[j])
            ==> shown_or_note(lines, hits_of(lines, needle), needle) == "(no lines matched `"@
            + needle + "`)\n"@,
{
    let hits = hits_of(lines, needle);
    if forall|j: int| 0 <= j < lines.len() ==> !#[trigger] hits[j] {
        lemma_nothing_shown(lines, hits, lines.len() as int);
    }
}

proof fn lemma_nothing_shown(lines: Seq<Seq<char>>, hits: Seq<bool>, n: int)
    requires
        forall|j: int| 0 <= j < hits.len() ==> !#[trigger] hits[j],
    ensures
        shown(lines, hits, n) == Seq::<char>::empty(),
    decreases n,
{
    if n > 0 {
        lemma_nothing_shown(lines, hits, n - 1);
    }
}

/// A request for the last messages goes before one for a word, and a text asked for without
/// either is cut to size. No more than 200 messages are
/// shown.
pub proof fn law_requests_are_answered_in_order(
    raw: Seq<char>,
    tail: Option<u32>,
    grep: Option<Seq<char>>,
)
    ensures
        (tail matches Some(n) && 0 < n <= 200) ==> reading_of(raw, tail, grep) == tail_of(
            raw,
            tail->0 as nat,
        ),
        (tail matches Some(n) && n > 200) ==> reading_of(raw, tail, grep) == tail_of(raw, 200),
        (tail is None || tail->0 == 0) && (grep matches Some(g) && pieces::says_something(g))
            ==> reading_of(raw, tail, grep) == shown_or_note(
            pieces::lines_of(raw),
            hits_of(pieces::lines_of(raw), pieces::trimmed(grep->0)),
            pieces::trimmed(grep->0),
        ),
        (tail is None || tail->0 == 0) && !(grep matches Some(g) && pieces::says_something(g))
            ==> reading_of(raw, tail, grep) == truncated(raw, 8192),
{
    match grep {
        Some(g) => {
            pieces::law_trimming_takes_only_white_space(g);
        },
        None => {},
    }
}

/// As many candidates are listed as were asked for, from one to 200 of them; where no number
/// was given, 20.
pub proof fn law_listings_are_as_long_as_asked(limit: u32, r: i64, unasked: i64)
    requires
        call_ensures(list_limit, (Some(limit),), r),
        call_ensures(list_limit, (None::<u32>,), unasked),
    ensures
        1 <= r <= 200,
        1 <= limit <= 200 ==> r == limit,
        limit == 0 ==> r == 1,
        limit > 200 ==> r == 200,
        unasked == 20,
{
}

} // verus!
