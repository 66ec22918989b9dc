//! Taking texts apart and putting them together: trimming, splitting, lines,
//! joining and replacing.
use vstd::prelude::*;
use crate::text;
use crate::text::{chars_of, find_from, string_between};

verus! {

// ---------------------------------------------------------------------------
// White space and trimming
// ---------------------------------------------------------------------------

/// The characters with the Unicode property `White_Space`.
pub open spec fn white(c: char) -> bool {
    ||| '\u{9}' <= c <= '\u{d}'
    ||| c == ' '
    ||| c == '\u{85}'
    ||| c == '\u{a0}'
    ||| c == '\u{1680}'
    ||| '\u{2000}' <= c <= '\u{200a}'
    ||| c == '\u{2028}'
    ||| c == '\u{2029}'
    ||| c == '\u{202f}'
    ||| c == '\u{205f}'
    ||| c == '\u{3000}'
}

/// Whether `c` is white space.
pub fn is_white(c: char) -> (r: bool)
    ensures
        r == white(c),
{
    ('\u{9}' <= c && c <= '\u{d}') || c == ' ' || c == '\u{85}' || c == '\u{a0}' || c == '\u{1680}'
        || ('\u{2000}' <= c && c <= '\u{200a}') || c == '\u{2028}' || c == '\u{2029}' || c
        == '\u{202f}' || c == '\u{205f}' || c == '\u{3000}'
}

/// `s` without its leading white space.
pub open spec fn trimmed_start(s: Seq<char>) -> Seq<char>
    decreases s.len(),
{
    if s.len() > 0 && white(s[0]) {
        trimmed_start(s.drop_first())
    } else {
        s
    }
}

/// `s` without its trailing white space.
pub open spec fn trimmed_end(s: Seq<char>) -> Seq<char>
    decreases s.len(),
{
    if s.len() > 0 && white(s.last()) {
        trimmed_end(s.drop_last())
    } else {
        s
    }
}

/// `s` without the white space around it.
pub open spec fn trimmed(s: Seq<char>) -> Seq<char> {
    trimmed_end(trimmed_start(s))
}

proof fn lemma_trimmed_start_is(s: Seq<char>, k: int)
    requires
        0 <= k <= s.len(),
        forall|i: int| 0 <= i < k ==> white(s[i]),
        k < s.len() ==> !white(s[k]),
    ensures
        trimmed_start(s) == s.skip(k),
    decreases k,
{
    if k == 0 {
        assert(s.skip(0) =~= s);
    } else {
        lemma_trimmed_start_is(s.drop_first(), k - 1);
        assert(s.drop_first().skip(k - 1) =~= s.skip(k));
    }
}

proof fn lemma_trimmed_end_is(s: Seq<char>, k: int)
    requires
        0 <= k <= s.len(),
        forall|i: int| k <= i < s.len() ==> white(s[i]),
        0 < k ==> !white(s[k - 1]),
    ensures
        trimmed_end(s) == s.take(k),
    decreases s.len() - k,
{
    if k == s.len() {
        assert(s.take(k) =~= s);
    } else {
        lemma_trimmed_end_is(s.drop_last(), k);
        assert(s.drop_last().take(k) =~= s.take(k));
    }
}

/// Where the text of `v` begins and ends once the white space around it is left out.
fn trim_bounds(v: &Vec<char>) -> (r: (usize, usize))
    ensures
        r.0 <= r.1 <= v@.len(),
        trimmed_start(v@) == v@.skip(r.0 as int),
        trimmed(v@) == v@.subrange(r.0 as int, r.1 as int),
{
    let mut a: usize = 0;
    while a < v.len() && is_white(v[a])
        invariant
            a <= v@.len(),
            forall|i: int| 0 <= i < a ==> white(v@[i]),
        decreases v@.len() - a,
    {
        a += 1;
    }
    let mut b: usize = v.len();
    while b > a && is_white(v[b - 1])
        invariant
            a <= b <= v@.len(),
            forall|i: int| b <= i < v@.len() ==> white(v@[i]),
        decreases b,
    {
        b -= 1;
    }
    proof {
        lemma_trimmed_start_is(v@, a as int);
        lemma_trimmed_end_is(v@.skip(a as int), b - a);
        assert(v@.skip(a as int).take(b - a) =~= v@.subrange(a as int, b as int));
    }
    (a, b)
}

/// `s` without the white space around it.
pub fn trim(s: &str) -> (r: String)
    ensures
        r@ == trimmed(s@),
{
    let v = chars_of(s);
    let (a, b) = trim_bounds(&v);
    string_between(&v, a, b)
}

/// `s` without its leading white space.
pub fn trim_start(s: &str) -> (r: String)
    ensures
        r@ == trimmed_start(s@),
{
    let v = chars_of(s);
    let (a, _b) = trim_bounds(&v);
    let r = string_between(&v, a, v.len());
    assert(r@ =~= v@.skip(a as int));
    r
}

/// A text that neither begins nor ends with white space is its own trimmed form.
pub proof fn lemma_trimmed_fixed(s: Seq<char>)
    requires
        s.len() > 0 ==> !white(s[0]) && !white(s.last()),
    ensures
        trimmed(s) == s,
{
}

/// What trimming leaves neither begins nor ends with white space, and is a part of the text.
pub proof fn lemma_trimmed_ends(s: Seq<char>)
    ensures
        trimmed(s).len() > 0 ==> !white(trimmed(s)[0]) && !white(trimmed(s).last()),
        exists|a: int, b: int| 0 <= a <= b <= s.len() && trimmed(s) == s.subrange(a, b),
{
    lemma_trimmed_start_part(s);
    let t = trimmed_start(s);
    lemma_trimmed_end_part(t);
    let k = choose|k: int| 0 <= k <= s.len() && t == s.skip(k);
    let m = choose|m: int| 0 <= m <= t.len() && trimmed_end(t) == t.take(m);
    assert(t.take(m) =~= s.subrange(k, k + m));
}

proof fn lemma_trimmed_start_part(s: Seq<char>)
    ensures
        trimmed_start(s).len() > 0 ==> !white(trimmed_start(s)[0]),
        exists|k: int| 0 <= k <= s.len() && trimmed_start(s) == s.skip(k),
    decreases s.len(),
{
    if s.len() > 0 && white(s[0]) {
        lemma_trimmed_start_part(s.drop_first());
        let k = choose|k: int|
            0 <= k <= s.drop_first().len() && trimmed_start(s.drop_first()) == s.drop_first().skip(k);
        assert(s.drop_first().skip(k) =~= s.skip(k + 1));
    } else {
        assert(s.skip(0) =~= s);
    }
}

proof fn lemma_trimmed_end_part(s: Seq<char>)
    ensures
        trimmed_end(s).len() > 0 ==> !white(trimmed_end(s).last()),
        exists|m: int| 0 <= m <= s.len() && trimmed_end(s) == s.take(m),
    decreases s.len(),
{
    if s.len() > 0 && white(s.last()) {
        lemma_trimmed_end_part(s.drop_last());
        let m = choose|m: int|
            0 <= m <= s.drop_last().len() && trimmed_end(s.drop_last()) == s.drop_last().take(m);
        assert(s.drop_last().take(m) =~= s.take(m));
    } else {
        assert(s.take(s.len() as int) =~= s);
    }
}

// ---------------------------------------------------------------------------
// Splitting
// ---------------------------------------------------------------------------

/// The pieces of `s` between the occurrences of the separator.
pub open spec fn split_of(s: Seq<char>, sep: Seq<char>) -> Seq<Seq<char>>
    decreases s.len(),
{
    if sep.len() == 0 {
        seq![s]
    } else {
        match text::first_at(s, sep, 0) {
            Some(i) => if 0 <= i && i + sep.len() <= s.len() {
                seq![s.take(i)] + split_of(s.skip(i + sep.len()), sep)
            } else {
                seq![s]
            },
            None => seq![s],
        }
    }
}

/// What stands before and after the first occurrence of the separator.
pub open spec fn split_once_of(s: Seq<char>, sep: Seq<char>) -> Option<(Seq<char>, Seq<char>)> {
    match text::first_at(s, sep, 0) {
        Some(i) => Some((s.take(i), s.skip(i + sep.len()))),
        None => None,
    }
}

/// What stands before and after the last occurrence of the character.
pub open spec fn rsplit_char_of(s: Seq<char>, c: char) -> Option<(Seq<char>, Seq<char>)>
    decreases s.len(),
{
    if s.len() == 0 {
        None
    } else if s.last() == c {
        Some((s.drop_last(), seq![]))
    } else {
        match rsplit_char_of(s.drop_last(), c) {
            Some((a, b)) => Some((a, b.push(s.last()))),
            None => None,
        }
    }
}

/// The first occurrence in a suffix is the first occurrence from where it begins.
pub proof fn lemma_first_at_skip(s: Seq<char>, p: Seq<char>, k: int, from: int)
    requires
        0 <= k <= s.len(),
        0 <= from,
    ensures
        text::first_at(s.skip(k), p, from) == match text::first_at(s, p, k + from) {
            Some(i) => Some(i - k),
            None => None,
        },
    decreases s.len() - k - from + 1,
{
    if k + from + p.len() > s.len() {
    } else {
        assert(s.skip(k).subrange(from, from + p.len()) =~= s.subrange(
            k + from,
            k + from + p.len(),
        ));
        if !text::occurs_at(s, p, k + from) {
            lemma_first_at_skip(s, p, k, from + 1);
        }
    }
}

/// The pieces of `s` between the occurrences of a separator that is not empty.
pub fn split(s: &str, sep: &str) -> (r: Vec<String>)
    requires
        sep@.len() > 0,
    ensures
        text::texts(r@) == split_of(s@, sep@),
        r@.len() > 0,
{
    let sc = chars_of(s);
    let pc = chars_of(sep);
    let mut out: Vec<String> = Vec::new();
    let mut at: usize = 0;
    assert(s@.skip(0) =~= s@);
    assert(text::texts(out@) =~= seq![]);
    loop
        invariant
            at <= sc@.len(),
            sc@ == s@,
            pc@ == sep@,
            pc@.len() > 0,
            text::texts(out@) + split_of(s@.skip(at as int), sep@) == split_of(s@, sep@),
        decreases sc@.len() - at,
    {
        let found = find_from(&sc, &pc, at);
        proof {
            lemma_first_at_skip(s@, sep@, at as int, 0);
            text::lemma_first_at(s@, sep@, at as int);
        }
        match found {
            Some(i) => {
                let piece = string_between(&sc, at, i);
                let ghost before = out@;
                out.push(piece);
                let next: usize = i + pc.len();
                proof {
                    let rest = s@.skip(at as int);
                    assert(rest.take(i - at) =~= piece@);
                    assert(rest.skip(i - at + sep@.len()) =~= s@.skip(next as int));
                    assert(text::texts(out@) =~= text::texts(before).push(piece@));
                    assert(text::texts(before) + (seq![piece@] + split_of(s@.skip(next as int), sep@))
                        =~= text::texts(out@) + split_of(s@.skip(next as int), sep@));
                }
                at = next;
            },
            None => {
                let piece = string_between(&sc, at, sc.len());
                let ghost before = out@;
                out.push(piece);
                proof {
                    assert(piece@ =~= s@.skip(at as int));
                    assert(text::texts(out@) =~= text::texts(before) + seq![piece@]);
                }
                return out;
            },
        }
    }
}

/// What stands before and after the first occurrence of the separator.
pub fn split_once(s: &str, sep: &str) -> (r: Option<(String, String)>)
    ensures
        match r {
            Some(p) => split_once_of(s@, sep@) == Some((p.0@, p.1@)),
            None => split_once_of(s@, sep@) is None,
        },
{
    let sc = chars_of(s);
    let pc = chars_of(sep);
    match find_from(&sc, &pc, 0) {
        Some(i) => {
            let a = string_between(&sc, 0, i);
            let b = string_between(&sc, i + pc.len(), sc.len());
            assert(a@ =~= s@.take(i as int));
            assert(b@ =~= s@.skip(i + sep@.len()));
            Some((a, b))
        },
        None => None,
    }
}

pub proof fn lemma_rsplit_char_is(s: Seq<char>, c: char, i: int)
    requires
        0 <= i < s.len(),
        s[i] == c,
        forall|k: int| i < k < s.len() ==> s[k] != c,
    ensures
        rsplit_char_of(s, c) == Some((s.take(i), s.skip(i + 1))),
    decreases s.len(),
{
    if i == s.len() - 1 {
        assert(s.drop_last() =~= s.take(i));
        assert(s.skip(i + 1) =~= seq![]);
    } else {
        lemma_rsplit_char_is(s.drop_last(), c, i);
        assert(s.drop_last().take(i) =~= s.take(i));
        assert(s.drop_last().skip(i + 1).push(s.last()) =~= s.skip(i + 1));
    }
}

proof fn lemma_rsplit_char_none(s: Seq<char>, c: char)
    requires
        forall|k: int| 0 <= k < s.len() ==> s[k] != c,
    ensures
        rsplit_char_of(s, c) is None,
    decreases s.len(),
{
    if s.len() > 0 {
        lemma_rsplit_char_none(s.drop_last(), c);
    }
}

/// What stands before and after the last occurrence of the character.
pub fn rsplit_char(s: &str, c: char) -> (r: Option<(String, String)>)
    ensures
        match r {
            Some(p) => rsplit_char_of(s@, c) == Some((p.0@, p.1@)),
            None => rsplit_char_of(s@, c) is None,
        },
{
    let sc = chars_of(s);
    let mut i: usize = sc.len();
    while i > 0
        invariant
            i <= sc@.len(),
            sc@ == s@,
            forall|k: int| i <= k < sc@.len() ==> sc@[k] != c,
        decreases i,
    {
        if sc[i - 1] == c {
            let a = string_between(&sc, 0, i - 1);
            let b = string_between(&sc, i, sc.len());
            proof {
                lemma_rsplit_char_is(s@, c, i - 1);
                assert(a@ =~= s@.take(i - 1));
                assert(b@ =~= s@.skip(i as int));
            }
            return Some((a, b));
        }
        i -= 1;
    }
    proof {
        lemma_rsplit_char_none(s@, c);
    }
    None
}

// ---------------------------------------------------------------------------
// Lines
// ---------------------------------------------------------------------------

/// A line without the carriage return at its end.
pub open spec fn without_return(s: Seq<char>) -> Seq<char> {
    if s.len() > 0 && s.last() == '\r' {
        s.drop_last()
    } else {
        s
    }
}

/// The lines of a text. A line ends with a line feed, which may have a carriage
/// return before it; the last line needs no end.
pub open spec fn lines_of(s: Seq<char>) -> Seq<Seq<char>>
    decreases s.len(),
{
    if s.len() == 0 {
        seq![]
    } else {
        match text::first_at(s, seq!['\n'], 0) {
            Some(i) => if 0 <= i < s.len() {
                seq![without_return(s.take(i))] + lines_of(s.skip(i + 1))
            } else {
                seq![s]
            },
            None => seq![s],
        }
    }
}

/// The lines of a text.
pub fn lines(s: &str) -> (r: Vec<String>)
    ensures
        text::texts(r@) == lines_of(s@),
{
    let sc = chars_of(s);
    let mut nl: Vec<char> = Vec::new();
    nl.push('\n');
    let mut out: Vec<String> = Vec::new();
    let mut at: usize = 0;
    assert(nl@ =~= seq!['\n']);
    assert(s@.skip(0) =~= s@);
    assert(text::texts(out@) =~= seq![]);
    while at < sc.len()
        invariant
            at <= sc@.len(),
            sc@ == s@,
            nl@ == seq!['\n'],
            text::texts(out@) + lines_of(s@.skip(at as int)) == lines_of(s@),
        decreases sc@.len() - at,
    {
        let found = find_from(&sc, &nl, at);
        proof {
            lemma_first_at_skip(s@, nl@, at as int, 0);
            text::lemma_first_at(s@, nl@, at as int);
        }
        match found {
            Some(i) => {
                let mut end: usize = i;
                if i > at && sc[i - 1] == '\r' {
                    end = i - 1;
                }
                let piece = string_between(&sc, at, end);
                let ghost before = out@;
                out.push(piece);
                proof {
                    let rest = s@.skip(at as int);
                    assert(rest.take(i - at) =~= s@.subrange(at as int, i as int));
                    assert(without_return(rest.take(i - at)) =~= piece@);
                    assert(rest.skip(i - at + 1) =~= s@.skip(i + 1));
                    assert(text::texts(out@) =~= text::texts(before).push(piece@));
                    assert(text::texts(before) + (seq![piece@] + lines_of(s@.skip(i + 1)))
                        =~= text::texts(out@) + lines_of(s@.skip(i + 1)));
                }
                at = i + 1;
            },
            None => {
                let piece = string_between(&sc, at, sc.len());
                let ghost before = out@;
                out.push(piece);
                proof {
                    assert(piece@ =~= s@.skip(at as int));
                    assert(text::texts(out@) =~= text::texts(before) + seq![piece@]);
                    assert(text::texts(out@) =~= lines_of(s@));
                }
                return out;
            },
        }
    }
    assert(lines_of(s@.skip(at as int)) =~= seq![]);
    assert(text::texts(out@) =~= lines_of(s@));
    out
}

// ---------------------------------------------------------------------------
// Joining and replacing
// ---------------------------------------------------------------------------

/// The texts one after the other, with the separator between them.
pub open spec fn joined(parts: Seq<Seq<char>>, sep: Seq<char>) -> Seq<char>
    decreases parts.len(),
{
    if parts.len() == 0 {
        seq![]
    } else if parts.len() == 1 {
        parts[0]
    } else {
        joined(parts.drop_last(), sep) + sep + parts.last()
    }
}

/// The texts one after the other, with the separator between them.
pub fn join(parts: &Vec<String>, sep: &str) -> (r: String)
    ensures
        r@ == joined(text::texts(parts@), sep@),
{
    let mut out = String::new();
    let mut i: usize = 0;
    assert(out@ =~= joined(text::texts(parts@).take(0), sep@));
    while i < parts.len()
        invariant
            i <= parts@.len(),
            out@ == joined(text::texts(parts@).take(i as int), sep@),
        decreases parts@.len() - i,
    {
        let ghost before = out@;
        if i > 0 {
            out.append(sep);
        }
        out.append(parts[i].as_str());
        proof {
            let t = text::texts(parts@).take(i + 1);
            assert(t.drop_last() =~= text::texts(parts@).take(i as int));
            assert(t.last() == parts@[i as int]@);
            if i == 0 {
                assert(out@ =~= t[0]);
            }
        }
        i += 1;
    }
    assert(text::texts(parts@).take(i as int) =~= text::texts(parts@));
    out
}

/// `s` with every occurrence of `from` replaced by `to`, left to right.
pub open spec fn replaced(s: Seq<char>, from: Seq<char>, to: Seq<char>) -> Seq<char> {
    joined(split_of(s, from), to)
}

/// `s` with every occurrence of `from`, which is not empty, replaced by `to`.
pub fn replace(s: &str, from: &str, to: &str) -> (r: String)
    requires
        from@.len() > 0,
    ensures
        r@ == replaced(s@, from@, to@),
{
    let parts = split(s, from);
    join(&parts, to)
}

/// `s` without any number of copies of `p` at its beginning.
pub open spec fn without_prefixes(s: Seq<char>, p: Seq<char>) -> Seq<char>
    decreases s.len(),
{
    if p.len() > 0 && text::begins(s, p) {
        without_prefixes(s.skip(p.len() as int), p)
    } else {
        s
    }
}

/// `s` without any number of copies of `p` at its end.
pub open spec fn without_suffixes(s: Seq<char>, p: Seq<char>) -> Seq<char>
    decreases s.len(),
{
    if p.len() > 0 && text::ends(s, p) {
        without_suffixes(s.take(s.len() - p.len()), p)
    } else {
        s
    }
}

/// `s` without any number of copies of `p` at its beginning.
pub fn strip_prefixes(s: &str, p: &str) -> (r: String)
    ensures
        r@ == without_prefixes(s@, p@),
{
    let sc = chars_of(s);
    let pc = chars_of(p);
    let mut at: usize = 0;
    assert(s@.skip(0) =~= s@);
    if pc.len() > 0 {
        while text::stands_at(&sc, &pc, at)
            invariant
                at <= sc@.len(),
                sc@ == s@,
                pc@ == p@,
                pc@.len() > 0,
                without_prefixes(s@, p@) == without_prefixes(s@.skip(at as int), p@),
            decreases sc@.len() - at,
        {
            proof {
                let rest = s@.skip(at as int);
                assert(rest.take(p@.len() as int) =~= s@.subrange(at as int, at + p@.len()));
                assert(rest.skip(p@.len() as int) =~= s@.skip(at + p@.len()));
            }
            assert(at + pc.len() <= sc.len());
            at = at + pc.len();
        }
        proof {
            let rest = s@.skip(at as int);
            if text::begins(rest, p@) {
                assert(rest.take(p@.len() as int) =~= s@.subrange(at as int, at + p@.len()));
            }
        }
    }
    let r = string_between(&sc, at, sc.len());
    assert(r@ =~= s@.skip(at as int));
    r
}

/// `s` without any number of copies of `p` at its end.
pub fn strip_suffixes(s: &str, p: &str) -> (r: String)
    ensures
        r@ == without_suffixes(s@, p@),
{
    let sc = chars_of(s);
    let pc = chars_of(p);
    let mut end: usize = sc.len();
    assert(s@.take(end as int) =~= s@);
    if pc.len() > 0 {
        while end >= pc.len() && text::stands_at(&sc, &pc, end - pc.len())
            invariant
                end <= sc@.len(),
                sc@ == s@,
                pc@ == p@,
                pc@.len() > 0,
                without_suffixes(s@, p@) == without_suffixes(s@.take(end as int), p@),
            decreases end,
        {
            proof {
                let rest = s@.take(end as int);
                assert(rest.skip(end - p@.len()) =~= s@.subrange(end - p@.len(), end as int));
                assert(rest.take(end - p@.len()) =~= s@.take(end - p@.len()));
            }
            end = end - pc.len();
        }
        proof {
            let rest = s@.take(end as int);
            if text::ends(rest, p@) {
                assert(rest.skip(end - p@.len()) =~= s@.subrange(end - p@.len(), end as int));
            }
        }
    }
    let r = string_between(&sc, 0, end);
    assert(r@ =~= s@.take(end as int));
    r
}

// ---------------------------------------------------------------------------
// Texts put together, taken apart
// ---------------------------------------------------------------------------

/// A separator that first stands behind `a` splits `a` off.
pub proof fn lemma_split_cons(a: Seq<char>, sep: Seq<char>, b: Seq<char>)
    requires
        sep.len() > 0,
        forall|i: int| 0 <= i < a.len() ==> !text::occurs_at(a + sep + b, sep, i),
    ensures
        split_of(a + sep + b, sep) == seq![a] + split_of(b, sep),
        split_once_of(a + sep + b, sep) == Some((a, b)),
{
    let s = a + sep + b;
    let n = a.len() as int;
    assert(s.subrange(n, n + sep.len()) =~= sep);
    text::lemma_first_at_is(s, sep, 0, n);
    assert(s.take(n) =~= a);
    assert(s.skip(n + sep.len()) =~= b);
}

/// A text without the separator is one piece.
pub proof fn lemma_split_single(a: Seq<char>, sep: Seq<char>)
    requires
        !text::has(a, sep),
    ensures
        split_of(a, sep) == seq![a],
{
    text::lemma_first_at_none(a, sep, 0);
}

/// A first line that holds no line feed stands before the lines of the rest.
pub proof fn lemma_lines_cons(a: Seq<char>, b: Seq<char>)
    requires
        forall|i: int| 0 <= i < a.len() ==> a[i] != '\n',
    ensures
        lines_of(a + seq!['\n'] + b) == seq![without_return(a)] + lines_of(b),
{
    let s = a + seq!['\n'] + b;
    let n = a.len() as int;
    assert forall|k: int| 0 <= k < n implies !text::occurs_at(s, seq!['\n'], k) by {
        text::lemma_occurs_char(s, '\n', k);
        assert(s[k] == a[k]);
    }
    text::lemma_occurs_char(s, '\n', n);
    text::lemma_first_at_is(s, seq!['\n'], 0, n);
    assert(s.take(n) =~= a);
    assert(s.skip(n + 1) =~= b);
}

/// A text that ends with a line feed adds its lines before those of the rest.
pub proof fn lemma_lines_concat(x: Seq<char>, y: Seq<char>)
    ensures
        lines_of(x + seq!['\n'] + y) == lines_of(x + seq!['\n']) + lines_of(y),
    decreases x.len(),
{
    let nl = seq!['\n'];
    text::lemma_first_at(x, nl, 0);
    match text::first_at(x, nl, 0) {
        None => {
            assert forall|i: int| 0 <= i < x.len() implies x[i] != '\n' by {
                text::lemma_occurs_char(x, '\n', i);
            }
            lemma_lines_cons(x, y);
            lemma_lines_cons(x, Seq::empty());
            assert(x + nl + Seq::<char>::empty() =~= x + nl);
            assert(lines_of(Seq::<char>::empty()) =~= Seq::<Seq<char>>::empty());
            assert(seq![without_return(x)] + Seq::<Seq<char>>::empty() =~= seq![without_return(x)]);
        },
        Some(k) => {
            text::lemma_occurs_char(x, '\n', k);
            let a = x.take(k);
            let rest = x.skip(k + 1);
            assert forall|i: int| 0 <= i < a.len() implies a[i] != '\n' by {
                text::lemma_occurs_char(x, '\n', i);
            }
            assert(x + nl + y =~= a + nl + (rest + nl + y));
            assert(x + nl =~= a + nl + (rest + nl));
            lemma_lines_cons(a, rest + nl + y);
            lemma_lines_cons(a, rest + nl);
            lemma_lines_concat(rest, y);
            assert(seq![without_return(a)] + (lines_of(rest + nl) + lines_of(y)) =~= (
            seq![without_return(a)] + lines_of(rest + nl)) + lines_of(y));
        },
    }
}

/// Joining behind one more first part.
pub proof fn lemma_joined_cons(a: Seq<char>, parts: Seq<Seq<char>>, sep: Seq<char>)
    ensures
        joined(seq![a] + parts, sep) == if parts.len() == 0 {
            a
        } else {
            a + sep + joined(parts, sep)
        },
    decreases parts.len(),
{
    let all = seq![a] + parts;
    if parts.len() == 0 {
        assert(all[0] == a);
    } else if parts.len() == 1 {
        assert(all.drop_last() =~= seq![a]);
        assert(joined(seq![a], sep) == a);
        assert(all.last() == parts[0]);
    } else {
        assert(all.drop_last() =~= seq![a] + parts.drop_last());
        assert(all.last() == parts.last());
        lemma_joined_cons(a, parts.drop_last(), sep);
        assert(joined(all, sep) =~= a + sep + joined(parts, sep));
    }
}

/// Lines of a text without carriage returns, joined by line feeds, are the text, but for
/// the line feed at its end.
pub proof fn lemma_lines_join(x: Seq<char>)
    requires
        forall|i: int| 0 <= i < x.len() ==> x[i] != '\r',
    ensures
        joined(lines_of(x + seq!['\n']), seq!['\n']) == x,
        lines_of(x + seq!['\n']).len() > 0,
    decreases x.len(),
{
    let nl = seq!['\n'];
    text::lemma_first_at(x, nl, 0);
    match text::first_at(x, nl, 0) {
        None => {
            assert forall|i: int| 0 <= i < x.len() implies x[i] != '\n' by {
                text::lemma_occurs_char(x, '\n', i);
            }
            lemma_lines_cons(x, Seq::empty());
            assert(x + nl + Seq::<char>::empty() =~= x + nl);
            assert(lines_of(Seq::<char>::empty()) =~= Seq::<Seq<char>>::empty());
            assert(lines_of(x + nl) =~= seq![x]);
        },
        Some(k) => {
            text::lemma_occurs_char(x, '\n', k);
            let a = x.take(k);
            let rest = x.skip(k + 1);
            assert forall|i: int| 0 <= i < a.len() implies a[i] != '\n' by {
                text::lemma_occurs_char(x, '\n', i);
            }
            assert(x + nl =~= a + nl + (rest + nl));
            lemma_lines_cons(a, rest + nl);
            lemma_lines_join(rest);
            lemma_joined_cons(a, lines_of(rest + nl), nl);
            assert(without_return(a) == a);
            assert(a + nl + rest =~= x);
        },
    }
}

/// White space at either end makes no difference to what trimming leaves.
pub proof fn lemma_trimmed_without_return(s: Seq<char>)
    ensures
        trimmed(without_return(s)) == trimmed(s),
{
    if s.len() > 0 && s.last() == '\r' {
        lemma_trim_last_white(s);
    }
}

proof fn lemma_trim_last_white(s: Seq<char>)
    requires
        s.len() > 0,
        white(s.last()),
    ensures
        trimmed(s.drop_last()) == trimmed(s),
    decreases s.len(),
{
    if white(s[0]) && s.len() > 1 {
        lemma_trim_last_white(s.drop_first());
        assert(s.drop_first().drop_last() =~= s.drop_last().drop_first());
        assert(s.drop_last()[0] == s[0]);
    } else if white(s[0]) {
        assert(s.drop_first() =~= Seq::<char>::empty());
        assert(s.drop_last() =~= Seq::<char>::empty());
        reveal_with_fuel(trimmed_start, 2);
    } else {
        assert(s.drop_last().len() > 0 ==> s.drop_last()[0] == s[0]);
    }
}

/// A character that a text lacks does not come up when it is trimmed.
pub proof fn lemma_trimmed_lacks(s: Seq<char>, c: char)
    requires
        forall|i: int| 0 <= i < s.len() ==> s[i] != c,
    ensures
        forall|i: int| 0 <= i < trimmed(s).len() ==> trimmed(s)[i] != c,
{
    lemma_trimmed_start_lacks(s, c);
    lemma_trimmed_end_lacks(trimmed_start(s), c);
}

proof fn lemma_trimmed_start_lacks(s: Seq<char>, c: char)
    requires
        forall|i: int| 0 <= i < s.len() ==> s[i] != c,
    ensures
        forall|i: int| 0 <= i < trimmed_start(s).len() ==> trimmed_start(s)[i] != c,
    decreases s.len(),
{
    if s.len() > 0 && white(s[0]) {
        lemma_trimmed_start_lacks(s.drop_first(), c);
        assert(trimmed_start(s) == trimmed_start(s.drop_first()));
    } else {
        assert(trimmed_start(s) == s);
    }
}

proof fn lemma_trimmed_end_lacks(s: Seq<char>, c: char)
    requires
        forall|i: int| 0 <= i < s.len() ==> s[i] != c,
    ensures
        forall|i: int| 0 <= i < trimmed_end(s).len() ==> trimmed_end(s)[i] != c,
    decreases s.len(),
{
    if s.len() > 0 && white(s.last()) {
        lemma_trimmed_end_lacks(s.drop_last(), c);
        assert(trimmed_end(s) == trimmed_end(s.drop_last()));
    } else {
        assert(trimmed_end(s) == s);
    }
}

/// The text holds something besides white space.
pub open spec fn says_something(s: Seq<char>) -> bool {
    exists|i: int| 0 <= i < s.len() && !white(#[trigger] s[i])
}

/// Trimming takes away white space around the text and nothing else: what is left stands
/// between two stretches of white space, begins and ends with something else, and is empty
/// exactly where the whole text is white space.
pub proof fn law_trimming_takes_only_white_space(s: Seq<char>)
    ensures
        exists|a: int, b: int|
            0 <= a <= b <= s.len() && trimmed(s) == #[trigger] s.subrange(a, b) && (forall|i: int|
                0 <= i < a ==> white(#[trigger] s[i])) && (forall|i: int|
                b <= i < s.len() ==> white(#[trigger] s[i])),
        trimmed(s).len() > 0 ==> !white(trimmed(s)[0]) && !white(trimmed(s).last()),
        trimmed(s).len() == 0 <==> !says_something(s),
{
    lemma_start_is_white(s);
    let t = trimmed_start(s);
    lemma_end_is_white(t);
    lemma_trimmed_ends(s);
    let k = choose|k: int|
        0 <= k <= s.len() && t == s.skip(k) && forall|i: int| 0 <= i < k ==> white(#[trigger] s[i]);
    let m = choose|m: int|
        0 <= m <= t.len() && trimmed_end(t) == t.take(m) && forall|i: int|
            m <= i < t.len() ==> white(#[trigger] t[i]);
    assert(t.take(m) =~= s.subrange(k, k + m));
    assert forall|i: int| k + m <= i < s.len() implies white(#[trigger] s[i]) by {
        assert(t[i - k] == s[i]);
    }
    if trimmed(s).len() > 0 {
        assert(s.subrange(k, k + m)[0] == s[k]);
        assert(!white(s[k]));
    }
}

proof fn lemma_start_is_white(s: Seq<char>)
    ensures
        exists|k: int|
            0 <= k <= s.len() && trimmed_start(s) == s.skip(k) && forall|i: int|
                0 <= i < k ==> white(#[trigger] s[i]),
    decreases s.len(),
{
    if s.len() > 0 && white(s[0]) {
        let r = s.drop_first();
        lemma_start_is_white(r);
        let k = choose|k: int|
            0 <= k <= r.len() && trimmed_start(r) == r.skip(k) && forall|i: int|
                0 <= i < k ==> white(#[trigger] r[i]);
        assert(r.skip(k) =~= s.skip(k + 1));
        assert forall|i: int| 0 <= i < k + 1 implies white(#[trigger] s[i]) by {
            if i > 0 {
                assert(r[i - 1] == s[i]);
            }
        }
    } else {
        assert(s.skip(0) =~= s);
    }
}

proof fn lemma_end_is_white(s: Seq<char>)
    ensures
        exists|m: int|
            0 <= m <= s.len() && trimmed_end(s) == s.take(m) && forall|i: int|
                m <= i < s.len() ==> white(#[trigger] s[i]),
    decreases s.len(),
{
    if s.len() > 0 && white(s.last()) {
        let r = s.drop_last();
        lemma_end_is_white(r);
        let m = choose|m: int|
            0 <= m <= r.len() && trimmed_end(r) == r.take(m) && forall|i: int|
                m <= i < r.len() ==> white(#[trigger] r[i]);
        assert(r.take(m) =~= s.take(m));
        assert forall|i: int| m <= i < s.len() implies white(#[trigger] s[i]) by {
            if i < r.len() {
                assert(r[i] == s[i]);
            }
        }
    } else {
        assert(s.take(s.len() as int) =~= s);
    }
}

/// Splitting takes nothing away but the separators: putting the pieces together with the
/// separator between them gives the text back, and in no piece does the separator occur.
pub proof fn law_split_pieces_make_up_the_text(s: Seq<char>, sep: Seq<char>)
    requires
        sep.len() > 0,
    ensures
        joined(split_of(s, sep), sep) == s,
        split_of(s, sep).len() > 0,
        forall|i: int| 0 <= i < split_of(s, sep).len() ==> !text::has(#[trigger] split_of(s, sep)[i], sep),
    decreases s.len(),
{
    text::lemma_first_at(s, sep, 0);
    let all = split_of(s, sep);
    match text::first_at(s, sep, 0) {
        Some(i) => {
            let rest = s.skip(i + sep.len());
            law_split_pieces_make_up_the_text(rest, sep);
            let tail = split_of(rest, sep);
            lemma_joined_first(s.take(i), tail, sep);
            assert(s.take(i) + sep + rest =~= s) by {
                assert(s.subrange(i, i + sep.len()) == sep);
            }
            assert forall|k: int| 0 <= k < all.len() implies !text::has(#[trigger] all[k], sep) by {
                if k == 0 {
                    let piece = s.take(i);
                    assert forall|j: int| !text::occurs_at(piece, sep, j) by {
                        if text::occurs_at(piece, sep, j) {
                            assert(piece.subrange(j, j + sep.len()) =~= s.subrange(j, j + sep.len()));
                            assert(text::occurs_at(s, sep, j));
                        }
                    }
                } else {
                    assert(all[k] == tail[k - 1]);
                }
            }
        },
        None => {
            assert(all =~= seq![s]);
            assert forall|k: int| 0 <= k < all.len() implies !text::has(#[trigger] all[k], sep) by {
                assert forall|j: int| !text::occurs_at(s, sep, j) by {}
            }
        },
    }
}

/// A text put before others comes first, with the separator behind it.
proof fn lemma_joined_first(first: Seq<char>, rest: Seq<Seq<char>>, sep: Seq<char>)
    requires
        rest.len() > 0,
    ensures
        joined(seq![first] + rest, sep) == first + sep + joined(rest, sep),
    decreases rest.len(),
{
    let all = seq![first] + rest;
    assert(all.last() == rest.last());
    if rest.len() == 1 {
        assert(all.drop_last() =~= seq![first]);
        assert(joined(all.drop_last(), sep) == first);
        assert(rest[0] == rest.last());
    } else {
        lemma_joined_first(first, rest.drop_last(), sep);
        assert(all.drop_last() =~= seq![first] + rest.drop_last());
        assert(joined(all, sep) =~= first + sep + joined(rest, sep));
    }
}

/// A text is split at the last occurrence of a character: what stands before it and what
/// stands behind it come back, and a text without the character is not split.
pub proof fn law_split_at_the_last(before: Seq<char>, c: char, after: Seq<char>)
    requires
        !after.contains(c),
    ensures
        rsplit_char_of(before + seq![c] + after, c) == Some((before, after)),
        rsplit_char_of(after, c) is None,
    decreases after.len(),
{
    let s = before + seq![c] + after;
    if after.len() == 0 {
        assert(s.last() == c);
        assert(s.drop_last() =~= before);
        assert(after =~= seq![]);
    } else {
        let front = after.drop_last();
        assert(after.contains(after[after.len() - 1]));
        assert(!front.contains(c)) by {
            if front.contains(c) {
                let i = choose|i: int| 0 <= i < front.len() && front[i] == c;
                assert(after[i] == c);
            }
        }
        law_split_at_the_last(before, c, front);
        assert(s.drop_last() =~= before + seq![c] + front);
        assert(front.push(after.last()) =~= after);
    }
}

/// A text is split at the first occurrence of the separator, which is what comes between the
/// two parts.
pub proof fn law_split_at_the_first(s: Seq<char>, sep: Seq<char>)
    ensures
        match split_once_of(s, sep) {
            Some((a, b)) => a + sep + b == s && forall|i: int|
                0 <= i < a.len() ==> !#[trigger] text::occurs_at(s, sep, i),
            None => !text::has(s, sep),
        },
{
    text::lemma_first_at(s, sep, 0);
    match text::first_at(s, sep, 0) {
        Some(i) => {
            assert(s.subrange(i, i + sep.len()) == sep);
            assert(s.take(i) + sep + s.skip(i + sep.len()) =~= s);
        },
        None => {
            if text::has(s, sep) {
                let k = choose|k: int| text::occurs_at(s, sep, k);
                assert(text::occurs_at(s, sep, k));
            }
        },
    }
}

/// Prefixes and suffixes are taken away as often as they stand there, and nothing else is.
pub proof fn law_affixes_are_taken_away(s: Seq<char>, p: Seq<char>)
    requires
        p.len() > 0,
    ensures
        without_prefixes(p + s, p) == without_prefixes(s, p),
        without_suffixes(s + p, p) == without_suffixes(s, p),
        !text::begins(s, p) ==> without_prefixes(s, p) == s,
        !text::ends(s, p) ==> without_suffixes(s, p) == s,
        !text::begins(without_prefixes(s, p), p),
        !text::ends(without_suffixes(s, p), p),
    decreases s.len(),
{
    assert((p + s).take(p.len() as int) =~= p);
    assert((p + s).skip(p.len() as int) =~= s);
    assert((s + p).skip(s.len() as int) =~= p);
    assert((s + p).take(s.len() as int) =~= s);
    if text::begins(s, p) {
        law_affixes_are_taken_away(s.skip(p.len() as int), p);
    }
    if text::ends(s, p) {
        law_affixes_are_taken_away(s.take(s.len() - p.len()), p);
    }
}

/// Pieces that a character joins are told apart again, where none of them holds it.
pub proof fn law_joined_pieces_are_told_apart(parts: Seq<Seq<char>>, c: char)
    requires
        parts.len() > 0,
        forall|i: int| 0 <= i < parts.len() ==> !(#[trigger] parts[i]).contains(c),
    ensures
        split_of(joined(parts, seq![c]), seq![c]) == parts,
    decreases parts.len(),
{
    broadcast use text::lemma_occurs_char;

    let sep = seq![c];
    let first = parts[0];
    let rest = parts.drop_first();
    assert(parts =~= seq![first] + rest);
    lemma_joined_cons(first, rest, sep);
    assert forall|i: int| 0 <= i < first.len() implies first[i] != c by {
        assert(!first.contains(c));
    }
    if rest.len() == 0 {
        assert(!text::has(first, sep)) by {
            if text::has(first, sep) {
                let i = choose|i: int| text::occurs_at(first, sep, i);
                assert(first[i] == c);
            }
        }
        lemma_split_single(first, sep);
    } else {
        assert forall|i: int| 0 <= i < rest.len() implies !(#[trigger] rest[i]).contains(c) by {
            assert(rest[i] == parts[i + 1]);
        }
        law_joined_pieces_are_told_apart(rest, c);
        let tail = joined(rest, sep);
        assert forall|i: int| 0 <= i < first.len() implies !text::occurs_at(
            first + sep + tail,
            sep,
            i,
        ) by {
            assert((first + sep + tail)[i] == first[i]);
        }
        lemma_split_cons(first, sep, tail);
    }
}

/// Two runs of pieces are joined as their joined texts are.
pub proof fn law_runs_of_pieces_are_joined(a: Seq<Seq<char>>, b: Seq<Seq<char>>, sep: Seq<char>)
    requires
        a.len() > 0,
        b.len() > 0,
    ensures
        joined(a + b, sep) == joined(a, sep) + sep + joined(b, sep),
    decreases b.len(),
{
    let all = a + b;
    assert(all.last() == b.last());
    assert(all.drop_last() =~= a + b.drop_last());
    if b.len() == 1 {
        assert(a + b.drop_last() =~= a);
        assert(b[0] == b.last());
    } else {
        law_runs_of_pieces_are_joined(a, b.drop_last(), sep);
        assert(joined(a, sep) + sep + joined(b.drop_last(), sep) + sep + b.last() =~= joined(a, sep)
            + sep + (joined(b.drop_last(), sep) + sep + b.last()));
    }
}

} // verus!
