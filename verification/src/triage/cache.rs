//! Where candidates' payloads lie: paths below the cache root.
use vstd::prelude::*;
use crate::paths;
use crate::pieces;
use crate::text;

verus! {

/// The directory of the cache that holds triage payloads.
pub const CACHE_KIND: &'static str = "triage";

/// The longest segment that is taken from an id.
pub const SEGMENT_CHARS: usize = 80;

/// A character that a segment keeps.
pub open spec fn segment_char(c: char) -> bool {
    '0' <= c <= '9' || 'a' <= c <= 'z' || 'A' <= c <= 'Z' || c == '_' || c == '-'
}

/// The character that stands for another in a segment.
pub open spec fn segment_of_char(c: char) -> char {
    if segment_char(c) {
        c
    } else {
        '_'
    }
}

/// A fragment made safe for a file name: ASCII letters, digits, `_` and `-`, at least one
/// and at most 80 of them.
pub open spec fn segment_of(s: Seq<char>) -> Seq<char> {
    if s.len() == 0 {
        seq!['_']
    } else {
        Seq::new(
            if s.len() < SEGMENT_CHARS {
                s.len()
            } else {
                SEGMENT_CHARS as nat
            },
            |i: int| segment_of_char(s[i]),
        )
    }
}

/// A fragment made safe for a file name.
pub fn safe_segment(input: &str) -> (r: String)
    ensures
        r@ == segment_of(input@),
{
    let v = text::chars_of(input);
    let mut out = String::new();
    if v.len() == 0 {
        out.push('_');
        assert(out@ =~= segment_of(input@));
        return out;
    }
    let n: usize = if v.len() < SEGMENT_CHARS {
        v.len()
    } else {
        SEGMENT_CHARS
    };
    let mut i: usize = 0;
    while i < n
        invariant
            v@ == input@,
            i <= n <= v@.len(),
            n == segment_of(input@).len(),
            v@.len() > 0,
            out@ == segment_of(input@).take(i as int),
        decreases n - i,
    {
        let c = v[i];
        if ('0' <= c && c <= '9') || ('a' <= c && c <= 'z') || ('A' <= c && c <= 'Z') || c == '_'
            || c == '-' {
            out.push(c);
        } else {
            out.push('_');
        }
        i += 1;
        assert(out@ =~= segment_of(input@).take(i as int));
    }
    assert(out@ =~= segment_of(input@));
    out
}

/// The cache root below the data directory's cache.
pub fn cache_root(cache_dir: &str) -> (r: String)
    ensures
        r@ == paths::path_joined(cache_dir@, CACHE_KIND@),
{
    paths::path_join(cache_dir, CACHE_KIND)
}

/// The cache root, made ready at startup.
pub fn ensure_cache_root(cache_dir: &str) -> (r: String)
    ensures
        r@ == paths::path_joined(cache_dir@, CACHE_KIND@),
{
    cache_root(cache_dir)
}

/// A path below the root.
pub fn join_root(root: &str, rel: &str) -> (r: String)
    ensures
        r@ == paths::path_joined(root@, rel@),
{
    paths::path_join(root, rel)
}

/// What is said of a path that leads out of the cache.
pub open spec fn escapes(rel: Seq<char>) -> Seq<char> {
    "triage cache path escapes root: "@ + rel
}

/// The parts of a path that lead somewhere, each step up taken back together with the part
/// before it. A step up from the root of the file system leads nowhere; one from the place
/// where a relative path begins is kept.
pub open spec fn resolved_parts(parts: Seq<Seq<char>>, absolute: bool) -> Seq<Seq<char>>
    decreases parts.len(),
{
    if parts.len() == 0 {
        seq![]
    } else {
        let before = resolved_parts(parts.drop_last(), absolute);
        let part = parts.last();
        if !paths::names_something(part) {
            before
        } else if part != ".."@ {
            before.push(part)
        } else if before.len() > 0 && before.last() != ".."@ {
            before.drop_last()
        } else if absolute {
            before
        } else {
            before.push(part)
        }
    }
}

/// The parts of a path with every step up taken.
pub open spec fn resolved(path: Seq<char>) -> Seq<Seq<char>> {
    resolved_parts(pieces::split_of(path, "/"@), text::begins(path, "/"@))
}

/// The parts of a path with every step up taken.
fn resolve_parts(path: &str) -> (r: Vec<String>)
    ensures
        text::texts(r@) == resolved(path@),
{
    proof {
        reveal_strlit("/");
    }
    let absolute = text::starts_with(path, "/");
    let parts = pieces::split(path, "/");
    let ghost all = text::texts(parts@);
    let mut out: Vec<String> = Vec::new();
    let mut i: usize = 0;
    assert(text::texts(out@) =~= resolved_parts(all.take(0), absolute));
    while i < parts.len()
        invariant
            i <= parts@.len(),
            all == text::texts(parts@),
            text::texts(out@) == resolved_parts(all.take(i as int), absolute),
        decreases parts@.len() - i,
    {
        assert(all.take(i + 1).drop_last() =~= all.take(i as int));
        assert(all.take(i + 1).last() == parts@[i as int]@);
        let ghost before = text::texts(out@);
        let part = &parts[i];
        let n: usize = out.len();
        assert(before.len() == n);
        if part.as_str().is_empty() || text::same(part.as_str(), ".") {
        } else if !text::same(part.as_str(), "..") {
            out.push(part.clone());
            assert(text::texts(out@) =~= before.push(part@));
        } else {
            let descends = n > 0 && !text::same(out[n - 1].as_str(), "..");
            assert(n > 0 ==> before.last() == out@[n - 1]@);
            if descends {
                out.pop();
                assert(text::texts(out@) =~= before.drop_last());
            } else if !absolute {
                out.push(part.clone());
                assert(text::texts(out@) =~= before.push(part@));
            }
        }
        i += 1;
    }
    assert(all.take(i as int) =~= all);
    out
}

/// One path lies at or below another once every step up is taken: both are absolute or
/// both are not, the parts of the other are the first of its own, and what follows does
/// not lead up again.
pub open spec fn lies_below(path: Seq<char>, root: Seq<char>) -> bool {
    let p = resolved(path);
    let r = resolved(root);
    &&& text::begins(path, "/"@) == text::begins(root, "/"@)
    &&& r.len() <= p.len()
    &&& p.take(r.len() as int) == r
    &&& p.len() > r.len() ==> p[r.len() as int] != ".."@
}

/// Whether one path lies at or below another once every step up is taken.
pub fn is_below(path: &str, root: &str) -> (r: bool)
    ensures
        r == lies_below(path@, root@),
{
    let p = resolve_parts(path);
    let q = resolve_parts(root);
    let ghost pv = text::texts(p@);
    let ghost qv = text::texts(q@);
    if text::starts_with(path, "/") != text::starts_with(root, "/") {
        return false;
    }
    if q.len() > p.len() {
        return false;
    }
    let mut i: usize = 0;
    while i < q.len()
        invariant
            i <= q@.len() <= p@.len(),
            pv == text::texts(p@),
            qv == text::texts(q@),
            pv == resolved(path@),
            qv == resolved(root@),
            forall|k: int| 0 <= k < i ==> pv[k] == qv[k],
        decreases q@.len() - i,
    {
        if !text::same(p[i].as_str(), q[i].as_str()) {
            assert(pv.take(qv.len() as int)[i as int] == p@[i as int]@);
            assert(qv[i as int] == q@[i as int]@);
            return false;
        }
        i += 1;
    }
    assert(pv.take(qv.len() as int) =~= qv);
    if q.len() < p.len() {
        assert(pv[qv.len() as int] == p@[q@.len() as int]@);
        !text::same(p[q.len()].as_str(), "..")
    } else {
        true
    }
}

/// Where a payload's path leads: to what the host found with links followed, or, where
/// nothing stands there, to the path below the root as it is written.
pub open spec fn read_path(root: Seq<char>, rel: Seq<char>, canonical: Option<Seq<char>>) -> Seq<
    char,
> {
    match canonical {
        Some(c) => c,
        None => paths::path_joined(root, rel),
    }
}

/// Where a payload's path leads, if it stays below the root. `root` has its links followed,
/// and so has `canonical`, the joined path, which is given where something stands there.
pub fn resolve_for_read(root: &str, rel_path: &str, canonical: Option<&str>) -> (r: Result<
    String,
    String,
>)
    ensures
        ({
            let p = read_path(root@, rel_path@, text::opt_str(canonical));
            match r {
                Ok(found) => lies_below(p, root@) && found@ == p,
                Err(e) => !lies_below(p, root@) && e@ == escapes(rel_path@),
            }
        }),
{
    let found = match canonical {
        Some(c) => c.to_string(),
        None => paths::path_join(root, rel_path),
    };
    if is_below(found.as_str(), root) {
        Ok(found)
    } else {
        let mut out = "triage cache path escapes root: ".to_string();
        out.append(rel_path);
        Err(out)
    }
}

// ---------------------------------------------------------------------------
// Laws
// ---------------------------------------------------------------------------

/// A segment is never empty, never longer than 80 characters, and holds nothing that
/// means anything to a file system: no separator and no dot.
pub proof fn law_segments_are_safe(s: Seq<char>)
    ensures
        1 <= segment_of(s).len() <= SEGMENT_CHARS,
        forall|i: int| 0 <= i < segment_of(s).len() ==> segment_char(#[trigger] segment_of(s)[i]),
        forall|i: int|
            0 <= i < segment_of(s).len() ==> #[trigger] segment_of(s)[i] != '/' && segment_of(s)[i]
                != '.',
{
}

/// A path that is read stays inside the root: with every step up taken it consists of the
/// root's parts and of others behind them, none of which leads up.
pub proof fn law_reads_stay_below_the_root(path: Seq<char>, root: Seq<char>)
    requires
        lies_below(path, root),
    ensures
        ({
            let p = resolved(path);
            let r = resolved(root);
            &&& p == r + p.skip(r.len() as int)
            &&& forall|i: int| r.len() <= i < p.len() ==> #[trigger] p[i] != ".."@
            &&& text::begins(root, "/"@) ==> forall|i: int|
                0 <= i < p.len() ==> #[trigger] p[i] != ".."@
        }),
{
    let p = resolved(path);
    let r = resolved(root);
    assert(p =~= r + p.skip(r.len() as int)) by {
        assert forall|i: int| 0 <= i < r.len() implies p[i] == r[i] by {
            assert(p.take(r.len() as int)[i] == r[i]);
        }
    }
    lemma_steps_up_come_first(pieces::split_of(path, "/"@), text::begins(path, "/"@));
    assert forall|i: int| r.len() <= i < p.len() implies #[trigger] p[i] != ".."@ by {
        if p[i] == ".."@ {
            assert(p[r.len() as int] == ".."@);
        }
    }
}

/// Steps up that are kept stand at the beginning, and an absolute path keeps none.
proof fn lemma_steps_up_come_first(parts: Seq<Seq<char>>, absolute: bool)
    ensures
        ({
            let p = resolved_parts(parts, absolute);
            &&& forall|i: int, j: int|
                0 <= i < j < p.len() && #[trigger] p[j] == ".."@ ==> #[trigger] p[i] == ".."@
            &&& absolute ==> forall|i: int| 0 <= i < p.len() ==> #[trigger] p[i] != ".."@
        }),
    decreases parts.len(),
{
    if parts.len() > 0 {
        lemma_steps_up_come_first(parts.drop_last(), absolute);
        let before = resolved_parts(parts.drop_last(), absolute);
        let p = resolved_parts(parts, absolute);
        assert forall|i: int, j: int|
            0 <= i < j < p.len() && #[trigger] p[j] == ".."@ implies #[trigger] p[i] == ".."@ by {
            assert(p[i] == before[i]);
            if j < before.len() {
                assert(p[j] == before[j]);
            } else {
                assert(before.last() == ".."@);
                if i < before.len() - 1 {
                    assert(before[before.len() - 1] == ".."@);
                }
            }
        }
        if absolute {
            assert forall|i: int| 0 <= i < p.len() implies #[trigger] p[i] != ".."@ by {
                if i < before.len() {
                    assert(p[i] == before[i]);
                }
            }
        }
    }
}

/// A segment made safe again is the same segment.
pub proof fn law_segments_are_stable(s: Seq<char>)
    ensures
        segment_of(segment_of(s)) == segment_of(s),
{
    law_segments_are_safe(s);
    assert(segment_of(segment_of(s)) =~= segment_of(s));
}

/// A segment keeps letters, digits, `_` and `-` in their places, has `_` in every other
/// place, and leaves nothing out before the 80th character.
pub proof fn law_segments_keep_what_is_safe(s: Seq<char>, i: int)
    ensures
        s.len() == 0 ==> segment_of(s) == seq!['_'],
        0 < s.len() <= 80 ==> segment_of(s).len() == s.len(),
        s.len() > 80 ==> segment_of(s).len() == 80,
        0 <= i < s.len() && i < 80 ==> segment_of(s)[i] == (if 'a' <= s[i] <= 'z' || 'A' <= s[i]
            <= 'Z' || '0' <= s[i] <= '9' || s[i] == '-' || s[i] == '_' {
            s[i]
        } else {
            '_'
        }),
{
}

/// What a step into a directory leads to is the directory's parts and the name, and a step
/// up from there leads back.
pub proof fn law_steps_lead_in_and_back(path: Seq<char>, name: Seq<char>)
    requires
        path.len() > 0,
        paths::plain_name(name),
    ensures
        resolved(path + "/"@ + name) == resolved(path).push(name),
        resolved(path + "/"@ + name + "/"@ + ".."@) == resolved(path),
        resolved(path + "/"@) == resolved(path),
        resolved(path + "/"@ + "."@) == resolved(path),
{
    reveal_strlit("/");
    reveal_strlit(".");
    reveal_strlit("..");
    let absolute = text::begins(path, "/"@);
    let parts = pieces::split_of(path, "/"@);
    let inside = path + "/"@ + name;
    let none = Seq::<char>::empty();
    paths::lemma_split_behind(path, name);
    paths::lemma_split_behind(inside, ".."@);
    paths::lemma_split_behind(path, none);
    paths::lemma_split_behind(path, "."@);
    assert(path + "/"@ =~= path + "/"@ + none);
    lemma_begins_the_same(path, inside);
    lemma_begins_the_same(path, inside + "/"@ + ".."@);
    lemma_begins_the_same(path, path + "/"@);
    lemma_begins_the_same(path, path + "/"@ + "."@);
    assert(parts.push(name).drop_last() =~= parts);
    assert(parts.push(none).drop_last() =~= parts);
    assert(parts.push("."@).drop_last() =~= parts);
    let deeper = parts.push(name).push(".."@);
    assert(deeper.drop_last() =~= parts.push(name));
    assert(".."@.len() == 2 && "."@.len() == 1);
    let before = resolved_parts(parts, absolute);
    assert(resolved_parts(parts.push(name), absolute) == before.push(name));
    assert(before.push(name).drop_last() =~= before);
}

proof fn lemma_begins_the_same(path: Seq<char>, longer: Seq<char>)
    requires
        0 < path.len() <= longer.len(),
        longer[0] == path[0],
    ensures
        text::begins(longer, "/"@) == text::begins(path, "/"@),
{
    reveal_strlit("/");
    assert(longer.take(1) =~= path.take(1));
}

/// A payload that lies in the root is read from there, and one that lies above the root is
/// not read. Where something stands at the path, its own place decides.
pub proof fn law_only_what_lies_in_the_root_is_read(
    root: Seq<char>,
    name: Seq<char>,
    place: Seq<char>,
)
    requires
        root.len() > 0,
        root.last() != '/',
        paths::plain_name(name),
    ensures
        read_path(root, name, None) == root + "/"@ + name,
        lies_below(root + "/"@ + name, root),
        lies_below(root, root),
        resolved(root).len() > 0 && resolved(root).last() != ".."@ ==> !lies_below(
            root + "/"@ + ".."@,
            root,
        ),
        read_path(root, name, Some(place)) == place,
{
    reveal_strlit("/");
    reveal_strlit(".");
    reveal_strlit("..");
    law_steps_lead_in_and_back(root, name);
    let r = resolved(root);
    let inside = root + "/"@ + name;
    assert(r.push(name).take(r.len() as int) =~= r);
    assert(r.take(r.len() as int) =~= r);
    lemma_begins_the_same(root, inside);
    assert(!text::begins(name, "/"@)) by {
        assert(name.take(1)[0] == name[0]);
        assert("/"@[0] == '/');
        assert(name[0] != '/');
    }
    assert(paths::path_joined(root, name) =~= inside);
    let above = root + "/"@ + ".."@;
    let parts = pieces::split_of(root, "/"@);
    paths::lemma_split_behind(root, ".."@);
    lemma_begins_the_same(root, above);
    assert(parts.push(".."@).drop_last() =~= parts);
    assert(".."@.len() == 2 && "."@.len() == 1);
}

/// A path that would lead out of the root is refused with the path as it was given.
pub proof fn law_refused_paths_are_told(rel: Seq<char>)
    ensures
        escapes(rel) == "triage cache path escapes root: "@ + rel,
{
}

} // verus!
