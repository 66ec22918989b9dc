//! POSIX paths as text: joining, file names and extensions.
use vstd::prelude::*;
use crate::pieces;
use crate::text;

verus! {

/// The path `rel` as seen from `base`: an absolute path stands for itself, any other is
/// put behind `base` with one separator between.
pub open spec fn path_joined(base: Seq<char>, rel: Seq<char>) -> Seq<char> {
    if text::begins(rel, "/"@) {
        rel
    } else if base.len() > 0 && base.last() != '/' {
        base.push('/') + rel
    } else {
        base + rel
    }
}

/// The path `rel` as seen from `base`.
pub fn path_join(base: &str, rel: &str) -> (r: String)
    ensures
        r@ == path_joined(base@, rel@),
{
    if text::starts_with(rel, "/") {
        return rel.to_string();
    }
    let mut out = base.to_string();
    if !base.is_empty() && !text::ends_with(base, "/") {
        out.push('/');
    }
    out.append(rel);
    proof {
        reveal_strlit("/");
        if base@.len() > 0 {
            assert(base@.skip(base@.len() - 1) =~= seq![base@.last()]);
            assert("/"@ =~= seq!['/']);
            assert(seq![base@.last()][0] == base@.last());
            assert("/"@[0] == '/');
        }
    }
    out
}

/// A part of a path that names something: not empty, and not the current directory.
pub open spec fn names_something(part: Seq<char>) -> bool {
    part.len() > 0 && part != "."@
}

/// The last of the parts that names something.
pub open spec fn last_part(parts: Seq<Seq<char>>) -> Option<Seq<char>>
    decreases parts.len(),
{
    if parts.len() == 0 {
        None
    } else if names_something(parts.last()) {
        Some(parts.last())
    } else {
        last_part(parts.drop_last())
    }
}

/// The last part of a path, unless the path ends by going up.
pub open spec fn file_name_of(p: Seq<char>) -> Option<Seq<char>> {
    match last_part(pieces::split_of(p, "/"@)) {
        Some(n) => if n == ".."@ {
            None
        } else {
            Some(n)
        },
        None => None,
    }
}

/// What follows the last dot of the file name, if something stands before that dot.
pub open spec fn extension_of(p: Seq<char>) -> Option<Seq<char>> {
    match file_name_of(p) {
        Some(n) => match pieces::rsplit_char_of(n, '.') {
            Some((stem, ext)) => if stem.len() > 0 {
                Some(ext)
            } else {
                None
            },
            None => None,
        },
        None => None,
    }
}

/// The last part of a path, unless the path ends by going up.
pub fn file_name(p: &str) -> (r: Option<String>)
    ensures
        text::opt_text(r) == file_name_of(p@),
{
    proof {
        reveal_strlit("/");
    }
    let parts = pieces::split(p, "/");
    let ghost all = text::texts(parts@);
    let mut i: usize = parts.len();
    assert(all.take(i as int) =~= all);
    while i > 0
        invariant
            i <= parts@.len(),
            all == text::texts(parts@),
            last_part(all) == last_part(all.take(i as int)),
            all == pieces::split_of(p@, "/"@),
        decreases i,
    {
        let part = &parts[i - 1];
        assert(all.take(i as int).last() == part@);
        assert(all.take(i as int).drop_last() =~= all.take(i - 1));
        if !part.as_str().is_empty() && !text::same(part.as_str(), ".") {
            if text::same(part.as_str(), "..") {
                return None;
            }
            return Some(part.clone());
        }
        i -= 1;
    }
    None
}

/// What follows the last dot of the file name, if something stands before that dot.
pub fn extension(p: &str) -> (r: Option<String>)
    ensures
        text::opt_text(r) == extension_of(p@),
{
    match file_name(p) {
        Some(n) => match pieces::rsplit_char(n.as_str(), '.') {
            Some((stem, ext)) => if stem.as_str().is_empty() {
                None
            } else {
                Some(ext)
            },
            None => None,
        },
        None => None,
    }
}

/// The parts of a path that count: those that name something, and a leading dot.
pub open spec fn named_parts(parts: Seq<Seq<char>>) -> Seq<Seq<char>>
    decreases parts.len(),
{
    if parts.len() == 0 {
        seq![]
    } else if names_something(parts.last()) || (parts.len() == 1 && parts[0] == "."@) {
        named_parts(parts.drop_last()).push(parts.last())
    } else {
        named_parts(parts.drop_last())
    }
}

/// The parts of a path that count.
pub fn parts_of(path: &str) -> (r: Vec<String>)
    ensures
        text::texts(r@) == named_parts(pieces::split_of(path@, "/"@)),
{
    proof {
        reveal_strlit("/");
    }
    let parts = pieces::split(path, "/");
    let ghost all = text::texts(parts@);
    let mut out: Vec<String> = Vec::new();
    let mut i: usize = 0;
    assert(text::texts(out@) =~= named_parts(all.take(0)));
    while i < parts.len()
        invariant
            i <= parts@.len(),
            all == text::texts(parts@),
            text::texts(out@) == named_parts(all.take(i as int)),
        decreases parts@.len() - i,
    {
        assert(all.take(i + 1).drop_last() =~= all.take(i as int));
        assert(all.take(i + 1).last() == parts@[i as int]@);
        proof {
            reveal_strlit(".");
            assert(i == 0 ==> all.take(i + 1)[0] == parts@[i as int]@);
        }
        if !parts[i].as_str().is_empty() && (i == 0 || !text::same(parts[i].as_str(), ".")) {
            let ghost before = text::texts(out@);
            out.push(parts[i].clone());
            assert(text::texts(out@) =~= before.push(parts@[i as int]@));
        }
        i += 1;
    }
    assert(all.take(i as int) =~= all);
    out
}

// ---------------------------------------------------------------------------
// Laws
// ---------------------------------------------------------------------------

/// The name of a file in a directory: not empty, no step, and without a separator.
pub open spec fn plain_name(name: Seq<char>) -> bool {
    name.len() > 0 && name != "."@ && name != ".."@ && !name.contains('/')
}

/// What follows the last separator is the last piece.
pub proof fn lemma_split_behind(p: Seq<char>, name: Seq<char>)
    requires
        !name.contains('/'),
    ensures
        pieces::split_of(p + "/"@ + name, "/"@) == pieces::split_of(p, "/"@).push(name),
        pieces::split_of(name, "/"@) == seq![name],
    decreases p.len(),
{
    broadcast use text::lemma_occurs_char;

    reveal_strlit("/");
    let sep = "/"@;
    assert(sep =~= seq!['/']);
    assert(!text::has(name, sep)) by {
        if text::has(name, sep) {
            let i = choose|i: int| text::occurs_at(name, sep, i);
            assert(name[i] == '/');
        }
    }
    pieces::lemma_split_single(name, sep);
    text::lemma_first_at(p, sep, 0);
    let whole = p + sep + name;
    match text::first_at(p, sep, 0) {
        None => {
            assert(!text::has(p, sep));
            pieces::lemma_split_single(p, sep);
            assert forall|i: int| 0 <= i < p.len() implies !text::occurs_at(whole, sep, i) by {
                assert(whole[i] == p[i]);
                assert(!text::occurs_at(p, sep, i));
            }
            pieces::lemma_split_cons(p, sep, name);
            assert(seq![p] + seq![name] =~= seq![p].push(name));
        },
        Some(i) => {
            let a = p.take(i);
            let rest = p.skip(i + 1);
            lemma_split_behind(rest, name);
            assert(whole =~= a + sep + (rest + sep + name));
            assert(p =~= a + sep + rest);
            assert forall|k: int| 0 <= k < a.len() implies !text::occurs_at(
                a + sep + (rest + sep + name),
                sep,
                k,
            ) by {
                assert((a + sep + (rest + sep + name))[k] == p[k]);
                assert(!text::occurs_at(p, sep, k));
            }
            assert forall|k: int| 0 <= k < a.len() implies !text::occurs_at(
                a + sep + rest,
                sep,
                k,
            ) by {
                assert((a + sep + rest)[k] == p[k]);
                assert(!text::occurs_at(p, sep, k));
            }
            pieces::lemma_split_cons(a, sep, rest + sep + name);
            pieces::lemma_split_cons(a, sep, rest);
            assert(seq![a] + pieces::split_of(rest, sep).push(name) =~= (seq![a] + pieces::split_of(
                rest,
                sep,
            )).push(name));
        },
    }
}

/// A file that is put into a directory begins with the directory, ends with its name, and
/// goes by that name; its extension is what follows the last dot of the name.
pub proof fn law_joined_files_go_by_their_names(base: Seq<char>, name: Seq<char>)
    requires
        plain_name(name),
    ensures
        text::begins(path_joined(base, name), base),
        text::ends(path_joined(base, name), name),
        path_joined(base, name).len() <= base.len() + 1 + name.len(),
        base.len() > 0 ==> path_joined(base, name)[path_joined(base, name).len() - name.len() - 1]
            == '/',
        file_name_of(path_joined(base, name)) == Some(name),
        forall|stem: Seq<char>, ext: Seq<char>|
            name == #[trigger] (stem + "."@ + ext) && stem.len() > 0 && !ext.contains('.')
                ==> extension_of(path_joined(base, name)) == Some(ext),
        !name.contains('.') ==> extension_of(path_joined(base, name)) is None,
{
    reveal_strlit("/");
    reveal_strlit(".");
    reveal_strlit("..");
    let whole = path_joined(base, name);
    assert(!text::begins(name, "/"@)) by {
        if text::begins(name, "/"@) {
            assert(name.take(1)[0] == name[0]);
            assert("/"@[0] == '/');
        }
    }
    assert(whole.take(base.len() as int) =~= base);
    assert(whole.skip(whole.len() - name.len()) =~= name);
    let parts = pieces::split_of(whole, "/"@);
    if base.len() == 0 {
        lemma_split_behind(base, name);
        assert(whole =~= name);
    } else if base.last() != '/' {
        lemma_split_behind(base, name);
        assert(whole =~= base + "/"@ + name);
    } else {
        lemma_split_behind(base.drop_last(), name);
        assert(whole =~= base.drop_last() + "/"@ + name);
    }
    assert(parts.last() == name);
    assert forall|stem: Seq<char>, ext: Seq<char>|
        name == #[trigger] (stem + "."@ + ext) && stem.len() > 0 && !ext.contains('.') implies extension_of(
        whole,
    ) == Some(ext) by {
        assert("."@ =~= seq!['.']);
        pieces::law_split_at_the_last(stem, '.', ext);
    }
    if !name.contains('.') {
        pieces::law_split_at_the_last(Seq::empty(), '.', name);
    }
}

/// An absolute path stands for itself, wherever it is seen from.
pub proof fn law_absolute_paths_stand_for_themselves(base: Seq<char>, rest: Seq<char>)
    ensures
        path_joined(base, "/"@ + rest) == "/"@ + rest,
{
    assert(("/"@ + rest).take("/"@.len() as int) =~= "/"@);
}

/// A separator or a dot at the end of a path changes nothing of its file name, and a path
/// that ends by going up has none.
pub proof fn law_last_part_names_the_file(p: Seq<char>)
    ensures
        file_name_of(p + "/"@) == file_name_of(p),
        file_name_of(p + "/."@) == file_name_of(p),
        file_name_of(p + "/.."@) is None,
{
    reveal_strlit("/");
    reveal_strlit(".");
    reveal_strlit("..");
    reveal_strlit("/.");
    reveal_strlit("/..");
    let parts = pieces::split_of(p, "/"@);
    lemma_split_behind(p, Seq::empty());
    lemma_split_behind(p, "."@);
    lemma_split_behind(p, ".."@);
    assert(p + "/"@ =~= p + "/"@ + Seq::<char>::empty());
    assert(p + "/."@ =~= p + "/"@ + "."@);
    assert(p + "/.."@ =~= p + "/"@ + ".."@);
    assert(parts.push(Seq::empty()).drop_last() =~= parts);
    assert(parts.push("."@).drop_last() =~= parts);
    assert(".."@.len() == 2 && "."@.len() == 1);
}

/// The parts that count stand in the order of the path: what is empty is left out, and so is
/// a dot anywhere but in front.
pub proof fn law_parts_that_count(parts: Seq<Seq<char>>, part: Seq<char>)
    ensures
        part.len() > 0 && part != "."@ ==> named_parts(parts.push(part)) == named_parts(parts).push(
            part,
        ),
        part.len() == 0 ==> named_parts(parts.push(part)) == named_parts(parts),
        part == "."@ && parts.len() > 0 ==> named_parts(parts.push(part)) == named_parts(parts),
        named_parts(seq!["."@]) == seq!["."@],
        named_parts(seq![]) == Seq::<Seq<char>>::empty(),
{
    reveal_strlit(".");
    let all = parts.push(part);
    assert(all.drop_last() =~= parts);
    assert(all.last() == part);
    assert(parts.len() == 0 ==> all[0] == part);
    let dot = seq!["."@];
    assert(dot.drop_last() =~= Seq::<Seq<char>>::empty());
    assert(dot.last() == "."@);
    assert(named_parts(Seq::<Seq<char>>::empty()) =~= Seq::<Seq<char>>::empty());
    assert(dot[0] == "."@);
    assert(named_parts(dot) =~= dot);
}

} // verus!
