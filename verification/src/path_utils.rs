//! Finding a program on the search path.
use vstd::prelude::*;
use crate::downloads::types;
use crate::downloads::types::Disk;
use crate::paths;
use crate::pieces;
use crate::text;

verus! {

/// The path is a bare name, to be looked for on the search path.
pub open spec fn is_bare(path: Seq<char>) -> bool {
    !text::begins(path, "/"@) && paths::named_parts(pieces::split_of(path, "/"@)).len() <= 1
}

/// Whether the path is a bare name, to be looked for on the search path.
pub fn is_path_command(path: &str) -> (r: bool)
    ensures
        r == is_bare(path@),
{
    if text::starts_with(path, "/") {
        return false;
    }
    let parts = paths::parts_of(path);
    assert(text::texts(parts@).len() == parts@.len());
    parts.len() <= 1
}

/// The paths at which a bare name is looked for, in the order of the directories.
pub open spec fn candidates_of(path: Seq<char>, dirs: Seq<Seq<char>>) -> Seq<Seq<char>> {
    Seq::new(dirs.len(), |i: int| paths::path_joined(dirs[i], path))
}

/// The paths at which a bare name is looked for, for the host to look at.
pub fn command_candidates(dirs: &Vec<String>, path: &str) -> (r: Vec<String>)
    ensures
        text::texts(r@) == candidates_of(path@, text::texts(dirs@)),
{
    let ghost all = text::texts(dirs@);
    let mut out: Vec<String> = Vec::new();
    let mut i: usize = 0;
    while i < dirs.len()
        invariant
            i <= dirs@.len(),
            all == text::texts(dirs@),
            text::texts(out@) == candidates_of(path@, all).take(i as int),
        decreases dirs@.len() - i,
    {
        let ghost before = text::texts(out@);
        let p = paths::path_join(dirs[i].as_str(), path);
        out.push(p);
        assert(all[i as int] == dirs@[i as int]@);
        assert(text::texts(out@) =~= before.push(p@));
        i += 1;
        assert(text::texts(out@) =~= candidates_of(path@, all).take(i as int));
    }
    assert(text::texts(out@) =~= candidates_of(path@, all));
    out
}

/// How the machine names its programs.
pub enum Platform {
    /// A program's file has the program's name.
    Unix,
    /// A program's file may have one of the extensions in `pathext` behind its name.
    Windows { pathext: Option<String> },
}

/// The extensions of programs on Windows, where the environment names none.
pub const DEFAULT_PATHEXT: &'static str = ".COM;.EXE;.BAT;.CMD";

/// The name with each of the extensions that are not blank behind it.
pub open spec fn with_extensions(binary: Seq<char>, extensions: Seq<Seq<char>>) -> Seq<Seq<char>>
    decreases extensions.len(),
{
    if extensions.len() == 0 {
        seq![]
    } else {
        let before = with_extensions(binary, extensions.drop_last());
        if pieces::trimmed(extensions.last()).len() == 0 {
            before
        } else {
            before.push(binary + extensions.last())
        }
    }
}

/// The names that a program's file may have: the program's own, and on Windows, where that
/// has no extension, the name with each of the machine's.
pub open spec fn program_names(binary: Seq<char>, platform: Platform) -> Seq<Seq<char>> {
    match platform {
        Platform::Unix => seq![binary],
        Platform::Windows { pathext } => if paths::extension_of(binary) is Some {
            seq![binary]
        } else {
            let extensions = match pathext {
                Some(e) => e@,
                None => DEFAULT_PATHEXT@,
            };
            seq![binary] + with_extensions(binary, pieces::split_of(extensions, ";"@))
        },
    }
}

/// The names that a program's file may have.
fn list_program_names(binary: &str, platform: &Platform) -> (r: Vec<String>)
    ensures
        text::texts(r@) == program_names(binary@, *platform),
{
    let mut out: Vec<String> = Vec::new();
    out.push(binary.to_string());
    assert(text::texts(out@) =~= seq![binary@]);
    let pathext = match platform {
        Platform::Unix => {
            return out;
        },
        Platform::Windows { pathext } => pathext,
    };
    if paths::extension(binary).is_some() {
        return out;
    }
    let list = match pathext {
        Some(e) => e.as_str(),
        None => DEFAULT_PATHEXT,
    };
    proof {
        reveal_strlit(";");
    }
    let extensions = pieces::split(list, ";");
    let ghost all = text::texts(extensions@);
    let mut i: usize = 0;
    assert(text::texts(out@) =~= seq![binary@] + with_extensions(binary@, all.take(0)));
    while i < extensions.len()
        invariant
            i <= extensions@.len(),
            all == text::texts(extensions@),
            text::texts(out@) == seq![binary@] + with_extensions(binary@, all.take(i as int)),
        decreases extensions@.len() - i,
    {
        let ghost before = text::texts(out@);
        assert(all.take(i + 1).drop_last() =~= all.take(i as int));
        assert(all.take(i + 1).last() == extensions@[i as int]@);
        if !pieces::trim(extensions[i].as_str()).as_str().is_empty() {
            let mut name = binary.to_string();
            name.append(extensions[i].as_str());
            out.push(name);
            assert(text::texts(out@) =~= before.push(name@));
        }
        i += 1;
        assert(text::texts(out@) =~= seq![binary@] + with_extensions(
            binary@,
            all.take(i as int),
        ));
    }
    assert(all.take(i as int) =~= all);
    out
}

/// The paths at which files of the names are looked for: directory by directory, and in
/// each name by name.
pub open spec fn places_of(names: Seq<Seq<char>>, dirs: Seq<Seq<char>>) -> Seq<Seq<char>>
    decreases dirs.len(),
{
    if dirs.len() == 0 {
        seq![]
    } else {
        places_of(names, dirs.drop_last()) + Seq::new(
            names.len(),
            |j: int| paths::path_joined(dirs.last(), names[j]),
        )
    }
}

/// The paths at which a program is looked for, for the host to look at.
pub fn binary_candidates(dirs: &Vec<String>, binary: &str, platform: &Platform) -> (r: Vec<String>)
    ensures
        text::texts(r@) == places_of(program_names(binary@, *platform), text::texts(dirs@)),
{
    let names = list_program_names(binary, platform);
    let ghost all = text::texts(dirs@);
    let ghost called = text::texts(names@);
    let mut out: Vec<String> = Vec::new();
    let mut i: usize = 0;
    assert(text::texts(out@) =~= places_of(called, all.take(0)));
    while i < dirs.len()
        invariant
            i <= dirs@.len(),
            all == text::texts(dirs@),
            called == text::texts(names@),
            text::texts(out@) == places_of(called, all.take(i as int)),
        decreases dirs@.len() - i,
    {
        let ghost before = text::texts(out@);
        let ghost here = Seq::new(
            called.len(),
            |j: int| paths::path_joined(dirs@[i as int]@, called[j]),
        );
        let mut j: usize = 0;
        assert(text::texts(out@) =~= before + here.take(0));
        while j < names.len()
            invariant
                i < dirs@.len(),
                j <= names@.len(),
                called == text::texts(names@),
                here == Seq::new(
                    called.len(),
                    |j: int| paths::path_joined(dirs@[i as int]@, called[j]),
                ),
                text::texts(out@) == before + here.take(j as int),
            decreases names@.len() - j,
        {
            let ghost so_far = text::texts(out@);
            let p = paths::path_join(dirs[i].as_str(), names[j].as_str());
            out.push(p);
            assert(called[j as int] == names@[j as int]@);
            assert(text::texts(out@) =~= so_far.push(p@));
            j += 1;
            assert(text::texts(out@) =~= before + here.take(j as int));
        }
        assert(here.take(j as int) =~= here);
        assert(all.take(i + 1).drop_last() =~= all.take(i as int));
        assert(all.take(i + 1).last() == dirs@[i as int]@);
        i += 1;
    }
    assert(all.take(i as int) =~= all);
    out
}

/// The first of the paths at which a file stands.
pub open spec fn first_file(
    candidates: Seq<Seq<char>>,
    disk: Map<Seq<char>, types::DiskEntry>,
) -> Option<Seq<char>>
    decreases candidates.len(),
{
    if candidates.len() == 0 {
        None
    } else if types::file_on(disk, candidates[0]) {
        Some(candidates[0])
    } else {
        first_file(candidates.drop_first(), disk)
    }
}

/// The first of the paths at which a file stands. `disk` tells what the host found there.
pub fn first_found(candidates: &Vec<String>, disk: &Disk) -> (r: Option<String>)
    requires
        disk.wf(),
    ensures
        text::opt_text(r) == first_file(text::texts(candidates@), disk@),
{
    let ghost all = text::texts(candidates@);
    let mut i: usize = 0;
    assert(all.skip(0) =~= all);
    while i < candidates.len()
        invariant
            i <= candidates@.len(),
            disk.wf(),
            all == text::texts(candidates@),
            first_file(all, disk@) == first_file(all.skip(i as int), disk@),
        decreases candidates@.len() - i,
    {
        assert(all.skip(i as int)[0] == candidates@[i as int]@);
        assert(all.skip(i as int).drop_first() =~= all.skip(i + 1));
        if disk.is_file_at(candidates[i].as_str()) {
            return Some(candidates[i].clone());
        }
        i += 1;
    }
    None
}

/// Where a program is found on the search path. `programs` tells at which paths the host
/// found files that can be run.
pub fn find_binary_on_path(
    binary: &str,
    dirs: &Vec<String>,
    platform: &Platform,
    programs: &Disk,
) -> (r: Option<String>)
    requires
        programs.wf(),
    ensures
        text::opt_text(r) == first_file(
            places_of(program_names(binary@, *platform), text::texts(dirs@)),
            programs@,
        ),
{
    first_found(&binary_candidates(dirs, binary, platform), programs)
}

/// What optional directories are.
pub open spec fn opt_dirs(dirs: Option<Vec<String>>) -> Option<Seq<Seq<char>>> {
    match dirs {
        Some(d) => Some(text::texts(d@)),
        None => None,
    }
}

/// The path of a program: a bare name is looked for in the directories of the search path,
/// and anything else, or a name that is not found, stands for itself.
pub open spec fn resolved(
    path: Seq<char>,
    dirs: Option<Seq<Seq<char>>>,
    disk: Map<Seq<char>, types::DiskEntry>,
) -> Seq<char> {
    match dirs {
        Some(dirs) => if is_bare(path) {
            match first_file(candidates_of(path, dirs), disk) {
                Some(p) => p,
                None => path,
            }
        } else {
            path
        },
        None => path,
    }
}

/// The path of a program.
pub fn resolve_path_command(path: &str, dirs: &Option<Vec<String>>, disk: &Disk) -> (r: String)
    requires
        disk.wf(),
    ensures
        r@ == resolved(path@, opt_dirs(*dirs), disk@),
{
    if !is_path_command(path) {
        return path.to_string();
    }
    match dirs {
        Some(dirs) => match first_found(&command_candidates(dirs, path), disk) {
            Some(p) => p,
            None => path.to_string(),
        },
        None => path.to_string(),
    }
}

// ---------------------------------------------------------------------------
// Laws
// ---------------------------------------------------------------------------

/// A bare name stands for the first file of that name in the directories of the search path;
/// where there is none, or the path is no bare name, it stands for itself.
pub proof fn law_bare_names_are_found_on_the_path(
    path: Seq<char>,
    dirs: Seq<Seq<char>>,
    disk: Map<Seq<char>, types::DiskEntry>,
    i: int,
)
    requires
        0 <= i < dirs.len(),
        is_bare(path),
        forall|j: int| 0 <= j < i ==> !file_in(#[trigger] dirs[j], path, disk),
    ensures
        file_in(dirs[i], path, disk) ==> resolved(path, Some(dirs), disk) == paths::path_joined(
            dirs[i],
            path,
        ),
        i == dirs.len() - 1 && !file_in(dirs[i], path, disk) ==> resolved(path, Some(dirs), disk)
            == path,
        resolved(path, None, disk) == path,
{
    lemma_first_file(candidates_of(path, dirs), disk);
    let all = candidates_of(path, dirs);
    assert forall|j: int| 0 <= j < i implies !types::file_on(disk, #[trigger] all[j]) by {
        assert(!file_in(dirs[j], path, disk));
    }
    if file_in(dirs[i], path, disk) {
        assert(types::file_on(disk, all[i]));
        match first_file(all, disk) {
            Some(p) => {
                let k = choose|k: int|
                    0 <= k < all.len() && #[trigger] all[k] == p && types::file_on(disk, p)
                        && forall|j: int| 0 <= j < k ==> !types::file_on(disk, #[trigger] all[j]);
                assert(k == i);
            },
            None => {},
        }
    } else if i == dirs.len() - 1 {
        match first_file(all, disk) {
            Some(p) => {
                let k = choose|k: int|
                    0 <= k < all.len() && #[trigger] all[k] == p && types::file_on(disk, p)
                        && forall|j: int| 0 <= j < k ==> !types::file_on(disk, #[trigger] all[j]);
                assert(!file_in(dirs[k], path, disk));
            },
            None => {},
        }
    }
}

/// A regular file of the name stands in the directory.
pub open spec fn file_in(
    dir: Seq<char>,
    name: Seq<char>,
    disk: Map<Seq<char>, types::DiskEntry>,
) -> bool {
    let p = paths::path_joined(dir, name);
    disk.contains_key(p) && disk[p].is_file
}

proof fn lemma_first_file(candidates: Seq<Seq<char>>, disk: Map<Seq<char>, types::DiskEntry>)
    ensures
        match first_file(candidates, disk) {
            Some(p) => exists|k: int|
                0 <= k < candidates.len() && #[trigger] candidates[k] == p && types::file_on(
                    disk,
                    p,
                ) && forall|j: int|
                    0 <= j < k ==> !types::file_on(disk, #[trigger] candidates[j]),
            None => forall|k: int|
                0 <= k < candidates.len() ==> !types::file_on(disk, #[trigger] candidates[k]),
        },
    decreases candidates.len(),
{
    if candidates.len() > 0 && !types::file_on(disk, candidates[0]) {
        let rest = candidates.drop_first();
        lemma_first_file(rest, disk);
        match first_file(candidates, disk) {
            Some(p) => {
                let k = choose|k: int|
                    0 <= k < rest.len() && #[trigger] rest[k] == p && types::file_on(disk, p)
                        && forall|j: int| 0 <= j < k ==> !types::file_on(disk, #[trigger] rest[j]);
                assert(candidates[k + 1] == p);
                assert forall|j: int| 0 <= j < k + 1 implies !types::file_on(
                    disk,
                    #[trigger] candidates[j],
                ) by {
                    if j > 0 {
                        assert(rest[j - 1] == candidates[j]);
                    }
                }
            },
            None => {
                assert forall|k: int| 0 <= k < candidates.len() implies !types::file_on(
                    disk,
                    #[trigger] candidates[k],
                ) by {
                    if k > 0 {
                        assert(rest[k - 1] == candidates[k]);
                    }
                }
            },
        }
    } else if candidates.len() > 0 {
        assert(candidates[0] == first_file(candidates, disk)->0);
    }
}

/// A name without a slash is bare; a path that begins with one, or has a slash between two
/// names, is not, and stands for itself.
pub proof fn law_paths_stand_for_themselves(
    path: Seq<char>,
    dirs: Option<Seq<Seq<char>>>,
    disk: Map<Seq<char>, types::DiskEntry>,
)
    ensures
        !path.contains('/') ==> is_bare(path),
        text::begins(path, "/"@) ==> !is_bare(path),
        !is_bare(path) ==> resolved(path, dirs, disk) == path,
{
    reveal_strlit("/");
    let slash = "/"@;
    if !path.contains('/') {
        assert(!text::begins(path, slash)) by {
            if text::begins(path, slash) {
                assert(path.take(1)[0] == path[0]);
                assert(path.contains(path[0]));
            }
        }
        text::lemma_first_at(path, slash, 0);
        match text::first_at(path, slash, 0) {
            Some(i) => {
                assert(path.subrange(i, i + 1)[0] == path[i]);
                assert(path.contains(path[i]));
            },
            None => {},
        }
        let parts = pieces::split_of(path, slash);
        assert(parts =~= seq![path]);
        reveal_with_fuel(paths::named_parts, 2);
        assert(parts.drop_last().len() == 0);
        assert(paths::named_parts(parts.drop_last()).len() == 0);
        assert(paths::named_parts(parts).len() <= 1);
    }
}

/// A program is looked for under its own name first, in every directory in turn; on Windows a
/// name without an extension is then tried with each that the machine knows.
pub proof fn law_programs_are_looked_for_by_every_name(
    names: Seq<Seq<char>>,
    dirs: Seq<Seq<char>>,
    dir: Seq<char>,
    binary: Seq<char>,
    extensions: Seq<Seq<char>>,
    extension: Seq<char>,
)
    ensures
        ({
            let before = places_of(names, dirs);
            let after = places_of(names, dirs.push(dir));
            &&& after.len() == before.len() + names.len()
            &&& before.is_prefix_of(after)
            &&& forall|j: int|
                0 <= j < names.len() ==> #[trigger] after[before.len() + j] == paths::path_joined(
                    dir,
                    names[j],
                )
        }),
        with_extensions(binary, extensions.push(extension)) == (if pieces::says_something(
            extension,
        ) {
            with_extensions(binary, extensions).push(binary + extension)
        } else {
            with_extensions(binary, extensions)
        }),
        program_names(binary, Platform::Unix) == seq![binary],
        forall|pathext: Option<String>| #[trigger]
            program_names(binary, Platform::Windows { pathext }).len() > 0 && program_names(
                binary,
                Platform::Windows { pathext },
            )[0] == binary,
{
    assert(dirs.push(dir).drop_last() =~= dirs);
    assert(extensions.push(extension).drop_last() =~= extensions);
    pieces::law_trimming_takes_only_white_space(extension);
}

} // verus!
