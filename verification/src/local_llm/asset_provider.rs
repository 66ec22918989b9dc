//! The catalog's models as assets to be downloaded.
use vstd::prelude::*;
use crate::downloads::registry::AssetProvider;
use crate::downloads::types;
use crate::downloads::types::{ArchiveKind, Asset, AssetSource, OptionalFile};
use crate::local_llm::catalog;
use crate::local_llm::catalog::CatalogEntry;
use crate::pieces;
use crate::text;
use crate::unicode;

verus! {

/// The character that stands for another in a file name.
pub open spec fn suffix_char(c: char) -> char {
    if c == '-' || c == '_' || c == '.' || (c != '/' && c != '\\' && c != ':' && c != ' '
        && unicode::alphanumeric(c)) {
        c
    } else {
        '_'
    }
}

/// The part of a file name that tells repositories apart.
pub open spec fn suffix_of(repo: Seq<char>) -> Seq<char> {
    Seq::new(repo.len(), |i: int| suffix_char(repo[i]))
}

/// A file name with a part put in before its extension. A name without one gets `gguf`.
pub open spec fn with_suffix(remote_name: Seq<char>, suffix: Seq<char>) -> Seq<char> {
    match pieces::rsplit_char_of(remote_name, '.') {
        Some((stem, ext)) => stem + "."@ + suffix + "."@ + ext,
        None => remote_name + "."@ + suffix + "."@ + "gguf"@,
    }
}

/// The character that stands for an ASCII character in a file name.
pub open spec fn plain_suffix_char(c: char) -> char {
    if '0' <= c <= '9' || 'a' <= c <= 'z' || 'A' <= c <= 'Z' || c == '-' || c == '_' || c == '.' {
        c
    } else {
        '_'
    }
}

/// The part of a file name that tells repositories with ASCII names apart.
pub open spec fn plain_suffix_of(repo: Seq<char>) -> Seq<char> {
    Seq::new(repo.len(), |i: int| plain_suffix_char(repo[i]))
}

/// The name of a projector on disk: that of the repository is put into it, so that
/// projectors of different repositories do not overwrite each other.
pub fn mmproj_local_name(remote_name: &str, repo: &str) -> (r: String)
    ensures
        r@ == with_suffix(remote_name@, suffix_of(repo@)),
        unicode::is_ascii(repo@) ==> suffix_of(repo@) == plain_suffix_of(repo@),
{
    let v = text::chars_of(repo);
    let mut suffix = String::new();
    let mut i: usize = 0;
    assert(suffix@ =~= suffix_of(repo@).take(0));
    while i < v.len()
        invariant
            i <= v@.len(),
            v@ == repo@,
            suffix@ == suffix_of(repo@).take(i as int),
            unicode::is_ascii(repo@) ==> forall|k: int|
                0 <= k < i ==> #[trigger] suffix_of(repo@)[k] == plain_suffix_char(repo@[k]),
        decreases v@.len() - i,
    {
        let c = v[i];
        let kept = unicode::is_alphanumeric(c);
        if c == '/' || c == '\\' || c == ':' || c == ' ' {
            suffix.push('_');
        } else if kept || c == '-' || c == '_' || c == '.' {
            suffix.push(c);
        } else {
            suffix.push('_');
        }
        assert(suffix_of(repo@)[i as int] == suffix_char(c));
        i += 1;
        assert(suffix@ =~= suffix_of(repo@).take(i as int));
    }
    assert(suffix@ =~= suffix_of(repo@));
    assert(unicode::is_ascii(repo@) ==> suffix_of(repo@) =~= plain_suffix_of(repo@));
    match pieces::rsplit_char(remote_name, '.') {
        Some((stem, ext)) => {
            let mut out = stem;
            out.append(".");
            out.append(suffix.as_str());
            out.append(".");
            out.append(ext.as_str());
            out
        },
        None => {
            let mut out = remote_name.to_string();
            out.append(".");
            out.append(suffix.as_str());
            out.append(".");
            out.append("gguf");
            out
        },
    }
}

/// A model of the catalog as an asset. Its projector may be missing.
pub open spec fn asset_of(e: catalog::EntryView, target_dir: Seq<char>) -> types::AssetView {
    types::AssetView {
        id: e.id,
        target_dir,
        files: e.files,
        optional_files: match e.mmproj_file {
            Some(remote) => seq![(remote, with_suffix(remote, suffix_of(e.repo)))],
            None => seq![],
        },
        repo: e.repo,
        archive: ArchiveKind::Plain,
        is_directory: false,
        estimated_bytes: (e.bytes + e.mmproj_bytes) as u64,
    }
}

/// A model of the catalog as an asset.
pub fn catalog_entry_to_asset(entry: CatalogEntry, target_dir: &str) -> (r: Asset)
    requires
        entry.bytes + entry.mmproj_bytes <= u64::MAX,
    ensures
        r@ == asset_of(entry@, target_dir@),
{
    let ghost before = entry@;
    let estimated_bytes = entry.total_bytes();
    let mut optional_files: Vec<OptionalFile> = Vec::new();
    match entry.mmproj_file {
        Some(remote) => {
            let local_name = mmproj_local_name(remote.as_str(), entry.repo.as_str());
            optional_files.push(OptionalFile { remote_name: remote, local_name });
        },
        None => {},
    }
    assert(types::optional_views(optional_files@) =~= asset_of(before, target_dir@).optional_files);
    Asset {
        id: entry.id,
        target_dir: target_dir.to_string(),
        files: entry.files,
        optional_files,
        source: AssetSource::HuggingFace { repo: entry.repo },
        archive: ArchiveKind::Plain,
        is_directory: false,
        estimated_bytes,
    }
}

/// The catalog's models as assets in the models' directory. Without a directory there are
/// none.
pub struct CatalogAssetProvider {
    pub models_dir: Option<String>,
}

impl AssetProvider for CatalogAssetProvider {
    open spec fn listed(&self) -> Seq<types::AssetView> {
        match self.models_dir {
            Some(d) => Seq::new(catalog::listed().len(), |i: int| asset_of(catalog::listed()[i], d@)),
            None => seq![],
        }
    }

    fn assets(&self) -> (r: Vec<Asset>) {
        let mut out: Vec<Asset> = Vec::new();
        let dir = match &self.models_dir {
            Some(d) => d,
            None => {
                assert(types::asset_views(out@) =~= self.listed());
                return out;
            },
        };
        let entries = catalog::catalog();
        let ghost all = catalog::listed();
        for e in it: entries
            invariant
                catalog::entry_views(it.seq()) == all,
                all == catalog::listed(),
                out@.len() == it.index(),
                forall|k: int| 0 <= k < out@.len() ==> (#[trigger] out@[k])@ == asset_of(all[k], dir@),
        {
            let ghost i = it.index() as int;
            assert(all[i] == e@);
            proof {
                catalog::law_entries_are_sound(i);
            }
            out.push(catalog_entry_to_asset(e, dir.as_str()));
        }
        assert(types::asset_views(out@) =~= self.listed());
        out
    }
}

// ---------------------------------------------------------------------------
// Laws
// ---------------------------------------------------------------------------

/// A repository whose name can be told from its suffix: ASCII letters, digits, `-` and
/// `.`, with separators between.
pub open spec fn tells_itself(repo: Seq<char>) -> bool {
    forall|i: int|
        0 <= i < repo.len() ==> {
            let c = #[trigger] repo[i];
            '0' <= c <= '9' || 'a' <= c <= 'z' || 'A' <= c <= 'Z' || c == '-' || c == '.' || c
                == '/'
        }
}

/// Projectors that have the same name in their repositories have the same name on disk
/// where the repositories have the same suffix, and there alone. Different repositories
/// that can be told from their suffixes have different ones.
pub proof fn law_projectors_do_not_collide(
    remote_name: Seq<char>,
    a: Seq<char>,
    b: Seq<char>,
)
    ensures
        with_suffix(remote_name, suffix_of(a)) == with_suffix(remote_name, suffix_of(b))
            <==> suffix_of(a) == suffix_of(b),
        tells_itself(a) && tells_itself(b) && a != b ==> {
            &&& unicode::is_ascii(a) && unicode::is_ascii(b)
            &&& plain_suffix_of(a) != plain_suffix_of(b)
        },
{
    let x = suffix_of(a);
    let y = suffix_of(b);
    if with_suffix(remote_name, x) == with_suffix(remote_name, y) {
        let (stem, ext) = match pieces::rsplit_char_of(remote_name, '.') {
            Some((stem, ext)) => (stem, ext),
            None => (remote_name, "gguf"@),
        };
        let head = stem + "."@;
        let tail = "."@ + ext;
        assert(with_suffix(remote_name, x) =~= head + x + tail);
        assert(with_suffix(remote_name, y) =~= head + y + tail);
        assert(x.len() == y.len());
        let h = head.len() as int;
        assert((head + x + tail).subrange(h, h + x.len()) =~= x);
        assert((head + y + tail).subrange(h, h + y.len()) =~= y);
    }
    if tells_itself(a) && tells_itself(b) && plain_suffix_of(a) == plain_suffix_of(b) {
        assert(plain_suffix_of(a).len() == plain_suffix_of(b).len());
        assert forall|i: int| 0 <= i < a.len() implies a[i] == b[i] by {
            assert(plain_suffix_of(a)[i] == plain_suffix_of(b)[i]);
        }
        assert(a =~= b);
    }
}

/// A model's asset has the model's files under its own id and repository, and expects the
/// bytes of the model and its projector. The projector is fetched by its remote name and kept
/// under a local one, into which the repository's name is put before the extension.
pub proof fn law_assets_have_their_models_files(
    e: catalog::EntryView,
    dir: Seq<char>,
    stem: Seq<char>,
    ext: Seq<char>,
)
    requires
        e.bytes + e.mmproj_bytes <= u64::MAX,
        !ext.contains('.'),
    ensures
        ({
            let a = asset_of(e, dir);
            &&& a.id == e.id && a.repo == e.repo && a.files == e.files && a.target_dir == dir
            &&& a.estimated_bytes == e.bytes + e.mmproj_bytes
            &&& a.archive is Plain && !a.is_directory
            &&& e.mmproj_file is None ==> a.optional_files.len() == 0
            &&& e.mmproj_file matches Some(remote) ==> {
                &&& a.optional_files.len() == 1
                &&& a.optional_files[0].0 == remote
                &&& remote == stem + seq!['.'] + ext ==> a.optional_files[0].1 == stem + "."@
                    + suffix_of(e.repo) + "."@ + ext
                &&& !remote.contains('.') ==> a.optional_files[0].1 == remote + "."@ + suffix_of(
                    e.repo,
                ) + "."@ + "gguf"@
            }
        }),
        suffix_of(e.repo).len() == e.repo.len(),
        forall|i: int|
            0 <= i < e.repo.len() ==> {
                let c = e.repo[i];
                &&& c == '/' || c == '\\' || c == ':' || c == ' ' ==> #[trigger] suffix_of(
                    e.repo,
                )[i] == '_'
                &&& c == '-' || c == '_' || c == '.' ==> suffix_of(e.repo)[i] == c
                &&& suffix_of(e.repo)[i] == c || suffix_of(e.repo)[i] == '_'
            },
{
    pieces::law_split_at_the_last(stem, '.', ext);
    match e.mmproj_file {
        Some(remote) => {
            if !remote.contains('.') {
                pieces::law_split_at_the_last(stem, '.', remote);
            }
        },
        None => {},
    }
}

} // verus!
