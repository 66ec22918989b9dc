//! Files that came with candidates: where they are staged, how they reach a workspace's
//! store, and how the store's URLs are resolved.
//!
//! A fetched file is staged below its candidate. When a workspace is made of the
//! candidate, the file moves into the workspace's store, from which it is served under
//! its own URL scheme.
use vstd::prelude::*;
use base64::Engine;
use crate::numbers;
use crate::paths;
use crate::pieces;
use crate::text;

verus! {

/// The store below the data directory.
pub const STORE_SUBDIR: &'static str = "triage/attachments";

/// The staging area below the data directory.
pub const STAGING_SUBDIR: &'static str = "triage/attachments-staging";

/// What the URL of a stored file begins with.
pub const URL_PREFIX: &'static str = "helmor-attachment://";

/// The largest file, in bytes, that is shown to a model.
pub const INLINE_PREVIEW_MAX_BYTES: u64 = 5 * 1024 * 1024;

/// The longest segment of a path that is taken from an id or a name.
pub const SEGMENT_CHARS: usize = 80;

// ---------------------------------------------------------------------------
// Names and places
// ---------------------------------------------------------------------------

/// A character that a segment keeps.
pub open spec fn segment_char(c: char) -> bool {
    '0' <= c <= '9' || 'a' <= c <= 'z' || 'A' <= c <= 'Z' || c == '_' || c == '-' || c == '.'
}

/// The character that stands for another in a segment.
pub open spec fn segment_of_char(c: char) -> char {
    if segment_char(c) {
        c
    } else {
        '_'
    }
}

/// A name made safe for a path: ASCII letters, digits, `_`, `-` and `.`, at most 80 of
/// them.
pub open spec fn segment_of(s: Seq<char>) -> Seq<char> {
    Seq::new(
        if s.len() < SEGMENT_CHARS {
            s.len()
        } else {
            SEGMENT_CHARS as nat
        },
        |i: int| segment_of_char(s[i]),
    )
}

/// A name made safe for a path.
pub fn sanitize_segment(s: &str) -> (r: String)
    ensures
        r@ == segment_of(s@),
{
    let v = text::chars_of(s);
    let mut out = String::new();
    let mut i: usize = 0;
    assert(out@ =~= segment_of(s@).take(0));
    while i < v.len() && i < SEGMENT_CHARS
        invariant
            v@ == s@,
            i <= v@.len(),
            i <= SEGMENT_CHARS,
            out@ == segment_of(s@).take(i as int),
        decreases v@.len() - i,
    {
        let c = v[i];
        if ('0' <= c && c <= '9') || ('a' <= c && c <= 'z') || ('A' <= c && c <= 'Z') || c == '_'
            || c == '-' || c == '.' {
            out.push(c);
        } else {
            out.push('_');
        }
        i += 1;
        assert(out@ =~= segment_of(s@).take(i as int));
    }
    assert(out@ =~= segment_of(s@));
    out
}

/// The root of the workspaces' stores.
pub fn store_root(data_dir: &str) -> (r: String)
    ensures
        r@ == paths::path_joined(data_dir@, STORE_SUBDIR@),
{
    paths::path_join(data_dir, STORE_SUBDIR)
}

/// Where a workspace's files are stored.
pub open spec fn store_dir_of(data_dir: Seq<char>, workspace_id: Seq<char>) -> Seq<char> {
    paths::path_joined(paths::path_joined(data_dir, STORE_SUBDIR@), workspace_id)
}

/// Where a workspace's files are stored.
pub fn store_dir_for_workspace(data_dir: &str, workspace_id: &str) -> (r: String)
    ensures
        r@ == store_dir_of(data_dir@, workspace_id@),
{
    paths::path_join(store_root(data_dir).as_str(), workspace_id)
}

/// Where a candidate's files are staged.
pub open spec fn staging_dir_of(
    data_dir: Seq<char>,
    source: Seq<char>,
    candidate_id: Seq<char>,
) -> Seq<char> {
    paths::path_joined(
        paths::path_joined(paths::path_joined(data_dir, STAGING_SUBDIR@), segment_of(source)),
        segment_of(candidate_id),
    )
}

/// Where a candidate's files are staged.
pub fn staging_dir(data_dir: &str, source: &str, candidate_id: &str) -> (r: String)
    ensures
        r@ == staging_dir_of(data_dir@, source@, candidate_id@),
{
    let root = paths::path_join(data_dir, STAGING_SUBDIR);
    let by_source = paths::path_join(root.as_str(), sanitize_segment(source).as_str());
    paths::path_join(by_source.as_str(), sanitize_segment(candidate_id).as_str())
}

/// Where one of a candidate's files is staged.
pub fn staging_path(data_dir: &str, source: &str, candidate_id: &str, filename: &str) -> (r: String)
    ensures
        r@ == paths::path_joined(
            staging_dir_of(data_dir@, source@, candidate_id@),
            segment_of(filename@),
        ),
{
    let dir = staging_dir(data_dir, source, candidate_id);
    paths::path_join(dir.as_str(), sanitize_segment(filename).as_str())
}

// ---------------------------------------------------------------------------
// The store's URLs
// ---------------------------------------------------------------------------

/// Workspace and file that a URL names, where it is one of the store's and leads nowhere
/// else.
pub open spec fn named_by(url: Seq<char>) -> Option<(Seq<char>, Seq<char>)> {
    match text::after_prefix(url, URL_PREFIX@) {
        Some(rest) => match pieces::split_once_of(rest, "/"@) {
            Some((workspace_id, filename)) => if workspace_id.len() == 0 || filename.len() == 0
                || text::has(workspace_id, ".."@) || text::has(filename, ".."@) || text::has(
                filename,
                "/"@,
            ) {
                None
            } else {
                Some((workspace_id, filename))
            },
            None => None,
        },
        None => None,
    }
}

/// The path that a URL names in the store.
pub open spec fn url_path(data_dir: Seq<char>, url: Seq<char>) -> Option<Seq<char>> {
    match named_by(url) {
        Some((workspace_id, filename)) => Some(
            paths::path_joined(store_dir_of(data_dir, workspace_id), filename),
        ),
        None => None,
    }
}

/// The path that a URL names in the store, for the host to serve where a file stands
/// there.
pub fn resolve_attachment_url(data_dir: &str, url: &str) -> (r: Option<String>)
    ensures
        text::opt_text(r) == url_path(data_dir@, url@),
{
    let rest = match text::strip_prefix(url, URL_PREFIX) {
        Some(rest) => rest,
        None => {
            return None;
        },
    };
    proof {
        reveal_strlit("/");
    }
    match pieces::split_once(rest.as_str(), "/") {
        Some((workspace_id, filename)) => {
            if workspace_id.as_str().is_empty() || filename.as_str().is_empty() || text::contains(
                workspace_id.as_str(),
                "..",
            ) || text::contains(filename.as_str(), "..") || text::contains(filename.as_str(), "/") {
                return None;
            }
            let dir = store_dir_for_workspace(data_dir, workspace_id.as_str());
            Some(paths::path_join(dir.as_str(), filename.as_str()))
        },
        None => None,
    }
}

/// A file in a workspace's store.
pub struct MovedAttachment {
    pub url: String,
    pub absolute_path: String,
    pub filename: String,
}

/// A stored file: its URL, its path and its name.
#[verifier::ext_equal]
pub struct MovedView {
    pub url: Seq<char>,
    pub absolute_path: Seq<char>,
    pub filename: Seq<char>,
}

impl View for MovedAttachment {
    type V = MovedView;

    open spec fn view(&self) -> MovedView {
        MovedView {
            url: self.url@,
            absolute_path: self.absolute_path@,
            filename: self.filename@,
        }
    }
}

/// A file's name in a store: made safe for a path, with `_` for every dot that stands
/// behind another, so that a URL with the name leads nowhere else.
pub open spec fn stored_name(name: Seq<char>) -> Seq<char> {
    let seg = segment_of(name);
    Seq::new(
        seg.len(),
        |i: int|
            if i > 0 && seg[i] == '.' && seg[i - 1] == '.' {
                '_'
            } else {
                seg[i]
            },
    )
}

fn store_name(name: &str) -> (r: String)
    ensures
        r@ == stored_name(name@),
{
    let seg = sanitize_segment(name);
    let v = text::chars_of(seg.as_str());
    let mut out = String::new();
    let mut i: usize = 0;
    assert(out@ =~= stored_name(name@).take(0));
    while i < v.len()
        invariant
            v@ == segment_of(name@),
            i <= v@.len(),
            out@ == stored_name(name@).take(i as int),
        decreases v@.len() - i,
    {
        if i > 0 && v[i] == '.' && v[i - 1] == '.' {
            out.push('_');
        } else {
            out.push(v[i]);
        }
        i += 1;
        assert(out@ =~= stored_name(name@).take(i as int));
    }
    assert(out@ =~= stored_name(name@));
    out
}

/// What becomes of a file in a workspace's store.
pub open spec fn moved_of(
    data_dir: Seq<char>,
    name: Seq<char>,
    workspace_id: Seq<char>,
) -> MovedView {
    MovedView {
        url: URL_PREFIX@ + workspace_id + "/"@ + stored_name(name),
        absolute_path: paths::path_joined(store_dir_of(data_dir, workspace_id), stored_name(name)),
        filename: stored_name(name),
    }
}

/// Where a staged file goes in a workspace's store, or what is wrong with its path. The
/// host moves it there.
pub fn move_into_store(data_dir: &str, src: &str, workspace_id: &str) -> (r: Result<
    MovedAttachment,
    String,
>)
    ensures
        match (r, paths::file_name_of(src@)) {
            (Ok(m), Some(name)) => m@ == moved_of(data_dir@, name, workspace_id@),
            (Err(e), None) => e@ == "source path has no filename: "@ + src@,
            _ => false,
        },
{
    match paths::file_name(src) {
        Some(name) => {
            let filename = store_name(name.as_str());
            let dir = store_dir_for_workspace(data_dir, workspace_id);
            let absolute_path = paths::path_join(dir.as_str(), filename.as_str());
            let mut url = URL_PREFIX.to_string();
            url.append(workspace_id);
            url.append("/");
            url.append(filename.as_str());
            Ok(MovedAttachment { url, absolute_path, filename })
        },
        None => {
            let mut e = "source path has no filename: ".to_string();
            e.append(src);
            Err(e)
        },
    }
}

// ---------------------------------------------------------------------------
// Previews
// ---------------------------------------------------------------------------

/// An image as a model is shown it.
pub struct InlinePreview {
    pub data_base64: String,
    pub mime_type: String,
}

/// The image's data and its kind.
pub type PreviewView = (Seq<char>, Seq<char>);

impl View for InlinePreview {
    type V = PreviewView;

    open spec fn view(&self) -> PreviewView {
        (self.data_base64@, self.mime_type@)
    }
}

/// The kind of image that a file's extension tells.
pub open spec fn image_mime(path: Seq<char>) -> Option<Seq<char>> {
    match paths::extension_of(path) {
        Some(ext) => {
            let e = numbers::lowered(ext);
            if e == "png"@ {
                Some("image/png"@)
            } else if e == "jpg"@ || e == "jpeg"@ {
                Some("image/jpeg"@)
            } else if e == "gif"@ {
                Some("image/gif"@)
            } else if e == "webp"@ {
                Some("image/webp"@)
            } else if e == "bmp"@ {
                Some("image/bmp"@)
            } else {
                None
            }
        },
        None => None,
    }
}

/// The kind of image that a file's extension tells.
pub fn guess_image_mime(path: &str) -> (r: Option<&'static str>)
    ensures
        text::opt_str(r) == image_mime(path@),
{
    match paths::extension(path) {
        Some(ext) => {
            let e = numbers::lower(ext.as_str());
            let e = e.as_str();
            if text::same(e, "png") {
                Some("image/png")
            } else if text::same(e, "jpg") || text::same(e, "jpeg") {
                Some("image/jpeg")
            } else if text::same(e, "gif") {
                Some("image/gif")
            } else if text::same(e, "webp") {
                Some("image/webp")
            } else if text::same(e, "bmp") {
                Some("image/bmp")
            } else {
                None
            }
        },
        None => None,
    }
}

/// What the host found at a path.
#[derive(Clone, Copy, Debug, PartialEq, Eq, Structural)]
pub struct FileMeta {
    pub is_file: bool,
    pub len: u64,
}

/// A file is shown to a model: an image by its name, and not too large.
pub open spec fn previewed(path: Seq<char>, meta: Option<FileMeta>) -> bool {
    image_mime(path) is Some && match meta {
        Some(m) => m.is_file && m.len <= INLINE_PREVIEW_MAX_BYTES,
        None => false,
    }
}

/// Whether a file is to be read for a preview.
pub fn wants_preview(path: &str, meta: Option<FileMeta>) -> (r: bool)
    ensures
        r == previewed(path@, meta),
{
    if guess_image_mime(path).is_none() {
        return false;
    }
    match meta {
        Some(m) => m.is_file && m.len <= INLINE_PREVIEW_MAX_BYTES,
        None => false,
    }
}

/// The character that stands for six bits in the standard base64 alphabet.
pub open spec fn base64_char(n: int) -> char {
    if n < 26 {
        ('A' as int + n) as char
    } else if n < 52 {
        ('a' as int + (n - 26)) as char
    } else if n < 62 {
        ('0' as int + (n - 52)) as char
    } else if n == 62 {
        '+'
    } else {
        '/'
    }
}

/// The bytes in base64: four characters for every three bytes, six bits to each, with `=`
/// for what is missing in the last three.
pub open spec fn base64_text(b: Seq<u8>) -> Seq<char>
    decreases b.len(),
{
    let high = base64_char(b[0] as int / 4);
    if b.len() == 0 {
        seq![]
    } else if b.len() == 1 {
        seq![high, base64_char(b[0] as int % 4 * 16), '=', '=']
    } else if b.len() == 2 {
        seq![high, base64_char(b[0] as int % 4 * 16 + b[1] as int / 16), base64_char(b[1] as int % 16 * 4), '=']
    } else {
        seq![
            high,
            base64_char(b[0] as int % 4 * 16 + b[1] as int / 16),
            base64_char(b[1] as int % 16 * 4 + b[2] as int / 64),
            base64_char(b[2] as int % 64),
        ] + base64_text(b.skip(3))
    }
}

/// How long so many bytes are in base64.
pub open spec fn base64_len(n: nat) -> nat {
    (n + 2) / 3 * 4
}

proof fn lemma_base64_len(b: Seq<u8>)
    ensures
        base64_text(b).len() == base64_len(b.len()),
    decreases b.len(),
{
    if b.len() > 2 {
        lemma_base64_len(b.skip(3));
    }
}

/// `encode` of `base64`'s standard engine: the bytes in the standard alphabet, with
/// padding. Longer texts than memory can hold are left out.
#[verifier::external_body]
fn encode_base64(bytes: &[u8]) -> (r: String)
    requires
        base64_len(bytes@.len()) <= isize::MAX,
    ensures
        r@ == base64_text(bytes@),
{
    base64::engine::general_purpose::STANDARD.encode(bytes)
}

/// What a preview of a file shows: its content in base64 and its kind.
pub open spec fn preview_of(path: Seq<char>, meta: Option<FileMeta>, content: Seq<u8>) -> Option<
    PreviewView,
> {
    if previewed(path, meta) {
        Some((base64_text(content), image_mime(path)->0))
    } else {
        None
    }
}

/// What an optional preview shows.
pub open spec fn opt_preview(p: Option<InlinePreview>) -> Option<PreviewView> {
    match p {
        Some(p) => Some(p@),
        None => None,
    }
}

/// A preview of the file at the path, where it is an image that is not too large.
pub fn inline_preview(path: &str, meta: Option<FileMeta>, content: &[u8]) -> (r: Option<
    InlinePreview,
>)
    requires
        base64_len(content@.len()) <= isize::MAX,
    ensures
        opt_preview(r) == preview_of(path@, meta, content@),
        r matches Some(p) ==> p.data_base64@.len() == base64_len(content@.len()),
{
    if !wants_preview(path, meta) {
        return None;
    }
    proof {
        lemma_base64_len(content@);
    }
    match guess_image_mime(path) {
        Some(mime) => Some(
            InlinePreview { data_base64: encode_base64(content), mime_type: mime.to_string() },
        ),
        None => None,
    }
}

// ---------------------------------------------------------------------------
// Staged files
// ---------------------------------------------------------------------------

/// The names that are not among those to keep, in their order.
pub open spec fn stale_among(found: Seq<Seq<char>>, keep: Seq<Seq<char>>) -> Seq<Seq<char>>
    decreases found.len(),
{
    if found.len() == 0 {
        seq![]
    } else {
        let before = stale_among(found.drop_last(), keep);
        if keep.contains(found.last()) {
            before
        } else {
            before.push(found.last())
        }
    }
}

/// The staged files that nothing needs any more, out of those that were found. The host
/// removes them.
pub fn prune_candidate_staging(found: &Vec<String>, keep: &Vec<String>) -> (r: Vec<String>)
    ensures
        text::texts(r@) == stale_among(text::texts(found@), text::texts(keep@)),
{
    let ghost all = text::texts(found@);
    let mut out: Vec<String> = Vec::new();
    let mut i: usize = 0;
    assert(text::texts(out@) =~= stale_among(all.take(0), text::texts(keep@)));
    while i < found.len()
        invariant
            i <= found@.len(),
            all == text::texts(found@),
            text::texts(out@) == stale_among(all.take(i as int), text::texts(keep@)),
        decreases found@.len() - i,
    {
        assert(all.take(i + 1).drop_last() =~= all.take(i as int));
        assert(all.take(i + 1).last() == found@[i as int]@);
        if !text::is_among(found[i].as_str(), keep) {
            let ghost before = text::texts(out@);
            let name = found[i].clone();
            out.push(name);
            assert(text::texts(out@) =~= before.push(name@));
        }
        i += 1;
    }
    assert(all.take(i as int) =~= all);
    out
}

/// A staged file: its name, and its length where that can be told.
pub struct StagedFile {
    pub name: String,
    pub len: Option<u64>,
}

/// A file's name without its extension.
pub open spec fn stem_of(name: Seq<char>) -> Seq<char> {
    match pieces::rsplit_char_of(name, '.') {
        Some((stem, _)) => if stem.len() > 0 {
            stem
        } else {
            name
        },
        None => name,
    }
}

/// The staged file is the one that the key stands for, and holds something.
pub open spec fn stands_for(f: StagedFile, key: Seq<char>) -> bool {
    stem_of(f.name@) == key && (f.len matches Some(n) && n > 0)
}

/// The first of the staged files that the key stands for, whatever its extension, with
/// its length.
pub fn find_staged_by_stem(found: &Vec<StagedFile>, key: &str) -> (r: Option<(String, u64)>)
    ensures
        match r {
            Some((name, len)) => exists|i: int|
                {
                    &&& 0 <= i < found@.len()
                    &&& stands_for(#[trigger] found@[i], key@)
                    &&& name@ == found@[i].name@
                    &&& found@[i].len == Some(len)
                    &&& forall|k: int| 0 <= k < i ==> !stands_for(#[trigger] found@[k], key@)
                },
            None => forall|k: int|
                0 <= k < found@.len() ==> !stands_for(#[trigger] found@[k], key@),
        },
{
    let mut i: usize = 0;
    while i < found.len()
        invariant
            i <= found@.len(),
            forall|k: int| 0 <= k < i ==> !stands_for(#[trigger] found@[k], key@),
        decreases found@.len() - i,
    {
        let f = &found[i];
        let matched = match pieces::rsplit_char(f.name.as_str(), '.') {
            Some((stem, _)) => if stem.as_str().is_empty() {
                text::same(f.name.as_str(), key)
            } else {
                text::same(stem.as_str(), key)
            },
            None => text::same(f.name.as_str(), key),
        };
        assert(matched == (stem_of(f.name@) == key@));
        if matched {
            match f.len {
                Some(n) => {
                    if n > 0 {
                        assert(stands_for(found@[i as int], key@));
                        return Some((f.name.clone(), n));
                    }
                },
                None => {},
            }
        }
        i += 1;
    }
    None
}

// ---------------------------------------------------------------------------
// Laws
// ---------------------------------------------------------------------------

/// A segment is safe in a path: it holds no separator, and it is not longer than 80
/// characters.
pub proof fn law_segments_are_safe(s: Seq<char>)
    ensures
        segment_of(s).len() <= SEGMENT_CHARS,
        forall|i: int| 0 <= i < segment_of(s).len() ==> segment_char(#[trigger] segment_of(s)[i]),
        segment_of(segment_of(s)) == segment_of(s),
{
    assert(segment_of(segment_of(s)) =~= segment_of(s));
}

/// A URL is resolved to a file right below the store of a workspace, or not at all: the
/// path leads through two names, neither with a separator or a way up in it.
pub proof fn law_urls_stay_in_the_store(data_dir: Seq<char>, url: Seq<char>)
    ensures
        url_path(data_dir, url) matches Some(p) ==> {
            let root = paths::path_joined(data_dir, STORE_SUBDIR@);
            let (workspace_id, filename) = named_by(url)->0;
            &&& p == root + "/"@ + workspace_id + "/"@ + filename
            &&& workspace_id.len() > 0 && filename.len() > 0
            &&& !text::has(workspace_id, "/"@) && !text::has(filename, "/"@)
            &&& !text::has(workspace_id, ".."@) && !text::has(filename, ".."@)
        },
{
    if named_by(url) is Some {
        let rest = text::after_prefix(url, URL_PREFIX@)->0;
        let (workspace_id, filename) = named_by(url)->0;
        let root = paths::path_joined(data_dir, STORE_SUBDIR@);
        reveal_strlit("/");
        reveal_strlit("triage/attachments");
        assert("/"@ =~= seq!['/']);
        lemma_first_piece(rest);
        lemma_not_absolute(workspace_id);
        lemma_not_absolute(filename);
        assert(root.last() == 's') by {
            assert(STORE_SUBDIR@.last() == 's');
        }
        let dir = store_dir_of(data_dir, workspace_id);
        assert(dir =~= root.push('/') + workspace_id);
        assert(dir.last() == workspace_id.last());
        assert(workspace_id.last() != '/') by {
            if workspace_id.last() == '/' {
                let k = workspace_id.len() - 1;
                assert(workspace_id.subrange(k, k + 1) =~= "/"@);
                assert(text::occurs_at(workspace_id, "/"@, k));
            }
        }
        assert(paths::path_joined(dir, filename) =~= root + "/"@ + workspace_id + "/"@ + filename);
    }
}

/// What stands before the first separator holds none.
proof fn lemma_first_piece(rest: Seq<char>)
    ensures
        pieces::split_once_of(rest, "/"@) matches Some((a, b)) ==> !text::has(a, "/"@),
{
    reveal_strlit("/");
    match pieces::split_once_of(rest, "/"@) {
        Some((a, b)) => {
            if text::has(a, "/"@) {
                let k = choose|k: int| text::occurs_at(a, "/"@, k);
                text::lemma_first_at(rest, "/"@, 0);
                assert(rest.subrange(k, k + 1) =~= a.subrange(k, k + 1));
                assert(text::occurs_at(rest, "/"@, k));
            }
        },
        None => {},
    }
}

/// A path without a separator is not absolute.
proof fn lemma_not_absolute(p: Seq<char>)
    requires
        !text::has(p, "/"@),
    ensures
        !text::begins(p, "/"@),
{
    if text::begins(p, "/"@) {
        assert(text::occurs_at(p, "/"@, 0)) by {
            assert(p.subrange(0, "/"@.len() as int) =~= p.take("/"@.len() as int));
        }
    }
}

/// A name in a store holds no separator and no way up.
proof fn lemma_stored_names_are_safe(name: Seq<char>)
    ensures
        !text::has(stored_name(name), "/"@),
        !text::has(stored_name(name), ".."@),
{
    reveal_strlit("/");
    reveal_strlit("..");
    let seg = segment_of(name);
    let stored = stored_name(name);
    if text::has(stored, "/"@) {
        let k = choose|k: int| text::occurs_at(stored, "/"@, k);
        assert(stored.subrange(k, k + 1)[0] == "/"@[0]);
        assert(stored[k] == '/');
        assert(segment_char(segment_of_char(name[k])));
    }
    if text::has(stored, ".."@) {
        let k = choose|k: int| text::occurs_at(stored, ".."@, k);
        assert(stored.subrange(k, k + 2)[0] == ".."@[0]);
        assert(stored.subrange(k, k + 2)[1] == ".."@[1]);
        assert(stored[k] == '.' && stored[k + 1] == '.');
        assert(seg[k] == '.' && seg[k + 1] == '.');
    }
}

/// The URL of a file that was moved into a store leads to it, whatever the file's name,
/// where the workspace's id holds neither a separator nor a way up.
pub proof fn law_moved_files_are_found(
    data_dir: Seq<char>,
    name: Seq<char>,
    workspace_id: Seq<char>,
)
    requires
        workspace_id.len() > 0,
        name.len() > 0,
        !text::has(workspace_id, "/"@),
        !text::has(workspace_id, ".."@),
    ensures
        ({
            let moved = moved_of(data_dir, name, workspace_id);
            url_path(data_dir, moved.url) == Some(moved.absolute_path)
        }),
{
    reveal_strlit("/");
    let seg = stored_name(name);
    lemma_stored_names_are_safe(name);
    let moved = moved_of(data_dir, name, workspace_id);
    let rest = workspace_id + "/"@ + seg;
    assert(moved.url =~= URL_PREFIX@ + rest);
    assert(moved.url.take(URL_PREFIX@.len() as int) =~= URL_PREFIX@);
    assert(moved.url.skip(URL_PREFIX@.len() as int) =~= rest);
    assert(text::after_prefix(moved.url, URL_PREFIX@) == Some(rest));
    let n = workspace_id.len() as int;
    assert(rest.subrange(n, n + 1) =~= "/"@);
    assert(text::occurs_at(rest, "/"@, n));
    assert forall|k: int| 0 <= k < n implies !text::occurs_at(rest, "/"@, k) by {
        if text::occurs_at(rest, "/"@, k) {
            assert(rest.subrange(k, k + 1) =~= workspace_id.subrange(k, k + 1));
            assert(text::occurs_at(workspace_id, "/"@, k));
        }
    }
    text::lemma_first_at_is(rest, "/"@, 0, n);
    assert(rest.take(n) =~= workspace_id);
    assert(rest.skip(n + 1) =~= seg);
    assert(named_by(moved.url) == Some((workspace_id, seg)));
}

/// No file that is still needed is removed from the staging area, and every other one is.
pub proof fn law_pruning_keeps_what_is_needed(
    found: Seq<Seq<char>>,
    keep: Seq<Seq<char>>,
    name: Seq<char>,
)
    ensures
        stale_among(found, keep).contains(name) <==> found.contains(name) && !keep.contains(name),
    decreases found.len(),
{
    if found.len() > 0 {
        law_pruning_keeps_what_is_needed(found.drop_last(), keep, name);
        let before = stale_among(found.drop_last(), keep);
        if found.contains(name) {
            let i = choose|i: int| 0 <= i < found.len() && found[i] == name;
            if i < found.len() - 1 {
                assert(found.drop_last()[i] == name);
            }
        }
        if found.drop_last().contains(name) {
            let i = choose|i: int| 0 <= i < found.drop_last().len() && found.drop_last()[i] == name;
            assert(found[i] == name);
        }
        if !keep.contains(found.last()) {
            let after = before.push(found.last());
            if before.contains(name) {
                let i = choose|i: int| 0 <= i < before.len() && before[i] == name;
                assert(after[i] == name);
            }
            if found.last() == name {
                assert(after[before.len() as int] == name);
            }
            if after.contains(name) {
                let i = choose|i: int| 0 <= i < after.len() && after[i] == name;
                if i < before.len() {
                    assert(before[i] == name);
                } else {
                    assert(found[found.len() - 1] == name);
                }
            }
        }
    }
}

/// A name that is safe already is kept, up to 80 characters; of any other only the characters
/// that are not safe are replaced.
pub proof fn law_safe_names_are_kept(s: Seq<char>, i: int)
    requires
        0 <= i < s.len(),
        i < 80,
    ensures
        segment_of(s).len() == (if s.len() < 80 {
            s.len() as int
        } else {
            80
        }),
        ({
            let c = s[i];
            let safe = '0' <= c <= '9' || 'a' <= c <= 'z' || 'A' <= c <= 'Z' || c == '_' || c == '-'
                || c == '.';
            segment_of(s)[i] == (if safe {
                c
            } else {
                '_'
            })
        }),
{
}

/// Files are staged by source and candidate, and stored by workspace: each directory lies in
/// the data directory's own part for them.
pub proof fn law_files_lie_with_their_owner(
    data_dir: Seq<char>,
    source: Seq<char>,
    candidate: Seq<char>,
    workspace_id: Seq<char>,
    name: Seq<char>,
)
    ensures
        staging_dir_of(data_dir, source, candidate) == paths::path_joined(
            paths::path_joined(paths::path_joined(data_dir, "triage/attachments-staging"@), segment_of(source)),
            segment_of(candidate),
        ),
        ({
            let m = moved_of(data_dir, name, workspace_id);
            let store = paths::path_joined(
                paths::path_joined(data_dir, "triage/attachments"@),
                workspace_id,
            );
            &&& m.absolute_path == paths::path_joined(store, m.filename)
            &&& m.url == "helmor-attachment://"@ + workspace_id + "/"@ + m.filename
            &&& m.filename.len() == segment_of(name).len()
            &&& !text::has(m.filename, ".."@) && !text::has(m.filename, "/"@)
            &&& (forall|i: int|
                0 < i < segment_of(name).len() ==> !(#[trigger] segment_of(name)[i] == '.'
                    && segment_of(name)[i - 1] == '.')) ==> m.filename == segment_of(name)
        }),
{
    lemma_stored_names_are_safe(name);
    assert((forall|i: int|
        0 < i < segment_of(name).len() ==> !(#[trigger] segment_of(name)[i] == '.' && segment_of(
            name,
        )[i - 1] == '.')) ==> stored_name(name) =~= segment_of(name));
}

/// The kind of an image is told by its extension, in any case; only an image that is a file of
/// no more than 5 MiB is previewed, as what it is.
pub proof fn law_small_images_are_previewed(
    path: Seq<char>,
    ext: Seq<char>,
    meta: FileMeta,
    content: Seq<u8>,
)
    requires
        paths::extension_of(path) == Some(ext),
    ensures
        numbers::lowered(ext) == "png"@ ==> image_mime(path) == Some("image/png"@),
        numbers::lowered(ext) == "jpg"@ ==> image_mime(path) == Some("image/jpeg"@),
        numbers::lowered(ext) == "jpeg"@ ==> image_mime(path) == Some("image/jpeg"@),
        numbers::lowered(ext) == "gif"@ ==> image_mime(path) == Some("image/gif"@),
        numbers::lowered(ext) == "webp"@ ==> image_mime(path) == Some("image/webp"@),
        numbers::lowered(ext) == "bmp"@ ==> image_mime(path) == Some("image/bmp"@),
        preview_of(path, Some(meta), content) is Some <==> image_mime(path) is Some && meta.is_file
            && meta.len <= 5_242_880,
        preview_of(path, Some(meta), content) matches Some(p) ==> p.0 == base64_text(content)
            && Some(p.1) == image_mime(path),
        preview_of(path, None, content) is None,
{
    reveal_strlit("png");
    reveal_strlit("jpg");
    reveal_strlit("jpeg");
    reveal_strlit("gif");
    reveal_strlit("webp");
    reveal_strlit("bmp");
    assert("png"@[0] == 'p' && "jpg"@[0] == 'j' && "gif"@[0] == 'g' && "webp"@[0] == 'w' && "bmp"@[0]
        == 'b' && "jpeg"@[0] == 'j');
}

/// A staged file is found by the key that it was fetched by, whatever its extension; an empty
/// file is not.
pub proof fn law_staged_files_go_by_their_stem(f: StagedFile, key: Seq<char>, ext: Seq<char>)
    requires
        key.len() > 0,
        !ext.contains('.'),
        f.name@ == key + seq!['.'] + ext,
    ensures
        stands_for(f, key) <==> (f.len matches Some(n) && n > 0),
{
    pieces::law_split_at_the_last(key, '.', ext);
}

/// Each of the 64 values has its own place in the standard alphabet.
pub proof fn law_base64_uses_the_standard_alphabet(n: int)
    requires
        0 <= n < 64,
    ensures
        base64_char(n)
            == "ABCDEFGHIJKLMNOPQRSTUVWXYZabcdefghijklmnopqrstuvwxyz0123456789+/"@[n],
{
    reveal_strlit("ABCDEFGHIJKLMNOPQRSTUVWXYZabcdefghijklmnopqrstuvwxyz0123456789+/");
}

proof fn lemma_bits_of_three(a: int, b: int, c: int)
    requires
        0 <= a < 256,
        0 <= b < 256,
        0 <= c < 256,
    ensures
        ({
            let v = a * 65536 + b * 256 + c;
            &&& v / 262144 == a / 4
            &&& v / 4096 % 64 == a % 4 * 16 + b / 16
            &&& v / 64 % 64 == b % 16 * 4 + c / 64
            &&& v % 64 == c % 64
        }),
{
    let (ah, al) = (a / 4, a % 4);
    let (bh, bl) = (b / 16, b % 16);
    let (ch, cl) = (c / 64, c % 64);
    let v = a * 65536 + b * 256 + c;
    lemma_quotient_is(v, 262144, ah, al * 65536 + b * 256 + c);
    lemma_quotient_is(v, 4096, ah * 64 + al * 16 + bh, bl * 256 + c);
    lemma_quotient_is(ah * 64 + al * 16 + bh, 64, ah, al * 16 + bh);
    lemma_quotient_is(v, 64, a * 1024 + b * 4 + ch, cl);
    lemma_quotient_is(a * 1024 + b * 4 + ch, 64, a * 16 + bh, bl * 4 + ch);
}

proof fn lemma_quotient_is(x: int, d: int, q: int, r: int)
    requires
        x == q * d + r,
        0 <= r < d,
    ensures
        x / d == q,
        x % d == r,
{
    vstd::arithmetic::div_mod::lemma_fundamental_div_mod_converse(x, d, q, r);
}

/// Bytes are shown three at a time, in four characters that hold all their bits; what is
/// missing in the last three is filled up.
pub proof fn law_base64_holds_every_bit(a: u8, b: u8, c: u8, rest: Seq<u8>)
    ensures
        ({
            let v = a * 65536 + b * 256 + c;
            base64_text(seq![a, b, c] + rest) == seq![
                base64_char(v / 262144),
                base64_char(v / 4096 % 64),
                base64_char(v / 64 % 64),
                base64_char(v % 64),
            ] + base64_text(rest)
        }),
        base64_text(seq![a]) == base64_text(seq![a, 0, 0]).take(2) + seq!['=', '='],
        base64_text(seq![a, b]) == base64_text(seq![a, b, 0]).take(3) + seq!['='],
        base64_text(seq![]).len() == 0,
{
    let s = seq![a, b, c] + rest;
    assert(s.skip(3) =~= rest);
    assert(s[0] == a && s[1] == b && s[2] == c);
    lemma_bits_of_three(a as int, b as int, c as int);
    let one = seq![a];
    let two = seq![a, b];
    let padded_one = seq![a, 0u8, 0u8];
    let padded_two = seq![a, b, 0u8];
    assert(one[0] == a && padded_one[0] == a && padded_one[1] == 0 && padded_one[2] == 0);
    assert(two[0] == a && two[1] == b);
    assert(padded_two[0] == a && padded_two[1] == b && padded_two[2] == 0);
    assert(base64_text(one) =~= base64_text(padded_one).take(2) + seq!['=', '=']);
    assert(base64_text(two) =~= base64_text(padded_two).take(3) + seq!['=']);
}

} // verus!
