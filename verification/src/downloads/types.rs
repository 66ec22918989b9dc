//! Assets, their states and the events of their downloads.
use vstd::prelude::*;
use crate::assoc::AssocMap;
use crate::paths;
use crate::text;

verus! {

/// Where the bytes of an asset come from.
pub enum AssetSource {
    /// Resolved against `https://huggingface.co/{repo}/resolve/main/<file>`.
    HuggingFace { repo: String },
}

impl AssetSource {
    /// The repository.
    pub open spec fn repo_text(&self) -> Seq<char> {
        match self {
            AssetSource::HuggingFace { repo } => repo@,
        }
    }
}

impl Clone for AssetSource {
    fn clone(&self) -> (r: Self)
        ensures
            r == *self,
    {
        match self {
            AssetSource::HuggingFace { repo } => AssetSource::HuggingFace { repo: repo.clone() },
        }
    }
}

/// A companion file that may be missing, with its name in the repository and on disk.
pub struct OptionalFile {
    pub remote_name: String,
    pub local_name: String,
}

impl Clone for OptionalFile {
    fn clone(&self) -> (r: Self)
        ensures
            r == *self,
    {
        OptionalFile { remote_name: self.remote_name.clone(), local_name: self.local_name.clone() }
    }
}

/// What is done with the downloaded bytes.
#[derive(Clone, Copy, Debug, PartialEq, Eq, Structural)]
pub enum ArchiveKind {
    /// The partial file is renamed to its final name.
    Plain,
}

impl Default for ArchiveKind {
    fn default() -> (r: Self)
        ensures
            r == ArchiveKind::Plain,
    {
        ArchiveKind::Plain
    }
}

/// One downloadable artefact.
pub struct Asset {
    /// State, events and cancel flags are kept by this id.
    pub id: String,
    /// The directory that the files are put into.
    pub target_dir: String,
    /// The names of the files, downloaded one after the other.
    pub files: Vec<String>,
    /// Companions whose absence leaves the asset downloaded.
    pub optional_files: Vec<OptionalFile>,
    pub source: AssetSource,
    pub archive: ArchiveKind,
    /// Whether the first file is a directory.
    pub is_directory: bool,
    /// The expected size, used until the real one is known.
    pub estimated_bytes: u64,
}

/// What an asset is.
#[verifier::ext_equal]
pub struct AssetView {
    pub id: Seq<char>,
    pub target_dir: Seq<char>,
    pub files: Seq<Seq<char>>,
    /// Remote and local names.
    pub optional_files: Seq<(Seq<char>, Seq<char>)>,
    pub repo: Seq<char>,
    pub archive: ArchiveKind,
    pub is_directory: bool,
    pub estimated_bytes: u64,
}

/// The remote and local names of optional files.
pub open spec fn optional_views(v: Seq<OptionalFile>) -> Seq<(Seq<char>, Seq<char>)> {
    Seq::new(v.len(), |i: int| (v[i].remote_name@, v[i].local_name@))
}

impl View for Asset {
    type V = AssetView;

    open spec fn view(&self) -> AssetView {
        AssetView {
            id: self.id@,
            target_dir: self.target_dir@,
            files: text::texts(self.files@),
            optional_files: optional_views(self.optional_files@),
            repo: self.source.repo_text(),
            archive: self.archive,
            is_directory: self.is_directory,
            estimated_bytes: self.estimated_bytes,
        }
    }
}

impl Clone for Asset {
    fn clone(&self) -> (r: Self)
        ensures
            r@ == self@,
    {
        let mut optional: Vec<OptionalFile> = Vec::new();
        let mut i: usize = 0;
        while i < self.optional_files.len()
            invariant
                i <= self.optional_files@.len(),
                optional@ == self.optional_files@.take(i as int),
            decreases self.optional_files@.len() - i,
        {
            optional.push(self.optional_files[i].clone());
            i += 1;
            assert(optional@ =~= self.optional_files@.take(i as int));
        }
        assert(optional@ =~= self.optional_files@);
        Asset {
            id: self.id.clone(),
            target_dir: self.target_dir.clone(),
            files: text::copy_strings(&self.files),
            optional_files: optional,
            source: self.source.clone(),
            archive: self.archive,
            is_directory: self.is_directory,
            estimated_bytes: self.estimated_bytes,
        }
    }
}

/// What the assets of a list are.
pub open spec fn asset_views(v: Seq<Asset>) -> Seq<AssetView> {
    Seq::new(v.len(), |i: int| v[i]@)
}

impl AssetView {
    /// Where a file of the asset lies.
    pub open spec fn path_of(self, name: Seq<char>) -> Seq<char> {
        paths::path_joined(self.target_dir, name)
    }

    /// Where a file of the asset lies while it is being downloaded.
    pub open spec fn part_path_of(self, name: Seq<char>) -> Seq<char> {
        paths::path_joined(self.target_dir, name + ".part"@)
    }
}

impl Asset {
    /// Where a file of the asset lies.
    pub fn file_path(&self, name: &str) -> (r: String)
        ensures
            r@ == self@.path_of(name@),
    {
        paths::path_join(self.target_dir.as_str(), name)
    }

    /// Where a file of the asset lies while it is being downloaded.
    pub fn part_path(&self, name: &str) -> (r: String)
        ensures
            r@ == self@.part_path_of(name@),
    {
        let mut part = name.to_string();
        part.append(".part");
        paths::path_join(self.target_dir.as_str(), part.as_str())
    }
}

/// The state of one asset.
#[derive(Clone, Copy, Debug, PartialEq, Eq, Structural)]
pub enum AssetState {
    NotDownloaded,
    Downloading,
    Paused,
    Downloaded,
    Failed,
}

/// A snapshot of one asset's state.
pub struct AssetStatus {
    pub entry_id: String,
    pub state: AssetState,
    /// Bytes already on disk.
    pub downloaded: u64,
    /// Bytes expected.
    pub total: u64,
    /// Whether every optional file is on disk.
    pub optional_complete: bool,
    /// The last error, for a failed download.
    pub error: Option<String>,
}

/// What a status says.
#[verifier::ext_equal]
pub struct StatusView {
    pub entry_id: Seq<char>,
    pub state: AssetState,
    pub downloaded: u64,
    pub total: u64,
    pub optional_complete: bool,
    pub error: Option<Seq<char>>,
}

impl View for AssetStatus {
    type V = StatusView;

    open spec fn view(&self) -> StatusView {
        StatusView {
            entry_id: self.entry_id@,
            state: self.state,
            downloaded: self.downloaded,
            total: self.total,
            optional_complete: self.optional_complete,
            error: text::opt_text(self.error),
        }
    }
}

impl Clone for AssetStatus {
    fn clone(&self) -> (r: Self)
        ensures
            r == *self,
    {
        AssetStatus {
            entry_id: self.entry_id.clone(),
            state: self.state,
            downloaded: self.downloaded,
            total: self.total,
            optional_complete: self.optional_complete,
            error: match &self.error {
                Some(e) => Some(e.clone()),
                None => None,
            },
        }
    }
}

impl StatusView {
    /// The status of an asset without optional files of which nothing is on disk.
    pub open spec fn not_downloaded(id: Seq<char>, total: u64) -> StatusView {
        StatusView {
            entry_id: id,
            state: AssetState::NotDownloaded,
            downloaded: 0,
            total,
            optional_complete: true,
            error: None,
        }
    }

    /// The status of an asset of which nothing is on disk: its optional files are complete
    /// only where it has none.
    pub open spec fn cleared(a: AssetView) -> StatusView {
        StatusView {
            optional_complete: a.optional_files.len() == 0,
            ..StatusView::not_downloaded(a.id, a.estimated_bytes)
        }
    }
}

impl AssetStatus {
    /// The status of an asset of which nothing is on disk.
    pub fn cleared(asset: &Asset) -> (r: Self)
        ensures
            r@ == StatusView::cleared(asset@),
    {
        let mut status = AssetStatus::not_downloaded(asset.id.as_str(), asset.estimated_bytes);
        status.optional_complete = asset.optional_files.len() == 0;
        status
    }

    /// The status of an asset without optional files of which nothing is on disk.
    pub fn not_downloaded(entry_id: &str, total: u64) -> (r: Self)
        ensures
            r@ == StatusView::not_downloaded(entry_id@, total),
    {
        AssetStatus {
            entry_id: entry_id.to_string(),
            state: AssetState::NotDownloaded,
            downloaded: 0,
            total,
            optional_complete: true,
            error: None,
        }
    }
}

/// One event of a download, with the asset that it belongs to.
pub struct AssetEvent {
    pub entry_id: String,
    pub kind: AssetEventKind,
}

/// What happened to a download.
pub enum AssetEventKind {
    Started { total: u64 },
    /// `window_bytes` counts what came in since the last report; the host divides it by
    /// the time that went by.
    Progress { downloaded: u64, total: u64, window_bytes: u64 },
    Paused { downloaded: u64, total: u64 },
    /// The user gave the download up: its files are deleted.
    Cancelled { total: u64 },
    /// `path` is the first file. `optional_complete` tells whether every optional file is
    /// on disk after this run.
    Completed { downloaded: u64, path: String, sha256_verified: bool, optional_complete: bool },
    /// `retryable` is set where the failure looks like one that passes.
    Failed { error: String, retryable: bool },
}

/// What an event says.
pub enum KindView {
    Started { total: u64 },
    Progress { downloaded: u64, total: u64, window_bytes: u64 },
    Paused { downloaded: u64, total: u64 },
    Cancelled { total: u64 },
    Completed { downloaded: u64, path: Seq<char>, sha256_verified: bool, optional_complete: bool },
    Failed { error: Seq<char>, retryable: bool },
}

impl View for AssetEventKind {
    type V = KindView;

    open spec fn view(&self) -> KindView {
        match self {
            AssetEventKind::Started { total } => KindView::Started { total: *total },
            AssetEventKind::Progress { downloaded, total, window_bytes } => KindView::Progress {
                downloaded: *downloaded,
                total: *total,
                window_bytes: *window_bytes,
            },
            AssetEventKind::Paused { downloaded, total } => KindView::Paused {
                downloaded: *downloaded,
                total: *total,
            },
            AssetEventKind::Cancelled { total } => KindView::Cancelled { total: *total },
            AssetEventKind::Completed { downloaded, path, sha256_verified, optional_complete } =>
                KindView::Completed {
                downloaded: *downloaded,
                path: path@,
                sha256_verified: *sha256_verified,
                optional_complete: *optional_complete,
            },
            AssetEventKind::Failed { error, retryable } => KindView::Failed {
                error: error@,
                retryable: *retryable,
            },
        }
    }
}

/// What an event says, and of which asset.
pub struct EventView {
    pub entry_id: Seq<char>,
    pub kind: KindView,
}

impl View for AssetEvent {
    type V = EventView;

    open spec fn view(&self) -> EventView {
        EventView { entry_id: self.entry_id@, kind: self.kind@ }
    }
}

// ---------------------------------------------------------------------------
// What is on disk
// ---------------------------------------------------------------------------

/// What stands at a path.
#[derive(Clone, Copy, Debug, PartialEq, Eq, Structural)]
pub struct DiskEntry {
    pub len: u64,
    /// Whether it is a regular file.
    pub is_file: bool,
}

/// What the host found at the paths that it looked at.
pub struct Disk {
    pub entries: AssocMap<String, DiskEntry>,
}

impl View for Disk {
    type V = Map<Seq<char>, DiskEntry>;

    open spec fn view(&self) -> Map<Seq<char>, DiskEntry> {
        self.entries@
    }
}

impl Disk {
    /// No path occurs twice.
    pub open spec fn wf(&self) -> bool {
        self.entries.wf()
    }

    /// A disk with nothing on it.
    pub fn new() -> (r: Self)
        ensures
            r.wf(),
            r@ == Map::<Seq<char>, DiskEntry>::empty(),
    {
        Disk { entries: AssocMap::new() }
    }

    /// Notes what stands at a path.
    pub fn put(&mut self, path: &str, entry: DiskEntry)
        requires
            old(self).wf(),
        ensures
            final(self).wf(),
            final(self)@ == old(self)@.insert(path@, entry),
    {
        self.entries.insert(path.to_string(), entry);
    }

    /// What stands at a path.
    pub fn at(&self, path: &str) -> (r: Option<DiskEntry>)
        requires
            self.wf(),
        ensures
            match r {
                Some(e) => self@.contains_key(path@) && self@[path@] == e,
                None => !self@.contains_key(path@),
            },
    {
        match self.entries.get(&path.to_string()) {
            Some(e) => Some(*e),
            None => None,
        }
    }

    /// The size of what stands at a path.
    pub fn size_at(&self, path: &str) -> (r: Option<u64>)
        requires
            self.wf(),
        ensures
            r == size_on(self@, path@),
    {
        match self.at(path) {
            Some(e) => Some(e.len),
            None => None,
        }
    }

    /// Whether a regular file stands at a path.
    pub fn is_file_at(&self, path: &str) -> (r: bool)
        requires
            self.wf(),
        ensures
            r == file_on(self@, path@),
    {
        match self.at(path) {
            Some(e) => e.is_file,
            None => false,
        }
    }
}

/// The size of what stands at a path.
pub open spec fn size_on(disk: Map<Seq<char>, DiskEntry>, path: Seq<char>) -> Option<u64> {
    if disk.contains_key(path) {
        Some(disk[path].len)
    } else {
        None
    }
}

/// A regular file stands at a path.
pub open spec fn file_on(disk: Map<Seq<char>, DiskEntry>, path: Seq<char>) -> bool {
    disk.contains_key(path) && disk[path].is_file
}

/// The sum of two sizes, as far as a `u64` can say.
pub open spec fn capped_sum(a: u64, b: u64) -> u64 {
    if a + b > u64::MAX {
        u64::MAX
    } else {
        (a + b) as u64
    }
}

/// The sum of two sizes, as far as a `u64` can say.
pub fn add_capped(a: u64, b: u64) -> (r: u64)
    ensures
        r == capped_sum(a, b),
{
    if a > u64::MAX - b {
        u64::MAX
    } else {
        a + b
    }
}

// ---------------------------------------------------------------------------
// Laws
// ---------------------------------------------------------------------------

/// Of an asset that was cleared nothing is downloaded and nothing went wrong; all of it is
/// still to come, and its optional files are complete only where it has none.
pub proof fn law_cleared_assets_have_everything_to_come(a: AssetView)
    ensures
        ({
            let s = StatusView::cleared(a);
            &&& s.entry_id == a.id
            &&& s.state == AssetState::NotDownloaded
            &&& s.downloaded == 0
            &&& s.total == a.estimated_bytes
            &&& s.optional_complete <==> a.optional_files == Seq::<(Seq<char>, Seq<char>)>::empty()
            &&& s.error is None
        }),
{
    if a.optional_files.len() == 0 {
        assert(a.optional_files =~= Seq::empty());
    }
}

/// A file and its part lie in the asset's directory, the part under the file's name with
/// `.part` behind it, so that neither stands in the other's way.
pub proof fn law_parts_lie_beside_their_files(a: AssetView, name: Seq<char>)
    requires
        paths::plain_name(name),
    ensures
        paths::file_name_of(a.path_of(name)) == Some(name),
        paths::file_name_of(a.part_path_of(name)) == Some(name + ".part"@),
        text::begins(a.path_of(name), a.target_dir),
        a.part_path_of(name) == a.path_of(name) + ".part"@,
{
    reveal_strlit(".part");
    reveal_strlit(".");
    reveal_strlit("..");
    reveal_strlit("/");
    let part = name + ".part"@;
    assert(!part.contains('/')) by {
        if part.contains('/') {
            let i = choose|i: int| 0 <= i < part.len() && part[i] == '/';
            if i < name.len() {
                assert(name[i] == '/');
            } else {
                assert(part[i] == ".part"@[i - name.len()]);
            }
        }
    }
    paths::law_joined_files_go_by_their_names(a.target_dir, name);
    paths::law_joined_files_go_by_their_names(a.target_dir, part);
    assert(!text::begins(name, "/"@) && !text::begins(part, "/"@)) by {
        assert(name[0] != '/');
        assert(part[0] == name[0]);
        assert(name.take(1)[0] == name[0]);
        assert(part.take(1)[0] == part[0]);
        assert("/"@[0] == '/');
    }
    assert(a.part_path_of(name) =~= a.path_of(name) + ".part"@);
}

/// Sizes are added up to what a `u64` can say, in any order.
pub proof fn law_sizes_are_added_up(a: u64, b: u64)
    ensures
        a + b <= 0xffff_ffff_ffff_ffff ==> capped_sum(a, b) == a + b,
        a + b > 0xffff_ffff_ffff_ffff ==> capped_sum(a, b) == 0xffff_ffff_ffff_ffff,
{
}

} // verus!
