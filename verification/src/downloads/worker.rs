//! The course of one download: which file comes next, what is asked of the host for it,
//! and which events tell of it.
//!
//! Files are downloaded one after the other. An essential file that fails ends the
//! download; an optional one is left out. Where every essential file is on disk and an
//! optional one is missing, only the optional ones are fetched.
use vstd::prelude::*;
use crate::assoc::AssocMap;
use crate::downloads::stream;
use crate::downloads::types;
use crate::downloads::types::{Asset, AssetEvent, AssetEventKind, AssetSource, Disk};
use crate::paths;
use crate::text;

verus! {

// ---------------------------------------------------------------------------
// The repository's manifest
// ---------------------------------------------------------------------------

/// What the repository says of one file.
pub struct HfFileInfo {
    pub size: Option<u64>,
    pub sha256: Option<String>,
}

/// What the repository says of its files.
pub struct HfManifest {
    pub per_file: AssocMap<String, HfFileInfo>,
}

/// Size and digest of a file.
pub type InfoView = (Option<u64>, Option<Seq<char>>);

impl View for HfManifest {
    type V = Map<Seq<char>, InfoView>;

    open spec fn view(&self) -> Map<Seq<char>, InfoView> {
        self.per_file@.map_values(|i: HfFileInfo| (i.size, text::opt_text(i.sha256)))
    }
}

/// What an optional manifest says.
pub open spec fn manifest_view(m: Option<HfManifest>) -> Option<Map<Seq<char>, InfoView>> {
    match m {
        Some(m) => Some(m@),
        None => None,
    }
}

/// The size of a file, where the manifest knows it.
pub open spec fn size_in(m: Map<Seq<char>, InfoView>, name: Seq<char>) -> Option<u64> {
    if m.contains_key(name) {
        m[name].0
    } else {
        None
    }
}

/// The size of a file, zero where it is not known.
pub open spec fn expected_size_in(m: Option<Map<Seq<char>, InfoView>>, name: Seq<char>) -> u64 {
    match m {
        Some(m) => match size_in(m, name) {
            Some(n) => n,
            None => 0,
        },
        None => 0,
    }
}

/// The digest of a file, where it is known.
pub open spec fn expected_sha_in(m: Option<Map<Seq<char>, InfoView>>, name: Seq<char>) -> Option<
    Seq<char>,
> {
    match m {
        Some(m) => if m.contains_key(name) {
            m[name].1
        } else {
            None
        },
        None => None,
    }
}

/// The sizes of the files together, where all of them are known.
pub open spec fn sizes_in(m: Map<Seq<char>, InfoView>, names: Seq<Seq<char>>) -> Option<u64>
    decreases names.len(),
{
    if names.len() == 0 {
        Some(0)
    } else {
        match (sizes_in(m, names.drop_last()), size_in(m, names.last())) {
            (Some(a), Some(b)) => Some(types::capped_sum(a, b)),
            _ => None,
        }
    }
}

/// The remote names of the optional files.
pub open spec fn remotes_of(a: types::AssetView) -> Seq<Seq<char>> {
    Seq::new(a.optional_files.len(), |i: int| a.optional_files[i].0)
}

/// Bytes expected of a whole download: what the manifest says where it knows every
/// file, else the estimate.
pub open spec fn total_of(a: types::AssetView, m: Option<Map<Seq<char>, InfoView>>) -> u64 {
    match m {
        Some(m) => match sizes_in(m, a.files + remotes_of(a)) {
            Some(n) => n,
            None => a.estimated_bytes,
        },
        None => a.estimated_bytes,
    }
}

/// Bytes expected of the optional files alone, zero where the manifest does not know
/// them all.
pub open spec fn optional_total_of(a: types::AssetView, m: Option<Map<Seq<char>, InfoView>>) -> u64 {
    match m {
        Some(m) => match sizes_in(m, remotes_of(a)) {
            Some(n) => n,
            None => 0,
        },
        None => 0,
    }
}

impl HfManifest {
    /// No file occurs twice.
    pub open spec fn wf(&self) -> bool {
        self.per_file.wf()
    }

    /// The size of a file, where it is known.
    pub fn size(&self, name: &str) -> (r: Option<u64>)
        requires
            self.wf(),
        ensures
            r == size_in(self@, name@),
    {
        match self.per_file.get(&name.to_string()) {
            Some(i) => i.size,
            None => None,
        }
    }

    /// The digest of a file, where it is known.
    pub fn sha256(&self, name: &str) -> (r: Option<String>)
        requires
            self.wf(),
        ensures
            text::opt_text(r) == expected_sha_in(Some(self@), name@),
    {
        match self.per_file.get(&name.to_string()) {
            Some(i) => match &i.sha256 {
                Some(s) => Some(s.clone()),
                None => None,
            },
            None => None,
        }
    }
}

proof fn lemma_sizes_unknown(m: Map<Seq<char>, InfoView>, names: Seq<Seq<char>>, i: int)
    requires
        0 <= i < names.len(),
        size_in(m, names[i]) is None,
    ensures
        sizes_in(m, names) is None,
    decreases names.len(),
{
    if i < names.len() - 1 {
        lemma_sizes_unknown(m, names.drop_last(), i);
    }
}

/// Bytes expected of a whole download.
pub fn compute_total_hf(asset: &Asset, manifest: &Option<HfManifest>) -> (r: u64)
    requires
        manifest matches Some(m) ==> m.wf(),
    ensures
        r == total_of(asset@, manifest_view(*manifest)),
{
    match manifest {
        None => asset.estimated_bytes,
        Some(m) => {
            let ghost names = asset@.files + remotes_of(asset@);
            let mut sum: u64 = 0;
            let mut i: usize = 0;
            while i < asset.files.len()
                invariant
                    i <= asset.files@.len(),
                    m.wf(),
                    names == asset@.files + remotes_of(asset@),
                    sizes_in(m@, names.take(i as int)) == Some(sum),
                    manifest_view(*manifest) == Some(m@),
                decreases asset.files@.len() - i,
            {
                assert(names[i as int] == asset.files@[i as int]@);
                assert(names.take(i + 1).drop_last() =~= names.take(i as int));
                match m.size(asset.files[i].as_str()) {
                    Some(n) => {
                        sum = types::add_capped(sum, n);
                    },
                    None => {
                        proof {
                            lemma_sizes_unknown(m@, names, i as int);
                        }
                        return asset.estimated_bytes;
                    },
                }
                i += 1;
            }
            let mut j: usize = 0;
            let ghost n = asset.files@.len() as int;
            while j < asset.optional_files.len()
                invariant
                    j <= asset.optional_files@.len(),
                    n == asset.files@.len(),
                    m.wf(),
                    names == asset@.files + remotes_of(asset@),
                    sizes_in(m@, names.take(n + j)) == Some(sum),
                    manifest_view(*manifest) == Some(m@),
                decreases asset.optional_files@.len() - j,
            {
                assert(names[n + j] == asset.optional_files@[j as int].remote_name@);
                assert(names.take(n + j + 1).drop_last() =~= names.take(n + j));
                match m.size(asset.optional_files[j].remote_name.as_str()) {
                    Some(k) => {
                        sum = types::add_capped(sum, k);
                    },
                    None => {
                        proof {
                            lemma_sizes_unknown(m@, names, n + j);
                        }
                        return asset.estimated_bytes;
                    },
                }
                j += 1;
            }
            assert(names.take(n + j) =~= names);
            sum
        },
    }
}

/// Bytes expected of the optional files alone.
pub fn compute_total_optional_hf(asset: &Asset, manifest: &Option<HfManifest>) -> (r: u64)
    requires
        manifest matches Some(m) ==> m.wf(),
    ensures
        r == optional_total_of(asset@, manifest_view(*manifest)),
{
    match manifest {
        None => 0,
        Some(m) => {
            let ghost names = remotes_of(asset@);
            let mut sum: u64 = 0;
            let mut j: usize = 0;
            while j < asset.optional_files.len()
                invariant
                    j <= asset.optional_files@.len(),
                    m.wf(),
                    names == remotes_of(asset@),
                    sizes_in(m@, names.take(j as int)) == Some(sum),
                    manifest_view(*manifest) == Some(m@),
                decreases asset.optional_files@.len() - j,
            {
                assert(names[j as int] == asset.optional_files@[j as int].remote_name@);
                assert(names.take(j + 1).drop_last() =~= names.take(j as int));
                match m.size(asset.optional_files[j].remote_name.as_str()) {
                    Some(k) => {
                        sum = types::add_capped(sum, k);
                    },
                    None => {
                        proof {
                            lemma_sizes_unknown(m@, names, j as int);
                        }
                        return 0;
                    },
                }
                j += 1;
            }
            assert(names.take(j as int) =~= names);
            sum
        },
    }
}

// ---------------------------------------------------------------------------
// The course of a download
// ---------------------------------------------------------------------------

/// Where a download stands. The number is that of the file.
#[derive(Clone, Copy, Debug, PartialEq, Eq, Structural)]
pub enum HfPhase {
    ProbeEssential(usize),
    StreamEssential(usize),
    RenameEssential(usize, bool),
    ProbeOptional(usize),
    StreamOptional(usize),
    RenameOptional(usize, bool),
    RemoveOptional(usize),
    CheckOptionals,
    Done,
}

/// How the streaming of a file ended.
pub enum StreamOutcome {
    /// The partial file is whole and holds `part_bytes`.
    Completed { sha256_ok: bool, part_bytes: u64 },
    /// The user stopped it, with so many bytes of the asset on disk.
    Paused { downloaded: u64 },
    Failed { error: String },
}

/// What the host reports back.
pub enum HfInput {
    /// The size of what stands at the path, and whether the user has stopped the
    /// download by then.
    Probed { len: Option<u64>, cancelled: bool },
    Streamed(StreamOutcome),
    Renamed(Result<(), String>),
    Removed,
    /// Whether every path is a regular file.
    Checked(bool),
}

/// What the host does next.
pub enum HfWork {
    Probe { path: String },
    Stream {
        url: String,
        part_path: String,
        expected_size: u64,
        expected_sha256: Option<String>,
    },
    Rename { from: String, to: String },
    Remove { path: String },
    CheckFiles { paths: Vec<String> },
    Finish(Result<(), String>),
}

/// An event to tell of, and what the host does next.
pub struct HfStep {
    pub event: Option<AssetEvent>,
    pub work: HfWork,
}

/// How the streaming of a file ended.
pub enum OutcomeView {
    Completed { sha256_ok: bool, part_bytes: u64 },
    Paused { downloaded: u64 },
    Failed { error: Seq<char> },
}

/// What the host reports back.
pub enum InputView {
    Probed { len: Option<u64>, cancelled: bool },
    Streamed(OutcomeView),
    Renamed(Result<(), Seq<char>>),
    Removed,
    Checked(bool),
}

/// What the host does next.
pub enum WorkView {
    Probe { path: Seq<char> },
    Stream {
        url: Seq<char>,
        part_path: Seq<char>,
        expected_size: u64,
        expected_sha256: Option<Seq<char>>,
    },
    Rename { from: Seq<char>, to: Seq<char> },
    Remove { path: Seq<char> },
    CheckFiles { paths: Seq<Seq<char>> },
    Finish(Result<(), Seq<char>>),
}

/// The text of an outcome that may be an error.
pub open spec fn result_text(r: Result<(), String>) -> Result<(), Seq<char>> {
    match r {
        Ok(()) => Ok(()),
        Err(e) => Err(e@),
    }
}

impl View for HfInput {
    type V = InputView;

    open spec fn view(&self) -> InputView {
        match self {
            HfInput::Probed { len, cancelled } => InputView::Probed {
                len: *len,
                cancelled: *cancelled,
            },
            HfInput::Streamed(StreamOutcome::Completed { sha256_ok, part_bytes }) =>
                InputView::Streamed(
                OutcomeView::Completed { sha256_ok: *sha256_ok, part_bytes: *part_bytes },
            ),
            HfInput::Streamed(StreamOutcome::Paused { downloaded }) => InputView::Streamed(
                OutcomeView::Paused { downloaded: *downloaded },
            ),
            HfInput::Streamed(StreamOutcome::Failed { error }) => InputView::Streamed(
                OutcomeView::Failed { error: error@ },
            ),
            HfInput::Renamed(r) => InputView::Renamed(result_text(*r)),
            HfInput::Removed => InputView::Removed,
            HfInput::Checked(b) => InputView::Checked(*b),
        }
    }
}

impl View for HfWork {
    type V = WorkView;

    open spec fn view(&self) -> WorkView {
        match self {
            HfWork::Probe { path } => WorkView::Probe { path: path@ },
            HfWork::Stream { url, part_path, expected_size, expected_sha256 } => WorkView::Stream {
                url: url@,
                part_path: part_path@,
                expected_size: *expected_size,
                expected_sha256: text::opt_text(*expected_sha256),
            },
            HfWork::Rename { from, to } => WorkView::Rename { from: from@, to: to@ },
            HfWork::Remove { path } => WorkView::Remove { path: path@ },
            HfWork::CheckFiles { paths } => WorkView::CheckFiles { paths: text::texts(paths@) },
            HfWork::Finish(r) => WorkView::Finish(result_text(*r)),
        }
    }
}

/// An event to tell of, and what the host does next.
pub struct StepView {
    pub event: Option<types::KindView>,
    pub work: WorkView,
}

/// What a download is and where it stands.
#[verifier::ext_equal]
pub struct RunView {
    pub asset: types::AssetView,
    pub manifest: Option<Map<Seq<char>, InfoView>>,
    pub top_up: bool,
    pub total_expected: u64,
    pub accumulated: u64,
    pub any_sha_verified: bool,
    pub phase: HfPhase,
}

/// Where a file of a repository is fetched from.
pub open spec fn url_of(repo: Seq<char>, file: Seq<char>) -> Seq<char> {
    "https://huggingface.co/"@ + repo + "/resolve/main/"@ + file
}

impl RunView {
    /// The phase belongs to a file of the asset.
    pub open spec fn wf(self) -> bool {
        &&& self.asset.files.len() > 0
        &&& match self.phase {
            HfPhase::ProbeEssential(i)
            | HfPhase::StreamEssential(i)
            | HfPhase::RenameEssential(i, _) => i < self.asset.files.len() && !self.top_up,
            HfPhase::ProbeOptional(i)
            | HfPhase::StreamOptional(i)
            | HfPhase::RenameOptional(i, _)
            | HfPhase::RemoveOptional(i) => i < self.asset.optional_files.len(),
            HfPhase::CheckOptionals | HfPhase::Done => true,
        }
    }

    pub open spec fn at(self, phase: HfPhase) -> RunView {
        RunView { phase, ..self }
    }

    /// The local paths of the optional files.
    pub open spec fn optional_paths(self) -> Seq<Seq<char>> {
        Seq::new(
            self.asset.optional_files.len(),
            |i: int| self.asset.path_of(self.asset.optional_files[i].1),
        )
    }

    /// On to the `i`th optional file, or to the end where there is none.
    pub open spec fn to_optional(self, i: usize) -> (RunView, WorkView) {
        if i < self.asset.optional_files.len() {
            (
                self.at(HfPhase::ProbeOptional(i)),
                WorkView::Probe { path: self.asset.path_of(self.asset.optional_files[i as int].1) },
            )
        } else {
            (
                self.at(HfPhase::CheckOptionals),
                WorkView::CheckFiles { paths: self.optional_paths() },
            )
        }
    }

    /// On to the `i`th essential file, or to the optional ones where there is none.
    pub open spec fn to_essential(self, i: usize) -> (RunView, WorkView) {
        if i < self.asset.files.len() {
            (
                self.at(HfPhase::ProbeEssential(i)),
                WorkView::Probe { path: self.asset.path_of(self.asset.files[i as int]) },
            )
        } else {
            self.to_optional(0)
        }
    }

    /// Streaming a file that is called `remote` in the repository and `local` on disk.
    pub open spec fn streaming(self, remote: Seq<char>, local: Seq<char>) -> WorkView {
        WorkView::Stream {
            url: url_of(self.asset.repo, remote),
            part_path: self.asset.part_path_of(local),
            expected_size: expected_size_in(self.manifest, remote),
            expected_sha256: expected_sha_in(self.manifest, remote),
        }
    }

    /// Giving a whole partial file its name.
    pub open spec fn renaming(self, local: Seq<char>) -> WorkView {
        WorkView::Rename { from: self.asset.part_path_of(local), to: self.asset.path_of(local) }
    }

    /// More bytes are on disk.
    pub open spec fn with_bytes(self, n: u64) -> RunView {
        RunView { accumulated: types::capped_sum(self.accumulated, n), ..self }
    }

    /// Whether some file was held against its digest.
    pub open spec fn with_check(self, ok: bool) -> RunView {
        RunView { any_sha_verified: self.any_sha_verified || ok, ..self }
    }

    /// The end of a download that was stopped.
    pub open spec fn stopped(self, downloaded: u64) -> (RunView, StepView) {
        (
            self.at(HfPhase::Done),
            StepView {
                event: Some(
                    types::KindView::Paused { downloaded, total: self.total_expected },
                ),
                work: WorkView::Finish(Ok(())),
            },
        )
    }

    /// What the host may report in a phase.
    pub open spec fn accepts(self, input: InputView) -> bool {
        match self.phase {
            HfPhase::ProbeEssential(_) | HfPhase::ProbeOptional(_) => input is Probed,
            HfPhase::StreamEssential(_) | HfPhase::StreamOptional(_) => input is Streamed,
            HfPhase::RenameEssential(_, _) | HfPhase::RenameOptional(_, _) => input is Renamed,
            HfPhase::RemoveOptional(_) => input is Removed,
            HfPhase::CheckOptionals => input is Checked,
            HfPhase::Done => false,
        }
    }

    /// How a download goes on.
    pub open spec fn next(self, input: InputView) -> (RunView, StepView) {
        match (self.phase, input) {
            (HfPhase::ProbeEssential(i), InputView::Probed { len, .. }) => match len {
                Some(n) => quiet(self.with_bytes(n).to_essential((i + 1) as usize)),
                None => quiet(
                    (
                        self.at(HfPhase::StreamEssential(i)),
                        self.streaming(self.asset.files[i as int], self.asset.files[i as int]),
                    ),
                ),
            },
            (HfPhase::StreamEssential(i), InputView::Streamed(o)) => match o {
                OutcomeView::Completed { sha256_ok, part_bytes } => quiet(
                    (
                        self.with_bytes(part_bytes).at(HfPhase::RenameEssential(i, sha256_ok)),
                        self.renaming(self.asset.files[i as int]),
                    ),
                ),
                OutcomeView::Paused { downloaded } => self.stopped(downloaded),
                OutcomeView::Failed { error } => (
                    self.at(HfPhase::Done),
                    StepView {
                        event: Some(
                            types::KindView::Failed { error, retryable: stream::passing(error) },
                        ),
                        work: WorkView::Finish(Err(error)),
                    },
                ),
            },
            (HfPhase::RenameEssential(i, ok), InputView::Renamed(r)) => match r {
                Ok(()) => quiet(self.with_check(ok).to_essential((i + 1) as usize)),
                Err(e) => quiet((self.at(HfPhase::Done), WorkView::Finish(Err(e)))),
            },
            (HfPhase::ProbeOptional(i), InputView::Probed { len, cancelled }) => if len is Some {
                quiet(self.to_optional((i + 1) as usize))
            } else if cancelled {
                self.stopped(self.accumulated)
            } else {
                quiet(
                    (
                        self.at(HfPhase::StreamOptional(i)),
                        self.streaming(
                            self.asset.optional_files[i as int].0,
                            self.asset.optional_files[i as int].1,
                        ),
                    ),
                )
            },
            (HfPhase::StreamOptional(i), InputView::Streamed(o)) => match o {
                OutcomeView::Completed { sha256_ok, part_bytes } => quiet(
                    (
                        self.with_bytes(part_bytes).at(HfPhase::RenameOptional(i, sha256_ok)),
                        self.renaming(self.asset.optional_files[i as int].1),
                    ),
                ),
                OutcomeView::Paused { downloaded } => self.stopped(downloaded),
                OutcomeView::Failed { .. } => quiet(
                    (
                        self.at(HfPhase::RemoveOptional(i)),
                        WorkView::Remove {
                            path: self.asset.part_path_of(self.asset.optional_files[i as int].1),
                        },
                    ),
                ),
            },
            (HfPhase::RenameOptional(i, ok), InputView::Renamed(_)) => quiet(
                self.with_check(ok).to_optional((i + 1) as usize),
            ),
            (HfPhase::RemoveOptional(i), InputView::Removed) => quiet(
                self.to_optional((i + 1) as usize),
            ),
            (HfPhase::CheckOptionals, InputView::Checked(all)) => (
                self.at(HfPhase::Done),
                StepView {
                    event: Some(
                        types::KindView::Completed {
                            downloaded: self.accumulated,
                            path: self.asset.path_of(self.asset.files[0]),
                            sha256_verified: self.any_sha_verified,
                            optional_complete: all,
                        },
                    ),
                    work: WorkView::Finish(Ok(())),
                },
            ),
            _ => quiet((self, WorkView::Finish(Ok(())))),
        }
    }

    /// An upper bound on the steps still to come.
    pub open spec fn steps_left(self) -> int {
        let f = self.asset.files.len();
        let o = self.asset.optional_files.len();
        match self.phase {
            HfPhase::ProbeEssential(i) => 1 + 3 * o + 3 * (f - i),
            HfPhase::StreamEssential(i) => 3 * o + 3 * (f - i),
            HfPhase::RenameEssential(i, _) => 3 * o + 3 * (f - i) - 1,
            HfPhase::ProbeOptional(i) => 1 + 3 * (o - i),
            HfPhase::StreamOptional(i) => 3 * (o - i),
            HfPhase::RenameOptional(i, _) => 3 * (o - i) - 1,
            HfPhase::RemoveOptional(i) => 3 * (o - i) - 1,
            HfPhase::CheckOptionals => 1,
            HfPhase::Done => 0,
        }
    }

    /// How many of the essential files are known to be on disk.
    pub open spec fn essentials_done(self) -> int {
        match self.phase {
            HfPhase::ProbeEssential(i)
            | HfPhase::StreamEssential(i)
            | HfPhase::RenameEssential(i, _) => i as int,
            _ => self.asset.files.len() as int,
        }
    }
}

/// A step without an event.
pub open spec fn quiet(p: (RunView, WorkView)) -> (RunView, StepView) {
    (p.0, StepView { event: None, work: p.1 })
}

/// Every essential file stands on the disk.
pub open spec fn essentials_on(
    a: types::AssetView,
    disk: Map<Seq<char>, types::DiskEntry>,
) -> bool {
    forall|i: int| 0 <= i < a.files.len() ==> disk.contains_key(a.path_of(#[trigger] a.files[i]))
}

/// Some optional file is missing on the disk.
pub open spec fn optional_missing_on(
    a: types::AssetView,
    disk: Map<Seq<char>, types::DiskEntry>,
) -> bool {
    exists|i: int|
        0 <= i < a.optional_files.len() && !disk.contains_key(
            a.path_of((#[trigger] a.optional_files[i]).1),
        )
}

/// How a download begins.
pub open spec fn begun(
    a: types::AssetView,
    manifest: Option<Map<Seq<char>, InfoView>>,
    disk: Map<Seq<char>, types::DiskEntry>,
) -> (RunView, StepView) {
    let top_up = essentials_on(a, disk) && optional_missing_on(a, disk);
    let total = if top_up {
        optional_total_of(a, manifest)
    } else {
        total_of(a, manifest)
    };
    let start = RunView {
        asset: a,
        manifest,
        top_up,
        total_expected: total,
        accumulated: 0,
        any_sha_verified: false,
        phase: HfPhase::Done,
    };
    let (run, work) = if top_up {
        start.to_optional(0)
    } else {
        start.to_essential(0)
    };
    (run, StepView { event: Some(types::KindView::Started { total }), work })
}

/// A download and where it stands.
pub struct HfRun {
    pub asset: Asset,
    pub manifest: Option<HfManifest>,
    pub top_up: bool,
    pub total_expected: u64,
    pub accumulated: u64,
    pub any_sha_verified: bool,
    pub phase: HfPhase,
}

impl View for HfRun {
    type V = RunView;

    open spec fn view(&self) -> RunView {
        RunView {
            asset: self.asset@,
            manifest: manifest_view(self.manifest),
            top_up: self.top_up,
            total_expected: self.total_expected,
            accumulated: self.accumulated,
            any_sha_verified: self.any_sha_verified,
            phase: self.phase,
        }
    }
}

impl HfStep {
    /// The step tells of the asset with the id what the view says.
    pub open spec fn says(&self, id: Seq<char>, v: StepView) -> bool {
        &&& self.work@ == v.work
        &&& match (self.event, v.event) {
            (Some(e), Some(k)) => e.entry_id@ == id && e.kind@ == k,
            (None, None) => true,
            _ => false,
        }
    }
}

impl HfRun {
    /// The phase belongs to a file, and the manifest is sound.
    pub open spec fn wf(&self) -> bool {
        &&& self@.wf()
        &&& self.manifest matches Some(m) ==> m.wf()
    }

    /// Begins a download. `disk` tells what stands at the final paths of its files.
    pub fn begin(asset: Asset, manifest: Option<HfManifest>, disk: &Disk) -> (r: (HfRun, HfStep))
        requires
            asset.files@.len() > 0,
            manifest matches Some(m) ==> m.wf(),
            disk.wf(),
        ensures
            r.0.wf(),
            r.0@ == begun(asset@, manifest_view(manifest), disk@).0,
            r.1.says(asset.id@, begun(asset@, manifest_view(manifest), disk@).1),
    {
        let mut all_essentials = true;
        let mut i: usize = 0;
        while i < asset.files.len() && all_essentials
            invariant
                i <= asset.files@.len(),
                disk.wf(),
                all_essentials ==> forall|k: int|
                    0 <= k < i ==> disk@.contains_key(asset@.path_of(#[trigger] asset@.files[k])),
                !all_essentials ==> !essentials_on(asset@, disk@),
            decreases asset.files@.len() - i,
        {
            assert(asset@.files[i as int] == asset.files@[i as int]@);
            if disk.at(asset.file_path(asset.files[i].as_str()).as_str()).is_none() {
                all_essentials = false;
            }
            i += 1;
        }
        let mut missing = false;
        let mut j: usize = 0;
        while j < asset.optional_files.len() && !missing
            invariant
                j <= asset.optional_files@.len(),
                disk.wf(),
                !missing ==> forall|k: int|
                    0 <= k < j ==> disk@.contains_key(
                        asset@.path_of((#[trigger] asset@.optional_files[k]).1),
                    ),
                missing ==> optional_missing_on(asset@, disk@),
            decreases asset.optional_files@.len() - j,
        {
            assert(asset@.optional_files[j as int].1 == asset.optional_files@[j as int].local_name@);
            if disk.at(
                asset.file_path(asset.optional_files[j].local_name.as_str()).as_str(),
            ).is_none() {
                missing = true;
            }
            j += 1;
        }
        let top_up = all_essentials && missing;
        let total: u64 = if top_up {
            compute_total_optional_hf(&asset, &manifest)
        } else {
            compute_total_hf(&asset, &manifest)
        };
        let event = Some(
            AssetEvent {
                entry_id: asset.id.clone(),
                kind: AssetEventKind::Started { total },
            },
        );
        let mut run = HfRun {
            asset,
            manifest,
            top_up,
            total_expected: total,
            accumulated: 0,
            any_sha_verified: false,
            phase: HfPhase::Done,
        };
        assert(top_up == (essentials_on(asset@, disk@) && optional_missing_on(asset@, disk@)));
        let work = if top_up {
            run.to_optional(0)
        } else {
            run.to_essential(0)
        };
        (run, HfStep { event, work })
    }

    fn to_optional(&mut self, i: usize) -> (w: HfWork)
        ensures
            (final(self)@, w@) == old(self)@.to_optional(i),
            final(self).asset@ == old(self).asset@,
            final(self).manifest == old(self).manifest,
    {
        if i < self.asset.optional_files.len() {
            self.phase = HfPhase::ProbeOptional(i);
            assert(self.asset@.optional_files[i as int].1 == self.asset.optional_files@[i as int].local_name@);
            HfWork::Probe {
                path: self.asset.file_path(self.asset.optional_files[i].local_name.as_str()),
            }
        } else {
            self.phase = HfPhase::CheckOptionals;
            let mut paths: Vec<String> = Vec::new();
            let mut k: usize = 0;
            while k < self.asset.optional_files.len()
                invariant
                    k <= self.asset.optional_files@.len(),
                    text::texts(paths@) == self@.optional_paths().take(k as int),
                decreases self.asset.optional_files@.len() - k,
            {
                let ghost before = paths@;
                let p = self.asset.file_path(self.asset.optional_files[k].local_name.as_str());
                paths.push(p);
                assert(self@.optional_paths()[k as int] == p@);
                assert(text::texts(paths@) =~= text::texts(before).push(p@));
                k += 1;
                assert(text::texts(paths@) =~= self@.optional_paths().take(k as int));
            }
            assert(text::texts(paths@) =~= old(self)@.optional_paths());
            HfWork::CheckFiles { paths }
        }
    }

    fn to_essential(&mut self, i: usize) -> (w: HfWork)
        ensures
            (final(self)@, w@) == old(self)@.to_essential(i),
            final(self).asset@ == old(self).asset@,
            final(self).manifest == old(self).manifest,
    {
        if i < self.asset.files.len() {
            self.phase = HfPhase::ProbeEssential(i);
            assert(self.asset@.files[i as int] == self.asset.files@[i as int]@);
            HfWork::Probe { path: self.asset.file_path(self.asset.files[i].as_str()) }
        } else {
            self.to_optional(0)
        }
    }

    fn streaming(&self, remote: &str, local: &str) -> (w: HfWork)
        requires
            self.wf(),
        ensures
            w@ == self@.streaming(remote@, local@),
    {
        let mut url = "https://huggingface.co/".to_string();
        match &self.asset.source {
            AssetSource::HuggingFace { repo } => {
                url.append(repo.as_str());
            },
        }
        url.append("/resolve/main/");
        url.append(remote);
        let expected_size: u64 = match &self.manifest {
            Some(m) => match m.size(remote) {
                Some(n) => n,
                None => 0,
            },
            None => 0,
        };
        let expected_sha256 = match &self.manifest {
            Some(m) => m.sha256(remote),
            None => None,
        };
        HfWork::Stream { url, part_path: self.asset.part_path(local), expected_size, expected_sha256 }
    }

    fn renaming(&self, local: &str) -> (w: HfWork)
        ensures
            w@ == self@.renaming(local@),
    {
        HfWork::Rename { from: self.asset.part_path(local), to: self.asset.file_path(local) }
    }

    fn stopped(&mut self, downloaded: u64) -> (s: HfStep)
        ensures
            final(self)@ == old(self)@.stopped(downloaded).0,
            s.says(old(self)@.asset.id, old(self)@.stopped(downloaded).1),
            final(self).manifest == old(self).manifest,
    {
        self.phase = HfPhase::Done;
        HfStep {
            event: Some(
                AssetEvent {
                    entry_id: self.asset.id.clone(),
                    kind: AssetEventKind::Paused { downloaded, total: self.total_expected },
                },
            ),
            work: HfWork::Finish(Ok(())),
        }
    }

    /// Takes in what the host reports and says how the download goes on.
    pub fn step(&mut self, input: HfInput) -> (s: HfStep)
        requires
            old(self).wf(),
            old(self)@.accepts(input@),
        ensures
            final(self).wf(),
            final(self)@ == old(self)@.next(input@).0,
            s.says(old(self)@.asset.id, old(self)@.next(input@).1),
    {
        assert(self.asset@.files.len() == self.asset.files.len());
        assert(self.asset@.optional_files.len() == self.asset.optional_files.len());
        match self.phase {
            HfPhase::ProbeEssential(i) => {
                assert(self.asset@.files[i as int] == self.asset.files@[i as int]@);
                match input {
                    HfInput::Probed { len: Some(n), .. } => {
                        self.accumulated = types::add_capped(self.accumulated, n);
                        HfStep { event: None, work: self.to_essential(i + 1) }
                    },
                    _ => {
                        self.phase = HfPhase::StreamEssential(i);
                        let file = self.asset.files[i].as_str();
                        HfStep { event: None, work: self.streaming(file, file) }
                    },
                }
            },
            HfPhase::StreamEssential(i) => {
                assert(self.asset@.files[i as int] == self.asset.files@[i as int]@);
                match input {
                    HfInput::Streamed(StreamOutcome::Completed { sha256_ok, part_bytes }) => {
                        self.accumulated = types::add_capped(self.accumulated, part_bytes);
                        self.phase = HfPhase::RenameEssential(i, sha256_ok);
                        HfStep { event: None, work: self.renaming(self.asset.files[i].as_str()) }
                    },
                    HfInput::Streamed(StreamOutcome::Paused { downloaded }) => self.stopped(
                        downloaded,
                    ),
                    HfInput::Streamed(StreamOutcome::Failed { error }) => {
                        self.phase = HfPhase::Done;
                        let retryable = stream::is_retryable(error.as_str());
                        HfStep {
                            event: Some(
                                AssetEvent {
                                    entry_id: self.asset.id.clone(),
                                    kind: AssetEventKind::Failed { error: error.clone(), retryable },
                                },
                            ),
                            work: HfWork::Finish(Err(error)),
                        }
                    },
                    _ => HfStep { event: None, work: HfWork::Finish(Ok(())) },
                }
            },
            HfPhase::RenameEssential(i, ok) => match input {
                HfInput::Renamed(Ok(())) => {
                    self.any_sha_verified = self.any_sha_verified || ok;
                    HfStep { event: None, work: self.to_essential(i + 1) }
                },
                HfInput::Renamed(Err(e)) => {
                    self.phase = HfPhase::Done;
                    HfStep { event: None, work: HfWork::Finish(Err(e)) }
                },
                _ => HfStep { event: None, work: HfWork::Finish(Ok(())) },
            },
            HfPhase::ProbeOptional(i) => {
                assert(self.asset@.optional_files[i as int] == (
                    self.asset.optional_files@[i as int].remote_name@,
                    self.asset.optional_files@[i as int].local_name@,
                ));
                match input {
                    HfInput::Probed { len: Some(_), .. } => {
                        HfStep { event: None, work: self.to_optional(i + 1) }
                    },
                    HfInput::Probed { len: None, cancelled } => {
                        if cancelled {
                            self.stopped(self.accumulated)
                        } else {
                            self.phase = HfPhase::StreamOptional(i);
                            let work = self.streaming(
                                self.asset.optional_files[i].remote_name.as_str(),
                                self.asset.optional_files[i].local_name.as_str(),
                            );
                            HfStep { event: None, work }
                        }
                    },
                    _ => HfStep { event: None, work: HfWork::Finish(Ok(())) },
                }
            },
            HfPhase::StreamOptional(i) => {
                assert(self.asset@.optional_files[i as int].1
                    == self.asset.optional_files@[i as int].local_name@);
                match input {
                    HfInput::Streamed(StreamOutcome::Completed { sha256_ok, part_bytes }) => {
                        self.accumulated = types::add_capped(self.accumulated, part_bytes);
                        self.phase = HfPhase::RenameOptional(i, sha256_ok);
                        HfStep {
                            event: None,
                            work: self.renaming(self.asset.optional_files[i].local_name.as_str()),
                        }
                    },
                    HfInput::Streamed(StreamOutcome::Paused { downloaded }) => self.stopped(
                        downloaded,
                    ),
                    HfInput::Streamed(StreamOutcome::Failed { .. }) => {
                        self.phase = HfPhase::RemoveOptional(i);
                        HfStep {
                            event: None,
                            work: HfWork::Remove {
                                path: self.asset.part_path(
                                    self.asset.optional_files[i].local_name.as_str(),
                                ),
                            },
                        }
                    },
                    _ => HfStep { event: None, work: HfWork::Finish(Ok(())) },
                }
            },
            HfPhase::RenameOptional(i, ok) => {
                self.any_sha_verified = self.any_sha_verified || ok;
                HfStep { event: None, work: self.to_optional(i + 1) }
            },
            HfPhase::RemoveOptional(i) => {
                HfStep { event: None, work: self.to_optional(i + 1) }
            },
            HfPhase::CheckOptionals => {
                let all = match input {
                    HfInput::Checked(b) => b,
                    _ => false,
                };
                self.phase = HfPhase::Done;
                assert(self.asset@.files[0] == self.asset.files@[0]@);
                HfStep {
                    event: Some(
                        AssetEvent {
                            entry_id: self.asset.id.clone(),
                            kind: AssetEventKind::Completed {
                                downloaded: self.accumulated,
                                path: self.asset.file_path(self.asset.files[0].as_str()),
                                sha256_verified: self.any_sha_verified,
                                optional_complete: all,
                            },
                        },
                    ),
                    work: HfWork::Finish(Ok(())),
                }
            },
            HfPhase::Done => HfStep { event: None, work: HfWork::Finish(Ok(())) },
        }
    }
}

// ---------------------------------------------------------------------------
// Laws
// ---------------------------------------------------------------------------

/// A download comes to an end: whatever the host reports, fewer steps are left, and the
/// phase still belongs to a file. Once it is done the host is told to finish.
pub proof fn law_download_ends(run: RunView, input: InputView)
    requires
        run.wf(),
        run.accepts(input),
        run.asset.files.len() < usize::MAX,
        run.asset.optional_files.len() < usize::MAX,
    ensures
        run.next(input).0.wf(),
        0 <= run.next(input).0.steps_left() < run.steps_left(),
        run.next(input).0.phase == HfPhase::Done <==> run.next(input).1.work is Finish,
{
}

/// An event ends a download: the only events after the first are `Paused`, `Failed` and
/// `Completed`, and each of them is the last.
pub proof fn law_events_are_final(run: RunView, input: InputView)
    requires
        run.wf(),
        run.accepts(input),
        run.next(input).1.event is Some,
    ensures
        run.next(input).0.phase == HfPhase::Done,
        run.next(input).1.event matches Some(e) && (e is Paused || e is Failed || e is Completed),
{
}

/// A download is reported as completed only when every essential file is on disk, and
/// it gets one file further only when that file was found or was received and renamed.
pub proof fn law_completion_needs_every_file(run: RunView, input: InputView)
    requires
        run.wf(),
        run.accepts(input),
        run.asset.files.len() < usize::MAX,
        run.asset.optional_files.len() < usize::MAX,
    ensures
        run.next(input).1.event matches Some(types::KindView::Completed { .. })
            ==> run.essentials_done() == run.asset.files.len(),
        run.next(input).0.phase != HfPhase::Done && run.next(input).0.essentials_done()
            != run.essentials_done() ==> {
            &&& run.next(input).0.essentials_done() == run.essentials_done() + 1
            &&& match run.phase {
                HfPhase::ProbeEssential(_) => input matches InputView::Probed { len: Some(_), .. },
                HfPhase::RenameEssential(_, _) => input matches InputView::Renamed(Ok(_)),
                _ => false,
            }
        },
{
}

/// Where only optional files are fetched, no essential file is touched.
pub proof fn law_top_up_leaves_essentials_alone(run: RunView, input: InputView)
    requires
        run.wf(),
        run.accepts(input),
        run.top_up,
        run.asset.optional_files.len() < usize::MAX,
    ensures
        run.next(input).0.top_up,
        run.next(input).0.wf(),
        !(run.next(input).0.phase is ProbeEssential),
        !(run.next(input).0.phase is StreamEssential),
        !(run.next(input).0.phase is RenameEssential),
{
}

/// No trouble with an optional file fails a download.
pub proof fn law_optional_files_never_fail(run: RunView, input: InputView)
    requires
        run.wf(),
        run.accepts(input),
        run.phase is ProbeOptional || run.phase is StreamOptional || run.phase is RenameOptional
            || run.phase is RemoveOptional || run.phase is CheckOptionals,
    ensures
        !(run.next(input).1.event matches Some(types::KindView::Failed { .. })),
        !(run.next(input).1.work matches WorkView::Finish(Err(_))),
{
}

/// A download that begins is well formed, tells how many bytes it expects and has
/// something for the host to do.
pub proof fn law_download_begins(
    a: types::AssetView,
    manifest: Option<Map<Seq<char>, InfoView>>,
    disk: Map<Seq<char>, types::DiskEntry>,
)
    requires
        a.files.len() > 0,
    ensures
        begun(a, manifest, disk).0.wf(),
        begun(a, manifest, disk).1.event == Some(
            types::KindView::Started { total: begun(a, manifest, disk).0.total_expected },
        ),
        !(begun(a, manifest, disk).1.work is Finish),
{
}

/// The name that a file goes by in the repository while it is streamed, and on disk.
pub open spec fn streamed_names(run: RunView) -> Option<(Seq<char>, Seq<char>)> {
    match run.phase {
        HfPhase::StreamEssential(i) => Some((run.asset.files[i as int], run.asset.files[i as int])),
        HfPhase::StreamOptional(i) => Some(run.asset.optional_files[i as int]),
        _ => None,
    }
}

/// What is streamed is a file that the asset lists: it comes from the repository's address
/// of its remote name, its size and digest are what the manifest says of that name, and its
/// bytes go to the local name's partial file. So nothing is asked for that the download's
/// total does not count.
pub proof fn law_streams_fetch_listed_files(run: RunView, input: InputView)
    requires
        run.wf(),
        run.accepts(input),
    ensures
        run.next(input).1.work is Stream <==> streamed_names(run.next(input).0) is Some,
        run.next(input).1.work matches WorkView::Stream {
            url,
            part_path,
            expected_size,
            expected_sha256,
        } ==> {
            let (remote, local) = streamed_names(run.next(input).0)->0;
            &&& run.next(input).0.asset == run.asset && run.next(input).0.manifest == run.manifest
            &&& run.next(input).0.phase matches HfPhase::StreamEssential(i) ==> i
                < run.asset.files.len() && remote == run.asset.files[i as int] && local == remote
                && run.phase == HfPhase::ProbeEssential(i)
            &&& run.next(input).0.phase matches HfPhase::StreamOptional(i) ==> i
                < run.asset.optional_files.len() && remote == run.asset.optional_files[i as int].0
                && local == run.asset.optional_files[i as int].1 && run.phase
                == HfPhase::ProbeOptional(i)
            &&& url == "https://huggingface.co/"@ + run.asset.repo + "/resolve/main/"@ + remote
            &&& part_path == paths::path_joined(run.asset.target_dir, local + ".part"@)
            &&& match run.manifest {
                Some(m) => if m.contains_key(remote) {
                    expected_sha256 == m[remote].1 && match m[remote].0 {
                        Some(n) => expected_size == n,
                        None => expected_size == 0,
                    }
                } else {
                    expected_size == 0 && expected_sha256 is None
                },
                None => expected_size == 0 && expected_sha256 is None,
            }
        },
{
}

/// Files are looked for, renamed and removed by their local names: each is probed at its
/// final path, a whole partial file gets that path, and only a partial file is removed.
pub proof fn law_files_are_handled_by_their_local_names(run: RunView, input: InputView)
    requires
        run.wf(),
        run.accepts(input),
        run.asset.files.len() < usize::MAX,
        run.asset.optional_files.len() < usize::MAX,
    ensures
        ({
            let a = run.asset;
            let (after, step) = run.next(input);
            &&& step.work matches WorkView::Probe { path } ==> match after.phase {
                HfPhase::ProbeEssential(i) => path == paths::path_joined(
                    a.target_dir,
                    a.files[i as int],
                ),
                HfPhase::ProbeOptional(i) => path == paths::path_joined(
                    a.target_dir,
                    a.optional_files[i as int].1,
                ),
                _ => false,
            }
            &&& step.work matches WorkView::Rename { from, to } ==> {
                &&& streamed_names(run) matches Some((_, local))
                &&& from == paths::path_joined(a.target_dir, local + ".part"@)
                &&& to == paths::path_joined(a.target_dir, local)
                &&& input matches InputView::Streamed(OutcomeView::Completed { .. })
            }
            &&& step.work matches WorkView::Remove { path } ==> {
                &&& streamed_names(run) matches Some((_, local))
                &&& run.phase is StreamOptional
                &&& path == paths::path_joined(a.target_dir, local + ".part"@)
                &&& input matches InputView::Streamed(OutcomeView::Failed { .. })
            }
            &&& step.work matches WorkView::CheckFiles { paths } ==> {
                &&& paths.len() == a.optional_files.len()
                &&& forall|i: int|
                    0 <= i < paths.len() ==> #[trigger] paths[i] == paths::path_joined(
                        a.target_dir,
                        a.optional_files[i].1,
                    )
            }
        }),
{
}

/// No file is passed over: from a file that is there, or that was received and renamed or
/// given up, the download goes on to the very next one, the essential files before the
/// optional ones; a file that is not there is streamed, unless the user has stopped the
/// download.
pub proof fn law_files_come_one_after_the_other(run: RunView, input: InputView)
    requires
        run.wf(),
        run.accepts(input),
        run.asset.files.len() < usize::MAX,
        run.asset.optional_files.len() < usize::MAX,
    ensures
        ({
            let f = run.asset.files.len();
            let o = run.asset.optional_files.len();
            let after = run.next(input).0.phase;
            let optional_from = |k: int, p: HfPhase|
                if k < o {
                    p matches HfPhase::ProbeOptional(j) && j == k
                } else {
                    p == HfPhase::CheckOptionals
                };
            let essential_from = |k: int, p: HfPhase|
                if k < f {
                    p matches HfPhase::ProbeEssential(j) && j == k
                } else {
                    optional_from(0, p)
                };
            match (run.phase, input) {
                (HfPhase::ProbeEssential(i), InputView::Probed { len, .. }) => if len is Some {
                    essential_from(i + 1, after)
                } else {
                    after == HfPhase::StreamEssential(i)
                },
                (HfPhase::StreamEssential(i), InputView::Streamed(out)) => match out {
                    OutcomeView::Completed { sha256_ok, .. } => after == HfPhase::RenameEssential(
                        i,
                        sha256_ok,
                    ),
                    _ => after == HfPhase::Done,
                },
                (HfPhase::RenameEssential(i, _), InputView::Renamed(r)) => if r is Ok {
                    essential_from(i + 1, after)
                } else {
                    after == HfPhase::Done
                },
                (HfPhase::ProbeOptional(i), InputView::Probed { len, cancelled }) => if len is Some {
                    optional_from(i + 1, after)
                } else if cancelled {
                    after == HfPhase::Done
                } else {
                    after == HfPhase::StreamOptional(i)
                },
                (HfPhase::StreamOptional(i), InputView::Streamed(out)) => match out {
                    OutcomeView::Completed { sha256_ok, .. } => after == HfPhase::RenameOptional(
                        i,
                        sha256_ok,
                    ),
                    OutcomeView::Paused { .. } => after == HfPhase::Done,
                    OutcomeView::Failed { .. } => after == HfPhase::RemoveOptional(i),
                },
                (HfPhase::RenameOptional(i, _), _) => optional_from(i + 1, after),
                (HfPhase::RemoveOptional(i), _) => optional_from(i + 1, after),
                (HfPhase::CheckOptionals, _) => after == HfPhase::Done,
                _ => false,
            }
        }),
{
}

/// The bytes that are told of are those of the essential files that were found and of the
/// files that were received, and a download counts as checked exactly where a file that was
/// renamed, or tried to be, was held against its digest.
pub proof fn law_received_bytes_are_counted(run: RunView, input: InputView)
    requires
        run.wf(),
        run.accepts(input),
    ensures
        ({
            let after = run.next(input).0;
            let more = match (run.phase, input) {
                (HfPhase::ProbeEssential(_), InputView::Probed { len: Some(n), .. }) => n,
                (_, InputView::Streamed(OutcomeView::Completed { part_bytes, .. })) => part_bytes,
                _ => 0u64,
            };
            &&& run.accumulated + more <= u64::MAX ==> after.accumulated == run.accumulated + more
            &&& run.accumulated + more > u64::MAX ==> after.accumulated == u64::MAX
            &&& after.any_sha_verified <==> run.any_sha_verified || match (run.phase, input) {
                (HfPhase::RenameEssential(_, ok), InputView::Renamed(Ok(_))) => ok,
                (HfPhase::RenameOptional(_, ok), _) => ok,
                _ => false,
            }
            &&& after.total_expected == run.total_expected && after.top_up == run.top_up
        }),
{
}

/// How a download ends is told as it was: a stop with the bytes that were had and the bytes
/// that were expected, a failure of an essential file with its error, and completion with
/// the path of the first file and what was found of the optional ones.
pub proof fn law_ends_are_told_as_they_were(run: RunView, input: InputView)
    requires
        run.wf(),
        run.accepts(input),
    ensures
        ({
            let step = run.next(input).1;
            match (run.phase, input) {
                (
                    HfPhase::StreamEssential(_) | HfPhase::StreamOptional(_),
                    InputView::Streamed(OutcomeView::Paused { downloaded: had }),
                ) => {
                    &&& step.event == Some(
                        types::KindView::Paused { downloaded: had, total: run.total_expected },
                    )
                    &&& step.work == WorkView::Finish(Ok(()))
                },
                (HfPhase::ProbeOptional(_), InputView::Probed { len: None, cancelled: true }) => {
                    &&& step.event == Some(
                        types::KindView::Paused {
                            downloaded: run.accumulated,
                            total: run.total_expected,
                        },
                    )
                    &&& step.work == WorkView::Finish(Ok(()))
                },
                (
                    HfPhase::StreamEssential(_),
                    InputView::Streamed(OutcomeView::Failed { error: cause }),
                ) => {
                    &&& step.event matches Some(types::KindView::Failed { error, retryable })
                    &&& error == cause && retryable == stream::passing(cause)
                    &&& step.work == WorkView::Finish(Err(cause))
                },
                (HfPhase::RenameEssential(_, _), InputView::Renamed(Err(cause))) => {
                    &&& step.event is None
                    &&& step.work == WorkView::Finish(Err(cause))
                },
                (HfPhase::CheckOptionals, InputView::Checked(all)) => {
                    &&& step.event matches Some(
                        types::KindView::Completed {
                            downloaded,
                            path,
                            sha256_verified,
                            optional_complete,
                        },
                    )
                    &&& downloaded == run.accumulated && sha256_verified == run.any_sha_verified
                    &&& optional_complete == all
                    &&& path == paths::path_joined(run.asset.target_dir, run.asset.files[0])
                    &&& step.work == WorkView::Finish(Ok(()))
                },
                _ => step.event is None && !(step.work is Finish),
            }
        }),
{
}

/// A download fetches only what is missing: where every essential file is there and an
/// optional one is not, it begins with the optional ones and expects their bytes alone;
/// else it begins with the first essential file and expects everything. Nothing is counted
/// at the beginning.
pub proof fn law_download_begins_with_what_is_missing(
    a: types::AssetView,
    manifest: Option<Map<Seq<char>, InfoView>>,
    disk: Map<Seq<char>, types::DiskEntry>,
)
    requires
        a.files.len() > 0,
    ensures
        ({
            let essentials = forall|i: int|
                0 <= i < a.files.len() ==> disk.contains_key(
                    paths::path_joined(a.target_dir, #[trigger] a.files[i]),
                );
            let all_optional = forall|i: int|
                0 <= i < a.optional_files.len() ==> disk.contains_key(
                    paths::path_joined(a.target_dir, (#[trigger] a.optional_files[i]).1),
                );
            let run = begun(a, manifest, disk).0;
            &&& run.asset == a && run.manifest == manifest
            &&& run.accumulated == 0 && !run.any_sha_verified
            &&& run.top_up <==> essentials && !all_optional
            &&& run.top_up ==> run.phase == HfPhase::ProbeOptional(0)
            &&& !run.top_up ==> run.phase == HfPhase::ProbeEssential(0)
        }),
{
    assert(forall|n: Seq<char>| #[trigger] a.path_of(n) == paths::path_joined(a.target_dir, n));
}

/// The bytes that are expected are those that the manifest gives for the remote names, each
/// file counted once: one more file that the manifest knows adds its size to the total, one
/// that it does not know leaves the estimate (for a whole download) or nothing (for the
/// optional files alone).
pub proof fn law_one_more_file_adds_its_size(
    a: types::AssetView,
    m: Map<Seq<char>, InfoView>,
    remote: Seq<char>,
    local: Seq<char>,
)
    ensures
        ({
            let more = types::AssetView {
                optional_files: a.optional_files.push((remote, local)),
                ..a
            };
            let known = forall|i: int|
                0 <= i < a.optional_files.len() ==> {
                    let n = (#[trigger] a.optional_files[i]).0;
                    m.contains_key(n) && m[n].0 is Some
                };
            let all_known = known && forall|i: int|
                0 <= i < a.files.len() ==> m.contains_key(#[trigger] a.files[i])
                    && m[a.files[i]].0 is Some;
            if m.contains_key(remote) && m[remote].0 is Some {
                let n = m[remote].0->0;
                &&& all_known && total_of(a, Some(m)) + n <= u64::MAX ==> total_of(more, Some(m))
                    == total_of(a, Some(m)) + n
                &&& known && optional_total_of(a, Some(m)) + n <= u64::MAX ==> optional_total_of(
                    more,
                    Some(m),
                ) == optional_total_of(a, Some(m)) + n
                &&& !all_known ==> total_of(more, Some(m)) == a.estimated_bytes
                &&& !known ==> optional_total_of(more, Some(m)) == 0
            } else {
                total_of(more, Some(m)) == a.estimated_bytes && optional_total_of(more, Some(m))
                    == 0
            }
        }),
        total_of(a, None) == a.estimated_bytes,
        optional_total_of(a, None) == 0,
{
    let more = types::AssetView { optional_files: a.optional_files.push((remote, local)), ..a };
    let names = a.files + remotes_of(a);
    assert(remotes_of(more) =~= remotes_of(a).push(remote));
    assert(more.files + remotes_of(more) =~= names.push(remote));
    assert(remotes_of(more).drop_last() =~= remotes_of(a));
    assert(names.push(remote).drop_last() =~= names);
    lemma_sizes_known(m, names);
    lemma_sizes_known(m, remotes_of(a));
    assert forall|i: int| 0 <= i < a.optional_files.len() implies #[trigger] a.optional_files[i].0
        == remotes_of(a)[i] && names[a.files.len() + i] == remotes_of(a)[i] by {}
    assert forall|i: int| 0 <= i < a.files.len() implies #[trigger] a.files[i] == names[i] by {}
    let known = forall|i: int|
        0 <= i < a.optional_files.len() ==> {
            let n = (#[trigger] a.optional_files[i]).0;
            m.contains_key(n) && m[n].0 is Some
        };
    let all_known = known && forall|i: int|
        0 <= i < a.files.len() ==> m.contains_key(#[trigger] a.files[i]) && m[a.files[i]].0 is Some;
    if known {
        assert forall|i: int| 0 <= i < remotes_of(a).len() implies size_in(
            m,
            #[trigger] remotes_of(a)[i],
        ) is Some by {
            assert(a.optional_files[i].0 == remotes_of(a)[i]);
        }
    } else {
        let i = choose|i: int|
            0 <= i < a.optional_files.len() && !({
                let n = (#[trigger] a.optional_files[i]).0;
                m.contains_key(n) && m[n].0 is Some
            });
        assert(size_in(m, remotes_of(a)[i]) is None);
        assert(size_in(m, names[a.files.len() + i]) is None);
    }
    if all_known {
        assert forall|i: int| 0 <= i < names.len() implies size_in(m, #[trigger] names[i]) is Some by {
            if i < a.files.len() {
                assert(names[i] == a.files[i]);
            } else {
                assert(a.optional_files[i - a.files.len()].0 == names[i]);
            }
        }
    } else if known {
        let i = choose|i: int|
            0 <= i < a.files.len() && !(m.contains_key(#[trigger] a.files[i])
                && m[a.files[i]].0 is Some);
        assert(size_in(m, names[i]) is None);
    }
}

/// The sizes are known together exactly where each is.
proof fn lemma_sizes_known(m: Map<Seq<char>, InfoView>, names: Seq<Seq<char>>)
    ensures
        sizes_in(m, names) is Some <==> forall|i: int|
            0 <= i < names.len() ==> size_in(m, #[trigger] names[i]) is Some,
    decreases names.len(),
{
    if names.len() > 0 {
        let front = names.drop_last();
        lemma_sizes_known(m, front);
        assert(forall|i: int| 0 <= i < front.len() ==> front[i] == #[trigger] names[i]);
        assert(names[names.len() - 1] == names.last());
        if sizes_in(m, names) is Some {
            assert forall|i: int| 0 <= i < names.len() implies size_in(
                m,
                #[trigger] names[i],
            ) is Some by {
                if i < front.len() {
                    assert(size_in(m, front[i]) is Some);
                }
            }
        }
        if forall|i: int| 0 <= i < names.len() ==> size_in(m, #[trigger] names[i]) is Some {
            assert forall|i: int| 0 <= i < front.len() implies size_in(
                m,
                #[trigger] front[i],
            ) is Some by {
                assert(size_in(m, names[i]) is Some);
            }
        }
    }
}

} // verus!
