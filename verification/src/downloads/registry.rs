//! The registry of downloads: one status per asset, the workers that are alive and the
//! downloads that were given up but whose worker has not stopped yet.
//!
//! At most one worker per asset is alive at any time: only [`DownloadsManager::start`]
//! lets one begin, and it declines while another is alive or being torn down.
use vstd::prelude::*;
use crate::assoc::AssocMap;
use crate::downloads::types;
use crate::downloads::types::{
    Asset, AssetEvent, AssetEventKind, AssetState, AssetStatus, Disk,
};
use crate::downloads::worker;
use crate::order;
use crate::paths;
use crate::text;

verus! {

/// Supplies the assets that the manager looks after.
pub trait AssetProvider {
    /// The assets.
    spec fn listed(&self) -> Seq<types::AssetView>;

    /// The assets.
    fn assets(&self) -> (r: Vec<Asset>)
        ensures
            types::asset_views(r@) == self.listed(),
    ;
}

// ---------------------------------------------------------------------------
// What the disk says of an asset
// ---------------------------------------------------------------------------

/// The local names of the optional files.
pub open spec fn locals_of(a: types::AssetView) -> Seq<Seq<char>> {
    Seq::new(a.optional_files.len(), |i: int| a.optional_files[i].1)
}

/// Bytes on disk of one file: the file itself, else what there is of it.
pub open spec fn bytes_of(
    a: types::AssetView,
    disk: Map<Seq<char>, types::DiskEntry>,
    name: Seq<char>,
) -> u64 {
    match types::size_on(disk, a.path_of(name)) {
        Some(n) => n,
        None => match types::size_on(disk, a.part_path_of(name)) {
            Some(n) => n,
            None => 0,
        },
    }
}

/// Bytes on disk of the named files together.
pub open spec fn bytes_on(
    a: types::AssetView,
    disk: Map<Seq<char>, types::DiskEntry>,
    names: Seq<Seq<char>>,
) -> u64
    decreases names.len(),
{
    if names.len() == 0 {
        0
    } else {
        types::capped_sum(bytes_on(a, disk, names.drop_last()), bytes_of(a, disk, names.last()))
    }
}

/// Something of an essential file is on disk.
pub open spec fn something_on(
    a: types::AssetView,
    disk: Map<Seq<char>, types::DiskEntry>,
) -> bool {
    exists|i: int|
        0 <= i < a.files.len() && (disk.contains_key(a.path_of(#[trigger] a.files[i]))
            || disk.contains_key(a.part_path_of(a.files[i])))
}

/// The state that the disk gives an asset.
pub open spec fn state_on(
    a: types::AssetView,
    disk: Map<Seq<char>, types::DiskEntry>,
) -> AssetState {
    if worker::essentials_on(a, disk) {
        AssetState::Downloaded
    } else if something_on(a, disk) {
        AssetState::Paused
    } else {
        AssetState::NotDownloaded
    }
}

/// The status that the disk gives an asset.
pub open spec fn scanned(
    a: types::AssetView,
    disk: Map<Seq<char>, types::DiskEntry>,
) -> types::StatusView {
    let downloaded = bytes_on(a, disk, a.files + locals_of(a));
    types::StatusView {
        entry_id: a.id,
        state: state_on(a, disk),
        downloaded,
        total: if a.estimated_bytes > downloaded {
            a.estimated_bytes
        } else {
            downloaded
        },
        optional_complete: !worker::optional_missing_on(a, disk),
        error: None,
    }
}

/// The status that the disk gives an asset. Optional files add to the bytes and never
/// take the state back from downloaded.
pub fn scan_asset_state(asset: &Asset, disk: &Disk) -> (r: AssetStatus)
    requires
        disk.wf(),
    ensures
        r@ == scanned(asset@, disk@),
{
    let ghost a = asset@;
    let ghost names = a.files + locals_of(a);
    let ghost n = a.files.len() as int;
    let mut downloaded: u64 = 0;
    let mut all_complete = true;
    let mut any_present = false;
    let mut i: usize = 0;
    while i < asset.files.len()
        invariant
            i <= asset.files@.len(),
            disk.wf(),
            a == asset@,
            n == a.files.len(),
            names == a.files + locals_of(a),
            downloaded == bytes_on(a, disk@, names.take(i as int)),
            all_complete <==> forall|k: int|
                0 <= k < i ==> disk@.contains_key(a.path_of(#[trigger] a.files[k])),
            any_present <==> exists|k: int|
                0 <= k < i && (disk@.contains_key(a.path_of(#[trigger] a.files[k]))
                    || disk@.contains_key(a.part_path_of(a.files[k]))),
        decreases asset.files@.len() - i,
    {
        let file = asset.files[i].as_str();
        assert(a.files[i as int] == file@);
        assert(names[i as int] == file@);
        assert(names.take(i + 1).drop_last() =~= names.take(i as int));
        let final_size = disk.size_at(asset.file_path(file).as_str());
        let part_size = disk.size_at(asset.part_path(file).as_str());
        let bytes: u64 = match final_size {
            Some(m) => m,
            None => match part_size {
                Some(m) => m,
                None => 0,
            },
        };
        downloaded = types::add_capped(downloaded, bytes);
        if final_size.is_none() {
            all_complete = false;
        }
        if final_size.is_some() || part_size.is_some() {
            any_present = true;
        }
        i += 1;
    }
    let mut optional_complete = true;
    let mut j: usize = 0;
    while j < asset.optional_files.len()
        invariant
            j <= asset.optional_files@.len(),
            disk.wf(),
            a == asset@,
            n == a.files.len(),
            names == a.files + locals_of(a),
            downloaded == bytes_on(a, disk@, names.take(n + j)),
            optional_complete <==> forall|k: int|
                0 <= k < j ==> disk@.contains_key(a.path_of((#[trigger] a.optional_files[k]).1)),
        decreases asset.optional_files@.len() - j,
    {
        let file = asset.optional_files[j].local_name.as_str();
        assert(a.optional_files[j as int].1 == file@);
        assert(names[n + j] == file@);
        assert(names.take(n + j + 1).drop_last() =~= names.take(n + j));
        let final_size = disk.size_at(asset.file_path(file).as_str());
        let bytes: u64 = match final_size {
            Some(m) => m,
            None => match disk.size_at(asset.part_path(file).as_str()) {
                Some(m) => m,
                None => 0,
            },
        };
        downloaded = types::add_capped(downloaded, bytes);
        if final_size.is_none() {
            optional_complete = false;
        }
        j += 1;
    }
    assert(names.take(n + j) =~= names);
    let state = if all_complete {
        AssetState::Downloaded
    } else if any_present {
        AssetState::Paused
    } else {
        AssetState::NotDownloaded
    };
    AssetStatus {
        entry_id: asset.id.clone(),
        state,
        downloaded,
        total: if asset.estimated_bytes > downloaded {
            asset.estimated_bytes
        } else {
            downloaded
        },
        optional_complete,
        error: None,
    }
}

/// Every path that a file of the asset can stand at: for each file its own and that of
/// its partial file.
pub open spec fn paths_of(a: types::AssetView, names: Seq<Seq<char>>) -> Seq<Seq<char>>
    decreases names.len(),
{
    if names.len() == 0 {
        seq![]
    } else {
        paths_of(a, names.drop_last()).push(a.path_of(names.last())).push(
            a.part_path_of(names.last()),
        )
    }
}

/// Every path that a download of the asset can have left something at.
pub fn artefact_paths(asset: &Asset) -> (r: Vec<String>)
    ensures
        text::texts(r@) == paths_of(asset@, asset@.files + locals_of(asset@)),
{
    let ghost a = asset@;
    let ghost names = a.files + locals_of(a);
    let mut out: Vec<String> = Vec::new();
    let mut i: usize = 0;
    assert(text::texts(out@) =~= paths_of(a, names.take(0)));
    while i < asset.files.len()
        invariant
            i <= asset.files@.len(),
            a == asset@,
            names == a.files + locals_of(a),
            text::texts(out@) == paths_of(a, names.take(i as int)),
        decreases asset.files@.len() - i,
    {
        let file = asset.files[i].as_str();
        assert(names[i as int] == file@);
        assert(names.take(i + 1).drop_last() =~= names.take(i as int));
        let ghost before = text::texts(out@);
        out.push(asset.file_path(file));
        out.push(asset.part_path(file));
        assert(text::texts(out@) =~= before.push(a.path_of(file@)).push(a.part_path_of(file@)));
        i += 1;
    }
    let ghost n = a.files.len() as int;
    let mut j: usize = 0;
    while j < asset.optional_files.len()
        invariant
            j <= asset.optional_files@.len(),
            a == asset@,
            n == a.files.len(),
            names == a.files + locals_of(a),
            text::texts(out@) == paths_of(a, names.take(n + j)),
        decreases asset.optional_files@.len() - j,
    {
        let file = asset.optional_files[j].local_name.as_str();
        assert(names[n + j] == file@);
        assert(names.take(n + j + 1).drop_last() =~= names.take(n + j));
        let ghost before = text::texts(out@);
        out.push(asset.file_path(file));
        out.push(asset.part_path(file));
        assert(text::texts(out@) =~= before.push(a.path_of(file@)).push(a.part_path_of(file@)));
        j += 1;
    }
    assert(names.take(n + j) =~= names);
    out
}

// ---------------------------------------------------------------------------
// The registry's model
// ---------------------------------------------------------------------------

/// What the registry holds.
#[verifier::ext_equal]
pub struct RegistryView {
    /// The status of each asset.
    pub statuses: Map<Seq<char>, types::StatusView>,
    /// The workers that are alive, and whether each was asked to stop.
    pub active: Map<Seq<char>, bool>,
    /// The assets whose download was given up and is still being torn down.
    pub cancelling: Set<Seq<char>>,
}

/// The first asset with the id.
pub open spec fn find_listed(assets: Seq<types::AssetView>, id: Seq<char>) -> Option<
    types::AssetView,
>
    decreases assets.len(),
{
    if assets.len() == 0 {
        None
    } else if assets[0].id == id {
        Some(assets[0])
    } else {
        find_listed(assets.drop_first(), id)
    }
}

/// No asset behind the `m`th has its id.
pub open spec fn is_last(assets: Seq<types::AssetView>, m: int) -> bool {
    forall|n: int| m < n < assets.len() ==> (#[trigger] assets[n]).id != assets[m].id
}

/// Whether a start lets a worker begin.
pub enum StartView {
    Nothing,
    Spawn(types::AssetView),
}

impl RegistryView {
    /// The registry before anything was downloaded.
    pub open spec fn empty() -> RegistryView {
        RegistryView { statuses: Map::empty(), active: Map::empty(), cancelling: Set::empty() }
    }

    /// Every status is kept under its own id, and what is busy has one.
    pub open spec fn wf(self) -> bool {
        &&& forall|k: Seq<char>|
            self.statuses.contains_key(k) ==> (#[trigger] self.statuses[k]).entry_id == k
        &&& forall|k: Seq<char>| #[trigger]
            self.active.contains_key(k) ==> self.statuses.contains_key(k)
        &&& forall|k: Seq<char>| #[trigger]
            self.cancelling.contains(k) ==> self.statuses.contains_key(k)
    }

    /// The asset belongs to a worker or to a teardown.
    pub open spec fn busy(self, id: Seq<char>) -> bool {
        self.active.contains_key(id) || self.cancelling.contains(id)
    }

    /// The asset has this status.
    pub open spec fn with_status(self, s: types::StatusView) -> RegistryView {
        RegistryView { statuses: self.statuses.insert(s.entry_id, s), ..self }
    }

    /// The statuses of the assets that are not busy are those that the disk gives.
    pub open spec fn refreshed(
        self,
        assets: Seq<types::AssetView>,
        disk: Map<Seq<char>, types::DiskEntry>,
    ) -> RegistryView
        decreases assets.len(),
    {
        if assets.len() == 0 {
            self
        } else {
            let r = self.refreshed(assets.drop_last(), disk);
            let a = assets.last();
            if r.busy(a.id) {
                r
            } else {
                r.with_status(scanned(a, disk))
            }
        }
    }

    /// A worker may begin: nothing is under way for the asset, and something of it is
    /// missing.
    pub open spec fn may_start(
        self,
        a: types::AssetView,
        disk: Map<Seq<char>, types::DiskEntry>,
    ) -> bool {
        &&& !self.busy(a.id)
        &&& self.statuses.contains_key(a.id) ==> {
            let s = self.statuses[a.id].state;
            &&& s != AssetState::Downloading
            &&& s == AssetState::Downloaded ==> !all_optional_files(a, disk)
        }
    }

    /// The registry once a worker has begun.
    pub open spec fn begun(
        self,
        a: types::AssetView,
        disk: Map<Seq<char>, types::DiskEntry>,
    ) -> RegistryView {
        let known = self.statuses.contains_key(a.id);
        RegistryView {
            active: self.active.insert(a.id, false),
            statuses: self.statuses.insert(
                a.id,
                types::StatusView {
                    entry_id: a.id,
                    state: AssetState::Downloading,
                    downloaded: if known {
                        self.statuses[a.id].downloaded
                    } else {
                        0
                    },
                    total: if known {
                        self.statuses[a.id].total
                    } else {
                        a.estimated_bytes
                    },
                    optional_complete: all_optional_files(a, disk),
                    error: None,
                },
            ),
            ..self
        }
    }

    /// Starting a download: the statuses are brought up to date, and a worker begins
    /// where it may.
    pub open spec fn started(
        self,
        assets: Seq<types::AssetView>,
        a: types::AssetView,
        disk: Map<Seq<char>, types::DiskEntry>,
    ) -> (RegistryView, StartView) {
        let r = self.refreshed(assets, disk);
        if r.may_start(a, disk) {
            (r.begun(a, disk), StartView::Spawn(a))
        } else {
            (r, StartView::Nothing)
        }
    }

    /// The worker, if there is one, is asked to stop.
    pub open spec fn paused(self, id: Seq<char>) -> RegistryView {
        if self.active.contains_key(id) {
            RegistryView { active: self.active.insert(id, true), ..self }
        } else {
            self
        }
    }

    /// The download is given up: its worker is asked to stop, its status starts over and
    /// its teardown begins.
    pub open spec fn cancelled(self, a: types::AssetView) -> RegistryView {
        RegistryView {
            cancelling: self.cancelling.insert(a.id),
            ..self.paused(a.id).with_status(types::StatusView::cleared(a))
        }
    }

    /// The worker is gone.
    pub open spec fn worker_gone(self, id: Seq<char>) -> RegistryView {
        RegistryView { active: self.active.remove(id), ..self }
    }

    /// The teardown is over.
    pub open spec fn settled(self, id: Seq<char>) -> RegistryView {
        RegistryView { cancelling: self.cancelling.remove(id), ..self }
    }

    /// The status of an asset, or that of one nothing is known of.
    pub open spec fn status_or_new(self, id: Seq<char>) -> types::StatusView {
        if self.statuses.contains_key(id) {
            self.statuses[id]
        } else {
            types::StatusView::not_downloaded(id, 0)
        }
    }

    /// What an event makes of the registry. Events of a download that is being torn down
    /// count for nothing.
    pub open spec fn told(self, e: types::EventView) -> RegistryView {
        if self.cancelling.contains(e.entry_id) {
            self
        } else {
            RegistryView {
                statuses: self.statuses.insert(
                    e.entry_id,
                    after_event(self.status_or_new(e.entry_id), e.kind),
                ),
                ..self
            }
        }
    }
}

/// Every optional file is a regular file on disk.
pub open spec fn all_optional_files(
    a: types::AssetView,
    disk: Map<Seq<char>, types::DiskEntry>,
) -> bool {
    forall|i: int|
        0 <= i < a.optional_files.len() ==> types::file_on(
            disk,
            a.path_of((#[trigger] a.optional_files[i]).1),
        )
}

/// What an event makes of a status.
pub open spec fn after_event(s: types::StatusView, kind: types::KindView) -> types::StatusView {
    match kind {
        types::KindView::Started { total } => types::StatusView {
            state: AssetState::Downloading,
            total,
            error: None,
            ..s
        },
        types::KindView::Progress { downloaded, total, .. } => types::StatusView {
            state: AssetState::Downloading,
            downloaded,
            total,
            ..s
        },
        types::KindView::Paused { downloaded, total } => types::StatusView {
            state: AssetState::Paused,
            downloaded,
            total,
            ..s
        },
        types::KindView::Cancelled { total } => types::StatusView {
            state: AssetState::NotDownloaded,
            downloaded: 0,
            total,
            error: None,
            ..s
        },
        types::KindView::Completed { downloaded, optional_complete, .. } => types::StatusView {
            state: AssetState::Downloaded,
            downloaded,
            total: downloaded,
            optional_complete,
            error: None,
            ..s
        },
        types::KindView::Failed { error, .. } => types::StatusView {
            state: AssetState::Failed,
            error: Some(error),
            ..s
        },
    }
}

// ---------------------------------------------------------------------------
// The registry
// ---------------------------------------------------------------------------

/// The manager of downloads.
pub struct DownloadsManager<P: AssetProvider> {
    pub provider: P,
    pub statuses: AssocMap<String, AssetStatus>,
    pub active: AssocMap<String, bool>,
    pub cancelling: AssocMap<String, ()>,
}

/// What the statuses say.
pub open spec fn status_views(m: Map<Seq<char>, AssetStatus>) -> Map<Seq<char>, types::StatusView> {
    m.map_values(|s: AssetStatus| s@)
}

impl<P: AssetProvider> View for DownloadsManager<P> {
    type V = RegistryView;

    open spec fn view(&self) -> RegistryView {
        RegistryView {
            statuses: status_views(self.statuses@),
            active: self.active@,
            cancelling: self.cancelling@.dom(),
        }
    }
}

/// Whether a start lets a worker begin.
pub enum StartOutcome {
    /// The download is under way, complete or being torn down.
    Nothing,
    /// The host runs a worker for the asset.
    Spawn(Asset),
}

/// What the host does for a download that was given up.
pub struct CancelPlan {
    /// The event to tell of.
    pub event: AssetEvent,
    /// The asset, where no worker is alive: its files are deleted now, and the teardown
    /// is settled after that. Else the worker's end does both.
    pub delete_now: Option<Asset>,
}

/// What is said of an id that no asset has.
pub open spec fn unknown_asset(id: Seq<char>) -> Seq<char> {
    "unknown asset id: "@ + id
}

fn unknown_asset_message(id: &str) -> (r: String)
    ensures
        r@ == unknown_asset(id@),
{
    let mut out = "unknown asset id: ".to_string();
    out.append(id);
    out
}

/// The first asset with the id.
fn find_asset(assets: &Vec<Asset>, id: &str) -> (r: Option<Asset>)
    ensures
        match r {
            Some(a) => find_listed(types::asset_views(assets@), id@) == Some(a@) && a@.id == id@,
            None => find_listed(types::asset_views(assets@), id@) is None,
        },
{
    let ghost all = types::asset_views(assets@);
    let mut i: usize = 0;
    assert(all.skip(0) =~= all);
    while i < assets.len()
        invariant
            i <= assets@.len(),
            all == types::asset_views(assets@),
            find_listed(all, id@) == find_listed(all.skip(i as int), id@),
        decreases assets@.len() - i,
    {
        assert(all.skip(i as int)[0] == assets@[i as int]@);
        assert(all.skip(i as int).drop_first() =~= all.skip(i + 1));
        if text::same(assets[i].id.as_str(), id) {
            return Some(assets[i].clone());
        }
        i += 1;
    }
    None
}

/// Whether every optional file is a regular file on disk.
fn optional_files_present(asset: &Asset, disk: &Disk) -> (r: bool)
    requires
        disk.wf(),
    ensures
        r == all_optional_files(asset@, disk@),
{
    let mut i: usize = 0;
    while i < asset.optional_files.len()
        invariant
            i <= asset.optional_files@.len(),
            disk.wf(),
            forall|k: int|
                0 <= k < i ==> types::file_on(
                    disk@,
                    asset@.path_of((#[trigger] asset@.optional_files[k]).1),
                ),
        decreases asset.optional_files@.len() - i,
    {
        let file = asset.optional_files[i].local_name.as_str();
        assert(asset@.optional_files[i as int].1 == file@);
        if !disk.is_file_at(asset.file_path(file).as_str()) {
            return false;
        }
        i += 1;
    }
    true
}

/// The statuses stand in the order of their ids, none twice.
pub open spec fn in_order(v: Seq<AssetStatus>) -> bool {
    forall|i: int, j: int|
        0 <= i < j < v.len() ==> order::precedes(
            (#[trigger] v[i]).entry_id@,
            (#[trigger] v[j]).entry_id@,
        )
}

/// Puts a status among statuses in order.
fn put_in_order(v: &mut Vec<AssetStatus>, s: AssetStatus)
    requires
        in_order(old(v)@),
        forall|i: int| 0 <= i < old(v)@.len() ==> (#[trigger] old(v)@[i]).entry_id@ != s.entry_id@,
    ensures
        in_order(final(v)@),
        final(v)@.len() == old(v)@.len() + 1,
        forall|i: int|
            0 <= i < final(v)@.len() ==> #[trigger] final(v)@[i] == s || old(v)@.contains(
                final(v)@[i],
            ),
        forall|i: int| 0 <= i < old(v)@.len() ==> final(v)@.contains(#[trigger] old(v)@[i]),
        final(v)@.contains(s),
{
    let ghost before = v@;
    let mut at: usize = 0;
    while at < v.len() && order::comes_before(v[at].entry_id.as_str(), s.entry_id.as_str())
        invariant
            at <= v@.len(),
            v@ == before,
            forall|i: int|
                0 <= i < at ==> order::precedes((#[trigger] v@[i]).entry_id@, s.entry_id@),
        decreases v@.len() - at,
    {
        at += 1;
    }
    proof {
        assert forall|j: int| at <= j < before.len() implies order::precedes(
            s.entry_id@,
            (#[trigger] before[j]).entry_id@,
        ) by {
            order::lemma_precedes_total(s.entry_id@, before[at as int].entry_id@);
            assert(before[at as int].entry_id@ != s.entry_id@);
            if j > at {
                assert(order::precedes(before[at as int].entry_id@, before[j].entry_id@));
                order::lemma_precedes_transitive(
                    s.entry_id@,
                    before[at as int].entry_id@,
                    before[j].entry_id@,
                );
            }
        }
    }
    v.insert(at, s);
    proof {
        let after = v@;
        assert(after == before.insert(at as int, s));
        assert(after[at as int] == s);
        assert forall|i: int, j: int| 0 <= i < j < after.len() implies order::precedes(
            (#[trigger] after[i]).entry_id@,
            (#[trigger] after[j]).entry_id@,
        ) by {
            let bi = if i < at {
                i
            } else {
                i - 1
            };
            let bj = if j < at {
                j
            } else {
                j - 1
            };
            if i == at {
                assert(after[j] == before[bj]);
            } else if j == at {
                assert(after[i] == before[bi]);
            } else {
                assert(after[i] == before[bi] && after[j] == before[bj]);
            }
        }
        assert forall|i: int| 0 <= i < after.len() implies #[trigger] after[i] == s
            || before.contains(after[i]) by {
            if i < at {
                assert(after[i] == before[i]);
            } else if i > at {
                assert(after[i] == before[i - 1]);
            }
        }
        assert forall|i: int| 0 <= i < before.len() implies after.contains(#[trigger] before[i]) by {
            if i < at {
                assert(after[i] == before[i]);
            } else {
                assert(after[i + 1] == before[i]);
            }
        }
    }
}

impl<P: AssetProvider> DownloadsManager<P> {
    /// No id occurs twice, and every status is kept under its own id.
    pub open spec fn wf(&self) -> bool {
        self.statuses.wf() && self.active.wf() && self.cancelling.wf() && self@.wf()
    }

    proof fn lemma_status_entry(&self, m: int)
        requires
            self.wf(),
            0 <= m < self.statuses.entries@.len(),
        ensures
            self.statuses.entries@[m].1.entry_id@ == self.statuses.entries@[m].0@,
            self@.statuses.contains_key(self.statuses.entries@[m].0@),
            self@.statuses[self.statuses.entries@[m].0@] == self.statuses.entries@[m].1@,
    {
        self.statuses.lemma_entry(m);
        let k = self.statuses.entries@[m].0@;
        assert(self@.statuses.contains_key(k));
        assert(self@.statuses[k].entry_id == k);
    }

    /// A manager of the provider's assets.
    pub fn new(provider: P) -> (r: Self)
        ensures
            r.wf(),
            r@ == RegistryView::empty(),
            r.provider == provider,
    {
        let r = DownloadsManager {
            provider,
            statuses: AssocMap::new(),
            active: AssocMap::new(),
            cancelling: AssocMap::new(),
        };
        assert(r@.statuses =~= Map::<Seq<char>, types::StatusView>::empty());
        assert(r@.cancelling =~= Set::<Seq<char>>::empty());
        r
    }

    fn put_status(&mut self, id: &str, status: AssetStatus)
        requires
            old(self).wf(),
            status.entry_id@ == id@,
        ensures
            final(self).wf(),
            final(self)@ == old(self)@.with_status(status@),
            final(self).provider == old(self).provider,
    {
        let ghost before = self@;
        self.statuses.insert(id.to_string(), status);
        assert(self@ =~= before.with_status(status@));
    }

    fn is_busy(&self, id: &str) -> (r: bool)
        requires
            self.wf(),
        ensures
            r == self@.busy(id@),
    {
        let key = id.to_string();
        self.active.contains_key(&key) || self.cancelling.contains_key(&key)
    }

    /// Takes the statuses from disk, but for the assets that are busy.
    pub fn refresh_from_disk(&mut self, assets: &Vec<Asset>, disk: &Disk)
        requires
            old(self).wf(),
            disk.wf(),
        ensures
            final(self).wf(),
            final(self)@ == old(self)@.refreshed(types::asset_views(assets@), disk@),
            final(self).provider == old(self).provider,
    {
        let ghost start = self@;
        let ghost all = types::asset_views(assets@);
        let mut i: usize = 0;
        assert(all.take(0) =~= seq![]);
        while i < assets.len()
            invariant
                i <= assets@.len(),
                disk.wf(),
                self.wf(),
                all == types::asset_views(assets@),
                self@ == start.refreshed(all.take(i as int), disk@),
                self.provider == old(self).provider,
            decreases assets@.len() - i,
        {
            assert(all.take(i + 1).drop_last() =~= all.take(i as int));
            assert(all.take(i + 1).last() == assets@[i as int]@);
            let id = assets[i].id.as_str();
            if !self.is_busy(id) {
                let status = scan_asset_state(&assets[i], disk);
                self.put_status(id, status);
            }
            i += 1;
        }
        assert(all.take(i as int) =~= all);
    }

    /// The status of every asset in the order of the ids, taken from disk but for the
    /// assets that are busy.
    pub fn snapshot(&mut self, disk: &Disk) -> (r: Vec<AssetStatus>)
        requires
            old(self).wf(),
            disk.wf(),
        ensures
            final(self).wf(),
            final(self).provider == old(self).provider,
            final(self)@ == old(self)@.refreshed(old(self).provider.listed(), disk@),
            in_order(r@),
            forall|i: int|
                0 <= i < r@.len() ==> final(self)@.statuses.contains_key(
                    (#[trigger] r@[i]).entry_id@,
                ) && final(self)@.statuses[r@[i].entry_id@] == r@[i]@,
            forall|k: Seq<char>|
                final(self)@.statuses.contains_key(k) ==> exists|i: int|
                    0 <= i < r@.len() && (#[trigger] r@[i]).entry_id@ == k,
            forall|m: int|
                0 <= m < old(self).provider.listed().len() ==> exists|i: int|
                    0 <= i < r@.len() && (#[trigger] r@[i]).entry_id@ == (
                    #[trigger] old(self).provider.listed()[m]).id,
    {
        let assets = self.provider.assets();
        self.refresh_from_disk(&assets, disk);
        proof {
            lemma_refresh_has_every_asset(old(self)@, old(self).provider.listed(), disk@);
        }
        let mut out: Vec<AssetStatus> = Vec::new();
        let mut i: usize = 0;
        while i < self.statuses.entries.len()
            invariant
                i <= self.statuses.entries@.len(),
                self.wf(),
                in_order(out@),
                forall|k: int|
                    0 <= k < out@.len() ==> exists|m: int|
                        0 <= m < i && (#[trigger] self.statuses.entries@[m]).1 == #[trigger] out@[k],
                forall|m: int|
                    0 <= m < i ==> out@.contains((#[trigger] self.statuses.entries@[m]).1),
            decreases self.statuses.entries@.len() - i,
        {
            let ghost before = out@;
            let s = self.statuses.entries[i].1.clone();
            proof {
                self.lemma_status_entry(i as int);
                assert forall|k: int| 0 <= k < out@.len() implies (#[trigger] out@[k]).entry_id@
                    != s.entry_id@ by {
                    let m = choose|m: int|
                        0 <= m < i && (#[trigger] self.statuses.entries@[m]).1 == out@[k];
                    self.lemma_status_entry(m);
                    assert(self.statuses.entries@[m].0@ != self.statuses.entries@[i as int].0@);
                }
            }
            put_in_order(&mut out, s);
            proof {
                assert forall|k: int| 0 <= k < out@.len() implies exists|m: int|
                    0 <= m < i + 1 && (#[trigger] self.statuses.entries@[m]).1 == #[trigger] out@[k] by {
                    if out@[k] != s {
                        let b = choose|b: int| 0 <= b < before.len() && before[b] == out@[k];
                        let m = choose|m: int|
                            0 <= m < i && (#[trigger] self.statuses.entries@[m]).1 == before[b];
                        assert(self.statuses.entries@[m].1 == out@[k]);
                    } else {
                        assert(self.statuses.entries@[i as int].1 == out@[k]);
                    }
                }
                assert forall|m: int| 0 <= m < i + 1 implies out@.contains(
                    (#[trigger] self.statuses.entries@[m]).1,
                ) by {
                    if m < i {
                        let x = self.statuses.entries@[m].1;
                        let b = choose|b: int| 0 <= b < before.len() && before[b] == x;
                        assert(out@.contains(before[b]));
                    }
                }
            }
            i += 1;
        }
        proof {
            assert forall|k: int| 0 <= k < out@.len() implies self@.statuses.contains_key(
                (#[trigger] out@[k]).entry_id@,
            ) && self@.statuses[out@[k].entry_id@] == out@[k]@ by {
                let m = choose|m: int|
                    0 <= m < i && (#[trigger] self.statuses.entries@[m]).1 == out@[k];
                self.lemma_status_entry(m);
            }
            assert forall|k: Seq<char>| self@.statuses.contains_key(k) implies exists|x: int|
                0 <= x < out@.len() && (#[trigger] out@[x]).entry_id@ == k by {
                assert(self.statuses@.contains_key(k));
                let m = self.statuses.slot(k);
                let s = self.statuses.entries@[m].1;
                self.lemma_status_entry(m);
                assert(out@.contains(s));
                let x = choose|x: int| 0 <= x < out@.len() && out@[x] == s;
                assert(out@[x].entry_id@ == k);
            }
        }
        out
    }

    /// Starts the download of an asset. Nothing happens while it is under way, complete
    /// or being torn down.
    pub fn start(&mut self, asset_id: &str, disk: &Disk) -> (r: Result<StartOutcome, String>)
        requires
            old(self).wf(),
            disk.wf(),
        ensures
            final(self).wf(),
            final(self).provider == old(self).provider,
            match find_listed(old(self).provider.listed(), asset_id@) {
                None => r matches Err(e) && e@ == unknown_asset(asset_id@) && final(self)@ == old(
                    self,
                )@,
                Some(a) => {
                    let (after, outcome) = old(self)@.started(old(self).provider.listed(), a, disk@);
                    &&& final(self)@ == after
                    &&& match (r, outcome) {
                        (Ok(StartOutcome::Nothing), StartView::Nothing) => true,
                        (Ok(StartOutcome::Spawn(b)), StartView::Spawn(c)) => b@ == c,
                        _ => false,
                    }
                },
            },
    {
        let assets = self.provider.assets();
        let asset = match find_asset(&assets, asset_id) {
            Some(a) => a,
            None => {
                return Err(unknown_asset_message(asset_id));
            },
        };
        self.refresh_from_disk(&assets, disk);
        if self.is_busy(asset_id) {
            return Ok(StartOutcome::Nothing);
        }
        let key = asset_id.to_string();
        let present = optional_files_present(&asset, disk);
        let mut downloaded: u64 = 0;
        let mut total: u64 = asset.estimated_bytes;
        match self.statuses.get(&key) {
            Some(existing) => {
                assert(self@.statuses[asset_id@] == existing@);
                if existing.state == AssetState::Downloading {
                    return Ok(StartOutcome::Nothing);
                }
                if existing.state == AssetState::Downloaded && present {
                    return Ok(StartOutcome::Nothing);
                }
                downloaded = existing.downloaded;
                total = existing.total;
            },
            None => {},
        }
        let ghost before = self@;
        let status = AssetStatus {
            entry_id: asset_id.to_string(),
            state: AssetState::Downloading,
            downloaded,
            total,
            optional_complete: present,
            error: None,
        };
        self.put_status(asset_id, status);
        self.active.insert(asset_id.to_string(), false);
        assert(self@ =~= before.begun(asset@, disk@));
        Ok(StartOutcome::Spawn(asset))
    }

    /// Asks the worker of an asset to stop. What it has received stays on disk.
    pub fn pause(&mut self, asset_id: &str)
        requires
            old(self).wf(),
        ensures
            final(self).wf(),
            final(self).provider == old(self).provider,
            final(self)@ == old(self)@.paused(asset_id@),
    {
        let key = asset_id.to_string();
        if self.active.contains_key(&key) {
            self.active.insert(key, true);
        }
        assert(self@ =~= old(self)@.paused(asset_id@));
    }

    /// Whether the worker of an asset was asked to stop.
    pub fn stop_requested(&self, asset_id: &str) -> (r: bool)
        requires
            self.wf(),
        ensures
            r == (self@.active.contains_key(asset_id@) && self@.active[asset_id@]),
    {
        match self.active.get(&asset_id.to_string()) {
            Some(flag) => *flag,
            None => false,
        }
    }

    /// Gives a download up. Its status starts over at once; its files are deleted now, or
    /// by the end of its worker where one is alive.
    pub fn cancel_and_delete(&mut self, asset_id: &str) -> (r: Result<CancelPlan, String>)
        requires
            old(self).wf(),
        ensures
            final(self).wf(),
            final(self).provider == old(self).provider,
            match find_listed(old(self).provider.listed(), asset_id@) {
                None => r matches Err(e) && e@ == unknown_asset(asset_id@) && final(self)@ == old(
                    self,
                )@,
                Some(a) => {
                    &&& final(self)@ == old(self)@.cancelled(a)
                    &&& r matches Ok(plan)
                    &&& plan.event.entry_id@ == asset_id@
                    &&& plan.event.kind@ == (types::KindView::Cancelled { total: a.estimated_bytes })
                    &&& plan.delete_now is Some <==> !old(self)@.active.contains_key(asset_id@)
                    &&& plan.delete_now matches Some(b) ==> b@ == a
                },
            },
    {
        let assets = self.provider.assets();
        let asset = match find_asset(&assets, asset_id) {
            Some(a) => a,
            None => {
                return Err(unknown_asset_message(asset_id));
            },
        };
        let ghost before = self@;
        let key = asset_id.to_string();
        let was_active = self.active.contains_key(&key);
        self.pause(asset_id);
        let status = AssetStatus::cleared(&asset);
        self.put_status(asset_id, status);
        let ghost halted = self@;
        self.cancelling.insert(key, ());
        assert(self@.cancelling =~= halted.cancelling.insert(asset_id@));
        assert(self@ =~= before.cancelled(asset@));
        let event = AssetEvent {
            entry_id: asset_id.to_string(),
            kind: AssetEventKind::Cancelled { total: asset.estimated_bytes },
        };
        Ok(
            CancelPlan {
                event,
                delete_now: if was_active {
                    None
                } else {
                    Some(asset)
                },
            },
        )
    }

    /// The worker of an asset has ended. True where its download was given up: its files
    /// are deleted then, and the teardown is settled after that.
    pub fn worker_ended(&mut self, asset_id: &str) -> (r: bool)
        requires
            old(self).wf(),
        ensures
            final(self).wf(),
            final(self).provider == old(self).provider,
            final(self)@ == old(self)@.worker_gone(asset_id@),
            r == old(self)@.cancelling.contains(asset_id@),
    {
        let key = asset_id.to_string();
        self.active.remove(&key);
        assert(self@ =~= old(self)@.worker_gone(asset_id@));
        self.cancelling.contains_key(&key)
    }

    /// The files of a download that was given up are deleted.
    pub fn teardown_settled(&mut self, asset_id: &str)
        requires
            old(self).wf(),
        ensures
            final(self).wf(),
            final(self).provider == old(self).provider,
            final(self)@ == old(self)@.settled(asset_id@),
    {
        let ghost before = self@;
        self.cancelling.remove(&asset_id.to_string());
        assert(self@.cancelling =~= before.cancelling.remove(asset_id@));
        assert(self@ =~= before.settled(asset_id@));
    }

    /// Takes in an event of a worker. True where it is told on to those who listen.
    pub fn emit(&mut self, event: &AssetEvent) -> (r: bool)
        requires
            old(self).wf(),
        ensures
            final(self).wf(),
            final(self).provider == old(self).provider,
            final(self)@ == old(self)@.told(event@),
            r == !old(self)@.cancelling.contains(event@.entry_id),
    {
        if self.cancelling.contains_key(&event.entry_id) {
            return false;
        }
        let ghost before = self@;
        let mut entry = match self.statuses.get(&event.entry_id) {
            Some(s) => s.clone(),
            None => AssetStatus::not_downloaded(event.entry_id.as_str(), 0),
        };
        assert(entry@ =~= before.status_or_new(event@.entry_id));
        match &event.kind {
            AssetEventKind::Started { total } => {
                entry.state = AssetState::Downloading;
                entry.total = *total;
                entry.error = None;
            },
            AssetEventKind::Progress { downloaded, total, .. } => {
                entry.state = AssetState::Downloading;
                entry.downloaded = *downloaded;
                entry.total = *total;
            },
            AssetEventKind::Paused { downloaded, total } => {
                entry.state = AssetState::Paused;
                entry.downloaded = *downloaded;
                entry.total = *total;
            },
            AssetEventKind::Cancelled { total } => {
                entry.state = AssetState::NotDownloaded;
                entry.downloaded = 0;
                entry.total = *total;
                entry.error = None;
            },
            AssetEventKind::Completed { downloaded, optional_complete, .. } => {
                entry.state = AssetState::Downloaded;
                entry.downloaded = *downloaded;
                entry.total = *downloaded;
                entry.optional_complete = *optional_complete;
                entry.error = None;
            },
            AssetEventKind::Failed { error, .. } => {
                entry.state = AssetState::Failed;
                entry.error = Some(error.clone());
            },
        }
        self.put_status(event.entry_id.as_str(), entry);
        true
    }
}

// ---------------------------------------------------------------------------
// Laws
// ---------------------------------------------------------------------------

/// Something that happens to the registry.
pub enum RegistryStep {
    Refresh { disk: Map<Seq<char>, types::DiskEntry> },
    Start { asset: types::AssetView, disk: Map<Seq<char>, types::DiskEntry> },
    Pause { id: Seq<char> },
    Cancel { asset: types::AssetView },
    WorkerEnded { id: Seq<char> },
    Settled { id: Seq<char> },
    Told { event: types::EventView },
}

/// The registry after a step.
pub open spec fn after_step(
    r: RegistryView,
    assets: Seq<types::AssetView>,
    step: RegistryStep,
) -> RegistryView {
    match step {
        RegistryStep::Refresh { disk } => r.refreshed(assets, disk),
        RegistryStep::Start { asset, disk } => r.started(assets, asset, disk).0,
        RegistryStep::Pause { id } => r.paused(id),
        RegistryStep::Cancel { asset } => r.cancelled(asset),
        RegistryStep::WorkerEnded { id } => r.worker_gone(id),
        RegistryStep::Settled { id } => r.settled(id),
        RegistryStep::Told { event } => r.told(event),
    }
}

/// The registry after some steps, from the beginning.
pub open spec fn after_steps(
    assets: Seq<types::AssetView>,
    steps: Seq<RegistryStep>,
) -> RegistryView
    decreases steps.len(),
{
    if steps.len() == 0 {
        RegistryView::empty()
    } else {
        after_step(after_steps(assets, steps.drop_last()), assets, steps.last())
    }
}

/// How many workers of an asset are alive after some steps: those that were let begin
/// less those that ended.
pub open spec fn workers_alive(
    assets: Seq<types::AssetView>,
    steps: Seq<RegistryStep>,
    id: Seq<char>,
) -> int
    decreases steps.len(),
{
    if steps.len() == 0 {
        0
    } else {
        let before = workers_alive(assets, steps.drop_last(), id);
        match steps.last() {
            RegistryStep::Start { asset, disk } => if asset.id == id && after_steps(
                assets,
                steps.drop_last(),
            ).started(assets, asset, disk).1 is Spawn {
                before + 1
            } else {
                before
            },
            RegistryStep::WorkerEnded { id: gone } => if gone == id {
                before - 1
            } else {
                before
            },
            _ => before,
        }
    }
}

/// A worker ends only if it is alive.
pub open spec fn possible(assets: Seq<types::AssetView>, steps: Seq<RegistryStep>) -> bool
    decreases steps.len(),
{
    steps.len() > 0 ==> {
        &&& possible(assets, steps.drop_last())
        &&& steps.last() matches RegistryStep::WorkerEnded { id } ==> workers_alive(
            assets,
            steps.drop_last(),
            id,
        ) > 0
    }
}

proof fn lemma_refresh_keeps_workers(
    r: RegistryView,
    assets: Seq<types::AssetView>,
    disk: Map<Seq<char>, types::DiskEntry>,
)
    ensures
        r.refreshed(assets, disk).active == r.active,
        r.refreshed(assets, disk).cancelling == r.cancelling,
        r.wf() ==> r.refreshed(assets, disk).wf(),
    decreases assets.len(),
{
    if assets.len() > 0 {
        lemma_refresh_keeps_workers(r, assets.drop_last(), disk);
    }
}

/// After a look at the disk every asset has a status: the disk's where it is not busy and
/// no later asset has its id.
proof fn lemma_refresh_has_every_asset(
    r: RegistryView,
    assets: Seq<types::AssetView>,
    disk: Map<Seq<char>, types::DiskEntry>,
)
    requires
        r.wf(),
    ensures
        forall|m: int|
            0 <= m < assets.len() ==> r.refreshed(assets, disk).statuses.contains_key(
                (#[trigger] assets[m]).id,
            ),
        forall|m: int|
            0 <= m < assets.len() && !r.busy((#[trigger] assets[m]).id) && is_last(assets, m)
                ==> r.refreshed(assets, disk).statuses[assets[m].id] == scanned(assets[m], disk),
    decreases assets.len(),
{
    if assets.len() > 0 {
        let front = assets.drop_last();
        lemma_refresh_has_every_asset(r, front, disk);
        lemma_refresh_keeps_workers(r, front, disk);
        assert forall|m: int| 0 <= m < assets.len() implies r.refreshed(
            assets,
            disk,
        ).statuses.contains_key((#[trigger] assets[m]).id) by {
            if m < front.len() {
                assert(front[m] == assets[m]);
            }
        }
        assert forall|m: int|
            0 <= m < assets.len() && !r.busy((#[trigger] assets[m]).id) && is_last(
                assets,
                m,
            ) implies r.refreshed(assets, disk).statuses[assets[m].id] == scanned(
            assets[m],
            disk,
        ) by {
            if m < front.len() {
                assert(front[m] == assets[m]);
                assert(assets[assets.len() - 1].id != assets[m].id);
                assert forall|n: int| m < n < front.len() implies (#[trigger] front[n]).id
                    != front[m].id by {
                    assert(front[n] == assets[n]);
                }
            }
        }
    }
}

proof fn lemma_refresh_skips_busy(
    r: RegistryView,
    assets: Seq<types::AssetView>,
    disk: Map<Seq<char>, types::DiskEntry>,
    k: Seq<char>,
)
    requires
        r.busy(k),
        r.statuses.contains_key(k),
    ensures
        r.refreshed(assets, disk).statuses.contains_key(k),
        r.refreshed(assets, disk).statuses[k] == r.statuses[k],
    decreases assets.len(),
{
    if assets.len() > 0 {
        lemma_refresh_keeps_workers(r, assets.drop_last(), disk);
        lemma_refresh_skips_busy(r, assets.drop_last(), disk, k);
    }
}

/// At most one worker per asset is alive at any time, and the registry knows of it.
pub proof fn law_at_most_one_worker(
    assets: Seq<types::AssetView>,
    steps: Seq<RegistryStep>,
    id: Seq<char>,
)
    requires
        possible(assets, steps),
    ensures
        0 <= workers_alive(assets, steps, id) <= 1,
        workers_alive(assets, steps, id) == 1 <==> after_steps(assets, steps).active.contains_key(
            id,
        ),
    decreases steps.len(),
{
    if steps.len() > 0 {
        law_at_most_one_worker(assets, steps.drop_last(), id);
        let r = after_steps(assets, steps.drop_last());
        match steps.last() {
            RegistryStep::Refresh { disk } => {
                lemma_refresh_keeps_workers(r, assets, disk);
            },
            RegistryStep::Start { asset, disk } => {
                lemma_refresh_keeps_workers(r, assets, disk);
            },
            _ => {},
        }
    }
}

/// Every status is kept under its own id, and what has a worker or a teardown has a status,
/// whatever happens.
pub proof fn law_statuses_keep_their_ids(
    assets: Seq<types::AssetView>,
    steps: Seq<RegistryStep>,
)
    ensures
        after_steps(assets, steps).wf(),
    decreases steps.len(),
{
    if steps.len() > 0 {
        law_statuses_keep_their_ids(assets, steps.drop_last());
        let r = after_steps(assets, steps.drop_last());
        match steps.last() {
            RegistryStep::Refresh { disk } => {
                lemma_refresh_keeps_workers(r, assets, disk);
            },
            RegistryStep::Start { asset, disk } => {
                lemma_refresh_keeps_workers(r, assets, disk);
            },
            _ => {},
        }
    }
}

/// While a download that was given up is being torn down, nothing but another cancel
/// changes its status and no worker begins for it: neither the last words of its worker
/// nor a look at the disk nor a start. The teardown goes on until it is settled.
pub proof fn law_cancelled_download_stays_reset(
    r: RegistryView,
    assets: Seq<types::AssetView>,
    id: Seq<char>,
    step: RegistryStep,
)
    requires
        r.cancelling.contains(id),
        r.statuses.contains_key(id),
        !(step is Cancel),
    ensures
        after_step(r, assets, step).statuses.contains_key(id),
        after_step(r, assets, step).statuses[id] == r.statuses[id],
        step matches RegistryStep::Start { asset, disk } ==> (asset.id == id ==> r.started(
            assets,
            asset,
            disk,
        ).1 is Nothing),
        !(step matches RegistryStep::Settled { id: gone } && gone == id) ==> after_step(
            r,
            assets,
            step,
        ).cancelling.contains(id),
{
    match step {
        RegistryStep::Refresh { disk } => {
            lemma_refresh_keeps_workers(r, assets, disk);
            lemma_refresh_skips_busy(r, assets, disk, id);
        },
        RegistryStep::Start { asset, disk } => {
            lemma_refresh_keeps_workers(r, assets, disk);
            lemma_refresh_skips_busy(r, assets, disk, id);
        },
        _ => {},
    }
}

/// Giving a download up starts its status over and asks its worker to stop.
pub proof fn law_cancel_starts_over(r: RegistryView, a: types::AssetView)
    ensures
        r.cancelled(a).statuses[a.id] == types::StatusView::cleared(a),
        r.cancelled(a).cancelling.contains(a.id),
        r.active.contains_key(a.id) ==> r.cancelled(a).active.contains_key(a.id) && r.cancelled(
            a,
        ).active[a.id],
{
}

/// While a download is being torn down, its row is that of an asset of which nothing is on
/// disk, whatever happened before: its optional files are complete only where it has none.
pub proof fn law_given_up_rows_are_cleared(
    assets: Seq<types::AssetView>,
    steps: Seq<RegistryStep>,
    id: Seq<char>,
)
    requires
        forall|i: int|
            0 <= i < steps.len() ==> (#[trigger] steps[i] matches RegistryStep::Cancel { asset }
                ==> find_listed(assets, asset.id) == Some(asset)),
        after_steps(assets, steps).cancelling.contains(id),
    ensures
        ({
            let r = after_steps(assets, steps);
            &&& r.statuses.contains_key(id)
            &&& find_listed(assets, id) matches Some(a)
            &&& r.statuses[id] == types::StatusView::cleared(a)
            &&& r.statuses[id].optional_complete <==> a.optional_files.len() == 0
        }),
    decreases steps.len(),
{
    if steps.len() > 0 {
        let before = steps.drop_last();
        let r = after_steps(assets, before);
        assert forall|i: int| 0 <= i < before.len() implies (
        #[trigger] before[i] matches RegistryStep::Cancel { asset } ==> find_listed(
            assets,
            asset.id,
        ) == Some(asset)) by {
            assert(before[i] == steps[i]);
        }
        assert(steps[steps.len() - 1] == steps.last());
        match steps.last() {
            RegistryStep::Cancel { asset } => {
                if asset.id != id {
                    law_given_up_rows_are_cleared(assets, before, id);
                }
            },
            RegistryStep::Refresh { disk } => {
                lemma_refresh_keeps_workers(r, assets, disk);
                law_given_up_rows_are_cleared(assets, before, id);
                law_cancelled_download_stays_reset(r, assets, id, steps.last());
            },
            RegistryStep::Start { asset, disk } => {
                lemma_refresh_keeps_workers(r, assets, disk);
                law_given_up_rows_are_cleared(assets, before, id);
                law_cancelled_download_stays_reset(r, assets, id, steps.last());
            },
            _ => {
                law_given_up_rows_are_cleared(assets, before, id);
                law_cancelled_download_stays_reset(r, assets, id, steps.last());
            },
        }
    }
}

/// What the row of an asset that has a worker or a teardown says of its optional files:
/// whether all were on disk when the worker began, or what the worker last reported at its
/// end, or whether there are none once the download was given up.
pub open spec fn optional_told(
    assets: Seq<types::AssetView>,
    steps: Seq<RegistryStep>,
    id: Seq<char>,
) -> bool
    decreases steps.len(),
{
    if steps.len() == 0 {
        true
    } else {
        let front = steps.drop_last();
        let r = after_steps(assets, front);
        let before = optional_told(assets, front, id);
        match steps.last() {
            RegistryStep::Start { asset, disk } => if asset.id == id && r.started(
                assets,
                asset,
                disk,
            ).1 is Spawn {
                all_optional_files(asset, disk)
            } else {
                before
            },
            RegistryStep::Cancel { asset } => if asset.id == id {
                asset.optional_files.len() == 0
            } else {
                before
            },
            RegistryStep::Told { event } => match event.kind {
                types::KindView::Completed { optional_complete, .. } => if event.entry_id == id
                    && !r.cancelling.contains(id) {
                    optional_complete
                } else {
                    before
                },
                _ => before,
            },
            _ => before,
        }
    }
}

/// An asset that has a worker or a teardown has a row, and the row says of its optional
/// files what was told of them: as long as the worker has not reported its end, they are
/// incomplete where one was missing when it began.
pub proof fn law_busy_rows_tell_the_optional_files(
    assets: Seq<types::AssetView>,
    steps: Seq<RegistryStep>,
    id: Seq<char>,
)
    requires
        after_steps(assets, steps).busy(id),
    ensures
        after_steps(assets, steps).statuses.contains_key(id),
        after_steps(assets, steps).statuses[id].optional_complete == optional_told(
            assets,
            steps,
            id,
        ),
    decreases steps.len(),
{
    if steps.len() > 0 {
        let front = steps.drop_last();
        let r = after_steps(assets, front);
        law_statuses_keep_their_ids(assets, steps);
        if r.busy(id) {
            law_busy_rows_tell_the_optional_files(assets, front, id);
        }
        match steps.last() {
            RegistryStep::Refresh { disk } => {
                lemma_refresh_keeps_workers(r, assets, disk);
                lemma_refresh_skips_busy(r, assets, disk, id);
            },
            RegistryStep::Start { asset, disk } => {
                lemma_refresh_keeps_workers(r, assets, disk);
                if r.busy(id) {
                    lemma_refresh_skips_busy(r, assets, disk, id);
                }
            },
            _ => {},
        }
    }
}

/// The step leaves an asset's worker at its work: it neither ends it nor reports its end,
/// and where it gives the download up, that is the asset's.
pub open spec fn leaves_at_work(step: RegistryStep, a: types::AssetView) -> bool {
    match step {
        RegistryStep::WorkerEnded { id } => id != a.id,
        RegistryStep::Told { event } => event.entry_id != a.id || !(event.kind is Completed),
        RegistryStep::Cancel { asset } => asset.id == a.id ==> asset == a,
        _ => true,
    }
}

/// From the start of a worker until it reports its end, the asset's row says that its
/// optional files are incomplete where one was missing at the start, whatever else happens.
pub proof fn law_running_rows_lack_what_was_missing(
    assets: Seq<types::AssetView>,
    before: Seq<RegistryStep>,
    a: types::AssetView,
    disk: Map<Seq<char>, types::DiskEntry>,
    after: Seq<RegistryStep>,
)
    requires
        after_steps(assets, before).started(assets, a, disk).1 is Spawn,
        !all_optional_files(a, disk),
        forall|i: int| 0 <= i < after.len() ==> leaves_at_work(#[trigger] after[i], a),
    ensures
        ({
            let start = RegistryStep::Start { asset: a, disk };
            let r = after_steps(assets, before.push(start) + after);
            &&& r.active.contains_key(a.id)
            &&& r.statuses.contains_key(a.id)
            &&& !r.statuses[a.id].optional_complete
        }),
    decreases after.len(),
{
    let start = RegistryStep::Start { asset: a, disk };
    let steps = before.push(start) + after;
    if after.len() == 0 {
        assert(steps =~= before.push(start));
        assert(steps.drop_last() =~= before);
        assert(steps.last() == start);
    } else {
        let front = after.drop_last();
        assert forall|i: int| 0 <= i < front.len() implies leaves_at_work(#[trigger] front[i], a) by {
            assert(front[i] == after[i]);
        }
        law_running_rows_lack_what_was_missing(assets, before, a, disk, front);
        assert(steps.drop_last() =~= before.push(start) + front);
        assert(steps.last() == after.last());
        assert(leaves_at_work(after[after.len() - 1], a));
        let r = after_steps(assets, steps.drop_last());
        match steps.last() {
            RegistryStep::Refresh { disk } => {
                lemma_refresh_keeps_workers(r, assets, disk);
                lemma_refresh_skips_busy(r, assets, disk, a.id);
            },
            RegistryStep::Start { asset, disk } => {
                lemma_refresh_keeps_workers(r, assets, disk);
                lemma_refresh_skips_busy(r, assets, disk, a.id);
            },
            _ => {},
        }
    }
}

/// A snapshot has a row for every asset, whatever happened before. Where the asset has
/// neither a worker nor a teardown, the row is what the disk gives; else it says of the
/// optional files what was told of them. So it says that they are incomplete where one is
/// missing: now, or when the worker began that has not reported its end, or where the
/// download was given up.
pub proof fn law_snapshot_shows_every_asset(
    assets: Seq<types::AssetView>,
    steps: Seq<RegistryStep>,
    disk: Map<Seq<char>, types::DiskEntry>,
    m: int,
)
    requires
        0 <= m < assets.len(),
        is_last(assets, m),
    ensures
        ({
            let a = assets[m];
            let before = after_steps(assets, steps);
            let rows = before.refreshed(assets, disk).statuses;
            &&& rows.contains_key(a.id)
            &&& !before.busy(a.id) ==> rows[a.id] == scanned(a, disk)
            &&& !before.busy(a.id) && worker::optional_missing_on(a, disk)
                ==> !rows[a.id].optional_complete
            &&& before.busy(a.id) ==> rows[a.id] == before.statuses[a.id]
            &&& before.busy(a.id) ==> rows[a.id].optional_complete == optional_told(
                assets,
                steps,
                a.id,
            )
        }),
{
    let a = assets[m];
    let before = after_steps(assets, steps);
    law_statuses_keep_their_ids(assets, steps);
    lemma_refresh_has_every_asset(before, assets, disk);
    if before.busy(a.id) {
        law_busy_rows_tell_the_optional_files(assets, steps, a.id);
        lemma_refresh_skips_busy(before, assets, disk, a.id);
    }
}

/// Optional files never take an asset's state back from downloaded: the state is that
/// of the asset without them.
pub proof fn law_optional_files_do_not_demote(
    a: types::AssetView,
    disk: Map<Seq<char>, types::DiskEntry>,
)
    ensures
        ({
            let bare = types::AssetView { optional_files: Seq::empty(), ..a };
            scanned(a, disk).state == scanned(bare, disk).state
        }),
{
    let bare = types::AssetView { optional_files: Seq::empty(), ..a };
    assert(worker::essentials_on(a, disk) == worker::essentials_on(bare, disk)) by {
        assert(forall|n: Seq<char>| #[trigger] a.path_of(n) == bare.path_of(n));
        if worker::essentials_on(bare, disk) {
            assert forall|i: int| 0 <= i < a.files.len() implies disk.contains_key(
                a.path_of(#[trigger] a.files[i]),
            ) by {
                assert(disk.contains_key(bare.path_of(bare.files[i])));
            }
        }
        if worker::essentials_on(a, disk) {
            assert forall|i: int| 0 <= i < bare.files.len() implies disk.contains_key(
                bare.path_of(#[trigger] bare.files[i]),
            ) by {
                assert(disk.contains_key(a.path_of(a.files[i])));
            }
        }
    }
    assert(something_on(a, disk) == something_on(bare, disk)) by {
        if something_on(a, disk) {
            let i = choose|i: int|
                0 <= i < a.files.len() && (disk.contains_key(a.path_of(#[trigger] a.files[i]))
                    || disk.contains_key(a.part_path_of(a.files[i])));
            assert(disk.contains_key(bare.path_of(bare.files[i])) || disk.contains_key(
                bare.part_path_of(bare.files[i]),
            ));
        }
        if something_on(bare, disk) {
            let i = choose|i: int|
                0 <= i < bare.files.len() && (disk.contains_key(
                    bare.path_of(#[trigger] bare.files[i]),
                ) || disk.contains_key(bare.part_path_of(bare.files[i])));
            assert(disk.contains_key(a.path_of(a.files[i])) || disk.contains_key(
                a.part_path_of(a.files[i]),
            ));
        }
    }
}

/// A look at the disk tells what is there: an asset is downloaded where every essential file
/// stands at its place, paused where at least something of one does, and its optional files
/// are complete where each stands under its local name. The total is never below the bytes.
pub proof fn law_scan_tells_what_is_on_disk(
    a: types::AssetView,
    disk: Map<Seq<char>, types::DiskEntry>,
)
    ensures
        ({
            let s = scanned(a, disk);
            let here = |name: Seq<char>|
                disk.contains_key(paths::path_joined(a.target_dir, name));
            let part = |name: Seq<char>|
                disk.contains_key(paths::path_joined(a.target_dir, name + ".part"@));
            &&& s.entry_id == a.id && s.error is None
            &&& s.state == AssetState::Downloaded <==> forall|i: int|
                0 <= i < a.files.len() ==> here(#[trigger] a.files[i])
            &&& s.state == AssetState::NotDownloaded <==> a.files.len() > 0 && forall|i: int|
                0 <= i < a.files.len() ==> !here(#[trigger] a.files[i]) && !part(a.files[i])
            &&& s.state == AssetState::Downloaded || s.state == AssetState::NotDownloaded
                || s.state == AssetState::Paused
            &&& s.optional_complete <==> forall|i: int|
                0 <= i < a.optional_files.len() ==> here((#[trigger] a.optional_files[i]).1)
            &&& s.total >= s.downloaded && s.total >= a.estimated_bytes
            &&& s.total == s.downloaded || s.total == a.estimated_bytes
        }),
{
    assert(forall|n: Seq<char>| #[trigger] a.path_of(n) == paths::path_joined(a.target_dir, n));
    assert(forall|n: Seq<char>| #[trigger]
        a.part_path_of(n) == paths::path_joined(a.target_dir, n + ".part"@));
    if !worker::essentials_on(a, disk) {
        let i = choose|i: int|
            0 <= i < a.files.len() && !disk.contains_key(a.path_of(#[trigger] a.files[i]));
        assert(!disk.contains_key(paths::path_joined(a.target_dir, a.files[i])));
    } else if a.files.len() > 0 {
        assert(disk.contains_key(a.path_of(a.files[0])));
    }
    if something_on(a, disk) {
        let i = choose|i: int|
            0 <= i < a.files.len() && (disk.contains_key(a.path_of(#[trigger] a.files[i]))
                || disk.contains_key(a.part_path_of(a.files[i])));
        assert(disk.contains_key(paths::path_joined(a.target_dir, a.files[i]))
            || disk.contains_key(paths::path_joined(a.target_dir, a.files[i] + ".part"@)));
    }
    if worker::optional_missing_on(a, disk) {
        let i = choose|i: int|
            0 <= i < a.optional_files.len() && !disk.contains_key(
                a.path_of((#[trigger] a.optional_files[i]).1),
            );
        assert(!disk.contains_key(paths::path_joined(a.target_dir, a.optional_files[i].1)));
    }
}

/// The bytes on disk are those of every file, essential or optional: of the file itself where
/// it is there, else of what there is of it. One more optional file adds its bytes.
pub proof fn law_bytes_on_disk_add_up(
    a: types::AssetView,
    disk: Map<Seq<char>, types::DiskEntry>,
    remote: Seq<char>,
    local: Seq<char>,
)
    ensures
        ({
            let more = types::AssetView {
                optional_files: a.optional_files.push((remote, local)),
                ..a
            };
            let whole = paths::path_joined(a.target_dir, local);
            let part = paths::path_joined(a.target_dir, local + ".part"@);
            let bytes: int = if disk.contains_key(whole) {
                disk[whole].len as int
            } else if disk.contains_key(part) {
                disk[part].len as int
            } else {
                0
            };
            let before = scanned(a, disk).downloaded;
            let after = scanned(more, disk).downloaded;
            &&& before + bytes <= u64::MAX ==> after == before + bytes
            &&& before + bytes > u64::MAX ==> after == u64::MAX
        }),
        ({
            let none = types::AssetView { files: seq![], optional_files: seq![], ..a };
            scanned(none, disk).downloaded == 0
        }),
{
    let more = types::AssetView { optional_files: a.optional_files.push((remote, local)), ..a };
    let names = a.files + locals_of(a);
    assert(more.files + locals_of(more) =~= names.push(local));
    assert(names.push(local).drop_last() =~= names);
    lemma_bytes_on_same(a, more, disk, names);
    let none = types::AssetView { files: seq![], optional_files: seq![], ..a };
    assert((none.files + locals_of(none)).len() == 0);
}

proof fn lemma_bytes_on_same(
    a: types::AssetView,
    b: types::AssetView,
    disk: Map<Seq<char>, types::DiskEntry>,
    names: Seq<Seq<char>>,
)
    requires
        a.target_dir == b.target_dir,
    ensures
        bytes_on(a, disk, names) == bytes_on(b, disk, names),
    decreases names.len(),
{
    if names.len() > 0 {
        lemma_bytes_on_same(a, b, disk, names.drop_last());
        assert(a.path_of(names.last()) == b.path_of(names.last()));
        assert(a.part_path_of(names.last()) == b.part_path_of(names.last()));
    }
}

/// Nothing of a download that was given up is left behind: among the paths that are cleaned
/// up are those of every file of the asset, and of what there may be of it.
pub proof fn law_every_trace_is_cleaned_up(a: types::AssetView, i: int)
    ensures
        ({
            let all = paths_of(a, a.files + locals_of(a));
            &&& 0 <= i < a.files.len() ==> all.contains(
                paths::path_joined(a.target_dir, a.files[i]),
            ) && all.contains(paths::path_joined(a.target_dir, a.files[i] + ".part"@))
            &&& 0 <= i < a.optional_files.len() ==> all.contains(
                paths::path_joined(a.target_dir, a.optional_files[i].1),
            ) && all.contains(paths::path_joined(a.target_dir, a.optional_files[i].1 + ".part"@))
        }),
{
    let names = a.files + locals_of(a);
    if 0 <= i < a.files.len() {
        assert(names[i] == a.files[i]);
        lemma_paths_have(a, names, i);
    }
    if 0 <= i < a.optional_files.len() {
        assert(names[a.files.len() + i] == a.optional_files[i].1);
        lemma_paths_have(a, names, a.files.len() + i);
    }
}

proof fn lemma_paths_have(a: types::AssetView, names: Seq<Seq<char>>, i: int)
    requires
        0 <= i < names.len(),
    ensures
        paths_of(a, names).contains(a.path_of(names[i])),
        paths_of(a, names).contains(a.part_path_of(names[i])),
    decreases names.len(),
{
    let front = names.drop_last();
    let before = paths_of(a, front);
    let all = paths_of(a, names);
    if i < front.len() {
        lemma_paths_have(a, front, i);
        assert(front[i] == names[i]);
        let x = choose|x: int| 0 <= x < before.len() && before[x] == a.path_of(names[i]);
        let y = choose|y: int| 0 <= y < before.len() && before[y] == a.part_path_of(names[i]);
        assert(all[x] == before[x] && all[y] == before[y]);
    } else {
        assert(all[before.len() as int] == a.path_of(names[i]));
        assert(all[before.len() as int + 1] == a.part_path_of(names[i]));
    }
}

/// A start lets a worker begin for the asset itself, exactly where none is alive, no teardown
/// is under way and something is missing; then the row says that the download runs, with the
/// bytes and the total that were known, and no other row changes.
pub proof fn law_start_begins_what_may_begin(
    r: RegistryView,
    assets: Seq<types::AssetView>,
    a: types::AssetView,
    disk: Map<Seq<char>, types::DiskEntry>,
)
    ensures
        ({
            let seen = r.refreshed(assets, disk);
            let (after, outcome) = r.started(assets, a, disk);
            let known = seen.statuses.contains_key(a.id);
            let optional_there = forall|i: int|
                0 <= i < a.optional_files.len() ==> {
                    let p = paths::path_joined(a.target_dir, (#[trigger] a.optional_files[i]).1);
                    disk.contains_key(p) && disk[p].is_file
                };
            let idle = !r.active.contains_key(a.id) && !r.cancelling.contains(a.id);
            let missing = !known || (seen.statuses[a.id].state != AssetState::Downloading && (
            seen.statuses[a.id].state != AssetState::Downloaded || !optional_there));
            &&& idle && missing ==> outcome == StartView::Spawn(a)
            &&& !(idle && missing) ==> outcome is Nothing && after == seen
            &&& outcome is Spawn ==> {
                let row = after.statuses[a.id];
                &&& after.active == r.active.insert(a.id, false)
                &&& after.cancelling == r.cancelling
                &&& after.statuses.contains_key(a.id) && row.entry_id == a.id
                &&& row.state == AssetState::Downloading && row.error is None
                &&& row.optional_complete == optional_there
                &&& known ==> row.downloaded == seen.statuses[a.id].downloaded && row.total
                    == seen.statuses[a.id].total
                &&& !known ==> row.downloaded == 0 && row.total == a.estimated_bytes
                &&& forall|k: Seq<char>|
                    k != a.id ==> #[trigger] after.statuses.contains_key(k)
                        == seen.statuses.contains_key(k) && after.statuses[k] == seen.statuses[k]
            }
        }),
{
    lemma_refresh_keeps_workers(r, assets, disk);
    assert(forall|n: Seq<char>| #[trigger] a.path_of(n) == paths::path_joined(a.target_dir, n));
    if all_optional_files(a, disk) {
        assert forall|i: int| 0 <= i < a.optional_files.len() implies {
            let p = paths::path_joined(a.target_dir, (#[trigger] a.optional_files[i]).1);
            disk.contains_key(p) && disk[p].is_file
        } by {
            assert(types::file_on(disk, a.path_of(a.optional_files[i].1)));
        }
    } else {
        let i = choose|i: int|
            0 <= i < a.optional_files.len() && !types::file_on(
                disk,
                a.path_of((#[trigger] a.optional_files[i]).1),
            );
        let p = paths::path_joined(a.target_dir, a.optional_files[i].1);
        assert(!(disk.contains_key(p) && disk[p].is_file));
    }
}

/// An event changes the row that it tells of and no other, and only what it tells: progress
/// and pauses the bytes and the total, a failure the error, completion everything.
pub proof fn law_events_change_what_they_tell(r: RegistryView, e: types::EventView)
    requires
        !r.cancelling.contains(e.entry_id),
        r.statuses.contains_key(e.entry_id),
    ensures
        ({
            let before = r.statuses[e.entry_id];
            let after = r.told(e).statuses[e.entry_id];
            &&& r.told(e).active == r.active && r.told(e).cancelling == r.cancelling
            &&& forall|k: Seq<char>|
                k != e.entry_id ==> #[trigger] r.told(e).statuses.contains_key(k)
                    == r.statuses.contains_key(k) && r.told(e).statuses[k] == r.statuses[k]
            &&& r.told(e).statuses.contains_key(e.entry_id) && after.entry_id == before.entry_id
            &&& after.state == (match e.kind {
                types::KindView::Started { .. } => AssetState::Downloading,
                types::KindView::Progress { .. } => AssetState::Downloading,
                types::KindView::Paused { .. } => AssetState::Paused,
                types::KindView::Cancelled { .. } => AssetState::NotDownloaded,
                types::KindView::Completed { .. } => AssetState::Downloaded,
                types::KindView::Failed { .. } => AssetState::Failed,
            })
            &&& after.downloaded == (match e.kind {
                types::KindView::Progress { downloaded, .. } => downloaded,
                types::KindView::Paused { downloaded, .. } => downloaded,
                types::KindView::Completed { downloaded, .. } => downloaded,
                types::KindView::Cancelled { .. } => 0,
                _ => before.downloaded,
            })
            &&& after.total == (match e.kind {
                types::KindView::Started { total } => total,
                types::KindView::Progress { total, .. } => total,
                types::KindView::Paused { total, .. } => total,
                types::KindView::Cancelled { total } => total,
                types::KindView::Completed { downloaded, .. } => downloaded,
                types::KindView::Failed { .. } => before.total,
            })
            &&& after.optional_complete == (match e.kind {
                types::KindView::Completed { optional_complete, .. } => optional_complete,
                _ => before.optional_complete,
            })
            &&& after.error == (match e.kind {
                types::KindView::Failed { error, .. } => Some(error),
                types::KindView::Progress { .. } => before.error,
                types::KindView::Paused { .. } => before.error,
                _ => None,
            })
        }),
{
}

/// Pausing asks the worker of that asset to stop and nothing else; the end of a worker and of
/// a teardown are noted and nothing else is.
pub proof fn law_pauses_and_ends_are_noted(r: RegistryView, id: Seq<char>)
    ensures
        r.paused(id).statuses == r.statuses && r.paused(id).cancelling == r.cancelling,
        r.active.contains_key(id) ==> r.paused(id).active == r.active.insert(id, true),
        !r.active.contains_key(id) ==> r.paused(id) == r,
        r.worker_gone(id).statuses == r.statuses && r.worker_gone(id).cancelling == r.cancelling,
        r.worker_gone(id).active == r.active.remove(id),
        r.settled(id).statuses == r.statuses && r.settled(id).active == r.active,
        r.settled(id).cancelling == r.cancelling.remove(id),
{
}

/// A download that was given up is shown as not downloaded: no bytes, the estimate as its
/// total, no error, and its optional files missing unless it has none. Other rows stay.
pub proof fn law_given_up_downloads_start_from_nothing(r: RegistryView, a: types::AssetView)
    ensures
        ({
            let after = r.cancelled(a);
            let row = after.statuses[a.id];
            &&& row.entry_id == a.id && row.state == AssetState::NotDownloaded
            &&& row.downloaded == 0 && row.total == a.estimated_bytes && row.error is None
            &&& row.optional_complete <==> a.optional_files.len() == 0
            &&& after.cancelling == r.cancelling.insert(a.id)
            &&& forall|k: Seq<char>|
                k != a.id ==> #[trigger] after.statuses.contains_key(k) == r.statuses.contains_key(
                    k,
                ) && after.statuses[k] == r.statuses[k] && after.active.contains_key(k)
                    == r.active.contains_key(k) && (r.active.contains_key(k) ==> after.active[k]
                    == r.active[k])
        }),
{
}

/// An asset is looked up by its id: the first that has it.
pub proof fn law_assets_are_found_by_id(assets: Seq<types::AssetView>, id: Seq<char>)
    ensures
        match find_listed(assets, id) {
            Some(a) => a.id == id && exists|i: int|
                0 <= i < assets.len() && #[trigger] assets[i] == a && forall|j: int|
                    0 <= j < i ==> (#[trigger] assets[j]).id != id,
            None => forall|i: int| 0 <= i < assets.len() ==> (#[trigger] assets[i]).id != id,
        },
    decreases assets.len(),
{
    if assets.len() > 0 && assets[0].id != id {
        let rest = assets.drop_first();
        law_assets_are_found_by_id(rest, id);
        match find_listed(assets, id) {
            Some(a) => {
                let i = choose|i: int|
                    0 <= i < rest.len() && #[trigger] rest[i] == a && forall|j: int|
                        0 <= j < i ==> (#[trigger] rest[j]).id != id;
                assert(assets[i + 1] == a);
                assert forall|j: int| 0 <= j < i + 1 implies (#[trigger] assets[j]).id != id by {
                    if j > 0 {
                        assert(rest[j - 1] == assets[j]);
                    }
                }
            },
            None => {
                assert forall|i: int| 0 <= i < assets.len() implies (#[trigger] assets[i]).id != id by {
                    if i > 0 {
                        assert(rest[i - 1] == assets[i]);
                    }
                }
            },
        }
    }
}

/// An id that no asset has is told as it was given.
pub proof fn law_unknown_ids_are_told(id: Seq<char>)
    ensures
        unknown_asset(id) == "unknown asset id: "@ + id,
{
}

} // verus!
