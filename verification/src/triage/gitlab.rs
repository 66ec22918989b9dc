//! GitLab's issues and merge requests as candidates: which repositories are looked at,
//! which items count, and what is kept of each.
use vstd::prelude::*;
use crate::assoc::AssocMap;
use crate::numbers;
use crate::pieces;
use crate::text;
use crate::time::Timestamp;
use crate::triage::cache;
use crate::triage::fetcher::Fetcher;
use crate::triage::repos::RepoRow;
use crate::triage::storage;
use crate::triage::storage::NewCandidate;

verus! {

/// The source's id.
pub const SOURCE: &'static str = "gitlab";

/// Items of one repository that are looked at.
pub const PER_REPO_LIMIT: usize = 50;

/// The fetcher of GitLab's issues and merge requests.
pub struct GitlabFetcher;

impl Fetcher for GitlabFetcher {
    open spec fn source_id(&self) -> Seq<char> {
        SOURCE@
    }

    fn source(&self) -> (r: String) {
        SOURCE.to_string()
    }
}

// ---------------------------------------------------------------------------
// Repositories
// ---------------------------------------------------------------------------

/// What a repository's address says.
pub struct ParsedRemote {
    pub host: String,
    /// The groups that the repository lies in, with separators between.
    pub namespace: String,
    pub repo: String,
}

/// A registered repository, and what its address says where it has one.
pub struct RepoCandidate {
    pub row: RepoRow,
    pub parsed: Option<ParsedRemote>,
}

/// A repository that is looked at.
pub struct RepoTarget {
    pub login: String,
    pub host: String,
    pub owner_path: String,
}

/// Login, host and path of a repository.
pub type TargetKey = (Seq<char>, Seq<char>, Seq<char>);

impl View for RepoTarget {
    type V = TargetKey;

    open spec fn view(&self) -> TargetKey {
        (self.login@, self.host@, self.owner_path@)
    }
}

/// What the targets of a list are.
pub open spec fn target_views(v: Seq<RepoTarget>) -> Seq<TargetKey> {
    Seq::new(v.len(), |i: int| v[i]@)
}

/// The target that a repository is, where it is one of GitLab's, somebody is logged in for
/// it and its address is known.
pub open spec fn target_of(c: RepoCandidate) -> Option<TargetKey> {
    let row = c.row@;
    match (row.forge_login, c.parsed) {
        (Some(login), Some(p)) => if row.forge_provider == Some(SOURCE@) && pieces::trimmed(
            login,
        ).len() > 0 && row.remote_url is Some {
            Some((login, p.host@, p.namespace@ + "/"@ + p.repo@))
        } else {
            None
        },
        _ => None,
    }
}

/// By what two targets are the same: case does not count.
pub open spec fn key_of(t: TargetKey) -> TargetKey {
    (numbers::lowered(t.0), numbers::lowered(t.1), numbers::lowered(t.2))
}

/// The keys of the targets.
pub open spec fn keys_of(ts: Seq<TargetKey>) -> Set<TargetKey> {
    Set::new(|k: TargetKey| exists|i: int| 0 <= i < ts.len() && key_of(#[trigger] ts[i]) == k)
}

/// The targets among the repositories, each once, the first that has its key.
pub open spec fn targets_of(cs: Seq<RepoCandidate>) -> Seq<TargetKey>
    decreases cs.len(),
{
    if cs.len() == 0 {
        seq![]
    } else {
        let before = targets_of(cs.drop_last());
        match target_of(cs.last()) {
            Some(t) => if keys_of(before).contains(key_of(t)) {
                before
            } else {
                before.push(t)
            },
            None => before,
        }
    }
}

/// Keys that were seen.
pub struct SeenTargets {
    pub seen: AssocMap<(String, String, String), ()>,
}

impl View for SeenTargets {
    type V = Set<TargetKey>;

    open spec fn view(&self) -> Set<TargetKey> {
        self.seen@.dom()
    }
}

impl SeenTargets {
    /// No key is listed twice.
    pub open spec fn wf(&self) -> bool {
        self.seen.wf()
    }

    /// Nothing was seen.
    pub fn new() -> (r: SeenTargets)
        ensures
            r.wf(),
            r@ == Set::<TargetKey>::empty(),
    {
        let r = SeenTargets { seen: AssocMap::new() };
        assert(r@ =~= Set::<TargetKey>::empty());
        r
    }

    /// Notes a key. The result is true where it was not seen before.
    pub fn insert(&mut self, key: (String, String, String)) -> (r: bool)
        requires
            old(self).wf(),
        ensures
            final(self).wf(),
            final(self)@ == old(self)@.insert(key@),
            r == !old(self)@.contains(key@),
    {
        if self.seen.contains_key(&key) {
            assert(old(self)@.insert(key@) =~= old(self)@);
            return false;
        }
        self.seen.insert(key, ());
        assert(self@ =~= old(self)@.insert(key@));
        true
    }
}

fn read_target(c: &RepoCandidate) -> (r: Option<RepoTarget>)
    ensures
        match r {
            Some(t) => target_of(*c) == Some(t@),
            None => target_of(*c) is None,
        },
{
    let gitlab = match &c.row.forge_provider {
        Some(p) => text::same(p.as_str(), SOURCE),
        None => false,
    };
    if !gitlab || c.row.remote_url.is_none() {
        return None;
    }
    match (&c.row.forge_login, &c.parsed) {
        (Some(login), Some(p)) => {
            if pieces::trim(login.as_str()).as_str().is_empty() {
                return None;
            }
            let mut owner_path = p.namespace.clone();
            owner_path.append("/");
            owner_path.append(p.repo.as_str());
            Some(RepoTarget { login: login.clone(), host: p.host.clone(), owner_path })
        },
        _ => None,
    }
}

proof fn lemma_keys_of_push(ts: Seq<TargetKey>, t: TargetKey)
    ensures
        keys_of(ts.push(t)) == keys_of(ts).insert(key_of(t)),
{
    let more = ts.push(t);
    assert forall|k: TargetKey| keys_of(more).contains(k) <==> keys_of(ts).insert(
        key_of(t),
    ).contains(k) by {
        if keys_of(more).contains(k) {
            let i = choose|i: int| 0 <= i < more.len() && key_of(#[trigger] more[i]) == k;
            if i < ts.len() {
                assert(key_of(ts[i]) == k);
            }
        }
        if keys_of(ts).contains(k) {
            let i = choose|i: int| 0 <= i < ts.len() && key_of(#[trigger] ts[i]) == k;
            assert(key_of(more[i]) == k);
        }
        if k == key_of(t) {
            assert(key_of(more[ts.len() as int]) == k);
        }
    }
    assert(keys_of(more) =~= keys_of(ts).insert(key_of(t)));
}

/// The repositories to look at, each once.
pub fn build_repo_targets(repos: &Vec<RepoCandidate>) -> (r: Vec<RepoTarget>)
    ensures
        target_views(r@) == targets_of(repos@),
{
    let mut seen = SeenTargets::new();
    let mut out: Vec<RepoTarget> = Vec::new();
    let mut i: usize = 0;
    assert(target_views(out@) =~= targets_of(repos@.take(0)));
    assert(seen@ =~= keys_of(targets_of(repos@.take(0))));
    while i < repos.len()
        invariant
            i <= repos@.len(),
            seen.wf(),
            target_views(out@) == targets_of(repos@.take(i as int)),
            seen@ == keys_of(targets_of(repos@.take(i as int))),
        decreases repos@.len() - i,
    {
        assert(repos@.take(i + 1).drop_last() =~= repos@.take(i as int));
        assert(repos@.take(i + 1).last() == repos@[i as int]);
        match read_target(&repos[i]) {
            Some(t) => {
                let key = (
                    numbers::lower(t.login.as_str()),
                    numbers::lower(t.host.as_str()),
                    numbers::lower(t.owner_path.as_str()),
                );
                assert(key@ == key_of(t@));
                let ghost before = target_views(out@);
                if seen.insert(key) {
                    out.push(t);
                    assert(target_views(out@) =~= before.push(t@));
                    proof {
                        lemma_keys_of_push(before, t@);
                    }
                } else {
                    assert(seen@ =~= keys_of(before));
                }
            },
            None => {},
        }
        i += 1;
    }
    assert(repos@.take(i as int) =~= repos@);
    out
}

/// What the host asks a repository for.
pub struct ListRequest {
    pub login: String,
    /// The repository's own host, which need not be the one that the login is at home on.
    pub host: String,
    pub owner_path: String,
    pub issues: bool,
    pub merge_requests: bool,
    pub discussions: bool,
    /// Only what is open.
    pub open: bool,
    /// Drafts too.
    pub drafts: bool,
    pub limit: usize,
}

/// What a repository is asked for: its open issues and those of its open merge requests
/// that are no drafts.
pub fn list_request(target: &RepoTarget) -> (r: ListRequest)
    ensures
        (r.login@, r.host@, r.owner_path@) == target@,
        r.issues && r.merge_requests && !r.discussions,
        r.open && !r.drafts,
        r.limit == PER_REPO_LIMIT,
{
    ListRequest {
        login: target.login.clone(),
        host: target.host.clone(),
        owner_path: target.owner_path.clone(),
        issues: true,
        merge_requests: true,
        discussions: false,
        open: true,
        drafts: false,
        limit: PER_REPO_LIMIT,
    }
}

// ---------------------------------------------------------------------------
// Items
// ---------------------------------------------------------------------------

/// What an item is.
#[derive(Clone, Copy, Debug, PartialEq, Eq, Structural)]
pub enum InboxSource {
    GitlabIssue,
    GitlabMr,
    Other,
}

/// An issue or merge request as it is listed.
pub struct InboxItem {
    pub source: InboxSource,
    /// The repository's path and the item's number, with `#` between.
    pub external_id: String,
    pub external_url: String,
    pub title: String,
    pub subtitle: Option<String>,
    /// Milliseconds since the beginning of 1970.
    pub last_activity_at: i64,
}

/// What the host asks for of one item in full.
pub struct DetailRequest {
    pub login: String,
    /// The repository's own host, as for its list.
    pub host: String,
    pub source: InboxSource,
    pub external_id: String,
}

/// The request for an item of a repository in full: it goes where the list came from.
pub fn detail_request(target: &RepoTarget, item: &InboxItem) -> (r: DetailRequest)
    ensures
        (r.login@, r.host@) == (target@.0, target@.1),
        r.source == item.source,
        r.external_id@ == item.external_id@,
{
    DetailRequest {
        login: target.login.clone(),
        host: target.host.clone(),
        source: item.source,
        external_id: item.external_id.clone(),
    }
}

/// The items that something happened to since the cutoff, in their order.
pub open spec fn recent_of(items: Seq<InboxItem>, cutoff_ms: i64) -> Seq<InboxItem> {
    items.filter(|i: InboxItem| i.last_activity_at >= cutoff_ms)
}

/// The items that something happened to since the cutoff, in their order.
pub fn recent_items(items: Vec<InboxItem>, cutoff_ms: i64) -> (r: Vec<InboxItem>)
    ensures
        r@ == recent_of(items@, cutoff_ms),
{
    let ghost all = items@;
    let ghost keep = |i: InboxItem| i.last_activity_at >= cutoff_ms;
    let mut out: Vec<InboxItem> = Vec::new();
    assert(out@ =~= all.take(0).filter(keep)) by {
        reveal(Seq::filter);
    }
    for item in it: items
        invariant
            it.seq() == all,
            keep == (|i: InboxItem| i.last_activity_at >= cutoff_ms),
            out@ == all.take(it.index() as int).filter(keep),
    {
        let ghost k = it.index() as int;
        assert(item == all[k]);
        assert(all.take(k + 1).drop_last() =~= all.take(k));
        assert(all.take(k + 1).last() == item);
        proof {
            reveal(Seq::filter);
        }
        if item.last_activity_at >= cutoff_ms {
            out.push(item);
        }
    }
    assert(all.take(all.len() as int) =~= all);
    out
}

/// The kind under which an item is kept.
pub open spec fn kind_text(source: InboxSource) -> Seq<char> {
    match source {
        InboxSource::GitlabIssue => "issue"@,
        InboxSource::GitlabMr => "mr"@,
        InboxSource::Other => "other"@,
    }
}

/// The kind under which an item is kept.
pub fn source_kind_for(source: InboxSource) -> (r: &'static str)
    ensures
        r@ == kind_text(source),
{
    match source {
        InboxSource::GitlabIssue => "issue",
        InboxSource::GitlabMr => "mr",
        InboxSource::Other => "other",
    }
}

/// The repository in an item's id: what stands before the last `#`.
pub open spec fn parent_of(external_id: Seq<char>) -> Seq<char> {
    match pieces::rsplit_char_of(external_id, '#') {
        Some((repo, _)) => repo,
        None => external_id,
    }
}

/// The repository in an item's id.
pub fn parent_from_external_id(external_id: &str) -> (r: String)
    ensures
        r@ == parent_of(external_id@),
{
    match pieces::rsplit_char(external_id, '#') {
        Some((repo, _)) => repo,
        None => external_id.to_string(),
    }
}

/// The path of an item's payload below the cache root.
pub open spec fn payload_path_of(parent: Seq<char>, source_ref: Seq<char>) -> Seq<char> {
    "gitlab/"@ + cache::segment_of(parent) + "/"@ + cache::segment_of(source_ref) + ".md"@
}

/// The path of an item's payload below the cache root.
pub fn build_payload_path(parent: &str, source_ref: &str) -> (r: String)
    ensures
        r@ == payload_path_of(parent@, source_ref@),
{
    let mut out = "gitlab/".to_string();
    out.append(cache::safe_segment(parent).as_str());
    out.append("/");
    out.append(cache::safe_segment(source_ref).as_str());
    out.append(".md");
    out
}

/// An issue in full.
pub struct IssueDetail {
    pub external_id: String,
    pub title: String,
    pub state: String,
    pub author_login: Option<String>,
    pub created_at: Option<String>,
    pub updated_at: Option<String>,
    pub url: String,
    pub body: Option<String>,
}

/// A merge request in full.
pub struct MergeRequestDetail {
    pub external_id: String,
    pub title: String,
    pub state: String,
    pub merged: bool,
    pub draft: bool,
    pub author_login: Option<String>,
    pub source_branch: Option<String>,
    pub target_branch: Option<String>,
    pub updated_at: Option<String>,
    pub url: String,
    pub body: Option<String>,
}

/// An item in full, where it could be had.
pub enum ItemDetail {
    Issue(IssueDetail),
    MergeRequest(MergeRequestDetail),
    Unavailable,
}

/// A line with a value.
pub open spec fn meta_line(name: Seq<char>, value: Seq<char>) -> Seq<char> {
    "- "@ + name + ": "@ + value + "\n"@
}

/// A line with a value, where there is one.
pub open spec fn opt_line(name: Seq<char>, value: Option<Seq<char>>) -> Seq<char> {
    match value {
        Some(v) => meta_line(name, v),
        None => seq![],
    }
}

/// How a truth value is written.
pub open spec fn flag_text(b: bool) -> Seq<char> {
    if b {
        "true"@
    } else {
        "false"@
    }
}

/// The body of an item, or that it has none.
pub open spec fn body_text(body: Option<Seq<char>>) -> Seq<char> {
    match body {
        Some(b) => b,
        None => "(no body)"@,
    }
}

/// An item that could not be had in full.
pub open spec fn minimal_of(item: InboxItem) -> Seq<char> {
    "# "@ + item.title@ + "\n\n"@ + meta_line("external_id"@, item.external_id@) + meta_line(
        "url"@,
        item.external_url@,
    ) + "- (detail unavailable)\n"@
}

/// The end of an item's text: its address, a rule and its body.
pub open spec fn closing(url: Seq<char>, body: Option<Seq<char>>) -> Seq<char> {
    meta_line("url"@, url) + "\n---\n\n"@ + body_text(body) + "\n"@
}

/// An issue as text.
pub open spec fn issue_text(d: IssueDetail) -> Seq<char> {
    "# Issue "@ + d.external_id@ + " — "@ + d.title@ + "\n\n"@ + meta_line("state"@, d.state@)
        + opt_line("author"@, text::opt_text(d.author_login)) + opt_line(
        "created"@,
        text::opt_text(d.created_at),
    ) + opt_line("updated"@, text::opt_text(d.updated_at)) + closing(
        d.url@,
        text::opt_text(d.body),
    )
}

/// A merge request as text.
pub open spec fn mr_text(d: MergeRequestDetail) -> Seq<char> {
    "# MR "@ + d.external_id@ + " — "@ + d.title@ + "\n\n"@ + meta_line("state"@, d.state@)
        + meta_line("merged"@, flag_text(d.merged)) + meta_line("draft"@, flag_text(d.draft))
        + opt_line("author"@, text::opt_text(d.author_login)) + opt_line(
        "source"@,
        text::opt_text(d.source_branch),
    ) + opt_line("target"@, text::opt_text(d.target_branch)) + opt_line(
        "updated"@,
        text::opt_text(d.updated_at),
    ) + closing(d.url@, text::opt_text(d.body))
}

fn push_line(out: &mut String, name: &str, value: &str)
    ensures
        final(out)@ == old(out)@ + meta_line(name@, value@),
{
    out.append("- ");
    out.append(name);
    out.append(": ");
    out.append(value);
    out.append("\n");
    assert(out@ =~= old(out)@ + meta_line(name@, value@));
}

fn push_opt_line(out: &mut String, name: &str, value: &Option<String>)
    ensures
        final(out)@ == old(out)@ + opt_line(name@, text::opt_text(*value)),
{
    match value {
        Some(v) => push_line(out, name, v.as_str()),
        None => {
            assert(out@ =~= old(out)@ + Seq::<char>::empty());
        },
    }
}

fn flag_word(b: bool) -> (r: &'static str)
    ensures
        r@ == flag_text(b),
{
    if b {
        "true"
    } else {
        "false"
    }
}

fn push_closing(out: &mut String, url: &str, body: &Option<String>)
    ensures
        final(out)@ == old(out)@ + closing(url@, text::opt_text(*body)),
{
    push_line(out, "url", url);
    out.append("\n---\n\n");
    match body {
        Some(b) => out.append(b.as_str()),
        None => out.append("(no body)"),
    }
    out.append("\n");
    assert(out@ =~= old(out)@ + closing(url@, text::opt_text(*body)));
}

/// An item that could not be had in full.
pub fn minimal_payload(item: &InboxItem) -> (r: String)
    ensures
        r@ == minimal_of(*item),
{
    let mut out = "# ".to_string();
    out.append(item.title.as_str());
    out.append("\n\n");
    push_line(&mut out, "external_id", item.external_id.as_str());
    push_line(&mut out, "url", item.external_url.as_str());
    out.append("- (detail unavailable)\n");
    out
}

/// An issue as text.
pub fn render_issue(d: &IssueDetail) -> (r: String)
    ensures
        r@ == issue_text(*d),
{
    let mut out = "# Issue ".to_string();
    out.append(d.external_id.as_str());
    out.append(" — ");
    out.append(d.title.as_str());
    out.append("\n\n");
    push_line(&mut out, "state", d.state.as_str());
    push_opt_line(&mut out, "author", &d.author_login);
    push_opt_line(&mut out, "created", &d.created_at);
    push_opt_line(&mut out, "updated", &d.updated_at);
    push_closing(&mut out, d.url.as_str(), &d.body);
    out
}

/// A merge request as text.
pub fn render_mr(d: &MergeRequestDetail) -> (r: String)
    ensures
        r@ == mr_text(*d),
{
    let mut out = "# MR ".to_string();
    out.append(d.external_id.as_str());
    out.append(" — ");
    out.append(d.title.as_str());
    out.append("\n\n");
    push_line(&mut out, "state", d.state.as_str());
    push_line(&mut out, "merged", flag_word(d.merged));
    push_line(&mut out, "draft", flag_word(d.draft));
    push_opt_line(&mut out, "author", &d.author_login);
    push_opt_line(&mut out, "source", &d.source_branch);
    push_opt_line(&mut out, "target", &d.target_branch);
    push_opt_line(&mut out, "updated", &d.updated_at);
    push_closing(&mut out, d.url.as_str(), &d.body);
    out
}

/// The payload of an item: its text in full, or the little that the list tells.
pub open spec fn payload_of(item: InboxItem, detail: ItemDetail) -> Seq<char> {
    match detail {
        ItemDetail::Issue(d) => issue_text(d),
        ItemDetail::MergeRequest(d) => mr_text(d),
        ItemDetail::Unavailable => minimal_of(item),
    }
}

/// The payload of an item that is new.
pub fn detail_body(item: &InboxItem, detail: &ItemDetail) -> (r: String)
    ensures
        r@ == payload_of(*item, *detail),
{
    match detail {
        ItemDetail::Issue(d) => render_issue(d),
        ItemDetail::MergeRequest(d) => render_mr(d),
        ItemDetail::Unavailable => minimal_payload(item),
    }
}

/// The instant of an item: its last activity, or now where that is no instant.
pub open spec fn item_time(item: InboxItem, now: Timestamp) -> Timestamp {
    match Timestamp::of_millis(item.last_activity_at) {
        Some(t) => t,
        None => now,
    }
}

/// The candidate that an item is. `known` is the path of its payload where the item was
/// fetched before, and `written` the size of the payload where it was not.
pub open spec fn candidate_view(
    item: InboxItem,
    now: Timestamp,
    known: Option<Seq<char>>,
    written: u64,
) -> storage::NewCandidateView {
    storage::NewCandidateView {
        id: "gitlab:"@ + item.external_id@,
        source: SOURCE@,
        source_kind: kind_text(item.source),
        source_ref: item.external_id@,
        source_time: item_time(item, now),
        sender: text::opt_text(item.subtitle),
        title: Some(item.title@),
        preview: text::opt_text(item.subtitle),
        external_url: Some(item.external_url@),
        payload_path: match known {
            Some(p) => p,
            None => payload_path_of(parent_of(item.external_id@), item.external_id@),
        },
        payload_bytes: match known {
            Some(_) => 0,
            None => written,
        },
    }
}

/// The id of an item's candidate.
pub fn candidate_id(item: &InboxItem) -> (r: String)
    ensures
        r@ == "gitlab:"@ + item.external_id@,
{
    let mut id = "gitlab:".to_string();
    id.append(item.external_id.as_str());
    id
}

/// The candidate that an item is.
pub fn ingest_item(item: &InboxItem, now: Timestamp, known: Option<String>, written: u64) -> (r:
    NewCandidate)
    requires
        now.wf(),
    ensures
        r@ == candidate_view(*item, now, text::opt_text(known), written),
        r.source_time.wf(),
{
    let source_time = match Timestamp::from_millis(item.last_activity_at) {
        Some(t) => t,
        None => now,
    };
    let parent = parent_from_external_id(item.external_id.as_str());
    let (payload_path, payload_bytes): (String, u64) = match known {
        Some(p) => (p, 0),
        None => (build_payload_path(parent.as_str(), item.external_id.as_str()), written),
    };
    NewCandidate {
        id: candidate_id(item),
        source: SOURCE.to_string(),
        source_kind: source_kind_for(item.source).to_string(),
        source_ref: item.external_id.clone(),
        source_time,
        sender: text::copy_opt(&item.subtitle),
        title: Some(item.title.clone()),
        preview: text::copy_opt(&item.subtitle),
        external_url: Some(item.external_url.clone()),
        payload_path,
        payload_bytes,
    }
}

// ---------------------------------------------------------------------------
// Laws
// ---------------------------------------------------------------------------

/// No repository is looked at twice, and every repository that can be looked at is, under
/// its own name or under one that differs in case alone.
pub proof fn law_repositories_are_looked_at_once(cs: Seq<RepoCandidate>)
    ensures
        forall|i: int, j: int|
            0 <= i < j < targets_of(cs).len() ==> key_of(#[trigger] targets_of(cs)[i]) != key_of(
                #[trigger] targets_of(cs)[j],
            ),
        forall|k: int|
            0 <= k < cs.len() ==> (target_of(#[trigger] cs[k]) matches Some(t) ==> keys_of(
                targets_of(cs),
            ).contains(key_of(t))),
{
    assert forall|i: int, j: int| 0 <= i < j < targets_of(cs).len() implies key_of(
        #[trigger] targets_of(cs)[i],
    ) != key_of(#[trigger] targets_of(cs)[j]) by {
        lemma_targets_distinct(cs, i, j);
    }
    assert forall|k: int| 0 <= k < cs.len() implies (target_of(#[trigger] cs[k]) matches Some(t)
        ==> keys_of(targets_of(cs)).contains(key_of(t))) by {
        lemma_targets_complete(cs, k);
    }
}

proof fn lemma_targets_distinct(cs: Seq<RepoCandidate>, i: int, j: int)
    requires
        0 <= i < j < targets_of(cs).len(),
    ensures
        key_of(targets_of(cs)[i]) != key_of(targets_of(cs)[j]),
    decreases cs.len(),
{
    let before = targets_of(cs.drop_last());
    if j < before.len() {
        lemma_targets_distinct(cs.drop_last(), i, j);
    } else {
        let t = target_of(cs.last())->0;
        assert(targets_of(cs) == before.push(t));
        if key_of(before[i]) == key_of(t) {
            assert(keys_of(before).contains(key_of(t)));
        }
    }
}

proof fn lemma_targets_complete(cs: Seq<RepoCandidate>, k: int)
    requires
        0 <= k < cs.len(),
    ensures
        target_of(cs[k]) matches Some(t) ==> keys_of(targets_of(cs)).contains(key_of(t)),
    decreases cs.len(),
{
    let before = targets_of(cs.drop_last());
    if k < cs.len() - 1 {
        lemma_targets_complete(cs.drop_last(), k);
        assert(cs.drop_last()[k] == cs[k]);
    }
    match target_of(cs.last()) {
        Some(t) => {
            lemma_keys_of_push(before, t);
        },
        None => {},
    }
}

/// An item that was fetched before keeps its payload: no new path is made and nothing is
/// written.
pub proof fn law_known_items_keep_their_payload(
    item: InboxItem,
    now: Timestamp,
    path: Seq<char>,
    written: u64,
)
    ensures
        candidate_view(item, now, Some(path), written).payload_path == path,
        candidate_view(item, now, Some(path), written).payload_bytes == 0,
{
}

/// A candidate tells of its item: under the item's own reference and address, with its title,
/// its kind by name, and the time of its last activity to the millisecond. Sender and preview
/// are what the item says beside its title. A new item's payload lies in its repository's
/// directory.
pub proof fn law_candidate_tells_of_its_item(
    item: InboxItem,
    now: Timestamp,
    known: Option<Seq<char>>,
    written: u64,
)
    ensures
        ({
            let c = candidate_view(item, now, known, written);
            &&& c.id == "gitlab:"@ + item.external_id@ && c.source == "gitlab"@
            &&& c.source_ref == item.external_id@
            &&& c.source_kind == (match item.source {
                InboxSource::GitlabIssue => "issue"@,
                InboxSource::GitlabMr => "mr"@,
                InboxSource::Other => "other"@,
            })
            &&& c.title == Some(item.title@)
            &&& c.sender == text::opt_text(item.subtitle) && c.preview == text::opt_text(
                item.subtitle,
            )
            &&& c.external_url == Some(item.external_url@)
            &&& crate::time::MIN_SECS <= item.last_activity_at as int / 1000
                <= crate::time::MAX_SECS ==> c.source_time.secs * 1000 + c.source_time.nanos as int
                / 1_000_000 == item.last_activity_at && c.source_time.nanos as int % 1_000_000 == 0
            &&& !(crate::time::MIN_SECS <= item.last_activity_at as int / 1000
                <= crate::time::MAX_SECS) ==> c.source_time == now
            &&& known is None ==> c.payload_bytes == written && c.payload_path == "gitlab/"@
                + cache::segment_of(parent_of(item.external_id@)) + "/"@ + cache::segment_of(
                item.external_id@,
            ) + ".md"@
        }),
{
}

/// The repository of an item is what stands before the last `#` of its reference.
pub proof fn law_items_lie_with_their_repository(repo: Seq<char>, number: Seq<char>)
    requires
        !number.contains('#'),
    ensures
        parent_of(repo + seq!['#'] + number) == repo,
        parent_of(number) == number,
{
    pieces::law_split_at_the_last(repo, '#', number);
}

/// Items are looked at exactly where something happened to them since the cutoff.
pub proof fn law_recent_items_are_kept(items: Seq<InboxItem>, cutoff_ms: i64, item: InboxItem)
    ensures
        recent_of(items.push(item), cutoff_ms) == (if item.last_activity_at >= cutoff_ms {
            recent_of(items, cutoff_ms).push(item)
        } else {
            recent_of(items, cutoff_ms)
        }),
        recent_of(seq![], cutoff_ms) == Seq::<InboxItem>::empty(),
{
    reveal(Seq::filter);
    assert(items.push(item).drop_last() =~= items);
}

/// A repository is looked at where it is GitLab's, somebody is logged in for it and its
/// address is known: as that login, on that host, by its full path.
pub proof fn law_gitlab_repositories_are_targets(c: RepoCandidate)
    ensures
        match target_of(c) {
            Some(t) => {
                &&& text::opt_text(c.row.forge_provider) == Some("gitlab"@)
                &&& text::opt_text(c.row.forge_login) == Some(t.0) && pieces::says_something(t.0)
                &&& c.parsed matches Some(p) && t.1 == p.host@ && t.2 == p.namespace@ + "/"@
                    + p.repo@
                &&& c.row.remote_url is Some
            },
            None => {
                ||| text::opt_text(c.row.forge_provider) != Some("gitlab"@)
                ||| c.row.forge_login is None
                ||| !pieces::says_something(c.row.forge_login->0@)
                ||| c.parsed is None
                ||| c.row.remote_url is None
            },
        },
{
    match c.row.forge_login {
        Some(login) => {
            pieces::law_trimming_takes_only_white_space(login@);
        },
        None => {},
    }
}

/// Two targets are the same where they differ in case alone, in login, host or path.
pub proof fn law_targets_differ_by_more_than_case(a: TargetKey, b: TargetKey)
    requires
        a.0.len() != b.0.len() || a.1.len() != b.1.len() || a.2.len() != b.2.len(),
    ensures
        key_of(a) != key_of(b),
{
    assert(key_of(a).0.len() == a.0.len() && key_of(b).0.len() == b.0.len());
    assert(key_of(a).1.len() == a.1.len() && key_of(b).1.len() == b.1.len());
    assert(key_of(a).2.len() == a.2.len() && key_of(b).2.len() == b.2.len());
}

/// A line of an item's text, where there is something to say.
pub open spec fn says_line(name: Seq<char>, value: Option<String>) -> Seq<char> {
    match value {
        Some(v) => "- "@ + name + ": "@ + v@ + "\n"@,
        None => seq![],
    }
}

/// An issue is shown in full: what it is, its state, who wrote it and when, where it is found,
/// and its body behind a rule.
pub proof fn law_issues_are_shown_in_full(d: IssueDetail)
    ensures
        ({
            let body = match d.body {
                Some(b) => b@,
                None => "(no body)"@,
            };
            issue_text(d) == "# Issue "@ + d.external_id@ + " — "@ + d.title@ + "\n\n"@ + (
            "- "@ + "state"@ + ": "@ + d.state@ + "\n"@) + says_line(
                "author"@,
                d.author_login,
            ) + says_line("created"@, d.created_at) + says_line("updated"@, d.updated_at) + ("- "@
                + "url"@ + ": "@ + d.url@ + "\n"@ + "\n---\n\n"@ + body + "\n"@)
        }),
{
}

/// A merge request is shown in full: what it is, its state, whether it was merged and is a
/// draft, who wrote it, its branches, when, where it is found, and its body behind a rule.
pub proof fn law_merge_requests_are_shown_in_full(d: MergeRequestDetail)
    ensures
        ({
            let body = match d.body {
                Some(b) => b@,
                None => "(no body)"@,
            };
            let flag = |b: bool|
                if b {
                    "true"@
                } else {
                    "false"@
                };
            mr_text(d) == "# MR "@ + d.external_id@ + " — "@ + d.title@ + "\n\n"@ + ("- "@
                + "state"@ + ": "@ + d.state@ + "\n"@) + ("- "@ + "merged"@ + ": "@ + flag(
                d.merged,
            ) + "\n"@) + ("- "@ + "draft"@ + ": "@ + flag(d.draft) + "\n"@) + says_line(
                "author"@,
                d.author_login,
            ) + says_line("source"@, d.source_branch) + says_line(
                "target"@,
                d.target_branch,
            ) + says_line("updated"@, d.updated_at) + ("- "@ + "url"@ + ": "@ + d.url@ + "\n"@
                + "\n---\n\n"@ + body + "\n"@)
        }),
{
}

/// An item is shown as what it is, or by its title and address where nothing more was had.
pub proof fn law_items_are_shown_as_what_they_are(
    item: InboxItem,
    issue: IssueDetail,
    mr: MergeRequestDetail,
)
    ensures
        payload_of(item, ItemDetail::Issue(issue)) == issue_text(issue),
        payload_of(item, ItemDetail::MergeRequest(mr)) == mr_text(mr),
        payload_of(item, ItemDetail::Unavailable) == "# "@ + item.title@ + "\n\n"@ + ("- "@
            + "external_id"@ + ": "@ + item.external_id@ + "\n"@) + ("- "@ + "url"@ + ": "@
            + item.external_url@ + "\n"@) + "- (detail unavailable)\n"@,
{
}

} // verus!
