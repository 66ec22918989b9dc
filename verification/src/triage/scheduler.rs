//! The course of a triage tick: what the sidecar is told of the candidates, how its
//! events are taken in, which workspaces come of them and what the tick comes to.
use vstd::prelude::*;
use crate::json;
use crate::json::Json;
use crate::order;
use crate::pieces;
use crate::records;
use crate::text;
use crate::triage::attachments;
use crate::triage::attachments::InlinePreview;
use crate::triage::im::ingest;
use crate::triage::im::ingest::AttachmentEntry;
use crate::triage::storage;
use crate::triage::storage::CandidateRow;
use crate::triage::workspace_factory;
use crate::triage::workspace_factory::CreateAiWorkspaceParams;

verus! {

/// Bytes of image data that all candidates of a tick may have together.
pub const PER_TICK_INLINE_BUDGET: u64 = 12 * 1024 * 1024;

/// Candidates in one batch.
pub const CANDIDATES_PER_BATCH: i64 = 20;

/// Batches in one tick.
pub const MAX_BATCHES_PER_TICK: u32 = 5;

/// Seconds that a batch may take.
pub const BATCH_DEADLINE_SEC: u64 = 1800;

/// Seconds that the sidecar has to end a batch that was stopped.
pub const CLEANUP_DEADLINE_SEC: u64 = 10;

// ---------------------------------------------------------------------------
// One tick at a time
// ---------------------------------------------------------------------------

/// Whether a tick is under way.
pub struct TickGate {
    pub in_flight: bool,
}

/// Why a tick is not begun.
pub open spec fn refusal(in_flight: bool, enabled: bool, llm_enabled: bool) -> Option<Seq<char>> {
    if !enabled {
        Some("Triage is disabled"@)
    } else if !llm_enabled {
        Some("Local LLM is not enabled"@)
    } else if in_flight {
        Some("Another triage tick is in flight"@)
    } else {
        None
    }
}

impl TickGate {
    /// No tick is under way.
    pub fn new() -> (r: TickGate)
        ensures
            !r.in_flight,
    {
        TickGate { in_flight: false }
    }

    /// Begins a tick, or says why not.
    pub fn trigger_tick_now(&mut self, enabled: bool, llm_enabled: bool) -> (r: Result<(), String>)
        ensures
            match refusal(old(self).in_flight, enabled, llm_enabled) {
                None => r is Ok && final(self).in_flight,
                Some(why) => (r matches Err(e) && e@ == why) && *final(self) == *old(self),
            },
    {
        if !enabled {
            return Err("Triage is disabled".to_string());
        }
        if !llm_enabled {
            return Err("Local LLM is not enabled".to_string());
        }
        if self.in_flight {
            return Err("Another triage tick is in flight".to_string());
        }
        self.in_flight = true;
        Ok(())
    }

    /// The tick is over.
    pub fn release(&mut self)
        ensures
            !final(self).in_flight,
    {
        self.in_flight = false;
    }

    /// What stops the tick under way, where there is one.
    pub fn cancel_tick_in_flight(&self) -> (r: Option<SidecarCall>)
        ensures
            match r {
                Some(c) => self.in_flight && c.method@ == "stopTriageTick"@ && c.params@
                    == json::Tree::Object(seq![]),
                None => !self.in_flight,
            },
    {
        if !self.in_flight {
            return None;
        }
        let m: Vec<(String, Json)> = Vec::new();
        let params = Json::object(m);
        assert(params@->Object_0 =~= seq![]);
        Some(SidecarCall { method: "stopTriageTick".to_string(), params })
    }
}

// ---------------------------------------------------------------------------
// What the sidecar is told
// ---------------------------------------------------------------------------

/// A call of the sidecar.
pub struct SidecarCall {
    pub method: String,
    pub params: Json,
}

/// An image that goes along with its candidate.
pub struct InlineAttachment {
    pub message_id: String,
    pub filename: String,
    pub alt: Option<String>,
    pub mime_type: String,
    pub data_base64: String,
}

/// An image that goes along with its candidate.
#[verifier::ext_equal]
pub struct InlineView {
    pub message_id: Seq<char>,
    pub filename: Seq<char>,
    pub alt: Option<Seq<char>>,
    pub mime_type: Seq<char>,
    pub data_base64: Seq<char>,
}

impl View for InlineAttachment {
    type V = InlineView;

    open spec fn view(&self) -> InlineView {
        InlineView {
            message_id: self.message_id@,
            filename: self.filename@,
            alt: text::opt_text(self.alt),
            mime_type: self.mime_type@,
            data_base64: self.data_base64@,
        }
    }
}

/// What the images of a list are.
pub open spec fn inline_views(v: Seq<InlineAttachment>) -> Seq<InlineView> {
    Seq::new(v.len(), |i: int| v[i]@)
}

/// An image out of an entry and its preview.
pub open spec fn inline_of(e: ingest::EntryView, p: attachments::PreviewView) -> InlineView {
    InlineView {
        message_id: e.0,
        filename: e.1.filename,
        alt: e.1.alt,
        mime_type: p.1,
        data_base64: p.0,
    }
}

/// What an image costs: the bytes of its data.
pub open spec fn cost(p: attachments::PreviewView) -> nat {
    order::byte_len(p.0)
}

/// An entry with its preview is taken: there is a preview, and it fits.
pub open spec fn taken(remaining: u64, p: Option<attachments::PreviewView>) -> bool {
    remaining > 0 && (p matches Some(p) && cost(p) <= remaining)
}

/// What is left of a tick's budget for images.
pub struct Inliner {
    pub remaining: u64,
}

/// An entry, and its preview where it has one.
pub type Offer = (ingest::EntryView, Option<attachments::PreviewView>);

/// What becomes of an entry that is offered: the image where it is taken, and what is
/// left of the budget.
pub open spec fn offered(o: Offer, remaining: u64) -> (Option<InlineView>, u64) {
    if taken(remaining, o.1) {
        (Some(inline_of(o.0, o.1->0)), (remaining - cost(o.1->0)) as u64)
    } else {
        (None, remaining)
    }
}

/// What becomes of entries that are offered one after the other: the images that are
/// taken, and what is left of the budget.
pub open spec fn after_offers(offers: Seq<Offer>, budget: u64) -> (Seq<InlineView>, u64)
    decreases offers.len(),
{
    if offers.len() == 0 {
        (seq![], budget)
    } else {
        let (images, remaining) = after_offers(offers.drop_last(), budget);
        let (image, left) = offered(offers.last(), remaining);
        match image {
            Some(a) => (images.push(a), left),
            None => (images, left),
        }
    }
}

/// What an optional image is.
pub open spec fn opt_inline(a: Option<InlineAttachment>) -> Option<InlineView> {
    match a {
        Some(a) => Some(a@),
        None => None,
    }
}

impl Inliner {
    /// The budget of a tick.
    pub fn new() -> (r: Inliner)
        ensures
            r.remaining == PER_TICK_INLINE_BUDGET,
    {
        Inliner { remaining: PER_TICK_INLINE_BUDGET }
    }

    /// Whether a preview could still be taken.
    pub fn reads_more(&self) -> (r: bool)
        ensures
            r == (self.remaining > 0),
    {
        self.remaining > 0
    }

    /// Takes an entry with its preview where it fits.
    pub fn offer(&mut self, entry: &AttachmentEntry, preview: Option<InlinePreview>) -> (r: Option<
        InlineAttachment,
    >)
        ensures
            (opt_inline(r), final(self).remaining) == offered(
                (entry@, attachments::opt_preview(preview)),
                old(self).remaining,
            ),
    {
        if self.remaining == 0 {
            return None;
        }
        match preview {
            Some(p) => {
                let price: u64 = order::bytes_in(p.data_base64.as_str()) as u64;
                if price > self.remaining {
                    return None;
                }
                self.remaining = self.remaining - price;
                Some(
                    InlineAttachment {
                        message_id: entry.message_id.clone(),
                        filename: entry.filename.clone(),
                        alt: text::copy_opt(&entry.alt),
                        mime_type: p.mime_type,
                        data_base64: p.data_base64,
                    },
                )
            },
            None => None,
        }
    }
}

/// The candidate's attachments are looked up: its source lists them, and it has a
/// reference.
pub open spec fn looks_up_attachments(row: storage::RowView) -> bool {
    workspace_factory::lists_attachments(row.source) && row.source_ref.len() > 0
}

/// Whether the candidate's attachments are looked up.
pub fn wants_attachments(row: &CandidateRow) -> (r: bool)
    ensures
        r == looks_up_attachments(row@),
{
    workspace_factory::keeps_attachment_lists(row.source.as_str())
        && !row.source_ref.as_str().is_empty()
}

/// An image as JSON.
pub open spec fn inline_tree(a: InlineView) -> json::Tree {
    json::Tree::Object(
        seq![
            ("alt"@, json::opt_tree(a.alt)),
            ("dataBase64"@, json::Tree::Text(a.data_base64)),
            ("filename"@, json::Tree::Text(a.filename)),
            ("messageId"@, json::Tree::Text(a.message_id)),
            ("mimeType"@, json::Tree::Text(a.mime_type)),
        ],
    )
}

fn inline_json(a: &InlineAttachment) -> (j: Json)
    ensures
        j@ == inline_tree(a@),
{
    let mut m: Vec<(String, Json)> = Vec::new();
    m.push(("alt".to_string(), Json::text_or_null(&a.alt)));
    m.push(("dataBase64".to_string(), Json::text(a.data_base64.as_str())));
    m.push(("filename".to_string(), Json::text(a.filename.as_str())));
    m.push(("messageId".to_string(), Json::text(a.message_id.as_str())));
    m.push(("mimeType".to_string(), Json::text(a.mime_type.as_str())));
    let j = Json::object(m);
    assert(j@->Object_0 =~= inline_tree(a@)->Object_0);
    j
}

/// A candidate with its images, as JSON. Where there are none, they are not mentioned.
pub open spec fn enriched_tree(row: storage::RowView, images: Seq<InlineView>) -> json::Tree {
    storage::row_tree(
        row,
        if images.len() == 0 {
            None
        } else {
            Some(json::Tree::Array(Seq::new(images.len(), |i: int| inline_tree(images[i]))))
        },
    )
}

/// A candidate with its images, as JSON.
pub fn enrich_one_candidate(row: &CandidateRow, images: &Vec<InlineAttachment>) -> (j: Json)
    ensures
        j@ == enriched_tree(row@, inline_views(images@)),
{
    if images.len() == 0 {
        return storage::row_json(row, None);
    }
    let mut out: Vec<Json> = Vec::new();
    let mut i: usize = 0;
    while i < images.len()
        invariant
            i <= images@.len(),
            out@.len() == i,
            forall|k: int| 0 <= k < i ==> (#[trigger] out@[k])@ == inline_tree(images@[k]@),
        decreases images@.len() - i,
    {
        out.push(inline_json(&images[i]));
        i += 1;
    }
    let list = Json::array(out);
    assert(list@->Array_0 =~= Seq::new(
        images@.len(),
        |i: int| inline_tree(inline_views(images@)[i]),
    ));
    storage::row_json(row, Some(list))
}

/// The part of the triage settings that a tick is run with.
pub struct TickConfig {
    pub system_prompt: String,
    pub max_per_tick: u32,
}

/// The model that a tick is run with.
pub struct LocalModel {
    pub base_url: String,
    pub token: String,
    pub model: String,
}

/// What the sidecar is told of a batch.
pub open spec fn batch_tree(
    tick_id: Seq<char>,
    cfg: TickConfig,
    candidates: Seq<json::Tree>,
    repos: json::Tree,
    model: LocalModel,
) -> json::Tree {
    json::Tree::Object(
        seq![
            ("candidates"@, json::Tree::Array(candidates)),
            (
                "localModel"@,
                json::Tree::Object(
                    seq![
                        ("baseUrl"@, json::Tree::Text(model.base_url@)),
                        ("model"@, json::Tree::Text(model.model@)),
                        ("token"@, json::Tree::Text(model.token@)),
                    ],
                ),
            ),
            ("maxPerTick"@, json::Tree::Uint(cfg.max_per_tick as u64)),
            ("repos"@, repos),
            ("systemPrompt"@, json::Tree::Text(cfg.system_prompt@)),
            ("tickId"@, json::Tree::Text(tick_id)),
        ],
    )
}

/// The call that begins a batch.
pub fn run_call(
    tick_id: &str,
    cfg: &TickConfig,
    candidates: Vec<Json>,
    repos: &Json,
    model: &LocalModel,
) -> (r: SidecarCall)
    ensures
        r.method@ == "runTriageTick"@,
        r.params@ == batch_tree(tick_id@, *cfg, json::trees(candidates@), repos@, *model),
{
    let mut local: Vec<(String, Json)> = Vec::new();
    local.push(("baseUrl".to_string(), Json::text(model.base_url.as_str())));
    local.push(("model".to_string(), Json::text(model.model.as_str())));
    local.push(("token".to_string(), Json::text(model.token.as_str())));
    let local = Json::object(local);
    assert(local@->Object_0 =~= seq![
        ("baseUrl"@, json::Tree::Text(model.base_url@)),
        ("model"@, json::Tree::Text(model.model@)),
        ("token"@, json::Tree::Text(model.token@)),
    ]);
    let ghost rows = json::trees(candidates@);
    let mut m: Vec<(String, Json)> = Vec::new();
    m.push(("candidates".to_string(), Json::array(candidates)));
    m.push(("localModel".to_string(), local));
    m.push(("maxPerTick".to_string(), Json::Uint(cfg.max_per_tick as u64)));
    m.push(("repos".to_string(), repos.copy()));
    m.push(("systemPrompt".to_string(), Json::text(cfg.system_prompt.as_str())));
    m.push(("tickId".to_string(), Json::text(tick_id)));
    let params = Json::object(m);
    assert(params@->Object_0 =~= batch_tree(tick_id@, *cfg, rows, repos@, *model)->Object_0);
    SidecarCall { method: "runTriageTick".to_string(), params }
}

/// The call that stops a batch.
pub fn stop_call(tick_id: &str) -> (r: SidecarCall)
    ensures
        r.method@ == "stopTriageTick"@,
        r.params@ == json::Tree::Object(seq![("tickId"@, json::Tree::Text(tick_id@))]),
{
    let mut m: Vec<(String, Json)> = Vec::new();
    m.push(("tickId".to_string(), Json::text(tick_id)));
    let params = Json::object(m);
    assert(params@->Object_0 =~= seq![("tickId"@, json::Tree::Text(tick_id@))]);
    SidecarCall { method: "stopTriageTick".to_string(), params }
}

// ---------------------------------------------------------------------------
// Taking in a batch's events
// ---------------------------------------------------------------------------

/// A workspace that the model proposes.
pub struct ProposalEvent {
    pub candidate_id: String,
    pub task_anchor: String,
    pub repo_id: String,
    pub title: String,
    pub branch_name: String,
    pub plan_message: String,
}

/// A workspace that the model proposes.
#[verifier::ext_equal]
pub struct ProposalView {
    pub candidate_id: Seq<char>,
    pub task_anchor: Seq<char>,
    pub repo_id: Seq<char>,
    pub title: Seq<char>,
    pub branch_name: Seq<char>,
    pub plan_message: Seq<char>,
}

impl View for ProposalEvent {
    type V = ProposalView;

    open spec fn view(&self) -> ProposalView {
        ProposalView {
            candidate_id: self.candidate_id@,
            task_anchor: self.task_anchor@,
            repo_id: self.repo_id@,
            title: self.title@,
            branch_name: self.branch_name@,
            plan_message: self.plan_message@,
        }
    }
}

/// What the proposals of a list are.
pub open spec fn proposal_views(v: Seq<ProposalEvent>) -> Seq<ProposalView> {
    Seq::new(v.len(), |i: int| v[i]@)
}

/// A text member of a proposal.
pub open spec fn proposal_text(t: json::Tree, name: Seq<char>, place: int) -> Option<Seq<char>> {
    records::required_text(records::field(t, name, place))
}

/// The proposal that a value is, where it is one.
pub open spec fn proposal_in(t: json::Tree) -> Option<ProposalView> {
    if !records::shaped(t, 6, 6) {
        None
    } else {
        match (
            proposal_text(t, "candidateId"@, 0),
            proposal_text(t, "taskAnchor"@, 1),
            proposal_text(t, "repoId"@, 2),
            proposal_text(t, "title"@, 3),
            proposal_text(t, "branchName"@, 4),
            proposal_text(t, "planMessage"@, 5),
        ) {
            (
                Some(candidate_id),
                Some(task_anchor),
                Some(repo_id),
                Some(title),
                Some(branch_name),
                Some(plan_message),
            ) => Some(
                ProposalView { candidate_id, task_anchor, repo_id, title, branch_name, plan_message },
            ),
            _ => None,
        }
    }
}

/// What an optional proposal is.
pub open spec fn opt_proposal(p: Option<ProposalEvent>) -> Option<ProposalView> {
    match p {
        Some(p) => Some(p@),
        None => None,
    }
}

/// Reads a proposal.
pub fn read_proposal(params: &Json) -> (r: Option<ProposalEvent>)
    ensures
        opt_proposal(r) == proposal_in(params@),
{
    if !records::is_shaped(params, 6, 6) {
        return None;
    }
    let candidate_id = records::read_required_text(records::get_field(params, "candidateId", 0));
    let task_anchor = records::read_required_text(records::get_field(params, "taskAnchor", 1));
    let repo_id = records::read_required_text(records::get_field(params, "repoId", 2));
    let title = records::read_required_text(records::get_field(params, "title", 3));
    let branch_name = records::read_required_text(records::get_field(params, "branchName", 4));
    let plan_message = records::read_required_text(records::get_field(params, "planMessage", 5));
    match (candidate_id, task_anchor, repo_id, title, branch_name, plan_message) {
        (
            Some(candidate_id),
            Some(task_anchor),
            Some(repo_id),
            Some(title),
            Some(branch_name),
            Some(plan_message),
        ) => Some(
            ProposalEvent { candidate_id, task_anchor, repo_id, title, branch_name, plan_message },
        ),
        _ => None,
    }
}

/// Where a batch stands.
#[derive(Clone, Copy, Debug, PartialEq, Eq, Structural)]
pub enum BatchPhase {
    /// Events are taken in.
    Draining,
    /// The batch was stopped; only its end is waited for.
    Stopping,
    Done,
}

/// What the host does next.
#[derive(Clone, Copy, Debug, PartialEq, Eq, Structural)]
pub enum BatchNext {
    /// Waits for an event until the batch's deadline.
    Listen,
    /// Stops the batch, then waits for an event until the cleanup's deadline.
    StopAndListen,
    /// Goes on waiting until the cleanup's deadline.
    ListenForEnd,
    Finish,
}

/// What an event shows of the model's progress.
pub struct Progress {
    pub turn: Option<u32>,
    /// A tool that was called, and its arguments.
    pub tool: Option<(String, String)>,
}

/// What an event shows of the model's progress.
#[verifier::ext_equal]
pub struct ProgressView {
    pub turn: Option<u32>,
    pub tool: Option<(Seq<char>, Seq<char>)>,
}

impl View for Progress {
    type V = ProgressView;

    open spec fn view(&self) -> ProgressView {
        ProgressView {
            turn: self.turn,
            tool: match self.tool {
                Some((t, a)) => Some((t@, a@)),
                None => None,
            },
        }
    }
}

/// Progress to show, and what the host does next.
pub struct BatchStep {
    pub progress: Option<Progress>,
    pub next: BatchNext,
}

/// Progress to show, and what the host does next.
pub type StepView = (Option<ProgressView>, BatchNext);

impl View for BatchStep {
    type V = StepView;

    open spec fn view(&self) -> StepView {
        (
            match self.progress {
                Some(p) => Some(p@),
                None => None,
            },
            self.next,
        )
    }
}

/// What a batch has brought so far.
#[verifier::ext_equal]
pub struct BatchView {
    pub proposals: Seq<ProposalView>,
    pub summary: Option<Seq<char>>,
    pub got_terminal: bool,
    pub error: Option<Seq<char>>,
    pub cancelled: bool,
    pub phase: BatchPhase,
}

/// What a progress event shows. A turn is counted modulo 2^32.
pub open spec fn progress_in(raw: json::Tree) -> ProgressView {
    ProgressView {
        turn: match raw.uint_at("turn"@) {
            Some(n) => Some((n % 0x1_0000_0000) as u32),
            None => None,
        },
        tool: match raw.text_at("tool"@) {
            Some(t) => Some(
                (
                    t,
                    match raw.text_at("argsPreview"@) {
                        Some(a) => a,
                        None => seq![],
                    },
                ),
            ),
            None => None,
        },
    }
}

impl BatchView {
    /// Nothing was brought yet.
    pub open spec fn start() -> BatchView {
        BatchView {
            proposals: seq![],
            summary: None,
            got_terminal: false,
            error: None,
            cancelled: false,
            phase: BatchPhase::Draining,
        }
    }

    /// The batch after an event, while events are taken in.
    pub open spec fn drained(self, kind: Seq<char>, raw: json::Tree) -> (BatchView, StepView) {
        if kind == "triageProposal"@ {
            let proposal = match raw.get("params"@) {
                Some(p) => proposal_in(p),
                None => None,
            };
            let proposals = match proposal {
                Some(p) => self.proposals.push(p),
                None => self.proposals,
            };
            (BatchView { proposals, ..self }, (None, BatchNext::Listen))
        } else if kind == "triageSummary"@ {
            (BatchView { summary: raw.text_at("message"@), ..self }, (None, BatchNext::Listen))
        } else if kind == "triageCancelled"@ {
            (BatchView { cancelled: true, ..self }, (None, BatchNext::Listen))
        } else if kind == "triageProgress"@ {
            (self, (Some(progress_in(raw)), BatchNext::Listen))
        } else if kind == "end"@ {
            (
                BatchView { got_terminal: true, phase: BatchPhase::Done, ..self },
                (None, BatchNext::Finish),
            )
        } else if kind == "error"@ {
            let error = match raw.text_at("message"@) {
                Some(m) => m,
                None => "sidecar error"@,
            };
            (
                BatchView {
                    got_terminal: true,
                    error: Some(error),
                    phase: BatchPhase::Done,
                    ..self
                },
                (None, BatchNext::Finish),
            )
        } else {
            (self, (None, BatchNext::Listen))
        }
    }

    /// The batch after an event.
    pub open spec fn after_event(self, kind: Seq<char>, raw: json::Tree) -> (BatchView, StepView) {
        match self.phase {
            BatchPhase::Draining => self.drained(kind, raw),
            BatchPhase::Stopping => if kind == "end"@ || kind == "error"@ {
                (
                    BatchView { got_terminal: true, phase: BatchPhase::Done, ..self },
                    (None, BatchNext::Finish),
                )
            } else {
                (self, (None, BatchNext::ListenForEnd))
            },
            BatchPhase::Done => (self, (None, BatchNext::Finish)),
        }
    }

    /// The batch after its deadline, or the cleanup's, has passed.
    pub open spec fn after_silence(self) -> (BatchView, StepView) {
        match self.phase {
            BatchPhase::Draining => (
                BatchView { phase: BatchPhase::Stopping, ..self },
                (None, BatchNext::StopAndListen),
            ),
            BatchPhase::Stopping | BatchPhase::Done => (
                BatchView { phase: BatchPhase::Done, ..self },
                (None, BatchNext::Finish),
            ),
        }
    }

    /// What the batch came to: the sidecar's error, a timeout, or its proposals.
    pub open spec fn outcome(self) -> Result<(), Seq<char>> {
        match self.error {
            Some(e) => Err(e),
            None => if self.got_terminal {
                Ok(())
            } else {
                Err("triage sidecar tick timed out"@)
            },
        }
    }
}

/// A batch whose events are taken in.
pub struct BatchRun {
    pub proposals: Vec<ProposalEvent>,
    pub summary: Option<String>,
    pub got_terminal: bool,
    pub error: Option<String>,
    pub cancelled: bool,
    pub phase: BatchPhase,
}

impl View for BatchRun {
    type V = BatchView;

    open spec fn view(&self) -> BatchView {
        BatchView {
            proposals: proposal_views(self.proposals@),
            summary: text::opt_text(self.summary),
            got_terminal: self.got_terminal,
            error: text::opt_text(self.error),
            cancelled: self.cancelled,
            phase: self.phase,
        }
    }
}

fn read_progress(raw: &Json) -> (r: Progress)
    ensures
        r@ == progress_in(raw@),
{
    let turn = match raw.uint_at("turn") {
        Some(n) => Some((n % 0x1_0000_0000) as u32),
        None => None,
    };
    let tool = match raw.text_at("tool") {
        Some(t) => {
            let args = match raw.text_at("argsPreview") {
                Some(a) => a.to_string(),
                None => String::new(),
            };
            assert(raw@.text_at("argsPreview"@) is None ==> args@ =~= seq![]);
            Some((t.to_string(), args))
        },
        None => None,
    };
    Progress { turn, tool }
}

impl BatchRun {
    /// A batch that begins.
    pub fn new() -> (r: BatchRun)
        ensures
            r@ == BatchView::start(),
    {
        let r = BatchRun {
            proposals: Vec::new(),
            summary: None,
            got_terminal: false,
            error: None,
            cancelled: false,
            phase: BatchPhase::Draining,
        };
        assert(r@ =~= BatchView::start());
        r
    }

    fn drain(&mut self, event_type: &str, raw: &Json) -> (s: BatchStep)
        requires
            old(self).phase == BatchPhase::Draining,
        ensures
            (final(self)@, s@) == old(self)@.drained(event_type@, raw@),
    {
        if text::same(event_type, "triageProposal") {
            match raw.get("params") {
                Some(params) => match read_proposal(params) {
                    Some(p) => {
                        let ghost before = proposal_views(self.proposals@);
                        self.proposals.push(p);
                        assert(proposal_views(self.proposals@) =~= before.push(p@));
                    },
                    None => {},
                },
                None => {},
            }
        } else if text::same(event_type, "triageSummary") {
            self.summary = text::owned(raw.text_at("message"));
        } else if text::same(event_type, "triageCancelled") {
            self.cancelled = true;
        } else if text::same(event_type, "triageProgress") {
            return BatchStep { progress: Some(read_progress(raw)), next: BatchNext::Listen };
        } else if text::same(event_type, "end") {
            self.got_terminal = true;
            self.phase = BatchPhase::Done;
            return BatchStep { progress: None, next: BatchNext::Finish };
        } else if text::same(event_type, "error") {
            self.got_terminal = true;
            self.error = match raw.text_at("message") {
                Some(m) => Some(m.to_string()),
                None => Some("sidecar error".to_string()),
            };
            self.phase = BatchPhase::Done;
            return BatchStep { progress: None, next: BatchNext::Finish };
        }
        BatchStep { progress: None, next: BatchNext::Listen }
    }

    /// Takes in an event of the sidecar.
    pub fn on_event(&mut self, event_type: &str, raw: &Json) -> (s: BatchStep)
        ensures
            (final(self)@, s@) == old(self)@.after_event(event_type@, raw@),
    {
        match self.phase {
            BatchPhase::Draining => self.drain(event_type, raw),
            BatchPhase::Stopping => {
                if text::same(event_type, "end") || text::same(event_type, "error") {
                    self.got_terminal = true;
                    self.phase = BatchPhase::Done;
                    BatchStep { progress: None, next: BatchNext::Finish }
                } else {
                    BatchStep { progress: None, next: BatchNext::ListenForEnd }
                }
            },
            BatchPhase::Done => BatchStep { progress: None, next: BatchNext::Finish },
        }
    }

    /// No event came before the deadline, or none will come any more.
    pub fn on_silence(&mut self) -> (s: BatchStep)
        ensures
            (final(self)@, s@) == old(self)@.after_silence(),
    {
        match self.phase {
            BatchPhase::Draining => {
                self.phase = BatchPhase::Stopping;
                BatchStep { progress: None, next: BatchNext::StopAndListen }
            },
            _ => {
                self.phase = BatchPhase::Done;
                BatchStep { progress: None, next: BatchNext::Finish }
            },
        }
    }

    /// What the batch came to.
    pub fn outcome(&self) -> (r: Result<(), String>)
        ensures
            workspace_factory::done_text(r) == self@.outcome(),
    {
        match &self.error {
            Some(e) => Err(e.clone()),
            None => if self.got_terminal {
                Ok(())
            } else {
                Err("triage sidecar tick timed out".to_string())
            },
        }
    }
}

// ---------------------------------------------------------------------------
// From proposals to workspaces
// ---------------------------------------------------------------------------

/// The verdict on a candidate that a workspace was made for.
pub const PROPOSED: &'static str = "proposed";

/// What a workspace is made of, or why a proposal comes to nothing.
pub open spec fn resolved(row: Option<storage::RowView>, p: ProposalView) -> Result<
    workspace_factory::ParamsView,
    Seq<char>,
> {
    let anchor = pieces::trimmed(p.task_anchor);
    match row {
        None => Err("candidate "@ + p.candidate_id + " not found"@),
        Some(row) => if anchor.len() == 0 {
            Err("proposal for candidate "@ + p.candidate_id + " missing task_anchor"@)
        } else {
            Ok(
                workspace_factory::ParamsView {
                    source_type: row.source,
                    source_ref: row.source_ref + ":"@ + anchor,
                    candidate_source_ref: row.source_ref,
                    task_anchor: anchor,
                    repo_id: p.repo_id,
                    plan_message: p.plan_message,
                    title: p.title,
                    branch_name: p.branch_name,
                },
            )
        },
    }
}

/// Turns a proposal into what a workspace is made of. `row` is its candidate.
pub fn resolve_proposal(row: &Option<CandidateRow>, ev: &ProposalEvent) -> (r: Result<
    CreateAiWorkspaceParams,
    String,
>)
    ensures
        match (r, resolved(storage::opt_row(*row), ev@)) {
            (Ok(p), Ok(v)) => p@ == v,
            (Err(e), Err(v)) => e@ == v,
            _ => false,
        },
{
    let row = match row {
        Some(row) => row,
        None => {
            let mut e = "candidate ".to_string();
            e.append(ev.candidate_id.as_str());
            e.append(" not found");
            return Err(e);
        },
    };
    let anchor = pieces::trim(ev.task_anchor.as_str());
    if anchor.as_str().is_empty() {
        let mut e = "proposal for candidate ".to_string();
        e.append(ev.candidate_id.as_str());
        e.append(" missing task_anchor");
        return Err(e);
    }
    let mut source_ref = row.source_ref.clone();
    source_ref.append(":");
    source_ref.append(anchor.as_str());
    Ok(
        CreateAiWorkspaceParams {
            source_type: row.source.clone(),
            source_ref,
            candidate_source_ref: row.source_ref.clone(),
            task_anchor: anchor,
            repo_id: ev.repo_id.clone(),
            plan_message: ev.plan_message.clone(),
            title: ev.title.clone(),
            branch_name: ev.branch_name.clone(),
        },
    )
}

/// The reason that is noted with the verdict.
pub fn proposed_reason(workspace_id: &str) -> (r: String)
    ensures
        r@ == "workspace "@ + workspace_id@,
{
    let mut out = "workspace ".to_string();
    out.append(workspace_id);
    out
}

/// What a batch, or a whole tick, came to.
pub struct ExecuteOk {
    pub created: u32,
    pub summary: Option<String>,
    pub cancelled: bool,
    pub workspace_failures: u32,
}

/// How many of the first `n` proposals became workspaces.
pub open spec fn made_among(outcomes: Seq<bool>, n: int) -> nat
    decreases n,
{
    if n <= 0 {
        0
    } else {
        made_among(outcomes, n - 1) + (if outcomes[n - 1] {
            1nat
        } else {
            0nat
        })
    }
}

/// What a batch came to. `outcomes` tells of each proposal whether it became a workspace.
/// Every proposal is counted once, as made or as failed.
pub fn batch_result(summary: Option<String>, cancelled: bool, outcomes: &Vec<bool>) -> (r: ExecuteOk)
    requires
        outcomes@.len() <= u32::MAX,
    ensures
        r.created == made_among(outcomes@, outcomes@.len() as int),
        r.created + r.workspace_failures == outcomes@.len(),
        r.summary == summary,
        r.cancelled == cancelled,
{
    let mut created: u32 = 0;
    let mut workspace_failures: u32 = 0;
    let mut i: usize = 0;
    while i < outcomes.len()
        invariant
            i <= outcomes@.len(),
            outcomes@.len() <= u32::MAX,
            created == made_among(outcomes@, i as int),
            created + workspace_failures == i,
        decreases outcomes@.len() - i,
    {
        if outcomes[i] {
            created += 1;
        } else {
            workspace_failures += 1;
        }
        i += 1;
    }
    ExecuteOk { created, summary, cancelled, workspace_failures }
}

// ---------------------------------------------------------------------------
// The batches of a tick
// ---------------------------------------------------------------------------

/// A tick whose batches run one after the other, on one budget for their images.
pub struct TickRun {
    pub total: ExecuteOk,
    pub batches: u32,
    pub ended: bool,
    pub images: Inliner,
}

/// How far a tick has come.
#[verifier::ext_equal]
pub struct TickView {
    /// What its batches came to.
    pub total: ExecuteOk,
    pub batches: u32,
    pub ended: bool,
    /// What is left of its budget for images.
    pub remaining: u64,
}

impl View for TickRun {
    type V = TickView;

    open spec fn view(&self) -> TickView {
        TickView {
            total: self.total,
            batches: self.batches,
            ended: self.ended,
            remaining: self.images.remaining,
        }
    }
}

impl TickView {
    /// A tick that begins.
    pub open spec fn begun() -> TickView {
        TickView {
            total: ExecuteOk { created: 0, summary: None, cancelled: false, workspace_failures: 0 },
            batches: 0,
            ended: false,
            remaining: PER_TICK_INLINE_BUDGET,
        }
    }

    /// No more batches than a tick may have.
    pub open spec fn wf(self) -> bool {
        self.batches <= MAX_BATCHES_PER_TICK
    }

    /// The tick goes on.
    pub open spec fn goes_on(self) -> bool {
        !self.ended && self.batches < MAX_BATCHES_PER_TICK
    }

    /// The batch that is run on so many candidates, with its number. Where there are none,
    /// the tick ends.
    pub open spec fn next(self, candidates: nat) -> (TickView, Option<u32>) {
        if !self.goes_on() {
            (self, None)
        } else if candidates == 0 {
            (TickView { ended: true, ..self }, None)
        } else {
            let n = (self.batches + 1) as u32;
            (TickView { batches: n, ..self }, Some(n))
        }
    }

    /// An entry is offered to the batch that is made up: the image where it is taken.
    pub open spec fn with_offer(self, o: Offer) -> (TickView, Option<InlineView>) {
        let (image, remaining) = offered(o, self.remaining);
        (TickView { remaining, ..self }, image)
    }

    /// What the batch came to is added: the last summary that is not empty stands, and a
    /// batch that was cancelled ends the tick.
    pub open spec fn with_batch(self, batch: ExecuteOk) -> TickView {
        TickView {
            total: ExecuteOk {
                created: (self.total.created + batch.created) as u32,
                summary: if batch.summary matches Some(s) && (s@.len() > 0
                    || self.total.summary is None) {
                    batch.summary
                } else {
                    self.total.summary
                },
                cancelled: self.total.cancelled || batch.cancelled,
                workspace_failures: (self.total.workspace_failures
                    + batch.workspace_failures) as u32,
            },
            ended: self.ended || batch.cancelled,
            ..self
        }
    }
}

impl TickRun {
    /// A tick that begins.
    pub fn new() -> (r: TickRun)
        ensures
            r@ == TickView::begun(),
            r@.wf(),
            r@.goes_on(),
    {
        TickRun {
            total: ExecuteOk { created: 0, summary: None, cancelled: false, workspace_failures: 0 },
            batches: 0,
            ended: false,
            images: Inliner::new(),
        }
    }

    /// Whether candidates are to be looked up for another batch.
    pub fn wants_batch(&self) -> (r: bool)
        ensures
            r == self@.goes_on(),
    {
        !self.ended && self.batches < MAX_BATCHES_PER_TICK
    }

    /// The number of the batch that is to be run on the open candidates that were found.
    /// Where there are none, the tick ends.
    pub fn next_batch(&mut self, candidates: usize) -> (r: Option<u32>)
        requires
            old(self)@.wf(),
        ensures
            final(self)@.wf(),
            (final(self)@, r) == old(self)@.next(candidates as nat),
            r is None ==> !final(self)@.goes_on(),
    {
        if self.ended || self.batches >= MAX_BATCHES_PER_TICK {
            return None;
        }
        if candidates == 0 {
            self.ended = true;
            return None;
        }
        self.batches = self.batches + 1;
        Some(self.batches)
    }

    /// Whether a preview could still be taken.
    pub fn reads_more(&self) -> (r: bool)
        ensures
            r == (self@.remaining > 0),
    {
        self.images.reads_more()
    }

    /// Takes an entry with its preview into the batch that is made up, where it fits into
    /// what the tick's batches have left of the budget.
    pub fn offer(&mut self, entry: &AttachmentEntry, preview: Option<InlinePreview>) -> (r: Option<
        InlineAttachment,
    >)
        ensures
            (final(self)@, opt_inline(r)) == old(self)@.with_offer(
                (entry@, attachments::opt_preview(preview)),
            ),
    {
        self.images.offer(entry, preview)
    }

    /// Adds what a batch came to.
    pub fn batch_done(&mut self, batch: ExecuteOk)
        requires
            old(self)@.wf(),
            old(self).total.created + batch.created <= u32::MAX,
            old(self).total.workspace_failures + batch.workspace_failures <= u32::MAX,
        ensures
            final(self)@.wf(),
            final(self)@ == old(self)@.with_batch(batch),
    {
        self.total.created = self.total.created + batch.created;
        self.total.workspace_failures = self.total.workspace_failures + batch.workspace_failures;
        let newer = match &batch.summary {
            Some(s) => !s.as_str().is_empty() || self.total.summary.is_none(),
            None => false,
        };
        if newer {
            self.total.summary = batch.summary;
        }
        if batch.cancelled {
            self.total.cancelled = true;
            self.ended = true;
        }
    }
}

/// How a tick ended.
#[derive(Debug)]
pub enum TickOutcome {
    Cancelled,
    NoActionableItems,
    CreatedWorkspaces { count: u32 },
    Failed { message: String },
}

/// How a tick ended, and its summary.
pub fn tick_outcome(outcome: &Result<ExecuteOk, String>) -> (r: (TickOutcome, Option<String>))
    ensures
        match *outcome {
            Ok(ok) => r.1 == ok.summary && if ok.cancelled {
                r.0 is Cancelled
            } else if ok.created == 0 {
                r.0 is NoActionableItems
            } else {
                r.0 == (TickOutcome::CreatedWorkspaces { count: ok.created })
            },
            Err(e) => r.1 is None && (r.0 matches TickOutcome::Failed { message } && message@ == e@),
        },
{
    match outcome {
        Ok(ok) => {
            let summary = text::copy_opt(&ok.summary);
            if ok.cancelled {
                (TickOutcome::Cancelled, summary)
            } else if ok.created == 0 {
                (TickOutcome::NoActionableItems, summary)
            } else {
                (TickOutcome::CreatedWorkspaces { count: ok.created }, summary)
            }
        },
        Err(e) => (TickOutcome::Failed { message: e.clone() }, None),
    }
}

// ---------------------------------------------------------------------------
// Laws
// ---------------------------------------------------------------------------

/// What the images cost together.
pub open spec fn total_cost(images: Seq<InlineView>) -> nat
    decreases images.len(),
{
    if images.len() == 0 {
        0
    } else {
        total_cost(images.drop_last()) + order::byte_len(images.last().data_base64)
    }
}

/// What images that are offered one after the other cost and what is left make up the
/// budget, whatever was offered.
pub proof fn law_images_stay_in_the_budget(offers: Seq<Offer>, budget: u64)
    ensures
        total_cost(after_offers(offers, budget).0) + after_offers(offers, budget).1 == budget,
    decreases offers.len(),
{
    if offers.len() > 0 {
        law_images_stay_in_the_budget(offers.drop_last(), budget);
        let (images, left) = after_offers(offers.drop_last(), budget);
        let (e, p) = offers.last();
        if taken(left, p) {
            let more = images.push(inline_of(e, p->0));
            assert(more.drop_last() =~= images);
            assert(more.last() == inline_of(e, p->0));
        }
    }
}

/// Something that happens in a tick.
pub enum TickStep {
    /// A batch is to be made up of so many candidates.
    Batch { candidates: nat },
    /// An entry of one of its candidates is offered to it.
    Offer { offer: Offer },
    /// The batch is over.
    Done { batch: ExecuteOk },
}

/// A tick after some steps, and the images that all its batches took.
pub open spec fn after_tick_steps(steps: Seq<TickStep>) -> (TickView, Seq<InlineView>)
    decreases steps.len(),
{
    if steps.len() == 0 {
        (TickView::begun(), seq![])
    } else {
        let (tick, images) = after_tick_steps(steps.drop_last());
        match steps.last() {
            TickStep::Batch { candidates } => (tick.next(candidates).0, images),
            TickStep::Offer { offer } => {
                let (next, image) = tick.with_offer(offer);
                match image {
                    Some(a) => (next, images.push(a)),
                    None => (next, images),
                }
            },
            TickStep::Done { batch } => (tick.with_batch(batch), images),
        }
    }
}

/// The images of all batches of a tick together cost at most the tick's budget, whatever
/// happens in it: what they cost and what is left make up the budget.
pub proof fn law_images_of_a_tick_stay_in_its_budget(steps: Seq<TickStep>)
    ensures
        ({
            let (tick, images) = after_tick_steps(steps);
            &&& total_cost(images) + tick.remaining == PER_TICK_INLINE_BUDGET
            &&& total_cost(images) <= PER_TICK_INLINE_BUDGET
        }),
    decreases steps.len(),
{
    if steps.len() > 0 {
        law_images_of_a_tick_stay_in_its_budget(steps.drop_last());
        let (tick, images) = after_tick_steps(steps.drop_last());
        match steps.last() {
            TickStep::Offer { offer } => {
                if taken(tick.remaining, offer.1) {
                    let image = inline_of(offer.0, offer.1->0);
                    let more = images.push(image);
                    assert(more.drop_last() =~= images);
                    assert(more.last() == image);
                }
            },
            _ => {},
        }
    }
}

/// A tick has no more batches than it may have, whatever happens in it.
pub proof fn law_batches_are_bounded(steps: Seq<TickStep>)
    ensures
        after_tick_steps(steps).0.wf(),
    decreases steps.len(),
{
    if steps.len() > 0 {
        law_batches_are_bounded(steps.drop_last());
    }
}

/// Once the budget is spent, no image is taken any more.
pub proof fn law_spent_budget_takes_nothing(offers: Seq<Offer>)
    ensures
        after_offers(offers, 0) == (Seq::<InlineView>::empty(), 0u64),
    decreases offers.len(),
{
    if offers.len() > 0 {
        law_spent_budget_takes_nothing(offers.drop_last());
    }
}

/// A batch ends: the sidecar's end or error ends it at once, and silence ends it at the
/// second time, after the sidecar was told to stop.
pub proof fn law_batch_ends(b: BatchView, raw: json::Tree)
    ensures
        b.after_event("end"@, raw).0.phase == BatchPhase::Done,
        b.after_event("error"@, raw).0.phase == BatchPhase::Done,
        b.after_silence().0.after_silence().0.phase == BatchPhase::Done,
        b.phase == BatchPhase::Draining ==> b.after_silence().1.1 == BatchNext::StopAndListen,
{
    reveal_strlit("triageProposal");
    reveal_strlit("triageSummary");
    reveal_strlit("triageCancelled");
    reveal_strlit("triageProgress");
    reveal_strlit("end");
    reveal_strlit("error");
    assert("end"@.len() == 3 && "error"@.len() == 5);
}

/// A batch is over exactly when the host is told to finish, and then nothing changes it
/// any more.
pub proof fn law_finished_batches_stay(b: BatchView, kind: Seq<char>, raw: json::Tree)
    ensures
        b.after_event(kind, raw).0.phase == BatchPhase::Done <==> b.after_event(kind, raw).1.1
            == BatchNext::Finish,
        b.phase == BatchPhase::Done ==> b.after_event(kind, raw).0 == b && b.after_silence().0 == b,
{
}

/// Proposals are kept: an event adds at most one and takes none away, and what was
/// proposed before a batch was stopped still counts where the sidecar then ends it.
pub proof fn law_proposals_are_kept(b: BatchView, kind: Seq<char>, raw: json::Tree)
    ensures
        b.proposals.is_prefix_of(b.after_event(kind, raw).0.proposals),
        b.after_event(kind, raw).0.proposals.len() <= b.proposals.len() + 1,
        b.after_silence().0.proposals == b.proposals,
        b.phase == BatchPhase::Stopping && b.error is None ==> b.after_event(
            "end"@,
            raw,
        ).0.outcome() is Ok && b.after_event("end"@, raw).0.proposals == b.proposals,
{
    assert(b.proposals.is_prefix_of(b.proposals));
}

/// A batch fails where the sidecar reports an error, and where it never ends.
pub proof fn law_batch_failures(b: BatchView, raw: json::Tree)
    ensures
        b.phase == BatchPhase::Draining ==> b.after_event("error"@, raw).0.outcome() is Err,
        b.phase == BatchPhase::Stopping && !b.got_terminal && b.error is None
            ==> b.after_silence().0.outcome() == Err::<(), Seq<char>>(
            "triage sidecar tick timed out"@,
        ),
{
    reveal_strlit("triageProposal");
    reveal_strlit("triageSummary");
    reveal_strlit("triageCancelled");
    reveal_strlit("triageProgress");
    reveal_strlit("end");
    reveal_strlit("error");
    assert("end"@.len() == 3 && "error"@.len() == 5);
    assert("triageProposal"@.len() == 14 && "triageSummary"@.len() == 13);
    assert("triageCancelled"@.len() == 15 && "triageProgress"@.len() == 14);
}

/// Two proposals for one candidate with different anchors make workspaces with different
/// references, so that one conversation can have several.
pub proof fn law_anchors_tell_workspaces_apart(
    row: storage::RowView,
    p: ProposalView,
    q: ProposalView,
)
    requires
        resolved(Some(row), p) is Ok,
        resolved(Some(row), q) is Ok,
        pieces::trimmed(p.task_anchor) != pieces::trimmed(q.task_anchor),
    ensures
        resolved(Some(row), p)->Ok_0.source_ref != resolved(Some(row), q)->Ok_0.source_ref,
{
    let a = pieces::trimmed(p.task_anchor);
    let b = pieces::trimmed(q.task_anchor);
    let head = row.source_ref + ":"@;
    if head + a == head + b {
        assert((head + a).skip(head.len() as int) =~= a);
        assert((head + b).skip(head.len() as int) =~= b);
    }
}

/// A workspace that is made for a proposal is made of that proposal: the plan, the title, the
/// repository and the branch are the proposal's, each in its place, and the source is the
/// candidate's. The workspace goes by the candidate's reference and the trimmed anchor.
pub proof fn law_workspace_is_made_of_its_proposal(row: storage::RowView, p: ProposalView)
    ensures
        resolved(Some(row), p) is Ok <==> pieces::says_something(p.task_anchor),
        resolved(Some(row), p) matches Ok(v) ==> {
            &&& v.plan_message == p.plan_message
            &&& v.title == p.title
            &&& v.repo_id == p.repo_id
            &&& v.branch_name == p.branch_name
            &&& v.source_type == row.source
            &&& v.candidate_source_ref == row.source_ref
            &&& v.task_anchor == pieces::trimmed(p.task_anchor)
            &&& v.source_ref == row.source_ref + ":"@ + pieces::trimmed(p.task_anchor)
        },
        resolved(None, p) == Err::<workspace_factory::ParamsView, Seq<char>>(
            "candidate "@ + p.candidate_id + " not found"@,
        ),
        resolved(Some(row), p) matches Err(e) ==> e == "proposal for candidate "@ + p.candidate_id
            + " missing task_anchor"@,
{
    pieces::law_trimming_takes_only_white_space(p.task_anchor);
}

/// The plan that the model proposed is the plan that primes the workspace: whatever the host
/// reports on the way, the priming message of a workspace that is made for a proposal begins
/// with that proposal's plan, and its session gets that proposal's title.
pub proof fn law_proposed_plan_primes_the_workspace(
    row: storage::RowView,
    p: ProposalView,
    inputs: Seq<workspace_factory::InputView>,
    input: workspace_factory::InputView,
)
    requires
        resolved(Some(row), p) is Ok,
        after_inputs(resolved(Some(row), p)->Ok_0, inputs) matches Some(run) && run.accepts(input),
    ensures
        ({
            let run = after_inputs(resolved(Some(row), p)->Ok_0, inputs)->0;
            &&& run.next(input).1 matches workspace_factory::WorkView::InsertPriming {
                plan,
                session_id,
            } ==> text::begins(plan, p.plan_message) && session_id == run.made.1
            &&& run.next(input).1 matches workspace_factory::WorkView::RenameSession {
                title,
                session_id,
            } ==> title == pieces::trimmed(p.title) && session_id == run.made.1
            &&& run.next(input).1 matches workspace_factory::WorkView::RenameBranch {
                slug,
                repo_id,
                ..
            } ==> slug == pieces::trimmed(p.branch_name) && repo_id == p.repo_id
            &&& run.next(input).1 matches workspace_factory::WorkView::Prepare { repo_id }
                ==> repo_id == p.repo_id
            &&& run.next(input).1 matches workspace_factory::WorkView::Mark {
                source_type,
                source_ref,
                ..
            } ==> source_type == row.source && source_ref == row.source_ref + ":"@
                + pieces::trimmed(p.task_anchor)
        }),
{
    let v = resolved(Some(row), p)->Ok_0;
    lemma_inputs_keep_the_parameters(v, inputs);
    let run = after_inputs(v, inputs)->0;
    workspace_factory::law_steps_carry_what_was_asked(run, input);
    law_workspace_is_made_of_its_proposal(row, p);
}

/// The making of a workspace after what the host has reported, as long as it was asked for.
pub open spec fn after_inputs(
    p: workspace_factory::ParamsView,
    inputs: Seq<workspace_factory::InputView>,
) -> Option<workspace_factory::RunView>
    decreases inputs.len(),
{
    if inputs.len() == 0 {
        Some(workspace_factory::begun(p).0)
    } else {
        match after_inputs(p, inputs.drop_last()) {
            Some(run) => if run.accepts(inputs.last()) {
                Some(run.next(inputs.last()).0)
            } else {
                None
            },
            None => None,
        }
    }
}

proof fn lemma_inputs_keep_the_parameters(
    p: workspace_factory::ParamsView,
    inputs: Seq<workspace_factory::InputView>,
)
    ensures
        after_inputs(p, inputs) matches Some(run) ==> run.params == p,
    decreases inputs.len(),
{
    if inputs.len() == 0 {
        workspace_factory::law_parameters_must_say_something(p);
    } else {
        lemma_inputs_keep_the_parameters(p, inputs.drop_last());
        match after_inputs(p, inputs.drop_last()) {
            Some(run) => {
                if run.accepts(inputs.last()) {
                    workspace_factory::law_steps_carry_what_was_asked(run, inputs.last());
                }
            },
            None => {},
        }
    }
}

/// A proposal is taken as it was sent: each of its members from the member of that name, and
/// only where all six are texts.
pub proof fn law_proposals_are_taken_as_sent(t: json::Tree)
    requires
        t is Object,
    ensures
        match proposal_in(t) {
            Some(p) => {
                &&& t.get("candidateId"@) == Some(json::Tree::Text(p.candidate_id))
                &&& t.get("taskAnchor"@) == Some(json::Tree::Text(p.task_anchor))
                &&& t.get("repoId"@) == Some(json::Tree::Text(p.repo_id))
                &&& t.get("title"@) == Some(json::Tree::Text(p.title))
                &&& t.get("branchName"@) == Some(json::Tree::Text(p.branch_name))
                &&& t.get("planMessage"@) == Some(json::Tree::Text(p.plan_message))
            },
            None => {
                ||| t.text_at("candidateId"@) is None
                ||| t.text_at("taskAnchor"@) is None
                ||| t.text_at("repoId"@) is None
                ||| t.text_at("title"@) is None
                ||| t.text_at("branchName"@) is None
                ||| t.text_at("planMessage"@) is None
            },
        },
{
}

/// Each event of a running batch does its own thing and no other: a proposal is added behind
/// those that there were, a summary replaces the summary, a cancellation is noted, progress
/// is shown, and end and error finish the batch. Any other event changes nothing.
pub proof fn law_events_do_their_own_thing(b: BatchView, kind: Seq<char>, raw: json::Tree)
    requires
        b.phase == BatchPhase::Draining,
    ensures
        ({
            let (after, step) = b.after_event(kind, raw);
            let proposed = if kind == "triageProposal"@ && raw.get("params"@) is Some {
                proposal_in(raw.get("params"@)->0)
            } else {
                None
            };
            &&& after.proposals == (match proposed {
                Some(p) => b.proposals.push(p),
                None => b.proposals,
            })
            &&& after.summary == (if kind == "triageSummary"@ {
                raw.text_at("message"@)
            } else {
                b.summary
            })
            &&& after.cancelled == (b.cancelled || kind == "triageCancelled"@)
            &&& after.got_terminal == (b.got_terminal || kind == "end"@ || kind == "error"@)
            &&& after.error == (if kind == "error"@ {
                Some(
                    match raw.text_at("message"@) {
                        Some(m) => m,
                        None => "sidecar error"@,
                    },
                )
            } else {
                b.error
            })
            &&& after.phase == (if kind == "end"@ || kind == "error"@ {
                BatchPhase::Done
            } else {
                BatchPhase::Draining
            })
            &&& step.0 is Some <==> kind == "triageProgress"@
            &&& step.0 matches Some(shown) ==> {
                &&& shown.turn matches Some(n) ==> (raw.uint_at("turn"@) matches Some(m) && n as int
                    == m as int % 4_294_967_296)
                &&& shown.turn is None ==> raw.uint_at("turn"@) is None
                &&& shown.tool is Some == raw.text_at("tool"@) is Some
                &&& shown.tool matches Some(t) ==> Some(t.0) == raw.text_at("tool"@) && t.1 == (
                match raw.text_at("argsPreview"@) {
                    Some(a) => a,
                    None => Seq::<char>::empty(),
                })
            }
        }),
{
    reveal_strlit("triageProposal");
    reveal_strlit("triageSummary");
    reveal_strlit("triageCancelled");
    reveal_strlit("triageProgress");
    reveal_strlit("end");
    reveal_strlit("error");
    assert("end"@.len() == 3 && "error"@.len() == 5);
    assert("triageProposal"@.len() == 14 && "triageSummary"@.len() == 13);
    assert("triageCancelled"@.len() == 15 && "triageProgress"@.len() == 14);
    assert("triageProposal"@[9] == 'p' && "triageProgress"@[9] == 'g');
}

/// Once a batch was stopped, only its end counts: what comes in before it is not taken.
pub proof fn law_stopped_batches_wait_for_their_end(b: BatchView, kind: Seq<char>, raw: json::Tree)
    requires
        b.phase == BatchPhase::Stopping,
    ensures
        ({
            let (after, step) = b.after_event(kind, raw);
            let ends = kind == "end"@ || kind == "error"@;
            &&& after.proposals == b.proposals && after.summary == b.summary
            &&& after.cancelled == b.cancelled && after.error == b.error
            &&& ends ==> after.phase == BatchPhase::Done && after.got_terminal
            &&& !ends ==> after == b && step.1 == BatchNext::ListenForEnd
        }),
{
}

/// A tick's batches add up: what was made and what failed is counted of every batch, the last
/// summary that says anything stands, and a cancelled batch ends the tick.
pub proof fn law_batches_add_up(t: TickView, batch: ExecuteOk)
    requires
        t.total.created + batch.created <= u32::MAX,
        t.total.workspace_failures + batch.workspace_failures <= u32::MAX,
    ensures
        ({
            let after = t.with_batch(batch);
            &&& after.total.created == t.total.created + batch.created
            &&& after.total.workspace_failures == t.total.workspace_failures
                + batch.workspace_failures
            &&& after.total.cancelled <==> t.total.cancelled || batch.cancelled
            &&& after.ended <==> t.ended || batch.cancelled
            &&& after.batches == t.batches && after.remaining == t.remaining
            &&& (batch.summary matches Some(s) && s@.len() > 0) ==> after.total.summary
                == batch.summary
            &&& batch.summary is None ==> after.total.summary == t.total.summary
            &&& (batch.summary matches Some(s) && s@.len() == 0) && t.total.summary is Some
                ==> after.total.summary == t.total.summary
        }),
{
}

/// A tick runs at most five batches, numbered one after the other, and ends where no
/// candidate is open.
pub proof fn law_batches_are_numbered(t: TickView, candidates: nat)
    ensures
        ({
            let (after, n) = t.next(candidates);
            &&& n is Some <==> !t.ended && t.batches < 5 && candidates > 0
            &&& n matches Some(k) ==> k == t.batches + 1 && after.batches == k && after.ended
                == t.ended
            &&& n is None ==> after.batches == t.batches && !after.goes_on()
            &&& after.total == t.total && after.remaining == t.remaining
        }),
{
}

/// An image that is taken is the one that was offered: it goes under its message and its own
/// name, with the data and the type of its preview. It is taken wherever its data fits into
/// what is left.
pub proof fn law_images_are_taken_as_offered(o: Offer, remaining: u64)
    ensures
        ({
            let (image, left) = offered(o, remaining);
            &&& image is Some <==> (o.1 matches Some(p) && remaining > 0 && order::byte_len(p.0)
                <= remaining)
            &&& image matches Some(a) ==> {
                &&& a.message_id == o.0.0
                &&& a.filename == o.0.1.filename
                &&& a.alt == o.0.1.alt
                &&& a.mime_type == (o.1->0).1
                &&& a.data_base64 == (o.1->0).0
                &&& left == remaining - order::byte_len((o.1->0).0)
            }
            &&& image is None ==> left == remaining
        }),
{
}

/// What the sidecar is told of a batch can be read back by name: its candidates, the
/// repositories, the model and the settings.
pub proof fn law_batches_are_told_by_name(
    tick_id: Seq<char>,
    cfg: TickConfig,
    candidates: Seq<json::Tree>,
    repos: json::Tree,
    model: LocalModel,
)
    ensures
        ({
            let t = batch_tree(tick_id, cfg, candidates, repos, model);
            &&& t.get("candidates"@) == Some(json::Tree::Array(candidates))
            &&& t.get("repos"@) == Some(repos)
            &&& t.text_at("tickId"@) == Some(tick_id)
            &&& t.text_at("systemPrompt"@) == Some(cfg.system_prompt@)
            &&& t.uint_at("maxPerTick"@) == Some(cfg.max_per_tick as u64)
            &&& t.get("localModel"@) matches Some(m) && {
                &&& m.text_at("baseUrl"@) == Some(model.base_url@)
                &&& m.text_at("token"@) == Some(model.token@)
                &&& m.text_at("model"@) == Some(model.model@)
            }
        }),
{
    reveal_strlit("candidates");
    reveal_strlit("localModel");
    reveal_strlit("maxPerTick");
    reveal_strlit("repos");
    reveal_strlit("systemPrompt");
    reveal_strlit("tickId");
    reveal_strlit("baseUrl");
    reveal_strlit("model");
    reveal_strlit("token");
    reveal_with_fuel(json::member, 7);
    assert("candidates"@[0] == 'c' && "localModel"@[0] == 'l' && "maxPerTick"@[0] == 'm'
        && "repos"@[0] == 'r' && "systemPrompt"@[0] == 's' && "tickId"@[0] == 't');
    assert("baseUrl"@[0] == 'b' && "model"@[0] == 'm' && "token"@[0] == 't');
}

/// An image can be read back by name from what the sidecar is told of it.
pub proof fn law_images_are_told_by_name(a: InlineView)
    ensures
        ({
            let t = inline_tree(a);
            &&& t.text_at("messageId"@) == Some(a.message_id)
            &&& t.text_at("filename"@) == Some(a.filename)
            &&& t.text_at("mimeType"@) == Some(a.mime_type)
            &&& t.text_at("dataBase64"@) == Some(a.data_base64)
            &&& t.text_at("alt"@) == a.alt
        }),
{
    reveal_strlit("alt");
    reveal_strlit("dataBase64");
    reveal_strlit("filename");
    reveal_strlit("messageId");
    reveal_strlit("mimeType");
    reveal_with_fuel(json::member, 6);
    assert("alt"@[0] == 'a' && "dataBase64"@[0] == 'd' && "filename"@[0] == 'f');
    assert("messageId"@[1] == 'e' && "mimeType"@[1] == 'i' && "messageId"@[0] == 'm'
        && "mimeType"@[0] == 'm');
}

/// A tick begins only where triage and the local model are on and none is under way.
pub proof fn law_one_tick_at_a_time(in_flight: bool, enabled: bool, llm_enabled: bool)
    ensures
        refusal(in_flight, enabled, llm_enabled) is None <==> enabled && llm_enabled && !in_flight,
{
}

/// Of the proposals of a batch those are counted that became workspaces.
pub proof fn law_made_workspaces_are_counted(outcomes: Seq<bool>, made: bool)
    ensures
        made_among(outcomes.push(made), outcomes.len() as int + 1) == made_among(
            outcomes,
            outcomes.len() as int,
        ) + (if made {
            1nat
        } else {
            0nat
        }),
{
    lemma_made_among_first(outcomes, outcomes.push(made), outcomes.len() as int);
}

proof fn lemma_made_among_first(a: Seq<bool>, b: Seq<bool>, n: int)
    requires
        n <= a.len(),
        n <= b.len(),
        forall|i: int| 0 <= i < n ==> a[i] == b[i],
    ensures
        made_among(a, n) == made_among(b, n),
    decreases n,
{
    if n > 0 {
        lemma_made_among_first(a, b, n - 1);
    }
}

/// A tick that is not begun is told the first reason: that triage is off, then that there is
/// no model, then that another tick is under way.
pub proof fn law_refused_ticks_are_told_why(in_flight: bool, llm_enabled: bool)
    ensures
        refusal(in_flight, false, llm_enabled) == Some("Triage is disabled"@),
        refusal(in_flight, true, false) == Some("Local LLM is not enabled"@),
        refusal(true, true, true) == Some("Another triage tick is in flight"@),
{
}

/// Attachments are looked up for candidates of the two chat services that name their
/// conversation, and a candidate is told with its images, in their order, where it has any.
pub proof fn law_candidates_are_told_with_their_images(
    row: storage::RowView,
    images: Seq<InlineView>,
    i: int,
)
    ensures
        looks_up_attachments(row) <==> (row.source == "slack"@ || row.source == "lark"@)
            && row.source_ref.len() > 0,
        images.len() == 0 ==> enriched_tree(row, images).get("attachments"@) is None,
        0 <= i < images.len() ==> (enriched_tree(row, images).get("attachments"@) matches Some(
            json::Tree::Array(a),
        ) && a.len() == images.len() && a[i] == inline_tree(images[i])),
        enriched_tree(row, images) is Object,
{
    storage::law_rows_are_told_by_name(row);
    if images.len() > 0 {
        let a = json::Tree::Array(Seq::new(images.len(), |k: int| inline_tree(images[k])));
        assert(enriched_tree(row, images) == storage::row_tree(row, Some(a)));
    }
}

/// A tick that was stopped is told as stopped, one that made workspaces is told with their
/// number, and one that failed is told with its error; its summary is kept.
pub proof fn law_ticks_are_told_as_they_ended(
    outcome: Result<ExecuteOk, String>,
    r: (TickOutcome, Option<String>),
)
    requires
        call_ensures(tick_outcome, (&outcome,), r),
    ensures
        r.0 is Failed <==> outcome is Err,
        outcome is Ok ==> (r.0 is Cancelled <==> outcome->Ok_0.cancelled) && r.1
            == outcome->Ok_0.summary,
        r.0 matches TickOutcome::CreatedWorkspaces { count } ==> outcome is Ok && count
            == outcome->Ok_0.created && count > 0,
        r.0 is NoActionableItems ==> outcome is Ok && outcome->Ok_0.created == 0,
        outcome is Ok && !outcome->Ok_0.cancelled && outcome->Ok_0.created > 0
            ==> r.0 is CreatedWorkspaces,
        r.0 matches TickOutcome::Failed { message } ==> message@ == outcome->Err_0@ && r.1 is None,
{
}

} // verus!
