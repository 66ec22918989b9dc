//! Making a workspace out of a candidate: what is checked first, which steps the host
//! takes in which order, and which of their failures count.
use vstd::prelude::*;
use crate::pieces;
use crate::text;
use crate::triage::attachments;
use crate::triage::attachments::MovedAttachment;
use crate::triage::im::ingest;
use crate::triage::im::ingest::AttachmentEntry;
use crate::triage::priming;

verus! {

/// What a workspace is made of.
pub struct CreateAiWorkspaceParams {
    pub source_type: String,
    /// The candidate's reference with the anchor, by which a second workspace for the
    /// same thing is refused.
    pub source_ref: String,
    /// The candidate's own reference, under which its attachments are listed.
    pub candidate_source_ref: String,
    /// The message or issue that asks for the work.
    pub task_anchor: String,
    pub repo_id: String,
    pub plan_message: String,
    pub title: String,
    pub branch_name: String,
}

/// What a workspace is made of.
#[verifier::ext_equal]
pub struct ParamsView {
    pub source_type: Seq<char>,
    pub source_ref: Seq<char>,
    pub candidate_source_ref: Seq<char>,
    pub task_anchor: Seq<char>,
    pub repo_id: Seq<char>,
    pub plan_message: Seq<char>,
    pub title: Seq<char>,
    pub branch_name: Seq<char>,
}

impl View for CreateAiWorkspaceParams {
    type V = ParamsView;

    open spec fn view(&self) -> ParamsView {
        ParamsView {
            source_type: self.source_type@,
            source_ref: self.source_ref@,
            candidate_source_ref: self.candidate_source_ref@,
            task_anchor: self.task_anchor@,
            repo_id: self.repo_id@,
            plan_message: self.plan_message@,
            title: self.title@,
            branch_name: self.branch_name@,
        }
    }
}

/// The workspace that was made, and its first session.
pub struct CreateAiWorkspaceResult {
    pub workspace_id: String,
    pub session_id: String,
}

/// The ids of a workspace and its first session.
pub type MadeView = (Seq<char>, Seq<char>);

impl View for CreateAiWorkspaceResult {
    type V = MadeView;

    open spec fn view(&self) -> MadeView {
        (self.workspace_id@, self.session_id@)
    }
}

// ---------------------------------------------------------------------------
// The plan and its attachments
// ---------------------------------------------------------------------------

/// The source keeps lists of attachments.
pub open spec fn lists_attachments(source: Seq<char>) -> bool {
    source == "slack"@ || source == "lark"@
}

/// Whether the source keeps lists of attachments.
pub fn keeps_attachment_lists(source: &str) -> (r: bool)
    ensures
        r == lists_attachments(source@),
{
    text::same(source, "slack") || text::same(source, "lark")
}

/// The entries that belong to the message, in their order.
pub open spec fn entries_at(entries: Seq<ingest::EntryView>, anchor: Seq<char>) -> Seq<
    ingest::EntryView,
>
    decreases entries.len(),
{
    if entries.len() == 0 {
        seq![]
    } else {
        let before = entries_at(entries.drop_last(), anchor);
        if entries.last().0 == anchor {
            before.push(entries.last())
        } else {
            before
        }
    }
}

/// The entries that belong to the message, in their order.
pub fn anchor_entries(entries: Vec<AttachmentEntry>, anchor: &str) -> (r: Vec<AttachmentEntry>)
    ensures
        ingest::entry_views(r@) == entries_at(ingest::entry_views(entries@), anchor@),
{
    let ghost all = ingest::entry_views(entries@);
    let mut out: Vec<AttachmentEntry> = Vec::new();
    assert(ingest::entry_views(out@) =~= entries_at(all.take(0), anchor@));
    for e in it: entries
        invariant
            ingest::entry_views(it.seq()) == all,
            ingest::entry_views(out@) == entries_at(all.take(it.index() as int), anchor@),
    {
        let ghost i = it.index() as int;
        assert(all[i] == e@);
        assert(all.take(i + 1).drop_last() =~= all.take(i));
        assert(all.take(i + 1).last() == e@);
        if text::same(e.message_id.as_str(), anchor) {
            let ghost before = ingest::entry_views(out@);
            out.push(e);
            assert(ingest::entry_views(out@) =~= before.push(e@));
        }
    }
    assert(all.take(all.len() as int) =~= all);
    out
}

/// The line of a stored file: shown under what it is called, with its path for reading.
pub open spec fn attachment_line(
    e: ingest::EntryView,
    m: attachments::MovedView,
) -> Seq<char> {
    let alt = match e.1.alt {
        Some(a) => a,
        None => m.filename,
    };
    "- !["@ + alt + "]("@ + m.url + ") — `"@ + m.absolute_path + "`\n"@
}

/// The lines of those files that were moved into the store.
pub open spec fn attachment_lines(
    entries: Seq<ingest::EntryView>,
    moved: Seq<Option<attachments::MovedView>>,
) -> Seq<char>
    decreases entries.len(),
{
    if entries.len() == 0 || moved.len() != entries.len() {
        seq![]
    } else {
        let before = attachment_lines(entries.drop_last(), moved.drop_last());
        match moved.last() {
            Some(m) => before + attachment_line(entries.last(), m),
            None => before,
        }
    }
}

/// Some file was moved into the store.
pub open spec fn any_moved(moved: Seq<Option<attachments::MovedView>>) -> bool {
    exists|i: int| 0 <= i < moved.len() && (#[trigger] moved[i]) is Some
}

/// The plan with the files that were moved into the store.
pub open spec fn plan_with(
    plan: Seq<char>,
    entries: Seq<ingest::EntryView>,
    moved: Seq<Option<attachments::MovedView>>,
) -> Seq<char> {
    if any_moved(moved) {
        plan + "\n\n## Attachments\n"@ + attachment_lines(entries, moved)
    } else {
        plan
    }
}

/// What optional stored files are.
pub open spec fn moved_views(v: Seq<Option<MovedAttachment>>) -> Seq<
    Option<attachments::MovedView>,
> {
    Seq::new(v.len(), |i: int| opt_moved(v[i]))
}

/// What an optional stored file is.
pub open spec fn opt_moved(m: Option<MovedAttachment>) -> Option<attachments::MovedView> {
    match m {
        Some(m) => Some(m@),
        None => None,
    }
}

/// Puts the files that were moved into the store behind the plan. A file that could not
/// be moved is left out.
pub fn render_plan_with_attachments(
    plan: &str,
    entries: &Vec<AttachmentEntry>,
    moved: &Vec<Option<MovedAttachment>>,
) -> (r: String)
    requires
        moved@.len() == entries@.len(),
    ensures
        r@ == plan_with(plan@, ingest::entry_views(entries@), moved_views(moved@)),
{
    let ghost all = ingest::entry_views(entries@);
    let ghost done = moved_views(moved@);
    let mut lines = String::new();
    let mut any = false;
    let mut i: usize = 0;
    assert(lines@ =~= attachment_lines(all.take(0), done.take(0)));
    while i < entries.len()
        invariant
            i <= entries@.len(),
            moved@.len() == entries@.len(),
            all == ingest::entry_views(entries@),
            done == moved_views(moved@),
            lines@ == attachment_lines(all.take(i as int), done.take(i as int)),
            any ==> any_moved(done),
            !any ==> forall|k: int| 0 <= k < i ==> (#[trigger] done[k]) is None,
        decreases entries@.len() - i,
    {
        let e = &entries[i];
        assert(all[i as int] == e@);
        assert(done[i as int] == opt_moved(moved@[i as int]));
        assert(all.take(i + 1).drop_last() =~= all.take(i as int));
        assert(done.take(i + 1).drop_last() =~= done.take(i as int));
        assert(all.take(i + 1).last() == e@);
        assert(done.take(i + 1).last() == done[i as int]);
        match &moved[i] {
            Some(m) => {
                any = true;
                let ghost before = lines@;
                lines.append("- ![");
                match &e.alt {
                    Some(a) => {
                        lines.append(a.as_str());
                    },
                    None => {
                        lines.append(m.filename.as_str());
                    },
                }
                lines.append("](");
                lines.append(m.url.as_str());
                lines.append(") — `");
                lines.append(m.absolute_path.as_str());
                lines.append("`\n");
                assert(lines@ =~= before + attachment_line(e@, m@));
            },
            None => {},
        }
        i += 1;
    }
    assert(all.take(i as int) =~= all);
    assert(done.take(i as int) =~= done);
    let mut out = plan.to_string();
    if any {
        out.append("\n\n## Attachments\n");
        out.append(lines.as_str());
    }
    out
}

// ---------------------------------------------------------------------------
// The course of making a workspace
// ---------------------------------------------------------------------------

/// Where the making of a workspace stands.
#[derive(Clone, Copy, Debug, PartialEq, Eq, Structural)]
pub enum CreatePhase {
    FindExisting,
    Prepare,
    Finalize,
    CleanUp,
    Mark,
    RenameSession,
    RenameBranch,
    ListAttachments,
    MoveAttachments,
    InsertPriming,
    Done,
}

/// What the host reports back.
pub enum CreateInput {
    /// The workspace that the source has already, where there is one.
    Existing(Result<Option<String>, String>),
    /// The ids of the new workspace and of its first session.
    Prepared(Result<CreateAiWorkspaceResult, String>),
    Finalized(Result<(), String>),
    Marked(Result<(), String>),
    /// A step that counts as done whatever came of it.
    Tried,
    Listed(Vec<AttachmentEntry>),
    Moved(Vec<Option<MovedAttachment>>),
    Inserted(Result<(), String>),
}

/// What the host does next.
pub enum CreateWork {
    FindExisting { source_type: String, source_ref: String },
    Prepare { repo_id: String },
    Finalize { workspace_id: String },
    /// Removes the workspace that was not finished, with its sessions and their messages.
    CleanUp { workspace_id: String },
    Mark { workspace_id: String, kind: String, source_type: String, source_ref: String },
    RenameSession { session_id: String, title: String },
    RenameBranch { workspace_id: String, repo_id: String, slug: String },
    ListAttachments { source_type: String, conv_id: String },
    MoveAttachments { paths: Vec<String>, workspace_id: String },
    InsertPriming { session_id: String, content: String },
    Finish(Result<CreateAiWorkspaceResult, String>),
}

/// What the host reports back.
pub enum InputView {
    Existing(Result<Option<Seq<char>>, Seq<char>>),
    Prepared(Result<MadeView, Seq<char>>),
    Finalized(Result<(), Seq<char>>),
    Marked(Result<(), Seq<char>>),
    Tried,
    Listed(Seq<ingest::EntryView>),
    Moved(Seq<Option<attachments::MovedView>>),
    Inserted(Result<(), Seq<char>>),
}

/// What the host does next.
pub enum WorkView {
    FindExisting { source_type: Seq<char>, source_ref: Seq<char> },
    Prepare { repo_id: Seq<char> },
    Finalize { workspace_id: Seq<char> },
    CleanUp { workspace_id: Seq<char> },
    Mark {
        workspace_id: Seq<char>,
        kind: Seq<char>,
        source_type: Seq<char>,
        source_ref: Seq<char>,
    },
    RenameSession { session_id: Seq<char>, title: Seq<char> },
    RenameBranch { workspace_id: Seq<char>, repo_id: Seq<char>, slug: Seq<char> },
    ListAttachments { source_type: Seq<char>, conv_id: Seq<char> },
    MoveAttachments { paths: Seq<Seq<char>>, workspace_id: Seq<char> },
    InsertPriming { session_id: Seq<char>, plan: Seq<char> },
    Finish(Result<MadeView, Seq<char>>),
}

/// The text of an outcome that may be an error.
pub open spec fn done_text(r: Result<(), String>) -> Result<(), Seq<char>> {
    match r {
        Ok(()) => Ok(()),
        Err(e) => Err(e@),
    }
}

/// The ids of a workspace that was made, or the text of the error.
pub open spec fn made_text(r: Result<CreateAiWorkspaceResult, String>) -> Result<
    MadeView,
    Seq<char>,
> {
    match r {
        Ok(m) => Ok(m@),
        Err(e) => Err(e@),
    }
}

/// The id of a workspace that was found, or the text of the error.
pub open spec fn found_text(r: Result<Option<String>, String>) -> Result<
    Option<Seq<char>>,
    Seq<char>,
> {
    match r {
        Ok(o) => Ok(text::opt_text(o)),
        Err(e) => Err(e@),
    }
}

impl View for CreateInput {
    type V = InputView;

    open spec fn view(&self) -> InputView {
        match self {
            CreateInput::Existing(r) => InputView::Existing(found_text(*r)),
            CreateInput::Prepared(r) => InputView::Prepared(made_text(*r)),
            CreateInput::Finalized(r) => InputView::Finalized(done_text(*r)),
            CreateInput::Marked(r) => InputView::Marked(done_text(*r)),
            CreateInput::Tried => InputView::Tried,
            CreateInput::Listed(v) => InputView::Listed(ingest::entry_views(v@)),
            CreateInput::Moved(v) => InputView::Moved(moved_views(v@)),
            CreateInput::Inserted(r) => InputView::Inserted(done_text(*r)),
        }
    }
}

impl CreateWork {
    /// The work is what the view says. A priming message is content from which its plan
    /// is read back.
    pub open spec fn says(&self, v: WorkView) -> bool {
        match (self, v) {
            (
                CreateWork::FindExisting { source_type, source_ref },
                WorkView::FindExisting { source_type: t, source_ref: r },
            ) => source_type@ == t && source_ref@ == r,
            (CreateWork::Prepare { repo_id }, WorkView::Prepare { repo_id: r }) => repo_id@ == r,
            (
                CreateWork::Finalize { workspace_id },
                WorkView::Finalize { workspace_id: w },
            ) => workspace_id@ == w,
            (
                CreateWork::CleanUp { workspace_id },
                WorkView::CleanUp { workspace_id: w },
            ) => workspace_id@ == w,
            (
                CreateWork::Mark { workspace_id, kind, source_type, source_ref },
                WorkView::Mark { workspace_id: w, kind: k, source_type: t, source_ref: r },
            ) => workspace_id@ == w && kind@ == k && source_type@ == t && source_ref@ == r,
            (
                CreateWork::RenameSession { session_id, title },
                WorkView::RenameSession { session_id: s, title: t },
            ) => session_id@ == s && title@ == t,
            (
                CreateWork::RenameBranch { workspace_id, repo_id, slug },
                WorkView::RenameBranch { workspace_id: w, repo_id: r, slug: s },
            ) => workspace_id@ == w && repo_id@ == r && slug@ == s,
            (
                CreateWork::ListAttachments { source_type, conv_id },
                WorkView::ListAttachments { source_type: t, conv_id: c },
            ) => source_type@ == t && conv_id@ == c,
            (
                CreateWork::MoveAttachments { paths, workspace_id },
                WorkView::MoveAttachments { paths: p, workspace_id: w },
            ) => text::texts(paths@) == p && workspace_id@ == w,
            (
                CreateWork::InsertPriming { session_id, content },
                WorkView::InsertPriming { session_id: s, plan },
            ) => session_id@ == s && content@ == crate::json::written(
                priming::plan_message_tree(plan),
            ) && priming::plan_of(content@) == (if plan.len() == 0 {
                None
            } else {
                Some(plan)
            }),
            (CreateWork::Finish(r), WorkView::Finish(v)) => made_text(*r) == v,
            _ => false,
        }
    }
}

/// What is being made and where that stands.
#[verifier::ext_equal]
pub struct RunView {
    pub params: ParamsView,
    pub made: MadeView,
    pub entries: Seq<ingest::EntryView>,
    pub error: Seq<char>,
    pub phase: CreatePhase,
}

/// An error with what was being done when it came.
pub open spec fn in_context(what: Seq<char>, error: Seq<char>) -> Seq<char> {
    what + ": "@ + error
}

/// What is said of a source that has a workspace.
pub open spec fn already_mapped(p: ParamsView, id: Seq<char>) -> Seq<char> {
    "triage source already mapped to workspace "@ + id + " ("@ + p.source_type + "/"@
        + p.source_ref + ")"@
}

/// What is wrong with the parameters, the first thing that is.
pub open spec fn complaint(p: ParamsView) -> Option<Seq<char>> {
    if pieces::trimmed(p.source_type).len() == 0 {
        Some("source_type is empty"@)
    } else if pieces::trimmed(p.source_ref).len() == 0 {
        Some("source_ref is empty"@)
    } else if pieces::trimmed(p.repo_id).len() == 0 {
        Some("repo_id is empty"@)
    } else {
        None
    }
}

/// The paths of the entries.
pub open spec fn entry_paths(entries: Seq<ingest::EntryView>) -> Seq<Seq<char>> {
    Seq::new(entries.len(), |i: int| entries[i].1.local_path)
}

impl RunView {
    pub open spec fn at(self, phase: CreatePhase) -> RunView {
        RunView { phase, ..self }
    }

    /// The end, with an error.
    pub open spec fn failed(self, error: Seq<char>) -> (RunView, WorkView) {
        (self.at(CreatePhase::Done), WorkView::Finish(Err(error)))
    }

    /// What was made so far is removed before the error is reported.
    pub open spec fn given_up(self, error: Seq<char>) -> (RunView, WorkView) {
        (
            RunView { error, phase: CreatePhase::CleanUp, ..self },
            WorkView::CleanUp { workspace_id: self.made.0 },
        )
    }

    /// On to the session's title, where there is one.
    pub open spec fn to_session(self) -> (RunView, WorkView) {
        let title = pieces::trimmed(self.params.title);
        if title.len() > 0 {
            (
                self.at(CreatePhase::RenameSession),
                WorkView::RenameSession { session_id: self.made.1, title },
            )
        } else {
            self.to_branch()
        }
    }

    /// On to the branch's name, where there is one.
    pub open spec fn to_branch(self) -> (RunView, WorkView) {
        let slug = pieces::trimmed(self.params.branch_name);
        if slug.len() > 0 {
            (
                self.at(CreatePhase::RenameBranch),
                WorkView::RenameBranch {
                    workspace_id: self.made.0,
                    repo_id: self.params.repo_id,
                    slug,
                },
            )
        } else {
            self.to_attachments()
        }
    }

    /// On to the attachments, where the source lists any.
    pub open spec fn to_attachments(self) -> (RunView, WorkView) {
        if lists_attachments(self.params.source_type) && self.params.candidate_source_ref.len() > 0
            && self.params.task_anchor.len() > 0 {
            (
                self.at(CreatePhase::ListAttachments),
                WorkView::ListAttachments {
                    source_type: self.params.source_type,
                    conv_id: self.params.candidate_source_ref,
                },
            )
        } else {
            self.to_priming(self.params.plan_message)
        }
    }

    /// On to the priming message.
    pub open spec fn to_priming(self, plan: Seq<char>) -> (RunView, WorkView) {
        (
            self.at(CreatePhase::InsertPriming),
            WorkView::InsertPriming { session_id: self.made.1, plan },
        )
    }

    /// What the host may report in a phase.
    pub open spec fn accepts(self, input: InputView) -> bool {
        match self.phase {
            CreatePhase::FindExisting => input is Existing,
            CreatePhase::Prepare => input is Prepared,
            CreatePhase::Finalize => input is Finalized,
            CreatePhase::Mark => input is Marked,
            CreatePhase::CleanUp | CreatePhase::RenameSession | CreatePhase::RenameBranch =>
                input is Tried,
            CreatePhase::ListAttachments => input is Listed,
            CreatePhase::MoveAttachments => input matches InputView::Moved(m) && m.len()
                == self.entries.len(),
            CreatePhase::InsertPriming => input is Inserted,
            CreatePhase::Done => false,
        }
    }

    /// How the making of a workspace goes on.
    pub open spec fn next(self, input: InputView) -> (RunView, WorkView) {
        match (self.phase, input) {
            (CreatePhase::FindExisting, InputView::Existing(r)) => match r {
                Ok(Some(id)) => self.failed(already_mapped(self.params, id)),
                Ok(None) => (
                    self.at(CreatePhase::Prepare),
                    WorkView::Prepare { repo_id: self.params.repo_id },
                ),
                Err(e) => self.failed(e),
            },
            (CreatePhase::Prepare, InputView::Prepared(r)) => match r {
                Ok(made) => (
                    RunView { made, phase: CreatePhase::Finalize, ..self },
                    WorkView::Finalize { workspace_id: made.0 },
                ),
                Err(e) => self.failed(in_context("prepare_workspace_from_repo"@, e)),
            },
            (CreatePhase::Finalize, InputView::Finalized(r)) => match r {
                Ok(()) => (
                    self.at(CreatePhase::Mark),
                    WorkView::Mark {
                        workspace_id: self.made.0,
                        kind: priming::TRIAGE_KIND@,
                        source_type: self.params.source_type,
                        source_ref: self.params.source_ref,
                    },
                ),
                Err(e) => self.given_up(in_context("finalize_workspace_from_repo"@, e)),
            },
            (CreatePhase::CleanUp, InputView::Tried) => self.failed(self.error),
            (CreatePhase::Mark, InputView::Marked(r)) => match r {
                Ok(()) => self.to_session(),
                Err(e) => self.given_up(in_context("update workspaces.kind + triage source"@, e)),
            },
            (CreatePhase::RenameSession, InputView::Tried) => self.to_branch(),
            (CreatePhase::RenameBranch, InputView::Tried) => self.to_attachments(),
            (CreatePhase::ListAttachments, InputView::Listed(all)) => {
                let entries = entries_at(all, self.params.task_anchor);
                if entries.len() == 0 {
                    self.to_priming(self.params.plan_message)
                } else {
                    (
                        RunView { entries, phase: CreatePhase::MoveAttachments, ..self },
                        WorkView::MoveAttachments {
                            paths: entry_paths(entries),
                            workspace_id: self.made.0,
                        },
                    )
                }
            },
            (CreatePhase::MoveAttachments, InputView::Moved(moved)) => self.to_priming(
                plan_with(self.params.plan_message, self.entries, moved),
            ),
            (CreatePhase::InsertPriming, InputView::Inserted(r)) => match r {
                Ok(()) => (self.at(CreatePhase::Done), WorkView::Finish(Ok(self.made))),
                Err(e) => self.given_up(in_context("insert priming message"@, e)),
            },
            _ => (self, WorkView::Finish(Ok(self.made))),
        }
    }

    /// An upper bound on the steps still to come.
    pub open spec fn steps_left(self) -> int {
        match self.phase {
            CreatePhase::FindExisting => 10,
            CreatePhase::Prepare => 9,
            CreatePhase::Finalize => 8,
            CreatePhase::Mark => 7,
            CreatePhase::RenameSession => 6,
            CreatePhase::RenameBranch => 5,
            CreatePhase::ListAttachments => 4,
            CreatePhase::MoveAttachments => 3,
            CreatePhase::InsertPriming => 2,
            CreatePhase::CleanUp => 1,
            CreatePhase::Done => 0,
        }
    }
}

/// How the making of a workspace begins: with the first thing that is wrong with the
/// parameters, or by looking for a workspace that the source has already.
pub open spec fn begun(p: ParamsView) -> (RunView, WorkView) {
    let run = RunView {
        params: p,
        made: (seq![], seq![]),
        entries: seq![],
        error: seq![],
        phase: CreatePhase::FindExisting,
    };
    match complaint(p) {
        Some(c) => run.failed(c),
        None => (
            run,
            WorkView::FindExisting { source_type: p.source_type, source_ref: p.source_ref },
        ),
    }
}

/// The making of a workspace, and where it stands.
pub struct CreateRun {
    pub params: CreateAiWorkspaceParams,
    pub made: CreateAiWorkspaceResult,
    pub entries: Vec<AttachmentEntry>,
    pub error: String,
    pub phase: CreatePhase,
}

impl View for CreateRun {
    type V = RunView;

    open spec fn view(&self) -> RunView {
        RunView {
            params: self.params@,
            made: self.made@,
            entries: ingest::entry_views(self.entries@),
            error: self.error@,
            phase: self.phase,
        }
    }
}

fn with_context(what: &str, error: &str) -> (r: String)
    ensures
        r@ == in_context(what@, error@),
{
    let mut out = what.to_string();
    out.append(": ");
    out.append(error);
    out
}

/// Begins to make a workspace.
pub fn create_ai_workspace(params: CreateAiWorkspaceParams) -> (r: (CreateRun, CreateWork))
    ensures
        r.0@ == begun(params@).0,
        r.1.says(begun(params@).1),
{
    let problem: Option<&str> = if pieces::trim(params.source_type.as_str()).as_str().is_empty() {
        Some("source_type is empty")
    } else if pieces::trim(params.source_ref.as_str()).as_str().is_empty() {
        Some("source_ref is empty")
    } else if pieces::trim(params.repo_id.as_str()).as_str().is_empty() {
        Some("repo_id is empty")
    } else {
        None
    };
    let source_type = params.source_type.clone();
    let source_ref = params.source_ref.clone();
    let mut run = CreateRun {
        params,
        made: CreateAiWorkspaceResult {
            workspace_id: String::new(),
            session_id: String::new(),
        },
        entries: Vec::new(),
        error: String::new(),
        phase: CreatePhase::FindExisting,
    };
    assert(run@ =~= RunView {
        params: params@,
        made: (seq![], seq![]),
        entries: seq![],
        error: seq![],
        phase: CreatePhase::FindExisting,
    });
    match problem {
        Some(c) => {
            run.phase = CreatePhase::Done;
            (run, CreateWork::Finish(Err(c.to_string())))
        },
        None => (run, CreateWork::FindExisting { source_type, source_ref }),
    }
}

impl CreateRun {
    fn made_again(&self) -> (r: CreateAiWorkspaceResult)
        ensures
            r@ == self.made@,
    {
        CreateAiWorkspaceResult {
            workspace_id: self.made.workspace_id.clone(),
            session_id: self.made.session_id.clone(),
        }
    }

    fn failed(&mut self, error: String) -> (w: CreateWork)
        ensures
            final(self)@ == old(self)@.failed(error@).0,
            w.says(old(self)@.failed(error@).1),
    {
        self.phase = CreatePhase::Done;
        CreateWork::Finish(Err(error))
    }

    fn given_up(&mut self, error: String) -> (w: CreateWork)
        ensures
            final(self)@ == old(self)@.given_up(error@).0,
            w.says(old(self)@.given_up(error@).1),
    {
        self.error = error;
        self.phase = CreatePhase::CleanUp;
        CreateWork::CleanUp { workspace_id: self.made.workspace_id.clone() }
    }

    fn to_priming(&mut self, plan: &str) -> (w: CreateWork)
        ensures
            final(self)@ == old(self)@.to_priming(plan@).0,
            w.says(old(self)@.to_priming(plan@).1),
    {
        self.phase = CreatePhase::InsertPriming;
        CreateWork::InsertPriming {
            session_id: self.made.session_id.clone(),
            content: priming::priming_content(plan),
        }
    }

    fn to_attachments(&mut self) -> (w: CreateWork)
        ensures
            final(self)@ == old(self)@.to_attachments().0,
            w.says(old(self)@.to_attachments().1),
    {
        if keeps_attachment_lists(self.params.source_type.as_str())
            && !self.params.candidate_source_ref.as_str().is_empty()
            && !self.params.task_anchor.as_str().is_empty() {
            self.phase = CreatePhase::ListAttachments;
            CreateWork::ListAttachments {
                source_type: self.params.source_type.clone(),
                conv_id: self.params.candidate_source_ref.clone(),
            }
        } else {
            let plan = self.params.plan_message.clone();
            self.to_priming(plan.as_str())
        }
    }

    fn to_branch(&mut self) -> (w: CreateWork)
        ensures
            final(self)@ == old(self)@.to_branch().0,
            w.says(old(self)@.to_branch().1),
    {
        let slug = pieces::trim(self.params.branch_name.as_str());
        if !slug.as_str().is_empty() {
            self.phase = CreatePhase::RenameBranch;
            CreateWork::RenameBranch {
                workspace_id: self.made.workspace_id.clone(),
                repo_id: self.params.repo_id.clone(),
                slug,
            }
        } else {
            self.to_attachments()
        }
    }

    fn to_session(&mut self) -> (w: CreateWork)
        ensures
            final(self)@ == old(self)@.to_session().0,
            w.says(old(self)@.to_session().1),
    {
        let title = pieces::trim(self.params.title.as_str());
        if !title.as_str().is_empty() {
            self.phase = CreatePhase::RenameSession;
            CreateWork::RenameSession { session_id: self.made.session_id.clone(), title }
        } else {
            self.to_branch()
        }
    }

    fn to_moving(&mut self, all: Vec<AttachmentEntry>) -> (w: CreateWork)
        requires
            old(self)@.phase == CreatePhase::ListAttachments,
        ensures
            final(self)@ == old(self)@.next(InputView::Listed(ingest::entry_views(all@))).0,
            w.says(old(self)@.next(InputView::Listed(ingest::entry_views(all@))).1),
    {
        let entries = anchor_entries(all, self.params.task_anchor.as_str());
        let ghost views = ingest::entry_views(entries@);
        assert(views.len() == entries@.len());
        if entries.len() == 0 {
            let plan = self.params.plan_message.clone();
            return self.to_priming(plan.as_str());
        }
        let mut paths: Vec<String> = Vec::new();
        let mut i: usize = 0;
        while i < entries.len()
            invariant
                i <= entries@.len(),
                views == ingest::entry_views(entries@),
                text::texts(paths@) == entry_paths(views).take(i as int),
            decreases entries@.len() - i,
        {
            let ghost before = text::texts(paths@);
            let p = entries[i].local_path.clone();
            paths.push(p);
            assert(views[i as int].1.local_path == p@);
            assert(text::texts(paths@) =~= before.push(p@));
            i += 1;
            assert(text::texts(paths@) =~= entry_paths(views).take(i as int));
        }
        assert(text::texts(paths@) =~= entry_paths(views));
        self.entries = entries;
        self.phase = CreatePhase::MoveAttachments;
        CreateWork::MoveAttachments { paths, workspace_id: self.made.workspace_id.clone() }
    }

    /// Takes in what the host reports and says what it does next.
    pub fn step(&mut self, input: CreateInput) -> (w: CreateWork)
        requires
            old(self)@.accepts(input@),
        ensures
            final(self)@ == old(self)@.next(input@).0,
            w.says(old(self)@.next(input@).1),
    {
        match input {
            CreateInput::Existing(Ok(Some(id))) => {
                let mut e = "triage source already mapped to workspace ".to_string();
                e.append(id.as_str());
                e.append(" (");
                e.append(self.params.source_type.as_str());
                e.append("/");
                e.append(self.params.source_ref.as_str());
                e.append(")");
                self.failed(e)
            },
            CreateInput::Existing(Ok(None)) => {
                self.phase = CreatePhase::Prepare;
                CreateWork::Prepare { repo_id: self.params.repo_id.clone() }
            },
            CreateInput::Existing(Err(e)) => self.failed(e),
            CreateInput::Prepared(Ok(made)) => {
                let workspace_id = made.workspace_id.clone();
                self.made = made;
                self.phase = CreatePhase::Finalize;
                CreateWork::Finalize { workspace_id }
            },
            CreateInput::Prepared(Err(e)) => {
                let e = with_context("prepare_workspace_from_repo", e.as_str());
                self.failed(e)
            },
            CreateInput::Finalized(Ok(())) => {
                self.phase = CreatePhase::Mark;
                CreateWork::Mark {
                    workspace_id: self.made.workspace_id.clone(),
                    kind: priming::TRIAGE_KIND.to_string(),
                    source_type: self.params.source_type.clone(),
                    source_ref: self.params.source_ref.clone(),
                }
            },
            CreateInput::Finalized(Err(e)) => {
                let e = with_context("finalize_workspace_from_repo", e.as_str());
                self.given_up(e)
            },
            CreateInput::Marked(Ok(())) => self.to_session(),
            CreateInput::Marked(Err(e)) => {
                let e = with_context("update workspaces.kind + triage source", e.as_str());
                self.given_up(e)
            },
            CreateInput::Tried => match self.phase {
                CreatePhase::CleanUp => {
                    let e = self.error.clone();
                    self.failed(e)
                },
                CreatePhase::RenameSession => self.to_branch(),
                _ => self.to_attachments(),
            },
            CreateInput::Listed(all) => self.to_moving(all),
            CreateInput::Moved(moved) => {
                let plan = render_plan_with_attachments(
                    self.params.plan_message.as_str(),
                    &self.entries,
                    &moved,
                );
                self.to_priming(plan.as_str())
            },
            CreateInput::Inserted(Ok(())) => {
                self.phase = CreatePhase::Done;
                CreateWork::Finish(Ok(self.made_again()))
            },
            CreateInput::Inserted(Err(e)) => {
                let e = with_context("insert priming message", e.as_str());
                self.given_up(e)
            },
        }
    }
}

// ---------------------------------------------------------------------------
// Laws
// ---------------------------------------------------------------------------

/// The making of a workspace comes to an end, whatever the host reports, and it has ended
/// exactly when the host is told to finish.
pub proof fn law_making_ends(run: RunView, input: InputView)
    requires
        run.accepts(input),
    ensures
        0 <= run.next(input).0.steps_left() < run.steps_left(),
        run.next(input).0.phase == CreatePhase::Done <==> run.next(input).1 is Finish,
{
}

/// A source that has a workspace already gets no second one: nothing is prepared.
pub proof fn law_one_workspace_for_a_source(p: ParamsView, id: Seq<char>)
    requires
        complaint(p) is None,
    ensures
        begun(p).0.next(InputView::Existing(Ok(Some(id)))).1 == WorkView::Finish(
            Err(already_mapped(p, id)),
        ),
{
}

/// Workspace and priming message are made together or not at all: once a workspace was
/// prepared, every error has it cleaned up before it is reported, and is reported as it came.
pub proof fn law_unfinished_workspaces_are_cleaned_up(run: RunView, input: InputView)
    requires
        run.accepts(input),
    ensures
        run.next(input).1 matches WorkView::Finish(Err(_)) ==> run.phase
            == CreatePhase::FindExisting || run.phase == CreatePhase::Prepare || run.phase
            == CreatePhase::CleanUp,
        match input {
            InputView::Finalized(Err(e)) => cleaned_up_for(
                run,
                input,
                in_context("finalize_workspace_from_repo"@, e),
            ),
            InputView::Marked(Err(e)) => cleaned_up_for(
                run,
                input,
                in_context("update workspaces.kind + triage source"@, e),
            ),
            InputView::Inserted(Err(e)) => cleaned_up_for(
                run,
                input,
                in_context("insert priming message"@, e),
            ),
            _ => true,
        },
{
}

/// What the host reports has the workspace cleaned up, and then the error reported.
pub open spec fn cleaned_up_for(run: RunView, input: InputView, error: Seq<char>) -> bool {
    let (cleaning, work) = run.next(input);
    &&& work == WorkView::CleanUp { workspace_id: run.made.0 }
    &&& cleaning.next(InputView::Tried).1 == WorkView::Finish(Err(error))
}

/// A workspace is reported as made only after its priming message was stored, and it is
/// the one that was prepared.
pub proof fn law_made_means_primed(run: RunView, input: InputView)
    requires
        run.accepts(input),
        run.next(input).1 matches WorkView::Finish(Ok(_)),
    ensures
        run.phase == CreatePhase::InsertPriming,
        input matches InputView::Inserted(Ok(_)),
        run.next(input).1 == WorkView::Finish(Ok(run.made)),
{
}

/// Trouble with the title, the branch or an attachment does not fail the making of a
/// workspace.
pub proof fn law_best_effort_steps_never_fail(run: RunView, input: InputView)
    requires
        run.accepts(input),
        run.phase == CreatePhase::RenameSession || run.phase == CreatePhase::RenameBranch
            || run.phase == CreatePhase::ListAttachments || run.phase
            == CreatePhase::MoveAttachments,
    ensures
        !(run.next(input).1 is Finish),
{
}

/// The plan itself is never changed, only followed by attachments.
pub proof fn law_plan_is_kept(
    plan: Seq<char>,
    entries: Seq<ingest::EntryView>,
    moved: Seq<Option<attachments::MovedView>>,
)
    ensures
        text::begins(plan_with(plan, entries, moved), plan),
        !any_moved(moved) ==> plan_with(plan, entries, moved) == plan,
{
    assert(plan_with(plan, entries, moved).take(plan.len() as int) =~= plan);
}

/// Each step carries what was asked for and what was made: the repository, the source and its
/// reference, the title, the branch and the plan are the parameters' own, each in its place,
/// and the workspace and its session are the ones that were prepared. None of this changes
/// on the way.
pub proof fn law_steps_carry_what_was_asked(run: RunView, input: InputView)
    requires
        run.accepts(input),
    ensures
        ({
            let (after, work) = run.next(input);
            let p = run.params;
            &&& after.params == p
            &&& after.made == (match input {
                InputView::Prepared(Ok(made)) => made,
                _ => run.made,
            })
            &&& match work {
                WorkView::FindExisting { .. } => false,
                WorkView::Prepare { repo_id } => repo_id == p.repo_id,
                WorkView::Finalize { workspace_id } => input matches InputView::Prepared(Ok(made))
                    && workspace_id == made.0,
                WorkView::CleanUp { workspace_id } => workspace_id == run.made.0,
                WorkView::Mark { workspace_id, kind, source_type, source_ref } => {
                    &&& workspace_id == run.made.0
                    &&& kind == "ai_triage"@
                    &&& source_type == p.source_type
                    &&& source_ref == p.source_ref
                },
                WorkView::RenameSession { session_id, title } => session_id == run.made.1 && title
                    == pieces::trimmed(p.title),
                WorkView::RenameBranch { workspace_id, repo_id, slug } => {
                    &&& workspace_id == run.made.0
                    &&& repo_id == p.repo_id
                    &&& slug == pieces::trimmed(p.branch_name)
                },
                WorkView::ListAttachments { source_type, conv_id } => source_type == p.source_type
                    && conv_id == p.candidate_source_ref,
                WorkView::MoveAttachments { workspace_id, .. } => workspace_id == run.made.0,
                WorkView::InsertPriming { session_id, plan } => {
                    &&& session_id == run.made.1
                    &&& text::begins(plan, p.plan_message)
                    &&& !(input is Moved) ==> plan == p.plan_message
                },
                WorkView::Finish(Ok(made)) => made == run.made,
                WorkView::Finish(Err(_)) => true,
            }
        }),
{
    match input {
        InputView::Moved(moved) => {
            law_plan_is_kept(run.params.plan_message, run.entries, moved);
        },
        _ => {},
    }
    assert(text::begins(run.params.plan_message, run.params.plan_message)) by {
        assert(run.params.plan_message.take(run.params.plan_message.len() as int)
            =~= run.params.plan_message);
    }
}

/// No step is left out: a session gets its title and a branch its name wherever these say
/// anything, attachments are looked up wherever the source lists them, and every workspace
/// that is marked comes to its priming message.
pub proof fn law_no_step_is_left_out(run: RunView, input: InputView)
    requires
        run.accepts(input),
    ensures
        ({
            let after = run.next(input).0.phase;
            let p = run.params;
            let lists = (p.source_type == "slack"@ || p.source_type == "lark"@)
                && p.candidate_source_ref.len() > 0 && p.task_anchor.len() > 0;
            let then_attachments = if lists {
                CreatePhase::ListAttachments
            } else {
                CreatePhase::InsertPriming
            };
            let then_branch = if pieces::says_something(p.branch_name) {
                CreatePhase::RenameBranch
            } else {
                then_attachments
            };
            match (run.phase, input) {
                (CreatePhase::FindExisting, InputView::Existing(Ok(None))) => after
                    == CreatePhase::Prepare,
                (CreatePhase::Prepare, InputView::Prepared(Ok(_))) => after
                    == CreatePhase::Finalize,
                (CreatePhase::Finalize, InputView::Finalized(Ok(_))) => after == CreatePhase::Mark,
                (CreatePhase::Mark, InputView::Marked(Ok(_))) => after == if pieces::says_something(
                    p.title,
                ) {
                    CreatePhase::RenameSession
                } else {
                    then_branch
                },
                (CreatePhase::RenameSession, _) => after == then_branch,
                (CreatePhase::RenameBranch, _) => after == then_attachments,
                (CreatePhase::ListAttachments, InputView::Listed(all)) => after == if exists|
                    i: int,
                |
                    0 <= i < all.len() && (#[trigger] all[i]).0 == p.task_anchor {
                    CreatePhase::MoveAttachments
                } else {
                    CreatePhase::InsertPriming
                },
                (CreatePhase::MoveAttachments, _) => after == CreatePhase::InsertPriming,
                (CreatePhase::InsertPriming, InputView::Inserted(Ok(_))) => after
                    == CreatePhase::Done,
                (CreatePhase::CleanUp, _) => after == CreatePhase::Done,
                (CreatePhase::FindExisting, _) => after == CreatePhase::Done,
                (CreatePhase::Prepare, _) => after == CreatePhase::Done,
                _ => after == CreatePhase::CleanUp,
            }
        }),
{
    pieces::law_trimming_takes_only_white_space(run.params.title);
    pieces::law_trimming_takes_only_white_space(run.params.branch_name);
    match input {
        InputView::Listed(all) => {
            law_anchor_has_its_own_entries(all, run.params.task_anchor);
            let mine = entries_at(all, run.params.task_anchor);
            if mine.len() > 0 {
                assert(all.contains(mine[0]));
                let i = choose|i: int| 0 <= i < all.len() && all[i] == mine[0];
                assert(all[i].0 == run.params.task_anchor);
            }
        },
        _ => {},
    }
}

/// A workspace takes the files of its own message: those of the list that belong to the
/// anchor, all of them and no others, from the paths that the list gives.
pub proof fn law_anchor_has_its_own_entries(entries: Seq<ingest::EntryView>, anchor: Seq<char>)
    ensures
        forall|i: int|
            0 <= i < entries.len() && (#[trigger] entries[i]).0 == anchor ==> entries_at(
                entries,
                anchor,
            ).contains(entries[i]),
        forall|k: int|
            0 <= k < entries_at(entries, anchor).len() ==> (#[trigger] entries_at(
                entries,
                anchor,
            )[k]).0 == anchor && entries.contains(entries_at(entries, anchor)[k]),
        entry_paths(entries).len() == entries.len(),
        forall|k: int|
            0 <= k < entries.len() ==> #[trigger] entry_paths(entries)[k]
                == entries[k].1.local_path,
    decreases entries.len(),
{
    if entries.len() > 0 {
        let front = entries.drop_last();
        let n = entries.len() - 1;
        law_anchor_has_its_own_entries(front, anchor);
        let before = entries_at(front, anchor);
        let out = entries_at(entries, anchor);
        assert(entries[n] == entries.last());
        assert forall|i: int| 0 <= i < entries.len() && (#[trigger] entries[i]).0
            == anchor implies out.contains(entries[i]) by {
            if i < n {
                assert(front[i] == entries[i]);
                let k = choose|k: int| 0 <= k < before.len() && before[k] == entries[i];
                assert(out[k] == entries[i]);
            } else {
                assert(out[out.len() - 1] == entries[n]);
            }
        }
        assert forall|k: int| 0 <= k < out.len() implies (#[trigger] out[k]).0 == anchor
            && entries.contains(out[k]) by {
            if k < before.len() {
                assert(out[k] == before[k]);
                let i = choose|i: int| 0 <= i < front.len() && front[i] == before[k];
                assert(entries[i] == out[k]);
            } else {
                assert(entries[n] == out[k]);
            }
        }
    }
}

/// Every file that was moved has its line behind the plan: shown by its address, under what
/// it is called or else its name, with the path by which it is read. A file that was not
/// moved has none.
pub proof fn law_moved_files_are_shown(
    entries: Seq<ingest::EntryView>,
    moved: Seq<Option<attachments::MovedView>>,
    e: ingest::EntryView,
    m: attachments::MovedView,
)
    requires
        entries.len() == moved.len(),
    ensures
        attachment_lines(entries.push(e), moved.push(Some(m))) == attachment_lines(entries, moved)
            + "- !["@ + (match e.1.alt {
            Some(a) => a,
            None => m.filename,
        }) + "]("@ + m.url + ") — `"@ + m.absolute_path + "`\n"@,
        attachment_lines(entries.push(e), moved.push(None)) == attachment_lines(entries, moved),
        forall|plan: Seq<char>| #[trigger]
            plan_with(plan, entries.push(e), moved.push(Some(m))) == plan
                + "\n\n## Attachments\n"@ + attachment_lines(entries.push(e), moved.push(Some(m))),
{
    assert(entries.push(e).drop_last() =~= entries);
    assert(moved.push(Some(m)).drop_last() =~= moved);
    assert(moved.push(None).drop_last() =~= moved);
    assert(attachment_lines(entries.push(e), moved.push(Some(m))) =~= attachment_lines(
        entries,
        moved,
    ) + attachment_line(e, m));
    assert(moved.push(Some(m))[moved.len() as int] is Some);
}

/// Nothing is made without a source, a reference and a repository that say something; else
/// the making begins by asking whether this very source has a workspace.
pub proof fn law_parameters_must_say_something(p: ParamsView)
    ensures
        ({
            let (run, work) = begun(p);
            let good = pieces::says_something(p.source_type) && pieces::says_something(p.source_ref)
                && pieces::says_something(p.repo_id);
            &&& run.params == p
            &&& good ==> run.phase == CreatePhase::FindExisting && work == WorkView::FindExisting {
                source_type: p.source_type,
                source_ref: p.source_ref,
            }
            &&& !good ==> run.phase == CreatePhase::Done && (work matches WorkView::Finish(r)
                && r is Err)
        }),
{
    pieces::law_trimming_takes_only_white_space(p.source_type);
    pieces::law_trimming_takes_only_white_space(p.source_ref);
    pieces::law_trimming_takes_only_white_space(p.repo_id);
}

/// What stops the making of a workspace is reported: the first parameter that says nothing,
/// the workspace that the source has already, and each step that failed, with its error
/// behind it. What was made by then is removed first.
pub proof fn law_failures_are_reported(run: RunView, id: Seq<char>, e: Seq<char>)
    ensures
        ({
            let p = run.params;
            let mapped = run.at(CreatePhase::FindExisting).next(InputView::Existing(Ok(Some(id))));
            let unmade = run.at(CreatePhase::Prepare).next(InputView::Prepared(Err(e)));
            let unfinished = run.at(CreatePhase::Finalize).next(InputView::Finalized(Err(e)));
            let unmarked = run.at(CreatePhase::Mark).next(InputView::Marked(Err(e)));
            let unprimed = run.at(CreatePhase::InsertPriming).next(InputView::Inserted(Err(e)));
            &&& mapped.1 == WorkView::Finish(
                Err(
                    "triage source already mapped to workspace "@ + id + " ("@ + p.source_type
                        + "/"@ + p.source_ref + ")"@,
                ),
            )
            &&& unmade.1 == WorkView::Finish(Err("prepare_workspace_from_repo"@ + ": "@ + e))
            &&& unfinished.1 == WorkView::CleanUp { workspace_id: run.made.0 }
            &&& unmarked.1 == WorkView::CleanUp { workspace_id: run.made.0 }
            &&& unprimed.1 == WorkView::CleanUp { workspace_id: run.made.0 }
            &&& unfinished.0.next(InputView::Tried).1 == WorkView::Finish(
                Err("finalize_workspace_from_repo"@ + ": "@ + e),
            )
            &&& unmarked.0.next(InputView::Tried).1 == WorkView::Finish(
                Err("update workspaces.kind + triage source"@ + ": "@ + e),
            )
            &&& unprimed.0.next(InputView::Tried).1 == WorkView::Finish(
                Err("insert priming message"@ + ": "@ + e),
            )
            &&& !pieces::says_something(p.source_type) ==> begun(p).1 == WorkView::Finish(
                Err("source_type is empty"@),
            )
            &&& pieces::says_something(p.source_type) && !pieces::says_something(p.source_ref)
                ==> begun(p).1 == WorkView::Finish(Err("source_ref is empty"@))
            &&& pieces::says_something(p.source_type) && pieces::says_something(p.source_ref)
                && !pieces::says_something(p.repo_id) ==> begun(p).1 == WorkView::Finish(
                Err("repo_id is empty"@),
            )
        }),
{
    pieces::law_trimming_takes_only_white_space(run.params.source_type);
    pieces::law_trimming_takes_only_white_space(run.params.source_ref);
    pieces::law_trimming_takes_only_white_space(run.params.repo_id);
}

} // verus!
