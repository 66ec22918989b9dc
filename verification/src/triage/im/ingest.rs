//! From fetched messages to a candidate: the window is merged and trimmed, the file is
//! written, and a decided candidate wakes up when something new came in.
use vstd::prelude::*;
use crate::numbers;
use crate::order;
use crate::pieces;
use crate::text;
use crate::time;
use crate::time::Timestamp;
use crate::triage::cache;
use crate::triage::fetcher;
use crate::triage::fetcher::{FetchSummary, Fetcher};
use crate::triage::im::payload;
use crate::triage::im::payload::{parse_chat_payload, render_chat_payload, ImBackend, MessageMap};
use crate::triage::im::types;
use crate::triage::im::types::{ImConversation, ImMessage};
use crate::triage::im::window;
use crate::triage::storage;
use crate::triage::storage::{CandidateRow, FetchCursor, NewCandidate, UpsertOutcome};

verus! {

/// Conversations looked at in one fetch.
pub const MAX_CONVERSATIONS_PER_TICK: usize = 30;

/// Messages asked for of one conversation.
pub const MAX_MESSAGES_PER_CONVERSATION: usize = 50;

/// Hours that a fetch looks back behind the cursor.
pub const OVERLAP_HOURS: i64 = 6;

/// Senders named in a candidate.
pub const RECENT_PARTICIPANT_LIMIT: usize = 3;

/// Characters of a candidate's preview.
pub const PREVIEW_CHARS: usize = 400;

/// Characters of a candidate's title.
pub const TITLE_CHARS: usize = 120;

// ---------------------------------------------------------------------------
// Where to begin
// ---------------------------------------------------------------------------

/// The instant from which messages are asked for: some hours behind the cursor, or some
/// days back where there is none that can be read.
pub open spec fn since_of(last: Option<Seq<char>>, now: Timestamp) -> Timestamp {
    let parsed = match last {
        Some(s) => time::instant_of(s),
        None => None,
    };
    match parsed {
        Some(t) => t.earlier_by((OVERLAP_HOURS * time::HOUR) as i64),
        None => now.earlier_by((fetcher::COLD_START_DAYS * time::DAY) as i64),
    }
}

/// The instant from which messages are asked for.
pub fn effective_since(last_source_time: Option<&str>, now: Timestamp) -> (r: Option<Timestamp>)
    requires
        now.wf(),
        time::MIN_SECS <= now.secs - fetcher::COLD_START_DAYS * time::DAY,
    ensures
        r == Some(since_of(text::opt_str(last_source_time), now)),
        r matches Some(t) ==> t.wf(),
{
    let parsed = match last_source_time {
        Some(s) => time::parse_rfc3339(s),
        None => None,
    };
    match parsed {
        Some(t) => Some(t.before(OVERLAP_HOURS * time::HOUR)),
        None => Some(now.before(fetcher::COLD_START_DAYS * time::DAY)),
    }
}

// ---------------------------------------------------------------------------
// Paths
// ---------------------------------------------------------------------------

/// The path of a conversation's file below the cache root.
pub open spec fn payload_path_of(source: Seq<char>, conv_id: Seq<char>) -> Seq<char> {
    cache::segment_of(source) + "/"@ + cache::segment_of(conv_id) + ".md"@
}

/// The path of the list of a conversation's attachments.
pub open spec fn sidecar_path_of(source: Seq<char>, conv_id: Seq<char>) -> Seq<char> {
    cache::segment_of(source) + "/"@ + cache::segment_of(conv_id) + ".attachments.json"@
}

/// The path of a conversation's file below the cache root.
pub fn build_payload_path(source: &str, conv_id: &str) -> (r: String)
    ensures
        r@ == payload_path_of(source@, conv_id@),
{
    let mut out = cache::safe_segment(source);
    out.append("/");
    out.append(cache::safe_segment(conv_id).as_str());
    out.append(".md");
    out
}

/// The path of the list of a conversation's attachments.
pub fn build_attachments_sidecar_path(source: &str, conv_id: &str) -> (r: String)
    ensures
        r@ == sidecar_path_of(source@, conv_id@),
{
    let mut out = cache::safe_segment(source);
    out.append("/");
    out.append(cache::safe_segment(conv_id).as_str());
    out.append(".attachments.json");
    out
}

// ---------------------------------------------------------------------------
// Summary
// ---------------------------------------------------------------------------

/// A text cut to so many characters, with an ellipsis where something was cut.
pub open spec fn truncated(s: Seq<char>, max: nat) -> Seq<char> {
    if s.len() <= max {
        s
    } else {
        s.take(max as int).push('…')
    }
}

/// A text cut to so many characters.
pub fn truncate(s: &str, max: usize) -> (r: String)
    ensures
        r@ == truncated(s@, max as nat),
{
    let v = text::chars_of(s);
    if v.len() <= max {
        return s.to_string();
    }
    let mut out = text::string_between(&v, 0, max);
    out.push('…');
    assert(out@ =~= s@.take(max as int).push('…'));
    out
}

/// The title of a conversation's candidate.
pub open spec fn title_of(conv: types::ConvView, count: nat) -> Seq<char> {
    truncated(
        conv.shown() + " · "@ + numbers::decimal(count) + " message"@ + (if count == 1 {
            seq![]
        } else {
            "s"@
        }),
        TITLE_CHARS as nat,
    )
}

/// A message in a preview.
pub open spec fn preview_line(m: types::MessageView) -> Seq<char> {
    (match m.sender {
        Some(s) => s,
        None => "?"@,
    }) + ": "@ + pieces::replaced(m.text, "\n"@, " "@) + " | "@
}

/// The messages one after the other behind `shown`, until there is enough.
pub open spec fn preview_lines(shown: Seq<char>, msgs: Seq<types::MessageView>) -> Seq<char>
    decreases msgs.len(),
{
    if msgs.len() == 0 {
        shown
    } else {
        let more = shown + preview_line(msgs[0]);
        if more.len() >= PREVIEW_CHARS {
            more
        } else {
            preview_lines(more, msgs.drop_first())
        }
    }
}

/// The last three messages.
pub open spec fn last_three(msgs: Seq<types::MessageView>) -> Seq<types::MessageView> {
    if msgs.len() > 3 {
        msgs.skip(msgs.len() - 3)
    } else {
        msgs
    }
}

/// The preview of a conversation's candidate.
pub open spec fn preview_of(msgs: Seq<types::MessageView>) -> Seq<char> {
    truncated(
        pieces::without_suffixes(preview_lines(seq![], last_three(msgs)), " | "@),
        PREVIEW_CHARS as nat,
    )
}

/// The latest senders behind those already named, newest first, none twice, until there
/// are enough.
pub open spec fn senders_of(msgs: Seq<types::MessageView>, named: Seq<Seq<char>>) -> Seq<Seq<char>>
    decreases msgs.len(),
{
    if msgs.len() == 0 || named.len() >= RECENT_PARTICIPANT_LIMIT {
        named
    } else {
        match msgs.last().sender {
            Some(s) => if named.contains(s) {
                senders_of(msgs.drop_last(), named)
            } else {
                senders_of(msgs.drop_last(), named.push(s))
            },
            None => senders_of(msgs.drop_last(), named),
        }
    }
}

/// The senders of a conversation's candidate.
pub open spec fn sender_line(msgs: Seq<types::MessageView>) -> Option<Seq<char>> {
    let names = senders_of(msgs, seq![]);
    if names.len() == 0 {
        None
    } else {
        Some(pieces::joined(names, ", "@))
    }
}

fn preview_text(messages: &Vec<ImMessage>) -> (r: String)
    ensures
        r@ == preview_of(types::message_views(messages@)),
{
    let ghost all = types::message_views(messages@);
    let start: usize = if messages.len() > 3 {
        messages.len() - 3
    } else {
        0
    };
    let mut shown = String::new();
    let mut i: usize = start;
    let mut enough = false;
    assert(all.skip(start as int) =~= last_three(all));
    while i < messages.len() && !enough
        invariant
            start <= i <= messages@.len(),
            all == types::message_views(messages@),
            enough ==> preview_lines(seq![], last_three(all)) == shown@,
            !enough ==> preview_lines(seq![], last_three(all)) == preview_lines(
                shown@,
                all.skip(i as int),
            ),
        decreases messages@.len() - i,
    {
        let m = &messages[i];
        proof {
            reveal_strlit("\n");
        }
        let body = pieces::replace(m.text.as_str(), "\n", " ");
        let ghost before = shown@;
        match &m.sender {
            Some(s) => {
                shown.append(s.as_str());
            },
            None => {
                shown.append("?");
            },
        }
        shown.append(": ");
        shown.append(body.as_str());
        shown.append(" | ");
        proof {
            assert(all.skip(i as int)[0] == m@);
            assert(all.skip(i as int).drop_first() =~= all.skip(i + 1));
            assert(shown@ =~= before + preview_line(m@));
        }
        if shown.as_str().unicode_len() >= PREVIEW_CHARS {
            enough = true;
        }
        i += 1;
    }
    let trimmed = pieces::strip_suffixes(shown.as_str(), " | ");
    truncate(trimmed.as_str(), PREVIEW_CHARS)
}

fn sender_text(messages: &Vec<ImMessage>) -> (r: Option<String>)
    ensures
        text::opt_text(r) == sender_line(types::message_views(messages@)),
{
    let ghost all = types::message_views(messages@);
    let mut names: Vec<String> = Vec::new();
    let mut i: usize = messages.len();
    assert(all.take(i as int) =~= all);
    assert(text::texts(names@) =~= seq![]);
    while i > 0 && names.len() < RECENT_PARTICIPANT_LIMIT
        invariant
            i <= messages@.len(),
            all == types::message_views(messages@),
            senders_of(all, seq![]) == senders_of(all.take(i as int), text::texts(names@)),
        decreases i,
    {
        let m = &messages[i - 1];
        assert(all.take(i as int).last() == m@);
        assert(all.take(i as int).drop_last() =~= all.take(i - 1));
        match &m.sender {
            Some(s) => {
                if !text::is_among(s.as_str(), &names) {
                    let ghost before = text::texts(names@);
                    names.push(s.clone());
                    assert(text::texts(names@) =~= before.push(s@));
                }
            },
            None => {},
        }
        i -= 1;
    }
    assert(text::texts(names@) == senders_of(all, seq![]));
    if names.len() == 0 {
        None
    } else {
        Some(pieces::join(&names, ", "))
    }
}

/// Title, preview and senders of a conversation's candidate.
pub fn build_candidate_summary(conv: &ImConversation, messages: &Vec<ImMessage>) -> (r: (
    String,
    String,
    Option<String>,
))
    ensures
        r.0@ == title_of(conv@, messages@.len()),
        r.1@ == preview_of(types::message_views(messages@)),
        text::opt_text(r.2) == sender_line(types::message_views(messages@)),
{
    let mut title = conv.shown_label().to_string();
    title.append(" · ");
    numbers::push_decimal(&mut title, messages.len() as u64);
    title.append(" message");
    if messages.len() != 1 {
        title.append("s");
    }
    let ghost plain = conv@.shown() + " · "@ + numbers::decimal(messages@.len()) + " message"@ + (
    if messages@.len() == 1 {
        seq![]
    } else {
        "s"@
    });
    assert(title@ =~= plain);
    (truncate(title.as_str(), TITLE_CHARS), preview_text(messages), sender_text(messages))
}

// ---------------------------------------------------------------------------
// Attachments
// ---------------------------------------------------------------------------

/// An attachment in the list beside a conversation's file.
pub struct AttachmentEntry {
    pub message_id: String,
    pub filename: String,
    pub local_path: String,
    pub mime_type: Option<String>,
    pub bytes: u64,
    pub alt: Option<String>,
}

/// What an entry says: the message's id and the attachment.
pub type EntryView = (Seq<char>, types::AttachmentView);

impl View for AttachmentEntry {
    type V = EntryView;

    open spec fn view(&self) -> EntryView {
        (
            self.message_id@,
            types::AttachmentView {
                filename: self.filename@,
                local_path: self.local_path@,
                mime_type: text::opt_text(self.mime_type),
                bytes: self.bytes,
                alt: text::opt_text(self.alt),
            },
        )
    }
}

/// What the entries of a list say.
pub open spec fn entry_views(v: Seq<AttachmentEntry>) -> Seq<EntryView> {
    Seq::new(v.len(), |i: int| v[i]@)
}

/// The entries of one message.
pub open spec fn entries_of_message(m: types::MessageView) -> Seq<EntryView> {
    Seq::new(m.attachments.len(), |i: int| (m.id, m.attachments[i]))
}

/// The entries of the messages, in their order.
pub open spec fn entries_of(msgs: Seq<types::MessageView>) -> Seq<EntryView>
    decreases msgs.len(),
{
    if msgs.len() == 0 {
        seq![]
    } else {
        entries_of(msgs.drop_last()) + entries_of_message(msgs.last())
    }
}

/// The list of the messages' attachments.
pub fn attachment_entries(messages: &Vec<ImMessage>) -> (r: Vec<AttachmentEntry>)
    ensures
        entry_views(r@) == entries_of(types::message_views(messages@)),
{
    let ghost all = types::message_views(messages@);
    let mut out: Vec<AttachmentEntry> = Vec::new();
    let mut i: usize = 0;
    assert(entry_views(out@) =~= entries_of(all.take(0)));
    while i < messages.len()
        invariant
            i <= messages@.len(),
            all == types::message_views(messages@),
            entry_views(out@) == entries_of(all.take(i as int)),
        decreases messages@.len() - i,
    {
        let m = &messages[i];
        let ghost before = entry_views(out@);
        let ghost mine = entries_of_message(m@);
        let mut k: usize = 0;
        assert(entry_views(out@) =~= before + mine.take(0));
        while k < m.attachments.len()
            invariant
                k <= m.attachments@.len(),
                mine == entries_of_message(m@),
                entry_views(out@) == before + mine.take(k as int),
            decreases m.attachments@.len() - k,
        {
            let a = &m.attachments[k];
            let e = AttachmentEntry {
                message_id: m.id.clone(),
                filename: a.filename.clone(),
                local_path: a.local_path.clone(),
                mime_type: text::copy_opt(&a.mime_type),
                bytes: a.bytes,
                alt: text::copy_opt(&a.alt),
            };
            assert(mine[k as int] == e@);
            let ghost shown = entry_views(out@);
            out.push(e);
            assert(entry_views(out@) =~= shown.push(e@));
            k += 1;
            assert(entry_views(out@) =~= before + mine.take(k as int));
        }
        assert(mine.take(k as int) =~= mine);
        assert(all.take(i + 1).drop_last() =~= all.take(i as int));
        assert(all.take(i + 1).last() == m@);
        i += 1;
    }
    assert(all.take(i as int) =~= all);
    out
}

/// The names of the files that the entries need.
pub fn kept_filenames(entries: &Vec<AttachmentEntry>) -> (r: Vec<String>)
    ensures
        r@.len() == entries@.len(),
        forall|i: int| 0 <= i < r@.len() ==> (#[trigger] r@[i])@ == entries@[i].filename@,
{
    let mut out: Vec<String> = Vec::new();
    let mut i: usize = 0;
    while i < entries.len()
        invariant
            i <= entries@.len(),
            out@.len() == i,
            forall|k: int| 0 <= k < i ==> (#[trigger] out@[k])@ == entries@[k].filename@,
        decreases entries@.len() - i,
    {
        out.push(entries[i].filename.clone());
        i += 1;
    }
    out
}

// ---------------------------------------------------------------------------
// Ingesting a conversation
// ---------------------------------------------------------------------------

/// The messages of the file that was written before, where there is one that can be read.
pub open spec fn existing_of(
    row: Option<storage::RowView>,
    file: Option<Seq<char>>,
) -> Map<Seq<char>, types::MessageView> {
    match (row, file) {
        (Some(_), Some(raw)) => payload::parsed_payload(raw),
        _ => Map::empty(),
    }
}

/// The messages of the file that was written before.
fn load_existing_messages(row: &Option<CandidateRow>, file: &Option<String>) -> (r: MessageMap)
    ensures
        r.wf(),
        r@ == existing_of(storage::opt_row(*row), text::opt_text(*file)),
{
    match (row, file) {
        (Some(_), Some(raw)) => parse_chat_payload(raw.as_str()),
        _ => MessageMap::new(),
    }
}

/// The id of a conversation's candidate.
pub open spec fn candidate_id_of(source: Seq<char>, conv_id: Seq<char>) -> Seq<char> {
    source + ":"@ + conv_id
}

/// The id of a conversation's candidate.
pub fn candidate_id(source: &str, conv_id: &str) -> (r: String)
    ensures
        r@ == candidate_id_of(source@, conv_id@),
{
    let mut out = source.to_string();
    out.append(":");
    out.append(conv_id);
    out
}

/// What the host does for a conversation that has something to keep.
pub struct IngestPlan {
    /// The conversation's file.
    pub payload_path: String,
    pub payload: String,
    /// The list of attachments; an empty one is deleted.
    pub sidecar_path: String,
    pub sidecar: Vec<AttachmentEntry>,
    /// The candidate to write.
    pub candidate: NewCandidate,
    /// The candidate was decided and something new came in: it is opened again first.
    pub reset_decision: bool,
    /// How far the conversation was fetched.
    pub cursor: FetchCursor,
}

/// The candidate of a window that is not empty.
pub open spec fn candidate_of(
    source: Seq<char>,
    conv: types::ConvView,
    w: Seq<types::MessageView>,
    payload_bytes: u64,
) -> storage::NewCandidateView {
    storage::NewCandidateView {
        id: candidate_id_of(source, conv.id),
        source,
        source_kind: types::source_kind_of(conv.kind),
        source_ref: conv.id,
        source_time: w.last().timestamp,
        sender: sender_line(w),
        title: Some(title_of(conv, w.len())),
        preview: if preview_of(w).len() == 0 {
            None
        } else {
            Some(preview_of(w))
        },
        external_url: None,
        payload_path: payload_path_of(source, conv.id),
        payload_bytes,
    }
}

/// What is done for a conversation whose window is `w`.
pub open spec fn plan_is<B: ImBackend>(
    p: IngestPlan,
    backend: &B,
    conv: types::ConvView,
    w: Seq<types::MessageView>,
    anchors: Seq<Seq<char>>,
    reset: bool,
) -> bool {
    &&& p.payload_path@ == payload_path_of(backend.name(), conv.id)
    &&& p.payload@ == payload::payload_of(backend, conv, w, anchors)
    &&& p.sidecar_path@ == sidecar_path_of(backend.name(), conv.id)
    &&& entry_views(p.sidecar@) == entries_of(w)
    &&& p.candidate@ == candidate_of(
        backend.name(),
        conv,
        w,
        order::byte_len(p.payload@) as u64,
    )
    &&& p.reset_decision == reset
    &&& text::opt_text(p.cursor.last_source_time) == Some(time::stamp_of(w.last().timestamp))
}

/// The window that a conversation's file is to hold.
pub struct Window {
    /// Its messages, the oldest first.
    pub messages: Vec<ImMessage>,
    /// Whether something came in that the file did not hold.
    pub new_activity: bool,
}

impl Window {
    /// There are messages, and their times are valid.
    pub open spec fn wf(&self) -> bool {
        &&& self.messages@.len() > 0
        &&& forall|i: int|
            0 <= i < self.messages@.len() ==> (#[trigger] self.messages@[i]).timestamp.wf()
    }
}

/// The messages that were kept and fetched, merged and trimmed.
pub open spec fn gathered<B: ImBackend>(
    backend: &B,
    conv: types::ConvView,
    existing: Map<Seq<char>, types::MessageView>,
    fresh: Seq<types::MessageView>,
    now: Timestamp,
) -> Seq<types::MessageView> {
    window::window_of(
        backend,
        conv,
        window::ordered_of(window::merged(existing, fresh)),
        now.earlier_by((payload::WINDOW_DAYS * time::DAY) as i64),
    )
}

/// The window of a conversation with the messages that were fetched, or none where no
/// message is left.
pub fn gather_window<B: ImBackend>(
    backend: &B,
    conv: &ImConversation,
    existing_row: &Option<CandidateRow>,
    existing_file: &Option<String>,
    new_messages: Vec<ImMessage>,
    now: Timestamp,
) -> (r: Option<Window>)
    requires
        now.wf(),
        time::MIN_SECS <= now.secs - payload::WINDOW_DAYS * time::DAY,
        forall|i: int|
            0 <= i < new_messages@.len() ==> (#[trigger] new_messages@[i]).timestamp.wf(),
    ensures
        ({
            let existing = existing_of(
                storage::opt_row(*existing_row),
                text::opt_text(*existing_file),
            );
            let fresh = types::message_views(new_messages@);
            let w = gathered(backend, conv@, existing, fresh, now);
            match r {
                None => w.len() == 0,
                Some(x) => {
                    &&& x.wf()
                    &&& types::message_views(x.messages@) == w
                    &&& x.new_activity == window::new_activity(existing, fresh)
                },
            }
        }),
{
    let mut map = load_existing_messages(existing_row, existing_file);
    let new_activity = window::merge_messages(&mut map, new_messages);
    let sorted = window::in_order(map);
    let messages = window::trim_window(sorted, backend, conv, now);
    if messages.len() == 0 {
        return None;
    }
    Some(Window { messages, new_activity })
}

/// What is done for a conversation whose window is not empty. A decided candidate is opened
/// again where something new came in.
pub fn plan_window<B: ImBackend>(
    backend: &B,
    conv: &ImConversation,
    existing_row: &Option<CandidateRow>,
    window: &Window,
    proposed_anchors: &Vec<String>,
) -> (p: IngestPlan)
    requires
        window.wf(),
    ensures
        plan_is(
            p,
            backend,
            conv@,
            types::message_views(window.messages@),
            text::texts(proposed_anchors@),
            (existing_row matches Some(row) && row.decision is Some) && window.new_activity,
        ),
{
    let source = backend.source();
    let kept = &window.messages;
    let ghost w = types::message_views(kept@);
    let newest = kept[kept.len() - 1].timestamp;
    assert(w.last().timestamp == newest);
    let file = render_chat_payload(backend, conv, kept, proposed_anchors);
    let sidecar = attachment_entries(kept);
    let (title, preview, sender) = build_candidate_summary(conv, kept);
    let was_decided = match existing_row {
        Some(row) => row.decision.is_some(),
        None => false,
    };
    let payload_bytes: u64 = order::bytes_in(file.as_str()) as u64;
    let candidate = NewCandidate {
        id: candidate_id(source.as_str(), conv.id.as_str()),
        source: source.clone(),
        source_kind: conv.kind.as_source_kind().to_string(),
        source_ref: conv.id.clone(),
        source_time: newest,
        sender,
        title: Some(title),
        preview: if preview.as_str().is_empty() {
            None
        } else {
            Some(preview)
        },
        external_url: None,
        payload_path: build_payload_path(source.as_str(), conv.id.as_str()),
        payload_bytes,
    };
    let plan = IngestPlan {
        payload_path: build_payload_path(source.as_str(), conv.id.as_str()),
        payload: file,
        sidecar_path: build_attachments_sidecar_path(source.as_str(), conv.id.as_str()),
        sidecar,
        candidate,
        reset_decision: was_decided && window.new_activity,
        cursor: FetchCursor { last_source_time: Some(time::format_rfc3339(newest)) },
    };
    assert(plan.candidate@ =~= candidate_of(
        backend.name(),
        conv@,
        w,
        order::byte_len(plan.payload@) as u64,
    ));
    plan
}

/// What is done for a conversation with the messages that were fetched. Nothing where no
/// message is left; then not even the cursor moves.
pub fn plan_ingest<B: ImBackend>(
    backend: &B,
    conv: &ImConversation,
    existing_row: &Option<CandidateRow>,
    existing_file: &Option<String>,
    new_messages: Vec<ImMessage>,
    proposed_anchors: &Vec<String>,
    now: Timestamp,
) -> (r: Option<IngestPlan>)
    requires
        now.wf(),
        time::MIN_SECS <= now.secs - payload::WINDOW_DAYS * time::DAY,
        forall|i: int|
            0 <= i < new_messages@.len() ==> (#[trigger] new_messages@[i]).timestamp.wf(),
    ensures
        ({
            let existing = existing_of(
                storage::opt_row(*existing_row),
                text::opt_text(*existing_file),
            );
            let fresh = types::message_views(new_messages@);
            let w = gathered(backend, conv@, existing, fresh, now);
            let decided = existing_row matches Some(row) && row.decision is Some;
            match r {
                None => w.len() == 0,
                Some(p) => w.len() > 0 && plan_is(
                    p,
                    backend,
                    conv@,
                    w,
                    text::texts(proposed_anchors@),
                    decided && window::new_activity(existing, fresh),
                ),
            }
        }),
{
    match gather_window(backend, conv, existing_row, existing_file, new_messages, now) {
        Some(window) => Some(plan_window(backend, conv, existing_row, &window, proposed_anchors)),
        None => None,
    }
}

/// Counts an ingested conversation: opening a decided candidate again counts as an
/// update, and so does the write that follows.
pub fn count_ingest(summary: &mut FetchSummary, was_reset: bool, outcome: UpsertOutcome)
    requires
        old(summary).inserted < usize::MAX,
        old(summary).updated < usize::MAX - 1,
        old(summary).skipped_decided < usize::MAX,
    ensures
        *final(summary) == (if was_reset {
            FetchSummary { updated: (old(summary).updated + 1) as usize, ..*old(summary) }
        } else {
            *old(summary)
        }).counted(outcome),
{
    if was_reset {
        summary.updated = summary.updated + 1;
    }
    summary.count(outcome);
}

/// The conversations that a fetch looks at: the first of those that were found.
pub fn conversations_to_scan(found: Vec<ImConversation>) -> (r: Vec<ImConversation>)
    ensures
        r@ == (if found@.len() > MAX_CONVERSATIONS_PER_TICK {
            found@.take(MAX_CONVERSATIONS_PER_TICK as int)
        } else {
            found@
        }),
{
    let mut found = found;
    if found.len() > MAX_CONVERSATIONS_PER_TICK {
        found.truncate(MAX_CONVERSATIONS_PER_TICK);
    }
    found
}

/// The fetcher of one messenger.
pub struct ImFetcher<B: ImBackend>(pub B);

impl<B: ImBackend> Fetcher for ImFetcher<B> {
    open spec fn source_id(&self) -> Seq<char> {
        self.0.name()
    }

    fn source(&self) -> (r: String) {
        self.0.source()
    }
}

// ---------------------------------------------------------------------------
// Laws
// ---------------------------------------------------------------------------

/// What an ingest makes of a conversation's row: it is opened again where the plan says so,
/// and then written over.
pub open spec fn row_after(
    row: storage::RowView,
    c: storage::NewCandidateView,
    reset: bool,
) -> (storage::RowView, UpsertOutcome) {
    storage::upserted(
        Some(
            if reset {
                storage::RowView { decision: None, ..row }
            } else {
                row
            },
        ),
        c,
    )
}

/// A conversation that was decided comes up again, brought up to date, when a message came
/// in that its file did not hold. Else its row is left alone.
pub proof fn law_new_activity_reopens(
    row: storage::RowView,
    c: storage::NewCandidateView,
    existing: Map<Seq<char>, types::MessageView>,
    fresh: Seq<types::MessageView>,
)
    requires
        row.decision is Some,
    ensures
        ({
            let (after, outcome) = row_after(row, c, window::new_activity(existing, fresh));
            if window::new_activity(existing, fresh) {
                &&& after.decision is None
                &&& after.source_time == time::stamp_of(c.source_time)
                &&& outcome == UpsertOutcome::UpdatedUnchanged
            } else {
                after == row && outcome == UpsertOutcome::SkippedDecided
            }
        }),
{
}

proof fn lemma_recovered_ids(msgs: Seq<types::MessageView>, i: int)
    requires
        0 <= i < msgs.len(),
    ensures
        payload::recovered_all(msgs).contains_key(pieces::trimmed(msgs[i].id)),
    decreases msgs.len(),
{
    if i < msgs.len() - 1 {
        lemma_recovered_ids(msgs.drop_last(), i);
    }
}

/// Fetching messages again that a conversation's file gives back is no new activity, so it
/// opens no decided conversation.
pub proof fn law_fetching_again_is_no_news(
    msgs: Seq<types::MessageView>,
    fresh: Seq<types::MessageView>,
)
    requires
        forall|i: int|
            0 <= i < fresh.len() ==> pieces::trimmed((#[trigger] fresh[i]).id) == fresh[i].id
                && exists|j: int| 0 <= j < msgs.len() && (#[trigger] msgs[j]).id == fresh[i].id,
    ensures
        !window::new_activity(payload::recovered_all(msgs), fresh),
{
    assert forall|i: int| 0 <= i < fresh.len() implies payload::recovered_all(msgs).contains_key(
        (#[trigger] fresh[i]).id,
    ) by {
        let j = choose|j: int| 0 <= j < msgs.len() && (#[trigger] msgs[j]).id == fresh[i].id;
        lemma_recovered_ids(msgs, j);
    }
}

/// A candidate names at most three senders, none of them twice, and each of them sent one
/// of the messages.
pub proof fn law_senders_are_few_and_distinct(msgs: Seq<types::MessageView>)
    ensures
        senders_of(msgs, seq![]).len() <= RECENT_PARTICIPANT_LIMIT,
        senders_of(msgs, seq![]).no_duplicates(),
        forall|k: int|
            0 <= k < senders_of(msgs, seq![]).len() ==> exists|i: int|
                0 <= i < msgs.len() && (#[trigger] msgs[i]).sender == Some(
                    #[trigger] senders_of(msgs, seq![])[k],
                ),
{
    lemma_senders(msgs, seq![]);
}

proof fn lemma_senders(msgs: Seq<types::MessageView>, named: Seq<Seq<char>>)
    requires
        named.len() <= RECENT_PARTICIPANT_LIMIT,
        named.no_duplicates(),
    ensures
        senders_of(msgs, named).len() <= RECENT_PARTICIPANT_LIMIT,
        senders_of(msgs, named).no_duplicates(),
        forall|k: int|
            0 <= k < senders_of(msgs, named).len() ==> named.contains(
                #[trigger] senders_of(msgs, named)[k],
            ) || exists|i: int|
                0 <= i < msgs.len() && (#[trigger] msgs[i]).sender == Some(
                    senders_of(msgs, named)[k],
                ),
    decreases msgs.len(),
{
    if msgs.len() == 0 || named.len() >= RECENT_PARTICIPANT_LIMIT {
        assert forall|k: int| 0 <= k < named.len() implies named.contains(#[trigger] named[k]) by {}
    } else {
        let front = msgs.drop_last();
        let next = match msgs.last().sender {
            Some(s) => if named.contains(s) {
                named
            } else {
                named.push(s)
            },
            None => named,
        };
        lemma_senders(front, next);
        let out = senders_of(msgs, named);
        assert(out == senders_of(front, next));
        assert forall|k: int| 0 <= k < out.len() implies named.contains(#[trigger] out[k])
            || exists|i: int| 0 <= i < msgs.len() && (#[trigger] msgs[i]).sender == Some(out[k]) by {
            if next.contains(out[k]) {
                let j = choose|j: int| 0 <= j < next.len() && next[j] == out[k];
                if j < named.len() {
                    assert(named[j] == out[k]);
                } else {
                    assert(msgs[msgs.len() - 1].sender == Some(out[k]));
                }
            } else {
                let i = choose|i: int|
                    0 <= i < front.len() && (#[trigger] front[i]).sender == Some(out[k]);
                assert(msgs[i].sender == Some(out[k]));
            }
        }
    }
}

/// Title and preview are never longer than what a row shows, with an ellipsis behind what
/// was cut.
pub proof fn law_summary_is_short(conv: types::ConvView, msgs: Seq<types::MessageView>)
    ensures
        title_of(conv, msgs.len()).len() <= TITLE_CHARS + 1,
        preview_of(msgs).len() <= PREVIEW_CHARS + 1,
{
}

/// What a conversation's file gives back is taken up again for any row, decided or open;
/// without a row or a file nothing is.
pub proof fn law_the_file_is_taken_up_again(
    row: storage::RowView,
    raw: Seq<char>,
    no_row: Option<storage::RowView>,
    no_file: Option<Seq<char>>,
)
    ensures
        existing_of(Some(row), Some(raw)) == payload::parsed_payload(raw),
        no_row is None || no_file is None ==> existing_of(no_row, no_file) == Map::<
            Seq<char>,
            types::MessageView,
        >::empty(),
{
}

/// Nothing recent is lost: a message that the conversation's file gives back, and that no
/// fetched message replaces, is kept as it was, for any row, decided or open; of fetched
/// messages with one id the last is kept. Such a message is missing from the window only
/// where it is older than a week, or where the window is full of messages that all come
/// after it.
pub proof fn law_nothing_recent_is_lost<B: ImBackend>(
    backend: &B,
    conv: types::ConvView,
    row: storage::RowView,
    raw: Seq<char>,
    fresh: Seq<types::MessageView>,
    now: Timestamp,
    listed: Seq<types::MessageView>,
    kept: types::MessageView,
)
    requires
        now.wf(),
        now.nanos < 1_000_000_000,
        window::lists(window::merged(existing_of(Some(row), Some(raw)), fresh), listed),
        ({
            ||| payload::parsed_payload(raw).contains_key(kept.id) && payload::parsed_payload(
                raw,
            )[kept.id] == kept && forall|i: int|
                0 <= i < fresh.len() ==> (#[trigger] fresh[i]).id != kept.id || fresh[i].deleted
            ||| !kept.deleted && kept.id.len() > 0 && exists|i: int|
                0 <= i < fresh.len() && #[trigger] fresh[i] == kept && forall|j: int|
                    i < j < fresh.len() ==> (#[trigger] fresh[j]).id != kept.id || fresh[j].deleted
        }),
        now.secs - 604_800 < kept.timestamp.secs || (now.secs - 604_800 == kept.timestamp.secs
            && now.nanos <= kept.timestamp.nanos),
    ensures
        ({
            let w = gathered(backend, conv, existing_of(Some(row), Some(raw)), fresh, now);
            &&& listed.contains(kept)
            &&& window::in_time_order(w)
            &&& !w.contains(kept) ==> {
                &&& forall|k: int| 0 <= k < w.len() ==> window::comes_first(kept, #[trigger] w[k])
                &&& w.len() == 200 || exists|y: types::MessageView| #[trigger]
                    listed.contains(y) && window::bytes_of(backend, conv, seq![y] + w) > 262_144
            }
        }),
{
    let existing = existing_of(Some(row), Some(raw));
    let all = window::merged(existing, fresh);
    let id = kept.id;
    window::law_merging_loses_nothing(existing, fresh, id);
    if forall|i: int| 0 <= i < fresh.len() ==> (#[trigger] fresh[i]).id != kept.id || fresh[i].deleted {
        assert forall|i: int| !#[trigger] window::comes_in(fresh, id, i) by {}
    } else {
        let i = choose|i: int|
            0 <= i < fresh.len() && #[trigger] fresh[i] == kept && forall|j: int|
                i < j < fresh.len() ==> (#[trigger] fresh[j]).id != kept.id || fresh[j].deleted;
        assert(window::comes_in(fresh, id, i));
        assert forall|j: int| i < j implies !#[trigger] window::comes_in(fresh, id, j) by {}
    }
    assert(all.contains_key(id) && all[id] == kept);
    let p = choose|p: int| 0 <= p < listed.len() && (#[trigger] listed[p]).id == id;
    assert(listed[p] == kept);
    window::law_order_is_unique(all, listed, window::ordered_of(all));
    let cutoff = now.earlier_by((payload::WINDOW_DAYS * time::DAY) as i64);
    window::law_window_keeps_the_newest(backend, conv, listed, cutoff, p);
}

/// The candidate of a conversation tells of that conversation: its id and reference, its
/// kind by name, and the time of the window's last message. Its file is the one that is
/// written, beside which the attachments are listed.
pub proof fn law_candidate_tells_of_its_conversation(
    source: Seq<char>,
    conv: types::ConvView,
    w: Seq<types::MessageView>,
    bytes: u64,
)
    requires
        w.len() > 0,
        window::in_time_order(w),
    ensures
        ({
            let c = candidate_of(source, conv, w, bytes);
            let stem = cache::segment_of(source) + "/"@ + cache::segment_of(conv.id);
            &&& c.id == source + ":"@ + conv.id && c.source == source && c.source_ref == conv.id
            &&& c.source_kind == match conv.kind {
                types::ImConversationKind::Dm => "dm"@,
                types::ImConversationKind::GroupDm => "group_dm"@,
                types::ImConversationKind::Channel => "channel"@,
                types::ImConversationKind::PrivateChannel => "private_channel"@,
            }
            &&& forall|i: int|
                0 <= i < w.len() ==> (#[trigger] w[i]).timestamp.not_after(c.source_time)
            &&& exists|i: int| 0 <= i < w.len() && (#[trigger] w[i]).timestamp == c.source_time
            &&& c.payload_path == stem + ".md"@ && c.payload_bytes == bytes
            &&& sidecar_path_of(source, conv.id) == stem + ".attachments.json"@
            &&& c.external_url is None
            &&& c.preview == (if preview_of(w).len() > 0 {
                Some(preview_of(w))
            } else {
                None
            })
            &&& c.sender is None <==> forall|i: int|
                0 <= i < w.len() ==> (#[trigger] w[i]).sender is None
        }),
{
    let n = w.len() - 1;
    assert forall|i: int| 0 <= i < w.len() implies (#[trigger] w[i]).timestamp.not_after(
        w[n].timestamp,
    ) by {
        if i < n {
            assert(window::comes_first(w[i], w[n]));
        }
    }
    assert(w[n].timestamp == w.last().timestamp);
    law_senders_are_few_and_distinct(w);
    lemma_no_sender(w);
    let names = senders_of(w, seq![]);
    if names.len() > 0 {
        assert(exists|i: int| 0 <= i < w.len() && (#[trigger] w[i]).sender == Some(names[0]));
    }
}

proof fn lemma_no_sender(msgs: Seq<types::MessageView>)
    ensures
        senders_of(msgs, seq![]).len() == 0 ==> forall|i: int|
            0 <= i < msgs.len() ==> (#[trigger] msgs[i]).sender is None,
    decreases msgs.len(),
{
    if msgs.len() > 0 {
        let front = msgs.drop_last();
        lemma_no_sender(front);
        match msgs.last().sender {
            Some(s) => {
                lemma_named_stay(front, seq![].push(s));
            },
            None => {
                if senders_of(msgs, seq![]).len() == 0 {
                    assert forall|i: int| 0 <= i < msgs.len() implies (
                    #[trigger] msgs[i]).sender is None by {
                        if i < front.len() {
                            assert(front[i] == msgs[i]);
                        }
                    }
                }
            },
        }
    }
}

proof fn lemma_named_stay(msgs: Seq<types::MessageView>, named: Seq<Seq<char>>)
    ensures
        named.is_prefix_of(senders_of(msgs, named)),
    decreases msgs.len(),
{
    if msgs.len() == 0 || named.len() >= RECENT_PARTICIPANT_LIMIT {
    } else {
        match msgs.last().sender {
            Some(s) => if named.contains(s) {
                lemma_named_stay(msgs.drop_last(), named);
            } else {
                lemma_named_stay(msgs.drop_last(), named.push(s));
                let out = senders_of(msgs, named);
                assert forall|k: int| 0 <= k < named.len() implies #[trigger] out[k] == named[k] by {
                    assert(named.push(s)[k] == named[k]);
                }
            },
            None => {
                lemma_named_stay(msgs.drop_last(), named);
            },
        }
    }
}

/// The newest sender is named first; messages without a sender name nobody, and as long as
/// fewer than three are named nobody is left out.
pub proof fn law_newest_sender_comes_first(msgs: Seq<types::MessageView>)
    requires
        msgs.len() > 0,
    ensures
        msgs.last().sender matches Some(s) ==> senders_of(msgs, seq![]).len() > 0 && senders_of(
            msgs,
            seq![],
        )[0] == s,
        msgs.last().sender is None ==> senders_of(msgs, seq![]) == senders_of(
            msgs.drop_last(),
            seq![],
        ),
        senders_of(msgs, seq![]).len() < 3 ==> forall|i: int|
            0 <= i < msgs.len() && (#[trigger] msgs[i]).sender is Some ==> senders_of(
                msgs,
                seq![],
            ).contains(msgs[i].sender->0),
{
    match msgs.last().sender {
        Some(s) => {
            let first = Seq::<Seq<char>>::empty().push(s);
            lemma_named_stay(msgs.drop_last(), first);
            assert(senders_of(msgs, seq![]) == senders_of(msgs.drop_last(), first));
            assert(senders_of(msgs, seq![]).subrange(0, 1)[0] == first[0]);
        },
        None => {},
    }
    lemma_all_named(msgs, seq![]);
}

proof fn lemma_all_named(msgs: Seq<types::MessageView>, named: Seq<Seq<char>>)
    ensures
        senders_of(msgs, named).len() < 3 ==> forall|i: int|
            0 <= i < msgs.len() && (#[trigger] msgs[i]).sender is Some ==> senders_of(
                msgs,
                named,
            ).contains(msgs[i].sender->0),
    decreases msgs.len(),
{
    let out = senders_of(msgs, named);
    if msgs.len() > 0 && out.len() < 3 {
        lemma_named_stay(msgs, named);
        let front = msgs.drop_last();
        let next = match msgs.last().sender {
            Some(s) => if named.contains(s) {
                named
            } else {
                named.push(s)
            },
            None => named,
        };
        lemma_all_named(front, next);
        lemma_named_stay(front, next);
        assert(out == senders_of(front, next));
        assert forall|i: int| 0 <= i < msgs.len() && (#[trigger] msgs[i]).sender is Some implies out.contains(
            msgs[i].sender->0,
        ) by {
            if i < front.len() {
                assert(front[i] == msgs[i]);
            } else {
                let s = msgs.last().sender->0;
                if named.contains(s) {
                    let k = choose|k: int| 0 <= k < named.len() && named[k] == s;
                    assert(next[k] == s);
                    assert(out[k] == s);
                } else {
                    assert(next[next.len() - 1] == s);
                    assert(out[next.len() - 1] == s);
                }
            }
        }
    }
}

/// Every attachment of every message is listed under that message's id, in their order, and
/// nothing else is.
pub proof fn law_every_attachment_is_listed(
    msgs: Seq<types::MessageView>,
    more: types::MessageView,
)
    ensures
        ({
            let before = entries_of(msgs);
            let after = entries_of(msgs.push(more));
            &&& after.len() == before.len() + more.attachments.len()
            &&& before.is_prefix_of(after)
            &&& forall|i: int|
                0 <= i < more.attachments.len() ==> #[trigger] after[before.len() + i] == (
                    more.id,
                    more.attachments[i],
                )
        }),
        entries_of(seq![]) == Seq::<EntryView>::empty(),
{
    assert(msgs.push(more).drop_last() =~= msgs);
    assert(entries_of(msgs.push(more)) == entries_of(msgs) + entries_of_message(more));
}

/// Messages are asked for from six hours before the last one that was seen, or from three
/// days back where none was; the overlap loses nothing that came late.
pub proof fn law_fetching_looks_back(last: Option<Seq<char>>, now: Timestamp)
    requires
        now.wf(),
        now.nanos < 1_000_000_000,
    ensures
        ({
            let since = since_of(last, now);
            match last {
                Some(s) => match time::rfc3339_instant(s) {
                    Some((secs, nanos)) => time::MIN_SECS <= secs <= time::MAX_SECS && nanos
                        < 1_000_000_000 ==> since.secs == secs - 21_600 && since.nanos == nanos,
                    None => since.secs == now.secs - 259_200 && since.nanos == now.nanos,
                },
                None => since.secs == now.secs - 259_200 && since.nanos == now.nanos,
            }
        }),
{
}

/// The title is the conversation's label, or its id where it has none, and how many messages
/// there are; the preview shows the last three messages at most, each with its sender.
pub proof fn law_summary_shows_label_and_last_messages(
    conv: types::ConvView,
    msgs: Seq<types::MessageView>,
)
    requires
        msgs.len() > 0,
    ensures
        ({
            let label = match conv.label {
                Some(l) => l,
                None => conv.id,
            };
            let count = numbers::decimal(msgs.len());
            let plain = if msgs.len() == 1 {
                label + " · "@ + count + " message"@
            } else {
                label + " · "@ + count + " messages"@
            };
            &&& plain.len() <= 120 ==> title_of(conv, msgs.len()) == plain
            &&& plain.len() > 120 ==> title_of(conv, msgs.len()) == plain.take(120).push('…')
        }),
        ({
            let line = |m: types::MessageView|
                (match m.sender {
                    Some(s) => s,
                    None => "?"@,
                }) + ": "@ + pieces::replaced(m.text, "\n"@, " "@) + " | "@;
            let n = msgs.len();
            let all = (if n >= 3 {
                line(msgs[n - 3])
            } else {
                seq![]
            }) + (if n >= 2 {
                line(msgs[n - 2])
            } else {
                seq![]
            }) + line(msgs[n - 1]);
            all.len() < 400 ==> preview_of(msgs) == pieces::without_suffixes(all, " | "@)
        }),
{
    reveal_strlit(" message");
    reveal_strlit(" messages");
    reveal_strlit("s");
    let label = conv.shown();
    let count = numbers::decimal(msgs.len());
    assert(label + " · "@ + count + " message"@ + "s"@ =~= label + " · "@ + count + " messages"@);
    assert(label + " · "@ + count + " message"@ + Seq::<char>::empty() =~= label + " · "@ + count
        + " message"@);
    let n = msgs.len() as int;
    let t = last_three(msgs);
    let e = Seq::<char>::empty();
    let a = if n >= 3 {
        preview_line(msgs[n - 3])
    } else {
        e
    };
    let b = if n >= 2 {
        preview_line(msgs[n - 2])
    } else {
        e
    };
    let c = preview_line(msgs[n - 1]);
    if (a + b + c).len() < 400 {
        reveal_with_fuel(preview_lines, 4);
        if n >= 3 {
            assert(t.drop_first().drop_first().drop_first().len() == 0);
            assert(e + a =~= a);
            assert(t[0] == msgs[n - 3] && t.drop_first()[0] == msgs[n - 2]
                && t.drop_first().drop_first()[0] == msgs[n - 1]);
        } else if n == 2 {
            assert(t.drop_first().drop_first().len() == 0);
            assert(e + b =~= b && a + b =~= b);
            assert(t[0] == msgs[n - 2] && t.drop_first()[0] == msgs[n - 1]);
        } else {
            assert(t.drop_first().len() == 0);
            assert(e + c =~= c && a + b + c =~= c);
            assert(t[0] == msgs[n - 1]);
        }
        assert(preview_lines(seq![], t) == a + b + c);
        lemma_without_suffixes_len(a + b + c, " | "@);
    }
}

proof fn lemma_without_suffixes_len(s: Seq<char>, p: Seq<char>)
    ensures
        pieces::without_suffixes(s, p).len() <= s.len(),
    decreases s.len(),
{
    if p.len() > 0 && text::ends(s, p) {
        lemma_without_suffixes_len(s.take(s.len() - p.len()), p);
    }
}

/// The senders stand in one line with a comma and a space between them, and without a sender
/// there is no line.
pub proof fn law_senders_stand_in_one_line(msgs: Seq<types::MessageView>)
    ensures
        ({
            let names = senders_of(msgs, seq![]);
            &&& names.len() == 0 ==> sender_line(msgs) is None
            &&& names.len() == 1 ==> sender_line(msgs) == Some(names[0])
            &&& names.len() == 2 ==> sender_line(msgs) == Some(names[0] + ", "@ + names[1])
            &&& names.len() == 3 ==> sender_line(msgs) == Some(
                names[0] + ", "@ + names[1] + ", "@ + names[2],
            )
        }),
{
    reveal_with_fuel(pieces::joined, 4);
}

/// A fetch looks at the first conversations that were found, and at no more than 30 of them.
pub proof fn law_first_conversations_are_scanned(
    found: Vec<ImConversation>,
    r: Vec<ImConversation>,
    i: int,
)
    requires
        call_ensures(conversations_to_scan, (found,), r),
    ensures
        r@.len() <= 30,
        found@.len() <= 30 ==> r@ == found@,
        found@.len() > 30 ==> r@.len() == 30,
        0 <= i < r@.len() ==> r@[i] == found@[i],
{
}

/// Every entry's file is kept, and no other.
pub proof fn law_files_of_entries_are_kept(
    entries: Vec<AttachmentEntry>,
    r: Vec<String>,
    name: Seq<char>,
)
    requires
        call_ensures(kept_filenames, (&entries,), r),
    ensures
        (exists|i: int| 0 <= i < r@.len() && (#[trigger] r@[i])@ == name) <==> exists|i: int|
            0 <= i < entries@.len() && (#[trigger] entries@[i]).filename@ == name,
{
    if exists|i: int| 0 <= i < r@.len() && (#[trigger] r@[i])@ == name {
        let i = choose|i: int| 0 <= i < r@.len() && (#[trigger] r@[i])@ == name;
        assert(entries@[i].filename@ == name);
    }
    if exists|i: int| 0 <= i < entries@.len() && (#[trigger] entries@[i]).filename@ == name {
        let i = choose|i: int|
            0 <= i < entries@.len() && (#[trigger] entries@[i]).filename@ == name;
        assert(r@[i]@ == name);
    }
}

} // verus!
