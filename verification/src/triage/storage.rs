//! Candidates and cursors as rows, and what each write makes of a row.
use vstd::prelude::*;
use crate::json;
use crate::json::Json;
use crate::text;
use crate::time;
use crate::time::Timestamp;

verus! {

/// A candidate as a fetcher hands it over.
pub struct NewCandidate {
    pub id: String,
    pub source: String,
    pub source_kind: String,
    pub source_ref: String,
    pub source_time: Timestamp,
    pub sender: Option<String>,
    pub title: Option<String>,
    pub preview: Option<String>,
    pub external_url: Option<String>,
    pub payload_path: String,
    pub payload_bytes: u64,
}

/// What a new candidate says.
#[verifier::ext_equal]
pub struct NewCandidateView {
    pub id: Seq<char>,
    pub source: Seq<char>,
    pub source_kind: Seq<char>,
    pub source_ref: Seq<char>,
    pub source_time: Timestamp,
    pub sender: Option<Seq<char>>,
    pub title: Option<Seq<char>>,
    pub preview: Option<Seq<char>>,
    pub external_url: Option<Seq<char>>,
    pub payload_path: Seq<char>,
    pub payload_bytes: u64,
}

impl View for NewCandidate {
    type V = NewCandidateView;

    open spec fn view(&self) -> NewCandidateView {
        NewCandidateView {
            id: self.id@,
            source: self.source@,
            source_kind: self.source_kind@,
            source_ref: self.source_ref@,
            source_time: self.source_time,
            sender: text::opt_text(self.sender),
            title: text::opt_text(self.title),
            preview: text::opt_text(self.preview),
            external_url: text::opt_text(self.external_url),
            payload_path: self.payload_path@,
            payload_bytes: self.payload_bytes,
        }
    }
}

/// What a write of a candidate came to.
#[derive(Clone, Copy, Debug, PartialEq, Eq, Structural)]
pub enum UpsertOutcome {
    Inserted,
    UpdatedUnchanged,
    /// The row was decided before and is left alone.
    SkippedDecided,
}

/// A candidate as it is stored.
pub struct CandidateRow {
    pub id: String,
    pub source: String,
    pub source_kind: String,
    pub source_ref: String,
    pub source_time: String,
    pub sender: Option<String>,
    pub title: Option<String>,
    pub preview: Option<String>,
    pub external_url: Option<String>,
    pub payload_path: String,
    pub payload_bytes: i64,
    pub decision: Option<String>,
}

/// What a stored candidate says.
#[verifier::ext_equal]
pub struct RowView {
    pub id: Seq<char>,
    pub source: Seq<char>,
    pub source_kind: Seq<char>,
    pub source_ref: Seq<char>,
    pub source_time: Seq<char>,
    pub sender: Option<Seq<char>>,
    pub title: Option<Seq<char>>,
    pub preview: Option<Seq<char>>,
    pub external_url: Option<Seq<char>>,
    pub payload_path: Seq<char>,
    pub payload_bytes: i64,
    pub decision: Option<Seq<char>>,
}

impl View for CandidateRow {
    type V = RowView;

    open spec fn view(&self) -> RowView {
        RowView {
            id: self.id@,
            source: self.source@,
            source_kind: self.source_kind@,
            source_ref: self.source_ref@,
            source_time: self.source_time@,
            sender: text::opt_text(self.sender),
            title: text::opt_text(self.title),
            preview: text::opt_text(self.preview),
            external_url: text::opt_text(self.external_url),
            payload_path: self.payload_path@,
            payload_bytes: self.payload_bytes,
            decision: text::opt_text(self.decision),
        }
    }
}

/// An instant as rows keep it.
pub fn fmt_ts(ts: Timestamp) -> (r: String)
    requires
        ts.wf(),
    ensures
        r@ == time::stamp_of(ts),
{
    time::format_rfc3339(ts)
}

/// The present instant as rows keep it.
pub fn now_iso(now: Timestamp) -> (r: String)
    requires
        now.wf(),
    ensures
        r@ == time::stamp_of(now),
{
    fmt_ts(now)
}

/// A size as a signed column keeps it.
pub open spec fn column_size(n: u64) -> i64 {
    if n <= i64::MAX {
        n as i64
    } else {
        (n - 0x1_0000_0000_0000_0000) as i64
    }
}

fn to_column_size(n: u64) -> (r: i64)
    ensures
        r == column_size(n),
{
    if n <= i64::MAX as u64 {
        n as i64
    } else {
        -((u64::MAX - n) as i64) - 1
    }
}

/// The row of a candidate that is new.
pub open spec fn inserted(c: NewCandidateView) -> RowView {
    RowView {
        id: c.id,
        source: c.source,
        source_kind: c.source_kind,
        source_ref: c.source_ref,
        source_time: time::stamp_of(c.source_time),
        sender: c.sender,
        title: c.title,
        preview: c.preview,
        external_url: c.external_url,
        payload_path: c.payload_path,
        payload_bytes: column_size(c.payload_bytes),
        decision: None,
    }
}

/// What a write makes of the row with the same source and reference: a new row, an open
/// row brought up to date under its own id, or a decided row left alone.
pub open spec fn upserted(
    existing: Option<RowView>,
    c: NewCandidateView,
) -> (RowView, UpsertOutcome) {
    match existing {
        None => (inserted(c), UpsertOutcome::Inserted),
        Some(row) => if row.decision is Some {
            (row, UpsertOutcome::SkippedDecided)
        } else {
            (
                RowView { id: row.id, source: row.source, source_ref: row.source_ref, ..inserted(c) },
                UpsertOutcome::UpdatedUnchanged,
            )
        },
    }
}

/// What an optional row says.
pub open spec fn opt_row(r: Option<CandidateRow>) -> Option<RowView> {
    match r {
        Some(r) => Some(r@),
        None => None,
    }
}

/// Writes a candidate over the row with the same source and reference.
pub fn upsert_candidate(existing: Option<CandidateRow>, candidate: &NewCandidate) -> (r: (
    CandidateRow,
    UpsertOutcome,
))
    requires
        candidate.source_time.wf(),
    ensures
        (r.0@, r.1) == upserted(opt_row(existing), candidate@),
{
    let mut id = candidate.id.clone();
    let mut source = candidate.source.clone();
    let mut source_ref = candidate.source_ref.clone();
    let mut outcome = UpsertOutcome::Inserted;
    match existing {
        Some(row) => {
            if row.decision.is_some() {
                return (row, UpsertOutcome::SkippedDecided);
            }
            id = row.id;
            source = row.source;
            source_ref = row.source_ref;
            outcome = UpsertOutcome::UpdatedUnchanged;
        },
        None => {},
    }
    let row = CandidateRow {
        id,
        source,
        source_kind: candidate.source_kind.clone(),
        source_ref,
        source_time: fmt_ts(candidate.source_time),
        sender: text::copy_opt(&candidate.sender),
        title: text::copy_opt(&candidate.title),
        preview: text::copy_opt(&candidate.preview),
        external_url: text::copy_opt(&candidate.external_url),
        payload_path: candidate.payload_path.clone(),
        payload_bytes: to_column_size(candidate.payload_bytes),
        decision: None,
    };
    (row, outcome)
}

/// Notes a verdict on a candidate.
pub fn record_decision(row: &mut CandidateRow, decision: &str)
    ensures
        final(row)@ == (RowView { decision: Some(decision@), ..old(row)@ }),
{
    row.decision = Some(decision.to_string());
}

/// Opens a decided candidate again.
pub fn reset_decision(row: &mut CandidateRow)
    ensures
        final(row)@ == (RowView { decision: None, ..old(row)@ }),
{
    row.decision = None;
}

/// How many of the rows, up to the `n`th, are open.
pub open spec fn open_among(rows: Seq<CandidateRow>, n: int) -> nat
    decreases n,
{
    if n <= 0 {
        0
    } else {
        open_among(rows, n - 1) + (if rows[n - 1].decision is None {
            1nat
        } else {
            0nat
        })
    }
}

/// How many of the rows are open.
pub fn count_open_candidates(rows: &Vec<CandidateRow>) -> (r: usize)
    ensures
        r == open_among(rows@, rows@.len() as int),
{
    let mut n: usize = 0;
    let mut i: usize = 0;
    while i < rows.len()
        invariant
            i <= rows@.len(),
            n <= i,
            n == open_among(rows@, i as int),
        decreases rows@.len() - i,
    {
        if rows[i].decision.is_none() {
            n += 1;
        }
        i += 1;
    }
    n
}

/// How far a conversation was fetched.
pub struct FetchCursor {
    pub last_source_time: Option<String>,
}

impl Default for FetchCursor {
    fn default() -> (r: Self)
        ensures
            r.last_source_time is None,
    {
        FetchCursor { last_source_time: None }
    }
}

/// What a write makes of a cursor: a time that is given replaces the one that was kept.
pub fn write_cursor(kept: &FetchCursor, cursor: &FetchCursor) -> (r: FetchCursor)
    ensures
        r.last_source_time == (if cursor.last_source_time is Some {
            cursor.last_source_time
        } else {
            kept.last_source_time
        }),
{
    match &cursor.last_source_time {
        Some(t) => FetchCursor { last_source_time: Some(t.clone()) },
        None => FetchCursor { last_source_time: text::copy_opt(&kept.last_source_time) },
    }
}

/// The prefix of the references that a conversation's workspaces have.
pub open spec fn chat_prefix(chat_id: Seq<char>) -> Seq<char> {
    chat_id + ":"@
}

/// The anchors behind the conversation's prefix, those that say something.
pub open spec fn anchors_in(refs: Seq<Seq<char>>, chat_id: Seq<char>) -> Seq<Seq<char>>
    decreases refs.len(),
{
    if refs.len() == 0 {
        seq![]
    } else {
        let before = anchors_in(refs.drop_last(), chat_id);
        match text::after_prefix(refs.last(), chat_prefix(chat_id)) {
            Some(a) => if a.len() > 0 {
                before.push(a)
            } else {
                before
            },
            None => before,
        }
    }
}

/// The pattern by which a conversation's workspaces are looked up.
pub fn anchor_pattern(chat_id: &str) -> (r: String)
    ensures
        r@ == chat_prefix(chat_id@) + "%"@,
{
    let mut out = chat_id.to_string();
    out.append(":");
    out.append("%");
    out
}

/// The anchors of a conversation's workspaces, out of the references that were found.
pub fn proposed_anchors_for_chat(refs: &Vec<String>, chat_id: &str) -> (r: Vec<String>)
    ensures
        text::texts(r@) == anchors_in(text::texts(refs@), chat_id@),
{
    let mut prefix = chat_id.to_string();
    prefix.append(":");
    let ghost all = text::texts(refs@);
    let mut out: Vec<String> = Vec::new();
    let mut i: usize = 0;
    assert(text::texts(out@) =~= anchors_in(all.take(0), chat_id@));
    while i < refs.len()
        invariant
            i <= refs@.len(),
            all == text::texts(refs@),
            prefix@ == chat_prefix(chat_id@),
            text::texts(out@) == anchors_in(all.take(i as int), chat_id@),
        decreases refs@.len() - i,
    {
        assert(all.take(i + 1).drop_last() =~= all.take(i as int));
        assert(all.take(i + 1).last() == refs@[i as int]@);
        match text::strip_prefix(refs[i].as_str(), prefix.as_str()) {
            Some(a) => {
                if !a.as_str().is_empty() {
                    let ghost before = text::texts(out@);
                    out.push(a);
                    assert(text::texts(out@) =~= before.push(a@));
                }
            },
            None => {},
        }
        i += 1;
    }
    assert(all.take(i as int) =~= all);
    out
}

// ---------------------------------------------------------------------------
// Rows as JSON
// ---------------------------------------------------------------------------

/// A stored candidate as JSON, its members in the order of their names.
pub open spec fn row_members(r: RowView) -> Seq<(Seq<char>, json::Tree)> {
    seq![
        ("decision"@, json::opt_tree(r.decision)),
        ("externalUrl"@, json::opt_tree(r.external_url)),
        ("id"@, json::Tree::Text(r.id)),
        ("payloadBytes"@, number_tree(r.payload_bytes)),
        ("payloadPath"@, json::Tree::Text(r.payload_path)),
        ("preview"@, json::opt_tree(r.preview)),
        ("sender"@, json::opt_tree(r.sender)),
        ("source"@, json::Tree::Text(r.source)),
        ("sourceKind"@, json::Tree::Text(r.source_kind)),
        ("sourceRef"@, json::Tree::Text(r.source_ref)),
        ("sourceTime"@, json::Tree::Text(r.source_time)),
        ("title"@, json::opt_tree(r.title)),
    ]
}

/// A whole number as JSON.
pub open spec fn number_tree(n: i64) -> json::Tree {
    if n < 0 {
        json::Tree::Int(n)
    } else {
        json::Tree::Uint(n as u64)
    }
}

/// A stored candidate as JSON, with the attachments where there are any.
pub open spec fn row_tree(r: RowView, attachments: Option<json::Tree>) -> json::Tree {
    match attachments {
        Some(a) => json::Tree::Object(seq![("attachments"@, a)] + row_members(r)),
        None => json::Tree::Object(row_members(r)),
    }
}

/// A stored candidate as JSON, with the attachments where there are any.
pub fn row_json(row: &CandidateRow, attachments: Option<Json>) -> (r: Json)
    ensures
        r@ == row_tree(row@, json::opt_json(attachments)),
{
    let mut m: Vec<(String, Json)> = Vec::new();
    let ghost given = json::opt_json(attachments);
    match attachments {
        Some(a) => {
            m.push(("attachments".to_string(), a));
        },
        None => {},
    }
    m.push(("decision".to_string(), Json::text_or_null(&row.decision)));
    m.push(("externalUrl".to_string(), Json::text_or_null(&row.external_url)));
    m.push(("id".to_string(), Json::text(row.id.as_str())));
    m.push(
        (
            "payloadBytes".to_string(),
            if row.payload_bytes < 0 {
                Json::Int(row.payload_bytes)
            } else {
                Json::Uint(row.payload_bytes as u64)
            },
        ),
    );
    m.push(("payloadPath".to_string(), Json::text(row.payload_path.as_str())));
    m.push(("preview".to_string(), Json::text_or_null(&row.preview)));
    m.push(("sender".to_string(), Json::text_or_null(&row.sender)));
    m.push(("source".to_string(), Json::text(row.source.as_str())));
    m.push(("sourceKind".to_string(), Json::text(row.source_kind.as_str())));
    m.push(("sourceRef".to_string(), Json::text(row.source_ref.as_str())));
    m.push(("sourceTime".to_string(), Json::text(row.source_time.as_str())));
    m.push(("title".to_string(), Json::text_or_null(&row.title)));
    let r = Json::object(m);
    proof {
        assert(r@->Object_0 =~= row_tree(row@, given)->Object_0);
    }
    r
}

// ---------------------------------------------------------------------------
// Laws
// ---------------------------------------------------------------------------

/// A decided candidate is not brought back by a fetch: its row stays as it is.
pub proof fn law_decided_rows_are_left_alone(row: RowView, c: NewCandidateView)
    requires
        row.decision is Some,
    ensures
        upserted(Some(row), c) == (row, UpsertOutcome::SkippedDecided),
{
}

/// A candidate that was opened again is brought up to date by the next fetch and stays
/// open.
pub proof fn law_reset_rows_are_open_again(row: RowView, c: NewCandidateView)
    ensures
        ({
            let reset = RowView { decision: None, ..row };
            let (after, outcome) = upserted(Some(reset), c);
            outcome == UpsertOutcome::UpdatedUnchanged && after.decision is None && after.id
                == row.id && after.title == c.title && after.source_time == time::stamp_of(
                c.source_time,
            )
        }),
{
}

/// Writing the same candidate twice comes to the same row as writing it once.
pub proof fn law_upsert_twice_is_once(c: NewCandidateView)
    ensures
        upserted(Some(upserted(None, c).0), c).0 == upserted(None, c).0,
{
}

/// A row keeps what the candidate says, each thing in its place: a new row all of it, and an
/// open row all but the id, the source and the reference, which stay its own.
pub proof fn law_rows_keep_what_candidates_say(row: RowView, c: NewCandidateView)
    requires
        row.decision is None,
    ensures
        ({
            let new = upserted(None, c).0;
            let after = upserted(Some(row), c).0;
            &&& upserted(None, c).1 == UpsertOutcome::Inserted
            &&& upserted(Some(row), c).1 == UpsertOutcome::UpdatedUnchanged
            &&& new.id == c.id && new.source == c.source && new.source_ref == c.source_ref
            &&& after.id == row.id && after.source == row.source && after.source_ref
                == row.source_ref
            &&& forall|r: RowView| (r == new || r == after) ==> {
                &&& #[trigger] r.source_kind == c.source_kind
                &&& r.source_time == time::rfc3339_text(c.source_time.secs, c.source_time.nanos)
                &&& r.sender == c.sender
                &&& r.title == c.title
                &&& r.preview == c.preview
                &&& r.external_url == c.external_url
                &&& r.payload_path == c.payload_path
                &&& c.payload_bytes <= i64::MAX ==> r.payload_bytes == c.payload_bytes
                &&& r.decision is None
            }
        }),
{
}

/// The anchors of a conversation's workspaces are found again: a reference that was made of
/// the conversation and an anchor gives that anchor, and one of another conversation nothing.
pub proof fn law_anchors_are_found_again(
    refs: Seq<Seq<char>>,
    chat_id: Seq<char>,
    anchor: Seq<char>,
    other: Seq<char>,
)
    requires
        anchor.len() > 0,
        !text::begins(other, chat_id + ":"@),
    ensures
        anchors_in(refs.push(chat_id + ":"@ + anchor), chat_id) == anchors_in(refs, chat_id).push(
            anchor,
        ),
        anchors_in(refs.push(other), chat_id) == anchors_in(refs, chat_id),
        anchors_in(refs.push(chat_id + ":"@), chat_id) == anchors_in(refs, chat_id),
        anchors_in(seq![], chat_id) == Seq::<Seq<char>>::empty(),
{
    let p = chat_id + ":"@;
    let made = p + anchor;
    assert(refs.push(made).drop_last() =~= refs);
    assert(refs.push(other).drop_last() =~= refs);
    assert(refs.push(p).drop_last() =~= refs);
    assert(made.take(p.len() as int) =~= p);
    assert(made.skip(p.len() as int) =~= anchor);
    assert(p.take(p.len() as int) =~= p);
    assert(p.skip(p.len() as int).len() == 0);
}

/// One more row is one more open candidate exactly where it has no verdict.
pub proof fn law_open_candidates_are_counted(rows: Seq<CandidateRow>, row: CandidateRow)
    ensures
        open_among(rows.push(row), rows.len() as int + 1) == open_among(rows, rows.len() as int) + (
        if row.decision is None {
            1nat
        } else {
            0nat
        }),
        open_among(rows, 0) == 0,
{
    lemma_open_among_first(rows, rows.push(row), rows.len() as int);
}

proof fn lemma_open_among_first(a: Seq<CandidateRow>, b: Seq<CandidateRow>, n: int)
    requires
        n <= a.len(),
        n <= b.len(),
        forall|i: int| 0 <= i < n ==> a[i] == b[i],
    ensures
        open_among(a, n) == open_among(b, n),
    decreases n,
{
    if n > 0 {
        lemma_open_among_first(a, b, n - 1);
    }
}

/// A stored candidate can be read back by name from what is told of it.
pub proof fn law_rows_are_told_by_name(r: RowView)
    ensures
        ({
            let t = row_tree(r, None);
            &&& t.text_at("id"@) == Some(r.id)
            &&& t.text_at("source"@) == Some(r.source)
            &&& t.text_at("sourceKind"@) == Some(r.source_kind)
            &&& t.text_at("sourceRef"@) == Some(r.source_ref)
            &&& t.text_at("sourceTime"@) == Some(r.source_time)
            &&& t.text_at("sender"@) == r.sender
            &&& t.text_at("title"@) == r.title
            &&& t.text_at("preview"@) == r.preview
            &&& t.text_at("externalUrl"@) == r.external_url
            &&& t.text_at("payloadPath"@) == Some(r.payload_path)
            &&& t.text_at("decision"@) == r.decision
            &&& t.get("attachments"@) is None
            &&& r.payload_bytes >= 0 ==> t.uint_at("payloadBytes"@) == Some(r.payload_bytes as u64)
        }),
        forall|a: json::Tree| #[trigger]
            row_tree(r, Some(a)).get("attachments"@) == Some(a) && row_tree(
                r,
                Some(a),
            )->Object_0.drop_first() == row_tree(r, None)->Object_0,
{
    reveal_strlit("attachments");
    reveal_strlit("decision");
    reveal_strlit("externalUrl");
    reveal_strlit("id");
    reveal_strlit("payloadBytes");
    reveal_strlit("payloadPath");
    reveal_strlit("preview");
    reveal_strlit("sender");
    reveal_strlit("source");
    reveal_strlit("sourceKind");
    reveal_strlit("sourceRef");
    reveal_strlit("sourceTime");
    reveal_strlit("title");
    let m = row_members(r);
    assert("payloadBytes"@[7] == 'B' && "payloadPath"@[7] == 'P');
    assert("sender"@[1] == 'e' && "source"@[1] == 'o');
    assert("sourceKind"@[6] == 'K' && "sourceTime"@[6] == 'T' && "sourceRef"@[6] == 'R');
    assert("decision"@[0] == 'd' && "externalUrl"@[0] == 'e' && "id"@[0] == 'i' && "preview"@[0]
        == 'p' && "title"@[0] == 't' && "attachments"@[0] == 'a');
    assert("payloadBytes"@.len() == 12 && "payloadPath"@.len() == 11 && "sourceRef"@.len() == 9
        && "sourceKind"@.len() == 10 && "sourceTime"@.len() == 10 && "source"@.len() == 6
        && "sender"@.len() == 6 && "preview"@.len() == 7);
    assert("payloadBytes"@[0] == 'p' && "payloadPath"@[0] == 'p' && "sourceKind"@[0] == 's'
        && "sourceRef"@[0] == 's' && "sourceTime"@[0] == 's' && "source"@[0] == 's' && "sender"@[0]
        == 's');
    assert(m.len() == 12);
    assert forall|i: int, j: int| 0 <= j < i < 12 implies (#[trigger] m[j]).0 != (
    #[trigger] m[i]).0 by {}
    json::lemma_member_at(m, 0);
    json::lemma_member_at(m, 1);
    json::lemma_member_at(m, 2);
    json::lemma_member_at(m, 3);
    json::lemma_member_at(m, 4);
    json::lemma_member_at(m, 5);
    json::lemma_member_at(m, 6);
    json::lemma_member_at(m, 7);
    json::lemma_member_at(m, 8);
    json::lemma_member_at(m, 9);
    json::lemma_member_at(m, 10);
    json::lemma_member_at(m, 11);
    json::law_members_are_found_by_name(m, "attachments"@);
    assert forall|a: json::Tree| #[trigger]
        row_tree(r, Some(a)).get("attachments"@) == Some(a) && row_tree(
            r,
            Some(a),
        )->Object_0.drop_first() == row_tree(r, None)->Object_0 by {
        assert((seq![("attachments"@, a)] + m)[0] == ("attachments"@, a));
        assert((seq![("attachments"@, a)] + m).drop_first() =~= m);
    }
}

/// A time that is written is kept, and writing none keeps the one before.
pub proof fn law_cursors_keep_the_time_before(
    kept: FetchCursor,
    cursor: FetchCursor,
    r: FetchCursor,
)
    requires
        call_ensures(write_cursor, (&kept, &cursor), r),
    ensures
        cursor.last_source_time is Some ==> r.last_source_time == cursor.last_source_time,
        cursor.last_source_time is None ==> r.last_source_time == kept.last_source_time,
{
}

} // verus!
