//! The Lark backend: which conversations are looked at, and how Lark's answers become
//! conversations and messages.
//!
//! Conversations between two people are looked at whenever something was said; groups
//! only where the user wrote or was mentioned. Lark's list of chats holds groups only, so
//! the others are found by searching messages.
use vstd::prelude::*;
use crate::json;
use crate::json::Json;
use crate::numbers;
use crate::paths;
use crate::pieces;
use crate::records;
use crate::text;
use crate::time;
use crate::time::Timestamp;
use crate::triage::attachments;
use crate::triage::fetcher;
use crate::triage::im::blocks;
use crate::triage::im::payload;
use crate::triage::im::payload::ImBackend;
use crate::triage::im::types;
use crate::triage::im::types::{ImAttachment, ImConversation, ImConversationKind, ImMessage};

verus! {

/// The source's id.
pub const SOURCE: &'static str = "lark";

/// Messages per page of a search.
pub const DISCOVERY_PAGE_SIZE: u32 = 50;

/// Chats per page of the list of chats.
pub const CHAT_LIST_PAGE_SIZE: u32 = 100;

// ---------------------------------------------------------------------------
// Records
// ---------------------------------------------------------------------------

/// Who sent a message.
pub struct SenderRecord {
    pub id: Option<String>,
    pub name: Option<String>,
}

/// Who sent a message: id and name.
pub type SenderView = (Option<Seq<char>>, Option<Seq<char>>);

impl View for SenderRecord {
    type V = SenderView;

    open spec fn view(&self) -> SenderView {
        (text::opt_text(self.id), text::opt_text(self.name))
    }
}

/// A message in one of Lark's answers.
pub struct MessageRecord {
    pub message_id: Option<String>,
    pub msg_type: Option<String>,
    pub create_time: Option<String>,
    pub content: Option<String>,
    pub deleted: Option<bool>,
    pub message_app_link: Option<String>,
    pub sender: Option<SenderRecord>,
    /// Given where messages were searched.
    pub chat_id: Option<String>,
}

/// What a message in one of Lark's answers says.
#[verifier::ext_equal]
pub struct RecordView {
    pub message_id: Option<Seq<char>>,
    pub msg_type: Option<Seq<char>>,
    pub create_time: Option<Seq<char>>,
    pub content: Option<Seq<char>>,
    pub deleted: Option<bool>,
    pub message_app_link: Option<Seq<char>>,
    pub sender: Option<SenderView>,
    pub chat_id: Option<Seq<char>>,
}

/// Who sent a message, where that is known.
pub open spec fn opt_sender(s: Option<SenderRecord>) -> Option<SenderView> {
    match s {
        Some(s) => Some(s@),
        None => None,
    }
}

impl View for MessageRecord {
    type V = RecordView;

    open spec fn view(&self) -> RecordView {
        RecordView {
            message_id: text::opt_text(self.message_id),
            msg_type: text::opt_text(self.msg_type),
            create_time: text::opt_text(self.create_time),
            content: text::opt_text(self.content),
            deleted: self.deleted,
            message_app_link: text::opt_text(self.message_app_link),
            sender: opt_sender(self.sender),
            chat_id: text::opt_text(self.chat_id),
        }
    }
}

impl Default for MessageRecord {
    fn default() -> (r: Self)
        ensures
            r@ == (RecordView {
                message_id: None,
                msg_type: None,
                create_time: None,
                content: None,
                deleted: None,
                message_app_link: None,
                sender: None,
                chat_id: None,
            }),
    {
        MessageRecord {
            message_id: None,
            msg_type: None,
            create_time: None,
            content: None,
            deleted: None,
            message_app_link: None,
            sender: None,
            chat_id: None,
        }
    }
}

/// What the records of a list say.
pub open spec fn record_views(v: Seq<MessageRecord>) -> Seq<RecordView> {
    Seq::new(v.len(), |i: int| v[i]@)
}

/// The sender that a value gives.
pub open spec fn sender_in(t: json::Tree) -> Option<SenderView> {
    if !records::shaped(t, 2, 2) {
        None
    } else {
        match (
            records::optional_text(records::field(t, "id"@, 0)),
            records::optional_text(records::field(t, "name"@, 1)),
        ) {
            (Some(id), Some(name)) => Some((id, name)),
            _ => None,
        }
    }
}

/// The sender that may be missing or null.
pub open spec fn optional_sender(f: Option<json::Tree>) -> Option<Option<SenderView>> {
    match f {
        None | Some(json::Tree::Null) => Some(None),
        Some(t) => match sender_in(t) {
            Some(s) => Some(Some(s)),
            None => None,
        },
    }
}

/// The message that a value gives. A value with a member of the wrong kind gives none.
pub open spec fn record_in(t: json::Tree) -> Option<RecordView> {
    if !records::shaped(t, 7, 8) {
        None
    } else {
        match (
            records::optional_text(records::field(t, "message_id"@, 0)),
            records::optional_text(records::field(t, "msg_type"@, 1)),
            records::optional_text(records::field(t, "create_time"@, 2)),
            records::optional_text(records::field(t, "content"@, 3)),
            records::optional_flag(records::field(t, "deleted"@, 4)),
            records::optional_text(records::field(t, "message_app_link"@, 5)),
            optional_sender(records::field(t, "sender"@, 6)),
            records::optional_text(records::field(t, "chat_id"@, 7)),
        ) {
            (
                Some(message_id),
                Some(msg_type),
                Some(create_time),
                Some(content),
                Some(deleted),
                Some(message_app_link),
                Some(sender),
                Some(chat_id),
            ) => Some(
                RecordView {
                    message_id,
                    msg_type,
                    create_time,
                    content,
                    deleted,
                    message_app_link,
                    sender,
                    chat_id,
                },
            ),
            _ => None,
        }
    }
}

fn read_sender(f: Option<&Json>) -> (r: Option<Option<SenderRecord>>)
    ensures
        (match r {
            Some(s) => Some(opt_sender(s)),
            None => None,
        }) == optional_sender(records::opt_view(f)),
{
    match f {
        None => Some(None),
        Some(j) => {
            proof {
                json::lemma_view_parts(j);
            }
            match j {
                Json::Null => Some(None),
                _ => {
                    if !records::is_shaped(j, 2, 2) {
                        return None;
                    }
                    match (
                        records::read_optional_text(records::get_field(j, "id", 0)),
                        records::read_optional_text(records::get_field(j, "name", 1)),
                    ) {
                        (Some(id), Some(name)) => Some(Some(SenderRecord { id, name })),
                        _ => None,
                    }
                },
            }
        },
    }
}

fn read_record(j: &Json) -> (r: Option<MessageRecord>)
    ensures
        (match r {
            Some(m) => Some(m@),
            None => None,
        }) == record_in(j@),
{
    if !records::is_shaped(j, 7, 8) {
        return None;
    }
    let message_id = records::read_optional_text(records::get_field(j, "message_id", 0));
    let msg_type = records::read_optional_text(records::get_field(j, "msg_type", 1));
    let create_time = records::read_optional_text(records::get_field(j, "create_time", 2));
    let content = records::read_optional_text(records::get_field(j, "content", 3));
    let deleted = records::read_optional_flag(records::get_field(j, "deleted", 4));
    let link = records::read_optional_text(records::get_field(j, "message_app_link", 5));
    let sender = read_sender(records::get_field(j, "sender", 6));
    let chat_id = records::read_optional_text(records::get_field(j, "chat_id", 7));
    match (message_id, msg_type, create_time, content, deleted, link, sender, chat_id) {
        (
            Some(message_id),
            Some(msg_type),
            Some(create_time),
            Some(content),
            Some(deleted),
            Some(message_app_link),
            Some(sender),
            Some(chat_id),
        ) => Some(
            MessageRecord {
                message_id,
                msg_type,
                create_time,
                content,
                deleted,
                message_app_link,
                sender,
                chat_id,
            },
        ),
        _ => None,
    }
}

/// The messages that the values of a list give; those that give none are left out.
pub open spec fn records_in(a: Seq<json::Tree>) -> Seq<RecordView>
    decreases a.len(),
{
    if a.len() == 0 {
        seq![]
    } else {
        let before = records_in(a.drop_last());
        match record_in(a.last()) {
            Some(m) => before.push(m),
            None => before,
        }
    }
}

/// The first of two values that there is.
pub open spec fn first_some(a: Option<json::Tree>, b: Option<json::Tree>) -> Option<json::Tree> {
    if a is Some {
        a
    } else {
        b
    }
}

/// The member of a member.
pub open spec fn nested(t: json::Tree, outer: Seq<char>, inner: Seq<char>) -> Option<json::Tree> {
    match t.get(outer) {
        Some(d) => d.get(inner),
        None => None,
    }
}

/// The messages of an answer: those under `data.messages`, else those under `messages`.
pub open spec fn messages_in(t: json::Tree) -> Seq<RecordView> {
    match first_some(nested(t, "data"@, "messages"@), t.get("messages"@)) {
        Some(json::Tree::Array(a)) => records_in(a),
        _ => seq![],
    }
}

fn get_nested<'a>(j: &'a Json, outer: &str, inner: &str) -> (r: Option<&'a Json>)
    ensures
        records::opt_view(r) == nested(j@, outer@, inner@),
{
    match j.get(outer) {
        Some(d) => d.get(inner),
        None => None,
    }
}

/// The messages of an answer.
pub fn parse_messages(raw: &Json) -> (r: Vec<MessageRecord>)
    ensures
        record_views(r@) == messages_in(raw@),
{
    let mut out: Vec<MessageRecord> = Vec::new();
    let found = match get_nested(raw, "data", "messages") {
        Some(j) => Some(j),
        None => raw.get("messages"),
    };
    assert(record_views(out@) =~= seq![]);
    match found {
        Some(j) => match j.as_array() {
            Some(a) => {
                let ghost all = json::trees(a@);
                let mut i: usize = 0;
                assert(all.take(0) =~= Seq::<json::Tree>::empty());
                while i < a.len()
                    invariant
                        i <= a@.len(),
                        all == json::trees(a@),
                        record_views(out@) == records_in(all.take(i as int)),
                    decreases a@.len() - i,
                {
                    assert(all.take(i + 1).drop_last() =~= all.take(i as int));
                    assert(all.take(i + 1).last() == a@[i as int]@);
                    match read_record(&a[i]) {
                        Some(m) => {
                            let ghost before = record_views(out@);
                            out.push(m);
                            assert(record_views(out@) =~= before.push(m@));
                        },
                        None => {},
                    }
                    i += 1;
                }
                assert(all.take(i as int) =~= all);
            },
            None => {},
        },
        None => {},
    }
    out
}

/// A chat in Lark's list of chats.
pub struct ChatRow {
    pub chat_id: String,
    pub name: Option<String>,
}

/// A chat: id and name.
pub type ChatView = (Seq<char>, Option<Seq<char>>);

impl View for ChatRow {
    type V = ChatView;

    open spec fn view(&self) -> ChatView {
        (self.chat_id@, text::opt_text(self.name))
    }
}

/// What the chats of a list are.
pub open spec fn chat_views(v: Seq<ChatRow>) -> Seq<ChatView> {
    Seq::new(v.len(), |i: int| v[i]@)
}

/// The chat that a value gives. An id that is missing is empty.
pub open spec fn chat_in(t: json::Tree) -> Option<ChatView> {
    let id = match records::field(t, "chat_id"@, 0) {
        None => Some(Seq::<char>::empty()),
        f => records::required_text(f),
    };
    if !records::shaped(t, 0, 2) {
        None
    } else {
        match (id, records::optional_text(records::field(t, "name"@, 1))) {
            (Some(id), Some(name)) => Some((id, name)),
            _ => None,
        }
    }
}

/// The chats that the values of a list give, those with an id.
pub open spec fn chats_in_list(a: Seq<json::Tree>) -> Seq<ChatView>
    decreases a.len(),
{
    if a.len() == 0 {
        seq![]
    } else {
        let before = chats_in_list(a.drop_last());
        match chat_in(a.last()) {
            Some(c) => if c.0.len() > 0 {
                before.push(c)
            } else {
                before
            },
            None => before,
        }
    }
}

/// The chats of an answer, under whichever of its four names.
pub open spec fn chats_in(t: json::Tree) -> Seq<ChatView> {
    match first_some(
        first_some(nested(t, "data"@, "items"@), nested(t, "data"@, "chats"@)),
        first_some(t.get("items"@), t.get("chats"@)),
    ) {
        Some(json::Tree::Array(a)) => chats_in_list(a),
        _ => seq![],
    }
}

fn read_chat(j: &Json) -> (r: Option<ChatRow>)
    ensures
        (match r {
            Some(c) => Some(c@),
            None => None,
        }) == chat_in(j@),
{
    if !records::is_shaped(j, 0, 2) {
        return None;
    }
    let id = match records::get_field(j, "chat_id", 0) {
        None => Some(String::new()),
        Some(f) => records::read_required_text(Some(f)),
    };
    match (id, records::read_optional_text(records::get_field(j, "name", 1))) {
        (Some(chat_id), Some(name)) => Some(ChatRow { chat_id, name }),
        _ => None,
    }
}

/// The chats of an answer.
pub fn parse_chat_list(raw: &Json) -> (r: Vec<ChatRow>)
    ensures
        chat_views(r@) == chats_in(raw@),
{
    let mut out: Vec<ChatRow> = Vec::new();
    let found = match get_nested(raw, "data", "items") {
        Some(j) => Some(j),
        None => match get_nested(raw, "data", "chats") {
            Some(j) => Some(j),
            None => match raw.get("items") {
                Some(j) => Some(j),
                None => raw.get("chats"),
            },
        },
    };
    assert(chat_views(out@) =~= seq![]);
    match found {
        Some(j) => match j.as_array() {
            Some(a) => {
                let ghost all = json::trees(a@);
                let mut i: usize = 0;
                assert(all.take(0) =~= Seq::<json::Tree>::empty());
                while i < a.len()
                    invariant
                        i <= a@.len(),
                        all == json::trees(a@),
                        chat_views(out@) == chats_in_list(all.take(i as int)),
                    decreases a@.len() - i,
                {
                    assert(all.take(i + 1).drop_last() =~= all.take(i as int));
                    assert(all.take(i + 1).last() == a@[i as int]@);
                    match read_chat(&a[i]) {
                        Some(c) => {
                            if !c.chat_id.as_str().is_empty() {
                                let ghost before = chat_views(out@);
                                out.push(c);
                                assert(chat_views(out@) =~= before.push(c@));
                            }
                        },
                        None => {},
                    }
                    i += 1;
                }
                assert(all.take(i as int) =~= all);
            },
            None => {},
        },
        None => {},
    }
    out
}

// ---------------------------------------------------------------------------
// Conversations
// ---------------------------------------------------------------------------

/// A chat of the list of chats as a conversation.
pub open spec fn group_of(c: ChatView) -> types::ConvView {
    types::ConvView {
        id: c.0,
        label: c.1,
        kind: ImConversationKind::Channel,
        raw: json::Tree::Null,
    }
}

/// A chat of the list of chats as a conversation.
pub fn to_im_conversation(row: ChatRow) -> (r: ImConversation)
    ensures
        r@ == group_of(row@),
{
    ImConversation {
        id: row.chat_id,
        label: row.name,
        kind: ImConversationKind::Channel,
        raw: Json::Null,
    }
}

/// A text that is there and says something.
pub open spec fn spoken(s: Option<Seq<char>>) -> Option<Seq<char>> {
    match s {
        Some(t) => if t.len() > 0 {
            Some(t)
        } else {
            None
        },
        None => None,
    }
}

/// The name of the other person, where the message is not the user's own.
pub open spec fn label_of(sender: Option<SenderView>, me: Seq<char>) -> Option<Seq<char>> {
    match sender {
        Some((id, name)) => if id == Some(me) {
            None
        } else {
            spoken(name)
        },
        None => None,
    }
}

/// The name of the other person, where the message is not the user's own.
pub fn label_from_sender(sender: &Option<SenderRecord>, my_open_id: &str) -> (r: Option<String>)
    ensures
        text::opt_text(r) == label_of(opt_sender(*sender), my_open_id@),
{
    match sender {
        Some(s) => {
            match &s.id {
                Some(id) => {
                    if text::same(id.as_str(), my_open_id) {
                        return None;
                    }
                },
                None => {},
            }
            match &s.name {
                Some(n) => if n.as_str().is_empty() {
                    None
                } else {
                    Some(n.clone())
                },
                None => None,
            }
        },
        None => None,
    }
}

/// The ids of the chats that messages belong to, none twice, in the order in which they
/// first come up behind those known before.
pub open spec fn ids_after(known: Seq<Seq<char>>, recs: Seq<RecordView>) -> Seq<Seq<char>>
    decreases recs.len(),
{
    if recs.len() == 0 {
        known
    } else {
        let before = ids_after(known, recs.drop_last());
        match spoken(recs.last().chat_id) {
            Some(id) => if before.contains(id) {
                before
            } else {
                before.push(id)
            },
            None => before,
        }
    }
}

/// Adds the ids of the chats that the messages of an answer belong to.
pub fn collect_chat_ids(raw: &Json, sink: &mut Vec<String>)
    ensures
        text::texts(final(sink)@) == ids_after(text::texts(old(sink)@), messages_in(raw@)),
{
    let recs = parse_messages(raw);
    let ghost known = text::texts(sink@);
    let ghost all = record_views(recs@);
    let mut i: usize = 0;
    assert(all.take(0) =~= Seq::<RecordView>::empty());
    while i < recs.len()
        invariant
            i <= recs@.len(),
            all == record_views(recs@),
            text::texts(sink@) == ids_after(known, all.take(i as int)),
        decreases recs@.len() - i,
    {
        assert(all.take(i + 1).drop_last() =~= all.take(i as int));
        assert(all.take(i + 1).last() == recs@[i as int]@);
        match &recs[i].chat_id {
            Some(id) => {
                if !id.as_str().is_empty() && !text::is_among(id.as_str(), sink) {
                    let ghost before = text::texts(sink@);
                    sink.push(id.clone());
                    assert(text::texts(sink@) =~= before.push(id@));
                }
            },
            None => {},
        }
        i += 1;
    }
    assert(all.take(i as int) =~= all);
}

/// What the conversations of a list are.
pub open spec fn conv_views(v: Seq<ImConversation>) -> Seq<types::ConvView> {
    Seq::new(v.len(), |i: int| v[i]@)
}

/// The first conversation with the id.
pub open spec fn conv_with_id(convs: Seq<types::ConvView>, id: Seq<char>) -> Option<int>
    decreases convs.len(),
{
    if convs.len() == 0 {
        None
    } else if convs[0].id == id {
        Some(0)
    } else {
        match conv_with_id(convs.drop_first(), id) {
            Some(i) => Some(i + 1),
            None => None,
        }
    }
}

/// What is remembered of a conversation that was found by searching messages.
pub open spec fn searched_raw() -> json::Tree {
    json::Tree::Object(
        seq![("discovered_from"@, json::Tree::Text("messages_search_p2p"@))],
    )
}

/// The conversations once a message was looked at: one that is new is added, and one
/// without a label takes the other person's name.
pub open spec fn dms_with(
    convs: Seq<types::ConvView>,
    rec: RecordView,
    me: Seq<char>,
) -> Seq<types::ConvView> {
    match spoken(rec.chat_id) {
        None => convs,
        Some(id) => match conv_with_id(convs, id) {
            None => convs.push(
                types::ConvView {
                    id,
                    label: label_of(rec.sender, me),
                    kind: ImConversationKind::Dm,
                    raw: searched_raw(),
                },
            ),
            Some(i) => if convs[i].label is None && label_of(rec.sender, me) is Some {
                convs.update(i, types::ConvView { label: label_of(rec.sender, me), ..convs[i] })
            } else {
                convs
            },
        },
    }
}

/// The conversations between two people that messages belong to.
pub open spec fn dms_of(recs: Seq<RecordView>, me: Seq<char>) -> Seq<types::ConvView>
    decreases recs.len(),
{
    if recs.len() == 0 {
        seq![]
    } else {
        dms_with(dms_of(recs.drop_last(), me), recs.last(), me)
    }
}

fn find_conv(convs: &Vec<ImConversation>, id: &str) -> (r: Option<usize>)
    ensures
        match r {
            Some(i) => conv_with_id(conv_views(convs@), id@) == Some(i as int) && i < convs@.len(),
            None => conv_with_id(conv_views(convs@), id@) is None,
        },
{
    let ghost all = conv_views(convs@);
    let mut i: usize = 0;
    assert(all.skip(0) =~= all);
    while i < convs.len()
        invariant
            i <= convs@.len(),
            all == conv_views(convs@),
            conv_with_id(all, id@) == (match conv_with_id(all.skip(i as int), id@) {
                Some(k) => Some(k + i),
                None => None,
            }),
        decreases convs@.len() - i,
    {
        assert(all.skip(i as int)[0] == convs@[i as int]@);
        assert(all.skip(i as int).drop_first() =~= all.skip(i + 1));
        if text::same(convs[i].id.as_str(), id) {
            return Some(i);
        }
        i += 1;
    }
    None
}

fn note_dm(out: &mut Vec<ImConversation>, rec: &MessageRecord, my_open_id: &str)
    ensures
        conv_views(final(out)@) == dms_with(conv_views(old(out)@), rec@, my_open_id@),
{
    let ghost before = conv_views(out@);
    match &rec.chat_id {
        Some(id) => {
            if id.as_str().is_empty() {
                return;
            }
            let label = label_from_sender(&rec.sender, my_open_id);
            match find_conv(out, id.as_str()) {
                None => {
                    let mut members: Vec<(String, Json)> = Vec::new();
                    members.push(
                        ("discovered_from".to_string(), Json::text("messages_search_p2p")),
                    );
                    let raw = Json::object(members);
                    assert(raw@->Object_0 =~= searched_raw()->Object_0);
                    let conv = ImConversation {
                        id: id.clone(),
                        label,
                        kind: ImConversationKind::Dm,
                        raw,
                    };
                    out.push(conv);
                    assert(conv_views(out@) =~= before.push(conv@));
                },
                Some(i) => {
                    assert(before[i as int] == out@[i as int]@);
                    if out[i].label.is_none() && label.is_some() {
                        let conv = ImConversation {
                            id: out[i].id.clone(),
                            label,
                            kind: out[i].kind,
                            raw: out[i].raw.copy(),
                        };
                        out.set(i, conv);
                        assert(conv@ =~= types::ConvView {
                            label: label_of(rec@.sender, my_open_id@),
                            ..before[i as int]
                        });
                        assert(conv_views(out@) =~= before.update(i as int, conv@));
                    }
                },
            }
        },
        None => {},
    }
}

/// One conversation for each chat between two people, labelled with the other person's
/// name.
pub fn build_dm_conversations(raw: &Json, my_open_id: &str) -> (r: Vec<ImConversation>)
    ensures
        conv_views(r@) == dms_of(messages_in(raw@), my_open_id@),
{
    let recs = parse_messages(raw);
    let ghost all = record_views(recs@);
    let mut out: Vec<ImConversation> = Vec::new();
    let mut i: usize = 0;
    assert(all.take(0) =~= Seq::<RecordView>::empty());
    assert(conv_views(out@) =~= seq![]);
    while i < recs.len()
        invariant
            i <= recs@.len(),
            all == record_views(recs@),
            conv_views(out@) == dms_of(all.take(i as int), my_open_id@),
        decreases recs@.len() - i,
    {
        assert(all.take(i + 1).drop_last() =~= all.take(i as int));
        assert(all.take(i + 1).last() == recs@[i as int]@);
        note_dm(&mut out, &recs[i], my_open_id);
        i += 1;
    }
    assert(all.take(i as int) =~= all);
    out
}

/// The groups among the chats that the user is involved in.
pub open spec fn involved_groups(
    chats: Seq<ChatView>,
    involved: Seq<Seq<char>>,
) -> Seq<types::ConvView>
    decreases chats.len(),
{
    if chats.len() == 0 {
        seq![]
    } else {
        let before = involved_groups(chats.drop_last(), involved);
        if involved.contains(chats.last().0) {
            before.push(group_of(chats.last()))
        } else {
            before
        }
    }
}

/// The conversations to look at: those between two people first, so that they survive a
/// cut, then the groups that the user is involved in.
pub open spec fn discovered(
    sent: json::Tree,
    mentions: json::Tree,
    p2p: json::Tree,
    chats: json::Tree,
    me: Seq<char>,
) -> Seq<types::ConvView> {
    let involved = ids_after(ids_after(seq![], messages_in(sent)), messages_in(mentions));
    dms_of(messages_in(p2p), me) + involved_groups(chats_in(chats), involved)
}

/// The conversations to look at, out of Lark's four answers: messages that the user sent,
/// messages that mention the user, messages between two people, and the list of chats.
pub fn merge_discovery(
    sent: &Json,
    mentions: &Json,
    p2p: &Json,
    raw_chats: &Json,
    my_open_id: &str,
) -> (r: Vec<ImConversation>)
    ensures
        conv_views(r@) == discovered(sent@, mentions@, p2p@, raw_chats@, my_open_id@),
{
    let mut involved: Vec<String> = Vec::new();
    assert(text::texts(involved@) =~= seq![]);
    collect_chat_ids(sent, &mut involved);
    collect_chat_ids(mentions, &mut involved);
    let mut out = build_dm_conversations(p2p, my_open_id);
    let ghost dms = conv_views(out@);
    let chats = parse_chat_list(raw_chats);
    let ghost given = chats@;
    let ghost all = chat_views(given);
    let ghost ids = text::texts(involved@);
    assert(all.take(0) =~= Seq::<ChatView>::empty());
    assert(dms + involved_groups(all.take(0), ids) =~= dms);
    for c in it: chats
        invariant
            it.seq() == given,
            all == chat_views(given),
            ids == text::texts(involved@),
            conv_views(out@) == dms + involved_groups(all.take(it.index() as int), ids),
    {
        let ghost k = it.index() as int;
        assert(c == given[k]);
        assert(all.take(k + 1).drop_last() =~= all.take(k));
        assert(all.take(k + 1).last() == c@);
        if text::is_among(c.chat_id.as_str(), &involved) {
            let ghost before = conv_views(out@);
            let conv = to_im_conversation(c);
            out.push(conv);
            assert(conv_views(out@) =~= before.push(conv@));
            assert(conv_views(out@) =~= dms + involved_groups(all.take(k + 1), ids));
        }
    }
    assert(all.take(all.len() as int) =~= all);
    out
}

/// A search for messages.
pub struct MessagesSearch {
    pub sender: Option<String>,
    pub chat_type: Option<String>,
    pub is_at_me: bool,
    pub start: String,
    pub page_size: u32,
}

/// The three searches by which conversations are found: messages that the user sent,
/// messages that mention the user, and messages between two people.
pub fn discovery_searches(my_open_id: &str, now: Timestamp) -> (r: (
    MessagesSearch,
    MessagesSearch,
    MessagesSearch,
))
    requires
        now.wf(),
        time::MIN_SECS <= now.secs - fetcher::COLD_START_DAYS * time::DAY,
    ensures
        ({
            let start = time::stamp_of(
                now.earlier_by((fetcher::COLD_START_DAYS * time::DAY) as i64),
            );
            &&& text::opt_text(r.0.sender) == Some(my_open_id@) && r.0.chat_type is None
                && !r.0.is_at_me
            &&& r.1.sender is None && r.1.chat_type is None && r.1.is_at_me
            &&& r.2.sender is None && text::opt_text(r.2.chat_type) == Some("p2p"@)
                && !r.2.is_at_me
            &&& r.0.start@ == start && r.1.start@ == start && r.2.start@ == start
            &&& r.0.page_size == DISCOVERY_PAGE_SIZE && r.1.page_size == DISCOVERY_PAGE_SIZE
                && r.2.page_size == DISCOVERY_PAGE_SIZE
        }),
{
    let start = time::format_rfc3339(fetcher::cold_start_cutoff(now));
    (
        MessagesSearch {
            sender: Some(my_open_id.to_string()),
            chat_type: None,
            is_at_me: false,
            start: start.clone(),
            page_size: DISCOVERY_PAGE_SIZE,
        },
        MessagesSearch {
            sender: None,
            chat_type: None,
            is_at_me: true,
            start: start.clone(),
            page_size: DISCOVERY_PAGE_SIZE,
        },
        MessagesSearch {
            sender: None,
            chat_type: Some("p2p".to_string()),
            is_at_me: false,
            start,
            page_size: DISCOVERY_PAGE_SIZE,
        },
    )
}

/// The page size by which messages of a conversation are asked for.
pub fn page_size(limit: usize) -> (r: u32)
    ensures
        r == (if limit > u32::MAX as int {
            u32::MAX as int
        } else {
            limit as int
        }),
{
    if limit as u64 > u32::MAX as u64 {
        u32::MAX
    } else {
        limit as u32
    }
}

// ---------------------------------------------------------------------------
// Messages
// ---------------------------------------------------------------------------

/// The instant that Lark's milliseconds tell.
pub open spec fn create_time_of(raw: Option<Seq<char>>) -> Option<Timestamp> {
    match raw {
        Some(s) => match numbers::i64_of(s) {
            Some(ms) => Timestamp::of_millis(ms),
            None => None,
        },
        None => None,
    }
}

/// The instant that Lark's milliseconds tell.
pub fn parse_create_time(raw: Option<&str>) -> (r: Option<Timestamp>)
    ensures
        r == create_time_of(text::opt_str(raw)),
        r matches Some(t) ==> t.wf(),
{
    match raw {
        Some(s) => match numbers::parse_i64(s) {
            Some(ms) => Timestamp::from_millis(ms),
            None => None,
        },
        None => None,
    }
}

/// The stem of an image's file: its key with `]` for every separator, so that the file lies
/// right in the staging directory. No key of a message holds a `]`, so the files of two keys
/// are never the same.
pub open spec fn image_stem(key: Seq<char>) -> Seq<char> {
    Seq::new(
        key.len(),
        |i: int|
            if key[i] == '/' {
                ']'
            } else {
                key[i]
            },
    )
}

/// The stem of an image's file.
pub fn stem_for_key(key: &str) -> (r: String)
    ensures
        r@ == image_stem(key@),
{
    let v = text::chars_of(key);
    let mut out = String::new();
    let mut i: usize = 0;
    assert(out@ =~= image_stem(key@).take(0));
    while i < v.len()
        invariant
            v@ == key@,
            i <= v@.len(),
            out@ == image_stem(key@).take(i as int),
        decreases v@.len() - i,
    {
        if v[i] == '/' {
            out.push(']');
        } else {
            out.push(v[i]);
        }
        i += 1;
        assert(out@ =~= image_stem(key@).take(i as int));
    }
    assert(out@ =~= image_stem(key@));
    out
}

/// An image that a message refers to, before it was fetched.
pub open spec fn placeholder_of(key: Seq<char>) -> types::AttachmentView {
    types::AttachmentView {
        filename: image_stem(key) + ".bin"@,
        local_path: seq![],
        mime_type: None,
        bytes: 0,
        alt: Some(key),
    }
}

/// The images that the text refers to as `[Image: <key>]`. A reference that is not closed ends the search; an empty one is passed over.
pub open spec fn placeholders_in(s: Seq<char>) -> Seq<types::AttachmentView>
    decreases s.len(),
{
    match text::first_at(s, "[Image:"@, 0) {
        None => seq![],
        Some(i) => if 0 <= i && i + 7 <= s.len() {
            let body = pieces::trimmed_start(s.skip(i + 7));
            match text::first_at(body, seq![']'], 0) {
                None => seq![],
                Some(end) => if 0 <= end < body.len() <= s.len() - 7 {
                    let key = pieces::trimmed(body.take(end));
                    let rest = placeholders_in(body.skip(end + 1));
                    if key.len() > 0 {
                        seq![placeholder_of(key)] + rest
                    } else {
                        rest
                    }
                } else {
                    seq![]
                },
            }
        } else {
            seq![]
        },
    }
}

/// The images that the text refers to.
pub fn extract_attachment_placeholders(s: &str) -> (r: Vec<ImAttachment>)
    ensures
        types::attachment_views(r@) == placeholders_in(s@),
{
    let mut out: Vec<ImAttachment> = Vec::new();
    let mut cursor = s.to_string();
    assert(types::attachment_views(out@) + placeholders_in(s@) =~= placeholders_in(s@));
    loop
        invariant
            types::attachment_views(out@) + placeholders_in(cursor@) == placeholders_in(s@),
        decreases cursor@.len(),
    {
        let ghost before = types::attachment_views(out@);
        proof {
            reveal_strlit("[Image:");
            text::lemma_first_at(cursor@, "[Image:"@, 0);
        }
        let rest = match pieces::split_once(cursor.as_str(), "[Image:") {
            Some((_, rest)) => rest,
            None => {
                assert(before + Seq::<types::AttachmentView>::empty() =~= before);
                return out;
            },
        };
        let body = pieces::trim_start(rest.as_str());
        proof {
            reveal_strlit("]");
            assert("]"@ =~= seq![']']);
            text::lemma_first_at(body@, seq![']'], 0);
            lemma_trimmed_start_shorter(rest@);
        }
        let (inner, tail) = match pieces::split_once(body.as_str(), "]") {
            Some(p) => p,
            None => {
                assert(before + Seq::<types::AttachmentView>::empty() =~= before);
                return out;
            },
        };
        let key = pieces::trim(inner.as_str());
        if !key.as_str().is_empty() {
            let mut filename = stem_for_key(key.as_str());
            filename.append(".bin");
            let a = ImAttachment {
                filename,
                local_path: String::new(),
                mime_type: None,
                bytes: 0,
                alt: Some(key),
            };
            out.push(a);
            proof {
                assert(a@ == placeholder_of(key@));
                assert(types::attachment_views(out@) =~= before.push(a@));
                assert(before + (seq![a@] + placeholders_in(tail@)) =~= types::attachment_views(
                    out@,
                ) + placeholders_in(tail@));
            }
        }
        cursor = tail;
    }
}

proof fn lemma_trimmed_start_shorter(s: Seq<char>)
    ensures
        pieces::trimmed_start(s).len() <= s.len(),
    decreases s.len(),
{
    if s.len() > 0 && pieces::white(s[0]) {
        lemma_trimmed_start_shorter(s.drop_first());
    }
}

/// What is remembered of a message: its type.
pub open spec fn type_raw(msg_type: Option<Seq<char>>) -> json::Tree {
    json::Tree::Object(seq![("msg_type"@, json::opt_tree(msg_type))])
}

/// The message of a record. One without an id, or one that was taken back, gives none; one
/// whose time cannot be read counts as of now.
pub open spec fn message_of(m: RecordView, now: Timestamp) -> Option<types::MessageView> {
    match m.message_id {
        None => None,
        Some(id) => if m.deleted == Some(true) {
            None
        } else {
            let body = match m.content {
                Some(c) => c,
                None => seq![],
            };
            Some(
                types::MessageView {
                    id,
                    timestamp: match create_time_of(m.create_time) {
                        Some(t) => t,
                        None => now,
                    },
                    sender: match m.sender {
                        Some((sid, name)) => if name is Some {
                            name
                        } else {
                            sid
                        },
                        None => None,
                    },
                    text: body,
                    external_url: m.message_app_link,
                    deleted: false,
                    attachments: placeholders_in(body),
                    raw: type_raw(m.msg_type),
                },
            )
        },
    }
}

/// The message of a record.
pub fn to_im_message(m: MessageRecord, now: Timestamp) -> (r: Option<ImMessage>)
    requires
        now.wf(),
    ensures
        match r {
            Some(msg) => message_of(m@, now) == Some(msg@) && msg.timestamp.wf(),
            None => message_of(m@, now) is None,
        },
{
    let ghost rec = m@;
    let id = match m.message_id {
        Some(id) => id,
        None => {
            return None;
        },
    };
    match m.deleted {
        Some(true) => {
            return None;
        },
        _ => {},
    }
    let timestamp = match &m.create_time {
        Some(s) => match parse_create_time(Some(s.as_str())) {
            Some(t) => t,
            None => now,
        },
        None => now,
    };
    let sender = match m.sender {
        Some(s) => match s.name {
            Some(n) => Some(n),
            None => s.id,
        },
        None => None,
    };
    let body = match m.content {
        Some(c) => c,
        None => String::new(),
    };
    let attachments = extract_attachment_placeholders(body.as_str());
    let mut members: Vec<(String, Json)> = Vec::new();
    members.push(("msg_type".to_string(), Json::text_or_null(&m.msg_type)));
    let raw = Json::object(members);
    assert(raw@->Object_0 =~= type_raw(rec.msg_type)->Object_0);
    let msg = ImMessage {
        id,
        timestamp,
        sender,
        text: body,
        external_url: m.message_app_link,
        deleted: false,
        attachments,
        raw,
    };
    assert(msg@ =~= message_of(rec, now)->0);
    Some(msg)
}

/// The messages of the records that give one.
pub open spec fn messages_of(recs: Seq<RecordView>, now: Timestamp) -> Seq<types::MessageView>
    decreases recs.len(),
{
    if recs.len() == 0 {
        seq![]
    } else {
        let before = messages_of(recs.drop_last(), now);
        match message_of(recs.last(), now) {
            Some(m) => before.push(m),
            None => before,
        }
    }
}

/// The messages of an answer, before their images were fetched.
pub fn messages_from(raw: &Json, now: Timestamp) -> (r: Vec<ImMessage>)
    requires
        now.wf(),
    ensures
        types::message_views(r@) == messages_of(messages_in(raw@), now),
        forall|i: int| 0 <= i < r@.len() ==> (#[trigger] r@[i]).timestamp.wf(),
{
    let recs = parse_messages(raw);
    let ghost given = recs@;
    let ghost all = record_views(given);
    let mut out: Vec<ImMessage> = Vec::new();
    assert(all.take(0) =~= Seq::<RecordView>::empty());
    assert(types::message_views(out@) =~= seq![]);
    for m in it: recs
        invariant
            now.wf(),
            it.seq() == given,
            all == record_views(given),
            types::message_views(out@) == messages_of(all.take(it.index() as int), now),
            forall|i: int| 0 <= i < out@.len() ==> (#[trigger] out@[i]).timestamp.wf(),
    {
        let ghost k = it.index() as int;
        assert(m == given[k]);
        assert(all.take(k + 1).drop_last() =~= all.take(k));
        assert(all.take(k + 1).last() == m@);
        match to_im_message(m, now) {
            Some(msg) => {
                let ghost before = types::message_views(out@);
                out.push(msg);
                assert(types::message_views(out@) =~= before.push(msg@));
            },
            None => {},
        }
    }
    assert(all.take(all.len() as int) =~= all);
    out
}

// ---------------------------------------------------------------------------
// Blocks
// ---------------------------------------------------------------------------

/// The type that a heading shows: any but plain text.
pub open spec fn shown_type(raw: json::Tree) -> Option<Seq<char>> {
    match raw.text_at("msg_type"@) {
        Some(t) => if t.len() > 0 && t != "text"@ {
            Some(t)
        } else {
            None
        },
        None => None,
    }
}

/// The id part of a heading.
pub open spec fn id_part_of(m: types::MessageView) -> Seq<char> {
    match shown_type(m.raw) {
        Some(kind) => m.id + " · "@ + kind,
        None => m.id,
    }
}

/// The backend of Lark.
pub struct LarkBackend;

impl ImBackend for LarkBackend {
    open spec fn name(&self) -> Seq<char> {
        SOURCE@
    }

    open spec fn block_of(&self, conv: types::ConvView, msg: types::MessageView) -> Seq<char> {
        blocks::block_with(msg, id_part_of(msg))
    }

    fn source(&self) -> (r: String) {
        SOURCE.to_string()
    }

    fn render_message_block(&self, _conv: &ImConversation, msg: &ImMessage) -> (r: String)
        ensures
            blocks::storable(msg@, id_part_of(msg@)) ==> blocks::parsed_block(r@) == Some(
                blocks::recovered(msg@),
            ),
    {
        let mut id_part = msg.id.clone();
        match msg.raw.text_at("msg_type") {
            Some(kind) => {
                if !kind.is_empty() && !text::same(kind, "text") {
                    id_part.append(" · ");
                    id_part.append(kind);
                }
            },
            None => {},
        }
        let r = blocks::write_block(msg, id_part.as_str());
        proof {
            if blocks::storable(msg@, id_part_of(msg@)) {
                blocks::lemma_block_reads_back(msg@, id_part_of(msg@), Seq::empty());
                assert(r@ + Seq::<char>::empty() =~= r@);
            }
        }
        r
    }
}

// ---------------------------------------------------------------------------
// Images
// ---------------------------------------------------------------------------

/// The bytes begin with the others.
pub open spec fn headed(b: Seq<u8>, head: Seq<u8>) -> bool {
    head.len() <= b.len() && b.take(head.len() as int) == head
}

/// The kind of image that a file's first bytes tell.
pub open spec fn image_kind(b: Seq<u8>) -> Option<Seq<char>> {
    if headed(b, seq![0x89u8, 0x50, 0x4e, 0x47]) {
        Some("image/png"@)
    } else if headed(b, seq![0xffu8, 0xd8, 0xff]) {
        Some("image/jpeg"@)
    } else if headed(b, seq![0x47u8, 0x49, 0x46, 0x38, 0x37, 0x61]) || headed(
        b,
        seq![0x47u8, 0x49, 0x46, 0x38, 0x39, 0x61],
    ) {
        Some("image/gif"@)
    } else if b.len() >= 12 && headed(b, seq![0x52u8, 0x49, 0x46, 0x46]) && headed(
        b.skip(8),
        seq![0x57u8, 0x45, 0x42, 0x50],
    ) {
        Some("image/webp"@)
    } else if headed(b, seq![0x42u8, 0x4d]) {
        Some("image/bmp"@)
    } else {
        None
    }
}

fn bytes_at(b: &[u8], at: usize, head: &Vec<u8>) -> (r: bool)
    requires
        at <= b@.len(),
    ensures
        r == headed(b@.skip(at as int), head@),
{
    if b.len() - at < head.len() {
        return false;
    }
    let mut i: usize = 0;
    while i < head.len()
        invariant
            i <= head@.len(),
            at + head.len() <= b.len(),
            forall|k: int| 0 <= k < i ==> b@[at + k] == head@[k],
        decreases head@.len() - i,
    {
        if b[at + i] != head[i] {
            assert(b@.skip(at as int).take(head@.len() as int)[i as int] != head@[i as int]);
            return false;
        }
        i += 1;
    }
    assert(b@.skip(at as int).take(head@.len() as int) =~= head@);
    true
}

/// The kind of image that a file's first bytes tell.
pub fn sniff_image_mime(head: &[u8]) -> (r: Option<&'static str>)
    ensures
        text::opt_str(r) == image_kind(head@),
{
    let png: Vec<u8> = vec![0x89, 0x50, 0x4e, 0x47];
    let jpeg: Vec<u8> = vec![0xff, 0xd8, 0xff];
    let gif87: Vec<u8> = vec![0x47, 0x49, 0x46, 0x38, 0x37, 0x61];
    let gif89: Vec<u8> = vec![0x47, 0x49, 0x46, 0x38, 0x39, 0x61];
    let riff: Vec<u8> = vec![0x52, 0x49, 0x46, 0x46];
    let webp: Vec<u8> = vec![0x57, 0x45, 0x42, 0x50];
    let bmp: Vec<u8> = vec![0x42, 0x4d];
    proof {
        assert(head@.skip(0) =~= head@);
        assert(png@ =~= seq![0x89u8, 0x50, 0x4e, 0x47]);
        assert(jpeg@ =~= seq![0xffu8, 0xd8, 0xff]);
        assert(gif87@ =~= seq![0x47u8, 0x49, 0x46, 0x38, 0x37, 0x61]);
        assert(gif89@ =~= seq![0x47u8, 0x49, 0x46, 0x38, 0x39, 0x61]);
        assert(riff@ =~= seq![0x52u8, 0x49, 0x46, 0x46]);
        assert(webp@ =~= seq![0x57u8, 0x45, 0x42, 0x50]);
        assert(bmp@ =~= seq![0x42u8, 0x4d]);
    }
    if bytes_at(head, 0, &png) {
        Some("image/png")
    } else if bytes_at(head, 0, &jpeg) {
        Some("image/jpeg")
    } else if bytes_at(head, 0, &gif87) || bytes_at(head, 0, &gif89) {
        Some("image/gif")
    } else if head.len() >= 12 && bytes_at(head, 0, &riff) && bytes_at(head, 8, &webp) {
        Some("image/webp")
    } else if bytes_at(head, 0, &bmp) {
        Some("image/bmp")
    } else {
        None
    }
}

/// The file extension of a media type.
pub open spec fn extension_for(mime: Seq<char>) -> Seq<char> {
    if mime == "image/png"@ {
        ".png"@
    } else if mime == "image/jpeg"@ {
        ".jpg"@
    } else if mime == "image/gif"@ {
        ".gif"@
    } else if mime == "image/webp"@ {
        ".webp"@
    } else if mime == "image/bmp"@ {
        ".bmp"@
    } else {
        ".bin"@
    }
}

/// The file extension of a media type.
pub fn ext_for_mime(mime: &str) -> (r: &'static str)
    ensures
        r@ == extension_for(mime@),
{
    if text::same(mime, "image/png") {
        ".png"
    } else if text::same(mime, "image/jpeg") {
        ".jpg"
    } else if text::same(mime, "image/gif") {
        ".gif"
    } else if text::same(mime, "image/webp") {
        ".webp"
    } else if text::same(mime, "image/bmp") {
        ".bmp"
    } else {
        ".bin"
    }
}

/// An image that was staged before, at the path.
pub open spec fn staged_of(
    a: types::AttachmentView,
    path: Seq<char>,
    bytes: u64,
    head: Seq<u8>,
) -> types::AttachmentView {
    types::AttachmentView {
        filename: match paths::file_name_of(path) {
            Some(n) => n,
            None => a.filename,
        },
        local_path: path,
        mime_type: image_kind(head),
        bytes,
        alt: a.alt,
    }
}

/// An image that was staged before, at the path. `head` holds its first bytes.
pub fn staged_attachment(att: &ImAttachment, path: &str, bytes: u64, head: &[u8]) -> (r:
    ImAttachment)
    ensures
        r@ == staged_of(att@, path@, bytes, head@),
{
    ImAttachment {
        filename: match paths::file_name(path) {
            Some(n) => n,
            None => att.filename.clone(),
        },
        local_path: path.to_string(),
        mime_type: text::owned(sniff_image_mime(head)),
        bytes,
        alt: text::copy_opt(&att.alt),
    }
}

/// The name of a fetched image: its stem with the extension of its kind, or the name that
/// it was fetched under where its kind is not known.
pub open spec fn fetched_name(key: Seq<char>, initial: Seq<char>, head: Seq<u8>) -> Seq<char> {
    match image_kind(head) {
        Some(m) => image_stem(key) + extension_for(m),
        None => initial,
    }
}

/// An image that was fetched into the staging directory.
pub open spec fn fetched_of(
    a: types::AttachmentView,
    key: Seq<char>,
    staging: Seq<char>,
    bytes: u64,
    head: Seq<u8>,
) -> types::AttachmentView {
    types::AttachmentView {
        filename: fetched_name(key, a.filename, head),
        local_path: paths::path_joined(staging, fetched_name(key, a.filename, head)),
        mime_type: image_kind(head),
        bytes,
        alt: a.alt,
    }
}

/// What is done with an image that was fetched.
pub enum Fetched {
    /// The file is empty: it is removed, and the image is left out.
    Remove(String),
    /// The image, renamed first where its path is another than it was fetched to.
    Keep { attachment: ImAttachment, rename_from: Option<String> },
}

/// What is done with an image that was fetched under the attachment's name. `head` holds
/// its first bytes.
pub fn fetched_attachment(
    att: &ImAttachment,
    key: &str,
    staging: &str,
    bytes: u64,
    head: &[u8],
) -> (r: Fetched)
    ensures
        ({
            let raw_path = paths::path_joined(staging@, att@.filename);
            let f = fetched_of(att@, key@, staging@, bytes, head@);
            match r {
                Fetched::Remove(p) => bytes == 0 && p@ == raw_path,
                Fetched::Keep { attachment, rename_from } => {
                    &&& bytes > 0
                    &&& attachment@ == f
                    &&& text::opt_text(rename_from) == if f.local_path == raw_path {
                        None
                    } else {
                        Some(raw_path)
                    }
                },
            }
        }),
{
    let raw_path = paths::path_join(staging, att.filename.as_str());
    if bytes == 0 {
        return Fetched::Remove(raw_path);
    }
    let mime = sniff_image_mime(head);
    let name = match mime {
        Some(m) => {
            let mut n = stem_for_key(key);
            n.append(ext_for_mime(m));
            n
        },
        None => att.filename.clone(),
    };
    let final_path = paths::path_join(staging, name.as_str());
    let rename_from = if text::same(final_path.as_str(), raw_path.as_str()) {
        None
    } else {
        Some(raw_path)
    };
    Fetched::Keep {
        attachment: ImAttachment {
            filename: name,
            local_path: final_path,
            mime_type: text::owned(mime),
            bytes,
            alt: text::copy_opt(&att.alt),
        },
        rename_from,
    }
}

// ---------------------------------------------------------------------------
// Laws
// ---------------------------------------------------------------------------

/// No chat id is collected twice, and collecting adds every chat id that a message names.
pub proof fn law_chat_ids_are_distinct(known: Seq<Seq<char>>, recs: Seq<RecordView>)
    requires
        known.no_duplicates(),
    ensures
        ids_after(known, recs).no_duplicates(),
        forall|id: Seq<char>|
            ids_after(known, recs).contains(id) <==> known.contains(id) || exists|i: int|
                0 <= i < recs.len() && spoken((#[trigger] recs[i]).chat_id) == Some(id),
    decreases recs.len(),
{
    if recs.len() > 0 {
        let front = recs.drop_last();
        law_chat_ids_are_distinct(known, front);
        let before = ids_after(known, front);
        let after = ids_after(known, recs);
        let n = recs.len() - 1;
        assert forall|id: Seq<char>| after.contains(id) <==> known.contains(id) || exists|i: int|
            0 <= i < recs.len() && spoken((#[trigger] recs[i]).chat_id) == Some(id) by {
            if after.contains(id) {
                let k = choose|k: int| 0 <= k < after.len() && after[k] == id;
                if k < before.len() {
                    assert(before[k] == id);
                    assert(before.contains(id));
                    if !known.contains(id) {
                        let i = choose|i: int|
                            0 <= i < front.len() && spoken((#[trigger] front[i]).chat_id) == Some(
                                id,
                            );
                        assert(recs[i] == front[i]);
                    }
                } else {
                    assert(spoken(recs[n].chat_id) == Some(id));
                }
            }
            if known.contains(id) || exists|i: int|
                0 <= i < recs.len() && spoken((#[trigger] recs[i]).chat_id) == Some(id) {
                if !before.contains(id) {
                    assert(!known.contains(id));
                    let i = choose|i: int|
                        0 <= i < recs.len() && spoken((#[trigger] recs[i]).chat_id) == Some(id);
                    if i < n {
                        assert(front[i] == recs[i]);
                        assert(before.contains(id));
                    }
                    assert(after == before.push(id));
                    assert(after[before.len() as int] == id);
                } else {
                    let k = choose|k: int| 0 <= k < before.len() && before[k] == id;
                    assert(after[k] == id);
                }
            }
        }
    }
}

/// A name lies right in a directory: it leads neither down nor up.
pub open spec fn plain_name(name: Seq<char>) -> bool {
    name.len() > 0 && !text::has(name, "/"@) && name != "."@ && name != ".."@
}

/// An image's file lies right in the staging directory, both where it is fetched to and
/// where it is kept, whatever its key.
pub proof fn law_images_lie_in_the_staging_directory(
    key: Seq<char>,
    staging: Seq<char>,
    bytes: u64,
    head: Seq<u8>,
)
    ensures
        plain_name(placeholder_of(key).filename),
        ({
            let kept = fetched_of(placeholder_of(key), key, staging, bytes, head);
            &&& plain_name(kept.filename)
            &&& kept.local_path == paths::path_joined(staging, kept.filename)
        }),
{
    reveal_strlit("/");
    reveal_strlit(".");
    reveal_strlit("..");
    reveal_strlit(".bin");
    reveal_strlit(".png");
    reveal_strlit(".jpg");
    reveal_strlit(".gif");
    reveal_strlit(".webp");
    reveal_strlit(".bmp");
    lemma_plain_stem(key, ".bin"@);
    match image_kind(head) {
        Some(m) => {
            lemma_plain_stem(key, extension_for(m));
        },
        None => {},
    }
}

proof fn lemma_plain_stem(key: Seq<char>, ext: Seq<char>)
    requires
        ext.len() > 2,
        forall|i: int| 0 <= i < ext.len() ==> ext[i] != '/',
    ensures
        plain_name(image_stem(key) + ext),
{
    reveal_strlit("/");
    reveal_strlit(".");
    reveal_strlit("..");
    let name = image_stem(key) + ext;
    if text::has(name, "/"@) {
        let k = choose|k: int| text::occurs_at(name, "/"@, k);
        assert(name.subrange(k, k + 1)[0] == "/"@[0]);
        assert(name[k] == '/');
        if k < key.len() {
            assert(name[k] == image_stem(key)[k]);
        } else {
            assert(name[k] == ext[k - key.len()]);
        }
    }
    assert(name.len() > 2);
}

/// A key as a message can name it: not empty, and without the bracket that closes it.
pub open spec fn nameable(key: Seq<char>) -> bool {
    key.len() > 0 && forall|i: int| 0 <= i < key.len() ==> key[i] != ']'
}

/// Every image that a text refers to goes by a key that a message can name.
pub proof fn law_images_go_by_their_keys(s: Seq<char>, i: int)
    requires
        0 <= i < placeholders_in(s).len(),
    ensures
        placeholders_in(s)[i].alt matches Some(key) && nameable(key) && placeholders_in(s)[i]
            == placeholder_of(key),
    decreases s.len(),
{
    text::lemma_first_at(s, "[Image:"@, 0);
    match text::first_at(s, "[Image:"@, 0) {
        None => {},
        Some(k) => {
            if 0 <= k && k + 7 <= s.len() {
                let body = pieces::trimmed_start(s.skip(k + 7));
                text::lemma_first_at(body, seq![']'], 0);
                match text::first_at(body, seq![']'], 0) {
                    None => {},
                    Some(end) => {
                        if 0 <= end < body.len() <= s.len() - 7 {
                            let inner = body.take(end);
                            let key = pieces::trimmed(inner);
                            assert forall|j: int| 0 <= j < inner.len() implies inner[j] != ']' by {
                                text::lemma_occurs_char(body, ']', j);
                            }
                            pieces::lemma_trimmed_lacks(inner, ']');
                            let rest = body.skip(end + 1);
                            if key.len() == 0 {
                                law_images_go_by_their_keys(rest, i);
                            } else if i > 0 {
                                law_images_go_by_their_keys(rest, i - 1);
                            }
                        }
                    },
                }
            }
        },
    }
}

/// The files of two images lie apart: each is found by the stem of its own key, whatever
/// its kind, and two keys have two stems.
pub proof fn law_images_of_two_keys_lie_apart(key: Seq<char>, other: Seq<char>, head: Seq<u8>)
    requires
        nameable(key),
        nameable(other),
    ensures
        attachments::stem_of(fetched_name(key, placeholder_of(key).filename, head)) == image_stem(
            key,
        ),
        image_stem(key) == image_stem(other) <==> key == other,
{
    reveal_strlit(".bin");
    reveal_strlit(".png");
    reveal_strlit(".jpg");
    reveal_strlit(".gif");
    reveal_strlit(".webp");
    reveal_strlit(".bmp");
    lemma_stem_before_extension(key, ".bin"@);
    match image_kind(head) {
        Some(m) => {
            lemma_stem_before_extension(key, extension_for(m));
        },
        None => {},
    }
    if image_stem(key) == image_stem(other) {
        assert forall|i: int| 0 <= i < key.len() implies key[i] == other[i] by {
            assert(image_stem(key)[i] == image_stem(other)[i]);
        }
        assert(image_stem(key).len() == image_stem(other).len());
        assert(key =~= other);
    }
}

proof fn lemma_stem_before_extension(key: Seq<char>, ext: Seq<char>)
    requires
        key.len() > 0,
        ext.len() > 0,
        ext[0] == '.',
        forall|i: int| 0 < i < ext.len() ==> ext[i] != '.',
    ensures
        attachments::stem_of(image_stem(key) + ext) == image_stem(key),
{
    let name = image_stem(key) + ext;
    let n = key.len() as int;
    assert forall|k: int| n < k < name.len() implies name[k] != '.' by {
        assert(name[k] == ext[k - n]);
    }
    pieces::lemma_rsplit_char_is(name, '.', n);
    assert(name.take(n) =~= image_stem(key));
}

/// A message of any type is read back under its own id: where its default block can be
/// read back, so can the block that Lark's backend writes, and so survives it in a file.
/// The type is one line, and nothing in the id looks like the beginning of a note.
pub proof fn law_typed_blocks_are_read_back(conv: types::ConvView, m: types::MessageView)
    requires
        blocks::storable(m, m.id),
        shown_type(m.raw) matches Some(kind) ==> blocks::one_line(kind),
        forall|i: int| 0 <= i < m.id.len() ==> !text::occurs_at(m.id + " · "@, " · "@, i),
    ensures
        blocks::storable(m, id_part_of(m)),
        !text::has(payload::item_of(&LarkBackend, conv, m), "\n## "@) ==> payload::survives(
            &LarkBackend,
            conv,
            m,
        ),
{
    reveal_strlit(" · ");
    match shown_type(m.raw) {
        Some(kind) => {
            blocks::lemma_told_before_note(m.id, kind);
            let part = m.id + " · "@ + kind;
            assert forall|i: int| 0 <= i < part.len() implies part[i] != '\n' by {
                if i < m.id.len() {
                    assert(part[i] == m.id[i]);
                } else if i < m.id.len() + 3 {
                    assert(part[i] == " · "@[i - m.id.len()]);
                } else {
                    assert(part[i] == kind[i - m.id.len() - 3]);
                }
            }
        },
        None => {},
    }
    assert(LarkBackend.block_of(conv, m) == blocks::block_with(m, id_part_of(m)));
}

/// A plain text message of Lark has the default block.
pub proof fn law_plain_text_has_the_default_block(conv: types::ConvView, m: types::MessageView)
    requires
        m.raw.text_at("msg_type"@) is None || m.raw.text_at("msg_type"@) == Some("text"@)
            || m.raw.text_at("msg_type"@) == Some(Seq::<char>::empty()),
    ensures
        LarkBackend.block_of(conv, m) == blocks::default_block_of(m),
{
}

/// A message is read by the names of its members: each thing from its own member, and nothing
/// where that is missing.
pub proof fn law_messages_are_read_by_name(t: json::Tree)
    requires
        t is Object,
    ensures
        match record_in(t) {
            Some(r) => {
                &&& r.message_id == t.text_at("message_id"@)
                &&& r.msg_type == t.text_at("msg_type"@)
                &&& r.create_time == t.text_at("create_time"@)
                &&& r.content == t.text_at("content"@)
                &&& r.message_app_link == t.text_at("message_app_link"@)
                &&& r.chat_id == t.text_at("chat_id"@)
                &&& r.deleted == (match t.get("deleted"@) {
                    Some(json::Tree::Bool(b)) => Some(b),
                    _ => None,
                })
                &&& match t.get("sender"@) {
                    None | Some(json::Tree::Null) => r.sender is None,
                    Some(s) => s is Object ==> r.sender == Some(
                        (s.text_at("id"@), s.text_at("name"@)),
                    ),
                }
            },
            None => true,
        },
        ({
            let text_or_none = |name: Seq<char>|
                t.get(name) is None || t.get(name)->0 is Text || t.get(name)->0 is Null;
            text_or_none("message_id"@) && text_or_none("msg_type"@) && text_or_none(
                "create_time"@,
            ) && text_or_none("content"@) && text_or_none("message_app_link"@) && text_or_none(
                "chat_id"@,
            ) && t.get("deleted"@) is None && t.get("sender"@) is None
        }) ==> record_in(t) is Some,
{
}

/// The messages of an answer are those under `data`, or else those at the top; each that can
/// be read is taken, in their order.
pub proof fn law_messages_are_taken_in_order(
    t: json::Tree,
    a: Seq<json::Tree>,
    more: json::Tree,
)
    ensures
        records_in(a.push(more)) == (match record_in(more) {
            Some(m) => records_in(a).push(m),
            None => records_in(a),
        }),
        records_in(seq![]) == Seq::<RecordView>::empty(),
        (t.get("data"@) matches Some(d) && d.get("messages"@) == Some(json::Tree::Array(a)))
            ==> messages_in(t) == records_in(a),
        (t.get("data"@) is None || t.get("data"@)->0.get("messages"@) is None) && t.get(
            "messages"@,
        ) == Some(json::Tree::Array(a)) ==> messages_in(t) == records_in(a),
{
    assert(a.push(more).drop_last() =~= a);
}

/// A message is what Lark says of it: under its own id and address, with its content and the
/// images in it, sent by the one who is named, or else by the one with the id. One without an
/// id, or one that was taken back, gives none; one without a time that can be read counts as
/// of now.
pub proof fn law_messages_are_what_lark_says(m: RecordView, now: Timestamp)
    ensures
        message_of(m, now) is None <==> m.message_id is None || m.deleted == Some(true),
        message_of(m, now) matches Some(v) ==> {
            let body = match m.content {
                Some(c) => c,
                None => Seq::<char>::empty(),
            };
            &&& Some(v.id) == m.message_id
            &&& v.text == body && v.attachments == placeholders_in(body)
            &&& v.external_url == m.message_app_link && !v.deleted
            &&& v.sender == (match m.sender {
                Some((_, Some(name))) => Some(name),
                Some((id, None)) => id,
                None => None,
            })
            &&& v.raw.text_at("msg_type"@) == m.msg_type
            &&& match m.create_time {
                None => v.timestamp == now,
                Some(s) => match numbers::i64_of(s) {
                    None => v.timestamp == now,
                    Some(ms) => crate::time::MIN_SECS <= ms as int / 1000 <= crate::time::MAX_SECS
                        ==> v.timestamp.secs * 1000 + v.timestamp.nanos as int / 1_000_000 == ms
                        && v.timestamp.nanos as int % 1_000_000 == 0,
                },
            }
        },
{
    reveal_with_fuel(json::member, 2);
}

/// Every message that gives one is kept, in their order.
pub proof fn law_every_message_is_kept(recs: Seq<RecordView>, m: RecordView, now: Timestamp)
    ensures
        messages_of(recs.push(m), now) == (match message_of(m, now) {
            Some(v) => messages_of(recs, now).push(v),
            None => messages_of(recs, now),
        }),
        messages_of(seq![], now) == Seq::<types::MessageView>::empty(),
{
    assert(recs.push(m).drop_last() =~= recs);
}

/// Every listed chat that has an id is taken, in their order, with its name where it has one.
pub proof fn law_listed_chats_are_taken(a: Seq<json::Tree>, more: json::Tree)
    requires
        more is Object,
    ensures
        ({
            let id = match more.get("chat_id"@) {
                Some(json::Tree::Text(s)) => s,
                _ => Seq::<char>::empty(),
            };
            let named = more.get("name"@) is None || more.get("name"@)->0 is Null || more.get(
                "name"@,
            )->0 is Text;
            chats_in_list(a.push(more)) == (if id.len() > 0 && named {
                chats_in_list(a).push((id, more.text_at("name"@)))
            } else {
                chats_in_list(a)
            })
        }),
        chats_in_list(seq![]) == Seq::<ChatView>::empty(),
{
    assert(a.push(more).drop_last() =~= a);
}

/// The chats of an answer are found under `items` or `chats`, below `data` or at the top.
pub proof fn law_chats_are_found_under_their_names(t: json::Tree, a: Seq<json::Tree>)
    ensures
        ({
            let below = |name: Seq<char>|
                match t.get("data"@) {
                    Some(d) => d.get(name),
                    None => None,
                };
            let list = Some(json::Tree::Array(a));
            &&& below("items"@) == list ==> chats_in(t) == chats_in_list(a)
            &&& below("items"@) is None && below("chats"@) == list ==> chats_in(t)
                == chats_in_list(a)
            &&& below("items"@) is None && below("chats"@) is None && t.get("items"@) == list
                ==> chats_in(t) == chats_in_list(a)
            &&& below("items"@) is None && below("chats"@) is None && t.get("items"@) is None
                && t.get("chats"@) == list ==> chats_in(t) == chats_in_list(a)
        }),
{
}

/// A message between two people names the conversation by the other person: its label is that
/// person's name, never the user's own.
pub proof fn law_labels_name_the_other_person(
    id: Option<Seq<char>>,
    name: Option<Seq<char>>,
    me: Seq<char>,
)
    ensures
        label_of(None, me) is None,
        id == Some(me) ==> label_of(Some((id, name)), me) is None,
        id != Some(me) && (name matches Some(n) && n.len() > 0) ==> label_of(Some((id, name)), me)
            == name,
        name is None || name->0.len() == 0 ==> label_of(Some((id, name)), me) is None,
{
}

/// Every conversation between two people that a message belongs to is there, once, as such a
/// conversation; one that had no label takes the name that a later message gives, and no
/// label is taken back.
pub proof fn law_every_conversation_is_found(
    recs: Seq<RecordView>,
    rec: RecordView,
    me: Seq<char>,
)
    ensures
        ({
            let before = dms_of(recs, me);
            let after = dms_of(recs.push(rec), me);
            let label = label_of(rec.sender, me);
            &&& before.len() <= after.len() <= before.len() + 1
            &&& forall|k: int|
                0 <= k < before.len() ==> {
                    &&& (#[trigger] after[k]).id == before[k].id
                    &&& after[k].kind == before[k].kind && after[k].raw == before[k].raw
                    &&& before[k].label is Some ==> after[k].label == before[k].label
                    &&& after[k].label != before[k].label ==> after[k].label == label
                        && rec.chat_id == Some(after[k].id)
                }
            &&& after.len() > before.len() ==> {
                let new = after.last();
                &&& rec.chat_id == Some(new.id) && new.id.len() > 0
                &&& new.label == label && new.kind == ImConversationKind::Dm
                &&& forall|k: int| 0 <= k < before.len() ==> (#[trigger] before[k]).id != new.id
            }
            &&& rec.chat_id is Some && rec.chat_id->0.len() > 0 ==> exists|k: int|
                0 <= k < after.len() && (#[trigger] after[k]).id == rec.chat_id->0 && (label is Some
                    ==> after[k].label is Some)
        }),
        dms_of(seq![], me) == Seq::<types::ConvView>::empty(),
{
    assert(recs.push(rec).drop_last() =~= recs);
    let before = dms_of(recs, me);
    let after = dms_of(recs.push(rec), me);
    match rec.chat_id {
        Some(id) => {
            lemma_conv_with_id(before, id);
            if id.len() > 0 {
                match conv_with_id(before, id) {
                    Some(i) => {
                        assert(after[i].id == id);
                    },
                    None => {
                        assert(after[before.len() as int].id == id);
                    },
                }
            }
        },
        None => {},
    }
}

proof fn lemma_conv_with_id(convs: Seq<types::ConvView>, id: Seq<char>)
    ensures
        match conv_with_id(convs, id) {
            Some(i) => 0 <= i < convs.len() && convs[i].id == id,
            None => forall|k: int| 0 <= k < convs.len() ==> (#[trigger] convs[k]).id != id,
        },
    decreases convs.len(),
{
    if convs.len() > 0 && convs[0].id != id {
        let rest = convs.drop_first();
        lemma_conv_with_id(rest, id);
        if conv_with_id(convs, id) is None {
            assert forall|k: int| 0 <= k < convs.len() implies (#[trigger] convs[k]).id != id by {
                if k > 0 {
                    assert(rest[k - 1] == convs[k]);
                }
            }
        }
    }
}

/// Some message belongs to the chat.
pub open spec fn names_chat(recs: Seq<RecordView>, id: Seq<char>) -> bool {
    id.len() > 0 && exists|i: int|
        0 <= i < recs.len() && (#[trigger] recs[i]).chat_id == Some(id)
}

/// Conversations between two people come first, then the groups that the user is involved in:
/// those of the listed chats to which a message belongs that the user sent or is mentioned in.
pub proof fn law_involved_groups_are_found(
    sent: json::Tree,
    mentions: json::Tree,
    p2p: json::Tree,
    chats: json::Tree,
    me: Seq<char>,
)
    ensures
        ({
            let found = discovered(sent, mentions, p2p, chats, me);
            let dms = dms_of(messages_in(p2p), me);
            &&& dms.is_prefix_of(found)
            &&& forall|k: int|
                0 <= k < chats_in(chats).len() && (names_chat(
                    messages_in(sent),
                    (#[trigger] chats_in(chats)[k]).0,
                ) || names_chat(messages_in(mentions), chats_in(chats)[k].0)) ==> exists|n: int|
                    dms.len() <= n < found.len() && (#[trigger] found[n]).id == chats_in(
                        chats,
                    )[k].0 && found[n].label == chats_in(chats)[k].1 && found[n].kind
                        == ImConversationKind::Channel
            &&& forall|n: int|
                dms.len() <= n < found.len() ==> names_chat(messages_in(sent), (#[trigger] found[n]).id)
                    || names_chat(messages_in(mentions), found[n].id)
        }),
{
    let s = messages_in(sent);
    let m = messages_in(mentions);
    let all = chats_in(chats);
    let dms = dms_of(messages_in(p2p), me);
    let first = ids_after(seq![], s);
    let involved = ids_after(first, m);
    law_chat_ids_are_distinct(seq![], s);
    law_chat_ids_are_distinct(first, m);
    lemma_involved_groups(all, involved);
    let groups = involved_groups(all, involved);
    let found = discovered(sent, mentions, p2p, chats, me);
    assert(found == dms + groups);
    assert(dms.is_prefix_of(found));
    assert forall|id: Seq<char>| involved.contains(id) <==> names_chat(s, id) || names_chat(m, id) by {
        assert(!Seq::<Seq<char>>::empty().contains(id));
        if involved.contains(id) {
            if first.contains(id) {
                let i = choose|i: int|
                    0 <= i < s.len() && spoken((#[trigger] s[i]).chat_id) == Some(id);
                assert(s[i].chat_id == Some(id));
                assert(names_chat(s, id));
            } else {
                let i = choose|i: int|
                    0 <= i < m.len() && spoken((#[trigger] m[i]).chat_id) == Some(id);
                assert(m[i].chat_id == Some(id));
                assert(names_chat(m, id));
            }
        }
        if names_chat(s, id) {
            let i = choose|i: int|
                0 <= i < s.len() && (#[trigger] s[i]).chat_id == Some(id) && id.len() > 0;
            assert(spoken(s[i].chat_id) == Some(id));
            assert(first.contains(id));
        }
        if names_chat(m, id) {
            let i = choose|i: int|
                0 <= i < m.len() && (#[trigger] m[i]).chat_id == Some(id) && id.len() > 0;
            assert(spoken(m[i].chat_id) == Some(id));
        }
    }
    assert forall|k: int|
        0 <= k < all.len() && (names_chat(s, (#[trigger] all[k]).0) || names_chat(
            m,
            all[k].0,
        )) implies exists|n: int|
        dms.len() <= n < found.len() && (#[trigger] found[n]).id == all[k].0 && found[n].label
            == all[k].1 && found[n].kind == ImConversationKind::Channel by {
        assert(involved.contains(all[k].0));
        let g = choose|g: int| 0 <= g < groups.len() && groups[g] == group_of(all[k]);
        assert(found[dms.len() + g] == group_of(all[k]));
    }
    assert forall|n: int| dms.len() <= n < found.len() implies names_chat(s, (#[trigger] found[n]).id)
        || names_chat(m, found[n].id) by {
        assert(found[n] == groups[n - dms.len()]);
        assert(involved.contains(groups[n - dms.len()].id));
    }
}

proof fn lemma_involved_groups(chats: Seq<ChatView>, involved: Seq<Seq<char>>)
    ensures
        forall|k: int|
            0 <= k < chats.len() && involved.contains((#[trigger] chats[k]).0) ==> involved_groups(
                chats,
                involved,
            ).contains(group_of(chats[k])),
        forall|g: int|
            0 <= g < involved_groups(chats, involved).len() ==> involved.contains(
                (#[trigger] involved_groups(chats, involved)[g]).id,
            ),
    decreases chats.len(),
{
    if chats.len() > 0 {
        let front = chats.drop_last();
        let n = chats.len() - 1;
        lemma_involved_groups(front, involved);
        let before = involved_groups(front, involved);
        let now = involved_groups(chats, involved);
        assert(chats[n] == chats.last());
        assert forall|k: int|
            0 <= k < chats.len() && involved.contains((#[trigger] chats[k]).0) implies now.contains(
            group_of(chats[k]),
        ) by {
            if k < n {
                assert(front[k] == chats[k]);
                let g = choose|g: int| 0 <= g < before.len() && before[g] == group_of(chats[k]);
                assert(now[g] == before[g]);
            } else {
                assert(now[before.len() as int] == group_of(chats[n]));
            }
        }
        assert forall|g: int| 0 <= g < now.len() implies involved.contains(
            (#[trigger] now[g]).id,
        ) by {
            if g < before.len() {
                assert(now[g] == before[g]);
            }
        }
    }
}

/// An image that a text refers to is found by the key in the reference, and the search goes on
/// behind it.
pub proof fn law_referred_images_are_found(before: Seq<char>, key: Seq<char>, rest: Seq<char>)
    requires
        nameable(key),
        !pieces::white(key[0]),
        !pieces::white(key.last()),
        text::first_at(before + "[Image: "@ + key + seq![']'] + rest, "[Image:"@, 0) == Some(
            before.len() as int,
        ),
    ensures
        placeholders_in(before + "[Image: "@ + key + seq![']'] + rest) == seq![
            placeholder_of(key),
        ] + placeholders_in(rest),
        placeholder_of(key).alt == Some(key),
        placeholder_of(key).filename == image_stem(key) + ".bin"@,
        placeholder_of(key).bytes == 0,
{
    reveal_strlit("[Image: ");
    reveal_strlit("[Image:");
    let s = before + "[Image: "@ + key + seq![']'] + rest;
    let at = before.len() as int;
    let tail = key + seq![']'] + rest;
    let spaced = seq![' '] + tail;
    assert(s.skip(at + 7) =~= spaced);
    assert(pieces::trimmed_start(spaced) == tail) by {
        assert(spaced[0] == ' ');
        assert(spaced.drop_first() =~= tail);
        assert(tail[0] == key[0]);
        reveal_with_fuel(pieces::trimmed_start, 3);
    }
    lemma_first_bracket(key, rest);
    pieces::lemma_trimmed_fixed(key);
    lemma_placeholder_step(s, at, tail, key, rest);
}

proof fn lemma_first_bracket(key: Seq<char>, rest: Seq<char>)
    requires
        nameable(key),
    ensures
        ({
            let tail = key + seq![']'] + rest;
            &&& text::first_at(tail, seq![']'], 0) == Some(key.len() as int)
            &&& tail.take(key.len() as int) == key
            &&& tail.skip(key.len() as int + 1) == rest
        }),
{
    let tail = key + seq![']'] + rest;
    let close = seq![']'];
    assert(tail.subrange(key.len() as int, key.len() as int + 1) =~= close);
    assert(text::occurs_at(tail, close, key.len() as int));
    text::lemma_first_at(tail, close, 0);
    let end = text::first_at(tail, close, 0)->0;
    if end < key.len() {
        assert(tail.subrange(end, end + 1)[0] == tail[end]);
        assert(key[end] == ']');
    }
    assert(tail.take(key.len() as int) =~= key);
    assert(tail.skip(key.len() as int + 1) =~= rest);
}

proof fn lemma_placeholder_step(
    s: Seq<char>,
    at: int,
    tail: Seq<char>,
    key: Seq<char>,
    rest: Seq<char>,
)
    requires
        text::first_at(s, "[Image:"@, 0) == Some(at),
        0 <= at,
        at + 7 <= s.len(),
        pieces::trimmed_start(s.skip(at + 7)) == tail,
        tail.len() <= s.len() - 7,
        text::first_at(tail, seq![']'], 0) == Some(key.len() as int),
        key.len() < tail.len(),
        tail.take(key.len() as int) == key,
        tail.skip(key.len() as int + 1) == rest,
        pieces::trimmed(key) == key,
        key.len() > 0,
    ensures
        placeholders_in(s) == seq![placeholder_of(key)] + placeholders_in(rest),
{
}

/// The kind of an image is told by its first bytes, whatever follows them.
pub proof fn law_images_are_told_by_their_first_bytes(rest: Seq<u8>, size: Seq<u8>)
    requires
        size.len() == 4,
    ensures
        image_kind(seq![0x89u8, 0x50, 0x4e, 0x47] + rest) == Some("image/png"@),
        image_kind(seq![0xffu8, 0xd8, 0xff] + rest) == Some("image/jpeg"@),
        image_kind(seq![0x47u8, 0x49, 0x46, 0x38, 0x37, 0x61] + rest) == Some("image/gif"@),
        image_kind(seq![0x47u8, 0x49, 0x46, 0x38, 0x39, 0x61] + rest) == Some("image/gif"@),
        image_kind(
            seq![0x52u8, 0x49, 0x46, 0x46] + size + seq![0x57u8, 0x45, 0x42, 0x50] + rest,
        ) == Some("image/webp"@),
        image_kind(seq![0x42u8, 0x4d] + rest) == Some("image/bmp"@),
        rest.len() > 0 && rest[0] != 0x89 && rest[0] != 0xff && rest[0] != 0x47 && rest[0] != 0x52
            && rest[0] != 0x42 ==> image_kind(rest) is None,
{
    let png = seq![0x89u8, 0x50, 0x4e, 0x47];
    let jpeg = seq![0xffu8, 0xd8, 0xff];
    let gif7 = seq![0x47u8, 0x49, 0x46, 0x38, 0x37, 0x61];
    let gif9 = seq![0x47u8, 0x49, 0x46, 0x38, 0x39, 0x61];
    let riff = seq![0x52u8, 0x49, 0x46, 0x46];
    let webp = seq![0x57u8, 0x45, 0x42, 0x50];
    let bmp = seq![0x42u8, 0x4d];
    lemma_headed(png, rest);
    lemma_headed(jpeg, rest);
    lemma_headed(gif7, rest);
    lemma_headed(gif9, rest);
    lemma_headed(bmp, rest);
    let w = riff + size + webp + rest;
    assert(w =~= riff + (size + webp + rest));
    lemma_headed(riff, size + webp + rest);
    assert(w.skip(8) =~= webp + rest);
    lemma_headed(webp, rest);
    lemma_not_headed(jpeg + rest, png);
    lemma_not_headed(gif7 + rest, png);
    lemma_not_headed(gif7 + rest, jpeg);
    lemma_not_headed(gif9 + rest, png);
    lemma_not_headed(gif9 + rest, jpeg);
    lemma_not_headed(w, png);
    lemma_not_headed(w, jpeg);
    lemma_not_headed(w, gif7);
    lemma_not_headed(w, gif9);
    lemma_not_headed(bmp + rest, png);
    lemma_not_headed(bmp + rest, jpeg);
    lemma_not_headed(bmp + rest, gif7);
    lemma_not_headed(bmp + rest, gif9);
    lemma_not_headed(bmp + rest, riff);
    lemma_not_headed(rest, png);
    lemma_not_headed(rest, jpeg);
    lemma_not_headed(rest, gif7);
    lemma_not_headed(rest, gif9);
    lemma_not_headed(rest, riff);
    lemma_not_headed(rest, bmp);
}

proof fn lemma_headed(head: Seq<u8>, rest: Seq<u8>)
    ensures
        headed(head + rest, head),
{
    assert((head + rest).take(head.len() as int) =~= head);
}

proof fn lemma_not_headed(b: Seq<u8>, head: Seq<u8>)
    ensures
        head.len() > 0 && b.len() > 0 && b[0] != head[0] ==> !headed(b, head),
{
    if head.len() > 0 && headed(b, head) {
        assert(b.take(head.len() as int)[0] == head[0]);
    }
}

/// An image that was fetched is kept under its key's stem with the extension of its kind, in
/// the staging directory; one that was staged before is kept as it lies there. Either way its
/// size, its kind and its key are told.
pub proof fn law_kept_images_are_told_as_they_lie(
    a: types::AttachmentView,
    key: Seq<char>,
    staging: Seq<char>,
    path: Seq<char>,
    bytes: u64,
    head: Seq<u8>,
)
    ensures
        ({
            let f = fetched_of(a, key, staging, bytes, head);
            let s = staged_of(a, path, bytes, head);
            &&& f.bytes == bytes && f.mime_type == image_kind(head) && f.alt == a.alt
            &&& f.local_path == paths::path_joined(staging, f.filename)
            &&& image_kind(head) is None ==> f.filename == a.filename
            &&& image_kind(head) == Some("image/png"@) ==> f.filename == image_stem(key) + ".png"@
            &&& image_kind(head) == Some("image/jpeg"@) ==> f.filename == image_stem(key) + ".jpg"@
            &&& image_kind(head) == Some("image/gif"@) ==> f.filename == image_stem(key) + ".gif"@
            &&& image_kind(head) == Some("image/webp"@) ==> f.filename == image_stem(key) + ".webp"@
            &&& image_kind(head) == Some("image/bmp"@) ==> f.filename == image_stem(key) + ".bmp"@
            &&& s.bytes == bytes && s.mime_type == image_kind(head) && s.alt == a.alt
            &&& s.local_path == path
            &&& paths::file_name_of(path) matches Some(n) ==> s.filename == n
        }),
{
    reveal_strlit("image/png");
    reveal_strlit("image/jpeg");
    reveal_strlit("image/gif");
    reveal_strlit("image/webp");
    reveal_strlit("image/bmp");
    assert("image/png"@[6] == 'p' && "image/jpeg"@[6] == 'j' && "image/gif"@[6] == 'g'
        && "image/webp"@[6] == 'w' && "image/bmp"@[6] == 'b');
}

/// A message is shown with its kind where it is no plain text.
pub proof fn law_kinds_are_shown(m: types::MessageView, kind: Seq<char>)
    requires
        m.raw.text_at("msg_type"@) == Some(kind),
        kind.len() > 0,
        kind != "text"@,
    ensures
        id_part_of(m) == m.id + " · "@ + kind,
{
}

/// A conversation that was found by searching messages says so.
pub proof fn law_searched_conversations_say_so()
    ensures
        searched_raw().text_at("discovered_from"@) == Some("messages_search_p2p"@),
{
    json::lemma_member_at(searched_raw()->Object_0, 0);
}

/// A chat can also be listed as its id and its name, in this order; the name may be left out,
/// and with anything behind it there is no chat.
pub proof fn law_chats_are_listed_in_two_forms(
    a: Seq<json::Tree>,
    id: Seq<char>,
    name: Seq<char>,
    more: json::Tree,
)
    requires
        id.len() > 0,
    ensures
        ({
            let one = json::Tree::Text(id);
            let two = json::Tree::Text(name);
            &&& chats_in_list(a.push(json::Tree::Array(seq![one, two]))) == chats_in_list(a).push(
                (id, Some(name)),
            )
            &&& chats_in_list(a.push(json::Tree::Array(seq![one]))) == chats_in_list(a).push(
                (id, None::<Seq<char>>),
            )
            &&& chats_in_list(a.push(json::Tree::Array(seq![one, two, more]))) == chats_in_list(a)
            &&& chats_in_list(a.push(json::Tree::Array(seq![]))) == chats_in_list(a)
            &&& chats_in_list(a.push(two)) == chats_in_list(a)
        }),
{
    let one = json::Tree::Text(id);
    let two = json::Tree::Text(name);
    assert(a.push(json::Tree::Array(seq![one, two])).drop_last() =~= a);
    assert(a.push(json::Tree::Array(seq![one])).drop_last() =~= a);
    assert(a.push(json::Tree::Array(seq![one, two, more])).drop_last() =~= a);
    assert(a.push(json::Tree::Array(seq![])).drop_last() =~= a);
    assert(a.push(two).drop_last() =~= a);
    assert(seq![one, two][0] == one && seq![one, two][1] == two);
    assert(seq![one][0] == one);
}

/// A page is as long as the messages that are asked for, as far as a page can be.
pub proof fn law_pages_are_as_long_as_asked(limit: usize, r: u32)
    requires
        call_ensures(page_size, (limit,), r),
    ensures
        r <= limit,
        limit <= 0xffff_ffff ==> r == limit,
        limit > 0xffff_ffff ==> r == 0xffff_ffff,
{
}

} // verus!
