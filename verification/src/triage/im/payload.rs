//! The file of a conversation: a header and the blocks of its messages, written and read
//! back.
use vstd::prelude::*;
use crate::assoc::AssocMap;
use crate::numbers;
use crate::pieces;
use crate::text;
use crate::time;
use crate::triage::im::blocks;
use crate::triage::im::types;
use crate::triage::im::types::{ImAttachment, ImConversation, ImMessage};

verus! {

/// Days of messages that a conversation's file keeps.
pub const WINDOW_DAYS: i64 = 7;

/// What a messenger's backend adds to the file of a conversation.
pub trait ImBackend {
    /// The source's id.
    spec fn name(&self) -> Seq<char>;

    /// The block of a message.
    spec fn block_of(&self, conv: types::ConvView, msg: types::MessageView) -> Seq<char>;

    /// The source's id, under which candidates and files are kept.
    fn source(&self) -> (r: String)
        ensures
            r@ == self.name(),
    ;

    /// The block of a message, which tells the message's time.
    fn render_message_block(&self, conv: &ImConversation, msg: &ImMessage) -> (r: String)
        requires
            msg.timestamp.wf(),
        ensures
            r@ == self.block_of(conv@, msg@),
            time::well_stamped(msg.timestamp),
    ;
}

/// A backend whose messages have the default block.
pub struct PlainBackend {
    pub source: String,
}

impl ImBackend for PlainBackend {
    open spec fn name(&self) -> Seq<char> {
        self.source@
    }

    open spec fn block_of(&self, conv: types::ConvView, msg: types::MessageView) -> Seq<char> {
        blocks::default_block_of(msg)
    }

    fn source(&self) -> (r: String) {
        self.source.clone()
    }

    fn render_message_block(&self, conv: &ImConversation, msg: &ImMessage) -> (r: String) {
        blocks::default_message_block(conv, msg)
    }
}

// ---------------------------------------------------------------------------
// Writing
// ---------------------------------------------------------------------------

/// The line that tells of workspaces made before.
pub open spec fn anchors_text(anchors: Seq<Seq<char>>) -> Seq<char> {
    if anchors.len() == 0 {
        seq![]
    } else {
        "- last_proposed_anchors: "@ + pieces::joined(anchors, ", "@) + "\n"@
            + "  (the LLM has already created workspaces for these anchors — skip them)\n"@
    }
}

/// The header of a conversation's file, up to the line feed at its end.
pub open spec fn header_of(
    source: Seq<char>,
    conv: types::ConvView,
    count: nat,
    anchors: Seq<Seq<char>>,
) -> Seq<char> {
    "# "@ + source + " chat — "@ + conv.shown() + "\n\n"@ + "- conversation_id: "@ + conv.id
        + "\n"@ + "- kind: "@ + types::source_kind_of(conv.kind) + "\n"@ + "- window: last "@
        + numbers::decimal(WINDOW_DAYS as nat) + " days, "@ + numbers::decimal(count)
        + " messages\n"@ + anchors_text(anchors) + "\n---\n"@
}

/// The line of an attachment.
pub open spec fn attachment_line(a: types::AttachmentView) -> Seq<char> {
    "📎 attachment: "@ + (match a.alt {
        Some(alt) => alt,
        None => a.filename,
    }) + " ("@ + (match a.mime_type {
        Some(m) => m,
        None => "application/octet-stream"@,
    }) + ", "@ + numbers::decimal(a.bytes as nat) + " bytes) — "@ + a.local_path + "\n"@
}

/// The lines of attachments.
pub open spec fn attachment_lines(v: Seq<types::AttachmentView>) -> Seq<char>
    decreases v.len(),
{
    if v.len() == 0 {
        seq![]
    } else {
        attachment_lines(v.drop_last()) + attachment_line(v.last())
    }
}

/// A message in a conversation's file: its block and its attachments.
pub open spec fn item_of<B: ImBackend>(
    backend: &B,
    conv: types::ConvView,
    m: types::MessageView,
) -> Seq<char> {
    backend.block_of(conv, m) + attachment_lines(m.attachments)
}

/// The messages in a conversation's file, each with an empty line behind it.
pub open spec fn items_of<B: ImBackend>(
    backend: &B,
    conv: types::ConvView,
    msgs: Seq<types::MessageView>,
) -> Seq<char>
    decreases msgs.len(),
{
    if msgs.len() == 0 {
        seq![]
    } else {
        item_of(backend, conv, msgs[0]) + seq!['\n'] + items_of(backend, conv, msgs.drop_first())
    }
}

/// The file of a conversation.
pub open spec fn payload_of<B: ImBackend>(
    backend: &B,
    conv: types::ConvView,
    msgs: Seq<types::MessageView>,
    anchors: Seq<Seq<char>>,
) -> Seq<char> {
    header_of(backend.name(), conv, msgs.len(), anchors) + seq!['\n'] + items_of(
        backend,
        conv,
        msgs,
    )
}

/// Appends the line of an attachment.
fn push_attachment(out: &mut String, a: &ImAttachment)
    ensures
        final(out)@ == old(out)@ + attachment_line(a@),
{
    out.append("📎 attachment: ");
    match &a.alt {
        Some(alt) => {
            out.append(alt.as_str());
        },
        None => {
            out.append(a.filename.as_str());
        },
    }
    out.append(" (");
    match &a.mime_type {
        Some(m) => {
            out.append(m.as_str());
        },
        None => {
            out.append("application/octet-stream");
        },
    }
    out.append(", ");
    numbers::push_decimal(out, a.bytes);
    out.append(" bytes) — ");
    out.append(a.local_path.as_str());
    out.append("\n");
    assert(out@ =~= old(out)@ + attachment_line(a@));
}

/// The header of a conversation's file, up to the line feed at its end.
fn write_header(source: &str, conv: &ImConversation, count: usize, anchors: &Vec<String>) -> (r:
    String)
    ensures
        r@ == header_of(source@, conv@, count as nat, text::texts(anchors@)),
{
    let mut out = "# ".to_string();
    out.append(source);
    out.append(" chat — ");
    out.append(conv.shown_label());
    out.append("\n\n");
    out.append("- conversation_id: ");
    out.append(conv.id.as_str());
    out.append("\n");
    out.append("- kind: ");
    out.append(conv.kind.as_source_kind());
    out.append("\n");
    out.append("- window: last ");
    numbers::push_decimal(&mut out, WINDOW_DAYS as u64);
    out.append(" days, ");
    numbers::push_decimal(&mut out, count as u64);
    out.append(" messages\n");
    let ghost before = out@;
    if anchors.len() > 0 {
        let list = pieces::join(anchors, ", ");
        out.append("- last_proposed_anchors: ");
        out.append(list.as_str());
        out.append("\n");
        out.append("  (the LLM has already created workspaces for these anchors — skip them)\n");
    }
    assert(out@ =~= before + anchors_text(text::texts(anchors@)));
    out.append("\n---\n");
    out
}

// ---------------------------------------------------------------------------
// Reading
// ---------------------------------------------------------------------------

/// The messages that the pieces between block marks give, by id. Of two with the same id
/// the later counts.
pub open spec fn read_pieces(ps: Seq<Seq<char>>) -> Map<Seq<char>, types::MessageView>
    decreases ps.len(),
{
    if ps.len() == 0 {
        Map::empty()
    } else {
        let before = read_pieces(ps.drop_last());
        match blocks::parsed_block("## "@ + ps.last()) {
            Some(m) => before.insert(m.id, m),
            None => before,
        }
    }
}

/// The messages that a conversation's file gives back, by id.
pub open spec fn parsed_payload(raw: Seq<char>) -> Map<Seq<char>, types::MessageView> {
    read_pieces(pieces::split_of(raw, "\n## "@).drop_first())
}

/// Messages by id.
pub struct MessageMap {
    pub by_id: AssocMap<String, ImMessage>,
}

impl View for MessageMap {
    type V = Map<Seq<char>, types::MessageView>;

    open spec fn view(&self) -> Map<Seq<char>, types::MessageView> {
        self.by_id@.map_values(|m: ImMessage| m@)
    }
}

impl MessageMap {
    /// No id occurs twice, every message is kept under its id, and its time lies in the
    /// calendar.
    pub open spec fn wf(&self) -> bool {
        &&& self.by_id.wf()
        &&& forall|k: Seq<char>|
            self@.contains_key(k) ==> (#[trigger] self@[k]).id == k && self@[k].timestamp.wf()
    }

    /// No messages.
    pub fn new() -> (r: Self)
        ensures
            r.wf(),
            r@ == Map::<Seq<char>, types::MessageView>::empty(),
    {
        let r = MessageMap { by_id: AssocMap::new() };
        assert(r@ =~= Map::<Seq<char>, types::MessageView>::empty());
        r
    }

    /// Keeps a message, in place of one with the same id.
    pub fn put(&mut self, m: ImMessage)
        requires
            old(self).wf(),
            m.timestamp.wf(),
        ensures
            final(self).wf(),
            final(self)@ == old(self)@.insert(m@.id, m@),
    {
        let ghost before = self@;
        let id = m.id.clone();
        self.by_id.insert(id, m);
        assert(self@ =~= before.insert(m@.id, m@));
    }

    /// Whether a message with the id is kept.
    pub fn contains(&self, id: &String) -> (r: bool)
        requires
            self.wf(),
        ensures
            r == self@.contains_key(id@),
    {
        self.by_id.contains_key(id)
    }

    /// The message with the id.
    pub fn get(&self, id: &str) -> (r: Option<&ImMessage>)
        requires
            self.wf(),
        ensures
            match r {
                Some(m) => self@.contains_key(id@) && self@[id@] == m@,
                None => !self@.contains_key(id@),
            },
    {
        self.by_id.get(&id.to_string())
    }
}

/// Reads a conversation's file. What cannot be read is left out.
pub fn parse_chat_payload(raw: &str) -> (r: MessageMap)
    ensures
        r.wf(),
        r@ == parsed_payload(raw@),
{
    proof {
        reveal_strlit("\n## ");
    }
    let parts = pieces::split(raw, "\n## ");
    let ghost all = text::texts(parts@);
    let mut out = MessageMap::new();
    let mut i: usize = 1;
    assert(all.drop_first().take(0) =~= Seq::<Seq<char>>::empty());
    while i < parts.len()
        invariant
            1 <= i <= parts@.len(),
            all == text::texts(parts@),
            out.wf(),
            out@ == read_pieces(all.drop_first().take(i - 1)),
        decreases parts@.len() - i,
    {
        let mut block = "## ".to_string();
        block.append(parts[i].as_str());
        proof {
            let ps = all.drop_first().take(i as int);
            assert(ps.drop_last() =~= all.drop_first().take(i - 1));
            assert(ps.last() == parts@[i as int]@);
        }
        match blocks::parse_message_block(block.as_str()) {
            Some(m) => {
                out.put(m);
            },
            None => {},
        }
        i += 1;
    }
    assert(all.drop_first().take(i - 1) =~= all.drop_first());
    out
}

// ---------------------------------------------------------------------------
// What is written is read back
// ---------------------------------------------------------------------------

/// What is read back of the messages, by id. Of two with the same id the later counts.
pub open spec fn recovered_all(msgs: Seq<types::MessageView>) -> Map<
    Seq<char>,
    types::MessageView,
>
    decreases msgs.len(),
{
    if msgs.len() == 0 {
        Map::empty()
    } else {
        let m = blocks::recovered(msgs.last());
        recovered_all(msgs.drop_last()).insert(m.id, m)
    }
}

/// A message that a conversation's file gives back: its block has a heading that can be
/// read, and nothing in it looks like the beginning of another block.
pub open spec fn survives<B: ImBackend>(
    backend: &B,
    conv: types::ConvView,
    m: types::MessageView,
) -> bool {
    &&& exists|id_part: Seq<char>|
        backend.block_of(conv, m) == #[trigger] blocks::block_with(m, id_part)
            && blocks::storable(m, id_part)
    &&& !text::has(item_of(backend, conv, m), "\n## "@)
}

/// A message behind its block mark.
spec fn behind_mark<B: ImBackend>(
    backend: &B,
    conv: types::ConvView,
    m: types::MessageView,
) -> Seq<char> {
    item_of(backend, conv, m).skip(3)
}

proof fn lemma_item_mark<B: ImBackend>(backend: &B, conv: types::ConvView, m: types::MessageView)
    requires
        survives(backend, conv, m),
    ensures
        item_of(backend, conv, m) == "## "@ + behind_mark(backend, conv, m),
        !text::has(behind_mark(backend, conv, m), "\n## "@),
{
    reveal_strlit("## ");
    reveal_strlit("\n## ");
    let item = item_of(backend, conv, m);
    let c = behind_mark(backend, conv, m);
    let id_part = choose|id_part: Seq<char>|
        backend.block_of(conv, m) == #[trigger] blocks::block_with(m, id_part)
            && blocks::storable(m, id_part);
    assert(blocks::block_with(m, id_part).take(3) =~= "## "@);
    assert(item.take(3) =~= "## "@);
    assert(item =~= "## "@ + c);
    if text::has(c, "\n## "@) {
        let i = choose|i: int| text::occurs_at(c, "\n## "@, i);
        assert(item.subrange(i + 3, i + 7) =~= c.subrange(i, i + 4));
        assert(text::occurs_at(item, "\n## "@, i + 3));
    }
}

/// A text without the mark that ends right before it is split off.
proof fn lemma_mark_splits(a: Seq<char>, b: Seq<char>)
    requires
        !text::has(a, "\n## "@),
    ensures
        pieces::split_of(a + "\n## "@ + b, "\n## "@) == seq![a] + pieces::split_of(b, "\n## "@),
{
    reveal_strlit("\n## ");
    let sep = "\n## "@;
    let s = a + sep + b;
    assert forall|i: int| 0 <= i < a.len() implies !text::occurs_at(s, sep, i) by {
        if text::occurs_at(s, sep, i) {
            if i + 4 <= a.len() {
                assert(a.subrange(i, i + 4) =~= s.subrange(i, i + 4));
                assert(text::occurs_at(a, sep, i));
            } else {
                let k = a.len() - i;
                assert(s.subrange(i, i + 4)[k] == sep[k]);
                assert(s[a.len() as int] == sep[0]);
            }
        }
    }
    pieces::lemma_split_cons(a, sep, b);
}

proof fn lemma_mark_absent(a: Seq<char>)
    requires
        !text::has(a, "\n## "@),
    ensures
        !text::has(a + seq!['\n'], "\n## "@),
{
    reveal_strlit("\n## ");
    let sep = "\n## "@;
    let s = a + seq!['\n'];
    if text::has(s, sep) {
        let i = choose|i: int| text::occurs_at(s, sep, i);
        if i + 4 <= a.len() {
            assert(a.subrange(i, i + 4) =~= s.subrange(i, i + 4));
            assert(text::occurs_at(a, sep, i));
        } else {
            assert(s.subrange(i, i + 4)[3] == sep[3]);
            assert(s[i + 3] == '\n');
        }
    }
}

/// The pieces between the marks of messages that survive: each message behind its mark,
/// the last with a line feed.
proof fn lemma_items_split<B: ImBackend>(
    backend: &B,
    conv: types::ConvView,
    msgs: Seq<types::MessageView>,
) -> (ps: Seq<Seq<char>>)
    requires
        msgs.len() > 0,
        forall|i: int| 0 <= i < msgs.len() ==> survives(backend, conv, #[trigger] msgs[i]),
    ensures
        items_of(backend, conv, msgs).len() >= 3,
        items_of(backend, conv, msgs).take(3) == "## "@,
        pieces::split_of(items_of(backend, conv, msgs).skip(3), "\n## "@) == ps,
        ps.len() == msgs.len(),
        forall|i: int|
            0 <= i < msgs.len() ==> #[trigger] ps[i] == behind_mark(backend, conv, msgs[i]) || ps[i]
                == behind_mark(backend, conv, msgs[i]) + seq!['\n'],
    decreases msgs.len(),
{
    reveal_strlit("## ");
    reveal_strlit("\n## ");
    let nl = seq!['\n'];
    let c = behind_mark(backend, conv, msgs[0]);
    lemma_item_mark(backend, conv, msgs[0]);
    let all = items_of(backend, conv, msgs);
    let rest_msgs = msgs.drop_first();
    let rest = items_of(backend, conv, rest_msgs);
    assert(all =~= "## "@ + (c + nl + rest));
    assert(all.take(3) =~= "## "@);
    assert(all.skip(3) =~= c + nl + rest);
    if rest_msgs.len() == 0 {
        assert(c + nl + rest =~= c + nl);
        lemma_mark_absent(c);
        pieces::lemma_split_single(c + nl, "\n## "@);
        let ps = seq![c + nl];
        assert(ps[0] == c + nl);
        ps
    } else {
        assert forall|i: int| 0 <= i < rest_msgs.len() implies survives(
            backend,
            conv,
            #[trigger] rest_msgs[i],
        ) by {
            assert(rest_msgs[i] == msgs[i + 1]);
        }
        let qs = lemma_items_split(backend, conv, rest_msgs);
        let tail = rest.skip(3);
        assert(rest =~= "## "@ + tail);
        assert("\n## "@ =~= nl + "## "@);
        assert(c + nl + rest =~= c + "\n## "@ + tail);
        lemma_mark_splits(c, tail);
        let ps = seq![c] + qs;
        assert forall|i: int| 0 <= i < msgs.len() implies #[trigger] ps[i] == behind_mark(
            backend,
            conv,
            msgs[i],
        ) || ps[i] == behind_mark(backend, conv, msgs[i]) + nl by {
            if i > 0 {
                assert(ps[i] == qs[i - 1]);
                assert(msgs[i] == rest_msgs[i - 1]);
            }
        }
        ps
    }
}

proof fn lemma_pieces_read_back<B: ImBackend>(
    backend: &B,
    conv: types::ConvView,
    msgs: Seq<types::MessageView>,
    ps: Seq<Seq<char>>,
)
    requires
        ps.len() == msgs.len(),
        forall|i: int|
            0 <= i < msgs.len() ==> survives(backend, conv, #[trigger] msgs[i])
                && time::well_stamped(msgs[i].timestamp),
        forall|i: int|
            0 <= i < msgs.len() ==> #[trigger] ps[i] == behind_mark(backend, conv, msgs[i]) || ps[i]
                == behind_mark(backend, conv, msgs[i]) + seq!['\n'],
    ensures
        read_pieces(ps) == recovered_all(msgs),
    decreases msgs.len(),
{
    if msgs.len() > 0 {
        let n = msgs.len() - 1;
        let m = msgs[n];
        assert forall|i: int| 0 <= i < n implies survives(
            backend,
            conv,
            #[trigger] msgs.drop_last()[i],
        ) && time::well_stamped(msgs.drop_last()[i].timestamp) by {
            assert(msgs.drop_last()[i] == msgs[i]);
        }
        assert forall|i: int| 0 <= i < n implies #[trigger] ps.drop_last()[i] == behind_mark(
            backend,
            conv,
            msgs.drop_last()[i],
        ) || ps.drop_last()[i] == behind_mark(backend, conv, msgs.drop_last()[i]) + seq!['\n'] by {
            assert(ps.drop_last()[i] == ps[i]);
        }
        lemma_pieces_read_back(backend, conv, msgs.drop_last(), ps.drop_last());
        lemma_item_mark(backend, conv, m);
        assert(ps[n] == ps.last());
        let lines = attachment_lines(m.attachments);
        let id_part = choose|id_part: Seq<char>|
            backend.block_of(conv, m) == #[trigger] blocks::block_with(m, id_part)
                && blocks::storable(m, id_part);
        let block = blocks::block_with(m, id_part);
        if ps.last() == behind_mark(backend, conv, m) {
            assert("## "@ + ps.last() =~= block + lines);
            blocks::lemma_block_reads_back(m, id_part, lines);
        } else {
            assert("## "@ + ps.last() =~= block + (lines + seq!['\n']));
            blocks::lemma_block_reads_back(m, id_part, lines + seq!['\n']);
        }
    }
}

/// A file whose messages all survive gives them back.
proof fn lemma_payload_reads_back<B: ImBackend>(
    backend: &B,
    conv: types::ConvView,
    msgs: Seq<types::MessageView>,
    anchors: Seq<Seq<char>>,
)
    requires
        !text::has(header_of(backend.name(), conv, msgs.len(), anchors), "\n## "@),
        forall|i: int|
            0 <= i < msgs.len() ==> survives(backend, conv, #[trigger] msgs[i])
                && time::well_stamped(msgs[i].timestamp),
    ensures
        parsed_payload(payload_of(backend, conv, msgs, anchors)) == recovered_all(msgs),
{
    reveal_strlit("## ");
    reveal_strlit("\n## ");
    let nl = seq!['\n'];
    let h = header_of(backend.name(), conv, msgs.len(), anchors);
    let all = payload_of(backend, conv, msgs, anchors);
    if msgs.len() == 0 {
        assert(all =~= h + nl);
        lemma_mark_absent(h);
        pieces::lemma_split_single(all, "\n## "@);
        assert(seq![all].drop_first() =~= Seq::<Seq<char>>::empty());
    } else {
        let ps = lemma_items_split(backend, conv, msgs);
        let items = items_of(backend, conv, msgs);
        let tail = items.skip(3);
        assert(items =~= "## "@ + tail);
        assert("\n## "@ =~= nl + "## "@);
        assert(all =~= h + "\n## "@ + tail);
        lemma_mark_splits(h, tail);
        assert((seq![h] + ps).drop_first() =~= ps);
        lemma_pieces_read_back(backend, conv, msgs, ps);
    }
}

/// The file of a conversation. Where the header and every message can be told from block
/// marks, reading the file gives every message back.
pub fn render_chat_payload<B: ImBackend>(
    backend: &B,
    conv: &ImConversation,
    messages: &Vec<ImMessage>,
    proposed_anchors: &Vec<String>,
) -> (r: String)
    requires
        forall|i: int| 0 <= i < messages@.len() ==> (#[trigger] messages@[i]).timestamp.wf(),
    ensures
        r@ == payload_of(
            backend,
            conv@,
            types::message_views(messages@),
            text::texts(proposed_anchors@),
        ),
        !text::has(
            header_of(
                backend.name(),
                conv@,
                messages@.len(),
                text::texts(proposed_anchors@),
            ),
            "\n## "@,
        ) && (forall|i: int|
            0 <= i < messages@.len() ==> survives(backend, conv@, (#[trigger] messages@[i])@))
            ==> parsed_payload(r@) == recovered_all(types::message_views(messages@)),
{
    let ghost all = types::message_views(messages@);
    let ghost anchors = text::texts(proposed_anchors@);
    let source = backend.source();
    let mut out = write_header(source.as_str(), conv, messages.len(), proposed_anchors);
    out.push('\n');
    let ghost head = out@;
    let mut i: usize = 0;
    assert(all.skip(0) =~= all);
    assert(head + items_of(backend, conv@, all.skip(0)) =~= payload_of(
        backend,
        conv@,
        all,
        anchors,
    ));
    while i < messages.len()
        invariant
            i <= messages@.len(),
            all == types::message_views(messages@),
            forall|k: int| 0 <= k < messages@.len() ==> (#[trigger] messages@[k]).timestamp.wf(),
            forall|k: int| 0 <= k < i ==> time::well_stamped((#[trigger] messages@[k]).timestamp),
            out@ + items_of(backend, conv@, all.skip(i as int)) == payload_of(
                backend,
                conv@,
                all,
                anchors,
            ),
        decreases messages@.len() - i,
    {
        let ghost before = out@;
        let m = &messages[i];
        let block = backend.render_message_block(conv, m);
        out.append(block.as_str());
        let ghost views = types::attachment_views(m.attachments@);
        let mut k: usize = 0;
        assert(out@ =~= before + block@ + attachment_lines(views.take(0)));
        while k < m.attachments.len()
            invariant
                k <= m.attachments@.len(),
                views == types::attachment_views(m.attachments@),
                out@ == before + block@ + attachment_lines(views.take(k as int)),
            decreases m.attachments@.len() - k,
        {
            assert(views.take(k + 1).drop_last() =~= views.take(k as int));
            assert(views.take(k + 1).last() == m.attachments@[k as int]@);
            push_attachment(&mut out, &m.attachments[k]);
            k += 1;
            assert(out@ =~= before + block@ + attachment_lines(views.take(k as int)));
        }
        assert(views.take(k as int) =~= views);
        out.push('\n');
        proof {
            let item = item_of(backend, conv@, m@);
            assert(all.skip(i as int)[0] == m@);
            assert(all.skip(i as int).drop_first() =~= all.skip(i + 1));
            let rest = items_of(backend, conv@, all.skip(i + 1));
            assert(out@ =~= before + (item + seq!['\n']));
            assert(before + (item + seq!['\n'] + rest) =~= out@ + rest);
        }
        i += 1;
    }
    proof {
        assert(all.skip(i as int) =~= Seq::<types::MessageView>::empty());
        assert(out@ + Seq::<char>::empty() =~= out@);
        let safe = !text::has(
            header_of(backend.name(), conv@, messages@.len(), anchors),
            "\n## "@,
        ) && (forall|k: int|
            0 <= k < messages@.len() ==> survives(backend, conv@, (#[trigger] messages@[k])@));
        if safe {
            assert forall|k: int| 0 <= k < all.len() implies survives(
                backend,
                conv@,
                #[trigger] all[k],
            ) && time::well_stamped(all[k].timestamp) by {
                assert(all[k] == messages@[k]@);
            }
            lemma_payload_reads_back(backend, conv@, all, anchors);
        }
    }
    out
}

// ---------------------------------------------------------------------------
// Laws
// ---------------------------------------------------------------------------

/// Messages whose ids differ when the white space around them is left out are all read
/// back, each under its id, and nothing else is.
pub proof fn law_distinct_messages_are_all_kept(msgs: Seq<types::MessageView>)
    requires
        forall|i: int, j: int|
            0 <= i < j < msgs.len() ==> pieces::trimmed((#[trigger] msgs[i]).id) != pieces::trimmed(
                (#[trigger] msgs[j]).id,
            ),
    ensures
        forall|i: int|
            0 <= i < msgs.len() ==> {
                let k = pieces::trimmed((#[trigger] msgs[i]).id);
                recovered_all(msgs).contains_key(k) && recovered_all(msgs)[k] == blocks::recovered(
                    msgs[i],
                )
            },
        forall|k: Seq<char>|
            recovered_all(msgs).contains_key(k) ==> exists|i: int|
                0 <= i < msgs.len() && pieces::trimmed((#[trigger] msgs[i]).id) == k,
    decreases msgs.len(),
{
    if msgs.len() > 0 {
        let n = msgs.len() - 1;
        let front = msgs.drop_last();
        assert forall|i: int, j: int| 0 <= i < j < front.len() implies pieces::trimmed(
            (#[trigger] front[i]).id,
        ) != pieces::trimmed((#[trigger] front[j]).id) by {
            assert(front[i] == msgs[i] && front[j] == msgs[j]);
        }
        law_distinct_messages_are_all_kept(front);
        let all = recovered_all(msgs);
        assert forall|i: int| 0 <= i < msgs.len() implies {
            let k = pieces::trimmed((#[trigger] msgs[i]).id);
            all.contains_key(k) && all[k] == blocks::recovered(msgs[i])
        } by {
            if i < n {
                assert(front[i] == msgs[i]);
                assert(pieces::trimmed(msgs[i].id) != pieces::trimmed(msgs[n].id));
            }
        }
        assert forall|k: Seq<char>| all.contains_key(k) implies exists|i: int|
            0 <= i < msgs.len() && pieces::trimmed((#[trigger] msgs[i]).id) == k by {
            if recovered_all(front).contains_key(k) {
                let i = choose|i: int|
                    0 <= i < front.len() && pieces::trimmed((#[trigger] front[i]).id) == k;
                assert(msgs[i] == front[i]);
            } else {
                assert(pieces::trimmed(msgs[n].id) == k);
            }
        }
    }
}

/// A conversation's file gives back the messages that were written into it: each under its
/// trimmed id, with its time to the second, its sender and its text, as far as nothing in them
/// looks like the file's own marks.
pub proof fn law_files_give_their_messages_back<B: ImBackend>(
    backend: &B,
    conv: types::ConvView,
    msgs: Seq<types::MessageView>,
    anchors: Seq<Seq<char>>,
    i: int,
)
    requires
        !text::has(header_of(backend.name(), conv, msgs.len(), anchors), "\n## "@),
        forall|k: int|
            0 <= k < msgs.len() ==> survives(backend, conv, #[trigger] msgs[k])
                && time::well_stamped(msgs[k].timestamp),
        forall|k: int, j: int|
            0 <= k < j < msgs.len() ==> pieces::trimmed((#[trigger] msgs[k]).id) != pieces::trimmed(
                (#[trigger] msgs[j]).id,
            ),
        0 <= i < msgs.len(),
    ensures
        ({
            let back = parsed_payload(payload_of(backend, conv, msgs, anchors));
            let id = pieces::trimmed(msgs[i].id);
            &&& back.contains_key(id)
            &&& back[id].id == id
            &&& back[id].timestamp.secs == msgs[i].timestamp.secs && back[id].timestamp.nanos == 0
            &&& back[id].text == blocks::kept_text(msgs[i].text)
            &&& msgs[i].sender is None ==> back[id].sender is None
            &&& forall|k: Seq<char>|
                back.contains_key(k) ==> exists|j: int|
                    0 <= j < msgs.len() && pieces::trimmed((#[trigger] msgs[j]).id) == k
        }),
{
    lemma_payload_reads_back(backend, conv, msgs, anchors);
    law_distinct_messages_are_all_kept(msgs);
    blocks::law_messages_are_recovered(msgs[i]);
}

/// A conversation's file begins with what the conversation is, and says how many messages it
/// holds; where workspaces were made of it before, their anchors are told.
pub proof fn law_headers_tell_of_the_conversation(
    source: Seq<char>,
    conv: types::ConvView,
    count: nat,
    anchors: Seq<Seq<char>>,
)
    ensures
        ({
            let label = match conv.label {
                Some(l) => l,
                None => conv.id,
            };
            let kind = match conv.kind {
                types::ImConversationKind::Dm => "dm"@,
                types::ImConversationKind::GroupDm => "group_dm"@,
                types::ImConversationKind::Channel => "channel"@,
                types::ImConversationKind::PrivateChannel => "private_channel"@,
            };
            let told = if anchors.len() == 0 {
                Seq::<char>::empty()
            } else {
                "- last_proposed_anchors: "@ + pieces::joined(anchors, ", "@) + "\n"@
                    + "  (the LLM has already created workspaces for these anchors — skip them)\n"@
            };
            header_of(source, conv, count, anchors) == "# "@ + source + " chat — "@ + label
                + "\n\n"@ + "- conversation_id: "@ + conv.id + "\n"@ + "- kind: "@ + kind + "\n"@
                + "- window: last "@ + numbers::decimal(7) + " days, "@ + numbers::decimal(count)
                + " messages\n"@ + told + "\n---\n"@
        }),
{
}

/// Every message has its place in the file, behind those before it: its block, then a line for
/// each of its attachments, and an empty line.
pub proof fn law_every_message_is_written<B: ImBackend>(
    backend: &B,
    conv: types::ConvView,
    msgs: Seq<types::MessageView>,
    m: types::MessageView,
)
    ensures
        items_of(backend, conv, msgs.push(m)) == items_of(backend, conv, msgs) + backend.block_of(
            conv,
            m,
        ) + attachment_lines(m.attachments) + seq!['\n'],
        items_of(backend, conv, seq![]) == Seq::<char>::empty(),
    decreases msgs.len(),
{
    if msgs.len() == 0 {
        assert(msgs.push(m).drop_first() =~= msgs);
        assert(items_of(backend, conv, msgs.push(m)) =~= items_of(backend, conv, msgs)
            + backend.block_of(conv, m) + attachment_lines(m.attachments) + seq!['\n']);
    } else {
        law_every_message_is_written(backend, conv, msgs.drop_first(), m);
        assert(msgs.push(m).drop_first() =~= msgs.drop_first().push(m));
        assert(items_of(backend, conv, msgs.push(m)) =~= items_of(backend, conv, msgs)
            + backend.block_of(conv, m) + attachment_lines(m.attachments) + seq!['\n']);
    }
}

/// An attachment's line tells what it is called, or else its name, its type, its size and
/// where it lies.
pub proof fn law_attachments_are_told(
    v: Seq<types::AttachmentView>,
    a: types::AttachmentView,
)
    ensures
        attachment_lines(v.push(a)) == attachment_lines(v) + ("📎 attachment: "@ + (match a.alt {
            Some(alt) => alt,
            None => a.filename,
        }) + " ("@ + (match a.mime_type {
            Some(m) => m,
            None => "application/octet-stream"@,
        }) + ", "@ + numbers::decimal(a.bytes as nat) + " bytes) — "@ + a.local_path + "\n"@),
        attachment_lines(seq![]) == Seq::<char>::empty(),
{
    assert(v.push(a).drop_last() =~= v);
}

} // verus!
