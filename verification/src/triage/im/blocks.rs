//! The text of one message, written and read back.
//!
//! A block is a heading with the message's time, sender and id, and its text between
//! fences. A backend may put a note behind the id. What is written so,
//! [`parse_message_block`] reads.
use vstd::prelude::*;
use crate::json;
use crate::json::Json;
use crate::pieces;
use crate::text;
use crate::time;
use crate::triage::im::types;
use crate::triage::im::types::{ImConversation, ImMessage};

verus! {

// ---------------------------------------------------------------------------
// Writing
// ---------------------------------------------------------------------------

/// The sender as it is shown.
pub open spec fn sender_text(m: types::MessageView) -> Seq<char> {
    match m.sender {
        Some(s) => s,
        None => "(unknown)"@,
    }
}

/// A block with the given id part in its heading.
pub open spec fn block_with(m: types::MessageView, id_part: Seq<char>) -> Seq<char> {
    "## "@ + time::stamp_of(m.timestamp) + " — "@ + sender_text(m) + " · id:"@ + id_part + "\n"@
        + "```\n"@ + pieces::trimmed(m.text) + "\n```\n"@
}

/// The block of a message.
pub open spec fn default_block_of(m: types::MessageView) -> Seq<char> {
    block_with(m, m.id)
}

/// Writes a block with the given id part in its heading.
pub fn write_block(msg: &ImMessage, id_part: &str) -> (r: String)
    requires
        msg.timestamp.wf(),
    ensures
        r@ == block_with(msg@, id_part@),
        time::well_stamped(msg.timestamp),
{
    let sender = match &msg.sender {
        Some(s) => s.as_str(),
        None => "(unknown)",
    };
    let ts = time::format_rfc3339(msg.timestamp);
    let body = pieces::trim(msg.text.as_str());
    let mut out = "## ".to_string();
    out.append(ts.as_str());
    out.append(" — ");
    out.append(sender);
    out.append(" · id:");
    out.append(id_part);
    out.append("\n");
    out.append("```\n");
    out.append(body.as_str());
    out.append("\n```\n");
    out
}

// ---------------------------------------------------------------------------
// Reading
// ---------------------------------------------------------------------------

/// The lines between the first two fences, or from the first fence on where there is but
/// one. `inside` tells that the first fence has gone by.
pub open spec fn fenced(lines: Seq<Seq<char>>, inside: bool) -> Seq<Seq<char>>
    decreases lines.len(),
{
    if lines.len() == 0 {
        seq![]
    } else if text::begins(lines[0], "```"@) {
        if inside {
            seq![]
        } else {
            fenced(lines.drop_first(), true)
        }
    } else if inside {
        seq![lines[0]] + fenced(lines.drop_first(), true)
    } else {
        fenced(lines.drop_first(), false)
    }
}

/// The id in a heading's id part: what stands before a note, where there is one.
pub open spec fn told_id(id_part: Seq<char>) -> Seq<char> {
    match pieces::split_once_of(id_part, " · "@) {
        Some((id, _)) => pieces::trimmed(id),
        None => pieces::trimmed(id_part),
    }
}

/// The sender and the id that a heading gives behind its time.
pub open spec fn sender_and_id(rest: Seq<char>) -> (Seq<char>, Seq<char>) {
    match pieces::split_once_of(rest, " · id:"@) {
        Some((s, i)) => (pieces::trimmed(s), told_id(i)),
        None => (pieces::trimmed(rest), seq![]),
    }
}

/// The sender that a heading's text stands for.
pub open spec fn sender_of(s: Seq<char>) -> Option<Seq<char>> {
    if s.len() == 0 || s == "(unknown)"@ {
        None
    } else {
        Some(s)
    }
}

/// A message as it is read back from a file.
pub open spec fn read_back(
    id: Seq<char>,
    timestamp: time::Timestamp,
    sender: Option<Seq<char>>,
    body: Seq<char>,
) -> types::MessageView {
    types::MessageView {
        id,
        timestamp,
        sender,
        text: body,
        external_url: None,
        deleted: false,
        attachments: seq![],
        raw: json::Tree::Null,
    }
}

/// The message that a block gives back. Without a heading that tells time and id there is
/// none.
pub open spec fn parsed_block(block: Seq<char>) -> Option<types::MessageView> {
    let lines = pieces::lines_of(block);
    if lines.len() == 0 {
        None
    } else {
        match pieces::split_once_of(pieces::without_prefixes(lines[0], "## "@), " — "@) {
            None => None,
            Some((stamp, rest)) => match time::instant_of(pieces::trimmed(stamp)) {
                None => None,
                Some(t) => {
                    let (sender, id) = sender_and_id(rest);
                    if id.len() == 0 {
                        None
                    } else {
                        Some(
                            read_back(
                                id,
                                t,
                                sender_of(sender),
                                pieces::joined(fenced(lines.drop_first(), false), "\n"@),
                            ),
                        )
                    }
                },
            },
        }
    }
}

/// Reads the lines between the fences.
fn read_fenced(lines: &Vec<String>) -> (r: Vec<String>)
    requires
        lines@.len() > 0,
    ensures
        text::texts(r@) == fenced(text::texts(lines@).drop_first(), false),
{
    let ghost all = text::texts(lines@);
    let mut out: Vec<String> = Vec::new();
    let mut inside = false;
    let mut i: usize = 1;
    assert(all.skip(1) =~= all.drop_first());
    assert(text::texts(out@) + fenced(all.skip(1), false) =~= fenced(all.skip(1), false));
    while i < lines.len()
        invariant
            1 <= i <= lines@.len(),
            all == text::texts(lines@),
            text::texts(out@) + fenced(all.skip(i as int), inside) == fenced(
                all.drop_first(),
                false,
            ),
        decreases lines@.len() - i,
    {
        let line = lines[i].as_str();
        assert(all.skip(i as int)[0] == line@);
        assert(all.skip(i as int).drop_first() =~= all.skip(i + 1));
        if text::starts_with(line, "```") {
            if inside {
                assert(text::texts(out@) + Seq::<Seq<char>>::empty() =~= text::texts(out@));
                return out;
            }
            inside = true;
        } else if inside {
            let ghost before = text::texts(out@);
            out.push(lines[i].clone());
            assert(text::texts(out@) =~= before.push(line@));
            assert(before + (seq![line@] + fenced(all.skip(i + 1), true)) =~= text::texts(out@)
                + fenced(all.skip(i + 1), true));
        }
        i += 1;
    }
    assert(all.skip(i as int) =~= Seq::<Seq<char>>::empty());
    assert(text::texts(out@) + Seq::<Seq<char>>::empty() =~= text::texts(out@));
    out
}

fn read_id(id_part: &str) -> (r: String)
    ensures
        r@ == told_id(id_part@),
{
    match pieces::split_once(id_part, " · ") {
        Some((id, _)) => pieces::trim(id.as_str()),
        None => pieces::trim(id_part),
    }
}

/// Reads a block back.
pub fn parse_message_block(block: &str) -> (r: Option<ImMessage>)
    ensures
        match r {
            Some(m) => parsed_block(block@) == Some(m@) && m.timestamp.wf(),
            None => parsed_block(block@) is None,
        },
{
    let lines = pieces::lines(block);
    let ghost all = text::texts(lines@);
    if lines.len() == 0 {
        return None;
    }
    assert(all[0] == lines@[0]@);
    let header = pieces::strip_prefixes(lines[0].as_str(), "## ");
    let (stamp, rest) = match pieces::split_once(header.as_str(), " — ") {
        Some(p) => p,
        None => {
            return None;
        },
    };
    let timestamp = match time::parse_rfc3339(pieces::trim(stamp.as_str()).as_str()) {
        Some(t) => t,
        None => {
            return None;
        },
    };
    let (sender_part, id) = match pieces::split_once(rest.as_str(), " · id:") {
        Some((s, i)) => (pieces::trim(s.as_str()), read_id(i.as_str())),
        None => (pieces::trim(rest.as_str()), String::new()),
    };
    assert((sender_part@, id@) == sender_and_id(rest@));
    if id.as_str().is_empty() {
        return None;
    }
    let body = read_fenced(&lines);
    let body_text = pieces::join(&body, "\n");
    let sender = if sender_part.as_str().is_empty() || text::same(
        sender_part.as_str(),
        "(unknown)",
    ) {
        None
    } else {
        Some(sender_part)
    };
    let m = ImMessage {
        id,
        timestamp,
        sender,
        text: body_text,
        external_url: None,
        deleted: false,
        attachments: Vec::new(),
        raw: Json::Null,
    };
    proof {
        assert(m@.attachments =~= seq![]);
        assert(parsed_block(block@) == Some(m@));
    }
    Some(m)
}

// ---------------------------------------------------------------------------
// What is written is read back
// ---------------------------------------------------------------------------

/// The text holds no line feed.
pub open spec fn one_line(s: Seq<char>) -> bool {
    forall|i: int| 0 <= i < s.len() ==> s[i] != '\n'
}

/// A message whose heading can be read back: its time lies in the years that are written
/// with four digits and in no leap second, sender and id part are one line each, the id
/// part tells the message's id, which says something, and nothing in the sender looks like
/// the beginning of the id part.
pub open spec fn storable(m: types::MessageView, id_part: Seq<char>) -> bool {
    &&& m.timestamp.plain()
    &&& one_line(sender_text(m))
    &&& one_line(id_part)
    &&& pieces::trimmed(m.id).len() > 0
    &&& told_id(id_part) == pieces::trimmed(m.id)
    &&& forall|i: int|
        0 <= i < sender_text(m).len() ==> !text::occurs_at(
            sender_text(m) + " · id:"@,
            " · id:"@,
            i,
        )
}

/// What is read back of a message: its id and sender without white space around them, its
/// time to the second, and its text up to the first line that looks like a fence.
pub open spec fn recovered(m: types::MessageView) -> types::MessageView {
    read_back(
        pieces::trimmed(m.id),
        time::Timestamp { secs: m.timestamp.secs, nanos: 0 },
        sender_of(pieces::trimmed(sender_text(m))),
        kept_text(m.text),
    )
}

/// What is read back of a message's text.
pub open spec fn kept_text(s: Seq<char>) -> Seq<char> {
    pieces::joined(
        fenced(pieces::lines_of(pieces::trimmed(s) + seq!['\n']), true),
        "\n"@,
    )
}

proof fn lemma_fence_closes(l: Seq<Seq<char>>, more: Seq<Seq<char>>)
    requires
        more.len() > 0,
        text::begins(more[0], "```"@),
    ensures
        fenced(l + more, true) == fenced(l, true),
    decreases l.len(),
{
    if l.len() == 0 {
        assert(l + more =~= more);
    } else {
        assert((l + more)[0] == l[0]);
        assert((l + more).drop_first() =~= l.drop_first() + more);
        lemma_fence_closes(l.drop_first(), more);
    }
}

/// The first line of a block, without its end.
spec fn heading(m: types::MessageView, id_part: Seq<char>) -> Seq<char> {
    "## "@ + (time::stamp_of(m.timestamp) + " — "@ + (sender_text(m) + " · id:"@ + id_part))
}

proof fn lemma_heading_one_line(m: types::MessageView, id_part: Seq<char>)
    requires
        storable(m, id_part),
        time::well_stamped(m.timestamp),
    ensures
        one_line(heading(m, id_part)),
{
    reveal_strlit("## ");
    reveal_strlit(" — ");
    reveal_strlit(" · id:");
    let st = time::stamp_of(m.timestamp);
    let snd = sender_text(m);
    let h = heading(m, id_part);
    assert forall|i: int| 0 <= i < h.len() implies h[i] != '\n' by {
        if i < 3 {
            assert(h[i] == "## "@[i]);
        } else if i < 3 + st.len() {
            assert(h[i] == st[i - 3]);
        } else if i < 6 + st.len() {
            assert(h[i] == " — "@[i - 3 - st.len()]);
        } else if i < 6 + st.len() + snd.len() {
            assert(h[i] == snd[i - 6 - st.len()]);
        } else if i < 12 + st.len() + snd.len() {
            assert(h[i] == " · id:"@[i - 6 - st.len() - snd.len()]);
        } else {
            assert(h[i] == id_part[i - 12 - st.len() - snd.len()]);
        }
    }
}

/// The lines of a block, whatever follows it: the heading, and the text's lines between
/// fences.
proof fn lemma_block_lines(m: types::MessageView, id_part: Seq<char>, tail: Seq<char>)
    requires
        storable(m, id_part),
        time::well_stamped(m.timestamp),
    ensures
        ({
            let lines = pieces::lines_of(block_with(m, id_part) + tail);
            &&& lines.len() > 0
            &&& lines[0] == pieces::without_return(heading(m, id_part))
            &&& fenced(lines.drop_first(), false) == fenced(
                pieces::lines_of(pieces::trimmed(m.text) + seq!['\n']),
                true,
            )
        }),
{
    reveal_strlit("\n");
    reveal_strlit("```\n");
    reveal_strlit("\n```\n");
    reveal_strlit("```");
    let nl = seq!['\n'];
    let fence = "```"@;
    let h = heading(m, id_part);
    let body = pieces::trimmed(m.text);
    let close = fence + nl + tail;
    let inner = body + nl + close;
    let rest = fence + nl + inner;
    assert("\n"@ =~= nl);
    assert("```\n"@ =~= fence + nl);
    assert("\n```\n"@ =~= nl + fence + nl);
    assert(block_with(m, id_part) + tail =~= h + nl + rest);
    lemma_heading_one_line(m, id_part);
    pieces::lemma_lines_cons(h, rest);
    assert(one_line(fence));
    pieces::lemma_lines_cons(fence, inner);
    pieces::lemma_lines_concat(body, close);
    pieces::lemma_lines_cons(fence, tail);
    assert(pieces::without_return(fence) == fence);
    let l = pieces::lines_of(body + nl);
    let more = seq![fence] + pieces::lines_of(tail);
    let lines = pieces::lines_of(block_with(m, id_part) + tail);
    assert(lines.drop_first() =~= seq![fence] + (l + more));
    assert(text::begins(fence, "```"@)) by {
        assert(fence.take(3) =~= fence);
    }
    assert((seq![fence] + (l + more))[0] == fence);
    assert((seq![fence] + (l + more)).drop_first() =~= l + more);
    assert(more[0] == fence);
    lemma_fence_closes(l, more);
}

/// The heading gives time, sender and id back.
proof fn lemma_heading_reads_back(m: types::MessageView, id_part: Seq<char>)
    requires
        storable(m, id_part),
        time::well_stamped(m.timestamp),
    ensures
        ({
            let st = time::stamp_of(m.timestamp);
            let line = pieces::without_return(heading(m, id_part));
            let rest = sender_text(m) + " · id:"@ + pieces::without_return(id_part);
            &&& pieces::split_once_of(pieces::without_prefixes(line, "## "@), " — "@) == Some(
                (st, rest),
            )
            &&& pieces::trimmed(st) == st
            &&& sender_and_id(rest) == (
                pieces::trimmed(sender_text(m)),
                pieces::trimmed(m.id),
            )
        }),
{
    reveal_strlit("## ");
    reveal_strlit(" — ");
    reveal_strlit(" · id:");
    let st = time::stamp_of(m.timestamp);
    let snd = sender_text(m);
    let idw = pieces::without_return(id_part);
    let rest = snd + " · id:"@ + idw;
    let after = st + " — "@ + rest;
    let line = pieces::without_return(heading(m, id_part));
    assert(id_part.len() > 0) by {
        if id_part.len() == 0 {
            reveal_strlit(" · ");
            assert(told_id(id_part).len() == 0);
        }
    }
    assert(line =~= "## "@ + after) by {
        assert(heading(m, id_part).last() == id_part.last());
    }
    // The mark of a heading is taken off once: no time begins with it.
    assert(line.take(3) =~= "## "@);
    assert(line.skip(3) =~= after);
    assert(!text::begins(after, "## "@)) by {
        assert(after[0] == st[0]);
        assert(time::stamp_char(st[0]));
        if text::begins(after, "## "@) {
            assert(after.take(3)[0] == "## "@[0]);
        }
    }
    assert(pieces::without_prefixes(line, "## "@) == after) by {
        assert(text::begins(line, "## "@));
        assert(pieces::without_prefixes(after, "## "@) == after);
    }
    // No blank stands in the time.
    assert forall|i: int| 0 <= i < st.len() implies !text::occurs_at(after, " — "@, i) by {
        assert(after[i] == st[i]);
        assert(time::stamp_char(st[i]));
        if text::occurs_at(after, " — "@, i) {
            assert(after.subrange(i, i + 3)[0] == " — "@[0]);
        }
    }
    pieces::lemma_split_cons(st, " — "@, rest);
    assert(time::stamp_char(st[0]) && time::stamp_char(st.last()));
    pieces::lemma_trimmed_fixed(st);
    // Nothing in the sender looks like the beginning of the id.
    let all = snd + " · id:"@;
    assert forall|i: int| 0 <= i < snd.len() implies !text::occurs_at(rest, " · id:"@, i) by {
        if text::occurs_at(rest, " · id:"@, i) {
            assert(all.subrange(i, i + 6) =~= rest.subrange(i, i + 6));
            assert(text::occurs_at(all, " · id:"@, i));
        }
    }
    pieces::lemma_split_cons(snd, " · id:"@, idw);
    lemma_told_without_return(id_part);
}

/// A carriage return at its end does not change the id that an id part tells.
proof fn lemma_told_without_return(id_part: Seq<char>)
    ensures
        told_id(pieces::without_return(id_part)) == told_id(id_part),
{
    reveal_strlit(" · ");
    let sep = " · "@;
    let w = pieces::without_return(id_part);
    pieces::lemma_trimmed_without_return(id_part);
    text::lemma_first_at(id_part, sep, 0);
    match text::first_at(id_part, sep, 0) {
        Some(i) => {
            assert(id_part.subrange(i, i + 3)[2] == sep[2]);
            assert(id_part[i + 2] == ' ');
            assert(w.subrange(i, i + 3) =~= id_part.subrange(i, i + 3));
            assert(text::occurs_at(w, sep, i));
            assert forall|k: int| 0 <= k < i implies !text::occurs_at(w, sep, k) by {
                assert(w.subrange(k, k + 3) =~= id_part.subrange(k, k + 3));
                assert(!text::occurs_at(id_part, sep, k));
            }
            text::lemma_first_at_is(w, sep, 0, i);
            assert(w.take(i) =~= id_part.take(i));
        },
        None => {
            assert forall|k: int| 0 <= k implies !text::occurs_at(w, sep, k) by {
                if text::occurs_at(w, sep, k) {
                    assert(w.subrange(k, k + 3) =~= id_part.subrange(k, k + 3));
                    assert(text::occurs_at(id_part, sep, k));
                }
            }
            text::lemma_first_at_none(w, sep, 0);
        },
    }
}

/// An id part tells the id before a note, where nothing in the id looks like the beginning
/// of one.
pub proof fn lemma_told_before_note(id: Seq<char>, note: Seq<char>)
    requires
        forall|i: int| 0 <= i < id.len() ==> !text::occurs_at(id + " · "@, " · "@, i),
    ensures
        told_id(id + " · "@ + note) == pieces::trimmed(id),
        told_id(id) == pieces::trimmed(id),
{
    reveal_strlit(" · ");
    let sep = " · "@;
    let all = id + sep + note;
    assert forall|i: int| 0 <= i < id.len() implies !text::occurs_at(all, sep, i) by {
        assert(all.subrange(i, i + 3) =~= (id + sep).subrange(i, i + 3));
        assert(!text::occurs_at(id + sep, sep, i));
    }
    pieces::lemma_split_cons(id, sep, note);
    assert forall|i: int| 0 <= i implies !text::occurs_at(id, sep, i) by {
        if text::occurs_at(id, sep, i) {
            assert((id + sep).subrange(i, i + 3) =~= id.subrange(i, i + 3));
            assert(text::occurs_at(id + sep, sep, i));
        }
    }
    text::lemma_first_at_none(id, sep, 0);
}

/// A block that was written is read back, whatever follows it.
pub(crate) proof fn lemma_block_reads_back(
    m: types::MessageView,
    id_part: Seq<char>,
    tail: Seq<char>,
)
    requires
        storable(m, id_part),
        time::well_stamped(m.timestamp),
    ensures
        parsed_block(block_with(m, id_part) + tail) == Some(recovered(m)),
{
    lemma_block_lines(m, id_part, tail);
    lemma_heading_reads_back(m, id_part);
}

/// The block of a message. A message whose heading can be read back is recovered from its
/// block.
pub fn default_message_block(_conv: &ImConversation, msg: &ImMessage) -> (r: String)
    requires
        msg.timestamp.wf(),
    ensures
        r@ == default_block_of(msg@),
        storable(msg@, msg@.id) ==> parsed_block(r@) == Some(recovered(msg@)),
        time::well_stamped(msg.timestamp),
{
    let r = write_block(msg, msg.id.as_str());
    proof {
        if storable(msg@, msg@.id) {
            lemma_block_reads_back(msg@, msg@.id, Seq::empty());
            assert(r@ + Seq::<char>::empty() =~= r@);
        }
    }
    r
}

// ---------------------------------------------------------------------------
// Laws
// ---------------------------------------------------------------------------

proof fn lemma_no_fence(l: Seq<Seq<char>>)
    requires
        forall|i: int| 0 <= i < l.len() ==> !text::begins(#[trigger] l[i], "```"@),
    ensures
        fenced(l, true) == l,
    decreases l.len(),
{
    if l.len() > 0 {
        lemma_no_fence(l.drop_first());
        assert(seq![l[0]] + l.drop_first() =~= l);
    }
}

/// A text without carriage returns and without a line that looks like a fence is read
/// back as it was, but for the white space around it.
pub proof fn law_clean_text_is_kept(s: Seq<char>)
    requires
        forall|i: int| 0 <= i < s.len() ==> s[i] != '\r',
        forall|i: int|
            0 <= i < pieces::lines_of(pieces::trimmed(s) + seq!['\n']).len() ==> !text::begins(
                #[trigger] pieces::lines_of(pieces::trimmed(s) + seq!['\n'])[i],
                "```"@,
            ),
    ensures
        kept_text(s) == pieces::trimmed(s),
{
    reveal_strlit("\n");
    assert("\n"@ =~= seq!['\n']);
    let t = pieces::trimmed(s);
    pieces::lemma_trimmed_ends(s);
    let (a, b) = choose|a: int, b: int| 0 <= a <= b <= s.len() && t == s.subrange(a, b);
    assert forall|i: int| 0 <= i < t.len() implies t[i] != '\r' by {
        assert(t[i] == s[a + i]);
    }
    lemma_no_fence(pieces::lines_of(t + seq!['\n']));
    pieces::lemma_lines_join(t);
}

/// What is read back of a message is the message: its id, its time to the second and its
/// sender, unless it has none. A sender without white space around it is read back as it was.
pub proof fn law_messages_are_recovered(m: types::MessageView)
    ensures
        ({
            let r = recovered(m);
            &&& r.id == pieces::trimmed(m.id)
            &&& r.timestamp.secs == m.timestamp.secs && r.timestamp.nanos == 0
            &&& m.sender is None ==> r.sender is None
            &&& m.sender matches Some(s) ==> (s.len() > 0 && s != "(unknown)"@ && !pieces::white(
                s[0],
            ) && !pieces::white(s.last()) ==> r.sender == m.sender)
            &&& !r.deleted && r.attachments.len() == 0 && r.external_url is None
        }),
{
    reveal_strlit("(unknown)");
    let unknown = "(unknown)"@;
    assert(unknown.len() == 9 && unknown[0] == '(' && unknown[8] == ')');
    pieces::lemma_trimmed_fixed(unknown);
    match m.sender {
        Some(s) => {
            if s.len() > 0 && !pieces::white(s[0]) && !pieces::white(s.last()) {
                pieces::lemma_trimmed_fixed(s);
            }
        },
        None => {},
    }
}

/// A block tells the time, the sender and the id in its heading, and has the trimmed text
/// between two fences.
pub proof fn law_blocks_show_their_message(m: types::MessageView)
    ensures
        default_block_of(m) == "## "@ + time::rfc3339_text(m.timestamp.secs, m.timestamp.nanos)
            + " — "@ + (match m.sender {
            Some(s) => s,
            None => "(unknown)"@,
        }) + " · id:"@ + m.id + "\n"@ + "```\n"@ + pieces::trimmed(m.text) + "\n```\n"@,
{
}

/// A heading's id is what stands before a note behind it, without white space around it; a
/// heading without an id part tells no id, and then its block gives no message back.
pub proof fn law_headings_tell_sender_and_id(sender: Seq<char>, id: Seq<char>)
    requires
        !text::has(sender + " · id:"@ + id, " · id:"@) || text::first_at(
            sender + " · id:"@ + id,
            " · id:"@,
            0,
        ) == Some(sender.len() as int),
        !text::has(id, " · "@),
    ensures
        sender_and_id(sender + " · id:"@ + id) == (pieces::trimmed(sender), pieces::trimmed(id)),
{
    let rest = sender + " · id:"@ + id;
    let mark = " · id:"@;
    assert(rest.subrange(sender.len() as int, (sender.len() + mark.len()) as int) =~= mark);
    assert(text::occurs_at(rest, mark, sender.len() as int));
    text::lemma_first_at(rest, mark, 0);
    assert(rest.take(sender.len() as int) =~= sender);
    assert(rest.skip((sender.len() + mark.len()) as int) =~= id);
    text::lemma_first_at(id, " · "@, 0);
    match text::first_at(id, " · "@, 0) {
        Some(i) => {
            assert(text::occurs_at(id, " · "@, i));
        },
        None => {},
    }
}

} // verus!
