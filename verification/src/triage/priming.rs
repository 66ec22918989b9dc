//! Priming: the plan that a triage workspace starts with, and how it reaches the agent
//! once, before the user's first request.
use vstd::prelude::*;
use crate::json;
use crate::json::Json;
use crate::order;
use crate::pieces;
use crate::text;

verus! {

/// The kind of a workspace that triage made and nobody has used yet.
pub const TRIAGE_KIND: &'static str = "ai_triage";

/// The kind of a workspace that its user has taken over.
pub const MANUAL_KIND: &'static str = "manual";

/// A plan as context that an agent reads ahead of a request.
pub open spec fn wrapped(plan: Seq<char>) -> Seq<char> {
    "<discovered-context>\n"@ + pieces::trimmed(plan)
        + "\n</discovered-context>\n\nThe user has reviewed the above context and now requests:"@
}

/// Marks a plan as context that an agent reads ahead of a request.
pub fn wrap_priming(priming_text: &str) -> (r: String)
    ensures
        r@ == wrapped(priming_text@),
{
    let mut out = "<discovered-context>\n".to_string();
    out.append(pieces::trim(priming_text).as_str());
    out.append(
        "\n</discovered-context>\n\nThe user has reviewed the above context and now requests:",
    );
    out
}

// ---------------------------------------------------------------------------
// The plan in a stored message
// ---------------------------------------------------------------------------

/// The text of a block, where it is a text block.
pub open spec fn block_text(t: json::Tree) -> Option<Seq<char>> {
    if t.text_at("type"@) == Some("text"@) {
        t.text_at("text"@)
    } else {
        None
    }
}

/// The texts of the blocks, one after the other with a blank line between them.
pub open spec fn blocks_text(blocks: Seq<json::Tree>) -> Seq<char>
    decreases blocks.len(),
{
    if blocks.len() == 0 {
        seq![]
    } else {
        let before = blocks_text(blocks.drop_last());
        match block_text(blocks.last()) {
            Some(s) => if before.len() == 0 {
                s
            } else {
                before + "\n\n"@ + s
            },
            None => before,
        }
    }
}

/// The blocks of a stored message.
pub open spec fn blocks_in(t: json::Tree) -> Option<Seq<json::Tree>> {
    match t.get("message"@) {
        Some(m) => match m.get("content"@) {
            Some(c) => c.as_list(),
            None => None,
        },
        None => None,
    }
}

/// The plan in a stored message, where it has one.
pub open spec fn plan_in(t: json::Tree) -> Option<Seq<char>> {
    match blocks_in(t) {
        Some(blocks) => if blocks_text(blocks).len() == 0 {
            None
        } else {
            Some(blocks_text(blocks))
        },
        None => None,
    }
}

/// The plan in a stored text, where that is a message with one.
pub open spec fn plan_of(raw: Seq<char>) -> Option<Seq<char>> {
    match json::meaning(raw) {
        Some(t) => plan_in(t),
        None => None,
    }
}

/// The plan in a stored message, where it has one.
pub fn plan_in_message(message: &Json) -> (r: Option<String>)
    ensures
        text::opt_text(r) == plan_in(message@),
{
    let blocks = match message.get("message") {
        Some(m) => match m.get("content") {
            Some(c) => match c.as_array() {
                Some(a) => a,
                None => {
                    return None;
                },
            },
            None => {
                return None;
            },
        },
        None => {
            return None;
        },
    };
    let ghost all = json::trees(blocks@);
    let mut out = String::new();
    let mut i: usize = 0;
    assert(out@ =~= blocks_text(all.take(0)));
    while i < blocks.len()
        invariant
            i <= blocks@.len(),
            all == json::trees(blocks@),
            out@ == blocks_text(all.take(i as int)),
        decreases blocks@.len() - i,
    {
        let block = &blocks[i];
        assert(all.take(i + 1).drop_last() =~= all.take(i as int));
        assert(all.take(i + 1).last() == block@);
        let kind = block.text_at("type");
        let is_text = match kind {
            Some(k) => text::same(k, "text"),
            None => false,
        };
        if is_text {
            match block.text_at("text") {
                Some(s) => {
                    if !out.as_str().is_empty() {
                        out.append("\n\n");
                    }
                    let ghost before = out@;
                    out.append(s);
                    assert(before.len() == 0 ==> out@ =~= s@);
                },
                None => {},
            }
        }
        i += 1;
    }
    assert(all.take(i as int) =~= all);
    if out.as_str().is_empty() {
        None
    } else {
        Some(out)
    }
}

/// The plan in a stored text, where that is a message with one.
pub fn extract_plan_text(raw: &str) -> (r: Option<String>)
    ensures
        text::opt_text(r) == plan_of(raw@),
{
    match json::parse(raw) {
        Some(message) => plan_in_message(&message),
        None => None,
    }
}

// ---------------------------------------------------------------------------
// Storing a plan
// ---------------------------------------------------------------------------

/// The message that a plan is stored as.
pub open spec fn plan_message_tree(plan: Seq<char>) -> json::Tree {
    json::Tree::Object(
        seq![
            (
                "message"@,
                json::Tree::Object(
                    seq![("content"@, json::Tree::Array(seq![text_block_tree(plan)]))],
                ),
            ),
            ("type"@, json::Tree::Text("assistant"@)),
        ],
    )
}

/// The block that holds a text.
pub open spec fn text_block_tree(s: Seq<char>) -> json::Tree {
    json::Tree::Object(
        seq![("text"@, json::Tree::Text(s)), ("type"@, json::Tree::Text("text"@))],
    )
}

/// The message that a plan is stored as.
pub fn plan_message(plan: &str) -> (r: Json)
    ensures
        r@ == plan_message_tree(plan@),
{
    let mut block: Vec<(String, Json)> = Vec::new();
    block.push(("text".to_string(), Json::text(plan)));
    block.push(("type".to_string(), Json::text("text")));
    let block = Json::object(block);
    assert(block@->Object_0 =~= text_block_tree(plan@)->Object_0);
    let mut blocks: Vec<Json> = Vec::new();
    blocks.push(block);
    let blocks = Json::array(blocks);
    assert(blocks@->Array_0 =~= seq![text_block_tree(plan@)]);
    let mut content: Vec<(String, Json)> = Vec::new();
    content.push(("content".to_string(), blocks));
    let content = Json::object(content);
    assert(content@->Object_0 =~= seq![
        ("content"@, json::Tree::Array(seq![text_block_tree(plan@)])),
    ]);
    let mut message: Vec<(String, Json)> = Vec::new();
    message.push(("message".to_string(), content));
    message.push(("type".to_string(), Json::text("assistant")));
    let message = Json::object(message);
    assert(message@->Object_0 =~= plan_message_tree(plan@)->Object_0);
    message
}

proof fn lemma_plan_message_writable(plan: Seq<char>)
    ensures
        json::writable(plan_message_tree(plan), 100),
{
    reveal_strlit("message");
    reveal_strlit("type");
    reveal_strlit("text");
    reveal_with_fuel(order::precedes, 4);
    reveal_with_fuel(json::writable, 2);
    let block = text_block_tree(plan);
    assert("text"@.drop_first()[0] == 'e');
    assert("type"@.drop_first()[0] == 'y');
    assert(order::precedes("text"@, "type"@));
    assert(order::precedes("message"@, "type"@));
    assert(json::writable(block, 97));
    let list = json::Tree::Array(seq![block]);
    assert(json::writable(list, 98)) by {
        assert(list->Array_0 =~= seq![block]);
    }
    let content = json::Tree::Object(seq![("content"@, list)]);
    assert(json::writable(content, 99));
    assert(json::writable(plan_message_tree(plan), 100));
}

/// A message that a plan is stored as has that plan.
proof fn lemma_plan_message_read(plan: Seq<char>)
    ensures
        plan_in(plan_message_tree(plan)) == (if plan.len() == 0 {
            None
        } else {
            Some(plan)
        }),
{
    reveal_strlit("message");
    reveal_strlit("content");
    reveal_strlit("type");
    reveal_strlit("text");
    reveal_with_fuel(json::member, 3);
    reveal_with_fuel(blocks_text, 2);
    let t = plan_message_tree(plan);
    let block = text_block_tree(plan);
    let content = json::Tree::Object(seq![("content"@, json::Tree::Array(seq![block]))]);
    assert(t.get("message"@) == Some(content));
    assert(content.get("content"@) == Some(json::Tree::Array(seq![block])));
    assert("text"@[0] == 't' && "type"@[1] == 'y' && "text"@[1] == 'e');
    assert("text"@ != "type"@);
    let m = block->Object_0;
    assert(m.drop_first()[0] == ("type"@, json::Tree::Text("text"@)));
    assert(block.get("type"@) == Some(json::Tree::Text("text"@)));
    assert(block.get("text"@) == Some(json::Tree::Text(plan)));
    assert(block_text(block) == Some(plan));
    let blocks = seq![block];
    assert(blocks.drop_last() =~= seq![]);
    assert(blocks.last() == block);
    assert(blocks_text(blocks) == plan);
}

/// Stores a plan: the text of a message from which the plan is read back.
pub fn priming_content(plan: &str) -> (r: String)
    ensures
        r@ == json::written(plan_message_tree(plan@)),
        plan_of(r@) == (if plan@.len() == 0 {
            None
        } else {
            Some(plan@)
        }),
{
    proof {
        lemma_plan_message_writable(plan@);
        lemma_plan_message_read(plan@);
    }
    json::write(&plan_message(plan))
}

// ---------------------------------------------------------------------------
// Handing the plan over
// ---------------------------------------------------------------------------

/// What a workspace keeps of its priming.
pub struct WorkspacePriming {
    pub kind: String,
    pub consumed: i64,
}

/// Kind, and whether the priming was consumed.
pub type PrimingView = (Seq<char>, i64);

impl View for WorkspacePriming {
    type V = PrimingView;

    open spec fn view(&self) -> PrimingView {
        (self.kind@, self.consumed)
    }
}

/// What the workspace of a session, where there is one, keeps of its priming.
pub open spec fn opt_priming(w: Option<WorkspacePriming>) -> Option<PrimingView> {
    match w {
        Some(w) => Some(w@),
        None => None,
    }
}

/// The workspace is one that triage made and whose plan was not handed over yet.
pub open spec fn unconsumed(w: Option<PrimingView>) -> bool {
    match w {
        Some(w) => w.0 == TRIAGE_KIND@ && w.1 == 0,
        None => false,
    }
}

/// The plan of a stored message, or the stored text itself where it is no such message.
pub open spec fn plan_or_raw(raw: Seq<char>) -> Seq<char> {
    match plan_of(raw) {
        Some(p) => p,
        None => raw,
    }
}

/// What stands ahead of a session's first request: the wrapped plan of an unconsumed
/// triage workspace, where it says anything.
pub open spec fn prefix_of(w: Option<PrimingView>, raw: Option<Seq<char>>) -> Option<Seq<char>> {
    match raw {
        Some(raw) => if unconsumed(w) && pieces::trimmed(plan_or_raw(raw)).len() > 0 {
            Some(wrapped(plan_or_raw(raw)))
        } else {
            None
        },
        None => None,
    }
}

/// What stands ahead of a session's first request, from its workspace and the priming
/// message that was stored first.
pub fn load_priming_prefix_for_session(
    workspace: &Option<WorkspacePriming>,
    raw_content: Option<String>,
) -> (r: Option<String>)
    ensures
        text::opt_text(r) == prefix_of(opt_priming(*workspace), text::opt_text(raw_content)),
{
    match workspace {
        Some(w) => {
            if !text::same(w.kind.as_str(), TRIAGE_KIND) || w.consumed != 0 {
                return None;
            }
        },
        None => {
            return None;
        },
    }
    let raw = match raw_content {
        Some(raw) => raw,
        None => {
            return None;
        },
    };
    let plan_text = match extract_plan_text(raw.as_str()) {
        Some(p) => p,
        None => raw,
    };
    if pieces::trim(plan_text.as_str()).as_str().is_empty() {
        return None;
    }
    Some(wrap_priming(plan_text.as_str()))
}

/// The workspace after its priming was consumed.
pub open spec fn consumed(w: Option<PrimingView>) -> Option<PrimingView> {
    match w {
        Some(w) => if w.1 == 0 {
            Some((MANUAL_KIND@, 1))
        } else {
            Some(w)
        },
        None => None,
    }
}

/// Notes that the priming was consumed and leaves the workspace to its user. The result
/// is true where this call did so.
pub fn mark_consumed_for_session(workspace: &mut Option<WorkspacePriming>) -> (r: bool)
    ensures
        opt_priming(*final(workspace)) == consumed(opt_priming(*old(workspace))),
        r == (opt_priming(*old(workspace)) matches Some(w) && w.1 == 0),
{
    match workspace.take() {
        Some(w) => {
            if w.consumed == 0 {
                *workspace = Some(WorkspacePriming { kind: MANUAL_KIND.to_string(), consumed: 1 });
                true
            } else {
                *workspace = Some(w);
                false
            }
        },
        None => false,
    }
}

/// Two prefixes as one, the priming first.
pub open spec fn combined(
    priming: Option<Seq<char>>,
    existing: Option<Seq<char>>,
) -> Option<Seq<char>> {
    match (priming, existing) {
        (Some(p), Some(e)) => Some(p + "\n\n"@ + e),
        (Some(p), None) => Some(p),
        (None, e) => e,
    }
}

/// Two prefixes as one, the priming first.
pub fn combine_prefixes(priming: Option<String>, existing: Option<String>) -> (r: Option<String>)
    ensures
        text::opt_text(r) == combined(text::opt_text(priming), text::opt_text(existing)),
{
    match (priming, existing) {
        (None, None) => None,
        (Some(p), None) => Some(p),
        (None, Some(e)) => Some(e),
        (Some(p), Some(e)) => {
            let mut out = p;
            out.append("\n\n");
            out.append(e.as_str());
            Some(out)
        },
    }
}

// ---------------------------------------------------------------------------
// Laws
// ---------------------------------------------------------------------------

/// A plan is handed over once: after its priming was consumed, a session has no prefix
/// any more, and consuming it again changes nothing.
pub proof fn law_priming_is_handed_over_once(w: Option<PrimingView>, raw: Option<Seq<char>>)
    ensures
        prefix_of(consumed(w), raw) is None,
        consumed(consumed(w)) == consumed(w),
{
}

/// What is handed over is the plan that was stored: the context holds the trimmed plan of the
/// message, or the stored text itself where it is no such message, and it is handed over
/// wherever a triage workspace was not used yet and the plan says anything.
pub proof fn law_stored_plan_is_handed_over(w: PrimingView, raw: Seq<char>)
    ensures
        ({
            let plan = match plan_of(raw) {
                Some(p) => p,
                None => raw,
            };
            let says = pieces::says_something(plan);
            match prefix_of(Some(w), Some(raw)) {
                Some(prefix) => {
                    &&& w.0 == "ai_triage"@ && w.1 == 0 && says
                    &&& prefix == "<discovered-context>\n"@ + pieces::trimmed(plan)
                        + "\n</discovered-context>\n\nThe user has reviewed the above context and now requests:"@
                },
                None => w.0 != "ai_triage"@ || w.1 != 0 || !says,
            }
        }),
        prefix_of(None, Some(raw)) is None,
        prefix_of(Some(w), None) is None,
        w.1 == 0 ==> consumed(Some(w)) == Some(("manual"@, 1i64)),
        w.1 != 0 ==> consumed(Some(w)) == Some(w),
        consumed(None) is None,
{
    let plan = plan_or_raw(raw);
    pieces::law_trimming_takes_only_white_space(plan);
}

/// A plan is stored as an assistant's message whose only block is its text, and it is read
/// back as it was.
pub proof fn law_stored_plan_is_read_back(plan: Seq<char>)
    requires
        plan.len() > 0,
    ensures
        plan_in(plan_message_tree(plan)) == Some(plan),
        plan_message_tree(plan).text_at("type"@) == Some("assistant"@),
{
    lemma_plan_message_read(plan);
    reveal_strlit("message");
    reveal_strlit("type");
    reveal_with_fuel(json::member, 3);
    assert("message"@.len() == 7 && "type"@.len() == 4);
    let t = plan_message_tree(plan);
    assert(t->Object_0.drop_first()[0] == ("type"@, json::Tree::Text("assistant"@)));
}

/// Of a message's blocks the texts are read, one after the other with a blank line between
/// them; blocks of other kinds say nothing.
pub proof fn law_text_blocks_make_the_plan(blocks: Seq<json::Tree>, more: json::Tree)
    ensures
        ({
            let before = blocks_text(blocks);
            let after = blocks_text(blocks.push(more));
            if more.text_at("type"@) == Some("text"@) && more.text_at("text"@) is Some {
                let s = more.text_at("text"@)->0;
                after == if before.len() == 0 {
                    s
                } else {
                    before + "\n\n"@ + s
                }
            } else {
                after == before
            }
        }),
{
    assert(blocks.push(more).drop_last() =~= blocks);
}

/// Two prefixes are both kept, the priming ahead of what was there.
pub proof fn law_prefixes_are_both_kept(p: Seq<char>, e: Seq<char>)
    ensures
        combined(Some(p), Some(e)) == Some(p + "\n\n"@ + e),
        combined(Some(p), None) == Some(p),
        combined(None, Some(e)) == Some(e),
        combined(None, None) is None,
{
}

} // verus!
