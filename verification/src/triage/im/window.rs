//! The sliding window of a conversation: merging messages, keeping them in order of time,
//! and leaving out what is too old or too much.
use vstd::prelude::*;
use crate::order;
use crate::time;
use crate::time::Timestamp;
use crate::triage::im::payload;
use crate::triage::im::payload::{ImBackend, MessageMap};
use crate::triage::im::types;
use crate::triage::im::types::{ImConversation, ImMessage};

verus! {

/// Messages that a conversation's file keeps.
pub const WINDOW_MAX_MESSAGES: usize = 200;

/// Bytes of blocks that a conversation's file keeps.
pub const WINDOW_MAX_BYTES: usize = 262_144;

// ---------------------------------------------------------------------------
// Merging
// ---------------------------------------------------------------------------

/// A message that counts: it was not taken back and has an id.
pub open spec fn counts(m: types::MessageView) -> bool {
    !m.deleted && m.id.len() > 0
}

/// The messages by id once new ones were added; of two with the same id the newer counts.
pub open spec fn merged(
    old_messages: Map<Seq<char>, types::MessageView>,
    new_messages: Seq<types::MessageView>,
) -> Map<Seq<char>, types::MessageView>
    decreases new_messages.len(),
{
    if new_messages.len() == 0 {
        old_messages
    } else {
        let before = merged(old_messages, new_messages.drop_last());
        let m = new_messages.last();
        if counts(m) {
            before.insert(m.id, m)
        } else {
            before
        }
    }
}

/// Some new message was not there before.
pub open spec fn new_activity(
    old_messages: Map<Seq<char>, types::MessageView>,
    new_messages: Seq<types::MessageView>,
) -> bool {
    exists|i: int|
        0 <= i < new_messages.len() && counts(#[trigger] new_messages[i])
            && !old_messages.contains_key(new_messages[i].id)
}

/// Adds new messages. True where one of them was not there before.
pub fn merge_messages(map: &mut MessageMap, new_messages: Vec<ImMessage>) -> (r: bool)
    requires
        old(map).wf(),
        forall|i: int|
            0 <= i < new_messages@.len() ==> (#[trigger] new_messages@[i]).timestamp.wf(),
    ensures
        final(map).wf(),
        final(map)@ == merged(old(map)@, types::message_views(new_messages@)),
        r == new_activity(old(map)@, types::message_views(new_messages@)),
{
    let ghost start = map@;
    let ghost all = types::message_views(new_messages@);
    let mut fresh = false;
    let mut i: usize = 0;
    while i < new_messages.len()
        invariant
            i <= new_messages@.len(),
            all == types::message_views(new_messages@),
            map.wf(),
            map@ == start,
            fresh <==> exists|k: int|
                0 <= k < i && counts(#[trigger] all[k]) && !start.contains_key(all[k].id),
        decreases new_messages@.len() - i,
    {
        let m = &new_messages[i];
        assert(all[i as int] == m@);
        if !m.deleted && !m.id.as_str().is_empty() && !map.contains(&m.id) {
            fresh = true;
        }
        i += 1;
    }
    let ghost given = new_messages@;
    assert(all.take(0) =~= Seq::<types::MessageView>::empty());
    for m in it: new_messages
        invariant
            it.seq() == given,
            all == types::message_views(given),
            forall|k: int| 0 <= k < given.len() ==> (#[trigger] given[k]).timestamp.wf(),
            map.wf(),
            map@ == merged(start, all.take(it.index() as int)),
    {
        let ghost k = it.index() as int;
        assert(m == given[k]);
        assert(all.take(k + 1).drop_last() =~= all.take(k));
        assert(all.take(k + 1).last() == m@);
        if !m.deleted && !m.id.as_str().is_empty() {
            map.put(m);
        }
    }
    assert(all.take(all.len() as int) =~= all);
    fresh
}

// ---------------------------------------------------------------------------
// Order of time
// ---------------------------------------------------------------------------

/// The message comes first: it is earlier, or of the same time and with the smaller id.
pub open spec fn comes_first(a: types::MessageView, b: types::MessageView) -> bool {
    if a.timestamp == b.timestamp {
        order::precedes(a.id, b.id)
    } else {
        a.timestamp.not_after(b.timestamp)
    }
}

/// The messages stand in order, none twice.
pub open spec fn in_time_order(s: Seq<types::MessageView>) -> bool {
    forall|i: int, j: int| 0 <= i < j < s.len() ==> comes_first(#[trigger] s[i], #[trigger] s[j])
}

/// The list holds the messages of the map in order, each once.
pub open spec fn lists(
    m: Map<Seq<char>, types::MessageView>,
    s: Seq<types::MessageView>,
) -> bool {
    &&& in_time_order(s)
    &&& forall|i: int|
        0 <= i < s.len() ==> m.contains_key((#[trigger] s[i]).id) && m[s[i].id] == s[i]
    &&& forall|k: Seq<char>|
        m.contains_key(k) ==> exists|i: int| 0 <= i < s.len() && (#[trigger] s[i]).id == k
}

proof fn lemma_first_total(a: types::MessageView, b: types::MessageView)
    requires
        a.id != b.id,
    ensures
        comes_first(a, b) || comes_first(b, a),
{
    order::lemma_precedes_total(a.id, b.id);
}

proof fn lemma_first_transitive(
    a: types::MessageView,
    b: types::MessageView,
    c: types::MessageView,
)
    requires
        comes_first(a, b),
        comes_first(b, c),
    ensures
        comes_first(a, c),
{
    if a.timestamp == b.timestamp && b.timestamp == c.timestamp {
        order::lemma_precedes_transitive(a.id, b.id, c.id);
    }
}

fn is_first(a: &ImMessage, b: &ImMessage) -> (r: bool)
    ensures
        r == comes_first(a@, b@),
{
    if a.timestamp.secs == b.timestamp.secs && a.timestamp.nanos == b.timestamp.nanos {
        order::comes_before(a.id.as_str(), b.id.as_str())
    } else {
        a.timestamp.at_or_before(&b.timestamp)
    }
}

/// Puts a message among messages in order.
fn put_in_order(v: &mut Vec<ImMessage>, m: ImMessage)
    requires
        in_time_order(types::message_views(old(v)@)),
        forall|i: int| 0 <= i < old(v)@.len() ==> (#[trigger] old(v)@[i])@.id != m@.id,
    ensures
        in_time_order(types::message_views(final(v)@)),
        final(v)@.len() == old(v)@.len() + 1,
        forall|i: int|
            0 <= i < final(v)@.len() ==> #[trigger] final(v)@[i] == m || old(v)@.contains(
                final(v)@[i],
            ),
        forall|i: int| 0 <= i < old(v)@.len() ==> final(v)@.contains(#[trigger] old(v)@[i]),
        final(v)@.contains(m),
{
    let ghost before = v@;
    let ghost bv = types::message_views(before);
    let mut at: usize = 0;
    while at < v.len() && is_first(&v[at], &m)
        invariant
            at <= v@.len(),
            v@ == before,
            bv == types::message_views(before),
            forall|i: int| 0 <= i < at ==> comes_first(#[trigger] bv[i], m@),
        decreases v@.len() - at,
    {
        assert(bv[at as int] == v@[at as int]@);
        at += 1;
    }
    proof {
        assert forall|j: int| at <= j < bv.len() implies comes_first(m@, #[trigger] bv[j]) by {
            assert(bv[at as int] == before[at as int]@);
            assert(before[at as int]@.id != m@.id);
            lemma_first_total(m@, bv[at as int]);
            if j > at {
                lemma_first_transitive(m@, bv[at as int], bv[j]);
            }
        }
    }
    v.insert(at, m);
    proof {
        let after = v@;
        let av = types::message_views(after);
        assert(after == before.insert(at as int, m));
        assert(after[at as int] == m);
        assert forall|i: int, j: int| 0 <= i < j < av.len() implies comes_first(
            #[trigger] av[i],
            #[trigger] av[j],
        ) by {
            let bi = if i < at {
                i
            } else {
                i - 1
            };
            let bj = if j < at {
                j
            } else {
                j - 1
            };
            if i == at {
                assert(av[j] == bv[bj]);
            } else if j == at {
                assert(av[i] == bv[bi]);
            } else {
                assert(av[i] == bv[bi] && av[j] == bv[bj]);
            }
        }
        assert forall|i: int| 0 <= i < after.len() implies #[trigger] after[i] == m
            || before.contains(after[i]) by {
            if i < at {
                assert(after[i] == before[i]);
            } else if i > at {
                assert(after[i] == before[i - 1]);
            }
        }
        assert forall|i: int| 0 <= i < before.len() implies after.contains(#[trigger] before[i]) by {
            if i < at {
                assert(after[i] == before[i]);
            } else {
                assert(after[i + 1] == before[i]);
            }
        }
    }
}

/// The messages of a finite map in order, each once.
pub open spec fn ordered_of(m: Map<Seq<char>, types::MessageView>) -> Seq<types::MessageView> {
    choose|s: Seq<types::MessageView>| lists(m, s)
}

proof fn lemma_first_irreflexive(a: types::MessageView, b: types::MessageView)
    requires
        comes_first(a, b),
    ensures
        !comes_first(b, a),
{
    if a.timestamp == b.timestamp && order::precedes(b.id, a.id) {
        order::lemma_precedes_transitive(a.id, b.id, a.id);
        order::lemma_precedes_irreflexive(a.id);
    }
}

proof fn lemma_lists_front(m: Map<Seq<char>, types::MessageView>, s: Seq<types::MessageView>)
    requires
        lists(m, s),
        s.len() > 0,
    ensures
        lists(m.remove(s.last().id), s.drop_last()),
{
    let x = s.last();
    let n = s.len() - 1;
    let front = s.drop_last();
    let less = m.remove(x.id);
    assert forall|i: int, j: int| 0 <= i < j < front.len() implies comes_first(
        #[trigger] front[i],
        #[trigger] front[j],
    ) by {
        assert(front[i] == s[i] && front[j] == s[j]);
    }
    assert forall|i: int| 0 <= i < front.len() implies less.contains_key((#[trigger] front[i]).id)
        && less[front[i].id] == front[i] by {
        assert(front[i] == s[i]);
        assert(s[n] == x);
        assert(comes_first(s[i], s[n]));
        if s[i].id == x.id {
            assert(s[i] == x);
            lemma_first_irreflexive(x, x);
        }
    }
    assert forall|k: Seq<char>| less.contains_key(k) implies exists|i: int|
        0 <= i < front.len() && (#[trigger] front[i]).id == k by {
        assert(m.contains_key(k));
        let i = choose|i: int| 0 <= i < s.len() && (#[trigger] s[i]).id == k;
        assert(i != n);
        assert(front[i] == s[i]);
    }
}

/// There is but one order in which a list can hold the messages of a map.
pub proof fn law_order_is_unique(
    m: Map<Seq<char>, types::MessageView>,
    s: Seq<types::MessageView>,
    t: Seq<types::MessageView>,
)
    requires
        lists(m, s),
        lists(m, t),
    ensures
        s == t,
    decreases s.len(),
{
    if s.len() == 0 {
        if t.len() > 0 {
            assert(m.contains_key(t[0].id));
        }
        assert(s =~= t);
    } else {
        let x = s.last();
        let n = s.len() - 1;
        assert(s[n] == x);
        assert(m.contains_key(s[n].id));
        let j = choose|j: int| 0 <= j < t.len() && (#[trigger] t[j]).id == x.id;
        assert(t[j] == x);
        let y = t.last();
        let q = t.len() - 1;
        assert(t[q] == y);
        if j < q {
            assert(comes_first(t[j], t[q]));
            assert(m.contains_key(t[q].id));
            let k = choose|k: int| 0 <= k < s.len() && (#[trigger] s[k]).id == y.id;
            assert(s[k] == y);
            lemma_first_irreflexive(x, y);
            if k < n {
                assert(comes_first(s[k], s[n]));
            }
        }
        lemma_lists_front(m, s);
        lemma_lists_front(m, t);
        law_order_is_unique(m.remove(x.id), s.drop_last(), t.drop_last());
        assert(s =~= s.drop_last().push(x));
        assert(t =~= t.drop_last().push(x));
    }
}

/// The messages in order of time.
pub fn in_order(map: MessageMap) -> (r: Vec<ImMessage>)
    requires
        map.wf(),
    ensures
        lists(map@, types::message_views(r@)),
        types::message_views(r@) == ordered_of(map@),
        forall|i: int| 0 <= i < r@.len() ==> (#[trigger] r@[i]).timestamp.wf(),
{
    let ghost m0 = map;
    let ghost given = map.by_id.entries@;
    let mut entries = map.by_id.entries;
    let mut out: Vec<ImMessage> = Vec::new();
    assert(given.take(given.len() as int) =~= given);
    while entries.len() > 0
        invariant
            m0.wf(),
            given == m0.by_id.entries@,
            entries@.len() <= given.len(),
            entries@ == given.take(entries@.len() as int),
            in_time_order(types::message_views(out@)),
            forall|k: int|
                0 <= k < out@.len() ==> exists|n: int|
                    entries@.len() <= n < given.len() && (#[trigger] given[n]).1
                        == #[trigger] out@[k],
            forall|n: int|
                entries@.len() <= n < given.len() ==> out@.contains((#[trigger] given[n]).1),
        decreases entries@.len(),
    {
        let ghost i = entries@.len() - 1;
        let ghost before = out@;
        match entries.pop() {
            Some(p) => {
                assert(p == given[i]);
                let m = p.1;
                proof {
                    lemma_kept_under_id(m0, i);
                    assert forall|k: int| 0 <= k < out@.len() implies (#[trigger] out@[k])@.id
                        != m@.id by {
                        let n = choose|n: int|
                            i < n < given.len() && (#[trigger] given[n]).1 == out@[k];
                        lemma_kept_under_id(m0, n);
                        assert(m0.by_id.entries@[i].0@ != m0.by_id.entries@[n].0@);
                    }
                }
                put_in_order(&mut out, m);
                proof {
                    assert forall|k: int| 0 <= k < out@.len() implies exists|n: int|
                        i <= n < given.len() && (#[trigger] given[n]).1 == #[trigger] out@[k] by {
                        if out@[k] != m {
                            let b = choose|b: int| 0 <= b < before.len() && before[b] == out@[k];
                            let n = choose|n: int|
                                i < n < given.len() && (#[trigger] given[n]).1 == before[b];
                            assert(given[n].1 == out@[k]);
                        } else {
                            assert(given[i].1 == out@[k]);
                        }
                    }
                    assert forall|n: int| i <= n < given.len() implies out@.contains(
                        (#[trigger] given[n]).1,
                    ) by {
                        if n > i {
                            let x = given[n].1;
                            let b = choose|b: int| 0 <= b < before.len() && before[b] == x;
                            assert(out@.contains(before[b]));
                        }
                    }
                }
            },
            None => {},
        }
    }
    proof {
        let s = types::message_views(out@);
        assert forall|k: int| 0 <= k < s.len() implies m0@.contains_key((#[trigger] s[k]).id)
            && m0@[s[k].id] == s[k] by {
            let n = choose|n: int| 0 <= n < given.len() && (#[trigger] given[n]).1 == out@[k];
            lemma_kept_under_id(m0, n);
        }
        assert forall|id: Seq<char>| m0@.contains_key(id) implies exists|k: int|
            0 <= k < s.len() && (#[trigger] s[k]).id == id by {
            assert(m0.by_id@.contains_key(id));
            let n = m0.by_id.slot(id);
            lemma_kept_under_id(m0, n);
            let x = given[n].1;
            assert(out@.contains(x));
            let k = choose|k: int| 0 <= k < out@.len() && out@[k] == x;
            assert(s[k].id == id);
        }
        assert forall|k: int| 0 <= k < out@.len() implies (#[trigger] out@[k]).timestamp.wf() by {
            let n = choose|n: int| 0 <= n < given.len() && (#[trigger] given[n]).1 == out@[k];
            lemma_kept_under_id(m0, n);
        }
        assert(lists(m0@, s));
        law_order_is_unique(m0@, s, ordered_of(m0@));
    }
    out
}

proof fn lemma_kept_under_id(map: MessageMap, n: int)
    requires
        map.wf(),
        0 <= n < map.by_id.entries@.len(),
    ensures
        map.by_id.entries@[n].1@.id == map.by_id.entries@[n].0@,
        map.by_id.entries@[n].1.timestamp.wf(),
        map@.contains_key(map.by_id.entries@[n].0@),
        map@[map.by_id.entries@[n].0@] == map.by_id.entries@[n].1@,
{
    map.by_id.lemma_entry(n);
    let k = map.by_id.entries@[n].0@;
    assert(map@.contains_key(k));
    assert(map@[k].id == k);
}

// ---------------------------------------------------------------------------
// Trimming
// ---------------------------------------------------------------------------

/// The messages that are not older than the cutoff.
pub open spec fn recent_of(
    s: Seq<types::MessageView>,
    cutoff: Timestamp,
) -> Seq<types::MessageView>
    decreases s.len(),
{
    if s.len() == 0 {
        seq![]
    } else {
        let before = recent_of(s.drop_last(), cutoff);
        if cutoff.not_after(s.last().timestamp) {
            before.push(s.last())
        } else {
            before
        }
    }
}

/// The last messages, as many as a file keeps.
pub open spec fn last_of(s: Seq<types::MessageView>) -> Seq<types::MessageView> {
    if s.len() > WINDOW_MAX_MESSAGES {
        s.skip(s.len() - WINDOW_MAX_MESSAGES)
    } else {
        s
    }
}

/// The bytes of the messages' blocks, with one behind each.
pub open spec fn bytes_of<B: ImBackend>(
    backend: &B,
    conv: types::ConvView,
    s: Seq<types::MessageView>,
) -> nat
    decreases s.len(),
{
    if s.len() == 0 {
        0
    } else {
        order::byte_len(backend.block_of(conv, s[0])) + 1 + bytes_of(backend, conv, s.drop_first())
    }
}

/// The messages without the oldest, so many of them that the bytes fit.
pub open spec fn fitting_of<B: ImBackend>(
    backend: &B,
    conv: types::ConvView,
    s: Seq<types::MessageView>,
) -> Seq<types::MessageView>
    decreases s.len(),
{
    if s.len() == 0 || bytes_of(backend, conv, s) <= WINDOW_MAX_BYTES {
        s
    } else {
        fitting_of(backend, conv, s.drop_first())
    }
}

/// The window: no message older than the cutoff, no more messages and no more bytes than
/// a file keeps.
pub open spec fn window_of<B: ImBackend>(
    backend: &B,
    conv: types::ConvView,
    s: Seq<types::MessageView>,
    cutoff: Timestamp,
) -> Seq<types::MessageView> {
    fitting_of(backend, conv, last_of(recent_of(s, cutoff)))
}

proof fn lemma_bytes_suffix<B: ImBackend>(
    backend: &B,
    conv: types::ConvView,
    s: Seq<types::MessageView>,
    k: int,
)
    requires
        0 <= k <= s.len(),
    ensures
        bytes_of(backend, conv, s.skip(k)) <= bytes_of(backend, conv, s),
    decreases k,
{
    if k == 0 {
        assert(s.skip(0) =~= s);
    } else {
        lemma_bytes_suffix(backend, conv, s.drop_first(), k - 1);
        assert(s.drop_first().skip(k - 1) =~= s.skip(k));
    }
}

proof fn lemma_fitting_is<B: ImBackend>(
    backend: &B,
    conv: types::ConvView,
    s: Seq<types::MessageView>,
    k: int,
)
    requires
        0 <= k <= s.len(),
        bytes_of(backend, conv, s.skip(k)) <= WINDOW_MAX_BYTES,
        k > 0 ==> bytes_of(backend, conv, s.skip(k - 1)) > WINDOW_MAX_BYTES,
    ensures
        fitting_of(backend, conv, s) == s.skip(k),
    decreases k,
{
    if k == 0 {
        assert(s.skip(0) =~= s);
    } else {
        lemma_bytes_suffix(backend, conv, s, k - 1);
        assert(s.drop_first().skip(k - 1) =~= s.skip(k));
        if k > 1 {
            assert(s.drop_first().skip(k - 2) =~= s.skip(k - 1));
        }
        lemma_fitting_is(backend, conv, s.drop_first(), k - 1);
    }
}

/// Leaves out what is older than a week, and then the oldest until the rest fits.
pub fn trim_window<B: ImBackend>(
    messages: Vec<ImMessage>,
    backend: &B,
    conv: &ImConversation,
    now: Timestamp,
) -> (r: Vec<ImMessage>)
    requires
        now.wf(),
        time::MIN_SECS <= now.secs - payload::WINDOW_DAYS * time::DAY,
        forall|i: int| 0 <= i < messages@.len() ==> (#[trigger] messages@[i]).timestamp.wf(),
    ensures
        types::message_views(r@) == window_of(
            backend,
            conv@,
            types::message_views(messages@),
            now.earlier_by((payload::WINDOW_DAYS * time::DAY) as i64),
        ),
        forall|i: int| 0 <= i < r@.len() ==> (#[trigger] r@[i]).timestamp.wf(),
{
    let cutoff = now.before(payload::WINDOW_DAYS * time::DAY);
    let ghost given = messages@;
    let ghost all = types::message_views(given);
    let mut recent: Vec<ImMessage> = Vec::new();
    assert(types::message_views(recent@) =~= recent_of(all.take(0), cutoff));
    for m in it: messages
        invariant
            it.seq() == given,
            all == types::message_views(given),
            forall|k: int| 0 <= k < given.len() ==> (#[trigger] given[k]).timestamp.wf(),
            types::message_views(recent@) == recent_of(all.take(it.index() as int), cutoff),
            forall|k: int| 0 <= k < recent@.len() ==> (#[trigger] recent@[k]).timestamp.wf(),
    {
        let ghost k = it.index() as int;
        assert(m == given[k]);
        assert(all.take(k + 1).drop_last() =~= all.take(k));
        assert(all.take(k + 1).last() == m@);
        if cutoff.at_or_before(&m.timestamp) {
            let ghost before = types::message_views(recent@);
            recent.push(m);
            assert(types::message_views(recent@) =~= before.push(m@));
        }
    }
    assert(all.take(all.len() as int) =~= all);
    let ghost rv = types::message_views(recent@);
    let low: usize = if recent.len() > WINDOW_MAX_MESSAGES {
        recent.len() - WINDOW_MAX_MESSAGES
    } else {
        0
    };
    let mut at: usize = recent.len();
    let mut total: usize = 0;
    let mut full = false;
    assert(rv.skip(at as int) =~= Seq::<types::MessageView>::empty());
    while at > low && !full
        invariant
            low <= at <= recent@.len(),
            rv == types::message_views(recent@),
            forall|k: int| 0 <= k < recent@.len() ==> (#[trigger] recent@[k]).timestamp.wf(),
            total == bytes_of(backend, conv@, rv.skip(at as int)),
            total <= WINDOW_MAX_BYTES,
            full ==> at > low && bytes_of(backend, conv@, rv.skip(at - 1)) > WINDOW_MAX_BYTES,
        decreases at - low + (if full { 0int } else { 1int }),
    {
        let block = backend.render_message_block(conv, &recent[at - 1]);
        let size: usize = order::bytes_in(block.as_str());
        proof {
            assert(rv.skip(at - 1)[0] == recent@[at - 1]@);
            assert(rv.skip(at - 1).drop_first() =~= rv.skip(at as int));
        }
        if size >= WINDOW_MAX_BYTES - total {
            full = true;
        } else {
            total = total + size + 1;
            at -= 1;
        }
    }
    proof {
        let capped = last_of(rv);
        assert(capped =~= rv.skip(low as int));
        assert(capped.skip(at - low) =~= rv.skip(at as int));
        if at > low {
            assert(capped.skip(at - low - 1) =~= rv.skip(at - 1));
        }
        lemma_fitting_is(backend, conv@, capped, at - low);
    }
    let r = recent.split_off(at);
    proof {
        assert(types::message_views(r@) =~= rv.skip(at as int));
    }
    r
}

// ---------------------------------------------------------------------------
// Laws
// ---------------------------------------------------------------------------

/// The window is the end of the recent messages: none is older than the cutoff, and there
/// are no more messages and no more bytes than a file keeps. One more message would be
/// too many, or too much.
pub proof fn law_window_is_bounded<B: ImBackend>(
    backend: &B,
    conv: types::ConvView,
    s: Seq<types::MessageView>,
    cutoff: Timestamp,
)
    ensures
        ({
            let w = window_of(backend, conv, s, cutoff);
            let r = recent_of(s, cutoff);
            &&& w.len() <= WINDOW_MAX_MESSAGES
            &&& bytes_of(backend, conv, w) <= WINDOW_MAX_BYTES
            &&& w.len() <= r.len()
            &&& w == r.skip(r.len() - w.len())
            &&& forall|i: int| 0 <= i < w.len() ==> cutoff.not_after((#[trigger] w[i]).timestamp)
            &&& w.len() < r.len() && w.len() < WINDOW_MAX_MESSAGES ==> bytes_of(
                backend,
                conv,
                r.skip(r.len() - w.len() - 1),
            ) > WINDOW_MAX_BYTES
        }),
{
    let r = recent_of(s, cutoff);
    let c = last_of(r);
    let w = fitting_of(backend, conv, c);
    lemma_fitting_suffix(backend, conv, c);
    lemma_recent(s, cutoff);
    assert(w =~= r.skip(r.len() - w.len()));
    if w.len() < c.len() {
        assert(c.skip(c.len() - w.len() - 1) =~= r.skip(r.len() - w.len() - 1));
    }
    assert forall|i: int| 0 <= i < w.len() implies cutoff.not_after((#[trigger] w[i]).timestamp) by {
        assert(w[i] == r[r.len() - w.len() + i]);
    }
}

proof fn lemma_recent(s: Seq<types::MessageView>, cutoff: Timestamp)
    ensures
        forall|i: int|
            0 <= i < recent_of(s, cutoff).len() ==> cutoff.not_after(
                (#[trigger] recent_of(s, cutoff)[i]).timestamp,
            ),
    decreases s.len(),
{
    if s.len() > 0 {
        lemma_recent(s.drop_last(), cutoff);
    }
}

proof fn lemma_fitting_suffix<B: ImBackend>(
    backend: &B,
    conv: types::ConvView,
    s: Seq<types::MessageView>,
)
    ensures
        ({
            let w = fitting_of(backend, conv, s);
            &&& w.len() <= s.len()
            &&& w == s.skip(s.len() - w.len())
            &&& bytes_of(backend, conv, w) <= WINDOW_MAX_BYTES
            &&& w.len() < s.len() ==> bytes_of(backend, conv, s.skip(s.len() - w.len() - 1))
                > WINDOW_MAX_BYTES
        }),
    decreases s.len(),
{
    let w = fitting_of(backend, conv, s);
    if s.len() == 0 || bytes_of(backend, conv, s) <= WINDOW_MAX_BYTES {
        assert(s.skip(0) =~= s);
    } else {
        lemma_fitting_suffix(backend, conv, s.drop_first());
        assert(s.drop_first().skip(s.len() - 1 - w.len()) =~= s.skip(s.len() - w.len()));
        if w.len() < s.len() - 1 {
            assert(s.drop_first().skip(s.len() - 1 - w.len() - 1) =~= s.skip(
                s.len() - w.len() - 1,
            ));
        } else {
            assert(s.skip(0) =~= s);
        }
    }
}

/// The message at the place has the id and counts.
pub open spec fn comes_in(
    new_messages: Seq<types::MessageView>,
    id: Seq<char>,
    i: int,
) -> bool {
    0 <= i < new_messages.len() && new_messages[i].id == id && id.len() > 0
        && !new_messages[i].deleted
}

/// Merging loses nothing: the messages that were there stay, each as it was unless a message
/// with its id came in, and every new message that has an id and was not taken back is there,
/// the last of those with one id as it came.
pub proof fn law_merging_loses_nothing(
    old_messages: Map<Seq<char>, types::MessageView>,
    new_messages: Seq<types::MessageView>,
    id: Seq<char>,
)
    ensures
        ({
            let after = merged(old_messages, new_messages);
            &&& (forall|i: int| !#[trigger] comes_in(new_messages, id, i)) ==> (after.contains_key(id)
                == old_messages.contains_key(id) && (old_messages.contains_key(id) ==> after[id]
                == old_messages[id]))
            &&& forall|i: int| #[trigger]
                comes_in(new_messages, id, i) && (forall|j: int|
                    i < j ==> !#[trigger] comes_in(new_messages, id, j)) ==> after.contains_key(id) && after[id] == new_messages[i]
        }),
    decreases new_messages.len(),
{
    if new_messages.len() > 0 {
        let front = new_messages.drop_last();
        let n = new_messages.len() - 1;
        law_merging_loses_nothing(old_messages, front, id);
        assert forall|i: int| 0 <= i < n implies #[trigger] comes_in(front, id, i) == comes_in(new_messages, id, i) by {}
        assert(new_messages.last() == new_messages[n]);
        let after = merged(old_messages, new_messages);
        let before = merged(old_messages, front);
        if forall|i: int| !#[trigger] comes_in(new_messages, id, i) {
            assert forall|i: int| !#[trigger] comes_in(front, id, i) by {
                assert(!comes_in(new_messages, id, i));
            }
            assert(!comes_in(new_messages, id, n));
        }
        assert forall|i: int| #[trigger]
            comes_in(new_messages, id, i) && (forall|j: int| i < j ==> !#[trigger] comes_in(new_messages, id, j)) implies after.contains_key(
            id,
        ) && after[id] == new_messages[i] by {
            if i < n {
                assert(comes_in(front, id, i));
                assert forall|j: int| i < j implies !#[trigger] comes_in(front, id, j) by {
                    assert(!comes_in(new_messages, id, j));
                }
                assert(!comes_in(new_messages, id, n));
                assert(before.contains_key(id) && before[id] == front[i]);
            }
        }
    }
}

/// What is new is what was not there: new activity is told exactly where merging brings an id
/// that the conversation did not have.
pub proof fn law_news_is_a_new_id(
    old_messages: Map<Seq<char>, types::MessageView>,
    new_messages: Seq<types::MessageView>,
)
    ensures
        new_activity(old_messages, new_messages) <==> exists|id: Seq<char>|
            merged(old_messages, new_messages).contains_key(id) && !#[trigger] old_messages.contains_key(
                id,
            ),
    decreases new_messages.len(),
{
    let after = merged(old_messages, new_messages);
    if new_messages.len() > 0 {
        let front = new_messages.drop_last();
        let before = merged(old_messages, front);
        let x = new_messages.last();
        let n = new_messages.len() - 1;
        law_news_is_a_new_id(old_messages, front);
        assert(new_messages[n] == x);
        if new_activity(old_messages, front) {
            let i = choose|i: int|
                0 <= i < front.len() && counts(#[trigger] front[i]) && !old_messages.contains_key(
                    front[i].id,
                );
            assert(counts(new_messages[i]));
            let id = choose|id: Seq<char>|
                before.contains_key(id) && !#[trigger] old_messages.contains_key(id);
            assert(after.contains_key(id));
        } else {
            assert forall|i: int| 0 <= i < n implies !(counts(#[trigger] new_messages[i])
                && !old_messages.contains_key(new_messages[i].id)) by {
                assert(front[i] == new_messages[i]);
            }
            if counts(x) && !old_messages.contains_key(x.id) {
                assert(counts(new_messages[n]));
                assert(after.contains_key(x.id));
            }
        }
    }
}

/// Messages stand by time, and those of one time by id: of two, the one that is earlier by
/// a second or by its nanoseconds comes first, and never the later one.
pub proof fn law_earlier_messages_come_first(a: types::MessageView, b: types::MessageView)
    ensures
        a.timestamp.secs < b.timestamp.secs ==> comes_first(a, b) && !comes_first(b, a),
        a.timestamp.secs == b.timestamp.secs && a.timestamp.nanos < b.timestamp.nanos
            ==> comes_first(a, b) && !comes_first(b, a),
        a.timestamp == b.timestamp && order::precedes(a.id, b.id) ==> comes_first(a, b),
        a.timestamp == b.timestamp && a.id == b.id ==> !comes_first(a, b),
{
    if a.timestamp == b.timestamp && a.id == b.id {
        order::lemma_precedes_irreflexive(a.id);
    }
}

proof fn lemma_recent_keeps(s: Seq<types::MessageView>, cutoff: Timestamp)
    ensures
        forall|i: int|
            0 <= i < s.len() && cutoff.not_after((#[trigger] s[i]).timestamp) ==> recent_of(
                s,
                cutoff,
            ).contains(s[i]),
        forall|k: int|
            0 <= k < recent_of(s, cutoff).len() ==> s.contains(#[trigger] recent_of(s, cutoff)[k]),
        in_time_order(s) ==> in_time_order(recent_of(s, cutoff)),
    decreases s.len(),
{
    let r = recent_of(s, cutoff);
    if s.len() > 0 {
        let front = s.drop_last();
        let n = s.len() - 1;
        let before = recent_of(front, cutoff);
        lemma_recent_keeps(front, cutoff);
        assert(s[n] == s.last());
        assert forall|i: int|
            0 <= i < s.len() && cutoff.not_after((#[trigger] s[i]).timestamp) implies r.contains(
            s[i],
        ) by {
            if i < n {
                assert(front[i] == s[i]);
                let k = choose|k: int| 0 <= k < before.len() && before[k] == s[i];
                assert(r[k] == s[i]);
            } else {
                assert(r[r.len() - 1] == s[n]);
            }
        }
        assert forall|k: int| 0 <= k < r.len() implies s.contains(#[trigger] r[k]) by {
            if k < before.len() {
                assert(r[k] == before[k]);
                let i = choose|i: int| 0 <= i < front.len() && front[i] == before[k];
                assert(s[i] == r[k]);
            } else {
                assert(s[n] == r[k]);
            }
        }
        if in_time_order(s) {
            assert forall|i: int, j: int| 0 <= i < j < front.len() implies comes_first(
                #[trigger] front[i],
                #[trigger] front[j],
            ) by {
                assert(front[i] == s[i] && front[j] == s[j]);
            }
            assert forall|i: int, j: int| 0 <= i < j < r.len() implies comes_first(
                #[trigger] r[i],
                #[trigger] r[j],
            ) by {
                assert(r[i] == before[i]);
                if j < before.len() {
                    assert(r[j] == before[j]);
                } else {
                    let p = choose|p: int| 0 <= p < front.len() && front[p] == before[i];
                    assert(s[p] == r[i]);
                    assert(comes_first(s[p], s[n]));
                }
            }
        }
    }
}

/// The window keeps the newest: it stands in order of time, holds only messages that were
/// there, and a message that is not too old is missing only where the window is full, of
/// messages that are all later than the missing one. It is full with 200 messages, or where
/// one more would bring the blocks, each with the byte behind it, over 256 KiB.
pub proof fn law_window_keeps_the_newest<B: ImBackend>(
    backend: &B,
    conv: types::ConvView,
    s: Seq<types::MessageView>,
    cutoff: Timestamp,
    i: int,
)
    requires
        in_time_order(s),
        0 <= i < s.len(),
        cutoff.secs < s[i].timestamp.secs || (cutoff.secs == s[i].timestamp.secs && cutoff.nanos
            <= s[i].timestamp.nanos),
    ensures
        ({
            let w = window_of(backend, conv, s, cutoff);
            &&& in_time_order(w)
            &&& forall|k: int| 0 <= k < w.len() ==> s.contains(#[trigger] w[k])
            &&& w.len() <= 200
            &&& bytes_of(backend, conv, w) <= 262_144
            &&& !w.contains(s[i]) ==> {
                &&& forall|k: int| 0 <= k < w.len() ==> comes_first(s[i], #[trigger] w[k])
                &&& w.len() == 200 || exists|y: types::MessageView| #[trigger]
                    s.contains(y) && bytes_of(backend, conv, seq![y] + w) > 262_144
            }
        }),
{
    let r = recent_of(s, cutoff);
    let w = window_of(backend, conv, s, cutoff);
    law_window_is_bounded(backend, conv, s, cutoff);
    lemma_recent_keeps(s, cutoff);
    let at = r.len() - w.len();
    assert forall|k: int| 0 <= k < w.len() implies s.contains(#[trigger] w[k]) by {
        assert(w[k] == r[at + k]);
    }
    assert forall|a: int, b: int| 0 <= a < b < w.len() implies comes_first(
        #[trigger] w[a],
        #[trigger] w[b],
    ) by {
        assert(w[a] == r[at + a] && w[b] == r[at + b]);
    }
    if !w.contains(s[i]) {
        let p = choose|p: int| 0 <= p < r.len() && r[p] == s[i];
        if p >= at {
            assert(w[p - at] == s[i]);
        }
        assert forall|k: int| 0 <= k < w.len() implies comes_first(s[i], #[trigger] w[k]) by {
            assert(w[k] == r[at + k]);
            assert(comes_first(r[p], r[at + k]));
        }
        if w.len() < 200 {
            let y = r[at - 1];
            assert(r.skip(at - 1) =~= seq![y] + w);
            assert(s.contains(y));
        }
    }
}

/// The bytes of messages are those of their blocks, one more behind each.
pub proof fn law_bytes_add_up<B: ImBackend>(
    backend: &B,
    conv: types::ConvView,
    s: Seq<types::MessageView>,
    m: types::MessageView,
)
    ensures
        bytes_of(backend, conv, s.push(m)) == bytes_of(backend, conv, s) + order::byte_len(
            backend.block_of(conv, m),
        ) + 1,
        bytes_of(backend, conv, seq![]) == 0,
    decreases s.len(),
{
    if s.len() == 0 {
        assert(s.push(m).drop_first() =~= s);
    } else {
        law_bytes_add_up(backend, conv, s.drop_first(), m);
        assert(s.push(m).drop_first() =~= s.drop_first().push(m));
    }
}

} // verus!
