//! Settings of the user interface, and how often rate limits are asked for.
use vstd::prelude::*;
use vstd::utf8::encode_utf8;
use crate::assoc::AssocMap;
use crate::codex_config;
use crate::digest;
use crate::digest::RunningDigest;
use crate::numbers;
use crate::order;
use crate::pieces;
use crate::text;
use crate::toml_tree;

verus! {

/// Seconds between two requests for the rate limits of one account.
pub const RATE_LIMITS_THROTTLE_SECONDS: i64 = 30;

/// The setting under which Codex's rate limits are kept.
pub const CODEX_RATE_LIMITS_KEY: &'static str = "app.codex_rate_limits";

// ---------------------------------------------------------------------------
// Updating settings
// ---------------------------------------------------------------------------

/// The setting is the user interface's to write.
pub open spec fn writable(key: Seq<char>) -> bool {
    text::begins(key, "app."@) || text::begins(key, "branch_prefix_"@)
}

/// Whether the setting is the user interface's to write.
pub fn is_app_setting(key: &str) -> (r: bool)
    ensures
        r == writable(key@),
{
    text::starts_with(key, "app.") || text::starts_with(key, "branch_prefix_")
}

/// What follows from an update of the settings.
pub struct SettingsUpdate {
    /// What is written.
    pub written: Vec<(String, String)>,
    /// Whether the sidecar is told of a new key for Cursor.
    pub push_cursor: bool,
    /// Whether what is known of Codex's commands is forgotten, and the sidecar is told of a
    /// new program.
    pub push_codex: bool,
}

/// The settings of a list that are the user interface's to write, in their order.
pub open spec fn writable_among(v: Seq<(Seq<char>, Seq<char>)>) -> Seq<(Seq<char>, Seq<char>)>
    decreases v.len(),
{
    if v.len() == 0 {
        seq![]
    } else if writable(v.last().0) {
        writable_among(v.drop_last()).push(v.last())
    } else {
        writable_among(v.drop_last())
    }
}

/// The list has a setting with the key.
pub open spec fn touches(v: Seq<(Seq<char>, Seq<char>)>, key: Seq<char>) -> bool {
    exists|i: int| 0 <= i < v.len() && (#[trigger] v[i]).0 == key
}

/// What follows from an update of the settings.
pub fn update_app_settings(settings: Vec<(String, String)>) -> (r: SettingsUpdate)
    ensures
        text::text_pairs(r.written@) == writable_among(text::text_pairs(settings@)),
        r.push_cursor == touches(text::text_pairs(settings@), "app.cursor_provider"@),
        r.push_codex == touches(text::text_pairs(settings@), "app.codex_executable_path"@),
{
    let ghost all = text::text_pairs(settings@);
    let mut written: Vec<(String, String)> = Vec::new();
    let mut push_cursor = false;
    let mut push_codex = false;
    assert(text::text_pairs(written@) =~= writable_among(all.take(0)));
    for p in it: settings
        invariant
            text::text_pairs(it.seq()) == all,
            text::text_pairs(written@) == writable_among(all.take(it.index() as int)),
            push_cursor == touches(all.take(it.index() as int), "app.cursor_provider"@),
            push_codex == touches(all.take(it.index() as int), "app.codex_executable_path"@),
    {
        let ghost i = it.index() as int;
        assert(all[i] == (p.0@, p.1@));
        assert(all.take(i + 1).drop_last() =~= all.take(i));
        assert(all.take(i + 1).last() == (p.0@, p.1@));
        proof {
            lemma_touches_more(all, i, "app.cursor_provider"@);
            lemma_touches_more(all, i, "app.codex_executable_path"@);
        }
        if text::same(p.0.as_str(), "app.cursor_provider") {
            push_cursor = true;
        }
        if text::same(p.0.as_str(), "app.codex_executable_path") {
            push_codex = true;
        }
        if is_app_setting(p.0.as_str()) {
            let ghost before = text::text_pairs(written@);
            written.push(p);
            assert(text::text_pairs(written@) =~= before.push((p.0@, p.1@)));
        }
    }
    assert(all.take(all.len() as int) =~= all);
    SettingsUpdate { written, push_cursor, push_codex }
}

proof fn lemma_touches_more(v: Seq<(Seq<char>, Seq<char>)>, i: int, key: Seq<char>)
    requires
        0 <= i < v.len(),
    ensures
        touches(v.take(i + 1), key) == (touches(v.take(i), key) || v[i].0 == key),
{
    let before = v.take(i);
    let after = v.take(i + 1);
    if touches(after, key) {
        let k = choose|k: int| 0 <= k < after.len() && (#[trigger] after[k]).0 == key;
        if k < i {
            assert(before[k].0 == key);
        }
    }
    if touches(before, key) {
        let k = choose|k: int| 0 <= k < before.len() && (#[trigger] before[k]).0 == key;
        assert(after[k].0 == key);
    }
    if v[i].0 == key {
        assert(after[i].0 == key);
    }
}

// ---------------------------------------------------------------------------
// Rate limits
// ---------------------------------------------------------------------------

/// The program to look at for Codex's home, where one is configured.
pub fn executable_to_scan(codex_executable_path: Option<&str>) -> (r: Option<String>)
    ensures
        text::opt_text(r) == codex_config::told(text::opt_str(codex_executable_path)),
{
    codex_config::read_told(codex_executable_path)
}

/// Codex's home for a program that is configured: what the program sets, where there is one
/// and it sets it, else the default. `program` is what stands in the program that
/// [`executable_to_scan`] names, from its beginning on.
pub fn codex_home_for_executable_path(
    codex_executable_path: Option<&str>,
    program: Option<&[u8]>,
    home: &str,
    default: &str,
) -> (r: String)
    ensures
        r@ == (match (codex_config::told(text::opt_str(codex_executable_path)), program) {
            (Some(_), Some(b)) => match codex_config::home_in_program(b@, home@) {
                Some(h) => h,
                None => default@,
            },
            _ => default@,
        }),
{
    if executable_to_scan(codex_executable_path).is_none() {
        return default.to_string();
    }
    match codex_config::codex_home_from_executable(program, home) {
        Some(h) => h,
        None => default.to_string(),
    }
}

/// The beginning of a path's digest.
pub open spec fn home_digest(codex_home: Seq<char>) -> Seq<char> {
    numbers::hex(digest::sha256(encode_utf8(codex_home)).take(8))
}

/// The setting under which the rate limits of one of Codex's homes are kept.
pub open spec fn cache_key_of(codex_home: Seq<char>) -> Seq<char> {
    CODEX_RATE_LIMITS_KEY@ + "."@ + home_digest(codex_home)
}

/// The setting under which the rate limits of one of Codex's homes are kept: the homes are
/// told apart by a digest of their paths.
pub fn codex_rate_limits_cache_key(codex_home: &str) -> (r: String)
    requires
        order::byte_len(codex_home@) < digest::HASH_LIMIT,
    ensures
        r@ == cache_key_of(codex_home@),
{
    let mut hasher = RunningDigest::new();
    hasher.update(codex_home.as_bytes());
    let sum = hasher.finish();
    let mut out = CODEX_RATE_LIMITS_KEY.to_string();
    out.append(".");
    out.append(numbers::hex_prefix(sum.as_slice(), 8).as_str());
    out
}

/// The difference of two instants, as far as an `i64` can say.
pub open spec fn seconds_since(now: i64, last: i64) -> i64 {
    if now - last > i64::MAX {
        i64::MAX
    } else if now - last < i64::MIN {
        i64::MIN
    } else {
        (now - last) as i64
    }
}

fn since(now: i64, last: i64) -> (r: i64)
    ensures
        r == seconds_since(now, last),
{
    let d: i128 = now as i128 - last as i128;
    if d > i64::MAX as i128 {
        i64::MAX
    } else if d < i64::MIN as i128 {
        i64::MIN
    } else {
        d as i64
    }
}

/// When the rate limits of an account were asked for last; long ago where never.
pub open spec fn last_attempt(attempts: Map<Seq<char>, i64>, key: Seq<char>) -> i64 {
    if attempts.contains_key(key) {
        attempts[key]
    } else {
        0
    }
}

/// The rate limits of the account may be asked for.
pub open spec fn claimable(attempts: Map<Seq<char>, i64>, key: Seq<char>, now: i64) -> bool {
    seconds_since(now, last_attempt(attempts, key)) >= RATE_LIMITS_THROTTLE_SECONDS
}

/// Claims a request for the rate limits of an account, where the last one is long enough
/// ago.
pub fn claim_codex_rate_limits_fetch(
    attempts: &mut AssocMap<String, i64>,
    cache_key: &str,
    now: i64,
) -> (r: bool)
    requires
        old(attempts).wf(),
    ensures
        final(attempts).wf(),
        r == claimable(old(attempts)@, cache_key@, now),
        final(attempts)@ == (if r {
            old(attempts)@.insert(cache_key@, now)
        } else {
            old(attempts)@
        }),
{
    let last: i64 = match attempts.get(&cache_key.to_string()) {
        Some(t) => *t,
        None => 0,
    };
    if since(now, last) < RATE_LIMITS_THROTTLE_SECONDS {
        return false;
    }
    attempts.insert(cache_key.to_string(), now);
    true
}

/// Codex is used with an API key, which has no rate limits to show: by its login, or by the
/// provider that its configuration selects.
pub fn codex_uses_metered_api_key(login_is_api_key: bool, config: Option<&str>) -> (r: bool)
    ensures
        r == (login_is_api_key || (config matches Some(c) && (toml_tree::meaning(
            c@,
        ) matches Some(t) && codex_config::active_in(t) is Some))),
{
    if login_is_api_key {
        return true;
    }
    match config {
        Some(c) => codex_config::active_api_key_provider(c).is_some(),
        None => false,
    }
}

/// How a look at the rate limits goes on.
#[derive(Clone, Copy, Debug, PartialEq, Eq, Structural)]
pub enum RateLimitsStep {
    /// There are none: what was kept is forgotten, and nothing is shown.
    Forget,
    /// What was kept is shown.
    ShowKept,
    /// The account is asked, and [`settle_rate_limits`] says what comes of it.
    Ask,
}

/// How a look at the rate limits goes on.
pub open spec fn rate_limits_step(
    attempts: Map<Seq<char>, i64>,
    metered: bool,
    key: Seq<char>,
    now: i64,
) -> RateLimitsStep {
    if metered {
        RateLimitsStep::Forget
    } else if claimable(attempts, key, now) {
        RateLimitsStep::Ask
    } else {
        RateLimitsStep::ShowKept
    }
}

/// How a look at the rate limits of a Codex account goes on. An account that is used with
/// an API key has none; any other is asked where the last request is long enough ago.
pub fn get_codex_rate_limits(
    attempts: &mut AssocMap<String, i64>,
    metered: bool,
    cache_key: &str,
    now: i64,
) -> (r: RateLimitsStep)
    requires
        old(attempts).wf(),
    ensures
        final(attempts).wf(),
        r == rate_limits_step(old(attempts)@, metered, cache_key@, now),
        final(attempts)@ == (if r == RateLimitsStep::Ask {
            old(attempts)@.insert(cache_key@, now)
        } else {
            old(attempts)@
        }),
{
    if metered {
        RateLimitsStep::Forget
    } else if claim_codex_rate_limits_fetch(attempts, cache_key, now) {
        RateLimitsStep::Ask
    } else {
        RateLimitsStep::ShowKept
    }
}

/// What is shown of the rate limits, and what is kept.
pub struct RateLimits {
    pub shown: Option<String>,
    pub stored: Option<String>,
}

/// What is shown of the rate limits: what was fetched, else what was kept. `fetched` is
/// nothing where the request did not succeed.
pub fn settle_rate_limits(cached: Option<String>, fetched: Option<String>) -> (r: RateLimits)
    ensures
        r.stored == fetched,
        r.shown == (if fetched is Some {
            fetched
        } else {
            cached
        }),
{
    match fetched {
        Some(body) => RateLimits { shown: Some(body.clone()), stored: Some(body) },
        None => RateLimits { shown: cached, stored: None },
    }
}

// ---------------------------------------------------------------------------
// Laws
// ---------------------------------------------------------------------------

/// Two requests for the same account are at least 30 seconds apart: after one was claimed,
/// none is until then, whatever is claimed for other accounts.
pub proof fn law_requests_are_spaced(
    attempts: Map<Seq<char>, i64>,
    key: Seq<char>,
    other: Seq<char>,
    first: i64,
    between: i64,
    second: i64,
)
    requires
        claimable(attempts, key, first),
        key != other,
        second - first < RATE_LIMITS_THROTTLE_SECONDS,
    ensures
        !claimable(attempts.insert(key, first), key, second),
        !claimable(attempts.insert(key, first).insert(other, between), key, second),
{
}

/// Where two homes have different digests, they have different settings.
pub proof fn law_homes_with_other_digests_are_told_apart(a: Seq<char>, b: Seq<char>)
    ensures
        home_digest(a) != home_digest(b) ==> cache_key_of(a) != cache_key_of(b),
{
    let head = CODEX_RATE_LIMITS_KEY@ + "."@;
    let x = home_digest(a);
    let y = home_digest(b);
    assert(cache_key_of(a).skip(head.len() as int) =~= x);
    assert(cache_key_of(b).skip(head.len() as int) =~= y);
}

/// Every setting that is written is the user interface's to write, and none of those is
/// left out.
pub proof fn law_only_own_settings_are_written(v: Seq<(Seq<char>, Seq<char>)>, p: (
    Seq<char>,
    Seq<char>,
))
    ensures
        writable_among(v).contains(p) <==> v.contains(p) && writable(p.0),
    decreases v.len(),
{
    if v.len() > 0 {
        law_only_own_settings_are_written(v.drop_last(), p);
        let before = writable_among(v.drop_last());
        if v.contains(p) {
            let i = choose|i: int| 0 <= i < v.len() && v[i] == p;
            if i < v.len() - 1 {
                assert(v.drop_last()[i] == p);
            }
        }
        if v.drop_last().contains(p) {
            let i = choose|i: int| 0 <= i < v.drop_last().len() && v.drop_last()[i] == p;
            assert(v[i] == p);
        }
        if writable(v.last().0) {
            let after = before.push(v.last());
            if before.contains(p) {
                let i = choose|i: int| 0 <= i < before.len() && before[i] == p;
                assert(after[i] == p);
            }
            if v.last() == p {
                assert(after[before.len() as int] == p);
            }
            if after.contains(p) {
                let i = choose|i: int| 0 <= i < after.len() && after[i] == p;
                if i < before.len() {
                    assert(before[i] == p);
                } else {
                    assert(v[v.len() - 1] == p);
                }
            }
        }
    }
}

/// An account that was never asked is asked, and one that was asked 30 seconds ago or more is
/// asked again; one that is used with an API key never is.
pub proof fn law_accounts_are_asked_again(
    attempts: Map<Seq<char>, i64>,
    key: Seq<char>,
    last: i64,
    now: i64,
)
    requires
        0 <= last <= now,
    ensures
        now - last >= 30 ==> rate_limits_step(attempts.insert(key, last), false, key, now)
            == RateLimitsStep::Ask,
        now - last < 30 ==> rate_limits_step(attempts.insert(key, last), false, key, now)
            == RateLimitsStep::ShowKept,
        !attempts.contains_key(key) && now >= 30 ==> rate_limits_step(attempts, false, key, now)
            == RateLimitsStep::Ask,
        rate_limits_step(attempts, true, key, now) == RateLimitsStep::Forget,
{
}

/// Settings of the application and the prefixes of branches are written, in the order in
/// which they were given.
pub proof fn law_settings_are_written_in_order(
    rest: Seq<char>,
    v: Seq<(Seq<char>, Seq<char>)>,
    w: Seq<(Seq<char>, Seq<char>)>,
)
    ensures
        writable("app."@ + rest),
        writable("branch_prefix_"@ + rest),
        writable_among(v + w) == writable_among(v) + writable_among(w),
        forall|p: (Seq<char>, Seq<char>)|
            writable(p.0) ==> #[trigger] writable_among(seq![p]) == seq![p],
        forall|key: Seq<char>| #[trigger]
            touches(v + w, key) <==> touches(v, key) || touches(w, key),
    decreases w.len(),
{
    assert(("app."@ + rest).take("app."@.len() as int) =~= "app."@);
    assert(("branch_prefix_"@ + rest).take("branch_prefix_"@.len() as int) =~= "branch_prefix_"@);
    let all = v + w;
    if w.len() == 0 {
        assert(all =~= v);
        assert(writable_among(v) + writable_among(w) =~= writable_among(v));
    } else {
        law_settings_are_written_in_order(rest, v, w.drop_last());
        assert(all.drop_last() =~= v + w.drop_last());
        assert(all.last() == w.last());
        assert(writable_among(v) + writable_among(w) =~= if writable(w.last().0) {
            (writable_among(v) + writable_among(w.drop_last())).push(w.last())
        } else {
            writable_among(v) + writable_among(w.drop_last())
        });
    }
    assert forall|p: (Seq<char>, Seq<char>)|
        writable(p.0) implies #[trigger] writable_among(seq![p]) == seq![p] by {
        let one = seq![p];
        assert(one.drop_last() =~= Seq::<(Seq<char>, Seq<char>)>::empty());
        assert(one.last() == p);
        assert(writable_among(Seq::<(Seq<char>, Seq<char>)>::empty()) =~= Seq::<
            (Seq<char>, Seq<char>),
        >::empty());
        assert(writable_among(one) =~= one);
    }
    assert forall|key: Seq<char>| #[trigger]
        touches(all, key) <==> touches(v, key) || touches(w, key) by {
        if touches(all, key) {
            let i = choose|i: int| 0 <= i < all.len() && (#[trigger] all[i]).0 == key;
            if i < v.len() {
                assert(v[i].0 == key);
            } else {
                assert(w[i - v.len()].0 == key);
            }
        }
        if touches(v, key) {
            let i = choose|i: int| 0 <= i < v.len() && (#[trigger] v[i]).0 == key;
            assert(all[i].0 == key);
        }
        if touches(w, key) {
            let i = choose|i: int| 0 <= i < w.len() && (#[trigger] w[i]).0 == key;
            assert(all[i + v.len()].0 == key);
        }
    }
}

/// The rate limits of a home are kept under the application's setting, with the first eight
/// bytes of the digest of its path, two characters for each.
pub proof fn law_rate_limits_are_kept_under_a_digest(home: Seq<char>)
    ensures
        digest::sha256(encode_utf8(home)).len() == 32 ==> cache_key_of(home).len()
            == "app.codex_rate_limits."@.len() + 16,
        text::begins(cache_key_of(home), "app.codex_rate_limits."@),
        writable(cache_key_of(home)),
{
    reveal_strlit("app.codex_rate_limits.");
    reveal_strlit("app.codex_rate_limits");
    reveal_strlit(".");
    reveal_strlit("app.");
    let head = CODEX_RATE_LIMITS_KEY@ + "."@;
    assert(head =~= "app.codex_rate_limits."@);
    numbers::lemma_hex_shape(digest::sha256(encode_utf8(home)).take(8));
    assert(cache_key_of(home).take(head.len() as int) =~= head);
    assert(cache_key_of(home).take(4) =~= "app."@);
}

/// What was fetched is shown and kept; where nothing was, what was kept before is shown, and
/// nothing else is kept.
pub proof fn law_fetched_limits_are_shown(
    cached: Option<String>,
    fetched: Option<String>,
    r: RateLimits,
)
    requires
        call_ensures(settle_rate_limits, (cached, fetched), r),
    ensures
        fetched is Some ==> r.shown == fetched && r.stored == fetched,
        fetched is None ==> r.shown == cached && r.stored is None,
{
}

/// Without a program that is configured, or where it cannot be read or sets no home, the
/// default home counts; what a program sets counts before it.
pub proof fn law_programs_home_counts_first(
    path: Option<&str>,
    program: Option<&[u8]>,
    home: &str,
    default: &str,
    r: String,
)
    requires
        call_ensures(codex_home_for_executable_path, (path, program, home, default), r),
    ensures
        path is None ==> r@ == default@,
        program is None ==> r@ == default@,
        path matches Some(p) ==> (!pieces::says_something(p@) ==> r@ == default@),
        path matches Some(p) ==> program matches Some(b) ==> (pieces::says_something(p@) ==> r@ == (
        match codex_config::home_in_program(b@, home@) {
            Some(h) => h,
            None => default@,
        })),
{
    match path {
        Some(p) => pieces::law_trimming_takes_only_white_space(p@),
        None => {},
    }
}

} // verus!
