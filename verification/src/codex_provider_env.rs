//! The API keys that Codex's providers ask for: which variables are taken over from the
//! login shell, and which are handed to a running sidecar.
use vstd::prelude::*;
use crate::assoc::AssocMap;
use crate::codex_config;
use crate::pieces;
use crate::text;

verus! {

// ---------------------------------------------------------------------------
// Variables
// ---------------------------------------------------------------------------

/// What variables hold.
pub open spec fn env_view(m: AssocMap<String, String>) -> Map<Seq<char>, Seq<char>> {
    m@.map_values(|s: String| s@)
}

/// What optional variables hold.
pub open spec fn opt_env(m: Option<&AssocMap<String, String>>) -> Option<
    Map<Seq<char>, Seq<char>>,
> {
    match m {
        Some(m) => Some(env_view(*m)),
        None => None,
    }
}

/// The variable's value, where it has one that is not blank.
pub open spec fn held_by(env: Map<Seq<char>, Seq<char>>, key: Seq<char>) -> Option<Seq<char>> {
    if env.contains_key(key) && pieces::trimmed(env[key]).len() > 0 {
        Some(env[key])
    } else {
        None
    }
}

/// The variable's value, where it has one that is not blank.
pub fn current_non_empty_env(env: &AssocMap<String, String>, key: &str) -> (r: Option<String>)
    requires
        env.wf(),
    ensures
        text::opt_text(r) == held_by(env_view(*env), key@),
{
    match env.get(&key.to_string()) {
        Some(v) => if pieces::trim(v.as_str()).as_str().is_empty() {
            None
        } else {
            Some(v.clone())
        },
        None => None,
    }
}

/// The variable is set to something.
pub open spec fn is_set(env: Map<Seq<char>, Seq<char>>, key: Seq<char>) -> bool {
    env.contains_key(key) && env[key].len() > 0
}

fn put(env: &mut AssocMap<String, String>, key: &str, value: &str)
    requires
        old(env).wf(),
    ensures
        final(env).wf(),
        env_view(*final(env)) == env_view(*old(env)).insert(key@, value@),
{
    env.insert(key.to_string(), value.to_string());
    assert(env_view(*env) =~= env_view(*old(env)).insert(key@, value@));
}

/// The configurations that count: the default one, and that of the selected program where
/// it is another.
pub fn codex_provider_config_paths(default_path: String, selected_path: String) -> (r: Vec<String>)
    ensures
        text::texts(r@) == (if default_path@ == selected_path@ {
            seq![default_path@]
        } else {
            seq![default_path@, selected_path@]
        }),
{
    let other = !text::same(default_path.as_str(), selected_path.as_str());
    let ghost first = default_path@;
    let ghost second = selected_path@;
    let mut out: Vec<String> = Vec::new();
    out.push(default_path);
    if other {
        out.push(selected_path);
        assert(text::texts(out@) =~= seq![first, second]);
    } else {
        assert(text::texts(out@) =~= seq![first]);
    }
    out
}

// ---------------------------------------------------------------------------
// For a running sidecar
// ---------------------------------------------------------------------------

/// Some configuration's providers ask for the variable.
pub open spec fn asked_for(configs: Seq<Seq<char>>, key: Seq<char>) -> bool {
    exists|i: int|
        0 <= i < configs.len() && (#[trigger] codex_config::declared_of(configs[i])).contains(key)
}

/// The value that a variable is handed on with: its own, else the login shell's.
pub open spec fn value_for(
    env: Map<Seq<char>, Seq<char>>,
    shell: Option<Map<Seq<char>, Seq<char>>>,
    key: Seq<char>,
) -> Option<Seq<char>> {
    match held_by(env, key) {
        Some(v) => Some(v),
        None => match shell {
            Some(s) => held_by(s, key),
            None => None,
        },
    }
}

/// The variables that the configurations' providers ask for, as far as they have values.
pub open spec fn collected(
    configs: Seq<Seq<char>>,
    env: Map<Seq<char>, Seq<char>>,
    shell: Option<Map<Seq<char>, Seq<char>>>,
) -> Map<Seq<char>, Seq<char>> {
    Map::new(
        |k: Seq<char>| asked_for(configs, k) && value_for(env, shell, k) is Some,
        |k: Seq<char>| value_for(env, shell, k)->0,
    )
}

/// As `collected`, with the first variables of one more configuration.
spec fn collected_so_far(
    configs: Seq<Seq<char>>,
    keys: Seq<Seq<char>>,
    env: Map<Seq<char>, Seq<char>>,
    shell: Option<Map<Seq<char>, Seq<char>>>,
) -> Map<Seq<char>, Seq<char>> {
    Map::new(
        |k: Seq<char>|
            (asked_for(configs, k) || keys.contains(k)) && value_for(env, shell, k) is Some,
        |k: Seq<char>| value_for(env, shell, k)->0,
    )
}

proof fn lemma_asked_for_more(configs: Seq<Seq<char>>, i: int)
    requires
        0 <= i < configs.len(),
    ensures
        forall|k: Seq<char>| #[trigger]
            asked_for(configs.take(i + 1), k) <==> asked_for(configs.take(i), k)
                || codex_config::declared_of(configs[i]).contains(k),
{
    let before = configs.take(i);
    let after = configs.take(i + 1);
    assert forall|k: Seq<char>| #[trigger] asked_for(after, k) <==> asked_for(before, k)
        || codex_config::declared_of(configs[i]).contains(k) by {
        if asked_for(after, k) {
            let j = choose|j: int|
                0 <= j < after.len() && (#[trigger] codex_config::declared_of(after[j])).contains(k);
            if j < i {
                assert(before[j] == after[j]);
                assert(codex_config::declared_of(before[j]).contains(k));
            }
        }
        if asked_for(before, k) {
            let j = choose|j: int|
                0 <= j < before.len() && (#[trigger] codex_config::declared_of(before[j])).contains(
                    k,
                );
            assert(after[j] == before[j]);
            assert(codex_config::declared_of(after[j]).contains(k));
        }
        if codex_config::declared_of(configs[i]).contains(k) {
            assert(after[i] == configs[i]);
            assert(codex_config::declared_of(after[i]).contains(k));
        }
    }
}

/// The variables that the configurations' providers ask for, as far as they have values.
pub fn collect_codex_provider_env(
    configs: &Vec<String>,
    env: &AssocMap<String, String>,
    shell_env: Option<&AssocMap<String, String>>,
) -> (r: AssocMap<String, String>)
    requires
        env.wf(),
        shell_env matches Some(s) ==> s.wf(),
    ensures
        r.wf(),
        env_view(r) == collected(text::texts(configs@), env_view(*env), opt_env(shell_env)),
{
    let ghost all = text::texts(configs@);
    let ghost e = env_view(*env);
    let ghost s = opt_env(shell_env);
    let mut values: AssocMap<String, String> = AssocMap::new();
    let mut i: usize = 0;
    assert(env_view(values) =~= collected(all.take(0), e, s));
    while i < configs.len()
        invariant
            i <= configs@.len(),
            env.wf(),
            shell_env matches Some(sh) ==> sh.wf(),
            values.wf(),
            all == text::texts(configs@),
            e == env_view(*env),
            s == opt_env(shell_env),
            env_view(values) == collected(all.take(i as int), e, s),
        decreases configs@.len() - i,
    {
        let keys = codex_config::declared_env_keys(configs[i].as_str());
        let ghost names = text::texts(keys@);
        let ghost before = all.take(i as int);
        assert(all[i as int] == configs@[i as int]@);
        let mut j: usize = 0;
        assert(env_view(values) =~= collected_so_far(before, names.take(0), e, s));
        while j < keys.len()
            invariant
                j <= keys@.len(),
                env.wf(),
                shell_env matches Some(sh) ==> sh.wf(),
                values.wf(),
                names == text::texts(keys@),
                e == env_view(*env),
                s == opt_env(shell_env),
                env_view(values) == collected_so_far(before, names.take(j as int), e, s),
            decreases keys@.len() - j,
        {
            let key = &keys[j];
            assert(names[j as int] == key@);
            let own = current_non_empty_env(env, key.as_str());
            let value = match own {
                Some(v) => Some(v),
                None => match shell_env {
                    Some(sh) => current_non_empty_env(sh, key.as_str()),
                    None => None,
                },
            };
            assert(text::opt_text(value) == value_for(e, s, key@));
            match value {
                Some(v) => {
                    put(&mut values, key.as_str(), v.as_str());
                },
                None => {},
            }
            proof {
                let now = names.take(j + 1);
                assert forall|k: Seq<char>| now.contains(k) <==> names.take(j as int).contains(k)
                    || k == key@ by {
                    if now.contains(k) {
                        let n = choose|n: int| 0 <= n < now.len() && now[n] == k;
                        if n < j {
                            assert(names.take(j as int)[n] == k);
                        }
                    }
                    if names.take(j as int).contains(k) {
                        let n = choose|n: int|
                            0 <= n < names.take(j as int).len() && names.take(j as int)[n] == k;
                        assert(now[n] == k);
                    }
                    if k == key@ {
                        assert(now[j as int] == k);
                    }
                }
                assert(env_view(values) =~= collected_so_far(before, now, e, s));
            }
            j += 1;
        }
        assert(names.take(j as int) =~= names);
        proof {
            lemma_asked_for_more(all, i as int);
            assert(names == codex_config::declared_of(all[i as int]));
            assert(env_view(values) =~= collected(all.take(i + 1), e, s));
        }
        i += 1;
    }
    assert(all.take(i as int) =~= all);
    values
}

/// Variables with those that were remembered: only such as the configurations' providers
/// ask for, and only where there is no value yet.
pub open spec fn with_cached(
    configs: Seq<Seq<char>>,
    values: Map<Seq<char>, Seq<char>>,
    cached: Map<Seq<char>, Seq<char>>,
) -> Map<Seq<char>, Seq<char>> {
    Map::new(
        |k: Seq<char>|
            values.contains_key(k) || (asked_for(configs, k) && held_by(cached, k) is Some),
        |k: Seq<char>|
            if values.contains_key(k) {
                values[k]
            } else {
                held_by(cached, k)->0
            },
    )
}

spec fn with_cached_so_far(
    configs: Seq<Seq<char>>,
    keys: Seq<Seq<char>>,
    values: Map<Seq<char>, Seq<char>>,
    cached: Map<Seq<char>, Seq<char>>,
) -> Map<Seq<char>, Seq<char>> {
    Map::new(
        |k: Seq<char>|
            values.contains_key(k) || ((asked_for(configs, k) || keys.contains(k)) && held_by(
                cached,
                k,
            ) is Some),
        |k: Seq<char>|
            if values.contains_key(k) {
                values[k]
            } else {
                held_by(cached, k)->0
            },
    )
}

/// Adds the variables that were remembered.
pub fn merge_codex_provider_env_from_cache(
    configs: &Vec<String>,
    values: &mut AssocMap<String, String>,
    cached: &AssocMap<String, String>,
)
    requires
        old(values).wf(),
        cached.wf(),
    ensures
        final(values).wf(),
        env_view(*final(values)) == with_cached(
            text::texts(configs@),
            env_view(*old(values)),
            env_view(*cached),
        ),
{
    let ghost all = text::texts(configs@);
    let ghost start = env_view(*values);
    let ghost c = env_view(*cached);
    let mut i: usize = 0;
    assert(env_view(*values) =~= with_cached(all.take(0), start, c));
    while i < configs.len()
        invariant
            i <= configs@.len(),
            values.wf(),
            cached.wf(),
            all == text::texts(configs@),
            c == env_view(*cached),
            env_view(*values) == with_cached(all.take(i as int), start, c),
        decreases configs@.len() - i,
    {
        let keys = codex_config::declared_env_keys(configs[i].as_str());
        let ghost names = text::texts(keys@);
        let ghost before = all.take(i as int);
        assert(all[i as int] == configs@[i as int]@);
        let mut j: usize = 0;
        assert(env_view(*values) =~= with_cached_so_far(before, names.take(0), start, c));
        while j < keys.len()
            invariant
                j <= keys@.len(),
                values.wf(),
                cached.wf(),
                names == text::texts(keys@),
                c == env_view(*cached),
                env_view(*values) == with_cached_so_far(before, names.take(j as int), start, c),
            decreases keys@.len() - j,
        {
            let key = &keys[j];
            assert(names[j as int] == key@);
            let there = values.contains_key(key);
            assert(there == env_view(*values).contains_key(key@));
            let remembered = current_non_empty_env(cached, key.as_str());
            if !there {
                match remembered {
                    Some(v) => {
                        put(values, key.as_str(), v.as_str());
                    },
                    None => {},
                }
            }
            proof {
                let now = names.take(j + 1);
                assert forall|k: Seq<char>| now.contains(k) <==> names.take(j as int).contains(k)
                    || k == key@ by {
                    if now.contains(k) {
                        let n = choose|n: int| 0 <= n < now.len() && now[n] == k;
                        if n < j {
                            assert(names.take(j as int)[n] == k);
                        }
                    }
                    if names.take(j as int).contains(k) {
                        let n = choose|n: int|
                            0 <= n < names.take(j as int).len() && names.take(j as int)[n] == k;
                        assert(now[n] == k);
                    }
                    if k == key@ {
                        assert(now[j as int] == k);
                    }
                }
                assert(env_view(*values) =~= with_cached_so_far(before, now, start, c));
            }
            j += 1;
        }
        assert(names.take(j as int) =~= names);
        proof {
            lemma_asked_for_more(all, i as int);
            assert(names == codex_config::declared_of(all[i as int]));
            assert(env_view(*values) =~= with_cached(all.take(i + 1), start, c));
        }
        i += 1;
    }
    assert(all.take(i as int) =~= all);
}

/// The variables that a sidecar is handed: those that have values, and those that were
/// remembered.
pub fn codex_provider_env_for_selected_home(
    configs: &Vec<String>,
    env: &AssocMap<String, String>,
    cached: &AssocMap<String, String>,
) -> (r: AssocMap<String, String>)
    requires
        env.wf(),
        cached.wf(),
    ensures
        r.wf(),
        env_view(r) == with_cached(
            text::texts(configs@),
            collected(text::texts(configs@), env_view(*env), None),
            env_view(*cached),
        ),
{
    let mut values = collect_codex_provider_env(configs, env, None);
    merge_codex_provider_env_from_cache(configs, &mut values, cached);
    values
}

// ---------------------------------------------------------------------------
// At startup
// ---------------------------------------------------------------------------

/// Variables that are set one after the other, and what the variables hold then. One that
/// is set already is left alone.
pub open spec fn applied(
    keys: Seq<Seq<char>>,
    shell: Map<Seq<char>, Seq<char>>,
    env: Map<Seq<char>, Seq<char>>,
) -> (Seq<(Seq<char>, Seq<char>)>, Map<Seq<char>, Seq<char>>)
    decreases keys.len(),
{
    if keys.len() == 0 {
        (seq![], env)
    } else {
        let (done, now) = applied(keys.drop_last(), shell, env);
        let key = keys.last();
        match held_by(shell, key) {
            Some(v) => if is_set(now, key) {
                (done, now)
            } else {
                (done.push((key, v)), now.insert(key, v))
            },
            None => (done, now),
        }
    }
}

/// Takes over from the login shell the variables that a configuration's providers ask for
/// and that are not set. The result holds those that the host sets, and how many were
/// asked for.
pub fn apply_env_keys_from_config(
    config: &str,
    shell: &AssocMap<String, String>,
    env: &mut AssocMap<String, String>,
) -> (r: (Vec<(String, String)>, usize))
    requires
        shell.wf(),
        old(env).wf(),
    ensures
        final(env).wf(),
        ({
            let keys = codex_config::declared_of(config@);
            &&& (text::text_pairs(r.0@), env_view(*final(env))) == applied(
                keys,
                env_view(*shell),
                env_view(*old(env)),
            )
            &&& r.1 == keys.len()
        }),
{
    let keys = codex_config::declared_env_keys(config);
    let ghost names = text::texts(keys@);
    let ghost sh = env_view(*shell);
    let ghost start = env_view(*env);
    let mut out: Vec<(String, String)> = Vec::new();
    let mut i: usize = 0;
    assert(text::text_pairs(out@) =~= applied(names.take(0), sh, start).0);
    while i < keys.len()
        invariant
            i <= keys@.len(),
            shell.wf(),
            env.wf(),
            names == text::texts(keys@),
            sh == env_view(*shell),
            (text::text_pairs(out@), env_view(*env)) == applied(names.take(i as int), sh, start),
        decreases keys@.len() - i,
    {
        let key = &keys[i];
        assert(names.take(i + 1).drop_last() =~= names.take(i as int));
        assert(names.take(i + 1).last() == key@);
        match current_non_empty_env(shell, key.as_str()) {
            Some(v) => {
                let set = match env.get(key) {
                    Some(old_value) => !old_value.as_str().is_empty(),
                    None => false,
                };
                assert(set == is_set(env_view(*env), key@));
                if !set {
                    put(env, key.as_str(), v.as_str());
                    let ghost before = text::text_pairs(out@);
                    let name = key.clone();
                    out.push((name, v));
                    assert(text::text_pairs(out@) =~= before.push((name@, v@)));
                }
            },
            None => {},
        }
        i += 1;
    }
    assert(names.take(i as int) =~= names);
    (out, keys.len())
}

/// Takes over the variables of one configuration after the other.
pub open spec fn inherited(
    configs: Seq<Seq<char>>,
    shell: Map<Seq<char>, Seq<char>>,
    env: Map<Seq<char>, Seq<char>>,
) -> (Seq<(Seq<char>, Seq<char>)>, Map<Seq<char>, Seq<char>>)
    decreases configs.len(),
{
    if configs.len() == 0 {
        (seq![], env)
    } else {
        let (done, now) = inherited(configs.drop_last(), shell, env);
        let (more, after) = applied(codex_config::declared_of(configs.last()), shell, now);
        (done + more, after)
    }
}

/// Takes over from the login shell the variables that the configurations' providers ask for
/// and that are not set. The result holds those that the host sets; their number is the
/// number of variables that were taken over.
pub fn inherit_keys(
    configs: &Vec<String>,
    shell: &AssocMap<String, String>,
    env: &mut AssocMap<String, String>,
) -> (r: Vec<(String, String)>)
    requires
        shell.wf(),
        old(env).wf(),
    ensures
        final(env).wf(),
        (text::text_pairs(r@), env_view(*final(env))) == inherited(
            text::texts(configs@),
            env_view(*shell),
            env_view(*old(env)),
        ),
{
    let ghost all = text::texts(configs@);
    let ghost sh = env_view(*shell);
    let ghost start = env_view(*env);
    let mut out: Vec<(String, String)> = Vec::new();
    let mut i: usize = 0;
    assert(text::text_pairs(out@) =~= inherited(all.take(0), sh, start).0);
    while i < configs.len()
        invariant
            i <= configs@.len(),
            shell.wf(),
            env.wf(),
            all == text::texts(configs@),
            sh == env_view(*shell),
            (text::text_pairs(out@), env_view(*env)) == inherited(all.take(i as int), sh, start),
        decreases configs@.len() - i,
    {
        assert(all.take(i + 1).drop_last() =~= all.take(i as int));
        assert(all.take(i + 1).last() == configs@[i as int]@);
        let (mut more, _declared) = apply_env_keys_from_config(configs[i].as_str(), shell, env);
        let ghost before = text::text_pairs(out@);
        let ghost added = text::text_pairs(more@);
        let ghost pairs = more@;
        let ghost kept = out@;
        out.append(&mut more);
        assert(out@ =~= kept + pairs);
        assert(text::text_pairs(out@) =~= before + added);
        i += 1;
    }
    assert(all.take(i as int) =~= all);
    out
}

// ---------------------------------------------------------------------------
// Laws
// ---------------------------------------------------------------------------

/// A variable that is set keeps its value, and one that no provider asks for, or that the
/// login shell does not hold, is left as it is.
pub proof fn law_set_variables_are_kept(
    keys: Seq<Seq<char>>,
    shell: Map<Seq<char>, Seq<char>>,
    env: Map<Seq<char>, Seq<char>>,
    key: Seq<char>,
)
    requires
        is_set(env, key) || !keys.contains(key) || held_by(shell, key) is None,
    ensures
        ({
            let after = applied(keys, shell, env).1;
            after.contains_key(key) == env.contains_key(key) && (env.contains_key(key)
                ==> after[key] == env[key])
        }),
    decreases keys.len(),
{
    if keys.len() > 0 {
        if keys.drop_last().contains(key) {
            let i = choose|i: int|
                0 <= i < keys.drop_last().len() && keys.drop_last()[i] == key;
            assert(keys[i] == key);
        }
        assert(keys.contains(keys.last())) by {
            assert(keys[keys.len() - 1] == keys.last());
        }
        law_set_variables_are_kept(keys.drop_last(), shell, env, key);
    }
}

/// A variable that a provider asks for and the login shell holds is set afterwards.
pub proof fn law_declared_variables_are_set(
    keys: Seq<Seq<char>>,
    shell: Map<Seq<char>, Seq<char>>,
    env: Map<Seq<char>, Seq<char>>,
    i: int,
)
    requires
        0 <= i < keys.len(),
        held_by(shell, keys[i]) is Some,
    ensures
        is_set(applied(keys, shell, env).1, keys[i]),
    decreases keys.len(),
{
    let key = keys[i];
    if i < keys.len() - 1 {
        assert(keys.drop_last()[i] == key);
        law_declared_variables_are_set(keys.drop_last(), shell, env, i);
        lemma_held_is_not_empty(shell, keys.last());
    } else {
        lemma_held_is_not_empty(shell, key);
    }
}

/// A value that is not blank is not empty.
proof fn lemma_held_is_not_empty(env: Map<Seq<char>, Seq<char>>, key: Seq<char>)
    ensures
        held_by(env, key) matches Some(v) ==> v.len() > 0,
{
    if held_by(env, key) is Some && env[key].len() == 0 {
        assert(pieces::trimmed(env[key]).len() == 0);
    }
}

/// What is remembered never replaces a value that there is.
pub proof fn law_remembered_values_come_last(
    configs: Seq<Seq<char>>,
    values: Map<Seq<char>, Seq<char>>,
    cached: Map<Seq<char>, Seq<char>>,
    key: Seq<char>,
)
    requires
        values.contains_key(key),
    ensures
        with_cached(configs, values, cached).contains_key(key),
        with_cached(configs, values, cached)[key] == values[key],
{
}

/// A variable is handed on exactly where some configuration declares it and it has a value
/// that is not blank: its own, or else the login shell's.
pub proof fn law_declared_variables_are_handed_on(
    configs: Seq<Seq<char>>,
    env: Map<Seq<char>, Seq<char>>,
    shell: Map<Seq<char>, Seq<char>>,
    key: Seq<char>,
)
    ensures
        ({
            let declared = exists|i: int|
                0 <= i < configs.len() && (#[trigger] codex_config::declared_of(
                    configs[i],
                )).contains(key);
            let own = env.contains_key(key) && pieces::says_something(env[key]);
            let other = shell.contains_key(key) && pieces::says_something(shell[key]);
            let got = collected(configs, env, Some(shell));
            let alone = collected(configs, env, None);
            &&& got.contains_key(key) <==> declared && (own || other)
            &&& got.contains_key(key) ==> got[key] == (if own {
                env[key]
            } else {
                shell[key]
            })
            &&& alone.contains_key(key) <==> declared && own
            &&& alone.contains_key(key) ==> alone[key] == env[key]
        }),
{
    pieces::law_trimming_takes_only_white_space(env[key]);
    pieces::law_trimming_takes_only_white_space(shell[key]);
}

/// What was remembered is added exactly where it was declared, is not blank and no value is
/// there.
pub proof fn law_remembered_values_fill_the_gaps(
    configs: Seq<Seq<char>>,
    values: Map<Seq<char>, Seq<char>>,
    cached: Map<Seq<char>, Seq<char>>,
    key: Seq<char>,
)
    requires
        !values.contains_key(key),
    ensures
        ({
            let declared = exists|i: int|
                0 <= i < configs.len() && (#[trigger] codex_config::declared_of(
                    configs[i],
                )).contains(key);
            let after = with_cached(configs, values, cached);
            &&& after.contains_key(key) <==> declared && cached.contains_key(key)
                && pieces::says_something(cached[key])
            &&& after.contains_key(key) ==> after[key] == cached[key]
        }),
{
    pieces::law_trimming_takes_only_white_space(cached[key]);
}

/// What is taken over is the login shell's own value: of one more key, where it is not set and
/// the shell's value is not blank, the pair is told and set; else nothing happens.
pub proof fn law_shell_values_are_taken_over(
    keys: Seq<Seq<char>>,
    shell: Map<Seq<char>, Seq<char>>,
    env: Map<Seq<char>, Seq<char>>,
    key: Seq<char>,
)
    ensures
        ({
            let (done, now) = applied(keys, shell, env);
            let (more, after) = applied(keys.push(key), shell, env);
            let unset = !now.contains_key(key) || now[key].len() == 0;
            if unset && shell.contains_key(key) && pieces::says_something(shell[key]) {
                more == done.push((key, shell[key])) && after == now.insert(key, shell[key])
            } else {
                more == done && after == now
            }
        }),
        applied(seq![], shell, env) == (Seq::<(Seq<char>, Seq<char>)>::empty(), env),
{
    assert(keys.push(key).drop_last() =~= keys);
    pieces::law_trimming_takes_only_white_space(shell[key]);
}

/// Configurations are taken one after the other, each on what those before it have set.
pub proof fn law_configurations_follow_each_other(
    configs: Seq<Seq<char>>,
    config: Seq<char>,
    shell: Map<Seq<char>, Seq<char>>,
    env: Map<Seq<char>, Seq<char>>,
)
    ensures
        ({
            let (done, now) = inherited(configs, shell, env);
            let (more, after) = applied(codex_config::declared_of(config), shell, now);
            inherited(configs.push(config), shell, env) == (done + more, after)
        }),
        inherited(seq![], shell, env) == (Seq::<(Seq<char>, Seq<char>)>::empty(), env),
{
    assert(configs.push(config).drop_last() =~= configs);
}

/// The default configuration counts first, and the selected program's behind it, unless it is
/// the same.
pub proof fn law_both_configurations_count(
    default_path: String,
    selected_path: String,
    r: Vec<String>,
)
    requires
        call_ensures(codex_provider_config_paths, (default_path, selected_path), r),
    ensures
        text::texts(r@).contains(default_path@) && text::texts(r@).contains(selected_path@),
        text::texts(r@)[0] == default_path@,
        r@.len() == 2 <==> default_path@ != selected_path@,
        r@.len() <= 2,
{
    assert(text::texts(r@).len() == r@.len());
    if default_path@ != selected_path@ {
        assert(text::texts(r@)[1] == selected_path@);
    }
    assert(text::texts(r@)[0] == default_path@);
}

} // verus!
