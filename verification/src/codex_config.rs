//! The configuration of Codex: where it lies, and which API keys it asks for.
use vstd::prelude::*;
use vstd::slice::slice_subrange;
use crate::paths;
use crate::pieces;
use crate::text;
use crate::toml_tree;
use crate::toml_tree::Toml;
use crate::utf8;

verus! {

/// Bytes of a wrapper script that are looked at.
pub const WRAPPER_SCAN_BYTES: u64 = 64 * 1024;

/// Lines of a wrapper script that are looked at.
pub const WRAPPER_SCAN_LINES: usize = 200;

// ---------------------------------------------------------------------------
// Where the configuration lies
// ---------------------------------------------------------------------------

/// The user's home directory, as the environment tells.
pub fn home_dir(home_var: Option<&str>) -> (r: String)
    ensures
        r@ == (match home_var {
            Some(h) => h@,
            None => "/"@,
        }),
{
    match home_var {
        Some(h) => h.to_string(),
        None => "/".to_string(),
    }
}

/// Codex's home where nothing else is said.
pub open spec fn default_home(codex_home_var: Option<Seq<char>>, home: Seq<char>) -> Seq<char> {
    match codex_home_var {
        Some(h) => h,
        None => paths::path_joined(home, ".codex"@),
    }
}

/// Codex's home where nothing else is said: what the environment tells, or a directory
/// below the user's home.
pub fn default_codex_home(codex_home_var: Option<&str>, home: &str) -> (r: String)
    ensures
        r@ == default_home(text::opt_str(codex_home_var), home@),
{
    match codex_home_var {
        Some(h) => h.to_string(),
        None => paths::path_join(home, ".codex"),
    }
}

/// The configuration's path where nothing else is said.
pub fn config_path(codex_home_var: Option<&str>, home: &str) -> (r: String)
    ensures
        r@ == paths::path_joined(
            default_home(text::opt_str(codex_home_var), home@),
            "config.toml"@,
        ),
{
    let dir = default_codex_home(codex_home_var, home);
    paths::path_join(dir.as_str(), "config.toml")
}

/// The configuration's path below Codex's home.
pub fn config_path_for_home(codex_home: &str) -> (r: String)
    ensures
        r@ == paths::path_joined(codex_home@, "config.toml"@),
{
    paths::path_join(codex_home, "config.toml")
}

/// The path of the login below Codex's home.
pub fn auth_path_for_home(codex_home: &str) -> (r: String)
    ensures
        r@ == paths::path_joined(codex_home@, "auth.json"@),
{
    paths::path_join(codex_home, "auth.json")
}

/// Codex's home: the one that the selected program sets, or the default.
pub fn selected_codex_home(from_executable: Option<String>, default: String) -> (r: String)
    ensures
        r@ == (match from_executable {
            Some(h) => h@,
            None => default@,
        }),
{
    match from_executable {
        Some(h) => h,
        None => default,
    }
}

// ---------------------------------------------------------------------------
// Wrapper scripts
// ---------------------------------------------------------------------------

/// The text up to the first white space.
pub open spec fn first_word(s: Seq<char>) -> Seq<char>
    decreases s.len(),
{
    if s.len() == 0 || pieces::white(s[0]) {
        seq![]
    } else {
        seq![s[0]] + first_word(s.drop_first())
    }
}

/// The text up to the quote.
pub open spec fn until_quote(s: Seq<char>, quote: Seq<char>) -> Seq<char> {
    pieces::split_of(s, quote)[0]
}

/// What follows a prefix, or the text itself where it has none.
pub open spec fn past(s: Seq<char>, prefix: Seq<char>) -> Seq<char> {
    match text::after_prefix(s, prefix) {
        Some(rest) => rest,
        None => s,
    }
}

/// The value that a line of a shell script assigns to `CODEX_HOME`, quoted or not.
pub open spec fn assigned(line: Seq<char>) -> Option<Seq<char>> {
    let l = pieces::trimmed_start(past(pieces::trimmed(line), "export "@));
    match text::after_prefix(l, "CODEX_HOME="@) {
        Some(v) => {
            let value = pieces::trimmed_start(v);
            if value.len() == 0 {
                None
            } else if text::begins(value, "\""@) {
                Some(until_quote(value.skip("\""@.len() as int), "\""@))
            } else if text::begins(value, "'"@) {
                Some(until_quote(value.skip("'"@.len() as int), "'"@))
            } else {
                Some(pieces::without_suffixes(first_word(value), ";"@))
            }
        },
        None => None,
    }
}

fn take_first_word(s: &str) -> (r: String)
    ensures
        r@ == first_word(s@),
{
    let v = text::chars_of(s);
    let mut out = String::new();
    let mut i: usize = 0;
    assert(s@.skip(0) =~= s@);
    assert(out@ + first_word(s@.skip(0)) =~= first_word(s@));
    while i < v.len() && !pieces::is_white(v[i])
        invariant
            i <= v@.len(),
            v@ == s@,
            out@ + first_word(s@.skip(i as int)) == first_word(s@),
        decreases v@.len() - i,
    {
        assert(s@.skip(i as int)[0] == v@[i as int]);
        assert(s@.skip(i as int).drop_first() =~= s@.skip(i + 1));
        let ghost before = out@;
        out.push(v[i]);
        assert(out@ =~= before + seq![v@[i as int]]);
        i += 1;
        assert(out@ + first_word(s@.skip(i as int)) =~= first_word(s@));
    }
    assert(first_word(s@.skip(i as int)) =~= Seq::<char>::empty()) by {
        if i < v@.len() {
            assert(s@.skip(i as int)[0] == v@[i as int]);
        }
    }
    assert(out@ =~= first_word(s@));
    out
}

fn take_until(s: &str, quote: &str) -> (r: String)
    requires
        quote@.len() > 0,
    ensures
        r@ == until_quote(s@, quote@),
{
    let parts = pieces::split(s, quote);
    proof {
        assert(text::texts(parts@).len() > 0);
        assert(text::texts(parts@)[0] == parts@[0]@);
    }
    parts[0].clone()
}

/// The value that a line of a shell script assigns to `CODEX_HOME`.
pub fn parse_codex_home_assignment(line: &str) -> (r: Option<String>)
    ensures
        text::opt_text(r) == assigned(line@),
{
    proof {
        reveal_strlit("\"");
        reveal_strlit("'");
        reveal_strlit(";");
    }
    let trimmed = pieces::trim(line);
    let bare = match text::strip_prefix(trimmed.as_str(), "export ") {
        Some(rest) => rest,
        None => trimmed,
    };
    let bare = pieces::trim_start(bare.as_str());
    let value = match text::strip_prefix(bare.as_str(), "CODEX_HOME=") {
        Some(v) => v,
        None => {
            return None;
        },
    };
    let value = pieces::trim_start(value.as_str());
    if value.as_str().is_empty() {
        return None;
    }
    match text::strip_prefix(value.as_str(), "\"") {
        Some(rest) => {
            return Some(take_until(rest.as_str(), "\""));
        },
        None => {},
    }
    match text::strip_prefix(value.as_str(), "'") {
        Some(rest) => {
            return Some(take_until(rest.as_str(), "'"));
        },
        None => {},
    }
    let word = take_first_word(value.as_str());
    Some(pieces::strip_suffixes(word.as_str(), ";"))
}

/// A path in which the home directory is named instead of being written out.
pub open spec fn expanded(value: Seq<char>, home: Seq<char>) -> Seq<char> {
    let v = pieces::replaced(pieces::replaced(value, "${HOME}"@, home), "$HOME"@, home);
    if v == "~"@ {
        home
    } else {
        match text::after_prefix(v, "~/"@) {
            Some(rest) => paths::path_joined(home, rest),
            None => v,
        }
    }
}

/// Writes out the home directory in a path.
pub fn expand_codex_home_value(value: &str, home: &str) -> (r: String)
    ensures
        r@ == expanded(value@, home@),
{
    proof {
        reveal_strlit("${HOME}");
        reveal_strlit("$HOME");
    }
    let braced = pieces::replace(value, "${HOME}", home);
    let v = pieces::replace(braced.as_str(), "$HOME", home);
    if text::same(v.as_str(), "~") {
        return home.to_string();
    }
    match text::strip_prefix(v.as_str(), "~/") {
        Some(rest) => paths::path_join(home, rest.as_str()),
        None => v,
    }
}

/// The first value that the lines assign.
pub open spec fn first_assigned(lines: Seq<Seq<char>>) -> Option<Seq<char>>
    decreases lines.len(),
{
    if lines.len() == 0 {
        None
    } else if assigned(lines[0]) is Some {
        assigned(lines[0])
    } else {
        first_assigned(lines.drop_first())
    }
}

/// The lines that are looked at.
pub open spec fn scanned(script: Seq<char>) -> Seq<Seq<char>> {
    let lines = pieces::lines_of(script);
    if lines.len() <= WRAPPER_SCAN_LINES {
        lines
    } else {
        lines.take(WRAPPER_SCAN_LINES as int)
    }
}

/// Codex's home as a wrapper script sets it.
pub open spec fn home_in_script(script: Seq<char>, home: Seq<char>) -> Option<Seq<char>> {
    match first_assigned(scanned(script)) {
        Some(v) => Some(expanded(v, home)),
        None => None,
    }
}

/// Codex's home as a wrapper script sets it.
pub fn codex_home_in_script(script: &str, home: &str) -> (r: Option<String>)
    ensures
        text::opt_text(r) == home_in_script(script@, home@),
{
    let lines = pieces::lines(script);
    let ghost all = scanned(script@);
    let n: usize = if lines.len() <= WRAPPER_SCAN_LINES {
        lines.len()
    } else {
        WRAPPER_SCAN_LINES
    };
    let mut i: usize = 0;
    assert(text::texts(lines@).len() == lines@.len());
    assert(all.len() == n);
    assert(all.skip(0) =~= all);
    while i < n
        invariant
            i <= n,
            n <= lines@.len(),
            n == all.len(),
            text::texts(lines@) == pieces::lines_of(script@),
            all == scanned(script@),
            first_assigned(all) == first_assigned(all.skip(i as int)),
        decreases n - i,
    {
        assert(text::texts(lines@)[i as int] == lines@[i as int]@);
        assert(all.skip(i as int)[0] == lines@[i as int]@);
        assert(all.skip(i as int).drop_first() =~= all.skip(i + 1));
        match parse_codex_home_assignment(lines[i].as_str()) {
            Some(value) => {
                return Some(expand_codex_home_value(value.as_str(), home));
            },
            None => {},
        }
        i += 1;
    }
    assert(all.skip(i as int).len() == 0);
    None
}

/// The bytes of a program that are looked at.
pub open spec fn looked_at(program: Seq<u8>) -> Seq<u8> {
    if program.len() <= WRAPPER_SCAN_BYTES {
        program
    } else {
        program.take(WRAPPER_SCAN_BYTES as int)
    }
}

/// Codex's home as a program sets it, where it is a wrapper script: its beginning is read
/// as text, as far as it is text.
pub open spec fn home_in_program(program: Seq<u8>, home: Seq<char>) -> Option<Seq<char>> {
    home_in_script(utf8::lossy_text(looked_at(program)), home)
}

/// Codex's home as a program sets it that is a wrapper script. There is none where the
/// program could not be read.
pub fn codex_home_from_executable(program: Option<&[u8]>, home: &str) -> (r: Option<String>)
    ensures
        text::opt_text(r) == (match program {
            Some(b) => home_in_program(b@, home@),
            None => None,
        }),
{
    let bytes = match program {
        Some(b) => b,
        None => {
            return None;
        },
    };
    let script = if bytes.len() as u64 <= WRAPPER_SCAN_BYTES {
        utf8::text_from_utf8_lossy(bytes)
    } else {
        let beginning = slice_subrange(bytes, 0, WRAPPER_SCAN_BYTES as usize);
        assert(beginning@ =~= looked_at(bytes@));
        utf8::text_from_utf8_lossy(beginning)
    };
    codex_home_in_script(script.as_str(), home)
}

// ---------------------------------------------------------------------------
// Providers
// ---------------------------------------------------------------------------

/// A provider that is used with an API key, and the variable that holds the key.
#[derive(Debug, Clone, PartialEq, Eq)]
pub struct ApiKeyProvider {
    pub name: String,
    pub env_key: String,
}

/// The text, trimmed, where it says anything.
pub open spec fn told(s: Option<Seq<char>>) -> Option<Seq<char>> {
    match s {
        Some(s) => if pieces::trimmed(s).len() > 0 {
            Some(pieces::trimmed(s))
        } else {
            None
        },
        None => None,
    }
}

/// The variable that a provider's configuration asks for.
pub open spec fn key_in(provider: toml_tree::TomlTree) -> Option<Seq<char>> {
    told(provider.text_at("env_key"@))
}

/// The provider that is selected and the variable that it asks for, where it does.
pub open spec fn active_in(t: toml_tree::TomlTree) -> Option<(Seq<char>, Seq<char>)> {
    match told(t.text_at("model_provider"@)) {
        Some(name) => match t.get("model_providers"@) {
            Some(providers) => match providers.get(name) {
                Some(p) => match key_in(p) {
                    Some(key) => Some((name, key)),
                    None => None,
                },
                None => None,
            },
            None => None,
        },
        None => None,
    }
}

/// The variables that the providers ask for, each once, in the order of the providers.
pub open spec fn keys_among(providers: Seq<(Seq<char>, toml_tree::TomlTree)>) -> Seq<Seq<char>>
    decreases providers.len(),
{
    if providers.len() == 0 {
        seq![]
    } else {
        let before = keys_among(providers.drop_last());
        match key_in(providers.last().1) {
            Some(k) => if before.contains(k) {
                before
            } else {
                before.push(k)
            },
            None => before,
        }
    }
}

/// The variables that a configuration's providers ask for.
pub open spec fn declared_in(t: toml_tree::TomlTree) -> Seq<Seq<char>> {
    match t.get("model_providers"@) {
        Some(toml_tree::TomlTree::Table(p)) => keys_among(p),
        _ => seq![],
    }
}

/// The variables that the providers of a configuration ask for, none where it is not TOML.
pub open spec fn declared_of(config: Seq<char>) -> Seq<Seq<char>> {
    match toml_tree::meaning(config) {
        Some(t) => declared_in(t),
        None => seq![],
    }
}

/// The text, trimmed, where it says anything.
pub fn read_told(s: Option<&str>) -> (r: Option<String>)
    ensures
        text::opt_text(r) == told(text::opt_str(s)),
{
    match s {
        Some(s) => {
            let t = pieces::trim(s);
            if t.as_str().is_empty() {
                None
            } else {
                Some(t)
            }
        },
        None => None,
    }
}

/// The provider that is selected in a configuration, where it asks for a variable.
pub fn active_provider_in(config: &Toml) -> (r: Option<ApiKeyProvider>)
    ensures
        match (r, active_in(config@)) {
            (Some(p), Some(v)) => (p.name@, p.env_key@) == v,
            (None, None) => true,
            _ => false,
        },
{
    let name = match read_told(config.text_at("model_provider")) {
        Some(n) => n,
        None => {
            return None;
        },
    };
    let provider = match config.get("model_providers") {
        Some(providers) => match providers.get(name.as_str()) {
            Some(p) => p,
            None => {
                return None;
            },
        },
        None => {
            return None;
        },
    };
    match read_told(provider.text_at("env_key")) {
        Some(env_key) => Some(ApiKeyProvider { name, env_key }),
        None => None,
    }
}

/// The provider that is selected in a configuration, where it asks for a variable. There is
/// none where the configuration is not TOML.
pub fn active_api_key_provider(config: &str) -> (r: Option<ApiKeyProvider>)
    ensures
        match (r, toml_tree::meaning(config@)) {
            (Some(p), Some(t)) => active_in(t) == Some((p.name@, p.env_key@)),
            (None, Some(t)) => active_in(t) is None,
            (None, None) => true,
            (Some(_), None) => false,
        },
{
    match toml_tree::parse(config) {
        Some(t) => active_provider_in(&t),
        None => None,
    }
}

/// The variables that a configuration's providers ask for, each once.
pub fn env_keys_in(config: &Toml) -> (r: Vec<String>)
    ensures
        text::texts(r@) == declared_in(config@),
{
    let mut keys: Vec<String> = Vec::new();
    let providers = match config.get("model_providers") {
        Some(p) => p,
        None => {
            assert(text::texts(keys@) =~= declared_in(config@));
            return keys;
        },
    };
    proof {
        toml_tree::lemma_view_entries(providers);
    }
    match providers {
        Toml::Table(t) => {
            let ghost all = toml_tree::entry_trees(t@);
            let mut i: usize = 0;
            assert(text::texts(keys@) =~= keys_among(all.take(0)));
            while i < t.len()
                invariant
                    i <= t@.len(),
                    all == toml_tree::entry_trees(t@),
                    text::texts(keys@) == keys_among(all.take(i as int)),
                decreases t@.len() - i,
            {
                assert(all.take(i + 1).drop_last() =~= all.take(i as int));
                assert(all.take(i + 1).last() == (t@[i as int].0@, t@[i as int].1.view()));
                match read_told(t[i].1.text_at("env_key")) {
                    Some(k) => {
                        if !text::is_among(k.as_str(), &keys) {
                            let ghost before = text::texts(keys@);
                            keys.push(k);
                            assert(text::texts(keys@) =~= before.push(k@));
                        }
                    },
                    None => {},
                }
                i += 1;
            }
            assert(all.take(i as int) =~= all);
            keys
        },
        _ => {
            assert(text::texts(keys@) =~= declared_in(config@));
            keys
        },
    }
}

/// The variables that the providers of a configuration ask for, whichever of them is
/// selected.
pub fn declared_env_keys(config: &str) -> (r: Vec<String>)
    ensures
        text::texts(r@) == declared_of(config@),
{
    match toml_tree::parse(config) {
        Some(t) => env_keys_in(&t),
        None => {
            let r: Vec<String> = Vec::new();
            assert(text::texts(r@) =~= declared_of(config@));
            r
        },
    }
}

// ---------------------------------------------------------------------------
// Laws
// ---------------------------------------------------------------------------

/// No variable is asked for twice, and every one is trimmed and says something.
pub proof fn law_declared_keys_are_distinct(providers: Seq<(Seq<char>, toml_tree::TomlTree)>)
    ensures
        keys_among(providers).no_duplicates(),
        forall|i: int|
            0 <= i < keys_among(providers).len() ==> {
                let key = #[trigger] keys_among(providers)[i];
                key.len() > 0 && pieces::trimmed(key) == key
            },
    decreases providers.len(),
{
    if providers.len() > 0 {
        law_declared_keys_are_distinct(providers.drop_last());
        match key_in(providers.last().1) {
            Some(key) => {
                let raw = providers.last().1.text_at("env_key"@)->0;
                pieces::lemma_trimmed_ends(raw);
                pieces::lemma_trimmed_fixed(key);
            },
            None => {},
        }
    }
}

/// The variable of the provider that is selected is among those that are declared.
pub proof fn law_active_key_is_declared(t: toml_tree::TomlTree)
    requires
        active_in(t) is Some,
    ensures
        declared_in(t).contains((active_in(t)->0).1),
{
    let name = told(t.text_at("model_provider"@))->0;
    let p = t.get("model_providers"@)->0->Table_0;
    lemma_entry_is_somewhere(p, name);
    let i = choose|i: int|
        0 <= i < p.len() && p[i].0 == name && Some(p[i].1) == toml_tree::entry(p, name);
    lemma_key_is_kept(p, i);
}

proof fn lemma_entry_is_somewhere(p: Seq<(Seq<char>, toml_tree::TomlTree)>, name: Seq<char>)
    requires
        toml_tree::entry(p, name) is Some,
    ensures
        exists|i: int|
            0 <= i < p.len() && (#[trigger] p[i]).0 == name && Some(p[i].1) == toml_tree::entry(
                p,
                name,
            ),
    decreases p.len(),
{
    if p[0].0 != name {
        lemma_entry_is_somewhere(p.drop_first(), name);
        let rest = p.drop_first();
        let i = choose|i: int|
            0 <= i < rest.len() && (#[trigger] rest[i]).0 == name && Some(rest[i].1)
                == toml_tree::entry(rest, name);
        assert(p[i + 1] == rest[i]);
    }
}

proof fn lemma_key_is_kept(p: Seq<(Seq<char>, toml_tree::TomlTree)>, i: int)
    requires
        0 <= i < p.len(),
        key_in(p[i].1) is Some,
    ensures
        keys_among(p).contains(key_in(p[i].1)->0),
    decreases p.len(),
{
    let before = keys_among(p.drop_last());
    let key = key_in(p[i].1)->0;
    if i < p.len() - 1 {
        assert(p.drop_last()[i] == p[i]);
        lemma_key_is_kept(p.drop_last(), i);
        let k = choose|k: int| 0 <= k < before.len() && before[k] == key;
        assert(keys_among(p)[k] == key);
    } else if !before.contains(key) {
        assert(keys_among(p)[before.len() as int] == key);
    }
}

proof fn lemma_starts_with_quote(s: Seq<char>, q: char, quote: Seq<char>)
    requires
        quote == seq![q],
        s.len() > 0,
    ensures
        text::begins(s, quote) <==> s[0] == q,
{
    if s[0] == q {
        assert(s.take(1) =~= quote);
    } else {
        assert(s.take(1)[0] == s[0]);
    }
}

proof fn lemma_past_the_name(l: Seq<char>, exported: bool, rest: Seq<char>)
    requires
        l == (if exported {
            "export "@
        } else {
            Seq::<char>::empty()
        }) + "CODEX_HOME="@ + rest,
    ensures
        text::after_prefix(pieces::trimmed_start(past(l, "export "@)), "CODEX_HOME="@) == Some(rest),
{
    reveal_strlit("export ");
    reveal_strlit("CODEX_HOME=");
    let name = "CODEX_HOME="@;
    let plain = name + rest;
    if exported {
        assert(l.take(7) =~= "export "@);
        assert(l.skip(7) =~= plain);
    } else {
        assert(l =~= plain);
        if text::begins(l, "export "@) {
            assert(l.take(7)[0] == "export "@[0]);
        }
    }
    assert(plain[0] == 'C');
    assert(plain.take(name.len() as int) =~= name);
    assert(plain.skip(name.len() as int) =~= rest);
}

/// A value in quotes is read as it stands between them, whatever follows, exported or not.
pub proof fn law_quoted_values_are_read(
    line: Seq<char>,
    exported: bool,
    q: char,
    v: Seq<char>,
    rest: Seq<char>,
)
    requires
        q == '"' || q == '\'',
        !v.contains(q),
        pieces::trimmed(line) == (if exported {
            "export "@
        } else {
            Seq::<char>::empty()
        }) + "CODEX_HOME="@ + (seq![q] + v + seq![q] + rest),
    ensures
        assigned(line) == Some(v),
{
    reveal_strlit("\"");
    reveal_strlit("'");
    let value = seq![q] + v + seq![q] + rest;
    let quote = seq![q];
    lemma_past_the_name(pieces::trimmed(line), exported, value);
    assert(value[0] == q);
    assert("\""@ =~= seq!['"']);
    assert("'"@ =~= seq!['\'']);
    lemma_starts_with_quote(value, '"', "\""@);
    lemma_starts_with_quote(value, '\'', "'"@);
    let body = value.skip(1);
    assert(body =~= v + quote + rest);
    assert(body.subrange(v.len() as int, v.len() as int + 1) =~= quote);
    assert(text::occurs_at(body, quote, v.len() as int));
    text::lemma_first_at(body, quote, 0);
    let i = text::first_at(body, quote, 0)->0;
    if i < v.len() {
        assert(body.subrange(i, i + 1)[0] == body[i]);
        assert(v[i] == q);
    }
    assert(i == v.len());
    assert(body.take(i) =~= v);
    assert(until_quote(body, quote) == v);
}

/// A value without quotes is read up to the first white space, without semicolons at its end.
pub proof fn law_plain_values_are_read(
    line: Seq<char>,
    exported: bool,
    v: Seq<char>,
    rest: Seq<char>,
)
    requires
        v.len() > 0,
        v[0] != '"' && v[0] != '\'',
        forall|i: int| 0 <= i < v.len() ==> !pieces::white(#[trigger] v[i]),
        rest.len() == 0 || pieces::white(rest[0]),
        pieces::trimmed(line) == (if exported {
            "export "@
        } else {
            Seq::<char>::empty()
        }) + "CODEX_HOME="@ + (v + rest),
    ensures
        v.last() != ';' ==> assigned(line) == Some(v),
        assigned(line) == Some(pieces::without_suffixes(v, ";"@)),
{
    reveal_strlit("\"");
    reveal_strlit("'");
    reveal_strlit(";");
    let value = v + rest;
    lemma_past_the_name(pieces::trimmed(line), exported, value);
    assert(value[0] == v[0]);
    assert("\""@ =~= seq!['"']);
    assert("'"@ =~= seq!['\'']);
    lemma_starts_with_quote(value, '"', "\""@);
    lemma_starts_with_quote(value, '\'', "'"@);
    lemma_first_word(v, rest);
    if v.last() != ';' {
        if text::ends(v, ";"@) {
            assert(v.skip(v.len() - 1)[0] == ";"@[0]);
        }
    }
}

proof fn lemma_first_word(v: Seq<char>, rest: Seq<char>)
    requires
        forall|i: int| 0 <= i < v.len() ==> !pieces::white(#[trigger] v[i]),
        rest.len() == 0 || pieces::white(rest[0]),
    ensures
        first_word(v + rest) == v,
    decreases v.len(),
{
    if v.len() == 0 {
        assert(v + rest =~= rest);
        assert(v =~= seq![]);
    } else {
        let tail = v.drop_first();
        assert((v + rest)[0] == v[0]);
        assert((v + rest).drop_first() =~= tail + rest);
        assert forall|i: int| 0 <= i < tail.len() implies !pieces::white(#[trigger] tail[i]) by {
            assert(tail[i] == v[i + 1]);
        }
        lemma_first_word(tail, rest);
        assert(seq![v[0]] + tail =~= v);
    }
}

/// Only lines that set the variable are taken for an assignment, and one that sets it to
/// nothing is none.
pub proof fn law_only_assignments_are_read(line: Seq<char>)
    ensures
        assigned(line) is Some ==> text::begins(pieces::trimmed(line), "CODEX_HOME="@)
            || text::begins(pieces::trimmed(line), "export "@),
        pieces::trimmed(line) == "CODEX_HOME="@ ==> assigned(line) is None,
{
    reveal_strlit("export ");
    reveal_strlit("CODEX_HOME=");
    let l = pieces::trimmed(line);
    pieces::lemma_trimmed_ends(line);
    if !text::begins(l, "export "@) {
        assert(past(l, "export "@) == l);
    }
    if l == "CODEX_HOME="@ {
        assert(l =~= Seq::<char>::empty() + "CODEX_HOME="@ + Seq::<char>::empty());
        lemma_past_the_name(l, false, Seq::<char>::empty());
    }
}

/// The first line that sets the variable counts, among the first 200 of a script and within
/// the first 64 KiB of a program.
pub proof fn law_first_assignment_counts(lines: Seq<Seq<char>>, program: Seq<u8>, script: Seq<char>)
    ensures
        match first_assigned(lines) {
            Some(v) => exists|i: int|
                0 <= i < lines.len() && assigned(#[trigger] lines[i]) == Some(v) && forall|j: int|
                    0 <= j < i ==> assigned(#[trigger] lines[j]) is None,
            None => forall|i: int| 0 <= i < lines.len() ==> assigned(#[trigger] lines[i]) is None,
        },
        scanned(script).is_prefix_of(pieces::lines_of(script)),
        pieces::lines_of(script).len() <= 200 ==> scanned(script) == pieces::lines_of(script),
        pieces::lines_of(script).len() > 200 ==> scanned(script).len() == 200,
        looked_at(program).is_prefix_of(program),
        program.len() <= 65_536 ==> looked_at(program) == program,
        program.len() > 65_536 ==> looked_at(program).len() == 65_536,
    decreases lines.len(),
{
    if lines.len() > 0 && assigned(lines[0]) is None {
        let rest = lines.drop_first();
        law_first_assignment_counts(rest, program, script);
        match first_assigned(lines) {
            Some(v) => {
                let i = choose|i: int|
                    0 <= i < rest.len() && assigned(#[trigger] rest[i]) == Some(v) && forall|j: int|
                        0 <= j < i ==> assigned(#[trigger] rest[j]) is None;
                assert(lines[i + 1] == rest[i]);
                assert forall|j: int| 0 <= j < i + 1 implies assigned(
                    #[trigger] lines[j],
                ) is None by {
                    if j > 0 {
                        assert(rest[j - 1] == lines[j]);
                    }
                }
            },
            None => {
                assert forall|i: int| 0 <= i < lines.len() implies assigned(
                    #[trigger] lines[i],
                ) is None by {
                    if i > 0 {
                        assert(rest[i - 1] == lines[i]);
                    }
                }
            },
        }
    } else if lines.len() > 0 {
        assert(assigned(lines[0]) == first_assigned(lines));
    }
}

proof fn lemma_nothing_replaced(s: Seq<char>, from: Seq<char>, to: Seq<char>)
    requires
        from.len() > 0,
        from[0] == '$',
        !s.contains('$'),
    ensures
        pieces::replaced(s, from, to) == s,
{
    assert(!text::has(s, from)) by {
        if text::has(s, from) {
            let i = choose|i: int| text::occurs_at(s, from, i);
            assert(s.subrange(i, i + from.len())[0] == s[i]);
            assert(s.contains(s[i]));
        }
    }
    text::lemma_first_at(s, from, 0);
    match text::first_at(s, from, 0) {
        Some(i) => {
            assert(text::occurs_at(s, from, i));
        },
        None => {
            assert(pieces::split_of(s, from) =~= seq![s]);
        },
    }
}

proof fn lemma_prefix_replaced(from: Seq<char>, rest: Seq<char>, to: Seq<char>)
    requires
        from.len() > 0,
        from[0] == '$',
        !rest.contains('$'),
    ensures
        pieces::replaced(from + rest, from, to) == to + rest,
{
    let s = from + rest;
    assert(s.subrange(0, from.len() as int) =~= from);
    assert(text::occurs_at(s, from, 0));
    assert(text::first_at(s, from, 0) == Some(0int));
    assert(s.take(0) =~= Seq::<char>::empty());
    assert(s.skip(from.len() as int) =~= rest);
    lemma_nothing_replaced(rest, from, to);
    text::lemma_first_at(rest, from, 0);
    assert(pieces::split_of(rest, from) =~= seq![rest]) by {
        match text::first_at(rest, from, 0) {
            Some(i) => {
                assert(rest.subrange(i, i + from.len())[0] == rest[i]);
                assert(rest.contains(rest[i]));
            },
            None => {},
        }
    }
    let parts = seq![Seq::<char>::empty()] + seq![rest];
    assert(pieces::split_of(s, from) == parts);
    assert(parts.drop_last() =~= seq![Seq::<char>::empty()]);
    assert(parts.last() == rest);
    assert(pieces::joined(parts.drop_last(), to) == Seq::<char>::empty());
    assert(pieces::joined(parts, to) =~= to + rest);
}

/// The home directory is written out in a path: for `~` alone and before a slash, and for the
/// variable, in braces or not. Any other path stays as it is.
pub proof fn law_home_is_written_out(rest: Seq<char>, home: Seq<char>)
    requires
        !rest.contains('$'),
        !home.contains('$'),
        home.len() > 0,
        home[0] == '/',
    ensures
        expanded("~"@, home) == home,
        expanded("~/"@ + rest, home) == paths::path_joined(home, rest),
        expanded("$HOME"@ + rest, home) == home + rest,
        expanded("${HOME}"@ + rest, home) == home + rest,
        rest.len() > 0 && rest[0] != '~' ==> expanded(rest, home) == rest,
{
    reveal_strlit("~");
    reveal_strlit("~/");
    reveal_strlit("$HOME");
    reveal_strlit("${HOME}");
    let bare = "$HOME"@;
    let braced = "${HOME}"@;
    let whole = home + rest;
    assert(!whole.contains('$')) by {
        if whole.contains('$') {
            let i = choose|i: int| 0 <= i < whole.len() && whole[i] == '$';
            if i < home.len() {
                assert(home[i] == '$');
            } else {
                assert(rest[i - home.len()] == '$');
            }
        }
    }
    assert(whole[0] == '/');
    // A tilde, alone and before a slash.
    assert(!"~"@.contains('$'));
    lemma_nothing_replaced("~"@, braced, home);
    lemma_nothing_replaced("~"@, bare, home);
    let below = "~/"@ + rest;
    assert(!below.contains('$')) by {
        if below.contains('$') {
            let i = choose|i: int| 0 <= i < below.len() && below[i] == '$';
            if i >= 2 {
                assert(rest[i - 2] == '$');
            }
        }
    }
    lemma_nothing_replaced(below, braced, home);
    lemma_nothing_replaced(below, bare, home);
    assert(below.len() >= 2 && "~"@.len() == 1);
    assert(below.take(2) =~= "~/"@);
    assert(below.skip(2) =~= rest);
    // The variable.
    lemma_prefix_replaced(braced, rest, home);
    lemma_nothing_replaced(whole, bare, home);
    let named = bare + rest;
    lemma_prefix_replaced(bare, rest, home);
    assert(pieces::replaced(named, braced, home) == named) by {
        assert(!text::has(named, braced)) by {
            if text::has(named, braced) {
                let i = choose|i: int| text::occurs_at(named, braced, i);
                let at = named.subrange(i, i + braced.len());
                assert(at[0] == named[i] && at[1] == named[i + 1]);
                if i >= 5 {
                    assert(rest[i - 5] == '$');
                    assert(rest.contains(rest[i - 5]));
                }
                assert(i == 0);
                assert(named[1] == 'H');
            }
        }
        text::lemma_first_at(named, braced, 0);
        match text::first_at(named, braced, 0) {
            Some(i) => {
                assert(text::occurs_at(named, braced, i));
            },
            None => {
                assert(pieces::split_of(named, braced) =~= seq![named]);
            },
        }
    }
    if text::begins(whole, "~/"@) {
        assert(whole.take(2)[0] == '~');
    }
    // Anything else.
    if rest.len() > 0 && rest[0] != '~' {
        lemma_nothing_replaced(rest, braced, home);
        lemma_nothing_replaced(rest, bare, home);
        if text::begins(rest, "~/"@) {
            assert(rest.take(2)[0] == '~');
        }
    }
}

/// The provider that counts is the one that the configuration selects, and the variable is
/// that of its own table; both are told without white space around them.
pub proof fn law_selected_provider_counts(t: toml_tree::TomlTree)
    ensures
        match active_in(t) {
            Some((name, key)) => {
                &&& t.text_at("model_provider"@) matches Some(raw) && name == pieces::trimmed(raw)
                &&& name.len() > 0 && key.len() > 0
                &&& t.get("model_providers"@) matches Some(providers) && (providers.get(
                    name,
                ) matches Some(p) && (p.text_at("env_key"@) matches Some(k) && key
                    == pieces::trimmed(k)))
            },
            None => true,
        },
        (t.text_at("model_provider"@) matches Some(raw) && pieces::says_something(raw) && (t.get(
            "model_providers"@,
        ) matches Some(providers) && (providers.get(pieces::trimmed(raw)) matches Some(p) && (
        p.text_at("env_key"@) matches Some(k) && pieces::says_something(k))))) ==> active_in(
            t,
        ) is Some,
{
    match t.text_at("model_provider"@) {
        Some(raw) => {
            pieces::law_trimming_takes_only_white_space(raw);
            match t.get("model_providers"@) {
                Some(providers) => match providers.get(pieces::trimmed(raw)) {
                    Some(p) => match p.text_at("env_key"@) {
                        Some(k) => {
                            pieces::law_trimming_takes_only_white_space(k);
                        },
                        None => {},
                    },
                    None => {},
                },
                None => {},
            }
        },
        None => {},
    }
}

/// Every provider's variable is declared, and every declared variable is some provider's.
pub proof fn law_every_providers_key_is_declared(
    providers: Seq<(Seq<char>, toml_tree::TomlTree)>,
)
    ensures
        forall|i: int|
            0 <= i < providers.len() && (#[trigger] providers[i].1).text_at("env_key"@) is Some
                && pieces::says_something(providers[i].1.text_at("env_key"@)->0) ==> keys_among(
                providers,
            ).contains(pieces::trimmed(providers[i].1.text_at("env_key"@)->0)),
        forall|k: int|
            0 <= k < keys_among(providers).len() ==> exists|i: int|
                0 <= i < providers.len() && (#[trigger] providers[i]).1.text_at(
                    "env_key"@,
                ) is Some && pieces::trimmed(providers[i].1.text_at("env_key"@)->0)
                    == #[trigger] keys_among(providers)[k],
{
    assert forall|i: int|
        0 <= i < providers.len() && (#[trigger] providers[i].1).text_at("env_key"@) is Some
            && pieces::says_something(
            providers[i].1.text_at("env_key"@)->0,
        ) implies keys_among(providers).contains(
        pieces::trimmed(providers[i].1.text_at("env_key"@)->0),
    ) by {
        pieces::law_trimming_takes_only_white_space(providers[i].1.text_at("env_key"@)->0);
        lemma_key_is_kept(providers, i);
    }
    lemma_keys_have_providers(providers);
}

proof fn lemma_keys_have_providers(providers: Seq<(Seq<char>, toml_tree::TomlTree)>)
    ensures
        forall|k: int|
            0 <= k < keys_among(providers).len() ==> exists|i: int|
                0 <= i < providers.len() && (#[trigger] providers[i]).1.text_at(
                    "env_key"@,
                ) is Some && pieces::trimmed(providers[i].1.text_at("env_key"@)->0)
                    == #[trigger] keys_among(providers)[k],
    decreases providers.len(),
{
    if providers.len() > 0 {
        let front = providers.drop_last();
        let n = providers.len() - 1;
        lemma_keys_have_providers(front);
        let before = keys_among(front);
        let now = keys_among(providers);
        assert forall|k: int| 0 <= k < now.len() implies exists|i: int|
            0 <= i < providers.len() && (#[trigger] providers[i]).1.text_at("env_key"@) is Some
                && pieces::trimmed(providers[i].1.text_at("env_key"@)->0) == #[trigger] now[k] by {
            if k < before.len() {
                assert(now[k] == before[k]);
                let i = choose|i: int|
                    0 <= i < front.len() && (#[trigger] front[i]).1.text_at("env_key"@) is Some
                        && pieces::trimmed(front[i].1.text_at("env_key"@)->0) == before[k];
                assert(providers[i] == front[i]);
            } else {
                assert(providers[n] == providers.last());
                assert(pieces::trimmed(providers[n].1.text_at("env_key"@)->0) == now[k]);
            }
        }
    }
}

/// Codex's home is what the environment tells, or a hidden directory in the user's home.
pub proof fn law_default_home(told_home: Seq<char>, home: Seq<char>)
    ensures
        default_home(Some(told_home), home) == told_home,
        default_home(None, home) == paths::path_joined(home, ".codex"@),
{
}

/// The home that a program sets is the first value that one of its first 200 lines assigns,
/// written out; where none of them does, there is none.
pub proof fn law_programs_tell_their_home(program: Seq<u8>, home: Seq<char>)
    ensures
        ({
            let lines = pieces::lines_of(utf8::lossy_text(looked_at(program)));
            let seen = if lines.len() <= 200 {
                lines
            } else {
                lines.take(200)
            };
            home_in_program(program, home) == (match first_assigned(seen) {
                Some(v) => Some(expanded(v, home)),
                None => None,
            })
        }),
        program.len() <= 65_536 ==> looked_at(program) == program,
        program.len() > 65_536 ==> looked_at(program) == program.take(65_536),
{
    let lines = pieces::lines_of(utf8::lossy_text(looked_at(program)));
    assert(lines.take(lines.len() as int) =~= lines);
    assert(program.take(program.len() as int) =~= program);
}

} // verus!
