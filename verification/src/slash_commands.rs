//! Slash-command cache.
//!
//! Two tiers: the workspace tier, keyed by provider, working directory and linked
//! directories, and the repo tier, keyed by provider and repository, which serves as
//! a fallback when the workspace tier misses. A provider's generation rises whenever
//! its commands are dropped, so that a refresh begun before cannot fill them in again.
use vstd::prelude::*;
use crate::assoc::{AssocMap, MapKey};
use crate::pieces;
use crate::text;

verus! {

/// One slash command as the composer offers it.
pub struct SlashCommandEntry {
    pub name: String,
    pub description: String,
    pub argument_hint: Option<String>,
    pub source: String,
}

impl Clone for SlashCommandEntry {
    fn clone(&self) -> (r: Self)
        ensures
            r == *self,
    {
        SlashCommandEntry {
            name: self.name.clone(),
            description: self.description.clone(),
            argument_hint: match &self.argument_hint {
                Some(h) => Some(h.clone()),
                None => None,
            },
            source: self.source.clone(),
        }
    }
}

/// Provider, working directory and signature of the linked directories.
pub type WorkspaceKey = (String, String, String);

/// Provider and repository id.
pub type RepoKey = (String, String);

/// What the key of a workspace stands for: the linked directories are joined by the unit
/// separator.
pub open spec fn key_of(
    provider: Seq<char>,
    working_directory: Option<Seq<char>>,
    additional_directories: Seq<Seq<char>>,
) -> WorkspaceKeyView {
    (
        provider,
        directory_of(working_directory),
        pieces::joined(additional_directories, "\u{1f}"@),
    )
}

/// The working directory in a key: without one, the empty path.
pub open spec fn directory_of(working_directory: Option<Seq<char>>) -> Seq<char> {
    match working_directory {
        Some(d) => d,
        None => seq![],
    }
}

/// The key of a workspace.
pub fn workspace_key(
    provider: &str,
    working_directory: Option<&str>,
    additional_directories: &Vec<String>,
) -> (r: WorkspaceKey)
    ensures
        (r.0@, r.1@, r.2@) == key_of(
            provider@,
            text::opt_str(working_directory),
            text::texts(additional_directories@),
        ),
{
    let cwd = match working_directory {
        Some(d) => d.to_string(),
        None => String::new(),
    };
    (provider.to_string(), cwd, pieces::join(additional_directories, "\u{1f}"))
}

/// The key of a repository.
pub fn repo_key(provider: &str, repo_id: &str) -> (r: RepoKey)
    ensures
        r.0@ == provider@,
        r.1@ == repo_id@,
{
    (provider.to_string(), repo_id.to_string())
}

/// What a workspace key stands for.
pub type WorkspaceKeyView = (Seq<char>, Seq<char>, Seq<char>);

/// What a repository key stands for.
pub type RepoKeyView = (Seq<char>, Seq<char>);

/// What the cache holds.
#[verifier::ext_equal]
pub struct CacheView {
    pub workspaces: Map<WorkspaceKeyView, Seq<SlashCommandEntry>>,
    pub repos: Map<RepoKeyView, Seq<SlashCommandEntry>>,
    pub in_flight: Map<WorkspaceKeyView, u64>,
    pub generations: Map<Seq<char>, u64>,
}

impl CacheView {
    /// The cache before anything was stored.
    pub open spec fn empty() -> CacheView {
        CacheView {
            workspaces: Map::empty(),
            repos: Map::empty(),
            in_flight: Map::empty(),
            generations: Map::empty(),
        }
    }

    /// How often the provider's commands were dropped, counted modulo 2^64.
    pub open spec fn generation(self, provider: Seq<char>) -> u64 {
        if self.generations.contains_key(provider) {
            self.generations[provider]
        } else {
            0
        }
    }

    /// The commands written to the workspace tier, and to the repo tier where the
    /// repository is known.
    pub open spec fn stored(
        self,
        key: WorkspaceKeyView,
        repo_id: Option<Seq<char>>,
        commands: Seq<SlashCommandEntry>,
    ) -> CacheView {
        CacheView {
            workspaces: self.workspaces.insert(key, commands),
            repos: match repo_id {
                Some(id) => if id.len() > 0 {
                    self.repos.insert((key.0, id), commands)
                } else {
                    self.repos
                },
                None => self.repos,
            },
            ..self
        }
    }

    /// A refresh of the workspace has begun.
    pub open spec fn started(self, key: WorkspaceKeyView) -> CacheView {
        CacheView { in_flight: self.in_flight.insert(key, self.generation(key.0)), ..self }
    }

    /// No refresh of the workspace is under way.
    pub open spec fn finished(self, key: WorkspaceKeyView) -> CacheView {
        CacheView { in_flight: self.in_flight.remove(key), ..self }
    }

    /// Everything of the provider is dropped and its generation rises.
    pub open spec fn cleared(self, provider: Seq<char>) -> CacheView {
        CacheView {
            workspaces: self.workspaces.filter_keys(|k: WorkspaceKeyView| k.0 != provider),
            repos: self.repos.filter_keys(|k: RepoKeyView| k.0 != provider),
            in_flight: self.in_flight.filter_keys(|k: WorkspaceKeyView| k.0 != provider),
            generations: self.generations.insert(
                provider,
                ((self.generation(provider) + 1) % 0x1_0000_0000_0000_0000) as u64,
            ),
        }
    }

    /// The provider's commands are dropped `n` times.
    pub open spec fn cleared_times(self, provider: Seq<char>, n: nat) -> CacheView
        decreases n,
    {
        if n == 0 {
            self
        } else {
            self.cleared_times(provider, (n - 1) as nat).cleared(provider)
        }
    }
}

/// The two-tier cache.
pub struct SlashCommandCache {
    pub workspaces: AssocMap<WorkspaceKey, Vec<SlashCommandEntry>>,
    pub repos: AssocMap<RepoKey, Vec<SlashCommandEntry>>,
    /// Keeps a second refresh of the same workspace from starting.
    pub in_flight: AssocMap<WorkspaceKey, u64>,
    /// Rises when a provider's command context changes.
    pub generations: AssocMap<String, u64>,
}

/// The commands of each key.
pub open spec fn commands_of<K>(m: Map<K, Vec<SlashCommandEntry>>) -> Map<
    K,
    Seq<SlashCommandEntry>,
> {
    m.map_values(|v: Vec<SlashCommandEntry>| v@)
}

impl View for SlashCommandCache {
    type V = CacheView;

    open spec fn view(&self) -> CacheView {
        CacheView {
            workspaces: commands_of(self.workspaces@),
            repos: commands_of(self.repos@),
            in_flight: self.in_flight@,
            generations: self.generations@,
        }
    }
}

/// A copy of a list of commands.
fn copy_commands(v: &Vec<SlashCommandEntry>) -> (r: Vec<SlashCommandEntry>)
    ensures
        r@ == v@,
{
    let mut out: Vec<SlashCommandEntry> = Vec::new();
    let mut i: usize = 0;
    while i < v.len()
        invariant
            i <= v@.len(),
            out@ == v@.take(i as int),
        decreases v@.len() - i,
    {
        out.push(v[i].clone());
        i += 1;
        assert(out@ =~= v@.take(i as int));
    }
    assert(out@ =~= v@);
    out
}

impl SlashCommandCache {
    /// No key occurs twice in any of the maps.
    pub open spec fn wf(&self) -> bool {
        self.workspaces.wf() && self.repos.wf() && self.in_flight.wf() && self.generations.wf()
    }

    /// An empty cache.
    pub fn new() -> (r: Self)
        ensures
            r.wf(),
            r@ == CacheView::empty(),
    {
        let r = SlashCommandCache {
            workspaces: AssocMap::new(),
            repos: AssocMap::new(),
            in_flight: AssocMap::new(),
            generations: AssocMap::new(),
        };
        assert(r@ =~= CacheView::empty());
        r
    }

    /// The provider's generation.
    pub fn provider_generation(&self, provider: &str) -> (r: u64)
        requires
            self.wf(),
        ensures
            r == self@.generation(provider@),
    {
        match self.generations.get(&provider.to_string()) {
            Some(g) => *g,
            None => 0,
        }
    }

    /// Exact workspace-level lookup.
    pub fn get_workspace(&self, key: &WorkspaceKey) -> (r: Option<Vec<SlashCommandEntry>>)
        requires
            self.wf(),
        ensures
            match r {
                Some(v) => self@.workspaces.contains_key(key@) && self@.workspaces[key@] == v@,
                None => !self@.workspaces.contains_key(key@),
            },
    {
        match self.workspaces.get(key) {
            Some(v) => Some(copy_commands(v)),
            None => None,
        }
    }

    /// Repo-level fallback lookup, used only when the workspace tier misses.
    pub fn get_repo(&self, key: &RepoKey) -> (r: Option<Vec<SlashCommandEntry>>)
        requires
            self.wf(),
        ensures
            match r {
                Some(v) => self@.repos.contains_key(key@) && self@.repos[key@] == v@,
                None => !self@.repos.contains_key(key@),
            },
    {
        match self.repos.get(key) {
            Some(v) => Some(copy_commands(v)),
            None => None,
        }
    }

    /// Writes a result into the workspace tier and mirrors it to the repo tier, where
    /// the latest wins.
    pub fn set(
        &mut self,
        workspace_key: WorkspaceKey,
        repo_id: Option<&str>,
        commands: Vec<SlashCommandEntry>,
    )
        requires
            old(self).wf(),
        ensures
            final(self).wf(),
            final(self)@ == old(self)@.stored(workspace_key@, text::opt_str(repo_id), commands@),
    {
        let generation: u64 = self.provider_generation(workspace_key.0.as_str());
        let _ = self.set_if_generation(workspace_key, repo_id, commands, generation);
    }

    /// Writes a result unless the provider's generation has moved on since.
    pub fn set_if_generation(
        &mut self,
        workspace_key: WorkspaceKey,
        repo_id: Option<&str>,
        commands: Vec<SlashCommandEntry>,
        generation: u64,
    ) -> (r: bool)
        requires
            old(self).wf(),
        ensures
            final(self).wf(),
            r == (old(self)@.generation(workspace_key.0@) == generation),
            final(self)@ == if r {
                old(self)@.stored(workspace_key@, text::opt_str(repo_id), commands@)
            } else {
                old(self)@
            },
    {
        let ghost before = self@;
        if self.provider_generation(workspace_key.0.as_str()) != generation {
            return false;
        }
        let ghost key = workspace_key@;
        self.workspaces.insert(workspace_key.copy_key(), copy_commands(&commands));
        assert(commands_of(self.workspaces@) =~= before.workspaces.insert(key, commands@));
        match repo_id {
            Some(id) => {
                if !id.is_empty() {
                    let rkey = repo_key(workspace_key.0.as_str(), id);
                    self.repos.insert(rkey, commands);
                    assert(commands_of(self.repos@) =~= before.repos.insert(
                        (key.0, id@),
                        commands@,
                    ));
                }
            },
            None => {},
        }
        assert(self@ =~= before.stored(key, text::opt_str(repo_id), commands@));
        true
    }

    /// Tries to claim the refresh of a workspace. True if this caller won.
    pub fn try_start_refresh(&mut self, key: &WorkspaceKey) -> (r: bool)
        requires
            old(self).wf(),
        ensures
            final(self).wf(),
            r == !old(self)@.in_flight.contains_key(key@),
            final(self)@ == if r {
                old(self)@.started(key@)
            } else {
                old(self)@
            },
    {
        self.try_start_refresh_with_generation(key).is_some()
    }

    /// Tries to claim the refresh of a workspace. The winner learns the generation that
    /// its result will belong to.
    pub fn try_start_refresh_with_generation(&mut self, key: &WorkspaceKey) -> (r: Option<u64>)
        requires
            old(self).wf(),
        ensures
            final(self).wf(),
            r is None <==> old(self)@.in_flight.contains_key(key@),
            match r {
                Some(g) => g == old(self)@.generation(key@.0) && final(self)@
                    == old(self)@.started(key@),
                None => final(self)@ == old(self)@,
            },
    {
        if self.in_flight.contains_key(key) {
            return None;
        }
        let generation: u64 = self.provider_generation(key.0.as_str());
        self.in_flight.insert(key.copy_key(), generation);
        Some(generation)
    }

    /// Gives up the claim on a workspace.
    pub fn finish_refresh(&mut self, key: &WorkspaceKey)
        requires
            old(self).wf(),
        ensures
            final(self).wf(),
            final(self)@ == old(self)@.finished(key@),
    {
        self.in_flight.remove(key);
    }

    /// Gives up the claim on a workspace if it was made in that generation.
    pub fn finish_refresh_generation(&mut self, key: &WorkspaceKey, generation: u64)
        requires
            old(self).wf(),
        ensures
            final(self).wf(),
            final(self)@ == if old(self)@.in_flight.contains_key(key@)
                && old(self)@.in_flight[key@] == generation {
                old(self)@.finished(key@)
            } else {
                old(self)@
            },
    {
        let mine = match self.in_flight.get(key) {
            Some(g) => *g == generation,
            None => false,
        };
        if mine {
            self.in_flight.remove(key);
        }
    }

    /// Drops everything of one provider.
    pub fn clear_provider(&mut self, provider: &str)
        requires
            old(self).wf(),
        ensures
            final(self).wf(),
            final(self)@ == old(self)@.cleared(provider@),
    {
        let ghost before = self@;
        let generation: u64 = self.provider_generation(provider);
        let next: u64 = generation.wrapping_add(1);
        self.generations.insert(provider.to_string(), next);
        let other_workspace = |k: &WorkspaceKey| -> (b: bool)
            ensures
                b == (k@.0 != provider@),
        { !text::same(k.0.as_str(), provider) };
        let other_repo = |k: &RepoKey| -> (b: bool)
            ensures
                b == (k@.0 != provider@),
        { !text::same(k.0.as_str(), provider) };
        self.in_flight.retain(other_workspace, Ghost(|k: WorkspaceKeyView| k.0 != provider@));
        self.workspaces.retain(other_workspace, Ghost(|k: WorkspaceKeyView| k.0 != provider@));
        self.repos.retain(other_repo, Ghost(|k: RepoKeyView| k.0 != provider@));
        proof {
            let after = before.cleared(provider@);
            assert(self@.workspaces =~= after.workspaces);
            assert(self@.repos =~= after.repos);
            assert(self@.in_flight =~= after.in_flight);
            assert(self@.generations =~= after.generations);
        }
    }
}

impl Default for SlashCommandCache {
    fn default() -> (r: Self)
        ensures
            r.wf(),
            r@ == CacheView::empty(),
    {
        Self::new()
    }
}

// ---------------------------------------------------------------------------
// Laws
// ---------------------------------------------------------------------------

/// After a provider was cleared, once or more and less than 2^64 times, a write that
/// carries the generation from before is refused.
pub proof fn law_stale_write_is_refused(c: CacheView, provider: Seq<char>, n: nat)
    requires
        0 < n < 0x1_0000_0000_0000_0000,
    ensures
        c.cleared_times(provider, n).generation(provider) != c.generation(provider),
{
    lemma_generation_after(c, provider, n);
}

proof fn lemma_generation_after(c: CacheView, provider: Seq<char>, n: nat)
    requires
        n < 0x1_0000_0000_0000_0000,
    ensures
        c.cleared_times(provider, n).generation(provider) == (c.generation(provider) + n)
            % 0x1_0000_0000_0000_0000,
    decreases n,
{
    if n > 0 {
        lemma_generation_after(c, provider, (n - 1) as nat);
    }
}

/// A claim made after the provider was cleared is not given up by a finish that carries
/// the generation from before.
pub proof fn law_stale_finish_keeps_the_new_claim(c: CacheView, key: WorkspaceKeyView, n: nat)
    requires
        0 < n < 0x1_0000_0000_0000_0000,
    ensures
        ({
            let d = c.cleared_times(key.0, n).started(key);
            d.in_flight.contains_key(key) && d.in_flight[key] != c.generation(key.0)
        }),
{
    law_stale_write_is_refused(c, key.0, n);
}

/// Nothing but clearing a provider moves a generation, and clearing one provider moves
/// no other's.
pub proof fn law_only_clearing_moves_a_generation(
    c: CacheView,
    key: WorkspaceKeyView,
    repo_id: Option<Seq<char>>,
    commands: Seq<SlashCommandEntry>,
    provider: Seq<char>,
    other: Seq<char>,
)
    requires
        provider != other,
    ensures
        c.stored(key, repo_id, commands).generation(provider) == c.generation(provider),
        c.started(key).generation(provider) == c.generation(provider),
        c.finished(key).generation(provider) == c.generation(provider),
        c.cleared(other).generation(provider) == c.generation(provider),
{
}

/// What was stored is what both tiers give back, and nothing else has changed.
pub proof fn law_stored_is_read_back(
    c: CacheView,
    key: WorkspaceKeyView,
    repo_id: Seq<char>,
    commands: Seq<SlashCommandEntry>,
)
    requires
        repo_id.len() > 0,
    ensures
        ({
            let d = c.stored(key, Some(repo_id), commands);
            &&& d.workspaces.contains_key(key) && d.workspaces[key] == commands
            &&& d.repos.contains_key((key.0, repo_id)) && d.repos[(key.0, repo_id)] == commands
            &&& forall|k: WorkspaceKeyView|
                k != key ==> (d.workspaces.contains_key(k) <==> c.workspaces.contains_key(k)) && (
                c.workspaces.contains_key(k) ==> d.workspaces[k] == c.workspaces[k])
            &&& forall|k: RepoKeyView|
                k != (key.0, repo_id) ==> (d.repos.contains_key(k) <==> c.repos.contains_key(k))
                    && (c.repos.contains_key(k) ==> d.repos[k] == c.repos[k])
        }),
{
}

/// A workspace's refresh can be claimed once until it is finished or its provider is
/// cleared, and claims on different workspaces do not stand in each other's way.
pub proof fn law_refresh_is_exclusive(c: CacheView, key: WorkspaceKeyView, other: WorkspaceKeyView)
    requires
        key != other,
    ensures
        c.started(key).in_flight.contains_key(key),
        !c.started(key).finished(key).in_flight.contains_key(key),
        !c.started(key).cleared(key.0).in_flight.contains_key(key),
        c.started(key).in_flight.contains_key(other) <==> c.in_flight.contains_key(other),
{
}

/// Clearing a provider leaves nothing of it and touches nothing of the others.
pub proof fn law_clearing_is_by_provider(c: CacheView, provider: Seq<char>)
    ensures
        forall|k: WorkspaceKeyView|
            k.0 == provider ==> !c.cleared(provider).workspaces.contains_key(k) && !c.cleared(
                provider,
            ).in_flight.contains_key(k),
        forall|k: RepoKeyView| k.0 == provider ==> !c.cleared(provider).repos.contains_key(k),
        forall|k: WorkspaceKeyView|
            k.0 != provider ==> (c.cleared(provider).workspaces.contains_key(k)
                <==> c.workspaces.contains_key(k)) && (c.workspaces.contains_key(k) ==> c.cleared(
                provider,
            ).workspaces[k] == c.workspaces[k]),
        forall|k: RepoKeyView|
            k.0 != provider ==> (c.cleared(provider).repos.contains_key(k)
                <==> c.repos.contains_key(k)) && (c.repos.contains_key(k) ==> c.cleared(
                provider,
            ).repos[k] == c.repos[k]),
        forall|k: WorkspaceKeyView|
            k.0 != provider ==> (c.cleared(provider).in_flight.contains_key(k)
                <==> c.in_flight.contains_key(k)) && (c.in_flight.contains_key(k) ==> c.cleared(
                provider,
            ).in_flight[k] == c.in_flight[k]),
{
}

/// The linked directories that a key can tell: the empty path alone counts as none.
pub open spec fn linked_of(dirs: Seq<Seq<char>>) -> Seq<Seq<char>> {
    if dirs == seq![Seq::<char>::empty()] {
        seq![]
    } else {
        dirs
    }
}

/// No directory holds the unit separator.
pub open spec fn separable(dirs: Seq<Seq<char>>) -> bool {
    forall|i: int| 0 <= i < dirs.len() ==> !text::has(#[trigger] dirs[i], "\u{1f}"@)
}

/// Directories that a separator joins are told apart again.
proof fn lemma_joined_apart(dirs: Seq<Seq<char>>)
    requires
        separable(dirs),
        dirs.len() > 0,
    ensures
        pieces::split_of(pieces::joined(dirs, "\u{1f}"@), "\u{1f}"@) == dirs,
    decreases dirs.len(),
{
    reveal_strlit("\u{1f}");
    let sep = "\u{1f}"@;
    let first = dirs[0];
    let rest = dirs.drop_first();
    assert(dirs =~= seq![first] + rest);
    pieces::lemma_joined_cons(first, rest, sep);
    if rest.len() == 0 {
        pieces::lemma_split_single(first, sep);
    } else {
        assert forall|i: int| 0 <= i < rest.len() implies !text::has(#[trigger] rest[i], sep) by {
            assert(rest[i] == dirs[i + 1]);
        }
        lemma_joined_apart(rest);
        let tail = pieces::joined(rest, sep);
        let all = first + sep + tail;
        assert forall|i: int| 0 <= i < first.len() implies !text::occurs_at(all, sep, i) by {
            assert(all.subrange(i, i + 1) =~= first.subrange(i, i + 1));
            assert(!text::occurs_at(first, sep, i));
        }
        pieces::lemma_split_cons(first, sep, tail);
    }
}

/// The directories join to nothing exactly where a key can tell none of them.
proof fn lemma_empty_key(dirs: Seq<Seq<char>>)
    ensures
        pieces::joined(dirs, "\u{1f}"@).len() == 0 <==> linked_of(dirs).len() == 0,
{
    reveal_strlit("\u{1f}");
    if dirs.len() == 1 && dirs[0].len() == 0 {
        assert(dirs[0] =~= Seq::<char>::empty());
        assert(dirs =~= seq![Seq::<char>::empty()]);
    }
}

/// The key of a workspace tells provider, working directory and linked directories apart:
/// two keys are the same exactly where all three are, for linked directories without the
/// unit separator.
pub proof fn law_workspace_keys_tell_apart(
    provider: Seq<char>,
    directory: Option<Seq<char>>,
    linked: Seq<Seq<char>>,
    other_provider: Seq<char>,
    other_directory: Option<Seq<char>>,
    other_linked: Seq<Seq<char>>,
)
    requires
        separable(linked),
        separable(other_linked),
    ensures
        key_of(provider, directory, linked) == key_of(
            other_provider,
            other_directory,
            other_linked,
        ) <==> {
            &&& provider == other_provider
            &&& directory_of(directory) == directory_of(other_directory)
            &&& linked_of(linked) == linked_of(other_linked)
        },
{
    let sep = "\u{1f}"@;
    let none = seq![Seq::<char>::empty()];
    assert(pieces::joined(none, sep) == Seq::<char>::empty());
    assert(pieces::joined(seq![], sep) == Seq::<char>::empty());
    if linked.len() == 0 {
        assert(linked =~= seq![]);
    }
    if other_linked.len() == 0 {
        assert(other_linked =~= seq![]);
    }
    lemma_empty_key(linked);
    lemma_empty_key(other_linked);
    if pieces::joined(linked, sep) == pieces::joined(other_linked, sep) && linked.len() > 0
        && other_linked.len() > 0 {
        lemma_joined_apart(linked);
        lemma_joined_apart(other_linked);
    }
}

/// A provider's generation begins with zero and rises by one when its commands are dropped,
/// and a refresh notes the generation that it began in.
pub proof fn law_generations_are_counted(c: CacheView, key: WorkspaceKeyView)
    ensures
        CacheView::empty().generation(key.0) == 0,
        c.generation(key.0) < 0xffff_ffff_ffff_ffff ==> c.cleared(key.0).generation(key.0)
            == c.generation(key.0) + 1,
        c.generation(key.0) == 0xffff_ffff_ffff_ffff ==> c.cleared(key.0).generation(key.0) == 0,
        c.started(key).in_flight.contains_key(key) && c.started(key).in_flight[key] == c.generation(
            key.0,
        ),
        c.started(key).workspaces == c.workspaces && c.started(key).repos == c.repos,
        c.finished(key).workspaces == c.workspaces && c.finished(key).repos == c.repos,
        forall|other: WorkspaceKeyView|
            other != key ==> (c.finished(key).in_flight.contains_key(other)
                <==> c.in_flight.contains_key(other)),
{
}

/// Without a repository, or with an empty id for it, commands are kept for the workspace
/// alone.
pub proof fn law_unknown_repositories_keep_no_commands(
    c: CacheView,
    key: WorkspaceKeyView,
    commands: Seq<SlashCommandEntry>,
)
    ensures
        c.stored(key, None, commands).repos == c.repos,
        c.stored(key, Some(seq![]), commands).repos == c.repos,
        c.stored(key, None, commands).workspaces == c.workspaces.insert(key, commands),
        c.stored(key, Some(seq![]), commands).workspaces == c.workspaces.insert(key, commands),
        c.stored(key, None, commands).in_flight == c.in_flight,
{
}

} // verus!
