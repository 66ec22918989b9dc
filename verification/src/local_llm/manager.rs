//! The server that runs a local model: whether it runs, where it is reached, and what
//! starting and stopping it comes to.
use vstd::prelude::*;
use crate::local_llm::health;
use crate::local_llm::health::ErrorUpdate;
use crate::numbers;
use crate::paths;
use crate::text;

verus! {

/// A server that was started. Its process is the host's.
pub struct ServerInstance {
    pub port: u16,
    pub token: String,
    pub model_path: String,
}

/// Port, token and model of a server.
#[verifier::ext_equal]
pub struct InstanceView {
    pub port: u16,
    pub token: Seq<char>,
    pub model_path: Seq<char>,
}

impl View for ServerInstance {
    type V = InstanceView;

    open spec fn view(&self) -> InstanceView {
        InstanceView { port: self.port, token: self.token@, model_path: self.model_path@ }
    }
}

/// What an optional server is.
pub open spec fn opt_instance(s: Option<ServerInstance>) -> Option<InstanceView> {
    match s {
        Some(s) => Some(s@),
        None => None,
    }
}

/// Where a server is reached.
pub struct Endpoint {
    pub url: String,
    pub token: String,
    pub api_model: String,
}

/// What a server is started with, whatever its model.
pub struct ServerFlags {
    pub api_model: String,
    pub gpu_layers: String,
    pub reasoning_mode: String,
}

/// What the host knows of its settings and files.
pub struct HostFacts {
    pub enabled: bool,
    /// The path of the selected model, or nothing.
    pub model: String,
    /// Where the server's program was found.
    pub runtime_path: Option<String>,
    /// The context window that the model is run with.
    pub context_size: u32,
}

/// The server and its settings as they are shown.
pub struct Status {
    pub enabled: bool,
    pub runtime_found: bool,
    pub runtime_path: Option<String>,
    pub starting: bool,
    pub running: bool,
    pub model: String,
    pub api_model: String,
    pub context_size: u32,
    pub gpu_layers: u32,
    pub reasoning_mode: String,
    pub endpoint: Option<String>,
    pub last_error: Option<String>,
}

/// Layers that are shown where their number cannot be read.
pub const DEFAULT_GPU_LAYERS: u32 = 99;

/// The number of layers that a text writes, where it is one.
pub open spec fn layers_of(s: Seq<char>) -> u32 {
    match numbers::integer_of(s) {
        Some(n) => if s[0] != '-' && n <= u32::MAX {
            n as u32
        } else {
            DEFAULT_GPU_LAYERS
        },
        None => DEFAULT_GPU_LAYERS,
    }
}

fn parse_layers(s: &str) -> (r: u32)
    ensures
        r == layers_of(s@),
{
    if text::starts_with(s, "-") {
        proof {
            reveal_strlit("-");
            assert(s@.take(1)[0] == "-"@[0]);
        }
        return DEFAULT_GPU_LAYERS;
    }
    proof {
        reveal_strlit("-");
        if s@.len() > 0 && s@[0] == '-' {
            assert(s@.take(1) =~= "-"@);
        }
    }
    match numbers::parse_i64(s) {
        Some(n) => if 0 <= n && n <= u32::MAX as i64 {
            n as u32
        } else {
            DEFAULT_GPU_LAYERS
        },
        None => DEFAULT_GPU_LAYERS,
    }
}

/// The address of a server on this machine.
pub open spec fn local_url(port: u16) -> Seq<char> {
    "http://127.0.0.1:"@ + numbers::decimal(port as nat)
}

fn url_for(port: u16) -> (r: String)
    ensures
        r@ == local_url(port),
{
    let mut out = "http://127.0.0.1:".to_string();
    numbers::push_decimal(&mut out, port as u64);
    out
}

/// Keeps track of one server.
pub struct Manager {
    pub server: Option<ServerInstance>,
    pub starting: bool,
    pub last_error: Option<String>,
}

/// What a manager knows.
#[verifier::ext_equal]
pub struct ManagerView {
    pub server: Option<InstanceView>,
    pub starting: bool,
    pub last_error: Option<Seq<char>>,
}

impl View for Manager {
    type V = ManagerView;

    open spec fn view(&self) -> ManagerView {
        ManagerView {
            server: opt_instance(self.server),
            starting: self.starting,
            last_error: text::opt_text(self.last_error),
        }
    }
}

/// What is to be done to start a server.
#[derive(Clone, Copy, Debug, PartialEq, Eq, Structural)]
pub enum StartStep {
    /// The model is running.
    Running,
    /// The host stops the process of the server that was there, if any, and starts a new
    /// one.
    Spawn,
}

impl ManagerView {
    /// What is left when the host has looked after the server's process: one that died is
    /// forgotten.
    pub open spec fn reaped(self, alive: bool) -> ManagerView {
        if alive {
            self
        } else {
            ManagerView { server: None, ..self }
        }
    }

    /// How starting a model goes on.
    pub open spec fn begun(self, model: Seq<char>, alive: bool) -> (ManagerView, StartStep) {
        if alive && (self.server matches Some(s) && s.model_path == model) {
            (self, StartStep::Running)
        } else {
            (ManagerView { server: None, starting: true, ..self }, StartStep::Spawn)
        }
    }

    /// What comes of a start.
    pub open spec fn ended(self, r: Result<InstanceView, Seq<char>>) -> ManagerView {
        match r {
            Ok(s) => ManagerView { server: Some(s), starting: false, last_error: None },
            Err(e) => ManagerView { starting: false, last_error: Some(e), ..self },
        }
    }

    /// Nothing runs, and nothing is wrong.
    pub open spec fn stopped(self) -> ManagerView {
        ManagerView { server: None, last_error: None, ..self }
    }
}

impl Default for Manager {
    fn default() -> (r: Self)
        ensures
            r@ == (ManagerView { server: None, starting: false, last_error: None }),
    {
        Manager { server: None, starting: false, last_error: None }
    }
}

/// What came of starting a process.
pub open spec fn spawned_view(r: Result<ServerInstance, String>) -> Result<InstanceView, Seq<char>> {
    match r {
        Ok(s) => Ok(s@),
        Err(e) => Err(e@),
    }
}

impl Manager {
    fn reap(&mut self, alive: bool)
        ensures
            final(self)@ == old(self)@.reaped(alive),
            alive ==> *final(self) == *old(self),
    {
        if !alive {
            self.server = None;
        }
    }

    /// The server and its settings as they are shown. `alive` tells whether the server's
    /// process lives; a dead one is forgotten.
    pub fn status(&mut self, alive: bool, facts: &HostFacts, flags: &ServerFlags) -> (r: Status)
        ensures
            final(self)@ == old(self)@.reaped(alive),
            r.enabled == facts.enabled,
            r.runtime_found == facts.runtime_path is Some,
            r.runtime_path == facts.runtime_path,
            r.starting == old(self)@.starting,
            r.running == (old(self)@.server is Some && alive),
            r.model@ == facts.model@,
            r.api_model@ == flags.api_model@,
            r.context_size == facts.context_size,
            r.gpu_layers == layers_of(flags.gpu_layers@),
            r.reasoning_mode@ == flags.reasoning_mode@,
            text::opt_text(r.endpoint) == (match old(self)@.reaped(alive).server {
                Some(s) => Some(local_url(s.port)),
                None => None,
            }),
            text::opt_text(r.last_error) == old(self)@.last_error,
    {
        self.reap(alive);
        let endpoint = match &self.server {
            Some(s) => Some(url_for(s.port)),
            None => None,
        };
        Status {
            enabled: facts.enabled,
            runtime_found: facts.runtime_path.is_some(),
            runtime_path: text::copy_opt(&facts.runtime_path),
            starting: self.starting,
            running: self.server.is_some(),
            model: facts.model.clone(),
            api_model: flags.api_model.clone(),
            context_size: facts.context_size,
            gpu_layers: parse_layers(flags.gpu_layers.as_str()),
            reasoning_mode: flags.reasoning_mode.clone(),
            endpoint,
            last_error: text::copy_opt(&self.last_error),
        }
    }

    /// Begins to start a model, unless it is running. `alive` tells whether the process of
    /// the server that is there lives.
    pub fn start(&mut self, model: &str, alive: bool) -> (r: StartStep)
        ensures
            (final(self)@, r) == old(self)@.begun(model@, alive),
    {
        let same = match &self.server {
            Some(s) => text::same(s.model_path.as_str(), model),
            None => false,
        };
        if same && alive {
            return StartStep::Running;
        }
        self.server = None;
        self.starting = true;
        StartStep::Spawn
    }

    /// Takes in what came of starting the process.
    pub fn started(&mut self, spawned: Result<ServerInstance, String>) -> (r: Result<(), String>)
        ensures
            final(self)@ == old(self)@.ended(spawned_view(spawned)),
            match (r, spawned) {
                (Ok(_), Ok(_)) => true,
                (Err(e), Err(s)) => e@ == s@,
                _ => false,
            },
    {
        self.starting = false;
        match spawned {
            Ok(s) => {
                self.server = Some(s);
                self.last_error = None;
                Ok(())
            },
            Err(e) => {
                self.last_error = Some(e.clone());
                Err(e)
            },
        }
    }

    /// Forgets the server, whose process the host stops, and what was wrong with it.
    pub fn stop(&mut self)
        ensures
            final(self)@ == old(self)@.stopped(),
    {
        self.server = None;
        self.last_error = None;
    }

    /// Where the server is reached, while it runs. A dead one is forgotten.
    pub fn endpoint(&mut self, alive: bool, api_model: &str) -> (r: Option<Endpoint>)
        ensures
            final(self)@ == old(self)@.reaped(alive),
            match (r, old(self)@.reaped(alive).server) {
                (Some(e), Some(s)) => e.url@ == local_url(s.port) && e.token@ == s.token
                    && e.api_model@ == api_model@,
                (None, None) => true,
                _ => false,
            },
    {
        self.reap(alive);
        match &self.server {
            Some(s) => Some(
                Endpoint {
                    url: url_for(s.port),
                    token: s.token.clone(),
                    api_model: api_model.to_string(),
                },
            ),
            None => None,
        }
    }

    /// Address and token of the server, while it runs. A dead one is forgotten.
    pub fn current_endpoint_and_token(&mut self, alive: bool) -> (r: Option<(String, String)>)
        ensures
            final(self)@ == old(self)@.reaped(alive),
            match (r, old(self)@.reaped(alive).server) {
                (Some((url, token)), Some(s)) => url@ == local_url(s.port) && token@ == s.token,
                (None, None) => true,
                _ => false,
            },
    {
        self.reap(alive);
        match &self.server {
            Some(s) => Some((url_for(s.port), s.token.clone())),
            None => None,
        }
    }

    /// The context window, in tokens, that the selected model is run with; none where no
    /// model is selected.
    pub fn current_context_tokens(&self, facts: &HostFacts) -> (r: u32)
        ensures
            r == (if facts.model@.len() == 0 {
                0
            } else {
                facts.context_size
            }),
    {
        if facts.model.as_str().is_empty() {
            0
        } else {
            facts.context_size
        }
    }

    /// Notes what a warmup or a health check found.
    pub fn note(&mut self, update: ErrorUpdate)
        ensures
            final(self)@ == (ManagerView {
                last_error: health::updated(old(self)@.last_error, update),
                ..old(self)@
            }),
    {
        match update {
            ErrorUpdate::Keep => {},
            ErrorUpdate::Clear => {
                self.last_error = None;
            },
            ErrorUpdate::Put(e) => {
                self.last_error = Some(e);
            },
        }
    }
}

/// The directory of the local model's files below the data directory.
pub open spec fn server_dir_of(data_dir: Seq<char>) -> Seq<char> {
    paths::path_joined(data_dir, "local-llm"@)
}

/// Where the process of a server is noted, by which one that an earlier run left behind is
/// found.
pub fn sweep_orphan_server(data_dir: &str) -> (r: String)
    ensures
        r@ == paths::path_joined(server_dir_of(data_dir@), "server.pid"@),
{
    paths::path_join(paths::path_join(data_dir, "local-llm").as_str(), "server.pid")
}

// ---------------------------------------------------------------------------
// Laws
// ---------------------------------------------------------------------------

/// A server whose process died is not reached any more, by whichever reader it is looked
/// at, and stays forgotten though it were said to live.
pub proof fn law_dead_servers_are_forgotten(m: ManagerView, alive: bool)
    ensures
        m.reaped(false).server is None,
        m.reaped(false).reaped(alive).server is None,
        m.reaped(false).last_error == m.last_error,
        m.reaped(true) == m,
{
}

/// Starting the model that runs changes nothing; starting another one, or one whose
/// process died, first gives up the old one.
pub proof fn law_one_server_at_a_time(m: ManagerView, model: Seq<char>, s: InstanceView)
    requires
        s.model_path == model,
    ensures
        m.ended(Ok(s)).begun(model, true) == (m.ended(Ok(s)), StartStep::Running),
        m.begun(model, false).1 == StartStep::Spawn,
        m.begun(model, false).0.server is None,
        forall|other: Seq<char>|
            other != model ==> {
                let (after, step) = #[trigger] m.ended(Ok(s)).begun(other, true);
                step == StartStep::Spawn && after.server is None && after.starting
            },
{
}

/// A start that succeeds, and a stop, leave no error behind; a start that fails leaves no
/// server.
pub proof fn law_errors_are_current(m: ManagerView, model: Seq<char>, e: Seq<char>, s: InstanceView)
    ensures
        m.begun(model, false).0.ended(Ok(s)).last_error is None,
        m.begun(model, false).0.ended(Err(e)).last_error == Some(e),
        m.begun(model, false).0.ended(Err(e)).server is None,
        !m.begun(model, false).0.ended(Err(e)).starting,
        m.stopped().last_error is None,
        m.stopped().server is None,
{
}

/// A start, its end and a stop change what they are about and nothing else: a model begins to
/// start unless it runs, a server that came up is the one that is kept, and a start that
/// failed or a stop leaves the rest as it is.
pub proof fn law_starts_and_stops_keep_the_rest(
    m: ManagerView,
    model: Seq<char>,
    alive: bool,
    s: InstanceView,
    e: Seq<char>,
)
    ensures
        ({
            let (after, step) = m.begun(model, alive);
            let runs = alive && (m.server matches Some(x) && x.model_path == model);
            &&& step == StartStep::Running <==> runs
            &&& runs ==> after == m
            &&& !runs ==> after.server is None && after.starting && after.last_error
                == m.last_error
        }),
        m.ended(Ok(s)).server == Some(s) && !m.ended(Ok(s)).starting,
        m.ended(Ok(s)).last_error is None,
        m.ended(Err(e)).server == m.server && !m.ended(Err(e)).starting,
        m.ended(Err(e)).last_error == Some(e),
        m.stopped().starting == m.starting,
{
}

/// A server is reached on this machine alone, at its port.
pub proof fn law_servers_are_local(port: u16)
    ensures
        local_url(port) == "http://127.0.0.1:"@ + numbers::decimal(port as nat),
        text::begins(local_url(port), "http://127.0.0.1:"@),
{
    let head = "http://127.0.0.1:"@;
    assert(local_url(port).take(head.len() as int) =~= head);
}

/// The number of layers is what is written, or 99 where no such number is written.
pub proof fn law_layers_are_as_written(s: Seq<char>)
    requires
        s.len() > 0,
        s[0] != '-',
        s[0] != '+',
    ensures
        numbers::all_digits(s) && numbers::value_of(s) <= u32::MAX ==> layers_of(s)
            == numbers::value_of(s),
        !numbers::all_digits(s) || numbers::value_of(s) > u32::MAX ==> layers_of(s) == 99,
{
}

/// The local model's files lie in a directory of their own below the data directory.
pub proof fn law_servers_have_their_own_directory(data_dir: Seq<char>)
    ensures
        paths::file_name_of(server_dir_of(data_dir)) == Some("local-llm"@),
        text::begins(server_dir_of(data_dir), data_dir),
{
    reveal_strlit("local-llm");
    reveal_strlit(".");
    reveal_strlit("..");
    let name = "local-llm"@;
    assert(name.len() == 9 && "."@.len() == 1 && ".."@.len() == 2);
    assert(!name.contains('/')) by {
        if name.contains('/') {
            let i = choose|i: int| 0 <= i < name.len() && name[i] == '/';
            assert(name[i] != '/');
        }
    }
    paths::law_joined_files_go_by_their_names(data_dir, name);
}

/// A selected model is run with the context window that is configured, and without a model
/// there is none.
pub proof fn law_selected_models_have_their_context(
    m: Manager,
    facts: HostFacts,
    tokens: u32,
)
    requires
        call_ensures(Manager::current_context_tokens, (&m, &facts), tokens),
    ensures
        facts.model@.len() > 0 ==> tokens == facts.context_size,
        facts.model@.len() == 0 ==> tokens == 0,
{
}

} // verus!
