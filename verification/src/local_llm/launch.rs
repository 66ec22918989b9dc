//! The arguments that a server is started with, and the projector that belongs to its
//! model.
use vstd::prelude::*;
use crate::local_llm::asset_provider;
use crate::local_llm::catalog;
use crate::local_llm::catalog::CatalogEntry;
use crate::local_llm::manager;
use crate::local_llm::manager::ServerFlags;
use crate::numbers;
use crate::paths;
use crate::pieces;
use crate::text;
use crate::unicode;

verus! {

// ---------------------------------------------------------------------------
// Projectors
// ---------------------------------------------------------------------------

/// Where the projector of a model is looked for.
pub enum Projector {
    /// The model has none.
    Absent,
    /// At this path alone: one of another model would crash the server.
    At { path: String },
    /// Among the files beside the model.
    Beside,
}

/// Where the projector of a model is looked for.
pub enum ProjectorView {
    Absent,
    At { path: Seq<char> },
    Beside,
}

impl View for Projector {
    type V = ProjectorView;

    open spec fn view(&self) -> ProjectorView {
        match self {
            Projector::Absent => ProjectorView::Absent,
            Projector::At { path } => ProjectorView::At { path: path@ },
            Projector::Beside => ProjectorView::Beside,
        }
    }
}

/// The first entry with the file, where there is one.
pub open spec fn entry_with(entries: Seq<catalog::EntryView>, file: Seq<char>) -> Option<
    catalog::EntryView,
>
    decreases entries.len(),
{
    if entries.len() == 0 {
        None
    } else if entries[0].files.contains(file) {
        Some(entries[0])
    } else {
        entry_with(entries.drop_first(), file)
    }
}

/// Where the projector of the model in the directory is looked for: a model of the catalog
/// has its own, any other takes what lies beside it.
pub open spec fn projector_of(dir: Seq<char>, file: Seq<char>) -> ProjectorView {
    match entry_with(catalog::listed(), file) {
        Some(e) => match e.mmproj_file {
            Some(remote) => ProjectorView::At {
                path: paths::path_joined(
                    dir,
                    asset_provider::with_suffix(remote, asset_provider::suffix_of(e.repo)),
                ),
            },
            None => ProjectorView::Absent,
        },
        None => ProjectorView::Beside,
    }
}

fn has_file(e: &CatalogEntry, file: &str) -> (r: bool)
    ensures
        r == e@.files.contains(file@),
{
    let mut i: usize = 0;
    while i < e.files.len()
        invariant
            i <= e.files@.len(),
            forall|k: int| 0 <= k < i ==> (#[trigger] e@.files[k]) != file@,
        decreases e.files@.len() - i,
    {
        assert(e@.files[i as int] == e.files@[i as int]@);
        if text::same(e.files[i].as_str(), file) {
            return true;
        }
        i += 1;
    }
    false
}

/// Where the projector of a model is looked for, from the directory and the name of the
/// model's file.
pub fn resolve_mmproj_for_model(parent: &str, file_name: &str) -> (r: Projector)
    ensures
        r@ == projector_of(parent@, file_name@),
{
    let entries = catalog::catalog();
    let ghost all = catalog::listed();
    let mut i: usize = 0;
    assert(all.skip(0) =~= all);
    while i < entries.len()
        invariant
            i <= entries@.len(),
            catalog::entry_views(entries@) == all,
            all == catalog::listed(),
            entry_with(all, file_name@) == entry_with(all.skip(i as int), file_name@),
        decreases entries@.len() - i,
    {
        let e = &entries[i];
        assert(catalog::entry_views(entries@)[i as int] == e@);
        assert(all.skip(i as int)[0] == e@);
        assert(all.skip(i as int).drop_first() =~= all.skip(i + 1));
        if has_file(e, file_name) {
            return match &e.mmproj_file {
                Some(remote) => {
                    let name = asset_provider::mmproj_local_name(remote.as_str(), e.repo.as_str());
                    Projector::At { path: paths::path_join(parent, name.as_str()) }
                },
                None => Projector::Absent,
            };
        }
        i += 1;
    }
    assert(all.skip(i as int).len() == 0);
    Projector::Beside
}

/// The file is a projector by its name.
pub open spec fn is_projector(name: Seq<char>) -> bool {
    text::begins(name, "mmproj-"@) && text::ends(unicode::lowercase(name), ".gguf"@)
}

/// How far behind a projector stands: F16 comes first, then BF16, then F32, then any
/// other.
pub open spec fn rank(name: Seq<char>) -> int {
    let low = unicode::lowercase(name);
    if text::has(low, "f16"@) && !text::has(low, "bf16"@) {
        0
    } else if text::has(low, "bf16"@) {
        1
    } else if text::has(low, "f32"@) {
        2
    } else {
        3
    }
}

fn rank_if_projector(name: &str) -> (r: Option<u8>)
    ensures
        match r {
            Some(n) => is_projector(name@) && n as int == rank(name@),
            None => !is_projector(name@),
        },
{
    let low = unicode::to_lowercase(name);
    let low = low.as_str();
    if !text::starts_with(name, "mmproj-") || !text::ends_with(low, ".gguf") {
        return None;
    }
    let bf16 = text::contains(low, "bf16");
    if text::contains(low, "f16") && !bf16 {
        Some(0)
    } else if bf16 {
        Some(1)
    } else if text::contains(low, "f32") {
        Some(2)
    } else {
        Some(3)
    }
}

/// The projector at the index is the one to take: none stands before it, and none of the
/// same rank comes earlier.
pub open spec fn preferred(names: Seq<Seq<char>>, i: int) -> bool {
    &&& 0 <= i < names.len()
    &&& is_projector(names[i])
    &&& forall|k: int|
        0 <= k < names.len() && is_projector(#[trigger] names[k]) ==> rank(names[i]) <= rank(
            names[k],
        ) && (rank(names[i]) == rank(names[k]) ==> i <= k)
}

/// The projector to take out of the files beside a model, by its place among them.
pub fn find_sibling_mmproj(names: &Vec<String>) -> (r: Option<usize>)
    ensures
        match r {
            Some(i) => preferred(text::texts(names@), i as int),
            None => forall|k: int|
                0 <= k < names@.len() ==> !is_projector(#[trigger] text::texts(names@)[k]),
        },
{
    let ghost all = text::texts(names@);
    let mut best: Option<(usize, u8)> = None;
    let mut i: usize = 0;
    while i < names.len()
        invariant
            i <= names@.len(),
            all == text::texts(names@),
            match best {
                Some((b, n)) => preferred(all.take(i as int), b as int) && n as int == rank(
                    all[b as int],
                ),
                None => forall|k: int| 0 <= k < i ==> !is_projector(#[trigger] all[k]),
            },
        decreases names@.len() - i,
    {
        assert(all[i as int] == names@[i as int]@);
        let ghost before = all.take(i as int);
        let ghost after = all.take(i + 1);
        assert(after.drop_last() =~= before);
        assert(forall|k: int| 0 <= k < i ==> after[k] == before[k] && before[k] == all[k]);
        assert(after[i as int] == all[i as int]);
        match rank_if_projector(names[i].as_str()) {
            Some(n) => {
                let better = match best {
                    Some((_, m)) => n < m,
                    None => true,
                };
                if better {
                    best = Some((i, n));
                }
            },
            None => {},
        }
        i += 1;
    }
    assert(all.take(i as int) =~= all);
    match best {
        Some((b, _)) => Some(b),
        None => None,
    }
}

// ---------------------------------------------------------------------------
// Arguments
// ---------------------------------------------------------------------------

/// The arguments for the model and its projector.
pub open spec fn model_args(model: Seq<char>, mmproj: Option<Seq<char>>) -> Seq<Seq<char>> {
    match mmproj {
        Some(p) => seq!["--model"@, model, "--mmproj"@, p],
        None => seq!["--model"@, model],
    }
}

/// Why a model cannot be run.
pub open spec fn model_complaint(model: Seq<char>, is_file: bool) -> Option<Seq<char>> {
    if pieces::trimmed(model).len() == 0 {
        Some("No model selected. Pick a curated model or set a custom path."@)
    } else if !is_file {
        Some(
            "Model file not found: "@ + pieces::trimmed(model)
                + ". Pick a curated model in Settings or point Custom model path at a real `.gguf` file."@,
        )
    } else {
        None
    }
}

/// The arguments for the model and its projector, or why the model cannot be run.
/// `is_file` tells whether a file stands at the model's path, and `mmproj` is the
/// projector that was found.
pub fn llama_model_args(model: &str, is_file: bool, mmproj: Option<String>) -> (r: Result<
    Vec<String>,
    String,
>)
    ensures
        match (r, model_complaint(model@, is_file)) {
            (Ok(args), None) => text::texts(args@) == model_args(
                pieces::trimmed(model@),
                text::opt_text(mmproj),
            ),
            (Err(e), Some(c)) => e@ == c,
            _ => false,
        },
{
    let trimmed = pieces::trim(model);
    if trimmed.as_str().is_empty() {
        return Err("No model selected. Pick a curated model or set a custom path.".to_string());
    }
    if !is_file {
        let mut e = "Model file not found: ".to_string();
        e.append(trimmed.as_str());
        e.append(
            ". Pick a curated model in Settings or point Custom model path at a real `.gguf` file.",
        );
        return Err(e);
    }
    let ghost projector = text::opt_text(mmproj);
    let mut args: Vec<String> = Vec::new();
    args.push("--model".to_string());
    args.push(trimmed);
    match mmproj {
        Some(p) => {
            args.push("--mmproj".to_string());
            args.push(p);
        },
        None => {},
    }
    assert(text::texts(args@) =~= model_args(pieces::trimmed(model@), projector));
    Ok(args)
}

/// The arguments that follow those for the model.
pub open spec fn common_args(flags: ServerFlags, context_size: u32) -> Seq<Seq<char>> {
    seq![
        "--alias"@,
        flags.api_model@,
        "-c"@,
        numbers::decimal(context_size as nat),
        "-ngl"@,
        flags.gpu_layers@,
        "--reasoning"@,
        flags.reasoning_mode@,
        "--log-disable"@,
    ]
}

/// What a server is started with.
pub struct SpawnArgs {
    pub model_path: String,
    pub llama_args: Vec<String>,
    pub pid_path: String,
    pub hf_home: String,
    pub logs_dir: String,
}

/// What a server is started with, from the arguments for its model.
pub fn spawn_llm_server(
    model: &str,
    model_args: Vec<String>,
    context_size: u32,
    flags: &ServerFlags,
    data_dir: &str,
) -> (r: SpawnArgs)
    ensures
        r.model_path@ == model@,
        text::texts(r.llama_args@) == text::texts(model_args@) + common_args(*flags, context_size),
        r.pid_path@ == paths::path_joined(manager::server_dir_of(data_dir@), "server.pid"@),
        r.hf_home@ == paths::path_joined(manager::server_dir_of(data_dir@), "hf"@),
        r.logs_dir@ == paths::path_joined(manager::server_dir_of(data_dir@), "logs"@),
{
    let ghost given = text::texts(model_args@);
    let mut args = model_args;
    args.push("--alias".to_string());
    args.push(flags.api_model.clone());
    args.push("-c".to_string());
    args.push(numbers::decimal_string(context_size as u64));
    args.push("-ngl".to_string());
    args.push(flags.gpu_layers.clone());
    args.push("--reasoning".to_string());
    args.push(flags.reasoning_mode.clone());
    args.push("--log-disable".to_string());
    assert(text::texts(args@) =~= given + common_args(*flags, context_size));
    let dir = paths::path_join(data_dir, "local-llm");
    SpawnArgs {
        model_path: model.to_string(),
        llama_args: args,
        pid_path: manager::sweep_orphan_server(data_dir),
        hf_home: paths::path_join(dir.as_str(), "hf"),
        logs_dir: paths::path_join(dir.as_str(), "logs"),
    }
}

// ---------------------------------------------------------------------------
// Laws
// ---------------------------------------------------------------------------

/// A model of the catalog is run with the projector that was downloaded for it: it is
/// looked for where the asset puts it, and nowhere else.
pub proof fn law_projector_is_the_downloaded_one(dir: Seq<char>, file: Seq<char>)
    ensures
        match entry_with(catalog::listed(), file) {
            Some(e) => {
                let a = asset_provider::asset_of(e, dir);
                projector_of(dir, file) == (if a.optional_files.len() == 0 {
                    ProjectorView::Absent
                } else {
                    ProjectorView::At { path: a.path_of(a.optional_files[0].1) }
                })
            },
            None => projector_of(dir, file) is Beside,
        },
{
}

/// The server is told of its model, and of the projector where there is one, each behind its
/// own flag.
pub proof fn law_server_is_told_of_its_model(model: Seq<char>, projector: Seq<char>)
    ensures
        ({
            let bare = model_args(model, None);
            let both = model_args(model, Some(projector));
            &&& bare.len() == 2 && bare[0] == "--model"@ && bare[1] == model
            &&& both.len() == 4 && both[0] == "--model"@ && both[1] == model && both[2]
                == "--mmproj"@ && both[3] == projector
        }),
{
}

/// The server's settings stand behind their flags: its name, the context window, the layers
/// and the mode of reasoning.
pub proof fn law_server_is_told_of_its_settings(flags: ServerFlags, context_size: u32)
    ensures
        ({
            let args = common_args(flags, context_size);
            &&& args.len() == 9
            &&& args[0] == "--alias"@ && args[1] == flags.api_model@
            &&& args[2] == "-c"@ && args[3] == numbers::decimal(context_size as nat)
            &&& args[4] == "-ngl"@ && args[5] == flags.gpu_layers@
            &&& args[6] == "--reasoning"@ && args[7] == flags.reasoning_mode@
            &&& args[8] == "--log-disable"@
        }),
{
}

/// A model is run only where one is selected and its file is there.
pub proof fn law_models_must_be_there(model: Seq<char>, is_file: bool)
    ensures
        model_complaint(model, is_file) is None <==> pieces::says_something(model) && is_file,
        pieces::says_something(model) && !is_file ==> text::has(
            model_complaint(model, is_file)->0,
            pieces::trimmed(model),
        ),
{
    pieces::law_trimming_takes_only_white_space(model);
    if pieces::says_something(model) && !is_file {
        let head = "Model file not found: "@;
        let m = pieces::trimmed(model);
        let s = model_complaint(model, is_file)->0;
        assert(s.subrange(head.len() as int, (head.len() + m.len()) as int) =~= m);
        assert(text::occurs_at(s, m, head.len() as int));
    }
}

/// Of the projectors beside a model the one in half precision is taken before that in
/// brain-float and that before one in full precision; of two that rank the same, the first.
pub proof fn law_half_precision_is_preferred(
    names: Seq<Seq<char>>,
    i: int,
    k: int,
)
    requires
        preferred(names, i),
        0 <= k < names.len(),
        is_projector(names[k]),
    ensures
        ({
            let low = |n: Seq<char>| unicode::lowercase(n);
            let half = |n: Seq<char>| text::has(low(n), "f16"@) && !text::has(low(n), "bf16"@);
            let brain = |n: Seq<char>| text::has(low(n), "bf16"@);
            let single = |n: Seq<char>| text::has(low(n), "f32"@);
            &&& half(names[k]) ==> half(names[i])
            &&& brain(names[k]) ==> half(names[i]) || brain(names[i])
            &&& single(names[k]) ==> half(names[i]) || brain(names[i]) || single(names[i])
            &&& half(names[k]) ==> i <= k
        }),
        text::begins(names[i], "mmproj-"@),
        text::ends(unicode::lowercase(names[i]), ".gguf"@),
{
}

/// A model of the catalog is found by any of its files, the first that has it.
pub proof fn law_models_are_found_by_file(entries: Seq<catalog::EntryView>, file: Seq<char>)
    ensures
        match entry_with(entries, file) {
            Some(e) => e.files.contains(file) && entries.contains(e),
            None => forall|i: int|
                0 <= i < entries.len() ==> !(#[trigger] entries[i]).files.contains(file),
        },
    decreases entries.len(),
{
    if entries.len() > 0 {
        if entries[0].files.contains(file) {
            assert(entries.contains(entries[0]));
        } else {
            let rest = entries.drop_first();
            law_models_are_found_by_file(rest, file);
            match entry_with(entries, file) {
                Some(e) => {
                    let i = choose|i: int| 0 <= i < rest.len() && rest[i] == e;
                    assert(entries[i + 1] == e);
                },
                None => {
                    assert forall|i: int| 0 <= i < entries.len() implies !(
                    #[trigger] entries[i]).files.contains(file) by {
                        if i > 0 {
                            assert(rest[i - 1] == entries[i]);
                        }
                    }
                },
            }
        }
    }
}

/// Without a model the user is asked to pick one; a model that is not there is told by its
/// path.
pub proof fn law_missing_models_are_told(model: Seq<char>)
    ensures
        !pieces::says_something(model) ==> forall|is_file: bool| #[trigger]
            model_complaint(model, is_file) == Some(
                "No model selected. Pick a curated model or set a custom path."@,
            ),
        pieces::says_something(model) ==> model_complaint(model, false) == Some(
            "Model file not found: "@ + pieces::trimmed(model)
                + ". Pick a curated model in Settings or point Custom model path at a real `.gguf` file."@,
        ),
{
    pieces::law_trimming_takes_only_white_space(model);
}

/// Of two projectors that rank the same the first is taken, whatever they are.
pub proof fn law_first_of_equals_is_taken(names: Seq<Seq<char>>, i: int, k: int)
    requires
        preferred(names, i),
        0 <= k < names.len(),
        is_projector(names[k]),
        rank(names[k]) == rank(names[i]),
    ensures
        i <= k,
{
}

} // verus!
