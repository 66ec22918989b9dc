//! The models that are offered, from small to large.
use vstd::prelude::*;
use crate::text;

verus! {

/// The context window, in tokens, of a model that is not in the catalog.
pub const FALLBACK_CONTEXT_TOKENS: u32 = 32_768;

/// What a catalog entry is for.
#[derive(Clone, Copy, Debug, PartialEq, Eq, Structural)]
pub enum ModelKind {
    /// A chat model.
    Llm,
}

impl Default for ModelKind {
    fn default() -> (r: Self)
        ensures
            r == ModelKind::Llm,
    {
        ModelKind::Llm
    }
}

/// A model that is offered.
pub struct CatalogEntry {
    pub id: String,
    /// The repository that the files come from.
    pub repo: String,
    /// The files of the model, in the order in which they are loaded.
    pub files: Vec<String>,
    pub label: String,
    pub quant: String,
    /// The size of the files together.
    pub bytes: u64,
    pub min_ram_gb: u8,
    pub recommended_for_gb: u8,
    pub blurb: String,
    pub kind: ModelKind,
    /// The projector by which the model sees images.
    pub mmproj_file: Option<String>,
    pub mmproj_bytes: u64,
}

/// A model that is offered.
#[verifier::ext_equal]
pub struct EntryView {
    pub id: Seq<char>,
    pub repo: Seq<char>,
    pub files: Seq<Seq<char>>,
    pub label: Seq<char>,
    pub quant: Seq<char>,
    pub bytes: u64,
    pub min_ram_gb: u8,
    pub recommended_for_gb: u8,
    pub blurb: Seq<char>,
    pub kind: ModelKind,
    pub mmproj_file: Option<Seq<char>>,
    pub mmproj_bytes: u64,
}

impl View for CatalogEntry {
    type V = EntryView;

    open spec fn view(&self) -> EntryView {
        EntryView {
            id: self.id@,
            repo: self.repo@,
            files: text::texts(self.files@),
            label: self.label@,
            quant: self.quant@,
            bytes: self.bytes,
            min_ram_gb: self.min_ram_gb,
            recommended_for_gb: self.recommended_for_gb,
            blurb: self.blurb@,
            kind: self.kind,
            mmproj_file: text::opt_text(self.mmproj_file),
            mmproj_bytes: self.mmproj_bytes,
        }
    }
}

/// What the entries of a list are.
pub open spec fn entry_views(v: Seq<CatalogEntry>) -> Seq<EntryView> {
    Seq::new(v.len(), |i: int| v[i]@)
}

impl CatalogEntry {
    /// The size of the files and the projector together.
    pub fn total_bytes(&self) -> (r: u64)
        requires
            self.bytes + self.mmproj_bytes <= u64::MAX,
        ensures
            r == self.bytes + self.mmproj_bytes,
    {
        self.bytes + self.mmproj_bytes
    }
}

/// The models that are offered.
pub open spec fn listed() -> Seq<EntryView> {
    seq![
        EntryView {
            id: "qwen35-4b-q4"@,
            repo: "unsloth/Qwen3.5-4B-GGUF"@,
            files: seq!["Qwen3.5-4B-Q4_K_M.gguf"@],
            label: "Qwen3.5 4B"@,
            quant: "Q4_K_M"@,
            bytes: 2_500_000_000,
            min_ram_gb: 8,
            recommended_for_gb: 16,
            blurb: "Compact starter — chat, simple drafts, image input."@,
            kind: ModelKind::Llm,
            mmproj_file: Some("mmproj-F16.gguf"@),
            mmproj_bytes: 672_423_616,
        },
        EntryView {
            id: "qwen35-9b-q4"@,
            repo: "unsloth/Qwen3.5-9B-GGUF"@,
            files: seq!["Qwen3.5-9B-Q4_K_M.gguf"@],
            label: "Qwen3.5 9B"@,
            quant: "Q4_K_M"@,
            bytes: 5_400_000_000,
            min_ram_gb: 12,
            recommended_for_gb: 24,
            blurb: "All-rounder with vision. Comfortable on 24 GB Macs."@,
            kind: ModelKind::Llm,
            mmproj_file: Some("mmproj-F16.gguf"@),
            mmproj_bytes: 918_166_080,
        },
        EntryView {
            id: "qwen36-27b-q4"@,
            repo: "unsloth/Qwen3.6-27B-GGUF"@,
            files: seq!["Qwen3.6-27B-Q4_K_M.gguf"@],
            label: "Qwen3.6 27B"@,
            quant: "Q4_K_M"@,
            bytes: 16_200_000_000,
            min_ram_gb: 20,
            recommended_for_gb: 32,
            blurb: "Dense flagship with vision — solid 32 GB pick."@,
            kind: ModelKind::Llm,
            mmproj_file: Some("mmproj-F16.gguf"@),
            mmproj_bytes: 927_607_360,
        },
        EntryView {
            id: "qwen36-35b-a3b-q4"@,
            repo: "unsloth/Qwen3.6-35B-A3B-GGUF"@,
            files: seq!["Qwen3.6-35B-A3B-UD-Q4_K_M.gguf"@],
            label: "Qwen3.6 35B-A3B"@,
            quant: "Q4_K_M"@,
            bytes: 21_000_000_000,
            min_ram_gb: 24,
            recommended_for_gb: 32,
            blurb: "Sparse MoE with vision — 35B params, ~3B active."@,
            kind: ModelKind::Llm,
            mmproj_file: Some("mmproj-F16.gguf"@),
            mmproj_bytes: 899_283_680,
        },
        EntryView {
            id: "qwen36-35b-a3b-q8"@,
            repo: "unsloth/Qwen3.6-35B-A3B-GGUF"@,
            files: seq!["Qwen3.6-35B-A3B-Q8_0.gguf"@],
            label: "Qwen3.6 35B-A3B"@,
            quant: "Q8_0"@,
            bytes: 37_000_000_000,
            min_ram_gb: 40,
            recommended_for_gb: 48,
            blurb: "Sweet spot with vision. The 48-GB default."@,
            kind: ModelKind::Llm,
            mmproj_file: Some("mmproj-F16.gguf"@),
            mmproj_bytes: 899_283_680,
        },
        EntryView {
            id: "qwen35-122b-a10b-q4"@,
            repo: "unsloth/Qwen3.5-122B-A10B-GGUF"@,
            files: seq!["Qwen3.5-122B-A10B-Q4_K_M-00001-of-00003.gguf"@, "Qwen3.5-122B-A10B-Q4_K_M-00002-of-00003.gguf"@, "Qwen3.5-122B-A10B-Q4_K_M-00003-of-00003.gguf"@],
            label: "Qwen3.5 122B-A10B"@,
            quant: "Q4_K_M"@,
            bytes: 73_000_000_000,
            min_ram_gb: 80,
            recommended_for_gb: 96,
            blurb: "Frontier MoE with vision — 122B params, ~10B active."@,
            kind: ModelKind::Llm,
            mmproj_file: Some("mmproj-F16.gguf"@),
            mmproj_bytes: 908_724_960,
        },
    ]
}

/// The models that are offered.
pub fn catalog() -> (r: Vec<CatalogEntry>)
    ensures
        entry_views(r@) == listed(),
{
    let mut all: Vec<CatalogEntry> = Vec::new();
    let mut files: Vec<String> = Vec::new();
    files.push("Qwen3.5-4B-Q4_K_M.gguf".to_string());
    assert(text::texts(files@) =~= listed()[0].files);
    all.push(
        CatalogEntry {
            id: "qwen35-4b-q4".to_string(),
            repo: "unsloth/Qwen3.5-4B-GGUF".to_string(),
            files,
            label: "Qwen3.5 4B".to_string(),
            quant: "Q4_K_M".to_string(),
            bytes: 2_500_000_000,
            min_ram_gb: 8,
            recommended_for_gb: 16,
            blurb: "Compact starter — chat, simple drafts, image input.".to_string(),
            kind: ModelKind::Llm,
            mmproj_file: Some("mmproj-F16.gguf".to_string()),
            mmproj_bytes: 672_423_616,
        },
    );
    let mut files: Vec<String> = Vec::new();
    files.push("Qwen3.5-9B-Q4_K_M.gguf".to_string());
    assert(text::texts(files@) =~= listed()[1].files);
    all.push(
        CatalogEntry {
            id: "qwen35-9b-q4".to_string(),
            repo: "unsloth/Qwen3.5-9B-GGUF".to_string(),
            files,
            label: "Qwen3.5 9B".to_string(),
            quant: "Q4_K_M".to_string(),
            bytes: 5_400_000_000,
            min_ram_gb: 12,
            recommended_for_gb: 24,
            blurb: "All-rounder with vision. Comfortable on 24 GB Macs.".to_string(),
            kind: ModelKind::Llm,
            mmproj_file: Some("mmproj-F16.gguf".to_string()),
            mmproj_bytes: 918_166_080,
        },
    );
    let mut files: Vec<String> = Vec::new();
    files.push("Qwen3.6-27B-Q4_K_M.gguf".to_string());
    assert(text::texts(files@) =~= listed()[2].files);
    all.push(
        CatalogEntry {
            id: "qwen36-27b-q4".to_string(),
            repo: "unsloth/Qwen3.6-27B-GGUF".to_string(),
            files,
            label: "Qwen3.6 27B".to_string(),
            quant: "Q4_K_M".to_string(),
            bytes: 16_200_000_000,
            min_ram_gb: 20,
            recommended_for_gb: 32,
            blurb: "Dense flagship with vision — solid 32 GB pick.".to_string(),
            kind: ModelKind::Llm,
            mmproj_file: Some("mmproj-F16.gguf".to_string()),
            mmproj_bytes: 927_607_360,
        },
    );
    let mut files: Vec<String> = Vec::new();
    files.push("Qwen3.6-35B-A3B-UD-Q4_K_M.gguf".to_string());
    assert(text::texts(files@) =~= listed()[3].files);
    all.push(
        CatalogEntry {
            id: "qwen36-35b-a3b-q4".to_string(),
            repo: "unsloth/Qwen3.6-35B-A3B-GGUF".to_string(),
            files,
            label: "Qwen3.6 35B-A3B".to_string(),
            quant: "Q4_K_M".to_string(),
            bytes: 21_000_000_000,
            min_ram_gb: 24,
            recommended_for_gb: 32,
            blurb: "Sparse MoE with vision — 35B params, ~3B active.".to_string(),
            kind: ModelKind::Llm,
            mmproj_file: Some("mmproj-F16.gguf".to_string()),
            mmproj_bytes: 899_283_680,
        },
    );
    let mut files: Vec<String> = Vec::new();
    files.push("Qwen3.6-35B-A3B-Q8_0.gguf".to_string());
    assert(text::texts(files@) =~= listed()[4].files);
    all.push(
        CatalogEntry {
            id: "qwen36-35b-a3b-q8".to_string(),
            repo: "unsloth/Qwen3.6-35B-A3B-GGUF".to_string(),
            files,
            label: "Qwen3.6 35B-A3B".to_string(),
            quant: "Q8_0".to_string(),
            bytes: 37_000_000_000,
            min_ram_gb: 40,
            recommended_for_gb: 48,
            blurb: "Sweet spot with vision. The 48-GB default.".to_string(),
            kind: ModelKind::Llm,
            mmproj_file: Some("mmproj-F16.gguf".to_string()),
            mmproj_bytes: 899_283_680,
        },
    );
    let mut files: Vec<String> = Vec::new();
    files.push("Qwen3.5-122B-A10B-Q4_K_M-00001-of-00003.gguf".to_string());
    files.push("Qwen3.5-122B-A10B-Q4_K_M-00002-of-00003.gguf".to_string());
    files.push("Qwen3.5-122B-A10B-Q4_K_M-00003-of-00003.gguf".to_string());
    assert(text::texts(files@) =~= listed()[5].files);
    all.push(
        CatalogEntry {
            id: "qwen35-122b-a10b-q4".to_string(),
            repo: "unsloth/Qwen3.5-122B-A10B-GGUF".to_string(),
            files,
            label: "Qwen3.5 122B-A10B".to_string(),
            quant: "Q4_K_M".to_string(),
            bytes: 73_000_000_000,
            min_ram_gb: 80,
            recommended_for_gb: 96,
            blurb: "Frontier MoE with vision — 122B params, ~10B active.".to_string(),
            kind: ModelKind::Llm,
            mmproj_file: Some("mmproj-F16.gguf".to_string()),
            mmproj_bytes: 908_724_960,
        },
    );
    assert(entry_views(all@) =~= listed());
    all
}

// ---------------------------------------------------------------------------
// Laws
// ---------------------------------------------------------------------------

/// No two entries have the same id.
pub proof fn law_ids_are_unique(i: int, j: int)
    requires
        0 <= i < j < listed().len(),
    ensures
        listed()[i].id != listed()[j].id,
{
    reveal_strlit("qwen35-4b-q4");
    reveal_strlit("qwen35-9b-q4");
    reveal_strlit("qwen36-27b-q4");
    reveal_strlit("qwen36-35b-a3b-q4");
    reveal_strlit("qwen36-35b-a3b-q8");
    reveal_strlit("qwen35-122b-a10b-q4");
    let ids = Seq::new(listed().len(), |k: int| listed()[k].id);
    assert(ids[0].len() == 12);
    assert(ids[1].len() == 12);
    assert(ids[2].len() == 13);
    assert(ids[3].len() == 17);
    assert(ids[4].len() == 17);
    assert(ids[5].len() == 19);
    assert(ids[0][6] == '-' && ids[1][6] == '-');
    assert(ids[0][7] == '4' && ids[1][7] == '9');
    assert(ids[3][16] == '4' && ids[4][16] == '8');
    assert(ids[i] == listed()[i].id && ids[j] == listed()[j].id);
}

/// The catalog is not empty and goes from small to large.
pub proof fn law_catalog_is_sorted(i: int, j: int)
    requires
        0 <= i <= j < listed().len(),
    ensures
        listed().len() > 0,
        listed()[i].recommended_for_gb <= listed()[j].recommended_for_gb,
{
}

/// No entry needs more memory than it recommends, each has at least one file, and its
/// size can be told.
pub proof fn law_entries_are_sound(i: int)
    requires
        0 <= i < listed().len(),
    ensures
        listed()[i].min_ram_gb <= listed()[i].recommended_for_gb,
        listed()[i].files.len() > 0,
        listed()[i].bytes + listed()[i].mmproj_bytes <= u64::MAX,
{
}

} // verus!
