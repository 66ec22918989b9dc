use std::collections::HashSet;

use helmor_triage::local_llm::asset_provider::{
    catalog_entry_to_asset, mmproj_local_name, CatalogAssetProvider,
};
use helmor_triage::downloads::registry::AssetProvider;
use helmor_triage::downloads::types::AssetSource;
use helmor_triage::local_llm::catalog::catalog;

#[test]
fn catalog_ids_are_unique() {
    let entries = catalog();
    let mut seen = HashSet::new();
    for entry in &entries {
        assert!(
            seen.insert(entry.id.clone()),
            "duplicate catalog id: {}",
            entry.id
        );
    }
}

#[test]
fn catalog_is_non_empty_and_sorted_by_recommended_ram() {
    let entries = catalog();
    assert!(!entries.is_empty(), "catalog must not be empty");
    for window in entries.windows(2) {
        assert!(
            window[0].recommended_for_gb <= window[1].recommended_for_gb,
            "catalog must be ordered by recommended_for_gb (asc): {} ({}) then {} ({})",
            window[0].id,
            window[0].recommended_for_gb,
            window[1].id,
            window[1].recommended_for_gb,
        );
    }
}

#[test]
fn min_ram_never_exceeds_recommended_ram() {
    for entry in catalog() {
        assert!(
            entry.min_ram_gb <= entry.recommended_for_gb,
            "{}: min_ram_gb ({}) > recommended_for_gb ({})",
            entry.id,
            entry.min_ram_gb,
            entry.recommended_for_gb,
        );
    }
}

#[test]
fn every_entry_has_at_least_one_file() {
    for entry in catalog() {
        assert!(
            !entry.files.is_empty(),
            "{}: files vector is empty — every catalog entry must list at least one artefact",
            entry.id
        );
    }
}

#[test]
fn per_repo_suffix_disambiguates_collisions() {
    let a = mmproj_local_name("mmproj-F16.gguf", "unsloth/Qwen3.5-9B-GGUF");
    let b = mmproj_local_name("mmproj-F16.gguf", "unsloth/Qwen3.6-27B-GGUF");
    assert_ne!(a, b);
    assert_eq!(a, "mmproj-F16.unsloth_Qwen3.5-9B-GGUF.gguf");
    assert_eq!(b, "mmproj-F16.unsloth_Qwen3.6-27B-GGUF.gguf");
}

#[test]
fn same_repo_yields_same_local_name() {
    let q4 = mmproj_local_name("mmproj-F16.gguf", "unsloth/Qwen3.6-35B-A3B-GGUF");
    let q8 = mmproj_local_name("mmproj-F16.gguf", "unsloth/Qwen3.6-35B-A3B-GGUF");
    assert_eq!(q4, q8);
}

#[test]
fn suffixes_keep_letters_of_every_script() {
    assert_eq!(mmproj_local_name("p", "a:b c\\é!"), "p.a_b_c_é_.gguf");
}

#[test]
fn totals_hold_weights_and_projector() {
    let first = catalog().into_iter().next().unwrap();
    assert_eq!(first.id, "qwen35-4b-q4");
    assert_eq!(first.total_bytes(), 2_500_000_000 + 672_423_616);
}

#[test]
fn entries_become_assets_with_an_optional_projector() {
    let last = catalog().pop().unwrap();
    let asset = catalog_entry_to_asset(last, "/models");
    assert_eq!(asset.files.len(), 3);
    assert_eq!(asset.target_dir, "/models");
    assert_eq!(asset.estimated_bytes, 73_908_724_960);
    assert_eq!(asset.optional_files.len(), 1);
    assert_eq!(
        asset.optional_files[0].local_name,
        "mmproj-F16.unsloth_Qwen3.5-122B-A10B-GGUF.gguf"
    );
    assert!(matches!(asset.source, AssetSource::HuggingFace { ref repo } if repo == "unsloth/Qwen3.5-122B-A10B-GGUF"));
}

#[test]
fn without_a_directory_there_are_no_assets() {
    assert!(CatalogAssetProvider { models_dir: None }.assets().is_empty());
    assert_eq!(CatalogAssetProvider { models_dir: Some("/m".into()) }.assets().len(), 6);
}
