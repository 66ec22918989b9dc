use helmor_triage::local_llm::gguf::{
    metadata_from_pairs, parse_metadata, read_metadata, MetaValue, GGUF_MAGIC,
    MAX_METADATA_KV_COUNT,
};

enum Kv {
    Str(String),
    U32(u32),
}

fn write_string(f: &mut Vec<u8>, s: &str) {
    f.extend_from_slice(&(s.len() as u64).to_le_bytes());
    f.extend_from_slice(s.as_bytes());
}

impl Kv {
    fn write(&self, f: &mut Vec<u8>) {
        match self {
            Kv::Str(s) => {
                f.extend_from_slice(&8u32.to_le_bytes());
                write_string(f, s);
            }
            Kv::U32(v) => {
                f.extend_from_slice(&4u32.to_le_bytes());
                f.extend_from_slice(&v.to_le_bytes());
            }
        }
    }
}

fn write_min_gguf(tensor_count: u64, kvs: Vec<(&str, Kv)>) -> Vec<u8> {
    let mut f = Vec::new();
    f.extend_from_slice(&GGUF_MAGIC.to_le_bytes());
    f.extend_from_slice(&3u32.to_le_bytes());
    f.extend_from_slice(&tensor_count.to_le_bytes());
    f.extend_from_slice(&(kvs.len() as u64).to_le_bytes());
    for (k, v) in kvs {
        write_string(&mut f, k);
        v.write(&mut f);
    }
    f
}

#[test]
fn parses_minimal_llama_gguf() {
    let file = write_min_gguf(
        0,
        vec![
            ("general.architecture", Kv::Str("llama".into())),
            ("general.name", Kv::Str("Llama 3 8B".into())),
            ("llama.context_length", Kv::U32(8192)),
            ("llama.block_count", Kv::U32(32)),
            ("llama.embedding_length", Kv::U32(4096)),
            ("llama.attention.head_count", Kv::U32(32)),
            ("llama.attention.head_count_kv", Kv::U32(8)),
        ],
    );
    let meta = read_metadata("/tmp/m.gguf", Some(&file)).ok().unwrap();
    assert_eq!(meta.architecture, "llama");
    assert_eq!(meta.name.as_deref(), Some("Llama 3 8B"));
    assert_eq!(meta.context_length, 8192);
    assert_eq!(meta.block_count, 32);
    assert_eq!(meta.head_count, 32);
    assert_eq!(meta.kv_head_count, 8);
    // head_dim = 4096 / 32 = 128. KV/token = 4 × 8 × 128 × 32 = 131_072
    assert_eq!(meta.kv_bytes_per_token(), 131_072);
}

#[test]
fn falls_back_to_head_count_when_kv_count_absent() {
    let file = write_min_gguf(
        0,
        vec![
            ("general.architecture", Kv::Str("llama".into())),
            ("llama.context_length", Kv::U32(2048)),
            ("llama.block_count", Kv::U32(32)),
            ("llama.embedding_length", Kv::U32(4096)),
            ("llama.attention.head_count", Kv::U32(32)),
        ],
    );
    let meta = read_metadata("/tmp/m.gguf", Some(&file)).ok().unwrap();
    assert_eq!(meta.kv_head_count, 32);
    // KV/token = 4 × 32 × 128 × 32 = 524_288
    assert_eq!(meta.kv_bytes_per_token(), 524_288);
}

#[test]
fn rejects_files_without_gguf_extension() {
    let err = read_metadata("/tmp/.tmpAbCdEf", Some(b"NOTGGUFBYTES")).err().unwrap().message();
    assert!(
        err.contains("Unsupported file type"),
        "expected extension reject, got {err}"
    );
}

#[test]
fn rejects_gguf_files_with_bad_magic() {
    let err = read_metadata("/tmp/m.gguf", Some(b"NOTGGUFBYTES")).err().unwrap().message();
    assert!(
        err.contains("header magic mismatch"),
        "expected magic mismatch, got {err}"
    );
}

#[test]
fn rejects_missing_files() {
    let path = "/tmp/helmor-does-not-exist-xyzzy.gguf";
    let err = read_metadata(path, None).err().unwrap().message();
    assert!(
        err.contains("File not found"),
        "expected file-not-found, got {err}"
    );
}

#[test]
fn requires_arch_specific_keys() {
    let file = write_min_gguf(0, vec![("general.architecture", Kv::Str("llama".into()))]);
    let err = read_metadata("/tmp/m.gguf", Some(&file)).err().unwrap().message();
    assert!(err.contains("context_length"));
}

#[test]
fn rejects_absurd_metadata_kv_count() {
    let mut f = Vec::new();
    f.extend_from_slice(&GGUF_MAGIC.to_le_bytes());
    f.extend_from_slice(&3u32.to_le_bytes());
    f.extend_from_slice(&0u64.to_le_bytes());
    f.extend_from_slice(&(MAX_METADATA_KV_COUNT + 1).to_le_bytes());
    let err = read_metadata("/tmp/m.gguf", Some(&f)).err().unwrap().message();
    assert!(
        err.contains("absurd metadata KV count"),
        "expected cap error, got {err}"
    );
}

fn header(version: u32, kvs: u64) -> Vec<u8> {
    let mut f = Vec::new();
    f.extend_from_slice(&GGUF_MAGIC.to_le_bytes());
    f.extend_from_slice(&version.to_le_bytes());
    f.extend_from_slice(&0u64.to_le_bytes());
    f.extend_from_slice(&kvs.to_le_bytes());
    f
}

fn message_of(b: &[u8]) -> String {
    parse_metadata(b).err().unwrap().message()
}

#[test]
fn every_fault_of_a_header_is_named() {
    assert_eq!(message_of(&header(1, 0)), "unsupported GGUF version 1 (Helmor reads v2 and v3)");
    assert_eq!(message_of(&header(3, 1)), "failed to fill whole buffer");
    let mut f = header(3, 1);
    f.extend_from_slice(&u64::MAX.to_le_bytes());
    assert!(message_of(&f).starts_with("absurd string length"));
    let mut f = header(3, 1);
    write_string(&mut f, "k");
    f.extend_from_slice(&99u32.to_le_bytes());
    assert_eq!(message_of(&f), "unknown GGUF value type 99");
    let mut f = header(3, 1);
    f.extend_from_slice(&1u64.to_le_bytes());
    f.push(0xff);
    assert!(message_of(&f).starts_with("non-UTF8 string in GGUF metadata: invalid utf-8"));
    let mut f = header(3, 1);
    write_string(&mut f, "k");
    f.extend_from_slice(&9u32.to_le_bytes());
    f.extend_from_slice(&4u32.to_le_bytes());
    f.extend_from_slice(&u64::MAX.to_le_bytes());
    assert!(message_of(&f).starts_with("absurd array length"));
    assert!(message_of(&header(3, 0)).contains("general.architecture"));
}

#[test]
fn a_longer_file_reads_the_same() {
    let mut file = write_min_gguf(
        7,
        vec![
            ("general.architecture", Kv::Str("q".into())),
            ("q.context_length", Kv::U32(1)),
            ("q.block_count", Kv::U32(2)),
            ("q.embedding_length", Kv::U32(3)),
            ("q.attention.head_count", Kv::U32(1)),
        ],
    );
    let short = parse_metadata(&file).ok().unwrap();
    file.extend_from_slice(&[1, 2, 3, 4, 5]);
    let long = parse_metadata(&file).ok().unwrap();
    assert_eq!(short.context_length, long.context_length);
    assert_eq!(short.architecture, long.architecture);
}

#[test]
fn pairs_are_read_by_their_architecture() {
    let pairs = vec![("general.architecture".to_string(), MetaValue::Text("x".to_string()))];
    let err = metadata_from_pairs(&pairs).err().unwrap().message();
    assert!(err.contains("x.context_length"));
}
