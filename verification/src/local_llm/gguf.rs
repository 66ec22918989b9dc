//! Minimal GGUF metadata reader.
//!
//! Reads the header and the key-value pairs of a GGUF file, versions 2 and 3, and keeps
//! what drives the context-window estimates. The tensor index behind the metadata is
//! not looked at, so a prefix of the file that holds the metadata is enough.
use vstd::prelude::*;
use vstd::slice::{slice_subrange, slice_to_vec};
use vstd::utf8::{
    decode_utf8, encode_utf8, encode_utf8_decode_utf8, encode_utf8_valid_utf8, valid_utf8,
};
use crate::numbers;
use crate::paths;
use crate::text;
use crate::utf8;

verus! {

/// `GGUF` in little-endian order.
pub const GGUF_MAGIC: u32 = 0x4655_4747;

/// Upper bound on the number of metadata pairs.
pub const MAX_METADATA_KV_COUNT: u64 = 10_000;

/// Upper bound on the bytes of all metadata strings together.
pub const MAX_METADATA_TOTAL_BYTES: u64 = 268_435_456;

/// Upper bound on the bytes of one metadata string.
pub const MAX_STRING_BYTES: u64 = 67_108_864;

/// Upper bound on the items of one metadata array.
pub const MAX_ARRAY_LEN: u64 = 1_048_576;

// ---------------------------------------------------------------------------
// Errors
// ---------------------------------------------------------------------------

/// Why a file's metadata cannot be read.
pub enum GgufError {
    UnsupportedFileType(String),
    FileNotFound(String),
    UnexpectedEof,
    BadMagic,
    UnsupportedVersion(u32),
    AbsurdKvCount(u64),
    AbsurdStringLength(u64),
    AbsurdArrayLength(u64),
    BudgetExceeded,
    NonUtf8(String),
    UnknownValueType(u32),
    MissingKey(String),
}

/// What an error says.
pub enum GgufFault {
    UnsupportedFileType(Seq<char>),
    FileNotFound(Seq<char>),
    UnexpectedEof,
    BadMagic,
    UnsupportedVersion(u32),
    AbsurdKvCount(u64),
    AbsurdStringLength(u64),
    AbsurdArrayLength(u64),
    BudgetExceeded,
    NonUtf8(Seq<char>),
    UnknownValueType(u32),
    MissingKey(Seq<char>),
}

impl View for GgufError {
    type V = GgufFault;

    open spec fn view(&self) -> GgufFault {
        match self {
            GgufError::UnsupportedFileType(p) => GgufFault::UnsupportedFileType(p@),
            GgufError::FileNotFound(p) => GgufFault::FileNotFound(p@),
            GgufError::UnexpectedEof => GgufFault::UnexpectedEof,
            GgufError::BadMagic => GgufFault::BadMagic,
            GgufError::UnsupportedVersion(v) => GgufFault::UnsupportedVersion(*v),
            GgufError::AbsurdKvCount(n) => GgufFault::AbsurdKvCount(*n),
            GgufError::AbsurdStringLength(n) => GgufFault::AbsurdStringLength(*n),
            GgufError::AbsurdArrayLength(n) => GgufFault::AbsurdArrayLength(*n),
            GgufError::BudgetExceeded => GgufFault::BudgetExceeded,
            GgufError::NonUtf8(e) => GgufFault::NonUtf8(e@),
            GgufError::UnknownValueType(t) => GgufFault::UnknownValueType(*t),
            GgufError::MissingKey(k) => GgufFault::MissingKey(k@),
        }
    }
}

impl GgufFault {
    /// The message shown for the error.
    pub open spec fn message(self) -> Seq<char> {
        match self {
            GgufFault::UnsupportedFileType(p) =>
                "Unsupported file type — only `.gguf` models are accepted (got "@ + p + ")"@,
            GgufFault::FileNotFound(p) => "File not found: "@ + p,
            GgufFault::UnexpectedEof => "failed to fill whole buffer"@,
            GgufFault::BadMagic =>
                "Not a valid GGUF file — header magic mismatch (file may be truncated or in a different format)"@,
            GgufFault::UnsupportedVersion(v) => "unsupported GGUF version "@ + numbers::decimal(
                v as nat,
            ) + " (Helmor reads v2 and v3)"@,
            GgufFault::AbsurdKvCount(n) => "absurd metadata KV count "@ + numbers::decimal(n as nat)
                + " in GGUF header (cap "@ + numbers::decimal(MAX_METADATA_KV_COUNT as nat) + ")"@,
            GgufFault::AbsurdStringLength(n) => "absurd string length "@ + numbers::decimal(
                n as nat,
            ) + " in GGUF metadata"@,
            GgufFault::AbsurdArrayLength(n) => "absurd array length "@ + numbers::decimal(n as nat)
                + " in GGUF metadata"@,
            GgufFault::BudgetExceeded => "GGUF metadata exceeds "@ + numbers::decimal(
                MAX_METADATA_TOTAL_BYTES as nat,
            ) + "-byte cumulative cap"@,
            GgufFault::NonUtf8(e) => "non-UTF8 string in GGUF metadata: "@ + e,
            GgufFault::UnknownValueType(t) => "unknown GGUF value type "@ + numbers::decimal(
                t as nat,
            ),
            GgufFault::MissingKey(k) => "GGUF missing `"@ + k + "`"@,
        }
    }
}

impl GgufError {
    /// The message shown for the error.
    pub fn message(&self) -> (r: String)
        ensures
            r@ == self@.message(),
    {
        let mut out = String::new();
        match self {
            GgufError::UnsupportedFileType(p) => {
                out.append("Unsupported file type — only `.gguf` models are accepted (got ");
                out.append(p.as_str());
                out.append(")");
            },
            GgufError::FileNotFound(p) => {
                out.append("File not found: ");
                out.append(p.as_str());
            },
            GgufError::UnexpectedEof => {
                out.append("failed to fill whole buffer");
            },
            GgufError::BadMagic => {
                out.append(
                    "Not a valid GGUF file — header magic mismatch (file may be truncated or in a different format)",
                );
            },
            GgufError::UnsupportedVersion(v) => {
                out.append("unsupported GGUF version ");
                numbers::push_decimal(&mut out, *v as u64);
                out.append(" (Helmor reads v2 and v3)");
            },
            GgufError::AbsurdKvCount(n) => {
                out.append("absurd metadata KV count ");
                numbers::push_decimal(&mut out, *n);
                out.append(" in GGUF header (cap ");
                numbers::push_decimal(&mut out, MAX_METADATA_KV_COUNT);
                out.append(")");
            },
            GgufError::AbsurdStringLength(n) => {
                out.append("absurd string length ");
                numbers::push_decimal(&mut out, *n);
                out.append(" in GGUF metadata");
            },
            GgufError::AbsurdArrayLength(n) => {
                out.append("absurd array length ");
                numbers::push_decimal(&mut out, *n);
                out.append(" in GGUF metadata");
            },
            GgufError::BudgetExceeded => {
                out.append("GGUF metadata exceeds ");
                numbers::push_decimal(&mut out, MAX_METADATA_TOTAL_BYTES);
                out.append("-byte cumulative cap");
            },
            GgufError::NonUtf8(e) => {
                out.append("non-UTF8 string in GGUF metadata: ");
                out.append(e.as_str());
            },
            GgufError::UnknownValueType(t) => {
                out.append("unknown GGUF value type ");
                numbers::push_decimal(&mut out, *t as u64);
            },
            GgufError::MissingKey(k) => {
                out.append("GGUF missing `");
                out.append(k.as_str());
                out.append("`");
            },
        }
        assert(out@ =~= self@.message());
        out
    }
}

// ---------------------------------------------------------------------------
// Metadata
// ---------------------------------------------------------------------------

/// The metadata that drives the context-window estimates.
pub struct ModelMetadata {
    /// `general.architecture`, the prefix of the other keys.
    pub architecture: String,
    /// `general.name`, often missing.
    pub name: Option<String>,
    /// `<arch>.context_length`, the trained context window.
    pub context_length: u32,
    /// `<arch>.block_count`, the number of transformer blocks.
    pub block_count: u32,
    /// `<arch>.embedding_length`, the hidden size.
    pub embedding_length: u32,
    /// `<arch>.attention.head_count`, the query heads.
    pub head_count: u32,
    /// `<arch>.attention.head_count_kv`, the key and value heads; where the file gives
    /// none, the query heads.
    pub kv_head_count: u32,
}

/// What the metadata says.
#[verifier::ext_equal]
pub struct ModelMetadataView {
    pub architecture: Seq<char>,
    pub name: Option<Seq<char>>,
    pub context_length: u32,
    pub block_count: u32,
    pub embedding_length: u32,
    pub head_count: u32,
    pub kv_head_count: u32,
}

impl View for ModelMetadata {
    type V = ModelMetadataView;

    open spec fn view(&self) -> ModelMetadataView {
        ModelMetadataView {
            architecture: self.architecture@,
            name: text::opt_text(self.name),
            context_length: self.context_length,
            block_count: self.block_count,
            embedding_length: self.embedding_length,
            head_count: self.head_count,
            kv_head_count: self.kv_head_count,
        }
    }
}

/// Bytes of 16-bit key and value cache per token: two tensors of two-byte numbers for
/// each of the heads, in each of the blocks.
pub open spec fn kv_bytes(m: ModelMetadataView) -> int {
    if m.head_count == 0 {
        0
    } else {
        let head_dim = m.embedding_length as int / m.head_count as int;
        let kv_heads = if m.kv_head_count == 0 {
            1
        } else {
            m.kv_head_count as int
        };
        4 * (kv_heads * head_dim * m.block_count)
    }
}

proof fn lemma_cap_mul(a: int, b: int, c: int, cap: int)
    requires
        0 <= a,
        0 <= b,
        0 <= c,
        0 < cap,
    ensures
        ({
            let ab = if a * b > cap {
                cap
            } else {
                a * b
            };
            (if ab * c > cap {
                cap
            } else {
                ab * c
            }) == (if a * b * c > cap {
                cap
            } else {
                a * b * c
            })
        }),
{
    if a * b > cap {
        if c == 0 {
            assert(cap * c == 0) by (nonlinear_arith)
                requires
                    c == 0,
            ;
            assert(a * b * c == 0) by (nonlinear_arith)
                requires
                    c == 0,
            ;
        } else {
            assert(cap * c >= cap) by (nonlinear_arith)
                requires
                    c >= 1,
                    cap > 0,
            ;
            assert(a * b * c >= a * b) by (nonlinear_arith)
                requires
                    c >= 1,
                    a * b > 0,
            ;
        }
    }
}

/// The product, or the largest `u32` where that is less.
fn capped_product(a: u32, b: u32) -> (r: u32)
    ensures
        r == (if a * b > u32::MAX {
            u32::MAX as int
        } else {
            a * b
        }),
{
    assert(0 <= a * b <= 0xffff_ffff * 0xffff_ffff) by (nonlinear_arith)
        requires
            0 <= a <= 0xffff_ffff,
            0 <= b <= 0xffff_ffff,
    ;
    let wide: u64 = a as u64 * b as u64;
    if wide > u32::MAX as u64 {
        u32::MAX
    } else {
        wide as u32
    }
}

impl ModelMetadata {
    /// Bytes of 16-bit key and value cache per token, as far as a `u32` can say.
    pub fn kv_bytes_per_token(&self) -> (r: u32)
        ensures
            r == (if kv_bytes(self@) > u32::MAX {
                u32::MAX as int
            } else {
                kv_bytes(self@)
            }),
    {
        if self.head_count == 0 {
            return 0;
        }
        let head_dim: u32 = self.embedding_length / self.head_count;
        let kv_heads: u32 = if self.kv_head_count == 0 {
            1
        } else {
            self.kv_head_count
        };
        let per_block: u32 = capped_product(kv_heads, head_dim);
        let r: u32 = capped_product(capped_product(per_block, self.block_count), 4);
        proof {
            let a = kv_heads as int;
            let b = head_dim as int;
            let c = self.block_count as int;
            assert(a * b >= 0) by (nonlinear_arith)
                requires
                    a >= 0,
                    b >= 0,
            ;
            assert(a * b * c >= 0) by (nonlinear_arith)
                requires
                    a * b >= 0,
                    c >= 0,
            ;
            lemma_cap_mul(a, b, c, u32::MAX as int);
            lemma_cap_mul(a * b, c, 4, u32::MAX as int);
            assert(4 * (a * b * c) == a * b * c * 4) by (nonlinear_arith);
        }
        r
    }
}

/// One metadata value: integers and strings are kept, anything else is passed over.
pub enum MetaValue {
    U64(u64),
    Text(String),
    Other,
}

/// What a metadata value is.
pub enum MetaView {
    U64(u64),
    Text(Seq<char>),
    Other,
}

impl View for MetaValue {
    type V = MetaView;

    open spec fn view(&self) -> MetaView {
        match self {
            MetaValue::U64(v) => MetaView::U64(*v),
            MetaValue::Text(s) => MetaView::Text(s@),
            MetaValue::Other => MetaView::Other,
        }
    }
}

// ---------------------------------------------------------------------------
// Decoding
// ---------------------------------------------------------------------------

/// The little-endian number in `n` bytes from `pos` on.
pub open spec fn little_endian(b: Seq<u8>, pos: int, n: nat) -> nat
    decreases n,
{
    if n == 0 {
        0
    } else {
        b[pos] as nat + 256 * little_endian(b, pos + 1, (n - 1) as nat)
    }
}

/// How many values `n` bytes can hold.
pub open spec fn byte_values(n: nat) -> nat
    decreases n,
{
    if n == 0 {
        1
    } else {
        256 * byte_values((n - 1) as nat)
    }
}

proof fn lemma_little_endian_bound(b: Seq<u8>, pos: int, n: nat)
    ensures
        little_endian(b, pos, n) < byte_values(n),
    decreases n,
{
    if n > 0 {
        lemma_little_endian_bound(b, pos + 1, (n - 1) as nat);
    }
}

/// A piece of the stream that was read, with where reading goes on and how many string
/// bytes may still come.
pub type Read<T> = Result<(T, int, int), GgufFault>;

/// The string that stands at `pos`: its length, then its bytes.
pub open spec fn string_at(b: Seq<u8>, pos: int, budget: int) -> Read<Seq<char>> {
    if pos + 8 > b.len() {
        Err(GgufFault::UnexpectedEof)
    } else {
        let n = little_endian(b, pos, 8);
        let start = pos + 8;
        if n > MAX_STRING_BYTES {
            Err(GgufFault::AbsurdStringLength(n as u64))
        } else if n > budget {
            Err(GgufFault::BudgetExceeded)
        } else if start + n > b.len() {
            Err(GgufFault::UnexpectedEof)
        } else if !valid_utf8(b.subrange(start, start + n)) {
            Err(GgufFault::NonUtf8(utf8::utf8_complaint(b.subrange(start, start + n))))
        } else {
            Ok((decode_utf8(b.subrange(start, start + n)), start + n, budget - n))
        }
    }
}

/// How many bytes a value of a plain type takes. Strings and arrays are not plain.
pub open spec fn plain_size(ty: u32) -> Option<nat> {
    match ty {
        0 | 1 | 7 => Some(1),
        2 | 3 => Some(2),
        4 | 5 | 6 => Some(4),
        10 | 11 | 12 => Some(8),
        _ => None,
    }
}

/// The value that a plain type gives to its bits: unsigned integers as they are, signed
/// ones extended to 64 bits, floating point and truth values passed over.
pub open spec fn plain_value(ty: u32, bits: nat) -> MetaView {
    match ty {
        0 | 2 | 4 | 10 | 11 => MetaView::U64(bits as u64),
        1 => MetaView::U64(
            (if bits >= 0x80 {
                bits + 0xffff_ffff_ffff_ff00
            } else {
                bits
            }) as u64,
        ),
        3 => MetaView::U64(
            (if bits >= 0x8000 {
                bits + 0xffff_ffff_ffff_0000
            } else {
                bits
            }) as u64,
        ),
        5 => MetaView::U64(
            (if bits >= 0x8000_0000 {
                bits + 0xffff_ffff_0000_0000
            } else {
                bits
            }) as u64,
        ),
        _ => MetaView::Other,
    }
}

/// The value of the given type that stands at `pos`.
pub open spec fn value_at(b: Seq<u8>, pos: int, ty: u32, budget: int) -> Read<MetaView>
    decreases b.len() - pos, 0int,
{
    match plain_size(ty) {
        Some(n) => if pos + n > b.len() {
            Err(GgufFault::UnexpectedEof)
        } else {
            Ok((plain_value(ty, little_endian(b, pos, n)), pos + n, budget))
        },
        None => if ty == 8 {
            match string_at(b, pos, budget) {
                Ok((s, p, left)) => Ok((MetaView::Text(s), p, left)),
                Err(e) => Err(e),
            }
        } else if ty == 9 {
            if pos + 12 > b.len() {
                Err(GgufFault::UnexpectedEof)
            } else {
                let inner = little_endian(b, pos, 4) as u32;
                let n = little_endian(b, pos + 4, 8);
                if n > MAX_ARRAY_LEN {
                    Err(GgufFault::AbsurdArrayLength(n as u64))
                } else {
                    match items_at(b, pos + 12, inner, n, budget) {
                        Ok((_, p, left)) => Ok((MetaView::Other, p, left)),
                        Err(e) => Err(e),
                    }
                }
            }
        } else {
            Err(GgufFault::UnknownValueType(ty))
        },
    }
}

/// Passing over `n` values of one type from `pos` on. Each of them takes at least one
/// byte.
pub open spec fn items_at(b: Seq<u8>, pos: int, ty: u32, n: nat, budget: int) -> Read<()>
    decreases b.len() - pos, 1int,
{
    if n == 0 {
        Ok(((), pos, budget))
    } else {
        match value_at(b, pos, ty, budget) {
            Ok((_, p, left)) => if pos < p <= b.len() {
                items_at(b, p, ty, (n - 1) as nat, left)
            } else {
                Err(GgufFault::UnexpectedEof)
            },
            Err(e) => Err(e),
        }
    }
}

/// The `n` key-value pairs from `pos` on.
pub open spec fn pairs_at(b: Seq<u8>, pos: int, n: nat, budget: int) -> Result<
    Seq<(Seq<char>, MetaView)>,
    GgufFault,
>
    decreases n,
{
    if n == 0 {
        Ok(seq![])
    } else {
        match string_at(b, pos, budget) {
            Err(e) => Err(e),
            Ok((key, p, left)) => if p + 4 > b.len() {
                Err(GgufFault::UnexpectedEof)
            } else {
                match value_at(b, p + 4, little_endian(b, p, 4) as u32, left) {
                    Err(e) => Err(e),
                    Ok((value, q, rest)) => with_first(
                        (key, value),
                        pairs_at(b, q, (n - 1) as nat, rest),
                    ),
                }
            },
        }
    }
}

/// A pair before the pairs that follow it.
pub open spec fn with_first(
    pair: (Seq<char>, MetaView),
    rest: Result<Seq<(Seq<char>, MetaView)>, GgufFault>,
) -> Result<Seq<(Seq<char>, MetaView)>, GgufFault> {
    match rest {
        Ok(r) => Ok(seq![pair] + r),
        Err(e) => Err(e),
    }
}

/// The value of a key. Where it occurs more than once, the last one counts.
pub open spec fn lookup(pairs: Seq<(Seq<char>, MetaView)>, key: Seq<char>) -> Option<MetaView>
    decreases pairs.len(),
{
    if pairs.len() == 0 {
        None
    } else if pairs.last().0 == key {
        Some(pairs.last().1)
    } else {
        lookup(pairs.drop_last(), key)
    }
}

/// The string value of a key.
pub open spec fn lookup_text(pairs: Seq<(Seq<char>, MetaView)>, key: Seq<char>) -> Option<
    Seq<char>,
> {
    match lookup(pairs, key) {
        Some(MetaView::Text(s)) => Some(s),
        _ => None,
    }
}

/// The integer value of a key, if it fits 32 bits.
pub open spec fn lookup_u32(pairs: Seq<(Seq<char>, MetaView)>, key: Seq<char>) -> Option<u32> {
    match lookup(pairs, key) {
        Some(MetaView::U64(v)) => if v <= u32::MAX {
            Some(v as u32)
        } else {
            None
        },
        _ => None,
    }
}

/// A key under the architecture's name.
pub open spec fn arch_key(arch: Seq<char>, suffix: Seq<char>) -> Seq<char> {
    arch + "."@ + suffix
}

/// The metadata that the pairs give.
pub open spec fn metadata_of(pairs: Seq<(Seq<char>, MetaView)>) -> Result<
    ModelMetadataView,
    GgufFault,
> {
    match lookup_text(pairs, "general.architecture"@) {
        None => Err(GgufFault::MissingKey("general.architecture"@)),
        Some(arch) => match lookup_u32(pairs, arch_key(arch, "context_length"@)) {
            None => Err(GgufFault::MissingKey(arch_key(arch, "context_length"@))),
            Some(context_length) => match lookup_u32(pairs, arch_key(arch, "block_count"@)) {
                None => Err(GgufFault::MissingKey(arch_key(arch, "block_count"@))),
                Some(block_count) => match lookup_u32(pairs, arch_key(arch, "embedding_length"@)) {
                    None => Err(GgufFault::MissingKey(arch_key(arch, "embedding_length"@))),
                    Some(embedding_length) => match lookup_u32(
                        pairs,
                        arch_key(arch, "attention.head_count"@),
                    ) {
                        None => Err(GgufFault::MissingKey(arch_key(arch, "attention.head_count"@))),
                        Some(head_count) => Ok(
                            ModelMetadataView {
                                architecture: arch,
                                name: lookup_text(pairs, "general.name"@),
                                context_length,
                                block_count,
                                embedding_length,
                                head_count,
                                kv_head_count: match lookup_u32(
                                    pairs,
                                    arch_key(arch, "attention.head_count_kv"@),
                                ) {
                                    Some(n) => n,
                                    None => head_count,
                                },
                            },
                        ),
                    },
                },
            },
        },
    }
}

/// The metadata of a GGUF file with the given bytes.
pub open spec fn metadata_in(b: Seq<u8>) -> Result<ModelMetadataView, GgufFault> {
    if b.len() < 4 {
        Err(GgufFault::UnexpectedEof)
    } else if little_endian(b, 0, 4) != GGUF_MAGIC {
        Err(GgufFault::BadMagic)
    } else if b.len() < 8 {
        Err(GgufFault::UnexpectedEof)
    } else if !(2 <= little_endian(b, 4, 4) <= 3) {
        Err(GgufFault::UnsupportedVersion(little_endian(b, 4, 4) as u32))
    } else if b.len() < 24 {
        Err(GgufFault::UnexpectedEof)
    } else if little_endian(b, 16, 8) > MAX_METADATA_KV_COUNT {
        Err(GgufFault::AbsurdKvCount(little_endian(b, 16, 8) as u64))
    } else {
        match pairs_at(b, 24, little_endian(b, 16, 8), MAX_METADATA_TOTAL_BYTES as int) {
            Ok(pairs) => metadata_of(pairs),
            Err(e) => Err(e),
        }
    }
}

/// The metadata of the file at `path`, whose bytes are given if it is a regular file.
pub open spec fn metadata_at(path: Seq<char>, content: Option<Seq<u8>>) -> Result<
    ModelMetadataView,
    GgufFault,
> {
    let named_gguf = match paths::extension_of(path) {
        Some(ext) => numbers::same_ignoring_case(ext, "gguf"@),
        None => false,
    };
    if !named_gguf {
        Err(GgufFault::UnsupportedFileType(path))
    } else {
        match content {
            None => Err(GgufFault::FileNotFound(path)),
            Some(b) => metadata_in(b),
        }
    }
}

// ---------------------------------------------------------------------------
// Reading
// ---------------------------------------------------------------------------

/// Where reading stands and how many string bytes may still come.
struct Cursor {
    pos: usize,
    budget: u64,
}

/// The little-endian number in `n` bytes from `pos` on.
fn number_at(b: &[u8], pos: usize, n: usize) -> (r: u64)
    requires
        n <= 8,
        pos + n <= b@.len(),
    ensures
        r == little_endian(b@, pos as int, n as nat),
        r < byte_values(n as nat),
{
    let mut v: u64 = 0;
    let mut k: usize = n;
    while k > 0
        invariant
            k <= n <= 8,
            pos + n <= b.len(),
            v == little_endian(b@, pos + k, (n - k) as nat),
        decreases k,
    {
        proof {
            lemma_little_endian_bound(b@, pos + k, (n - k) as nat);
            lemma_byte_values((n - k) as nat);
        }
        k -= 1;
        v = v * 256 + b[pos + k] as u64;
    }
    proof {
        lemma_little_endian_bound(b@, pos as int, n as nat);
    }
    v
}

proof fn lemma_byte_values(n: nat)
    ensures
        n == 1 ==> byte_values(n) == 0x100,
        n == 2 ==> byte_values(n) == 0x1_0000,
        n == 4 ==> byte_values(n) == 0x1_0000_0000,
        n <= 7 ==> byte_values(n) <= 0x100_0000_0000_0000,
        n <= 8 ==> byte_values(n) <= 0x1_0000_0000_0000_0000,
        n == 8 ==> byte_values(n) == 0x1_0000_0000_0000_0000,
{
    reveal_with_fuel(byte_values, 9);
}

/// The value that a plain type gives to its bits.
fn plain_meta(ty: u32, bits: u64) -> (r: MetaValue)
    requires
        plain_size(ty) is Some,
        bits < byte_values(plain_size(ty)->0),
    ensures
        r@ == plain_value(ty, bits as nat),
{
    proof {
        lemma_byte_values(plain_size(ty)->0);
    }
    match ty {
        0 | 2 | 4 | 10 | 11 => MetaValue::U64(bits),
        1 => if bits >= 0x80 {
            MetaValue::U64(bits + 0xffff_ffff_ffff_ff00)
        } else {
            MetaValue::U64(bits)
        },
        3 => if bits >= 0x8000 {
            MetaValue::U64(bits + 0xffff_ffff_ffff_0000)
        } else {
            MetaValue::U64(bits)
        },
        5 => if bits >= 0x8000_0000 {
            MetaValue::U64(bits + 0xffff_ffff_0000_0000)
        } else {
            MetaValue::U64(bits)
        },
        _ => MetaValue::Other,
    }
}

/// Reads a string.
fn read_string(b: &[u8], at: &mut Cursor) -> (r: Result<String, GgufError>)
    requires
        old(at).pos <= b@.len(),
    ensures
        match r {
            Ok(s) => string_at(b@, old(at).pos as int, old(at).budget as int) == Ok::<_, GgufFault>(
                (s@, final(at).pos as int, final(at).budget as int),
            ) && old(at).pos < final(at).pos <= b@.len(),
            Err(e) => string_at(b@, old(at).pos as int, old(at).budget as int) == Err::<
                (Seq<char>, int, int),
                _,
            >(e@),
        },
{
    if b.len() - at.pos < 8 {
        return Err(GgufError::UnexpectedEof);
    }
    let n: u64 = number_at(b, at.pos, 8);
    if n > MAX_STRING_BYTES {
        return Err(GgufError::AbsurdStringLength(n));
    }
    if n > at.budget {
        return Err(GgufError::BudgetExceeded);
    }
    let start: usize = at.pos + 8;
    if ((b.len() - start) as u64) < n {
        return Err(GgufError::UnexpectedEof);
    }
    let end: usize = start + n as usize;
    let bytes = slice_to_vec(slice_subrange(b, start, end));
    assert(bytes@ =~= b@.subrange(start as int, end as int));
    match utf8::text_from_utf8(bytes) {
        Ok(s) => {
            at.pos = end;
            at.budget = at.budget - n;
            Ok(s)
        },
        Err(e) => Err(GgufError::NonUtf8(e)),
    }
}

/// Reads a value of the given type.
fn read_value_typed(b: &[u8], ty: u32, at: &mut Cursor) -> (r: Result<MetaValue, GgufError>)
    requires
        old(at).pos <= b@.len(),
    ensures
        match r {
            Ok(v) => value_at(b@, old(at).pos as int, ty, old(at).budget as int) == Ok::<
                _,
                GgufFault,
            >((v@, final(at).pos as int, final(at).budget as int)) && old(at).pos < final(at).pos
                <= b@.len(),
            Err(e) => value_at(b@, old(at).pos as int, ty, old(at).budget as int) == Err::<
                (MetaView, int, int),
                _,
            >(e@),
        },
    decreases b@.len() - old(at).pos,
{
    let size: usize = match ty {
        0 | 1 | 7 => 1,
        2 | 3 => 2,
        4 | 5 | 6 => 4,
        10 | 11 | 12 => 8,
        _ => 0,
    };
    if size > 0 {
        if b.len() - at.pos < size {
            return Err(GgufError::UnexpectedEof);
        }
        let bits: u64 = number_at(b, at.pos, size);
        at.pos = at.pos + size;
        return Ok(plain_meta(ty, bits));
    }
    if ty == 8 {
        return match read_string(b, at) {
            Ok(s) => Ok(MetaValue::Text(s)),
            Err(e) => Err(e),
        };
    }
    if ty != 9 {
        return Err(GgufError::UnknownValueType(ty));
    }
    if b.len() - at.pos < 12 {
        return Err(GgufError::UnexpectedEof);
    }
    proof {
        lemma_byte_values(4);
    }
    let inner: u32 = number_at(b, at.pos, 4) as u32;
    let n: u64 = number_at(b, at.pos + 4, 8);
    if n > MAX_ARRAY_LEN {
        return Err(GgufError::AbsurdArrayLength(n));
    }
    let ghost start = at.pos + 12;
    let ghost budget = at.budget as int;
    at.pos = at.pos + 12;
    let mut left: u64 = n;
    while left > 0
        invariant
            start == old(at).pos + 12,
            start <= at.pos <= b@.len(),
            left <= n,
            items_at(b@, start, inner, n as nat, budget) == items_at(
                b@,
                at.pos as int,
                inner,
                left as nat,
                at.budget as int,
            ),
            plain_size(ty) is None,
            ty == 9,
            n <= MAX_ARRAY_LEN,
            n == little_endian(b@, old(at).pos + 4, 8),
            inner == little_endian(b@, old(at).pos as int, 4),
            budget == old(at).budget,
        decreases left,
    {
        match read_value_typed(b, inner, at) {
            Ok(_) => {},
            Err(e) => {
                return Err(e);
            },
        }
        left -= 1;
    }
    Ok(MetaValue::Other)
}

/// The value of a key; the last one where it occurs more than once.
fn find_value<'a>(pairs: &'a Vec<(String, MetaValue)>, key: &str) -> (r: Option<&'a MetaValue>)
    ensures
        match r {
            Some(v) => lookup(pair_views(pairs@), key@) == Some(v@),
            None => lookup(pair_views(pairs@), key@) is None,
        },
{
    let ghost all = pair_views(pairs@);
    let mut i: usize = pairs.len();
    assert(all.take(i as int) =~= all);
    while i > 0
        invariant
            i <= pairs@.len(),
            all == pair_views(pairs@),
            lookup(all, key@) == lookup(all.take(i as int), key@),
        decreases i,
    {
        assert(all.take(i as int).last() == all[i - 1]);
        assert(all.take(i as int).drop_last() =~= all.take(i - 1));
        if text::same(pairs[i - 1].0.as_str(), key) {
            return Some(&pairs[i - 1].1);
        }
        i -= 1;
    }
    None
}

/// What the pairs are.
pub open spec fn pair_views(pairs: Seq<(String, MetaValue)>) -> Seq<(Seq<char>, MetaView)> {
    Seq::new(pairs.len(), |i: int| (pairs[i].0@, pairs[i].1@))
}

fn find_text(pairs: &Vec<(String, MetaValue)>, key: &str) -> (r: Option<String>)
    ensures
        text::opt_text(r) == lookup_text(pair_views(pairs@), key@),
{
    match find_value(pairs, key) {
        Some(MetaValue::Text(s)) => Some(s.clone()),
        _ => None,
    }
}

fn find_u32(pairs: &Vec<(String, MetaValue)>, key: &str) -> (r: Option<u32>)
    ensures
        r == lookup_u32(pair_views(pairs@), key@),
{
    match find_value(pairs, key) {
        Some(MetaValue::U64(v)) => if *v <= u32::MAX as u64 {
            Some(*v as u32)
        } else {
            None
        },
        _ => None,
    }
}

fn key_under(arch: &str, suffix: &str) -> (r: String)
    ensures
        r@ == arch_key(arch@, suffix@),
{
    let mut out = arch.to_string();
    out.append(".");
    out.append(suffix);
    out
}

/// The metadata that the pairs give.
pub fn metadata_from_pairs(pairs: &Vec<(String, MetaValue)>) -> (r: Result<
    ModelMetadata,
    GgufError,
>)
    ensures
        match r {
            Ok(m) => metadata_of(pair_views(pairs@)) == Ok::<_, GgufFault>(m@),
            Err(e) => metadata_of(pair_views(pairs@)) == Err::<ModelMetadataView, _>(e@),
        },
{
    let architecture = match find_text(pairs, "general.architecture") {
        Some(a) => a,
        None => {
            return Err(GgufError::MissingKey("general.architecture".to_string()));
        },
    };
    let name = find_text(pairs, "general.name");
    let key = key_under(architecture.as_str(), "context_length");
    let context_length: u32 = match find_u32(pairs, key.as_str()) {
        Some(v) => v,
        None => {
            return Err(GgufError::MissingKey(key));
        },
    };
    let key = key_under(architecture.as_str(), "block_count");
    let block_count: u32 = match find_u32(pairs, key.as_str()) {
        Some(v) => v,
        None => {
            return Err(GgufError::MissingKey(key));
        },
    };
    let key = key_under(architecture.as_str(), "embedding_length");
    let embedding_length: u32 = match find_u32(pairs, key.as_str()) {
        Some(v) => v,
        None => {
            return Err(GgufError::MissingKey(key));
        },
    };
    let key = key_under(architecture.as_str(), "attention.head_count");
    let head_count: u32 = match find_u32(pairs, key.as_str()) {
        Some(v) => v,
        None => {
            return Err(GgufError::MissingKey(key));
        },
    };
    let key = key_under(architecture.as_str(), "attention.head_count_kv");
    let kv_head_count: u32 = match find_u32(pairs, key.as_str()) {
        Some(v) => v,
        None => head_count,
    };
    Ok(
        ModelMetadata {
            architecture,
            name,
            context_length,
            block_count,
            embedding_length,
            head_count,
            kv_head_count,
        },
    )
}

/// Pairs that were read before those that follow.
spec fn after_pairs(
    seen: Seq<(Seq<char>, MetaView)>,
    rest: Result<Seq<(Seq<char>, MetaView)>, GgufFault>,
) -> Result<Seq<(Seq<char>, MetaView)>, GgufFault> {
    match rest {
        Ok(r) => Ok(seen + r),
        Err(e) => Err(e),
    }
}

/// Reads the key-value pairs.
fn read_pairs(b: &[u8], start: usize, count: u64) -> (r: Result<
    Vec<(String, MetaValue)>,
    GgufError,
>)
    requires
        start <= b@.len(),
    ensures
        match r {
            Ok(v) => pairs_at(b@, start as int, count as nat, MAX_METADATA_TOTAL_BYTES as int)
                == Ok::<_, GgufFault>(pair_views(v@)),
            Err(e) => pairs_at(b@, start as int, count as nat, MAX_METADATA_TOTAL_BYTES as int)
                == Err::<Seq<(Seq<char>, MetaView)>, _>(e@),
        },
{
    let mut at = Cursor { pos: start, budget: MAX_METADATA_TOTAL_BYTES };
    let mut out: Vec<(String, MetaValue)> = Vec::new();
    let mut left: u64 = count;
    let ghost whole = pairs_at(b@, start as int, count as nat, MAX_METADATA_TOTAL_BYTES as int);
    proof {
        assert(pair_views(out@) =~= seq![]);
        if whole is Ok {
            assert(pair_views(out@) + whole->Ok_0 =~= whole->Ok_0);
        }
    }
    while left > 0
        invariant
            at.pos <= b@.len(),
            left <= count,
            whole == pairs_at(b@, start as int, count as nat, MAX_METADATA_TOTAL_BYTES as int),
            whole == after_pairs(
                pair_views(out@),
                pairs_at(b@, at.pos as int, left as nat, at.budget as int),
            ),
        decreases left,
    {
        let ghost rest = pairs_at(b@, at.pos as int, left as nat, at.budget as int);
        let key = match read_string(b, &mut at) {
            Ok(k) => k,
            Err(e) => {
                return Err(e);
            },
        };
        if b.len() - at.pos < 4 {
            return Err(GgufError::UnexpectedEof);
        }
        proof {
            lemma_byte_values(4);
        }
        let ty: u32 = number_at(b, at.pos, 4) as u32;
        at.pos = at.pos + 4;
        let value = match read_value_typed(b, ty, &mut at) {
            Ok(v) => v,
            Err(e) => {
                return Err(e);
            },
        };
        let ghost seen = pair_views(out@);
        let ghost pair = (key@, value@);
        out.push((key, value));
        left -= 1;
        proof {
            let next = pairs_at(b@, at.pos as int, left as nat, at.budget as int);
            assert(rest == with_first(pair, next));
            assert(pair_views(out@) =~= seen.push(pair));
            if next is Ok {
                assert(seen + (seq![pair] + next->Ok_0) =~= pair_views(out@) + next->Ok_0);
            }
        }
    }
    proof {
        assert(pair_views(out@) + Seq::<(Seq<char>, MetaView)>::empty() =~= pair_views(out@));
    }
    Ok(out)
}

/// The metadata of a GGUF file with the given bytes.
pub fn parse_metadata(b: &[u8]) -> (r: Result<ModelMetadata, GgufError>)
    ensures
        match r {
            Ok(m) => metadata_in(b@) == Ok::<_, GgufFault>(m@),
            Err(e) => metadata_in(b@) == Err::<ModelMetadataView, _>(e@),
        },
{
    proof {
        lemma_byte_values(4);
    }
    if b.len() < 4 {
        return Err(GgufError::UnexpectedEof);
    }
    if number_at(b, 0, 4) as u32 != GGUF_MAGIC {
        return Err(GgufError::BadMagic);
    }
    if b.len() < 8 {
        return Err(GgufError::UnexpectedEof);
    }
    let version: u32 = number_at(b, 4, 4) as u32;
    if version < 2 || version > 3 {
        return Err(GgufError::UnsupportedVersion(version));
    }
    if b.len() < 24 {
        return Err(GgufError::UnexpectedEof);
    }
    let count: u64 = number_at(b, 16, 8);
    if count > MAX_METADATA_KV_COUNT {
        return Err(GgufError::AbsurdKvCount(count));
    }
    match read_pairs(b, 24, count) {
        Ok(pairs) => metadata_from_pairs(&pairs),
        Err(e) => Err(e),
    }
}

/// The metadata of the file at `path`. `content` holds the file's bytes, or as many from
/// its beginning as hold the metadata; it is `None` where there is no regular file.
pub fn read_metadata(path: &str, content: Option<&[u8]>) -> (r: Result<ModelMetadata, GgufError>)
    ensures
        ({
            let bytes = match content {
                Some(b) => Some(b@),
                None => None,
            };
            match r {
                Ok(m) => metadata_at(path@, bytes) == Ok::<_, GgufFault>(m@),
                Err(e) => metadata_at(path@, bytes) == Err::<ModelMetadataView, _>(e@),
            }
        }),
{
    let named_gguf = match paths::extension(path) {
        Some(ext) => numbers::equal_ignoring_case(ext.as_str(), "gguf"),
        None => false,
    };
    if !named_gguf {
        return Err(GgufError::UnsupportedFileType(path.to_string()));
    }
    match content {
        None => Err(GgufError::FileNotFound(path.to_string())),
        Some(b) => parse_metadata(b),
    }
}

// ---------------------------------------------------------------------------
// Laws
// ---------------------------------------------------------------------------

proof fn lemma_little_endian_prefix(b: Seq<u8>, more: Seq<u8>, pos: int, n: nat)
    requires
        0 <= pos,
        pos + n <= b.len(),
    ensures
        little_endian(b + more, pos, n) == little_endian(b, pos, n),
    decreases n,
{
    if n > 0 {
        lemma_little_endian_prefix(b, more, pos + 1, (n - 1) as nat);
    }
}

proof fn lemma_string_prefix(b: Seq<u8>, more: Seq<u8>, pos: int, budget: int)
    requires
        0 <= pos <= b.len(),
        !(string_at(b, pos, budget) matches Err(GgufFault::UnexpectedEof)),
    ensures
        string_at(b + more, pos, budget) == string_at(b, pos, budget),
        string_at(b, pos, budget) matches Ok((_, p, _)) ==> pos < p <= b.len(),
{
    lemma_little_endian_prefix(b, more, pos, 8);
    let n = little_endian(b, pos, 8);
    if n <= MAX_STRING_BYTES && n <= budget {
        assert((b + more).subrange(pos + 8, pos + 8 + n) =~= b.subrange(pos + 8, pos + 8 + n));
    }
}

proof fn lemma_value_prefix(b: Seq<u8>, more: Seq<u8>, pos: int, ty: u32, budget: int)
    requires
        0 <= pos <= b.len(),
        !(value_at(b, pos, ty, budget) matches Err(GgufFault::UnexpectedEof)),
    ensures
        value_at(b + more, pos, ty, budget) == value_at(b, pos, ty, budget),
        value_at(b, pos, ty, budget) matches Ok((_, p, _)) ==> pos < p <= b.len(),
    decreases b.len() - pos, 0int,
{
    match plain_size(ty) {
        Some(n) => {
            lemma_little_endian_prefix(b, more, pos, n);
        },
        None => {
            if ty == 8 {
                lemma_string_prefix(b, more, pos, budget);
            } else if ty == 9 {
                lemma_little_endian_prefix(b, more, pos, 4);
                lemma_little_endian_prefix(b, more, pos + 4, 8);
                let n = little_endian(b, pos + 4, 8);
                if n <= MAX_ARRAY_LEN {
                    lemma_items_prefix(
                        b,
                        more,
                        pos + 12,
                        little_endian(b, pos, 4) as u32,
                        n,
                        budget,
                    );
                }
            }
        },
    }
}

proof fn lemma_items_prefix(b: Seq<u8>, more: Seq<u8>, pos: int, ty: u32, n: nat, budget: int)
    requires
        0 <= pos <= b.len(),
        !(items_at(b, pos, ty, n, budget) matches Err(GgufFault::UnexpectedEof)),
    ensures
        items_at(b + more, pos, ty, n, budget) == items_at(b, pos, ty, n, budget),
        items_at(b, pos, ty, n, budget) matches Ok((_, p, _)) ==> pos <= p <= b.len(),
    decreases b.len() - pos, 1int,
{
    if n > 0 {
        lemma_value_prefix(b, more, pos, ty, budget);
        match value_at(b, pos, ty, budget) {
            Ok((_, p, left)) => {
                lemma_items_prefix(b, more, p, ty, (n - 1) as nat, left);
            },
            Err(_) => {},
        }
    }
}

proof fn lemma_pairs_prefix(b: Seq<u8>, more: Seq<u8>, pos: int, n: nat, budget: int)
    requires
        0 <= pos <= b.len(),
        !(pairs_at(b, pos, n, budget) matches Err(GgufFault::UnexpectedEof)),
    ensures
        pairs_at(b + more, pos, n, budget) == pairs_at(b, pos, n, budget),
    decreases n,
{
    if n > 0 {
        lemma_string_prefix(b, more, pos, budget);
        match string_at(b, pos, budget) {
            Ok((key, p, left)) => {
                lemma_little_endian_prefix(b, more, p, 4);
                let ty = little_endian(b, p, 4) as u32;
                lemma_value_prefix(b, more, p + 4, ty, left);
                match value_at(b, p + 4, ty, left) {
                    Ok((value, q, rest)) => {
                        lemma_pairs_prefix(b, more, q, (n - 1) as nat, rest);
                    },
                    Err(_) => {},
                }
            },
            Err(_) => {},
        }
    }
}

/// Reading looks at no byte behind the metadata: unless the bytes give out while it is
/// read, more bytes at the end change neither the metadata nor the error.
pub proof fn law_longer_file_reads_the_same(b: Seq<u8>, more: Seq<u8>)
    requires
        !(metadata_in(b) matches Err(GgufFault::UnexpectedEof)),
    ensures
        metadata_in(b + more) == metadata_in(b),
{
    lemma_little_endian_prefix(b, more, 0, 4);
    if little_endian(b, 0, 4) == GGUF_MAGIC {
        lemma_little_endian_prefix(b, more, 4, 4);
        if 2 <= little_endian(b, 4, 4) <= 3 {
            lemma_little_endian_prefix(b, more, 16, 8);
            let n = little_endian(b, 16, 8);
            if n <= MAX_METADATA_KV_COUNT {
                lemma_pairs_prefix(b, more, 24, n, MAX_METADATA_TOTAL_BYTES as int);
            }
        }
    }
}

/// Every value takes at least one byte, so no array of values is longer than the bytes
/// that hold it.
pub proof fn law_values_take_bytes(b: Seq<u8>, pos: int, ty: u32, n: nat, budget: int)
    requires
        0 <= pos <= b.len(),
    ensures
        value_at(b, pos, ty, budget) matches Ok((_, p, _)) ==> pos < p <= b.len(),
        items_at(b, pos, ty, n, budget) matches Ok((_, p, _)) ==> pos + n <= p <= b.len(),
    decreases n,
{
    if value_at(b, pos, ty, budget) is Ok {
        lemma_value_prefix(b, Seq::empty(), pos, ty, budget);
    }
    if n > 0 {
        match value_at(b, pos, ty, budget) {
            Ok((_, p, left)) => {
                law_values_take_bytes(b, p, ty, (n - 1) as nat, left);
            },
            Err(_) => {},
        }
    }
}

// ---------------------------------------------------------------------------
// Writing, for the law that reading takes it back
// ---------------------------------------------------------------------------

/// The number that bytes write, the lowest first.
pub open spec fn number_of(bytes: Seq<u8>) -> nat
    decreases bytes.len(),
{
    if bytes.len() == 0 {
        0
    } else {
        number_of(bytes.drop_last()) + bytes.last() as nat * power_of_256((bytes.len() - 1) as nat)
    }
}

/// A power of 256.
pub open spec fn power_of_256(n: nat) -> nat
    decreases n,
{
    if n == 0 {
        1
    } else {
        power_of_256((n - 1) as nat) * 256
    }
}

/// A number in so many bytes, the lowest first.
pub open spec fn number_bytes(v: nat, n: nat) -> Seq<u8>
    decreases n,
{
    if n == 0 {
        seq![]
    } else {
        seq![(v % 256) as u8] + number_bytes(v / 256, (n - 1) as nat)
    }
}

/// A metadata value as a GGUF file writes it.
pub enum Written {
    /// A number or a truth value of one of the plain types, in its bytes.
    Plain { ty: u32, bytes: Seq<u8> },
    Text { text: Seq<char> },
    /// Values of one type.
    List { inner: u32, items: Seq<Written> },
}

/// The format gives values of the plain type so many bytes: one to 8-bit integers and truth
/// values, two to 16-bit integers, four to 32-bit integers and floats, eight to 64-bit ones.
pub open spec fn takes(ty: u32, n: nat) -> bool {
    ||| n == 1 && (ty == 0 || ty == 1 || ty == 7)
    ||| n == 2 && (ty == 2 || ty == 3)
    ||| n == 4 && (ty == 4 || ty == 5 || ty == 6)
    ||| n == 8 && (ty == 10 || ty == 11 || ty == 12)
}

/// The type of a value: strings have type 8, arrays type 9.
pub open spec fn type_of(v: Written) -> u32 {
    match v {
        Written::Plain { ty, .. } => ty,
        Written::Text { .. } => 8,
        Written::List { .. } => 9,
    }
}

/// A string as it is written: its length, then its bytes.
pub open spec fn text_bytes(s: Seq<char>) -> Seq<u8> {
    number_bytes(encode_utf8(s).len(), 8) + encode_utf8(s)
}

/// A value as it is written. An array has the type of its items and their number before them.
pub open spec fn value_bytes(v: Written) -> Seq<u8>
    decreases v,
{
    match v {
        Written::Plain { bytes, .. } => bytes,
        Written::Text { text } => text_bytes(text),
        Written::List { inner, items } => number_bytes(inner as nat, 4) + number_bytes(
            items.len(),
            8,
        ) + items_bytes(items),
    }
}

/// Values one after the other.
pub open spec fn items_bytes(items: Seq<Written>) -> Seq<u8>
    decreases items,
{
    if items.len() == 0 {
        seq![]
    } else {
        value_bytes(items[0]) + items_bytes(items.subrange(1, items.len() as int))
    }
}

/// The bytes of the strings in a value.
pub open spec fn text_cost(v: Written) -> nat
    decreases v,
{
    match v {
        Written::Plain { .. } => 0,
        Written::Text { text } => encode_utf8(text).len(),
        Written::List { items, .. } => items_cost(items),
    }
}

/// The bytes of the strings in values.
pub open spec fn items_cost(items: Seq<Written>) -> nat
    decreases items,
{
    if items.len() == 0 {
        0
    } else {
        text_cost(items[0]) + items_cost(items.subrange(1, items.len() as int))
    }
}

/// The value is written as the format says, and no string and no array is too long.
pub open spec fn proper(v: Written) -> bool
    decreases v,
{
    match v {
        Written::Plain { ty, bytes } => takes(ty, bytes.len()),
        Written::Text { text } => encode_utf8(text).len() <= 67_108_864,
        Written::List { inner, items } => items.len() <= 1_048_576 && proper_items(inner, items),
    }
}

/// The values are of the type, and each is written as the format says.
pub open spec fn proper_items(ty: u32, items: Seq<Written>) -> bool
    decreases items,
{
    items.len() > 0 ==> type_of(items[0]) == ty && proper(items[0]) && proper_items(
        ty,
        items.subrange(1, items.len() as int),
    )
}

/// What a value says: unsigned integers are themselves, signed ones are extended to 64 bits,
/// strings are kept, and floats, truth values and arrays are passed over.
pub open spec fn meant(v: Written) -> MetaView {
    match v {
        Written::Plain { ty, bytes } => if ty == 0 || ty == 2 || ty == 4 || ty == 10 {
            MetaView::U64(number_of(bytes) as u64)
        } else if ty == 1 || ty == 3 || ty == 5 || ty == 11 {
            let all = power_of_256(bytes.len());
            if 2 * number_of(bytes) < all {
                MetaView::U64(number_of(bytes) as u64)
            } else {
                MetaView::U64((number_of(bytes) - all + 0x1_0000_0000_0000_0000) as u64)
            }
        } else {
            MetaView::Other
        },
        Written::Text { text } => MetaView::Text(text),
        Written::List { .. } => MetaView::Other,
    }
}

/// Keys and values as they are written.
pub open spec fn pairs_bytes(pairs: Seq<(Seq<char>, Written)>) -> Seq<u8>
    decreases pairs.len(),
{
    if pairs.len() == 0 {
        seq![]
    } else {
        text_bytes(pairs[0].0) + number_bytes(type_of(pairs[0].1) as nat, 4) + value_bytes(
            pairs[0].1,
        ) + pairs_bytes(pairs.drop_first())
    }
}

/// The bytes of all strings in the pairs.
pub open spec fn pairs_cost(pairs: Seq<(Seq<char>, Written)>) -> nat
    decreases pairs.len(),
{
    if pairs.len() == 0 {
        0
    } else {
        encode_utf8(pairs[0].0).len() + text_cost(pairs[0].1) + pairs_cost(pairs.drop_first())
    }
}

/// What the pairs say.
pub open spec fn meant_pairs(pairs: Seq<(Seq<char>, Written)>) -> Seq<(Seq<char>, MetaView)> {
    Seq::new(pairs.len(), |i: int| (pairs[i].0, meant(pairs[i].1)))
}

/// Pairs that a file can hold: written as the format says, and within the limits.
pub open spec fn proper_pairs(pairs: Seq<(Seq<char>, Written)>) -> bool {
    &&& pairs.len() <= 10_000
    &&& pairs_cost(pairs) <= 268_435_456
    &&& forall|i: int|
        0 <= i < pairs.len() ==> proper((#[trigger] pairs[i]).1) && encode_utf8(pairs[i].0).len()
            <= 67_108_864
}

/// A file: the magic, the version, the numbers of tensors and of pairs, the pairs, and what
/// follows.
pub open spec fn file_bytes(
    version: nat,
    tensors: nat,
    pairs: Seq<(Seq<char>, Written)>,
    rest: Seq<u8>,
) -> Seq<u8> {
    seq![0x47u8, 0x47u8, 0x55u8, 0x46u8] + number_bytes(version, 4) + number_bytes(tensors, 8)
        + number_bytes(pairs.len(), 8) + pairs_bytes(pairs) + rest
}

proof fn lemma_number_bytes(v: nat, n: nat, b: Seq<u8>, pos: int)
    requires
        v < byte_values(n),
        0 <= pos,
        pos + n <= b.len(),
        b.subrange(pos, pos + n) == number_bytes(v, n),
    ensures
        little_endian(b, pos, n) == v,
    decreases n,
{
    if n > 0 {
        let here = b.subrange(pos, pos + n);
        let whole = number_bytes(v, n);
        let rest = number_bytes(v / 256, (n - 1) as nat);
        lemma_number_bytes_len(v / 256, (n - 1) as nat);
        assert(here[0] == b[pos] && whole[0] == (v % 256) as u8);
        assert(b.subrange(pos + 1, pos + n) =~= here.subrange(1, n as int));
        assert(whole.subrange(1, n as int) =~= rest);
        lemma_number_bytes(v / 256, (n - 1) as nat, b, pos + 1);
        assert(v == v % 256 + 256 * (v / 256));
    }
}

proof fn lemma_number_bytes_len(v: nat, n: nat)
    ensures
        number_bytes(v, n).len() == n,
    decreases n,
{
    if n > 0 {
        lemma_number_bytes_len(v / 256, (n - 1) as nat);
    }
}

/// The bytes stand at the position.
spec fn stands(b: Seq<u8>, pos: int, x: Seq<u8>) -> bool {
    0 <= pos && pos + x.len() <= b.len() && b.subrange(pos, pos + x.len()) == x
}

proof fn lemma_both_stand(b: Seq<u8>, pos: int, x: Seq<u8>, y: Seq<u8>)
    requires
        stands(b, pos, x + y),
    ensures
        stands(b, pos, x),
        stands(b, (pos + x.len()) as int, y),
{
    let z = x + y;
    let here = b.subrange(pos, pos + z.len());
    assert(b.subrange(pos, pos + x.len()) =~= here.subrange(0, x.len() as int));
    assert(z.subrange(0, x.len() as int) =~= x);
    assert(b.subrange(pos + x.len(), pos + x.len() + y.len()) =~= here.subrange(
        x.len() as int,
        z.len() as int,
    ));
    assert(z.subrange(x.len() as int, z.len() as int) =~= y);
}

proof fn lemma_power(n: nat)
    ensures
        power_of_256(n) == byte_values(n),
    decreases n,
{
    if n > 0 {
        lemma_power((n - 1) as nat);
    }
}

/// The number in bytes is the number that the bytes write.
proof fn lemma_number_of(b: Seq<u8>, pos: int, n: nat)
    requires
        0 <= pos,
        pos + n <= b.len(),
    ensures
        little_endian(b, pos, n) == number_of(b.subrange(pos, pos + n)),
    decreases n,
{
    if n > 0 {
        lemma_number_of(b, pos, (n - 1) as nat);
        lemma_little_endian_last(b, pos, (n - 1) as nat);
        lemma_power((n - 1) as nat);
        let here = b.subrange(pos, pos + n);
        assert(here.drop_last() =~= b.subrange(pos, pos + n - 1));
        assert(here.last() == b[pos + n - 1]);
    } else {
        assert(b.subrange(pos, pos).len() == 0);
    }
}

proof fn lemma_little_endian_last(b: Seq<u8>, pos: int, n: nat)
    ensures
        little_endian(b, pos, n + 1) == little_endian(b, pos, n) + b[pos + n] as nat * byte_values(n),
    decreases n,
{
    if n == 0 {
        reveal_with_fuel(little_endian, 2);
        assert(byte_values(0) == 1);
        assert(little_endian(b, pos, 1) == b[pos] as nat);
        assert(b[pos] as nat * byte_values(0) == b[pos] as nat);
    } else {
        let m = (n - 1) as nat;
        lemma_little_endian_last(b, pos + 1, m);
        let x = b[pos + n] as int;
        let p = byte_values(m) as int;
        let q = little_endian(b, pos + 1, m) as int;
        assert(m + 1 == n && pos + 1 + m == pos + n);
        assert(byte_values(n) == 256 * p);
        assert(256 * (q + x * p) == 256 * q + x * (256 * p)) by (nonlinear_arith);
        assert(little_endian(b, pos, n + 1) == b[pos] as nat + 256 * little_endian(b, pos + 1, n));
        assert(little_endian(b, pos, n) == b[pos] as nat + 256 * q);
        assert(little_endian(b, pos + 1, n) == q + x * p);
        assert(x * byte_values(n) == x * (256 * p));
    }
}

proof fn lemma_number_read(b: Seq<u8>, pos: int, v: nat, n: nat)
    requires
        v < byte_values(n),
        stands(b, pos, number_bytes(v, n)),
    ensures
        little_endian(b, pos, n) == v,
        pos + n <= b.len(),
        number_bytes(v, n).len() == n,
{
    lemma_number_bytes_len(v, n);
    lemma_number_bytes(v, n, b, pos);
}

proof fn lemma_text_read(b: Seq<u8>, pos: int, s: Seq<char>, budget: int)
    requires
        stands(b, pos, text_bytes(s)),
        encode_utf8(s).len() <= 67_108_864,
        encode_utf8(s).len() <= budget,
    ensures
        string_at(b, pos, budget) == Ok::<_, GgufFault>(
            (s, pos + text_bytes(s).len(), budget - encode_utf8(s).len()),
        ),
        text_bytes(s).len() > 0,
{
    let u = encode_utf8(s);
    let l = number_bytes(u.len(), 8);
    lemma_both_stand(b, pos, l, u);
    lemma_byte_values(8);
    lemma_number_read(b, pos, u.len(), 8);
    encode_utf8_valid_utf8(s);
    encode_utf8_decode_utf8(s);
}

proof fn lemma_plain_read(b: Seq<u8>, pos: int, ty: u32, bytes: Seq<u8>, budget: int)
    requires
        stands(b, pos, bytes),
        takes(ty, bytes.len()),
    ensures
        value_at(b, pos, ty, budget) == Ok::<_, GgufFault>(
            (meant(Written::Plain { ty, bytes }), pos + bytes.len(), budget),
        ),
{
    lemma_number_of(b, pos, bytes.len());
    lemma_little_endian_bound(b, pos, bytes.len());
    lemma_power(bytes.len());
    lemma_byte_values(bytes.len());
}

proof fn lemma_value_read(b: Seq<u8>, pos: int, v: Written, budget: int)
    requires
        stands(b, pos, value_bytes(v)),
        proper(v),
        text_cost(v) <= budget,
    ensures
        value_at(b, pos, type_of(v), budget) == Ok::<_, GgufFault>(
            (meant(v), pos + value_bytes(v).len(), budget - text_cost(v)),
        ),
        value_bytes(v).len() > 0,
    decreases v,
{
    match v {
        Written::Plain { ty, bytes } => {
            lemma_plain_read(b, pos, ty, bytes, budget);
        },
        Written::Text { text } => {
            lemma_text_read(b, pos, text, budget);
        },
        Written::List { inner, items } => {
            let t = number_bytes(inner as nat, 4);
            let l = number_bytes(items.len(), 8);
            let all = items_bytes(items);
            lemma_byte_values(4);
            lemma_byte_values(8);
            lemma_both_stand(b, pos, t + l, all);
            lemma_both_stand(b, pos, t, l);
            lemma_number_read(b, pos, inner as nat, 4);
            lemma_number_read(b, pos + 4, items.len(), 8);
            lemma_items_read(b, pos + 12, inner, items, budget);
        },
    }
}

proof fn lemma_items_read(b: Seq<u8>, pos: int, ty: u32, items: Seq<Written>, budget: int)
    requires
        stands(b, pos, items_bytes(items)),
        proper_items(ty, items),
        items_cost(items) <= budget,
    ensures
        items_at(b, pos, ty, items.len(), budget) == Ok::<_, GgufFault>(
            ((), pos + items_bytes(items).len(), budget - items_cost(items)),
        ),
    decreases items,
{
    if items.len() > 0 {
        let rest = items.subrange(1, items.len() as int);
        let first = value_bytes(items[0]);
        lemma_both_stand(b, pos, first, items_bytes(rest));
        lemma_value_read(b, pos, items[0], budget);
        lemma_items_read(b, pos + first.len(), ty, rest, budget - text_cost(items[0]));
    }
}

proof fn lemma_pairs_read(b: Seq<u8>, pos: int, pairs: Seq<(Seq<char>, Written)>, budget: int)
    requires
        stands(b, pos, pairs_bytes(pairs)),
        pairs_cost(pairs) <= budget,
        forall|i: int|
            0 <= i < pairs.len() ==> proper((#[trigger] pairs[i]).1) && encode_utf8(
                pairs[i].0,
            ).len() <= 67_108_864,
    ensures
        pairs_at(b, pos, pairs.len(), budget) == Ok::<_, GgufFault>(meant_pairs(pairs)),
    decreases pairs.len(),
{
    if pairs.len() == 0 {
        assert(meant_pairs(pairs) =~= seq![]);
    } else {
        let (key, v) = pairs[0];
        let rest = pairs.drop_first();
        let k = text_bytes(key);
        let t = number_bytes(type_of(v) as nat, 4);
        let x = value_bytes(v);
        let left = budget - encode_utf8(key).len();
        lemma_both_stand(b, pos, k + t + x, pairs_bytes(rest));
        lemma_both_stand(b, pos, k + t, x);
        lemma_both_stand(b, pos, k, t);
        lemma_text_read(b, pos, key, budget);
        lemma_byte_values(4);
        let p = pos + k.len();
        lemma_number_read(b, p, type_of(v) as nat, 4);
        lemma_value_read(b, p + 4, v, left);
        assert forall|i: int| 0 <= i < rest.len() implies proper((#[trigger] rest[i]).1)
            && encode_utf8(rest[i].0).len() <= 67_108_864 by {
            assert(rest[i] == pairs[i + 1]);
        }
        lemma_pairs_read(b, p + 4 + x.len(), rest, left - text_cost(v));
        assert(meant_pairs(pairs) =~= seq![(key, meant(v))] + meant_pairs(rest));
    }
}

/// Reading takes back what was written: the metadata of a file of version 2 or 3 is that of
/// its pairs, whatever types they have and whatever follows them.
pub proof fn law_written_metadata_is_read_back(
    version: nat,
    tensors: nat,
    pairs: Seq<(Seq<char>, Written)>,
    rest: Seq<u8>,
)
    requires
        version == 2 || version == 3,
        tensors <= u64::MAX,
        proper_pairs(pairs),
    ensures
        metadata_in(file_bytes(version, tensors, pairs, rest)) == metadata_of(meant_pairs(pairs)),
{
    let magic = seq![0x47u8, 0x47u8, 0x55u8, 0x46u8];
    let v = number_bytes(version, 4);
    let t = number_bytes(tensors, 8);
    let n = number_bytes(pairs.len(), 8);
    let all = pairs_bytes(pairs);
    let b = file_bytes(version, tensors, pairs, rest);
    lemma_byte_values(4);
    lemma_byte_values(8);
    let head = magic + v + t + n;
    assert(b.subrange(0, (head + all).len() as int) =~= head + all);
    lemma_both_stand(b, 0, head, all);
    lemma_both_stand(b, 0, magic + v + t, n);
    lemma_both_stand(b, 0, magic + v, t);
    lemma_both_stand(b, 0, magic, v);
    lemma_number_bytes_len(tensors, 8);
    lemma_number_read(b, 4, version, 4);
    lemma_number_read(b, 16, pairs.len(), 8);
    let here = b.subrange(0, 4);
    assert(here[0] == b[0] && here[1] == b[1] && here[2] == b[2] && here[3] == b[3]);
    assert(little_endian(b, 0, 4) == GGUF_MAGIC) by {
        reveal_with_fuel(little_endian, 5);
    }
    lemma_pairs_read(b, 24, pairs, 268_435_456);
}

/// A file begins with the letters GGUF: any other beginning is refused, and only that is.
pub proof fn law_files_begin_with_the_magic(b: Seq<u8>)
    requires
        b.len() >= 4,
    ensures
        metadata_in(b) == Err::<ModelMetadataView, _>(GgufFault::BadMagic) <==> !(b[0] == 0x47
            && b[1] == 0x47 && b[2] == 0x55 && b[3] == 0x46),
{
    reveal_with_fuel(little_endian, 5);
    if little_endian(b, 0, 4) == GGUF_MAGIC && b.len() >= 24 {
        let n = little_endian(b, 16, 8);
        lemma_no_bad_magic(b, 24, n, MAX_METADATA_TOTAL_BYTES as int);
    }
}

proof fn lemma_no_bad_magic(b: Seq<u8>, pos: int, n: nat, budget: int)
    ensures
        pairs_at(b, pos, n, budget) != Err::<Seq<(Seq<char>, MetaView)>, _>(GgufFault::BadMagic),
    decreases n,
{
    if n > 0 {
        match string_at(b, pos, budget) {
            Ok((_, p, left)) => {
                let ty = little_endian(b, p, 4) as u32;
                lemma_no_bad_magic_value(b, p + 4, ty, 0, left);
                match value_at(b, p + 4, ty, left) {
                    Ok((_, q, rest)) => {
                        lemma_no_bad_magic(b, q, (n - 1) as nat, rest);
                    },
                    Err(_) => {},
                }
            },
            Err(_) => {},
        }
    }
}

proof fn lemma_no_bad_magic_value(b: Seq<u8>, pos: int, ty: u32, n: nat, budget: int)
    ensures
        value_at(b, pos, ty, budget) != Err::<(MetaView, int, int), _>(GgufFault::BadMagic),
        items_at(b, pos, ty, n, budget) != Err::<((), int, int), _>(GgufFault::BadMagic),
    decreases b.len() - pos, n,
{
    if ty == 9 && pos + 12 <= b.len() {
        lemma_no_bad_magic_value(
            b,
            pos + 12,
            little_endian(b, pos, 4) as u32,
            little_endian(b, pos + 4, 8),
            budget,
        );
    }
    if n > 0 {
        match value_at(b, pos, ty, budget) {
            Ok((_, p, left)) => {
                if pos < p <= b.len() {
                    lemma_no_bad_magic_value(b, p, ty, (n - 1) as nat, left);
                }
            },
            Err(_) => {},
        }
    }
}

/// A key that the metadata is taken from.
pub open spec fn asked_for(key: Seq<char>) -> bool {
    ||| key == "general.architecture"@
    ||| key == "general.name"@
    ||| text::ends(key, ".context_length"@)
    ||| text::ends(key, ".block_count"@)
    ||| text::ends(key, ".embedding_length"@)
    ||| text::ends(key, ".attention.head_count"@)
    ||| text::ends(key, ".attention.head_count_kv"@)
}

/// A value that is passed over changes nothing: a pair of any type under a key that is not
/// asked for, put anywhere between the others, leaves the metadata as it is.
pub proof fn law_other_pairs_change_nothing(
    version: nat,
    tensors: nat,
    before: Seq<(Seq<char>, Written)>,
    pair: (Seq<char>, Written),
    after: Seq<(Seq<char>, Written)>,
    rest: Seq<u8>,
)
    requires
        version == 2 || version == 3,
        tensors <= u64::MAX,
        proper_pairs(before + after),
        proper_pairs(before.push(pair) + after),
        !asked_for(pair.0),
    ensures
        metadata_in(file_bytes(version, tensors, before.push(pair) + after, rest)) == metadata_in(
            file_bytes(version, tensors, before + after, rest),
        ),
{
    law_written_metadata_is_read_back(version, tensors, before + after, rest);
    law_written_metadata_is_read_back(version, tensors, before.push(pair) + after, rest);
    let a = meant_pairs(before);
    let x = (pair.0, meant(pair.1));
    let c = meant_pairs(after);
    assert(meant_pairs(before + after) =~= a + c);
    assert(meant_pairs(before.push(pair) + after) =~= a.push(x) + c);
    lemma_lookup_without(a, x, c, "general.architecture"@);
    lemma_lookup_without(a, x, c, "general.name"@);
    match lookup_text(a + c, "general.architecture"@) {
        Some(arch) => {
            lemma_arch_keys(arch);
            lemma_lookup_without(a, x, c, arch_key(arch, "context_length"@));
            lemma_lookup_without(a, x, c, arch_key(arch, "block_count"@));
            lemma_lookup_without(a, x, c, arch_key(arch, "embedding_length"@));
            lemma_lookup_without(a, x, c, arch_key(arch, "attention.head_count"@));
            lemma_lookup_without(a, x, c, arch_key(arch, "attention.head_count_kv"@));
        },
        None => {},
    }
}

proof fn lemma_arch_key(arch: Seq<char>, suffix: Seq<char>, dotted: Seq<char>)
    requires
        dotted == "."@ + suffix,
    ensures
        text::ends(arch_key(arch, suffix), dotted),
        arch_key(arch, suffix) == arch + dotted,
{
    let k = arch_key(arch, suffix);
    assert(k =~= arch + dotted);
    assert(k.skip(k.len() - dotted.len()) =~= dotted);
}

proof fn lemma_arch_keys(arch: Seq<char>)
    ensures
        arch_key(arch, "context_length"@) == arch + ".context_length"@,
        arch_key(arch, "block_count"@) == arch + ".block_count"@,
        arch_key(arch, "embedding_length"@) == arch + ".embedding_length"@,
        arch_key(arch, "attention.head_count"@) == arch + ".attention.head_count"@,
        arch_key(arch, "attention.head_count_kv"@) == arch + ".attention.head_count_kv"@,
        asked_for(arch + ".context_length"@),
        asked_for(arch + ".block_count"@),
        asked_for(arch + ".embedding_length"@),
        asked_for(arch + ".attention.head_count"@),
        asked_for(arch + ".attention.head_count_kv"@),
{
    reveal_strlit(".");
    reveal_strlit("context_length");
    reveal_strlit("block_count");
    reveal_strlit("embedding_length");
    reveal_strlit("attention.head_count");
    reveal_strlit("attention.head_count_kv");
    reveal_strlit(".context_length");
    reveal_strlit(".block_count");
    reveal_strlit(".embedding_length");
    reveal_strlit(".attention.head_count");
    reveal_strlit(".attention.head_count_kv");
    assert(".context_length"@ =~= "."@ + "context_length"@);
    assert(".block_count"@ =~= "."@ + "block_count"@);
    assert(".embedding_length"@ =~= "."@ + "embedding_length"@);
    assert(".attention.head_count"@ =~= "."@ + "attention.head_count"@);
    assert(".attention.head_count_kv"@ =~= "."@ + "attention.head_count_kv"@);
    lemma_arch_key(arch, "context_length"@, ".context_length"@);
    lemma_arch_key(arch, "block_count"@, ".block_count"@);
    lemma_arch_key(arch, "embedding_length"@, ".embedding_length"@);
    lemma_arch_key(arch, "attention.head_count"@, ".attention.head_count"@);
    lemma_arch_key(arch, "attention.head_count_kv"@, ".attention.head_count_kv"@);
}

proof fn lemma_lookup_without(
    a: Seq<(Seq<char>, MetaView)>,
    x: (Seq<char>, MetaView),
    c: Seq<(Seq<char>, MetaView)>,
    key: Seq<char>,
)
    requires
        x.0 != key,
    ensures
        lookup(a.push(x) + c, key) == lookup(a + c, key),
    decreases c.len(),
{
    if c.len() == 0 {
        assert(a.push(x) + c =~= a.push(x));
        assert(a + c =~= a);
        assert(a.push(x).drop_last() =~= a);
    } else {
        assert((a.push(x) + c).last() == c.last() && (a + c).last() == c.last());
        assert((a.push(x) + c).drop_last() =~= a.push(x) + c.drop_last());
        assert((a + c).drop_last() =~= a + c.drop_last());
        lemma_lookup_without(a, x, c.drop_last(), key);
    }
}

/// The metadata is taken from its own keys: the architecture and the name from the general
/// ones, and each number from the key of its name under the architecture, where it fits 32
/// bits. Where a file says nothing of the key and value heads, they are as many as the query
/// heads; where it lacks any of the others there is no metadata.
pub proof fn law_metadata_comes_from_its_keys(pairs: Seq<(Seq<char>, MetaView)>)
    ensures
        match metadata_of(pairs) {
            Ok(m) => {
                let arch = m.architecture;
                &&& lookup(pairs, "general.architecture"@) == Some(MetaView::Text(arch))
                &&& m.name == (match lookup(pairs, "general.name"@) {
                    Some(MetaView::Text(s)) => Some(s),
                    _ => None,
                })
                &&& lookup(pairs, arch + ".context_length"@) == Some(
                    MetaView::U64(m.context_length as u64),
                )
                &&& lookup(pairs, arch + ".block_count"@) == Some(
                    MetaView::U64(m.block_count as u64),
                )
                &&& lookup(pairs, arch + ".embedding_length"@) == Some(
                    MetaView::U64(m.embedding_length as u64),
                )
                &&& lookup(pairs, arch + ".attention.head_count"@) == Some(
                    MetaView::U64(m.head_count as u64),
                )
                &&& match lookup(pairs, arch + ".attention.head_count_kv"@) {
                    Some(MetaView::U64(n)) => if n <= u32::MAX {
                        m.kv_head_count == n
                    } else {
                        m.kv_head_count == m.head_count
                    },
                    _ => m.kv_head_count == m.head_count,
                }
            },
            Err(e) => {
                &&& e matches GgufFault::MissingKey(k)
                &&& asked_for(k)
                &&& match lookup(pairs, "general.architecture"@) {
                    Some(MetaView::Text(_)) => !(lookup(pairs, k) matches Some(MetaView::U64(n)) && n
                        <= u32::MAX),
                    _ => k == "general.architecture"@,
                }
            },
        },
{
    match lookup_text(pairs, "general.architecture"@) {
        Some(arch) => {
            lemma_arch_keys(arch);
        },
        None => {},
    }
}

/// The last pair of a key counts, and pairs of other keys do not matter.
pub proof fn law_last_pair_counts(
    pairs: Seq<(Seq<char>, MetaView)>,
    key: Seq<char>,
    value: MetaView,
    other: Seq<char>,
)
    ensures
        lookup(pairs.push((key, value)), key) == Some(value),
        other != key ==> lookup(pairs.push((key, value)), other) == lookup(pairs, other),
        lookup(seq![], key) is None,
{
    assert(pairs.push((key, value)).drop_last() =~= pairs);
}

/// Only files that are called `.gguf`, in any case, are read, and a file that is not there
/// is said to be missing.
pub proof fn law_only_gguf_files_are_read(path: Seq<char>, stem: Seq<char>, b: Seq<u8>)
    ensures
        paths::extension_of(path) == Some("gguf"@) || paths::extension_of(path) == Some("GGUF"@)
            ==> metadata_at(path, Some(b)) == metadata_in(b) && metadata_at(path, None) == Err::<
            ModelMetadataView,
            _,
        >(GgufFault::FileNotFound(path)),
        paths::extension_of(path) is None || paths::extension_of(path)->0.len() != 4
            ==> metadata_at(path, Some(b)) == Err::<ModelMetadataView, _>(
            GgufFault::UnsupportedFileType(path),
        ),
{
    reveal_strlit("gguf");
    reveal_strlit("GGUF");
    assert("gguf"@.len() == 4);
    let lower = "gguf"@;
    let upper = "GGUF"@;
    assert forall|i: int| 0 <= i < 4 implies numbers::ascii_lower(#[trigger] upper[i])
        == numbers::ascii_lower(lower[i]) by {}
    assert(numbers::same_ignoring_case(upper, lower));
    assert(numbers::same_ignoring_case(lower, lower));
}

/// The cache takes two bytes for each number of two tensors: as many numbers per token as
/// each block has for its key and value heads.
pub proof fn law_cache_grows_with_heads_and_blocks(m: ModelMetadataView)
    requires
        m.head_count > 0,
        m.kv_head_count > 0,
    ensures
        kv_bytes(m) == 2 * 2 * (m.kv_head_count * (m.embedding_length as int / m.head_count as int)
            * m.block_count),
        m.kv_head_count == 1 ==> kv_bytes(m) == kv_bytes(
            (ModelMetadataView { kv_head_count: 0, ..m }),
        ),
        kv_bytes((ModelMetadataView { head_count: 0, ..m })) == 0,
{
}

/// Every fault is told by what was found: the path, the version, the count, the length, the
/// type or the key that is at fault, and the limit that it goes beyond.
pub proof fn law_faults_tell_what_was_found(s: Seq<char>, n: u64, t: u32)
    ensures
        GgufFault::UnsupportedFileType(s).message()
            == "Unsupported file type — only `.gguf` models are accepted (got "@ + s + ")"@,
        GgufFault::FileNotFound(s).message() == "File not found: "@ + s,
        GgufFault::UnexpectedEof.message() == "failed to fill whole buffer"@,
        GgufFault::BadMagic.message()
            == "Not a valid GGUF file — header magic mismatch (file may be truncated or in a different format)"@,
        GgufFault::UnsupportedVersion(t).message() == "unsupported GGUF version "@
            + numbers::decimal(t as nat) + " (Helmor reads v2 and v3)"@,
        GgufFault::AbsurdKvCount(n).message() == "absurd metadata KV count "@ + numbers::decimal(
            n as nat,
        ) + " in GGUF header (cap "@ + numbers::decimal(10_000) + ")"@,
        GgufFault::AbsurdStringLength(n).message() == "absurd string length "@ + numbers::decimal(
            n as nat,
        ) + " in GGUF metadata"@,
        GgufFault::AbsurdArrayLength(n).message() == "absurd array length "@ + numbers::decimal(
            n as nat,
        ) + " in GGUF metadata"@,
        GgufFault::BudgetExceeded.message() == "GGUF metadata exceeds "@ + numbers::decimal(
            268_435_456,
        ) + "-byte cumulative cap"@,
        GgufFault::NonUtf8(s).message() == "non-UTF8 string in GGUF metadata: "@ + s,
        GgufFault::UnknownValueType(t).message() == "unknown GGUF value type "@ + numbers::decimal(
            t as nat,
        ),
        GgufFault::MissingKey(s).message() == "GGUF missing `"@ + s + "`"@,
{
}

} // verus!
