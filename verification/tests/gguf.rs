use rift_bus::gguf::{inspect_bytes, GgufError, T_ARRAY, T_INT32, T_STRING, T_UINT32, T_UINT64, T_BOOL};

struct GgufBuilder {
    kv: Vec<u8>,
    count: u64,
}

impl GgufBuilder {
    fn new() -> Self {
        Self { kv: Vec::new(), count: 0 }
    }
    fn key(&mut self, k: &str) {
        self.kv.extend_from_slice(&(k.len() as u64).to_le_bytes());
        self.kv.extend_from_slice(k.as_bytes());
    }
    fn u32_kv(&mut self, k: &str, v: u32) {
        self.key(k);
        self.kv.extend_from_slice(&T_UINT32.to_le_bytes());
        self.kv.extend_from_slice(&v.to_le_bytes());
        self.count += 1;
    }
    fn i32_kv(&mut self, k: &str, v: i32) {
        self.key(k);
        self.kv.extend_from_slice(&T_INT32.to_le_bytes());
        self.kv.extend_from_slice(&v.to_le_bytes());
        self.count += 1;
    }
    fn u64_kv(&mut self, k: &str, v: u64) {
        self.key(k);
        self.kv.extend_from_slice(&T_UINT64.to_le_bytes());
        self.kv.extend_from_slice(&v.to_le_bytes());
        self.count += 1;
    }
    fn bool_kv(&mut self, k: &str, v: bool) {
        self.key(k);
        self.kv.extend_from_slice(&T_BOOL.to_le_bytes());
        self.kv.push(v as u8);
        self.count += 1;
    }
    fn str_kv(&mut self, k: &str, v: &str) {
        self.key(k);
        self.kv.extend_from_slice(&T_STRING.to_le_bytes());
        self.kv.extend_from_slice(&(v.len() as u64).to_le_bytes());
        self.kv.extend_from_slice(v.as_bytes());
        self.count += 1;
    }
    fn str_array_kv(&mut self, k: &str, items: &[&str]) {
        self.key(k);
        self.kv.extend_from_slice(&T_ARRAY.to_le_bytes());
        self.kv.extend_from_slice(&T_STRING.to_le_bytes());
        self.kv.extend_from_slice(&(items.len() as u64).to_le_bytes());
        for it in items {
            self.kv.extend_from_slice(&(it.len() as u64).to_le_bytes());
            self.kv.extend_from_slice(it.as_bytes());
        }
        self.count += 1;
    }
    fn build(self) -> Vec<u8> {
        let mut out = Vec::new();
        out.extend_from_slice(&0x4655_4747u32.to_le_bytes());
        out.extend_from_slice(&3u32.to_le_bytes());
        out.extend_from_slice(&0u64.to_le_bytes());
        out.extend_from_slice(&self.count.to_le_bytes());
        out.extend_from_slice(&self.kv);
        out
    }
}

#[test]
fn parses_dense_model_metadata() {
    let mut b = GgufBuilder::new();
    b.str_kv("general.architecture", "llama");
    b.u64_kv("general.parameter_count", 8_030_000_000);
    b.u32_kv("llama.block_count", 32);
    b.u32_kv("llama.embedding_length", 4096);
    b.u32_kv("llama.attention.head_count", 32);
    b.u32_kv("llama.attention.head_count_kv", 8);
    b.str_array_kv("tokenizer.ggml.tokens", &["<s>", "</s>", "hello", "world"]);
    let meta = inspect_bytes(&b.build()).expect("parse");
    assert_eq!(meta.architecture.as_deref(), Some("llama"));
    assert_eq!(meta.parameter_count, Some(8_030_000_000));
    assert_eq!(meta.n_layers, Some(32));
    assert_eq!(meta.n_embd, Some(4096));
    assert_eq!(meta.n_head, Some(32));
    assert_eq!(meta.n_head_kv, Some(8));
    assert_eq!(meta.expert_count, None);
}

#[test]
fn parses_moe_expert_count() {
    let mut b = GgufBuilder::new();
    b.str_kv("general.architecture", "qwen3moe");
    b.u32_kv("qwen3moe.block_count", 48);
    b.u32_kv("qwen3moe.expert_count", 128);
    let meta = inspect_bytes(&b.build()).expect("parse");
    assert_eq!(meta.architecture.as_deref(), Some("qwen3moe"));
    assert_eq!(meta.n_layers, Some(48));
    assert_eq!(meta.expert_count, Some(128));
}

#[test]
fn rejects_non_gguf() {
    assert!(matches!(inspect_bytes(b"NOTGGUF................."), Err(GgufError::NotGguf)));
}

#[test]
fn missing_keys_yield_none_not_error() {
    let mut b = GgufBuilder::new();
    b.str_kv("general.architecture", "phi3");
    let meta = inspect_bytes(&b.build()).expect("parse");
    assert_eq!(meta.architecture.as_deref(), Some("phi3"));
    assert_eq!(meta.n_layers, None);
    assert_eq!(meta.n_embd, None);
}

#[test]
fn truncated_header_is_io_error() {
    let mut b = GgufBuilder::new();
    b.str_kv("general.architecture", "llama");
    let bytes = b.build();
    let cut = &bytes[..bytes.len() - 2];
    assert!(matches!(inspect_bytes(cut), Err(GgufError::Io(_))));
    assert!(matches!(inspect_bytes(&[0x47, 0x47]), Err(GgufError::Io(_))));
}

#[test]
fn negative_and_skipped_values() {
    let mut b = GgufBuilder::new();
    b.str_kv("general.architecture", "gemma2");
    b.bool_kv("gemma2.use_parallel", true);
    b.i32_kv("gemma2.block_count", -5);
    b.i32_kv("gemma2.embedding_length", 2304);
    let meta = inspect_bytes(&b.build()).expect("parse");
    assert_eq!(meta.n_layers, Some(0));
    assert_eq!(meta.n_embd, Some(2304));
}

#[test]
fn caps_and_unknown_tags_are_malformed() {
    let mut out = Vec::new();
    out.extend_from_slice(&0x4655_4747u32.to_le_bytes());
    out.extend_from_slice(&3u32.to_le_bytes());
    out.extend_from_slice(&0u64.to_le_bytes());
    out.extend_from_slice(&2_000_000u64.to_le_bytes());
    assert!(matches!(inspect_bytes(&out), Err(GgufError::Malformed("kv_count exceeds sane maximum"))));

    let mut b = GgufBuilder::new();
    b.key("x");
    b.kv.extend_from_slice(&99u32.to_le_bytes());
    b.count += 1;
    assert!(matches!(inspect_bytes(&b.build()), Err(GgufError::Malformed("unknown value type tag"))));
}

#[test]
fn error_messages_name_the_failure() {
    assert_eq!(GgufError::NotGguf.message(), "gguf: not a GGUF file (bad magic)");
    assert_eq!(GgufError::Malformed("kv_count exceeds sane maximum").message(), "gguf: malformed header: kv_count exceeds sane maximum");
    let io = GgufError::Io(std::io::Error::new(std::io::ErrorKind::UnexpectedEof, "short"));
    assert_eq!(io.message(), "gguf: io error: short");
}
