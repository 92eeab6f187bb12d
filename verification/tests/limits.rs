use codebuddy::limits::{
    engine_file_bytes, is_engine_file, kv_cache_tokens_that_fit, EngineLimits, FileEntry, KvCachePlan,
    KvCacheQuantization, ModelShape,
};

const GIB: u64 = 1 << 30;
const QWEN_7B: u64 = 28 * 4 * 128 * 2 * 2;

#[test]
fn a_smaller_kv_cache_keeps_room_for_a_reply() {
    let built = EngineLimits { max_input_len: 30720, max_seq_len: 32768 };
    let limits = built.within_kv_cache(16384);
    assert_eq!((limits.max_input_len, limits.max_seq_len), (14336, 16384));
    let limits = built.within_kv_cache(32768);
    assert_eq!((limits.max_input_len, limits.max_seq_len), (30720, 32768));
}

#[test]
fn a_cache_smaller_than_a_reply_leaves_no_room_for_a_prompt() {
    let built = EngineLimits { max_input_len: 30720, max_seq_len: 32768 };
    let limits = built.within_kv_cache(1000);
    assert_eq!((limits.max_input_len, limits.max_seq_len), (0, 1000));
}

#[test]
fn a_key_and_a_value_are_kept_in_every_layer() {
    let mut shape = ModelShape {
        num_hidden_layers: 28,
        num_key_value_heads: 4,
        head_size: 128,
        quantization: KvCacheQuantization { kv_cache_quant_algo: None },
    };
    assert_eq!(shape.kv_bytes_per_token(), QWEN_7B);
    shape.quantization.kv_cache_quant_algo = Some("INT8".to_owned());
    assert_eq!(shape.kv_bytes_per_token(), QWEN_7B / 2);
}

#[test]
fn the_plan_follows_the_free_memory() {
    let plan = |available| kv_cache_tokens_that_fit(32768, available, 5 * GIB, QWEN_7B);
    assert_eq!(plan(None), KvCachePlan::AsRequested(32768));
    assert_eq!(plan(Some(9 * GIB)), KvCachePlan::AsRequested(32768));
    assert_eq!(plan(Some(7 * GIB)), KvCachePlan::Limited(18688));
    let needed = 5 * GIB + 4096 * QWEN_7B;
    assert_eq!(plan(Some(6 * GIB)), KvCachePlan::NotEnoughMemory { needed });
}

#[test]
fn a_small_request_is_no_shortage() {
    let plan = kv_cache_tokens_that_fit(64, Some(7 * GIB), 5 * GIB, QWEN_7B);
    assert_eq!(plan, KvCachePlan::AsRequested(64));
}

#[test]
fn the_plan_is_explained() {
    assert_eq!(KvCachePlan::AsRequested(10).message(10, "7.0", "0.0"), None);
    assert_eq!(
        KvCachePlan::Limited(18688).message(32768, "7.0", "0.0").unwrap(),
        "only 7.0 GB of memory is free: context limited to 18688 tokens instead of 32768 to keep the system \
         responsive"
    );
    assert_eq!(
        KvCachePlan::NotEnoughMemory { needed: 1 }.message(32768, "5.9", "5.2").unwrap(),
        "not enough free memory: 5.9 GB available, but the model needs about 5.2 GB plus room for the rest of \
         the system. Close some applications (a web browser is often the largest) and try again."
    );
}

#[test]
fn only_engine_files_count() {
    let file = |name: &str, bytes| FileEntry { name: name.to_owned(), bytes };
    let files = vec![file("rank0.engine", 10), file("config.json", 100), file("rank1.engine", 20)];
    assert_eq!(engine_file_bytes(&files), 30);
    assert_eq!(engine_file_bytes(&vec![]), 0);
    assert!(!is_engine_file(".engine"));
    assert!(!is_engine_file("rank0.engine.bak"));
}
