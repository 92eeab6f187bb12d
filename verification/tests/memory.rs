use codebuddy::memory::{available_bytes, available_kib_in, kv_cache_tokens_that_fit, MIN_KV_CACHE_TOKENS};

const GIB: u64 = 1 << 30;
/// Qwen2.5-7B: 28 layers × 4 KV heads × 128 dims × (K and V) × fp16.
const QWEN_7B: u64 = 28 * 4 * 128 * 2 * 2;

#[test]
fn plenty_of_memory_gives_the_requested_size() {
    assert_eq!(kv_cache_tokens_that_fit(32768, 9 * GIB, 5 * GIB, QWEN_7B), 32768);
}

#[test]
fn short_memory_shrinks_the_cache_to_whole_blocks() {
    let tokens = kv_cache_tokens_that_fit(32768, 7 * GIB, 5 * GIB, QWEN_7B);
    assert_eq!(tokens, 18688); // 1 GiB / 56 KiB per token, rounded down to 64
    assert_eq!(tokens % 64, 0);
}

#[test]
fn no_room_gives_zero() {
    assert_eq!(kv_cache_tokens_that_fit(32768, 5 * GIB, 5 * GIB, QWEN_7B), 0);
}

#[test]
fn a_model_without_a_cache_gets_what_it_asks_for() {
    assert_eq!(kv_cache_tokens_that_fit(100, 9 * GIB, 5 * GIB, 0), 100);
}

#[test]
fn the_headroom_is_left_and_the_cache_is_as_large_as_possible() {
    let tokens = u64::from(kv_cache_tokens_that_fit(32768, 7 * GIB, 5 * GIB, QWEN_7B));
    assert!(5 * GIB + GIB + tokens * QWEN_7B <= 7 * GIB);
    assert!(5 * GIB + GIB + (tokens + 64) * QWEN_7B > 7 * GIB);
}

#[test]
fn more_memory_gives_no_smaller_cache() {
    let less = kv_cache_tokens_that_fit(32768, 7 * GIB, 5 * GIB, QWEN_7B);
    let more = kv_cache_tokens_that_fit(32768, 7 * GIB + 512 * 1024 * 1024, 5 * GIB, QWEN_7B);
    assert!(less < more);
    assert_eq!(more, 28032);
}

#[test]
fn the_free_memory_is_read_from_meminfo() {
    let meminfo = "MemTotal:       16000000 kB\nMemAvailable:    2048 kB\nMemAvailable: 1 kB\n";
    assert_eq!(available_kib_in(meminfo), Some(2048));
    assert_eq!(available_bytes(meminfo), Some(2 * 1024 * 1024));
}

#[test]
fn a_meminfo_without_the_figure_gives_nothing() {
    assert_eq!(available_bytes("MemTotal: 12 kB\n"), None);
    assert_eq!(available_bytes("MemAvailable:\n"), None);
    assert_eq!(available_bytes("MemAvailable: lots\n"), None);
    assert_eq!(available_bytes(" MemAvailable: 12 kB\n"), None);
    assert_eq!(available_bytes("MemAvailable: 99999999999999999999 kB\n"), None);
    assert_eq!(available_bytes(""), None);
}

#[test]
fn the_smallest_useful_cache_holds_a_question_and_its_answer() {
    assert_eq!(MIN_KV_CACHE_TOKENS, 4096);
}
