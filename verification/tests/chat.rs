use codebuddy::chat::{
    chatml_prompt, random_seed, ChatModel, ChatTokenizer, EngineCommand, LoadError, Message, ReplyStream, Role,
    Settings, StartError,
};
use codebuddy::decode::{is_complete, new_part, TextDecoder};
use codebuddy::limits::EngineLimits;
use tokenizers::Tokenizer;

/// The character that stands for a byte in a byte-level vocabulary.
fn byte_char(byte: u8) -> char {
    let plain = |byte: u8| matches!(byte, b'!'..=b'~' | 0xA1..=0xAC | 0xAE..=0xFF);
    if plain(byte) {
        return char::from(byte);
    }
    let earlier = (0..byte).filter(|&other| !plain(other)).count() as u32;
    char::from_u32(256 + earlier).unwrap()
}

/// A tokenizer with one token for each byte, and one that ends a message.
fn tokenizer_json(end_of_message: &str) -> String {
    let mut vocabulary = serde_json::Map::new();
    for byte in 0..=255u8 {
        vocabulary.insert(byte_char(byte).to_string(), serde_json::Value::from(byte));
    }
    let vocabulary = serde_json::Value::Object(vocabulary).to_string();
    let byte_level = "{\"type\":\"ByteLevel\",\"add_prefix_space\":false,\"trim_offsets\":true,\"use_regex\":false}";
    format!(
        "{{\"version\":\"1.0\",\"truncation\":null,\"padding\":null,\"added_tokens\":[{{\"id\":256,\
         \"content\":\"{end_of_message}\",\"single_word\":false,\"lstrip\":false,\"rstrip\":false,\
         \"normalized\":false,\"special\":true}}],\"normalizer\":null,\"pre_tokenizer\":{byte_level},\
         \"post_processor\":null,\"decoder\":{byte_level},\"model\":{{\"type\":\"BPE\",\"dropout\":null,\
         \"unk_token\":null,\"continuing_subword_prefix\":null,\"end_of_word_suffix\":null,\
         \"fuse_unk\":false,\"byte_fallback\":false,\"ignore_merges\":false,\"vocab\":{vocabulary},\
         \"merges\":[]}}}}"
    )
}

fn chat_tokenizer() -> ChatTokenizer {
    match ChatTokenizer::load(&tokenizer_json("<|im_end|>")) {
        Ok(tokenizer) => tokenizer,
        Err(error) => panic!("{}", error.message("tokenizer.json")),
    }
}

fn model(max_input_len: usize, max_tokens: u32) -> ChatModel {
    ChatModel::load(
        Some("test".to_owned()),
        chat_tokenizer(),
        EngineLimits { max_input_len, max_seq_len: max_input_len + 50 },
        100_000,
        Settings { max_tokens, kv_cache_tokens: 100_000 },
    )
}

fn user(text: &str) -> Message {
    Message { role: Role::User, content: text.to_owned() }
}

#[test]
fn chatml_prompt_ends_with_an_open_assistant_turn() {
    let messages = [
        Message { role: Role::System, content: "Be brief.".to_owned() },
        Message { role: Role::User, content: "Hi".to_owned() },
    ];
    let expected =
        "<|im_start|>system\nBe brief.<|im_end|>\n<|im_start|>user\nHi<|im_end|>\n<|im_start|>assistant\n";
    assert_eq!(chatml_prompt(&messages), expected);
}

#[test]
fn a_follow_up_extends_the_prompt() {
    let mut messages = vec![user("Hi")];
    let first = chatml_prompt(&messages);
    messages.push(Message { role: Role::Assistant, content: "Hello!".to_owned() });
    messages.push(user("Bye"));
    let second = chatml_prompt(&messages);
    assert!(second.starts_with(&(first + "Hello!<|im_end|>\n")));
}

#[test]
fn streamed_text_matches_one_shot_decoding() {
    let tokenizer: Tokenizer = chat_tokenizer().tokenizer;

    let text = "fn main() { println!(\"héllo, 世界 🦀\"); }";
    let tokens = tokenizer.encode(text, false).unwrap().get_ids().to_vec();
    assert!(tokens.len() > text.chars().count());

    let mut decoder = TextDecoder::new();
    let mut streamed = String::new();
    for token in tokens {
        if let Some(piece) = decoder.push(&tokenizer, token) {
            streamed.push_str(&piece);
        }
    }
    assert_eq!(streamed, text);
}

#[test]
fn half_a_character_waits_for_the_rest() {
    let tokenizer = chat_tokenizer().tokenizer;
    let tokens = tokenizer.encode("é!", false).unwrap().get_ids().to_vec();
    assert_eq!(tokens.len(), 3);
    let mut decoder = TextDecoder::new();
    assert_eq!(decoder.push(&tokenizer, tokens[0]), None);
    // The first half is not lost: the second completes both.
    assert_eq!(decoder.push(&tokenizer, tokens[1]).as_deref(), Some("é"));
    assert_eq!(decoder.try_push(&tokenizer, tokens[2]).unwrap().as_deref(), Some("!"));
}

#[test]
fn all_tokens_at_once_give_the_same_text() {
    let tokenizer = chat_tokenizer().tokenizer;
    let tokens = tokenizer.encode("a 世 b", false).unwrap().get_ids().to_vec();
    assert_eq!(TextDecoder::new().push_all(&tokenizer, &tokens).as_deref(), Some("a 世 b"));
}

#[test]
fn new_text_is_what_follows_the_old() {
    assert!(is_complete("ab", "abc"));
    assert!(!is_complete("ab", "ab"));
    assert!(!is_complete("ab", "ab\u{FFFD}"));
    assert_eq!(new_part("ab", "abç").as_deref(), Some("ç"));
    assert_eq!(new_part("é", "e"), None);
}

#[test]
fn a_tokenizer_must_know_the_end_of_a_message() {
    match ChatTokenizer::load(&tokenizer_json("<|end|>")) {
        Err(LoadError::NoEndOfMessage) => {}
        _ => panic!("accepted a tokenizer without the token"),
    }
    assert_eq!(
        LoadError::NoEndOfMessage.message("t.json"),
        "<|im_end|> is not in the tokenizer; is this a Qwen chat model?"
    );
    match ChatTokenizer::load("{") {
        Err(LoadError::NoTokenizer(reason)) => {
            let message = LoadError::NoTokenizer(reason.clone()).message("t.json");
            assert_eq!(message, format!("cannot load t.json: {reason}"));
        }
        _ => panic!("accepted what is no tokenizer"),
    }
    assert_eq!(chat_tokenizer().end_of_message_token, 256);
}

/// Loads the test tokenizer with one setting replaced.
fn load_with(setting: &str, replacement: &str) -> Result<ChatTokenizer, LoadError> {
    let json = tokenizer_json("<|im_end|>");
    assert_eq!(json.matches(setting).count(), 1, "{setting}");
    ChatTokenizer::load(&json.replace(setting, replacement))
}

#[test]
fn settings_that_can_fail_later_are_refused() {
    let decoder = "\"decoder\":{\"type\":\"ByteLevel\",\"add_prefix_space\":false,\"trim_offsets\":true,\"use_regex\":false}";
    for (setting, replacement) in [
        ("\"truncation\":null", "\"truncation\":{\"direction\":\"Right\",\"max_length\":4,\"strategy\":\"LongestFirst\",\"stride\":4}"),
        ("\"truncation\":null", "\"truncation\":{\"direction\":\"Right\"}"),
        ("\"padding\":null", "\"padding\":{}"),
        ("\"padding\":null", "\"padding\":{\"strategy\":{\"Fixed\":1000000000000000000}}"),
        ("\"padding\":null", "\"padding\":{\"strategy\":\"BatchLongest\",\"pad_to_multiple_of\":1000000000000000000}"),
        ("\"lstrip\":false", "\"lstrip\":true"),
        ("\"rstrip\":false", "\"rstrip\":true"),
        ("\"post_processor\":null", "\"post_processor\":{\"type\":\"ByteLevel\",\"sep\":[\"s\",1],\"cls\":[\"c\",2]}"),
        ("\"post_processor\":null", "\"post_processor\":{\"type\":\"ByteLevel\",\"single\":[],\"pair\":[],\"special_tokens\":{}}"),
        ("\"post_processor\":null", "\"post_processor\":{\"type\":\"ByteLevel\",\"processors\":[]}"),
        (
            "\"pre_tokenizer\":{\"type\":\"ByteLevel\"",
            "\"pre_tokenizer\":{\"type\":\"Split\",\"pattern\":{\"Regex\":\"(?=ab\\\\K)\"},\"behavior\":\"Isolated\",\"invert\":false",
        ),
        (decoder, "\"decoder\":{\"type\":\"Replace\",\"pattern\":{\"Regex\":\"a\\\\Kb\"},\"content\":\"\"}"),
        ("\"normalizer\":null", "\"normalizer\":{\"type\":\"Precompiled\",\"precompiled_charsmap\":7}"),
        ("\"normalizer\":null", "\"normalizer\":{}"),
        ("\"post_processor\":null", "\"post_processor\":{\"type\":\"Sequence\",\"processors\":[]}"),
        (decoder, "\"decoder\":{\"type\":\"Strip\",\"content\":\" \",\"start\":0,\"stop\":3}"),
        (decoder, "\"decoder\":{\"type\":\"Sequence\",\"decoders\":[{\"type\":\"Fuse\"},{\"type\":\"BPEDecoder\",\"suffix\":\"_\"}]}"),
        (decoder, "\"decoder\":{\"type\":\"Sequence\"}"),
        ("\"pre_tokenizer\":{\"type\":\"ByteLevel\"", "\"pre_tokenizer\":{\"type\":\"FixedLength\""),
        ("\"continuing_subword_prefix\":null", "\"continuing_subword_prefix\":\"##\""),
        ("\"type\":\"BPE\"", "\"type\":\"Unigram\""),
    ] {
        assert!(matches!(load_with(setting, replacement), Err(LoadError::UnknownSettings)), "{replacement}");
    }
    assert_eq!(
        LoadError::UnknownSettings.message("t.json"),
        "cannot load t.json: unknown settings; is this a Qwen chat model?"
    );
}

#[test]
fn known_settings_are_taken() {
    let decoder = "\"decoder\":{\"type\":\"ByteLevel\",\"add_prefix_space\":false,\"trim_offsets\":true,\"use_regex\":false}";
    for (setting, replacement) in [
        ("\"truncation\":null", "\"truncation\":{\"direction\":\"Right\",\"max_length\":4,\"strategy\":\"LongestFirst\",\"stride\":3}"),
        ("\"padding\":null,", ""),
        (
            "\"padding\":null",
            "\"padding\":{\"strategy\":\"BatchLongest\",\"direction\":\"Right\",\"pad_to_multiple_of\":null,\"pad_id\":0,\
             \"pad_type_id\":0,\"pad_token\":\"x\"}",
        ),
        (decoder, "\"decoder\":{\"type\":\"Replace\",\"pattern\":{\"String\":\"a\"},\"content\":\" \"}"),
        ("\"normalizer\":null", "\"normalizer\":{\"type\":\"NFC\"}"),
        ("\"post_processor\":null", "\"post_processor\":{\"type\":\"ByteLevel\",\"add_prefix_space\":false,\"trim_offsets\":false}"),
        (
            decoder,
            "\"decoder\":{\"type\":\"Sequence\",\"decoders\":[{\"type\":\"Fuse\"},{\"type\":\"Strip\",\"content\":\" \",\"start\":1,\"stop\":0}]}",
        ),
        (decoder, "\"decoder\":null"),
        ("\"continuing_subword_prefix\":null", "\"continuing_subword_prefix\":\"\""),
        (
            "\"pre_tokenizer\":{\"type\":\"ByteLevel\",",
            "\"pre_tokenizer\":{\"type\":\"Sequence\",\"pretokenizers\":[{\"type\":\"Split\",\"pattern\":{\"Regex\":\"\\\\s+\"},\
             \"behavior\":\"Isolated\",\"invert\":false},{\"type\":\"ByteLevel\",\"add_prefix_space\":false,\
             \"trim_offsets\":false,\"use_regex\":false}],",
        ),
    ] {
        assert!(load_with(setting, replacement).is_ok(), "{replacement}");
    }
    // A long prompt is cut where the settings say so.
    let truncating = load_with(
        "\"truncation\":null",
        "\"truncation\":{\"direction\":\"Right\",\"max_length\":4,\"strategy\":\"LongestFirst\",\"stride\":3}",
    );
    let model = ChatModel::load(
        None,
        match truncating {
            Ok(tokenizer) => tokenizer,
            Err(error) => panic!("{error:?}"),
        },
        EngineLimits { max_input_len: 200, max_seq_len: 250 },
        100_000,
        Settings { max_tokens: 10, kv_cache_tokens: 100_000 },
    );
    assert_eq!(model.start_reply(&[user("Hi")]).unwrap().prompt_tokens.len(), 4);
}

#[test]
fn what_is_no_tokenizer_is_refused_with_a_reason() {
    for json in ["", "{\"decoder\":", "{\"version\":\"1.0\"} x", "[1, 2", "{}", "[]", "{\"model\":null}"] {
        assert!(matches!(ChatTokenizer::load(json), Err(LoadError::NoTokenizer(_))), "{json}");
    }
    match ChatTokenizer::load("{\"decoder\":") {
        Err(LoadError::NoTokenizer(reason)) => assert_eq!(reason, "EOF while parsing a value at line 1 column 11"),
        _ => panic!("accepted half a file"),
    }
    // The last of two settings counts.
    let json = tokenizer_json("<|im_end|>").replacen(
        "\"normalizer\":null",
        "\"normalizer\":{\"type\":\"Precompiled\"},\"normalizer\":null",
        1,
    );
    assert!(ChatTokenizer::load(&json).is_ok());
}

#[test]
fn a_reply_is_planned_within_the_limits() {
    let model = model(200, 8192);
    assert_eq!(model.name(), "test");
    assert_eq!(model.context_limit(), 200);
    let messages = [user("Hi")];
    let request = model.start_reply(&messages).unwrap();
    let prompt = chatml_prompt(&messages);
    // The end of the message is one token; every other byte is one too.
    assert_eq!(request.prompt_tokens.len(), prompt.len() - "<|im_end|>".len() + 1);
    assert_eq!(request.prompt_tokens[0], u32::from(b'<'));
    assert!(request.prompt_tokens.contains(&256));
    assert_eq!(request.max_new_tokens as usize, 250 - request.prompt_tokens.len());
    assert_eq!(request.end_token, 256);
}

#[test]
fn a_reply_has_no_more_tokens_than_the_settings_allow() {
    let request = model(200, 7).start_reply(&[user("Hi")]).unwrap();
    assert_eq!(request.max_new_tokens, 7);
}

#[test]
fn a_conversation_that_is_too_long_is_refused() {
    match model(10, 7).start_reply(&[user("Hi")]) {
        Err(error @ StartError::TooLong { tokens, limit: 10 }) => {
            assert_eq!(
                error.message(),
                format!(
                    "the conversation is {tokens} tokens, over this engine's 10 limit; press Ctrl+L to start a \
                     new one"
                )
            );
        }
        other => panic!("{other:?}"),
    }
    assert_eq!(StartError::CannotTokenize("why".to_owned()).message(), "cannot tokenize: why");
}

#[test]
fn a_prompt_of_just_the_limit_is_accepted() {
    let model = model(3, 7);
    assert_eq!(model.plan_reply(vec![1, 2, 3]).unwrap().max_new_tokens, 7);
    assert!(model.plan_reply(vec![1, 2, 3, 4]).is_err());
}

#[test]
fn a_model_without_a_name_is_called_model() {
    let limits = EngineLimits { max_input_len: 30, max_seq_len: 40 };
    let settings = Settings { max_tokens: 1, kv_cache_tokens: 20 };
    let model = ChatModel::load(None, chat_tokenizer(), limits, 20, settings);
    assert_eq!(model.name(), "model");
    assert_eq!(model.context_limit(), 10);
}

#[test]
fn the_seed_is_the_low_half_of_the_clock() {
    assert_eq!(random_seed(Some((3u128 << 64) + 17)), 17);
    assert_eq!(random_seed(None), 0);
}

#[test]
fn a_stream_is_cancelled_by_its_request() {
    let stream = ReplyStream { request_id: 9, prompt_tokens: 3 };
    assert_eq!(stream.cancel(), EngineCommand::Cancel(9));
}
