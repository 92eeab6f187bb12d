//! The tokenizer of the model, from the `tokenizers` crate.
use std::str::FromStr;

use serde_json::Value;
use tokenizers::Tokenizer;
use vstd::prelude::*;

use crate::json::{
    is_set, is_set_in, items_of, json_is_null, json_items, json_member, json_number, json_text, kind, kind_of,
    member_of, number_of, setting, setting_of, text_of, written_json,
};
use crate::text::{chars_of, same_text};

verus! {

/// A tokenizer of the `tokenizers` crate.
#[verifier::external_type_specification]
#[verifier::external_body]
pub struct ExTokenizer(Tokenizer);

/// Whether `Tokenizer::from_str` can make this of a tokenizer's JSON: the tokenizer, or why there
/// is none. Where two tokens of the vocabulary share an id, it is left to chance which of them the
/// id is read back as.
pub uninterp spec fn may_read(json: Seq<char>, outcome: Result<Tokenizer, Seq<char>>) -> bool;

/// Whether a tokenizer was read from settings that this library takes.
pub uninterp spec fn has_known_settings(tokenizer: Tokenizer) -> bool;

/// The id that a tokenizer's vocabulary gives to a token.
pub uninterp spec fn token_id(tokenizer: Tokenizer, token: Seq<char>) -> Option<u32>;

/// Whether encoding `text` can end in `outcome`: the token ids, or an error. A tokenizer whose
/// model drops merges at random can encode one text in several ways.
pub uninterp spec fn may_encode(
    tokenizer: Tokenizer,
    text: Seq<char>,
    add_special_tokens: bool,
    outcome: Result<Seq<u32>, Seq<char>>,
) -> bool;

/// The text that some token ids decode to, or `None` where the decoder fails.
pub uninterp spec fn decoded(
    tokenizer: Tokenizer,
    ids: Seq<u32>,
    skip_special_tokens: bool,
) -> Option<Seq<char>>;

/// Whether the longest encoding that is kept is longer than the part of it that is repeated.
pub open spec fn cuts_forward(truncation: Value) -> bool {
    match (setting(truncation, "max_length"@), setting(truncation, "stride"@)) {
        (Some(longest), Some(repeated)) => match (json_number(longest), json_number(repeated)) {
            (Some(longest), Some(repeated)) => longest == 0 || repeated < longest,
            _ => false,
        },
        _ => false,
    }
}

/// Whether a normalizer is one of Unicode's normal forms.
pub open spec fn is_normal_form(normalizer: Value) -> bool {
    match kind(normalizer) {
        Some(kind) => kind == "NFC"@ || kind == "NFD"@ || kind == "NFKC"@ || kind == "NFKD"@,
        None => false,
    }
}

/// Whether a regular expression has the escape by which a match begins elsewhere than where it was
/// found, and so possibly after its own end.
pub open spec fn moves_the_start(pattern: Seq<char>) -> bool {
    exists|i: int|
        0 <= i < pattern.len() - 1 && #[trigger] pattern[i] == '\\' && pattern[i + 1] == 'K'
}

/// Whether the matches of a step's pattern begin where they are found.
pub open spec fn has_plain_pattern(step: Value) -> bool {
    match json_member(step, "pattern"@) {
        Some(pattern) => match json_member(pattern, "Regex"@) {
            Some(regex) => json_text(regex) matches Some(text) && !moves_the_start(text),
            None => true,
        },
        None => true,
    }
}

/// Whether a step of splitting the text is by a pattern or into bytes.
pub open spec fn is_known_split(step: Value) -> bool {
    match kind(step) {
        Some(kind) => kind == "ByteLevel"@ || kind == "Split"@ && has_plain_pattern(step),
        None => false,
    }
}

/// Whether a step of putting the text back together is one that takes any tokens. Stripping is,
/// where nothing is stripped at the end.
pub open spec fn is_known_decoder(step: Value) -> bool {
    match kind(step) {
        Some(kind) => {
            ||| kind == "ByteLevel"@
            ||| kind == "ByteFallback"@
            ||| kind == "Fuse"@
            ||| kind == "Metaspace"@
            ||| kind == "Replace"@ && has_plain_pattern(step)
            ||| kind == "WordPiece"@
            ||| kind == "Strip"@ && match setting(step, "stop"@) {
                Some(stop) => json_number(stop) == Some(0u64),
                None => false,
            }
        },
        None => false,
    }
}

/// Whether a step of the decoder, or of splitting the text, is known.
pub open spec fn is_known_step(step: Value, decoder: bool) -> bool {
    if decoder {
        is_known_decoder(step)
    } else {
        is_known_split(step)
    }
}

/// The steps of a part of the tokenizer, listed under `key` where it is a sequence of them.
pub open spec fn steps_of(part: Value, key: Seq<char>) -> Option<Seq<Value>> {
    if kind(part) == Some("Sequence"@) {
        match json_member(part, key) {
            Some(list) => json_items(list),
            None => None,
        }
    } else {
        Some(seq![part])
    }
}

/// Whether the steps of a part of the tokenizer are all known.
pub open spec fn has_known_steps(part: Value, key: Seq<char>, decoder: bool) -> bool {
    match steps_of(part, key) {
        Some(steps) => forall|i: int|
            0 <= i < steps.len() ==> is_known_step(#[trigger] steps[i], decoder),
        None => false,
    }
}

/// Whether what follows the splitting is by bytes. The reader goes by the members and not by the
/// kind: those that another processor needs must not be there.
pub open spec fn is_known_processor(processor: Value) -> bool {
    &&& kind(processor) == Some("ByteLevel"@)
    &&& json_member(processor, "sep"@) is None
    &&& json_member(processor, "single"@) is None
    &&& json_member(processor, "processors"@) is None
}

/// Whether encodings are only filled up to the longest of those encoded together.
pub open spec fn fills_up(padding: Value) -> bool {
    &&& setting(padding, "strategy"@) matches Some(strategy) && json_text(strategy) == Some(
        "BatchLongest"@,
    )
    &&& setting(padding, "pad_to_multiple_of"@) is None
}

/// Whether a token of the tokenizer's own is found as it stands, without the white space around it.
pub open spec fn is_plain_token(token: Value) -> bool {
    !is_set(token, "lstrip"@) && !is_set(token, "rstrip"@)
}

/// Whether the tokens of the tokenizer's own are all found as they stand.
pub open spec fn has_plain_tokens(list: Value) -> bool {
    match json_items(list) {
        Some(tokens) => forall|i: int|
            0 <= i < tokens.len() ==> is_plain_token(#[trigger] tokens[i]),
        None => true,
    }
}

/// Whether a model puts nothing before the later parts of a word.
pub open spec fn has_no_prefix(model: Value) -> bool {
    match setting(model, "continuing_subword_prefix"@) {
        Some(prefix) => json_text(prefix) matches Some(text) && text.len() == 0,
        None => true,
    }
}

/// Whether a tokenizer's JSON has settings that this library takes: those of a byte-pair encoding
/// such as Qwen's. What is left out or `null` is not set.
pub open spec fn is_known(json: Value) -> bool {
    &&& setting(json, "truncation"@) matches Some(truncation) ==> cuts_forward(truncation)
    &&& setting(json, "padding"@) matches Some(padding) ==> fills_up(padding)
    &&& setting(json, "added_tokens"@) matches Some(tokens) ==> has_plain_tokens(tokens)
    &&& setting(json, "normalizer"@) matches Some(normalizer) ==> is_normal_form(normalizer)
    &&& setting(json, "pre_tokenizer"@) matches Some(splitter) ==> has_known_steps(
        splitter,
        "pretokenizers"@,
        false,
    )
    &&& setting(json, "post_processor"@) matches Some(processor) ==> is_known_processor(processor)
    &&& setting(json, "decoder"@) matches Some(decoder) ==> has_known_steps(
        decoder,
        "decoders"@,
        true,
    )
    &&& setting(json, "model"@) matches Some(model) ==> kind(model) == Some("BPE"@)
        && has_no_prefix(model)
}

/// Tells whether the longest encoding that is kept is longer than the part of it that is repeated.
fn cuts_forward_in(truncation: &Value) -> (result: bool)
    ensures
        result == cuts_forward(*truncation),
{
    match (setting_of(truncation, "max_length"), setting_of(truncation, "stride")) {
        (Some(longest), Some(repeated)) => match (number_of(longest), number_of(repeated)) {
            (Some(longest), Some(repeated)) => longest == 0 || repeated < longest,
            _ => false,
        },
        _ => false,
    }
}

/// Tells whether a normalizer is one of Unicode's normal forms.
fn is_normal_form_in(normalizer: &Value) -> (result: bool)
    ensures
        result == is_normal_form(*normalizer),
{
    match kind_of(normalizer) {
        Some(kind) => same_text(kind, "NFC") || same_text(kind, "NFD") || same_text(kind, "NFKC")
            || same_text(kind, "NFKD"),
        None => false,
    }
}

/// Tells whether a regular expression has the escape by which a match begins elsewhere.
fn moves_the_start_in(pattern: &str) -> (result: bool)
    ensures
        result == moves_the_start(pattern@),
{
    let chars: Vec<char> = chars_of(pattern);
    let mut index: usize = 1;
    while index < chars.len()
        invariant
            1 <= index,
            index <= chars.len() || chars.len() == 0,
            chars@ == pattern@,
            forall|i: int|
                0 <= i < index - 1 && i < pattern@.len() - 1 && #[trigger] pattern@[i] == '\\'
                    ==> pattern@[i + 1] != 'K',
        decreases chars.len() - index,
    {
        if chars[index - 1] == '\\' && chars[index] == 'K' {
            assert(pattern@[index - 1] == '\\');
            return true;
        }
        index += 1;
    }
    false
}

/// Tells whether the matches of a step's pattern begin where they are found.
fn has_plain_pattern_in(step: &Value) -> (result: bool)
    ensures
        result == has_plain_pattern(*step),
{
    match member_of(step, "pattern") {
        Some(pattern) => match member_of(pattern, "Regex") {
            Some(regex) => match text_of(regex) {
                Some(text) => !moves_the_start_in(text),
                None => false,
            },
            None => true,
        },
        None => true,
    }
}

/// Tells whether what follows the splitting is by bytes.
fn is_known_processor_in(processor: &Value) -> (result: bool)
    ensures
        result == is_known_processor(*processor),
{
    (match kind_of(processor) {
        Some(kind) => same_text(kind, "ByteLevel"),
        None => false,
    }) && member_of(processor, "sep").is_none() && member_of(processor, "single").is_none()
        && member_of(processor, "processors").is_none()
}

/// Tells whether encodings are only filled up to the longest of those encoded together.
fn fills_up_in(padding: &Value) -> (result: bool)
    ensures
        result == fills_up(*padding),
{
    (match setting_of(padding, "strategy") {
        Some(strategy) => match text_of(strategy) {
            Some(strategy) => same_text(strategy, "BatchLongest"),
            None => false,
        },
        None => false,
    }) && setting_of(padding, "pad_to_multiple_of").is_none()
}

/// Tells whether the tokens of the tokenizer's own are all found as they stand.
fn has_plain_tokens_in(list: &Value) -> (result: bool)
    ensures
        result == has_plain_tokens(*list),
{
    match items_of(list) {
        Some(tokens) => {
            for index in 0..tokens.len()
                invariant
                    json_items(*list) == Some(tokens@),
                    forall|i: int| 0 <= i < index ==> is_plain_token(#[trigger] tokens@[i]),
            {
                let token = &tokens[index];
                if is_set_in(token, "lstrip") || is_set_in(token, "rstrip") {
                    let ghost refused = (json_items(*list)->0)[index as int];
                    assert(!is_plain_token(refused));
                    return false;
                }
            }
            true
        },
        None => true,
    }
}

/// Tells whether a step of splitting the text is known.
fn is_known_split_in(step: &Value) -> (result: bool)
    ensures
        result == is_known_split(*step),
{
    match kind_of(step) {
        Some(kind) => same_text(kind, "ByteLevel") || same_text(kind, "Split")
            && has_plain_pattern_in(step),
        None => false,
    }
}

/// Tells whether a step of the decoder is known.
fn is_known_decoder_in(step: &Value) -> (result: bool)
    ensures
        result == is_known_decoder(*step),
{
    match kind_of(step) {
        Some(kind) => same_text(kind, "ByteLevel") || same_text(kind, "ByteFallback") || same_text(
            kind,
            "Fuse",
        ) || same_text(kind, "Metaspace") || (same_text(kind, "Replace")
            && has_plain_pattern_in(step)) || same_text(kind, "WordPiece") || same_text(kind, "Strip") && match setting_of(step, "stop") {
            Some(stop) => match number_of(stop) {
                Some(stop) => stop == 0,
                None => false,
            },
            None => false,
        },
        None => false,
    }
}

/// Tells whether a step of the decoder, or of splitting the text, is known.
fn is_known_step_in(step: &Value, decoder: bool) -> (result: bool)
    ensures
        result == is_known_step(*step, decoder),
{
    if decoder {
        is_known_decoder_in(step)
    } else {
        is_known_split_in(step)
    }
}

/// Tells whether the steps of a part of the tokenizer are all known.
fn has_known_steps_in(part: &Value, key: &str, decoder: bool) -> (result: bool)
    ensures
        result == has_known_steps(*part, key@, decoder),
{
    let is_sequence: bool = match kind_of(part) {
        Some(kind) => same_text(kind, "Sequence"),
        None => false,
    };
    if !is_sequence {
        assert(steps_of(*part, key@)->0[0] == *part);
        return is_known_step_in(part, decoder);
    }
    match member_of(part, key) {
        Some(list) => match items_of(list) {
            Some(steps) => {
                for index in 0..steps.len()
                    invariant
                        steps_of(*part, key@) == Some(steps@),
                        forall|i: int|
                            0 <= i < index ==> is_known_step(#[trigger] steps@[i], decoder),
                {
                    if !is_known_step_in(&steps[index], decoder) {
                        let ghost step = (steps_of(*part, key@)->0)[index as int];
                        assert(!is_known_step(step, decoder));
                        return false;
                    }
                }
                true
            },
            None => false,
        },
        None => false,
    }
}

/// Tells whether a model puts nothing before the later parts of a word.
fn has_no_prefix_in(model: &Value) -> (result: bool)
    ensures
        result == has_no_prefix(*model),
{
    match setting_of(model, "continuing_subword_prefix") {
        Some(prefix) => match text_of(prefix) {
            Some(text) => text.unicode_len() == 0,
            None => false,
        },
        None => true,
    }
}

/// Tells whether a tokenizer's JSON has settings that this library takes.
pub(crate) fn is_known_in(json: &Value) -> (result: bool)
    ensures
        result == is_known(*json),
{
    (match setting_of(json, "truncation") {
        Some(truncation) => cuts_forward_in(truncation),
        None => true,
    }) && (match setting_of(json, "padding") {
        Some(padding) => fills_up_in(padding),
        None => true,
    }) && (match setting_of(json, "added_tokens") {
        Some(tokens) => has_plain_tokens_in(tokens),
        None => true,
    }) && (match setting_of(json, "normalizer") {
        Some(normalizer) => is_normal_form_in(normalizer),
        None => true,
    }) && (match setting_of(json, "pre_tokenizer") {
        Some(splitter) => has_known_steps_in(splitter, "pretokenizers", false),
        None => true,
    }) && (match setting_of(json, "post_processor") {
        Some(processor) => is_known_processor_in(processor),
        None => true,
    }) && (match setting_of(json, "decoder") {
        Some(decoder) => has_known_steps_in(decoder, "decoders", true),
        None => true,
    }) && (match setting_of(json, "model") {
        Some(model) => match kind_of(model) {
            Some(kind) => same_text(kind, "BPE") && has_no_prefix_in(model),
            None => false,
        },
        None => true,
    })
}

/// `Tokenizer::from_str` reads a tokenizer from its JSON. Nothing is claimed of which JSON is
/// accepted. On settings that are not known it can panic, now or when the tokenizer is used: on a
/// subword prefix longer than a token, say, or on a decoder that strips more than a token has. The
/// JSON is one that was written from a value, so that no key comes twice.
#[verifier::external_body]
pub(crate) fn read_tokenizer(json: &str) -> (result: Result<Tokenizer, String>)
    requires
        exists|value: Value| json@ == #[trigger] written_json(value) && is_known(value),
    ensures
        match result {
            Ok(tokenizer) => may_read(json@, Ok(tokenizer)) && has_known_settings(tokenizer),
            Err(error) => may_read(json@, Err(error@)),
        },
{
    Tokenizer::from_str(json).map_err(|error| error.to_string())
}

/// `Tokenizer::token_to_id` looks a token up in the vocabulary.
#[verifier::external_body]
pub(crate) fn lookup_token(tokenizer: &Tokenizer, token: &str) -> (id: Option<u32>)
    ensures
        id == token_id(*tokenizer, token@),
{
    tokenizer.token_to_id(token)
}

/// `Tokenizer::encode` turns text into token ids. The contract says that the outcome is one that
/// this tokenizer can give for this text, and no more: with dropout the choice is random. It
/// panics on some settings: of the truncation, of the tokens that take the white space around them,
/// and of the special tokens where those are added.
#[verifier::external_body]
pub(crate) fn encode_text(
    tokenizer: &Tokenizer,
    text: &str,
    add_special_tokens: bool,
) -> (result: Result<Vec<u32>, String>)
    requires
        has_known_settings(*tokenizer),
        !add_special_tokens,
    ensures
        match result {
            Ok(ids) => may_encode(*tokenizer, text@, add_special_tokens, Ok(ids@)),
            Err(error) => may_encode(*tokenizer, text@, add_special_tokens, Err(error@)),
        },
{
    match tokenizer.encode(text, add_special_tokens) {
        Ok(encoding) => Ok(encoding.get_ids().to_vec()),
        Err(error) => Err(error.to_string()),
    }
}

/// `Tokenizer::decode` turns token ids back into text, or fails. Its result depends on the
/// tokenizer, the ids and the flag alone. It panics on some settings of the decoder.
#[verifier::external_body]
pub(crate) fn decode_tokens(tokenizer: &Tokenizer, ids: &[u32], skip_special_tokens: bool) -> (text:
    Option<String>)
    requires
        has_known_settings(*tokenizer),
    ensures
        match text {
            Some(text) => decoded(*tokenizer, ids@, skip_special_tokens) == Some(text@),
            None => decoded(*tokenizer, ids@, skip_special_tokens) is None,
        },
{
    tokenizer.decode(ids, skip_special_tokens).ok()
}

/// Whether a part of a tokenizer's JSON is missing or `null`.
pub open spec fn is_unset(json: Value, key: Seq<char>) -> bool {
    json_member(json, key) is None || json_is_null(json_member(json, key)->0)
}

/// Whether a value has a text under `type`.
pub open spec fn is_called(value: Value, name: Seq<char>) -> bool {
    json_member(value, "type"@) is Some && json_text(json_member(value, "type"@)->0) == Some(name)
}

/// A tokenizer of the kind that Qwen has is taken: a byte-pair encoding without a prefix, normal
/// forms, steps that split by a plain pattern and then into bytes, and bytes read back; with no
/// truncation, no padding, and tokens that are found as they stand.
pub proof fn a_tokenizer_like_that_of_qwen_is_taken(
    json: Value,
    normalizer: Value,
    splitter: Value,
    list: Value,
    steps: Seq<Value>,
    processor: Value,
    decoder: Value,
    model: Value,
    tokens: Value,
)
    requires
        is_unset(json, "truncation"@),
        is_unset(json, "padding"@),
        json_member(json, "normalizer"@) == Some(normalizer),
        is_called(normalizer, "NFC"@),
        json_member(json, "pre_tokenizer"@) == Some(splitter),
        is_called(splitter, "Sequence"@),
        json_member(splitter, "pretokenizers"@) == Some(list),
        json_items(list) == Some(steps),
        steps.len() == 2,
        is_called(steps[0], "Split"@),
        json_member(steps[0], "pattern"@) is None || json_member(
            json_member(steps[0], "pattern"@)->0,
            "Regex"@,
        ) is None,
        is_called(steps[1], "ByteLevel"@),
        json_member(json, "post_processor"@) == Some(processor),
        is_called(processor, "ByteLevel"@),
        json_member(processor, "sep"@) is None,
        json_member(processor, "single"@) is None,
        json_member(processor, "processors"@) is None,
        json_member(json, "decoder"@) == Some(decoder),
        is_called(decoder, "ByteLevel"@),
        json_member(json, "model"@) == Some(model),
        is_called(model, "BPE"@),
        is_unset(model, "continuing_subword_prefix"@),
        json_member(json, "added_tokens"@) == Some(tokens),
        json_items(tokens) is Some ==> forall|i: int|
            #![trigger (json_items(tokens)->0)[i]]
            0 <= i < (json_items(tokens)->0).len() ==> !is_set(
                (json_items(tokens)->0)[i],
                "lstrip"@,
            ) && !is_set((json_items(tokens)->0)[i], "rstrip"@),
    ensures
        is_known(json),
{
    reveal_strlit("ByteLevel");
    reveal_strlit("Sequence");
    assert("ByteLevel"@.len() != "Sequence"@.len());
    assert(steps_of(splitter, "pretokenizers"@) == Some(steps));
    assert(has_known_steps(splitter, "pretokenizers"@, false));
    assert(steps_of(decoder, "decoders"@) == Some(seq![decoder]));
    assert(has_known_steps(decoder, "decoders"@, true));
}

/// Settings on which the tokenizer can fail later are refused: a truncation that repeats as much as
/// it keeps, tokens that take the white space around them, a decoder that strips the end of a token,
/// a prefix in the model, and kinds of any part that are not known.
pub proof fn settings_that_can_fail_are_refused(
    json: Value,
    key: Seq<char>,
    part: Value,
    inner: Value,
    index: int,
    name: Seq<char>,
)
    requires
        json_member(json, key) == Some(part),
        !json_is_null(part),
    ensures
        ({
            let repeated = json_member(part, "stride"@);
            key == "truncation"@ && json_member(part, "max_length"@) == Some(inner) && json_number(
                inner,
            ) is Some && json_number(inner)->0 > 0 && repeated is Some && json_number(repeated->0)
                is Some && json_number(repeated->0)->0 >= json_number(inner)->0 ==> !is_known(json)
        }),
        key == "added_tokens"@ && json_items(part) is Some && 0 <= index < (json_items(
            part,
        )->0).len() && (json_items(part)->0)[index] == inner && (is_set(inner, "lstrip"@) || is_set(
            inner,
            "rstrip"@,
        )) ==> !is_known(json),
        key == "decoder"@ && is_called(part, "Strip"@) && json_member(part, "stop"@) == Some(inner)
            && json_number(inner) != Some(0u64) ==> !is_known(json),
        key == "model"@ && json_member(part, "continuing_subword_prefix"@) == Some(inner)
            && json_text(inner) is Some && (json_text(inner)->0).len() > 0 && !json_is_null(inner)
            ==> !is_known(json),
        key == "model"@ && is_called(part, name) && name != "BPE"@ ==> !is_known(json),
        key == "normalizer"@ && is_called(part, "Precompiled"@) ==> !is_known(json),
        key == "post_processor"@ && json_member(part, "sep"@) is Some ==> !is_known(json),
        key == "padding"@ && json_member(part, "pad_to_multiple_of"@) == Some(inner)
            && !json_is_null(inner) ==> !is_known(json),
{
    reveal_strlit("Strip");
    reveal_strlit("Sequence");
    reveal_strlit("ByteLevel");
    reveal_strlit("ByteFallback");
    reveal_strlit("Fuse");
    reveal_strlit("Metaspace");
    reveal_strlit("Replace");
    reveal_strlit("WordPiece");
    reveal_strlit("Precompiled");
    reveal_strlit("NFC");
    reveal_strlit("NFD");
    reveal_strlit("NFKC");
    reveal_strlit("NFKD");
    assert("Strip"@.len() == 5 && "Sequence"@.len() == 8 && "ByteLevel"@.len() == 9);
    assert("ByteFallback"@.len() == 12 && "Fuse"@.len() == 4 && "Metaspace"@.len() == 9);
    assert("Replace"@.len() == 7 && "WordPiece"@.len() == 9 && "Precompiled"@.len() == 11);
    assert("NFC"@.len() == 3 && "NFD"@.len() == 3 && "NFKC"@.len() == 4 && "NFKD"@.len() == 4);
    if key == "decoder"@ && is_called(part, "Strip"@) {
        assert(steps_of(part, "decoders"@) == Some(seq![part]));
        assert(seq![part][0] == part);
        if has_known_steps(part, "decoders"@, true) {
            let steps = steps_of(part, "decoders"@)->0;
            assert(steps[0] == part);
            assert(is_known_step(steps[0], true));
        }
    }
    if key == "added_tokens"@ && json_items(part) is Some && 0 <= index < (json_items(
        part,
    )->0).len() && (json_items(part)->0)[index] == inner {
        if has_plain_tokens(part) {
            assert(is_plain_token((json_items(part)->0)[index]));
        }
    }
}

} // verus!
