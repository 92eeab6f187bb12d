//! Turning the token ids that the engine streams back into text.
use tokenizers::Tokenizer;
use vstd::prelude::*;
use vstd::slice::slice_subrange;
use vstd::utf8::{decode_utf8, encode_utf8, is_char_boundary};

use crate::text::lemma_encode_concat;
use crate::tokenizer::{decode_tokens, decoded, has_known_settings};

verus! {

/// The character that stands for bytes which are no complete character.
pub const REPLACEMENT: char = '\u{FFFD}';

/// Whether decoding one token more has completed some text: there is more of it than was
/// `already` returned, and it does not end in the middle of a character.
pub open spec fn completes(already: Seq<char>, text: Seq<char>) -> bool {
    &&& encode_utf8(text).len() > encode_utf8(already).len()
    &&& text.last() != REPLACEMENT
}

/// The part of `text` that comes after as many bytes as `already` takes.
pub open spec fn new_text(already: Seq<char>, text: Seq<char>) -> Seq<char> {
    decode_utf8(encode_utf8(text).skip(encode_utf8(already).len() as int))
}

/// Whether `text` can be cut after as many bytes as `already` takes.
pub open spec fn can_cut(already: Seq<char>, text: Seq<char>) -> bool {
    is_char_boundary(encode_utf8(text), encode_utf8(already).len() as int)
}

/// Whether there is some text and it does not end in the middle of a character.
pub open spec fn is_whole(text: Seq<char>) -> bool {
    text.len() > 0 && text.last() != REPLACEMENT
}

/// A [`TextDecoder`] as mathematical values.
pub struct DecoderState {
    pub tokens: Seq<u32>,
    pub context_start: int,
    pub returned_end: int,
}

impl DecoderState {
    pub open spec fn start() -> Self {
        DecoderState { tokens: seq![], context_start: 0, returned_end: 0 }
    }

    pub open spec fn wf(self) -> bool {
        0 <= self.context_start <= self.returned_end <= self.tokens.len()
    }

    /// The state once `token` has been added and nothing was returned for it.
    pub open spec fn waiting(self, token: u32) -> Self {
        DecoderState { tokens: self.tokens.push(token), ..self }
    }

    /// The text of the context that was returned before.
    pub open spec fn context_text(self, tokenizer: Tokenizer) -> Option<Seq<char>> {
        decoded(tokenizer, self.tokens.subrange(self.context_start, self.returned_end), true)
    }

    /// The text of the context and of everything after it.
    pub open spec fn window_text(self, tokenizer: Tokenizer) -> Option<Seq<char>> {
        decoded(
            tokenizer,
            self.tokens.subrange(self.context_start, self.tokens.len() as int),
            true,
        )
    }

    /// The state in which everything so far has been returned.
    pub open spec fn returned(self) -> Self {
        DecoderState {
            tokens: self.tokens,
            context_start: self.returned_end,
            returned_end: self.tokens.len() as int,
        }
    }

    /// What adding `token` leads to: the next state, and the text it completes if it does.
    pub open spec fn push(self, tokenizer: Tokenizer, token: u32) -> (Self, Option<Seq<char>>) {
        let waiting = self.waiting(token);
        match (waiting.context_text(tokenizer), waiting.window_text(tokenizer)) {
            (Some(already), Some(text)) if completes(already, text) => (
                waiting.returned(),
                Some(new_text(already, text)),
            ),
            _ => (waiting, None),
        }
    }

    /// Whether the text that adding `token` completes can be cut where the new part begins.
    pub open spec fn push_can_cut(self, tokenizer: Tokenizer, token: u32) -> bool {
        let waiting = self.waiting(token);
        match (waiting.context_text(tokenizer), waiting.window_text(tokenizer)) {
            (Some(already), Some(text)) => completes(already, text) ==> can_cut(already, text),
            _ => true,
        }
    }
}

/// What adding some tokens one after the other leads to: the last state, and all the text that
/// was returned on the way.
pub open spec fn streamed(tokenizer: Tokenizer, from: DecoderState, ids: Seq<u32>) -> (
    DecoderState,
    Seq<char>,
)
    decreases ids.len(),
{
    if ids.len() == 0 {
        (from, seq![])
    } else {
        let (state, text) = streamed(tokenizer, from, ids.drop_last());
        let (next, piece) = state.push(tokenizer, ids.last());
        match piece {
            Some(piece) => (next, text + piece),
            None => (next, text),
        }
    }
}

/// Whether every cut on the way falls between characters.
pub open spec fn stream_can_cut(tokenizer: Tokenizer, from: DecoderState, ids: Seq<u32>) -> bool
    decreases ids.len(),
{
    ids.len() == 0 || {
        &&& stream_can_cut(tokenizer, from, ids.drop_last())
        &&& streamed(tokenizer, from, ids.drop_last()).0.push_can_cut(tokenizer, ids.last())
    }
}

/// A piece of text could not be cut off where the text before it ends.
#[derive(Debug, Clone, Copy, PartialEq, Eq)]
pub struct CutInsideCharacter;

/// Turns a stream of token ids into text, one piece at a time.
///
/// A single token can hold part of a multi-byte character, and how a token decodes can depend on
/// the one before it. So each new token is decoded together with a few previous ones, and only
/// complete new text is returned.
pub struct TextDecoder {
    tokens: Vec<u32>,
    /// Start of the tokens re-decoded for context.
    context_start: usize,
    /// End of the tokens whose text was already returned.
    returned_end: usize,
}

impl View for TextDecoder {
    type V = DecoderState;

    closed spec fn view(&self) -> DecoderState {
        DecoderState {
            tokens: self.tokens@,
            context_start: self.context_start as int,
            returned_end: self.returned_end as int,
        }
    }
}

impl TextDecoder {
    pub fn new() -> (decoder: Self)
        ensures
            decoder@ == DecoderState::start(),
            decoder@.wf(),
    {
        TextDecoder { tokens: Vec::new(), context_start: 0, returned_end: 0 }
    }

    /// Takes the text of the context and of the whole window, once a token was added, and
    /// returns the new part if it is complete.
    pub fn accept(&mut self, already: Option<String>, text: Option<String>) -> (piece: Option<String>)
        requires
            old(self)@.wf(),
            match (already, text) {
                (Some(already), Some(text)) => completes(already@, text@) ==> can_cut(
                    already@,
                    text@,
                ),
                _ => true,
            },
        ensures
            final(self)@.wf(),
            match (already, text) {
                (Some(already), Some(text)) if completes(already@, text@) => {
                    &&& final(self)@ == old(self)@.returned()
                    &&& piece matches Some(piece) && piece@ == new_text(already@, text@)
                },
                _ => final(self)@ == old(self)@ && piece is None,
            },
    {
        let already: String = match already {
            Some(already) => already,
            None => {
                return None;
            },
        };
        let text: String = match text {
            Some(text) => text,
            None => {
                return None;
            },
        };
        match new_part(already.as_str(), text.as_str()) {
            Some(part) => {
                self.context_start = self.returned_end;
                self.returned_end = self.tokens.len();
                Some(part)
            },
            None => None,
        }
    }

    /// Adds a token; returns the new text if it completes any.
    pub fn push(&mut self, tokenizer: &Tokenizer, token: u32) -> (piece: Option<String>)
        requires
            old(self)@.wf(),
            has_known_settings(*tokenizer),
            old(self)@.push_can_cut(*tokenizer, token),
        ensures
            final(self)@.wf(),
            ({
                let (next, text) = old(self)@.push(*tokenizer, token);
                &&& final(self)@ == next
                &&& match piece {
                    Some(piece) => text == Some(piece@),
                    None => text is None,
                }
            }),
            piece matches Some(piece) ==> is_whole(piece@),
    {
        proof {
            only_whole_text_is_returned(*tokenizer, self@, token);
        }
        self.tokens.push(token);
        let already: Option<String> = self.context(tokenizer);
        let text: Option<String> = self.window(tokenizer);
        self.accept(already, text)
    }

    /// Adds a token as [`TextDecoder::push`] does, where the text can be cut between two
    /// characters. Where it cannot, returns `Err` and adds nothing.
    pub fn try_push(&mut self, tokenizer: &Tokenizer, token: u32) -> (result: Result<
        Option<String>,
        CutInsideCharacter,
    >)
        requires
            old(self)@.wf(),
            has_known_settings(*tokenizer),
        ensures
            final(self)@.wf(),
            result is Ok <==> old(self)@.push_can_cut(*tokenizer, token),
            match result {
                Ok(piece) => {
                    let (next, text) = old(self)@.push(*tokenizer, token);
                    &&& final(self)@ == next
                    &&& match piece {
                        Some(piece) => text == Some(piece@) && is_whole(piece@),
                        None => text is None,
                    }
                },
                Err(_) => final(self)@ == old(self)@,
            },
    {
        self.tokens.push(token);
        let already: Option<String> = self.context(tokenizer);
        let text: Option<String> = self.window(tokenizer);
        if let (Some(already), Some(text)) = (&already, &text) {
            if is_complete(already.as_str(), text.as_str()) && !text.as_str().is_char_boundary(
                already.as_str().as_bytes().len(),
            ) {
                let _removed: Option<u32> = self.tokens.pop();
                assert(self@.tokens == old(self)@.tokens);
                return Err(CutInsideCharacter);
            }
        }
        proof {
            only_whole_text_is_returned(*tokenizer, old(self)@, token);
        }
        Ok(self.accept(already, text))
    }

    /// Adds some tokens one after the other and returns all the text they complete, or `None`
    /// where a piece of text cannot be cut between two characters.
    pub fn push_all(&mut self, tokenizer: &Tokenizer, ids: &Vec<u32>) -> (text: Option<String>)
        requires
            old(self)@.wf(),
            has_known_settings(*tokenizer),
        ensures
            final(self)@.wf(),
            match text {
                Some(text) => {
                    &&& stream_can_cut(*tokenizer, old(self)@, ids@)
                    &&& (final(self)@, text@) == streamed(*tokenizer, old(self)@, ids@)
                },
                None => !stream_can_cut(*tokenizer, old(self)@, ids@),
            },
    {
        let ghost from = self@;
        let mut text: String = String::new();
        let mut index: usize = 0;
        while index < ids.len()
            invariant
                index <= ids.len(),
                from == old(self)@,
                self@.wf(),
                has_known_settings(*tokenizer),
                stream_can_cut(*tokenizer, from, ids@.take(index as int)),
                (self@, text@) == streamed(*tokenizer, from, ids@.take(index as int)),
            decreases ids.len() - index,
        {
            proof {
                let longer = ids@.take(index + 1);
                assert(longer.drop_last() == ids@.take(index as int));
                assert(longer.last() == ids@[index as int]);
            }
            match self.try_push(tokenizer, ids[index]) {
                Ok(Some(piece)) => {
                    text.append(piece.as_str());
                },
                Ok(None) => {},
                Err(_) => {
                    proof {
                        if stream_can_cut(*tokenizer, from, ids@) {
                            lemma_can_cut_prefix(*tokenizer, from, ids@, index + 1);
                        }
                    }
                    return None;
                },
            }
            index += 1;
        }
        assert(ids@.take(index as int) == ids@);
        Some(text)
    }

    /// The text of the context.
    fn context(&self, tokenizer: &Tokenizer) -> (text: Option<String>)
        requires
            self@.wf(),
            has_known_settings(*tokenizer),
        ensures
            match text {
                Some(text) => self@.context_text(*tokenizer) == Some(text@),
                None => self@.context_text(*tokenizer) is None,
            },
    {
        let ids: &[u32] = slice_subrange(
            self.tokens.as_slice(),
            self.context_start,
            self.returned_end,
        );
        decode_tokens(tokenizer, ids, true)
    }

    /// The text of the context and of everything after it.
    fn window(&self, tokenizer: &Tokenizer) -> (text: Option<String>)
        requires
            self@.wf(),
            has_known_settings(*tokenizer),
        ensures
            match text {
                Some(text) => self@.window_text(*tokenizer) == Some(text@),
                None => self@.window_text(*tokenizer) is None,
            },
    {
        let ids: &[u32] = slice_subrange(
            self.tokens.as_slice(),
            self.context_start,
            self.tokens.len(),
        );
        decode_tokens(tokenizer, ids, true)
    }
}

/// Whether `text` completes more than what was `already` returned.
pub fn is_complete(already: &str, text: &str) -> (complete: bool)
    ensures
        complete == completes(already@, text@),
        complete <==> encode_utf8(text@).len() > encode_utf8(already@).len() && text@.last()
            != '\u{FFFD}',
{
    if text.as_bytes().len() <= already.as_bytes().len() {
        return false;
    }
    let length: usize = text.unicode_len();
    proof {
        if length == 0 {
            assert(encode_utf8(text@).len() == 0);
        }
    }
    text.get_char(length - 1) != REPLACEMENT
}

/// The part of `text` that comes after as many bytes as `already` takes, if it is complete.
pub fn new_part(already: &str, text: &str) -> (part: Option<String>)
    requires
        completes(already@, text@) ==> can_cut(already@, text@),
    ensures
        match part {
            Some(part) => completes(already@, text@) && part@ == new_text(already@, text@),
            None => !completes(already@, text@),
        },
{
    if !is_complete(already, text) {
        return None;  // wait for the rest of the character
    }
    let returned: usize = already.as_bytes().len();
    let part: &str = text.split_at(returned).1;
    proof {
        let bytes = encode_utf8(text@);
        assert(encode_utf8(part@) == bytes.skip(returned as int));
        vstd::utf8::encode_utf8_decode_utf8(part@);
    }
    Some(part.to_owned())
}

proof fn lemma_can_cut_prefix(
    tokenizer: Tokenizer,
    from: DecoderState,
    ids: Seq<u32>,
    count: int,
)
    requires
        0 <= count <= ids.len(),
        stream_can_cut(tokenizer, from, ids),
    ensures
        stream_can_cut(tokenizer, from, ids.take(count)),
    decreases ids.len(),
{
    if count < ids.len() {
        lemma_can_cut_prefix(tokenizer, from, ids.drop_last(), count);
        assert(ids.drop_last().take(count) == ids.take(count));
    } else {
        assert(ids.take(count) == ids);
    }
}

/// Whether a text is empty or ends in a complete character.
pub open spec fn ends_complete(text: Seq<char>) -> bool {
    text.len() == 0 || text.last() != REPLACEMENT
}

/// Whether a tokenizer decodes in context: what tokens add to a complete text is the same
/// whether all the tokens before them are decoded along, or only some of the last ones.
pub open spec fn decodes_in_context(tokenizer: Tokenizer) -> bool {
    &&& decoded(tokenizer, seq![], true) == Some(Seq::<char>::empty())
    &&& forall|before: Seq<u32>, context: Seq<u32>, added: Seq<u32>|
        #![trigger decoded(tokenizer, before + context, true), decoded(tokenizer, context + added, true)]
        adds_in_context(tokenizer, before, context, added)
}

pub open spec fn adds_in_context(
    tokenizer: Tokenizer,
    before: Seq<u32>,
    context: Seq<u32>,
    added: Seq<u32>,
) -> bool {
    match (
        decoded(tokenizer, before + context, true),
        decoded(tokenizer, context, true),
        decoded(tokenizer, context + added, true),
    ) {
        (Some(all), Some(already), Some(text)) => ends_complete(all) && completes(already, text)
            ==> decoded(tokenizer, before + context + added, true) == Some(
            all + new_text(already, text),
        ),
        _ => true,
    }
}

/// Streaming gives the text of one-shot decoding: after any tokens, the pieces returned so far
/// are together the text of all the tokens up to the last one that completed a piece. Where that
/// is the last token of all, they are the text of all the tokens.
pub proof fn streamed_text_is_one_shot_text(tokenizer: Tokenizer, ids: Seq<u32>)
    requires
        decodes_in_context(tokenizer),
        stream_can_cut(tokenizer, DecoderState::start(), ids),
    ensures
        ({
            let (state, text) = streamed(tokenizer, DecoderState::start(), ids);
            &&& state.tokens == ids
            &&& state.wf()
            &&& decoded(tokenizer, ids.take(state.returned_end), true) == Some(text)
            &&& state.returned_end == ids.len() ==> decoded(tokenizer, ids, true) == Some(text)
            &&& ends_complete(text)
        }),
    decreases ids.len(),
{
    let start = DecoderState::start();
    assert(ids.take(ids.len() as int) == ids);
    if ids.len() == 0 {
        assert(ids.take(0) == Seq::<u32>::empty());
        assert(ids == start.tokens);
    } else {
        let shorter = ids.drop_last();
        streamed_text_is_one_shot_text(tokenizer, shorter);
        let (state, text) = streamed(tokenizer, start, shorter);
        let waiting = state.waiting(ids.last());
        assert(waiting.tokens == ids);
        let (next, piece) = state.push(tokenizer, ids.last());
        if piece is Some {
            let already = waiting.context_text(tokenizer)->0;
            let window = waiting.window_text(tokenizer)->0;
            let before = ids.take(state.context_start);
            let context = ids.subrange(state.context_start, state.returned_end);
            let added = ids.skip(state.returned_end);
            assert(before + context == shorter.take(state.returned_end));
            assert(context + added == ids.subrange(state.context_start, ids.len() as int));
            assert(before + context + added == ids);
            assert(adds_in_context(tokenizer, before, context, added));
            assert(ids.take(next.returned_end) == ids);
            lemma_new_text_end(already, window);
        } else {
            assert(ids.take(next.returned_end) == shorter.take(state.returned_end));
        }
    }
}

/// Only whole text is returned, and none of it twice or never. A token that ends inside a
/// character or adds no text returns nothing, and is kept for the next one. A piece is what all the
/// tokens kept so far add to the text that was returned before.
pub proof fn only_whole_text_is_returned(tokenizer: Tokenizer, state: DecoderState, token: u32)
    requires
        state.wf(),
        state.push_can_cut(tokenizer, token),
    ensures
        ({
            let waiting = state.waiting(token);
            let (next, piece) = state.push(tokenizer, token);
            match piece {
                Some(piece) => {
                    let already = waiting.context_text(tokenizer)->0;
                    let text = waiting.window_text(tokenizer)->0;
                    &&& is_whole(piece)
                    &&& encode_utf8(text) == encode_utf8(text).take(
                        encode_utf8(already).len() as int,
                    ) + encode_utf8(piece)
                    &&& next.tokens == waiting.tokens
                    &&& next.context_start == state.returned_end
                    &&& next.returned_end == waiting.tokens.len()
                },
                None => next == waiting,
            }
        }),
        state.waiting(token).window_text(tokenizer) matches Some(text) && text.len() > 0
            && text.last() == REPLACEMENT ==> state.push(tokenizer, token).1 is None,
        state.waiting(token).window_text(tokenizer) == state.waiting(token).context_text(tokenizer)
            ==> state.push(tokenizer, token).1 is None,
{
    if state.push(tokenizer, token).1 is Some {
        let already = state.waiting(token).context_text(tokenizer)->0;
        let text = state.waiting(token).window_text(tokenizer)->0;
        lemma_new_text_end(already, text);
        let bytes = encode_utf8(text);
        let cut = encode_utf8(already).len() as int;
        assert(bytes =~= bytes.take(cut) + bytes.skip(cut));
    }
}

/// The new part of a completed text ends as the text does.
proof fn lemma_new_text_end(already: Seq<char>, text: Seq<char>)
    requires
        completes(already, text),
        can_cut(already, text),
    ensures
        new_text(already, text).len() > 0,
        new_text(already, text).last() == text.last(),
        encode_utf8(new_text(already, text)) == encode_utf8(text).skip(
            encode_utf8(already).len() as int,
        ),
{
    let bytes = encode_utf8(text);
    let cut = encode_utf8(already).len() as int;
    vstd::utf8::encode_utf8_valid_utf8(text);
    vstd::utf8::encode_utf8_decode_utf8(text);
    let tail = bytes.subrange(cut, bytes.len() as int);
    assert(tail == bytes.skip(cut));
    vstd::utf8::valid_utf8_split(bytes, cut);
    vstd::utf8::decode_utf8_split(bytes, cut);
    vstd::utf8::decode_utf8_encode_utf8(tail);
    if decode_utf8(tail).len() == 0 {
        assert(encode_utf8(decode_utf8(tail)).len() == 0);
    }
}

/// A piece is returned exactly when there is a complete one. The context is the tokens from
/// `context_start` to `returned_end`, and the window goes on to the last token: where both decode,
/// the window's text takes more bytes and does not end with the replacement character, the token
/// returns a piece, whatever else the text ends with; and nowhere else.
pub proof fn complete_text_is_returned(tokenizer: Tokenizer, state: DecoderState, token: u32)
    requires
        state.wf(),
    ensures
        ({
            let tokens = state.tokens.push(token);
            let already = decoded(
                tokenizer,
                tokens.subrange(state.context_start, state.returned_end),
                true,
            );
            let text = decoded(
                tokenizer,
                tokens.subrange(state.context_start, tokens.len() as int),
                true,
            );
            state.push(tokenizer, token).1 is Some <==> {
                &&& already is Some
                &&& text is Some
                &&& encode_utf8(text->0).len() > encode_utf8(already->0).len()
                &&& (text->0).last() != '\u{FFFD}'
            }
        }),
{
}

/// Whether a tokenizer decodes all tokens, and tokens after a complete text add to it what they add
/// to the text of some of the last tokens before them.
pub open spec fn decodes_by_adding(tokenizer: Tokenizer) -> bool {
    &&& decoded(tokenizer, seq![], true) == Some(Seq::<char>::empty())
    &&& forall|ids: Seq<u32>| (#[trigger] decoded(tokenizer, ids, true)) is Some
    &&& forall|before: Seq<u32>, context: Seq<u32>, added: Seq<u32>|
        #![trigger decoded(tokenizer, before + context, true), decoded(tokenizer, context + added, true)]
        {
            let all = decoded(tokenizer, before + context, true)->0;
            let already = decoded(tokenizer, context, true)->0;
            let text = decoded(tokenizer, context + added, true)->0;
            all.len() == 0 || all.last() != '\u{FFFD}' ==> {
                &&& already.is_prefix_of(text)
                &&& decoded(tokenizer, before + context + added, true) == Some(
                    all + text.skip(already.len() as int),
                )
            }
        }
}

/// Nothing is held back at the end: the pieces returned for all the tokens of a text are together
/// the whole text that the tokens decode to at once, as long as that does not end inside a
/// character.
pub proof fn a_whole_text_is_returned_whole(tokenizer: Tokenizer, ids: Seq<u32>)
    requires
        decodes_by_adding(tokenizer),
        ({
            let text = decoded(tokenizer, ids, true)->0;
            text.len() == 0 || text.last() != '\u{FFFD}'
        }),
    ensures
        Some(streamed(tokenizer, DecoderState::start(), ids).1) == decoded(tokenizer, ids, true),
{
    lemma_returned_text(tokenizer, ids);
    let (state, text) = streamed(tokenizer, DecoderState::start(), ids);
    if state.returned_end == ids.len() {
        assert(ids.take(state.returned_end) == ids);
    } else {
        let before = ids.take(state.context_start);
        let context = ids.subrange(state.context_start, state.returned_end);
        let added = ids.skip(state.returned_end);
        assert(before + context == ids.take(state.returned_end));
        assert(context + added == ids.subrange(state.context_start, ids.len() as int));
        assert(before + context + added == ids);
        assert(decoded(tokenizer, before + context, true) == Some(text));
        let already = decoded(tokenizer, context, true)->0;
        let window = decoded(tokenizer, context + added, true)->0;
        let rest = window.skip(already.len() as int);
        lemma_added_text(already, window);
        if rest.len() > 0 {
            assert((text + rest).last() == window.last());
        } else {
            assert(text + rest =~= text);
        }
    }
}

/// After any tokens, the text returned so far is that of the tokens up to the last one that
/// completed a piece, and no piece could be returned for the tokens after it.
proof fn lemma_returned_text(tokenizer: Tokenizer, ids: Seq<u32>)
    requires
        decodes_by_adding(tokenizer),
    ensures
        ({
            let (state, text) = streamed(tokenizer, DecoderState::start(), ids);
            &&& state.tokens == ids
            &&& state.wf()
            &&& decoded(tokenizer, ids.take(state.returned_end), true) == Some(text)
            &&& text.len() == 0 || text.last() != '\u{FFFD}'
            &&& state.returned_end == ids.len() || !completes(
                state.context_text(tokenizer)->0,
                state.window_text(tokenizer)->0,
            )
        }),
    decreases ids.len(),
{
    let start = DecoderState::start();
    if ids.len() == 0 {
        assert(ids.take(0) == Seq::<u32>::empty());
        assert(ids == start.tokens);
    } else {
        let shorter = ids.drop_last();
        lemma_returned_text(tokenizer, shorter);
        let (state, text) = streamed(tokenizer, start, shorter);
        let waiting = state.waiting(ids.last());
        assert(waiting.tokens == ids);
        let (next, piece) = state.push(tokenizer, ids.last());
        let before = ids.take(state.context_start);
        let context = ids.subrange(state.context_start, state.returned_end);
        let added = ids.skip(state.returned_end);
        assert(before + context == shorter.take(state.returned_end));
        assert(context + added == ids.subrange(state.context_start, ids.len() as int));
        assert(before + context + added == ids);
        assert(decoded(tokenizer, before + context, true) == Some(text));
        let already = decoded(tokenizer, context, true)->0;
        let window = decoded(tokenizer, context + added, true)->0;
        lemma_added_text(already, window);
        if piece is Some {
            assert(ids.take(next.returned_end) == ids);
            assert((text + window.skip(already.len() as int)).last() == window.last());
        } else {
            assert(ids.take(next.returned_end) == shorter.take(state.returned_end));
        }
    }
}

/// Where a text begins with what was returned before, the new text is the rest of it.
proof fn lemma_added_text(already: Seq<char>, text: Seq<char>)
    requires
        already.is_prefix_of(text),
    ensures
        new_text(already, text) == text.skip(already.len() as int),
        encode_utf8(text).len() > encode_utf8(already).len() <==> text.len() > already.len(),
{
    let rest = text.skip(already.len() as int);
    assert(already + rest == text);
    lemma_encode_concat(already, rest);
    assert(encode_utf8(text).skip(encode_utf8(already).len() as int) == encode_utf8(rest));
    vstd::utf8::encode_utf8_decode_utf8(rest);
    if rest.len() > 0 {
        vstd::utf8::encode_utf8_first_scalar(rest);
        if encode_utf8(rest).len() == 0 {
            vstd::utf8::encode_utf8_decode_utf8(rest);
            assert(encode_utf8(Seq::<char>::empty()) == encode_utf8(rest));
            crate::text::lemma_encode_injective(Seq::<char>::empty(), rest);
        }
    } else {
        assert(rest == Seq::<char>::empty());
    }
}

/// What a token does to the decoder: it is added to the tokens. A piece is what the window's text
/// has beyond as many bytes as the context's text takes, and then the tokens that were not returned
/// before are the context of the next piece. Without a piece nothing counts as returned.
pub proof fn a_piece_is_the_rest_of_the_window(tokenizer: Tokenizer, state: DecoderState, token: u32)
    requires
        state.wf(),
        state.push_can_cut(tokenizer, token),
    ensures
        DecoderState::start() == (DecoderState {
            tokens: Seq::empty(),
            context_start: 0,
            returned_end: 0,
        }),
        ({
            let tokens = state.tokens.push(token);
            let (next, piece) = state.push(tokenizer, token);
            let already = decoded(
                tokenizer,
                tokens.subrange(state.context_start, state.returned_end),
                true,
            );
            let text = decoded(
                tokenizer,
                tokens.subrange(state.context_start, tokens.len() as int),
                true,
            );
            &&& next.tokens == tokens
            &&& match piece {
                Some(piece) => {
                    &&& already is Some && text is Some
                    &&& encode_utf8(text->0).skip(encode_utf8(already->0).len() as int)
                        == encode_utf8(piece)
                    &&& next.context_start == state.returned_end
                    &&& next.returned_end == tokens.len()
                },
                None => {
                    &&& next.context_start == state.context_start
                    &&& next.returned_end == state.returned_end
                },
            }
        }),
{
    only_whole_text_is_returned(tokenizer, state, token);
    if state.push(tokenizer, token).1 is Some {
        let already = state.waiting(token).context_text(tokenizer)->0;
        let text = state.waiting(token).window_text(tokenizer)->0;
        lemma_new_text_end(already, text);
    }
}

/// The text of a stream is its pieces one after the other, none left out and none twice.
pub proof fn pieces_follow_one_another(
    tokenizer: Tokenizer,
    from: DecoderState,
    ids: Seq<u32>,
    token: u32,
)
    ensures
        streamed(tokenizer, from, Seq::empty()) == (from, Seq::<char>::empty()),
        ({
            let (state, text) = streamed(tokenizer, from, ids);
            let (next, piece) = state.push(tokenizer, token);
            streamed(tokenizer, from, ids.push(token)) == (
                next,
                match piece {
                    Some(piece) => text + piece,
                    None => text,
                },
            )
        }),
{
    assert(ids.push(token).drop_last() == ids);
    assert(ids.push(token).last() == token);
}

/// Whether a piece can be cut off: the bytes of the context's text end between two characters of the
/// window's text, where there is a complete piece at all. A stream of tokens can be cut where each of
/// its pieces can.
pub proof fn a_piece_is_cut_between_characters(
    tokenizer: Tokenizer,
    state: DecoderState,
    ids: Seq<u32>,
    token: u32,
)
    requires
        state.wf(),
    ensures
        ({
            let tokens = state.tokens.push(token);
            let already = decoded(
                tokenizer,
                tokens.subrange(state.context_start, state.returned_end),
                true,
            );
            let text = decoded(
                tokenizer,
                tokens.subrange(state.context_start, tokens.len() as int),
                true,
            );
            state.push_can_cut(tokenizer, token) <==> (state.push(tokenizer, token).1 is Some
                ==> is_char_boundary(
                encode_utf8(text->0),
                encode_utf8(already->0).len() as int,
            ))
        }),
        stream_can_cut(tokenizer, state, Seq::empty()),
        stream_can_cut(tokenizer, state, ids.push(token)) <==> stream_can_cut(tokenizer, state, ids)
            && streamed(tokenizer, state, ids).0.push_can_cut(tokenizer, token),
{
    assert(ids.push(token).drop_last() == ids);
    assert(ids.push(token).last() == token);
}

} // verus!
