//! Chatting with the local model: turns a conversation into a prompt, and plans the reply within
//! the engine's limits.
use std::sync::Arc;

use tokenizers::Tokenizer;
use vstd::prelude::*;

use crate::json::{parse_json, parsed_json, write_json, written_json};
use crate::limits::EngineLimits;
use crate::text::{decimal, decimal_of};
use crate::tokenizer::{
    encode_text, has_known_settings, is_known, is_known_in, lookup_token, may_encode, may_read,
    read_tokenizer, token_id,
};

verus! {

/// The chat format (ChatML) marks the end of every message with this token.
pub const END_OF_MESSAGE: &'static str = "<|im_end|>";

/// Identifies one generation running on the engine.
pub type RequestId = u64;

/// Who wrote a message.
#[derive(Debug, Clone, Copy, PartialEq, Eq, Structural)]
pub enum Role {
    System,
    User,
    Assistant,
}

impl Role {
    /// The role's name in the prompt.
    pub open spec fn name(self) -> Seq<char> {
        match self {
            Role::System => "system"@,
            Role::User => "user"@,
            Role::Assistant => "assistant"@,
        }
    }

    pub fn as_str(self) -> (name: &'static str)
        ensures
            name@ == self.name(),
    {
        match self {
            Role::System => "system",
            Role::User => "user",
            Role::Assistant => "assistant",
        }
    }
}

/// One message of the conversation.
#[derive(Debug)]
pub struct Message {
    pub role: Role,
    pub content: String,
}

/// A [`Message`] as mathematical values.
pub struct MessageView {
    pub role: Role,
    pub content: Seq<char>,
}

impl View for Message {
    type V = MessageView;

    open spec fn view(&self) -> MessageView {
        MessageView { role: self.role, content: self.content@ }
    }
}

/// A conversation as mathematical values.
pub open spec fn conversation(messages: Seq<Message>) -> Seq<MessageView> {
    messages.map_values(|message: Message| message@)
}

/// A finished turn in ChatML.
pub open spec fn turn(message: MessageView) -> Seq<char> {
    "<|im_start|>"@ + message.role.name() + "\n"@ + message.content + "<|im_end|>\n"@
}

/// The finished turns of a conversation in ChatML.
pub open spec fn turns(messages: Seq<MessageView>) -> Seq<char>
    decreases messages.len(),
{
    if messages.len() == 0 {
        seq![]
    } else {
        turns(messages.drop_last()) + turn(messages.last())
    }
}

/// A conversation in ChatML, ending with an open assistant turn for the model to complete.
pub open spec fn chatml(messages: Seq<MessageView>) -> Seq<char> {
    turns(messages) + "<|im_start|>assistant\n"@
}

/// Formats the conversation in ChatML, ending with an open assistant turn for the model to
/// complete:
///
/// ```text
/// <|im_start|>user
/// Hello<|im_end|>
/// <|im_start|>assistant
/// ```
pub fn chatml_prompt(messages: &[Message]) -> (prompt: String)
    ensures
        prompt@ == chatml(conversation(messages@)),
        "<|im_start|>assistant\n"@.is_suffix_of(prompt@),
{
    let mut prompt: String = String::new();
    let mut index: usize = 0;
    let ghost all = conversation(messages@);
    assert(all.take(0) == Seq::<MessageView>::empty());
    while index < messages.len()
        invariant
            index <= messages.len(),
            all == conversation(messages@),
            prompt@ == turns(all.take(index as int)),
        decreases messages.len() - index,
    {
        let message: &Message = &messages[index];
        let ghost before = prompt@;
        prompt.append("<|im_start|>");
        prompt.append(message.role.as_str());
        prompt.append("\n");
        prompt.append(message.content.as_str());
        prompt.append("<|im_end|>\n");
        proof {
            let longer = all.take(index + 1);
            assert(longer.drop_last() == all.take(index as int));
            assert(longer.last() == message@);
            assert(prompt@ == before + turn(message@));
        }
        index += 1;
    }
    assert(all.take(index as int) == all);
    prompt.append("<|im_start|>assistant\n");
    prompt
}

/// A follow-up prompt begins with the prompt before it, the reply to it and the marker that ended
/// the reply, so everything the engine has already read or written stays where it was. After that
/// comes a line break, and the follow-up as a conversation of its own.
pub proof fn follow_up_extends_the_prompt(
    messages: Seq<MessageView>,
    reply: Seq<char>,
    follow_up: Seq<MessageView>,
)
    ensures
        ({
            let read = chatml(messages) + reply + END_OF_MESSAGE@;
            let longer = chatml(
                messages + seq![MessageView { role: Role::Assistant, content: reply }] + follow_up,
            );
            &&& read.is_prefix_of(longer)
            &&& longer == read + "\n"@ + chatml(follow_up)
        }),
{
    let answer = MessageView { role: Role::Assistant, content: reply };
    let answered = messages + seq![answer];
    assert(answered.drop_last() == messages);
    assert(turns(answered) == turns(messages) + turn(answer));
    lemma_turns_concat(answered, follow_up);
    reveal_strlit("<|im_start|>");
    reveal_strlit("assistant");
    reveal_strlit("\n");
    reveal_strlit("<|im_start|>assistant\n");
    assert("<|im_start|>assistant\n"@ == "<|im_start|>"@ + "assistant"@ + "\n"@);
    reveal_strlit("<|im_end|>");
    reveal_strlit("<|im_end|>\n");
    assert("<|im_end|>\n"@ == END_OF_MESSAGE@ + "\n"@);
    let rest = "<|im_end|>\n"@ + turns(follow_up) + "<|im_start|>assistant\n"@;
    assert(turn(answer) == "<|im_start|>assistant\n"@ + reply + "<|im_end|>\n"@);
    assert(chatml(answered + follow_up) == chatml(messages) + reply + rest);
    assert(rest == END_OF_MESSAGE@ + "\n"@ + chatml(follow_up));
    let read = chatml(messages) + reply + END_OF_MESSAGE@;
    assert(chatml(answered + follow_up) == read + "\n"@ + chatml(follow_up));
}

/// The prompt of a conversation is its messages one after the other, each whole and unchanged
/// between a line that names its role and the end-of-message marker, and then an open turn of the
/// assistant. One more message, of any role, comes before that open turn and changes nothing of
/// what is there.
pub proof fn every_message_is_whole_in_the_prompt(
    messages: Seq<MessageView>,
    message: MessageView,
)
    ensures
        ({
            let open_turn = "<|im_start|>assistant\n"@;
            let role = match message.role {
                Role::System => "system"@,
                Role::User => "user"@,
                Role::Assistant => "assistant"@,
            };
            let said = chatml(messages).take(chatml(messages).len() - open_turn.len());
            &&& chatml(Seq::empty()) == open_turn
            &&& open_turn.is_suffix_of(chatml(messages))
            &&& chatml(messages.push(message)) == said + "<|im_start|>"@ + role + "\n"@
                + message.content + "<|im_end|>\n"@ + open_turn
        }),
{
    let open_turn = "<|im_start|>assistant\n"@;
    assert(messages.push(message).drop_last() == messages);
    assert(chatml(messages).take(chatml(messages).len() - open_turn.len()) == turns(messages));
    assert(turns(Seq::<MessageView>::empty()) + open_turn == open_turn);
}

proof fn lemma_turns_concat(first: Seq<MessageView>, second: Seq<MessageView>)
    ensures
        turns(first + second) == turns(first) + turns(second),
    decreases second.len(),
{
    if second.len() == 0 {
        assert(first + second == first);
        assert(turns(first) + turns(second) == turns(first));
    } else {
        lemma_turns_concat(first, second.drop_last());
        assert((first + second).drop_last() == first + second.drop_last());
        assert(turns(first + second) == turns(first) + turns(second));
    }
}

/// Settings chosen on the command line.
#[derive(Debug, Clone, Copy, PartialEq, Eq, Structural)]
pub struct Settings {
    pub max_tokens: u32,
    pub kv_cache_tokens: u32,
}

/// Why a tokenizer cannot be used.
#[derive(Debug)]
pub enum LoadError {
    /// The file holds no tokenizer, for the reason given.
    NoTokenizer(String),
    /// The tokenizer has settings that are not known here.
    UnknownSettings,
    /// The vocabulary lacks the token that ends a message.
    NoEndOfMessage,
}

impl LoadError {
    /// Explains the error; `path` is the tokenizer's file.
    pub fn message(&self, path: &str) -> (message: String)
        ensures
            message@ == match self {
                LoadError::NoTokenizer(reason) => "cannot load "@ + path@ + ": "@ + reason@,
                LoadError::UnknownSettings => "cannot load "@ + path@
                    + ": unknown settings; is this a Qwen chat model?"@,
                LoadError::NoEndOfMessage => END_OF_MESSAGE@
                    + " is not in the tokenizer; is this a Qwen chat model?"@,
            },
    {
        let mut message: String = String::new();
        match self {
            LoadError::NoTokenizer(reason) => {
                message.append("cannot load ");
                message.append(path);
                message.append(": ");
                message.append(reason.as_str());
            },
            LoadError::UnknownSettings => {
                message.append("cannot load ");
                message.append(path);
                message.append(": unknown settings; is this a Qwen chat model?");
            },
            LoadError::NoEndOfMessage => {
                message.append(END_OF_MESSAGE);
                message.append(" is not in the tokenizer; is this a Qwen chat model?");
            },
        }
        message
    }
}

/// A tokenizer that knows the chat format.
pub struct ChatTokenizer {
    pub tokenizer: Tokenizer,
    /// The id of [`END_OF_MESSAGE`].
    pub end_of_message_token: u32,
}

impl ChatTokenizer {
    /// The tokenizer has known settings.
    pub open spec fn wf(self) -> bool {
        has_known_settings(self.tokenizer)
    }

    /// Whether `result` is what reading a tokenizer leads to.
    pub open spec fn follows(
        outcome: Result<Tokenizer, Seq<char>>,
        result: Result<Self, LoadError>,
    ) -> bool {
        match outcome {
            Ok(tokenizer) => match token_id(tokenizer, END_OF_MESSAGE@) {
                Some(id) => result == Ok::<Self, LoadError>(
                    (ChatTokenizer { tokenizer, end_of_message_token: id }),
                ),
                None => result matches Err(LoadError::NoEndOfMessage),
            },
            Err(reason) => result matches Err(LoadError::NoTokenizer(message)) && message@
                == reason,
        }
    }

    /// Reads the tokenizer from its JSON and looks up the end of a message.
    pub fn load(json: &str) -> (result: Result<Self, LoadError>)
        ensures
            result matches Ok(tokenizer) ==> tokenizer.wf(),
            match parsed_json(json@) {
                Ok(value) => if is_known(value) {
                    exists|outcome: Result<Tokenizer, Seq<char>>| #[trigger]
                        may_read(written_json(value), outcome) && Self::follows(outcome, result)
                } else {
                    result matches Err(LoadError::UnknownSettings)
                },
                Err(reason) => result matches Err(LoadError::NoTokenizer(message)) && message@
                    == reason,
            },
    {
        let value = match parse_json(json) {
            Ok(value) => value,
            Err(reason) => {
                return Err(LoadError::NoTokenizer(reason));
            },
        };
        if !is_known_in(&value) {
            return Err(LoadError::UnknownSettings);
        }
        let settings: String = write_json(&value);
        match read_tokenizer(settings.as_str()) {
            Ok(tokenizer) => {
                assert(may_read(written_json(value), Ok(tokenizer)));
                ChatTokenizer::with_tokenizer(tokenizer)
            },
            Err(reason) => {
                assert(may_read(written_json(value), Err(reason@)));
                Err(LoadError::NoTokenizer(reason))
            },
        }
    }

    /// Looks up the end of a message in a tokenizer.
    pub fn with_tokenizer(tokenizer: Tokenizer) -> (result: Result<Self, LoadError>)
        ensures
            match token_id(tokenizer, END_OF_MESSAGE@) {
                Some(id) => result == Ok::<Self, LoadError>(
                    (ChatTokenizer { tokenizer, end_of_message_token: id }),
                ),
                None => result matches Err(LoadError::NoEndOfMessage),
            },
    {
        match lookup_token(&tokenizer, END_OF_MESSAGE) {
            Some(end_of_message_token) => Ok(ChatTokenizer { tokenizer, end_of_message_token }),
            None => Err(LoadError::NoEndOfMessage),
        }
    }
}

/// What the engine is asked to generate.
#[derive(Debug)]
pub struct ReplyRequest {
    pub prompt_tokens: Vec<u32>,
    pub max_new_tokens: u32,
    /// Generation stops after this token.
    pub end_token: u32,
}

/// Why no reply was started.
#[derive(Debug)]
pub enum StartError {
    /// The tokenizer failed, for the reason given.
    CannotTokenize(String),
    /// The conversation is longer than the engine's prompt limit.
    TooLong { tokens: usize, limit: usize },
}

impl StartError {
    /// The explanation shown to the user.
    pub open spec fn explanation(self) -> Seq<char> {
        match self {
            StartError::CannotTokenize(reason) => "cannot tokenize: "@ + reason@,
            StartError::TooLong { tokens, limit } => "the conversation is "@ + decimal(
                tokens as nat,
            ) + " tokens, over this engine's "@ + decimal(limit as nat)
                + " limit; press Ctrl+L to start a new one"@,
        }
    }

    pub fn message(&self) -> (message: String)
        ensures
            message@ == self.explanation(),
    {
        let mut message: String = String::new();
        match self {
            StartError::CannotTokenize(reason) => {
                message.append("cannot tokenize: ");
                message.append(reason.as_str());
            },
            StartError::TooLong { tokens, limit } => {
                message.append("the conversation is ");
                message.append(decimal_of(*tokens as u128).as_str());
                message.append(" tokens, over this engine's ");
                message.append(decimal_of(*limit as u128).as_str());
                message.append(" limit; press Ctrl+L to start a new one");
            },
        }
        message
    }
}

/// The tokenizer and the limits of one model.
pub struct ChatModel {
    pub name: String,
    pub tokenizer: Arc<Tokenizer>,
    pub end_of_message_token: u32,
    pub limits: EngineLimits,
    pub max_tokens: u32,
}

/// The most tokens a reply may have: no more than the settings allow, and no more than fit after
/// the prompt. The room is counted in 32 bits, as the engine does.
pub open spec fn reply_length(max_tokens: u32, limits: EngineLimits, prompt_len: nat) -> u32 {
    let room = (limits.max_seq_len - prompt_len) as u32;
    if max_tokens <= room {
        max_tokens
    } else {
        room
    }
}

impl ChatModel {
    /// The limits are in order, and the tokenizer has known settings.
    pub open spec fn wf(self) -> bool {
        self.limits.wf() && has_known_settings(*self.tokenizer)
    }

    /// Puts a model together: its name, or `model` where its path has none; its tokenizer; the
    /// limits of its engine within the KV cache; and the settings.
    pub fn load(
        name: Option<String>,
        tokenizer: ChatTokenizer,
        built: EngineLimits,
        kv_cache_tokens: u32,
        settings: Settings,
    ) -> (model: Self)
        requires
            built.wf(),
            tokenizer.wf(),
        ensures
            model.wf(),
            model.name@ == match name {
                Some(name) => name@,
                None => "model"@,
            },
            *model.tokenizer == tokenizer.tokenizer,
            model.end_of_message_token == tokenizer.end_of_message_token,
            (model.limits.max_input_len as nat, model.limits.max_seq_len as nat) == built.within(
                kv_cache_tokens as nat,
            ),
            model.max_tokens == settings.max_tokens,
    {
        let name: String = match name {
            Some(name) => name,
            None => "model".to_owned(),
        };
        ChatModel {
            name,
            tokenizer: Arc::new(tokenizer.tokenizer),
            end_of_message_token: tokenizer.end_of_message_token,
            limits: built.within_kv_cache(kv_cache_tokens as usize),
            max_tokens: settings.max_tokens,
        }
    }

    /// The model's name, as shown in the status bar.
    pub fn name(&self) -> (name: &str)
        ensures
            name@ == self.name@,
    {
        self.name.as_str()
    }

    /// The most tokens a conversation can have (the engine's prompt limit).
    pub fn context_limit(&self) -> (limit: usize)
        ensures
            limit == self.limits.max_input_len,
    {
        self.limits.max_input_len
    }

    /// Whether `result` is what a prompt of the tokens `ids` leads to.
    pub open spec fn plans(self, ids: Seq<u32>, result: Result<ReplyRequest, StartError>) -> bool {
        if ids.len() > self.limits.max_input_len {
            result matches Err(StartError::TooLong { tokens, limit }) && tokens == ids.len()
                && limit == self.limits.max_input_len
        } else {
            result matches Ok(request) && request.prompt_tokens@ == ids
                && request.max_new_tokens == reply_length(self.max_tokens, self.limits, ids.len())
                && request.end_token == self.end_of_message_token
        }
    }

    /// Plans the reply to a prompt of the tokens `prompt_tokens`, within the engine's limits.
    pub fn plan_reply(&self, prompt_tokens: Vec<u32>) -> (result: Result<ReplyRequest, StartError>)
        requires
            self.wf(),
        ensures
            self.plans(prompt_tokens@, result),
    {
        if prompt_tokens.len() > self.limits.max_input_len {
            return Err(
                StartError::TooLong {
                    tokens: prompt_tokens.len(),
                    limit: self.limits.max_input_len,
                },
            );
        }
        // Prompt and reply together must fit in the engine's sequence length.

        let room_for_reply: u32 = #[verifier::truncate]
        ((self.limits.max_seq_len - prompt_tokens.len()) as u32);
        let max_new_tokens: u32 = if self.max_tokens <= room_for_reply {
            self.max_tokens
        } else {
            room_for_reply
        };
        Ok(ReplyRequest { prompt_tokens, max_new_tokens, end_token: self.end_of_message_token })
    }

    /// Whether `result` is what a conversation leads to, whichever way its prompt is encoded.
    pub open spec fn may_start(
        self,
        messages: Seq<MessageView>,
        result: Result<ReplyRequest, StartError>,
    ) -> bool {
        exists|outcome: Result<Seq<u32>, Seq<char>>|
            {
                &&& #[trigger] may_encode(*self.tokenizer, chatml(messages), false, outcome)
                &&& match outcome {
                    Ok(ids) => self.plans(ids, result),
                    Err(reason) => result matches Err(StartError::CannotTokenize(message))
                        && message@ == reason,
                }
            }
    }

    /// Plans the assistant's reply to `messages`: formats and encodes the conversation, and
    /// checks its length.
    pub fn start_reply(&self, messages: &[Message]) -> (result: Result<ReplyRequest, StartError>)
        requires
            self.wf(),
        ensures
            self.may_start(conversation(messages@), result),
    {
        let prompt: String = chatml_prompt(messages);
        match encode_text(&self.tokenizer, prompt.as_str(), false) {
            Ok(ids) => {
                let ghost outcome = Ok::<Seq<u32>, Seq<char>>(ids@);
                let result = self.plan_reply(ids);
                assert(may_encode(
                    *self.tokenizer,
                    chatml(conversation(messages@)),
                    false,
                    outcome,
                ));
                result
            },
            Err(reason) => {
                assert(may_encode(
                    *self.tokenizer,
                    chatml(conversation(messages@)),
                    false,
                    Err(reason@),
                ));
                Err(StartError::CannotTokenize(reason))
            },
        }
    }
}

/// Prompt and reply together never exceed the longest sequence of the engine.
pub proof fn prompt_and_reply_fit(
    model: ChatModel,
    ids: Seq<u32>,
    result: Result<ReplyRequest, StartError>,
)
    requires
        model.wf(),
        model.plans(ids, result),
        result is Ok,
    ensures
        ids.len() <= model.limits.max_input_len,
        ids.len() + result->Ok_0.max_new_tokens <= model.limits.max_seq_len,
        result->Ok_0.max_new_tokens <= model.max_tokens,
{
    let room: usize = (model.limits.max_seq_len - ids.len()) as usize;
    assert(room as u32 <= room) by (bit_vector);
}

/// A different seed for every request, so asking again gives a fresh answer: the low 64 bits of
/// the nanoseconds since the epoch, or 0 for a clock before it.
pub fn random_seed(nanos_since_epoch: Option<u128>) -> (seed: u64)
    ensures
        seed == match nanos_since_epoch {
            Some(nanos) => nanos as int % 0x1_0000_0000_0000_0000,
            None => 0,
        },
{
    match nanos_since_epoch {
        Some(nanos) => {
            assert(nanos as u64 == nanos % 0x1_0000_0000_0000_0000) by (bit_vector);
            #[verifier::truncate]
            (nanos as u64)
        },
        None => 0,
    }
}

/// Handle to a reply that is being generated.
#[derive(Debug, Clone, Copy, PartialEq, Eq, Structural)]
pub struct ReplyStream {
    /// Identifies the events that belong to this reply.
    pub request_id: RequestId,
    /// Length of the prompt (the whole conversation so far), in tokens.
    pub prompt_tokens: usize,
}

/// What the engine is told to do with a request.
#[derive(Debug, Clone, Copy, PartialEq, Eq, Structural)]
pub enum EngineCommand {
    /// Stop generating the reply to this request.
    Cancel(RequestId),
}

impl ReplyStream {
    /// Stops generating on the GPU: the command for the engine.
    pub fn cancel(&self) -> (command: EngineCommand)
        ensures
            command == EngineCommand::Cancel(self.request_id),
    {
        EngineCommand::Cancel(self.request_id)
    }
}

/// A conversation is seen message by message, each with its role and its text.
pub proof fn messages_are_seen_as_they_are(messages: Seq<Message>)
    ensures
        conversation(messages).len() == messages.len(),
        forall|i: int|
            0 <= i < messages.len() ==> (#[trigger] conversation(messages)[i]).role
                == messages[i].role && conversation(messages)[i].content == messages[i].content@,
{
}

/// A prompt within the engine's limit is answered with as many tokens as the settings allow, or as
/// many as fit after the prompt where those are fewer; the engine gets the prompt unchanged, and
/// the token that ends a message. A longer prompt is refused, with its length and the limit.
pub proof fn a_prompt_within_the_limit_is_answered(
    model: ChatModel,
    ids: Seq<u32>,
    result: Result<ReplyRequest, StartError>,
)
    requires
        model.wf(),
        model.plans(ids, result),
        model.limits.max_seq_len <= u32::MAX,
    ensures
        ids.len() <= model.limits.max_input_len ==> {
            &&& result is Ok
            &&& result->Ok_0.prompt_tokens@ == ids
            &&& result->Ok_0.end_token == model.end_of_message_token
            &&& result->Ok_0.max_new_tokens <= model.max_tokens
            &&& result->Ok_0.max_new_tokens + ids.len() <= model.limits.max_seq_len
            &&& result->Ok_0.max_new_tokens == model.max_tokens
                || result->Ok_0.max_new_tokens + ids.len() == model.limits.max_seq_len
        },
        ids.len() > model.limits.max_input_len ==> {
            &&& result matches Err(StartError::TooLong { tokens, limit })
            &&& tokens == ids.len()
            &&& limit == model.limits.max_input_len
        },
{
}

/// What is encoded for a reply is the conversation's prompt, without tokens added to it; what comes
/// of that decides the rest.
pub proof fn a_reply_starts_from_the_prompt(
    model: ChatModel,
    messages: Seq<MessageView>,
    result: Result<ReplyRequest, StartError>,
)
    requires
        model.may_start(messages, result),
    ensures
        exists|outcome: Result<Seq<u32>, Seq<char>>|
            {
                &&& #[trigger] may_encode(*model.tokenizer, chatml(messages), false, outcome)
                &&& match outcome {
                    Ok(ids) => match result {
                        Ok(request) => ids.len() <= model.limits.max_input_len
                            && request.prompt_tokens@ == ids,
                        Err(_) => ids.len() > model.limits.max_input_len,
                    },
                    Err(reason) => result matches Err(StartError::CannotTokenize(message))
                        && message@ == reason,
                }
            },
{
    let outcome = choose|outcome: Result<Seq<u32>, Seq<char>>|
        {
            &&& #[trigger] may_encode(*model.tokenizer, chatml(messages), false, outcome)
            &&& match outcome {
                Ok(ids) => model.plans(ids, result),
                Err(reason) => result matches Err(StartError::CannotTokenize(message)) && message@
                    == reason,
            }
        };
    assert(may_encode(*model.tokenizer, chatml(messages), false, outcome));
}

/// A prompt that is not sent is explained: the length of the conversation comes first, then the
/// limit, then what to do; or the tokenizer's reason.
pub proof fn a_refused_prompt_is_explained(tokens: usize, limit: usize, reason: String)
    ensures
        (StartError::TooLong { tokens, limit }).explanation() == "the conversation is "@ + decimal(
            tokens as nat,
        ) + " tokens, over this engine's "@ + decimal(limit as nat)
            + " limit; press Ctrl+L to start a new one"@,
        reason@.is_suffix_of(StartError::CannotTokenize(reason).explanation()),
        StartError::CannotTokenize(reason).explanation().len() == reason@.len()
            + "cannot tokenize: "@.len(),
{
    let text = StartError::CannotTokenize(reason).explanation();
    assert(reason@ =~= text.subrange(text.len() - reason@.len(), text.len() as int));
}

/// A tokenizer that was read is used where its vocabulary has the token that ends a message, with
/// that token's id; else the missing token is the error. One that was not read is refused with the
/// reader's reason.
pub proof fn a_tokenizer_must_end_messages(
    outcome: Result<Tokenizer, Seq<char>>,
    result: Result<ChatTokenizer, LoadError>,
)
    requires
        ChatTokenizer::follows(outcome, result),
    ensures
        match (outcome, result) {
            (Ok(tokenizer), Ok(chat)) => chat.tokenizer == tokenizer && token_id(
                tokenizer,
                "<|im_end|>"@,
            ) == Some(chat.end_of_message_token),
            (Ok(tokenizer), Err(error)) => token_id(tokenizer, "<|im_end|>"@) is None
                && error is NoEndOfMessage,
            (Err(reason), Ok(_)) => false,
            (Err(reason), Err(error)) => error matches LoadError::NoTokenizer(message) && message@
                == reason,
        },
{
}

} // verus!
