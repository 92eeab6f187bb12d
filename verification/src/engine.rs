//! What the engines report: their error messages, the outcome of their calls, and the tokens that
//! they generate.
use vstd::prelude::*;
use vstd::utf8::{decode_utf8, valid_utf8};

use crate::chat::RequestId;

verus! {

/// The text that some bytes stand for, with a replacement character for what is not UTF-8.
pub uninterp spec fn lossy_text(bytes: Seq<u8>) -> Seq<char>;

/// `String::from_utf8_lossy` reads bytes as UTF-8 and replaces what is not. Bytes that are UTF-8
/// throughout are read as they are.
#[verifier::external_body]
fn read_lossy(bytes: &[u8]) -> (text: String)
    ensures
        text@ == lossy_text(bytes@),
        valid_utf8(bytes@) ==> text@ == decode_utf8(bytes@),
{
    String::from_utf8_lossy(bytes).into_owned()
}

/// The number of bytes before the first zero, or all of them where there is none.
pub open spec fn text_end(buffer: Seq<u8>) -> nat
    decreases buffer.len(),
{
    if buffer.len() == 0 || buffer[0] == 0 {
        0
    } else {
        1 + text_end(buffer.skip(1))
    }
}

/// The message in an error buffer: what stands before its first zero byte. A buffer without one
/// was not filled in properly.
pub open spec fn buffer_message(buffer: Seq<u8>) -> Seq<char> {
    if text_end(buffer) < buffer.len() {
        lossy_text(buffer.take(text_end(buffer) as int))
    } else {
        "unknown error"@
    }
}

/// The message in an error buffer.
pub fn error_message(buffer: &[u8]) -> (message: String)
    ensures
        message@ == buffer_message(buffer@),
        text_end(buffer@) < buffer@.len() && valid_utf8(buffer@.take(text_end(buffer@) as int))
            ==> message@ == decode_utf8(buffer@.take(text_end(buffer@) as int)),
{
    let mut end: usize = 0;
    assert(buffer@.skip(0) =~= buffer@);
    while end < buffer.len() && buffer[end] != 0
        invariant
            end <= buffer@.len(),
            text_end(buffer@) == end + text_end(buffer@.skip(end as int)),
        decreases buffer@.len() - end,
    {
        assert(buffer@.skip(end as int)[0] == buffer@[end as int]);
        assert(buffer@.skip(end as int).skip(1) =~= buffer@.skip(end + 1));
        end += 1;
    }
    if end < buffer.len() {
        assert(buffer@.skip(end as int)[0] == buffer@[end as int]);
        let text: &[u8] = vstd::slice::slice_subrange(buffer, 0, end);
        assert(text@ =~= buffer@.take(end as int));
        read_lossy(text)
    } else {
        "unknown error".to_owned()
    }
}

/// What an engine was doing when it failed.
#[derive(Debug, Clone, Copy, PartialEq, Eq, Structural)]
pub enum Task {
    LoadEngine,
    LoadModel,
    Start,
    Generate,
}

impl Task {
    /// What is said of its failure.
    pub open spec fn failure(self) -> Seq<char> {
        match self {
            Task::LoadEngine => "cannot load the engine: "@,
            Task::LoadModel => "cannot load the model: "@,
            Task::Start => "cannot start generating: "@,
            Task::Generate => "generation failed: "@,
        }
    }
}

/// Explains why `task` failed, by the message in the engine's error buffer.
pub fn failure(task: Task, buffer: &[u8]) -> (message: String)
    ensures
        message@ == task.failure() + buffer_message(buffer@),
{
    let mut message: String = String::new();
    message.append(
        match task {
            Task::LoadEngine => "cannot load the engine: ",
            Task::LoadModel => "cannot load the model: ",
            Task::Start => "cannot start generating: ",
            Task::Generate => "generation failed: ",
        },
    );
    message.append(error_message(buffer).as_str());
    message
}

/// What came of `task`: nothing more to say where it succeeded, else the engine's explanation.
pub fn outcome(task: Task, succeeded: bool, buffer: &[u8]) -> (result: Result<(), String>)
    ensures
        match result {
            Ok(_) => succeeded,
            Err(message) => !succeeded && message@ == task.failure() + buffer_message(buffer@),
        },
{
    if succeeded {
        Ok(())
    } else {
        Err(failure(task, buffer))
    }
}

/// The request that the engine started: it gives out ids from 1 on, and 0 stands for a failure,
/// which its error buffer explains.
pub fn started(request_id: RequestId, buffer: &[u8]) -> (result: Result<RequestId, String>)
    ensures
        match result {
            Ok(id) => id == request_id && request_id != 0,
            Err(message) => request_id == 0 && message@ == Task::Start.failure() + buffer_message(
                buffer@,
            ),
        },
{
    if request_id == 0 {
        Err(failure(Task::Start, buffer))
    } else {
        Ok(request_id)
    }
}

/// The message in an error buffer is the bytes before the first zero, whatever stands after it. A
/// buffer without a zero has none.
pub proof fn the_message_ends_at_the_first_zero(text: Seq<u8>, rest: Seq<u8>)
    requires
        !text.contains(0),
    ensures
        buffer_message(text + seq![0u8] + rest) == lossy_text(text),
        buffer_message(text) == "unknown error"@,
{
    lemma_text_end(text, rest);
    assert((text + seq![0u8] + rest).take(text.len() as int) =~= text);
}

proof fn lemma_text_end(text: Seq<u8>, rest: Seq<u8>)
    requires
        !text.contains(0),
    ensures
        text_end(text + seq![0u8] + rest) == text.len(),
        text_end(text) == text.len(),
    decreases text.len(),
{
    let buffer = text + seq![0u8] + rest;
    if text.len() > 0 {
        assert(text.contains(text[0]));
        let tail = text.skip(1);
        if tail.contains(0) {
            let i = choose|i: int| 0 <= i < tail.len() && tail[i] == 0;
            assert(text[i + 1] == 0);
        }
        lemma_text_end(tail, rest);
        assert(buffer.skip(1) =~= tail + seq![0u8] + rest);
        assert(buffer[0] == text[0]);
    } else {
        assert(buffer[0] == 0);
    }
}

/// A failure begins with what the engine was doing.
pub proof fn a_failure_names_the_task()
    ensures
        Task::LoadEngine.failure() == "cannot load the engine: "@,
        Task::LoadModel.failure() == "cannot load the model: "@,
        Task::Start.failure() == "cannot start generating: "@,
        Task::Generate.failure() == "generation failed: "@,
{
}

} // verus!
