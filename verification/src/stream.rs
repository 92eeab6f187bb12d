//! Streaming one reply: collects tokens from the engine, turns them into text, and hands it to
//! the chat until the reply is complete.
use tokenizers::Tokenizer;
use vstd::prelude::*;

use crate::decode::{stream_can_cut, streamed, DecoderState, TextDecoder};
use crate::event::ReplyPiece;
use crate::tokenizer::has_known_settings;

verus! {

/// Where the streaming of a reply stands.
#[derive(Debug, Clone, Copy, PartialEq, Eq, Structural)]
pub enum Phase {
    /// The engine is working.
    Waiting,
    /// A piece of text is on its way; `finished` says whether it is the last.
    Delivering { finished: bool },
    /// The last message is on its way.
    Closing,
    /// There is nothing left to do.
    Done,
}

/// What came of the last command.
#[derive(Debug)]
pub enum Report {
    /// The engine gave these tokens; `finished` says whether they are the last.
    Tokens { tokens: Vec<u32>, finished: bool },
    /// The engine failed, for the reason given.
    EngineFailed(String),
    /// The piece was taken.
    Sent,
    /// Nobody takes pieces any more: the chat has ended.
    ChatGone,
}

/// What is to be done next.
#[derive(Debug)]
pub enum Command {
    /// Wait for the engine's tokens.
    Wait,
    /// Hand this piece to the chat.
    Send(ReplyPiece),
    /// Stop the request on the engine; nothing is left to do after that.
    Cancel,
    /// Nothing is left to do.
    Stop,
    /// The text of a token cannot be told apart from the text before it.
    Abort,
}

/// What is to be done next, as a mathematical value.
pub enum CommandView {
    Wait,
    SendText { text: Seq<char>, token_count: u32 },
    SendFinished,
    SendFailed(Seq<char>),
    Cancel,
    Stop,
    Abort,
}

impl View for Command {
    type V = CommandView;

    open spec fn view(&self) -> CommandView {
        match self {
            Command::Wait => CommandView::Wait,
            Command::Send(ReplyPiece::Text { text, token_count }) => CommandView::SendText {
                text: text@,
                token_count: *token_count,
            },
            Command::Send(ReplyPiece::Finished) => CommandView::SendFinished,
            Command::Send(ReplyPiece::Failed(reason)) => CommandView::SendFailed(reason@),
            Command::Cancel => CommandView::Cancel,
            Command::Stop => CommandView::Stop,
            Command::Abort => CommandView::Abort,
        }
    }
}

/// What a report leads to: the next phase, and what is to be done. `decoder` is what was decoded so
/// far.
pub open spec fn next_step(
    tokenizer: Tokenizer,
    decoder: DecoderState,
    phase: Phase,
    report: Report,
) -> (Phase, CommandView) {
    match (phase, report) {
        (Phase::Waiting, Report::Tokens { tokens, finished }) => if stream_can_cut(
            tokenizer,
            decoder,
            tokens@,
        ) {
            (
                Phase::Delivering { finished },
                CommandView::SendText {
                    text: streamed(tokenizer, decoder, tokens@).1,
                    token_count: tokens@.len() as u32,
                },
            )
        } else {
            (Phase::Done, CommandView::Abort)
        },
        (Phase::Waiting, Report::EngineFailed(reason)) => (
            Phase::Closing,
            CommandView::SendFailed(reason@),
        ),
        (Phase::Waiting, _) => (Phase::Waiting, CommandView::Wait),
        (Phase::Delivering { finished }, Report::Sent) => if finished {
            (Phase::Closing, CommandView::SendFinished)
        } else {
            (Phase::Waiting, CommandView::Wait)
        },
        (Phase::Delivering { .. }, Report::ChatGone) => (Phase::Done, CommandView::Cancel),
        _ => (Phase::Done, CommandView::Stop),
    }
}

/// Streams one reply.
pub struct ReplyWorker {
    pub decoder: TextDecoder,
    pub phase: Phase,
}

impl ReplyWorker {
    /// Starts with the engine at work.
    pub fn new() -> (worker: Self)
        ensures
            worker.decoder@ == DecoderState::start(),
            worker.decoder@.wf(),
            worker.phase == Phase::Waiting,
    {
        ReplyWorker { decoder: TextDecoder::new(), phase: Phase::Waiting }
    }

    /// Takes in a report and says what to do next.
    ///
    /// Tokens become one piece with all the text they complete, sent even when it is empty. After
    /// the last one comes `Finished`; a failure of the engine is the last piece. A chat that is
    /// gone while text is delivered has the request cancelled.
    pub fn step(&mut self, tokenizer: &Tokenizer, report: Report) -> (command: Command)
        requires
            old(self).decoder@.wf(),
            has_known_settings(*tokenizer),
        ensures
            final(self).decoder@.wf(),
            (final(self).phase, command@) == next_step(
                *tokenizer,
                old(self).decoder@,
                old(self).phase,
                report,
            ),
            match (old(self).phase, report) {
                (Phase::Waiting, Report::Tokens { tokens, finished }) => if stream_can_cut(
                    *tokenizer,
                    old(self).decoder@,
                    tokens@,
                ) {
                    let (next, text) = streamed(*tokenizer, old(self).decoder@, tokens@);
                    &&& final(self).decoder@ == next
                    &&& final(self).phase == (Phase::Delivering { finished })
                    &&& command matches Command::Send(ReplyPiece::Text { text: sent, token_count })
                    &&& sent@ == text
                    &&& token_count == tokens@.len() as u32
                } else {
                    command is Abort && final(self).phase == Phase::Done
                },
                (Phase::Waiting, Report::EngineFailed(reason)) => {
                    &&& final(self).phase == Phase::Closing
                    &&& final(self).decoder@ == old(self).decoder@
                    &&& command matches Command::Send(ReplyPiece::Failed(sent))
                    &&& sent@ == reason@
                },
                (Phase::Delivering { finished: false }, Report::Sent) => {
                    &&& final(self).phase == Phase::Waiting
                    &&& final(self).decoder@ == old(self).decoder@
                    &&& command is Wait
                },
                (Phase::Delivering { finished: true }, Report::Sent) => {
                    &&& final(self).phase == Phase::Closing
                    &&& final(self).decoder@ == old(self).decoder@
                    &&& command matches Command::Send(ReplyPiece::Finished)
                },
                (Phase::Delivering { .. }, Report::ChatGone) => {
                    &&& final(self).phase == Phase::Done
                    &&& final(self).decoder@ == old(self).decoder@
                    &&& command is Cancel
                },
                (Phase::Waiting, Report::Sent) | (Phase::Waiting, Report::ChatGone) => {
                    &&& final(self).phase == Phase::Waiting
                    &&& final(self).decoder@ == old(self).decoder@
                    &&& command is Wait
                },
                _ => {
                    &&& final(self).phase == Phase::Done
                    &&& final(self).decoder@ == old(self).decoder@
                    &&& command is Stop
                },
            },
    {
        match (self.phase, report) {
            (Phase::Waiting, Report::Tokens { tokens, finished }) => {
                let token_count: u32 = #[verifier::truncate]
                (tokens.len() as u32);
                match self.decoder.push_all(tokenizer, &tokens) {
                    Some(text) => {
                        self.phase = Phase::Delivering { finished };
                        Command::Send(ReplyPiece::Text { text, token_count })
                    },
                    None => {
                        self.phase = Phase::Done;
                        Command::Abort
                    },
                }
            },
            (Phase::Waiting, Report::EngineFailed(reason)) => {
                self.phase = Phase::Closing;
                Command::Send(ReplyPiece::Failed(reason))
            },
            (Phase::Waiting, _) => Command::Wait,
            (Phase::Delivering { finished }, Report::Sent) => {
                if finished {
                    self.phase = Phase::Closing;
                    Command::Send(ReplyPiece::Finished)
                } else {
                    self.phase = Phase::Waiting;
                    Command::Wait
                }
            },
            (Phase::Delivering { .. }, Report::ChatGone) => {
                self.phase = Phase::Done;
                Command::Cancel
            },
            (_, _) => {
                self.phase = Phase::Done;
                Command::Stop
            },
        }
    }
}

/// However the tokens of a reply are batched, the text is the same: what two batches give one
/// after the other is what they give together.
pub proof fn batches_do_not_change_the_text(
    tokenizer: Tokenizer,
    from: DecoderState,
    first: Seq<u32>,
    second: Seq<u32>,
)
    ensures
        ({
            let (middle, head) = streamed(tokenizer, from, first);
            let (last, tail) = streamed(tokenizer, middle, second);
            streamed(tokenizer, from, first + second) == (last, head + tail)
        }),
    decreases second.len(),
{
    let (middle, head) = streamed(tokenizer, from, first);
    if second.len() == 0 {
        assert(first + second =~= first);
        assert(head + Seq::<char>::empty() =~= head);
    } else {
        batches_do_not_change_the_text(tokenizer, from, first, second.drop_last());
        assert((first + second).drop_last() =~= first + second.drop_last());
        let (state, text) = streamed(tokenizer, middle, second.drop_last());
        let piece = state.push(tokenizer, second.last()).1;
        if piece is Some {
            assert(head + text + piece->0 =~= head + (text + piece->0));
        }
    }
}

/// A reply is delivered whole and in order: all the text that some tokens complete goes to the chat
/// at once, with their number; then the engine is waited for again, or, after the last tokens, the
/// chat is told that the reply is finished, once, and nothing more comes. A failure of the engine is
/// told, and is the last that comes. Where nobody listens any more while text is delivered, the
/// engine is told to stop.
pub proof fn a_reply_is_delivered_to_its_end(
    tokenizer: Tokenizer,
    decoder: DecoderState,
    tokens: Vec<u32>,
    finished: bool,
    reason: String,
    report: Report,
)
    requires
        tokens@.len() <= u32::MAX,
    ensures
        ({
            let next = |phase: Phase, report: Report| next_step(tokenizer, decoder, phase, report);
            let told = next(Phase::Waiting, Report::Tokens { tokens, finished });
            let failed = next(Phase::Waiting, Report::EngineFailed(reason));
            &&& stream_can_cut(tokenizer, decoder, tokens@) ==> {
                &&& told.1 matches CommandView::SendText { text, token_count }
                &&& text == streamed(tokenizer, decoder, tokens@).1
                &&& token_count == tokens@.len()
                &&& finished ==> next(told.0, Report::Sent).1 is SendFinished && next(
                    next(told.0, Report::Sent).0,
                    report,
                ).1 is Stop
                &&& !finished ==> next(told.0, Report::Sent) == (Phase::Waiting, CommandView::Wait)
                &&& next(told.0, Report::ChatGone).1 is Cancel
                &&& next(next(told.0, Report::ChatGone).0, report).1 is Stop
            }
            &&& !stream_can_cut(tokenizer, decoder, tokens@) ==> told.1 is Abort
            &&& failed.1 == CommandView::SendFailed(reason@)
            &&& next(failed.0, report).1 is Stop
        }),
{
}

/// A command is seen as what it is.
pub proof fn commands_are_seen_as_they_are(command: Command)
    ensures
        match command {
            Command::Wait => command@ is Wait,
            Command::Send(ReplyPiece::Text { text, token_count }) => command@
                == (CommandView::SendText { text: text@, token_count }),
            Command::Send(ReplyPiece::Finished) => command@ is SendFinished,
            Command::Send(ReplyPiece::Failed(reason)) => command@ == CommandView::SendFailed(
                reason@,
            ),
            Command::Cancel => command@ is Cancel,
            Command::Stop => command@ is Stop,
            Command::Abort => command@ is Abort,
        },
{
}

} // verus!
