//! What llama.cpp reports while it works on a reply.
use vstd::prelude::*;

verus! {

/// What the engine reports while it works on a reply.
#[derive(Debug)]
pub enum Progress<'a> {
    /// Still reading the prompt.
    Reading,
    /// Generated a token; these bytes are its text (possibly part of a UTF-8 character).
    Token(&'a [u8]),
}

/// The progress that a report stands for: -1 is reported while the prompt is read, and else the
/// token that was generated, whose text is `piece`.
pub fn progress<'a>(token: i32, piece: &'a [u8]) -> (progress: Progress<'a>)
    ensures
        match progress {
            Progress::Reading => token == -1,
            Progress::Token(bytes) => token != -1 && bytes@ == piece@,
        },
{
    if token == -1 {
        Progress::Reading
    } else {
        Progress::Token(piece)
    }
}

/// The context length a model was trained for, by the number that its file gives; a negative one
/// counts as none.
pub fn trained_context(reported: i32) -> (tokens: u32)
    ensures
        tokens == if reported < 0 {
            0
        } else {
            reported as int
        },
{
    if reported < 0 {
        0
    } else {
        reported as u32
    }
}

/// How many tokens more than bytes a text can take.
pub const EXTRA_TOKENS: usize = 16;

/// Room for the tokens of a text of `text_len` bytes.
pub fn token_room(text_len: usize) -> (room: usize)
    requires
        text_len + EXTRA_TOKENS <= usize::MAX,
    ensures
        room == text_len + EXTRA_TOKENS,
{
    text_len + EXTRA_TOKENS
}

/// The tokens of a text: the first `count` of those in the buffer `tokens`. A negative count
/// stands for a failure.
pub fn tokenized(count: i32, tokens: Vec<i32>) -> (result: Result<Vec<u32>, String>)
    ensures
        match result {
            Ok(ids) => {
                &&& count >= 0
                &&& ids@.len() == if count <= tokens@.len() {
                    count as int
                } else {
                    tokens@.len() as int
                }
                &&& forall|i: int|
                    0 <= i < ids@.len() ==> #[trigger] ids@[i] == tokens@[i] as u32
            },
            Err(message) => count < 0 && message@ == "cannot tokenize the conversation"@,
        },
{
    if count < 0 {
        return Err("cannot tokenize the conversation".to_owned());
    }
    let limit: usize = if count as usize <= tokens.len() {
        count as usize
    } else {
        tokens.len()
    };
    let mut ids: Vec<u32> = Vec::new();
    for index in 0..limit
        invariant
            limit <= tokens@.len(),
            ids@.len() == index,
            forall|i: int| 0 <= i < index ==> #[trigger] ids@[i] == tokens@[i] as u32,
    {
        let id: u32 = #[verifier::truncate]
        (tokens[index] as u32);
        ids.push(id);
    }
    Ok(ids)
}

/// The least room for the bytes of a token.
pub const MIN_PIECE: usize = 64;

/// What to do after the engine was asked for the bytes of a token.
#[derive(Debug)]
pub enum PieceStep {
    /// These are the bytes.
    Done(Vec<u8>),
    /// The bytes need this much room: ask again.
    Grow(usize),
}

/// The room to ask with first, where there is room for `capacity` bytes already.
pub fn first_room(capacity: usize) -> (room: usize)
    ensures
        room == if capacity > MIN_PIECE {
            capacity
        } else {
            MIN_PIECE
        },
{
    if capacity > MIN_PIECE {
        capacity
    } else {
        MIN_PIECE
    }
}

/// What to do after the engine wrote the bytes of a token into `piece`. It gives their number, or
/// the negated number where `piece` is too short.
pub fn token_piece(piece: Vec<u8>, length: i32) -> (step: PieceStep)
    ensures
        match step {
            PieceStep::Done(bytes) => length >= 0 && bytes@ == if length <= piece@.len() {
                piece@.take(length as int)
            } else {
                piece@
            },
            PieceStep::Grow(room) => length < 0 && room == -(length as int),
        },
{
    if length >= 0 {
        let mut bytes: Vec<u8> = piece;
        let ghost all = bytes@;
        if (length as usize) < bytes.len() {
            bytes.truncate(length as usize);
        }
        assert(length <= all.len() ==> bytes@ =~= all.take(length as int));
        PieceStep::Done(bytes)
    } else {
        let needed: i64 = -(length as i64);
        PieceStep::Grow(needed as usize)
    }
}

} // verus!
