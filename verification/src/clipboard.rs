//! Copying text to the clipboard.
//!
//! On a desktop the text goes to the system clipboard. Over SSH there is no desktop to talk to,
//! so the text is sent to the terminal instead, as an OSC 52 escape sequence, and the terminal on
//! the other end puts it on its own clipboard.
use base64::engine::general_purpose::STANDARD;
use base64::Engine as _;
use vstd::prelude::*;
use vstd::utf8::encode_utf8;

verus! {

/// The base64 digit of a number below 64.
pub open spec fn base64_digit(value: int) -> char {
    if value < 26 {
        ('A' as u32 + value) as char
    } else if value < 52 {
        ('a' as u32 + value - 26) as char
    } else if value < 62 {
        ('0' as u32 + value - 52) as char
    } else if value == 62 {
        '+'
    } else {
        '/'
    }
}

/// Bytes in base64: four digits for each three bytes, with `=` in place of the digits that the
/// last bytes do not fill.
pub open spec fn base64_text(bytes: Seq<u8>) -> Seq<char>
    decreases bytes.len(),
{
    if bytes.len() == 0 {
        Seq::empty()
    } else if bytes.len() == 1 {
        seq![base64_digit(bytes[0] as int / 4), base64_digit(bytes[0] as int % 4 * 16), '=', '=']
    } else if bytes.len() == 2 {
        seq![
            base64_digit(bytes[0] as int / 4),
            base64_digit(bytes[0] as int % 4 * 16 + bytes[1] as int / 16),
            base64_digit(bytes[1] as int % 16 * 4),
            '=',
        ]
    } else {
        seq![
            base64_digit(bytes[0] as int / 4),
            base64_digit(bytes[0] as int % 4 * 16 + bytes[1] as int / 16),
            base64_digit(bytes[1] as int % 16 * 4 + bytes[2] as int / 64),
            base64_digit(bytes[2] as int % 64),
        ] + base64_text(bytes.skip(3))
    }
}

/// `Engine::encode` of base64's `STANDARD` engine writes the bytes of a text in base64, with the
/// alphabet and the padding of RFC 4648.
#[verifier::external_body]
fn encode(text: &str) -> (encoded: String)
    ensures
        encoded@ == base64_text(encode_utf8(text@)),
{
    STANDARD.encode(text)
}

/// What starts the escape sequence that sets a terminal's clipboard.
pub const OSC_52: &'static str = "\x1b]52;c;";

/// What ends it.
pub const BELL: &'static str = "\x07";

/// What is still to be done to copy a text.
#[derive(Debug)]
pub enum CopyStep {
    /// The text is on the system clipboard.
    Done,
    /// These characters are to be sent to the terminal.
    SendToTerminal(String),
}

/// What is still to be done to copy `text`, once the system clipboard was tried: `system` is
/// `None` where there is none, or says whether it took the text.
pub fn copy(text: &str, system: Option<bool>) -> (step: CopyStep)
    ensures
        match step {
            CopyStep::Done => system == Some(true),
            CopyStep::SendToTerminal(sequence) => system != Some(true) && sequence@ == OSC_52@
                + base64_text(encode_utf8(text@)) + BELL@,
        },
        step matches CopyStep::SendToTerminal(sequence) ==> sequence@ == "\x1b]52;c;"@
            + base64_text(encode_utf8(text@)) + "\x07"@,
{
    match system {
        Some(true) => CopyStep::Done,
        _ => {
            let mut sequence: String = String::new();
            sequence.append(OSC_52);
            sequence.append(encode(text).as_str());
            sequence.append(BELL);
            CopyStep::SendToTerminal(sequence)
        },
    }
}

/// The number that a base64 digit stands for.
pub open spec fn digit_value(digit: char) -> int {
    if 'A' <= digit <= 'Z' {
        digit as int - 'A' as int
    } else if 'a' <= digit <= 'z' {
        digit as int - 'a' as int + 26
    } else if '0' <= digit <= '9' {
        digit as int - '0' as int + 52
    } else if digit == '+' {
        62
    } else {
        63
    }
}

/// The bytes that a text in base64 stands for.
pub open spec fn base64_bytes(text: Seq<char>) -> Seq<u8>
    decreases text.len(),
{
    if text.len() < 4 {
        Seq::empty()
    } else {
        let first = (digit_value(text[0]) * 4 + digit_value(text[1]) / 16) as u8;
        let second = (digit_value(text[1]) % 16 * 16 + digit_value(text[2]) / 4) as u8;
        let third = (digit_value(text[2]) % 4 * 64 + digit_value(text[3])) as u8;
        if text[2] == '=' {
            seq![first]
        } else if text[3] == '=' {
            seq![first, second]
        } else {
            seq![first, second, third] + base64_bytes(text.skip(4))
        }
    }
}

proof fn lemma_digit(value: int)
    requires
        0 <= value < 64,
    ensures
        digit_value(base64_digit(value)) == value,
        base64_digit(value) != '=',
        '+' <= base64_digit(value) <= 'z',
{
}

/// Whatever is copied, the terminal can read it back.
pub proof fn copied_bytes_read_back(bytes: Seq<u8>)
    ensures
        base64_bytes(base64_text(bytes)) == bytes,
    decreases bytes.len(),
{
    let text = base64_text(bytes);
    if bytes.len() == 1 {
        lemma_digit(bytes[0] as int / 4);
        lemma_digit(bytes[0] as int % 4 * 16);
        assert(base64_bytes(text) =~= bytes);
    } else if bytes.len() == 2 {
        lemma_digit(bytes[0] as int / 4);
        lemma_digit(bytes[0] as int % 4 * 16 + bytes[1] as int / 16);
        lemma_digit(bytes[1] as int % 16 * 4);
        assert(base64_bytes(text) =~= bytes);
    } else if bytes.len() >= 3 {
        lemma_digit(bytes[0] as int / 4);
        lemma_digit(bytes[0] as int % 4 * 16 + bytes[1] as int / 16);
        lemma_digit(bytes[1] as int % 16 * 4 + bytes[2] as int / 64);
        lemma_digit(bytes[2] as int % 64);
        copied_bytes_read_back(bytes.skip(3));
        assert(text.skip(4) =~= base64_text(bytes.skip(3)));
        assert(base64_bytes(text) =~= bytes);
    }
}

/// Whatever is copied, the escape sequence holds no control character before its end.
pub proof fn copied_text_is_printable(bytes: Seq<u8>)
    ensures
        forall|i: int|
            0 <= i < base64_text(bytes).len() ==> ' ' < #[trigger] base64_text(bytes)[i] <= 'z',
    decreases bytes.len(),
{
    if bytes.len() == 1 {
        lemma_digit(bytes[0] as int / 4);
        lemma_digit(bytes[0] as int % 4 * 16);
    } else if bytes.len() == 2 {
        lemma_digit(bytes[0] as int / 4);
        lemma_digit(bytes[0] as int % 4 * 16 + bytes[1] as int / 16);
        lemma_digit(bytes[1] as int % 16 * 4);
    } else if bytes.len() >= 3 {
        lemma_digit(bytes[0] as int / 4);
        lemma_digit(bytes[0] as int % 4 * 16 + bytes[1] as int / 16);
        lemma_digit(bytes[1] as int % 16 * 4 + bytes[2] as int / 64);
        lemma_digit(bytes[2] as int % 64);
        copied_text_is_printable(bytes.skip(3));
        let text = base64_text(bytes);
        let rest = base64_text(bytes.skip(3));
        assert forall|i: int| 0 <= i < text.len() implies ' ' < #[trigger] text[i] <= 'z' by {
            if i >= 4 {
                assert(text[i] == rest[i - 4]);
            }
        }
    }
}

} // verus!
