use vstd::prelude::*;
use vstd::string::*;
use vstd::utf8::*;
use core::str::FromStr;
use crate::error::Error;
use crate::message::{lemma_message_of_ok, message_of, Message, MessageView};
use crate::status::is_flag;
use crate::text::{lemma_trim_is_idempotent, trim, trim_str};

verus! {

/// The control code with which the terminal accepts a command.
pub const ACK: u8 = 0x06;

/// The control code with which the terminal refuses a command.
pub const NAK: u8 = 0x15;

/// What the terminal answers to a command or a query.
#[derive(Debug, PartialEq, Eq)]
pub enum Response {
    Ack,
    Nak,
    Message(Message),
}

/// What a response holds, with the message as its view.
pub enum ResponseView {
    Ack,
    Nak,
    Message(MessageView),
}

impl View for Response {
    type V = ResponseView;

    open spec fn view(&self) -> ResponseView {
        match self {
            Response::Ack => ResponseView::Ack,
            Response::Nak => ResponseView::Nak,
            Response::Message(message) => ResponseView::Message(message@),
        }
    }
}

impl Clone for Response {
    fn clone(&self) -> (res: Response)
        ensures
            res@ == self@,
    {
        match self {
            Response::Ack => Response::Ack,
            Response::Nak => Response::Nak,
            Response::Message(message) => Response::Message(message.clone()),
        }
    }
}

/// What a line stands for as a response. Without the white space at its ends
/// it must not be empty. Its first byte alone tells a control code from a data
/// frame; a line that starts with neither code is read as a data frame.
pub open spec fn response_of(line: Seq<char>) -> Result<ResponseView, Error> {
    let frame = trim(line);
    if frame.len() == 0 {
        Err(Error::MessageLength)
    } else if encode_utf8(frame)[0] == ACK {
        Ok(ResponseView::Ack)
    } else if encode_utf8(frame)[0] == NAK {
        Ok(ResponseView::Nak)
    } else {
        match message_of(frame) {
            Ok(message) => Ok(ResponseView::Message(message)),
            Err(e) => Err(e),
        }
    }
}

impl FromStr for Response {
    type Err = Error;

    /// Reads a response.
    fn from_str(s: &str) -> (res: Result<Response, Error>)
        ensures
            match res {
                Ok(response) => response_of(s@) == Ok::<ResponseView, Error>(response@),
                Err(e) => response_of(s@) == Err::<ResponseView, Error>(e),
            },
    {
        let frame = trim_str(s);
        if frame.is_empty() {
            return Err(Error::MessageLength);
        }
        let bytes = frame.as_bytes();
        proof {
            lemma_encoding_is_no_shorter(frame@);
        }
        if bytes[0] == ACK {
            return Ok(Response::Ack);
        }
        if bytes[0] == NAK {
            return Ok(Response::Nak);
        }
        match Message::from_str(frame) {
            Ok(message) => Ok(Response::Message(message)),
            Err(e) => Err(e),
        }
    }
}

/// The UTF-8 encoding of a text has at least as many bytes as the text has
/// characters.
pub proof fn lemma_encoding_is_no_shorter(s: Seq<char>)
    ensures
        encode_utf8(s).len() >= s.len(),
    decreases s.len(),
{
    if s.len() > 0 {
        lemma_encoding_is_no_shorter(s.drop_first());
    }
}

/// A line of white space only, or of nothing, is refused for its length.
pub proof fn lemma_response_of_nothing(line: Seq<char>)
    requires
        trim(line).len() == 0,
    ensures
        response_of(line) == Err::<ResponseView, Error>(Error::MessageLength),
{
}

/// A line that, trimmed, starts with a control code is that code's response,
/// whatever follows the code.
pub proof fn lemma_response_of_control_code(line: Seq<char>)
    requires
        trim(line).len() > 0,
        trim(line)[0] == '\u{6}' || trim(line)[0] == '\u{15}',
    ensures
        trim(line)[0] == '\u{6}' ==> response_of(line) == Ok::<ResponseView, Error>(
            ResponseView::Ack,
        ),
        trim(line)[0] == '\u{15}' ==> response_of(line) == Ok::<ResponseView, Error>(
            ResponseView::Nak,
        ),
{
    let frame = trim(line);
    let code = seq![frame[0]];
    assert(is_ascii_chars(code));
    is_ascii_chars_encode_utf8(code);
    assert(encode_utf8(code)[0] == code[0] as u8);
    assert(code.drop_first() =~= Seq::<char>::empty());
    assert(encode_utf8(code) =~= encode_scalar(frame[0] as u32));
    assert(encode_utf8(frame)[0] == encode_scalar(frame[0] as u32)[0]);
}

/// The one character with code 6 is an acknowledgment, the one with code 21
/// a refusal.
pub proof fn lemma_response_of_lone_code()
    ensures
        response_of(seq!['\u{6}']) == Ok::<ResponseView, Error>(ResponseView::Ack),
        response_of(seq!['\u{15}']) == Ok::<ResponseView, Error>(ResponseView::Nak),
{
    let ack = seq!['\u{6}'];
    let nak = seq!['\u{15}'];
    crate::text::lemma_trim_start(ack, 0);
    crate::text::lemma_trim_end(ack, 1);
    crate::text::lemma_trim_start(nak, 0);
    crate::text::lemma_trim_end(nak, 1);
    assert(ack.subrange(0, 1) =~= ack);
    assert(nak.subrange(0, 1) =~= nak);
    lemma_response_of_control_code(ack);
    lemma_response_of_control_code(nak);
}

/// A line that is read as a data frame is, as a response, that same
/// message.
pub proof fn lemma_response_of_data_frame(line: Seq<char>)
    requires
        message_of(line) is Ok,
    ensures
        response_of(line) == Ok::<ResponseView, Error>(
            ResponseView::Message(message_of(line)->Ok_0),
        ),
{
    let frame = trim(line);
    lemma_trim_is_idempotent(line);
    lemma_message_of_ok(line);
    is_ascii_chars_encode_utf8(frame);
    assert(frame.subrange(0, 4)[0] == frame[0]);
    is_ascii_chars_encode_utf8(frame.subrange(0, 4));
    assert(is_flag(frame[0]));
    assert(encode_utf8(frame)[0] == frame[0] as u8);
}

/// A line that, trimmed, is not empty and starts with no control code is
/// refused as a response for the reason for which it is refused as a data
/// frame.
pub proof fn lemma_response_of_bad_frame(line: Seq<char>)
    requires
        trim(line).len() > 0,
        encode_utf8(trim(line))[0] != ACK,
        encode_utf8(trim(line))[0] != NAK,
        message_of(line) is Err,
    ensures
        response_of(line) == Err::<ResponseView, Error>(message_of(line)->Err_0),
{
    lemma_trim_is_idempotent(line);
}

} // verus!
