use vstd::prelude::*;
use vstd::string::*;
use vstd::utf8::*;
use core::str::FromStr;
use crate::error::Error;
use crate::number::{all_digits, byte_of_text, decimal_value, digit_value, is_digit, is_number_text, parse_byte};
use crate::status::{status_of, Status};
use crate::text::{lemma_without_char_content, remove_char, trim, trim_str, without_char};
use crate::weight::{number_text, weight_text, Weight};

verus! {

/// The least number of bytes in a data frame.
pub const MIN_FRAME_LEN: usize = 7;

/// The greatest number of bytes in a data frame.
pub const MAX_FRAME_LEN: usize = 27;

/// A message received from the terminal: one reading of the balance.
#[derive(Debug, PartialEq, Eq)]
pub struct Message {
    pub status: Status,
    pub id: u8,
    pub value: Weight,
}

/// What a message holds, with the weight as the text of its number.
pub struct MessageView {
    pub status: Status,
    pub id: u8,
    pub value: Seq<char>,
}

impl View for Message {
    type V = MessageView;

    open spec fn view(&self) -> MessageView {
        MessageView { status: self.status, id: self.id, value: self.value@ }
    }
}

impl Clone for Message {
    fn clone(&self) -> (res: Message)
        ensures
            res@ == self@,
    {
        Message { status: self.status, id: self.id, value: self.value.clone() }
    }
}

/// The balance that an id field names: the field without the tare mark `W`,
/// read as an unsigned integer.
pub open spec fn id_of(field: Seq<char>) -> Option<u8> {
    byte_of_text(without_char(field, 'W'))
}

/// What a line stands for as a data frame. Without the white space at its
/// ends it must be 7 to 27 bytes long, and then hold ASCII only. Its first four
/// characters are the status, the next two the id, the others the weight; the
/// first of them that cannot be read decides the error.
pub open spec fn message_of(line: Seq<char>) -> Result<MessageView, Error> {
    let frame = trim(line);
    let len = encode_utf8(frame).len();
    if len > MAX_FRAME_LEN || len < MIN_FRAME_LEN {
        Err(Error::MessageLength)
    } else if !is_ascii_chars(frame) {
        Err(Error::NonAsciiStr)
    } else {
        match (status_of(frame.subrange(0, 4)), id_of(frame.subrange(4, 6))) {
            (Err(e), _) => Err(e),
            (Ok(_), None) => Err(Error::BalanceId),
            (Ok(status), Some(id)) => {
                let value = weight_text(frame.skip(6));
                if is_number_text(value) {
                    Ok(MessageView { status, id, value })
                } else {
                    Err(Error::BalanceValue)
                }
            },
        }
    }
}

impl FromStr for Message {
    type Err = Error;

    /// Reads a data frame.
    fn from_str(s: &str) -> (res: Result<Message, Error>)
        ensures
            match res {
                Ok(message) => message_of(s@) == Ok::<MessageView, Error>(message@),
                Err(e) => message_of(s@) == Err::<MessageView, Error>(e),
            },
    {
        broadcast use is_ascii_spec_bytes;

        let frame = trim_str(s);
        let len: usize = frame.as_bytes().len();
        if len > MAX_FRAME_LEN || len < MIN_FRAME_LEN {
            return Err(Error::MessageLength);
        }
        if !frame.is_ascii() {
            return Err(Error::NonAsciiStr);
        }
        let status_field = frame.substring_ascii(0, 4);
        let id_field = frame.substring_ascii(4, 6);
        let weight_field = frame.substring_ascii(6, len);
        proof {
            assert(weight_field@ =~= frame@.skip(6));
        }
        let text = number_text(weight_field);
        let status = match Status::from_str(status_field) {
            Ok(status) => status,
            Err(e) => return Err(e),
        };
        let id = match parse_byte(remove_char(id_field, 'W').as_str()) {
            Some(id) => id,
            None => return Err(Error::BalanceId),
        };
        let value = match Weight::from_text(text) {
            Ok(value) => value,
            Err(e) => return Err(e),
        };
        Ok(Message { status, id, value })
    }
}

/// A line that, trimmed, is shorter than 7 bytes or longer than 27 is refused
/// for its length.
pub proof fn lemma_message_of_wrong_length(line: Seq<char>)
    requires
        encode_utf8(trim(line)).len() < MIN_FRAME_LEN || encode_utf8(trim(line)).len()
            > MAX_FRAME_LEN,
    ensures
        message_of(line) == Err::<MessageView, Error>(Error::MessageLength),
{
}

/// A line that, trimmed, holds more than ASCII is refused: for that, or for
/// its length where that is wrong too.
pub proof fn lemma_message_of_non_ascii(line: Seq<char>)
    requires
        !is_ascii_chars(trim(line)),
    ensures
        message_of(line) == Err::<MessageView, Error>(Error::NonAsciiStr) || message_of(line)
            == Err::<MessageView, Error>(Error::MessageLength),
        MIN_FRAME_LEN <= encode_utf8(trim(line)).len() <= MAX_FRAME_LEN ==> message_of(line)
            == Err::<MessageView, Error>(Error::NonAsciiStr),
{
}

/// Whether a line, trimmed, has the length and the characters of a data
/// frame.
pub open spec fn is_framed(line: Seq<char>) -> bool {
    MIN_FRAME_LEN <= encode_utf8(trim(line)).len() <= MAX_FRAME_LEN && is_ascii_chars(trim(line))
}

/// A frame whose status is read and whose id field is no number is refused
/// for its id.
pub proof fn lemma_message_of_bad_id(line: Seq<char>)
    requires
        is_framed(line),
        status_of(trim(line).subrange(0, 4)) is Ok,
        id_of(trim(line).subrange(4, 6)) is None,
    ensures
        message_of(line) == Err::<MessageView, Error>(Error::BalanceId),
{
}

/// A frame whose status and id are read and whose weight field writes no
/// number is refused for its value.
pub proof fn lemma_message_of_bad_weight(line: Seq<char>)
    requires
        is_framed(line),
        status_of(trim(line).subrange(0, 4)) is Ok,
        id_of(trim(line).subrange(4, 6)) is Some,
        !is_number_text(weight_text(trim(line).skip(6))),
    ensures
        message_of(line) == Err::<MessageView, Error>(Error::BalanceValue),
{
}

/// Every message that is read comes from a frame of 7 to 27 ASCII
/// characters, has an id of at most 99, and a weight that writes a number.
pub proof fn lemma_message_of_ok(line: Seq<char>)
    requires
        message_of(line) is Ok,
    ensures
        is_framed(line),
        trim(line).len() == encode_utf8(trim(line)).len(),
        status_of(trim(line).subrange(0, 4)) == Ok::<Status, Error>(message_of(line)->Ok_0.status),
        id_of(trim(line).subrange(4, 6)) == Some(message_of(line)->Ok_0.id),
        message_of(line)->Ok_0.id <= 99,
        message_of(line)->Ok_0.value == weight_text(trim(line).skip(6)),
        is_number_text(message_of(line)->Ok_0.value),
{
    let frame = trim(line);
    is_ascii_chars_encode_utf8(frame);
    let field = frame.subrange(4, 6);
    let text = without_char(field, 'W');
    lemma_without_char_content(field, 'W');
    let digits = if text.len() > 0 && text[0] == '+' {
        text.drop_first()
    } else {
        text
    };
    assert(digits.len() <= 2);
    assert(all_digits(digits));
    lemma_two_digits(digits);
}

/// Two digits write no more than 99.
proof fn lemma_two_digits(digits: Seq<char>)
    requires
        all_digits(digits),
        digits.len() <= 2,
    ensures
        decimal_value(digits) <= 99,
{
    if digits.len() >= 1 {
        assert(is_digit(digits.last()));
        let front = digits.drop_last();
        assert(decimal_value(digits) == 10 * decimal_value(front) + digit_value(digits.last()));
        if front.len() >= 1 {
            assert(front.last() == digits[0]);
            assert(is_digit(digits[0]));
            assert(decimal_value(front.drop_last()) == 0);
            assert(decimal_value(front) == 10 * decimal_value(front.drop_last()) + digit_value(
                front.last(),
            ));
        } else {
            assert(decimal_value(front) == 0);
        }
    }
}

} // verus!
