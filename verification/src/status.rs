use vstd::prelude::*;
use vstd::string::*;
use vstd::utf8::*;
use crate::error::Error;
use core::str::FromStr;

verus! {

/// What a one-character flag text stands for.
pub open spec fn flag_of(s: Seq<char>) -> Result<bool, Error> {
    if s == seq!['1'] {
        Ok(true)
    } else if s == seq!['0'] {
        Ok(false)
    } else {
        Err(Error::ParseBoolean)
    }
}

/// Reads a single status flag: `"1"` is true, `"0"` is false.
pub fn bool_from_str(s: &str) -> (res: Result<bool, Error>)
    ensures
        res == flag_of(s@),
{
    broadcast use is_ascii_spec_bytes;

    if !s.is_ascii() || s.as_bytes().len() != 1 {
        return Err(Error::ParseBoolean);
    }
    let b: u8 = s.get_ascii(0);
    proof {
        assert(s@ =~= seq![s@[0]]);
    }
    if b == 0x31 {
        Ok(true)
    } else if b == 0x30 {
        Ok(false)
    } else {
        Err(Error::ParseBoolean)
    }
}

/// Balance status.
#[derive(Debug, Clone, Copy, PartialEq, Eq, Structural)]
pub struct Status {
    pub under_load: bool,
    pub over_load: bool,
    pub standstill: bool,
    pub empty_message: bool,
}

/// Whether `c` is one of the two flag characters.
pub open spec fn is_flag(c: char) -> bool {
    c == '0' || c == '1'
}

/// What a status field stands for. The field must be four bytes long, then
/// hold ASCII only, and then each of its characters must be a flag; they are,
/// in this order: under load, over load, standstill, empty message.
pub open spec fn status_of(s: Seq<char>) -> Result<Status, Error> {
    if encode_utf8(s).len() != 4 {
        Err(Error::MessageLength)
    } else if !is_ascii_chars(s) {
        Err(Error::NonAsciiStr)
    } else if is_flag(s[0]) && is_flag(s[1]) && is_flag(s[2]) && is_flag(s[3]) {
        Ok(
            Status {
                under_load: s[0] == '1',
                over_load: s[1] == '1',
                standstill: s[2] == '1',
                empty_message: s[3] == '1',
            },
        )
    } else {
        Err(Error::ParseBoolean)
    }
}

/// Reads the flag that is the character of `s` at index `i`.
fn flag_at(s: &str, i: usize) -> (res: Result<bool, Error>)
    requires
        is_ascii_chars(s@),
        i < s@.len(),
        i < usize::MAX,
    ensures
        res == if is_flag(s@[i as int]) {
            Ok::<bool, Error>(s@[i as int] == '1')
        } else {
            Err(Error::ParseBoolean)
        },
{
    let piece = s.substring_ascii(i, i + 1);
    proof {
        assert(piece@ =~= seq![s@[i as int]]);
        assert(seq!['0'][0] == '0');
        assert(seq!['1'][0] == '1');
    }
    bool_from_str(piece)
}

impl core::str::FromStr for Status {
    type Err = Error;

    /// Reads the four flags of a status field.
    fn from_str(s: &str) -> (res: Result<Status, Error>)
        ensures
            res == status_of(s@),
    {
        broadcast use is_ascii_spec_bytes;

        if s.as_bytes().len() != 4 {
            return Err(Error::MessageLength);
        }
        if !s.is_ascii() {
            return Err(Error::NonAsciiStr);
        }
        let under_load = match flag_at(s, 0) {
            Ok(flag) => flag,
            Err(e) => return Err(e),
        };
        let over_load = match flag_at(s, 1) {
            Ok(flag) => flag,
            Err(e) => return Err(e),
        };
        let standstill = match flag_at(s, 2) {
            Ok(flag) => flag,
            Err(e) => return Err(e),
        };
        let empty_message = match flag_at(s, 3) {
            Ok(flag) => flag,
            Err(e) => return Err(e),
        };
        Ok(Status { under_load, over_load, standstill, empty_message })
    }
}

/// Four flag characters are read as the four flags, each at its place.
pub proof fn lemma_status_of_flags(s: Seq<char>)
    requires
        s.len() == 4,
        forall|i: int| 0 <= i < 4 ==> is_flag(#[trigger] s[i]),
    ensures
        status_of(s) == Ok::<Status, Error>(
            Status {
                under_load: s[0] == '1',
                over_load: s[1] == '1',
                standstill: s[2] == '1',
                empty_message: s[3] == '1',
            },
        ),
{
    assert forall|i: int| 0 <= i < s.len() implies '\0' <= #[trigger] s[i] <= '\u{7f}' by {
        assert(is_flag(s[i]));
    }
    is_ascii_chars_encode_utf8(s);
    assert(is_flag(s[0]) && is_flag(s[1]) && is_flag(s[2]) && is_flag(s[3]));
}

/// Four ASCII characters of which one is no flag are refused as no boolean.
pub proof fn lemma_status_of_other_characters(s: Seq<char>, i: int)
    requires
        s.len() == 4,
        is_ascii_chars(s),
        0 <= i < 4,
        !is_flag(s[i]),
    ensures
        status_of(s) == Err::<Status, Error>(Error::ParseBoolean),
{
    is_ascii_chars_encode_utf8(s);
}

/// A field that is not four bytes long is refused for its length, whatever
/// it holds.
pub proof fn lemma_status_of_wrong_length(s: Seq<char>)
    requires
        encode_utf8(s).len() != 4,
    ensures
        status_of(s) == Err::<Status, Error>(Error::MessageLength),
{
}

/// A field of four bytes that holds more than ASCII is refused for that,
/// before any flag is read.
pub proof fn lemma_status_of_non_ascii(s: Seq<char>)
    requires
        encode_utf8(s).len() == 4,
        !is_ascii_chars(s),
    ensures
        status_of(s) == Err::<Status, Error>(Error::NonAsciiStr),
{
}

} // verus!
