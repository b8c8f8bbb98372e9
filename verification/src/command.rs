use vstd::prelude::*;
use vstd::string::*;
use vstd::utf8::*;
use crate::error::Error;
use crate::number::{all_digits, decimal_value, digit_value, is_digit, to_lower};

verus! {

/// The greatest tare value that the wire format can carry.
pub const MAX_TARE_VALUE: u32 = 9_999_999;

/// How many digits a tare value takes on the wire.
pub const TARE_DIGITS: u32 = 7;

/// Balance command.
#[derive(Debug, Clone, Copy, PartialEq, Eq, Structural)]
pub enum Command {
    /// Tare the balance now.
    Tare,
    /// Set the tare back to zero.
    ClearTare,
    /// Set the tare to the given value.
    SetTare(u32),
}

/// Balance query command.
#[derive(Debug, Clone, Copy, PartialEq, Eq, Structural)]
pub enum Query {
    /// Ask for one reading.
    Once,
    /// Ask for a reading whenever the weight changes.
    OnceOnChange,
}

/// A command or a query that asks the terminal to acknowledge it before it
/// answers.
pub struct WithAck<T>(T);

impl<T> View for WithAck<T> {
    type V = T;

    closed spec fn view(&self) -> T {
        self.0
    }
}

/// What can be written to the serial line.
pub trait ToAsciiString {
    /// The text on the wire, or the reason why there is none.
    spec fn wire(&self) -> Result<Seq<char>, Error>;

    /// Renders the value as the terminal expects it.
    fn to_ascii_string(&self) -> (res: Result<String, Error>)
        ensures
            match res {
                Ok(text) => self.wire() == Ok::<Seq<char>, Error>(text@),
                Err(e) => self.wire() == Err::<Seq<char>, Error>(e),
            },
    ;
}

/// The character of the digit `d`.
pub open spec fn digit_char(d: nat) -> char
    recommends
        d < 10,
{
    ('0' as u32 + d) as char
}

/// The last `width` decimal digits of `value`, with zeros where it has fewer.
pub open spec fn zero_padded(value: nat, width: nat) -> Seq<char>
    decreases width,
{
    if width == 0 {
        Seq::empty()
    } else {
        zero_padded(value / 10, (width - 1) as nat).push(digit_char(value % 10))
    }
}

/// The tag letter of the commands, in the form that asks for an
/// acknowledgment or in the plain one.
pub open spec fn command_tag(ack: bool) -> char {
    if ack {
        't'
    } else {
        'T'
    }
}

/// The text of a command on the wire, or `TareValue` for a tare value above
/// `MAX_TARE_VALUE`.
pub open spec fn command_wire(command: Command, ack: bool) -> Result<Seq<char>, Error> {
    match command {
        Command::Tare => Ok(seq!['<', command_tag(ack), '>']),
        Command::ClearTare => Ok(seq!['<', command_tag(ack), 'C', '>']),
        Command::SetTare(value) => if value > MAX_TARE_VALUE {
            Err(Error::TareValue)
        } else {
            Ok(seq!['<', command_tag(ack)] + zero_padded(value as nat, TARE_DIGITS as nat) + seq!['>'])
        },
    }
}

/// The text of a query on the wire.
pub open spec fn query_wire(query: Query, ack: bool) -> Seq<char> {
    match (query, ack) {
        (Query::Once, false) => seq!['<', 'A', '>'],
        (Query::Once, true) => seq!['<', 'a', '>'],
        (Query::OnceOnChange, false) => seq!['<', 'B', '>'],
        (Query::OnceOnChange, true) => seq!['<', 'b', '>'],
    }
}

/// The text of the digit `d`.
fn digit_str(d: u32) -> (text: &'static str)
    requires
        d < 10,
    ensures
        text@ == seq![digit_char(d as nat)],
{
    let digits = "0123456789";
    proof {
        reveal_strlit("0123456789");
    }
    let text = digits.substring_ascii(d as usize, d as usize + 1);
    proof {
        assert(text@ =~= seq![digit_char(d as nat)]);
    }
    text
}

/// Appends the last `width` decimal digits of `value` to `out`.
fn push_zero_padded(out: &mut String, value: u32, width: u32)
    ensures
        final(out)@ == old(out)@ + zero_padded(value as nat, width as nat),
    decreases width,
{
    if width == 0 {
        proof {
            assert(old(out)@ + zero_padded(value as nat, 0) =~= old(out)@);
        }
    } else {
        push_zero_padded(out, value / 10, width - 1);
        out.append(digit_str(value % 10));
        proof {
            assert(final(out)@ =~= old(out)@ + zero_padded(value as nat, width as nat));
        }
    }
}

/// Renders a command with the given tag.
fn render_command(command: &Command, ack: bool) -> (res: Result<String, Error>)
    ensures
        match res {
            Ok(text) => command_wire(*command, ack) == Ok::<Seq<char>, Error>(text@),
            Err(e) => command_wire(*command, ack) == Err::<Seq<char>, Error>(e),
        },
{
    proof {
        reveal_strlit("<T>");
        reveal_strlit("<t>");
        reveal_strlit("<TC>");
        reveal_strlit("<tC>");
        reveal_strlit("<T");
        reveal_strlit("<t");
        reveal_strlit(">");
    }
    match *command {
        Command::Tare => {
            let text = if ack { "<t>" } else { "<T>" };
            proof {
                assert(text@ =~= seq!['<', command_tag(ack), '>']);
            }
            Ok(text.to_owned())
        },
        Command::ClearTare => {
            let text = if ack { "<tC>" } else { "<TC>" };
            proof {
                assert(text@ =~= seq!['<', command_tag(ack), 'C', '>']);
            }
            Ok(text.to_owned())
        },
        Command::SetTare(value) => {
            if value > MAX_TARE_VALUE {
                return Err(Error::TareValue);
            }
            let head = if ack { "<t" } else { "<T" };
            proof {
                assert(head@ =~= seq!['<', command_tag(ack)]);
            }
            let mut text = head.to_owned();
            push_zero_padded(&mut text, value, TARE_DIGITS);
            text.append(">");
            proof {
                assert(">"@ =~= seq!['>']);
            }
            Ok(text)
        },
    }
}

/// Renders a query with the given tag.
fn render_query(query: &Query, ack: bool) -> (text: String)
    ensures
        text@ == query_wire(*query, ack),
{
    proof {
        reveal_strlit("<A>");
        reveal_strlit("<a>");
        reveal_strlit("<B>");
        reveal_strlit("<b>");
    }
    let text = match (*query, ack) {
        (Query::Once, false) => "<A>",
        (Query::Once, true) => "<a>",
        (Query::OnceOnChange, false) => "<B>",
        (Query::OnceOnChange, true) => "<b>",
    };
    proof {
        assert(text@ =~= query_wire(*query, ack));
    }
    text.to_owned()
}

impl Command {
    /// The same command, asking for an acknowledgment.
    #[must_use]
    pub fn with_ack(self) -> (acked: WithAck<Command>)
        ensures
            acked@ == self,
    {
        WithAck(self)
    }
}

impl Query {
    /// The same query, asking for an acknowledgment.
    #[must_use]
    pub fn with_ack(self) -> (acked: WithAck<Query>)
        ensures
            acked@ == self,
    {
        WithAck(self)
    }
}

impl ToAsciiString for Command {
    open spec fn wire(&self) -> Result<Seq<char>, Error> {
        command_wire(*self, false)
    }

    fn to_ascii_string(&self) -> (res: Result<String, Error>) {
        render_command(self, false)
    }
}

impl ToAsciiString for WithAck<Command> {
    open spec fn wire(&self) -> Result<Seq<char>, Error> {
        command_wire(self@, true)
    }

    fn to_ascii_string(&self) -> (res: Result<String, Error>) {
        render_command(&self.0, true)
    }
}

impl ToAsciiString for Query {
    open spec fn wire(&self) -> Result<Seq<char>, Error> {
        Ok(query_wire(*self, false))
    }

    fn to_ascii_string(&self) -> (res: Result<String, Error>) {
        Ok(render_query(self, false))
    }
}

impl ToAsciiString for WithAck<Query> {
    open spec fn wire(&self) -> Result<Seq<char>, Error> {
        Ok(query_wire(self@, true))
    }

    fn to_ascii_string(&self) -> (res: Result<String, Error>) {
        Ok(render_query(&self.0, true))
    }
}

/// Ten to the power of `n`.
pub open spec fn pow10(n: nat) -> nat
    decreases n,
{
    if n == 0 {
        1
    } else {
        10 * pow10((n - 1) as nat)
    }
}

/// A zero-padded number has as many characters as asked for, all of them
/// digits, and they write the number itself where it has no more digits than
/// that.
pub proof fn lemma_zero_padded(value: nat, width: nat)
    ensures
        zero_padded(value, width).len() == width,
        all_digits(zero_padded(value, width)),
        value < pow10(width) ==> decimal_value(zero_padded(value, width)) == value,
    decreases width,
{
    if width > 0 {
        let front = zero_padded(value / 10, (width - 1) as nat);
        let digit = digit_char(value % 10);
        lemma_zero_padded(value / 10, (width - 1) as nat);
        assert(is_digit(digit));
        assert(digit_value(digit) == value % 10);
        let whole = zero_padded(value, width);
        assert(whole.drop_last() =~= front);
        assert(whole.last() == digit);
        assert forall|i: int| 0 <= i < whole.len() implies is_digit(#[trigger] whole[i]) by {
            if i < front.len() {
                assert(whole[i] == front[i]);
            }
        }
    }
}

/// A tare value that the wire can carry is written with seven digits, which
/// write that value.
pub proof fn lemma_tare_digits(value: u32)
    requires
        value <= MAX_TARE_VALUE,
    ensures
        command_wire(Command::SetTare(value), false) is Ok,
        command_wire(Command::SetTare(value), false)->Ok_0.len() == 10,
        command_wire(Command::SetTare(value), false)->Ok_0.subrange(2, 9) == zero_padded(
            value as nat,
            7,
        ),
        all_digits(zero_padded(value as nat, 7)),
        decimal_value(zero_padded(value as nat, 7)) == value,
{
    lemma_zero_padded(value as nat, 7);
    assert(pow10(7) == 10_000_000) by {
        reveal_with_fuel(pow10, 8);
    }
    let text = command_wire(Command::SetTare(value), false)->Ok_0;
    assert(text.subrange(2, 9) =~= zero_padded(value as nat, 7));
}

/// Asking for an acknowledgment puts the tag letter of a command in lower
/// case and changes nothing else: the same commands are refused, for the same
/// reason, and the digits stay as they are.
pub proof fn lemma_command_ack_changes_the_tag_only(acked: WithAck<Command>)
    ensures
        match (acked@.wire(), acked.wire()) {
            (Ok(plain), Ok(asking)) => {
                &&& asking.len() == plain.len()
                &&& plain[1] == 'T'
                &&& asking[1] == to_lower(plain[1])
                &&& forall|i: int| 0 <= i < plain.len() && i != 1 ==> asking[i] == plain[i]
            },
            (Err(e1), Err(e2)) => e1 == e2,
            _ => false,
        },
{
    match acked@ {
        Command::SetTare(value) => {
            if value <= MAX_TARE_VALUE {
                lemma_zero_padded(value as nat, TARE_DIGITS as nat);
            }
        },
        _ => {},
    }
}

/// Asking for an acknowledgment puts the tag letter of a query in lower case
/// and changes nothing else.
pub proof fn lemma_query_ack_changes_the_tag_only(acked: WithAck<Query>)
    ensures
        match (acked@.wire(), acked.wire()) {
            (Ok(plain), Ok(asking)) => {
                &&& asking.len() == plain.len()
                &&& (plain[1] == 'A' || plain[1] == 'B')
                &&& asking[1] == to_lower(plain[1])
                &&& forall|i: int| 0 <= i < plain.len() && i != 1 ==> asking[i] == plain[i]
            },
            _ => false,
        },
{
}

/// Everything that is rendered is ASCII, starts with `<` and ends with `>`.
pub proof fn lemma_wire_is_framed(command: Command, query: Query, ack: bool)
    ensures
        command_wire(command, ack) matches Ok(text) ==> is_ascii_chars(text) && text[0] == '<'
            && text.last() == '>',
        is_ascii_chars(query_wire(query, ack)),
        query_wire(query, ack)[0] == '<',
        query_wire(query, ack).last() == '>',
{
    if let Command::SetTare(value) = command {
        if value <= MAX_TARE_VALUE {
            lemma_zero_padded(value as nat, TARE_DIGITS as nat);
            let digits = zero_padded(value as nat, TARE_DIGITS as nat);
            let text = command_wire(command, ack)->Ok_0;
            assert forall|i: int| 0 <= i < text.len() implies '\0' <= #[trigger] text[i]
                <= '\u{7f}' by {
                if 2 <= i < 9 {
                    assert(text[i] == digits[i - 2]);
                    assert(is_digit(digits[i - 2]));
                }
            }
        }
    }
}

/// Rendering is a function of the value: whatever two calls on equal values
/// return, both fail with the same error or both give the same text.
pub proof fn lemma_rendering_is_a_function<T: ToAsciiString>(
    first: T,
    second: T,
    first_result: Result<String, Error>,
    second_result: Result<String, Error>,
)
    requires
        first == second,
        call_ensures(T::to_ascii_string, (&first,), first_result),
        call_ensures(T::to_ascii_string, (&second,), second_result),
    ensures
        match (first_result, second_result) {
            (Ok(a), Ok(b)) => a@ == b@,
            (Err(a), Err(b)) => a == b,
            _ => false,
        },
{
}

} // verus!
