use soehnle_3005::{
    Command, Error, Message, Query, Response, Status, ToAsciiString, Weight,
};
use std::str::FromStr;

fn text_of(line: &str) -> String {
    Message::from_str(line).unwrap().value.as_str().to_string()
}

/// The same reading with the standard library's own text functions.
fn read_with_std(line: &str) -> Result<(Status, u8, f32), Error> {
    let s = line.trim();
    if s.len() > 27 || s.len() < 7 {
        return Err(Error::MessageLength);
    }
    if !s.is_ascii() {
        return Err(Error::NonAsciiStr);
    }
    let (status, tail) = s.split_at(4);
    let (id, weight) = tail.split_at(2);
    let text = weight
        .replace('N', "")
        .replace("kg", "")
        .replace(' ', "")
        .replace(',', ".");
    let mut flags = [false; 4];
    for (i, c) in status.chars().enumerate() {
        flags[i] = match c {
            '1' => true,
            '0' => false,
            _ => return Err(Error::ParseBoolean),
        };
    }
    let status = Status {
        under_load: flags[0],
        over_load: flags[1],
        standstill: flags[2],
        empty_message: flags[3],
    };
    let id = id
        .replace('W', "")
        .parse::<u8>()
        .map_err(|_| Error::BalanceId)?;
    let value = text
        .trim()
        .parse::<f32>()
        .map_err(|_| Error::BalanceValue)?;
    Ok((status, id, value))
}

fn assert_same_reading(line: &str) {
    let expected = read_with_std(line);
    match (Message::from_str(line), expected) {
        (Ok(message), Ok((status, id, value))) => {
            assert_eq!(message.status, status, "{:?}", line);
            assert_eq!(message.id, id, "{:?}", line);
            let read: f32 = message.value.as_str().parse().unwrap();
            assert_eq!(read.to_bits(), value.to_bits(), "{:?}", line);
        }
        (Err(e), Err(expected)) => assert_eq!(e, expected, "{:?}", line),
        (read, expected) => panic!("{:?}: {:?}, not {:?}", line, read, expected),
    }
}

fn words(alphabet: &[char], longest: usize) -> Vec<String> {
    let mut all = vec![String::new()];
    let mut last = vec![String::new()];
    for _ in 0..longest {
        let mut next = Vec::new();
        for word in &last {
            for c in alphabet {
                let mut longer = word.clone();
                longer.push(*c);
                next.push(longer);
            }
        }
        all.extend(next.iter().cloned());
        last = next;
    }
    all
}

#[test]
fn weight_text_is_exact() {
    assert_eq!(text_of("000101N        3,1 kg"), "3.1");
    assert_eq!(text_of("000101N    -   3,7 kg"), "-3.7");
    assert_eq!(text_of("000101N       -3,9 kg"), "-3.9");
    assert_eq!(text_of("000000N 0123456,78kg"), "0123456.78");
    assert_eq!(text_of("001101N     -0,001 kg "), "-0.001");
    assert_eq!(text_of("0000W9N    -1000,0 kg"), "-1000.0");
    assert_eq!(text_of("0000017"), "7");
    assert_eq!(text_of("000001N N,N5N"), ".5");
    assert_eq!(text_of("000001kg1kg,kg5kg"), "1.5");
}

#[test]
fn unit_is_taken_out_in_one_pass() {
    // the mark goes first, so it cannot part the unit
    assert_eq!(text_of("0000011,5kNg"), "1.5");
    // a space goes last, so it does part the unit
    assert_eq!(Message::from_str("0000011,5k g"), Err(Error::BalanceValue));
    // what is left of the unit is not looked at again
    assert_eq!(Message::from_str("0000011,5kkgg"), Err(Error::BalanceValue));
    assert_eq!(Message::from_str("0000011,5gk"), Err(Error::BalanceValue));
    assert_eq!(Message::from_str("0000011,5KG"), Err(Error::BalanceValue));
}

#[test]
fn white_space_other_than_spaces_goes_at_the_ends_only() {
    assert_eq!(text_of("0000011,5\tkg"), "1.5");
    assert_eq!(text_of("000001N\t1,5 kg"), "1.5");
    assert_eq!(text_of("000001\r\n1,5\u{b}\u{c}kg"), "1.5");
    assert_eq!(Message::from_str("0000011\t,5kg"), Err(Error::BalanceValue));
    assert_eq!(text_of("\u{3000} 0000011,5 kg\u{2003}\r\n"), "1.5");
}

#[test]
fn a_space_in_the_weight_field_changes_nothing() {
    let field = "N-3,1kNg";
    for at in 0..=field.len() {
        let mut spaced = String::from("000101");
        spaced.push_str(&field[..at]);
        spaced.push(' ');
        spaced.push_str(&field[at..]);
        let parts_unit = at == 6 || at == 7;
        if parts_unit {
            assert_eq!(Message::from_str(&spaced), Err(Error::BalanceValue));
        } else {
            assert_eq!(text_of(&spaced), "-3.1", "{:?}", spaced);
        }
    }
}

#[test]
fn weight_text_has_no_mark_space_or_comma() {
    let alphabet = ['N', 'k', 'g', ' ', ',', '1', '-', '.'];
    for field in words(&alphabet, 4) {
        let line = format!("000001{}5", field);
        if let Ok(message) = Message::from_str(&line) {
            let text = message.value.as_str();
            assert!(!text.contains('N') && !text.contains(' ') && !text.contains(','));
        }
    }
}

#[test]
fn names_of_values_that_are_no_numbers() {
    assert_eq!(text_of("000001N inf kg"), "inf");
    assert!(text_of("000001N inf kg").parse::<f32>().unwrap().is_infinite());
    assert_eq!(text_of("000001-infinity"), "-infinity");
    assert_eq!(text_of("000001nan"), "nan");
    assert!(text_of("000001nan").parse::<f32>().unwrap().is_nan());
    // the mark is taken out of the name
    assert_eq!(Message::from_str("000001NAN"), Err(Error::BalanceValue));
    assert_eq!(Message::from_str("000001INF"), Err(Error::BalanceValue));
    assert_eq!(text_of("000001inkgf"), "inf");
}

#[test]
fn id_forms() {
    assert_eq!(Message::from_str("0000W5N 1 kg").unwrap().id, 5);
    assert_eq!(Message::from_str("00005WN 1 kg").unwrap().id, 5);
    assert_eq!(Message::from_str("0000+5N 1 kg").unwrap().id, 5);
    assert_eq!(Message::from_str("000007N 1 kg").unwrap().id, 7);
    assert_eq!(Message::from_str("000042N 1 kg").unwrap().id, 42);
    assert_eq!(Message::from_str("0000WWN 1 kg"), Err(Error::BalanceId));
    assert_eq!(Message::from_str("0000-5N 1 kg"), Err(Error::BalanceId));
    assert_eq!(Message::from_str("0000 5N 1 kg"), Err(Error::BalanceId));
    assert_eq!(Message::from_str("00005 N 1 kg"), Err(Error::BalanceId));
    assert_eq!(Message::from_str("0000W+N 1 kg"), Err(Error::BalanceId));
    assert_eq!(Message::from_str("0000w5N 1 kg"), Err(Error::BalanceId));
}

#[test]
fn every_id_is_at_most_99() {
    for first in 0u8..128 {
        for second in 0u8..128 {
            let line = format!("0000{}{}1", first as char, second as char);
            if let Ok(message) = Message::from_str(&line) {
                assert!(message.id <= 99, "{:?}", line);
            }
            assert_same_reading(&line);
        }
    }
}

#[test]
fn every_status_of_four_flags() {
    for bits in 0u8..16 {
        let field = format!("{:04b}", bits);
        let status = Status::from_str(&field).unwrap();
        assert_eq!(status.under_load, bits & 8 != 0);
        assert_eq!(status.over_load, bits & 4 != 0);
        assert_eq!(status.standstill, bits & 2 != 0);
        assert_eq!(status.empty_message, bits & 1 != 0);
        let message = Message::from_str(&format!("{}01N 1,0 kg", field)).unwrap();
        assert_eq!(message.status, status);
    }
}

#[test]
fn status_of_any_four_ascii_characters() {
    let alphabet = ['0', '1', '2', ' ', 'O', 'l', '\u{0}', '\u{7f}'];
    for field in words(&alphabet, 4) {
        if field.len() != 4 {
            assert_eq!(Status::from_str(&field), Err(Error::MessageLength));
        } else if field.chars().all(|c| c == '0' || c == '1') {
            assert!(Status::from_str(&field).is_ok());
        } else {
            assert_eq!(Status::from_str(&field), Err(Error::ParseBoolean));
        }
    }
}

#[test]
fn frame_length_bounds() {
    assert_eq!(Message::from_str("000001").map(|m| m.id), Err(Error::MessageLength));
    assert_eq!(text_of("0000011"), "1");
    assert_eq!(text_of("  0000011  "), "1");
    let longest = format!("000001{}1", " ".repeat(20));
    assert_eq!(longest.len(), 27);
    assert_eq!(text_of(&longest), "1");
    let padded = format!("   {}   ", longest);
    assert_eq!(text_of(&padded), "1");
    let too_long = format!("000001{}1", " ".repeat(21));
    assert_eq!(Message::from_str(&too_long), Err(Error::MessageLength));
}

#[test]
fn frames_read_as_with_the_standard_library() {
    let alphabet = ['N', 'k', 'g', ' ', ',', '1', '-', '\t', 'e', '.'];
    for field in words(&alphabet, 4) {
        assert_same_reading(&format!("000001{}", field));
        assert_same_reading(&format!("010101{}7", field));
        assert_same_reading(&format!("0000W1N{} kg", field));
    }
    for line in [
        "000101N        3,1 kg",
        "000101N    -   3,7 kg",
        "000000N 0123456,78kg",
        "001101N     -0,001 kg ",
        "0000W9N    -1000,0 kg",
        "0000XXN    -1000,0 kg",
        "",
        "Foo x",
        "0000W1",
        "None Sense",
        "\u{a0}000001N 1,5 kg\u{2028}",
        "000001N 1,5 kg\u{a0}x",
        "000001N 1e5 kg",
        "000001N 1e99999999999 kg",
        "000001N 12345678901234567 kg",
    ] {
        assert_same_reading(line);
    }
}

#[test]
fn control_codes() {
    assert_eq!(Response::from_str("\u{6}"), Ok(Response::Ack));
    assert_eq!(Response::from_str("\u{15}"), Ok(Response::Nak));
    assert_eq!(Response::from_str("  \u{6}\r\n"), Ok(Response::Ack));
    assert_eq!(Response::from_str("\r\n\u{15}  "), Ok(Response::Nak));
    // the first byte alone decides
    assert_eq!(Response::from_str("\u{6}000101N 3,1 kg"), Ok(Response::Ack));
    assert_eq!(Response::from_str("\u{15}\u{e9}"), Ok(Response::Nak));
    assert_eq!(Response::from_str("0\u{6}"), Err(Error::MessageLength));
    assert_eq!(Response::from_str("\u{7}"), Err(Error::MessageLength));
}

#[test]
fn a_data_frame_is_the_same_as_a_response() {
    for line in [
        "000101N        3,1 kg",
        "  000101N    -   3,7 kg\r\n",
        "000000N 0123456,78kg",
        "1111W9N    -1000,0 kg",
    ] {
        let message = Message::from_str(line).unwrap();
        assert_eq!(Response::from_str(line), Ok(Response::Message(message)));
    }
    for line in ["0000XXN 1 kg", "0200W1N 1 kg", "000001N x kg", "000001"] {
        assert_eq!(
            Response::from_str(line).unwrap_err(),
            Message::from_str(line).unwrap_err()
        );
    }
}

#[test]
fn messages_and_responses_can_be_copied() {
    let message = Message::from_str("0101W7N   12,50 kg").unwrap();
    let copy = message.clone();
    assert_eq!(copy, message);
    assert_eq!(copy.id, 7);
    assert_eq!(copy.value.as_str(), "12.50");
    assert_eq!(copy.value, Weight::from_str("12.50").unwrap());
    let response = Response::Message(message);
    assert_eq!(response.clone(), response);
    assert_eq!(Response::Ack.clone(), Response::Ack);
    assert_eq!(Response::Nak.clone(), Response::Nak);
}

#[test]
fn tare_values_take_seven_digits() {
    for (value, digits) in [
        (0, "0000000"),
        (1, "0000001"),
        (42, "0000042"),
        (1_234, "0001234"),
        (1_000_000, "1000000"),
        (9_999_999, "9999999"),
    ] {
        assert_eq!(
            Command::SetTare(value).to_ascii_string().unwrap(),
            format!("<T{}>", digits)
        );
        assert_eq!(
            Command::SetTare(value).to_ascii_string().unwrap(),
            format!("<T{:07}>", value)
        );
        assert_eq!(
            Command::SetTare(value).with_ack().to_ascii_string().unwrap(),
            format!("<t{}>", digits)
        );
    }
}

#[test]
fn an_acknowledgment_changes_the_tag_only() {
    let mut commands = vec![Command::Tare, Command::ClearTare];
    for value in [0, 7, 1_234_567, 9_999_999, 10_000_000, u32::MAX] {
        commands.push(Command::SetTare(value));
    }
    for command in commands {
        match (command.to_ascii_string(), command.with_ack().to_ascii_string()) {
            (Ok(plain), Ok(asking)) => {
                assert_eq!(plain.len(), asking.len());
                assert_eq!(&plain[1..2], "T");
                assert_eq!(&asking[1..2], "t");
                assert_eq!(plain[..1], asking[..1]);
                assert_eq!(plain[2..], asking[2..]);
            }
            (Err(plain), Err(asking)) => {
                assert_eq!(plain, Error::TareValue);
                assert_eq!(asking, Error::TareValue);
            }
            other => panic!("{:?}", other),
        }
    }
    for query in [Query::Once, Query::OnceOnChange] {
        let plain = query.to_ascii_string().unwrap();
        let asking = query.with_ack().to_ascii_string().unwrap();
        assert_eq!(asking, plain.to_lowercase());
        assert_eq!(plain[..1], asking[..1]);
        assert_eq!(plain[2..], asking[2..]);
    }
}

#[test]
fn rendering_twice_gives_the_same_text() {
    for value in [0, 5, 99, 123_456, 9_999_999, 10_000_000] {
        let command = Command::SetTare(value);
        assert_eq!(command.to_ascii_string(), command.to_ascii_string());
        assert_eq!(
            command.with_ack().to_ascii_string(),
            command.with_ack().to_ascii_string()
        );
    }
    assert_eq!(Command::Tare.to_ascii_string(), Command::Tare.to_ascii_string());
    assert_eq!(Query::Once.to_ascii_string(), Query::Once.to_ascii_string());
    assert_eq!(
        Query::OnceOnChange.with_ack().to_ascii_string(),
        Query::OnceOnChange.with_ack().to_ascii_string()
    );
}

#[test]
fn rendered_text_is_ascii_in_angle_brackets() {
    for value in [0, 1, 9_999_999] {
        for text in [
            Command::SetTare(value).to_ascii_string().unwrap(),
            Command::SetTare(value).with_ack().to_ascii_string().unwrap(),
            Command::Tare.to_ascii_string().unwrap(),
            Command::ClearTare.with_ack().to_ascii_string().unwrap(),
            Query::Once.to_ascii_string().unwrap(),
            Query::OnceOnChange.with_ack().to_ascii_string().unwrap(),
        ] {
            assert!(text.is_ascii());
            assert!(text.starts_with('<') && text.ends_with('>'));
        }
    }
}
