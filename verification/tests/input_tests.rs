use tower_battle::input::{
    parse_turn_command, strip_mention_prefix, InputError, TurnInput,
};
use tower_battle::profile::{choose_display_name, choose_icon_url};

#[test]
fn plain_turn_command_parses_to_milli_units() {
    assert_eq!(
        parse_turn_command(b"0.5 45"),
        Ok(TurnInput { offset_milli: 500, rotation_millideg: 45_000 })
    );
    assert_eq!(
        parse_turn_command(b"-0.25 45"),
        Ok(TurnInput { offset_milli: -250, rotation_millideg: 45_000 })
    );
    assert_eq!(
        parse_turn_command(b"  1 -180  "),
        Ok(TurnInput { offset_milli: 1_000, rotation_millideg: -180_000 })
    );
    assert_eq!(
        parse_turn_command(b"+0.5 -180"),
        Ok(TurnInput { offset_milli: 500, rotation_millideg: -180_000 })
    );
}

#[test]
fn bare_dot_forms_parse() {
    assert_eq!(
        parse_turn_command(b".5 -.75"),
        Ok(TurnInput { offset_milli: 500, rotation_millideg: -750 })
    );
    assert_eq!(
        parse_turn_command(b"5. 7"),
        Err(InputError::OutOfRange)
    );
    assert_eq!(
        parse_turn_command(b"0.5 7."),
        Ok(TurnInput { offset_milli: 500, rotation_millideg: 7_000 })
    );
}

#[test]
fn fraction_beyond_thousandths_is_truncated() {
    assert_eq!(
        parse_turn_command(b"0.0005 0"),
        Ok(TurnInput { offset_milli: 0, rotation_millideg: 0 })
    );
    assert_eq!(
        parse_turn_command(b"0.9999 0"),
        Ok(TurnInput { offset_milli: 999, rotation_millideg: 0 })
    );
}

#[test]
fn wrong_token_count_is_invalid() {
    // scenario: malformed text instead of two numbers
    assert_eq!(parse_turn_command(b"abc"), Err(InputError::WrongArity));
    assert_eq!(parse_turn_command(b""), Err(InputError::WrongArity));
    assert_eq!(parse_turn_command(b"   "), Err(InputError::WrongArity));
    assert_eq!(parse_turn_command(b"0.5"), Err(InputError::WrongArity));
    assert_eq!(parse_turn_command(b"0.5 45 7"), Err(InputError::WrongArity));
}

#[test]
fn malformed_numbers_are_invalid() {
    assert_eq!(parse_turn_command(b"abc 1"), Err(InputError::BadNumber));
    assert_eq!(parse_turn_command(b"1e3 0"), Err(InputError::BadNumber));
    assert_eq!(parse_turn_command(b"0 ."), Err(InputError::BadNumber));
    assert_eq!(parse_turn_command(b"- 5"), Err(InputError::BadNumber));
    assert_eq!(parse_turn_command(b"0,5 0"), Err(InputError::BadNumber));
}

#[test]
fn out_of_range_numbers_are_refused() {
    assert_eq!(parse_turn_command(b"2 0"), Err(InputError::OutOfRange));
    assert_eq!(parse_turn_command(b"0 180.5"), Err(InputError::OutOfRange));
    assert_eq!(parse_turn_command(b"0 -181"), Err(InputError::OutOfRange));
    assert_eq!(
        parse_turn_command(b"99999999999999999999 0"),
        Err(InputError::OutOfRange)
    );
    assert_eq!(
        parse_turn_command(b"1 180"),
        Ok(TurnInput { offset_milli: 1_000, rotation_millideg: 180_000 })
    );
}

#[test]
fn mention_prefix_is_measured_exactly() {
    assert_eq!(strip_mention_prefix(b"<@U123ABC> 0.5 45"), 10);
    assert_eq!(strip_mention_prefix(b"<@U1>"), 5);
    assert_eq!(strip_mention_prefix(b"hello"), 0);
    assert_eq!(strip_mention_prefix(b"<@> hi"), 0);
    assert_eq!(strip_mention_prefix(b"<@abc> x"), 0);
    assert_eq!(strip_mention_prefix(b"<@U123"), 0);
    assert_eq!(strip_mention_prefix(b""), 0);
}

#[test]
fn mention_then_command_round_trip() {
    let text: &[u8] = b"<@U42A> -0.25 45";
    let n = strip_mention_prefix(text);
    assert_eq!(
        parse_turn_command(&text[n..]),
        Ok(TurnInput { offset_milli: -250, rotation_millideg: 45_000 })
    );
}

#[test]
fn display_name_selection_follows_the_profile_rules() {
    assert_eq!(
        choose_display_name(Some("disp".to_string()), Some("real".to_string())),
        Some("disp".to_string())
    );
    // an empty display name falls back to the real name
    assert_eq!(
        choose_display_name(Some("".to_string()), Some("real".to_string())),
        Some("real".to_string())
    );
    // a missing display name yields no name, whatever the real name says
    assert_eq!(choose_display_name(None, Some("real".to_string())), None);
    assert_eq!(
        choose_display_name(Some("".to_string()), None),
        Some("".to_string())
    );
}

#[test]
fn icon_url_selection_takes_the_first_present() {
    assert_eq!(
        choose_icon_url(&vec![None, Some("b".to_string()), Some("c".to_string())]),
        Some("b".to_string())
    );
    assert_eq!(choose_icon_url(&vec![None, None]), None);
    assert_eq!(choose_icon_url(&vec![]), None);
}
