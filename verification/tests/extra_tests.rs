use resp::RESP;

#[test]
fn map_two_pairs() {
    let parsed = RESP::parse("%2\r\n+first\r\n:1\r\n+second\r\n:2\r\n");
    assert!(matches!(parsed, Some(RESP::MapValue(_))));
    if let Some(RESP::MapValue(pairs)) = parsed {
        assert_eq!(pairs.len(), 2);
        assert!(matches!(&pairs[0].0, RESP::SimpleString(x) if x == "first"));
        assert!(matches!(pairs[0].1, RESP::Integer(1)));
        assert!(matches!(&pairs[1].0, RESP::SimpleString(x) if x == "second"));
        assert!(matches!(pairs[1].1, RESP::Integer(2)));
    }
}

#[test]
fn map_empty() {
    let parsed = RESP::parse("%0\r\n");
    assert!(matches!(parsed, Some(RESP::MapValue(_))));
    if let Some(RESP::MapValue(pairs)) = parsed {
        assert!(pairs.is_empty());
    }
}

#[test]
fn map_none() {
    assert!(matches!(RESP::parse("%\r\n"), None));
    assert!(matches!(RESP::parse("%-1\r\n"), None));
    assert!(matches!(RESP::parse("%-2\r\n"), None));
    assert!(matches!(RESP::parse("%1\r\n+key\r\n"), None));
    assert!(matches!(RESP::parse("%2\r\n+key\r\n:1\r\n"), None));
    assert!(matches!(RESP::parse("%1\r\n>1\r\n+Hello\r\n:1\r\n"), None));
    assert!(matches!(RESP::parse("%1\r\n+key\r\n>1\r\n+Hello\r\n"), None));
}

#[test]
fn set_three_elements() {
    let parsed = RESP::parse("~3\r\n+Hello\r\n-World\r\n:123\r\n");
    assert!(matches!(parsed, Some(RESP::SetValue(_))));
    if let Some(RESP::SetValue(data)) = parsed {
        assert_eq!(data.len(), 3);
        assert!(matches!(&data[0], RESP::SimpleString(x) if x == "Hello"));
        assert!(matches!(&data[1], RESP::SimpleError(x) if x == "World"));
        assert!(matches!(data[2], RESP::Integer(123)));
    }
}

#[test]
fn set_empty() {
    let parsed = RESP::parse("~0\r\n");
    assert!(matches!(parsed, Some(RESP::SetValue(_))));
    if let Some(RESP::SetValue(data)) = parsed {
        assert!(data.is_empty());
    }
}

#[test]
fn set_none() {
    assert!(matches!(RESP::parse("~\r\n"), None));
    assert!(matches!(RESP::parse("~-1\r\n"), None));
    assert!(matches!(RESP::parse("~-2\r\n"), None));
    assert!(matches!(RESP::parse("~2\r\n+Hello\r\n"), None));
    assert!(matches!(RESP::parse("~1\r\n>1\r\n+Hello\r\n"), None));
}

#[test]
fn set_keeps_duplicates_and_order() {
    let parsed = RESP::parse("~2\r\n:7\r\n:7\r\n");
    assert!(matches!(parsed, Some(RESP::SetValue(_))));
    if let Some(RESP::SetValue(data)) = parsed {
        assert_eq!(data.len(), 2);
        assert!(matches!(data[0], RESP::Integer(7)));
        assert!(matches!(data[1], RESP::Integer(7)));
    }
}

#[test]
fn nested_array() {
    let parsed = RESP::parse("*2\r\n*1\r\n+deep\r\n:5\r\n");
    assert!(matches!(parsed, Some(RESP::Array(_))));
    if let Some(RESP::Array(outer)) = parsed {
        assert_eq!(outer.len(), 2);
        assert!(matches!(&outer[0], RESP::Array(inner) if inner.len() == 1));
        assert!(matches!(outer[1], RESP::Integer(5)));
    }
}

#[test]
fn push_inside_map_and_set() {
    assert!(matches!(RESP::parse("~1\r\n>0\r\n"), None));
    assert!(matches!(RESP::parse("%1\r\n>0\r\n:1\r\n"), None));
    assert!(matches!(RESP::parse("*2\r\n:1\r\n>0\r\n"), None));
}

#[test]
fn integer_extremes() {
    assert!(matches!(
        RESP::parse(":9223372036854775807\r\n"),
        Some(RESP::Integer(9223372036854775807))
    ));
    assert!(matches!(
        RESP::parse(":-9223372036854775808\r\n"),
        Some(RESP::Integer(-9223372036854775808))
    ));
    assert!(matches!(RESP::parse(":9223372036854775808\r\n"), None));
    assert!(matches!(RESP::parse(":-9223372036854775809\r\n"), None));
    assert!(matches!(RESP::parse(":18446744073709551616\r\n"), None));
    assert!(matches!(RESP::parse(":007\r\n"), Some(RESP::Integer(7))));
    assert!(matches!(RESP::parse(":-0\r\n"), Some(RESP::Integer(0))));
}

#[test]
fn big_number_sign_only() {
    // a lone sign leaves an empty digit string, which is kept
    let parsed = RESP::parse("(+\r\n");
    assert!(matches!(parsed, Some(RESP::BigNumber(x)) if x.is_empty()));
    let parsed = RESP::parse("(-\r\n");
    assert!(matches!(parsed, Some(RESP::BigNumber(x)) if x == "-"));
    assert!(matches!(RESP::parse("(\r\n"), None));
}

#[test]
fn big_number_long() {
    let parsed = RESP::parse("(3492890328409238509324850943850943825024385\r\n");
    assert!(matches!(
        parsed,
        Some(RESP::BigNumber(x)) if x == "3492890328409238509324850943850943825024385"
    ));
}

#[test]
fn double_word_forms() {
    assert!(matches!(RESP::parse(",INF\r\n"), Some(RESP::Double(_))));
    assert!(matches!(RESP::parse(",Inf\r\n"), Some(RESP::Double(_))));
    assert!(matches!(RESP::parse(",infinity\r\n"), None));
    assert!(matches!(RESP::parse(",-Infinity\r\n"), None));
    assert!(matches!(RESP::parse(",NaN\r\n"), Some(RESP::Double(_))));
    assert!(matches!(RESP::parse(",+nan\r\n"), None));
    assert!(matches!(RESP::parse(",-nan\r\n"), None));
    assert!(matches!(RESP::parse(",nan!\r\n"), None));
    assert!(matches!(RESP::parse(",infin\r\n"), None));
}

#[test]
fn double_lexeme_shapes() {
    assert!(matches!(RESP::parse(",1.\r\n"), Some(RESP::Double(x)) if x == "1."));
    assert!(matches!(RESP::parse(",.5\r\n"), Some(RESP::Double(x)) if x == ".5"));
    assert!(matches!(RESP::parse(",1e5\r\n"), Some(RESP::Double(_))));
    assert!(matches!(RESP::parse(",1.e5\r\n"), Some(RESP::Double(_))));
    assert!(matches!(RESP::parse(",1e+5\r\n"), Some(RESP::Double(_))));
    assert!(matches!(RESP::parse(",1e-5\r\n"), Some(RESP::Double(_))));
    assert!(matches!(RESP::parse(",.\r\n"), None));
    assert!(matches!(RESP::parse(",1e\r\n"), None));
    assert!(matches!(RESP::parse(",e5\r\n"), None));
    assert!(matches!(RESP::parse(",1.2.3\r\n"), None));
    assert!(matches!(RESP::parse(",1e5e5\r\n"), None));
    assert!(matches!(RESP::parse(",++1\r\n"), None));
    assert!(matches!(RESP::parse(",--1\r\n"), None));
}

#[test]
fn verbatim_length_rule() {
    // declared length = 3 (encoding) + 1 (colon) + data length, exactly
    let parsed = RESP::parse("=9\r\ntxt:Hello\r\n");
    if let Some(RESP::VerbatimString { encoding, data }) = parsed {
        assert_eq!(encoding, "txt");
        assert_eq!(data, "Hello");
    } else {
        assert!(false);
    }
    assert!(matches!(RESP::parse("=8\r\ntxt:Hello\r\n"), None));
    assert!(matches!(RESP::parse("=10\r\ntxt:Hello\r\n"), None));
    assert!(matches!(RESP::parse("=4\r\ntxtHello\r\n"), None));
    assert!(matches!(RESP::parse("=8\r\nte:xtllo\r\n"), None));
}

#[test]
fn bulk_length_off_by_one() {
    assert!(matches!(RESP::parse("$4\r\nHello\r\n"), None));
    assert!(matches!(RESP::parse("$6\r\nHello\r\n"), None));
    assert!(matches!(RESP::parse("!4\r\nHello\r\n"), None));
    assert!(matches!(RESP::parse("!6\r\nHello\r\n"), None));
}

#[test]
fn terminator_strictness() {
    assert!(matches!(RESP::parse("+He\rllo\r\n"), None));
    assert!(matches!(RESP::parse("+Hello\n"), None));
    assert!(matches!(RESP::parse("#t\n"), None));
    assert!(matches!(RESP::parse("_\n"), None));
    assert!(matches!(RESP::parse(":1\r\r\n"), None));
}

#[test]
fn inline_whitespace_splitting() {
    let parsed = RESP::parse("ECHO\thello\nworld");
    assert!(matches!(parsed, Some(RESP::Inline(_))));
    if let Some(RESP::Inline(x)) = parsed {
        assert_eq!(x, vec!["ECHO".to_owned(), "hello".to_owned(), "world".to_owned()]);
    }
    let parsed = RESP::parse("PING\r\n");
    assert!(matches!(parsed, Some(RESP::Inline(x)) if x == vec!["PING".to_owned()]));
    let parsed = RESP::parse("  SET  key   value ");
    assert!(matches!(parsed, Some(RESP::Inline(x)) if x.len() == 3));
}

#[test]
fn inline_empty_fails() {
    assert!(matches!(RESP::parse(""), None));
    assert!(matches!(RESP::parse(" "), None));
    assert!(matches!(RESP::parse(" \t \r \n "), None));
}

#[test]
fn trailing_text_is_ignored() {
    let parsed = RESP::parse("+OK\r\ntrailing");
    assert!(matches!(parsed, Some(RESP::SimpleString(x)) if x == "OK"));
    let parsed = RESP::parse("*1\r\n:1\r\n:2\r\n");
    assert!(matches!(parsed, Some(RESP::Array(data)) if data.len() == 1));
}

#[test]
fn bulk_string_keeps_leading_spaces() {
    let parsed = RESP::parse("$7\r\n  hi  x\r\n");
    assert!(matches!(parsed, Some(RESP::BulkString(x)) if x == "  hi  x"));
}

#[test]
fn inline_inside_array_eats_remainder() {
    let parsed = RESP::parse("*1\r\nPING pong");
    assert!(matches!(parsed, Some(RESP::Array(_))));
    if let Some(RESP::Array(data)) = parsed {
        assert_eq!(data.len(), 1);
        assert!(
            matches!(&data[0], RESP::Inline(x) if *x == vec!["PING".to_owned(), "pong".to_owned()])
        );
    }
}

#[test]
fn inline_inside_array_leaves_nothing() {
    // the inline element consumes the rest, so the second element is missing
    assert!(matches!(RESP::parse("*2\r\nPING\r\n:1\r\n"), None));
}
