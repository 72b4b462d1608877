use can_dbc::lexical::{is_c_ident_head, is_c_string_char};
use can_dbc::{
    attribute_value, attribute_value_f64, attribute_value_int64, c_ident, custom_attr_def,
    dbc_definition, dbc_element, message_definition, message_definition_comment, message_id,
    network_node, new_symbols, signal, value_descriptions, version, AttributeValue, DbcElement,
    Endianess, FloatLiteral, MessageId, ParseError, SignalType, Symbol, ValueDescription,
    ValueType, Version,
};

#[test]
fn identifier_bytes_follow_unicode_alphabetic() {
    for b in 0u8..=255 {
        let c = b as char;
        assert_eq!(is_c_ident_head(b), c.is_alphabetic() || c == '_', "byte {}", b);
        assert_eq!(
            is_c_string_char(b),
            c.is_digit(10) || c.is_alphabetic() || c == '_',
            "byte {}",
            b
        );
    }
}

#[test]
fn input_that_ends_early_is_incomplete() {
    assert_eq!(c_ident(b"abc"), Err(ParseError::Incomplete));
    assert_eq!(version(b"VER"), Err(ParseError::Incomplete));
    assert_eq!(version(b"VERSION \"abc"), Err(ParseError::Incomplete));
    assert_eq!(message_id(b"123"), Err(ParseError::Incomplete));
    assert_eq!(attribute_value_f64(b"1.5"), Err(ParseError::Incomplete));
}

#[test]
fn input_that_does_not_match_is_an_error() {
    assert_eq!(version(b"VERZION \"1\""), Err(ParseError::Error));
    assert_eq!(c_ident(b"3abc "), Err(ParseError::Error));
    assert_eq!(message_id(b"x"), Err(ParseError::Error));
    assert_eq!(
        value_descriptions(b"VAL_ 1 X 1 \"a\" x;"),
        Err(ParseError::Error)
    );
}

#[test]
fn unsigned_numbers_stop_at_u64_max() {
    let (rest, id) = message_id(b"18446744073709551615 ").unwrap();
    assert_eq!(id, MessageId(u64::MAX));
    assert_eq!(rest, b" ");
    assert_eq!(message_id(b"18446744073709551616 "), Err(ParseError::Error));
}

#[test]
fn signed_numbers_stay_within_i64() {
    let (_, v) = attribute_value_int64(b"-9223372036854775808;").unwrap();
    assert_eq!(v, AttributeValue::AttributeValueI64(i64::MIN));
    let (_, v) = attribute_value_int64(b"+5;").unwrap();
    assert_eq!(v, AttributeValue::AttributeValueI64(5));
    assert_eq!(attribute_value_int64(b"9223372036854775808;"), Err(ParseError::Error));
    assert_eq!(attribute_value_int64(b"-9223372036854775809;"), Err(ParseError::Error));
}

fn float_of(input: &[u8]) -> (Vec<u8>, String) {
    match attribute_value_f64(input).unwrap() {
        (rest, AttributeValue::AttributeValueF64(FloatLiteral(t))) => (rest.to_vec(), t),
        other => panic!("unexpected {:?}", other),
    }
}

#[test]
fn decimal_numbers_keep_their_text() {
    assert_eq!(float_of(b"1.5e3;"), (b";".to_vec(), "1.5e3".to_string()));
    assert_eq!(float_of(b"1.e;"), (b"e;".to_vec(), "1.".to_string()));
    assert_eq!(float_of(b".5;"), (b";".to_vec(), ".5".to_string()));
    assert_eq!(float_of(b"-2E-3 "), (b" ".to_vec(), "-2E-3".to_string()));
    for text in ["1.5e3", "1.", ".5", "-2E-3"] {
        assert!(text.parse::<f64>().is_ok());
    }
    assert_eq!(attribute_value_f64(b"e5;"), Err(ParseError::Error));
}

#[test]
fn attribute_values_are_tried_in_order() {
    let (rest, v) = attribute_value(b"1.5;").unwrap();
    assert_eq!(v, AttributeValue::AttributeValueU64(1));
    assert_eq!(rest, b".5;");
    let (_, v) = attribute_value(b"-1.5;").unwrap();
    assert_eq!(v, AttributeValue::AttributeValueI64(-1));
    let (_, v) = attribute_value(b".5;").unwrap();
    assert_eq!(v, AttributeValue::AttributeValueF64(FloatLiteral(".5".to_string())));
}

#[test]
fn identifiers_are_utf8_text() {
    let (rest, v) = c_ident(b"\xC3\xAAx ").unwrap();
    assert_eq!(v, "\u{ea}x");
    assert_eq!(rest, b" ");
    assert_eq!(c_ident(b"\xC3\xA9 "), Err(ParseError::Error));
}

#[test]
fn symbols_may_end_lines_with_crlf() {
    let (rest, symbols) = new_symbols(b"NS_ :\r\n CM_\r\n BA_\r\n\r\n").unwrap();
    assert_eq!(symbols, vec![Symbol("CM_".to_string()), Symbol("BA_".to_string())]);
    assert_eq!(rest, b"\r\n\r\n");
}

#[test]
fn signal_fields_are_read_in_order() {
    let (rest, s) = signal(b" SG_ Temp : 7|12@0- (0.5,-40) [-40|87.5] \"degC\" A,B\n").unwrap();
    assert_eq!(rest, b"\n");
    assert_eq!(s.name, "Temp");
    assert_eq!(s.signal_type, SignalType::Plain);
    assert_eq!((s.offset, s.length), (7, 12));
    assert_eq!(s.endianess, Endianess::BigEndian);
    assert_eq!(s.value_type, ValueType::Signed);
    assert_eq!(s.slope, FloatLiteral("0.5".to_string()));
    assert_eq!(s.intercept, FloatLiteral("-40".to_string()));
    assert_eq!(s.min, FloatLiteral("-40".to_string()));
    assert_eq!(s.max, FloatLiteral("87.5".to_string()));
    assert_eq!(s.unit, "degC");
    assert_eq!(s.receivers, vec!["A".to_string(), "B".to_string()]);
}

#[test]
fn a_multiplexer_after_a_signal_name_is_read_into_the_name() {
    // `signal_type` follows the name with no space between, so ` m3 ` does not parse
    // as a multiplexer there.
    assert_eq!(
        signal(b" SG_ Mux m3 : 0|1@1+ (1,0) [0|1] \"\" X\n").map(|(_, s)| s.signal_type),
        Err(ParseError::Error)
    );
}

#[test]
fn message_keeps_its_signals() {
    let (rest, m) = message_definition(
        b"BO_ 12 Engine Data: 8 ECU\n SG_ A : 0|1@1+ (1,0) [0|1] \"\" X\n SG_ B : 1|1@1+ (1,0) [0|1] \"\" X\n\n",
    )
    .unwrap();
    assert_eq!(rest, b"\n\n");
    match m {
        DbcElement::Message(id, false, name, size, transmitter, signals) => {
            assert_eq!(id, MessageId(12));
            assert_eq!(name, "Engine Data");
            assert_eq!(size, 8);
            assert_eq!(transmitter, "ECU");
            assert_eq!(signals.len(), 2);
            assert_eq!(signals[1].name, "B");
        }
        other => panic!("unexpected {:?}", other),
    }
}

#[test]
fn message_comment_name_ends_at_a_space() {
    let (_, c) = message_definition_comment(b"BO_ 7 A:B \"text\"").unwrap();
    assert_eq!(
        c,
        DbcElement::MessageDefinitionComment(MessageId(7), "A:B".to_string(), "text".to_string(), false)
    );
}

#[test]
fn attribute_definition_text_stops_before_semicolon() {
    let (rest, d) = custom_attr_def(b"BA_DEF_ BU_ \"X\" STRING;\n").unwrap();
    assert_eq!(d, DbcElement::BUDef("\"X\" STRING".to_string()));
    assert_eq!(rest, b";\n");
}

#[test]
fn network_nodes_end_at_the_line() {
    let (rest, n) = network_node(b"BU_: A B\nBO_").unwrap();
    assert_eq!(n, DbcElement::NetworkNode(vec!["A".to_string(), "B".to_string()]));
    assert_eq!(rest, b"\nBO_");
}

#[test]
fn value_descriptions_of_a_signal() {
    let (rest, d) = value_descriptions(b"VAL_ 5 Gear 0 \"P\" -1 \"R\" ;\n").unwrap();
    assert_eq!(rest, b"\n");
    assert_eq!(
        d,
        DbcElement::ValueDescriptionsForSignal(
            MessageId(5),
            "Gear".to_string(),
            vec![
                ValueDescription { a: FloatLiteral("0".to_string()), b: "P".to_string() },
                ValueDescription { a: FloatLiteral("-1".to_string()), b: "R".to_string() },
            ]
        )
    );
}

#[test]
fn an_element_answer_stands_when_more_input_follows() {
    let inputs: [&[u8]; 5] = [
        b"ENVVAR_DATA_ D: 4;",
        b"BA_ \"A\" BO_ 1 2;",
        b"CM_ SG_ 1 S \"c\";",
        b"XYZ",
        b"BU_: A\n",
    ];
    for input in inputs {
        let short = dbc_element(input);
        assert!(short != Err(ParseError::Incomplete));
        let mut longer = input.to_vec();
        longer.extend_from_slice(b" more\n");
        let long = dbc_element(&longer);
        match (short, long) {
            (Ok((r1, v1)), Ok((r2, v2))) => {
                assert_eq!(v1, v2);
                assert_eq!(input.len() - r1.len(), longer.len() - r2.len());
            }
            (Err(e1), Err(e2)) => assert_eq!(e1, e2),
            other => panic!("answers differ: {:?}", other),
        }
    }
}

#[test]
fn a_whole_file_reads_more_elements_from_more_input() {
    let short = b"VERSION \"1\"\nNS_ :\n A\nBU_: X\n\nBU_: Y";
    let (_, d1) = dbc_definition(short).unwrap();
    assert_eq!(d1.version, Version("1".to_string()));
    assert_eq!(d1.elements.len(), 1);
    let mut longer = short.to_vec();
    longer.push(b'\n');
    let (_, d2) = dbc_definition(&longer).unwrap();
    assert_eq!(d2.elements.len(), 2);
}
