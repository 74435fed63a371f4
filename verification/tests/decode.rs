use muon::de::{from_str, Deserializer, Field, Request, Scalar, Shape, Value};
use muon::error::{Error, LineError};
use muon::intparse::{IntKind, IntVal};

fn field(name: &str, shape: Request) -> Field {
    Field { name: name.to_string(), shape }
}

#[test]
fn struct_a() {
    let shape = Shape::Record(vec![
        field("b", Request::Scalar(Scalar::Bool)),
        field("uint", Request::Scalar(Scalar::Int(IntKind::U32))),
        field("int", Request::Scalar(Scalar::Int(IntKind::I32))),
    ]);
    let a = "b: false\nuint: 7\nint: -5\n";
    let v = from_str(a, &shape).unwrap();
    let es = match v {
        Value::Record(es) => es,
        _ => panic!("expected a record"),
    };
    assert_eq!(es.len(), 3);
    assert_eq!(es[0].0, "b");
    assert!(matches!(es[0].1, Value::Bool(false)));
    assert_eq!(es[1].0, "uint");
    assert!(matches!(es[1].1, Value::Int(IntVal::U32(7))));
    assert_eq!(es[2].0, "int");
    assert!(matches!(es[2].1, Value::Int(IntVal::I32(-5))));
}

#[test]
fn struct_b() {
    let shape = Shape::Record(vec![
        field("flags", Request::List(Scalar::Bool)),
        field("values", Request::List(Scalar::Text)),
    ]);
    let b = "flags: false true true false\nvalues: Hello World\n";
    let v = from_str(b, &shape).unwrap();
    let es = match v {
        Value::Record(es) => es,
        _ => panic!("expected a record"),
    };
    assert_eq!(es.len(), 2);
    assert_eq!(es[0].0, "flags");
    let flags = match &es[0].1 {
        Value::List(vs) => vs,
        _ => panic!("expected a list"),
    };
    assert_eq!(flags.len(), 4);
    assert!(matches!(flags[0], Value::Bool(false)));
    assert!(matches!(flags[1], Value::Bool(true)));
    assert!(matches!(flags[2], Value::Bool(true)));
    assert!(matches!(flags[3], Value::Bool(false)));
    assert_eq!(es[1].0, "values");
    let values = match &es[1].1 {
        Value::List(vs) => vs,
        _ => panic!("expected a list"),
    };
    assert_eq!(values.len(), 2);
    match &values[0] {
        Value::Text(s) => assert_eq!(s, "Hello"),
        _ => panic!("expected text"),
    }
    match &values[1] {
        Value::Text(s) => assert_eq!(s, "World"),
        _ => panic!("expected text"),
    }
}

#[test]
fn bool_round_trip_true() {
    let v = from_str("flag: true\n", &Shape::Single(Request::Scalar(Scalar::Bool))).unwrap();
    assert!(matches!(v, Value::Bool(true)));
}

#[test]
fn bool_round_trip_false() {
    let v = from_str("flag: false\n", &Shape::Single(Request::Scalar(Scalar::Bool))).unwrap();
    assert!(matches!(v, Value::Bool(false)));
}

#[test]
fn bool_rejects_other_text() {
    let shape = Shape::Single(Request::Scalar(Scalar::Bool));
    assert!(matches!(from_str("flag: True\n", &shape), Err(Error::ExpectedBoolean)));
    assert!(matches!(from_str("flag: 1\n", &shape), Err(Error::ExpectedBoolean)));
    assert!(matches!(from_str("flag:\n", &shape), Err(Error::ExpectedBoolean)));
    assert!(matches!(from_str("flag: truex\n", &shape), Err(Error::ExpectedBoolean)));
}

#[test]
fn sequence_cardinality() {
    let v = from_str("key: a b c\n", &Shape::Single(Request::List(Scalar::Text))).unwrap();
    let vs = match v {
        Value::List(vs) => vs,
        _ => panic!("expected a list"),
    };
    assert_eq!(vs.len(), 3);
    let expected = ["a", "b", "c"];
    for i in 0..3 {
        match &vs[i] {
            Value::Text(s) => assert_eq!(s, expected[i]),
            _ => panic!("expected text"),
        }
    }
}

#[test]
fn sequence_ignores_extra_whitespace() {
    let v = from_str("key: a \t b\n", &Shape::Single(Request::List(Scalar::Text))).unwrap();
    let vs = match v {
        Value::List(vs) => vs,
        _ => panic!("expected a list"),
    };
    assert_eq!(vs.len(), 2);
    match &vs[0] {
        Value::Text(s) => assert_eq!(s, "a"),
        _ => panic!("expected text"),
    }
    match &vs[1] {
        Value::Text(s) => assert_eq!(s, "b"),
        _ => panic!("expected text"),
    }
}

#[test]
fn empty_value_yields_empty_text_and_list() {
    let v = from_str("t:\n", &Shape::Single(Request::Scalar(Scalar::Text))).unwrap();
    match v {
        Value::Text(s) => assert_eq!(s, ""),
        _ => panic!("expected text"),
    }
    let v = from_str("t:\n", &Shape::Single(Request::List(Scalar::Bool))).unwrap();
    match v {
        Value::List(vs) => assert_eq!(vs.len(), 0),
        _ => panic!("expected a list"),
    }
}

#[test]
fn mapping_keeps_source_order() {
    let input = "zeta: 1\nalpha: 2\nmid: 3\n";
    let v = from_str(input, &Shape::Mapping(Request::Scalar(Scalar::Int(IntKind::U8)))).unwrap();
    let es = match v {
        Value::Record(es) => es,
        _ => panic!("expected a record"),
    };
    assert_eq!(es.len(), 3);
    assert_eq!(es[0].0, "zeta");
    assert_eq!(es[1].0, "alpha");
    assert_eq!(es[2].0, "mid");
    assert!(matches!(es[0].1, Value::Int(IntVal::U8(1))));
    assert!(matches!(es[1].1, Value::Int(IntVal::U8(2))));
    assert!(matches!(es[2].1, Value::Int(IntVal::U8(3))));
}

#[test]
fn mapping_keeps_duplicate_keys() {
    let input = "k: 1\nk: 2\n";
    let v = from_str(input, &Shape::Mapping(Request::Scalar(Scalar::Int(IntKind::U8)))).unwrap();
    let es = match v {
        Value::Record(es) => es,
        _ => panic!("expected a record"),
    };
    assert_eq!(es.len(), 2);
    assert_eq!(es[0].0, "k");
    assert_eq!(es[1].0, "k");
    assert!(matches!(es[0].1, Value::Int(IntVal::U8(1))));
    assert!(matches!(es[1].1, Value::Int(IntVal::U8(2))));
}

#[test]
fn malformed_line_reports_its_own_number() {
    let shape = Shape::Mapping(Request::Scalar(Scalar::Text));
    let r = from_str("a: 1\nno separator here\nb: 2\n", &shape);
    assert!(matches!(r, Err(Error::FailedParse(LineError::MissingSeparator, 2))));
}

#[test]
fn empty_key_reports_its_own_number() {
    let shape = Shape::Mapping(Request::Scalar(Scalar::Text));
    let r = from_str("a: 1\nb: 2\n  : 3\n", &shape);
    assert!(matches!(r, Err(Error::FailedParse(LineError::EmptyKey, 3))));
}

#[test]
fn comment_and_blank_lines_keep_numbering() {
    let shape = Shape::Mapping(Request::Scalar(Scalar::Text));
    let r = from_str("# heading\n\nbroken line\n", &shape);
    assert!(matches!(r, Err(Error::FailedParse(LineError::MissingSeparator, 3))));
}

#[test]
fn char_decodes_single_character() {
    let v = from_str("c: A\n", &Shape::Single(Request::Scalar(Scalar::Char))).unwrap();
    assert!(matches!(v, Value::Char('A')));
}

#[test]
fn char_rejects_zero_or_many() {
    let shape = Shape::Single(Request::Scalar(Scalar::Char));
    assert!(matches!(from_str("c: AB\n", &shape), Err(Error::ExpectedChar)));
    assert!(matches!(from_str("c:\n", &shape), Err(Error::ExpectedChar)));
}

#[test]
fn text_is_returned_unmodified() {
    let v = from_str("t: hello wide  world\n", &Shape::Single(Request::Scalar(Scalar::Text)))
        .unwrap();
    match v {
        Value::Text(s) => assert_eq!(s, "hello wide  world"),
        _ => panic!("expected text"),
    }
}

#[test]
fn eof_when_value_expected() {
    let shape = Shape::Single(Request::Scalar(Scalar::Bool));
    assert!(matches!(from_str("", &shape), Err(Error::Eof)));
    assert!(matches!(from_str("# only a comment\n", &shape), Err(Error::Eof)));
}

#[test]
fn unit_succeeds_consuming_nothing() {
    assert!(matches!(from_str("anything: here\n", &Shape::Unit), Ok(Value::Unit)));
    assert!(matches!(from_str("", &Shape::Unit), Ok(Value::Unit)));
}

#[test]
fn optional_decodes_eagerly() {
    let v = from_str("x: true\n", &Shape::Single(Request::Optional(Scalar::Bool))).unwrap();
    assert!(matches!(v, Value::Bool(true)));
}

#[test]
fn enum_decode_always_fails() {
    assert!(matches!(from_str("x: 1\n", &Shape::Single(Request::Enum)), Err(Error::ExpectedEnum)));
    assert!(matches!(from_str("", &Shape::Single(Request::Enum)), Err(Error::ExpectedEnum)));
}

#[test]
fn unimplemented_shapes_fail_loudly() {
    assert!(matches!(
        from_str("x: 1.5\n", &Shape::Single(Request::Float)),
        Err(Error::Unimplemented)
    ));
    assert!(matches!(
        from_str("x: 00ff\n", &Shape::Single(Request::Bytes)),
        Err(Error::Unimplemented)
    ));
    assert!(matches!(
        from_str("x: 1\n", &Shape::Single(Request::Any)),
        Err(Error::Unimplemented)
    ));
    let shape = Shape::Record(vec![field("x", Request::Float)]);
    assert!(matches!(from_str("x: 1.5\n", &shape), Err(Error::Unimplemented)));
}

#[test]
fn unknown_record_key_fails() {
    let shape = Shape::Record(vec![field("a", Request::Scalar(Scalar::Bool))]);
    assert!(matches!(from_str("b: true\n", &shape), Err(Error::Unimplemented)));
}

#[test]
fn list_propagates_first_bad_token() {
    let shape = Shape::Single(Request::List(Scalar::Bool));
    assert!(matches!(from_str("flags: true maybe false\n", &shape), Err(Error::ExpectedBoolean)));
}

#[test]
fn integer_decode_rejects_out_of_width() {
    let shape = Shape::Single(Request::Scalar(Scalar::Int(IntKind::U8)));
    assert!(matches!(from_str("n: 300\n", &shape), Err(Error::ExpectedInteger)));
    let v = from_str("n: 255\n", &shape).unwrap();
    assert!(matches!(v, Value::Int(IntVal::U8(255))));
}

#[test]
fn cursor_peek_then_take_same_definition() {
    let mut d = Deserializer::from_str("a: 1\nb: 2\n");
    assert_eq!(d.check_key(), Ok(true));
    assert_eq!(d.peek_key().unwrap(), "a");
    assert_eq!(d.peek_key().unwrap(), "a");
    assert_eq!(d.get_value().unwrap(), "1");
    assert_eq!(d.peek_key().unwrap(), "b");
    assert_eq!(d.get_value().unwrap(), "2");
    assert_eq!(d.check_key(), Ok(false));
    assert!(matches!(d.peek_key(), Err(Error::Eof)));
    assert!(matches!(d.get_value(), Err(Error::Eof)));
}

#[test]
fn parse_methods_consume_one_definition_each() {
    let mut d = Deserializer::from_str("b: true\nc: Z\nn: -7\nt: plain text\n");
    assert_eq!(d.parse_bool(), Ok(true));
    assert_eq!(d.parse_char(), Ok('Z'));
    assert_eq!(d.parse_int(IntKind::I16), Ok(IntVal::I16(-7)));
    assert_eq!(d.parse_text().unwrap(), "plain text");
    assert_eq!(d.check_key(), Ok(false));
}

#[test]
fn cursor_surfaces_invalid_definition() {
    let mut d = Deserializer::from_str("broken\n");
    assert!(matches!(
        d.check_key(),
        Err(Error::FailedParse(LineError::MissingSeparator, 1))
    ));
}
