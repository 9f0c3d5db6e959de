use x11wire::cookie::{
    Connection, Cookie, CookieWithFds, EnableContextReply, ListFontsWithInfoCookie,
    ListFontsWithInfoReply, RecordEnableContextCookie, RequestConnection, VoidCookie,
};
use x11wire::decode::decode_message;
use x11wire::encode::{encode_message, EncodeError};
use x11wire::errors::{ConnectError, DisplayParsingError, ParseError, SetupAuthenticate, SetupFailed};
use x11wire::expr::{eval, popcount};
use x11wire::schema::{
    wire_bytes, DeducibleField, Expression, FieldDef, FieldType, PadKind, StructDef, Value,
};

struct FakeConnection;

impl RequestConnection for FakeConnection {
}

impl Connection for FakeConnection {
}

#[test]
fn void_cookie_sequence_number() {
    let conn = FakeConnection;
    let cookie = VoidCookie::new(&conn, 42);
    assert_eq!(cookie.sequence_number(), 42);
    let (_, seq) = cookie.consume();
    assert_eq!(seq, 42);
}

#[test]
fn reply_cookie_sequence_number() {
    let conn = FakeConnection;
    let cookie: Cookie<'_, FakeConnection, ListFontsWithInfoReply> = Cookie::new(&conn, 7);
    assert_eq!(cookie.sequence_number(), 7);
}

#[test]
fn fd_cookie_sequence_number() {
    let conn = FakeConnection;
    let cookie: CookieWithFds<'_, FakeConnection, EnableContextReply> =
        CookieWithFds::new(&conn, 9);
    assert_eq!(cookie.sequence_number(), 9);
}

#[test]
fn list_fonts_stream_cookie() {
    let conn = FakeConnection;
    let cookie: Cookie<'_, FakeConnection, ListFontsWithInfoReply> = Cookie::new(&conn, 3);
    let stream = ListFontsWithInfoCookie::new(cookie);
    assert_eq!(stream.sequence_number(), Some(3));
    assert!(ListFontsWithInfoCookie::<FakeConnection>::is_last(
        &ListFontsWithInfoReply { name: Vec::new() }
    ));
    assert!(!ListFontsWithInfoCookie::<FakeConnection>::is_last(
        &ListFontsWithInfoReply { name: vec![b'a'] }
    ));
}

#[test]
fn record_stream_cookie() {
    let conn = FakeConnection;
    let cookie: Cookie<'_, FakeConnection, EnableContextReply> = Cookie::new(&conn, 4);
    let stream = RecordEnableContextCookie::new(cookie);
    assert_eq!(stream.sequence_number(), Some(4));
    assert!(RecordEnableContextCookie::<FakeConnection>::is_last(
        &EnableContextReply { category: 5 }
    ));
    assert!(!RecordEnableContextCookie::<FakeConnection>::is_last(
        &EnableContextReply { category: 0 }
    ));
}

#[test]
fn reply_parsers() {
    let (reply, used) = ListFontsWithInfoReply::parse(&[2, b'h', b'i', 99]).unwrap();
    assert_eq!(used, 3);
    assert_eq!(reply.name, vec![b'h', b'i']);
    assert_eq!(
        ListFontsWithInfoReply::parse(&[3, 1]),
        Err(ParseError::InsufficientData)
    );

    let (reply, used) = EnableContextReply::parse(&[5, 1]).unwrap();
    assert_eq!(used, 1);
    assert_eq!(reply.category, 5);
    assert_eq!(EnableContextReply::parse(&[]), Err(ParseError::InsufficientData));
}

#[test]
fn parse_error_messages() {
    assert_eq!(
        ParseError::InsufficientData.message(),
        "Insufficient data was provided"
    );
    assert_eq!(
        ParseError::MissingFileDescriptors.message(),
        "Missing file descriptors"
    );
}

#[test]
fn display_parsing_error_message_interpolates() {
    let err = DisplayParsingError::MalformedValue(String::from(":0.oops"));
    assert_eq!(err.message(), "Failed to parse value ':0.oops'");
}

#[test]
fn connect_error_from_and_messages() {
    let err = ConnectError::from(ParseError::InvalidValue);
    assert!(matches!(err, ConnectError::ParseError(ParseError::InvalidValue)));
    assert_eq!(
        err.message(),
        "A value could not be parsed into an enumeration"
    );
    let err = ConnectError::from(DisplayParsingError::NotUnicode);
    assert_eq!(err.message(), "The value of $DISPLAY is not valid unicode");
    assert_eq!(
        ConnectError::ZeroIdMask.message(),
        "XID mask was zero"
    );
}

#[test]
fn incomplete_handshake_message_carries_counts() {
    let err = ConnectError::Incomplete { expected: 8, received: 3 };
    assert_eq!(
        err.message(),
        "Not enough data received to complete the handshake. Expected 8, received 3"
    );
    let err = ConnectError::Incomplete { expected: 1204, received: 90 };
    assert_eq!(
        err.message(),
        "Not enough data received to complete the handshake. Expected 1204, received 90"
    );
}

#[test]
fn setup_messages_embed_a_text_reason() {
    let err = ConnectError::SetupFailed(SetupFailed {
        status: 0,
        protocol_major_version: 11,
        protocol_minor_version: 0,
        reason: vec![104, 105],
    });
    assert_eq!(err.message(), "X11 setup failed: 'hi'");
    let err = ConnectError::SetupAuthenticate(SetupAuthenticate {
        status: 2,
        reason: vec![110, 111],
    });
    assert_eq!(err.message(), "X11 authentication failed: 'no'");
    let err = ConnectError::SetupFailed(SetupFailed {
        status: 0,
        protocol_major_version: 11,
        protocol_minor_version: 0,
        reason: Vec::new(),
    });
    assert_eq!(err.message(), "X11 setup failed: ''");
}

#[test]
fn setup_messages_mark_a_non_utf8_reason() {
    let err = ConnectError::SetupFailed(SetupFailed {
        status: 0,
        protocol_major_version: 11,
        protocol_minor_version: 0,
        reason: vec![255, 254],
    });
    assert_eq!(
        err.message(),
        "X11 setup failed: [255, 254] [message is not utf8]"
    );
    let err = ConnectError::SetupAuthenticate(SetupAuthenticate {
        status: 2,
        reason: vec![104, 0xC0],
    });
    assert_eq!(
        err.message(),
        "X11 authentication failed: [104, 192] [message is not utf8]"
    );
}

#[test]
fn expression_evaluation() {
    let ctx = vec![(1u64, 6u64), (2u64, 4u64)];
    let e = Expression::Add(
        Box::new(Expression::Mul(
            Box::new(Expression::FieldRef(1)),
            Box::new(Expression::Value(2)),
        )),
        Box::new(Expression::Div(
            Box::new(Expression::FieldRef(2)),
            Box::new(Expression::Value(2)),
        )),
    );
    assert_eq!(eval(&e, &ctx, None), Some(14));

    // Overflow and division by zero are invalid expressions.
    let e = Expression::Add(
        Box::new(Expression::Value(u64::MAX)),
        Box::new(Expression::Value(1)),
    );
    assert_eq!(eval(&e, &ctx, None), None);
    let e = Expression::Div(
        Box::new(Expression::Value(1)),
        Box::new(Expression::Value(0)),
    );
    assert_eq!(eval(&e, &ctx, None), None);

    // The union discriminant is only available inside a union.
    assert_eq!(eval(&Expression::SwitchExpr, &ctx, None), None);
    assert_eq!(eval(&Expression::SwitchExpr, &ctx, Some(3)), Some(3));
}

#[test]
fn popcount_counts_bits() {
    assert_eq!(popcount(0), 0);
    assert_eq!(popcount(0b1011), 3);
    assert_eq!(popcount(u64::MAX), 64);
    let e = Expression::Popcount(Box::new(Expression::Value(0xF0)));
    let ctx: Vec<(u64, u64)> = Vec::new();
    assert_eq!(eval(&e, &ctx, None), Some(4));
}

#[test]
fn wire_bytes_thresholds() {
    assert_eq!(wire_bytes(0), 1);
    assert_eq!(wire_bytes(255), 1);
    assert_eq!(wire_bytes(256), 2);
    assert_eq!(wire_bytes(65535), 2);
    assert_eq!(wire_bytes(65536), 4);
    assert_eq!(wire_bytes(u64::MAX), 8);
}

#[test]
fn encode_error_variants() {
    let params: Vec<(u64, u64)> = Vec::new();
    let no_ded: Vec<(u64, DeducibleField)> = Vec::new();

    // Missing value.
    let fields = vec![FieldDef::Normal { id: 1, ty: FieldType::Int { size: 1 } }];
    let r = encode_message(&fields, &vec![Value::Absent], &no_ded, &params);
    assert_eq!(r, Err(EncodeError::MissingValue { field: 1 }));

    // Wrong shape.
    let r = encode_message(&fields, &vec![Value::Bytes(vec![1])], &no_ded, &params);
    assert_eq!(r, Err(EncodeError::TypeMismatch { field: 1 }));

    // Too large for the wire width.
    let r = encode_message(&fields, &vec![Value::Uint(256)], &no_ded, &params);
    assert_eq!(r, Err(EncodeError::TooLarge { field: 1 }));

    // Outside the enumerated range.
    let efields = vec![FieldDef::Normal { id: 1, ty: FieldType::Enum { size: 1, max_value: 3 } }];
    let r = encode_message(&efields, &vec![Value::Uint(4)], &no_ded, &params);
    assert_eq!(r, Err(EncodeError::OutOfRange { field: 1 }));

    // A length expression that cannot be evaluated.
    let lfields = vec![FieldDef::List {
        id: 2,
        elem: FieldType::Int { size: 1 },
        length_expr: Some(Expression::FieldRef(9)),
    }];
    let r = encode_message(&lfields, &vec![Value::Bytes(vec![])], &no_ded, &params);
    assert_eq!(r, Err(EncodeError::BadExpression { field: 2 }));

    // A list the schema gives no length for.
    let ufields = vec![FieldDef::List {
        id: 2,
        elem: FieldType::Int { size: 1 },
        length_expr: None,
    }];
    let r = encode_message(&ufields, &vec![Value::Bytes(vec![])], &no_ded, &params);
    assert_eq!(r, Err(EncodeError::Unsupported { field: 2 }));

    // Value vector of the wrong length.
    let r = encode_message(&fields, &Vec::new(), &no_ded, &params);
    assert_eq!(r, Err(EncodeError::LengthMismatch));

    // Alignment zero.
    let pfields = vec![FieldDef::Pad(PadKind::Align(0))];
    let r = encode_message(&pfields, &vec![Value::Absent], &no_ded, &params);
    assert_eq!(r, Err(EncodeError::BadAlignment));

    // A nested structure missing its declared external parameter.
    let inner = StructDef { fields: Vec::new(), deducible: Vec::new(), params: vec![100] };
    let sfields = vec![FieldDef::Normal { id: 1, ty: FieldType::Struct(inner) }];
    let r = encode_message(&sfields, &vec![Value::Struct(Vec::new())], &no_ded, &params);
    assert_eq!(r, Err(EncodeError::MissingParam { field: 1 }));
}

#[test]
fn parse_error_variants() {
    let params: Vec<(u64, u64)> = Vec::new();
    let no_ded: Vec<(u64, DeducibleField)> = Vec::new();
    let no_fds: Vec<u64> = Vec::new();

    // Not enough bytes.
    let fields = vec![FieldDef::Normal { id: 1, ty: FieldType::Int { size: 4 } }];
    let r = decode_message(&fields, &no_ded, &vec![1, 2], &no_fds, &params);
    assert_eq!(r, Err(ParseError::InsufficientData));

    // A width no value can be converted from.
    let wfields = vec![FieldDef::Normal { id: 1, ty: FieldType::Int { size: 9 } }];
    let r = decode_message(&wfields, &no_ded, &vec![0; 16], &no_fds, &params);
    assert_eq!(r, Err(ParseError::ConversionFailed));

    // An expression that cannot be evaluated.
    let lfields = vec![FieldDef::List {
        id: 2,
        elem: FieldType::Int { size: 1 },
        length_expr: Some(Expression::FieldRef(9)),
    }];
    let r = decode_message(&lfields, &no_ded, &Vec::new(), &no_fds, &params);
    assert_eq!(r, Err(ParseError::InvalidExpression));

    // An enumerated value outside its range.
    let efields = vec![FieldDef::Normal { id: 1, ty: FieldType::Enum { size: 1, max_value: 3 } }];
    let r = decode_message(&efields, &no_ded, &vec![9], &no_fds, &params);
    assert_eq!(r, Err(ParseError::InvalidValue));

    // Too few descriptors delivered out of band.
    let ffields = vec![FieldDef::Fd { id: 1 }];
    let r = decode_message(&ffields, &no_ded, &Vec::new(), &no_fds, &params);
    assert_eq!(r, Err(ParseError::MissingFileDescriptors));
}
