use x11wire::decode::decode_message;
use x11wire::encode::{encode_message, EncodeError};
use x11wire::errors::ParseError;
use x11wire::schema::{
    DeducibleField, DeducibleLengthOp, Expression, FieldDef, FieldType, PadKind, StructDef,
    SwitchCase, SwitchKind, Value,
};
use x11wire::size::{fields_size, serialize};

fn u8_ty() -> FieldType {
    FieldType::Int { size: 1 }
}

fn u16_ty() -> FieldType {
    FieldType::Int { size: 2 }
}

fn u32_ty() -> FieldType {
    FieldType::Int { size: 4 }
}

#[test]
fn fixed_fields_round_trip() {
    // A length-deduced byte list behind a two-byte header.
    let fields = vec![
        FieldDef::Normal { id: 1, ty: u8_ty() },
        FieldDef::Normal { id: 2, ty: u8_ty() },
        FieldDef::List {
            id: 3,
            elem: u8_ty(),
            length_expr: Some(Expression::FieldRef(2)),
        },
    ];
    let ded = vec![(
        2u64,
        DeducibleField::LengthOf { list: 3, op: DeducibleLengthOp::Plain },
    )];
    let vals = vec![
        Value::Uint(9),
        Value::Uint(3),
        Value::Bytes(vec![10, 11, 12]),
    ];
    let params: Vec<(u64, u64)> = Vec::new();
    let (bytes, fds) = encode_message(&fields, &vals, &ded, &params).unwrap();
    assert_eq!(bytes, vec![9, 3, 10, 11, 12]);
    assert_eq!(fds.len(), 0);

    let (decoded, used, fdused) = decode_message(&fields, &ded, &bytes, &fds, &params).unwrap();
    assert_eq!(used, 5);
    assert_eq!(fdused, 0);
    assert_eq!(decoded, vals);
}

#[test]
fn deduction_idempotent_supplied_vs_omitted() {
    let fields = vec![
        FieldDef::Normal { id: 1, ty: u16_ty() },
        FieldDef::List {
            id: 2,
            elem: u8_ty(),
            length_expr: Some(Expression::FieldRef(1)),
        },
    ];
    let ded = vec![(
        1u64,
        DeducibleField::LengthOf { list: 2, op: DeducibleLengthOp::Plain },
    )];
    let params: Vec<(u64, u64)> = Vec::new();

    let supplied = vec![Value::Uint(4), Value::Bytes(vec![1, 2, 3, 4])];
    let omitted = vec![Value::Absent, Value::Bytes(vec![1, 2, 3, 4])];
    let a = encode_message(&fields, &supplied, &ded, &params).unwrap();
    let b = encode_message(&fields, &omitted, &ded, &params).unwrap();
    assert_eq!(a, b);
    assert_eq!(a.0, vec![4, 0, 1, 2, 3, 4]);
}

#[test]
fn consistency_guard_rejects_wrong_length() {
    let fields = vec![
        FieldDef::Normal { id: 1, ty: u16_ty() },
        FieldDef::List {
            id: 2,
            elem: u8_ty(),
            length_expr: Some(Expression::FieldRef(1)),
        },
    ];
    let ded = vec![(
        1u64,
        DeducibleField::LengthOf { list: 2, op: DeducibleLengthOp::Plain },
    )];
    let params: Vec<(u64, u64)> = Vec::new();
    let wrong = vec![Value::Uint(5), Value::Bytes(vec![1, 2, 3, 4])];
    let r = encode_message(&fields, &wrong, &ded, &params);
    assert_eq!(r, Err(EncodeError::Inconsistent { field: 1 }));
}

#[test]
fn alignment_pad_tracks_list_length() {
    // [variable byte list, align-to-4 pad, u16]: the pad is computed
    // against the actual accumulated length.
    for n in 0u64..9 {
        let fields = vec![
            FieldDef::List {
                id: 1,
                elem: u8_ty(),
                length_expr: Some(Expression::FieldRef(0)),
            },
            FieldDef::Pad(PadKind::Align(4)),
            FieldDef::Normal { id: 2, ty: u16_ty() },
        ];
        let ded: Vec<(u64, DeducibleField)> = Vec::new();
        let params = vec![(0u64, n)];
        let data: Vec<u8> = (0..n as u8).collect();
        let vals = vec![Value::Bytes(data), Value::Absent, Value::Uint(0x1234)];
        let (bytes, _) = encode_message(&fields, &vals, &ded, &params).unwrap();
        let pad = ((4 - (n % 4)) % 4) as usize;
        assert_eq!(bytes.len(), n as usize + pad + 2);
        for p in 0..pad {
            assert_eq!(bytes[n as usize + p], 0);
        }
        assert_eq!(bytes[n as usize + pad], 0x34);
        assert_eq!(bytes[n as usize + pad + 1], 0x12);
    }
}

fn two_case_switch() -> (Vec<FieldDef>, Vec<(u64, DeducibleField)>) {
    // Cases {1: [A, B], 2: [C]} selected by a deduced one-byte field.
    let case1 = SwitchCase {
        guard: 1,
        fields: vec![
            FieldDef::Normal { id: 10, ty: u8_ty() },
            FieldDef::Normal { id: 11, ty: u8_ty() },
        ],
        deducible: Vec::new(),
    };
    let case2 = SwitchCase {
        guard: 2,
        fields: vec![FieldDef::Normal { id: 12, ty: u16_ty() }],
        deducible: Vec::new(),
    };
    let fields = vec![
        FieldDef::Normal { id: 1, ty: u8_ty() },
        FieldDef::Switch {
            id: 2,
            expr: Expression::FieldRef(1),
            kind: SwitchKind::Case,
            cases: vec![case1, case2],
        },
    ];
    let ded = vec![(1u64, DeducibleField::CaseSwitchExpr { switch: 2 })];
    (fields, ded)
}

#[test]
fn switch_case_isolation() {
    let (fields, ded) = two_case_switch();
    let params: Vec<(u64, u64)> = Vec::new();
    // Discriminant 2: only case C is emitted, never A or B.
    let vals = vec![
        Value::Uint(2),
        Value::Switch(vec![None, Some(vec![Value::Uint(0xBEEF)])]),
    ];
    let (bytes, _) = encode_message(&fields, &vals, &ded, &params).unwrap();
    assert_eq!(bytes, vec![2, 0xEF, 0xBE]);

    let fds: Vec<u64> = Vec::new();
    let (decoded, _, _) = decode_message(&fields, &ded, &bytes, &fds, &params).unwrap();
    assert_eq!(decoded, vals);
}

#[test]
fn switch_case_one_round_trip() {
    let (fields, ded) = two_case_switch();
    let params: Vec<(u64, u64)> = Vec::new();
    let vals = vec![
        Value::Uint(1),
        Value::Switch(vec![Some(vec![Value::Uint(7), Value::Uint(8)]), None]),
    ];
    let (bytes, fds) = encode_message(&fields, &vals, &ded, &params).unwrap();
    assert_eq!(bytes, vec![1, 7, 8]);
    let (decoded, _, _) = decode_message(&fields, &ded, &bytes, &fds, &params).unwrap();
    assert_eq!(decoded, vals);
}

#[test]
fn switch_inconsistent_discriminant_fails() {
    let (fields, ded) = two_case_switch();
    let params: Vec<(u64, u64)> = Vec::new();
    // Mark both cases active: the representation no longer matches any
    // single discriminant.
    let vals = vec![
        Value::Uint(1),
        Value::Switch(vec![
            Some(vec![Value::Uint(7), Value::Uint(8)]),
            Some(vec![Value::Uint(9)]),
        ]),
    ];
    let r = encode_message(&fields, &vals, &ded, &params);
    assert!(matches!(r, Err(EncodeError::BadDeduction { field: 1 })));
}

#[test]
fn bitcase_switch_round_trip() {
    let cases = vec![
        SwitchCase {
            guard: 0x1,
            fields: vec![FieldDef::Normal { id: 10, ty: u8_ty() }],
            deducible: Vec::new(),
        },
        SwitchCase {
            guard: 0x2,
            fields: vec![FieldDef::Normal { id: 11, ty: u16_ty() }],
            deducible: Vec::new(),
        },
        SwitchCase {
            guard: 0x4,
            fields: vec![FieldDef::Normal { id: 12, ty: u8_ty() }],
            deducible: Vec::new(),
        },
    ];
    let fields = vec![
        FieldDef::Normal { id: 1, ty: u32_ty() },
        FieldDef::Switch {
            id: 2,
            expr: Expression::FieldRef(1),
            kind: SwitchKind::BitCase,
            cases,
        },
    ];
    let ded = vec![(1u64, DeducibleField::BitCaseSwitchExpr { switch: 2 })];
    let params: Vec<(u64, u64)> = Vec::new();
    // Bits 0x1 and 0x4 set: first and third case active.
    let vals = vec![
        Value::Uint(5),
        Value::Switch(vec![
            Some(vec![Value::Uint(0xAA)]),
            None,
            Some(vec![Value::Uint(0xBB)]),
        ]),
    ];
    let (bytes, fds) = encode_message(&fields, &vals, &ded, &params).unwrap();
    assert_eq!(bytes, vec![5, 0, 0, 0, 0xAA, 0xBB]);
    let (decoded, _, _) = decode_message(&fields, &ded, &bytes, &fds, &params).unwrap();
    assert_eq!(decoded, vals);
}

#[test]
fn enum_widening_two_bytes_when_not_deduced() {
    // Legal values up to 300 need 16 bits; a one-byte slot widens to two
    // bytes for a non-deduced value.
    let fields = vec![FieldDef::Normal {
        id: 1,
        ty: FieldType::Enum { size: 1, max_value: 300 },
    }];
    let ded: Vec<(u64, DeducibleField)> = Vec::new();
    let params: Vec<(u64, u64)> = Vec::new();
    let vals = vec![Value::Uint(300)];
    let (bytes, _) = encode_message(&fields, &vals, &ded, &params).unwrap();
    assert_eq!(bytes, vec![0x2C, 0x01]);

    let fds: Vec<u64> = Vec::new();
    let (decoded, _, _) = decode_message(&fields, &ded, &bytes, &fds, &params).unwrap();
    assert_eq!(decoded, vals);
}

#[test]
fn enum_deduced_encodes_raw_declared_size() {
    // The same enumerated field, deduced, encodes its raw one-byte form.
    let fields = vec![
        FieldDef::Normal { id: 1, ty: FieldType::Enum { size: 1, max_value: 300 } },
        FieldDef::List { id: 2, elem: u8_ty(), length_expr: Some(Expression::FieldRef(1)) },
    ];
    let ded = vec![(
        1u64,
        DeducibleField::LengthOf { list: 2, op: DeducibleLengthOp::Plain },
    )];
    let params: Vec<(u64, u64)> = Vec::new();
    let vals = vec![Value::Uint(2), Value::Bytes(vec![7, 8])];
    let (bytes, _) = encode_message(&fields, &vals, &ded, &params).unwrap();
    assert_eq!(bytes, vec![2, 7, 8]);
}

#[test]
fn virtual_len_reports_list_length() {
    // The virtual length field encodes the target list's count as four
    // bytes, decoupled from the list's own position.
    let fields = vec![
        FieldDef::VirtualLen { id: 1, list: 3 },
        FieldDef::List { id: 3, elem: u8_ty(), length_expr: Some(Expression::Value(7)) },
    ];
    let ded: Vec<(u64, DeducibleField)> = Vec::new();
    let params: Vec<(u64, u64)> = Vec::new();
    let vals = vec![Value::Absent, Value::Bytes(vec![1, 2, 3, 4, 5, 6, 7])];
    let (bytes, _) = encode_message(&fields, &vals, &ded, &params).unwrap();
    assert_eq!(&bytes[0..4], &[7, 0, 0, 0]);
    let n = u32::from_le_bytes([bytes[0], bytes[1], bytes[2], bytes[3]]);
    assert_eq!(n, 7);
}

#[test]
fn fd_fields_excluded_from_byte_stream() {
    let fields = vec![
        FieldDef::Normal { id: 1, ty: u8_ty() },
        FieldDef::Fd { id: 2 },
        FieldDef::Normal { id: 3, ty: u16_ty() },
    ];
    let ded: Vec<(u64, DeducibleField)> = Vec::new();
    let params: Vec<(u64, u64)> = Vec::new();
    let vals = vec![Value::Uint(1), Value::Uint(33), Value::Uint(2)];
    let (bytes, fds) = encode_message(&fields, &vals, &ded, &params).unwrap();
    // Total byte length is the sum of the non-fd contributions alone.
    assert_eq!(bytes.len(), 1 + 2);
    assert_eq!(fds, vec![33]);

    let (decoded, used, fdused) = decode_message(&fields, &ded, &bytes, &fds, &params).unwrap();
    assert_eq!(decoded, vals);
    assert_eq!(used, 3);
    assert_eq!(fdused, 1);
}

#[test]
fn fd_list_round_trip() {
    let fields = vec![
        FieldDef::Normal { id: 1, ty: u8_ty() },
        FieldDef::FdList { id: 2, length_expr: Expression::FieldRef(1) },
    ];
    let ded = vec![(
        1u64,
        DeducibleField::LengthOf { list: 2, op: DeducibleLengthOp::Plain },
    )];
    let params: Vec<(u64, u64)> = Vec::new();
    let vals = vec![Value::Uint(2), Value::Fds(vec![5, 6])];
    let (bytes, fds) = encode_message(&fields, &vals, &ded, &params).unwrap();
    assert_eq!(bytes, vec![2]);
    assert_eq!(fds, vec![5, 6]);
    let (decoded, _, fdused) = decode_message(&fields, &ded, &bytes, &fds, &params).unwrap();
    assert_eq!(decoded, vals);
    assert_eq!(fdused, 2);
}

#[test]
fn nested_struct_with_external_params_round_trip() {
    // The nested list's length comes from an external parameter the
    // enclosing message threads down by name.
    let inner = StructDef {
        fields: vec![FieldDef::List {
            id: 20,
            elem: u8_ty(),
            length_expr: Some(Expression::FieldRef(100)),
        }],
        deducible: Vec::new(),
        params: vec![100],
    };
    let fields = vec![
        FieldDef::Normal { id: 100, ty: u8_ty() },
        FieldDef::Normal { id: 2, ty: FieldType::Struct(inner) },
    ];
    let ded: Vec<(u64, DeducibleField)> = Vec::new();
    let params: Vec<(u64, u64)> = Vec::new();
    let vals = vec![
        Value::Uint(3),
        Value::Struct(vec![Value::Bytes(vec![7, 8, 9])]),
    ];
    let (bytes, fds) = encode_message(&fields, &vals, &ded, &params).unwrap();
    assert_eq!(bytes, vec![3, 7, 8, 9]);
    let (decoded, _, _) = decode_message(&fields, &ded, &bytes, &fds, &params).unwrap();
    assert_eq!(decoded, vals);
}

#[test]
fn list_of_struct_elements_round_trip() {
    let point = StructDef {
        fields: vec![
            FieldDef::Normal { id: 30, ty: u16_ty() },
            FieldDef::Normal { id: 31, ty: u16_ty() },
        ],
        deducible: Vec::new(),
        params: Vec::new(),
    };
    let fields = vec![FieldDef::List {
        id: 1,
        elem: FieldType::Struct(point),
        length_expr: Some(Expression::Value(2)),
    }];
    let ded: Vec<(u64, DeducibleField)> = Vec::new();
    let params: Vec<(u64, u64)> = Vec::new();
    let vals = vec![Value::List(vec![
        Value::Struct(vec![Value::Uint(1), Value::Uint(2)]),
        Value::Struct(vec![Value::Uint(3), Value::Uint(4)]),
    ])];
    let (bytes, fds) = encode_message(&fields, &vals, &ded, &params).unwrap();
    assert_eq!(bytes, vec![1, 0, 2, 0, 3, 0, 4, 0]);
    let (decoded, _, _) = decode_message(&fields, &ded, &bytes, &fds, &params).unwrap();
    assert_eq!(decoded, vals);
}

#[test]
fn expr_const_emits_and_checks_byte() {
    let fields = vec![FieldDef::ExprConst { id: 1, value: 42 }];
    let ded: Vec<(u64, DeducibleField)> = Vec::new();
    let params: Vec<(u64, u64)> = Vec::new();
    let vals = vec![Value::Absent];
    let (bytes, fds) = encode_message(&fields, &vals, &ded, &params).unwrap();
    assert_eq!(bytes, vec![42]);
    let (decoded, _, _) = decode_message(&fields, &ded, &bytes, &fds, &params).unwrap();
    assert_eq!(decoded, vals);

    // A different byte on the wire is a value outside its valid range.
    let bad = vec![43u8];
    let r = decode_message(&fields, &ded, &bad, &fds, &params);
    assert_eq!(r, Err(ParseError::InvalidValue));
}

#[test]
fn static_size_resolver_matches_output() {
    let fields = vec![
        FieldDef::Normal { id: 1, ty: u8_ty() },
        FieldDef::Pad(PadKind::Align(4)),
        FieldDef::Normal { id: 2, ty: u32_ty() },
        FieldDef::Pad(PadKind::Bytes(2)),
    ];
    let ded: Vec<(u64, DeducibleField)> = Vec::new();
    let size = fields_size(&fields, &ded, 0, 0);
    assert_eq!(size, Some(1 + 3 + 4 + 2));

    let params: Vec<(u64, u64)> = Vec::new();
    let vals = vec![Value::Uint(9), Value::Absent, Value::Uint(7), Value::Absent];
    let (bytes, _) = serialize(&fields, &vals, &ded, &params).unwrap();
    assert_eq!(bytes.len(), 10);
}

#[test]
fn variable_size_resolver_reports_none() {
    let fields = vec![FieldDef::List {
        id: 1,
        elem: u8_ty(),
        length_expr: Some(Expression::FieldRef(0)),
    }];
    let ded: Vec<(u64, DeducibleField)> = Vec::new();
    assert_eq!(fields_size(&fields, &ded, 0, 0), None);
}

#[test]
fn scaled_length_deduction_multiplies() {
    // The length field holds the list length times four.
    let fields = vec![
        FieldDef::Normal { id: 1, ty: u8_ty() },
        FieldDef::List {
            id: 2,
            elem: u8_ty(),
            length_expr: Some(Expression::Div(
                Box::new(Expression::FieldRef(1)),
                Box::new(Expression::Value(4)),
            )),
        },
    ];
    let ded = vec![(
        1u64,
        DeducibleField::LengthOf { list: 2, op: DeducibleLengthOp::Mul(4) },
    )];
    let params: Vec<(u64, u64)> = Vec::new();
    let vals = vec![Value::Absent, Value::Bytes(vec![1, 2])];
    let (bytes, fds) = encode_message(&fields, &vals, &ded, &params).unwrap();
    assert_eq!(bytes, vec![8, 1, 2]);

    let canonical = vec![Value::Uint(8), Value::Bytes(vec![1, 2])];
    let (decoded, _, _) = decode_message(&fields, &ded, &bytes, &fds, &params).unwrap();
    assert_eq!(decoded, canonical);
}

#[test]
fn empty_message_encodes_to_nothing() {
    let fields: Vec<FieldDef> = Vec::new();
    let vals: Vec<Value> = Vec::new();
    let ded: Vec<(u64, DeducibleField)> = Vec::new();
    let params: Vec<(u64, u64)> = Vec::new();
    let (bytes, fds) = encode_message(&fields, &vals, &ded, &params).unwrap();
    assert_eq!(bytes.len(), 0);
    assert_eq!(fds.len(), 0);
    let (decoded, used, fdused) = decode_message(&fields, &ded, &bytes, &fds, &params).unwrap();
    assert_eq!(decoded.len(), 0);
    assert_eq!(used, 0);
    assert_eq!(fdused, 0);
}

#[test]
fn later_binding_shadows_earlier_one() {
    // Two fields carry the same identifier; an expression after both sees
    // the more recent value.
    let fields = vec![
        FieldDef::Normal { id: 1, ty: u8_ty() },
        FieldDef::Normal { id: 1, ty: u8_ty() },
        FieldDef::List {
            id: 2,
            elem: u8_ty(),
            length_expr: Some(Expression::FieldRef(1)),
        },
    ];
    let ded: Vec<(u64, DeducibleField)> = Vec::new();
    let params: Vec<(u64, u64)> = Vec::new();
    let vals = vec![Value::Uint(5), Value::Uint(2), Value::Bytes(vec![8, 9])];
    let (bytes, _) = encode_message(&fields, &vals, &ded, &params).unwrap();
    assert_eq!(bytes, vec![5, 2, 8, 9]);
}

#[test]
fn decode_reports_consumed_prefix() {
    let fields = vec![FieldDef::Normal { id: 1, ty: u16_ty() }];
    let ded: Vec<(u64, DeducibleField)> = Vec::new();
    let params: Vec<(u64, u64)> = Vec::new();
    let fds: Vec<u64> = Vec::new();
    // Trailing bytes beyond the message are left unread.
    let bytes = vec![0x22, 0x11, 0xFF, 0xFF];
    let (decoded, used, _) = decode_message(&fields, &ded, &bytes, &fds, &params).unwrap();
    assert_eq!(decoded, vec![Value::Uint(0x1122)]);
    assert_eq!(used, 2);
}

#[test]
fn serialize_matches_streaming_encode() {
    let fields = vec![
        FieldDef::Normal { id: 1, ty: u32_ty() },
        FieldDef::Pad(PadKind::Bytes(1)),
        FieldDef::ExprConst { id: 2, value: 7 },
    ];
    let ded: Vec<(u64, DeducibleField)> = Vec::new();
    let params: Vec<(u64, u64)> = Vec::new();
    let vals = vec![Value::Uint(0xDEADBEEF), Value::Absent, Value::Absent];
    let a = encode_message(&fields, &vals, &ded, &params).unwrap();
    let b = serialize(&fields, &vals, &ded, &params).unwrap();
    assert_eq!(a, b);
    assert_eq!(b.0, vec![0xEF, 0xBE, 0xAD, 0xDE, 0, 7]);
}

#[test]
fn switch_with_equal_case_sizes_is_static() {
    let cases = vec![
        SwitchCase {
            guard: 1,
            fields: vec![FieldDef::Normal { id: 10, ty: u16_ty() }],
            deducible: Vec::new(),
        },
        SwitchCase {
            guard: 2,
            fields: vec![
                FieldDef::Normal { id: 11, ty: u8_ty() },
                FieldDef::Normal { id: 12, ty: u8_ty() },
            ],
            deducible: Vec::new(),
        },
    ];
    let fields = vec![
        FieldDef::Normal { id: 1, ty: u8_ty() },
        FieldDef::Switch {
            id: 2,
            expr: Expression::FieldRef(1),
            kind: SwitchKind::Case,
            cases,
        },
    ];
    let ded = vec![(1u64, DeducibleField::CaseSwitchExpr { switch: 2 })];
    assert_eq!(fields_size(&fields, &ded, 0, 0), Some(3));
}

#[test]
fn indivisible_scaled_length_fails_deduction() {
    // A length field holding a quarter of the list length cannot be
    // deduced from a list of three bytes.
    let fields = vec![
        FieldDef::Normal { id: 1, ty: u8_ty() },
        FieldDef::List {
            id: 2,
            elem: u8_ty(),
            length_expr: Some(Expression::Mul(
                Box::new(Expression::FieldRef(1)),
                Box::new(Expression::Value(4)),
            )),
        },
    ];
    let ded = vec![(
        1u64,
        DeducibleField::LengthOf { list: 2, op: DeducibleLengthOp::Div(4) },
    )];
    let params: Vec<(u64, u64)> = Vec::new();
    let vals = vec![Value::Absent, Value::Bytes(vec![1, 2, 3])];
    let r = encode_message(&fields, &vals, &ded, &params);
    assert_eq!(r, Err(EncodeError::BadDeduction { field: 1 }));
}

#[test]
fn widened_enum_list_elements_round_trip() {
    // Each element of a list of enumerated values is widened on its own.
    let fields = vec![FieldDef::List {
        id: 1,
        elem: FieldType::Enum { size: 1, max_value: 300 },
        length_expr: Some(Expression::Value(2)),
    }];
    let ded: Vec<(u64, DeducibleField)> = Vec::new();
    let params: Vec<(u64, u64)> = Vec::new();
    let vals = vec![Value::List(vec![Value::Uint(300), Value::Uint(1)])];
    let (bytes, fds) = encode_message(&fields, &vals, &ded, &params).unwrap();
    assert_eq!(bytes, vec![0x2C, 0x01, 0x01, 0x00]);
    let (decoded, _, _) = decode_message(&fields, &ded, &bytes, &fds, &params).unwrap();
    assert_eq!(decoded, vals);
}

#[test]
fn deduced_enum_round_trips_at_declared_size() {
    let fields = vec![
        FieldDef::Normal { id: 1, ty: FieldType::Enum { size: 1, max_value: 300 } },
        FieldDef::List { id: 2, elem: u8_ty(), length_expr: Some(Expression::FieldRef(1)) },
    ];
    let ded = vec![(
        1u64,
        DeducibleField::LengthOf { list: 2, op: DeducibleLengthOp::Plain },
    )];
    let params: Vec<(u64, u64)> = Vec::new();
    let vals = vec![Value::Uint(2), Value::Bytes(vec![7, 8])];
    let (bytes, fds) = encode_message(&fields, &vals, &ded, &params).unwrap();
    assert_eq!(bytes, vec![2, 7, 8]);
    let (decoded, _, _) = decode_message(&fields, &ded, &bytes, &fds, &params).unwrap();
    assert_eq!(decoded, vals);
}

#[test]
fn deduction_reading_the_deduced_field_fails_both_ways() {
    // A degenerate schema whose rule names the deduced field itself: the
    // rule cannot be applied, and the supplied and omitted forms fail
    // identically.
    let fields = vec![
        FieldDef::Normal { id: 1, ty: u8_ty() },
        FieldDef::List { id: 2, elem: u8_ty(), length_expr: Some(Expression::Value(1)) },
    ];
    let ded = vec![(
        1u64,
        DeducibleField::LengthOf { list: 1, op: DeducibleLengthOp::Plain },
    )];
    let params: Vec<(u64, u64)> = Vec::new();
    let supplied = vec![Value::Uint(3), Value::Bytes(vec![9])];
    let omitted = vec![Value::Absent, Value::Bytes(vec![9])];
    let a = encode_message(&fields, &supplied, &ded, &params);
    let b = encode_message(&fields, &omitted, &ded, &params);
    assert_eq!(a, Err(EncodeError::BadDeduction { field: 1 }));
    assert_eq!(a, b);
}
