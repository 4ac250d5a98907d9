use bin_data::args::{ArgsBuilderFinished, ElementArgs, EndianBuilder, Param, StrArgs, StrArgsBuilder, VecArgs, VecArgsBuilder};
use bin_data::codec::{decode_seq, decode_seq_mapped, decode_text, encode_seq, ElemType};
use bin_data::plain::{uint_from_bytes, uint_to_bytes, Prim, Scalar};
use bin_data::record::{CountExpr, Directive, FieldKind, Plan};
use bin_data::schema::{
    Direction, EndianOption, Entry, FieldDecl, FieldOption, RecordOption, Schema, SchemaError, Setter,
};
use bin_data::stream::{Be, DecodeError, EncodeError, Le, Reader, Writer};
use bin_data::value::{Expr, FieldType, Value};
use bin_data::view::{SliceView, SliceViewRef};
use bin_data::{Endian, EndianContext, NoEndian};

fn field(name: &str, kind: FieldKind, ty: FieldType, options: Vec<FieldOption>) -> Entry {
    Entry::Field(FieldDecl { name: name.to_string(), kind, ty, options })
}

fn little() -> EndianContext {
    Endian::Little.into_context()
}

#[test]
fn endian_two_bytes() {
    let s = Scalar::U16(0x1234);
    assert_eq!(s.to_bytes(Endian::Little), vec![0x34, 0x12]);
    assert_eq!(s.to_bytes(Endian::Big), vec![0x12, 0x34]);
    let mut w = Writer::new();
    let mut plan_le = Schema {
        entries: vec![field(
            "x",
            FieldKind::Persistent,
            FieldType::Plain(Prim::U16),
            vec![FieldOption::Endian(EndianOption::Little)],
        )],
        options: vec![],
    }
    .compile()
    .unwrap();
    plan_le.encode(&vec![Value::Scalar(s)], &mut w).unwrap();
    assert_eq!(w.into_bytes(), vec![0x34, 0x12]);
    plan_le = Schema {
        entries: vec![field(
            "x",
            FieldKind::Persistent,
            FieldType::Plain(Prim::U16),
            vec![FieldOption::Endian(EndianOption::Big)],
        )],
        options: vec![],
    }
    .compile()
    .unwrap();
    let mut w = Writer::new();
    plan_le.encode(&vec![Value::Scalar(s)], &mut w).unwrap();
    assert_eq!(w.into_bytes(), vec![0x12, 0x34]);
}

#[test]
fn uint_bytes_exact_values() {
    assert_eq!(uint_to_bytes(0xDEAD_BEEF, 4, Endian::Little), vec![0xEF, 0xBE, 0xAD, 0xDE]);
    assert_eq!(uint_to_bytes(0xDEAD_BEEF, 4, Endian::Big), vec![0xDE, 0xAD, 0xBE, 0xEF]);
    assert_eq!(uint_from_bytes(&[0x01, 0x02, 0x03], Endian::Little), 0x030201);
    assert_eq!(uint_from_bytes(&[0x01, 0x02, 0x03], Endian::Big), 0x010203);
    assert_eq!(uint_from_bytes(&[], Endian::Big), 0);
    let max = [0xFF_u8; 16];
    assert_eq!(uint_from_bytes(&max, Endian::Little), u128::MAX);
    assert_eq!(uint_to_bytes(u128::MAX, 16, Endian::Big), max.to_vec());
}

#[test]
fn signed_values_round_trip() {
    let cases = [
        Scalar::I8(-1),
        Scalar::I16(-2),
        Scalar::I32(i32::MIN),
        Scalar::I64(-0x1122334455667788),
        Scalar::I128(i128::MIN),
        Scalar::I128(-1),
        Scalar::U128(u128::MAX),
        Scalar::F64((-1.5f64).to_bits()),
    ];
    for s in cases {
        for e in [Endian::Little, Endian::Big] {
            let b = s.to_bytes(e);
            assert_eq!(Scalar::from_bytes(s.prim(), &b, e), s);
        }
    }
    assert_eq!(Scalar::I16(-2).to_bytes(Endian::Big), vec![0xFF, 0xFE]);
    assert_eq!(Scalar::I8(-128).to_bits(), 0x80);
    assert_eq!(Scalar::from_bits(Prim::I32, 0xFFFF_FFFF), Scalar::I32(-1));
}

#[test]
fn magic_matches_and_consumes_four_bytes() {
    let mut r = Reader::new(vec![0x12, 0x34, 0x56, 0x78, 0x9A]);
    r.magic(vec![0x12_u8, 0x34, 0x56, 0x78]).unwrap();
    assert_eq!(r.remaining(), 1);
}

#[test]
fn magic_mismatch_reports_both() {
    let mut r = Reader::new(vec![0x12, 0x34, 0x56, 0x79]);
    let err = r.magic(vec![0x12_u8, 0x34, 0x56, 0x78]).unwrap_err();
    assert_eq!(
        err,
        DecodeError::MagicMismatch {
            real_bytes: vec![0x12, 0x34, 0x56, 0x79],
            expected_magic: vec![0x12, 0x34, 0x56, 0x78],
        }
    );
}

#[test]
fn magic_too_short_is_incomplete() {
    let mut r = Reader::new(vec![0x12, 0x34]);
    let err = r.magic(vec![0x12_u8, 0x34, 0x56, 0x78]).unwrap_err();
    assert_eq!(err, DecodeError::IncompleteData { context: "magic", needed: 4, available: 2 });
    assert_eq!(r.remaining(), 2);
}

#[test]
fn magic_from_numbers() {
    let mut w = Writer::new();
    w.magic(Le(Scalar::U16(42)));
    w.magic(Be(Scalar::U16(42)));
    w.magic(7_u8);
    assert_eq!(w.into_bytes(), vec![42, 0, 0, 42, 7]);
}

#[test]
fn pad_discards_and_writes_zeros() {
    let mut r = Reader::new(vec![9, 8, 7, 6]);
    r.pad(3).unwrap();
    assert_eq!(r.remaining(), 1);
    let mut w = Writer::new();
    w.pad(3);
    assert_eq!(w.into_bytes(), vec![0, 0, 0]);
    let mut short = Reader::new(vec![1, 2]);
    assert_eq!(
        short.pad(3).unwrap_err(),
        DecodeError::IncompleteData { context: "padding", needed: 3, available: 2 }
    );
}

#[test]
fn sequence_runs_out_of_arguments() {
    let v = vec![Scalar::U16(1), Scalar::U16(2), Scalar::U16(3)];
    let args = VecArgsBuilder::new().count(2).arg(None).finish();
    let mut w = Writer::new();
    let err = encode_seq(&mut w, &v, ElemType::Plain(Prim::U16), little(), &args, "Vec").unwrap_err();
    assert_eq!(err, EncodeError::InvalidArgument("Vec", "not enough arguments"));
    assert_eq!(w.into_bytes(), vec![1, 0, 2, 0]);
}

#[test]
fn sequence_decodes_each_element() {
    let mut r = Reader::new(vec![1, 0, 0, 2, 9]);
    let args = VecArgs { element_args: ElementArgs::List(vec![Some(Endian::Little), Some(Endian::Big)]) };
    let v = decode_seq(&mut r, ElemType::Plain(Prim::U16), EndianContext::NotApplicable(NoEndian), &args).unwrap();
    assert_eq!(v, vec![Scalar::U16(1), Scalar::U16(2)]);
    assert_eq!(r.remaining(), 1);
    let mut short = Reader::new(vec![1, 0, 0]);
    let err = decode_seq(&mut short, ElemType::Le(Prim::U16), little(), &args).unwrap_err();
    assert!(matches!(err, DecodeError::IncompleteData { .. }));
}

#[test]
fn builders_finish_with_their_arguments() {
    let b = VecArgsBuilder::new().count(3).arg(42_u32);
    assert!(b.ready());
    match b.finish().element_args {
        ElementArgs::List(v) => assert_eq!(v, vec![42, 42, 42]),
        ElementArgs::Repeat(_) => panic!("expected a list"),
    }
    let mapped = VecArgsBuilder::new().args(vec![1_u32, 2, 3]).map_arg(|x: u32| x + 4);
    match mapped.finish().element_args {
        ElementArgs::List(v) => assert_eq!(v, vec![5, 6, 7]),
        ElementArgs::Repeat(_) => panic!("expected a list"),
    }
    assert!(!VecArgsBuilder::new().ready());
    assert!(!StrArgsBuilder::new().ready());
    assert_eq!(StrArgsBuilder::new().count(42).finish(), StrArgs { count: 42 });
    assert_eq!(EndianBuilder::new().inherit_endian(Endian::Big).finish(), Endian::Big);
    assert_eq!(EndianBuilder::new().endian(Endian::Little).inherit_endian(Endian::Big).finish(), Endian::Little);
}

#[test]
fn unset_count_fails_at_compile() {
    let schema = Schema {
        entries: vec![field(
            "xs",
            FieldKind::Persistent,
            FieldType::Sequence(ElemType::Le(Prim::U8)),
            vec![],
        )],
        options: vec![],
    };
    assert_eq!(schema.compile().unwrap_err(), SchemaError::MissingArgument(0));
}

#[test]
fn schema_errors() {
    let dup = Schema {
        entries: vec![field(
            "x",
            FieldKind::Persistent,
            FieldType::Plain(Prim::U8),
            vec![FieldOption::Endian(EndianOption::Little), FieldOption::Endian(EndianOption::Big)],
        )],
        options: vec![],
    };
    assert_eq!(dup.compile().unwrap_err(), SchemaError::DuplicateOption(0));
    let missing_encode = Schema {
        entries: vec![
            field("temporary", FieldKind::Temporary, FieldType::Plain(Prim::U32), vec![]),
            field(
                "field",
                FieldKind::Persistent,
                FieldType::Plain(Prim::U32),
                vec![FieldOption::Decode(Expr::Get(0))],
            ),
        ],
        options: vec![RecordOption::Endian(EndianOption::Little)],
    };
    assert_eq!(missing_encode.compile().unwrap_err(), SchemaError::MissingEncode(0));
    let superfluous = |opt: EndianOption| Schema {
        entries: vec![field("x", FieldKind::Persistent, FieldType::Unit, vec![FieldOption::Endian(opt)])],
        options: vec![RecordOption::Endian(EndianOption::Inherit)],
    };
    assert_eq!(superfluous(EndianOption::Little).compile().unwrap_err(), SchemaError::EndianMismatch(0));
    assert_eq!(superfluous(EndianOption::Big).compile().unwrap_err(), SchemaError::EndianMismatch(0));
    assert_eq!(superfluous(EndianOption::Inherit).compile().unwrap_err(), SchemaError::EndianMismatch(0));
    assert!(superfluous(EndianOption::NotApplicable).compile().is_ok());
    let no_endian = Schema {
        entries: vec![field("x", FieldKind::Persistent, FieldType::Plain(Prim::U32), vec![])],
        options: vec![],
    };
    assert_eq!(no_endian.compile().unwrap_err(), SchemaError::EndianMismatch(0));
    let bad_setter = Schema {
        entries: vec![field(
            "x",
            FieldKind::Persistent,
            FieldType::Plain(Prim::U8),
            vec![
                FieldOption::Endian(EndianOption::Little),
                FieldOption::Args(Direction::Both, vec![Setter::Count(CountExpr::Literal(1))]),
            ],
        )],
        options: vec![],
    };
    assert_eq!(bad_setter.compile().unwrap_err(), SchemaError::InvalidSetter(0));
    let decl = Schema { entries: vec![], options: vec![RecordOption::ArgsDecl(Direction::Decode)] };
    assert_eq!(decl.compile().unwrap_err(), SchemaError::ArgsDeclUnsupported);
}

#[test]
fn temporary_of_wrong_type_fails_on_encode() {
    let plan = Schema {
        entries: vec![
            field("text", FieldKind::Persistent, FieldType::Text, vec![FieldOption::Args(Direction::Decode, vec![Setter::Count(CountExpr::Literal(2))])]),
            field(
                "temporary",
                FieldKind::Temporary,
                FieldType::Plain(Prim::U32),
                vec![FieldOption::Encode(Expr::Get(0))],
            ),
        ],
        options: vec![RecordOption::Endian(EndianOption::Little)],
    }
    .compile()
    .unwrap();
    let mut w = Writer::new();
    let err = plan.encode(&vec![Value::Text("hi".to_string())], &mut w).unwrap_err();
    assert!(matches!(err, EncodeError::InvalidArgument(..)));
}

fn scenario_plan() -> Plan {
    Schema {
        entries: vec![
            field(
                "a",
                FieldKind::Persistent,
                FieldType::Plain(Prim::I64),
                vec![FieldOption::Endian(EndianOption::Big)],
            ),
            field("b", FieldKind::Persistent, FieldType::Plain(Prim::U8), vec![]),
            field(
                "c",
                FieldKind::Persistent,
                FieldType::Plain(Prim::U32),
                vec![FieldOption::Endian(EndianOption::Inherit)],
            ),
            Entry::Directive(Directive::Pad(3)),
            field(
                "len",
                FieldKind::Temporary,
                FieldType::Plain(Prim::U8),
                vec![FieldOption::Encode(Expr::Len(5, Prim::U8))],
            ),
            field(
                "items",
                FieldKind::Persistent,
                FieldType::Sequence(ElemType::Plain(Prim::U8)),
                vec![FieldOption::Args(Direction::Decode, vec![Setter::Count(CountExpr::Field(4))])],
            ),
        ],
        options: vec![RecordOption::Endian(EndianOption::Little)],
    }
    .compile()
    .unwrap()
}

#[test]
fn end_to_end_scenario() {
    let input = vec![
        0x11, 0x22, 0x33, 0x44, 0x55, 0x66, 0x77, 0x88, 0x2A, 0xEF, 0xBE, 0xAD, 0xDE, 0x0A, 0x14, 0x1E, 0x03,
        0x01, 0x02, 0x03,
    ];
    let plan = scenario_plan();
    let record = plan.decode_exact(input.clone()).unwrap();
    assert_eq!(
        record,
        vec![
            Value::Scalar(Scalar::I64(0x1122334455667788)),
            Value::Scalar(Scalar::U8(42)),
            Value::Scalar(Scalar::U32(0xDEADBEEF)),
            Value::Sequence(vec![Scalar::U8(1), Scalar::U8(2), Scalar::U8(3)]),
        ]
    );
    let mut w = Writer::new();
    plan.encode(&record, &mut w).unwrap();
    let mut expected = input;
    expected[13] = 0;
    expected[14] = 0;
    expected[15] = 0;
    assert_eq!(w.into_bytes(), expected);
}

#[test]
fn round_trip_on_values() {
    let plan = scenario_plan();
    let record = vec![
        Value::Scalar(Scalar::I64(-5)),
        Value::Scalar(Scalar::U8(0)),
        Value::Scalar(Scalar::U32(7)),
        Value::Sequence(vec![Scalar::U8(9); 4]),
    ];
    let mut w = Writer::new();
    plan.encode(&record, &mut w).unwrap();
    assert_eq!(plan.decode_exact(w.into_bytes()).unwrap(), record);
}

#[test]
fn trailing_bytes_are_reported() {
    let plan = scenario_plan();
    let input = vec![0u8; 17];
    let mut longer = input.clone();
    longer.push(0xAB);
    assert_eq!(plan.decode_exact(longer).unwrap_err(), DecodeError::SuperfluousBytes(vec![0xAB]));
    assert!(matches!(plan.decode_exact(vec![0u8; 5]).unwrap_err(), DecodeError::IncompleteData { .. }));
}

#[test]
fn text_decodes_and_reports_invalid_utf8() {
    let mut r = Reader::new("héllo!".as_bytes().to_vec());
    assert_eq!(decode_text(&mut r, StrArgs { count: 6 }).unwrap(), "héllo".to_string());
    assert_eq!(r.remaining(), 1);
    let mut bad = Reader::new(vec![0x61, 0xFF, 0x62]);
    assert_eq!(
        decode_text(&mut bad, StrArgs { count: 3 }).unwrap_err(),
        DecodeError::DecodeUtf8Error { valid_prefix: "a".to_string(), invalid_bytes: vec![0xFF] }
    );
}

#[test]
fn text_field_round_trip() {
    let plan = Schema {
        entries: vec![
            field(
                "n",
                FieldKind::Temporary,
                FieldType::Be(Prim::U16),
                vec![FieldOption::Encode(Expr::Len(1, Prim::U16))],
            ),
            field(
                "name",
                FieldKind::Persistent,
                FieldType::Text,
                vec![FieldOption::Args(Direction::Decode, vec![Setter::Count(CountExpr::Field(0))])],
            ),
        ],
        options: vec![],
    }
    .compile()
    .unwrap();
    let record = vec![Value::Text("añb".to_string())];
    let mut w = Writer::new();
    plan.encode(&record, &mut w).unwrap();
    let bytes = w.into_bytes();
    assert_eq!(bytes, vec![0, 4, 0x61, 0xC3, 0xB1, 0x62]);
    assert_eq!(plan.decode_exact(bytes).unwrap(), record);
}

#[test]
fn scoped_record_takes_caller_endian() {
    let plan = Schema {
        entries: vec![field("x", FieldKind::Persistent, FieldType::Plain(Prim::U32), vec![])],
        options: vec![RecordOption::Endian(EndianOption::Inherit)],
    }
    .compile()
    .unwrap();
    let mut w = Writer::new();
    plan.encode_with(&vec![Value::Scalar(Scalar::U32(1))], &mut w, Endian::Big.into_context()).unwrap();
    assert_eq!(w.into_bytes(), vec![0, 0, 0, 1]);
    let mut r = Reader::new(vec![1, 0, 0, 0]);
    assert_eq!(plan.decode_with(&mut r, little()).unwrap(), vec![Value::Scalar(Scalar::U32(1))]);
}

#[test]
fn slice_view_projects_and_encodes() {
    let data = [(1_u32, 10_u8), (2, 20)];
    let view = SliceView::new(&data, |p: &(u32, u8)| Scalar::U32(p.0));
    assert_eq!(view.project(), vec![Scalar::U32(1), Scalar::U32(2)]);
    let mut w = Writer::new();
    let args = VecArgsBuilder::repeat_unit().arg(None).finish();
    view.encode_with(&mut w, ElemType::Plain(Prim::U32), little(), &args).unwrap();
    assert_eq!(w.into_bytes(), vec![1, 0, 0, 0, 2, 0, 0, 0]);
}

#[test]
fn direction_dispatch_selects_lists() {
    let mut enc = Vec::new();
    let mut dec = Vec::new();
    Direction::Decode.dispatch(&mut enc, &mut dec, &vec![Setter::Arg(Endian::Big)]);
    assert_eq!(enc.len(), 0);
    assert_eq!(dec, vec![Setter::Arg(Endian::Big)]);
    Direction::Both.dispatch(&mut enc, &mut dec, &vec![Setter::Count(CountExpr::Literal(1))]);
    assert_eq!(enc, vec![Setter::Count(CountExpr::Literal(1))]);
    assert_eq!(dec.len(), 2);
}

#[test]
fn mapped_sequence_transforms_elements() {
    let args = VecArgsBuilder::new().count(3).arg(None).map(|s: Scalar| s.to_bits() * 2).finish();
    let mut r = Reader::new(vec![1, 2, 3, 4]);
    let out = decode_seq_mapped(&mut r, ElemType::Le(Prim::U8), little(), &args).unwrap();
    assert_eq!(out, vec![2, 4, 6]);
    assert_eq!(r.remaining(), 1);
}

#[test]
fn more_schema_errors() {
    let encode_on_field = Schema {
        entries: vec![field(
            "x",
            FieldKind::Persistent,
            FieldType::Unit,
            vec![FieldOption::Encode(Expr::Get(0))],
        )],
        options: vec![],
    };
    assert_eq!(encode_on_field.compile().unwrap_err(), SchemaError::EncodeOnField(0));
    let no_codec = Schema {
        entries: vec![field("p", FieldKind::Persistent, FieldType::Pairs(Prim::U8, Prim::U8), vec![])],
        options: vec![],
    };
    assert_eq!(no_codec.compile().unwrap_err(), SchemaError::NoCodec(0));
    let twice = Schema {
        entries: vec![],
        options: vec![RecordOption::Endian(EndianOption::Little), RecordOption::Endian(EndianOption::Big)],
    };
    assert_eq!(twice.compile().unwrap_err(), SchemaError::DuplicateRecordOption);
    let args_twice = Schema {
        entries: vec![field(
            "xs",
            FieldKind::Persistent,
            FieldType::Sequence(ElemType::Le(Prim::U8)),
            vec![
                FieldOption::Args(Direction::Both, vec![Setter::Args(vec![None])]),
                FieldOption::Args(Direction::Decode, vec![Setter::Count(CountExpr::Literal(1))]),
            ],
        )],
        options: vec![],
    };
    assert_eq!(args_twice.compile().unwrap_err(), SchemaError::DuplicateOption(0));
}

#[test]
fn decode_override_of_wrong_type_is_invalid() {
    let plan = Schema {
        entries: vec![
            field("a", FieldKind::Persistent, FieldType::Be(Prim::U16), vec![]),
            field(
                "b",
                FieldKind::Persistent,
                FieldType::Plain(Prim::U32),
                vec![FieldOption::Decode(Expr::Get(0))],
            ),
        ],
        options: vec![RecordOption::Endian(EndianOption::Little)],
    }
    .compile()
    .unwrap();
    assert_eq!(plan.decode_exact(vec![0, 1]).unwrap_err(), DecodeError::InvalidData("override"));
}

#[test]
fn listed_arguments_fix_each_element() {
    let plan = Schema {
        entries: vec![field(
            "xs",
            FieldKind::Persistent,
            FieldType::Sequence(ElemType::Plain(Prim::U16)),
            vec![FieldOption::Args(
                Direction::Both,
                vec![Setter::Args(vec![Some(Endian::Little), Some(Endian::Big)])],
            )],
        )],
        options: vec![RecordOption::Endian(EndianOption::Big)],
    }
    .compile()
    .unwrap();
    let record = vec![Value::Sequence(vec![Scalar::U16(1), Scalar::U16(2)])];
    let mut w = Writer::new();
    plan.encode(&record, &mut w).unwrap();
    let bytes = w.into_bytes();
    assert_eq!(bytes, vec![1, 0, 0, 2]);
    assert_eq!(plan.decode_exact(bytes).unwrap(), record);
    let longer = vec![Value::Sequence(vec![Scalar::U16(1), Scalar::U16(2), Scalar::U16(3)])];
    let mut w = Writer::new();
    assert_eq!(
        plan.encode(&longer, &mut w).unwrap_err(),
        EncodeError::InvalidArgument("Vec", "not enough arguments")
    );
    assert_eq!(w.into_bytes(), vec![1, 0, 0, 2]);
}

#[test]
fn text_cut_inside_a_character_keeps_its_bytes() {
    let mut r = Reader::new(vec![0x61, 0xC3]);
    assert_eq!(
        decode_text(&mut r, StrArgs { count: 2 }).unwrap_err(),
        DecodeError::DecodeUtf8Error { valid_prefix: "a".to_string(), invalid_bytes: vec![0xC3] }
    );
    let mut r = Reader::new(vec![0xE2, 0x82]);
    assert_eq!(
        decode_text(&mut r, StrArgs { count: 2 }).unwrap_err(),
        DecodeError::DecodeUtf8Error { valid_prefix: String::new(), invalid_bytes: vec![0xE2, 0x82] }
    );
}

#[test]
fn failing_element_reports_its_error() {
    let mut r = Reader::new(vec![1, 0, 2]);
    let args = VecArgsBuilder::new().count(2).arg(None).finish();
    let err = decode_seq(&mut r, ElemType::Plain(Prim::U16), little(), &args).unwrap_err();
    assert_eq!(err, DecodeError::IncompleteData { context: "u16", needed: 2, available: 1 });
    assert_eq!(r.remaining(), 1);
}

#[test]
fn magic_mismatch_in_a_record() {
    let plan = Schema {
        entries: vec![Entry::Directive(Directive::Magic(vec![0xCA, 0xFE]))],
        options: vec![],
    }
    .compile()
    .unwrap();
    assert_eq!(
        plan.decode_exact(vec![0xCA, 0xFF]).unwrap_err(),
        DecodeError::MagicMismatch { real_bytes: vec![0xCA, 0xFF], expected_magic: vec![0xCA, 0xFE] }
    );
}

#[test]
fn borrowing_view_projects_and_encodes() {
    let data = [(Scalar::U16(7), 'a'), (Scalar::U16(9), 'b')];
    let view = SliceViewRef::new(&data, |p: &(Scalar, char)| &p.0);
    assert_eq!(view.project(), vec![Scalar::U16(7), Scalar::U16(9)]);
    let mut w = Writer::new();
    let args = VecArgsBuilder::new().args(vec![None::<Endian>]).finish();
    let err = view.encode_with(&mut w, ElemType::Be(Prim::U16), little(), &args).unwrap_err();
    assert_eq!(err, EncodeError::InvalidArgument("SliceViewRef", "not enough arguments"));
    assert_eq!(w.into_bytes(), vec![0, 7]);
}

#[test]
fn borrowing_view_of_texts() {
    let data = [(1_i32, "one"), (2_i32, "two")];
    let strings = SliceViewRef::of_texts(&data, |p: &(i32, &'static str)| p.1);
    let mut w = Writer::new();
    strings.encode_texts(&mut w);
    assert_eq!(w.into_bytes(), "onetwo".as_bytes().to_vec());
}

#[test]
fn utf8_error_span_has_std_length() {
    let mut r = Reader::new(vec![0x61, 0xE2, 0x28, 0xA1]);
    assert_eq!(
        decode_text(&mut r, StrArgs { count: 4 }).unwrap_err(),
        DecodeError::DecodeUtf8Error { valid_prefix: "a".to_string(), invalid_bytes: vec![0xE2] }
    );
}
