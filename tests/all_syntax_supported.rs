use bin_data::plain::{Prim, Scalar};
use bin_data::record::{Directive, FieldKind, Plan};
use bin_data::schema::{EndianOption, Entry, FieldDecl, FieldOption, RecordOption, Schema};
use bin_data::stream::{Reader, Writer};
use bin_data::value::{Expr, FieldType, Value};

fn field(name: &str, kind: FieldKind, ty: FieldType, options: Vec<FieldOption>) -> Entry {
    Entry::Field(FieldDecl { name: name.to_string(), kind, ty, options })
}

// Record with little-endian default, a big-endian field, padding, a temporary
// that carries a float and a magic sequence at the end.
fn test_plan() -> Plan {
    let schema = Schema {
        entries: vec![
            field(
                "some_private_field",
                FieldKind::Persistent,
                FieldType::Plain(Prim::I64),
                vec![FieldOption::Endian(EndianOption::Big)],
            ),
            field("some_pub_field", FieldKind::Persistent, FieldType::Plain(Prim::U8), vec![]),
            field("some_fancy_visibility", FieldKind::Persistent, FieldType::Plain(Prim::U32), vec![]),
            Entry::Directive(Directive::Pad(3)),
            field(
                "temporary",
                FieldKind::Temporary,
                FieldType::Plain(Prim::F32),
                vec![FieldOption::Encode(Expr::Get(5))],
            ),
            field(
                "move_data",
                FieldKind::Persistent,
                FieldType::Plain(Prim::F32),
                vec![FieldOption::Decode(Expr::Get(4))],
            ),
            Entry::Directive(Directive::Magic(vec![0x12, 0x34, 0x56, 0x78])),
        ],
        options: vec![RecordOption::Endian(EndianOption::Little)],
    };
    schema.compile().unwrap()
}

fn example() -> Vec<Value> {
    vec![
        Value::Scalar(Scalar::I64(0x11_22_33_44_55_66_77_88)),
        Value::Scalar(Scalar::U8(42)),
        Value::Scalar(Scalar::U32(0xDEAD_BEEF)),
        Value::Scalar(Scalar::F32(std::f32::consts::PI.to_bits())),
    ]
}

#[test]
fn all_syntax_supported_test_decode() {
    let input = vec![
        0x11, 0x22, 0x33, 0x44, 0x55, 0x66, 0x77, 0x88, // local big endian
        42,
        0xEF, 0xBE, 0xAD, 0xDE, // "dead beef"
        10, 20, 30, // padding: dropped
        0xDB, 0x0F, 0x49, 0x40, // PI
        0x12, 0x34, 0x56, 0x78, // magic
    ];
    let mut reader = Reader::new(input);
    let decoded = test_plan().decode(&mut reader).unwrap();
    assert_eq!(decoded, example());
}

#[test]
fn all_syntax_supported_test_encode() {
    let mut output = Writer::new();
    test_plan().encode(&example(), &mut output).unwrap();
    let expected = [
        0x11, 0x22, 0x33, 0x44, 0x55, 0x66, 0x77, 0x88, // local big endian
        42,
        0xEF, 0xBE, 0xAD, 0xDE, // "dead beef"
        0, 0, 0, // padding: always zero
        0xDB, 0x0F, 0x49, 0x40, // PI
        0x12, 0x34, 0x56, 0x78, // magic
    ];
    assert_eq!(output.into_bytes(), expected);
}
