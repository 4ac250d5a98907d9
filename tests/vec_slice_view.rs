use bin_data::codec::ElemType;
use bin_data::plain::{Prim, Scalar};
use bin_data::record::{CountExpr, FieldKind, Plan};
use bin_data::schema::{Direction, EndianOption, Entry, FieldDecl, FieldOption, RecordOption, Schema, Setter};
use bin_data::args::{ArgsBuilderFinished, VecArgsBuilder};
use bin_data::stream::{Reader, Writer};
use bin_data::view::SliceView;
use bin_data::value::{Expr, FieldType, Value};
use bin_data::{Endian, EndianContext, NoEndian};

fn field(name: &str, kind: FieldKind, ty: FieldType, options: Vec<FieldOption>) -> Entry {
    Entry::Field(FieldDecl { name: name.to_string(), kind, ty, options })
}

fn seq_options(project: Expr) -> Vec<FieldOption> {
    vec![
        FieldOption::Args(
            Direction::Decode,
            vec![Setter::Count(CountExpr::Field(0)), Setter::Arg(Endian::Little)],
        ),
        FieldOption::Args(Direction::Encode, vec![Setter::Arg(Endian::Little)]),
        FieldOption::Encode(project),
    ]
}

// A length, then the first and the second components of the pairs, each as
// its own sequence; the pairs are zipped back together on decode.
fn test_plan() -> Plan {
    let schema = Schema {
        entries: vec![
            field(
                "length",
                FieldKind::Temporary,
                FieldType::Plain(Prim::U32),
                vec![FieldOption::Encode(Expr::Len(3, Prim::U32))],
            ),
            field(
                "xs",
                FieldKind::Temporary,
                FieldType::Sequence(ElemType::Plain(Prim::U8)),
                seq_options(Expr::Firsts(3)),
            ),
            field(
                "ys",
                FieldKind::Temporary,
                FieldType::Sequence(ElemType::Plain(Prim::U16)),
                seq_options(Expr::Seconds(3)),
            ),
            field(
                "values",
                FieldKind::Persistent,
                FieldType::Pairs(Prim::U8, Prim::U16),
                vec![FieldOption::Decode(Expr::Zip(1, 2))],
            ),
        ],
        options: vec![RecordOption::Endian(EndianOption::Little)],
    };
    schema.compile().unwrap()
}

fn example() -> Vec<Value> {
    vec![Value::Pairs(vec![
        (Scalar::U8(1), Scalar::U16(10)),
        (Scalar::U8(2), Scalar::U16(20)),
        (Scalar::U8(3), Scalar::U16(30)),
    ])]
}

#[test]
fn vec_slice_view_test_decode() {
    let input = vec![
        3, 0, 0, 0, // length
        1, 2, 3, // xs
        10, 0, 20, 0, 30, 0, // ys
    ];
    let expected = example();
    let mut reader = Reader::new(input);
    let decoded = test_plan().decode(&mut reader).unwrap();
    assert_eq!(decoded, expected);
}

#[test]
fn vec_slice_view_test_encode() {
    let mut output = Writer::new();
    test_plan().encode(&example(), &mut output).unwrap();
    let expected = [
        3, 0, 0, 0, // length
        1, 2, 3, // xs
        10, 0, 20, 0, 30, 0, // ys
    ];
    assert_eq!(output.into_bytes(), expected);
    // The same sequences, encoded through views of the pairs.
    let pairs = [(Scalar::U8(1), Scalar::U16(10)), (Scalar::U8(2), Scalar::U16(20)), (Scalar::U8(3), Scalar::U16(30))];
    let args = VecArgsBuilder::repeat_unit().arg(Some(Endian::Little)).finish();
    let ctx = EndianContext::NotApplicable(NoEndian);
    let mut views = Writer::new();
    SliceView::new(&pairs, |p: &(Scalar, Scalar)| p.0)
        .encode_with(&mut views, ElemType::Plain(Prim::U8), ctx, &args)
        .unwrap();
    SliceView::new(&pairs, |p: &(Scalar, Scalar)| p.1)
        .encode_with(&mut views, ElemType::Plain(Prim::U16), ctx, &args)
        .unwrap();
    assert_eq!(views.into_bytes(), expected[4..].to_vec());
}
