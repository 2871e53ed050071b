use std::collections::BTreeMap;
use std::collections::HashMap;
use std::sync::Arc;

use block_reader::errors::ErrorCode;
use block_reader::reader::BlockReader;
use block_reader::scalar::clone_scalars;
use block_reader::scalar::inner_project_field_default_values;
use block_reader::scalar::leads_to_value;
use block_reader::scalar::Scalar;
use block_reader::schema::ColumnMeta;
use block_reader::schema::ColumnNode;
use block_reader::schema::ColumnNodes;
use block_reader::schema::DataField;
use block_reader::schema::DataSchema;
use block_reader::schema::DataType;
use block_reader::schema::Field;
use block_reader::schema::Projection;
use block_reader::schema::TableField;
use block_reader::schema::TableSchema;
use block_reader::schema::TableSchemaRef;

fn memory() -> opendal::Operator {
    opendal::Operator::create(opendal::services::Memory::default()).unwrap().finish()
}

fn long() -> DataType {
    DataType::Int { bits: 64 }
}

fn pair() -> DataType {
    DataType::Tuple(vec![long(), DataType::Nullable(Box::new(DataType::String))])
}

fn table(fields: Vec<(&str, DataType)>) -> TableSchemaRef {
    Arc::new(TableSchema {
        fields: fields
            .into_iter()
            .map(|(name, data_type)| TableField { name: name.to_string(), data_type })
            .collect(),
    })
}

fn node(name: &str, data_type: DataType, leaves: Vec<(usize, u32)>) -> ColumnNode {
    ColumnNode {
        field: Field { name: name.to_string(), data_type },
        leaf_indices: leaves.iter().map(|(index, _)| *index).collect(),
        leaf_column_ids: leaves.iter().map(|(_, id)| *id).collect(),
    }
}

fn nodes() -> ColumnNodes {
    ColumnNodes {
        column_nodes: vec![node("a", long(), vec![(0, 10)]), node("b", pair(), vec![(1, 11), (2, 12)])],
    }
}

fn schema() -> TableSchemaRef {
    table(vec![("a", long()), ("b", pair())])
}

fn reader(operator: opendal::Operator) -> Arc<BlockReader<u8>> {
    BlockReader::create(
        operator,
        schema(),
        Projection::Columns(vec![0, 1]),
        schema(),
        vec![Ok(Scalar::Int(0)), Ok(Scalar::Null)],
        Ok(42),
        nodes(),
        Ok(nodes().column_nodes),
    )
    .unwrap()
}

#[test]
fn reader_of_whole_columns_has_their_defaults() {
    let reader = reader(memory());
    assert_eq!(reader.projection, Projection::Columns(vec![0, 1]));
    assert_eq!(reader.default_vals, vec![Scalar::Int(0), Scalar::Null]);
    assert_eq!(reader.parquet_schema_descriptor, 42);
    assert_eq!(reader.column_nodes, nodes());
    assert_eq!(reader.schema(), schema());
    let indices: Vec<(usize, u32)> =
        reader.project_indices.iter().map(|(index, entry)| (*index, entry.0)).collect();
    assert_eq!(indices, vec![(0, 10), (1, 11), (2, 12)]);
}

#[test]
fn reader_of_inner_columns_has_their_defaults() {
    let mut paths = BTreeMap::new();
    paths.insert(3, vec![1, 1]);
    paths.insert(1, vec![1, 0]);
    paths.insert(7, vec![0]);
    let projected = table(vec![("b:1", long()), ("b:2", DataType::String), ("a", long())]);
    let reader: Arc<BlockReader<()>> = BlockReader::create(
        memory(),
        schema(),
        Projection::InnerColumns(paths.clone()),
        projected.clone(),
        vec![
            Ok(Scalar::Int(5)),
            Ok(Scalar::Tuple(vec![Scalar::Int(6), Scalar::String(vec![7])])),
        ],
        Ok(()),
        nodes(),
        Ok(nodes().column_nodes),
    )
    .unwrap();
    assert_eq!(
        reader.default_vals,
        vec![Scalar::Int(6), Scalar::String(vec![7]), Scalar::Int(5)]
    );
    assert_eq!(reader.projection, Projection::InnerColumns(paths));
    assert_eq!(reader.schema(), projected);
}

#[test]
fn defaults_are_needed_for_projected_or_for_all_fields() {
    let projected = table(vec![("a", long())]);
    assert_eq!(
        BlockReader::<()>::schema_with_defaults(
            &Projection::Columns(vec![0]),
            &schema(),
            &projected
        ),
        projected
    );
    assert_eq!(
        BlockReader::<()>::schema_with_defaults(
            &Projection::InnerColumns(BTreeMap::new()),
            &schema(),
            &projected
        ),
        schema()
    );
}

fn create_error(
    field_defaults: Vec<Result<Scalar, ErrorCode>>,
    descriptor: Result<(), ErrorCode>,
    project_column_nodes: Result<Vec<ColumnNode>, ErrorCode>,
) -> Option<ErrorCode> {
    BlockReader::create(
        memory(),
        schema(),
        Projection::Columns(vec![0, 1]),
        schema(),
        field_defaults,
        descriptor,
        nodes(),
        project_column_nodes,
    )
    .err()
}

#[test]
fn first_failure_is_passed_on() {
    let error = |text: &str| ErrorCode::BadArguments(text.to_string());
    let defaults = vec![Ok(Scalar::Null), Ok(Scalar::Null)];
    assert_eq!(
        create_error(
            vec![Ok(Scalar::Null), Err(error("second")), Err(error("third"))],
            Err(error("descriptor")),
            Err(error("nodes")),
        ),
        Some(error("second"))
    );
    assert_eq!(
        create_error(defaults.clone(), Err(error("descriptor")), Err(error("nodes"))),
        Some(error("descriptor"))
    );
    assert_eq!(
        create_error(defaults.clone(), Ok(()), Err(error("nodes"))),
        Some(error("nodes"))
    );
    assert_eq!(create_error(defaults, Ok(()), Ok(vec![])), None);
}

#[test]
fn blocking_depends_on_the_storage() {
    let mut fs = opendal::services::Fs::default();
    fs.root("/tmp");
    let fs = opendal::Operator::create(fs).unwrap().finish();
    assert!(reader(fs).support_blocking_api());
    assert!(!reader(memory()).support_blocking_api());
}

#[test]
fn copy_of_a_reader_is_the_same() {
    let mut fs = opendal::services::Fs::default();
    fs.root("/tmp");
    let original = reader(opendal::Operator::create(fs).unwrap().finish());
    let copy: BlockReader<u8> = BlockReader::clone(&original);
    assert!(copy.support_blocking_api());
    assert_eq!(copy.projection, original.projection);
    assert_eq!(copy.projected_schema, original.projected_schema);
    assert_eq!(copy.project_indices, original.project_indices);
    assert_eq!(copy.column_nodes, original.column_nodes);
    assert_eq!(copy.parquet_schema_descriptor, 42);
    assert_eq!(copy.default_vals, original.default_vals);
}

#[test]
fn data_fields_are_those_of_the_projected_schema() {
    let expected = vec![
        DataField { name: "a".to_string(), data_type: long() },
        DataField { name: "b".to_string(), data_type: pair() },
    ];
    let reader = reader(memory());
    assert_eq!(reader.data_fields(), expected);
    assert_eq!(reader.data_schema(), DataSchema::new(expected));
}

#[test]
fn leaves_are_listed_once() {
    let columns = vec![
        node("a", long(), vec![(4, 10)]),
        node("b", pair(), vec![(1, 11), (4, 12)]),
        node("c", DataType::Date, vec![]),
    ];
    let indices = BlockReader::<()>::build_projection_indices(&columns);
    let b = Field { name: "b".to_string(), data_type: pair() };
    let mut expected = BTreeMap::new();
    expected.insert(1, (11, b.clone(), pair()));
    expected.insert(4, (12, b, pair()));
    assert_eq!(indices, expected);
}

#[test]
fn no_columns_have_no_leaves() {
    assert!(BlockReader::<()>::build_projection_indices(&[]).is_empty());
}

#[test]
fn stored_columns_are_read_in_order() {
    let mut columns_meta = HashMap::new();
    columns_meta.insert(12, ColumnMeta { offset: 4, len: 6 });
    columns_meta.insert(10, ColumnMeta { offset: 100, len: 0 });
    columns_meta.insert(99, ColumnMeta { offset: 0, len: 4 });
    assert_eq!(
        reader(memory()).column_ranges(&columns_meta),
        vec![(0, 100..100), (2, 4..10)]
    );
}

#[test]
fn unknown_columns_are_not_read() {
    assert_eq!(reader(memory()).column_ranges(&HashMap::new()), vec![]);
}

#[test]
fn column_may_end_at_the_last_offset() {
    let mut columns_meta = HashMap::new();
    columns_meta.insert(11, ColumnMeta { offset: u64::MAX - 5, len: 5 });
    assert_eq!(
        reader(memory()).column_ranges(&columns_meta),
        vec![(1, u64::MAX - 5..u64::MAX)]
    );
}

fn nested() -> Vec<Scalar> {
    vec![
        Scalar::Boolean(true),
        Scalar::Tuple(vec![
            Scalar::UInt(1),
            Scalar::Tuple(vec![Scalar::Date(-3), Scalar::Array(vec![Scalar::Float(0)])]),
        ]),
    ]
}

#[test]
fn path_leads_through_tuples() {
    let vals = nested();
    let at = |path: &[usize]| inner_project_field_default_values(&vals, path);
    assert_eq!(at(&[0]), Ok(Scalar::Boolean(true)));
    assert_eq!(at(&[1]), Ok(vals[1].clone()));
    assert_eq!(at(&[1, 0]), Ok(Scalar::UInt(1)));
    assert_eq!(at(&[1, 1, 0]), Ok(Scalar::Date(-3)));
    assert_eq!(at(&[1, 1, 1]), Ok(Scalar::Array(vec![Scalar::Float(0)])));
}

#[test]
fn empty_path_is_rejected() {
    assert_eq!(
        inner_project_field_default_values(&nested(), &[]),
        Err(ErrorCode::BadArguments("path should not be empty".to_string()))
    );
}

#[test]
fn path_into_a_plain_value_is_rejected() {
    let error = Err(ErrorCode::BadArguments(
        "Unable to get field default value by paths".to_string(),
    ));
    assert_eq!(inner_project_field_default_values(&nested(), &[0, 0]), error);
    assert_eq!(inner_project_field_default_values(&nested(), &[1, 1, 1, 0]), error);
}

#[test]
fn only_some_paths_lead_to_a_value() {
    let vals = nested();
    for path in [&[0][..], &[1], &[1, 0], &[1, 1, 1]] {
        assert!(leads_to_value(&vals, path));
    }
    for path in [&[][..], &[2], &[0, 0], &[1, 2], &[1, 1, 2], &[1, 1, 1, 0]] {
        assert!(!leads_to_value(&vals, path));
    }
}

#[test]
fn scalars_are_copied() {
    let mut vals = nested();
    vals.push(Scalar::Null);
    vals.push(Scalar::Int(i64::MIN));
    vals.push(Scalar::Decimal(i128::MAX));
    vals.push(Scalar::Timestamp(1));
    vals.push(Scalar::String(b"text".to_vec()));
    vals.push(Scalar::Variant(b"{}".to_vec()));
    assert_eq!(clone_scalars(&vals), vals);
}

#[test]
fn data_types_are_copied() {
    let types = vec![
        DataType::Null,
        DataType::Boolean,
        DataType::String,
        DataType::Int { bits: 8 },
        DataType::UInt { bits: 16 },
        DataType::Float { bits: 32 },
        DataType::Decimal { precision: 10, scale: 2 },
        DataType::Timestamp,
        DataType::Date,
        DataType::Variant,
        DataType::Array(Box::new(DataType::Nullable(Box::new(DataType::Date)))),
        pair(),
    ];
    for t in &types {
        assert_eq!(t.clone(), *t);
    }
    assert_eq!(DataType::Tuple(types).clone(), DataType::Tuple(vec![
        DataType::Null,
        DataType::Boolean,
        DataType::String,
        DataType::Int { bits: 8 },
        DataType::UInt { bits: 16 },
        DataType::Float { bits: 32 },
        DataType::Decimal { precision: 10, scale: 2 },
        DataType::Timestamp,
        DataType::Date,
        DataType::Variant,
        DataType::Array(Box::new(DataType::Nullable(Box::new(DataType::Date)))),
        pair(),
    ]));
}
