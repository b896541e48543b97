//! Changes to schemas, with and without column mapping.
use std::collections::HashSet;

use schema_evolution::column_mapping::{find_max_column_id_in_schema, ColumnMappingMode};
use schema_evolution::column_name::ColumnName;
use schema_evolution::error::Error;
use schema_evolution::evolution::{apply_schema_operations, SchemaOperation};
use schema_evolution::schema::{
    ArrayType, ColumnMetadataKey, DataType, MapType, MetadataColumnSpec, MetadataValue,
    PrimitiveType, StructField, StructType,
};

fn string() -> DataType {
    DataType::Primitive(PrimitiveType::String)
}

fn integer() -> DataType {
    DataType::Primitive(PrimitiveType::Integer)
}

fn array_of(element_type: DataType) -> DataType {
    DataType::Array(Box::new(ArrayType {
        element_type,
        contains_null: true,
    }))
}

fn map_of(key_type: DataType, value_type: DataType) -> DataType {
    DataType::MapOf(Box::new(MapType {
        key_type,
        value_type,
        value_contains_null: true,
    }))
}

fn schema(fields: Vec<StructField>) -> StructType {
    StructType::try_new(fields).unwrap()
}

fn struct_of(fields: Vec<StructField>) -> DataType {
    DataType::from(schema(fields))
}

fn column_name(path: &str) -> ColumnName {
    ColumnName::new(path.split('.').map(|name| name.to_string()).collect())
}

fn root() -> ColumnName {
    ColumnName::new(Vec::new())
}

fn simple_schema() -> StructType {
    schema(vec![
        StructField::not_null("id", integer()),
        StructField::nullable("name", string()),
    ])
}

fn add_col(name: &str, nullable: bool) -> SchemaOperation {
    let field = if nullable {
        StructField::nullable(name, string())
    } else {
        StructField::not_null(name, string())
    };
    SchemaOperation::add_column(field, root())
}

fn add_struct_with_nested_leaf(name: &str, leaf_name: &str) -> SchemaOperation {
    let inner = struct_of(vec![StructField::nullable(leaf_name, string())]);
    SchemaOperation::add_column(StructField::nullable(name, inner), root())
}

fn nested_schema() -> StructType {
    schema(vec![
        StructField::not_null("id", integer()),
        StructField::nullable(
            "address",
            struct_of(vec![
                StructField::not_null("city", string()),
                StructField::nullable("zip", string()),
            ]),
        ),
    ])
}

fn deeply_nested_required_schema() -> StructType {
    schema(vec![
        StructField::not_null("id", integer()),
        StructField::nullable(
            "address",
            struct_of(vec![StructField::nullable(
                "location",
                struct_of(vec![StructField::not_null("zipcode", string())]),
            )]),
        ),
    ])
}

fn struct_with_existing_field() -> DataType {
    struct_of(vec![StructField::nullable("existing", string())])
}

fn nested_struct_at<'a>(mut data_type: &'a DataType, path: &[String]) -> &'a StructType {
    for segment in path {
        data_type = match (segment.as_str(), data_type) {
            ("element", DataType::Array(array)) => &array.element_type,
            ("key", DataType::MapOf(map)) => &map.key_type,
            ("value", DataType::MapOf(map)) => &map.value_type,
            (segment, data_type) => {
                panic!("path segment {segment:?} does not match {data_type:?}")
            }
        };
    }
    match data_type {
        DataType::Struct(parent) => parent,
        _ => panic!("path does not resolve to a struct"),
    }
}

fn field_at_path<'a>(schema: &'a StructType, path: &[String]) -> &'a StructField {
    let position = schema.position(&path[0]).expect("field should exist");
    let field = &schema.fields()[position];
    if path.len() == 1 {
        return field;
    }
    match field.data_type() {
        DataType::Struct(inner) => field_at_path(inner, &path[1..]),
        other => panic!("Expected Struct, got: {other:?}"),
    }
}

fn field_names(schema: &StructType) -> Vec<&str> {
    schema.fields().iter().map(|f| f.name().as_str()).collect()
}

fn get_cm_id(field: &StructField) -> i64 {
    field
        .column_mapping_id()
        .expect("field should have column mapping ID")
}

fn get_physical_name(field: &StructField) -> String {
    match field
        .get_config_value(&ColumnMetadataKey::ColumnMappingPhysicalName)
        .expect("field should have physical name")
    {
        MetadataValue::String(s) => s.clone(),
        other => panic!("expected String, got {other:?}"),
    }
}

fn rejects(schema: StructType, ops: Vec<SchemaOperation>, error_contains: &str) {
    let err = apply_schema_operations(schema, ops, ColumnMappingMode::NoMapping, None).unwrap_err();
    assert!(
        err.to_string().contains(error_contains),
        "expected error to contain '{error_contains}', got: {err:?}"
    );
}

#[test]
fn rejects_dup_exact() {
    rejects(simple_schema(), vec![add_col("name", true)], "already exists");
}

#[test]
fn rejects_dup_case_insensitive() {
    rejects(simple_schema(), vec![add_col("Name", true)], "already exists");
}

#[test]
fn rejects_dup_within_batch() {
    rejects(
        simple_schema(),
        vec![add_col("email", true), add_col("email", true)],
        "already exists",
    );
}

#[test]
fn rejects_dup_nested_sibling() {
    let field = StructField::nullable("city", string());
    rejects(
        nested_schema(),
        vec![SchemaOperation::add_column(field, column_name("address"))],
        "already exists",
    );
}

#[test]
fn rejects_non_nullable() {
    rejects(simple_schema(), vec![add_col("age", false)], "non-nullable");
}

#[test]
fn rejects_invalid_parquet_char() {
    rejects(simple_schema(), vec![add_col("foo,bar", true)], "invalid character");
}

#[test]
fn rejects_nested_invalid_parquet_char() {
    rejects(
        simple_schema(),
        vec![add_struct_with_nested_leaf("addr", "bad,leaf")],
        "invalid character",
    );
}

#[test]
fn rejects_metadata_column() {
    let field = StructField::create_metadata_column("row_idx", MetadataColumnSpec::RowIndex);
    rejects(
        simple_schema(),
        vec![SchemaOperation::add_column(field, root())],
        "metadata columns are not allowed",
    );
}

#[test]
fn rejects_missing_add_parent() {
    let field = StructField::nullable("added", string());
    rejects(
        simple_schema(),
        vec![SchemaOperation::add_column(field, column_name("missing"))],
        "does not exist",
    );
}

#[test]
fn rejects_mismatched_path_segment() {
    let field = StructField::nullable("x", string());
    rejects(
        nested_schema(),
        vec![SchemaOperation::add_column(field, column_name("id.element"))],
        "does not match",
    );
}

fn succeeds(ops: Vec<SchemaOperation>, expected_names: &[&str]) {
    let result =
        apply_schema_operations(simple_schema(), ops, ColumnMappingMode::NoMapping, None).unwrap();
    assert_eq!(field_names(&result.schema), expected_names);
}

#[test]
fn adds_a_single_column() {
    succeeds(vec![add_col("email", true)], &["id", "name", "email"]);
}

#[test]
fn adds_multiple_columns() {
    succeeds(
        vec![add_col("email", true), add_col("age", true)],
        &["id", "name", "email", "age"],
    );
}

fn add_column_at_traverses(parent_type: DataType, container_path: ColumnName) {
    let schema = schema(vec![StructField::nullable("container", parent_type)]);
    let path = column_name("container").join(&container_path);
    let operation = SchemaOperation::add_column(StructField::nullable("added", integer()), path);

    let result =
        apply_schema_operations(schema, vec![operation], ColumnMappingMode::NoMapping, None)
            .unwrap();
    let container = result.schema.field("container").unwrap();
    let parent = nested_struct_at(container.data_type(), container_path.path());

    assert!(parent.field("existing").is_some());
    assert_eq!(
        parent.field("added"),
        Some(&StructField::nullable("added", integer()))
    );
}

#[test]
fn add_column_at_struct_parent() {
    add_column_at_traverses(struct_with_existing_field(), root());
}

#[test]
fn add_column_at_array_element() {
    add_column_at_traverses(array_of(struct_with_existing_field()), column_name("element"));
}

#[test]
fn add_column_at_map_key() {
    add_column_at_traverses(
        map_of(struct_with_existing_field(), integer()),
        column_name("key"),
    );
}

#[test]
fn add_column_at_map_value() {
    add_column_at_traverses(
        map_of(integer(), struct_with_existing_field()),
        column_name("value"),
    );
}

fn add_struct_then_nested_child(
    mode: ColumnMappingMode,
    current_max: Option<i64>,
    expected_new_max: Option<i64>,
) {
    let ops = vec![
        SchemaOperation::add_column(
            StructField::nullable("parent", struct_with_existing_field()),
            root(),
        ),
        SchemaOperation::add_column(
            StructField::nullable("child", integer()),
            column_name("parent"),
        ),
    ];
    // With CM: parent struct + existing leaf (op1) + child (op2) => three new IDs after max 10.
    let result = apply_schema_operations(simple_schema(), ops, mode, current_max).unwrap();
    let parent = result.schema.field("parent").unwrap();
    let DataType::Struct(s) = parent.data_type() else {
        panic!("Expected Struct, got: {:?}", parent.data_type());
    };
    assert!(s.field("existing").is_some());
    let child = s.field("child").expect("child added by second op");
    assert_eq!(result.new_max_column_id, expected_new_max);
    if let Some(expected_id) = expected_new_max {
        assert_eq!(get_cm_id(child), expected_id);
        assert!(get_physical_name(child).starts_with("col-"));
    } else {
        assert_eq!(child, &StructField::nullable("child", integer()));
    }
}

#[test]
fn sequential_add_struct_then_nested_child_without_cm() {
    add_struct_then_nested_child(ColumnMappingMode::NoMapping, None, None);
}

#[test]
fn sequential_add_struct_then_nested_child_with_cm() {
    add_struct_then_nested_child(ColumnMappingMode::Name, Some(10), Some(13));
}

fn set_nullable_succeeds(schema: StructType, column: ColumnName) {
    let ops = vec![SchemaOperation::set_nullable(column.clone())];
    let result = apply_schema_operations(schema, ops, ColumnMappingMode::NoMapping, None).unwrap();
    assert!(field_at_path(&result.schema, column.path()).is_nullable());
}

#[test]
fn set_nullable_on_required_field() {
    set_nullable_succeeds(simple_schema(), column_name("id"));
}

#[test]
fn set_nullable_already_nullable_is_noop() {
    set_nullable_succeeds(simple_schema(), column_name("name"));
    let ops = vec![SchemaOperation::set_nullable(column_name("name"))];
    let result =
        apply_schema_operations(simple_schema(), ops, ColumnMappingMode::NoMapping, None).unwrap();
    assert_eq!(*result.schema, simple_schema());
}

#[test]
fn set_nullable_case_insensitive() {
    set_nullable_succeeds(simple_schema(), column_name("ID"));
}

#[test]
fn set_nullable_deeply_nested_field() {
    set_nullable_succeeds(
        deeply_nested_required_schema(),
        column_name("address.location.zipcode"),
    );
}

fn set_nullable_fails(column: ColumnName, error_contains: &str) {
    let ops = vec![SchemaOperation::set_nullable(column)];
    let err = apply_schema_operations(simple_schema(), ops, ColumnMappingMode::NoMapping, None)
        .unwrap_err();
    assert!(
        err.to_string().contains(error_contains),
        "expected error to contain '{error_contains}', got: {err:?}"
    );
}

#[test]
fn set_nullable_fails_on_nonexistent_column() {
    set_nullable_fails(column_name("nonexistent"), "does not exist");
}

#[test]
fn set_nullable_fails_through_non_struct() {
    set_nullable_fails(column_name("name.inner"), "not a struct");
}

#[test]
fn set_nullable_fails_on_empty_path() {
    set_nullable_fails(root(), "empty column path");
}

#[test]
fn set_nullable_preserves_untouched_fields_and_order() {
    let schema = StructType::try_new(vec![
        StructField::not_null("alpha", integer()),
        StructField::nullable(
            "address",
            struct_of(vec![
                StructField::not_null("city", string()),
                StructField::nullable("zip", string()),
            ]),
        ),
        StructField::not_null("gamma", string()),
    ])
    .unwrap();
    let ops = vec![SchemaOperation::set_nullable(column_name("address.city"))];
    let result = apply_schema_operations(schema, ops, ColumnMappingMode::NoMapping, None).unwrap();

    let names: Vec<&str> = field_names(&result.schema);
    assert_eq!(names, vec!["alpha", "address", "gamma"]);
    assert!(!result.schema.field("alpha").unwrap().is_nullable());
    assert!(!result.schema.field("gamma").unwrap().is_nullable());

    let addr = result.schema.field("address").unwrap();
    assert!(addr.is_nullable());
    let DataType::Struct(s) = addr.data_type() else {
        panic!("Expected Struct, got: {:?}", addr.data_type());
    };
    assert!(s.field("city").unwrap().is_nullable());
    assert!(s.field("zip").unwrap().is_nullable());
}

#[test]
fn set_nullable_on_struct_itself_preserves_inner_fields() {
    let schema = schema(vec![StructField::not_null(
        "address",
        struct_of(vec![StructField::not_null("city", string())]),
    )]);
    let ops = vec![SchemaOperation::set_nullable(column_name("address"))];
    let result = apply_schema_operations(schema, ops, ColumnMappingMode::NoMapping, None).unwrap();
    let addr = result.schema.field("address").unwrap();
    assert!(addr.is_nullable(), "struct itself must be nullable");
    let DataType::Struct(s) = addr.data_type() else {
        panic!("Expected Struct, got: {:?}", addr.data_type());
    };
    assert!(
        !s.field("city").unwrap().is_nullable(),
        "inner field must remain NOT NULL"
    );
}

#[test]
fn chain_add_and_set_nullable_applies_both() {
    let ops = vec![
        add_col("email", true),
        SchemaOperation::set_nullable(column_name("id")),
    ];
    let result =
        apply_schema_operations(simple_schema(), ops, ColumnMappingMode::NoMapping, None).unwrap();
    assert_eq!(result.schema.fields().iter().count(), 3);
    assert!(result.schema.field("email").is_some());
    assert!(result.schema.field("id").unwrap().is_nullable());
}

#[test]
fn set_nullable_nested_preserves_top_level_order() {
    let schema = schema(vec![
        StructField::not_null("alpha", integer()),
        StructField::nullable(
            "beta",
            struct_of(vec![StructField::not_null("nested", string())]),
        ),
        StructField::not_null("gamma", string()),
    ]);
    let ops = vec![SchemaOperation::set_nullable(column_name("beta.nested"))];
    let result = apply_schema_operations(schema, ops, ColumnMappingMode::NoMapping, None).unwrap();
    let names: Vec<&String> = result.schema.fields().iter().map(|f| f.name()).collect();
    assert_eq!(names, vec!["alpha", "beta", "gamma"]);
}

// === Column mapping ===

fn assigns_id_and_physical_name(
    mode: ColumnMappingMode,
    schema: StructType,
    path: ColumnName,
    name: &str,
    current_max: i64,
    expected_id: i64,
) {
    let ops = vec![SchemaOperation::add_column(
        StructField::nullable(name, string()),
        path.clone(),
    )];
    let result = apply_schema_operations(schema, ops, mode, Some(current_max)).unwrap();

    let mut field_path = path.into_inner();
    field_path.push(name.to_string());
    let added = field_at_path(&result.schema, &field_path);

    assert_eq!(get_cm_id(added), expected_id);
    assert!(get_physical_name(added).starts_with("col-"));
    assert_eq!(result.new_max_column_id, Some(expected_id));
}

#[test]
fn name_mode_root_assigns_id_and_physical_name() {
    assigns_id_and_physical_name(
        ColumnMappingMode::Name,
        simple_schema(),
        root(),
        "email",
        2,
        3,
    );
}

#[test]
fn id_mode_root_assigns_id_and_physical_name() {
    assigns_id_and_physical_name(
        ColumnMappingMode::Id,
        simple_schema(),
        root(),
        "email",
        5,
        6,
    );
}

#[test]
fn name_mode_nested_assigns_id_and_physical_name() {
    assigns_id_and_physical_name(
        ColumnMappingMode::Name,
        nested_schema(),
        column_name("address"),
        "country",
        5,
        6,
    );
}

#[test]
fn add_column_without_max_column_id_fails_when_mapping_enabled() {
    let ops = vec![SchemaOperation::add_column(
        StructField::nullable("email", string()),
        root(),
    )];
    let err =
        apply_schema_operations(simple_schema(), ops, ColumnMappingMode::Name, None).unwrap_err();
    assert!(matches!(err, Error::InvalidProtocol(_)));
    assert!(err.to_string().contains("maxColumnId"));
}

#[test]
fn add_multiple_columns_with_column_mapping_assigns_unique_ids() {
    let ops = vec![
        SchemaOperation::add_column(StructField::nullable("a", string()), root()),
        SchemaOperation::add_column(StructField::nullable("b", string()), root()),
        SchemaOperation::add_column(StructField::nullable("c", string()), root()),
    ];
    let result =
        apply_schema_operations(simple_schema(), ops, ColumnMappingMode::Name, Some(10)).unwrap();

    let id_a = get_cm_id(result.schema.field("a").unwrap());
    let id_b = get_cm_id(result.schema.field("b").unwrap());
    let id_c = get_cm_id(result.schema.field("c").unwrap());
    assert_eq!(id_a, 11);
    assert_eq!(id_b, 12);
    assert_eq!(id_c, 13);

    let name_a = get_physical_name(result.schema.field("a").unwrap());
    let name_b = get_physical_name(result.schema.field("b").unwrap());
    let name_c = get_physical_name(result.schema.field("c").unwrap());
    assert_ne!(name_a, name_b);
    assert_ne!(name_b, name_c);
    assert_ne!(name_a, name_c);

    assert_eq!(result.new_max_column_id, Some(13));
}

fn struct_of_two_primitives() -> DataType {
    struct_of(vec![
        StructField::nullable("a", string()),
        StructField::nullable("b", string()),
    ])
}

fn assigns_ids_to_all_inner_fields(data_type: DataType, expected_id_count: usize) {
    let ops = vec![SchemaOperation::add_column(
        StructField::nullable("col", data_type),
        root(),
    )];
    let result =
        apply_schema_operations(simple_schema(), ops, ColumnMappingMode::Name, Some(10)).unwrap();

    let added = result.schema.field("col").unwrap();
    let ids = added.collect_column_mapping_ids();
    let unique: HashSet<i64> = ids.iter().copied().collect();

    assert_eq!(ids.len(), expected_id_count, "expected ID count mismatch");
    assert_eq!(unique.len(), ids.len(), "all assigned IDs must be distinct");
    assert!(
        ids.iter().all(|&id| id > 10),
        "all assigned IDs must exceed previous max"
    );
    assert_eq!(
        result.new_max_column_id,
        ids.iter().max().copied(),
        "new_max_column_id must equal the largest assigned ID",
    );
}

#[test]
fn add_nested_struct_assigns_ids_to_all_inner_fields() {
    assigns_ids_to_all_inner_fields(struct_of_two_primitives(), 3);
}

#[test]
fn add_array_of_primitive_assigns_one_id() {
    assigns_ids_to_all_inner_fields(array_of(string()), 1);
}

#[test]
fn add_map_of_primitives_assigns_one_id() {
    assigns_ids_to_all_inner_fields(map_of(string(), integer()), 1);
}

#[test]
fn add_array_of_struct_assigns_ids_to_all_inner_fields() {
    assigns_ids_to_all_inner_fields(array_of(struct_of_two_primitives()), 3);
}

#[test]
fn add_map_value_is_struct_assigns_ids_to_all_inner_fields() {
    assigns_ids_to_all_inner_fields(map_of(string(), struct_of_two_primitives()), 3);
}

#[test]
fn add_map_key_is_struct_assigns_ids_to_all_inner_fields() {
    assigns_ids_to_all_inner_fields(map_of(struct_of_two_primitives(), integer()), 3);
}

fn field_with_id_only(name: &str, ty: DataType, id: i64) -> StructField {
    let mut field = StructField::nullable(name, ty);
    field.metadata.insert(
        ColumnMetadataKey::ColumnMappingId.as_ref().to_string(),
        MetadataValue::Number(id),
    );
    field
}

fn preexisting_cm_metadata_is_preserved(field: StructField) {
    let ops = vec![SchemaOperation::add_column(field, root())];
    let result =
        apply_schema_operations(simple_schema(), ops, ColumnMappingMode::Name, Some(2)).unwrap();

    assert_eq!(find_max_column_id_in_schema(&result.schema), Some(99));
    assert_eq!(result.new_max_column_id, Some(99));
}

#[test]
fn preexisting_cm_metadata_on_top_level_is_preserved() {
    preexisting_cm_metadata_is_preserved(field_with_id_only("tainted", string(), 99));
}

#[test]
fn preexisting_cm_metadata_nested_in_struct_is_preserved() {
    preexisting_cm_metadata_is_preserved(StructField::nullable(
        "outer",
        struct_of(vec![field_with_id_only("inner", string(), 99)]),
    ));
}

#[test]
fn add_column_with_only_physical_name_allocates_id() {
    let mut field = StructField::nullable("named", string());
    field.metadata.insert(
        ColumnMetadataKey::ColumnMappingPhysicalName
            .as_ref()
            .to_string(),
        MetadataValue::String("user-supplied-name".to_string()),
    );
    let ops = vec![SchemaOperation::add_column(field, root())];
    let result =
        apply_schema_operations(simple_schema(), ops, ColumnMappingMode::Name, Some(7)).unwrap();
    let added = result.schema.field("named").unwrap();
    assert_eq!(get_cm_id(added), 8);
    assert_eq!(
        added.get_config_value(&ColumnMetadataKey::ColumnMappingPhysicalName),
        Some(&MetadataValue::String("user-supplied-name".to_string()))
    );
    assert_eq!(result.new_max_column_id, Some(8));
}

fn out_of_range_persisted_max_column_id_is_rejected(seed: i64) {
    let ops = vec![SchemaOperation::add_column(
        StructField::nullable("anything", integer()),
        root(),
    )];
    let err = apply_schema_operations(simple_schema(), ops, ColumnMappingMode::Name, Some(seed))
        .unwrap_err()
        .to_string();
    assert!(
        err.contains("Invalid column mapping id")
            && err.contains("Table property `delta.columnMapping.maxColumnId`")
            && err.contains(&seed.to_string()),
        "expected canonical out-of-range rejection naming the seed location and value, \
         got: {err}",
    );
}

#[test]
fn persisted_max_column_id_above_protocol_max_is_rejected() {
    out_of_range_persisted_max_column_id_is_rejected(i32::MAX as i64 + 1);
}

#[test]
fn persisted_max_column_id_i64_max_is_rejected() {
    out_of_range_persisted_max_column_id_is_rejected(i64::MAX);
}

#[test]
fn persisted_max_column_id_negative_is_rejected() {
    out_of_range_persisted_max_column_id_is_rejected(-1);
}

#[test]
fn add_column_with_wrong_typed_id_is_rejected() {
    let mut field = StructField::nullable("bad", string());
    field.metadata.insert(
        ColumnMetadataKey::ColumnMappingId.as_ref().to_string(),
        MetadataValue::String("not-a-number".to_string()),
    );
    let ops = vec![SchemaOperation::add_column(field, root())];
    let err = apply_schema_operations(simple_schema(), ops, ColumnMappingMode::Name, Some(2))
        .unwrap_err()
        .to_string();
    assert!(
        err.contains("non-numeric") && err.contains("delta.columnMapping.id"),
        "error should name the wrong-typed id annotation, got: {err}"
    );
}

#[test]
fn stale_max_column_id_is_self_healed_by_schema_walk() {
    let mut existing = StructField::nullable("existing", string());
    existing.metadata.insert(
        ColumnMetadataKey::ColumnMappingId.as_ref().to_string(),
        MetadataValue::Number(42),
    );
    let schema = schema(vec![existing]);
    let ops = vec![SchemaOperation::add_column(
        StructField::nullable("new", string()),
        root(),
    )];
    let result = apply_schema_operations(schema, ops, ColumnMappingMode::Name, Some(5)).unwrap();
    let new_id = get_cm_id(result.schema.field("new").unwrap());
    assert_eq!(
        new_id, 43,
        "new id must follow schema max (42), not stale property (5)"
    );
    assert_eq!(result.new_max_column_id, Some(43));
}
