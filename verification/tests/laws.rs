//! What holds of changes as a whole, on examples.
use schema_evolution::column_mapping::{
    assign_column_mapping_info, find_max_column_id_in_schema, ColumnMappingMode,
};
use schema_evolution::column_name::ColumnName;
use schema_evolution::error::Error;
use schema_evolution::evolution::{
    apply_schema_operations, apply_schema_operations_with_names, SchemaOperation,
};
use schema_evolution::schema::{
    ArrayType, ColumnMetadataKey, DataType, MetadataValue, PrimitiveType, StructField, StructType,
};
use schema_evolution::validation::validate_schema;

fn string() -> DataType {
    DataType::Primitive(PrimitiveType::String)
}

fn array_of(element_type: DataType) -> DataType {
    DataType::Array(Box::new(ArrayType {
        element_type,
        contains_null: true,
    }))
}

fn schema(fields: Vec<StructField>) -> StructType {
    StructType::try_new(fields).unwrap()
}

fn struct_of(fields: Vec<StructField>) -> DataType {
    DataType::from(schema(fields))
}

fn path(list: &[&str]) -> ColumnName {
    ColumnName::new(list.iter().map(|name| name.to_string()).collect())
}

fn with_id(mut field: StructField, id: i64) -> StructField {
    field.metadata.insert(
        ColumnMetadataKey::ColumnMappingId.as_ref().to_string(),
        MetadataValue::Number(id),
    );
    field
}

fn sample() -> StructType {
    schema(vec![
        StructField::not_null("Id", string()),
        StructField::not_null(
            "list",
            array_of(struct_of(vec![
                StructField::not_null("x", string()),
                StructField::not_null("y", string()),
            ])),
        ),
        StructField::not_null("last", string()),
    ])
}

fn add(name: &str, at: &[&str]) -> SchemaOperation {
    SchemaOperation::add_column(StructField::nullable(name, string()), path(at))
}

fn relax(at: &[&str]) -> SchemaOperation {
    SchemaOperation::set_nullable(path(at))
}

fn evolve(schema: &StructType, ops: Vec<SchemaOperation>) -> StructType {
    let result =
        apply_schema_operations(schema.clone(), ops, ColumnMappingMode::NoMapping, None).unwrap();
    (*result.schema).clone()
}

fn outline(schema: &StructType) -> Vec<(String, bool)> {
    schema
        .all_fields()
        .iter()
        .map(|f| (f.name().clone(), f.is_nullable()))
        .collect()
}

fn physical_names(schema: &StructType) -> Vec<String> {
    schema
        .all_fields()
        .iter()
        .filter_map(|f| {
            match f.get_config_value(&ColumnMetadataKey::ColumnMappingPhysicalName) {
                Some(MetadataValue::String(name)) => Some(name.clone()),
                _ => None,
            }
        })
        .collect()
}

fn ids(schema: &StructType) -> Vec<i64> {
    schema
        .all_fields()
        .iter()
        .filter_map(|f| f.column_mapping_id())
        .collect()
}

#[test]
fn changes_compose() {
    let at_once = evolve(&sample(), vec![add("a", &[]), relax(&["a"]), relax(&["id"])]);
    let first = evolve(&sample(), vec![add("a", &[])]);
    assert_eq!(evolve(&first, vec![relax(&["a"]), relax(&["id"])]), at_once);
}

#[test]
fn one_column_becomes_nullable_and_the_rest_stays() {
    let before = outline(&sample());
    let after = outline(&evolve(&sample(), vec![relax(&["LIST", "element", "X"])]));
    let mut expected = before.clone();
    assert_eq!(expected[2], ("x".to_string(), false));
    expected[2].1 = true;
    assert_eq!(after, expected);
}

#[test]
fn making_a_column_nullable_twice_is_the_same_as_once() {
    let once = evolve(&sample(), vec![relax(&["last"])]);
    let twice = evolve(&sample(), vec![relax(&["last"]), relax(&["last"])]);
    assert_eq!(once, twice);
}

#[test]
fn paths_ignore_the_case_of_field_names_only() {
    assert_eq!(
        evolve(&sample(), vec![relax(&["LiSt", "element", "Y"])]),
        evolve(&sample(), vec![relax(&["list", "element", "y"])])
    );
    let result = apply_schema_operations(
        sample(),
        vec![relax(&["list", "Element", "y"])],
        ColumnMappingMode::NoMapping,
        None,
    );
    assert!(matches!(result, Err(Error::Generic(_))));
}

#[test]
fn an_added_column_comes_after_its_siblings_and_the_rest_stays() {
    let before = outline(&sample());
    let updated = evolve(&sample(), vec![add("z", &["list", "element"])]);
    let mut expected = before.clone();
    expected.insert(4, ("z".to_string(), true));
    assert_eq!(outline(&updated), expected);
}

#[test]
fn names_stay_unique() {
    let result = apply_schema_operations(
        sample(),
        vec![add("z", &["list", "element"]), add("Z", &["list", "element"])],
        ColumnMappingMode::NoMapping,
        None,
    );
    assert_eq!(
        result.map(|r| r.new_max_column_id),
        Err(Error::Schema(
            "Cannot add column 'Z': a column with that name already exists".to_string()
        ))
    );
    let updated = evolve(&sample(), vec![add("x", &[]), relax(&["x"])]);
    assert!(updated.has_unique_names());
}

#[test]
fn fresh_ids_are_consecutive() {
    let field = StructField::nullable(
        "a",
        struct_of(vec![
            StructField::nullable("b", array_of(struct_of(vec![StructField::nullable("c", string())]))),
            StructField::nullable("d", string()),
        ]),
    );
    let names: Vec<String> = ["0", "1", "2", "3"].iter().map(|s| s.to_string()).collect();
    let (assigned, max, _) = assign_column_mapping_info(&field, 100, &names, 0).unwrap();
    assert_eq!(assigned.collect_column_mapping_ids(), vec![101, 102, 103, 104]);
    assert_eq!(max, 104);
}

#[test]
fn given_ids_are_kept_and_never_lower_the_greatest() {
    let field = with_id(StructField::nullable("a", string()), 3);
    let names = vec!["n".to_string()];
    let (assigned, max, _) = assign_column_mapping_info(&field, 100, &names, 0).unwrap();
    assert_eq!(assigned.column_mapping_id(), Some(3));
    assert_eq!(max, 100);
}

#[test]
fn the_reported_id_is_the_greatest_in_the_schema() {
    let start = schema(vec![with_id(StructField::nullable("a", string()), 8)]);
    let ops = vec![
        add("b", &[]),
        SchemaOperation::add_column(with_id(StructField::nullable("c", string()), 50), path(&[])),
        add("d", &[]),
    ];
    let result = apply_schema_operations(start, ops, ColumnMappingMode::Id, Some(2)).unwrap();
    assert_eq!(ids(&result.schema), vec![8, 9, 50, 51]);
    assert_eq!(result.new_max_column_id, Some(51));
    assert_eq!(find_max_column_id_in_schema(&result.schema), Some(51));
}

#[test]
fn ids_stay_different() {
    let start = schema(vec![
        with_id(StructField::nullable("a", string()), 8),
        with_id(StructField::nullable("b", string()), 3),
    ]);
    let ops = vec![add("c", &[]), relax(&["a"]), add("d", &[])];
    let result = apply_schema_operations(start, ops, ColumnMappingMode::Name, Some(8)).unwrap();
    assert_eq!(ids(&result.schema), vec![8, 3, 9, 10]);
}

#[test]
fn unmapped_schemas_get_no_ids_or_names() {
    let result = apply_schema_operations(
        sample(),
        vec![add("a", &[])],
        ColumnMappingMode::NoMapping,
        Some(7),
    )
    .unwrap();
    assert_eq!(result.new_max_column_id, None);
    assert_eq!(ids(&result.schema), Vec::<i64>::new());
    assert_eq!(physical_names(&result.schema), Vec::<String>::new());
}

#[test]
fn generated_names_decide_nothing_else() {
    let run = |prefix: &str| {
        let names: Vec<String> = (0..2).map(|i| format!("{prefix}{i}")).collect();
        apply_schema_operations_with_names(
            sample(),
            vec![add("a", &[]), add("b", &["list", "element"])],
            ColumnMappingMode::Name,
            Some(4),
            &names,
        )
        .unwrap()
    };
    let p = run("p");
    let q = run("q");
    assert_eq!(p.new_max_column_id, q.new_max_column_id);
    assert_eq!(outline(&p.schema), outline(&q.schema));
    assert_eq!(ids(&p.schema), ids(&q.schema));
    assert_eq!(physical_names(&p.schema), vec!["p1", "p0"]);
    assert_eq!(physical_names(&q.schema), vec!["q1", "q0"]);
}

#[test]
fn annotations_do_not_decide_validity() {
    let plain = schema(vec![StructField::nullable("a b", string())]);
    let annotated = schema(vec![with_id(StructField::nullable("a b", string()), 1)]);
    for mode in [ColumnMappingMode::NoMapping, ColumnMappingMode::Name] {
        assert_eq!(validate_schema(&plain, mode), validate_schema(&annotated, mode));
    }
}

#[test]
fn paths_in_another_case_are_refused_alike() {
    let outcome = |at: &[&str]| {
        apply_schema_operations(
            sample(),
            vec![add("z", at)],
            ColumnMappingMode::NoMapping,
            None,
        )
        .map(|r| r.schema)
    };
    assert_eq!(outcome(&["LIST", "element"]), outcome(&["list", "element"]));
    assert!(outcome(&["list", "element"]).is_ok());
    assert!(outcome(&["none", "element"]).is_err());
    assert!(outcome(&["NONE", "element"]).is_err());
}

#[test]
fn old_columns_stay_over_many_changes() {
    let ops = vec![
        add("a", &[]),
        relax(&["LIST", "element", "Y"]),
        add("z", &["list", "element"]),
        add("b", &[]),
        relax(&["last"]),
        relax(&["last"]),
    ];
    let updated = evolve(&sample(), ops);
    assert_eq!(updated.fields().len(), sample().fields().len() + 2);
    let expected: Vec<(String, bool)> = [
        ("Id", false),
        ("list", false),
        ("x", false),
        ("y", true),
        ("z", true),
        ("last", true),
        ("a", true),
        ("b", true),
    ]
    .iter()
    .map(|(name, nullable)| (name.to_string(), *nullable))
    .collect();
    assert_eq!(outline(&updated), expected);
}

#[test]
fn fresh_ids_are_above_all_before_them_among_given_ids() {
    let start = schema(vec![with_id(StructField::nullable("old", string()), 20)]);
    let mixed = StructField::nullable(
        "c",
        struct_of(vec![
            with_id(StructField::nullable("given_low", string()), 3),
            StructField::nullable("fresh_low", string()),
            with_id(StructField::nullable("given_high", string()), 40),
            StructField::nullable("fresh_high", string()),
        ]),
    );
    let ops = vec![
        add("a", &[]),
        SchemaOperation::add_column(with_id(StructField::nullable("b", string()), 20), path(&[])),
        SchemaOperation::add_column(mixed, path(&[])),
        relax(&["old"]),
        add("d", &["c"]),
    ];
    let result = apply_schema_operations(start, ops, ColumnMappingMode::Name, Some(7)).unwrap();
    assert_eq!(ids(&result.schema), vec![20, 21, 20, 22, 3, 23, 40, 41, 42]);
    assert_eq!(physical_names(&result.schema).len(), 8);
    assert_eq!(result.new_max_column_id, Some(42));
    assert_eq!(find_max_column_id_in_schema(&result.schema), Some(42));
}

#[test]
fn paths_past_the_end_are_refused_in_any_case() {
    for at in [&["id", "Deeper"], &["ID", "DEEPER"]] {
        let result = apply_schema_operations(
            sample(),
            vec![add("z", at)],
            ColumnMappingMode::NoMapping,
            None,
        );
        assert!(matches!(result, Err(Error::Schema(_))));
    }
}

#[test]
fn different_names_stay_different() {
    let named = {
        let mut field = StructField::nullable("b", string());
        field.metadata.insert(
            ColumnMetadataKey::ColumnMappingPhysicalName
                .as_ref()
                .to_string(),
            MetadataValue::String("own".to_string()),
        );
        field
    };
    let nested = StructField::nullable(
        "c",
        struct_of(vec![StructField::nullable("x", string())]),
    );
    let ops = vec![
        add("a", &[]),
        SchemaOperation::add_column(named, path(&[])),
        SchemaOperation::add_column(nested, path(&[])),
        add("d", &["c"]),
    ];
    let names: Vec<String> = (0..5).map(|i| format!("n{i}")).collect();
    let result = apply_schema_operations_with_names(
        schema(vec![]),
        ops,
        ColumnMappingMode::Id,
        Some(0),
        &names,
    )
    .unwrap();
    assert_eq!(
        physical_names(&result.schema),
        vec!["n0", "own", "n2", "n3", "n4"]
    );
}
