//! Texts, paths, schemas, column mapping and the errors that changes end in.
use schema_evolution::column_mapping::{
    assign_column_mapping_info, find_max_column_id_in_schema, generate_physical_names,
    schema_has_column_mapping_metadata, strip_column_mapping_metadata,
    strip_stray_column_mapping_metadata, validate_column_mapping_id, ColumnMappingMode,
};
use schema_evolution::column_name::ColumnName;
use schema_evolution::error::{DeltaResult, Error};
use schema_evolution::evolution::{
    add_field, apply_operation, apply_schema_operations, apply_schema_operations_with_names,
    mismatch_error, modify_field_at_path, set_field_nullable, SchemaEvolutionResult,
    SchemaOperation,
};
use schema_evolution::schema::{
    find_text, ArrayType, ColumnMetadataKey, DataType, MapType, MetadataColumnSpec, MetadataValue,
    PrimitiveType, StructField, StructType,
};
use schema_evolution::string_map::StringMap;
use schema_evolution::text;
use schema_evolution::validation::validate_schema;

fn string() -> DataType {
    DataType::Primitive(PrimitiveType::String)
}

fn integer() -> DataType {
    DataType::Primitive(PrimitiveType::Integer)
}

fn array_of(element_type: DataType) -> DataType {
    DataType::Array(Box::new(ArrayType {
        element_type,
        contains_null: false,
    }))
}

fn map_of(key_type: DataType, value_type: DataType) -> DataType {
    DataType::MapOf(Box::new(MapType {
        key_type,
        value_type,
        value_contains_null: false,
    }))
}

fn schema(fields: Vec<StructField>) -> StructType {
    StructType::try_new(fields).unwrap()
}

fn struct_of(fields: Vec<StructField>) -> DataType {
    DataType::from(schema(fields))
}

fn names(list: &[&str]) -> Vec<String> {
    list.iter().map(|name| name.to_string()).collect()
}

fn path(list: &[&str]) -> ColumnName {
    ColumnName::new(names(list))
}

fn with_id(mut field: StructField, id: i64) -> StructField {
    field.metadata.insert(
        ColumnMetadataKey::ColumnMappingId.as_ref().to_string(),
        MetadataValue::Number(id),
    );
    field
}

fn with_physical_name(mut field: StructField, name: &str) -> StructField {
    field.metadata.insert(
        ColumnMetadataKey::ColumnMappingPhysicalName
            .as_ref()
            .to_string(),
        MetadataValue::String(name.to_string()),
    );
    field
}

fn physical_name(field: &StructField) -> &str {
    match field.get_config_value(&ColumnMetadataKey::ColumnMappingPhysicalName) {
        Some(MetadataValue::String(name)) => name,
        other => panic!("expected a physical name, got {other:?}"),
    }
}

fn evolve(schema: StructType, ops: Vec<SchemaOperation>) -> DeltaResult<SchemaEvolutionResult> {
    apply_schema_operations(schema, ops, ColumnMappingMode::NoMapping, None)
}

fn is_generated(name: &str) -> bool {
    let bytes = name.as_bytes();
    name.len() == 40
        && name.starts_with("col-")
        && bytes[18] == b'4'
        && matches!(bytes[23], b'8' | b'9' | b'a' | b'b')
        && name[4..].char_indices().all(|(i, c)| {
            if i == 8 || i == 13 || i == 18 || i == 23 {
                c == '-'
            } else {
                c.is_ascii_digit() || ('a'..='f').contains(&c)
            }
        })
}

// === Texts ===

#[test]
fn lower_case_of_ascii_and_other_text() {
    assert_eq!(text::to_lowercase("AbZ_09[]@`"), "abz_09[]@`");
    assert_eq!(text::to_lowercase("STRASSE \u{c4}"), "strasse \u{e4}");
    assert_eq!(text::to_lowercase(""), "");
}

#[test]
fn integers_in_decimal() {
    assert_eq!(text::i64_to_decimal(0), "0");
    assert_eq!(text::i64_to_decimal(-7), "-7");
    assert_eq!(text::i64_to_decimal(1203), "1203");
    assert_eq!(text::i64_to_decimal(i64::MAX), "9223372036854775807");
    assert_eq!(text::i64_to_decimal(i64::MIN), "-9223372036854775808");
}

#[test]
fn integers_read_back_from_decimal() {
    for i in [0, 9, 10, -10, 2147483647, i64::MAX, i64::MIN] {
        assert_eq!(text::parse_i64(&text::i64_to_decimal(i)), Some(i));
    }
    assert_eq!(text::parse_i64("+5"), Some(5));
    assert_eq!(text::parse_i64("-0007"), Some(-7));
    for wrong in ["", "-", "+", "1 ", " 1", "1a", "--1", "9223372036854775808"] {
        assert_eq!(text::parse_i64(wrong), None, "{wrong:?}");
    }
    assert_eq!(text::parse_i64("-9223372036854775809"), None);
}

#[test]
fn texts_are_joined_and_compared() {
    assert_eq!(text::join2("a", "b"), "ab");
    assert_eq!(text::join3("a", "", "c"), "ac");
    assert!(text::equal("key", "key"));
    assert!(!text::equal("key", "Key"));
    assert_eq!(find_text(&names(&["x", "y", "y"]), &"y".to_string()), Some(1));
    assert_eq!(find_text(&names(&["x"]), &"y".to_string()), None);
}

#[test]
fn string_maps_keep_one_value_under_a_key() {
    let mut map: StringMap<String> = StringMap::new();
    assert_eq!(map.get("a"), None);
    map.insert("a".to_string(), "1".to_string());
    map.insert("b".to_string(), "2".to_string());
    map.insert("a".to_string(), "3".to_string());
    assert_eq!(map.get("a"), Some(&"3".to_string()));
    assert_eq!(map.get("b"), Some(&"2".to_string()));
    let copy = map.duplicate();
    map.remove("a");
    map.remove("c");
    assert_eq!(map.get("a"), None);
    assert_eq!(map.get("b"), Some(&"2".to_string()));
    assert_eq!(copy.get("a"), Some(&"3".to_string()));
}

#[test]
fn error_texts_tell_the_kind() {
    assert_eq!(
        Error::Generic("x".to_string()).to_string(),
        "Generic delta kernel error: x"
    );
    assert_eq!(
        Error::InternalError("x".to_string()).to_string(),
        "Internal error x. This is a kernel bug, please report."
    );
    assert_eq!(
        Error::InvalidProtocol("x".to_string()).to_string(),
        "Invalid protocol action in the delta log: x"
    );
    assert_eq!(Error::Schema("x".to_string()).to_string(), "Schema error: x");
    assert_eq!(Error::Unsupported("x".to_string()).to_string(), "Unsupported: x");
}

// === Paths and schemas ===

#[test]
fn column_paths_are_quoted_where_needed() {
    assert_eq!(path(&["a", "b_1"]).to_string(), "a.b_1");
    assert_eq!(path(&["a b", "1c", ""]).to_string(), "`a b`.`1c`.``");
    assert_eq!(path(&["x`y"]).to_string(), "`x``y`");
    assert_eq!(path(&[]).to_string(), "");
    assert_eq!(path(&["a"]).join(&path(&["b", "c"])), path(&["a", "b", "c"]));
    assert_eq!(path(&["a", "b"]).path(), names(&["a", "b"]));
    assert_eq!(path(&["a", "b"]).into_inner(), names(&["a", "b"]));
}

#[test]
fn types_are_written_out() {
    let inner = struct_of(vec![
        StructField::nullable("a", DataType::Primitive(PrimitiveType::Long)),
        StructField::nullable(
            "b",
            DataType::Primitive(PrimitiveType::Decimal {
                precision: 10,
                scale: 2,
            }),
        ),
    ]);
    assert_eq!(
        map_of(string(), array_of(inner)).to_string(),
        "map<string, array<struct<a: long, b: decimal(10,2)>>>"
    );
    assert_eq!(
        DataType::Primitive(PrimitiveType::TimestampNtz).to_string(),
        "timestamp_ntz"
    );
}

#[test]
fn sibling_names_must_differ_in_more_than_case() {
    let fields = vec![
        StructField::nullable("a", string()),
        StructField::nullable("A", string()),
    ];
    assert!(matches!(StructType::try_new(fields), Err(Error::Schema(_))));
    let fields = vec![
        StructField::nullable("\u{e4}", string()),
        StructField::nullable("\u{c4}", string()),
    ];
    assert!(matches!(StructType::try_new(fields), Err(Error::Schema(_))));
}

#[test]
fn fields_are_found_by_exact_name_and_by_position_in_any_case() {
    let s = schema(vec![
        StructField::nullable("a", string()),
        StructField::not_null("b", integer()),
    ]);
    assert_eq!(s.field("b"), Some(&StructField::not_null("b", integer())));
    assert_eq!(s.field("B"), None);
    assert_eq!(s.position("B"), Some(1));
    assert_eq!(s.position("c"), None);
}

#[test]
fn computed_columns_are_recognised() {
    for spec in [
        MetadataColumnSpec::RowIndex,
        MetadataColumnSpec::RowId,
        MetadataColumnSpec::RowCommitVersion,
    ] {
        assert!(StructField::create_metadata_column("c", spec).is_metadata_column());
    }
    assert!(!StructField::nullable("row_index", string()).is_metadata_column());
}

#[test]
fn nested_fields_come_in_order() {
    let s = schema(vec![
        StructField::nullable(
            "a",
            map_of(
                struct_of(vec![StructField::nullable("k", string())]),
                struct_of(vec![StructField::nullable("v", string())]),
            ),
        ),
        StructField::nullable("b", string()),
    ]);
    let all: Vec<&str> = s.all_fields().iter().map(|f| f.name().as_str()).collect();
    assert_eq!(all, vec!["a", "k", "v", "b"]);
}

#[test]
fn invalid_characters_count_only_without_mapping() {
    for c in [' ', ',', ';', '{', '}', '(', ')', '\n', '\t', '='] {
        let s = schema(vec![StructField::nullable(&format!("a{c}b"), string())]);
        assert!(matches!(
            validate_schema(&s, ColumnMappingMode::NoMapping),
            Err(Error::Schema(_))
        ));
        assert_eq!(validate_schema(&s, ColumnMappingMode::Name), Ok(()));
        assert_eq!(validate_schema(&s, ColumnMappingMode::Id), Ok(()));
    }
    let s = schema(vec![StructField::nullable("a.b-c", string())]);
    assert_eq!(validate_schema(&s, ColumnMappingMode::NoMapping), Ok(()));
}

// === Column mapping ===

#[test]
fn ids_fit_in_31_bits() {
    assert_eq!(validate_column_mapping_id(0), Ok(()));
    assert_eq!(validate_column_mapping_id(2147483647), Ok(()));
    assert_eq!(
        validate_column_mapping_id(2147483648),
        Err(Error::Generic(
            "Invalid column mapping id 2147483648: ids range from 0 to 2147483647".to_string()
        ))
    );
    assert!(validate_column_mapping_id(-1).is_err());
}

#[test]
fn the_greatest_id_is_found_at_any_depth() {
    let inner = struct_of(vec![with_id(StructField::nullable("x", string()), 7)]);
    let s = schema(vec![
        with_id(StructField::nullable("a", array_of(inner)), 3),
        StructField::nullable("b", string()),
    ]);
    assert_eq!(find_max_column_id_in_schema(&s), Some(7));
    assert_eq!(find_max_column_id_in_schema(&schema(vec![])), None);
}

#[test]
fn generated_names_are_random_uuids() {
    let generated = generate_physical_names(3);
    assert_eq!(generated.len(), 3);
    assert!(generated.iter().all(|name| is_generated(name)));
    assert_ne!(generated[0], generated[1]);
    assert_ne!(generated[1], generated[2]);
}

#[test]
fn ids_and_names_are_assigned_in_order() {
    let inner = struct_of(vec![
        StructField::nullable("x", string()),
        with_physical_name(with_id(StructField::nullable("y", string()), 20), "own"),
        StructField::nullable("z", string()),
    ]);
    let field = StructField::nullable("a", inner);
    let given = names(&["skipped", "n1", "n2", "n3", "n4"]);
    let (assigned, max, next) = assign_column_mapping_info(&field, 5, &given, 1).unwrap();
    assert_eq!(assigned.collect_column_mapping_ids(), vec![6, 7, 20, 21]);
    let physical: Vec<&str> = assigned.with_nested().into_iter().map(physical_name).collect();
    assert_eq!(physical, vec!["n1", "n2", "own", "n4"]);
    assert_eq!(max, 21);
    assert_eq!(next, 5);
}

#[test]
fn unsound_annotations_are_refused() {
    let given = names(&["n"]);
    let assign = |field: &StructField, max: i64| {
        assign_column_mapping_info(field, max, &given, 0)
            .map(|(_, max, _)| max)
            .map_err(|e| e.to_string())
    };
    assert_eq!(
        assign(&with_id(StructField::nullable("a", string()), -3), 1),
        Err("Schema error: Field 'a': Generic delta kernel error: Invalid column mapping id -3: \
             ids range from 0 to 2147483647"
            .to_string())
    );
    let mut field = StructField::nullable("a", string());
    field.metadata.insert(
        ColumnMetadataKey::ColumnMappingPhysicalName
            .as_ref()
            .to_string(),
        MetadataValue::Number(1),
    );
    assert_eq!(
        assign(&field, 1),
        Err("Schema error: Field 'a' has a non-string `delta.columnMapping.physicalName` \
             annotation"
            .to_string())
    );
    let plain = StructField::nullable("a", string());
    assert_eq!(assign(&plain, 2147483646), Ok(2147483647));
    assert_eq!(
        assign(&plain, 2147483647),
        Err(
            "Schema error: Field 'a': no column mapping id is left after 2147483647".to_string()
        )
    );
}

#[test]
fn stripping_takes_annotations_out_at_any_depth() {
    let inner = struct_of(vec![with_id(StructField::not_null("x", string()), 7)]);
    let annotated = schema(vec![
        with_physical_name(StructField::nullable("a", array_of(inner)), "p"),
        StructField::nullable("b", string()),
    ]);
    let plain = schema(vec![
        StructField::nullable(
            "a",
            array_of(struct_of(vec![StructField::not_null("x", string())])),
        ),
        StructField::nullable("b", string()),
    ]);
    assert!(schema_has_column_mapping_metadata(&annotated));
    assert!(!schema_has_column_mapping_metadata(&plain));
    assert_eq!(strip_column_mapping_metadata(&annotated), plain);
    assert_eq!(
        strip_stray_column_mapping_metadata(false, &annotated),
        Some(plain.clone())
    );
    assert_eq!(strip_stray_column_mapping_metadata(true, &annotated), None);
    assert_eq!(strip_stray_column_mapping_metadata(false, &plain), None);
}

// === Changes to one struct ===

#[test]
fn fields_are_added_at_the_end() {
    let mut s = schema(vec![StructField::nullable("a", string())]);
    assert_eq!(add_field(&mut s, StructField::nullable("b", string())), Ok(()));
    assert_eq!(
        add_field(&mut s, StructField::nullable("B", integer())),
        Err(Error::Schema(
            "Cannot add column 'B': a column with that name already exists".to_string()
        ))
    );
    let expected = schema(vec![
        StructField::nullable("a", string()),
        StructField::nullable("b", string()),
    ]);
    assert_eq!(s, expected);
}

#[test]
fn fields_are_made_nullable_in_place() {
    let mut s = schema(vec![
        StructField::not_null("a", string()),
        StructField::not_null("b", string()),
    ]);
    assert_eq!(set_field_nullable(&mut s, "A"), Ok(()));
    assert_eq!(
        set_field_nullable(&mut s, "c"),
        Err(Error::Schema("field 'c' does not exist".to_string()))
    );
    let expected = schema(vec![
        StructField::nullable("a", string()),
        StructField::not_null("b", string()),
    ]);
    assert_eq!(s, expected);
}

#[test]
fn paths_lead_to_structs() {
    let inner = struct_of(vec![StructField::not_null("x", string())]);
    let mut t = struct_of(vec![StructField::nullable(
        "m",
        map_of(string(), array_of(inner)),
    )]);
    let steps = names(&["M", "value", "element"]);
    assert_eq!(
        modify_field_at_path(&mut t, &steps, |s| set_field_nullable(s, "x")),
        Ok(())
    );
    let inner = struct_of(vec![StructField::nullable("x", string())]);
    let expected = struct_of(vec![StructField::nullable(
        "m",
        map_of(string(), array_of(inner)),
    )]);
    assert_eq!(t, expected);
}

#[test]
fn paths_that_lead_nowhere_change_nothing() {
    let untouched = struct_of(vec![
        StructField::nullable("m", map_of(string(), integer())),
        StructField::nullable("l", array_of(string())),
    ]);
    let mut t = untouched.clone();
    let mut error = |steps: &[&str]| {
        modify_field_at_path(&mut t, &names(steps), |s| {
            add_field(s, StructField::nullable("x", string()))
        })
        .unwrap_err()
    };
    assert_eq!(
        error(&["none", "x"]),
        Error::Schema("field 'none' does not exist".to_string())
    );
    assert_eq!(
        error(&["m"]),
        Error::Schema("path target is not a struct".to_string())
    );
    assert_eq!(
        error(&["m", "Key"]),
        Error::Schema("path segment \"Key\" does not match map<string, integer>".to_string())
    );
    assert_eq!(
        error(&["l", "a\"b\n"]),
        Error::Schema("path segment \"a\\\"b\\n\" does not match array<string>".to_string())
    );
    assert_eq!(
        error(&["l", "element", "x"]),
        Error::Schema("path segment \"x\" does not match string".to_string())
    );
    assert_eq!(t, untouched);
    assert_eq!(
        mismatch_error("\"x\"", &integer()),
        Error::Schema("path segment \"x\" does not match integer".to_string())
    );
}

// === Errors of whole changes ===

#[test]
fn refused_columns_are_named() {
    let refuse = |field: StructField| {
        evolve(
            schema(vec![]),
            vec![SchemaOperation::add_column(field, path(&[]))],
        )
        .unwrap_err()
    };
    let computed = StructField::create_metadata_column("c", MetadataColumnSpec::RowId);
    assert_eq!(
        refuse(computed.clone()),
        Error::Schema(
            "Cannot add column 'c': metadata columns are not allowed in a table schema".to_string()
        )
    );
    assert_eq!(
        refuse(StructField::nullable("s", array_of(struct_of(vec![computed])))),
        Error::Schema("Field 's' contains a nested metadata column".to_string())
    );
    assert_eq!(
        refuse(StructField::not_null("r", string())),
        Error::Schema(
            "Cannot add non-nullable column 'r'. Added columns must be nullable because existing \
             data files do not contain this column."
                .to_string()
        )
    );
}

#[test]
fn refused_nullability_changes_are_explained() {
    let s = schema(vec![StructField::not_null("a", string())]);
    let err = evolve(
        s,
        vec![SchemaOperation::set_nullable(path(&["no such", "x"]))],
    )
    .unwrap_err();
    assert_eq!(
        err,
        Error::Generic(
            "Cannot set nullable on column '`no such`.x': Schema error: field 'no such' does not \
             exist"
                .to_string()
        )
    );
    let err = evolve(schema(vec![]), vec![SchemaOperation::set_nullable(path(&[]))]).unwrap_err();
    assert_eq!(err, Error::Generic("empty column path".to_string()));
}

#[test]
fn duplicate_names_in_other_alphabets_are_refused() {
    let s = schema(vec![StructField::nullable("\u{44f}", string())]);
    let field = StructField::nullable("\u{42f}", string());
    let err = evolve(s, vec![SchemaOperation::add_column(field, path(&[]))]).unwrap_err();
    assert_eq!(
        err,
        Error::Schema(
            "Cannot add column '\u{42f}': a column with that name already exists".to_string()
        )
    );
}

#[test]
fn the_kept_id_is_checked_even_without_mapping() {
    let err = apply_schema_operations(
        schema(vec![]),
        vec![],
        ColumnMappingMode::NoMapping,
        Some(-5),
    )
    .unwrap_err();
    assert_eq!(
        err,
        Error::InvalidProtocol(
            "Table property `delta.columnMapping.maxColumnId`: Generic delta kernel error: \
             Invalid column mapping id -5: ids range from 0 to 2147483647"
                .to_string()
        )
    );
}

#[test]
fn no_changes_still_heal_a_stale_id() {
    let s = schema(vec![with_id(StructField::nullable("a", string()), 9)]);
    let apply = |mode: ColumnMappingMode, kept: Option<i64>| {
        apply_schema_operations(s.clone(), vec![], mode, kept)
            .unwrap()
            .new_max_column_id
    };
    assert_eq!(apply(ColumnMappingMode::Name, Some(4)), Some(9));
    assert_eq!(apply(ColumnMappingMode::Id, Some(9)), None);
    assert_eq!(apply(ColumnMappingMode::Name, Some(12)), None);
    assert_eq!(apply(ColumnMappingMode::Name, None), None);
    assert_eq!(apply(ColumnMappingMode::NoMapping, Some(4)), None);
}

#[test]
fn one_change_reports_where_the_names_go_on() {
    let s = schema(vec![StructField::nullable("a", string())]);
    let field = StructField::nullable(
        "b",
        struct_of(vec![StructField::nullable("x", string())]),
    );
    let given = names(&["n0", "n1", "n2"]);
    let (s, max, next) = apply_operation(
        s,
        SchemaOperation::add_column(field, path(&[])),
        ColumnMappingMode::Name,
        Some(1),
        &given,
        1,
    )
    .unwrap();
    assert_eq!(max, Some(3));
    assert_eq!(next, 3);
    let b = s.field("b").unwrap();
    assert_eq!(physical_name(b), "n1");
    assert_eq!(physical_name(b.with_nested()[1]), "n2");
    assert_eq!(s.field("a"), Some(&StructField::nullable("a", string())));
}

#[test]
fn given_names_are_handed_out_in_order() {
    let ops = vec![
        SchemaOperation::add_column(StructField::nullable("a", string()), path(&[])),
        SchemaOperation::add_column(
            with_physical_name(StructField::nullable("b", string()), "own"),
            path(&[]),
        ),
        SchemaOperation::add_column(StructField::nullable("c", string()), path(&[])),
    ];
    let given = names(&["n0", "n1", "n2"]);
    let result = apply_schema_operations_with_names(
        schema(vec![]),
        ops,
        ColumnMappingMode::Id,
        Some(0),
        &given,
    )
    .unwrap();
    let physical: Vec<&str> = result.schema.fields().iter().map(physical_name).collect();
    assert_eq!(physical, vec!["n0", "own", "n2"]);
    assert_eq!(result.new_max_column_id, Some(3));
}
