//! Changes to the schema of a whole table.
use std::sync::Arc;

use schema_evolution::column_mapping::ColumnMappingMode;
use schema_evolution::column_name::ColumnName;
use schema_evolution::error::Error;
use schema_evolution::evolution::{
    evolve_table_config, evolve_table_config_with_names, SchemaOperation,
};
use schema_evolution::schema::{
    ColumnMetadataKey, DataType, MetadataValue, PrimitiveType, StructField, StructType,
};
use schema_evolution::string_map::StringMap;
use schema_evolution::table_configuration::{
    Metadata, Protocol, TableConfiguration, TableFeature, COLUMN_MAPPING_MAX_COLUMN_ID,
    COLUMN_MAPPING_MODE,
};

fn string() -> DataType {
    DataType::Primitive(PrimitiveType::String)
}

fn timestamp_ntz() -> DataType {
    DataType::Primitive(PrimitiveType::TimestampNtz)
}

fn mapped(mut field: StructField, id: i64, name: &str) -> StructField {
    field.metadata.insert(
        ColumnMetadataKey::ColumnMappingId.as_ref().to_string(),
        MetadataValue::Number(id),
    );
    field.metadata.insert(
        ColumnMetadataKey::ColumnMappingPhysicalName
            .as_ref()
            .to_string(),
        MetadataValue::String(name.to_string()),
    );
    field
}

fn metadata(fields: Vec<StructField>, properties: &[(&str, &str)]) -> Metadata {
    let mut configuration = StringMap::new();
    for (key, value) in properties {
        configuration.insert(key.to_string(), value.to_string());
    }
    Metadata {
        id: "table-id".to_string(),
        schema: Arc::new(StructType::try_new(fields).unwrap()),
        configuration,
    }
}

fn protocol(min_reader_version: i32, features: &[TableFeature]) -> Protocol {
    Protocol {
        min_reader_version,
        min_writer_version: 7,
        reader_features: features.to_vec(),
        writer_features: features.to_vec(),
    }
}

fn table(metadata: Metadata, protocol: Protocol) -> TableConfiguration {
    TableConfiguration::try_new(metadata, protocol, "memory:///t".to_string(), 4).unwrap()
}

fn plain_table() -> TableConfiguration {
    table(
        metadata(vec![StructField::not_null("a", string())], &[]),
        protocol(1, &[]),
    )
}

fn mapped_table(kept: &str) -> TableConfiguration {
    table(
        metadata(
            vec![mapped(StructField::not_null("a", string()), 1, "p1")],
            &[
                (COLUMN_MAPPING_MODE, "name"),
                (COLUMN_MAPPING_MAX_COLUMN_ID, kept),
                ("other", "kept"),
            ],
        ),
        protocol(2, &[]),
    )
}

fn add(field: StructField) -> SchemaOperation {
    SchemaOperation::add_column(field, ColumnName::new(vec![]))
}

fn names(list: &[&str]) -> Vec<String> {
    list.iter().map(|name| name.to_string()).collect()
}

#[test]
fn an_unmapped_table_gets_the_column_as_it_is() {
    let ops = vec![
        add(StructField::nullable("b", string())),
        SchemaOperation::set_nullable(ColumnName::new(names(&["A"]))),
    ];
    let evolved = evolve_table_config(&plain_table(), ops).unwrap();
    let expected = vec![
        StructField::nullable("a", string()),
        StructField::nullable("b", string()),
    ];
    assert_eq!(evolved.logical_schema().fields(), &expected);
    assert_eq!(evolved.metadata().schema.fields(), &expected);
    assert_eq!(evolved.table_properties().column_mapping_max_column_id, None);
    assert_eq!(evolved.column_mapping_mode(), ColumnMappingMode::NoMapping);
}

#[test]
fn a_mapped_table_keeps_the_new_greatest_id() {
    let ops = vec![add(StructField::nullable("b", string()))];
    let evolved = evolve_table_config_with_names(&mapped_table("1"), ops, &names(&["p2"])).unwrap();
    let expected = vec![
        mapped(StructField::not_null("a", string()), 1, "p1"),
        mapped(StructField::nullable("b", string()), 2, "p2"),
    ];
    assert_eq!(evolved.logical_schema().fields(), &expected);
    assert_eq!(evolved.table_properties().column_mapping_max_column_id, Some(2));
    let configuration = &evolved.metadata().configuration;
    assert_eq!(
        configuration.get(COLUMN_MAPPING_MAX_COLUMN_ID),
        Some(&"2".to_string())
    );
}

#[test]
fn a_mapped_table_gets_generated_names() {
    let ops = vec![add(StructField::nullable("b", string()))];
    let evolved = evolve_table_config(&mapped_table("1"), ops).unwrap();
    let schema = evolved.logical_schema();
    let added = schema.field("b").unwrap();
    assert_eq!(added.column_mapping_id(), Some(2));
    match added.get_config_value(&ColumnMetadataKey::ColumnMappingPhysicalName) {
        Some(MetadataValue::String(name)) => {
            assert!(name.starts_with("col-") && name.len() == 40)
        }
        other => panic!("expected a physical name, got {other:?}"),
    }
}

#[test]
fn the_rest_of_the_table_stays() {
    let before = mapped_table("1");
    let ops = vec![add(StructField::nullable("b", string()))];
    let evolved = evolve_table_config(&before, ops).unwrap();
    assert_eq!(evolved.metadata().id, "table-id");
    assert_eq!(evolved.table_root(), "memory:///t");
    assert_eq!(evolved.version(), 4);
    assert_eq!(evolved.protocol().min_reader_version, 2);
    assert_eq!(evolved.protocol().min_writer_version, 7);
    assert_eq!(evolved.column_mapping_mode(), ColumnMappingMode::Name);
    let configuration = &evolved.metadata().configuration;
    assert_eq!(configuration.get("other"), Some(&"kept".to_string()));
    assert_eq!(configuration.get(COLUMN_MAPPING_MODE), Some(&"name".to_string()));
}

#[test]
fn an_id_that_did_not_go_up_is_left_as_it_was_written() {
    let ops = vec![SchemaOperation::set_nullable(ColumnName::new(names(&["a"])))];
    let evolved = evolve_table_config(&mapped_table("+05"), ops).unwrap();
    let configuration = &evolved.metadata().configuration;
    assert_eq!(
        configuration.get(COLUMN_MAPPING_MAX_COLUMN_ID),
        Some(&"+05".to_string())
    );
    assert_eq!(evolved.table_properties().column_mapping_max_column_id, Some(5));
}

#[test]
fn stray_annotations_are_stripped_from_a_clean_table() {
    let ops = vec![add(mapped(StructField::nullable("b", string()), 9, "stray"))];
    let evolved = evolve_table_config(&plain_table(), ops).unwrap();
    let expected = vec![
        StructField::not_null("a", string()),
        StructField::nullable("b", string()),
    ];
    assert_eq!(evolved.logical_schema().fields(), &expected);
}

#[test]
fn residual_annotations_stay_in_place() {
    let residual = table(
        metadata(
            vec![mapped(StructField::not_null("a", string()), 1, "p1")],
            &[],
        ),
        protocol(1, &[]),
    );
    let ops = vec![add(mapped(StructField::nullable("b", string()), 9, "stray"))];
    let evolved = evolve_table_config(&residual, ops).unwrap();
    let expected = vec![
        mapped(StructField::not_null("a", string()), 1, "p1"),
        mapped(StructField::nullable("b", string()), 9, "stray"),
    ];
    assert_eq!(evolved.logical_schema().fields(), &expected);
    assert_eq!(evolved.table_properties().column_mapping_max_column_id, None);
}

#[test]
fn a_mapped_table_without_a_kept_id_is_refused() {
    for kept in ["", "many", "9223372036854775808"] {
        let ops = vec![add(StructField::nullable("b", string()))];
        assert!(matches!(
            evolve_table_config(&mapped_table(kept), ops),
            Err(Error::InvalidProtocol(_))
        ));
    }
}

#[test]
fn unsupported_types_are_refused_by_the_protocol() {
    let ops = vec![add(StructField::nullable("t", timestamp_ntz()))];
    assert!(matches!(
        evolve_table_config(&plain_table(), ops.clone()),
        Err(Error::Unsupported(_))
    ));
    let supporting = table(
        metadata(vec![], &[]),
        protocol(3, &[TableFeature::TimestampWithoutTimezone]),
    );
    assert!(evolve_table_config(&supporting, ops).is_ok());
}

#[test]
fn mapped_tables_need_annotated_columns() {
    let bare = metadata(
        vec![StructField::nullable("a", string())],
        &[(COLUMN_MAPPING_MODE, "id")],
    );
    let result =
        TableConfiguration::try_new(bare, protocol(2, &[]), "memory:///t".to_string(), 0);
    assert_eq!(
        result.unwrap_err(),
        Error::Schema(
            "Column mapping is enabled but field 'a' lacks a valid annotation \
             delta.columnMapping.physicalName"
                .to_string()
        )
    );
}

#[test]
fn the_mode_counts_only_where_the_protocol_knows_it() {
    let mode = |protocol: Protocol, property: &str| {
        table(metadata(vec![], &[(COLUMN_MAPPING_MODE, property)]), protocol).column_mapping_mode()
    };
    assert_eq!(mode(protocol(1, &[]), "name"), ColumnMappingMode::NoMapping);
    assert_eq!(mode(protocol(2, &[]), "name"), ColumnMappingMode::Name);
    assert_eq!(mode(protocol(2, &[]), "id"), ColumnMappingMode::Id);
    assert_eq!(mode(protocol(2, &[]), "none"), ColumnMappingMode::NoMapping);
    assert_eq!(mode(protocol(2, &[]), "Name"), ColumnMappingMode::NoMapping);
    assert_eq!(mode(protocol(3, &[]), "name"), ColumnMappingMode::NoMapping);
    assert_eq!(
        mode(protocol(3, &[TableFeature::ColumnMapping]), "name"),
        ColumnMappingMode::Name
    );
}

#[test]
fn a_refused_change_names_its_cause() {
    let ops = vec![add(StructField::nullable("A", string()))];
    assert_eq!(
        evolve_table_config(&plain_table(), ops).unwrap_err(),
        Error::Schema("Cannot add column 'A': a column with that name already exists".to_string())
    );
}

#[test]
fn invalid_names_are_fine_in_mapped_tables_only() {
    let ops = vec![add(StructField::nullable("b c", string()))];
    assert!(evolve_table_config(&mapped_table("1"), ops.clone()).is_ok());
    assert_eq!(
        evolve_table_config(&plain_table(), ops).unwrap_err(),
        Error::Schema(
            "Column name 'b c' contains an invalid character: a space, a tab, a line break, or \
             one of ,;{}()="
                .to_string()
        )
    );
}
