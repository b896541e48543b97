//! What makes a table valid, and what changes make of a whole table.
use vstd::prelude::*;

use crate::annotation_laws;
use crate::assignment_laws;
use crate::column_mapping;
use crate::column_mapping::ColumnMappingMode;
use crate::error::ErrorView;
use crate::evolution;
use crate::evolution::OperationView;
use crate::schema::{DataTypeView, FieldView, PrimitiveType};
use crate::schema_laws;
use crate::table_configuration;
use crate::table_configuration::{
    ConfigurationView, MetadataView, ProtocolView, TableFeature, COLUMN_MAPPING_MAX_COLUMN_ID,
    COLUMN_MAPPING_MODE,
};
use crate::table_laws;
use crate::text;

verus! {

/// A table has a feature just when its protocol lists it for readers and for writers.
pub proof fn listed_features(protocol: ProtocolView, feature: TableFeature)
    ensures
        protocol.has_table_feature(feature) <==> (exists|i: int|
            0 <= i < protocol.reader_features.len() && #[trigger] protocol.reader_features[i]
                == feature) && (exists|j: int|
            0 <= j < protocol.writer_features.len() && #[trigger] protocol.writer_features[j]
                == feature),
{
}

/// The properties are read under their keys: the mode from its three names, and the greatest id as
/// a number.
pub proof fn properties_are_read(metadata: MetadataView)
    ensures
        COLUMN_MAPPING_MODE@ == "delta.columnMapping.mode"@,
        COLUMN_MAPPING_MAX_COLUMN_ID@ == "delta.columnMapping.maxColumnId"@,
        metadata.mode_property() == if !metadata.configuration.contains_key(
            "delta.columnMapping.mode"@,
        ) {
            None
        } else if metadata.configuration["delta.columnMapping.mode"@] == "none"@ {
            Some(ColumnMappingMode::NoMapping)
        } else if metadata.configuration["delta.columnMapping.mode"@] == "id"@ {
            Some(ColumnMappingMode::Id)
        } else if metadata.configuration["delta.columnMapping.mode"@] == "name"@ {
            Some(ColumnMappingMode::Name)
        } else {
            None
        },
        metadata.max_column_id() == if metadata.configuration.contains_key(
            "delta.columnMapping.maxColumnId"@,
        ) {
            text::parsed_i64(metadata.configuration["delta.columnMapping.maxColumnId"@])
        } else {
            None
        },
{
}

/// The mode among the properties counts for reader version 2, and for reader version 3 where the
/// protocol lists column mapping; for other versions, and without a mode, columns are not mapped.
pub proof fn where_columns_are_mapped(
    protocol: ProtocolView,
    property: Option<ColumnMappingMode>,
    mode: ColumnMappingMode,
)
    requires
        mode != ColumnMappingMode::NoMapping,
    ensures
        table_configuration::effective_mode(protocol, property) == mode <==> property == Some(mode)
            && (protocol.min_reader_version == 2 || (protocol.min_reader_version == 3
            && protocol.has_table_feature(TableFeature::ColumnMapping))),
{
}

/// Whether a field has a physical name and a column mapping id.
pub open spec fn is_mapped(field: FieldView) -> bool {
    &&& field.metadata.contains_key("delta.columnMapping.physicalName"@)
    &&& field.metadata["delta.columnMapping.physicalName"@] is String
    &&& field.metadata.contains_key("delta.columnMapping.id"@)
    &&& field.metadata["delta.columnMapping.id"@] is Number
}

/// What is said of a field that lacks a physical name, or else a column mapping id.
pub open spec fn lack(field: FieldView) -> Seq<char> {
    "Column mapping is enabled but field '"@ + field.name + "' lacks a valid annotation "@ + if (
    field.metadata.contains_key("delta.columnMapping.physicalName"@)
        && field.metadata["delta.columnMapping.physicalName"@] is String) {
        "delta.columnMapping.id"@
    } else {
        "delta.columnMapping.physicalName"@
    }
}

/// Metadata is valid under a protocol just when each field, at any depth, has a physical name and an
/// id where columns are mapped, and timestamps without a time zone come with their feature. Else the
/// first field that lacks something is reported, or the missing feature.
pub proof fn valid_tables(metadata: MetadataView, protocol: ProtocolView)
    ensures
        ({
            let all = FieldView::all_fields(metadata.schema);
            let maps = table_configuration::effective_mode(protocol, metadata.mode_property())
                != ColumnMappingMode::NoMapping;
            let unlisted = DataTypeView::Struct(metadata.schema).mentions(
                PrimitiveType::TimestampNtz,
            ) && !protocol.has_table_feature(TableFeature::TimestampWithoutTimezone);
            match table_configuration::configuration_problem(metadata, protocol) {
                None => {
                    &&& maps ==> forall|k: int| 0 <= k < all.len() ==> is_mapped(#[trigger] all[k])
                    &&& !unlisted
                },
                Some(e) => {
                    ||| maps && exists|k: int|
                        0 <= k < all.len() && !is_mapped(#[trigger] all[k]) && (forall|j: int|
                            0 <= j < k ==> is_mapped(#[trigger] all[j])) && e == ErrorView::Schema(
                            lack(all[k]),
                        )
                    ||| unlisted && (maps ==> forall|k: int|
                        0 <= k < all.len() ==> is_mapped(#[trigger] all[k])) && e
                        == ErrorView::Unsupported(
                        "Table contains TIMESTAMP_NTZ columns but does not have the required 'timestampNtz' feature in reader and writer features"@,
                    )
                },
            }
        }),
{
    let all = FieldView::all_fields(metadata.schema);
    assert forall|k: int| 0 <= k < all.len() implies is_mapped(#[trigger] all[k])
        == (table_configuration::annotation_problem(all[k]) is None) by {}
    if table_configuration::effective_mode(protocol, metadata.mode_property())
        != ColumnMappingMode::NoMapping {
        if exists|i: int| table_configuration::is_first_lacking(all, i) {
            let k = choose|i: int| table_configuration::is_first_lacking(all, i);
            assert(!is_mapped(all[k]));
            assert forall|j: int| 0 <= j < k implies is_mapped(#[trigger] all[j]) by {
                assert(table_configuration::annotation_problem(all[j]) is None);
            }
            assert(table_configuration::annotation_problem(all[k]) == Some(
                ErrorView::Schema(lack(all[k])),
            ));
        } else {
            table_laws::lemma_none_lacks(all, all.len() as int);
            assert forall|k: int| 0 <= k < all.len() implies is_mapped(#[trigger] all[k]) by {
                assert(table_configuration::annotation_problem(all[k]) is None);
            }
        }
    }
}

/// Whether two schemas are the same but for column mapping annotations, which the second has not:
/// their fields, at any depth, agree in place, name, nullability, type and all other annotations.
pub open spec fn is_stripped(before: Seq<FieldView>, after: Seq<FieldView>) -> bool {
    let old_fields = FieldView::all_fields(before);
    let new_fields = FieldView::all_fields(after);
    &&& after.len() == before.len()
    &&& forall|i: int|
        0 <= i < before.len() ==> assignment_laws::unmapped(before[i]) == #[trigger] after[i]
    &&& new_fields.len() == old_fields.len()
    &&& forall|k: int|
        0 <= k < old_fields.len() ==> {
            &&& assignment_laws::is_kept_but_for_mapping(old_fields[k], #[trigger] new_fields[k])
            &&& !new_fields[k].metadata.contains_key("delta.columnMapping.id"@)
            &&& !new_fields[k].metadata.contains_key("delta.columnMapping.physicalName"@)
        }
}

/// Stripping a schema leaves all but the column mapping annotations.
pub proof fn lemma_stripped(schema: Seq<FieldView>)
    ensures
        is_stripped(schema, FieldView::all_stripped(schema)),
{
    let after = FieldView::all_stripped(schema);
    let old_fields = FieldView::all_fields(schema);
    let new_fields = FieldView::all_fields(after);
    annotation_laws::lemma_all_reannotated(
        schema,
        column_mapping::column_mapping_removed(),
    );
    table_laws::stripping_takes_out_annotations_only(schema);
    assert forall|k: int| 0 <= k < old_fields.len() implies {
        &&& assignment_laws::is_kept_but_for_mapping(old_fields[k], #[trigger] new_fields[k])
        &&& !new_fields[k].metadata.contains_key("delta.columnMapping.id"@)
        &&& !new_fields[k].metadata.contains_key("delta.columnMapping.physicalName"@)
    } by {
        let metadata = old_fields[k].metadata;
        assert(new_fields[k].metadata == column_mapping::column_mapping_removed()(metadata));
        assert forall|key: Seq<char>|
            key != "delta.columnMapping.id"@ && key != "delta.columnMapping.physicalName"@ implies {
            &&& #[trigger] new_fields[k].metadata.contains_key(key) == metadata.contains_key(key)
            &&& new_fields[k].metadata.contains_key(key) ==> new_fields[k].metadata[key]
                == metadata[key]
        } by {
            schema_laws::two_annotations_are_taken_out(metadata, key);
        }
        schema_laws::two_annotations_are_taken_out(metadata, "delta.columnMapping.id"@);
        schema_laws::two_annotations_are_taken_out(metadata, "delta.columnMapping.physicalName"@);
    }
}

/// Changes that succeed on the schema of a table give the table just that schema. The one exception
/// is a table which does not map its columns and had no column mapping annotations, where the
/// changes brought some in: there the annotations are taken out and all else is kept. The properties
/// stay, but for the greatest column mapping id, which is set to what is reported, if anything is.
/// All else stays.
pub proof fn tables_get_what_comes_of_changes(
    config: ConfigurationView,
    operations: Seq<OperationView>,
    names: Seq<Seq<char>>,
)
    ensures
        ({
            let before = config.metadata.schema;
            let outcome = evolution::evolved(
                before,
                operations,
                config.mode(),
                config.metadata.max_column_id(),
                names,
            );
            let result = evolution::evolved_configuration(config, operations, names);
            &&& outcome matches Err(e) ==> result == Err::<ConfigurationView, ErrorView>(e)
            &&& result matches Ok(new_config) ==> {
                let (after, reported) = outcome->Ok_0;
                let schema = new_config.metadata.schema;
                &&& outcome is Ok
                &&& config.mode() != ColumnMappingMode::NoMapping ==> schema == after
                &&& column_mapping::is_annotated(before) ==> schema == after
                &&& !column_mapping::is_annotated(after) ==> schema == after
                &&& config.mode() == ColumnMappingMode::NoMapping && !column_mapping::is_annotated(
                    before,
                ) && column_mapping::is_annotated(after) ==> is_stripped(after, schema)
                &&& new_config.metadata.id == config.metadata.id
                &&& new_config.protocol == config.protocol
                &&& new_config.table_root == config.table_root
                &&& new_config.version == config.version
                &&& forall|key: Seq<char>|
                    key != "delta.columnMapping.maxColumnId"@ || reported is None ==> {
                        &&& #[trigger] new_config.metadata.configuration.contains_key(key)
                            == config.metadata.configuration.contains_key(key)
                        &&& config.metadata.configuration.contains_key(key)
                            ==> new_config.metadata.configuration[key]
                            == config.metadata.configuration[key]
                    }
                &&& reported matches Some(id)
                    ==> new_config.metadata.configuration.contains_key(
                    "delta.columnMapping.maxColumnId"@,
                ) && new_config.metadata.configuration["delta.columnMapping.maxColumnId"@]
                    == text::decimal(id)
            }
        }),
{
    let before = config.metadata.schema;
    if let Ok((after, _)) = evolution::evolved(
        before,
        operations,
        config.mode(),
        config.metadata.max_column_id(),
        names,
    ) {
        lemma_stripped(after);
    }
}

/// Changes that succeed on the schema of a table are refused by the table only where it would not be
/// valid: there is metadata with the old id, a schema as above and the new properties, and the table
/// gets it if it is valid, and else what is wrong with it is reported.
pub proof fn only_invalid_tables_are_refused(
    config: ConfigurationView,
    operations: Seq<OperationView>,
    names: Seq<Seq<char>>,
)
    ensures
        evolution::evolved(
            config.metadata.schema,
            operations,
            config.mode(),
            config.metadata.max_column_id(),
            names,
        ) matches Ok((after, reported)) ==> exists|metadata: MetadataView|
            {
                &&& metadata.id == config.metadata.id
                &&& metadata.schema == after || is_stripped(after, metadata.schema)
                &&& match reported {
                    Some(id) => metadata.configuration == config.metadata.configuration.insert(
                        "delta.columnMapping.maxColumnId"@,
                        text::decimal(id),
                    ),
                    None => metadata.configuration == config.metadata.configuration,
                }
                &&& match #[trigger] table_configuration::configuration_problem(
                    metadata,
                    config.protocol,
                ) {
                    None => evolution::evolved_configuration(config, operations, names) is Ok
                        && evolution::evolved_configuration(config, operations, names)->Ok_0.metadata
                        == metadata,
                    Some(e) => evolution::evolved_configuration(config, operations, names) == Err::<
                        ConfigurationView,
                        ErrorView,
                    >(e),
                }
            },
{
    if let Ok((after, reported)) = evolution::evolved(
        config.metadata.schema,
        operations,
        config.mode(),
        config.metadata.max_column_id(),
        names,
    ) {
        lemma_stripped(after);
        let metadata = MetadataView {
            schema: evolution::settled_schema(config.metadata.schema, after, config.mode()),
            configuration: evolution::settled_configuration(
                config.metadata.configuration,
                reported,
            ),
            ..config.metadata
        };
        let problem = table_configuration::configuration_problem(metadata, config.protocol);
    }
}

/// The mode of a configuration is that of its protocol and properties, and it is valid when nothing
/// is wrong with its metadata under its protocol.
pub proof fn modes_and_validity(config: ConfigurationView)
    ensures
        config.mode() == table_configuration::effective_mode(
            config.protocol,
            config.metadata.mode_property(),
        ),
        config.is_valid() <==> table_configuration::configuration_problem(
            config.metadata,
            config.protocol,
        ) is None,
{
}

} // verus!
