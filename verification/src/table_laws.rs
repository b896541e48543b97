//! What holds of the configuration of a table over schema changes.
use vstd::prelude::*;

use crate::annotation_laws;
use crate::column_mapping;
use crate::column_mapping::ColumnMappingMode;
use crate::evolution;
use crate::evolution::{EvolutionState, OperationView};
use crate::evolution_laws;
use crate::mapping_laws;
use crate::path_laws;
use crate::path_laws::Column;
use crate::run_laws;
use crate::schema::{ColumnMetadataKey, DataTypeView, FieldView, PrimitiveType};
use crate::table_configuration;
use crate::table_configuration::{
    ConfigurationView, MetadataView, ProtocolView, COLUMN_MAPPING_MAX_COLUMN_ID,
    COLUMN_MAPPING_MODE,
};
use crate::text;

verus! {

/// Where columns are not mapped, no ids or names are handed out: changes report no greatest id,
/// and generated names play no part.
pub proof fn unmapped_tables_get_no_ids(
    schema: Seq<FieldView>,
    operations: Seq<OperationView>,
    kept: Option<int>,
    names: Seq<Seq<char>>,
    other_names: Seq<Seq<char>>,
)
    ensures
        evolution::evolved(schema, operations, ColumnMappingMode::NoMapping, kept, names) matches Ok(
            (_, reported),
        ) ==> reported is None,
        evolution::evolved(schema, operations, ColumnMappingMode::NoMapping, kept, names)
            == evolution::evolved(
            schema,
            operations,
            ColumnMappingMode::NoMapping,
            kept,
            other_names,
        ),
{
    let start = evolution::starting_state(schema, ColumnMappingMode::NoMapping, kept);
    lemma_unmapped_operations(operations, names, other_names, start);
}

proof fn lemma_unmapped_operations(
    operations: Seq<OperationView>,
    names: Seq<Seq<char>>,
    other_names: Seq<Seq<char>>,
    start: EvolutionState,
)
    ensures
        evolution::after_operations(operations, ColumnMappingMode::NoMapping, names, start)
            == evolution::after_operations(
            operations,
            ColumnMappingMode::NoMapping,
            other_names,
            start,
        ),
        evolution::after_operations(
            operations,
            ColumnMappingMode::NoMapping,
            names,
            start,
        ) matches Ok(end) ==> end.max_id == start.max_id,
    decreases operations.len(),
{
    if operations.len() > 0 {
        lemma_unmapped_operations(operations.drop_last(), names, other_names, start);
    }
}

proof fn lemma_target_error(t: DataTypeView, path: Seq<Seq<char>>)
    ensures
        t.target(path) matches Err(e) ==> e is Schema,
    decreases path.len(),
{
    if path.len() > 0 {
        if let Ok(inner) = t.step(path[0]) {
            lemma_target_error(inner, path.drop_first());
        }
    }
}

proof fn lemma_assignment_error(fields: Seq<FieldView>, max: int)
    ensures
        mapping_laws::assignment_problem(fields, max) matches Some(e) ==> e is Schema,
    decreases fields.len(),
{
    if fields.len() > 0 {
        lemma_assignment_error(fields.drop_last(), max);
    }
}

proof fn lemma_operations_error(
    operations: Seq<OperationView>,
    mode: ColumnMappingMode,
    names: Seq<Seq<char>>,
    start: EvolutionState,
)
    requires
        start.names_used + evolution::names_needed(operations, mode) <= names.len(),
    ensures
        evolution::after_operations(operations, mode, names, start) matches Err(e)
            ==> !(e is InternalError),
        evolution::after_operations(operations, mode, names, start) matches Ok(end)
            ==> end.names_used == start.names_used + evolution::names_needed(operations, mode),
    decreases operations.len(),
{
    if operations.len() > 0 {
        let front = operations.drop_last();
        lemma_operations_error(front, mode, names, start);
        if let Ok(state) = evolution::after_operations(front, mode, names, start) {
            match operations.last() {
                OperationView::AddColumn { path, field } => {
                    lemma_target_error(DataTypeView::Struct(state.schema), path);
                    if mode != ColumnMappingMode::NoMapping && state.max_id is Some {
                        let own_names = names.skip(state.names_used as int);
                        mapping_laws::assignment_succeeds_unless_problem(
                            field,
                            state.max_id->0,
                            own_names,
                        );
                        lemma_assignment_error(field.with_nested(), state.max_id->0);
                    }
                },
                OperationView::SetNullable { .. } => {},
            }
        }
    }
}

/// Changes never end in an internal error: the root of a schema stays a struct, and the greatest
/// id does not go down.
pub proof fn no_internal_errors(
    schema: Seq<FieldView>,
    operations: Seq<OperationView>,
    mode: ColumnMappingMode,
    kept: Option<int>,
    names: Seq<Seq<char>>,
)
    requires
        evolution::names_needed(operations, mode) <= names.len(),
    ensures
        evolution::evolved(schema, operations, mode, kept, names) matches Err(e)
            ==> !(e is InternalError),
{
    lemma_operations_error(
        operations,
        mode,
        names,
        evolution::starting_state(schema, mode, kept),
    );
}

impl Column {
    /// Whether the column has a column mapping id and a physical name.
    pub open spec fn is_mapped(self) -> bool {
        let key = ColumnMetadataKey::ColumnMappingPhysicalName.text();
        &&& self.metadata.contains_key(key) && self.metadata[key] is String
        &&& self.column_mapping_id() is Some
    }
}

/// Whether each field of a schema, at any depth, has a column mapping id and a physical name.
pub open spec fn is_fully_mapped(schema: Seq<FieldView>) -> bool {
    forall|k: int|
        0 <= k < path_laws::schema_columns(schema).len() ==> (
        #[trigger] path_laws::schema_columns(schema)[k]).is_mapped()
}

/// A schema is fully mapped just when a table that maps its columns lacks nothing.
pub proof fn fully_mapped_schemas_lack_nothing(schema: Seq<FieldView>)
    ensures
        is_fully_mapped(schema) <==> (forall|i: int|
            !table_configuration::is_first_lacking(FieldView::all_fields(schema), i)),
{
    let all = FieldView::all_fields(schema);
    let columns = path_laws::schema_columns(schema);
    if is_fully_mapped(schema) {
        assert forall|i: int| !table_configuration::is_first_lacking(all, i) by {
            if 0 <= i < all.len() {
                assert(columns[i].is_mapped());
            }
        }
    }
    if forall|i: int| !table_configuration::is_first_lacking(all, i) {
        lemma_none_lacks(all, all.len() as int);
        assert forall|k: int| 0 <= k < columns.len() implies (#[trigger] columns[k]).is_mapped() by {
            assert(table_configuration::annotation_problem(all[k]) is None);
        }
    }
}

pub proof fn lemma_none_lacks(all: Seq<FieldView>, n: int)
    requires
        0 <= n <= all.len(),
        forall|i: int| !table_configuration::is_first_lacking(all, i),
    ensures
        forall|i: int|
            0 <= i < n ==> table_configuration::annotation_problem(#[trigger] all[i]) is None,
    decreases n,
{
    if n > 0 {
        lemma_none_lacks(all, n - 1);
        if table_configuration::annotation_problem(all[n - 1]) is Some {
            assert(table_configuration::is_first_lacking(all, n - 1));
        }
    }
}

/// Changes to a mapped table leave each column with an id and a physical name, if they found each
/// one so.
pub proof fn mapped_tables_stay_mapped(
    operations: Seq<OperationView>,
    mode: ColumnMappingMode,
    names: Seq<Seq<char>>,
    state: EvolutionState,
)
    requires
        mode != ColumnMappingMode::NoMapping,
        state.names_used + evolution::names_needed(operations, mode) <= names.len(),
        is_fully_mapped(state.schema),
    ensures
        evolution::after_operations(operations, mode, names, state) matches Ok(after)
            ==> is_fully_mapped(after.schema),
    decreases operations.len(),
{
    if operations.len() > 0 {
        let front = operations.drop_last();
        mapped_tables_stay_mapped(front, mode, names, state);
        lemma_operations_error(front, mode, names, state);
        if let Ok(middle) = evolution::after_operations(front, mode, names, state) {
            if let Ok(after) = evolution::after_operation(operations.last(), mode, names, middle) {
                let old_columns = path_laws::schema_columns(middle.schema);
                let new_columns = path_laws::schema_columns(after.schema);
                match operations.last() {
                    OperationView::AddColumn { path, field } => {
                        let max = middle.max_id->0;
                        let own_names = names.skip(middle.names_used as int);
                        let (added, _) = field.assigned(max, own_names)->Ok_0;
                        evolution_laws::adding_keeps_other_columns(middle.schema, path, added);
                        let own = path_laws::columns(added.with_nested());
                        let k = choose|k: int|
                            #![trigger old_columns.take(k)]
                            0 <= k <= old_columns.len() && new_columns == old_columns.take(k) + own
                                + old_columns.skip(k);
                        assert forall|j: int| 0 <= j < new_columns.len() implies (
                        #[trigger] new_columns[j]).is_mapped() by {
                            if j < k {
                                assert(old_columns[j].is_mapped());
                            } else if j < k + own.len() {
                                mapping_laws::field_assignment(field, max, own_names);
                                lemma_assigned_is_mapped(field, max, own_names, j - k);
                                assert(new_columns[j] == own[j - k]);
                            } else {
                                assert(new_columns[j] == old_columns[j - own.len()]);
                                assert(old_columns[j - own.len()].is_mapped());
                            }
                        }
                    },
                    OperationView::SetNullable { column } => {
                        evolution_laws::set_nullable_changes_one_column(
                            middle.schema,
                            column.drop_last(),
                            column.last(),
                        );
                        assert forall|j: int| 0 <= j < new_columns.len() implies (
                        #[trigger] new_columns[j]).is_mapped() by {
                            assert(old_columns[j].is_mapped());
                        }
                    },
                }
            }
        }
    }
}

proof fn lemma_assigned_is_mapped(field: FieldView, max: int, names: Seq<Seq<char>>, k: int)
    requires
        field.with_nested().len() <= names.len(),
        0 <= k < field.with_nested().len(),
    ensures
        field.assigned(max, names) matches Ok((added, _)) ==> k < path_laws::columns(
            added.with_nested(),
        ).len() && path_laws::columns(added.with_nested())[k].is_mapped(),
{
    if let Ok((added, _)) = field.assigned(max, names) {
        mapping_laws::assigned_fields_have_physical_names(field, max, names, k);
        mapping_laws::assigned_fields_have_ids(field, max, names, k);
        assert(path_laws::columns(added.with_nested())[k] == added.with_nested()[k].column());
    }
}

/// Stripping a schema takes out the column mapping annotations of each field, at any depth, and
/// nothing else.
pub proof fn stripping_takes_out_annotations_only(schema: Seq<FieldView>)
    ensures
        !column_mapping::is_annotated(FieldView::all_stripped(schema)),
        FieldView::all_fields(FieldView::all_stripped(schema)).len() == FieldView::all_fields(
            schema,
        ).len(),
        forall|i: int|
            0 <= i < FieldView::all_fields(schema).len() ==> {
                let before = FieldView::all_fields(schema)[i];
                let after = #[trigger] FieldView::all_fields(FieldView::all_stripped(schema))[i];
                &&& after.name == before.name
                &&& after.nullable == before.nullable
                &&& after.metadata == column_mapping::column_mapping_removed()(before.metadata)
                &&& after.data_type.outline() == before.data_type.outline()
            },
{
    let change = column_mapping::column_mapping_removed();
    let all = FieldView::all_fields(schema);
    annotation_laws::lemma_all_fields_reannotated(schema, change);
    annotation_laws::lemma_all_reannotated(all, change);
    assert forall|i: int| 0 <= i < all.len() implies {
        let before = all[i];
        let after = #[trigger] FieldView::all_fields(FieldView::all_stripped(schema))[i];
        &&& after.name == before.name
        &&& after.nullable == before.nullable
        &&& after.metadata == change(before.metadata)
        &&& after.data_type.outline() == before.data_type.outline()
    } by {
        lemma_outline_reannotated(all[i].data_type, change);
    }
}

/// Annotations are no part of the outline of a type.
pub proof fn lemma_outline_reannotated(t: DataTypeView, change: column_mapping::MetadataChange)
    ensures
        t.reannotated(change).outline() == t.outline(),
    decreases t,
{
    match t {
        DataTypeView::Array { element_type, .. } => {
            lemma_outline_reannotated(*element_type, change);
        },
        DataTypeView::MapOf { key_type, value_type, .. } => {
            lemma_outline_reannotated(*key_type, change);
            lemma_outline_reannotated(*value_type, change);
        },
        _ => {},
    }
}

/// A table that does not map its columns and has no column mapping annotations gets none from
/// changes. One that has some keeps them, and what the changes bring.
pub proof fn clean_tables_stay_clean(
    config: ConfigurationView,
    operations: Seq<OperationView>,
    names: Seq<Seq<char>>,
)
    requires
        config.mode() == ColumnMappingMode::NoMapping,
    ensures
        evolution::evolved_configuration(config, operations, names) matches Ok(new_config) ==> {
            let before = config.metadata.schema;
            let after = evolution::evolved(
                before,
                operations,
                config.mode(),
                config.metadata.max_column_id(),
                names,
            )->Ok_0.0;
            &&& !column_mapping::is_annotated(before) ==> !column_mapping::is_annotated(
                new_config.metadata.schema,
            )
            &&& column_mapping::is_annotated(before) ==> new_config.metadata.schema == after
        },
{
    if let Ok(new_config) = evolution::evolved_configuration(config, operations, names) {
        let after = evolution::evolved(
            config.metadata.schema,
            operations,
            config.mode(),
            config.metadata.max_column_id(),
            names,
        )->Ok_0.0;
        stripping_takes_out_annotations_only(after);
    }
}

/// The keys of the two properties differ.
proof fn lemma_property_keys_differ()
    ensures
        COLUMN_MAPPING_MODE@ != COLUMN_MAPPING_MAX_COLUMN_ID@,
{
    reveal_strlit("delta.columnMapping.mode");
    reveal_strlit("delta.columnMapping.maxColumnId");
    assert(COLUMN_MAPPING_MODE@.len() == 24);
    assert(COLUMN_MAPPING_MAX_COLUMN_ID@.len() == 31);
}

/// Schema changes leave the rest of a table as it is: its id, protocol, place, version, column
/// mapping mode, and all properties but the greatest column mapping id. What they lead to is valid
/// under the protocol.
pub proof fn rest_of_the_table_stays(
    config: ConfigurationView,
    operations: Seq<OperationView>,
    names: Seq<Seq<char>>,
)
    ensures
        evolution::evolved_configuration(config, operations, names) matches Ok(new_config) ==> {
            &&& new_config.metadata.id == config.metadata.id
            &&& new_config.protocol == config.protocol
            &&& new_config.table_root == config.table_root
            &&& new_config.version == config.version
            &&& new_config.mode() == config.mode()
            &&& new_config.is_valid()
            &&& new_config.metadata.configuration.remove(COLUMN_MAPPING_MAX_COLUMN_ID@)
                == config.metadata.configuration.remove(COLUMN_MAPPING_MAX_COLUMN_ID@)
        },
{
    lemma_property_keys_differ();
    if let Ok(new_config) = evolution::evolved_configuration(config, operations, names) {
        assert(new_config.metadata.configuration.remove(COLUMN_MAPPING_MAX_COLUMN_ID@)
            =~= config.metadata.configuration.remove(COLUMN_MAPPING_MAX_COLUMN_ID@));
    }
}

spec fn in_range(max_id: Option<int>) -> bool {
    max_id matches Some(id) ==> i64::MIN <= id <= i64::MAX
}

proof fn lemma_greatest_id_in_range(
    operations: Seq<OperationView>,
    mode: ColumnMappingMode,
    names: Seq<Seq<char>>,
    state: EvolutionState,
)
    requires
        state.names_used + evolution::names_needed(operations, mode) <= names.len(),
        in_range(state.max_id),
    ensures
        evolution::after_operations(operations, mode, names, state) matches Ok(after) ==> in_range(
            after.max_id,
        ),
    decreases operations.len(),
{
    if operations.len() > 0 {
        let front = operations.drop_last();
        lemma_greatest_id_in_range(front, mode, names, state);
        run_laws::lemma_all_names_used(front, mode, names, state);
        if let Ok(middle) = evolution::after_operations(front, mode, names, state) {
            if let OperationView::AddColumn { field, .. } = operations.last() {
                if mode != ColumnMappingMode::NoMapping && middle.max_id is Some {
                    mapping_laws::assigned_ids_are_bounded(
                        field,
                        middle.max_id->0,
                        names.skip(middle.names_used as int),
                    );
                }
            }
        }
    }
}

/// The greatest column mapping id that changes report is the one that the table then keeps. If
/// they report none, the table keeps what it kept. The ids in the schema are 64-bit integers.
pub proof fn reported_id_is_kept(
    config: ConfigurationView,
    operations: Seq<OperationView>,
    names: Seq<Seq<char>>,
)
    requires
        evolution::names_needed(operations, config.mode()) <= names.len(),
        forall|k: int|
            0 <= k < column_mapping::schema_ids(config.metadata.schema).len() ==> i64::MIN <= (
            #[trigger] column_mapping::schema_ids(config.metadata.schema)[k]) <= i64::MAX,
    ensures
        evolution::evolved_configuration(config, operations, names) matches Ok(new_config) ==> {
            let reported = evolution::evolved(
                config.metadata.schema,
                operations,
                config.mode(),
                config.metadata.max_column_id(),
                names,
            )->Ok_0.1;
            match reported {
                Some(id) => new_config.metadata.max_column_id() == Some(id),
                None => new_config.metadata.max_column_id() == config.metadata.max_column_id(),
            }
        },
{
    if let Ok(new_config) = evolution::evolved_configuration(config, operations, names) {
        let reported = evolution::evolved(
            config.metadata.schema,
            operations,
            config.mode(),
            config.metadata.max_column_id(),
            names,
        )->Ok_0.1;
        if let Some(id) = reported {
            let ids = column_mapping::schema_ids(config.metadata.schema);
            if ids.len() > 0 {
                ids.max_ensures();
            }
            lemma_greatest_id_in_range(
                operations,
                config.mode(),
                names,
                evolution::starting_state(
                    config.metadata.schema,
                    config.mode(),
                    config.metadata.max_column_id(),
                ),
            );
            text::decimal_reads_back(id as i64);
        }
    }
}

proof fn lemma_mentions_reannotated(
    t: DataTypeView,
    p: PrimitiveType,
    change: column_mapping::MetadataChange,
)
    ensures
        t.reannotated(change).mentions(p) == t.mentions(p),
    decreases t,
{
    match t {
        DataTypeView::Primitive(_) => {},
        DataTypeView::Array { element_type, .. } => {
            lemma_mentions_reannotated(*element_type, p, change);
        },
        DataTypeView::Struct(fields) => {
            let others = FieldView::all_reannotated(fields, change);
            annotation_laws::lemma_all_reannotated(fields, change);
            assert forall|i: int| 0 <= i < fields.len() implies (
            #[trigger] others[i]).data_type.mentions(p) == fields[i].data_type.mentions(p) by {
                lemma_mentions_reannotated(fields[i].data_type, p, change);
            }
            if t.mentions(p) {
                let i = choose|i: int|
                    #![trigger fields[i]]
                    0 <= i < fields.len() && fields[i].data_type.mentions(p);
                assert(others[i].data_type.mentions(p));
            }
        },
        DataTypeView::MapOf { key_type, value_type, .. } => {
            lemma_mentions_reannotated(*key_type, p, change);
            lemma_mentions_reannotated(*value_type, p, change);
        },
    }
}

/// Which physical names a schema has, as long as it has them, does not decide whether it is valid
/// in a table.
proof fn lemma_problem_ignores_names(metadata: MetadataView, protocol: ProtocolView)
    ensures
        table_configuration::configuration_problem(
            annotation_laws::metadata_blanked(metadata),
            protocol,
        ) == table_configuration::configuration_problem(metadata, protocol),
{
    let change = annotation_laws::physical_names_blanked();
    let schema = metadata.schema;
    let blank = FieldView::all_reannotated(schema, change);
    let all = FieldView::all_fields(schema);
    let blank_all = FieldView::all_fields(blank);
    annotation_laws::lemma_all_fields_reannotated(schema, change);
    annotation_laws::lemma_all_reannotated(all, change);
    lemma_mentions_reannotated(DataTypeView::Struct(schema), PrimitiveType::TimestampNtz, change);
    ColumnMetadataKey::keys_differ();
    assert forall|i: int| 0 <= i < all.len() implies table_configuration::annotation_problem(
        #[trigger] blank_all[i],
    ) == table_configuration::annotation_problem(all[i]) by {
        assert(blank_all[i] == all[i].reannotated(change));
    }
    assert forall|i: int|
        table_configuration::is_first_lacking(blank_all, i)
            == table_configuration::is_first_lacking(all, i) by {
        if table_configuration::is_first_lacking(all, i) {
            assert(table_configuration::annotation_problem(blank_all[i]) is Some);
            assert forall|j: int| 0 <= j < i implies table_configuration::annotation_problem(
                #[trigger] blank_all[j],
            ) is None by {
                assert(table_configuration::annotation_problem(all[j]) is None);
            }
        }
        if table_configuration::is_first_lacking(blank_all, i) {
            assert forall|j: int| 0 <= j < i implies table_configuration::annotation_problem(
                #[trigger] all[j],
            ) is None by {
                assert(table_configuration::annotation_problem(blank_all[j]) is None);
            }
        }
    }
    if exists|i: int| table_configuration::is_first_lacking(all, i) {
        let i = choose|i: int| table_configuration::is_first_lacking(all, i);
        let k = choose|k: int| table_configuration::is_first_lacking(blank_all, k);
        assert(table_configuration::is_first_lacking(blank_all, i));
        assert(table_configuration::is_first_lacking(all, k));
        if i < k {
            assert(table_configuration::annotation_problem(all[i]) is None);
        }
        if k < i {
            assert(table_configuration::annotation_problem(all[k]) is None);
        }
        assert(i == k);
        assert(table_configuration::annotation_problem(blank_all[k])
            == table_configuration::annotation_problem(all[k]));
    }
}

/// Which physical names are generated decides nothing about a table but the physical names.
pub proof fn configuration_ignores_generated_names(
    config: ConfigurationView,
    operations: Seq<OperationView>,
    names_a: Seq<Seq<char>>,
    names_b: Seq<Seq<char>>,
)
    requires
        evolution::names_needed(operations, config.mode()) <= names_a.len(),
        evolution::names_needed(operations, config.mode()) <= names_b.len(),
    ensures
        annotation_laws::same_configurations(
            evolution::evolved_configuration(config, operations, names_a),
            evolution::evolved_configuration(config, operations, names_b),
        ),
{
    let schema = config.metadata.schema;
    let kept = config.metadata.max_column_id();
    if config.mode() == ColumnMappingMode::NoMapping {
        unmapped_tables_get_no_ids(schema, operations, kept, names_a, names_b);
    } else {
        annotation_laws::outcome_ignores_generated_names(
            schema,
            operations,
            config.mode(),
            kept,
            names_a,
            names_b,
        );
        if let Ok((x, reported)) = evolution::evolved(
            schema,
            operations,
            config.mode(),
            kept,
            names_a,
        ) {
            let y = evolution::evolved(schema, operations, config.mode(), kept, names_b)->Ok_0.0;
            let configuration = evolution::settled_configuration(
                config.metadata.configuration,
                reported,
            );
            let a = MetadataView { schema: x, configuration, ..config.metadata };
            let b = MetadataView { schema: y, configuration, ..config.metadata };
            lemma_problem_ignores_names(a, config.protocol);
            lemma_problem_ignores_names(b, config.protocol);
        }
    }
}

} // verus!
