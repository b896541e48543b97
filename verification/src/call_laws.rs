//! What callers can count on, call by call.
use vstd::prelude::*;

use crate::assignment_laws;
use crate::column_mapping;
use crate::column_mapping::{
    find_max_column_id_in_schema, schema_has_column_mapping_metadata,
    strip_stray_column_mapping_metadata, validate_column_mapping_id, ColumnMappingMode,
};
use crate::column_name;
use crate::configuration_laws;
use crate::error::{DeltaResult, ErrorView};
use crate::evolution;
use crate::evolution::{
    add_field, apply_schema_operations, apply_schema_operations_with_names, evolve_table_config,
    evolve_table_config_with_names, set_field_nullable, EvolutionState, OperationView,
    SchemaEvolutionResult, SchemaOperation,
};
use crate::evolution_laws;
use crate::operation_laws;
use crate::schema;
use crate::schema::{DataTypeView, FieldView, StructField, StructType};
use crate::schema_laws;
use crate::table_configuration;
use crate::table_configuration::{
    Metadata, Protocol, TableConfiguration,
};
use crate::table_laws;
use crate::text;
use crate::validation;
use crate::validation::validate_schema;

verus! {

/// Changes to a schema with given names come out as described.
pub proof fn calls_with_names_come_out_as_described(
    schema: StructType,
    operations: Vec<SchemaOperation>,
    mode: ColumnMappingMode,
    kept: Option<i64>,
    names: &Vec<String>,
    result: DeltaResult<SchemaEvolutionResult>,
)
    requires
        call_ensures(
            apply_schema_operations_with_names,
            (schema, operations, mode, kept, names),
            result,
        ),
    ensures
        evolution::result_view(result) == evolution::evolved(
            schema@,
            evolution::operations_view(operations@),
            mode,
            evolution::id_view(kept),
            column_name::names_view(names@),
        ),
{
}

/// Changes to a schema come out as described for some generated names, as many as they need.
pub proof fn calls_come_out_as_described(
    schema: StructType,
    operations: Vec<SchemaOperation>,
    mode: ColumnMappingMode,
    kept: Option<i64>,
    result: DeltaResult<SchemaEvolutionResult>,
) -> (names: Seq<Seq<char>>)
    requires
        call_ensures(apply_schema_operations, (schema, operations, mode, kept), result),
    ensures
        column_mapping::are_generated_names(names),
        names.len() == evolution::names_needed(evolution::operations_view(operations@), mode),
        evolution::result_view(result) == evolution::evolved(
            schema@,
            evolution::operations_view(operations@),
            mode,
            evolution::id_view(kept),
            names,
        ),
{
    choose|names: Seq<Seq<char>>| #[trigger]
        column_mapping::are_generated_names(names) && names.len() == evolution::names_needed(
            evolution::operations_view(operations@),
            mode,
        ) && evolution::result_view(result) == evolution::evolved(
            schema@,
            evolution::operations_view(operations@),
            mode,
            evolution::id_view(kept),
            names,
        )
}

proof fn lemma_one_change(
    operation: OperationView,
    mode: ColumnMappingMode,
    names: Seq<Seq<char>>,
    state: EvolutionState,
)
    ensures
        evolution::after_operations(seq![operation], mode, names, state)
            == evolution::after_operation(operation, mode, names, state),
        evolution::names_needed(seq![operation], mode) == evolution::names_for_operation(
            operation,
            mode,
        ),
{
    assert(seq![operation].drop_last() == Seq::<OperationView>::empty());
    operation_laws::changes_one_by_one(Seq::empty(), operation, mode, names, state);
    assert(Seq::<OperationView>::empty().push(operation) =~= seq![operation]);
    assert(evolution::names_needed(Seq::<OperationView>::empty(), mode) == 0);
}

/// Whether some changes are just the one that adds a field at a path.
pub open spec fn is_one_addition(
    operations: Seq<SchemaOperation>,
    path: Seq<Seq<char>>,
    field: FieldView,
) -> bool {
    operations.len() == 1 && operations[0]@ == (OperationView::AddColumn { path, field })
}

/// Whether some changes are just the one that makes a column nullable.
pub open spec fn is_one_nullability_change(
    operations: Seq<SchemaOperation>,
    column: Seq<Seq<char>>,
) -> bool {
    operations.len() == 1 && operations[0]@ == (OperationView::SetNullable { column })
}

/// A call that adds one column to a schema whose columns are not mapped: on success the column is
/// found at its path just as it was given, it was nullable and not computed, the struct there has it
/// after its other fields, the rest is as it was, the schema is valid, and no id is reported. It is
/// successful just when the column may be added and the schema is then valid.
pub proof fn unmapped_call_adds_the_column(
    schema: StructType,
    operations: Vec<SchemaOperation>,
    result: DeltaResult<SchemaEvolutionResult>,
    path: Seq<Seq<char>>,
    field: FieldView,
)
    requires
        call_ensures(
            apply_schema_operations,
            (schema, operations, ColumnMappingMode::NoMapping, None),
            result,
        ),
        is_one_addition(operations@, path, field),
    ensures
        ({
            let root = DataTypeView::Struct(schema@);
            let updated = root.with_target(path, root.target(path)->Ok_0.push(field));
            &&& result matches Ok(r) ==> {
                &&& evolution_laws::field_at(r.schema@, path.push(field.name)) == Some(field)
                &&& DataTypeView::Struct(r.schema@) == updated
                &&& r.new_max_column_id is None
            }
            &&& result is Ok <==> {
                &&& field.nullable
                &&& !operation_laws::is_computed(field)
                &&& !operation_laws::holds_computed(field)
                &&& root.target(path) is Ok
                &&& !operation_laws::has_name(root.target(path)->Ok_0, field.name)
                &&& validation::schema_problem(updated->Struct_0, ColumnMappingMode::NoMapping)
                    is None
            }
        }),
{
    let mode = ColumnMappingMode::NoMapping;
    let names = calls_come_out_as_described(schema, operations, mode, None, result);
    let operation = OperationView::AddColumn { path, field };
    let start = evolution::starting_state(schema@, mode, None);
    assert(evolution::operations_view(operations@) =~= seq![operation]);
    lemma_one_change(operation, mode, names, start);
    operation_laws::what_comes_of_changes(schema@, seq![operation], mode, None, names);
    operation_laws::when_columns_are_added(path, field, mode, names, start);
    operation_laws::added_columns_are_those_given(path, field, mode, names, start);
}

/// A call that adds one column to a schema whose columns are mapped: on success the column is found
/// at its path as it was given but for column mapping annotations, with an id and a physical name on
/// it and on each field inside its type, and the greatest id is reported if it went up.
pub proof fn mapped_call_adds_the_column(
    schema: StructType,
    operations: Vec<SchemaOperation>,
    mode: ColumnMappingMode,
    kept: Option<i64>,
    result: DeltaResult<SchemaEvolutionResult>,
    path: Seq<Seq<char>>,
    field: FieldView,
)
    requires
        mode != ColumnMappingMode::NoMapping,
        call_ensures(apply_schema_operations, (schema, operations, mode, kept), result),
        is_one_addition(operations@, path, field),
    ensures
        result matches Ok(r) ==> {
            let found = evolution_laws::field_at(r.schema@, path.push(field.name));
            let added = found->0;
            let root = DataTypeView::Struct(schema@);
            &&& kept is Some
            &&& 0 <= kept->0 <= 2147483647
            &&& found is Some
            &&& field.nullable
            &&& !operation_laws::is_computed(field)
            &&& !operation_laws::holds_computed(field)
            &&& DataTypeView::Struct(r.schema@) == root.with_target(
                path,
                root.target(path)->Ok_0.push(added),
            )
            &&& assignment_laws::unmapped(added) == assignment_laws::unmapped(field)
            &&& exists|start: int, names: Seq<Seq<char>>|
                {
                    let max = assignment_laws::greatest_so_far(field.with_nested(), start);
                    &&& operation_laws::is_greatest_in_use(schema@, mode, kept->0 as int, start)
                    &&& #[trigger] is_assigned(field, added, start, names)
                    &&& evolution::id_view(r.new_max_column_id) == if max > kept->0 {
                        Some(max)
                    } else {
                        None
                    }
                }
        },
{
    let names = calls_come_out_as_described(schema, operations, mode, kept, result);
    let operation = OperationView::AddColumn { path, field };
    let start = evolution::starting_state(schema@, mode, evolution::id_view(kept));
    assert(evolution::operations_view(operations@) =~= seq![operation]);
    lemma_one_change(operation, mode, names, start);
    operation_laws::what_comes_of_changes(
        schema@,
        seq![operation],
        mode,
        evolution::id_view(kept),
        names,
    );
    operation_laws::when_columns_are_added(path, field, mode, names, start);
    operation_laws::added_columns_are_those_given(path, field, mode, names, start);
    if let Ok(r) = result {
        let added = evolution_laws::field_at(r.schema@, path.push(field.name))->0;
        assert(names.skip(0) =~= names);
        assert(is_assigned(field, added, start.max_id->0, names));
    }
}

/// Whether each field of a column has the id that it came with or the one after the greatest in use
/// before it, and the physical name that it came with or one of generated form.
pub open spec fn is_assigned(
    field: FieldView,
    added: FieldView,
    start: int,
    names: Seq<Seq<char>>,
) -> bool {
    &&& column_mapping::are_generated_names(names)
    &&& names.len() == field.with_nested().len()
    &&& added.with_nested().len() == field.with_nested().len()
    &&& forall|k: int|
        0 <= k < field.with_nested().len() ==> #[trigger] assignment_laws::has_its_due(
            field.with_nested(),
            added.with_nested(),
            start,
            names,
            k,
        )
}

/// A call that makes one column nullable: on success the first field of the name in the struct at
/// the path is nullable, and all else is as it was. It is successful just when that field is there,
/// whatever its type, the kept id is allowed, and the schema is valid.
pub proof fn call_makes_the_column_nullable(
    schema: StructType,
    operations: Vec<SchemaOperation>,
    mode: ColumnMappingMode,
    kept: Option<i64>,
    result: DeltaResult<SchemaEvolutionResult>,
    path: Seq<Seq<char>>,
    name: Seq<char>,
    i: int,
)
    requires
        call_ensures(apply_schema_operations, (schema, operations, mode, kept), result),
        is_one_nullability_change(operations@, path.push(name)),
        DataTypeView::Struct(schema@).target(path) is Ok,
        operation_laws::is_first_with_name(
            DataTypeView::Struct(schema@).target(path)->Ok_0,
            name,
            i,
        ),
    ensures
        ({
            let root = DataTypeView::Struct(schema@);
            let fields = root.target(path)->Ok_0;
            let updated = root.with_target(
                path,
                fields.update(
                    i,
                    FieldView {
                        name: fields[i].name,
                        data_type: fields[i].data_type,
                        nullable: true,
                        metadata: fields[i].metadata,
                    },
                ),
            );
            &&& result matches Ok(r) ==> DataTypeView::Struct(r.schema@) == updated
            &&& result is Ok <==> (kept is Some ==> 0 <= kept->0 <= 2147483647)
                && validation::schema_problem(updated->Struct_0, mode) is None
        }),
{
    let names = calls_come_out_as_described(schema, operations, mode, kept, result);
    let column = path.push(name);
    let operation = OperationView::SetNullable { column };
    let start = evolution::starting_state(schema@, mode, evolution::id_view(kept));
    assert(evolution::operations_view(operations@) =~= seq![operation]);
    assert(column.drop_last() =~= path);
    assert(column.last() == name);
    lemma_one_change(operation, mode, names, start);
    operation_laws::what_comes_of_changes(
        schema@,
        seq![operation],
        mode,
        evolution::id_view(kept),
        names,
    );
    operation_laws::present_columns_are_made_nullable(column, mode, names, start);
    let fields = DataTypeView::Struct(schema@).target(path)->Ok_0;
    assert(operation_laws::has_name(fields, name)) by {
        assert(text::lowercase(fields[i].name) == text::lowercase(name));
    }
    assert forall|j: int| operation_laws::is_first_with_name(fields, name, j) implies j == i by {
        if j < i {
            assert(text::lowercase(fields[j].name) != text::lowercase(name));
        }
        if i < j {
            assert(text::lowercase(fields[i].name) != text::lowercase(name));
        }
    }
}

/// Changes to a table come out as described: for the given names, or for some generated ones.
pub proof fn table_calls_come_out_as_described(
    config: &TableConfiguration,
    operations: Vec<SchemaOperation>,
    names: &Vec<String>,
    result: DeltaResult<TableConfiguration>,
)
    ensures
        call_ensures(evolve_table_config_with_names, (config, operations, names), result)
            ==> evolution::configuration_view(result) == evolution::evolved_configuration(
            config@,
            evolution::operations_view(operations@),
            column_name::names_view(names@),
        ),
        call_ensures(evolve_table_config, (config, operations), result) ==> exists|
            generated: Seq<Seq<char>>,
        | #[trigger]
            column_mapping::are_generated_names(generated) && evolution::configuration_view(result)
                == evolution::evolved_configuration(
                config@,
                evolution::operations_view(operations@),
                generated,
            ),
{
}

/// A call that changes a table: on success the table has the schema that comes of the changes, with
/// column mapping annotations taken out only where they were brought into a table that does not map
/// its columns and had none; it is valid, and all but its schema and its greatest id is as it was.
pub proof fn table_call_changes_the_schema(
    config: &TableConfiguration,
    operations: Vec<SchemaOperation>,
    result: DeltaResult<TableConfiguration>,
)
    requires
        call_ensures(evolve_table_config, (config, operations), result),
    ensures
        exists|names: Seq<Seq<char>>|
            {
                let before = config@.metadata.schema;
                let outcome = evolution::evolved(
                    before,
                    evolution::operations_view(operations@),
                    config@.mode(),
                    config@.metadata.max_column_id(),
                    names,
                );
                &&& #[trigger] column_mapping::are_generated_names(names)
                &&& outcome matches Err(e) ==> result is Err && result->Err_0@ == e
                &&& result matches Ok(new_config) ==> {
                    let after = outcome->Ok_0.0;
                    let schema = new_config@.metadata.schema;
                    &&& outcome is Ok
                    &&& schema == after || (config@.mode() == ColumnMappingMode::NoMapping
                        && !column_mapping::is_annotated(before) && column_mapping::is_annotated(
                        after,
                    ) && configuration_laws::is_stripped(after, schema))
                    &&& new_config@.is_valid()
                    &&& new_config@.metadata.id == config@.metadata.id
                    &&& new_config@.protocol == config@.protocol
                    &&& new_config@.table_root == config@.table_root
                    &&& new_config@.version == config@.version
                    &&& match outcome->Ok_0.1 {
                        Some(id) => new_config@.metadata.max_column_id() == Some(id),
                        None => new_config@.metadata.configuration
                            == config@.metadata.configuration,
                    }
                }
            },
{
    let views = evolution::operations_view(operations@);
    let names = choose|names: Seq<Seq<char>>| #[trigger]
        column_mapping::are_generated_names(names) && names.len() == evolution::names_needed(
            views,
            config@.mode(),
        ) && evolution::configuration_view(result) == evolution::evolved_configuration(
            config@,
            views,
            names,
        ) && (result matches Ok(new_config) ==> new_config@.metadata.max_column_id()
            == evolution::kept_after(config@, views, names));
    configuration_laws::tables_get_what_comes_of_changes(config@, views, names);
    if let Ok(new_config) = result {
        table_laws::rest_of_the_table_stays(config@, views, names);
        let outcome = evolution::evolved(
            config@.metadata.schema,
            views,
            config@.mode(),
            config@.metadata.max_column_id(),
            names,
        );
        if outcome->Ok_0.1 is None {
            assert(new_config@.metadata.configuration =~= config@.metadata.configuration);
        }
    }
}

/// Adding a field to a struct puts it after the others, and is refused just when the struct has a
/// field of its name, whatever the case. Making a field nullable does so to the first field of the
/// name, whatever its type, changes nothing else, and is refused just when there is none. A refused
/// call leaves the struct as it is.
pub proof fn struct_calls_do_one_thing(field: StructField, name: &str)
    ensures
        forall|parent: &mut StructType, result: DeltaResult<()>| #[trigger]
            call_ensures(add_field, (parent, field), result) ==> match result {
                Ok(()) => !operation_laws::has_name(parent@, field@.name) && final(parent)@
                    == parent@.push(field@),
                Err(e) => operation_laws::has_name(parent@, field@.name) && final(parent)@ == parent@
                    && e@ == ErrorView::Schema(
                    "Cannot add column '"@ + field@.name
                        + "': a column with that name already exists"@,
                ),
            },
        forall|parent: &mut StructType, result: DeltaResult<()>| #[trigger]
            call_ensures(set_field_nullable, (parent, name), result) ==> match result {
                Ok(()) => is_nullable_by_name(parent@, final(parent)@, name@),
                Err(e) => !operation_laws::has_name(parent@, name@) && final(parent)@ == parent@
                    && e@ == ErrorView::Schema("field '"@ + name@ + "' does not exist"@),
            },
{
    assert forall|parent: &mut StructType, result: DeltaResult<()>| #[trigger]
        call_ensures(add_field, (parent, field), result) implies match result {
        Ok(()) => !operation_laws::has_name(parent@, field@.name) && final(parent)@ == parent@.push(
            field@,
        ),
        Err(e) => operation_laws::has_name(parent@, field@.name) && final(parent)@ == parent@ && e@
            == ErrorView::Schema(
            "Cannot add column '"@ + field@.name + "': a column with that name already exists"@,
        ),
    } by {
        operation_laws::one_field_is_added(parent@, field@);
    }
    assert forall|parent: &mut StructType, result: DeltaResult<()>| #[trigger]
        call_ensures(set_field_nullable, (parent, name), result) implies match result {
        Ok(()) => is_nullable_by_name(parent@, final(parent)@, name@),
        Err(e) => !operation_laws::has_name(parent@, name@) && final(parent)@ == parent@ && e@
            == ErrorView::Schema("field '"@ + name@ + "' does not exist"@),
    } by {
        operation_laws::one_field_is_made_nullable(parent@, name@);
    }
}

/// Whether the first field of a name became nullable, and nothing else changed.
pub open spec fn is_nullable_by_name(
    before: Seq<FieldView>,
    after: Seq<FieldView>,
    name: Seq<char>,
) -> bool {
    &&& operation_laws::has_name(before, name)
    &&& after.len() == before.len()
    &&& forall|i: int|
        0 <= i < before.len() ==> {
            &&& (#[trigger] after[i]).name == before[i].name
            &&& after[i].data_type == before[i].data_type
            &&& after[i].metadata == before[i].metadata
            &&& after[i].nullable == (before[i].nullable || operation_laws::is_first_with_name(
                before,
                name,
                i,
            ))
        }
}

/// The checks and the search that changes rest on: an id is allowed from 0 to 2147483647; a schema
/// is refused for what is wrong with it; the greatest id in a schema is found; annotations are
/// found; and they are stripped just when there are some and there were none before.
pub proof fn checks_come_out_as_described(
    id: i64,
    schema: &StructType,
    mode: ColumnMappingMode,
    had_some: bool,
    allowed: DeltaResult<()>,
    valid: DeltaResult<()>,
    max_id: Option<i64>,
    annotated: bool,
    stripped: Option<StructType>,
)
    ensures
        call_ensures(validate_column_mapping_id, (id,), allowed) ==> (allowed is Ok <==> 0 <= id
            <= 2147483647),
        call_ensures(validate_schema, (schema, mode), valid) ==> match valid {
            Ok(()) => validation::schema_problem(schema@, mode) is None,
            Err(e) => validation::schema_problem(schema@, mode) == Some(e@),
        },
        call_ensures(find_max_column_id_in_schema, (schema,), max_id) ==> match max_id {
            None => column_mapping::schema_ids(schema@).len() == 0,
            Some(max) => column_mapping::schema_ids(schema@).contains(max as int) && forall|k: int|
                0 <= k < column_mapping::schema_ids(schema@).len() ==> (
                #[trigger] column_mapping::schema_ids(schema@)[k]) <= max,
        },
        call_ensures(schema_has_column_mapping_metadata, (schema,), annotated) ==> annotated
            == column_mapping::is_annotated(schema@),
        call_ensures(strip_stray_column_mapping_metadata, (had_some, schema), stripped) ==> {
            &&& stripped is Some <==> !had_some && column_mapping::is_annotated(schema@)
            &&& stripped matches Some(s) ==> configuration_laws::is_stripped(schema@, s@)
        },
{
    schema_laws::ids_in_order(
        Seq::empty(),
        FieldView::all_fields(schema@)[0],
        column_mapping::schema_ids(schema@),
    );
    configuration_laws::lemma_stripped(schema@);
}

/// A table is made of what it is given, and refused for what is wrong with that.
pub proof fn tables_are_made_of_what_is_given(
    metadata: Metadata,
    protocol: Protocol,
    table_root: String,
    version: u64,
    result: DeltaResult<TableConfiguration>,
)
    requires
        call_ensures(TableConfiguration::try_new, (metadata, protocol, table_root, version), result),
    ensures
        match result {
            Ok(config) => {
                &&& config@.metadata == metadata@
                &&& config@.protocol == protocol@
                &&& config@.table_root == table_root@
                &&& config@.version == version
                &&& table_configuration::configuration_problem(metadata@, protocol@) is None
            },
            Err(e) => table_configuration::configuration_problem(metadata@, protocol@) == Some(e@),
        },
{
}

/// A struct is made of the fields that it is given, in their order, and refused just when two of
/// them have one lower-case name.
pub proof fn structs_are_made_of_what_is_given(
    fields: Vec<StructField>,
    result: DeltaResult<StructType>,
)
    requires
        call_ensures(StructType::try_new, (fields,), result),
    ensures
        result matches Ok(s) ==> s@ == schema::views(fields@),
        result is Ok <==> forall|i: int, j: int|
            0 <= i < j < fields@.len() ==> text::lowercase((#[trigger] fields@[i]).name@)
                != text::lowercase((#[trigger] fields@[j]).name@),
{
    let views = schema::views(fields@);
    assert(views.len() == fields@.len());
    if FieldView::distinct(views) {
        assert forall|i: int, j: int| 0 <= i < j < fields@.len() implies text::lowercase(
            (#[trigger] fields@[i]).name@,
        ) != text::lowercase((#[trigger] fields@[j]).name@) by {
            assert(text::lowercase(views[i].name) != text::lowercase(views[j].name));
        }
    } else {
        let (i, j) = choose|i: int, j: int|
            0 <= i < j < views.len() && text::lowercase(#[trigger] views[i].name)
                == text::lowercase(#[trigger] views[j].name);
        assert(text::lowercase(fields@[i].name@) == text::lowercase(fields@[j].name@));
    }
}

} // verus!
