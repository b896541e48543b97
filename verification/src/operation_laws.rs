//! When a change is made, what it makes of the schema, and why it is refused.
use vstd::prelude::*;

use crate::assignment_laws;
use crate::column_mapping;
use crate::column_mapping::ColumnMappingMode;
use crate::column_name;
use crate::error::ErrorView;
use crate::evolution;
use crate::evolution::{EvolutionState, OperationView};
use crate::evolution_laws;
use crate::schema::{DataTypeView, FieldView, MetadataValueView};
use crate::schema_laws;
use crate::text;
use crate::validation;

verus! {

/// Whether a field is annotated with the name of a column that a reader computes.
pub open spec fn is_computed(field: FieldView) -> bool {
    let key = "delta.metadataSpec"@;
    ||| schema_laws::is_annotated_as(field, key, MetadataValueView::String("row_index"@))
    ||| schema_laws::is_annotated_as(field, key, MetadataValueView::String("row_id"@))
    ||| schema_laws::is_annotated_as(field, key, MetadataValueView::String("row_commit_version"@))
}

/// Whether some field inside the type of a field is computed.
pub open spec fn holds_computed(field: FieldView) -> bool {
    exists|k: int|
        0 <= k < field.data_type.nested_fields().len() && is_computed(
            #[trigger] field.data_type.nested_fields()[k],
        )
}

/// Whether a field of a list has a name, but for case.
pub open spec fn has_name(fields: Seq<FieldView>, name: Seq<char>) -> bool {
    exists|i: int|
        0 <= i < fields.len() && text::lowercase((#[trigger] fields[i]).name) == text::lowercase(
            name,
        )
}

/// Whether field `i` of a list is the first that has a name, but for case.
pub open spec fn is_first_with_name(fields: Seq<FieldView>, name: Seq<char>, i: int) -> bool {
    &&& 0 <= i < fields.len()
    &&& text::lowercase(fields[i].name) == text::lowercase(name)
    &&& forall|j: int|
        0 <= j < i ==> text::lowercase((#[trigger] fields[j]).name) != text::lowercase(name)
}

proof fn lemma_computed(field: FieldView)
    ensures
        field.is_metadata_column() == is_computed(field),
        evolution::has_nested_computed_column(field) == holds_computed(field),
{
    let nested = field.data_type.nested_fields();
    schema_laws::annotations_tell_what_a_field_is(field, 0);
    if evolution::has_nested_computed_column(field) {
        let k = choose|k: int| 0 <= k < nested.len() && (#[trigger] nested[k]).is_metadata_column();
        schema_laws::annotations_tell_what_a_field_is(nested[k], 0);
        assert(is_computed(nested[k]));
    }
    if holds_computed(field) {
        let k = choose|k: int| 0 <= k < nested.len() && is_computed(#[trigger] nested[k]);
        schema_laws::annotations_tell_what_a_field_is(nested[k], 0);
        assert(nested[k].is_metadata_column());
    }
}

proof fn lemma_name_found(fields: Seq<FieldView>, name: Seq<char>)
    ensures
        FieldView::position(fields, text::lowercase(name)) is Some <==> has_name(fields, name),
        FieldView::position(fields, text::lowercase(name)) matches Some(i) ==> is_first_with_name(
            fields,
            name,
            i,
        ),
{
    let lowered = text::lowercase(name);
    if has_name(fields, name) {
        let i = choose|i: int|
            0 <= i < fields.len() && text::lowercase((#[trigger] fields[i]).name) == lowered;
        schema_laws::names_find_the_first_field(fields, lowered, i);
    }
    if let Some(i) = FieldView::position(fields, lowered) {
        assert(FieldView::is_position(fields, lowered, i));
        assert(text::lowercase(fields[i].name) == lowered);
        assert forall|j: int| 0 <= j < i implies text::lowercase((#[trigger] fields[j]).name)
            != lowered by {
            assert(text::lowercase(fields[j].name) != lowered);
        }
    }
}

/// Whether each field of a column can get a column mapping id and a physical name.
pub open spec fn is_sound(field: FieldView, max: int) -> bool {
    forall|k: int|
        0 <= k < field.with_nested().len() ==> #[trigger] assignment_laws::is_sound_at(
            field.with_nested(),
            max,
            k,
        )
}

/// A field is added to the end of a struct that has none of its name, whatever the case, as it is.
/// Else it is refused.
pub proof fn one_field_is_added(fields: Seq<FieldView>, field: FieldView)
    ensures
        match evolution::with_field(fields, field) {
            Ok(updated) => {
                &&& !has_name(fields, field.name)
                &&& updated.len() == fields.len() + 1
                &&& forall|i: int| 0 <= i < fields.len() ==> #[trigger] updated[i] == fields[i]
                &&& updated[fields.len() as int] == field
            },
            Err(e) => has_name(fields, field.name) && e == ErrorView::Schema(
                "Cannot add column '"@ + field.name
                    + "': a column with that name already exists"@,
            ),
        },
{
    lemma_name_found(fields, field.name);
}

/// The first field of a name, whatever the case and whatever its type, is made nullable, and nothing
/// else changes. It is refused only where there is no such field.
pub proof fn one_field_is_made_nullable(fields: Seq<FieldView>, name: Seq<char>)
    ensures
        match evolution::with_nullable(fields, name) {
            Ok(updated) => {
                &&& has_name(fields, name)
                &&& updated.len() == fields.len()
                &&& forall|i: int|
                    0 <= i < fields.len() ==> {
                        &&& (#[trigger] updated[i]).name == fields[i].name
                        &&& updated[i].data_type == fields[i].data_type
                        &&& updated[i].metadata == fields[i].metadata
                        &&& updated[i].nullable == (fields[i].nullable || is_first_with_name(
                            fields,
                            name,
                            i,
                        ))
                    }
            },
            Err(e) => !has_name(fields, name) && e == ErrorView::Schema(
                "field '"@ + name + "' does not exist"@,
            ),
        },
{
    lemma_name_found(fields, name);
    if let Some(k) = FieldView::position(fields, text::lowercase(name)) {
        assert forall|i: int| is_first_with_name(fields, name, i) implies i == k by {
            if i < k {
                assert(text::lowercase(fields[i].name) != text::lowercase(name));
            }
            if k < i {
                assert(text::lowercase(fields[k].name) != text::lowercase(name));
            }
        }
    }
}

/// A column is added just when it is nullable, neither it nor a field inside its type is computed,
/// the path leads to a struct, that struct has no field of the name, whatever the case, and, where
/// columns are mapped, the table keeps the greatest id and each field can get an id and a physical
/// name.
pub proof fn when_columns_are_added(
    path: Seq<Seq<char>>,
    field: FieldView,
    mode: ColumnMappingMode,
    names: Seq<Seq<char>>,
    state: EvolutionState,
)
    requires
        mode != ColumnMappingMode::NoMapping ==> state.names_used + field.with_nested().len()
            <= names.len(),
    ensures
        evolution::after_operation(
            OperationView::AddColumn { path, field },
            mode,
            names,
            state,
        ) is Ok <==> {
            &&& field.nullable
            &&& !is_computed(field)
            &&& !holds_computed(field)
            &&& mode != ColumnMappingMode::NoMapping ==> state.max_id is Some && is_sound(
                field,
                state.max_id->0,
            )
            &&& DataTypeView::Struct(state.schema).target(path) is Ok
            &&& !has_name(DataTypeView::Struct(state.schema).target(path)->Ok_0, field.name)
        },
{
    lemma_computed(field);
    let fields = DataTypeView::Struct(state.schema).target(path)->Ok_0;
    lemma_name_found(fields, field.name);
    if mode != ColumnMappingMode::NoMapping && state.max_id is Some {
        let own_names = names.skip(state.names_used as int);
        assignment_laws::sound_columns_are_assigned(field, state.max_id->0, own_names);
        if field.assigned(state.max_id->0, own_names) is Err {
            let k = choose|k: int|
                0 <= k < field.with_nested().len() && !(#[trigger] assignment_laws::is_sound_at(
                    field.with_nested(),
                    state.max_id->0,
                    k,
                ));
            assert(!is_sound(field, state.max_id->0));
        }
    }
}

/// An added column is found at its path. Where columns are not mapped it is just the column of the
/// change: its type, nullability and annotations too. Where they are mapped it is that column but
/// for column mapping annotations, and each of its fields has the id and the physical name that are
/// its due. The struct at the path has it at its end, and nothing else in the schema changes.
pub proof fn added_columns_are_those_given(
    path: Seq<Seq<char>>,
    field: FieldView,
    mode: ColumnMappingMode,
    names: Seq<Seq<char>>,
    state: EvolutionState,
)
    requires
        mode != ColumnMappingMode::NoMapping ==> state.names_used + field.with_nested().len()
            <= names.len(),
    ensures
        evolution::after_operation(
            OperationView::AddColumn { path, field },
            mode,
            names,
            state,
        ) matches Ok(after) ==> {
            let root = DataTypeView::Struct(state.schema);
            let found = evolution_laws::field_at(after.schema, path.push(field.name));
            let added = found->0;
            &&& found is Some
            &&& root.target(path) is Ok
            &&& DataTypeView::Struct(after.schema) == root.with_target(
                path,
                root.target(path)->Ok_0.push(added),
            )
            &&& path.len() == 0 ==> after.schema == state.schema.push(added)
            &&& mode == ColumnMappingMode::NoMapping ==> {
                &&& added == field
                &&& after.max_id == state.max_id
                &&& after.names_used == state.names_used
            }
            &&& mode != ColumnMappingMode::NoMapping ==> {
                let max = state.max_id->0;
                &&& state.max_id is Some
                &&& assignment_laws::unmapped(added) == assignment_laws::unmapped(field)
                &&& assignment_laws::is_kept_but_for_mapping(field, added)
                &&& added.with_nested().len() == field.with_nested().len()
                &&& forall|k: int|
                    0 <= k < field.with_nested().len() ==> {
                        &&& #[trigger] assignment_laws::has_its_due(
                            field.with_nested(),
                            added.with_nested(),
                            max,
                            names.skip(state.names_used as int),
                            k,
                        )
                        &&& assignment_laws::is_kept_but_for_mapping(
                            field.with_nested()[k],
                            added.with_nested()[k],
                        )
                    }
                &&& after.max_id == Some(assignment_laws::greatest_so_far(field.with_nested(), max))
                &&& after.names_used == state.names_used + field.with_nested().len()
            }
        },
{
    let operation = OperationView::AddColumn { path, field };
    if let Ok(after) = evolution::after_operation(operation, mode, names, state) {
        let (added, prepared_state) = evolution::prepared(field, mode, names, state)->Ok_0;
        if mode != ColumnMappingMode::NoMapping {
            let own_names = names.skip(state.names_used as int);
            assignment_laws::assignment_keeps_the_column(field, state.max_id->0, own_names);
            assignment_laws::each_field_gets_its_due(field, state.max_id->0, own_names);
            assert forall|k: int| 0 <= k < field.with_nested().len() implies {
                &&& #[trigger] assignment_laws::has_its_due(
                    field.with_nested(),
                    added.with_nested(),
                    state.max_id->0,
                    own_names,
                    k,
                )
                &&& assignment_laws::is_kept_but_for_mapping(
                    field.with_nested()[k],
                    added.with_nested()[k],
                )
            } by {
                assert(assignment_laws::is_kept_but_for_mapping(
                    field.with_nested()[k],
                    added.with_nested()[k],
                ));
            }
        }
        assert(added.name == field.name);
        evolution_laws::added_column_reads_back(state.schema, path, added);
        one_field_is_added(DataTypeView::Struct(state.schema).target(path)->Ok_0, added);
    }
}

/// A column that is not added is refused for the first of these reasons: it is computed; a field
/// inside its type is; it is not nullable; the table maps its columns but does not keep the greatest
/// id; a field cannot get an id or a physical name; the path leads to no struct; the struct has a
/// field of the name.
pub proof fn why_columns_are_refused(
    path: Seq<Seq<char>>,
    field: FieldView,
    mode: ColumnMappingMode,
    names: Seq<Seq<char>>,
    state: EvolutionState,
)
    requires
        mode != ColumnMappingMode::NoMapping ==> state.names_used + field.with_nested().len()
            <= names.len(),
    ensures
        evolution::after_operation(
            OperationView::AddColumn { path, field },
            mode,
            names,
            state,
        ) matches Err(e) ==> if is_computed(field) {
            e == ErrorView::Schema(
                "Cannot add column '"@ + field.name
                    + "': metadata columns are not allowed in a table schema"@,
            )
        } else if holds_computed(field) {
            e == ErrorView::Schema(
                "Field '"@ + field.name + "' contains a nested metadata column"@,
            )
        } else if !field.nullable {
            e == ErrorView::Schema(
                "Cannot add non-nullable column '"@ + field.name
                    + "'. Added columns must be nullable because existing data files do not contain this column."@,
            )
        } else if mode != ColumnMappingMode::NoMapping && state.max_id is None {
            e == ErrorView::InvalidProtocol(
                "Column mapping is enabled but delta.columnMapping.maxColumnId is not set in table properties"@,
            )
        } else if mode != ColumnMappingMode::NoMapping && !is_sound(field, state.max_id->0) {
            exists|k: int|
                0 <= k < field.with_nested().len() && !(#[trigger] assignment_laws::is_sound_at(
                    field.with_nested(),
                    state.max_id->0,
                    k,
                )) && (forall|j: int|
                    0 <= j < k ==> #[trigger] assignment_laws::is_sound_at(
                        field.with_nested(),
                        state.max_id->0,
                        j,
                    )) && e == ErrorView::Schema(
                    assignment_laws::complaint(
                        field.with_nested()[k],
                        assignment_laws::greatest_so_far(
                            field.with_nested().take(k),
                            state.max_id->0,
                        ),
                    ),
                )
        } else {
            match DataTypeView::Struct(state.schema).target(path) {
                Err(reason) => e == reason,
                Ok(_) => e == ErrorView::Schema(
                    "Cannot add column '"@ + field.name
                        + "': a column with that name already exists"@,
                ),
            }
        },
{
    lemma_computed(field);
    let fields = DataTypeView::Struct(state.schema).target(path)->Ok_0;
    lemma_name_found(fields, field.name);
    if mode != ColumnMappingMode::NoMapping && state.max_id is Some {
        let own_names = names.skip(state.names_used as int);
        let max = state.max_id->0;
        assignment_laws::sound_columns_are_assigned(field, max, own_names);
        if let Ok((added, _)) = field.assigned(max, own_names) {
            assert(is_sound(field, max));
            assignment_laws::assignment_keeps_the_column(field, max, own_names);
        }
    }
}

/// A column is made nullable just when it is there: the path without its last name leads to a struct
/// and some field of that struct has the last name, but for case. The first such field becomes
/// nullable, whatever its type, and nothing else in the schema changes.
pub proof fn present_columns_are_made_nullable(
    column: Seq<Seq<char>>,
    mode: ColumnMappingMode,
    names: Seq<Seq<char>>,
    state: EvolutionState,
)
    ensures
        ({
            let root = DataTypeView::Struct(state.schema);
            let result = evolution::after_operation(
                OperationView::SetNullable { column },
                mode,
                names,
                state,
            );
            &&& result is Ok <==> column.len() > 0 && root.target(column.drop_last()) is Ok
                && has_name(root.target(column.drop_last())->Ok_0, column.last())
            &&& result matches Ok(after) ==> {
                let path = column.drop_last();
                let fields = root.target(path)->Ok_0;
                &&& after.max_id == state.max_id
                &&& after.names_used == state.names_used
                &&& exists|i: int| #[trigger]
                    is_first_with_name(fields, column.last(), i) && DataTypeView::Struct(
                        after.schema,
                    ) == root.with_target(
                        path,
                        fields.update(
                            i,
                            FieldView {
                                name: fields[i].name,
                                data_type: fields[i].data_type,
                                nullable: true,
                                metadata: fields[i].metadata,
                            },
                        ),
                    )
            }
        }),
{
    if column.len() > 0 {
        let root = DataTypeView::Struct(state.schema);
        let path = column.drop_last();
        if let Ok(fields) = root.target(path) {
            lemma_name_found(fields, column.last());
            if let Some(i) = FieldView::position(fields, text::lowercase(column.last())) {
                assert(is_first_with_name(fields, column.last(), i));
                let updated = evolution::with_nullable(fields, column.last())->Ok_0;
                assert(root.with_target(path, updated) is Struct);
            }
        }
    }
}

/// A change that is to make a column nullable is refused with the column and the reason: where its
/// path leads to no struct the reason for that, and else that the field does not exist.
pub proof fn why_nullability_changes_are_refused(
    column: Seq<Seq<char>>,
    mode: ColumnMappingMode,
    names: Seq<Seq<char>>,
    state: EvolutionState,
)
    ensures
        evolution::after_operation(
            OperationView::SetNullable { column },
            mode,
            names,
            state,
        ) matches Err(e) ==> e == ErrorView::Generic(
            if column.len() == 0 {
                "empty column path"@
            } else {
                "Cannot set nullable on column '"@ + column_name::path_text(column) + "': "@ + (
                match DataTypeView::Struct(state.schema).target(column.drop_last()) {
                    Err(reason) => reason.text(),
                    Ok(_) => "Schema error: "@ + ("field '"@ + column.last() + "' does not exist"@),
                })
            },
        ),
{
}

/// Changes are made one by one: none leaves the state as it is, and one more is made on the state
/// that the others left, or not at all where one of them was refused.
pub proof fn changes_one_by_one(
    operations: Seq<OperationView>,
    operation: OperationView,
    mode: ColumnMappingMode,
    names: Seq<Seq<char>>,
    state: EvolutionState,
)
    ensures
        evolution::after_operations(Seq::empty(), mode, names, state) == Ok::<
            EvolutionState,
            ErrorView,
        >(state),
        evolution::after_operations(operations.push(operation), mode, names, state) == match evolution::after_operations(
            operations,
            mode,
            names,
            state,
        ) {
            Ok(middle) => evolution::after_operation(operation, mode, names, middle),
            Err(e) => Err(e),
        },
{
    assert(operations.push(operation).drop_last() == operations);
}

/// The names that changes may need: where columns are mapped, one for each field that they add, at
/// any depth, and else none.
pub proof fn names_that_changes_need(
    operations: Seq<OperationView>,
    path: Seq<Seq<char>>,
    field: FieldView,
    column: Seq<Seq<char>>,
    mode: ColumnMappingMode,
)
    ensures
        evolution::names_needed(Seq::empty(), mode) == 0,
        evolution::names_needed(
            operations.push(OperationView::AddColumn { path, field }),
            mode,
        ) == evolution::names_needed(operations, mode) + if mode == ColumnMappingMode::NoMapping {
            0
        } else {
            field.with_nested().len()
        },
        evolution::names_needed(operations.push(OperationView::SetNullable { column }), mode)
            == evolution::names_needed(operations, mode),
{
    assert(operations.push(OperationView::AddColumn { path, field }).drop_last() == operations);
    assert(operations.push(OperationView::SetNullable { column }).drop_last() == operations);
}

/// Whether `max` is the greatest id in use in a table: the one that it keeps or, where it maps its
/// columns, a greater one in its schema.
pub open spec fn is_greatest_in_use(
    schema: Seq<FieldView>,
    mode: ColumnMappingMode,
    kept: int,
    max: int,
) -> bool {
    let ids = column_mapping::schema_ids(schema);
    if mode == ColumnMappingMode::NoMapping {
        max == kept
    } else {
        &&& max >= kept
        &&& forall|k: int| 0 <= k < ids.len() ==> (#[trigger] ids[k]) <= max
        &&& max == kept || ids.contains(max)
    }
}

/// Changes begin with the schema as it is, no name handed out, and the greatest id in use. They are
/// refused where the kept id is not from 0 to 2147483647, where one of them is, and where the schema
/// that they lead to is not valid; in this order, and else not. On success that schema comes out,
/// and the greatest id then in use if it is above the kept one.
pub proof fn what_comes_of_changes(
    schema: Seq<FieldView>,
    operations: Seq<OperationView>,
    mode: ColumnMappingMode,
    kept: Option<int>,
    names: Seq<Seq<char>>,
)
    ensures
        ({
            let result = evolution::evolved(schema, operations, mode, kept, names);
            let start = evolution::starting_state(schema, mode, kept);
            &&& start.schema == schema
            &&& start.names_used == 0
            &&& match kept {
                Some(id) => start.max_id is Some && is_greatest_in_use(
                    schema,
                    mode,
                    id,
                    start.max_id->0,
                ),
                None => start.max_id is None,
            }
            &&& if kept is Some && !(0 <= kept->0 <= 2147483647) {
                result == Err::<(Seq<FieldView>, Option<int>), ErrorView>(
                    ErrorView::InvalidProtocol(
                        "Table property `delta.columnMapping.maxColumnId`: "@ + (
                        "Generic delta kernel error: "@ + ("Invalid column mapping id "@
                            + text::decimal(kept->0) + ": ids range from 0 to 2147483647"@)),
                    ),
                )
            } else {
                match evolution::after_operations(operations, mode, names, start) {
                    Err(e) => result == Err::<(Seq<FieldView>, Option<int>), ErrorView>(e),
                    Ok(end) => match validation::schema_problem(end.schema, mode) {
                        Some(e) => result == Err::<(Seq<FieldView>, Option<int>), ErrorView>(e),
                        None => {
                            &&& result is Ok
                            &&& result->Ok_0.0 == end.schema
                            &&& match (end.max_id, kept) {
                                (Some(max), Some(id)) => result->Ok_0.1 == if max > id {
                                    Some(max)
                                } else {
                                    None
                                },
                                (Some(max), None) => result->Ok_0.1 == Some(max),
                                (None, _) => result->Ok_0.1 is None,
                            }
                        },
                    },
                }
            }
        }),
{
    let ids = column_mapping::schema_ids(schema);
    if ids.len() > 0 {
        ids.max_ensures();
    }
}

} // verus!
