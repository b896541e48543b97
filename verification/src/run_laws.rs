//! What holds of column mapping over a sequence of changes.
use vstd::prelude::*;

use crate::column_mapping;
use crate::column_mapping::ColumnMappingMode;
use crate::evolution;
use crate::evolution::{EvolutionState, OperationView};
use crate::evolution_laws;
use crate::mapping_laws;
use crate::path_laws;
use crate::path_laws::Column;
use crate::schema::{ColumnMetadataKey, FieldView, MetadataValueView};

verus! {

impl Column {
    /// The column mapping id that the column is annotated with.
    pub open spec fn column_mapping_id(self) -> Option<int> {
        let key = ColumnMetadataKey::ColumnMappingId.text();
        if self.metadata.contains_key(key) {
            match self.metadata[key] {
                MetadataValueView::Number(id) => Some(id),
                _ => None,
            }
        } else {
            None
        }
    }
}

/// The column mapping ids of a list of columns, in their order.
spec fn column_ids(columns: Seq<Column>) -> Seq<int>
    decreases columns.len(),
{
    if columns.len() == 0 {
        Seq::empty()
    } else {
        match columns.last().column_mapping_id() {
            Some(id) => column_ids(columns.drop_last()).push(id),
            None => column_ids(columns.drop_last()),
        }
    }
}

proof fn lemma_column_ids(fields: Seq<FieldView>)
    ensures
        column_ids(path_laws::columns(fields)) == column_mapping::ids(fields),
    decreases fields.len(),
{
    if fields.len() > 0 {
        lemma_column_ids(fields.drop_last());
        assert(path_laws::columns(fields).drop_last() == path_laws::columns(fields.drop_last()));
    }
}

proof fn lemma_column_ids_concat(a: Seq<Column>, b: Seq<Column>)
    ensures
        column_ids(a + b) == column_ids(a) + column_ids(b),
    decreases b.len(),
{
    if b.len() == 0 {
        assert(a + b == a);
        assert(column_ids(a) + column_ids(b) =~= column_ids(a));
    } else {
        lemma_column_ids_concat(a, b.drop_last());
        assert((a + b).drop_last() == a + b.drop_last());
        assert(column_ids(a + b) =~= column_ids(a) + column_ids(b));
    }
}

/// Whether `new_ids` is `old_ids` with `added` somewhere in it.
spec fn is_inserted(old_ids: Seq<int>, added: Seq<int>, new_ids: Seq<int>) -> bool {
    exists|before: Seq<int>, after: Seq<int>| #[trigger]
        (before + added + after) == new_ids && before + after == old_ids
}

proof fn lemma_ids_after_adding(schema: Seq<FieldView>, path: Seq<Seq<char>>, field: FieldView)
    ensures
        evolution::with_field_at(schema, path, field) matches Ok(updated) ==> is_inserted(
            column_mapping::schema_ids(schema),
            column_mapping::ids(field.with_nested()),
            column_mapping::schema_ids(updated),
        ),
{
    if let Ok(updated) = evolution::with_field_at(schema, path, field) {
        evolution_laws::adding_keeps_other_columns(schema, path, field);
        let old_columns = path_laws::schema_columns(schema);
        let added = path_laws::columns(field.with_nested());
        let k = choose|k: int|
            #![trigger old_columns.take(k)]
            0 <= k <= old_columns.len() && path_laws::schema_columns(updated) == old_columns.take(
                k,
            ) + added + old_columns.skip(k);
        lemma_column_ids(FieldView::all_fields(schema));
        lemma_column_ids(FieldView::all_fields(updated));
        lemma_column_ids(field.with_nested());
        lemma_column_ids_concat(old_columns.take(k) + added, old_columns.skip(k));
        lemma_column_ids_concat(old_columns.take(k), added);
        lemma_column_ids_concat(old_columns.take(k), old_columns.skip(k));
        assert(old_columns == old_columns.take(k) + old_columns.skip(k));
        let before = column_ids(old_columns.take(k));
        let after = column_ids(old_columns.skip(k));
        assert((before + column_ids(added) + after) == column_mapping::schema_ids(updated));
    }
}

proof fn lemma_ids_after_set_nullable(
    schema: Seq<FieldView>,
    path: Seq<Seq<char>>,
    name: Seq<char>,
)
    ensures
        evolution::with_nullable_at(schema, path, name) matches Ok(updated)
            ==> column_mapping::schema_ids(updated) == column_mapping::schema_ids(schema),
{
    if let Ok(updated) = evolution::with_nullable_at(schema, path, name) {
        evolution_laws::set_nullable_changes_one_column(schema, path, name);
        let old_columns = path_laws::schema_columns(schema);
        let k = choose|k: int|
            0 <= k < old_columns.len() && path_laws::schema_columns(updated) == old_columns.update(
                k,
                Column { nullable: true, ..#[trigger] old_columns[k] },
            );
        lemma_column_ids(FieldView::all_fields(schema));
        lemma_column_ids(FieldView::all_fields(updated));
        lemma_column_ids_by_metadata(old_columns, path_laws::schema_columns(updated));
    }
}

proof fn lemma_column_ids_by_metadata(a: Seq<Column>, b: Seq<Column>)
    requires
        a.len() == b.len(),
        forall|i: int| 0 <= i < a.len() ==> (#[trigger] a[i]).metadata == b[i].metadata,
    ensures
        column_ids(a) == column_ids(b),
    decreases a.len(),
{
    if a.len() > 0 {
        assert forall|i: int| 0 <= i < a.drop_last().len() implies (
        #[trigger] a.drop_last()[i]).metadata == b.drop_last()[i].metadata by {
            assert(a[i].metadata == b[i].metadata);
        }
        lemma_column_ids_by_metadata(a.drop_last(), b.drop_last());
        assert(a[a.len() - 1].metadata == b[b.len() - 1].metadata);
    }
}

/// Whether no id in a schema, at any depth, is above `max`.
pub open spec fn ids_up_to(schema: Seq<FieldView>, max: int) -> bool {
    forall|k: int|
        0 <= k < column_mapping::schema_ids(schema).len() ==> (
        #[trigger] column_mapping::schema_ids(schema)[k]) <= max
}

/// Whether a state keeps track of the ids: none is above the greatest one reported, and that one
/// is in the schema unless it is still `start`.
pub open spec fn tracks_ids(state: EvolutionState, start: int) -> bool {
    &&& state.max_id is Some
    &&& state.max_id->0 >= start
    &&& ids_up_to(state.schema, state.max_id->0)
    &&& state.max_id->0 == start || column_mapping::schema_ids(state.schema).contains(
        state.max_id->0,
    )
}

/// One change to a mapped table keeps track of the ids.
pub proof fn operation_tracks_ids(
    operation: OperationView,
    mode: ColumnMappingMode,
    names: Seq<Seq<char>>,
    state: EvolutionState,
    start: int,
)
    requires
        mode != ColumnMappingMode::NoMapping,
        state.names_used + evolution::names_for_operation(operation, mode) <= names.len(),
        tracks_ids(state, start),
    ensures
        evolution::after_operation(operation, mode, names, state) matches Ok(after) ==> tracks_ids(
            after,
            start,
        ),
{
    if let Ok(after) = evolution::after_operation(operation, mode, names, state) {
        match operation {
            OperationView::AddColumn { path, field } => {
                let max = state.max_id->0;
                let own_names = names.skip(state.names_used as int);
                let (added, new_max) = field.assigned(max, own_names)->Ok_0;
                mapping_laws::assigned_ids_are_bounded(field, max, own_names);
                lemma_ids_after_adding(state.schema, path, added);
                lemma_inserted_ids(
                    column_mapping::schema_ids(state.schema),
                    column_mapping::ids(added.with_nested()),
                    column_mapping::schema_ids(after.schema),
                    max,
                    new_max,
                );
            },
            OperationView::SetNullable { column } => {
                lemma_ids_after_set_nullable(state.schema, column.drop_last(), column.last());
            },
        }
    }
}

proof fn lemma_inserted_ids(
    old_ids: Seq<int>,
    added: Seq<int>,
    new_ids: Seq<int>,
    max: int,
    new_max: int,
)
    requires
        is_inserted(old_ids, added, new_ids),
        forall|k: int| 0 <= k < old_ids.len() ==> (#[trigger] old_ids[k]) <= max,
        forall|k: int| 0 <= k < added.len() ==> (#[trigger] added[k]) <= new_max,
        max <= new_max,
    ensures
        forall|k: int| 0 <= k < new_ids.len() ==> (#[trigger] new_ids[k]) <= new_max,
        forall|id: int| #[trigger]
            new_ids.contains(id) <==> old_ids.contains(id) || added.contains(id),
{
    let (before, after) = choose|before: Seq<int>, after: Seq<int>| #[trigger]
        (before + added + after) == new_ids && before + after == old_ids;
    assert forall|k: int| 0 <= k < new_ids.len() implies (#[trigger] new_ids[k]) <= new_max by {
        if k < before.len() {
            assert(new_ids[k] == old_ids[k]);
        } else if k < before.len() + added.len() {
            assert(new_ids[k] == added[k - before.len()]);
        } else {
            assert(new_ids[k] == old_ids[k - added.len()]);
        }
    }
    assert forall|id: int| #[trigger]
        new_ids.contains(id) <==> old_ids.contains(id) || added.contains(id) by {
        if new_ids.contains(id) {
            let k = choose|k: int| 0 <= k < new_ids.len() && new_ids[k] == id;
            if k < before.len() {
                assert(old_ids[k] == id);
            } else if k < before.len() + added.len() {
                assert(added[k - before.len()] == id);
            } else {
                assert(old_ids[k - added.len()] == id);
            }
        }
        if old_ids.contains(id) {
            let k = choose|k: int| 0 <= k < old_ids.len() && old_ids[k] == id;
            if k < before.len() {
                assert(new_ids[k] == id);
            } else {
                assert(new_ids[k + added.len()] == id);
            }
        }
        if added.contains(id) {
            let k = choose|k: int| 0 <= k < added.len() && added[k] == id;
            assert(new_ids[k + before.len()] == id);
        }
    }
}

/// The number of names that a change hands out is the number that it may need.
proof fn lemma_names_used(
    operation: OperationView,
    mode: ColumnMappingMode,
    names: Seq<Seq<char>>,
    state: EvolutionState,
)
    ensures
        evolution::after_operation(operation, mode, names, state) matches Ok(after)
            ==> after.names_used == state.names_used + evolution::names_for_operation(
            operation,
            mode,
        ),
{
}

pub proof fn lemma_all_names_used(
    operations: Seq<OperationView>,
    mode: ColumnMappingMode,
    names: Seq<Seq<char>>,
    state: EvolutionState,
)
    ensures
        evolution::after_operations(operations, mode, names, state) matches Ok(after)
            ==> after.names_used == state.names_used + evolution::names_needed(operations, mode),
    decreases operations.len(),
{
    if operations.len() > 0 {
        lemma_all_names_used(operations.drop_last(), mode, names, state);
        if let Ok(middle) = evolution::after_operations(
            operations.drop_last(),
            mode,
            names,
            state,
        ) {
            lemma_names_used(operations.last(), mode, names, middle);
        }
    }
}

/// Changes to a mapped table keep track of the ids. So no id is handed out twice, and the greatest
/// id never goes down.
pub proof fn operations_track_ids(
    operations: Seq<OperationView>,
    mode: ColumnMappingMode,
    names: Seq<Seq<char>>,
    state: EvolutionState,
    start: int,
)
    requires
        mode != ColumnMappingMode::NoMapping,
        state.names_used + evolution::names_needed(operations, mode) <= names.len(),
        tracks_ids(state, start),
    ensures
        evolution::after_operations(operations, mode, names, state) matches Ok(after)
            ==> tracks_ids(after, start),
    decreases operations.len(),
{
    if operations.len() > 0 {
        let front = operations.drop_last();
        operations_track_ids(front, mode, names, state, start);
        if let Ok(middle) = evolution::after_operations(front, mode, names, state) {
            lemma_all_names_used(front, mode, names, state);
            operation_tracks_ids(operations.last(), mode, names, middle, start);
        }
    }
}

/// When changes to a mapped table begin, the state keeps track of the ids.
pub proof fn lemma_start_tracks_ids(schema: Seq<FieldView>, mode: ColumnMappingMode, kept: int)
    requires
        mode != ColumnMappingMode::NoMapping,
    ensures
        tracks_ids(evolution::starting_state(schema, mode, Some(kept)), kept),
{
    let ids = column_mapping::schema_ids(schema);
    if ids.len() > 0 {
        ids.max_ensures();
    }
}

/// The greatest id that the changes to a mapped table report, if it went up, is the greatest id in
/// the new schema. If none is reported, no id in the new schema is above the one that the table
/// keeps.
pub proof fn reported_id_is_greatest(
    schema: Seq<FieldView>,
    operations: Seq<OperationView>,
    mode: ColumnMappingMode,
    kept: int,
    names: Seq<Seq<char>>,
)
    requires
        mode != ColumnMappingMode::NoMapping,
        evolution::names_needed(operations, mode) <= names.len(),
    ensures
        evolution::evolved(schema, operations, mode, Some(kept), names) matches Ok(
            (new_schema, reported),
        ) ==> match reported {
            Some(id) => id > kept && column_mapping::greatest(
                column_mapping::schema_ids(new_schema),
            ) == Some(id),
            None => ids_up_to(new_schema, kept),
        },
{
    let start = evolution::starting_state(schema, mode, Some(kept));
    lemma_start_tracks_ids(schema, mode, kept);
    operations_track_ids(operations, mode, names, start, kept);
    if let Ok((new_schema, reported)) = evolution::evolved(
        schema,
        operations,
        mode,
        Some(kept),
        names,
    ) {
        let new_ids = column_mapping::schema_ids(new_schema);
        if let Some(id) = reported {
            assert(new_ids.contains(id));
            new_ids.max_ensures();
            let k = choose|k: int| 0 <= k < new_ids.len() && new_ids[k] == new_ids.max();
            assert(new_ids[k] <= id);
        }
    }
}

/// Whether no column that changes add, nor any field inside its type, comes with an id.
pub open spec fn adds_without_ids(operations: Seq<OperationView>) -> bool {
    forall|i: int|
        #![trigger operations[i]]
        0 <= i < operations.len() ==> match operations[i] {
            OperationView::AddColumn { field, .. } => mapping_laws::are_without_ids(
                field.with_nested(),
            ),
            OperationView::SetNullable { .. } => true,
        }
}

/// When the ids in the schema of a mapped table are all different, they still are after columns
/// without ids were added, and after columns were made nullable.
pub proof fn ids_stay_different(
    operations: Seq<OperationView>,
    mode: ColumnMappingMode,
    names: Seq<Seq<char>>,
    state: EvolutionState,
    start: int,
)
    requires
        mode != ColumnMappingMode::NoMapping,
        state.names_used + evolution::names_needed(operations, mode) <= names.len(),
        tracks_ids(state, start),
        adds_without_ids(operations),
        column_mapping::schema_ids(state.schema).no_duplicates(),
    ensures
        evolution::after_operations(operations, mode, names, state) matches Ok(after)
            ==> column_mapping::schema_ids(after.schema).no_duplicates(),
    decreases operations.len(),
{
    if operations.len() > 0 {
        let front = operations.drop_last();
        assert(operations.last() == operations[operations.len() - 1]);
        assert(adds_without_ids(front)) by {
            assert forall|i: int|
                #![trigger front[i]]
                0 <= i < front.len() implies match front[i] {
                OperationView::AddColumn { field, .. } => mapping_laws::are_without_ids(
                    field.with_nested(),
                ),
                OperationView::SetNullable { .. } => true,
            } by {
                assert(front[i] == operations[i]);
            }
        }
        ids_stay_different(front, mode, names, state, start);
        operations_track_ids(front, mode, names, state, start);
        lemma_all_names_used(front, mode, names, state);
        if let Ok(middle) = evolution::after_operations(front, mode, names, state) {
            if let Ok(after) = evolution::after_operation(operations.last(), mode, names, middle) {
                match operations.last() {
                    OperationView::AddColumn { path, field } => {
                        let max = middle.max_id->0;
                        let own_names = names.skip(middle.names_used as int);
                        let (added, _) = field.assigned(max, own_names)->Ok_0;
                        mapping_laws::fresh_ids_are_consecutive(field, max, own_names);
                        lemma_ids_after_adding(middle.schema, path, added);
                        lemma_inserted_above(
                            column_mapping::schema_ids(middle.schema),
                            column_mapping::ids(added.with_nested()),
                            column_mapping::schema_ids(after.schema),
                            max,
                        );
                    },
                    OperationView::SetNullable { column } => {
                        lemma_ids_after_set_nullable(
                            middle.schema,
                            column.drop_last(),
                            column.last(),
                        );
                    },
                }
            }
        }
    }
}

proof fn lemma_inserted_above(old_ids: Seq<int>, added: Seq<int>, new_ids: Seq<int>, max: int)
    requires
        is_inserted(old_ids, added, new_ids),
        old_ids.no_duplicates(),
        forall|k: int| 0 <= k < old_ids.len() ==> (#[trigger] old_ids[k]) <= max,
        forall|k: int| 0 <= k < added.len() ==> (#[trigger] added[k]) == max + 1 + k,
    ensures
        new_ids.no_duplicates(),
{
    let (before, after) = choose|before: Seq<int>, after: Seq<int>| #[trigger]
        (before + added + after) == new_ids && before + after == old_ids;
    let source = |k: int|
        if k < before.len() {
            old_ids[k]
        } else if k < before.len() + added.len() {
            added[k - before.len()]
        } else {
            old_ids[k - added.len()]
        };
    assert forall|k: int| 0 <= k < new_ids.len() implies #[trigger] new_ids[k] == source(k) by {
    }
    assert forall|i: int, j: int|
        0 <= i < new_ids.len() && 0 <= j < new_ids.len() && i != j implies new_ids[i]
        != new_ids[j] by {
        assert(new_ids[i] == source(i));
        assert(new_ids[j] == source(j));
    }
}

/// Changes to a mapped table whose ids are all different lead to a schema whose ids are all
/// different, as long as the added columns come without ids.
pub proof fn unique_ids_stay_unique(
    schema: Seq<FieldView>,
    operations: Seq<OperationView>,
    mode: ColumnMappingMode,
    kept: int,
    names: Seq<Seq<char>>,
)
    requires
        mode != ColumnMappingMode::NoMapping,
        evolution::names_needed(operations, mode) <= names.len(),
        adds_without_ids(operations),
        column_mapping::schema_ids(schema).no_duplicates(),
    ensures
        evolution::evolved(schema, operations, mode, Some(kept), names) matches Ok((new_schema, _))
            ==> column_mapping::schema_ids(new_schema).no_duplicates(),
{
    let start = evolution::starting_state(schema, mode, Some(kept));
    lemma_start_tracks_ids(schema, mode, kept);
    ids_stay_different(operations, mode, names, start, kept);
}

} // verus!
