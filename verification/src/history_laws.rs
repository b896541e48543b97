//! What becomes of each column over a sequence of changes.
use vstd::prelude::*;

use crate::column_mapping;
use crate::column_mapping::ColumnMappingMode;
use crate::error::ErrorView;
use crate::evolution;
use crate::evolution::{EvolutionState, OperationView};
use crate::evolution_laws;
use crate::mapping_laws;
use crate::path_laws;
use crate::path_laws::Column;
use crate::run_laws;
use crate::schema;
use crate::schema::{ColumnMetadataKey, DataTypeView, FieldView, MetadataValueView};
use crate::text;

verus! {

/// Whether a field is still the same, apart from its nullability and the fields inside its type.
pub open spec fn is_same_field(before: FieldView, after: FieldView) -> bool {
    &&& after.name == before.name
    &&& after.metadata == before.metadata
    &&& after.data_type.outline() == before.data_type.outline()
}

/// Whether field `i` is the one that its own name leads to.
pub open spec fn is_first_of_name(fields: Seq<FieldView>, i: int) -> bool {
    FieldView::position(fields, text::lowercase(fields[i].name)) == Some(i)
}

/// Whether a change makes the column at a path nullable.
pub open spec fn names_column(operation: OperationView, column: Seq<Seq<char>>) -> bool {
    match operation {
        OperationView::SetNullable { column: named } => evolution_laws::same_but_for_case(
            named,
            column,
        ),
        OperationView::AddColumn { .. } => false,
    }
}

/// Whether one of some changes makes the column at a path nullable.
pub open spec fn some_names_column(operations: Seq<OperationView>, column: Seq<Seq<char>>) -> bool {
    exists|o: int| 0 <= o < operations.len() && names_column(#[trigger] operations[o], column)
}

/// Whether a change adds a column to the struct at a path.
pub open spec fn adds_at(operation: OperationView, path: Seq<Seq<char>>) -> bool {
    match operation {
        OperationView::AddColumn { path: at, .. } => evolution_laws::same_but_for_case(at, path),
        OperationView::SetNullable { .. } => false,
    }
}

/// The number of columns that some changes add to the struct at a path.
pub open spec fn columns_added_at(operations: Seq<OperationView>, path: Seq<Seq<char>>) -> nat
    decreases operations.len(),
{
    if operations.len() == 0 {
        0
    } else {
        columns_added_at(operations.drop_last(), path) + if adds_at(operations.last(), path) {
            1nat
        } else {
            0nat
        }
    }
}

/// Whether `after` is what some changes make of the fields `before` of the struct at a path: each
/// field keeps its place, name, annotations and, but for the fields inside it, type. It is nullable
/// if it was or if one of the changes names it. The fields that the changes add at the path follow.
pub open spec fn is_grown(
    before: Seq<FieldView>,
    after: Seq<FieldView>,
    operations: Seq<OperationView>,
    path: Seq<Seq<char>>,
) -> bool {
    &&& after.len() == before.len() + columns_added_at(operations, path)
    &&& forall|i: int|
        0 <= i < before.len() ==> {
            &&& is_same_field(before[i], #[trigger] after[i])
            &&& after[i].nullable == (before[i].nullable || (is_first_of_name(before, i)
                && some_names_column(operations, path.push(before[i].name))))
        }
}

proof fn lemma_position_in_prefix(
    fields: Seq<FieldView>,
    longer: Seq<FieldView>,
    lowered: Seq<char>,
    i: int,
)
    requires
        fields.len() <= longer.len(),
        forall|k: int| 0 <= k < fields.len() ==> (#[trigger] fields[k]).name == longer[k].name,
        0 <= i < fields.len(),
    ensures
        FieldView::position(fields, lowered) == Some(i) <==> FieldView::position(longer, lowered)
            == Some(i),
{
    assert(fields[i].name == longer[i].name);
    if FieldView::position(fields, lowered) == Some(i) {
        assert(FieldView::is_position(fields, lowered, i));
        assert forall|k: int| 0 <= k < i implies text::lowercase(#[trigger] longer[k].name)
            != lowered by {
            assert(text::lowercase(fields[k].name) != lowered);
        }
        schema::lemma_position(longer, lowered, i);
    }
    if FieldView::position(longer, lowered) == Some(i) {
        assert(FieldView::is_position(longer, lowered, i));
        assert forall|k: int| 0 <= k < i implies text::lowercase(#[trigger] fields[k].name)
            != lowered by {
            assert(text::lowercase(longer[k].name) != lowered);
        }
        schema::lemma_position(fields, lowered, i);
    }
}

proof fn lemma_outline_stays(t: DataTypeView, path: Seq<Seq<char>>, fields: Seq<FieldView>)
    requires
        t.target(path) is Ok,
    ensures
        t.with_target(path, fields).outline() == t.outline(),
{
    path_laws::surroundings_stay(t, path);
    let (before, after) = choose|before: Seq<Column>, after: Seq<Column>| #[trigger]
        path_laws::surrounds(t, path, before, after) && path_laws::type_columns(t) == before
            + path_laws::schema_columns(t.target(path)->Ok_0) + after;
    assert(path_laws::type_columns(t.with_target(path, fields)) == before
        + path_laws::schema_columns(fields) + after);
}

/// Whether the fields are the same, but for the fields inside their types.
spec fn are_same_but_for_insides(before: Seq<FieldView>, after: Seq<FieldView>) -> bool {
    &&& after.len() == before.len()
    &&& forall|i: int|
        0 <= i < before.len() ==> is_same_field(before[i], #[trigger] after[i])
            && after[i].nullable == before[i].nullable
}

proof fn lemma_same_but_for_case_cons(a: Seq<Seq<char>>, b: Seq<Seq<char>>)
    requires
        a.len() > 0,
        b.len() > 0,
    ensures
        evolution_laws::same_but_for_case(a, b) <==> text::lowercase(a[0]) == text::lowercase(b[0])
            && evolution_laws::same_but_for_case(a.drop_first(), b.drop_first()),
{
    if evolution_laws::same_but_for_case(a, b) {
        assert(text::lowercase(a[0]) == text::lowercase(b[0]));
        assert forall|i: int| 0 <= i < a.drop_first().len() implies text::lowercase(
            #[trigger] a.drop_first()[i],
        ) == text::lowercase(b.drop_first()[i]) by {
            assert(text::lowercase(a[i + 1]) == text::lowercase(b[i + 1]));
        }
    }
    if text::lowercase(a[0]) == text::lowercase(b[0]) && evolution_laws::same_but_for_case(
        a.drop_first(),
        b.drop_first(),
    ) {
        assert forall|i: int| 0 <= i < a.len() implies text::lowercase(#[trigger] a[i])
            == text::lowercase(b[i]) by {
            if i > 0 {
                assert(text::lowercase(a.drop_first()[i - 1]) == text::lowercase(
                    b.drop_first()[i - 1],
                ));
            }
        }
    }
}

proof fn lemma_same_but_for_case_push(
    a: Seq<Seq<char>>,
    b: Seq<Seq<char>>,
    name: Seq<char>,
)
    requires
        a.len() > 0,
    ensures
        evolution_laws::same_but_for_case(a, b.push(name)) <==> evolution_laws::same_but_for_case(
            a.drop_last(),
            b,
        ) && text::lowercase(a.last()) == text::lowercase(name),
{
    let c = b.push(name);
    if evolution_laws::same_but_for_case(a, c) {
        assert(text::lowercase(a[a.len() - 1]) == text::lowercase(c[a.len() - 1]));
        assert forall|i: int| 0 <= i < a.drop_last().len() implies text::lowercase(
            #[trigger] a.drop_last()[i],
        ) == text::lowercase(b[i]) by {
            assert(text::lowercase(a[i]) == text::lowercase(c[i]));
        }
    }
    if evolution_laws::same_but_for_case(a.drop_last(), b) && text::lowercase(a.last())
        == text::lowercase(name) {
        assert forall|i: int| 0 <= i < a.len() implies text::lowercase(#[trigger] a[i])
            == text::lowercase(c[i]) by {
            if i < a.len() - 1 {
                assert(text::lowercase(a.drop_last()[i]) == text::lowercase(b[i]));
            }
        }
    }
}

/// What a change to the struct at one path does to the struct at another.
proof fn lemma_other_path(
    t: DataTypeView,
    changed: Seq<Seq<char>>,
    path: Seq<Seq<char>>,
    fields: Seq<FieldView>,
)
    requires
        t.target(changed) is Ok,
        t.target(path) is Ok,
        t.target(changed)->Ok_0.len() <= fields.len(),
        forall|i: int|
            0 <= i < t.target(changed)->Ok_0.len() ==> (#[trigger] fields[i]).name == t.target(
                changed,
            )->Ok_0[i].name && fields[i].data_type == t.target(changed)->Ok_0[i].data_type,
    ensures
        t.with_target(changed, fields).target(path) matches Ok(after)
            && if evolution_laws::same_but_for_case(changed, path) {
            after == fields && t.target(path) == t.target(changed)
        } else {
            are_same_but_for_insides(t.target(path)->Ok_0, after)
        },
    decreases changed.len(),
{
    let before = t.target(changed)->Ok_0;
    let updated = t.with_target(changed, fields);
    if changed.len() == 0 {
        if path.len() > 0 {
            let lowered = text::lowercase(path[0]);
            let i = FieldView::position(before, lowered)->0;
            assert(FieldView::is_position(before, lowered, i));
            lemma_position_in_prefix(before, fields, lowered, i);
            assert(fields[i].data_type == before[i].data_type);
            assert(updated.target(path) == t.target(path));
        }
    } else {
        let inner = t.step(changed[0])->Ok_0;
        let new_inner = inner.with_target(changed.drop_first(), fields);
        lemma_outline_stays(inner, changed.drop_first(), fields);
        if path.len() == 0 {
            let outer = t->Struct_0;
            let i = FieldView::position(outer, text::lowercase(changed[0]))->0;
            assert(FieldView::is_position(outer, text::lowercase(changed[0]), i));
        } else {
            lemma_same_but_for_case_cons(changed, path);
            reveal_strlit("key");
            reveal_strlit("value");
            assert("key"@.len() == 3 && "value"@.len() == 5);
            assert(text::lowercase("key"@) != text::lowercase("value"@)) by {
                assert(text::lowercase("key"@).len() == 3);
                assert(text::lowercase("value"@).len() == 5);
            }
            if let DataTypeView::Struct(outer) = t {
                let lowered = text::lowercase(changed[0]);
                let other = text::lowercase(path[0]);
                let i = FieldView::position(outer, lowered)->0;
                assert(FieldView::is_position(outer, lowered, i));
                let new_outer = outer.update(i, FieldView { data_type: new_inner, ..outer[i] });
                path_laws::lemma_position_by_names(outer, new_outer, other);
                let j = FieldView::position(outer, other)->0;
                assert(FieldView::is_position(outer, other, j));
            }
            if text::lowercase(changed[0]) == text::lowercase(path[0]) {
                assert(t.step(path[0]) == t.step(changed[0]));
                assert(updated.step(path[0]) == Ok::<DataTypeView, ErrorView>(new_inner));
                lemma_other_path(inner, changed.drop_first(), path.drop_first(), fields);
            } else {
                assert(updated.step(path[0]) == t.step(path[0]));
                assert(updated.target(path) == t.target(path));
            }
        }
    }
}

proof fn lemma_grown_by_one(
    operation: OperationView,
    mode: ColumnMappingMode,
    names: Seq<Seq<char>>,
    state: EvolutionState,
    path: Seq<Seq<char>>,
)
    requires
        DataTypeView::Struct(state.schema).target(path) is Ok,
    ensures
        evolution::after_operation(operation, mode, names, state) matches Ok(after) ==> {
            let before = DataTypeView::Struct(state.schema).target(path)->Ok_0;
            &&& DataTypeView::Struct(after.schema).target(path) is Ok
            &&& is_grown(
                before,
                DataTypeView::Struct(after.schema).target(path)->Ok_0,
                seq![operation],
                path,
            )
        },
{
    if let Ok(after) = evolution::after_operation(operation, mode, names, state) {
        let root = DataTypeView::Struct(state.schema);
        let before = root.target(path)->Ok_0;
        assert(seq![operation].drop_last() == Seq::<OperationView>::empty());
        assert(columns_added_at(seq![operation].drop_last(), path) == 0);
        assert(columns_added_at(seq![operation], path) == if adds_at(operation, path) {
            1nat
        } else {
            0nat
        });
        assert forall|column: Seq<Seq<char>>| #[trigger]
            some_names_column(seq![operation], column) == names_column(operation, column) by {
            assert(seq![operation][0] == operation);
        }
        match operation {
            OperationView::AddColumn { path: at, field } => {
                let fields = root.target(at)->Ok_0;
                let added = evolution::prepared(field, mode, names, state)->Ok_0.0;
                assert(DataTypeView::Struct(after.schema) == root.with_target(
                    at,
                    fields.push(added),
                ));
                lemma_other_path(root, at, path, fields.push(added));
            },
            OperationView::SetNullable { column } => {
                let at = column.drop_last();
                let lowered = text::lowercase(column.last());
                let fields = root.target(at)->Ok_0;
                let i = FieldView::position(fields, lowered)->0;
                assert(FieldView::is_position(fields, lowered, i));
                let new_fields = fields.update(i, FieldView { nullable: true, ..fields[i] });
                assert(DataTypeView::Struct(after.schema) == root.with_target(at, new_fields));
                lemma_other_path(root, at, path, new_fields);
                assert forall|k: int| 0 <= k < before.len() implies names_column(
                    operation,
                    path.push((#[trigger] before[k]).name),
                ) == (evolution_laws::same_but_for_case(at, path) && lowered == text::lowercase(
                    before[k].name,
                )) by {
                    lemma_same_but_for_case_push(column, path, before[k].name);
                }
            },
        }
    }
}

proof fn lemma_some_names_column(operations: Seq<OperationView>, column: Seq<Seq<char>>)
    requires
        operations.len() > 0,
    ensures
        some_names_column(operations, column) <==> some_names_column(operations.drop_last(), column)
            || names_column(operations.last(), column),
        some_names_column(seq![operations.last()], column) <==> names_column(
            operations.last(),
            column,
        ),
{
    let front = operations.drop_last();
    if some_names_column(operations, column) {
        let o = choose|o: int|
            0 <= o < operations.len() && names_column(#[trigger] operations[o], column);
        if o < front.len() {
            assert(names_column(front[o], column));
        }
    }
    if some_names_column(front, column) {
        let o = choose|o: int| 0 <= o < front.len() && names_column(#[trigger] front[o], column);
        assert(names_column(operations[o], column));
    }
    if names_column(operations.last(), column) {
        assert(names_column(operations[operations.len() - 1], column));
        assert(names_column(seq![operations.last()][0], column));
    }
}

/// Over any changes, the fields of each struct keep their places, names, annotations and, but for
/// the fields inside them, types. A field is nullable afterwards if it was or if one of the changes
/// names it, and not else. A struct grows at its end, by the columns that the changes add to it;
/// with the empty path, the table grows by the columns that are added at its root.
pub proof fn structs_keep_their_fields(
    operations: Seq<OperationView>,
    mode: ColumnMappingMode,
    names: Seq<Seq<char>>,
    state: EvolutionState,
    path: Seq<Seq<char>>,
)
    requires
        DataTypeView::Struct(state.schema).target(path) is Ok,
    ensures
        evolution::after_operations(operations, mode, names, state) matches Ok(after) ==> {
            &&& DataTypeView::Struct(after.schema).target(path) is Ok
            &&& is_grown(
                DataTypeView::Struct(state.schema).target(path)->Ok_0,
                DataTypeView::Struct(after.schema).target(path)->Ok_0,
                operations,
                path,
            )
        },
    decreases operations.len(),
{
    let before = DataTypeView::Struct(state.schema).target(path)->Ok_0;
    if operations.len() > 0 {
        let front = operations.drop_last();
        let last = operations.last();
        structs_keep_their_fields(front, mode, names, state, path);
        if let Ok(middle_state) = evolution::after_operations(front, mode, names, state) {
            lemma_grown_by_one(last, mode, names, middle_state, path);
            if let Ok(after_state) = evolution::after_operation(last, mode, names, middle_state) {
                let middle = DataTypeView::Struct(middle_state.schema).target(path)->Ok_0;
                let after = DataTypeView::Struct(after_state.schema).target(path)->Ok_0;
                assert(seq![last].drop_last() == Seq::<OperationView>::empty());
                assert(columns_added_at(seq![last].drop_last(), path) == 0);
                assert(columns_added_at(operations, path) == columns_added_at(front, path)
                    + columns_added_at(seq![last], path));
                assert forall|i: int| 0 <= i < before.len() implies {
                    &&& is_same_field(before[i], #[trigger] after[i])
                    &&& after[i].nullable == (before[i].nullable || (is_first_of_name(before, i)
                        && some_names_column(operations, path.push(before[i].name))))
                } by {
                    assert(is_same_field(before[i], middle[i]));
                    assert forall|k: int| 0 <= k < before.len() implies (
                    #[trigger] before[k]).name == middle[k].name by {
                        assert(is_same_field(before[k], middle[k]));
                    }
                    lemma_position_in_prefix(
                        before,
                        middle,
                        text::lowercase(before[i].name),
                        i,
                    );
                    lemma_some_names_column(operations, path.push(before[i].name));
                }
            }
        }
    }
}

/// A field that came with an added column: the column itself, or a field inside its type.
pub struct Addition {
    /// The field as it was given.
    pub given: FieldView,
    /// The field as it was added.
    pub added: FieldView,
}

/// The fields that one change adds, in order.
pub open spec fn additions_of(
    operation: OperationView,
    mode: ColumnMappingMode,
    names: Seq<Seq<char>>,
    state: EvolutionState,
) -> Seq<Addition> {
    match operation {
        OperationView::AddColumn { field, .. } => match evolution::prepared(
            field,
            mode,
            names,
            state,
        ) {
            Ok((added, _)) => Seq::new(
                field.with_nested().len(),
                |k: int|
                    Addition { given: field.with_nested()[k], added: added.with_nested()[k] },
            ),
            Err(_) => Seq::empty(),
        },
        OperationView::SetNullable { .. } => Seq::empty(),
    }
}

/// The fields that some changes add, in order.
pub open spec fn additions(
    operations: Seq<OperationView>,
    mode: ColumnMappingMode,
    names: Seq<Seq<char>>,
    state: EvolutionState,
) -> Seq<Addition>
    decreases operations.len(),
{
    if operations.len() == 0 {
        Seq::empty()
    } else {
        let front = operations.drop_last();
        additions(front, mode, names, state) + match evolution::after_operations(
            front,
            mode,
            names,
            state,
        ) {
            Ok(middle) => additions_of(operations.last(), mode, names, middle),
            Err(_) => Seq::empty(),
        }
    }
}

/// The columns of a schema, followed by those of added fields.
pub open spec fn old_and_added(schema: Seq<FieldView>, added: Seq<Addition>) -> Seq<Column> {
    path_laws::schema_columns(schema) + added.map_values(|a: Addition| a.added.column())
}

/// Whether a column is still the same, apart from a nullability that may have risen.
pub open spec fn is_same_column(before: Column, after: Column) -> bool {
    after == before || after == (Column { nullable: true, ..before })
}

/// Whether `columns` are the columns in `pool`, each one once, in some order. Column `j` is that at
/// `origin[j]` in the pool. The first `old` ones of the pool keep their order.
pub open spec fn is_arranged(
    pool: Seq<Column>,
    old: int,
    columns: Seq<Column>,
    origin: Seq<int>,
) -> bool {
    &&& columns.len() == pool.len()
    &&& origin.len() == pool.len()
    &&& origin.no_duplicates()
    &&& forall|j: int|
        0 <= j < origin.len() ==> 0 <= #[trigger] origin[j] < pool.len() && is_same_column(
            pool[origin[j]],
            columns[j],
        )
    &&& forall|i: int, j: int|
        0 <= i < j < origin.len() && origin[i] < old && origin[j] < old ==> (#[trigger] origin[i])
            < (#[trigger] origin[j])
}

proof fn lemma_arranged_after_insert(
    pool: Seq<Column>,
    old: int,
    columns: Seq<Column>,
    origin: Seq<int>,
    k: int,
    inserted: Seq<Column>,
) -> (new_origin: Seq<int>)
    requires
        is_arranged(pool, old, columns, origin),
        old <= pool.len(),
        0 <= k <= columns.len(),
    ensures
        is_arranged(
            pool + inserted,
            old,
            columns.take(k) + inserted + columns.skip(k),
            new_origin,
        ),
{
    let n = inserted.len() as int;
    let new_columns = columns.take(k) + inserted + columns.skip(k);
    let new_origin = Seq::new(
        (pool + inserted).len(),
        |j: int|
            if j < k {
                origin[j]
            } else if j < k + n {
                pool.len() + j - k
            } else {
                origin[j - n]
            },
    );
    assert forall|j: int| 0 <= j < new_origin.len() implies 0 <= #[trigger] new_origin[j] < (pool
        + inserted).len() && is_same_column((pool + inserted)[new_origin[j]], new_columns[j]) by {
        if j < k {
            assert(0 <= origin[j] < pool.len());
        } else if j >= k + n {
            assert(0 <= origin[j - n] < pool.len());
        }
    }
    assert forall|i: int, j: int|
        0 <= i < new_origin.len() && 0 <= j < new_origin.len() && i != j implies new_origin[i]
        != new_origin[j] by {
        let a = if i < k {
            i
        } else {
            i - n
        };
        let b = if j < k {
            j
        } else {
            j - n
        };
        if !(k <= i < k + n) {
            assert(0 <= origin[a] < pool.len());
        }
        if !(k <= j < k + n) {
            assert(0 <= origin[b] < pool.len());
        }
    }
    new_origin
}

proof fn lemma_arranged_by_one(
    operation: OperationView,
    mode: ColumnMappingMode,
    names: Seq<Seq<char>>,
    state: EvolutionState,
    pool: Seq<Column>,
    old: int,
    origin: Seq<int>,
) -> (new_origin: Seq<int>)
    requires
        state.names_used + evolution::names_for_operation(operation, mode) <= names.len(),
        is_arranged(pool, old, path_laws::schema_columns(state.schema), origin),
        old <= pool.len(),
    ensures
        evolution::after_operation(operation, mode, names, state) matches Ok(after) ==> is_arranged(
            pool + additions_of(operation, mode, names, state).map_values(
                |a: Addition| a.added.column(),
            ),
            old,
            path_laws::schema_columns(after.schema),
            new_origin,
        ),
{
    let columns = path_laws::schema_columns(state.schema);
    let inserted = additions_of(operation, mode, names, state).map_values(
        |a: Addition| a.added.column(),
    );
    if let Ok(after) = evolution::after_operation(operation, mode, names, state) {
        let new_columns = path_laws::schema_columns(after.schema);
        match operation {
            OperationView::AddColumn { path, field } => {
                let added = evolution::prepared(field, mode, names, state)->Ok_0.0;
                if mode != ColumnMappingMode::NoMapping {
                    mapping_laws::field_assignment(
                        field,
                        state.max_id->0,
                        names.skip(state.names_used as int),
                    );
                }
                assert(inserted =~= path_laws::columns(added.with_nested()));
                evolution_laws::adding_keeps_other_columns(state.schema, path, added);
                let k = choose|k: int|
                    #![trigger path_laws::schema_columns(state.schema).take(k)]
                    0 <= k <= columns.len() && new_columns == columns.take(k) + path_laws::columns(
                        added.with_nested(),
                    ) + columns.skip(k);
                lemma_arranged_after_insert(pool, old, columns, origin, k, inserted)
            },
            OperationView::SetNullable { column } => {
                evolution_laws::set_nullable_changes_one_column(
                    state.schema,
                    column.drop_last(),
                    column.last(),
                );
                assert(pool + inserted =~= pool);
                assert forall|j: int| 0 <= j < origin.len() implies 0 <= #[trigger] origin[j]
                    < pool.len() && is_same_column(pool[origin[j]], new_columns[j]) by {
                    assert(is_same_column(pool[origin[j]], columns[j]));
                }
                origin
            },
        }
    } else {
        origin
    }
}

proof fn lemma_arranged(
    operations: Seq<OperationView>,
    mode: ColumnMappingMode,
    names: Seq<Seq<char>>,
    state: EvolutionState,
) -> (origin: Seq<int>)
    requires
        state.names_used + evolution::names_needed(operations, mode) <= names.len(),
    ensures
        evolution::after_operations(operations, mode, names, state) matches Ok(after)
            ==> is_arranged(
            old_and_added(state.schema, additions(operations, mode, names, state)),
            path_laws::schema_columns(state.schema).len() as int,
            path_laws::schema_columns(after.schema),
            origin,
        ),
    decreases operations.len(),
{
    let columns = path_laws::schema_columns(state.schema);
    let added = additions(operations, mode, names, state);
    if operations.len() == 0 {
        assert(old_and_added(state.schema, added) =~= columns);
        Seq::new(columns.len(), |j: int| j)
    } else {
        let front = operations.drop_last();
        let origin = lemma_arranged(front, mode, names, state);
        run_laws::lemma_all_names_used(front, mode, names, state);
        if let Ok(middle) = evolution::after_operations(front, mode, names, state) {
            let before = additions(front, mode, names, state);
            let pool = old_and_added(state.schema, before);
            assert(old_and_added(state.schema, added) =~= pool + additions_of(
                operations.last(),
                mode,
                names,
                middle,
            ).map_values(|a: Addition| a.added.column()));
            lemma_arranged_by_one(
                operations.last(),
                mode,
                names,
                middle,
                pool,
                columns.len() as int,
                origin,
            )
        } else {
            origin
        }
    }
}

/// Over any changes, the columns of the schema, at any depth, are the old ones and those that the
/// changes add, each one once. They keep their names, annotations and, but for the fields inside
/// them, types; a nullable one stays nullable. The old ones keep their order.
pub proof fn columns_are_old_or_added(
    operations: Seq<OperationView>,
    mode: ColumnMappingMode,
    names: Seq<Seq<char>>,
    state: EvolutionState,
)
    requires
        state.names_used + evolution::names_needed(operations, mode) <= names.len(),
    ensures
        evolution::after_operations(operations, mode, names, state) matches Ok(after) ==> exists|
            origin: Seq<int>,
        | #[trigger]
            is_arranged(
                old_and_added(state.schema, additions(operations, mode, names, state)),
                path_laws::schema_columns(state.schema).len() as int,
                path_laws::schema_columns(after.schema),
                origin,
            ),
{
    let origin = lemma_arranged(operations, mode, names, state);
}

/// What changes make of a schema, whether its table maps its columns or not: each struct keeps its
/// fields and grows at its end by what is added to it, so the table grows by the columns added at
/// its root. And the columns, at any depth, are the old ones, in their order, and the added ones.
pub proof fn evolution_keeps_columns(
    schema: Seq<FieldView>,
    operations: Seq<OperationView>,
    mode: ColumnMappingMode,
    kept: Option<int>,
    names: Seq<Seq<char>>,
)
    requires
        evolution::names_needed(operations, mode) <= names.len(),
    ensures
        evolution::evolved(schema, operations, mode, kept, names) matches Ok((new_schema, _)) ==> {
            let start = evolution::starting_state(schema, mode, kept);
            &&& forall|path: Seq<Seq<char>>| #[trigger]
                DataTypeView::Struct(schema).target(path) is Ok ==> {
                    &&& DataTypeView::Struct(new_schema).target(path) is Ok
                    &&& is_grown(
                        DataTypeView::Struct(schema).target(path)->Ok_0,
                        DataTypeView::Struct(new_schema).target(path)->Ok_0,
                        operations,
                        path,
                    )
                }
            &&& is_grown(schema, new_schema, operations, Seq::empty())
            &&& exists|origin: Seq<int>| #[trigger]
                is_arranged(
                    old_and_added(schema, additions(operations, mode, names, start)),
                    path_laws::schema_columns(schema).len() as int,
                    path_laws::schema_columns(new_schema),
                    origin,
                )
        },
{
    let start = evolution::starting_state(schema, mode, kept);
    columns_are_old_or_added(operations, mode, names, start);
    if let Ok((new_schema, _)) = evolution::evolved(schema, operations, mode, kept, names) {
        assert forall|path: Seq<Seq<char>>| #[trigger]
            DataTypeView::Struct(schema).target(path) is Ok implies {
            &&& DataTypeView::Struct(new_schema).target(path) is Ok
            &&& is_grown(
                DataTypeView::Struct(schema).target(path)->Ok_0,
                DataTypeView::Struct(new_schema).target(path)->Ok_0,
                operations,
                path,
            )
        } by {
            structs_keep_their_fields(operations, mode, names, start, path);
        }
        structs_keep_their_fields(operations, mode, names, start, Seq::empty());
    }
}

/// Whether a field comes without a column mapping id.
pub open spec fn lacks_id(field: FieldView) -> bool {
    !field.metadata.contains_key(ColumnMetadataKey::ColumnMappingId.text())
}

/// Whether an added field is as it was given, but for column mapping annotations.
pub open spec fn is_as_given(addition: Addition) -> bool {
    let removed = column_mapping::column_mapping_removed();
    &&& addition.added.name == addition.given.name
    &&& addition.added.nullable == addition.given.nullable
    &&& removed(addition.added.metadata) == removed(addition.given.metadata)
}

/// Whether each added field has a column mapping id: its own if it came with one, else one above
/// `start` and above the ids of all fields added before it. So those that came without one get
/// different ids.
pub open spec fn have_fresh_ids(added: Seq<Addition>, start: int) -> bool {
    &&& forall|k: int|
        0 <= k < added.len() ==> {
            &&& is_as_given(#[trigger] added[k])
            &&& added[k].added.column_mapping_id() is Some
            &&& if lacks_id(added[k].given) {
                added[k].added.column_mapping_id()->0 > start
            } else {
                added[k].added.column_mapping_id() == added[k].given.column_mapping_id()
            }
        }
    &&& forall|j: int, k: int|
        0 <= j < k < added.len() && lacks_id(added[k].given) ==> (
        #[trigger] added[j]).added.column_mapping_id()->0 < (
        #[trigger] added[k]).added.column_mapping_id()->0
}

/// Whether no added field has an id above `max`.
spec fn are_up_to(added: Seq<Addition>, max: int) -> bool {
    forall|k: int|
        0 <= k < added.len() ==> (#[trigger] added[k]).added.column_mapping_id()->0 <= max
}

proof fn lemma_fresh_ids_of_one(
    field: FieldView,
    mode: ColumnMappingMode,
    names: Seq<Seq<char>>,
    state: EvolutionState,
    path: Seq<Seq<char>>,
)
    requires
        mode != ColumnMappingMode::NoMapping,
        state.max_id is Some,
        state.names_used + field.with_nested().len() <= names.len(),
        evolution::prepared(field, mode, names, state) is Ok,
    ensures
        ({
            let added = additions_of(OperationView::AddColumn { path, field }, mode, names, state);
            let new_max = evolution::prepared(field, mode, names, state)->Ok_0.1.max_id;
            &&& have_fresh_ids(added, state.max_id->0)
            &&& new_max is Some
            &&& new_max->0 >= state.max_id->0
            &&& are_up_to(added, new_max->0)
        }),
{
    let max = state.max_id->0;
    let own_names = names.skip(state.names_used as int);
    let (new_field, new_max) = field.assigned(max, own_names)->Ok_0;
    let old_fields = field.with_nested();
    let new_fields = new_field.with_nested();
    let added = additions_of(OperationView::AddColumn { path, field }, mode, names, state);
    mapping_laws::field_assignment(field, max, own_names);
    mapping_laws::assigned_ids_are_bounded(field, max, own_names);
    assert forall|k: int| 0 <= k < new_fields.len() implies (
    #[trigger] new_fields[k]).column_mapping_id() is Some by {
        mapping_laws::assigned_fields_have_ids(field, max, own_names, k);
    }
    mapping_laws::lemma_ids_of_annotated(new_fields);
    ColumnMetadataKey::keys_differ();
    let ids = column_mapping::ids(new_fields);
    assert forall|k: int| 0 <= k < added.len() implies {
        &&& is_as_given(#[trigger] added[k])
        &&& added[k].added.column_mapping_id() is Some
        &&& added[k].added.column_mapping_id()->0 <= new_max
        &&& if lacks_id(added[k].given) {
            added[k].added.column_mapping_id()->0 > max
        } else {
            added[k].added.column_mapping_id() == added[k].given.column_mapping_id()
        }
    } by {
        assert(mapping_laws::is_assigned_at(old_fields, new_fields, max, own_names, k));
        let removed = column_mapping::column_mapping_removed();
        assert(removed(new_fields[k].metadata) =~= removed(old_fields[k].metadata));
        assert(new_fields[k].column_mapping_id() == Some(ids[k]));
        if lacks_id(old_fields[k]) {
            mapping_laws::fresh_ids_are_above(field, max, own_names, k);
        } else {
            mapping_laws::given_ids_are_kept(field, max, own_names, k);
        }
    }
    assert forall|j: int, k: int|
        0 <= j < k < added.len() && lacks_id(added[k].given) implies (
    #[trigger] added[j]).added.column_mapping_id()->0 < (
    #[trigger] added[k]).added.column_mapping_id()->0 by {
        mapping_laws::fresh_ids_are_above(field, max, own_names, k);
        assert(new_fields[j].column_mapping_id()->0 < new_fields[k].column_mapping_id()->0);
    }
}

proof fn lemma_fresh_ids(
    operations: Seq<OperationView>,
    mode: ColumnMappingMode,
    names: Seq<Seq<char>>,
    state: EvolutionState,
)
    requires
        mode != ColumnMappingMode::NoMapping,
        state.max_id is Some,
        state.names_used + evolution::names_needed(operations, mode) <= names.len(),
    ensures
        evolution::after_operations(operations, mode, names, state) matches Ok(after) ==> {
            let added = additions(operations, mode, names, state);
            &&& have_fresh_ids(added, state.max_id->0)
            &&& after.max_id is Some
            &&& after.max_id->0 >= state.max_id->0
            &&& are_up_to(added, after.max_id->0)
        },
    decreases operations.len(),
{
    if operations.len() > 0 {
        let front = operations.drop_last();
        lemma_fresh_ids(front, mode, names, state);
        run_laws::lemma_all_names_used(front, mode, names, state);
        if let Ok(middle) = evolution::after_operations(front, mode, names, state) {
            if let Ok(after) = evolution::after_operation(operations.last(), mode, names, middle) {
                let before = additions(front, mode, names, state);
                let more = additions_of(operations.last(), mode, names, middle);
                let added = before + more;
                match operations.last() {
                    OperationView::AddColumn { path, field } => {
                        lemma_fresh_ids_of_one(field, mode, names, middle, path);
                        assert forall|k: int| 0 <= k < added.len() implies {
                            &&& is_as_given(#[trigger] added[k])
                            &&& added[k].added.column_mapping_id() is Some
                            &&& added[k].added.column_mapping_id()->0 <= after.max_id->0
                            &&& if lacks_id(added[k].given) {
                                added[k].added.column_mapping_id()->0 > state.max_id->0
                            } else {
                                added[k].added.column_mapping_id()
                                    == added[k].given.column_mapping_id()
                            }
                        } by {
                            if k < before.len() {
                                assert(added[k] == before[k]);
                            } else {
                                assert(added[k] == more[k - before.len()]);
                            }
                        }
                        assert forall|j: int, k: int|
                            0 <= j < k < added.len() && lacks_id(added[k].given) implies (
                        #[trigger] added[j]).added.column_mapping_id()->0 < (
                        #[trigger] added[k]).added.column_mapping_id()->0 by {
                            if k < before.len() {
                                assert(added[j] == before[j] && added[k] == before[k]);
                            } else if j < before.len() {
                                assert(added[j] == before[j]);
                                assert(added[k] == more[k - before.len()]);
                            } else {
                                assert(added[j] == more[j - before.len()]);
                                assert(added[k] == more[k - before.len()]);
                            }
                        }
                    },
                    OperationView::SetNullable { .. } => {
                        assert(added =~= before);
                    },
                }
            }
        }
    }
}

/// Changes to a mapped table that keeps the greatest id `kept` report the greatest id in the new
/// schema if it is above `kept`, and nothing else. The columns of the new schema are the old ones
/// and the added ones, each one once. Each added field, at any depth, has an id: its own, or one
/// above `kept`, above all ids in the old schema, and above those of all fields added before it.
pub proof fn added_fields_get_fresh_ids(
    schema: Seq<FieldView>,
    operations: Seq<OperationView>,
    mode: ColumnMappingMode,
    kept: int,
    names: Seq<Seq<char>>,
)
    requires
        mode != ColumnMappingMode::NoMapping,
        evolution::names_needed(operations, mode) <= names.len(),
    ensures
        evolution::evolved(schema, operations, mode, Some(kept), names) matches Ok(
            (new_schema, reported),
        ) ==> {
            let start = evolution::starting_state(schema, mode, Some(kept));
            let added = additions(operations, mode, names, start);
            &&& reported == evolution::raised(
                evolution::starting_max(new_schema, mode, Some(kept)),
                Some(kept),
            )
            &&& exists|origin: Seq<int>| #[trigger]
                is_arranged(
                    old_and_added(schema, added),
                    path_laws::schema_columns(schema).len() as int,
                    path_laws::schema_columns(new_schema),
                    origin,
                )
            &&& have_fresh_ids(added, start.max_id->0)
            &&& start.max_id->0 >= kept
            &&& run_laws::ids_up_to(schema, start.max_id->0)
        },
{
    let start = evolution::starting_state(schema, mode, Some(kept));
    run_laws::lemma_start_tracks_ids(schema, mode, kept);
    run_laws::reported_id_is_greatest(schema, operations, mode, kept, names);
    columns_are_old_or_added(operations, mode, names, start);
    lemma_fresh_ids(operations, mode, names, start);
    if let Ok((new_schema, reported)) = evolution::evolved(
        schema,
        operations,
        mode,
        Some(kept),
        names,
    ) {
        let new_ids = column_mapping::schema_ids(new_schema);
        if new_ids.len() > 0 {
            new_ids.max_ensures();
            let k = choose|k: int| 0 <= k < new_ids.len() && new_ids[k] == new_ids.max();
            if reported is None {
                assert(new_ids[k] <= kept);
            }
        }
    }
}

/// Whether a field comes without a physical name.
pub open spec fn lacks_physical_name(field: FieldView) -> bool {
    !field.metadata.contains_key(ColumnMetadataKey::ColumnMappingPhysicalName.text())
}

/// Whether each added field has a physical name: its own if it came with one, else the one in its
/// place of `names`.
pub open spec fn have_physical_names(added: Seq<Addition>, names: Seq<Seq<char>>) -> bool {
    let key = ColumnMetadataKey::ColumnMappingPhysicalName.text();
    forall|k: int|
        0 <= k < added.len() ==> {
            &&& (#[trigger] added[k]).added.metadata.contains_key(key)
            &&& added[k].added.metadata[key] == if lacks_physical_name(added[k].given) {
                MetadataValueView::String(names[k])
            } else {
                added[k].given.metadata[key]
            }
            &&& added[k].added.metadata[key] is String
        }
}

proof fn lemma_physical_names_of_one(
    operation: OperationView,
    mode: ColumnMappingMode,
    names: Seq<Seq<char>>,
    state: EvolutionState,
)
    requires
        mode != ColumnMappingMode::NoMapping,
        state.names_used + evolution::names_for_operation(operation, mode) <= names.len(),
    ensures
        evolution::after_operation(operation, mode, names, state) is Ok ==> {
            let added = additions_of(operation, mode, names, state);
            &&& added.len() == evolution::names_for_operation(operation, mode)
            &&& have_physical_names(added, names.skip(state.names_used as int))
        },
{
    if let OperationView::AddColumn { field, .. } = operation {
        if evolution::after_operation(operation, mode, names, state) is Ok {
            let own_names = names.skip(state.names_used as int);
            let max = state.max_id->0;
            let key = ColumnMetadataKey::ColumnMappingPhysicalName.text();
            let added = additions_of(operation, mode, names, state);
            assert forall|k: int| 0 <= k < added.len() implies {
                &&& (#[trigger] added[k]).added.metadata.contains_key(key)
                &&& added[k].added.metadata[key] == if lacks_physical_name(added[k].given) {
                    MetadataValueView::String(own_names[k])
                } else {
                    added[k].given.metadata[key]
                }
                &&& added[k].added.metadata[key] is String
            } by {
                mapping_laws::assigned_fields_have_physical_names(field, max, own_names, k);
            }
        }
    }
}

/// Over any changes to a mapped table, each added field, at any depth, has a physical name: its own,
/// or the one in its place of the given names, counted over all added fields.
pub proof fn names_are_handed_out_in_order(
    operations: Seq<OperationView>,
    mode: ColumnMappingMode,
    names: Seq<Seq<char>>,
    state: EvolutionState,
)
    requires
        mode != ColumnMappingMode::NoMapping,
        state.names_used + evolution::names_needed(operations, mode) <= names.len(),
    ensures
        evolution::after_operations(operations, mode, names, state) is Ok ==> {
            let added = additions(operations, mode, names, state);
            &&& added.len() == evolution::names_needed(operations, mode)
            &&& have_physical_names(added, names.skip(state.names_used as int))
        },
    decreases operations.len(),
{
    if operations.len() > 0 {
        let front = operations.drop_last();
        names_are_handed_out_in_order(front, mode, names, state);
        run_laws::lemma_all_names_used(front, mode, names, state);
        if let Ok(middle) = evolution::after_operations(front, mode, names, state) {
            if evolution::after_operation(operations.last(), mode, names, middle) is Ok {
                lemma_physical_names_of_one(operations.last(), mode, names, middle);
                let key = ColumnMetadataKey::ColumnMappingPhysicalName.text();
                let own_names = names.skip(state.names_used as int);
                let before = additions(front, mode, names, state);
                let more = additions_of(operations.last(), mode, names, middle);
                let added = before + more;
                assert forall|k: int| 0 <= k < added.len() implies {
                    &&& (#[trigger] added[k]).added.metadata.contains_key(key)
                    &&& added[k].added.metadata[key] == if lacks_physical_name(added[k].given) {
                        MetadataValueView::String(own_names[k])
                    } else {
                        added[k].given.metadata[key]
                    }
                    &&& added[k].added.metadata[key] is String
                } by {
                    if k < before.len() {
                        assert(added[k] == before[k]);
                    } else {
                        let j = k - before.len();
                        assert(added[k] == more[j]);
                        assert(names.skip(middle.names_used as int)[j] == own_names[k]);
                    }
                }
            }
        }
    }
}

/// When the given names are all different, any two fields that changes add to a mapped table
/// without a physical name get different physical names. When the given names have the form of
/// generated ones, so have these.
pub proof fn different_names_stay_different(
    schema: Seq<FieldView>,
    operations: Seq<OperationView>,
    mode: ColumnMappingMode,
    kept: Option<int>,
    names: Seq<Seq<char>>,
)
    requires
        mode != ColumnMappingMode::NoMapping,
        evolution::names_needed(operations, mode) <= names.len(),
    ensures
        evolution::evolved(schema, operations, mode, kept, names) is Ok ==> {
            let key = ColumnMetadataKey::ColumnMappingPhysicalName.text();
            let start = evolution::starting_state(schema, mode, kept);
            let added = additions(operations, mode, names, start);
            &&& have_physical_names(added, names)
            &&& names.no_duplicates() ==> forall|j: int, k: int|
                0 <= j < k < added.len() && lacks_physical_name(added[j].given)
                    && lacks_physical_name(added[k].given) ==> (
                #[trigger] added[j]).added.metadata[key] != (
                #[trigger] added[k]).added.metadata[key]
            &&& column_mapping::are_generated_names(names) ==> forall|k: int|
                0 <= k < added.len() && lacks_physical_name(added[k].given)
                    ==> column_mapping::is_generated_name(
                    (#[trigger] added[k]).added.metadata[key]->String_0,
                )
        },
{
    let start = evolution::starting_state(schema, mode, kept);
    names_are_handed_out_in_order(operations, mode, names, start);
    assert(names.skip(0) == names);
    if evolution::evolved(schema, operations, mode, kept, names) is Ok {
        let key = ColumnMetadataKey::ColumnMappingPhysicalName.text();
        let added = additions(operations, mode, names, start);
        if names.no_duplicates() {
            assert forall|j: int, k: int|
                0 <= j < k < added.len() && lacks_physical_name(added[j].given)
                    && lacks_physical_name(added[k].given) implies (
            #[trigger] added[j]).added.metadata[key] != (
            #[trigger] added[k]).added.metadata[key] by {
                assert(names[j] != names[k]);
            }
        }
    }
}

} // verus!
