//! What holds of every change to a schema, and of every sequence of changes.
use vstd::prelude::*;

use crate::column_mapping::ColumnMappingMode;
use crate::error::ErrorView;
use crate::evolution;
use crate::evolution::{EvolutionState, OperationView};
use crate::path_laws;
use crate::path_laws::Column;
use crate::schema;
use crate::schema::{DataTypeView, FieldView};
use crate::text;

verus! {

/// The column or nested field at a path, whatever the case of the names, if there is one.
pub open spec fn field_at(schema: Seq<FieldView>, column: Seq<Seq<char>>) -> Option<FieldView> {
    if column.len() == 0 {
        None
    } else {
        match DataTypeView::Struct(schema).target(column.drop_last()) {
            Ok(fields) => match FieldView::position(fields, text::lowercase(column.last())) {
                Some(i) => Some(fields[i]),
                None => None,
            },
            Err(_) => None,
        }
    }
}

/// Changes made in order are the same as some of them first, and then the others on the schema
/// that the first ones left.
pub proof fn operations_compose(
    first: Seq<OperationView>,
    second: Seq<OperationView>,
    mode: ColumnMappingMode,
    names: Seq<Seq<char>>,
    state: EvolutionState,
)
    ensures
        evolution::after_operations(first + second, mode, names, state) == (
        match evolution::after_operations(first, mode, names, state) {
            Ok(middle) => evolution::after_operations(second, mode, names, middle),
            Err(e) => Err(e),
        }),
    decreases second.len(),
{
    if second.len() == 0 {
        assert(first + second == first);
    } else {
        operations_compose(first, second.drop_last(), mode, names, state);
        assert((first + second).drop_last() == first + second.drop_last());
    }
}

proof fn lemma_with_nullable(fields: Seq<FieldView>, name: Seq<char>)
    ensures
        evolution::with_nullable(fields, name) matches Ok(updated) ==> {
            let i = FieldView::position(fields, text::lowercase(name))->0;
            &&& FieldView::is_position(fields, text::lowercase(name), i)
            &&& updated == fields.update(i, FieldView { nullable: true, ..fields[i] })
            &&& FieldView::position(updated, text::lowercase(name)) == Some(i)
        },
{
    if let Ok(updated) = evolution::with_nullable(fields, name) {
        let lowered = text::lowercase(name);
        let i = FieldView::position(fields, lowered)->0;
        assert(FieldView::is_position(fields, lowered, i));
        path_laws::lemma_position_by_names(fields, updated, lowered);
    }
}

/// A column that was made nullable is nullable, and else as it was.
pub proof fn nullable_column_reads_back(
    schema: Seq<FieldView>,
    path: Seq<Seq<char>>,
    name: Seq<char>,
)
    ensures
        evolution::with_nullable_at(schema, path, name) matches Ok(updated) ==> {
            let column = path.push(name);
            &&& field_at(schema, column) is Some
            &&& field_at(updated, column) == Some(
                FieldView { nullable: true, ..field_at(schema, column)->0 },
            )
        },
{
    if let Ok(updated) = evolution::with_nullable_at(schema, path, name) {
        let root = DataTypeView::Struct(schema);
        let fields = root.target(path)->Ok_0;
        let new_fields = evolution::with_nullable(fields, name)->Ok_0;
        lemma_with_nullable(fields, name);
        path_laws::written_fields_read_back(root, path, new_fields);
        assert(path.push(name).drop_last() == path);
        assert(root.with_target(path, new_fields) == DataTypeView::Struct(updated));
    }
}

/// Making a column nullable changes the nullability of the column at its path and nothing else: all
/// columns keep their order, names, annotations and types.
pub proof fn set_nullable_changes_one_column(
    schema: Seq<FieldView>,
    path: Seq<Seq<char>>,
    name: Seq<char>,
)
    ensures
        evolution::with_nullable_at(schema, path, name) matches Ok(updated) ==> exists|k: int|
            0 <= k < path_laws::schema_columns(schema).len() && path_laws::schema_columns(updated)
                == path_laws::schema_columns(schema).update(
                k,
                (Column { nullable: true, ..#[trigger] path_laws::schema_columns(schema)[k] }),
            ) && path_laws::schema_columns(schema)[k] == field_at(
                schema,
                path.push(name),
            )->0.column(),
{
    if let Ok(updated) = evolution::with_nullable_at(schema, path, name) {
        let root = DataTypeView::Struct(schema);
        let fields = root.target(path)->Ok_0;
        let new_fields = evolution::with_nullable(fields, name)->Ok_0;
        lemma_with_nullable(fields, name);
        let i = FieldView::position(fields, text::lowercase(name))->0;
        path_laws::surroundings_stay(root, path);
        let (before, after) = choose|before: Seq<Column>, after: Seq<Column>| #[trigger]
            path_laws::surrounds(root, path, before, after) && path_laws::type_columns(root)
                == before + path_laws::schema_columns(fields) + after;
        assert(path_laws::type_columns(root.with_target(path, new_fields)) == before
            + path_laws::schema_columns(new_fields) + after);
        path_laws::lemma_all_fields_around(fields, i);
        path_laws::lemma_all_fields_around(new_fields, i);
        assert(new_fields.take(i) == fields.take(i));
        assert(new_fields.skip(i + 1) == fields.skip(i + 1));
        let a = FieldView::all_fields(fields.take(i));
        let k = before.len() + a.len();
        let old_columns = path_laws::schema_columns(schema);
        assert(path.push(name).drop_last() == path);
        assert(old_columns[k as int] == fields[i].column());
        assert(path_laws::schema_columns(updated) =~= old_columns.update(
            k as int,
            Column { nullable: true, ..old_columns[k as int] },
        ));
    }
}

/// Making a nullable column nullable changes nothing; so making a column nullable twice is the
/// same as once.
pub proof fn set_nullable_is_idempotent(
    schema: Seq<FieldView>,
    path: Seq<Seq<char>>,
    name: Seq<char>,
)
    ensures
        evolution::with_nullable_at(schema, path, name) matches Ok(updated) ==> {
            &&& evolution::with_nullable_at(updated, path, name) == Ok::<
                Seq<FieldView>,
                ErrorView,
            >(updated)
            &&& field_at(schema, path.push(name))->0.nullable ==> updated == schema
        },
{
    if let Ok(updated) = evolution::with_nullable_at(schema, path, name) {
        let root = DataTypeView::Struct(schema);
        let fields = root.target(path)->Ok_0;
        let new_fields = evolution::with_nullable(fields, name)->Ok_0;
        lemma_with_nullable(fields, name);
        let i = FieldView::position(fields, text::lowercase(name))->0;
        path_laws::written_fields_read_back(root, path, new_fields);
        path_laws::last_write_counts(root, path, new_fields, new_fields);
        assert(new_fields.update(i, FieldView { nullable: true, ..new_fields[i] }) == new_fields);
        assert(root.with_target(path, new_fields) == DataTypeView::Struct(updated));
        assert(path.push(name).drop_last() == path);
        if fields[i].nullable {
            assert(new_fields == fields);
            path_laws::writing_back_changes_nothing(root, path);
        }
    }
}

/// Whether two paths are the same but for case.
pub open spec fn same_but_for_case(a: Seq<Seq<char>>, b: Seq<Seq<char>>) -> bool {
    a.len() == b.len() && forall|i: int|
        0 <= i < a.len() ==> text::lowercase(#[trigger] a[i]) == text::lowercase(b[i])
}

/// Two paths that are the same but for case, and that both lead to a struct, lead to the same one.
pub proof fn paths_ignore_case(t: DataTypeView, a: Seq<Seq<char>>, b: Seq<Seq<char>>)
    requires
        same_but_for_case(a, b),
        t.target(a) is Ok,
        t.target(b) is Ok,
    ensures
        t.target(a) == t.target(b),
        forall|fields: Seq<FieldView>| #[trigger]
            t.with_target(a, fields) == t.with_target(b, fields),
    decreases a.len(),
{
    if a.len() > 0 {
        assert(text::lowercase(a[0]) == text::lowercase(b[0]));
        reveal_strlit("key");
        reveal_strlit("value");
        assert("key"@.len() == 3 && "value"@.len() == 5);
        if let DataTypeView::MapOf { .. } = t {
            assert(text::lowercase("key"@).len() == 3);
            assert(text::lowercase("value"@).len() == 5);
            assert(a[0] == b[0]);
        }
        let inner = t.step(a[0])->Ok_0;
        assert(t.step(b[0]) == t.step(a[0]));
        assert forall|i: int| 0 <= i < a.drop_first().len() implies text::lowercase(
            #[trigger] a.drop_first()[i],
        ) == text::lowercase(b.drop_first()[i]) by {
            assert(text::lowercase(a[i + 1]) == text::lowercase(b[i + 1]));
        }
        paths_ignore_case(inner, a.drop_first(), b.drop_first());
        assert forall|fields: Seq<FieldView>| #[trigger]
            t.with_target(a, fields) == t.with_target(b, fields) by {
            assert(inner.with_target(a.drop_first(), fields) == inner.with_target(
                b.drop_first(),
                fields,
            ));
        }
    }
}

/// Whether two paths into a type are the same but for the case of field names. A name that leads
/// into an array or a map is spelled alike in both; one that leads nowhere need not be.
pub open spec fn same_but_for_field_case(
    t: DataTypeView,
    a: Seq<Seq<char>>,
    b: Seq<Seq<char>>,
) -> bool
    decreases a.len(),
{
    a.len() == b.len() && (a.len() > 0 ==> {
        &&& text::lowercase(a[0]) == text::lowercase(b[0])
        &&& (t is Array || t is MapOf) && (t.step(a[0]) is Ok || t.step(b[0]) is Ok) ==> a[0] == b[0]
        &&& t.step(a[0]) matches Ok(inner) ==> same_but_for_field_case(
            inner,
            a.drop_first(),
            b.drop_first(),
        )
    })
}

/// Two paths that are the same but for the case of field names lead to the same struct, or none of
/// them leads to a struct.
pub proof fn paths_ignore_case_of_field_names(
    t: DataTypeView,
    a: Seq<Seq<char>>,
    b: Seq<Seq<char>>,
)
    requires
        same_but_for_field_case(t, a, b),
    ensures
        t.target(a) is Ok <==> t.target(b) is Ok,
        t.target(a) is Ok ==> t.target(a) == t.target(b),
        forall|fields: Seq<FieldView>| #[trigger]
            t.with_target(a, fields) == t.with_target(b, fields),
    decreases a.len(),
{
    if a.len() > 0 {
        assert(t.step(a[0]) is Ok <==> t.step(b[0]) is Ok);
        if let Ok(inner) = t.step(a[0]) {
            assert(t.step(b[0]) == t.step(a[0]));
            paths_ignore_case_of_field_names(inner, a.drop_first(), b.drop_first());
            assert forall|fields: Seq<FieldView>| #[trigger]
                t.with_target(a, fields) == t.with_target(b, fields) by {
                assert(inner.with_target(a.drop_first(), fields) == inner.with_target(
                    b.drop_first(),
                    fields,
                ));
            }
        }
    }
}

/// A change whose path is spelled in another case, but for what leads into arrays and maps, does
/// the same or is refused as well.
pub proof fn changes_ignore_case_of_field_names(
    schema: Seq<FieldView>,
    a: Seq<Seq<char>>,
    b: Seq<Seq<char>>,
    name_a: Seq<char>,
    name_b: Seq<char>,
    field: FieldView,
)
    requires
        same_but_for_field_case(DataTypeView::Struct(schema), a, b),
        text::lowercase(name_a) == text::lowercase(name_b),
    ensures
        evolution::with_field_at(schema, a, field) is Ok <==> evolution::with_field_at(
            schema,
            b,
            field,
        ) is Ok,
        evolution::with_field_at(schema, a, field) is Ok ==> evolution::with_field_at(
            schema,
            a,
            field,
        ) == evolution::with_field_at(schema, b, field),
        evolution::with_nullable_at(schema, a, name_a) is Ok <==> evolution::with_nullable_at(
            schema,
            b,
            name_b,
        ) is Ok,
        evolution::with_nullable_at(schema, a, name_a) is Ok ==> evolution::with_nullable_at(
            schema,
            a,
            name_a,
        ) == evolution::with_nullable_at(schema, b, name_b),
{
    let root = DataTypeView::Struct(schema);
    paths_ignore_case_of_field_names(root, a, b);
    if let Ok(fields) = root.target(a) {
        set_nullable_ignores_case(fields, name_a, name_b);
        if let Ok(updated) = evolution::with_field(fields, field) {
            assert(root.with_target(a, updated) == root.with_target(b, updated));
        }
        if let Ok(updated) = evolution::with_nullable(fields, name_a) {
            assert(root.with_target(a, updated) == root.with_target(b, updated));
        }
    }
}

/// The name of a column to make nullable may be given in any case.
pub proof fn set_nullable_ignores_case(fields: Seq<FieldView>, a: Seq<char>, b: Seq<char>)
    requires
        text::lowercase(a) == text::lowercase(b),
    ensures
        evolution::with_nullable(fields, a) is Ok <==> evolution::with_nullable(fields, b) is Ok,
        evolution::with_nullable(fields, a) is Ok ==> evolution::with_nullable(fields, a)
            == evolution::with_nullable(fields, b),
{
}

/// An added column is found under its path, as it was added, after the fields that were there.
pub proof fn added_column_reads_back(
    schema: Seq<FieldView>,
    path: Seq<Seq<char>>,
    field: FieldView,
)
    ensures
        evolution::with_field_at(schema, path, field) matches Ok(updated) ==> {
            &&& field_at(schema, path.push(field.name)) is None
            &&& field_at(updated, path.push(field.name)) == Some(field)
            &&& DataTypeView::Struct(updated).target(path) == Ok::<Seq<FieldView>, ErrorView>(
                DataTypeView::Struct(schema).target(path)->Ok_0.push(field),
            )
            &&& path.len() == 0 ==> updated == schema.push(field)
        },
{
    if let Ok(updated) = evolution::with_field_at(schema, path, field) {
        let root = DataTypeView::Struct(schema);
        let fields = root.target(path)->Ok_0;
        let new_fields = fields.push(field);
        let lowered = text::lowercase(field.name);
        path_laws::written_fields_read_back(root, path, new_fields);
        assert(root.with_target(path, new_fields) == DataTypeView::Struct(updated));
        assert(path.push(field.name).drop_last() == path);
        lemma_absent(fields, lowered);
        assert forall|j: int| 0 <= j < fields.len() implies text::lowercase(
            #[trigger] new_fields[j].name,
        ) != lowered by {
            assert(text::lowercase(fields[j].name) != lowered);
        }
        assert(FieldView::is_position(new_fields, lowered, fields.len() as int));
        schema::lemma_position(new_fields, lowered, fields.len() as int);
    }
}

/// A name that has no place in a list of fields is not the name of any of them.
pub proof fn lemma_absent(fields: Seq<FieldView>, lowered: Seq<char>)
    requires
        FieldView::position(fields, lowered) is None,
    ensures
        forall|j: int| 0 <= j < fields.len() ==> text::lowercase(#[trigger] fields[j].name) != lowered,
{
    assert forall|j: int| 0 <= j < fields.len() implies text::lowercase(#[trigger] fields[j].name)
        != lowered by {
        lemma_absent_at(fields, lowered, j);
    }
}

proof fn lemma_absent_at(fields: Seq<FieldView>, lowered: Seq<char>, j: int)
    requires
        FieldView::position(fields, lowered) is None,
        0 <= j < fields.len(),
    ensures
        forall|k: int| 0 <= k <= j ==> text::lowercase(#[trigger] fields[k].name) != lowered,
    decreases j,
{
    if j > 0 {
        lemma_absent_at(fields, lowered, j - 1);
    }
    if text::lowercase(fields[j].name) == lowered {
        assert(FieldView::is_position(fields, lowered, j));
    }
}

/// Adding a column puts it, with the fields inside its type, in one place among the columns of the
/// schema. All other columns keep their order, names, nullability, annotations and types.
pub proof fn adding_keeps_other_columns(
    schema: Seq<FieldView>,
    path: Seq<Seq<char>>,
    field: FieldView,
)
    ensures
        evolution::with_field_at(schema, path, field) matches Ok(updated) ==> exists|k: int|
            #![trigger path_laws::schema_columns(schema).take(k)]
            0 <= k <= path_laws::schema_columns(schema).len() && path_laws::schema_columns(updated)
                == path_laws::schema_columns(schema).take(k) + path_laws::columns(
                field.with_nested(),
            ) + path_laws::schema_columns(schema).skip(k),
{
    if let Ok(updated) = evolution::with_field_at(schema, path, field) {
        let root = DataTypeView::Struct(schema);
        let fields = root.target(path)->Ok_0;
        let new_fields = fields.push(field);
        path_laws::surroundings_stay(root, path);
        let (before, after) = choose|before: Seq<Column>, after: Seq<Column>| #[trigger]
            path_laws::surrounds(root, path, before, after) && path_laws::type_columns(root)
                == before + path_laws::schema_columns(fields) + after;
        assert(path_laws::type_columns(root.with_target(path, new_fields)) == before
            + path_laws::schema_columns(new_fields) + after);
        assert(new_fields.drop_last() == fields);
        assert(FieldView::all_fields(new_fields) =~= FieldView::all_fields(fields)
            + field.with_nested());
        path_laws::lemma_columns_concat(FieldView::all_fields(fields), field.with_nested());
        let k = (before + path_laws::schema_columns(fields)).len() as int;
        let old_columns = path_laws::schema_columns(schema);
        assert(old_columns.take(k) =~= before + path_laws::schema_columns(fields));
        assert(old_columns.skip(k) =~= after);
    }
}

/// A column whose name differs from that of an added one at most in case is refused.
pub proof fn no_second_column_of_one_name(
    schema: Seq<FieldView>,
    path: Seq<Seq<char>>,
    field: FieldView,
    other: FieldView,
)
    requires
        text::lowercase(field.name) == text::lowercase(other.name),
    ensures
        evolution::with_field_at(schema, path, field) matches Ok(updated)
            ==> evolution::with_field_at(updated, path, other) == Err::<Seq<FieldView>, ErrorView>(
            evolution::column_exists(other.name),
        ),
{
    added_column_reads_back(schema, path, field);
    if let Ok(updated) = evolution::with_field_at(schema, path, field) {
        assert(path.push(field.name).drop_last() == path);
    }
}

proof fn lemma_target_keeps_unique_names(
    t: DataTypeView,
    path: Seq<Seq<char>>,
    fields: Seq<FieldView>,
)
    requires
        t.unique_names(),
        t.target(path) is Ok,
        DataTypeView::Struct(fields).unique_names(),
    ensures
        t.with_target(path, fields).unique_names(),
        DataTypeView::Struct(t.target(path)->Ok_0).unique_names(),
    decreases path.len(),
{
    if path.len() > 0 {
        let inner = t.step(path[0])->Ok_0;
        let new_inner = inner.with_target(path.drop_first(), fields);
        if let DataTypeView::Struct(own) = t {
            let lowered = text::lowercase(path[0]);
            let i = FieldView::position(own, lowered)->0;
            assert(FieldView::is_position(own, lowered, i));
            assert(own[i].data_type.unique_names());
            lemma_target_keeps_unique_names(inner, path.drop_first(), fields);
            let updated = own.update(i, FieldView { data_type: new_inner, ..own[i] });
            assert forall|j: int, k: int| 0 <= j < k < updated.len() implies text::lowercase(
                #[trigger] updated[j].name,
            ) != text::lowercase(#[trigger] updated[k].name) by {
                assert(text::lowercase(own[j].name) != text::lowercase(own[k].name));
            }
            assert forall|j: int|
                #![trigger updated[j]]
                0 <= j < updated.len() implies updated[j].data_type.unique_names() by {
                assert(own[j].data_type.unique_names());
            }
        } else {
            lemma_target_keeps_unique_names(inner, path.drop_first(), fields);
        }
    }
}

/// Changes keep names unique: when no struct in a schema has two fields whose names differ at most
/// in case, nor any in an added column, then none has after the change.
pub proof fn changes_keep_names_unique(
    schema: Seq<FieldView>,
    path: Seq<Seq<char>>,
    name: Seq<char>,
    field: FieldView,
)
    requires
        DataTypeView::Struct(schema).unique_names(),
        field.data_type.unique_names(),
    ensures
        evolution::with_field_at(schema, path, field) matches Ok(updated) ==> DataTypeView::Struct(
            updated,
        ).unique_names(),
        evolution::with_nullable_at(schema, path, name) matches Ok(updated)
            ==> DataTypeView::Struct(updated).unique_names(),
{
    let root = DataTypeView::Struct(schema);
    if let Ok(fields) = root.target(path) {
        lemma_target_keeps_unique_names(root, path, schema);
        if let Ok(new_fields) = evolution::with_field(fields, field) {
            lemma_absent(fields, text::lowercase(field.name));
            assert forall|j: int, k: int| 0 <= j < k < new_fields.len() implies text::lowercase(
                #[trigger] new_fields[j].name,
            ) != text::lowercase(#[trigger] new_fields[k].name) by {
                assert(text::lowercase(fields[j].name) != text::lowercase(field.name));
                if k < fields.len() {
                    assert(text::lowercase(fields[j].name) != text::lowercase(fields[k].name));
                }
            }
            assert forall|j: int|
                #![trigger new_fields[j]]
                0 <= j < new_fields.len() implies new_fields[j].data_type.unique_names() by {
                if j < fields.len() {
                    assert(fields[j].data_type.unique_names());
                }
            }
            lemma_target_keeps_unique_names(root, path, new_fields);
        }
        if let Ok(new_fields) = evolution::with_nullable(fields, name) {
            lemma_with_nullable(fields, name);
            assert forall|j: int, k: int| 0 <= j < k < new_fields.len() implies text::lowercase(
                #[trigger] new_fields[j].name,
            ) != text::lowercase(#[trigger] new_fields[k].name) by {
                assert(text::lowercase(fields[j].name) != text::lowercase(fields[k].name));
            }
            assert forall|j: int|
                #![trigger new_fields[j]]
                0 <= j < new_fields.len() implies new_fields[j].data_type.unique_names() by {
                assert(fields[j].data_type.unique_names());
            }
            lemma_target_keeps_unique_names(root, path, new_fields);
        }
    }
}

} // verus!
