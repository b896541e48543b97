//! What column mapping assigns, field by field.
//!
//! The assignment follows the nesting of a type. Here it is described over the flat list of
//! [`FieldView::with_nested`], in whose order ids are handed out.
use vstd::prelude::*;

use crate::column_mapping;
use crate::error::ErrorView;
use crate::schema::{ColumnMetadataKey, DataTypeView, FieldView, MetadataValueView};

verus! {

/// The greatest id in use after the fields of a list got their ids in order, when `max` was the
/// greatest before.
pub open spec fn max_after(fields: Seq<FieldView>, max: int) -> int
    decreases fields.len(),
{
    if fields.len() == 0 {
        max
    } else {
        let before = max_after(fields.drop_last(), max);
        match fields.last().assigned_id(before) {
            Ok(id) => if id > before {
                id
            } else {
                before
            },
            Err(_) => before,
        }
    }
}

/// Whether `new` is `old` with the given id and physical name, but for the types.
pub open spec fn is_annotated_with(
    old_field: FieldView,
    new_field: FieldView,
    id: int,
    physical_name: Seq<char>,
) -> bool {
    &&& new_field.name == old_field.name
    &&& new_field.nullable == old_field.nullable
    &&& new_field.metadata == old_field.metadata.insert(
        ColumnMetadataKey::ColumnMappingId.text(),
        MetadataValueView::Number(id),
    ).insert(
        ColumnMetadataKey::ColumnMappingPhysicalName.text(),
        MetadataValueView::String(physical_name),
    )
}

/// Whether field `k` of `new_fields` is field `k` of `old_fields` with the id and the physical
/// name that are its due.
pub open spec fn is_assigned_at(
    old_fields: Seq<FieldView>,
    new_fields: Seq<FieldView>,
    max: int,
    names: Seq<Seq<char>>,
    k: int,
) -> bool {
    let id = old_fields[k].assigned_id(max_after(old_fields.take(k), max));
    let physical_name = old_fields[k].assigned_physical_name(names[k]);
    &&& id is Ok
    &&& physical_name is Ok
    &&& is_annotated_with(old_fields[k], new_fields[k], id->Ok_0, physical_name->Ok_0)
}

/// Whether each field of `new_fields` is the one of `old_fields` in its place with the id and the
/// physical name that are its due.
pub open spec fn are_assigned(
    old_fields: Seq<FieldView>,
    new_fields: Seq<FieldView>,
    max: int,
    names: Seq<Seq<char>>,
) -> bool {
    &&& new_fields.len() == old_fields.len()
    &&& forall|k: int|
        0 <= k < old_fields.len() ==> #[trigger] is_assigned_at(
            old_fields,
            new_fields,
            max,
            names,
            k,
        )
}

/// The greatest id in use never goes down.
pub proof fn max_never_goes_down(fields: Seq<FieldView>, max: int)
    ensures
        max_after(fields, max) >= max,
    decreases fields.len(),
{
    if fields.len() > 0 {
        max_never_goes_down(fields.drop_last(), max);
    }
}

proof fn lemma_max_after_concat(a: Seq<FieldView>, b: Seq<FieldView>, max: int)
    ensures
        max_after(a + b, max) == max_after(b, max_after(a, max)),
    decreases b.len(),
{
    if b.len() == 0 {
        assert(a + b == a);
    } else {
        lemma_max_after_concat(a, b.drop_last(), max);
        assert((a + b).drop_last() == a + b.drop_last());
    }
}

proof fn lemma_are_assigned_concat(
    a: Seq<FieldView>,
    new_a: Seq<FieldView>,
    b: Seq<FieldView>,
    new_b: Seq<FieldView>,
    max: int,
    names: Seq<Seq<char>>,
)
    requires
        a.len() + b.len() <= names.len(),
        are_assigned(a, new_a, max, names),
        are_assigned(b, new_b, max_after(a, max), names.skip(a.len() as int)),
    ensures
        are_assigned(a + b, new_a + new_b, max, names),
{
    assert forall|k: int| 0 <= k < (a + b).len() implies #[trigger] is_assigned_at(
        a + b,
        new_a + new_b,
        max,
        names,
        k,
    ) by {
        if k < a.len() {
            assert(is_assigned_at(a, new_a, max, names, k));
            assert((a + b).take(k) == a.take(k));
        } else {
            let j = k - a.len();
            assert(is_assigned_at(b, new_b, max_after(a, max), names.skip(a.len() as int), j));
            assert((a + b).take(k) == a + b.take(j));
            lemma_max_after_concat(a, b.take(j), max);
        }
    }
}

/// Column mapping gives each field, at any depth, the id and the physical name that are its due,
/// in order, and reports the greatest id then in use.
pub proof fn field_assignment(field: FieldView, max: int, names: Seq<Seq<char>>)
    requires
        field.with_nested().len() <= names.len(),
    ensures
        field.assigned(max, names) matches Ok((new_field, new_max)) ==> {
            &&& are_assigned(field.with_nested(), new_field.with_nested(), max, names)
            &&& new_max == max_after(field.with_nested(), max)
        },
    decreases field,
{
    if let Ok((new_field, new_max)) = field.assigned(max, names) {
        let id = field.assigned_id(max)->Ok_0;
        let here = if id > max {
            id
        } else {
            max
        };
        type_assignment(field.data_type, here, names.skip(1));
        let a = seq![field];
        let new_a = seq![new_field];
        assert(a.drop_last() == Seq::<FieldView>::empty());
        assert(max_after(a.drop_last(), max) == max);
        assert(max_after(a, max) == here);
        assert(a.take(0) == Seq::<FieldView>::empty());
        assert(is_assigned_at(a, new_a, max, names, 0));
        lemma_are_assigned_concat(
            a,
            new_a,
            field.data_type.nested_fields(),
            new_field.data_type.nested_fields(),
            max,
            names,
        );
        lemma_max_after_concat(a, field.data_type.nested_fields(), max);
    }
}

proof fn type_assignment(data_type: DataTypeView, max: int, names: Seq<Seq<char>>)
    requires
        data_type.nested_fields().len() <= names.len(),
    ensures
        data_type.assigned(max, names) matches Ok((new_type, new_max)) ==> {
            &&& are_assigned(data_type.nested_fields(), new_type.nested_fields(), max, names)
            &&& new_max == max_after(data_type.nested_fields(), max)
        },
    decreases data_type,
{
    match data_type {
        DataTypeView::Primitive(_) => {},
        DataTypeView::Array { element_type, .. } => {
            type_assignment(*element_type, max, names);
        },
        DataTypeView::Struct(fields) => {
            fields_assignment(fields, max, names);
        },
        DataTypeView::MapOf { key_type, value_type, .. } => {
            type_assignment(*key_type, max, names);
            if let Ok((new_key, max_key)) = key_type.assigned(max, names) {
                let rest = names.skip(key_type.nested_fields().len() as int);
                type_assignment(*value_type, max_key, rest);
                if let Ok((new_value, _)) = value_type.assigned(max_key, rest) {
                    lemma_are_assigned_concat(
                        key_type.nested_fields(),
                        new_key.nested_fields(),
                        value_type.nested_fields(),
                        new_value.nested_fields(),
                        max,
                        names,
                    );
                    lemma_max_after_concat(
                        key_type.nested_fields(),
                        value_type.nested_fields(),
                        max,
                    );
                }
            }
        },
    }
}

proof fn fields_assignment(fields: Seq<FieldView>, max: int, names: Seq<Seq<char>>)
    requires
        FieldView::all_fields(fields).len() <= names.len(),
    ensures
        FieldView::all_assigned(fields, max, names) matches Ok((new_fields, new_max)) ==> {
            &&& are_assigned(
                FieldView::all_fields(fields),
                FieldView::all_fields(new_fields),
                max,
                names,
            )
            &&& new_max == max_after(FieldView::all_fields(fields), max)
            &&& new_fields.len() == fields.len()
        },
    decreases fields,
{
    if fields.len() > 0 {
        let front = fields.drop_last();
        fields_assignment(front, max, names);
        if let Ok((new_front, max_front)) = FieldView::all_assigned(front, max, names) {
            let a = FieldView::all_fields(front);
            let rest = names.skip(a.len() as int);
            field_assignment(fields.last(), max_front, rest);
            if let Ok((new_last, _)) = fields.last().assigned(max_front, rest) {
                let b = fields.last().with_nested();
                let new_a = FieldView::all_fields(new_front);
                let new_b = new_last.with_nested();
                let new_fields = new_front.push(new_last);
                lemma_are_assigned_concat(a, new_a, b, new_b, max, names);
                lemma_max_after_concat(a, b, max);
                assert(FieldView::all_fields(fields) == a + b);
                assert(new_fields.drop_last() == new_front);
                assert(FieldView::all_fields(new_fields) == new_a + new_b);
            }
        }
    }
}

/// The first thing that keeps the fields of a list from getting their ids and physical names in
/// order, if anything does.
pub open spec fn assignment_problem(fields: Seq<FieldView>, max: int) -> Option<ErrorView>
    decreases fields.len(),
{
    if fields.len() == 0 {
        None
    } else {
        match assignment_problem(fields.drop_last(), max) {
            Some(e) => Some(e),
            None => match fields.last().assigned_id(max_after(fields.drop_last(), max)) {
                Err(e) => Some(e),
                Ok(_) => match fields.last().assigned_physical_name(Seq::empty()) {
                    Err(e) => Some(e),
                    Ok(_) => None,
                },
            },
        }
    }
}

proof fn lemma_assignment_problem_concat(a: Seq<FieldView>, b: Seq<FieldView>, max: int)
    ensures
        assignment_problem(a + b, max) == (match assignment_problem(a, max) {
            Some(e) => Some(e),
            None => assignment_problem(b, max_after(a, max)),
        }),
    decreases b.len(),
{
    if b.len() == 0 {
        assert(a + b == a);
    } else {
        lemma_assignment_problem_concat(a, b.drop_last(), max);
        lemma_max_after_concat(a, b.drop_last(), max);
        assert((a + b).drop_last() == a + b.drop_last());
    }
}

/// Whether column mapping can give a field and the fields inside its type their ids and physical
/// names, and what keeps it from that, depends on the fields and the greatest id in use; the
/// generated names play no part.
pub proof fn assignment_succeeds_unless_problem(
    field: FieldView,
    max: int,
    names: Seq<Seq<char>>,
)
    requires
        field.with_nested().len() <= names.len(),
    ensures
        match field.assigned(max, names) {
            Ok(_) => assignment_problem(field.with_nested(), max) is None,
            Err(e) => assignment_problem(field.with_nested(), max) == Some(e),
        },
    decreases field,
{
    let a = seq![field];
    let nested = field.data_type.nested_fields();
    assert(a.drop_last() == Seq::<FieldView>::empty());
    assert(max_after(a.drop_last(), max) == max);
    assert(assignment_problem(a.drop_last(), max) is None);
    lemma_assignment_problem_concat(a, nested, max);
    if let Ok(id) = field.assigned_id(max) {
        let here = if id > max {
            id
        } else {
            max
        };
        assert(max_after(a, max) == here);
        lemma_type_problem(field.data_type, here, names.skip(1));
    }
}

proof fn lemma_type_problem(data_type: DataTypeView, max: int, names: Seq<Seq<char>>)
    requires
        data_type.nested_fields().len() <= names.len(),
    ensures
        match data_type.assigned(max, names) {
            Ok(_) => assignment_problem(data_type.nested_fields(), max) is None,
            Err(e) => assignment_problem(data_type.nested_fields(), max) == Some(e),
        },
    decreases data_type,
{
    match data_type {
        DataTypeView::Primitive(_) => {},
        DataTypeView::Array { element_type, .. } => {
            lemma_type_problem(*element_type, max, names);
        },
        DataTypeView::Struct(fields) => {
            lemma_fields_problem(fields, max, names);
        },
        DataTypeView::MapOf { key_type, value_type, .. } => {
            lemma_type_problem(*key_type, max, names);
            lemma_assignment_problem_concat(
                key_type.nested_fields(),
                value_type.nested_fields(),
                max,
            );
            if let Ok((_, max_key)) = key_type.assigned(max, names) {
                type_assignment(*key_type, max, names);
                let rest = names.skip(key_type.nested_fields().len() as int);
                lemma_type_problem(*value_type, max_key, rest);
            }
        },
    }
}

proof fn lemma_fields_problem(fields: Seq<FieldView>, max: int, names: Seq<Seq<char>>)
    requires
        FieldView::all_fields(fields).len() <= names.len(),
    ensures
        match FieldView::all_assigned(fields, max, names) {
            Ok(_) => assignment_problem(FieldView::all_fields(fields), max) is None,
            Err(e) => assignment_problem(FieldView::all_fields(fields), max) == Some(e),
        },
    decreases fields,
{
    if fields.len() > 0 {
        let front = fields.drop_last();
        let a = FieldView::all_fields(front);
        let b = fields.last().with_nested();
        lemma_fields_problem(front, max, names);
        lemma_assignment_problem_concat(a, b, max);
        assert(FieldView::all_fields(fields) == a + b);
        if let Ok((_, max_front)) = FieldView::all_assigned(front, max, names) {
            fields_assignment(front, max, names);
            assignment_succeeds_unless_problem(
                fields.last(),
                max_front,
                names.skip(a.len() as int),
            );
        }
    }
}

/// Whether no field of a list is annotated with a column mapping id.
pub open spec fn are_without_ids(fields: Seq<FieldView>) -> bool {
    forall|k: int|
        0 <= k < fields.len() ==> !(#[trigger] fields[k]).metadata.contains_key(
            ColumnMetadataKey::ColumnMappingId.text(),
        )
}

proof fn lemma_max_after_without_ids(fields: Seq<FieldView>, max: int)
    requires
        are_without_ids(fields),
        assignment_problem(fields, max) is None,
    ensures
        max_after(fields, max) == max + fields.len(),
    decreases fields.len(),
{
    if fields.len() > 0 {
        let front = fields.drop_last();
        assert forall|k: int| 0 <= k < front.len() implies !(
        #[trigger] front[k]).metadata.contains_key(ColumnMetadataKey::ColumnMappingId.text()) by {
            assert(front[k] == fields[k]);
        }
        lemma_max_after_without_ids(front, max);
        assert(fields.last() == fields[fields.len() - 1]);
    }
}

pub proof fn lemma_no_problem_in_prefix(fields: Seq<FieldView>, n: int, max: int)
    requires
        0 <= n <= fields.len(),
        assignment_problem(fields, max) is None,
    ensures
        assignment_problem(fields.take(n), max) is None,
    decreases fields.len(),
{
    if n == fields.len() {
        assert(fields.take(n) == fields);
    } else {
        lemma_no_problem_in_prefix(fields.drop_last(), n, max);
        assert(fields.drop_last().take(n) == fields.take(n));
    }
}

/// The id of an assigned field.
proof fn lemma_assigned_id_reads_back(
    old_field: FieldView,
    new_field: FieldView,
    id: int,
    physical_name: Seq<char>,
)
    requires
        is_annotated_with(old_field, new_field, id, physical_name),
    ensures
        new_field.column_mapping_id() == Some(id),
        new_field.metadata.contains_key(ColumnMetadataKey::ColumnMappingPhysicalName.text()),
        new_field.metadata[ColumnMetadataKey::ColumnMappingPhysicalName.text()]
            == MetadataValueView::String(physical_name),
{
    ColumnMetadataKey::keys_differ();
}

/// Where each field of a list has an id, these are the ids of the list.
pub proof fn lemma_ids_of_annotated(fields: Seq<FieldView>)
    requires
        forall|k: int|
            0 <= k < fields.len() ==> (#[trigger] fields[k]).column_mapping_id() is Some,
    ensures
        column_mapping::ids(fields) == Seq::new(
            fields.len(),
            |k: int| fields[k].column_mapping_id()->0,
        ),
    decreases fields.len(),
{
    if fields.len() > 0 {
        let front = fields.drop_last();
        assert forall|k: int| 0 <= k < front.len() implies (
        #[trigger] front[k]).column_mapping_id() is Some by {
            assert(front[k] == fields[k]);
        }
        lemma_ids_of_annotated(front);
        assert(fields.last() == fields[fields.len() - 1]);
        assert(column_mapping::ids(fields) =~= Seq::new(
            fields.len(),
            |k: int| fields[k].column_mapping_id()->0,
        ));
    } else {
        assert(column_mapping::ids(fields) =~= Seq::new(
            fields.len(),
            |k: int| fields[k].column_mapping_id()->0,
        ));
    }
}

/// A column without ids gets the next ids, one after the other, for itself and the fields inside
/// its type: they are all different and all above the ids in use, and the last one is the greatest
/// id then in use.
pub proof fn fresh_ids_are_consecutive(field: FieldView, max: int, names: Seq<Seq<char>>)
    requires
        field.with_nested().len() <= names.len(),
        are_without_ids(field.with_nested()),
    ensures
        field.assigned(max, names) matches Ok((new_field, new_max)) ==> {
            &&& column_mapping::ids(new_field.with_nested()) == Seq::new(
                field.with_nested().len(),
                |k: int| max + 1 + k,
            )
            &&& new_max == max + field.with_nested().len()
        },
{
    field_assignment(field, max, names);
    assignment_succeeds_unless_problem(field, max, names);
    if let Ok((new_field, new_max)) = field.assigned(max, names) {
        let old_fields = field.with_nested();
        let new_fields = new_field.with_nested();
        lemma_max_after_without_ids(old_fields, max);
        assert forall|k: int| 0 <= k < new_fields.len() implies (
        #[trigger] new_fields[k]).column_mapping_id() == Some(max + 1 + k) by {
            assert(is_assigned_at(old_fields, new_fields, max, names, k));
            lemma_no_problem_in_prefix(old_fields, k, max);
            let prefix = old_fields.take(k);
            assert forall|j: int| 0 <= j < prefix.len() implies !(
            #[trigger] prefix[j]).metadata.contains_key(
                ColumnMetadataKey::ColumnMappingId.text(),
            ) by {
                assert(prefix[j] == old_fields[j]);
            }
            lemma_max_after_without_ids(prefix, max);
            lemma_assigned_id_reads_back(
                old_fields[k],
                new_fields[k],
                max + 1 + k,
                old_fields[k].assigned_physical_name(names[k])->Ok_0,
            );
        }
        lemma_ids_of_annotated(new_fields);
        assert(column_mapping::ids(new_fields) =~= Seq::new(
            old_fields.len(),
            |k: int| max + 1 + k,
        ));
    }
}

proof fn lemma_max_after_prefix(fields: Seq<FieldView>, n: int, max: int)
    requires
        0 <= n <= fields.len(),
    ensures
        max_after(fields.take(n), max) <= max_after(fields, max),
{
    assert(fields == fields.take(n) + fields.skip(n));
    lemma_max_after_concat(fields.take(n), fields.skip(n), max);
    max_never_goes_down(fields.skip(n), max_after(fields.take(n), max));
}

/// After column mapping, a column and each field inside its type has an id that the table protocol
/// allows, none above the greatest id then reported. That one was in use before or is one of them.
pub proof fn assigned_ids_are_bounded(field: FieldView, max: int, names: Seq<Seq<char>>)
    requires
        field.with_nested().len() <= names.len(),
    ensures
        field.assigned(max, names) matches Ok((new_field, new_max)) ==> {
            let ids = column_mapping::ids(new_field.with_nested());
            &&& ids.len() == new_field.with_nested().len()
            &&& forall|k: int|
                0 <= k < ids.len() ==> column_mapping::is_valid_id(#[trigger] ids[k]) && ids[k]
                    <= new_max
            &&& new_max == max || ids.contains(new_max)
            &&& new_max >= max
        },
{
    field_assignment(field, max, names);
    if let Ok((new_field, new_max)) = field.assigned(max, names) {
        let old_fields = field.with_nested();
        let new_fields = new_field.with_nested();
        max_never_goes_down(old_fields, max);
        assert forall|k: int| 0 <= k < new_fields.len() implies {
            &&& (#[trigger] new_fields[k]).column_mapping_id() == Some(
                old_fields[k].assigned_id(max_after(old_fields.take(k), max))->Ok_0,
            )
            &&& column_mapping::is_valid_id(new_fields[k].column_mapping_id()->0)
            &&& new_fields[k].column_mapping_id()->0 <= new_max
        } by {
            assert(is_assigned_at(old_fields, new_fields, max, names, k));
            lemma_assigned_id_reads_back(
                old_fields[k],
                new_fields[k],
                old_fields[k].assigned_id(max_after(old_fields.take(k), max))->Ok_0,
                old_fields[k].assigned_physical_name(names[k])->Ok_0,
            );
            assert(old_fields.take(k + 1).drop_last() == old_fields.take(k));
            assert(old_fields.take(k + 1).last() == old_fields[k]);
            lemma_max_after_prefix(old_fields, k + 1, max);
        }
        lemma_ids_of_annotated(new_fields);
        let ids = column_mapping::ids(new_fields);
        lemma_max_is_assigned(old_fields, max);
        if new_max != max {
            let k = choose|k: int|
                0 <= k < old_fields.len() && (#[trigger] old_fields[k]).assigned_id(
                    max_after(old_fields.take(k), max),
                ) == Ok::<int, ErrorView>(new_max);
            assert(new_fields[k].column_mapping_id() == Some(new_max));
            assert(ids[k] == new_max);
        }
    }
}

proof fn lemma_max_is_assigned(fields: Seq<FieldView>, max: int)
    ensures
        max_after(fields, max) == max || exists|k: int|
            0 <= k < fields.len() && (#[trigger] fields[k]).assigned_id(
                max_after(fields.take(k), max),
            ) == Ok::<int, ErrorView>(max_after(fields, max)),
    decreases fields.len(),
{
    if fields.len() > 0 {
        let front = fields.drop_last();
        let n = fields.len() - 1;
        lemma_max_is_assigned(front, max);
        assert(fields.take(n) == front);
        if max_after(fields, max) == max_after(front, max) {
            if max_after(front, max) != max {
                let k = choose|k: int|
                    0 <= k < front.len() && (#[trigger] front[k]).assigned_id(
                        max_after(front.take(k), max),
                    ) == Ok::<int, ErrorView>(max_after(front, max));
                assert(front.take(k) == fields.take(k));
                assert(front[k] == fields[k]);
                assert(fields[k].assigned_id(max_after(fields.take(k), max)) == Ok::<
                    int,
                    ErrorView,
                >(max_after(fields, max)));
            }
        } else {
            assert(fields[n].assigned_id(max_after(fields.take(n), max)) == Ok::<int, ErrorView>(
                max_after(fields, max),
            ));
        }
    }
}

/// After column mapping, a field that came without an id, be it the column or inside its type, has
/// one above the greatest id in use before, and above those of the fields before it, whether these
/// came with an id or not.
pub proof fn fresh_ids_are_above(
    field: FieldView,
    max: int,
    names: Seq<Seq<char>>,
    k: int,
)
    requires
        field.with_nested().len() <= names.len(),
        0 <= k < field.with_nested().len(),
        !field.with_nested()[k].metadata.contains_key(ColumnMetadataKey::ColumnMappingId.text()),
    ensures
        field.assigned(max, names) matches Ok((new_field, _)) ==> {
            let new_fields = new_field.with_nested();
            &&& new_fields.len() == field.with_nested().len()
            &&& new_fields[k].column_mapping_id() is Some
            &&& new_fields[k].column_mapping_id()->0 > max
            &&& forall|j: int|
                0 <= j < k ==> (#[trigger] new_fields[j]).column_mapping_id() is Some
                    && new_fields[j].column_mapping_id()->0 < new_fields[k].column_mapping_id()->0
        },
{
    field_assignment(field, max, names);
    if let Ok((new_field, _)) = field.assigned(max, names) {
        let old_fields = field.with_nested();
        let new_fields = new_field.with_nested();
        assert forall|j: int| 0 <= j <= k implies (#[trigger] new_fields[j]).column_mapping_id()
            == Some(old_fields[j].assigned_id(max_after(old_fields.take(j), max))->Ok_0) by {
            assert(is_assigned_at(old_fields, new_fields, max, names, j));
            lemma_assigned_id_reads_back(
                old_fields[j],
                new_fields[j],
                old_fields[j].assigned_id(max_after(old_fields.take(j), max))->Ok_0,
                old_fields[j].assigned_physical_name(names[j])->Ok_0,
            );
        }
        assert(is_assigned_at(old_fields, new_fields, max, names, k));
        let before = old_fields.take(k);
        max_never_goes_down(before, max);
        assert(new_fields[k].column_mapping_id() == Some(max_after(before, max) + 1));
        assert forall|j: int| 0 <= j < k implies (#[trigger] new_fields[j]).column_mapping_id() is Some
            && new_fields[j].column_mapping_id()->0 < new_fields[k].column_mapping_id()->0 by {
            assert(is_assigned_at(old_fields, new_fields, max, names, j));
            assert(old_fields.take(j + 1).drop_last() == old_fields.take(j));
            assert(old_fields.take(j + 1).last() == old_fields[j]);
            assert(before.take(j + 1) == old_fields.take(j + 1));
            lemma_max_after_prefix(before, j + 1, max);
        }
    }
}

/// After column mapping, a column and each field inside its type has a physical name: its own, or
/// the generated one in its place.
pub proof fn assigned_fields_have_physical_names(
    field: FieldView,
    max: int,
    names: Seq<Seq<char>>,
    k: int,
)
    requires
        field.with_nested().len() <= names.len(),
        0 <= k < field.with_nested().len(),
    ensures
        field.assigned(max, names) matches Ok((new_field, _)) ==> {
            let key = ColumnMetadataKey::ColumnMappingPhysicalName.text();
            let before = field.with_nested()[k];
            let after = new_field.with_nested()[k];
            &&& new_field.with_nested().len() == field.with_nested().len()
            &&& after.metadata.contains_key(key)
            &&& after.metadata[key] == if before.metadata.contains_key(key) {
                before.metadata[key]
            } else {
                MetadataValueView::String(names[k])
            }
            &&& after.metadata[key] is String
        },
{
    field_assignment(field, max, names);
    if let Ok((new_field, _)) = field.assigned(max, names) {
        let old_fields = field.with_nested();
        let new_fields = new_field.with_nested();
        assert(is_assigned_at(old_fields, new_fields, max, names, k));
        lemma_assigned_id_reads_back(
            old_fields[k],
            new_fields[k],
            old_fields[k].assigned_id(max_after(old_fields.take(k), max))->Ok_0,
            old_fields[k].assigned_physical_name(names[k])->Ok_0,
        );
    }
}

/// After column mapping, a column and each field inside its type has an id.
pub proof fn assigned_fields_have_ids(field: FieldView, max: int, names: Seq<Seq<char>>, k: int)
    requires
        field.with_nested().len() <= names.len(),
        0 <= k < field.with_nested().len(),
    ensures
        field.assigned(max, names) matches Ok((new_field, _)) ==> {
            &&& new_field.with_nested().len() == field.with_nested().len()
            &&& new_field.with_nested()[k].column_mapping_id() is Some
        },
{
    field_assignment(field, max, names);
    if let Ok((new_field, _)) = field.assigned(max, names) {
        let old_fields = field.with_nested();
        let new_fields = new_field.with_nested();
        assert(is_assigned_at(old_fields, new_fields, max, names, k));
        lemma_assigned_id_reads_back(
            old_fields[k],
            new_fields[k],
            old_fields[k].assigned_id(max_after(old_fields.take(k), max))->Ok_0,
            old_fields[k].assigned_physical_name(names[k])->Ok_0,
        );
    }
}

/// An id that a field is annotated with is kept.
pub proof fn given_ids_are_kept(field: FieldView, max: int, names: Seq<Seq<char>>, k: int)
    requires
        field.with_nested().len() <= names.len(),
        0 <= k < field.with_nested().len(),
        field.with_nested()[k].metadata.contains_key(ColumnMetadataKey::ColumnMappingId.text()),
    ensures
        field.assigned(max, names) matches Ok((new_field, _)) ==> {
            &&& new_field.with_nested().len() == field.with_nested().len()
            &&& field.with_nested()[k].column_mapping_id() is Some
            &&& new_field.with_nested()[k].column_mapping_id()
                == field.with_nested()[k].column_mapping_id()
        },
{
    field_assignment(field, max, names);
    if let Ok((new_field, _)) = field.assigned(max, names) {
        let old_fields = field.with_nested();
        let new_fields = new_field.with_nested();
        assert(is_assigned_at(old_fields, new_fields, max, names, k));
        lemma_assigned_id_reads_back(
            old_fields[k],
            new_fields[k],
            old_fields[k].assigned_id(max_after(old_fields.take(k), max))->Ok_0,
            old_fields[k].assigned_physical_name(names[k])->Ok_0,
        );
    }
}

} // verus!
