//! What column mapping makes of a column, told by its annotations alone.
use vstd::prelude::*;

use crate::annotation_laws;
use crate::column_mapping;
use crate::error::ErrorView;
use crate::mapping_laws;
use crate::schema::{ColumnMetadataKey, DataTypeView, FieldView, MetadataValueView};
use crate::table_laws;
use crate::text;

verus! {

/// A field without column mapping annotations, at any depth.
pub open spec fn unmapped(field: FieldView) -> FieldView {
    field.reannotated(column_mapping::column_mapping_removed())
}

/// Whether a field is the same but for column mapping annotations and the fields inside its type.
pub open spec fn is_kept_but_for_mapping(before: FieldView, after: FieldView) -> bool {
    &&& after.name == before.name
    &&& after.nullable == before.nullable
    &&& after.data_type.outline() == before.data_type.outline()
    &&& forall|key: Seq<char>|
        key != "delta.columnMapping.id"@ && key != "delta.columnMapping.physicalName"@ ==> {
            &&& #[trigger] after.metadata.contains_key(key) == before.metadata.contains_key(key)
            &&& after.metadata.contains_key(key) ==> after.metadata[key] == before.metadata[key]
        }
}

proof fn lemma_field_is_kept(field: FieldView, max: int, names: Seq<Seq<char>>)
    ensures
        field.assigned(max, names) matches Ok((new_field, _)) ==> unmapped(new_field) == unmapped(
            field,
        ),
    decreases field,
{
    if let Ok((new_field, _)) = field.assigned(max, names) {
        let id = field.assigned_id(max)->Ok_0;
        let here = if id > max {
            id
        } else {
            max
        };
        lemma_type_is_kept(field.data_type, here, names.skip(1));
        let removed = column_mapping::column_mapping_removed();
        assert(removed(new_field.metadata) =~= removed(field.metadata));
    }
}

proof fn lemma_type_is_kept(t: DataTypeView, max: int, names: Seq<Seq<char>>)
    ensures
        t.assigned(max, names) matches Ok((new_type, _)) ==> new_type.reannotated(
            column_mapping::column_mapping_removed(),
        ) == t.reannotated(column_mapping::column_mapping_removed()),
    decreases t,
{
    match t {
        DataTypeView::Primitive(_) => {},
        DataTypeView::Array { element_type, .. } => {
            lemma_type_is_kept(*element_type, max, names);
        },
        DataTypeView::Struct(fields) => {
            lemma_fields_are_kept(fields, max, names);
        },
        DataTypeView::MapOf { key_type, value_type, .. } => {
            lemma_type_is_kept(*key_type, max, names);
            if let Ok((_, m)) = key_type.assigned(max, names) {
                let size = key_type.nested_fields().len() as int;
                lemma_type_is_kept(*value_type, m, names.skip(size));
            }
        },
    }
}

proof fn lemma_fields_are_kept(fields: Seq<FieldView>, max: int, names: Seq<Seq<char>>)
    ensures
        FieldView::all_assigned(fields, max, names) matches Ok((new_fields, _))
            ==> FieldView::all_reannotated(new_fields, column_mapping::column_mapping_removed())
            == FieldView::all_reannotated(fields, column_mapping::column_mapping_removed()),
    decreases fields,
{
    let removed = column_mapping::column_mapping_removed();
    if fields.len() > 0 {
        let front = fields.drop_last();
        lemma_fields_are_kept(front, max, names);
        if let Ok((new_front, m)) = FieldView::all_assigned(front, max, names) {
            let size = FieldView::all_fields(front).len() as int;
            lemma_field_is_kept(fields.last(), m, names.skip(size));
            if let Ok((last, _)) = fields.last().assigned(m, names.skip(size)) {
                annotation_laws::lemma_same_fields(new_front, front, removed);
                let new_fields = new_front.push(last);
                assert forall|i: int| 0 <= i < new_fields.len() implies (
                #[trigger] new_fields[i]).reannotated(removed) == fields[i].reannotated(removed) by {
                    if i < front.len() {
                        assert(new_front[i].reannotated(removed) == front[i].reannotated(removed));
                    }
                }
                annotation_laws::lemma_same_lists(new_fields, fields, removed);
            }
        }
    }
}

/// Column mapping leaves a column as it was given but for column mapping annotations: with these
/// taken out at any depth, it is the column that was given. So its name, its nullability, its type
/// down to the last primitive type, and all other annotations stay, for it and each field inside it.
pub proof fn assignment_keeps_the_column(field: FieldView, max: int, names: Seq<Seq<char>>)
    ensures
        field.assigned(max, names) matches Ok((new_field, _)) ==> {
            &&& unmapped(new_field) == unmapped(field)
            &&& new_field.with_nested().len() == field.with_nested().len()
            &&& forall|k: int|
                0 <= k < field.with_nested().len() ==> is_kept_but_for_mapping(
                    field.with_nested()[k],
                    #[trigger] new_field.with_nested()[k],
                )
            &&& is_kept_but_for_mapping(field, new_field)
        },
{
    let removed = column_mapping::column_mapping_removed();
    lemma_field_is_kept(field, max, names);
    if let Ok((new_field, _)) = field.assigned(max, names) {
        let a = new_field.data_type.nested_fields();
        let b = field.data_type.nested_fields();
        annotation_laws::lemma_nested_reannotated(new_field.data_type, removed);
        annotation_laws::lemma_nested_reannotated(field.data_type, removed);
        annotation_laws::lemma_same_fields(a, b, removed);
        let old_fields = field.with_nested();
        let new_fields = new_field.with_nested();
        assert forall|k: int| 0 <= k < old_fields.len() implies (
        #[trigger] new_fields[k]).reannotated(removed) == old_fields[k].reannotated(removed) by {
            if k > 0 {
                assert(a[k - 1].reannotated(removed) == b[k - 1].reannotated(removed));
            }
        }
        assert forall|k: int| 0 <= k < old_fields.len() implies is_kept_but_for_mapping(
            old_fields[k],
            #[trigger] new_fields[k],
        ) by {
            assert(new_fields[k].reannotated(removed) == old_fields[k].reannotated(removed));
            table_laws::lemma_outline_reannotated(new_fields[k].data_type, removed);
            table_laws::lemma_outline_reannotated(old_fields[k].data_type, removed);
            let x = removed(new_fields[k].metadata);
            let y = removed(old_fields[k].metadata);
            assert(x == y);
            assert forall|key: Seq<char>|
                key != "delta.columnMapping.id"@ && key != "delta.columnMapping.physicalName"@ implies {
                &&& #[trigger] new_fields[k].metadata.contains_key(key)
                    == old_fields[k].metadata.contains_key(key)
                &&& new_fields[k].metadata.contains_key(key) ==> new_fields[k].metadata[key]
                    == old_fields[k].metadata[key]
            } by {
                assert(x.contains_key(key) == new_fields[k].metadata.contains_key(key));
                assert(y.contains_key(key) == old_fields[k].metadata.contains_key(key));
                if x.contains_key(key) {
                    assert(x[key] == new_fields[k].metadata[key]);
                    assert(y[key] == old_fields[k].metadata[key]);
                }
            }
        }
        assert(new_fields[0] == new_field && old_fields[0] == field);
    }
}

/// The greatest id in use after the fields of a list: each field with a number for an id has that
/// one, each field without an id has the next one.
pub open spec fn greatest_so_far(fields: Seq<FieldView>, start: int) -> int
    decreases fields.len(),
{
    if fields.len() == 0 {
        start
    } else {
        let before = greatest_so_far(fields.drop_last(), start);
        let metadata = fields.last().metadata;
        if !metadata.contains_key("delta.columnMapping.id"@) {
            before + 1
        } else {
            match metadata["delta.columnMapping.id"@] {
                MetadataValueView::Number(id) if id > before => id,
                _ => before,
            }
        }
    }
}

/// Whether a field can get an id when `before` is the greatest one in use: its own is a number from
/// 0 to 2147483647, or it has none and there is a next one.
pub open spec fn id_is_sound(field: FieldView, before: int) -> bool {
    if field.metadata.contains_key("delta.columnMapping.id"@) {
        match field.metadata["delta.columnMapping.id"@] {
            MetadataValueView::Number(id) => 0 <= id <= 2147483647,
            _ => false,
        }
    } else {
        0 <= before + 1 <= 2147483647
    }
}

/// Whether a field can get a physical name: its own is a string, or it has none.
pub open spec fn name_is_sound(field: FieldView) -> bool {
    field.metadata.contains_key("delta.columnMapping.physicalName"@)
        ==> field.metadata["delta.columnMapping.physicalName"@] is String
}

/// Whether field `k` of a list can get an id and a physical name after the ones before it.
pub open spec fn is_sound_at(fields: Seq<FieldView>, start: int, k: int) -> bool {
    id_is_sound(fields[k], greatest_so_far(fields.take(k), start)) && name_is_sound(fields[k])
}

/// What is said of a field that cannot get an id, or else a physical name.
pub open spec fn complaint(field: FieldView, before: int) -> Seq<char> {
    let key = "delta.columnMapping.id"@;
    if id_is_sound(field, before) {
        "Field '"@ + field.name
            + "' has a non-string `delta.columnMapping.physicalName` annotation"@
    } else if !field.metadata.contains_key(key) {
        "Field '"@ + field.name + "': no column mapping id is left after "@ + text::decimal(before)
    } else if field.metadata[key] is Number {
        "Field '"@ + field.name + "': "@ + ("Generic delta kernel error: "@ + (
        "Invalid column mapping id "@ + text::decimal(field.metadata[key]->Number_0)
            + ": ids range from 0 to 2147483647"@))
    } else {
        "Field '"@ + field.name + "' has a non-numeric `delta.columnMapping.id` annotation"@
    }
}

proof fn lemma_problem_is_unsound_field(fields: Seq<FieldView>, max: int)
    ensures
        match mapping_laws::assignment_problem(fields, max) {
            None => {
                &&& forall|k: int| 0 <= k < fields.len() ==> #[trigger] is_sound_at(fields, max, k)
                &&& mapping_laws::max_after(fields, max) == greatest_so_far(fields, max)
            },
            Some(e) => exists|k: int|
                0 <= k < fields.len() && !(#[trigger] is_sound_at(fields, max, k)) && (forall|j: int|
                    0 <= j < k ==> #[trigger] is_sound_at(fields, max, j)) && e
                    == ErrorView::Schema(
                    complaint(fields[k], greatest_so_far(fields.take(k), max)),
                ),
        },
    decreases fields.len(),
{
    if fields.len() > 0 {
        let front = fields.drop_last();
        let n = front.len() as int;
        lemma_problem_is_unsound_field(front, max);
        assert(fields.take(n) == front);
        assert forall|k: int| 0 <= k < n implies #[trigger] is_sound_at(fields, max, k)
            == is_sound_at(front, max, k) by {
            assert(fields.take(k) == front.take(k));
        }
        match mapping_laws::assignment_problem(front, max) {
            Some(e) => {
                let k = choose|k: int|
                    0 <= k < front.len() && !(#[trigger] is_sound_at(front, max, k)) && (forall|
                        j: int,
                    |
                        0 <= j < k ==> #[trigger] is_sound_at(front, max, j)) && e
                        == ErrorView::Schema(
                        complaint(front[k], greatest_so_far(front.take(k), max)),
                    );
                assert(!is_sound_at(fields, max, k));
                assert(fields.take(k) == front.take(k));
                assert forall|j: int| 0 <= j < k implies #[trigger] is_sound_at(fields, max, j) by {
                    assert(is_sound_at(front, max, j));
                }
            },
            None => {
                assert(fields.last() == fields[n]);
                assert forall|k: int| 0 <= k < n implies #[trigger] is_sound_at(fields, max, k) by {
                    assert(is_sound_at(front, max, k));
                }
                let problem = mapping_laws::assignment_problem(fields, max);
                assert(is_sound_at(fields, max, n) <==> problem is None);
                if let Some(e) = problem {
                    assert(e == ErrorView::Schema(
                        complaint(fields[n], greatest_so_far(fields.take(n), max)),
                    ));
                }
            },
        }
    }
}

/// Column mapping succeeds just when each field, the column and those inside its type, can get an id
/// and a physical name. Else the first one that cannot is complained of.
pub proof fn sound_columns_are_assigned(field: FieldView, max: int, names: Seq<Seq<char>>)
    requires
        field.with_nested().len() <= names.len(),
    ensures
        match field.assigned(max, names) {
            Ok(_) => forall|k: int|
                0 <= k < field.with_nested().len() ==> #[trigger] is_sound_at(
                    field.with_nested(),
                    max,
                    k,
                ),
            Err(e) => exists|k: int|
                0 <= k < field.with_nested().len() && !(#[trigger] is_sound_at(
                    field.with_nested(),
                    max,
                    k,
                )) && (forall|j: int|
                    0 <= j < k ==> #[trigger] is_sound_at(field.with_nested(), max, j)) && e
                    == ErrorView::Schema(
                    complaint(
                        field.with_nested()[k],
                        greatest_so_far(field.with_nested().take(k), max),
                    ),
                ),
        },
{
    mapping_laws::assignment_succeeds_unless_problem(field, max, names);
    lemma_problem_is_unsound_field(field.with_nested(), max);
}

/// Whether field `k` of a list got the id that it came with, or the one after the greatest in use
/// before it, and the physical name that it came with, or the given one in its place.
pub open spec fn has_its_due(
    old_fields: Seq<FieldView>,
    new_fields: Seq<FieldView>,
    max: int,
    names: Seq<Seq<char>>,
    k: int,
) -> bool {
    let given = old_fields[k].metadata;
    let got = new_fields[k].metadata;
    &&& got.contains_key("delta.columnMapping.id"@)
    &&& got["delta.columnMapping.id"@] == if given.contains_key("delta.columnMapping.id"@) {
        given["delta.columnMapping.id"@]
    } else {
        MetadataValueView::Number(greatest_so_far(old_fields.take(k), max) + 1)
    }
    &&& got.contains_key("delta.columnMapping.physicalName"@)
    &&& got["delta.columnMapping.physicalName"@] == if given.contains_key(
        "delta.columnMapping.physicalName"@,
    ) {
        given["delta.columnMapping.physicalName"@]
    } else {
        MetadataValueView::String(names[k])
    }
}

/// After column mapping, each field has the id that it came with, or the one after the greatest in
/// use before it; and the physical name that it came with, or the given one in its place. The
/// greatest id then in use is reported.
pub proof fn each_field_gets_its_due(field: FieldView, max: int, names: Seq<Seq<char>>)
    requires
        field.with_nested().len() <= names.len(),
    ensures
        field.assigned(max, names) matches Ok((new_field, new_max)) ==> {
            let old_fields = field.with_nested();
            let new_fields = new_field.with_nested();
            &&& new_max == greatest_so_far(old_fields, max)
            &&& new_fields.len() == old_fields.len()
            &&& forall|k: int|
                0 <= k < old_fields.len() ==> #[trigger] has_its_due(
                    old_fields,
                    new_fields,
                    max,
                    names,
                    k,
                )
        },
{
    mapping_laws::field_assignment(field, max, names);
    sound_columns_are_assigned(field, max, names);
    mapping_laws::assignment_succeeds_unless_problem(field, max, names);
    ColumnMetadataKey::keys_differ();
    if let Ok((new_field, new_max)) = field.assigned(max, names) {
        let old_fields = field.with_nested();
        let new_fields = new_field.with_nested();
        lemma_problem_is_unsound_field(old_fields, max);
        assert forall|k: int| 0 <= k < old_fields.len() implies #[trigger] has_its_due(
            old_fields,
            new_fields,
            max,
            names,
            k,
        ) by {
            assert(mapping_laws::is_assigned_at(old_fields, new_fields, max, names, k));
            mapping_laws::lemma_no_problem_in_prefix(old_fields, k, max);
            lemma_problem_is_unsound_field(old_fields.take(k), max);
            assert(is_sound_at(old_fields, max, k));
        }
    }
}

} // verus!
