//! Annotations on fields decide nothing but what they are for.
//!
//! Names, types and their order do not depend on annotations; so neither does what a path leads
//! to, nor whether a schema is valid.
use vstd::prelude::*;

use crate::column_mapping::{ColumnMappingMode, MetadataChange};
use crate::error::ErrorView;
use crate::evolution;
use crate::evolution::{EvolutionState, OperationView};
use crate::mapping_laws;
use crate::path_laws;
use crate::schema::{ColumnMetadataKey, DataTypeView, FieldView, MetadataValueView};
use crate::table_configuration::{ConfigurationView, MetadataView};
use crate::text;
use crate::validation;

verus! {

pub proof fn lemma_all_reannotated(fields: Seq<FieldView>, change: MetadataChange)
    ensures
        FieldView::all_reannotated(fields, change).len() == fields.len(),
        forall|i: int|
            0 <= i < fields.len() ==> #[trigger] FieldView::all_reannotated(fields, change)[i]
                == fields[i].reannotated(change),
{
}

proof fn lemma_drop_last_reannotated(fields: Seq<FieldView>, change: MetadataChange)
    requires
        fields.len() > 0,
    ensures
        FieldView::all_reannotated(fields, change).drop_last() == FieldView::all_reannotated(
            fields.drop_last(),
            change,
        ),
        FieldView::all_reannotated(fields, change).last() == fields.last().reannotated(change),
{
    lemma_all_reannotated(fields, change);
    lemma_all_reannotated(fields.drop_last(), change);
    assert(FieldView::all_reannotated(fields, change).drop_last() =~= FieldView::all_reannotated(
        fields.drop_last(),
        change,
    ));
}

/// Changing annotations in a type leaves its fields, at any depth, in place.
pub proof fn lemma_nested_reannotated(t: DataTypeView, change: MetadataChange)
    ensures
        t.reannotated(change).nested_fields() == FieldView::all_reannotated(t.nested_fields(), change),
    decreases t,
{
    match t {
        DataTypeView::Primitive(_) => {
            assert(FieldView::all_reannotated(t.nested_fields(), change) =~= Seq::<FieldView>::empty());
        },
        DataTypeView::Array { element_type, .. } => {
            lemma_nested_reannotated(*element_type, change);
        },
        DataTypeView::Struct(fields) => {
            lemma_all_fields_reannotated(fields, change);
        },
        DataTypeView::MapOf { key_type, value_type, .. } => {
            lemma_nested_reannotated(*key_type, change);
            lemma_nested_reannotated(*value_type, change);
            lemma_reannotated_concat(key_type.nested_fields(), value_type.nested_fields(), change);
        },
    }
}

proof fn lemma_reannotated_concat(a: Seq<FieldView>, b: Seq<FieldView>, change: MetadataChange)
    ensures
        FieldView::all_reannotated(a + b, change) == FieldView::all_reannotated(a, change)
            + FieldView::all_reannotated(b, change),
{
    lemma_all_reannotated(a, change);
    lemma_all_reannotated(b, change);
    lemma_all_reannotated(a + b, change);
    assert(FieldView::all_reannotated(a + b, change) =~= FieldView::all_reannotated(a, change)
        + FieldView::all_reannotated(b, change));
}

/// Changing annotations in a list of fields leaves the fields, at any depth, in place.
pub proof fn lemma_all_fields_reannotated(fields: Seq<FieldView>, change: MetadataChange)
    ensures
        FieldView::all_fields(FieldView::all_reannotated(fields, change)) == FieldView::all_reannotated(
            FieldView::all_fields(fields),
            change,
        ),
    decreases fields,
{
    if fields.len() == 0 {
        assert(FieldView::all_reannotated(fields, change) =~= Seq::<FieldView>::empty());
        assert(FieldView::all_reannotated(FieldView::all_fields(fields), change) =~= Seq::<
            FieldView,
        >::empty());
    } else {
        let front = fields.drop_last();
        let last = fields.last();
        lemma_drop_last_reannotated(fields, change);
        lemma_all_fields_reannotated(front, change);
        lemma_nested_reannotated(last.data_type, change);
        let a = FieldView::all_fields(front);
        let b = last.data_type.nested_fields();
        lemma_reannotated_concat(a + seq![last], b, change);
        lemma_reannotated_concat(a, seq![last], change);
        lemma_all_reannotated(seq![last], change);
        assert(FieldView::all_reannotated(seq![last], change) =~= seq![last.reannotated(change)]);
    }
}

proof fn lemma_text_reannotated(t: DataTypeView, change: MetadataChange)
    ensures
        t.reannotated(change).text() == t.text(),
    decreases t,
{
    match t {
        DataTypeView::Primitive(_) => {},
        DataTypeView::Array { element_type, .. } => {
            lemma_text_reannotated(*element_type, change);
        },
        DataTypeView::Struct(fields) => {
            lemma_list_text_reannotated(fields, change);
        },
        DataTypeView::MapOf { key_type, value_type, .. } => {
            lemma_text_reannotated(*key_type, change);
            lemma_text_reannotated(*value_type, change);
        },
    }
}

proof fn lemma_list_text_reannotated(fields: Seq<FieldView>, change: MetadataChange)
    ensures
        FieldView::list_text(FieldView::all_reannotated(fields, change)) == FieldView::list_text(fields),
    decreases fields,
{
    lemma_all_reannotated(fields, change);
    if fields.len() > 0 {
        lemma_drop_last_reannotated(fields, change);
        lemma_list_text_reannotated(fields.drop_last(), change);
        lemma_text_reannotated(fields.last().data_type, change);
    }
}

proof fn lemma_unique_names_reannotated(t: DataTypeView, change: MetadataChange)
    ensures
        t.reannotated(change).unique_names() == t.unique_names(),
    decreases t,
{
    match t {
        DataTypeView::Primitive(_) => {},
        DataTypeView::Array { element_type, .. } => {
            lemma_unique_names_reannotated(*element_type, change);
        },
        DataTypeView::Struct(fields) => {
            let bare = FieldView::all_reannotated(fields, change);
            lemma_all_reannotated(fields, change);
            assert forall|i: int|
                #![trigger fields[i]]
                0 <= i < fields.len() implies bare[i].data_type.unique_names()
                == fields[i].data_type.unique_names() by {
                lemma_unique_names_reannotated(fields[i].data_type, change);
            }
            if FieldView::distinct(fields) {
                assert forall|i: int, j: int| 0 <= i < j < bare.len() implies text::lowercase(
                    #[trigger] bare[i].name,
                ) != text::lowercase(#[trigger] bare[j].name) by {
                    assert(text::lowercase(fields[i].name) != text::lowercase(fields[j].name));
                }
            }
            if FieldView::distinct(bare) {
                assert forall|i: int, j: int| 0 <= i < j < fields.len() implies text::lowercase(
                    #[trigger] fields[i].name,
                ) != text::lowercase(#[trigger] fields[j].name) by {
                    assert(text::lowercase(bare[i].name) != text::lowercase(bare[j].name));
                }
            }
            if t.unique_names() {
                assert forall|i: int|
                    #![trigger bare[i]]
                    0 <= i < bare.len() implies bare[i].data_type.unique_names() by {
                    assert(fields[i].data_type.unique_names());
                }
            }
            if t.reannotated(change).unique_names() {
                assert forall|i: int|
                    #![trigger fields[i]]
                    0 <= i < fields.len() implies fields[i].data_type.unique_names() by {
                    assert(bare[i].data_type.unique_names());
                }
            }
        },
        DataTypeView::MapOf { key_type, value_type, .. } => {
            lemma_unique_names_reannotated(*key_type, change);
            lemma_unique_names_reannotated(*value_type, change);
        },
    }
}

/// Whether a schema is valid does not depend on annotations.
pub proof fn validity_ignores_annotations(
    schema: Seq<FieldView>,
    mode: ColumnMappingMode,
    change: MetadataChange,
)
    ensures
        validation::schema_problem(FieldView::all_reannotated(schema, change), mode)
            == validation::schema_problem(schema, mode),
{
    let bare = FieldView::all_reannotated(schema, change);
    let all = FieldView::all_fields(schema);
    let bare_all = FieldView::all_fields(bare);
    lemma_all_fields_reannotated(schema, change);
    lemma_all_reannotated(all, change);
    lemma_unique_names_reannotated(DataTypeView::Struct(schema), change);
    assert forall|i: int|
        validation::is_first_invalid(bare_all, i) == validation::is_first_invalid(all, i) by {
        if validation::is_first_invalid(all, i) {
            assert forall|j: int| 0 <= j < i implies validation::is_valid_name(
                #[trigger] bare_all[j].name,
            ) by {
                assert(validation::is_valid_name(all[j].name));
            }
        }
        if validation::is_first_invalid(bare_all, i) {
            assert forall|j: int| 0 <= j < i implies validation::is_valid_name(
                #[trigger] all[j].name,
            ) by {
                assert(validation::is_valid_name(bare_all[j].name));
            }
        }
    }
    if exists|i: int| validation::is_first_invalid(all, i) {
        let i = choose|i: int| validation::is_first_invalid(all, i);
        let k = choose|k: int| validation::is_first_invalid(bare_all, k);
        assert(validation::is_first_invalid(bare_all, i));
        assert(validation::is_first_invalid(all, k));
        if i < k {
            assert(validation::is_valid_name(all[i].name));
        }
        if k < i {
            assert(validation::is_valid_name(all[k].name));
        }
    }
}

/// Whether two types are the same but for the annotations that `change` changes.
pub open spec fn same_reannotated(a: DataTypeView, b: DataTypeView, change: MetadataChange) -> bool {
    a.reannotated(change) == b.reannotated(change)
}

pub proof fn lemma_same_fields(a: Seq<FieldView>, b: Seq<FieldView>, change: MetadataChange)
    requires
        FieldView::all_reannotated(a, change) == FieldView::all_reannotated(b, change),
    ensures
        a.len() == b.len(),
        forall|i: int|
            0 <= i < a.len() ==> (#[trigger] a[i]).name == b[i].name && a[i].reannotated(change)
                == b[i].reannotated(change),
{
    lemma_all_reannotated(a, change);
    lemma_all_reannotated(b, change);
    assert forall|i: int| 0 <= i < a.len() implies (#[trigger] a[i]).name == b[i].name
        && a[i].reannotated(change) == b[i].reannotated(change) by {
        assert(FieldView::all_reannotated(a, change)[i] == a[i].reannotated(change));
        assert(FieldView::all_reannotated(b, change)[i] == b[i].reannotated(change));
    }
}

/// In types that are the same but for annotations, a name leads to types that are the same but for
/// annotations, or nowhere for the same reason.
proof fn lemma_step_ignores_annotations(
    a: DataTypeView,
    b: DataTypeView,
    name: Seq<char>,
    change: MetadataChange,
)
    requires
        same_reannotated(a, b, change),
    ensures
        match (a.step(name), b.step(name)) {
            (Ok(x), Ok(y)) => same_reannotated(x, y, change),
            (Err(d), Err(e)) => d == e,
            _ => false,
        },
{
    lemma_text_reannotated(a, change);
    lemma_text_reannotated(b, change);
    if let DataTypeView::Struct(fields) = a {
        let others = b->Struct_0;
        lemma_same_fields(fields, others, change);
        path_laws::lemma_position_by_names(fields, others, text::lowercase(name));
        if let Some(i) = FieldView::position(fields, text::lowercase(name)) {
            assert(FieldView::is_position(fields, text::lowercase(name), i));
            assert(fields[i].reannotated(change) == others[i].reannotated(change));
        }
    }
}

proof fn lemma_with_step_ignores_annotations(
    a: DataTypeView,
    b: DataTypeView,
    name: Seq<char>,
    x: DataTypeView,
    y: DataTypeView,
    change: MetadataChange,
)
    requires
        same_reannotated(a, b, change),
        same_reannotated(x, y, change),
        a.step(name) is Ok,
    ensures
        same_reannotated(a.with_step(name, x), b.with_step(name, y), change),
{
    if let DataTypeView::Struct(fields) = a {
        let others = b->Struct_0;
        lemma_same_fields(fields, others, change);
        path_laws::lemma_position_by_names(fields, others, text::lowercase(name));
        let i = FieldView::position(fields, text::lowercase(name))->0;
        assert(FieldView::is_position(fields, text::lowercase(name), i));
        let new_fields = fields.update(i, FieldView { data_type: x, ..fields[i] });
        let new_others = others.update(i, FieldView { data_type: y, ..others[i] });
        assert forall|j: int| 0 <= j < new_fields.len() implies (
        #[trigger] new_fields[j]).reannotated(change) == new_others[j].reannotated(change) by {
            assert(fields[j].reannotated(change) == others[j].reannotated(change));
        }
        lemma_same_lists(new_fields, new_others, change);
    }
}

pub proof fn lemma_same_lists(a: Seq<FieldView>, b: Seq<FieldView>, change: MetadataChange)
    requires
        a.len() == b.len(),
        forall|i: int| 0 <= i < a.len() ==> (#[trigger] a[i]).reannotated(change) == b[i].reannotated(change),
    ensures
        FieldView::all_reannotated(a, change) == FieldView::all_reannotated(b, change),
{
    lemma_all_reannotated(a, change);
    lemma_all_reannotated(b, change);
    assert forall|i: int| 0 <= i < a.len() implies #[trigger] FieldView::all_reannotated(a, change)[i]
        == FieldView::all_reannotated(b, change)[i] by {
        assert(a[i].reannotated(change) == b[i].reannotated(change));
    }
    assert(FieldView::all_reannotated(a, change) =~= FieldView::all_reannotated(b, change));
}

/// In types that are the same but for annotations, a path leads to structs that are the same but
/// for annotations, or nowhere for the same reason.
pub proof fn paths_ignore_annotations(
    a: DataTypeView,
    b: DataTypeView,
    path: Seq<Seq<char>>,
    change: MetadataChange,
)
    requires
        same_reannotated(a, b, change),
    ensures
        match (a.target(path), b.target(path)) {
            (Ok(x), Ok(y)) => FieldView::all_reannotated(x, change) == FieldView::all_reannotated(y, change),
            (Err(d), Err(e)) => d == e,
            _ => false,
        },
    decreases path.len(),
{
    if path.len() > 0 {
        lemma_step_ignores_annotations(a, b, path[0], change);
        if a.step(path[0]) is Ok {
            paths_ignore_annotations(
                a.step(path[0])->Ok_0,
                b.step(path[0])->Ok_0,
                path.drop_first(),
                change,
            );
        }
    }
}

proof fn lemma_with_target_ignores_annotations(
    a: DataTypeView,
    b: DataTypeView,
    path: Seq<Seq<char>>,
    x: Seq<FieldView>,
    y: Seq<FieldView>,
    change: MetadataChange,
)
    requires
        same_reannotated(a, b, change),
        a.target(path) is Ok,
        FieldView::all_reannotated(x, change) == FieldView::all_reannotated(y, change),
    ensures
        same_reannotated(a.with_target(path, x), b.with_target(path, y), change),
    decreases path.len(),
{
    if path.len() > 0 {
        let name = path[0];
        let rest = path.drop_first();
        lemma_step_ignores_annotations(a, b, name, change);
        let inner_a = a.step(name)->Ok_0;
        let inner_b = b.step(name)->Ok_0;
        lemma_with_target_ignores_annotations(inner_a, inner_b, rest, x, y, change);
        lemma_with_step_ignores_annotations(
            a,
            b,
            name,
            inner_a.with_target(rest, x),
            inner_b.with_target(rest, y),
            change,
        );
    }
}

/// Whether two results of a change are the same but for annotations.
pub open spec fn same_results(
    a: Result<Seq<FieldView>, ErrorView>,
    b: Result<Seq<FieldView>, ErrorView>,
    change: MetadataChange,
) -> bool {
    match (a, b) {
        (Ok(x), Ok(y)) => FieldView::all_reannotated(x, change) == FieldView::all_reannotated(y, change),
        (Err(d), Err(e)) => d == e,
        _ => false,
    }
}

/// What changes do to schemas that are the same but for annotations is the same but for
/// annotations.
pub proof fn changes_ignore_annotations(
    a: Seq<FieldView>,
    b: Seq<FieldView>,
    path: Seq<Seq<char>>,
    name: Seq<char>,
    field: FieldView,
    other: FieldView,
    change: MetadataChange,
)
    requires
        FieldView::all_reannotated(a, change) == FieldView::all_reannotated(b, change),
        field.reannotated(change) == other.reannotated(change),
    ensures
        same_results(
            evolution::with_field_at(a, path, field),
            evolution::with_field_at(b, path, other),
            change,
        ),
        same_results(
            evolution::with_nullable_at(a, path, name),
            evolution::with_nullable_at(b, path, name),
            change,
        ),
{
    let root_a = DataTypeView::Struct(a);
    let root_b = DataTypeView::Struct(b);
    paths_ignore_annotations(root_a, root_b, path, change);
    if let Ok(x) = root_a.target(path) {
        let y = root_b.target(path)->Ok_0;
        lemma_same_fields(x, y, change);
        path_laws::lemma_position_by_names(x, y, text::lowercase(field.name));
        path_laws::lemma_position_by_names(x, y, text::lowercase(name));
        if let Ok(new_x) = evolution::with_field(x, field) {
            let new_y = evolution::with_field(y, other)->Ok_0;
            assert forall|i: int| 0 <= i < new_x.len() implies (#[trigger] new_x[i]).reannotated(change)
                == new_y[i].reannotated(change) by {
                if i < x.len() {
                    assert(x[i].reannotated(change) == y[i].reannotated(change));
                }
            }
            lemma_same_lists(new_x, new_y, change);
            lemma_with_target_ignores_annotations(root_a, root_b, path, new_x, new_y, change);
        }
        if let Ok(new_x) = evolution::with_nullable(x, name) {
            let new_y = evolution::with_nullable(y, name)->Ok_0;
            let i = FieldView::position(x, text::lowercase(name))->0;
            assert(FieldView::is_position(x, text::lowercase(name), i));
            assert forall|j: int| 0 <= j < new_x.len() implies (#[trigger] new_x[j]).reannotated(change)
                == new_y[j].reannotated(change) by {
                assert(x[j].reannotated(change) == y[j].reannotated(change));
            }
            lemma_same_lists(new_x, new_y, change);
            lemma_with_target_ignores_annotations(root_a, root_b, path, new_x, new_y, change);
        }
    }
}

/// The change that makes all physical names the same.
pub open spec fn physical_names_blanked() -> MetadataChange {
    |metadata: Map<Seq<char>, MetadataValueView>|
        {
            let key = ColumnMetadataKey::ColumnMappingPhysicalName.text();
            if metadata.contains_key(key) && metadata[key] is String {
                metadata.insert(key, MetadataValueView::String(Seq::empty()))
            } else {
                metadata
            }
        }
}

proof fn lemma_assigned_but_for_names(
    field: FieldView,
    max: int,
    a: Seq<Seq<char>>,
    b: Seq<Seq<char>>,
)
    ensures
        field.assigned(max, a) matches Ok((x, m)) ==> (field.assigned(max, b) matches Ok((y, n))
            ==> m == n && x.reannotated(physical_names_blanked()) == y.reannotated(physical_names_blanked())),
    decreases field,
{
    if let (Ok((x, _)), Ok((y, _))) = (field.assigned(max, a), field.assigned(max, b)) {
        let id = field.assigned_id(max)->Ok_0;
        let here = if id > max {
            id
        } else {
            max
        };
        lemma_type_assigned_but_for_names(field.data_type, here, a.skip(1), b.skip(1));
        assert(physical_names_blanked()(x.metadata) =~= physical_names_blanked()(y.metadata));
    }
}

proof fn lemma_type_assigned_but_for_names(
    t: DataTypeView,
    max: int,
    a: Seq<Seq<char>>,
    b: Seq<Seq<char>>,
)
    ensures
        t.assigned(max, a) matches Ok((x, m)) ==> (t.assigned(max, b) matches Ok((y, n)) ==> m == n
            && same_reannotated(x, y, physical_names_blanked())),
    decreases t,
{
    match t {
        DataTypeView::Primitive(_) => {},
        DataTypeView::Array { element_type, .. } => {
            lemma_type_assigned_but_for_names(*element_type, max, a, b);
        },
        DataTypeView::Struct(fields) => {
            lemma_fields_assigned_but_for_names(fields, max, a, b);
        },
        DataTypeView::MapOf { key_type, value_type, .. } => {
            lemma_type_assigned_but_for_names(*key_type, max, a, b);
            if let (Ok((_, m)), Ok((_, n))) = (key_type.assigned(max, a), key_type.assigned(
                max,
                b,
            )) {
                let size = key_type.nested_fields().len() as int;
                lemma_type_assigned_but_for_names(*value_type, m, a.skip(size), b.skip(size));
            }
        },
    }
}

proof fn lemma_fields_assigned_but_for_names(
    fields: Seq<FieldView>,
    max: int,
    a: Seq<Seq<char>>,
    b: Seq<Seq<char>>,
)
    ensures
        FieldView::all_assigned(fields, max, a) matches Ok((x, m)) ==> (FieldView::all_assigned(
            fields,
            max,
            b,
        ) matches Ok((y, n)) ==> m == n && FieldView::all_reannotated(x, physical_names_blanked())
            == FieldView::all_reannotated(y, physical_names_blanked())),
    decreases fields,
{
    if fields.len() > 0 {
        let front = fields.drop_last();
        lemma_fields_assigned_but_for_names(front, max, a, b);
        if let (Ok((x, m)), Ok((y, _))) = (
            FieldView::all_assigned(front, max, a),
            FieldView::all_assigned(front, max, b),
        ) {
            let size = FieldView::all_fields(front).len() as int;
            lemma_assigned_but_for_names(fields.last(), m, a.skip(size), b.skip(size));
            if let (Ok((f, _)), Ok((g, _))) = (
                fields.last().assigned(m, a.skip(size)),
                fields.last().assigned(m, b.skip(size)),
            ) {
                lemma_same_fields(x, y, physical_names_blanked());
                let new_x = x.push(f);
                let new_y = y.push(g);
                assert forall|i: int| 0 <= i < new_x.len() implies (#[trigger] new_x[i]).reannotated(
                    physical_names_blanked(),
                ) == new_y[i].reannotated(physical_names_blanked()) by {
                    if i < x.len() {
                        assert(x[i].reannotated(physical_names_blanked()) == y[i].reannotated(
                            physical_names_blanked(),
                        ));
                    }
                }
                lemma_same_lists(new_x, new_y, physical_names_blanked());
            }
        }
    }
}

/// Whether two states are the same but for physical names.
pub open spec fn same_states(a: EvolutionState, b: EvolutionState) -> bool {
    &&& FieldView::all_reannotated(a.schema, physical_names_blanked()) == FieldView::all_reannotated(
        b.schema,
        physical_names_blanked(),
    )
    &&& a.max_id == b.max_id
    &&& a.names_used == b.names_used
}

/// Whether two outcomes of changes are the same but for physical names.
pub open spec fn same_outcomes(
    a: Result<EvolutionState, ErrorView>,
    b: Result<EvolutionState, ErrorView>,
) -> bool {
    match (a, b) {
        (Ok(x), Ok(y)) => same_states(x, y),
        (Err(d), Err(e)) => d == e,
        _ => false,
    }
}

proof fn lemma_operation_but_for_names(
    operation: OperationView,
    mode: ColumnMappingMode,
    names_a: Seq<Seq<char>>,
    names_b: Seq<Seq<char>>,
    a: EvolutionState,
    b: EvolutionState,
)
    requires
        same_states(a, b),
        a.names_used + evolution::names_for_operation(operation, mode) <= names_a.len(),
        a.names_used + evolution::names_for_operation(operation, mode) <= names_b.len(),
    ensures
        same_outcomes(
            evolution::after_operation(operation, mode, names_a, a),
            evolution::after_operation(operation, mode, names_b, b),
        ),
{
    match operation {
        OperationView::AddColumn { path, field } => {
            if mode == ColumnMappingMode::NoMapping {
                changes_ignore_annotations(
                    a.schema,
                    b.schema,
                    path,
                    field.name,
                    field,
                    field,
                    physical_names_blanked(),
                );
            } else if let Some(max) = a.max_id {
                let own_a = names_a.skip(a.names_used as int);
                let own_b = names_b.skip(b.names_used as int);
                mapping_laws::assignment_succeeds_unless_problem(field, max, own_a);
                mapping_laws::assignment_succeeds_unless_problem(field, max, own_b);
                lemma_assigned_but_for_names(field, max, own_a, own_b);
                if let Ok((x, _)) = field.assigned(max, own_a) {
                    let (y, _) = field.assigned(max, own_b)->Ok_0;
                    changes_ignore_annotations(
                        a.schema,
                        b.schema,
                        path,
                        field.name,
                        x,
                        y,
                        physical_names_blanked(),
                    );
                }
            }
        },
        OperationView::SetNullable { column } => {
            if column.len() > 0 {
                let any = FieldView {
                    name: column.last(),
                    data_type: DataTypeView::Struct(Seq::empty()),
                    nullable: true,
                    metadata: Map::empty(),
                };
                changes_ignore_annotations(
                    a.schema,
                    b.schema,
                    column.drop_last(),
                    column.last(),
                    any,
                    any,
                    physical_names_blanked(),
                );
            }
        },
    }
}

proof fn lemma_operations_but_for_names(
    operations: Seq<OperationView>,
    mode: ColumnMappingMode,
    names_a: Seq<Seq<char>>,
    names_b: Seq<Seq<char>>,
    start: EvolutionState,
)
    requires
        start.names_used + evolution::names_needed(operations, mode) <= names_a.len(),
        start.names_used + evolution::names_needed(operations, mode) <= names_b.len(),
    ensures
        same_outcomes(
            evolution::after_operations(operations, mode, names_a, start),
            evolution::after_operations(operations, mode, names_b, start),
        ),
        evolution::after_operations(operations, mode, names_a, start) matches Ok(end)
            ==> end.names_used == start.names_used + evolution::names_needed(operations, mode),
    decreases operations.len(),
{
    if operations.len() > 0 {
        let front = operations.drop_last();
        lemma_operations_but_for_names(front, mode, names_a, names_b, start);
        if let Ok(a) = evolution::after_operations(front, mode, names_a, start) {
            let b = evolution::after_operations(front, mode, names_b, start)->Ok_0;
            lemma_operation_but_for_names(operations.last(), mode, names_a, names_b, a, b);
        }
    }
}

/// Whether two outcomes are the same but for physical names: the same error, or the same schema but
/// for physical names and the same greatest id.
pub open spec fn same_evolutions(
    a: Result<(Seq<FieldView>, Option<int>), ErrorView>,
    b: Result<(Seq<FieldView>, Option<int>), ErrorView>,
) -> bool {
    match (a, b) {
        (Ok((x, m)), Ok((y, n))) => m == n && FieldView::all_reannotated(x, physical_names_blanked())
            == FieldView::all_reannotated(y, physical_names_blanked()),
        (Err(d), Err(e)) => d == e,
        _ => false,
    }
}

/// Which physical names are generated decides nothing but the physical names: whether changes
/// succeed, how they fail, the greatest id and the rest of the schema are the same.
pub proof fn outcome_ignores_generated_names(
    schema: Seq<FieldView>,
    operations: Seq<OperationView>,
    mode: ColumnMappingMode,
    kept: Option<int>,
    names_a: Seq<Seq<char>>,
    names_b: Seq<Seq<char>>,
)
    requires
        evolution::names_needed(operations, mode) <= names_a.len(),
        evolution::names_needed(operations, mode) <= names_b.len(),
    ensures
        same_evolutions(
            evolution::evolved(schema, operations, mode, kept, names_a),
            evolution::evolved(schema, operations, mode, kept, names_b),
        ),
{
    let start = evolution::starting_state(schema, mode, kept);
    lemma_operations_but_for_names(operations, mode, names_a, names_b, start);
    if let Ok(a) = evolution::after_operations(operations, mode, names_a, start) {
        let b = evolution::after_operations(operations, mode, names_b, start)->Ok_0;
        validity_ignores_annotations(a.schema, mode, physical_names_blanked());
        validity_ignores_annotations(b.schema, mode, physical_names_blanked());
    }
}

/// The metadata of a table with all physical names the same.
pub open spec fn metadata_blanked(metadata: MetadataView) -> MetadataView {
    MetadataView {
        schema: FieldView::all_reannotated(metadata.schema, physical_names_blanked()),
        ..metadata
    }
}

/// Whether two outcomes for a table are the same but for physical names: the same error, or the
/// same configuration but for physical names.
pub open spec fn same_configurations(
    a: Result<ConfigurationView, ErrorView>,
    b: Result<ConfigurationView, ErrorView>,
) -> bool {
    match (a, b) {
        (Ok(x), Ok(y)) => ConfigurationView { metadata: metadata_blanked(x.metadata), ..x }
            == (ConfigurationView { metadata: metadata_blanked(y.metadata), ..y }),
        (Err(d), Err(e)) => d == e,
        _ => false,
    }
}

} // verus!
