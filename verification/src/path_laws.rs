//! What a change at a path does to the rest of a schema.
use vstd::prelude::*;

use crate::schema;
use crate::schema::{DataTypeView, FieldView, MetadataValueView};
use crate::text;

verus! {

/// What a field is, apart from the fields inside its type.
pub struct Column {
    pub name: Seq<char>,
    pub nullable: bool,
    pub metadata: Map<Seq<char>, MetadataValueView>,
    /// The type, with no fields in the structs inside it.
    pub outline: DataTypeView,
}

impl DataTypeView {
    /// The type, with no fields in the structs inside it.
    pub open spec fn outline(self) -> DataTypeView
        decreases self,
    {
        match self {
            DataTypeView::Primitive(_) => self,
            DataTypeView::Array { element_type, contains_null } => DataTypeView::Array {
                element_type: Box::new(element_type.outline()),
                contains_null,
            },
            DataTypeView::Struct(_) => DataTypeView::Struct(Seq::empty()),
            DataTypeView::MapOf { key_type, value_type, value_contains_null } => {
                DataTypeView::MapOf {
                    key_type: Box::new(key_type.outline()),
                    value_type: Box::new(value_type.outline()),
                    value_contains_null,
                }
            },
        }
    }
}

impl FieldView {
    /// What the field is, apart from the fields inside its type.
    pub open spec fn column(self) -> Column {
        Column {
            name: self.name,
            nullable: self.nullable,
            metadata: self.metadata,
            outline: self.data_type.outline(),
        }
    }
}

/// What each field of a list is, apart from the fields inside its type.
pub open spec fn columns(fields: Seq<FieldView>) -> Seq<Column> {
    fields.map_values(|f: FieldView| f.column())
}

/// What each field of a schema is, at any depth, in order.
pub open spec fn schema_columns(schema: Seq<FieldView>) -> Seq<Column> {
    columns(FieldView::all_fields(schema))
}

/// What each field inside a type is, at any depth, in order.
pub open spec fn type_columns(data_type: DataTypeView) -> Seq<Column> {
    columns(data_type.nested_fields())
}

pub proof fn lemma_columns_concat(a: Seq<FieldView>, b: Seq<FieldView>)
    ensures
        columns(a + b) == columns(a) + columns(b),
{
    assert(columns(a + b) =~= columns(a) + columns(b));
}

pub proof fn lemma_all_fields_concat(a: Seq<FieldView>, b: Seq<FieldView>)
    ensures
        FieldView::all_fields(a + b) == FieldView::all_fields(a) + FieldView::all_fields(b),
    decreases b.len(),
{
    if b.len() == 0 {
        assert(a + b == a);
    } else {
        lemma_all_fields_concat(a, b.drop_last());
        assert((a + b).drop_last() == a + b.drop_last());
        assert(FieldView::all_fields(a + b) =~= FieldView::all_fields(a) + FieldView::all_fields(b));
    }
}

/// The fields of a list, at any depth, are those before field `i`, field `i` with those inside
/// its type, and those after it.
pub proof fn lemma_all_fields_around(fields: Seq<FieldView>, i: int)
    requires
        0 <= i < fields.len(),
    ensures
        FieldView::all_fields(fields) == FieldView::all_fields(fields.take(i))
            + fields[i].with_nested() + FieldView::all_fields(fields.skip(i + 1)),
{
    assert(fields == fields.take(i + 1) + fields.skip(i + 1));
    lemma_all_fields_concat(fields.take(i + 1), fields.skip(i + 1));
    assert(fields.take(i + 1).drop_last() == fields.take(i));
    assert(FieldView::all_fields(fields.take(i + 1)) =~= FieldView::all_fields(fields.take(i))
        + fields[i].with_nested());
}

/// The place of a name in a list of fields depends on the names alone.
pub proof fn lemma_position_by_names(a: Seq<FieldView>, b: Seq<FieldView>, lowered: Seq<char>)
    requires
        a.len() == b.len(),
        forall|i: int| 0 <= i < a.len() ==> (#[trigger] a[i]).name == b[i].name,
    ensures
        FieldView::position(a, lowered) == FieldView::position(b, lowered),
{
    if let Some(i) = FieldView::position(a, lowered) {
        assert(FieldView::is_position(a, lowered, i));
        assert forall|j: int| 0 <= j < i implies text::lowercase(#[trigger] b[j].name) != lowered by {
            assert(a[j].name == b[j].name);
        }
        assert(FieldView::is_position(b, lowered, i));
        schema::lemma_position(b, lowered, i);
    }
    if let Some(i) = FieldView::position(b, lowered) {
        assert(FieldView::is_position(b, lowered, i));
        assert forall|j: int| 0 <= j < i implies text::lowercase(#[trigger] a[j].name) != lowered by {
            assert(a[j].name == b[j].name);
        }
        assert(FieldView::is_position(a, lowered, i));
        schema::lemma_position(a, lowered, i);
    }
}

proof fn lemma_position_bounds(fields: Seq<FieldView>, lowered: Seq<char>)
    ensures
        FieldView::position(fields, lowered) matches Some(i) ==> FieldView::is_position(
            fields,
            lowered,
            i,
        ),
{
}

/// After the type that a name leads to was replaced, the name leads to the replacement.
proof fn lemma_step_reads_back(t: DataTypeView, name: Seq<char>, inner: DataTypeView)
    requires
        t.step(name) is Ok,
    ensures
        t.with_step(name, inner).step(name) == Ok::<DataTypeView, crate::error::ErrorView>(inner),
{
    if let DataTypeView::Struct(fields) = t {
        let lowered = text::lowercase(name);
        let i = FieldView::position(fields, lowered)->0;
        lemma_position_bounds(fields, lowered);
        let updated = fields.update(i, FieldView { data_type: inner, ..fields[i] });
        lemma_position_by_names(fields, updated, lowered);
    }
    reveal_strlit("key");
    reveal_strlit("value");
    assert("key"@.len() == 3 && "value"@.len() == 5);
}

/// Reading the struct at a path gives back the fields that were written there.
pub proof fn written_fields_read_back(t: DataTypeView, path: Seq<Seq<char>>, fields: Seq<FieldView>)
    requires
        t.target(path) is Ok,
    ensures
        t.with_target(path, fields).target(path) == Ok::<Seq<FieldView>, crate::error::ErrorView>(
            fields,
        ),
    decreases path.len(),
{
    if path.len() > 0 {
        let inner = t.step(path[0])->Ok_0;
        written_fields_read_back(inner, path.drop_first(), fields);
        lemma_step_reads_back(t, path[0], inner.with_target(path.drop_first(), fields));
    }
}

/// Writing back the fields that are there changes nothing.
pub proof fn writing_back_changes_nothing(t: DataTypeView, path: Seq<Seq<char>>)
    requires
        t.target(path) is Ok,
    ensures
        t.with_target(path, t.target(path)->Ok_0) == t,
    decreases path.len(),
{
    if path.len() > 0 {
        let inner = t.step(path[0])->Ok_0;
        writing_back_changes_nothing(inner, path.drop_first());
        reveal_strlit("key");
        reveal_strlit("value");
        assert("key"@.len() == 3 && "value"@.len() == 5);
        if let DataTypeView::Struct(fields) = t {
            let lowered = text::lowercase(path[0]);
            let i = FieldView::position(fields, lowered)->0;
            lemma_position_bounds(fields, lowered);
            assert(fields.update(i, fields[i]) == fields);
        }
    }
}

/// Writing twice at a path leaves what was written last.
pub proof fn last_write_counts(
    t: DataTypeView,
    path: Seq<Seq<char>>,
    first: Seq<FieldView>,
    second: Seq<FieldView>,
)
    requires
        t.target(path) is Ok,
    ensures
        t.with_target(path, first).with_target(path, second) == t.with_target(path, second),
    decreases path.len(),
{
    if path.len() > 0 {
        let inner = t.step(path[0])->Ok_0;
        let inner_first = inner.with_target(path.drop_first(), first);
        last_write_counts(inner, path.drop_first(), first, second);
        lemma_step_reads_back(t, path[0], inner_first);
        reveal_strlit("key");
        reveal_strlit("value");
        assert("key"@.len() == 3 && "value"@.len() == 5);
        if let DataTypeView::Struct(fields) = t {
            let lowered = text::lowercase(path[0]);
            let i = FieldView::position(fields, lowered)->0;
            lemma_position_bounds(fields, lowered);
            let once = fields.update(i, FieldView { data_type: inner_first, ..fields[i] });
            lemma_position_by_names(fields, once, lowered);
            let inner_second = inner.with_target(path.drop_first(), second);
            assert(once.update(i, FieldView { data_type: inner_second, ..once[i] })
                == fields.update(i, FieldView { data_type: inner_second, ..fields[i] }));
        }
    }
}

/// Whether `before` and `after` are what surrounds the struct at a path: the columns of the type
/// are `before`, those of the struct, and `after`, whatever the struct is replaced with.
pub open spec fn surrounds(
    t: DataTypeView,
    path: Seq<Seq<char>>,
    before: Seq<Column>,
    after: Seq<Column>,
) -> bool {
    forall|fields: Seq<FieldView>| #[trigger]
        type_columns(t.with_target(path, fields)) == before + schema_columns(fields) + after
            && t.with_target(path, fields).outline() == t.outline()
}

proof fn lemma_surroundings(t: DataTypeView, path: Seq<Seq<char>>) -> (around: (
    Seq<Column>,
    Seq<Column>,
))
    requires
        t.target(path) is Ok,
    ensures
        surrounds(t, path, around.0, around.1),
    decreases path.len(),
{
    if path.len() == 0 {
        let empty = Seq::<Column>::empty();
        assert forall|fields: Seq<FieldView>| #[trigger]
            type_columns(t.with_target(path, fields)) == empty + schema_columns(fields) + empty
                && t.with_target(path, fields).outline() == t.outline() by {
            assert(empty + schema_columns(fields) + empty =~= schema_columns(fields));
        }
        (empty, empty)
    } else {
        let name = path[0];
        let rest = path.drop_first();
        let inner = t.step(name)->Ok_0;
        let (inner_before, inner_after) = lemma_surroundings(inner, rest);
        reveal_strlit("key");
        reveal_strlit("value");
        assert("key"@.len() == 3 && "value"@.len() == 5);
        let (before, after) = match t {
            DataTypeView::Struct(fields) => {
                let i = FieldView::position(fields, text::lowercase(name))->0;
                lemma_position_bounds(fields, text::lowercase(name));
                (
                    schema_columns(fields.take(i)).push(fields[i].column()) + inner_before,
                    inner_after + schema_columns(fields.skip(i + 1)),
                )
            },
            DataTypeView::MapOf { key_type, value_type, .. } => if name == "key"@ {
                (inner_before, inner_after + type_columns(*value_type))
            } else {
                (type_columns(*key_type) + inner_before, inner_after)
            },
            _ => (inner_before, inner_after),
        };
        assert forall|new_fields: Seq<FieldView>| #[trigger]
            type_columns(t.with_target(path, new_fields)) == before + schema_columns(new_fields)
                + after && t.with_target(path, new_fields).outline() == t.outline() by {
            let new_inner = inner.with_target(rest, new_fields);
            assert(type_columns(new_inner) == inner_before + schema_columns(new_fields)
                + inner_after);
            match t {
                DataTypeView::Struct(fields) => {
                    let i = FieldView::position(fields, text::lowercase(name))->0;
                    let new_field = FieldView { data_type: new_inner, ..fields[i] };
                    let updated = fields.update(i, new_field);
                    lemma_all_fields_around(updated, i);
                    assert(updated.take(i) == fields.take(i));
                    assert(updated.skip(i + 1) == fields.skip(i + 1));
                    let a = FieldView::all_fields(fields.take(i));
                    let b = FieldView::all_fields(fields.skip(i + 1));
                    lemma_columns_concat(a + new_field.with_nested(), b);
                    lemma_columns_concat(a, new_field.with_nested());
                    lemma_columns_concat(seq![new_field], new_inner.nested_fields());
                    assert(columns(seq![new_field]) =~= seq![fields[i].column()]);
                    assert(schema_columns(updated) =~= before + schema_columns(new_fields) + after);
                },
                DataTypeView::MapOf { key_type, value_type, .. } => {
                    if name == "key"@ {
                        lemma_columns_concat(new_inner.nested_fields(), value_type.nested_fields());
                    } else {
                        lemma_columns_concat(key_type.nested_fields(), new_inner.nested_fields());
                    }
                    assert(type_columns(t.with_target(path, new_fields)) =~= before
                        + schema_columns(new_fields) + after);
                },
                _ => {},
            }
        }
        (before, after)
    }
}

/// A change at a path leaves everything around the struct there as it is: each field outside the
/// struct keeps its place, name, nullability, annotations and, but for the fields inside it, type.
pub proof fn surroundings_stay(t: DataTypeView, path: Seq<Seq<char>>)
    requires
        t.target(path) is Ok,
    ensures
        exists|before: Seq<Column>, after: Seq<Column>| #[trigger]
            surrounds(t, path, before, after) && type_columns(t) == before + schema_columns(
                t.target(path)->Ok_0,
            ) + after,
{
    let (before, after) = lemma_surroundings(t, path);
    writing_back_changes_nothing(t, path);
    assert(type_columns(t.with_target(path, t.target(path)->Ok_0)) == before + schema_columns(
        t.target(path)->Ok_0,
    ) + after);
}

} // verus!
