//! What a schema holds, and where paths lead in it.
use vstd::prelude::*;

use crate::annotation_laws;
use crate::column_mapping;
use crate::column_mapping::ColumnMappingMode;
use crate::error::ErrorView;
use crate::evolution;
use crate::evolution_laws;
use crate::schema::{
    ColumnMetadataKey, DataTypeView, FieldView, MetadataColumnSpec, MetadataValueView,
    PrimitiveType,
};
use crate::text;
use crate::validation;

verus! {

/// The annotations are kept under these keys, and the computed columns have these names.
pub proof fn keys_and_computed_columns()
    ensures
        ColumnMetadataKey::ColumnMappingId.text() == "delta.columnMapping.id"@,
        ColumnMetadataKey::ColumnMappingPhysicalName.text() == "delta.columnMapping.physicalName"@,
        ColumnMetadataKey::MetadataSpec.text() == "delta.metadataSpec"@,
        MetadataColumnSpec::RowIndex.text() == "row_index"@,
        MetadataColumnSpec::RowId.text() == "row_id"@,
        MetadataColumnSpec::RowCommitVersion.text() == "row_commit_version"@,
{
}

/// Whether an annotation under a key is just this value.
pub open spec fn is_annotated_as(field: FieldView, key: Seq<char>, value: MetadataValueView) -> bool {
    field.metadata.contains_key(key) && field.metadata[key] == value
}

/// A field is computed just when it is annotated with the name of a computed column. Its column
/// mapping id is the number that it is annotated with, and nothing else.
pub proof fn annotations_tell_what_a_field_is(field: FieldView, id: int)
    ensures
        field.is_metadata_column() <==> {
            let key = "delta.metadataSpec"@;
            ||| is_annotated_as(field, key, MetadataValueView::String("row_index"@))
            ||| is_annotated_as(field, key, MetadataValueView::String("row_id"@))
            ||| is_annotated_as(field, key, MetadataValueView::String("row_commit_version"@))
        },
        field.column_mapping_id() == Some(id) <==> is_annotated_as(
            field,
            "delta.columnMapping.id"@,
            MetadataValueView::Number(id),
        ),
        field.has_column_mapping_metadata() <==> field.metadata.contains_key(
            "delta.columnMapping.id"@,
        ) || field.metadata.contains_key("delta.columnMapping.physicalName"@),
{
}

/// The fields of a list, at any depth: each one, followed by those inside its type; a struct holds
/// its fields, an array those of its elements, a map those of its keys and then those of its values.
pub proof fn fields_at_any_depth(fields: Seq<FieldView>, field: FieldView, t: DataTypeView)
    ensures
        FieldView::all_fields(Seq::empty()) == Seq::<FieldView>::empty(),
        FieldView::all_fields(fields.push(field)) == FieldView::all_fields(fields).push(field)
            + field.data_type.nested_fields(),
        field.with_nested() == seq![field] + field.data_type.nested_fields(),
        match t {
            DataTypeView::Primitive(_) => t.nested_fields().len() == 0,
            DataTypeView::Array { element_type, .. } => t.nested_fields()
                == element_type.nested_fields(),
            DataTypeView::Struct(inner) => t.nested_fields() == FieldView::all_fields(inner),
            DataTypeView::MapOf { key_type, value_type, .. } => t.nested_fields()
                == key_type.nested_fields() + value_type.nested_fields(),
        },
{
    assert(fields.push(field).drop_last() == fields);
    assert(FieldView::all_fields(fields.push(field)) =~= FieldView::all_fields(fields).push(field)
        + field.data_type.nested_fields());
}

/// A type mentions a primitive type just when that one stands in it somewhere.
pub proof fn mentioned_types(t: DataTypeView, p: PrimitiveType)
    ensures
        match t {
            DataTypeView::Primitive(q) => t.mentions(p) <==> q == p,
            DataTypeView::Array { element_type, .. } => t.mentions(p) <==> element_type.mentions(p),
            DataTypeView::Struct(fields) => t.mentions(p) <==> exists|i: int|
                0 <= i < fields.len() && (#[trigger] fields[i]).data_type.mentions(p),
            DataTypeView::MapOf { key_type, value_type, .. } => t.mentions(p) <==> {
                ||| key_type.mentions(p)
                ||| value_type.mentions(p)
            },
        },
{
    if let DataTypeView::Struct(fields) = t {
        if t.mentions(p) {
            let i = choose|i: int|
                #![trigger fields[i]]
                0 <= i < fields.len() && fields[i].data_type.mentions(p);
            assert(fields[i].data_type.mentions(p));
        }
    }
}

/// Names are unique in a type just when no struct in it has two fields of one lower-case name.
pub proof fn unique_names_at_any_depth(t: DataTypeView)
    ensures
        match t {
            DataTypeView::Primitive(_) => t.unique_names(),
            DataTypeView::Array { element_type, .. } => t.unique_names()
                <==> element_type.unique_names(),
            DataTypeView::Struct(fields) => {
                &&& t.unique_names() ==> forall|i: int, j: int|
                    0 <= i < fields.len() && 0 <= j < fields.len() && i != j ==> text::lowercase(
                        (#[trigger] fields[i]).name,
                    ) != text::lowercase((#[trigger] fields[j]).name)
                &&& t.unique_names() ==> forall|i: int|
                    0 <= i < fields.len() ==> (#[trigger] fields[i]).data_type.unique_names()
                &&& (forall|i: int, j: int|
                    0 <= i < fields.len() && 0 <= j < fields.len() && i != j ==> text::lowercase(
                        (#[trigger] fields[i]).name,
                    ) != text::lowercase((#[trigger] fields[j]).name)) && (forall|i: int|
                    0 <= i < fields.len() ==> (#[trigger] fields[i]).data_type.unique_names())
                    ==> t.unique_names()
            },
            DataTypeView::MapOf { key_type, value_type, .. } => t.unique_names() <==> {
                &&& key_type.unique_names()
                &&& value_type.unique_names()
            },
        },
{
    if let DataTypeView::Struct(fields) = t {
        if t.unique_names() {
            assert forall|i: int, j: int|
                0 <= i < fields.len() && 0 <= j < fields.len() && i != j implies text::lowercase(
                (#[trigger] fields[i]).name,
            ) != text::lowercase((#[trigger] fields[j]).name) by {
                if i < j {
                    assert(text::lowercase(fields[i].name) != text::lowercase(fields[j].name));
                } else {
                    assert(text::lowercase(fields[j].name) != text::lowercase(fields[i].name));
                }
            }
        }
    }
}

/// A name finds the first field whose name has the same lower-case form, if there is one.
pub proof fn names_find_the_first_field(fields: Seq<FieldView>, lowered: Seq<char>, i: int)
    requires
        0 <= i < fields.len(),
        text::lowercase(fields[i].name) == lowered,
    ensures
        FieldView::position(fields, lowered) is Some,
        0 <= FieldView::position(fields, lowered)->0 <= i,
        text::lowercase(fields[FieldView::position(fields, lowered)->0].name) == lowered,
{
    if FieldView::position(fields, lowered) is None {
        evolution_laws::lemma_absent(fields, lowered);
    } else {
        let k = FieldView::position(fields, lowered)->0;
        assert(FieldView::is_position(fields, lowered, k));
    }
}

/// A name finds no field where none has its lower-case form.
pub proof fn absent_names_find_nothing(fields: Seq<FieldView>, lowered: Seq<char>)
    requires
        forall|i: int|
            0 <= i < fields.len() ==> text::lowercase((#[trigger] fields[i]).name) != lowered,
    ensures
        FieldView::position(fields, lowered) is None,
{
    if let Some(k) = FieldView::position(fields, lowered) {
        assert(FieldView::is_position(fields, lowered, k));
        assert(text::lowercase(fields[k].name) != lowered);
    }
}

/// One name of a path leads from an array to its elements, from a map to its keys or values, from a
/// struct to the type of its first field of that name, whatever the case, and else nowhere.
pub proof fn one_step(t: DataTypeView, name: Seq<char>)
    ensures
        match t {
            DataTypeView::Primitive(_) => t.step(name) is Err,
            DataTypeView::Array { element_type, .. } => if name == "element"@ {
                t.step(name) == Ok::<DataTypeView, ErrorView>(*element_type)
            } else {
                t.step(name) is Err
            },
            DataTypeView::MapOf { key_type, value_type, .. } => if name == "key"@ {
                t.step(name) == Ok::<DataTypeView, ErrorView>(*key_type)
            } else if name == "value"@ {
                t.step(name) == Ok::<DataTypeView, ErrorView>(*value_type)
            } else {
                t.step(name) is Err
            },
            DataTypeView::Struct(fields) => {
                ||| t.step(name) is Err && forall|i: int|
                    0 <= i < fields.len() ==> text::lowercase((#[trigger] fields[i]).name)
                        != text::lowercase(name)
                ||| t.step(name) is Ok && exists|i: int|
                    0 <= i < fields.len() && (#[trigger] fields[i]).data_type == t.step(name)->Ok_0
                        && text::lowercase(fields[i].name) == text::lowercase(name) && (forall|
                        j: int,
                    |
                        0 <= j < i ==> text::lowercase((#[trigger] fields[j]).name)
                            != text::lowercase(name))
            },
        },
        t.step(name) matches Err(e) ==> e == ErrorView::Schema(
            if t is Struct {
                "field '"@ + name + "' does not exist"@
            } else {
                "path segment "@ + text::quoted(name) + " does not match "@ + t.text()
            },
        ),
{
    if let DataTypeView::Struct(fields) = t {
        let lowered = text::lowercase(name);
        if let Some(i) = FieldView::position(fields, lowered) {
            assert(FieldView::is_position(fields, lowered, i));
            assert(fields[i].data_type == t.step(name)->Ok_0);
            assert forall|j: int| 0 <= j < i implies text::lowercase((#[trigger] fields[j]).name)
                != lowered by {
                assert(text::lowercase(fields[j].name) != lowered);
            }
        } else {
            evolution_laws::lemma_absent(fields, lowered);
        }
    }
    reveal_strlit("key");
    reveal_strlit("value");
    assert("key"@.len() == 3 && "value"@.len() == 5);
}

/// A path leads to the struct where its names lead, one after the other.
pub proof fn paths_lead_name_by_name(t: DataTypeView, name: Seq<char>, rest: Seq<Seq<char>>)
    ensures
        match t {
            DataTypeView::Struct(fields) => t.target(Seq::empty()) == Ok::<Seq<FieldView>, ErrorView>(
                fields,
            ),
            _ => t.target(Seq::empty()) == Err::<Seq<FieldView>, ErrorView>(
                ErrorView::Schema("path target is not a struct"@),
            ),
        },
        t.target(seq![name] + rest) == match t.step(name) {
            Ok(inner) => inner.target(rest),
            Err(e) => Err(e),
        },
{
    assert((seq![name] + rest).drop_first() =~= rest);
    assert((seq![name] + rest)[0] == name);
}

/// Replacing the struct at a path replaces what the names lead to, one after the other, and leaves
/// the rest of each type on the way as it is.
pub proof fn paths_replace_name_by_name(
    t: DataTypeView,
    name: Seq<char>,
    rest: Seq<Seq<char>>,
    fields: Seq<FieldView>,
)
    requires
        t.step(name) is Ok,
    ensures
        t.with_target(Seq::empty(), fields) == DataTypeView::Struct(fields),
        ({
            let inner = t.step(name)->Ok_0.with_target(rest, fields);
            let new_type = t.with_target(seq![name] + rest, fields);
            match t {
                DataTypeView::Primitive(_) => false,
                DataTypeView::Array { contains_null, .. } => new_type == (DataTypeView::Array {
                    element_type: Box::new(inner),
                    contains_null,
                }),
                DataTypeView::MapOf { key_type, value_type, value_contains_null } => new_type == if name
                    == "key"@ {
                    DataTypeView::MapOf { key_type: Box::new(inner), value_type, value_contains_null }
                } else {
                    DataTypeView::MapOf { key_type, value_type: Box::new(inner), value_contains_null }
                },
                DataTypeView::Struct(outer) => exists|i: int|
                    0 <= i < outer.len() && text::lowercase((#[trigger] outer[i]).name)
                        == text::lowercase(name) && (forall|j: int|
                        0 <= j < i ==> text::lowercase((#[trigger] outer[j]).name)
                            != text::lowercase(name)) && new_type == DataTypeView::Struct(
                        outer.update(
                            i,
                            FieldView {
                                name: outer[i].name,
                                data_type: inner,
                                nullable: outer[i].nullable,
                                metadata: outer[i].metadata,
                            },
                        ),
                    ),
            }
        }),
{
    assert((seq![name] + rest).drop_first() =~= rest);
    assert((seq![name] + rest)[0] == name);
    reveal_strlit("key");
    reveal_strlit("value");
    assert("key"@.len() == 3 && "value"@.len() == 5);
    if let DataTypeView::Struct(outer) = t {
        let lowered = text::lowercase(name);
        let i = FieldView::position(outer, lowered)->0;
        assert(FieldView::is_position(outer, lowered, i));
        assert(text::lowercase(outer[i].name) == lowered);
        assert forall|j: int| 0 <= j < i implies text::lowercase((#[trigger] outer[j]).name)
            != lowered by {
            assert(text::lowercase(outer[j].name) != lowered);
        }
    }
}

/// A type is written with its parts, and a list of fields field by field.
pub proof fn types_are_written_with_their_parts(
    t: DataTypeView,
    fields: Seq<FieldView>,
    field: FieldView,
    precision: u8,
    scale: u8,
)
    ensures
        match t {
            DataTypeView::Primitive(p) => t.text() == p.text(),
            DataTypeView::Array { element_type, .. } => t.text() == "array<"@ + element_type.text()
                + ">"@,
            DataTypeView::Struct(inner) => t.text() == "struct<"@ + FieldView::list_text(inner)
                + ">"@,
            DataTypeView::MapOf { key_type, value_type, .. } => t.text() == "map<"@
                + key_type.text() + ", "@ + value_type.text() + ">"@,
        },
        FieldView::list_text(Seq::empty()) == Seq::<char>::empty(),
        FieldView::list_text(fields.push(field)) == if fields.len() == 0 {
            field.name + ": "@ + field.data_type.text()
        } else {
            FieldView::list_text(fields) + ", "@ + field.name + ": "@ + field.data_type.text()
        },
        PrimitiveType::String.text() == "string"@,
        PrimitiveType::Long.text() == "long"@,
        PrimitiveType::Integer.text() == "integer"@,
        PrimitiveType::Short.text() == "short"@,
        PrimitiveType::Byte.text() == "byte"@,
        PrimitiveType::Float.text() == "float"@,
        PrimitiveType::Double.text() == "double"@,
        PrimitiveType::Boolean.text() == "boolean"@,
        PrimitiveType::Binary.text() == "binary"@,
        PrimitiveType::Date.text() == "date"@,
        PrimitiveType::Timestamp.text() == "timestamp"@,
        PrimitiveType::TimestampNtz.text() == "timestamp_ntz"@,
        (PrimitiveType::Decimal { precision, scale }).text() == "decimal("@ + text::decimal(
            precision as int,
        ) + ","@ + text::decimal(scale as int) + ")"@,
{
    assert(fields.push(field).drop_last() == fields);
    if fields.len() == 0 {
        assert(FieldView::list_text(fields) == Seq::<char>::empty());
        assert(FieldView::list_text(fields.push(field)) =~= field.name + ": "@
            + field.data_type.text());
    } else {
        assert(FieldView::list_text(fields.push(field)) =~= FieldView::list_text(fields) + ", "@
            + field.name + ": "@ + field.data_type.text());
    }
}

/// Whether a character may stand in the name of a column that is stored under its name.
pub open spec fn may_be_stored(c: char) -> bool {
    &&& c != ' ' && c != ',' && c != ';' && c != '{' && c != '}'
    &&& c != '(' && c != ')' && c != '\n' && c != '\t' && c != '='
}

/// A schema is valid just when no struct in it has two fields of one lower-case name and, where
/// columns are stored under their names, no name at any depth has a character that may not be
/// stored. Else the first such name is reported, or that names clash.
pub proof fn valid_schemas(schema: Seq<FieldView>, mode: ColumnMappingMode)
    ensures
        match validation::schema_problem(schema, mode) {
            None => {
                &&& DataTypeView::Struct(schema).unique_names()
                &&& mode == ColumnMappingMode::NoMapping ==> forall|k: int, c: int|
                    0 <= k < FieldView::all_fields(schema).len() && 0 <= c
                        < FieldView::all_fields(schema)[k].name.len() ==> may_be_stored(
                        #[trigger] FieldView::all_fields(schema)[k].name[c],
                    )
            },
            Some(e) => {
                ||| mode == ColumnMappingMode::NoMapping && exists|k: int, c: int|
                    0 <= k < FieldView::all_fields(schema).len() && 0 <= c
                        < FieldView::all_fields(schema)[k].name.len() && !may_be_stored(
                        #[trigger] FieldView::all_fields(schema)[k].name[c],
                    ) && (forall|j: int, d: int|
                        0 <= j < k && 0 <= d < FieldView::all_fields(schema)[j].name.len()
                            ==> may_be_stored(
                            #[trigger] FieldView::all_fields(schema)[j].name[d],
                        )) && e == ErrorView::Schema(
                        "Column name '"@ + FieldView::all_fields(schema)[k].name
                            + "' contains an invalid character: a space, a tab, a line break, or one of ,;{}()="@,
                    )
                ||| !DataTypeView::Struct(schema).unique_names() && e == ErrorView::Schema(
                    "The schema has sibling columns whose names differ at most in case"@,
                ) && (mode == ColumnMappingMode::NoMapping ==> forall|k: int, c: int|
                    0 <= k < FieldView::all_fields(schema).len() && 0 <= c
                        < FieldView::all_fields(schema)[k].name.len() ==> may_be_stored(
                        #[trigger] FieldView::all_fields(schema)[k].name[c],
                    ))
            },
        },
{
    let all = FieldView::all_fields(schema);
    if mode == ColumnMappingMode::NoMapping {
        if exists|i: int| validation::is_first_invalid(all, i) {
            let k = choose|i: int| validation::is_first_invalid(all, i);
            let c = choose|c: int|
                0 <= c < all[k].name.len() && validation::is_invalid_char(#[trigger] all[k].name[c]);
            assert(!may_be_stored(all[k].name[c]));
            assert forall|j: int, d: int| 0 <= j < k && 0 <= d < all[j].name.len() implies may_be_stored(
                #[trigger] all[j].name[d],
            ) by {
                assert(validation::is_valid_name(all[j].name));
                assert(!validation::is_invalid_char(all[j].name[d]));
            }
        } else {
            lemma_all_valid(all, all.len() as int);
            assert forall|k: int, c: int|
                0 <= k < all.len() && 0 <= c < all[k].name.len() implies may_be_stored(
                #[trigger] all[k].name[c],
            ) by {
                assert(validation::is_valid_name(all[k].name));
                assert(!validation::is_invalid_char(all[k].name[c]));
            }
        }
    }
}

proof fn lemma_all_valid(fields: Seq<FieldView>, n: int)
    requires
        0 <= n <= fields.len(),
        forall|i: int| !validation::is_first_invalid(fields, i),
    ensures
        forall|i: int| 0 <= i < n ==> validation::is_valid_name(#[trigger] fields[i].name),
    decreases n,
{
    if n > 0 {
        lemma_all_valid(fields, n - 1);
        if !validation::is_valid_name(fields[n - 1].name) {
            assert(validation::is_first_invalid(fields, n - 1));
        }
    }
}

/// The ids of a list of fields are those of its fields, in order. The greatest of some ids is among
/// them, and none is above it.
pub proof fn ids_in_order(fields: Seq<FieldView>, field: FieldView, ids: Seq<int>)
    ensures
        column_mapping::ids(Seq::empty()) == Seq::<int>::empty(),
        column_mapping::ids(fields.push(field)) == match field.column_mapping_id() {
            Some(id) => column_mapping::ids(fields).push(id),
            None => column_mapping::ids(fields),
        },
        column_mapping::schema_ids(fields) == column_mapping::ids(FieldView::all_fields(fields)),
        match column_mapping::greatest(ids) {
            None => ids.len() == 0,
            Some(id) => ids.contains(id) && forall|k: int| 0 <= k < ids.len() ==> ids[k] <= id,
        },
{
    assert(fields.push(field).drop_last() == fields);
    if ids.len() > 0 {
        ids.max_ensures();
    }
}

/// Changing annotations changes nothing else: each field keeps its name and nullability, its type
/// keeps its kind and flags, and the fields inside it are changed in the same way.
pub proof fn only_annotations_change(
    field: FieldView,
    t: DataTypeView,
    change: column_mapping::MetadataChange,
)
    ensures
        field.reannotated(change).name == field.name,
        field.reannotated(change).nullable == field.nullable,
        field.reannotated(change).metadata == change(field.metadata),
        field.reannotated(change).data_type == field.data_type.reannotated(change),
        match t {
            DataTypeView::Primitive(p) => t.reannotated(change) == DataTypeView::Primitive(p),
            DataTypeView::Array { element_type, contains_null } => t.reannotated(change) == (
            DataTypeView::Array {
                element_type: Box::new(element_type.reannotated(change)),
                contains_null,
            }),
            DataTypeView::Struct(fields) => {
                &&& t.reannotated(change) is Struct
                &&& t.reannotated(change)->Struct_0.len() == fields.len()
                &&& forall|i: int|
                    0 <= i < fields.len() ==> #[trigger] t.reannotated(change)->Struct_0[i]
                        == fields[i].reannotated(change)
            },
            DataTypeView::MapOf { key_type, value_type, value_contains_null } => t.reannotated(
                change,
            ) == (DataTypeView::MapOf {
                key_type: Box::new(key_type.reannotated(change)),
                value_type: Box::new(value_type.reannotated(change)),
                value_contains_null,
            }),
        },
{
    if let DataTypeView::Struct(fields) = t {
        annotation_laws::lemma_all_reannotated(fields, change);
    }
}

/// Taking out the column mapping annotations takes out the entries under their two keys.
pub proof fn two_annotations_are_taken_out(metadata: Map<Seq<char>, MetadataValueView>, key: Seq<char>)
    ensures
        ({
            let after = column_mapping::column_mapping_removed()(metadata);
            &&& after.contains_key(key) <==> metadata.contains_key(key) && key
                != "delta.columnMapping.id"@ && key != "delta.columnMapping.physicalName"@
            &&& after.contains_key(key) ==> after[key] == metadata[key]
        }),
{
}

/// A schema is annotated just when some field, at any depth, has an entry under one of the two keys.
pub proof fn annotated_schemas(schema: Seq<FieldView>)
    ensures
        column_mapping::is_annotated(schema) <==> exists|i: int|
            0 <= i < FieldView::all_fields(schema).len() && ((
            #[trigger] FieldView::all_fields(schema)[i]).metadata.contains_key(
                "delta.columnMapping.id"@,
            ) || FieldView::all_fields(schema)[i].metadata.contains_key(
                "delta.columnMapping.physicalName"@,
            )),
{
    let all = FieldView::all_fields(schema);
    if column_mapping::is_annotated(schema) {
        let i = choose|i: int|
            0 <= i < all.len() && (#[trigger] all[i]).has_column_mapping_metadata();
        assert(all[i].metadata.contains_key("delta.columnMapping.id"@)
            || all[i].metadata.contains_key("delta.columnMapping.physicalName"@));
    }
    if exists|i: int|
        0 <= i < all.len() && ((#[trigger] all[i]).metadata.contains_key("delta.columnMapping.id"@)
            || all[i].metadata.contains_key("delta.columnMapping.physicalName"@)) {
        let i = choose|i: int|
            0 <= i < all.len() && ((#[trigger] all[i]).metadata.contains_key(
                "delta.columnMapping.id"@,
            ) || all[i].metadata.contains_key("delta.columnMapping.physicalName"@));
        assert(all[i].has_column_mapping_metadata());
    }
}

/// A generated name is `col-` and 32 lower-case hexadecimal digits in five groups, with the version
/// and the variant of a random UUID.
pub proof fn generated_names(name: Seq<char>, i: int)
    requires
        column_mapping::is_generated_name(name),
    ensures
        name.len() == 40,
        name[0] == 'c' && name[1] == 'o' && name[2] == 'l' && name[3] == '-',
        name[12] == '-' && name[17] == '-' && name[22] == '-' && name[27] == '-',
        name[18] == '4',
        name[23] == '8' || name[23] == '9' || name[23] == 'a' || name[23] == 'b',
        4 <= i < 40 && i != 12 && i != 17 && i != 22 && i != 27 ==> 48 <= name[i] as int <= 57 || 97
            <= name[i] as int <= 102,
{
    reveal_strlit("col-");
    let s = name.skip(4);
    assert(name.take(4)[0] == name[0] && name.take(4)[1] == name[1]);
    assert(name.take(4)[2] == name[2] && name.take(4)[3] == name[3]);
    assert(s[8] == '-' && s[13] == '-' && s[18] == '-' && s[23] == '-');
    if 4 <= i < 40 && i != 12 && i != 17 && i != 22 && i != 27 {
        assert(s[i - 4] == name[i]);
        assert(column_mapping::is_hex_digit(s[i - 4]));
    }
}

/// Names have generated form just when each one has. Those from an index on are the rest of the list.
pub proof fn lists_of_names(list: Seq<Seq<char>>, names: Seq<String>, at: int)
    requires
        0 <= at <= names.len(),
    ensures
        column_mapping::are_generated_names(list) <==> forall|i: int|
            0 <= i < list.len() ==> column_mapping::is_generated_name(#[trigger] list[i]),
        column_mapping::names_from(names, at).len() == names.len() - at,
        forall|i: int|
            0 <= i < names.len() - at ==> #[trigger] column_mapping::names_from(names, at)[i]
                == names[at + i]@,
{
}

/// The errors about paths name what they are about.
pub proof fn path_errors(name: Seq<char>, literal: Seq<char>, t: DataTypeView)
    ensures
        evolution::missing_field(name) == ErrorView::Schema(
            "field '"@ + name + "' does not exist"@,
        ),
        evolution::not_a_struct() == ErrorView::Schema("path target is not a struct"@),
        evolution::path_mismatch(literal, t) == ErrorView::Schema(
            "path segment "@ + literal + " does not match "@ + t.text(),
        ),
{
}

/// The outline of a type is the type itself, but for the fields of the structs inside it.
pub proof fn outlines(t: DataTypeView)
    ensures
        match t {
            DataTypeView::Primitive(p) => t.outline() == DataTypeView::Primitive(p),
            DataTypeView::Array { element_type, contains_null } => t.outline() == (
            DataTypeView::Array { element_type: Box::new(element_type.outline()), contains_null }),
            DataTypeView::Struct(_) => t.outline() == DataTypeView::Struct(Seq::empty()),
            DataTypeView::MapOf { key_type, value_type, value_contains_null } => t.outline() == (
            DataTypeView::MapOf {
                key_type: Box::new(key_type.outline()),
                value_type: Box::new(value_type.outline()),
                value_contains_null,
            }),
        },
{
}

} // verus!
