//! Column mapping: numeric ids and physical names that tie a column to its stored data.
use vstd::prelude::*;
use vstd::string::*;

use crate::column_name;
use crate::error::{DeltaResult, Error, ErrorView};
use crate::schema;
use crate::schema::{
    ArrayType, ColumnMetadataKey, DataType, DataTypeView, FieldView, MapType, MetadataValue,
    MetadataValueView, StructField, StructType,
};
use crate::text;

verus! {

/// How the columns of a table are tied to its stored data.
#[derive(Clone, Copy, Debug, PartialEq, Eq, Structural)]
pub enum ColumnMappingMode {
    /// By the names in the schema.
    NoMapping,
    /// By the column mapping ids.
    Id,
    /// By the physical names.
    Name,
}

/// The greatest column mapping id that the table protocol allows.
pub const MAX_COLUMN_MAPPING_ID: i64 = 2147483647;

/// Whether the table protocol allows `id` as a column mapping id.
pub open spec fn is_valid_id(id: int) -> bool {
    0 <= id <= MAX_COLUMN_MAPPING_ID
}

/// The error that refuses `id` as a column mapping id.
pub open spec fn invalid_id(id: int) -> ErrorView {
    ErrorView::Generic(
        "Invalid column mapping id "@ + text::decimal(id) + ": ids range from 0 to 2147483647"@,
    )
}

/// Checks that the table protocol allows `id` as a column mapping id.
///
/// # Errors
///
/// A negative id, or one that needs more than 32 bits, is refused.
pub fn validate_column_mapping_id(id: i64) -> (result: DeltaResult<()>)
    ensures
        match result {
            Ok(()) => is_valid_id(id as int),
            Err(e) => !is_valid_id(id as int) && e@ == invalid_id(id as int),
        },
{
    if 0 <= id && id <= MAX_COLUMN_MAPPING_ID {
        Ok(())
    } else {
        Err(
            Error::Generic(
                text::join3(
                    "Invalid column mapping id ",
                    text::i64_to_decimal(id).as_str(),
                    ": ids range from 0 to 2147483647",
                ),
            ),
        )
    }
}

/// The column mapping ids of the fields in the list, in their order.
pub open spec fn ids(fields: Seq<FieldView>) -> Seq<int>
    decreases fields.len(),
{
    if fields.len() == 0 {
        Seq::empty()
    } else {
        match fields.last().column_mapping_id() {
            Some(id) => ids(fields.drop_last()).push(id),
            None => ids(fields.drop_last()),
        }
    }
}

/// The column mapping ids in a schema, at any depth.
pub open spec fn schema_ids(schema: Seq<FieldView>) -> Seq<int> {
    ids(FieldView::all_fields(schema))
}

/// The greatest of some ids, if there is one.
pub open spec fn greatest(ids: Seq<int>) -> Option<int> {
    if ids.len() == 0 {
        None
    } else {
        Some(ids.max())
    }
}

fn collect_ids(fields: &Vec<&StructField>) -> (found: Vec<i64>)
    ensures
        found@.map_values(|id: i64| id as int) == ids(schema::ref_views(fields@)),
{
    let mut found: Vec<i64> = Vec::new();
    let ghost all = schema::ref_views(fields@);
    for i in 0..fields.len()
        invariant
            all == schema::ref_views(fields@),
            found@.map_values(|id: i64| id as int) == ids(all.take(i as int)),
    {
        let ghost before = found@;
        assert(all.take(i + 1).drop_last() == all.take(i as int));
        if let Some(id) = fields[i].column_mapping_id() {
            found.push(id);
            assert(found@.map_values(|id: i64| id as int) == before.map_values(
                |id: i64| id as int,
            ).push(id as int));
        }
    }
    assert(all.take(all.len() as int) == all);
    found
}

/// The greatest column mapping id in the schema, at any depth, if there is one.
pub fn find_max_column_id_in_schema(schema: &StructType) -> (max_id: Option<i64>)
    ensures
        max_id is Some <==> greatest(schema_ids(schema@)) is Some,
        max_id matches Some(id) ==> greatest(schema_ids(schema@)) == Some(id as int),
{
    let found = collect_ids(&schema.all_fields());
    let ghost all = found@.map_values(|id: i64| id as int);
    if found.len() == 0 {
        return None;
    }
    let mut max_id: i64 = found[0];
    for i in 1..found.len()
        invariant
            found@.len() > 0,
            all == found@.map_values(|id: i64| id as int),
            all.contains(max_id as int),
            forall|j: int| 0 <= j < i ==> found@[j] <= max_id,
    {
        if found[i] > max_id {
            max_id = found[i];
        }
        assert(all[i as int] == found@[i as int]);
    }
    proof {
        all.max_ensures();
        let k = choose|k: int| 0 <= k < all.len() && all[k] == all.max();
        assert(found@[k] <= max_id);
    }
    Some(max_id)
}

impl StructField {
    /// The column mapping ids of the field and of the fields inside its type.
    pub fn collect_column_mapping_ids(&self) -> (found: Vec<i64>)
        ensures
            found@.map_values(|id: i64| id as int) == ids(self@.with_nested()),
    {
        collect_ids(&self.with_nested())
    }
}

/// Whether `c` is a lower-case hexadecimal digit.
pub open spec fn is_hex_digit(c: char) -> bool {
    '0' <= c <= '9' || 'a' <= c <= 'f'
}

/// Whether `s` is the text of a random (version 4) UUID: five groups of lower-case hexadecimal
/// digits with hyphens between them, with the version and variant digits in their places.
pub open spec fn is_random_uuid(s: Seq<char>) -> bool {
    &&& s.len() == 36
    &&& forall|i: int|
        0 <= i < 36 ==> if i == 8 || i == 13 || i == 18 || i == 23 {
            #[trigger] s[i] == '-'
        } else {
            is_hex_digit(s[i])
        }
    &&& s[14] == '4'
    &&& s[19] == '8' || s[19] == '9' || s[19] == 'a' || s[19] == 'b'
}

/// Whether `name` has the form of a generated physical name.
pub open spec fn is_generated_name(name: Seq<char>) -> bool {
    name.len() == 40 && name.take(4) == "col-"@ && is_random_uuid(name.skip(4))
}

/// Calls `uuid::Uuid::new_v4` and writes the UUID with its `Display` implementation.
///
/// The text is that of some version 4 UUID, in lower case with hyphens. Which one it is rests on
/// random bytes of the operating system, so nothing more is said; `new_v4` panics when the system
/// has none to give.
#[verifier::external_body]
fn random_uuid() -> (written: String)
    ensures
        is_random_uuid(written@),
{
    uuid::Uuid::new_v4().to_string()
}

/// Generates `count` physical names.
pub fn generate_physical_names(count: usize) -> (names: Vec<String>)
    ensures
        names@.len() == count,
        forall|i: int| 0 <= i < count ==> is_generated_name((#[trigger] names@[i])@),
{
    proof {
        reveal_strlit("col-");
    }
    let mut names: Vec<String> = Vec::new();
    for i in 0..count
        invariant
            "col-"@.len() == 4,
            names@.len() == i,
            forall|j: int| 0 <= j < i ==> is_generated_name((#[trigger] names@[j])@),
    {
        let suffix = random_uuid();
        let name = text::join2("col-", suffix.as_str());
        assert(name@.take(4) == "col-"@);
        assert(name@.skip(4) == suffix@);
        names.push(name);
    }
    names
}

impl FieldView {
    /// The column mapping id that the field gets when `max` is the greatest id in use: its own
    /// if it is annotated with one, else the next one.
    pub open spec fn assigned_id(self, max: int) -> Result<int, ErrorView> {
        let key = ColumnMetadataKey::ColumnMappingId.text();
        if self.metadata.contains_key(key) {
            match self.metadata[key] {
                MetadataValueView::Number(id) => if is_valid_id(id) {
                    Ok(id)
                } else {
                    Err(
                        ErrorView::Schema(
                            "Field '"@ + self.name + "': "@ + invalid_id(id).text(),
                        ),
                    )
                },
                _ => Err(
                    ErrorView::Schema(
                        "Field '"@ + self.name
                            + "' has a non-numeric `delta.columnMapping.id` annotation"@,
                    ),
                ),
            }
        } else if is_valid_id(max + 1) {
            Ok(max + 1)
        } else {
            Err(
                ErrorView::Schema(
                    "Field '"@ + self.name + "': no column mapping id is left after "@
                        + text::decimal(max),
                ),
            )
        }
    }

    /// The physical name that the field gets: its own if it is annotated with one, else
    /// `generated`.
    pub open spec fn assigned_physical_name(self, generated: Seq<char>) -> Result<
        Seq<char>,
        ErrorView,
    > {
        let key = ColumnMetadataKey::ColumnMappingPhysicalName.text();
        if self.metadata.contains_key(key) {
            match self.metadata[key] {
                MetadataValueView::String(name) => Ok(name),
                _ => Err(
                    ErrorView::Schema(
                        "Field '"@ + self.name
                            + "' has a non-string `delta.columnMapping.physicalName` annotation"@,
                    ),
                ),
            }
        } else {
            Ok(generated)
        }
    }

    /// The field with a column mapping id and a physical name on it and on each field inside its
    /// type, and the greatest id then in use.
    ///
    /// Ids are handed out in the order of [`FieldView::with_nested`]. The field at place `i` of
    /// that order gets `names[i]` if it has no physical name.
    pub open spec fn assigned(self, max: int, names: Seq<Seq<char>>) -> Result<
        (FieldView, int),
        ErrorView,
    >
        decreases self,
    {
        match self.assigned_id(max) {
            Err(e) => Err(e),
            Ok(id) => match self.assigned_physical_name(names[0]) {
                Err(e) => Err(e),
                Ok(physical_name) => match self.data_type.assigned(
                    if id > max {
                        id
                    } else {
                        max
                    },
                    names.skip(1),
                ) {
                    Err(e) => Err(e),
                    Ok((data_type, new_max)) => Ok(
                        (
                            FieldView {
                                data_type,
                                metadata: self.metadata.insert(
                                    ColumnMetadataKey::ColumnMappingId.text(),
                                    MetadataValueView::Number(id),
                                ).insert(
                                    ColumnMetadataKey::ColumnMappingPhysicalName.text(),
                                    MetadataValueView::String(physical_name),
                                ),
                                ..self
                            },
                            new_max,
                        ),
                    ),
                },
            },
        }
    }

    /// The fields of a list with column mapping annotations, and the greatest id then in use.
    pub open spec fn all_assigned(
        fields: Seq<FieldView>,
        max: int,
        names: Seq<Seq<char>>,
    ) -> Result<(Seq<FieldView>, int), ErrorView>
        decreases fields,
    {
        if fields.len() == 0 {
            Ok((Seq::empty(), max))
        } else {
            match FieldView::all_assigned(fields.drop_last(), max, names) {
                Err(e) => Err(e),
                Ok((before, max_before)) => match fields.last().assigned(
                    max_before,
                    names.skip(FieldView::all_fields(fields.drop_last()).len() as int),
                ) {
                    Err(e) => Err(e),
                    Ok((field, new_max)) => Ok((before.push(field), new_max)),
                },
            }
        }
    }
}

impl DataTypeView {
    /// The type with column mapping annotations on the fields inside it, and the greatest id then
    /// in use.
    pub open spec fn assigned(self, max: int, names: Seq<Seq<char>>) -> Result<
        (DataTypeView, int),
        ErrorView,
    >
        decreases self,
    {
        match self {
            DataTypeView::Primitive(_) => Ok((self, max)),
            DataTypeView::Array { element_type, contains_null } => match element_type.assigned(
                max,
                names,
            ) {
                Err(e) => Err(e),
                Ok((element_type, new_max)) => Ok(
                    (
                        DataTypeView::Array {
                            element_type: Box::new(element_type),
                            contains_null,
                        },
                        new_max,
                    ),
                ),
            },
            DataTypeView::Struct(fields) => match FieldView::all_assigned(fields, max, names) {
                Err(e) => Err(e),
                Ok((fields, new_max)) => Ok((DataTypeView::Struct(fields), new_max)),
            },
            DataTypeView::MapOf { key_type, value_type, value_contains_null } => {
                match key_type.assigned(max, names) {
                    Err(e) => Err(e),
                    Ok((new_key, max_key)) => match value_type.assigned(
                        max_key,
                        names.skip(key_type.nested_fields().len() as int),
                    ) {
                        Err(e) => Err(e),
                        Ok((new_value, new_max)) => Ok(
                            (
                                DataTypeView::MapOf {
                                    key_type: Box::new(new_key),
                                    value_type: Box::new(new_value),
                                    value_contains_null,
                                },
                                new_max,
                            ),
                        ),
                    },
                }
            },
        }
    }
}

/// The names from index `at` on.
pub open spec fn names_from(names: Seq<String>, at: int) -> Seq<Seq<char>> {
    column_name::names_view(names).skip(at)
}

fn choose_id(field: &StructField, max_id: i64) -> (result: DeltaResult<i64>)
    ensures
        match result {
            Ok(id) => field@.assigned_id(max_id as int) == Ok::<int, ErrorView>(id as int),
            Err(e) => field@.assigned_id(max_id as int) == Err::<int, ErrorView>(e@),
        },
{
    match field.get_config_value(&ColumnMetadataKey::ColumnMappingId) {
        Some(MetadataValue::Number(id)) => match validate_column_mapping_id(*id) {
            Ok(()) => Ok(*id),
            Err(e) => {
                let lead = text::join3("Field '", field.name.as_str(), "': ");
                Err(Error::Schema(text::join2(lead.as_str(), e.to_string().as_str())))
            },
        },
        Some(_) => Err(
            Error::Schema(
                text::join3(
                    "Field '",
                    field.name.as_str(),
                    "' has a non-numeric `delta.columnMapping.id` annotation",
                ),
            ),
        ),
        None => if -1 <= max_id && max_id < MAX_COLUMN_MAPPING_ID {
            Ok(max_id + 1)
        } else {
            let lead = text::join3(
                "Field '",
                field.name.as_str(),
                "': no column mapping id is left after ",
            );
            Err(Error::Schema(text::join2(lead.as_str(), text::i64_to_decimal(max_id).as_str())))
        },
    }
}

fn choose_physical_name(field: &StructField, generated: &String) -> (result: DeltaResult<String>)
    ensures
        match result {
            Ok(name) => field@.assigned_physical_name(generated@) == Ok::<Seq<char>, ErrorView>(
                name@,
            ),
            Err(e) => field@.assigned_physical_name(generated@) == Err::<Seq<char>, ErrorView>(e@),
        },
{
    match field.get_config_value(&ColumnMetadataKey::ColumnMappingPhysicalName) {
        Some(MetadataValue::String(name)) => Ok(name.clone()),
        Some(_) => Err(
            Error::Schema(
                text::join3(
                    "Field '",
                    field.name.as_str(),
                    "' has a non-string `delta.columnMapping.physicalName` annotation",
                ),
            ),
        ),
        None => Ok(generated.clone()),
    }
}

/// Puts a column mapping id and a physical name on a field and on each field inside its type.
/// Returns the annotated field, the greatest id then in use, and the index after the names that
/// belong to these fields.
///
/// An id or physical name that a field is annotated with is kept. Other fields get the next id
/// after the greatest one in use, and the physical name in their place of `names`, counted from
/// `at`.
///
/// # Errors
///
/// Annotations of the wrong type, ids that the table protocol does not allow, and the lack of
/// further ids are refused.
pub fn assign_column_mapping_info(
    field: &StructField,
    max_id: i64,
    names: &Vec<String>,
    at: usize,
) -> (result: DeltaResult<(StructField, i64, usize)>)
    requires
        at + field@.with_nested().len() <= names@.len(),
    ensures
        match result {
            Ok((f, m, next)) => {
                &&& field@.assigned(max_id as int, names_from(names@, at as int)) == Ok::<
                    (FieldView, int),
                    ErrorView,
                >((f@, m as int))
                &&& next == at + field@.with_nested().len()
            },
            Err(e) => field@.assigned(max_id as int, names_from(names@, at as int)) == Err::<
                (FieldView, int),
                ErrorView,
            >(e@),
        },
    decreases field,
{
    assert(names@.len() == names.len());
    let id = match choose_id(field, max_id) {
        Ok(id) => id,
        Err(e) => return Err(e),
    };
    let physical_name = match choose_physical_name(field, &names[at]) {
        Ok(name) => name,
        Err(e) => return Err(e),
    };
    let max_here: i64 = if id > max_id {
        id
    } else {
        max_id
    };
    assert(names_from(names@, at as int).skip(1) == names_from(names@, at + 1));
    match assign_in_type(&field.data_type, max_here, names, at + 1) {
        Ok((data_type, new_max, next)) => {
            let mut metadata = field.metadata.duplicate();
            metadata.insert(
                ColumnMetadataKey::ColumnMappingId.as_ref().to_string(),
                MetadataValue::Number(id),
            );
            metadata.insert(
                ColumnMetadataKey::ColumnMappingPhysicalName.as_ref().to_string(),
                MetadataValue::String(physical_name),
            );
            let name = field.name.clone();
            let nullable = field.nullable;
            Ok((StructField { name, data_type, nullable, metadata }, new_max, next))
        },
        Err(e) => Err(e),
    }
}

fn assign_in_type(data_type: &DataType, max_id: i64, names: &Vec<String>, at: usize) -> (result:
    DeltaResult<(DataType, i64, usize)>)
    requires
        at + data_type@.nested_fields().len() <= names@.len(),
    ensures
        match result {
            Ok((t, m, next)) => {
                &&& data_type@.assigned(max_id as int, names_from(names@, at as int)) == Ok::<
                    (DataTypeView, int),
                    ErrorView,
                >((t@, m as int))
                &&& next == at + data_type@.nested_fields().len()
            },
            Err(e) => data_type@.assigned(max_id as int, names_from(names@, at as int)) == Err::<
                (DataTypeView, int),
                ErrorView,
            >(e@),
        },
    decreases data_type,
{
    match data_type {
        DataType::Primitive(p) => Ok((DataType::Primitive(*p), max_id, at)),
        DataType::Array(a) => match assign_in_type(&a.element_type, max_id, names, at) {
            Ok((element_type, new_max, next)) => {
                let array = ArrayType { element_type, contains_null: a.contains_null };
                Ok((DataType::Array(Box::new(array)), new_max, next))
            },
            Err(e) => Err(e),
        },
        DataType::Struct(s) => match assign_in_struct(s, max_id, names, at) {
            Ok((s, new_max, next)) => Ok((DataType::Struct(Box::new(s)), new_max, next)),
            Err(e) => Err(e),
        },
        DataType::MapOf(m) => {
            let (key_type, max_key, middle) = match assign_in_type(&m.key_type, max_id, names, at) {
                Ok(assigned) => assigned,
                Err(e) => return Err(e),
            };
            assert(names_from(names@, at as int).skip(middle - at) == names_from(
                names@,
                middle as int,
            ));
            match assign_in_type(&m.value_type, max_key, names, middle) {
                Ok((value_type, new_max, next)) => {
                    let value_contains_null = m.value_contains_null;
                    let map = MapType { key_type, value_type, value_contains_null };
                    Ok((DataType::MapOf(Box::new(map)), new_max, next))
                },
                Err(e) => Err(e),
            }
        },
    }
}

fn assign_in_struct(parent: &StructType, max_id: i64, names: &Vec<String>, at: usize) -> (result:
    DeltaResult<(StructType, i64, usize)>)
    requires
        at + FieldView::all_fields(parent@).len() <= names@.len(),
    ensures
        match result {
            Ok((s, m, next)) => {
                &&& FieldView::all_assigned(
                    parent@,
                    max_id as int,
                    names_from(names@, at as int),
                ) == Ok::<(Seq<FieldView>, int), ErrorView>((s@, m as int))
                &&& next == at + FieldView::all_fields(parent@).len()
            },
            Err(e) => FieldView::all_assigned(
                parent@,
                max_id as int,
                names_from(names@, at as int),
            ) == Err::<(Seq<FieldView>, int), ErrorView>(e@),
        },
    decreases parent,
{
    let fields = parent.fields();
    let ghost all = parent@;
    let ghost own_names = names_from(names@, at as int);
    let mut assigned: Vec<StructField> = Vec::new();
    let mut max_here: i64 = max_id;
    let mut next: usize = at;
    assert(schema::views(assigned@) == Seq::<FieldView>::empty());
    for i in 0..fields.len()
        invariant
            all == parent@,
            all == schema::views(fields@),
            forall|j: int| 0 <= j < fields@.len() ==> decreases_to!(parent => #[trigger] fields@[j]),
            own_names == names_from(names@, at as int),
            at + FieldView::all_fields(all).len() <= names@.len(),
            next == at + FieldView::all_fields(all.take(i as int)).len(),
            FieldView::all_assigned(all.take(i as int), max_id as int, own_names) == Ok::<
                (Seq<FieldView>, int),
                ErrorView,
            >((schema::views(assigned@), max_here as int)),
    {
        let ghost before = assigned@;
        assert(all.take(i + 1).drop_last() == all.take(i as int));
        proof {
            lemma_all_fields_grow(all, i + 1);
            lemma_all_assigned_fails_early(all, i + 1, max_id as int, own_names);
        }
        assert(own_names.skip(next - at) == names_from(names@, next as int));
        assert(all[i as int] == fields@[i as int]@);
        match assign_column_mapping_info(&fields[i], max_here, names, next) {
            Ok((field, new_max, after)) => {
                assigned.push(field);
                max_here = new_max;
                next = after;
                assert(schema::views(assigned@) == schema::views(before).push(field@));
            },
            Err(e) => {
                return Err(e);
            },
        }
    }
    assert(all.take(all.len() as int) == all);
    Ok((StructType::from_fields(assigned), max_here, next))
}

/// A list of fields has at least as many fields, at any depth, as a prefix of it.
proof fn lemma_all_fields_grow(fields: Seq<FieldView>, n: int)
    requires
        0 <= n <= fields.len(),
    ensures
        FieldView::all_fields(fields.take(n)).len() <= FieldView::all_fields(fields).len(),
    decreases fields.len(),
{
    if n == fields.len() {
        assert(fields.take(n) == fields);
    } else {
        lemma_all_fields_grow(fields.drop_last(), n);
        assert(fields.drop_last().take(n) == fields.take(n));
    }
}

/// When the assignment fails on a prefix of a list of fields, it fails on the list in the same
/// way.
proof fn lemma_all_assigned_fails_early(
    fields: Seq<FieldView>,
    n: int,
    max: int,
    names: Seq<Seq<char>>,
)
    requires
        0 <= n <= fields.len(),
    ensures
        FieldView::all_assigned(fields.take(n), max, names) is Err ==> FieldView::all_assigned(
            fields,
            max,
            names,
        ) == FieldView::all_assigned(fields.take(n), max, names),
    decreases fields.len(),
{
    if n == fields.len() {
        assert(fields.take(n) == fields);
    } else {
        lemma_all_assigned_fails_early(fields.drop_last(), n, max, names);
        assert(fields.drop_last().take(n) == fields.take(n));
    }
}

/// Whether all names in the list have the form of a generated physical name.
pub open spec fn are_generated_names(names: Seq<Seq<char>>) -> bool {
    forall|i: int| 0 <= i < names.len() ==> is_generated_name(#[trigger] names[i])
}

impl FieldView {
    /// Whether the field carries a column mapping annotation.
    pub open spec fn has_column_mapping_metadata(self) -> bool {
        self.metadata.contains_key(ColumnMetadataKey::ColumnMappingId.text())
            || self.metadata.contains_key(ColumnMetadataKey::ColumnMappingPhysicalName.text())
    }

    /// The field with other annotations on it and on the fields inside its type.
    pub open spec fn reannotated(self, change: MetadataChange) -> FieldView
        decreases self,
    {
        FieldView {
            data_type: self.data_type.reannotated(change),
            metadata: change(self.metadata),
            ..self
        }
    }

    /// The fields of a list with other annotations, at any depth.
    pub open spec fn all_reannotated(fields: Seq<FieldView>, change: MetadataChange) -> Seq<FieldView>
        decreases fields,
    {
        Seq::new(
            fields.len(),
            |i: int|
                if 0 <= i < fields.len() {
                    fields[i].reannotated(change)
                } else {
                    arbitrary()
                },
        )
    }

    /// The fields of a list without column mapping annotations, at any depth.
    pub open spec fn all_stripped(fields: Seq<FieldView>) -> Seq<FieldView> {
        FieldView::all_reannotated(fields, column_mapping_removed())
    }
}

/// A change to the annotations of a field.
pub type MetadataChange = spec_fn(Map<Seq<char>, MetadataValueView>) -> Map<
    Seq<char>,
    MetadataValueView,
>;

/// The change that takes the column mapping annotations out.
pub open spec fn column_mapping_removed() -> MetadataChange {
    |metadata: Map<Seq<char>, MetadataValueView>|
        metadata.remove(ColumnMetadataKey::ColumnMappingId.text()).remove(
            ColumnMetadataKey::ColumnMappingPhysicalName.text(),
        )
}

impl DataTypeView {
    /// The type with other annotations on the fields inside it.
    pub open spec fn reannotated(self, change: MetadataChange) -> DataTypeView
        decreases self,
    {
        match self {
            DataTypeView::Primitive(_) => self,
            DataTypeView::Array { element_type, contains_null } => DataTypeView::Array {
                element_type: Box::new(element_type.reannotated(change)),
                contains_null,
            },
            DataTypeView::Struct(fields) => DataTypeView::Struct(
                FieldView::all_reannotated(fields, change),
            ),
            DataTypeView::MapOf { key_type, value_type, value_contains_null } => {
                DataTypeView::MapOf {
                    key_type: Box::new(key_type.reannotated(change)),
                    value_type: Box::new(value_type.reannotated(change)),
                    value_contains_null,
                }
            },
        }
    }
}

/// Whether some field of the schema, at any depth, carries a column mapping annotation.
pub open spec fn is_annotated(schema: Seq<FieldView>) -> bool {
    exists|i: int|
        0 <= i < FieldView::all_fields(schema).len() && (
        #[trigger] FieldView::all_fields(schema)[i]).has_column_mapping_metadata()
}

/// Whether some field of the schema, at any depth, carries a column mapping annotation.
pub fn schema_has_column_mapping_metadata(schema: &StructType) -> (annotated: bool)
    ensures
        annotated == is_annotated(schema@),
{
    let fields = schema.all_fields();
    let ghost all = FieldView::all_fields(schema@);
    for i in 0..fields.len()
        invariant
            all == schema::ref_views(fields@),
            all == FieldView::all_fields(schema@),
            forall|j: int| 0 <= j < i ==> !(#[trigger] all[j]).has_column_mapping_metadata(),
    {
        assert(all[i as int] == fields@[i as int]@);
        if fields[i].get_config_value(&ColumnMetadataKey::ColumnMappingId).is_some()
            || fields[i].get_config_value(
            &ColumnMetadataKey::ColumnMappingPhysicalName,
        ).is_some() {
            return true;
        }
    }
    false
}

fn strip_type(data_type: &DataType) -> (stripped: DataType)
    ensures
        stripped@ == data_type@.reannotated(column_mapping_removed()),
    decreases data_type,
{
    match data_type {
        DataType::Primitive(p) => DataType::Primitive(*p),
        DataType::Array(a) => {
            let element_type = strip_type(&a.element_type);
            DataType::Array(Box::new(ArrayType { element_type, contains_null: a.contains_null }))
        },
        DataType::Struct(s) => DataType::Struct(Box::new(strip_column_mapping_metadata(s))),
        DataType::MapOf(m) => {
            let key_type = strip_type(&m.key_type);
            let value_type = strip_type(&m.value_type);
            let value_contains_null = m.value_contains_null;
            DataType::MapOf(Box::new(MapType { key_type, value_type, value_contains_null }))
        },
    }
}

/// The schema without column mapping annotations, at any depth.
pub fn strip_column_mapping_metadata(schema: &StructType) -> (stripped: StructType)
    ensures
        stripped@ == FieldView::all_stripped(schema@),
    decreases schema,
{
    let fields = schema.fields();
    let ghost all = schema@;
    let mut stripped: Vec<StructField> = Vec::new();
    for i in 0..fields.len()
        invariant
            all == schema::views(fields@),
            forall|j: int| 0 <= j < fields@.len() ==> decreases_to!(schema => #[trigger] fields@[j]),
            schema::views(stripped@) == FieldView::all_stripped(all).take(i as int),
    {
        let ghost before = stripped@;
        assert(all[i as int] == fields@[i as int]@);
        let mut metadata = fields[i].metadata.duplicate();
        metadata.remove(ColumnMetadataKey::ColumnMappingId.as_ref());
        metadata.remove(ColumnMetadataKey::ColumnMappingPhysicalName.as_ref());
        let name = fields[i].name.clone();
        let data_type = strip_type(&fields[i].data_type);
        let nullable = fields[i].nullable;
        stripped.push(StructField { name, data_type, nullable, metadata });
        assert(schema::views(stripped@) == schema::views(before).push(
            all[i as int].reannotated(column_mapping_removed()),
        ));
    }
    assert(FieldView::all_stripped(all).take(all.len() as int) == FieldView::all_stripped(all));
    StructType::from_fields(stripped)
}

/// The schema without the column mapping annotations that a change brought into a table which
/// does not map its columns; `None` when there is nothing to take out.
///
/// Annotations stay when the table had some before the change.
pub fn strip_stray_column_mapping_metadata(current_has_cm: bool, evolved: &StructType) -> (stripped:
    Option<StructType>)
    ensures
        match stripped {
            Some(s) => !current_has_cm && is_annotated(evolved@) && s@ == FieldView::all_stripped(
                evolved@,
            ),
            None => current_has_cm || !is_annotated(evolved@),
        },
{
    if !current_has_cm && schema_has_column_mapping_metadata(evolved) {
        Some(strip_column_mapping_metadata(evolved))
    } else {
        None
    }
}

} // verus!
