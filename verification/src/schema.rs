//! Table schemas: structs of named fields, whose types may nest structs, arrays and maps.
use std::sync::Arc;

use vstd::prelude::*;
use vstd::string::*;

use crate::error::{DeltaResult, Error, ErrorView};
use crate::string_map::StringMap;
use crate::text;

verus! {

/// A type without inner structure.
#[derive(Clone, Copy, Debug, PartialEq, Eq, Structural)]
pub enum PrimitiveType {
    String,
    Long,
    Integer,
    Short,
    Byte,
    Float,
    Double,
    Boolean,
    Binary,
    Date,
    Timestamp,
    TimestampNtz,
    Decimal { precision: u8, scale: u8 },
}

impl PrimitiveType {
    /// The name of the type.
    pub open spec fn text(self) -> Seq<char> {
        match self {
            PrimitiveType::String => "string"@,
            PrimitiveType::Long => "long"@,
            PrimitiveType::Integer => "integer"@,
            PrimitiveType::Short => "short"@,
            PrimitiveType::Byte => "byte"@,
            PrimitiveType::Float => "float"@,
            PrimitiveType::Double => "double"@,
            PrimitiveType::Boolean => "boolean"@,
            PrimitiveType::Binary => "binary"@,
            PrimitiveType::Date => "date"@,
            PrimitiveType::Timestamp => "timestamp"@,
            PrimitiveType::TimestampNtz => "timestamp_ntz"@,
            PrimitiveType::Decimal { precision, scale } => "decimal("@ + text::decimal(
                precision as int,
            ) + ","@ + text::decimal(scale as int) + ")"@,
        }
    }

    /// The name of the type.
    pub fn to_string(&self) -> (name: String)
        ensures
            name@ == self.text(),
    {
        match self {
            PrimitiveType::String => "string".to_string(),
            PrimitiveType::Long => "long".to_string(),
            PrimitiveType::Integer => "integer".to_string(),
            PrimitiveType::Short => "short".to_string(),
            PrimitiveType::Byte => "byte".to_string(),
            PrimitiveType::Float => "float".to_string(),
            PrimitiveType::Double => "double".to_string(),
            PrimitiveType::Boolean => "boolean".to_string(),
            PrimitiveType::Binary => "binary".to_string(),
            PrimitiveType::Date => "date".to_string(),
            PrimitiveType::Timestamp => "timestamp".to_string(),
            PrimitiveType::TimestampNtz => "timestamp_ntz".to_string(),
            PrimitiveType::Decimal { precision, scale } => {
                let precision = text::i64_to_decimal(*precision as i64);
                let scale = text::i64_to_decimal(*scale as i64);
                let name = text::join3("decimal(", precision.as_str(), ",");
                text::join3(name.as_str(), scale.as_str(), ")")
            },
        }
    }
}

/// The type of a column, a field, an array element, or a map key or value.
#[derive(Debug, PartialEq)]
pub enum DataType {
    Primitive(PrimitiveType),
    Array(Box<ArrayType>),
    Struct(Box<StructType>),
    MapOf(Box<MapType>),
}

/// An array of elements of one type.
#[derive(Debug, PartialEq)]
pub struct ArrayType {
    pub element_type: DataType,
    pub contains_null: bool,
}

/// A map from keys of one type to values of one type.
#[derive(Debug, PartialEq)]
pub struct MapType {
    pub key_type: DataType,
    pub value_type: DataType,
    pub value_contains_null: bool,
}

/// A sequence of named fields. Their order is the order in which they were added. Two structs
/// compare equal when they have the same fields in the same order.
#[derive(Debug, PartialEq)]
pub struct StructType {
    fields: Vec<StructField>,
}

/// A schema that several owners may share.
pub type SchemaRef = Arc<StructType>;

/// A named field of a struct.
#[derive(Debug, PartialEq)]
pub struct StructField {
    pub name: String,
    pub data_type: DataType,
    pub nullable: bool,
    pub metadata: StringMap<MetadataValue>,
}

/// The value of an annotation on a field.
#[derive(Debug, PartialEq)]
pub enum MetadataValue {
    Number(i64),
    String(String),
    Boolean(bool),
    /// Any other value, as JSON text.
    Other(String),
}

/// The annotations that this library reads and writes.
#[derive(Clone, Copy, Debug, PartialEq, Eq, Structural)]
pub enum ColumnMetadataKey {
    ColumnMappingId,
    ColumnMappingPhysicalName,
    MetadataSpec,
}

impl ColumnMetadataKey {
    /// The key under which the annotation is kept.
    pub open spec fn text(self) -> Seq<char> {
        match self {
            ColumnMetadataKey::ColumnMappingId => "delta.columnMapping.id"@,
            ColumnMetadataKey::ColumnMappingPhysicalName => "delta.columnMapping.physicalName"@,
            ColumnMetadataKey::MetadataSpec => "delta.metadataSpec"@,
        }
    }

    /// The key under which the annotation is kept.
    pub fn as_ref(&self) -> (key: &'static str)
        ensures
            key@ == self.text(),
    {
        match self {
            ColumnMetadataKey::ColumnMappingId => "delta.columnMapping.id",
            ColumnMetadataKey::ColumnMappingPhysicalName => "delta.columnMapping.physicalName",
            ColumnMetadataKey::MetadataSpec => "delta.metadataSpec",
        }
    }

    /// Different annotations are kept under different keys.
    pub proof fn keys_differ()
        ensures
            ColumnMetadataKey::ColumnMappingId.text()
                != ColumnMetadataKey::ColumnMappingPhysicalName.text(),
            ColumnMetadataKey::ColumnMappingId.text() != ColumnMetadataKey::MetadataSpec.text(),
            ColumnMetadataKey::ColumnMappingPhysicalName.text()
                != ColumnMetadataKey::MetadataSpec.text(),
    {
        reveal_strlit("delta.columnMapping.id");
        reveal_strlit("delta.columnMapping.physicalName");
        reveal_strlit("delta.metadataSpec");
        assert("delta.columnMapping.id"@.len() == 22);
        assert("delta.columnMapping.physicalName"@.len() == 32);
        assert("delta.metadataSpec"@.len() == 18);
    }
}

/// A column that a reader computes; no table stores it.
#[derive(Clone, Copy, Debug, PartialEq, Eq, Structural)]
pub enum MetadataColumnSpec {
    RowIndex,
    RowId,
    RowCommitVersion,
}

impl MetadataColumnSpec {
    /// The name of the computed column.
    pub open spec fn text(self) -> Seq<char> {
        match self {
            MetadataColumnSpec::RowIndex => "row_index"@,
            MetadataColumnSpec::RowId => "row_id"@,
            MetadataColumnSpec::RowCommitVersion => "row_commit_version"@,
        }
    }

    /// The name of the computed column.
    pub fn as_ref(&self) -> (name: &'static str)
        ensures
            name@ == self.text(),
    {
        match self {
            MetadataColumnSpec::RowIndex => "row_index",
            MetadataColumnSpec::RowId => "row_id",
            MetadataColumnSpec::RowCommitVersion => "row_commit_version",
        }
    }
}

/// The mathematical counterpart of [`MetadataValue`].
pub enum MetadataValueView {
    Number(int),
    String(Seq<char>),
    Boolean(bool),
    Other(Seq<char>),
}

/// The mathematical counterpart of [`DataType`].
pub enum DataTypeView {
    Primitive(PrimitiveType),
    Array { element_type: Box<DataTypeView>, contains_null: bool },
    Struct(Seq<FieldView>),
    MapOf { key_type: Box<DataTypeView>, value_type: Box<DataTypeView>, value_contains_null: bool },
}

/// The mathematical counterpart of [`StructField`].
pub struct FieldView {
    pub name: Seq<char>,
    pub data_type: DataTypeView,
    pub nullable: bool,
    pub metadata: Map<Seq<char>, MetadataValueView>,
}

impl View for MetadataValue {
    type V = MetadataValueView;

    open spec fn view(&self) -> MetadataValueView {
        match self {
            MetadataValue::Number(n) => MetadataValueView::Number(*n as int),
            MetadataValue::String(s) => MetadataValueView::String(s@),
            MetadataValue::Boolean(b) => MetadataValueView::Boolean(*b),
            MetadataValue::Other(json) => MetadataValueView::Other(json@),
        }
    }
}

pub open spec fn type_view(t: DataType) -> DataTypeView
    decreases t,
{
    match t {
        DataType::Primitive(p) => DataTypeView::Primitive(p),
        DataType::Array(a) => DataTypeView::Array {
            element_type: Box::new(type_view(a.element_type)),
            contains_null: a.contains_null,
        },
        DataType::Struct(s) => DataTypeView::Struct(struct_view(*s)),
        DataType::MapOf(m) => DataTypeView::MapOf {
            key_type: Box::new(type_view(m.key_type)),
            value_type: Box::new(type_view(m.value_type)),
            value_contains_null: m.value_contains_null,
        },
    }
}

pub closed spec fn struct_view(s: StructType) -> Seq<FieldView>
    decreases s,
{
    Seq::new(
        s.fields@.len(),
        |i: int|
            if 0 <= i < s.fields@.len() {
                field_view(s.fields@[i])
            } else {
                arbitrary()
            },
    )
}

pub open spec fn field_view(f: StructField) -> FieldView
    decreases f,
{
    FieldView {
        name: f.name@,
        data_type: type_view(f.data_type),
        nullable: f.nullable,
        metadata: f.metadata@,
    }
}

impl View for DataType {
    type V = DataTypeView;

    open spec fn view(&self) -> DataTypeView {
        type_view(*self)
    }
}

impl View for StructType {
    type V = Seq<FieldView>;

    open spec fn view(&self) -> Seq<FieldView> {
        struct_view(*self)
    }
}

impl View for StructField {
    type V = FieldView;

    open spec fn view(&self) -> FieldView {
        field_view(*self)
    }
}

/// The views of a list of fields.
pub open spec fn views(fields: Seq<StructField>) -> Seq<FieldView> {
    fields.map_values(|f: StructField| f@)
}

/// The views of a list of borrowed fields.
pub open spec fn ref_views(fields: Seq<&StructField>) -> Seq<FieldView> {
    fields.map_values(|f: &StructField| f@)
}

impl DataTypeView {
    /// The type as it is written in messages.
    pub open spec fn text(self) -> Seq<char>
        decreases self,
    {
        match self {
            DataTypeView::Primitive(p) => p.text(),
            DataTypeView::Array { element_type, .. } => "array<"@ + element_type.text() + ">"@,
            DataTypeView::Struct(fields) => "struct<"@ + FieldView::list_text(fields) + ">"@,
            DataTypeView::MapOf { key_type, value_type, .. } => "map<"@ + key_type.text() + ", "@
                + value_type.text() + ">"@,
        }
    }

    /// The fields inside the type, each one followed by the fields inside its own type.
    pub open spec fn nested_fields(self) -> Seq<FieldView>
        decreases self,
    {
        match self {
            DataTypeView::Primitive(_) => Seq::empty(),
            DataTypeView::Array { element_type, .. } => element_type.nested_fields(),
            DataTypeView::Struct(fields) => FieldView::all_fields(fields),
            DataTypeView::MapOf { key_type, value_type, .. } => key_type.nested_fields()
                + value_type.nested_fields(),
        }
    }

    /// Whether the type `p` occurs in the type, at any depth.
    pub open spec fn mentions(self, p: PrimitiveType) -> bool
        decreases self,
    {
        match self {
            DataTypeView::Primitive(q) => p == q,
            DataTypeView::Array { element_type, .. } => element_type.mentions(p),
            DataTypeView::Struct(fields) => exists|i: int|
                #![trigger fields[i]]
                0 <= i < fields.len() && fields[i].data_type.mentions(p),
            DataTypeView::MapOf { key_type, value_type, .. } => key_type.mentions(p)
                || value_type.mentions(p),
        }
    }

    /// Whether no struct in the type, at any depth, has two fields whose names differ at most
    /// in case.
    pub open spec fn unique_names(self) -> bool
        decreases self,
    {
        match self {
            DataTypeView::Primitive(_) => true,
            DataTypeView::Array { element_type, .. } => element_type.unique_names(),
            DataTypeView::Struct(fields) => FieldView::distinct(fields) && (forall|i: int|
                #![trigger fields[i]]
                0 <= i < fields.len() ==> fields[i].data_type.unique_names()),
            DataTypeView::MapOf { key_type, value_type, .. } => key_type.unique_names()
                && value_type.unique_names(),
        }
    }
}

impl FieldView {
    /// A list of fields as it is written in messages.
    pub open spec fn list_text(fields: Seq<FieldView>) -> Seq<char>
        decreases fields,
    {
        if fields.len() == 0 {
            Seq::empty()
        } else {
            FieldView::list_text(fields.drop_last()) + if fields.len() == 1 {
                Seq::empty()
            } else {
                ", "@
            } + fields.last().name + ": "@ + fields.last().data_type.text()
        }
    }

    /// The fields in the list, each one followed by the fields inside its own type.
    pub open spec fn all_fields(fields: Seq<FieldView>) -> Seq<FieldView>
        decreases fields,
    {
        if fields.len() == 0 {
            Seq::empty()
        } else {
            FieldView::all_fields(fields.drop_last()) + seq![fields.last()]
                + fields.last().data_type.nested_fields()
        }
    }

    /// The field itself, followed by the fields inside its type.
    pub open spec fn with_nested(self) -> Seq<FieldView> {
        seq![self] + self.data_type.nested_fields()
    }

    /// Whether field `i` is the first one whose name has the lower-case form `lowered`.
    pub open spec fn is_position(fields: Seq<FieldView>, lowered: Seq<char>, i: int) -> bool {
        &&& 0 <= i < fields.len()
        &&& text::lowercase(fields[i].name) == lowered
        &&& forall|j: int| 0 <= j < i ==> text::lowercase(#[trigger] fields[j].name) != lowered
    }

    /// The index of the first field whose name has the lower-case form `lowered`.
    pub open spec fn position(fields: Seq<FieldView>, lowered: Seq<char>) -> Option<int> {
        if exists|i: int| FieldView::is_position(fields, lowered, i) {
            Some(choose|i: int| FieldView::is_position(fields, lowered, i))
        } else {
            None
        }
    }

    /// Whether no two fields in the list have names that differ at most in case.
    pub open spec fn distinct(fields: Seq<FieldView>) -> bool {
        forall|i: int, j: int|
            0 <= i < j < fields.len() ==> text::lowercase(#[trigger] fields[i].name)
                != text::lowercase(#[trigger] fields[j].name)
    }

    /// The column mapping id that the field is annotated with.
    pub open spec fn column_mapping_id(self) -> Option<int> {
        let key = ColumnMetadataKey::ColumnMappingId.text();
        if self.metadata.contains_key(key) {
            match self.metadata[key] {
                MetadataValueView::Number(id) => Some(id),
                _ => None,
            }
        } else {
            None
        }
    }

    /// Whether a reader computes the field.
    pub open spec fn is_metadata_column(self) -> bool {
        let key = ColumnMetadataKey::MetadataSpec.text();
        self.metadata.contains_key(key) && match self.metadata[key] {
            MetadataValueView::String(name) => {
                ||| name == MetadataColumnSpec::RowIndex.text()
                ||| name == MetadataColumnSpec::RowId.text()
                ||| name == MetadataColumnSpec::RowCommitVersion.text()
            },
            _ => false,
        }
    }
}

proof fn lemma_struct_view(s: StructType)
    ensures
        s@.len() == s.fields@.len(),
        s@ == views(s.fields@),
        forall|i: int| 0 <= i < s.fields@.len() ==> #[trigger] s@[i] == s.fields@[i]@,
{
    reveal_with_fuel(struct_view, 1);
    assert(struct_view(s) =~= views(s.fields@));
}

/// There is at most one first field with a given name.
pub proof fn lemma_position(fields: Seq<FieldView>, lowered: Seq<char>, i: int)
    requires
        FieldView::is_position(fields, lowered, i),
    ensures
        FieldView::position(fields, lowered) == Some(i),
{
    let k = FieldView::position(fields, lowered)->0;
    assert(FieldView::is_position(fields, lowered, k));
    if k < i {
        assert(text::lowercase(fields[k].name) != lowered);
    }
    if i < k {
        assert(text::lowercase(fields[i].name) != lowered);
    }
}

impl Clone for MetadataValue {
    fn clone(&self) -> (value: Self)
        ensures
            value@ == self@,
    {
        match self {
            MetadataValue::Number(n) => MetadataValue::Number(*n),
            MetadataValue::String(s) => MetadataValue::String(s.clone()),
            MetadataValue::Boolean(b) => MetadataValue::Boolean(*b),
            MetadataValue::Other(json) => MetadataValue::Other(json.clone()),
        }
    }
}

impl DataType {
    /// A copy of the type.
    pub fn duplicate(&self) -> (data_type: DataType)
        ensures
            data_type@ == self@,
        decreases self,
    {
        match self {
            DataType::Primitive(p) => DataType::Primitive(*p),
            DataType::Array(a) => DataType::Array(
                Box::new(
                    ArrayType {
                        element_type: a.element_type.duplicate(),
                        contains_null: a.contains_null,
                    },
                ),
            ),
            DataType::Struct(s) => DataType::Struct(Box::new(s.duplicate())),
            DataType::MapOf(m) => DataType::MapOf(
                Box::new(
                    MapType {
                        key_type: m.key_type.duplicate(),
                        value_type: m.value_type.duplicate(),
                        value_contains_null: m.value_contains_null,
                    },
                ),
            ),
        }
    }

    /// The type as it is written in messages.
    pub fn to_string(&self) -> (written: String)
        ensures
            written@ == self@.text(),
        decreases self,
    {
        match self {
            DataType::Primitive(p) => p.to_string(),
            DataType::Array(a) => text::join3("array<", a.element_type.to_string().as_str(), ">"),
            DataType::Struct(s) => text::join3("struct<", s.fields_to_string().as_str(), ">"),
            DataType::MapOf(m) => {
                let start = text::join3("map<", m.key_type.to_string().as_str(), ", ");
                text::join3(start.as_str(), m.value_type.to_string().as_str(), ">")
            },
        }
    }

    /// Whether the type `p` occurs in the type, at any depth.
    pub fn mentions(&self, p: PrimitiveType) -> (found: bool)
        ensures
            found == self@.mentions(p),
        decreases self,
    {
        match self {
            DataType::Primitive(q) => p == *q,
            DataType::Array(a) => a.element_type.mentions(p),
            DataType::Struct(s) => s.mentions(p),
            DataType::MapOf(m) => m.key_type.mentions(p) || m.value_type.mentions(p),
        }
    }

    /// The fields inside the type, each one followed by the fields inside its own type.
    pub fn nested_fields(&self) -> (fields: Vec<&StructField>)
        ensures
            ref_views(fields@) == self@.nested_fields(),
    {
        let mut fields: Vec<&StructField> = Vec::new();
        self.push_nested_fields(&mut fields);
        fields
    }

    /// Appends the fields inside the type, each one followed by the fields inside its own type.
    fn push_nested_fields<'a>(&'a self, found: &mut Vec<&'a StructField>)
        ensures
            ref_views(final(found)@) == ref_views(old(found)@) + self@.nested_fields(),
        decreases self,
    {
        match self {
            DataType::Primitive(_) => {},
            DataType::Array(a) => a.element_type.push_nested_fields(found),
            DataType::Struct(s) => s.push_all_fields(found),
            DataType::MapOf(m) => {
                m.key_type.push_nested_fields(found);
                m.value_type.push_nested_fields(found);
            },
        }
    }
}

impl Clone for DataType {
    fn clone(&self) -> (data_type: Self)
        ensures
            data_type@ == self@,
    {
        self.duplicate()
    }
}

impl From<StructType> for DataType {
    fn from(s: StructType) -> (data_type: Self) {
        DataType::Struct(Box::new(s))
    }
}

impl vstd::std_specs::convert::FromSpecImpl<StructType> for DataType {
    open spec fn obeys_from_spec() -> bool {
        true
    }

    open spec fn from_spec(s: StructType) -> DataType {
        DataType::Struct(Box::new(s))
    }
}

impl StructType {
    /// The struct with the given fields, in their order.
    ///
    /// # Errors
    ///
    /// Two names that differ at most in case are refused.
    pub fn try_new(fields: Vec<StructField>) -> (result: DeltaResult<StructType>)
        ensures
            match result {
                Ok(s) => FieldView::distinct(views(fields@)) && s@ == views(fields@),
                Err(e) => !FieldView::distinct(views(fields@)) && e@ == ErrorView::Schema(
                    "Duplicate field names (ignoring case) in a struct"@,
                ),
            },
    {
        let s = StructType { fields };
        proof {
            lemma_struct_view(s);
        }
        if s.has_distinct_names() {
            Ok(s)
        } else {
            Err(Error::Schema("Duplicate field names (ignoring case) in a struct".to_string()))
        }
    }

    /// The struct with the given fields, whatever their names.
    pub(crate) fn from_fields(fields: Vec<StructField>) -> (s: StructType)
        ensures
            s@ == views(fields@),
    {
        let s = StructType { fields };
        proof {
            lemma_struct_view(s);
        }
        s
    }

    /// The fields of the struct.
    pub fn fields(&self) -> (fields: &Vec<StructField>)
        ensures
            views(fields@) == self@,
            forall|i: int|
                0 <= i < fields@.len() ==> decreases_to!(self => #[trigger] fields@[i]),
    {
        proof {
            lemma_struct_view(*self);
        }
        &self.fields
    }

    /// The field with exactly this name, if there is one.
    pub fn field(&self, name: &str) -> (found: Option<&StructField>)
        ensures
            match found {
                Some(f) => exists|i: int|
                    0 <= i < self@.len() && #[trigger] self@[i] == f@ && f@.name == name@ && (
                    forall|j: int| 0 <= j < i ==> (#[trigger] self@[j]).name != name@),
                None => forall|i: int| 0 <= i < self@.len() ==> (#[trigger] self@[i]).name != name@,
            },
    {
        proof {
            lemma_struct_view(*self);
        }
        for i in 0..self.fields.len()
            invariant
                self@ == views(self.fields@),
                forall|j: int| 0 <= j < i ==> (#[trigger] self@[j]).name != name@,
        {
            if text::equal(self.fields[i].name.as_str(), name) {
                assert(self@[i as int] == self.fields@[i as int]@);
                return Some(&self.fields[i]);
            }
        }
        None
    }

    /// The lower-case forms of the field names.
    pub fn lowercase_names(&self) -> (names: Vec<String>)
        ensures
            names@.len() == self@.len(),
            forall|i: int|
                0 <= i < self@.len() ==> (#[trigger] names@[i])@ == text::lowercase(self@[i].name),
    {
        proof {
            lemma_struct_view(*self);
        }
        let mut names: Vec<String> = Vec::new();
        for i in 0..self.fields.len()
            invariant
                self@ == views(self.fields@),
                names@.len() == i,
                forall|j: int|
                    0 <= j < i ==> (#[trigger] names@[j])@ == text::lowercase(self@[j].name),
        {
            assert(self@[i as int] == self.fields@[i as int]@);
            names.push(text::to_lowercase(self.fields[i].name.as_str()));
        }
        names
    }

    /// The index of the first field whose name is `name` but for case.
    pub fn position(&self, name: &str) -> (index: Option<usize>)
        ensures
            match index {
                Some(i) => FieldView::position(self@, text::lowercase(name@)) == Some(i as int)
                    && FieldView::is_position(self@, text::lowercase(name@), i as int),
                None => FieldView::position(self@, text::lowercase(name@)) is None,
            },
    {
        let names = self.lowercase_names();
        let index = find_text(&names, &text::to_lowercase(name));
        proof {
            let lowered = text::lowercase(name@);
            if let Some(i) = index {
                assert forall|j: int| 0 <= j < i implies text::lowercase(
                    #[trigger] self@[j].name,
                ) != lowered by {
                    assert(names@[j]@ != lowered);
                }
                assert(FieldView::is_position(self@, lowered, i as int));
                lemma_position(self@, lowered, i as int);
            } else {
                assert forall|i: int| !FieldView::is_position(self@, lowered, i) by {
                    if 0 <= i < self@.len() {
                        assert(names@[i]@ != lowered);
                    }
                }
            }
        }
        index
    }

    /// Whether no two fields of the struct have names that differ at most in case.
    pub fn has_distinct_names(&self) -> (distinct: bool)
        ensures
            distinct == FieldView::distinct(self@),
    {
        let names = self.lowercase_names();
        for i in 0..names.len()
            invariant
                names@.len() == self@.len(),
                forall|k: int|
                    0 <= k < self@.len() ==> (#[trigger] names@[k])@ == text::lowercase(
                        self@[k].name,
                    ),
                forall|k: int, l: int|
                    0 <= k < l < i ==> text::lowercase(#[trigger] self@[k].name)
                        != text::lowercase(#[trigger] self@[l].name),
        {
            for j in 0..i
                invariant
                    i < names@.len(),
                    names@.len() == self@.len(),
                    forall|k: int|
                        0 <= k < self@.len() ==> (#[trigger] names@[k])@ == text::lowercase(
                            self@[k].name,
                        ),
                    forall|k: int|
                        0 <= k < j ==> text::lowercase(#[trigger] self@[k].name)
                            != text::lowercase(self@[i as int].name),
            {
                assert(names@[j as int]@ == text::lowercase(self@[j as int].name));
                assert(names@[i as int]@ == text::lowercase(self@[i as int].name));
                if names[j] == names[i] {
                    return false;
                }
            }
        }
        true
    }

    /// Whether no struct in this one, at any depth, has two fields whose names differ at most
    /// in case.
    pub fn has_unique_names(&self) -> (unique: bool)
        ensures
            unique == DataTypeView::Struct(self@).unique_names(),
        decreases self,
    {
        proof {
            lemma_struct_view(*self);
        }
        if !self.has_distinct_names() {
            return false;
        }
        for i in 0..self.fields.len()
            invariant
                self@ == views(self.fields@),
                FieldView::distinct(self@),
                forall|j: int| #![trigger self@[j]] 0 <= j < i ==> self@[j].data_type.unique_names(),
        {
            assert(self@[i as int] == self.fields@[i as int]@);
            if !self.fields[i].data_type.has_unique_names() {
                return false;
            }
        }
        true
    }

    /// Whether the type `p` occurs in the struct, at any depth.
    pub fn mentions(&self, p: PrimitiveType) -> (found: bool)
        ensures
            found == DataTypeView::Struct(self@).mentions(p),
        decreases self,
    {
        proof {
            lemma_struct_view(*self);
        }
        for i in 0..self.fields.len()
            invariant
                self@ == views(self.fields@),
                forall|j: int| #![trigger self@[j]] 0 <= j < i ==> !self@[j].data_type.mentions(p),
        {
            assert(self@[i as int] == self.fields@[i as int]@);
            if self.fields[i].data_type.mentions(p) {
                return true;
            }
        }
        false
    }

    /// The fields of the struct, each one followed by the fields inside its own type.
    pub fn all_fields(&self) -> (fields: Vec<&StructField>)
        ensures
            ref_views(fields@) == FieldView::all_fields(self@),
    {
        let mut fields: Vec<&StructField> = Vec::new();
        self.push_all_fields(&mut fields);
        fields
    }

    fn push_all_fields<'a>(&'a self, found: &mut Vec<&'a StructField>)
        ensures
            ref_views(final(found)@) == ref_views(old(found)@) + FieldView::all_fields(self@),
        decreases self,
    {
        proof {
            lemma_struct_view(*self);
        }
        for i in 0..self.fields.len()
            invariant
                self@ == views(self.fields@),
                ref_views(found@) == ref_views(old(found)@) + FieldView::all_fields(
                    self@.take(i as int),
                ),
        {
            let ghost before = found@;
            assert(self@[i as int] == self.fields@[i as int]@);
            assert(self@.take(i + 1).drop_last() == self@.take(i as int));
            found.push(&self.fields[i]);
            assert(ref_views(found@) == ref_views(before).push(self@[i as int]));
            self.fields[i].data_type.push_nested_fields(found);
        }
        assert(self@.take(self@.len() as int) == self@);
    }

    fn fields_to_string(&self) -> (written: String)
        ensures
            written@ == FieldView::list_text(self@),
        decreases self,
    {
        proof {
            lemma_struct_view(*self);
        }
        let mut written = String::new();
        for i in 0..self.fields.len()
            invariant
                self@ == views(self.fields@),
                written@ == FieldView::list_text(self@.take(i as int)),
        {
            assert(self@[i as int] == self.fields@[i as int]@);
            assert(self@.take(i + 1).drop_last() == self@.take(i as int));
            if i > 0 {
                written.append(", ");
            }
            written.append(self.fields[i].name.as_str());
            written.append(": ");
            written.append(self.fields[i].data_type.to_string().as_str());
        }
        assert(self@.take(self@.len() as int) == self@);
        written
    }

    /// A copy of the struct.
    pub fn duplicate(&self) -> (s: StructType)
        ensures
            s@ == self@,
        decreases self,
    {
        proof {
            lemma_struct_view(*self);
        }
        let mut fields: Vec<StructField> = Vec::new();
        for i in 0..self.fields.len()
            invariant
                self@ == views(self.fields@),
                views(fields@) == self@.take(i as int),
        {
            let ghost before = fields@;
            fields.push(self.fields[i].duplicate());
            assert(views(fields@) == views(before).push(self@[i as int]));
        }
        let s = StructType { fields };
        proof {
            lemma_struct_view(s);
            assert(self@.take(self@.len() as int) == self@);
        }
        s
    }

    /// Adds a field after the others.
    pub(crate) fn push_field(&mut self, field: StructField)
        ensures
            final(self)@ == old(self)@.push(field@),
    {
        proof {
            lemma_struct_view(*self);
        }
        self.fields.push(field);
        proof {
            lemma_struct_view(*self);
            assert(self@ =~= old(self)@.push(field@));
        }
    }

    /// Makes field `i` nullable.
    pub(crate) fn set_nullable(&mut self, i: usize)
        requires
            i < old(self)@.len(),
        ensures
            final(self)@ == old(self)@.update(
                i as int,
                (FieldView { nullable: true, ..old(self)@[i as int] }),
            ),
    {
        proof {
            lemma_struct_view(*self);
        }
        self.fields[i].nullable = true;
        proof {
            lemma_struct_view(*self);
            assert(self@ =~= old(self)@.update(
                i as int,
                FieldView { nullable: true, ..old(self)@[i as int] },
            ));
        }
    }

    /// The type of field `i`, to be changed in place.
    pub(crate) fn data_type_mut(&mut self, i: usize) -> (data_type: &mut DataType)
        requires
            i < old(self)@.len(),
        ensures
            data_type@ == old(self)@[i as int].data_type,
            final(self)@ == old(self)@.update(
                i as int,
                (FieldView { data_type: final(data_type)@, ..old(self)@[i as int] }),
            ),
    {
        &mut self.fields[i].data_type
    }
}

impl Clone for StructType {
    fn clone(&self) -> (s: Self)
        ensures
            s@ == self@,
    {
        self.duplicate()
    }
}

impl DataType {
    /// Whether no struct in the type, at any depth, has two fields whose names differ at most
    /// in case.
    pub fn has_unique_names(&self) -> (unique: bool)
        ensures
            unique == self@.unique_names(),
        decreases self,
    {
        match self {
            DataType::Primitive(_) => true,
            DataType::Array(a) => a.element_type.has_unique_names(),
            DataType::Struct(s) => s.has_unique_names(),
            DataType::MapOf(m) => m.key_type.has_unique_names() && m.value_type.has_unique_names(),
        }
    }
}

/// The index of the first text in `texts` that equals `wanted`.
pub fn find_text(texts: &Vec<String>, wanted: &String) -> (index: Option<usize>)
    ensures
        match index {
            Some(i) => i < texts@.len() && texts@[i as int]@ == wanted@ && (forall|j: int|
                0 <= j < i ==> (#[trigger] texts@[j])@ != wanted@),
            None => forall|j: int| 0 <= j < texts@.len() ==> (#[trigger] texts@[j])@ != wanted@,
        },
{
    for i in 0..texts.len()
        invariant
            forall|j: int| 0 <= j < i ==> (#[trigger] texts@[j])@ != wanted@,
    {
        if texts[i] == *wanted {
            return Some(i);
        }
    }
    None
}

impl StructField {
    /// A field without annotations.
    pub fn new(name: &str, data_type: DataType, nullable: bool) -> (field: StructField)
        ensures
            field@ == (FieldView {
                name: name@,
                data_type: data_type@,
                nullable,
                metadata: Map::empty(),
            }),
    {
        StructField { name: name.to_string(), data_type, nullable, metadata: StringMap::new() }
    }

    /// A nullable field without annotations.
    pub fn nullable(name: &str, data_type: DataType) -> (field: StructField)
        ensures
            field@ == (FieldView {
                name: name@,
                data_type: data_type@,
                nullable: true,
                metadata: Map::empty(),
            }),
    {
        StructField::new(name, data_type, true)
    }

    /// A field without annotations whose values are never null.
    pub fn not_null(name: &str, data_type: DataType) -> (field: StructField)
        ensures
            field@ == (FieldView {
                name: name@,
                data_type: data_type@,
                nullable: false,
                metadata: Map::empty(),
            }),
    {
        StructField::new(name, data_type, false)
    }

    /// A field that a reader computes.
    pub fn create_metadata_column(name: &str, spec_of: MetadataColumnSpec) -> (field: StructField)
        ensures
            field@ == (FieldView {
                name: name@,
                data_type: DataTypeView::Primitive(PrimitiveType::Long),
                nullable: false,
                metadata: Map::<Seq<char>, MetadataValueView>::empty().insert(
                    ColumnMetadataKey::MetadataSpec.text(),
                    MetadataValueView::String(spec_of.text()),
                ),
            }),
            field@.is_metadata_column(),
    {
        let mut field = StructField::not_null(name, DataType::Primitive(PrimitiveType::Long));
        field.metadata.insert(
            ColumnMetadataKey::MetadataSpec.as_ref().to_string(),
            MetadataValue::String(spec_of.as_ref().to_string()),
        );
        field
    }

    /// The name of the field.
    pub fn name(&self) -> (name: &String)
        ensures
            name@ == self@.name,
    {
        &self.name
    }

    /// The type of the field.
    pub fn data_type(&self) -> (data_type: &DataType)
        ensures
            data_type@ == self@.data_type,
    {
        &self.data_type
    }

    /// Whether values of the field may be null.
    pub fn is_nullable(&self) -> (nullable: bool)
        ensures
            nullable == self@.nullable,
    {
        self.nullable
    }

    /// The annotation under `key`, if there is one.
    pub fn get_config_value(&self, key: &ColumnMetadataKey) -> (value: Option<&MetadataValue>)
        ensures
            value is Some <==> self@.metadata.contains_key(key.text()),
            value matches Some(v) ==> v@ == self@.metadata[key.text()],
    {
        self.metadata.get(key.as_ref())
    }

    /// The column mapping id that the field is annotated with.
    pub fn column_mapping_id(&self) -> (id: Option<i64>)
        ensures
            id is Some <==> self@.column_mapping_id() is Some,
            id matches Some(n) ==> self@.column_mapping_id() == Some(n as int),
    {
        match self.get_config_value(&ColumnMetadataKey::ColumnMappingId) {
            Some(MetadataValue::Number(n)) => Some(*n),
            _ => None,
        }
    }

    /// Whether a reader computes the field.
    pub fn is_metadata_column(&self) -> (computed: bool)
        ensures
            computed == self@.is_metadata_column(),
    {
        match self.get_config_value(&ColumnMetadataKey::MetadataSpec) {
            Some(MetadataValue::String(name)) => {
                let name = name.as_str();
                text::equal(name, MetadataColumnSpec::RowIndex.as_ref()) || text::equal(
                    name,
                    MetadataColumnSpec::RowId.as_ref(),
                ) || text::equal(name, MetadataColumnSpec::RowCommitVersion.as_ref())
            },
            _ => false,
        }
    }

    /// The field itself, followed by the fields inside its type.
    pub fn with_nested(&self) -> (fields: Vec<&StructField>)
        ensures
            ref_views(fields@) == self@.with_nested(),
    {
        let mut fields: Vec<&StructField> = Vec::new();
        fields.push(self);
        assert(ref_views(fields@) == seq![self@]);
        self.data_type.push_nested_fields(&mut fields);
        fields
    }

    /// A copy of the field.
    pub fn duplicate(&self) -> (field: StructField)
        ensures
            field@ == self@,
        decreases self,
    {
        StructField {
            name: self.name.clone(),
            data_type: self.data_type.duplicate(),
            nullable: self.nullable,
            metadata: self.metadata.duplicate(),
        }
    }
}

impl Clone for StructField {
    fn clone(&self) -> (field: Self)
        ensures
            field@ == self@,
    {
        self.duplicate()
    }
}

} // verus!
