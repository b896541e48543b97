//! Changes to the schema of a table.
use std::sync::Arc;

use vstd::prelude::*;
use vstd::string::*;

use crate::annotation_laws;
use crate::column_mapping;
use crate::column_mapping::ColumnMappingMode;
use crate::column_name;
use crate::column_name::ColumnName;
use crate::error::{DeltaResult, Error, ErrorView};
use crate::mapping_laws;
use crate::schema;
use crate::schema::{DataType, DataTypeView, FieldView, SchemaRef, StructField, StructType};
use crate::table_configuration;
use crate::table_configuration::{
    ConfigurationView, MetadataView, TableConfiguration, COLUMN_MAPPING_MAX_COLUMN_ID,
};
use crate::table_laws;
use crate::text;
use crate::validation;

verus! {

/// A change to the schema of a table.
///
/// Changes are made in order by [`apply_schema_operations`]. Each one sees the schema as the
/// changes before it left it.
#[non_exhaustive]
#[derive(Debug)]
pub enum SchemaOperation {
    /// Add a column, or a field of a nested struct.
    AddColumn {
        /// The path to the struct that gets the field; the empty path is the table itself.
        path: ColumnName,
        /// The field to add. It is nullable and no reader computes it.
        field: StructField,
    },
    /// Let a column, or a field of a nested struct, hold nulls.
    SetNullable { column: ColumnName },
}

/// The mathematical counterpart of [`SchemaOperation`].
pub enum OperationView {
    AddColumn { path: Seq<Seq<char>>, field: FieldView },
    SetNullable { column: Seq<Seq<char>> },
}

impl View for SchemaOperation {
    type V = OperationView;

    open spec fn view(&self) -> OperationView {
        match self {
            SchemaOperation::AddColumn { path, field } => OperationView::AddColumn {
                path: path@,
                field: field@,
            },
            SchemaOperation::SetNullable { column } => OperationView::SetNullable {
                column: column@,
            },
        }
    }
}

impl SchemaOperation {
    /// The change that adds `field` to the struct at `path`.
    pub fn add_column(field: StructField, path: ColumnName) -> (operation: SchemaOperation)
        ensures
            operation@ == (OperationView::AddColumn { path: path@, field: field@ }),
    {
        SchemaOperation::AddColumn { path, field }
    }

    /// The change that lets `column` hold nulls.
    pub fn set_nullable(column: ColumnName) -> (operation: SchemaOperation)
        ensures
            operation@ == (OperationView::SetNullable { column: column@ }),
    {
        SchemaOperation::SetNullable { column }
    }
}

impl Clone for SchemaOperation {
    fn clone(&self) -> (operation: Self)
        ensures
            operation@ == self@,
    {
        match self {
            SchemaOperation::AddColumn { path, field } => SchemaOperation::AddColumn {
                path: path.clone(),
                field: field.clone(),
            },
            SchemaOperation::SetNullable { column } => SchemaOperation::SetNullable {
                column: column.clone(),
            },
        }
    }
}

/// The error that refuses a second column of one name.
pub open spec fn column_exists(name: Seq<char>) -> ErrorView {
    ErrorView::Schema("Cannot add column '"@ + name + "': a column with that name already exists"@)
}

/// The error that reports a field that is not there.
pub open spec fn missing_field(name: Seq<char>) -> ErrorView {
    ErrorView::Schema("field '"@ + name + "' does not exist"@)
}

/// The error that reports a path that ends at something other than a struct.
pub open spec fn not_a_struct() -> ErrorView {
    ErrorView::Schema("path target is not a struct"@)
}

/// The error that reports a path that does not fit the type it goes into. `literal` is the
/// offending name as a string literal.
pub open spec fn path_mismatch(literal: Seq<char>, data_type: DataTypeView) -> ErrorView {
    ErrorView::Schema("path segment "@ + literal + " does not match "@ + data_type.text())
}

/// The fields of a struct after `field` is added to them, at the end.
pub open spec fn with_field(fields: Seq<FieldView>, field: FieldView) -> Result<
    Seq<FieldView>,
    ErrorView,
> {
    if FieldView::position(fields, text::lowercase(field.name)) is Some {
        Err(column_exists(field.name))
    } else {
        Ok(fields.push(field))
    }
}

/// The fields of a struct after the field called `name`, whatever its case, is made nullable.
pub open spec fn with_nullable(fields: Seq<FieldView>, name: Seq<char>) -> Result<
    Seq<FieldView>,
    ErrorView,
> {
    match FieldView::position(fields, text::lowercase(name)) {
        Some(i) => Ok(fields.update(i, FieldView { nullable: true, ..fields[i] })),
        None => Err(missing_field(name)),
    }
}

/// Adds `field` to the struct, after the fields that are there.
///
/// # Errors
///
/// Refuses a field whose name differs from that of another field at most in case.
pub fn add_field(parent: &mut StructType, field: StructField) -> (result: DeltaResult<()>)
    ensures
        match result {
            Ok(()) => with_field(old(parent)@, field@) == Ok::<Seq<FieldView>, ErrorView>(
                final(parent)@,
            ),
            Err(e) => with_field(old(parent)@, field@) == Err::<Seq<FieldView>, ErrorView>(e@)
                && final(parent)@ == old(parent)@,
        },
{
    if parent.position(field.name.as_str()).is_some() {
        return Err(
            Error::Schema(
                text::join3(
                    "Cannot add column '",
                    field.name.as_str(),
                    "': a column with that name already exists",
                ),
            ),
        );
    }
    parent.push_field(field);
    Ok(())
}

/// Makes the field called `name`, whatever its case, nullable.
///
/// # Errors
///
/// Reports a field that is not there.
pub fn set_field_nullable(parent: &mut StructType, name: &str) -> (result: DeltaResult<()>)
    ensures
        match result {
            Ok(()) => with_nullable(old(parent)@, name@) == Ok::<Seq<FieldView>, ErrorView>(
                final(parent)@,
            ),
            Err(e) => with_nullable(old(parent)@, name@) == Err::<Seq<FieldView>, ErrorView>(e@)
                && final(parent)@ == old(parent)@,
        },
{
    match parent.position(name) {
        Some(i) => {
            parent.set_nullable(i);
            Ok(())
        },
        None => Err(Error::Schema(text::join3("field '", name, "' does not exist"))),
    }
}

impl DataTypeView {
    /// The type that one name of a path leads to: `element` into an array, `key` and `value` into
    /// a map, and the name of a field, whatever its case, into a struct.
    pub open spec fn step(self, name: Seq<char>) -> Result<DataTypeView, ErrorView> {
        match self {
            DataTypeView::Array { element_type, .. } if name == "element"@ => Ok(*element_type),
            DataTypeView::MapOf { key_type, .. } if name == "key"@ => Ok(*key_type),
            DataTypeView::MapOf { value_type, .. } if name == "value"@ => Ok(*value_type),
            DataTypeView::Struct(fields) => match FieldView::position(
                fields,
                text::lowercase(name),
            ) {
                Some(i) => Ok(fields[i].data_type),
                None => Err(missing_field(name)),
            },
            _ => Err(path_mismatch(text::quoted(name), self)),
        }
    }

    /// This type with `inner` in place of the type that the name leads to.
    pub open spec fn with_step(self, name: Seq<char>, inner: DataTypeView) -> DataTypeView {
        match self {
            DataTypeView::Array { contains_null, .. } => DataTypeView::Array {
                element_type: Box::new(inner),
                contains_null,
            },
            DataTypeView::MapOf { value_type, value_contains_null, .. } if name == "key"@ => {
                DataTypeView::MapOf { key_type: Box::new(inner), value_type, value_contains_null }
            },
            DataTypeView::MapOf { key_type, value_contains_null, .. } => DataTypeView::MapOf {
                key_type,
                value_type: Box::new(inner),
                value_contains_null,
            },
            DataTypeView::Struct(fields) => match FieldView::position(
                fields,
                text::lowercase(name),
            ) {
                Some(i) => DataTypeView::Struct(
                    fields.update(i, FieldView { data_type: inner, ..fields[i] }),
                ),
                None => self,
            },
            DataTypeView::Primitive(_) => self,
        }
    }

    /// The fields of the struct that a path leads to.
    pub open spec fn target(self, path: Seq<Seq<char>>) -> Result<Seq<FieldView>, ErrorView>
        decreases path.len(),
    {
        if path.len() == 0 {
            match self {
                DataTypeView::Struct(fields) => Ok(fields),
                _ => Err(not_a_struct()),
            }
        } else {
            match self.step(path[0]) {
                Ok(inner) => inner.target(path.drop_first()),
                Err(e) => Err(e),
            }
        }
    }

    /// This type with `fields` in place of those of the struct that the path leads to.
    pub open spec fn with_target(self, path: Seq<Seq<char>>, fields: Seq<FieldView>) -> DataTypeView
        decreases path.len(),
    {
        if path.len() == 0 {
            DataTypeView::Struct(fields)
        } else {
            match self.step(path[0]) {
                Ok(inner) => self.with_step(path[0], inner.with_target(path.drop_first(), fields)),
                Err(_) => self,
            }
        }
    }
}

/// The error for a path that does not fit the type it goes into.
pub fn mismatch_error(literal: &str, data_type: &DataType) -> (error: Error)
    ensures
        error@ == path_mismatch(literal@, data_type@),
{
    let lead = text::join3("path segment ", literal, " does not match ");
    Error::Schema(text::join2(lead.as_str(), data_type.to_string().as_str()))
}

fn call_modifier<F: FnOnce(&mut StructType) -> DeltaResult<()>>(
    parent: &mut StructType,
    modifier: F,
) -> (result: DeltaResult<()>)
    requires
        forall|p: &mut StructType| p@ == old(parent)@ ==> #[trigger] call_requires(modifier, (p,)),
    ensures
        exists|p: &mut StructType|
            p@ == old(parent)@ && final(p)@ == final(parent)@ && #[trigger] call_ensures(
                modifier,
                (p,),
                result,
            ),
{
    modifier(parent)
}

/// Finds the struct at `path` and lets `modifier` change it.
///
/// The names of fields are matched whatever their case. `element` leads into an array, `key` and
/// `value` lead into a map.
///
/// # Errors
///
/// Reports a path that leads nowhere, or to something other than a struct; nothing is changed
/// then. Else the result is that of `modifier`.
pub fn modify_field_at_path<F: FnOnce(&mut StructType) -> DeltaResult<()>>(
    data_type: &mut DataType,
    path: &[String],
    modifier: F,
) -> (result: DeltaResult<()>)
    requires
        old(data_type)@.target(column_name::names_view(path@)) matches Ok(fields) ==> forall|
            p: &mut StructType,
        | p@ == fields ==> #[trigger] call_requires(modifier, (p,)),
    ensures
        match old(data_type)@.target(column_name::names_view(path@)) {
            Ok(fields) => exists|p: &mut StructType|
                p@ == fields && final(data_type)@ == old(data_type)@.with_target(
                    column_name::names_view(path@),
                    final(p)@,
                ) && #[trigger] call_ensures(modifier, (p,), result),
            Err(e) => result is Err && result->Err_0@ == e && final(data_type)@ == old(data_type)@,
        },
    decreases path@.len(),
{
    let ghost names = column_name::names_view(path@);
    if path.len() == 0 {
        return match data_type {
            DataType::Struct(parent) => call_modifier(&mut **parent, modifier),
            _ => Err(Error::Schema("path target is not a struct".to_string())),
        };
    }
    let rest = vstd::slice::slice_subrange(path, 1, path.len());
    let name = path[0].as_str();
    assert(column_name::names_view(rest@) == names.drop_first());
    assert(names[0] == name@);
    let is_element = text::equal(name, "element");
    let is_key = text::equal(name, "key");
    let is_value = text::equal(name, "value");
    proof {
        reveal_strlit("key");
        reveal_strlit("value");
        assert("key"@.len() == 3 && "value"@.len() == 5);
    }
    let misnamed = match data_type {
        DataType::Array(_) => !is_element,
        DataType::MapOf(_) => !is_key && !is_value,
        DataType::Struct(_) | DataType::Primitive(_) => false,
    };
    if misnamed {
        return Err(mismatch_error(text::quote(name).as_str(), data_type));
    }
    match data_type {
        DataType::Array(array) => modify_field_at_path(&mut array.element_type, rest, modifier),
        DataType::MapOf(map) => if is_key {
            modify_field_at_path(&mut map.key_type, rest, modifier)
        } else {
            modify_field_at_path(&mut map.value_type, rest, modifier)
        },
        DataType::Struct(parent) => match parent.position(name) {
            Some(i) => {
                let ghost fields = parent@;
                assert(fields.update(i as int, fields[i as int]) == fields);
                modify_field_at_path(parent.data_type_mut(i), rest, modifier)
            },
            None => Err(Error::Schema(text::join3("field '", name, "' does not exist"))),
        },
        DataType::Primitive(_) => Err(mismatch_error(text::quote(name).as_str(), data_type)),
    }
}

/// The state between two changes.
pub struct EvolutionState {
    /// The schema.
    pub schema: Seq<FieldView>,
    /// The greatest column mapping id in use, if the table keeps it.
    pub max_id: Option<int>,
    /// The number of generated physical names that were handed out.
    pub names_used: nat,
}

/// The error that refuses a computed column.
pub open spec fn computed_column(name: Seq<char>) -> ErrorView {
    ErrorView::Schema(
        "Cannot add column '"@ + name
            + "': metadata columns are not allowed in a table schema"@,
    )
}

/// The error that refuses a column with a computed column inside its type.
pub open spec fn nested_computed_column(name: Seq<char>) -> ErrorView {
    ErrorView::Schema("Field '"@ + name + "' contains a nested metadata column"@)
}

/// The error that refuses a column that must hold a value.
pub open spec fn required_column(name: Seq<char>) -> ErrorView {
    ErrorView::Schema(
        "Cannot add non-nullable column '"@ + name
            + "'. Added columns must be nullable because existing data files do not contain this column."@,
    )
}

/// The error that reports a table which maps its columns but does not keep the greatest id.
pub open spec fn missing_max_id() -> ErrorView {
    ErrorView::InvalidProtocol(
        "Column mapping is enabled but delta.columnMapping.maxColumnId is not set in table properties"@,
    )
}

/// Whether some field inside the type of `field` is one that a reader computes.
pub open spec fn has_nested_computed_column(field: FieldView) -> bool {
    exists|i: int|
        0 <= i < field.data_type.nested_fields().len() && (
        #[trigger] field.data_type.nested_fields()[i]).is_metadata_column()
}

/// The schema after `field` is added to the struct at `path`.
pub open spec fn with_field_at(
    schema: Seq<FieldView>,
    path: Seq<Seq<char>>,
    field: FieldView,
) -> Result<Seq<FieldView>, ErrorView> {
    let root = DataTypeView::Struct(schema);
    match root.target(path) {
        Err(e) => Err(e),
        Ok(fields) => match with_field(fields, field) {
            Err(e) => Err(e),
            Ok(fields) => Ok(root.with_target(path, fields)->Struct_0),
        },
    }
}

/// The schema after the field called `name` of the struct at `path` is made nullable.
pub open spec fn with_nullable_at(
    schema: Seq<FieldView>,
    path: Seq<Seq<char>>,
    name: Seq<char>,
) -> Result<Seq<FieldView>, ErrorView> {
    let root = DataTypeView::Struct(schema);
    match root.target(path) {
        Err(e) => Err(e),
        Ok(fields) => match with_nullable(fields, name) {
            Err(e) => Err(e),
            Ok(fields) => Ok(root.with_target(path, fields)->Struct_0),
        },
    }
}

/// What is wrong with a column that is to be added, whatever the table, if anything.
pub open spec fn column_problem(field: FieldView) -> Option<ErrorView> {
    if field.is_metadata_column() {
        Some(computed_column(field.name))
    } else if has_nested_computed_column(field) {
        Some(nested_computed_column(field.name))
    } else if !field.nullable {
        Some(required_column(field.name))
    } else {
        None
    }
}

/// The column as it is added: with column mapping annotations where the table maps its columns.
/// Comes with the state but for the schema.
pub open spec fn prepared(
    field: FieldView,
    mode: ColumnMappingMode,
    names: Seq<Seq<char>>,
    state: EvolutionState,
) -> Result<(FieldView, EvolutionState), ErrorView> {
    if mode == ColumnMappingMode::NoMapping {
        Ok((field, state))
    } else {
        match state.max_id {
            None => Err(missing_max_id()),
            Some(max) => match field.assigned(max, names.skip(state.names_used as int)) {
                Err(e) => Err(e),
                Ok((assigned, new_max)) => Ok(
                    (
                        assigned,
                        EvolutionState {
                            max_id: Some(new_max),
                            names_used: state.names_used + field.with_nested().len(),
                            ..state
                        },
                    ),
                ),
            },
        }
    }
}

/// The state after one change.
pub open spec fn after_operation(
    operation: OperationView,
    mode: ColumnMappingMode,
    names: Seq<Seq<char>>,
    state: EvolutionState,
) -> Result<EvolutionState, ErrorView> {
    match operation {
        OperationView::AddColumn { path, field } => match column_problem(field) {
            Some(e) => Err(e),
            None => match prepared(field, mode, names, state) {
                Err(e) => Err(e),
                Ok((field, state)) => match with_field_at(state.schema, path, field) {
                    Err(e) => Err(e),
                    Ok(schema) => Ok(EvolutionState { schema, ..state }),
                },
            },
        },
        OperationView::SetNullable { column } => if column.len() == 0 {
            Err(ErrorView::Generic("empty column path"@))
        } else {
            match with_nullable_at(state.schema, column.drop_last(), column.last()) {
                Err(e) => Err(
                    ErrorView::Generic(
                        "Cannot set nullable on column '"@ + column_name::path_text(column)
                            + "': "@ + e.text(),
                    ),
                ),
                Ok(schema) => Ok(EvolutionState { schema, ..state }),
            }
        },
    }
}

/// The state after some changes, made in order.
pub open spec fn after_operations(
    operations: Seq<OperationView>,
    mode: ColumnMappingMode,
    names: Seq<Seq<char>>,
    state: EvolutionState,
) -> Result<EvolutionState, ErrorView>
    decreases operations.len(),
{
    if operations.len() == 0 {
        Ok(state)
    } else {
        match after_operations(operations.drop_last(), mode, names, state) {
            Err(e) => Err(e),
            Ok(state) => after_operation(operations.last(), mode, names, state),
        }
    }
}

/// The number of physical names that may be handed out for one change.
pub open spec fn names_for_operation(operation: OperationView, mode: ColumnMappingMode) -> nat {
    match operation {
        OperationView::AddColumn { field, .. } if mode != ColumnMappingMode::NoMapping => {
            field.with_nested().len()
        },
        _ => 0,
    }
}

/// The number of physical names that may be handed out for some changes.
pub open spec fn names_needed(operations: Seq<OperationView>, mode: ColumnMappingMode) -> nat
    decreases operations.len(),
{
    if operations.len() == 0 {
        0
    } else {
        names_needed(operations.drop_last(), mode) + names_for_operation(operations.last(), mode)
    }
}

fn check_column(field: &StructField) -> (result: DeltaResult<()>)
    ensures
        match result {
            Ok(()) => column_problem(field@) is None,
            Err(e) => column_problem(field@) == Some(e@),
        },
{
    let name = field.name.as_str();
    if field.is_metadata_column() {
        return Err(
            Error::Schema(
                text::join3(
                    "Cannot add column '",
                    name,
                    "': metadata columns are not allowed in a table schema",
                ),
            ),
        );
    }
    match StructType::ensure_no_metadata_columns_in_field(field) {
        Ok(()) => {},
        Err(e) => return Err(e),
    }
    if !field.is_nullable() {
        return Err(
            Error::Schema(
                text::join3(
                    "Cannot add non-nullable column '",
                    name,
                    "'. Added columns must be nullable because existing data files do not contain this column.",
                ),
            ),
        );
    }
    Ok(())
}

impl StructType {
    /// Checks that no field inside the type of `field` is one that a reader computes.
    ///
    /// # Errors
    ///
    /// Refuses such a field.
    pub fn ensure_no_metadata_columns_in_field(field: &StructField) -> (result: DeltaResult<()>)
        ensures
            match result {
                Ok(()) => !has_nested_computed_column(field@),
                Err(e) => has_nested_computed_column(field@) && e@ == nested_computed_column(
                    field@.name,
                ),
            },
    {
        let fields = field.data_type.nested_fields();
        let ghost nested = field@.data_type.nested_fields();
        for i in 0..fields.len()
            invariant
                nested == field@.data_type.nested_fields(),
                nested == schema::ref_views(fields@),
                forall|j: int| 0 <= j < i ==> !(#[trigger] nested[j]).is_metadata_column(),
        {
            assert(nested[i as int] == fields@[i as int]@);
            if fields[i].is_metadata_column() {
                return Err(
                    Error::Schema(
                        text::join3(
                            "Field '",
                            field.name.as_str(),
                            "' contains a nested metadata column",
                        ),
                    ),
                );
            }
        }
        Ok(())
    }
}

/// Makes one change.
///
/// `names` holds generated physical names; those from `at` on were not handed out yet. Returns the
/// schema, the greatest column mapping id in use, and the index of the next name.
///
/// # Errors
///
/// Refuses what [`after_operation`] refuses.
pub fn apply_operation(
    schema: StructType,
    operation: SchemaOperation,
    mode: ColumnMappingMode,
    max_id: Option<i64>,
    names: &Vec<String>,
    at: usize,
) -> (result: DeltaResult<(StructType, Option<i64>, usize)>)
    requires
        at + names_for_operation(operation@, mode) <= names@.len(),
    ensures
        ({
            let state = state_of(schema, max_id, at);
            let after = after_operation(
                operation@,
                mode,
                column_name::names_view(names@),
                state,
            );
            match result {
                Ok((s, m, next)) => after == Ok::<EvolutionState, ErrorView>(state_of(s, m, next))
                    && next <= at + names_for_operation(operation@, mode),
                Err(e) => after == Err::<EvolutionState, ErrorView>(e@),
            }
        }),
{
    let mut root = DataType::from(schema);
    let mut new_max: Option<i64> = max_id;
    let mut next: usize = at;
    match operation {
        SchemaOperation::AddColumn { path, field } => {
            match check_column(&field) {
                Ok(()) => {},
                Err(e) => return Err(e),
            }
            let field = if mode != ColumnMappingMode::NoMapping {
                let max: i64 = match max_id {
                    Some(max) => max,
                    None => return Err(
                        Error::InvalidProtocol(
                            "Column mapping is enabled but delta.columnMapping.maxColumnId is not set in table properties".to_string(),
                        ),
                    ),
                };
                match column_mapping::assign_column_mapping_info(&field, max, names, at) {
                    Ok((assigned, max, after)) => {
                        new_max = Some(max);
                        next = after;
                        assigned
                    },
                    Err(e) => return Err(e),
                }
            } else {
                field
            };
            let ghost added = field@;
            let add = |parent: &mut StructType| -> (result: DeltaResult<()>)
                ensures
                    match result {
                        Ok(()) => with_field(old(parent)@, added) == Ok::<
                            Seq<FieldView>,
                            ErrorView,
                        >(final(parent)@),
                        Err(e) => with_field(old(parent)@, added) == Err::<
                            Seq<FieldView>,
                            ErrorView,
                        >(e@),
                    },
                { add_field(parent, field) };
            match modify_field_at_path(&mut root, path.path(), add) {
                Ok(()) => {},
                Err(e) => return Err(e),
            }
        },
        SchemaOperation::SetNullable { column } => {
            let whole = column.path();
            if whole.len() == 0 {
                return Err(Error::Generic("empty column path".to_string()));
            }
            let parent_path = vstd::slice::slice_subrange(whole, 0, whole.len() - 1);
            let leaf = whole[whole.len() - 1].as_str();
            assert(column_name::names_view(parent_path@) == column@.drop_last());
            assert(leaf@ == column@.last());
            let set = |parent: &mut StructType| -> (result: DeltaResult<()>)
                ensures
                    match result {
                        Ok(()) => with_nullable(old(parent)@, leaf@) == Ok::<
                            Seq<FieldView>,
                            ErrorView,
                        >(final(parent)@),
                        Err(e) => with_nullable(old(parent)@, leaf@) == Err::<
                            Seq<FieldView>,
                            ErrorView,
                        >(e@),
                    },
                { set_field_nullable(parent, leaf) };
            match modify_field_at_path(&mut root, parent_path, set) {
                Ok(()) => {},
                Err(e) => {
                    let lead = text::join3(
                        "Cannot set nullable on column '",
                        column.to_string().as_str(),
                        "': ",
                    );
                    return Err(Error::Generic(text::join2(lead.as_str(), e.to_string().as_str())));
                },
            }
        },
    }
    match root {
        DataType::Struct(updated) => Ok((*updated, new_max, next)),
        _ => Err(
            Error::InternalError("schema root changed type during schema evolution".to_string()),
        ),
    }
}

/// The state that plain values stand for.
pub open spec fn state_of(schema: StructType, max_id: Option<i64>, at: usize) -> EvolutionState {
    EvolutionState { schema: schema@, max_id: id_view(max_id), names_used: at as nat }
}

/// An optional id as a mathematical integer.
pub open spec fn id_view(id: Option<i64>) -> Option<int> {
    match id {
        Some(n) => Some(n as int),
        None => None,
    }
}

/// What came of some changes.
#[derive(Debug)]
pub struct SchemaEvolutionResult {
    /// The schema after all changes.
    pub schema: SchemaRef,
    /// The new `delta.columnMapping.maxColumnId`, if it went up.
    pub new_max_column_id: Option<i64>,
}

/// The error that refuses the greatest id that a table keeps.
pub open spec fn invalid_max_id(id: int) -> ErrorView {
    ErrorView::InvalidProtocol(
        "Table property `delta.columnMapping.maxColumnId`: "@ + column_mapping::invalid_id(
            id,
        ).text(),
    )
}

/// The greatest column mapping id in use when the changes begin. `kept` is what the table keeps; a
/// greater id in the schema of a table that maps its columns counts instead.
pub open spec fn starting_max(
    schema: Seq<FieldView>,
    mode: ColumnMappingMode,
    kept: Option<int>,
) -> Option<int> {
    match (kept, column_mapping::greatest(column_mapping::schema_ids(schema))) {
        (Some(id), Some(found)) if mode != ColumnMappingMode::NoMapping && found > id => Some(found),
        _ => kept,
    }
}

/// The state when the changes begin.
pub open spec fn starting_state(
    schema: Seq<FieldView>,
    mode: ColumnMappingMode,
    kept: Option<int>,
) -> EvolutionState {
    EvolutionState { schema, max_id: starting_max(schema, mode, kept), names_used: 0 }
}

/// The greatest id `max_id`, if it is above what the table keeps.
pub open spec fn raised(max_id: Option<int>, kept: Option<int>) -> Option<int> {
    match (max_id, kept) {
        (Some(new), Some(id)) => if new > id {
            Some(new)
        } else {
            None
        },
        (Some(new), None) => Some(new),
        (None, _) => None,
    }
}

/// What comes of some changes: the new schema, and the greatest column mapping id if it went up.
pub open spec fn evolved(
    schema: Seq<FieldView>,
    operations: Seq<OperationView>,
    mode: ColumnMappingMode,
    kept: Option<int>,
    names: Seq<Seq<char>>,
) -> Result<(Seq<FieldView>, Option<int>), ErrorView> {
    if kept is Some && !column_mapping::is_valid_id(kept->0) {
        Err(invalid_max_id(kept->0))
    } else {
        match after_operations(operations, mode, names, starting_state(schema, mode, kept)) {
            Err(e) => Err(e),
            Ok(state) => match validation::schema_problem(state.schema, mode) {
                Some(e) => Err(e),
                None => Ok((state.schema, raised(state.max_id, kept))),
            },
        }
    }
}

/// The views of a list of changes.
pub open spec fn operations_view(operations: Seq<SchemaOperation>) -> Seq<OperationView> {
    operations.map_values(|o: SchemaOperation| o@)
}

/// The mathematical counterpart of a result.
pub open spec fn result_view(result: DeltaResult<SchemaEvolutionResult>) -> Result<
    (Seq<FieldView>, Option<int>),
    ErrorView,
> {
    match result {
        Ok(evolution) => Ok((evolution.schema@, id_view(evolution.new_max_column_id))),
        Err(e) => Err(e@),
    }
}

proof fn lemma_names_needed_grow(operations: Seq<OperationView>, n: int, mode: ColumnMappingMode)
    requires
        0 <= n <= operations.len(),
    ensures
        names_needed(operations.take(n), mode) <= names_needed(operations, mode),
    decreases operations.len(),
{
    if n == operations.len() {
        assert(operations.take(n) == operations);
    } else {
        lemma_names_needed_grow(operations.drop_last(), n, mode);
        assert(operations.drop_last().take(n) == operations.take(n));
    }
}

proof fn lemma_fails_early(
    operations: Seq<OperationView>,
    n: int,
    mode: ColumnMappingMode,
    names: Seq<Seq<char>>,
    state: EvolutionState,
)
    requires
        0 <= n <= operations.len(),
    ensures
        after_operations(operations.take(n), mode, names, state) is Err ==> after_operations(
            operations,
            mode,
            names,
            state,
        ) == after_operations(operations.take(n), mode, names, state),
    decreases operations.len(),
{
    if n == operations.len() {
        assert(operations.take(n) == operations);
    } else {
        lemma_fails_early(operations.drop_last(), n, mode, names, state);
        assert(operations.drop_last().take(n) == operations.take(n));
    }
}

/// One change does not lower the greatest column mapping id, nor forget it.
pub proof fn lemma_max_id_kept(
    operation: OperationView,
    mode: ColumnMappingMode,
    names: Seq<Seq<char>>,
    state: EvolutionState,
)
    requires
        state.names_used + names_for_operation(operation, mode) <= names.len(),
    ensures
        after_operation(operation, mode, names, state) matches Ok(after) ==> {
            &&& after.max_id is Some <==> state.max_id is Some
            &&& state.max_id is Some ==> after.max_id->0 >= state.max_id->0
        },
{
    match operation {
        OperationView::AddColumn { field, .. } => {
            if mode != ColumnMappingMode::NoMapping && state.max_id is Some {
                let max = state.max_id->0;
                let own_names = names.skip(state.names_used as int);
                mapping_laws::field_assignment(field, max, own_names);
                mapping_laws::max_never_goes_down(field.with_nested(), max);
            }
        },
        OperationView::SetNullable { .. } => {},
    }
}

/// What the next change, after the first `n`, does to the state.
proof fn lemma_next_operation(
    operations: Seq<OperationView>,
    n: int,
    mode: ColumnMappingMode,
    names: Seq<Seq<char>>,
    start: EvolutionState,
    current: EvolutionState,
)
    requires
        0 <= n < operations.len(),
        names_needed(operations, mode) <= names.len(),
        after_operations(operations.take(n), mode, names, start) == Ok::<EvolutionState, ErrorView>(
            current,
        ),
        current.names_used <= names_needed(operations.take(n), mode),
    ensures
        names_needed(operations.take(n + 1), mode) == names_needed(operations.take(n), mode)
            + names_for_operation(operations[n], mode),
        names_needed(operations.take(n + 1), mode) <= names_needed(operations, mode),
        after_operations(operations.take(n + 1), mode, names, start) == after_operation(
            operations[n],
            mode,
            names,
            current,
        ),
        match after_operation(operations[n], mode, names, current) {
            Ok(after) => {
                &&& after.max_id is Some <==> current.max_id is Some
                &&& current.max_id is Some ==> after.max_id->0 >= current.max_id->0
            },
            Err(e) => after_operations(operations, mode, names, start) == Err::<
                EvolutionState,
                ErrorView,
            >(e),
        },
{
    assert(operations.take(n + 1).drop_last() == operations.take(n));
    assert(operations.take(n + 1).last() == operations[n]);
    lemma_names_needed_grow(operations, n + 1, mode);
    lemma_fails_early(operations, n + 1, mode, names, start);
    lemma_max_id_kept(operations[n], mode, names, current);
}

/// Makes the changes in order and checks the schema that they lead to, with given physical names.
///
/// # Errors
///
/// Refuses what [`evolved`] refuses.
#[verifier::spinoff_prover]
pub fn apply_schema_operations_with_names(
    schema: StructType,
    operations: Vec<SchemaOperation>,
    column_mapping_mode: ColumnMappingMode,
    current_max_column_id: Option<i64>,
    names: &Vec<String>,
) -> (result: DeltaResult<SchemaEvolutionResult>)
    requires
        names_needed(operations_view(operations@), column_mapping_mode) <= names@.len(),
    ensures
        result_view(result) == evolved(
            schema@,
            operations_view(operations@),
            column_mapping_mode,
            id_view(current_max_column_id),
            column_name::names_view(names@),
        ),
{
    // A kept id that the protocol does not allow comes from a writer that does not follow it.
    // Going on from there would refuse sound columns or hand out further such ids.
    if let Some(id) = current_max_column_id {
        if let Err(e) = column_mapping::validate_column_mapping_id(id) {
            return Err(
                Error::InvalidProtocol(
                    text::join2(
                        "Table property `delta.columnMapping.maxColumnId`: ",
                        e.to_string().as_str(),
                    ),
                ),
            );
        }
    }
    let ghost views = operations_view(operations@);
    let ghost name_views = column_name::names_view(names@);
    let ghost start = starting_state(
        schema@,
        column_mapping_mode,
        id_view(current_max_column_id),
    );
    let mut max_id: Option<i64> = current_max_column_id;
    if column_mapping_mode != ColumnMappingMode::NoMapping {
        // The schema decides when the kept id is stale.
        if let Some(id) = current_max_column_id {
            if let Some(found) = column_mapping::find_max_column_id_in_schema(&schema) {
                if found > id {
                    max_id = Some(found);
                }
            }
        }
    }
    let mut current = schema;
    let mut remaining = operations;
    let mut at: usize = 0;
    let ghost mut done: int = 0;
    assert(views.take(0) == Seq::<OperationView>::empty());
    while remaining.len() > 0
        invariant
            views == operations_view(operations@),
            start == starting_state(
                schema@,
                column_mapping_mode,
                id_view(current_max_column_id),
            ),
            current_max_column_id matches Some(id) ==> column_mapping::is_valid_id(id as int),
            0 <= done,
            done + remaining@.len() == views.len(),
            operations_view(remaining@) == views.skip(done),
            name_views == column_name::names_view(names@),
            names_needed(views, column_mapping_mode) <= names@.len(),
            at <= names_needed(views.take(done), column_mapping_mode),
            start.max_id is Some <==> max_id is Some,
            max_id matches Some(m) ==> m >= start.max_id->0,
            after_operations(views.take(done), column_mapping_mode, name_views, start) == Ok::<
                EvolutionState,
                ErrorView,
            >(state_of(current, max_id, at)),
        decreases remaining@.len(),
    {
        let ghost before = remaining@;
        let operation = remaining.remove(0);
        proof {
            assert(operations_view(before)[0] == views.skip(done)[0]);
            assert(operations_view(remaining@) == operations_view(before).skip(1));
            assert(operations_view(remaining@) == views.skip(done + 1));
            lemma_next_operation(
                views,
                done,
                column_mapping_mode,
                name_views,
                start,
                state_of(current, max_id, at),
            );
            done = done + 1;
        }
        match apply_operation(current, operation, column_mapping_mode, max_id, names, at) {
            Ok((updated, new_max, next)) => {
                current = updated;
                max_id = new_max;
                at = next;
            },
            Err(e) => return Err(e),
        }
    }
    assert(views.take(done) == views);
    match validation::validate_schema(&current, column_mapping_mode) {
        Ok(()) => {},
        Err(e) => return Err(e),
    }
    let new_max_column_id = match (max_id, current_max_column_id) {
        (Some(new), Some(id)) => if new > id {
            Some(new)
        } else if new == id {
            None
        } else {
            return Err(
                Error::InternalError(
                    "max column ID went backwards during schema evolution".to_string(),
                ),
            );
        },
        (new, None) => new,
        (None, Some(_)) => {
            return Err(
                Error::InternalError(
                    "max column ID went backwards during schema evolution".to_string(),
                ),
            );
        },
    };
    Ok(SchemaEvolutionResult { schema: Arc::new(current), new_max_column_id })
}

/// Generates the physical names that some changes may need.
fn generate_names(operations: &Vec<SchemaOperation>, mode: ColumnMappingMode) -> (names: Vec<
    String,
>)
    ensures
        names@.len() == names_needed(operations_view(operations@), mode),
        column_mapping::are_generated_names(column_name::names_view(names@)),
{
    let ghost views = operations_view(operations@);
    let mut names: Vec<String> = Vec::new();
    assert(views.take(0) == Seq::<OperationView>::empty());
    for i in 0..operations.len()
        invariant
            views == operations_view(operations@),
            names@.len() == names_needed(views.take(i as int), mode),
            column_mapping::are_generated_names(column_name::names_view(names@)),
    {
        assert(views[i as int] == operations@[i as int]@);
        assert(views.take(i + 1).drop_last() == views.take(i as int));
        if mode != ColumnMappingMode::NoMapping {
            if let SchemaOperation::AddColumn { field, .. } = &operations[i] {
                let fields = field.with_nested();
                assert(schema::ref_views(fields@).len() == fields@.len());
                let ghost before = names@;
                let mut more = column_mapping::generate_physical_names(fields.len());
                let ghost added = more@;
                names.append(&mut more);
                assert(names@ == before + added);
                assert forall|k: int|
                    0 <= k < names@.len() implies column_mapping::is_generated_name(
                    #[trigger] column_name::names_view(names@)[k],
                ) by {
                    if k < before.len() {
                        assert(column_mapping::is_generated_name(
                            column_name::names_view(before)[k],
                        ));
                    } else {
                        assert(column_mapping::is_generated_name(added[k - before.len()]@));
                    }
                }
            }
        }
    }
    assert(views.take(views.len() as int) == views);
    names
}

/// Makes the changes in order and checks the schema that they lead to.
///
/// Fields that a mapped table gets without a physical name get generated ones.
///
/// # Errors
///
/// Refuses what [`evolved`] refuses.
pub fn apply_schema_operations(
    schema: StructType,
    operations: Vec<SchemaOperation>,
    column_mapping_mode: ColumnMappingMode,
    current_max_column_id: Option<i64>,
) -> (result: DeltaResult<SchemaEvolutionResult>)
    ensures
        exists|names: Seq<Seq<char>>| #[trigger]
            column_mapping::are_generated_names(names) && names.len() == names_needed(
                operations_view(operations@),
                column_mapping_mode,
            ) && result_view(result) == evolved(
                schema@,
                operations_view(operations@),
                column_mapping_mode,
                id_view(current_max_column_id),
                names,
            ),
        forall|names: Seq<Seq<char>>|
            names_needed(operations_view(operations@), column_mapping_mode) <= names.len()
                ==> annotation_laws::same_evolutions(
                result_view(result),
                #[trigger] evolved(
                    schema@,
                    operations_view(operations@),
                    column_mapping_mode,
                    id_view(current_max_column_id),
                    names,
                ),
            ),
{
    let names = generate_names(&operations, column_mapping_mode);
    proof {
        let own_names = column_name::names_view(names@);
        let views = operations_view(operations@);
        let kept = id_view(current_max_column_id);
        assert(column_mapping::are_generated_names(own_names));
        assert forall|names: Seq<Seq<char>>|
            names_needed(views, column_mapping_mode)
                <= names.len() implies annotation_laws::same_evolutions(
            evolved(schema@, views, column_mapping_mode, kept, own_names),
            #[trigger] evolved(schema@, views, column_mapping_mode, kept, names),
        ) by {
            annotation_laws::outcome_ignores_generated_names(
                schema@,
                views,
                column_mapping_mode,
                kept,
                own_names,
                names,
            );
        }
    }
    apply_schema_operations_with_names(
        schema,
        operations,
        column_mapping_mode,
        current_max_column_id,
        &names,
    )
}

/// The schema that a table gets: without the column mapping annotations that the changes brought
/// into a table which does not map its columns and had none before.
pub open spec fn settled_schema(
    before: Seq<FieldView>,
    after: Seq<FieldView>,
    mode: ColumnMappingMode,
) -> Seq<FieldView> {
    if mode == ColumnMappingMode::NoMapping && !column_mapping::is_annotated(before)
        && column_mapping::is_annotated(after) {
        FieldView::all_stripped(after)
    } else {
        after
    }
}

/// The properties of a table after the greatest column mapping id went up to `new_max`.
pub open spec fn settled_configuration(
    configuration: Map<Seq<char>, Seq<char>>,
    new_max: Option<int>,
) -> Map<Seq<char>, Seq<char>> {
    match new_max {
        Some(id) => configuration.insert(COLUMN_MAPPING_MAX_COLUMN_ID@, text::decimal(id)),
        None => configuration,
    }
}

/// The configuration of a table after some changes.
pub open spec fn evolved_configuration(
    config: ConfigurationView,
    operations: Seq<OperationView>,
    names: Seq<Seq<char>>,
) -> Result<ConfigurationView, ErrorView> {
    match evolved(
        config.metadata.schema,
        operations,
        config.mode(),
        config.metadata.max_column_id(),
        names,
    ) {
        Err(e) => Err(e),
        Ok((schema, new_max)) => {
            let metadata = MetadataView {
                schema: settled_schema(config.metadata.schema, schema, config.mode()),
                configuration: settled_configuration(config.metadata.configuration, new_max),
                ..config.metadata
            };
            match table_configuration::configuration_problem(metadata, config.protocol) {
                Some(e) => Err(e),
                None => Ok(ConfigurationView { metadata, ..config }),
            }
        },
    }
}

/// The mathematical counterpart of a result.
pub open spec fn configuration_view(result: DeltaResult<TableConfiguration>) -> Result<
    ConfigurationView,
    ErrorView,
> {
    match result {
        Ok(config) => Ok(config@),
        Err(e) => Err(e@),
    }
}

/// The greatest column mapping id that a table keeps after changes: the one that they report, else
/// the one that it kept.
pub open spec fn kept_after(
    config: ConfigurationView,
    operations: Seq<OperationView>,
    names: Seq<Seq<char>>,
) -> Option<int> {
    match evolved(
        config.metadata.schema,
        operations,
        config.mode(),
        config.metadata.max_column_id(),
        names,
    ) {
        Ok((_, Some(id))) => Some(id),
        _ => config.metadata.max_column_id(),
    }
}

/// Makes the changes to the schema of a table, with given physical names, and checks the
/// configuration that they lead to.
///
/// # Errors
///
/// Refuses what [`evolved_configuration`] refuses.
pub fn evolve_table_config_with_names(
    table_config: &TableConfiguration,
    operations: Vec<SchemaOperation>,
    names: &Vec<String>,
) -> (result: DeltaResult<TableConfiguration>)
    requires
        names_needed(operations_view(operations@), table_config@.mode()) <= names@.len(),
    ensures
        configuration_view(result) == evolved_configuration(
            table_config@,
            operations_view(operations@),
            column_name::names_view(names@),
        ),
        result matches Ok(config) ==> config@.metadata.max_column_id() == kept_after(
            table_config@,
            operations_view(operations@),
            column_name::names_view(names@),
        ),
{
    let schema = table_config.logical_schema().duplicate();
    let mode = table_config.column_mapping_mode();
    let current_max_column_id = table_config.table_properties().column_mapping_max_column_id;
    // Only a table that does not map its columns can have annotations to take out.
    let current_has_cm = mode == ColumnMappingMode::NoMapping
        && column_mapping::schema_has_column_mapping_metadata(&schema);
    let evolution = match apply_schema_operations_with_names(
        schema,
        operations,
        mode,
        current_max_column_id,
        names,
    ) {
        Ok(evolution) => evolution,
        Err(e) => return Err(e),
    };
    let evolved_schema = if mode == ColumnMappingMode::NoMapping {
        match column_mapping::strip_stray_column_mapping_metadata(
            current_has_cm,
            &evolution.schema,
        ) {
            Some(stripped) => Arc::new(stripped),
            None => evolution.schema,
        }
    } else {
        evolution.schema
    };
    let mut metadata = table_config.metadata().clone().with_schema(evolved_schema.clone());
    if let Some(id) = evolution.new_max_column_id {
        proof {
            text::decimal_reads_back(id);
        }
        metadata = metadata.with_configuration_entry(
            COLUMN_MAPPING_MAX_COLUMN_ID,
            text::i64_to_decimal(id),
        );
    }
    TableConfiguration::try_new_with_schema(table_config, metadata, evolved_schema)
}

/// Makes the changes to the schema of a table and checks the configuration that they lead to.
///
/// Fields that a mapped table gets without a physical name get generated ones.
///
/// # Errors
///
/// Refuses what [`evolved_configuration`] refuses.
pub fn evolve_table_config(
    table_config: &TableConfiguration,
    operations: Vec<SchemaOperation>,
) -> (result: DeltaResult<TableConfiguration>)
    ensures
        exists|names: Seq<Seq<char>>| #[trigger]
            column_mapping::are_generated_names(names) && names.len() == names_needed(
                operations_view(operations@),
                table_config@.mode(),
            ) && configuration_view(result) == evolved_configuration(
                table_config@,
                operations_view(operations@),
                names,
            ) && (result matches Ok(config) ==> config@.metadata.max_column_id() == kept_after(
                table_config@,
                operations_view(operations@),
                names,
            )),
        forall|names: Seq<Seq<char>>|
            names_needed(operations_view(operations@), table_config@.mode()) <= names.len()
                ==> annotation_laws::same_configurations(
                configuration_view(result),
                #[trigger] evolved_configuration(
                    table_config@,
                    operations_view(operations@),
                    names,
                ),
            ),
{
    let names = generate_names(&operations, table_config.column_mapping_mode());
    proof {
        let own_names = column_name::names_view(names@);
        let views = operations_view(operations@);
        assert(column_mapping::are_generated_names(own_names));
        assert forall|names: Seq<Seq<char>>|
            names_needed(views, table_config@.mode())
                <= names.len() implies annotation_laws::same_configurations(
            evolved_configuration(table_config@, views, own_names),
            #[trigger] evolved_configuration(table_config@, views, names),
        ) by {
            table_laws::configuration_ignores_generated_names(
                table_config@,
                views,
                own_names,
                names,
            );
        }
    }
    evolve_table_config_with_names(table_config, operations, &names)
}

} // verus!
