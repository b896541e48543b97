//! What the mathematical counterparts keep of the values: everything that a caller can read.
use vstd::prelude::*;

use crate::column_name;
use crate::error::{DeltaResult, Error, ErrorView};
use crate::evolution;
use crate::evolution::{
    OperationView, SchemaEvolutionResult, SchemaOperation,
};
use crate::schema;
use crate::schema::{
    DataType, DataTypeView, FieldView, MetadataValue, MetadataValueView, StructField, StructType,
};
use crate::table_configuration::{
    ConfigurationView, Metadata, Protocol, TableConfiguration,
};

verus! {

/// The view of a type is of the same kind, with the same flags and the views of what is inside.
pub proof fn types_are_seen_whole(t: DataType)
    ensures
        match t {
            DataType::Primitive(p) => t@ == DataTypeView::Primitive(p),
            DataType::Array(a) => t@ == (DataTypeView::Array {
                element_type: Box::new(a.element_type@),
                contains_null: a.contains_null,
            }),
            DataType::Struct(s) => t@ == DataTypeView::Struct(s@),
            DataType::MapOf(m) => t@ == (DataTypeView::MapOf {
                key_type: Box::new(m.key_type@),
                value_type: Box::new(m.value_type@),
                value_contains_null: m.value_contains_null,
            }),
        },
{
}

/// The view of a field has its name, nullability, annotations, and the view of its type.
pub proof fn fields_are_seen_whole(f: StructField)
    ensures
        f@.name == f.name@,
        f@.data_type == f.data_type@,
        f@.nullable == f.nullable,
        f@.metadata == f.metadata@,
{
}

/// The view of an annotation is of the same kind and has the same value.
pub proof fn annotations_are_seen_whole(v: MetadataValue)
    ensures
        match v {
            MetadataValue::Number(n) => v@ == MetadataValueView::Number(n as int),
            MetadataValue::String(s) => v@ == MetadataValueView::String(s@),
            MetadataValue::Boolean(b) => v@ == MetadataValueView::Boolean(b),
            MetadataValue::Other(json) => v@ == MetadataValueView::Other(json@),
        },
{
}

/// The views of a list stand in the order of the list.
pub proof fn lists_are_seen_whole(
    fields: Seq<StructField>,
    borrowed: Seq<&StructField>,
    names: Seq<String>,
    operations: Seq<SchemaOperation>,
)
    ensures
        schema::views(fields).len() == fields.len(),
        forall|i: int| 0 <= i < fields.len() ==> #[trigger] schema::views(fields)[i] == fields[i]@,
        schema::ref_views(borrowed).len() == borrowed.len(),
        forall|i: int|
            0 <= i < borrowed.len() ==> #[trigger] schema::ref_views(borrowed)[i] == borrowed[i]@,
        column_name::names_view(names).len() == names.len(),
        forall|i: int|
            0 <= i < names.len() ==> #[trigger] column_name::names_view(names)[i] == names[i]@,
        evolution::operations_view(operations).len() == operations.len(),
        forall|i: int|
            0 <= i < operations.len() ==> #[trigger] evolution::operations_view(operations)[i]
                == operations[i]@,
{
}

/// The view of a change is of the same kind, with the views of its path and field.
pub proof fn operations_are_seen_whole(operation: SchemaOperation)
    ensures
        match operation {
            SchemaOperation::AddColumn { path, field } => operation@ == (OperationView::AddColumn {
                path: path@,
                field: field@,
            }),
            SchemaOperation::SetNullable { column } => operation@ == (OperationView::SetNullable {
                column: column@,
            }),
        },
{
}

/// The view of an error is of the same kind with the same message.
pub proof fn errors_are_seen_whole(e: Error)
    ensures
        match e {
            Error::Generic(m) => e@ == ErrorView::Generic(m@),
            Error::InternalError(m) => e@ == ErrorView::InternalError(m@),
            Error::InvalidProtocol(m) => e@ == ErrorView::InvalidProtocol(m@),
            Error::Schema(m) => e@ == ErrorView::Schema(m@),
            Error::Unsupported(m) => e@ == ErrorView::Unsupported(m@),
        },
{
}

/// The counterpart of a result has its schema, its id and its error.
pub proof fn results_are_seen_whole(
    evolution: DeltaResult<SchemaEvolutionResult>,
    config: DeltaResult<TableConfiguration>,
)
    ensures
        match evolution {
            Ok(r) => {
                &&& evolution::result_view(evolution) is Ok
                &&& evolution::result_view(evolution)->Ok_0.0 == r.schema@
                &&& match r.new_max_column_id {
                    Some(id) => evolution::result_view(evolution)->Ok_0.1 == Some(id as int),
                    None => evolution::result_view(evolution)->Ok_0.1 is None,
                }
            },
            Err(e) => evolution::result_view(evolution) == Err::<
                (Seq<FieldView>, Option<int>),
                ErrorView,
            >(e@),
        },
        match config {
            Ok(c) => evolution::configuration_view(config) == Ok::<ConfigurationView, ErrorView>(c@),
            Err(e) => evolution::configuration_view(config) == Err::<ConfigurationView, ErrorView>(
                e@,
            ),
        },
{
}

/// The state that plain values stand for has their schema, id and count; no id stands for no id.
pub proof fn states_are_seen_whole(schema: StructType, max_id: Option<i64>, at: usize)
    ensures
        evolution::state_of(schema, max_id, at).schema == schema@,
        evolution::state_of(schema, max_id, at).names_used == at,
        match max_id {
            Some(id) => evolution::state_of(schema, max_id, at).max_id == Some(id as int)
                && evolution::id_view(max_id) == Some(id as int),
            None => evolution::state_of(schema, max_id, at).max_id is None && evolution::id_view(
                max_id,
            ) is None,
        },
{
}

/// The views of the metadata and of the protocol of a table have all that these have.
pub proof fn tables_are_seen_whole(metadata: Metadata, protocol: Protocol)
    ensures
        metadata@.id == metadata.id@,
        metadata@.schema == metadata.schema@,
        metadata@.configuration == metadata.configuration@,
        protocol@.min_reader_version == protocol.min_reader_version,
        protocol@.min_writer_version == protocol.min_writer_version,
        protocol@.reader_features == protocol.reader_features@,
        protocol@.writer_features == protocol.writer_features@,
{
}

} // verus!
