//! The configuration of a table: its metadata, its protocol, and what follows from the two.
use vstd::prelude::*;
use vstd::string::*;

use crate::column_mapping::ColumnMappingMode;
use crate::error::{DeltaResult, Error, ErrorView};
use crate::schema;
use crate::schema::{
    ColumnMetadataKey, DataTypeView, FieldView, MetadataValue, PrimitiveType, SchemaRef,
    StructField,
};
use crate::string_map::StringMap;
use crate::text;

verus! {

/// A capability that a table may ask of its readers and writers.
#[derive(Clone, Copy, Debug, PartialEq, Eq, Structural)]
pub enum TableFeature {
    ColumnMapping,
    TimestampWithoutTimezone,
}

/// What a table asks of its readers and writers.
#[derive(Debug)]
pub struct Protocol {
    pub min_reader_version: i32,
    pub min_writer_version: i32,
    pub reader_features: Vec<TableFeature>,
    pub writer_features: Vec<TableFeature>,
}

/// The mathematical counterpart of [`Protocol`].
pub struct ProtocolView {
    pub min_reader_version: int,
    pub min_writer_version: int,
    pub reader_features: Seq<TableFeature>,
    pub writer_features: Seq<TableFeature>,
}

impl View for Protocol {
    type V = ProtocolView;

    open spec fn view(&self) -> ProtocolView {
        ProtocolView {
            min_reader_version: self.min_reader_version as int,
            min_writer_version: self.min_writer_version as int,
            reader_features: self.reader_features@,
            writer_features: self.writer_features@,
        }
    }
}

impl ProtocolView {
    /// Whether the table asks for the feature of readers and of writers.
    pub open spec fn has_table_feature(self, feature: TableFeature) -> bool {
        self.reader_features.contains(feature) && self.writer_features.contains(feature)
    }
}

fn has_feature(features: &Vec<TableFeature>, feature: TableFeature) -> (found: bool)
    ensures
        found == features@.contains(feature),
{
    for i in 0..features.len()
        invariant
            forall|j: int| 0 <= j < i ==> features@[j] != feature,
    {
        if features[i] == feature {
            return true;
        }
    }
    false
}

fn copy_features(features: &Vec<TableFeature>) -> (copy: Vec<TableFeature>)
    ensures
        copy@ == features@,
{
    let mut copy: Vec<TableFeature> = Vec::new();
    for i in 0..features.len()
        invariant
            copy@ == features@.take(i as int),
    {
        copy.push(features[i]);
    }
    copy
}

impl Protocol {
    /// Whether the table asks for the feature of readers and of writers.
    pub fn has_table_feature(&self, feature: TableFeature) -> (found: bool)
        ensures
            found == self@.has_table_feature(feature),
    {
        has_feature(&self.reader_features, feature) && has_feature(&self.writer_features, feature)
    }
}

impl Clone for Protocol {
    fn clone(&self) -> (protocol: Self)
        ensures
            protocol@ == self@,
    {
        Protocol {
            min_reader_version: self.min_reader_version,
            min_writer_version: self.min_writer_version,
            reader_features: copy_features(&self.reader_features),
            writer_features: copy_features(&self.writer_features),
        }
    }
}

/// What a table says of itself: its id, its schema, and its properties.
#[derive(Debug)]
pub struct Metadata {
    pub id: String,
    pub schema: SchemaRef,
    pub configuration: StringMap<String>,
}

/// The mathematical counterpart of [`Metadata`].
pub struct MetadataView {
    pub id: Seq<char>,
    pub schema: Seq<FieldView>,
    pub configuration: Map<Seq<char>, Seq<char>>,
}

impl View for Metadata {
    type V = MetadataView;

    open spec fn view(&self) -> MetadataView {
        MetadataView { id: self.id@, schema: self.schema@, configuration: self.configuration@ }
    }
}

impl Metadata {
    /// The metadata with another schema.
    pub fn with_schema(self, schema: SchemaRef) -> (metadata: Metadata)
        ensures
            metadata@ == (MetadataView { schema: schema@, ..self@ }),
    {
        Metadata { id: self.id, schema, configuration: self.configuration }
    }

    /// The metadata with one property set to another value.
    pub fn with_configuration_entry(self, key: &str, value: String) -> (metadata: Metadata)
        ensures
            metadata@ == (MetadataView {
                configuration: self@.configuration.insert(key@, value@),
                ..self@
            }),
    {
        let mut configuration = self.configuration;
        configuration.insert(key.to_string(), value);
        Metadata { id: self.id, schema: self.schema, configuration }
    }
}

impl Clone for Metadata {
    fn clone(&self) -> (metadata: Self)
        ensures
            metadata@ == self@,
    {
        Metadata {
            id: self.id.clone(),
            schema: self.schema.clone(),
            configuration: self.configuration.duplicate(),
        }
    }
}

/// The key of the property that holds the column mapping mode.
pub const COLUMN_MAPPING_MODE: &'static str = "delta.columnMapping.mode";

/// The key of the property that holds the greatest column mapping id.
pub const COLUMN_MAPPING_MAX_COLUMN_ID: &'static str = "delta.columnMapping.maxColumnId";

/// The properties of a table that this library reads.
#[derive(Clone, Copy, Debug, PartialEq, Eq)]
pub struct TableProperties {
    pub column_mapping_mode: Option<ColumnMappingMode>,
    pub column_mapping_max_column_id: Option<i64>,
}

/// The column mapping mode that a property names.
pub open spec fn parsed_mode(value: Seq<char>) -> Option<ColumnMappingMode> {
    if value == "none"@ {
        Some(ColumnMappingMode::NoMapping)
    } else if value == "id"@ {
        Some(ColumnMappingMode::Id)
    } else if value == "name"@ {
        Some(ColumnMappingMode::Name)
    } else {
        None
    }
}

impl MetadataView {
    /// The column mapping mode among the properties. A value that names none does not count.
    pub open spec fn mode_property(self) -> Option<ColumnMappingMode> {
        if self.configuration.contains_key(COLUMN_MAPPING_MODE@) {
            parsed_mode(self.configuration[COLUMN_MAPPING_MODE@])
        } else {
            None
        }
    }

    /// The greatest column mapping id among the properties. A value that is no number does not
    /// count.
    pub open spec fn max_column_id(self) -> Option<int> {
        if self.configuration.contains_key(COLUMN_MAPPING_MAX_COLUMN_ID@) {
            text::parsed_i64(self.configuration[COLUMN_MAPPING_MAX_COLUMN_ID@])
        } else {
            None
        }
    }
}

impl Metadata {
    /// The properties that this library reads.
    pub fn parse_table_properties(&self) -> (properties: TableProperties)
        ensures
            properties.column_mapping_mode == self@.mode_property(),
            properties.column_mapping_max_column_id is Some <==> self@.max_column_id() is Some,
            properties.column_mapping_max_column_id matches Some(id) ==> self@.max_column_id()
                == Some(id as int),
    {
        let column_mapping_mode = match self.configuration.get(COLUMN_MAPPING_MODE) {
            Some(value) => parse_mode(value.as_str()),
            None => None,
        };
        let column_mapping_max_column_id = match self.configuration.get(
            COLUMN_MAPPING_MAX_COLUMN_ID,
        ) {
            Some(value) => text::parse_i64(value.as_str()),
            None => None,
        };
        TableProperties { column_mapping_mode, column_mapping_max_column_id }
    }
}

fn parse_mode(value: &str) -> (mode: Option<ColumnMappingMode>)
    ensures
        mode == parsed_mode(value@),
{
    if text::equal(value, "none") {
        Some(ColumnMappingMode::NoMapping)
    } else if text::equal(value, "id") {
        Some(ColumnMappingMode::Id)
    } else if text::equal(value, "name") {
        Some(ColumnMappingMode::Name)
    } else {
        None
    }
}

/// The column mapping mode of a table. The property counts only where the protocol knows column
/// mapping.
pub open spec fn effective_mode(
    protocol: ProtocolView,
    property: Option<ColumnMappingMode>,
) -> ColumnMappingMode {
    match property {
        Some(mode) if protocol.min_reader_version == 2 => mode,
        Some(mode) if protocol.min_reader_version == 3 && protocol.has_table_feature(
            TableFeature::ColumnMapping,
        ) => mode,
        _ => ColumnMappingMode::NoMapping,
    }
}

/// The column mapping mode of a table with the given protocol and properties.
pub fn column_mapping_mode(protocol: &Protocol, properties: &TableProperties) -> (mode:
    ColumnMappingMode)
    ensures
        mode == effective_mode(protocol@, properties.column_mapping_mode),
{
    match properties.column_mapping_mode {
        Some(mode) => if protocol.min_reader_version == 2 || (protocol.min_reader_version == 3
            && protocol.has_table_feature(TableFeature::ColumnMapping)) {
            mode
        } else {
            ColumnMappingMode::NoMapping
        },
        None => ColumnMappingMode::NoMapping,
    }
}

/// The error that reports a field of a mapped table without a sound id or physical name.
pub open spec fn missing_annotation(name: Seq<char>, key: Seq<char>) -> ErrorView {
    ErrorView::Schema(
        "Column mapping is enabled but field '"@ + name + "' lacks a valid annotation "@ + key,
    )
}

/// Whether the field is annotated with a physical name.
pub open spec fn has_physical_name(field: FieldView) -> bool {
    let key = ColumnMetadataKey::ColumnMappingPhysicalName.text();
    field.metadata.contains_key(key) && field.metadata[key] is String
}

/// What a field lacks in a table that maps its columns, if anything.
pub open spec fn annotation_problem(field: FieldView) -> Option<ErrorView> {
    if !has_physical_name(field) {
        Some(
            missing_annotation(field.name, ColumnMetadataKey::ColumnMappingPhysicalName.text()),
        )
    } else if field.column_mapping_id() is None {
        Some(missing_annotation(field.name, ColumnMetadataKey::ColumnMappingId.text()))
    } else {
        None
    }
}

/// Whether field `i` is the first one in the list that lacks something.
pub open spec fn is_first_lacking(fields: Seq<FieldView>, i: int) -> bool {
    &&& 0 <= i < fields.len()
    &&& annotation_problem(fields[i]) is Some
    &&& forall|j: int| 0 <= j < i ==> annotation_problem(#[trigger] fields[j]) is None
}

/// The error that reports a type which the protocol of the table does not list.
pub open spec fn timestamp_unsupported() -> ErrorView {
    ErrorView::Unsupported(
        "Table contains TIMESTAMP_NTZ columns but does not have the required 'timestampNtz' feature in reader and writer features"@,
    )
}

/// What is wrong with the metadata of a table under its protocol, if anything.
///
/// Where columns are mapped, each field, at any depth, needs an id and a physical name. And
/// timestamps without a time zone need their feature.
pub open spec fn configuration_problem(metadata: MetadataView, protocol: ProtocolView) -> Option<
    ErrorView,
> {
    let all = FieldView::all_fields(metadata.schema);
    if effective_mode(protocol, metadata.mode_property()) != ColumnMappingMode::NoMapping
        && exists|i: int| is_first_lacking(all, i) {
        annotation_problem(all[choose|i: int| is_first_lacking(all, i)])
    } else if DataTypeView::Struct(metadata.schema).mentions(PrimitiveType::TimestampNtz)
        && !protocol.has_table_feature(TableFeature::TimestampWithoutTimezone) {
        Some(timestamp_unsupported())
    } else {
        None
    }
}

fn check_annotations(field: &StructField) -> (result: DeltaResult<()>)
    ensures
        match result {
            Ok(()) => annotation_problem(field@) is None,
            Err(e) => annotation_problem(field@) == Some(e@),
        },
{
    let lead = text::join3(
        "Column mapping is enabled but field '",
        field.name.as_str(),
        "' lacks a valid annotation ",
    );
    let named = match field.get_config_value(&ColumnMetadataKey::ColumnMappingPhysicalName) {
        Some(MetadataValue::String(_)) => true,
        _ => false,
    };
    if !named {
        let key = ColumnMetadataKey::ColumnMappingPhysicalName.as_ref();
        Err(Error::Schema(text::join2(lead.as_str(), key)))
    } else if field.column_mapping_id().is_none() {
        let key = ColumnMetadataKey::ColumnMappingId.as_ref();
        Err(Error::Schema(text::join2(lead.as_str(), key)))
    } else {
        Ok(())
    }
}

fn validate_metadata(metadata: &Metadata, protocol: &Protocol, mode: ColumnMappingMode) -> (result:
    DeltaResult<()>)
    requires
        mode == effective_mode(protocol@, metadata@.mode_property()),
    ensures
        match result {
            Ok(()) => configuration_problem(metadata@, protocol@) is None,
            Err(e) => configuration_problem(metadata@, protocol@) == Some(e@),
        },
{
    let ghost all = FieldView::all_fields(metadata@.schema);
    if mode != ColumnMappingMode::NoMapping {
        let fields = metadata.schema.all_fields();
        for i in 0..fields.len()
            invariant
                mode == effective_mode(protocol@, metadata@.mode_property()),
                mode != ColumnMappingMode::NoMapping,
                all == FieldView::all_fields(metadata@.schema),
                all == schema::ref_views(fields@),
                forall|j: int| 0 <= j < i ==> annotation_problem(#[trigger] all[j]) is None,
        {
            assert(all[i as int] == fields@[i as int]@);
            if let Err(e) = check_annotations(fields[i]) {
                proof {
                    assert(is_first_lacking(all, i as int));
                    let k = choose|k: int| is_first_lacking(all, k);
                    assert(k == i) by {
                        assert(is_first_lacking(all, k));
                        if k < i {
                            assert(annotation_problem(all[k]) is None);
                        }
                        if i < k {
                            assert(annotation_problem(all[i as int]) is None);
                        }
                    }
                }
                return Err(e);
            }
        }
        assert forall|i: int| !is_first_lacking(all, i) by {
            if 0 <= i < all.len() {
                assert(annotation_problem(all[i]) is None);
            }
        }
    }
    if metadata.schema.mentions(PrimitiveType::TimestampNtz) && !protocol.has_table_feature(
        TableFeature::TimestampWithoutTimezone,
    ) {
        return Err(
            Error::Unsupported(
                "Table contains TIMESTAMP_NTZ columns but does not have the required 'timestampNtz' feature in reader and writer features".to_string(),
            ),
        );
    }
    Ok(())
}

/// A table at one version: metadata that is valid under the protocol, and what follows from the
/// two.
#[derive(Debug)]
pub struct TableConfiguration {
    metadata: Metadata,
    protocol: Protocol,
    table_properties: TableProperties,
    column_mapping_mode: ColumnMappingMode,
    table_root: String,
    version: u64,
}

/// The mathematical counterpart of [`TableConfiguration`].
pub struct ConfigurationView {
    pub metadata: MetadataView,
    pub protocol: ProtocolView,
    pub table_root: Seq<char>,
    pub version: int,
}

impl View for TableConfiguration {
    type V = ConfigurationView;

    closed spec fn view(&self) -> ConfigurationView {
        ConfigurationView {
            metadata: self.metadata@,
            protocol: self.protocol@,
            table_root: self.table_root@,
            version: self.version as int,
        }
    }
}

impl ConfigurationView {
    /// The column mapping mode of the table.
    pub open spec fn mode(self) -> ColumnMappingMode {
        effective_mode(self.protocol, self.metadata.mode_property())
    }

    /// Whether the metadata is valid under the protocol.
    pub open spec fn is_valid(self) -> bool {
        configuration_problem(self.metadata, self.protocol) is None
    }
}

impl TableConfiguration {
    #[verifier::type_invariant]
    spec fn inv(self) -> bool {
        &&& self@.is_valid()
        &&& self.column_mapping_mode == self@.mode()
        &&& self.table_properties.column_mapping_mode == self@.metadata.mode_property()
        &&& match self.table_properties.column_mapping_max_column_id {
            Some(id) => self@.metadata.max_column_id() == Some(id as int),
            None => self@.metadata.max_column_id() is None,
        }
    }

    /// The configuration of a table.
    ///
    /// # Errors
    ///
    /// Refuses metadata that is not valid under the protocol.
    pub fn try_new(metadata: Metadata, protocol: Protocol, table_root: String, version: u64) -> (result:
        DeltaResult<TableConfiguration>)
        ensures
            match result {
                Ok(config) => configuration_problem(metadata@, protocol@) is None && config@ == (
                ConfigurationView {
                    metadata: metadata@,
                    protocol: protocol@,
                    table_root: table_root@,
                    version: version as int,
                }),
                Err(e) => configuration_problem(metadata@, protocol@) == Some(e@),
            },
    {
        let table_properties = metadata.parse_table_properties();
        let column_mapping_mode = column_mapping_mode(&protocol, &table_properties);
        match validate_metadata(&metadata, &protocol, column_mapping_mode) {
            Ok(()) => Ok(
                TableConfiguration {
                    metadata,
                    protocol,
                    table_properties,
                    column_mapping_mode,
                    table_root,
                    version,
                },
            ),
            Err(e) => Err(e),
        }
    }

    /// The configuration of the same table with other metadata, and the given schema.
    ///
    /// # Errors
    ///
    /// Refuses what is not valid under the protocol of the table.
    pub fn try_new_with_schema(
        base: &TableConfiguration,
        metadata: Metadata,
        schema: SchemaRef,
    ) -> (result: DeltaResult<TableConfiguration>)
        ensures
            ({
                let metadata = MetadataView { schema: schema@, ..metadata@ };
                match result {
                    Ok(config) => configuration_problem(metadata, base@.protocol) is None && config@
                        == (ConfigurationView { metadata, ..base@ }),
                    Err(e) => configuration_problem(metadata, base@.protocol) == Some(e@),
                }
            }),
    {
        TableConfiguration::try_new(
            metadata.with_schema(schema),
            base.protocol.clone(),
            base.table_root.clone(),
            base.version,
        )
    }

    /// The metadata of the table, which is valid under its protocol.
    pub fn metadata(&self) -> (metadata: &Metadata)
        ensures
            metadata@ == self@.metadata,
            self@.is_valid(),
    {
        proof {
            use_type_invariant(self);
        }
        &self.metadata
    }

    /// The protocol of the table.
    pub fn protocol(&self) -> (protocol: &Protocol)
        ensures
            protocol@ == self@.protocol,
    {
        &self.protocol
    }

    /// The schema of the table.
    pub fn logical_schema(&self) -> (schema: SchemaRef)
        ensures
            schema@ == self@.metadata.schema,
    {
        self.metadata.schema.clone()
    }

    /// The properties of the table that this library reads.
    pub fn table_properties(&self) -> (properties: &TableProperties)
        ensures
            properties.column_mapping_mode == self@.metadata.mode_property(),
            properties.column_mapping_max_column_id is Some
                <==> self@.metadata.max_column_id() is Some,
            properties.column_mapping_max_column_id matches Some(id)
                ==> self@.metadata.max_column_id() == Some(id as int),
    {
        proof {
            use_type_invariant(self);
        }
        &self.table_properties
    }

    /// The column mapping mode of the table.
    pub fn column_mapping_mode(&self) -> (mode: ColumnMappingMode)
        ensures
            mode == self@.mode(),
    {
        proof {
            use_type_invariant(self);
        }
        self.column_mapping_mode
    }

    /// Where the table is stored.
    pub fn table_root(&self) -> (table_root: &String)
        ensures
            table_root@ == self@.table_root,
    {
        &self.table_root
    }

    /// The version of the table.
    pub fn version(&self) -> (version: u64)
        ensures
            version == self@.version,
    {
        self.version
    }
}

} // verus!
