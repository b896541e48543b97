//! Schema evolution for tables whose columns may be nested structs, arrays and maps.
//!
//! [`evolution`] makes the changes. The modules whose names end in `_laws` state and prove what
//! holds of them as a whole.

pub mod annotation_laws;
pub mod assignment_laws;
pub mod call_laws;
pub mod column_mapping;
pub mod column_name;
pub mod configuration_laws;
pub mod error;
pub mod evolution;
pub mod evolution_laws;
pub mod history_laws;
pub mod mapping_laws;
pub mod operation_laws;
pub mod path_laws;
pub mod run_laws;
pub mod schema;
pub mod schema_laws;
pub mod string_map;
pub mod table_configuration;
pub mod table_laws;
pub mod text;
pub mod text_laws;
pub mod validation;
pub mod view_laws;
