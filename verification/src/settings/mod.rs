//! The settings file: bucket connection strings, the settings model and its
//! validation, and where the file is looked for.
pub mod conn_string;
pub mod model;
pub mod validate;
pub mod location;
