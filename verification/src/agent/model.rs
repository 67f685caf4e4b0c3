//! The data types of the buffer.

pub use crate::agent::buffer::chunk::{
    Chunk, FieldDef, FieldType, FieldValue, Row, Table, TableSchema,
};
