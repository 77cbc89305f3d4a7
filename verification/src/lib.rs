pub mod bytes;
pub mod encoded_dataset;
pub mod error;
pub mod fragments;
pub mod index_type;
pub mod mem_wal;
pub mod optimize;
pub mod ordered;
pub mod scalar;
pub mod string_map;
pub mod table_identifier;
pub mod text;
pub mod topk;
pub mod vector;
