//! Conversations of office messengers: one candidate per conversation, with a sliding
//! window of its recent messages kept as one text file.
pub mod types;
pub mod blocks;
pub mod payload;
pub mod window;
pub mod ingest;
pub mod lark;
pub mod images;
