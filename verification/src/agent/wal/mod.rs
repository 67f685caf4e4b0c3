//! The write-ahead log: what is written to it before it reaches the buffer.

use crate::agent::buffer::chunk;
use crate::agent::buffer::chunk::Row;
use crate::text;
use vstd::prelude::*;

pub mod applying;
pub mod history;
pub mod wal_core;

verus! {

pub type WalFileSequenceNumber = u64;

/// Rows of one table that belong to one chunk.
#[derive(Debug)]
pub struct WriteBatch {
    pub db_name: String,
    pub table_name: String,
    pub chunk_time: i64,
    pub field_names: Vec<String>,
    pub tag_keys: Vec<String>,
    pub rows: Vec<Row>,
}

#[verifier::ext_equal]
pub struct BatchModel {
    pub db: Seq<char>,
    pub table: Seq<char>,
    pub chunk_time: i64,
    pub field_names: Seq<Seq<char>>,
    pub tag_keys: Seq<Seq<char>>,
    pub rows: Seq<chunk::RowModel>,
}

impl View for WriteBatch {
    type V = BatchModel;

    open spec fn view(&self) -> BatchModel {
        BatchModel {
            db: self.db_name@,
            table: self.table_name@,
            chunk_time: self.chunk_time,
            field_names: text::views(self.field_names@),
            tag_keys: text::views(self.tag_keys@),
            rows: chunk::row_models(self.rows@),
        }
    }
}

impl Clone for WriteBatch {
    fn clone(&self) -> (r: Self)
        ensures
            r@ == self@,
    {
        WriteBatch {
            db_name: self.db_name.clone(),
            table_name: self.table_name.clone(),
            chunk_time: self.chunk_time,
            field_names: text::copy_list(&self.field_names),
            tag_keys: text::copy_list(&self.tag_keys),
            rows: chunk::copy_rows(&self.rows),
        }
    }
}

#[derive(Debug)]
pub enum WalOp {
    Write(WriteBatch),
    Noop,
}

pub enum OpModel {
    Write(BatchModel),
    Noop,
}

impl View for WalOp {
    type V = OpModel;

    open spec fn view(&self) -> OpModel {
        match self {
            WalOp::Write(batch) => OpModel::Write(batch@),
            WalOp::Noop => OpModel::Noop,
        }
    }
}

impl Clone for WalOp {
    fn clone(&self) -> (r: Self)
        ensures
            r@ == self@,
    {
        match self {
            WalOp::Write(batch) => WalOp::Write(batch.clone()),
            WalOp::Noop => WalOp::Noop,
        }
    }
}

pub open spec fn op_models(ops: Seq<WalOp>) -> Seq<OpModel> {
    ops.map_values(|op: WalOp| op@)
}

} // verus!
