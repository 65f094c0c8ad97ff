//! Response models of the legacy skill endpoints.
pub mod csr;

pub use csr::{CsrRecord, CsrRecordRanking, CsrRecordResult, CsrRecords};
