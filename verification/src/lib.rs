//! Planning and bookkeeping core of a chunked HTTP file fetcher: capability
//! probing, byte-range partitioning, retry decisions, write coordination and
//! outcome aggregation, stated and proved over mathematical models.

pub mod decide;
pub mod header;
pub mod outcome;
pub mod probe;
pub mod plan;
pub mod retry;
pub mod sink;
pub mod stream;
