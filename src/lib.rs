//! The streaming core of a distributed retrieval engine for time-series
//! data of accelerator control systems: the frame codec of the inter-node
//! transport, the parser of event container files, the range filter, the
//! k-way and priority mergers, time binning, the pre-binned patch cache with
//! its placement and refinement rules, and the collector of responses.

pub mod archive;
pub mod binning;
pub mod cache;
pub mod chunker;
pub mod collect;
pub mod endian;
pub mod event;
pub mod frame;
pub mod items;
pub mod layout;
pub mod merge;
pub mod multifile;
pub mod netpod;
pub mod patch;
pub mod pipeline;
pub mod query;
pub mod rangefilter;
pub mod storage;
