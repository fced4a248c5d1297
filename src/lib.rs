//! Host-bridge core: the decisions behind reading a file that the host
//! runtime serves and mirroring plan metrics onto a host-side metric tree.
//! The host calls themselves are made by the caller, which hands their
//! outcomes back to these functions.
pub mod error;
pub mod metrics;
pub mod object_store;
pub mod reader;
