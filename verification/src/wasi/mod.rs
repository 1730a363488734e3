//! The component backends: polling (0.2) and component async (0.3).
pub mod abi;
pub mod cancel;
pub mod content;
pub mod drive;
pub mod errors;
pub mod files;
pub mod histories;
pub mod layouts;
pub mod lookup_trace;
pub mod lookups;
pub mod options;
pub mod p2;
pub mod paths;
pub mod requests;
pub mod return_storage;
pub mod run;
pub mod p3;
