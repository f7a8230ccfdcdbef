pub mod certificate;
pub mod registry;
pub mod laws;

pub use certificate::{Certificate, CertifyError, Key, KeyMode};
pub use registry::{Certify, MAX_CAPACITY};
