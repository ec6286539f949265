//! What the desktop interface shows of a configuration.
use super::{CertificateInfo, Settings};
use crate::edges::EdgeConfig;
use vstd::prelude::*;

verus! {

/// What is shown of a configuration.
pub struct View {
    pub revision: String,
    pub settings: Settings,
    pub edges: Vec<EdgeConfig>,
    pub peer_name: String,
    pub identity: Option<CertificateInfo>,
    pub peer: Option<CertificateInfo>,
}

} // verus!
