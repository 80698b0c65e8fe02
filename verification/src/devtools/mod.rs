//! Remote control of the pages that HTML sources render: which links exist,
//! which page each one opens onto, and what may travel over it.

pub mod access;
pub mod control_laws;
pub mod links;
pub mod page_laws;
pub mod session;
pub mod targets;
