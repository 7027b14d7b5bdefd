//! The three items that the launcher's other parts call the core by, under
//! one roof: the scan for target processes, the inspection of one process,
//! and the stamping of log lines.

pub use crate::inspect::query_child;
pub use crate::report::StringExt;
pub use crate::scan::process_handles;
