//! Structured event reporting, and the reports of an analysis.

pub mod event;
pub mod lists;
pub mod sink;
pub mod stream;

pub use event::{BumpSource, Event, LeakDetail, TreeNode, TreeNodeKind};
pub use lists::{print_results, validate_bumps, BumpLists};
pub use sink::{EventLog, EventSink};
pub use stream::render;
