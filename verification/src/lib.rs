//! Budget storage logic: the budget tables of the spending module, held as
//! plain rows, with every repository operation written as a verified state
//! transition over them.

pub mod decimal;
pub mod text;
pub mod clock;
pub mod ids;
pub mod model;
pub mod tables;
pub mod buffers;
pub mod groups;
pub mod laws;
pub mod guarantees;
pub mod targets;
pub mod rollovers;
pub mod assignments;
pub mod listing;
pub mod changes;
