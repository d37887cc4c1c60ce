//! The decisions of the tasks that keep the node in step with the mainchain.

pub mod mainchain_task;
