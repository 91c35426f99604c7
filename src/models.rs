//! Exported entry points, as the fact extraction reports them.

pub mod command;
