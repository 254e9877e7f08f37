//! A task list kept in a markdown checklist file: parsing lines into tasks,
//! ordering them, editing the collection and writing it back.

pub mod text;
pub mod number;
pub mod task;
pub mod tasks;
pub mod render;
pub mod command;
