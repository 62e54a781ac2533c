//! Asynchronous GUI framework based on Qt Widgets: the logic of the runtime, the task
//! executor, the reactive values, the strings and the memory layouts that the Qt side
//! relies on, with its behaviour stated in contracts.
#![allow(unused_imports)]

pub mod executor;
pub mod mem;
pub mod reactive;
pub mod runtime;
pub mod string;
pub mod windows;


