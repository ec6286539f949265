//! What the operations of the library are for, said of their results: every statement here speaks
//! of what a call is given and what it gives back or leaves behind.
pub mod capturing;
pub mod checking;
pub mod crossing;
pub mod injecting;
pub mod places;
pub mod plain;
pub mod probing;
pub mod saving;
pub mod serving;
pub mod sharing;
pub mod touching;
