//! The editor's command protocol: the closed set of operations the buffer
//! registry executes.

pub mod editor;
