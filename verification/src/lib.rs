//! The logic of a small job-control shell: reading command lines, keeping the tables of jobs and
//! processes, and deciding what to print, whom to give the terminal and when to read again.
pub mod cd;
pub mod command_laws;
pub mod effect;
pub mod job_laws;
pub mod launch;
pub mod line_laws;
pub mod model;
pub mod number;
pub mod number_laws;
pub mod parse;
pub mod process_laws;
pub mod reading_laws;
pub mod service;
pub mod session_laws;
pub mod shell;
pub mod start_laws;
pub mod syscall;
pub mod text;
pub mod wait;
pub mod worker;
