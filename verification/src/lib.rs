pub mod algebra;
pub mod ast;
pub mod constraint_list;
pub mod constraint_writers;
pub mod dag;
pub mod decimal;
pub mod program_archive;
pub mod report;
pub mod strings;
pub mod type_analysis;
