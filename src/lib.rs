//! An image catalog with search, sorting and paging, the path rules that
//! place compressed files, and the decisions of a pausable, cancellable
//! compression job.
pub mod app_data;
pub mod catalog;
pub mod compress;
pub mod digest;
pub mod image;
pub mod indexed;
pub mod options;
pub mod paths;
pub mod scan;
pub mod scheduler;
pub mod text;
