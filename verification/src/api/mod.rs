pub mod contract;
pub mod problem_details;
