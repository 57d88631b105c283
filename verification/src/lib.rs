pub mod api;
pub mod config;
pub mod decimal;
pub mod domain;
pub mod extract_service;
