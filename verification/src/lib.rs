//! Decision logic, text handling and statistics of a news-forecasting service.
pub mod api;
pub mod article;
pub mod auth;
pub mod clock;
pub mod decimal;
pub mod feed;
pub mod judge;
pub mod llm;
pub mod market;
pub mod noise;
pub mod sources;
pub mod stats;
pub mod text;
