pub mod text;
pub mod json;
pub mod model;
pub mod db;
pub mod bot;
pub mod telegram;
pub mod contract;
pub mod gateway;
pub mod management;
pub mod wait;
pub mod ingest;
pub mod delivery;
pub mod dispatch;
pub mod config;
pub mod client;
pub mod laws;
