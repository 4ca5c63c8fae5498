//! Verified core of the HW-Riddler network tool.
pub mod capture;
pub mod config;
pub mod cookie_manager;
pub mod headers;
pub mod http_client;
pub mod logger;
pub mod monitor;
pub mod network;
pub mod packet;
pub mod performance_analyzer;
pub mod proxy;
pub mod proxy_config;
pub mod replay;
pub mod text;
