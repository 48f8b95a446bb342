//! Verified core of a priority-mail service: keyword rules, inbox crawling
//! decisions, cursor pagination, per-IP rate limiting, sessions and API keys.
pub mod text;
pub mod ids;
pub mod timestamp;
pub mod codec;
pub mod secrets;
pub mod keywords;
pub mod security;
pub mod priority_mail;
pub mod notifications;
pub mod crawler;
pub mod middleware;
pub mod jwt;
pub mod auth;
pub mod api_keys;
