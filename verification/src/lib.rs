//! Core of a personal blog backend: cookie-backed session authentication,
//! admin-vs-anonymous access control, and the content repository it gates
//! (articles with ordered paragraphs, render-on-read, tag-filtered
//! pagination, daily view statistics and contact messages).

pub mod articles;
pub mod auth;
pub mod clock;
pub mod contacts;
pub mod errors;
pub mod gate;
pub mod paragraphs;
pub mod render;
pub mod rows;
pub mod session;
pub mod stats;
pub mod text;
