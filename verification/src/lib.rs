//! The build engine of a small static site generator: template tag
//! resolution, staleness tracking, per-post orchestration and the post index.

pub mod calendar;
pub mod clock;
pub mod config;
pub mod index;
pub mod markdown;
pub mod post;
pub mod site;
pub mod staleness;
pub mod template;
pub mod text;
