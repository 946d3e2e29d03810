//! A build-time engine for generating a static web site: a renderable tree of
//! HTML nodes with layout-aware serialization, a route table that assigns each
//! document a unique output path and resolves minimal relative links, and a
//! style registry that deduplicates CSS rules in first-registration order.

pub mod blog_post;
pub mod category;
pub mod component;
pub mod context;
pub mod css;
pub mod dates;
pub mod escape;
pub mod html;
pub mod render;
pub mod resource;
pub mod routes;
pub mod strutil;
pub mod tables;
pub mod util;
pub mod website;
