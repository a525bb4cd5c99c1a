//! Verified core of `tau`, the generator of a small static blog.

pub mod text;
pub mod html;
pub mod markdown;
pub mod code;
pub mod config;
pub mod dates;
pub mod feed;
pub mod order;
pub mod post;
pub mod serve;
pub mod site;
pub mod slug;
pub mod template;
