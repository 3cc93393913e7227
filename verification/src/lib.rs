//! The content and build logic of a documentation website: dates, page
//! keys, the indices of posts and documentation pages, the table of contents
//! of the book, the route table, the sitemap, and the files that a build
//! writes. Reading files, fetching and rendering are left to the caller;
//! what is decided here is verified.

pub mod api_stats;
pub mod assoc;
pub mod book;
pub mod content;
pub mod date;
pub mod docs;
pub mod github_stats;
pub mod loader;
pub mod news;
pub mod pages;
pub mod posts;
pub mod render;
pub mod repository;
pub mod server_component;
pub mod shell;
pub mod sitemap;
pub mod sorted;
pub mod text;
