//! blogworm: finds the newest posts of a list of security blogs.
//!
//! The library reads the links that a blog's front page lists and the
//! title, author, content and time that a post page shows, makes the links
//! absolute, keeps the timestamp of the last run, and picks out the posts
//! created since then. Fetching pages, the command line and saving the
//! result are left to the program that uses it.

pub mod calendar;
pub mod config;
pub mod decimal;
pub mod html;
pub mod links;
pub mod posts;
pub mod run;
pub mod sources;
pub mod text;
pub mod time;
