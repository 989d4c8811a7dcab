//! The XPDE shell's web objects, desktop entries and federated search, as a
//! verified library.
pub mod apps;
pub mod cache;
pub mod desktop;
pub mod feed;
pub mod feedscan;
pub mod index;
pub mod ipc;
pub mod paths;
pub mod pin;
pub mod probe;
pub mod search;
pub mod shell;
pub mod sitemap;
pub mod sort;
pub mod store;
pub mod text;
pub mod tree;
pub mod web;
pub mod weburl;
