//! Verified core of a website-mirroring crawler.
//!
//! The library covers the crawl engine's logic: mapping URLs to on-disk
//! paths, discovering and rewriting links so a mirrored site is navigable
//! offline, charset detection and conversion of HTML pages, HTTP response
//! classification with retry and credential policy, and the depth, domain
//! and filter rules that decide what is visited and what is saved.
//! Network transport, disk writes and thread plumbing live outside the
//! library and hand it plain values.

pub mod charset;
pub mod css_parser;
pub mod dom;
pub mod downloader;
pub mod filters;
pub mod parser;
pub mod relpath;
pub mod response;
pub mod scraper;
pub mod strutil;
pub mod table;
pub mod url_helper;
pub mod urls;
