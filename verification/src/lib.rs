//! Archive a web page.
//!
//! The crate discovers the image, stylesheet and script resources a
//! parsed document refers to, stores the payloads a caller supplied
//! transport fetched for them, and rewrites a second parse of the
//! same document so that every stored resource is embedded inline:
//! images as base64 data URIs, stylesheets as `<style>` blocks,
//! scripts as inline bodies.

pub mod base64;
pub mod dom;
pub mod error;
pub mod fetch;
pub mod locator;
pub mod page_archive;
pub mod parsing;
pub mod resources;
pub mod rewrite;
mod text;

pub use dom::DomNode;
pub use dom::HtmlAttr;
pub use dom::HtmlDocument;
pub use error::Error;
pub use fetch::FetchResponse;
pub use locator::Locator;
pub use page_archive::PageArchive;
pub use resources::ImageResource;
pub use resources::Resource;
pub use resources::ResourceMap;
pub use resources::ResourceUrl;
pub use parsing::parse_resource_urls;
