//! A static documentation site generator: metadata headers, wiki links,
//! backlinks, navigation trees and page rendering.

pub mod text;
pub mod paths;
pub mod frontmatter;
pub mod content;
pub mod navigation;
pub mod backlinks;
pub mod templates;
pub mod site;
pub mod live;
pub mod cli;
pub mod export;
pub mod homes;
