//! A library to download (and cache) fonts with the Fontsource REST API:
//! query normalization, variant selection, `@font-face` synthesis and the
//! cache decisions, each with a verified contract.

pub mod api;
pub mod caching;
pub mod error;
pub mod keyed;
pub mod query;
pub mod responses;
pub mod text;

pub use caching::{FamilyCacheInfo, FontListCacheInfo};
pub use error::FontSourceError;
pub use query::{FontFileType, FontQuery, QueryBuilder, Weight};
pub use responses::{css_url_map, FontSourceFamily};
