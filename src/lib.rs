//! Harvesting a public course catalog: entity decoding and tag stripping,
//! department discovery, course block extraction, header parsing, the
//! bookkeeping of a crawl, and its tab-separated output. Also a
//! percent-encoder for search queries.
pub mod text;
pub mod markup;
pub mod scan;
pub mod header;
pub mod blocks;
pub mod index;
pub mod crawl;
pub mod tsv;
pub mod url;
