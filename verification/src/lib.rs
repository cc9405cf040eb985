//! Mining of lint-suppression attributes: the attribute parser, the findings
//! aggregator with its display caps, the ranker and the HTML renderer.

pub mod text;
pub mod name;
pub mod version;
pub mod lints;
pub mod source;
pub mod token;
pub mod parse;
pub mod findings;
pub mod caps;
pub mod rank;
pub mod highlight;
pub mod spanset;
pub mod render;
pub mod table;
pub mod corpus;
