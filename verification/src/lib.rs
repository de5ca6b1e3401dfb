//! Verified core of a multi-language runtime version manager: a canonical
//! version model with semantic-version precedence, catalog normalization for
//! several upstream source formats, version resolution with exact-match
//! precedence, package selection, and the decision logic of the
//! download/verify/extract/install pipeline and of the current-version link
//! operations.

pub mod appdir;
pub mod assoc;
pub mod checksum;
pub mod config;
pub mod corretto;
pub mod golang;
pub mod htmlsel;
pub mod install;
pub mod java;
pub mod jsonval;
pub mod language;
pub mod node;
pub mod openjdk;
pub mod linkops;
pub mod parse;
pub mod prepare;
pub mod resolver;
pub mod strutil;
pub mod version;
