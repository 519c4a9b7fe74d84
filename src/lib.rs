//! Decoders for a restricted URL grammar and for `#RRGGBB` color literals.
//!
//! Every decoder takes the remaining input and returns either the decoded
//! value together with the unconsumed suffix, or a [`ParseError`] that
//! consumes nothing.
pub mod error;
pub mod lemmas;
pub mod text;
pub mod rgb;
pub mod url;

pub use error::{ErrorKind, ParseError};
pub use rgb::{from_hex, hex_primary, is_hex_digit, parse_hex, Color};
pub use url::{
    optional_fragment_id, optional_path, optional_port, optional_query, parse_fragment_id,
    parse_host, parse_path, parse_port, parse_query, parse_scheme, parse_url, FragmentId, Host,
    Path, Port, Query, Scheme, UrlView, URL,
};
