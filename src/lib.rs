//! Splits a URL string into scheme, host, port, path and query.

mod grammar;
mod laws;
mod scan;
mod url;

pub use grammar::{parse_spec, ErrorKind, UrlParts};
pub use laws::{
    assemble, fits_full_form, fits_host, is_host_char, lemma_reparse_stable, lemma_round_trip,
    lowered,
};
pub use url::{parse_url, Url, UrlError};
