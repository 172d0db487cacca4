use vstd::prelude::*;

use crate::text::{decimal_digits, push_decimal, push_text, string_from_chars};

verus! {

/// What can go wrong while a catalog entry is enriched.
#[derive(Debug, Clone)]
pub enum Error {
    Unknown,
    Generic(String),
    Checksum(String, String),
    UnknownGenre(String),
    ParseError(String),
    /// The search gave no acceptable candidate; the best loss seen, if any.
    NotFound(Option<u64>),
    YoutubeDL(String),
    FFMPEG(String),
}

/// The text that describes an error.
pub open spec fn error_message(e: Error) -> Seq<char> {
    match e {
        Error::Unknown => "unknown"@,
        Error::Generic(s) => s@,
        Error::Checksum(a, b) => "mismatched checksum: '"@ + a@ + "' != '"@ + b@ + "'"@,
        Error::UnknownGenre(t) => "unknown genre: '"@ + t@ + "'"@,
        Error::ParseError(s) => "failed to parse: '"@ + s@ + "'"@,
        Error::NotFound(Some(l)) => "movie search found no result with loss = "@ + decimal_digits(l as nat),
        Error::NotFound(None) => "movie search found no result"@,
        Error::YoutubeDL(s) => s@,
        Error::FFMPEG(s) => s@,
    }
}

impl Error {
    /// The text that describes the error.
    pub fn message(&self) -> (r: String)
        ensures
            r@ == error_message(*self),
    {
        let mut out: Vec<char> = Vec::new();
        match self {
            Error::Unknown => push_text(&mut out, "unknown"),
            Error::Generic(s) => push_text(&mut out, s.as_str()),
            Error::Checksum(a, b) => {
                push_text(&mut out, "mismatched checksum: '");
                push_text(&mut out, a.as_str());
                push_text(&mut out, "' != '");
                push_text(&mut out, b.as_str());
                push_text(&mut out, "'");
            },
            Error::UnknownGenre(t) => {
                push_text(&mut out, "unknown genre: '");
                push_text(&mut out, t.as_str());
                push_text(&mut out, "'");
            },
            Error::ParseError(s) => {
                push_text(&mut out, "failed to parse: '");
                push_text(&mut out, s.as_str());
                push_text(&mut out, "'");
            },
            Error::NotFound(Some(l)) => {
                push_text(&mut out, "movie search found no result with loss = ");
                push_decimal(&mut out, *l);
            },
            Error::NotFound(None) => push_text(&mut out, "movie search found no result"),
            Error::YoutubeDL(s) => push_text(&mut out, s.as_str()),
            Error::FFMPEG(s) => push_text(&mut out, s.as_str()),
        }
        proof {
            assert(out@ =~= Seq::<char>::empty() + error_message(*self));
        }
        string_from_chars(&out)
    }
}

} // verus!
