//! The error type returned by configuration loading.
//!
//! Every failure mode is surfaced as a `ParseError` carrying an origin tag
//! (`module`) and a human-readable `message`.

use vstd::prelude::*;
use vstd::string::*;

verus! {

/// The mathematical image of a `ParseError`: its origin tag and message text.
pub struct ErrView {
    pub module: Seq<char>,
    pub message: Seq<char>,
}

/// Wraps every kind of failure that loading a configuration can produce,
/// tagged with the module the failure originated in.
#[derive(Debug)]
pub struct ParseError {
    pub module: String,
    pub message: String,
}

impl View for ParseError {
    type V = ErrView;

    open spec fn view(&self) -> ErrView {
        ErrView { module: self.module@, message: self.message@ }
    }
}

impl ParseError {
    /// Renders the error as `<module>: <message>`.
    pub fn to_string(&self) -> (r: String)
        ensures
            r@ == self.module@ + ": "@ + self.message@,
    {
        let mut r = self.module.clone();
        r.append(": ");
        r.append(self.message.as_str());
        r
    }
}

/// Declares `std::io::Error`, so that an unreadable file's error can be
/// wrapped; opaque to the verifier.
#[verifier::external_type_specification]
#[verifier::external_body]
pub struct ExIoError(std::io::Error);

impl From<std::io::Error> for ParseError {
    fn from(error: std::io::Error) -> (r: Self)
        ensures
            r.module@ == "std::io"@,
            vstd::string::to_string_from_display_ensures::<std::io::Error>(&error, r.message),
    {
        ParseError { module: "std::io".to_owned(), message: error.to_string() }
    }
}

impl vstd::std_specs::convert::FromSpecImpl<std::io::Error> for ParseError {
    // The message carries the outside error's display text, which no
    // specification pins down, so the conversion promises no functional spec;
    // the ensures on `from` above still fixes the module tag.
    open spec fn obeys_from_spec() -> bool {
        false
    }

    open spec fn from_spec(error: std::io::Error) -> ParseError {
        arbitrary()
    }
}

/// Declares `yaml_rust::ScanError`, the scanner's error for malformed YAML;
/// opaque to the verifier.
#[verifier::external_type_specification]
#[verifier::external_body]
pub struct ExScanError(yaml_rust::ScanError);

impl From<yaml_rust::ScanError> for ParseError {
    fn from(error: yaml_rust::ScanError) -> (r: Self)
        ensures
            r.module@ == "yaml_rust::scanner"@,
            vstd::string::to_string_from_display_ensures::<yaml_rust::ScanError>(&error, r.message),
    {
        ParseError { module: "yaml_rust::scanner".to_owned(), message: error.to_string() }
    }
}

impl vstd::std_specs::convert::FromSpecImpl<yaml_rust::ScanError> for ParseError {
    // As for io errors: the message is the scanner's display text.
    open spec fn obeys_from_spec() -> bool {
        false
    }

    open spec fn from_spec(error: yaml_rust::ScanError) -> ParseError {
        arbitrary()
    }
}

} // verus!
