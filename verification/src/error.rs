//! The errors of parsing, writing and resolving LDraw files.

use vstd::prelude::*;

verus! {

#[verifier::external_type_specification]
#[verifier::external_body]
pub struct ExIoError(std::io::Error);

/// What went wrong on one line of LDraw text.
#[derive(Debug)]
pub enum ParseError {
    TypeMismatch(&'static str, String),
    IoError(Box<std::io::Error>),
    EndOfLine,
    InvalidBfcStatement(String),
    InvalidDocumentStructure,
    UnexpectedCommand(String),
    InvalidToken(String),
    MultipartDocument,
}

/// A parse error as the model sees it (an I/O error carries nothing).
pub enum SpecParseError {
    TypeMismatch(Seq<char>, Seq<char>),
    IoError,
    EndOfLine,
    InvalidBfcStatement(Seq<char>),
    InvalidDocumentStructure,
    UnexpectedCommand(Seq<char>),
    InvalidToken(Seq<char>),
    MultipartDocument,
}

impl View for ParseError {
    type V = SpecParseError;

    open spec fn view(&self) -> SpecParseError {
        match self {
            ParseError::TypeMismatch(t, v) => SpecParseError::TypeMismatch(t@, v@),
            ParseError::IoError(_) => SpecParseError::IoError,
            ParseError::EndOfLine => SpecParseError::EndOfLine,
            ParseError::InvalidBfcStatement(s) => SpecParseError::InvalidBfcStatement(s@),
            ParseError::InvalidDocumentStructure => SpecParseError::InvalidDocumentStructure,
            ParseError::UnexpectedCommand(s) => SpecParseError::UnexpectedCommand(s@),
            ParseError::InvalidToken(s) => SpecParseError::InvalidToken(s@),
            ParseError::MultipartDocument => SpecParseError::MultipartDocument,
        }
    }
}

/// A parse error with the (1-based) number of the line it was found on.
#[derive(Debug)]
pub struct DocumentParseError {
    pub line: usize,
    pub error: ParseError,
}

pub struct SpecDocumentParseError {
    pub line: nat,
    pub error: SpecParseError,
}

impl View for DocumentParseError {
    type V = SpecDocumentParseError;

    open spec fn view(&self) -> SpecDocumentParseError {
        SpecDocumentParseError { line: self.line as nat, error: self.error@ }
    }
}

/// What went wrong reading a colour definition file.
#[derive(Debug)]
pub enum ColorDefinitionParseError {
    ParseError(ParseError),
    DocumentParseError(DocumentParseError),
    UnknownMaterial(String),
}

pub enum SpecColorDefinitionParseError {
    ParseError(SpecParseError),
    DocumentParseError(SpecDocumentParseError),
    UnknownMaterial(Seq<char>),
}

impl View for ColorDefinitionParseError {
    type V = SpecColorDefinitionParseError;

    open spec fn view(&self) -> SpecColorDefinitionParseError {
        match self {
            ColorDefinitionParseError::ParseError(e) => SpecColorDefinitionParseError::ParseError(e@),
            ColorDefinitionParseError::DocumentParseError(e) => SpecColorDefinitionParseError::DocumentParseError(e@),
            ColorDefinitionParseError::UnknownMaterial(s) => SpecColorDefinitionParseError::UnknownMaterial(s@),
        }
    }
}

/// What went wrong writing LDraw text.
#[derive(Debug)]
pub enum SerializeError {
    NoSerializable,
    IoError(Box<std::io::Error>),
}

/// The error of a remote fetch (the build without HTTP support carries none).
#[derive(Debug)]
pub struct ReqwestError;

/// What went wrong finding and loading a part.
#[derive(Debug)]
pub enum ResolutionError {
    NoLDrawDir,
    FileNotFound,
    IoError(Box<std::io::Error>),
    DocumentParseError(DocumentParseError),
    ColorDefinitionParseError(ColorDefinitionParseError),
    RemoteError(ReqwestError),
}

/// The message that `std::io::Error` displays (it comes from the operating
/// system, so nothing is promised of it).
#[verifier::external_body]
fn io_error_message(e: &std::io::Error) -> String {
    format!("{}", e)
}

/// `s` followed by `t`.
fn concat(s: String, t: &str) -> (r: String)
    ensures
        r@ == s@ + t@,
{
    let mut s = s;
    s.append(t);
    s
}

/// The message of a parse error other than an I/O error.
pub open spec fn parse_error_message(e: SpecParseError) -> Seq<char> {
    match e {
        SpecParseError::TypeMismatch(t, v) => "Error reading value '"@ + v + "' into "@ + t,
        SpecParseError::EndOfLine => "End of line"@,
        SpecParseError::InvalidBfcStatement(s) => "Invalid BFC statement: "@ + s,
        SpecParseError::InvalidDocumentStructure => "Invalid document structure."@,
        SpecParseError::UnexpectedCommand(s) => "Unexpected command: "@ + s,
        SpecParseError::InvalidToken(s) => "Invalid token: "@ + s,
        SpecParseError::MultipartDocument => "Unexpected multipart document."@,
        SpecParseError::IoError => Seq::empty(),
    }
}

impl ParseError {
    /// The message that describes the error (its `Display`); that of an I/O
    /// error is the operating system's.
    pub fn message(&self) -> (r: String)
        ensures
            self@ !is IoError ==> r@ == parse_error_message(self@),
    {
        match self {
            ParseError::TypeMismatch(type_, val) => {
                let r = concat(String::from_str("Error reading value '"), val.as_str());
                let r = concat(r, "' into ");
                concat(r, type_)
            },
            ParseError::IoError(err) => io_error_message(err),
            ParseError::EndOfLine => String::from_str("End of line"),
            ParseError::InvalidBfcStatement(stmt) => concat(
                String::from_str("Invalid BFC statement: "),
                stmt.as_str(),
            ),
            ParseError::InvalidDocumentStructure => String::from_str("Invalid document structure."),
            ParseError::UnexpectedCommand(cmd) => concat(
                String::from_str("Unexpected command: "),
                cmd.as_str(),
            ),
            ParseError::InvalidToken(token) => concat(String::from_str("Invalid token: "), token.as_str()),
            ParseError::MultipartDocument => String::from_str("Unexpected multipart document."),
        }
    }
}

impl DocumentParseError {
    /// The message that describes the error (its `Display`): that of the
    /// parse error and the line number.
    pub fn message(&self) -> (r: String)
        ensures
            self.error@ !is IoError ==> r@ == parse_error_message(self.error@) + " (at line "@
                + crate::number::decimal(self.line as nat) + ")"@,
    {
        let mut r = concat(self.error.message(), " (at line ");
        crate::number::push_decimal(&mut r, self.line as u64);
        concat(r, ")")
    }
}

impl ColorDefinitionParseError {
    /// The message that describes the error (its `Display`).
    pub fn message(&self) -> (r: String)
        ensures
            match self@ {
                SpecColorDefinitionParseError::ParseError(e) => e !is IoError ==> r@ == parse_error_message(e),
                SpecColorDefinitionParseError::DocumentParseError(e) => e.error !is IoError ==> r@
                    == parse_error_message(e.error) + " (at line "@ + crate::number::decimal(e.line)
                    + ")"@,
                SpecColorDefinitionParseError::UnknownMaterial(m) => r@ == "Unknown material: "@ + m,
            },
    {
        match self {
            ColorDefinitionParseError::ParseError(e) => e.message(),
            ColorDefinitionParseError::DocumentParseError(e) => e.message(),
            ColorDefinitionParseError::UnknownMaterial(e) => concat(
                String::from_str("Unknown material: "),
                e.as_str(),
            ),
        }
    }
}

impl SerializeError {
    /// The message that describes the error (its `Display`).
    pub fn message(&self) -> (r: String)
        ensures
            self is NoSerializable ==> r@ == "Statement is not serializable."@,
    {
        match self {
            SerializeError::NoSerializable => String::from_str("Statement is not serializable."),
            SerializeError::IoError(err) => io_error_message(err),
        }
    }
}

impl From<DocumentParseError> for ColorDefinitionParseError {
    fn from(e: DocumentParseError) -> (res: Self) {
        ColorDefinitionParseError::DocumentParseError(e)
    }
}

impl vstd::std_specs::convert::FromSpecImpl<DocumentParseError> for ColorDefinitionParseError {
    open spec fn obeys_from_spec() -> bool {
        true
    }

    open spec fn from_spec(e: DocumentParseError) -> Self {
        ColorDefinitionParseError::DocumentParseError(e)
    }
}

impl From<ParseError> for ColorDefinitionParseError {
    fn from(e: ParseError) -> (res: Self) {
        ColorDefinitionParseError::ParseError(e)
    }
}

impl vstd::std_specs::convert::FromSpecImpl<ParseError> for ColorDefinitionParseError {
    open spec fn obeys_from_spec() -> bool {
        true
    }

    open spec fn from_spec(e: ParseError) -> Self {
        ColorDefinitionParseError::ParseError(e)
    }
}

impl From<DocumentParseError> for ResolutionError {
    fn from(e: DocumentParseError) -> (res: Self) {
        ResolutionError::DocumentParseError(e)
    }
}

impl vstd::std_specs::convert::FromSpecImpl<DocumentParseError> for ResolutionError {
    open spec fn obeys_from_spec() -> bool {
        true
    }

    open spec fn from_spec(e: DocumentParseError) -> Self {
        ResolutionError::DocumentParseError(e)
    }
}

impl From<ColorDefinitionParseError> for ResolutionError {
    fn from(e: ColorDefinitionParseError) -> (res: Self) {
        ResolutionError::ColorDefinitionParseError(e)
    }
}

impl vstd::std_specs::convert::FromSpecImpl<ColorDefinitionParseError> for ResolutionError {
    open spec fn obeys_from_spec() -> bool {
        true
    }

    open spec fn from_spec(e: ColorDefinitionParseError) -> Self {
        ResolutionError::ColorDefinitionParseError(e)
    }
}

impl From<ReqwestError> for ResolutionError {
    fn from(e: ReqwestError) -> (res: Self) {
        ResolutionError::RemoteError(e)
    }
}

impl vstd::std_specs::convert::FromSpecImpl<ReqwestError> for ResolutionError {
    open spec fn obeys_from_spec() -> bool {
        true
    }

    open spec fn from_spec(e: ReqwestError) -> Self {
        ResolutionError::RemoteError(e)
    }
}

impl From<std::io::Error> for ParseError {
    fn from(e: std::io::Error) -> (res: Self) {
        ParseError::IoError(Box::new(e))
    }
}

impl vstd::std_specs::convert::FromSpecImpl<std::io::Error> for ParseError {
    open spec fn obeys_from_spec() -> bool {
        true
    }

    open spec fn from_spec(e: std::io::Error) -> Self {
        ParseError::IoError(Box::new(e))
    }
}

impl From<std::io::Error> for SerializeError {
    fn from(e: std::io::Error) -> (res: Self) {
        SerializeError::IoError(Box::new(e))
    }
}

impl vstd::std_specs::convert::FromSpecImpl<std::io::Error> for SerializeError {
    open spec fn obeys_from_spec() -> bool {
        true
    }

    open spec fn from_spec(e: std::io::Error) -> Self {
        SerializeError::IoError(Box::new(e))
    }
}

impl From<std::io::Error> for ResolutionError {
    fn from(e: std::io::Error) -> (res: Self) {
        ResolutionError::IoError(Box::new(e))
    }
}

impl vstd::std_specs::convert::FromSpecImpl<std::io::Error> for ResolutionError {
    open spec fn obeys_from_spec() -> bool {
        true
    }

    open spec fn from_spec(e: std::io::Error) -> Self {
        ResolutionError::IoError(Box::new(e))
    }
}

} // verus!
