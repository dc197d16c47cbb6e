//! What can go wrong, and how it is worded.

use roxmltree::Error as XmlFault;
use vstd::prelude::*;
use vstd::string::StringExecFns;

verus! {

/// `std::num::ParseIntError`, carried through as an opaque value.
#[verifier::external_type_specification]
#[verifier::external_body]
pub struct ExParseIntError(std::num::ParseIntError);

/// `roxmltree::Error`, carried through as an opaque value. It goes by the
/// name `XmlFault` here, apart from this crate's own `Error`.
#[verifier::external_type_specification]
#[verifier::external_body]
pub struct ExXmlFault(XmlFault);

/// Everything that can stop the construction of a schema model.
#[derive(Debug)]
pub enum Error {
    /// A child element that its parent does not recognise.
    UnhandledTag { parent: String, tag: String },
    /// A `final` attribute that holds no token of its kind.
    InvalidFinal,
    /// A `finalDefault` attribute that holds no token of its kind.
    InvalidFinalDefault,
    /// A `block` or `blockDefault` attribute that holds no token of its kind.
    InvalidBlockDefault,
    /// An `attributeFormDefault` or `elementFormDefault` attribute that holds
    /// no token of its kind.
    InvalidFormDefault,
    /// A `use` attribute that holds no token of its kind.
    InvalidUse,
    /// The entry path has no folder.
    InvalidRootFolder,
    /// An occurrence bound that is neither `unbounded` nor a number.
    ParseInt(std::num::ParseIntError),
    /// The markup of a document is not well-formed.
    ParseXml(XmlFault),
    /// A document without a single node.
    EmptyXml,
    /// An element lacks an attribute that it must carry.
    MissingAttribute { tag: String, attribute: String },
}

/// What an [`Error`] says, without the opaque payloads of the outside errors.
pub enum ErrorView {
    UnhandledTag { parent: Seq<char>, tag: Seq<char> },
    InvalidFinal,
    InvalidFinalDefault,
    InvalidBlockDefault,
    InvalidFormDefault,
    InvalidUse,
    InvalidRootFolder,
    ParseInt,
    ParseXml,
    EmptyXml,
    MissingAttribute { tag: Seq<char>, attribute: Seq<char> },
}

impl View for Error {
    type V = ErrorView;

    open spec fn view(&self) -> ErrorView {
        match *self {
            Error::UnhandledTag { parent, tag } => ErrorView::UnhandledTag {
                parent: parent@,
                tag: tag@,
            },
            Error::InvalidFinal => ErrorView::InvalidFinal,
            Error::InvalidFinalDefault => ErrorView::InvalidFinalDefault,
            Error::InvalidBlockDefault => ErrorView::InvalidBlockDefault,
            Error::InvalidFormDefault => ErrorView::InvalidFormDefault,
            Error::InvalidUse => ErrorView::InvalidUse,
            Error::InvalidRootFolder => ErrorView::InvalidRootFolder,
            Error::ParseInt(_) => ErrorView::ParseInt,
            Error::ParseXml(_) => ErrorView::ParseXml,
            Error::EmptyXml => ErrorView::EmptyXml,
            Error::MissingAttribute { tag, attribute } => ErrorView::MissingAttribute {
                tag: tag@,
                attribute: attribute@,
            },
        }
    }
}

/// The view of a result: the view of the value built, or of the error.
pub open spec fn outcome<T: View>(r: Result<T, Error>) -> Result<T::V, ErrorView> {
    match r {
        Ok(value) => Ok(value@),
        Err(error) => Err(error@),
    }
}

/// The fixed wording of each kind of error; `None` for the two kinds whose
/// wording comes from the outside error they wrap.
pub open spec fn fixed_description(e: ErrorView) -> Option<Seq<char>> {
    match e {
        ErrorView::UnhandledTag { .. } => Some("Unhandled tag"@),
        ErrorView::InvalidFinal => Some("Invalid final"@),
        ErrorView::InvalidFinalDefault => Some("Invalid final default"@),
        ErrorView::InvalidBlockDefault => Some("Invalid block default"@),
        ErrorView::InvalidFormDefault => Some("Invalid form default"@),
        ErrorView::InvalidUse => Some("Invalid use value"@),
        ErrorView::InvalidRootFolder => Some("Invalid root folder"@),
        ErrorView::ParseInt => None,
        ErrorView::ParseXml => None,
        ErrorView::EmptyXml => Some("Empty XML document"@),
        ErrorView::MissingAttribute { .. } => Some("Missing attribute"@),
    }
}

/// The full message of each kind of error with fixed wording: the
/// description, followed for the two kinds that name a place by that place.
pub open spec fn fixed_message(e: ErrorView) -> Option<Seq<char>> {
    match e {
        ErrorView::UnhandledTag { parent, tag } => Some(
            "Unhandled tag"@ + ": "@ + tag + " in "@ + parent,
        ),
        ErrorView::MissingAttribute { tag, attribute } => Some(
            "Missing attribute"@ + ": "@ + attribute + " in "@ + tag,
        ),
        _ => fixed_description(e),
    }
}

/// The text that `Display` of `std::num::ParseIntError` writes.
#[verifier::external_body]
fn int_error_text(e: &std::num::ParseIntError) -> String {
    format!("{}", e)
}

/// The text that `Display` of `roxmltree::Error` writes.
#[verifier::external_body]
fn xml_error_text(e: &XmlFault) -> String {
    format!("{}", e)
}

impl Error {
    /// A short description of the kind of error.
    pub fn description(&self) -> (r: String)
        ensures
            fixed_description(self@) matches Some(text) ==> r@ == text,
    {
        match self {
            Error::UnhandledTag { .. } => String::from_str("Unhandled tag"),
            Error::InvalidFinal => String::from_str("Invalid final"),
            Error::InvalidFinalDefault => String::from_str("Invalid final default"),
            Error::InvalidBlockDefault => String::from_str("Invalid block default"),
            Error::InvalidFormDefault => String::from_str("Invalid form default"),
            Error::InvalidUse => String::from_str("Invalid use value"),
            Error::InvalidRootFolder => String::from_str("Invalid root folder"),
            Error::ParseInt(e) => int_error_text(e),
            Error::ParseXml(e) => xml_error_text(e),
            Error::EmptyXml => String::from_str("Empty XML document"),
            Error::MissingAttribute { .. } => String::from_str("Missing attribute"),
        }
    }

    /// The message shown to a user.
    pub fn to_string(&self) -> (r: String)
        ensures
            fixed_message(self@) matches Some(text) ==> r@ == text,
    {
        let mut out = self.description();
        match self {
            Error::UnhandledTag { parent, tag } => {
                out.append(": ");
                out.append(tag.as_str());
                out.append(" in ");
                out.append(parent.as_str());
            },
            Error::MissingAttribute { tag, attribute } => {
                out.append(": ");
                out.append(attribute.as_str());
                out.append(" in ");
                out.append(tag.as_str());
            },
            _ => {},
        }
        out
    }
}

} // verus!
