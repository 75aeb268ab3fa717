//! The failures that writing and reading can end in.

use vstd::prelude::*;

use crate::event::opt_text;

verus! {

/// Failure of the underlying event reader, carried through unchanged.
#[verifier::external_type_specification]
#[verifier::external_body]
pub struct ExReaderError(xml::reader::Error);

/// Failure of the underlying event writer, carried through unchanged.
#[verifier::external_type_specification]
#[verifier::external_body]
pub struct ExWriterError(xml::writer::Error);

/// Why a value could not be written.
#[derive(Debug)]
#[non_exhaustive]
pub enum XmlWriteError {
    /// The event writer refused an event while the element `element` was
    /// being written.
    XmlElementWriteError { error: xml::writer::Error, element: String },
}

impl XmlWriteError {
    /// The tag of the element that was being written.
    pub open spec fn element(self) -> Seq<char> {
        match self {
            XmlWriteError::XmlElementWriteError { element, .. } => element@,
        }
    }

    /// The failure of the event writer that is reported.
    pub open spec fn source(self) -> xml::writer::Error {
        match self {
            XmlWriteError::XmlElementWriteError { error, .. } => error,
        }
    }
}

/// Why a document could not be read.
#[derive(Debug, PartialEq)]
#[non_exhaustive]
#[allow(inconsistent_fields)]
pub enum XmlReadError {
    /// The event reader itself failed while `element` was being read.
    ElementReadError { error: xml::reader::Error, element: String },
    /// An event arrived where the grammar of `element` does not allow it;
    /// `error` describes the event.
    UnexpectedElementReadError { error: String, element: String },
    /// `element` closed before `required_field` was seen.
    RequiredDataMissing { required_field: String, element: String },
    /// The text `value` of `element` is not of the type `data_type`.
    InvalidParseError { value: String, data_type: String, element: String },
    /// The document is in another namespace than the expected one.
    InvalidNamespaceError { expected_namespace: String, actual_namespace: Option<String> },
}

/// Mathematical model of an [`XmlReadError`].
#[allow(inconsistent_fields)]
pub enum XmlReadErrorView {
    ElementReadError { error: xml::reader::Error, element: Seq<char> },
    UnexpectedElementReadError { error: Seq<char>, element: Seq<char> },
    RequiredDataMissing { required_field: Seq<char>, element: Seq<char> },
    InvalidParseError { value: Seq<char>, data_type: Seq<char>, element: Seq<char> },
    InvalidNamespaceError { expected_namespace: Seq<char>, actual_namespace: Option<Seq<char>> },
}

impl View for XmlReadError {
    type V = XmlReadErrorView;

    open spec fn view(&self) -> XmlReadErrorView {
        match self {
            XmlReadError::ElementReadError { error, element } => XmlReadErrorView::ElementReadError {
                error: *error,
                element: element@,
            },
            XmlReadError::UnexpectedElementReadError {
                error,
                element,
            } => XmlReadErrorView::UnexpectedElementReadError { error: error@, element: element@ },
            XmlReadError::RequiredDataMissing {
                required_field,
                element,
            } => XmlReadErrorView::RequiredDataMissing {
                required_field: required_field@,
                element: element@,
            },
            XmlReadError::InvalidParseError {
                value,
                data_type,
                element,
            } => XmlReadErrorView::InvalidParseError {
                value: value@,
                data_type: data_type@,
                element: element@,
            },
            XmlReadError::InvalidNamespaceError {
                expected_namespace,
                actual_namespace,
            } => XmlReadErrorView::InvalidNamespaceError {
                expected_namespace: expected_namespace@,
                actual_namespace: opt_text(*actual_namespace),
            },
        }
    }
}

} // verus!
