//! The errors of the Interaction Model messages.

use crate::text::push_text;
use crate::tlv::TlvError;
use vstd::prelude::*;

verus! {

/// The errors of building and parsing Interaction Model messages.
#[derive(Copy, Clone, Debug, PartialEq, Eq)]
#[non_exhaustive]
pub enum ImError {
    /// The bytes are no TLV.
    Codec(TlvError),
    /// The message is no anonymous structure.
    NotAStruct,
    /// A required field is absent.
    MissingField(&'static str),
    /// A field has a value of the wrong type.
    UnexpectedValue(&'static str),
    /// The answer to an invoke holds neither a command nor a status.
    EmptyInvokeResponse,
}

/// The text for each way in which bytes fail to be TLV.
pub open spec fn tlv_error_text(e: TlvError) -> Seq<char> {
    match e {
        TlvError::UnexpectedEof => "unexpected end of input"@,
        TlvError::InvalidControl(_) => "invalid control octet"@,
        TlvError::InvalidUtf8 => "invalid UTF-8"@,
        TlvError::UnclosedContainer => "unclosed container"@,
    }
}

fn tlv_text(e: TlvError) -> (text: &'static str)
    ensures
        text@ == tlv_error_text(e),
{
    match e {
        TlvError::UnexpectedEof => "unexpected end of input",
        TlvError::InvalidControl(_) => "invalid control octet",
        TlvError::InvalidUtf8 => "invalid UTF-8",
        TlvError::UnclosedContainer => "unclosed container",
    }
}

/// The text for each error.
pub open spec fn im_error_text(e: ImError) -> Seq<char> {
    match e {
        ImError::Codec(cause) => "TLV codec error: "@ + tlv_error_text(cause),
        ImError::NotAStruct => "expected anonymous structure at message root"@,
        ImError::MissingField(what) => "missing required IM field: "@ + what@,
        ImError::UnexpectedValue(what) => "unexpected TLV value for IM field: "@ + what@,
        ImError::EmptyInvokeResponse => "InvokeResponseIB had neither Command nor Status"@,
    }
}

impl ImError {
    /// The text for an operator.
    pub fn message(&self) -> (text: String)
        ensures
            text@ == im_error_text(*self),
    {
        let mut text = String::new();
        match self {
            ImError::Codec(cause) => {
                push_text(&mut text, "TLV codec error: ");
                push_text(&mut text, tlv_text(*cause));
            },
            ImError::NotAStruct => {
                push_text(&mut text, "expected anonymous structure at message root");
            },
            ImError::MissingField(what) => {
                push_text(&mut text, "missing required IM field: ");
                push_text(&mut text, what);
            },
            ImError::UnexpectedValue(what) => {
                push_text(&mut text, "unexpected TLV value for IM field: ");
                push_text(&mut text, what);
            },
            ImError::EmptyInvokeResponse => {
                push_text(&mut text, "InvokeResponseIB had neither Command nor Status");
            },
        }
        proof {
            assert(text@ =~= im_error_text(*self));
        }
        text
    }
}

} // verus!
