//! Why a request to ManiaExchange failed, and how that is told to the user.
use vstd::prelude::*;
use vstd::string::*;

verus! {

/// `reqwest::Error`, carried as an opaque value.
#[verifier::external_type_specification]
#[verifier::external_body]
pub struct ExReqwestError(reqwest::Error);

/// Why a request to ManiaExchange failed.
#[derive(Debug)]
pub enum ClientError {
    Error(String),
    Upload(String),
    Reqwest(reqwest::Error),
    HtmlParse(String),
    NoMapId,
}

/// The text `reqwest::Error` displays; the library does not describe it.
#[verifier::external_body]
fn reqwest_error_text(e: &reqwest::Error) -> String {
    e.to_string()
}

/// `m` is the message `e` is shown with; the text of a transport error
/// is left open.
pub open spec fn is_message_of(e: &ClientError, m: Seq<char>) -> bool {
    match e {
        ClientError::Error(x) => m == "Client error: "@ + x@,
        ClientError::Upload(x) => m == "Upload error: "@ + x@,
        ClientError::Reqwest(_) => exists|t: Seq<char>| m == "Reqwest error: "@ + t,
        ClientError::HtmlParse(x) => m == "Html parse error: "@ + x@,
        ClientError::NoMapId => m == "Map does not exist on Mania Exchange"@,
    }
}

impl ClientError {
    /// The message the error is shown with.
    pub fn message(&self) -> (m: String)
        ensures
            is_message_of(self, m@),
    {
        match self {
            ClientError::Error(e) => {
                let mut m = String::from_str("Client error: ");
                m.append(e.as_str());
                m
            },
            ClientError::Upload(e) => {
                let mut m = String::from_str("Upload error: ");
                m.append(e.as_str());
                m
            },
            ClientError::Reqwest(e) => {
                let mut m = String::from_str("Reqwest error: ");
                let t = reqwest_error_text(e);
                m.append(t.as_str());
                m
            },
            ClientError::HtmlParse(e) => {
                let mut m = String::from_str("Html parse error: ");
                m.append(e.as_str());
                m
            },
            ClientError::NoMapId => String::from_str("Map does not exist on Mania Exchange"),
        }
    }
}

} // verus!
