//! The status part that every game API response carries.
use crate::text::str_equals;
use vstd::prelude::*;

verus! {

/// The status of a response.
#[derive(Debug)]
pub struct Status {
    pub status: String,
    pub error: Option<ErrorDetail>,
}

/// An error that the API reports: either a plain message or a record.
#[derive(Debug, Clone)]
pub struct ErrorDetail {
    pub code: u16,
    pub message: String,
    pub field: Option<String>,
    pub value: Option<String>,
}

/// The message when the API gives no error detail.
pub open spec fn unknown_error_text() -> Seq<char> {
    seq!['U', 'n', 'k', 'n', 'o', 'w', 'n', ' ', 'E', 'r', 'r', 'o', 'r']
}

impl Status {
    /// True if the status is `"ok"`.
    pub fn ok(&self) -> (r: bool)
        ensures
            r == (self.status@ == seq!['o', 'k']),
    {
        proof {
            reveal_strlit("ok");
            assert("ok"@ =~= seq!['o', 'k']);
        }
        str_equals(self.status.as_str(), "ok")
    }

    /// The error message, or `"Unknown Error"` when there is none.
    pub fn err_msg(self) -> (r: String)
        ensures
            self.error matches Some(e) ==> r@ == e.message@,
            self.error is None ==> r@ == unknown_error_text(),
    {
        proof {
            reveal_strlit("Unknown Error");
            assert("Unknown Error"@ =~= unknown_error_text());
        }
        match self.error {
            Some(e) => e.message,
            None => String::from_str("Unknown Error"),
        }
    }
}

impl ErrorDetail {
    /// The error when the API sends a plain string: code 0 and the string as message.
    pub fn from_text(value: &str) -> (r: ErrorDetail)
        ensures
            r.code == 0,
            r.message@ == value@,
            r.field is None,
            r.value is None,
    {
        ErrorDetail { code: 0, message: String::from_str(value), field: None, value: None }
    }

    /// The error when the API sends a record: missing code is 0, missing message empty.
    pub fn from_parts(
        code: Option<u16>,
        message: Option<String>,
        field: Option<String>,
        value: Option<String>,
    ) -> (r: ErrorDetail)
        ensures
            r.code == match code {
                Some(c) => c,
                None => 0,
            },
            message matches Some(m) ==> r.message@ == m@,
            message is None ==> r.message@ == Seq::<char>::empty(),
            r.field == field,
            r.value == value,
    {
        let code = match code {
            Some(c) => c,
            None => 0,
        };
        let message = match message {
            Some(m) => m,
            None => String::new(),
        };
        ErrorDetail { code, message, field, value }
    }
}

} // verus!
