use vstd::prelude::*;
use vstd::string::StringExecFns;

verus! {

/// A caller, known by an opaque identifier.
#[derive(Clone, Debug, Hash, PartialEq, Eq)]
pub struct User {
    pub id: String,
}

impl User {
    pub fn new(id: String) -> (r: User)
        ensures
            r.id@ == id@,
    {
        User { id }
    }

    /// The UTF-8 bytes of the identifier.
    pub open spec fn id_bytes(&self) -> Seq<u8> {
        vstd::utf8::encode_utf8(self.id@)
    }
}

/// The body of an answer that refuses a request.
pub struct ErrorResponse {
    pub error: String,
    pub message: String,
}

impl ErrorResponse {
    /// No header names the user.
    pub fn missing_auth_header() -> (r: ErrorResponse)
        ensures
            r.error@ == "Missing authentification header"@,
            r.message@
                == "You must specify a user ID through any of the following headers: [\"X-User\", \"X-Forwarded-User\"]."@,
    {
        ErrorResponse {
            error: "Missing authentification header".to_owned(),
            message: "You must specify a user ID through any of the following headers: [\"X-User\", \"X-Forwarded-User\"].".to_owned(),
        }
    }

    /// The header that names the user does not hold UTF-8 text; `detail`
    /// says why.
    pub fn invalid_id(detail: &str) -> (r: ErrorResponse)
        ensures
            r.error@ == "User ID is not well formatted: "@ + detail@,
            r.message@ == "The user ID must be a valid UTF-8 string"@,
    {
        let mut error = "User ID is not well formatted: ".to_owned();
        error.append(detail);
        ErrorResponse { error, message: "The user ID must be a valid UTF-8 string".to_owned() }
    }
}

} // verus!
