//! The protocol vocabulary: methods, statuses, errors and the request record.
use vstd::prelude::*;
use vstd::string::*;

verus! {

/// Everything that can go wrong while interpreting a request or building a status.
#[derive(Debug, Clone, Copy, PartialEq, Eq, Structural)]
pub enum HttpError {
    InvalidMethod,
    InvalidStatusCode,
    MissingMethod,
    MissingPath,
    MissingHeaderName,
    MissingHeaderValue,
}

/// The request methods this server understands.
#[derive(Debug, Clone, Copy, PartialEq, Eq, Structural)]
pub enum Method {
    Get,
    Post,
}

/// The method named by a verb token, matched exactly and case-sensitively.
pub open spec fn method_of(token: Seq<char>) -> Result<Method, HttpError> {
    if token == "GET"@ {
        Ok(Method::Get)
    } else if token == "POST"@ {
        Ok(Method::Post)
    } else {
        Err(HttpError::InvalidMethod)
    }
}

impl Method {
    /// Reads a method from its verb token; any token but `GET` or `POST` is refused.
    pub fn parse(token: &str) -> (r: Result<Method, HttpError>)
        ensures
            r == method_of(token@),
            token@ == "GET"@ ==> r == Ok::<Method, HttpError>(Method::Get),
            token@ == "POST"@ ==> r == Ok::<Method, HttpError>(Method::Post),
            token@ != "GET"@ && token@ != "POST"@ ==> r == Err::<Method, HttpError>(
                HttpError::InvalidMethod,
            ),
    {
        proof {
            reveal_strlit("GET");
            reveal_strlit("POST");
            assert("GET"@.len() != "POST"@.len());
        }
        let t = token.to_owned();
        if t == "GET".to_owned() {
            Ok(Method::Get)
        } else if t == "POST".to_owned() {
            Ok(Method::Post)
        } else {
            Err(HttpError::InvalidMethod)
        }
    }
}

/// The response statuses this server can send.
#[derive(Debug, Clone, Copy, PartialEq, Eq, Structural)]
pub enum Status {
    OK,
    NotFound,
}

/// The status for a numeric code, if it is one of the supported ones.
pub open spec fn status_of(code: u16) -> Result<Status, HttpError> {
    if code == 200 {
        Ok(Status::OK)
    } else if code == 404 {
        Ok(Status::NotFound)
    } else {
        Err(HttpError::InvalidStatusCode)
    }
}

impl Status {
    /// The code and reason phrase that follow the version in a status line.
    pub open spec fn spec_line(self) -> Seq<char> {
        match self {
            Status::OK => "200 OK"@,
            Status::NotFound => "404 Not Found"@,
        }
    }

    /// Builds the status for a numeric code; codes other than 200 and 404 are refused.
    pub fn from_code(code: u16) -> (r: Result<Status, HttpError>)
        ensures
            r == status_of(code),
    {
        if code == 200 {
            Ok(Status::OK)
        } else if code == 404 {
            Ok(Status::NotFound)
        } else {
            Err(HttpError::InvalidStatusCode)
        }
    }

    /// The canonical `<code> <reason>` text of this status.
    pub fn line(&self) -> (r: &'static str)
        ensures
            r@ == self.spec_line(),
    {
        match self {
            Status::OK => "200 OK",
            Status::NotFound => "404 Not Found",
        }
    }
}

/// A supported code becomes a status whose line carries that code and its reason;
/// every other code is refused.
pub proof fn lemma_status_code_round_trip(code: u16)
    ensures
        code == 200 ==> status_of(code) == Ok::<Status, HttpError>(Status::OK)
            && Status::OK.spec_line() == "200 OK"@,
        code == 404 ==> status_of(code) == Ok::<Status, HttpError>(Status::NotFound)
            && Status::NotFound.spec_line() == "404 Not Found"@,
        code != 200 && code != 404 ==> status_of(code) == Err::<Status, HttpError>(
            HttpError::InvalidStatusCode,
        ),
{
}


/// Header pairs as sequences of characters, in stored order.
pub open spec fn pairs_view(hs: Seq<(String, String)>) -> Seq<(Seq<char>, Seq<char>)> {
    Seq::new(hs.len(), |i: int| (hs[i].0@, hs[i].1@))
}

/// No header name occurs twice.
pub open spec fn keys_unique(hs: Seq<(Seq<char>, Seq<char>)>) -> bool {
    forall|i: int, j: int|
        0 <= i < hs.len() && 0 <= j < hs.len() && #[trigger] hs[i].0 == #[trigger] hs[j].0 ==> i
            == j
}

/// A parsed request: method, path, headers (unique names, first-seen order) and body.
#[derive(Debug, Clone, PartialEq, Eq)]
pub struct Request {
    pub method: Method,
    pub path: String,
    pub headers: Vec<(String, String)>,
    pub body: String,
}

/// The mathematical content of a request.
pub struct RequestView {
    pub method: Method,
    pub path: Seq<char>,
    pub headers: Seq<(Seq<char>, Seq<char>)>,
    pub body: Seq<char>,
}

impl View for Request {
    type V = RequestView;

    open spec fn view(&self) -> RequestView {
        RequestView {
            method: self.method,
            path: self.path@,
            headers: pairs_view(self.headers@),
            body: self.body@,
        }
    }
}

impl Request {
    /// Header names are unique.
    pub open spec fn wf(&self) -> bool {
        keys_unique(pairs_view(self.headers@))
    }
}

} // verus!
