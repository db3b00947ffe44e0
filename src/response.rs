//! The response model and its serialization to wire text.
use vstd::prelude::*;
use vstd::string::*;
use vstd::utf8::encode_utf8;
use crate::wire::{Status, keys_unique, pairs_view};

verus! {

#[verifier::external_type_specification]
#[verifier::external_body]
pub struct ExValue(serde_json::Value);

/// The compact JSON text of a value.
pub uninterp spec fn json_of(v: serde_json::Value) -> Seq<char>;

/// A response: status, headers in the order they are written, and body bytes.
#[derive(Debug, Clone, PartialEq, Eq)]
pub struct Response {
    pub status: Status,
    pub headers: Vec<(String, String)>,
    pub body: Vec<u8>,
}

/// The mathematical content of a response.
pub struct ResponseView {
    pub status: Status,
    pub headers: Seq<(Seq<char>, Seq<char>)>,
    pub body: Seq<u8>,
}

impl Response {
    /// Header names are unique.
    pub open spec fn wf(&self) -> bool {
        keys_unique(pairs_view(self.headers@))
    }
}

impl View for Response {
    type V = ResponseView;

    open spec fn view(&self) -> ResponseView {
        ResponseView { status: self.status, headers: pairs_view(self.headers@), body: self.body@ }
    }
}

/// The decimal digit for `d < 10`.
pub open spec fn digit_char(d: nat) -> char {
    if d == 0 {
        '0'
    } else if d == 1 {
        '1'
    } else if d == 2 {
        '2'
    } else if d == 3 {
        '3'
    } else if d == 4 {
        '4'
    } else if d == 5 {
        '5'
    } else if d == 6 {
        '6'
    } else if d == 7 {
        '7'
    } else if d == 8 {
        '8'
    } else {
        '9'
    }
}

/// The decimal notation of `n`, without leading zeros.
pub open spec fn dec(n: nat) -> Seq<char>
    decreases n,
{
    if n < 10 {
        seq![digit_char(n)]
    } else {
        dec(n / 10).push(digit_char(n % 10))
    }
}

/// One `name: value\r\n` line for each header, in order.
pub open spec fn header_lines(hs: Seq<(Seq<char>, Seq<char>)>) -> Seq<char>
    decreases hs.len(),
{
    if hs.len() == 0 {
        Seq::empty()
    } else {
        header_lines(hs.drop_last()) + hs.last().0 + ": "@ + hs.last().1 + "\r\n"@
    }
}

/// The status line, the header lines and the blank line that ends them.
pub open spec fn head_text(status: Status, hs: Seq<(Seq<char>, Seq<char>)>) -> Seq<char> {
    "HTTP/1.1 "@ + status.spec_line() + "\r\n"@ + header_lines(hs) + "\r\n"@
}

/// The response that carries `text` as a body of media type `mime`.
pub open spec fn text_response(status: Status, mime: Seq<char>, text: Seq<char>) -> ResponseView {
    ResponseView {
        status,
        headers: seq![
            ("Content-Type"@, mime),
            ("Content-Length"@, dec(encode_utf8(text).len())),
        ],
        body: encode_utf8(text),
    }
}

fn digit_str(d: usize) -> (r: &'static str)
    requires
        d < 10,
    ensures
        r@ == seq![digit_char(d as nat)],
{
    proof {
        reveal_strlit("0");
        reveal_strlit("1");
        reveal_strlit("2");
        reveal_strlit("3");
        reveal_strlit("4");
        reveal_strlit("5");
        reveal_strlit("6");
        reveal_strlit("7");
        reveal_strlit("8");
        reveal_strlit("9");
    }
    let r = if d == 0 {
        "0"
    } else if d == 1 {
        "1"
    } else if d == 2 {
        "2"
    } else if d == 3 {
        "3"
    } else if d == 4 {
        "4"
    } else if d == 5 {
        "5"
    } else if d == 6 {
        "6"
    } else if d == 7 {
        "7"
    } else if d == 8 {
        "8"
    } else {
        "9"
    };
    assert(r@ =~= seq![digit_char(d as nat)]);
    r
}

fn decimal(n: usize) -> (r: String)
    ensures
        r@ == dec(n as nat),
    decreases n,
{
    if n < 10 {
        digit_str(n).to_owned()
    } else {
        let mut s = decimal(n / 10);
        let d = digit_str(n % 10);
        s.append(d);
        assert(s@ =~= dec(n as nat));
        s
    }
}

impl Response {
    /// The status line and header block, up to and including the blank line.
    pub fn status_and_headers(&self) -> (r: String)
        ensures
            r@ == head_text(self.status, pairs_view(self.headers@)),
    {
        let ghost hs = pairs_view(self.headers@);
        let mut s = "HTTP/1.1 ".to_owned();
        s.append(self.status.line());
        s.append("\r\n");
        let ghost start = s@;
        let mut i: usize = 0;
        while i < self.headers.len()
            invariant
                i <= self.headers@.len(),
                hs == pairs_view(self.headers@),
                start == "HTTP/1.1 "@ + self.status.spec_line() + "\r\n"@,
                s@ == start + header_lines(hs.take(i as int)),
            decreases self.headers@.len() - i,
        {
            s.append(self.headers[i].0.as_str());
            s.append(": ");
            s.append(self.headers[i].1.as_str());
            s.append("\r\n");
            proof {
                let t = hs.take(i + 1);
                assert(t.drop_last() =~= hs.take(i as int));
                assert(s@ =~= start + header_lines(t));
            }
            i = i + 1;
        }
        s.append("\r\n");
        proof {
            assert(hs.take(i as int) =~= hs);
            assert(s@ =~= head_text(self.status, hs));
        }
        s
    }

    /// A response whose body is `data` as UTF-8, with `Content-Type` set to
    /// `mime` and `Content-Length` to the body's length in bytes.
    pub fn from_string(status: Status, mime: &str, data: String) -> (r: Response)
        ensures
            r@ == text_response(status, mime@, data@),
            r.wf(),
    {
        proof {
            reveal_strlit("Content-Type");
            reveal_strlit("Content-Length");
        }
        let bytes = data.as_str().as_bytes_vec();
        let length = decimal(bytes.len());
        let mut headers: Vec<(String, String)> = Vec::new();
        headers.push(("Content-Type".to_owned(), mime.to_owned()));
        headers.push(("Content-Length".to_owned(), length));
        let r = Response { status, headers, body: bytes };
        assert(r@.headers =~= text_response(status, mime@, data@).headers);
        assert("Content-Type"@.len() != "Content-Length"@.len());
        r
    }

    /// A response whose body is the compact JSON text of `data`, with media
    /// type `application/json`.
    pub fn from_json(status: Status, data: serde_json::Value) -> (r: Response)
        ensures
            r@ == text_response(status, "application/json"@, json_of(data)),
            r.wf(),
    {
        let mime = application_json();
        let text = json_text(&data);
        let r = Response::from_string(status, mime.as_str(), text);
        r
    }
}

/// Relies on `mime::APPLICATION_JSON`, whose text form is `application/json`.
#[verifier::external_body]
fn application_json() -> (r: String)
    ensures
        r@ == "application/json"@,
{
    mime::APPLICATION_JSON.to_string()
}

/// Relies on `serde_json::Value`'s `Display`, which writes compact JSON text
/// that depends on the value alone.
#[verifier::external_body]
fn json_text(v: &serde_json::Value) -> (r: String)
    ensures
        r@ == json_of(*v),
{
    v.to_string()
}

/// The head of a text response names its media type and the exact byte length
/// of its body, after the status line.
pub proof fn lemma_text_response_head(status: Status, mime: Seq<char>, text: Seq<char>)
    ensures
        head_text(status, text_response(status, mime, text).headers) == "HTTP/1.1 "@
            + status.spec_line() + "\r\n"@ + "Content-Type"@ + ": "@ + mime + "\r\n"@
            + "Content-Length"@ + ": "@ + dec(encode_utf8(text).len()) + "\r\n"@ + "\r\n"@,
{
    let hs = text_response(status, mime, text).headers;
    assert(hs.drop_last().drop_last() =~= Seq::<(Seq<char>, Seq<char>)>::empty());
    assert(header_lines(hs.drop_last().drop_last()) =~= Seq::<char>::empty());
    assert(header_lines(hs.drop_last()) =~= "Content-Type"@ + ": "@ + mime + "\r\n"@);
    assert(header_lines(hs) =~= "Content-Type"@ + ": "@ + mime + "\r\n"@ + "Content-Length"@
        + ": "@ + dec(encode_utf8(text).len()) + "\r\n"@);
    assert(head_text(status, hs) =~= "HTTP/1.1 "@ + status.spec_line() + "\r\n"@
        + "Content-Type"@ + ": "@ + mime + "\r\n"@ + "Content-Length"@ + ": "@ + dec(
        encode_utf8(text).len(),
    ) + "\r\n"@ + "\r\n"@);
}

} // verus!
