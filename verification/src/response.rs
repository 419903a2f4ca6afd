//! The response as the router describes it, and the two headers that frame it.

use vstd::prelude::*;
use vstd::string::*;
use vstd::utf8::*;
use crate::ascii::same_ignoring_case;
use crate::decimal::{decimal, lemma_decimal_digits, to_decimal};
use crate::headers::{
    is_field_name,
    is_field_value,
    lemma_with_field_other,
    lemma_with_field_valid,
    lemma_with_field_value,
    valid_fields,
    value_of,
    with_field,
    Field,
    Headers,
};

verus! {

/// The status of a response. These three are all that the server answers with.
#[derive(Clone, Copy, Debug, PartialEq, Eq, Structural)]
pub enum Status {
    Success,
    BadRequest,
    NotFound,
}

impl Status {
    /// The status code.
    pub open spec fn code_of(self) -> u16 {
        match self {
            Status::Success => 200,
            Status::BadRequest => 400,
            Status::NotFound => 404,
        }
    }

    /// The reason phrase that goes with the code on the status line.
    pub open spec fn reason_of(self) -> Seq<char> {
        match self {
            Status::Success => "OK"@,
            Status::BadRequest => "Bad Request"@,
            Status::NotFound => "Not Found"@,
        }
    }

    /// The status code.
    pub fn code(self) -> (code: u16)
        ensures
            code == self.code_of(),
    {
        match self {
            Status::Success => 200,
            Status::BadRequest => 400,
            Status::NotFound => 404,
        }
    }

    /// The reason phrase that goes with the code on the status line.
    pub fn reason(self) -> (reason: &'static str)
        ensures
            reason@ == self.reason_of(),
    {
        match self {
            Status::Success => "OK",
            Status::BadRequest => "Bad Request",
            Status::NotFound => "Not Found",
        }
    }
}

/// The name of the header that gives the length of the body.
pub open spec fn content_length() -> Seq<u8> {
    encode_utf8("Content-Length"@)
}

/// The name of the header that says what becomes of the connection.
pub open spec fn connection() -> Seq<u8> {
    encode_utf8("Connection"@)
}

/// The value of the connection header: the connection closes after the
/// response.
pub open spec fn close() -> Seq<u8> {
    encode_utf8("close"@)
}

/// `fields` with the two framing headers set for a body of `body_len` bytes:
/// the content length in decimal, and the notice that the connection closes.
/// Either header replaces a field of its name where one stands, and goes to
/// the end otherwise, the content length first.
pub open spec fn framed(fields: Seq<Field>, body_len: nat) -> Seq<Field> {
    with_field(with_field(fields, content_length(), decimal(body_len)), connection(), close())
}

/// A response, as a mathematical value.
pub struct ResponseView {
    pub status: Status,
    pub headers: Seq<Field>,
    pub body: Seq<u8>,
}

impl ResponseView {
    /// Whether the headers frame the body: the content length is the length
    /// of the body, and the connection is said to close.
    pub open spec fn is_framed(self) -> bool {
        &&& value_of(self.headers, content_length()) == Some(decimal(self.body.len()))
        &&& value_of(self.headers, connection()) == Some(close())
    }
}

/// The response with this status and body and no headers but the two that
/// frame it.
pub open spec fn plain_response(status: Status, body: Seq<u8>) -> ResponseView {
    ResponseView { status, headers: framed(Seq::empty(), body.len()), body }
}

/// The answer to a request that no route takes: status 404 with the body
/// `Not Found`.
pub open spec fn not_found_response() -> ResponseView {
    plain_response(Status::NotFound, encode_utf8("Not Found"@))
}

/// The answer to a request whose body could not be read: status 400 with the
/// body `Bad Request`.
pub open spec fn bad_request_response() -> ResponseView {
    plain_response(Status::BadRequest, encode_utf8("Bad Request"@))
}

/// The description of one response: status, headers in order, and the whole
/// body.
#[derive(Debug)]
pub struct ResponseSpec {
    pub status: Status,
    pub headers: Headers,
    pub body: Vec<u8>,
}

impl View for ResponseSpec {
    type V = ResponseView;

    open spec fn view(&self) -> ResponseView {
        ResponseView { status: self.status, headers: self.headers@, body: self.body@ }
    }
}

impl ResponseSpec {
    /// The response with this status and body and no headers but the two that
    /// frame it.
    pub fn new(status: Status, body: Vec<u8>) -> (response: ResponseSpec)
        ensures
            response@ == plain_response(status, body@),
            response@.is_framed(),
    {
        let mut response = ResponseSpec { status, headers: Headers::new(), body };
        response.frame();
        response
    }

    /// The answer to a request that no route takes: status 404 with the body
    /// `Not Found`.
    pub fn not_found() -> (response: ResponseSpec)
        ensures
            response@ == not_found_response(),
            response@.is_framed(),
    {
        ResponseSpec::new(Status::NotFound, "Not Found".as_bytes_vec())
    }

    /// The answer to a request whose body could not be read: status 400 with
    /// the body `Bad Request`.
    pub fn bad_request() -> (response: ResponseSpec)
        ensures
            response@ == bad_request_response(),
            response@.is_framed(),
    {
        ResponseSpec::new(Status::BadRequest, "Bad Request".as_bytes_vec())
    }

    /// Sets the two framing headers to what the body asks for, whatever they
    /// were; status, body and the other headers stay.
    pub fn frame(&mut self)
        ensures
            final(self)@ == (ResponseView {
                headers: framed(old(self)@.headers, old(self)@.body.len()),
                ..old(self)@
            }),
            final(self)@.is_framed(),
    {
        frame_headers(&mut self.headers, self.body.len());
        proof {
            lemma_framed_is_framed(old(self)@.headers, self.body@, self.status);
        }
    }
}

/// Sets the two framing headers in `headers` for a body of `body_len` bytes.
pub fn frame_headers(headers: &mut Headers, body_len: usize)
    ensures
        final(headers)@ == framed(old(headers)@, body_len as nat),
{
    let digits = to_decimal(body_len);
    proof {
        lemma_framing_texts();
        lemma_decimal_digits(body_len as nat);
        assert(is_field_name(content_length()));
        assert(is_field_name(connection()));
        assert(is_field_value(close()));
        assert(is_field_value(digits@));
    }
    let length_set = headers.insert("Content-Length".as_bytes(), digits.as_slice());
    let close_set = headers.insert("Connection".as_bytes(), "close".as_bytes());
    assert(length_set is Ok && close_set is Ok);
}

/// Framed headers frame: whatever the fields were, after framing the content
/// length is the decimal length of the body and the connection is said to
/// close.
pub proof fn lemma_framed_is_framed(fields: Seq<Field>, body: Seq<u8>, status: Status)
    ensures
        (ResponseView { status, headers: framed(fields, body.len()), body }).is_framed(),
{
    lemma_framing_texts();
    let with_length = with_field(fields, content_length(), decimal(body.len()));
    lemma_with_field_value(fields, content_length(), decimal(body.len()));
    lemma_with_field_value(with_length, connection(), close());
    assert(!same_ignoring_case(connection(), content_length()));
    lemma_with_field_other(with_length, connection(), close(), content_length());
}

/// The bytes of the three framing texts, one by one.
pub proof fn lemma_framing_texts()
    ensures
        content_length() == seq![
            0x43u8,
            0x6f,
            0x6e,
            0x74,
            0x65,
            0x6e,
            0x74,
            0x2d,
            0x4c,
            0x65,
            0x6e,
            0x67,
            0x74,
            0x68,
        ],
        connection() == seq![0x43u8, 0x6f, 0x6e, 0x6e, 0x65, 0x63, 0x74, 0x69, 0x6f, 0x6e],
        close() == seq![0x63u8, 0x6c, 0x6f, 0x73, 0x65],
{
    reveal_strlit("Content-Length");
    reveal_strlit("Connection");
    reveal_strlit("close");
    is_ascii_chars_encode_utf8("Content-Length"@);
    is_ascii_chars_encode_utf8("Connection"@);
    is_ascii_chars_encode_utf8("close"@);
    assert(content_length() =~= seq![
        0x43u8,
        0x6f,
        0x6e,
        0x74,
        0x65,
        0x6e,
        0x74,
        0x2d,
        0x4c,
        0x65,
        0x6e,
        0x67,
        0x74,
        0x68,
    ]);
    assert(connection() =~= seq![0x43u8, 0x6f, 0x6e, 0x6e, 0x65, 0x63, 0x74, 0x69, 0x6f, 0x6e]);
    assert(close() =~= seq![0x63u8, 0x6c, 0x6f, 0x73, 0x65]);
}

/// Framing keeps valid fields valid.
pub proof fn lemma_framed_valid(fields: Seq<Field>, body_len: nat)
    requires
        valid_fields(fields),
    ensures
        valid_fields(framed(fields, body_len)),
{
    lemma_framing_texts();
    lemma_decimal_digits(body_len);
    assert(is_field_name(content_length()));
    assert(is_field_name(connection()));
    assert(is_field_value(close()));
    lemma_with_field_valid(fields, content_length(), decimal(body_len));
    lemma_with_field_valid(
        with_field(fields, content_length(), decimal(body_len)),
        connection(),
        close(),
    );
}

} // verus!
