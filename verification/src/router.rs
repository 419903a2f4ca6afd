//! The router: from a request to the response it is owed.

use vstd::prelude::*;
use vstd::string::*;
use vstd::utf8::*;
use crate::ascii::{same_text, starts_with};
use crate::percent::{
    lemma_decode_inverts_encode,
    percent_decode_lossy,
    percent_decoded,
    percent_encoded,
    utf8_lossy,
};
use crate::request::{Method, ParsedRequest, RequestView};
use crate::response::{
    lemma_framed_is_framed,
    not_found_response,
    plain_response,
    ResponseSpec,
    ResponseView,
    Status,
};

verus! {

/// The one path that is routed.
pub open spec fn echo_path() -> Seq<char> {
    "/echo"@
}

/// The literal that a query begins with where it carries a message.
pub open spec fn message_prefix() -> Seq<u8> {
    encode_utf8("msg="@)
}

/// The message that a query carries. A query that begins with the literal
/// `msg=` carries what follows it, percent-decoded and then read as UTF-8
/// with ill-formed stretches replaced. Any other query, and no query, carries
/// the empty message: nothing but this prefix is looked for.
pub open spec fn query_message(query: Option<Seq<char>>) -> Seq<u8> {
    match query {
        Some(q) => if message_prefix().is_prefix_of(encode_utf8(q)) {
            encode_utf8(
                utf8_lossy(percent_decoded(encode_utf8(q).skip(message_prefix().len() as int))),
            )
        } else {
            Seq::empty()
        },
        None => Seq::empty(),
    }
}

/// The response that a request is owed.
///
/// | method        | path          | status | body                     |
/// |---------------|---------------|--------|--------------------------|
/// | `GET`         | `/echo`       | 200    | the message of the query |
/// | `POST`        | `/echo`       | 200    | the body of the request  |
/// | any other     | `/echo`       | 404    | `Not Found`              |
/// | any           | any other     | 404    | `Not Found`              |
///
/// Paths are compared as they are written, and nothing of the request but
/// what the table names enters into the response.
pub open spec fn routed(request: RequestView) -> ResponseView {
    if request.path == echo_path() && request.method == Method::Get {
        plain_response(Status::Success, query_message(request.query))
    } else if request.path == echo_path() && request.method == Method::Post {
        plain_response(Status::Success, request.body)
    } else {
        not_found_response()
    }
}

/// The bytes of the prefix, one by one.
proof fn lemma_message_prefix()
    ensures
        message_prefix() == seq![0x6du8, 0x73, 0x67, 0x3d],
{
    reveal_strlit("msg=");
    is_ascii_chars_encode_utf8("msg="@);
    assert(message_prefix() =~= seq![0x6du8, 0x73, 0x67, 0x3d]);
}

/// In valid UTF-8, a run of ASCII bytes at the start ends on a character
/// boundary.
proof fn lemma_boundary_after_ascii(bytes: Seq<u8>, n: int)
    requires
        valid_utf8(bytes),
        0 <= n <= bytes.len(),
        forall|i: int| 0 <= i < n ==> bytes[i] < 0x80,
    ensures
        is_char_boundary(bytes, n),
    decreases n,
{
    if n > 0 {
        let rest = pop_first_scalar(bytes);
        assert(bytes[0] < 0x80);
        assert(rest =~= bytes.subrange(1, bytes.len() as int));
        assert forall|i: int| 0 <= i < n - 1 implies rest[i] < 0x80 by {
            assert(rest[i] == bytes[i + 1]);
        }
        lemma_boundary_after_ascii(rest, n - 1);
    }
}

/// The message that a query carries, as bytes.
pub fn message_of_query(query: Option<&str>) -> (message: Vec<u8>)
    ensures
        message@ == query_message(
            match query {
                Some(q) => Some(q@),
                None => None,
            },
        ),
{
    match query {
        Some(q) => {
            if starts_with(q.as_bytes(), "msg=".as_bytes()) {
                proof {
                    lemma_message_prefix();
                    encode_utf8_valid_utf8(q@);
                    let bytes = encode_utf8(q@);
                    assert forall|i: int| 0 <= i < 4 implies bytes[i] < 0x80 by {
                        assert(bytes.subrange(0, 4)[i] == message_prefix()[i]);
                    }
                    lemma_boundary_after_ascii(bytes, 4);
                }
                let (_, rest) = q.split_at(4);
                assert(encode_utf8(rest@) =~= encode_utf8(q@).skip(4));
                let text = percent_decode_lossy(rest);
                text.as_str().as_bytes_vec()
            } else {
                Vec::new()
            }
        },
        None => Vec::new(),
    }
}

/// Routes one request.
///
/// `GET /echo` answers 200 with the message of the query, `POST /echo`
/// answers 200 with the body of the request, byte for byte, and every other
/// pair of method and path answers 404 with the body `Not Found`. Every
/// response carries the two framing headers and no others.
pub fn route(request: ParsedRequest) -> (response: ResponseSpec)
    ensures
        response@ == routed(request@),
        response@.is_framed(),
{
    let at_echo = same_text(request.path(), "/echo");
    match request.method() {
        Method::Get => {
            if at_echo {
                let message = message_of_query(request.query());
                ResponseSpec::new(Status::Success, message)
            } else {
                ResponseSpec::not_found()
            }
        },
        Method::Post => {
            if at_echo {
                ResponseSpec::new(Status::Success, request.into_body())
            } else {
                ResponseSpec::not_found()
            }
        },
        Method::Other => ResponseSpec::not_found(),
    }
}

/// Whether every byte of `text` is printable ASCII: from the space to the
/// tilde.
pub open spec fn is_printable_ascii(text: Seq<u8>) -> bool {
    forall|i: int| 0 <= i < text.len() ==> 0x20 <= #[trigger] text[i] <= 0x7e
}

/// Whether `request` is a `GET` of the echo path whose query is the message
/// prefix followed by a percent-encoding of `text`.
pub open spec fn asks_to_echo(request: RequestView, text: Seq<u8>, keep: spec_fn(u8) -> bool) -> bool {
    &&& request.method == Method::Get
    &&& request.path == echo_path()
    &&& request.query matches Some(q)
    &&& encode_utf8(q) == message_prefix() + percent_encoded(text, keep)
}

/// A posted body comes back byte for byte: `POST /echo` answers 200 with the
/// body of the request, whatever bytes it holds.
pub proof fn lemma_post_echoes_body(request: RequestView)
    requires
        request.method == Method::Post,
        request.path == echo_path(),
    ensures
        routed(request).status.code_of() == 200,
        routed(request).body == request.body,
{
}

/// A message comes back through the query: where valid UTF-8 is
/// percent-encoded, with whichever bytes left unescaped, and sent as
/// `GET /echo?msg=` and the encoding, the answer is 200 with the text as its
/// body.
pub proof fn lemma_get_echoes_message(request: RequestView, text: Seq<u8>, keep: spec_fn(u8) -> bool)
    requires
        asks_to_echo(request, text, keep),
        valid_utf8(text),
    ensures
        routed(request).status.code_of() == 200,
        routed(request).body == text,
{
    let q = request.query->0;
    let encoded = percent_encoded(text, keep);
    lemma_message_prefix();
    assert(message_prefix().is_prefix_of(encode_utf8(q)));
    assert(encode_utf8(q).skip(4) =~= encoded);
    lemma_decode_inverts_encode(text, keep);
    decode_utf8_encode_utf8(text);
}

/// Printable ASCII is valid UTF-8.
pub proof fn lemma_printable_ascii_is_utf8(text: Seq<u8>)
    requires
        is_printable_ascii(text),
    ensures
        valid_utf8(text),
    decreases text.len(),
{
    if text.len() > 0 {
        let rest = pop_first_scalar(text);
        assert(0x20 <= text[0] <= 0x7e);
        assert(rest =~= text.subrange(1, text.len() as int));
        assert forall|i: int| 0 <= i < rest.len() implies 0x20 <= #[trigger] rest[i] <= 0x7e by {
            assert(rest[i] == text[i + 1]);
        }
        lemma_printable_ascii_is_utf8(rest);
    }
}

/// Printable ASCII makes the round trip: percent-encoded and sent as the
/// message of `GET /echo`, it is the body of the answer.
pub proof fn lemma_get_echoes_printable_ascii(
    request: RequestView,
    text: Seq<u8>,
    keep: spec_fn(u8) -> bool,
)
    requires
        asks_to_echo(request, text, keep),
        is_printable_ascii(text),
    ensures
        routed(request).status.code_of() == 200,
        routed(request).body == text,
{
    lemma_printable_ascii_is_utf8(text);
    lemma_get_echoes_message(request, text, keep);
}

/// Only the literal prefix counts: `GET /echo` with no query, or with a query
/// that does not begin with `msg=`, answers 200 with an empty body.
pub proof fn lemma_get_without_message(request: RequestView)
    requires
        request.method == Method::Get,
        request.path == echo_path(),
        request.query matches Some(q) ==> !message_prefix().is_prefix_of(encode_utf8(q)),
    ensures
        routed(request).status.code_of() == 200,
        routed(request).body == Seq::<u8>::empty(),
{
}

/// Nothing in a query makes the echo fail or leave UTF-8: whatever the
/// escapes decode to, the message that comes back is valid UTF-8.
pub proof fn lemma_message_is_utf8(query: Option<Seq<char>>)
    ensures
        valid_utf8(query_message(query)),
{
    match query {
        Some(q) => {
            if message_prefix().is_prefix_of(encode_utf8(q)) {
                encode_utf8_valid_utf8(
                    utf8_lossy(percent_decoded(encode_utf8(q).skip(message_prefix().len() as int))),
                );
            }
        },
        None => {},
    }
}

/// Whatever is not routed is not found: any method on another path, and any
/// method but `GET` and `POST` on the echo path, answers 404 with the body
/// `Not Found`.
pub proof fn lemma_unrouted_not_found(request: RequestView)
    requires
        request.path != echo_path() || request.method == Method::Other,
    ensures
        routed(request).status.code_of() == 404,
        routed(request).body == encode_utf8("Not Found"@),
{
}

/// Every routed response is framed: its content length is the decimal length
/// of its body, and its connection header says `close`.
pub proof fn lemma_routed_is_framed(request: RequestView)
    ensures
        routed(request).is_framed(),
{
    let response = routed(request);
    lemma_framed_is_framed(Seq::empty(), response.body, response.status);
}

} // verus!
