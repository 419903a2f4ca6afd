//! The encoder: the bytes that a response takes on the wire.

use vstd::prelude::*;
use vstd::string::*;
use vstd::utf8::*;
use crate::decimal::{
    decimal,
    decimal_value,
    lemma_decimal_digits,
    lemma_decimal_value,
    push_decimal,
};
use crate::ascii::same_ignoring_case;
use crate::headers::{
    is_field_name,
    is_field_value,
    position,
    valid_fields,
    value_of,
    with_field,
    Field,
};
use crate::response::{
    close,
    connection,
    content_length,
    frame_headers,
    framed,
    lemma_framed_is_framed,
    lemma_framed_valid,
    lemma_framing_texts,
    plain_response,
    ResponseSpec,
    ResponseView,
    Status,
};

verus! {

/// Carriage return and line feed: the end of a line.
pub open spec fn crlf() -> Seq<u8> {
    seq![0x0du8, 0x0a]
}

/// The status line: the protocol version, the status code in decimal, the
/// reason phrase, and the end of the line.
pub open spec fn status_line(status: Status) -> Seq<u8> {
    encode_utf8("HTTP/1.1 "@) + decimal(status.code_of() as nat) + seq![0x20u8] + encode_utf8(
        status.reason_of(),
    ) + crlf()
}

/// One header line: the name, a colon and a space, the value, and the end of
/// the line.
pub open spec fn header_line(field: Field) -> Seq<u8> {
    field.0 + seq![0x3au8, 0x20] + field.1 + crlf()
}

/// The header lines of `fields`, in their order.
pub open spec fn header_lines(fields: Seq<Field>) -> Seq<u8>
    decreases fields.len(),
{
    if fields.len() == 0 {
        Seq::empty()
    } else {
        header_lines(fields.drop_last()) + header_line(fields.last())
    }
}

/// All that goes before the body: the status line, the lines of the headers
/// once they are framed for the body, and the empty line.
pub open spec fn head(response: ResponseView) -> Seq<u8> {
    status_line(response.status) + header_lines(framed(response.headers, response.body.len()))
        + crlf()
}

/// The response on the wire: the head, then the body as it is.
pub open spec fn wire(response: ResponseView) -> Seq<u8> {
    head(response) + response.body
}

/// Writes the end of a line.
fn push_crlf(out: &mut Vec<u8>)
    ensures
        final(out)@ == old(out)@ + crlf(),
{
    out.push(0x0d);
    out.push(0x0a);
    assert(final(out)@ =~= old(out)@ + crlf());
}

/// Serialises a response for HTTP/1.1.
///
/// The two framing headers are set to what the body asks for before anything
/// is written, so the content length on the wire is always the length of the
/// body that follows the empty line, and the connection is always said to
/// close. The body is neither chunked nor compressed. The empty line that
/// closes the head is the first one on the wire, whatever the body holds.
pub fn encode(response: &ResponseSpec) -> (bytes: Vec<u8>)
    ensures
        bytes@ == wire(response@),
        first_blank_line_at(bytes@, head(response@).len() - 4),
{
    proof {
        use_type_invariant(&response.headers);
        lemma_first_blank_line_ends_head(response@);
    }
    let mut headers = response.headers.copy();
    frame_headers(&mut headers, response.body.len());
    let mut out: Vec<u8> = Vec::new();
    out.extend_from_slice("HTTP/1.1 ".as_bytes());
    push_decimal(&mut out, response.status.code() as usize);
    out.push(0x20);
    out.extend_from_slice(response.status.reason().as_bytes());
    push_crlf(&mut out);
    assert(out@ =~= status_line(response.status));
    let mut i: usize = 0;
    assert(headers@.take(0) =~= Seq::<Field>::empty());
    while i < headers.len()
        invariant
            i <= headers@.len(),
            out@ == status_line(response.status) + header_lines(headers@.take(i as int)),
        decreases headers@.len() - i,
    {
        let ghost before = out@;
        match headers.field(i) {
            Some((name, value)) => {
                out.extend_from_slice(name.as_slice());
                out.push(0x3a);
                out.push(0x20);
                out.extend_from_slice(value.as_slice());
                push_crlf(&mut out);
                proof {
                    let taken = headers@.take(i + 1);
                    assert(taken.drop_last() =~= headers@.take(i as int));
                    assert(taken.last() == headers@[i as int]);
                    assert(out@ =~= before + header_line(headers@[i as int]));
                    assert(out@ =~= status_line(response.status) + header_lines(taken));
                }
            },
            None => {},
        }
        i += 1;
    }
    assert(headers@.take(i as int) =~= headers@);
    push_crlf(&mut out);
    out.extend_from_slice(response.body.as_slice());
    assert(out@ =~= wire(response@));
    out
}

/// Whether an empty line stands at `at`: the end of a line, and at once
/// another.
pub open spec fn blank_line_at(bytes: Seq<u8>, at: int) -> bool {
    &&& 0 <= at
    &&& at + 4 <= bytes.len()
    &&& bytes[at] == 0x0d
    &&& bytes[at + 1] == 0x0a
    &&& bytes[at + 2] == 0x0d
    &&& bytes[at + 3] == 0x0a
}

/// Whether the first empty line of `bytes` stands at `at`.
pub open spec fn first_blank_line_at(bytes: Seq<u8>, at: int) -> bool {
    &&& blank_line_at(bytes, at)
    &&& forall|before: int| 0 <= before < at ==> !blank_line_at(bytes, before)
}

/// Whether `text` holds neither a carriage return nor a line feed.
spec fn on_one_line(text: Seq<u8>) -> bool {
    forall|i: int| 0 <= i < text.len() ==> #[trigger] text[i] != 0x0d && text[i] != 0x0a
}

/// Whether no line of `bytes` is empty: no end of a line is followed by a
/// carriage return.
spec fn no_empty_line(bytes: Seq<u8>) -> bool {
    forall|i: int|
        0 <= i && i + 2 < bytes.len() ==> !(#[trigger] bytes[i] == 0x0d && bytes[i + 1] == 0x0a
            && bytes[i + 2] == 0x0d)
}

/// A line that is not empty, put after lines none of which is empty, leaves
/// none empty.
proof fn lemma_append_line(bytes: Seq<u8>, text: Seq<u8>)
    requires
        no_empty_line(bytes),
        text.len() > 0,
        on_one_line(text),
    ensures
        no_empty_line(bytes + text + crlf()),
{
    let after = bytes + text + crlf();
    assert forall|i: int| 0 <= i && i + 2 < after.len() implies !(#[trigger] after[i] == 0x0d
        && after[i + 1] == 0x0a && after[i + 2] == 0x0d) by {
        if i + 2 < bytes.len() {
            assert(after[i] == bytes[i]);
            assert(after[i + 1] == bytes[i + 1]);
            assert(after[i + 2] == bytes[i + 2]);
        } else if i + 2 < bytes.len() + text.len() {
            assert(after[i + 2] == text[i + 2 - bytes.len()]);
        } else if i + 2 == bytes.len() + text.len() {
            assert(after[i + 1] == text[i + 1 - bytes.len()]);
        } else {
            assert(after[i + 2] == 0x0a);
        }
    }
}

/// The status line is one line that is not empty.
proof fn lemma_status_line(status: Status)
    ensures
        no_empty_line(status_line(status)),
        status_line(status).len() >= 2,
        status_line(status).subrange(status_line(status).len() - 2, status_line(status).len() as int)
            == crlf(),
{
    reveal_strlit("HTTP/1.1 ");
    reveal_strlit("OK");
    reveal_strlit("Bad Request");
    reveal_strlit("Not Found");
    is_ascii_chars_encode_utf8("HTTP/1.1 "@);
    is_ascii_chars_encode_utf8(status.reason_of());
    lemma_decimal_digits(status.code_of() as nat);
    let text = encode_utf8("HTTP/1.1 "@) + decimal(status.code_of() as nat) + seq![0x20u8]
        + encode_utf8(status.reason_of());
    let version = encode_utf8("HTTP/1.1 "@);
    let code = decimal(status.code_of() as nat);
    let reason = encode_utf8(status.reason_of());
    assert(on_one_line(version)) by {
        assert forall|i: int| 0 <= i < version.len() implies #[trigger] version[i] != 0x0d
            && version[i] != 0x0a by {
            assert(version[i] == "HTTP/1.1 "@[i] as u8);
        }
    }
    assert(on_one_line(reason)) by {
        assert forall|i: int| 0 <= i < reason.len() implies #[trigger] reason[i] != 0x0d
            && reason[i] != 0x0a by {
            assert(reason[i] == status.reason_of()[i] as u8);
        }
    }
    assert(on_one_line(text)) by {
        assert forall|i: int| 0 <= i < text.len() implies #[trigger] text[i] != 0x0d && text[i]
            != 0x0a by {
            if i < version.len() {
                assert(text[i] == version[i]);
            } else if i < version.len() + code.len() {
                assert(text[i] == code[i - version.len()]);
            } else if i == version.len() + code.len() {
                assert(text[i] == 0x20);
            } else {
                assert(text[i] == reason[i - version.len() - code.len() - 1]);
            }
        }
    }
    lemma_append_line(Seq::empty(), text);
    assert(Seq::<u8>::empty() + text + crlf() =~= status_line(status));
    assert(status_line(status) =~= text + crlf());
    assert(status_line(status).subrange(
        status_line(status).len() - 2,
        status_line(status).len() as int,
    ) =~= crlf());
}

/// Header lines of valid fields, put after lines none of which is empty,
/// leave none empty.
proof fn lemma_header_lines(bytes: Seq<u8>, fields: Seq<Field>)
    requires
        no_empty_line(bytes),
        valid_fields(fields),
    ensures
        no_empty_line(bytes + header_lines(fields)),
        fields.len() > 0 ==> header_lines(fields).len() >= 2 && header_lines(fields).subrange(
            header_lines(fields).len() - 2,
            header_lines(fields).len() as int,
        ) == crlf(),
    decreases fields.len(),
{
    if fields.len() == 0 {
        assert(bytes + header_lines(fields) =~= bytes);
    } else {
        let before = fields.drop_last();
        let field = fields.last();
        assert(valid_fields(before)) by {
            assert forall|i: int| 0 <= i < before.len() implies is_field_name(
                (#[trigger] before[i]).0,
            ) && is_field_value(before[i].1) by {
                assert(before[i] == fields[i]);
            }
        }
        lemma_header_lines(bytes, before);
        let text = field.0 + seq![0x3au8, 0x20] + field.1;
        assert(on_one_line(text)) by {
            assert forall|i: int| 0 <= i < text.len() implies #[trigger] text[i] != 0x0d
                && text[i] != 0x0a by {
                if i < field.0.len() {
                    assert(text[i] == field.0[i]);
                } else if i >= field.0.len() + 2 {
                    assert(text[i] == field.1[i - field.0.len() - 2]);
                }
            }
        }
        lemma_append_line(bytes + header_lines(before), text);
        assert(bytes + header_lines(before) + text + crlf() =~= bytes + header_lines(fields));
        assert(header_lines(fields) =~= header_lines(before) + text + crlf());
        assert(header_lines(fields).subrange(
            header_lines(fields).len() - 2,
            header_lines(fields).len() as int,
        ) =~= crlf());
    }
}

/// Lines none of which is empty, then an empty line, then anything: the
/// first empty line is the one put there.
proof fn lemma_blank_line_after_lines(lines: Seq<u8>, body: Seq<u8>)
    requires
        no_empty_line(lines),
        lines.len() >= 2,
        lines[lines.len() - 2] == 0x0d,
        lines[lines.len() - 1] == 0x0a,
    ensures
        first_blank_line_at(lines + crlf() + body, lines.len() - 2),
{
    let all = lines + crlf() + body;
    let n = lines.len() as int;
    assert(all[n - 2] == lines[n - 2]);
    assert(all[n - 1] == lines[n - 1]);
    assert(all[n] == 0x0d);
    assert(all[n + 1] == 0x0a);
    assert forall|before: int| 0 <= before < n - 2 implies !blank_line_at(all, before) by {
        assert(all[before] == lines[before]);
        assert(all[before + 1] == lines[before + 1]);
        assert(all[before + 2] == lines[before + 2]);
        assert(!(lines[before] == 0x0d && lines[before + 1] == 0x0a && lines[before + 2]
            == 0x0d));
    }
}

/// The status line and the header lines of valid fields end a line and hold
/// no empty line.
proof fn lemma_lines_of_head(status: Status, fields: Seq<Field>)
    requires
        valid_fields(fields),
    ensures
        no_empty_line(status_line(status) + header_lines(fields)),
        (status_line(status) + header_lines(fields)).len() >= 2,
        (status_line(status) + header_lines(fields))[(status_line(status) + header_lines(
            fields,
        )).len() - 2] == 0x0d,
        (status_line(status) + header_lines(fields))[(status_line(status) + header_lines(
            fields,
        )).len() - 1] == 0x0a,
{
    let first = status_line(status);
    let rest = header_lines(fields);
    let lines = first + rest;
    lemma_status_line(status);
    lemma_header_lines(first, fields);
    if fields.len() == 0 {
        assert(lines =~= first);
        let end = first.subrange(first.len() - 2, first.len() as int);
        assert(end[0] == first[first.len() - 2]);
        assert(end[1] == first[first.len() - 1]);
    } else {
        let end = rest.subrange(rest.len() - 2, rest.len() as int);
        assert(end[0] == rest[rest.len() - 2]);
        assert(end[1] == rest[rest.len() - 1]);
        assert(lines[lines.len() - 2] == rest[rest.len() - 2]);
        assert(lines[lines.len() - 1] == rest[rest.len() - 1]);
    }
}

/// The head ends where the first empty line ends: with valid fields, an empty
/// line closes the head and none stands before it, whatever the body holds.
/// A reader that looks for the first empty line finds the body where it
/// begins.
pub proof fn lemma_first_blank_line_ends_head(response: ResponseView)
    requires
        valid_fields(response.headers),
    ensures
        first_blank_line_at(wire(response), head(response).len() - 4),
{
    let fields = framed(response.headers, response.body.len());
    let lines = status_line(response.status) + header_lines(fields);
    lemma_framed_valid(response.headers, response.body.len());
    lemma_lines_of_head(response.status, fields);
    lemma_blank_line_after_lines(lines, response.body);
    assert(head(response) =~= lines + crlf());
    assert(wire(response) =~= lines + crlf() + response.body);
}

/// A response with no headers of its own, byte for byte: the status line,
/// the content length of the body, the notice that the connection closes,
/// the empty line, and the body.
pub proof fn lemma_plain_response_on_the_wire(status: Status, body: Seq<u8>)
    ensures
        wire(plain_response(status, body)) == status_line(status) + content_length() + seq![
            0x3au8,
            0x20,
        ] + decimal(body.len()) + crlf() + connection() + seq![0x3au8, 0x20] + close() + crlf()
            + crlf() + body,
{
    lemma_framing_texts();
    reveal_with_fuel(position, 2);
    reveal_with_fuel(header_lines, 3);
    let length: Field = (content_length(), decimal(body.len()));
    let closing: Field = (connection(), close());
    let fields = framed(Seq::empty(), body.len());
    assert(with_field(Seq::empty(), content_length(), decimal(body.len())) =~= seq![length]);
    assert(!same_ignoring_case(content_length(), connection()));
    assert(seq![length].drop_first() =~= Seq::<Field>::empty());
    assert(fields =~= seq![length, closing]);
    assert(fields.drop_last() =~= seq![length]);
    assert(seq![length].drop_last() =~= Seq::<Field>::empty());
    assert(wire(plain_response(status, body)) =~= status_line(status) + content_length() + seq![
        0x3au8,
        0x20,
    ] + decimal(body.len()) + crlf() + connection() + seq![0x3au8, 0x20] + close() + crlf()
        + crlf() + body);
}

/// What is sent after the head is the body and nothing else, and the content
/// length that the head announces is, read as a number, the count of exactly
/// those bytes.
pub proof fn lemma_content_length_on_the_wire(response: ResponseView)
    ensures
        wire(response).skip(head(response).len() as int) == response.body,
        value_of(framed(response.headers, response.body.len()), content_length()) == Some(
            decimal(response.body.len()),
        ),
        decimal_value(decimal(response.body.len())) == wire(response).len() - head(
            response,
        ).len(),
{
    assert(wire(response).skip(head(response).len() as int) =~= response.body);
    lemma_framed_is_framed(response.headers, response.body, response.status);
    lemma_decimal_value(response.body.len());
}

} // verus!
