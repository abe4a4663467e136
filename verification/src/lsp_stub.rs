//! A minimal language server over framed JSON messages: enough handshake to be
//! real, nothing more.
//!
//! It answers `initialize` with an empty capability set, `shutdown` with null,
//! leaves on `exit`, and gives any other request a null result rather than
//! silence, so that a caller waiting on a response never hangs on an unexpected
//! method.

use vstd::prelude::*;
use vstd::string::*;
use vstd::utf8::*;

use crate::decimal::{decimal, decimal_string, lemma_decimal, parse_usize, parsed};
use crate::json::{
    empty, get, json, json_text, member, no_members, null, object, parse, parsed_json, put, string,
    text_of, Json,
};
use crate::text::{
    chars_of, find, lemma_find_is, lemma_line_end_is, lines, lower, lowered, position_from, same,
    slice_of, split_lines, string_of, trim, trimmed,
};

verus! {

// ---- Framing ----

/// A header ends with an empty line.
pub open spec fn complete(header: Seq<u8>) -> bool {
    let n = header.len() as int;
    n >= 4 && header[n - 4] == 13 && header[n - 3] == 10 && header[n - 2] == 13 && header[n - 1]
        == 10
}

/// Whether a header has been read to its end.
pub fn header_complete(header: &[u8]) -> (r: bool)
    ensures
        r == complete(header@),
{
    let n: usize = header.len();
    n >= 4 && header[n - 4] == 13 && header[n - 3] == 10 && header[n - 2] == 13 && header[n - 1]
        == 10
}

/// What `String::from_utf8_lossy` makes of some bytes.
pub uninterp spec fn lossy(bytes: Seq<u8>) -> Seq<char>;

/// `String::from_utf8_lossy` decodes bytes, and keeps valid UTF-8 as it is.
#[verifier::external_body]
fn decode(bytes: &[u8]) -> (r: String)
    ensures
        r@ == lossy(bytes@),
        valid_utf8(bytes@) ==> r@ == decode_utf8(bytes@),
{
    String::from_utf8_lossy(bytes).into_owned()
}

/// The length that a header line gives: a line named `Content-Length`, in any
/// case, whose value is a number.
pub open spec fn line_length(line: Seq<char>) -> Option<nat> {
    match find(line, ":"@) {
        None => None,
        Some(i) => if lower(line.take(i)) == "content-length"@ {
            parsed(trim(line.skip(i + 1)), usize::MAX as nat)
        } else {
            None
        },
    }
}

/// The first length that some header lines give.
pub open spec fn first_length(ls: Seq<Seq<char>>) -> Option<nat>
    decreases ls.len(),
{
    if ls.len() == 0 {
        None
    } else {
        match line_length(ls[0]) {
            Some(n) => Some(n),
            None => first_length(ls.skip(1)),
        }
    }
}

/// The length that a header gives. Other lines are ignored.
pub open spec fn length_in(header: Seq<char>) -> Option<nat> {
    first_length(lines(header))
}

/// `r` is the number in `n`.
pub open spec fn same_number(r: Option<usize>, n: Option<nat>) -> bool {
    match r {
        Some(k) => n == Some(k as nat),
        None => n is None,
    }
}

fn length_of_line(line: &[char]) -> (r: Option<usize>)
    ensures
        same_number(r, line_length(line@)),
{
    let colon = chars_of(":");
    let n: usize = line.len();
    match position_from(line, &colon, 0) {
        None => None,
        Some(i) => {
            proof {
                reveal_strlit(":");
                crate::text::lemma_find_from(line@, ":"@, 0);
            }
            let name = slice_of(line, 0, i);
            let value = slice_of(line, i + 1, n);
            assert(name@ =~= line@.take(i as int));
            assert(value@ =~= line@.skip(i + 1));
            if same(string_of(&lowered(&name)).as_str(), "content-length") {
                parse_usize(&trimmed(&value))
            } else {
                None
            }
        },
    }
}

/// The length that a header gives, if it gives one.
pub fn content_length_in(header: &str) -> (r: Option<usize>)
    ensures
        same_number(r, length_in(header@)),
{
    let ls = split_lines(&chars_of(header));
    let ghost all = lines(header@);
    let mut i: usize = 0;
    assert(all.skip(0) =~= all);
    while i < ls.len()
        invariant
            i <= ls@.len(),
            all == lines(header@),
            ls@.len() == all.len(),
            forall|k: int| 0 <= k < ls@.len() ==> (#[trigger] ls@[k])@ == all[k],
            first_length(all) == first_length(all.skip(i as int)),
        decreases ls@.len() - i,
    {
        let found = length_of_line(&ls[i]);
        proof {
            let rest = all.skip(i as int);
            assert(rest[0] == ls@[i as int]@);
            assert(rest.skip(1) =~= all.skip(i + 1));
        }
        if found.is_some() {
            return found;
        }
        i += 1;
    }
    None
}

/// The length of the body that follows a header, if the header gives one.
pub fn content_length(header: &[u8]) -> (r: Option<usize>)
    ensures
        same_number(r, length_in(lossy(header@))),
        valid_utf8(header@) ==> same_number(r, length_in(decode_utf8(header@))),
{
    content_length_in(decode(header).as_str())
}

/// The header of a body of `n` bytes.
pub open spec fn header_text(n: nat) -> Seq<char> {
    "Content-Length: "@ + decimal(n) + "\r\n\r\n"@
}

/// A framed body: header, blank line, exact byte count.
pub fn frame(body: &[u8]) -> (r: Vec<u8>)
    ensures
        r@ == encode_utf8(header_text(body@.len())) + body@,
{
    let mut header = "Content-Length: ".to_owned();
    header.append(decimal_string(body.len() as u64).as_str());
    header.append("\r\n\r\n");
    let head = header.as_str().as_bytes();
    let mut out: Vec<u8> = Vec::new();
    append(&mut out, head);
    append(&mut out, body);
    out
}

fn append(out: &mut Vec<u8>, bytes: &[u8])
    ensures
        final(out)@ == old(out)@ + bytes@,
{
    let mut i: usize = 0;
    while i < bytes.len()
        invariant
            i <= bytes@.len(),
            out@ == old(out)@ + bytes@.take(i as int),
        decreases bytes@.len() - i,
    {
        out.push(bytes[i]);
        i += 1;
        assert(out@ =~= old(out)@ + bytes@.take(i as int));
    }
    assert(bytes@.take(i as int) =~= bytes@);
}

/// A message, framed.
pub fn message_frame(message: &serde_json::Value) -> (r: Vec<u8>)
    ensures
        r@ == encode_utf8(header_text(encode_utf8(json_text(*message)).len())) + encode_utf8(
            json_text(*message),
        ),
{
    let text = text_of(message);
    frame(text.as_str().as_bytes())
}

// ---- Answering ----

/// What the reply to a request holds.
pub open spec fn replied(id: Json, result: Json) -> Json {
    Json::Object(
        no_members().insert("jsonrpc"@, Json::Text("2.0"@)).insert("id"@, id).insert(
            "result"@,
            result,
        ),
    )
}

/// The reply to the request with this id.
pub fn reply(id: &serde_json::Value, result: serde_json::Value) -> (r: serde_json::Value)
    ensures
        json(r) == replied(json(*id), json(result)),
{
    let mut map = empty();
    put(&mut map, "jsonrpc", string("2.0".to_owned()));
    put(&mut map, "id", id.clone());
    put(&mut map, "result", result);
    object(map)
}

/// What the server does with a message.
pub enum Response {
    /// It sends a reply. `ready` says that this is the answer to `initialize`,
    /// after which the server is up.
    Reply { message: serde_json::Value, ready: bool },
    /// It stays silent.
    Silence,
    /// It leaves.
    Exit,
}

/// The method that a message names. A message without one has the empty name.
pub open spec fn method_of(message: Json) -> Seq<char> {
    match member(message, "method"@) {
        Some(Json::Text(name)) => name,
        _ => ""@,
    }
}

/// An empty capability set.
pub open spec fn no_capabilities() -> Json {
    Json::Object(no_members().insert("capabilities"@, Json::Object(no_members())))
}

impl Response {
    /// This is what the server does with `message`. A request carries an id
    /// and needs an answer; a notification does not.
    pub open spec fn answers(self, message: Json, ignore_shutdown: bool) -> bool {
        let id = member(message, "id"@);
        if method_of(message) == "initialize"@ && id is Some {
            self matches Response::Reply { message: m, ready } && ready && json(m) == replied(
                id->0,
                no_capabilities(),
            )
        } else if method_of(message) == "shutdown"@ && (ignore_shutdown || id is None) {
            self is Silence
        } else if method_of(message) == "exit"@ {
            if ignore_shutdown {
                self is Silence
            } else {
                self is Exit
            }
        } else if id is Some {
            self matches Response::Reply { message: m, ready } && !ready && json(m) == replied(
                id->0,
                Json::Null,
            )
        } else {
            self is Silence
        }
    }
}

fn capabilities() -> (r: serde_json::Value)
    ensures
        json(r) == no_capabilities(),
{
    let mut map = empty();
    put(&mut map, "capabilities", object(empty()));
    object(map)
}

/// Decide what to do with a message. With `ignore_shutdown`, neither
/// `shutdown` nor `exit` is honoured, so that the caller's own bound is the
/// only thing that ends the wait.
pub fn respond(message: &serde_json::Value, ignore_shutdown: bool) -> (r: Response)
    ensures
        r.answers(json(*message), ignore_shutdown),
{
    let method = match get(message, "method") {
        Some(value) => match value.as_str() {
            Some(name) => name,
            None => "",
        },
        None => "",
    };
    let id = get(message, "id");
    if same(method, "initialize") {
        if let Some(id) = id {
            return Response::Reply { message: reply(id, capabilities()), ready: true };
        }
    }
    let shutdown = same(method, "shutdown");
    let exit = same(method, "exit");
    if shutdown && ignore_shutdown {
        return Response::Silence;
    }
    proof {
        lemma_methods_differ();
    }
    if exit && !shutdown {
        return if ignore_shutdown {
            Response::Silence
        } else {
            Response::Exit
        };
    }
    match id {
        Some(id) => Response::Reply { message: reply(id, null()), ready: false },
        None => Response::Silence,
    }
}

proof fn lemma_methods_differ()
    ensures
        "exit"@ != "shutdown"@,
        "exit"@ != "initialize"@,
        "shutdown"@ != "initialize"@,
{
    reveal_strlit("exit");
    reveal_strlit("shutdown");
    reveal_strlit("initialize");
    assert("exit"@.len() == 4 && "shutdown"@.len() == 8 && "initialize"@.len() == 10);
}

/// Decide what to do with the body of a frame. A body that is no JSON ends the
/// conversation.
pub fn handle(body: &[u8], ignore_shutdown: bool) -> (r: Response)
    ensures
        match parsed_json(body@) {
            Some(message) => r.answers(message, ignore_shutdown),
            None => r is Exit,
        },
{
    match parse(body) {
        Some(message) => respond(&message, ignore_shutdown),
        None => Response::Exit,
    }
}

// ---- Laws ----

proof fn lemma_trim_padded(digits: Seq<char>)
    requires
        digits.len() > 0,
        crate::decimal::all_digits(digits),
    ensures
        trim(seq![' '] + digits) == digits,
{
    let s = seq![' '] + digits;
    assert(crate::decimal::is_digit(digits[0]));
    assert(crate::decimal::is_digit(digits[digits.len() - 1]));
    crate::text::lemma_trim_start_is(s, 1);
    assert(s.skip(1) =~= digits);
    assert(crate::text::trim_end(digits) == digits);
}

proof fn lemma_header_line(n: nat)
    requires
        n <= usize::MAX,
    ensures
        line_length("Content-Length: "@ + decimal(n)) == Some(n),
{
    reveal_strlit("Content-Length: ");
    reveal_strlit("content-length");
    reveal_strlit(":");
    let digits = decimal(n);
    let line = "Content-Length: "@ + digits;
    lemma_decimal(n);
    assert(line.subrange(14, 15) =~= ":"@);
    assert forall|j: int| 0 <= j < 14 implies !crate::text::occurs_at(line, ":"@, j) by {
        assert(line.subrange(j, j + 1)[0] == line[j]);
        assert(line[j] != ':');
    }
    lemma_find_is(line, ":"@, 14);
    assert(lower(line.take(14)) =~= "content-length"@);
    assert(line.skip(15) =~= seq![' '] + digits);
    lemma_trim_padded(digits);
    crate::decimal::decimal_reads_back(n, usize::MAX as nat);
}

/// The header of a frame gives the length of its body back.
pub proof fn a_header_gives_its_length_back(n: nat)
    requires
        n <= usize::MAX,
    ensures
        length_in(header_text(n)) == Some(n),
        valid_utf8(encode_utf8(header_text(n))),
        decode_utf8(encode_utf8(header_text(n))) == header_text(n),
{
    let text = header_text(n);
    let digits = decimal(n);
    let line = "Content-Length: "@ + digits;
    reveal_strlit("Content-Length: ");
    reveal_strlit("\r\n\r\n");
    lemma_decimal(n);
    let end = 17 + digits.len() as int;
    assert(text[end] == '\n');
    assert forall|i: int| 0 <= i < end implies text[i] != '\n' by {
        if 16 <= i < end - 1 {
            assert(text[i] == digits[i - 16]);
            assert(crate::decimal::is_digit(digits[i - 16]));
        }
    }
    lemma_line_end_is(text, end);
    assert(text.take(end) =~= line + seq!['\r']);
    assert((line + seq!['\r']).skip(line.len() as int) =~= seq!['\r']);
    assert((line + seq!['\r']).take(line.len() as int) =~= line);
    assert(lines(text)[0] == line);
    lemma_header_line(n);
    encode_utf8_valid_utf8(text);
    encode_utf8_decode_utf8(text);
}

/// Reading a frame byte by byte, the header is complete exactly at its end.
pub proof fn a_header_is_complete_at_its_end(n: nat, k: int)
    requires
        0 <= k <= encode_utf8(header_text(n)).len(),
    ensures
        complete(encode_utf8(header_text(n)).take(k)) == (k == encode_utf8(header_text(n)).len()),
{
    let text = header_text(n);
    let digits = decimal(n);
    reveal_strlit("Content-Length: ");
    reveal_strlit("\r\n\r\n");
    lemma_decimal(n);
    let end = 16 + digits.len() as int;
    assert forall|i: int| 0 <= i < end implies text[i] != '\r' && (text[i] as u32) < 128 by {
        if 16 <= i {
            assert(text[i] == digits[i - 16]);
            assert(crate::decimal::is_digit(digits[i - 16]));
        }
    }
    assert forall|i: int| 0 <= i < text.len() implies (text[i] as u32) < 128 by {}
    is_ascii_chars_encode_utf8(text);
    let bytes = encode_utf8(text);
    assert(bytes.len() == text.len());
    assert forall|i: int| 0 <= i < end implies bytes[i] != 13 by {
        assert(bytes[i] == text[i] as u8);
    }
    assert(bytes[end] == 13 && bytes[end + 1] == 10 && bytes[end + 2] == 13 && bytes[end + 3]
        == 10);
    let front = bytes.take(k);
    if complete(front) {
        assert(bytes[k - 4] == 13);
        assert(bytes[k - 2] == 13);
    }
}

/// Every request is answered under its own id, except that `shutdown` and
/// `exit` may be left without an answer as their rules say.
pub proof fn a_request_is_answered(response: Response, message: Json, ignore_shutdown: bool)
    requires
        response.answers(message, ignore_shutdown),
        member(message, "id"@) is Some,
        method_of(message) != "exit"@,
        method_of(message) != "shutdown"@ || !ignore_shutdown,
    ensures
        response matches Response::Reply { message: m, ready } && member(json(m), "id"@) == member(
            message,
            "id"@,
        ),
{
    reveal_strlit("id");
    reveal_strlit("result");
    reveal_strlit("jsonrpc");
    assert("id"@.len() == 2 && "result"@.len() == 6 && "jsonrpc"@.len() == 7);
}

/// A message without an id never gets a reply.
pub proof fn a_notification_is_not_answered(
    response: Response,
    message: Json,
    ignore_shutdown: bool,
)
    requires
        response.answers(message, ignore_shutdown),
        member(message, "id"@) is None,
    ensures
        !(response is Reply),
{
}

/// A header is complete where it ends in two line ends, whatever stands before
/// them.
pub proof fn a_header_ends_with_an_empty_line(front: Seq<u8>, header: Seq<u8>)
    ensures
        complete(front + seq![13u8, 10u8, 13u8, 10u8]),
        complete(header) ==> header == header.take(header.len() - 4) + seq![13u8, 10u8, 13u8, 10u8],
{
    let n = header.len() as int;
    if complete(header) {
        assert(header =~= header.take(n - 4) + seq![13u8, 10u8, 13u8, 10u8]);
    }
}

/// A header line is a name and a value with a colon between them. It gives a
/// length where the name is `content-length`, in any case of letters, and the
/// value is a number, with or without white space around it.
pub proof fn a_length_line_is_read(name: Seq<char>, value: Seq<char>)
    requires
        forall|i: int| 0 <= i < name.len() ==> #[trigger] name[i] != ':',
    ensures
        line_length(name + seq![':'] + value) == if lower(name) == "content-length"@ {
            parsed(trim(value), usize::MAX as nat)
        } else {
            None
        },
        line_length(name) is None,
{
    reveal_strlit(":");
    let line = name + seq![':'] + value;
    let n = name.len() as int;
    assert(line.subrange(n, n + 1) =~= ":"@);
    assert(":"@ =~= seq![':']);
    assert forall|j: int| 0 <= j < n implies !crate::text::occurs_at(line, ":"@, j) by {
        assert(line.subrange(j, j + 1)[0] == name[j]);
    }
    lemma_find_is(line, ":"@, n);
    assert(line.take(n) =~= name);
    assert(line.skip(n + 1) =~= value);
    crate::text::lemma_find_from(name, ":"@, 0);
    if let Some(k) = find(name, ":"@) {
        assert(name.subrange(k, k + 1)[0] == name[k]);
    }
}

/// The first line that gives a length decides; lines that give none are passed
/// over.
pub proof fn the_first_length_decides(line: Seq<char>, rest: Seq<char>)
    requires
        forall|i: int| 0 <= i < line.len() ==> #[trigger] line[i] != '\n',
        line.len() == 0 || line.last() != '\r',
    ensures
        length_in(line + seq!['\n'] + rest) == match line_length(line) {
            Some(n) => Some(n),
            None => length_in(rest),
        },
        length_in(line + seq!['\r', '\n'] + rest) == match line_length(line) {
            Some(n) => Some(n),
            None => length_in(rest),
        },
        line.len() > 0 ==> length_in(line) == line_length(line),
        length_in(Seq::empty()) is None,
{
    crate::text::a_line_feed_ends_a_line(line, rest);
    let all = lines(line + seq!['\n'] + rest);
    assert(all[0] == line);
    assert(all.skip(1) =~= lines(rest));
    let ended = line + seq!['\r'];
    assert forall|i: int| 0 <= i < ended.len() implies #[trigger] ended[i] != '\n' by {
        if i < line.len() {
            assert(ended[i] == line[i]);
        }
    }
    crate::text::a_line_feed_ends_a_line(ended, rest);
    assert(ended.drop_last() =~= line);
    assert(ended + seq!['\n'] + rest =~= line + seq!['\r', '\n'] + rest);
    let others = lines(ended + seq!['\n'] + rest);
    assert(others[0] == line);
    assert(others.skip(1) =~= lines(rest));
    if line.len() > 0 {
        assert(lines(line) =~= seq![line]);
        assert(seq![line].skip(1).len() == 0);
        assert(first_length(seq![line].skip(1)) is None);
    }
}

/// A frame is the length of its body in a header and the body itself: what
/// stands behind the header is the body, byte for byte.
pub proof fn a_frame_ends_with_its_body(body: Seq<u8>)
    ensures
        ({
            let header = encode_utf8(
                "Content-Length: "@ + decimal(body.len()) + "\r\n\r\n"@,
            );
            let frame = encode_utf8(header_text(body.len())) + body;
            &&& frame.take(header.len() as int) == header
            &&& frame.skip(header.len() as int) == body
        }),
{
    let header = encode_utf8(header_text(body.len()));
    assert((header + body).take(header.len() as int) =~= header);
    assert((header + body).skip(header.len() as int) =~= body);
}

/// A reply holds the version of the protocol, the id and the result, each under
/// its key, and nothing else.
pub proof fn a_reply_holds_id_and_result(id: Json, result: Json, key: Seq<char>)
    ensures
        member(replied(id, result), "jsonrpc"@) == Some(Json::Text("2.0"@)),
        member(replied(id, result), "id"@) == Some(id),
        member(replied(id, result), "result"@) == Some(result),
        member(replied(id, result), key) is Some ==> key == "jsonrpc"@ || key == "id"@ || key
            == "result"@,
{
    reveal_strlit("id");
    reveal_strlit("result");
    reveal_strlit("jsonrpc");
    assert("id"@.len() == 2 && "result"@.len() == 6 && "jsonrpc"@.len() == 7);
}

/// The method of a message is the text under its `method`; without one it is
/// empty.
pub proof fn a_message_names_its_method(message: Json, name: Seq<char>)
    ensures
        member(message, "method"@) == Some(Json::Text(name)) ==> method_of(message) == name,
        !(member(message, "method"@) matches Some(Json::Text(_))) ==> method_of(message).len() == 0,
{
    reveal_strlit("");
}

/// `initialize` with an id is answered with an empty set of capabilities, and
/// says that the server is ready. Any other request is answered with null. The
/// server leaves on `exit`; where it was told to ignore that, it stays silent on
/// it and on `shutdown`. Without an id, and but for `exit`, it is silent.
pub proof fn each_method_has_its_answer(response: Response, message: Json, ignore_shutdown: bool)
    requires
        response.answers(message, ignore_shutdown),
    ensures
        member(message, "id"@) matches Some(id) ==> {
            &&& method_of(message) == "initialize"@ ==> (response matches Response::Reply {
                message: reply,
                ready,
            } && ready && member(json(reply), "id"@) == Some(id) && ({
                &&& member(json(reply), "result"@) matches Some(result)
                &&& member(result, "capabilities"@) == Some(Json::Object(no_members()))
                &&& forall|key: Seq<char>| #[trigger]
                    member(result, key) is Some ==> key == "capabilities"@
            }))
            &&& method_of(message) != "initialize"@ && method_of(message) != "exit"@ && (
            method_of(message) != "shutdown"@ || !ignore_shutdown) ==> (
            response matches Response::Reply { message: reply, ready } && !ready && member(
                json(reply),
                "id"@,
            ) == Some(id) && member(json(reply), "result"@) == Some(Json::Null))
        },
        member(message, "id"@) is None && method_of(message) != "exit"@ ==> response is Silence,
        method_of(message) == "exit"@ && !ignore_shutdown ==> response is Exit,
        method_of(message) == "exit"@ && ignore_shutdown ==> response is Silence,
        method_of(message) == "shutdown"@ && ignore_shutdown ==> response is Silence,
        response is Exit ==> method_of(message) == "exit"@ && !ignore_shutdown,
{
    lemma_methods_differ();
    if let Some(id) = member(message, "id"@) {
        a_reply_holds_id_and_result(id, no_capabilities(), "id"@);
        a_reply_holds_id_and_result(id, Json::Null, "id"@);
    }
}
/// A length is returned exactly where a header gives one, and then it is that
/// one.
pub proof fn a_returned_length_is_the_one_given(r: Option<usize>, n: Option<nat>)
    requires
        same_number(r, n),
    ensures
        r is Some == n is Some,
        r matches Some(k) ==> n == Some(k as nat),
{
}

// ---- What the functions give ----

/// A header is complete at its empty line, and a frame gives its length in
/// front of its body.
pub proof fn frames_carry_their_length(
    header: &[u8],
    done: bool,
    body: &[u8],
    r: Vec<u8>,
    text: &str,
    length: Option<usize>,
)
    requires
        call_ensures(header_complete, (header,), done),
        call_ensures(frame, (body,), r),
        call_ensures(content_length_in, (text,), length),
    ensures
        done <==> header@.len() >= 4 && header@.skip(header@.len() - 4) == seq![
            13u8,
            10u8,
            13u8,
            10u8,
        ],
        r@ == encode_utf8("Content-Length: "@ + decimal(body@.len()) + "\r\n\r\n"@) + body@,
        length matches Some(n) ==> length_in(text@) == Some(n as nat),
        length is None ==> length_in(text@) is None,
{
    let n = header@.len() as int;
    if done {
        assert(header@.skip(n - 4) =~= seq![13u8, 10u8, 13u8, 10u8]);
    }
    if n >= 4 && header@.skip(n - 4) == seq![13u8, 10u8, 13u8, 10u8] {
        let end = header@.skip(n - 4);
        assert(end[0] == header@[n - 4] && end[1] == header@[n - 3]);
        assert(end[2] == header@[n - 2] && end[3] == header@[n - 1]);
    }
}

/// A message is framed as its compact text.
pub proof fn a_message_is_framed_as_its_text(
    message: &serde_json::Value,
    r: Vec<u8>,
    header: &[u8],
    length: Option<usize>,
)
    requires
        call_ensures(message_frame, (message,), r),
        call_ensures(content_length, (header,), length),
    ensures
        ({
            let text = encode_utf8(json_text(*message));
            r@ == encode_utf8("Content-Length: "@ + decimal(text.len()) + "\r\n\r\n"@) + text
        }),
        valid_utf8(header@) ==> (length is Some <==> length_in(decode_utf8(header@)) is Some),
        valid_utf8(header@) ==> (length matches Some(n) ==> length_in(decode_utf8(header@)) == Some(
            n as nat,
        )),
{
}

/// A reply holds the id of its request and the result.
pub proof fn a_reply_is_under_its_id(
    id: &serde_json::Value,
    result: serde_json::Value,
    r: serde_json::Value,
)
    requires
        call_ensures(reply, (id, result), r),
    ensures
        member(json(r), "jsonrpc"@) == Some(Json::Text("2.0"@)),
        member(json(r), "id"@) == Some(json(*id)),
        member(json(r), "result"@) == Some(json(result)),
{
    a_reply_holds_id_and_result(json(*id), json(result), "id"@);
}

/// Each message gets the answer of its method, and a body that is no JSON ends
/// the conversation.
pub proof fn each_message_gets_its_answer(
    message: &serde_json::Value,
    body: &[u8],
    ignore_shutdown: bool,
    r: Response,
    handled: Response,
)
    requires
        call_ensures(respond, (message, ignore_shutdown), r),
        call_ensures(handle, (body, ignore_shutdown), handled),
    ensures
        r.answers(json(*message), ignore_shutdown),
        parsed_json(body@) matches Some(read) ==> handled.answers(read, ignore_shutdown),
        parsed_json(body@) is None ==> handled is Exit,
        r is Exit ==> method_of(json(*message)) == "exit"@ && !ignore_shutdown,
        member(json(*message), "id"@) is None ==> !(r is Reply),
        member(json(*message), "id"@) is Some && method_of(json(*message)) == "initialize"@ ==> (
        r matches Response::Reply { ready, .. } && ready),
{
    each_method_has_its_answer(r, json(*message), ignore_shutdown);
}

} // verus!
