//! The local protocol between the commands and the daemon: where the socket is, how messages
//! are framed, and the shapes of requests and responses.

use crate::config;
use crate::json;
use crate::json::{field, object, Field, Json};
use crate::paths;
use crate::paths::path_join;
use crate::text;
use crate::text::find_char;
use vstd::prelude::*;
use vstd::string::*;

verus! {

/// The mode of the directory that holds the socket: the owner's alone.
pub const DIR_MODE: u32 = 0o700;

/// The mode of the socket: the owner's alone.
pub const SOCK_MODE: u32 = 0o600;

/// A request: its id, what is asked for, and with what.
#[derive(Debug)]
pub struct Request {
    pub id: String,
    pub method: String,
    pub params: Json,
}

/// Why a request was refused.
#[derive(Debug)]
pub struct ErrorBody {
    pub code: String,
    pub message: String,
}

/// The answer to a request.
#[derive(Debug)]
pub enum Response {
    Success { id: String, result: Json },
    Failure { id: String, error: ErrorBody },
}

impl Response {
    /// The answer of a request that was carried out.
    pub fn ok(id: String, result: Json) -> (r: Response)
        ensures
            r == (Response::Success { id, result }),
    {
        Response::Success { id, result }
    }

    /// The answer of a request that was refused.
    pub fn err(id: String, code: String, message: String) -> (r: Response)
        ensures
            r == (Response::Failure { id, error: ErrorBody { code, message } }),
    {
        Response::Failure { id, error: ErrorBody { code, message } }
    }
}

/// The JSON shape of a request.
pub open spec fn request_json(req: Request) -> json::JsonView {
    json::JsonView::Object(
        seq![
            ("id"@, json::JsonView::Text(req.id@)),
            ("method"@, json::JsonView::Text(req.method@)),
            ("params"@, req.params@),
        ],
    )
}

/// The JSON shape of a response: `ok` tells the two kinds apart.
pub open spec fn response_json(resp: Response) -> json::JsonView {
    match resp {
        Response::Success { id, result } => json::JsonView::Object(
            seq![
                ("id"@, json::JsonView::Text(id@)),
                ("ok"@, json::JsonView::Bool(true)),
                ("result"@, result@),
            ],
        ),
        Response::Failure { id, error } => json::JsonView::Object(
            seq![
                ("id"@, json::JsonView::Text(id@)),
                ("ok"@, json::JsonView::Bool(false)),
                (
                    "error"@,
                    json::JsonView::Object(
                        seq![
                            ("code"@, json::JsonView::Text(error.code@)),
                            ("message"@, json::JsonView::Text(error.message@)),
                        ],
                    ),
                ),
            ],
        ),
    }
}

/// The JSON value of a request.
pub fn request_value(req: Request) -> (r: Json)
    ensures
        r@ == request_json(req),
{
    let mut fields: Vec<Field> = Vec::new();
    fields.push(field("id", Json::Text(req.id)));
    fields.push(field("method", Json::Text(req.method)));
    fields.push(field("params", req.params));
    assert(json::field_views(fields@) =~= seq![
        ("id"@, json::JsonView::Text(req.id@)),
        ("method"@, json::JsonView::Text(req.method@)),
        ("params"@, req.params@),
    ]);
    object(fields)
}

/// The JSON value of a response.
pub fn response_value(resp: Response) -> (r: Json)
    ensures
        r@ == response_json(resp),
{
    let mut fields: Vec<Field> = Vec::new();
    match resp {
        Response::Success { id, result } => {
            fields.push(field("id", Json::Text(id)));
            fields.push(field("ok", Json::Bool(true)));
            fields.push(field("result", result));
            assert(json::field_views(fields@) =~= seq![
                ("id"@, json::JsonView::Text(id@)),
                ("ok"@, json::JsonView::Bool(true)),
                ("result"@, result@),
            ]);
        },
        Response::Failure { id, error } => {
            let mut body: Vec<Field> = Vec::new();
            body.push(field("code", Json::Text(error.code)));
            body.push(field("message", Json::Text(error.message)));
            assert(json::field_views(body@) =~= seq![
                ("code"@, json::JsonView::Text(error.code@)),
                ("message"@, json::JsonView::Text(error.message@)),
            ]);
            let inner = object(body);
            let ghost inner_view = inner@;
            fields.push(field("id", Json::Text(id)));
            fields.push(field("ok", Json::Bool(false)));
            fields.push(field("error", inner));
            assert(json::field_views(fields@) =~= seq![
                ("id"@, json::JsonView::Text(id@)),
                ("ok"@, json::JsonView::Bool(false)),
                ("error"@, inner_view),
            ]);
        },
    }
    object(fields)
}

/// The path of the daemon's socket: in the runtime directory where one is set, else under the
/// home directory.
pub open spec fn socket_path_text(
    runtime: Option<Seq<char>>,
    home: Option<Seq<char>>,
) -> Seq<char> {
    if runtime is Some && runtime->0.len() > 0 {
        paths::joined_path(runtime->0, "periodic/periodic.sock"@)
    } else {
        paths::joined_path(
            paths::home_or_empty(home),
            ".config/periodic/run/periodic.sock"@,
        )
    }
}

/// The path of the daemon's socket.
pub fn socket_path(runtime: Option<&str>, home: Option<&str>) -> (r: String)
    ensures
        r@ == socket_path_text(config::opt_str_view(runtime), config::opt_str_view(home)),
{
    if let Some(dir) = runtime {
        if !dir.is_empty() {
            return path_join(dir, "periodic/periodic.sock");
        }
    }
    path_join(paths::home_or(home), ".config/periodic/run/periodic.sock")
}

// ----------------------------------------------------------------------------- framing

/// The line that carries a message.
pub open spec fn framed(payload: Seq<char>) -> Seq<char> {
    payload + "\n"@
}

/// The first message of a stream and what follows it: up to the first line feed, or all of it
/// where there is none. An empty stream has no message.
pub open spec fn first_message(stream: Seq<char>) -> Option<(Seq<char>, Seq<char>)> {
    if stream.len() == 0 {
        None
    } else {
        match text::find(stream, '\n') {
            Some(i) => Some((stream.take(i as int), stream.skip(i as int + 1))),
            None => Some((stream, Seq::empty())),
        }
    }
}

/// Writes a JSON value as a message: on one line that ends with a line feed.
pub fn write_message(message: &Json) -> (r: String)
    ensures
        r@ == framed(json::compact_text(json::value_of(message@))),
        first_message(r@) == Some(
            (json::compact_text(json::value_of(message@)), Seq::<char>::empty()),
        ),
{
    let mut r = json::to_compact(message);
    proof {
        lemma_framing_round_trips(r@, Seq::<char>::empty());
        assert(framed(r@) + Seq::<char>::empty() =~= framed(r@));
    }
    r.append("\n");
    r
}

/// Reads the first message off a stream; none at its end.
pub fn read_message(stream: &str) -> (r: Option<(&str, &str)>)
    ensures
        (match r {
            Some((message, rest)) => first_message(stream@) == Some((message@, rest@)),
            None => first_message(stream@) is None,
        }),
{
    if stream.is_empty() {
        return None;
    }
    proof {
        text::lemma_find(stream@, '\n');
    }
    let n = stream.unicode_len();
    match find_char(stream, '\n') {
        Some(i) => {
            let message = stream.substring_char(0, i);
            let rest = stream.substring_char(i + 1, n);
            assert(message@ =~= stream@.take(i as int));
            assert(rest@ =~= stream@.skip(i as int + 1));
            Some((message, rest))
        },
        None => {
            let rest = stream.substring_char(n, n);
            assert(rest@ =~= Seq::<char>::empty());
            Some((stream, rest))
        },
    }
}

/// The first message read off a stream is the first one written to it, and what is left is
/// what was written after it. The message may not hold a line feed.
pub proof fn lemma_framing_round_trips(payload: Seq<char>, rest: Seq<char>)
    requires
        !payload.contains('\n'),
    ensures
        first_message(framed(payload) + rest) == Some((payload, rest)),
{
    reveal_strlit("\n");
    let s = framed(payload) + rest;
    text::lemma_find(s, '\n');
    assert(s[payload.len() as int] == '\n');
    assert(s.contains('\n'));
    let i = text::find(s, '\n')->0 as int;
    assert(i == payload.len()) by {
        if i < payload.len() {
            assert(payload[i] == s[i]);
        }
    }
    assert(s.take(i) =~= payload);
    assert(s.skip(i + 1) =~= rest);
}

/// The messages of a stream, in order.
pub open spec fn messages(stream: Seq<char>) -> Seq<Seq<char>>
    decreases stream.len(),
{
    if stream.len() == 0 {
        Seq::empty()
    } else {
        match text::find(stream, '\n') {
            Some(i) => if i < stream.len() {
                seq![stream.take(i as int)] + messages(stream.skip(i as int + 1))
            } else {
                seq![stream]
            },
            None => seq![stream],
        }
    }
}

/// The stream that the messages are written to.
pub open spec fn stream_of(payloads: Seq<Seq<char>>) -> Seq<char>
    decreases payloads.len(),
{
    if payloads.len() == 0 {
        Seq::empty()
    } else {
        framed(payloads[0]) + stream_of(payloads.drop_first())
    }
}

/// Messages are read back in the order in which they were written.
pub proof fn lemma_messages_read_back_in_order(payloads: Seq<Seq<char>>)
    requires
        text::free_of(payloads, '\n'),
    ensures
        messages(stream_of(payloads)) == payloads,
    decreases payloads.len(),
{
    if payloads.len() > 0 {
        let rest = payloads.drop_first();
        assert forall|i: int| 0 <= i < rest.len() implies !(#[trigger] rest[i]).contains('\n') by {
            assert(rest[i] == payloads[i + 1]);
        }
        lemma_messages_read_back_in_order(rest);
        assert(!payloads[0].contains('\n'));
        lemma_framing_round_trips(payloads[0], stream_of(rest));
        reveal_strlit("\n");
        let s = stream_of(payloads);
        assert(s.len() > 0);
        text::lemma_find(s, '\n');
        assert(s[payloads[0].len() as int] == '\n');
        assert(s.contains('\n'));
        assert(messages(s) =~= payloads);
    } else {
        assert(messages(stream_of(payloads)) =~= payloads);
    }
}

} // verus!
