//! The chat application: what its endpoints answer.

use crate::message::{message_line, MessageView};
use crate::registry::Reply;
use crate::request::{mapping, Params};
use crate::sessions::{
    message_views, sign_in_error, sign_up_error, AnonymSession, SessionError,
};
use crate::text::{contents, from_chars, join, joined, pieces, split, to_chars};
use crate::user::{password_hash, UserView};
use vstd::prelude::*;
use vstd::utf8::encode_utf8;

verus! {

/// The name and the value that one piece of a form body gives: what stands
/// before its first `=`, and what stands between its first and its second;
/// an empty value where it has no `=`.
pub open spec fn body_pair(piece: Seq<char>) -> (Seq<char>, Seq<char>) {
    let sides = pieces(piece, seq!['=']);
    (
        sides[0],
        if sides.len() > 1 {
            sides[1]
        } else {
            Seq::empty()
        },
    )
}

/// The pairs that a form body gives, one for each piece between `&`.
pub open spec fn body_pairs(body: Seq<char>) -> Seq<(Seq<char>, Seq<char>)> {
    let parts = pieces(body, seq!['&']);
    Seq::new(parts.len(), |i: int| body_pair(parts[i]))
}

/// The parameters that a form body stands for.
pub open spec fn body_params(body: Seq<char>) -> Map<Seq<char>, Seq<char>> {
    mapping(body_pairs(body))
}

/// The value of a parameter, and the empty text where it is not given.
pub open spec fn value_or_empty(params: Map<Seq<char>, Seq<char>>, name: Seq<char>) -> Seq<char> {
    if params.contains_key(name) {
        params[name]
    } else {
        Seq::empty()
    }
}

/// The ten digits.
pub open spec fn digits() -> Seq<char> {
    seq!['0', '1', '2', '3', '4', '5', '6', '7', '8', '9']
}

/// A number in decimal notation.
pub open spec fn decimal(n: nat) -> Seq<char>
    decreases n,
{
    if n < 10 {
        seq![digits()[n as int]]
    } else {
        decimal(n / 10).push(digits()[(n % 10) as int])
    }
}

/// A reply with a status line, a content type and the length of the body in
/// bytes as its header lines.
pub open spec fn sized_reply(status: Seq<char>, content_type: Seq<char>, body: Seq<char>) -> (
    Seq<Seq<char>>,
    Seq<char>,
) {
    (seq![status, content_type, "Content-length: "@ + decimal(encode_utf8(body).len())], body)
}

/// A reply that carries a page.
pub open spec fn page_reply(status: Seq<char>, body: Seq<char>) -> (Seq<Seq<char>>, Seq<char>) {
    sized_reply(status, "Content-type: text/html; charset=utf-8"@, body)
}

/// A reply that carries one result.
pub open spec fn result_reply(status: Seq<char>, result: Seq<char>) -> (Seq<Seq<char>>, Seq<char>) {
    sized_reply(
        status,
        "Content-type: application/json; charset=utf-8"@,
        "{\"result\":\""@ + result + "\"}"@,
    )
}

/// What a user is told when signing up is turned down.
pub open spec fn sign_up_message(error: SessionError) -> Seq<char> {
    match error {
        SessionError::EmptyLogin => "Empty login!"@,
        SessionError::LoginExists => "Login exists!"@,
        SessionError::EmptyPassword => "Empty password!"@,
        SessionError::PasswordTooSmall => "Password too small!"@,
        _ => "Unknown error!"@,
    }
}

/// What a user is told when signing in is turned down.
pub open spec fn sign_in_message(error: SessionError) -> Seq<char> {
    match error {
        SessionError::EmptyLogin => "Empty login!"@,
        SessionError::EmptyPassword => "Empty password!"@,
        SessionError::LoginNotFound => "Login not found!"@,
        SessionError::AuthFailed => "Auth failed!"@,
        _ => "Unknown error!"@,
    }
}

/// The name of an error.
pub open spec fn error_name(error: SessionError) -> Seq<char> {
    match error {
        SessionError::EmptyLogin => "EmptyLogin"@,
        SessionError::EmptyPassword => "EmptyPassword"@,
        SessionError::PasswordTooSmall => "PasswordTooSmall"@,
        SessionError::LoginExists => "LoginExists"@,
        SessionError::LoginNotFound => "LoginNotFound"@,
        SessionError::AuthFailed => "AuthFailed"@,
    }
}

/// The lines that show the messages.
pub open spec fn message_lines(messages: Seq<MessageView>) -> Seq<Seq<char>> {
    Seq::new(messages.len(), |i: int| message_line(messages[i].login, messages[i].text))
}

/// Reads a form body.
pub fn params_from_body(body: &str) -> (params: Params)
    ensures
        params@ == body_params(body@),
{
    let amp: [char; 1] = ['&'];
    let eq: [char; 1] = ['='];
    assert(amp@ =~= seq!['&']);
    assert(eq@ =~= seq!['=']);
    let chars = to_chars(body);
    let parts = split(chars.as_slice(), &amp);
    let mut params = Params::new();
    let mut i: usize = 0;
    while i < parts.len()
        invariant
            i <= parts.len(),
            eq@ == seq!['='],
            contents(parts@) == pieces(body@, seq!['&']),
            params@ == mapping(body_pairs(body@).take(i as int)),
        decreases parts.len() - i,
    {
        let sides = split(parts[i], &eq);
        assert(contents(parts@)[i as int] == parts@[i as int]@);
        assert(contents(sides@)[0] == sides@[0]@);
        let value = if sides.len() > 1 {
            assert(contents(sides@)[1] == sides@[1]@);
            from_chars(sides[1])
        } else {
            String::new()
        };
        params.insert(from_chars(sides[0]), value);
        assert(body_pairs(body@).take(i + 1).drop_last() =~= body_pairs(body@).take(i as int));
        i += 1;
    }
    assert(body_pairs(body@).take(parts.len() as int) =~= body_pairs(body@));
    params
}

/// The value of a parameter, and the empty text where it is not given.
pub fn value_of<'a>(params: &'a Params, name: &str) -> (value: &'a str)
    ensures
        value@ == value_or_empty(params@, name@),
{
    match params.get(name) {
        Some(value) => value.as_str(),
        None => {
            proof {
                reveal_strlit("");
            }
            assert(""@ =~= Seq::<char>::empty());
            ""
        },
    }
}

/// Appends a number in decimal notation.
pub fn push_decimal(out: &mut String, n: usize)
    ensures
        final(out)@ == old(out)@ + decimal(n as nat),
    decreases n,
{
    let ten: [char; 10] = ['0', '1', '2', '3', '4', '5', '6', '7', '8', '9'];
    assert(ten@ =~= digits());
    if n >= 10 {
        push_decimal(out, n / 10);
    }
    out.push(ten[n % 10]);
    assert(out@ =~= old(out)@ + decimal(n as nat));
}

/// The reply with the given status line, content type and body.
fn sized(status: &str, content_type: &str, body: String) -> (reply: Reply)
    ensures
        (reply.0.deep_view(), reply.1@) == sized_reply(status@, content_type@, body@),
{
    let mut length = String::from_str("Content-length: ");
    push_decimal(&mut length, body.as_str().as_bytes().len());
    let mut headers: Vec<String> = Vec::new();
    headers.push(String::from_str(status));
    headers.push(String::from_str(content_type));
    headers.push(length);
    assert(headers.deep_view() =~= sized_reply(status@, content_type@, body@).0);
    (headers, body)
}

/// The reply that carries a page.
pub fn page(status: &str, body: String) -> (reply: Reply)
    ensures
        (reply.0.deep_view(), reply.1@) == page_reply(status@, body@),
{
    sized(status, "Content-type: text/html; charset=utf-8", body)
}

/// The reply that carries one result.
fn result(status: &str, outcome: &str) -> (reply: Reply)
    ensures
        (reply.0.deep_view(), reply.1@) == result_reply(status@, outcome@),
{
    let mut body = String::from_str("{\"result\":\"");
    body.append(outcome);
    body.append("\"}");
    sized(status, "Content-type: application/json; charset=utf-8", body)
}

/// Answers a sign-up. The login and the password come in the form body.
pub fn sign_up(session: &mut AnonymSession, body: &str) -> (reply: Reply)
    ensures
        final(session).messages() == old(session).messages(),
        ({
            let params = body_params(body@);
            let login = value_or_empty(params, "login"@);
            let password = value_or_empty(params, "password"@);
            match sign_up_error(old(session).users(), login, password) {
                None => {
                    &&& final(session).users() == old(session).users().push(
                        UserView { login, password_hash: password_hash(password) },
                    )
                    &&& (reply.0.deep_view(), reply.1@) == result_reply("HTTP/1.1 201 Created"@, "ok"@)
                },
                Some(error) => {
                    &&& final(session).users() == old(session).users()
                    &&& (reply.0.deep_view(), reply.1@) == result_reply(
                        "HTTP/1.1 400 Bad Request"@,
                        sign_up_message(error),
                    )
                },
            }
        }),
{
    let params = params_from_body(body);
    match session.register(value_of(&params, "login"), value_of(&params, "password")) {
        Ok(_) => result("HTTP/1.1 201 Created", "ok"),
        Err(error) => {
            let message = match error {
                SessionError::EmptyLogin => "Empty login!",
                SessionError::LoginExists => "Login exists!",
                SessionError::EmptyPassword => "Empty password!",
                SessionError::PasswordTooSmall => "Password too small!",
                _ => "Unknown error!",
            };
            result("HTTP/1.1 400 Bad Request", message)
        },
    }
}

/// Answers a sign-in. The login and the password come in the form body.
pub fn sign_in(session: &mut AnonymSession, body: &str) -> (reply: Reply)
    ensures
        final(session).users() == old(session).users(),
        final(session).messages() == old(session).messages(),
        ({
            let params = body_params(body@);
            let login = value_or_empty(params, "login"@);
            let password = value_or_empty(params, "password"@);
            match sign_in_error(old(session).users(), login, password) {
                None => (reply.0.deep_view(), reply.1@) == result_reply("HTTP/1.1 200 Ok"@, "ok"@),
                Some(error) => (reply.0.deep_view(), reply.1@) == result_reply(
                    "HTTP/1.1 400 Bad Request"@,
                    sign_in_message(error),
                ),
            }
        }),
{
    let params = params_from_body(body);
    match session.auth(value_of(&params, "login"), value_of(&params, "password")) {
        Ok(_) => result("HTTP/1.1 200 Ok", "ok"),
        Err(error) => {
            let message = match error {
                SessionError::EmptyLogin => "Empty login!",
                SessionError::EmptyPassword => "Empty password!",
                SessionError::LoginNotFound => "Login not found!",
                SessionError::AuthFailed => "Auth failed!",
                _ => "Unknown error!",
            };
            result("HTTP/1.1 400 Bad Request", message)
        },
    }
}

/// Answers a request for the messages. The login and the password come as
/// query parameters. The messages come as lines with `<br />` between each two.
pub fn list_messages(session: &mut AnonymSession, params: &Params) -> (reply: Reply)
    ensures
        final(session).users() == old(session).users(),
        final(session).messages() == old(session).messages(),
        ({
            let login = value_or_empty(params@, "login"@);
            let password = value_or_empty(params@, "password"@);
            match sign_in_error(old(session).users(), login, password) {
                None => (reply.0.deep_view(), reply.1@) == result_reply(
                    "HTTP/1.1 200 Ok"@,
                    joined(message_lines(old(session).messages()), "<br />"@),
                ),
                Some(_) => (reply.0.deep_view(), reply.1@) == result_reply(
                    "HTTP/1.1 401 Unauthorized"@,
                    "auth failed"@,
                ),
            }
        }),
{
    match session.auth(value_of(params, "login"), value_of(params, "password")) {
        Ok(valid_session) => {
            let messages = valid_session.get_messages(0);
            assert(message_views(messages@).len() == messages@.len());
            let mut lines: Vec<String> = Vec::new();
            let mut i: usize = 0;
            while i < messages.len()
                invariant
                    i <= messages.len(),
                    lines.len() == i,
                    forall|j: int| 0 <= j < i ==> (#[trigger] lines@[j])@ == message_line(
                        messages@[j]@.login,
                        messages@[j]@.text,
                    ),
                decreases messages.len() - i,
            {
                lines.push(messages[i].format());
                i += 1;
            }
            proof {
                let all = valid_session@;
                assert(message_views(messages@) =~= all) by {
                    if 0 < all.len() {
                        assert(all.skip(0) =~= all);
                    }
                }
                assert(message_views(messages@).len() == messages@.len());
                assert forall|j: int| 0 <= j < lines.len() implies lines.deep_view()[j]
                    == message_lines(all)[j] by {
                    assert(message_views(messages@)[j] == messages@[j]@);
                }
                assert(lines.deep_view() =~= message_lines(all));
            }
            let listing = join(&lines, "<br />");
            result("HTTP/1.1 200 Ok", listing.as_str())
        },
        Err(_) => result("HTTP/1.1 401 Unauthorized", "auth failed"),
    }
}

/// Answers a new message. The login, the password and the message come in
/// the form body. There is no answer where the user is signed in and the
/// body gives no message.
pub fn post_message(session: &mut AnonymSession, body: &str) -> (reply: Option<Reply>)
    ensures
        final(session).users() == old(session).users(),
        ({
            let params = body_params(body@);
            let login = value_or_empty(params, "login"@);
            let password = value_or_empty(params, "password"@);
            match sign_in_error(old(session).users(), login, password) {
                None => if params.contains_key("message"@) {
                    &&& final(session).messages() == old(session).messages().push(
                        MessageView {
                            id: old(session).messages().len() as usize,
                            login,
                            text: params["message"@],
                        },
                    )
                    &&& reply matches Some(r)
                    &&& (r.0.deep_view(), r.1@) == result_reply("HTTP/1.1 201 Created"@, "ok"@)
                } else {
                    &&& final(session).messages() == old(session).messages()
                    &&& reply is None
                },
                Some(error) => {
                    &&& final(session).messages() == old(session).messages()
                    &&& reply matches Some(r)
                    &&& (r.0.deep_view(), r.1@) == result_reply(
                        "HTTP/1.1 401 Unauthorized"@,
                        error_name(error),
                    )
                },
            }
        }),
{
    let params = params_from_body(body);
    let login = value_of(&params, "login");
    match session.auth(login, value_of(&params, "password")) {
        Ok(valid_session) => {
            match params.get("message") {
                Some(text) => {
                    valid_session.add_message(login, text.as_str());
                    Some(result("HTTP/1.1 201 Created", "ok"))
                },
                None => None,
            }
        },
        Err(error) => {
            let name = match error {
                SessionError::EmptyLogin => "EmptyLogin",
                SessionError::EmptyPassword => "EmptyPassword",
                SessionError::PasswordTooSmall => "PasswordTooSmall",
                SessionError::LoginExists => "LoginExists",
                SessionError::LoginNotFound => "LoginNotFound",
                SessionError::AuthFailed => "AuthFailed",
            };
            Some(result("HTTP/1.1 401 Unauthorized", name))
        },
    }
}

} // verus!
