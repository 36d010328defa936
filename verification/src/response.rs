//! The response writer: from a reply to the text that goes on the wire.

use crate::text::{join, joined};
use vstd::prelude::*;

verus! {

/// The line break of the wire format: a carriage return and a line feed.
pub open spec fn line_break() -> Seq<char> {
    seq!['\r', '\n']
}

/// The text of a response: the header lines, the status line first, with a
/// line break between each two; then an empty line; then the body.
pub open spec fn response_text(headers: Seq<Seq<char>>, body: Seq<char>) -> Seq<char> {
    joined(headers, line_break()) + line_break() + line_break() + body
}

/// The response writer.
pub struct Response;

impl Response {
    /// Lays out a reply as the text of a response.
    ///
    /// Lines end in CRLF. Nothing is added to the header lines: a length
    /// header is there only if the reply brought one.
    pub fn process(headers: &Vec<String>, body: &str) -> (text: String)
        ensures
            text@ == response_text(headers.deep_view(), body@),
    {
        proof {
            reveal_strlit("\r\n");
        }
        assert("\r\n"@ =~= line_break());
        let mut text = join(headers, "\r\n");
        text.append("\r\n");
        text.append("\r\n");
        text.append(body);
        text
    }
}

} // verus!
