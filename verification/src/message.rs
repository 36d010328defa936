//! Chat messages.

use vstd::prelude::*;

verus! {

/// A message that a user has sent.
pub struct Message {
    id: usize,
    login: String,
    text: String,
}

/// What a message holds.
pub struct MessageView {
    pub id: usize,
    pub login: Seq<char>,
    pub text: Seq<char>,
}

/// The line that shows a message: the sender's login in bold, a colon and a
/// space, then the text.
pub open spec fn message_line(login: Seq<char>, text: Seq<char>) -> Seq<char> {
    "<b>"@ + login + "</b>: "@ + text
}

impl View for Message {
    type V = MessageView;

    closed spec fn view(&self) -> MessageView {
        MessageView { id: self.id, login: self.login@, text: self.text@ }
    }
}

impl Message {
    /// The message number `id` from `login` that says `text`.
    pub fn new(id: usize, login: String, text: String) -> (message: Message)
        ensures
            message@ == (MessageView { id, login: login@, text: text@ }),
    {
        Message { id, login, text }
    }

    /// The line that shows this message.
    pub fn format(&self) -> (line: String)
        ensures
            line@ == message_line(self@.login, self@.text),
    {
        let mut line = String::from_str("<b>");
        line.append(self.login.as_str());
        line.append("</b>: ");
        line.append(self.text.as_str());
        line
    }
}

impl Clone for Message {
    /// A second message with the same number, sender and text.
    fn clone(&self) -> (copy: Self)
        ensures
            copy@ == self@,
    {
        Message { id: self.id, login: self.login.clone(), text: self.text.clone() }
    }
}

} // verus!
