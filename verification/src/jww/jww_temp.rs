//! The exchange file's message state: the one notice or error the host
//! CAD application will show.

use vstd::prelude::*;

verus! {

/// A message for the host application: a notice shown on success, or an
/// error that suppresses the drawing.
#[derive(Debug)]
pub enum Message {
    /// Shown when there is no error; only the last notice survives.
    Notice(String),
    /// Shown instead of the drawing; only the first error survives.
    Error(String),
}

/// The exchange file about to be written: its path and the message to
/// put at its head.
#[derive(Debug)]
pub struct JwwTemp {
    /// Path of the exchange file.
    pub path: String,
    /// The message to write, if any.
    pub message: Option<Message>,
}

impl JwwTemp {
    /// An exchange file at `path` with no message yet.
    pub fn new(path: &str) -> (r: JwwTemp)
        ensures
            r.path@ == path@,
            r.message is None,
    {
        JwwTemp { path: path.to_owned(), message: None }
    }

    /// Replaces the message with a notice: only the last notice is
    /// shown.
    pub fn notice(&mut self, message: &str)
        ensures
            final(self).path == old(self).path,
            final(self).message matches Some(m) && (m matches Message::Notice(s) && s@
                == message@),
    {
        self.message = Some(Message::Notice(message.to_owned()));
    }

    /// The head line the message becomes in the exchange file: notices
    /// carry the `h#` mark, errors the `he` mark.
    pub fn head_line(&self) -> (r: Option<String>)
        ensures
            match self.message {
                None => r is None,
                Some(Message::Notice(s)) => r is Some && r->Some_0@ == "h#"@ + s@,
                Some(Message::Error(s)) => r is Some && r->Some_0@ == "he"@ + s@,
            },
    {
        match &self.message {
            None => None,
            Some(Message::Notice(s)) => {
                let mut line: String = String::from_str("h#");
                line.append(s.as_str());
                Some(line)
            },
            Some(Message::Error(s)) => {
                let mut line: String = String::from_str("he");
                line.append(s.as_str());
                Some(line)
            },
        }
    }
}

} // verus!
