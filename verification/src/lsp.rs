//! Talking to rust-analyzer: the events it is asked about, the framing of messages, the
//! reading of message headers, and the queue of events and responses between polls.
use vstd::prelude::*;
use crate::text::{string_of_str, concat, substring, char_len, str_equal};
use crate::rust_linter::{trim, trimmed};
use crate::key_handling::{parse_usize, usize_text};
use crate::term_render::{decimal, push_decimal};

verus! {

/// The events rust-analyzer is asked about.
#[derive(Debug, Clone, PartialEq, Eq)]
pub enum RustEvents {
    /// The project that is open changed (its path).
    Workspace(String),
    /// A range of lines changed: first line, last line, character index, completion text.
    UpdatedLines(usize, usize, usize, String),
    /// The mouse rests on a line and character.
    Hover(usize, usize),
    /// The whole program is to be linted.
    Lint,
    /// The whole file is to be synchronized.
    Synchronize,
    /// Completions are wanted at a line and character.
    Completion(usize, usize),
    /// The definition of what is at a line and character is wanted.
    GotoDefinition(usize, usize),
    /// A file was opened (its path).
    OpenedFile(String),
}

/// What rust-analyzer answers, for the code tabs.
#[derive(Debug, Clone, PartialEq, Eq)]
pub enum RustResponse {
    /// The types for a range of lines: file, first line, last line, the types.
    UpdateTypeHints(String, usize, usize, Vec<String>),
}

/// How a poll ended.
#[derive(Debug, Clone, PartialEq, Eq)]
pub enum ExitStatus {
    /// Every event was handled.
    Valid,
    /// No response came in time for the event.
    ResponseTimeOut(RustEvents),
    /// Something failed while gathering a response.
    Error,
    /// The reader stayed busy too long.
    ReadingBlockedTimeOut,
}

// ---------------------------------------------------------------- framing
/// The number of bytes `c` takes in UTF-8.
pub open spec fn utf8_len(c: char) -> nat {
    if (c as u32) < 0x80 {
        1
    } else if (c as u32) < 0x800 {
        2
    } else if (c as u32) < 0x10000 {
        3
    } else {
        4
    }
}

/// The number of bytes `s` takes in UTF-8.
pub open spec fn byte_len(s: Seq<char>) -> nat
    decreases s.len(),
{
    if s.len() == 0 {
        0
    } else {
        byte_len(s.drop_last()) + utf8_len(s.last())
    }
}

/// A message as it is sent: a header with its length in bytes, a blank line, the message.
pub open spec fn framed(message: Seq<char>) -> Seq<char> {
    "Content-Length: "@ + decimal(byte_len(message)) + seq!['\r', '\n', '\r', '\n'] + message
}

pub(crate) fn char_bytes(c: char) -> (n: u64)
    ensures
        n == utf8_len(c),
{
    let v = c as u32;
    if v < 0x80 {
        1
    } else if v < 0x800 {
        2
    } else if v < 0x10000 {
        3
    } else {
        4
    }
}

/// The message with its header, ready to write to rust-analyzer's input.
pub fn FrameMessage(message: &str) -> (text: String)
    requires
        message@.len() < u64::MAX / 4,
    ensures
        text@ == framed(message@),
{
    let n = message.unicode_len();
    let mut bytes: u64 = 0;
    let mut i: usize = 0;
    while i < n
        invariant
            n == message@.len(),
            n < u64::MAX / 4,
            i <= n,
            bytes == byte_len(message@.take(i as int)),
            bytes <= 4 * i,
        decreases n - i,
    {
        let c = message.get_char(i);
        proof {
            assert(message@.take(i + 1).drop_last() =~= message@.take(i as int));
        }
        bytes = bytes + char_bytes(c);
        i = i + 1;
    }
    proof {
        assert(message@.take(n as int) =~= message@);
    }
    let mut text = string_of_str("Content-Length: ");
    push_decimal(&mut text, bytes);
    text.append("\r\n\r\n");
    text.append(message);
    proof {
        reveal_strlit("\r\n\r\n");
        assert(text@ =~= framed(message@));
    }
    text
}

// ---------------------------------------------------------------- headers
/// A header line of a response.
#[derive(Debug, Clone, PartialEq, Eq)]
pub enum HeaderLine {
    /// The blank line that ends the headers.
    End,
    /// The body's length (0 when the number does not read).
    Length(usize),
    /// Any other header.
    Other,
}

/// What a header line says: blank once trimmed ends the headers; `Content-Length:` gives
/// the body's length (0 when the rest, trimmed, is not a number).
pub open spec fn header_of(line: Seq<char>) -> HeaderLine {
    let prefix = "Content-Length:"@;
    if trimmed(line).len() == 0 {
        HeaderLine::End
    } else if line.len() >= prefix.len() && line.take(prefix.len() as int) == prefix {
        match usize_text(trimmed(line.skip(prefix.len() as int))) {
            Some(v) => HeaderLine::Length(v as usize),
            None => HeaderLine::Length(0),
        }
    } else {
        HeaderLine::Other
    }
}

/// Reads a header line of a response (see `header_of`).
pub fn ParseHeaderLine(line: &String) -> (h: HeaderLine)
    ensures
        h == header_of(line@),
{
    let t = trim(line);
    if char_len(&t) == 0 {
        return HeaderLine::End;
    }
    let prefix = string_of_str("Content-Length:");
    let n = char_len(line);
    let p = char_len(&prefix);
    if n >= p && str_equal(substring(line, 0, p).as_str(), prefix.as_str()) {
        let rest = substring(line, p, n);
        let value = trim(&rest);
        proof {
            assert(rest@ =~= line@.skip(p as int));
            assert(line@.subrange(0, p as int) =~= line@.take(p as int));
        }
        match parse_usize(value.as_str()) {
            Some(v) => HeaderLine::Length(v),
            None => HeaderLine::Length(0),
        }
    } else {
        proof {
            if n >= p {
                assert(line@.subrange(0, p as int) =~= line@.take(p as int));
            }
        }
        HeaderLine::Other
    }
}

// ---------------------------------------------------------------- requests and responses
/// The parameters sent for an event: for changed lines, the document named by the open
/// file; nothing for the other events yet.
pub open spec fn request_of(event: RustEvents, filePath: Seq<char>) -> Seq<char> {
    match event {
        RustEvents::UpdatedLines(_, _, _, _) => request_left() + filePath + request_right(),
        _ => Seq::empty(),
    }
}

/// The text before the file's path in a document request.
pub open spec fn request_left() -> Seq<char> {
    "{\n                        \"textDocument\": {\n                            \"uri\": \"file://"@
}

/// The text after the file's path in a document request.
pub open spec fn request_right() -> Seq<char> {
    "\",\n                            \"version\": 2\n                        }\n                    }"@
}

/// The events waiting to be sent to rust-analyzer and the responses waiting to be used.
#[derive(Debug)]
pub struct RustAnalyzer {
    pub events: Vec<RustEvents>,
    pub responses: Vec<RustResponse>,
    /// The project's path and the open file's path.
    pub filePath: (String, String),
}

impl RustAnalyzer {
    /// No events or responses yet, for the given project and file.
    pub fn new(project: String, file: String) -> (r: RustAnalyzer)
        ensures
            r.events@.len() == 0,
            r.responses@.len() == 0,
            r.filePath.0 == project,
            r.filePath.1 == file,
    {
        RustAnalyzer { events: Vec::new(), responses: Vec::new(), filePath: (project, file) }
    }

    /// The request text for an event (see `request_of`).
    pub fn GetRequest(&mut self, event: &RustEvents) -> (request: String)
        ensures
            request@ == request_of(*event, old(self).filePath.1@),
            *final(self) == *old(self),
    {
        match event {
            RustEvents::UpdatedLines(_, _, _, _) => {
                let left = string_of_str(
                    "{\n                        \"textDocument\": {\n                            \"uri\": \"file://",
                );
                let right = string_of_str("\",\n                            \"version\": 2\n                        }\n                    }");
                concat(&concat(&left, &self.filePath.1), &right)
            },
            _ => String::new(),
        }
    }

    /// The response an answer gives for an event: none is read yet, whatever the event.
    pub fn ParseResponse(event: &RustEvents, response: String, filePath: &str) -> (r: Option<RustResponse>)
        ensures
            r is None,
    {
        None
    }

    /// Queues an event for the next poll.
    pub fn NewEvent(&mut self, event: RustEvents)
        ensures
            final(self).events@ == old(self).events@.push(event),
            final(self).responses == old(self).responses,
            final(self).filePath == old(self).filePath,
    {
        self.events.push(event);
    }

    /// Queues an event at the back of the queue: the poll takes events from the end, so it
    /// goes in front, to be handled after every event already queued.
    pub fn NewEventBack(&mut self, event: RustEvents)
        ensures
            final(self).events@ == seq![event] + old(self).events@,
            final(self).responses == old(self).responses,
            final(self).filePath == old(self).filePath,
    {
        self.events.insert(0, event);
        proof {
            assert(self.events@ =~= seq![event] + old(self).events@);
        }
    }

    /// Takes the last response, if any.
    pub fn PopResponse(&mut self) -> (r: Option<RustResponse>)
        ensures
            old(self).responses@.len() == 0 ==> r is None && final(self).responses@.len() == 0,
            old(self).responses@.len() > 0 ==> r == Some(old(self).responses@.last())
                && final(self).responses@ == old(self).responses@.drop_last(),
            final(self).events == old(self).events,
            final(self).filePath == old(self).filePath,
    {
        self.responses.pop()
    }

    /// Takes the next event to send (the last queued), if any.
    pub fn NextEvent(&mut self) -> (e: Option<RustEvents>)
        ensures
            old(self).events@.len() == 0 ==> e is None && final(self).events@.len() == 0,
            old(self).events@.len() > 0 ==> e == Some(old(self).events@.last())
                && final(self).events@ == old(self).events@.drop_last(),
            final(self).responses == old(self).responses,
            final(self).filePath == old(self).filePath,
    {
        self.events.pop()
    }

    /// Uses the answers gathered for `event`: none in time means the poll ends with a time
    /// out for the event; else each answer's response (see `ParseResponse`) is kept and the
    /// poll goes on (`None`).
    pub fn HandleResponses(&mut self, event: RustEvents, answers: Vec<String>) -> (exit: Option<ExitStatus>)
        ensures
            answers@.len() == 0 ==> exit == Some(ExitStatus::ResponseTimeOut(event)),
            answers@.len() > 0 ==> exit is None,
            *final(self) == *old(self),
    {
        if answers.len() == 0 {
            return Some(ExitStatus::ResponseTimeOut(event));
        }
        let path = concat(&concat(&self.filePath.0, &string_of_str("/")), &self.filePath.1);
        let mut i: usize = 0;
        while i < answers.len()
            invariant
                *self == *old(self),
                i <= answers@.len(),
            decreases answers@.len() - i,
        {
            let response = RustAnalyzer::ParseResponse(&event, answers[i].clone(), path.as_str());
            i = i + 1;
            match response {
                Some(r) => {
                    self.responses.push(r);
                },
                None => {},
            }
        }
        None
    }
}

} // verus!
