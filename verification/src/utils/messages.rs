//! Messages shown to the user next to the results of an operation.

use vstd::prelude::*;
use vstd::string::*;

verus! {

/// How serious a message is; `Info < Warning < Error`.
#[derive(Clone, Copy, Debug, PartialEq, Eq, Structural, PartialOrd, Ord, Hash)]
pub enum Severity {
    Info,
    Warning,
    Error,
}

/// The position of a severity in the order `Info < Warning < Error`.
pub open spec fn severity_rank(s: Severity) -> nat {
    match s {
        Severity::Info => 0,
        Severity::Warning => 1,
        Severity::Error => 2,
    }
}

/// The higher of two severities.
pub open spec fn higher(a: Severity, b: Severity) -> Severity {
    if severity_rank(a) >= severity_rank(b) {
        a
    } else {
        b
    }
}

impl Severity {
    /// The higher of `self` and `other`, as `Ord::max` gives it.
    pub fn max_of(self, other: Severity) -> (r: Severity)
        ensures
            r == higher(self, other),
    {
        match (self, other) {
            (Severity::Error, _) => Severity::Error,
            (_, Severity::Error) => Severity::Error,
            (Severity::Warning, _) => Severity::Warning,
            (_, Severity::Warning) => Severity::Warning,
            _ => Severity::Info,
        }
    }
}

/// What a message says: its text and its severity.
pub struct MessageView {
    pub text: Seq<char>,
    pub severity: Severity,
}

/// The text that separates two joined messages.
pub open spec fn join_separator() -> Seq<char> {
    seq!['.', ' ']
}

/// Two messages joined: the texts separated by `". "`, and the higher severity.
pub open spec fn joined(a: MessageView, b: MessageView) -> MessageView {
    MessageView { text: a.text + join_separator() + b.text, severity: higher(a.severity, b.severity) }
}

/// A message with its severity.
pub struct ResponseMessage {
    message: String,
    severity: Severity,
}

impl View for ResponseMessage {
    type V = MessageView;

    closed spec fn view(&self) -> MessageView {
        MessageView { text: self.message@, severity: self.severity }
    }
}

impl ResponseMessage {
    /// A message with the given text and severity.
    pub fn new(message: String, severity: Severity) -> (r: Self)
        ensures
            r@ == (MessageView { text: message@, severity }),
    {
        ResponseMessage { message, severity }
    }

    /// An informative message.
    pub fn new_info(message: String) -> (r: Self)
        ensures
            r@ == (MessageView { text: message@, severity: Severity::Info }),
    {
        ResponseMessage::new(message, Severity::Info)
    }

    /// A warning.
    pub fn new_warning(message: String) -> (r: Self)
        ensures
            r@ == (MessageView { text: message@, severity: Severity::Warning }),
    {
        ResponseMessage::new(message, Severity::Warning)
    }

    /// An error message.
    pub fn new_error(message: String) -> (r: Self)
        ensures
            r@ == (MessageView { text: message@, severity: Severity::Error }),
    {
        ResponseMessage::new(message, Severity::Error)
    }

    /// Joins two messages together, keeping the higher severity.
    pub fn join(self, other: Self) -> (r: Self)
        ensures
            r@ == joined(self@, other@),
    {
        let mut message = self.message;
        proof {
            reveal_strlit(". ");
            assert(". "@ =~= join_separator());
        }
        message.append(". ");
        message.append(other.message.as_str());
        let r = ResponseMessage { message, severity: self.severity.max_of(other.severity) };
        assert(r@.text =~= joined(self@, other@).text);
        r
    }

    /// Joins `other` onto this message, in place.
    pub fn append(&mut self, other: Self)
        ensures
            final(self)@ == joined(old(self)@, other@),
    {
        proof {
            reveal_strlit(". ");
            assert(". "@ =~= join_separator());
        }
        self.message.append(". ");
        self.message.append(other.message.as_str());
        self.severity = self.severity.max_of(other.severity);
        assert(self@.text =~= joined(old(self)@, other@).text);
    }

    /// The text of the message.
    pub fn message(&self) -> (r: &str)
        ensures
            r@ == self@.text,
    {
        self.message.as_str()
    }

    /// The severity of the message.
    pub fn severity(&self) -> (r: Severity)
        ensures
            r == self@.severity,
    {
        self.severity
    }
}

/// Joining messages is associative: a chain of joins gives the same
/// message however it is grouped.
pub proof fn lemma_join_associative(a: MessageView, b: MessageView, c: MessageView)
    ensures
        joined(joined(a, b), c) == joined(a, joined(b, c)),
{
    assert(joined(joined(a, b), c).text =~= joined(a, joined(b, c)).text);
}

/// A joined message is at least as severe as each of its parts, and is as
/// severe as one of them.
pub proof fn lemma_join_keeps_higher_severity(a: MessageView, b: MessageView)
    ensures
        severity_rank(joined(a, b).severity) >= severity_rank(a.severity),
        severity_rank(joined(a, b).severity) >= severity_rank(b.severity),
        joined(a, b).severity == a.severity || joined(a, b).severity == b.severity,
{
}

/// A joined message begins with the first message and ends with the second.
pub proof fn lemma_join_keeps_both_texts(a: MessageView, b: MessageView)
    ensures
        joined(a, b).text.subrange(0, a.text.len() as int) == a.text,
        joined(a, b).text.subrange(
            joined(a, b).text.len() - b.text.len(),
            joined(a, b).text.len() as int,
        ) == b.text,
{
    let t = joined(a, b).text;
    assert(t.subrange(0, a.text.len() as int) =~= a.text);
    assert(t.subrange(t.len() - b.text.len(), t.len() as int) =~= b.text);
}

} // verus!
