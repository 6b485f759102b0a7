//! Log lines shown in the application: a kind and a text.
use vstd::prelude::*;
use vstd::string::*;

verus! {

/// What a log line is about.
#[derive(Debug, Clone, Copy, PartialEq, Eq, Structural)]
pub enum LogKind {
    Client,
    Record,
    Upload,
    Watcher,
}

/// The name a kind is shown with.
pub open spec fn kind_label(k: LogKind) -> Seq<char> {
    match k {
        LogKind::Client => "Client"@,
        LogKind::Record => "Record"@,
        LogKind::Upload => "Upload"@,
        LogKind::Watcher => "Watcher"@,
    }
}

/// How a log line is shown: `[Kind] text`.
pub open spec fn log_text(kind: LogKind, value: Seq<char>) -> Seq<char> {
    "["@ + kind_label(kind) + "] "@ + value
}

impl LogKind {
    /// The name the kind is shown with.
    pub fn to_string(&self) -> (s: String)
        ensures
            s@ == kind_label(*self),
    {
        match self {
            LogKind::Client => String::from_str("Client"),
            LogKind::Record => String::from_str("Record"),
            LogKind::Upload => String::from_str("Upload"),
            LogKind::Watcher => String::from_str("Watcher"),
        }
    }
}

/// One log line.
#[derive(Debug, Clone)]
pub struct Log {
    pub kind: LogKind,
    pub value: String,
}

impl Log {
    /// The line as shown: `[Kind] text`.
    pub fn to_string(&self) -> (s: String)
        ensures
            s@ == log_text(self.kind, self.value@),
    {
        let mut s = String::from_str("[");
        let label = self.kind.to_string();
        s.append(label.as_str());
        s.append("] ");
        s.append(self.value.as_str());
        s
    }
}

} // verus!
