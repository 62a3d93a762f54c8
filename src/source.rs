//! What sources send: the event alphabet, the multi-line aggregator that
//! turns physical lines into logical records, and the banners of a TCP
//! client's session.
use vstd::prelude::*;
use crate::pattern::{FancyPattern, fancy_match, fancy_is_match};
use crate::text::{concat, push_char, trim_line_end, trim_newlines};

verus! {

/// Where lines come from.
pub enum LogSource {
    /// A file to tail, by path.
    File(String),
    Stdin,
    /// A TCP port to listen on.
    Network(u16),
}

/// One event of a source.
pub enum SourceEvent {
    /// A logical record.
    Line(String),
    /// A record that the source makes up; it does not count as new data.
    SystemLine(String),
    /// A failure that the source survives.
    Error(String),
    /// A TCP client came, by peer address.
    Connected(String),
    /// A TCP client left, by peer address.
    Disconnected(String),
}

/// Coalesces physical lines into logical records: with a line-start regex, a
/// line that does not match it continues the pending record.
pub struct MultilineAggregator {
    pub regex: Option<FancyPattern>,
    pub pending: Option<String>,
}

/// Whether a line opens a new record; a regex failure counts as no.
pub open spec fn starts_record(p: Seq<char>, line: Seq<char>) -> bool {
    fancy_is_match(p, line) == Ok::<bool, Seq<char>>(true)
}

impl MultilineAggregator {
    pub fn new(regex: Option<FancyPattern>) -> (r: MultilineAggregator)
        ensures
            r.regex == regex,
            r.pending is None,
    {
        MultilineAggregator { regex, pending: None }
    }

    /// Takes one physical line (line ending stripped) and returns the records
    /// it completes.
    pub fn process_line(&mut self, line: &str) -> (r: Vec<String>)
        ensures
            final(self).regex == old(self).regex,
            ({
                let t = trim_newlines(line@);
                match old(self).regex {
                    None => r@.len() == 1 && r@[0]@ == t && final(self).pending == old(self).pending,
                    Some(p) => if starts_record(p@, t) {
                        &&& final(self).pending matches Some(s) && s@ == t
                        &&& match old(self).pending {
                            Some(q) => r@.len() == 1 && r@[0]@ == q@,
                            None => r@.len() == 0,
                        }
                    } else {
                        &&& r@.len() == 0
                        &&& final(self).pending matches Some(s) && s@ == match old(self).pending {
                            Some(q) => q@ + seq!['\n'] + t,
                            None => t,
                        }
                    },
                }
            }),
    {
        let trimmed = trim_line_end(line);
        let mut out: Vec<String> = Vec::new();
        match &self.regex {
            None => {
                out.push(trimmed);
            },
            Some(re) => {
                let is_start = match fancy_match(re, trimmed.as_str()) {
                    Ok(b) => b,
                    Err(_) => false,
                };
                if is_start {
                    let prev = self.pending.take();
                    match prev {
                        Some(p) => {
                            out.push(p);
                        },
                        None => {},
                    }
                    self.pending = Some(trimmed);
                } else {
                    let prev = self.pending.take();
                    match prev {
                        Some(p) => {
                            let mut joined = p;
                            push_char(&mut joined, '\n');
                            let joined = concat(joined.as_str(), trimmed.as_str());
                            self.pending = Some(joined);
                        },
                        None => {
                            self.pending = Some(trimmed);
                        },
                    }
                }
            },
        }
        out
    }

    /// Hands out the pending record at the end of the stream.
    pub fn flush(&mut self) -> (r: Option<String>)
        ensures
            r == old(self).pending,
            final(self).pending is None,
            final(self).regex == old(self).regex,
    {
        self.pending.take()
    }
}

/// The events that open a TCP client's session: `Connected`, then its banner.
pub fn session_open_events(peer: &str) -> (r: Vec<SourceEvent>)
    ensures
        r@.len() == 2,
        r@[0] matches SourceEvent::Connected(p) && p@ == peer@,
        r@[1] matches SourceEvent::SystemLine(s) && s@ == "[connected: "@ + peer@ + "]"@,
{
    let banner = concat(concat("[connected: ", peer).as_str(), "]");
    let mut v: Vec<SourceEvent> = Vec::new();
    v.push(SourceEvent::Connected(peer.to_string()));
    v.push(SourceEvent::SystemLine(banner));
    v
}

/// The events that close a TCP client's session: its banner, then
/// `Disconnected`.
pub fn session_close_events(peer: &str) -> (r: Vec<SourceEvent>)
    ensures
        r@.len() == 2,
        r@[0] matches SourceEvent::SystemLine(s) && s@ == "[disconnected: "@ + peer@ + "]"@,
        r@[1] matches SourceEvent::Disconnected(p) && p@ == peer@,
{
    let banner = concat(concat("[disconnected: ", peer).as_str(), "]");
    let mut v: Vec<SourceEvent> = Vec::new();
    v.push(SourceEvent::SystemLine(banner));
    v.push(SourceEvent::Disconnected(peer.to_string()));
    v
}

} // verus!
