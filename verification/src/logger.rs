//! The diagnostic trace: a hierarchical, indented record of the traversal.
//! The parser appends entries for observability only; nothing downstream of
//! the trace affects the produced requests. A front end renders the entries.

use vstd::prelude::*;

verus! {

/// One kind of trace notification.
pub enum LogEvent {
    Path(String),
    Method(String),
    Status(u16),
    Params,
    Body,
    Responses,
    Field(String, String),
}

/// One recorded notification, with the indent depth it was issued at.
pub struct LogEntry {
    pub indent: usize,
    pub event: LogEvent,
}

/// The trace sink: a current indent depth and the entries recorded so far.
pub struct Logger {
    pub indent: usize,
    pub entries: Vec<LogEntry>,
}

impl Logger {
    /// A fresh trace: no entries, indent at zero.
    pub fn new() -> (r: Logger)
        ensures
            r.indent == 0,
            r.entries@.len() == 0,
    {
        Logger { indent: 0, entries: Vec::new() }
    }

    pub fn increase_indent(&mut self)
        requires
            old(self).indent < usize::MAX,
        ensures
            final(self).indent == old(self).indent + 1,
            final(self).entries == old(self).entries,
    {
        self.indent = self.indent + 1;
    }

    pub fn decrease_indent(&mut self)
        requires
            old(self).indent >= 1,
        ensures
            final(self).indent == old(self).indent - 1,
            final(self).entries == old(self).entries,
    {
        self.indent = self.indent - 1;
    }

    pub fn path(&mut self, path: &str)
        ensures
            final(self).indent == old(self).indent,
            final(self).entries@.len() == old(self).entries@.len() + 1,
            final(self).entries@.subrange(0, old(self).entries@.len() as int) =~= old(
                self,
            ).entries@,
            final(self).entries@.last().indent == old(self).indent,
            (final(self).entries@.last().event matches LogEvent::Path(p) && p@ == path@),
    {
        let e = LogEntry { indent: self.indent, event: LogEvent::Path(path.to_owned()) };
        self.entries.push(e);
    }

    pub fn method(&mut self, method: &str)
        ensures
            final(self).indent == old(self).indent,
            final(self).entries@.len() == old(self).entries@.len() + 1,
            final(self).entries@.subrange(0, old(self).entries@.len() as int) =~= old(
                self,
            ).entries@,
            final(self).entries@.last().indent == old(self).indent,
            (final(self).entries@.last().event matches LogEvent::Method(m) && m@ == method@),
    {
        let e = LogEntry { indent: self.indent, event: LogEvent::Method(method.to_owned()) };
        self.entries.push(e);
    }

    pub fn status(&mut self, code: u16)
        ensures
            final(self).indent == old(self).indent,
            final(self).entries@ =~= old(self).entries@.push(
                LogEntry { indent: old(self).indent, event: LogEvent::Status(code) },
            ),
    {
        let e = LogEntry { indent: self.indent, event: LogEvent::Status(code) };
        self.entries.push(e);
    }

    pub fn params(&mut self)
        ensures
            final(self).indent == old(self).indent,
            final(self).entries@ =~= old(self).entries@.push(
                LogEntry { indent: old(self).indent, event: LogEvent::Params },
            ),
    {
        let e = LogEntry { indent: self.indent, event: LogEvent::Params };
        self.entries.push(e);
    }

    pub fn body(&mut self)
        ensures
            final(self).indent == old(self).indent,
            final(self).entries@ =~= old(self).entries@.push(
                LogEntry { indent: old(self).indent, event: LogEvent::Body },
            ),
    {
        let e = LogEntry { indent: self.indent, event: LogEvent::Body };
        self.entries.push(e);
    }

    pub fn responses(&mut self)
        ensures
            final(self).indent == old(self).indent,
            final(self).entries@ =~= old(self).entries@.push(
                LogEntry { indent: old(self).indent, event: LogEvent::Responses },
            ),
    {
        let e = LogEntry { indent: self.indent, event: LogEvent::Responses };
        self.entries.push(e);
    }

    pub fn field(&mut self, name: &str, typ: &str)
        ensures
            final(self).indent == old(self).indent,
            final(self).entries@.len() == old(self).entries@.len() + 1,
            final(self).entries@.subrange(0, old(self).entries@.len() as int) =~= old(
                self,
            ).entries@,
            final(self).entries@.last().indent == old(self).indent,
            (final(self).entries@.last().event matches LogEvent::Field(n, t) && n@ == name@ && t@
                == typ@),
    {
        let e = LogEntry {
            indent: self.indent,
            event: LogEvent::Field(name.to_owned(), typ.to_owned()),
        };
        self.entries.push(e);
    }
}

} // verus!
