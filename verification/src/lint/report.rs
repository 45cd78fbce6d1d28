//! A single report that lists every item of a lint at once.
use crate::lint::{lint_docs, Lint};
use crate::text::{decimal, joined, push_char, push_decimal, sort_strings, sorted, views};
pub use crate::report::Level;
use vstd::prelude::*;

verus! {

/// A report with its whole message already written.
pub struct Report {
    pub lint: Lint,
    pub level: Level,
    pub message: String,
}

/// The message listing `items`: `count description: item, item, ...`.
pub open spec fn list_message(lint: Lint, items: Seq<Seq<char>>) -> Seq<char> {
    decimal(items.len()) + seq![' '] + lint_docs(lint) + seq![':', ' '] + joined(items, ", "@)
}

/// Turns a list of items into one report, if there are any items.
pub trait ReportIfAny {
    /// One report listing every item (sorted), or `None` where there are none.
    fn report_if_any(self, lint: Lint, level: Level) -> Option<Report>;
}

impl ReportIfAny for Vec<String> {
    fn report_if_any(self, lint: Lint, level: Level) -> (res: Option<Report>)
        ensures
            match res {
                None => self@.len() == 0,
                Some(r) => self@.len() > 0 && r.lint == lint && r.level == level && exists|s: Seq<Seq<char>>|
                    s.to_multiset() == views(self@).to_multiset() && sorted(s) && r.message@ == list_message(lint, s),
            },
    {
        broadcast use vstd::seq_lib::group_to_multiset_ensures;
        if self.len() == 0 {
            return None;
        }
        let strings = sort_strings(self);
        assert(views(strings@).len() == strings@.len());
        let mut message = String::new();
        push_decimal(&mut message, strings.len() as u64);
        push_char(&mut message, ' ');
        message.append(lint.docs());
        push_char(&mut message, ':');
        push_char(&mut message, ' ');
        let items = crate::text::join(&strings, ", ");
        message.append(items.as_str());
        assert(message@ =~= list_message(lint, views(strings@)));
        Some(Report { lint, level, message })
    }
}

} // verus!
