//! Reports of lint violations, and combining them per lint and level.
use crate::lint::{lint_docs, lint_name, lint_name_rank, Lint};
use crate::text::{
    copy_string, decimal, joined, push_char, push_decimal, sort_strings, sorted, views,
};
use vstd::prelude::*;

verus! {

broadcast use vstd::seq_lib::group_seq_properties;

/// How serious a report is; later variants are more serious.
#[derive(Clone, Copy, Debug, PartialEq, Eq, Structural, Hash, PartialOrd, Ord)]
pub enum Level {
    Info,
    Warning,
    Error,
}

/// The position of a level in declaration order, by which levels are ordered.
pub open spec fn level_rank(l: Level) -> nat {
    match l {
        Level::Info => 0,
        Level::Warning => 1,
        Level::Error => 2,
    }
}

/// The level at a position in declaration order.
pub open spec fn level_at(i: nat) -> Level {
    if i == 0 { Level::Info } else if i == 1 { Level::Warning } else { Level::Error }
}

impl Level {
    /// The level at position `i` in declaration order.
    pub fn at(i: u64) -> (res: Level)
        requires
            i < 3,
        ensures
            res == level_at(i as nat),
            level_rank(res) == i,
    {
        if i == 0 { Level::Info } else if i == 1 { Level::Warning } else { Level::Error }
    }

    /// The position of this level in declaration order.
    pub fn rank(&self) -> (res: u64)
        ensures
            res == level_rank(*self),
    {
        match self {
            Level::Info => 0,
            Level::Warning => 1,
            Level::Error => 2,
        }
    }
}

/// One violation of a lint: the item it concerns (a package or a file).
pub struct Report {
    pub lint: Lint,
    pub level: Level,
    pub item: String,
}

/// A report as plain values.
pub type ReportView = (Lint, Level, Seq<char>);

impl View for Report {
    type V = ReportView;

    open spec fn view(&self) -> ReportView {
        (self.lint, self.level, self.item@)
    }
}

/// The views of a sequence of reports.
pub open spec fn report_views(rs: Seq<Report>) -> Seq<ReportView> {
    rs.map_values(|r: Report| r@)
}

/// All the reports of one lint at one level.
pub struct CombinedReport {
    pub lint: Lint,
    pub level: Level,
    pub items: Vec<String>,
}

/// A combined report as plain values.
pub type CombinedView = (Lint, Level, Seq<Seq<char>>);

impl View for CombinedReport {
    type V = CombinedView;

    open spec fn view(&self) -> CombinedView {
        (self.lint, self.level, views(self.items@))
    }
}

/// The views of a sequence of combined reports.
pub open spec fn combined_views(rs: Seq<CombinedReport>) -> Seq<CombinedView> {
    rs.map_values(|r: CombinedReport| r@)
}

/// The position of a (lint, level) pair when pairs are ordered by level, then
/// alphabetically by the lint's name.
pub open spec fn key_rank(lint: Lint, level: Level) -> nat {
    level_rank(level) * 9 + lint_name_rank(lint)
}

/// The items of the reports of `lint` at `level`, in the order of the reports.
pub open spec fn items_with(rs: Seq<ReportView>, lint: Lint, level: Level) -> Seq<Seq<char>>
    decreases rs.len(),
{
    if rs.len() == 0 {
        Seq::empty()
    } else {
        let rest = items_with(rs.drop_last(), lint, level);
        let r = rs.last();
        if r.0 == lint && r.1 == level { rest.push(r.2) } else { rest }
    }
}

/// Whether some combined report is for `lint` at `level`.
pub open spec fn has_key(out: Seq<CombinedView>, lint: Lint, level: Level) -> bool {
    exists|i: int| 0 <= i < out.len() && (#[trigger] out[i]).0 == lint && out[i].1 == level
}

/// What combining gives: one combined report per (lint, level) pair that occurs, in order
/// of level and then of the lint's name, each holding the items of its reports sorted.
pub open spec fn is_combination(rs: Seq<ReportView>, out: Seq<CombinedView>) -> bool {
    &&& forall|i: int, j: int|
        0 <= i < j < out.len() ==> key_rank(out[i].0, out[i].1) < key_rank(out[j].0, out[j].1)
    &&& forall|i: int|
        0 <= i < out.len() ==> {
            &&& (#[trigger] out[i]).2.to_multiset() == items_with(rs, out[i].0, out[i].1).to_multiset()
            &&& sorted(out[i].2)
            &&& out[i].2.len() > 0
        }
    &&& forall|k: int| 0 <= k < rs.len() ==> has_key(out, (#[trigger] rs[k]).0, rs[k].1)
}

/// The items of `reports` that have `lint` and `level`.
fn collect_items(reports: &Vec<Report>, lint: Lint, level: Level) -> (res: Vec<String>)
    ensures
        views(res@) == items_with(report_views(reports@), lint, level),
{
    let mut out: Vec<String> = Vec::new();
    let mut i: usize = 0;
    while i < reports.len()
        invariant
            i <= reports@.len(),
            views(out@) == items_with(report_views(reports@.subrange(0, i as int)), lint, level),
        decreases reports@.len() - i,
    {
        let r = &reports[i];
        let ghost before = report_views(reports@.subrange(0, i as int));
        proof {
            let now = report_views(reports@.subrange(0, i + 1));
            assert(now.drop_last() =~= before);
            assert(now.last() == r@);
        }
        if r.lint == lint && r.level == level {
            out.push(copy_string(&r.item));
            assert(views(out@) =~= items_with(before, lint, level).push(r.item@));
        }
        i = i + 1;
    }
    assert(reports@.subrange(0, i as int) =~= reports@);
    out
}

/// Every report of `lint` and `level` contributes an item.
proof fn lemma_items_with_nonempty(rs: Seq<ReportView>, k: int)
    requires
        0 <= k < rs.len(),
    ensures
        items_with(rs, rs[k].0, rs[k].1).len() > 0,
    decreases rs.len(),
{
    if k < rs.len() - 1 {
        lemma_items_with_nonempty(rs.drop_last(), k);
        assert(rs.drop_last()[k] == rs[k]);
    }
}

/// Combines reports per lint and level, as `check` shows them.
pub trait CombineReports {
    /// One combined report per lint and level.
    fn combine_reports(self) -> Vec<CombinedReport>;
}

impl CombineReports for Vec<Report> {
    fn combine_reports(self) -> (res: Vec<CombinedReport>)
        ensures
            is_combination(report_views(self@), combined_views(res@)),
    {
        broadcast use vstd::seq_lib::group_to_multiset_ensures;
        let ghost rs = report_views(self@);
        let mut out: Vec<CombinedReport> = Vec::new();
        let mut key: u64 = 0;
        while key < 27
            invariant
                key <= 27,
                rs == report_views(self@),
                forall|i: int, j: int|
                    0 <= i < j < out@.len() ==> key_rank(out@[i].lint, out@[i].level) < key_rank(
                        out@[j].lint,
                        out@[j].level,
                    ),
                forall|i: int| 0 <= i < out@.len() ==> key_rank(#[trigger] out@[i].lint, out@[i].level) < key,
                forall|i: int|
                    0 <= i < out@.len() ==> {
                        &&& views((#[trigger] out@[i]).items@).to_multiset() == items_with(rs, out@[i].lint, out@[i].level).to_multiset()
                        &&& sorted(views(out@[i].items@))
                        &&& views(out@[i].items@).len() > 0
                    },
                forall|k: int|
                    0 <= k < rs.len() && key_rank(rs[k].0, rs[k].1) < key ==> has_key(
                        combined_views(out@),
                        (#[trigger] rs[k]).0,
                        rs[k].1,
                    ),
            decreases 27 - key,
        {
            let level = Level::at(key / 9);
            let lint = Lint::in_name_order(key % 9);
            assert(key_rank(lint, level) == key);
            let items = collect_items(&self, lint, level);
            let ghost before = out@;
            if items.len() > 0 {
                let ghost collected = views(items@);
                let items = sort_strings(items);
                out.push(CombinedReport { lint, level, items });
                proof {
                    assert forall|i: int| 0 <= i < out@.len() implies {
                        &&& views((#[trigger] out@[i]).items@).to_multiset() == items_with(rs, out@[i].lint, out@[i].level).to_multiset()
                        &&& sorted(views(out@[i].items@))
                        &&& views(out@[i].items@).len() > 0
                    } by {
                        if i < before.len() {
                            assert(out@[i] == before[i]);
                        } else {
                            assert(views(out@[i].items@).to_multiset().len() == collected.to_multiset().len());
                        }
                    }
                }
            }
            proof {
                assert forall|k: int|
                    0 <= k < rs.len() && key_rank(rs[k].0, rs[k].1) < key + 1 implies has_key(
                        combined_views(out@),
                        (#[trigger] rs[k]).0,
                        rs[k].1,
                    ) by {
                    let cv = combined_views(out@);
                    if key_rank(rs[k].0, rs[k].1) < key {
                        let cb = combined_views(before);
                        assert(has_key(cb, rs[k].0, rs[k].1));
                        let i = choose|i: int| 0 <= i < cb.len() && (#[trigger] cb[i]).0 == rs[k].0 && cb[i].1 == rs[k].1;
                        assert(out@[i] == before[i]);
                        assert(cv[i] == cb[i]);
                    } else {
                        assert(rs[k].1 == level && rs[k].0 == lint) by {
                            assert(level_rank(rs[k].1) == level_rank(level));
                            assert(lint_name_rank(rs[k].0) == lint_name_rank(lint));
                        }
                        lemma_items_with_nonempty(rs, k);
                        assert(out@.len() == before.len() + 1);
                        assert(cv[before.len() as int].0 == lint);
                    }
                }
            }
            key = key + 1;
        }
        proof {
            assert forall|k: int| 0 <= k < rs.len() implies key_rank(rs[k].0, rs[k].1) < 27 by {}
            let cv = combined_views(out@);
            assert forall|i: int| 0 <= i < cv.len() implies cv[i] == out@[i]@ by {}
            assert forall|i: int, j: int| 0 <= i < j < cv.len() implies key_rank(cv[i].0, cv[i].1) < key_rank(cv[j].0, cv[j].1) by {
                assert(cv[i] == out@[i]@);
                assert(cv[j] == out@[j]@);
            }
            assert forall|i: int| 0 <= i < cv.len() implies {
                &&& (#[trigger] cv[i]).2.to_multiset() == items_with(rs, cv[i].0, cv[i].1).to_multiset()
                &&& sorted(cv[i].2)
                &&& cv[i].2.len() > 0
            } by {
                assert(cv[i] == out@[i]@);
            }
            assert forall|k: int| 0 <= k < rs.len() implies has_key(cv, (#[trigger] rs[k]).0, rs[k].1) by {
                assert(key_rank(rs[k].0, rs[k].1) < 27);
            }
            assert(is_combination(rs, cv));
        }
        out
    }
}

/// The line `check` shows for a combined report:
/// `[lint-name] count description: item, item, ...`.
pub open spec fn combined_text(r: CombinedView) -> Seq<char> {
    seq!['['] + lint_name(r.0) + seq![']', ' '] + decimal(r.2.len()) + seq![' '] + lint_docs(r.0)
        + seq![':', ' '] + joined(r.2, ", "@)
}

impl CombinedReport {
    /// The text of this report (its `Display` form).
    pub fn to_text(&self) -> (res: String)
        ensures
            res@ == combined_text(self@),
    {
        let mut out = String::new();
        push_char(&mut out, '[');
        out.append(self.lint.name());
        push_char(&mut out, ']');
        push_char(&mut out, ' ');
        push_decimal(&mut out, self.items.len() as u64);
        push_char(&mut out, ' ');
        out.append(self.lint.docs());
        push_char(&mut out, ':');
        push_char(&mut out, ' ');
        let joined_items = crate::text::join(&self.items, ", ");
        out.append(joined_items.as_str());
        assert(out@ =~= combined_text(self@));
        out
    }
}

} // verus!
