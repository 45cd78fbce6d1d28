//! Allow / warn / deny rules that change the level of reports.
use crate::config::CheckConfig;
use crate::lint::Lint;
use crate::report::{Level, Report, ReportView};
use crate::text::{split_once, split_once_spec, str_eq};
use vstd::prelude::*;

verus! {

/// A rule's target: a lint, optionally narrowed to one item (`LINT_NAME[:SUB_FILTER]`).
pub struct Filter {
    pub lint: Lint,
    pub sub_filter: Option<String>,
}

/// A filter as plain values.
pub type FilterView = (Lint, Option<Seq<char>>);

impl View for Filter {
    type V = FilterView;

    open spec fn view(&self) -> FilterView {
        (self.lint, match self.sub_filter { Some(s) => Some(s@), None => None })
    }
}

/// The views of a sequence of filters.
pub open spec fn filter_views(s: Seq<Filter>) -> Seq<FilterView> {
    s.map_values(|f: Filter| f@)
}

/// What a filter text means: before the first `:` a lint name (ignoring ASCII case),
/// after it the item; without `:`, the lint name alone.
pub open spec fn filter_from(text: Seq<char>) -> Option<FilterView> {
    match split_once_spec(text, ':') {
        Some((prefix, suffix)) => match crate::lint::lint_named(prefix, true) {
            Some(l) => Some((l, Some(suffix))),
            None => None,
        },
        None => match crate::lint::lint_named(text, true) {
            Some(l) => Some((l, None)),
            None => None,
        },
    }
}

impl Filter {
    /// Reads a filter from its text; the error names the text before `:` that is no lint.
    pub fn parse(text: &str) -> (res: Result<Filter, String>)
        ensures
            match res {
                Ok(f) => filter_from(text@) == Some(f@),
                Err(e) => filter_from(text@) is None && e@ == "invalid variant: "@ + match split_once_spec(text@, ':') {
                    Some((prefix, _)) => prefix,
                    None => text@,
                },
            },
    {
        match split_once(text, ':') {
            Some((prefix, suffix)) => match Lint::from_name(prefix.as_str(), true) {
                Ok(lint) => Ok(Filter { lint, sub_filter: Some(suffix) }),
                Err(e) => Err(e),
            },
            None => match Lint::from_name(text, true) {
                Ok(lint) => Ok(Filter { lint, sub_filter: None }),
                Err(e) => Err(e),
            },
        }
    }

    /// A copy of this filter.
    pub fn duplicate(&self) -> (res: Filter)
        ensures
            res@ == self@,
    {
        Filter {
            lint: self.lint,
            sub_filter: match &self.sub_filter {
                Some(s) => Some(s.clone()),
                None => None,
            },
        }
    }
}

impl std::str::FromStr for Filter {
    type Err = String;

    /// Reads a filter from its text, as `Filter::parse` does.
    fn from_str(string: &str) -> (res: Result<Filter, String>)
        ensures
            match res {
                Ok(f) => filter_from(string@) == Some(f@),
                Err(e) => filter_from(string@) is None && e@ == "invalid variant: "@ + match split_once_spec(string@, ':') {
                    Some((prefix, _)) => prefix,
                    None => string@,
                },
            },
    {
        Filter::parse(string)
    }
}

/// Each filter of the configuration with the level it sets: allow (info), then warn,
/// then deny (error).
pub open spec fn filter_levels(allow: Seq<FilterView>, warn: Seq<FilterView>, deny: Seq<FilterView>) -> Seq<(FilterView, Level)> {
    allow.map_values(|f: FilterView| (f, Level::Info)) + warn.map_values(|f: FilterView| (f, Level::Warning))
        + deny.map_values(|f: FilterView| (f, Level::Error))
}

/// The level each lint gets from the filters without an item, a later filter
/// overriding an earlier one for the same lint.
pub open spec fn rules_map(fl: Seq<(FilterView, Level)>) -> Map<Lint, Level>
    decreases fl.len(),
{
    if fl.len() == 0 {
        Map::empty()
    } else {
        let m = rules_map(fl.drop_last());
        let e = fl.last();
        if e.0.1 is None { m.insert(e.0.0, e.1) } else { m }
    }
}

/// The level each (lint, item) pair gets from the filters with an item, a later
/// filter overriding an earlier one for the same pair.
pub open spec fn sub_rules_map(fl: Seq<(FilterView, Level)>) -> Map<(Lint, Seq<char>), Level>
    decreases fl.len(),
{
    if fl.len() == 0 {
        Map::empty()
    } else {
        let m = sub_rules_map(fl.drop_last());
        let e = fl.last();
        match e.0.1 {
            Some(s) => m.insert((e.0.0, s), e.1),
            None => m,
        }
    }
}

/// The lint-level rules as a map.
pub open spec fn entries_map(s: Seq<(Lint, Level)>) -> Map<Lint, Level> {
    Map::new(
        |l: Lint| exists|i: int| 0 <= i < s.len() && (#[trigger] s[i]).0 == l,
        |l: Lint| s[choose|i: int| 0 <= i < s.len() && (#[trigger] s[i]).0 == l].1,
    )
}

/// The item-level rules as a map.
pub open spec fn sub_entries_map(s: Seq<(Lint, String, Level)>) -> Map<(Lint, Seq<char>), Level> {
    Map::new(
        |k: (Lint, Seq<char>)| exists|i: int| 0 <= i < s.len() && (#[trigger] s[i]).0 == k.0 && s[i].1@ == k.1,
        |k: (Lint, Seq<char>)| s[choose|i: int| 0 <= i < s.len() && (#[trigger] s[i]).0 == k.0 && s[i].1@ == k.1].2,
    )
}

/// Rules that set the level of reports: per lint, and per lint and item.
pub struct FilterRules {
    rules: Vec<(Lint, Level)>,
    sub_rules: Vec<(Lint, String, Level)>,
}

impl FilterRules {
    /// No lint has two rules, and no (lint, item) pair has two item rules.
    pub closed spec fn well_formed(&self) -> bool {
        &&& forall|i: int, j: int|
            0 <= i < j < self.rules@.len() ==> (#[trigger] self.rules@[i]).0 != (#[trigger] self.rules@[j]).0
        &&& forall|i: int, j: int|
            0 <= i < j < self.sub_rules@.len() ==> (#[trigger] self.sub_rules@[i]).0 != (#[trigger] self.sub_rules@[j]).0
                || self.sub_rules@[i].1@ != self.sub_rules@[j].1@
    }

    /// The level of each lint with a rule.
    pub closed spec fn rules_view(&self) -> Map<Lint, Level> {
        entries_map(self.rules@)
    }

    /// The level of each (lint, item) pair with a rule.
    pub closed spec fn sub_rules_view(&self) -> Map<(Lint, Seq<char>), Level> {
        sub_entries_map(self.sub_rules@)
    }

    fn set_rule(&mut self, lint: Lint, level: Level)
        requires
            old(self).well_formed(),
        ensures
            final(self).well_formed(),
            final(self).rules_view() == old(self).rules_view().insert(lint, level),
            final(self).sub_rules_view() == old(self).sub_rules_view(),
    {
        let ghost s0 = self.rules@;
        let mut i: usize = 0;
        while i < self.rules.len()
            invariant
                self.rules@ == s0,
                s0 == old(self).rules@,
                self.sub_rules@ == old(self).sub_rules@,
                old(self).well_formed(),
                i <= s0.len(),
                forall|j: int| 0 <= j < i ==> s0[j].0 != lint,
            decreases s0.len() - i,
        {
            if self.rules[i].0 == lint {
                self.rules.set(i, (lint, level));
                proof {
                    let s1 = self.rules@;
                    assert(entries_map(s1) =~= entries_map(s0).insert(lint, level)) by {
                        assert forall|l: Lint| entries_map(s1).contains_key(l) implies entries_map(s1)[l] == entries_map(s0).insert(lint, level)[l] by {
                            let k = choose|k: int| 0 <= k < s1.len() && (#[trigger] s1[k]).0 == l;
                            if l == lint {
                                assert(k == i) by {
                                    if k != i {
                                        if k < i { assert(s0[k].0 != lint); } else { assert(s0[i as int].0 != s0[k].0); }
                                    }
                                }
                            } else {
                                assert(s0[k].0 == l);
                                let k0 = choose|k: int| 0 <= k < s0.len() && (#[trigger] s0[k]).0 == l;
                                assert(k0 == k) by {
                                    if k0 < k { assert(s0[k0].0 != s0[k].0); } else if k0 > k { assert(s0[k].0 != s0[k0].0); }
                                }
                            }
                        }
                        assert forall|l: Lint| entries_map(s0).insert(lint, level).contains_key(l) implies entries_map(s1).contains_key(l) by {
                            if l == lint {
                                assert(s1[i as int].0 == l);
                            } else {
                                let k = choose|k: int| 0 <= k < s0.len() && (#[trigger] s0[k]).0 == l;
                                assert(s1[k].0 == l);
                            }
                        }
                    }
                }
                return;
            }
            i = i + 1;
        }
        self.rules.push((lint, level));
        proof {
            let s1 = self.rules@;
            assert(entries_map(s1) =~= entries_map(s0).insert(lint, level)) by {
                assert forall|l: Lint| entries_map(s1).contains_key(l) implies entries_map(s1)[l] == entries_map(s0).insert(lint, level)[l] by {
                    let k = choose|k: int| 0 <= k < s1.len() && (#[trigger] s1[k]).0 == l;
                    if l == lint {
                        assert(k == s0.len()) by {
                            if k < s0.len() { assert(s0[k].0 != lint); }
                        }
                    } else {
                        assert(k < s0.len());
                        assert(s0[k].0 == l);
                        let k0 = choose|k: int| 0 <= k < s0.len() && (#[trigger] s0[k]).0 == l;
                        assert(k0 == k) by {
                            if k0 < k { assert(s0[k0].0 != s0[k].0); } else if k0 > k { assert(s0[k].0 != s0[k0].0); }
                        }
                    }
                }
                assert forall|l: Lint| entries_map(s0).insert(lint, level).contains_key(l) implies entries_map(s1).contains_key(l) by {
                    if l == lint {
                        assert(s1[s0.len() as int].0 == l);
                    } else {
                        let k = choose|k: int| 0 <= k < s0.len() && (#[trigger] s0[k]).0 == l;
                        assert(s1[k].0 == l);
                    }
                }
            }
        }
    }

    fn set_sub_rule(&mut self, lint: Lint, item: String, level: Level)
        requires
            old(self).well_formed(),
        ensures
            final(self).well_formed(),
            final(self).sub_rules_view() == old(self).sub_rules_view().insert((lint, item@), level),
            final(self).rules_view() == old(self).rules_view(),
    {
        let ghost s0 = self.sub_rules@;
        let ghost key = (lint, item@);
        let mut i: usize = 0;
        while i < self.sub_rules.len()
            invariant
                self.sub_rules@ == s0,
                key == (lint, item@),
                s0 == old(self).sub_rules@,
                self.rules@ == old(self).rules@,
                old(self).well_formed(),
                i <= s0.len(),
                forall|j: int| 0 <= j < i ==> s0[j].0 != lint || s0[j].1@ != item@,
            decreases s0.len() - i,
        {
            if self.sub_rules[i].0 == lint && str_eq(self.sub_rules[i].1.as_str(), item.as_str()) {
                self.sub_rules.set(i, (lint, item, level));
                proof {
                    let s1 = self.sub_rules@;
                    assert(sub_entries_map(s1) =~= sub_entries_map(s0).insert(key, level)) by {
                        assert forall|l: (Lint, Seq<char>)| sub_entries_map(s1).contains_key(l) implies sub_entries_map(s1)[l] == sub_entries_map(s0).insert(key, level)[l] by {
                            let k = choose|k: int| 0 <= k < s1.len() && (#[trigger] s1[k]).0 == l.0 && s1[k].1@ == l.1;
                            if l == key {
                                assert(k == i) by {
                                    if k != i {
                                        if k < i { assert(s0[k].0 != lint || s0[k].1@ != item@); } else { assert(s0[i as int].0 != s0[k].0 || s0[i as int].1@ != s0[k].1@); }
                                    }
                                }
                            } else {
                                assert(s0[k].0 == l.0 && s0[k].1@ == l.1);
                                let k0 = choose|k: int| 0 <= k < s0.len() && (#[trigger] s0[k]).0 == l.0 && s0[k].1@ == l.1;
                                assert(k0 == k) by {
                                    if k0 < k { assert(s0[k0].0 != s0[k].0 || s0[k0].1@ != s0[k].1@); } else if k0 > k { assert(s0[k].0 != s0[k0].0 || s0[k].1@ != s0[k0].1@); }
                                }
                            }
                        }
                        assert forall|l: (Lint, Seq<char>)| sub_entries_map(s0).insert(key, level).contains_key(l) implies sub_entries_map(s1).contains_key(l) by {
                            if l == key {
                                assert(s1[i as int].0 == l.0 && s1[i as int].1@ == l.1);
                            } else {
                                let k = choose|k: int| 0 <= k < s0.len() && (#[trigger] s0[k]).0 == l.0 && s0[k].1@ == l.1;
                                assert(s1[k].0 == l.0 && s1[k].1@ == l.1);
                            }
                        }
                    }
                }
                return;
            }
            i = i + 1;
        }
        self.sub_rules.push((lint, item, level));
        proof {
            let s1 = self.sub_rules@;
            assert(sub_entries_map(s1) =~= sub_entries_map(s0).insert(key, level)) by {
                assert forall|l: (Lint, Seq<char>)| sub_entries_map(s1).contains_key(l) implies sub_entries_map(s1)[l] == sub_entries_map(s0).insert(key, level)[l] by {
                    let k = choose|k: int| 0 <= k < s1.len() && (#[trigger] s1[k]).0 == l.0 && s1[k].1@ == l.1;
                    if l == key {
                        assert(k == s0.len()) by {
                            if k < s0.len() { assert(s0[k].0 != lint || s0[k].1@ != item@); }
                        }
                    } else {
                        assert(k < s0.len());
                        assert(s0[k].0 == l.0 && s0[k].1@ == l.1);
                        let k0 = choose|k: int| 0 <= k < s0.len() && (#[trigger] s0[k]).0 == l.0 && s0[k].1@ == l.1;
                        assert(k0 == k) by {
                            if k0 < k { assert(s0[k0].0 != s0[k].0 || s0[k0].1@ != s0[k].1@); } else if k0 > k { assert(s0[k].0 != s0[k0].0 || s0[k].1@ != s0[k0].1@); }
                        }
                    }
                }
                assert forall|l: (Lint, Seq<char>)| sub_entries_map(s0).insert(key, level).contains_key(l) implies sub_entries_map(s1).contains_key(l) by {
                    if l == key {
                        assert(s1[s0.len() as int].0 == l.0 && s1[s0.len() as int].1@ == l.1);
                    } else {
                        let k = choose|k: int| 0 <= k < s0.len() && (#[trigger] s0[k]).0 == l.0 && s0[k].1@ == l.1;
                        assert(s1[k].0 == l.0 && s1[k].1@ == l.1);
                    }
                }
            }
        }
    }
}


/// The filters with their level, as plain values.
pub open spec fn leveled(fs: Seq<FilterView>, level: Level) -> Seq<(FilterView, Level)> {
    fs.map_values(|f: FilterView| (f, level))
}

/// The level a report gets: from an item rule for its lint and item if there is one,
/// else from a rule for its lint if there is one, else its own.
pub open spec fn filtered_level(
    rules: Map<Lint, Level>,
    sub_rules: Map<(Lint, Seq<char>), Level>,
    r: ReportView,
) -> Level {
    if sub_rules.contains_key((r.0, r.2)) {
        sub_rules[(r.0, r.2)]
    } else if rules.contains_key(r.0) {
        rules[r.0]
    } else {
        r.1
    }
}

impl FilterRules {
    fn add_filters(&mut self, filters: &Vec<Filter>, level: Level, Ghost(prev): Ghost<Seq<(FilterView, Level)>>)
        requires
            old(self).well_formed(),
            old(self).rules_view() == rules_map(prev),
            old(self).sub_rules_view() == sub_rules_map(prev),
        ensures
            final(self).well_formed(),
            final(self).rules_view() == rules_map(prev + leveled(filter_views(filters@), level)),
            final(self).sub_rules_view() == sub_rules_map(prev + leveled(filter_views(filters@), level)),
    {
        let ghost all = leveled(filter_views(filters@), level);
        let mut i: usize = 0;
        while i < filters.len()
            invariant
                i <= filters@.len(),
                all == leveled(filter_views(filters@), level),
                self.well_formed(),
                self.rules_view() == rules_map(prev + all.subrange(0, i as int)),
                self.sub_rules_view() == sub_rules_map(prev + all.subrange(0, i as int)),
            decreases filters@.len() - i,
        {
            let f = &filters[i];
            proof {
                let now = prev + all.subrange(0, i + 1);
                assert(now.drop_last() =~= prev + all.subrange(0, i as int));
                assert(now.last() == (f@, level));
            }
            match &f.sub_filter {
                Some(item) => {
                    self.set_sub_rule(f.lint, item.clone(), level);
                },
                None => {
                    self.set_rule(f.lint, level);
                },
            }
            i = i + 1;
        }
        assert(all.subrange(0, i as int) =~= all);
    }

    /// The rules that a `check` configuration sets: allow (info), warn and deny (error),
    /// later filters overriding earlier ones for the same lint, or lint and item.
    pub fn new(config: &CheckConfig) -> (res: FilterRules)
        ensures
            res.well_formed(),
            res.rules_view() == rules_map(filter_levels(filter_views(config.allow@), filter_views(config.warn@), filter_views(config.deny@))),
            res.sub_rules_view() == sub_rules_map(filter_levels(filter_views(config.allow@), filter_views(config.warn@), filter_views(config.deny@))),
    {
        let mut rules = FilterRules { rules: Vec::new(), sub_rules: Vec::new() };
        assert(rules.rules_view() =~= rules_map(Seq::empty()));
        assert(rules.sub_rules_view() =~= sub_rules_map(Seq::empty()));
        let ghost a = leveled(filter_views(config.allow@), Level::Info);
        let ghost w = leveled(filter_views(config.warn@), Level::Warning);
        let ghost d = leveled(filter_views(config.deny@), Level::Error);
        rules.add_filters(&config.allow, Level::Info, Ghost(Seq::empty()));
        assert(Seq::<(FilterView, Level)>::empty() + a =~= a);
        rules.add_filters(&config.warn, Level::Warning, Ghost(a));
        rules.add_filters(&config.deny, Level::Error, Ghost(a + w));
        assert(filter_levels(filter_views(config.allow@), filter_views(config.warn@), filter_views(config.deny@)) =~= a + w + d);
        rules
    }

    fn rule_for(&self, lint: Lint) -> (res: Option<Level>)
        requires
            self.well_formed(),
        ensures
            res == (if self.rules_view().contains_key(lint) { Some(self.rules_view()[lint]) } else { None }),
    {
        let ghost s = self.rules@;
        let mut i: usize = 0;
        while i < self.rules.len()
            invariant
                s == self.rules@,
                self.well_formed(),
                i <= s.len(),
                forall|j: int| 0 <= j < i ==> s[j].0 != lint,
            decreases s.len() - i,
        {
            if self.rules[i].0 == lint {
                proof {
                    let k = choose|k: int| 0 <= k < s.len() && (#[trigger] s[k]).0 == lint;
                    assert(k == i) by {
                        if k < i { assert(s[k].0 != lint); } else if k > i { assert(s[i as int].0 != s[k].0); }
                    }
                }
                return Some(self.rules[i].1);
            }
            i = i + 1;
        }
        None
    }

    fn sub_rule_for(&self, lint: Lint, item: &str) -> (res: Option<Level>)
        requires
            self.well_formed(),
        ensures
            res == (if self.sub_rules_view().contains_key((lint, item@)) { Some(self.sub_rules_view()[(lint, item@)]) } else { None }),
    {
        let ghost s = self.sub_rules@;
        let mut i: usize = 0;
        while i < self.sub_rules.len()
            invariant
                s == self.sub_rules@,
                self.well_formed(),
                i <= s.len(),
                forall|j: int| 0 <= j < i ==> s[j].0 != lint || s[j].1@ != item@,
            decreases s.len() - i,
        {
            if self.sub_rules[i].0 == lint && str_eq(self.sub_rules[i].1.as_str(), item) {
                proof {
                    let k = choose|k: int| 0 <= k < s.len() && (#[trigger] s[k]).0 == lint && s[k].1@ == item@;
                    assert(k == i) by {
                        if k < i { assert(s[k].0 != lint || s[k].1@ != item@); } else if k > i { assert(s[i as int].0 != s[k].0 || s[i as int].1@ != s[k].1@); }
                    }
                }
                return Some(self.sub_rules[i].2);
            }
            i = i + 1;
        }
        None
    }

    /// The report with the level that the rules give it: an item rule for its lint and
    /// item first, else a rule for its lint, else its own level. Always `Some`.
    pub fn filter(&self, report: Report) -> (res: Option<Report>)
        requires
            self.well_formed(),
        ensures
            res matches Some(r) && r@ == (report.lint, filtered_level(self.rules_view(), self.sub_rules_view(), report@), report.item@),
    {
        let mut report = report;
        if let Some(level) = self.sub_rule_for(report.lint, report.item.as_str()) {
            report.level = level;
        } else if let Some(level) = self.rule_for(report.lint) {
            report.level = level;
        }
        Some(report)
    }
}

/// Whether some filter names `lint` without an item.
pub open spec fn has_plain(fs: Seq<FilterView>, lint: Lint) -> bool {
    exists|i: int| 0 <= i < fs.len() && (#[trigger] fs[i]).0 == lint && fs[i].1 is None
}

/// Whether some filter names `lint` with `item`.
pub open spec fn has_sub(fs: Seq<FilterView>, lint: Lint, item: Seq<char>) -> bool {
    exists|i: int| 0 <= i < fs.len() && (#[trigger] fs[i]).0 == lint && fs[i].1 == Some(item)
}

/// The level that the precedence of filters gives a report: item filters override lint
/// filters; among each, deny overrides warn, and warn overrides allow; with no filter
/// that applies, the report keeps its level.
pub open spec fn precedence_level(
    allow: Seq<FilterView>,
    warn: Seq<FilterView>,
    deny: Seq<FilterView>,
    r: ReportView,
) -> Level {
    if has_sub(deny, r.0, r.2) {
        Level::Error
    } else if has_sub(warn, r.0, r.2) {
        Level::Warning
    } else if has_sub(allow, r.0, r.2) {
        Level::Info
    } else if has_plain(deny, r.0) {
        Level::Error
    } else if has_plain(warn, r.0) {
        Level::Warning
    } else if has_plain(allow, r.0) {
        Level::Info
    } else {
        r.1
    }
}

proof fn lemma_rules_map_append(a: Seq<(FilterView, Level)>, b: Seq<(FilterView, Level)>, k: Lint)
    ensures
        rules_map(a + b).contains_key(k) == (rules_map(a).contains_key(k) || rules_map(b).contains_key(k)),
        rules_map(b).contains_key(k) ==> rules_map(a + b)[k] == rules_map(b)[k],
        !rules_map(b).contains_key(k) && rules_map(a).contains_key(k) ==> rules_map(a + b)[k] == rules_map(a)[k],
    decreases b.len(),
{
    if b.len() == 0 {
        assert(a + b =~= a);
    } else {
        assert((a + b).drop_last() =~= a + b.drop_last());
        assert((a + b).last() == b.last());
        lemma_rules_map_append(a, b.drop_last(), k);
    }
}

proof fn lemma_rules_map_leveled(fs: Seq<FilterView>, level: Level, k: Lint)
    ensures
        rules_map(leveled(fs, level)).contains_key(k) == has_plain(fs, k),
        has_plain(fs, k) ==> rules_map(leveled(fs, level))[k] == level,
    decreases fs.len(),
{
    if fs.len() > 0 {
        assert(leveled(fs, level).drop_last() =~= leveled(fs.drop_last(), level));
        lemma_rules_map_leveled(fs.drop_last(), level, k);
        if has_plain(fs, k) && !has_plain(fs.drop_last(), k) {
            let i = choose|i: int| 0 <= i < fs.len() && (#[trigger] fs[i]).0 == k && fs[i].1 is None;
            if i < fs.len() - 1 {
                assert(fs.drop_last()[i] == fs[i]);
            }
        }
        if has_plain(fs.drop_last(), k) {
            let i = choose|i: int| 0 <= i < fs.drop_last().len() && (#[trigger] fs.drop_last()[i]).0 == k && fs.drop_last()[i].1 is None;
            assert(fs[i] == fs.drop_last()[i]);
        }
    }
}

proof fn lemma_sub_rules_map_append(a: Seq<(FilterView, Level)>, b: Seq<(FilterView, Level)>, k: (Lint, Seq<char>))
    ensures
        sub_rules_map(a + b).contains_key(k) == (sub_rules_map(a).contains_key(k) || sub_rules_map(b).contains_key(k)),
        sub_rules_map(b).contains_key(k) ==> sub_rules_map(a + b)[k] == sub_rules_map(b)[k],
        !sub_rules_map(b).contains_key(k) && sub_rules_map(a).contains_key(k) ==> sub_rules_map(a + b)[k] == sub_rules_map(a)[k],
    decreases b.len(),
{
    if b.len() == 0 {
        assert(a + b =~= a);
    } else {
        assert((a + b).drop_last() =~= a + b.drop_last());
        assert((a + b).last() == b.last());
        lemma_sub_rules_map_append(a, b.drop_last(), k);
    }
}

proof fn lemma_sub_rules_map_leveled(fs: Seq<FilterView>, level: Level, k: (Lint, Seq<char>))
    ensures
        sub_rules_map(leveled(fs, level)).contains_key(k) == has_sub(fs, k.0, k.1),
        has_sub(fs, k.0, k.1) ==> sub_rules_map(leveled(fs, level))[k] == level,
    decreases fs.len(),
{
    if fs.len() > 0 {
        assert(leveled(fs, level).drop_last() =~= leveled(fs.drop_last(), level));
        lemma_sub_rules_map_leveled(fs.drop_last(), level, k);
        if has_sub(fs, k.0, k.1) && !has_sub(fs.drop_last(), k.0, k.1) {
            let i = choose|i: int| 0 <= i < fs.len() && (#[trigger] fs[i]).0 == k.0 && fs[i].1 == Some(k.1);
            if i < fs.len() - 1 {
                assert(fs.drop_last()[i] == fs[i]);
            }
        }
        if has_sub(fs.drop_last(), k.0, k.1) {
            let i = choose|i: int| 0 <= i < fs.drop_last().len() && (#[trigger] fs.drop_last()[i]).0 == k.0 && fs.drop_last()[i].1 == Some(k.1);
            assert(fs[i] == fs.drop_last()[i]);
        }
    }
}

/// Filter precedence: the rules that a configuration sets give a report the level that
/// the precedence of filters says. An item filter (`LINT:ITEM`) always overrides a lint
/// filter; deny overrides warn and allow, and warn overrides allow; a report that no
/// filter names keeps its level.
pub proof fn lemma_filter_precedence(
    allow: Seq<FilterView>,
    warn: Seq<FilterView>,
    deny: Seq<FilterView>,
    r: ReportView,
)
    ensures
        filtered_level(
            rules_map(filter_levels(allow, warn, deny)),
            sub_rules_map(filter_levels(allow, warn, deny)),
            r,
        ) == precedence_level(allow, warn, deny, r),
{
    let a = leveled(allow, Level::Info);
    let w = leveled(warn, Level::Warning);
    let d = leveled(deny, Level::Error);
    assert(filter_levels(allow, warn, deny) == a + w + d);
    let key = (r.0, r.2);
    lemma_sub_rules_map_append(a + w, d, key);
    lemma_sub_rules_map_append(a, w, key);
    lemma_sub_rules_map_leveled(allow, Level::Info, key);
    lemma_sub_rules_map_leveled(warn, Level::Warning, key);
    lemma_sub_rules_map_leveled(deny, Level::Error, key);
    lemma_rules_map_append(a + w, d, r.0);
    lemma_rules_map_append(a, w, r.0);
    lemma_rules_map_leveled(allow, Level::Info, r.0);
    lemma_rules_map_leveled(warn, Level::Warning, r.0);
    lemma_rules_map_leveled(deny, Level::Error, r.0);
}

} // verus!
