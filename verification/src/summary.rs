//! The summary table of license types: files, packages and copyleft status per type.
use crate::identity::{all_ids, license_id, spdx_license_id, IdentifiedLicense, IdentifiedView};
use crate::lint::identified_views;
use crate::text::{contains_string, joined, owned, sort_strings, sorted, str_eq, views};
use vstd::prelude::*;

verus! {

broadcast use vstd::seq_lib::group_seq_properties;

/// One row of the summary table.
pub struct LicenseSummary {
    pub license_type: String,
    pub license_count: usize,
    pub package_count: usize,
    pub copyleft: String,
    pub packages: String,
}

/// Whether `s` lists the strings of `set` once each, in lexicographic order.
pub open spec fn lists_sorted(s: Seq<Seq<char>>, set: Set<Seq<char>>) -> bool {
    &&& s.to_set() == set
    &&& s.no_duplicates()
    &&& sorted(s)
}

/// The given strings without repeats, sorted.
pub fn sorted_unique(items: &Vec<String>) -> (res: Vec<String>)
    ensures
        lists_sorted(views(res@), views(items@).to_set()),
{
    broadcast use vstd::seq_lib::group_to_multiset_ensures;
    let mut unique: Vec<String> = Vec::new();
    let mut i: usize = 0;
    while i < items.len()
        invariant
            i <= items@.len(),
            views(unique@).no_duplicates(),
            views(unique@).to_set() == views(items@.subrange(0, i as int)).to_set(),
        decreases items@.len() - i,
    {
        let ghost before = views(unique@);
        assert(views(items@.subrange(0, i + 1)) =~= views(items@.subrange(0, i as int)).push(items@[i as int]@));
        proof { views(items@.subrange(0, i as int)).lemma_push_to_set_commute(items@[i as int]@); }
        if !contains_string(&unique, items[i].as_str()) {
            unique.push(items[i].clone());
            assert(views(unique@) =~= before.push(items@[i as int]@));
            proof { before.lemma_push_to_set_commute(items@[i as int]@); }
        } else {
            assert(before.to_set().contains(items@[i as int]@));
            assert(views(unique@).to_set() =~= views(items@.subrange(0, i as int + 1)).to_set());
        }
        i = i + 1;
    }
    assert(items@.subrange(0, i as int) =~= items@);
    let ghost u = views(unique@);
    let res = sort_strings(unique);
    proof {
        u.lemma_multiset_has_no_duplicates();
        views(res@).lemma_multiset_has_no_duplicates_conv();
        assert forall|x: Seq<char>| views(res@).to_set().contains(x) <==> u.to_set().contains(x) by {
            assert(views(res@).contains(x) <==> views(res@).to_multiset().count(x) > 0);
            assert(u.contains(x) <==> u.to_multiset().count(x) > 0);
        }
        assert(views(res@).to_set() =~= u.to_set());
    }
    res
}

/// Whether a license has an identifier named `license_type`.
pub open spec fn is_license_type(l: IdentifiedView, license_type: Seq<char>) -> bool {
    exists|k: int| 0 <= k < all_ids(l).len() && (#[trigger] all_ids(l)[k]).1 == license_type
}

/// The names of every identifier of the licenses.
pub open spec fn type_names(ls: Seq<IdentifiedView>) -> Set<Seq<char>> {
    Set::new(|name: Seq<char>| exists|i: int| 0 <= i < ls.len() && is_license_type(#[trigger] ls[i], name))
}

/// Every license type found, once each, sorted.
pub fn unique_license_types(licenses: &[IdentifiedLicense]) -> (res: Vec<String>)
    ensures
        lists_sorted(views(res@), type_names(identified_views(licenses@))),
{
    let ghost ls = identified_views(licenses@);
    let mut names: Vec<String> = Vec::new();
    let mut i: usize = 0;
    while i < licenses.len()
        invariant
            i <= licenses@.len(),
            ls == identified_views(licenses@),
            views(names@).to_set() == type_names(ls.subrange(0, i as int)),
        decreases licenses@.len() - i,
    {
        let ids = licenses[i].ids();
        let ghost start = views(names@).to_set();
        let ghost l = ls[i as int];
        let mut j: usize = 0;
        while j < ids.len()
            invariant
                j <= ids@.len(),
                i < licenses@.len(),
                ls == identified_views(licenses@),
                l == ls[i as int],
                crate::identity::id_views(ids@) == all_ids(l),
                views(names@).to_set() == start.union(Set::new(|name: Seq<char>| exists|k: int| 0 <= k < j && (#[trigger] all_ids(l)[k]).1 == name)),
            decreases ids@.len() - j,
        {
            let ghost before = views(names@);
            names.push(ids[j].name.clone());
            proof {
                assert(views(names@) =~= before.push(ids@[j as int]@.1));
                before.lemma_push_to_set_commute(ids@[j as int]@.1);
                assert(all_ids(l)[j as int] == ids@[j as int]@);
                assert(views(names@).to_set() =~= start.union(Set::new(|name: Seq<char>| exists|k: int| 0 <= k < j + 1 && (#[trigger] all_ids(l)[k]).1 == name)));
            }
            j = j + 1;
        }
        proof {
            let now = Set::new(|name: Seq<char>| is_license_type(l, name));
            assert(Set::new(|name: Seq<char>| exists|k: int| 0 <= k < j && (#[trigger] all_ids(l)[k]).1 == name) =~= now);
            let prev = ls.subrange(0, i as int);
            let next = ls.subrange(0, i + 1);
            assert forall|name: Seq<char>| type_names(next).contains(name) implies type_names(prev).contains(name) || now.contains(name) by {
                let a = choose|a: int| 0 <= a < next.len() && is_license_type(#[trigger] next[a], name);
                if a < i {
                    assert(prev[a] == next[a]);
                }
            }
            assert forall|name: Seq<char>| type_names(prev).contains(name) implies type_names(next).contains(name) by {
                let a = choose|a: int| 0 <= a < prev.len() && is_license_type(#[trigger] prev[a], name);
                assert(prev[a] == next[a]);
            }
            assert forall|name: Seq<char>| now.contains(name) implies type_names(next).contains(name) by {
                assert(next[i as int] == l);
            }
            assert(type_names(next) =~= type_names(prev).union(now));
        }
        i = i + 1;
    }
    assert(ls.subrange(0, i as int) =~= ls);
    sorted_unique(&names)
}

/// Whether a license is of type `t`, or, for `None`, of no known type at all.
pub open spec fn selected(l: IdentifiedView, sel: Option<Seq<char>>) -> bool {
    match sel {
        Some(t) => is_license_type(l, t),
        None => all_ids(l).len() == 0,
    }
}

/// How many of the licenses are selected by `sel`.
pub open spec fn count_where(ls: Seq<IdentifiedView>, sel: Option<Seq<char>>) -> nat
    decreases ls.len(),
{
    if ls.len() == 0 { 0 } else { count_where(ls.drop_last(), sel) + if selected(ls.last(), sel) { 1nat } else { 0nat } }
}

/// The package names of the licenses selected by `sel`.
pub open spec fn packages_where(ls: Seq<IdentifiedView>, sel: Option<Seq<char>>) -> Set<Seq<char>> {
    Set::new(|p: Seq<char>| exists|i: int| 0 <= i < ls.len() && selected(#[trigger] ls[i], sel) && ls[i].0.0.0 == p)
}

/// The view of an optional license type.
pub open spec fn selector(license_type: Option<&str>) -> Option<Seq<char>> {
    match license_type {
        Some(t) => Some(t@),
        None => None,
    }
}

/// The number of license files, and the package names, that the license type selects.
fn matching(licenses: &[IdentifiedLicense], license_type: Option<&str>) -> (res: (usize, Vec<String>))
    ensures
        res.0 == count_where(identified_views(licenses@), selector(license_type)),
        views(res.1@).to_set() == packages_where(identified_views(licenses@), selector(license_type)),
{
    let ghost sel = selector(license_type);
    let ghost ls = identified_views(licenses@);
    let mut count: usize = 0;
    let mut packages: Vec<String> = Vec::new();
    let mut i: usize = 0;
    while i < licenses.len()
        invariant
            i <= licenses@.len(),
            ls == identified_views(licenses@),
            sel == selector(license_type),
            count == count_where(ls.subrange(0, i as int), sel),
            count <= i,
            views(packages@).to_set() == packages_where(ls.subrange(0, i as int), sel),
        decreases licenses@.len() - i,
    {
        let l = &licenses[i];
        let ids = l.ids();
        let mut hit = false;
        match license_type {
            Some(t) => {
                let mut k: usize = 0;
                while k < ids.len()
                    invariant
                        k <= ids@.len(),
                        crate::identity::id_views(ids@) == all_ids(l@),
                        hit == exists|kk: int| 0 <= kk < k && (#[trigger] all_ids(l@)[kk]).1 == t@,
                    decreases ids@.len() - k,
                {
                    assert(all_ids(l@)[k as int] == ids@[k as int]@);
                    if str_eq(ids[k].name.as_str(), t) {
                        hit = true;
                    }
                    k = k + 1;
                }
            },
            None => {
                hit = ids.len() == 0;
            },
        }
        assert(hit == selected(l@, sel));
        let ghost before = views(packages@);
        assert(ls.subrange(0, i + 1).drop_last() =~= ls.subrange(0, i as int));
        assert(ls.subrange(0, i + 1).last() == l@);
        assert(ls[i as int] == l@);
        if hit {
            count = count + 1;
            packages.push(l.license.package_id.name.clone());
            proof {
                assert(views(packages@) =~= before.push(l@.0.0.0));
                before.lemma_push_to_set_commute(l@.0.0.0);
            }
        }
        proof {
            assert(views(packages@).to_set() =~= packages_where(ls.subrange(0, i + 1), sel)) by {
                assert forall|p: Seq<char>| packages_where(ls.subrange(0, i + 1), sel).contains(p) implies views(packages@).to_set().contains(p) by {
                    let a = choose|a: int| 0 <= a < i + 1 && selected(#[trigger] ls.subrange(0, i + 1)[a], sel) && ls.subrange(0, i + 1)[a].0.0.0 == p;
                    if a < i {
                        assert(ls.subrange(0, i as int)[a] == ls.subrange(0, i + 1)[a]);
                        assert(packages_where(ls.subrange(0, i as int), sel).contains(p));
                    }
                }
                assert forall|p: Seq<char>| views(packages@).to_set().contains(p) implies packages_where(ls.subrange(0, i + 1), sel).contains(p) by {
                    if before.to_set().contains(p) {
                        let a = choose|a: int| 0 <= a < i && selected(#[trigger] ls.subrange(0, i as int)[a], sel) && ls.subrange(0, i as int)[a].0.0.0 == p;
                        assert(ls.subrange(0, i as int)[a] == ls.subrange(0, i + 1)[a]);
                    } else {
                        assert(ls.subrange(0, i + 1)[i as int] == l@);
                    }
                }
            }
        }
        i = i + 1;
    }
    assert(ls.subrange(0, i as int) =~= ls);
    (count, packages)
}

/// The summary row of one license type.
pub open spec fn is_type_summary(s: LicenseSummary, license_type: Seq<char>, ls: Seq<IdentifiedView>) -> bool {
    &&& s.license_type@ == license_type
    &&& s.license_count == count_where(ls, Some(license_type))
    &&& exists|names: Seq<Seq<char>>| lists_sorted(names, packages_where(ls, Some(license_type))) && s.package_count == names.len() && s.packages@ == joined(names, ", "@)
    &&& s.copyleft@ == (if (spdx_license_id(license_type)->0).2 { "copyleft"@ } else { "not copyleft"@ })
}

/// The summary row of a license type: how many files and which packages (sorted, each
/// once) have it, and whether it is copyleft by the SPDX list.
pub fn license_type_summary(license_type: &str, licenses: &[IdentifiedLicense]) -> (res: LicenseSummary)
    requires
        spdx_license_id(license_type@) is Some,
    ensures
        is_type_summary(res, license_type@, identified_views(licenses@)),
{
    let (license_count, names) = matching(licenses, Some(license_type));
    let packages = sorted_unique(&names);
    let copyleft = match license_id(license_type) {
        Some(id) => if id.copyleft { owned("copyleft") } else { owned("not copyleft") },
        None => owned("not copyleft"),
    };
    let res = LicenseSummary {
        license_type: owned(license_type),
        license_count,
        package_count: packages.len(),
        copyleft,
        packages: crate::text::join(&packages, ", "),
    };
    proof {
        let ls = identified_views(licenses@);
        assert(lists_sorted(views(packages@), packages_where(ls, Some(license_type@))));
        assert(res.package_count == views(packages@).len());
    }
    res
}

/// Whether no license of package `p` has any identifier.
pub open spec fn no_known_license(ls: Seq<IdentifiedView>, p: Seq<char>) -> bool {
    forall|i: int| 0 <= i < ls.len() && (#[trigger] ls[i]).0.0.0 == p ==> all_ids(ls[i]).len() == 0
}

/// The summary row of license files of unknown type.
pub open spec fn is_unknown_summary(s: LicenseSummary, ls: Seq<IdentifiedView>) -> bool {
    &&& s.license_type@ == "<unknown>"@
    &&& s.license_count == count_where(ls, None)
    &&& exists|names: Seq<Seq<char>>| lists_sorted(names, packages_where(ls, None).filter(|p: Seq<char>| no_known_license(ls, p)))
        && s.package_count == names.len() && s.packages@ == joined(names, ", "@)
    &&& s.copyleft@ == "<unknown>"@
}

/// The summary row of license files of unknown type: how many there are, and the
/// packages (sorted, each once) with such a file and no file of known type.
pub fn unknown_license_type_summary(licenses: &[IdentifiedLicense]) -> (res: LicenseSummary)
    ensures
        is_unknown_summary(res, identified_views(licenses@)),
{
    let ghost ls = identified_views(licenses@);
    let (license_count, names) = matching(licenses, None);
    let mut kept: Vec<String> = Vec::new();
    let mut i: usize = 0;
    while i < names.len()
        invariant
            i <= names@.len(),
            ls == identified_views(licenses@),
            views(kept@).to_set() == views(names@.subrange(0, i as int)).to_set().filter(|p: Seq<char>| no_known_license(ls, p)),
        decreases names@.len() - i,
    {
        let p = names[i].as_str();
        let mut none = true;
        let mut k: usize = 0;
        while k < licenses.len()
            invariant
                k <= licenses@.len(),
                ls == identified_views(licenses@),
                none == forall|j: int| 0 <= j < k && (#[trigger] ls[j]).0.0.0 == p@ ==> all_ids(ls[j]).len() == 0,
            decreases licenses@.len() - k,
        {
            assert(ls[k as int] == licenses@[k as int]@);
            if str_eq(licenses[k].license.package_id.name.as_str(), p) {
                let ids = licenses[k].ids();
                if ids.len() > 0 {
                    none = false;
                }
            }
            k = k + 1;
        }
        let ghost before = views(kept@);
        assert(views(names@.subrange(0, i + 1)) =~= views(names@.subrange(0, i as int)).push(p@));
        proof { views(names@.subrange(0, i as int)).lemma_push_to_set_commute(p@); }
        if none {
            kept.push(names[i].clone());
            assert(views(kept@) =~= before.push(p@));
            proof { before.lemma_push_to_set_commute(p@); }
        }
        assert(views(kept@).to_set() =~= views(names@.subrange(0, i + 1)).to_set().filter(|p: Seq<char>| no_known_license(ls, p)));
        i = i + 1;
    }
    assert(names@.subrange(0, i as int) =~= names@);
    let packages = sorted_unique(&kept);
    let res = LicenseSummary {
        license_type: owned("<unknown>"),
        license_count,
        package_count: packages.len(),
        copyleft: owned("<unknown>"),
        packages: crate::text::join(&packages, ", "),
    };
    proof {
        assert(lists_sorted(views(packages@), packages_where(ls, None).filter(|p: Seq<char>| no_known_license(ls, p))));
        assert(res.package_count == views(packages@).len());
    }
    res
}

/// The rows of the summary table: one per license type found (sorted), then the row of
/// unknown types; `None` where a type found is no name on the SPDX list.
pub fn summary_rows(licenses: &[IdentifiedLicense]) -> (res: Option<Vec<LicenseSummary>>)
    ensures
        match res {
            Some(rows) => exists|types: Seq<Seq<char>>| {
                &&& lists_sorted(types, type_names(identified_views(licenses@)))
                &&& rows@.len() == types.len() + 1
                &&& forall|i: int| 0 <= i < types.len() ==> is_type_summary(#[trigger] rows@[i], types[i], identified_views(licenses@))
                &&& is_unknown_summary(rows@[types.len() as int], identified_views(licenses@))
            },
            None => exists|t: Seq<char>| type_names(identified_views(licenses@)).contains(t) && spdx_license_id(t) is None,
        },
{
    let types = unique_license_types(licenses);
    let mut rows: Vec<LicenseSummary> = Vec::new();
    let mut i: usize = 0;
    while i < types.len()
        invariant
            i <= types@.len(),
            lists_sorted(views(types@), type_names(identified_views(licenses@))),
            rows@.len() == i,
            forall|j: int| 0 <= j < i ==> is_type_summary(#[trigger] rows@[j], views(types@)[j], identified_views(licenses@)),
        decreases types@.len() - i,
    {
        if license_id(types[i].as_str()).is_none() {
            assert(views(types@)[i as int] == types@[i as int]@);
            assert(views(types@).to_set().contains(types@[i as int]@));
            return None;
        }
        rows.push(license_type_summary(types[i].as_str(), licenses));
        i = i + 1;
    }
    rows.push(unknown_license_type_summary(licenses));
    Some(rows)
}

} // verus!
