//! Pruning the output folder: the license files that no dependency needs, given the
//! licenses the user prefers.
use crate::expression::{
    candidates, distinct_by_index, distinct_ids, minimized_requirements, satisfying_ids, names_license, opt_id_views, spdx_minimized, ExprTerm,
    LicenseExpression,
};
use crate::identity::{all_ids, has_id, id_views, IdentifiedLicense, IdentifiedView, LicenseId, LicenseIdView, Licensee, LicenseeView};
use crate::license::LicensePath;
use crate::lint::identified_views;
use crate::package::Package;
use crate::package_id::{PackageId, PackageIdView};
use vstd::prelude::*;
use vstd::string::StringExecFns;

verus! {

broadcast use vstd::seq_lib::group_seq_properties;

/// Whether a licensee of the user's preference is the one made of `id` (the exact SPDX
/// license, no later versions, no exception), as licensees compare equal.
pub open spec fn is_licensee_of(p: LicenseeView, id: LicenseIdView) -> bool {
    &&& p.0 matches Some(x) && x.0 == id.0
    &&& !p.1
    &&& p.2 is None
}

/// The first position in the preference of the licensee made of `id`, if any.
pub open spec fn preference_position(pref: Seq<LicenseeView>, id: LicenseIdView) -> Option<nat>
    decreases pref.len(),
{
    if pref.len() == 0 {
        None
    } else if is_licensee_of(pref[0], id) {
        Some(0)
    } else {
        match preference_position(pref.drop_first(), id) {
            Some(p) => Some(p + 1),
            None => None,
        }
    }
}

/// The sort key of an identifier: preferred ones first, by their position in the
/// preference; then the others, by their position in the SPDX list.
pub open spec fn preference_key(pref: Seq<LicenseeView>, id: LicenseIdView) -> (nat, nat) {
    match preference_position(pref, id) {
        Some(p) => (0, p),
        None => (1, id.0),
    }
}

/// Lexicographic order on keys.
pub open spec fn key_le(a: (nat, nat), b: (nat, nat)) -> bool {
    a.0 < b.0 || (a.0 == b.0 && a.1 <= b.1)
}

/// Where a stable insertion puts an element of key `k` into `s`: after the leading run of
/// elements whose keys are not greater.
pub open spec fn insertion_point(pref: Seq<LicenseeView>, s: Seq<LicenseIdView>, k: (nat, nat)) -> nat
    decreases s.len(),
{
    if s.len() == 0 {
        0
    } else if key_le(preference_key(pref, s[0]), k) {
        1 + insertion_point(pref, s.drop_first(), k)
    } else {
        0
    }
}

/// `ids` sorted by preference key, stably (equal keys keep their order).
pub open spec fn preference_sorted(pref: Seq<LicenseeView>, ids: Seq<LicenseIdView>) -> Seq<LicenseIdView>
    decreases ids.len(),
{
    if ids.len() == 0 {
        ids
    } else {
        let rest = preference_sorted(pref, ids.drop_last());
        rest.insert(insertion_point(pref, rest, preference_key(pref, ids.last())) as int, ids.last())
    }
}

/// Whether the identifiers are in non-decreasing key order.
pub open spec fn sorted_by_key(pref: Seq<LicenseeView>, s: Seq<LicenseIdView>) -> bool {
    forall|i: int, j: int| 0 <= i < j < s.len() ==> key_le(#[trigger] preference_key(pref, s[i]), #[trigger] preference_key(pref, s[j]))
}

/// The views of the licensees.
pub open spec fn licensee_views(s: Seq<Licensee>) -> Seq<LicenseeView> {
    s.map_values(|l: Licensee| l@)
}

/// The licensee made of an SPDX identifier: the exact license, no later versions, no
/// exception.
pub fn licensee_from_id(id: &LicenseId) -> (res: Licensee)
    ensures
        res@ == (Some(id@), false, None::<Seq<char>>),
{
    Licensee { id: Some(id.duplicate()), or_later: false, addition: None }
}

/// The position in the preference of the licensee made of `id`, if any.
fn position_in(preference: &[Licensee], id: &LicenseId) -> (res: Option<usize>)
    ensures
        match res {
            Some(i) => preference_position(licensee_views(preference@), id@) == Some(i as nat),
            None => preference_position(licensee_views(preference@), id@) is None,
        },
{
    let ghost pv = licensee_views(preference@);
    let mut i: usize = 0;
    while i < preference.len()
        invariant
            i <= preference@.len(),
            pv == licensee_views(preference@),
            forall|j: int| 0 <= j < i ==> !is_licensee_of(#[trigger] pv[j], id@),
            preference_position(pv, id@) == match preference_position(pv.skip(i as int), id@) {
                Some(p) => Some((p + i) as nat),
                None => None::<nat>,
            },
        decreases preference@.len() - i,
    {
        let p = &preference[i];
        assert(pv[i as int] == p@);
        assert(pv.skip(i as int).drop_first() =~= pv.skip(i + 1));
        assert(pv.skip(i as int)[0] == pv[i as int]);
        let hit = match &p.id {
            Some(x) => x.same_as(id) && !p.or_later && p.addition.is_none(),
            None => false,
        };
        if hit {
            return Some(i);
        }
        i = i + 1;
    }
    assert(pv.skip(i as int).len() == 0);
    None
}

/// The key of `id`, as exec values: `(0, position)` for a preferred one, else
/// `(1, SPDX index)`.
fn key_of(preference: &[Licensee], id: &LicenseId) -> (res: (u8, usize))
    ensures
        res.0 as nat == preference_key(licensee_views(preference@), id@).0,
        res.1 as nat == preference_key(licensee_views(preference@), id@).1,
{
    match position_in(preference, id) {
        Some(p) => (0, p),
        None => (1, id.index),
    }
}

fn key_le_exec(a: (u8, usize), b: (u8, usize)) -> (res: bool)
    ensures
        res == key_le((a.0 as nat, a.1 as nat), (b.0 as nat, b.1 as nat)),
{
    a.0 < b.0 || (a.0 == b.0 && a.1 <= b.1)
}

proof fn lemma_insertion_point_split(pref: Seq<LicenseeView>, s: Seq<LicenseIdView>, k: (nat, nat), i: int)
    requires
        0 <= i < s.len(),
        key_le(preference_key(pref, s[i]), k),
        insertion_point(pref, s, k) == i + insertion_point(pref, s.skip(i), k),
    ensures
        insertion_point(pref, s, k) == i + 1 + insertion_point(pref, s.skip(i + 1), k),
{
    assert(s.skip(i).drop_first() =~= s.skip(i + 1));
    assert(s.skip(i)[0] == s[i]);
}

proof fn lemma_key_le_transitive(a: (nat, nat), b: (nat, nat), c: (nat, nat))
    requires
        key_le(a, b),
        key_le(b, c),
    ensures
        key_le(a, c),
{
}

/// Sorts identifiers by the user's preference: those whose licensee the user named come
/// first, in the order named; the others follow in the order of the SPDX list. The sort
/// is stable.
pub fn sort_requirements(preference: &[Licensee], requirements: Vec<LicenseId>) -> (res: Vec<LicenseId>)
    ensures
        id_views(res@) == preference_sorted(licensee_views(preference@), id_views(requirements@)),
        sorted_by_key(licensee_views(preference@), id_views(res@)),
        id_views(res@).to_multiset() == id_views(requirements@).to_multiset(),
{
    broadcast use vstd::seq_lib::group_to_multiset_ensures;
    let ghost pv = licensee_views(preference@);
    let ghost input = id_views(requirements@);
    let mut out: Vec<LicenseId> = Vec::new();
    let mut i: usize = 0;
    while i < requirements.len()
        invariant
            i <= requirements@.len(),
            pv == licensee_views(preference@),
            input == id_views(requirements@),
            id_views(out@) == preference_sorted(pv, input.subrange(0, i as int)),
            sorted_by_key(pv, id_views(out@)),
            id_views(out@).to_multiset() == input.subrange(0, i as int).to_multiset(),
        decreases requirements@.len() - i,
    {
        let x = requirements[i].duplicate();
        let kx = key_of(preference, &x);
        let ghost kxs = preference_key(pv, x@);
        let ghost cur = id_views(out@);
        let mut k: usize = 0;
        while k < out.len() && key_le_exec(key_of(preference, &out[k]), kx)
            invariant
                k <= out@.len(),
                pv == licensee_views(preference@),
                cur == id_views(out@),
                kxs == preference_key(pv, x@),
                kx.0 as nat == kxs.0 && kx.1 as nat == kxs.1,
                forall|j: int| 0 <= j < k ==> key_le(#[trigger] preference_key(pv, cur[j]), kxs),
                insertion_point(pv, cur, kxs) == k + insertion_point(pv, cur.skip(k as int), kxs),
            decreases out@.len() - k,
        {
            proof {
                assert(cur[k as int] == out@[k as int]@);
                lemma_insertion_point_split(pv, cur, kxs, k as int);
            }
            k = k + 1;
        }
        proof {
            if k < out@.len() {
                assert(cur[k as int] == out@[k as int]@);
                assert(cur.skip(k as int)[0] == cur[k as int]);
                assert(!key_le(preference_key(pv, cur[k as int]), kxs));
            } else {
                assert(cur.skip(k as int).len() == 0);
            }
            assert(insertion_point(pv, cur, kxs) == k);
        }
        out.insert(k, x);
        proof {
            let next = id_views(out@);
            assert(next =~= cur.insert(k as int, x@));
            assert(input.subrange(0, i + 1).drop_last() =~= input.subrange(0, i as int));
            assert(input.subrange(0, i + 1).last() == x@);
            assert(input.subrange(0, i + 1) =~= input.subrange(0, i as int).push(x@));
            assert forall|a: int, b: int| 0 <= a < b < next.len() implies key_le(#[trigger] preference_key(pv, next[a]), #[trigger] preference_key(pv, next[b])) by {
                if b < k {
                    assert(next[a] == cur[a] && next[b] == cur[b]);
                } else if b == k {
                    assert(next[a] == cur[a]);
                } else if a == k {
                    assert(next[b] == cur[b - 1]);
                    if k < cur.len() {
                        assert(!key_le(preference_key(pv, cur[k as int]), kxs));
                        if k < b - 1 {
                            lemma_key_le_transitive(preference_key(pv, cur[k as int]), preference_key(pv, cur[b - 1]), preference_key(pv, cur[b - 1]));
                        }
                        assert(key_le(preference_key(pv, cur[k as int]), preference_key(pv, cur[b - 1])) || k == b - 1);
                    }
                } else if a < k {
                    assert(next[a] == cur[a] && next[b] == cur[b - 1]);
                } else {
                    assert(next[a] == cur[a - 1] && next[b] == cur[b - 1]);
                }
            }
        }
        i = i + 1;
    }
    assert(input.subrange(0, i as int) =~= input);
    out
}

/// Whether a requirement (by its license identifier) is met by one of the license's
/// identifiers.
pub open spec fn requirement_met_by(req: Option<LicenseIdView>, l: IdentifiedView) -> bool {
    req matches Some(x) && has_id(l, x.0)
}

/// Whether some requirement is met by the license.
pub open spec fn is_required(reqs: Seq<Option<LicenseIdView>>, l: IdentifiedView) -> bool {
    exists|r: int| 0 <= r < reqs.len() && requirement_met_by(#[trigger] reqs[r], l)
}

/// Whether the license file is needed for one of the requirements: one of its
/// identifiers is the license of a requirement.
pub fn required_license(requirements: &[Option<LicenseId>], license: &IdentifiedLicense) -> (res: bool)
    ensures
        res == is_required(opt_id_views(requirements@), license@),
{
    let ghost rv = opt_id_views(requirements@);
    let mut i: usize = 0;
    while i < requirements.len()
        invariant
            i <= requirements@.len(),
            rv == opt_id_views(requirements@),
            forall|r: int| 0 <= r < i ==> !requirement_met_by(#[trigger] rv[r], license@),
        decreases requirements@.len() - i,
    {
        assert(rv[i as int] == match requirements@[i as int] { Some(id) => Some(id@), None => None::<LicenseIdView> });
        if let Some(x) = &requirements[i] {
            if license.has(x) {
                return true;
            }
        }
        i = i + 1;
    }
    false
}

/// A license file is needed as soon as the requirement at any position `r` names one of
/// its identifiers (the one at position `k`), whatever the requirements before and after
/// it: for an `AND` expression, every required license keeps its file.
pub proof fn lemma_any_met_requirement_keeps_file(reqs: Seq<Option<LicenseIdView>>, l: IdentifiedView, r: int, k: int)
    requires
        0 <= r < reqs.len(),
        0 <= k < all_ids(l).len(),
        reqs[r] matches Some(x) && x.0 == all_ids(l)[k].0,
    ensures
        is_required(reqs, l),
{
    assert(requirement_met_by(reqs[r], l));
}

/// A license file is needed only where some requirement names one of its identifiers.
pub proof fn lemma_needed_file_meets_a_requirement(reqs: Seq<Option<LicenseIdView>>, l: IdentifiedView)
    requires
        is_required(reqs, l),
    ensures
        exists|r: int, k: int|
            0 <= r < reqs.len() && 0 <= k < all_ids(l).len() && (#[trigger] reqs[r] matches Some(x) && x.0 == (
            #[trigger] all_ids(l)[k]).0),
{
    let r = choose|r: int| 0 <= r < reqs.len() && requirement_met_by(#[trigger] reqs[r], l);
    let x = reqs[r]->0;
    let k = choose|k: int| 0 <= k < all_ids(l).len() && (#[trigger] all_ids(l)[k]).0 == x.0;
    assert(reqs[r] matches Some(x) && x.0 == all_ids(l)[k].0);
}

/// The identifiers of the licenses of package `id`, license by license, each license's
/// own in the order of `all_ids`.
pub open spec fn package_ids(ls: Seq<IdentifiedView>, id: PackageIdView) -> Seq<LicenseIdView>
    decreases ls.len(),
{
    if ls.len() == 0 {
        Seq::empty()
    } else if ls.last().0.0 == id {
        package_ids(ls.drop_last(), id) + all_ids(ls.last())
    } else {
        package_ids(ls.drop_last(), id)
    }
}

/// Whether some identifier of the license is the license of a requirement of the
/// expression.
pub open spec fn occurs_in(ts: Seq<ExprTerm>, l: IdentifiedView) -> bool {
    exists|k: int| 0 <= k < all_ids(l).len() && names_license(ts, (#[trigger] all_ids(l)[k]).0)
}

/// Whether some identifier of the license file is a license of the expression.
pub fn occurs_in_expression(expression: &LicenseExpression, license: &IdentifiedLicense) -> (res: bool)
    ensures
        res == occurs_in(expression@.1, license@),
{
    let ids = license.ids();
    let mut k: usize = 0;
    while k < ids.len()
        invariant
            k <= ids@.len(),
            id_views(ids@) == all_ids(license@),
            forall|j: int| 0 <= j < k ==> !names_license(expression@.1, (#[trigger] all_ids(license@)[j]).0),
        decreases ids@.len() - k,
    {
        assert(all_ids(license@)[k as int] == ids@[k as int]@);
        if expression.names(&ids[k]) {
            return true;
        }
        k = k + 1;
    }
    false
}

/// The locations of the licenses of package `id` that have identifiers from their
/// contents, are licenses of the expression (terms `ts`), and meet none of the
/// requirements, in order.
pub open spec fn unrequired_paths(ls: Seq<IdentifiedView>, id: PackageIdView, reqs: Seq<Option<LicenseIdView>>, ts: Seq<ExprTerm>) -> Seq<(Seq<char>, Seq<char>)>
    decreases ls.len(),
{
    if ls.len() == 0 {
        Seq::empty()
    } else {
        let l = ls.last();
        let rest = unrequired_paths(ls.drop_last(), id, reqs, ts);
        if l.0.0 == id && l.2.len() > 0 && occurs_in(ts, l) && !is_required(reqs, l) { rest.push(l.0.2) } else { rest }
    }
}

/// The views of locations.
pub open spec fn path_views(s: Seq<LicensePath>) -> Seq<(Seq<char>, Seq<char>)> {
    s.map_values(|p: LicensePath| p@)
}

/// The license files of package `package_id` that the requirements do not need: those
/// whose contents were identified, that hold a license of the expression, and that meet
/// no requirement.
pub fn unrequired_licenses(
    package_id: &PackageId,
    expression: &LicenseExpression,
    licenses: &[IdentifiedLicense],
    requirements: &Vec<Option<LicenseId>>,
) -> (res: Vec<LicensePath>)
    ensures
        path_views(res@) == unrequired_paths(identified_views(licenses@), package_id@, opt_id_views(requirements@), expression@.1),
{
    let ghost ls = identified_views(licenses@);
    let mut out: Vec<LicensePath> = Vec::new();
    let mut i: usize = 0;
    while i < licenses.len()
        invariant
            i <= licenses@.len(),
            ls == identified_views(licenses@),
            path_views(out@) == unrequired_paths(ls.subrange(0, i as int), package_id@, opt_id_views(requirements@), expression@.1),
        decreases licenses@.len() - i,
    {
        let l = &licenses[i];
        assert(ls.subrange(0, i + 1).drop_last() =~= ls.subrange(0, i as int));
        assert(ls.subrange(0, i + 1).last() == l@);
        if l.license.package_id.same_as(package_id) && l.ids_from_content.len() > 0
            && occurs_in_expression(expression, l) && !required_license(requirements.as_slice(), l) {
            let ghost before = path_views(out@);
            out.push(l.license.location.duplicate());
            assert(path_views(out@) =~= before.push(l@.0.2));
        }
        i = i + 1;
    }
    assert(ls.subrange(0, i as int) =~= ls);
    out
}

/// The identifiers of the license files of package `id`.
fn package_license_ids(package_id: &PackageId, licenses: &[IdentifiedLicense]) -> (res: Vec<LicenseId>)
    ensures
        id_views(res@) == package_ids(identified_views(licenses@), package_id@),
{
    let ghost ls = identified_views(licenses@);
    let mut out: Vec<LicenseId> = Vec::new();
    let mut i: usize = 0;
    while i < licenses.len()
        invariant
            i <= licenses@.len(),
            ls == identified_views(licenses@),
            id_views(out@) == package_ids(ls.subrange(0, i as int), package_id@),
        decreases licenses@.len() - i,
    {
        let l = &licenses[i];
        assert(ls.subrange(0, i + 1).drop_last() =~= ls.subrange(0, i as int));
        assert(ls.subrange(0, i + 1).last() == l@);
        if l.license.package_id.same_as(package_id) {
            let ids = l.ids();
            let ghost start = id_views(out@);
            let mut j: usize = 0;
            while j < ids.len()
                invariant
                    j <= ids@.len(),
                    id_views(ids@) == all_ids(l@),
                    id_views(out@) == start + all_ids(l@).subrange(0, j as int),
                decreases ids@.len() - j,
            {
                let ghost before = id_views(out@);
                out.push(ids[j].duplicate());
                assert(id_views(out@) =~= before.push(ids@[j as int]@));
                assert(all_ids(l@)[j as int] == ids@[j as int]@);
                assert(all_ids(l@).subrange(0, j + 1) =~= all_ids(l@).subrange(0, j as int).push(ids@[j as int]@));
                j = j + 1;
            }
            assert(all_ids(l@).subrange(0, j as int) =~= all_ids(l@));
        }
        i = i + 1;
    }
    assert(ls.subrange(0, i as int) =~= ls);
    out
}

/// The identifiers of the license files of package `id` handed to the minimization of
/// the expression written `text`: preferred ones first, each once, only those whose
/// licensees satisfy a requirement of the expression.
pub open spec fn accepted_ids(pref: Seq<LicenseeView>, id: PackageIdView, text: Seq<char>, ls: Seq<IdentifiedView>) -> Seq<LicenseIdView> {
    candidates(text, distinct_ids(preference_sorted(pref, package_ids(ls, id))))
}

/// The license files of a package that pruning removes, given the preference: none
/// where the package has no license expression, where 32 or more different licenses of
/// its files satisfy a requirement of it (more than the minimization can count), or where the
/// preferred-first identifiers of its license files do not meet it; else those with
/// identified contents that hold a license of the expression and that the minimal
/// requirements do not need.
pub open spec fn extraneous_of(
    pref: Seq<LicenseeView>,
    id: PackageIdView,
    expression: Option<(Seq<char>, Seq<ExprTerm>)>,
    ls: Seq<IdentifiedView>,
) -> Seq<(Seq<char>, Seq<char>)> {
    match expression {
        None => Seq::empty(),
        Some((text, ts)) => if accepted_ids(pref, id, text, ls).len() >= 32 {
            Seq::empty()
        } else {
            match spdx_minimized(text, accepted_ids(pref, id, text, ls)) {
                None => Seq::empty(),
                Some(reqs) => unrequired_paths(ls, id, reqs, ts),
            }
        },
    }
}

/// A package's license expression (its text and terms), if it has one.
pub open spec fn expression_view(package: Package) -> Option<(Seq<char>, Seq<ExprTerm>)> {
    match package.spdx_license {
        Some(e) => Some(e@),
        None => None,
    }
}

/// The license files of `package` that it does not need, given the preferred licenses.
pub fn extraneous_requirements(preference: &[Licensee], package: &Package, licenses: &[IdentifiedLicense]) -> (res: Vec<LicensePath>)
    ensures
        path_views(res@) == extraneous_of(licensee_views(preference@), package.id@, expression_view(*package), identified_views(licenses@)),
{
    let expression = match &package.spdx_license {
        Some(e) => e,
        None => return Vec::new(),
    };
    let ids = package_license_ids(&package.id, licenses);
    let sorted = sort_requirements(preference, ids);
    // The minimization keeps only the first of equal licensees, and only those that
    // satisfy some requirement, so handing it just those gives the same requirements.
    let distinct = distinct_by_index(&sorted);
    let accepted = satisfying_ids(expression, &distinct);
    if accepted.len() >= 32 {
        return Vec::new();
    }
    match minimized_requirements(expression, &accepted) {
        None => Vec::new(),
        Some(requirements) => unrequired_licenses(&package.id, expression, licenses, &requirements),
    }
}

/// The license files that pruning removes, over all dependencies, in order.
pub open spec fn extraneous_over(pref: Seq<LicenseeView>, deps: Seq<Package>, ls: Seq<IdentifiedView>) -> Seq<(Seq<char>, Seq<char>)>
    decreases deps.len(),
{
    if deps.len() == 0 {
        Seq::empty()
    } else {
        extraneous_over(pref, deps.drop_last(), ls) + extraneous_of(pref, deps.last().id@, expression_view(deps.last()), ls)
    }
}

/// The license files that no dependency needs, dependency by dependency.
pub fn extraneous_licenses(preference: &[Licensee], dependencies: &[Package], licenses: &[IdentifiedLicense]) -> (res: Vec<LicensePath>)
    ensures
        path_views(res@) == extraneous_over(licensee_views(preference@), dependencies@, identified_views(licenses@)),
{
    let mut out: Vec<LicensePath> = Vec::new();
    let mut i: usize = 0;
    while i < dependencies.len()
        invariant
            i <= dependencies@.len(),
            path_views(out@) == extraneous_over(licensee_views(preference@), dependencies@.subrange(0, i as int), identified_views(licenses@)),
        decreases dependencies@.len() - i,
    {
        assert(dependencies@.subrange(0, i + 1).drop_last() =~= dependencies@.subrange(0, i as int));
        let mut found = extraneous_requirements(preference, &dependencies[i], licenses);
        let ghost before = path_views(out@);
        let ghost more = path_views(found@);
        out.append(&mut found);
        assert(path_views(out@) =~= before + more);
        i = i + 1;
    }
    assert(dependencies@.subrange(0, i as int) =~= dependencies@);
    out
}

/// The information line of a prune: how many files are removed.
pub fn removing_message(count: usize) -> (res: String)
    ensures
        res@ == "removing "@ + crate::text::decimal(count as nat) + " extraneous license(s)"@,
{
    let mut m = crate::text::owned("removing ");
    let n = crate::text::decimal_string(count as u64);
    m.append(n.as_str());
    m.append(" extraneous license(s)");
    m
}

proof fn lemma_unrequired_path_source(
    ls: Seq<IdentifiedView>,
    id: PackageIdView,
    reqs: Seq<Option<LicenseIdView>>,
    ts: Seq<ExprTerm>,
    path: (Seq<char>, Seq<char>),
)
    requires
        unrequired_paths(ls, id, reqs, ts).contains(path),
    ensures
        exists|k: int|
            0 <= k < ls.len() && (#[trigger] ls[k]).0.2 == path && ls[k].0.0 == id && ls[k].2.len() > 0 && occurs_in(ts, ls[k])
                && !is_required(reqs, ls[k]),
    decreases ls.len(),
{
    let l = ls.last();
    let rest = unrequired_paths(ls.drop_last(), id, reqs, ts);
    if rest.contains(path) {
        lemma_unrequired_path_source(ls.drop_last(), id, reqs, ts, path);
        let k = choose|k: int|
            0 <= k < ls.drop_last().len() && (#[trigger] ls.drop_last()[k]).0.2 == path && ls.drop_last()[k].0.0 == id
                && ls.drop_last()[k].2.len() > 0 && occurs_in(ts, ls.drop_last()[k]) && !is_required(reqs, ls.drop_last()[k]);
        assert(ls[k] == ls.drop_last()[k]);
    } else {
        assert(ls[ls.len() - 1] == l);
    }
}

/// Pruning is conservative: every file it removes is a license file of one of the
/// dependencies, whose license expression is met by the preferred-first identifiers of
/// its license files; the file's contents were identified (files of unknown type stay);
/// one of its licenses is a license of that expression (files of other licenses stay);
/// and it meets none of the minimal requirements of that expression.
pub proof fn lemma_prune_removes_only_unneeded(
    pref: Seq<LicenseeView>,
    deps: Seq<Package>,
    ls: Seq<IdentifiedView>,
    path: (Seq<char>, Seq<char>),
)
    requires
        extraneous_over(pref, deps, ls).contains(path),
    ensures
        exists|d: int, k: int| {
            &&& 0 <= d < deps.len()
            &&& 0 <= k < ls.len()
            &&& (#[trigger] ls[k]).0.2 == path
            &&& ls[k].0.0 == (#[trigger] deps[d]).id@
            &&& ls[k].2.len() > 0
            &&& expression_view(deps[d]) matches Some((text, ts))
            &&& occurs_in(ts, ls[k])
            &&& spdx_minimized(text, accepted_ids(pref, deps[d].id@, text, ls)) matches Some(reqs)
            &&& !is_required(reqs, ls[k])
        },
    decreases deps.len(),
{
    let front = extraneous_over(pref, deps.drop_last(), ls);
    let last = deps.last();
    if front.contains(path) {
        lemma_prune_removes_only_unneeded(pref, deps.drop_last(), ls, path);
        let (d, k) = choose|d: int, k: int| {
            &&& 0 <= d < deps.drop_last().len()
            &&& 0 <= k < ls.len()
            &&& (#[trigger] ls[k]).0.2 == path
            &&& ls[k].0.0 == (#[trigger] deps.drop_last()[d]).id@
            &&& ls[k].2.len() > 0
            &&& expression_view(deps.drop_last()[d]) matches Some((text, ts))
            &&& occurs_in(ts, ls[k])
            &&& spdx_minimized(text, accepted_ids(pref, deps.drop_last()[d].id@, text, ls)) matches Some(reqs)
            &&& !is_required(reqs, ls[k])
        };
        assert(deps[d] == deps.drop_last()[d]);
    } else {
        let own = extraneous_of(pref, last.id@, expression_view(last), ls);
        assert(extraneous_over(pref, deps, ls) == front + own);
        let i = choose|i: int| 0 <= i < (front + own).len() && (front + own)[i] == path;
        assert(own.contains(path)) by {
            assert(i >= front.len());
            assert(own[i - front.len()] == path);
        }
        let (text, ts) = expression_view(last)->0;
        let reqs = spdx_minimized(text, accepted_ids(pref, last.id@, text, ls))->0;
        lemma_unrequired_path_source(ls, last.id@, reqs, ts, path);
        assert(deps[deps.len() - 1] == last);
    }
}

} // verus!
