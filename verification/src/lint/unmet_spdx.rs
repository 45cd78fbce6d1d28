//! Dependencies whose license files do not meet the license expression of their
//! `Cargo.toml`.
use crate::expression::{eval_stack, evaluate, pop_or_false, terms, ExprNode, ExprTerm, LicenseExpression};
use crate::identity::{has_id, IdentifiedLicense, IdentifiedView, LicenseId, LicenseIdView};
use crate::lint::{identified_views, Lint};
use crate::package::Package;
use crate::package_id::{PackageId, PackageIdView};
use crate::report::{report_views, Level, Report, ReportView};
use crate::text::{push_char, str_eq};
use vstd::prelude::*;

verus! {

/// Whether a requirement of a package's expression is met: it names an SPDX license,
/// and some license file of a package of the same name (of any version) has that
/// license's identifier.
pub open spec fn requirement_met(id: Option<LicenseIdView>, package: PackageIdView, ls: Seq<IdentifiedView>) -> bool {
    match id {
        Some(i) => exists|k: int| 0 <= k < ls.len() && (#[trigger] ls[k]).0.0.0 == package.0 && has_id(ls[k], i.0),
        None => false,
    }
}

/// Whether the license files of a package meet its license expression.
pub open spec fn requirements_met(ts: Seq<ExprTerm>, package: PackageIdView, ls: Seq<IdentifiedView>) -> bool {
    evaluate(ts, |id: Option<LicenseIdView>| requirement_met(id, package, ls))
}

/// The text of an unmet report: `name (expression)`.
pub open spec fn unmet_text(p: Package) -> Seq<char> {
    p.id.name@ + " ("@ + p.spdx_license->0.text@ + seq![')']
}

/// The unmet reports for the dependencies, in order.
pub open spec fn unmet_reports(ds: Seq<Package>, ls: Seq<IdentifiedView>) -> Seq<ReportView>
    decreases ds.len(),
{
    if ds.len() == 0 {
        Seq::empty()
    } else {
        let rest = unmet_reports(ds.drop_last(), ls);
        let p = ds.last();
        match p.spdx_license {
            Some(e) => if requirements_met(e@.1, p.id@, ls) {
                rest
            } else {
                rest.push((Lint::UnmetSpdx, Level::Error, unmet_text(p)))
            },
            None => rest,
        }
    }
}

fn requirement_met_exec(id: &Option<LicenseId>, package: &PackageId, licenses: &[IdentifiedLicense]) -> (res: bool)
    ensures
        res == requirement_met(match id { Some(i) => Some(i@), None => None }, package@, identified_views(licenses@)),
{
    match id {
        Some(i) => {
            let ghost ls = identified_views(licenses@);
            let mut k: usize = 0;
            while k < licenses.len()
                invariant
                    k <= licenses@.len(),
                    ls == identified_views(licenses@),
                    *id == Some(*i),
                    forall|j: int| 0 <= j < k ==> !((#[trigger] ls[j]).0.0.0 == package@.0 && has_id(ls[j], i@.0)),
                decreases licenses@.len() - k,
            {
                assert(ls[k as int] == licenses@[k as int]@);
                if str_eq(licenses[k].license.package_id.name.as_str(), package.name.as_str()) && licenses[k].has(i) {
                    return true;
                }
                k = k + 1;
            }
            false
        },
        None => false,
    }
}

fn pop_or_false_exec(stack: &mut Vec<bool>) -> (res: bool)
    ensures
        (res, final(stack)@) == pop_or_false(old(stack)@),
{
    match stack.pop() {
        Some(b) => b,
        None => false,
    }
}

/// Whether the license files of `package` meet `expression`.
pub fn spdx_requirements_met(package: &PackageId, expression: &LicenseExpression, licenses: &[IdentifiedLicense]) -> (res: bool)
    ensures
        res == requirements_met(expression@.1, package@, identified_views(licenses@)),
{
    let ghost ts = expression@.1;
    let ghost allowed = |id: Option<LicenseIdView>| requirement_met(id, package@, identified_views(licenses@));
    let mut stack: Vec<bool> = Vec::new();
    let mut i: usize = 0;
    while i < expression.nodes.len()
        invariant
            i <= expression.nodes@.len(),
            ts == terms(expression.nodes@),
            allowed == |id: Option<LicenseIdView>| requirement_met(id, package@, identified_views(licenses@)),
            stack@ == eval_stack(ts.subrange(0, i as int), allowed),
        decreases expression.nodes@.len() - i,
    {
        assert(ts.subrange(0, i + 1).drop_last() =~= ts.subrange(0, i as int));
        assert(ts.subrange(0, i + 1).last() == expression.nodes@[i as int]@);
        match &expression.nodes[i] {
            ExprNode::Req(id) => {
                let met = requirement_met_exec(id, package, licenses);
                stack.push(met);
            },
            ExprNode::And => {
                let a = pop_or_false_exec(&mut stack);
                let b = pop_or_false_exec(&mut stack);
                stack.push(a && b);
            },
            ExprNode::Or => {
                let a = pop_or_false_exec(&mut stack);
                let b = pop_or_false_exec(&mut stack);
                stack.push(a || b);
            },
        }
        i = i + 1;
    }
    assert(ts.subrange(0, i as int) =~= ts);
    pop_or_false_exec(&mut stack)
}

/// An error for each dependency whose license files do not meet the license expression
/// of its `Cargo.toml`: `name (expression)`.
pub fn unmet_spdx(dependencies: &[Package], licenses: &[IdentifiedLicense]) -> (res: Vec<Report>)
    ensures
        report_views(res@) == unmet_reports(dependencies@, identified_views(licenses@)),
{
    let mut out: Vec<Report> = Vec::new();
    let mut i: usize = 0;
    while i < dependencies.len()
        invariant
            i <= dependencies@.len(),
            report_views(out@) == unmet_reports(dependencies@.subrange(0, i as int), identified_views(licenses@)),
        decreases dependencies@.len() - i,
    {
        let p = &dependencies[i];
        assert(dependencies@.subrange(0, i + 1).drop_last() =~= dependencies@.subrange(0, i as int));
        if let Some(expression) = &p.spdx_license {
            if !spdx_requirements_met(&p.id, expression, licenses) {
                let mut item = p.id.name.clone();
                item.append(" (");
                item.append(expression.text.as_str());
                push_char(&mut item, ')');
                assert(p.spdx_license == Some(*expression));
                assert(item@ =~= unmet_text(*p));
                let ghost before = out@;
                out.push(Report { lint: Lint::UnmetSpdx, level: Level::Error, item });
                assert(report_views(out@) =~= report_views(before).push((Lint::UnmetSpdx, Level::Error, unmet_text(*p))));
            }
        }
        i = i + 1;
    }
    assert(dependencies@.subrange(0, i as int) =~= dependencies@);
    out
}

} // verus!
