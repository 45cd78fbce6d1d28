//! SPDX license expressions (such as `MIT OR Apache-2.0`), held in postfix order.
use crate::identity::{id_views, LicenseId, LicenseIdView};
use vstd::prelude::*;

verus! {

/// One term of an expression in postfix order: a license requirement (with its SPDX
/// identifier, or `None` for a `LicenseRef`), or an operator joining the two results
/// before it.
pub enum ExprNode {
    Req(Option<LicenseId>),
    And,
    Or,
}

/// A term as plain values.
pub enum ExprTerm {
    Req(Option<LicenseIdView>),
    And,
    Or,
}

impl View for ExprNode {
    type V = ExprTerm;

    open spec fn view(&self) -> ExprTerm {
        match self {
            ExprNode::Req(Some(id)) => ExprTerm::Req(Some(id@)),
            ExprNode::Req(None) => ExprTerm::Req(None),
            ExprNode::And => ExprTerm::And,
            ExprNode::Or => ExprTerm::Or,
        }
    }
}

/// A license expression: its text as written, and its terms in postfix order.
pub struct LicenseExpression {
    pub text: String,
    pub nodes: Vec<ExprNode>,
}

/// The terms of an expression as plain values.
pub open spec fn terms(nodes: Seq<ExprNode>) -> Seq<ExprTerm> {
    nodes.map_values(|n: ExprNode| n@)
}

impl View for LicenseExpression {
    type V = (Seq<char>, Seq<ExprTerm>);

    open spec fn view(&self) -> (Seq<char>, Seq<ExprTerm>) {
        (self.text@, terms(self.nodes@))
    }
}

/// What `spdx::Expression::parse` gives for a text: the terms of the expression in
/// postfix order, or `None` where the text is no valid expression.
pub uninterp spec fn spdx_expression(text: Seq<char>) -> Option<Seq<ExprTerm>>;

/// `spdx::Expression::parse`, converted to the library's `LicenseExpression`; an
/// expression keeps the text it was parsed from (which its `Display` writes).
#[verifier::external_body]
pub(crate) fn parse_expression(text: &str) -> (res: Option<LicenseExpression>)
    ensures
        match res {
            Some(e) => spdx_expression(text@) == Some(e@.1) && e@.0 == text@,
            None => spdx_expression(text@) is None,
        },
{
    let e = spdx::Expression::parse(text).ok()?;
    let nodes = e.iter().map(|n| match n {
        spdx::expression::ExprNode::Req(r) => ExprNode::Req(r.req.license.id().map(|id| LicenseId {
            index: id.index,
            name: id.name.to_string(),
            copyleft: id.is_copyleft(),
        })),
        spdx::expression::ExprNode::Op(spdx::expression::Operator::And) => ExprNode::And,
        spdx::expression::ExprNode::Op(spdx::expression::Operator::Or) => ExprNode::Or,
    }).collect();
    Some(LicenseExpression { text: text.to_string(), nodes })
}

/// The stack of results after evaluating the terms in order: a requirement pushes whether
/// `allowed` holds of its identifier; an operator pops two results and pushes their
/// conjunction or disjunction (a missing result counts as `false`).
pub open spec fn eval_stack(ts: Seq<ExprTerm>, allowed: spec_fn(Option<LicenseIdView>) -> bool) -> Seq<bool>
    decreases ts.len(),
{
    if ts.len() == 0 {
        Seq::empty()
    } else {
        let st = eval_stack(ts.drop_last(), allowed);
        match ts.last() {
            ExprTerm::Req(id) => st.push(allowed(id)),
            ExprTerm::And => {
                let (a, st1) = pop_or_false(st);
                let (b, st2) = pop_or_false(st1);
                st2.push(a && b)
            },
            ExprTerm::Or => {
                let (a, st1) = pop_or_false(st);
                let (b, st2) = pop_or_false(st1);
                st2.push(a || b)
            },
        }
    }
}

/// The top of a stack and the rest; `false` and the empty stack where it is empty.
pub open spec fn pop_or_false(st: Seq<bool>) -> (bool, Seq<bool>) {
    if st.len() == 0 { (false, st) } else { (st.last(), st.drop_last()) }
}

/// Whether an expression holds when the requirements that `allowed` accepts are met:
/// the last result of evaluating it (as `spdx::Expression::evaluate` does).
pub open spec fn evaluate(ts: Seq<ExprTerm>, allowed: spec_fn(Option<LicenseIdView>) -> bool) -> bool {
    pop_or_false(eval_stack(ts, allowed)).0
}

/// The views of optional identifiers.
pub open spec fn opt_id_views(s: Seq<Option<LicenseId>>) -> Seq<Option<LicenseIdView>> {
    s.map_values(|o: Option<LicenseId>| match o { Some(id) => Some(id@), None => None })
}

/// What `spdx::Expression::minimized_requirements` gives for the expression written
/// `text` and the licensees made of `accepted` (in that order of preference): the
/// identifier of each requirement of the subset of licensees it picks to meet the
/// expression (trying subsets that favour earlier licensees first), or `None` where the
/// licensees do not meet it (or the text is no expression, or an accepted name is not on
/// the SPDX list, or more than 64 licensees would be needed).
pub uninterp spec fn spdx_minimized(text: Seq<char>, accepted: Seq<LicenseIdView>) -> Option<Seq<Option<LicenseIdView>>>;

/// `spdx::Expression::minimized_requirements`: re-reads the expression from its text,
/// makes a licensee (the exact license, no later versions, no exception) of each
/// accepted identifier, looked up by its name on the SPDX list, and keeps the license
/// identifier of each requirement it returns (`None` where a name is not on the list).
/// Nothing is claimed of the minimization beyond its being a function of these
/// arguments. The minimization counts its candidate subsets in an `i32` shifted by the
/// number of licensees it keeps (those that satisfy some requirement, each once), which
/// overflows from 32 on: fewer than 32 are passed.
#[verifier::external_body]
pub(crate) fn minimized_requirements(expression: &LicenseExpression, accepted: &Vec<LicenseId>) -> (res: Option<Vec<Option<LicenseId>>>)
    requires
        accepted@.len() < 32,
    ensures
        match res {
            Some(r) => spdx_minimized(expression@.0, id_views(accepted@)) == Some(opt_id_views(r@)),
            None => spdx_minimized(expression@.0, id_views(accepted@)) is None,
        },
{
    let e = spdx::Expression::parse(&expression.text).ok()?;
    let licensees: Vec<spdx::Licensee> = accepted.iter().map(|id| spdx::license_id(&id.name).map(|id| {
        spdx::Licensee::new(spdx::LicenseItem::Spdx { id, or_later: false }, None)
    })).collect::<Option<Vec<_>>>()?;
    let requirements = e.minimized_requirements(licensees.iter()).ok()?;
    Some(requirements.iter().map(|r| r.license.id().map(|id| LicenseId {
        index: id.index,
        name: id.name.to_string(),
        copyleft: id.is_copyleft(),
    })).collect())
}

/// Whether the expression has a requirement whose license is at this position of the
/// SPDX list.
pub open spec fn names_license(ts: Seq<ExprTerm>, index: nat) -> bool {
    exists|k: int| 0 <= k < ts.len() && term_is(#[trigger] ts[k], index)
}

/// Whether a term is a requirement of the license at this position of the SPDX list.
pub open spec fn term_is(t: ExprTerm, index: nat) -> bool {
    match t {
        ExprTerm::Req(Some(x)) => x.0 == index,
        _ => false,
    }
}

impl LicenseExpression {
    /// Whether one of the expression's requirements is the license `id`.
    pub fn names(&self, id: &LicenseId) -> (res: bool)
        ensures
            res == names_license(self@.1, id@.0),
    {
        let ghost ts = terms(self.nodes@);
        let mut k: usize = 0;
        while k < self.nodes.len()
            invariant
                k <= self.nodes@.len(),
                ts == terms(self.nodes@),
                forall|j: int| 0 <= j < k ==> !term_is(#[trigger] ts[j], id@.0),
            decreases self.nodes@.len() - k,
        {
            assert(ts[k as int] == self.nodes@[k as int]@);
            if let ExprNode::Req(Some(x)) = &self.nodes[k] {
                if x.same_as(id) {
                    return true;
                }
            }
            k = k + 1;
        }
        false
    }
}

/// Whether some identifier of `s` is at this position of the SPDX list.
pub open spec fn has_index(s: Seq<LicenseIdView>, index: nat) -> bool {
    exists|k: int| 0 <= k < s.len() && (#[trigger] s[k]).0 == index
}

/// The identifiers of `s` without repeats: the first of each position of the SPDX list,
/// in order.
pub open spec fn distinct_ids(s: Seq<LicenseIdView>) -> Seq<LicenseIdView>
    decreases s.len(),
{
    if s.len() == 0 {
        s
    } else {
        let rest = distinct_ids(s.drop_last());
        if has_index(rest, s.last().0) { rest } else { rest.push(s.last()) }
    }
}

/// The identifiers without repeats (by position in the SPDX list), first ones kept.
pub fn distinct_by_index(ids: &Vec<LicenseId>) -> (res: Vec<LicenseId>)
    ensures
        id_views(res@) == distinct_ids(id_views(ids@)),
{
    let ghost input = id_views(ids@);
    let mut out: Vec<LicenseId> = Vec::new();
    let mut i: usize = 0;
    while i < ids.len()
        invariant
            i <= ids@.len(),
            input == id_views(ids@),
            id_views(out@) == distinct_ids(input.subrange(0, i as int)),
        decreases ids@.len() - i,
    {
        assert(input.subrange(0, i + 1).drop_last() =~= input.subrange(0, i as int));
        assert(input.subrange(0, i + 1).last() == ids@[i as int]@);
        let ghost cur = id_views(out@);
        let mut seen = false;
        let mut j: usize = 0;
        while j < out.len()
            invariant
                j <= out@.len(),
                i < ids@.len(),
                cur == id_views(out@),
                seen == exists|k: int| 0 <= k < j && (#[trigger] cur[k]).0 == ids@[i as int]@.0,
            decreases out@.len() - j,
        {
            assert(cur[j as int] == out@[j as int]@);
            if out[j].same_as(&ids[i]) {
                seen = true;
            }
            j = j + 1;
        }
        if !seen {
            out.push(ids[i].duplicate());
            assert(id_views(out@) =~= cur.push(ids@[i as int]@));
        }
        i = i + 1;
    }
    assert(input.subrange(0, i as int) =~= input);
    out
}

/// What spdx says of the licensee made of `id` (the exact license, no later versions, no
/// exception) against each requirement of the expression written `text`, in order:
/// whether the licensee satisfies it. `None` where the text is no expression or the
/// identifier's name is not on the SPDX list.
pub uninterp spec fn spdx_satisfied(text: Seq<char>, id: LicenseIdView) -> Option<Seq<bool>>;

/// `spdx::Licensee::satisfies`, for the licensee made of `id` (looked up by its name,
/// the exact license, no later versions, no exception) against each requirement of the
/// expression re-read from its text. Claimed: the answers, in order, are named
/// `spdx_satisfied` of the text and the identifier. How a requirement is satisfied
/// (later versions, exceptions) is not stated.
#[verifier::external_body]
fn satisfied_requirements(expression: &LicenseExpression, id: &LicenseId) -> (res: Option<Vec<bool>>)
    ensures
        match res {
            Some(v) => spdx_satisfied(expression@.0, id@) == Some(v@),
            None => spdx_satisfied(expression@.0, id@) is None,
        },
{
    let e = spdx::Expression::parse(&expression.text).ok()?;
    let id = spdx::license_id(&id.name)?;
    let licensee = spdx::Licensee::new(spdx::LicenseItem::Spdx { id, or_later: false }, None);
    Some(e.requirements().map(|r| licensee.satisfies(&r.req)).collect())
}

/// Whether the minimization may keep the licensee made of `id`: it satisfies some
/// requirement of the expression (or spdx could not say, where the minimization fails
/// itself).
pub open spec fn may_satisfy(text: Seq<char>, id: LicenseIdView) -> bool {
    match spdx_satisfied(text, id) {
        Some(flags) => flags.contains(true),
        None => true,
    }
}

/// The identifiers of `s` that may satisfy a requirement of the expression, in order.
pub open spec fn candidates(text: Seq<char>, s: Seq<LicenseIdView>) -> Seq<LicenseIdView>
    decreases s.len(),
{
    if s.len() == 0 {
        s
    } else {
        let rest = candidates(text, s.drop_last());
        if may_satisfy(text, s.last()) { rest.push(s.last()) } else { rest }
    }
}

/// The identifiers whose licensees satisfy some requirement of the expression, in order:
/// those the minimization keeps.
pub fn satisfying_ids(expression: &LicenseExpression, ids: &Vec<LicenseId>) -> (res: Vec<LicenseId>)
    ensures
        id_views(res@) == candidates(expression@.0, id_views(ids@)),
{
    let ghost input = id_views(ids@);
    let mut out: Vec<LicenseId> = Vec::new();
    let mut i: usize = 0;
    while i < ids.len()
        invariant
            i <= ids@.len(),
            input == id_views(ids@),
            id_views(out@) == candidates(expression@.0, input.subrange(0, i as int)),
        decreases ids@.len() - i,
    {
        assert(input.subrange(0, i + 1).drop_last() =~= input.subrange(0, i as int));
        assert(input.subrange(0, i + 1).last() == ids@[i as int]@);
        let keep = match satisfied_requirements(expression, &ids[i]) {
            Some(flags) => {
                let mut any = false;
                let mut k: usize = 0;
                while k < flags.len()
                    invariant
                        k <= flags@.len(),
                        any == exists|j: int| 0 <= j < k && flags@[j],
                    decreases flags@.len() - k,
                {
                    if flags[k] {
                        any = true;
                    }
                    k = k + 1;
                }
                proof {
                    if flags@.contains(true) {
                        let j = choose|j: int| 0 <= j < flags@.len() && flags@[j] == true;
                        assert(flags@[j]);
                    }
                }
                any
            },
            None => true,
        };
        if keep {
            let ghost before = id_views(out@);
            out.push(ids[i].duplicate());
            assert(id_views(out@) =~= before.push(ids@[i as int]@));
        }
        i = i + 1;
    }
    assert(input.subrange(0, i as int) =~= input);
    out
}

} // verus!
