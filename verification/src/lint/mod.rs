//! The lints that `check` reports, and the reports they make.
pub mod copy_left;
pub mod extraneous;
pub mod misnamed;
pub mod missing_or_unexpected;
pub mod no_cargo_license;
pub mod no_licenses;
pub mod report;
pub mod unknown_type;
pub mod unmet_spdx;

use crate::text::{lemma_seq_lt_asymmetric, lemma_seq_lt_irreflexive, seq_lt};
use crate::identity::{IdentifiedLicense, IdentifiedView};
use crate::report::ReportView;
use vstd::prelude::*;

verus! {

/// A kind of problem that `check` looks for.
#[derive(Clone, Copy, Debug, PartialEq, Eq, Structural, Hash, PartialOrd, Ord)]
pub enum Lint {
    /// Dependencies with at least one copy-left license
    CopyLeft,
    /// License files which are not required according to dependency Cargo.toml files
    Extraneous,
    /// License files with inferred types that don't match between name vs contents
    Misnamed,
    /// Dependencies without any license files
    Missing,
    /// License files from packages that are not dependencies
    Unexpected,
    /// No licenses found at all in the licenses folder for any dependency
    NoLicenses,
    /// License files types with unknown types
    UnknownType,
    /// Packages without licenses required by their Cargo.toml package.license field
    UnmetSpdx,
    /// The root package does not have the "license" field set in the Cargo.toml
    NoCargoLicense,
}

/// The position of a lint in declaration order (the order of its derived `Ord`).
pub open spec fn lint_rank(l: Lint) -> nat {
    match l {
        Lint::CopyLeft => 0,
        Lint::Extraneous => 1,
        Lint::Misnamed => 2,
        Lint::Missing => 3,
        Lint::Unexpected => 4,
        Lint::NoLicenses => 5,
        Lint::UnknownType => 6,
        Lint::UnmetSpdx => 7,
        Lint::NoCargoLicense => 8,
    }
}

/// The lint at a position in declaration order.
pub open spec fn lint_at(i: nat) -> Lint {
    if i == 0 { Lint::CopyLeft }
    else if i == 1 { Lint::Extraneous }
    else if i == 2 { Lint::Misnamed }
    else if i == 3 { Lint::Missing }
    else if i == 4 { Lint::Unexpected }
    else if i == 5 { Lint::NoLicenses }
    else if i == 6 { Lint::UnknownType }
    else if i == 7 { Lint::UnmetSpdx }
    else { Lint::NoCargoLicense }
}

/// The position of a lint when lints are ordered alphabetically by name.
pub open spec fn lint_name_rank(l: Lint) -> nat {
    match l {
        Lint::CopyLeft => 0,
        Lint::Extraneous => 1,
        Lint::Misnamed => 2,
        Lint::Missing => 3,
        Lint::NoCargoLicense => 4,
        Lint::NoLicenses => 5,
        Lint::Unexpected => 6,
        Lint::UnknownType => 7,
        Lint::UnmetSpdx => 8,
    }
}

/// The name of a lint on the command line and in `Cargo.toml` (kebab case).
pub open spec fn lint_name(l: Lint) -> Seq<char> {
    match l {
        Lint::CopyLeft => "copy-left"@,
        Lint::Extraneous => "extraneous"@,
        Lint::Misnamed => "misnamed"@,
        Lint::Missing => "missing"@,
        Lint::Unexpected => "unexpected"@,
        Lint::NoLicenses => "no-licenses"@,
        Lint::UnknownType => "unknown-type"@,
        Lint::UnmetSpdx => "unmet-spdx"@,
        Lint::NoCargoLicense => "no-cargo-license"@,
    }
}

/// The description of a lint (its documentation).
pub open spec fn lint_docs(l: Lint) -> Seq<char> {
    match l {
        Lint::CopyLeft => "Dependencies with at least one copy-left license"@,
        Lint::Extraneous => "License files which are not required according to dependency Cargo.toml files"@,
        Lint::Misnamed => "License files with inferred types that don't match between name vs contents"@,
        Lint::Missing => "Dependencies without any license files"@,
        Lint::Unexpected => "License files from packages that are not dependencies"@,
        Lint::NoLicenses => "No licenses found at all in the licenses folder for any dependency"@,
        Lint::UnknownType => "License files types with unknown types"@,
        Lint::UnmetSpdx => "Packages without licenses required by their Cargo.toml package.license field"@,
        Lint::NoCargoLicense => "The root package does not have the \"license\" field set in the Cargo.toml"@,
    }
}

/// The ASCII lowercase form of a character.
pub open spec fn ascii_lower(c: char) -> char {
    if 'A' <= c && c <= 'Z' { ((c as u32) + 32) as char } else { c }
}

/// Equality of two texts ignoring ASCII case, as `str::eq_ignore_ascii_case`.
pub open spec fn eq_ignore_ascii_case(a: Seq<char>, b: Seq<char>) -> bool {
    a.len() == b.len() && forall|i: int| 0 <= i < a.len() ==> ascii_lower(#[trigger] a[i]) == ascii_lower(b[i])
}

/// Whether `input` names the lint, exactly or (with `ignore_case`) ignoring ASCII case.
pub open spec fn names_lint(l: Lint, input: Seq<char>, ignore_case: bool) -> bool {
    if ignore_case { eq_ignore_ascii_case(lint_name(l), input) } else { lint_name(l) == input }
}

/// The first lint from position `i` on (in declaration order) that `input` names.
pub open spec fn first_named(input: Seq<char>, ignore_case: bool, i: nat) -> Option<Lint>
    decreases 9 - i,
{
    if i >= 9 {
        None
    } else if names_lint(lint_at(i), input, ignore_case) {
        Some(lint_at(i))
    } else {
        first_named(input, ignore_case, i + 1)
    }
}

/// The lint that `input` names, if any: the first in declaration order.
pub open spec fn lint_named(input: Seq<char>, ignore_case: bool) -> Option<Lint> {
    first_named(input, ignore_case, 0)
}

fn lower_char(c: char) -> (res: char)
    ensures
        res == ascii_lower(c),
{
    if 'A' <= c && c <= 'Z' {
        let code: u8 = (c as u32) as u8;
        let lowered: u8 = code + 32;
        lowered as char
    } else {
        c
    }
}

/// `str::eq_ignore_ascii_case`.
pub fn str_eq_ignore_ascii_case(a: &str, b: &str) -> (res: bool)
    ensures
        res == eq_ignore_ascii_case(a@, b@),
{
    let n = a.unicode_len();
    if n != b.unicode_len() {
        return false;
    }
    let mut i: usize = 0;
    while i < n
        invariant
            n == a@.len(),
            n == b@.len(),
            i <= n,
            forall|j: int| 0 <= j < i ==> ascii_lower(#[trigger] a@[j]) == ascii_lower(b@[j]),
        decreases n - i,
    {
        if lower_char(a.get_char(i)) != lower_char(b.get_char(i)) {
            return false;
        }
        i = i + 1;
    }
    true
}

impl Lint {
    /// The lint at position `i` in declaration order.
    pub fn at(i: u64) -> (res: Lint)
        requires
            i < 9,
        ensures
            res == lint_at(i as nat),
            lint_rank(res) == i,
    {
        if i == 0 { Lint::CopyLeft }
        else if i == 1 { Lint::Extraneous }
        else if i == 2 { Lint::Misnamed }
        else if i == 3 { Lint::Missing }
        else if i == 4 { Lint::Unexpected }
        else if i == 5 { Lint::NoLicenses }
        else if i == 6 { Lint::UnknownType }
        else if i == 7 { Lint::UnmetSpdx }
        else { Lint::NoCargoLicense }
    }

    /// The lint at position `i` when lints are ordered alphabetically by name.
    pub fn in_name_order(i: u64) -> (res: Lint)
        requires
            i < 9,
        ensures
            lint_name_rank(res) == i,
    {
        if i == 0 { Lint::CopyLeft }
        else if i == 1 { Lint::Extraneous }
        else if i == 2 { Lint::Misnamed }
        else if i == 3 { Lint::Missing }
        else if i == 4 { Lint::NoCargoLicense }
        else if i == 5 { Lint::NoLicenses }
        else if i == 6 { Lint::Unexpected }
        else if i == 7 { Lint::UnknownType }
        else { Lint::UnmetSpdx }
    }

    /// The position of this lint in declaration order.
    pub fn rank(&self) -> (res: u64)
        ensures
            res == lint_rank(*self),
    {
        match self {
            Lint::CopyLeft => 0,
            Lint::Extraneous => 1,
            Lint::Misnamed => 2,
            Lint::Missing => 3,
            Lint::Unexpected => 4,
            Lint::NoLicenses => 5,
            Lint::UnknownType => 6,
            Lint::UnmetSpdx => 7,
            Lint::NoCargoLicense => 8,
        }
    }

    /// The name of this lint (kebab case).
    pub fn name(&self) -> (res: &'static str)
        ensures
            res@ == lint_name(*self),
    {
        match self {
            Lint::CopyLeft => "copy-left",
            Lint::Extraneous => "extraneous",
            Lint::Misnamed => "misnamed",
            Lint::Missing => "missing",
            Lint::Unexpected => "unexpected",
            Lint::NoLicenses => "no-licenses",
            Lint::UnknownType => "unknown-type",
            Lint::UnmetSpdx => "unmet-spdx",
            Lint::NoCargoLicense => "no-cargo-license",
        }
    }

    /// The description of this lint.
    pub fn docs(&self) -> (res: &'static str)
        ensures
            res@ == lint_docs(*self),
    {
        match self {
            Lint::CopyLeft => "Dependencies with at least one copy-left license",
            Lint::Extraneous => "License files which are not required according to dependency Cargo.toml files",
            Lint::Misnamed => "License files with inferred types that don't match between name vs contents",
            Lint::Missing => "Dependencies without any license files",
            Lint::Unexpected => "License files from packages that are not dependencies",
            Lint::NoLicenses => "No licenses found at all in the licenses folder for any dependency",
            Lint::UnknownType => "License files types with unknown types",
            Lint::UnmetSpdx => "Packages without licenses required by their Cargo.toml package.license field",
            Lint::NoCargoLicense => "The root package does not have the \"license\" field set in the Cargo.toml",
        }
    }

    /// The lint named by `input` (with `ignore_case`, ignoring ASCII case); otherwise the
    /// error `invalid variant: <input>`.
    pub fn from_name(input: &str, ignore_case: bool) -> (res: Result<Lint, String>)
        ensures
            match res {
                Ok(l) => lint_named(input@, ignore_case) == Some(l),
                Err(e) => lint_named(input@, ignore_case) is None && e@ == "invalid variant: "@ + input@,
            },
    {
        let mut i: u64 = 0;
        while i < 9
            invariant
                i <= 9,
                lint_named(input@, ignore_case) == first_named(input@, ignore_case, i as nat),
            decreases 9 - i,
        {
            let l = Lint::at(i);
            let matched = if ignore_case {
                str_eq_ignore_ascii_case(l.name(), input)
            } else {
                crate::text::str_eq(l.name(), input)
            };
            if matched {
                return Ok(l);
            }
            i = i + 1;
        }
        let mut message = crate::text::owned("invalid variant: ");
        message.append(input);
        Err(message)
    }
}

/// The views of a sequence of identified licenses.
pub open spec fn identified_views(ls: Seq<IdentifiedLicense>) -> Seq<IdentifiedView> {
    ls.map_values(|l: IdentifiedLicense| l@)
}

/// One report made by `make` for each license that `keep` holds of, in order.
pub open spec fn select(
    ls: Seq<IdentifiedView>,
    keep: spec_fn(IdentifiedView) -> bool,
    make: spec_fn(IdentifiedView) -> ReportView,
) -> Seq<ReportView>
    decreases ls.len(),
{
    if ls.len() == 0 {
        Seq::empty()
    } else {
        let rest = select(ls.drop_last(), keep, make);
        if keep(ls.last()) { rest.push(make(ls.last())) } else { rest }
    }
}

proof fn lemma_seq_lt_transitive(a: Seq<char>, b: Seq<char>, c: Seq<char>)
    requires
        seq_lt(a, b),
        seq_lt(b, c),
    ensures
        seq_lt(a, c),
    decreases a.len(),
{
    if a.len() > 0 && b.len() > 0 && c.len() > 0 && a[0] == b[0] && b[0] == c[0] {
        lemma_seq_lt_transitive(a.drop_first(), b.drop_first(), c.drop_first());
    }
}

/// The lint at each position of the alphabetical order.
pub open spec fn lint_in_name_order(i: nat) -> Lint {
    if i == 0 { Lint::CopyLeft }
    else if i == 1 { Lint::Extraneous }
    else if i == 2 { Lint::Misnamed }
    else if i == 3 { Lint::Missing }
    else if i == 4 { Lint::NoCargoLicense }
    else if i == 5 { Lint::NoLicenses }
    else if i == 6 { Lint::Unexpected }
    else if i == 7 { Lint::UnknownType }
    else { Lint::UnmetSpdx }
}

proof fn lemma_adjacent_names_in_order(i: nat)
    requires
        i < 8,
    ensures
        seq_lt(lint_name(lint_in_name_order(i)), lint_name(lint_in_name_order(i + 1))),
{
    reveal_strlit("copy-left");
    reveal_strlit("extraneous");
    reveal_strlit("misnamed");
    reveal_strlit("missing");
    reveal_strlit("no-cargo-license");
    reveal_strlit("no-licenses");
    reveal_strlit("unexpected");
    reveal_strlit("unknown-type");
    reveal_strlit("unmet-spdx");
    reveal_with_fuel(seq_lt, 6);
}

proof fn lemma_names_in_order_from(i: nat, j: nat)
    requires
        i < j < 9,
    ensures
        seq_lt(lint_name(lint_in_name_order(i)), lint_name(lint_in_name_order(j))),
    decreases j - i,
{
    lemma_adjacent_names_in_order(i);
    if i + 1 < j {
        lemma_names_in_order_from(i + 1, j);
        lemma_seq_lt_transitive(lint_name(lint_in_name_order(i)), lint_name(lint_in_name_order(i + 1)), lint_name(lint_in_name_order(j)));
    }
}

/// The order of lints by position, in which combined reports of one level come, is the
/// alphabetical order of their names.
pub proof fn lemma_lint_name_rank_is_alphabetical(a: Lint, b: Lint)
    ensures
        lint_name_rank(a) < lint_name_rank(b) <==> seq_lt(lint_name(a), lint_name(b)),
{
    assert(lint_in_name_order(lint_name_rank(a)) == a);
    assert(lint_in_name_order(lint_name_rank(b)) == b);
    if lint_name_rank(a) < lint_name_rank(b) {
        lemma_names_in_order_from(lint_name_rank(a), lint_name_rank(b));
    } else if lint_name_rank(a) == lint_name_rank(b) {
        lemma_seq_lt_irreflexive(lint_name(a));
    } else {
        lemma_names_in_order_from(lint_name_rank(b), lint_name_rank(a));
        lemma_seq_lt_asymmetric(lint_name(b), lint_name(a));
    }
}

} // verus!
