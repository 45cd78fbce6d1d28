//! SPDX license identifiers of license files, inferred from their names and contents.
use crate::license::{OutputLicense, OutputLicenseView};
use crate::text::{split, split_spec, views};
use vstd::prelude::*;

verus! {

/// An SPDX license identifier, held as plain values: its position in the SPDX list
/// (which alone decides equality), its short name, and whether it is copyleft.
pub struct LicenseId {
    pub index: usize,
    pub name: String,
    pub copyleft: bool,
}

/// A license identifier as plain values.
pub type LicenseIdView = (nat, Seq<char>, bool);

impl View for LicenseId {
    type V = LicenseIdView;

    open spec fn view(&self) -> LicenseIdView {
        (self.index as nat, self.name@, self.copyleft)
    }
}

impl LicenseId {
    /// A copy of this identifier.
    pub fn duplicate(&self) -> (res: LicenseId)
        ensures
            res@ == self@,
    {
        LicenseId { index: self.index, name: self.name.clone(), copyleft: self.copyleft }
    }

    /// Whether two identifiers are the same license (same position in the SPDX list).
    pub fn same_as(&self, other: &LicenseId) -> (res: bool)
        ensures
            res == (self@.0 == other@.0),
    {
        self.index == other.index
    }
}

/// What `spdx::license_id` gives for a name: the identifier, or `None` where the name
/// (without trailing `+`) is not on the SPDX list.
pub uninterp spec fn spdx_license_id(name: Seq<char>) -> Option<LicenseIdView>;

/// `name` without the `+` characters at its end.
pub open spec fn trim_plus(name: Seq<char>) -> Seq<char>
    decreases name.len(),
{
    if name.len() > 0 && name.last() == '+' { trim_plus(name.drop_last()) } else { name }
}

/// `spdx::license_id`: looks the name (without trailing `+`) up in the SPDX list by exact
/// match, so an identifier it finds has that name.
#[verifier::external_body]
pub(crate) fn license_id(name: &str) -> (res: Option<LicenseId>)
    ensures
        match res {
            Some(id) => spdx_license_id(name@) == Some(id@),
            None => spdx_license_id(name@) is None,
        },
        res matches Some(id) ==> id@.1 == trim_plus(name@),
{
    spdx::license_id(name).map(|id| LicenseId {
        index: id.index,
        name: id.name.to_string(),
        copyleft: id.is_copyleft(),
    })
}

/// What `spdx::imprecise_license_id` gives for a name: the identifier that a known
/// prefix of the name (compared ignoring ASCII case) stands for, if any.
pub uninterp spec fn spdx_imprecise_license_id(name: Seq<char>) -> Option<LicenseIdView>;

/// `spdx::imprecise_license_id`, keeping the identifier and dropping the length of the
/// prefix that matched.
#[verifier::external_body]
pub(crate) fn imprecise_license_id(name: &str) -> (res: Option<LicenseId>)
    ensures
        match res {
            Some(id) => spdx_imprecise_license_id(name@) == Some(id@),
            None => spdx_imprecise_license_id(name@) is None,
        },
{
    spdx::imprecise_license_id(name).map(|(id, _)| LicenseId {
        index: id.index,
        name: id.name.to_string(),
        copyleft: id.is_copyleft(),
    })
}

/// A licensee (a license that may be accepted), held as plain values: the SPDX
/// identifier where it is one (`None` for a `LicenseRef`), whether it allows later
/// versions (`+`), and the exception it is taken with (`WITH`), if any.
pub struct Licensee {
    pub id: Option<LicenseId>,
    pub or_later: bool,
    pub addition: Option<String>,
}

/// A licensee as plain values.
pub type LicenseeView = (Option<LicenseIdView>, bool, Option<Seq<char>>);

impl View for Licensee {
    type V = LicenseeView;

    open spec fn view(&self) -> LicenseeView {
        (
            match self.id { Some(id) => Some(id@), None => None },
            self.or_later,
            match self.addition { Some(a) => Some(a@), None => None },
        )
    }
}

/// An output license file with the license identifiers inferred for it.
pub struct IdentifiedLicense {
    pub license: OutputLicense,
    pub id_from_name: Option<LicenseId>,
    pub ids_from_content: Vec<LicenseId>,
}

/// The views of a sequence of identifiers.
pub open spec fn id_views(s: Seq<LicenseId>) -> Seq<LicenseIdView> {
    s.map_values(|id: LicenseId| id@)
}

/// An optional value as a sequence of at most one.
pub open spec fn opt_seq<T>(o: Option<T>) -> Seq<T> {
    match o {
        Some(x) => seq![x],
        None => Seq::empty(),
    }
}

/// An identified license as plain values.
pub type IdentifiedView = (OutputLicenseView, Option<LicenseIdView>, Seq<LicenseIdView>);

impl View for IdentifiedLicense {
    type V = IdentifiedView;

    open spec fn view(&self) -> IdentifiedView {
        (
            self.license@,
            match self.id_from_name { Some(id) => Some(id@), None => None },
            id_views(self.ids_from_content@),
        )
    }
}

/// Every identifier of a license: those from its contents, then the one from its name.
pub open spec fn all_ids(l: IdentifiedView) -> Seq<LicenseIdView> {
    l.2 + opt_seq(l.1)
}

/// Whether a license has an identifier at this position of the SPDX list.
pub open spec fn has_id(l: IdentifiedView, index: nat) -> bool {
    exists|k: int| 0 <= k < all_ids(l).len() && (#[trigger] all_ids(l)[k]).0 == index
}

impl IdentifiedLicense {
    /// Every identifier of this license: those from its contents, then the one from its
    /// name.
    pub fn ids(&self) -> (res: Vec<LicenseId>)
        ensures
            id_views(res@) == all_ids(self@),
    {
        let mut out: Vec<LicenseId> = Vec::new();
        let mut i: usize = 0;
        while i < self.ids_from_content.len()
            invariant
                i <= self.ids_from_content@.len(),
                id_views(out@) == id_views(self.ids_from_content@).subrange(0, i as int),
            decreases self.ids_from_content@.len() - i,
        {
            let ghost before = out@;
            out.push(self.ids_from_content[i].duplicate());
            assert(id_views(out@) =~= id_views(before).push(self.ids_from_content@[i as int]@));
            assert(id_views(self.ids_from_content@).subrange(0, i + 1) =~= id_views(self.ids_from_content@).subrange(0, i as int).push(self.ids_from_content@[i as int]@));
            i = i + 1;
        }
        assert(id_views(self.ids_from_content@).subrange(0, i as int) =~= id_views(self.ids_from_content@));
        let ghost before = out@;
        if let Some(id) = &self.id_from_name {
            out.push(id.duplicate());
            assert(id_views(out@) =~= id_views(before).push(id@));
        }
        assert(id_views(out@) =~= all_ids(self@));
        out
    }

    /// Whether this license has an identifier equal to `id`.
    pub fn has(&self, id: &LicenseId) -> (res: bool)
        ensures
            res == has_id(self@, id@.0),
    {
        let ids = self.ids();
        let mut i: usize = 0;
        while i < ids.len()
            invariant
                i <= ids@.len(),
                id_views(ids@) == all_ids(self@),
                forall|k: int| 0 <= k < i ==> (#[trigger] all_ids(self@)[k]).0 != id@.0,
            decreases ids@.len() - i,
        {
            if ids[i].same_as(id) {
                assert(all_ids(self@)[i as int] == ids@[i as int]@);
                return true;
            }
            assert(all_ids(self@)[i as int] == ids@[i as int]@);
            i = i + 1;
        }
        false
    }
}

/// The identifiers a word of a file name stands for: the exact SPDX identifier, then the
/// one that a known imprecise prefix stands for.
pub open spec fn word_ids(w: Seq<char>) -> Seq<LicenseIdView> {
    opt_seq(spdx_license_id(w)) + opt_seq(spdx_imprecise_license_id(w))
}

/// The first identifier that any of the words stands for, earlier words first.
pub open spec fn first_word_id(words: Seq<Seq<char>>) -> Option<LicenseIdView>
    decreases words.len(),
{
    if words.len() == 0 {
        None
    } else if word_ids(words[0]).len() > 0 {
        Some(word_ids(words[0])[0])
    } else {
        first_word_id(words.drop_first())
    }
}

/// The identifier a license name stands for: the first one found in its `-`-separated
/// words, preferring earlier words, and exact identifiers over imprecise ones.
pub open spec fn name_id(name: Seq<char>) -> Option<LicenseIdView> {
    first_word_id(split_spec(name, '-'))
}

/// The identifiers that a word stands for: the exact one, then the imprecise one.
pub fn possible_ids_from_word(word: &str) -> (res: Vec<LicenseId>)
    ensures
        id_views(res@) == word_ids(word@),
{
    let mut out: Vec<LicenseId> = Vec::new();
    if let Some(id) = license_id(word) {
        out.push(id);
    }
    let ghost mid = out@;
    if let Some(id) = imprecise_license_id(word) {
        out.push(id);
    }
    assert(id_views(out@) =~= word_ids(word@)) by {
        assert(id_views(mid) =~= opt_seq(spdx_license_id(word@)));
    }
    out
}

/// The identifier that the name of a license file stands for, if any.
pub fn id_from_name(license: &OutputLicense) -> (res: Option<LicenseId>)
    ensures
        match res {
            Some(id) => name_id(license.name@) == Some(id@),
            None => name_id(license.name@) is None,
        },
{
    let words = split(license.name.as_str(), '-');
    let ghost ws = views(words@);
    assert(ws.subrange(0, ws.len() as int) =~= ws);
    let mut i: usize = 0;
    while i < words.len()
        invariant
            i <= words@.len(),
            ws == views(words@),
            ws == split_spec(license.name@, '-'),
            first_word_id(ws) == first_word_id(ws.subrange(i as int, ws.len() as int)),
        decreases words@.len() - i,
    {
        let ghost rest = ws.subrange(i as int, ws.len() as int);
        assert(rest.drop_first() =~= ws.subrange(i + 1, ws.len() as int));
        assert(rest[0] == words@[i as int]@);
        let mut ids = possible_ids_from_word(words[i].as_str());
        if ids.len() > 0 {
            let id = ids.remove(0);
            return Some(id);
        }
        i = i + 1;
    }
    assert(ws.subrange(i as int, ws.len() as int) =~= Seq::<Seq<char>>::empty());
    None
}

/// The identifiers of the license names that a scan of a file's contents detected, in
/// order; names not on the SPDX list are passed over.
pub open spec fn detected_ids(names: Seq<Seq<char>>) -> Seq<LicenseIdView>
    decreases names.len(),
{
    if names.len() == 0 {
        Seq::empty()
    } else {
        detected_ids(names.drop_last()) + opt_seq(spdx_license_id(names.last()))
    }
}

/// The identifiers detected in two lists of names, one after the other, are those of
/// the first list followed by those of the second: no name's identifier is dropped or
/// moved.
pub proof fn lemma_detected_ids_concat(a: Seq<Seq<char>>, b: Seq<Seq<char>>)
    ensures
        detected_ids(a + b) == detected_ids(a) + detected_ids(b),
    decreases b.len(),
{
    if b.len() == 0 {
        assert(a + b =~= a);
        assert(detected_ids(b) =~= Seq::<LicenseIdView>::empty());
        assert(detected_ids(a) + detected_ids(b) =~= detected_ids(a));
    } else {
        lemma_detected_ids_concat(a, b.drop_last());
        assert((a + b).drop_last() =~= a + b.drop_last());
        assert((a + b).last() == b.last());
        assert(detected_ids(a) + detected_ids(b) =~= detected_ids(a) + detected_ids(b.drop_last()) + opt_seq(
            spdx_license_id(b.last()),
        ));
    }
}

/// Every detected name that is on the SPDX list gives its identifier, wherever it stands
/// in the list (the license of the whole text and each license found inside it).
pub proof fn lemma_every_listed_name_is_detected(names: Seq<Seq<char>>, i: int)
    requires
        0 <= i < names.len(),
        spdx_license_id(names[i]) is Some,
    ensures
        detected_ids(names).contains(spdx_license_id(names[i])->0),
{
    let x = spdx_license_id(names[i])->0;
    let front = names.subrange(0, i);
    let back = names.subrange(i + 1, names.len() as int);
    assert(names =~= front.push(names[i]) + back);
    lemma_detected_ids_concat(front.push(names[i]), back);
    assert(front.push(names[i]).drop_last() =~= front);
    assert(detected_ids(front.push(names[i])) == detected_ids(front) + opt_seq(spdx_license_id(names[i])));
    assert(opt_seq(spdx_license_id(names[i])) =~= seq![x]);
    let at = detected_ids(front).len() as int;
    assert(detected_ids(names)[at] == x);
}

/// The identifiers of the detected license names (those on the SPDX list), in order.
pub fn ids_from_content(detected: &Vec<String>) -> (res: Vec<LicenseId>)
    ensures
        id_views(res@) == detected_ids(views(detected@)),
{
    let ghost names = views(detected@);
    let mut out: Vec<LicenseId> = Vec::new();
    let mut i: usize = 0;
    while i < detected.len()
        invariant
            i <= detected@.len(),
            names == views(detected@),
            id_views(out@) == detected_ids(names.subrange(0, i as int)),
        decreases detected@.len() - i,
    {
        assert(names.subrange(0, i + 1).drop_last() =~= names.subrange(0, i as int));
        assert(names.subrange(0, i + 1).last() == detected@[i as int]@);
        let ghost before = id_views(out@);
        match license_id(detected[i].as_str()) {
            Some(id) => {
                out.push(id);
                assert(id_views(out@) =~= before + opt_seq(spdx_license_id(detected@[i as int]@)));
            },
            None => {
                assert(id_views(out@) =~= before + opt_seq(spdx_license_id(detected@[i as int]@)));
            },
        }
        i = i + 1;
    }
    assert(names.subrange(0, i as int) =~= names);
    out
}

/// An output license with its identifiers: the one its name stands for, and those of the
/// license names detected in its contents.
pub fn identify_license(license: OutputLicense, detected: &Vec<String>) -> (res: IdentifiedLicense)
    ensures
        res@ == (license@, name_id(license.name@), detected_ids(views(detected@))),
{
    let id_from_name = id_from_name(&license);
    let ids_from_content = ids_from_content(detected);
    IdentifiedLicense { license, id_from_name, ids_from_content }
}

#[verifier::external_type_specification]
#[verifier::external_body]
pub struct ExLicenseStore(spdx::detection::Store);

/// `spdx::detection::Store::load_inline`, then `Store::add_variant` with `anyhow`'s
/// Apache License text as an alternate form of Apache-2.0; an error is its message.
/// Nothing is claimed of the store.
#[verifier::external_body]
fn load_store() -> (res: Result<spdx::detection::Store, String>)
{
    let mut store = spdx::detection::Store::load_inline().map_err(|e| e.to_string())?;
    store
        .add_variant(
            "Apache-2.0",
            spdx::detection::LicenseType::Alternate,
            crate::apache_license::ANYHOW_LICENSE_APACHE.into(),
        )
        .map_err(|e| e.to_string())?;
    Ok(store)
}

/// `spdx::detection::scan::Scanner::scan` with the store, looking for several licenses
/// in one text (`optimize(true)`): the names of the license of the whole text, then of
/// those found inside it. The scan ranks candidates by floating-point scores against
/// the store's texts, so nothing is claimed of the names.
#[verifier::external_body]
fn scanned_license_names(store: &spdx::detection::Store, text: &str) -> (res: Vec<String>)
{
    let scanner = spdx::detection::scan::Scanner::new(store).optimize(true);
    let scanned = scanner.scan(&text.into());
    scanned
        .license
        .iter()
        .chain(scanned.containing.iter().map(|c| &c.license))
        .map(|l| l.name.to_string())
        .collect()
}

/// The license texts that identify license files by their contents.
pub struct LicenseScanner {
    store: spdx::detection::Store,
}

impl LicenseScanner {
    /// The SPDX license texts, with `anyhow`'s Apache License text known as a form of
    /// Apache-2.0; an error where they cannot be loaded.
    pub fn load() -> (res: Result<LicenseScanner, String>) {
        match load_store() {
            Ok(store) => Ok(LicenseScanner { store }),
            Err(e) => Err(e),
        }
    }

    /// An output license with its identifiers: the one its name stands for, and those of
    /// the license names that a scan of its text detects (those on the SPDX list).
    pub fn identify_license_text(&self, license: OutputLicense, text: &str) -> (res: IdentifiedLicense)
        ensures
            exists|names: Seq<Seq<char>>| res@ == (license@, name_id(license.name@), detected_ids(names)),
    {
        let names = scanned_license_names(&self.store, text);
        identify_license(license, &names)
    }
}

} // verus!
