//! Verified helpers on strings, viewed as sequences of `char`.
use vstd::prelude::*;

verus! {

broadcast use vstd::seq_lib::group_seq_properties;

/// The lowercase form of a string, as `str::to_lowercase` computes it
/// (Unicode `Lowercase` mapping).
pub uninterp spec fn lowercase_of(s: Seq<char>) -> Seq<char>;

/// `str::to_lowercase`: the Unicode lowercase mapping of `s`. Nothing is claimed of the
/// mapping itself; its result is named `lowercase_of`, a function of the input alone.
#[verifier::external_body]
pub(crate) fn to_lowercase(s: &str) -> (res: String)
    ensures
        res@ == lowercase_of(s@),
{
    s.to_lowercase()
}

/// `String::push`: appends one character.
#[verifier::external_body]
pub(crate) fn push_char(s: &mut String, c: char)
    ensures
        final(s)@ == old(s)@.push(c),
{
    s.push(c)
}

/// A copy of a string slice as an owned `String`.
pub fn owned(s: &str) -> (res: String)
    ensures
        res@ == s@,
{
    s.to_owned()
}

/// A copy of a `String`.
pub fn copy_string(s: &String) -> (res: String)
    ensures
        res@ == s@,
{
    s.clone()
}

/// Whether `needle` occurs in `hay` starting at position `i`.
pub open spec fn occurs_at(hay: Seq<char>, needle: Seq<char>, i: int) -> bool {
    0 <= i && i + needle.len() <= hay.len() && hay.subrange(i, i + needle.len()) == needle
}

/// Whether `needle` occurs anywhere in `hay` (an empty needle always occurs).
pub open spec fn seq_contains(hay: Seq<char>, needle: Seq<char>) -> bool {
    exists|i: int| occurs_at(hay, needle, i)
}

/// Character-wise equality of two string slices.
pub fn str_eq(a: &str, b: &str) -> (res: bool)
    ensures
        res == (a@ == b@),
{
    let n = a.unicode_len();
    let m = b.unicode_len();
    if n != m {
        return false;
    }
    let mut i: usize = 0;
    while i < n
        invariant
            n == a@.len(),
            m == b@.len(),
            n == m,
            i <= n,
            forall|j: int| 0 <= j < i ==> a@[j] == b@[j],
        decreases n - i,
    {
        if a.get_char(i) != b.get_char(i) {
            return false;
        }
        i = i + 1;
    }
    assert(a@ =~= b@);
    true
}

/// Whether `needle` occurs in `hay` at character position `i`.
fn matches_at(hay: &str, needle: &str, i: usize) -> (res: bool)
    requires
        i + needle@.len() <= hay@.len(),
    ensures
        res == occurs_at(hay@, needle@, i as int),
{
    let n = hay.unicode_len();
    let m = needle.unicode_len();
    let mut j: usize = 0;
    while j < m
        invariant
            n == hay@.len(),
            m == needle@.len(),
            i + m <= hay@.len(),
            j <= m,
            forall|k: int| 0 <= k < j ==> hay@[i + k] == needle@[k],
        decreases m - j,
    {
        if hay.get_char(i + j) != needle.get_char(j) {
            assert(hay@.subrange(i as int, i + m)[j as int] != needle@[j as int]);
            return false;
        }
        j = j + 1;
    }
    assert(hay@.subrange(i as int, i + m) =~= needle@);
    true
}

/// Substring search, as `str::contains` with a string pattern.
pub fn contains(hay: &str, needle: &str) -> (res: bool)
    ensures
        res == seq_contains(hay@, needle@),
{
    let n = hay.unicode_len();
    let m = needle.unicode_len();
    if m > n {
        return false;
    }
    if m == 0 {
        assert(hay@.subrange(0, 0) =~= needle@);
        assert(occurs_at(hay@, needle@, 0));
        return true;
    }
    let mut i: usize = 0;
    while i <= n - m
        invariant
            n == hay@.len(),
            m == needle@.len(),
            0 < m <= n,
            i <= n - m + 1,
            forall|k: int| 0 <= k < i ==> !occurs_at(hay@, needle@, k),
        decreases n - m + 1 - i,
    {
        if matches_at(hay, needle, i) {
            return true;
        }
        i = i + 1;
    }
    assert forall|k: int| !occurs_at(hay@, needle@, k) by {
        if 0 <= k && k + m <= n {
            assert(k < i);
        }
    }
    false
}

/// The first position of `c` in `s`, if any.
pub open spec fn first_index_of(s: Seq<char>, c: char) -> Option<int> {
    if exists|i: int| 0 <= i < s.len() && s[i] == c {
        Some(choose|i: int| 0 <= i < s.len() && s[i] == c && forall|j: int| 0 <= j < i ==> s[j] != c)
    } else {
        None
    }
}

/// What `str::split_once` with a character pattern gives: the parts before and after
/// the first occurrence of `c`.
pub open spec fn split_once_spec(s: Seq<char>, c: char) -> Option<(Seq<char>, Seq<char>)> {
    match first_index_of(s, c) {
        Some(i) => Some((s.subrange(0, i), s.subrange(i + 1, s.len() as int))),
        None => None,
    }
}

/// The position of the first `c` in `s`, if any.
pub fn find_char(s: &str, c: char) -> (res: Option<usize>)
    ensures
        match res {
            Some(i) => i < s@.len() && s@[i as int] == c && forall|j: int| 0 <= j < i ==> s@[j] != c,
            None => forall|j: int| 0 <= j < s@.len() ==> s@[j] != c,
        },
        res matches Some(i) ==> first_index_of(s@, c) == Some(i as int),
        res is None <==> first_index_of(s@, c) is None,
{
    let n = s.unicode_len();
    let mut i: usize = 0;
    while i < n
        invariant
            n == s@.len(),
            i <= n,
            forall|j: int| 0 <= j < i ==> s@[j] != c,
        decreases n - i,
    {
        if s.get_char(i) == c {
            proof {
                let w = choose|k: int| 0 <= k < s@.len() && s@[k] == c && forall|j: int| 0 <= j < k ==> s@[j] != c;
                assert(0 <= i < s@.len() && s@[i as int] == c && forall|j: int| 0 <= j < i ==> s@[j] != c);
                if w < i {
                    assert(s@[w] != c);
                } else if w > i {
                    assert(s@[i as int] != c);
                }
            }
            return Some(i);
        }
        i = i + 1;
    }
    None
}

/// `str::split_once` with a character pattern.
pub fn split_once(s: &str, c: char) -> (res: Option<(String, String)>)
    ensures
        match (res, split_once_spec(s@, c)) {
            (Some((a, b)), Some((x, y))) => a@ == x && b@ == y,
            (None, None) => true,
            _ => false,
        },
{
    match find_char(s, c) {
        Some(i) => {
            let n = s.unicode_len();
            let before = owned(s.substring_char(0, i));
            let after = owned(s.substring_char(i + 1, n));
            Some((before, after))
        },
        None => None,
    }
}

/// `s` with every `from` replaced by `to`.
pub open spec fn replace_char_spec(s: Seq<char>, from: char, to: char) -> Seq<char> {
    s.map_values(|x: char| if x == from { to } else { x })
}

/// `str::replace` with single-character pattern and replacement.
pub fn replace_char(s: &str, from: char, to: char) -> (res: String)
    ensures
        res@ == replace_char_spec(s@, from, to),
{
    let n = s.unicode_len();
    let mut out = String::new();
    let mut i: usize = 0;
    while i < n
        invariant
            n == s@.len(),
            i <= n,
            out@ == replace_char_spec(s@.subrange(0, i as int), from, to),
        decreases n - i,
    {
        let x = s.get_char(i);
        let y = if x == from { to } else { x };
        push_char(&mut out, y);
        assert(s@.subrange(0, i + 1) =~= s@.subrange(0, i as int).push(x));
        i = i + 1;
    }
    assert(s@.subrange(0, n as int) =~= s@);
    out
}

/// The decimal digit for `d`.
pub open spec fn digit_char(d: nat) -> char {
    if d == 0 { '0' }
    else if d == 1 { '1' }
    else if d == 2 { '2' }
    else if d == 3 { '3' }
    else if d == 4 { '4' }
    else if d == 5 { '5' }
    else if d == 6 { '6' }
    else if d == 7 { '7' }
    else if d == 8 { '8' }
    else { '9' }
}

/// The decimal representation of `n`, without sign or leading zeros, as `Display` for
/// unsigned integers writes it.
pub open spec fn decimal(n: nat) -> Seq<char>
    decreases n,
{
    if n < 10 {
        seq![digit_char(n)]
    } else {
        decimal(n / 10).push(digit_char(n % 10))
    }
}

fn digit(d: u64) -> (c: char)
    requires
        d < 10,
    ensures
        c == digit_char(d as nat),
{
    if d == 0 { '0' }
    else if d == 1 { '1' }
    else if d == 2 { '2' }
    else if d == 3 { '3' }
    else if d == 4 { '4' }
    else if d == 5 { '5' }
    else if d == 6 { '6' }
    else if d == 7 { '7' }
    else if d == 8 { '8' }
    else { '9' }
}

/// Appends the decimal representation of `n` to `out`.
pub fn push_decimal(out: &mut String, n: u64)
    ensures
        final(out)@ == old(out)@ + decimal(n as nat),
    decreases n,
{
    if n < 10 {
        push_char(out, digit(n));
        assert(old(out)@.push(digit_char(n as nat)) =~= old(out)@ + decimal(n as nat));
    } else {
        push_decimal(out, n / 10);
        push_char(out, digit(n % 10));
        assert(old(out)@ + decimal((n / 10) as nat) + seq![digit_char((n % 10) as nat)]
            =~= old(out)@ + decimal(n as nat));
    }
}

/// The decimal representation of `n` as a new `String`.
pub fn decimal_string(n: u64) -> (res: String)
    ensures
        res@ == decimal(n as nat),
{
    let mut s = String::new();
    push_decimal(&mut s, n);
    assert(Seq::<char>::empty() + decimal(n as nat) =~= decimal(n as nat));
    s
}

/// Strict lexicographic order on character sequences; `String`'s order, since UTF-8
/// preserves the order of code points.
pub open spec fn seq_lt(a: Seq<char>, b: Seq<char>) -> bool
    decreases a.len(),
{
    if b.len() == 0 {
        false
    } else if a.len() == 0 {
        true
    } else if a[0] != b[0] {
        (a[0] as u32) < (b[0] as u32)
    } else {
        seq_lt(a.drop_first(), b.drop_first())
    }
}

/// Non-strict lexicographic order.
pub open spec fn seq_le(a: Seq<char>, b: Seq<char>) -> bool {
    !seq_lt(b, a)
}

/// The strict order is asymmetric.
pub proof fn lemma_seq_lt_asymmetric(a: Seq<char>, b: Seq<char>)
    ensures
        seq_lt(a, b) ==> !seq_lt(b, a),
    decreases a.len(),
{
    if a.len() > 0 && b.len() > 0 && a[0] == b[0] {
        lemma_seq_lt_asymmetric(a.drop_first(), b.drop_first());
    }
}

/// The strict order is irreflexive.
pub proof fn lemma_seq_lt_irreflexive(a: Seq<char>)
    ensures
        !seq_lt(a, a),
    decreases a.len(),
{
    if a.len() > 0 {
        lemma_seq_lt_irreflexive(a.drop_first());
    }
}

/// Lexicographic comparison of two strings: whether `a < b`.
pub fn str_lt(a: &str, b: &str) -> (res: bool)
    ensures
        res == seq_lt(a@, b@),
{
    let n = a.unicode_len();
    let m = b.unicode_len();
    let mut i: usize = 0;
    assert(a@.subrange(0, n as int) =~= a@);
    assert(b@.subrange(0, m as int) =~= b@);
    while i < n && i < m
        invariant
            n == a@.len(),
            m == b@.len(),
            i <= n,
            i <= m,
            forall|j: int| 0 <= j < i ==> a@[j] == b@[j],
            seq_lt(a@, b@) == seq_lt(a@.subrange(i as int, n as int), b@.subrange(i as int, m as int)),
        decreases n - i,
    {
        let x = a.get_char(i);
        let y = b.get_char(i);
        proof {
            let sa = a@.subrange(i as int, n as int);
            let sb = b@.subrange(i as int, m as int);
            assert(sa[0] == x && sb[0] == y);
            assert(sa.drop_first() =~= a@.subrange(i + 1, n as int));
            assert(sb.drop_first() =~= b@.subrange(i + 1, m as int));
        }
        if x != y {
            return (x as u32) < (y as u32);
        }
        i = i + 1;
    }
    i < m
}

/// The entries of `items`, in order, separated by `sep`.
pub open spec fn joined(items: Seq<Seq<char>>, sep: Seq<char>) -> Seq<char>
    decreases items.len(),
{
    if items.len() == 0 {
        Seq::empty()
    } else if items.len() == 1 {
        items[0]
    } else {
        joined(items.drop_last(), sep) + sep + items.last()
    }
}

/// The views of a vector of strings.
pub open spec fn views(v: Seq<String>) -> Seq<Seq<char>> {
    v.map_values(|s: String| s@)
}

/// `[String]::join`.
pub fn join(items: &Vec<String>, sep: &str) -> (res: String)
    ensures
        res@ == joined(views(items@), sep@),
{
    let mut out = String::new();
    let mut i: usize = 0;
    while i < items.len()
        invariant
            i <= items@.len(),
            out@ == joined(views(items@.subrange(0, i as int)), sep@),
        decreases items@.len() - i,
    {
        let ghost before = views(items@.subrange(0, i as int));
        if i > 0 {
            out.append(sep);
        }
        out.append(items[i].as_str());
        proof {
            let now = views(items@.subrange(0, i + 1));
            assert(now.drop_last() =~= before);
            assert(now.last() == items@[i as int]@);
            if i == 0 {
                assert(out@ =~= now[0]);
            }
        }
        i = i + 1;
    }
    assert(items@.subrange(0, i as int) =~= items@);
    out
}

/// Whether the sequence of strings is in non-decreasing lexicographic order.
pub open spec fn sorted(s: Seq<Seq<char>>) -> bool {
    forall|i: int| 0 <= i < s.len() - 1 ==> seq_le(#[trigger] s[i], s[i + 1])
}

/// Sorts strings in lexicographic order (insertion sort); the result holds the same
/// strings, each as often as in the input.
pub fn sort_strings(items: Vec<String>) -> (res: Vec<String>)
    ensures
        views(res@).to_multiset() == views(items@).to_multiset(),
        sorted(views(res@)),
{
    broadcast use vstd::seq_lib::group_to_multiset_ensures;
    let mut out: Vec<String> = Vec::new();
    let mut i: usize = 0;
    while i < items.len()
        invariant
            i <= items@.len(),
            views(out@).to_multiset() == views(items@.subrange(0, i as int)).to_multiset(),
            sorted(views(out@)),
        decreases items@.len() - i,
    {
        let x = copy_string(&items[i]);
        let mut k: usize = 0;
        while k < out.len() && !str_lt(x.as_str(), out[k].as_str())
            invariant
                k <= out@.len(),
                forall|j: int| 0 <= j < k ==> !seq_lt(x@, #[trigger] out@[j]@),
            decreases out@.len() - k,
        {
            k = k + 1;
        }
        let ghost old_out = out@;
        out.insert(k, x);
        proof {
            assert(views(out@) =~= views(old_out).insert(k as int, x@));
            assert(views(items@.subrange(0, i + 1)) =~= views(items@.subrange(0, i as int)).push(x@));
            if k < old_out.len() {
                lemma_seq_lt_asymmetric(x@, old_out[k as int]@);
            }
            assert forall|j: int| 0 <= j < views(out@).len() - 1 implies seq_le(#[trigger] views(out@)[j], views(out@)[j + 1]) by {
                if j + 1 < k {
                    assert(views(out@)[j] == views(old_out)[j]);
                    assert(views(out@)[j + 1] == views(old_out)[j + 1]);
                } else if j + 1 == k {
                    assert(views(out@)[j] == old_out[j]@);
                } else if j == k {
                } else {
                    assert(views(out@)[j] == views(old_out)[j - 1]);
                    assert(views(out@)[j + 1] == views(old_out)[j]);
                }
            }
        }
        i = i + 1;
    }
    assert(items@.subrange(0, i as int) =~= items@);
    out
}

/// Whether `s` occurs among `items`.
pub fn contains_string(items: &Vec<String>, s: &str) -> (res: bool)
    ensures
        res == views(items@).contains(s@),
{
    let mut i: usize = 0;
    while i < items.len()
        invariant
            i <= items@.len(),
            forall|j: int| 0 <= j < i ==> items@[j]@ != s@,
        decreases items@.len() - i,
    {
        if str_eq(items[i].as_str(), s) {
            assert(views(items@)[i as int] == s@);
            return true;
        }
        i = i + 1;
    }
    assert forall|j: int| 0 <= j < views(items@).len() implies views(items@)[j] != s@ by {
        assert(items@[j]@ != s@);
    }
    false
}

/// The pieces of `s` between occurrences of `c`, as `str::split` with a character
/// pattern gives them (empty pieces included; always at least one piece).
pub open spec fn split_spec(s: Seq<char>, c: char) -> Seq<Seq<char>>
    decreases s.len(),
{
    match split_once_spec(s, c) {
        Some((before, after)) => if after.len() < s.len() {
            seq![before] + split_spec(after, c)
        } else {
            seq![before]
        },
        None => seq![s],
    }
}

/// `str::split` with a character pattern, collected.
pub fn split(s: &str, c: char) -> (res: Vec<String>)
    ensures
        views(res@) == split_spec(s@, c),
    decreases s@.len(),
{
    match find_char(s, c) {
        Some(i) => {
            let n = s.unicode_len();
            let before = owned(s.substring_char(0, i));
            let rest = s.substring_char(i + 1, n);
            assert(split_once_spec(s@, c) == Some((before@, rest@)));
            let tail = split(rest, c);
            let ghost b = before@;
            let mut out: Vec<String> = Vec::new();
            out.push(before);
            assert(views(out@) =~= seq![b] + views(tail@).subrange(0, 0));
            let mut j: usize = 0;
            while j < tail.len()
                invariant
                    j <= tail@.len(),
                    views(out@) == seq![b] + views(tail@).subrange(0, j as int),
                decreases tail@.len() - j,
            {
                let ghost old_out = out@;
                out.push(copy_string(&tail[j]));
                assert(views(out@) =~= views(old_out).push(tail@[j as int]@));
                assert(views(tail@).subrange(0, j + 1) =~= views(tail@).subrange(0, j as int).push(tail@[j as int]@));
                assert(views(out@) =~= seq![b] + views(tail@).subrange(0, j + 1));
                j = j + 1;
            }
            assert(views(tail@).subrange(0, j as int) =~= views(tail@));
            out
        },
        None => {
            let mut out: Vec<String> = Vec::new();
            out.push(owned(s));
            assert(views(out@) =~= seq![s@]);
            out
        },
    }
}

} // verus!
