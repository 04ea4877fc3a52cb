//! A minimal, ordered, multi-value MIME header map for building and inspecting
//! e-mail messages. Keys are canonicalized (e.g. `content-type` ->
//! `Content-Type`) so lookups are case-insensitive.

use vstd::prelude::*;

use crate::text::same_text;

verus! {

// ---------------------------------------------------------------------------
// Canonical keys
// ---------------------------------------------------------------------------

/// What `char::to_uppercase` gives for a character beyond ASCII.
pub uninterp spec fn unicode_uppercase(c: char) -> Seq<char>;

/// What `char::to_lowercase` gives for a character beyond ASCII.
pub uninterp spec fn unicode_lowercase(c: char) -> Seq<char>;

/// The upper-case letter of an ASCII character.
pub open spec fn ascii_upper(c: char) -> char {
    if 'a' <= c <= 'z' {
        ((c as u32 - 32) as u32) as char
    } else {
        c
    }
}

/// The lower-case letter of an ASCII character.
pub open spec fn ascii_lower(c: char) -> char {
    if 'A' <= c <= 'Z' {
        ((c as u32 + 32) as u32) as char
    } else {
        c
    }
}

/// Whether `c` is an ASCII character.
pub open spec fn is_ascii_char(c: char) -> bool {
    c <= '\u{7f}'
}

/// `c` in upper case: a letter of ASCII for one of ASCII, and possibly more than
/// one character beyond it.
pub open spec fn upper_of(c: char) -> Seq<char> {
    if is_ascii_char(c) {
        seq![ascii_upper(c)]
    } else {
        unicode_uppercase(c)
    }
}

/// `c` in lower case.
pub open spec fn lower_of(c: char) -> Seq<char> {
    if is_ascii_char(c) {
        seq![ascii_lower(c)]
    } else {
        unicode_lowercase(c)
    }
}

/// `char::to_uppercase` of the standard library: an ASCII letter becomes its
/// upper-case letter and any other ASCII character stays. What comes of a
/// character beyond ASCII is left to the Unicode tables, under a name.
#[verifier::external_body]
fn to_uppercase(c: char) -> (r: String)
    ensures
        is_ascii_char(c) ==> r@ == seq![ascii_upper(c)],
        !is_ascii_char(c) ==> r@ == unicode_uppercase(c),
{
    c.to_uppercase().to_string()
}

/// `char::to_lowercase` of the standard library: an ASCII letter becomes its
/// lower-case letter and any other ASCII character stays. What comes of a
/// character beyond ASCII is left to the Unicode tables, under a name.
#[verifier::external_body]
fn to_lowercase(c: char) -> (r: String)
    ensures
        is_ascii_char(c) ==> r@ == seq![ascii_lower(c)],
        !is_ascii_char(c) ==> r@ == unicode_lowercase(c),
{
    c.to_lowercase().to_string()
}

/// `key` in canonical form, where `upper` says whether its first letter is to be
/// upper-cased.
pub open spec fn canonical_from(key: Seq<char>, upper: bool) -> Seq<char>
    decreases key.len(),
{
    if key.len() == 0 {
        Seq::empty()
    } else {
        (if upper {
            upper_of(key[0])
        } else {
            lower_of(key[0])
        }) + canonical_from(key.skip(1), key[0] == '-')
    }
}

/// The canonical form of a header key.
pub open spec fn canonical(key: Seq<char>) -> Seq<char> {
    canonical_from(key, true)
}

/// Canonicalizes a MIME header key: the first letter and any letter following a
/// `-` are upper-cased, everything else is lower-cased.
/// E.g. `MESSAGE-id` -> `Message-Id`.
pub fn canonicalize(key: &str) -> (r: String)
    ensures
        r@ == canonical(key@),
{
    let chars = crate::text::chars_of(key);
    let mut out = String::new();
    let mut upper = true;
    let mut i: usize = 0;
    assert(chars@.skip(0) == chars@);
    while i < chars.len()
        invariant
            i <= chars@.len(),
            out@ + canonical_from(chars@.skip(i as int), upper) == canonical(chars@),
        decreases chars@.len() - i,
    {
        let c = chars[i];
        let ghost before = out@;
        let ghost rest = chars@.skip(i as int);
        let ghost was = upper;
        if upper {
            out.append(to_uppercase(c).as_str());
        } else {
            out.append(to_lowercase(c).as_str());
        }
        upper = c == '-';
        assert(rest.skip(1) == chars@.skip(i + 1));
        i += 1;
        assert(before + canonical_from(rest, was) == out@ + canonical_from(
            chars@.skip(i as int),
            upper,
        ));
    }
    assert(out@ + canonical_from(chars@.skip(i as int), upper) == out@);
    out
}

/// Law: keys that differ in the case of their ASCII letters alone have one
/// canonical form, so that lookups are case-insensitive.
pub proof fn law_canonical_ignores_case(a: Seq<char>, b: Seq<char>)
    requires
        a.len() == b.len(),
        forall|i: int| 0 <= i < a.len() ==> ascii_lower(#[trigger] a[i]) == ascii_lower(b[i]),
    ensures
        canonical(a) == canonical(b),
{
    lemma_canonical_ignores_case(a, b, true);
}

proof fn lemma_canonical_ignores_case(a: Seq<char>, b: Seq<char>, upper: bool)
    requires
        a.len() == b.len(),
        forall|i: int| 0 <= i < a.len() ==> ascii_lower(#[trigger] a[i]) == ascii_lower(b[i]),
    ensures
        canonical_from(a, upper) == canonical_from(b, upper),
    decreases a.len(),
{
    if a.len() > 0 {
        assert(ascii_lower(a[0]) == ascii_lower(b[0]));
        lemma_same_letter(a[0], b[0]);
        assert forall|i: int| 0 <= i < a.skip(1).len() implies ascii_lower(
            #[trigger] a.skip(1)[i],
        ) == ascii_lower(b.skip(1)[i]) by {
            assert(a.skip(1)[i] == a[i + 1]);
        }
        lemma_canonical_ignores_case(a.skip(1), b.skip(1), a[0] == '-');
    }
}

/// Characters with the same lower-case letter have the same forms in both cases.
proof fn lemma_same_letter(c: char, d: char)
    requires
        ascii_lower(c) == ascii_lower(d),
    ensures
        upper_of(c) == upper_of(d),
        lower_of(c) == lower_of(d),
        c == '-' <==> d == '-',
{
    assert(ascii_upper(c) == ascii_upper(d));
}

/// Whether changing the case of `c` once more changes nothing: so for every
/// ASCII character, and for any other with one character in either case that is
/// its own form in that case.
pub open spec fn case_stable(c: char) -> bool {
    is_ascii_char(c) || {
        &&& upper_of(c).len() == 1
        &&& upper_of(upper_of(c)[0]) == upper_of(c)
        &&& upper_of(c)[0] != '-'
        &&& lower_of(c).len() == 1
        &&& lower_of(lower_of(c)[0]) == lower_of(c)
        &&& lower_of(c)[0] != '-'
    }
}

/// Law: a canonical key is its own canonical form. A key with a character such
/// as `ß`, which is two characters in upper case, need not be.
pub proof fn law_canonical_idempotent(key: Seq<char>)
    ensures
        (forall|i: int| 0 <= i < key.len() ==> case_stable(#[trigger] key[i])) ==> canonical(
            canonical(key),
        ) == canonical(key),
{
    if forall|i: int| 0 <= i < key.len() ==> case_stable(#[trigger] key[i]) {
        lemma_canonical_idempotent(key, true);
    }
}

proof fn lemma_canonical_idempotent(key: Seq<char>, upper: bool)
    requires
        forall|i: int| 0 <= i < key.len() ==> case_stable(#[trigger] key[i]),
    ensures
        canonical_from(canonical_from(key, upper), upper) == canonical_from(key, upper),
    decreases key.len(),
{
    if key.len() > 0 {
        let c = key[0];
        assert(case_stable(c));
        let d = if upper {
            upper_of(c)
        } else {
            lower_of(c)
        };
        let rest = canonical_from(key.skip(1), c == '-');
        assert forall|i: int| 0 <= i < key.skip(1).len() implies case_stable(
            #[trigger] key.skip(1)[i],
        ) by {
            assert(key.skip(1)[i] == key[i + 1]);
        }
        lemma_canonical_idempotent(key.skip(1), c == '-');
        assert(d.len() == 1);
        assert((d + rest).skip(1) == rest);
        assert((d + rest)[0] == d[0]);
        assert(d[0] == '-' <==> c == '-');
    }
}

// ---------------------------------------------------------------------------
// The header map
// ---------------------------------------------------------------------------

/// The entries of a header map in insertion order: each canonical key with its
/// values.
pub type HeaderView = Seq<(Seq<char>, Seq<Seq<char>>)>;

/// Index of the first entry of `h` under the canonical key `canon`.
pub open spec fn find(h: HeaderView, canon: Seq<char>) -> Option<int>
    decreases h.len(),
{
    if h.len() == 0 {
        None
    } else {
        match find(h.drop_last(), canon) {
            Some(i) => Some(i),
            None => if h.last().0 == canon {
                Some(h.len() - 1)
            } else {
                None
            },
        }
    }
}

/// `h` with the values of `key` replaced by the one value `val`; a new key goes to
/// the end.
pub open spec fn header_set(
    h: HeaderView,
    key: Seq<char>,
    val: Seq<char>,
) -> HeaderView {
    match find(h, canonical(key)) {
        Some(i) => h.update(i, (h[i].0, seq![val])),
        None => h.push((canonical(key), seq![val])),
    }
}

/// `h` with `val` appended to the values of `key`; a new key goes to the end.
pub open spec fn header_add(
    h: HeaderView,
    key: Seq<char>,
    val: Seq<char>,
) -> HeaderView {
    match find(h, canonical(key)) {
        Some(i) => h.update(i, (h[i].0, h[i].1.push(val))),
        None => h.push((canonical(key), seq![val])),
    }
}

/// All values of `key` in `h`, if the key is present.
pub open spec fn header_values(h: HeaderView, key: Seq<char>) -> Option<
    Seq<Seq<char>>,
> {
    match find(h, canonical(key)) {
        Some(i) => Some(h[i].1),
        None => None,
    }
}

/// Whether `key` is present in `h`.
pub open spec fn header_has(h: HeaderView, key: Seq<char>) -> bool {
    find(h, canonical(key)) is Some
}

/// Whether `key` is the canonical form of some key.
pub open spec fn is_canonical(key: Seq<char>) -> bool {
    exists|k: Seq<char>| #[trigger] canonical(k) == key
}

/// What holds of the entries of every header map: each key is canonical and
/// occurs once, with at least one value.
pub open spec fn header_wf(h: HeaderView) -> bool {
    &&& forall|i: int| 0 <= i < h.len() ==> is_canonical((#[trigger] h[i]).0) && h[i].1.len() > 0
    &&& forall|i: int, j: int| 0 <= i < j < h.len() ==> (#[trigger] h[i]).0 != (#[trigger] h[j]).0
}

/// The found entry has the key, and is the first one that has it.
pub proof fn lemma_find(h: HeaderView, canon: Seq<char>)
    ensures
        find(h, canon) matches Some(i) ==> 0 <= i < h.len() && h[i].0 == canon && forall|j: int|
            0 <= j < i ==> (#[trigger] h[j]).0 != canon,
        find(h, canon) is None ==> forall|j: int| 0 <= j < h.len() ==> (#[trigger] h[j]).0 != canon,
    decreases h.len(),
{
    if h.len() > 0 {
        lemma_find(h.drop_last(), canon);
        assert forall|j: int| 0 <= j < h.len() - 1 implies (#[trigger] h[j]).0
            == h.drop_last()[j].0 by {}
    }
}

/// The first entry that has the key is the found one.
pub proof fn lemma_find_first(
    h: HeaderView,
    canon: Seq<char>,
    i: int,
)
    requires
        0 <= i < h.len(),
        h[i].0 == canon,
        forall|j: int| 0 <= j < i ==> (#[trigger] h[j]).0 != canon,
    ensures
        find(h, canon) == Some(i),
{
    lemma_find(h, canon);
}

/// An ordered, multi-value header map with canonicalized keys.
#[derive(Debug)]
pub struct MimeHeader {
    entries: Vec<(String, Vec<String>)>,
}

impl View for MimeHeader {
    type V = HeaderView;

    /// The canonical keys in insertion order, each with its values.
    closed spec fn view(&self) -> HeaderView {
        self.entries.deep_view()
    }
}

/// A vector of one string.
fn one(val: &str) -> (r: Vec<String>)
    ensures
        r.deep_view() == seq![val@],
{
    let mut v: Vec<String> = Vec::new();
    v.push(val.to_string());
    assert(v.deep_view() == seq![val@]);
    v
}

impl Default for MimeHeader {
    fn default() -> (r: Self)
        ensures
            r@ == HeaderView::empty(),
            header_wf(r@),
    {
        let entries: Vec<(String, Vec<String>)> = Vec::new();
        assert(entries.deep_view() == HeaderView::empty());
        MimeHeader { entries }
    }
}

impl Clone for MimeHeader {
    fn clone(&self) -> (r: Self)
        ensures
            r@ == self@,
            header_wf(r@),
    {
        proof {
            use_type_invariant(self);
        }
        let mut entries: Vec<(String, Vec<String>)> = Vec::new();
        let mut i: usize = 0;
        while i < self.entries.len()
            invariant
                i <= self.entries@.len(),
                entries@.len() == i,
                forall|j: int|
                    0 <= j < i ==> (#[trigger] entries@[j]).deep_view()
                        == self.entries@[j].deep_view(),
            decreases self.entries@.len() - i,
        {
            let key = self.entries[i].0.clone();
            let vals = self.entries[i].1.clone();
            assert(vals@ == self.entries@[i as int].1@);
            assert(vals.deep_view() == self.entries@[i as int].1.deep_view());
            entries.push((key, vals));
            i += 1;
        }
        assert(entries.deep_view() == self@);
        MimeHeader { entries }
    }
}

impl MimeHeader {
    #[verifier::type_invariant]
    spec fn well_formed(self) -> bool {
        header_wf(self.entries.deep_view())
    }

    /// An empty header map.
    pub fn new() -> (r: Self)
        ensures
            r@ == HeaderView::empty(),
            header_wf(r@),
    {
        MimeHeader::default()
    }

    /// Index of the entry under the canonical key `canon`.
    fn position(&self, canon: &str) -> (r: Option<usize>)
        ensures
            r matches Some(i) ==> find(self@, canon@) == Some(i as int) && i < self.entries@.len(),
            r is None ==> find(self@, canon@) is None,
    {
        let mut i: usize = 0;
        while i < self.entries.len()
            invariant
                i <= self.entries@.len(),
                forall|j: int| 0 <= j < i ==> (#[trigger] self@[j]).0 != canon@,
            decreases self.entries@.len() - i,
        {
            if same_text(self.entries[i].0.as_str(), canon) {
                proof {
                    lemma_find_first(self@, canon@, i as int);
                }
                return Some(i);
            }
            i += 1;
        }
        proof {
            lemma_find(self@, canon@);
        }
        None
    }

    /// Replaces any existing values for `key` with the single value `val`.
    pub fn set(&mut self, key: &str, val: &str)
        ensures
            final(self)@ == header_set(old(self)@, key@, val@),
            header_wf(final(self)@),
    {
        proof {
            use_type_invariant(&*self);
            lemma_set_wf(self@, key@, val@);
        }
        let ghost before = self@;
        let canon = canonicalize(key);
        let found = self.position(canon.as_str());
        let vals = one(val);
        let mut entries: Vec<(String, Vec<String>)> = Vec::new();
        assert(entries.deep_view() == HeaderView::empty());
        std::mem::swap(&mut entries, &mut self.entries);
        match found {
            Some(i) => {
                entries[i].1 = vals;
            },
            None => {
                entries.push((canon, vals));
            },
        }
        assert(entries.deep_view() == header_set(before, key@, val@));
        self.entries = entries;
    }

    /// Appends `val` to the list of values for `key`.
    pub fn add(&mut self, key: &str, val: &str)
        ensures
            final(self)@ == header_add(old(self)@, key@, val@),
            header_wf(final(self)@),
    {
        proof {
            use_type_invariant(&*self);
            lemma_add_wf(self@, key@, val@);
        }
        let ghost before = self@;
        let canon = canonicalize(key);
        let found = self.position(canon.as_str());
        let mut entries: Vec<(String, Vec<String>)> = Vec::new();
        assert(entries.deep_view() == HeaderView::empty());
        std::mem::swap(&mut entries, &mut self.entries);
        let ghost all = entries@;
        assert(entries.deep_view() == before);
        match found {
            Some(i) => {
                entries[i].1.push(val.to_string());
                assert(entries@[i as int].1.deep_view() == all[i as int].1.deep_view().push(val@));
            },
            None => {
                let vals = one(val);
                entries.push((canon, vals));
            },
        }
        assert(entries.deep_view() == header_add(before, key@, val@));
        self.entries = entries;
    }

    /// Returns the first value for `key`, if any.
    pub fn get(&self, key: &str) -> (r: Option<&str>)
        ensures
            match (r, header_values(self@, key@)) {
                (Some(v), Some(vals)) => vals.len() > 0 && v@ == vals[0],
                (None, None) => true,
                _ => false,
            },
    {
        proof {
            use_type_invariant(self);
            lemma_find(self@, canonical(key@));
        }
        match self.get_all(key) {
            Some(vals) => {
                assert(vals.deep_view().len() == vals@.len());
                Some(vals[0].as_str())
            },
            None => None,
        }
    }

    /// Returns all values for `key`, if the key is present.
    pub fn get_all(&self, key: &str) -> (r: Option<&[String]>)
        ensures
            r is Some <==> header_has(self@, key@),
            r matches Some(vals) ==> header_values(self@, key@) == Some(vals.deep_view()),
    {
        let canon = canonicalize(key);
        match self.position(canon.as_str()) {
            Some(i) => {
                let vals = self.entries[i].1.as_slice();
                assert(vals.deep_view() == self.entries@[i as int].1.deep_view());
                Some(vals)
            },
            None => None,
        }
    }

    /// Reports whether `key` is present.
    pub fn contains(&self, key: &str) -> (r: bool)
        ensures
            r == header_has(self@, key@),
    {
        let canon = canonicalize(key);
        self.position(canon.as_str()).is_some()
    }

    /// Iterates over `(canonical_key, values)` pairs in insertion order.
    pub fn iter(&self) -> (r: std::slice::Iter<'_, (String, Vec<String>)>)
        ensures
            vstd::std_specs::iter::IteratorSpec::remaining(&r).len() == self@.len(),
            forall|i: int|
                0 <= i < self@.len() ==> (#[trigger] vstd::std_specs::iter::IteratorSpec::remaining(
                    &r,
                )[i]).deep_view() == self@[i],
    {
        self.entries.iter()
    }

    /// The `(canonical_key, values)` pairs in insertion order.
    pub(crate) fn entries(&self) -> (r: &[(String, Vec<String>)])
        ensures
            r.deep_view() == self@,
            header_wf(self@),
    {
        proof {
            use_type_invariant(self);
        }
        let r = self.entries.as_slice();
        assert(r.deep_view() == self@);
        r
    }
}

/// Setting a key keeps a header map well-formed.
pub proof fn lemma_set_wf(h: HeaderView, key: Seq<char>, val: Seq<char>)
    ensures
        header_wf(h) ==> header_wf(header_set(h, key, val)),
{
    lemma_find(h, canonical(key));
}

/// Adding a value keeps a header map well-formed.
pub proof fn lemma_add_wf(h: HeaderView, key: Seq<char>, val: Seq<char>)
    ensures
        header_wf(h) ==> header_wf(header_add(h, key, val)),
{
    lemma_find(h, canonical(key));
}

/// Law: the values of a key that was set are the one value, and those of any key
/// with another canonical form stay what they were.
pub proof fn law_set_then_get(
    h: HeaderView,
    key: Seq<char>,
    val: Seq<char>,
    other: Seq<char>,
)
    ensures
        canonical(other) == canonical(key) ==> header_values(header_set(h, key, val), other)
            == Some(seq![val]),
        canonical(other) != canonical(key) ==> header_values(header_set(h, key, val), other)
            == header_values(h, other),
{
    let s = header_set(h, key, val);
    lemma_find(h, canonical(key));
    lemma_find(h, canonical(other));
    assert(find(h, canonical(key)) is None ==> s.drop_last() == h);
    lemma_replaced(h, s, canonical(key), canonical(other));
}

/// Law: the values of a key that was added to are those it had, followed by the
/// new one, and those of any key with another canonical form stay what they were.
pub proof fn law_add_then_get(
    h: HeaderView,
    key: Seq<char>,
    val: Seq<char>,
    other: Seq<char>,
)
    ensures
        canonical(other) == canonical(key) ==> header_values(header_add(h, key, val), other)
            == Some(
            match header_values(h, key) {
                Some(vals) => vals.push(val),
                None => seq![val],
            },
        ),
        canonical(other) != canonical(key) ==> header_values(header_add(h, key, val), other)
            == header_values(h, other),
{
    let s = header_add(h, key, val);
    lemma_find(h, canonical(key));
    lemma_find(h, canonical(other));
    assert(find(h, canonical(key)) is None ==> s.drop_last() == h);
    lemma_replaced(h, s, canonical(key), canonical(other));
}

/// Where only the values under one key differ, or its entry is new and last, each
/// key is found where it was.
proof fn lemma_replaced(
    h: HeaderView,
    s: HeaderView,
    canon: Seq<char>,
    other: Seq<char>,
)
    requires
        match find(h, canon) {
            Some(i) => s.len() == h.len() && s[i].0 == h[i].0 && forall|j: int|
                0 <= j < h.len() && j != i ==> s[j] == #[trigger] h[j],
            None => s.len() == h.len() + 1 && s.last().0 == canon && s.drop_last() == h,
        },
    ensures
        match find(h, canon) {
            Some(i) => find(s, other) == find(h, other),
            None => find(s, other) == if other == canon {
                Some(h.len() as int)
            } else {
                find(h, other)
            },
        },
{
    lemma_find(h, canon);
    lemma_find(h, other);
    lemma_find(s, other);
    match find(h, canon) {
        Some(i) => {
            assert(forall|j: int| 0 <= j < h.len() ==> (#[trigger] s[j]).0 == h[j].0);
            assert(forall|j: int| 0 <= j < h.len() ==> (#[trigger] h[j]).0 == s[j].0);
        },
        None => {},
    }
}

/// Law: setting or adding a value keeps the order of the keys; a new key goes to the end,
/// in its canonical form.
pub proof fn law_key_order(h: HeaderView, key: Seq<char>, val: Seq<char>, i: int)
    requires
        0 <= i < h.len(),
    ensures
        header_set(h, key, val)[i].0 == h[i].0,
        header_add(h, key, val)[i].0 == h[i].0,
        header_has(h, key) ==> header_set(h, key, val).len() == h.len() && header_add(
            h,
            key,
            val,
        ).len() == h.len(),
        !header_has(h, key) ==> header_set(h, key, val) == h.push((canonical(key), seq![val])),
        !header_has(h, key) ==> header_add(h, key, val) == h.push((canonical(key), seq![val])),
        h[i].0 != canonical(key) ==> header_set(h, key, val)[i] == h[i] && header_add(
            h,
            key,
            val,
        )[i] == h[i],
{
    lemma_find(h, canonical(key));
}

/// Law: a key is found by its canonical form, in whichever form it was given; it is there
/// if and only if an entry has that form, and then it has that entry's values.
pub proof fn law_lookup(h: HeaderView, key: Seq<char>, i: int)
    requires
        header_wf(h),
        0 <= i < h.len(),
    ensures
        h[i].0 == canonical(key) ==> header_has(h, key) && header_values(h, key) == Some(h[i].1),
        header_has(h, key) <==> exists|j: int|
            0 <= j < h.len() && (#[trigger] h[j]).0 == canonical(key),
        header_values(h, key) is Some <==> header_has(h, key),
{
    lemma_find(h, canonical(key));
}

/// Law: the canonical form of a key goes character by character: the first one and any
/// one behind a hyphen is in upper case, all others in lower case. For an ASCII key the
/// forms are those of its letters, and its length stays.
pub proof fn law_canonical(key: Seq<char>, c: char)
    ensures
        canonical(key.push(c)) == canonical(key) + if key.len() == 0 || key.last() == '-' {
            upper_of(c)
        } else {
            lower_of(c)
        },
        'a' <= c <= 'z' ==> upper_of(c) == seq![((c as u32 - 32) as u32) as char] && lower_of(c)
            == seq![c],
        'A' <= c <= 'Z' ==> lower_of(c) == seq![((c as u32 + 32) as u32) as char] && upper_of(c)
            == seq![c],
        c <= '\u{7f}' && !('a' <= c <= 'z') && !('A' <= c <= 'Z') ==> upper_of(c) == seq![c]
            && lower_of(c) == seq![c],
{
    lemma_canonical_push(key, c, true);
}

proof fn lemma_canonical_push(key: Seq<char>, c: char, upper: bool)
    ensures
        canonical_from(key.push(c), upper) == canonical_from(key, upper) + if (if key.len() == 0 {
            upper
        } else {
            key.last() == '-'
        }) {
            upper_of(c)
        } else {
            lower_of(c)
        },
    decreases key.len(),
{
    let longer = key.push(c);
    let shown = if (if key.len() == 0 {
        upper
    } else {
        key.last() == '-'
    }) {
        upper_of(c)
    } else {
        lower_of(c)
    };
    if key.len() == 0 {
        assert(longer.skip(1) == Seq::<char>::empty());
        assert(canonical_from(longer.skip(1), c == '-') == Seq::<char>::empty());
        assert(canonical_from(longer, upper) == shown + Seq::<char>::empty());
        assert(canonical_from(key, upper) + shown == shown + Seq::<char>::empty());
    } else {
        let rest = key.skip(1);
        lemma_canonical_push(rest, c, key[0] == '-');
        assert(longer.skip(1) == rest.push(c));
        assert(longer[0] == key[0]);
        assert(rest.len() > 0 ==> rest.last() == key.last());
        let head = if upper {
            upper_of(key[0])
        } else {
            lower_of(key[0])
        };
        assert(head + (canonical_from(rest, key[0] == '-') + shown) == head + canonical_from(
            rest,
            key[0] == '-',
        ) + shown);
    }
}

/// Law: after setting a key, looking it up gives the value that was set, and any key with
/// another canonical form has the values that it had.
pub proof fn law_set_call(h: &mut MimeHeader, key: &str, val: &str, other: Seq<char>)
    requires
        call_ensures(MimeHeader::set, (h, key, val), ()),
    ensures
        header_values(final(h)@, other) == if canonical(other) == canonical(key@) {
            Some(seq![val@])
        } else {
            header_values(old(h)@, other)
        },
{
    law_set_then_get(old(h)@, key@, val@, other);
}

/// Law: after adding to a key, looking it up gives the values that it had and the one that
/// was added, and any key with another canonical form has the values that it had.
pub proof fn law_add_call(h: &mut MimeHeader, key: &str, val: &str, other: Seq<char>)
    requires
        call_ensures(MimeHeader::add, (h, key, val), ()),
    ensures
        header_values(final(h)@, other) == if canonical(other) == canonical(key@) {
            Some(
                match header_values(old(h)@, key@) {
                    Some(vals) => vals.push(val@),
                    None => seq![val@],
                },
            )
        } else {
            header_values(old(h)@, other)
        },
{
    law_add_then_get(old(h)@, key@, val@, other);
}

/// Law: a lookup gives the first value of a key, or all of them, or nothing where the key
/// is not there.
pub proof fn law_get_calls(
    h: MimeHeader,
    key: &str,
    first: Option<&str>,
    all: Option<&[String]>,
    there: bool,
)
    requires
        call_ensures(MimeHeader::get, (&h, key), first),
        call_ensures(MimeHeader::get_all, (&h, key), all),
        call_ensures(MimeHeader::contains, (&h, key), there),
    ensures
        there <==> first is Some,
        there <==> all is Some,
        there <==> header_values(h@, key@) is Some,
        all matches Some(vals) ==> header_values(h@, key@) == Some(vals.deep_view()),
        first matches Some(v) ==> all is Some && v@ == all->0.deep_view()[0],
{
}

} // verus!
