//! The carrier abstraction: propagators read headers through `Extractor` and
//! write them through `Injector`, never owning the underlying store. Header
//! maps are modelled as maps keyed by ASCII-lowercased names, which makes
//! lookups case-insensitive and gives `set` overwrite semantics.

use vstd::prelude::*;
use crate::hex::push_char;

verus! {

/// ASCII lowercasing of one character; other characters are unchanged.
pub open spec fn lower_char(c: char) -> char {
    if 65 <= c as u32 && c as u32 <= 90 {
        ((c as u32 + 32) as u8) as char
    } else {
        c
    }
}

/// ASCII lowercasing of a whole name.
pub open spec fn ascii_lower(s: Seq<char>) -> Seq<char> {
    s.map_values(|c: char| lower_char(c))
}

/// Lowercases one character, as `lower_char` describes.
pub fn lower_char_exec(c: char) -> (r: char)
    ensures
        r == lower_char(c),
{
    let u = c as u32;
    if 65 <= u && u <= 90 {
        ((u + 32) as u8) as char
    } else {
        c
    }
}

/// Lowercases a whole name, as `ascii_lower` describes.
pub fn lower_str(s: &str) -> (r: String)
    ensures
        r@ == ascii_lower(s@),
{
    let n = s.unicode_len();
    let mut r = String::new();
    let mut i: usize = 0;
    proof {
        assert(r@ =~= ascii_lower(s@.subrange(0, 0)));
    }
    while i < n
        invariant
            n == s@.len(),
            i <= n,
            r@ == ascii_lower(s@.subrange(0, i as int)),
        decreases n - i,
    {
        let c = lower_char_exec(s.get_char(i));
        push_char(&mut r, c);
        proof {
            assert(s@.subrange(0, i + 1).drop_last() =~= s@.subrange(0, i as int));
            assert(ascii_lower(s@.subrange(0, i + 1)) =~= ascii_lower(
                s@.subrange(0, i as int),
            ).push(lower_char(s@[i as int])));
        }
        i = i + 1;
    }
    proof {
        assert(s@.subrange(0, n as int) =~= s@);
    }
    r
}

/// Read-side carrier capability: header lookup by case-insensitive name.
pub trait Extractor {
    /// The headers the carrier holds, keyed by lowercased name.
    spec fn headers(&self) -> Map<Seq<char>, Seq<char>>;

    /// Returns the value stored under `key`, compared case-insensitively.
    fn get(&self, key: &str) -> (r: Option<String>)
        ensures
            match r {
                Some(v) => self.headers().contains_key(ascii_lower(key@)) && v@
                    == self.headers()[ascii_lower(key@)],
                None => !self.headers().contains_key(ascii_lower(key@)),
            },
    ;

    /// Lists header names: every listed name resolves to a stored header,
    /// and every stored header is listed under some name.
    fn keys(&self) -> (r: Vec<String>)
        ensures
            forall|i: int|
                0 <= i < r@.len() ==> self.headers().contains_key(
                    ascii_lower(#[trigger] r@[i]@),
                ),
            forall|k: Seq<char>|
                #[trigger] self.headers().contains_key(k) ==> exists|i: int|
                    0 <= i < r@.len() && ascii_lower(#[trigger] r@[i]@) == k,
    ;
}

/// Write-side carrier capability: setting a header overwrites any value
/// stored under the same case-insensitive name.
pub trait Injector {
    /// The headers the carrier holds, keyed by lowercased name.
    spec fn headers(&self) -> Map<Seq<char>, Seq<char>>;

    /// Stores `value` under `key`.
    fn set(&mut self, key: &str, value: String)
        ensures
            final(self).headers() == old(self).headers().insert(
                ascii_lower(key@),
                value@,
            ),
    ;
}

/// The header map that an entry list denotes: later entries win, and names
/// are compared lowercased.
pub open spec fn entries_headers(s: Seq<(String, String)>) -> Map<Seq<char>, Seq<char>>
    decreases s.len(),
{
    if s.len() == 0 {
        Map::empty()
    } else {
        entries_headers(s.drop_last()).insert(ascii_lower(s.last().0@), s.last().1@)
    }
}

/// A concrete carrier: an in-memory list of header name/value pairs, such as
/// a request's or response's headers.
pub struct HeaderMap {
    entries: Vec<(String, String)>,
}

proof fn lemma_entries_headers_found(s: Seq<(String, String)>, k: Seq<char>, i: int)
    requires
        0 <= i < s.len(),
        ascii_lower(s[i].0@) == k,
        forall|j: int| i < j < s.len() ==> ascii_lower(#[trigger] s[j].0@) != k,
    ensures
        entries_headers(s).contains_key(k),
        entries_headers(s)[k] == s[i].1@,
    decreases s.len(),
{
    if i == s.len() - 1 {
    } else {
        assert(s.drop_last()[i] == s[i]);
        assert(forall|j: int|
            i < j < s.drop_last().len() ==> ascii_lower(#[trigger] s.drop_last()[j].0@) != k);
        lemma_entries_headers_found(s.drop_last(), k, i);
    }
}

proof fn lemma_entries_headers_absent(s: Seq<(String, String)>, k: Seq<char>)
    requires
        forall|j: int| 0 <= j < s.len() ==> ascii_lower(#[trigger] s[j].0@) != k,
    ensures
        !entries_headers(s).contains_key(k),
    decreases s.len(),
{
    if s.len() > 0 {
        assert(forall|j: int|
            0 <= j < s.drop_last().len() ==> ascii_lower(#[trigger] s.drop_last()[j].0@) != k);
        lemma_entries_headers_absent(s.drop_last(), k);
    }
}

proof fn lemma_entries_headers_contains(s: Seq<(String, String)>, j: int)
    requires
        0 <= j < s.len(),
    ensures
        entries_headers(s).contains_key(ascii_lower(s[j].0@)),
    decreases s.len(),
{
    if j < s.len() - 1 {
        assert(s.drop_last()[j] == s[j]);
        lemma_entries_headers_contains(s.drop_last(), j);
    }
}

proof fn lemma_entries_headers_key_witness(s: Seq<(String, String)>, k: Seq<char>) -> (j: int)
    requires
        entries_headers(s).contains_key(k),
    ensures
        0 <= j < s.len(),
        ascii_lower(s[j].0@) == k,
    decreases s.len(),
{
    if s.len() == 0 {
        assert(entries_headers(s) =~= Map::<Seq<char>, Seq<char>>::empty());
        assert(false);
        0
    } else if ascii_lower(s.last().0@) == k {
        s.len() - 1
    } else {
        let j = lemma_entries_headers_key_witness(s.drop_last(), k);
        assert(s.drop_last()[j] == s[j]);
        j
    }
}

impl HeaderMap {
    /// A carrier with no headers.
    pub fn new() -> (r: HeaderMap)
        ensures
            r.header_map() == Map::<Seq<char>, Seq<char>>::empty(),
            r.entry_count() == 0,
    {
        let r = HeaderMap { entries: Vec::new() };
        proof {
            assert(entries_headers(r.entries@) =~= Map::<Seq<char>, Seq<char>>::empty());
        }
        r
    }

    /// The headers this carrier holds, keyed by lowercased name; both the
    /// extractor and the injector view coincide with it.
    pub closed spec fn header_map(&self) -> Map<Seq<char>, Seq<char>> {
        entries_headers(self.entries@)
    }

    /// How many set operations are recorded.
    pub closed spec fn entry_count(&self) -> nat {
        self.entries@.len()
    }

    /// The number of stored entries; zero exactly when nothing was written.
    pub fn len(&self) -> (r: usize)
        ensures
            r as nat == self.entry_count(),
    {
        self.entries.len()
    }
}

/// The concrete carrier's two trait views coincide with its own header
/// map: what the injector writes is exactly what the extractor then reads.
pub proof fn lemma_header_map_views(m: &HeaderMap)
    ensures
        <HeaderMap as Extractor>::headers(m) == m.header_map(),
        <HeaderMap as Injector>::headers(m) == m.header_map(),
{
}

impl Extractor for HeaderMap {
    closed spec fn headers(&self) -> Map<Seq<char>, Seq<char>> {
        self.header_map()
    }

    fn get(&self, key: &str) -> (r: Option<String>) {
        let target = lower_str(key);
        let mut i: usize = self.entries.len();
        while i > 0
            invariant
                i <= self.entries@.len(),
                target@ == ascii_lower(key@),
                forall|j: int|
                    i <= j < self.entries@.len() ==> ascii_lower(
                        #[trigger] self.entries@[j].0@,
                    ) != target@,
            decreases i,
        {
            i = i - 1;
            let stored = lower_str(self.entries[i].0.as_str());
            if stored.eq(&target) {
                proof {
                    lemma_entries_headers_found(self.entries@, target@, i as int);
                }
                return Some(self.entries[i].1.clone());
            }
        }
        proof {
            lemma_entries_headers_absent(self.entries@, target@);
        }
        None
    }

    fn keys(&self) -> (r: Vec<String>) {
        let mut r: Vec<String> = Vec::new();
        let mut i: usize = 0;
        while i < self.entries.len()
            invariant
                i <= self.entries@.len(),
                r@.len() == i,
                forall|j: int| 0 <= j < i ==> r@[j]@ == #[trigger] self.entries@[j].0@,
            decreases self.entries@.len() - i,
        {
            r.push(self.entries[i].0.clone());
            i = i + 1;
        }
        proof {
            assert forall|j: int| 0 <= j < r@.len() implies self.header_map().contains_key(
                ascii_lower(#[trigger] r@[j]@),
            ) by {
                lemma_entries_headers_contains(self.entries@, j);
            }
            assert forall|k: Seq<char>| #[trigger] self.header_map().contains_key(k)
                implies exists|j: int| 0 <= j < r@.len() && ascii_lower(#[trigger] r@[j]@)
                == k by {
                let j = lemma_entries_headers_key_witness(self.entries@, k);
                assert(ascii_lower(r@[j]@) == k);
            }
        }
        r
    }
}

impl Injector for HeaderMap {
    closed spec fn headers(&self) -> Map<Seq<char>, Seq<char>> {
        self.header_map()
    }

    fn set(&mut self, key: &str, value: String) {
        self.entries.push((key.to_owned(), value));
        proof {
            assert(self.entries@.drop_last() =~= old(self).entries@);
        }
    }
}

} // verus!
