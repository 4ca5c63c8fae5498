//! A map from header names to values, and the parsing of `Name:Value`
//! header arguments.
use vstd::prelude::*;

use crate::text::{chars_of, find_char, string_of, trim, trim_range};

verus! {

/// The map that a list of `(name, value)` pairs denotes, a later pair
/// overriding an earlier one with the same name.
pub open spec fn pairs_map<V: View>(s: Seq<(String, V)>) -> Map<Seq<char>, V::V>
    decreases s.len(),
{
    if s.len() == 0 {
        Map::empty()
    } else {
        pairs_map(s.drop_last()).insert(s.last().0@, s.last().1.view())
    }
}

/// No two pairs of `s` share a name.
pub open spec fn names_distinct<V>(s: Seq<(String, V)>) -> bool {
    forall|i: int, j: int| 0 <= i < j < s.len() ==> s[i].0@ != s[j].0@
}

/// A map keyed by text: each name occurs once, with the value given to it
/// last.
pub struct TextMap<V> {
    entries: Vec<(String, V)>,
}

/// A map from header names to values.
pub type HeaderMap = TextMap<String>;

impl<V: View> View for TextMap<V> {
    type V = Map<Seq<char>, V::V>;

    closed spec fn view(&self) -> Map<Seq<char>, V::V> {
        pairs_map(self.entries@)
    }
}

pub proof fn lemma_pairs_map_domain<V: View>(s: Seq<(String, V)>, k: Seq<char>)
    ensures
        pairs_map(s).contains_key(k) <==> exists|i: int| 0 <= i < s.len() && s[i].0@ == k,
        pairs_map(s).dom().finite(),
    decreases s.len(),
{
    if s.len() > 0 {
        lemma_pairs_map_domain(s.drop_last(), k);
        if pairs_map(s.drop_last()).contains_key(k) {
            let i = choose|i: int| 0 <= i < s.drop_last().len() && s.drop_last()[i].0@ == k;
            assert(s[i].0@ == k);
        }
        if exists|i: int| 0 <= i < s.len() && s[i].0@ == k {
            let i = choose|i: int| 0 <= i < s.len() && s[i].0@ == k;
            if i < s.len() - 1 {
                assert(s.drop_last()[i].0@ == k);
            }
        }
    }
}

pub proof fn lemma_pairs_map_value<V: View>(s: Seq<(String, V)>, i: int)
    requires
        names_distinct(s),
        0 <= i < s.len(),
    ensures
        pairs_map(s).contains_key(s[i].0@),
        pairs_map(s)[s[i].0@] == s[i].1.view(),
    decreases s.len(),
{
    if i < s.len() - 1 {
        lemma_pairs_map_value(s.drop_last(), i);
    }
}

proof fn lemma_pairs_map_update<V: View>(s: Seq<(String, V)>, j: int, p: (String, V))
    requires
        names_distinct(s),
        0 <= j < s.len(),
        s[j].0@ == p.0@,
    ensures
        pairs_map(s.update(j, p)) =~= pairs_map(s).insert(p.0@, p.1.view()),
        names_distinct(s.update(j, p)),
    decreases s.len(),
{
    let t = s.update(j, p);
    if j == s.len() - 1 {
        assert(t.drop_last() =~= s.drop_last());
    } else {
        assert(t.drop_last() =~= s.drop_last().update(j, p));
        lemma_pairs_map_update(s.drop_last(), j, p);
    }
}

pub proof fn lemma_pairs_map_len<V: View>(s: Seq<(String, V)>)
    requires
        names_distinct(s),
    ensures
        pairs_map(s).dom().len() == s.len(),
    decreases s.len(),
{
    if s.len() > 0 {
        lemma_pairs_map_len(s.drop_last());
        lemma_pairs_map_domain(s.drop_last(), s.last().0@);
        if pairs_map(s.drop_last()).contains_key(s.last().0@) {
            let i = choose|i: int|
                0 <= i < s.drop_last().len() && s.drop_last()[i].0@ == s.last().0@;
            assert(s[i].0@ == s[s.len() - 1].0@);
        }
    }
}

impl<V> TextMap<V> {
    #[verifier::type_invariant]
    spec fn names_are_distinct(self) -> bool {
        names_distinct(self.entries@)
    }
}

impl<V: View> TextMap<V> {
    /// An empty map.
    pub fn new() -> (r: TextMap<V>)
        ensures
            r@ == Map::<Seq<char>, V::V>::empty(),
    {
        TextMap { entries: Vec::new() }
    }

    /// Position of the pair named `name`, if any.
    fn position(&self, name: &String) -> (r: Option<usize>)
        ensures
            match r {
                Some(i) => i < self.entries@.len() && self.entries@[i as int].0@ == name@,
                None => forall|i: int|
                    0 <= i < self.entries@.len() ==> self.entries@[i].0@ != name@,
            },
    {
        let mut i: usize = 0;
        while i < self.entries.len()
            invariant
                i <= self.entries@.len(),
                forall|m: int| 0 <= m < i ==> self.entries@[m].0@ != name@,
            decreases self.entries@.len() - i,
        {
            if self.entries[i].0 == *name {
                return Some(i);
            }
            i = i + 1;
        }
        None
    }

    /// Sets `name` to `value`, replacing the value it had.
    pub fn insert(&mut self, name: String, value: V)
        ensures
            final(self)@ == old(self)@.insert(name@, value.view()),
    {
        proof {
            use_type_invariant(&*self);
        }
        let ghost before = self.entries@;
        let pos = self.position(&name);
        let mut entries: Vec<(String, V)> = Vec::new();
        std::mem::swap(&mut entries, &mut self.entries);
        match pos {
            Some(i) => {
                proof {
                    lemma_pairs_map_update(before, i as int, (name, value));
                }
                entries.set(i, (name, value));
            },
            None => {
                entries.push((name, value));
                assert(entries@.drop_last() =~= before);
                assert(names_distinct(entries@));
            },
        }
        self.entries = entries;
    }

    /// The value of `name`, if the map holds it.
    pub fn get(&self, name: &str) -> (r: Option<&V>)
        ensures
            match r {
                Some(v) => self@.contains_key(name@) && self@[name@] == v.view(),
                None => !self@.contains_key(name@),
            },
    {
        proof {
            use_type_invariant(self);
        }
        let key = name.to_owned();
        match self.position(&key) {
            Some(i) => {
                proof {
                    lemma_pairs_map_value(self.entries@, i as int);
                }
                Some(&self.entries[i].1)
            },
            None => {
                proof {
                    lemma_pairs_map_domain(self.entries@, name@);
                }
                None
            },
        }
    }

    /// Number of names in the map.
    pub fn len(&self) -> (r: usize)
        ensures
            r == self@.len(),
    {
        proof {
            use_type_invariant(self);
            lemma_pairs_map_len(self.entries@);
        }
        self.entries.len()
    }

}

impl TextMap<usize> {
    /// Adds one to the count of `name`, which starts at zero.
    pub fn increment(&mut self, name: String)
        requires
            old(self)@.contains_key(name@) ==> old(self)@[name@] < usize::MAX,
        ensures
            final(self)@ == old(self)@.insert(
                name@,
                if old(self)@.contains_key(name@) {
                    (old(self)@[name@] + 1) as usize
                } else {
                    1usize
                },
            ),
    {
        let current = match self.get(name.as_str()) {
            Some(c) => *c,
            None => 0,
        };
        self.insert(name, current + 1);
    }

    /// The `(name, count)` pairs of the map, each name once.
    pub fn to_pairs(&self) -> (r: Vec<(String, usize)>)
        ensures
            names_distinct(r@),
            pairs_map(r@) == self@,
    {
        proof {
            use_type_invariant(self);
        }
        let mut r: Vec<(String, usize)> = Vec::new();
        let mut i: usize = 0;
        while i < self.entries.len()
            invariant
                i <= self.entries@.len(),
                names_distinct(self.entries@),
                r@ =~= self.entries@.subrange(0, i as int),
            decreases self.entries@.len() - i,
        {
            let name = self.entries[i].0.clone();
            let count = self.entries[i].1;
            r.push((name, count));
            proof {
                assert(self.entries@.subrange(0, i + 1) =~= self.entries@.subrange(
                    0,
                    i as int,
                ).push(self.entries@[i as int]));
            }
            i = i + 1;
        }
        assert(self.entries@.subrange(0, i as int) =~= self.entries@);
        r
    }
}

impl TextMap<String> {
    /// A copy of the map.
    pub fn duplicate(&self) -> (r: TextMap<String>)
        ensures
            r@ == self@,
    {
        proof {
            use_type_invariant(self);
        }
        let pairs = self.to_pairs();
        TextMap { entries: pairs }
    }

    /// The `(name, value)` pairs of the map, each name once.
    pub fn to_pairs(&self) -> (r: Vec<(String, String)>)
        ensures
            names_distinct(r@),
            pairs_map(r@) == self@,
    {
        proof {
            use_type_invariant(self);
        }
        let mut r: Vec<(String, String)> = Vec::new();
        let mut i: usize = 0;
        while i < self.entries.len()
            invariant
                i <= self.entries@.len(),
                names_distinct(self.entries@),
                r@ =~= self.entries@.subrange(0, i as int),
            decreases self.entries@.len() - i,
        {
            let name = self.entries[i].0.clone();
            let value = self.entries[i].1.clone();
            r.push((name, value));
            proof {
                assert(self.entries@.subrange(0, i + 1) =~= self.entries@.subrange(
                    0,
                    i as int,
                ).push(self.entries@[i as int]));
            }
            i = i + 1;
        }
        assert(self.entries@.subrange(0, i as int) =~= self.entries@);
        r
    }
}

/// The name and value that a `Name:Value` argument gives: the text before
/// the first colon and the text after it, both trimmed.
pub open spec fn header_argument(h: Seq<char>) -> Option<(Seq<char>, Seq<char>)> {
    match find_char(h, ':') {
        Some(i) => Some((trim(h.subrange(0, i)), trim(h.subrange(i + 1, h.len() as int)))),
        None => None,
    }
}

/// The header map that a list of arguments denotes; arguments without a
/// colon are skipped and a later name overrides an earlier one.
pub open spec fn header_arguments_map(hs: Seq<Seq<char>>) -> Map<Seq<char>, Seq<char>>
    decreases hs.len(),
{
    if hs.len() == 0 {
        Map::empty()
    } else {
        let m = header_arguments_map(hs.drop_last());
        match header_argument(hs.last()) {
            Some(kv) => m.insert(kv.0, kv.1),
            None => m,
        }
    }
}

/// Index of `c` in `v`, with the contract of `find_char`.
pub fn find_char_index(v: &[char], c: char) -> (r: Option<usize>)
    ensures
        match r {
            Some(i) => find_char(v@, c) == Some(i as int) && i < v@.len(),
            None => find_char(v@, c) == None::<int>,
        },
{
    let mut i: usize = 0;
    while i < v.len()
        invariant
            i <= v@.len(),
            forall|m: int| 0 <= m < i ==> #[trigger] v@[m] != c,
        decreases v@.len() - i,
    {
        if v[i] == c {
            proof {
                crate::text::lemma_find_char_some(v@, c, i as int);
            }
            return Some(i);
        }
        i = i + 1;
    }
    proof {
        crate::text::lemma_find_char_none(v@, c);
    }
    None
}

/// Parses `Name:Value` arguments into a header map. An argument without a
/// colon is skipped; name and value are trimmed; a later argument with the
/// same name overrides an earlier one.
pub fn parse_headers(header_strings: Vec<String>) -> (r: HeaderMap)
    ensures
        r@ == header_arguments_map(header_strings@.map_values(|s: String| s@)),
{
    let ghost hs = header_strings@.map_values(|s: String| s@);
    let mut r = HeaderMap::new();
    let mut i: usize = 0;
    while i < header_strings.len()
        invariant
            i <= header_strings@.len(),
            hs == header_strings@.map_values(|s: String| s@),
            r@ == header_arguments_map(hs.subrange(0, i as int)),
        decreases header_strings@.len() - i,
    {
        let v = chars_of(header_strings[i].as_str());
        assert(hs.subrange(0, i + 1).drop_last() =~= hs.subrange(0, i as int));
        assert(hs.subrange(0, i + 1).last() == v@);
        match find_char_index(&v, ':') {
            Some(c) => {
                assert(c < v@.len());
                let (a, b) = trim_range(&v, 0, c);
                let (d, e) = trim_range(&v, c + 1, v.len());
                let name = string_of(&v, a, b);
                let value = string_of(&v, d, e);
                assert(v@.subrange(0, v@.len() as int) =~= v@);
                r.insert(name, value);
            },
            None => {},
        }
        i = i + 1;
    }
    assert(hs.subrange(0, i as int) =~= hs);
    r
}

} // verus!
