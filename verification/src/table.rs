//! Translation tables: `locale -> (flat key -> text)`.
//!
//! Both levels are association lists whose keys never repeat; their views are
//! finite maps.
use vstd::prelude::*;

use crate::text::str_eq;

verus! {

/// The map an association list stands for (a later entry shadows an earlier one
/// with the same key; in a list with distinct keys no entry is shadowed).
pub open spec fn alist_view<V: View>(s: Seq<(String, V)>) -> Map<Seq<char>, V::V>
    decreases s.len(),
{
    if s.len() == 0 {
        Map::empty()
    } else {
        alist_view(s.drop_last()).insert(s.last().0@, s.last().1@)
    }
}

/// No two entries of `s` share a key.
pub open spec fn keys_distinct<V>(s: Seq<(String, V)>) -> bool {
    forall|i: int, j: int| 0 <= i < j < s.len() ==> s[i].0@ != s[j].0@
}

/// The keys of `s`, in order.
pub proof fn lemma_alist_dom<V: View>(s: Seq<(String, V)>, k: Seq<char>)
    ensures
        alist_view(s).contains_key(k) <==> exists|i: int| 0 <= i < s.len() && s[i].0@ == k,
    decreases s.len(),
{
    if s.len() > 0 {
        lemma_alist_dom(s.drop_last(), k);
        if alist_view(s).contains_key(k) && s.last().0@ != k {
            let i = choose|i: int| 0 <= i < s.drop_last().len() && s.drop_last()[i].0@ == k;
            assert(s[i].0@ == k);
        }
        if exists|i: int| 0 <= i < s.len() && s[i].0@ == k {
            let i = choose|i: int| 0 <= i < s.len() && s[i].0@ == k;
            if i < s.len() - 1 {
                assert(s.drop_last()[i].0@ == k);
            }
        }
    }
}

pub proof fn lemma_alist_index<V: View>(s: Seq<(String, V)>, i: int)
    requires
        keys_distinct(s),
        0 <= i < s.len(),
    ensures
        alist_view(s).contains_key(s[i].0@),
        alist_view(s)[s[i].0@] == s[i].1@,
    decreases s.len(),
{
    if i < s.len() - 1 {
        lemma_alist_index(s.drop_last(), i);
        assert(s.drop_last()[i] == s[i]);
    }
}

pub proof fn lemma_alist_update<V: View>(s: Seq<(String, V)>, i: int, v: V)
    requires
        keys_distinct(s),
        0 <= i < s.len(),
    ensures
        alist_view(s.update(i, (s[i].0, v))) == alist_view(s).insert(s[i].0@, v@),
        keys_distinct(s.update(i, (s[i].0, v))),
    decreases s.len(),
{
    let t = s.update(i, (s[i].0, v));
    if i == s.len() - 1 {
        assert(t.drop_last() =~= s.drop_last());
        assert(alist_view(t) =~= alist_view(s).insert(s[i].0@, v@));
    } else {
        lemma_alist_update(s.drop_last(), i, v);
        assert(t.drop_last() =~= s.drop_last().update(i, (s[i].0, v)));
        assert(s.last().0@ != s[i].0@);
        assert(alist_view(t) =~= alist_view(s).insert(s[i].0@, v@));
    }
}

pub proof fn lemma_alist_push<V: View>(s: Seq<(String, V)>, k: String, v: V)
    requires
        keys_distinct(s),
        !alist_view(s).contains_key(k@),
    ensures
        alist_view(s.push((k, v))) == alist_view(s).insert(k@, v@),
        keys_distinct(s.push((k, v))),
{
    assert(s.push((k, v)).drop_last() =~= s);
    assert forall|i: int| 0 <= i < s.len() implies s[i].0@ != k@ by {
        lemma_alist_dom(s, k@);
    }
}

/// A map from flat translation keys to texts.
#[derive(Debug)]
pub struct TextMap {
    entries: Vec<(String, String)>,
}

impl View for TextMap {
    type V = Map<Seq<char>, Seq<char>>;

    closed spec fn view(&self) -> Map<Seq<char>, Seq<char>> {
        alist_view(self.entries@)
    }
}

impl TextMap {
    #[verifier::type_invariant]
    spec fn wf(self) -> bool {
        keys_distinct(self.entries@)
    }

    /// The empty map.
    pub fn new() -> (r: TextMap)
        ensures
            r@ == Map::<Seq<char>, Seq<char>>::empty(),
    {
        TextMap { entries: Vec::new() }
    }

    /// The number of keys.
    pub fn len(&self) -> (r: usize)
        ensures
            r == self@.len(),
    {
        proof {
            use_type_invariant(self);
            lemma_alist_len(self.entries@);
        }
        self.entries.len()
    }

    fn position(&self, key: &str) -> (r: Option<usize>)
        ensures
            match r {
                Some(i) => i < self.entries@.len() && self.entries@[i as int].0@ == key@,
                None => !self@.contains_key(key@),
            },
    {
        let mut i: usize = 0;
        while i < self.entries.len()
            invariant
                0 <= i <= self.entries@.len(),
                forall|j: int| 0 <= j < i ==> self.entries@[j].0@ != key@,
            decreases self.entries@.len() - i,
        {
            if str_eq(self.entries[i].0.as_str(), key) {
                return Some(i);
            }
            i = i + 1;
        }
        proof {
            lemma_alist_dom(self.entries@, key@);
        }
        None
    }

    /// The text stored under `key`, if any.
    pub fn get(&self, key: &str) -> (r: Option<&String>)
        ensures
            match r {
                Some(t) => self@.contains_key(key@) && self@[key@] == t@,
                None => !self@.contains_key(key@),
            },
    {
        proof {
            use_type_invariant(self);
        }
        match self.position(key) {
            Some(i) => {
                proof {
                    lemma_alist_index(self.entries@, i as int);
                }
                Some(&self.entries[i].1)
            },
            None => None,
        }
    }

    /// Whether `key` has a text.
    pub fn contains_key(&self, key: &str) -> (r: bool)
        ensures
            r == self@.contains_key(key@),
    {
        self.get(key).is_some()
    }

    /// Stores `text` under `key`, replacing any earlier text.
    pub fn insert(&mut self, key: String, text: String)
        ensures
            final(self)@ == old(self)@.insert(key@, text@),
    {
        proof {
            use_type_invariant(&*self);
        }
        let pos = self.position(key.as_str());
        let mut taken = TextMap::new();
        std::mem::swap(&mut taken, self);
        let TextMap { mut entries } = taken;
        match pos {
            Some(i) => {
                let (k, _old_text) = entries.remove(i);
                proof {
                    lemma_alist_update(old(self).entries@, i as int, text);
                    assert(old(self).entries@.update(i as int, (k, text)) =~= entries@.insert(
                        i as int,
                        (k, text),
                    ));
                }
                entries.insert(i, (k, text));
            },
            None => {
                proof {
                    lemma_alist_push(entries@, key, text);
                }
                entries.push((key, text));
            },
        }
        *self = TextMap { entries };
    }

    /// Stores every text of `other`, replacing earlier texts on shared keys.
    pub fn extend(&mut self, other: TextMap)
        ensures
            final(self)@ == old(self)@.union_prefer_right(other@),
    {
        proof {
            use_type_invariant(&other);
        }
        let ghost start = self@;
        let n = other.entries.len();
        let mut i: usize = 0;
        while i < n
            invariant
                n == other.entries@.len(),
                0 <= i <= n,
                self@ == start.union_prefer_right(alist_view(other.entries@.take(i as int))),
            decreases n - i,
        {
            let k = other.entries[i].0.clone();
            let t = other.entries[i].1.clone();
            proof {
                assert(other.entries@.take(i + 1).drop_last() =~= other.entries@.take(i as int));
            }
            self.insert(k, t);
            proof {
                assert(self@ =~= start.union_prefer_right(alist_view(other.entries@.take(i + 1))));
            }
            i = i + 1;
        }
        proof {
            assert(other.entries@.take(n as int) =~= other.entries@);
        }
    }

    /// A copy of the map.
    pub fn copy(&self) -> (r: TextMap)
        ensures
            r@ == self@,
    {
        proof {
            use_type_invariant(self);
        }
        let mut entries: Vec<(String, String)> = Vec::new();
        let mut i: usize = 0;
        while i < self.entries.len()
            invariant
                0 <= i <= self.entries@.len(),
                keys_distinct(self.entries@),
                entries@.len() == i,
                forall|j: int| 0 <= j < i ==> #[trigger] entries@[j] == self.entries@[j],
            decreases self.entries@.len() - i,
        {
            entries.push((self.entries[i].0.clone(), self.entries[i].1.clone()));
            i = i + 1;
        }
        proof {
            assert(entries@ =~= self.entries@);
        }
        TextMap { entries }
    }

    /// All keys with their texts, in storage order.
    pub fn pairs(&self) -> (r: &Vec<(String, String)>)
        ensures
            alist_view(r@) == self@,
            keys_distinct(r@),
    {
        proof {
            use_type_invariant(self);
        }
        &self.entries
    }
}


/// The texts of `locale` in `m`, empty when `m` has none.
pub open spec fn texts_of(
    m: Map<Seq<char>, Map<Seq<char>, Seq<char>>>,
    locale: Seq<char>,
) -> Map<Seq<char>, Seq<char>> {
    if m.contains_key(locale) {
        m[locale]
    } else {
        Map::empty()
    }
}

/// `src` merged into `dst`: every locale of either table is kept, and on a
/// `(locale, key)` present in both the text of `src` wins.
pub open spec fn merged(
    dst: Map<Seq<char>, Map<Seq<char>, Seq<char>>>,
    src: Map<Seq<char>, Map<Seq<char>, Seq<char>>>,
) -> Map<Seq<char>, Map<Seq<char>, Seq<char>>> {
    Map::new(
        |l: Seq<char>| dst.contains_key(l) || src.contains_key(l),
        |l: Seq<char>|
            if src.contains_key(l) {
                texts_of(dst, l).union_prefer_right(src[l])
            } else {
                dst[l]
            },
    )
}

/// The texts of several locales: `locale -> (flat key -> text)`.
#[derive(Debug)]
pub struct Table {
    locales: Vec<(String, TextMap)>,
}

impl View for Table {
    type V = Map<Seq<char>, Map<Seq<char>, Seq<char>>>;

    closed spec fn view(&self) -> Map<Seq<char>, Map<Seq<char>, Seq<char>>> {
        alist_view(self.locales@)
    }
}

impl Table {
    #[verifier::type_invariant]
    spec fn wf(self) -> bool {
        keys_distinct(self.locales@)
    }

    /// The table without any locale.
    pub fn new() -> (r: Table)
        ensures
            r@ == Map::<Seq<char>, Map<Seq<char>, Seq<char>>>::empty(),
    {
        Table { locales: Vec::new() }
    }

    fn position(&self, locale: &str) -> (r: Option<usize>)
        ensures
            match r {
                Some(i) => i < self.locales@.len() && self.locales@[i as int].0@ == locale@,
                None => !self@.contains_key(locale@),
            },
    {
        let mut i: usize = 0;
        while i < self.locales.len()
            invariant
                0 <= i <= self.locales@.len(),
                forall|j: int| 0 <= j < i ==> self.locales@[j].0@ != locale@,
            decreases self.locales@.len() - i,
        {
            if str_eq(self.locales[i].0.as_str(), locale) {
                return Some(i);
            }
            i = i + 1;
        }
        proof {
            lemma_alist_dom(self.locales@, locale@);
        }
        None
    }

    /// The texts of `locale`, if the table has that locale.
    pub fn get(&self, locale: &str) -> (r: Option<&TextMap>)
        ensures
            match r {
                Some(t) => self@.contains_key(locale@) && self@[locale@] == t@,
                None => !self@.contains_key(locale@),
            },
    {
        proof {
            use_type_invariant(self);
        }
        match self.position(locale) {
            Some(i) => {
                proof {
                    lemma_alist_index(self.locales@, i as int);
                }
                Some(&self.locales[i].1)
            },
            None => None,
        }
    }

    /// The text of `key` in `locale`, if there is one.
    pub fn lookup(&self, locale: &str, key: &str) -> (r: Option<&String>)
        ensures
            match r {
                Some(t) => self@.contains_key(locale@) && self@[locale@].contains_key(key@)
                    && self@[locale@][key@] == t@,
                None => !(self@.contains_key(locale@) && self@[locale@].contains_key(key@)),
            },
    {
        match self.get(locale) {
            Some(texts) => texts.get(key),
            None => None,
        }
    }

    /// The number of locales.
    pub fn len(&self) -> (r: usize)
        ensures
            r == self@.len(),
    {
        proof {
            use_type_invariant(self);
            lemma_alist_len(self.locales@);
        }
        self.locales.len()
    }

    /// Adds the texts of `texts` to `locale` (creating the locale when it is new);
    /// on a key present on both sides the text of `texts` wins.
    pub fn extend_locale(&mut self, locale: String, texts: TextMap)
        ensures
            final(self)@ == old(self)@.insert(
                locale@,
                texts_of(old(self)@, locale@).union_prefer_right(texts@),
            ),
    {
        proof {
            use_type_invariant(&*self);
        }
        let pos = self.position(locale.as_str());
        let mut taken = Table::new();
        std::mem::swap(&mut taken, self);
        let Table { mut locales } = taken;
        match pos {
            Some(i) => {
                let (l, mut current) = locales.remove(i);
                proof {
                    lemma_alist_index(old(self).locales@, i as int);
                }
                current.extend(texts);
                proof {
                    lemma_alist_update(old(self).locales@, i as int, current);
                    assert(old(self).locales@.update(i as int, (l, current)) =~= locales@.insert(
                        i as int,
                        (l, current),
                    ));
                }
                locales.insert(i, (l, current));
            },
            None => {
                let mut fresh = TextMap::new();
                fresh.extend(texts);
                proof {
                    lemma_alist_push(locales@, locale, fresh);
                    assert(fresh@ =~= texts_of(old(self)@, locale@).union_prefer_right(texts@));
                }
                locales.push((locale, fresh));
            },
        }
        *self = Table { locales };
    }

    /// Stores `text` under `(locale, key)`, replacing any earlier text.
    pub fn insert(&mut self, locale: String, key: String, text: String)
        ensures
            final(self)@ == old(self)@.insert(
                locale@,
                texts_of(old(self)@, locale@).insert(key@, text@),
            ),
    {
        let mut one = TextMap::new();
        let ghost k = key@;
        let ghost t = text@;
        one.insert(key, text);
        self.extend_locale(locale, one);
        proof {
            assert(texts_of(old(self)@, locale@).union_prefer_right(one@) =~= texts_of(
                old(self)@,
                locale@,
            ).insert(k, t));
        }
    }

    /// A copy of the table.
    pub fn copy(&self) -> (r: Table)
        ensures
            r@ == self@,
    {
        proof {
            use_type_invariant(self);
        }
        let mut locales: Vec<(String, TextMap)> = Vec::new();
        let mut i: usize = 0;
        while i < self.locales.len()
            invariant
                0 <= i <= self.locales@.len(),
                keys_distinct(self.locales@),
                locales@.len() == i,
                forall|j: int| 0 <= j < i ==> (#[trigger] locales@[j]).0 == self.locales@[j].0
                    && locales@[j].1@ == self.locales@[j].1@,
            decreases self.locales@.len() - i,
        {
            locales.push((self.locales[i].0.clone(), self.locales[i].1.copy()));
            i = i + 1;
        }
        proof {
            assert(alist_view(locales@) == alist_view(self.locales@)) by {
                lemma_alist_same_views(locales@, self.locales@);
            }
        }
        Table { locales }
    }

    /// The locales of the table, in storage order, each once.
    pub fn locale_names(&self) -> (r: Vec<String>)
        ensures
            r@.map_values(|l: String| l@).to_set() == self@.dom(),
            r@.map_values(|l: String| l@).no_duplicates(),
    {
        proof {
            use_type_invariant(self);
        }
        let mut r: Vec<String> = Vec::new();
        let mut i: usize = 0;
        while i < self.locales.len()
            invariant
                0 <= i <= self.locales@.len(),
                keys_distinct(self.locales@),
                r@.len() == i,
                forall|j: int| 0 <= j < i ==> #[trigger] r@[j]@ == self.locales@[j].0@,
            decreases self.locales@.len() - i,
        {
            r.push(self.locales[i].0.clone());
            i = i + 1;
        }
        let ghost names = r@.map_values(|l: String| l@);
        proof {
            assert forall|l: Seq<char>| names.to_set().contains(l) <==> self@.dom().contains(l) by {
                lemma_alist_dom(self.locales@, l);
                if self@.dom().contains(l) {
                    let j = choose|j: int| 0 <= j < self.locales@.len() && self.locales@[j].0@ == l;
                    assert(names[j] == l);
                }
            }
            assert(names.to_set() =~= self@.dom());
        }
        r
    }

    /// Merges `src` into `self`: on a conflicting `(locale, key)` the text of
    /// `src` wins, everything else of both tables is kept.
    pub fn merge(&mut self, src: Table)
        ensures
            final(self)@ == merged(old(self)@, src@),
    {
        proof {
            use_type_invariant(&src);
        }
        let ghost start = self@;
        let ghost entries = src.locales@;
        let Table { locales } = src;
        let mut rest = locales;
        let n = rest.len();
        let mut i: usize = 0;
        // Take the locales out one at a time, from the front.
        rest = reverse(rest);
        while i < n
            invariant
                n == entries.len(),
                0 <= i <= n,
                keys_distinct(entries),
                rest@ == entries.subrange(i as int, n as int).reverse(),
                self@ == merged(start, alist_view(entries.take(i as int))),
            decreases n - i,
        {
            let ghost before = self@;
            let (l, texts) = rest.pop().unwrap();
            proof {
                assert(entries.take(i + 1).drop_last() =~= entries.take(i as int));
                assert(entries[i as int] == (l, texts));
                assert(entries.subrange(i as int, n as int).reverse().last() == entries[i as int]);
                assert(rest@ =~= entries.subrange(i + 1, n as int).reverse());
                assert forall|j: int| 0 <= j < i implies entries.take(i as int)[j].0@ != l@ by {
                    assert(entries[j].0@ != entries[i as int].0@);
                }
                lemma_alist_dom(entries.take(i as int), l@);
            }
            self.extend_locale(l, texts);
            proof {
                assert(self@ =~= merged(start, alist_view(entries.take(i + 1))));
            }
            i = i + 1;
        }
        proof {
            assert(entries.take(n as int) =~= entries);
        }
    }
}

/// The elements of `v` in reverse order.
fn reverse<T>(v: Vec<T>) -> (r: Vec<T>)
    ensures
        r@ == v@.reverse(),
{
    let mut v = v;
    let ghost orig = v@;
    let mut r: Vec<T> = Vec::new();
    while v.len() > 0
        invariant
            v@ == orig.take(v@.len() as int),
            r@ == orig.subrange(v@.len() as int, orig.len() as int).reverse(),
            v@.len() <= orig.len(),
        decreases v@.len(),
    {
        let ghost k = v@.len();
        let x = v.pop().unwrap();
        r.push(x);
        proof {
            assert(v@ =~= orig.take(k - 1));
            assert(r@ =~= orig.subrange(k - 1, orig.len() as int).reverse());
        }
    }
    proof {
        assert(orig.subrange(0, orig.len() as int) =~= orig);
    }
    r
}

/// Merges `src` into `dst`; on a conflicting `(locale, key)` the `src` value wins.
pub fn merge_into(dst: &mut Table, src: Table)
    ensures
        final(dst)@ == merged(old(dst)@, src@),
{
    dst.merge(src);
}

/// Merging into an empty table gives the merged table back, and merging an
/// empty table changes nothing.
pub proof fn law_merge_identity(t: Map<Seq<char>, Map<Seq<char>, Seq<char>>>)
    ensures
        merged(Map::empty(), t) == t,
        merged(t, Map::empty()) == t,
{
    assert forall|l: Seq<char>| t.contains_key(l) implies merged(Map::empty(), t)[l] == t[l] by {
        assert(Map::<Seq<char>, Seq<char>>::empty().union_prefer_right(t[l]) =~= t[l]);
    }
    assert(merged(Map::empty(), t) =~= t);
    assert(merged(t, Map::empty()) =~= t);
}

/// Merging is associative: merging three files one after the other gives the same
/// table however the merges are grouped.
pub proof fn law_merge_associative(
    a: Map<Seq<char>, Map<Seq<char>, Seq<char>>>,
    b: Map<Seq<char>, Map<Seq<char>, Seq<char>>>,
    c: Map<Seq<char>, Map<Seq<char>, Seq<char>>>,
)
    ensures
        merged(merged(a, b), c) == merged(a, merged(b, c)),
{
    let left = merged(merged(a, b), c);
    let right = merged(a, merged(b, c));
    assert forall|l: Seq<char>| left.contains_key(l) implies left[l] == right[l] by {
        assert(left[l] =~= right[l]);
    }
    assert(left =~= right);
}

pub proof fn lemma_alist_same_views<V: View>(a: Seq<(String, V)>, b: Seq<(String, V)>)
    requires
        a.len() == b.len(),
        forall|j: int| 0 <= j < a.len() ==> (#[trigger] a[j]).0 == b[j].0 && a[j].1@ == b[j].1@,
    ensures
        alist_view(a) == alist_view(b),
        keys_distinct(b) ==> keys_distinct(a),
    decreases a.len(),
{
    if a.len() > 0 {
        lemma_alist_same_views(a.drop_last(), b.drop_last());
        assert(a.last() == a[a.len() - 1]);
    }
}

pub proof fn lemma_alist_len<V: View>(s: Seq<(String, V)>)
    requires
        keys_distinct(s),
    ensures
        alist_view(s).dom().finite(),
        alist_view(s).len() == s.len(),
    decreases s.len(),
{
    if s.len() > 0 {
        let t = s.drop_last();
        lemma_alist_len(t);
        assert forall|i: int| 0 <= i < t.len() implies t[i].0@ != s.last().0@ by {
            assert(s[i] == t[i]);
        }
        lemma_alist_dom(t, s.last().0@);
    }
}

} // verus!
