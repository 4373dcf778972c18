//! Locale tags: validation through `icu_locale_core`, underscore normalization, the
//! BCP-47 truncation chain used for lookups, and the byte-lexicographic order in
//! which locale lists are sorted.
use vstd::prelude::*;

use crate::parse::last_index_of;
use crate::text::{chars_of, string_views};

verus! {

/// The canonical form `icu_locale_core` gives the tag `s`, or `None` when it does
/// not accept `s` as a locale identifier.
pub uninterp spec fn canonical_locale(s: Seq<char>) -> Option<Seq<char>>;

/// `s` is a locale identifier that `icu_locale_core` accepts.
pub open spec fn is_valid_locale(s: Seq<char>) -> bool {
    canonical_locale(s) is Some
}

/// Calls `s.parse::<icu_locale_core::Locale>()` and, on success, renders the
/// locale with its `Display` impl: the result is [`canonical_locale`] of `s`.
#[verifier::external_body]
fn parse_locale(s: &str) -> (r: Option<String>)
    ensures
        match r {
            Some(c) => canonical_locale(s@) == Some(c@),
            None => canonical_locale(s@) is None,
        },
{
    match s.parse::<icu_locale_core::Locale>() {
        Ok(locale) => Some(locale.to_string()),
        Err(_) => None,
    }
}

/// Whether `icu_locale_core` accepts `s` as a locale identifier.
pub fn is_valid_locale_tag(s: &str) -> (r: bool)
    ensures
        r == is_valid_locale(s@),
{
    parse_locale(s).is_some()
}

/// `s` with every `_` replaced by `-` (platform tags such as `en_US`).
pub open spec fn hyphenated(s: Seq<char>) -> Seq<char> {
    s.map_values(|c: char| if c == '_' { '-' } else { c })
}

/// `s` with every `_` replaced by `-`.
pub fn hyphenate(s: &str) -> (r: String)
    ensures
        r@ == hyphenated(s@),
{
    let chars = chars_of(s);
    let n = chars.len();
    let mut out = String::new();
    let dash = "-";
    proof {
        reveal_strlit("-");
    }
    let mut start: usize = 0;
    let mut i: usize = 0;
    while i < n
        invariant
            chars@ == s@,
            n == s@.len(),
            dash@ == seq!['-'],
            start <= i <= n,
            out@ + s@.subrange(start as int, i as int) == hyphenated(s@).take(i as int),
            forall|k: int| start <= k < i ==> s@[k] != '_',
        decreases n - i,
    {
        if chars[i] == '_' {
            let ghost before = out@;
            out.append(s.substring_char(start, i));
            out.append(dash);
            proof {
                assert(hyphenated(s@).take(i + 1) =~= hyphenated(s@).take(i as int).push('-'));
                assert(out@ =~= before + s@.subrange(start as int, i as int) + seq!['-']);
                assert(out@ + s@.subrange(i + 1, i + 1) =~= hyphenated(s@).take(i + 1));
            }
            start = i + 1;
        } else {
            proof {
                assert(hyphenated(s@).take(i + 1) =~= hyphenated(s@).take(i as int).push(s@[i as int]));
                assert(s@.subrange(start as int, i + 1) =~= s@.subrange(start as int, i as int).push(s@[i as int]));
                assert(out@ + s@.subrange(start as int, i + 1) =~= hyphenated(s@).take(i + 1));
            }
        }
        i = i + 1;
    }
    out.append(s.substring_char(start, n));
    proof {
        assert(hyphenated(s@).take(n as int) =~= hyphenated(s@));
    }
    out
}

/// The locale a raw platform tag stands for: `_` turned into `-`, then the
/// canonical form `icu_locale_core` gives it; `None` when it is not a locale
/// identifier.
pub fn detected_locale(raw: &str) -> (r: Option<String>)
    ensures
        match r {
            Some(l) => canonical_locale(hyphenated(raw@)) == Some(l@),
            None => canonical_locale(hyphenated(raw@)) is None,
        },
{
    let normalized = hyphenate(raw);
    parse_locale(normalized.as_str())
}

/// `s` without any trailing `-x` private-use markers.
pub open spec fn trim_private_tail(s: Seq<char>) -> Seq<char>
    decreases s.len(),
{
    if s.len() >= 2 && s[s.len() - 2] == '-' && s[s.len() - 1] == 'x' {
        trim_private_tail(s.take(s.len() - 2))
    } else {
        s
    }
}

pub proof fn lemma_trim_is_prefix(s: Seq<char>)
    ensures
        trim_private_tail(s).len() <= s.len(),
        trim_private_tail(s) == s.take(trim_private_tail(s).len() as int),
    decreases s.len(),
{
    if s.len() >= 2 && s[s.len() - 2] == '-' && s[s.len() - 1] == 'x' {
        lemma_trim_is_prefix(s.take(s.len() - 2));
        assert(s.take(s.len() - 2).take(trim_private_tail(s).len() as int) =~= s.take(
            trim_private_tail(s).len() as int,
        ));
    } else {
        assert(s.take(s.len() as int) =~= s);
    }
}

pub proof fn lemma_last_index_bounds(s: Seq<char>, c: char)
    ensures
        last_index_of(s, c) matches Some(i) ==> 0 <= i < s.len() && s[i] == c,
        last_index_of(s, c) is None ==> forall|k: int| 0 <= k < s.len() ==> s[k] != c,
    decreases s.len(),
{
    if s.len() > 0 && s.last() != c {
        lemma_last_index_bounds(s.drop_last(), c);
        assert forall|k: int| 0 <= k < s.len() - 1 implies s[k] == s.drop_last()[k] by {}
    }
}

/// The next, shorter locale of the lookup chain: the tag cut at its last `-`,
/// with trailing `-x` markers trimmed (`zh-Hant-CN` -> `zh-Hant`, `aa-x-b` -> `aa`).
pub open spec fn parent_locale(s: Seq<char>) -> Option<Seq<char>> {
    match last_index_of(s, '-') {
        Some(i) => Some(trim_private_tail(s.take(i))),
        None => None,
    }
}

pub proof fn lemma_parent_shorter(s: Seq<char>)
    ensures
        parent_locale(s) matches Some(p) ==> p.len() < s.len() && p == s.take(p.len() as int),
{
    lemma_last_index_bounds(s, '-');
    if let Some(i) = last_index_of(s, '-') {
        lemma_trim_is_prefix(s.take(i));
        let p = trim_private_tail(s.take(i));
        assert(s.take(i).take(p.len() as int) =~= s.take(p.len() as int));
    }
}

/// The locales tried after `s` itself: each parent in turn until no `-` is left.
pub open spec fn truncation_chain(s: Seq<char>) -> Seq<Seq<char>>
    decreases s.len(),
{
    match parent_locale(s) {
        Some(p) => {
            proof {
                lemma_parent_shorter(s);
            }
            seq![p] + truncation_chain(p)
        },
        None => Seq::empty(),
    }
}

/// `s` followed by its truncation chain.
pub open spec fn locale_chain(s: Seq<char>) -> Seq<Seq<char>> {
    seq![s] + truncation_chain(s)
}

/// Strict lexicographic order of texts by character code (the same order as the
/// byte order of their UTF-8 encodings).
pub open spec fn lex_lt(a: Seq<char>, b: Seq<char>) -> bool
    decreases a.len(),
{
    if a.len() == 0 {
        b.len() > 0
    } else if b.len() == 0 {
        false
    } else if a[0] != b[0] {
        (a[0] as int) < (b[0] as int)
    } else {
        lex_lt(a.drop_first(), b.drop_first())
    }
}

pub proof fn lemma_lex_irreflexive(a: Seq<char>)
    ensures
        !lex_lt(a, a),
    decreases a.len(),
{
    if a.len() > 0 {
        lemma_lex_irreflexive(a.drop_first());
    }
}

pub proof fn lemma_lex_total(a: Seq<char>, b: Seq<char>)
    ensures
        a != b ==> lex_lt(a, b) || lex_lt(b, a),
        !(lex_lt(a, b) && lex_lt(b, a)),
    decreases a.len(),
{
    if a.len() > 0 && b.len() > 0 {
        if a[0] == b[0] {
            lemma_lex_total(a.drop_first(), b.drop_first());
            if a != b {
                assert(a.drop_first() != b.drop_first()) by {
                    if a.drop_first() == b.drop_first() {
                        assert forall|k: int| 0 <= k < a.len() implies a[k] == b[k] by {
                            if k > 0 {
                                assert(a[k] == a.drop_first()[k - 1]);
                                assert(b[k] == b.drop_first()[k - 1]);
                            }
                        }
                        assert(a =~= b);
                    }
                }
            }
        } else {
            assert((a[0] as int) != (b[0] as int));
        }
    } else if a.len() == 0 && b.len() == 0 {
        assert(a =~= b);
    }
}

pub proof fn lemma_lex_transitive(a: Seq<char>, b: Seq<char>, c: Seq<char>)
    requires
        lex_lt(a, b),
        lex_lt(b, c),
    ensures
        lex_lt(a, c),
    decreases a.len(),
{
    if a.len() > 0 && b.len() > 0 && c.len() > 0 {
        if a[0] == b[0] && b[0] == c[0] {
            lemma_lex_transitive(a.drop_first(), b.drop_first(), c.drop_first());
        }
    }
}

/// Whether `a` sorts strictly before `b` (see [`lex_lt`]).
pub fn str_lt(a: &str, b: &str) -> (r: bool)
    ensures
        r == lex_lt(a@, b@),
{
    let ca = chars_of(a);
    let cb = chars_of(b);
    let mut i: usize = 0;
    proof {
        assert(a@.skip(0) =~= a@);
        assert(b@.skip(0) =~= b@);
    }
    while i < ca.len() && i < cb.len()
        invariant
            ca@ == a@,
            cb@ == b@,
            0 <= i <= ca@.len(),
            i <= cb@.len(),
            lex_lt(a@, b@) == lex_lt(a@.skip(i as int), b@.skip(i as int)),
        decreases ca@.len() - i,
    {
        if ca[i] != cb[i] {
            proof {
                assert(a@.skip(i as int)[0] == ca@[i as int]);
                assert(b@.skip(i as int)[0] == cb@[i as int]);
            }
            return ca[i] < cb[i];
        }
        proof {
            assert(a@.skip(i as int).drop_first() =~= a@.skip(i + 1));
            assert(b@.skip(i as int).drop_first() =~= b@.skip(i + 1));
        }
        i = i + 1;
    }
    i < cb.len()
}

/// Every element of `s` sorts strictly before every later one.
pub open spec fn sorted_strictly(s: Seq<Seq<char>>) -> bool {
    forall|i: int, j: int| 0 <= i < j < s.len() ==> lex_lt(s[i], s[j])
}

/// `names` sorted ascending (see [`lex_lt`]).
pub fn sort_locales(names: Vec<String>) -> (r: Vec<String>)
    requires
        string_views(names@).no_duplicates(),
    ensures
        sorted_strictly(string_views(r@)),
        string_views(r@).to_set() == string_views(names@).to_set(),
        string_views(r@).len() == string_views(names@).len(),
{
    let ghost src = string_views(names@);
    let mut r: Vec<String> = Vec::new();
    let mut i: usize = 0;
    while i < names.len()
        invariant
            src == string_views(names@),
            src.no_duplicates(),
            0 <= i <= names@.len(),
            sorted_strictly(string_views(r@)),
            string_views(r@).to_set() == src.take(i as int).to_set(),
            r@.len() == i,
        decreases names@.len() - i,
    {
        let ghost rv = string_views(r@);
        let name = names[i].clone();
        let ghost nv = name@;
        proof {
            assert(nv == src[i as int]);
            assert(!rv.contains(nv)) by {
                if rv.contains(nv) {
                    assert(rv.to_set().contains(nv));
                    let k = choose|k: int| 0 <= k < i && src.take(i as int)[k] == nv;
                    assert(src[k] == src[i as int]);
                }
            }
        }
        let mut pos: usize = 0;
        while pos < r.len() && !str_lt(name.as_str(), r[pos].as_str())
            invariant
                rv == string_views(r@),
                nv == name@,
                sorted_strictly(rv),
                !rv.contains(nv),
                0 <= pos <= r@.len(),
                forall|k: int| 0 <= k < pos ==> lex_lt(#[trigger] rv[k], nv),
            decreases r@.len() - pos,
        {
            proof {
                assert(rv[pos as int] == r@[pos as int]@);
                assert(rv[pos as int] != nv);
                lemma_lex_total(rv[pos as int], nv);
            }
            pos = pos + 1;
        }
        proof {
            if pos < r@.len() {
                assert(rv[pos as int] == r@[pos as int]@);
                assert(lex_lt(nv, rv[pos as int]));
            }
        }
        r.insert(pos, name);
        proof {
            let nrv = string_views(r@);
            assert(nrv =~= rv.insert(pos as int, nv));
            assert forall|a: int, b: int| 0 <= a < b < nrv.len() implies lex_lt(nrv[a], nrv[b]) by {
                if b < pos {
                } else if b == pos {
                } else if a < pos {
                    if b - 1 > pos {
                        lemma_lex_transitive(nv, rv[pos as int], rv[b - 1]);
                    }
                    lemma_lex_transitive(rv[a], nv, rv[b - 1]);
                } else if a == pos {
                    if b - 1 > pos {
                        lemma_lex_transitive(nv, rv[pos as int], rv[b - 1]);
                    }
                } else {
                }
            }
            assert(src.take(i + 1) =~= src.take(i as int).push(nv));
            assert(nrv.to_set() =~= rv.to_set().insert(nv)) by {
                assert forall|x: Seq<char>| nrv.to_set().contains(x) <==> rv.to_set().insert(nv).contains(x) by {
                    if nrv.contains(x) {
                        let k = choose|k: int| 0 <= k < nrv.len() && nrv[k] == x;
                        if k < pos {
                            assert(rv[k] == x);
                        } else if k > pos {
                            assert(rv[k - 1] == x);
                        }
                    }
                    if rv.contains(x) {
                        let k = choose|k: int| 0 <= k < rv.len() && rv[k] == x;
                        if k < pos {
                            assert(nrv[k] == x);
                        } else {
                            assert(nrv[k + 1] == x);
                        }
                    }
                    if x == nv {
                        assert(nrv[pos as int] == x);
                    }
                }
            }
            let pre = src.take(i as int);
            assert forall|x: Seq<char>| pre.push(nv).to_set().contains(x) <==> pre.to_set().insert(nv).contains(x) by {
                if pre.push(nv).contains(x) {
                    let k = choose|k: int| 0 <= k < pre.push(nv).len() && pre.push(nv)[k] == x;
                    if k < pre.len() {
                        assert(pre[k] == x);
                    }
                }
                if pre.contains(x) {
                    let k = choose|k: int| 0 <= k < pre.len() && pre[k] == x;
                    assert(pre.push(nv)[k] == x);
                }
                if x == nv {
                    assert(pre.push(nv)[pre.len() as int] == x);
                }
            }
            assert(pre.push(nv).to_set() =~= pre.to_set().insert(nv));
        }
        i = i + 1;
    }
    proof {
        assert(src.take(names@.len() as int) =~= src);
    }
    r
}

} // verus!
