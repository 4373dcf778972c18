//! `%{name}` interpolation.
//!
//! Semantics: the first pattern whose name matches wins on duplicate names, an
//! unmatched `%{name}` stays verbatim (including the `%`), there is no escaping
//! mechanism, and an unclosed `%{name` leaves the rest of the input untouched.
//! Only the adjacent form `%{name}` is recognized: a `%` that is not directly
//! followed by `{` is ordinary text.
use vstd::prelude::*;

use crate::text::{chars_of, same_chars_at, str_views, string_views};

verus! {

/// `s[i..i+2]` is the opening `%{` of a pattern.
pub open spec fn is_open_at(s: Seq<char>, i: int) -> bool {
    0 <= i && i + 1 < s.len() && s[i] == '%' && s[i + 1] == '{'
}

/// The first position `>= from` where a `%{` starts.
pub open spec fn find_open(s: Seq<char>, from: int) -> Option<int>
    decreases s.len() - from,
{
    if from < 0 || from + 1 >= s.len() {
        None
    } else if is_open_at(s, from) {
        Some(from)
    } else {
        find_open(s, from + 1)
    }
}

/// The first position `>= from` holding the character `c`.
pub open spec fn find_char(s: Seq<char>, c: char, from: int) -> Option<int>
    decreases s.len() - from,
{
    if from < 0 || from >= s.len() {
        None
    } else if s[from] == c {
        Some(from)
    } else {
        find_char(s, c, from + 1)
    }
}

/// The first index `>= from` of `name` in `patterns`.
pub open spec fn find_name(patterns: Seq<Seq<char>>, name: Seq<char>, from: int) -> Option<int>
    decreases patterns.len() - from,
{
    if from < 0 || from >= patterns.len() {
        None
    } else if patterns[from] == name {
        Some(from)
    } else {
        find_name(patterns, name, from + 1)
    }
}

/// The pattern `%{name}` itself.
pub open spec fn verbatim(name: Seq<char>) -> Seq<char> {
    seq!['%', '{'] + name + seq!['}']
}

/// What a closed pattern `%{name}` renders as: the value paired with the first
/// pattern of that name, or the pattern itself when there is none.
pub open spec fn replacement(
    name: Seq<char>,
    patterns: Seq<Seq<char>>,
    values: Seq<Seq<char>>,
) -> Seq<char> {
    match find_name(patterns, name, 0) {
        Some(k) => if k < values.len() {
            values[k]
        } else {
            verbatim(name)
        },
        None => verbatim(name),
    }
}

pub proof fn lemma_find_open_bounds(s: Seq<char>, from: int)
    ensures
        find_open(s, from) matches Some(i) ==> from <= i && is_open_at(s, i),
    decreases s.len() - from,
{
    if !(from < 0 || from + 1 >= s.len()) && !is_open_at(s, from) {
        lemma_find_open_bounds(s, from + 1);
    }
}

pub proof fn lemma_find_char_bounds(s: Seq<char>, c: char, from: int)
    ensures
        find_char(s, c, from) matches Some(j) ==> from <= j < s.len() && s[j] == c,
    decreases s.len() - from,
{
    if !(from < 0 || from >= s.len()) && s[from] != c {
        lemma_find_char_bounds(s, c, from + 1);
    }
}

/// The interpolation of `s` from position `pos` on.
pub open spec fn interpolate_from(
    s: Seq<char>,
    patterns: Seq<Seq<char>>,
    values: Seq<Seq<char>>,
    pos: int,
) -> Seq<char>
    decreases s.len() - pos,
{
    if pos < 0 || pos > s.len() {
        Seq::empty()
    } else {
        match find_open(s, pos) {
            None => s.subrange(pos, s.len() as int),
            Some(i) => match find_char(s, '}', i + 2) {
                None => s.subrange(pos, s.len() as int),
                Some(j) => {
                    proof {
                        lemma_find_open_bounds(s, pos);
                        lemma_find_char_bounds(s, '}', i + 2);
                    }
                    s.subrange(pos, i) + replacement(s.subrange(i + 2, j), patterns, values)
                        + interpolate_from(s, patterns, values, j + 1)
                },
            },
        }
    }
}

/// The text `s` with every closed `%{name}` replaced as [`replacement`] says.
pub open spec fn interpolated(
    s: Seq<char>,
    patterns: Seq<Seq<char>>,
    values: Seq<Seq<char>>,
) -> Seq<char> {
    interpolate_from(s, patterns, values, 0)
}

/// Two argument lists that render every name alike interpolate every text alike.
proof fn lemma_same_replacements(
    s: Seq<char>,
    p1: Seq<Seq<char>>,
    v1: Seq<Seq<char>>,
    p2: Seq<Seq<char>>,
    v2: Seq<Seq<char>>,
    pos: int,
)
    requires
        forall|name: Seq<char>| replacement(name, p1, v1) == replacement(name, p2, v2),
    ensures
        interpolate_from(s, p1, v1, pos) == interpolate_from(s, p2, v2, pos),
    decreases s.len() - pos,
{
    if 0 <= pos <= s.len() {
        if let Some(i) = find_open(s, pos) {
            if let Some(j) = find_char(s, '}', i + 2) {
                lemma_find_open_bounds(s, pos);
                lemma_find_char_bounds(s, '}', i + 2);
                lemma_same_replacements(s, p1, v1, p2, v2, j + 1);
            }
        }
    }
}

proof fn lemma_verbatim_from(s: Seq<char>, patterns: Seq<Seq<char>>, pos: int)
    requires
        0 <= pos <= s.len(),
    ensures
        interpolate_from(s, patterns, Seq::empty(), pos) == s.subrange(pos, s.len() as int),
    decreases s.len() - pos,
{
    if let Some(i) = find_open(s, pos) {
        if let Some(j) = find_char(s, '}', i + 2) {
            lemma_find_open_bounds(s, pos);
            lemma_find_char_bounds(s, '}', i + 2);
            lemma_verbatim_from(s, patterns, j + 1);
            let name = s.subrange(i + 2, j);
            lemma_find_name_range(patterns, name, 0);
            assert(replacement(name, patterns, Seq::empty()) == verbatim(name));
            assert(verbatim(name) =~= s.subrange(i, j + 1));
            assert(s.subrange(pos, i) + s.subrange(i, j + 1) + s.subrange(j + 1, s.len() as int)
                =~= s.subrange(pos, s.len() as int));
        }
    }
}

/// Interpolating without any values leaves every text unchanged: each `%{name}`
/// stays verbatim, whatever the patterns are.
pub proof fn law_no_values_is_identity(s: Seq<char>, patterns: Seq<Seq<char>>)
    ensures
        interpolated(s, patterns, Seq::empty()) == s,
{
    lemma_verbatim_from(s, patterns, 0);
    assert(s.subrange(0, s.len() as int) =~= s);
}

/// A text without any `%{` is left unchanged, whatever the arguments are.
pub proof fn law_plain_text_is_unchanged(
    s: Seq<char>,
    patterns: Seq<Seq<char>>,
    values: Seq<Seq<char>>,
)
    requires
        forall|i: int| !is_open_at(s, i),
    ensures
        interpolated(s, patterns, values) == s,
{
    assert(find_open(s, 0) is None) by {
        lemma_find_open_bounds(s, 0);
    }
    assert(s.subrange(0, s.len() as int) =~= s);
}

/// `name` is paired with a value: it is among the patterns that have one.
pub open spec fn has_value(name: Seq<char>, patterns: Seq<Seq<char>>, values: Seq<Seq<char>>) -> bool {
    exists|k: int| 0 <= k < patterns.len() && k < values.len() && patterns[k] == name
}

/// The name of the closed pattern that opens at `i`: the text between that `%{`
/// and the first `}` after it, or `None` when no `}` closes it.
pub open spec fn closed_name_at(s: Seq<char>, i: int) -> Option<Seq<char>> {
    match find_char(s, '}', i + 2) {
        Some(j) => Some(s.subrange(i + 2, j)),
        None => None,
    }
}

proof fn lemma_missing_name_is_verbatim(name: Seq<char>, patterns: Seq<Seq<char>>, values: Seq<Seq<char>>)
    requires
        !has_value(name, patterns, values),
    ensures
        replacement(name, patterns, values) == verbatim(name),
{
    lemma_find_name_range(patterns, name, 0);
    if let Some(k) = find_name(patterns, name, 0) {
        if k < values.len() {
            assert(has_value(name, patterns, values));
        }
    }
}

proof fn lemma_misses_from(s: Seq<char>, patterns: Seq<Seq<char>>, values: Seq<Seq<char>>, pos: int)
    requires
        0 <= pos <= s.len(),
        forall|i: int|
            is_open_at(s, i) && #[trigger] closed_name_at(s, i) is Some ==> !has_value(
                closed_name_at(s, i)->0,
                patterns,
                values,
            ),
    ensures
        interpolate_from(s, patterns, values, pos) == s.subrange(pos, s.len() as int),
    decreases s.len() - pos,
{
    if let Some(i) = find_open(s, pos) {
        if let Some(j) = find_char(s, '}', i + 2) {
            lemma_find_open_bounds(s, pos);
            lemma_find_char_bounds(s, '}', i + 2);
            lemma_misses_from(s, patterns, values, j + 1);
            let name = s.subrange(i + 2, j);
            assert(closed_name_at(s, i) == Some(name));
            lemma_missing_name_is_verbatim(name, patterns, values);
            assert(verbatim(name) =~= s.subrange(i, j + 1));
            assert(s.subrange(pos, i) + s.subrange(i, j + 1) + s.subrange(j + 1, s.len() as int)
                =~= s.subrange(pos, s.len() as int));
        }
    }
}

/// A text whose patterns all miss comes back unchanged: when no closed `%{name}`
/// of the text (a `%{` and the first `}` after it) names an argument that has a
/// value, unmatched patterns, an unclosed `%{` and bare braces are all copied
/// verbatim.
pub proof fn law_unmatched_patterns_are_unchanged(
    s: Seq<char>,
    patterns: Seq<Seq<char>>,
    values: Seq<Seq<char>>,
)
    requires
        forall|i: int|
            is_open_at(s, i) && #[trigger] closed_name_at(s, i) is Some ==> !has_value(
                closed_name_at(s, i)->0,
                patterns,
                values,
            ),
    ensures
        interpolated(s, patterns, values) == s,
{
    lemma_misses_from(s, patterns, values, 0);
    assert(s.subrange(0, s.len() as int) =~= s);
}

proof fn lemma_find_name_append(
    patterns: Seq<Seq<char>>,
    extra: Seq<char>,
    name: Seq<char>,
    from: int,
)
    requires
        0 <= from,
    ensures
        find_name(patterns, name, from) matches Some(k) ==> find_name(patterns.push(extra), name, from) == Some(k),
        find_name(patterns, name, from) is None && from <= patterns.len() ==> find_name(patterns.push(extra), name, from) == (if name == extra { Some(patterns.len() as int) } else { None }),
        find_name(patterns, name, from) is None ==> forall|k: int| from <= k < patterns.len() ==> patterns[k] != name,
    decreases patterns.len() - from,
{
    if from < patterns.len() {
        lemma_find_name_append(patterns, extra, name, from + 1);
    } else if from == patterns.len() {
        assert(find_name(patterns.push(extra), name, from + 1) is None);
    }
}

/// First match wins: adding one more argument whose name is already among the
/// patterns (each of which has a value) changes no interpolation.
pub proof fn law_duplicate_name_is_ignored(
    s: Seq<char>,
    patterns: Seq<Seq<char>>,
    values: Seq<Seq<char>>,
    name: Seq<char>,
    value: Seq<char>,
)
    requires
        patterns.len() == values.len(),
        patterns.contains(name),
    ensures
        interpolated(s, patterns.push(name), values.push(value)) == interpolated(s, patterns, values),
{
    assert forall|n: Seq<char>|
        replacement(n, patterns.push(name), values.push(value)) == replacement(n, patterns, values) by {
        lemma_find_name_append(patterns, name, n, 0);
        if find_name(patterns, n, 0) is None && n == name {
            let k = choose|k: int| 0 <= k < patterns.len() && patterns[k] == name;
            assert(patterns[k] == n);
        }
        if let Some(k) = find_name(patterns, n, 0) {
            lemma_find_name_range(patterns, n, 0);
            assert(values.push(value)[k] == values[k]);
        }
    }
    lemma_same_replacements(s, patterns.push(name), values.push(value), patterns, values, 0);
}

proof fn lemma_find_name_range(patterns: Seq<Seq<char>>, name: Seq<char>, from: int)
    ensures
        find_name(patterns, name, from) matches Some(k) ==> from <= k < patterns.len() && patterns[k] == name,
    decreases patterns.len() - from,
{
    if 0 <= from < patterns.len() && patterns[from] != name {
        lemma_find_name_range(patterns, name, from + 1);
    }
}

fn find_open_exec(chars: &Vec<char>, from: usize) -> (r: Option<usize>)
    requires
        from <= chars@.len(),
    ensures
        match r {
            Some(i) => find_open(chars@, from as int) == Some(i as int),
            None => find_open(chars@, from as int) is None,
        },
{
    let n = chars.len();
    let mut k = from;
    while n > 0 && k < n - 1
        invariant
            n == chars@.len(),
            from <= k <= n,
            find_open(chars@, from as int) == find_open(chars@, k as int),
        decreases n - k,
    {
        if chars[k] == '%' && chars[k + 1] == '{' {
            return Some(k);
        }
        k = k + 1;
    }
    None
}

fn find_char_exec(chars: &Vec<char>, c: char, from: usize) -> (r: Option<usize>)
    requires
        from <= chars@.len(),
    ensures
        match r {
            Some(j) => find_char(chars@, c, from as int) == Some(j as int),
            None => find_char(chars@, c, from as int) is None,
        },
{
    let n = chars.len();
    let mut k = from;
    while k < n
        invariant
            n == chars@.len(),
            from <= k <= n,
            find_char(chars@, c, from as int) == find_char(chars@, c, k as int),
        decreases n - k,
    {
        if chars[k] == c {
            return Some(k);
        }
        k = k + 1;
    }
    None
}

fn find_name_exec(patterns: &[&str], chars: &Vec<char>, from: usize, to: usize) -> (r: Option<
    usize,
>)
    requires
        from <= to <= chars@.len(),
    ensures
        match r {
            Some(k) => find_name(str_views(patterns@), chars@.subrange(from as int, to as int), 0)
                == Some(k as int),
            None => find_name(str_views(patterns@), chars@.subrange(from as int, to as int), 0) is None,
        },
{
    let ghost pats = str_views(patterns@);
    let ghost name = chars@.subrange(from as int, to as int);
    let mut k: usize = 0;
    while k < patterns.len()
        invariant
            0 <= k <= patterns@.len(),
            pats == str_views(patterns@),
            name == chars@.subrange(from as int, to as int),
            from <= to <= chars@.len(),
            find_name(pats, name, 0) == find_name(pats, name, k as int),
        decreases patterns@.len() - k,
    {
        if same_chars_at(chars, from, to, patterns[k]) {
            return Some(k);
        }
        k = k + 1;
    }
    None
}

/// Replaces each `%{name}` in `input` where `name` matches an entry in `patterns`
/// with the value at the same index in `values`.
///
/// The first index whose pattern matches wins; a matching pattern without a value
/// (more patterns than values) leaves the text `%{name}` in place, as does a name
/// that matches no pattern. Values are inserted as they are and never interpolated
/// again.
pub fn interpolate(input: &str, patterns: &[&str], values: &[String]) -> (r: String)
    ensures
        r@ == interpolated(input@, str_views(patterns@), string_views(values@)),
{
    let ghost s = input@;
    let ghost pats = str_views(patterns@);
    let ghost vals = string_views(values@);
    let chars = chars_of(input);
    let n = chars.len();
    let mut out = String::new();
    let mut pos: usize = 0;
    loop
        invariant
            chars@ == s,
            s == input@,
            n == s.len(),
            pats == str_views(patterns@),
            vals == string_views(values@),
            pos <= n,
            interpolated(s, pats, vals) == out@ + interpolate_from(s, pats, vals, pos as int),
        decreases n - pos,
    {
        let ghost before = out@;
        let start = find_open_exec(&chars, pos);
        let i = match start {
            Some(i) => i,
            None => {
                out.append(input.substring_char(pos, n));
                return out;
            },
        };
        proof {
            lemma_find_open_bounds(s, pos as int);
        }
        let end = find_char_exec(&chars, '}', i + 2);
        let j = match end {
            Some(j) => j,
            None => {
                out.append(input.substring_char(pos, n));
                return out;
            },
        };
        proof {
            lemma_find_char_bounds(s, '}', (i + 2) as int);
        }
        out.append(input.substring_char(pos, i));
        let name = input.substring_char(i + 2, j);
        let ghost name_v = s.subrange(i + 2, j as int);
        match find_name_exec(patterns, &chars, i + 2, j) {
            Some(k) if k < values.len() => {
                out.append(values[k].as_str());
            },
            _ => {
                let open = "%{";
                let close = "}";
                proof {
                    reveal_strlit("%{");
                    reveal_strlit("}");
                }
                out.append(open);
                out.append(name);
                out.append(close);
            },
        }
        assert(out@ == before + s.subrange(pos as int, i as int) + replacement(name_v, pats, vals));
        pos = j + 1;
    }
}

} // verus!
