//! The slug encoder: strips inline Markdown links, then derives the URL
//! fragment a rendering platform uses as the anchor of a heading.

use vstd::prelude::*;
use crate::text::{
    is_space, is_space_char, fold_ascii, fold_ascii_char, spec_find_char, find_char,
    lemma_find_char_range, str_to_chars, chars_to_string, subvec, extend_sub,
};

verus! {

/// The punctuation characters removed from a slug.
pub open spec fn is_slug_punct(c: char) -> bool {
    c == '(' || c == ')' || c == '`' || c == '\u{b4}' || c == '\'' || c == '"' || c == '['
        || c == ']' || c == '{' || c == '}' || c == '?' || c == '\u{bf}' || c == '!'
        || c == '\u{a1}' || c == '.' || c == ',' || c == '\\' || c == '/' || c == ':' || c == ';'
        || c == '\u{a7}' || c == '$' || c == '%' || c == '&' || c == '=' || c == '^'
        || c == '\u{b0}' || c == '#' || c == '+' || c == '*' || c == '<' || c == '>'
}

/// Executable test for [`is_slug_punct`].
pub fn is_slug_punct_char(c: char) -> (r: bool)
    ensures
        r == is_slug_punct(c),
{
    c == '(' || c == ')' || c == '`' || c == '\u{b4}' || c == '\'' || c == '"' || c == '['
        || c == ']' || c == '{' || c == '}' || c == '?' || c == '\u{bf}' || c == '!'
        || c == '\u{a1}' || c == '.' || c == ',' || c == '\\' || c == '/' || c == ':' || c == ';'
        || c == '\u{a7}' || c == '$' || c == '%' || c == '&' || c == '=' || c == '^'
        || c == '\u{b0}' || c == '#' || c == '+' || c == '*' || c == '<' || c == '>'
}

/// An inline link `[label](target)` starting at the bracket position `b`:
/// the label is the non-empty run up to the first `]`, which must be followed
/// directly by `(`, and the target is the non-empty run up to the first `)`.
/// Returns the positions of the `]` and the `)`.
pub open spec fn link_at(s: Seq<char>, b: int) -> Option<(int, int)> {
    if !(0 <= b < s.len() && s[b] == '[') {
        None
    } else {
        match spec_find_char(s, ']', b + 1) {
            None => None,
            Some(rb) => if rb == b + 1 {
                None
            } else if rb + 1 < s.len() && s[rb + 1] == '(' {
                match spec_find_char(s, ')', rb + 2) {
                    None => None,
                    Some(lp) => if lp == rb + 2 {
                        None
                    } else {
                        Some((rb, lp))
                    },
                }
            } else {
                None
            },
        }
    }
}

/// The first complete inline link at or after `from`: bracket, `]` and `)`
/// positions of the first `[` whose link construct is complete.
pub open spec fn spec_find_link(s: Seq<char>, from: int) -> Option<(int, int, int)>
    decreases s.len() - from + 1,
    via spec_find_link_decreases
{
    if from < 0 || from >= s.len() {
        None
    } else {
        match spec_find_char(s, '[', from) {
            None => None,
            Some(b) => match link_at(s, b) {
                Some(t) => Some((b, t.0, t.1)),
                None => spec_find_link(s, b + 1),
            },
        }
    }
}

#[via_fn]
proof fn spec_find_link_decreases(s: Seq<char>, from: int) {
    if !(from < 0 || from >= s.len()) {
        if let Some(b) = spec_find_char(s, '[', from) {
            lemma_find_char_range(s, '[', from, b);
        }
    }
}

/// The positions returned by `spec_find_link` are ordered and in range.
pub proof fn lemma_find_link_range(s: Seq<char>, from: int)
    ensures
        spec_find_link(s, from) matches Some(t) ==> {
            &&& from <= t.0
            &&& t.0 + 2 <= t.1
            &&& t.1 + 3 <= t.2
            &&& t.2 < s.len()
        },
    decreases s.len() - from + 1,
{
    if !(from < 0 || from >= s.len()) {
        match spec_find_char(s, '[', from) {
            None => {
            },
            Some(b) => {
                lemma_find_char_range(s, '[', from, b);
                match link_at(s, b) {
                    Some(t) => {
                        lemma_find_char_range(s, ']', b + 1, t.0);
                        lemma_find_char_range(s, ')', t.0 + 2, t.1);
                    },
                    None => {
                        lemma_find_link_range(s, b + 1);
                    },
                }
            },
        }
    }
}

/// The text from `from` on with every complete inline link replaced by its
/// label: `[label](target)` becomes `label`, everything else is kept.
pub open spec fn spec_strip_links_from(s: Seq<char>, from: int) -> Seq<char>
    decreases s.len() - from + 1,
    via spec_strip_links_decreases
{
    if from < 0 || from >= s.len() {
        Seq::empty()
    } else {
        match spec_find_link(s, from) {
            None => s.subrange(from, s.len() as int),
            Some(t) => s.subrange(from, t.0) + s.subrange(t.0 + 1, t.1) + spec_strip_links_from(
                s,
                t.2 + 1,
            ),
        }
    }
}

#[via_fn]
proof fn spec_strip_links_decreases(s: Seq<char>, from: int) {
    if !(from < 0 || from >= s.len()) {
        lemma_find_link_range(s, from);
    }
}

/// The whole text with every complete inline link replaced by its label.
pub open spec fn spec_strip_links(s: Seq<char>) -> Seq<char> {
    spec_strip_links_from(s, 0)
}

/// Find the first complete inline link at or after `from`.
fn find_link(v: &Vec<char>, from: usize) -> (r: Option<(usize, usize, usize)>)
    ensures
        match r {
            Some(t) => spec_find_link(v@, from as int) == Some(
                (t.0 as int, t.1 as int, t.2 as int),
            ),
            None => spec_find_link(v@, from as int) is None,
        },
{
    let mut cur: usize = from;
    loop
        invariant
            from <= cur,
            spec_find_link(v@, from as int) == spec_find_link(v@, cur as int),
        decreases v@.len() - cur,
    {
        if cur >= v.len() {
            return None;
        }
        match find_char(v, '[', cur) {
            None => {
                return None;
            },
            Some(b) => {
                proof {
                    lemma_find_char_range(v@, '[', cur as int, b as int);
                }
                let fail: bool;
                let mut found: Option<(usize, usize, usize)> = None;
                match find_char(v, ']', b + 1) {
                    None => {
                        fail = true;
                    },
                    Some(rb) => {
                        proof {
                            lemma_find_char_range(v@, ']', b + 1, rb as int);
                        }
                        if rb == b + 1 {
                            fail = true;
                        } else if rb + 1 < v.len() && v[rb + 1] == '(' {
                            match find_char(v, ')', rb + 2) {
                                None => {
                                    fail = true;
                                },
                                Some(lp) => {
                                    proof {
                                        lemma_find_char_range(v@, ')', rb + 2, lp as int);
                                    }
                                    if lp == rb + 2 {
                                        fail = true;
                                    } else {
                                        fail = false;
                                        found = Some((b, rb, lp));
                                    }
                                },
                            }
                        } else {
                            fail = true;
                        }
                    },
                }
                if fail {
                    assert(link_at(v@, b as int) is None);
                    cur = b + 1;
                } else {
                    match found {
                        Some(t) => {
                            assert(link_at(v@, b as int) == Some((t.1 as int, t.2 as int)));
                            return found;
                        },
                        None => {
                            assert(false);
                        },
                    }
                }
            },
        }
    }
}

/// Replace every complete inline link by its label.
pub fn strip_links_chars(v: &Vec<char>) -> (r: Vec<char>)
    ensures
        r@ == spec_strip_links(v@),
{
    let mut out: Vec<char> = Vec::new();
    let mut from: usize = 0;
    loop
        invariant
            spec_strip_links(v@) == out@ + spec_strip_links_from(v@, from as int),
        decreases v@.len() - from,
    {
        if from >= v.len() {
            assert(out@ + spec_strip_links_from(v@, from as int) =~= out@);
            return out;
        }
        match find_link(v, from) {
            None => {
                extend_sub(&mut out, v, from, v.len());
                return out;
            },
            Some(t) => {
                proof {
                    lemma_find_link_range(v@, from as int);
                }
                let (b, rb, lp) = t;
                let ghost pre = out@;
                extend_sub(&mut out, v, from, b);
                extend_sub(&mut out, v, b + 1, rb);
                proof {
                    assert(out@ + spec_strip_links_from(v@, lp + 1) =~= pre + (v@.subrange(
                        from as int,
                        b as int,
                    ) + v@.subrange(b + 1, rb as int) + spec_strip_links_from(v@, lp + 1)));
                }
                from = lp + 1;
            },
        }
    }
}

/// Index of the first character at or after `from` that is not whitespace.
pub open spec fn first_non_space(s: Seq<char>, from: int) -> int
    decreases s.len() - from + 1,
{
    if from < 0 || from >= s.len() {
        s.len() as int
    } else if !is_space(s[from]) {
        from
    } else {
        first_non_space(s, from + 1)
    }
}

/// End of the text with trailing whitespace before `upto` dropped.
pub open spec fn last_non_space_end(s: Seq<char>, upto: int) -> int
    decreases upto,
{
    if upto <= 0 {
        0
    } else if upto > s.len() {
        s.len() as int
    } else if !is_space(s[upto - 1]) {
        upto
    } else {
        last_non_space_end(s, upto - 1)
    }
}

/// The text with leading and trailing whitespace removed.
pub open spec fn spec_trim(s: Seq<char>) -> Seq<char> {
    let a = first_non_space(s, 0);
    let b = last_non_space_end(s, s.len() as int);
    if a <= b {
        s.subrange(a, b)
    } else {
        Seq::empty()
    }
}

/// `first_non_space` stays within the text, and never moves backwards from
/// a position inside it.
pub proof fn lemma_first_non_space_range(s: Seq<char>, from: int)
    requires
        0 <= from,
    ensures
        0 <= first_non_space(s, from) <= s.len(),
        from <= s.len() ==> from <= first_non_space(s, from),
    decreases s.len() - from + 1,
{
    if !(from >= s.len()) && is_space(s[from]) {
        lemma_first_non_space_range(s, from + 1);
    }
}

proof fn lemma_first_non_space_is(s: Seq<char>, from: int, k: int)
    requires
        0 <= from <= k <= s.len(),
        forall|j: int| from <= j < k ==> is_space(s[j]),
        k == s.len() || !is_space(s[k]),
    ensures
        first_non_space(s, from) == k,
    decreases k - from,
{
    if from < k {
        lemma_first_non_space_is(s, from + 1, k);
    }
}

proof fn lemma_last_non_space_end_is(s: Seq<char>, upto: int, k: int)
    requires
        0 <= k <= upto <= s.len(),
        forall|j: int| k <= j < upto ==> is_space(s[j]),
        k == 0 || !is_space(s[k - 1]),
    ensures
        last_non_space_end(s, upto) == k,
    decreases upto - k,
{
    if k < upto {
        lemma_last_non_space_end_is(s, upto - 1, k);
    }
}

/// Remove leading and trailing whitespace.
pub fn trim_chars(v: &Vec<char>) -> (r: Vec<char>)
    ensures
        r@ == spec_trim(v@),
{
    let mut a: usize = 0;
    while a < v.len() && is_space_char(v[a])
        invariant
            a <= v@.len(),
            forall|j: int| 0 <= j < a ==> is_space(v@[j]),
        decreases v@.len() - a,
    {
        a = a + 1;
    }
    proof {
        lemma_first_non_space_is(v@, 0, a as int);
    }
    let mut b: usize = v.len();
    while b > a && is_space_char(v[b - 1])
        invariant
            a <= b <= v@.len(),
            forall|j: int| b <= j < v@.len() ==> is_space(v@[j]),
        decreases b,
    {
        b = b - 1;
    }
    if b == a {
        if a == v.len() {
            proof {
                lemma_last_non_space_end_is(v@, v@.len() as int, 0);
            }
            let r: Vec<char> = Vec::new();
            assert(r@ =~= spec_trim(v@));
            return r;
        }
        // b == a < len and v[a] is not a space, so b > a: contradiction below.
        assert(!is_space(v@[a as int]));
        assert(is_space(v@[b as int]));
        assert(false);
    }
    proof {
        lemma_last_non_space_end_is(v@, v@.len() as int, b as int);
    }
    subvec(v, a, b)
}

/// Every space replaced by a hyphen.
pub open spec fn spec_replace_spaces(s: Seq<char>) -> Seq<char> {
    s.map_values(|c: char| if c == ' ' { '-' } else { c })
}

/// Replace every space by a hyphen.
pub fn replace_spaces_chars(v: &Vec<char>) -> (r: Vec<char>)
    ensures
        r@ == spec_replace_spaces(v@),
{
    let mut r: Vec<char> = Vec::new();
    let mut i: usize = 0;
    proof {
        assert(r@ =~= spec_replace_spaces(v@.subrange(0, 0)));
    }
    while i < v.len()
        invariant
            i <= v@.len(),
            r@ == spec_replace_spaces(v@.subrange(0, i as int)),
        decreases v@.len() - i,
    {
        let c = v[i];
        if c == ' ' {
            r.push('-');
        } else {
            r.push(c);
        }
        assert(r@ =~= spec_replace_spaces(v@.subrange(0, i + 1)));
        i = i + 1;
    }
    assert(v@.subrange(0, v@.len() as int) =~= v@);
    r
}

/// The text with every slug-punctuation character removed.
pub open spec fn spec_remove_punct(s: Seq<char>) -> Seq<char>
    decreases s.len(),
{
    if s.len() == 0 {
        Seq::empty()
    } else if is_slug_punct(s[0]) {
        spec_remove_punct(s.drop_first())
    } else {
        seq![s[0]] + spec_remove_punct(s.drop_first())
    }
}

/// Remove every slug-punctuation character.
pub fn remove_punct_chars(v: &Vec<char>) -> (r: Vec<char>)
    ensures
        r@ == spec_remove_punct(v@),
{
    let mut r: Vec<char> = Vec::new();
    let mut i: usize = 0;
    proof {
        assert(v@.subrange(0, v@.len() as int) =~= v@);
    }
    while i < v.len()
        invariant
            i <= v@.len(),
            spec_remove_punct(v@) == r@ + spec_remove_punct(v@.subrange(i as int, v@.len() as int)),
        decreases v@.len() - i,
    {
        let ghost rest = v@.subrange(i as int, v@.len() as int);
        proof {
            assert(rest[0] == v@[i as int]);
            assert(rest.drop_first() =~= v@.subrange(i + 1, v@.len() as int));
        }
        let c = v[i];
        if !is_slug_punct_char(c) {
            let ghost pre = r@;
            r.push(c);
            proof {
                assert(r@ + spec_remove_punct(rest.drop_first()) =~= pre + (seq![c]
                    + spec_remove_punct(rest.drop_first())));
            }
        }
        i = i + 1;
    }
    proof {
        assert(spec_remove_punct(v@.subrange(i as int, v@.len() as int)) =~= Seq::<char>::empty());
        assert(r@ + Seq::<char>::empty() =~= r@);
    }
    r
}

/// ASCII-only lower-casing of the whole text.
pub open spec fn spec_fold_lower(s: Seq<char>) -> Seq<char> {
    s.map_values(|c: char| fold_ascii(c))
}

/// Lower-case the ASCII letters.
pub fn fold_lower_chars(v: &Vec<char>) -> (r: Vec<char>)
    ensures
        r@ == spec_fold_lower(v@),
{
    let mut r: Vec<char> = Vec::new();
    let mut i: usize = 0;
    proof {
        assert(r@ =~= spec_fold_lower(v@.subrange(0, 0)));
    }
    while i < v.len()
        invariant
            i <= v@.len(),
            r@ == spec_fold_lower(v@.subrange(0, i as int)),
        decreases v@.len() - i,
    {
        r.push(fold_ascii_char(v[i]));
        assert(r@ =~= spec_fold_lower(v@.subrange(0, i + 1)));
        i = i + 1;
    }
    assert(v@.subrange(0, v@.len() as int) =~= v@);
    r
}

/// The slug of a heading text: links stripped, whitespace trimmed, spaces
/// turned into hyphens, punctuation removed, ASCII letters lower-cased.
pub open spec fn spec_text_to_url(s: Seq<char>) -> Seq<char> {
    spec_fold_lower(spec_remove_punct(spec_replace_spaces(spec_trim(spec_strip_links(s)))))
}

/// The slug pipeline over character vectors.
pub fn text_to_url_chars(v: &Vec<char>) -> (r: Vec<char>)
    ensures
        r@ == spec_text_to_url(v@),
{
    let stripped = strip_links_chars(v);
    let trimmed = trim_chars(&stripped);
    let dashed = replace_spaces_chars(&trimmed);
    let plain = remove_punct_chars(&dashed);
    fold_lower_chars(&plain)
}

/// Remove inline Markdown links: every `[label](target)` becomes `label`.
pub fn strip_markdown_links(text: &str) -> (r: String)
    ensures
        r@ == spec_strip_links(text@),
{
    let v = str_to_chars(text);
    let out = strip_links_chars(&v);
    chars_to_string(&out)
}

/// Convert a heading text to the URL fragment used as its anchor. The
/// replacements are a best-effort guess based on observations of GitHub link
/// rendering.
pub fn text_to_url(text: &str) -> (r: String)
    ensures
        r@ == spec_text_to_url(text@),
{
    let v = str_to_chars(text);
    let out = text_to_url_chars(&v);
    chars_to_string(&out)
}

} // verus!
