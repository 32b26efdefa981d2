//! Character-level utilities shared by the scanner, the slug encoder and the
//! splicer: character classes, substring search, and line splitting with the
//! same semantics as Rust's `str::lines`.

use vstd::prelude::*;

verus! {

/// The Unicode `White_Space` characters: the set matched by `char::is_whitespace`.
pub open spec fn is_space(c: char) -> bool {
    c == ' ' || c == '\t' || c == '\n' || c == '\u{b}' || c == '\u{c}' || c == '\r'
        || c == '\u{85}' || c == '\u{a0}' || c == '\u{1680}' || c == '\u{2000}'
        || c == '\u{2001}' || c == '\u{2002}' || c == '\u{2003}' || c == '\u{2004}'
        || c == '\u{2005}' || c == '\u{2006}' || c == '\u{2007}' || c == '\u{2008}'
        || c == '\u{2009}' || c == '\u{200a}' || c == '\u{2028}' || c == '\u{2029}'
        || c == '\u{202f}' || c == '\u{205f}' || c == '\u{3000}'
}

/// Executable test for [`is_space`].
pub fn is_space_char(c: char) -> (r: bool)
    ensures
        r == is_space(c),
{
    c == ' ' || c == '\t' || c == '\n' || c == '\u{b}' || c == '\u{c}' || c == '\r'
        || c == '\u{85}' || c == '\u{a0}' || c == '\u{1680}' || c == '\u{2000}'
        || c == '\u{2001}' || c == '\u{2002}' || c == '\u{2003}' || c == '\u{2004}'
        || c == '\u{2005}' || c == '\u{2006}' || c == '\u{2007}' || c == '\u{2008}'
        || c == '\u{2009}' || c == '\u{200a}' || c == '\u{2028}' || c == '\u{2029}'
        || c == '\u{202f}' || c == '\u{205f}' || c == '\u{3000}'
}

/// ASCII-only case folding: `A`..`Z` map to `a`..`z`, all other characters
/// (including non-ASCII letters and emoji) are unchanged.
pub open spec fn fold_ascii(c: char) -> char {
    match c {
        'A' => 'a',
        'B' => 'b',
        'C' => 'c',
        'D' => 'd',
        'E' => 'e',
        'F' => 'f',
        'G' => 'g',
        'H' => 'h',
        'I' => 'i',
        'J' => 'j',
        'K' => 'k',
        'L' => 'l',
        'M' => 'm',
        'N' => 'n',
        'O' => 'o',
        'P' => 'p',
        'Q' => 'q',
        'R' => 'r',
        'S' => 's',
        'T' => 't',
        'U' => 'u',
        'V' => 'v',
        'W' => 'w',
        'X' => 'x',
        'Y' => 'y',
        'Z' => 'z',
        _ => c,
    }
}

/// Executable counterpart of [`fold_ascii`].
pub fn fold_ascii_char(c: char) -> (r: char)
    ensures
        r == fold_ascii(c),
{
    match c {
        'A' => 'a',
        'B' => 'b',
        'C' => 'c',
        'D' => 'd',
        'E' => 'e',
        'F' => 'f',
        'G' => 'g',
        'H' => 'h',
        'I' => 'i',
        'J' => 'j',
        'K' => 'k',
        'L' => 'l',
        'M' => 'm',
        'N' => 'n',
        'O' => 'o',
        'P' => 'p',
        'Q' => 'q',
        'R' => 'r',
        'S' => 's',
        'T' => 't',
        'U' => 'u',
        'V' => 'v',
        'W' => 'w',
        'X' => 'x',
        'Y' => 'y',
        'Z' => 'z',
        _ => c,
    }
}

/// The pattern `pat` occurs in `s` at position `i`.
pub open spec fn match_at(s: Seq<char>, pat: Seq<char>, i: int) -> bool {
    0 <= i && i + pat.len() <= s.len() && s.subrange(i, i + pat.len()) == pat
}

/// Index of the first occurrence of `pat` in `s` at or after `from`.
pub open spec fn spec_find(s: Seq<char>, pat: Seq<char>, from: int) -> Option<int>
    decreases s.len() - from + 1,
{
    if from < 0 || from + pat.len() > s.len() {
        None
    } else if match_at(s, pat, from) {
        Some(from)
    } else {
        spec_find(s, pat, from + 1)
    }
}

/// Index of the first occurrence of the character `c` in `s` at or after `from`.
pub open spec fn spec_find_char(s: Seq<char>, c: char, from: int) -> Option<int>
    decreases s.len() - from,
{
    if from < 0 || from >= s.len() {
        None
    } else if s[from] == c {
        Some(from)
    } else {
        spec_find_char(s, c, from + 1)
    }
}

/// `spec_find` returns the first match: a match at `k` with no match before it
/// pins the result down.
pub proof fn lemma_find_is_first(s: Seq<char>, pat: Seq<char>, from: int, k: int)
    requires
        0 <= from <= k,
        match_at(s, pat, k),
        forall|j: int| from <= j < k ==> !match_at(s, pat, j),
    ensures
        spec_find(s, pat, from) == Some(k),
    decreases k - from,
{
    if from == k {
    } else {
        lemma_find_is_first(s, pat, from + 1, k);
    }
}

/// When no position matches, `spec_find` returns `None`.
pub proof fn lemma_find_none(s: Seq<char>, pat: Seq<char>, from: int)
    requires
        0 <= from,
        forall|j: int| from <= j ==> !match_at(s, pat, j),
    ensures
        spec_find(s, pat, from) is None,
    decreases s.len() - from + 1,
{
    if from + pat.len() <= s.len() {
        lemma_find_none(s, pat, from + 1);
    }
}

/// What a successful `spec_find` means: a match at the result, at or after
/// `from`.
pub proof fn lemma_find_range(s: Seq<char>, pat: Seq<char>, from: int, k: int)
    requires
        spec_find(s, pat, from) == Some(k),
    ensures
        from <= k,
        match_at(s, pat, k),
    decreases s.len() - from + 1,
{
    if !(from < 0 || from + pat.len() > s.len()) {
        if !match_at(s, pat, from) {
            lemma_find_range(s, pat, from + 1, k);
        }
    }
}

/// No match of the pattern lies before the one `spec_find` found.
pub proof fn lemma_find_covers(s: Seq<char>, pat: Seq<char>, from: int, j: int)
    requires
        0 <= from <= j,
    ensures
        (spec_find(s, pat, from) is None) ==> !match_at(s, pat, j),
        (spec_find(s, pat, from) matches Some(k) && j < k) ==> !match_at(s, pat, j),
    decreases j - from,
{
    if !(from < 0 || from + pat.len() > s.len()) && !match_at(s, pat, from) && from < j {
        lemma_find_covers(s, pat, from + 1, j);
    }
}

/// A match somewhere at or after `from` means `spec_find` finds one.
pub proof fn lemma_find_exists(s: Seq<char>, pat: Seq<char>, from: int, k: int)
    requires
        0 <= from <= k,
        match_at(s, pat, k),
    ensures
        spec_find(s, pat, from) is Some,
    decreases k - from,
{
    if from + pat.len() > s.len() {
        assert(k + pat.len() <= s.len());
        assert(false);
    } else if !match_at(s, pat, from) {
        lemma_find_exists(s, pat, from + 1, k);
    }
}

/// `spec_find_char` returns the first occurrence.
pub proof fn lemma_find_char_is_first(s: Seq<char>, c: char, from: int, k: int)
    requires
        0 <= from <= k < s.len(),
        s[k] == c,
        forall|j: int| from <= j < k ==> s[j] != c,
    ensures
        spec_find_char(s, c, from) == Some(k),
    decreases k - from,
{
    if from == k {
    } else {
        lemma_find_char_is_first(s, c, from + 1, k);
    }
}

/// A found character lies between `from` and the end of the text.
pub proof fn lemma_find_char_range(s: Seq<char>, c: char, from: int, k: int)
    requires
        spec_find_char(s, c, from) == Some(k),
    ensures
        from <= k < s.len(),
        s[k] == c,
    decreases s.len() - from,
{
    if !(from < 0 || from >= s.len()) && s[from] != c {
        lemma_find_char_range(s, c, from + 1, k);
    }
}

/// No occurrence of the character lies before the one `spec_find_char` found.
pub proof fn lemma_find_char_covers(s: Seq<char>, c: char, from: int, j: int)
    requires
        0 <= from <= j,
    ensures
        (spec_find_char(s, c, from) is None && j < s.len()) ==> s[j] != c,
        (spec_find_char(s, c, from) matches Some(k) && j < k) ==> s[j] != c,
    decreases j - from,
{
    if from < s.len() && s[from] != c && from < j {
        lemma_find_char_covers(s, c, from + 1, j);
    }
}

/// An occurrence somewhere at or after `from` means `spec_find_char` finds
/// one.
pub proof fn lemma_find_char_exists(s: Seq<char>, c: char, from: int, k: int)
    requires
        0 <= from <= k < s.len(),
        s[k] == c,
    ensures
        spec_find_char(s, c, from) is Some,
    decreases k - from,
{
    if s[from] != c && from < k {
        lemma_find_char_exists(s, c, from + 1, k);
    }
}

/// When the character does not occur, `spec_find_char` returns `None`.
pub proof fn lemma_find_char_none(s: Seq<char>, c: char, from: int)
    requires
        0 <= from,
        forall|j: int| from <= j < s.len() ==> s[j] != c,
    ensures
        spec_find_char(s, c, from) is None,
    decreases s.len() - from,
{
    if from < s.len() {
        lemma_find_char_none(s, c, from + 1);
    }
}

/// First occurrence of `pat` in `v` at or after `from`.
pub fn find_sub(v: &Vec<char>, pat: &Vec<char>, from: usize) -> (r: Option<usize>)
    requires
        pat@.len() >= 1,
    ensures
        match r {
            Some(i) => spec_find(v@, pat@, from as int) == Some(i as int),
            None => spec_find(v@, pat@, from as int) is None,
        },
{
    let mut i: usize = from;
    loop
        invariant
            pat@.len() >= 1,
            from <= i,
            forall|j: int| from <= j < i ==> !match_at(v@, pat@, j),
        decreases v@.len() - i,
    {
        if i > v.len() || v.len() - i < pat.len() {
            proof {
                assert forall|j: int| from <= j implies !match_at(v@, pat@, j) by {
                    if j < i {
                    } else {
                        assert(j + pat@.len() > v@.len());
                    }
                }
                lemma_find_none(v@, pat@, from as int);
            }
            return None;
        }
        if prefix_at(v, pat, i) {
            proof {
                lemma_find_is_first(v@, pat@, from as int, i as int);
            }
            return Some(i);
        }
        i = i + 1;
    }
}

/// First occurrence of the character `c` in `v` at or after `from`.
pub fn find_char(v: &Vec<char>, c: char, from: usize) -> (r: Option<usize>)
    ensures
        match r {
            Some(i) => spec_find_char(v@, c, from as int) == Some(i as int),
            None => spec_find_char(v@, c, from as int) is None,
        },
{
    let mut i: usize = from;
    loop
        invariant
            from <= i,
            forall|j: int| from <= j < i && j < v@.len() ==> v@[j] != c,
        decreases v@.len() - i,
    {
        if i >= v.len() {
            proof {
                lemma_find_char_none(v@, c, from as int);
            }
            return None;
        }
        if v[i] == c {
            proof {
                lemma_find_char_is_first(v@, c, from as int, i as int);
            }
            return Some(i);
        }
        i = i + 1;
    }
}

/// Does `pat` occur in `v` at position `at`?
pub fn prefix_at(v: &Vec<char>, pat: &Vec<char>, at: usize) -> (r: bool)
    ensures
        r == match_at(v@, pat@, at as int),
{
    if at > v.len() || v.len() - at < pat.len() {
        return false;
    }
    let mut k: usize = 0;
    while k < pat.len()
        invariant
            v@.len() <= usize::MAX,
            at + pat@.len() <= v@.len(),
            k <= pat@.len(),
            forall|j: int| 0 <= j < k ==> v@[at + j] == pat@[j],
        decreases pat@.len() - k,
    {
        if v[at + k] != pat[k] {
            assert(v@.subrange(at as int, at + pat@.len())[k as int] != pat@[k as int]);
            return false;
        }
        k = k + 1;
    }
    assert(v@.subrange(at as int, at + pat@.len()) =~= pat@);
    true
}

/// Copy of `v[a..b]`.
pub fn subvec(v: &Vec<char>, a: usize, b: usize) -> (r: Vec<char>)
    requires
        a <= b <= v@.len(),
    ensures
        r@ == v@.subrange(a as int, b as int),
{
    let mut r: Vec<char> = Vec::new();
    let mut i: usize = a;
    while i < b
        invariant
            a <= i <= b <= v@.len(),
            r@ == v@.subrange(a as int, i as int),
        decreases b - i,
    {
        r.push(v[i]);
        assert(r@ =~= v@.subrange(a as int, i + 1));
        i = i + 1;
    }
    r
}

/// Append a copy of `src[a..b]` to `dst`.
pub fn extend_sub(dst: &mut Vec<char>, src: &Vec<char>, a: usize, b: usize)
    requires
        a <= b <= src@.len(),
    ensures
        final(dst)@ == old(dst)@ + src@.subrange(a as int, b as int),
{
    let mut i: usize = a;
    while i < b
        invariant
            a <= i <= b <= src@.len(),
            dst@ == old(dst)@ + src@.subrange(a as int, i as int),
        decreases b - i,
    {
        dst.push(src[i]);
        assert(dst@ =~= old(dst)@ + src@.subrange(a as int, i + 1));
        i = i + 1;
    }
    assert(dst@ =~= old(dst)@ + src@.subrange(a as int, b as int));
}

/// Append all of `src`.
pub fn extend_all(dst: &mut Vec<char>, src: &Vec<char>)
    ensures
        final(dst)@ == old(dst)@ + src@,
{
    extend_sub(dst, src, 0, src.len());
    assert(src@.subrange(0, src@.len() as int) =~= src@);
}

/// The characters of `s`, in order.
pub fn str_to_chars(s: &str) -> (v: Vec<char>)
    ensures
        v@ == s@,
{
    let n = s.unicode_len();
    let mut v: Vec<char> = Vec::new();
    let mut i: usize = 0;
    while i < n
        invariant
            n == s@.len(),
            i <= n,
            v@ == s@.subrange(0, i as int),
        decreases n - i,
    {
        v.push(s.get_char(i));
        assert(v@ =~= s@.subrange(0, i + 1));
        i = i + 1;
    }
    assert(v@ =~= s@);
    v
}

/// Relies on `String::push`: appends exactly the given character.
#[verifier::external_body]
fn push_char(s: &mut String, c: char)
    ensures
        final(s)@ == old(s)@.push(c),
{
    s.push(c);
}

/// The string whose characters are exactly `v`, in order.
pub fn chars_to_string(v: &Vec<char>) -> (s: String)
    ensures
        s@ == v@,
{
    let mut s = String::new();
    let mut i: usize = 0;
    while i < v.len()
        invariant
            i <= v@.len(),
            s@ == v@.subrange(0, i as int),
        decreases v@.len() - i,
    {
        push_char(&mut s, v[i]);
        assert(s@ =~= v@.subrange(0, i + 1));
        i = i + 1;
    }
    assert(s@ =~= v@);
    s
}

/// A trailing carriage return is dropped when the line was ended by `\r\n`.
pub open spec fn strip_cr(l: Seq<char>) -> Seq<char> {
    if l.len() > 0 && l[l.len() - 1] == '\r' {
        l.drop_last()
    } else {
        l
    }
}

/// The lines of `s`, split at `\n`, with a `\r` preceding the `\n` removed and
/// no empty final line: the semantics of `str::lines`.
pub open spec fn spec_lines(s: Seq<char>) -> Seq<Seq<char>>
    decreases s.len(),
    via spec_lines_decreases
{
    if s.len() == 0 {
        Seq::empty()
    } else {
        match spec_find_char(s, '\n', 0) {
            Some(i) => seq![strip_cr(s.subrange(0, i))] + spec_lines(
                s.subrange(i + 1, s.len() as int),
            ),
            None => seq![s],
        }
    }
}

#[via_fn]
proof fn spec_lines_decreases(s: Seq<char>) {
    if s.len() > 0 {
        if let Some(i) = spec_find_char(s, '\n', 0) {
            lemma_find_char_range(s, '\n', 0, i);
        }
    }
}

/// The views of a sequence of character vectors.
pub open spec fn views_of(r: Seq<Vec<char>>) -> Seq<Seq<char>> {
    Seq::new(r.len(), |i: int| r[i]@)
}

/// `views_of` distributes over `push`.
pub proof fn lemma_views_push(r: Seq<Vec<char>>, l: Vec<char>)
    ensures
        views_of(r.push(l)) == views_of(r).push(l@),
{
    assert(views_of(r.push(l)) =~= views_of(r).push(l@));
}

/// Lines split at a line boundary: cutting the text right after a newline
/// cuts its line sequence.
pub proof fn lemma_lines_split(s: Seq<char>, p: int)
    requires
        0 <= p <= s.len(),
        p == 0 || s[p - 1] == '\n',
    ensures
        spec_lines(s) == spec_lines(s.subrange(0, p)) + spec_lines(
            s.subrange(p, s.len() as int),
        ),
    decreases s.len(),
{
    if p == 0 {
        assert(s.subrange(0, 0) =~= Seq::<char>::empty());
        assert(s.subrange(0, s.len() as int) =~= s);
        assert(spec_lines(s.subrange(0, 0)) + spec_lines(s) =~= spec_lines(s));
    } else {
        lemma_find_char_exists(s, '\n', 0, p - 1);
        let i = spec_find_char(s, '\n', 0)->Some_0;
        lemma_find_char_range(s, '\n', 0, i);
        lemma_find_char_covers(s, '\n', 0, p - 1);
        assert(i <= p - 1);
        let head = s.subrange(0, p);
        assert(head[i] == '\n');
        assert forall|j: int| 0 <= j < i implies head[j] != '\n' by {
            lemma_find_char_covers(s, '\n', 0, j);
        }
        lemma_find_char_is_first(head, '\n', 0, i);
        assert(head.subrange(0, i) =~= s.subrange(0, i));
        let tail = s.subrange(i + 1, s.len() as int);
        assert(tail.len() < s.len());
        assert(p - (i + 1) == 0 || tail[p - (i + 1) - 1] == '\n');
        lemma_lines_split(tail, p - (i + 1));
        assert(tail.subrange(0, p - (i + 1)) =~= head.subrange(i + 1, head.len() as int));
        assert(tail.subrange(p - (i + 1), tail.len() as int) =~= s.subrange(p, s.len() as int));
        assert(spec_lines(s) =~= spec_lines(head) + spec_lines(s.subrange(p, s.len() as int)));
    }
}

/// Split `v` into its lines.
pub fn split_lines(v: &Vec<char>) -> (r: Vec<Vec<char>>)
    ensures
        views_of(r@) == spec_lines(v@),
{
    let mut r: Vec<Vec<char>> = Vec::new();
    let mut cur: Vec<char> = Vec::new();
    let mut i: usize = 0;
    proof {
        assert(views_of(r@) =~= Seq::<Seq<char>>::empty());
        assert(cur@ + v@.subrange(0, v@.len() as int) =~= v@);
        assert(views_of(r@) + spec_lines(v@) =~= spec_lines(v@));
    }
    while i < v.len()
        invariant
            i <= v@.len(),
            forall|j: int| 0 <= j < cur@.len() ==> cur@[j] != '\n',
            spec_lines(v@) == views_of(r@) + spec_lines(cur@ + v@.subrange(i as int, v@.len() as int)),
        decreases v@.len() - i,
    {
        let c = v[i];
        if c == '\n' {
            proof {
                let s = cur@ + v@.subrange(i as int, v@.len() as int);
                assert(s[cur@.len() as int] == '\n');
                lemma_find_char_is_first(s, '\n', 0, cur@.len() as int);
                assert(s.subrange(0, cur@.len() as int) =~= cur@);
                assert(s.subrange(cur@.len() as int + 1, s.len() as int) =~= v@.subrange(
                    i + 1,
                    v@.len() as int,
                ));
            }
            let mut line = cur;
            if line.len() > 0 && line[line.len() - 1] == '\r' {
                line.pop();
                assert(line@ =~= strip_cr(cur@));
            }
            let ghost old_r = r@;
            let ghost lv = line@;
            r.push(line);
            proof {
                lemma_views_push(old_r, r@[r@.len() - 1]);
                assert(views_of(r@).last() == lv);
                assert(views_of(r@) =~= views_of(old_r).push(strip_cr(cur@)));
                assert(views_of(r@) + spec_lines(v@.subrange(i + 1, v@.len() as int))
                    =~= views_of(old_r) + (seq![strip_cr(cur@)] + spec_lines(
                    v@.subrange(i + 1, v@.len() as int),
                )));
            }
            cur = Vec::new();
        } else {
            proof {
                assert(cur@ + v@.subrange(i as int, v@.len() as int) =~= cur@.push(c)
                    + v@.subrange(i + 1, v@.len() as int));
            }
            cur.push(c);
        }
        i = i + 1;
    }
    proof {
        assert(cur@ + v@.subrange(i as int, v@.len() as int) =~= cur@);
    }
    if cur.len() > 0 {
        proof {
            lemma_find_char_none(cur@, '\n', 0);
        }
        let ghost old_r = r@;
        let ghost cv = cur@;
        r.push(cur);
        proof {
            lemma_views_push(old_r, r@[r@.len() - 1]);
            assert(views_of(r@) =~= views_of(old_r).push(cv));
            assert(views_of(old_r) + seq![cv] =~= views_of(old_r).push(cv));
        }
    } else {
        proof {
            assert(views_of(r@) + spec_lines(cur@) =~= views_of(r@));
        }
    }
    r
}

} // verus!
