//! The document splicer: finds the first sentinel-bounded region and replaces
//! it, sentinels included, with the freshly rendered table of contents.

use vstd::prelude::*;
use crate::render::end_comment;
use crate::text::{
    match_at, spec_find, find_sub, prefix_at, lemma_find_range, str_to_chars, chars_to_string,
    subvec, extend_sub, extend_all,
};

verus! {

/// The text every begin sentinel starts with.
pub open spec fn begin_prefix() -> Seq<char> {
    "<!-- BEGIN mktoc"@
}

/// The closing delimiter of an HTML comment.
pub open spec fn comment_close() -> Seq<char> {
    "-->"@
}

/// Position `p` starts a line of `s`.
pub open spec fn is_line_start(s: Seq<char>, p: int) -> bool {
    p == 0 || (0 < p <= s.len() && s[p - 1] == '\n')
}

/// The sentinel-bounded region starting at line-start position `p`: the
/// begin-sentinel prefix, the first comment close after it, and the first end
/// sentinel after that. Returns the position just past the end sentinel.
pub open spec fn region_at(s: Seq<char>, p: int) -> Option<int> {
    if !(is_line_start(s, p) && match_at(s, begin_prefix(), p)) {
        None
    } else {
        match spec_find(s, comment_close(), p + begin_prefix().len() as int) {
            None => None,
            Some(j) => match spec_find(s, end_comment(), j + comment_close().len() as int) {
                None => None,
                Some(k) => Some(k + end_comment().len() as int),
            },
        }
    }
}

/// The first position at or after `from` where a complete region starts,
/// with the region's end.
pub open spec fn spec_find_region(s: Seq<char>, from: int) -> Option<(int, int)>
    decreases s.len() - from + 1,
{
    if from < 0 || from >= s.len() {
        None
    } else {
        match region_at(s, from) {
            Some(e) => Some((from, e)),
            None => spec_find_region(s, from + 1),
        }
    }
}

/// The region bounds are ordered and the region starts with the sentinel
/// prefix at a line start.
pub proof fn lemma_find_region_range(s: Seq<char>, from: int)
    ensures
        spec_find_region(s, from) matches Some(r) ==> {
            &&& from <= r.0 < s.len()
            &&& r.0 + begin_prefix().len() <= r.1 <= s.len()
            &&& is_line_start(s, r.0)
            &&& match_at(s, begin_prefix(), r.0)
            &&& region_at(s, r.0) == Some(r.1)
        },
    decreases s.len() - from + 1,
{
    if !(from < 0 || from >= s.len()) {
        match region_at(s, from) {
            Some(e) => {
                let j = spec_find(s, comment_close(), from + begin_prefix().len() as int)->Some_0;
                lemma_find_range(s, comment_close(), from + begin_prefix().len() as int, j);
                let k = spec_find(s, end_comment(), j + comment_close().len() as int)->Some_0;
                lemma_find_range(s, end_comment(), j + comment_close().len() as int, k);
            },
            None => {
                lemma_find_region_range(s, from + 1);
            },
        }
    }
}

/// No region starts before the one `spec_find_region` found.
pub proof fn lemma_find_region_covers(s: Seq<char>, from: int, q: int)
    requires
        0 <= from <= q,
    ensures
        spec_find_region(s, from) is None ==> region_at(s, q) is None,
        (spec_find_region(s, from) matches Some(r) && q < r.0) ==> region_at(s, q) is None,
    decreases q - from,
{
    reveal_strlit("<!-- BEGIN mktoc");
    if !(from < 0 || from >= s.len()) && region_at(s, from) is None && from < q {
        lemma_find_region_covers(s, from + 1, q);
    }
}

/// A region at `p` with none before it pins `spec_find_region` down.
pub proof fn lemma_find_region_is_first(s: Seq<char>, from: int, p: int, e: int)
    requires
        0 <= from <= p < s.len(),
        region_at(s, p) == Some(e),
        forall|q: int| from <= q < p ==> region_at(s, q) is None,
    ensures
        spec_find_region(s, from) == Some((p, e)),
    decreases p - from,
{
    if from < p {
        lemma_find_region_is_first(s, from + 1, p, e);
    }
}

/// The document with its first sentinel-bounded region replaced by `toc`;
/// a document without such a region is returned unchanged.
pub open spec fn spec_splice(s: Seq<char>, toc: Seq<char>) -> Seq<char> {
    match spec_find_region(s, 0) {
        None => s,
        Some(r) => s.subrange(0, r.0) + toc + s.subrange(r.1, s.len() as int),
    }
}

/// Find the first sentinel-bounded region of the document.
pub fn find_region(v: &Vec<char>) -> (r: Option<(usize, usize)>)
    ensures
        match r {
            Some(t) => spec_find_region(v@, 0) == Some((t.0 as int, t.1 as int)),
            None => spec_find_region(v@, 0) is None,
        },
{
    let bpat = str_to_chars("<!-- BEGIN mktoc");
    let apat = str_to_chars("-->");
    let epat = str_to_chars("<!-- END mktoc -->");
    proof {
        reveal_strlit("-->");
        reveal_strlit("<!-- END mktoc -->");
    }
    let mut p: usize = 0;
    loop
        invariant
            bpat@ == begin_prefix(),
            apat@ == comment_close(),
            epat@ == end_comment(),
            apat@.len() >= 1,
            epat@.len() >= 1,
            spec_find_region(v@, 0) == spec_find_region(v@, p as int),
        decreases v@.len() - p,
    {
        if p >= v.len() {
            return None;
        }
        let at_line_start: bool = p == 0 || v[p - 1] == '\n';
        if at_line_start && prefix_at(v, &bpat, p) {
            match find_sub(v, &apat, p + bpat.len()) {
                None => {
                    assert(region_at(v@, p as int) is None);
                    p = p + 1;
                },
                Some(j) => {
                    proof {
                        lemma_find_range(v@, apat@, p + bpat@.len() as int, j as int);
                    }
                    match find_sub(v, &epat, j + apat.len()) {
                        None => {
                            assert(region_at(v@, p as int) is None);
                            p = p + 1;
                        },
                        Some(k) => {
                            proof {
                                lemma_find_range(v@, epat@, j + apat@.len() as int, k as int);
                            }
                            return Some((p, k + epat.len()));
                        },
                    }
                },
            }
        } else {
            assert(region_at(v@, p as int) is None);
            p = p + 1;
        }
    }
}

/// Replace the first sentinel-bounded region of the document with the new
/// table of contents; everything outside the region is preserved verbatim,
/// and a document without a region is returned unchanged.
pub fn add_toc(original_content: String, new_toc: String) -> (res: String)
    ensures
        res@ == spec_splice(original_content@, new_toc@),
{
    let v = str_to_chars(original_content.as_str());
    match find_region(&v) {
        None => original_content,
        Some(r) => {
            let (p, e) = r;
            proof {
                lemma_find_region_range(v@, 0);
            }
            let t = str_to_chars(new_toc.as_str());
            let mut out = subvec(&v, 0, p);
            extend_all(&mut out, &t);
            extend_sub(&mut out, &v, e, v.len());
            chars_to_string(&out)
        },
    }
}

} // verus!
