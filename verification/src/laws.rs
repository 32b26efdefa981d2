//! Laws the library keeps, stated over the same spec functions the public
//! contracts use.

use vstd::prelude::*;
use crate::config::{CfgModel, spec_resolve};
use crate::render::{end_comment, spec_body, spec_cleanup, spec_generate_toc, spec_render};
use crate::scan::{
    spec_scan, spec_heading_of, is_fence, inert_line, out_state, lemma_scan_concat,
    lemma_scan_inert,
};
use crate::slug::{spec_text_to_url, spec_remove_punct, spec_replace_spaces, spec_trim,
    spec_strip_links};
use crate::splice::{
    begin_prefix, comment_close, is_line_start, region_at, spec_find_region, spec_splice,
    lemma_find_region_range, lemma_find_region_covers, lemma_find_region_is_first,
};
use crate::text::{
    spec_lines, match_at, spec_find, lemma_find_range, lemma_find_covers, lemma_find_exists,
    lemma_find_is_first, lemma_lines_split,
};
use crate::spec_make_toc;

verus! {

/// Slug determinism: the slug is a pure function of the heading text —
/// equal inputs, Unicode and emoji included, give equal slugs.
pub proof fn lemma_slug_deterministic(a: Seq<char>, b: Seq<char>)
    requires
        a == b,
    ensures
        spec_text_to_url(a) == spec_text_to_url(b),
{
}

/// The slug's final pass folds ASCII letters only: every character of the
/// slug is the ASCII fold of the corresponding character before the pass,
/// and the fold leaves every character outside `A`..`Z` unchanged.
pub proof fn lemma_slug_ascii_fold(s: Seq<char>)
    ensures
        ({
            let pre = spec_remove_punct(spec_replace_spaces(spec_trim(spec_strip_links(s))));
            &&& spec_text_to_url(s).len() == pre.len()
            &&& forall|i: int|
                0 <= i < pre.len() ==> spec_text_to_url(s)[i] == crate::text::fold_ascii(
                    #[trigger] pre[i],
                )
        }),
{
}

/// The ASCII fold never yields an upper-case ASCII letter, and it moves
/// nothing but the letters `A` through `Z`.
pub proof fn lemma_fold_ascii_range(c: char)
    ensures
        !('A' <= crate::text::fold_ascii(c) <= 'Z'),
        !('A' <= c <= 'Z') ==> crate::text::fold_ascii(c) == c,
{
}

/// The fence state before line `i`, starting from state `st`: each fence
/// line seen so far toggles it.
pub open spec fn fence_state(lines: Seq<Seq<char>>, st: bool, i: int) -> bool
    decreases i,
{
    if i <= 0 {
        st
    } else {
        let prev = fence_state(lines, st, i - 1);
        if i - 1 < lines.len() && is_fence(lines[i - 1]) {
            !prev
        } else {
            prev
        }
    }
}

/// The headings of the lines read without any fence tracking: every heading
/// line within the depth range contributes exactly one entry, in order.
pub open spec fn spec_headings_all(lines: Seq<Seq<char>>, min: int, max: int) -> Seq<
    (int, Seq<char>),
>
    decreases lines.len(),
{
    if lines.len() == 0 {
        Seq::empty()
    } else {
        let rest = spec_headings_all(lines.drop_first(), min, max);
        match spec_heading_of(lines[0]) {
            Some(t) => if min <= t.0 <= max {
                seq![(t.0, spec_strip_links(t.1))] + rest
            } else {
                rest
            },
            None => rest,
        }
    }
}

proof fn lemma_fence_state_shift(lines: Seq<Seq<char>>, st: bool, i: int)
    requires
        lines.len() > 0,
        0 <= i,
    ensures
        fence_state(
            lines.drop_first(),
            if is_fence(lines[0]) {
                !st
            } else {
                st
            },
            i,
        ) == fence_state(lines, st, i + 1),
    decreases i,
{
    let rest = lines.drop_first();
    let st1 = if is_fence(lines[0]) {
        !st
    } else {
        st
    };
    if i > 0 {
        lemma_fence_state_shift(lines, st, i - 1);
        assert(fence_state(rest, st1, i - 1) == fence_state(lines, st, i));
        if i - 1 < rest.len() {
            assert(rest[i - 1] == lines[i]);
        }
        assert(rest.len() == lines.len() - 1);
    } else {
        assert(fence_state(rest, st1, 0) == st1);
        assert(fence_state(lines, st, 0) == st);
        assert(fence_state(lines, st, 1) == if 0 < lines.len() && is_fence(lines[0]) {
            !st
        } else {
            st
        });
    }
}

proof fn lemma_scan_completeness_from(lines: Seq<Seq<char>>, st: bool, min: int, max: int)
    requires
        forall|i: int|
            0 <= i < lines.len() && fence_state(lines, st, i) ==> spec_heading_of(
                #[trigger] lines[i],
            ) is None,
    ensures
        spec_scan(lines, st, min, max) == spec_headings_all(lines, min, max),
    decreases lines.len(),
{
    if lines.len() > 0 {
        let line = lines[0];
        let rest = lines.drop_first();
        let st1 = if is_fence(line) {
            !st
        } else {
            st
        };
        assert(fence_state(lines, st, 0) == st);
        assert forall|i: int|
            0 <= i < rest.len() && fence_state(rest, st1, i) implies spec_heading_of(
            #[trigger] rest[i],
        ) is None by {
            lemma_fence_state_shift(lines, st, i);
            assert(rest[i] == lines[i + 1]);
        }
        lemma_scan_completeness_from(rest, st1, min, max);
        if is_fence(line) {
            assert(line[0] == '`');
            assert(spec_heading_of(line) is None);
        }
    }
}

/// Completeness of the scan: in a document where no line inside a fenced
/// code block parses as a heading, the scan yields exactly the in-range
/// heading lines of the document — each exactly once, in document order —
/// whatever depth range is configured.
pub proof fn lemma_scan_completeness(text: Seq<char>, min: int, max: int)
    requires
        forall|i: int|
            0 <= i < spec_lines(text).len() && fence_state(spec_lines(text), false, i)
                ==> spec_heading_of(#[trigger] spec_lines(text)[i]) is None,
    ensures
        spec_scan(spec_lines(text), false, min, max) == spec_headings_all(
            spec_lines(text),
            min,
            max,
        ),
{
    lemma_scan_completeness_from(spec_lines(text), false, min, max);
}

/// The generated block lists the document's headings: in a document where no
/// line inside a fenced code block parses as a heading, the block is the
/// render of exactly the in-range heading lines, in document order — and the
/// render emits one link line per entry by construction.
pub proof fn lemma_toc_lists_every_heading(text: Seq<char>, cfg: CfgModel)
    requires
        forall|i: int|
            0 <= i < spec_lines(text).len() && fence_state(spec_lines(text), false, i)
                ==> spec_heading_of(#[trigger] spec_lines(text)[i]) is None,
    ensures
        spec_generate_toc(text, cfg) == spec_render(
            spec_headings_all(spec_lines(text), cfg.min_depth, cfg.max_depth),
            cfg.start_comment,
            cfg.wrap_in_details,
        ),
{
    lemma_scan_completeness(text, cfg.min_depth, cfg.max_depth);
}

/// A document without a sentinel pair is returned unmodified.
pub proof fn lemma_no_region_unchanged(text: Seq<char>, c: CfgModel)
    requires
        spec_find_region(text, 0) is None,
    ensures
        spec_make_toc(text, c) == text,
{
}

/// The bare begin sentinel has the shape the idempotence law asks of the
/// sentinel text: it starts with the sentinel prefix and closes as an HTML
/// comment past it.
pub proof fn lemma_default_start_comment_shape()
    ensures
        match_at(crate::config::spec_default_config().start_comment, begin_prefix(), 0),
        match_at(crate::config::spec_default_config().start_comment, comment_close(), 17),
{
    reveal_strlit("<!-- BEGIN mktoc -->");
    reveal_strlit("<!-- BEGIN mktoc");
    reveal_strlit("-->");
    let sc = crate::config::spec_default_config().start_comment;
    assert(sc.subrange(0, 16) =~= begin_prefix());
    assert(sc.subrange(17, 20) =~= comment_close());
}

/// A begin sentinel written in the common single-space form around an
/// embedded object has that shape too.
pub proof fn lemma_json_start_comment_shape(j: Seq<char>)
    ensures
        ({
            let sc = "<!-- BEGIN mktoc "@ + j + " -->"@;
            &&& match_at(sc, begin_prefix(), 0)
            &&& match_at(sc, comment_close(), sc.len() - 3)
        }),
{
    reveal_strlit("<!-- BEGIN mktoc ");
    reveal_strlit("<!-- BEGIN mktoc");
    reveal_strlit(" -->");
    reveal_strlit("-->");
    let sc = "<!-- BEGIN mktoc "@ + j + " -->"@;
    assert(sc.subrange(0, 16) =~= begin_prefix());
    assert(sc.subrange(sc.len() - 3, sc.len() as int) =~= comment_close());
}

/// Every line of the text is inert: neither a fence nor a heading.
pub open spec fn all_lines_inert(s: Seq<char>) -> bool {
    forall|i: int| 0 <= i < spec_lines(s).len() ==> inert_line(#[trigger] spec_lines(s)[i])
}

/// The old region content, together with the line break that ends its line
/// (when one follows it).
pub open spec fn region_with_break(d: Seq<char>, p: int, e: int) -> Seq<char> {
    if e == d.len() {
        d.subrange(p, e)
    } else {
        d.subrange(p, e + 1)
    }
}

/// The new block, together with the line break that will end its line (when
/// one follows the region it replaces).
pub open spec fn block_with_break(d: Seq<char>, e: int, toc: Seq<char>) -> Seq<char> {
    if e == d.len() {
        toc
    } else {
        toc + seq!['\n']
    }
}

/// Replacing the region does not change the headings seen: when the region
/// ends its line and both its old content and the new block consist of lines
/// that are neither fences nor headings, the scan of the spliced document
/// equals the scan of the original. This discharges the scan condition of
/// the idempotence law from conditions on the texts alone.
pub proof fn lemma_splice_preserves_scan(d: Seq<char>, toc: Seq<char>, mn: int, mx: int)
    requires
        spec_find_region(d, 0) is Some,
        ({
            let r = spec_find_region(d, 0)->Some_0;
            &&& r.1 == d.len() || d[r.1] == '\n'
            &&& all_lines_inert(region_with_break(d, r.0, r.1))
            &&& all_lines_inert(block_with_break(d, r.1, toc))
        }),
    ensures
        spec_scan(spec_lines(spec_splice(d, toc)), false, mn, mx) == spec_scan(
            spec_lines(d),
            false,
            mn,
            mx,
        ),
{
    lemma_find_region_range(d, 0);
    let r = spec_find_region(d, 0)->Some_0;
    let p = r.0;
    let e = r.1;
    let cut = if e == d.len() {
        e
    } else {
        e + 1
    };
    let mid = region_with_break(d, p, e);
    let tmid = block_with_break(d, e, toc);
    assert(mid == d.subrange(p, cut));
    let pre = d.subrange(0, p);
    let rest = d.subrange(cut, d.len() as int);
    let dd = spec_splice(d, toc);
    assert(dd == pre + toc + d.subrange(e, d.len() as int));
    assert(dd.len() >= p);
    assert(p == 0 || dd[p - 1] == d[p - 1]);
    lemma_lines_split(d, p);
    lemma_lines_split(dd, p);
    assert(dd.subrange(0, p) =~= pre);
    let lpre = spec_lines(pre);
    let st1 = out_state(lpre, false);
    if e == d.len() {
        assert(d.subrange(p, d.len() as int) =~= mid);
        assert(dd.subrange(p, dd.len() as int) =~= tmid);
        assert(spec_lines(d) == lpre + spec_lines(mid));
        assert(spec_lines(dd) == lpre + spec_lines(tmid));
        lemma_scan_concat(lpre, spec_lines(mid), false, mn, mx);
        lemma_scan_concat(lpre, spec_lines(tmid), false, mn, mx);
        lemma_scan_inert(spec_lines(mid), st1, mn, mx);
        lemma_scan_inert(spec_lines(tmid), st1, mn, mx);
    } else {
        let dp = d.subrange(p, d.len() as int);
        assert(dp[cut - p - 1] == d[e]);
        lemma_lines_split(dp, cut - p);
        assert(dp.subrange(0, cut - p) =~= mid);
        assert(dp.subrange(cut - p, dp.len() as int) =~= rest);
        assert(spec_lines(d) == lpre + (spec_lines(mid) + spec_lines(rest)));
        let ddp = dd.subrange(p, dd.len() as int);
        assert(ddp =~= tmid + rest);
        assert(tmid.len() >= 1);
        assert(ddp[tmid.len() - 1] == '\n');
        lemma_lines_split(ddp, tmid.len() as int);
        assert(ddp.subrange(0, tmid.len() as int) =~= tmid);
        assert(ddp.subrange(tmid.len() as int, ddp.len() as int) =~= rest);
        assert(spec_lines(dd) == lpre + (spec_lines(tmid) + spec_lines(rest)));
        lemma_scan_concat(lpre, spec_lines(mid) + spec_lines(rest), false, mn, mx);
        lemma_scan_concat(lpre, spec_lines(tmid) + spec_lines(rest), false, mn, mx);
        lemma_scan_concat(spec_lines(mid), spec_lines(rest), st1, mn, mx);
        lemma_scan_concat(spec_lines(tmid), spec_lines(rest), st1, mn, mx);
        lemma_scan_inert(spec_lines(mid), st1, mn, mx);
        lemma_scan_inert(spec_lines(tmid), st1, mn, mx);
        assert(spec_scan(spec_lines(d), false, mn, mx) =~= spec_scan(lpre, false, mn, mx)
            + spec_scan(spec_lines(rest), st1, mn, mx));
        assert(spec_scan(spec_lines(dd), false, mn, mx) =~= spec_scan(lpre, false, mn, mx)
            + spec_scan(spec_lines(rest), st1, mn, mx));
    }
}

/// Idempotence of generation: running the pipeline on its own output changes
/// nothing, under the conditions that make the first output stable — the
/// resolved configuration is unchanged by the first pass, the headings seen
/// are unchanged by the replacement (none lie inside the replaced region or
/// depend on its fence state), the begin-sentinel text is an HTML comment
/// built on the sentinel prefix, and the rendered block holds the end
/// sentinel only at its tail.
pub proof fn lemma_make_toc_idempotent(d: Seq<char>, c: CfgModel)
    requires
        ({
            let cfg = spec_resolve(d, c);
            let d1 = spec_make_toc(d, c);
            let toc = spec_generate_toc(d, cfg);
            &&& spec_resolve(d1, c) == cfg
            &&& spec_scan(spec_lines(d1), false, cfg.min_depth, cfg.max_depth) == spec_scan(
                spec_lines(d),
                false,
                cfg.min_depth,
                cfg.max_depth,
            )
            &&& match_at(cfg.start_comment, begin_prefix(), 0)
            &&& exists|a: int|
                begin_prefix().len() <= a && match_at(cfg.start_comment, comment_close(), a)
            &&& forall|m: int|
                0 <= m < toc.len() - end_comment().len() ==> !match_at(toc, end_comment(), m)
        }),
    ensures
        spec_make_toc(spec_make_toc(d, c), c) == spec_make_toc(d, c),
{
    reveal_strlit("<!-- BEGIN mktoc");
    reveal_strlit("-->");
    reveal_strlit("<!-- END mktoc -->");
    assert(begin_prefix().len() == 16);
    assert(comment_close().len() == 3);
    assert(end_comment().len() == 18);
    let cfg = spec_resolve(d, c);
    let sc = cfg.start_comment;
    let mn = cfg.min_depth;
    let mx = cfg.max_depth;
    let entries = spec_scan(spec_lines(d), false, mn, mx);
    let toc = spec_generate_toc(d, cfg);
    let d1 = spec_splice(d, toc);
    assert(spec_make_toc(d, c) == d1);
    match spec_find_region(d, 0) {
        None => {
            assert(d1 == d);
        },
        Some(r) => {
            let p = r.0;
            let e = r.1;
            lemma_find_region_range(d, 0);
            let prefix = d.subrange(0, p);
            let suffix = d.subrange(e, d.len() as int);
            assert(d1 == prefix + toc + suffix);

            // Whichever shape is rendered, the block is the sentinel text,
            // a middle of at least two characters, and the end sentinel.
            let mid = if cfg.wrap_in_details {
                "\n<details><summary>Table of Contents</summary>\n"@ + spec_cleanup(
                    spec_body(entries),
                ) + "\n\n</details>\n"@
            } else {
                seq!['\n'] + spec_body(entries) + seq!['\n']
            };
            if cfg.wrap_in_details {
                reveal_strlit("\n<details><summary>Table of Contents</summary>\n");
                reveal_strlit("\n\n</details>\n");
            }
            assert(toc =~= sc + mid + end_comment());
            let tlen = toc.len() as int;
            assert(tlen == sc.len() + mid.len() + 18);
            assert(mid.len() >= 2);
            assert(sc.len() >= 16);

            // The characters of the output around the region start.
            assert(d1.len() == p + tlen + suffix.len());
            assert forall|i: int| 0 <= i < p implies d1[i] == d[i] by {
                assert(d1[i] == prefix[i]);
            }
            assert forall|i: int| 0 <= i < tlen implies d1[p + i] == toc[i] by {}
            assert forall|i: int| p + tlen <= i < d1.len() implies d1[i] == d[e + i - p - tlen]
                by {}

            // The first sixteen characters of the block are the sentinel
            // prefix, exactly as they were in the document.
            assert forall|i: int| 0 <= i < 16 implies toc[i] == begin_prefix()[i] by {
                assert(toc[i] == sc[i]);
                assert(sc.subrange(0, 16)[i] == sc[i]);
                assert(sc.subrange(0, 16) == begin_prefix());
            }
            assert forall|i: int| p <= i < p + 16 implies d1[i] == d[i] by {
                assert(d1[i] == toc[i - p]);
                assert(toc[i - p] == begin_prefix()[i - p]);
                assert(d.subrange(p, p + 16)[i - p] == d[i]);
                assert(d.subrange(p, p + 16) == begin_prefix());
            }

            // No region can start before `p` in the output, because none
            // could in the document, and the completions existed there.
            let j0 = spec_find(d, comment_close(), p + 16)->Some_0;
            let k0 = spec_find(d, end_comment(), j0 + 3)->Some_0;
            lemma_find_range(d, comment_close(), p + 16, j0);
            lemma_find_range(d, end_comment(), j0 + 3, k0);
            assert forall|q: int| 0 <= q < p implies !(is_line_start(d1, q) && match_at(
                d1,
                begin_prefix(),
                q,
            )) by {
                lemma_find_region_covers(d, 0, q);
                assert(region_at(d, q) is None);
                lemma_find_exists(d, comment_close(), q + 16, j0);
                let jq = spec_find(d, comment_close(), q + 16)->Some_0;
                lemma_find_range(d, comment_close(), q + 16, jq);
                lemma_find_covers(d, comment_close(), q + 16, j0);
                assert(jq <= j0);
                lemma_find_exists(d, end_comment(), jq + 3, k0);
                assert(!(is_line_start(d, q) && match_at(d, begin_prefix(), q)));
                if is_line_start(d1, q) && match_at(d1, begin_prefix(), q) {
                    assert(is_line_start(d, q));
                    assert(d.subrange(q, q + 16) =~= d1.subrange(q, q + 16));
                    assert(match_at(d, begin_prefix(), q));
                }
            }
            assert forall|q: int| 0 <= q < p implies region_at(d1, q) is None by {}

            // The region of the output starts at `p` and spans exactly the
            // rendered block.
            assert(is_line_start(d1, p));
            assert(d1.subrange(p, p + 16) =~= begin_prefix());
            assert(match_at(d1, begin_prefix(), p));
            let a = choose|a: int|
                begin_prefix().len() <= a && match_at(sc, comment_close(), a);
            assert(match_at(d1, comment_close(), p + a)) by {
                assert(a + 3 <= sc.len());
                assert forall|t: int| 0 <= t < 3 implies d1.subrange(p + a, p + a + 3)[t]
                    == comment_close()[t] by {
                    assert(d1.subrange(p + a, p + a + 3)[t] == d1[p + a + t]);
                    assert(d1[p + a + t] == toc[a + t]);
                    assert(toc[a + t] == sc[a + t]);
                    assert(sc.subrange(a, a + 3)[t] == sc[a + t]);
                    assert(sc.subrange(a, a + 3) == comment_close());
                }
                assert(d1.subrange(p + a, p + a + 3) =~= comment_close());
            }
            lemma_find_exists(d1, comment_close(), p + 16, p + a);
            let j1 = spec_find(d1, comment_close(), p + 16)->Some_0;
            lemma_find_range(d1, comment_close(), p + 16, j1);
            lemma_find_covers(d1, comment_close(), p + 16, p + a);
            assert(j1 <= p + a);
            assert(j1 + 3 <= p + sc.len());

            // The end sentinel stands at the block's tail and nowhere before.
            assert(match_at(d1, end_comment(), p + tlen - 18)) by {
                assert forall|t: int| 0 <= t < 18 implies d1.subrange(
                    p + tlen - 18,
                    p + tlen,
                )[t] == end_comment()[t] by {
                    assert(d1.subrange(p + tlen - 18, p + tlen)[t] == d1[p + tlen - 18 + t]);
                    assert(d1[p + tlen - 18 + t] == toc[tlen - 18 + t]);
                }
                assert(d1.subrange(p + tlen - 18, p + tlen) =~= end_comment());
            }
            assert forall|m: int| j1 + 3 <= m < p + tlen - 18 implies !match_at(
                d1,
                end_comment(),
                m,
            ) by {
                if match_at(d1, end_comment(), m) {
                    assert forall|t: int| 0 <= t < 18 implies #[trigger] toc.subrange(
                        m - p,
                        m - p + 18,
                    )[t] == d1.subrange(m, m + 18)[t] by {
                        assert(toc.subrange(m - p, m - p + 18)[t] == toc[m - p + t]);
                        assert(d1.subrange(m, m + 18)[t] == d1[m + t]);
                        assert(d1[m + t] == toc[m - p + t]);
                    }
                    assert(toc.subrange(m - p, m - p + 18) =~= d1.subrange(m, m + 18));
                    assert(match_at(toc, end_comment(), m - p));
                    assert(0 <= m - p < tlen - 18);
                }
            }
            lemma_find_is_first(d1, end_comment(), j1 + 3, p + tlen - 18);
            assert(region_at(d1, p) == Some(p + tlen));
            lemma_find_region_is_first(d1, 0, p, p + tlen);
            assert(spec_find_region(d1, 0) == Some((p, p + tlen)));

            // The second pass resolves the same configuration, scans the
            // same headings, renders the same block, and puts it back in
            // the same place.
            assert(spec_resolve(d1, c) == cfg);
            assert(spec_generate_toc(d1, cfg) == spec_render(entries, sc, cfg.wrap_in_details));
            assert(spec_generate_toc(d1, cfg) == toc);
            assert(spec_make_toc(d1, c) == d1.subrange(0, p) + toc + d1.subrange(
                p + tlen,
                d1.len() as int,
            ));
            assert(d1.subrange(0, p) =~= prefix);
            assert(d1.subrange(p + tlen, d1.len() as int) =~= suffix);
            assert(spec_make_toc(d1, c) == d1);
        },
    }
}

/// Idempotence from conditions on the texts alone: with a region that ends
/// its line, whose old content is inert, a rendered block whose lines are
/// inert and that holds the end sentinel only at its tail, a well-shaped
/// sentinel text and a resolution the first pass leaves unchanged, the
/// second pass returns the first pass's output unchanged.
pub proof fn lemma_make_toc_idempotent_inert(d: Seq<char>, c: CfgModel)
    requires
        ({
            let cfg = spec_resolve(d, c);
            let toc = spec_generate_toc(d, cfg);
            &&& spec_resolve(spec_make_toc(d, c), c) == cfg
            &&& match_at(cfg.start_comment, begin_prefix(), 0)
            &&& exists|a: int|
                begin_prefix().len() <= a && match_at(cfg.start_comment, comment_close(), a)
            &&& forall|m: int|
                0 <= m < toc.len() - end_comment().len() ==> !match_at(toc, end_comment(), m)
            &&& spec_find_region(d, 0) matches Some(r) ==> {
                &&& r.1 == d.len() || d[r.1] == '\n'
                &&& all_lines_inert(region_with_break(d, r.0, r.1))
                &&& all_lines_inert(block_with_break(d, r.1, toc))
            }
        }),
    ensures
        spec_make_toc(spec_make_toc(d, c), c) == spec_make_toc(d, c),
{
    let cfg = spec_resolve(d, c);
    let toc = spec_generate_toc(d, cfg);
    match spec_find_region(d, 0) {
        None => {
            assert(spec_make_toc(d, c) == d);
        },
        Some(r) => {
            lemma_splice_preserves_scan(d, toc, cfg.min_depth, cfg.max_depth);
            assert(spec_make_toc(d, c) == spec_splice(d, toc));
        },
    }
    lemma_make_toc_idempotent(d, c);
}

} // verus!
