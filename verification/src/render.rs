//! The renderer: turns scanned heading entries into the indented link list
//! between the sentinel comments.

use vstd::prelude::*;
use crate::config::{CfgModel, Config};
use crate::scan::{Entry, entry_views, scan_headings};
use crate::slug::{spec_text_to_url, text_to_url_chars};
use crate::text::{
    spec_find_char, spec_lines, find_char, lemma_find_char_range, lemma_find_char_is_first,
    lemma_find_char_none, str_to_chars, chars_to_string, split_lines, extend_sub, extend_all,
};

verus! {

/// The end sentinel.
pub open spec fn end_comment() -> Seq<char> {
    "<!-- END mktoc -->"@
}

/// Indentation of a rendered entry: two spaces per level beyond two.
pub open spec fn spec_indent(level: int) -> Seq<char> {
    if level == 3 {
        "  "@
    } else if level == 4 {
        "    "@
    } else if level == 5 {
        "      "@
    } else if level == 6 {
        "        "@
    } else {
        Seq::empty()
    }
}

/// One rendered entry: a newline, the indentation, and the link.
pub open spec fn spec_entry_line(e: (int, Seq<char>)) -> Seq<char> {
    seq!['\n'] + spec_indent(e.0) + "- ["@ + e.1 + "](#"@ + spec_text_to_url(e.1) + ")"@
}

/// The rendered list body: the entry lines in order, each preceded by its
/// newline.
pub open spec fn spec_body(entries: Seq<(int, Seq<char>)>) -> Seq<char>
    decreases entries.len(),
{
    if entries.len() == 0 {
        Seq::empty()
    } else {
        spec_entry_line(entries[0]) + spec_body(entries.drop_first())
    }
}

/// `spec_body` distributes over `push`.
pub proof fn lemma_body_push(entries: Seq<(int, Seq<char>)>, e: (int, Seq<char>))
    ensures
        spec_body(entries.push(e)) == spec_body(entries) + spec_entry_line(e),
    decreases entries.len(),
{
    if entries.len() == 0 {
        assert(entries.push(e).drop_first() =~= Seq::<(int, Seq<char>)>::empty());
        assert(entries.push(e)[0] == e);
        assert(spec_body(Seq::<(int, Seq<char>)>::empty()) == Seq::<char>::empty());
        assert(spec_body(entries.push(e)) == spec_entry_line(e) + spec_body(
            Seq::<(int, Seq<char>)>::empty(),
        ));
        assert(spec_body(entries.push(e)) =~= spec_entry_line(e));
        assert(spec_body(entries) + spec_entry_line(e) =~= spec_entry_line(e));
    } else {
        assert(entries.push(e).drop_first() =~= entries.drop_first().push(e));
        lemma_body_push(entries.drop_first(), e);
        assert(spec_body(entries.push(e)) =~= spec_body(entries) + spec_entry_line(e));
    }
}

/// A run of exactly four spaces is removed at the start of every line: four
/// leading spaces inside an HTML wrapper would render as a code block.
pub open spec fn spec_cleanup(s: Seq<char>) -> Seq<char>
    decreases s.len(),
    via spec_cleanup_decreases
{
    if s.len() == 0 {
        Seq::empty()
    } else {
        let t = if s.len() >= 4 && s[0] == ' ' && s[1] == ' ' && s[2] == ' ' && s[3] == ' ' {
            s.subrange(4, s.len() as int)
        } else {
            s
        };
        match spec_find_char(t, '\n', 0) {
            None => t,
            Some(i) => t.subrange(0, i + 1) + spec_cleanup(t.subrange(i + 1, t.len() as int)),
        }
    }
}

#[via_fn]
proof fn spec_cleanup_decreases(s: Seq<char>) {
    if s.len() > 0 {
        let t = if s.len() >= 4 && s[0] == ' ' && s[1] == ' ' && s[2] == ' ' && s[3] == ' ' {
            s.subrange(4, s.len() as int)
        } else {
            s
        };
        if let Some(i) = spec_find_char(t, '\n', 0) {
            lemma_find_char_range(t, '\n', 0, i);
        }
    }
}

/// The rendered block: the begin-sentinel text, the list, and the end
/// sentinel; in wrapped mode the collapsible container around the cleaned
/// list. The block always ends with the end sentinel.
pub open spec fn spec_render(entries: Seq<(int, Seq<char>)>, sc: Seq<char>, wrap: bool) -> Seq<
    char,
> {
    if wrap {
        sc + "\n<details><summary>Table of Contents</summary>\n"@ + spec_cleanup(
            spec_body(entries),
        ) + "\n\n</details>\n"@ + end_comment()
    } else {
        sc + seq!['\n'] + spec_body(entries) + seq!['\n'] + end_comment()
    }
}

/// The table of contents generated for a document: the lines are scanned for
/// headings within the configured depth range and the rendered block is
/// produced.
pub open spec fn spec_generate_toc(text: Seq<char>, cfg: CfgModel) -> Seq<char> {
    spec_render(
        crate::scan::spec_scan(spec_lines(text), false, cfg.min_depth, cfg.max_depth),
        cfg.start_comment,
        cfg.wrap_in_details,
    )
}

/// Append the indentation of `level`.
fn push_indent(out: &mut Vec<char>, level: i32)
    ensures
        final(out)@ == old(out)@ + spec_indent(level as int),
{
    let n: usize = if level == 3 {
        2
    } else if level == 4 {
        4
    } else if level == 5 {
        6
    } else if level == 6 {
        8
    } else {
        0
    };
    let mut k: usize = 0;
    while k < n
        invariant
            k <= n,
            out@ == old(out)@ + Seq::new(k as nat, |j: int| ' '),
        decreases n - k,
    {
        out.push(' ');
        assert(out@ =~= old(out)@ + Seq::new((k + 1) as nat, |j: int| ' '));
        k = k + 1;
    }
    proof {
        if level == 3 {
            reveal_strlit("  ");
            assert(out@ =~= old(out)@ + spec_indent(level as int));
        } else if level == 4 {
            reveal_strlit("    ");
            assert(out@ =~= old(out)@ + spec_indent(level as int));
        } else if level == 5 {
            reveal_strlit("      ");
            assert(out@ =~= old(out)@ + spec_indent(level as int));
        } else if level == 6 {
            reveal_strlit("        ");
            assert(out@ =~= old(out)@ + spec_indent(level as int));
        } else {
            assert(out@ =~= old(out)@ + spec_indent(level as int));
        }
    }
}

/// Append one rendered entry line.
fn push_entry_line(out: &mut Vec<char>, e: &Entry)
    ensures
        final(out)@ == old(out)@ + spec_entry_line(e@),
{
    out.push('\n');
    push_indent(out, e.level);
    let open_link = str_to_chars("- [");
    extend_all(out, &open_link);
    extend_all(out, &e.text);
    let mid_link = str_to_chars("](#");
    extend_all(out, &mid_link);
    let slug = text_to_url_chars(&e.text);
    extend_all(out, &slug);
    let close_link = str_to_chars(")");
    extend_all(out, &close_link);
    assert(out@ =~= old(out)@ + spec_entry_line(e@));
}

/// Render the list body for the scanned entries.
fn render_body(entries: &Vec<Entry>) -> (r: Vec<char>)
    ensures
        r@ == spec_body(entry_views(entries@)),
{
    let mut out: Vec<char> = Vec::new();
    let mut i: usize = 0;
    proof {
        assert(entry_views(entries@).subrange(0, 0) =~= Seq::<(int, Seq<char>)>::empty());
        assert(out@ =~= spec_body(entry_views(entries@).subrange(0, 0)));
    }
    while i < entries.len()
        invariant
            i <= entries@.len(),
            out@ == spec_body(entry_views(entries@).subrange(0, i as int)),
        decreases entries@.len() - i,
    {
        push_entry_line(&mut out, &entries[i]);
        proof {
            lemma_body_push(entry_views(entries@).subrange(0, i as int), entries@[i as int]@);
            assert(entry_views(entries@).subrange(0, i + 1) =~= entry_views(entries@).subrange(
                0,
                i as int,
            ).push(entries@[i as int]@));
        }
        i = i + 1;
    }
    proof {
        assert(entry_views(entries@).subrange(0, entries@.len() as int) =~= entry_views(
            entries@,
        ));
    }
    out
}

/// Remove one run of four leading spaces from every line.
fn cleanup_wrapped_toc(v: &Vec<char>) -> (r: Vec<char>)
    ensures
        r@ == spec_cleanup(v@),
{
    let mut out: Vec<char> = Vec::new();
    let mut pos: usize = 0;
    proof {
        assert(v@.subrange(0, v@.len() as int) =~= v@);
        assert(out@ + spec_cleanup(v@) =~= spec_cleanup(v@));
    }
    loop
        invariant
            pos <= v@.len(),
            spec_cleanup(v@) == out@ + spec_cleanup(v@.subrange(pos as int, v@.len() as int)),
        decreases v@.len() - pos,
    {
        if pos >= v.len() {
            assert(out@ + spec_cleanup(v@.subrange(pos as int, v@.len() as int)) =~= out@);
            return out;
        }
        let ghost rest = v@.subrange(pos as int, v@.len() as int);
        let pos2: usize = if v.len() - pos >= 4 && v[pos] == ' ' && v[pos + 1] == ' ' && v[pos + 2]
            == ' ' && v[pos + 3] == ' ' {
            pos + 4
        } else {
            pos
        };
        let ghost t = v@.subrange(pos2 as int, v@.len() as int);
        proof {
            if pos2 == pos + 4 {
                assert(rest.subrange(4, rest.len() as int) =~= t);
            }
        }
        match find_char(v, '\n', pos2) {
            None => {
                proof {
                    assert forall|j: int| 0 <= j < t.len() implies t[j] != '\n' by {
                        assert(t[j] == v@[pos2 + j]);
                        assert(spec_find_char(v@, '\n', pos2 as int) is None);
                        crate::text::lemma_find_char_covers(v@, '\n', pos2 as int, pos2 + j);
                    }
                    lemma_find_char_none(t, '\n', 0);
                }
                extend_sub(&mut out, v, pos2, v.len());
                return out;
            },
            Some(k) => {
                proof {
                    lemma_find_char_range(v@, '\n', pos2 as int, k as int);
                    assert forall|j: int| 0 <= j < k - pos2 implies t[j] != '\n' by {
                        assert(t[j] == v@[pos2 + j]);
                        crate::text::lemma_find_char_covers(v@, '\n', pos2 as int, pos2 + j);
                    }
                    assert(t[k - pos2] == '\n');
                    lemma_find_char_is_first(t, '\n', 0, k - pos2);
                    assert(t.subrange(0, k - pos2 + 1) =~= v@.subrange(pos2 as int, k + 1));
                    assert(t.subrange(k - pos2 + 1, t.len() as int) =~= v@.subrange(
                        k + 1,
                        v@.len() as int,
                    ));
                }
                let ghost pre = out@;
                extend_sub(&mut out, v, pos2, k + 1);
                proof {
                    assert(out@ + spec_cleanup(v@.subrange(k + 1, v@.len() as int)) =~= pre + (
                    v@.subrange(pos2 as int, k + 1) + spec_cleanup(
                        v@.subrange(k + 1, v@.len() as int),
                    )));
                }
                pos = k + 1;
            },
        }
    }
}

/// Parse a document and build the table-of-contents block for it: heading
/// extraction with code-block awareness, depth filtering, and rendering
/// between the configured sentinels.
pub fn generate_toc(original_content: String, config: Config) -> (r: String)
    ensures
        r@ == spec_generate_toc(original_content@, config@),
{
    let chars = str_to_chars(original_content.as_str());
    let lines = split_lines(&chars);
    let entries = scan_headings(&lines, config.min_depth, config.max_depth);
    let body = render_body(&entries);
    let sc = str_to_chars(config.start_comment.as_str());
    let mut out: Vec<char> = Vec::new();
    extend_all(&mut out, &sc);
    if config.wrap_in_details {
        let opener = str_to_chars("\n<details><summary>Table of Contents</summary>\n");
        extend_all(&mut out, &opener);
        let cleaned = cleanup_wrapped_toc(&body);
        extend_all(&mut out, &cleaned);
        let closer = str_to_chars("\n\n</details>\n");
        extend_all(&mut out, &closer);
        let endc = str_to_chars("<!-- END mktoc -->");
        extend_all(&mut out, &endc);
        assert(out@ =~= spec_generate_toc(original_content@, config@));
    } else {
        out.push('\n');
        extend_all(&mut out, &body);
        out.push('\n');
        let endc = str_to_chars("<!-- END mktoc -->");
        extend_all(&mut out, &endc);
        assert(out@ =~= spec_generate_toc(original_content@, config@));
    }
    chars_to_string(&out)
}

} // verus!
