//! The heading scanner: walks document lines, tracks fenced-code-block state,
//! and yields the headings with their level and link-stripped display text.

use vstd::prelude::*;
use crate::text::{is_space, is_space_char, views_of};
use crate::slug::{spec_strip_links, strip_links_chars};

verus! {

/// A line that opens or closes a fenced code block: it starts with three
/// backticks.
pub open spec fn is_fence(line: Seq<char>) -> bool {
    line.len() >= 3 && line[0] == '`' && line[1] == '`' && line[2] == '`'
}

/// Executable test for [`is_fence`].
pub fn is_fence_line(line: &Vec<char>) -> (r: bool)
    ensures
        r == is_fence(line@),
{
    line.len() >= 3 && line[0] == '`' && line[1] == '`' && line[2] == '`'
}

/// Length of the run of `#` characters starting at `i`.
pub open spec fn hash_run(line: Seq<char>, i: int) -> int
    decreases line.len() - i + 1,
{
    if i < 0 || i >= line.len() || line[i] != '#' {
        0
    } else {
        1 + hash_run(line, i + 1)
    }
}

proof fn lemma_hash_run_bound(line: Seq<char>, i: int)
    requires
        0 <= i <= line.len(),
    ensures
        0 <= hash_run(line, i),
        i + hash_run(line, i) <= line.len(),
    decreases line.len() - i + 1,
{
    if !(i >= line.len() || line[i] != '#') {
        lemma_hash_run_bound(line, i + 1);
    }
}

proof fn lemma_hash_run_is(line: Seq<char>, i: int, j: int)
    requires
        0 <= i <= j <= line.len(),
        forall|k: int| i <= k < j ==> line[k] == '#',
        j == line.len() || line[j] != '#',
    ensures
        hash_run(line, i) == j - i,
    decreases j - i,
{
    if i < j {
        lemma_hash_run_is(line, i + 1, j);
    }
}

/// A heading pattern matches at position `i`: a run of one to six `#`
/// characters followed by a whitespace character.
pub open spec fn spec_hmatch_at(line: Seq<char>, i: int) -> bool {
    &&& 0 <= i < line.len()
    &&& line[i] == '#'
    &&& hash_run(line, i) <= 6
    &&& i + hash_run(line, i) < line.len()
    &&& is_space(line[i + hash_run(line, i)])
}

/// The first position at or after `from` where the heading pattern matches.
pub open spec fn spec_find_hmatch(line: Seq<char>, from: int) -> Option<int>
    decreases line.len() - from + 1,
{
    if from < 0 || from >= line.len() {
        None
    } else if spec_hmatch_at(line, from) {
        Some(from)
    } else {
        spec_find_hmatch(line, from + 1)
    }
}

proof fn lemma_find_hmatch_is_first(line: Seq<char>, from: int, k: int)
    requires
        0 <= from <= k,
        spec_hmatch_at(line, k),
        forall|j: int| from <= j < k ==> !spec_hmatch_at(line, j),
    ensures
        spec_find_hmatch(line, from) == Some(k),
    decreases k - from,
{
    if from < k {
        lemma_find_hmatch_is_first(line, from + 1, k);
    }
}

proof fn lemma_find_hmatch_none(line: Seq<char>, from: int)
    requires
        0 <= from,
        forall|j: int| from <= j ==> !spec_hmatch_at(line, j),
    ensures
        spec_find_hmatch(line, from) is None,
    decreases line.len() - from + 1,
{
    if from < line.len() {
        lemma_find_hmatch_none(line, from + 1);
    }
}

/// The heading parsed from a line, if any: the line must begin with `#`, and
/// the first heading-pattern match gives the level (the length of the `#`
/// run) and the raw heading text (everything after the single whitespace
/// character that follows the run).
pub open spec fn spec_heading_of(line: Seq<char>) -> Option<(int, Seq<char>)> {
    if line.len() == 0 || line[0] != '#' {
        None
    } else {
        match spec_find_hmatch(line, 0) {
            None => None,
            Some(i) => Some(
                (
                    hash_run(line, i),
                    line.subrange(i + hash_run(line, i) + 1, line.len() as int),
                ),
            ),
        }
    }
}

/// Length of the `#` run starting at `i`.
fn hash_run_at(line: &Vec<char>, i: usize) -> (r: usize)
    requires
        i <= line@.len(),
    ensures
        r as int == hash_run(line@, i as int),
        i + r <= line@.len(),
{
    let mut j: usize = i;
    while j < line.len() && line[j] == '#'
        invariant
            i <= j <= line@.len(),
            forall|k: int| i <= k < j ==> line@[k] == '#',
        decreases line@.len() - j,
    {
        j = j + 1;
    }
    proof {
        lemma_hash_run_is(line@, i as int, j as int);
    }
    j - i
}

/// Parse a heading from a line.
pub fn heading_of_line(line: &Vec<char>) -> (r: Option<(i32, Vec<char>)>)
    ensures
        match r {
            Some(t) => spec_heading_of(line@) == Some((t.0 as int, t.1@)) && 1 <= t.0 <= 6,
            None => spec_heading_of(line@) is None,
        },
{
    if line.len() == 0 || line[0] != '#' {
        return None;
    }
    let mut i: usize = 0;
    loop
        invariant
            i <= line@.len(),
            line@.len() > 0,
            line@[0] == '#',
            forall|j: int| 0 <= j < i ==> !spec_hmatch_at(line@, j),
        decreases line@.len() - i,
    {
        if i >= line.len() {
            proof {
                assert forall|j: int| 0 <= j implies !spec_hmatch_at(line@, j) by {
                    if j >= i {
                        assert(!(j < line@.len()));
                    }
                }
                lemma_find_hmatch_none(line@, 0);
            }
            return None;
        }
        let run = hash_run_at(line, i);
        if line[i] == '#' && run <= 6 && i + run < line.len() && is_space_char(line[i + run]) {
            assert(spec_hmatch_at(line@, i as int));
            proof {
                lemma_find_hmatch_is_first(line@, 0, i as int);
            }
            let text = crate::text::subvec(line, i + run + 1, line.len());
            return Some((run as i32, text));
        }
        assert(!spec_hmatch_at(line@, i as int));
        i = i + 1;
    }
}

/// A heading entry: a level between one and six, and the link-stripped
/// display text.
pub struct Entry {
    pub level: i32,
    pub text: Vec<char>,
}

impl View for Entry {
    type V = (int, Seq<char>);

    open spec fn view(&self) -> (int, Seq<char>) {
        (self.level as int, self.text@)
    }
}

/// The views of a sequence of entries.
pub open spec fn entry_views(r: Seq<Entry>) -> Seq<(int, Seq<char>)> {
    Seq::new(r.len(), |i: int| r[i]@)
}

/// The headings scanned from the lines of a document, in document order:
/// fence lines toggle the fence state, lines inside a fenced block are never
/// headings, and headings outside the depth range are filtered out. A fence
/// that is opened and never closed suppresses all later headings.
pub open spec fn spec_scan(lines: Seq<Seq<char>>, inside: bool, min: int, max: int) -> Seq<
    (int, Seq<char>),
>
    decreases lines.len(),
{
    if lines.len() == 0 {
        Seq::empty()
    } else {
        let line = lines[0];
        let rest = lines.drop_first();
        if is_fence(line) {
            spec_scan(rest, !inside, min, max)
        } else if inside {
            spec_scan(rest, inside, min, max)
        } else {
            match spec_heading_of(line) {
                Some(t) => if min <= t.0 <= max {
                    seq![(t.0, spec_strip_links(t.1))] + spec_scan(rest, inside, min, max)
                } else {
                    spec_scan(rest, inside, min, max)
                },
                None => spec_scan(rest, inside, min, max),
            }
        }
    }
}

/// The fence state after scanning all of `lines`, starting from `st`.
pub open spec fn out_state(lines: Seq<Seq<char>>, st: bool) -> bool
    decreases lines.len(),
{
    if lines.len() == 0 {
        st
    } else {
        out_state(
            lines.drop_first(),
            if is_fence(lines[0]) {
                !st
            } else {
                st
            },
        )
    }
}

/// The scan distributes over concatenation of line blocks, threading the
/// fence state through the first block.
pub proof fn lemma_scan_concat(l1: Seq<Seq<char>>, l2: Seq<Seq<char>>, st: bool, min: int, max: int)
    ensures
        spec_scan(l1 + l2, st, min, max) == spec_scan(l1, st, min, max) + spec_scan(
            l2,
            out_state(l1, st),
            min,
            max,
        ),
    decreases l1.len(),
{
    if l1.len() == 0 {
        assert(l1 + l2 =~= l2);
        assert(spec_scan(l1, st, min, max) + spec_scan(l2, st, min, max) =~= spec_scan(
            l2,
            st,
            min,
            max,
        ));
    } else {
        assert((l1 + l2)[0] == l1[0]);
        assert((l1 + l2).drop_first() =~= l1.drop_first() + l2);
        let st1 = if is_fence(l1[0]) {
            !st
        } else {
            st
        };
        lemma_scan_concat(l1.drop_first(), l2, st1, min, max);
        if !is_fence(l1[0]) && !st {
            match spec_heading_of(l1[0]) {
                Some(t) => {
                    if min <= t.0 <= max {
                        assert(seq![(t.0, spec_strip_links(t.1))] + (spec_scan(
                            l1.drop_first(),
                            st,
                            min,
                            max,
                        ) + spec_scan(l2, out_state(l1, st), min, max)) =~= (seq![
                            (t.0, spec_strip_links(t.1)),
                        ] + spec_scan(l1.drop_first(), st, min, max)) + spec_scan(
                            l2,
                            out_state(l1, st),
                            min,
                            max,
                        ));
                    }
                },
                None => {
                },
            }
        }
    }
}

/// A line that is neither a fence nor a heading: it contributes nothing to
/// the scan and leaves the fence state alone.
pub open spec fn inert_line(l: Seq<char>) -> bool {
    !is_fence(l) && spec_heading_of(l) is None
}

/// A block of inert lines scans to nothing, whatever the state.
pub proof fn lemma_scan_inert(l1: Seq<Seq<char>>, st: bool, min: int, max: int)
    requires
        forall|i: int| 0 <= i < l1.len() ==> inert_line(#[trigger] l1[i]),
    ensures
        spec_scan(l1, st, min, max) == Seq::<(int, Seq<char>)>::empty(),
        out_state(l1, st) == st,
    decreases l1.len(),
{
    if l1.len() > 0 {
        assert(inert_line(l1[0]));
        assert forall|i: int| 0 <= i < l1.drop_first().len() implies inert_line(
            #[trigger] l1.drop_first()[i],
        ) by {
            assert(l1.drop_first()[i] == l1[i + 1]);
        }
        lemma_scan_inert(l1.drop_first(), st, min, max);
    }
}

/// Scan the lines of a document for headings within the depth range.
pub fn scan_headings(lines: &Vec<Vec<char>>, min: i32, max: i32) -> (r: Vec<Entry>)
    ensures
        entry_views(r@) == spec_scan(views_of(lines@), false, min as int, max as int),
        forall|k: int| 0 <= k < r@.len() ==> 1 <= (#[trigger] r@[k]).level <= 6,
{
    let ghost all = views_of(lines@);
    let mut r: Vec<Entry> = Vec::new();
    let mut inside: bool = false;
    let mut i: usize = 0;
    proof {
        assert(all.subrange(0, all.len() as int) =~= all);
        assert(entry_views(r@) =~= Seq::<(int, Seq<char>)>::empty());
        assert(entry_views(r@) + spec_scan(all, false, min as int, max as int) =~= spec_scan(
            all,
            false,
            min as int,
            max as int,
        ));
    }
    while i < lines.len()
        invariant
            i <= lines@.len(),
            all == views_of(lines@),
            spec_scan(all, false, min as int, max as int) == entry_views(r@) + spec_scan(
                all.subrange(i as int, all.len() as int),
                inside,
                min as int,
                max as int,
            ),
            forall|k: int| 0 <= k < r@.len() ==> 1 <= (#[trigger] r@[k]).level <= 6,
        decreases lines@.len() - i,
    {
        let ghost rest = all.subrange(i as int, all.len() as int);
        proof {
            assert(rest[0] == lines@[i as int]@);
            assert(rest.drop_first() =~= all.subrange(i + 1, all.len() as int));
        }
        let line = &lines[i];
        if is_fence_line(line) {
            inside = !inside;
        } else if !inside {
            match heading_of_line(line) {
                Some(t) => {
                    let (level, raw) = t;
                    if min <= level && level <= max {
                        let text = strip_links_chars(&raw);
                        let ghost pre = entry_views(r@);
                        let e = Entry { level, text };
                        let ghost ev = e@;
                        r.push(e);
                        proof {
                            assert(entry_views(r@) =~= pre.push(ev));
                            assert(entry_views(r@) + spec_scan(
                                rest.drop_first(),
                                inside,
                                min as int,
                                max as int,
                            ) =~= pre + (seq![ev] + spec_scan(
                                rest.drop_first(),
                                inside,
                                min as int,
                                max as int,
                            )));
                        }
                    }
                },
                None => {
                },
            }
        }
        i = i + 1;
    }
    proof {
        assert(all.subrange(i as int, all.len() as int) =~= Seq::<Seq<char>>::empty());
        assert(entry_views(r@) + spec_scan(
            Seq::<Seq<char>>::empty(),
            inside,
            min as int,
            max as int,
        ) =~= entry_views(r@));
    }
    r
}

} // verus!
