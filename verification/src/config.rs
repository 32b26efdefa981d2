//! The configuration of a generation run: depth bounds, the collapsible
//! wrapper flag, and the begin-sentinel text that is re-emitted verbatim.

use vstd::prelude::*;
use vstd::string::StringExecFns;
use crate::json::{
    json_doc_ok, json_field_present, json_i64_field, json_bool_field, json_str_field, JsonDoc,
    json_parse, json_get_field, json_field_as_i64, json_field_as_bool, json_field_as_str,
};
use crate::slug::first_non_space;
use crate::text::{
    match_at, spec_find_char, is_space_char, prefix_at, find_char, str_to_chars, chars_to_string,
    subvec, lemma_find_char_range,
};

verus! {

/// Mathematical model of a [`Config`].
pub ghost struct CfgModel {
    pub min_depth: int,
    pub max_depth: int,
    pub wrap_in_details: bool,
    pub start_comment: Seq<char>,
}

/// The configuration options for a table-of-contents run.
#[derive(Debug, Clone)]
pub struct Config {
    /// Lowest heading level included.
    pub min_depth: i32,
    /// Highest heading level included.
    pub max_depth: i32,
    /// Wrap the list in a collapsible container.
    pub wrap_in_details: bool,
    /// The begin-sentinel text (including any embedded configuration) that is
    /// written back in front of the generated list.
    pub start_comment: String,
}

impl View for Config {
    type V = CfgModel;

    open spec fn view(&self) -> CfgModel {
        CfgModel {
            min_depth: self.min_depth as int,
            max_depth: self.max_depth as int,
            wrap_in_details: self.wrap_in_details,
            start_comment: self.start_comment@,
        }
    }
}

/// An out-of-range depth bound is reset to its default.
pub open spec fn spec_clamp(v: int, dflt: int) -> int {
    if v > 6 || v < 1 {
        dflt
    } else {
        v
    }
}

/// The default configuration: the full depth range, no collapsible wrapper,
/// and the bare begin sentinel.
pub open spec fn spec_default_config() -> CfgModel {
    CfgModel {
        min_depth: 1,
        max_depth: 6,
        wrap_in_details: false,
        start_comment: "<!-- BEGIN mktoc -->"@,
    }
}

impl Default for Config {
    /// The default configuration.
    fn default() -> (c: Config)
        ensures
            c@ == spec_default_config(),
    {
        Config {
            min_depth: 1,
            max_depth: 6,
            wrap_in_details: false,
            start_comment: String::from_str("<!-- BEGIN mktoc -->"),
        }
    }
}

impl PartialEq for Config {
    fn eq(&self, other: &Self) -> bool {
        self.max_depth == other.max_depth && self.min_depth == other.min_depth
            && self.wrap_in_details == other.wrap_in_details && self.start_comment
            == other.start_comment
    }
}

impl vstd::std_specs::cmp::PartialEqSpecImpl for Config {
    open spec fn obeys_eq_spec() -> bool {
        true
    }

    open spec fn eq_spec(&self, other: &Self) -> bool {
        self.min_depth == other.min_depth && self.max_depth == other.max_depth
            && self.wrap_in_details == other.wrap_in_details && self.start_comment@
            == other.start_comment@
    }
}

impl Config {
    /// Reset the depth bounds to their defaults where they lie outside one
    /// through six. Out-of-range values are never an error.
    pub fn ensure_min_max(&mut self)
        ensures
            final(self).max_depth as int == spec_clamp(old(self).max_depth as int, 6),
            final(self).min_depth as int == spec_clamp(old(self).min_depth as int, 1),
            final(self).wrap_in_details == old(self).wrap_in_details,
            final(self).start_comment@ == old(self).start_comment@,
    {
        if self.max_depth > 6 || self.max_depth < 1 {
            self.max_depth = 6;
        }
        if self.min_depth < 1 || self.min_depth > 6 {
            self.min_depth = 1;
        }
    }
}

/// A begin sentinel carrying a JSON object, matched at position `p`: the
/// comment opener, optional whitespace, the `BEGIN mktoc` tag, optional
/// whitespace, and a brace-delimited object on one line, closed by optional
/// whitespace and the comment delimiter. Returns the bounds of the object
/// and the end of the whole comment.
pub open spec fn json_sentinel_at(s: Seq<char>, p: int) -> Option<(int, int, int)> {
    if !match_at(s, "<!--"@, p) {
        None
    } else {
        let b = first_non_space(s, p + "<!--"@.len() as int);
        if !match_at(s, "BEGIN mktoc"@, b) {
            None
        } else {
            let j = first_non_space(s, b + "BEGIN mktoc"@.len() as int);
            if !(j < s.len() && s[j] == '{') {
                None
            } else {
                let eol = match spec_find_char(s, '\n', j + 1) {
                    Some(x) => x,
                    None => s.len() as int,
                };
                match json_end(s, j, eol) {
                    None => None,
                    Some(e) => Some((j, e, first_non_space(s, e) + "-->"@.len() as int)),
                }
            }
        }
    }
}

/// The end of the JSON object opened at `j`: the largest `e` at most the end
/// of the line such that the character before `e` is a closing brace and only
/// whitespace stands between `e` and the comment delimiter.
pub open spec fn json_end(s: Seq<char>, j: int, e: int) -> Option<int>
    decreases e - j,
{
    if e < j + 2 {
        None
    } else if e <= s.len() && s[e - 1] == '}' && arrow_after_ws(s, e) {
        Some(e)
    } else {
        json_end(s, j, e - 1)
    }
}

/// Only whitespace stands between `e` and the comment delimiter.
pub open spec fn arrow_after_ws(s: Seq<char>, e: int) -> bool {
    match_at(s, "-->"@, first_non_space(s, e))
}

/// The first begin sentinel with an embedded JSON object, searched from
/// `from`: the start of the comment, the bounds of the object, and the end
/// of the comment.
pub open spec fn spec_find_json_sentinel(s: Seq<char>, from: int) -> Option<(int, int, int, int)>
    decreases s.len() - from + 1,
{
    if from < 0 || from >= s.len() {
        None
    } else {
        match json_sentinel_at(s, from) {
            Some(t) => Some((from, t.0, t.1, t.2)),
            None => spec_find_json_sentinel(s, from + 1),
        }
    }
}

proof fn lemma_json_end_range(s: Seq<char>, j: int, e0: int)
    ensures
        json_end(s, j, e0) matches Some(e) ==> j + 2 <= e <= e0 && e <= s.len()
            && arrow_after_ws(s, e),
    decreases e0 - j,
{
    if !(e0 < j + 2) {
        if !(e0 <= s.len() && s[e0 - 1] == '}' && arrow_after_ws(s, e0)) {
            lemma_json_end_range(s, j, e0 - 1);
        }
    }
}

/// The bounds of a found sentinel are ordered and lie within the text: the
/// comment starts before the object, which is at least two characters long,
/// and the comment close ends the match.
pub proof fn lemma_find_json_sentinel_range(s: Seq<char>, from: int)
    ensures
        spec_find_json_sentinel(s, from) matches Some(t) ==> {
            &&& 0 <= t.0 < t.1 < s.len()
            &&& t.1 + 2 <= t.2 <= s.len()
            &&& t.2 + 3 <= t.3 <= s.len()
            &&& s[t.1] == '{'
        },
    decreases s.len() - from + 1,
{
    reveal_strlit("<!--");
    reveal_strlit("BEGIN mktoc");
    reveal_strlit("-->");
    if !(from < 0 || from >= s.len()) {
        match json_sentinel_at(s, from) {
            Some(t) => {
                let b = first_non_space(s, from + "<!--"@.len() as int);
                crate::slug::lemma_first_non_space_range(s, from + "<!--"@.len() as int);
                let j = first_non_space(s, b + "BEGIN mktoc"@.len() as int);
                crate::slug::lemma_first_non_space_range(s, b + "BEGIN mktoc"@.len() as int);
                let eol = match spec_find_char(s, '\n', j + 1) {
                    Some(x) => x,
                    None => s.len() as int,
                };
                lemma_json_end_range(s, j, eol);
                let e = json_end(s, j, eol)->Some_0;
                crate::slug::lemma_first_non_space_range(s, e);
            },
            None => {
                lemma_find_json_sentinel_range(s, from + 1);
            },
        }
    }
}

/// Index just past the run of whitespace starting at `from`.
fn skip_ws(v: &Vec<char>, from: usize) -> (r: usize)
    ensures
        r as int == first_non_space(v@, from as int),
        r <= v@.len(),
{
    let mut i: usize = from;
    loop
        invariant
            first_non_space(v@, from as int) == first_non_space(v@, i as int),
        decreases v@.len() - i,
    {
        if i >= v.len() {
            return v.len();
        }
        if !is_space_char(v[i]) {
            return i;
        }
        i = i + 1;
    }
}

/// Walk back from the end of the line to the closing brace of the object.
fn json_end_exec(v: &Vec<char>, j: usize, e0: usize, apat: &Vec<char>) -> (r: Option<usize>)
    requires
        apat@ == "-->"@,
        e0 <= v@.len(),
    ensures
        match r {
            Some(e) => json_end(v@, j as int, e0 as int) == Some(e as int),
            None => json_end(v@, j as int, e0 as int) is None,
        },
{
    let mut e: usize = e0;
    loop
        invariant
            apat@ == "-->"@,
            e <= e0 <= v@.len(),
            json_end(v@, j as int, e0 as int) == json_end(v@, j as int, e as int),
        decreases e,
    {
        if e < 2 {
            return None;
        }
        if e - 2 < j {
            return None;
        }
        let wpos = skip_ws(v, e);
        let ok = v[e - 1] == '}' && prefix_at(v, apat, wpos);
        if ok {
            return Some(e);
        }
        assert(!(e <= v@.len() && v@[e - 1] == '}' && arrow_after_ws(v@, e as int)));
        e = e - 1;
    }
}

/// Find the first begin sentinel with an embedded JSON object.
fn find_json_sentinel(v: &Vec<char>) -> (r: Option<(usize, usize, usize, usize)>)
    ensures
        match r {
            Some(t) => spec_find_json_sentinel(v@, 0) == Some(
                (t.0 as int, t.1 as int, t.2 as int, t.3 as int),
            ),
            None => spec_find_json_sentinel(v@, 0) is None,
        },
{
    let op = str_to_chars("<!--");
    let bm = str_to_chars("BEGIN mktoc");
    let ap = str_to_chars("-->");
    let mut p: usize = 0;
    loop
        invariant
            op@ == "<!--"@,
            bm@ == "BEGIN mktoc"@,
            ap@ == "-->"@,
            spec_find_json_sentinel(v@, 0) == spec_find_json_sentinel(v@, p as int),
        decreases v@.len() - p,
    {
        if p >= v.len() {
            return None;
        }
        if prefix_at(v, &op, p) {
            let b = skip_ws(v, p + op.len());
            if prefix_at(v, &bm, b) {
                let j = skip_ws(v, b + bm.len());
                if j < v.len() && v[j] == '{' {
                    let eol: usize = match find_char(v, '\n', j + 1) {
                        Some(x) => {
                            proof {
                                lemma_find_char_range(v@, '\n', j + 1, x as int);
                            }
                            x
                        },
                        None => v.len(),
                    };
                    match json_end_exec(v, j, eol, &ap) {
                        Some(e) => {
                            proof {
                                lemma_json_end_range(v@, j as int, eol as int);
                            }
                            let wpos = skip_ws(v, e);
                            assert(wpos + ap@.len() <= v@.len());
                            let send = wpos + ap.len();
                            assert(json_sentinel_at(v@, p as int) == Some(
                                (j as int, e as int, send as int),
                            ));
                            return Some((p, j, e, send));
                        },
                        None => {
                            assert(json_sentinel_at(v@, p as int) is None);
                        },
                    }
                } else {
                    assert(json_sentinel_at(v@, p as int) is None);
                }
            } else {
                assert(json_sentinel_at(v@, p as int) is None);
            }
        } else {
            assert(json_sentinel_at(v@, p as int) is None);
        }
        p = p + 1;
    }
}

/// The reading of an integer depth field: the default where the key is
/// absent, the value where it reads as an integer that fits, and a failure
/// of the whole embedded configuration otherwise.
pub open spec fn spec_i32_field(j: Seq<char>, key: Seq<char>, dflt: int) -> Option<int> {
    if !json_field_present(j, key) {
        Some(dflt)
    } else {
        match json_i64_field(j, key) {
            Some(v) => if i32::MIN as i64 <= v <= i32::MAX as i64 {
                Some(v as int)
            } else {
                None
            },
            None => None,
        }
    }
}

/// The reading of a boolean field, with its default.
pub open spec fn spec_bool_field(j: Seq<char>, key: Seq<char>, dflt: bool) -> Option<bool> {
    if !json_field_present(j, key) {
        Some(dflt)
    } else {
        json_bool_field(j, key)
    }
}

/// A string-typed field is either absent or reads as a string.
pub open spec fn spec_str_field_ok(j: Seq<char>, key: Seq<char>) -> bool {
    !json_field_present(j, key) || json_str_field(j, key) is Some
}

/// The embedded configuration read from the JSON object text: depth bounds,
/// wrapper flag — or nothing, where the object does not parse or a present
/// field has the wrong type.
pub open spec fn spec_embedded_cfg(j: Seq<char>) -> Option<(int, int, bool)> {
    if !json_doc_ok(j) {
        None
    } else {
        let minf = spec_i32_field(j, "min_depth"@, 1);
        let maxf = spec_i32_field(j, "max_depth"@, 6);
        let wrapf = spec_bool_field(j, "wrap_in_details"@, false);
        if minf is Some && maxf is Some && wrapf is Some && spec_str_field_ok(
            j,
            "start_comment"@,
        ) {
            Some((minf->Some_0, maxf->Some_0, wrapf->Some_0))
        } else {
            None
        }
    }
}

fn i32_field(d: &JsonDoc, key: &str, dflt: i32) -> (r: Option<i32>)
    ensures
        match r {
            Some(x) => spec_i32_field(d.text_view(), key@, dflt as int) == Some(x as int),
            None => spec_i32_field(d.text_view(), key@, dflt as int) is None,
        },
{
    match json_get_field(d, key) {
        None => Some(dflt),
        Some(f) => match json_field_as_i64(&f) {
            Some(v) => if i32::MIN as i64 <= v && v <= i32::MAX as i64 {
                Some(v as i32)
            } else {
                None
            },
            None => None,
        },
    }
}

fn bool_field(d: &JsonDoc, key: &str, dflt: bool) -> (r: Option<bool>)
    ensures
        match r {
            Some(x) => spec_bool_field(d.text_view(), key@, dflt) == Some(x),
            None => spec_bool_field(d.text_view(), key@, dflt) is None,
        },
{
    match json_get_field(d, key) {
        None => Some(dflt),
        Some(f) => json_field_as_bool(&f),
    }
}

fn str_field_ok(d: &JsonDoc, key: &str) -> (r: bool)
    ensures
        r == spec_str_field_ok(d.text_view(), key@),
{
    match json_get_field(d, key) {
        None => true,
        Some(f) => match json_field_as_str(&f) {
            Some(_t) => true,
            None => false,
        },
    }
}

/// Read the embedded configuration from the JSON object text.
fn parse_embedded(j: &str) -> (r: Option<(i32, i32, bool)>)
    ensures
        match r {
            Some(t) => spec_embedded_cfg(j@) == Some((t.0 as int, t.1 as int, t.2)),
            None => spec_embedded_cfg(j@) is None,
        },
{
    let d = match json_parse(j) {
        Some(d) => d,
        None => {
            return None;
        },
    };
    let minv = match i32_field(&d, "min_depth", 1) {
        Some(x) => x,
        None => {
            return None;
        },
    };
    let maxv = match i32_field(&d, "max_depth", 6) {
        Some(x) => x,
        None => {
            return None;
        },
    };
    let wrapv = match bool_field(&d, "wrap_in_details", false) {
        Some(x) => x,
        None => {
            return None;
        },
    };
    if !str_field_ok(&d, "start_comment") {
        return None;
    }
    Some((minv, maxv, wrapv))
}

/// The configuration resolved from a document, and whether an embedded
/// configuration was found: with an embedded JSON object that reads as a
/// configuration, its clamped depth bounds and the sentinel comment's exact
/// original text (preserved byte-for-byte for regeneration); otherwise the
/// default configuration, carrying that original sentinel text where an
/// object was present but did not read, and the bare sentinel where none
/// was.
pub open spec fn spec_parse_json_config(s: Seq<char>) -> (CfgModel, bool) {
    match spec_find_json_sentinel(s, 0) {
        None => (spec_default_config(), false),
        Some(t) => {
            let jstr = s.subrange(t.1, t.2);
            let sc = s.subrange(t.0, t.3);
            match spec_embedded_cfg(jstr) {
                None => (
                    CfgModel {
                        min_depth: 1,
                        max_depth: 6,
                        wrap_in_details: false,
                        start_comment: sc,
                    },
                    false,
                ),
                Some(c) => (
                    CfgModel {
                        min_depth: spec_clamp(c.0, 1),
                        max_depth: spec_clamp(c.1, 6),
                        wrap_in_details: c.2,
                        start_comment: sc,
                    },
                    true,
                ),
            }
        },
    }
}

/// Parse the embedded JSON configuration out of the document. Returns the
/// resolved configuration and whether an embedded configuration was found;
/// where none was found (or it did not read), the default configuration
/// comes back and the flag is false.
pub fn parse_json_config(text: &str) -> (r: (Config, bool))
    ensures
        (r.0@, r.1) == spec_parse_json_config(text@),
{
    let v = str_to_chars(text);
    match find_json_sentinel(&v) {
        None => {
            (Config::default(), false)
        },
        Some(t) => {
            let (p, j, e, send) = t;
            proof {
                lemma_find_json_sentinel_range(v@, 0);
            }
            let jvec = subvec(&v, j, e);
            let jstring = chars_to_string(&jvec);
            let scv = subvec(&v, p, send);
            let sc = chars_to_string(&scv);
            match parse_embedded(jstring.as_str()) {
                None => {
                    let c = Config {
                        min_depth: 1,
                        max_depth: 6,
                        wrap_in_details: false,
                        start_comment: sc,
                    };
                    (c, false)
                },
                Some(f) => {
                    let mut c = Config {
                        min_depth: f.0,
                        max_depth: f.1,
                        wrap_in_details: f.2,
                        start_comment: sc,
                    };
                    c.ensure_min_max();
                    (c, true)
                },
            }
        },
    }
}

/// The effective configuration of a run: an embedded configuration that
/// reads successfully always takes precedence over the caller's fallback;
/// otherwise the fallback is used, with out-of-range depth bounds reset to
/// their defaults. Either way the effective bounds lie in one through six.
pub open spec fn spec_resolve(s: Seq<char>, fallback: CfgModel) -> CfgModel {
    if spec_parse_json_config(s).1 {
        spec_parse_json_config(s).0
    } else {
        CfgModel {
            min_depth: spec_clamp(fallback.min_depth, 1),
            max_depth: spec_clamp(fallback.max_depth, 6),
            wrap_in_details: fallback.wrap_in_details,
            start_comment: fallback.start_comment,
        }
    }
}

/// Resolve the effective configuration: the document's embedded
/// configuration where it reads, the provided one otherwise — with
/// out-of-range depth bounds silently clamped to their defaults in either
/// case.
pub fn parse_json_config_or_use_provided(content: &str, cnf: Config) -> (r: Config)
    ensures
        r@ == spec_resolve(content@, cnf@),
        1 <= r@.min_depth <= 6,
        1 <= r@.max_depth <= 6,
{
    let (json_config, json_config_found) = parse_json_config(content);
    if json_config_found {
        return json_config;
    }
    let mut fallback = cnf;
    fallback.ensure_min_max();
    fallback
}

} // verus!
