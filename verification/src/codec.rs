//! Export protocol codec: classifies the stdout lines of a running script
//! into passthrough lines, export markers and exported variables, and
//! extracts exports from pre/post environment-snapshot files.

use vstd::prelude::*;
use crate::text::{
    contains_seq, contains_str, find_char, find_idx, find_sub, lemma_find_idx_at,
    lemma_rfind_idx_props, rfind_char_before, rfind_idx, spec_lines, spec_trim, split_lines,
    str_eq, sub_find, substr_string, trim_str,
};
use crate::vars::VarMap;
use vstd::string::StrSliceExecFns;
use vstd::string::StringExecFns;

verus! {

broadcast use vstd::string::group_string_axioms;

/// The line that opens an inline export section.
pub open spec fn begin_marker() -> Seq<char> {
    "### VSS_EXPORTS_BEGIN ###"@
}

/// The line that closes an inline export section.
pub open spec fn end_marker() -> Seq<char> {
    "### VSS_EXPORTS_END ###"@
}

/// A value with one layer of surrounding double quotes removed.
pub open spec fn strip_dquotes(v: Seq<char>) -> Seq<char> {
    if v.len() > 1 && v[0] == '"' && v[v.len() - 1] == '"' {
        v.subrange(1, v.len() - 1)
    } else {
        v
    }
}

/// A value with one layer of surrounding double or single quotes removed.
pub open spec fn strip_quotes(v: Seq<char>) -> Seq<char> {
    if v.len() > 1 && ((v[0] == '"' && v[v.len() - 1] == '"') || (v[0] == '\'' && v[v.len() - 1]
        == '\'')) {
        v.subrange(1, v.len() - 1)
    } else {
        v
    }
}

/// The key of a trimmed `KEY=VALUE` line: what stands before the first `=`,
/// trimmed once more.
pub open spec fn line_key(t: Seq<char>) -> Seq<char> {
    spec_trim(t.subrange(0, find_idx(t, '=', 0)))
}

/// The raw value of a trimmed `KEY=VALUE` line: what stands after the first
/// `=`, trimmed, quotes kept.
pub open spec fn line_value_raw(t: Seq<char>) -> Seq<char> {
    spec_trim(t.subrange(find_idx(t, '=', 0) + 1, t.len() as int))
}

/// How one stdout line is classified by the export protocol.
pub enum ExportLineResult {
    /// An ordinary output line, to be printed.
    RegularLine(String),
    /// A `KEY=VALUE` pair from inside an export section, quotes stripped.
    ExportVariable(String, String),
    /// A marker or bookkeeping line, never printed.
    ExportMarker,
}

/// Streaming classifier for the inline export protocol: a single
/// inside-a-section flag, the exports collected so far, and the two
/// reserved snapshot-file paths if a script announced them.
pub struct ExportParser {
    in_export_section: bool,
    exports: VarMap,
    pre_env_file: Option<String>,
    post_env_file: Option<String>,
}

impl ExportParser {
    /// The collected exports are well formed.
    pub closed spec fn wf(&self) -> bool {
        self.exports.wf()
    }

    /// Whether the parser currently stands inside an export section.
    pub closed spec fn in_section(&self) -> bool {
        self.in_export_section
    }

    /// The exports collected so far.
    pub closed spec fn exports_map(&self) -> Map<Seq<char>, Seq<char>> {
        self.exports@
    }

    /// The announced pre-snapshot file path, if any.
    pub closed spec fn pre_file(&self) -> Option<Seq<char>> {
        match self.pre_env_file {
            Some(ref s) => Some(s@),
            None => None,
        }
    }

    /// The announced post-snapshot file path, if any.
    pub closed spec fn post_file(&self) -> Option<Seq<char>> {
        match self.post_env_file {
            Some(ref s) => Some(s@),
            None => None,
        }
    }

    /// A fresh parser: outside any section, nothing collected.
    pub fn new() -> (r: ExportParser)
        ensures
            r.wf(),
            !r.in_section(),
            r.exports_map() == Map::<Seq<char>, Seq<char>>::empty(),
            r.pre_file() is None,
            r.post_file() is None,
    {
        ExportParser {
            in_export_section: false,
            exports: VarMap::new(),
            pre_env_file: None,
            post_env_file: None,
        }
    }

    /// Classify one stdout line. A line holding the begin (or end) marker
    /// turns the section flag on (or off) and is a marker. Outside a
    /// section every other line passes through. Inside, a line with a `=`
    /// is an exported variable (key and value trimmed, one layer of double
    /// quotes stripped from the value), except that the two reserved keys
    /// `PRE_ENV_FILE` and `POST_ENV_FILE` announce the snapshot files and
    /// are kept aside; anything else inside is ignored as a marker.
    pub fn process_line(&mut self, line: &str) -> (r: ExportLineResult)
        requires
            old(self).wf(),
        ensures
            final(self).wf(),
            final(self).exports_map() == old(self).exports_map(),
            contains_seq(line@, begin_marker()) ==> {
                &&& r == ExportLineResult::ExportMarker
                &&& final(self).in_section()
                &&& final(self).pre_file() == old(self).pre_file()
                &&& final(self).post_file() == old(self).post_file()
            },
            !contains_seq(line@, begin_marker()) && contains_seq(line@, end_marker()) ==> {
                &&& r == ExportLineResult::ExportMarker
                &&& !final(self).in_section()
                &&& final(self).pre_file() == old(self).pre_file()
                &&& final(self).post_file() == old(self).post_file()
            },
            !contains_seq(line@, begin_marker()) && !contains_seq(line@, end_marker())
                && !old(self).in_section() ==> {
                &&& r matches ExportLineResult::RegularLine(s) && s@ == line@
                &&& *final(self) == *old(self)
            },
            !contains_seq(line@, begin_marker()) && !contains_seq(line@, end_marker())
                && old(self).in_section() ==> {
                let t = spec_trim(line@);
                let e = find_idx(t, '=', 0);
                &&& final(self).in_section()
                &&& (t.len() == 0 || e == t.len()) ==> {
                    &&& r == ExportLineResult::ExportMarker
                    &&& final(self).pre_file() == old(self).pre_file()
                    &&& final(self).post_file() == old(self).post_file()
                }
                &&& (t.len() > 0 && e < t.len()) ==> {
                    &&& line_key(t) == "PRE_ENV_FILE"@ ==> {
                        &&& r == ExportLineResult::ExportMarker
                        &&& final(self).pre_file() == Some(line_value_raw(t))
                        &&& final(self).post_file() == old(self).post_file()
                    }
                    &&& line_key(t) == "POST_ENV_FILE"@ ==> {
                        &&& r == ExportLineResult::ExportMarker
                        &&& final(self).post_file() == Some(line_value_raw(t))
                        &&& final(self).pre_file() == old(self).pre_file()
                    }
                    &&& line_key(t) != "PRE_ENV_FILE"@ && line_key(t) != "POST_ENV_FILE"@
                        ==> {
                        &&& r matches ExportLineResult::ExportVariable(k, v)
                        &&& k@ == line_key(t)
                        &&& v@ == strip_dquotes(line_value_raw(t))
                        &&& final(self).pre_file() == old(self).pre_file()
                        &&& final(self).post_file() == old(self).post_file()
                    }
                }
            },
    {
        if contains_str(line, "### VSS_EXPORTS_BEGIN ###") {
            self.in_export_section = true;
            return ExportLineResult::ExportMarker;
        }
        if contains_str(line, "### VSS_EXPORTS_END ###") {
            self.in_export_section = false;
            return ExportLineResult::ExportMarker;
        }
        if self.in_export_section {
            let t: String = trim_str(line);
            let tn: usize = t.as_str().unicode_len();
            match find_char(t.as_str(), '=') {
                Some(eq) => {
                    proof {
                        lemma_find_idx_at(t@, '=', 0, eq as int);
                        reveal_strlit("PRE_ENV_FILE");
                        reveal_strlit("POST_ENV_FILE");
                        assert("PRE_ENV_FILE"@.len() != "POST_ENV_FILE"@.len());
                    }
                    let key: String = trim_str(t.as_str().substring_char(0, eq));
                    let value: String = trim_str(t.as_str().substring_char(eq + 1, tn));
                    if str_eq(key.as_str(), "PRE_ENV_FILE") {
                        self.pre_env_file = Some(value);
                        return ExportLineResult::ExportMarker;
                    }
                    if str_eq(key.as_str(), "POST_ENV_FILE") {
                        self.post_env_file = Some(value);
                        return ExportLineResult::ExportMarker;
                    }
                    let vn: usize = value.as_str().unicode_len();
                    let stripped: String = if vn > 1 && value.as_str().get_char(0) == '"'
                        && value.as_str().get_char(vn - 1) == '"' {
                        substr_string(value.as_str(), 1, vn - 1)
                    } else {
                        value
                    };
                    ExportLineResult::ExportVariable(key, stripped)
                },
                None => {
                    proof {
                        lemma_find_idx_at(t@, '=', 0, t@.len() as int);
                    }
                    ExportLineResult::ExportMarker
                },
            }
        } else {
            ExportLineResult::RegularLine(String::from_str(line))
        }
    }

    /// Record one exported variable, replacing any earlier value of the
    /// same name.
    pub fn add_export(&mut self, key: String, value: String)
        requires
            old(self).wf(),
        ensures
            final(self).wf(),
            final(self).exports_map() == old(self).exports_map().insert(key@, value@),
            final(self).in_section() == old(self).in_section(),
            final(self).pre_file() == old(self).pre_file(),
            final(self).post_file() == old(self).post_file(),
    {
        self.exports.insert(key, value);
    }

    /// Hand back the inline exports collected so far. Exports gathered
    /// through the snapshot-diff protocol are computed separately by
    /// `read_exports_from_files` and merged by the engine.
    pub fn get_exports(self) -> (r: VarMap)
        requires
            self.wf(),
        ensures
            r.wf(),
            r@ == self.exports_map(),
    {
        self.exports
    }

    /// The announced pre-snapshot file path, if a script printed one.
    pub fn pre_env_file(&self) -> (r: Option<&String>)
        ensures
            match r {
                Some(s) => self.pre_file() == Some(s@),
                None => self.pre_file() is None,
            },
    {
        self.pre_env_file.as_ref()
    }

    /// The announced post-snapshot file path, if a script printed one.
    pub fn post_env_file(&self) -> (r: Option<&String>)
        ensures
            match r {
                Some(s) => self.post_file() == Some(s@),
                None => self.post_file() is None,
            },
    {
        self.post_env_file.as_ref()
    }
}

/// The exports declared by a sequence of `KEY=VALUE` lines: each nonempty
/// trimmed line with a `=` binds its trimmed key to its trimmed value with
/// one layer of double quotes stripped; later lines win.
pub open spec fn exports_of_lines(ls: Seq<Seq<char>>) -> Map<Seq<char>, Seq<char>>
    decreases ls.len(),
{
    if ls.len() == 0 {
        Map::empty()
    } else {
        let m = exports_of_lines(ls.drop_last());
        let t = spec_trim(ls.last());
        if t.len() > 0 && find_idx(t, '=', 0) < t.len() {
            m.insert(line_key(t), strip_dquotes(line_value_raw(t)))
        } else {
            m
        }
    }
}

/// The exports of the first inline export section of a whole output text:
/// what the lines between the first begin marker and the first end marker
/// declare, or nothing where the two markers do not stand in that order.
pub open spec fn marker_exports_in(output: Seq<char>) -> Map<Seq<char>, Seq<char>> {
    let b = sub_find(output, begin_marker(), 0);
    let e = sub_find(output, end_marker(), 0);
    if b >= 0 && e >= 0 && b + begin_marker().len() <= e {
        exports_of_lines(spec_lines(output.subrange(b + begin_marker().len(), e)))
    } else {
        Map::empty()
    }
}

/// Parse the exported variables out of a complete captured output: the
/// `KEY=VALUE` lines between the first begin marker and the first end
/// marker, values unquoted once.
pub fn parse_exported_variables(output: &str) -> (r: VarMap)
    ensures
        r.wf(),
        r@ == marker_exports_in(output@),
{
    let mut exports = VarMap::new();
    let b = find_sub(output, "### VSS_EXPORTS_BEGIN ###");
    let e = find_sub(output, "### VSS_EXPORTS_END ###");
    let blen: usize = "### VSS_EXPORTS_BEGIN ###".unicode_len();
    if let (Some(bi), Some(ei)) = (b, e) {
        if blen <= ei && bi <= ei - blen {
            proof {
                crate::text::lemma_sub_find_props(output@, begin_marker(), 0);
                crate::text::lemma_sub_find_props(output@, end_marker(), 0);
            }
            let section: String = substr_string(output, bi + blen, ei);
            let lines: Vec<String> = split_lines(section.as_str());
            let n: usize = lines.len();
            let mut i: usize = 0;
            while i < n
                invariant
                    exports.wf(),
                    n == lines@.len(),
                    i <= n,
                    exports@ == exports_of_lines(lines.deep_view().subrange(0, i as int)),
                decreases n - i,
            {
                let ghost pfx = lines.deep_view().subrange(0, i as int);
                let t: String = trim_str(lines[i].as_str());
                let tn: usize = t.as_str().unicode_len();
                match find_char(t.as_str(), '=') {
                    Some(eq) => {
                        proof {
                            lemma_find_idx_at(t@, '=', 0, eq as int);
                        }
                        let key: String = trim_str(t.as_str().substring_char(0, eq));
                        let value: String = trim_str(t.as_str().substring_char(eq + 1, tn));
                        let vn: usize = value.as_str().unicode_len();
                        let stripped: String = if vn > 1 && value.as_str().get_char(0) == '"'
                            && value.as_str().get_char(vn - 1) == '"' {
                            substr_string(value.as_str(), 1, vn - 1)
                        } else {
                            value
                        };
                        exports.insert(key, stripped);
                    },
                    None => {
                        proof {
                            lemma_find_idx_at(t@, '=', 0, t@.len() as int);
                        }
                    },
                }
                proof {
                    let pfx2 = lines.deep_view().subrange(0, i + 1);
                    assert(pfx2.drop_last() =~= pfx);
                    assert(pfx2.last() == lines@[i as int]@);
                }
                i += 1;
            }
            proof {
                assert(lines.deep_view().subrange(0, n as int) =~= lines.deep_view());
            }
            return exports;
        }
    }
    proof {
        crate::text::lemma_sub_find_props(output@, begin_marker(), 0);
        crate::text::lemma_sub_find_props(output@, end_marker(), 0);
    }
    exports
}

/// The passthrough lines of an output: marker lines and everything inside
/// an export section are dropped, the rest is kept in order.
pub open spec fn filtered_from(ls: Seq<Seq<char>>, i: int, inside: bool) -> Seq<Seq<char>>
    recommends
        0 <= i,
    decreases ls.len() - i when 0 <= i
{
    if i >= ls.len() {
        Seq::empty()
    } else if contains_seq(ls[i], begin_marker()) {
        filtered_from(ls, i + 1, true)
    } else if contains_seq(ls[i], end_marker()) {
        filtered_from(ls, i + 1, false)
    } else if inside {
        filtered_from(ls, i + 1, inside)
    } else {
        seq![ls[i]] + filtered_from(ls, i + 1, inside)
    }
}

/// A sequence of lines joined with single newlines, no trailing newline.
pub open spec fn join_nl(ls: Seq<Seq<char>>) -> Seq<char>
    decreases ls.len(),
{
    if ls.len() == 0 {
        Seq::empty()
    } else if ls.len() == 1 {
        ls[0]
    } else {
        join_nl(ls.drop_last()) + seq!['\n'] + ls.last()
    }
}

/// Remove the export markers and every export-section line from a captured
/// output, keeping the passthrough lines joined by newlines.
pub fn filter_export_markers(output: &str) -> (r: String)
    ensures
        r@ == join_nl(filtered_from(spec_lines(output@), 0, false)),
{
    let lines: Vec<String> = split_lines(output);
    let n: usize = lines.len();
    let mut result: String = String::new();
    let mut any: bool = false;
    let mut inside: bool = false;
    let ghost ls = lines.deep_view();
    let ghost mut fp: Seq<Seq<char>> = Seq::empty();
    let mut i: usize = 0;
    while i < n
        invariant
            n == lines@.len(),
            ls == lines.deep_view(),
            i <= n,
            any == (fp.len() > 0),
            result@ == join_nl(fp),
            filtered_from(ls, 0, false) == fp + filtered_from(ls, i as int, inside),
        decreases n - i,
    {
        let line: &String = &lines[i];
        if contains_str(line.as_str(), "### VSS_EXPORTS_BEGIN ###") {
            inside = true;
        } else if contains_str(line.as_str(), "### VSS_EXPORTS_END ###") {
            inside = false;
        } else if !inside {
            let ghost old_fp = fp;
            let ghost old_res = result@;
            if any {
                result.append("\n");
            }
            result.append(line.as_str());
            any = true;
            proof {
                fp = fp.push(ls[i as int]);
                assert(fp.drop_last() =~= old_fp);
                reveal_strlit("\n");
                assert("\n"@ =~= seq!['\n']);
                if old_fp.len() == 0 {
                    assert(result@ =~= join_nl(fp));
                } else {
                    assert(result@ =~= join_nl(old_fp) + seq!['\n'] + ls[i as int]);
                }
                assert(old_fp + (seq![ls[i as int]] + filtered_from(ls, i + 1, false)) =~= fp
                    + filtered_from(ls, i + 1, false));
            }
        }
        i += 1;
    }
    proof {
        assert(fp + filtered_from(ls, n as int, inside) =~= fp);
    }
    result
}

/// A line of a snapshot file parsed as a shell export statement
/// (`export NAME=value` or `declare -x NAME=value`): the word before the
/// first `=` and after the last space before it names the variable, and
/// what follows the `=`, trimmed and unquoted once, is its value. A line
/// without `=`, or without a space before the `=`, declares nothing.
pub open spec fn snapshot_entry(line: Seq<char>) -> Option<(Seq<char>, Seq<char>)> {
    let e = find_idx(line, '=', 0);
    if e == line.len() {
        None
    } else {
        let sp = rfind_idx(line, ' ', e);
        if sp < 0 {
            None
        } else {
            Some(
                (
                    spec_trim(line.subrange(sp + 1, e)),
                    strip_quotes(spec_trim(line.subrange(e + 1, line.len() as int))),
                ),
            )
        }
    }
}

/// A line occurs verbatim among a sequence of lines.
pub open spec fn among_lines(pre: Seq<Seq<char>>, l: Seq<char>) -> bool {
    exists|i: int| 0 <= i < pre.len() && pre[i] == l
}

/// The variables exported between two environment snapshots: every post
/// line absent from the pre lines that parses as an export statement,
/// later lines winning.
pub open spec fn snapshot_diff(pre: Seq<Seq<char>>, post: Seq<Seq<char>>) -> Map<
    Seq<char>,
    Seq<char>,
>
    decreases post.len(),
{
    if post.len() == 0 {
        Map::empty()
    } else {
        let m = snapshot_diff(pre, post.drop_last());
        let l = post.last();
        if among_lines(pre, l) {
            m
        } else {
            match snapshot_entry(l) {
                Some(kv) => m.insert(kv.0, kv.1),
                None => m,
            }
        }
    }
}

/// Whether `l` stands verbatim among `lines`.
fn line_among(lines: &Vec<String>, l: &str) -> (r: bool)
    ensures
        r == among_lines(lines.deep_view(), l@),
{
    let n: usize = lines.len();
    let mut i: usize = 0;
    while i < n
        invariant
            n == lines@.len(),
            i <= n,
            forall|j: int| 0 <= j < i ==> lines.deep_view()[j] != l@,
        decreases n - i,
    {
        if str_eq(lines[i].as_str(), l) {
            proof {
                assert(lines.deep_view()[i as int] == l@);
            }
            return true;
        }
        i += 1;
    }
    false
}

/// Extract the variables a script exported through the snapshot-diff
/// protocol, given the lines of the pre and post snapshot files (an absent
/// or empty file reads as no lines). Exactly the post lines that do not
/// stand in the pre file, parsed as shell export statements, are returned.
pub fn read_exports_from_files(pre_lines: &Vec<String>, post_lines: &Vec<String>) -> (r: VarMap)
    ensures
        r.wf(),
        r@ == snapshot_diff(pre_lines.deep_view(), post_lines.deep_view()),
{
    let mut exports = VarMap::new();
    let n: usize = post_lines.len();
    let mut i: usize = 0;
    while i < n
        invariant
            exports.wf(),
            n == post_lines@.len(),
            i <= n,
            exports@ == snapshot_diff(
                pre_lines.deep_view(),
                post_lines.deep_view().subrange(0, i as int),
            ),
        decreases n - i,
    {
        let ghost pfx = post_lines.deep_view().subrange(0, i as int);
        let line: &String = &post_lines[i];
        if !line_among(pre_lines, line.as_str()) {
            let ln: usize = line.as_str().unicode_len();
            match find_char(line.as_str(), '=') {
                Some(eq) => {
                    proof {
                        lemma_find_idx_at(line@, '=', 0, eq as int);
                    }
                    match rfind_char_before(line.as_str(), ' ', eq) {
                        Some(sp) => {
                            proof {
                                lemma_rfind_idx_props(line@, ' ', eq as int);
                            }
                            let key: String = trim_str(
                                line.as_str().substring_char(sp + 1, eq),
                            );
                            let value: String = trim_str(
                                line.as_str().substring_char(eq + 1, ln),
                            );
                            let vn: usize = value.as_str().unicode_len();
                            let stripped: String = if vn > 1 && (value.as_str().get_char(0)
                                == '"' && value.as_str().get_char(vn - 1) == '"'
                                || value.as_str().get_char(0) == '\''
                                    && value.as_str().get_char(vn - 1) == '\'') {
                                substr_string(value.as_str(), 1, vn - 1)
                            } else {
                                value
                            };
                            exports.insert(key, stripped);
                        },
                        None => {},
                    }
                },
                None => {
                    proof {
                        lemma_find_idx_at(line@, '=', 0, line@.len() as int);
                    }
                },
            }
        }
        proof {
            let pfx2 = post_lines.deep_view().subrange(0, i + 1);
            assert(pfx2.drop_last() =~= pfx);
            assert(pfx2.last() == post_lines@[i as int]@);
        }
        i += 1;
    }
    proof {
        assert(post_lines.deep_view().subrange(0, n as int) =~= post_lines.deep_view());
    }
    exports
}

} // verus!


verus! {

/// The section state after one stdout line: a begin marker turns it on, an
/// end marker off, anything else leaves it.
pub open spec fn marker_state_after(line: Seq<char>, inside: bool) -> bool {
    if contains_seq(line, begin_marker()) {
        true
    } else if contains_seq(line, end_marker()) {
        false
    } else {
        inside
    }
}

/// The variable one stdout line exports under the inline protocol, if any:
/// a non-marker `KEY=VALUE` line inside a section whose key is not one of
/// the two reserved snapshot-file names.
pub open spec fn marker_line_export(line: Seq<char>, inside: bool) -> Option<
    (Seq<char>, Seq<char>),
> {
    if contains_seq(line, begin_marker()) || contains_seq(line, end_marker()) || !inside {
        None
    } else {
        let t = spec_trim(line);
        let e = find_idx(t, '=', 0);
        if t.len() > 0 && e < t.len() && line_key(t) != "PRE_ENV_FILE"@ && line_key(t)
            != "POST_ENV_FILE"@ {
            Some((line_key(t), strip_dquotes(line_value_raw(t))))
        } else {
            None
        }
    }
}

/// The exports the streaming protocol collects from the lines from `i` on,
/// starting inside or outside a section with `acc` already collected.
pub open spec fn marker_stream_exports(
    ls: Seq<Seq<char>>,
    i: int,
    inside: bool,
    acc: Map<Seq<char>, Seq<char>>,
) -> Map<Seq<char>, Seq<char>>
    recommends
        0 <= i,
    decreases ls.len() - i when 0 <= i
{
    if i >= ls.len() {
        acc
    } else {
        let acc2 = match marker_line_export(ls[i], inside) {
            Some(kv) => acc.insert(kv.0, kv.1),
            None => acc,
        };
        marker_stream_exports(ls, i + 1, marker_state_after(ls[i], inside), acc2)
    }
}

} // verus!
