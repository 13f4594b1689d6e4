//! The script-file annotation grammar, verified: a script declares its
//! metadata in `@vercel.<attribute>` comment lines. An attribute matches
//! where its tag stands in a line followed by a whitespace character and at
//! least one further character; its value is the rest of the line, trimmed.

use vstd::prelude::*;
use vstd::string::StrSliceExecFns;
use vstd::string::StringExecFns;
use crate::text::{
    contains_seq, contains_str, is_space, is_space_char, matches_at, match_at, rfind_idx,
    lemma_rfind_idx_props, spec_lines, spec_tokens, spec_trim, split_lines, split_tokens,
    starts_with_seq, starts_with_str, substr_string, token_end, trim_str,
};
use crate::script::{
    Script, ScriptArg, ScriptArgView, ScriptError, ScriptRequirement, ScriptRequirementView,
};

verus! {

broadcast use vstd::string::group_string_axioms;

/// The annotation tag that names a script.
pub open spec fn name_tag() -> Seq<char> {
    "@vercel.name"@
}

/// The annotation tag that describes a script.
pub open spec fn description_tag() -> Seq<char> {
    "@vercel.description"@
}

/// The annotation tag that lists ordering-only dependencies.
pub open spec fn after_tag() -> Seq<char> {
    "@vercel.after"@
}

/// The annotation tag that lists data dependencies.
pub open spec fn requires_tag() -> Seq<char> {
    "@vercel.requires"@
}

/// The annotation tag that declares an argument.
pub open spec fn arg_tag() -> Seq<char> {
    "@vercel.arg"@
}

/// The annotation tag that declares an option.
pub open spec fn opt_tag() -> Seq<char> {
    "@vercel.opt"@
}

/// The annotation that asks for inherited stdio.
pub open spec fn stdin_marker() -> Seq<char> {
    "@vercel.stdin inherit"@
}

/// First index `>= i` where `tag` stands in `line` followed by a
/// whitespace character and at least one further character, or `-1`.
pub open spec fn attr_find(line: Seq<char>, tag: Seq<char>, i: int) -> int
    recommends
        0 <= i,
    decreases line.len() + 1 - i when 0 <= i
{
    if i + tag.len() + 2 > line.len() {
        -1
    } else if matches_at(line, tag, i) && is_space_char(line[i + tag.len()]) {
        i
    } else {
        attr_find(line, tag, i + 1)
    }
}

proof fn lemma_attr_find_props(line: Seq<char>, tag: Seq<char>, i: int)
    requires
        0 <= i,
    ensures
        attr_find(line, tag, i) == -1 || attr_find(line, tag, i) >= i,
        attr_find(line, tag, i) >= 0 ==> attr_find(line, tag, i) + tag.len() + 2 <= line.len()
            && matches_at(line, tag, attr_find(line, tag, i)) && is_space_char(
            line[attr_find(line, tag, i) + tag.len()],
        ),
    decreases line.len() + 1 - i,
{
    if i + tag.len() + 2 <= line.len() && !(matches_at(line, tag, i) && is_space_char(
        line[i + tag.len()],
    )) {
        lemma_attr_find_props(line, tag, i + 1);
    }
}

proof fn lemma_attr_find_at(line: Seq<char>, tag: Seq<char>, i: int, j: int)
    requires
        0 <= i <= j,
        j + tag.len() + 2 <= line.len(),
        matches_at(line, tag, j) && is_space_char(line[j + tag.len()]),
        forall|k: int| i <= k < j ==> !(matches_at(line, tag, k) && is_space_char(
            line[k + tag.len()],
        )),
    ensures
        attr_find(line, tag, i) == j,
    decreases j - i,
{
    if i < j {
        lemma_attr_find_at(line, tag, i + 1, j);
    }
}

proof fn lemma_attr_find_none(line: Seq<char>, tag: Seq<char>, i: int)
    requires
        0 <= i,
        forall|k: int| i <= k && k + tag.len() + 2 <= line.len() ==> !(matches_at(line, tag, k)
            && is_space_char(line[k + tag.len()])),
    ensures
        attr_find(line, tag, i) == -1,
    decreases line.len() + 1 - i,
{
    if i + tag.len() + 2 <= line.len() {
        lemma_attr_find_none(line, tag, i + 1);
    }
}

/// The value an annotation line carries for `tag`: the rest of the line
/// after the tag's first qualifying occurrence, trimmed.
pub open spec fn line_attr(line: Seq<char>, tag: Seq<char>) -> Option<Seq<char>> {
    if attr_find(line, tag, 0) >= 0 {
        Some(spec_trim(line.skip(attr_find(line, tag, 0) + tag.len())))
    } else {
        None
    }
}

/// The first value any of the lines from `i` on carries for `tag`.
pub open spec fn attr_value(ls: Seq<Seq<char>>, tag: Seq<char>, i: int) -> Option<Seq<char>>
    recommends
        0 <= i,
    decreases ls.len() - i when 0 <= i
{
    if i >= ls.len() {
        None
    } else if line_attr(ls[i], tag) is Some {
        line_attr(ls[i], tag)
    } else {
        attr_value(ls, tag, i + 1)
    }
}

/// The value the whole annotated text carries for `tag`.
pub open spec fn attr_value_of(ls: Seq<Seq<char>>, tag: Seq<char>) -> Option<Seq<char>> {
    attr_value(ls, tag, 0)
}

/// Find the first qualifying occurrence of `tag` in `line`.
fn find_attr(line: &str, tag: &str) -> (r: Option<usize>)
    ensures
        match r {
            Some(i) => i as int == attr_find(line@, tag@, 0),
            None => attr_find(line@, tag@, 0) == -1,
        },
{
    let n: usize = line.unicode_len();
    let m: usize = tag.unicode_len();
    if n < 2 || m > n - 2 {
        proof {
            lemma_attr_find_none(line@, tag@, 0);
        }
        return None;
    }
    let lim: usize = n - m - 2;
    let mut i: usize = 0;
    while i <= lim
        invariant
            n == line@.len(),
            m == tag@.len(),
            m + 2 <= n,
            lim == n - m - 2,
            i <= lim + 1,
            forall|k: int| 0 <= k < i ==> !(matches_at(line@, tag@, k) && is_space_char(
                line@[k + tag@.len()],
            )),
        decreases lim + 1 - i,
    {
        if match_at(line, tag, i) && is_space(line.get_char(i + m)) {
            proof {
                lemma_attr_find_at(line@, tag@, 0, i as int);
            }
            return Some(i);
        }
        i += 1;
    }
    proof {
        lemma_attr_find_none(line@, tag@, 0);
    }
    None
}

/// The value `line` carries for `tag`, if it is an annotation line.
fn line_attr_value(line: &str, tag: &str) -> (r: Option<String>)
    ensures
        match r {
            Some(v) => line_attr(line@, tag@) == Some(v@),
            None => line_attr(line@, tag@) is None,
        },
{
    let n: usize = line.unicode_len();
    let m: usize = tag.unicode_len();
    match find_attr(line, tag) {
        Some(p) => {
            proof {
                lemma_attr_find_props(line@, tag@, 0);
            }
            let rest: String = substr_string(line, p + m, n);
            let v: String = trim_str(rest.as_str());
            proof {
                assert(rest@ =~= line@.skip(p + tag@.len()));
            }
            Some(v)
        },
        None => None,
    }
}

/// The first value any line of `lines` carries for `tag`.
fn get_attribute(lines: &Vec<String>, tag: &str) -> (r: Option<String>)
    ensures
        match r {
            Some(v) => attr_value_of(lines.deep_view(), tag@) == Some(v@),
            None => attr_value_of(lines.deep_view(), tag@) is None,
        },
{
    let n: usize = lines.len();
    let mut i: usize = 0;
    while i < n
        invariant
            n == lines@.len(),
            i <= n,
            attr_value(lines.deep_view(), tag@, 0) == attr_value(lines.deep_view(), tag@, i as int),
        decreases n - i,
    {
        match line_attr_value(lines[i].as_str(), tag) {
            Some(v) => {
                proof {
                    assert(lines.deep_view()[i as int] == lines@[i as int]@);
                }
                return Some(v);
            },
            None => {
                proof {
                    assert(lines.deep_view()[i as int] == lines@[i as int]@);
                }
            },
        }
        i += 1;
    }
    None
}

/// A character that may stand in an argument name.
pub open spec fn is_word_char(c: char) -> bool {
    ('A' <= c && c <= 'Z') || ('a' <= c && c <= 'z') || ('0' <= c && c <= '9') || c == '_'
}

/// A nonempty run of name characters.
pub open spec fn is_word(s: Seq<char>) -> bool {
    s.len() > 0 && forall|k: int| 0 <= k < s.len() ==> is_word_char(#[trigger] s[k])
}

/// Whether `s` is a nonempty run of name characters.
fn is_word_str(s: &str) -> (r: bool)
    ensures
        r == is_word(s@),
{
    let n: usize = s.unicode_len();
    if n == 0 {
        return false;
    }
    let mut i: usize = 0;
    while i < n
        invariant
            n == s@.len(),
            i <= n,
            forall|k: int| 0 <= k < i ==> is_word_char(#[trigger] s@[k]),
        decreases n - i,
    {
        let c = s.get_char(i);
        if !(('A' <= c && c <= 'Z') || ('a' <= c && c <= 'z') || ('0' <= c && c <= '9') || c
            == '_') {
            return false;
        }
        i += 1;
    }
    true
}

/// The data dependencies declared from line `i` on: each `requires` line
/// whose value is nonempty names a script (its first token) and the
/// variables it must export (the rest).
pub open spec fn requires_from(ls: Seq<Seq<char>>, i: int) -> Seq<ScriptRequirementView>
    recommends
        0 <= i,
    decreases ls.len() - i when 0 <= i
{
    if i >= ls.len() {
        Seq::empty()
    } else {
        let rest = requires_from(ls, i + 1);
        match line_attr(ls[i], requires_tag()) {
            Some(v) => {
                let toks = spec_tokens(v);
                if toks.len() == 0 {
                    rest
                } else {
                    seq![
                        ScriptRequirementView { script: toks[0], variables: toks.skip(1) },
                    ] + rest
                }
            },
            None => rest,
        }
    }
}

/// Some `requires` line names `d` as its script.
pub open spec fn declares_requirement(ls: Seq<Seq<char>>, d: Seq<char>) -> bool {
    exists|j: int| 0 <= j < requires_from(ls, 0).len() && requires_from(ls, 0)[j].script == d
}

/// Some `after` token equals `d`.
pub open spec fn declares_after(ls: Seq<Seq<char>>, d: Seq<char>) -> bool {
    match attr_value_of(ls, after_tag()) {
        Some(v) => spec_tokens(v).contains(d),
        None => false,
    }
}

/// Some declared ordering reference climbs out of the script directory.
pub open spec fn has_bad_after(ls: Seq<Seq<char>>) -> bool {
    match attr_value_of(ls, after_tag()) {
        Some(v) => exists|k: int|
            0 <= k < spec_tokens(v).len() && starts_with_seq(
                #[trigger] spec_tokens(v)[k],
                "../"@,
            ),
        None => false,
    }
}

/// Some declared data-dependency reference climbs out of the script
/// directory.
pub open spec fn has_bad_requirement(ls: Seq<Seq<char>>) -> bool {
    exists|j: int|
        0 <= j < requires_from(ls, 0).len() && starts_with_seq(
            (#[trigger] requires_from(ls, 0)[j]).script,
            "../"@,
        )
}

/// The arguments declared from line `i` on: each `arg` line whose value
/// starts with a name-shaped token followed by whitespace and at least one
/// further character declares that name, with the trimmed rest as its
/// prompt text.
pub open spec fn args_from(ls: Seq<Seq<char>>, i: int) -> Seq<ScriptArgView>
    recommends
        0 <= i,
    decreases ls.len() - i when 0 <= i
{
    if i >= ls.len() {
        Seq::empty()
    } else {
        let rest = args_from(ls, i + 1);
        match line_attr(ls[i], arg_tag()) {
            Some(v) => {
                let te = token_end(v, 0);
                if is_word(v.subrange(0, te)) && te + 2 <= v.len() {
                    seq![
                        ScriptArgView { name: v.subrange(0, te), description: spec_trim(v.skip(te)) },
                    ] + rest
                } else {
                    rest
                }
            },
            None => rest,
        }
    }
}

/// The texts of the `opt` annotations from line `i` on.
pub open spec fn opt_texts(ls: Seq<Seq<char>>, i: int) -> Seq<Seq<char>>
    recommends
        0 <= i,
    decreases ls.len() - i when 0 <= i
{
    if i >= ls.len() {
        Seq::empty()
    } else {
        let rest = opt_texts(ls, i + 1);
        match line_attr(ls[i], opt_tag()) {
            Some(v) => seq![v] + rest,
            None => rest,
        }
    }
}

/// A path with its trailing slashes and trailing `.` components removed.
pub open spec fn strip_dot_ends(p: Seq<char>) -> Seq<char>
    decreases p.len(),
{
    if p.len() > 0 && p[p.len() - 1] == '/' {
        strip_dot_ends(p.subrange(0, p.len() - 1))
    } else if p.len() >= 2 && p[p.len() - 1] == '.' && p[p.len() - 2] == '/' {
        strip_dot_ends(p.subrange(0, p.len() - 2))
    } else if p.len() == 1 && p[0] == '.' {
        Seq::empty()
    } else {
        p
    }
}

/// The final component of a path: what stands after the last slash once
/// trailing slashes and `.` components are dropped; none where nothing is
/// left or the component is `..`.
pub open spec fn spec_file_name(p: Seq<char>) -> Option<Seq<char>> {
    let q = strip_dot_ends(p);
    if q.len() == 0 {
        None
    } else {
        let s = q.skip(rfind_idx(q, '/', q.len() as int) + 1);
        if s == ".."@ {
            None
        } else {
            Some(s)
        }
    }
}

/// Extract the final component of a path, as `Path::file_name` names it.
pub fn file_name_of(path: &str) -> (r: Option<String>)
    ensures
        match r {
            Some(f) => spec_file_name(path@) == Some(f@),
            None => spec_file_name(path@) is None,
        },
{
    let n: usize = path.unicode_len();
    proof {
        assert(path@.subrange(0, n as int) =~= path@);
    }
    let mut hi: usize = n;
    while hi > 0 && (path.get_char(hi - 1) == '/' || (hi >= 2 && path.get_char(hi - 1) == '.'
        && path.get_char(hi - 2) == '/') || (hi == 1 && path.get_char(0) == '.'))
        invariant
            n == path@.len(),
            hi <= n,
            strip_dot_ends(path@) == strip_dot_ends(path@.subrange(0, hi as int)),
        decreases hi,
    {
        let ghost cur = path@.subrange(0, hi as int);
        if path.get_char(hi - 1) == '/' {
            proof {
                assert(cur[hi - 1] == path@[hi - 1]);
                assert(cur.subrange(0, hi - 1) =~= path@.subrange(0, hi - 1));
            }
            hi -= 1;
        } else if hi >= 2 && path.get_char(hi - 1) == '.' && path.get_char(hi - 2) == '/' {
            proof {
                assert(cur[hi - 1] == path@[hi - 1]);
                assert(cur[hi - 2] == path@[hi - 2]);
                assert(cur.subrange(0, hi - 2) =~= path@.subrange(0, hi - 2));
            }
            hi -= 2;
        } else {
            proof {
                assert(hi == 1 && path@[0] == '.');
                assert(cur.len() == 1 && cur[0] == '.');
                assert(strip_dot_ends(cur) =~= Seq::<char>::empty());
                assert(path@.subrange(0, 0) =~= Seq::<char>::empty());
                assert(strip_dot_ends(Seq::<char>::empty()) =~= Seq::<char>::empty());
            }
            hi = 0;
        }
    }
    let ghost q = strip_dot_ends(path@);
    proof {
        if hi > 0 {
            assert(strip_dot_ends(path@.subrange(0, hi as int)) == path@.subrange(0, hi as int))
                by {
                let cur = path@.subrange(0, hi as int);
                assert(cur[hi - 1] == path@[hi - 1]);
                if hi >= 2 {
                    assert(cur[hi - 2] == path@[hi - 2]);
                }
            }
        } else {
            assert(path@.subrange(0, 0) =~= Seq::<char>::empty());
            assert(strip_dot_ends(Seq::<char>::empty()) =~= Seq::<char>::empty());
        }
        assert(q =~= path@.subrange(0, hi as int));
    }
    if hi == 0 {
        return None;
    }
    let sp: Option<usize> = crate::text::rfind_char_before(path, '/', hi);
    proof {
        lemma_rfind_idx_props(path@, '/', hi as int);
    }
    let start: usize = match sp {
        Some(i) => i + 1,
        None => 0,
    };
    proof {
        lemma_rfind_same_prefix(q, path@, hi as int);
        assert(q.skip(rfind_idx(q, '/', q.len() as int) + 1) =~= path@.subrange(
            start as int,
            hi as int,
        ));
    }
    let s: String = substr_string(path, start, hi);
    proof {
        reveal_strlit("..");
    }
    if crate::text::str_eq(s.as_str(), "..") {
        None
    } else {
        Some(s)
    }
}

/// Two sequences equal below `j` agree on backward searches below `j`.
proof fn lemma_rfind_same_prefix(a: Seq<char>, b: Seq<char>, j: int)
    requires
        0 <= j <= a.len(),
        j <= b.len(),
        forall|k: int| 0 <= k < j ==> a[k] == b[k],
    ensures
        rfind_idx(a, '/', j) == rfind_idx(b, '/', j),
    decreases j,
{
    if j > 0 && a[j - 1] != '/' {
        lemma_rfind_same_prefix(a, b, j - 1);
    }
}

/// Copy the tokens after the first into a fresh vector.
fn tail_strings(toks: &Vec<String>) -> (r: Vec<String>)
    requires
        toks@.len() > 0,
    ensures
        r.deep_view() == toks.deep_view().skip(1),
{
    let n: usize = toks.len();
    let mut r: Vec<String> = Vec::new();
    let mut i: usize = 1;
    while i < n
        invariant
            n == toks@.len(),
            1 <= i <= n,
            r@.len() == i - 1,
            forall|j: int| 0 <= j < i - 1 ==> (#[trigger] r@[j])@ == toks@[j + 1]@,
        decreases n - i,
    {
        let ghost old_r = r@;
        r.push(toks[i].clone());
        proof {
            assert(forall|j: int| 0 <= j < old_r.len() ==> r@[j] == old_r[j]);
            assert(r@[i - 1]@ == toks@[i as int]@);
        }
        i += 1;
    }
    proof {
        assert(r.deep_view() =~= toks.deep_view().skip(1));
    }
    r
}

/// Collect the data dependencies declared by `requires` annotation lines,
/// rejecting any whose script reference climbs out of the directory.
fn collect_requirements(lines: &Vec<String>) -> (r: Result<
    Option<Vec<ScriptRequirement>>,
    ScriptError,
>)
    ensures
        ({
            let rs = requires_from(lines.deep_view(), 0);
            match r {
                Ok(o) => (match o {
                    Some(v) => v.deep_view() == rs && rs.len() > 0,
                    None => rs.len() == 0,
                }) && (forall|j: int| 0 <= j < rs.len() ==> !starts_with_seq(
                    (#[trigger] rs[j]).script,
                    "../"@,
                )),
                Err(e) => e matches ScriptError::InvalidDependencyPath(d) && starts_with_seq(
                    d@,
                    "../"@,
                ) && declares_requirement(lines.deep_view(), d@),
            }
        }),
{
    let ghost dv = lines.deep_view();
    let n: usize = lines.len();
    let mut reqs: Vec<ScriptRequirement> = Vec::new();
    let mut i: usize = 0;
    while i < n
        invariant
            dv == lines.deep_view(),
            n == lines@.len(),
            i <= n,
            requires_from(dv, 0) == reqs.deep_view() + requires_from(dv, i as int),
            forall|j: int| 0 <= j < reqs.deep_view().len() ==> !starts_with_seq(
                (#[trigger] reqs.deep_view()[j]).script,
                "../"@,
            ),
        decreases n - i,
    {
        proof {
            assert(dv[i as int] == lines@[i as int]@);
        }
        match line_attr_value(lines[i].as_str(), "@vercel.requires") {
            Some(v) => {
                let toks: Vec<String> = split_tokens(v.as_str());
                if toks.len() > 0 {
                    let script: String = toks[0].clone();
                    proof {
                        assert(script@ == toks.deep_view()[0]);
                        assert(requires_from(dv, i as int) == seq![
                            ScriptRequirementView {
                                script: spec_tokens(v@)[0],
                                variables: spec_tokens(v@).skip(1),
                            },
                        ] + requires_from(dv, i + 1));
                    }
                    proof {
                        reveal_strlit("../");
                    }
                    if starts_with_str(script.as_str(), "../") {
                        proof {
                            let k = reqs.deep_view().len() as int;
                            assert(requires_from(dv, 0)[k].script == script@);
                        }
                        return Err(ScriptError::InvalidDependencyPath(script));
                    }
                    let variables: Vec<String> = tail_strings(&toks);
                    let ghost old_dv = reqs.deep_view();
                    reqs.push(ScriptRequirement { script, variables });
                    proof {
                        assert(reqs.deep_view() =~= old_dv.push(
                            ScriptRequirementView {
                                script: spec_tokens(v@)[0],
                                variables: spec_tokens(v@).skip(1),
                            },
                        ));
                        assert(requires_from(dv, 0) =~= reqs.deep_view() + requires_from(
                            dv,
                            i + 1,
                        ));
                    }
                } else {
                    proof {
                        assert(requires_from(dv, i as int) == requires_from(dv, i + 1));
                    }
                }
            },
            None => {
                proof {
                    assert(requires_from(dv, i as int) == requires_from(dv, i + 1));
                }
            },
        }
        i += 1;
    }
    proof {
        assert(requires_from(dv, 0) =~= reqs.deep_view());
    }
    if reqs.len() == 0 {
        Ok(None)
    } else {
        Ok(Some(reqs))
    }
}

/// Collect the arguments declared by `arg` annotation lines.
fn collect_args(lines: &Vec<String>) -> (r: Option<Vec<ScriptArg>>)
    ensures
        ({
            let a = args_from(lines.deep_view(), 0);
            match r {
                Some(v) => v.deep_view() == a && a.len() > 0,
                None => a.len() == 0,
            }
        }),
{
    let ghost dv = lines.deep_view();
    let n: usize = lines.len();
    let mut args: Vec<ScriptArg> = Vec::new();
    let mut i: usize = 0;
    while i < n
        invariant
            dv == lines.deep_view(),
            n == lines@.len(),
            i <= n,
            args_from(dv, 0) == args.deep_view() + args_from(dv, i as int),
        decreases n - i,
    {
        proof {
            assert(dv[i as int] == lines@[i as int]@);
        }
        match line_attr_value(lines[i].as_str(), "@vercel.arg") {
            Some(v) => {
                let vn: usize = v.as_str().unicode_len();
                let mut te: usize = 0;
                while te < vn && !is_space(v.as_str().get_char(te))
                    invariant
                        vn == v@.len(),
                        te <= vn,
                        token_end(v@, 0) == token_end(v@, te as int),
                    decreases vn - te,
                {
                    te += 1;
                }
                proof {
                    assert(token_end(v@, te as int) == te);
                }
                let name: String = substr_string(v.as_str(), 0, te);
                if vn >= 2 && te <= vn - 2 && is_word_str(name.as_str()) {
                    let rest: String = substr_string(v.as_str(), te, vn);
                    let description: String = trim_str(rest.as_str());
                    proof {
                        assert(rest@ =~= v@.skip(te as int));
                        assert(args_from(dv, i as int) == seq![
                            ScriptArgView {
                                name: v@.subrange(0, token_end(v@, 0)),
                                description: spec_trim(v@.skip(token_end(v@, 0))),
                            },
                        ] + args_from(dv, i + 1));
                    }
                    let ghost old_dv = args.deep_view();
                    args.push(ScriptArg { name, description });
                    proof {
                        assert(args.deep_view() =~= old_dv.push(
                            ScriptArgView {
                                name: v@.subrange(0, token_end(v@, 0)),
                                description: spec_trim(v@.skip(token_end(v@, 0))),
                            },
                        ));
                        assert(args_from(dv, 0) =~= args.deep_view() + args_from(dv, i + 1));
                    }
                } else {
                    proof {
                        assert(args_from(dv, i as int) == args_from(dv, i + 1));
                    }
                }
            },
            None => {
                proof {
                    assert(args_from(dv, i as int) == args_from(dv, i + 1));
                }
            },
        }
        i += 1;
    }
    proof {
        assert(args_from(dv, 0) =~= args.deep_view());
    }
    if args.len() == 0 {
        None
    } else {
        Some(args)
    }
}

/// Collect the options declared by `opt` annotation lines, parsing each
/// one's JSON text.
fn collect_opts(lines: &Vec<String>) -> (r: Result<Option<Vec<crate::script::ScriptOpt>>, ScriptError>)
    ensures
        ({
            let ts = opt_texts(lines.deep_view(), 0);
            match r {
                Ok(o) => match o {
                    Some(v) => v@.len() == ts.len() && ts.len() > 0,
                    None => ts.len() == 0,
                },
                Err(e) => e matches ScriptError::InvalidScriptOption(_) && ts.len() > 0,
            }
        }),
{
    let ghost dv = lines.deep_view();
    let n: usize = lines.len();
    let mut opts: Vec<crate::script::ScriptOpt> = Vec::new();
    let mut i: usize = 0;
    while i < n
        invariant
            dv == lines.deep_view(),
            n == lines@.len(),
            i <= n,
            opt_texts(dv, 0).len() == opts@.len() + opt_texts(dv, i as int).len(),
        decreases n - i,
    {
        proof {
            assert(dv[i as int] == lines@[i as int]@);
        }
        match line_attr_value(lines[i].as_str(), "@vercel.opt") {
            Some(v) => {
                proof {
                    assert(opt_texts(dv, i as int).len() == 1 + opt_texts(dv, i + 1).len());
                }
                match crate::json::opt_from_json(v.as_str()) {
                    Ok(o) => {
                        opts.push(o);
                    },
                    Err(e) => {
                        let mut msg: String = e;
                        msg.append(": ");
                        msg.append(v.as_str());
                        return Err(ScriptError::InvalidScriptOption(msg));
                    },
                }
            },
            None => {
                proof {
                    assert(opt_texts(dv, i as int).len() == opt_texts(dv, i + 1).len());
                }
            },
        }
        i += 1;
    }
    if opts.len() == 0 {
        Ok(None)
    } else {
        Ok(Some(opts))
    }
}

/// The annotation parser: turns the text of a script file into its
/// descriptor.
pub struct ScriptParser;

impl ScriptParser {
    /// A dependency reference with a leading `./` removed.
    pub open spec fn normalize_dep_spec(d: Seq<char>) -> Seq<char> {
        if starts_with_seq(d, "./"@) {
            d.skip(2)
        } else {
            d
        }
    }

    /// Normalize a dependency reference by removing a leading `./`.
    pub fn normalize_dependency_path(dep: &str) -> (r: String)
        ensures
            r@ == Self::normalize_dep_spec(dep@),
    {
        proof {
            reveal_strlit("./");
        }
        if starts_with_str(dep, "./") {
            let n: usize = dep.unicode_len();
            substr_string(dep, 2, n)
        } else {
            String::from_str(dep)
        }
    }

    /// Parse the annotated text of a script file at `path` into its
    /// descriptor: the name (the `name` annotation, or the file's name),
    /// description, ordering and data dependencies (rejecting any that
    /// climb out of the script directory), declared arguments and options,
    /// and the stdio mode.
    pub fn parse_script(content: &str, path: &str, embedded: bool) -> (r: Result<
        Script,
        ScriptError,
    >)
        ensures
            ({
                let ls = spec_lines(content@);
                let fname = spec_file_name(path@);
                &&& (r matches Err(e) ==> (e matches ScriptError::InvalidPath(_) || e
                    matches ScriptError::InvalidDependencyPath(_) || e
                    matches ScriptError::InvalidScriptOption(_)))
                &&& (r matches Err(ScriptError::InvalidPath(p)) ==> p@ == path@
                    && fname is None)
                &&& ((attr_value_of(ls, name_tag()) is None && fname is None) ==> r matches Err(
                    ScriptError::InvalidPath(_),
                ))
                &&& (r matches Err(ScriptError::InvalidDependencyPath(d)) ==> starts_with_seq(
                    d@,
                    "../"@,
                ) && (declares_after(ls, d@) || declares_requirement(ls, d@)))
                &&& (r matches Err(ScriptError::InvalidScriptOption(_)) ==> opt_texts(
                    ls,
                    0,
                ).len() > 0)
                &&& ((!(attr_value_of(ls, name_tag()) is None && fname is None) && (has_bad_after(
                    ls,
                ) || has_bad_requirement(ls))) ==> r matches Err(
                    ScriptError::InvalidDependencyPath(_),
                ))
                &&& ((fname is Some && !has_bad_after(ls) && !has_bad_requirement(ls)
                    && opt_texts(ls, 0).len() == 0) ==> r is Ok)
                &&& (r matches Ok(s) ==> {
                    &&& fname is Some
                    &&& s@.pathname == fname.unwrap()
                    &&& s@.absolute_pathname == path@
                    &&& s@.embedded == embedded
                    &&& s@.name == (match attr_value_of(ls, name_tag()) {
                        Some(v) => v,
                        None => fname.unwrap(),
                    })
                    &&& s@.description == attr_value_of(ls, description_tag())
                    &&& s@.after == (match attr_value_of(ls, after_tag()) {
                        Some(v) => Some(spec_tokens(v)),
                        None => None::<Seq<Seq<char>>>,
                    })
                    &&& (match attr_value_of(ls, after_tag()) {
                        Some(v) => forall|k: int| 0 <= k < spec_tokens(v).len()
                            ==> !starts_with_seq(#[trigger] spec_tokens(v)[k], "../"@),
                        None => true,
                    })
                    &&& s@.requirements == (if requires_from(ls, 0).len() == 0 {
                        None::<Seq<ScriptRequirementView>>
                    } else {
                        Some(requires_from(ls, 0))
                    })
                    &&& (forall|j: int| 0 <= j < requires_from(ls, 0).len()
                        ==> !starts_with_seq((#[trigger] requires_from(ls, 0)[j]).script, "../"@))
                    &&& s@.args == (if args_from(ls, 0).len() == 0 {
                        None::<Seq<ScriptArgView>>
                    } else {
                        Some(args_from(ls, 0))
                    })
                    &&& (match s@.opts {
                        Some(os) => os.len() == opt_texts(ls, 0).len() && opt_texts(ls, 0).len()
                            > 0,
                        None => opt_texts(ls, 0).len() == 0,
                    })
                    &&& s@.stdin == (if contains_seq(content@, stdin_marker()) {
                        Some("inherit"@)
                    } else {
                        None::<Seq<char>>
                    })
                })
            }),
    {
        let lines: Vec<String> = split_lines(content);
        let ghost ls = spec_lines(content@);
        let fname: Option<String> = file_name_of(path);
        let name_attr: Option<String> = get_attribute(&lines, "@vercel.name");
        let name: String = match name_attr {
            Some(v) => {
                proof {
                    assert(attr_value_of(ls, name_tag()) == Some(v@));
                }
                v
            },
            None => match &fname {
                Some(f) => {
                    proof {
                        assert(spec_file_name(path@) == Some(f@));
                    }
                    f.clone()
                },
                None => {
                    return Err(ScriptError::InvalidPath(String::from_str(path)));
                },
            },
        };
        proof {
            assert(attr_value_of(ls, name_tag()) is Some || spec_file_name(path@) is Some);
            assert(name@ == (match attr_value_of(ls, name_tag()) {
                Some(v) => v,
                None => spec_file_name(path@).unwrap(),
            }));
        }
        let description: Option<String> = get_attribute(&lines, "@vercel.description");
        let after: Option<Vec<String>> = match get_attribute(&lines, "@vercel.after") {
            Some(v) => {
                let toks: Vec<String> = split_tokens(v.as_str());
                proof {
                    assert(attr_value_of(ls, after_tag()) == Some(v@));
                    assert(toks.deep_view() == spec_tokens(v@));
                }
                Some(toks)
            },
            None => None,
        };
        proof {
            assert(match after {
                Some(ref toks) => attr_value_of(ls, after_tag()) is Some && toks.deep_view()
                    == spec_tokens(attr_value_of(ls, after_tag()).unwrap()),
                None => attr_value_of(ls, after_tag()) is None,
            });
        }
        if let Some(deps) = &after {
            let ghost av = attr_value_of(ls, after_tag()).unwrap();
            let dn: usize = deps.len();
            let mut k: usize = 0;
            while k < dn
                invariant
                    ls == spec_lines(content@),
                    attr_value_of(ls, name_tag()) is Some || spec_file_name(path@) is Some,
                    dn == deps@.len(),
                    deps.deep_view() == spec_tokens(av),
                    attr_value_of(ls, after_tag()) == Some(av),
                    k <= dn,
                    forall|j: int| 0 <= j < k ==> !starts_with_seq(
                        (#[trigger] deps@[j])@,
                        "../"@,
                    ),
                decreases dn - k,
            {
                proof {
                    reveal_strlit("../");
                }
                if starts_with_str(deps[k].as_str(), "../") {
                    proof {
                        assert(deps.deep_view()[k as int] == deps@[k as int]@);
                        assert(spec_tokens(av)[k as int] == deps@[k as int]@);
                        assert(spec_tokens(av).contains(deps@[k as int]@));
                        assert(starts_with_seq(spec_tokens(av)[k as int], "../"@));
                        assert(attr_value_of(ls, after_tag()).unwrap() == av);
                        assert(starts_with_seq(
                            spec_tokens(attr_value_of(ls, after_tag()).unwrap())[k as int],
                            "../"@,
                        ));
                        assert(has_bad_after(ls));
                    }
                    return Err(ScriptError::InvalidDependencyPath(deps[k].clone()));
                }
                k += 1;
            }
            proof {
                assert(!has_bad_after(ls)) by {
                    assert(forall|j: int| 0 <= j < spec_tokens(av).len()
                        ==> !starts_with_seq(#[trigger] spec_tokens(av)[j], "../"@)) by {
                        assert(forall|j: int| 0 <= j < deps@.len() ==> spec_tokens(av)[j]
                            == (#[trigger] deps@[j])@);
                    }
                }
            }
        }
        proof {
            assert(!has_bad_after(ls));
        }
        let requirements: Option<Vec<ScriptRequirement>> = match collect_requirements(&lines) {
            Ok(o) => o,
            Err(e) => {
                proof {
                    assert(e matches ScriptError::InvalidDependencyPath(d)
                        && declares_requirement(ls, d@) && starts_with_seq(d@, "../"@));
                    match &e {
                        ScriptError::InvalidDependencyPath(d) => {
                            assert(declares_requirement(ls, d@));
                            let j = choose|j: int|
                                0 <= j < requires_from(ls, 0).len() && requires_from(ls, 0)[j]
                                    .script == d@;
                            assert(0 <= j < requires_from(ls, 0).len() && requires_from(ls, 0)[j]
                                .script == d@);
                            assert(starts_with_seq(requires_from(ls, 0)[j].script, "../"@));
                            assert(has_bad_requirement(ls));
                        },
                        _ => {},
                    }
                }
                return Err(e);
            },
        };
        proof {
            assert(!has_bad_requirement(ls));
        }
        let args: Option<Vec<ScriptArg>> = collect_args(&lines);
        let opts: Option<Vec<crate::script::ScriptOpt>> = match collect_opts(&lines) {
            Ok(o) => o,
            Err(e) => {
                return Err(e);
            },
        };
        let stdin: Option<String> = if contains_str(content, "@vercel.stdin inherit") {
            Some(String::from_str("inherit"))
        } else {
            None
        };
        let pathname: String = match fname {
            Some(f) => f,
            None => {
                return Err(ScriptError::InvalidPath(String::from_str(path)));
            },
        };
        let s = Script {
            name,
            description,
            after,
            requirements,
            absolute_pathname: String::from_str(path),
            pathname,
            embedded,
            args,
            opts,
            stdin,
        };
        proof {
            let ls = spec_lines(content@);
            assert(s@.after == (match attr_value_of(ls, after_tag()) {
                Some(v) => Some(spec_tokens(v)),
                None => None::<Seq<Seq<char>>>,
            })) by {
                if attr_value_of(ls, after_tag()) is Some {
                    assert(s.after matches Some(d) && d.deep_view() == spec_tokens(
                        attr_value_of(ls, after_tag()).unwrap(),
                    ));
                }
            }
        }
        Ok(s)
    }
}

} // verus!
