//! The execution engine's decision core: a state machine that hands out,
//! in dependency order, one spawn request at a time — each with the full
//! subprocess environment assembled from declared arguments, options and
//! the variables earlier scripts exported — validates data dependencies
//! before anything spawns, collects each finished script's exports, and
//! halts the whole run at the first failure. The host performs the actual
//! spawning and stream I/O and reports each outcome back.

use vstd::prelude::*;
use vstd::string::StrSliceExecFns;
use vstd::string::StringExecFns;
use vstd::pervasive::VecAdditionalExecFns;
use crate::codec::{
    marker_line_export, marker_state_after, marker_stream_exports, read_exports_from_files,
    snapshot_diff, ExportLineResult, ExportParser,
};
use crate::manager::{join_path, parent_dir};
use crate::parser::{spec_file_name, ScriptParser};
use crate::script::{Script, ScriptArgView, ScriptOptView, ScriptRequirementView, ScriptView};
use crate::vars::{distinct_keys, lemma_map_of_props, map_of, VarMap};

verus! {

broadcast use vstd::string::group_string_axioms;

/// A value a declared argument or option may hold, as the engine reads
/// it: null, a boolean, a string, or anything else already rendered to
/// the text the subprocess environment receives.
#[derive(Debug)]
pub enum ConfigValue {
    Null,
    Bool(bool),
    Str(String),
    Rendered(String),
}

/// The mathematical content of a `ConfigValue`.
pub enum ConfigValueView {
    Null,
    Bool(bool),
    Str(Seq<char>),
    Rendered(Seq<char>),
}

impl DeepView for ConfigValue {
    type V = ConfigValueView;

    open spec fn deep_view(&self) -> ConfigValueView {
        match self {
            ConfigValue::Null => ConfigValueView::Null,
            ConfigValue::Bool(b) => ConfigValueView::Bool(*b),
            ConfigValue::Str(s) => ConfigValueView::Str(s@),
            ConfigValue::Rendered(s) => ConfigValueView::Rendered(s@),
        }
    }
}

impl Clone for ConfigValue {
    fn clone(&self) -> (res: Self)
        ensures
            res.deep_view() == self.deep_view(),
    {
        match self {
            ConfigValue::Null => ConfigValue::Null,
            ConfigValue::Bool(b) => ConfigValue::Bool(*b),
            ConfigValue::Str(s) => ConfigValue::Str(s.clone()),
            ConfigValue::Rendered(s) => ConfigValue::Rendered(s.clone()),
        }
    }
}

/// The text a value contributes to the environment: booleans and null as
/// their JSON spellings, strings and pre-rendered values verbatim.
pub open spec fn render(v: ConfigValueView) -> Seq<char> {
    match v {
        ConfigValueView::Null => "null"@,
        ConfigValueView::Bool(b) => if b {
            "true"@
        } else {
            "false"@
        },
        ConfigValueView::Str(s) => s,
        ConfigValueView::Rendered(s) => s,
    }
}

/// Render a value to its environment text.
pub fn render_value(v: &ConfigValue) -> (r: String)
    ensures
        r@ == render(v.deep_view()),
{
    match v {
        ConfigValue::Null => String::from_str("null"),
        ConfigValue::Bool(b) => if *b {
            String::from_str("true")
        } else {
            String::from_str("false")
        },
        ConfigValue::Str(s) => s.clone(),
        ConfigValue::Rendered(s) => s.clone(),
    }
}

/// The key-and-value views of a vector of named values.
pub open spec fn cfg_entry_views(entries: Seq<(String, ConfigValue)>) -> Seq<
    (Seq<char>, ConfigValueView),
> {
    entries.map_values(|e: (String, ConfigValue)| (e.0@, e.1.deep_view()))
}

/// A map from names to configured values.
pub struct CfgMap {
    entries: Vec<(String, ConfigValue)>,
}

impl View for CfgMap {
    type V = Map<Seq<char>, ConfigValueView>;

    closed spec fn view(&self) -> Map<Seq<char>, ConfigValueView> {
        map_of(cfg_entry_views(self.entries@))
    }
}

impl CfgMap {
    /// The backing entries have pairwise-distinct keys.
    pub closed spec fn wf(&self) -> bool {
        distinct_keys(cfg_entry_views(self.entries@))
    }

    /// The empty map.
    pub fn new() -> (r: CfgMap)
        ensures
            r.wf(),
            r@ == Map::<Seq<char>, ConfigValueView>::empty(),
    {
        CfgMap { entries: Vec::new() }
    }

    /// The value bound to `key`, if any.
    pub fn get(&self, key: &str) -> (r: Option<&ConfigValue>)
        requires
            self.wf(),
        ensures
            match r {
                Some(v) => self@.dom().contains(key@) && v.deep_view() == self@[key@],
                None => !self@.dom().contains(key@),
            },
    {
        proof {
            lemma_map_of_props(cfg_entry_views(self.entries@));
        }
        let n: usize = self.entries.len();
        let mut i: usize = 0;
        while i < n
            invariant
                self.wf(),
                n == self.entries@.len(),
                i <= n,
                forall|j: int| 0 <= j < i ==> #[trigger] cfg_entry_views(self.entries@)[j].0
                    != key@,
            decreases n - i,
        {
            if crate::text::str_eq(self.entries[i].0.as_str(), key) {
                proof {
                    lemma_map_of_props(cfg_entry_views(self.entries@));
                    assert(cfg_entry_views(self.entries@)[i as int].0 == key@);
                }
                return Some(&self.entries[i].1);
            }
            i += 1;
        }
        proof {
            lemma_map_of_props(cfg_entry_views(self.entries@));
        }
        None
    }

    /// Bind `key` to `value`, replacing any earlier binding.
    pub fn insert(&mut self, key: String, value: ConfigValue)
        requires
            old(self).wf(),
        ensures
            final(self).wf(),
            final(self)@ == old(self)@.insert(key@, value.deep_view()),
    {
        proof {
            lemma_map_of_props(cfg_entry_views(self.entries@));
        }
        let n: usize = self.entries.len();
        let mut i: usize = 0;
        while i < n
            invariant
                self.wf(),
                self.entries@ == old(self).entries@,
                n == self.entries@.len(),
                i <= n,
                forall|j: int| 0 <= j < i ==> #[trigger] cfg_entry_views(self.entries@)[j].0
                    != key@,
            decreases n - i,
        {
            if crate::text::str_eq(self.entries[i].0.as_str(), key.as_str()) {
                proof {
                    assert(cfg_entry_views(self.entries@)[i as int].0 == key@);
                }
                let ghost vdv = value.deep_view();
                self.entries.set(i, (key, value));
                proof {
                    let old_vs = cfg_entry_views(old(self).entries@);
                    let new_vs = cfg_entry_views(self.entries@);
                    assert(new_vs =~= old_vs.update(i as int, (key@, vdv)));
                    assert(distinct_keys(new_vs)) by {
                        assert(forall|j: int| 0 <= j < new_vs.len() && j != i ==> new_vs[j]
                            == old_vs[j]);
                    }
                    lemma_map_of_props(new_vs);
                    lemma_map_of_props(old_vs);
                    assert(map_of(new_vs) =~= map_of(old_vs).insert(key@, vdv)) by {
                        assert(forall|j: int| 0 <= j < new_vs.len() && j != i
                            ==> #[trigger] new_vs[j] == old_vs[j]);
                        assert(forall|k: Seq<char>| map_of(new_vs).dom().contains(k)
                            <==> map_of(old_vs).insert(key@, vdv).dom().contains(k)) by {
                            assert(forall|j: int| 0 <= j < old_vs.len() && j != i
                                ==> old_vs[j].0 == new_vs[j].0);
                            assert(new_vs[i as int].0 == key@);
                            assert(old_vs[i as int].0 == key@);
                        }
                    }
                }
                return ;
            }
            i += 1;
        }
        let ghost old_vs = cfg_entry_views(self.entries@);
        self.entries.push((key, value));
        proof {
            let new_vs = cfg_entry_views(self.entries@);
            assert(new_vs =~= old_vs.push((key@, value.deep_view())));
            assert(new_vs.drop_last() =~= old_vs);
            assert(distinct_keys(new_vs)) by {
                assert(forall|j: int| 0 <= j < old_vs.len() ==> #[trigger] new_vs[j]
                    == old_vs[j]);
                lemma_map_of_props(old_vs);
            }
        }
    }
}

/// The key-and-value views of the export store's entries.
pub open spec fn export_entry_views(entries: Seq<(String, VarMap)>) -> Seq<
    (Seq<char>, Map<Seq<char>, Seq<char>>),
> {
    entries.map_values(|e: (String, VarMap)| (e.0@, e.1@))
}

/// The variables each finished script exported, keyed by its pathname.
pub struct ExportMap {
    entries: Vec<(String, VarMap)>,
}

impl View for ExportMap {
    type V = Map<Seq<char>, Map<Seq<char>, Seq<char>>>;

    closed spec fn view(&self) -> Map<Seq<char>, Map<Seq<char>, Seq<char>>> {
        map_of(export_entry_views(self.entries@))
    }
}

impl ExportMap {
    /// Distinct pathnames, each mapped to a well-formed variable map.
    pub closed spec fn wf(&self) -> bool {
        &&& distinct_keys(export_entry_views(self.entries@))
        &&& forall|i: int| 0 <= i < self.entries@.len()
            ==> (#[trigger] self.entries@[i]).1.wf()
    }

    /// The empty store.
    pub fn new() -> (r: ExportMap)
        ensures
            r.wf(),
            r@ == Map::<Seq<char>, Map<Seq<char>, Seq<char>>>::empty(),
    {
        ExportMap { entries: Vec::new() }
    }

    /// The exports recorded under `key`, if any.
    pub fn get(&self, key: &str) -> (r: Option<&VarMap>)
        requires
            self.wf(),
        ensures
            match r {
                Some(m) => self@.dom().contains(key@) && m.wf() && m@ == self@[key@],
                None => !self@.dom().contains(key@),
            },
    {
        proof {
            lemma_map_of_props(export_entry_views(self.entries@));
        }
        let n: usize = self.entries.len();
        let mut i: usize = 0;
        while i < n
            invariant
                self.wf(),
                n == self.entries@.len(),
                i <= n,
                forall|j: int| 0 <= j < i ==> #[trigger] export_entry_views(self.entries@)[j].0
                    != key@,
            decreases n - i,
        {
            if crate::text::str_eq(self.entries[i].0.as_str(), key) {
                proof {
                    lemma_map_of_props(export_entry_views(self.entries@));
                    assert(export_entry_views(self.entries@)[i as int].0 == key@);
                }
                return Some(&self.entries[i].1);
            }
            i += 1;
        }
        proof {
            lemma_map_of_props(export_entry_views(self.entries@));
        }
        None
    }

    /// Record the exports of one finished script, replacing any earlier
    /// record under the same pathname.
    pub fn insert(&mut self, key: String, value: VarMap)
        requires
            old(self).wf(),
            value.wf(),
        ensures
            final(self).wf(),
            final(self)@ == old(self)@.insert(key@, value@),
    {
        proof {
            lemma_map_of_props(export_entry_views(self.entries@));
        }
        let n: usize = self.entries.len();
        let mut i: usize = 0;
        while i < n
            invariant
                self.wf(),
                value.wf(),
                self.entries@ == old(self).entries@,
                n == self.entries@.len(),
                i <= n,
                forall|j: int| 0 <= j < i ==> #[trigger] export_entry_views(self.entries@)[j].0
                    != key@,
            decreases n - i,
        {
            if crate::text::str_eq(self.entries[i].0.as_str(), key.as_str()) {
                proof {
                    assert(export_entry_views(self.entries@)[i as int].0 == key@);
                }
                let ghost vdv = value@;
                self.entries.set(i, (key, value));
                proof {
                    let old_vs = export_entry_views(old(self).entries@);
                    let new_vs = export_entry_views(self.entries@);
                    assert(new_vs =~= old_vs.update(i as int, (key@, vdv)));
                    assert(distinct_keys(new_vs)) by {
                        assert(forall|j: int| 0 <= j < new_vs.len() && j != i ==> new_vs[j]
                            == old_vs[j]);
                    }
                    lemma_map_of_props(new_vs);
                    lemma_map_of_props(old_vs);
                    assert(map_of(new_vs) =~= map_of(old_vs).insert(key@, vdv)) by {
                        assert(forall|j: int| 0 <= j < new_vs.len() && j != i
                            ==> #[trigger] new_vs[j] == old_vs[j]);
                        assert(forall|k: Seq<char>| map_of(new_vs).dom().contains(k)
                            <==> map_of(old_vs).insert(key@, vdv).dom().contains(k)) by {
                            assert(forall|j: int| 0 <= j < old_vs.len() && j != i
                                ==> old_vs[j].0 == new_vs[j].0);
                            assert(new_vs[i as int].0 == key@);
                            assert(old_vs[i as int].0 == key@);
                        }
                    }
                }
                return ;
            }
            i += 1;
        }
        let ghost old_vs = export_entry_views(self.entries@);
        self.entries.push((key, value));
        proof {
            let new_vs = export_entry_views(self.entries@);
            assert(new_vs =~= old_vs.push((key@, value@)));
            assert(new_vs.drop_last() =~= old_vs);
            assert(distinct_keys(new_vs)) by {
                assert(forall|j: int| 0 <= j < old_vs.len() ==> #[trigger] new_vs[j]
                    == old_vs[j]);
                lemma_map_of_props(old_vs);
            }
            assert(forall|j: int| 0 <= j < old(self).entries@.len()
                ==> (#[trigger] self.entries@[j]).1 == old(self).entries@[j].1);
        }
    }
}

} // verus!

verus! {

/// The name a declared option goes by.
pub open spec fn opt_name_view(o: ScriptOptView) -> Seq<char> {
    match o {
        ScriptOptView::Boolean { name, .. } => name,
        ScriptOptView::String { name, .. } => name,
        ScriptOptView::Worktree { name, .. } => name,
    }
}

/// The environment a run starts from: empty, with the debug flag variable
/// set when debugging is on.
pub open spec fn env_base(debug: bool) -> Map<Seq<char>, Seq<char>> {
    if debug {
        Map::<Seq<char>, Seq<char>>::empty().insert("VSS_DEBUG"@, "1"@)
    } else {
        Map::<Seq<char>, Seq<char>>::empty()
    }
}

/// The environment after the declared arguments from `i` on: each whose
/// name has a known value contributes that value's text.
pub open spec fn env_args(
    m: Map<Seq<char>, Seq<char>>,
    args: Seq<ScriptArgView>,
    gargs: Map<Seq<char>, ConfigValueView>,
    i: int,
) -> Map<Seq<char>, Seq<char>>
    recommends
        0 <= i,
    decreases args.len() - i when 0 <= i
{
    if i >= args.len() {
        m
    } else {
        let m2 = if gargs.dom().contains(args[i].name) {
            m.insert(args[i].name, render(gargs[args[i].name]))
        } else {
            m
        };
        env_args(m2, args, gargs, i + 1)
    }
}

/// The environment after the declared options from `i` on: each whose
/// name has a known non-null value contributes that value's text.
pub open spec fn env_opts(
    m: Map<Seq<char>, Seq<char>>,
    opts: Seq<ScriptOptView>,
    aopts: Map<Seq<char>, ConfigValueView>,
    i: int,
) -> Map<Seq<char>, Seq<char>>
    recommends
        0 <= i,
    decreases opts.len() - i when 0 <= i
{
    if i >= opts.len() {
        m
    } else {
        let name = opt_name_view(opts[i]);
        let m2 = if aopts.dom().contains(name) && !(aopts[name] is Null) {
            m.insert(name, render(aopts[name]))
        } else {
            m
        };
        env_opts(m2, opts, aopts, i + 1)
    }
}

/// The export-map key a requirement's script reference looks up: the
/// normalized reference as a known requirement path, then — for an
/// external script — relative to the script's own directory, then the
/// reference itself.
pub open spec fn req_key(
    req_script: Seq<char>,
    sv: ScriptView,
    pmap: Map<Seq<char>, Seq<char>>,
) -> Seq<char> {
    let nr = ScriptParser::normalize_dep_spec(req_script);
    if pmap.dom().contains(nr) {
        pmap[nr]
    } else if !sv.embedded && (match parent_dir(sv.absolute_pathname) {
        Some(pd) => pmap.dom().contains(join_path(pd, nr)),
        None => false,
    }) {
        pmap[join_path(parent_dir(sv.absolute_pathname).unwrap(), nr)]
    } else {
        req_script
    }
}

/// The environment after the requested variables from `i` on: each that
/// the dependency exported contributes its exported value.
pub open spec fn env_req_vars(
    m: Map<Seq<char>, Seq<char>>,
    vars: Seq<Seq<char>>,
    ex: Map<Seq<char>, Seq<char>>,
    i: int,
) -> Map<Seq<char>, Seq<char>>
    recommends
        0 <= i,
    decreases vars.len() - i when 0 <= i
{
    if i >= vars.len() {
        m
    } else {
        let m2 = if ex.dom().contains(vars[i]) {
            m.insert(vars[i], ex[vars[i]])
        } else {
            m
        };
        env_req_vars(m2, vars, ex, i + 1)
    }
}

/// The environment after the data dependencies from `i` on.
pub open spec fn env_reqs(
    m: Map<Seq<char>, Seq<char>>,
    reqs: Seq<ScriptRequirementView>,
    sv: ScriptView,
    exports: Map<Seq<char>, Map<Seq<char>, Seq<char>>>,
    pmap: Map<Seq<char>, Seq<char>>,
    i: int,
) -> Map<Seq<char>, Seq<char>>
    recommends
        0 <= i,
    decreases reqs.len() - i when 0 <= i
{
    if i >= reqs.len() {
        m
    } else {
        let key = req_key(reqs[i].script, sv, pmap);
        let m2 = if exports.dom().contains(key) {
            env_req_vars(m, reqs[i].variables, exports[key], 0)
        } else {
            m
        };
        env_reqs(m2, reqs, sv, exports, pmap, i + 1)
    }
}

/// The full subprocess environment of one script: the debug flag, its
/// arguments, its options, the variables its dependencies exported, and
/// the two snapshot-file paths under their fixed names.
pub open spec fn spec_env(
    sv: ScriptView,
    gargs: Map<Seq<char>, ConfigValueView>,
    aopts: Map<Seq<char>, ConfigValueView>,
    exports: Map<Seq<char>, Map<Seq<char>, Seq<char>>>,
    pmap: Map<Seq<char>, Seq<char>>,
    debug: bool,
    pre: Seq<char>,
    post: Seq<char>,
) -> Map<Seq<char>, Seq<char>> {
    let m0 = env_base(debug);
    let m1 = match sv.args {
        Some(a) => env_args(m0, a, gargs, 0),
        None => m0,
    };
    let m2 = match sv.opts {
        Some(o) => env_opts(m1, o, aopts, 0),
        None => m1,
    };
    let m3 = match sv.requirements {
        Some(rs) => env_reqs(m2, rs, sv, exports, pmap, 0),
        None => m2,
    };
    m3.insert("VSS_PRE_ENV_FILE"@, pre).insert("VSS_POST_ENV_FILE"@, post)
}

/// One reason a script may not start: a dependency exported nothing, or
/// exported values but not a variable the script requires.
#[derive(Debug)]
pub enum ValidationIssue {
    /// The dependency ran but never exported the required variable.
    MissingVariable { variable: String, script: String, dependency: String },
    /// The dependency exported no variables at all.
    NoExports { script: String, dependency: String },
}

/// The mathematical content of a `ValidationIssue`.
pub enum ValidationIssueView {
    MissingVariable { variable: Seq<char>, script: Seq<char>, dependency: Seq<char> },
    NoExports { script: Seq<char>, dependency: Seq<char> },
}

impl DeepView for ValidationIssue {
    type V = ValidationIssueView;

    open spec fn deep_view(&self) -> ValidationIssueView {
        match self {
            ValidationIssue::MissingVariable { variable, script, dependency } => {
                ValidationIssueView::MissingVariable {
                    variable: variable@,
                    script: script@,
                    dependency: dependency@,
                }
            },
            ValidationIssue::NoExports { script, dependency } => {
                ValidationIssueView::NoExports { script: script@, dependency: dependency@ }
            },
        }
    }
}

impl ValidationIssue {
    /// The issue rendered as one line of text.
    pub fn message(&self) -> (r: String)
        ensures
            match self {
                ValidationIssue::MissingVariable { variable, script, dependency } => r@
                    == "Variable '"@ + variable@ + "' required by script '"@ + script@
                    + "' was not exported by script '"@ + dependency@ + "'"@,
                ValidationIssue::NoExports { script, dependency } => r@ == "Script '"@ + script@
                    + "' requires variables from '"@ + dependency@
                    + "', but that script did not export any variables"@,
            },
    {
        match self {
            ValidationIssue::MissingVariable { variable, script, dependency } => {
                let mut r = String::from_str("Variable '");
                r.append(variable.as_str());
                r.append("' required by script '");
                r.append(script.as_str());
                r.append("' was not exported by script '");
                r.append(dependency.as_str());
                r.append("'");
                r
            },
            ValidationIssue::NoExports { script, dependency } => {
                let mut r = String::from_str("Script '");
                r.append(script.as_str());
                r.append("' requires variables from '");
                r.append(dependency.as_str());
                r.append("', but that script did not export any variables");
                r
            },
        }
    }
}

/// The issues the requested variables from `i` on raise against what the
/// dependency exported.
pub open spec fn issues_vars(
    acc: Seq<ValidationIssueView>,
    vars: Seq<Seq<char>>,
    ex: Map<Seq<char>, Seq<char>>,
    sname: Seq<char>,
    dep: Seq<char>,
    i: int,
) -> Seq<ValidationIssueView>
    recommends
        0 <= i,
    decreases vars.len() - i when 0 <= i
{
    if i >= vars.len() {
        acc
    } else {
        let acc2 = if ex.dom().contains(vars[i]) {
            acc
        } else {
            acc + seq![
                ValidationIssueView::MissingVariable {
                    variable: vars[i],
                    script: sname,
                    dependency: dep,
                },
            ]
        };
        issues_vars(acc2, vars, ex, sname, dep, i + 1)
    }
}

/// The issues the data dependencies from `i` on raise.
pub open spec fn issues_reqs(
    acc: Seq<ValidationIssueView>,
    reqs: Seq<ScriptRequirementView>,
    sv: ScriptView,
    exports: Map<Seq<char>, Map<Seq<char>, Seq<char>>>,
    pmap: Map<Seq<char>, Seq<char>>,
    i: int,
) -> Seq<ValidationIssueView>
    recommends
        0 <= i,
    decreases reqs.len() - i when 0 <= i
{
    if i >= reqs.len() {
        acc
    } else {
        let key = req_key(reqs[i].script, sv, pmap);
        let acc2 = if exports.dom().contains(key) {
            issues_vars(acc, reqs[i].variables, exports[key], sv.name, reqs[i].script, 0)
        } else {
            acc + seq![
                ValidationIssueView::NoExports { script: sv.name, dependency: reqs[i].script },
            ]
        };
        issues_reqs(acc2, reqs, sv, exports, pmap, i + 1)
    }
}

/// Every validation issue one script raises before it may start.
pub open spec fn spec_issues(
    sv: ScriptView,
    exports: Map<Seq<char>, Map<Seq<char>, Seq<char>>>,
    pmap: Map<Seq<char>, Seq<char>>,
) -> Seq<ValidationIssueView> {
    match sv.requirements {
        Some(rs) => issues_reqs(Seq::empty(), rs, sv, exports, pmap, 0),
        None => Seq::empty(),
    }
}

proof fn lemma_env_req_vars_mono(
    m: Map<Seq<char>, Seq<char>>,
    vars: Seq<Seq<char>>,
    ex: Map<Seq<char>, Seq<char>>,
    i: int,
    x: Seq<char>,
)
    requires
        0 <= i,
        m.dom().contains(x),
    ensures
        env_req_vars(m, vars, ex, i).dom().contains(x),
    decreases vars.len() - i,
{
    if i < vars.len() {
        if ex.dom().contains(vars[i]) {
            lemma_env_req_vars_mono(m.insert(vars[i], ex[vars[i]]), vars, ex, i + 1, x);
        } else {
            lemma_env_req_vars_mono(m, vars, ex, i + 1, x);
        }
    }
}

proof fn lemma_env_req_vars_adds(
    m: Map<Seq<char>, Seq<char>>,
    vars: Seq<Seq<char>>,
    ex: Map<Seq<char>, Seq<char>>,
    i: int,
    j: int,
)
    requires
        0 <= i <= j < vars.len(),
        ex.dom().contains(vars[j]),
    ensures
        env_req_vars(m, vars, ex, i).dom().contains(vars[j]),
    decreases j - i,
{
    if i == j {
        lemma_env_req_vars_mono(m.insert(vars[i], ex[vars[i]]), vars, ex, i + 1, vars[j]);
    } else {
        if ex.dom().contains(vars[i]) {
            lemma_env_req_vars_adds(m.insert(vars[i], ex[vars[i]]), vars, ex, i + 1, j);
        } else {
            lemma_env_req_vars_adds(m, vars, ex, i + 1, j);
        }
    }
}

proof fn lemma_env_reqs_mono(
    m: Map<Seq<char>, Seq<char>>,
    reqs: Seq<ScriptRequirementView>,
    sv: ScriptView,
    exports: Map<Seq<char>, Map<Seq<char>, Seq<char>>>,
    pmap: Map<Seq<char>, Seq<char>>,
    i: int,
    x: Seq<char>,
)
    requires
        0 <= i,
        m.dom().contains(x),
    ensures
        env_reqs(m, reqs, sv, exports, pmap, i).dom().contains(x),
    decreases reqs.len() - i,
{
    if i < reqs.len() {
        let key = req_key(reqs[i].script, sv, pmap);
        if exports.dom().contains(key) {
            lemma_env_req_vars_mono(m, reqs[i].variables, exports[key], 0, x);
            lemma_env_reqs_mono(
                env_req_vars(m, reqs[i].variables, exports[key], 0),
                reqs,
                sv,
                exports,
                pmap,
                i + 1,
                x,
            );
        } else {
            lemma_env_reqs_mono(m, reqs, sv, exports, pmap, i + 1, x);
        }
    }
}

/// An exported variable a data dependency makes available and a
/// requirement names always stands in the dependent's assembled
/// environment: a run where a dependency exported a requested variable
/// hands it on to the dependent's subprocess.
pub proof fn lemma_required_export_reaches_environment(
    sv: ScriptView,
    gargs: Map<Seq<char>, ConfigValueView>,
    aopts: Map<Seq<char>, ConfigValueView>,
    exports: Map<Seq<char>, Map<Seq<char>, Seq<char>>>,
    pmap: Map<Seq<char>, Seq<char>>,
    debug: bool,
    pre: Seq<char>,
    post: Seq<char>,
    r_idx: int,
    v_idx: int,
)
    requires
        sv.requirements matches Some(rs) && 0 <= r_idx < rs.len() && 0 <= v_idx
            < rs[r_idx].variables.len() && exports.dom().contains(
            req_key(rs[r_idx].script, sv, pmap),
        ) && exports[req_key(rs[r_idx].script, sv, pmap)].dom().contains(
            rs[r_idx].variables[v_idx],
        ),
    ensures
        sv.requirements matches Some(rs) ==> spec_env(
            sv,
            gargs,
            aopts,
            exports,
            pmap,
            debug,
            pre,
            post,
        ).dom().contains(rs[r_idx].variables[v_idx]),
{
    let rs = sv.requirements.unwrap();
    let var = rs[r_idx].variables[v_idx];
    let m0 = env_base(debug);
    let m1 = match sv.args {
        Some(a) => env_args(m0, a, gargs, 0),
        None => m0,
    };
    let m2 = match sv.opts {
        Some(o) => env_opts(m1, o, aopts, 0),
        None => m1,
    };
    lemma_env_reqs_in(m2, rs, sv, exports, pmap, 0, r_idx, v_idx);
    assert(env_reqs(m2, rs, sv, exports, pmap, 0).dom().contains(var));
}

proof fn lemma_env_reqs_in(
    m: Map<Seq<char>, Seq<char>>,
    reqs: Seq<ScriptRequirementView>,
    sv: ScriptView,
    exports: Map<Seq<char>, Map<Seq<char>, Seq<char>>>,
    pmap: Map<Seq<char>, Seq<char>>,
    i: int,
    r_idx: int,
    v_idx: int,
)
    requires
        0 <= i <= r_idx < reqs.len(),
        0 <= v_idx < reqs[r_idx].variables.len(),
        exports.dom().contains(req_key(reqs[r_idx].script, sv, pmap)),
        exports[req_key(reqs[r_idx].script, sv, pmap)].dom().contains(
            reqs[r_idx].variables[v_idx],
        ),
    ensures
        env_reqs(m, reqs, sv, exports, pmap, i).dom().contains(reqs[r_idx].variables[v_idx]),
    decreases r_idx - i,
{
    let key = req_key(reqs[i].script, sv, pmap);
    let m2 = if exports.dom().contains(key) {
        env_req_vars(m, reqs[i].variables, exports[key], 0)
    } else {
        m
    };
    if i == r_idx {
        lemma_env_req_vars_adds(m, reqs[i].variables, exports[key], 0, v_idx);
        lemma_env_reqs_mono(m2, reqs, sv, exports, pmap, i + 1, reqs[r_idx].variables[v_idx]);
    } else {
        lemma_env_reqs_in(m2, reqs, sv, exports, pmap, i + 1, r_idx, v_idx);
    }
}

proof fn lemma_issues_vars_mono(
    acc: Seq<ValidationIssueView>,
    vars: Seq<Seq<char>>,
    ex: Map<Seq<char>, Seq<char>>,
    sname: Seq<char>,
    dep: Seq<char>,
    i: int,
)
    requires
        0 <= i,
    ensures
        issues_vars(acc, vars, ex, sname, dep, i).len() >= acc.len(),
    decreases vars.len() - i,
{
    if i < vars.len() {
        if ex.dom().contains(vars[i]) {
            lemma_issues_vars_mono(acc, vars, ex, sname, dep, i + 1);
        } else {
            lemma_issues_vars_mono(
                acc + seq![
                    ValidationIssueView::MissingVariable {
                        variable: vars[i],
                        script: sname,
                        dependency: dep,
                    },
                ],
                vars,
                ex,
                sname,
                dep,
                i + 1,
            );
        }
    }
}

proof fn lemma_issues_vars_adds(
    acc: Seq<ValidationIssueView>,
    vars: Seq<Seq<char>>,
    ex: Map<Seq<char>, Seq<char>>,
    sname: Seq<char>,
    dep: Seq<char>,
    i: int,
    j: int,
)
    requires
        0 <= i <= j < vars.len(),
        !ex.dom().contains(vars[j]),
    ensures
        issues_vars(acc, vars, ex, sname, dep, i).len() > acc.len(),
    decreases j - i,
{
    if i == j {
        lemma_issues_vars_mono(
            acc + seq![
                ValidationIssueView::MissingVariable {
                    variable: vars[i],
                    script: sname,
                    dependency: dep,
                },
            ],
            vars,
            ex,
            sname,
            dep,
            i + 1,
        );
    } else {
        if ex.dom().contains(vars[i]) {
            lemma_issues_vars_adds(acc, vars, ex, sname, dep, i + 1, j);
        } else {
            lemma_issues_vars_adds(
                acc + seq![
                    ValidationIssueView::MissingVariable {
                        variable: vars[i],
                        script: sname,
                        dependency: dep,
                    },
                ],
                vars,
                ex,
                sname,
                dep,
                i + 1,
                j,
            );
        }
    }
}

proof fn lemma_issues_reqs_mono(
    acc: Seq<ValidationIssueView>,
    reqs: Seq<ScriptRequirementView>,
    sv: ScriptView,
    exports: Map<Seq<char>, Map<Seq<char>, Seq<char>>>,
    pmap: Map<Seq<char>, Seq<char>>,
    i: int,
)
    requires
        0 <= i,
    ensures
        issues_reqs(acc, reqs, sv, exports, pmap, i).len() >= acc.len(),
    decreases reqs.len() - i,
{
    if i < reqs.len() {
        let key = req_key(reqs[i].script, sv, pmap);
        if exports.dom().contains(key) {
            lemma_issues_vars_mono(acc, reqs[i].variables, exports[key], sv.name, reqs[i].script, 0);
            lemma_issues_reqs_mono(
                issues_vars(acc, reqs[i].variables, exports[key], sv.name, reqs[i].script, 0),
                reqs,
                sv,
                exports,
                pmap,
                i + 1,
            );
        } else {
            lemma_issues_reqs_mono(
                acc + seq![
                    ValidationIssueView::NoExports { script: sv.name, dependency: reqs[i].script },
                ],
                reqs,
                sv,
                exports,
                pmap,
                i + 1,
            );
        }
    }
}

proof fn lemma_issues_reqs_positive(
    acc: Seq<ValidationIssueView>,
    reqs: Seq<ScriptRequirementView>,
    sv: ScriptView,
    exports: Map<Seq<char>, Map<Seq<char>, Seq<char>>>,
    pmap: Map<Seq<char>, Seq<char>>,
    i: int,
    r_idx: int,
    v_idx: int,
)
    requires
        0 <= i <= r_idx < reqs.len(),
        ({
            let key = req_key(reqs[r_idx].script, sv, pmap);
            !exports.dom().contains(key) || (0 <= v_idx < reqs[r_idx].variables.len()
                && !exports[key].dom().contains(reqs[r_idx].variables[v_idx]))
        }),
    ensures
        issues_reqs(acc, reqs, sv, exports, pmap, i).len() > acc.len(),
    decreases r_idx - i,
{
    let key = req_key(reqs[i].script, sv, pmap);
    if i == r_idx {
        if exports.dom().contains(key) {
            lemma_issues_vars_adds(
                acc,
                reqs[i].variables,
                exports[key],
                sv.name,
                reqs[i].script,
                0,
                v_idx,
            );
            lemma_issues_reqs_mono(
                issues_vars(acc, reqs[i].variables, exports[key], sv.name, reqs[i].script, 0),
                reqs,
                sv,
                exports,
                pmap,
                i + 1,
            );
        } else {
            lemma_issues_reqs_mono(
                acc + seq![
                    ValidationIssueView::NoExports { script: sv.name, dependency: reqs[i].script },
                ],
                reqs,
                sv,
                exports,
                pmap,
                i + 1,
            );
        }
    } else {
        if exports.dom().contains(key) {
            lemma_issues_vars_mono(acc, reqs[i].variables, exports[key], sv.name, reqs[i].script, 0);
            lemma_issues_reqs_positive(
                issues_vars(acc, reqs[i].variables, exports[key], sv.name, reqs[i].script, 0),
                reqs,
                sv,
                exports,
                pmap,
                i + 1,
                r_idx,
                v_idx,
            );
        } else {
            lemma_issues_reqs_positive(
                acc + seq![
                    ValidationIssueView::NoExports { script: sv.name, dependency: reqs[i].script },
                ],
                reqs,
                sv,
                exports,
                pmap,
                i + 1,
                r_idx,
                v_idx,
            );
        }
    }
}

/// A requirement no dependency met always blocks the dependent: where the
/// dependency exported nothing under the looked-up key, or exported values
/// but not a named variable, the script's validation issues are nonempty —
/// and `begin_next` then answers `Invalid` and halts the run before any
/// spawn request is handed out.
pub proof fn lemma_unmet_requirement_blocks_spawn(
    sv: ScriptView,
    exports: Map<Seq<char>, Map<Seq<char>, Seq<char>>>,
    pmap: Map<Seq<char>, Seq<char>>,
    r_idx: int,
    v_idx: int,
)
    requires
        sv.requirements matches Some(rs) && 0 <= r_idx < rs.len() && ({
            let key = req_key(rs[r_idx].script, sv, pmap);
            !exports.dom().contains(key) || (0 <= v_idx < rs[r_idx].variables.len()
                && !exports[key].dom().contains(rs[r_idx].variables[v_idx]))
        }),
    ensures
        spec_issues(sv, exports, pmap).len() > 0,
{
    let rs = sv.requirements.unwrap();
    lemma_issues_reqs_positive(Seq::empty(), rs, sv, exports, pmap, 0, r_idx, v_idx);
}

/// Everything the host needs to spawn one script: its position, identity,
/// assembled environment, and whether its stdio is inherited.
pub struct SpawnRequest {
    pub index: usize,
    pub name: String,
    pub pathname: String,
    pub env: VarMap,
    pub inherit: bool,
}

/// What the engine asks the host to do next.
pub enum NextStep {
    /// Every script has run; the run succeeded.
    Done,
    /// A script failed earlier; the run's exit code.
    Failed(i32),
    /// The next script's data dependencies are unmet; nothing spawns.
    Invalid { script: String, issues: Vec<ValidationIssue> },
    /// Spawn this script and report its outcome.
    Run(SpawnRequest),
}

/// The requirement-path table after the first `i` scripts: embedded
/// scripts keyed by their bare filename, every script by its absolute
/// pathname, each mapping to the script's pathname.
pub open spec fn pathmap_upto(svs: Seq<ScriptView>, i: int) -> Map<Seq<char>, Seq<char>>
    decreases i when i >= 0
{
    if i <= 0 {
        Map::empty()
    } else {
        let sv = svs[i - 1];
        let m = pathmap_upto(svs, i - 1);
        let m2 = if sv.embedded && spec_file_name(sv.absolute_pathname) is Some {
            m.insert(spec_file_name(sv.absolute_pathname).unwrap(), sv.pathname)
        } else {
            m
        };
        m2.insert(sv.absolute_pathname, sv.pathname)
    }
}

/// The requirement-path table of a set of scripts.
pub open spec fn spec_pathmap(svs: Seq<ScriptView>) -> Map<Seq<char>, Seq<char>> {
    pathmap_upto(svs, svs.len() as int)
}

/// The execution engine: the ordered scripts, the known argument and
/// option values, the exports collected so far, the position reached, and
/// whether the run has halted on a failure.
pub struct Engine {
    scripts: Vec<Script>,
    global_args: CfgMap,
    app_opts: CfgMap,
    debug: bool,
    path_to_pathname: VarMap,
    exports: ExportMap,
    next_index: usize,
    halted: Option<i32>,
}

impl Engine {
    /// The engine's maps are well formed and its position in bounds.
    pub closed spec fn wf(&self) -> bool {
        &&& self.global_args.wf()
        &&& self.app_opts.wf()
        &&& self.path_to_pathname.wf()
        &&& self.exports.wf()
        &&& self.next_index <= self.scripts@.len()
        &&& self.path_to_pathname@ == spec_pathmap(self.scripts.deep_view())
    }

    /// The scripts of the plan, in execution order.
    pub closed spec fn scripts_view(&self) -> Seq<ScriptView> {
        self.scripts.deep_view()
    }

    /// The position of the next script to run.
    pub closed spec fn next_index_spec(&self) -> int {
        self.next_index as int
    }

    /// The exit code the run halted with, if it has.
    pub closed spec fn halted_spec(&self) -> Option<i32> {
        self.halted
    }

    /// The exports collected so far, by script pathname.
    pub closed spec fn exports_spec(&self) -> Map<Seq<char>, Map<Seq<char>, Seq<char>>> {
        self.exports@
    }

    /// The known argument values.
    pub closed spec fn gargs_spec(&self) -> Map<Seq<char>, ConfigValueView> {
        self.global_args@
    }

    /// The known option values.
    pub closed spec fn aopts_spec(&self) -> Map<Seq<char>, ConfigValueView> {
        self.app_opts@
    }

    /// Whether the run prints debug output.
    pub closed spec fn debug_spec(&self) -> bool {
        self.debug
    }

    /// A plan over the given ordered scripts, argument and option values.
    pub fn new(scripts: Vec<Script>, global_args: CfgMap, app_opts: CfgMap, debug: bool) -> (r:
        Engine)
        requires
            global_args.wf(),
            app_opts.wf(),
        ensures
            r.wf(),
            r.scripts_view() == scripts.deep_view(),
            r.gargs_spec() == global_args@,
            r.aopts_spec() == app_opts@,
            r.debug_spec() == debug,
            r.next_index_spec() == 0,
            r.halted_spec() is None,
            r.exports_spec() == Map::<Seq<char>, Map<Seq<char>, Seq<char>>>::empty(),
    {
        let ghost svs = scripts.deep_view();
        let n: usize = scripts.len();
        let mut pmap: VarMap = VarMap::new();
        let mut i: usize = 0;
        while i < n
            invariant
                svs == scripts.deep_view(),
                n == scripts@.len(),
                i <= n,
                pmap.wf(),
                pmap@ == pathmap_upto(svs, i as int),
            decreases n - i,
        {
            proof {
                assert(svs[i as int] == scripts@[i as int]@);
            }
            if scripts[i].embedded {
                match crate::parser::file_name_of(scripts[i].absolute_pathname.as_str()) {
                    Some(f) => {
                        pmap.insert(f, scripts[i].pathname.clone());
                    },
                    None => {},
                }
            }
            pmap.insert(scripts[i].absolute_pathname.clone(), scripts[i].pathname.clone());
            proof {
                assert(pmap@ =~= pathmap_upto(svs, i + 1));
            }
            i += 1;
        }
        Engine {
            scripts,
            global_args,
            app_opts,
            debug,
            path_to_pathname: pmap,
            exports: ExportMap::new(),
            next_index: 0,
            halted: None,
        }
    }

    /// The number of scripts in the plan.
    pub fn len(&self) -> (r: usize)
        ensures
            r == self.scripts_view().len(),
    {
        self.scripts.len()
    }

    /// The script at one position of the plan.
    pub fn script_at(&self, i: usize) -> (r: &Script)
        requires
            i < self.scripts_view().len(),
        ensures
            r@ == self.scripts_view()[i as int],
    {
        &self.scripts[i]
    }

    /// The exit code the run halted with, if it has.
    pub fn halted_code(&self) -> (r: Option<i32>)
        ensures
            r == self.halted_spec(),
    {
        self.halted
    }
}

} // verus!

verus! {

/// The export-map key one requirement looks up, through the documented
/// fallback chain.
fn lookup_key_exec(req_script: &str, script: &Script, pmap: &VarMap) -> (r: String)
    requires
        pmap.wf(),
    ensures
        r@ == req_key(req_script@, script@, pmap@),
{
    let nr: String = ScriptParser::normalize_dependency_path(req_script);
    match pmap.get(nr.as_str()) {
        Some(p) => {
            return p.clone();
        },
        None => {},
    }
    if !script.embedded {
        match crate::manager::parent_dir_exec(script.absolute_pathname.as_str()) {
            Some(pd) => {
                let joined: String = crate::manager::join_path_exec(pd.as_str(), nr.as_str());
                match pmap.get(joined.as_str()) {
                    Some(p) => {
                        return p.clone();
                    },
                    None => {},
                }
            },
            None => {},
        }
    }
    String::from_str(req_script)
}

impl Engine {
    /// What to do next: nothing further after a failure or at the end of
    /// the plan; otherwise validate the next script's data dependencies
    /// and either refuse to start it (halting the run) or hand out its
    /// spawn request, environment fully assembled, with the two snapshot
    /// file paths injected under their fixed names.
    #[verifier::loop_isolation(false)]
    pub fn begin_next(&mut self, pre_path: &str, post_path: &str) -> (r: NextStep)
        requires
            old(self).wf(),
        ensures
            final(self).wf(),
            final(self).scripts_view() == old(self).scripts_view(),
            final(self).gargs_spec() == old(self).gargs_spec(),
            final(self).aopts_spec() == old(self).aopts_spec(),
            final(self).debug_spec() == old(self).debug_spec(),
            final(self).exports_spec() == old(self).exports_spec(),
            final(self).next_index_spec() == old(self).next_index_spec(),
            old(self).halted_spec() matches Some(c) ==> r == NextStep::Failed(c) && final(self).halted_spec() == old(self).halted_spec(),
            (old(self).halted_spec() is None && old(self).next_index_spec() == old(self).scripts_view().len()) ==> r == NextStep::Done && final(self).halted_spec() is None,
            (old(self).halted_spec() is None && old(self).next_index_spec() < old(self).scripts_view().len()) ==> ({
                let sv = old(self).scripts_view()[old(self).next_index_spec()];
                let pm = spec_pathmap(old(self).scripts_view());
                let issues = spec_issues(sv, old(self).exports_spec(), pm);
                &&& (issues.len() > 0 ==> ({
                    &&& r matches NextStep::Invalid { script: sname, issues: is }
                    &&& sname@ == sv.name
                    &&& is.deep_view() == issues
                    &&& final(self).halted_spec() == Some(1i32)
                }))
                &&& (issues.len() == 0 ==> ({
                    &&& r matches NextStep::Run(req)
                    &&& final(self).halted_spec() is None
                    &&& req.index == old(self).next_index_spec()
                    &&& req.name@ == sv.name
                    &&& req.pathname@ == sv.pathname
                    &&& req.env.wf()
                    &&& req.env@ == spec_env(
                        sv,
                        old(self).gargs_spec(),
                        old(self).aopts_spec(),
                        old(self).exports_spec(),
                        pm,
                        old(self).debug_spec(),
                        pre_path@,
                        post_path@,
                    )
                    &&& req.inherit == (sv.stdin == Some("inherit"@))
                }))
            }),
    {
        match self.halted {
            Some(c) => {
                return NextStep::Failed(c);
            },
            None => {},
        }
        if self.next_index >= self.scripts.len() {
            return NextStep::Done;
        }
        let idx: usize = self.next_index;
        let script: Script = self.scripts[idx].clone();
        let ghost sv = self.scripts_view()[idx as int];
        proof {
            assert(self.scripts.deep_view()[idx as int] == self.scripts@[idx as int]@);
            assert(script@ == sv);
        }
        let ghost pm = self.path_to_pathname@;
        let mut env: VarMap = VarMap::new();
        if self.debug {
            env.insert(String::from_str("VSS_DEBUG"), String::from_str("1"));
        }
        proof {
            assert(env@ =~= env_base(self.debug));
            assert(env@ == env_base(self.debug));
        }
        if let Some(args) = &script.args {
            let ghost adv = args.deep_view();
            proof {
                assert(sv.args == Some(adv));
            }
            let ghost env0 = env@;
            let an: usize = args.len();
            let mut k: usize = 0;
            while k < an
                invariant
                    k <= an,
                    env.wf(),
                    env_args(env0, adv, self.global_args@, 0) == env_args(
                        env@,
                        adv,
                        self.global_args@,
                        k as int,
                    ),
                decreases an - k,
            {
                proof {
                    assert(adv[k as int] == args@[k as int].deep_view());
                }
                match self.global_args.get(args[k].name.as_str()) {
                    Some(v) => {
                        let rv: String = render_value(v);
                        env.insert(args[k].name.clone(), rv);
                    },
                    None => {},
                }
                k += 1;
            }
            proof {
                assert(env@ == env_args(env0, adv, self.global_args@, 0));
            }
        }
        if let Some(opts) = &script.opts {
            let ghost odv = opts.deep_view();
            proof {
                assert(sv.opts == Some(odv));
            }
            let ghost env1 = env@;
            let on: usize = opts.len();
            let mut k: usize = 0;
            while k < on
                invariant
                    k <= on,
                    env.wf(),
                    env_opts(env1, odv, self.app_opts@, 0) == env_opts(
                        env@,
                        odv,
                        self.app_opts@,
                        k as int,
                    ),
                decreases on - k,
            {
                proof {
                    assert(odv[k as int] == opts@[k as int].deep_view());
                    assert(opt_name_view(odv[k as int]) == opts@[k as int].name_spec());
                }
                let name: &str = opts[k].name();
                match self.app_opts.get(name) {
                    Some(v) => {
                        match v {
                            ConfigValue::Null => {},
                            _ => {
                                let rv: String = render_value(v);
                                env.insert(String::from_str(name), rv);
                            },
                        }
                    },
                    None => {},
                }
                k += 1;
            }
            proof {
                assert(env@ == env_opts(env1, odv, self.app_opts@, 0));
            }
        }
        let mut issues: Vec<ValidationIssue> = Vec::new();
        proof {
            assert(issues.deep_view() =~= Seq::<ValidationIssueView>::empty());
        }
        if let Some(reqs) = &script.requirements {
            let ghost rdv = reqs.deep_view();
            proof {
                assert(sv.requirements == Some(rdv));
            }
            let ghost env2 = env@;
            let rn: usize = reqs.len();
            let mut k: usize = 0;
            while k < rn
                invariant
                    k <= rn,
                    env.wf(),
                    env_reqs(env2, rdv, sv, self.exports@, pm, 0) == env_reqs(
                        env@,
                        rdv,
                        sv,
                        self.exports@,
                        pm,
                        k as int,
                    ),
                    issues_reqs(Seq::empty(), rdv, sv, self.exports@, pm, 0) == issues_reqs(
                        issues.deep_view(),
                        rdv,
                        sv,
                        self.exports@,
                        pm,
                        k as int,
                    ),
                decreases rn - k,
            {
                proof {
                    assert(rdv[k as int] == reqs@[k as int].deep_view());
                }
                let key: String = lookup_key_exec(reqs[k].script.as_str(), &script,
                &self.path_to_pathname);
                match self.exports.get(key.as_str()) {
                    Some(ex) => {
                        let ghost env_in = env@;
                        let ghost issues_in = issues.deep_view();
                        let ghost vdv = rdv[k as int].variables;
                        let vn: usize = reqs[k].variables.len();
                        let mut j: usize = 0;
                        while j < vn
                            invariant
                                j <= vn,
                                env.wf(),
                                env_req_vars(env_in, vdv, ex@, 0) == env_req_vars(
                                    env@,
                                    vdv,
                                    ex@,
                                    j as int,
                                ),
                                issues_vars(
                                    issues_in,
                                    vdv,
                                    ex@,
                                    sv.name,
                                    rdv[k as int].script,
                                    0,
                                ) == issues_vars(
                                    issues.deep_view(),
                                    vdv,
                                    ex@,
                                    sv.name,
                                    rdv[k as int].script,
                                    j as int,
                                ),
                            decreases vn - j,
                        {
                            proof {
                                assert(vdv[j as int] == reqs@[k as int].variables@[j as int]@);
                            }
                            let var: &String = &reqs[k].variables[j];
                            match ex.get(var.as_str()) {
                                Some(val) => {
                                    let ghost old_iss = issues.deep_view();
                                    env.insert(var.clone(), val.clone());
                                },
                                None => {
                                    let ghost old_iss = issues.deep_view();
                                    issues.push(
                                        ValidationIssue::MissingVariable {
                                            variable: var.clone(),
                                            script: script.name.clone(),
                                            dependency: reqs[k].script.clone(),
                                        },
                                    );
                                    proof {
                                        assert(issues.deep_view() =~= old_iss + seq![
                                            ValidationIssueView::MissingVariable {
                                                variable: vdv[j as int],
                                                script: sv.name,
                                                dependency: rdv[k as int].script,
                                            },
                                        ]);
                                    }
                                },
                            }
                            j += 1;
                        }
                    },
                    None => {
                        let ghost old_iss = issues.deep_view();
                        issues.push(
                            ValidationIssue::NoExports {
                                script: script.name.clone(),
                                dependency: reqs[k].script.clone(),
                            },
                        );
                        proof {
                            assert(issues.deep_view() =~= old_iss + seq![
                                ValidationIssueView::NoExports {
                                    script: sv.name,
                                    dependency: rdv[k as int].script,
                                },
                            ]);
                        }
                    },
                }
                k += 1;
            }
            proof {
                assert(env@ == env_reqs(env2, rdv, sv, self.exports@, pm, 0));
                assert(issues.deep_view() == issues_reqs(
                    Seq::empty(),
                    rdv,
                    sv,
                    self.exports@,
                    pm,
                    0,
                ));
            }
        }
        if issues.len() > 0 {
            let sname: String = script.name.clone();
            self.halted = Some(1);
            return NextStep::Invalid { script: sname, issues };
        }
        env.insert(String::from_str("VSS_PRE_ENV_FILE"), String::from_str(pre_path));
        env.insert(String::from_str("VSS_POST_ENV_FILE"), String::from_str(post_path));
        let inherit: bool = match &script.stdin {
            Some(s) => crate::text::str_eq(s.as_str(), "inherit"),
            None => false,
        };
        NextStep::Run(
            SpawnRequest {
                index: idx,
                name: script.name,
                pathname: script.pathname,
                env,
                inherit,
            },
        )
    }

    /// Record one finished script's outcome: merge the exports its stdout
    /// markers declared with those its snapshot diff shows — the snapshot
    /// diff winning where both name the same variable, since it is
    /// computed last — file them under the script's pathname when any
    /// exist, advance past the script, and halt the run with the script's
    /// exit code (or 1 where none is available) on a non-zero exit.
    pub fn record_result(
        &mut self,
        success: bool,
        code: Option<i32>,
        marker_exports: VarMap,
        pre_lines: &Vec<String>,
        post_lines: &Vec<String>,
    )
        requires
            old(self).wf(),
            marker_exports.wf(),
            old(self).halted_spec() is None,
            old(self).next_index_spec() < old(self).scripts_view().len(),
        ensures
            final(self).wf(),
            final(self).scripts_view() == old(self).scripts_view(),
            final(self).gargs_spec() == old(self).gargs_spec(),
            final(self).aopts_spec() == old(self).aopts_spec(),
            final(self).debug_spec() == old(self).debug_spec(),
            final(self).next_index_spec() == old(self).next_index_spec() + 1,
            final(self).halted_spec() == (if success {
                None::<i32>
            } else {
                Some(
                    match code {
                        Some(c) => c,
                        None => 1i32,
                    },
                )
            }),
            ({
                let merged = marker_exports@.union_prefer_right(
                    snapshot_diff(pre_lines.deep_view(), post_lines.deep_view()),
                );
                let pn = old(self).scripts_view()[old(self).next_index_spec()].pathname;
                final(self).exports_spec() == (if merged == Map::<Seq<char>, Seq<char>>::empty() {
                    old(self).exports_spec()
                } else {
                    old(self).exports_spec().insert(pn, merged)
                })
            }),
    {
        let mut merged: VarMap = marker_exports;
        let diff: VarMap = read_exports_from_files(pre_lines, post_lines);
        merged.merge_from(&diff);
        if !merged.is_empty() {
            proof {
                assert(self.scripts.deep_view()[self.next_index as int]
                    == self.scripts@[self.next_index as int]@);
            }
            let pathname: String = self.scripts[self.next_index].pathname.clone();
            self.exports.insert(pathname, merged);
        }
        let n: usize = self.scripts.len();
        proof {
            assert(self.next_index < n);
        }
        self.next_index += 1;
        if !success {
            self.halted = Some(
                match code {
                    Some(c) => c,
                    None => 1,
                },
            );
        }
    }
}

/// What one script's run came to: its exit, its captured stdout lines, and
/// the lines of its two snapshot files (empty where a file was missing or
/// empty).
pub struct ScriptOutcome {
    pub success: bool,
    pub code: Option<i32>,
    pub stdout_lines: Vec<String>,
    pub pre_lines: Vec<String>,
    pub post_lines: Vec<String>,
}

/// How a whole run ended: how many scripts were started, and the run's
/// exit code.
pub struct RunReport {
    pub spawned: usize,
    pub exit_code: i32,
}

/// Everything one finished script exported: the variables its stdout
/// declared through the inline protocol, merged with its snapshot diff,
/// the diff winning where both name the same variable.
pub open spec fn outcome_exports(oc: ScriptOutcome) -> Map<Seq<char>, Seq<char>> {
    marker_stream_exports(oc.stdout_lines.deep_view(), 0, false, Map::empty())
        .union_prefer_right(snapshot_diff(oc.pre_lines.deep_view(), oc.post_lines.deep_view()))
}

/// The export store after the first `k` scripts have run with the given
/// outcomes: each script that exported anything is recorded under its
/// pathname.
pub open spec fn exports_after(
    svs: Seq<ScriptView>,
    outcomes: Seq<ScriptOutcome>,
    k: int,
) -> Map<Seq<char>, Map<Seq<char>, Seq<char>>>
    decreases k when k >= 0
{
    if k <= 0 {
        Map::empty()
    } else {
        let prev = exports_after(svs, outcomes, k - 1);
        let merged = outcome_exports(outcomes[k - 1]);
        if merged == Map::<Seq<char>, Seq<char>>::empty() {
            prev
        } else {
            prev.insert(svs[k - 1].pathname, merged)
        }
    }
}

/// Execute a whole plan whose per-script outcomes are given: scripts start
/// strictly in order; each outcome's stdout is run through the export
/// protocol and its exports recorded before the next script begins; a
/// failing script is always the last one started, and its exit code (or 1
/// where none is available) becomes the run's.
#[verifier::loop_isolation(false)]
pub fn run_plan(engine: &mut Engine, outcomes: &Vec<ScriptOutcome>) -> (r: RunReport)
    requires
        old(engine).wf(),
        old(engine).halted_spec() is None,
        old(engine).next_index_spec() == 0,
        old(engine).exports_spec() == Map::<Seq<char>, Map<Seq<char>, Seq<char>>>::empty(),
        outcomes@.len() == old(engine).scripts_view().len(),
    ensures
        final(engine).wf(),
        r.spawned <= outcomes@.len(),
        forall|j: int|
            0 <= j < r.spawned && !(#[trigger] outcomes@[j]).success ==> j == r.spawned - 1
                && r.exit_code == (match outcomes@[j].code {
                Some(c) => c,
                None => 1i32,
            }),
        ({
            let svs = old(engine).scripts_view();
            let pm = spec_pathmap(svs);
            &&& (((forall|j: int| 0 <= j < outcomes@.len() ==> (#[trigger] outcomes@[j]).success)
                && (forall|k: int|
                0 <= k < outcomes@.len() ==> spec_issues(
                    #[trigger] svs[k],
                    exports_after(svs, outcomes@, k),
                    pm,
                ).len() == 0)) ==> r.spawned == outcomes@.len() && r.exit_code == 0 && final(engine).halted_spec() is None)
            &&& (r.spawned < outcomes@.len() ==> ((r.spawned >= 1 && !outcomes@[r.spawned
                - 1].success) || spec_issues(
                svs[r.spawned as int],
                exports_after(svs, outcomes@, r.spawned as int),
                pm,
            ).len() > 0))
        }),
{
    let n: usize = outcomes.len();
    let ghost svs = old(engine).scripts_view();
    let mut spawned: usize = 0;
    loop
        invariant
            engine.wf(),
            engine.scripts_view() == svs,
            engine.next_index_spec() == spawned,
            spawned <= n,
            engine.exports_spec() == exports_after(svs, outcomes@, spawned as int),
            engine.halted_spec() is None ==> forall|j: int|
                0 <= j < spawned ==> (#[trigger] outcomes@[j]).success,
            engine.halted_spec() matches Some(c) ==> spawned >= 1
                && !outcomes@[spawned - 1].success && c == (match outcomes@[spawned - 1].code {
                Some(c2) => c2,
                None => 1i32,
            }) && (forall|j: int| 0 <= j < spawned - 1 ==> (#[trigger] outcomes@[j]).success),
        decreases n - spawned,
    {
        match engine.begin_next("", "") {
            NextStep::Done => {
                return RunReport { spawned, exit_code: 0 };
            },
            NextStep::Failed(c) => {
                return RunReport { spawned, exit_code: c };
            },
            NextStep::Invalid { script: _, issues: _ } => {
                proof {
                    assert(spawned < n);
                    assert(spec_issues(
                        svs[spawned as int],
                        exports_after(svs, outcomes@, spawned as int),
                        spec_pathmap(svs),
                    ).len() > 0);
                }
                return RunReport { spawned, exit_code: 1 };
            },
            NextStep::Run(req) => {
                let oc: &ScriptOutcome = &outcomes[req.index];
                let ghost dv0 = oc.stdout_lines.deep_view();
                proof {
                    assert(*oc == outcomes@[spawned as int]);
                }
                let mut parser = ExportParser::new();
                let ln: usize = oc.stdout_lines.len();
                let mut li: usize = 0;
                proof {
                    assert(marker_stream_exports(dv0, 0, false, Map::empty())
                        == marker_stream_exports(
                        dv0,
                        0,
                        parser.in_section(),
                        parser.exports_map(),
                    ));
                }
                while li < ln
                    invariant
                        parser.wf(),
                        li <= ln,
                        marker_stream_exports(dv0, 0, false, Map::empty())
                            == marker_stream_exports(
                            dv0,
                            li as int,
                            parser.in_section(),
                            parser.exports_map(),
                        ),
                    decreases ln - li,
                {
                    let ghost old_inside = parser.in_section();
                    let ghost old_acc = parser.exports_map();
                    let ghost lv = dv0[li as int];
                    proof {
                        assert(lv == oc.stdout_lines@[li as int]@);
                        crate::text::lemma_find_idx_bounds(crate::text::spec_trim(lv), '=', 0);
                    }
                    match parser.process_line(oc.stdout_lines[li].as_str()) {
                        ExportLineResult::ExportVariable(kk, vv) => {
                            proof {
                                assert(marker_line_export(lv, old_inside) == Some((kk@, vv@)));
                            }
                            parser.add_export(kk, vv);
                        },
                        _ => {},
                    }
                    proof {
                        assert(parser.in_section() == marker_state_after(lv, old_inside));
                        assert(parser.exports_map() == (match marker_line_export(
                            lv,
                            old_inside,
                        ) {
                            Some(kv) => old_acc.insert(kv.0, kv.1),
                            None => old_acc,
                        }));
                    }
                    li += 1;
                }
                let markers: VarMap = parser.get_exports();
                proof {
                    assert(markers@ == marker_stream_exports(dv0, 0, false, Map::empty()));
                }
                let ghost old_exports = engine.exports_spec();
                engine.record_result(oc.success, oc.code, markers, &oc.pre_lines, &oc.post_lines);
                proof {
                    let merged = markers@.union_prefer_right(
                        snapshot_diff(oc.pre_lines.deep_view(), oc.post_lines.deep_view()),
                    );
                    assert(merged == outcome_exports(outcomes@[spawned as int]));
                    assert(engine.exports_spec() == exports_after(
                        svs,
                        outcomes@,
                        spawned + 1,
                    ));
                }
                spawned += 1;
            },
        }
    }
}

} // verus!
