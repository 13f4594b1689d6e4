//! Script descriptors: the in-memory record of one discovered script, its
//! declared inputs and its dependencies, with the error type shared by
//! parsing, discovery and scheduling.

use vstd::prelude::*;
use vstd::string::StringExecFns;

verus! {

/// A declared argument: the variable name a script reads and its prompt text.
#[derive(Debug)]
pub struct ScriptArg {
    pub name: String,
    pub description: String,
}

/// The mathematical content of a `ScriptArg`.
pub struct ScriptArgView {
    pub name: Seq<char>,
    pub description: Seq<char>,
}

impl DeepView for ScriptArg {
    type V = ScriptArgView;

    open spec fn deep_view(&self) -> ScriptArgView {
        ScriptArgView { name: self.name@, description: self.description@ }
    }
}

impl Clone for ScriptArg {
    fn clone(&self) -> (res: Self)
        ensures
            res.deep_view() == self.deep_view(),
    {
        ScriptArg { name: self.name.clone(), description: self.description.clone() }
    }
}

/// A data dependency: the referenced script and the variable names it must
/// have exported.
#[derive(Debug)]
pub struct ScriptRequirement {
    pub script: String,
    pub variables: Vec<String>,
}

/// The mathematical content of a `ScriptRequirement`.
pub struct ScriptRequirementView {
    pub script: Seq<char>,
    pub variables: Seq<Seq<char>>,
}

impl DeepView for ScriptRequirement {
    type V = ScriptRequirementView;

    open spec fn deep_view(&self) -> ScriptRequirementView {
        ScriptRequirementView { script: self.script@, variables: self.variables.deep_view() }
    }
}

/// Copy a vector of strings, keeping its view.
pub fn clone_strings(v: &Vec<String>) -> (r: Vec<String>)
    ensures
        r@ == v@,
{
    let mut r: Vec<String> = Vec::new();
    let mut i: usize = 0;
    while i < v.len()
        invariant
            i <= v@.len(),
            r@ == v@.subrange(0, i as int),
        decreases v@.len() - i,
    {
        r.push(v[i].clone());
        proof {
            assert(r@ =~= v@.subrange(0, i + 1));
        }
        i += 1;
    }
    proof {
        assert(r@ =~= v@);
    }
    r
}

impl Clone for ScriptRequirement {
    fn clone(&self) -> (res: Self)
        ensures
            res.deep_view() == self.deep_view(),
    {
        let res = ScriptRequirement {
            script: self.script.clone(),
            variables: clone_strings(&self.variables),
        };
        proof {
            assert(res.variables.deep_view() =~= self.variables.deep_view());
        }
        res
    }
}

/// The kind of a declared option, without its payload.
#[derive(Debug, Clone, Copy, PartialEq, Eq, Structural)]
pub enum ScriptOptType {
    Boolean,
    String,
    Worktree,
}

impl ScriptOptType {
    /// Every option kind, in declaration order.
    pub fn all() -> (r: Vec<ScriptOptType>)
        ensures
            r@ == seq![
                ScriptOptType::Boolean,
                ScriptOptType::String,
                ScriptOptType::Worktree,
            ],
    {
        let mut r: Vec<ScriptOptType> = Vec::new();
        r.push(ScriptOptType::Boolean);
        r.push(ScriptOptType::String);
        r.push(ScriptOptType::Worktree);
        proof {
            assert(r@ =~= seq![
                ScriptOptType::Boolean,
                ScriptOptType::String,
                ScriptOptType::Worktree,
            ]);
        }
        r
    }

    /// The tag under which this kind is written in a script's annotations.
    pub open spec fn label_spec(&self) -> Seq<char> {
        match self {
            ScriptOptType::Boolean => "boolean"@,
            ScriptOptType::String => "string"@,
            ScriptOptType::Worktree => "worktree"@,
        }
    }

    /// The tag under which this kind is written in a script's annotations.
    pub fn label(&self) -> (r: &'static str)
        ensures
            r@ == self.label_spec(),
    {
        match self {
            ScriptOptType::Boolean => "boolean",
            ScriptOptType::String => "string",
            ScriptOptType::Worktree => "worktree",
        }
    }
}

/// A declared option: a boolean switch, a free or pattern-checked string,
/// or a git-worktree selection, each with its name and prompt text.
#[derive(Debug)]
pub enum ScriptOpt {
    Boolean { name: String, description: String, default: Option<bool>, optional: bool },
    String {
        name: String,
        description: String,
        default: Option<String>,
        optional: bool,
        pattern: Option<String>,
        pattern_help: Option<String>,
    },
    Worktree { name: String, description: String, base_dir_arg: String, optional: bool },
}

/// The mathematical content of a `ScriptOpt`.
pub enum ScriptOptView {
    Boolean { name: Seq<char>, description: Seq<char>, default: Option<bool>, optional: bool },
    String {
        name: Seq<char>,
        description: Seq<char>,
        default: Option<Seq<char>>,
        optional: bool,
        pattern: Option<Seq<char>>,
        pattern_help: Option<Seq<char>>,
    },
    Worktree { name: Seq<char>, description: Seq<char>, base_dir_arg: Seq<char>, optional: bool },
}

impl DeepView for ScriptOpt {
    type V = ScriptOptView;

    open spec fn deep_view(&self) -> ScriptOptView {
        match self {
            ScriptOpt::Boolean { name, description, default, optional } => ScriptOptView::Boolean {
                name: name@,
                description: description@,
                default: *default,
                optional: *optional,
            },
            ScriptOpt::String {
                name,
                description,
                default,
                optional,
                pattern,
                pattern_help,
            } => ScriptOptView::String {
                name: name@,
                description: description@,
                default: default.deep_view(),
                optional: *optional,
                pattern: pattern.deep_view(),
                pattern_help: pattern_help.deep_view(),
            },
            ScriptOpt::Worktree { name, description, base_dir_arg, optional } => {
                ScriptOptView::Worktree {
                    name: name@,
                    description: description@,
                    base_dir_arg: base_dir_arg@,
                    optional: *optional,
                }
            },
        }
    }
}

/// Copy an optional string, keeping its view.
pub fn clone_opt_string(v: &Option<String>) -> (r: Option<String>)
    ensures
        r == *v,
{
    match v {
        Some(s) => Some(s.clone()),
        None => None,
    }
}

impl Clone for ScriptOpt {
    fn clone(&self) -> (res: Self)
        ensures
            res.deep_view() == self.deep_view(),
    {
        match self {
            ScriptOpt::Boolean { name, description, default, optional } => ScriptOpt::Boolean {
                name: name.clone(),
                description: description.clone(),
                default: match default {
                    Some(b) => Some(*b),
                    None => None,
                },
                optional: *optional,
            },
            ScriptOpt::String { name, description, default, optional, pattern, pattern_help } => {
                ScriptOpt::String {
                    name: name.clone(),
                    description: description.clone(),
                    default: clone_opt_string(default),
                    optional: *optional,
                    pattern: clone_opt_string(pattern),
                    pattern_help: clone_opt_string(pattern_help),
                }
            },
            ScriptOpt::Worktree { name, description, base_dir_arg, optional } => {
                ScriptOpt::Worktree {
                    name: name.clone(),
                    description: description.clone(),
                    base_dir_arg: base_dir_arg.clone(),
                    optional: *optional,
                }
            },
        }
    }
}

impl ScriptOpt {
    /// The declared name of the option.
    pub open spec fn name_spec(&self) -> Seq<char> {
        match self {
            ScriptOpt::Boolean { name, .. } => name@,
            ScriptOpt::String { name, .. } => name@,
            ScriptOpt::Worktree { name, .. } => name@,
        }
    }

    /// The declared name of the option.
    pub fn name(&self) -> (r: &str)
        ensures
            r@ == self.name_spec(),
    {
        match self {
            ScriptOpt::Boolean { name, .. } => name.as_str(),
            ScriptOpt::String { name, .. } => name.as_str(),
            ScriptOpt::Worktree { name, .. } => name.as_str(),
        }
    }

    /// The prompt text of the option.
    pub open spec fn description_spec(&self) -> Seq<char> {
        match self {
            ScriptOpt::Boolean { description, .. } => description@,
            ScriptOpt::String { description, .. } => description@,
            ScriptOpt::Worktree { description, .. } => description@,
        }
    }

    /// The prompt text of the option.
    pub fn description(&self) -> (r: &str)
        ensures
            r@ == self.description_spec(),
    {
        match self {
            ScriptOpt::Boolean { description, .. } => description.as_str(),
            ScriptOpt::String { description, .. } => description.as_str(),
            ScriptOpt::Worktree { description, .. } => description.as_str(),
        }
    }

    /// Whether the option may be left unanswered.
    pub open spec fn is_optional_spec(&self) -> bool {
        match self {
            ScriptOpt::Boolean { optional, .. } => *optional,
            ScriptOpt::String { optional, .. } => *optional,
            ScriptOpt::Worktree { optional, .. } => *optional,
        }
    }

    /// Whether the option may be left unanswered.
    pub fn is_optional(&self) -> (r: bool)
        ensures
            r == self.is_optional_spec(),
    {
        match self {
            ScriptOpt::Boolean { optional, .. } => *optional,
            ScriptOpt::String { optional, .. } => *optional,
            ScriptOpt::Worktree { optional, .. } => *optional,
        }
    }

    /// The kind of this option.
    pub fn opt_type(&self) -> (r: ScriptOptType)
        ensures
            r == match self {
                ScriptOpt::Boolean { .. } => ScriptOptType::Boolean,
                ScriptOpt::String { .. } => ScriptOptType::String,
                ScriptOpt::Worktree { .. } => ScriptOptType::Worktree,
            },
    {
        match self {
            ScriptOpt::Boolean { .. } => ScriptOptType::Boolean,
            ScriptOpt::String { .. } => ScriptOptType::String,
            ScriptOpt::Worktree { .. } => ScriptOptType::Worktree,
        }
    }
}

/// One discovered script: identity, dependencies, declared inputs and
/// stdio mode. `pathname` is the stable key the scheduler and the export
/// map use; `requirements` holds the data dependencies (`requires`
/// annotations) and `after` the ordering-only ones.
#[derive(Debug)]
pub struct Script {
    pub name: String,
    pub description: Option<String>,
    pub after: Option<Vec<String>>,
    pub requirements: Option<Vec<ScriptRequirement>>,
    pub absolute_pathname: String,
    pub pathname: String,
    pub embedded: bool,
    pub args: Option<Vec<ScriptArg>>,
    pub opts: Option<Vec<ScriptOpt>>,
    pub stdin: Option<String>,
}

/// The mathematical content of a `Script`.
pub struct ScriptView {
    pub name: Seq<char>,
    pub description: Option<Seq<char>>,
    pub after: Option<Seq<Seq<char>>>,
    pub requirements: Option<Seq<ScriptRequirementView>>,
    pub absolute_pathname: Seq<char>,
    pub pathname: Seq<char>,
    pub embedded: bool,
    pub args: Option<Seq<ScriptArgView>>,
    pub opts: Option<Seq<ScriptOptView>>,
    pub stdin: Option<Seq<char>>,
}

impl View for Script {
    type V = ScriptView;

    open spec fn view(&self) -> ScriptView {
        ScriptView {
            name: self.name@,
            description: self.description.deep_view(),
            after: self.after.deep_view(),
            requirements: self.requirements.deep_view(),
            absolute_pathname: self.absolute_pathname@,
            pathname: self.pathname@,
            embedded: self.embedded,
            args: self.args.deep_view(),
            opts: self.opts.deep_view(),
            stdin: self.stdin.deep_view(),
        }
    }
}

impl DeepView for Script {
    type V = ScriptView;

    open spec fn deep_view(&self) -> ScriptView {
        self.view()
    }
}

/// Copy a vector of requirements, keeping its content.
pub fn clone_requirements(v: &Vec<ScriptRequirement>) -> (r: Vec<ScriptRequirement>)
    ensures
        r.deep_view() == v.deep_view(),
{
    let mut r: Vec<ScriptRequirement> = Vec::new();
    let mut i: usize = 0;
    while i < v.len()
        invariant
            i <= v@.len(),
            r@.len() == i,
            forall|j: int| 0 <= j < i ==> r.deep_view()[j] == v.deep_view()[j],
        decreases v@.len() - i,
    {
        let ghost old_r = r@;
        r.push(v[i].clone());
        proof {
            assert(forall|j: int| 0 <= j < old_r.len() ==> r@[j] == old_r[j]);
            assert(r@[i as int].deep_view() == v@[i as int].deep_view());
        }
        i += 1;
    }
    proof {
        assert(r.deep_view() =~= v.deep_view());
    }
    r
}

/// Copy a vector of arguments, keeping its content.
pub fn clone_args(v: &Vec<ScriptArg>) -> (r: Vec<ScriptArg>)
    ensures
        r.deep_view() == v.deep_view(),
{
    let mut r: Vec<ScriptArg> = Vec::new();
    let mut i: usize = 0;
    while i < v.len()
        invariant
            i <= v@.len(),
            r@.len() == i,
            forall|j: int| 0 <= j < i ==> r.deep_view()[j] == v.deep_view()[j],
        decreases v@.len() - i,
    {
        let ghost old_r = r@;
        r.push(v[i].clone());
        proof {
            assert(forall|j: int| 0 <= j < old_r.len() ==> r@[j] == old_r[j]);
            assert(r@[i as int].deep_view() == v@[i as int].deep_view());
        }
        i += 1;
    }
    proof {
        assert(r.deep_view() =~= v.deep_view());
    }
    r
}

/// Copy a vector of options, keeping its content.
pub fn clone_opts(v: &Vec<ScriptOpt>) -> (r: Vec<ScriptOpt>)
    ensures
        r.deep_view() == v.deep_view(),
{
    let mut r: Vec<ScriptOpt> = Vec::new();
    let mut i: usize = 0;
    while i < v.len()
        invariant
            i <= v@.len(),
            r@.len() == i,
            forall|j: int| 0 <= j < i ==> r.deep_view()[j] == v.deep_view()[j],
        decreases v@.len() - i,
    {
        let ghost old_r = r@;
        r.push(v[i].clone());
        proof {
            assert(forall|j: int| 0 <= j < old_r.len() ==> r@[j] == old_r[j]);
            assert(r@[i as int].deep_view() == v@[i as int].deep_view());
        }
        i += 1;
    }
    proof {
        assert(r.deep_view() =~= v.deep_view());
    }
    r
}

impl Clone for Script {
    fn clone(&self) -> (res: Self)
        ensures
            res@ == self@,
    {
        Script {
            name: self.name.clone(),
            description: clone_opt_string(&self.description),
            after: match &self.after {
                Some(v) => Some(clone_strings(v)),
                None => None,
            },
            requirements: match &self.requirements {
                Some(v) => Some(clone_requirements(v)),
                None => None,
            },
            absolute_pathname: self.absolute_pathname.clone(),
            pathname: self.pathname.clone(),
            embedded: self.embedded,
            args: match &self.args {
                Some(v) => Some(clone_args(v)),
                None => None,
            },
            opts: match &self.opts {
                Some(v) => Some(clone_opts(v)),
                None => None,
            },
            stdin: clone_opt_string(&self.stdin),
        }
    }
}

impl Script {
    /// The display form of a script: its name followed by its pathname in
    /// parentheses.
    pub fn display_string(&self) -> (r: String)
        ensures
            r@ == self.name@ + " ("@ + self.pathname@ + ")"@,
    {
        let mut r: String = self.name.clone();
        r.append(" (");
        r.append(self.pathname.as_str());
        r.append(")");
        r
    }
}

/// Everything that can go wrong while parsing, discovering or scheduling
/// scripts. I/O and JSON failures carry the underlying message as text.
#[derive(Debug)]
pub enum ScriptError {
    /// An I/O failure, with its message.
    Io(String),
    /// A JSON parsing failure, with its message.
    Json(String),
    /// The dependency graph holds a cycle.
    CircularDependency,
    /// A dependency reference resolved to no known script.
    DependencyNotFound { dependency: String, script: String },
    /// An `opt` annotation that does not describe a valid option.
    InvalidScriptOption(String),
    /// A path from which no filename can be extracted.
    InvalidPath(String),
    /// A dependency reference that climbs out of the script directory.
    InvalidDependencyPath(String),
}

impl ScriptError {
    /// The error rendered as one line of text.
    pub fn message(&self) -> (r: String)
        ensures
            match self {
                ScriptError::Io(m) => r@ == "IO error: "@ + m@,
                ScriptError::Json(m) => r@ == "JSON parsing error: "@ + m@,
                ScriptError::CircularDependency => r@ == "Circular dependency detected"@,
                ScriptError::DependencyNotFound { dependency, script } => r@ == "Dependency '"@
                    + dependency@ + "' not found in any known script directory for script '"@
                    + script@ + "'"@,
                ScriptError::InvalidScriptOption(m) => r@ == "Invalid script option: "@ + m@,
                ScriptError::InvalidPath(p) => r@
                    == "Invalid path - cannot extract filename: "@ + p@,
                ScriptError::InvalidDependencyPath(d) => r@ == "Dependency '"@ + d@
                    + "' uses parent directory reference which is not allowed"@,
            },
    {
        match self {
            ScriptError::Io(m) => {
                let mut r = String::from_str("IO error: ");
                r.append(m.as_str());
                r
            },
            ScriptError::Json(m) => {
                let mut r = String::from_str("JSON parsing error: ");
                r.append(m.as_str());
                r
            },
            ScriptError::CircularDependency => String::from_str("Circular dependency detected"),
            ScriptError::DependencyNotFound { dependency, script } => {
                let mut r = String::from_str("Dependency '");
                r.append(dependency.as_str());
                r.append("' not found in any known script directory for script '");
                r.append(script.as_str());
                r.append("'");
                r
            },
            ScriptError::InvalidScriptOption(m) => {
                let mut r = String::from_str("Invalid script option: ");
                r.append(m.as_str());
                r
            },
            ScriptError::InvalidPath(p) => {
                let mut r = String::from_str("Invalid path - cannot extract filename: ");
                r.append(p.as_str());
                r
            },
            ScriptError::InvalidDependencyPath(d) => {
                let mut r = String::from_str("Dependency '");
                r.append(d.as_str());
                r.append("' uses parent directory reference which is not allowed");
                r
            },
        }
    }
}

} // verus!
