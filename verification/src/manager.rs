//! Script scheduling: build the lookup table of dependency keys, resolve
//! each declared reference through the documented fallback chain, and
//! order the scripts so that every dependency runs strictly before its
//! dependent — or fail, before anything runs, on an unresolved reference
//! or a cycle.

use vstd::prelude::*;
use vstd::string::StrSliceExecFns;
use vstd::string::StringExecFns;
use vstd::pervasive::VecAdditionalExecFns;
use crate::graph::{edges_ok, has_cycle, is_permutation, topo_sort};
use crate::parser::{file_name_of, spec_file_name, ScriptParser};
use crate::script::{Script, ScriptError, ScriptView};
use crate::text::{rfind_idx, lemma_rfind_idx_props, substr_string};
use crate::vars::{distinct_keys, lemma_map_of_props, map_of};

verus! {

/// The table from dependency keys (bare filenames of embedded scripts and
/// absolute pathnames of all scripts) to script indices; a later insert of
/// the same key wins, as discovery order dictates.
pub struct PathTable {
    entries: Vec<(String, usize)>,
}

/// The key-and-value views of the table's entries.
pub open spec fn path_entry_views(entries: Seq<(String, usize)>) -> Seq<(Seq<char>, usize)> {
    entries.map_values(|e: (String, usize)| (e.0@, e.1))
}

impl View for PathTable {
    type V = Map<Seq<char>, usize>;

    closed spec fn view(&self) -> Map<Seq<char>, usize> {
        map_of(path_entry_views(self.entries@))
    }
}

impl PathTable {
    /// The backing entries have pairwise-distinct keys.
    pub closed spec fn wf(&self) -> bool {
        distinct_keys(path_entry_views(self.entries@))
    }

    /// The empty table.
    pub fn new() -> (r: PathTable)
        ensures
            r.wf(),
            r@ == Map::<Seq<char>, usize>::empty(),
    {
        PathTable { entries: Vec::new() }
    }

    /// The index recorded under `key`, if any.
    pub fn get(&self, key: &str) -> (r: Option<usize>)
        requires
            self.wf(),
        ensures
            match r {
                Some(v) => self@.dom().contains(key@) && v == self@[key@],
                None => !self@.dom().contains(key@),
            },
    {
        proof {
            lemma_map_of_props(path_entry_views(self.entries@));
        }
        let n: usize = self.entries.len();
        let mut i: usize = 0;
        while i < n
            invariant
                self.wf(),
                n == self.entries@.len(),
                i <= n,
                forall|j: int| 0 <= j < i ==> #[trigger] path_entry_views(self.entries@)[j].0
                    != key@,
            decreases n - i,
        {
            if crate::text::str_eq(self.entries[i].0.as_str(), key) {
                proof {
                    lemma_map_of_props(path_entry_views(self.entries@));
                    assert(path_entry_views(self.entries@)[i as int].0 == key@);
                }
                return Some(self.entries[i].1);
            }
            i += 1;
        }
        proof {
            lemma_map_of_props(path_entry_views(self.entries@));
        }
        None
    }

    /// Record `value` under `key`, replacing any earlier entry.
    pub fn insert(&mut self, key: String, value: usize)
        requires
            old(self).wf(),
        ensures
            final(self).wf(),
            final(self)@ == old(self)@.insert(key@, value),
    {
        proof {
            lemma_map_of_props(path_entry_views(self.entries@));
        }
        let n: usize = self.entries.len();
        let mut i: usize = 0;
        while i < n
            invariant
                self.wf(),
                self.entries@ == old(self).entries@,
                n == self.entries@.len(),
                i <= n,
                forall|j: int| 0 <= j < i ==> #[trigger] path_entry_views(self.entries@)[j].0
                    != key@,
            decreases n - i,
        {
            if crate::text::str_eq(self.entries[i].0.as_str(), key.as_str()) {
                proof {
                    assert(path_entry_views(self.entries@)[i as int].0 == key@);
                }
                self.entries.set(i, (key, value));
                proof {
                    let old_vs = path_entry_views(old(self).entries@);
                    let new_vs = path_entry_views(self.entries@);
                    assert(new_vs =~= old_vs.update(i as int, (key@, value)));
                    assert(distinct_keys(new_vs)) by {
                        assert(forall|j: int| 0 <= j < new_vs.len() && j != i ==> new_vs[j]
                            == old_vs[j]);
                    }
                    lemma_map_of_props(new_vs);
                    lemma_map_of_props(old_vs);
                    assert(map_of(new_vs) =~= map_of(old_vs).insert(key@, value)) by {
                        assert(forall|j: int| 0 <= j < new_vs.len() && j != i
                            ==> #[trigger] new_vs[j] == old_vs[j]);
                        assert(forall|k: Seq<char>| map_of(new_vs).dom().contains(k)
                            <==> map_of(old_vs).insert(key@, value).dom().contains(k)) by {
                            assert(forall|j: int| 0 <= j < old_vs.len() && j != i
                                ==> old_vs[j].0 == new_vs[j].0);
                            assert(new_vs[i as int].0 == key@);
                            assert(old_vs[i as int].0 == key@);
                        }
                    }
                }
                return ;
            }
            i += 1;
        }
        let ghost old_vs = path_entry_views(self.entries@);
        self.entries.push((key, value));
        proof {
            let new_vs = path_entry_views(self.entries@);
            assert(new_vs =~= old_vs.push((key@, value)));
            assert(new_vs.drop_last() =~= old_vs);
            assert(distinct_keys(new_vs)) by {
                assert(forall|j: int| 0 <= j < old_vs.len() ==> #[trigger] new_vs[j]
                    == old_vs[j]);
                lemma_map_of_props(old_vs);
            }
        }
    }
}

/// The directory part of a path: what stands before the last slash, the
/// root for a path with its only slash in front, and nothing for a path
/// without slashes.
pub open spec fn parent_dir(p: Seq<char>) -> Option<Seq<char>> {
    let i = rfind_idx(p, '/', p.len() as int);
    if i < 0 {
        None
    } else if i == 0 {
        Some(seq!['/'])
    } else {
        Some(p.subrange(0, i))
    }
}

/// A directory joined with a relative reference, one slash between them.
pub open spec fn join_path(d: Seq<char>, n: Seq<char>) -> Seq<char> {
    if d.len() > 0 && d[d.len() - 1] == '/' {
        d + n
    } else if d.len() == 0 {
        n
    } else {
        d + seq!['/'] + n
    }
}

/// The first configured directory from `i` on under which the normalized
/// reference is a known key.
pub open spec fn resolve_in_dirs(
    nd: Seq<char>,
    dirs: Seq<Seq<char>>,
    table: Map<Seq<char>, usize>,
    i: int,
) -> Option<usize>
    recommends
        0 <= i,
    decreases dirs.len() - i when 0 <= i
{
    if i >= dirs.len() {
        None
    } else if table.dom().contains(join_path(dirs[i], nd)) {
        Some(table[join_path(dirs[i], nd)])
    } else {
        resolve_in_dirs(nd, dirs, table, i + 1)
    }
}

/// The documented resolution chain for one dependency reference: the
/// normalized reference as a direct key; then, for an external script, the
/// reference relative to the script's own directory; then each configured
/// directory in order.
pub open spec fn spec_resolve(
    dep: Seq<char>,
    sv: ScriptView,
    dirs: Seq<Seq<char>>,
    table: Map<Seq<char>, usize>,
) -> Option<usize> {
    let nd = ScriptParser::normalize_dep_spec(dep);
    if table.dom().contains(nd) {
        Some(table[nd])
    } else if !sv.embedded && (match parent_dir(sv.absolute_pathname) {
        Some(pd) => table.dom().contains(join_path(pd, nd)),
        None => false,
    }) {
        Some(table[join_path(parent_dir(sv.absolute_pathname).unwrap(), nd)])
    } else {
        resolve_in_dirs(nd, dirs, table, 0)
    }
}

/// Join a directory and a reference with one slash between them.
pub(crate) fn join_path_exec(d: &str, n: &str) -> (r: String)
    ensures
        r@ == join_path(d@, n@),
{
    let dl: usize = d.unicode_len();
    if dl > 0 && d.get_char(dl - 1) == '/' {
        let mut r: String = String::from_str(d);
        r.append(n);
        r
    } else if dl == 0 {
        String::from_str(n)
    } else {
        let mut r: String = String::from_str(d);
        r.append("/");
        r.append(n);
        proof {
            reveal_strlit("/");
            assert("/"@ =~= seq!['/']);
        }
        r
    }
}

/// The directory part of a path, as `parent_dir` describes it.
pub(crate) fn parent_dir_exec(p: &str) -> (r: Option<String>)
    ensures
        match r {
            Some(d) => parent_dir(p@) == Some(d@),
            None => parent_dir(p@) is None,
        },
{
    let n: usize = p.unicode_len();
    match crate::text::rfind_char_before(p, '/', n) {
        Some(i) => {
            proof {
                lemma_rfind_idx_props(p@, '/', n as int);
            }
            if i == 0 {
                let r: String = String::from_str("/");
                proof {
                    reveal_strlit("/");
                    assert("/"@ =~= seq!['/']);
                }
                Some(r)
            } else {
                Some(substr_string(p, 0, i))
            }
        },
        None => None,
    }
}

/// The manager that turns discovered scripts into an executable plan.
pub struct ScriptManager {}

impl ScriptManager {
    /// A fresh manager.
    pub fn new() -> (r: ScriptManager) {
        ScriptManager {  }
    }

    /// Resolve one dependency reference to a script index through the
    /// documented chain, or report that it is unknown.
    pub fn resolve_dependency(
        &self,
        dep: &str,
        script: &Script,
        external_dirs: &Vec<String>,
        path_to_script: &PathTable,
    ) -> (r: Option<usize>)
        requires
            path_to_script.wf(),
        ensures
            r == spec_resolve(dep@, script@, external_dirs.deep_view(), path_to_script@),
    {
        let nd: String = ScriptParser::normalize_dependency_path(dep);
        match path_to_script.get(nd.as_str()) {
            Some(i) => {
                return Some(i);
            },
            None => {},
        }
        if !script.embedded {
            match parent_dir_exec(script.absolute_pathname.as_str()) {
                Some(pd) => {
                    let joined: String = join_path_exec(pd.as_str(), nd.as_str());
                    match path_to_script.get(joined.as_str()) {
                        Some(i) => {
                            return Some(i);
                        },
                        None => {},
                    }
                },
                None => {},
            }
        }
        let dn: usize = external_dirs.len();
        let mut k: usize = 0;
        while k < dn
            invariant
                path_to_script.wf(),
                dn == external_dirs@.len(),
                k <= dn,
                nd@ == ScriptParser::normalize_dep_spec(dep@),
                spec_resolve(dep@, script@, external_dirs.deep_view(), path_to_script@)
                    == resolve_in_dirs(nd@, external_dirs.deep_view(), path_to_script@, k as int),
            decreases dn - k,
        {
            let joined: String = join_path_exec(external_dirs[k].as_str(), nd.as_str());
            proof {
                assert(external_dirs.deep_view()[k as int] == external_dirs@[k as int]@);
            }
            match path_to_script.get(joined.as_str()) {
                Some(i) => {
                    return Some(i);
                },
                None => {},
            }
            k += 1;
        }
        None
    }
}

/// Every recorded index lies below `n`.
pub open spec fn table_bounded(table: Map<Seq<char>, usize>, n: nat) -> bool {
    forall|k: Seq<char>| #[trigger] table.dom().contains(k) ==> table[k] < n
}

/// One step of table construction for the script at index `i`: embedded
/// scripts are additionally keyed by their bare filename, every script by
/// its absolute pathname.
pub open spec fn table_step(t: Map<Seq<char>, usize>, sv: ScriptView, i: usize) -> Map<
    Seq<char>,
    usize,
> {
    let t2 = if sv.embedded && spec_file_name(sv.absolute_pathname) is Some {
        t.insert(spec_file_name(sv.absolute_pathname).unwrap(), i)
    } else {
        t
    };
    t2.insert(sv.absolute_pathname, i)
}

/// The dependency-key table after the first `i` scripts.
pub open spec fn table_upto(svs: Seq<ScriptView>, i: int) -> Map<Seq<char>, usize>
    decreases i when i >= 0
{
    if i <= 0 {
        Map::empty()
    } else {
        table_step(table_upto(svs, i - 1), svs[i - 1], (i - 1) as usize)
    }
}

/// The dependency-key table of a discovered set of scripts.
pub open spec fn spec_table(svs: Seq<ScriptView>) -> Map<Seq<char>, usize> {
    table_upto(svs, svs.len() as int)
}

proof fn lemma_table_upto_bounded(svs: Seq<ScriptView>, i: int, n: nat)
    requires
        0 <= i <= n,
    ensures
        table_bounded(table_upto(svs, i), n),
    decreases i,
{
    if i > 0 {
        lemma_table_upto_bounded(svs, i - 1, n);
    }
}

/// Every dependency reference one script declares: its ordering references
/// first, then the scripts of its data requirements.
pub open spec fn deps_of(sv: ScriptView) -> Seq<Seq<char>> {
    (match sv.after {
        Some(a) => a,
        None => Seq::empty(),
    }) + (match sv.requirements {
        Some(rs) => rs.map_values(|r: crate::script::ScriptRequirementView| r.script),
        None => Seq::empty(),
    })
}

/// Every reference of every script resolves to a script index.
pub open spec fn all_deps_resolved(
    svs: Seq<ScriptView>,
    dirs: Seq<Seq<char>>,
    table: Map<Seq<char>, usize>,
) -> bool {
    forall|i: int, k: int|
        0 <= i < svs.len() && 0 <= k < deps_of(svs[i]).len() ==> spec_resolve(
            #[trigger] deps_of(svs[i])[k],
            svs[i],
            dirs,
            table,
        ) is Some
}

/// The first `m` dependency edges of the script at index `i`: one edge
/// from each resolved reference to the script.
pub open spec fn script_edges_prefix(
    sv: ScriptView,
    i: usize,
    dirs: Seq<Seq<char>>,
    table: Map<Seq<char>, usize>,
    m: int,
) -> Seq<(usize, usize)>
    recommends
        0 <= m,
{
    Seq::new(m as nat, |k: int| (spec_resolve(deps_of(sv)[k], sv, dirs, table).unwrap(), i))
}

/// The dependency edges of the first `i` scripts.
pub open spec fn edges_upto(
    svs: Seq<ScriptView>,
    dirs: Seq<Seq<char>>,
    table: Map<Seq<char>, usize>,
    i: int,
) -> Seq<(usize, usize)>
    decreases i when i >= 0
{
    if i <= 0 {
        Seq::empty()
    } else {
        edges_upto(svs, dirs, table, i - 1) + script_edges_prefix(
            svs[i - 1],
            (i - 1) as usize,
            dirs,
            table,
            deps_of(svs[i - 1]).len() as int,
        )
    }
}

/// The dependency graph of a discovered set of scripts.
pub open spec fn spec_edges(svs: Seq<ScriptView>, dirs: Seq<Seq<char>>) -> Seq<(usize, usize)> {
    edges_upto(svs, dirs, spec_table(svs), svs.len() as int)
}

proof fn lemma_resolve_in_dirs_bounded(
    nd: Seq<char>,
    dirs: Seq<Seq<char>>,
    table: Map<Seq<char>, usize>,
    i: int,
    n: nat,
)
    requires
        table_bounded(table, n),
        0 <= i,
    ensures
        resolve_in_dirs(nd, dirs, table, i) matches Some(j) ==> j < n,
    decreases dirs.len() - i,
{
    if i < dirs.len() && !table.dom().contains(join_path(dirs[i], nd)) {
        lemma_resolve_in_dirs_bounded(nd, dirs, table, i + 1, n);
    }
}

/// A resolved reference always names an index the table holds, so one
/// below the number of scripts.
pub proof fn lemma_resolve_bounded(
    dep: Seq<char>,
    sv: ScriptView,
    dirs: Seq<Seq<char>>,
    table: Map<Seq<char>, usize>,
    n: nat,
)
    requires
        table_bounded(table, n),
    ensures
        spec_resolve(dep, sv, dirs, table) matches Some(j) ==> j < n,
{
    lemma_resolve_in_dirs_bounded(ScriptParser::normalize_dep_spec(dep), dirs, table, 0, n);
}

/// Each resolved reference of each of the first `N` scripts stands in the
/// edge list as an edge into its script.
proof fn lemma_edge_present(
    svs: Seq<ScriptView>,
    dirs: Seq<Seq<char>>,
    table: Map<Seq<char>, usize>,
    i: int,
    k: int,
    upto: int,
)
    requires
        0 <= i < upto <= svs.len(),
        0 <= k < deps_of(svs[i]).len(),
    ensures
        exists|e: int|
            0 <= e < edges_upto(svs, dirs, table, upto).len()
                && #[trigger] edges_upto(svs, dirs, table, upto)[e] == (
            spec_resolve(deps_of(svs[i])[k], svs[i], dirs, table).unwrap(),
            i as usize,
        ),
    decreases upto,
{
    let es = edges_upto(svs, dirs, table, upto);
    if i == upto - 1 {
        let base = edges_upto(svs, dirs, table, upto - 1);
        let e = base.len() + k;
        assert(es[e as int] == (spec_resolve(deps_of(svs[i])[k], svs[i], dirs, table).unwrap(),
        i as usize));
    } else {
        lemma_edge_present(svs, dirs, table, i, k, upto - 1);
        let prev = edges_upto(svs, dirs, table, upto - 1);
        let e = choose|e: int| 0 <= e < prev.len() && #[trigger] prev[e] == (
            spec_resolve(deps_of(svs[i])[k], svs[i], dirs, table).unwrap(),
            i as usize,
        );
        assert(es[e] == prev[e]);
    }
}

impl ScriptManager {
    /// Order the discovered scripts so that every dependency stands
    /// strictly before every script that declares it, resolving each
    /// reference through the documented chain. Fails with
    /// `DependencyNotFound` on the first reference that resolves to no
    /// script, and with `CircularDependency` where the references form a
    /// cycle — in either case before anything runs.
    pub fn sort_scripts(
        &self,
        scripts: Vec<Script>,
        external_dirs: &Vec<String>,
    ) -> (r: Result<Vec<Script>, ScriptError>)
        ensures
            ({
                let svs = scripts.deep_view();
                let dirs = external_dirs.deep_view();
                let table = spec_table(svs);
                &&& (r matches Err(e) ==> (e matches ScriptError::CircularDependency || e
                    matches ScriptError::DependencyNotFound { .. }))
                &&& (!all_deps_resolved(svs, dirs, table) ==> r matches Err(
                    ScriptError::DependencyNotFound { .. },
                ))
                &&& (r matches Err(ScriptError::DependencyNotFound { dependency, script })
                    ==> exists|i: int, k: int|
                    0 <= i < svs.len() && 0 <= k < deps_of(svs[i]).len()
                        && #[trigger] deps_of(svs[i])[k] == dependency@ && svs[i].name == script@
                        && spec_resolve(deps_of(svs[i])[k], svs[i], dirs, table) is None)
                &&& ((all_deps_resolved(svs, dirs, table) && has_cycle(spec_edges(svs, dirs)))
                    ==> r matches Err(ScriptError::CircularDependency))
                &&& ((all_deps_resolved(svs, dirs, table) && !has_cycle(spec_edges(svs, dirs)))
                    ==> r is Ok)
                &&& (r matches Ok(sorted) ==> all_deps_resolved(svs, dirs, table) && !has_cycle(
                    spec_edges(svs, dirs),
                ) && exists|ord: Seq<usize>|
                    {
                        &&& #[trigger] is_permutation(ord, svs.len() as nat)
                        &&& sorted.deep_view().len() == svs.len()
                        &&& (forall|p: int| 0 <= p < ord.len() ==> #[trigger] sorted.deep_view()[p]
                            == svs[ord[p] as int])
                        &&& (forall|p: int, k: int|
                            0 <= p < ord.len() && 0 <= k < deps_of(svs[ord[p] as int]).len()
                                ==> exists|q: int|
                                0 <= q < p && #[trigger] ord[q] == spec_resolve(
                                    #[trigger] deps_of(svs[ord[p] as int])[k],
                                    svs[ord[p] as int],
                                    dirs,
                                    table,
                                ).unwrap())
                    })
            }),
    {
        let n: usize = scripts.len();
        let ghost svs = scripts.deep_view();
        let ghost dirs = external_dirs.deep_view();
        let mut table = PathTable::new();
        let mut i: usize = 0;
        while i < n
            invariant
                svs == scripts.deep_view(),
                n == scripts@.len(),
                i <= n,
                table.wf(),
                table@ == table_upto(svs, i as int),
            decreases n - i,
        {
            proof {
                assert(svs[i as int] == scripts@[i as int]@);
            }
            if scripts[i].embedded {
                match file_name_of(scripts[i].absolute_pathname.as_str()) {
                    Some(f) => {
                        table.insert(f, i);
                    },
                    None => {},
                }
            }
            table.insert(scripts[i].absolute_pathname.clone(), i);
            proof {
                assert(table@ =~= table_upto(svs, i + 1));
            }
            i += 1;
        }
        proof {
            lemma_table_upto_bounded(svs, n as int, n as nat);
        }
        let mut edges: Vec<(usize, usize)> = Vec::new();
        let mut i: usize = 0;
        while i < n
            invariant
                svs == scripts.deep_view(),
                dirs == external_dirs.deep_view(),
                n == scripts@.len(),
                i <= n,
                table.wf(),
                table@ == spec_table(svs),
                table_bounded(table@, n as nat),
                edges@ == edges_upto(svs, dirs, table@, i as int),
                edges_ok(edges@, n as nat),
                forall|i2: int, k: int|
                    0 <= i2 < i && 0 <= k < deps_of(svs[i2]).len() ==> spec_resolve(
                        #[trigger] deps_of(svs[i2])[k],
                        svs[i2],
                        dirs,
                        table@,
                    ) is Some,
            decreases n - i,
        {
            let ghost sv = svs[i as int];
            let ghost base = edges@;
            proof {
                assert(sv == scripts@[i as int]@);
            }
            let mut off: usize = 0;
            if let Some(afters) = &scripts[i].after {
                let ghost al = (match sv.after {
                    Some(a) => a,
                    None => Seq::<Seq<char>>::empty(),
                });
                let an: usize = afters.len();
                let mut k: usize = 0;
                while k < an
                    invariant
                        svs == scripts.deep_view(),
                        dirs == external_dirs.deep_view(),
                        n == scripts@.len(),
                        i < n,
                        sv == svs[i as int],
                        sv == scripts@[i as int]@,
                        scripts@[i as int].after matches Some(a) && a == *afters,
                        al == afters.deep_view(),
                        sv.after == Some(al),
                        an == afters@.len(),
                        k <= an,
                        table.wf(),
                        table@ == spec_table(svs),
                        table_bounded(table@, n as nat),
                        base == edges_upto(svs, dirs, table@, i as int),
                        edges@ == base + script_edges_prefix(sv, i, dirs, table@, k as int),
                        edges_ok(edges@, n as nat),
                        forall|k2: int| 0 <= k2 < k ==> spec_resolve(
                            #[trigger] deps_of(sv)[k2],
                            sv,
                            dirs,
                            table@,
                        ) is Some,
                        forall|i2: int, k2: int|
                            0 <= i2 < i && 0 <= k2 < deps_of(svs[i2]).len() ==> spec_resolve(
                                #[trigger] deps_of(svs[i2])[k2],
                                svs[i2],
                                dirs,
                                table@,
                            ) is Some,
                    decreases an - k,
                {
                    proof {
                        assert(deps_of(sv)[k as int] == al[k as int]);
                        assert(al[k as int] == afters@[k as int]@);
                    }
                    match self.resolve_dependency(
                        afters[k].as_str(),
                        &scripts[i],
                        external_dirs,
                        &table,
                    ) {
                        Some(j) => {
                            edges.push((j, i));
                            proof {
                                lemma_resolve_bounded(deps_of(sv)[k as int], sv, dirs, table@,
                                n as nat);
                                assert(edges@ =~= base + script_edges_prefix(
                                    sv,
                                    i,
                                    dirs,
                                    table@,
                                    k + 1,
                                ));
                            }
                        },
                        None => {
                            proof {
                                assert(spec_resolve(deps_of(svs[i as int])[k as int],
                                svs[i as int], dirs, table@) is None);
                            }
                            return Err(ScriptError::DependencyNotFound {
                                dependency: afters[k].clone(),
                                script: scripts[i].name.clone(),
                            });
                        },
                    }
                    k += 1;
                }
                off = an;
            }
            proof {
                assert(off as int == (match sv.after {
                    Some(a) => a.len() as int,
                    None => 0,
                }));
            }
            if let Some(reqs) = &scripts[i].requirements {
                let ghost rl = (match sv.requirements {
                    Some(rs) => rs,
                    None => Seq::<crate::script::ScriptRequirementView>::empty(),
                });
                let rn: usize = reqs.len();
                let mut k: usize = 0;
                while k < rn
                    invariant
                        svs == scripts.deep_view(),
                        dirs == external_dirs.deep_view(),
                        n == scripts@.len(),
                        i < n,
                        sv == svs[i as int],
                        sv == scripts@[i as int]@,
                        scripts@[i as int].requirements matches Some(rr) && rr == *reqs,
                        rl == reqs.deep_view(),
                        sv.requirements == Some(rl),
                        rn == reqs@.len(),
                        k <= rn,
                        off as int == (match sv.after {
                            Some(a) => a.len() as int,
                            None => 0,
                        }),
                        off + rn == deps_of(sv).len(),
                        table.wf(),
                        table@ == spec_table(svs),
                        table_bounded(table@, n as nat),
                        base == edges_upto(svs, dirs, table@, i as int),
                        edges@ == base + script_edges_prefix(sv, i, dirs, table@, off + k as int),
                        edges_ok(edges@, n as nat),
                        forall|k2: int| 0 <= k2 < off + k ==> spec_resolve(
                            #[trigger] deps_of(sv)[k2],
                            sv,
                            dirs,
                            table@,
                        ) is Some,
                        forall|i2: int, k2: int|
                            0 <= i2 < i && 0 <= k2 < deps_of(svs[i2]).len() ==> spec_resolve(
                                #[trigger] deps_of(svs[i2])[k2],
                                svs[i2],
                                dirs,
                                table@,
                            ) is Some,
                    decreases rn - k,
                {
                    proof {
                        assert(deps_of(sv)[off + k] == rl[k as int].script);
                        assert(rl[k as int] == reqs@[k as int].deep_view());
                    }
                    match self.resolve_dependency(
                        reqs[k].script.as_str(),
                        &scripts[i],
                        external_dirs,
                        &table,
                    ) {
                        Some(j) => {
                            edges.push((j, i));
                            proof {
                                lemma_resolve_bounded(deps_of(sv)[off + k], sv, dirs, table@,
                                n as nat);
                                assert(edges@ =~= base + script_edges_prefix(
                                    sv,
                                    i,
                                    dirs,
                                    table@,
                                    off + k + 1,
                                ));
                            }
                        },
                        None => {
                            proof {
                                assert(spec_resolve(deps_of(svs[i as int])[off + k],
                                svs[i as int], dirs, table@) is None);
                            }
                            return Err(ScriptError::DependencyNotFound {
                                dependency: reqs[k].script.clone(),
                                script: scripts[i].name.clone(),
                            });
                        },
                    }
                    k += 1;
                }
            }
            proof {
                assert(edges@ =~= base + script_edges_prefix(
                    sv,
                    i,
                    dirs,
                    table@,
                    deps_of(sv).len() as int,
                ));
                assert(edges@ =~= edges_upto(svs, dirs, table@, i + 1));
            }
            i += 1;
        }
        let ghost table_v = table@;
        match topo_sort(n, &edges) {
            Some(order) => {
                let mut sorted: Vec<Script> = Vec::new();
                let mut p: usize = 0;
                while p < n
                    invariant
                        svs == scripts.deep_view(),
                        n == scripts@.len(),
                        p <= n,
                        is_permutation(order@, n as nat),
                        order@.len() == n,
                        sorted@.len() == p,
                        forall|q: int| 0 <= q < p ==> #[trigger] sorted.deep_view()[q]
                            == svs[order@[q] as int],
                    decreases n - p,
                {
                    let idx: usize = order[p];
                    let ghost old_dv = sorted.deep_view();
                    sorted.push(scripts[idx].clone());
                    proof {
                        assert(sorted@[p as int]@ == scripts@[idx as int]@);
                        assert(forall|q: int| 0 <= q < p ==> #[trigger] sorted.deep_view()[q]
                            == old_dv[q]);
                    }
                    p += 1;
                }
                proof {
                    let ord = order@;
                    assert forall|p2: int, k: int|
                        0 <= p2 < ord.len() && 0 <= k < deps_of(svs[ord[p2] as int]).len()
                            implies exists|q: int|
                        0 <= q < p2 && #[trigger] ord[q] == spec_resolve(
                            #[trigger] deps_of(svs[ord[p2] as int])[k],
                            svs[ord[p2] as int],
                            dirs,
                            table_v,
                        ).unwrap() by {
                        let node = ord[p2] as int;
                        lemma_edge_present(svs, dirs, table_v, node, k, n as int);
                        let e = choose|e: int|
                            0 <= e < edges@.len() && #[trigger] edges@[e] == (
                            spec_resolve(deps_of(svs[node])[k], svs[node], dirs, table_v).unwrap(),
                            node as usize,
                        );
                        let u = edges@[e].0;
                        crate::graph::lemma_permutation_onto(ord, n as nat, u as int);
                        let q = crate::graph::idx_of(ord, u as int);
                        assert(ord[q] == u);
                        assert(ord[p2] == edges@[e].1);
                        assert(q < p2);
                    }
                }
                Ok(sorted)
            },
            None => {
                return Err(ScriptError::CircularDependency);
            },
        }
    }
}

} // verus!
