//! Git worktrees as plain values: the porcelain listing parsed into
//! records, and the path arithmetic the selection prompt displays.

use vstd::prelude::*;
use vstd::string::StrSliceExecFns;
use vstd::string::StringExecFns;
use crate::text::{
    spec_lines, split_lines, starts_with_seq, starts_with_str, str_eq, substr_string,
};

verus! {

broadcast use vstd::string::group_string_axioms;

/// What can go wrong while listing worktrees; messages carried as text.
#[derive(Debug)]
pub enum WorktreeError {
    /// The git command failed, with its message.
    GitCommand(String),
    /// An I/O failure, with its message.
    Io(String),
    /// Command output that was not valid UTF-8, with the message.
    Utf8(String),
}

/// One git worktree: its checkout path, branch name and commit hash.
#[derive(Debug)]
pub struct Worktree {
    pub path: String,
    pub branch: String,
    pub head: String,
}

/// The mathematical content of a `Worktree`.
pub struct WorktreeView {
    pub path: Seq<char>,
    pub branch: Seq<char>,
    pub head: Seq<char>,
}

impl View for Worktree {
    type V = WorktreeView;

    open spec fn view(&self) -> WorktreeView {
        WorktreeView { path: self.path@, branch: self.branch@, head: self.head@ }
    }
}

impl DeepView for Worktree {
    type V = WorktreeView;

    open spec fn deep_view(&self) -> WorktreeView {
        self.view()
    }
}

impl Clone for Worktree {
    fn clone(&self) -> (res: Self)
        ensures
            res@ == self@,
    {
        Worktree {
            path: self.path.clone(),
            branch: self.branch.clone(),
            head: self.head.clone(),
        }
    }
}

/// The worktree path relative to a base directory (the base given without
/// a trailing slash): the part after `base/`, empty for the base itself,
/// and the full path where the base is no prefix.
pub open spec fn spec_relative(p: Seq<char>, base: Seq<char>) -> Seq<char> {
    if p == base {
        Seq::empty()
    } else if starts_with_seq(p, base + seq!['/']) {
        p.skip(base.len() as int + 1)
    } else {
        p
    }
}

impl Worktree {
    /// The worktree's path relative to `base_dir`.
    pub fn relative_path(&self, base_dir: &str) -> (r: String)
        ensures
            r@ == spec_relative(self.path@, base_dir@),
    {
        if str_eq(self.path.as_str(), base_dir) {
            return String::new();
        }
        let mut prefix: String = String::from_str(base_dir);
        prefix.append("/");
        proof {
            reveal_strlit("/");
            assert("/"@ =~= seq!['/']);
        }
        if starts_with_str(self.path.as_str(), prefix.as_str()) {
            let n: usize = self.path.as_str().unicode_len();
            let m: usize = prefix.as_str().unicode_len();
            substr_string(self.path.as_str(), m, n)
        } else {
            self.path.clone()
        }
    }

    /// The display form of a worktree: its branch, with its relative path
    /// in parentheses unless it is the base itself.
    pub fn display_name(&self, base_dir: &str) -> (r: String)
        ensures
            ({
                let rel = spec_relative(self.path@, base_dir@);
                if rel.len() == 0 {
                    r@ == self.branch@
                } else {
                    r@ == self.branch@ + " ("@ + rel + ")"@
                }
            }),
    {
        let relative: String = self.relative_path(base_dir);
        if relative.as_str().unicode_len() == 0 {
            self.branch.clone()
        } else {
            let mut r: String = self.branch.clone();
            r.append(" (");
            r.append(relative.as_str());
            r.append(")");
            r
        }
    }

    /// Whether this is the main worktree: its path is the base directory.
    pub fn is_main(&self, base_dir: &str) -> (r: bool)
        ensures
            r == (self.path@ == base_dir@),
    {
        str_eq(self.path.as_str(), base_dir)
    }
}

/// One worktree record while the porcelain listing is read: each field
/// that has appeared so far.
#[derive(Debug)]
pub struct WorktreeEntry {
    pub path: Option<String>,
    pub head: Option<String>,
    pub branch: Option<String>,
}

/// The mathematical content of a `WorktreeEntry`.
pub struct WorktreeEntryView {
    pub path: Option<Seq<char>>,
    pub head: Option<Seq<char>>,
    pub branch: Option<Seq<char>>,
}

impl View for WorktreeEntry {
    type V = WorktreeEntryView;

    open spec fn view(&self) -> WorktreeEntryView {
        WorktreeEntryView {
            path: self.path.deep_view(),
            head: self.head.deep_view(),
            branch: self.branch.deep_view(),
        }
    }
}

/// The empty record.
pub open spec fn empty_entry() -> WorktreeEntryView {
    WorktreeEntryView { path: None, head: None, branch: None }
}

/// A branch value with a `refs/heads/` prefix removed.
pub open spec fn spec_branch_name(b: Seq<char>) -> Seq<char> {
    if starts_with_seq(b, "refs/heads/"@) {
        b.skip("refs/heads/"@.len() as int)
    } else {
        b
    }
}

/// One porcelain line folded into the record: `worktree `, `HEAD ` and
/// `branch ` lines set their fields (a later line winning), anything else
/// is ignored.
pub open spec fn entry_step(e: WorktreeEntryView, line: Seq<char>) -> WorktreeEntryView {
    if starts_with_seq(line, "worktree "@) {
        WorktreeEntryView { path: Some(line.skip("worktree "@.len() as int)), ..e }
    } else if starts_with_seq(line, "HEAD "@) {
        WorktreeEntryView { head: Some(line.skip("HEAD "@.len() as int)), ..e }
    } else if starts_with_seq(line, "branch "@) {
        WorktreeEntryView {
            branch: Some(spec_branch_name(line.skip("branch "@.len() as int))),
            ..e
        }
    } else {
        e
    }
}

/// The worktree a finished record denotes: one with both a path and a
/// commit, the branch defaulting to `(detached)`; nothing otherwise.
pub open spec fn flush_entry(e: WorktreeEntryView) -> Seq<WorktreeView> {
    match (e.path, e.head) {
        (Some(p), Some(h)) => seq![
            WorktreeView {
                path: p,
                head: h,
                branch: match e.branch {
                    Some(b) => b,
                    None => "(detached)"@,
                },
            },
        ],
        _ => Seq::empty(),
    }
}

/// The worktrees the porcelain lines from `i` on denote, the record `e`
/// partially read: records are separated by empty lines and flushed at
/// each separator and at the end.
pub open spec fn worktrees_from(ls: Seq<Seq<char>>, i: int, e: WorktreeEntryView) -> Seq<
    WorktreeView,
>
    recommends
        0 <= i,
    decreases ls.len() - i when 0 <= i
{
    if i >= ls.len() {
        flush_entry(e)
    } else if ls[i].len() == 0 {
        flush_entry(e) + worktrees_from(ls, i + 1, empty_entry())
    } else {
        worktrees_from(ls, i + 1, entry_step(e, ls[i]))
    }
}

impl WorktreeEntry {
    /// Turn a finished record into a worktree, where it has both a path
    /// and a commit; the branch defaults to `(detached)`.
    pub fn into_worktree(self) -> (r: Option<Worktree>)
        ensures
            match r {
                Some(w) => flush_entry(self@) == seq![w@],
                None => flush_entry(self@) == Seq::<WorktreeView>::empty(),
            },
    {
        let path: String = match self.path {
            Some(p) => p,
            None => {
                return None;
            },
        };
        let head: String = match self.head {
            Some(h) => h,
            None => {
                return None;
            },
        };
        let branch: String = match self.branch {
            Some(b) => b,
            None => String::from_str("(detached)"),
        };
        let w = Worktree { path, head, branch };
        proof {
            assert(flush_entry(self@) =~= seq![w@]);
        }
        Some(w)
    }
}

/// The reader of `git worktree list --porcelain` output.
pub struct WorktreeManager;

impl WorktreeManager {
    /// Parse the porcelain listing into worktree records: blocks of
    /// `worktree` / `HEAD` / `branch` lines separated by empty lines, each
    /// complete block yielding one worktree.
    pub fn parse_worktree_output(output: &str) -> (r: Result<Vec<Worktree>, WorktreeError>)
        ensures
            r matches Ok(ws) && ws.deep_view() == worktrees_from(
                spec_lines(output@),
                0,
                empty_entry(),
            ),
    {
        let lines: Vec<String> = split_lines(output);
        let ghost ls = lines.deep_view();
        let n: usize = lines.len();
        let mut out: Vec<Worktree> = Vec::new();
        let mut entry = WorktreeEntry { path: None, head: None, branch: None };
        let mut i: usize = 0;
        while i < n
            invariant
                ls == lines.deep_view(),
                n == lines@.len(),
                i <= n,
                worktrees_from(ls, 0, empty_entry()) == out.deep_view() + worktrees_from(
                    ls,
                    i as int,
                    entry@,
                ),
            decreases n - i,
        {
            let line: &String = &lines[i];
            let ln: usize = line.as_str().unicode_len();
            proof {
                assert(ls[i as int] == lines@[i as int]@);
            }
            if ln == 0 {
                let ghost old_entry = entry@;
                let ghost old_out = out.deep_view();
                let finished = entry;
                entry = WorktreeEntry { path: None, head: None, branch: None };
                match finished.into_worktree() {
                    Some(w) => {
                        out.push(w);
                        proof {
                            assert(out.deep_view() =~= old_out + flush_entry(old_entry));
                        }
                    },
                    None => {
                        proof {
                            assert(out.deep_view() =~= old_out + flush_entry(old_entry));
                        }
                    },
                }
                proof {
                    assert((old_out + flush_entry(old_entry)) + worktrees_from(
                        ls,
                        i + 1,
                        empty_entry(),
                    ) =~= old_out + (flush_entry(old_entry) + worktrees_from(
                        ls,
                        i + 1,
                        empty_entry(),
                    )));
                }
            } else {
                let ghost old_entry = entry@;
                proof {
                    reveal_strlit("worktree ");
                    reveal_strlit("HEAD ");
                    reveal_strlit("branch ");
                    reveal_strlit("refs/heads/");
                }
                if starts_with_str(line.as_str(), "worktree ") {
                    let m: usize = "worktree ".unicode_len();
                    entry.path = Some(substr_string(line.as_str(), m, ln));
                } else if starts_with_str(line.as_str(), "HEAD ") {
                    let m: usize = "HEAD ".unicode_len();
                    entry.head = Some(substr_string(line.as_str(), m, ln));
                } else if starts_with_str(line.as_str(), "branch ") {
                    let m: usize = "branch ".unicode_len();
                    let b: String = substr_string(line.as_str(), m, ln);
                    let bn: usize = b.as_str().unicode_len();
                    let stripped: String = if starts_with_str(b.as_str(), "refs/heads/") {
                        let rm: usize = "refs/heads/".unicode_len();
                        substr_string(b.as_str(), rm, bn)
                    } else {
                        b
                    };
                    entry.branch = Some(stripped);
                }
                proof {
                    assert(entry@ == entry_step(old_entry, ls[i as int]));
                }
            }
            i += 1;
        }
        let finished = entry;
        let ghost final_entry = finished@;
        match finished.into_worktree() {
            Some(w) => {
                let ghost old_out = out.deep_view();
                out.push(w);
                proof {
                    assert(out.deep_view() =~= old_out + flush_entry(final_entry));
                }
            },
            None => {
                proof {
                    assert(out.deep_view() =~= out.deep_view() + flush_entry(final_entry));
                }
            },
        }
        Ok(out)
    }
}

} // verus!
