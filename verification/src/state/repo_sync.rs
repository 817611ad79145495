//! Keeping local clones of repositories up to date: which git commands run,
//! in which order, what a failure of each is reported as, and what the
//! outcomes of the commands that ran come to.
use vstd::prelude::*;

use super::global_agents::{decode_utf8_text, utf8_error_text};
use super::{join_path, path_join, AppState};
use crate::error::{ErrorKind, TupiError};
use crate::text::{joined, joined3, owned};
use vstd::utf8::{decode_utf8, valid_utf8};

verus! {

/// A git command: its arguments, the message of the error reported when it
/// does not succeed, and whether its output is taken rather than shown.
#[derive(Debug)]
pub struct GitCommand {
    pub args: Vec<String>,
    pub failure: String,
    pub quiet: bool,
}

/// A git command as texts.
#[verifier::ext_equal]
pub struct GitCommandView {
    pub args: Seq<Seq<char>>,
    pub failure: Seq<char>,
    pub quiet: bool,
}

impl View for GitCommand {
    type V = GitCommandView;

    open spec fn view(&self) -> GitCommandView {
        GitCommandView {
            args: self.args@.map_values(|a: String| a@),
            failure: self.failure@,
            quiet: self.quiet,
        }
    }
}

/// The views of commands.
pub open spec fn command_views(cs: Seq<GitCommand>) -> Seq<GitCommandView> {
    cs.map_values(|c: GitCommand| c@)
}

/// A git command as texts.
pub open spec fn command(args: Seq<Seq<char>>, failure: Seq<char>, quiet: bool) -> GitCommandView {
    GitCommandView { args, failure, quiet }
}

/// The commands that bring the workspace `dir` of `repository` up to date
/// on `branch`: a clone where there is none yet, else a fetch; then a
/// checkout of the fetched branch. `label` names the repository in errors.
pub open spec fn workspace_commands(
    dir: Seq<char>,
    repository: Seq<char>,
    branch: Seq<char>,
    label: Seq<char>,
    has_clone: bool,
) -> Seq<GitCommandView> {
    let update = if has_clone {
        command(seq!["-C"@, dir, "fetch"@, "origin"@, branch], "failed to fetch "@ + label, false)
    } else {
        command(
            seq!["clone"@, "--branch"@, branch, "--single-branch"@, repository, dir],
            "failed to clone "@ + label,
            false,
        )
    };
    seq![
        update,
        command(
            seq!["-C"@, dir, "checkout"@, "-B"@, branch, "origin/"@ + branch],
            "failed to check out "@ + label + " branch"@,
            false,
        ),
    ]
}

/// Where the catalog file is read from: the catalog path in the fetched
/// commit of `branch`.
pub open spec fn catalog_object(branch: Seq<char>) -> Seq<char> {
    "origin/"@ + branch + ":catalog/trusted-assets.yaml"@
}

/// The commands that bring the clone `dir` of the catalog repository up to
/// date on `branch` without checking it out, make sure the branch is there,
/// and print the catalog file of its fetched commit; the output of the last
/// command is the catalog.
pub open spec fn catalog_commands(
    dir: Seq<char>,
    repository: Seq<char>,
    branch: Seq<char>,
    has_clone: bool,
) -> Seq<GitCommandView> {
    let update = if has_clone {
        command(
            seq!["-C"@, dir, "fetch"@, "origin"@, branch],
            "failed to fetch trusted catalog repository"@,
            false,
        )
    } else {
        command(
            seq!["clone"@, "--no-checkout"@, "--branch"@, branch, "--single-branch"@, repository, dir],
            "failed to clone trusted catalog repository"@,
            false,
        )
    };
    seq![
        update,
        command(
            seq!["-C"@, dir, "rev-parse"@, "origin/"@ + branch],
            "failed to verify trusted catalog branch"@,
            true,
        ),
        command(
            seq!["-C"@, dir, "show"@, catalog_object(branch)],
            "failed to read "@ + catalog_object(branch),
            true,
        ),
    ]
}

/// How a command ended: whether it succeeded, or the error met starting it.
pub open spec fn outcome_views(outcomes: Seq<Result<bool, String>>) -> Seq<Result<bool, Seq<char>>> {
    outcomes.map_values(
        |o: Result<bool, String>|
            match o {
                Ok(b) => Ok::<bool, Seq<char>>(b),
                Err(m) => Err::<bool, Seq<char>>(m@),
            },
    )
}

/// The index of the first command that did not succeed.
pub open spec fn first_failure(outcomes: Seq<Result<bool, Seq<char>>>) -> Option<int>
    decreases outcomes.len(),
{
    if outcomes.len() == 0 {
        None
    } else {
        match first_failure(outcomes.drop_last()) {
            Some(i) => Some(i),
            None => if outcomes.last() == Ok::<bool, Seq<char>>(true) {
                None
            } else {
                Some(outcomes.len() - 1)
            },
        }
    }
}

/// What comes next in a run of git commands.
#[derive(Debug)]
pub enum GitProgress {
    /// Run the command at this index.
    Run(usize),
    /// Every command succeeded.
    Finished,
    /// A command failed; the run stops with this error.
    Failed(TupiError),
}

/// The error of a command that did not succeed: the error met starting it,
/// or else its failure message.
pub open spec fn failure_of(c: GitCommandView, o: Result<bool, Seq<char>>) -> (ErrorKind, Seq<char>) {
    match o {
        Err(m) => (ErrorKind::CatalogRead, m),
        Ok(_) => (ErrorKind::CatalogRead, c.failure),
    }
}

/// Whether `p` is what follows the outcomes of the commands run so far:
/// the first failure ends the run; otherwise the next command runs, until
/// all have.
pub open spec fn progress_is(
    p: GitProgress,
    commands: Seq<GitCommandView>,
    outcomes: Seq<Result<bool, Seq<char>>>,
) -> bool {
    match first_failure(outcomes) {
        Some(i) => p matches GitProgress::Failed(e) && e@ == failure_of(commands[i], outcomes[i]),
        None => if outcomes.len() < commands.len() {
            p == GitProgress::Run(outcomes.len() as usize)
        } else {
            p is Finished
        },
    }
}

/// Strings made of texts.
fn strings(parts: Vec<&str>) -> (out: Vec<String>)
    ensures
        out@.map_values(|s: String| s@) == parts@.map_values(|p: &str| p@),
{
    let mut out: Vec<String> = Vec::new();
    let mut i: usize = 0;
    while i < parts.len()
        invariant
            i <= parts.len(),
            out@.map_values(|s: String| s@) == parts@.take(i as int).map_values(|p: &str| p@),
        decreases parts.len() - i,
    {
        let ghost before = out@;
        out.push(owned(parts[i]));
        proof {
            assert(parts@.take(i + 1) =~= parts@.take(i as int).push(parts@[i as int]));
            assert(out@.map_values(|s: String| s@) =~= before.map_values(|s: String| s@).push(
                parts@[i as int]@,
            ));
            assert(parts@.take(i + 1).map_values(|p: &str| p@) =~= parts@.take(i as int).map_values(
                |p: &str| p@,
            ).push(parts@[i as int]@));
        }
        i = i + 1;
    }
    assert(parts@.take(parts.len() as int) =~= parts@);
    out
}

impl AppState {
    /// Whether a folder that is about to hold a clone must first be
    /// removed: it is there, but it is not a clone.
    pub fn must_clear_folder(exists: bool, has_clone: bool) -> (r: bool)
        ensures
            r == (exists && !has_clone),
    {
        exists && !has_clone
    }

    /// The git commands that bring a repository workspace up to date; see
    /// `workspace_commands`.
    pub fn workspace_git_commands(
        dir: &str,
        repository: &str,
        branch: &str,
        label: &str,
        has_clone: bool,
    ) -> (out: Vec<GitCommand>)
        ensures
            command_views(out@) == workspace_commands(dir@, repository@, branch@, label@, has_clone),
    {
        proof {
            reveal_strlit("-C");
            reveal_strlit("fetch");
            reveal_strlit("origin");
            reveal_strlit("clone");
            reveal_strlit("--branch");
            reveal_strlit("--single-branch");
            reveal_strlit("checkout");
            reveal_strlit("-B");
        }
        let update = if has_clone {
            GitCommand {
                args: strings(vec!["-C", dir, "fetch", "origin", branch]),
                failure: joined("failed to fetch ", label),
                quiet: false,
            }
        } else {
            GitCommand {
                args: strings(vec!["clone", "--branch", branch, "--single-branch", repository, dir]),
                failure: joined("failed to clone ", label),
                quiet: false,
            }
        };
        let target = joined("origin/", branch);
        let checkout = GitCommand {
            args: strings(vec!["-C", dir, "checkout", "-B", branch, target.as_str()]),
            failure: joined3("failed to check out ", label, " branch"),
            quiet: false,
        };
        let ghost expected = workspace_commands(dir@, repository@, branch@, label@, has_clone);
        assert(update@ =~= expected[0]) by {
            assert(update@.args =~= expected[0].args);
        }
        assert(checkout@ =~= expected[1]) by {
            assert(checkout@.args =~= expected[1].args);
        }
        let mut out: Vec<GitCommand> = Vec::new();
        out.push(update);
        out.push(checkout);
        assert(command_views(out@) =~= expected);
        out
    }

    /// The git commands that bring the catalog repository clone up to date
    /// and print its catalog at the fetched commit; see `catalog_commands`.
    pub fn catalog_git_commands(dir: &str, repository: &str, branch: &str, has_clone: bool) -> (out:
        Vec<GitCommand>)
        ensures
            command_views(out@) == catalog_commands(dir@, repository@, branch@, has_clone),
    {
        proof {
            reveal_strlit("-C");
            reveal_strlit("fetch");
            reveal_strlit("origin");
            reveal_strlit("clone");
            reveal_strlit("--no-checkout");
            reveal_strlit("--branch");
            reveal_strlit("--single-branch");
            reveal_strlit("rev-parse");
            reveal_strlit("show");
        }
        let update = if has_clone {
            GitCommand {
                args: strings(vec!["-C", dir, "fetch", "origin", branch]),
                failure: owned("failed to fetch trusted catalog repository"),
                quiet: false,
            }
        } else {
            GitCommand {
                args: strings(
                    vec!["clone", "--no-checkout", "--branch", branch, "--single-branch", repository, dir],
                ),
                failure: owned("failed to clone trusted catalog repository"),
                quiet: false,
            }
        };
        let target = joined("origin/", branch);
        let verify = GitCommand {
            args: strings(vec!["-C", dir, "rev-parse", target.as_str()]),
            failure: owned("failed to verify trusted catalog branch"),
            quiet: true,
        };
        let object = joined(target.as_str(), ":catalog/trusted-assets.yaml");
        let read = GitCommand {
            args: strings(vec!["-C", dir, "show", object.as_str()]),
            failure: joined("failed to read ", object.as_str()),
            quiet: true,
        };
        let ghost expected = catalog_commands(dir@, repository@, branch@, has_clone);
        assert(update@ =~= expected[0]) by {
            assert(update@.args =~= expected[0].args);
        }
        assert(verify@ =~= expected[1]) by {
            assert(verify@.args =~= expected[1].args);
        }
        assert(read@ =~= expected[2]) by {
            assert(read@.args =~= expected[2].args);
        }
        let mut out: Vec<GitCommand> = Vec::new();
        out.push(update);
        out.push(verify);
        out.push(read);
        assert(command_views(out@) =~= expected);
        out
    }

    /// What follows the outcomes of the commands run so far; see
    /// `progress_is`.
    pub fn next_git_step(commands: &Vec<GitCommand>, outcomes: &Vec<Result<bool, String>>) -> (p:
        GitProgress)
        requires
            outcomes.len() <= commands.len(),
        ensures
            progress_is(p, command_views(commands@), outcome_views(outcomes@)),
    {
        let ghost cv = command_views(commands@);
        let ghost ov = outcome_views(outcomes@);
        let mut i: usize = 0;
        assert(ov.take(0) =~= Seq::<Result<bool, Seq<char>>>::empty());
        while i < outcomes.len()
            invariant
                i <= outcomes.len() <= commands.len(),
                cv == command_views(commands@),
                ov == outcome_views(outcomes@),
                first_failure(ov.take(i as int)) is None,
            decreases outcomes.len() - i,
        {
            let t = Ghost(ov.take(i + 1));
            assert(t@.drop_last() =~= ov.take(i as int));
            assert(t@.last() == ov[i as int]);
            let failed = match &outcomes[i] {
                Ok(true) => None,
                Ok(false) => Some(TupiError::CatalogRead(commands[i].failure.clone())),
                Err(m) => Some(TupiError::CatalogRead(m.clone())),
            };
            if let Some(e) = failed {
                proof {
                    lemma_first_failure_extends(ov, i + 1);
                }
                return GitProgress::Failed(e);
            }
            i = i + 1;
        }
        assert(ov.take(outcomes.len() as int) =~= ov);
        if outcomes.len() < commands.len() {
            GitProgress::Run(outcomes.len())
        } else {
            GitProgress::Finished
        }
    }

    /// The end of a workspace sync: the workspace folder once every command
    /// succeeded, the error of the one that failed, or nothing yet while
    /// commands remain.
    pub fn finish_workspace_sync(&self, namespace: &str, cache_key: &str, progress: GitProgress) -> (r:
        Option<Result<String, TupiError>>)
        ensures
            match progress {
                GitProgress::Run(_) => r is None,
                GitProgress::Failed(e) => r matches Some(Err(x)) && x@ == e@,
                GitProgress::Finished => r matches Some(Ok(p)) && p@ == path_join(
                    path_join(self.cache_dir@, namespace@),
                    cache_key@.map_values(|c: char| super::cache_key_char(c)),
                ),
            },
    {
        match progress {
            GitProgress::Run(_) => None,
            GitProgress::Failed(e) => Some(Err(e)),
            GitProgress::Finished => Some(Ok(self.repository_workspace(namespace, cache_key))),
        }
    }

    /// The end of a catalog fetch: the catalog printed by the last command
    /// once every command succeeded, the error of the one that failed, or
    /// nothing yet while commands remain. Output that is not UTF-8 is an
    /// error.
    pub fn finish_catalog_fetch(branch: &str, progress: GitProgress, printed: &Vec<u8>) -> (r: Option<
        Result<String, TupiError>,
    >)
        ensures
            match progress {
                GitProgress::Run(_) => r is None,
                GitProgress::Failed(e) => r matches Some(Err(x)) && x@ == e@,
                GitProgress::Finished => if valid_utf8(printed@) {
                    r matches Some(Ok(t)) && t@ == decode_utf8(printed@)
                } else {
                    r matches Some(Err(x)) && x@ == (
                        ErrorKind::CatalogRead,
                        catalog_object(branch@) + " ("@ + utf8_error_text(printed@) + ")"@,
                    )
                },
            },
    {
        match progress {
            GitProgress::Run(_) => None,
            GitProgress::Failed(e) => Some(Err(e)),
            GitProgress::Finished => match decode_utf8_text(printed) {
                Ok(t) => Some(Ok(t)),
                Err(m) => {
                    let object = joined3("origin/", branch, ":catalog/trusted-assets.yaml");
                    let msg = joined3(object.as_str(), " (", joined(m.as_str(), ")").as_str());
                    assert(msg@ =~= catalog_object(branch@) + " ("@ + utf8_error_text(printed@) + ")"@);
                    Some(Err(TupiError::CatalogRead(msg)))
                },
            },
        }
    }

    /// The folder of the local clone of the catalog repository.
    pub fn catalog_clone_dir(&self) -> (p: String)
        ensures
            p@ == path_join(self.cache_dir@, "source-repo"@),
    {
        join_path(self.cache_dir.as_str(), "source-repo")
    }
}

proof fn lemma_first_failure_extends(ov: Seq<Result<bool, Seq<char>>>, n: int)
    requires
        0 <= n <= ov.len(),
        first_failure(ov.take(n)) is Some,
    ensures
        first_failure(ov) == first_failure(ov.take(n)),
    decreases ov.len() - n,
{
    if n < ov.len() {
        let t = ov.take(n + 1);
        assert(t.drop_last() =~= ov.take(n));
        lemma_first_failure_extends(ov, n + 1);
    } else {
        assert(ov.take(n) =~= ov);
    }
}

} // verus!
