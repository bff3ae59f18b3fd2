//! What every step of a run says and asks for, by what was asked for and replied before.
use crate::dependency::{
    command_paths, command_warnings, history_search_paths, search_ends, LibraryView, TreeView,
};
use crate::dependency_laws::{a_command_needs_itself, search_goes_on_while_it_helps};
use crate::error::{ErrorKind, ErrorView};
use crate::path_laws::path_sets_hold_only_their_list;
use crate::path_set::{path_set_exists, path_set_of};
use crate::run::{
    dependency_lines, profile_names, profile_vars, rule_warning_lines, variable_lines,
    warning_lines, AccessRights, ActionView, LineView, ProfileView, ReplyView, RequestView,
};
use crate::run_laws::{
    answers, command_resolved, last_profile_decides, lemma_action_of_phase, lemma_allowed_paths,
    lemma_request, prepares, step_at,
};
use crate::text::{decimal, joined, lossy_form};
use crate::text_laws::only_listed_variables_are_assigned;
use vstd::prelude::*;
use vstd::utf8::encode_utf8;

verus! {

/// A run begins by saying which profiles apply. With profiles, the workspace of the last one
/// is opened; without, the command is executed as it is where the request says so, and the run
/// is refused otherwise.
pub proof fn runs_begin<E>(request: RequestView, replies: Seq<ReplyView<E>>)
    ensures
        ({
            let step = step_at(request, replies, 0);
            let opening = LineView::Verbose(
                "Using "@ + decimal(request.profiles.len()) + " profile(s): "@ + joined(
                    request.profiles.map_values(|p: ProfileView| p.name),
                    ", "@,
                ),
            );
            &&& request.profiles.len() > 0 ==> {
                &&& step.lines == seq![opening]
                &&& step.action == (ActionView::<E>::OpenWorkspace {
                    profile: request.profiles.len() - 1,
                })
            }
            &&& request.profiles.len() == 0 && request.ignore_missing_profile ==> {
                &&& step.lines == seq![
                    opening,
                    LineView::Verbose("No profile found, executing without sandbox"@),
                ]
                &&& step.action == (ActionView::<E>::ExecuteUnsandboxed {
                    command: request.command,
                })
            }
            &&& request.profiles.len() == 0 && !request.ignore_missing_profile ==> {
                &&& step.lines == seq![opening]
                &&& step.action == (ActionView::<E>::Finish {
                    error: ErrorView::Io {
                        kind: ErrorKind::UnexpectedEof,
                        message: "No profile provided"@,
                    },
                })
            }
        }),
{
    assert(profile_names(request.profiles) =~= request.profiles.map_values(
        |p: ProfileView| p.name,
    ));
}

/// The workspace is open: a command that is named by an absolute path is made canonical, any
/// other is looked up by its name. Nothing is said.
pub proof fn command_is_looked_for<E>(request: RequestView, replies: Seq<ReplyView<E>>, k: int)
    requires
        0 <= k < replies.len(),
        step_at(request, replies, k).action is OpenWorkspace,
        replies[k] is Done,
    ensures
        ({
            let step = step_at(request, replies, k + 1);
            let name = request.command[0];
            let path = encode_utf8(name);
            &&& step.lines == Seq::<LineView>::empty()
            &&& step.action == if path.len() > 0 && path[0] == 47 {
                ActionView::<E>::Canonicalize { path }
            } else {
                ActionView::<E>::FindCommand { name }
            }
        }),
{
    lemma_request(request, replies, k);
    lemma_action_of_phase(request, replies, k);
}

/// The path that was found for a command is made canonical. Nothing is said.
pub proof fn found_command_is_made_canonical<E>(
    request: RequestView,
    replies: Seq<ReplyView<E>>,
    k: int,
)
    requires
        0 <= k < replies.len(),
        step_at(request, replies, k).action is FindCommand,
        replies[k] is Path,
    ensures
        step_at(request, replies, k + 1).lines == Seq::<LineView>::empty(),
        step_at(request, replies, k + 1).action == (ActionView::<E>::Canonicalize {
            path: replies[k]->Path_0,
        }),
{
    lemma_request(request, replies, k);
    lemma_action_of_phase(request, replies, k);
}

/// The canonical path of the command is known, and said. Unless the request leaves libraries
/// out, the first analysis follows, with no more directories to search; else the first
/// profile's turn, with the command alone allowed.
pub proof fn canonical_command_is_analyzed<E>(
    request: RequestView,
    replies: Seq<ReplyView<E>>,
    k: int,
)
    requires
        0 <= k < replies.len(),
        step_at(request, replies, k).action is Canonicalize,
        replies[k] is Path,
    ensures
        ({
            let step = step_at(request, replies, k + 1);
            let path = replies[k]->Path_0;
            let resolved = LineView::Verbose("Resolved command path: "@ + lossy_form(path));
            &&& !request.no_ldd ==> {
                &&& step.lines == seq![resolved]
                &&& step.action == (ActionView::<E>::AnalyzeDependencies {
                    command_path: path,
                    library_paths: seq![],
                })
            }
            &&& request.no_ldd ==> {
                &&& step.lines == seq![
                    resolved,
                    LineView::Verbose(
                        "Skipping shared-library dependency resolution (--no-ldd)"@,
                    ),
                    LineView::Verbose("Allowing dependency path: "@ + lossy_form(path)),
                ]
                &&& step.action == (ActionView::<E>::BuildRuleset { profile: 0 })
            }
        }),
{
    let path = replies[k]->Path_0;
    lemma_request(request, replies, k);
    lemma_action_of_phase(request, replies, k);
    let searched = history_search_paths(seq![]);
    assert(searched =~= seq![]);
    path_set_exists(searched);
    if path_set_of(searched).len() > 0 {
        let at = path_sets_hold_only_their_list(path_set_of(searched), searched, 0);
    }
    assert(path_set_of(searched) =~= seq![]);
    if request.no_ldd {
        a_command_needs_itself(path, seq![], seq![]);
        let step = step_at(request, replies, k + 1);
        let resolved = LineView::Verbose("Resolved command path: "@ + lossy_form(path));
        let skipping = LineView::Verbose(
            "Skipping shared-library dependency resolution (--no-ldd)"@,
        );
        let allowing = LineView::Verbose("Allowing dependency path: "@ + lossy_form(path));
        assert(command_paths(path, None) == seq![path]);
        assert(dependency_lines(seq![path]) =~= seq![allowing]);
        assert(warning_lines(command_warnings(None)) =~= seq![]);
        assert(step.lines =~= seq![resolved, skipping, allowing]);
    }
}

/// The trees that the analyses from step `j` up to step `k` found, that one left out.
pub open spec fn found_trees<E>(replies: Seq<ReplyView<E>>, j: int, k: int) -> Seq<TreeView> {
    Seq::new((k - j) as nat, |i: int| replies[j + i]->Dependencies_0)
}

proof fn lemma_analyses<E>(request: RequestView, replies: Seq<ReplyView<E>>, k: int) -> (j: int)
    requires
        0 <= k <= replies.len(),
        step_at(request, replies, k).run.phase is Dependencies,
    ensures
        0 < j <= k,
        step_at(request, replies, j - 1).action is Canonicalize,
        replies[j - 1] == ReplyView::<E>::Path(
            step_at(request, replies, k).run.phase->command_path,
        ),
        forall|i: int|
            j <= i < k ==> (#[trigger] step_at(request, replies, i)).action is AnalyzeDependencies
                && replies[i] is Dependencies,
        step_at(request, replies, k).run.phase->history == found_trees(replies, j, k),
    decreases k,
{
    lemma_action_of_phase(request, replies, k - 1);
    if step_at(request, replies, k - 1).run.phase is Dependencies {
        let j = lemma_analyses(request, replies, k - 1);
        assert(found_trees(replies, j, k) =~= found_trees(replies, j, k - 1).push(
            replies[k - 1]->Dependencies_0,
        ));
        j
    } else {
        assert(found_trees(replies, k, k) =~= seq![]);
        k
    }
}

/// Every analysis of a run is one of a row that began, at step `j`, when the canonical path of
/// the command had become known; it is that path that is analyzed, and what the trees found
/// before give is searched for its libraries.
pub proof fn analyses_follow_one_another<E>(
    request: RequestView,
    replies: Seq<ReplyView<E>>,
    k: int,
) -> (j: int)
    requires
        0 <= k <= replies.len(),
        step_at(request, replies, k).action is AnalyzeDependencies,
    ensures
        0 < j <= k,
        !request.no_ldd,
        step_at(request, replies, j - 1).action is Canonicalize,
        replies[j - 1] is Path,
        forall|i: int|
            j <= i < k ==> (#[trigger] step_at(request, replies, i)).action is AnalyzeDependencies
                && replies[i] is Dependencies,
        step_at(request, replies, k).action == (ActionView::<E>::AnalyzeDependencies {
            command_path: replies[j - 1]->Path_0,
            library_paths: path_set_of(history_search_paths(found_trees(replies, j, k))),
        }),
{
    lemma_action_of_phase(request, replies, k);
    let j = lemma_analyses(request, replies, k);
    lemma_request(request, replies, j - 1);
    lemma_action_of_phase(request, replies, j - 1);
    if request.no_ldd {
        assert(step_at(request, replies, j).run.phase is Enforcing);
        lemma_action_of_phase(request, replies, j);
    }
    j
}

/// An analysis is followed by another one, of the same path, as long as the search has not
/// ended; nothing is said then. With the end of the search comes the first profile's turn, and
/// it is said which libraries are missing and which paths are allowed, by the last tree.
pub proof fn analysis_is_followed<E>(
    request: RequestView,
    replies: Seq<ReplyView<E>>,
    j: int,
    k: int,
)
    requires
        0 < j <= k < replies.len(),
        step_at(request, replies, j - 1).action is Canonicalize,
        step_at(request, replies, k).action is AnalyzeDependencies,
        forall|i: int| j <= i <= k ==> (#[trigger] replies[i]) is Dependencies,
    ensures
        ({
            let step = step_at(request, replies, k + 1);
            let path = replies[j - 1]->Path_0;
            let trees = found_trees(replies, j, k + 1);
            let tree = replies[k]->Dependencies_0;
            if search_ends(trees) {
                &&& step.lines == command_warnings(Some(tree)).map_values(
                    |w: Seq<char>| LineView::Warning(w),
                ) + command_paths(path, Some(tree)).map_values(
                    |p: Seq<u8>|
                        LineView::Verbose("Allowing dependency path: "@ + lossy_form(p)),
                )
                &&& step.action == (ActionView::<E>::BuildRuleset { profile: 0 })
            } else {
                &&& step.lines == Seq::<LineView>::empty()
                &&& step.action == (ActionView::<E>::AnalyzeDependencies {
                    command_path: path,
                    library_paths: path_set_of(history_search_paths(trees)),
                })
            }
        }),
{
    lemma_request(request, replies, k);
    lemma_action_of_phase(request, replies, k);
    let first = lemma_analyses(request, replies, k);
    if first < j {
        assert(step_at(request, replies, j - 1).action is AnalyzeDependencies);
    }
    if first > j {
        assert(replies[first - 1] is Path);
        assert(replies[first - 1] is Dependencies);
    }
    let path = replies[j - 1]->Path_0;
    let trees = found_trees(replies, j, k + 1);
    let tree = replies[k]->Dependencies_0;
    assert(trees =~= found_trees(replies, j, k).push(tree));
    let warnings = command_warnings(Some(tree));
    let paths = command_paths(path, Some(tree));
    assert(warning_lines(warnings) =~= warnings.map_values(|w: Seq<char>| LineView::Warning(w)));
    assert(dependency_lines(paths) =~= paths.map_values(
        |p: Seq<u8>| LineView::Verbose("Allowing dependency path: "@ + lossy_form(p)),
    ));
    assert(Seq::<LineView>::empty() + warning_lines(warnings) + dependency_lines(paths)
        =~= warning_lines(warnings) + dependency_lines(paths));
}

/// As long as an analysis leaves the library `i` missing, at most three were made, and it was
/// the first or found more libraries than the one before, the run asks for another one.
pub proof fn analysis_is_repeated<E>(
    request: RequestView,
    replies: Seq<ReplyView<E>>,
    j: int,
    k: int,
    i: int,
)
    requires
        0 < j <= k < replies.len(),
        k - j + 1 <= 3,
        step_at(request, replies, j - 1).action is Canonicalize,
        step_at(request, replies, k).action is AnalyzeDependencies,
        forall|m: int| j <= m <= k ==> (#[trigger] replies[m]) is Dependencies,
        ({
            let libraries = replies[k]->Dependencies_0.libraries;
            &&& 0 <= i < libraries.len()
            &&& libraries[i].realpath is None
            &&& libraries[i].path.len() > 0
            &&& libraries[i].path[0] != 47
            &&& k > j ==> libraries.filter(|l: LibraryView| l.realpath is Some).len()
                > replies[k - 1]->Dependencies_0.libraries.filter(
                |l: LibraryView| l.realpath is Some,
            ).len()
        }),
    ensures
        step_at(request, replies, k + 1).action is AnalyzeDependencies,
{
    let trees = found_trees(replies, j, k + 1);
    assert(trees.last() == replies[k]->Dependencies_0);
    if k > j {
        assert(trees[trees.len() - 2] == replies[k - 1]->Dependencies_0);
    }
    search_goes_on_while_it_helps(trees, i);
    analysis_is_followed(request, replies, j, k);
}

/// The ruleset of a profile is built: its warnings are said, and the workspace is allowed in
/// that ruleset.
pub proof fn built_ruleset_gets_the_workspace<E>(
    request: RequestView,
    replies: Seq<ReplyView<E>>,
    k: int,
    profile: int,
)
    requires
        0 <= k < replies.len(),
        step_at(request, replies, k).action == (ActionView::<E>::BuildRuleset { profile }),
        replies[k] is RulesetBuilt,
    ensures
        step_at(request, replies, k + 1).lines == replies[k]->RulesetBuilt_warnings.map_values(
            |w: Seq<char>| LineView::Warning("Warning: "@ + w),
        ),
        step_at(request, replies, k + 1).action == (ActionView::<E>::AllowWorkspace { profile }),
{
    lemma_request(request, replies, k);
    lemma_action_of_phase(request, replies, k);
    let warnings = replies[k]->RulesetBuilt_warnings;
    assert(rule_warning_lines(warnings) =~= warnings.map_values(
        |w: Seq<char>| LineView::Warning("Warning: "@ + w),
    ));
}

/// The workspace is allowed: what the command needs is allowed in the same ruleset, to be read
/// and to be executed. Nothing is said.
pub proof fn workspace_is_followed_by_what_the_command_needs<E>(
    request: RequestView,
    replies: Seq<ReplyView<E>>,
    k: int,
    profile: int,
) -> (r: (Seq<u8>, Option<TreeView>))
    requires
        0 <= k < replies.len(),
        step_at(request, replies, k).action == (ActionView::<E>::AllowWorkspace { profile }),
        replies[k] is Done,
    ensures
        command_resolved(request, replies, k, r.0, r.1),
        step_at(request, replies, k + 1).lines == Seq::<LineView>::empty(),
        step_at(request, replies, k + 1).action == (ActionView::<E>::AllowPaths {
            profile,
            paths: command_paths(r.0, r.1),
            rights: AccessRights { read_file: true, execute: true },
        }),
{
    lemma_request(request, replies, k);
    lemma_action_of_phase(request, replies, k);
    lemma_allowed_paths(request, replies, k)
}

/// All is allowed: the ruleset is enforced. Nothing is said.
pub proof fn complete_ruleset_is_enforced<E>(
    request: RequestView,
    replies: Seq<ReplyView<E>>,
    k: int,
)
    requires
        0 <= k < replies.len(),
        step_at(request, replies, k).action is AllowPaths,
        replies[k] is Done,
    ensures
        step_at(request, replies, k + 1).lines == Seq::<LineView>::empty(),
        step_at(request, replies, k + 1).action == (ActionView::<E>::RestrictSelf {
            profile: step_at(request, replies, k).action->AllowPaths_profile,
        }),
{
    lemma_request(request, replies, k);
    lemma_action_of_phase(request, replies, k);
}

/// A profile is enforced: what it sets is said, in order, and the next profile's turn comes;
/// after the last one that of the workspace's variables.
pub proof fn enforced_profile_is_followed<E>(
    request: RequestView,
    replies: Seq<ReplyView<E>>,
    k: int,
    profile: int,
)
    requires
        0 <= k < replies.len(),
        step_at(request, replies, k).action == (ActionView::<E>::RestrictSelf { profile }),
        replies[k] is Done,
    ensures
        0 <= profile < request.profiles.len(),
        step_at(request, replies, k + 1).lines == request.profiles[profile].env_vars.map_values(
            |v: (Seq<char>, Seq<char>)| LineView::Verbose("Setting "@ + v.0 + "="@ + v.1),
        ),
        profile + 1 < request.profiles.len() ==> step_at(request, replies, k + 1).action == (
        ActionView::<E>::BuildRuleset { profile: profile + 1 }),
        profile + 1 == request.profiles.len() ==> step_at(
            request,
            replies,
            k + 1,
        ).action is SetWorkspaceVariables,
{
    lemma_request(request, replies, k);
    lemma_action_of_phase(request, replies, k);
    let vars = request.profiles[profile].env_vars;
    assert(variable_lines(vars) =~= vars.map_values(
        |v: (Seq<char>, Seq<char>)| LineView::Verbose("Setting "@ + v.0 + "="@ + v.1),
    ));
}

/// The variables are complete: the command of the request is executed with them, and that is
/// said.
pub proof fn complete_variables_are_used<E>(
    request: RequestView,
    replies: Seq<ReplyView<E>>,
    k: int,
)
    requires
        0 <= k < replies.len(),
        step_at(request, replies, k).action is SetWorkspaceVariables,
        replies[k] is Environment,
    ensures
        step_at(request, replies, k + 1).lines == seq![
            LineView::Verbose("Executing: "@ + request.command[0]),
        ],
        step_at(request, replies, k + 1).action == (ActionView::<E>::Execute {
            command: request.command,
            environment: replies[k]->Environment_0,
        }),
{
    lemma_request(request, replies, k);
    lemma_action_of_phase(request, replies, k);
}

/// Whatever does not answer what was asked for ends the run, and nothing is said: a failure
/// with that failure, any other reply as one that was not expected. After the end every reply
/// is one that was not expected.
pub proof fn other_replies_end_the_run<E>(
    request: RequestView,
    replies: Seq<ReplyView<E>>,
    k: int,
)
    requires
        0 <= k < replies.len(),
        !prepares(step_at(request, replies, k).action) || !answers(
            step_at(request, replies, k).action,
            replies[k],
        ),
    ensures
        step_at(request, replies, k + 1).lines == Seq::<LineView>::empty(),
        step_at(request, replies, k + 1).action == (ActionView::<E>::Finish {
            error: if replies[k] is Failed && !(step_at(request, replies, k).action is Finish) {
                ErrorView::Outside(replies[k]->Failed_0)
            } else {
                ErrorView::UnexpectedReply
            },
        }),
{
    lemma_request(request, replies, k);
    lemma_action_of_phase(request, replies, k);
}

// ---- The variables ----

/// Every variable that the first `n` profiles give is one that some profile of them sets.
proof fn lemma_var_of_profile(profiles: Seq<ProfileView>, n: int, at: int) -> (r: (int, int))
    requires
        0 <= n <= profiles.len(),
        0 <= at < profile_vars(profiles, n).len(),
    ensures
        0 <= r.0 < n,
        0 <= r.1 < profiles[r.0].env_vars.len(),
        profile_vars(profiles, n)[at] == profiles[r.0].env_vars[r.1],
        profile_vars(profiles, r.0).len() + r.1 == at,
    decreases n,
{
    let earlier = profile_vars(profiles, n - 1);
    if at < earlier.len() {
        let r = lemma_var_of_profile(profiles, n - 1, at);
        assert((earlier + profiles[n - 1].env_vars)[at] == earlier[at]);
        r
    } else {
        (n - 1, at - earlier.len())
    }
}

/// Where the variable `m` of the profile `l` stands among those of the first `n` profiles.
proof fn lemma_var_place(profiles: Seq<ProfileView>, n: int, l: int, m: int)
    requires
        0 <= l < n <= profiles.len(),
        0 <= m < profiles[l].env_vars.len(),
    ensures
        ({
            let at = profile_vars(profiles, l).len() + m;
            &&& at < profile_vars(profiles, n).len()
            &&& profile_vars(profiles, n)[at] == profiles[l].env_vars[m]
        }),
    decreases n,
{
    let at = profile_vars(profiles, l).len() + m;
    let earlier = profile_vars(profiles, n - 1);
    if l < n - 1 {
        lemma_var_place(profiles, n - 1, l, m);
        assert((earlier + profiles[n - 1].env_vars)[at] == earlier[at]);
    } else {
        assert((earlier + profiles[n - 1].env_vars)[at] == profiles[l].env_vars[m]);
    }
}

/// What the profiles give before `l` is no longer than what they give before a later one.
proof fn lemma_vars_grow(profiles: Seq<ProfileView>, l: int, n: int)
    requires
        0 <= l < n <= profiles.len(),
    ensures
        profile_vars(profiles, l).len() + profiles[l].env_vars.len() <= profile_vars(
            profiles,
            n,
        ).len(),
    decreases n,
{
    if l < n - 1 {
        lemma_vars_grow(profiles, l, n - 1);
    }
}

/// A variable that is handed over for the workspace is one that some profile of the request
/// sets, with the value that the last such setting gives: the variable `r.1` of the profile
/// `r.0`, after which none sets that name again.
pub proof fn only_variables_of_profiles_are_set<E>(
    request: RequestView,
    replies: Seq<ReplyView<E>>,
    k: int,
    name: Seq<char>,
) -> (r: (int, int))
    requires
        0 <= k <= replies.len(),
        step_at(request, replies, k).action is SetWorkspaceVariables,
        step_at(
            request,
            replies,
            k,
        ).action->SetWorkspaceVariables_environment.dom().contains(name),
    ensures
        0 <= r.0 < request.profiles.len(),
        0 <= r.1 < request.profiles[r.0].env_vars.len(),
        request.profiles[r.0].env_vars[r.1].0 == name,
        request.profiles[r.0].env_vars[r.1].1 == step_at(
            request,
            replies,
            k,
        ).action->SetWorkspaceVariables_environment[name],
        forall|m: int|
            r.1 < m < request.profiles[r.0].env_vars.len() ==> (
            #[trigger] request.profiles[r.0].env_vars[m]).0 != name,
        forall|l: int, m: int|
            r.0 < l < request.profiles.len() && 0 <= m < request.profiles[l].env_vars.len()
                ==> (#[trigger] request.profiles[l].env_vars[m]).0 != name,
{
    lemma_action_of_phase(request, replies, k);
    let profiles = request.profiles;
    let n = profiles.len() as int;
    let vars = profile_vars(profiles, n);
    let at = only_listed_variables_are_assigned(vars, name);
    let r = lemma_var_of_profile(profiles, n, at);
    assert forall|m: int| r.1 < m < profiles[r.0].env_vars.len() implies (
    #[trigger] profiles[r.0].env_vars[m]).0 != name by {
        lemma_var_place(profiles, n, r.0, m);
        assert(vars[profile_vars(profiles, r.0).len() + m].0 != name);
    }
    assert forall|l: int, m: int|
        r.0 < l < n && 0 <= m < profiles[l].env_vars.len() implies (
    #[trigger] profiles[l].env_vars[m]).0 != name by {
        lemma_var_place(profiles, n, l, m);
        lemma_vars_grow(profiles, r.0, l);
        assert(vars[profile_vars(profiles, l).len() + m].0 != name);
    }
    r
}

/// Every variable that a profile of the request sets, and none after it sets again, is handed
/// over for the workspace with its value.
pub proof fn variables_of_profiles_are_set<E>(
    request: RequestView,
    replies: Seq<ReplyView<E>>,
    k: int,
    i: int,
    j: int,
)
    requires
        0 <= k <= replies.len(),
        step_at(request, replies, k).action is SetWorkspaceVariables,
        0 <= i < request.profiles.len(),
        0 <= j < request.profiles[i].env_vars.len(),
        forall|m: int|
            j < m < request.profiles[i].env_vars.len() ==> (
            #[trigger] request.profiles[i].env_vars[m]).0 != request.profiles[i].env_vars[j].0,
        forall|l: int, m: int|
            i < l < request.profiles.len() && 0 <= m < request.profiles[l].env_vars.len() ==> (
            #[trigger] request.profiles[l].env_vars[m]).0 != request.profiles[i].env_vars[j].0,
    ensures
        ({
            let environment = step_at(
                request,
                replies,
                k,
            ).action->SetWorkspaceVariables_environment;
            let (name, value) = request.profiles[i].env_vars[j];
            environment.dom().contains(name) && environment[name] == value
        }),
{
    lemma_action_of_phase(request, replies, k);
    last_profile_decides(request.profiles, request.profiles.len() as int, i, j);
}

} // verus!
