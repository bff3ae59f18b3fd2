//! What holds of every run, whatever is replied.
use crate::dependency::{
    command_paths, history_search_paths, search_ends, search_goes_on, search_is_bounded, TreeView,
};
use crate::environment::{assigned, later_assignment_wins};
use crate::error::{ErrorKind, ErrorView};
use crate::path::is_absolute_path;
use crate::path_set::path_set_of;
use crate::run::{
    dependency_rights, first_step, next_step, profile_vars, ActionView, PhaseView, ProfileView,
    ReplyView, RequestView, Stage, StepView,
};
use vstd::prelude::*;
use vstd::utf8::encode_utf8;

verus! {

/// The step of a run after `k` replies.
pub open spec fn step_at<E>(
    request: RequestView,
    replies: Seq<ReplyView<E>>,
    k: int,
) -> StepView<E>
    decreases k,
{
    if k <= 0 {
        first_step(request)
    } else {
        next_step(step_at(request, replies, k - 1).run, replies[k - 1])
    }
}

/// A run keeps to its request.
pub(crate) proof fn lemma_request<E>(request: RequestView, replies: Seq<ReplyView<E>>, k: int)
    requires
        0 <= k <= replies.len(),
    ensures
        step_at(request, replies, k).run.request == request,
    decreases k,
{
    if k > 0 {
        lemma_request(request, replies, k - 1);
    }
}

/// What a run waits for is what it has asked for.
pub(crate) proof fn lemma_action_of_phase<E>(
    request: RequestView,
    replies: Seq<ReplyView<E>>,
    k: int,
)
    requires
        0 <= k <= replies.len(),
    ensures
        ({
            let step = step_at(request, replies, k);
            match step.run.phase {
                PhaseView::Workspace => step.action == (ActionView::<E>::OpenWorkspace {
                    profile: request.profiles.len() - 1,
                }),
                PhaseView::Lookup => step.action == (ActionView::<E>::FindCommand {
                    name: request.command[0],
                }),
                PhaseView::Canonical => step.action is Canonicalize,
                PhaseView::Dependencies { command_path, history } => {
                    step.action == (ActionView::<E>::AnalyzeDependencies {
                        command_path,
                        library_paths: path_set_of(history_search_paths(history)),
                    })
                },
                PhaseView::Enforcing { paths, profile, stage } => {
                    &&& 0 <= profile < request.profiles.len()
                    &&& step.action == sandbox_action::<E>(paths, profile, stage)
                },
                PhaseView::Variables => step.action == (ActionView::<E>::SetWorkspaceVariables {
                    environment: assigned(
                        profile_vars(request.profiles, request.profiles.len() as int),
                    ),
                }),
                PhaseView::Executing => if request.profiles.len() > 0 {
                    step.action is Execute
                } else {
                    step.action is ExecuteUnsandboxed
                },
                PhaseView::Finished => step.action is Finish,
            }
        }),
        request.profiles.len() == 0 ==> step_at(request, replies, k).run.phase is Executing
            || step_at(request, replies, k).run.phase is Finished,
    decreases k,
{
    if k > 0 {
        lemma_action_of_phase(request, replies, k - 1);
        lemma_request(request, replies, k - 1);
    }
}

/// What is asked for at a stage of the sandbox of a profile.
pub open spec fn sandbox_action<E>(
    paths: Seq<Seq<u8>>,
    profile: int,
    stage: Stage,
) -> ActionView<E> {
    match stage {
        Stage::Build => ActionView::BuildRuleset { profile },
        Stage::Workspace => ActionView::AllowWorkspace { profile },
        Stage::Dependencies => ActionView::AllowPaths {
            profile,
            paths,
            rights: dependency_rights(),
        },
        Stage::Restrict => ActionView::RestrictSelf { profile },
    }
}

/// From step `at` on, the sandbox of a profile is built and enforced: its ruleset is built,
/// the workspace and the given paths are allowed in it, and it is enforced on the process;
/// each of the four was replied to with success.
pub open spec fn sandboxed_from<E>(
    request: RequestView,
    replies: Seq<ReplyView<E>>,
    at: int,
    profile: int,
    paths: Seq<Seq<u8>>,
) -> bool {
    &&& 0 <= at
    &&& at + 4 <= replies.len()
    &&& step_at(request, replies, at).action == sandbox_action::<E>(paths, profile, Stage::Build)
    &&& step_at(request, replies, at + 1).action == sandbox_action::<E>(
        paths,
        profile,
        Stage::Workspace,
    )
    &&& step_at(request, replies, at + 2).action == sandbox_action::<E>(
        paths,
        profile,
        Stage::Dependencies,
    )
    &&& step_at(request, replies, at + 3).action == sandbox_action::<E>(
        paths,
        profile,
        Stage::Restrict,
    )
    &&& replies[at] is RulesetBuilt
    &&& replies[at + 1] == ReplyView::<E>::Done
    &&& replies[at + 2] == ReplyView::<E>::Done
    &&& replies[at + 3] == ReplyView::<E>::Done
}

/// A run that waits at a stage of a profile came there through the stages before.
proof fn lemma_stage_before<E>(
    request: RequestView,
    replies: Seq<ReplyView<E>>,
    k: int,
    paths: Seq<Seq<u8>>,
    profile: int,
    stage: Stage,
)
    requires
        0 <= k <= replies.len(),
        step_at(request, replies, k).run.phase == (PhaseView::Enforcing { paths, profile, stage }),
    ensures
        stage == Stage::Workspace ==> k > 0 && replies[k - 1] is RulesetBuilt && step_at(
            request,
            replies,
            k - 1,
        ).run.phase == (PhaseView::Enforcing { paths, profile, stage: Stage::Build }),
        stage == Stage::Dependencies ==> k > 0 && replies[k - 1] == ReplyView::<E>::Done
            && step_at(request, replies, k - 1).run.phase == (PhaseView::Enforcing {
            paths,
            profile,
            stage: Stage::Workspace,
        }),
        stage == Stage::Restrict ==> k > 0 && replies[k - 1] == ReplyView::<E>::Done && step_at(
            request,
            replies,
            k - 1,
        ).run.phase == (PhaseView::Enforcing { paths, profile, stage: Stage::Dependencies }),
        stage == Stage::Build && profile > 0 ==> k > 0 && replies[k - 1] == ReplyView::<E>::Done
            && step_at(request, replies, k - 1).run.phase == (PhaseView::Enforcing {
            paths,
            profile: profile - 1,
            stage: Stage::Restrict,
        }),
{
}

/// A run that has replied to the enforcement of a profile has sandboxed it and all before.
proof fn lemma_sandboxed<E>(
    request: RequestView,
    replies: Seq<ReplyView<E>>,
    k: int,
    paths: Seq<Seq<u8>>,
    profile: int,
    i: int,
)
    requires
        0 <= k < replies.len(),
        step_at(request, replies, k).run.phase == (PhaseView::Enforcing {
            paths,
            profile,
            stage: Stage::Restrict,
        }),
        replies[k] == ReplyView::<E>::Done,
        0 <= i <= profile,
    ensures
        sandboxed_from(request, replies, k - 3 - 4 * (profile - i), i, paths),
    decreases profile,
{
    lemma_stage_before(request, replies, k, paths, profile, Stage::Restrict);
    lemma_stage_before(request, replies, k - 1, paths, profile, Stage::Dependencies);
    lemma_stage_before(request, replies, k - 2, paths, profile, Stage::Workspace);
    lemma_action_of_phase(request, replies, k);
    lemma_action_of_phase(request, replies, k - 1);
    lemma_action_of_phase(request, replies, k - 2);
    lemma_action_of_phase(request, replies, k - 3);
    if i < profile {
        lemma_stage_before(request, replies, k - 3, paths, profile, Stage::Build);
        lemma_sandboxed(request, replies, k - 4, paths, profile - 1, i);
    }
}

/// Step `j` asks for the canonical path of the command: of its name where that is an absolute
/// path, else of the path that the step before found for it.
pub open spec fn asks_for_canonical_path<E>(
    request: RequestView,
    replies: Seq<ReplyView<E>>,
    j: int,
) -> bool {
    let name = request.command[0];
    &&& step_at(request, replies, j).action matches ActionView::Canonicalize { path }
    &&& if is_absolute_path(encode_utf8(name)) {
        path == encode_utf8(name)
    } else {
        &&& j > 0
        &&& step_at(request, replies, j - 1).action == (ActionView::<E>::FindCommand { name })
        &&& replies[j - 1] == ReplyView::<E>::Path(path)
    }
}

/// A run that waits for a canonical path has asked for that of the command.
proof fn lemma_asks_for_canonical_path<E>(
    request: RequestView,
    replies: Seq<ReplyView<E>>,
    j: int,
)
    requires
        0 <= j <= replies.len(),
        step_at(request, replies, j).run.phase is Canonical,
    ensures
        asks_for_canonical_path(request, replies, j),
{
    lemma_request(request, replies, j - 1);
    lemma_action_of_phase(request, replies, j - 1);
    if step_at(request, replies, j - 1).run.phase is Lookup {
        lemma_request(request, replies, j - 2);
    }
}

/// Among the first `k` replies is `path`, as the canonical path of the command.
pub open spec fn canonical_path_replied<E>(
    request: RequestView,
    replies: Seq<ReplyView<E>>,
    k: int,
    path: Seq<u8>,
) -> bool {
    exists|j: int|
        0 <= j < k && #[trigger] asks_for_canonical_path(request, replies, j) && replies[j]
            == ReplyView::<E>::Path(path)
}

/// Among the first `k` replies is `tree`, as what the last analysis of the command found.
pub open spec fn tree_replied<E>(
    request: RequestView,
    replies: Seq<ReplyView<E>>,
    k: int,
    path: Seq<u8>,
    tree: TreeView,
) -> bool {
    exists|j: int|
        0 <= j < k && (#[trigger] step_at(request, replies, j)).action is AnalyzeDependencies
            && step_at(request, replies, j).action->AnalyzeDependencies_command_path == path
            && replies[j] == ReplyView::<E>::Dependencies(tree) && step_at(
            request,
            replies,
            j + 1,
        ).action is BuildRuleset
}

/// The command's canonical path, and the tree that the last analysis of it found, if any was
/// asked for.
pub open spec fn command_resolved<E>(
    request: RequestView,
    replies: Seq<ReplyView<E>>,
    k: int,
    path: Seq<u8>,
    tree: Option<TreeView>,
) -> bool {
    &&& canonical_path_replied(request, replies, k, path)
    &&& match tree {
        Some(t) => !request.no_ldd && tree_replied(request, replies, k, path, t),
        None => request.no_ldd,
    }
}

/// The paths that are allowed are those that the command needs, by what the analyses found.
pub(crate) proof fn lemma_allowed_paths<E>(
    request: RequestView,
    replies: Seq<ReplyView<E>>,
    k: int,
) -> (r: (Seq<u8>, Option<TreeView>))
    requires
        0 <= k <= replies.len(),
        step_at(request, replies, k).run.phase is Enforcing,
    ensures
        step_at(request, replies, k).run.phase->paths == command_paths(r.0, r.1),
        command_resolved(request, replies, k, r.0, r.1),
    decreases k,
{
    let before = step_at(request, replies, k - 1);
    lemma_request(request, replies, k - 1);
    lemma_action_of_phase(request, replies, k - 1);
    if before.run.phase is Enforcing {
        let r = lemma_allowed_paths(request, replies, k - 1);
        r
    } else if let PhaseView::Dependencies { command_path, .. } = before.run.phase {
        lemma_dependencies_asked(request, replies, k - 1);
        let tree = replies[k - 1]->Dependencies_0;
        assert(tree_replied(request, replies, k, command_path, tree));
        (command_path, Some(tree))
    } else {
        let path = replies[k - 1]->Path_0;
        lemma_asks_for_canonical_path(request, replies, k - 1);
        assert(canonical_path_replied(request, replies, k, path));
        (path, None)
    }
}

proof fn lemma_dependencies_asked<E>(request: RequestView, replies: Seq<ReplyView<E>>, k: int)
    requires
        0 <= k <= replies.len(),
        step_at(request, replies, k).run.phase is Dependencies,
    ensures
        !request.no_ldd,
        canonical_path_replied(
            request,
            replies,
            k,
            step_at(request, replies, k).run.phase->command_path,
        ),
    decreases k,
{
    lemma_request(request, replies, k - 1);
    lemma_action_of_phase(request, replies, k - 1);
    if step_at(request, replies, k - 1).run.phase is Dependencies {
        lemma_dependencies_asked(request, replies, k - 1);
    } else {
        lemma_asks_for_canonical_path(request, replies, k - 1);
    }
}

/// A command is executed in a sandbox only after every profile has been enforced, one after
/// the other, in the order of the request, each with the command and its libraries allowed;
/// and with the variables that the workspace made of those of the profiles.
pub proof fn sandbox_comes_before_execution<E>(
    request: RequestView,
    replies: Seq<ReplyView<E>>,
    k: int,
) -> (r: (Seq<u8>, Option<TreeView>))
    requires
        0 <= k <= replies.len(),
        step_at(request, replies, k).action is Execute,
    ensures
        request.profiles.len() > 0,
        k > 4 * request.profiles.len(),
        command_resolved(request, replies, k, r.0, r.1),
        forall|i: int|
            0 <= i < request.profiles.len() ==> #[trigger] sandboxed_from(
                request,
                replies,
                k - 1 - 4 * (request.profiles.len() - i),
                i,
                command_paths(r.0, r.1),
            ),
        step_at(request, replies, k - 1).action == (ActionView::<E>::SetWorkspaceVariables {
            environment: assigned(
                profile_vars(request.profiles, request.profiles.len() as int),
            ),
        }),
        replies[k - 1] is Environment,
        step_at(request, replies, k).action == (ActionView::<E>::Execute {
            command: request.command,
            environment: replies[k - 1]->Environment_0,
        }),
{
    let n = request.profiles.len() as int;
    lemma_action_of_phase(request, replies, k);
    lemma_request(request, replies, k - 1);
    lemma_action_of_phase(request, replies, k - 1);
    lemma_request(request, replies, k - 2);
    let before = step_at(request, replies, k - 2).run.phase;
    let paths = before->paths;
    assert(before == (PhaseView::Enforcing { paths, profile: n - 1, stage: Stage::Restrict })) by {
        lemma_action_of_phase(request, replies, k - 2);
    }
    let r = lemma_allowed_paths(request, replies, k - 2);
    assert forall|i: int| 0 <= i < n implies #[trigger] sandboxed_from(
        request,
        replies,
        k - 1 - 4 * (n - i),
        i,
        command_paths(r.0, r.1),
    ) by {
        lemma_sandboxed(request, replies, k - 2, paths, n - 1, i);
    }
    assert(sandboxed_from(request, replies, k - 1 - 4 * (n - 0), 0, command_paths(r.0, r.1)));
    r
}

proof fn lemma_unset_stays(
    before: Seq<(Seq<char>, Seq<char>)>,
    list: Seq<(Seq<char>, Seq<char>)>,
    name: Seq<char>,
)
    requires
        assigned(before).dom().contains(name),
        forall|i: int| 0 <= i < list.len() ==> (#[trigger] list[i]).0 != name,
    ensures
        assigned(before + list).dom().contains(name),
        assigned(before + list)[name] == assigned(before)[name],
    decreases list.len(),
{
    if list.len() == 0 {
        assert(before + list =~= before);
    } else {
        let rest = list.drop_last();
        assert forall|i: int| 0 <= i < rest.len() implies (#[trigger] rest[i]).0 != name by {
            assert(rest[i] == list[i]);
        }
        lemma_unset_stays(before, rest, name);
        assert((before + list).drop_last() =~= before + rest);
        assert((before + list).last() == list[list.len() - 1]);
    }
}

/// Of several profiles that set a variable the last one decides its value, by what it sets
/// the variable to last.
pub proof fn last_profile_decides(profiles: Seq<ProfileView>, n: int, i: int, j: int)
    requires
        0 <= i < n <= profiles.len(),
        0 <= j < profiles[i].env_vars.len(),
        forall|m: int|
            j < m < profiles[i].env_vars.len() ==> (#[trigger] profiles[i].env_vars[m]).0
                != profiles[i].env_vars[j].0,
        forall|l: int, m: int|
            i < l < n && 0 <= m < profiles[l].env_vars.len() ==> (
            #[trigger] profiles[l].env_vars[m]).0 != profiles[i].env_vars[j].0,
    ensures
        assigned(profile_vars(profiles, n)).dom().contains(profiles[i].env_vars[j].0),
        assigned(profile_vars(profiles, n))[profiles[i].env_vars[j].0]
            == profiles[i].env_vars[j].1,
    decreases n,
{
    let earlier = profile_vars(profiles, n - 1);
    let list = profiles[n - 1].env_vars;
    if i == n - 1 {
        let all = earlier + list;
        let at = earlier.len() + j;
        assert(all[at] == list[j]);
        assert forall|m: int| at < m < all.len() implies (#[trigger] all[m]).0 != all[at].0 by {
            assert(all[m] == list[m - earlier.len()]);
        }
        later_assignment_wins(all, at);
    } else {
        last_profile_decides(profiles, n - 1, i, j);
        assert forall|m: int| 0 <= m < list.len() implies (#[trigger] list[m]).0
            != profiles[i].env_vars[j].0 by {
            assert(profiles[n - 1].env_vars[m].0 != profiles[i].env_vars[j].0);
        }
        lemma_unset_stays(earlier, list, profiles[i].env_vars[j].0);
    }
}

/// A command is executed without a sandbox only where no profile applies and the request
/// allows it, and then at once.
pub proof fn no_sandbox_only_on_request<E>(
    request: RequestView,
    replies: Seq<ReplyView<E>>,
    k: int,
)
    requires
        0 <= k <= replies.len(),
    ensures
        step_at(request, replies, k).action is ExecuteUnsandboxed <==> (k == 0
            && request.profiles.len() == 0 && request.ignore_missing_profile),
{
    if k > 0 {
        lemma_request(request, replies, k - 1);
        lemma_action_of_phase(request, replies, k - 1);
    }
}

/// Where no profile applies and the request does not allow that, nothing is asked for and
/// the run is refused.
pub proof fn missing_profile_is_refused<E>(
    request: RequestView,
    replies: Seq<ReplyView<E>>,
    k: int,
)
    requires
        request.profiles.len() == 0,
        !request.ignore_missing_profile,
        0 <= k <= replies.len(),
    ensures
        step_at(request, replies, k).action is Finish,
        step_at(request, replies, 0).action == (ActionView::<E>::Finish {
            error: ErrorView::Io {
                kind: ErrorKind::UnexpectedEof,
                message: "No profile provided"@,
            },
        }),
    decreases k,
{
    finished_stays_finished(request, replies, 0, k);
}

/// After a run has finished nothing is asked for any more.
pub proof fn finished_stays_finished<E>(
    request: RequestView,
    replies: Seq<ReplyView<E>>,
    j: int,
    k: int,
)
    requires
        0 <= j <= k <= replies.len(),
        step_at(request, replies, j).action is Finish,
    ensures
        step_at(request, replies, k).action is Finish,
        step_at(request, replies, k).run.phase is Finished,
    decreases k,
{
    if j == k {
        lemma_action_of_phase(request, replies, k);
    } else {
        finished_stays_finished(request, replies, j, k - 1);
    }
}

/// A failure ends the run with that failure: nothing is asked for after it, and so nothing
/// is executed.
pub proof fn failure_ends_the_run<E>(
    request: RequestView,
    replies: Seq<ReplyView<E>>,
    j: int,
    k: int,
)
    requires
        0 <= j < k <= replies.len(),
        !(step_at(request, replies, j).action is Finish),
        replies[j] is Failed,
    ensures
        step_at(request, replies, j + 1).action == (ActionView::<E>::Finish {
            error: ErrorView::Outside(replies[j]->Failed_0),
        }),
        step_at(request, replies, k).action is Finish,
{
    lemma_action_of_phase(request, replies, j);
    finished_stays_finished(request, replies, j + 1, k);
}

/// How many replies a run can still take before it finishes.
spec fn replies_left(request: RequestView, phase: PhaseView) -> int {
    let n = request.profiles.len() as int;
    match phase {
        PhaseView::Workspace => 9 + 4 * n,
        PhaseView::Lookup => 8 + 4 * n,
        PhaseView::Canonical => 7 + 4 * n,
        PhaseView::Dependencies { command_path, history } => 6 - history.len() + 4 * n,
        PhaseView::Enforcing { paths, profile, stage } => 2 + 4 * (n - profile) - match stage {
            Stage::Build => 0int,
            Stage::Workspace => 1int,
            Stage::Dependencies => 2int,
            Stage::Restrict => 3int,
        },
        PhaseView::Variables => 2,
        PhaseView::Executing => 1,
        PhaseView::Finished => 0,
    }
}

proof fn lemma_search_goes_on<E>(request: RequestView, replies: Seq<ReplyView<E>>, k: int)
    requires
        0 <= k <= replies.len(),
        step_at(request, replies, k).run.phase is Dependencies,
    ensures
        search_goes_on(step_at(request, replies, k).run.phase->history),
    decreases k,
{
    let history = step_at(request, replies, k).run.phase->history;
    let before = step_at(request, replies, k - 1).run.phase;
    if let PhaseView::Dependencies { history: earlier, .. } = before {
        lemma_search_goes_on(request, replies, k - 1);
        assert forall|n: int| 0 <= n <= history.len() implies !search_ends(
            #[trigger] history.take(n),
        ) by {
            if n < history.len() {
                assert(history.take(n) =~= earlier.take(n));
            } else {
                assert(history.take(n) =~= history);
            }
        }
    }
}

/// Every run comes to its end: after nine replies, and four more for each profile, it has
/// finished.
pub proof fn every_run_ends<E>(request: RequestView, replies: Seq<ReplyView<E>>, k: int)
    requires
        9 + 4 * request.profiles.len() <= k <= replies.len(),
    ensures
        step_at(request, replies, k).action is Finish,
{
    lemma_replies_left(request, replies, k);
    lemma_action_of_phase(request, replies, k);
}

proof fn lemma_replies_left<E>(request: RequestView, replies: Seq<ReplyView<E>>, k: int)
    requires
        0 <= k <= replies.len(),
    ensures
        ({
            let phase = step_at(request, replies, k).run.phase;
            let left = replies_left(request, phase);
            &&& left >= 0
            &&& phase is Finished || left > 0
            &&& phase is Finished || left + k <= 9 + 4 * request.profiles.len()
        }),
    decreases k,
{
    let phase = step_at(request, replies, k).run.phase;
    lemma_action_of_phase(request, replies, k);
    if phase is Dependencies {
        lemma_search_goes_on(request, replies, k);
        search_is_bounded(phase->history);
    }
    if k > 0 {
        lemma_request(request, replies, k - 1);
        lemma_action_of_phase(request, replies, k - 1);
        lemma_replies_left(request, replies, k - 1);
        let before = step_at(request, replies, k - 1).run.phase;
        if before is Dependencies {
            lemma_search_goes_on(request, replies, k - 1);
            search_is_bounded(before->history);
        }
        if !(phase is Finished) {
            assert(replies_left(request, phase) < replies_left(request, before));
        }
    }
}

/// The reply is of the kind that the action asks for, and no failure.
pub open spec fn answers<E>(action: ActionView<E>, reply: ReplyView<E>) -> bool {
    match action {
        ActionView::OpenWorkspace { .. } => reply is Done,
        ActionView::AllowWorkspace { .. } => reply is Done,
        ActionView::AllowPaths { .. } => reply is Done,
        ActionView::RestrictSelf { .. } => reply is Done,
        ActionView::FindCommand { .. } => reply is Path,
        ActionView::Canonicalize { .. } => reply is Path,
        ActionView::AnalyzeDependencies { .. } => reply is Dependencies,
        ActionView::BuildRuleset { .. } => reply is RulesetBuilt,
        ActionView::SetWorkspaceVariables { .. } => reply is Environment,
        _ => false,
    }
}

/// The run asks for something before the command is executed.
pub open spec fn prepares<E>(action: ActionView<E>) -> bool {
    !(action is Execute) && !(action is ExecuteUnsandboxed) && !(action is Finish)
}

/// A run with profiles executes the command if all that it asks for before is answered.
pub proof fn answered_run_executes<E>(
    request: RequestView,
    replies: Seq<ReplyView<E>>,
) -> (k: int)
    requires
        request.profiles.len() > 0,
        replies.len() >= 9 + 4 * request.profiles.len(),
        forall|j: int|
            0 <= j < replies.len() && prepares(#[trigger] step_at(request, replies, j).action)
                ==> answers(step_at(request, replies, j).action, replies[j]),
    ensures
        0 <= k < 9 + 4 * request.profiles.len(),
        step_at(request, replies, k).action is Execute,
{
    let last = 9 + 4 * request.profiles.len() as int;
    let k = lemma_executed_or_prepares(request, replies, last);
    every_run_ends(request, replies, last);
    k
}

proof fn lemma_executed_or_prepares<E>(
    request: RequestView,
    replies: Seq<ReplyView<E>>,
    n: int,
) -> (k: int)
    requires
        request.profiles.len() > 0,
        0 <= n <= replies.len(),
        forall|j: int|
            0 <= j < replies.len() && prepares(#[trigger] step_at(request, replies, j).action)
                ==> answers(step_at(request, replies, j).action, replies[j]),
    ensures
        0 <= k <= n,
        step_at(request, replies, k).action is Execute || (k == n && prepares(
            step_at(request, replies, n).action,
        )),
    decreases n,
{
    if n == 0 {
        0
    } else {
        let k = lemma_executed_or_prepares(request, replies, n - 1);
        if step_at(request, replies, k).action is Execute {
            k
        } else {
            lemma_action_of_phase(request, replies, n - 1);
            lemma_request(request, replies, n - 1);
            assert(answers(step_at(request, replies, n - 1).action, replies[n - 1]));
            n
        }
    }
}

} // verus!
