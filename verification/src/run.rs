//! Running a command under its profiles.
//!
//! [`run`] and [`resume`] decide what comes next; the caller does it and replies. What they
//! ask for is described by [`first_step`] and [`next_step`].
use crate::dependency::{
    command_paths, command_warnings, history_search_paths, option_view,
    resolve_command_dependency_paths, resolve_dependency_tree, search_ends, warned_paths,
    DependencySearch, DependencyTree, SearchStep, TreeView,
};
use crate::environment::{assigned, var_views, EnvVar, Environment};
use crate::error::{ErrorKind, ErrorView, IslandError};
use crate::path::{copy_paths, is_absolute_path, path_views, FilePath};
use crate::path_set::path_set_of;
use crate::text::{
    concat_texts, copy_texts, decimal, decimal_text, join_texts, joined, lossy_form, path_text,
    shown_as_text, text_views,
};
use vstd::prelude::*;
use vstd::string::*;
use vstd::utf8::encode_utf8;

verus! {

/// What files may be used for.
#[derive(Clone, Copy, PartialEq, Eq, Debug, Structural)]
pub struct AccessRights {
    /// They may be read.
    pub read_file: bool,
    /// They may be executed.
    pub execute: bool,
}

/// What a command and its libraries may be used for.
pub open spec fn dependency_rights() -> AccessRights {
    AccessRights { read_file: true, execute: true }
}

/// A profile that applies to a run.
pub struct Profile {
    /// Its name.
    pub name: String,
    /// The variables that it sets, in order.
    pub env_vars: Vec<EnvVar>,
}

/// A profile, as a mathematical value.
#[verifier::ext_equal]
pub struct ProfileView {
    pub name: Seq<char>,
    pub env_vars: Seq<(Seq<char>, Seq<char>)>,
}

impl View for Profile {
    type V = ProfileView;

    open spec fn view(&self) -> ProfileView {
        ProfileView { name: self.name@, env_vars: var_views(self.env_vars@) }
    }
}

/// What a list of profiles holds.
pub open spec fn profile_views(list: Seq<Profile>) -> Seq<ProfileView> {
    Seq::new(list.len(), |i: int| list[i]@)
}

/// The names of profiles.
pub open spec fn profile_names(profiles: Seq<ProfileView>) -> Seq<Seq<char>> {
    profiles.map_values(|p: ProfileView| p.name)
}

/// A request to run a command.
pub struct RunRequest {
    /// The profiles that apply, the broadest first.
    pub profiles: Vec<Profile>,
    /// The command and its arguments.
    pub command: Vec<String>,
    /// Whether the command is run without a sandbox where no profile applies.
    pub ignore_missing_profile: bool,
    /// Whether shared libraries are left unresolved.
    pub no_ldd: bool,
}

/// A request to run a command, as a mathematical value.
#[verifier::ext_equal]
pub struct RequestView {
    pub profiles: Seq<ProfileView>,
    pub command: Seq<Seq<char>>,
    pub ignore_missing_profile: bool,
    pub no_ldd: bool,
}

impl View for RunRequest {
    type V = RequestView;

    open spec fn view(&self) -> RequestView {
        RequestView {
            profiles: profile_views(self.profiles@),
            command: text_views(self.command@),
            ignore_missing_profile: self.ignore_missing_profile,
            no_ldd: self.no_ldd,
        }
    }
}

impl RequestView {
    /// Something is to be run.
    pub open spec fn runs_command(self) -> bool {
        self.profiles.len() > 0 || self.ignore_missing_profile
    }
}

/// The variables that the first `n` profiles set, one profile after the other.
pub open spec fn profile_vars(profiles: Seq<ProfileView>, n: int) -> Seq<(Seq<char>, Seq<char>)>
    decreases n,
{
    if n <= 0 {
        seq![]
    } else {
        profile_vars(profiles, n - 1) + profiles[n - 1].env_vars
    }
}

/// A line to show.
pub enum Line {
    /// Shown where verbose output is asked for.
    Verbose(String),
    /// Shown as a warning.
    Warning(String),
}

/// A line, as a mathematical value.
#[verifier::ext_equal]
pub enum LineView {
    Verbose(Seq<char>),
    Warning(Seq<char>),
}

impl View for Line {
    type V = LineView;

    open spec fn view(&self) -> LineView {
        match *self {
            Line::Verbose(text) => LineView::Verbose(text@),
            Line::Warning(text) => LineView::Warning(text@),
        }
    }
}

/// What a list of lines holds.
pub open spec fn line_views(list: Seq<Line>) -> Seq<LineView> {
    Seq::new(list.len(), |i: int| list[i]@)
}

/// How far the sandbox of one profile is.
#[derive(Clone, Copy, PartialEq, Eq, Debug, Structural)]
pub enum Stage {
    /// Its ruleset is being built.
    Build,
    /// The workspace is being allowed in it.
    Workspace,
    /// The command and its libraries are being allowed in it.
    Dependencies,
    /// It is being enforced.
    Restrict,
}

/// What a run waits for.
enum Phase {
    Workspace,
    Lookup,
    Canonical,
    Dependencies { command_path: FilePath, search: DependencySearch },
    Enforcing { paths: Vec<FilePath>, profile: usize, stage: Stage },
    Variables,
    Executing,
    Finished,
}

/// What a run waits for, as a mathematical value.
#[verifier::ext_equal]
pub enum PhaseView {
    /// The workspace of the last profile.
    Workspace,
    /// The command's path.
    Lookup,
    /// The command's canonical path.
    Canonical,
    /// An analysis of the command; the trees that earlier ones found.
    Dependencies { command_path: Seq<u8>, history: Seq<TreeView> },
    /// A step of the sandbox of one profile; the paths that the command needs.
    Enforcing { paths: Seq<Seq<u8>>, profile: int, stage: Stage },
    /// The workspace's variables.
    Variables,
    /// The end of the command's execution, which only a failure brings.
    Executing,
    /// Nothing more.
    Finished,
}

/// A run that has begun.
pub struct Run {
    request: RunRequest,
    phase: Phase,
    environment: Environment,
}

/// A run, as a mathematical value.
#[verifier::ext_equal]
pub struct RunView {
    pub request: RequestView,
    pub phase: PhaseView,
}

impl View for Run {
    type V = RunView;

    closed spec fn view(&self) -> RunView {
        RunView {
            request: self.request@,
            phase: match self.phase {
                Phase::Workspace => PhaseView::Workspace,
                Phase::Lookup => PhaseView::Lookup,
                Phase::Canonical => PhaseView::Canonical,
                Phase::Dependencies { command_path, search } => PhaseView::Dependencies {
                    command_path: command_path@,
                    history: search.history(),
                },
                Phase::Enforcing { paths, profile, stage } => PhaseView::Enforcing {
                    paths: path_views(paths@),
                    profile: profile as int,
                    stage,
                },
                Phase::Variables => PhaseView::Variables,
                Phase::Executing => PhaseView::Executing,
                Phase::Finished => PhaseView::Finished,
            },
        }
    }
}

/// What a run asks the caller to do.
pub enum RunAction<E> {
    /// Opens the workspace of a profile.
    OpenWorkspace { profile: usize },
    /// Finds a command in the directories of the search path.
    FindCommand { name: String },
    /// Makes a path canonical.
    Canonicalize { path: FilePath },
    /// Analyzes a binary, with more directories to search for its libraries.
    AnalyzeDependencies { command_path: FilePath, library_paths: Vec<FilePath> },
    /// Builds the ruleset of a profile.
    BuildRuleset { profile: usize },
    /// Allows the workspace in the ruleset of a profile.
    AllowWorkspace { profile: usize },
    /// Allows paths in the ruleset of a profile.
    AllowPaths { profile: usize, paths: Vec<FilePath>, rights: AccessRights },
    /// Enforces the ruleset of a profile on this process.
    RestrictSelf { profile: usize },
    /// Adds the workspace's variables.
    SetWorkspaceVariables { environment: Environment },
    /// Becomes the command, with more variables.
    Execute { command: Vec<String>, environment: Environment },
    /// Becomes the command, with nothing enforced.
    ExecuteUnsandboxed { command: Vec<String> },
    /// Ends with an error.
    Finish { error: IslandError<E> },
}

/// What a run asks for, as a mathematical value.
#[verifier::ext_equal]
pub enum ActionView<E> {
    OpenWorkspace { profile: int },
    FindCommand { name: Seq<char> },
    Canonicalize { path: Seq<u8> },
    AnalyzeDependencies { command_path: Seq<u8>, library_paths: Seq<Seq<u8>> },
    BuildRuleset { profile: int },
    AllowWorkspace { profile: int },
    AllowPaths { profile: int, paths: Seq<Seq<u8>>, rights: AccessRights },
    RestrictSelf { profile: int },
    SetWorkspaceVariables { environment: Map<Seq<char>, Seq<char>> },
    Execute { command: Seq<Seq<char>>, environment: Map<Seq<char>, Seq<char>> },
    ExecuteUnsandboxed { command: Seq<Seq<char>> },
    Finish { error: ErrorView<E> },
}

impl<E> View for RunAction<E> {
    type V = ActionView<E>;

    open spec fn view(&self) -> ActionView<E> {
        match *self {
            RunAction::OpenWorkspace { profile } => ActionView::OpenWorkspace {
                profile: profile as int,
            },
            RunAction::FindCommand { name } => ActionView::FindCommand { name: name@ },
            RunAction::Canonicalize { path } => ActionView::Canonicalize { path: path@ },
            RunAction::AnalyzeDependencies { command_path, library_paths } =>
                ActionView::AnalyzeDependencies {
                    command_path: command_path@,
                    library_paths: path_views(library_paths@),
                },
            RunAction::BuildRuleset { profile } => ActionView::BuildRuleset {
                profile: profile as int,
            },
            RunAction::AllowWorkspace { profile } => ActionView::AllowWorkspace {
                profile: profile as int,
            },
            RunAction::AllowPaths { profile, paths, rights } => ActionView::AllowPaths {
                profile: profile as int,
                paths: path_views(paths@),
                rights,
            },
            RunAction::RestrictSelf { profile } => ActionView::RestrictSelf {
                profile: profile as int,
            },
            RunAction::SetWorkspaceVariables { environment } =>
                ActionView::SetWorkspaceVariables { environment: environment@ },
            RunAction::Execute { command, environment } => ActionView::Execute {
                command: text_views(command@),
                environment: environment@,
            },
            RunAction::ExecuteUnsandboxed { command } => ActionView::ExecuteUnsandboxed {
                command: text_views(command@),
            },
            RunAction::Finish { error } => ActionView::Finish { error: error@ },
        }
    }
}

/// What the caller replies.
pub enum RunReply<E> {
    /// It is done.
    Done,
    /// The path that was asked for.
    Path(FilePath),
    /// What the analysis found.
    Dependencies(DependencyTree),
    /// The ruleset is built; what is said of rules that were left out.
    RulesetBuilt { warnings: Vec<String> },
    /// The variables with those of the workspace.
    Environment(Environment),
    /// It failed.
    Failed(E),
}

/// What the caller replies, as a mathematical value.
#[verifier::ext_equal]
pub enum ReplyView<E> {
    Done,
    Path(Seq<u8>),
    Dependencies(TreeView),
    RulesetBuilt { warnings: Seq<Seq<char>> },
    Environment(Map<Seq<char>, Seq<char>>),
    Failed(E),
}

impl<E> View for RunReply<E> {
    type V = ReplyView<E>;

    open spec fn view(&self) -> ReplyView<E> {
        match *self {
            RunReply::Done => ReplyView::Done,
            RunReply::Path(path) => ReplyView::Path(path@),
            RunReply::Dependencies(tree) => ReplyView::Dependencies(tree@),
            RunReply::RulesetBuilt { warnings } => ReplyView::RulesetBuilt {
                warnings: text_views(warnings@),
            },
            RunReply::Environment(environment) => ReplyView::Environment(environment@),
            RunReply::Failed(e) => ReplyView::Failed(e),
        }
    }
}

/// A step of a run: the lines to show, what to do then, and the run that waits for it.
pub struct RunStep<E> {
    pub run: Run,
    pub lines: Vec<Line>,
    pub action: RunAction<E>,
}

/// A step of a run, as a mathematical value.
#[verifier::ext_equal]
pub struct StepView<E> {
    pub run: RunView,
    pub lines: Seq<LineView>,
    pub action: ActionView<E>,
}

impl<E> View for RunStep<E> {
    type V = StepView<E>;

    open spec fn view(&self) -> StepView<E> {
        StepView { run: self.run@, lines: line_views(self.lines@), action: self.action@ }
    }
}

// ---- What is said ----

/// What is said of the profiles that apply.
pub open spec fn profiles_text(profiles: Seq<ProfileView>) -> Seq<char> {
    "Using "@ + decimal(profiles.len()) + " profile(s): "@ + joined(
        profile_names(profiles),
        ", "@,
    )
}

/// What is said of the paths that the command needs.
pub open spec fn dependency_lines(paths: Seq<Seq<u8>>) -> Seq<LineView> {
    paths.map_values(
        |p: Seq<u8>| LineView::Verbose("Allowing dependency path: "@ + lossy_form(p)),
    )
}

/// Warnings as they are.
pub open spec fn warning_lines(warnings: Seq<Seq<char>>) -> Seq<LineView> {
    warnings.map_values(|w: Seq<char>| LineView::Warning(w))
}

/// What is said of rules that were left out of a ruleset.
pub open spec fn rule_warning_lines(warnings: Seq<Seq<char>>) -> Seq<LineView> {
    warnings.map_values(|w: Seq<char>| LineView::Warning("Warning: "@ + w))
}

/// What is said of variables that are set.
pub open spec fn variable_lines(vars: Seq<(Seq<char>, Seq<char>)>) -> Seq<LineView> {
    vars.map_values(
        |v: (Seq<char>, Seq<char>)| LineView::Verbose("Setting "@ + v.0 + "="@ + v.1),
    )
}

// ---- What comes next ----

/// The run in another phase.
pub open spec fn in_phase(run: RunView, phase: PhaseView) -> RunView {
    RunView { request: run.request, phase }
}

/// The run ends with an error.
pub open spec fn finish_step<E>(run: RunView, error: ErrorView<E>) -> StepView<E> {
    StepView {
        run: in_phase(run, PhaseView::Finished),
        lines: seq![],
        action: ActionView::Finish { error },
    }
}

/// How a run begins: with the workspace of the last profile; where no profile applies, with
/// the command as it is, or not at all.
pub open spec fn first_step<E>(request: RequestView) -> StepView<E> {
    let opening = LineView::Verbose(profiles_text(request.profiles));
    if request.profiles.len() > 0 {
        StepView {
            run: RunView { request, phase: PhaseView::Workspace },
            lines: seq![opening],
            action: ActionView::OpenWorkspace { profile: request.profiles.len() - 1 },
        }
    } else if request.ignore_missing_profile {
        StepView {
            run: RunView { request, phase: PhaseView::Executing },
            lines: seq![
                opening,
                LineView::Verbose("No profile found, executing without sandbox"@),
            ],
            action: ActionView::ExecuteUnsandboxed { command: request.command },
        }
    } else {
        StepView {
            run: RunView { request, phase: PhaseView::Finished },
            lines: seq![opening],
            action: ActionView::Finish {
                error: ErrorView::Io {
                    kind: ErrorKind::UnexpectedEof,
                    message: "No profile provided"@,
                },
            },
        }
    }
}

/// What a command that is named by its path, or found, is asked of next.
pub open spec fn canonicalize_step<E>(run: RunView, path: Seq<u8>) -> StepView<E> {
    StepView {
        run: in_phase(run, PhaseView::Canonical),
        lines: seq![],
        action: ActionView::Canonicalize { path },
    }
}

/// The next analysis of the command, after those that found `history`.
pub open spec fn analyze_step<E>(
    run: RunView,
    lines: Seq<LineView>,
    command_path: Seq<u8>,
    history: Seq<TreeView>,
) -> StepView<E> {
    StepView {
        run: in_phase(run, PhaseView::Dependencies { command_path, history }),
        lines,
        action: ActionView::AnalyzeDependencies {
            command_path,
            library_paths: path_set_of(history_search_paths(history)),
        },
    }
}

/// With the paths that the command needs known, the first profile's turn.
pub open spec fn enforce_first_step<E>(
    run: RunView,
    lines: Seq<LineView>,
    command_path: Seq<u8>,
    tree: Option<TreeView>,
) -> StepView<E> {
    let paths = command_paths(command_path, tree);
    StepView {
        run: in_phase(run, PhaseView::Enforcing { paths, profile: 0, stage: Stage::Build }),
        lines: lines + warning_lines(command_warnings(tree)) + dependency_lines(paths),
        action: ActionView::BuildRuleset { profile: 0 },
    }
}

/// A profile's sandbox is complete: the next profile's turn, or that of the workspace's
/// variables, which come on top of those of all profiles.
pub open spec fn restricted_step<E>(
    run: RunView,
    paths: Seq<Seq<u8>>,
    profile: int,
) -> StepView<E> {
    let profiles = run.request.profiles;
    let lines = variable_lines(profiles[profile].env_vars);
    if profile + 1 < profiles.len() {
        StepView {
            run: in_phase(
                run,
                PhaseView::Enforcing { paths, profile: profile + 1, stage: Stage::Build },
            ),
            lines,
            action: ActionView::BuildRuleset { profile: profile + 1 },
        }
    } else {
        StepView {
            run: in_phase(run, PhaseView::Variables),
            lines,
            action: ActionView::SetWorkspaceVariables {
                environment: assigned(profile_vars(profiles, profiles.len() as int)),
            },
        }
    }
}

/// How a run goes on after a reply. A failure ends it, and so does a reply of another kind
/// than it waits for.
pub open spec fn next_step<E>(run: RunView, reply: ReplyView<E>) -> StepView<E> {
    let request = run.request;
    let command = request.command;
    match (run.phase, reply) {
        (PhaseView::Finished, _) => finish_step(run, ErrorView::UnexpectedReply),
        (_, ReplyView::Failed(e)) => finish_step(run, ErrorView::Outside(e)),
        (PhaseView::Workspace, ReplyView::Done) => {
            let path = encode_utf8(command[0]);
            if is_absolute_path(path) {
                canonicalize_step(run, path)
            } else {
                StepView {
                    run: in_phase(run, PhaseView::Lookup),
                    lines: seq![],
                    action: ActionView::FindCommand { name: command[0] },
                }
            }
        },
        (PhaseView::Lookup, ReplyView::Path(path)) => canonicalize_step(run, path),
        (PhaseView::Canonical, ReplyView::Path(path)) => {
            let resolved = LineView::Verbose("Resolved command path: "@ + lossy_form(path));
            if request.no_ldd {
                let skipping = LineView::Verbose(
                    "Skipping shared-library dependency resolution (--no-ldd)"@,
                );
                enforce_first_step(run, seq![resolved, skipping], path, None)
            } else {
                analyze_step(run, seq![resolved], path, seq![])
            }
        },
        (
            PhaseView::Dependencies { command_path, history },
            ReplyView::Dependencies(tree),
        ) => if search_ends(history.push(tree)) {
            enforce_first_step(run, seq![], command_path, Some(tree))
        } else {
            analyze_step(run, seq![], command_path, history.push(tree))
        },
        (
            PhaseView::Enforcing { paths, profile, stage: Stage::Build },
            ReplyView::RulesetBuilt { warnings },
        ) => StepView {
            run: in_phase(
                run,
                PhaseView::Enforcing { paths, profile, stage: Stage::Workspace },
            ),
            lines: rule_warning_lines(warnings),
            action: ActionView::AllowWorkspace { profile },
        },
        (
            PhaseView::Enforcing { paths, profile, stage: Stage::Workspace },
            ReplyView::Done,
        ) => StepView {
            run: in_phase(
                run,
                PhaseView::Enforcing { paths, profile, stage: Stage::Dependencies },
            ),
            lines: seq![],
            action: ActionView::AllowPaths { profile, paths, rights: dependency_rights() },
        },
        (
            PhaseView::Enforcing { paths, profile, stage: Stage::Dependencies },
            ReplyView::Done,
        ) => StepView {
            run: in_phase(
                run,
                PhaseView::Enforcing { paths, profile, stage: Stage::Restrict },
            ),
            lines: seq![],
            action: ActionView::RestrictSelf { profile },
        },
        (
            PhaseView::Enforcing { paths, profile, stage: Stage::Restrict },
            ReplyView::Done,
        ) => restricted_step(run, paths, profile),
        (PhaseView::Variables, ReplyView::Environment(environment)) => StepView {
            run: in_phase(run, PhaseView::Executing),
            lines: seq![LineView::Verbose("Executing: "@ + command[0])],
            action: ActionView::Execute { command, environment },
        },
        _ => finish_step(run, ErrorView::UnexpectedReply),
    }
}

/// The paths that are shown before the first profile's turn.
pub open spec fn paths_before_first(
    command_path: Seq<u8>,
    tree: Option<TreeView>,
) -> Seq<Seq<u8>> {
    warned_paths(tree) + command_paths(command_path, tree)
}

/// The paths that the lines of [`next_step`] show.
pub open spec fn shown_paths<E>(run: RunView, reply: ReplyView<E>) -> Seq<Seq<u8>> {
    match (run.phase, reply) {
        (PhaseView::Canonical, ReplyView::Path(path)) => if run.request.no_ldd {
            seq![path] + paths_before_first(path, None)
        } else {
            seq![path]
        },
        (
            PhaseView::Dependencies { command_path, history },
            ReplyView::Dependencies(tree),
        ) => if search_ends(history.push(tree)) {
            paths_before_first(command_path, Some(tree))
        } else {
            seq![]
        },
        _ => seq![],
    }
}

// ---- Deciding ----

impl Run {
    /// What a run keeps: a command to run and profiles to enforce as long as it goes on, and
    /// the variables of the profiles that are enforced.
    pub closed spec fn well_formed(&self) -> bool {
        let profiles = profile_views(self.request.profiles@);
        match self.phase {
            Phase::Executing | Phase::Finished => true,
            Phase::Variables => self.request.command@.len() > 0,
            Phase::Enforcing { paths, profile, stage } => {
                &&& self.request.command@.len() > 0
                &&& profile < profiles.len()
                &&& self.environment.well_formed()
                &&& self.environment@ == assigned(profile_vars(profiles, profile as int))
            },
            Phase::Workspace | Phase::Lookup | Phase::Canonical | Phase::Dependencies { .. } => {
                &&& self.request.command@.len() > 0
                &&& profiles.len() > 0
                &&& self.environment.well_formed()
                &&& self.environment@ == Map::<Seq<char>, Seq<char>>::empty()
                &&& self.phase matches Phase::Dependencies {
                    command_path,
                    search,
                } ==> search.well_formed()
            },
        }
    }
}

fn push_line(lines: &mut Vec<Line>, line: Line)
    ensures
        line_views(final(lines)@) == line_views(old(lines)@).push(line@),
{
    lines.push(line);
    assert(line_views(lines@) =~= line_views(old(lines)@).push(line@));
}

fn push_dependency_lines(lines: &mut Vec<Line>, paths: &Vec<FilePath>)
    ensures
        line_views(final(lines)@) == line_views(old(lines)@) + dependency_lines(
            path_views(paths@),
        ),
        shown_as_text(path_views(paths@)),
{
    let ghost before = line_views(lines@);
    let ghost all = dependency_lines(path_views(paths@));
    let mut i: usize = 0;
    assert(line_views(lines@) =~= before + all.take(0));
    while i < paths.len()
        invariant
            i <= paths@.len(),
            all == dependency_lines(path_views(paths@)),
            line_views(lines@) == before + all.take(i as int),
            shown_as_text(path_views(paths@).take(i as int)),
        decreases paths@.len() - i,
    {
        push_line(
            lines,
            Line::Verbose(
                concat_texts("Allowing dependency path: ", path_text(&paths[i]).as_str()),
            ),
        );
        assert((before + all.take(i as int)).push(all[i as int]) =~= before + all.take(i + 1));
        assert(path_views(paths@).take(i + 1) =~= path_views(paths@).take(i as int).push(
            paths@[i as int]@,
        ));
        i += 1;
    }
    assert(all.take(i as int) =~= all);
    assert(path_views(paths@).take(i as int) =~= path_views(paths@));
}

fn push_warning_lines(lines: &mut Vec<Line>, warnings: &Vec<String>)
    ensures
        line_views(final(lines)@) == line_views(old(lines)@) + warning_lines(
            text_views(warnings@),
        ),
{
    let ghost before = line_views(lines@);
    let ghost all = warning_lines(text_views(warnings@));
    let mut i: usize = 0;
    assert(line_views(lines@) =~= before + all.take(0));
    while i < warnings.len()
        invariant
            i <= warnings@.len(),
            all == warning_lines(text_views(warnings@)),
            line_views(lines@) == before + all.take(i as int),
        decreases warnings@.len() - i,
    {
        push_line(lines, Line::Warning(warnings[i].clone()));
        assert((before + all.take(i as int)).push(all[i as int]) =~= before + all.take(i + 1));
        i += 1;
    }
    assert(all.take(i as int) =~= all);
}

fn rule_warnings(warnings: &Vec<String>) -> (lines: Vec<Line>)
    ensures
        line_views(lines@) == rule_warning_lines(text_views(warnings@)),
{
    let ghost all = rule_warning_lines(text_views(warnings@));
    let mut lines: Vec<Line> = Vec::new();
    let mut i: usize = 0;
    assert(line_views(lines@) =~= all.take(0));
    while i < warnings.len()
        invariant
            i <= warnings@.len(),
            all == rule_warning_lines(text_views(warnings@)),
            line_views(lines@) == all.take(i as int),
        decreases warnings@.len() - i,
    {
        push_line(&mut lines, Line::Warning(concat_texts("Warning: ", warnings[i].as_str())));
        assert(all.take(i as int).push(all[i as int]) =~= all.take(i + 1));
        i += 1;
    }
    assert(all.take(i as int) =~= all);
    lines
}

/// Sets the variables of a profile, and says so.
fn set_variables(environment: &mut Environment, vars: &Vec<EnvVar>) -> (lines: Vec<Line>)
    requires
        old(environment).well_formed(),
    ensures
        final(environment).well_formed(),
        forall|earlier: Seq<(Seq<char>, Seq<char>)>| #[trigger]
            assigned(earlier) == old(environment)@ ==> assigned(earlier + var_views(vars@))
                == final(environment)@,
        line_views(lines@) == variable_lines(var_views(vars@)),
{
    let ghost views = var_views(vars@);
    let ghost all = variable_lines(views);
    let ghost before = environment@;
    let mut lines: Vec<Line> = Vec::new();
    let mut i: usize = 0;
    proof {
        assert(line_views(lines@) =~= all.take(0));
        assert forall|earlier: Seq<(Seq<char>, Seq<char>)>| #[trigger]
            assigned(earlier) == before implies assigned(earlier + views.take(0))
            == environment@ by {
            assert(earlier + views.take(0) =~= earlier);
        }
    }
    while i < vars.len()
        invariant
            i <= vars@.len(),
            views == var_views(vars@),
            all == variable_lines(views),
            environment.well_formed(),
            line_views(lines@) == all.take(i as int),
            forall|earlier: Seq<(Seq<char>, Seq<char>)>| #[trigger]
                assigned(earlier) == before ==> assigned(earlier + views.take(i as int))
                    == environment@,
        decreases vars@.len() - i,
    {
        let ghost mid = environment@;
        let mut text = concat_texts("Setting ", vars[i].name.as_str());
        text.append("=");
        text.append(vars[i].literal.as_str());
        push_line(&mut lines, Line::Verbose(text));
        assert(all.take(i as int).push(all[i as int]) =~= all.take(i + 1));
        environment.insert(vars[i].name.clone(), vars[i].literal.clone());
        proof {
            let v = views[i as int];
            assert forall|earlier: Seq<(Seq<char>, Seq<char>)>| #[trigger]
                assigned(earlier) == before implies assigned(earlier + views.take(i + 1))
                == environment@ by {
                let longer = earlier + views.take(i + 1);
                assert(longer.drop_last() =~= earlier + views.take(i as int));
                assert(longer.last() == v);
            }
        }
        i += 1;
    }
    assert(all.take(i as int) =~= all);
    assert(views.take(i as int) =~= views);
    lines
}

/// The names of profiles.
fn names_of(profiles: &Vec<Profile>) -> (r: Vec<String>)
    ensures
        text_views(r@) == profile_names(profile_views(profiles@)),
{
    let mut r: Vec<String> = Vec::new();
    let mut i: usize = 0;
    while i < profiles.len()
        invariant
            i <= profiles@.len(),
            r@.len() == i,
            forall|j: int| 0 <= j < i ==> (#[trigger] r@[j])@ == profiles@[j].name@,
        decreases profiles@.len() - i,
    {
        r.push(profiles[i].name.clone());
        i += 1;
    }
    assert(text_views(r@) =~= profile_names(profile_views(profiles@)));
    r
}

fn profiles_line(profiles: &Vec<Profile>) -> (r: String)
    ensures
        r@ == profiles_text(profile_views(profiles@)),
{
    let mut r = concat_texts("Using ", decimal_text(profiles.len()).as_str());
    r.append(" profile(s): ");
    r.append(join_texts(&names_of(profiles), ", ").as_str());
    r
}

/// Begins a run: the workspace of the last profile is opened first. Where no profile applies,
/// the command is executed as it is if the request says so, and refused otherwise.
pub fn run<E>(request: RunRequest) -> (r: RunStep<E>)
    requires
        request@.runs_command() ==> request@.command.len() > 0,
    ensures
        r@ == first_step::<E>(request@),
        r.run.well_formed(),
{
    let mut lines: Vec<Line> = Vec::new();
    push_line(&mut lines, Line::Verbose(profiles_line(&request.profiles)));
    let environment = Environment::new();
    let n = request.profiles.len();
    if n > 0 {
        assert(line_views(lines@) =~= first_step::<E>(request@).lines);
        RunStep {
            run: Run { request, phase: Phase::Workspace, environment },
            lines,
            action: RunAction::OpenWorkspace { profile: n - 1 },
        }
    } else if request.ignore_missing_profile {
        push_line(
            &mut lines,
            Line::Verbose(String::from_str("No profile found, executing without sandbox")),
        );
        assert(line_views(lines@) =~= first_step::<E>(request@).lines);
        let command = copy_texts(&request.command);
        RunStep {
            run: Run { request, phase: Phase::Executing, environment },
            lines,
            action: RunAction::ExecuteUnsandboxed { command },
        }
    } else {
        assert(line_views(lines@) =~= first_step::<E>(request@).lines);
        RunStep {
            run: Run { request, phase: Phase::Finished, environment },
            lines,
            action: RunAction::Finish {
                error: IslandError::Io {
                    kind: ErrorKind::UnexpectedEof,
                    message: String::from_str("No profile provided"),
                },
            },
        }
    }
}

fn finish<E>(request: RunRequest, error: IslandError<E>) -> (r: RunStep<E>)
    ensures
        r@.run == (RunView { request: request@, phase: PhaseView::Finished }),
        r@.lines == Seq::<LineView>::empty(),
        r@.action == (ActionView::<E>::Finish { error: error@ }),
        r.run.well_formed(),
{
    let r = RunStep {
        run: Run { request, phase: Phase::Finished, environment: Environment::new() },
        lines: Vec::new(),
        action: RunAction::Finish { error },
    };
    assert(line_views(r.lines@) =~= Seq::<LineView>::empty());
    r
}

fn enforce_first<E>(
    request: RunRequest,
    environment: Environment,
    command_path: &FilePath,
    dependencies: &Option<DependencyTree>,
    opening: Vec<Line>,
) -> (r: RunStep<E>)
    requires
        request@.command.len() > 0,
        request@.profiles.len() > 0,
        environment.well_formed(),
        environment@ == Map::<Seq<char>, Seq<char>>::empty(),
    ensures
        forall|phase: PhaseView|
            r@ == #[trigger] enforce_first_step::<E>(
                RunView { request: request@, phase },
                line_views(opening@),
                command_path@,
                option_view(*dependencies),
            ),
        shown_as_text(warned_paths(option_view(*dependencies))),
        shown_as_text(command_paths(command_path@, option_view(*dependencies))),
        r.run.well_formed(),
{
    let found = resolve_command_dependency_paths(command_path, dependencies);
    let mut lines = opening;
    push_warning_lines(&mut lines, &found.warnings);
    push_dependency_lines(&mut lines, &found.paths);
    RunStep {
        run: Run {
            request,
            phase: Phase::Enforcing { paths: found.paths, profile: 0, stage: Stage::Build },
            environment,
        },
        lines,
        action: RunAction::BuildRuleset { profile: 0 },
    }
}

/// The next analysis, for which `search` is made.
fn analyze<E>(
    request: RunRequest,
    environment: Environment,
    command_path: FilePath,
    search: DependencySearch,
    lines: Vec<Line>,
) -> (r: RunStep<E>)
    requires
        request@.command.len() > 0,
        request@.profiles.len() > 0,
        environment.well_formed(),
        environment@ == Map::<Seq<char>, Seq<char>>::empty(),
        search.well_formed(),
    ensures
        forall|phase: PhaseView|
            r@ == #[trigger] analyze_step::<E>(
                RunView { request: request@, phase },
                line_views(lines@),
                command_path@,
                search.history(),
            ),
        r.run.well_formed(),
{
    let action = RunAction::AnalyzeDependencies {
        command_path: command_path.clone(),
        library_paths: copy_paths(search.library_paths()),
    };
    RunStep {
        run: Run { request, phase: Phase::Dependencies { command_path, search }, environment },
        lines,
        action,
    }
}

fn canonicalize<E>(
    request: RunRequest,
    environment: Environment,
    path: FilePath,
) -> (r: RunStep<E>)
    requires
        request@.command.len() > 0,
        request@.profiles.len() > 0,
        environment.well_formed(),
        environment@ == Map::<Seq<char>, Seq<char>>::empty(),
    ensures
        forall|phase: PhaseView|
            r@ == #[trigger] canonicalize_step::<E>(RunView { request: request@, phase }, path@),
        r.run.well_formed(),
{
    let lines: Vec<Line> = Vec::new();
    assert(line_views(lines@) =~= Seq::<LineView>::empty());
    RunStep {
        run: Run { request, phase: Phase::Canonical, environment },
        lines,
        action: RunAction::Canonicalize { path },
    }
}

/// The next step of the sandbox of a profile, or what follows it.
fn enforce<E>(
    request: RunRequest,
    environment: Environment,
    paths: Vec<FilePath>,
    profile: usize,
    stage: Stage,
) -> (r: RunStep<E>)
    requires
        stage != Stage::Build,
        request@.command.len() > 0,
        profile < request@.profiles.len(),
        environment.well_formed(),
        environment@ == assigned(profile_vars(request@.profiles, profile as int)),
    ensures
        r@ == next_step::<E>(
            RunView {
                request: request@,
                phase: PhaseView::Enforcing {
                    paths: path_views(paths@),
                    profile: profile as int,
                    stage,
                },
            },
            ReplyView::Done,
        ),
        r.run.well_formed(),
        r.action matches RunAction::SetWorkspaceVariables { environment }
            ==> environment.well_formed(),
{
    let mut environment = environment;
    let lines: Vec<Line> = Vec::new();
    assert(line_views(lines@) =~= Seq::<LineView>::empty());
    match stage {
        Stage::Build | Stage::Workspace => {
            let action = RunAction::AllowPaths {
                profile,
                paths: copy_paths(&paths),
                rights: AccessRights { read_file: true, execute: true },
            };
            RunStep {
                run: Run {
                    request,
                    phase: Phase::Enforcing { paths, profile, stage: Stage::Dependencies },
                    environment,
                },
                lines,
                action,
            }
        },
        Stage::Dependencies => RunStep {
            run: Run {
                request,
                phase: Phase::Enforcing { paths, profile, stage: Stage::Restrict },
                environment,
            },
            lines,
            action: RunAction::RestrictSelf { profile },
        },
        Stage::Restrict => {
            let lines = set_variables(&mut environment, &request.profiles[profile].env_vars);
            proof {
                assert(request@.profiles[profile as int] == request.profiles@[profile as int]@);
            }
            let count = request.profiles.len();
            if profile + 1 < count {
                RunStep {
                    run: Run {
                        request,
                        phase: Phase::Enforcing {
                            paths,
                            profile: profile + 1,
                            stage: Stage::Build,
                        },
                        environment,
                    },
                    lines,
                    action: RunAction::BuildRuleset { profile: profile + 1 },
                }
            } else {
                RunStep {
                    run: Run { request, phase: Phase::Variables, environment: Environment::new() },
                    lines,
                    action: RunAction::SetWorkspaceVariables { environment },
                }
            }
        },
    }
}

/// Goes on with a run after the reply to what it had asked for. Any failure ends the run
/// with that failure. Paths that are UTF-8 are shown as what they encode.
pub fn resume<E>(run: Run, reply: RunReply<E>) -> (r: RunStep<E>)
    requires
        run.well_formed(),
    ensures
        r@ == next_step::<E>(run@, reply@),
        r.run.well_formed(),
        r.action matches RunAction::SetWorkspaceVariables { environment }
            ==> environment.well_formed(),
        r.action matches RunAction::Execute { command, environment } ==> reply
            == RunReply::<E>::Environment(environment),
        shown_as_text(shown_paths(run@, reply@)),
{
    let Run { request, phase, environment } = run;
    match (phase, reply) {
        (Phase::Finished, _) => finish(request, IslandError::UnexpectedReply),
        (_, RunReply::Failed(e)) => finish(request, IslandError::Outside(e)),
        (Phase::Workspace, RunReply::Done) => {
            let path = FilePath::from_text(request.command[0].as_str());
            proof {
                assert(request@.command[0] == request.command@[0]@);
            }
            if path.is_absolute() {
                canonicalize(request, environment, path)
            } else {
                let name = request.command[0].clone();
                let lines: Vec<Line> = Vec::new();
                assert(line_views(lines@) =~= Seq::<LineView>::empty());
                RunStep {
                    run: Run { request, phase: Phase::Lookup, environment },
                    lines,
                    action: RunAction::FindCommand { name },
                }
            }
        },
        (Phase::Lookup, RunReply::Path(path)) => canonicalize(request, environment, path),
        (Phase::Canonical, RunReply::Path(path)) => {
            let mut lines: Vec<Line> = Vec::new();
            push_line(
                &mut lines,
                Line::Verbose(
                    concat_texts("Resolved command path: ", path_text(&path).as_str()),
                ),
            );
            let ghost resolved = LineView::Verbose("Resolved command path: "@ + lossy_form(path@));
            if request.no_ldd {
                push_line(
                    &mut lines,
                    Line::Verbose(
                        String::from_str(
                            "Skipping shared-library dependency resolution (--no-ldd)",
                        ),
                    ),
                );
                let ghost skipping = LineView::Verbose(
                    "Skipping shared-library dependency resolution (--no-ldd)"@,
                );
                assert(line_views(lines@) =~= seq![resolved, skipping]);
                enforce_first(request, environment, &path, &None, lines)
            } else {
                assert(line_views(lines@) =~= seq![resolved]);
                analyze(request, environment, path, DependencySearch::new(), lines)
            }
        },
        (Phase::Dependencies { command_path, search }, RunReply::Dependencies(tree)) => {
            let lines: Vec<Line> = Vec::new();
            assert(line_views(lines@) =~= Seq::<LineView>::empty());
            match resolve_dependency_tree::<E>(search, Ok(tree)) {
                SearchStep::Analyze(next) => analyze(
                    request,
                    environment,
                    command_path,
                    next,
                    lines,
                ),
                SearchStep::Done(found) => enforce_first(
                    request,
                    environment,
                    &command_path,
                    &Some(found),
                    lines,
                ),
                SearchStep::Failed(e) => finish(request, IslandError::Outside(e)),
            }
        },
        (
            Phase::Enforcing { paths, profile, stage: Stage::Build },
            RunReply::RulesetBuilt { warnings },
        ) => {
            let lines = rule_warnings(&warnings);
            RunStep {
                run: Run {
                    request,
                    phase: Phase::Enforcing { paths, profile, stage: Stage::Workspace },
                    environment,
                },
                lines,
                action: RunAction::AllowWorkspace { profile },
            }
        },
        (Phase::Enforcing { paths, profile, stage }, RunReply::Done) => {
            if stage == Stage::Build {
                finish(request, IslandError::UnexpectedReply)
            } else {
                enforce(request, environment, paths, profile, stage)
            }
        },
        (Phase::Variables, RunReply::Environment(environment)) => {
            let mut lines: Vec<Line> = Vec::new();
            push_line(
                &mut lines,
                Line::Verbose(concat_texts("Executing: ", request.command[0].as_str())),
            );
            let command = copy_texts(&request.command);
            proof {
                assert(request@.command[0] == request.command@[0]@);
                assert(line_views(lines@) =~= seq![
                    LineView::Verbose("Executing: "@ + request@.command[0]),
                ]);
            }
            RunStep {
                run: Run { request, phase: Phase::Executing, environment: Environment::new() },
                lines,
                action: RunAction::Execute { command, environment },
            }
        },
        _ => finish(request, IslandError::UnexpectedReply),
    }
}

} // verus!
