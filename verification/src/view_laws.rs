//! What the views of requests, steps, actions and replies have: all that these have.
use crate::commands::{queried_profiles, ProfileQuery, QueryView};
use crate::create::{
    CreateAction, CreateActionView, CreateReply, CreateReplyView, CreateRequest, CreateStep,
};
use crate::error::{ErrorView, IslandError};
use crate::path::{component_views, path_views, Component, ComponentView};
use crate::run::{
    line_views, profile_views, ActionView, Line, LineView, Profile, ReplyView, RunAction,
    RunReply, RunRequest, RunStep,
};
use crate::text::text_views;
use vstd::prelude::*;

verus! {

/// The view of a list of components has each of them, in order; a name by its bytes.
pub proof fn component_views_hold_all(list: Seq<Component>)
    ensures
        component_views(list).len() == list.len(),
        forall|i: int|
            0 <= i < list.len() ==> component_views(list)[i] == match #[trigger] list[i] {
                Component::Root => ComponentView::Root,
                Component::CurDir => ComponentView::CurDir,
                Component::ParentDir => ComponentView::ParentDir,
                Component::Normal(name) => ComponentView::Normal(name@),
            },
{
}

/// The view of an error has all that the error has.
pub proof fn error_views_hold_all<E>(error: IslandError<E>)
    ensures
        error@ == match error {
            IslandError::Io { kind, message } => ErrorView::<E>::Io { kind, message: message@ },
            IslandError::Outside(e) => ErrorView::<E>::Outside(e),
            IslandError::UnexpectedReply => ErrorView::<E>::UnexpectedReply,
        },
{
}

// ---- Runs ----

/// The view of a request to run a command has all that the request has: of each profile the
/// name and the variables, in order.
pub proof fn run_request_views_hold_all(request: RunRequest)
    ensures
        request@.profiles.len() == request.profiles@.len(),
        forall|i: int|
            0 <= i < request.profiles@.len() ==> request@.profiles[i].name == (
            #[trigger] request.profiles@[i]).name@,
        forall|i: int|
            0 <= i < request.profiles@.len() ==> request@.profiles[i].env_vars.len() == (
            #[trigger] request.profiles@[i]).env_vars@.len(),
        forall|i: int, j: int|
            0 <= i < request.profiles@.len() && 0 <= j < request.profiles@[i].env_vars@.len()
                ==> request@.profiles[i].env_vars[j] == (
                (#[trigger] request.profiles@[i].env_vars@[j]).name@,
                request.profiles@[i].env_vars@[j].literal@,
            ),
        request@.command.len() == request.command@.len(),
        forall|i: int|
            0 <= i < request.command@.len() ==> request@.command[i] == (
            #[trigger] request.command@[i])@,
        request@.ignore_missing_profile == request.ignore_missing_profile,
        request@.no_ldd == request.no_ldd,
{
    assert forall|i: int| 0 <= i < request.profiles@.len() implies request@.profiles[i] == (
    #[trigger] request.profiles@[i])@ by {
        assert(profile_views(request.profiles@)[i] == request.profiles@[i]@);
    }
}

/// The view of a list of profiles has each of them, in order.
pub proof fn profile_views_hold_all(list: Seq<Profile>)
    ensures
        profile_views(list).len() == list.len(),
        forall|i: int| 0 <= i < list.len() ==> profile_views(list)[i] == (#[trigger] list[i])@,
        forall|i: int|
            0 <= i < list.len() ==> profile_views(list)[i].name == (#[trigger] list[i]).name@,
{
}

/// The view of a list of lines has the text and the kind of each, in order.
pub proof fn line_views_hold_all(list: Seq<Line>)
    ensures
        line_views(list).len() == list.len(),
        forall|i: int|
            0 <= i < list.len() ==> line_views(list)[i] == match #[trigger] list[i] {
                Line::Verbose(text) => LineView::Verbose(text@),
                Line::Warning(text) => LineView::Warning(text@),
            },
{
}

/// The view of what a run asks for has all that the action has.
pub proof fn run_action_views_hold_all<E>(action: RunAction<E>)
    ensures
        action@ == match action {
            RunAction::OpenWorkspace { profile } => ActionView::<E>::OpenWorkspace {
                profile: profile as int,
            },
            RunAction::FindCommand { name } => ActionView::<E>::FindCommand { name: name@ },
            RunAction::Canonicalize { path } => ActionView::<E>::Canonicalize {
                path: path.bytes@,
            },
            RunAction::AnalyzeDependencies { command_path, library_paths } => ActionView::<
                E,
            >::AnalyzeDependencies {
                command_path: command_path.bytes@,
                library_paths: path_views(library_paths@),
            },
            RunAction::BuildRuleset { profile } => ActionView::<E>::BuildRuleset {
                profile: profile as int,
            },
            RunAction::AllowWorkspace { profile } => ActionView::<E>::AllowWorkspace {
                profile: profile as int,
            },
            RunAction::AllowPaths { profile, paths, rights } => ActionView::<E>::AllowPaths {
                profile: profile as int,
                paths: path_views(paths@),
                rights,
            },
            RunAction::RestrictSelf { profile } => ActionView::<E>::RestrictSelf {
                profile: profile as int,
            },
            RunAction::SetWorkspaceVariables { environment } => ActionView::<
                E,
            >::SetWorkspaceVariables { environment: environment@ },
            RunAction::Execute { command, environment } => ActionView::<E>::Execute {
                command: text_views(command@),
                environment: environment@,
            },
            RunAction::ExecuteUnsandboxed { command } => ActionView::<E>::ExecuteUnsandboxed {
                command: text_views(command@),
            },
            RunAction::Finish { error } => ActionView::<E>::Finish { error: error@ },
        },
{
}

/// The view of a reply to a run has all that the reply has.
pub proof fn run_reply_views_hold_all<E>(reply: RunReply<E>)
    ensures
        reply@ == match reply {
            RunReply::Done => ReplyView::<E>::Done,
            RunReply::Path(path) => ReplyView::<E>::Path(path.bytes@),
            RunReply::Dependencies(tree) => ReplyView::<E>::Dependencies(tree@),
            RunReply::RulesetBuilt { warnings } => ReplyView::<E>::RulesetBuilt {
                warnings: text_views(warnings@),
            },
            RunReply::Environment(environment) => ReplyView::<E>::Environment(environment@),
            RunReply::Failed(e) => ReplyView::<E>::Failed(e),
        },
{
}

/// The view of a step of a run has its lines, its action and the run.
pub proof fn run_step_views_hold_all<E>(step: RunStep<E>)
    ensures
        step@.run == step.run@,
        step@.lines == line_views(step.lines@),
        step@.action == step.action@,
{
}

// ---- Creations ----

/// The view of a request to create a profile has the name and the directories, in order.
pub proof fn create_request_views_hold_all(request: CreateRequest)
    ensures
        request@.name == request.name@,
        request@.when_beneath.len() == request.when_beneath@.len(),
        forall|i: int|
            0 <= i < request.when_beneath@.len() ==> request@.when_beneath[i] == (
            #[trigger] request.when_beneath@[i])@,
{
}

/// The view of what a creation asks for has all that the action has.
pub proof fn create_action_views_hold_all<E>(action: CreateAction<E>)
    ensures
        action@ == match action {
            CreateAction::FindConfigDir => CreateActionView::<E>::FindConfigDir,
            CreateAction::Probe { path } => CreateActionView::<E>::Probe { path: path.bytes@ },
            CreateAction::MakeDirs { path } => CreateActionView::<E>::MakeDirs {
                path: path.bytes@,
            },
            CreateAction::Canonicalize { path } => CreateActionView::<E>::Canonicalize {
                path: path.bytes@,
            },
            CreateAction::WriteFile { path, content } => CreateActionView::<E>::WriteFile {
                path: path.bytes@,
                content: content@,
            },
            CreateAction::WriteDefaultRules { path } => CreateActionView::<
                E,
            >::WriteDefaultRules { path: path.bytes@ },
            CreateAction::Succeed { lines } => CreateActionView::<E>::Succeed {
                lines: text_views(lines@),
            },
            CreateAction::Fail { error } => CreateActionView::<E>::Fail { error: error@ },
        },
{
}

/// The view of a reply to a creation has all that the reply has.
pub proof fn create_reply_views_hold_all<E>(reply: CreateReply<E>)
    ensures
        reply@ == match reply {
            CreateReply::Done => CreateReplyView::<E>::Done,
            CreateReply::Path(path) => CreateReplyView::<E>::Path(path.bytes@),
            CreateReply::Exists(exists) => CreateReplyView::<E>::Exists(exists),
            CreateReply::Failed(e) => CreateReplyView::<E>::Failed(e),
        },
{
}

/// The view of a step of a creation has its action and the creation.
pub proof fn create_step_views_hold_all<E>(step: CreateStep<E>)
    ensures
        step@.creation == step.creation@,
        step@.action == step.action@,
{
}

// ---- Profiles that are meant ----

/// The view of a query has all that the query has.
pub proof fn query_views_hold_all(query: ProfileQuery)
    ensures
        query@ == match query {
            ProfileQuery::Named(names) => QueryView::Named(text_views(names@)),
            ProfileQuery::CurrentDirectory => QueryView::CurrentDirectory,
        },
{
}

/// Names that are given are meant, all of them and no others, in order; the current directory
/// decides only where none is given.
pub proof fn given_names_are_meant(names: Seq<Seq<char>>)
    ensures
        names.len() > 0 ==> queried_profiles(names) == QueryView::Named(names),
        names.len() == 0 ==> queried_profiles(names) == QueryView::CurrentDirectory,
{
}

} // verus!
