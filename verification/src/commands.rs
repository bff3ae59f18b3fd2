//! What the other commands decide: which profiles are meant, and what is shown.
use crate::error::{ErrorKind, ErrorView, IslandError};
use crate::run::{Line, LineView};
use crate::text::{
    are_plain_debug_texts, concat_texts, copy_texts, debug_list, debug_list_text, join_texts,
    joined, quoted_list, text_views,
};
use vstd::prelude::*;
use vstd::string::*;

verus! {

/// Where a line is shown.
#[derive(Clone, Copy, PartialEq, Eq, Debug, Structural)]
pub enum Shown {
    Nowhere,
    Output,
    Errors,
}

/// Where a line is shown: warnings always, the rest where verbose output is asked for.
pub fn shown(line: &Line, verbose: bool) -> (r: Shown)
    ensures
        r == match line@ {
            LineView::Verbose(_) => if verbose {
                Shown::Output
            } else {
                Shown::Nowhere
            },
            LineView::Warning(_) => Shown::Errors,
        },
{
    match line {
        Line::Verbose(_) => if verbose {
            Shown::Output
        } else {
            Shown::Nowhere
        },
        Line::Warning(_) => Shown::Errors,
    }
}

/// Which profiles are meant.
pub enum ProfileQuery {
    /// Those of these names, in this order.
    Named(Vec<String>),
    /// Those that apply to the current directory.
    CurrentDirectory,
}

/// Which profiles are meant, as a mathematical value.
#[verifier::ext_equal]
pub enum QueryView {
    Named(Seq<Seq<char>>),
    CurrentDirectory,
}

impl View for ProfileQuery {
    type V = QueryView;

    open spec fn view(&self) -> QueryView {
        match *self {
            ProfileQuery::Named(names) => QueryView::Named(text_views(names@)),
            ProfileQuery::CurrentDirectory => QueryView::CurrentDirectory,
        }
    }
}

/// Explicit names stand for themselves; without any, the current directory decides.
pub open spec fn queried_profiles(names: Seq<Seq<char>>) -> QueryView {
    if names.len() > 0 {
        QueryView::Named(names)
    } else {
        QueryView::CurrentDirectory
    }
}

/// Which profiles the given names mean, and what is said of it. Where any name is given, the
/// current directory plays no part. Plain names are shown between double quotes.
pub fn resolve_profiles(profile_names: &Vec<String>) -> (r: (ProfileQuery, Option<Line>))
    ensures
        r.0@ == queried_profiles(text_views(profile_names@)),
        profile_names@.len() == 0 ==> r.0 is CurrentDirectory,
        profile_names@.len() > 0 ==> {
            &&& r.0 matches ProfileQuery::Named(names)
            &&& names@.len() == profile_names@.len()
            &&& forall|i: int| 0 <= i < names@.len() ==> (#[trigger] names@[i])@
                == profile_names@[i]@
        },
        r.1 is Some <==> profile_names@.len() > 0,
        r.1 matches Some(line) ==> line@ == LineView::Verbose(
            "Using explicit profiles: "@ + debug_list(text_views(profile_names@)),
        ),
        r.1 matches Some(line) ==> (are_plain_debug_texts(text_views(profile_names@)) ==> line@
            == LineView::Verbose(
            "Using explicit profiles: "@ + quoted_list(text_views(profile_names@)),
        )),
{
    if profile_names.len() > 0 {
        let text = concat_texts(
            "Using explicit profiles: ",
            debug_list_text(profile_names).as_str(),
        );
        let names = copy_texts(profile_names);
        proof {
            assert forall|i: int| 0 <= i < profile_names@.len() implies (#[trigger] names@[i])@
                == profile_names@[i]@ by {
                assert(text_views(names@)[i] == text_views(profile_names@)[i]);
            }
            assert(text_views(names@).len() == text_views(profile_names@).len());
        }
        (ProfileQuery::Named(names), Some(Line::Verbose(text)))
    } else {
        (ProfileQuery::CurrentDirectory, None)
    }
}

/// What is shown of the profiles that apply: their names, one on each line. Where none does,
/// that is an error.
pub fn status_report<E>(names: &Vec<String>) -> (r: Result<String, IslandError<E>>)
    ensures
        r is Ok <==> names@.len() > 0,
        r matches Ok(text) ==> text@ == joined(text_views(names@), "\n"@),
        r matches Err(e) ==> e@ == (ErrorView::<E>::Io {
            kind: ErrorKind::NotFound,
            message: "No profile found for the current directory"@,
        }),
{
    if names.len() == 0 {
        Err(
            IslandError::Io {
                kind: ErrorKind::NotFound,
                message: String::from_str("No profile found for the current directory"),
            },
        )
    } else {
        Ok(join_texts(names, "\n"))
    }
}

/// A shell that Island can be hooked into.
#[derive(Clone, Copy, PartialEq, Eq, Debug, Structural)]
pub enum HookShell {
    Zsh,
}

/// The text that hooks Island into a shell, given the shell's script, or unhooks it.
pub fn hook_script(shell: HookShell, undo: bool, script: &str) -> (r: String)
    ensures
        r@ == if undo {
            "_island_unhook 2>/dev/null || :"@
        } else {
            script@
        },
{
    match shell {
        HookShell::Zsh => if undo {
            String::from_str("_island_unhook 2>/dev/null || :")
        } else {
            String::from_str(script)
        },
    }
}

/// Which profiles are to be updated.
pub enum UpdateQuery {
    /// All that there are.
    All,
    /// Those that are meant by names or by the current directory.
    Resolved(ProfileQuery),
}

/// Which profiles are to be updated: all, or those that the given names mean.
pub fn update_query(profile_names: &Vec<String>, all: bool) -> (r: (UpdateQuery, Option<Line>))
    ensures
        all ==> r.0 is All && r.1 is None,
        !all ==> {
            &&& r.0 matches UpdateQuery::Resolved(query)
            &&& query@ == queried_profiles(text_views(profile_names@))
            &&& profile_names@.len() == 0 ==> query is CurrentDirectory
            &&& profile_names@.len() > 0 ==> {
                &&& query matches ProfileQuery::Named(names)
                &&& names@.len() == profile_names@.len()
                &&& forall|i: int| 0 <= i < names@.len() ==> (#[trigger] names@[i])@
                    == profile_names@[i]@
            }
            &&& r.1 is Some <==> profile_names@.len() > 0
            &&& r.1 matches Some(line) ==> line@ == LineView::Verbose(
                "Using explicit profiles: "@ + debug_list(text_views(profile_names@)),
            )
            &&& r.1 matches Some(line) ==> (are_plain_debug_texts(text_views(profile_names@))
                ==> line@ == LineView::Verbose(
                "Using explicit profiles: "@ + quoted_list(text_views(profile_names@)),
            ))
        },
{
    if all {
        (UpdateQuery::All, None)
    } else {
        let (query, line) = resolve_profiles(profile_names);
        (UpdateQuery::Resolved(query), line)
    }
}

} // verus!
