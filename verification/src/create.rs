//! Creating a profile.
//!
//! [`create`] and [`resume_create`] decide what comes next; the caller does it and replies.
use crate::error::{ErrorKind, ErrorView, IslandError};
use crate::path::{joined_path, path_views, FilePath};
use crate::text::{
    concat_texts, double_quoted, is_plain_toml_char, join_texts, joined, lossy_form, path_text,
    shown_as_text, text_views, toml_string_form, toml_string_text,
};
use vstd::prelude::*;
use vstd::string::*;
use vstd::utf8::{decode_utf8, encode_utf8, valid_utf8};

verus! {

// ---- The profile file ----

/// The entry for one directory, given its path as a TOML value.
pub open spec fn context_entry(value: Seq<char>) -> Seq<char> {
    "[[context]]\nwhen_beneath = "@ + value
}

/// A profile that applies beneath directories, given their paths as TOML values.
pub open spec fn profile_entries(values: Seq<Seq<char>>) -> Seq<char> {
    joined(values.map_values(|v: Seq<char>| context_entry(v)), "\n\n"@) + "\n"@
}

/// A profile that applies beneath directories.
pub open spec fn profile_content_of(paths: Seq<Seq<u8>>) -> Seq<char> {
    profile_entries(paths.map_values(|p: Seq<u8>| toml_string_form(lossy_form(p))))
}

/// The path is UTF-8 without control characters, double quotes and backslashes.
pub open spec fn is_plain_path(p: Seq<u8>) -> bool {
    &&& valid_utf8(p)
    &&& forall|i: int| 0 <= i < decode_utf8(p).len() ==> is_plain_toml_char(
        #[trigger] decode_utf8(p)[i],
    )
}

/// The path between double quotes.
pub open spec fn quoted_path(p: Seq<u8>) -> Seq<char> {
    double_quoted(decode_utf8(p))
}

/// Every path is plain.
pub open spec fn are_plain_paths(paths: Seq<Seq<u8>>) -> bool {
    forall|i: int| 0 <= i < paths.len() ==> is_plain_path(#[trigger] paths[i])
}

/// A profile that applies beneath directories whose paths are plain.
pub open spec fn plain_profile_content(paths: Seq<Seq<u8>>) -> Seq<char> {
    profile_entries(paths.map_values(|p: Seq<u8>| quoted_path(p)))
}

/// The profile whose entries have the given values.
pub fn profile_text(values: &Vec<String>) -> (r: String)
    ensures
        r@ == profile_entries(text_views(values@)),
{
    let mut entries: Vec<String> = Vec::new();
    let mut i: usize = 0;
    while i < values.len()
        invariant
            i <= values@.len(),
            entries@.len() == i,
            forall|j: int| 0 <= j < i ==> (#[trigger] entries@[j])@ == context_entry(values@[j]@),
        decreases values@.len() - i,
    {
        entries.push(concat_texts("[[context]]\nwhen_beneath = ", values[i].as_str()));
        i += 1;
    }
    proof {
        assert(text_views(entries@) =~= text_views(values@).map_values(
            |v: Seq<char>| context_entry(v),
        ));
    }
    let mut r = join_texts(&entries, "\n\n");
    r.append("\n");
    r
}

/// The profile that applies beneath the given directories. A plain path stands between double
/// quotes; of any other that is UTF-8 what it encodes is quoted.
pub fn profile_content(paths: &Vec<FilePath>) -> (r: String)
    ensures
        r@ == profile_content_of(path_views(paths@)),
        are_plain_paths(path_views(paths@)) ==> r@ == plain_profile_content(path_views(paths@)),
        shown_as_text(path_views(paths@)),
{
    let mut values: Vec<String> = Vec::new();
    let mut i: usize = 0;
    while i < paths.len()
        invariant
            i <= paths@.len(),
            values@.len() == i,
            forall|j: int|
                0 <= j < i ==> (#[trigger] values@[j])@ == toml_string_form(
                    lossy_form(paths@[j]@),
                ) && (is_plain_path(paths@[j]@) ==> values@[j]@ == quoted_path(paths@[j]@)) && (
                valid_utf8(paths@[j]@) ==> lossy_form(paths@[j]@) == decode_utf8(paths@[j]@)),
        decreases paths@.len() - i,
    {
        let text = path_text(&paths[i]);
        values.push(toml_string_text(text.as_str()));
        i += 1;
    }
    proof {
        let views = path_views(paths@);
        assert(text_views(values@) =~= views.map_values(
            |p: Seq<u8>| toml_string_form(lossy_form(p)),
        ));
        assert forall|j: int| 0 <= j < views.len() && valid_utf8(#[trigger] views[j]) implies
            lossy_form(views[j]) == decode_utf8(views[j]) by {
            assert(values@[j]@ == toml_string_form(lossy_form(paths@[j]@)));
        }
        if are_plain_paths(views) {
            assert forall|j: int| 0 <= j < values@.len() implies (#[trigger] values@[j])@
                == quoted_path(views[j]) by {
                assert(is_plain_path(views[j]));
            }
            assert(text_views(values@) =~= views.map_values(|p: Seq<u8>| quoted_path(p)));
        }
    }
    profile_text(&values)
}

// ---- The steps ----

/// A request to create a profile.
pub struct CreateRequest {
    /// The name of the profile.
    pub name: String,
    /// The directories beneath which it applies.
    pub when_beneath: Vec<String>,
}

/// A request to create a profile, as a mathematical value.
#[verifier::ext_equal]
pub struct CreateRequestView {
    pub name: Seq<char>,
    pub when_beneath: Seq<Seq<char>>,
}

impl View for CreateRequest {
    type V = CreateRequestView;

    open spec fn view(&self) -> CreateRequestView {
        CreateRequestView { name: self.name@, when_beneath: text_views(self.when_beneath@) }
    }
}

enum CreatePhase {
    ConfigDir,
    Probe { profile_dir: FilePath },
    MakeDirs { profile_dir: FilePath },
    Canonical { profile_dir: FilePath, paths: Vec<FilePath> },
    WriteProfile { profile_dir: FilePath, paths: Vec<FilePath> },
    WriteRules { profile_dir: FilePath, paths: Vec<FilePath> },
    Finished,
}

/// What a creation waits for, as a mathematical value.
#[verifier::ext_equal]
pub enum CreatePhaseView {
    /// The directory of the configuration.
    ConfigDir,
    /// Whether the profile's directory exists.
    Probe { profile_dir: Seq<u8> },
    /// The profile's directories.
    MakeDirs { profile_dir: Seq<u8> },
    /// The canonical path of the next directory; those before.
    Canonical { profile_dir: Seq<u8>, paths: Seq<Seq<u8>> },
    /// The profile's file.
    WriteProfile { profile_dir: Seq<u8>, paths: Seq<Seq<u8>> },
    /// The file of the default rules.
    WriteRules { profile_dir: Seq<u8>, paths: Seq<Seq<u8>> },
    /// Nothing more.
    Finished,
}

/// A creation that has begun.
pub struct Creation {
    request: CreateRequest,
    phase: CreatePhase,
}

/// A creation, as a mathematical value.
#[verifier::ext_equal]
pub struct CreationView {
    pub request: CreateRequestView,
    pub phase: CreatePhaseView,
}

impl View for Creation {
    type V = CreationView;

    closed spec fn view(&self) -> CreationView {
        CreationView {
            request: self.request@,
            phase: match self.phase {
                CreatePhase::ConfigDir => CreatePhaseView::ConfigDir,
                CreatePhase::Probe { profile_dir } => CreatePhaseView::Probe {
                    profile_dir: profile_dir@,
                },
                CreatePhase::MakeDirs { profile_dir } => CreatePhaseView::MakeDirs {
                    profile_dir: profile_dir@,
                },
                CreatePhase::Canonical { profile_dir, paths } => CreatePhaseView::Canonical {
                    profile_dir: profile_dir@,
                    paths: path_views(paths@),
                },
                CreatePhase::WriteProfile { profile_dir, paths } => CreatePhaseView::WriteProfile {
                    profile_dir: profile_dir@,
                    paths: path_views(paths@),
                },
                CreatePhase::WriteRules { profile_dir, paths } => CreatePhaseView::WriteRules {
                    profile_dir: profile_dir@,
                    paths: path_views(paths@),
                },
                CreatePhase::Finished => CreatePhaseView::Finished,
            },
        }
    }
}

/// What a creation asks the caller to do.
pub enum CreateAction<E> {
    /// Finds the directory of the configuration.
    FindConfigDir,
    /// Looks whether a path exists.
    Probe { path: FilePath },
    /// Makes a directory, and those above it that are missing.
    MakeDirs { path: FilePath },
    /// Makes a path canonical.
    Canonicalize { path: FilePath },
    /// Writes a file.
    WriteFile { path: FilePath, content: String },
    /// Writes a file with the default rules.
    WriteDefaultRules { path: FilePath },
    /// Ends, with lines to show.
    Succeed { lines: Vec<String> },
    /// Ends with an error.
    Fail { error: IslandError<E> },
}

/// What a creation asks for, as a mathematical value.
#[verifier::ext_equal]
pub enum CreateActionView<E> {
    FindConfigDir,
    Probe { path: Seq<u8> },
    MakeDirs { path: Seq<u8> },
    Canonicalize { path: Seq<u8> },
    WriteFile { path: Seq<u8>, content: Seq<char> },
    WriteDefaultRules { path: Seq<u8> },
    Succeed { lines: Seq<Seq<char>> },
    Fail { error: ErrorView<E> },
}

impl<E> View for CreateAction<E> {
    type V = CreateActionView<E>;

    open spec fn view(&self) -> CreateActionView<E> {
        match *self {
            CreateAction::FindConfigDir => CreateActionView::FindConfigDir,
            CreateAction::Probe { path } => CreateActionView::Probe { path: path@ },
            CreateAction::MakeDirs { path } => CreateActionView::MakeDirs { path: path@ },
            CreateAction::Canonicalize { path } => CreateActionView::Canonicalize { path: path@ },
            CreateAction::WriteFile { path, content } => CreateActionView::WriteFile {
                path: path@,
                content: content@,
            },
            CreateAction::WriteDefaultRules { path } => CreateActionView::WriteDefaultRules {
                path: path@,
            },
            CreateAction::Succeed { lines } => CreateActionView::Succeed {
                lines: text_views(lines@),
            },
            CreateAction::Fail { error } => CreateActionView::Fail { error: error@ },
        }
    }
}

/// What the caller replies.
pub enum CreateReply<E> {
    /// It is done.
    Done,
    /// The path that was asked for.
    Path(FilePath),
    /// Whether the path exists.
    Exists(bool),
    /// It failed.
    Failed(E),
}

/// What the caller replies, as a mathematical value.
pub enum CreateReplyView<E> {
    Done,
    Path(Seq<u8>),
    Exists(bool),
    Failed(E),
}

impl<E> View for CreateReply<E> {
    type V = CreateReplyView<E>;

    open spec fn view(&self) -> CreateReplyView<E> {
        match *self {
            CreateReply::Done => CreateReplyView::Done,
            CreateReply::Path(path) => CreateReplyView::Path(path@),
            CreateReply::Exists(exists) => CreateReplyView::Exists(exists),
            CreateReply::Failed(e) => CreateReplyView::Failed(e),
        }
    }
}

/// A step of a creation.
pub struct CreateStep<E> {
    pub creation: Creation,
    pub action: CreateAction<E>,
}

/// A step of a creation, as a mathematical value.
#[verifier::ext_equal]
pub struct CreateStepView<E> {
    pub creation: CreationView,
    pub action: CreateActionView<E>,
}

impl<E> View for CreateStep<E> {
    type V = CreateStepView<E>;

    open spec fn view(&self) -> CreateStepView<E> {
        CreateStepView { creation: self.creation@, action: self.action@ }
    }
}

/// A name within a directory.
pub open spec fn entry(dir: Seq<u8>, name: Seq<char>) -> Seq<u8> {
    joined_path(dir, encode_utf8(name))
}

/// The directory of a profile.
pub open spec fn profile_dir_of(config_dir: Seq<u8>, name: Seq<char>) -> Seq<u8> {
    entry(entry(config_dir, "profiles"@), name)
}

/// The directory of a profile's rules.
pub open spec fn landlock_dir_of(profile_dir: Seq<u8>) -> Seq<u8> {
    entry(profile_dir, "landlock"@)
}

/// A text between double quotes.
pub open spec fn in_quotes(before: Seq<char>, text: Seq<char>, after: Seq<char>) -> Seq<char> {
    before + "\""@ + text + "\""@ + after
}

/// What is shown of a profile that was created, with its paths as they are shown.
pub open spec fn created_texts(
    name: Seq<char>,
    profile_dir: Seq<char>,
    paths: Seq<Seq<char>>,
) -> Seq<Seq<char>> {
    seq![in_quotes("Created profile "@, name, " in "@ + profile_dir), "It applies to:"@]
        + paths.map_values(|p: Seq<char>| "- "@ + p)
}

/// The step to another phase.
pub open spec fn create_step_to<E>(
    creation: CreationView,
    phase: CreatePhaseView,
    action: CreateActionView<E>,
) -> CreateStepView<E> {
    CreateStepView { creation: CreationView { request: creation.request, phase }, action }
}

/// The creation ends with an error.
pub open spec fn create_fails<E>(
    creation: CreationView,
    error: ErrorView<E>,
) -> CreateStepView<E> {
    create_step_to(creation, CreatePhaseView::Finished, CreateActionView::Fail { error })
}

/// How a creation begins: an invalid name is refused.
pub open spec fn first_create_step<E>(
    request: CreateRequestView,
    name_is_valid: bool,
) -> CreateStepView<E> {
    let creation = CreationView { request, phase: CreatePhaseView::ConfigDir };
    if name_is_valid {
        create_step_to(creation, CreatePhaseView::ConfigDir, CreateActionView::FindConfigDir)
    } else {
        create_fails(
            creation,
            ErrorView::Io {
                kind: ErrorKind::InvalidInput,
                message: in_quotes("Invalid profile name "@, request.name, ""@),
            },
        )
    }
}

/// With the canonical paths of the first directories known: the next directory, or the
/// profile's file.
pub open spec fn create_step_with<E>(
    creation: CreationView,
    profile_dir: Seq<u8>,
    paths: Seq<Seq<u8>>,
) -> CreateStepView<E> {
    let when_beneath = creation.request.when_beneath;
    if paths.len() < when_beneath.len() {
        create_step_to(
            creation,
            CreatePhaseView::Canonical { profile_dir, paths },
            CreateActionView::Canonicalize { path: encode_utf8(when_beneath[paths.len() as int]) },
        )
    } else {
        create_step_to(
            creation,
            CreatePhaseView::WriteProfile { profile_dir, paths },
            CreateActionView::WriteFile {
                path: entry(profile_dir, "profile.toml"@),
                content: profile_content_of(paths),
            },
        )
    }
}

/// How a creation goes on after a reply. A failure ends it, and so does a reply of another
/// kind than it waits for; a profile that exists is not created again.
pub open spec fn next_create_step<E>(
    creation: CreationView,
    reply: CreateReplyView<E>,
) -> CreateStepView<E> {
    let name = creation.request.name;
    match (creation.phase, reply) {
        (CreatePhaseView::Finished, _) => create_fails(creation, ErrorView::UnexpectedReply),
        (_, CreateReplyView::Failed(e)) => create_fails(creation, ErrorView::Outside(e)),
        (CreatePhaseView::ConfigDir, CreateReplyView::Path(config_dir)) => {
            let profile_dir = profile_dir_of(config_dir, name);
            create_step_to(
                creation,
                CreatePhaseView::Probe { profile_dir },
                CreateActionView::Probe { path: profile_dir },
            )
        },
        (CreatePhaseView::Probe { profile_dir }, CreateReplyView::Exists(exists)) => if exists {
            create_fails(
                creation,
                ErrorView::Io {
                    kind: ErrorKind::AlreadyExists,
                    message: in_quotes("Profile "@, name, " already exists"@),
                },
            )
        } else {
            create_step_to(
                creation,
                CreatePhaseView::MakeDirs { profile_dir },
                CreateActionView::MakeDirs { path: landlock_dir_of(profile_dir) },
            )
        },
        (CreatePhaseView::MakeDirs { profile_dir }, CreateReplyView::Done) => create_step_with(
            creation,
            profile_dir,
            seq![],
        ),
        (
            CreatePhaseView::Canonical { profile_dir, paths },
            CreateReplyView::Path(path),
        ) => create_step_with(creation, profile_dir, paths.push(path)),
        (
            CreatePhaseView::WriteProfile { profile_dir, paths },
            CreateReplyView::Done,
        ) => create_step_to(
            creation,
            CreatePhaseView::WriteRules { profile_dir, paths },
            CreateActionView::WriteDefaultRules {
                path: entry(landlock_dir_of(profile_dir), "island-default-base.toml"@),
            },
        ),
        (
            CreatePhaseView::WriteRules { profile_dir, paths },
            CreateReplyView::Done,
        ) => create_step_to(
            creation,
            CreatePhaseView::Finished,
            CreateActionView::Succeed {
                lines: created_texts(
                    name,
                    lossy_form(profile_dir),
                    paths.map_values(|p: Seq<u8>| lossy_form(p)),
                ),
            },
        ),
        _ => create_fails(creation, ErrorView::UnexpectedReply),
    }
}

/// A profile's file with plain paths only holds them between double quotes.
pub open spec fn writes_plainly<E>(step: CreateStepView<E>) -> bool {
    step.creation.phase matches CreatePhaseView::WriteProfile { profile_dir, paths } ==> (
    are_plain_paths(paths) ==> step.action == (CreateActionView::<E>::WriteFile {
        path: entry(profile_dir, "profile.toml"@),
        content: plain_profile_content(paths),
    }))
}

/// The paths that the texts of [`next_create_step`] show.
pub open spec fn create_shown_paths<E>(
    creation: CreationView,
    reply: CreateReplyView<E>,
) -> Seq<Seq<u8>> {
    let step = next_create_step(creation, reply);
    match creation.phase {
        CreatePhaseView::WriteRules { profile_dir, paths } => if step.action is Succeed {
            seq![profile_dir] + paths
        } else {
            seq![]
        },
        _ => match step.creation.phase {
            CreatePhaseView::WriteProfile { profile_dir, paths } => paths,
            _ => seq![],
        },
    }
}

// ---- Deciding ----

impl Creation {
    /// No more paths are known than the request has directories.
    pub closed spec fn well_formed(&self) -> bool {
        self.phase matches CreatePhase::Canonical { profile_dir, paths } ==> paths@.len()
            < self.request.when_beneath@.len()
    }
}

fn within(dir: &FilePath, name: &str) -> (r: FilePath)
    ensures
        r@ == entry(dir@, name@),
{
    dir.join(&FilePath::from_text(name))
}

fn quote(before: &str, text: &str, after: &str) -> (r: String)
    ensures
        r@ == in_quotes(before@, text@, after@),
{
    let mut r = concat_texts(before, "\"");
    r.append(text);
    r.append("\"");
    r.append(after);
    r
}

/// What is shown of a profile that was created, with its paths as they are shown.
pub fn created_lines(name: &str, profile_dir: &str, paths: &Vec<String>) -> (r: Vec<String>)
    ensures
        text_views(r@) == created_texts(name@, profile_dir@, text_views(paths@)),
{
    let mut r: Vec<String> = Vec::new();
    r.push(quote("Created profile ", name, concat_texts(" in ", profile_dir).as_str()));
    r.push(String::from_str("It applies to:"));
    let ghost all = created_texts(name@, profile_dir@, text_views(paths@));
    let mut i: usize = 0;
    assert(text_views(r@) =~= all.take(2));
    while i < paths.len()
        invariant
            i <= paths@.len(),
            all == created_texts(name@, profile_dir@, text_views(paths@)),
            text_views(r@) == all.take(i + 2),
        decreases paths@.len() - i,
    {
        let ghost before = r@;
        let text = concat_texts("- ", paths[i].as_str());
        let ghost said = text@;
        r.push(text);
        proof {
            assert(text_views(r@) =~= text_views(before).push(said));
            assert(all[i + 2] == said);
            assert(all.take(i + 2).push(all[i + 2]) =~= all.take(i + 3));
        }
        i += 1;
    }
    assert(all.take(i + 2) =~= all);
    r
}

fn path_texts(paths: &Vec<FilePath>) -> (r: Vec<String>)
    ensures
        text_views(r@) == path_views(paths@).map_values(|p: Seq<u8>| lossy_form(p)),
        shown_as_text(path_views(paths@)),
{
    let mut r: Vec<String> = Vec::new();
    let mut i: usize = 0;
    while i < paths.len()
        invariant
            i <= paths@.len(),
            r@.len() == i,
            forall|j: int|
                0 <= j < i ==> (#[trigger] r@[j])@ == lossy_form(paths@[j]@) && (valid_utf8(
                    paths@[j]@,
                ) ==> r@[j]@ == decode_utf8(paths@[j]@)),
        decreases paths@.len() - i,
    {
        r.push(path_text(&paths[i]));
        i += 1;
    }
    proof {
        let views = path_views(paths@);
        assert(text_views(r@) =~= views.map_values(|p: Seq<u8>| lossy_form(p)));
        assert forall|j: int| 0 <= j < views.len() && valid_utf8(#[trigger] views[j]) implies
            lossy_form(views[j]) == decode_utf8(views[j]) by {
            assert(r@[j]@ == lossy_form(views[j]));
        }
    }
    r
}

/// Begins to create a profile; an invalid name is refused.
pub fn create<E>(request: CreateRequest, name_is_valid: bool) -> (r: CreateStep<E>)
    ensures
        r@ == first_create_step::<E>(request@, name_is_valid),
        r.creation.well_formed(),
{
    if name_is_valid {
        CreateStep {
            creation: Creation { request, phase: CreatePhase::ConfigDir },
            action: CreateAction::FindConfigDir,
        }
    } else {
        proof {
            reveal_strlit("");
        }
        let message = quote("Invalid profile name ", request.name.as_str(), "");
        fail(request, IslandError::Io { kind: ErrorKind::InvalidInput, message })
    }
}

fn fail<E>(request: CreateRequest, error: IslandError<E>) -> (r: CreateStep<E>)
    ensures
        r@.creation == (CreationView { request: request@, phase: CreatePhaseView::Finished }),
        r@.action == (CreateActionView::<E>::Fail { error: error@ }),
        r.creation.well_formed(),
{
    CreateStep {
        creation: Creation { request, phase: CreatePhase::Finished },
        action: CreateAction::Fail { error },
    }
}

fn go_on_with<E>(
    request: CreateRequest,
    profile_dir: FilePath,
    paths: Vec<FilePath>,
) -> (r: CreateStep<E>)
    ensures
        forall|phase: CreatePhaseView|
            r@ == #[trigger] create_step_with::<E>(
                CreationView { request: request@, phase },
                profile_dir@,
                path_views(paths@),
            ),
        r.creation.well_formed(),
        writes_plainly(r@),
        r@.action is WriteFile ==> shown_as_text(path_views(paths@)),
{
    let n = paths.len();
    if n < request.when_beneath.len() {
        let path = FilePath::from_text(request.when_beneath[n].as_str());
        CreateStep {
            creation: Creation { request, phase: CreatePhase::Canonical { profile_dir, paths } },
            action: CreateAction::Canonicalize { path },
        }
    } else {
        let path = within(&profile_dir, "profile.toml");
        let content = profile_content(&paths);
        CreateStep {
            creation: Creation {
                request,
                phase: CreatePhase::WriteProfile { profile_dir, paths },
            },
            action: CreateAction::WriteFile { path, content },
        }
    }
}

/// Goes on with a creation after the reply to what it had asked for. Any failure ends it with
/// that failure. Plain paths are written between double quotes, and paths that are UTF-8 are
/// shown as what they encode.
pub fn resume_create<E>(creation: Creation, reply: CreateReply<E>) -> (r: CreateStep<E>)
    requires
        creation.well_formed(),
    ensures
        r@ == next_create_step::<E>(creation@, reply@),
        r.creation.well_formed(),
        writes_plainly(r@),
        shown_as_text(create_shown_paths(creation@, reply@)),
{
    let Creation { request, phase } = creation;
    match (phase, reply) {
        (CreatePhase::Finished, _) => fail(request, IslandError::UnexpectedReply),
        (_, CreateReply::Failed(e)) => fail(request, IslandError::Outside(e)),
        (CreatePhase::ConfigDir, CreateReply::Path(config_dir)) => {
            let profile_dir = within(&within(&config_dir, "profiles"), request.name.as_str());
            let path = profile_dir.clone();
            CreateStep {
                creation: Creation { request, phase: CreatePhase::Probe { profile_dir } },
                action: CreateAction::Probe { path },
            }
        },
        (CreatePhase::Probe { profile_dir }, CreateReply::Exists(exists)) => {
            if exists {
                let message = quote("Profile ", request.name.as_str(), " already exists");
                fail(request, IslandError::Io { kind: ErrorKind::AlreadyExists, message })
            } else {
                let path = within(&profile_dir, "landlock");
                CreateStep {
                    creation: Creation { request, phase: CreatePhase::MakeDirs { profile_dir } },
                    action: CreateAction::MakeDirs { path },
                }
            }
        },
        (CreatePhase::MakeDirs { profile_dir }, CreateReply::Done) => {
            let paths: Vec<FilePath> = Vec::new();
            assert(path_views(paths@) =~= Seq::<Seq<u8>>::empty());
            go_on_with(request, profile_dir, paths)
        },
        (CreatePhase::Canonical { profile_dir, paths }, CreateReply::Path(path)) => {
            let mut paths = paths;
            let ghost before = path_views(paths@);
            let ghost p = path@;
            paths.push(path);
            assert(path_views(paths@) =~= before.push(p));
            go_on_with(request, profile_dir, paths)
        },
        (CreatePhase::WriteProfile { profile_dir, paths }, CreateReply::Done) => {
            let path = within(&within(&profile_dir, "landlock"), "island-default-base.toml");
            CreateStep {
                creation: Creation {
                    request,
                    phase: CreatePhase::WriteRules { profile_dir, paths },
                },
                action: CreateAction::WriteDefaultRules { path },
            }
        },
        (CreatePhase::WriteRules { profile_dir, paths }, CreateReply::Done) => {
            let lines = created_lines(
                request.name.as_str(),
                path_text(&profile_dir).as_str(),
                &path_texts(&paths),
            );
            CreateStep {
                creation: Creation { request, phase: CreatePhase::Finished },
                action: CreateAction::Succeed { lines },
            }
        },
        _ => fail(request, IslandError::UnexpectedReply),
    }
}

// ---- What holds of every creation ----

/// The step of a creation after `k` replies.
pub open spec fn create_step_at<E>(
    request: CreateRequestView,
    name_is_valid: bool,
    replies: Seq<CreateReplyView<E>>,
    k: int,
) -> CreateStepView<E>
    decreases k,
{
    if k <= 0 {
        first_create_step(request, name_is_valid)
    } else {
        next_create_step(
            create_step_at(request, name_is_valid, replies, k - 1).creation,
            replies[k - 1],
        )
    }
}

/// The action changes what is on disk.
pub open spec fn writes<E>(action: CreateActionView<E>) -> bool {
    action is MakeDirs || action is WriteFile || action is WriteDefaultRules
}

/// The action ends the creation.
pub open spec fn ends<E>(action: CreateActionView<E>) -> bool {
    action is Succeed || action is Fail
}

pub(crate) proof fn lemma_create<E>(
    request: CreateRequestView,
    name_is_valid: bool,
    replies: Seq<CreateReplyView<E>>,
    k: int,
)
    requires
        0 <= k <= replies.len(),
    ensures
        ({
            let step = create_step_at(request, name_is_valid, replies, k);
            let config_dir = replies[0]->Path_0;
            let dir = profile_dir_of(config_dir, request.name);
            &&& step.creation.request == request
            &&& match step.creation.phase {
                CreatePhaseView::ConfigDir => {
                    &&& name_is_valid
                    &&& k == 0
                    &&& step.action is FindConfigDir
                },
                CreatePhaseView::Probe { profile_dir } => {
                    &&& name_is_valid
                    &&& k == 1
                    &&& replies[0] is Path
                    &&& profile_dir == dir
                    &&& step.action == (CreateActionView::<E>::Probe { path: dir })
                },
                CreatePhaseView::MakeDirs { profile_dir } => {
                    &&& made(request, name_is_valid, replies, k, profile_dir)
                    &&& k == 2
                    &&& step.action == (CreateActionView::<E>::MakeDirs {
                        path: landlock_dir_of(dir),
                    })
                },
                CreatePhaseView::Canonical { profile_dir, paths } => {
                    &&& made(request, name_is_valid, replies, k, profile_dir)
                    &&& k == 3 + paths.len()
                    &&& replies[2] is Done
                    &&& paths.len() < request.when_beneath.len()
                    &&& canonical_replies(replies, paths)
                    &&& step.action is Canonicalize
                },
                CreatePhaseView::WriteProfile { profile_dir, paths } => {
                    &&& made(request, name_is_valid, replies, k, profile_dir)
                    &&& k == 3 + request.when_beneath.len()
                    &&& replies[2] is Done
                    &&& paths.len() == request.when_beneath.len()
                    &&& canonical_replies(replies, paths)
                    &&& step.action == (CreateActionView::<E>::WriteFile {
                        path: entry(dir, "profile.toml"@),
                        content: profile_content_of(paths),
                    })
                },
                CreatePhaseView::WriteRules { profile_dir, paths } => {
                    &&& made(request, name_is_valid, replies, k, profile_dir)
                    &&& k == 4 + request.when_beneath.len()
                    &&& replies[2] is Done
                    &&& replies[k - 1] is Done
                    &&& paths.len() == request.when_beneath.len()
                    &&& canonical_replies(replies, paths)
                    &&& step.action == (CreateActionView::<E>::WriteDefaultRules {
                        path: entry(landlock_dir_of(dir), "island-default-base.toml"@),
                    })
                },
                CreatePhaseView::Finished => ends(step.action),
            }
        }),
    decreases k,
{
    if k > 0 {
        lemma_create(request, name_is_valid, replies, k - 1);
    }
}

/// The name is valid and its directory was found not to exist.
pub(crate) open spec fn made<E>(
    request: CreateRequestView,
    name_is_valid: bool,
    replies: Seq<CreateReplyView<E>>,
    k: int,
    profile_dir: Seq<u8>,
) -> bool {
    &&& name_is_valid
    &&& k >= 2
    &&& replies[0] is Path
    &&& replies[1] == CreateReplyView::<E>::Exists(false)
    &&& profile_dir == profile_dir_of(replies[0]->Path_0, request.name)
}

/// The paths are those that were replied for the request's directories.
pub open spec fn canonical_replies<E>(
    replies: Seq<CreateReplyView<E>>,
    paths: Seq<Seq<u8>>,
) -> bool {
    forall|i: int|
        0 <= i < paths.len() ==> replies[3 + i] == CreateReplyView::<E>::Path(#[trigger] paths[i])
}

/// Nothing is written unless the name is valid and the profile was found not to exist.
pub proof fn nothing_is_overwritten<E>(
    request: CreateRequestView,
    name_is_valid: bool,
    replies: Seq<CreateReplyView<E>>,
    k: int,
)
    requires
        0 <= k <= replies.len(),
        writes(create_step_at(request, name_is_valid, replies, k).action),
    ensures
        name_is_valid,
        k >= 2,
        replies[0] is Path,
        create_step_at(request, name_is_valid, replies, 1).action == (CreateActionView::<
            E,
        >::Probe { path: profile_dir_of(replies[0]->Path_0, request.name) }),
        replies[1] == CreateReplyView::<E>::Exists(false),
{
    lemma_create(request, name_is_valid, replies, k);
    lemma_create(request, name_is_valid, replies, 1);
    lemma_create(request, name_is_valid, replies, 0);
}

/// Success is reported only after the directories and both files were written; the profile's
/// file has an entry for each directory of the request, in order, as it was made canonical.
pub proof fn success_means_written<E>(
    request: CreateRequestView,
    name_is_valid: bool,
    replies: Seq<CreateReplyView<E>>,
    k: int,
) -> (paths: Seq<Seq<u8>>)
    requires
        0 <= k <= replies.len(),
        create_step_at(request, name_is_valid, replies, k).action is Succeed,
    ensures
        name_is_valid,
        k == 5 + request.when_beneath.len(),
        paths.len() == request.when_beneath.len(),
        canonical_replies(replies, paths),
        replies[0] is Path,
        ({
            let dir = profile_dir_of(replies[0]->Path_0, request.name);
            let at = |i: int| create_step_at(request, name_is_valid, replies, i).action;
            &&& at(2) == (CreateActionView::<E>::MakeDirs { path: landlock_dir_of(dir) })
            &&& at(k - 2) == (CreateActionView::<E>::WriteFile {
                path: entry(dir, "profile.toml"@),
                content: profile_content_of(paths),
            })
            &&& at(k - 1) == (CreateActionView::<E>::WriteDefaultRules {
                path: entry(landlock_dir_of(dir), "island-default-base.toml"@),
            })
        }),
        replies[2] is Done,
        replies[k - 2] is Done,
        replies[k - 1] is Done,
{
    lemma_create(request, name_is_valid, replies, k - 1);
    lemma_create(request, name_is_valid, replies, k - 2);
    lemma_create(request, name_is_valid, replies, 2);
    lemma_create(request, name_is_valid, replies, 1);
    let before = create_step_at(request, name_is_valid, replies, k - 1).creation.phase;
    let written = create_step_at(request, name_is_valid, replies, k - 2).creation.phase;
    lemma_not_finished(request, name_is_valid, replies, 2, k - 1);
    before->WriteRules_paths
}

proof fn lemma_not_finished<E>(
    request: CreateRequestView,
    name_is_valid: bool,
    replies: Seq<CreateReplyView<E>>,
    j: int,
    k: int,
)
    requires
        0 <= j <= k <= replies.len(),
        !(create_step_at(request, name_is_valid, replies, k).creation.phase is Finished),
    ensures
        !(create_step_at(request, name_is_valid, replies, j).creation.phase is Finished),
    decreases k - j,
{
    if j < k {
        lemma_not_finished(request, name_is_valid, replies, j + 1, k);
    }
}

/// A failure ends the creation with that failure, and nothing more is written.
pub proof fn failure_ends_the_creation<E>(
    request: CreateRequestView,
    name_is_valid: bool,
    replies: Seq<CreateReplyView<E>>,
    j: int,
    k: int,
)
    requires
        0 <= j < k <= replies.len(),
        !ends(create_step_at(request, name_is_valid, replies, j).action),
        replies[j] is Failed,
    ensures
        create_step_at(request, name_is_valid, replies, j + 1).action == (CreateActionView::<
            E,
        >::Fail { error: ErrorView::Outside(replies[j]->Failed_0) }),
        create_step_at(request, name_is_valid, replies, k).action is Fail,
    decreases k,
{
    lemma_create(request, name_is_valid, replies, j);
    if k > j + 1 {
        failure_ends_the_creation(request, name_is_valid, replies, j, k - 1);
        lemma_create(request, name_is_valid, replies, k - 1);
    }
}

/// A creation of a valid, new profile succeeds if all that it asks for is done.
pub proof fn answered_creation_succeeds<E>(
    request: CreateRequestView,
    replies: Seq<CreateReplyView<E>>,
    paths: Seq<Seq<u8>>,
)
    requires
        paths.len() == request.when_beneath.len(),
        replies.len() >= 5 + paths.len(),
        replies[0] is Path,
        replies[1] == CreateReplyView::<E>::Exists(false),
        replies[2] is Done,
        canonical_replies(replies, paths),
        replies[3 + paths.len() as int] is Done,
        replies[4 + paths.len() as int] is Done,
    ensures
        create_step_at(request, true, replies, 5 + paths.len() as int).action == (CreateActionView::<
            E,
        >::Succeed {
            lines: created_texts(
                request.name,
                lossy_form(profile_dir_of(replies[0]->Path_0, request.name)),
                paths.map_values(|p: Seq<u8>| lossy_form(p)),
            ),
        }),
{
    let n = paths.len() as int;
    let dir = profile_dir_of(replies[0]->Path_0, request.name);
    lemma_paths_known(request, replies, paths, n);
    assert(paths.take(n) =~= paths);
    let written = create_step_at(request, true, replies, 3 + n);
    assert(written.creation.phase == (CreatePhaseView::WriteProfile { profile_dir: dir, paths }));
    let ruled = create_step_at(request, true, replies, 4 + n);
    assert(ruled == next_create_step(written.creation, replies[3 + n]));
}

proof fn lemma_paths_known<E>(
    request: CreateRequestView,
    replies: Seq<CreateReplyView<E>>,
    paths: Seq<Seq<u8>>,
    i: int,
)
    requires
        paths.len() == request.when_beneath.len(),
        replies.len() >= 3 + paths.len(),
        replies[0] is Path,
        replies[1] == CreateReplyView::<E>::Exists(false),
        replies[2] is Done,
        canonical_replies(replies, paths),
        0 <= i <= paths.len(),
    ensures
        create_step_at(request, true, replies, 3 + i) == create_step_with::<E>(
            CreationView { request, phase: CreatePhaseView::ConfigDir },
            profile_dir_of(replies[0]->Path_0, request.name),
            paths.take(i),
        ),
    decreases i,
{
    if i == 0 {
        reveal_with_fuel(create_step_at, 4);
        assert(paths.take(0) =~= seq![]);
    } else {
        lemma_paths_known(request, replies, paths, i - 1);
        assert(paths.take(i) =~= paths.take(i - 1).push(paths[i - 1]));
        assert(replies[3 + (i - 1)] == CreateReplyView::<E>::Path(paths[i - 1]));
    }
}

} // verus!
