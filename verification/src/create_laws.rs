//! What every step of a creation asks for, by what was asked for and replied before, and what
//! a profile's file holds.
use crate::create::{
    canonical_replies, context_entry, create_step_at, created_texts, lemma_create,
    plain_profile_content, profile_content_of, profile_entries, quoted_path, CreateActionView,
    CreateReplyView, CreateRequestView,
};
use crate::error::{ErrorKind, ErrorView};
use crate::path::joined_path;
use crate::text::{joined, lossy_form, toml_string_form};
use crate::text_laws::{few_parts_joined, joining_splits};
use vstd::prelude::*;
use vstd::utf8::{decode_utf8, encode_utf8};

verus! {

// ---- The profile file ----

/// A profile without entries is an empty line; one entry has its value behind the key; and two
/// profiles together are both, with an empty line between them.
pub proof fn profiles_are_made_of_entries(a: Seq<Seq<char>>, b: Seq<Seq<char>>, value: Seq<char>)
    ensures
        profile_entries(seq![]) == "\n"@,
        profile_entries(seq![value]) == "[[context]]\nwhen_beneath = "@ + value + "\n"@,
        a.len() > 0 && b.len() > 0 ==> profile_entries(a + b) == profile_entries(a) + "\n"@
            + profile_entries(b),
{
    reveal_strlit("\n");
    reveal_strlit("\n\n");
    assert("\n\n"@ =~= "\n"@ + "\n"@);
    let entry = |v: Seq<char>| "[[context]]\nwhen_beneath = "@ + v;
    few_parts_joined(entry(value), "\n\n"@);
    let none = Seq::<Seq<char>>::empty();
    assert(none.map_values(entry) =~= seq![]);
    assert(joined(seq![], "\n\n"@) + "\n"@ =~= "\n"@);
    assert(seq![value].map_values(entry) =~= seq![entry(value)]);
    lemma_entries(none);
    lemma_entries(seq![value]);
    if a.len() > 0 && b.len() > 0 {
        lemma_entries(a);
        lemma_entries(b);
        lemma_entries(a + b);
        assert((a + b).map_values(entry) =~= a.map_values(entry) + b.map_values(entry));
        joining_splits(a.map_values(entry), b.map_values(entry), "\n\n"@);
        assert(profile_entries(a + b) =~= profile_entries(a) + "\n"@ + profile_entries(b));
    }
}

proof fn lemma_entries(values: Seq<Seq<char>>)
    ensures
        profile_entries(values) == joined(
            values.map_values(|v: Seq<char>| "[[context]]\nwhen_beneath = "@ + v),
            "\n\n"@,
        ) + "\n"@,
{
    assert(values.map_values(|v: Seq<char>| context_entry(v))
        =~= values.map_values(|v: Seq<char>| "[[context]]\nwhen_beneath = "@ + v));
}

/// The values of a profile's entries are its paths, in order: each as a TOML string or, where
/// all are plain, between double quotes.
pub proof fn profiles_hold_their_paths(paths: Seq<Seq<u8>>)
    ensures
        profile_content_of(paths) == profile_entries(
            Seq::new(paths.len(), |i: int| toml_string_form(lossy_form(paths[i]))),
        ),
        plain_profile_content(paths) == profile_entries(
            Seq::new(paths.len(), |i: int| seq!['"'] + decode_utf8(paths[i]) + seq!['"']),
        ),
{
    assert(paths.map_values(|p: Seq<u8>| toml_string_form(lossy_form(p))) =~= Seq::new(
        paths.len(),
        |i: int| toml_string_form(lossy_form(paths[i])),
    ));
    assert(paths.map_values(|p: Seq<u8>| quoted_path(p)) =~= Seq::new(
        paths.len(),
        |i: int| seq!['"'] + decode_utf8(paths[i]) + seq!['"'],
    ));
}

// ---- The steps ----

/// A creation begins with the directory of the configuration, unless the name is invalid: then
/// it is refused.
pub proof fn creations_begin<E>(
    request: CreateRequestView,
    name_is_valid: bool,
    replies: Seq<CreateReplyView<E>>,
)
    ensures
        create_step_at(request, name_is_valid, replies, 0).action == if name_is_valid {
            CreateActionView::<E>::FindConfigDir
        } else {
            CreateActionView::<E>::Fail {
                error: ErrorView::Io {
                    kind: ErrorKind::InvalidInput,
                    message: "Invalid profile name "@ + "\""@ + request.name + "\""@,
                },
            }
        },
{
    reveal_strlit("");
    let message = "Invalid profile name "@ + "\""@ + request.name + "\""@;
    assert(message + ""@ =~= message);
}

/// The directory of the configuration is known: it is looked whether that of the profile
/// exists, which is named like the profile and lies in `profiles`.
pub proof fn profile_directory_is_looked_for<E>(
    request: CreateRequestView,
    name_is_valid: bool,
    replies: Seq<CreateReplyView<E>>,
    k: int,
)
    requires
        0 <= k < replies.len(),
        create_step_at(request, name_is_valid, replies, k).action is FindConfigDir,
        replies[k] is Path,
    ensures
        k == 0,
        create_step_at(request, name_is_valid, replies, 1).action == (CreateActionView::<
            E,
        >::Probe {
            path: joined_path(
                joined_path(replies[0]->Path_0, encode_utf8("profiles"@)),
                encode_utf8(request.name),
            ),
        }),
{
    lemma_create(request, name_is_valid, replies, k);
}

/// A profile that exists is refused; the directories of a new one are made, down to
/// `landlock`.
pub proof fn only_new_profiles_are_made<E>(
    request: CreateRequestView,
    name_is_valid: bool,
    replies: Seq<CreateReplyView<E>>,
    k: int,
    path: Seq<u8>,
)
    requires
        0 <= k < replies.len(),
        create_step_at(request, name_is_valid, replies, k).action == (CreateActionView::<
            E,
        >::Probe { path }),
        replies[k] is Exists,
    ensures
        k == 1,
        create_step_at(request, name_is_valid, replies, 2).action == if replies[1]->Exists_0 {
            CreateActionView::<E>::Fail {
                error: ErrorView::Io {
                    kind: ErrorKind::AlreadyExists,
                    message: "Profile "@ + "\""@ + request.name + "\""@ + " already exists"@,
                },
            }
        } else {
            CreateActionView::<E>::MakeDirs { path: joined_path(path, encode_utf8("landlock"@)) }
        },
{
    lemma_create(request, name_is_valid, replies, k);
}

/// What is asked to be made canonical at step `k` is the directory of the request with that
/// number, counted from the third step, and nothing else.
pub proof fn only_directories_are_made_canonical<E>(
    request: CreateRequestView,
    name_is_valid: bool,
    replies: Seq<CreateReplyView<E>>,
    k: int,
)
    requires
        0 <= k <= replies.len(),
        create_step_at(request, name_is_valid, replies, k).action is Canonicalize,
    ensures
        3 <= k < 3 + request.when_beneath.len(),
        create_step_at(request, name_is_valid, replies, k).action == (CreateActionView::<
            E,
        >::Canonicalize { path: encode_utf8(request.when_beneath[k - 3]) }),
{
    lemma_create(request, name_is_valid, replies, k);
    lemma_create(request, name_is_valid, replies, k - 1);
}

/// With the directories made, and the first `i` directories of the request made canonical, the
/// next one is asked to be; after the last one the profile's file is written, with what was
/// replied for each of them.
pub proof fn directories_are_made_canonical<E>(
    request: CreateRequestView,
    name_is_valid: bool,
    replies: Seq<CreateReplyView<E>>,
    i: int,
)
    requires
        0 <= i <= request.when_beneath.len(),
        3 + i <= replies.len(),
        create_step_at(request, name_is_valid, replies, 2).action is MakeDirs,
        replies[2] is Done,
        forall|j: int| 3 <= j < 3 + i ==> (#[trigger] replies[j]) is Path,
    ensures
        create_step_at(request, name_is_valid, replies, 3 + i).action == if i
            < request.when_beneath.len() {
            CreateActionView::<E>::Canonicalize { path: encode_utf8(request.when_beneath[i]) }
        } else {
            CreateActionView::<E>::WriteFile {
                path: joined_path(
                    joined_path(
                        joined_path(replies[0]->Path_0, encode_utf8("profiles"@)),
                        encode_utf8(request.name),
                    ),
                    encode_utf8("profile.toml"@),
                ),
                content: profile_content_of(
                    Seq::new(
                        request.when_beneath.len(),
                        |j: int| replies[3 + j]->Path_0,
                    ),
                ),
            }
        },
    decreases i,
{
    lemma_create(request, name_is_valid, replies, 2);
    lemma_create(request, name_is_valid, replies, 3 + i);
    if i > 0 {
        directories_are_made_canonical(request, name_is_valid, replies, i - 1);
        lemma_create(request, name_is_valid, replies, 2 + i);
        assert(replies[2 + i] is Path);
    }
    let step = create_step_at(request, name_is_valid, replies, 3 + i);
    if i < request.when_beneath.len() {
        assert(step.action is Canonicalize);
        only_directories_are_made_canonical(request, name_is_valid, replies, 3 + i);
    } else {
        let paths = step.creation.phase->WriteProfile_paths;
        lemma_replied(replies, paths);
    }
}

proof fn lemma_replied<E>(replies: Seq<CreateReplyView<E>>, paths: Seq<Seq<u8>>)
    requires
        canonical_replies(replies, paths),
    ensures
        paths == Seq::new(paths.len(), |j: int| replies[3 + j]->Path_0),
{
    assert forall|j: int| 0 <= j < paths.len() implies paths[j] == replies[3 + j]->Path_0 by {
        assert(replies[3 + j] == CreateReplyView::<E>::Path(paths[j]));
    }
    assert(paths =~= Seq::new(paths.len(), |j: int| replies[3 + j]->Path_0));
}

/// The profile's file is written: the default rules follow, within `landlock`.
pub proof fn default_rules_follow_the_profile<E>(
    request: CreateRequestView,
    name_is_valid: bool,
    replies: Seq<CreateReplyView<E>>,
    k: int,
)
    requires
        0 <= k < replies.len(),
        create_step_at(request, name_is_valid, replies, k).action is WriteFile,
        replies[k] is Done,
    ensures
        k == 3 + request.when_beneath.len(),
        create_step_at(request, name_is_valid, replies, k + 1).action == (CreateActionView::<
            E,
        >::WriteDefaultRules {
            path: joined_path(
                joined_path(
                    joined_path(
                        joined_path(replies[0]->Path_0, encode_utf8("profiles"@)),
                        encode_utf8(request.name),
                    ),
                    encode_utf8("landlock"@),
                ),
                encode_utf8("island-default-base.toml"@),
            ),
        }),
{
    lemma_create(request, name_is_valid, replies, k);
}

/// The default rules are written: it is said which profile was created where, and to which
/// directories it applies, as they were made canonical.
pub proof fn creation_is_reported<E>(
    request: CreateRequestView,
    name_is_valid: bool,
    replies: Seq<CreateReplyView<E>>,
    k: int,
)
    requires
        0 <= k < replies.len(),
        create_step_at(request, name_is_valid, replies, k).action is WriteDefaultRules,
        replies[k] is Done,
    ensures
        k == 4 + request.when_beneath.len(),
        create_step_at(request, name_is_valid, replies, k + 1).action == (CreateActionView::<
            E,
        >::Succeed {
            lines: seq![
                "Created profile "@ + "\""@ + request.name + "\""@ + " in "@ + lossy_form(
                    joined_path(
                        joined_path(replies[0]->Path_0, encode_utf8("profiles"@)),
                        encode_utf8(request.name),
                    ),
                ),
                "It applies to:"@,
            ] + Seq::new(
                request.when_beneath.len(),
                |j: int| "- "@ + lossy_form(replies[3 + j]->Path_0),
            ),
        }),
{
    lemma_create(request, name_is_valid, replies, k);
    let paths = create_step_at(
        request,
        name_is_valid,
        replies,
        k,
    ).creation.phase->WriteRules_paths;
    lemma_replied(replies, paths);
    let dir = joined_path(
        joined_path(replies[0]->Path_0, encode_utf8("profiles"@)),
        encode_utf8(request.name),
    );
    created_texts_are_said(
        request.name,
        lossy_form(dir),
        paths.map_values(|p: Seq<u8>| lossy_form(p)),
    );
    assert forall|j: int| 0 <= j < paths.len() implies paths[j] == replies[3 + j]->Path_0 by {
        assert(replies[3 + j] == CreateReplyView::<E>::Path(paths[j]));
    }
    let shown = paths.map_values(|p: Seq<u8>| lossy_form(p));
    assert(Seq::new(shown.len(), |i: int| "- "@ + shown[i]) =~= Seq::new(
        request.when_beneath.len(),
        |j: int| "- "@ + lossy_form(replies[3 + j]->Path_0),
    ));
}

/// What is said of a profile that was created: its name between double quotes and where it is,
/// and each of its paths on a line of its own.
pub proof fn created_texts_are_said(
    name: Seq<char>,
    profile_dir: Seq<char>,
    paths: Seq<Seq<char>>,
)
    ensures
        created_texts(name, profile_dir, paths) == seq![
            "Created profile "@ + "\""@ + name + "\""@ + " in "@ + profile_dir,
            "It applies to:"@,
        ] + Seq::new(paths.len(), |i: int| "- "@ + paths[i]),
{
    let first = "Created profile "@ + "\""@ + name + "\""@ + " in "@ + profile_dir;
    assert("Created profile "@ + "\""@ + name + "\""@ + (" in "@ + profile_dir) =~= first);
    assert(paths.map_values(|p: Seq<char>| "- "@ + p) =~= Seq::new(
        paths.len(),
        |i: int| "- "@ + paths[i],
    ));
}

/// Whatever does not answer what was asked for ends the creation: a failure with that failure,
/// any other reply as one that was not expected. After the end every reply is one that was not
/// expected.
pub proof fn other_replies_end_the_creation<E>(
    request: CreateRequestView,
    name_is_valid: bool,
    replies: Seq<CreateReplyView<E>>,
    k: int,
)
    requires
        0 <= k < replies.len(),
        !match create_step_at(request, name_is_valid, replies, k).action {
            CreateActionView::FindConfigDir => replies[k] is Path,
            CreateActionView::Probe { path } => replies[k] is Exists,
            CreateActionView::MakeDirs { path } => replies[k] is Done,
            CreateActionView::Canonicalize { path } => replies[k] is Path,
            CreateActionView::WriteFile { path, content } => replies[k] is Done,
            CreateActionView::WriteDefaultRules { path } => replies[k] is Done,
            CreateActionView::Succeed { lines } => false,
            CreateActionView::Fail { error } => false,
        },
    ensures
        ({
            let action = create_step_at(request, name_is_valid, replies, k).action;
            let ended = action is Succeed || action is Fail;
            create_step_at(request, name_is_valid, replies, k + 1).action == (CreateActionView::<
                E,
            >::Fail {
                error: if replies[k] is Failed && !ended {
                    ErrorView::Outside(replies[k]->Failed_0)
                } else {
                    ErrorView::UnexpectedReply
                },
            })
        }),
{
    lemma_create(request, name_is_valid, replies, k);
}

} // verus!
