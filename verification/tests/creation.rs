//! Creating a profile.
use island::create::{
    create, created_lines, profile_content, profile_text, resume_create, CreateAction,
    CreateReply, CreateRequest, CreateStep,
};
use island::error::{ErrorKind, IslandError};
use island::path::FilePath;

fn path(text: &str) -> FilePath {
    FilePath::from_text(text)
}

fn text(path: &FilePath) -> String {
    String::from_utf8(path.bytes.clone()).unwrap()
}

fn request(dirs: &[&str]) -> CreateRequest {
    CreateRequest {
        name: "web".to_string(),
        when_beneath: dirs.iter().map(|d| d.to_string()).collect(),
    }
}

fn begin(dirs: &[&str]) -> CreateStep<u8> {
    create(request(dirs), true)
}

fn reply(step: CreateStep<u8>, r: CreateReply<u8>) -> CreateStep<u8> {
    resume_create(step.creation, r)
}

#[test]
fn profile_file_of_plain_paths() {
    assert_eq!(
        profile_content(&vec![path("/home/me/src"), path("/srv")]),
        "[[context]]\nwhen_beneath = \"/home/me/src\"\n\n[[context]]\nwhen_beneath = \"/srv\"\n"
    );
    assert_eq!(profile_content(&vec![]), "\n");
}

#[test]
fn profile_file_of_other_paths() {
    assert_eq!(
        profile_content(&vec![path("/a\"b")]),
        "[[context]]\nwhen_beneath = '/a\"b'\n"
    );
    assert_eq!(
        profile_content(&vec![path("/a\tb'\"")]),
        "[[context]]\nwhen_beneath = \"\"\"/a\\tb'\"\"\"\"\n"
    );
}

#[test]
fn profile_file_is_read_back() {
    let dirs = ["/home/me", "/a\"b", "/c'd", "/e\\f", "/\u{e9}", "/g\nh", "/i\tj", "/\u{7f}"];
    let content = profile_content(&dirs.iter().map(|d| path(d)).collect());
    let table: toml::Table = content.parse().unwrap();
    let read: Vec<String> = table["context"]
        .as_array()
        .unwrap()
        .iter()
        .map(|c| c["when_beneath"].as_str().unwrap().to_string())
        .collect();
    assert_eq!(read, dirs);
}

#[test]
fn profile_text_of_values() {
    assert_eq!(
        profile_text(&vec!["1".to_string(), "2".to_string()]),
        "[[context]]\nwhen_beneath = 1\n\n[[context]]\nwhen_beneath = 2\n"
    );
}

#[test]
fn report_of_a_created_profile() {
    assert_eq!(
        created_lines("web", "/c/profiles/web", &vec!["/a".to_string(), "/b".to_string()]),
        vec!["Created profile \"web\" in /c/profiles/web", "It applies to:", "- /a", "- /b"]
    );
}

#[test]
fn a_creation_goes_through_all_steps() {
    let step = begin(&[".", "../x"]);
    assert!(matches!(step.action, CreateAction::FindConfigDir));
    let step = reply(step, CreateReply::Path(path("/home/me/.config/island")));
    match &step.action {
        CreateAction::Probe { path } => {
            assert_eq!(text(path), "/home/me/.config/island/profiles/web")
        }
        _ => panic!("no probe"),
    }
    let step = reply(step, CreateReply::Exists(false));
    match &step.action {
        CreateAction::MakeDirs { path } => {
            assert_eq!(text(path), "/home/me/.config/island/profiles/web/landlock")
        }
        _ => panic!("no directories"),
    }
    let step = reply(step, CreateReply::Done);
    match &step.action {
        CreateAction::Canonicalize { path } => assert_eq!(text(path), "."),
        _ => panic!("no path"),
    }
    let step = reply(step, CreateReply::Path(path("/home/me/src")));
    match &step.action {
        CreateAction::Canonicalize { path } => assert_eq!(text(path), "../x"),
        _ => panic!("no path"),
    }
    let step = reply(step, CreateReply::Path(path("/home/me/x")));
    match &step.action {
        CreateAction::WriteFile { path, content } => {
            assert_eq!(text(path), "/home/me/.config/island/profiles/web/profile.toml");
            assert_eq!(
                content,
                "[[context]]\nwhen_beneath = \"/home/me/src\"\n\n[[context]]\nwhen_beneath = \"/home/me/x\"\n"
            );
        }
        _ => panic!("no file"),
    }
    let step = reply(step, CreateReply::Done);
    match &step.action {
        CreateAction::WriteDefaultRules { path } => assert_eq!(
            text(path),
            "/home/me/.config/island/profiles/web/landlock/island-default-base.toml"
        ),
        _ => panic!("no rules"),
    }
    let step = reply(step, CreateReply::Done);
    match &step.action {
        CreateAction::Succeed { lines } => assert_eq!(
            lines,
            &vec![
                "Created profile \"web\" in /home/me/.config/island/profiles/web",
                "It applies to:",
                "- /home/me/src",
                "- /home/me/x"
            ]
        ),
        _ => panic!("no success"),
    }
    let step = reply(step, CreateReply::Done);
    assert!(matches!(step.action, CreateAction::Fail { error: IslandError::UnexpectedReply }));
}

#[test]
fn an_invalid_name_is_refused() {
    let step: CreateStep<u8> = create(request(&["."]), false);
    match step.action {
        CreateAction::Fail { error: IslandError::Io { kind, message } } => {
            assert_eq!(kind, ErrorKind::InvalidInput);
            assert_eq!(message, "Invalid profile name \"web\"");
        }
        _ => panic!("not refused"),
    }
}

#[test]
fn an_existing_profile_is_refused() {
    let step = reply(begin(&["."]), CreateReply::Path(path("/c")));
    let step = reply(step, CreateReply::Exists(true));
    match step.action {
        CreateAction::Fail { error: IslandError::Io { kind, message } } => {
            assert_eq!(kind, ErrorKind::AlreadyExists);
            assert_eq!(message, "Profile \"web\" already exists");
        }
        _ => panic!("not refused"),
    }
}

#[test]
fn a_failure_ends_a_creation() {
    let step = reply(begin(&["."]), CreateReply::Failed(9));
    assert!(matches!(step.action, CreateAction::Fail { error: IslandError::Outside(9) }));
}

#[test]
fn a_reply_of_another_kind_ends_a_creation() {
    let step = reply(begin(&["."]), CreateReply::Done);
    assert!(matches!(step.action, CreateAction::Fail { error: IslandError::UnexpectedReply }));
}
