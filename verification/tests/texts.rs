//! Text, variables and the smaller commands.
use island::commands::{
    hook_script, resolve_profiles, shown, status_report, update_query, HookShell, ProfileQuery,
    Shown, UpdateQuery,
};
use island::environment::Environment;
use island::error::{ErrorKind, IslandError};
use island::path::FilePath;
use island::run::Line;
use island::text::{
    bracketed_text, concat_texts, debug_list_text, decimal_text, join_texts, path_text,
};

fn strings(list: &[&str]) -> Vec<String> {
    list.iter().map(|t| t.to_string()).collect()
}

#[test]
fn decimals() {
    for n in [0usize, 1, 9, 10, 11, 99, 100, 12345, usize::MAX] {
        assert_eq!(decimal_text(n), n.to_string());
    }
}

#[test]
fn joining() {
    assert_eq!(join_texts(&strings(&[]), ", "), "");
    assert_eq!(join_texts(&strings(&["a"]), ", "), "a");
    assert_eq!(join_texts(&strings(&["a", "", "b"]), ", "), "a, , b");
    assert_eq!(concat_texts("a", "b"), "ab");
    assert_eq!(bracketed_text(&strings(&["a", "b"])), "[a, b]");
}

#[test]
fn debug_lists_are_quoted() {
    let list = strings(&["a", "b\"c", "d\n"]);
    assert_eq!(debug_list_text(&list), format!("{:?}", list));
    assert_eq!(debug_list_text(&strings(&[])), "[]");
}

#[test]
fn plain_texts_are_quoted_as_they_are() {
    for c in ' '..='~' {
        if c != '"' && c != '\\' {
            let text = format!("a{}b", c);
            assert_eq!(debug_list_text(&vec![text.clone()]), format!("[\"{}\"]", text));
        }
    }
    assert_eq!(debug_list_text(&strings(&["", "it's"])), "[\"\", \"it's\"]");
    assert_eq!(debug_list_text(&strings(&["\"", "\\"])), "[\"\\\"\", \"\\\\\"]");
}

#[test]
fn paths_are_shown() {
    assert_eq!(path_text(&FilePath::from_text("/a/\u{e9}")), "/a/\u{e9}");
    assert_eq!(path_text(&FilePath::new(vec![47, 128])), "/\u{fffd}");
}

#[test]
fn later_variables_win_and_names_are_sorted() {
    let mut env = Environment::new();
    env.insert("B".to_string(), "1".to_string());
    env.insert("A".to_string(), "2".to_string());
    env.insert("B".to_string(), "3".to_string());
    env.insert("\u{e9}".to_string(), "4".to_string());
    env.insert("AA".to_string(), "5".to_string());
    let vars: Vec<(&str, &str)> =
        env.vars().iter().map(|v| (v.name.as_str(), v.literal.as_str())).collect();
    assert_eq!(vars, vec![("A", "2"), ("AA", "5"), ("B", "3"), ("\u{e9}", "4")]);
}

#[test]
fn variables_are_ordered_as_in_std() {
    let names = ["z", "", "a", "Z", "\u{10ffff}", "\u{ffff}", "ab", "a b", "a_b", "a"];
    let mut env = Environment::new();
    let mut theirs: std::collections::BTreeMap<String, String> = std::collections::BTreeMap::new();
    for (i, name) in names.iter().enumerate() {
        env.insert(name.to_string(), i.to_string());
        theirs.insert(name.to_string(), i.to_string());
    }
    let ours: Vec<(String, String)> =
        env.vars().iter().map(|v| (v.name.clone(), v.literal.clone())).collect();
    let expected: Vec<(String, String)> = theirs.into_iter().collect();
    assert_eq!(ours, expected);
}

#[test]
fn explicit_profiles() {
    match resolve_profiles(&strings(&["web", "dev"])) {
        (ProfileQuery::Named(names), Some(Line::Verbose(text))) => {
            assert_eq!(names, strings(&["web", "dev"]));
            assert_eq!(text, "Using explicit profiles: [\"web\", \"dev\"]");
        }
        _ => panic!("the names are lost"),
    }
}

#[test]
fn profiles_of_the_current_directory() {
    assert!(matches!(resolve_profiles(&vec![]), (ProfileQuery::CurrentDirectory, None)));
}

#[test]
fn updates() {
    assert!(matches!(update_query(&strings(&["a"]), true), (UpdateQuery::All, None)));
    assert!(matches!(
        update_query(&vec![], false),
        (UpdateQuery::Resolved(ProfileQuery::CurrentDirectory), None)
    ));
    match update_query(&strings(&["a"]), false) {
        (UpdateQuery::Resolved(ProfileQuery::Named(names)), Some(_)) => {
            assert_eq!(names, strings(&["a"]))
        }
        _ => panic!("the names are lost"),
    }
}

#[test]
fn status_with_profiles() {
    let r: Result<String, IslandError<u8>> = status_report(&strings(&["web", "dev"]));
    assert_eq!(r.ok(), Some("web\ndev".to_string()));
}

#[test]
fn status_without_profiles() {
    let r: Result<String, IslandError<u8>> = status_report(&vec![]);
    match r {
        Err(IslandError::Io { kind, message }) => {
            assert_eq!(kind, ErrorKind::NotFound);
            assert_eq!(message, "No profile found for the current directory");
        }
        _ => panic!("no error"),
    }
}

#[test]
fn hooks() {
    assert_eq!(hook_script(HookShell::Zsh, false, "script"), "script");
    assert_eq!(hook_script(HookShell::Zsh, true, "script"), "_island_unhook 2>/dev/null || :");
}

#[test]
fn where_lines_are_shown() {
    assert_eq!(shown(&Line::Verbose("a".to_string()), true), Shown::Output);
    assert_eq!(shown(&Line::Verbose("a".to_string()), false), Shown::Nowhere);
    assert_eq!(shown(&Line::Warning("a".to_string()), false), Shown::Errors);
    assert_eq!(shown(&Line::Warning("a".to_string()), true), Shown::Errors);
}
