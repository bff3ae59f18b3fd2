//! Running a command.
use island::dependency::{DependencyTree, Library};
use island::environment::{EnvVar, Environment};
use island::error::{ErrorKind, IslandError};
use island::path::FilePath;
use island::run::{
    resume, run, AccessRights, Line, Profile, RunAction, RunReply, RunRequest, RunStep,
};

fn path(text: &str) -> FilePath {
    FilePath::from_text(text)
}

fn text(path: &FilePath) -> String {
    String::from_utf8(path.bytes.clone()).unwrap()
}

fn profile(name: &str, vars: &[(&str, &str)]) -> Profile {
    Profile {
        name: name.to_string(),
        env_vars: vars
            .iter()
            .map(|(n, l)| EnvVar { name: n.to_string(), literal: l.to_string() })
            .collect(),
    }
}

fn request(profiles: Vec<Profile>, command: &[&str], ignore: bool, no_ldd: bool) -> RunRequest {
    RunRequest {
        profiles,
        command: command.iter().map(|c| c.to_string()).collect(),
        ignore_missing_profile: ignore,
        no_ldd,
    }
}

fn lines(step: &RunStep<u8>) -> Vec<String> {
    step.lines
        .iter()
        .map(|l| match l {
            Line::Verbose(t) => t.clone(),
            Line::Warning(t) => format!("! {}", t),
        })
        .collect()
}

fn found(name: &str, realpath: &str) -> Library {
    Library {
        name: name.to_string(),
        path: path(realpath),
        realpath: Some(path(realpath)),
        runpath: vec![],
        rpath: vec![],
    }
}

fn missing(name: &str) -> Library {
    Library {
        name: name.to_string(),
        path: path(name),
        realpath: None,
        runpath: vec![],
        rpath: vec![],
    }
}

fn tree(libraries: Vec<Library>) -> DependencyTree {
    DependencyTree { runpath: vec![], rpath: vec![], libraries }
}

fn reply(step: RunStep<u8>, r: RunReply<u8>) -> RunStep<u8> {
    resume(step.run, r)
}

#[test]
fn no_profile_is_refused() {
    let step: RunStep<u8> = run(request(vec![], &["sh"], false, false));
    assert_eq!(lines(&step), vec!["Using 0 profile(s): "]);
    match step.action {
        RunAction::Finish { error: IslandError::Io { kind, message } } => {
            assert_eq!(kind, ErrorKind::UnexpectedEof);
            assert_eq!(message, "No profile provided");
        }
        _ => panic!("not refused"),
    }
}

#[test]
fn no_profile_can_be_ignored() {
    let step: RunStep<u8> = run(request(vec![], &["sh", "-c"], true, false));
    assert_eq!(
        lines(&step),
        vec!["Using 0 profile(s): ", "No profile found, executing without sandbox"]
    );
    match &step.action {
        RunAction::ExecuteUnsandboxed { command } => assert_eq!(command, &vec!["sh", "-c"]),
        _ => panic!("not executed"),
    }
    let step = reply(step, RunReply::Failed(2));
    assert!(matches!(step.action, RunAction::Finish { error: IslandError::Outside(2) }));
}

#[test]
fn a_run_with_two_profiles() {
    let profiles = vec![
        profile("all", &[("A", "1"), ("B", "1")]),
        profile("web", &[("B", "2")]),
    ];
    let step: RunStep<u8> = run(request(profiles, &["sh", "-l"], true, false));
    assert_eq!(lines(&step), vec!["Using 2 profile(s): all, web"]);
    assert!(matches!(step.action, RunAction::OpenWorkspace { profile: 1 }));

    let step = reply(step, RunReply::Done);
    match &step.action {
        RunAction::FindCommand { name } => assert_eq!(name, "sh"),
        _ => panic!("no lookup"),
    }
    let step = reply(step, RunReply::Path(path("/bin/sh")));
    match &step.action {
        RunAction::Canonicalize { path } => assert_eq!(text(path), "/bin/sh"),
        _ => panic!("not canonicalized"),
    }
    let step = reply(step, RunReply::Path(path("/usr/bin/dash")));
    assert_eq!(lines(&step), vec!["Resolved command path: /usr/bin/dash"]);
    match &step.action {
        RunAction::AnalyzeDependencies { command_path, library_paths } => {
            assert_eq!(text(command_path), "/usr/bin/dash");
            assert!(library_paths.is_empty());
        }
        _ => panic!("not analyzed"),
    }
    let step = reply(
        step,
        RunReply::Dependencies(tree(vec![found("liba.so", "/a/liba.so"), missing("libb.so")])),
    );
    assert!(step.lines.is_empty());
    match &step.action {
        RunAction::AnalyzeDependencies { command_path, library_paths } => {
            assert_eq!(text(command_path), "/usr/bin/dash");
            assert_eq!(library_paths.iter().map(text).collect::<Vec<_>>(), vec!["/a"]);
        }
        _ => panic!("not analyzed again"),
    }
    let step = reply(
        step,
        RunReply::Dependencies(tree(vec![found("liba.so", "/a/liba.so"), missing("libb.so")])),
    );
    assert_eq!(
        lines(&step),
        vec![
            "! Warning: could not resolve library path for libb.so: libb.so",
            "Allowing dependency path: /usr/bin/dash",
            "Allowing dependency path: /a/liba.so"
        ]
    );

    let mut step = step;
    for i in 0..2usize {
        match &step.action {
            RunAction::BuildRuleset { profile } => assert_eq!(*profile, i),
            _ => panic!("no ruleset"),
        }
        step = reply(
            step,
            RunReply::RulesetBuilt { warnings: vec!["no /x".to_string()] },
        );
        assert_eq!(lines(&step), vec!["! Warning: no /x"]);
        match &step.action {
            RunAction::AllowWorkspace { profile } => assert_eq!(*profile, i),
            _ => panic!("no workspace"),
        }
        step = reply(step, RunReply::Done);
        match &step.action {
            RunAction::AllowPaths { profile, paths, rights } => {
                assert_eq!(*profile, i);
                assert_eq!(
                    paths.iter().map(text).collect::<Vec<_>>(),
                    vec!["/usr/bin/dash", "/a/liba.so"]
                );
                assert_eq!(*rights, AccessRights { read_file: true, execute: true });
            }
            _ => panic!("no paths"),
        }
        step = reply(step, RunReply::Done);
        match &step.action {
            RunAction::RestrictSelf { profile } => assert_eq!(*profile, i),
            _ => panic!("not restricted"),
        }
        step = reply(step, RunReply::Done);
        if i == 0 {
            assert_eq!(lines(&step), vec!["Setting A=1", "Setting B=1"]);
        } else {
            assert_eq!(lines(&step), vec!["Setting B=2"]);
        }
    }
    let mut environment = Environment::new();
    match &step.action {
        RunAction::SetWorkspaceVariables { environment: e } => {
            let vars: Vec<(&str, &str)> =
                e.vars().iter().map(|v| (v.name.as_str(), v.literal.as_str())).collect();
            assert_eq!(vars, vec![("A", "1"), ("B", "2")]);
            for v in e.vars() {
                environment.insert(v.name.clone(), v.literal.clone());
            }
        }
        _ => panic!("no variables"),
    }
    environment.insert("W".to_string(), "/w".to_string());
    let step = reply(step, RunReply::Environment(environment));
    assert_eq!(lines(&step), vec!["Executing: sh"]);
    match &step.action {
        RunAction::Execute { command, environment } => {
            assert_eq!(command, &vec!["sh", "-l"]);
            let vars: Vec<(&str, &str)> =
                environment.vars().iter().map(|v| (v.name.as_str(), v.literal.as_str())).collect();
            assert_eq!(vars, vec![("A", "1"), ("B", "2"), ("W", "/w")]);
        }
        _ => panic!("not executed"),
    }
    let step = reply(step, RunReply::Failed(13));
    assert!(matches!(step.action, RunAction::Finish { error: IslandError::Outside(13) }));
    let step = reply(step, RunReply::Done);
    assert!(matches!(step.action, RunAction::Finish { error: IslandError::UnexpectedReply }));
}

#[test]
fn an_absolute_command_is_not_looked_up() {
    let step: RunStep<u8> = run(request(vec![profile("p", &[])], &["/bin/ls"], false, true));
    let step = reply(step, RunReply::Done);
    match &step.action {
        RunAction::Canonicalize { path } => assert_eq!(text(path), "/bin/ls"),
        _ => panic!("not canonicalized"),
    }
    let step = reply(step, RunReply::Path(path("/usr/bin/ls")));
    assert_eq!(
        lines(&step),
        vec![
            "Resolved command path: /usr/bin/ls",
            "Skipping shared-library dependency resolution (--no-ldd)",
            "Allowing dependency path: /usr/bin/ls"
        ]
    );
    assert!(matches!(step.action, RunAction::BuildRuleset { profile: 0 }));
}

#[test]
fn every_failure_ends_the_run() {
    let replies: Vec<fn() -> RunReply<u8>> = vec![
        || RunReply::Done,
        || RunReply::Path(path("/bin/sh")),
        || RunReply::Path(path("/bin/sh")),
        || RunReply::Dependencies(tree(vec![])),
        || RunReply::RulesetBuilt { warnings: vec![] },
        || RunReply::Done,
        || RunReply::Done,
        || RunReply::Done,
        || RunReply::Environment(Environment::new()),
    ];
    for k in 0..=replies.len() {
        let mut step: RunStep<u8> = run(request(vec![profile("p", &[])], &["sh"], false, false));
        for r in replies.iter().take(k) {
            step = reply(step, r());
        }
        assert_eq!(matches!(step.action, RunAction::Execute { .. }), k == replies.len());
        step = reply(step, RunReply::Failed(5));
        assert!(matches!(step.action, RunAction::Finish { error: IslandError::Outside(5) }));
    }
}

#[test]
fn a_reply_of_another_kind_ends_the_run() {
    let step: RunStep<u8> = run(request(vec![profile("p", &[])], &["sh"], false, false));
    let step = reply(step, RunReply::Path(path("/bin/sh")));
    assert!(matches!(step.action, RunAction::Finish { error: IslandError::UnexpectedReply }));
}
