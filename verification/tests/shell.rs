use jsh::external::{contains_char, first_accepted, join, CommandLoader};
use jsh::shell::{
    builtins, history_file_path, lookup_builtin, lookup_env, str_eq, BuiltinKind,
    ResolvedCommand, Shell,
};

fn env(pairs: &[(&str, &str)]) -> Vec<(String, String)> {
    pairs.iter().map(|(k, v)| (k.to_string(), v.to_string())).collect()
}

#[test]
fn a_new_shell_has_no_exit_request() {
    let mut shell = Shell::new("/home".into(), env(&[("A", "1")]), builtins());
    assert_eq!(shell.current_dir(), "/home");
    assert_eq!(shell.env("A"), Some("1"));
    assert_eq!(shell.env("B"), None);
    assert_eq!(shell.last_status(), 0);
    assert!(!shell.exit_requested());
    shell.request_exit(3);
    assert!(shell.exit_requested());
    assert_eq!(shell.exit_code(), Some(3));
    shell.set_current_dir("/tmp".into());
    shell.set_last_status(9);
    assert_eq!(shell.current_dir(), "/tmp");
    assert_eq!(shell.last_status(), 9);
    assert_eq!(shell.environment().len(), 1);
}

#[test]
fn a_forked_subshell_copies_the_session_without_the_exit_request() {
    let mut shell = Shell::new("/home".into(), env(&[("PATH", "/bin")]), builtins());
    shell.set_last_status(4);
    shell.request_exit(1);
    let child = shell.forked_subshell();
    assert_eq!(child.current_dir(), "/home");
    assert_eq!(child.env("PATH"), Some("/bin"));
    assert_eq!(child.last_status(), 4);
    assert!(!child.exit_requested());
    assert_eq!(child.resolve_command("cd"), Some(ResolvedCommand::Builtin(BuiltinKind::Cd)));
}

#[test]
fn the_last_binding_of_a_name_wins() {
    let e = env(&[("X", "first"), ("X", "second")]);
    assert_eq!(lookup_env(&e, "X"), Some("second"));
    let table = vec![
        ("x".to_owned(), BuiltinKind::Echo),
        ("x".to_owned(), BuiltinKind::Pwd),
    ];
    assert_eq!(lookup_builtin(&table, "x"), Some(BuiltinKind::Pwd));
    assert_eq!(lookup_builtin(&table, "y"), None);
    assert!(str_eq("abc", "abc"));
    assert!(!str_eq("abc", "abd"));
}

#[test]
fn builtins_come_before_external_commands() {
    let shell = Shell::new("/".into(), env(&[("PATH", "/bin")]), builtins());
    assert_eq!(shell.resolve_command("echo"), Some(ResolvedCommand::Builtin(BuiltinKind::Echo)));
    assert_eq!(
        shell.resolve_command("sh"),
        Some(ResolvedCommand::External("/bin/sh".into()))
    );
    assert_eq!(shell.resolve_command("definitely-not-a-command"), None);
}

#[test]
fn joining_paths_follows_unix_rules() {
    assert_eq!(join("/a", "b"), "/a/b");
    assert_eq!(join("/a/", "b"), "/a/b");
    assert_eq!(join("/a", "/b"), "/b");
    assert_eq!(join("", "b"), "b");
    assert!(contains_char("./x", '/'));
    assert!(!contains_char("x", '/'));
}

#[test]
fn names_with_a_slash_are_resolved_against_the_current_directory() {
    let loader = CommandLoader::new(Some("/nonexistent"));
    assert_eq!(loader.find_executable("sh", "/bin"), None);
    assert_eq!(loader.find_executable("./sh", "/bin"), Some("/bin/./sh".into()));
    assert_eq!(loader.find_executable("/bin/sh", "/tmp"), Some("/bin/sh".into()));
    assert_eq!(loader.find_executable("./missing-file", "/bin"), None);
}

#[test]
fn relative_search_directories_use_the_current_directory() {
    let loader = CommandLoader::new(Some("bin"));
    assert_eq!(loader.find_executable("sh", "/"), Some("/bin/sh".into()));
    let copy = loader.copy();
    assert_eq!(copy.find_executable("sh", "/"), Some("/bin/sh".into()));
    let empty = CommandLoader::new(None);
    assert_eq!(empty.find_executable("sh", "/"), None);
}

#[test]
fn a_directory_is_not_an_executable() {
    let loader = CommandLoader::new(Some("/"));
    assert_eq!(loader.find_executable("bin", "/"), None);
}

#[test]
fn history_file_follows_histfile() {
    assert_eq!(
        history_file_path(None, "/cwd", Some("/home/u")),
        Some("/home/u/.jsh_history".into())
    );
    assert_eq!(history_file_path(Some(""), "/cwd", Some("/home/u")), None);
    assert_eq!(
        history_file_path(Some("hist"), "/cwd", Some("/home/u")),
        Some("/cwd/hist".into())
    );
    assert_eq!(
        history_file_path(Some("/var/h"), "/cwd", None),
        Some("/var/h".into())
    );
    assert_eq!(history_file_path(None, "/cwd", None), None);
}

#[test]
fn candidates_come_in_search_order() {
    let loader = CommandLoader::new(Some("/usr/bin:bin:/opt/x/"));
    assert_eq!(
        loader.candidate_paths("tool", "/home/u"),
        vec![
            "/usr/bin/tool".to_owned(),
            "/home/u/bin/tool".to_owned(),
            "/opt/x/tool".to_owned()
        ]
    );
    assert_eq!(loader.candidate_paths("./tool", "/home/u"), vec!["/home/u/./tool".to_owned()]);
}

#[test]
fn the_first_accepted_place_wins() {
    let places = vec!["/a/x".to_owned(), "/b/x".to_owned(), "/c/x".to_owned()];
    assert_eq!(first_accepted(&places, &vec![false, true, true]), Some("/b/x".to_owned()));
    assert_eq!(first_accepted(&places, &vec![false, false]), None);
    assert_eq!(first_accepted(&places, &vec![]), None);
    assert_eq!(first_accepted(&places, &vec![true]), Some("/a/x".to_owned()));
}
