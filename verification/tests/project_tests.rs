use jarman::project::{
    BuildCommand, BuildOutcome, FileEntry, LogFile, Platform, Project, TaskOutput,
};

fn strings(v: &[&str]) -> Vec<String> {
    v.iter().map(|s| s.to_string()).collect()
}

fn entry(folder: Option<&str>, name: &str, is_file: bool) -> FileEntry {
    let path = match folder {
        Some(f) => format!("/work/{}/{}", f, name),
        None => name.to_string(),
    };
    FileEntry {
        path,
        name: name.to_string(),
        folder: folder.map(|f| f.to_string()),
        is_file,
    }
}

fn project(name: &str, script: &str, shell: &str) -> Project {
    Project { project: name.to_string(), script: script.to_string(), shell: shell.to_string() }
}

#[test]
fn unix_build_scripts_run_under_their_shell() {
    let e = entry(Some("app"), "build.sh", true);
    assert_eq!(
        Project::is_build_script(&e, Platform::Unix),
        Some(project("app", "/work/app/build.sh", "sh"))
    );
    let e = entry(Some("web"), "Build-bash", true);
    assert_eq!(
        Project::is_build_script(&e, Platform::Unix),
        Some(project("web", "/work/web/Build-bash", "bash"))
    );
    let e = entry(Some("cli"), "BUILD.fish", true);
    assert_eq!(
        Project::is_build_script(&e, Platform::Unix),
        Some(project("cli", "/work/cli/BUILD.fish", "fish"))
    );
}

#[test]
fn windows_build_scripts_run_under_cmd() {
    for name in ["build.ps1", "build.bat"] {
        let e = entry(Some("svc"), name, true);
        assert_eq!(
            Project::is_build_script(&e, Platform::Windows),
            Some(project("svc", &format!("/work/svc/{}", name), "cmd"))
        );
    }
    let e = entry(Some("svc"), "build.sh", true);
    assert_eq!(Project::is_build_script(&e, Platform::Windows), None);
}

#[test]
fn other_scripts_are_no_build_scripts() {
    for name in ["build.ps1", "build.bat", "build.txt", "build.Sh", "buildsh", "make.sh", "README"] {
        let e = entry(Some("app"), name, true);
        assert_eq!(Project::is_build_script(&e, Platform::Unix), None, "{}", name);
    }
    let e = entry(Some("app"), "build.sh", true);
    assert_eq!(Project::is_build_script(&e, Platform::Other), None);
}

#[test]
fn the_shell_is_found_anywhere_in_the_name() {
    let e = entry(Some("app"), "prebuild_shell.txt", true);
    assert_eq!(
        Project::is_build_script(&e, Platform::Unix),
        Some(project("app", "/work/app/prebuild_shell.txt", "sh"))
    );
}

#[test]
fn the_first_match_decides() {
    let e = entry(Some("app"), "build.bat_build.sh", true);
    assert_eq!(Project::is_build_script(&e, Platform::Unix), None);
    let e = entry(Some("app"), "build.sh_build.bat", true);
    assert_eq!(
        Project::is_build_script(&e, Platform::Unix),
        Some(project("app", "/work/app/build.sh_build.bat", "sh"))
    );
}

#[test]
fn only_regular_files_in_named_folders_are_build_scripts() {
    let e = entry(Some("app"), "build.sh", false);
    assert_eq!(Project::is_build_script(&e, Platform::Unix), None);
    let e = entry(None, "build.sh", true);
    assert_eq!(Project::is_build_script(&e, Platform::Unix), None);
}

#[test]
fn resolve_captures_skips_matches_without_both_groups() {
    let e = entry(Some("app"), "ignored", true);
    let captures = vec![
        vec![Some("x".to_string()), None, Some("sh".to_string())],
        vec![Some("x".to_string()), Some("build".to_string())],
        vec![Some("y".to_string()), Some("build".to_string()), Some("bash".to_string())],
        vec![Some("z".to_string()), Some("build".to_string()), Some("sh".to_string())],
    ];
    assert_eq!(
        Project::resolve_captures(&captures, &e, Platform::Unix),
        Some(project("app", "/work/app/ignored", "bash"))
    );
    assert_eq!(Project::resolve_captures(&Vec::new(), &e, Platform::Unix), None);
}

#[test]
fn resolve_captures_gives_up_without_a_folder() {
    let e = entry(None, "build.sh", true);
    let captures = vec![vec![Some("build.sh".to_string()), Some("build".to_string()), Some("sh".to_string())]];
    assert_eq!(Project::resolve_captures(&captures, &e, Platform::Unix), None);
}

#[test]
fn from_paths_lists_projects_folder_after_folder() {
    let folders = vec![
        vec![entry(Some("a"), "notes.md", true), entry(Some("a"), "build.sh", true)],
        vec![],
        vec![entry(Some("b"), "build.bash", true), entry(Some("b"), "build.fish", false)],
    ];
    assert_eq!(
        Project::from_paths(&folders, Platform::Unix),
        vec![project("a", "/work/a/build.sh", "sh"), project("b", "/work/b/build.bash", "bash")]
    );
    assert_eq!(Project::from_paths(&folders, Platform::Other), Vec::<Project>::new());
}

#[test]
fn listed_projects_run_on_the_platform() {
    let folders = vec![vec![
        entry(Some("a"), "build.ps1", true),
        entry(Some("b"), "build.sh", true),
        entry(Some("c"), "build.bat", true),
    ]];
    for p in Project::from_paths(&folders, Platform::Windows) {
        assert_eq!(p.shell, "cmd");
    }
    for p in Project::from_paths(&folders, Platform::Unix) {
        assert!(["sh", "bash", "fish"].contains(&p.shell.as_str()));
    }
}

#[test]
fn logs_answer_what_the_log_file_gave() {
    assert_eq!(Project::logs(&LogFile::Missing), strings(&["logs not found"]));
    assert_eq!(Project::logs(&LogFile::Unreadable), strings(&["io error"]));
    let read = vec![Some("step 1".to_string()), None, Some("done".to_string())];
    assert_eq!(Project::logs(&LogFile::Read(read)), strings(&["step 1", "done"]));
    assert_eq!(Project::logs(&LogFile::Read(Vec::new())), Vec::<String>::new());
}

#[test]
fn delete_drops_the_project_folder() {
    let lines = strings(&["/srv/a", " /srv/b ", "", "/srv/a", "/srv/gone", "#note"]);
    let exists = vec![true, true, false, true, false, false];
    let left = Project::delete(&"/srv/b".to_string(), &lines, &exists);
    assert_eq!(left, strings(&["/srv/a"]));
    assert!(!left.contains(&"/srv/b".to_string()));
}

#[test]
fn delete_keeps_comments_that_exist_and_repeats_apart() {
    let lines = strings(&["#keep", "/x", "/y", "/x"]);
    let exists = vec![true, true, true, true];
    let left = Project::delete(&"/y".to_string(), &lines, &exists);
    assert_eq!(left, strings(&["#keep", "/x"]));
    let again = Project::delete(&"/y".to_string(), &left, &vec![true; left.len()]);
    assert_eq!(again, left);
}

#[test]
fn build_commands_follow_the_platform() {
    let p = project("app", "/w/app/build.sh", "bash");
    match p.build_command(Platform::Unix) {
        BuildCommand::Run { program, args } => {
            assert_eq!(program, "bash");
            assert_eq!(args, strings(&["/w/app/build.sh"]));
        },
        _ => panic!("expected a command"),
    }
    assert!(matches!(p.build_command(Platform::Windows), BuildCommand::Nothing));
    assert!(matches!(p.build_command(Platform::Other), BuildCommand::Nothing));
    let c = project("svc", "C:\\svc\\build.bat", "cmd");
    match c.build_command(Platform::Windows) {
        BuildCommand::Run { program, args } => {
            assert_eq!(program, "cmd");
            assert_eq!(args, strings(&["/C", "C:\\svc\\build.bat"]));
        },
        _ => panic!("expected a command"),
    }
    let ps = project("svc", "C:\\svc\\build.ps1", "ps1");
    match ps.build_command(Platform::Windows) {
        BuildCommand::Powershell { script } => assert_eq!(script, "C:\\svc\\build.ps1"),
        _ => panic!("expected a PowerShell script"),
    }
}

#[test]
fn a_build_answers_the_lines_of_its_output() {
    let r = Project::build(&BuildOutcome::Ran {
        stdout: "compiling\r\ndone\n".to_string(),
        stderr: "warning: x\n".to_string(),
    });
    assert_eq!(r.output, strings(&["compiling", "done", "warning: x"]));
    assert!(r.write_log);
    let r = Project::build(&BuildOutcome::Ran { stdout: "ok".to_string(), stderr: String::new() });
    assert_eq!(r.output, strings(&["ok"]));
    assert!(r.write_log);
}

#[test]
fn a_build_that_did_not_run_says_so() {
    let r = Project::build(&BuildOutcome::FailedToStart);
    assert_eq!(r.output, strings(&["Error execution build task"]));
    assert!(!r.write_log);
    let r = Project::build(&BuildOutcome::Powershell { text: "a\nb".to_string() });
    assert_eq!(r.output, strings(&["a", "b"]));
    assert!(!r.write_log);
    let r = Project::build(&BuildOutcome::NothingRun);
    assert!(r.output.is_empty());
    assert!(!r.write_log);
}

#[test]
fn task_output_holds_output_and_project() {
    let t = TaskOutput { output: strings(&["x"]), project: project("a", "/a/build.sh", "sh") };
    assert_eq!(t.output.len(), 1);
    assert_eq!(t.project.shell, "sh");
}

#[test]
fn listing_after_delete_drops_only_that_folder() {
    let lines = strings(&["/a", "/p", "/a", "/b", "#c", "/p/"]);
    let exists = vec![true; 6];
    let before = jarman::files::get_paths(&lines, &exists);
    assert_eq!(before, strings(&["/a", "/p", "/a", "/b", "/p/"]));
    let left = Project::delete(&"/p".to_string(), &lines, &exists);
    let after = jarman::files::get_paths(&left, &vec![true; left.len()]);
    assert_eq!(after, strings(&["/a", "/b", "/p/"]));
}

#[test]
fn logs_read_back_what_a_build_wrote() {
    let r = Project::build(&BuildOutcome::Ran {
        stdout: "step 1\nstep 2\n".to_string(),
        stderr: "warn\n\n".to_string(),
    });
    let text = jarman::text::join_lines(&r.output);
    let read: Vec<Option<String>> = text.lines().map(|l| Some(l.to_string())).collect();
    assert_eq!(Project::logs(&LogFile::Read(read)), r.output);
}
