//! Projects: a project is a folder that holds a build script.  This module
//! recognises build scripts, lists the projects of a set of folders, and
//! decides what the build, log, and delete requests of the front end give.
use vstd::prelude::*;
use crate::text::{
    text_lines, split_lines, chars_of, trim, lines_text, lemma_lines_hold_no_line_feed,
    lemma_lines_text_round_trip,
};
use crate::files::{
    ok_lines, kept_lines, dedup, keep_lines, dedup_lines, read_lines_of, all_exist, line_kept,
    lemma_dedup_members, lemma_kept_lines_members, lemma_remaining_stable, listed_paths, without,
    all_read, lemma_ok_lines_all_read,
};
use crate::pattern::{Pattern, compile, captures_all, regex_compiles, regex_captures};

verus! {

broadcast use vstd::string::group_string_axioms;

/// The platform that the program was built for.
#[derive(Clone, Copy, Debug, PartialEq, Eq)]
pub enum Platform {
    Windows,
    Unix,
    Other,
}

/// A project: its name (that of its folder), the path of its build script,
/// and the shell that runs the script.
#[derive(Clone, Debug, PartialEq, Eq)]
pub struct Project {
    pub project: String,
    pub script: String,
    pub shell: String,
}

/// The contents of a `Project`.
pub struct ProjectView {
    pub project: Seq<char>,
    pub script: Seq<char>,
    pub shell: Seq<char>,
}

impl DeepView for Project {
    type V = ProjectView;

    open spec fn deep_view(&self) -> ProjectView {
        ProjectView { project: self.project@, script: self.script@, shell: self.shell@ }
    }
}

/// An entry of a folder: its path, its file name, the name of the folder
/// that holds it (if it has one), and whether it is a regular file.
#[derive(Clone, Debug, PartialEq, Eq)]
pub struct FileEntry {
    pub path: String,
    pub name: String,
    pub folder: Option<String>,
    pub is_file: bool,
}

/// The contents of a `FileEntry`.
pub struct FileEntryView {
    pub path: Seq<char>,
    pub name: Seq<char>,
    pub folder: Option<Seq<char>>,
    pub is_file: bool,
}

impl DeepView for FileEntry {
    type V = FileEntryView;

    open spec fn deep_view(&self) -> FileEntryView {
        FileEntryView {
            path: self.path@,
            name: self.name@,
            folder: match self.folder {
                Some(f) => Some(f@),
                None => None,
            },
            is_file: self.is_file,
        }
    }
}

/// The answer to a build request: the output of the build, and the project.
pub struct TaskOutput {
    pub output: Vec<String>,
    pub project: Project,
}

/// The shells whose scripts are build scripts, in the order in which the
/// pattern tries them.
pub open spec fn shells() -> Seq<Seq<char>> {
    seq!["fish"@, "bash"@, "sh"@, "ps1"@, "bat"@]
}

/// `parts` joined, with `sep` between each two of them.
pub open spec fn joined(parts: Seq<Seq<char>>, sep: Seq<char>) -> Seq<char>
    decreases parts.len(),
{
    if parts.len() == 0 {
        seq![]
    } else if parts.len() == 1 {
        parts[0]
    } else {
        joined(parts.drop_last(), sep) + sep + parts.last()
    }
}

/// The pattern of a build script's file name: `build`, in any case, then
/// any one character, then one of the shells.  The second capture group
/// is the shell.
pub open spec fn build_pattern() -> Seq<char> {
    "(?i)(build)(?-i)."@ + "("@ + joined(shells(), "|"@) + ")"@
}

/// `parts` joined, with `sep` between each two of them.
fn join_texts(parts: &Vec<&str>, sep: &str) -> (r: String)
    ensures
        r@ == joined(parts.deep_view(), sep@),
{
    let ghost all = parts.deep_view();
    let mut out = String::new();
    let n = parts.len();
    let mut i: usize = 0;
    while i < n
        invariant
            i <= n,
            n == parts.len(),
            all == parts.deep_view(),
            out@ == joined(all.take(i as int), sep@),
        decreases n - i,
    {
        assert(all.take(i + 1).drop_last() =~= all.take(i as int));
        if i > 0 {
            out.append(sep);
        }
        out.append(parts[i]);
        i = i + 1;
    }
    assert(all.take(n as int) =~= all);
    out
}

/// The regular expression of build scripts' file names.
fn re_build_script_pattern() -> (r: Result<Pattern, regex::Error>)
    ensures
        r is Ok <==> regex_compiles(build_pattern()),
        r matches Ok(p) ==> p.source() == build_pattern(),
{
    let a = vec!["fish", "bash", "sh", "ps1", "bat"];
    assert(a.deep_view() =~= shells());
    let mut source = "(?i)(build)(?-i).".to_string();
    source.append("(");
    source.append(join_texts(&a, "|").as_str());
    source.append(")");
    compile(source)
}

/// Whether `a` and `b` hold the same text.
fn same_text(a: &str, b: &str) -> (r: bool)
    ensures
        r == (a@ == b@),
{
    let x = chars_of(a);
    let y = chars_of(b);
    if x.len() != y.len() {
        return false;
    }
    let mut i: usize = 0;
    while i < x.len()
        invariant
            i <= x.len(),
            x.len() == y.len(),
            x@ == a@,
            y@ == b@,
            forall|j: int| 0 <= j < i ==> x@[j] == y@[j],
        decreases x.len() - i,
    {
        if x[i] != y[i] {
            return false;
        }
        i = i + 1;
    }
    assert(x@ =~= y@);
    true
}

/// The project that the build script `script` of the shell `shell` in the
/// folder `project` makes on `platform`: on Windows, PowerShell and batch
/// scripts, run by `cmd`; on Unix, `sh`, `bash` and `fish` scripts, run by
/// their shell; elsewhere none.
pub open spec fn resolve_project(
    platform: Platform,
    project: Seq<char>,
    shell: Seq<char>,
    script: Seq<char>,
) -> Option<ProjectView> {
    match platform {
        Platform::Windows => if shell == "ps1"@ || shell == "bat"@ {
            Some(ProjectView { project, script, shell: "cmd"@ })
        } else {
            None
        },
        Platform::Unix => if shell == "sh"@ || shell == "bash"@ || shell == "fish"@ {
            Some(ProjectView { project, script, shell })
        } else {
            None
        },
        Platform::Other => None,
    }
}

/// The capture group `i` of a match, if it took part in the match.
pub open spec fn group(m: Seq<Option<Seq<char>>>, i: int) -> Option<Seq<char>> {
    if 0 <= i < m.len() {
        m[i]
    } else {
        None
    }
}

/// What the matches `captures` of the build-script pattern in the name of
/// the entry `file` decide: the first match in which both groups took part
/// decides, when the entry's folder has a name; a match that decides nothing
/// passes to the next one.
pub open spec fn project_of_matches(
    captures: Seq<Seq<Option<Seq<char>>>>,
    file: FileEntryView,
    platform: Platform,
) -> Option<ProjectView>
    decreases captures.len(),
{
    if captures.len() == 0 {
        None
    } else {
        let m = captures[0];
        if group(m, 1) is Some && group(m, 2) is Some && file.folder is Some {
            resolve_project(platform, file.folder->0, group(m, 2)->0, file.path)
        } else {
            project_of_matches(captures.drop_first(), file, platform)
        }
    }
}

/// The project whose build script the entry `file` is, if it is one: a
/// regular file whose name matches the build-script pattern.
pub open spec fn build_script_project(file: FileEntryView, platform: Platform) -> Option<
    ProjectView,
> {
    if regex_compiles(build_pattern()) && file.is_file {
        project_of_matches(regex_captures(build_pattern(), file.name), file, platform)
    } else {
        None
    }
}

/// The view of an optional project.
pub open spec fn project_option(p: Option<Project>) -> Option<ProjectView> {
    match p {
        Some(p) => Some(p.deep_view()),
        None => None,
    }
}

/// The projects of the entries `files`, in order.
pub open spec fn entries_projects(files: Seq<FileEntryView>, platform: Platform) -> Seq<
    ProjectView,
>
    decreases files.len(),
{
    if files.len() == 0 {
        seq![]
    } else {
        let rest = entries_projects(files.drop_last(), platform);
        match build_script_project(files.last(), platform) {
            Some(p) => rest.push(p),
            None => rest,
        }
    }
}

/// The projects of the folders `folders`, folder after folder.
pub open spec fn folders_projects(folders: Seq<Seq<FileEntryView>>, platform: Platform) -> Seq<
    ProjectView,
>
    decreases folders.len(),
{
    if folders.len() == 0 {
        seq![]
    } else {
        folders_projects(folders.drop_last(), platform) + entries_projects(
            folders.last(),
            platform,
        )
    }
}

/// The lines that `delete` leaves in the path file: the trimmed lines that
/// are not empty, are not the folder `project_dir`, and name an existing
/// path, without repeats on consecutive lines.
pub open spec fn remaining_paths(
    lines: Seq<Seq<char>>,
    exists: Seq<bool>,
    project_dir: Seq<char>,
) -> Seq<Seq<char>> {
    dedup(kept_lines(lines, exists, false, Some(project_dir)))
}

/// What became of a log file that was asked for.
pub enum LogFile {
    /// There is no log file.
    Missing,
    /// The log file is there but could not be opened.
    Unreadable,
    /// The lines of the log file, `None` for a line that could not be read.
    Read(Vec<Option<String>>),
}

/// The lines that a log request answers.
pub open spec fn log_answer(log: LogFile) -> Seq<Seq<char>> {
    match log {
        LogFile::Missing => seq!["logs not found"@],
        LogFile::Unreadable => seq!["io error"@],
        LogFile::Read(lines) => ok_lines(lines.deep_view()),
    }
}

/// What a build runs.
pub enum BuildCommand {
    /// The program `program` with the arguments `args`.
    Run { program: String, args: Vec<String> },
    /// The PowerShell script at `script`.
    Powershell { script: String },
    /// Nothing.
    Nothing,
}

/// The contents of a `BuildCommand`.
pub enum CommandView {
    Run { program: Seq<char>, args: Seq<Seq<char>> },
    Powershell { script: Seq<char> },
    Nothing,
}

impl DeepView for BuildCommand {
    type V = CommandView;

    open spec fn deep_view(&self) -> CommandView {
        match self {
            BuildCommand::Run { program, args } => CommandView::Run {
                program: program@,
                args: args.deep_view(),
            },
            BuildCommand::Powershell { script } => CommandView::Powershell { script: script@ },
            BuildCommand::Nothing => CommandView::Nothing,
        }
    }
}

/// What the build command of `project` on `platform` is: on Unix, the
/// project's shell run on its script; on Windows, a PowerShell script when
/// the shell is `ps1` and `cmd /C` on the script when the shell is `cmd`;
/// nothing else.
pub open spec fn build_command_of(project: ProjectView, platform: Platform) -> CommandView {
    match platform {
        Platform::Unix => CommandView::Run { program: project.shell, args: seq![project.script] },
        Platform::Windows => if project.shell == "ps1"@ {
            CommandView::Powershell { script: project.script }
        } else if project.shell == "cmd"@ {
            CommandView::Run { program: "cmd"@, args: seq!["/C"@, project.script] }
        } else {
            CommandView::Nothing
        },
        Platform::Other => CommandView::Nothing,
    }
}

/// What came of running a build command.
pub enum BuildOutcome {
    /// The command ran, with this standard output and error output.
    Ran { stdout: String, stderr: String },
    /// The command could not be started.
    FailedToStart,
    /// The PowerShell script ran, or failed, with this text.
    Powershell { text: String },
    /// Nothing ran.
    NothingRun,
}

/// What a build answers: its output, and whether the output is also
/// written to the project's log file.
pub struct BuildReport {
    pub output: Vec<String>,
    pub write_log: bool,
}

/// The output that a build answers for `outcome`.
pub open spec fn build_output(outcome: BuildOutcome) -> Seq<Seq<char>> {
    match outcome {
        BuildOutcome::Ran { stdout, stderr } => text_lines(stdout@) + text_lines(stderr@),
        BuildOutcome::FailedToStart => seq!["Error execution build task"@],
        BuildOutcome::Powershell { text } => text_lines(text@),
        BuildOutcome::NothingRun => seq![],
    }
}

impl Project {
    /// The project that the folder entry `file` is the build script of, if it
    /// is one: a regular file whose name holds `build` (in any case), any one
    /// character and a shell's name (`fish`, `bash`, `sh`, `ps1` or `bat`),
    /// of a shell that `platform` runs, in a folder that has a name.  When the
    /// pattern of build scripts does not compile, no entry is one.
    pub fn is_build_script(file: &FileEntry, platform: Platform) -> (r: Option<Project>)
        ensures
            project_option(r) == build_script_project(file.deep_view(), platform),
    {
        let s = match re_build_script_pattern() {
            Ok(s) => s,
            Err(_) => return None,
        };
        if file.is_file {
            let captures = captures_all(&s, file.name.as_str());
            Project::resolve_captures(&captures, file, platform)
        } else {
            None
        }
    }

    /// The project that the matches `captures` of the build-script pattern in
    /// the name of `file` make (see `project_of_matches`).
    pub fn resolve_captures(
        captures: &Vec<Vec<Option<String>>>,
        file: &FileEntry,
        platform: Platform,
    ) -> (r: Option<Project>)
        ensures
            project_option(r) == project_of_matches(
                captures.deep_view(),
                file.deep_view(),
                platform,
            ),
    {
        let ghost all = captures.deep_view();
        let n = captures.len();
        let mut i: usize = 0;
        assert(all.skip(0) =~= all);
        while i < n
            invariant
                i <= n,
                n == captures.len(),
                all == captures.deep_view(),
                project_of_matches(all, file.deep_view(), platform) == project_of_matches(
                    all.skip(i as int),
                    file.deep_view(),
                    platform,
                ),
            decreases n - i,
        {
            assert(all.skip(i as int).drop_first() =~= all.skip(i + 1));
            assert(all.skip(i as int)[0] == all[i as int]);
            let m = &captures[i];
            if m.len() > 2 {
                match (&m[1], &m[2], &file.folder) {
                    (Some(_), Some(shell), Some(project)) => {
                        return Project::resolve(platform, project, shell, &file.path);
                    },
                    _ => {},
                }
            }
            i = i + 1;
        }
        None
    }

    /// The project of the shell `shell`'s script `script` in the folder
    /// `project`, on `platform` (see `resolve_project`).
    fn resolve(platform: Platform, project: &String, shell: &String, script: &String) -> (r:
        Option<Project>)
        ensures
            project_option(r) == resolve_project(platform, project@, shell@, script@),
    {
        match platform {
            Platform::Windows => {
                if same_text(shell.as_str(), "ps1") || same_text(shell.as_str(), "bat") {
                    Some(
                        Project {
                            project: project.clone(),
                            script: script.clone(),
                            shell: "cmd".to_string(),
                        },
                    )
                } else {
                    None
                }
            },
            Platform::Unix => {
                if same_text(shell.as_str(), "sh") || same_text(shell.as_str(), "bash")
                    || same_text(shell.as_str(), "fish") {
                    Some(
                        Project {
                            project: project.clone(),
                            script: script.clone(),
                            shell: shell.clone(),
                        },
                    )
                } else {
                    None
                }
            },
            Platform::Other => None,
        }
    }
    /// The projects of the folders `folders`: for each folder that is a
    /// directory and could be read, the entries that could be read (an empty
    /// list for any other).  The result holds, folder after folder and entry
    /// after entry, the project of each entry that is a build script.
    pub fn from_paths(folders: &Vec<Vec<FileEntry>>, platform: Platform) -> (r: Vec<Project>)
        ensures
            r.deep_view() == folders_projects(folders.deep_view(), platform),
    {
        let ghost all = folders.deep_view();
        let mut projects: Vec<Project> = Vec::new();
        let n = folders.len();
        let mut i: usize = 0;
        while i < n
            invariant
                i <= n,
                n == folders.len(),
                all == folders.deep_view(),
                projects.deep_view() == folders_projects(all.take(i as int), platform),
            decreases n - i,
        {
            assert(all.take(i + 1).drop_last() =~= all.take(i as int));
            let files = &folders[i];
            let ghost entries = files.deep_view();
            let ghost before = projects.deep_view();
            let m = files.len();
            let mut j: usize = 0;
            while j < m
                invariant
                    j <= m,
                    m == files.len(),
                    entries == files.deep_view(),
                    projects.deep_view() == before + entries_projects(entries.take(j as int), platform),
                decreases m - j,
            {
                assert(entries.take(j + 1).drop_last() =~= entries.take(j as int));
                let ghost mid = projects.deep_view();
                match Project::is_build_script(&files[j], platform) {
                    Some(project) => {
                        projects.push(project);
                        assert(projects.deep_view() =~= mid.push(project.deep_view()));
                    },
                    None => {},
                }
                j = j + 1;
            }
            assert(entries.take(m as int) =~= entries);
            assert(all[i as int] == entries);
            i = i + 1;
        }
        assert(all.take(n as int) =~= all);
        projects
    }

    /// The answer to a request for a project's build log, given what became
    /// of the log file: its lines that could be read; `logs not found` when
    /// there is none; `io error` when it could not be opened.
    pub fn logs(log: &LogFile) -> (r: Vec<String>)
        ensures
            r.deep_view() == log_answer(*log),
    {
        match log {
            LogFile::Missing => {
                let r = vec!["logs not found".to_string()];
                assert(r.deep_view() =~= seq!["logs not found"@]);
                r
            },
            LogFile::Unreadable => {
                let r = vec!["io error".to_string()];
                assert(r.deep_view() =~= seq!["io error"@]);
                r
            },
            LogFile::Read(lines) => {
                read_lines_of(lines)
            },
        }
    }

    /// The lines that deleting a project leaves in the path file.  `lines`
    /// are the lines of the path file, `exists[i]` tells whether the trimmed
    /// `lines[i]` names an existing path, and `project_dir` is the folder of
    /// the project's build script.  The result holds, in order, the trimmed
    /// lines that are not empty, are not `project_dir` and name an existing
    /// path, with repeats on consecutive lines dropped.
    pub fn delete(project_dir: &String, lines: &Vec<String>, exists: &Vec<bool>) -> (r: Vec<String>)
        requires
            exists.len() == lines.len(),
        ensures
            r.deep_view() == remaining_paths(lines.deep_view(), exists@, project_dir@),
    {
        let kept = keep_lines(lines, exists, false, Some(project_dir));
        dedup_lines(kept)
    }

    /// What building the project runs on `platform` (see `build_command_of`).
    pub fn build_command(&self, platform: Platform) -> (r: BuildCommand)
        ensures
            r.deep_view() == build_command_of(self.deep_view(), platform),
    {
        match platform {
            Platform::Unix => {
                let args = vec![self.script.clone()];
                assert(args.deep_view() =~= seq![self.script@]);
                BuildCommand::Run { program: self.shell.clone(), args }
            },
            Platform::Windows => {
                if same_text(self.shell.as_str(), "ps1") {
                    BuildCommand::Powershell { script: self.script.clone() }
                } else if same_text(self.shell.as_str(), "cmd") {
                    let args = vec!["/C".to_string(), self.script.clone()];
                    assert(args.deep_view() =~= seq!["/C"@, self.script@]);
                    BuildCommand::Run { program: "cmd".to_string(), args }
                } else {
                    BuildCommand::Nothing
                }
            },
            Platform::Other => BuildCommand::Nothing,
        }
    }

    /// What a build answers, given what came of its command: the lines of the
    /// standard output and then those of the error output of a command that
    /// ran, which are also written to the log; `Error execution build task`
    /// for a command that could not be started; the lines of a PowerShell
    /// script's text; nothing when nothing ran.
    pub fn build(outcome: &BuildOutcome) -> (r: BuildReport)
        ensures
            r.output.deep_view() == build_output(*outcome),
            r.write_log == (*outcome is Ran),
    {
        match outcome {
            BuildOutcome::Ran { stdout, stderr } => {
                let mut output = split_lines(stdout.as_str());
                let ghost first = output.deep_view();
                if stderr.as_str().unicode_len() > 0 {
                    let more = split_lines(stderr.as_str());
                    let ghost second = more.deep_view();
                    let mut k: usize = 0;
                    while k < more.len()
                        invariant
                            k <= more.len(),
                            second == more.deep_view(),
                            output.deep_view() == first + second.take(k as int),
                        decreases more.len() - k,
                    {
                        let ghost before = output.deep_view();
                        output.push(more[k].clone());
                        assert(output.deep_view() =~= before.push(second[k as int]));
                        assert(second.take(k + 1) =~= second.take(k as int).push(second[k as int]));
                        k = k + 1;
                    }
                    assert(second.take(more.len() as int) =~= second);
                } else {
                    assert(text_lines(stderr@) =~= seq![]);
                    assert(first + text_lines(stderr@) =~= first);
                }
                BuildReport { output, write_log: true }
            },
            BuildOutcome::FailedToStart => {
                let output = vec!["Error execution build task".to_string()];
                assert(output.deep_view() =~= seq!["Error execution build task"@]);
                BuildReport { output, write_log: false }
            },
            BuildOutcome::Powershell { text } => {
                BuildReport { output: split_lines(text.as_str()), write_log: false }
            },
            BuildOutcome::NothingRun => {
                let output: Vec<String> = Vec::new();
                assert(output.deep_view() =~= seq![]);
                BuildReport { output, write_log: false }
            },
        }
    }
}

} // verus!

verus! {

/// Whether `p` is a project that `platform` can build: on Windows its
/// scripts run under `cmd`, on Unix under `sh`, `bash` or `fish`; no other
/// platform has projects.
pub open spec fn runs_on(p: ProjectView, platform: Platform) -> bool {
    match platform {
        Platform::Windows => p.shell == "cmd"@,
        Platform::Unix => p.shell == "sh"@ || p.shell == "bash"@ || p.shell == "fish"@,
        Platform::Other => false,
    }
}

proof fn lemma_project_of_matches_shape(
    captures: Seq<Seq<Option<Seq<char>>>>,
    file: FileEntryView,
    platform: Platform,
)
    ensures
        project_of_matches(captures, file, platform) matches Some(p) ==> {
            &&& p.script == file.path
            &&& file.folder == Some(p.project)
            &&& runs_on(p, platform)
        },
    decreases captures.len(),
{
    if captures.len() > 0 {
        lemma_project_of_matches_shape(captures.drop_first(), file, platform);
    }
}

/// A build script's project is that of the script's folder, with the
/// script's path, and a shell that the platform runs; only regular files
/// are build scripts.
pub proof fn lemma_build_script_shape(file: FileEntryView, platform: Platform)
    ensures
        build_script_project(file, platform) matches Some(p) ==> {
            &&& file.is_file
            &&& p.script == file.path
            &&& file.folder == Some(p.project)
            &&& runs_on(p, platform)
        },
{
    lemma_project_of_matches_shape(regex_captures(build_pattern(), file.name), file, platform);
}

/// Every project found in a set of folders is one that the platform can
/// build.
pub proof fn lemma_listed_projects_run_on(folders: Seq<Seq<FileEntryView>>, platform: Platform)
    ensures
        forall|i: int|
            0 <= i < folders_projects(folders, platform).len() ==> runs_on(
                #[trigger] folders_projects(folders, platform)[i],
                platform,
            ),
    decreases folders.len(),
{
    if folders.len() > 0 {
        lemma_listed_projects_run_on(folders.drop_last(), platform);
        lemma_entries_projects_run_on(folders.last(), platform);
        let a = folders_projects(folders.drop_last(), platform);
        let b = entries_projects(folders.last(), platform);
        assert forall|i: int|
            0 <= i < folders_projects(folders, platform).len() implies runs_on(
            #[trigger] folders_projects(folders, platform)[i],
            platform,
        ) by {
            if i < a.len() {
                assert(folders_projects(folders, platform)[i] == a[i]);
            } else {
                assert(folders_projects(folders, platform)[i] == b[i - a.len()]);
            }
        }
    }
}

proof fn lemma_entries_projects_run_on(files: Seq<FileEntryView>, platform: Platform)
    ensures
        forall|i: int|
            0 <= i < entries_projects(files, platform).len() ==> runs_on(
                #[trigger] entries_projects(files, platform)[i],
                platform,
            ),
    decreases files.len(),
{
    if files.len() > 0 {
        lemma_entries_projects_run_on(files.drop_last(), platform);
        lemma_build_script_shape(files.last(), platform);
        let a = entries_projects(files.drop_last(), platform);
        assert forall|i: int|
            0 <= i < entries_projects(files, platform).len() implies runs_on(
            #[trigger] entries_projects(files, platform)[i],
            platform,
        ) by {
            if i < a.len() {
                assert(entries_projects(files, platform)[i] == a[i]);
            }
        }
    }
}

/// Deleting a project takes its folder out of the path file and keeps
/// every other path that exists: the remaining lines never hold the
/// project's folder, they hold each other trimmed non-empty line that names
/// an existing path, and deleting the same project again, while those
/// paths exist, changes nothing.
pub proof fn lemma_delete_removes_project(
    lines: Seq<Seq<char>>,
    exists: Seq<bool>,
    project_dir: Seq<char>,
)
    requires
        exists.len() == lines.len(),
    ensures
        !remaining_paths(lines, exists, project_dir).contains(project_dir),
        forall|i: int|
            0 <= i < lines.len() && exists[i] && #[trigger] trim(lines[i]).len() > 0 && trim(
                lines[i],
            ) != project_dir ==> remaining_paths(lines, exists, project_dir).contains(
                trim(lines[i]),
            ),
        ({
            let r = remaining_paths(lines, exists, project_dir);
            remaining_paths(r, all_exist(r.len()), project_dir) == r
        }),
{
    let k = kept_lines(lines, exists, false, Some(project_dir));
    lemma_dedup_members(k);
    lemma_kept_lines_members(lines, exists, false, Some(project_dir));
    if k.contains(project_dir) {
        let i = choose|i: int|
            0 <= i < lines.len() && exists[i] && line_kept(
                #[trigger] trim(lines[i]),
                false,
                Some(project_dir),
            ) && trim(lines[i]) == project_dir;
        assert(false);
    }
    assert forall|i: int|
        0 <= i < lines.len() && exists[i] && #[trigger] trim(lines[i]).len() > 0 && trim(lines[i])
            != project_dir implies remaining_paths(lines, exists, project_dir).contains(
        trim(lines[i]),
    ) by {
        assert(line_kept(trim(lines[i]), false, Some(project_dir)));
        assert(k.contains(trim(lines[i])));
    }
    lemma_remaining_stable(lines, exists, project_dir);
}

} // verus!

verus! {

/// Deleting a project and listing the path file again, while the other
/// paths still exist, gives the paths listed before without the project's
/// folder, with repeats on consecutive lines collapsed.  (The folder is
/// compared as text: the same folder written otherwise stays.)
pub proof fn lemma_list_after_delete(lines: Seq<Seq<char>>, exists: Seq<bool>, project_dir: Seq<char>)
    requires
        exists.len() == lines.len(),
    ensures
        ({
            let r = remaining_paths(lines, exists, project_dir);
            listed_paths(r, all_exist(r.len())) == dedup(
                without(listed_paths(lines, exists), project_dir),
            )
        }),
{
    crate::files::lemma_kept_selection_after_delete(lines, exists, project_dir);
}

} // verus!

verus! {

/// What a log request answers after a build, when the build's output was
/// written to the log file one line per line and the file is read back line
/// by line as `str::lines` splits its text: the build's output itself, as
/// long as no output line ends with a carriage return (such a line loses it
/// on the way back).
pub proof fn lemma_logs_after_build(outcome: BuildOutcome, read: Vec<Option<String>>)
    requires
        outcome is Ran,
        forall|j: int|
            0 <= j < build_output(outcome).len() && #[trigger] build_output(outcome)[j].len() > 0
                ==> build_output(outcome)[j].last() != '\r',
        read.deep_view() == all_read(text_lines(lines_text(build_output(outcome)))),
    ensures
        log_answer(LogFile::Read(read)) == build_output(outcome),
{
    let out = build_output(outcome);
    match outcome {
        BuildOutcome::Ran { stdout, stderr } => {
            let a = text_lines(stdout@);
            let b = text_lines(stderr@);
            lemma_lines_hold_no_line_feed(stdout@);
            lemma_lines_hold_no_line_feed(stderr@);
            assert(out == a + b);
            assert forall|j: int, k: int| 0 <= j < out.len() && 0 <= k < out[j].len() implies #[trigger] out[j][k] != '\n' by {
                if j < a.len() {
                    assert(out[j] == a[j]);
                } else {
                    assert(out[j] == b[j - a.len()]);
                }
            }
        },
        _ => {},
    }
    lemma_lines_text_round_trip(out);
    lemma_ok_lines_all_read(out);
}

} // verus!

verus! {

/// The projects of entries placed one after the other are those of each
/// part, one after the other.
pub proof fn lemma_entries_projects_append(a: Seq<FileEntryView>, b: Seq<FileEntryView>, platform: Platform)
    ensures
        entries_projects(a + b, platform) == entries_projects(a, platform) + entries_projects(b, platform),
    decreases b.len(),
{
    if b.len() == 0 {
        assert(a + b =~= a);
        assert(entries_projects(a, platform) + seq![] =~= entries_projects(a, platform));
    } else {
        let b0 = b.drop_last();
        lemma_entries_projects_append(a, b0, platform);
        assert((a + b).drop_last() =~= a + b0);
        assert((a + b).last() == b.last());
        match build_script_project(b.last(), platform) {
            Some(p) => {
                assert(entries_projects(a, platform) + entries_projects(b0, platform).push(p)
                    =~= (entries_projects(a, platform) + entries_projects(b0, platform)).push(p));
            },
            None => {},
        }
    }
}

/// An entry that is no build script (a subfolder, say) changes nothing in
/// the projects of the entries around it, wherever it stands.
pub proof fn lemma_entries_projects_ignore(files: Seq<FileEntryView>, k: int, e: FileEntryView, platform: Platform)
    requires
        0 <= k <= files.len(),
        build_script_project(e, platform) is None,
    ensures
        entries_projects(files.insert(k, e), platform) == entries_projects(files, platform),
{
    let a = files.subrange(0, k);
    let b = files.subrange(k, files.len() as int);
    assert(files.insert(k, e) =~= (a + seq![e]) + b);
    assert(files =~= a + b);
    lemma_entries_projects_append(a + seq![e], b, platform);
    lemma_entries_projects_append(a, seq![e], platform);
    lemma_entries_projects_append(a, b, platform);
    assert(seq![e].drop_last() =~= Seq::<FileEntryView>::empty());
    assert(entries_projects(Seq::<FileEntryView>::empty(), platform) =~= Seq::<ProjectView>::empty());
    assert(seq![e].last() == e);
    assert(entries_projects(seq![e], platform) =~= Seq::<ProjectView>::empty());
    assert(entries_projects(a, platform) + Seq::<ProjectView>::empty() =~= entries_projects(a, platform));
}

/// The projects of folders placed one after the other are those of each
/// part, one after the other.
pub proof fn lemma_folders_projects_append(a: Seq<Seq<FileEntryView>>, b: Seq<Seq<FileEntryView>>, platform: Platform)
    ensures
        folders_projects(a + b, platform) == folders_projects(a, platform) + folders_projects(b, platform),
    decreases b.len(),
{
    if b.len() == 0 {
        assert(a + b =~= a);
        assert(folders_projects(a, platform) + seq![] =~= folders_projects(a, platform));
    } else {
        let b0 = b.drop_last();
        lemma_folders_projects_append(a, b0, platform);
        assert((a + b).drop_last() =~= a + b0);
        assert((a + b).last() == b.last());
        assert(folders_projects(a, platform) + folders_projects(b0, platform) + entries_projects(b.last(), platform)
            =~= folders_projects(a, platform) + (folders_projects(b0, platform) + entries_projects(b.last(), platform)));
    }
}

/// Every build script among the entries is listed: the entry `files[j]`
/// whose project is `p` puts `p` among the projects of `files`.
pub proof fn lemma_entries_projects_hold_every_script(files: Seq<FileEntryView>, j: int, platform: Platform)
    requires
        0 <= j < files.len(),
        build_script_project(files[j], platform) is Some,
    ensures
        entries_projects(files, platform).contains(build_script_project(files[j], platform)->0),
{
    let p = build_script_project(files[j], platform)->0;
    let a = files.subrange(0, j);
    let b = files.subrange(j + 1, files.len() as int);
    assert(files =~= (a + seq![files[j]]) + b);
    lemma_entries_projects_append(a + seq![files[j]], b, platform);
    lemma_entries_projects_append(a, seq![files[j]], platform);
    assert(seq![files[j]].drop_last() =~= Seq::<FileEntryView>::empty());
    assert(entries_projects(Seq::<FileEntryView>::empty(), platform) =~= Seq::<ProjectView>::empty());
    assert(seq![files[j]].last() == files[j]);
    assert(entries_projects(seq![files[j]], platform) =~= seq![p]);
    let all = entries_projects(files, platform);
    let n = entries_projects(a, platform).len() as int;
    assert(all[n] == p);
}

/// Listing the projects of folders finds every build script in them: for
/// each folder `i` and entry `j` that is the build script of a project `p`,
/// `p` is among the projects listed, whatever else the folders hold.
pub proof fn lemma_listing_holds_every_script(folders: Seq<Seq<FileEntryView>>, i: int, j: int, platform: Platform)
    requires
        0 <= i < folders.len(),
        0 <= j < folders[i].len(),
        build_script_project(folders[i][j], platform) is Some,
    ensures
        folders_projects(folders, platform).contains(build_script_project(folders[i][j], platform)->0),
{
    let p = build_script_project(folders[i][j], platform)->0;
    lemma_entries_projects_hold_every_script(folders[i], j, platform);
    let a = folders.subrange(0, i);
    let b = folders.subrange(i + 1, folders.len() as int);
    assert(folders =~= (a + seq![folders[i]]) + b);
    lemma_folders_projects_append(a + seq![folders[i]], b, platform);
    lemma_folders_projects_append(a, seq![folders[i]], platform);
    assert(seq![folders[i]].drop_last() =~= Seq::<Seq<FileEntryView>>::empty());
    assert(folders_projects(Seq::<Seq<FileEntryView>>::empty(), platform) =~= Seq::<ProjectView>::empty());
    assert(folders_projects(seq![folders[i]], platform) =~= entries_projects(folders[i], platform));
    let e = entries_projects(folders[i], platform);
    let k = choose|k: int| 0 <= k < e.len() && e[k] == p;
    let all = folders_projects(folders, platform);
    let n = folders_projects(a, platform).len() as int;
    assert(all[n + k] == p);
}

} // verus!

verus! {

/// On Unix a build runs the project's shell with one argument, the project's
/// script, whatever the shell is.
pub proof fn lemma_unix_build_runs_the_script(p: ProjectView)
    ensures
        build_command_of(p, Platform::Unix) == (CommandView::Run { program: p.shell, args: seq![p.script] }),
{
}

/// On Windows a project run by `cmd` is built by `cmd /C` on its script, and
/// one whose shell is `ps1` by PowerShell on its script.
pub proof fn lemma_windows_build_runs_the_script(p: ProjectView)
    ensures
        p.shell == "cmd"@ ==> build_command_of(p, Platform::Windows) == (CommandView::Run {
            program: "cmd"@,
            args: seq!["/C"@, p.script],
        }),
        p.shell == "ps1"@ ==> build_command_of(p, Platform::Windows) == (CommandView::Powershell {
            script: p.script,
        }),
{
    reveal_strlit("cmd");
    reveal_strlit("ps1");
    assert("cmd"@[0] != "ps1"@[0]);
    assert("cmd"@ != "ps1"@);
}

/// Every project that listing finds on a platform is built there by running
/// its script: the command runs a program, whose last argument is the
/// script; on Unix the program is the project's shell.
pub proof fn lemma_listed_projects_build(p: ProjectView, platform: Platform)
    requires
        runs_on(p, platform),
    ensures
        build_command_of(p, platform) matches CommandView::Run { program, args } && args.len() > 0
            && args.last() == p.script && (platform == Platform::Unix ==> program == p.shell),
{
    lemma_windows_build_runs_the_script(p);
    if platform == Platform::Windows {
        let args = seq!["/C"@, p.script];
        assert(args.last() == p.script);
    }
}

} // verus!

verus! {

/// The pattern of build scripts' file names.
pub proof fn lemma_build_pattern_text()
    ensures
        build_pattern() == "(?i)(build)(?-i).(fish|bash|sh|ps1|bat)"@,
{
    reveal_strlit("(?i)(build)(?-i).(fish|bash|sh|ps1|bat)");
    reveal_strlit("(?i)(build)(?-i).");
    reveal_strlit("fish|bash|sh|ps1|bat");
    reveal_strlit("(");
    reveal_strlit(")");
    reveal_strlit("|");
    reveal_strlit("fish");
    reveal_strlit("bash");
    reveal_strlit("sh");
    reveal_strlit("ps1");
    reveal_strlit("bat");
    let sh = shells();
    assert(sh.drop_last().drop_last().drop_last().drop_last() =~= seq!["fish"@]);
    assert(sh.drop_last().drop_last().drop_last() =~= seq!["fish"@, "bash"@]);
    assert(sh.drop_last().drop_last() =~= seq!["fish"@, "bash"@, "sh"@]);
    assert(sh.drop_last() =~= seq!["fish"@, "bash"@, "sh"@, "ps1"@]);
    assert("fish"@ =~= seq!['f', 'i', 's', 'h']);
    assert("bash"@ =~= seq!['b', 'a', 's', 'h']);
    assert("sh"@ =~= seq!['s', 'h']);
    assert("ps1"@ =~= seq!['p', 's', '1']);
    assert("bat"@ =~= seq!['b', 'a', 't']);
    assert("|"@ =~= seq!['|']);
    assert("("@ =~= seq!['(']);
    assert(")"@ =~= seq![')']);
    assert("(?i)(build)(?-i)."@ =~= seq!['(', '?', 'i', ')', '(', 'b', 'u', 'i', 'l', 'd', ')', '(', '?', '-', 'i', ')', '.']);
    assert("fish|bash|sh|ps1|bat"@ =~= seq!['f', 'i', 's', 'h', '|', 'b', 'a', 's', 'h', '|', 's', 'h', '|', 'p', 's', '1', '|', 'b', 'a', 't']);
    assert("(?i)(build)(?-i).(fish|bash|sh|ps1|bat)"@ =~= seq!['(', '?', 'i', ')', '(', 'b', 'u', 'i', 'l', 'd', ')', '(', '?', '-', 'i', ')', '.', '(', 'f', 'i', 's', 'h', '|', 'b', 'a', 's', 'h', '|', 's', 'h', '|', 'p', 's', '1', '|', 'b', 'a', 't', ')']);
    reveal_with_fuel(joined, 6);
    assert(joined(sh, "|"@) == "fish"@ + "|"@ + "bash"@ + "|"@ + "sh"@ + "|"@ + "ps1"@ + "|"@ + "bat"@);
    assert(joined(shells(), "|"@) =~= "fish|bash|sh|ps1|bat"@);
    assert(build_pattern() =~= "(?i)(build)(?-i).(fish|bash|sh|ps1|bat)"@);
}

/// A match without both capture groups decides nothing: the matches after
/// it decide.
pub proof fn lemma_match_without_groups_is_skipped(
    m: Seq<Option<Seq<char>>>,
    rest: Seq<Seq<Option<Seq<char>>>>,
    file: FileEntryView,
    platform: Platform,
)
    requires
        m.len() <= 2 || m[1] is None || m[2] is None,
    ensures
        project_of_matches(seq![m] + rest, file, platform) == project_of_matches(rest, file, platform),
{
    assert((seq![m] + rest)[0] == m);
    assert((seq![m] + rest).drop_first() =~= rest);
}

/// The first match with both capture groups decides, in a folder that has a
/// name: on Unix a `sh`, `bash` or `fish` script is built by its shell and
/// any other is no build script; on Windows a `ps1` or `bat` script is built
/// by `cmd` and any other is no build script; elsewhere nothing is; the
/// matches after it play no part.
pub proof fn lemma_first_full_match_decides(
    m: Seq<Option<Seq<char>>>,
    rest: Seq<Seq<Option<Seq<char>>>>,
    file: FileEntryView,
    platform: Platform,
    folder: Seq<char>,
    shell: Seq<char>,
)
    requires
        m.len() > 2,
        m[1] is Some,
        m[2] == Some(shell),
        file.folder == Some(folder),
    ensures
        project_of_matches(seq![m] + rest, file, platform) == (match platform {
            Platform::Unix => if shell == "sh"@ || shell == "bash"@ || shell == "fish"@ {
                Some(ProjectView { project: folder, script: file.path, shell: shell })
            } else {
                None::<ProjectView>
            },
            Platform::Windows => if shell == "ps1"@ || shell == "bat"@ {
                Some(ProjectView { project: folder, script: file.path, shell: "cmd"@ })
            } else {
                None::<ProjectView>
            },
            Platform::Other => None::<ProjectView>,
        }),
{
    assert((seq![m] + rest)[0] == m);
}

} // verus!

verus! {

/// A log request answers `logs not found` when there is no log, `io error`
/// when it cannot be opened, and otherwise the lines that were read, in
/// order, all of them when every line was read.
pub proof fn lemma_log_answers(read: Vec<Option<String>>, lines: Seq<Seq<char>>)
    ensures
        log_answer(LogFile::Missing) == seq!["logs not found"@],
        log_answer(LogFile::Unreadable) == seq!["io error"@],
        read.deep_view() == all_read(lines) ==> log_answer(LogFile::Read(read)) == lines,
{
    lemma_ok_lines_all_read(lines);
}

/// A build whose command could not be started answers one line that says
/// so; a build that ran answers the lines of its standard output followed by
/// those of its error output; nothing ran, nothing is answered.
pub proof fn lemma_build_answers(stdout: String, stderr: String, text: String)
    ensures
        build_output(BuildOutcome::FailedToStart) == seq!["Error execution build task"@],
        build_output(BuildOutcome::NothingRun).len() == 0,
        build_output(BuildOutcome::Ran { stdout, stderr }).take(text_lines(stdout@).len() as int)
            == text_lines(stdout@),
        build_output(BuildOutcome::Ran { stdout, stderr }).skip(text_lines(stdout@).len() as int)
            == text_lines(stderr@),
        build_output(BuildOutcome::Powershell { text }) == text_lines(text@),
{
    let a = text_lines(stdout@);
    let b = text_lines(stderr@);
    assert((a + b).take(a.len() as int) =~= a);
    assert((a + b).skip(a.len() as int) =~= b);
}

} // verus!
