//! Installation: where the program installs itself, and the PowerShell
//! script that puts a shortcut to it on the Windows desktop.
use vstd::prelude::*;
use crate::project::Platform;
use crate::text::chars_of;

verus! {

broadcast use vstd::string::group_string_axioms;

/// The program's name, which is also the name of its installation folder.
pub open spec fn program() -> Seq<char> {
    "Jarman"@
}

/// Whether `s` ends with `suffix`.
pub open spec fn ends_with(s: Seq<char>, suffix: Seq<char>) -> bool {
    suffix.len() <= s.len() && s.subrange(s.len() - suffix.len(), s.len() as int) == suffix
}

/// Whether `s` ends with `suffix`.
fn ends_with_text(s: &str, suffix: &str) -> (r: bool)
    ensures
        r == ends_with(s@, suffix@),
{
    let x = chars_of(s);
    let y = chars_of(suffix);
    if y.len() > x.len() {
        return false;
    }
    let d = x.len() - y.len();
    let mut i: usize = 0;
    while i < y.len()
        invariant
            i <= y.len(),
            x@ == s@,
            y@ == suffix@,
            d == x.len() - y.len(),
            forall|j: int| 0 <= j < i ==> x@[d + j] == y@[j],
        decreases y.len() - i,
    {
        if x[d + i] != y[i] {
            assert(s@.subrange(d as int, s@.len() as int)[i as int] == x@[d + i]);
            return false;
        }
        i = i + 1;
    }
    assert(s@.subrange(d as int, s@.len() as int) =~= suffix@);
    true
}

/// The folder in which the program is installed under `base`: `base`,
/// followed by the path separator `separator` unless it already ends with
/// it, followed by the program's name.
pub fn install_folder(base: &str, separator: &str) -> (r: String)
    ensures
        r@ == if ends_with(base@, separator@) {
            base@ + program()
        } else {
            base@ + separator@ + program()
        },
        r@ == if ends_with(base@, separator@) {
            base@ + "Jarman"@
        } else {
            base@ + separator@ + "Jarman"@
        },
{
    let mut folder = base.to_string();
    if !ends_with_text(base, separator) {
        folder.append(separator);
    }
    folder.append("Jarman");
    folder
}

/// The folder under which the program is installed on `platform`: on
/// Windows, the folder that `PROGRAMFILES` names when it is set, else
/// `C:\Program Files` when that exists, else the working folder; elsewhere
/// the working folder.
pub fn install_base(platform: Platform, program_files: Option<String>, program_files_exists: bool) -> (r: String)
    ensures
        r@ == match platform {
            Platform::Windows => match program_files {
                Some(p) => p@,
                None => if program_files_exists {
                    "C:\\Program Files"@
                } else {
                    "."@
                },
            },
            _ => "."@,
        },
{
    match platform {
        Platform::Windows => match program_files {
            Some(p) => p,
            None => if program_files_exists {
                "C:\\Program Files".to_string()
            } else {
                ".".to_string()
            },
        },
        _ => ".".to_string(),
    }
}

/// The PowerShell script that creates the shortcut `link` to `executable`.
pub open spec fn shortcut_script_text(executable: Seq<char>, link: Seq<char>) -> Seq<char> {
    "\n                $SourceFileLocation=\""@ + executable
        + "\"\n                $ShortcutLocation=\""@ + link
        + "\"\n                $WScriptShell=New-Object -ComObject WScript.Shell\n                $Shortcut=$WScriptShell.CreateShortcut($ShortcutLocation)\n                $Shortcut.TargetPath=$SourceFileLocation\n                $Shortcut.Save()"@
}

/// The PowerShell script that creates the shortcut `link` to `executable`.
pub fn shortcut_script(executable: &str, link: &str) -> (r: String)
    ensures
        r@ == shortcut_script_text(executable@, link@),
{
    let mut script = "\n                $SourceFileLocation=\"".to_string();
    script.append(executable);
    script.append("\"\n                $ShortcutLocation=\"");
    script.append(link);
    script.append(
        "\"\n                $WScriptShell=New-Object -ComObject WScript.Shell\n                $Shortcut=$WScriptShell.CreateShortcut($ShortcutLocation)\n                $Shortcut.TargetPath=$SourceFileLocation\n                $Shortcut.Save()",
    );
    script
}

/// What came of an attempt to put a shortcut on the desktop.
pub enum ShortcutOutcome {
    /// The platform is not Windows.
    NotWindows,
    /// The user's profile folder is not known.
    NoProfile,
    /// The shortcut script ran.
    Created,
    /// The shortcut script failed.
    Failed,
}

/// The answer to a request for a desktop shortcut, given what came of it.
pub fn desktop_icon_answer(outcome: ShortcutOutcome) -> (r: Result<String, String>)
    ensures
        match outcome {
            ShortcutOutcome::NotWindows => r matches Err(e) && e@
                == "Desktop icon can be create only on windows-based systems"@,
            ShortcutOutcome::NoProfile => r matches Err(e) && e@ == "Path not exist"@,
            ShortcutOutcome::Created => r matches Ok(m) && m@ == "created"@,
            ShortcutOutcome::Failed => r matches Err(e) && e@ == "fail"@,
        },
{
    match outcome {
        ShortcutOutcome::NotWindows => Err(
            "Desktop icon can be create only on windows-based systems".to_string(),
        ),
        ShortcutOutcome::NoProfile => Err("Path not exist".to_string()),
        ShortcutOutcome::Created => Ok("created".to_string()),
        ShortcutOutcome::Failed => Err("fail".to_string()),
    }
}

} // verus!

verus! {

/// The arguments of `cmd` that start the program `exe` in the folder `dir`.
pub fn start_args(dir: &str, exe: &str) -> (r: Vec<String>)
    ensures
        r.deep_view() == seq!["/C"@, "start"@, "/D"@, dir@, exe@],
{
    let r = vec!["/C".to_string(), "start".to_string(), "/D".to_string(), dir.to_string(), exe.to_string()];
    assert(r.deep_view() =~= seq!["/C"@, "start"@, "/D"@, dir@, exe@]);
    r
}

} // verus!

verus! {

/// The shortcut script is one fixed template with the two paths put in,
/// whatever they hold: a fixed text, the executable, a fixed text, the link,
/// and a fixed text that ends by saving the shortcut.
pub proof fn lemma_shortcut_script_template(executable: Seq<char>, link: Seq<char>)
    ensures
        shortcut_script_text(executable, link) == "\n                $SourceFileLocation=\""@
            + executable + "\"\n                $ShortcutLocation=\""@ + link
            + "\"\n                $WScriptShell=New-Object -ComObject WScript.Shell\n                $Shortcut=$WScriptShell.CreateShortcut($ShortcutLocation)\n                $Shortcut.TargetPath=$SourceFileLocation\n                $Shortcut.Save()"@,
        ends_with(shortcut_script_text(executable, link), "$Shortcut.Save()"@),
{
    let tail = "\"\n                $WScriptShell=New-Object -ComObject WScript.Shell\n                $Shortcut=$WScriptShell.CreateShortcut($ShortcutLocation)\n                $Shortcut.TargetPath=$SourceFileLocation\n                $Shortcut.Save()"@;
    let save = "$Shortcut.Save()"@;
    reveal_strlit("\"\n                $WScriptShell=New-Object -ComObject WScript.Shell\n                $Shortcut=$WScriptShell.CreateShortcut($ShortcutLocation)\n                $Shortcut.TargetPath=$SourceFileLocation\n                $Shortcut.Save()");
    reveal_strlit("$Shortcut.Save()");
    let t = shortcut_script_text(executable, link);
    let head = "\n                $SourceFileLocation=\""@ + executable + "\"\n                $ShortcutLocation=\""@ + link;
    assert(t == head + tail);
    assert(tail.subrange(tail.len() - save.len(), tail.len() as int) =~= save);
    assert(t.subrange(t.len() - save.len(), t.len() as int) =~= tail.subrange(
        tail.len() - save.len(),
        tail.len() as int,
    ));
}

/// Two shortcut scripts differ only in the paths put in: after the link
/// they end alike, and before the executable they start alike.
pub proof fn lemma_shortcut_scripts_differ_only_in_paths(e1: Seq<char>, l1: Seq<char>, e2: Seq<char>, l2: Seq<char>)
    ensures
        ({
            let t1 = shortcut_script_text(e1, l1);
            let t2 = shortcut_script_text(e2, l2);
            &&& t1.len() - e1.len() - l1.len() == t2.len() - e2.len() - l2.len()
            &&& t1.skip(t1.len() - (t1.len() - e1.len() - l1.len() - "\n                $SourceFileLocation=\""@.len() - "\"\n                $ShortcutLocation=\""@.len()))
                == t2.skip(t2.len() - (t2.len() - e2.len() - l2.len() - "\n                $SourceFileLocation=\""@.len() - "\"\n                $ShortcutLocation=\""@.len()))
            &&& t1.take("\n                $SourceFileLocation=\""@.len() as int) == t2.take("\n                $SourceFileLocation=\""@.len() as int)
        }),
{
    let p = "\n                $SourceFileLocation=\""@;
    let m = "\"\n                $ShortcutLocation=\""@;
    let s = "\"\n                $WScriptShell=New-Object -ComObject WScript.Shell\n                $Shortcut=$WScriptShell.CreateShortcut($ShortcutLocation)\n                $Shortcut.TargetPath=$SourceFileLocation\n                $Shortcut.Save()"@;
    let t1 = shortcut_script_text(e1, l1);
    let t2 = shortcut_script_text(e2, l2);
    assert(t1 == p + e1 + m + l1 + s);
    assert(t2 == p + e2 + m + l2 + s);
    assert(t1.skip(t1.len() - s.len()) =~= s);
    assert(t2.skip(t2.len() - s.len()) =~= s);
    assert(t1.take(p.len() as int) =~= p);
    assert(t2.take(p.len() as int) =~= p);
}

} // verus!
