use jarman::install::{desktop_icon_answer, install_base, install_folder, shortcut_script, ShortcutOutcome};
use jarman::project::Platform;

#[test]
fn the_program_folder_is_added_with_one_separator() {
    assert_eq!(install_folder("/opt", "/"), "/opt/Jarman");
    assert_eq!(install_folder("/opt/", "/"), "/opt/Jarman");
    assert_eq!(install_folder("C:\\Program Files", "\\"), "C:\\Program Files\\Jarman");
    assert_eq!(install_folder(".", "/"), "./Jarman");
    assert_eq!(install_folder("", "/"), "/Jarman");
}

#[test]
fn the_install_base_depends_on_the_platform() {
    assert_eq!(install_base(Platform::Unix, Some("/x".to_string()), true), ".");
    assert_eq!(install_base(Platform::Other, None, true), ".");
    assert_eq!(install_base(Platform::Windows, Some("D:\\Apps".to_string()), false), "D:\\Apps");
    assert_eq!(install_base(Platform::Windows, None, true), "C:\\Program Files");
    assert_eq!(install_base(Platform::Windows, None, false), ".");
}

#[test]
fn the_shortcut_script_names_both_paths() {
    let s = shortcut_script("C:\\Jarman\\jarman.exe", "C:\\Users\\me\\Desktop\\Jarman.lnk");
    let expected = format!(
        r#"
                $SourceFileLocation="{executable}"
                $ShortcutLocation="{desctop_link}"
                $WScriptShell=New-Object -ComObject WScript.Shell
                $Shortcut=$WScriptShell.CreateShortcut($ShortcutLocation)
                $Shortcut.TargetPath=$SourceFileLocation
                $Shortcut.Save()"#,
        executable = "C:\\Jarman\\jarman.exe",
        desctop_link = "C:\\Users\\me\\Desktop\\Jarman.lnk"
    );
    assert_eq!(s, expected);
}

#[test]
fn desktop_icon_answers() {
    assert_eq!(
        desktop_icon_answer(ShortcutOutcome::NotWindows),
        Err("Desktop icon can be create only on windows-based systems".to_string())
    );
    assert_eq!(desktop_icon_answer(ShortcutOutcome::NoProfile), Err("Path not exist".to_string()));
    assert_eq!(desktop_icon_answer(ShortcutOutcome::Created), Ok("created".to_string()));
    assert_eq!(desktop_icon_answer(ShortcutOutcome::Failed), Err("fail".to_string()));
}

#[test]
fn start_arguments_name_the_folder_and_the_program() {
    assert_eq!(
        jarman::install::start_args("C:\\Jarman", "jarman.exe"),
        vec!["/C", "start", "/D", "C:\\Jarman", "jarman.exe"]
    );
}
