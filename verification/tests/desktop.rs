use spine_ui::desktop::{
    codex_app_is_installed, codex_new_thread_url, desktop_plan, display_workspace_path,
    install_succeeds, next_url, open_app_failure, powershell_single_quoted_string, windows_desktop_app_launch_script,
    DesktopPlan, CODEX_MICROSOFT_STORE_WEB_URL, CODEX_WINDOWS_INSTALLER_URL,
};

#[test]
fn display_workspace_path_removes_windows_extended_prefix() {
    assert_eq!(
        display_workspace_path(r"\\?\C:\Users\fcoury\code\codex"),
        r"C:\Users\fcoury\code\codex"
    );
}

#[test]
fn display_workspace_path_preserves_unc_prefix() {
    assert_eq!(
        display_workspace_path(r"\\?\UNC\server\share\codex"),
        r"\\server\share\codex"
    );
}

#[test]
fn display_workspace_path_leaves_regular_paths_unchanged() {
    assert_eq!(
        display_workspace_path(r"C:\Users\fcoury\code\codex"),
        r"C:\Users\fcoury\code\codex"
    );
}

#[test]
fn codex_new_thread_url_encodes_windows_workspace_path() {
    assert_eq!(
        codex_new_thread_url(r"C:\Users\akuma\repos\koba"),
        r"codex://threads/new?path=C%3A%5CUsers%5Cakuma%5Crepos%5Ckoba"
    );
}

#[test]
fn codex_new_thread_url_preserves_verbatim_workspace_path() {
    assert_eq!(
        codex_new_thread_url(r"\\?\C:\Users\akuma\repos\koba"),
        r"codex://threads/new?path=%5C%5C%3F%5CC%3A%5CUsers%5Cakuma%5Crepos%5Ckoba"
    );
}

#[test]
fn powershell_single_quoted_string_escapes_quotes() {
    assert_eq!(
        powershell_single_quoted_string("C:\\Users\\O'Neil"),
        "'C:\\Users\\O''Neil'"
    );
}

#[test]
fn launch_script_injects_spine_codex_and_deep_link() {
    let script = windows_desktop_app_launch_script(
        "codex://threads/new?path=C%3A%5Cworkspace",
        r"C:\Users\me\spine codex.exe",
    );

    assert!(script.contains("$env:CODEX_CLI_PATH = Decode-Value"));
    assert!(script.contains("'C:\\Users\\me\\spine codex.exe'"));
    assert!(script.contains("'codex://threads/new?path=C%3A%5Cworkspace'"));
    assert!(script.contains("Get-AppxPackage -Name 'OpenAI.Codex'"));
    assert!(script.contains("AppxManifest.xml"));
    assert!(script.contains("GetAttribute('Id')"));
    assert!(script.contains("GetAttribute('Executable')"));
    assert!(script.contains("$packageRoots = @($packages | ForEach-Object"));
    assert!(script.contains("$processName = [System.IO.Path]::GetFileNameWithoutExtension"));
    assert!(script.contains("Invoke-CommandInDesktopPackage"));
    assert!(script.contains("-AppId $appId"));
    assert!(script.contains("-EncodedCommand"));
    assert!(!script.contains("app.asar"));
    assert!(!script.contains("ChatGPT.exe"));
}

#[test]
fn a_link_escapes_spaces_and_other_scripts() {
    assert_eq!(
        codex_new_thread_url("a b\u{e9}&c*-._~"),
        "codex://threads/new?path=a+b%C3%A9%26c*-._%7E"
    );
    assert_eq!(
        codex_new_thread_url("a+b%20"),
        "codex://threads/new?path=a%2Bb%2520"
    );
    assert_eq!(codex_new_thread_url(""), "codex://threads/new?path=");
}

#[test]
fn quoting_keeps_every_quote() {
    assert_eq!(powershell_single_quoted_string(""), "''");
    assert_eq!(powershell_single_quoted_string("''"), "''''''");
    assert_eq!(powershell_single_quoted_string("a\u{2019}b"), "'a\u{2019}b'");
}

#[test]
fn a_launch_script_keeps_quotes_in_its_arguments() {
    let script = windows_desktop_app_launch_script("u'1", "e'2");
    assert!(script.contains("'u''1'\n"));
    assert!(script.contains("$spineCodexBin = 'e''2'\n"));
}

#[test]
fn short_prefixes_are_left_alone() {
    assert_eq!(display_workspace_path(r"\\?\"), "");
    assert_eq!(display_workspace_path(r"\\?"), r"\\?");
    assert_eq!(display_workspace_path(r"\\?\UNC"), "UNC");
    assert_eq!(display_workspace_path(r"\\?\UNC\"), r"\\");
    assert_eq!(display_workspace_path(""), "");
}

#[test]
fn the_app_is_installed_where_the_query_names_a_place() {
    assert!(codex_app_is_installed(true, "C:\\Program Files\\App\r\n"));
    assert!(!codex_app_is_installed(true, " \r\n"));
    assert!(!codex_app_is_installed(false, "C:\\Program Files\\App\r\n"));
}

#[test]
fn a_failed_launch_says_why() {
    assert_eq!(
        open_app_failure("codex://x", "exit code: 1", "  no such app\r\n"),
        "no such app"
    );
    assert_eq!(
        open_app_failure("codex://x", "exit code: 1", " \n"),
        "failed to open codex://x with exit code: 1"
    );
}

#[test]
fn an_installed_app_is_opened() {
    assert_eq!(
        desktop_plan(true, r"\\?\C:\w", Some("https://example.invalid".to_string())),
        DesktopPlan::Open {
            notice: r"Opening Codex Desktop workspace C:\w...".to_string(),
            link: "codex://threads/new?path=%5C%5C%3F%5CC%3A%5Cw".to_string(),
        }
    );
}

#[test]
fn a_missing_app_is_installed() {
    assert_eq!(
        desktop_plan(false, r"C:\w", None),
        DesktopPlan::Install {
            missing: "Codex Desktop not found; opening Windows installer...".to_string(),
            installer: CODEX_WINDOWS_INSTALLER_URL.to_string(),
            store: Some(CODEX_MICROSOFT_STORE_WEB_URL.to_string()),
            afterwards: r"After installing Codex Desktop, open workspace C:\w.".to_string(),
        }
    );
    let DesktopPlan::Install { installer, store, .. } =
        desktop_plan(false, r"C:\w", Some("https://example.invalid".to_string()))
    else {
        panic!("expected an installation");
    };
    assert_eq!(installer, "https://example.invalid");
    assert_eq!(store, None);
}

#[test]
fn the_store_is_opened_only_after_a_failed_installer() {
    let DesktopPlan::Install { store, .. } = desktop_plan(false, r"C:\w", None) else {
        panic!("expected an installation");
    };
    assert_eq!(next_url(store.clone(), true), None);
    assert_eq!(
        next_url(store, false),
        Some(CODEX_MICROSOFT_STORE_WEB_URL.to_string())
    );
    assert_eq!(next_url(None, true), None);
    assert_eq!(next_url(None, false), None);
}

#[test]
fn an_installation_fails_only_with_the_store() {
    assert!(install_succeeds(true, true, true));
    assert!(install_succeeds(true, true, false));
    assert!(install_succeeds(true, false, true));
    assert!(!install_succeeds(true, false, false));
    assert!(install_succeeds(false, false, true));
    assert!(install_succeeds(false, false, false));
    assert!(install_succeeds(false, true, false));
}
