//! Opening the desktop app on Windows: paths, links, scripts and what to do when it is missing.
use crate::mcp::{trim, trimmed};
use crate::text::join;
use vstd::prelude::*;
use vstd::utf8::encode_utf8;

verus! {

pub const CODEX_WINDOWS_INSTALLER_URL: &'static str =
    "https://get.microsoft.com/installer/download/9PLM9XGG6VKS?cid=website_cta_psi";

pub const CODEX_MICROSOFT_STORE_WEB_URL: &'static str =
    "https://apps.microsoft.com/detail/9plm9xgg6vks";

/// The launch script up to the link.
pub const LAUNCH_SCRIPT_HEAD: &'static str = r#"
$ErrorActionPreference = 'Stop'
$url = "#;

/// The line of the launch script up to the path of the executable.
pub const LAUNCH_SCRIPT_MIDDLE: &'static str = r#"$spineCodexBin = "#;

/// The lines of the launch script after the path of the executable.
pub const LAUNCH_SCRIPT_TAIL: &'static str = r#"$packages = @(Get-AppxPackage -Name 'OpenAI.Codex' -ErrorAction SilentlyContinue)
$package = $packages | Sort-Object Version -Descending | Select-Object -First 1
$installLocation = $package.InstallLocation
$packageFamilyName = $package.PackageFamilyName
if ([string]::IsNullOrWhiteSpace($installLocation) -or [string]::IsNullOrWhiteSpace($packageFamilyName)) {
    Write-Error 'Codex Desktop package is not installed'
    exit 1
}

$manifestPath = Join-Path $installLocation 'AppxManifest.xml'
if (-not (Test-Path $manifestPath)) {
    Write-Error "Codex Desktop manifest not found at $manifestPath"
    exit 1
}
$manifest = [xml](Get-Content -Raw -LiteralPath $manifestPath)
$application = $manifest.SelectSingleNode("/*[local-name()='Package']/*[local-name()='Applications']/*[local-name()='Application' and @Executable]")
if ($null -eq $application) {
    Write-Error "Codex Desktop application entry not found in $manifestPath"
    exit 1
}
$appId = $application.GetAttribute('Id')
$relativeExecutable = $application.GetAttribute('Executable')
$exe = Join-Path $installLocation ($relativeExecutable -replace '/', '\\')
$appDir = Split-Path -Parent $exe
if ([string]::IsNullOrWhiteSpace($appId) -or [string]::IsNullOrWhiteSpace($relativeExecutable) -or -not (Test-Path $exe)) {
    Write-Error "Codex Desktop executable not found at $exe"
    exit 1
}

$packageRoots = @($packages | ForEach-Object {
    if (-not [string]::IsNullOrWhiteSpace($_.InstallLocation)) { $_.InstallLocation }
} | Where-Object { $_ })
$processName = [System.IO.Path]::GetFileNameWithoutExtension($relativeExecutable)
$running = Get-Process -Name $processName,'Codex' -ErrorAction SilentlyContinue |
    Where-Object {
        $processPath = $_.Path
        $processPath -and ($packageRoots | Where-Object {
            $processPath.StartsWith($_, [System.StringComparison]::OrdinalIgnoreCase)
        })
    } |
    Select-Object -First 1
if ($null -ne $running) {
    Write-Error "Codex Desktop is already running (PID $($running.Id)); quit it completely, then rerun 'spine-codex app' so CODEX_CLI_PATH can be applied"
    exit 1
}

$innerScript = @'
function Decode-Value([string]$value) {
    [System.Text.Encoding]::UTF8.GetString([System.Convert]::FromBase64String($value))
}
$ErrorActionPreference = 'Stop'
$env:CODEX_CLI_PATH = Decode-Value '__SPINE_CODEX_BIN__'
Start-Process -FilePath (Decode-Value '__CODEX_APP_EXE__') -WorkingDirectory (Decode-Value '__CODEX_APP_DIR__') -ArgumentList @((Decode-Value '__CODEX_APP_URL__'))
'@
function Encode-Value([string]$value) {
    [System.Convert]::ToBase64String([System.Text.Encoding]::UTF8.GetBytes($value))
}
$innerScript = $innerScript.Replace('__SPINE_CODEX_BIN__', (Encode-Value $spineCodexBin))
$innerScript = $innerScript.Replace('__CODEX_APP_EXE__', (Encode-Value $exe))
$innerScript = $innerScript.Replace('__CODEX_APP_DIR__', (Encode-Value $appDir))
$innerScript = $innerScript.Replace('__CODEX_APP_URL__', (Encode-Value $url))
$encodedScript = [System.Convert]::ToBase64String([System.Text.Encoding]::Unicode.GetBytes($innerScript))
$innerArgs = '-NoProfile -NonInteractive -EncodedCommand ' + $encodedScript
Invoke-CommandInDesktopPackage -PackageFamilyName $packageFamilyName -AppId $appId -Command 'powershell.exe' -Args $innerArgs
"#;

/// A text with every quote doubled.
pub open spec fn doubled(s: Seq<char>) -> Seq<char>
    decreases s.len(),
{
    if s.len() == 0 {
        Seq::empty()
    } else if s.last() == '\'' {
        doubled(s.drop_last()).push('\'').push('\'')
    } else {
        doubled(s.drop_last()).push(s.last())
    }
}

/// A text as a single-quoted literal of PowerShell.
pub open spec fn quoted(s: Seq<char>) -> Seq<char> {
    seq!['\''] + doubled(s) + seq!['\'']
}

/// The value of a single-quoted literal that was opened, and what follows it: two quotes stand for
/// one, and one quote ends the literal.
pub open spec fn read_quoted(s: Seq<char>) -> Option<(Seq<char>, Seq<char>)>
    decreases s.len(),
{
    if s.len() == 0 {
        None
    } else if s[0] != '\'' {
        match read_quoted(s.skip(1)) {
            Some((value, rest)) => Some((seq![s[0]] + value, rest)),
            None => None,
        }
    } else if s.len() > 1 && s[1] == '\'' {
        match read_quoted(s.skip(2)) {
            Some((value, rest)) => Some((seq!['\''] + value, rest)),
            None => None,
        }
    } else {
        Some((Seq::empty(), s.skip(1)))
    }
}

/// What PowerShell reads of a single-quoted literal at the start of a text.
pub open spec fn read_literal(s: Seq<char>) -> Option<(Seq<char>, Seq<char>)> {
    if s.len() > 0 && s[0] == '\'' {
        read_quoted(s.skip(1))
    } else {
        None
    }
}

proof fn lemma_doubled_first(s: Seq<char>)
    requires
        s.len() > 0,
    ensures
        doubled(s) == (if s[0] == '\'' {
            seq!['\'', '\'']
        } else {
            seq![s[0]]
        }) + doubled(s.skip(1)),
    decreases s.len(),
{
    if s.len() == 1 {
        assert(s.drop_last() =~= Seq::empty());
        assert(s.skip(1) =~= Seq::empty());
        assert(doubled(s.drop_last()) =~= Seq::empty());
        assert(doubled(s.skip(1)) =~= Seq::empty());
        assert(doubled(s) =~= (if s[0] == '\'' {
            seq!['\'', '\'']
        } else {
            seq![s[0]]
        }) + doubled(s.skip(1)));
    } else {
        lemma_doubled_first(s.drop_last());
        assert(s.drop_last().skip(1) =~= s.skip(1).drop_last());
        assert(s.skip(1).last() == s.last());
        assert(doubled(s) =~= (if s[0] == '\'' {
            seq!['\'', '\'']
        } else {
            seq![s[0]]
        }) + doubled(s.skip(1)));
    }
}

proof fn lemma_read_doubled(value: Seq<char>, rest: Seq<char>)
    requires
        rest.len() > 0 ==> rest[0] != '\'',
    ensures
        read_quoted(doubled(value) + seq!['\''] + rest) == Some((value, rest)),
    decreases value.len(),
{
    let text = doubled(value) + seq!['\''] + rest;
    if value.len() == 0 {
        assert(text =~= seq!['\''] + rest);
        assert(text.skip(1) =~= rest);
        assert(value =~= Seq::empty());
    } else {
        lemma_doubled_first(value);
        lemma_read_doubled(value.skip(1), rest);
        let tail = doubled(value.skip(1)) + seq!['\''] + rest;
        if value[0] == '\'' {
            assert(text.skip(2) =~= tail);
            assert(seq!['\''] + value.skip(1) =~= value);
        } else {
            assert(text.skip(1) =~= tail);
            assert(seq![value[0]] + value.skip(1) =~= value);
        }
    }
}

/// A quoted text reads back as itself, wherever it stands in a script, unless another quote follows.
pub proof fn lemma_quoted_text_reads_back(value: Seq<char>, rest: Seq<char>)
    requires
        rest.len() > 0 ==> rest[0] != '\'',
    ensures
        read_literal(quoted(value) + rest) == Some((value, rest)),
{
    let text = quoted(value) + rest;
    assert(text.skip(1) =~= doubled(value) + seq!['\''] + rest);
    lemma_read_doubled(value, rest);
}

/// A text as a single-quoted literal of PowerShell.
pub fn powershell_single_quoted_string(value: &str) -> (r: String)
    ensures
        r@ == quoted(value@),
{
    let ghost all = value@;
    let n = value.unicode_len();
    let mut out = "'".to_owned();
    let mut i: usize = 0;
    proof {
        reveal_strlit("'");
        assert(all.take(0) =~= Seq::empty());
        assert(out@ =~= seq!['\''] + doubled(all.take(0)));
    }
    while i < n
        invariant
            i <= n,
            n == all.len(),
            all == value@,
            out@ == seq!['\''] + doubled(all.take(i as int)),
        decreases n - i,
    {
        let c = value.get_char(i);
        let ghost before = out@;
        proof {
            reveal_strlit("'");
            assert(all.take(i + 1).drop_last() =~= all.take(i as int));
            assert(all.subrange(i as int, i + 1) =~= seq![all[i as int]]);
        }
        out.append(value.substring_char(i, i + 1));
        if c == '\'' {
            out.append("'");
        }
        assert(out@ =~= seq!['\''] + doubled(all.take(i + 1)));
        i += 1;
    }
    proof {
        reveal_strlit("'");
        assert(all.take(i as int) =~= all);
    }
    out.append("'");
    assert(out@ =~= quoted(all));
    out
}

/// Whether a text starts with another.
pub open spec fn starts_with(s: Seq<char>, prefix: Seq<char>) -> bool {
    prefix.len() <= s.len() && s.take(prefix.len() as int) == prefix
}

/// A path as it is shown: without the prefix of an extended-length path.
pub open spec fn displayed(path: Seq<char>) -> Seq<char> {
    if starts_with(path, "\\\\?\\UNC\\"@) {
        "\\\\"@ + path.skip("\\\\?\\UNC\\"@.len() as int)
    } else if starts_with(path, "\\\\?\\"@) {
        path.skip("\\\\?\\"@.len() as int)
    } else {
        path
    }
}

/// What follows a prefix.
fn strip_prefix<'a>(s: &'a str, prefix: &str) -> (r: Option<&'a str>)
    ensures
        match r {
            Some(rest) => starts_with(s@, prefix@) && rest@ == s@.skip(prefix@.len() as int),
            None => !starts_with(s@, prefix@),
        },
{
    let n = prefix.unicode_len();
    let len = s.unicode_len();
    if n > len {
        return None;
    }
    let mut i: usize = 0;
    while i < n
        invariant
            i <= n <= len,
            n == prefix@.len(),
            len == s@.len(),
            forall|k: int| 0 <= k < i ==> s@[k] == prefix@[k],
        decreases n - i,
    {
        if s.get_char(i) != prefix.get_char(i) {
            assert(s@.take(prefix@.len() as int)[i as int] != prefix@[i as int]);
            return None;
        }
        i += 1;
    }
    assert(s@.take(prefix@.len() as int) =~= prefix@);
    assert(s@.subrange(n as int, len as int) =~= s@.skip(n as int));
    Some(s.substring_char(n, len))
}

/// A path as it is shown.
pub fn display_workspace_path(workspace: &str) -> (r: String)
    ensures
        r@ == displayed(workspace@),
{
    match strip_prefix(workspace, "\\\\?\\UNC\\") {
        Some(path) => join("\\\\", path),
        None => match strip_prefix(workspace, "\\\\?\\") {
            Some(path) => path.to_owned(),
            None => workspace.to_owned(),
        },
    }
}

/// Whether a byte stands for itself in a form-encoded text.
pub open spec fn form_safe(b: u8) -> bool {
    (0x30 <= b <= 0x39) || (0x41 <= b <= 0x5a) || (0x61 <= b <= 0x7a) || b == 0x2a || b == 0x2d || b
        == 0x2e || b == 0x5f
}

/// The upper-case hexadecimal digit of a number below sixteen.
pub open spec fn hex_digit(n: u8) -> char {
    if n < 10 {
        (0x30 + n) as char
    } else {
        (0x37 + n) as char
    }
}

/// A byte in a form-encoded text.
pub open spec fn form_byte(b: u8) -> Seq<char> {
    if form_safe(b) {
        seq![b as char]
    } else if b == 0x20 {
        seq!['+']
    } else {
        seq!['%', hex_digit(b / 16), hex_digit(b % 16)]
    }
}

/// The form encoding of some bytes.
pub open spec fn form_bytes(bytes: Seq<u8>) -> Seq<char>
    decreases bytes.len(),
{
    if bytes.len() == 0 {
        Seq::empty()
    } else {
        form_bytes(bytes.drop_last()) + form_byte(bytes.last())
    }
}

/// The form encoding of a text: that of its UTF-8 bytes.
pub open spec fn form_encoded(s: Seq<char>) -> Seq<char> {
    form_bytes(encode_utf8(s))
}

/// Encodes one name with its value by `url::form_urlencoded::Serializer`: `new` on an empty string,
/// `append_pair`, `finish`. The result is the form encoding of the name, an equals sign, and the
/// form encoding of the value; each byte that is no letter, digit, `*`, `-`, `.` or `_` is written
/// as a percent sign with two upper-case hexadecimal digits, but for the space, which is a plus.
#[verifier::external_body]
fn form_pair(name: &str, value: &str) -> (r: String)
    ensures
        r@ == form_encoded(name@) + seq!['='] + form_encoded(value@),
{
    let mut serializer = url::form_urlencoded::Serializer::new(String::new());
    serializer.append_pair(name, value);
    serializer.finish()
}

proof fn lemma_path_key()
    ensures
        form_encoded("path"@) == "path"@,
{
    let key = "path"@;
    reveal_strlit("path");
    assert(vstd::utf8::is_ascii_chars(key));
    vstd::utf8::is_ascii_chars_encode_utf8(key);
    let bytes = encode_utf8(key);
    assert(bytes =~= seq![0x70u8, 0x61u8, 0x74u8, 0x68u8]);
    assert(bytes.drop_last() =~= seq![0x70u8, 0x61u8, 0x74u8]);
    assert(bytes.drop_last().drop_last() =~= seq![0x70u8, 0x61u8]);
    assert(bytes.drop_last().drop_last().drop_last() =~= seq![0x70u8]);
    assert(bytes.drop_last().drop_last().drop_last().drop_last() =~= Seq::empty());
    reveal_with_fuel(form_bytes, 5);
    assert(form_bytes(bytes) =~= key);
}

/// The link that opens a new thread of a workspace.
pub open spec fn new_thread_url(workspace: Seq<char>) -> Seq<char> {
    "codex://threads/new?"@ + ("path"@ + seq!['='] + form_encoded(workspace))
}

/// No byte is written as another one is.
proof fn lemma_form_byte_is_unique(a: u8, b: u8)
    requires
        form_byte(a) == form_byte(b),
    ensures
        a == b,
{
    let x = form_byte(a);
    let y = form_byte(b);
    assert(x[0] == y[0]);
    if x.len() == 3 {
        assert(x[1] == y[1] && x[2] == y[2]);
        assert(a / 16 == b / 16);
        assert(a % 16 == b % 16);
    }
}

/// The last two characters of a form encoding are no percent signs.
proof fn lemma_form_end(bytes: Seq<u8>)
    ensures
        ({
            let text = form_bytes(bytes);
            &&& text.len() >= 1 ==> text[text.len() - 1] != '%'
            &&& text.len() >= 2 ==> text[text.len() - 2] != '%'
        }),
    decreases bytes.len(),
{
    if bytes.len() > 0 {
        lemma_form_end(bytes.drop_last());
        let front = form_bytes(bytes.drop_last());
        let end = form_byte(bytes.last());
        let text = front + end;
        assert(text[text.len() - 1] == end.last());
        if end.len() == 1 && front.len() > 0 {
            assert(text[text.len() - 2] == front.last());
        }
    }
}

/// Different bytes have different form encodings.
proof fn lemma_form_bytes_are_unique(a: Seq<u8>, b: Seq<u8>)
    requires
        form_bytes(a) == form_bytes(b),
    ensures
        a == b,
    decreases a.len(),
{
    if a.len() > 0 && b.len() > 0 {
        let (front_a, end_a) = (form_bytes(a.drop_last()), form_byte(a.last()));
        let (front_b, end_b) = (form_bytes(b.drop_last()), form_byte(b.last()));
        let text = form_bytes(a);
        lemma_form_end(a.drop_last());
        lemma_form_end(b.drop_last());
        if end_a.len() == 3 {
            assert(text[text.len() - 3] == '%');
        } else if text.len() >= 3 {
            assert(text[text.len() - 3] == front_a[front_a.len() - 2]);
        }
        if end_b.len() == 3 {
            assert(text[text.len() - 3] == '%');
        } else if text.len() >= 3 {
            assert(text[text.len() - 3] == front_b[front_b.len() - 2]);
        }
        assert(end_a.len() == end_b.len());
        assert(front_a =~= text.take(front_a.len() as int));
        assert(front_b =~= text.take(front_a.len() as int));
        assert(end_a =~= text.skip(front_a.len() as int));
        assert(end_b =~= text.skip(front_a.len() as int));
        lemma_form_byte_is_unique(a.last(), b.last());
        lemma_form_bytes_are_unique(a.drop_last(), b.drop_last());
        assert(a =~= a.drop_last().push(a.last()));
        assert(b =~= b.drop_last().push(b.last()));
    } else {
        assert(a.len() > 0 ==> form_bytes(a).len() > 0);
        assert(b.len() > 0 ==> form_bytes(b).len() > 0);
        assert(a =~= b);
    }
}

/// A link opens one workspace: different workspaces have different links.
pub proof fn lemma_link_names_its_workspace(a: Seq<char>, b: Seq<char>)
    ensures
        new_thread_url(a) == new_thread_url(b) <==> a == b,
{
    if new_thread_url(a) == new_thread_url(b) {
        let head = "codex://threads/new?"@ + ("path"@ + seq!['=']);
        assert(new_thread_url(a) =~= head + form_encoded(a));
        assert(new_thread_url(b) =~= head + form_encoded(b));
        assert(form_encoded(a) =~= new_thread_url(a).skip(head.len() as int));
        assert(form_encoded(b) =~= new_thread_url(b).skip(head.len() as int));
        lemma_form_bytes_are_unique(encode_utf8(a), encode_utf8(b));
        vstd::utf8::encode_utf8_decode_utf8(a);
        vstd::utf8::encode_utf8_decode_utf8(b);
    }
}

/// The link that opens a new thread of a workspace.
pub fn codex_new_thread_url(workspace: &str) -> (r: String)
    ensures
        r@ == new_thread_url(workspace@),
{
    proof {
        lemma_path_key();
    }
    join("codex://threads/new?", form_pair("path", workspace).as_str())
}

/// The script that launches the desktop app with a link, on this executable.
pub open spec fn launch_script(url: Seq<char>, executable: Seq<char>) -> Seq<char> {
    LAUNCH_SCRIPT_HEAD@ + quoted(url) + "\n"@ + LAUNCH_SCRIPT_MIDDLE@ + quoted(executable) + "\n"@
        + LAUNCH_SCRIPT_TAIL@
}

/// The script that launches the desktop app with a link, on this executable.
pub fn windows_desktop_app_launch_script(url: &str, spine_codex_bin: &str) -> (r: String)
    ensures
        r@ == launch_script(url@, spine_codex_bin@),
{
    let url = powershell_single_quoted_string(url);
    let bin = powershell_single_quoted_string(spine_codex_bin);
    let script = join(LAUNCH_SCRIPT_HEAD, url.as_str());
    let script = join(script.as_str(), "\n");
    let script = join(script.as_str(), LAUNCH_SCRIPT_MIDDLE);
    let script = join(script.as_str(), bin.as_str());
    let script = join(script.as_str(), "\n");
    join(script.as_str(), LAUNCH_SCRIPT_TAIL)
}

/// PowerShell reads the link and the executable in the launch script as they were given.
pub proof fn lemma_launch_script_keeps_its_arguments(url: Seq<char>, executable: Seq<char>)
    ensures
        ({
            let script = launch_script(url, executable);
            let last = "\n"@ + LAUNCH_SCRIPT_TAIL@;
            let after_url = "\n"@ + LAUNCH_SCRIPT_MIDDLE@ + quoted(executable) + last;
            &&& read_literal(script.skip(LAUNCH_SCRIPT_HEAD@.len() as int)) == Some(
                (url, after_url),
            )
            &&& read_literal(after_url.skip(1 + LAUNCH_SCRIPT_MIDDLE@.len() as int)) == Some(
                (executable, last),
            )
        }),
{
    let script = launch_script(url, executable);
    let last = "\n"@ + LAUNCH_SCRIPT_TAIL@;
    let after_url = "\n"@ + LAUNCH_SCRIPT_MIDDLE@ + quoted(executable) + last;
    reveal_strlit("\n");
    assert(script.skip(LAUNCH_SCRIPT_HEAD@.len() as int) =~= quoted(url) + after_url);
    assert(after_url.skip(1 + LAUNCH_SCRIPT_MIDDLE@.len() as int) =~= quoted(executable) + last);
    lemma_quoted_text_reads_back(url, after_url);
    lemma_quoted_text_reads_back(executable, last);
}

/// Whether the desktop app is installed, by what the query for its location printed.
pub fn codex_app_is_installed(success: bool, stdout: &str) -> (r: bool)
    ensures
        r == (success && trimmed(stdout@).len() > 0),
{
    success && trim(stdout).unicode_len() > 0
}

/// Why the desktop app could not be opened: what the launch wrote, or else how it ended.
pub fn open_app_failure(url: &str, status: &str, stderr: &str) -> (r: String)
    ensures
        r@ == (if trimmed(stderr@).len() > 0 {
            trimmed(stderr@)
        } else {
            "failed to open "@ + url@ + " with "@ + status@
        }),
{
    let written = trim(stderr);
    if written.unicode_len() > 0 {
        return written.to_owned();
    }
    let start = join("failed to open ", url);
    let start = join(start.as_str(), " with ");
    join(start.as_str(), status)
}

/// What opening a workspace in the desktop app takes.
#[derive(Debug, PartialEq, Eq)]
pub enum DesktopPlan {
    /// Say so, and launch the app with the link.
    Open { notice: String, link: String },
    /// Say so, open the installer, then what `next_url` gives; where `install_succeeds`, say what to
    /// do.
    Install { missing: String, installer: String, store: Option<String>, afterwards: String },
}

pub enum DesktopPlanView {
    Open { notice: Seq<char>, link: Seq<char> },
    Install {
        missing: Seq<char>,
        installer: Seq<char>,
        store: Option<Seq<char>>,
        afterwards: Seq<char>,
    },
}

impl View for DesktopPlan {
    type V = DesktopPlanView;

    open spec fn view(&self) -> DesktopPlanView {
        match self {
            DesktopPlan::Open { notice, link } => DesktopPlanView::Open {
                notice: notice@,
                link: link@,
            },
            DesktopPlan::Install {
                missing,
                installer,
                store,
                afterwards,
            } => DesktopPlanView::Install {
                missing: missing@,
                installer: installer@,
                store: crate::text::text_view(*store),
                afterwards: afterwards@,
            },
        }
    }
}

/// What opening a workspace in the desktop app takes.
pub open spec fn desktop_plan_of(
    installed: bool,
    workspace: Seq<char>,
    download_url_override: Option<Seq<char>>,
) -> DesktopPlanView {
    if installed {
        DesktopPlanView::Open {
            notice: "Opening Codex Desktop workspace "@ + displayed(workspace) + "..."@,
            link: new_thread_url(workspace),
        }
    } else {
        DesktopPlanView::Install {
            missing: "Codex Desktop not found; opening Windows installer..."@,
            installer: match download_url_override {
                Some(url) => url,
                None => CODEX_WINDOWS_INSTALLER_URL@,
            },
            store: if download_url_override is Some {
                None
            } else {
                Some(CODEX_MICROSOFT_STORE_WEB_URL@)
            },
            afterwards: "After installing Codex Desktop, open workspace "@ + displayed(workspace)
                + "."@,
        }
    }
}

pub fn desktop_plan(
    installed: bool,
    workspace: &str,
    download_url_override: Option<String>,
) -> (r: DesktopPlan)
    ensures
        r@ == desktop_plan_of(
            installed,
            workspace@,
            crate::text::text_view(download_url_override),
        ),
{
    let shown = display_workspace_path(workspace);
    if installed {
        let notice = join("Opening Codex Desktop workspace ", shown.as_str());
        return DesktopPlan::Open {
            notice: join(notice.as_str(), "..."),
            link: codex_new_thread_url(workspace),
        };
    }
    let afterwards = join("After installing Codex Desktop, open workspace ", shown.as_str());
    let afterwards = join(afterwards.as_str(), ".");
    let missing = "Codex Desktop not found; opening Windows installer...".to_owned();
    match download_url_override {
        Some(url) => DesktopPlan::Install { missing, installer: url, store: None, afterwards },
        None => DesktopPlan::Install {
            missing,
            installer: CODEX_WINDOWS_INSTALLER_URL.to_owned(),
            store: Some(CODEX_MICROSOFT_STORE_WEB_URL.to_owned()),
            afterwards,
        },
    }
}

/// The page to open after the installer: the store, where there is one and the installer did not
/// open.
pub open spec fn next_url_of(store: Option<Seq<char>>, opened: bool) -> Option<Seq<char>> {
    if opened {
        None
    } else {
        store
    }
}

/// The page to open after the installer, given whether the installer opened.
pub fn next_url(store: Option<String>, opened: bool) -> (r: Option<String>)
    ensures
        crate::text::text_view(r) == next_url_of(crate::text::text_view(store), opened),
{
    if opened {
        None
    } else {
        store
    }
}

/// Whether an installation goes on to say what to do: only a store that had to be opened and did
/// not open stops it.
pub open spec fn install_goes_on(has_store: bool, first: bool, second: bool) -> bool {
    first || !has_store || second
}

/// Whether an installation succeeds, given whether the installer opened, and whether the store did
/// where it had to.
pub fn install_succeeds(has_store: bool, first: bool, second: bool) -> (r: bool)
    ensures
        r == install_goes_on(has_store, first, second),
{
    first || !has_store || second
}

/// The pages that an installation opens, in order, given whether the installer opens.
pub open spec fn opened_urls(
    installer: Seq<char>,
    store: Option<Seq<char>>,
    opened: bool,
) -> Seq<Seq<char>> {
    match next_url_of(store, opened) {
        Some(url) => seq![installer, url],
        None => seq![installer],
    }
}

/// Where the app is missing, the installer that was asked for is opened and nothing else, whatever
/// comes of it. Where none was asked for, the usual one is opened, and the store after it exactly
/// where it fails; only both failing makes the installation fail.
pub proof fn lemma_store_is_the_last_resort(
    workspace: Seq<char>,
    download_url_override: Option<Seq<char>>,
    first: bool,
    second: bool,
)
    ensures
        match desktop_plan_of(false, workspace, download_url_override) {
            DesktopPlanView::Install { installer, store, .. } => {
                &&& opened_urls(installer, store, first) == match download_url_override {
                    Some(url) => seq![url],
                    None => if first {
                        seq![CODEX_WINDOWS_INSTALLER_URL@]
                    } else {
                        seq![CODEX_WINDOWS_INSTALLER_URL@, CODEX_MICROSOFT_STORE_WEB_URL@]
                    },
                }
                &&& !install_goes_on(store is Some, first, second) <==> download_url_override is None
                    && !first && !second
            },
            DesktopPlanView::Open { .. } => false,
        },
{
}

} // verus!
