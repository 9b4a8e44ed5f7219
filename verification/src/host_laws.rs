//! What the host's tool server and the desktop launcher say, seen from outside.
use crate::card::ITEM_ID_PREFIX;
use crate::desktop::{
    desktop_plan_of, displayed, form_byte, form_bytes, form_encoded, new_thread_url,
    CODEX_MICROSOFT_STORE_WEB_URL, CODEX_WINDOWS_INSTALLER_URL,
};
use crate::events::CODE_MODE_SPINE_CARRIER_MARKER;
use crate::lineage::TIMED_OUT_ROUTE_RETENTION_MS;
use crate::mcp::{
    ascii_lower, ascii_lowercase, component, config_check, internal_server, is_white_space,
    name_available, optional_rendered, resource_entry, switches_on, tool_call_refusal, tool_reply,
    trimmed, trimmed_end, trimmed_start, ConfigLookup, RequestErrorView, ToolArguments, ENABLE_ENV,
    RESOURCE_MIME_TYPE, RESOURCE_URI, SERVER_NAME, TOOL_NAME,
};
use crate::protocol::ThreadId;
use crate::render::{ContentView, SCHEMA_VERSION};
use crate::resource::RESOURCE_HTML;
use crate::state::SpineUiState;
use crate::text::decimal;
use crate::unloading::{
    SPINE_UI_TERMINAL_BARRIER_TIMEOUT_MS, THREAD_UNLOADING_DELAY_MS,
    THREAD_UNLOADING_RETRY_DELAY_MS,
};
use vstd::prelude::*;
use vstd::utf8::encode_utf8;

verus! {

/// The characters that count as white space, one by one.
pub proof fn lemma_white_space_is_listed(c: char)
    ensures
        ({
            let n = c as u32;
            is_white_space(c) == (n == 9 || n == 10 || n == 11 || n == 12 || n == 13 || n == 32 || n
                == 133 || n == 160 || n == 5760 || n == 8192 || n == 8193 || n == 8194 || n == 8195
                || n == 8196 || n == 8197 || n == 8198 || n == 8199 || n == 8200 || n == 8201 || n
                == 8202 || n == 8232 || n == 8233 || n == 8239 || n == 8287 || n == 12288)
        }),
{
}

/// Whether a text is nothing but white space.
pub open spec fn blank(s: Seq<char>) -> bool {
    forall|i: int| 0 <= i < s.len() ==> is_white_space(#[trigger] s[i])
}

proof fn lemma_trimmed_start(s: Seq<char>)
    ensures
        ({
            let n = s.len() - trimmed_start(s).len();
            &&& 0 <= n <= s.len()
            &&& trimmed_start(s) == s.skip(n)
            &&& blank(s.take(n))
            &&& n < s.len() ==> !is_white_space(s[n])
        }),
    decreases s.len(),
{
    if s.len() > 0 && is_white_space(s[0]) {
        let rest = s.drop_first();
        lemma_trimmed_start(rest);
        let n = s.len() - trimmed_start(s).len();
        assert(rest.skip(n - 1) =~= s.skip(n));
        assert forall|i: int| 0 <= i < n implies is_white_space(#[trigger] s.take(n)[i]) by {
            if i > 0 {
                assert(rest.take(n - 1)[i - 1] == s[i]);
            }
        }
    } else {
        assert(s.skip(0) =~= s);
    }
}

proof fn lemma_trimmed_end(s: Seq<char>)
    ensures
        ({
            let n = trimmed_end(s).len() as int;
            &&& 0 <= n <= s.len()
            &&& trimmed_end(s) == s.take(n)
            &&& blank(s.skip(n))
            &&& n > 0 ==> !is_white_space(s[n - 1])
        }),
    decreases s.len(),
{
    if s.len() > 0 && is_white_space(s.last()) {
        let rest = s.drop_last();
        lemma_trimmed_end(rest);
        let n = trimmed_end(s).len() as int;
        assert(rest.take(n) =~= s.take(n));
        assert forall|i: int| 0 <= i < s.len() - n implies is_white_space(
            #[trigger] s.skip(n)[i],
        ) by {
            if i < rest.len() - n {
                assert(rest.skip(n)[i] == s[n + i]);
            }
        }
    } else {
        assert(s.take(s.len() as int) =~= s);
    }
}

/// Trimming takes white space off both ends and nothing else: what is left neither begins nor ends
/// with any, and with what was taken off it is the text again.
pub proof fn lemma_trimming_takes_white_space_off_the_ends(s: Seq<char>)
    ensures
        exists|a: Seq<char>, b: Seq<char>|
            #![trigger a + trimmed(s) + b]
            s == a + trimmed(s) + b && blank(a) && blank(b),
        trimmed(s).len() > 0 ==> !is_white_space(trimmed(s)[0]) && !is_white_space(
            trimmed(s).last(),
        ),
{
    lemma_trimmed_start(s);
    let middle = trimmed_start(s);
    lemma_trimmed_end(middle);
    let n = s.len() - middle.len();
    let k = trimmed(s).len() as int;
    let a = s.take(n);
    let b = middle.skip(k);
    assert(s =~= a + trimmed(s) + b);
    if k > 0 {
        assert(trimmed(s)[0] == middle[0]);
        assert(trimmed(s).last() == middle[k - 1]);
    }
}

/// A text that neither begins nor ends with white space stays as it is, with any of it around.
pub proof fn lemma_white_space_around_does_not_matter(
    a: Seq<char>,
    word: Seq<char>,
    b: Seq<char>,
)
    requires
        blank(a),
        blank(b),
        word.len() > 0 ==> !is_white_space(word[0]) && !is_white_space(word.last()),
    ensures
        trimmed(a + word + b) == word,
    decreases a.len() + b.len(),
{
    let s = a + word + b;
    if a.len() > 0 {
        assert(is_white_space(a[0]));
        assert(s[0] == a[0]);
        let rest = a.drop_first();
        assert forall|i: int| 0 <= i < rest.len() implies is_white_space(#[trigger] rest[i]) by {
            assert(a[i + 1] == rest[i]);
        }
        assert(s.drop_first() =~= rest + word + b);
        lemma_white_space_around_does_not_matter(rest, word, b);
    } else if word.len() > 0 {
        assert(s[0] == word[0]);
        assert(trimmed_start(s) == s);
        if b.len() > 0 {
            assert(is_white_space(b.last()));
            assert(s.last() == b.last());
            let rest = b.drop_last();
            assert forall|i: int| 0 <= i < rest.len() implies is_white_space(
                #[trigger] rest[i],
            ) by {
                assert(b[i] == rest[i]);
            }
            assert(s.drop_last() =~= a + word + rest);
            lemma_white_space_around_does_not_matter(a, word, rest);
            assert((a + word + rest)[0] == word[0]);
            assert(trimmed_start(a + word + rest) == a + word + rest);
        } else {
            assert(s =~= word);
        }
    } else {
        assert(s =~= b);
        lemma_trimmed_start(s);
        let n = s.len() - trimmed_start(s).len();
        if n < s.len() {
            assert(is_white_space(b[n]));
        }
        assert(trimmed_start(s) =~= Seq::<char>::empty());
        assert(word =~= Seq::<char>::empty());
    }
}

/// Whether two characters are the same but for the case of a letter, the second in lower case.
pub open spec fn same_letter(c: char, lower: char) -> bool {
    c == lower || ('a' <= lower <= 'z' && c as u32 + 32 == lower as u32)
}

/// Whether a text is a word but for the case of its letters.
pub open spec fn spells(s: Seq<char>, word: Seq<char>) -> bool {
    s.len() == word.len() && forall|i: int|
        0 <= i < word.len() ==> same_letter(#[trigger] s[i], word[i])
}

/// Lower case changes the twenty-six capital letters alone, each to its small one.
pub proof fn lemma_lower_case_changes_capitals_alone(c: char)
    ensures
        'A' <= c <= 'Z' ==> ascii_lower(c) as u32 == c as u32 + 32,
        !('A' <= c <= 'Z') ==> ascii_lower(c) == c,
{
}

proof fn lemma_spells(s: Seq<char>, word: Seq<char>)
    requires
        forall|i: int| 0 <= i < word.len() ==> !('A' <= #[trigger] word[i] <= 'Z'),
    ensures
        (ascii_lowercase(s) == word) == spells(s, word),
{
    let lower = ascii_lowercase(s);
    assert forall|c: char, w: char| !('A' <= w <= 'Z') implies #[trigger] same_letter(c, w) == (
    ascii_lower(c) == w) by {
        lemma_lower_case_changes_capitals_alone(c);
    }
    if lower == word {
        assert forall|i: int| 0 <= i < word.len() implies same_letter(#[trigger] s[i], word[i]) by {
            assert(lower[i] == ascii_lower(s[i]));
        }
    }
    if spells(s, word) {
        assert forall|i: int| 0 <= i < word.len() implies #[trigger] lower[i] == word[i] by {
            assert(same_letter(s[i], word[i]));
        }
        assert(lower =~= word);
    }
}

/// The switch is on where its value is one of three words, in any case and with white space around.
pub proof fn lemma_switch_reads_three_words(a: Seq<char>, word: Seq<char>, b: Seq<char>)
    requires
        blank(a),
        blank(b),
        word.len() > 0 ==> !is_white_space(word[0]) && !is_white_space(word.last()),
    ensures
        switches_on(a + word + b) == (spells(word, "1"@) || spells(word, "true"@) || spells(
            word,
            "on"@,
        )),
{
    lemma_white_space_around_does_not_matter(a, word, b);
    reveal_strlit("1");
    reveal_strlit("true");
    reveal_strlit("on");
    lemma_spells(word, "1"@);
    lemma_spells(word, "true"@);
    lemma_spells(word, "on"@);
}

/// The reserved name may not be configured while the tool server is enabled, and only then is it
/// refused; what went wrong before is told first.
pub proof fn lemma_name_is_reserved_while_enabled(enabled: bool, lookup: ConfigLookup)
    ensures
        ({
            let taken = enabled && lookup == ConfigLookup::Loaded(Some(true));
            let check = config_check(enabled, lookup);
            &&& check is Ok == (lookup is Loaded && !taken)
            &&& taken ==> check == Err::<(), _>(
                RequestErrorView::InvalidRequest(
                    "the configured MCP server name '"@ + SERVER_NAME@ + "' is reserved while "@
                        + ENABLE_ENV@ + " is enabled"@,
                ),
            )
            &&& lookup matches ConfigLookup::InvalidThreadId(e) ==> check == Err::<(), _>(
                RequestErrorView::InvalidRequest("invalid thread id: "@ + e@),
            )
            &&& lookup matches ConfigLookup::ThreadNotFound(e) ==> check == Err::<(), _>(
                RequestErrorView::InvalidRequest("thread not found: "@ + e@),
            )
            &&& lookup matches ConfigLookup::ReloadFailed(e) ==> check == Err::<(), _>(
                RequestErrorView::Internal("failed to reload config: "@ + e@),
            )
            &&& lookup matches ConfigLookup::Loaded(configured) ==> check == name_available(
                enabled,
                configured,
            )
        }),
{
}

/// A call of the tool is refused for its arguments, then for its thread, then for the configuration:
/// the first of these is told. It takes no arguments.
pub proof fn lemma_tool_call_is_refused_for_the_first_reason(
    enabled: bool,
    arguments: ToolArguments,
    thread_id: Result<ThreadId, String>,
    lookup: ConfigLookup,
)
    ensures
        ({
            let refusal = tool_call_refusal(enabled, arguments, thread_id, lookup);
            let check = config_check(enabled, lookup);
            &&& refusal is None == (!(arguments is Other) && thread_id is Ok && check is Ok)
            &&& arguments is Other ==> refusal == Some(
                RequestErrorView::InvalidRequest(
                    SERVER_NAME@ + "/"@ + TOOL_NAME@ + " accepts only an empty object"@,
                ),
            )
            &&& !(arguments is Other) && thread_id is Err ==> refusal == Some(
                RequestErrorView::InvalidRequest("invalid thread id: "@ + thread_id->Err_0@),
            )
            &&& !(arguments is Other) && thread_id is Ok && check is Err ==> refusal == Some(
                check->Err_0,
            )
        }),
{
}

/// The tool shows the card where there is one, under a session of the thread; where there is none it
/// says so, as an error. Two threads have two sessions.
pub proof fn lemma_tool_shows_the_card(a: Seq<char>, b: Seq<char>, content: ContentView)
    ensures
        ({
            let shown = tool_reply(a, Some(content));
            let none = tool_reply(a, None);
            &&& shown.structured_content == Some(content) && !shown.is_error && shown.text
                == "Spine Tree"@
            &&& shown.widget_session_id == Some("spine-ui-tool-"@ + a)
            &&& none.structured_content is None && none.is_error && none.widget_session_id is None
            &&& none.text == "No Spine Tree is active for this thread."@
        }),
        a != b ==> tool_reply(a, Some(content)).widget_session_id != tool_reply(
            b,
            Some(content),
        ).widget_session_id,
{
    let head = "spine-ui-tool-"@;
    assert((head + a).skip(head.len() as int) =~= a);
    assert((head + b).skip(head.len() as int) =~= b);
}

/// The component may reach no domain, and is what the tool and the listed resource lead to; the tool
/// only reads. The resource is listed where that is asked for.
pub proof fn lemma_tool_leads_to_its_component(include_resources: bool)
    ensures
        ({
            let server = internal_server(include_resources);
            let tool = server.tools[0];
            &&& server.name == SERVER_NAME@
            &&& server.tools.len() == 1 && tool.name == TOOL_NAME@
            &&& tool.read_only_hint && !tool.destructive_hint && !tool.open_world_hint
            &&& tool.resource_uri == component().uri
            &&& tool.title == "Spine Tree"@ && tool.description
                == "Host-managed read-only view of the current Spine task tree."@
            &&& server.title == "Spine UI"@ && server.version == "1"@ && server.description
                == "Read-only Spine task tree UI."@
            &&& server.resources.len() == (if include_resources {
                1int
            } else {
                0
            })
            &&& include_resources ==> server.resources[0].uri == component().uri
                && server.resources[0].mime_type == component().mime_type
                && server.resources[0].name == "spine-tree"@ && server.resources[0].title
                == "Spine Tree"@
        }),
        component().uri == RESOURCE_URI@ && component().mime_type == RESOURCE_MIME_TYPE@
            && component().text == RESOURCE_HTML@,
        component().connect_domains.len() == 0 && component().resource_domains.len() == 0,
        component().prefers_border && component().widget_height_hint == 1
            && component().widget_min_frame_height == 1,
{
}

/// A listed resource is described by what it is given and the component's kind.
pub proof fn lemma_resource_is_described(uri: Seq<char>, name: Seq<char>, title: Seq<char>)
    ensures
        ({
            let entry = resource_entry(uri, name, title);
            entry.uri == uri && entry.name == name && entry.title == title && entry.mime_type
                == RESOURCE_MIME_TYPE@ && entry.description == "Spine task tree component"@
        }),
{
}

/// A path is shown without the prefix for long paths: a share with its two backslashes, a drive as it
/// is; another path stays.
pub proof fn lemma_long_paths_are_shown_short(rest: Seq<char>)
    ensures
        displayed("\\\\?\\UNC\\"@ + rest) == "\\\\"@ + rest,
        rest.len() < 4 || rest.take(4) != "UNC\\"@ ==> displayed("\\\\?\\"@ + rest) == rest,
        rest.len() < 4 || rest.take(4) != "\\\\?\\"@ ==> displayed(rest) == rest,
{
    reveal_strlit("\\\\?\\UNC\\");
    reveal_strlit("\\\\?\\");
    reveal_strlit("UNC\\");
    let long = "\\\\?\\UNC\\"@;
    let short = "\\\\?\\"@;
    assert((long + rest).take(8) =~= long);
    assert((long + rest).skip(8) =~= rest);
    assert((short + rest).take(4) =~= short);
    assert((short + rest).skip(4) =~= rest);
    if rest.len() >= 4 && (short + rest).take(8) == long {
        assert forall|i: int| 0 <= i < 4 implies #[trigger] rest.take(4)[i] == "UNC\\"@[i] by {
            assert((short + rest).take(8)[i + 4] == rest[i]);
        }
        assert(rest.take(4) =~= "UNC\\"@);
    }
    if rest.len() >= 8 && rest.take(8) == long {
        assert forall|i: int| 0 <= i < 4 implies #[trigger] rest.take(4)[i] == short[i] by {
            assert(rest.take(8)[i] == long[i]);
        }
        assert(rest.take(4) =~= short);
    }
}

/// The number that an upper-case hexadecimal digit stands for.
pub open spec fn hex_value(c: char) -> int {
    if '0' <= c <= '9' {
        c as int - 48
    } else {
        c as int - 55
    }
}

/// In a link, letters, digits and four marks stand for themselves, a space is a plus, and every other
/// byte is a percent sign with the two upper-case hexadecimal digits of its value.
pub proof fn lemma_bytes_are_written_for_links(b: u8)
    ensures
        ({
            let text = form_byte(b);
            let c = b as char;
            let plain = ('a' <= c <= 'z') || ('A' <= c <= 'Z') || ('0' <= c <= '9') || c == '*'
                || c == '-' || c == '.' || c == '_';
            &&& plain ==> text == seq![c]
            &&& c == ' ' ==> text == seq!['+']
            &&& !plain && c != ' ' ==> {
                &&& text.len() == 3 && text[0] == '%'
                &&& forall|i: int|
                    1 <= i < 3 ==> ('0' <= #[trigger] text[i] <= '9') || ('A' <= text[i] <= 'F')
                &&& hex_value(text[1]) * 16 + hex_value(text[2]) == b
            }
        }),
{
}

/// A text is written byte by byte, in order.
pub proof fn lemma_texts_are_written_byte_by_byte(bytes: Seq<u8>, b: u8, s: Seq<char>)
    ensures
        form_bytes(Seq::empty()) == Seq::<char>::empty(),
        form_bytes(bytes.push(b)) == form_bytes(bytes) + form_byte(b),
        form_encoded(s) == form_bytes(encode_utf8(s)),
        new_thread_url(s) == "codex://threads/new?"@ + ("path"@ + seq!['='] + form_encoded(s)),
{
    assert(bytes.push(b).drop_last() =~= bytes);
}

/// An installed app opens the workspace, whose short path is told; a missing one is installed, from
/// the given place or else the usual one, with the store as the other way only then.
pub proof fn lemma_app_is_opened_or_installed(workspace: Seq<char>, url: Option<Seq<char>>)
    ensures
        ({
            let plan = desktop_plan_of(true, workspace, url);
            &&& plan is Open
            &&& plan->notice == "Opening Codex Desktop workspace "@ + displayed(workspace)
                + "..."@
            &&& plan->link == new_thread_url(workspace)
        }),
        ({
            let plan = desktop_plan_of(false, workspace, url);
            &&& plan is Install
            &&& plan->missing == "Codex Desktop not found; opening Windows installer..."@
            &&& plan->afterwards == "After installing Codex Desktop, open workspace "@ + displayed(
                workspace,
            ) + "."@
            &&& url is Some ==> plan->installer == url->0 && plan->store is None
            &&& url is None ==> plan->installer == CODEX_WINDOWS_INSTALLER_URL@ && plan->store
                == Some(CODEX_MICROSOFT_STORE_WEB_URL@)
        }),
{
}

/// The value of a decimal numeral.
pub open spec fn numeral_value(s: Seq<char>) -> int
    decreases s.len(),
{
    if s.len() == 0 {
        0
    } else {
        numeral_value(s.drop_last()) * 10 + (s.last() as int - 48)
    }
}

/// A number is written in decimal digits, without a zero in front, and reads back as itself.
pub proof fn lemma_numbers_read_back(n: nat)
    ensures
        decimal(n).len() > 0,
        forall|i: int| 0 <= i < decimal(n).len() ==> '0' <= #[trigger] decimal(n)[i] <= '9',
        n > 0 ==> decimal(n)[0] != '0',
        n == 0 ==> decimal(n).len() == 1,
        numeral_value(decimal(n)) == n,
    decreases n,
{
    if n < 10 {
        reveal_with_fuel(numeral_value, 2);
        assert(decimal(n).drop_last() =~= Seq::<char>::empty());
    } else {
        lemma_numbers_read_back(n / 10);
        assert(decimal(n).drop_last() =~= decimal(n / 10));
        assert(decimal(n)[0] == decimal(n / 10)[0]);
        assert forall|i: int| 0 <= i < decimal(n).len() implies '0' <= #[trigger] decimal(n)[i]
            <= '9' by {
            if i < decimal(n / 10).len() {
                assert(decimal(n)[i] == decimal(n / 10)[i]);
            }
        }
    }
}

/// What clients and stored histories rely on: the names of the tool and its component, the marks of
/// cards and carriers, the version of the payload, and how long things are waited for: half an hour
/// before an idle thread is unloaded and before a late end is given up, ten seconds for the children
/// of an ending turn, one second before a failed unloading is tried again.
pub proof fn lemma_names_and_delays_are_kept()
    ensures
        SERVER_NAME@ == "__codex_internal_spine_tree_ui__"@,
        TOOL_NAME@ == "spine_tree"@,
        RESOURCE_URI@ == "ui://spine/tree.html"@,
        RESOURCE_MIME_TYPE@ == "text/html;profile=mcp-app"@,
        ENABLE_ENV@ == "CODEX_SPINE_APP_UI"@,
        ITEM_ID_PREFIX@ == "spine-ui-"@,
        CODE_MODE_SPINE_CARRIER_MARKER@ == "spine.code_mode.output.v1"@,
        SCHEMA_VERSION == 1,
        THREAD_UNLOADING_DELAY_MS == 30 * 60 * 1000,
        TIMED_OUT_ROUTE_RETENTION_MS == 30 * 60 * 1000,
        SPINE_UI_TERMINAL_BARRIER_TIMEOUT_MS == 10 * 1000,
        THREAD_UNLOADING_RETRY_DELAY_MS == 1000,
{
}

/// The tool shows the payload of the card that it is given, and has nothing to show without one.
pub proof fn lemma_tool_shows_the_payload(state: SpineUiState)
    ensures
        optional_rendered(Some(&state)) == state@.rendered(),
        optional_rendered(None) is None,
{
}

} // verus!
