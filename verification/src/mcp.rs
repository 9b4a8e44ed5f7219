//! The internal tool server: its switch, its reserved name, its resource and its tool.
use crate::keyed::views;
use crate::protocol::ThreadId;
use crate::render::{content_view, ContentView, SpineUiContent};
use crate::resource::RESOURCE_HTML;
use crate::state::SpineUiState;
use crate::text::{join, same_text, text_view};
use vstd::prelude::*;

verus! {

/// The environment variable that switches the card on.
pub const ENABLE_ENV: &'static str = "CODEX_SPINE_APP_UI";

pub const SERVER_NAME: &'static str = "__codex_internal_spine_tree_ui__";

pub const TOOL_NAME: &'static str = "spine_tree";

pub const RESOURCE_URI: &'static str = "ui://spine/tree.html";

pub const RESOURCE_MIME_TYPE: &'static str = "text/html;profile=mcp-app";

/// The characters with the Unicode White_Space property.
pub open spec fn is_white_space(c: char) -> bool {
    let n = c as u32;
    ||| 0x9 <= n <= 0xD
    ||| n == 0x20
    ||| n == 0x85
    ||| n == 0xA0
    ||| n == 0x1680
    ||| 0x2000 <= n <= 0x200A
    ||| n == 0x2028
    ||| n == 0x2029
    ||| n == 0x202F
    ||| n == 0x205F
    ||| n == 0x3000
}

fn white_space(c: char) -> (r: bool)
    ensures
        r == is_white_space(c),
{
    let n: u32 = c as u32;
    (0x9 <= n && n <= 0xD) || n == 0x20 || n == 0x85 || n == 0xA0 || n == 0x1680 || (0x2000 <= n
        && n <= 0x200A) || n == 0x2028 || n == 0x2029 || n == 0x202F || n == 0x205F || n == 0x3000
}

/// A text without its leading white space.
pub open spec fn trimmed_start(s: Seq<char>) -> Seq<char>
    decreases s.len(),
{
    if s.len() > 0 && is_white_space(s[0]) {
        trimmed_start(s.drop_first())
    } else {
        s
    }
}

/// A text without its trailing white space.
pub open spec fn trimmed_end(s: Seq<char>) -> Seq<char>
    decreases s.len(),
{
    if s.len() > 0 && is_white_space(s.last()) {
        trimmed_end(s.drop_last())
    } else {
        s
    }
}

/// A text without the white space around it.
pub open spec fn trimmed(s: Seq<char>) -> Seq<char> {
    trimmed_end(trimmed_start(s))
}

/// A character with an ASCII capital turned into its small letter.
pub open spec fn ascii_lower(c: char) -> char {
    if 'A' <= c <= 'Z' {
        (c as u32 + 32) as char
    } else {
        c
    }
}

pub open spec fn ascii_lowercase(s: Seq<char>) -> Seq<char> {
    s.map_values(|c: char| ascii_lower(c))
}

/// The values that switch the card on: `1`, `true` and `on`, in any ASCII case, with white space
/// around them.
pub open spec fn switches_on(value: Seq<char>) -> bool {
    let word = ascii_lowercase(trimmed(value));
    word == "1"@ || word == "true"@ || word == "on"@
}

/// A text without white space at its ends.
pub fn trim(s: &str) -> (r: &str)
    ensures
        r@ == trimmed(s@),
{
    let n = s.unicode_len();
    let ghost all = s@;
    let mut from: usize = 0;
    assert(all.skip(0) =~= all);
    while from < n && white_space(s.get_char(from))
        invariant
            from <= n,
            n == all.len(),
            all == s@,
            trimmed_start(all) == trimmed_start(all.skip(from as int)),
        decreases n - from,
    {
        proof {
            let rest = all.skip(from as int);
            assert(rest[0] == all[from as int]);
            assert(rest.drop_first() =~= all.skip(from + 1));
        }
        from += 1;
    }
    proof {
        if from < n {
            assert(all.skip(from as int)[0] == all[from as int]);
        }
        assert(trimmed_start(all) == all.skip(from as int));
    }
    let ghost start = all.skip(from as int);
    let mut to: usize = n;
    assert(start =~= all.subrange(from as int, to as int));
    while to > from && white_space(s.get_char(to - 1))
        invariant
            from <= to <= n,
            n == all.len(),
            all == s@,
            trimmed_end(start) == trimmed_end(all.subrange(from as int, to as int)),
        decreases to,
    {
        proof {
            let rest = all.subrange(from as int, to as int);
            assert(rest.last() == all[to - 1]);
            assert(rest.drop_last() =~= all.subrange(from as int, to - 1));
        }
        to -= 1;
    }
    proof {
        if to > from {
            assert(all.subrange(from as int, to as int).last() == all[to - 1]);
        }
    }
    s.substring_char(from, to)
}

/// Whether a text in small letters equals another.
fn lower_equals(s: &str, word: &str) -> (r: bool)
    ensures
        r == (ascii_lowercase(s@) == word@),
{
    let n = s.unicode_len();
    if n != word.unicode_len() {
        assert(ascii_lowercase(s@).len() != word@.len());
        return false;
    }
    let mut i: usize = 0;
    while i < n
        invariant
            i <= n,
            n == s@.len(),
            n == word@.len(),
            forall|k: int| 0 <= k < i ==> ascii_lowercase(s@)[k] == word@[k],
        decreases n - i,
    {
        let c = s.get_char(i);
        let w = word.get_char(i);
        let same = if 'A' <= c && c <= 'Z' {
            c as u32 + 32 == w as u32
        } else {
            c == w
        };
        if !same {
            assert(ascii_lowercase(s@)[i as int] != word@[i as int]);
            return false;
        }
        i += 1;
    }
    assert(ascii_lowercase(s@) =~= word@);
    true
}

/// Whether the value of the environment variable switches the card on.
pub fn enabled_from_env_value(value: Option<&str>) -> (r: bool)
    ensures
        r == match value {
            Some(v) => switches_on(v@),
            None => false,
        },
{
    match value {
        Some(v) => {
            let word = trim(v);
            lower_equals(word, "1") || lower_equals(word, "true") || lower_equals(word, "on")
        },
        None => false,
    }
}

/// Whether a call names the internal tool.
pub fn is_internal_tool(server: &str, tool: &str) -> (r: bool)
    ensures
        r == (server@ == SERVER_NAME@ && tool@ == TOOL_NAME@),
{
    same_text(server, SERVER_NAME) && same_text(tool, TOOL_NAME)
}

/// A request that cannot be served.
#[derive(Debug, PartialEq, Eq)]
pub enum RequestError {
    /// The caller's fault.
    InvalidRequest(String),
    /// Not the caller's fault.
    Internal(String),
}

pub enum RequestErrorView {
    InvalidRequest(Seq<char>),
    Internal(Seq<char>),
}

impl View for RequestError {
    type V = RequestErrorView;

    open spec fn view(&self) -> RequestErrorView {
        match self {
            RequestError::InvalidRequest(m) => RequestErrorView::InvalidRequest(m@),
            RequestError::Internal(m) => RequestErrorView::Internal(m@),
        }
    }
}

/// The view of a check that can fail.
pub open spec fn check_view(r: Result<(), RequestError>) -> Result<(), RequestErrorView> {
    match r {
        Ok(()) => Ok(()),
        Err(e) => Err(e@),
    }
}

/// The rejection of a configured server that takes the reserved name.
pub open spec fn reserved_name_message() -> Seq<char> {
    "the configured MCP server name '"@ + SERVER_NAME@ + "' is reserved while "@ + ENABLE_ENV@
        + " is enabled"@
}

/// The configured servers leave the reserved name free while the card is on. `configured` says
/// whether a server of that name is configured, and whether it is enabled.
pub open spec fn name_available(
    enabled: bool,
    configured: Option<bool>,
) -> Result<(), RequestErrorView> {
    if enabled && configured == Some(true) {
        Err(RequestErrorView::InvalidRequest(reserved_name_message()))
    } else {
        Ok(())
    }
}

pub fn ensure_reserved_name_available(
    enabled: bool,
    configured: Option<bool>,
) -> (r: Result<(), RequestError>)
    ensures
        check_view(r) == name_available(enabled, configured),
{
    let taken = match configured {
        Some(on) => on,
        None => false,
    };
    if enabled && taken {
        let message = "the configured MCP server name '".to_owned().concat(SERVER_NAME).concat(
            "' is reserved while ",
        ).concat(ENABLE_ENV).concat(" is enabled");
        Err(RequestError::InvalidRequest(message))
    } else {
        Ok(())
    }
}

/// What reloading the configuration for a request gave.
#[derive(Debug, PartialEq, Eq)]
pub enum ConfigLookup {
    /// The request names no thread that could exist, with the reason.
    InvalidThreadId(String),
    /// The thread is not loaded, with its name.
    ThreadNotFound(String),
    /// The configuration could not be read, with the reason.
    ReloadFailed(String),
    /// The configuration, as far as the reserved name goes: whether it is configured and enabled.
    Loaded(Option<bool>),
}

/// The outcome of the configuration check.
pub open spec fn config_check(
    enabled: bool,
    lookup: ConfigLookup,
) -> Result<(), RequestErrorView> {
    match lookup {
        ConfigLookup::InvalidThreadId(e) => Err(
            RequestErrorView::InvalidRequest("invalid thread id: "@ + e@),
        ),
        ConfigLookup::ThreadNotFound(thread) => Err(
            RequestErrorView::InvalidRequest("thread not found: "@ + thread@),
        ),
        ConfigLookup::ReloadFailed(e) => Err(
            RequestErrorView::Internal("failed to reload config: "@ + e@),
        ),
        ConfigLookup::Loaded(configured) => name_available(enabled, configured),
    }
}

/// Refuses a request whose configuration cannot be read or takes the reserved name.
pub fn ensure_latest_config_has_no_collision(
    enabled: bool,
    lookup: &ConfigLookup,
) -> (r: Result<(), RequestError>)
    ensures
        check_view(r) == config_check(enabled, *lookup),
{
    match lookup {
        ConfigLookup::InvalidThreadId(e) => Err(
            RequestError::InvalidRequest(join("invalid thread id: ", e.as_str())),
        ),
        ConfigLookup::ThreadNotFound(thread) => Err(
            RequestError::InvalidRequest(join("thread not found: ", thread.as_str())),
        ),
        ConfigLookup::ReloadFailed(e) => Err(
            RequestError::Internal(join("failed to reload config: ", e.as_str())),
        ),
        ConfigLookup::Loaded(configured) => ensure_reserved_name_available(enabled, *configured),
    }
}

/// The text of a resource and how to show it.
#[derive(Debug, PartialEq, Eq)]
pub struct ResourceText {
    pub uri: String,
    pub mime_type: String,
    pub text: String,
    pub prefers_border: bool,
    /// Domains that the component may connect to.
    pub connect_domains: Vec<String>,
    /// Domains that the component may load from.
    pub resource_domains: Vec<String>,
    pub widget_height_hint: u64,
    pub widget_min_frame_height: u64,
}

pub struct ResourceTextView {
    pub uri: Seq<char>,
    pub mime_type: Seq<char>,
    pub text: Seq<char>,
    pub prefers_border: bool,
    pub connect_domains: Seq<Seq<char>>,
    pub resource_domains: Seq<Seq<char>>,
    pub widget_height_hint: u64,
    pub widget_min_frame_height: u64,
}

impl View for ResourceText {
    type V = ResourceTextView;

    open spec fn view(&self) -> ResourceTextView {
        ResourceTextView {
            uri: self.uri@,
            mime_type: self.mime_type@,
            text: self.text@,
            prefers_border: self.prefers_border,
            connect_domains: views(self.connect_domains@),
            resource_domains: views(self.resource_domains@),
            widget_height_hint: self.widget_height_hint,
            widget_min_frame_height: self.widget_min_frame_height,
        }
    }
}

/// The contents of the card component, which reaches out to no domain.
pub open spec fn component() -> ResourceTextView {
    ResourceTextView {
        uri: RESOURCE_URI@,
        mime_type: RESOURCE_MIME_TYPE@,
        text: RESOURCE_HTML@,
        prefers_border: true,
        connect_domains: Seq::empty(),
        resource_domains: Seq::empty(),
        widget_height_hint: 1,
        widget_min_frame_height: 1,
    }
}

/// The contents of a resource of the internal server; none of any other.
pub fn read_resource(server: &str, uri: &str) -> (r: Option<Vec<ResourceText>>)
    ensures
        match r {
            Some(contents) => server@ == SERVER_NAME@ && uri@ == RESOURCE_URI@ && views(contents@)
                == seq![component()],
            None => server@ != SERVER_NAME@ || uri@ != RESOURCE_URI@,
        },
{
    if !same_text(server, SERVER_NAME) || !same_text(uri, RESOURCE_URI) {
        return None;
    }
    let content = ResourceText {
        uri: uri.to_owned(),
        mime_type: RESOURCE_MIME_TYPE.to_owned(),
        text: RESOURCE_HTML.to_owned(),
        prefers_border: true,
        connect_domains: Vec::new(),
        resource_domains: Vec::new(),
        widget_height_hint: 1,
        widget_min_frame_height: 1,
    };
    proof {
        assert(content@.connect_domains =~= Seq::empty());
        assert(content@.resource_domains =~= Seq::empty());
    }
    let mut contents: Vec<ResourceText> = Vec::new();
    contents.push(content);
    assert(views(contents@) =~= seq![component()]);
    Some(contents)
}

/// The contents of a resource while the card is on.
pub fn resource_response(enabled: bool, server: &str, uri: &str) -> (r: Option<Vec<ResourceText>>)
    ensures
        match r {
            Some(contents) => enabled && server@ == SERVER_NAME@ && uri@ == RESOURCE_URI@ && views(
                contents@,
            ) == seq![component()],
            None => !enabled || server@ != SERVER_NAME@ || uri@ != RESOURCE_URI@,
        },
{
    if enabled {
        read_resource(server, uri)
    } else {
        None
    }
}

/// Answers a resource request: nothing where the request is for another server, the component, or
/// the failure of the configuration check.
pub fn try_read_resource(
    enabled: bool,
    server: &str,
    uri: &str,
    lookup: &ConfigLookup,
) -> (r: Result<Option<Vec<ResourceText>>, RequestError>)
    ensures
        match r {
            Ok(None) => !enabled || server@ != SERVER_NAME@ || uri@ != RESOURCE_URI@,
            Ok(Some(contents)) => enabled && server@ == SERVER_NAME@ && uri@ == RESOURCE_URI@
                && config_check(enabled, *lookup) is Ok && views(contents@)
                == seq![component()],
            Err(e) => enabled && server@ == SERVER_NAME@ && uri@ == RESOURCE_URI@ && config_check(
                enabled,
                *lookup,
            ) == Err::<(), RequestErrorView>(e@),
        },
{
    match resource_response(enabled, server, uri) {
        None => Ok(None),
        Some(contents) => match ensure_latest_config_has_no_collision(enabled, lookup) {
            Ok(()) => Ok(Some(contents)),
            Err(e) => Err(e),
        },
    }
}

/// The reply to a tool call.
#[derive(Debug, PartialEq, Eq)]
pub struct McpServerToolCallResponse {
    pub text: String,
    pub structured_content: Option<SpineUiContent>,
    pub is_error: bool,
    pub widget_session_id: Option<String>,
}

pub struct ToolCallResponseView {
    pub text: Seq<char>,
    pub structured_content: Option<ContentView>,
    pub is_error: bool,
    pub widget_session_id: Option<Seq<char>>,
}

impl View for McpServerToolCallResponse {
    type V = ToolCallResponseView;

    open spec fn view(&self) -> ToolCallResponseView {
        ToolCallResponseView {
            text: self.text@,
            structured_content: content_view(self.structured_content),
            is_error: self.is_error,
            widget_session_id: text_view(self.widget_session_id),
        }
    }
}

/// The payload of an optional card.
pub open spec fn optional_rendered(state: Option<&SpineUiState>) -> Option<ContentView> {
    match state {
        Some(s) => s@.rendered(),
        None => None,
    }
}

/// The reply that shows a payload, or says that there is none.
pub open spec fn tool_reply(
    thread_id: Seq<char>,
    content: Option<ContentView>,
) -> ToolCallResponseView {
    match content {
        Some(c) => ToolCallResponseView {
            text: "Spine Tree"@,
            structured_content: Some(c),
            is_error: false,
            widget_session_id: Some("spine-ui-tool-"@ + thread_id),
        },
        None => ToolCallResponseView {
            text: "No Spine Tree is active for this thread."@,
            structured_content: None,
            is_error: true,
            widget_session_id: None,
        },
    }
}

/// The reply to a call of the internal tool.
pub fn tool_call_response(
    thread_id: &str,
    state: Option<&SpineUiState>,
) -> (r: McpServerToolCallResponse)
    ensures
        r@ == tool_reply(thread_id@, optional_rendered(state)),
{
    let content = match state {
        Some(s) => s.structured_content(),
        None => None,
    };
    match content {
        Some(c) => McpServerToolCallResponse {
            text: "Spine Tree".to_owned(),
            structured_content: Some(c),
            is_error: false,
            widget_session_id: Some(join("spine-ui-tool-", thread_id)),
        },
        None => McpServerToolCallResponse {
            text: "No Spine Tree is active for this thread.".to_owned(),
            structured_content: None,
            is_error: true,
            widget_session_id: None,
        },
    }
}

/// The arguments of a tool call, as far as the internal tool reads them.
#[derive(Clone, Copy, PartialEq, Eq, Structural, Debug)]
pub enum ToolArguments {
    Absent,
    EmptyObject,
    /// An object with members, or no object.
    Other,
}

/// Why a call of the internal tool is refused, in the order of the checks.
pub open spec fn tool_call_refusal(
    enabled: bool,
    arguments: ToolArguments,
    thread_id: Result<ThreadId, String>,
    lookup: ConfigLookup,
) -> Option<RequestErrorView> {
    if arguments is Other {
        Some(
            RequestErrorView::InvalidRequest(
                SERVER_NAME@ + "/"@ + TOOL_NAME@ + " accepts only an empty object"@,
            ),
        )
    } else {
        match thread_id {
            Err(e) => Some(RequestErrorView::InvalidRequest("invalid thread id: "@ + e@)),
            Ok(_) => match config_check(enabled, lookup) {
                Err(e) => Some(e),
                Ok(()) => None,
            },
        }
    }
}

/// Answers a tool call: nothing where the call is for another tool, a refusal, or the reply with
/// the thread's card. `thread_id` is what the thread name parses to.
pub fn try_call_tool(
    enabled: bool,
    server: &str,
    tool: &str,
    arguments: ToolArguments,
    thread: &str,
    thread_id: &Result<ThreadId, String>,
    lookup: &ConfigLookup,
    state: Option<&SpineUiState>,
) -> (r: Result<Option<McpServerToolCallResponse>, RequestError>)
    ensures
        match r {
            Ok(None) => !enabled || server@ != SERVER_NAME@ || tool@ != TOOL_NAME@,
            Ok(Some(reply)) => enabled && server@ == SERVER_NAME@ && tool@ == TOOL_NAME@
                && tool_call_refusal(enabled, arguments, *thread_id, *lookup) is None
                && reply@ == tool_reply(thread@, optional_rendered(state)),
            Err(e) => enabled && server@ == SERVER_NAME@ && tool@ == TOOL_NAME@
                && tool_call_refusal(enabled, arguments, *thread_id, *lookup) == Some(e@),
        },
{
    if !enabled || !is_internal_tool(server, tool) {
        return Ok(None);
    }
    match arguments {
        ToolArguments::Other => {
            let message = SERVER_NAME.to_owned().concat("/").concat(TOOL_NAME).concat(
                " accepts only an empty object",
            );
            return Err(RequestError::InvalidRequest(message));
        },
        _ => {},
    }
    match thread_id {
        Err(e) => {
            return Err(RequestError::InvalidRequest(join("invalid thread id: ", e.as_str())));
        },
        Ok(_) => {},
    }
    match ensure_latest_config_has_no_collision(enabled, lookup) {
        Err(e) => Err(e),
        Ok(()) => Ok(Some(tool_call_response(thread, state))),
    }
}

/// A tool as the server lists it. It takes an empty object and has no output schema.
#[derive(Debug, PartialEq, Eq)]
pub struct Tool {
    pub name: String,
    pub title: String,
    pub description: String,
    pub read_only_hint: bool,
    pub destructive_hint: bool,
    pub open_world_hint: bool,
    /// The component that shows the tool's results.
    pub resource_uri: String,
}

/// A resource as the server lists it.
#[derive(Debug, PartialEq, Eq)]
pub struct Resource {
    pub uri: String,
    pub name: String,
    pub title: String,
    pub description: String,
    pub mime_type: String,
}

/// What the internal server says of itself. It needs no authentication and has no templates.
#[derive(Debug, PartialEq, Eq)]
pub struct McpServerStatus {
    pub name: String,
    pub title: String,
    pub version: String,
    pub description: String,
    pub tools: Vec<Tool>,
    pub resources: Vec<Resource>,
}

pub struct ToolView {
    pub name: Seq<char>,
    pub title: Seq<char>,
    pub description: Seq<char>,
    pub read_only_hint: bool,
    pub destructive_hint: bool,
    pub open_world_hint: bool,
    pub resource_uri: Seq<char>,
}

pub struct ResourceView {
    pub uri: Seq<char>,
    pub name: Seq<char>,
    pub title: Seq<char>,
    pub description: Seq<char>,
    pub mime_type: Seq<char>,
}

pub struct ServerStatusView {
    pub name: Seq<char>,
    pub title: Seq<char>,
    pub version: Seq<char>,
    pub description: Seq<char>,
    pub tools: Seq<ToolView>,
    pub resources: Seq<ResourceView>,
}

impl View for Tool {
    type V = ToolView;

    open spec fn view(&self) -> ToolView {
        ToolView {
            name: self.name@,
            title: self.title@,
            description: self.description@,
            read_only_hint: self.read_only_hint,
            destructive_hint: self.destructive_hint,
            open_world_hint: self.open_world_hint,
            resource_uri: self.resource_uri@,
        }
    }
}

impl View for Resource {
    type V = ResourceView;

    open spec fn view(&self) -> ResourceView {
        ResourceView {
            uri: self.uri@,
            name: self.name@,
            title: self.title@,
            description: self.description@,
            mime_type: self.mime_type@,
        }
    }
}

impl View for McpServerStatus {
    type V = ServerStatusView;

    open spec fn view(&self) -> ServerStatusView {
        ServerStatusView {
            name: self.name@,
            title: self.title@,
            version: self.version@,
            description: self.description@,
            tools: views(self.tools@),
            resources: views(self.resources@),
        }
    }
}

/// The listing of a resource of the card component.
pub open spec fn resource_entry(uri: Seq<char>, name: Seq<char>, title: Seq<char>) -> ResourceView {
    ResourceView {
        uri,
        name,
        title,
        description: "Spine task tree component"@,
        mime_type: RESOURCE_MIME_TYPE@,
    }
}

fn registered_resource(uri: &str, name: &str, title: &str) -> (r: Resource)
    ensures
        r@ == resource_entry(uri@, name@, title@),
{
    Resource {
        uri: uri.to_owned(),
        name: name.to_owned(),
        title: title.to_owned(),
        description: "Spine task tree component".to_owned(),
        mime_type: RESOURCE_MIME_TYPE.to_owned(),
    }
}

/// The internal server with its one read-only tool, and its component where asked for.
pub open spec fn internal_server(include_resources: bool) -> ServerStatusView {
    ServerStatusView {
        name: SERVER_NAME@,
        title: "Spine UI"@,
        version: "1"@,
        description: "Read-only Spine task tree UI."@,
        tools: seq![
            ToolView {
                name: TOOL_NAME@,
                title: "Spine Tree"@,
                description: "Host-managed read-only view of the current Spine task tree."@,
                read_only_hint: true,
                destructive_hint: false,
                open_world_hint: false,
                resource_uri: RESOURCE_URI@,
            },
        ],
        resources: if include_resources {
            seq![resource_entry(RESOURCE_URI@, "spine-tree"@, "Spine Tree"@)]
        } else {
            Seq::empty()
        },
    }
}

pub fn server_status(include_resources: bool) -> (r: McpServerStatus)
    ensures
        r@ == internal_server(include_resources),
{
    let mut tools: Vec<Tool> = Vec::new();
    tools.push(
        Tool {
            name: TOOL_NAME.to_owned(),
            title: "Spine Tree".to_owned(),
            description: "Host-managed read-only view of the current Spine task tree.".to_owned(),
            read_only_hint: true,
            destructive_hint: false,
            open_world_hint: false,
            resource_uri: RESOURCE_URI.to_owned(),
        },
    );
    let mut resources: Vec<Resource> = Vec::new();
    if include_resources {
        resources.push(registered_resource(RESOURCE_URI, "spine-tree", "Spine Tree"));
    }
    let r = McpServerStatus {
        name: SERVER_NAME.to_owned(),
        title: "Spine UI".to_owned(),
        version: "1".to_owned(),
        description: "Read-only Spine task tree UI.".to_owned(),
        tools,
        resources,
    };
    proof {
        assert(r@.tools =~= internal_server(include_resources).tools);
        assert(r@.resources =~= internal_server(include_resources).resources);
    }
    r
}

/// The listed server that the internal one replaces while the card is on: the first of its name.
pub fn replaced_server_status(
    enabled: bool,
    names: &Vec<String>,
    include_resources: bool,
) -> (r: Option<(usize, McpServerStatus)>)
    ensures
        match r {
            Some((i, status)) => enabled && i < names@.len() && names@[i as int]@ == SERVER_NAME@ && (
            forall|k: int| 0 <= k < i ==> (#[trigger] names@[k])@ != SERVER_NAME@) && status@
                == internal_server(include_resources),
            None => !enabled || forall|k: int|
                0 <= k < names@.len() ==> (#[trigger] names@[k])@ != SERVER_NAME@,
        },
{
    if !enabled {
        return None;
    }
    let mut i: usize = 0;
    while i < names.len() && !same_text(names[i].as_str(), SERVER_NAME)
        invariant
            i <= names.len(),
            forall|k: int| 0 <= k < i ==> (#[trigger] names@[k])@ != SERVER_NAME@,
        decreases names.len() - i,
    {
        i += 1;
    }
    if i < names.len() {
        Some((i, server_status(include_resources)))
    } else {
        None
    }
}

} // verus!
