//! Conversation events, and which of them touch the task tree.
use crate::protocol::{SpineSpawnProgressEvent, SpineTreeUpdateEvent, TurnAbortReason};
use crate::text::same_text;
use vstd::prelude::*;

verus! {

/// Schema and name of the tool output that carries nested tree calls.
pub const CODE_MODE_SPINE_CARRIER_MARKER: &'static str = "spine.code_mode.output.v1";

/// Tree calls nested in a tool output.
#[derive(Debug, PartialEq, Eq)]
pub struct CodeModeSpineCarrier {
    pub schema: String,
    /// The names of the nested calls.
    pub nested_spine_calls: Vec<String>,
}

/// The body of a tool output.
#[derive(Debug, PartialEq, Eq)]
pub enum ToolOutputBody {
    /// Text, with the carrier it parses to, if it does.
    Text { text: String, carrier: Option<CodeModeSpineCarrier> },
    ContentItems,
}

/// What the card reads of a model response item.
#[derive(Debug, PartialEq, Eq)]
pub enum ResponseItem {
    FunctionCall { name: String, namespace: Option<String> },
    CustomToolCallOutput { output_name: Option<String>, body: ToolOutputBody },
    Other,
}

/// What the card reads of a conversation event.
#[derive(Debug, PartialEq, Eq)]
pub enum EventMsg {
    TurnStarted { started_at: Option<i64> },
    TurnComplete,
    TurnAborted { reason: TurnAbortReason },
    RawResponseItem(ResponseItem),
    SpineTreeUpdate(SpineTreeUpdateEvent),
    SpineSpawnProgress(SpineSpawnProgressEvent),
    ThreadRolledBack,
    Other,
}

/// An event of a turn.
#[derive(Debug, PartialEq, Eq)]
pub struct Event {
    pub id: String,
    pub msg: EventMsg,
}

/// The tools that change the tree.
pub open spec fn is_tree_tool_name(name: Seq<char>) -> bool {
    name == "open"@ || name == "next"@ || name == "close"@ || name == "spawn"@
}

/// Whether a carrier has the known schema and holds a call that changes the tree.
pub open spec fn carries_tree_call(carrier: CodeModeSpineCarrier) -> bool {
    carrier.schema@ == CODE_MODE_SPINE_CARRIER_MARKER@ && exists|i: int|
        0 <= i < carrier.nested_spine_calls@.len() && is_tree_tool_name(
            (#[trigger] carrier.nested_spine_calls@[i])@,
        )
}

/// Whether a response item changes the tree: a tree tool called in the `spine` namespace, or without
/// a namespace under the `spine.` prefix, or a named carrier of such a call.
pub open spec fn affects_tree(item: ResponseItem) -> bool {
    match item {
        ResponseItem::FunctionCall { name, namespace } => match namespace {
            Some(n) => n@ == "spine"@ && is_tree_tool_name(name@),
            None => exists|tool: Seq<char>| #[trigger]
                is_tree_tool_name(tool) && name@ == "spine."@ + tool,
        },
        ResponseItem::CustomToolCallOutput { output_name, body } => match (output_name, body) {
            (Some(n), ToolOutputBody::Text { text, carrier: Some(c) }) => n@
                == CODE_MODE_SPINE_CARRIER_MARKER@ && carries_tree_call(c),
            _ => false,
        },
        ResponseItem::Other => false,
    }
}

fn is_tree_tool(name: &str) -> (r: bool)
    ensures
        r == is_tree_tool_name(name@),
{
    same_text(name, "open") || same_text(name, "next") || same_text(name, "close") || same_text(
        name,
        "spawn",
    )
}

fn is_prefixed_tree_tool(name: &str) -> (r: bool)
    ensures
        r == exists|tool: Seq<char>| #[trigger]
            is_tree_tool_name(tool) && name@ == "spine."@ + tool,
{
    proof {
        reveal_strlit("spine.");
        reveal_strlit("open");
        reveal_strlit("next");
        reveal_strlit("close");
        reveal_strlit("spawn");
        reveal_strlit("spine.open");
        reveal_strlit("spine.next");
        reveal_strlit("spine.close");
        reveal_strlit("spine.spawn");
        assert("spine.open"@ =~= "spine."@ + "open"@);
        assert("spine.next"@ =~= "spine."@ + "next"@);
        assert("spine.close"@ =~= "spine."@ + "close"@);
        assert("spine.spawn"@ =~= "spine."@ + "spawn"@);
        assert(is_tree_tool_name("open"@));
        assert(is_tree_tool_name("next"@));
        assert(is_tree_tool_name("close"@));
        assert(is_tree_tool_name("spawn"@));
    }
    same_text(name, "spine.open") || same_text(name, "spine.next") || same_text(
        name,
        "spine.close",
    ) || same_text(name, "spine.spawn")
}

fn has_tree_call(carrier: &CodeModeSpineCarrier) -> (r: bool)
    ensures
        r == carries_tree_call(*carrier),
{
    if !same_text(carrier.schema.as_str(), CODE_MODE_SPINE_CARRIER_MARKER) {
        return false;
    }
    let calls = &carrier.nested_spine_calls;
    let mut i: usize = 0;
    while i < calls.len() && !is_tree_tool(calls[i].as_str())
        invariant
            i <= calls.len(),
            forall|k: int| 0 <= k < i ==> !is_tree_tool_name((#[trigger] calls@[k])@),
        decreases calls.len() - i,
    {
        i += 1;
    }
    i < calls.len()
}

/// Whether a response item changes the tree.
pub fn is_tree_affecting_item(item: &ResponseItem) -> (r: bool)
    ensures
        r == affects_tree(*item),
{
    match item {
        ResponseItem::FunctionCall { name, namespace } => match namespace {
            Some(n) => same_text(n.as_str(), "spine") && is_tree_tool(name.as_str()),
            None => is_prefixed_tree_tool(name.as_str()),
        },
        ResponseItem::CustomToolCallOutput { output_name, body } => {
            let named = match output_name {
                Some(n) => same_text(n.as_str(), CODE_MODE_SPINE_CARRIER_MARKER),
                None => false,
            };
            match body {
                ToolOutputBody::Text { text: _, carrier: Some(c) } => named && has_tree_call(c),
                _ => false,
            }
        },
        ResponseItem::Other => false,
    }
}

/// Whether an event opens a card in its turn: it changes the tree or reports spawn progress.
pub open spec fn opens_card(event: EventMsg) -> bool {
    match event {
        EventMsg::RawResponseItem(item) => affects_tree(item),
        EventMsg::SpineSpawnProgress(_) => true,
        _ => false,
    }
}

pub fn activates_card(event: &EventMsg) -> (r: bool)
    ensures
        r == opens_card(*event),
{
    match event {
        EventMsg::RawResponseItem(item) => is_tree_affecting_item(item),
        EventMsg::SpineSpawnProgress(_) => true,
        _ => false,
    }
}

} // verus!
