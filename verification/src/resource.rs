//! The component that renders a card.
use vstd::prelude::*;

verus! {

/// The self-contained page of the card component.
pub const RESOURCE_HTML: &'static str = r#"<!doctype html>
<html lang="en">
<head>
<meta charset="utf-8">
<meta http-equiv="Content-Security-Policy" content="default-src 'none'; style-src 'unsafe-inline'; script-src 'unsafe-inline'">
<meta name="viewport" content="width=device-width">
<title>Spine Tree</title>
<style>
:root { color-scheme: light dark; font: 13px/18px system-ui, sans-serif; }
body { margin: 0; padding: 8px 10px; }
ul { list-style: none; margin: 0; padding-left: 16px; }
#tree > ul { padding-left: 0; }
li { margin: 2px 0; }
.row { display: flex; gap: 6px; align-items: baseline; }
.mark { width: 14px; text-align: center; flex: none; }
.label { overflow-wrap: anywhere; }
.active > .row > .label { font-weight: 600; }
.muted { color: GrayText; }
.state-running > .row > .mark { color: #2f6feb; }
.state-completed > .row > .mark { color: #2e8540; }
.state-error > .row > .mark, .state-shutdown > .row > .mark { color: #c0392b; }
.state-interrupted > .row > .mark { color: #b7791f; }
</style>
</head>
<body>
<div id="tree" role="tree" aria-label="Spine Tree"><p class="muted">No Spine tree yet.</p></div>
<script>
(() => {
  "use strict";
  const MARKS = {
    pending: "○",
    running: "◔",
    completed: "●",
    interrupted: "◑",
    error: "✕",
    shutdown: "■",
    not_found: "?",
  };
  let shownRevision = -1;
  let shownTerminal = false;

  function isText(value) {
    return typeof value === "string";
  }

  function validNode(node) {
    return node !== null && typeof node === "object" && isText(node.nodeId) && Number.isInteger(node.start)
      && (node.parentId === undefined || isText(node.parentId));
  }

  function validTask(task) {
    return task !== null && typeof task === "object" && Number.isInteger(task.ordinal) && isText(task.summary)
      && isText(task.threadId) && isText(task.status);
  }

  function validCall(call) {
    return call !== null && typeof call === "object" && isText(call.callId) && Array.isArray(call.tasks)
      && call.tasks.every(validTask);
  }

  function validTreePayload(value) {
    return value !== null && typeof value === "object" && value.schemaVersion === 1
      && Number.isInteger(value.uiRevision) && value.snapshot !== null && typeof value.snapshot === "object"
      && Array.isArray(value.snapshot.nodes) && value.snapshot.nodes.every(validNode)
      && Array.isArray(value.spawnCalls) && value.spawnCalls.every(validCall)
      && Array.isArray(value.agentSubtrees) && value.agentSubtrees.every(validTreePayload);
  }

  function outcomeState(outcome) {
    if (outcome === "aborted") return "interrupted";
    if (outcome === "failed") return "error";
    return "completed";
  }

  function nodeState(node, context) {
    if (node.spawnOutcome) return outcomeState(node.spawnOutcome);
    if (node.status === "closed") return "completed";
    if (context.terminalState) return outcomeState(context.payload.terminalOutcome);
    return node.nodeId === context.payload.snapshot.activeNodeId ? "running" : "pending";
  }

  function buildContext(payload, terminalState) {
    const childrenByParentId = new Map();
    const agentsByResultNodeId = new Map();
    const callsByParentId = new Map();
    const subtreesByThreadId = new Map();
    const nodeIds = new Set();
    for (const node of payload.snapshot.nodes) {
      if (node.kind !== "root_epoch") nodeIds.add(node.nodeId);
    }
    for (const node of payload.snapshot.nodes) {
      if (node.kind === "root_epoch") continue;
      const parentId = nodeIds.has(node.parentId) ? node.parentId : null;
      if (!childrenByParentId.has(parentId)) childrenByParentId.set(parentId, []);
      childrenByParentId.get(parentId).push(node);
    }
    for (const call of payload.spawnCalls) {
      const parentId = nodeIds.has(call.parentNodeId) ? call.parentNodeId : null;
      if (!callsByParentId.has(parentId)) callsByParentId.set(parentId, []);
      callsByParentId.get(parentId).push(call);
      for (const task of call.tasks) {
        if (task.resultNodeId && nodeIds.has(task.resultNodeId)) {
          agentsByResultNodeId.set(task.resultNodeId, task);
        }
      }
    }
    for (const subtree of payload.agentSubtrees) subtreesByThreadId.set(subtree.threadId, subtree);
    return {
      payload, terminalState, childrenByParentId, agentsByResultNodeId, callsByParentId, subtreesByThreadId,
    };
  }

  function row(state, text) {
    const item = document.createElement("li");
    item.className = "state-" + state;
    item.setAttribute("role", "treeitem");
    const line = document.createElement("div");
    line.className = "row";
    const mark = document.createElement("span");
    mark.className = "mark";
    mark.textContent = MARKS[state] || MARKS.pending;
    mark.title = state;
    const label = document.createElement("span");
    label.className = "label";
    label.textContent = text;
    line.append(mark, label);
    item.append(line);
    return item;
  }

  function addList(item, entries) {
    const shown = entries.filter(Boolean);
    if (shown.length === 0) return;
    const list = document.createElement("ul");
    list.setAttribute("role", "group");
    list.append(...shown);
    item.append(list);
  }

  function renderAgent(task, context) {
    const item = row(task.status, task.summary);
    const subtree = context.subtreesByThreadId.get(task.threadId);
    if (subtree) {
      const ended = context.terminalState || ["completed", "error", "shutdown", "interrupted"].includes(task.status);
      addList(item, renderLevel(null, buildContext(subtree, ended)));
    }
    return item;
  }

  function renderTask(task, context) {
    if (task.resultNodeId && context.agentsByResultNodeId.has(task.resultNodeId)) return null;
    return renderAgent(task, context);
  }

  function renderNode(node, context) {
    const linkedAgent = context.agentsByResultNodeId.get(node.nodeId);
    if (linkedAgent) return renderAgent(linkedAgent, context);
    const item = row(nodeState(node, context), node.summary || node.nodeId);
    if (node.nodeId === context.payload.snapshot.activeNodeId) item.classList.add("active");
    addList(item, renderLevel(node.nodeId, context));
    return item;
  }

  function renderLevel(parentId, context) {
    const nodes = (context.childrenByParentId.get(parentId) || []).map((node) => renderNode(node, context));
    const calls = context.callsByParentId.get(parentId) || [];
    const tasks = calls.flatMap((call) => call.tasks.map((task) => renderTask(task, context)));
    return nodes.concat(tasks);
  }

  function render(payload) {
    if (!validTreePayload(payload)) return;
    const terminalState = ["completed", "aborted", "failed"].includes(payload.terminalOutcome);
    if (payload.uiRevision < shownRevision) return;
    if (payload.uiRevision === shownRevision && shownTerminal && !terminalState) return;
    shownRevision = payload.uiRevision;
    shownTerminal = terminalState;
    const context = buildContext(payload, terminalState);
    const tree = document.getElementById("tree");
    tree.replaceChildren();
    addList(tree, renderLevel(null, context));
  }

  function reportHeight() {
    const height = Math.ceil(document.documentElement.getBoundingClientRect().height);
    if (window.openai && window.openai.notifyIntrinsicHeight) window.openai.notifyIntrinsicHeight(height);
    window.parent.postMessage(
      { jsonrpc: "2.0", method: "ui/notifications/size-changed", params: { height } },
      "*",
    );
  }

  window.addEventListener("openai:set_globals", () => {
    if (window.openai) render(window.openai.toolOutput);
  });
  window.addEventListener("message", (event) => {
    if (event.source !== window.parent) return;
    const message = event.data;
    if (message && message.method === "ui/notifications/tool-result" && message.params) {
      render(message.params.structuredContent);
    }
  });
  new ResizeObserver(reportHeight).observe(document.documentElement);
  if (window.openai) render(window.openai.toolOutput);
})();
</script>
</body>
</html>
"#;

} // verus!
