//! Method names on the wire between the launcher and a plugin runtime.

use vstd::prelude::*;

verus! {

/// Load a plugin bundle into an isolate. Params: `{ id, entry_path, manifest }`;
/// result: `{ isolate_id }`.
pub const PLUGIN_LOAD: &'static str = "plugin.load";

/// Run one plugin command. Params: `{ isolate_id, command, input, deadline_ms }`;
/// result: `{ view }`.
pub const COMMAND_INVOKE: &'static str = "command.invoke";

/// Select a rendered list item. Params: `{ isolate_id, item_id }`; result: `{}`.
pub const ITEM_INVOKE: &'static str = "item.invoke";

/// Run an action of a view. Params: `{ isolate_id, action_id, item_id? }`; result: `{}`.
pub const ACTION_INVOKE: &'static str = "action.invoke";

/// Submit a rendered form. Params: `{ isolate_id, values }`; result: `{}`.
pub const FORM_SUBMIT: &'static str = "form.submit";

/// Results for a search view. Params: `{ isolate_id, query, deadline_ms }`;
/// result: `{ view }`.
pub const SEARCH_QUERY: &'static str = "search.query";

/// Drop a plugin's isolate. Params: `{ isolate_id }`; result: `{}`.
pub const PLUGIN_UNLOAD: &'static str = "plugin.unload";

/// Liveness probe. Params: `{}`; result: `{ pong: true }`.
pub const PING: &'static str = "ping";

/// From the runtime: show a toast. Params: `{ message, kind?, durationMs? }`.
pub const TOAST_SHOW: &'static str = "toast.show";

/// From the runtime: open a URL in the user's default browser. Params: `{ url }`.
pub const OPEN_URL: &'static str = "open.url";

/// From the runtime: open a path with the OS default handler. Params: `{ path }`.
pub const OPEN_PATH: &'static str = "open.path";

/// From the runtime, as a request: read a file.
pub const HOST_FS_READ: &'static str = "host.fs.read";

/// From the runtime, as a request: write a file.
pub const HOST_FS_WRITE: &'static str = "host.fs.write";

/// From the runtime, as a request: make an HTTP request.
pub const HOST_NET_REQUEST: &'static str = "host.net.request";

} // verus!
