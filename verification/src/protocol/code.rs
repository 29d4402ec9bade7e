//! JSON-RPC error codes.

use vstd::prelude::*;

verus! {

/// Invalid JSON was received by the server.
pub const PARSE_ERROR: i64 = -32700;

/// The JSON sent is not a valid request object.
pub const INVALID_REQUEST: i64 = -32600;

/// The method does not exist or is not available.
pub const METHOD_NOT_FOUND: i64 = -32601;

/// Invalid method parameters.
pub const INVALID_PARAMS: i64 = -32602;

/// Internal error.
pub const INTERNAL_ERROR: i64 = -32603;

/// The plugin called a host function that its manifest did not grant.
pub const PERMISSION_DENIED: i64 = -32000;

/// The plugin did not answer within its deadline; its isolate was killed.
pub const TIMEOUT: i64 = -32001;

/// The requested plugin is not loaded in this runtime.
pub const PLUGIN_NOT_FOUND: i64 = -32002;

/// The requested command does not exist on the plugin.
pub const COMMAND_NOT_FOUND: i64 = -32003;

/// The manifest declared a permission that is not implemented.
pub const UNSUPPORTED_PERMISSION: i64 = -32004;

} // verus!
