//! The decisions of the stdio MCP server that drives a running engine through its control bridge:
//! which port the bridge listens on, how a JSON-RPC method is answered, how a tool call is routed,
//! and the inline image content a screenshot call returns.

use vstd::prelude::*;
use vstd::string::StringExecFns;
use crate::text::{
    chars_of, chars_eq, decimal, lemma_decimal_parses_back, push_decimal, trim, trim_chars, parse_u16,
    parse_uint_spec,
};

verus! {

/// The bridge port when no knob names one.
pub const DEFAULT_BRIDGE_PORT: u16 = 7878;

/// A knob read as a port: trimmed and parsed as a `u16`, else the default.
pub open spec fn port_of(s: Option<Seq<char>>) -> u16 {
    match s {
        Some(t) => match parse_uint_spec(trim(t), u16::MAX as nat) {
            Some(v) => v as u16,
            None => DEFAULT_BRIDGE_PORT,
        },
        None => DEFAULT_BRIDGE_PORT,
    }
}

/// The bridge port: `MARTIN_MCP_PORT` when it is set (even if it does not parse), else
/// `MARTIN_SERVE`, each read as a port.
pub open spec fn bridge_port_spec(mcp_port: Option<Seq<char>>, serve: Option<Seq<char>>) -> u16 {
    if mcp_port is Some {
        port_of(mcp_port)
    } else {
        port_of(serve)
    }
}

pub open spec fn opt_view(s: Option<&str>) -> Option<Seq<char>> {
    match s {
        Some(t) => Some(t@),
        None => None,
    }
}

/// The port of the running bridge, from the `MARTIN_MCP_PORT` and `MARTIN_SERVE` knobs.
pub fn bridge_port(mcp_port: Option<&str>, serve: Option<&str>) -> (r: u16)
    ensures
        r == bridge_port_spec(opt_view(mcp_port), opt_view(serve)),
{
    let chosen = match mcp_port {
        Some(s) => Some(s),
        None => serve,
    };
    match chosen {
        Some(s) => match parse_u16(&trim_chars(&chars_of(s))) {
            Some(v) => v,
            None => DEFAULT_BRIDGE_PORT,
        },
        None => DEFAULT_BRIDGE_PORT,
    }
}

/// The port `--serve <port>` writes into `MARTIN_SERVE` (its decimal digits) is the port the
/// bridge is looked for on, unless `MARTIN_MCP_PORT` overrides it.
pub proof fn lemma_serve_port_round_trip(p: u16)
    ensures
        bridge_port_spec(None, Some(decimal(p as nat))) == p,
{
    lemma_decimal_parses_back(p as nat, u16::MAX as nat);
}

/// A JSON-RPC method the server knows; a request with an id is always answered, a notification
/// never is, and an unknown method is answered with an empty result.
#[derive(Debug, Clone, Copy, PartialEq, Eq, Structural)]
pub enum McpMethod {
    Initialize,
    ToolsList,
    ToolsCall,
    Ping,
    Unknown,
}

pub open spec fn mcp_method_spec(m: Seq<char>) -> McpMethod {
    if m == seq!['i', 'n', 'i', 't', 'i', 'a', 'l', 'i', 'z', 'e'] {
        McpMethod::Initialize
    } else if m == seq!['t', 'o', 'o', 'l', 's', '/', 'l', 'i', 's', 't'] {
        McpMethod::ToolsList
    } else if m == seq!['t', 'o', 'o', 'l', 's', '/', 'c', 'a', 'l', 'l'] {
        McpMethod::ToolsCall
    } else if m == seq!['p', 'i', 'n', 'g'] {
        McpMethod::Ping
    } else {
        McpMethod::Unknown
    }
}

/// Classifies a request's `method` (an absent method is the empty string).
pub fn mcp_method(method: &str) -> (r: McpMethod)
    ensures
        r == mcp_method_spec(method@),
{
    let m = chars_of(method);
    if chars_eq(&m, &['i', 'n', 'i', 't', 'i', 'a', 'l', 'i', 'z', 'e']) {
        McpMethod::Initialize
    } else if chars_eq(&m, &['t', 'o', 'o', 'l', 's', '/', 'l', 'i', 's', 't']) {
        McpMethod::ToolsList
    } else if chars_eq(&m, &['t', 'o', 'o', 'l', 's', '/', 'c', 'a', 'l', 'l']) {
        McpMethod::ToolsCall
    } else if chars_eq(&m, &['p', 'i', 'n', 'g']) {
        McpMethod::Ping
    } else {
        McpMethod::Unknown
    }
}

/// What the server does with one request: which method it is, whether its result is computed
/// (a known method always is, even for a notification; an unknown one only when it will be
/// answered) and whether a reply is written (exactly when the request carries an id).
#[derive(Debug, Clone, Copy, PartialEq, Eq, Structural)]
pub struct RpcPlan {
    pub method: McpMethod,
    pub compute: bool,
    pub reply: bool,
}

/// The plan for a request with this `method` (empty when absent), with or without an id; a
/// notification is never answered.
pub fn rpc_plan(method: &str, has_id: bool) -> (r: RpcPlan)
    ensures
        r.method == mcp_method_spec(method@),
        r.reply == has_id,
        r.compute == (has_id || r.method != McpMethod::Unknown),
{
    let m = mcp_method(method);
    let known = match m {
        McpMethod::Unknown => false,
        _ => true,
    };
    RpcPlan { method: m, compute: has_id || known, reply: has_id }
}

/// Where a tool call goes: `screenshot` is served here, every other tool is forwarded to the
/// bridge as a command of the same name.
#[derive(Debug, Clone, Copy, PartialEq, Eq, Structural)]
pub enum ToolRoute {
    Screenshot,
    Bridge,
}

pub fn tool_route(name: &str) -> (r: ToolRoute)
    ensures
        r == (if name@ == seq!['s', 'c', 'r', 'e', 'e', 'n', 's', 'h', 'o', 't'] {
            ToolRoute::Screenshot
        } else {
            ToolRoute::Bridge
        }),
{
    if chars_eq(&chars_of(name), &['s', 'c', 'r', 'e', 'e', 'n', 's', 'h', 'o', 't']) {
        ToolRoute::Screenshot
    } else {
        ToolRoute::Bridge
    }
}

/// Where a screenshot is written: the call's `path` argument, else a fixed file in `/tmp`.
pub fn screenshot_path(path: Option<&str>) -> (r: String)
    ensures
        r@ == (match path {
            Some(p) => p@,
            None => "/tmp/martin_mcp_shot.png"@,
        }),
{
    match path {
        Some(p) => String::from_str(p),
        None => String::from_str("/tmp/martin_mcp_shot.png"),
    }
}

/// The character for a 6-bit group in the standard base64 alphabet.
pub open spec fn b64_digit(v: int) -> char {
    if v < 26 {
        (65 + v) as char
    } else if v < 52 {
        (97 + v - 26) as char
    } else if v < 62 {
        (48 + v - 52) as char
    } else if v == 62 {
        '+'
    } else {
        '/'
    }
}

/// Standard base64 (RFC 4648, `A`-`Z` `a`-`z` `0`-`9` `+` `/`) with `=` padding: every three
/// bytes become four characters, a final one or two bytes become four padded characters.
pub open spec fn base64_spec(b: Seq<u8>) -> Seq<char>
    decreases b.len(),
{
    if b.len() == 0 {
        Seq::empty()
    } else if b.len() == 1 {
        let x = b[0] as int;
        seq![b64_digit(x / 4), b64_digit((x % 4) * 16), '=', '=']
    } else if b.len() == 2 {
        let x = b[0] as int;
        let y = b[1] as int;
        seq![b64_digit(x / 4), b64_digit((x % 4) * 16 + y / 16), b64_digit((y % 16) * 4), '=']
    } else {
        let x = b[0] as int;
        let y = b[1] as int;
        let z = b[2] as int;
        seq![
            b64_digit(x / 4),
            b64_digit((x % 4) * 16 + y / 16),
            b64_digit((y % 16) * 4 + z / 64),
            b64_digit(z % 64),
        ] + base64_spec(b.skip(3))
    }
}

/// `base64::engine::general_purpose::STANDARD.encode`: the standard alphabet with padding. The
/// crate panics when the encoded length overflows `usize`, which `requires` rules out.
#[verifier::external_body]
fn base64_standard(bytes: &[u8]) -> (r: String)
    requires
        4 * ((bytes@.len() + 2) / 3) <= usize::MAX,
    ensures
        r@ == base64_spec(bytes@),
{
    base64::Engine::encode(&base64::engine::general_purpose::STANDARD, bytes)
}

/// The caption of an inline screenshot: its path and its size in whole KiB.
pub open spec fn screenshot_caption(path: Seq<char>, len: nat) -> Seq<char> {
    "screenshot "@ + path + " ("@ + decimal(len / 1024) + " KiB)"@
}

/// The content of a screenshot reply: the PNG's bytes as standard base64, and its caption.
pub fn screenshot_content(png: &[u8], path: &str) -> (r: (String, String))
    requires
        4 * ((png@.len() + 2) / 3) <= usize::MAX,
    ensures
        r.0@ == base64_spec(png@),
        r.1@ == screenshot_caption(path@, png@.len()),
{
    let data = base64_standard(png);
    let mut caption = String::from_str("screenshot ");
    caption.append(path);
    caption.append(" (");
    push_decimal(&mut caption, (png.len() / 1024) as u64);
    caption.append(" KiB)");
    (data, caption)
}

} // verus!
