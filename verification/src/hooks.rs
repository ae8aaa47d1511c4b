//! Shell hooks around tool execution: which configured hooks apply to a
//! call, what a hook sees of the call, and how a failure is reported.
//!
//! Running the shell itself is the application's job; this module holds
//! the decisions around it.

use vstd::prelude::*;
use crate::json::{clone_json, get_str, get_str_of, Json, JsonValue};
use crate::text::{
    byte_cut, byte_len, chars_of, decimal, find_char, index_of_char_from, lemma_byte_len_prefix_mono,
    lemma_byte_len_take_step, owned, push_decimal, push_str, str_byte_len, str_eq,
};

verus! {

/// Outcome of one hook run.
#[derive(Debug, Clone)]
pub struct HookOutcome {
    pub exit_code: i32,
    pub stdout: String,
    pub stderr: String,
}

impl HookOutcome {
    /// A hook succeeded when it exited with code 0.
    pub fn ok(&self) -> (r: bool)
        ensures
            r == (self.exit_code == 0),
    {
        self.exit_code == 0
    }
}

/// A config key names a tool either as the bare tool name or as
/// `tool.field`; the part before the first dot is the tool.
pub open spec fn key_matches(key: Seq<char>, tool_name: Seq<char>) -> bool {
    key == tool_name || (find_char(key, '.') matches Some(i) && key.take(i) == tool_name)
}

/// Whether a config key applies to calls of `tool_name`.
pub fn matches_key(key: &str, tool_name: &str) -> (r: bool)
    ensures
        r == key_matches(key@, tool_name@),
{
    if str_eq(key, tool_name) {
        return true;
    }
    let k = chars_of(key);
    proof {
        assert(k@.skip(0) =~= k@);
    }
    match index_of_char_from(k.as_slice(), '.', 0) {
        None => false,
        Some(i) => {
            let head = key.substring_char(0, i);
            let r = str_eq(head, tool_name);
            proof {
                assert(head@ =~= k@.take(i as int));
            }
            r
        },
    }
}

/// A tool call as the model made it.
#[derive(Debug)]
pub struct ToolCall {
    pub id: Option<String>,
    pub tool_name: String,
    pub arguments: JsonValue,
}

/// The value of a tool call.
pub struct ToolCallView {
    pub id: Option<Seq<char>>,
    pub tool_name: Seq<char>,
    pub arguments: Json,
}

impl View for ToolCall {
    type V = ToolCallView;

    open spec fn view(&self) -> ToolCallView {
        ToolCallView {
            id: match self.id {
                Some(id) => Some(id@),
                None => None,
            },
            tool_name: self.tool_name@,
            arguments: self.arguments@,
        }
    }
}

/// A copy of a call.
pub fn copy_call(c: &ToolCall) -> (r: ToolCall)
    ensures
        r@ == c@,
{
    ToolCall {
        id: match &c.id {
            Some(id) => Some(id.clone()),
            None => None,
        },
        tool_name: c.tool_name.clone(),
        arguments: clone_json(&c.arguments),
    }
}

/// The hooks configuration: whether hooks run at all, and the
/// `(key, shell template)` pairs run before and after tool calls, in
/// configuration order.
#[derive(Debug, Clone)]
pub struct HooksConfig {
    pub enabled: bool,
    pub pre_tool_use: Vec<(String, String)>,
    pub post_tool_use: Vec<(String, String)>,
}

/// The argument names a hook can see, and the environment variable
/// each is passed in.
pub open spec fn hook_env_names() -> Seq<(Seq<char>, Seq<char>)> {
    seq![
        ("path"@, "KOD_PATH"@),
        ("command"@, "KOD_COMMAND"@),
        ("pattern"@, "KOD_PATTERN"@),
        ("content"@, "KOD_CONTENT"@),
        ("file"@, "KOD_FILE"@),
    ]
}

/// The `(variable, value)` pairs for the string arguments among the
/// known names, in the order of `hook_env_names`. Arguments are passed as
/// environment variables and never spliced into the command text.
pub open spec fn hook_env(args: crate::json::Json) -> Seq<(Seq<char>, Seq<char>)> {
    hook_env_from(args, 5)
}

/// `hook_env` over the first `n` known names.
pub open spec fn hook_env_from(args: crate::json::Json, n: nat) -> Seq<(Seq<char>, Seq<char>)>
    decreases n,
{
    if n == 0 {
        Seq::empty()
    } else {
        let (arg, var) = hook_env_names()[n - 1];
        hook_env_from(args, (n - 1) as nat) + match get_str(args, arg) {
            Some(v) => seq![(var, v)],
            None => Seq::empty(),
        }
    }
}

fn push_env(out: &mut Vec<(&'static str, String)>, args: &JsonValue, arg: &str, var: &'static str)
    ensures
        final(out)@.map_values(|p: (&'static str, String)| (p.0@, p.1@)) == old(out)@.map_values(
            |p: (&'static str, String)| (p.0@, p.1@),
        ) + match get_str(args@, arg@) {
            Some(v) => seq![(var@, v)],
            None => Seq::empty(),
        },
{
    let ghost before = out@.map_values(|p: (&'static str, String)| (p.0@, p.1@));
    match get_str_of(args, arg) {
        Some(v) => {
            out.push((var, owned(v)));
            assert(out@.map_values(|p: (&'static str, String)| (p.0@, p.1@)) =~= before + seq![
                (var@, v@),
            ]);
        },
        None => {
            assert(before + Seq::<(Seq<char>, Seq<char>)>::empty() =~= before);
        },
    }
}

/// The environment variables a hook sees for `call`.
pub fn env_pairs(call: &ToolCall) -> (r: Vec<(&'static str, String)>)
    ensures
        r@.map_values(|p: (&'static str, String)| (p.0@, p.1@)) == hook_env(call.arguments@),
{
    let mut out: Vec<(&'static str, String)> = Vec::new();
    let a = &call.arguments;
    proof {
        reveal_strlit("path");
        reveal_strlit("command");
        reveal_strlit("pattern");
        reveal_strlit("content");
        reveal_strlit("file");
        reveal_strlit("KOD_PATH");
        reveal_strlit("KOD_COMMAND");
        reveal_strlit("KOD_PATTERN");
        reveal_strlit("KOD_CONTENT");
        reveal_strlit("KOD_FILE");
        assert(out@.map_values(|p: (&'static str, String)| (p.0@, p.1@)) =~= hook_env_from(
            a@,
            0,
        ));
    }
    push_env(&mut out, a, "path", "KOD_PATH");
    push_env(&mut out, a, "command", "KOD_COMMAND");
    push_env(&mut out, a, "pattern", "KOD_PATTERN");
    push_env(&mut out, a, "content", "KOD_CONTENT");
    push_env(&mut out, a, "file", "KOD_FILE");
    proof {
        reveal_with_fuel(hook_env_from, 6);
        assert(hook_env_names()[0] == ("path"@, "KOD_PATH"@));
        assert(hook_env_names()[1] == ("command"@, "KOD_COMMAND"@));
        assert(hook_env_names()[2] == ("pattern"@, "KOD_PATTERN"@));
        assert(hook_env_names()[3] == ("content"@, "KOD_CONTENT"@));
        assert(hook_env_names()[4] == ("file"@, "KOD_FILE"@));
    }
    out
}

/// The `(key, template)` pairs among `hooks` whose key applies to
/// `tool_name`, in order.
pub open spec fn matching_hooks(hooks: Seq<(String, String)>, tool_name: Seq<char>) -> Seq<
    (Seq<char>, Seq<char>),
>
    decreases hooks.len(),
{
    if hooks.len() == 0 {
        Seq::empty()
    } else {
        matching_hooks(hooks.drop_last(), tool_name) + if key_matches(hooks.last().0@, tool_name) {
            seq![(hooks.last().0@, hooks.last().1@)]
        } else {
            Seq::empty()
        }
    }
}

/// Hooks run only when enabled and at least one is configured.
pub open spec fn hooks_enabled(c: HooksConfig) -> bool {
    c.enabled && (c.pre_tool_use@.len() > 0 || c.post_tool_use@.len() > 0)
}

fn select_hooks(hooks: &Vec<(String, String)>, tool_name: &str) -> (r: Vec<(String, String)>)
    ensures
        r@.map_values(|p: (String, String)| (p.0@, p.1@)) == matching_hooks(hooks@, tool_name@),
{
    let mut out: Vec<(String, String)> = Vec::new();
    let mut i: usize = 0;
    while i < hooks.len()
        invariant
            i <= hooks.len(),
            out@.map_values(|p: (String, String)| (p.0@, p.1@)) == matching_hooks(
                hooks@.take(i as int),
                tool_name@,
            ),
        decreases hooks.len() - i,
    {
        let ghost before = out@.map_values(|p: (String, String)| (p.0@, p.1@));
        proof {
            assert(hooks@.take(i as int + 1).drop_last() =~= hooks@.take(i as int));
            assert(hooks@.take(i as int + 1).last() == hooks@[i as int]);
        }
        if matches_key(hooks[i].0.as_str(), tool_name) {
            out.push((owned(hooks[i].0.as_str()), owned(hooks[i].1.as_str())));
            assert(out@.map_values(|p: (String, String)| (p.0@, p.1@)) =~= before + seq![
                (hooks@[i as int].0@, hooks@[i as int].1@),
            ]);
        } else {
            assert(before + Seq::<(Seq<char>, Seq<char>)>::empty() =~= before);
        }
        i += 1;
    }
    assert(hooks@.take(i as int) =~= hooks@);
    out
}

/// The engine's hook dispatcher. It decides which hooks a call runs;
/// the application runs them, in order, and stops at the first failing
/// pre-hook.
#[derive(Debug, Clone)]
pub struct HookRunner {
    config: HooksConfig,
}

impl HookRunner {
    /// The runner's configuration.
    pub closed spec fn spec_config(self) -> HooksConfig {
        self.config
    }

    /// A runner for `config`.
    pub fn new(config: HooksConfig) -> (r: HookRunner)
        ensures
            r.spec_config() == config,
    {
        HookRunner { config }
    }

    /// A runner that runs nothing.
    pub fn disabled() -> (r: HookRunner)
        ensures
            !r.spec_config().enabled,
            r.spec_config().pre_tool_use@.len() == 0,
            r.spec_config().post_tool_use@.len() == 0,
    {
        HookRunner {
            config: HooksConfig {
                enabled: false,
                pre_tool_use: Vec::new(),
                post_tool_use: Vec::new(),
            },
        }
    }

    /// Whether any hook can run.
    pub fn is_enabled(&self) -> (r: bool)
        ensures
            r == hooks_enabled(self.spec_config()),
    {
        self.config.enabled && (self.config.pre_tool_use.len() > 0
            || self.config.post_tool_use.len() > 0)
    }

    /// The pre-tool hooks to run for `call`, in order; none when hooks
    /// are disabled.
    pub fn pre_hooks_for(&self, call: &ToolCall) -> (r: Vec<(String, String)>)
        ensures
            r@.map_values(|p: (String, String)| (p.0@, p.1@)) == if hooks_enabled(
                self.spec_config(),
            ) {
                matching_hooks(self.spec_config().pre_tool_use@, call.tool_name@)
            } else {
                Seq::empty()
            },
    {
        if !self.is_enabled() {
            let r: Vec<(String, String)> = Vec::new();
            assert(r@.map_values(|p: (String, String)| (p.0@, p.1@)) =~= Seq::empty());
            return r;
        }
        select_hooks(&self.config.pre_tool_use, call.tool_name.as_str())
    }

    /// The post-tool hooks to run for `call`, in order; none when hooks
    /// are disabled.
    pub fn post_hooks_for(&self, call: &ToolCall) -> (r: Vec<(String, String)>)
        ensures
            r@.map_values(|p: (String, String)| (p.0@, p.1@)) == if hooks_enabled(
                self.spec_config(),
            ) {
                matching_hooks(self.spec_config().post_tool_use@, call.tool_name@)
            } else {
                Seq::empty()
            },
    {
        if !self.is_enabled() {
            let r: Vec<(String, String)> = Vec::new();
            assert(r@.map_values(|p: (String, String)| (p.0@, p.1@)) =~= Seq::empty());
            return r;
        }
        select_hooks(&self.config.post_tool_use, call.tool_name.as_str())
    }
}


// ---------------------------------------------------------------------
// Hook output
// ---------------------------------------------------------------------

/// Bytes of a hook's stdout or stderr kept in a report; the tail is
/// kept, since that is where a failure's reason is.
pub const MAX_HOOK_OUTPUT_BYTES: usize = 8192;

/// Whether `b` bytes into `s` is a character boundary.
pub open spec fn is_char_boundary(s: Seq<char>, b: nat) -> bool {
    exists|k: int| 0 <= k <= s.len() && byte_len(s.take(k)) == b
}

/// The characters before the boundary `b` bytes into `s`.
pub open spec fn chars_before(s: Seq<char>, b: nat) -> int {
    choose|k: int| 0 <= k <= s.len() && byte_len(s.take(k)) == b
}

/// A hook's output as reported: whole when it fits
/// [`MAX_HOOK_OUTPUT_BYTES`], else a notice and its last
/// [`MAX_HOOK_OUTPUT_BYTES`] bytes.
pub open spec fn capped_hook_output(s: Seq<char>) -> Seq<char> {
    if byte_len(s) <= MAX_HOOK_OUTPUT_BYTES {
        s
    } else {
        "[...output truncated; last "@ + decimal(MAX_HOOK_OUTPUT_BYTES as nat)
            + " bytes follow...]\n"@ + s.skip(
            chars_before(s, (byte_len(s) - MAX_HOOK_OUTPUT_BYTES) as nat),
        )
    }
}

proof fn lemma_prefix_bytes_strict(s: Seq<char>, i: int, j: int)
    requires
        0 <= i < j <= s.len(),
    ensures
        byte_len(s.take(i)) < byte_len(s.take(j)),
{
    lemma_byte_len_prefix_mono(s, i, j - 1);
    lemma_byte_len_take_step(s, j - 1);
}

/// Cap a hook's decoded output. Where it is longer than the cap, the cut
/// must fall on a character boundary (`str` slicing refuses any other).
pub fn cap_hook_output(s: &str) -> (r: String)
    requires
        byte_len(s@) > MAX_HOOK_OUTPUT_BYTES ==> is_char_boundary(
            s@,
            (byte_len(s@) - MAX_HOOK_OUTPUT_BYTES) as nat,
        ),
    ensures
        r@ == capped_hook_output(s@),
{
    let n = str_byte_len(s);
    if n <= MAX_HOOK_OUTPUT_BYTES {
        return owned(s);
    }
    let v = chars_of(s);
    let k = byte_cut(v.as_slice(), n - MAX_HOOK_OUTPUT_BYTES);
    proof {
        let b = (n - MAX_HOOK_OUTPUT_BYTES) as nat;
        let k0 = chars_before(s@, b);
        assert(0 <= k0 <= s@.len() && byte_len(s@.take(k0)) == b);
        if (k as int) < k0 {
            lemma_byte_len_prefix_mono(s@, k + 1, k0);
        } else if (k as int) > k0 {
            lemma_prefix_bytes_strict(s@, k0, k as int);
        }
    }
    let tail = s.substring_char(k, v.len());
    let mut out = owned("[...output truncated; last ");
    push_decimal(&mut out, MAX_HOOK_OUTPUT_BYTES as u64);
    push_str(&mut out, " bytes follow...]\n");
    push_str(&mut out, tail);
    out
}

// ---------------------------------------------------------------------
// A refused call
// ---------------------------------------------------------------------

/// The text `format!("{:?}", s)` writes for a string: `s` in double
/// quotes, each character escaped as `char::escape_debug` does.
pub uninterp spec fn debug_str(s: Seq<char>) -> Seq<char>;

/// `<str as Debug>::fmt`, through `format!("{:?}", s)`. The contract
/// names the result and claims only that it is quoted.
#[verifier::external_body]
fn debug_quoted(s: &str) -> (r: String)
    ensures
        r@ == debug_str(s@),
        r@.len() >= 2 && r@[0] == '"' && r@.last() == '"',
{
    format!("{:?}", s)
}

/// An integer in decimal, with a leading `-` when negative.
pub open spec fn signed_decimal(n: int) -> Seq<char> {
    if n < 0 {
        "-"@ + decimal((-n) as nat)
    } else {
        decimal(n as nat)
    }
}

fn push_signed(out: &mut String, n: i32)
    ensures
        final(out)@ == old(out)@ + signed_decimal(n as int),
{
    if n < 0 {
        push_str(out, "-");
        let m: i64 = -(n as i64);
        push_decimal(out, m as u64);
    } else {
        push_decimal(out, n as u64);
    }
}

/// What a failing pre-tool hook refused: the pre-tool hook for the tool.
pub open spec fn refused_action(tool_name: Seq<char>) -> Seq<char> {
    "pre_tool_use hook for "@ + tool_name
}

/// The action a failing pre-tool hook refused.
pub fn pre_hook_action(tool_name: &str) -> (r: String)
    ensures
        r@ == refused_action(tool_name@),
{
    let mut out = owned("pre_tool_use hook for ");
    push_str(&mut out, tool_name);
    out
}

/// Why a pre-tool hook refused a call: the hook's key, its exit code,
/// and its (capped) output.
pub open spec fn refusal_reason(key: Seq<char>, o: HookOutcome) -> Seq<char> {
    "hook "@ + debug_str(key) + " exited "@ + signed_decimal(o.exit_code as int) + "\nstdout: "@
        + o.stdout@ + "\nstderr: "@ + o.stderr@
}

/// Why a pre-tool hook refused a call.
pub fn pre_hook_failure_reason(key: &str, outcome: &HookOutcome) -> (r: String)
    ensures
        r@ == refusal_reason(key@, *outcome),
{
    let mut out = owned("hook ");
    let q = debug_quoted(key);
    push_str(&mut out, q.as_str());
    push_str(&mut out, " exited ");
    push_signed(&mut out, outcome.exit_code);
    push_str(&mut out, "\nstdout: ");
    push_str(&mut out, outcome.stdout.as_str());
    push_str(&mut out, "\nstderr: ");
    push_str(&mut out, outcome.stderr.as_str());
    out
}

} // verus!
