//! How tool calls and tool results are shown: the one-line brief of a
//! running call, the header of a finished one, the chat summary of its
//! result, and the byte cap on a result fed back to the model.

use vstd::prelude::*;
use crate::json::{
    compact_text, get, get_array, get_array_of, get_bool, get_bool_of, get_i64, get_i64_of,
    get_str, get_str_of, get_u64, get_u64_of, json_compact, json_get, json_pretty, pretty_text,
    Json, JsonValue,
};
use crate::render::{
    cap_lines, capped_lines, shorten_path, shortened_path, truncate_chars,
};
use crate::text::{
    byte_len, byte_prefix, chars_of, decimal, is_ws, is_ws_char, join, lines, lines_of, owned,
    push_chars, push_decimal, push_joined_first, push_one, push_str, str_byte_len, str_eq, trim,
    trim_end, trim_end_index, trim_end_string, trim_start_index, trim_string, ws_pred,
};

verus! {

/// Lines kept of a command's output or a file's text in a chat row.
pub const TOOL_RESULT_LINES: usize = 12;

/// Lines kept of a diff in a chat row.
pub const TOOL_DIFF_LINES: usize = 40;

/// The outcome of one tool call.
#[derive(Debug)]
pub enum ToolResult {
    Success(JsonValue),
    Error(String),
    RequiresConfirmation { description: String },
}

// ---------------------------------------------------------------------
// Shared pieces
// ---------------------------------------------------------------------

/// A scalar argument as text: strings as they are, booleans as
/// `true`/`false`, numbers as written; other values have no text.
pub open spec fn scalar_text(j: Json) -> Option<Seq<char>> {
    match j {
        Json::Str(s) => Some(s),
        Json::Bool(b) => Some(if b { "true"@ } else { "false"@ }),
        Json::Number(t, _, _) => Some(t),
        _ => None,
    }
}

/// `s` cut to `n` bytes with `tail` appended, when it is longer.
pub open spec fn clipped(s: Seq<char>, n: nat, tail: Seq<char>) -> Seq<char> {
    if byte_len(s) > n {
        byte_prefix(s, n) + tail
    } else {
        s
    }
}

fn scalar_text_of(j: &JsonValue) -> (r: Option<String>)
    ensures
        r matches Some(s) ==> scalar_text(j@) == Some(s@),
        r is None ==> scalar_text(j@) is None,
{
    match j {
        JsonValue::String(s) => Some(owned(s.as_str())),
        JsonValue::Bool(b) => if *b {
            Some(owned("true"))
        } else {
            Some(owned("false"))
        },
        JsonValue::Number(n) => Some(owned(n.text.as_str())),
        _ => None,
    }
}

fn clip(s: &str, n: usize, tail: &str) -> (r: String)
    ensures
        r@ == clipped(s@, n as nat, tail@),
{
    if str_byte_len(s) > n {
        let mut out = owned(truncate_chars(s, n));
        push_str(&mut out, tail);
        out
    } else {
        owned(s)
    }
}

// ---------------------------------------------------------------------
// Headers and briefs
// ---------------------------------------------------------------------

/// The `key=value` part of a header for one argument, if it has one.
pub open spec fn header_field(v: Json, key: Seq<char>) -> Seq<Seq<char>> {
    match json_get(v, key) {
        Some(j) => match scalar_text(j) {
            Some(s) => {
                let short = clipped(s, 60, "…"@);
                let shown = if key == "path"@ || key == "file"@ {
                    shortened_path(short)
                } else {
                    short
                };
                seq![key + "="@ + shown]
            },
            None => Seq::empty(),
        },
        None => Seq::empty(),
    }
}

/// The words of a header: the tool name, `key=value` for `path`,
/// `pattern`, `command`, `file` and `content`, and `recursive` when set.
pub open spec fn header_words(name: Seq<char>, v: Json) -> Seq<Seq<char>> {
    seq![name] + header_field(v, "path"@) + header_field(v, "pattern"@) + header_field(
        v,
        "command"@,
    ) + header_field(v, "file"@) + header_field(v, "content"@) + if get_bool(v, "recursive"@)
        == Some(true) {
        seq!["recursive"@]
    } else {
        Seq::empty()
    }
}

/// The header of a call: its words joined by spaces.
pub open spec fn tool_header(name: Seq<char>, v: Json) -> Seq<char> {
    join(header_words(name, v), " "@)
}

fn push_header_field(words: &mut Vec<Vec<char>>, args: &JsonValue, key: &str)
    ensures
        final(words)@.map_values(|w: Vec<char>| w@) == old(words)@.map_values(|w: Vec<char>| w@)
            + header_field(args@, key@),
{
    let ghost before = words@.map_values(|w: Vec<char>| w@);
    match get(args, key) {
        Some(j) => match scalar_text_of(j) {
            Some(s) => {
                let short = clip(s.as_str(), 60, "…");
                let is_path = str_eq(key, "path") || str_eq(key, "file");
                let shown = if is_path {
                    shorten_path(short.as_str())
                } else {
                    short
                };
                let mut word = owned(key);
                push_str(&mut word, "=");
                push_str(&mut word, shown.as_str());
                words.push(chars_of(word.as_str()));
                proof {
                    assert(words@.map_values(|w: Vec<char>| w@) =~= before.push(word@));
                    assert(before + seq![word@] =~= before.push(word@));
                }
            },
            None => {
                assert(before + Seq::<Seq<char>>::empty() =~= before);
            },
        },
        None => {
            assert(before + Seq::<Seq<char>>::empty() =~= before);
        },
    }
}

/// Human-readable tool header: `list_files path=.` instead of raw JSON.
pub fn format_tool_header(name: &str, args: &JsonValue) -> (r: String)
    ensures
        r@ == tool_header(name@, args@),
{
    let mut words: Vec<Vec<char>> = Vec::new();
    words.push(chars_of(name));
    proof {
        assert(words@.map_values(|w: Vec<char>| w@) =~= seq![name@]);
    }
    push_header_field(&mut words, args, "path");
    push_header_field(&mut words, args, "pattern");
    push_header_field(&mut words, args, "command");
    push_header_field(&mut words, args, "file");
    push_header_field(&mut words, args, "content");
    let ghost before = words@.map_values(|w: Vec<char>| w@);
    if get_bool_of(args, "recursive") == Some(true) {
        words.push(chars_of("recursive"));
        proof {
            assert(words@.map_values(|w: Vec<char>| w@) =~= before + seq!["recursive"@]);
        }
    } else {
        assert(before + Seq::<Seq<char>>::empty() =~= before);
    }
    assert(words@.map_values(|w: Vec<char>| w@) =~= header_words(name@, args@));
    let mut out = String::new();
    let n = words.len();
    push_joined_first(&mut out, &words, n, " ");
    assert(words@.map_values(|w: Vec<char>| w@).take(n as int) =~= words@.map_values(
        |w: Vec<char>| w@,
    ));
    out
}

/// The first of `path`, `pattern`, `file`, `content` with a scalar value,
/// and that value.
pub open spec fn first_brief_field(v: Json) -> Option<(Seq<char>, Seq<char>)> {
    if json_get(v, "path"@) is Some && scalar_text(json_get(v, "path"@)->0) is Some {
        Some(("path"@, scalar_text(json_get(v, "path"@)->0)->0))
    } else if json_get(v, "pattern"@) is Some && scalar_text(json_get(v, "pattern"@)->0) is Some {
        Some(("pattern"@, scalar_text(json_get(v, "pattern"@)->0)->0))
    } else if json_get(v, "file"@) is Some && scalar_text(json_get(v, "file"@)->0) is Some {
        Some(("file"@, scalar_text(json_get(v, "file"@)->0)->0))
    } else if json_get(v, "content"@) is Some && scalar_text(json_get(v, "content"@)->0) is Some {
        Some(("content"@, scalar_text(json_get(v, "content"@)->0)->0))
    } else {
        None
    }
}

/// The first line of a command (the command itself when it has no
/// lines), trimmed.
pub open spec fn first_command_line(cmd: Seq<char>) -> Seq<char> {
    trim(
        if lines(cmd).len() > 0 {
            lines(cmd)[0]
        } else {
            cmd
        },
    )
}

/// The one-line brief of a running call.
pub open spec fn call_brief(name: Seq<char>, v: Json) -> Seq<char> {
    if name == "execute_command"@ {
        match get_str(v, "command"@) {
            Some(cmd) => {
                let short = clipped(first_command_line(cmd), 100, "…"@);
                if short.len() == 0 {
                    name
                } else {
                    name + " "@ + short
                }
            },
            None => name,
        }
    } else {
        match first_brief_field(v) {
            Some((key, s)) => name + " "@ + key + "="@ + clipped(s, 80, "…"@),
            None => {
                let raw = json_compact(v);
                if raw.len() == 0 || raw == "null"@ || raw == "{}"@ || raw == "[]"@ {
                    name
                } else {
                    name + " "@ + clipped(raw, 80, "..."@)
                }
            },
        }
    }
}

fn brief_field(args: &JsonValue, key: &str) -> (r: Option<String>)
    ensures
        r matches Some(s) ==> json_get(args@, key@) is Some && scalar_text(
            json_get(args@, key@)->0,
        ) == Some(s@),
        r is None ==> !(json_get(args@, key@) is Some && scalar_text(
            json_get(args@, key@)->0,
        ) is Some),
{
    match get(args, key) {
        Some(j) => scalar_text_of(j),
        None => None,
    }
}

fn trimmed_first_line(cmd: &str) -> (r: String)
    ensures
        r@ == first_command_line(cmd@),
{
    let v = chars_of(cmd);
    let ls = lines_of(v.as_slice());
    let src: Vec<char> = if ls.len() > 0 {
        proof {
            assert(ls@.map_values(|l: Vec<char>| l@)[0] == ls@[0]@);
        }
        crate::text::copy_range(ls[0].as_slice(), 0, ls[0].len())
    } else {
        crate::text::copy_range(v.as_slice(), 0, v.len())
    };
    proof {
        assert(ls@.len() > 0 ==> ls@[0]@.subrange(0, ls@[0]@.len() as int) =~= ls@[0]@);
        assert(v@.subrange(0, v@.len() as int) =~= v@);
    }
    let e = trim_end_index(src.as_slice(), 0, src.len(), Ghost(ws_pred()), |c: char| -> (b: bool)
        ensures b == is_ws(c)
        { is_ws_char(c) });
    let b = trim_start_index(src.as_slice(), 0, e, Ghost(ws_pred()), |c: char| -> (b: bool)
        ensures b == is_ws(c)
        { is_ws_char(c) });
    let piece = crate::text::copy_range(src.as_slice(), b, e);
    proof {
        assert(src@.subrange(0, src@.len() as int) =~= src@);
    }
    crate::text::string_of(piece.as_slice())
}

/// One-line brief for a tool call: `execute_command cargo test`,
/// `read_file path=…`. Used for the live "running" indicator.
pub fn format_call_brief(name: &str, args: &JsonValue) -> (r: String)
    ensures
        r@ == call_brief(name@, args@),
{
    if str_eq(name, "execute_command") {
        match get_str_of(args, "command") {
            Some(cmd) => {
                let first = trimmed_first_line(cmd);
                let short = clip(first.as_str(), 100, "…");
                if short.as_str().is_empty() {
                    return owned(name);
                }
                let mut out = owned(name);
                push_str(&mut out, " ");
                push_str(&mut out, short.as_str());
                return out;
            },
            None => return owned(name),
        }
    }
    let found = match brief_field(args, "path") {
        Some(s) => Some(("path", s)),
        None => match brief_field(args, "pattern") {
            Some(s) => Some(("pattern", s)),
            None => match brief_field(args, "file") {
                Some(s) => Some(("file", s)),
                None => match brief_field(args, "content") {
                    Some(s) => Some(("content", s)),
                    None => None,
                },
            },
        },
    };
    match found {
        Some((key, s)) => {
            let short = clip(s.as_str(), 80, "…");
            let mut out = owned(name);
            push_str(&mut out, " ");
            push_str(&mut out, key);
            push_str(&mut out, "=");
            push_str(&mut out, short.as_str());
            out
        },
        None => {
            let raw = compact_text(args);
            if raw.as_str().is_empty() || str_eq(raw.as_str(), "null") || str_eq(raw.as_str(), "{}")
                || str_eq(raw.as_str(), "[]") {
                return owned(name);
            }
            let short = clip(raw.as_str(), 80, "...");
            let mut out = owned(name);
            push_str(&mut out, " ");
            push_str(&mut out, short.as_str());
            out
        },
    }
}

// ---------------------------------------------------------------------
// Result summaries
// ---------------------------------------------------------------------

/// The result's `path`, shortened, or the tool name.
pub open spec fn path_or_name(v: Json, name: Seq<char>) -> Seq<char> {
    match get_str(v, "path"@) {
        Some(p) => shortened_path(p),
        None => name,
    }
}

/// A `read_file` row: path, line count, byte count, a truncation mark,
/// and the first three lines.
pub open spec fn read_row(p: Seq<char>, content: Seq<char>, truncated: bool) -> Seq<char> {
    let ls = lines(content);
    let n = ls.len();
    let head = p + " · "@ + decimal(n) + " line"@ + (if n == 1 {
        Seq::empty()
    } else {
        "s"@
    }) + " · "@ + decimal(byte_len(content)) + " chars"@ + (if truncated {
        " (truncated)"@
    } else {
        Seq::empty()
    });
    let shown: nat = if n < 3 {
        n
    } else {
        3
    };
    if shown == 0 {
        head
    } else {
        head + "\n"@ + join(ls.take(shown as int), "\n"@) + (if n > shown {
            "\n…"@
        } else {
            Seq::empty()
        })
    }
}

/// A listed entry without the listed directory's prefix and leading
/// slashes; the entry itself when nothing is left.
pub open spec fn bare_entry(f: Seq<char>, dir: Seq<char>) -> Seq<char> {
    let b1 = if crate::text::starts_with(f, dir) {
        f.skip(dir.len() as int)
    } else {
        f
    };
    let b2 = crate::text::trim_start_by(b1, |c: char| c == '/');
    if b2.len() == 0 {
        f
    } else {
        b2
    }
}

/// The `· name` lines for the string entries among `fs`.
pub open spec fn entry_lines(fs: Seq<Json>, dir: Seq<char>) -> Seq<Seq<char>>
    decreases fs.len(),
{
    if fs.len() == 0 {
        Seq::empty()
    } else {
        entry_lines(fs.drop_last(), dir) + match fs.last() {
            Json::Str(f) => seq!["· "@ + bare_entry(f, dir)],
            _ => Seq::empty(),
        }
    }
}

/// A `list_files` row: the count, the listed directory, and up to
/// twelve entries with a remainder counter.
pub open spec fn files_row(v: Json, name: Seq<char>, files: Seq<Json>) -> Seq<char> {
    let dir_full = match get_str(v, "path"@) {
        Some(p) => p,
        None => Seq::empty(),
    };
    let dir_short = if dir_full.len() == 0 {
        Seq::<char>::empty()
    } else {
        shortened_path(dir_full)
    };
    let shown = entry_lines(files.take(if files.len() < 12 { files.len() as int } else { 12 }), dir_full);
    let count = files.len();
    decimal(count) + " entr"@ + (if count == 1 {
        "y"@
    } else {
        "ies"@
    }) + " in "@ + (if dir_short.len() == 0 {
        name
    } else {
        dir_short
    }) + ":"@ + (if shown.len() > 0 {
        "\n"@ + join(shown, "\n"@)
    } else {
        Seq::empty()
    }) + (if count > shown.len() {
        "\n… and "@ + decimal((count - shown.len()) as nat) + " more"@
    } else {
        Seq::empty()
    })
}

/// A command row: capped stdout, capped non-blank stderr, and notes on
/// a timeout, a truncation and a kill by signal.
pub open spec fn command_row(v: Json, stdout: Seq<char>) -> Seq<char> {
    let out0 = capped_lines(trim_end(stdout), 12);
    let out1 = match get_str(v, "stderr"@) {
        Some(se) => if trim(se).len() > 0 {
            out0 + "\nstderr:\n"@ + capped_lines(trim_end(se), 4)
        } else {
            out0
        },
        None => out0,
    };
    let stdout_trunc = get_bool(v, "stdout_truncated"@) == Some(true);
    let stderr_trunc = get_bool(v, "stderr_truncated"@) == Some(true);
    let timed_out = get_bool(v, "timed_out"@) == Some(true);
    let timeout = match get_u64(v, "timeout_secs"@) {
        Some(t) => t,
        None => 0,
    };
    let truncated = stdout_trunc || stderr_trunc;
    let signalled = get_i64(v, "exit_signal"@) is Some;
    let out2 = if timed_out {
        out1 + "\n[command timed out after "@ + decimal(timeout as nat) + "s — killed]"@
    } else {
        out1
    };
    let out3 = if truncated {
        out2 + "\n[output truncated at cap"@ + (if signalled && !timed_out {
            " — command was killed"@
        } else {
            Seq::empty()
        }) + "]"@
    } else if signalled && !timed_out {
        out2 + "\n[command was killed by a signal (exit_signal reported)]"@
    } else {
        out2
    };
    if out3.len() == 0 {
        "(no output)"@
    } else {
        out3
    }
}

/// The chat summary of a successful result.
pub open spec fn success_summary(name: Seq<char>, v: Json) -> Seq<char> {
    if (name == "write_file"@ || name == "patch_file"@) && get_str(v, "diff"@) is Some {
        let diff = get_str(v, "diff"@)->0;
        if diff.len() == 0 {
            path_or_name(v, name) + ": no change (content identical)"@
        } else {
            path_or_name(v, name) + ":\n"@ + capped_lines(trim_end(diff), 40)
        }
    } else if name == "read_file"@ && get_bool(v, "binary"@) == Some(true) {
        let size = match get_u64(v, "size_bytes"@) {
            Some(n) => n,
            None => 0,
        };
        path_or_name(v, name) + " · binary ("@ + decimal(size as nat)
            + " bytes) — not shown as text"@
    } else if name == "read_file"@ && get_str(v, "content"@) is Some {
        read_row(
            path_or_name(v, name),
            get_str(v, "content"@)->0,
            get_bool(v, "truncated"@) == Some(true),
        )
    } else if name == "list_files"@ && get_str(v, "path_kind"@) == Some("file"@) {
        path_or_name(v, name) + " · is a file, not a directory"@
    } else if get_array(v, "files"@) is Some {
        files_row(v, name, get_array(v, "files"@)->0)
    } else if get_str(v, "stdout"@) is Some {
        command_row(v, get_str(v, "stdout"@)->0)
    } else if get_str(v, "content"@) is Some {
        let p = match get_str(v, "path"@) {
            Some(p) => p,
            None => name,
        };
        p + ":\n"@ + capped_lines(trim_end(get_str(v, "content"@)->0), 12)
    } else {
        capped_lines(json_pretty(v), 12)
    }
}

/// The chat summary of a tool result.
pub open spec fn result_summary(name: Seq<char>, r: ToolResult) -> Seq<char> {
    match r {
        ToolResult::Success(v) => success_summary(name, v@),
        ToolResult::Error(e) => capped_lines("Error: "@ + trim(e@), 5),
        ToolResult::RequiresConfirmation { description } => "Needs confirmation: "@ + description@,
    }
}

fn path_or_name_of(v: &JsonValue, name: &str) -> (r: String)
    ensures
        r@ == path_or_name(v@, name@),
{
    match get_str_of(v, "path") {
        Some(p) => shorten_path(p),
        None => owned(name),
    }
}

fn read_row_of(p: &str, content: &str, truncated: bool) -> (r: String)
    ensures
        r@ == read_row(p@, content@, truncated),
{
    let v = chars_of(content);
    let ls = lines_of(v.as_slice());
    let n = ls.len();
    let mut out = owned(p);
    push_str(&mut out, " · ");
    push_decimal(&mut out, n as u64);
    push_str(&mut out, " line");
    if n != 1 {
        push_str(&mut out, "s");
    }
    push_str(&mut out, " · ");
    push_decimal(&mut out, str_byte_len(content) as u64);
    push_str(&mut out, " chars");
    if truncated {
        push_str(&mut out, " (truncated)");
    }
    let ghost head = out@;
    let shown = if n < 3 {
        n
    } else {
        3
    };
    if shown > 0 {
        push_str(&mut out, "\n");
        push_joined_first(&mut out, &ls, shown, "\n");
        if n > shown {
            push_str(&mut out, "\n…");
        }
    }
    proof {
        assert(head =~= p@ + " · "@ + decimal(n as nat) + " line"@ + (if n == 1 {
            Seq::empty()
        } else {
            "s"@
        }) + " · "@ + decimal(byte_len(content@)) + " chars"@ + (if truncated {
            " (truncated)"@
        } else {
            Seq::empty()
        }));
    }
    assert(out@ =~= read_row(p@, content@, truncated));
    out
}

fn bare_entry_of(f: &str, dir: &str) -> (r: String)
    ensures
        r@ == bare_entry(f@, dir@),
{
    let fv = chars_of(f);
    let dv = chars_of(dir);
    let from: usize = if crate::text::has_prefix_at(fv.as_slice(), 0, dv.as_slice()) {
        dv.len()
    } else {
        0
    };
    proof {
        assert(fv@.skip(0) =~= fv@);
        assert(fv@.subrange(from as int, fv@.len() as int) =~= (if crate::text::starts_with(
            f@,
            dir@,
        ) {
            f@.skip(dir@.len() as int)
        } else {
            f@
        }));
    }
    let b = trim_start_index(fv.as_slice(), from, fv.len(), Ghost(|c: char| c == '/'), |c: char| -> (r: bool)
        ensures r == (c == '/')
        { c == '/' });
    if b == fv.len() {
        return owned(f);
    }
    let piece = crate::text::copy_range(fv.as_slice(), b, fv.len());
    crate::text::string_of(piece.as_slice())
}

pub(crate) proof fn lemma_array_model(a: Vec<JsonValue>)
    ensures
        JsonValue::Array(a)@ matches Json::Array(m) && m.len() == a@.len() && (forall|i: int|
            0 <= i < a@.len() ==> #[trigger] m[i] == a@[i]@),
{
}

fn entry_lines_of(files: &Vec<JsonValue>, limit: usize, dir: &str) -> (shown: Vec<Vec<char>>)
    requires
        limit <= files.len(),
    ensures
        shown@.map_values(|l: Vec<char>| l@) == entry_lines(
            (JsonValue::Array(*files)@->Array_0).take(limit as int),
            dir@,
        ),
{
    let ghost fs = JsonValue::Array(*files)@->Array_0;
    proof {
        lemma_array_model(*files);
        assert(fs.take(0) =~= Seq::<Json>::empty());
    }
    let mut shown: Vec<Vec<char>> = Vec::new();
    let mut i: usize = 0;
    while i < limit
        invariant
            i <= limit <= files.len(),
            fs == JsonValue::Array(*files)@->Array_0,
            fs.len() == files@.len(),
            forall|j: int| 0 <= j < files@.len() ==> #[trigger] fs[j] == files@[j]@,
            shown@.map_values(|l: Vec<char>| l@) == entry_lines(fs.take(i as int), dir@),
        decreases limit - i,
    {
        let ghost before = shown@.map_values(|l: Vec<char>| l@);
        proof {
            assert(fs.take(i as int + 1).drop_last() =~= fs.take(i as int));
            assert(fs.take(i as int + 1).last() == files@[i as int]@);
        }
        match &files[i] {
            JsonValue::String(f) => {
                let b = bare_entry_of(f.as_str(), dir);
                let mut line = owned("· ");
                push_str(&mut line, b.as_str());
                shown.push(chars_of(line.as_str()));
                proof {
                    assert(shown@.map_values(|l: Vec<char>| l@) =~= before + seq![line@]);
                }
            },
            _ => {
                proof {
                    assert(before + Seq::<Seq<char>>::empty() =~= before);
                }
            },
        }
        i += 1;
    }
    shown
}

#[verifier::rlimit(80)]
#[verifier::spinoff_prover]
fn files_row_of(v: &JsonValue, name: &str, files: &Vec<JsonValue>) -> (r: String)
    ensures
        r@ == files_row(v@, name@, JsonValue::Array(*files)@->Array_0),
{
    let ghost fs = JsonValue::Array(*files)@->Array_0;
    proof {
        lemma_array_model(*files);
    }
    let dir_full: String = match get_str_of(v, "path") {
        Some(p) => owned(p),
        None => String::new(),
    };
    let dir_short: String = if dir_full.as_str().is_empty() {
        String::new()
    } else {
        shorten_path(dir_full.as_str())
    };
    let limit: usize = if files.len() < 12 {
        files.len()
    } else {
        12
    };
    let shown = entry_lines_of(files, limit, dir_full.as_str());
    let ghost shown_v = shown@.map_values(|l: Vec<char>| l@);
    let count = files.len();
    let mut out = String::new();
    push_decimal(&mut out, count as u64);
    push_str(&mut out, " entr");
    if count == 1 {
        push_str(&mut out, "y");
    } else {
        push_str(&mut out, "ies");
    }
    push_str(&mut out, " in ");
    if dir_short.as_str().is_empty() {
        push_str(&mut out, name);
    } else {
        push_str(&mut out, dir_short.as_str());
    }
    push_str(&mut out, ":");
    let ghost head = out@;
    let ns = shown.len();
    if ns > 0 {
        push_str(&mut out, "\n");
        push_joined_first(&mut out, &shown, ns, "\n");
    }
    proof {
        assert(shown_v.take(ns as int) =~= shown_v);
    }
    let ghost mid = out@;
    if count > ns {
        push_str(&mut out, "\n… and ");
        push_decimal(&mut out, (count - ns) as u64);
        push_str(&mut out, " more");
    }
    proof {
        let dir_s = if dir_full@.len() == 0 { Seq::<char>::empty() } else { shortened_path(dir_full@) };
        assert(dir_short@ == dir_s);
        assert(head =~= decimal(count as nat) + " entr"@ + (if count == 1 {
            "y"@
        } else {
            "ies"@
        }) + " in "@ + (if dir_s.len() == 0 {
            name@
        } else {
            dir_s
        }) + ":"@);
        assert(mid =~= head + (if shown_v.len() > 0 {
            "\n"@ + join(shown_v, "\n"@)
        } else {
            Seq::empty()
        }));
    }
    assert(out@ =~= files_row(v@, name@, fs));
    out
}

fn command_row_of(v: &JsonValue, stdout: &str) -> (r: String)
    ensures
        r@ == command_row(v@, stdout@),
{
    let out0 = cap_lines(trim_end_string(stdout).as_str(), 12);
    let mut out = out0;
    match get_str_of(v, "stderr") {
        Some(se) => {
            if !trim_string(se).as_str().is_empty() {
                push_str(&mut out, "\nstderr:\n");
                let c = cap_lines(trim_end_string(se).as_str(), 4);
                push_str(&mut out, c.as_str());
            }
        },
        None => {},
    }
    let stdout_trunc = get_bool_of(v, "stdout_truncated") == Some(true);
    let stderr_trunc = get_bool_of(v, "stderr_truncated") == Some(true);
    let timed_out = get_bool_of(v, "timed_out") == Some(true);
    let timeout = match get_u64_of(v, "timeout_secs") {
        Some(t) => t,
        None => 0,
    };
    let truncated = stdout_trunc || stderr_trunc;
    let signalled = get_i64_of(v, "exit_signal").is_some();
    if timed_out {
        push_str(&mut out, "\n[command timed out after ");
        push_decimal(&mut out, timeout);
        push_str(&mut out, "s — killed]");
    }
    if truncated {
        push_str(&mut out, "\n[output truncated at cap");
        if signalled && !timed_out {
            push_str(&mut out, " — command was killed");
        }
        push_str(&mut out, "]");
    } else if signalled && !timed_out {
        push_str(&mut out, "\n[command was killed by a signal (exit_signal reported)]");
    }
    if out.as_str().is_empty() {
        return owned("(no output)");
    }
    out
}

fn success_summary_of(name: &str, v: &JsonValue) -> (r: String)
    ensures
        r@ == success_summary(name@, v@),
{
    let is_write = str_eq(name, "write_file") || str_eq(name, "patch_file");
    if is_write {
        match get_str_of(v, "diff") {
            Some(diff) => {
                let mut out = path_or_name_of(v, name);
                if diff.is_empty() {
                    push_str(&mut out, ": no change (content identical)");
                } else {
                    push_str(&mut out, ":\n");
                    let c = cap_lines(trim_end_string(diff).as_str(), TOOL_DIFF_LINES);
                    push_str(&mut out, c.as_str());
                }
                return out;
            },
            None => {},
        }
    }
    let is_read = str_eq(name, "read_file");
    if is_read && get_bool_of(v, "binary") == Some(true) {
        let size = match get_u64_of(v, "size_bytes") {
            Some(n) => n,
            None => 0,
        };
        let mut out = path_or_name_of(v, name);
        push_str(&mut out, " · binary (");
        push_decimal(&mut out, size);
        push_str(&mut out, " bytes) — not shown as text");
        return out;
    }
    if is_read {
        match get_str_of(v, "content") {
            Some(content) => {
                let p = path_or_name_of(v, name);
                let truncated = get_bool_of(v, "truncated") == Some(true);
                return read_row_of(p.as_str(), content, truncated);
            },
            None => {},
        }
    }
    if str_eq(name, "list_files") {
        match get_str_of(v, "path_kind") {
            Some(k) => {
                if str_eq(k, "file") {
                    let mut out = path_or_name_of(v, name);
                    push_str(&mut out, " · is a file, not a directory");
                    return out;
                }
            },
            None => {},
        }
    }
    match get_array_of(v, "files") {
        Some(files) => {
            proof {
                lemma_array_model(*files);
            }
            return files_row_of(v, name, files);
        },
        None => {},
    }
    match get_str_of(v, "stdout") {
        Some(stdout) => {
            return command_row_of(v, stdout);
        },
        None => {},
    }
    match get_str_of(v, "content") {
        Some(content) => {
            let mut out = match get_str_of(v, "path") {
                Some(p) => owned(p),
                None => owned(name),
            };
            push_str(&mut out, ":\n");
            let c = cap_lines(trim_end_string(content).as_str(), TOOL_RESULT_LINES);
            push_str(&mut out, c.as_str());
            return out;
        },
        None => {},
    }
    let pretty = pretty_text(v);
    cap_lines(pretty.as_str(), TOOL_RESULT_LINES)
}

/// Render a tool result for chat: file lists become counts and names,
/// command output keeps its lines, everything caps with an explicit
/// remainder counter instead of a mid-token cut.
pub fn summarize_tool_result(name: &str, result: &ToolResult) -> (r: String)
    ensures
        r@ == result_summary(name@, *result),
{
    match result {
        ToolResult::Success(v) => success_summary_of(name, v),
        ToolResult::Error(e) => {
            let mut msg = owned("Error: ");
            let t = trim_string(e.as_str());
            push_str(&mut msg, t.as_str());
            cap_lines(msg.as_str(), 5)
        },
        ToolResult::RequiresConfirmation { description } => {
            let mut out = owned("Needs confirmation: ");
            push_str(&mut out, description.as_str());
            out
        },
    }
}

// ---------------------------------------------------------------------
// The byte cap on a rendered result
// ---------------------------------------------------------------------

/// Bytes kept free for the object's scaffolding when its long string
/// fields are trimmed.
pub const JSON_CAP_HEADROOM: usize = 512;

/// The fields trimmed in place when a result is too long.
pub open spec fn is_cappable(k: Seq<char>) -> bool {
    k == "content"@ || k == "stdout"@ || k == "stderr"@
}

/// A trimmed field: its first `per` bytes and a note of what was cut.
pub open spec fn trimmed_field(s: Seq<char>, per: nat) -> Seq<char> {
    byte_prefix(s, per) + "… [truncated "@ + decimal((byte_len(s) - per) as nat) + " of "@
        + decimal(byte_len(s)) + " bytes]"@
}

/// Entry `i` is a cappable field's (first) entry holding a string longer
/// than `per` bytes.
pub open spec fn caps_entry(es: Seq<(Seq<char>, Json)>, i: int, per: nat) -> bool {
    &&& 0 <= i < es.len()
    &&& is_cappable(es[i].0)
    &&& crate::json::first_key(es, es[i].0) == Some(i)
    &&& es[i].1 is Str
    &&& byte_len(es[i].1->Str_0) > per
}

/// The entries with every long cappable field trimmed.
pub open spec fn capped_entries(es: Seq<(Seq<char>, Json)>, per: nat) -> Seq<(Seq<char>, Json)> {
    Seq::new(
        es.len(),
        |i: int|
            if caps_entry(es, i, per) {
                (es[i].0, Json::Str(trimmed_field(es[i].1->Str_0, per)))
            } else {
                es[i]
            },
    )
}

/// The bytes each trimmed field keeps: half of what is left of `cap`
/// after the headroom.
pub open spec fn field_share(cap: nat) -> nat {
    (if cap >= 512 {
        cap - 512
    } else {
        0
    }) as nat / 2
}

/// Some entry is trimmed.
pub open spec fn any_capped(es: Seq<(Seq<char>, Json)>, per: nat) -> bool {
    exists|i: int| caps_entry(es, i, per)
}

/// The note that stands for `n` dropped bytes.
pub open spec fn byte_note(n: nat) -> Seq<char> {
    "…"@ + " [truncated "@ + decimal(n) + " bytes]"@
}

/// `t` cut so that it fits in `cap` bytes together with a note of how
/// many bytes were dropped. The cut leaves room for the longest note `t`
/// could need (one that counts all of `t`); where even that note would
/// not fit, `t` is cut to `cap` bytes and no note is added.
pub open spec fn with_byte_note(t: Seq<char>, cap: nat) -> Seq<char> {
    let room = byte_len(byte_note(byte_len(t)));
    if room > cap {
        byte_prefix(t, cap)
    } else {
        let keep = byte_prefix(t, (cap - room) as nat);
        keep + byte_note((byte_len(t) - byte_len(keep)) as nat)
    }
}

/// The note takes its fixed text's 22 bytes plus one byte per digit.
proof fn lemma_byte_note_len(n: nat)
    ensures
        byte_len(byte_note(n)) == 22 + decimal(n).len(),
{
    reveal_strlit("…");
    reveal_strlit(" [truncated ");
    reveal_strlit(" bytes]");
    crate::text::lemma_ascii_byte_len(" [truncated "@);
    crate::text::lemma_ascii_byte_len(" bytes]"@);
    crate::text::lemma_decimal_byte_len(n);
    assert("…"@ =~= Seq::<char>::empty().push('…'));
    crate::text::lemma_byte_len_push(Seq::<char>::empty(), '…');
    crate::text::lemma_byte_len_concat("…"@, " [truncated "@);
    crate::text::lemma_byte_len_concat("…"@ + " [truncated "@, decimal(n));
    crate::text::lemma_byte_len_concat("…"@ + " [truncated "@ + decimal(n), " bytes]"@);
}

/// The longest prefix of at most `m` bytes has at most `m` bytes and no
/// more than the whole.
proof fn lemma_byte_prefix_len(t: Seq<char>, m: nat)
    ensures
        byte_len(byte_prefix(t, m)) <= m,
        byte_len(byte_prefix(t, m)) <= byte_len(t),
{
    crate::text::lemma_byte_cut_exists(t, m);
    let k = choose|k: int| crate::text::is_byte_cut(t, m, k);
    crate::text::lemma_byte_prefix(t, m, k);
    crate::text::lemma_byte_len_prefix_mono(t, k, t.len() as int);
    assert(t.take(t.len() as int) =~= t);
}

/// A text cut with its note never exceeds the cap.
pub proof fn lemma_with_byte_note_fits(t: Seq<char>, cap: nat)
    ensures
        byte_len(with_byte_note(t, cap)) <= cap,
{
    let room = byte_len(byte_note(byte_len(t)));
    if room > cap {
        lemma_byte_prefix_len(t, cap);
    } else {
        let keep = byte_prefix(t, (cap - room) as nat);
        lemma_byte_prefix_len(t, (cap - room) as nat);
        let d = (byte_len(t) - byte_len(keep)) as nat;
        lemma_byte_note_len(d);
        lemma_byte_note_len(byte_len(t));
        crate::text::lemma_decimal_len_mono(d, byte_len(t));
        crate::text::lemma_byte_len_concat(keep, byte_note(d));
    }
}

/// A result's compact JSON text capped at `cap` bytes. Long `content`,
/// `stdout` and `stderr` strings of an object are trimmed inside the
/// object first, so the text stays valid JSON; only when that is not
/// enough, or nothing could be trimmed, is the text itself cut.
pub open spec fn capped_result(v: Json, cap: nat) -> Seq<char> {
    let raw = json_compact(v);
    if byte_len(raw) <= cap {
        raw
    } else {
        match v {
            Json::Object(es) => {
                let per = field_share(cap);
                if any_capped(es, per) {
                    let re = json_compact(Json::Object(capped_entries(es, per)));
                    if byte_len(re) <= cap {
                        re
                    } else {
                        with_byte_note(re, cap)
                    }
                } else {
                    with_byte_note(raw, cap)
                }
            },
            _ => with_byte_note(raw, cap),
        }
    }
}

fn byte_note_text(n: usize) -> (r: String)
    ensures
        r@ == byte_note(n as nat),
{
    let mut out = owned("…");
    push_str(&mut out, " [truncated ");
    push_decimal(&mut out, n as u64);
    push_str(&mut out, " bytes]");
    out
}

fn byte_note_of(t: &str, cap: usize) -> (r: String)
    ensures
        r@ == with_byte_note(t@, cap as nat),
        byte_len(r@) <= cap,
{
    proof {
        lemma_with_byte_note_fits(t@, cap as nat);
    }
    let n = str_byte_len(t);
    let longest = byte_note_text(n);
    let room = str_byte_len(longest.as_str());
    if room > cap {
        return owned(truncate_chars(t, cap));
    }
    let keep = truncate_chars(t, cap - room);
    let kept = str_byte_len(keep);
    let mut out = owned(keep);
    let note = byte_note_text(n - kept);
    push_str(&mut out, note.as_str());
    out
}

fn trimmed_field_of(s: &str, per: usize) -> (r: String)
    requires
        byte_len(s@) > per,
    ensures
        r@ == trimmed_field(s@, per as nat),
{
    let n = str_byte_len(s);
    let mut out = owned(truncate_chars(s, per));
    push_str(&mut out, "… [truncated ");
    push_decimal(&mut out, (n - per) as u64);
    push_str(&mut out, " of ");
    push_decimal(&mut out, n as u64);
    push_str(&mut out, " bytes]");
    out
}

fn is_cappable_key(k: &str) -> (r: bool)
    ensures
        r == is_cappable(k@),
{
    str_eq(k, "content") || str_eq(k, "stdout") || str_eq(k, "stderr")
}

pub(crate) proof fn lemma_object_entries(es: Vec<(String, JsonValue)>)
    ensures
        JsonValue::Object(es)@ matches Json::Object(m) && m.len() == es@.len() && (forall|i: int|
            0 <= i < es@.len() ==> #[trigger] m[i] == (es@[i].0@, es@[i].1@)),
{
}

/// Whether no entry before `i` has the key of entry `i`.
fn is_first_key(es: &Vec<(String, JsonValue)>, i: usize) -> (r: bool)
    requires
        i < es.len(),
    ensures
        r == (crate::json::first_key(JsonValue::Object(*es)@->Object_0, es@[i as int].0@) == Some(
            i as int,
        )),
{
    let ghost m = JsonValue::Object(*es)@->Object_0;
    proof {
        lemma_object_entries(*es);
    }
    let mut j: usize = 0;
    while j < i
        invariant
            j <= i < es.len(),
            m == JsonValue::Object(*es)@->Object_0,
            m.len() == es@.len(),
            forall|k: int| 0 <= k < es@.len() ==> #[trigger] m[k] == (es@[k].0@, es@[k].1@),
            forall|k: int| 0 <= k < j ==> m[k].0 != es@[i as int].0@,
        decreases i - j,
    {
        if str_eq(es[j].0.as_str(), es[i].0.as_str()) {
            proof {
                assert(m[j as int].0 == es@[i as int].0@);
                crate::json::lemma_first_key(m, es@[i as int].0@);
                if let Some(f) = crate::json::first_key(m, es@[i as int].0@) {
                    assert(f <= j);
                }
            }
            return false;
        }
        j += 1;
    }
    proof {
        assert(m[i as int].0 == es@[i as int].0@);
        crate::json::lemma_first_key(m, es@[i as int].0@);
        if let Some(f) = crate::json::first_key(m, es@[i as int].0@) {
            if f < i {
                assert(m[f].0 != es@[i as int].0@);
            } else if f > i {
                assert(m[i as int].0 != es@[i as int].0@);
            }
        }
    }
    true
}

fn capped_entries_of(es: &Vec<(String, JsonValue)>, per: usize) -> (r: (Vec<(String, JsonValue)>, bool))
    ensures
        JsonValue::Object(r.0)@ == Json::Object(capped_entries(JsonValue::Object(*es)@->Object_0, per as nat)),
        r.1 == exists|i: int| caps_entry(JsonValue::Object(*es)@->Object_0, i, per as nat),
{
    let ghost m = JsonValue::Object(*es)@->Object_0;
    proof {
        lemma_object_entries(*es);
    }
    let mut out: Vec<(String, JsonValue)> = Vec::new();
    let mut changed = false;
    let mut i: usize = 0;
    while i < es.len()
        invariant
            i <= es.len(),
            m == JsonValue::Object(*es)@->Object_0,
            m.len() == es@.len(),
            forall|k: int| 0 <= k < es@.len() ==> #[trigger] m[k] == (es@[k].0@, es@[k].1@),
            out@.len() == i,
            forall|k: int| 0 <= k < i ==> (#[trigger] out@[k]).0@ == capped_entries(m, per as nat)[k].0
                && out@[k].1@ == capped_entries(m, per as nat)[k].1,
            changed == exists|k: int| 0 <= k < i && caps_entry(m, k, per as nat),
        decreases es.len() - i,
    {
        let key = es[i].0.clone();
        let mut done = false;
        if is_cappable_key(key.as_str()) && is_first_key(es, i) {
            match &es[i].1 {
                JsonValue::String(sv) => {
                    if str_byte_len(sv.as_str()) > per {
                        let t = trimmed_field_of(sv.as_str(), per);
                        out.push((key.clone(), JsonValue::String(t)));
                        changed = true;
                        done = true;
                        proof {
                            assert(caps_entry(m, i as int, per as nat));
                        }
                    }
                },
                _ => {},
            }
        }
        if !done {
            let x = crate::json::clone_json(&es[i].1);
            out.push((key, x));
            proof {
                assert(!caps_entry(m, i as int, per as nat));
            }
        }
        proof {
            assert forall|k: int| 0 <= k < i + 1 implies #[trigger] caps_entry(m, k, per as nat)
                == (k < i && caps_entry(m, k, per as nat) || k == i && caps_entry(m, i as int, per as nat)) by {}
        }
        i += 1;
    }
    let r = JsonValue::Object(out);
    proof {
        lemma_object_entries(out);
        assert(r@->Object_0 =~= capped_entries(m, per as nat));
    }
    let JsonValue::Object(o) = r else { return (Vec::new(), changed) };
    (o, changed)
}

/// The derived debug rendering of a result, by `format!("{:?}", ..)`.
/// Nothing is stated of the text: `derive(Debug)` wrote the impl.
#[verifier::external_body]
fn debug_rendering(result: &ToolResult) -> String {
    format!("{:?}", result)
}

/// Cap a rendered result to at most `cap` bytes without cutting
/// mid-JSON where the long fields can be trimmed. Only successes are
/// meant to come here; any other result is shown by its debug form.
pub fn cap_rendered_result(result: &ToolResult, cap: usize) -> (r: String)
    ensures
        result is Success ==> r@ == capped_result(result->Success_0@, cap as nat),
        result is Success ==> byte_len(r@) <= cap,
{
    match result {
        ToolResult::Success(v) => cap_success(v, cap),
        _ => debug_rendering(result),
    }
}

fn cap_success(v: &JsonValue, cap: usize) -> (r: String)
    ensures
        r@ == capped_result(v@, cap as nat),
        byte_len(r@) <= cap,
{
    let raw = compact_text(v);
    if str_byte_len(raw.as_str()) <= cap {
        return raw;
    }
    match v {
        JsonValue::Object(es) => {
            let per = cap.saturating_sub(JSON_CAP_HEADROOM) / 2;
            let (trimmed, changed) = capped_entries_of(es, per);
            let ghost m = JsonValue::Object(*es)@->Object_0;
            assert(v@ == Json::Object(m));
            assert(per as nat == field_share(cap as nat));
            if changed {
                let obj = JsonValue::Object(trimmed);
                let re = compact_text(&obj);
                assert(any_capped(m, per as nat));
                assert(obj@ == Json::Object(capped_entries(m, per as nat)));
                assert(re@ == json_compact(Json::Object(capped_entries(m, per as nat))));
                assert(byte_len(raw@) > cap);
                if str_byte_len(re.as_str()) <= cap {
                    return re;
                }
                return byte_note_of(re.as_str(), cap);
            }
            byte_note_of(raw.as_str(), cap)
        },
        _ => byte_note_of(raw.as_str(), cap),
    }
}

// ---------------------------------------------------------------------
// Laws
// ---------------------------------------------------------------------

/// Every string entry gives one line.
proof fn lemma_entry_lines_len(fs: Seq<Json>, dir: Seq<char>)
    requires
        forall|i: int| 0 <= i < fs.len() ==> #[trigger] fs[i] is Str,
    ensures
        entry_lines(fs, dir).len() == fs.len(),
    decreases fs.len(),
{
    if fs.len() > 0 {
        assert forall|i: int| 0 <= i < fs.drop_last().len() implies #[trigger] fs.drop_last()[i] is Str by {
            assert(fs.drop_last()[i] == fs[i]);
        }
        lemma_entry_lines_len(fs.drop_last(), dir);
        assert(fs.last() is Str);
    }
}

/// The number of `· name` lines is at most the number of entries.
proof fn lemma_entry_lines_at_most(fs: Seq<Json>, dir: Seq<char>)
    ensures
        entry_lines(fs, dir).len() <= fs.len(),
    decreases fs.len(),
{
    if fs.len() > 0 {
        lemma_entry_lines_at_most(fs.drop_last(), dir);
    }
}

/// The summary of a `list_files` result starts with the number of
/// entries its `files` array holds, whatever they are and however
/// many are shown.
pub proof fn law_listing_counts_every_entry(v: Json, fs: Seq<Json>)
    requires
        get_array(v, "files"@) == Some(fs),
        get_str(v, "path_kind"@) != Some("file"@),
    ensures
        success_summary("list_files"@, v).take(decimal(fs.len()).len() + 5int) == decimal(fs.len()) + " entr"@,
{
    reveal_strlit("list_files");
    reveal_strlit("write_file");
    reveal_strlit("patch_file");
    reveal_strlit("read_file");
    assert("list_files"@[0] != "write_file"@[0]);
    assert("list_files"@[0] != "patch_file"@[0]);
    assert("list_files"@.len() != "read_file"@.len());
    reveal_strlit(" entr");
    let s = success_summary("list_files"@, v);
    let head = decimal(fs.len()) + " entr"@;
    assert(s == files_row(v, "list_files"@, fs));
    assert(s.take(head.len() as int) =~= head);
}

/// A listing of more than twelve names shows twelve of them and ends by
/// counting the rest: `… and <count - 12> more`.
pub proof fn law_long_listing_counts_the_rest(v: Json, fs: Seq<Json>)
    requires
        get_array(v, "files"@) == Some(fs),
        get_str(v, "path_kind"@) != Some("file"@),
        fs.len() > 12,
        forall|i: int| 0 <= i < fs.len() ==> #[trigger] fs[i] is Str,
    ensures
        ({
            let s = success_summary("list_files"@, v);
            let tail = "\n… and "@ + decimal((fs.len() - 12) as nat) + " more"@;
            s.len() >= tail.len() && s.skip(s.len() - tail.len()) == tail
        }),
{
    reveal_strlit("list_files");
    reveal_strlit("write_file");
    reveal_strlit("patch_file");
    reveal_strlit("read_file");
    assert("list_files"@[0] != "write_file"@[0]);
    assert("list_files"@[0] != "patch_file"@[0]);
    assert("list_files"@.len() != "read_file"@.len());
    let s = success_summary("list_files"@, v);
    assert(s == files_row(v, "list_files"@, fs));
    let dir_full = match get_str(v, "path"@) {
        Some(p) => p,
        None => Seq::empty(),
    };
    let first = fs.take(12);
    assert forall|i: int| 0 <= i < first.len() implies #[trigger] first[i] is Str by {
        assert(first[i] == fs[i]);
    }
    lemma_entry_lines_len(first, dir_full);
    let tail = "\n… and "@ + decimal((fs.len() - 12) as nat) + " more"@;
    assert(s.skip(s.len() - tail.len()) =~= tail);
}

/// The running brief of any tool but `execute_command` whose arguments
/// hold a string `path` names the tool and that path, clipped to 80
/// bytes: `read_file path=src/main.rs`.
pub proof fn law_brief_names_the_path(name: Seq<char>, v: Json, p: Seq<char>)
    requires
        name != "execute_command"@,
        get_str(v, "path"@) == Some(p),
    ensures
        call_brief(name, v) == name + " path="@ + clipped(p, 80, "…"@),
        byte_len(p) <= 80 ==> call_brief(name, v) == name + " path="@ + p,
{
    reveal_strlit(" ");
    reveal_strlit("=");
    reveal_strlit(" path=");
    reveal_strlit("path");
    assert(first_brief_field(v) == Some(("path"@, p)));
    assert(name + " "@ + "path"@ + "="@ + clipped(p, 80, "…"@) =~= name + " path="@ + clipped(p, 80, "…"@));
}

/// Without a path to show, the brief names the call's string `pattern`
/// instead: `grep pattern=fn main`.
pub proof fn law_brief_names_the_pattern_without_a_path(name: Seq<char>, v: Json, p: Seq<char>)
    requires
        name != "execute_command"@,
        json_get(v, "path"@) is None,
        get_str(v, "pattern"@) == Some(p),
    ensures
        call_brief(name, v) == name + " pattern="@ + clipped(p, 80, "…"@),
{
    reveal_strlit(" ");
    reveal_strlit("=");
    reveal_strlit(" pattern=");
    reveal_strlit("pattern");
    assert(first_brief_field(v) == Some(("pattern"@, p)));
    assert(name + " "@ + "pattern"@ + "="@ + clipped(p, 80, "…"@) =~= name + " pattern="@ + clipped(p, 80, "…"@));
}

/// The joined parts hold every part after the first right after a
/// separator.
proof fn lemma_join_holds(parts: Seq<Seq<char>>, sep: Seq<char>, i: int) -> (ab: (Seq<char>, Seq<char>))
    requires
        0 < i < parts.len(),
    ensures
        join(parts, sep) == ab.0 + sep + parts[i] + ab.1,
        ab.0.len() >= parts[0].len(),
    decreases parts.len(),
{
    let d = parts.drop_last();
    lemma_join_starts_with_first(d, sep);
    assert(d[0] == parts[0]);
    if i == parts.len() - 1 {
        let r = (join(d, sep), Seq::<char>::empty());
        assert(join(parts, sep) =~= r.0 + sep + parts[i] + r.1);
        r
    } else {
        let (a, b) = lemma_join_holds(d, sep, i);
        assert(d[i] == parts[i]);
        let r = (a, b + sep + parts.last());
        assert(join(parts, sep) =~= r.0 + sep + parts[i] + r.1);
        r
    }
}

/// The word a header shows for argument `key` with text `c`: the text
/// clipped to 60 bytes, a path's tail for `path` and `file`.
pub open spec fn header_value(key: Seq<char>, c: Seq<char>) -> Seq<char> {
    if key == "path"@ || key == "file"@ {
        shortened_path(clipped(c, 60, "…"@))
    } else {
        clipped(c, 60, "…"@)
    }
}

/// A call whose arguments hold a scalar `path`, `pattern`, `command`,
/// `file` or `content` shows it in its header as the word
/// `<key>=<value>`, after the tool's name: `execute_command command=cargo
/// test`.
pub proof fn law_header_shows_each_field(name: Seq<char>, v: Json, key: Seq<char>, c: Seq<char>)
    requires
        key == "path"@ || key == "pattern"@ || key == "command"@ || key == "file"@ || key == "content"@,
        json_get(v, key) is Some,
        scalar_text(json_get(v, key)->0) == Some(c),
    ensures
        tool_header(name, v).take(name.len() as int) == name,
        exists|k: int|
            name.len() <= k <= k + (" "@ + key + "="@ + header_value(key, c)).len() <= tool_header(name, v).len()
                && #[trigger] tool_header(name, v).subrange(k, k + (" "@ + key + "="@ + header_value(key, c)).len())
                == " "@ + key + "="@ + header_value(key, c),
{
    let ws = header_words(name, v);
    let word = key + "="@ + header_value(key, c);
    let i = lemma_header_word_at(name, v, key, c);
    let (a, b) = lemma_join_holds(ws, " "@, i);
    lemma_join_starts_with_first(ws, " "@);
    let w = " "@ + key + "="@ + header_value(key, c);
    assert(" "@ + word =~= w);
    let h = tool_header(name, v);
    assert(h == a + " "@ + word + b);
    let k = a.len() as int;
    assert(h.subrange(k, k + w.len()) =~= w);
}

/// Where the word for `key` stands among a header's words.
#[verifier::spinoff_prover]
proof fn lemma_header_word_at(name: Seq<char>, v: Json, key: Seq<char>, c: Seq<char>) -> (i: int)
    requires
        key == "path"@ || key == "pattern"@ || key == "command"@ || key == "file"@ || key == "content"@,
        json_get(v, key) is Some,
        scalar_text(json_get(v, key)->0) == Some(c),
    ensures
        0 < i < header_words(name, v).len(),
        header_words(name, v)[0] == name,
        header_words(name, v)[i] == key + "="@ + header_value(key, c),
{
    let ws = header_words(name, v);
    let word = key + "="@ + header_value(key, c);
    assert(header_field(v, key) == seq![word]);
    let p0 = seq![name];
    let p1 = p0 + header_field(v, "path"@);
    let p2 = p1 + header_field(v, "pattern"@);
    let p3 = p2 + header_field(v, "command"@);
    let p4 = p3 + header_field(v, "file"@);
    let p5 = p4 + header_field(v, "content"@);
    let rec: Seq<Seq<char>> = if get_bool(v, "recursive"@) == Some(true) {
        seq!["recursive"@]
    } else {
        Seq::empty()
    };
    assert(ws == p5 + rec);
    let i: int = if key == "path"@ {
        p0.len() as int
    } else if key == "pattern"@ {
        p1.len() as int
    } else if key == "command"@ {
        p2.len() as int
    } else if key == "file"@ {
        p3.len() as int
    } else {
        p4.len() as int
    };
    assert(ws[i] == word);
    assert(ws[0] == name);
    i
}

/// The joined parts start with the first.
proof fn lemma_join_starts_with_first(parts: Seq<Seq<char>>, sep: Seq<char>)
    requires
        parts.len() > 0,
    ensures
        join(parts, sep).take(parts[0].len() as int) == parts[0],
        join(parts, sep).len() >= parts[0].len(),
    decreases parts.len(),
{
    if parts.len() > 1 {
        let d = parts.drop_last();
        lemma_join_starts_with_first(d, sep);
        assert(d[0] == parts[0]);
        assert(join(parts, sep).take(parts[0].len() as int) =~= join(d, sep).take(parts[0].len() as int));
    }
}

} // verus!
