//! `stk json <FILE> [--keys-only]`: compacts a JSON file (minified by default, or
//! structure-only with `--keys-only`). serde_json reads the document and writes it back
//! compactly; what `--keys-only` keeps, and what is shown of it under a budget, are this
//! module's.
use vstd::prelude::*;

use crate::budget::selector::views;
use crate::budget::tokenizer::{ApproximateCounter, TokenCounter};
use crate::compression::{write_output, WriteOutcome};
use crate::io::{line_bytes, sent, write_line, OutputSink};
use crate::text::{chars_of, eq_str, push_decimal, push_str, string_of};
use crate::verbs::filesystem_budget::{budget_too_small_message, chars_head_tail_result, omission_chars_text, truncate_chars_head_tail, TooSmall};

verus! {

#[verifier::external_type_specification]
#[verifier::external_body]
pub struct ExJsonValue(serde_json::Value);

/// One token of a JSON document read front to back, as plain values. Keys and scalar
/// values hold the text serde_json writes for them: strings quoted and escaped, numbers in
/// its notation.
pub enum TokenView {
    ArrayStart,
    ArrayEnd,
    ObjectStart,
    ObjectEnd,
    Key(Seq<char>),
    Leaf(Seq<char>),
}

/// A JSON document as serde_json reads it, node for node: a scalar as the compact text
/// serde_json's `Display` writes for it (strings quoted and escaped, numbers in its
/// notation), an array as its items, an object as its members (each key as serde_json
/// writes it as a string) in the order its map keeps them.
pub enum JsonNode {
    Scalar(String),
    Array(Vec<JsonNode>),
    Object(Vec<(String, JsonNode)>),
}

/// The tokens of `n` read front to back: arrays and objects as their brackets around their
/// members, each object member as its key then its value, a scalar as a leaf.
pub open spec fn node_tokens(n: JsonNode) -> Seq<TokenView>
    decreases n, 1int,
{
    match n {
        JsonNode::Scalar(t) => seq![TokenView::Leaf(t@)],
        JsonNode::Array(items) => seq![TokenView::ArrayStart] + items_tokens(items@) + seq![TokenView::ArrayEnd],
        JsonNode::Object(members) => seq![TokenView::ObjectStart] + members_tokens(members@) + seq![TokenView::ObjectEnd],
    }
}

/// The tokens of `items`, one after another.
pub open spec fn items_tokens(items: Seq<JsonNode>) -> Seq<TokenView>
    decreases items, 0int,
{
    if items.len() == 0 {
        Seq::empty()
    } else {
        items_tokens(items.drop_last()) + node_tokens(items.last())
    }
}

/// The tokens of `members`, each as its key then its value.
pub open spec fn members_tokens(members: Seq<(String, JsonNode)>) -> Seq<TokenView>
    decreases members, 0int,
{
    if members.len() == 0 {
        Seq::empty()
    } else {
        members_tokens(members.drop_last()) + seq![TokenView::Key(members.last().0@)] + node_tokens(members.last().1)
    }
}

/// The tokens of the JSON document `text` as serde_json reads it (object members in the
/// order its map keeps them), or the message of its error.
pub uninterp spec fn json_tokens(text: Seq<char>) -> Result<Seq<TokenView>, Seq<char>>;

/// `serde_json::from_str::<serde_json::Value>` on `text`, the value converted node for
/// node (see [`JsonNode`]), or the error's message when `text` is not JSON. The contract
/// only names the outcome: it is a function of `text` alone.
#[verifier::external_body]
fn read_json_tree(text: &str) -> (r: Result<JsonNode, String>)
    ensures
        match r {
            Ok(n) => json_tokens(text@) == Ok::<Seq<TokenView>, Seq<char>>(node_tokens(n)),
            Err(e) => json_tokens(text@) == Err::<Seq<TokenView>, Seq<char>>(e@),
        },
{
    match serde_json::from_str::<serde_json::Value>(text) {
        Ok(value) => Ok(node_of(&value)),
        Err(err) => Err(err.to_string()),
    }
}

/// Converts a serde_json value node for node: an array's items and an object's members in
/// turn, each key as `Display` writes it for a string, a scalar as `Display` writes it.
#[verifier::external_body]
fn node_of(value: &serde_json::Value) -> JsonNode {
    match value {
        serde_json::Value::Array(items) => JsonNode::Array(items.iter().map(node_of).collect()),
        serde_json::Value::Object(map) => JsonNode::Object(
            map.iter().map(|(key, item)| (serde_json::Value::String(key.clone()).to_string(), node_of(item))).collect(),
        ),
        scalar => JsonNode::Scalar(scalar.to_string()),
    }
}

/// The token stream with every scalar value replaced by `null`: keys and the nesting of
/// arrays and objects stay, so the document's shape shows without its bulk data.
pub open spec fn stripped(ts: Seq<TokenView>) -> Seq<TokenView> {
    ts.map_values(|t: TokenView| strip_token(t))
}

/// A scalar value becomes `null`; anything else stays.
pub open spec fn strip_token(t: TokenView) -> TokenView {
    if t is Leaf { TokenView::Leaf("null"@) } else { t }
}

/// What `serde_json::to_string` writes for the document whose tokens are `ts` (see
/// [`node_tokens`]), or its error's message.
pub uninterp spec fn json_written(ts: Seq<TokenView>) -> Result<Seq<char>, Seq<char>>;

/// `serde_json::to_string` on the value `n` stands for, rebuilt node for node (each scalar
/// and key read back from the text serde_json wrote for it). The contract only names the
/// outcome: it is a function of `n`'s tokens alone.
#[verifier::external_body]
fn write_json(n: &JsonNode) -> (r: Result<String, String>)
    ensures
        match r {
            Ok(s) => json_written(node_tokens(*n)) == Ok::<Seq<char>, Seq<char>>(s@),
            Err(e) => json_written(node_tokens(*n)) == Err::<Seq<char>, Seq<char>>(e@),
        },
{
    serde_json::to_string(&value_of(n)).map_err(|err| err.to_string())
}

/// Rebuilds the serde_json value a node stands for: an array's items and an object's
/// members in turn, each scalar and key parsed back from its written text.
#[verifier::external_body]
fn value_of(n: &JsonNode) -> serde_json::Value {
    match n {
        JsonNode::Scalar(text) => serde_json::from_str(text).unwrap_or(serde_json::Value::Null),
        JsonNode::Array(items) => serde_json::Value::Array(items.iter().map(value_of).collect()),
        JsonNode::Object(members) => serde_json::Value::Object(
            members.iter().map(|(key, item)| (serde_json::from_str::<String>(key).unwrap_or_default(), value_of(item))).collect(),
        ),
    }
}

/// The compact text of a document read as `ts`, structure-only with `keys_only`: what
/// serde_json writes for it, every scalar value `null` first with `keys_only`.
pub open spec fn document(ts: Seq<TokenView>, keys_only: bool) -> Result<Seq<char>, Seq<char>> {
    if keys_only { json_written(stripped(ts)) } else { json_written(ts) }
}

/// `n` with every scalar value replaced by `null` (see [`stripped`]).
pub fn strip_node(n: &JsonNode) -> (r: JsonNode)
    ensures
        node_tokens(r) == stripped(node_tokens(*n)),
    decreases n,
{
    proof {
        reveal_strlit("null");
    }
    match n {
        JsonNode::Scalar(_) => {
            let r = JsonNode::Scalar("null".to_string());
            assert(node_tokens(r) =~= stripped(node_tokens(*n)));
            r
        },
        JsonNode::Array(items) => {
            let mut out: Vec<JsonNode> = Vec::new();
            let mut i: usize = 0;
            while i < items.len()
                invariant
                    i <= items.len(),
                    *n == JsonNode::Array(*items),
                    items_tokens(out@) == stripped(items_tokens(items@.take(i as int))),
                decreases items.len() - i,
            {
                proof {
                    let nn = *n;
                    assert(decreases_to!(nn => nn->Array_0));
                    assert(nn->Array_0 == *items);
                    assert(decreases_to!(*items => items@));
                    assert(decreases_to!(items@ => items@[i as int]));
                }
                let x = strip_node(&items[i]);
                let ghost before = out@;
                out.push(x);
                proof {
                    assert(out@.drop_last() == before);
                    assert(items@.take(i + 1).drop_last() == items@.take(i as int));
                    assert(items@.take(i + 1).last() == items@[i as int]);
                    assert(stripped(items_tokens(items@.take(i + 1))) =~= stripped(items_tokens(items@.take(i as int)))
                        + stripped(node_tokens(items@[i as int])));
                }
                i += 1;
            }
            assert(items@.take(items.len() as int) == items@);
            let r = JsonNode::Array(out);
            assert(node_tokens(r) =~= stripped(node_tokens(*n)));
            r
        },
        JsonNode::Object(members) => {
            let mut out: Vec<(String, JsonNode)> = Vec::new();
            let mut i: usize = 0;
            while i < members.len()
                invariant
                    i <= members.len(),
                    *n == JsonNode::Object(*members),
                    members_tokens(out@) == stripped(members_tokens(members@.take(i as int))),
                decreases members.len() - i,
            {
                proof {
                    let nn = *n;
                    assert(decreases_to!(nn => nn->Object_0));
                    assert(nn->Object_0 == *members);
                    assert(decreases_to!(*members => members@));
                    assert(decreases_to!(members@ => members@[i as int]));
                    assert(decreases_to!(members@[i as int] => members@[i as int].1));
                }
                let x = strip_node(&members[i].1);
                let key = members[i].0.clone();
                let ghost before = out@;
                out.push((key, x));
                proof {
                    assert(out@.drop_last() == before);
                    assert(members@.take(i + 1).drop_last() == members@.take(i as int));
                    assert(members@.take(i + 1).last() == members@[i as int]);
                    assert(stripped(members_tokens(members@.take(i + 1))) =~= stripped(members_tokens(members@.take(i as int)))
                        + seq![TokenView::Key(members@[i as int].0@)] + stripped(node_tokens(members@[i as int].1)));
                }
                i += 1;
            }
            assert(members@.take(members.len() as int) == members@);
            let r = JsonNode::Object(out);
            assert(node_tokens(r) =~= stripped(node_tokens(*n)));
            r
        },
    }
}

/// Why `stk json` has no compact text: the file is not JSON, or serde_json could not
/// write it back; each with serde_json's message.
#[derive(Debug)]
pub enum JsonError {
    NotJson(String),
    NotWritten(String),
}

/// The compact text of the JSON document `text` (structure-only with `keys_only`), or
/// serde_json's message when it is not JSON or cannot be written back.
pub fn render_json(text: &str, keys_only: bool) -> (r: Result<String, JsonError>)
    ensures
        match json_tokens(text@) {
            Err(e) => r matches Err(JsonError::NotJson(m)) && m@ == e,
            Ok(ts) => match document(ts, keys_only) {
                Ok(d) => r matches Ok(s) && s@ == d,
                Err(e) => r matches Err(JsonError::NotWritten(m)) && m@ == e,
            },
        },
{
    let tree = match read_json_tree(text) {
        Ok(tree) => tree,
        Err(err) => return Err(JsonError::NotJson(err)),
    };
    let shown = if keys_only { strip_node(&tree) } else { tree };
    match write_json(&shown) {
        Ok(s) => Ok(s),
        Err(err) => Err(JsonError::NotWritten(err)),
    }
}

/// The file `json` works on: the first argument that is not `--keys-only`.
pub open spec fn path_arg(args: Seq<Seq<char>>) -> Option<Seq<char>>
    decreases args.len(),
{
    if args.len() == 0 {
        None
    } else if args[0] != "--keys-only"@ {
        Some(args[0])
    } else {
        path_arg(args.drop_first())
    }
}

/// Reads `json`'s arguments: the file, if any (see [`path_arg`]), and whether
/// `--keys-only` was given anywhere.
pub fn parse_args(args: &[String]) -> (r: (Option<String>, bool))
    ensures
        match r.0 {
            Some(p) => path_arg(views(args@)) == Some(p@),
            None => path_arg(views(args@)) is None,
        },
        r.1 == views(args@).contains("--keys-only"@),
{
    let ghost a = views(args@);
    let mut path: Option<String> = None;
    let mut keys_only = false;
    let mut i: usize = 0;
    assert(a.skip(0) == a);
    while i < args.len()
        invariant
            i <= args.len(),
            a == views(args@),
            match path {
                Some(p) => path_arg(a) == Some(p@),
                None => path_arg(a) == path_arg(a.skip(i as int)),
            },
            keys_only == a.take(i as int).contains("--keys-only"@),
        decreases args.len() - i,
    {
        let ghost rest = a.skip(i as int);
        assert(rest[0] == a[i as int]);
        assert(rest.drop_first() == a.skip(i + 1));
        let ghost t = a.take(i + 1);
        assert(t.drop_last() == a.take(i as int));
        assert(t.last() == a[i as int]);
        let arg = chars_of(args[i].as_str());
        if eq_str(&arg, "--keys-only") {
            keys_only = true;
        } else if path.is_none() {
            path = Some(args[i].clone());
        }
        proof {
            assert forall|x: Seq<char>| t.contains(x) <==> (a.take(i as int).contains(x) || x == a[i as int]) by {
                if t.contains(x) {
                    let k = choose|k: int| 0 <= k < t.len() && t[k] == x;
                    if k < i {
                        assert(a.take(i as int)[k] == x);
                    }
                }
                if a.take(i as int).contains(x) {
                    let k = choose|k: int| 0 <= k < i && a.take(i as int)[k] == x;
                    assert(t[k] == x);
                }
                if x == a[i as int] {
                    assert(t[i as int] == x);
                }
            }
        }
        i += 1;
    }
    assert(a.take(args.len() as int) == a);
    (path, keys_only)
}

pub open spec fn no_path_message() -> Seq<char> {
    "stk: json requires a file path"@
}

/// Reports that `json` was given no file; the usage-error exit code.
pub fn no_path_error<E: OutputSink>(stderr: &mut E) -> (r: i32)
    ensures
        r == 2,
        sent(*old(stderr), *final(stderr), line_bytes(no_path_message())),
{
    let _ = write_line(stderr, &chars_of("stk: json requires a file path"));
    2
}

pub open spec fn read_failed(path: Seq<char>, err: Seq<char>) -> Seq<char> {
    "stk: failed to read '"@ + path + "': "@ + err
}

pub open spec fn not_written(path: Seq<char>, err: Seq<char>) -> Seq<char> {
    "stk: failed to serialize '"@ + path + "': "@ + err
}

pub open spec fn not_json(path: Seq<char>, err: Seq<char>) -> Seq<char> {
    "stk: '"@ + path + "' is not valid JSON: "@ + err
}

/// Writes `text` on a line of its own to `stdout`: exit code 0 when it went out (or the
/// reader went away), 1 when writing failed, reported on `stderr`.
fn emit_line<O: OutputSink, E: OutputSink>(text: &str, stdout: &mut O, stderr: &mut E) -> (r: i32)
    ensures
        (r == 0 && *final(stderr) == *old(stderr) && sent(*old(stdout), *final(stdout), line_bytes(text@)))
            || (r == 1 && (exists|m: Seq<char>| sent(*old(stderr), *final(stderr), line_bytes("stk: failed to write output: "@ + m)))),
        old(stdout).accepts_all() || old(stdout).fails_only_by_broken_pipe() ==> r == 0 && *final(stderr) == *old(stderr),
{
    let mut line = chars_of(text);
    line.push('\n');
    assert(line@ == text@ + seq!['\n']);
    let bytes = crate::io::utf8_of(&line);
    match write_output(stdout, &bytes) {
        Ok(()) => 0,
        Err(WriteOutcome::BrokenPipe) => 0,
        Err(WriteOutcome::Failed(err)) => {
            let ghost before = *stderr;
            let mut msg = chars_of("stk: failed to write output: ");
            push_str(&mut msg, err.as_str());
            let _ = write_line(stderr, &msg);
            assert(sent(before, *stderr, line_bytes("stk: failed to write output: "@ + err@)));
            1
        },
        Err(WriteOutcome::AlreadyReported(code)) => code,
    }
}

/// The exit code of `stk json` once the file `path` has been read as `read`: its compact
/// text (structure-only with `keys_only`), truncated head and tail to the budget if there
/// is one, goes to `stdout` on a line of its own.
pub fn finish<O: OutputSink, E: OutputSink>(
    path: &str,
    read: Result<String, String>,
    keys_only: bool,
    stdout: &mut O,
    stderr: &mut E,
    budget: Option<usize>,
) -> (r: i32)
    ensures
        read matches Err(e) ==> r == 1 && *final(stdout) == *old(stdout)
            && sent(*old(stderr), *final(stderr), line_bytes(read_failed(path@, e@))),
        read matches Ok(text) ==> match json_tokens(text@) {
            Err(e) => r == 1 && *final(stdout) == *old(stdout)
                && sent(*old(stderr), *final(stderr), line_bytes(not_json(path@, e))),
            Ok(ts) => match document(ts, keys_only) {
                Err(e) => r == 1 && *final(stdout) == *old(stdout)
                    && sent(*old(stderr), *final(stderr), line_bytes(not_written(path@, e))),
                Ok(doc) => {
                let floor = ApproximateCounter.spec_count(omission_chars_text(doc.len()));
                &&& (budget is None || ApproximateCounter.spec_count(doc) <= budget->0) ==> (r == 0
                    && *final(stderr) == *old(stderr) && sent(*old(stdout), *final(stdout), line_bytes(doc)))
                    || (r == 1 && (exists|m: Seq<char>| sent(*old(stderr), *final(stderr), line_bytes("stk: failed to write output: "@ + m))))
                &&& (budget is Some && ApproximateCounter.spec_count(doc) > budget->0 && budget->0 < floor) ==> r == 2
                    && *final(stdout) == *old(stdout) && sent(
                    *old(stderr),
                    *final(stderr),
                    line_bytes(budget_too_small_message(budget->0 as nat, "this JSON"@, floor)),
                )
                &&& (budget is Some && ApproximateCounter.spec_count(doc) > budget->0 && budget->0 >= floor) ==> (r == 0
                    && *final(stderr) == *old(stderr) && (exists|shown: Seq<char>|
                    chars_head_tail_result(&ApproximateCounter, doc, budget->0 as int, shown)
                    && sent(*old(stdout), *final(stdout), line_bytes(shown))))
                    || (r == 1 && (exists|m: Seq<char>| sent(*old(stderr), *final(stderr), line_bytes("stk: failed to write output: "@ + m))))
                &&& (old(stdout).accepts_all() || old(stdout).fails_only_by_broken_pipe()) && !(budget is Some
                    && ApproximateCounter.spec_count(doc) > budget->0 && budget->0 < floor) ==> r == 0 && *final(stderr)
                    == *old(stderr)
                },
            },
        },
{
    let content = match read {
        Ok(content) => content,
        Err(err) => {
            let mut msg = chars_of("stk: failed to read '");
            push_str(&mut msg, path);
            push_str(&mut msg, "': ");
            push_str(&mut msg, err.as_str());
            let _ = write_line(stderr, &msg);
            return 1;
        },
    };
    let compacted = match render_json(content.as_str(), keys_only) {
        Ok(compacted) => compacted,
        Err(JsonError::NotJson(err)) => {
            let mut msg = chars_of("stk: '");
            push_str(&mut msg, path);
            push_str(&mut msg, "' is not valid JSON: ");
            push_str(&mut msg, err.as_str());
            let _ = write_line(stderr, &msg);
            return 1;
        },
        Err(JsonError::NotWritten(err)) => {
            let mut msg = chars_of("stk: failed to serialize '");
            push_str(&mut msg, path);
            push_str(&mut msg, "': ");
            push_str(&mut msg, err.as_str());
            let _ = write_line(stderr, &msg);
            return 1;
        },
    };
    let rendered = match budget {
        None => compacted,
        Some(b) => match truncate_chars_head_tail(compacted.as_str(), b, &ApproximateCounter) {
            Ok(rendered) => rendered,
            Err(TooSmall { minimum }) => {
                let mut msg = chars_of("stk: --budget ");
                push_decimal(&mut msg, b);
                push_str(&mut msg, " is too small to render ");
                push_str(&mut msg, "this JSON");
                push_str(&mut msg, " (minimum: ");
                push_decimal(&mut msg, minimum);
                push_str(&mut msg, ")");
                let _ = write_line(stderr, &msg);
                return 2;
            },
        },
    };
    emit_line(rendered.as_str(), stdout, stderr)
}

} // verus!
