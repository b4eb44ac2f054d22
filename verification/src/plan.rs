use vstd::prelude::*;
use vstd::string::*;
use vstd::utf8::*;

use crate::diff::{count_diff_stats, diff_stats};
use crate::ollama::{message_of, Message};
use crate::prompts::{agent_system_prompt, spec_agent_system_prompt};
use crate::text::{
    ascii_lower, ascii_lower_char, chars_of, find_char, lemma_find_char, lower_case_equals, trim_ws, trimmed,
};

verus! {

/// Lexical state of the brace scanner: nesting depth, inside a string literal,
/// and whether the next character is escaped.
pub struct ScanState {
    pub depth: int,
    pub in_string: bool,
    pub escaped: bool,
}

/// The state of the scanner before the opening brace.
pub open spec fn scan_start() -> ScanState {
    ScanState { depth: 0, in_string: false, escaped: false }
}

/// Whether reading `c` in state `st` closes the outermost object.
pub open spec fn scan_closes(st: ScanState, c: char) -> bool {
    !st.escaped && !st.in_string && c == '}' && st.depth - 1 == 0
}

/// The state after reading `c` in state `st`.
pub open spec fn scan_step(st: ScanState, c: char) -> ScanState {
    if st.escaped {
        ScanState { escaped: false, ..st }
    } else if c == '\\' && st.in_string {
        ScanState { escaped: true, ..st }
    } else if c == '"' {
        ScanState { in_string: !st.in_string, ..st }
    } else if c == '{' && !st.in_string {
        ScanState { depth: st.depth + 1, ..st }
    } else if c == '}' && !st.in_string {
        ScanState { depth: st.depth - 1, ..st }
    } else {
        st
    }
}

/// Scanning `s` from index `i` in state `st`: the index just past the brace that
/// closes the outermost object, if one comes.
pub open spec fn scan_end(s: Seq<char>, i: int, st: ScanState) -> Option<int>
    decreases s.len() - i,
{
    if i < 0 || i >= s.len() {
        None
    } else if scan_closes(st, s[i]) {
        Some(i + 1)
    } else {
        scan_end(s, i + 1, scan_step(st, s[i]))
    }
}

/// The span `[start, end)` of the first balanced JSON object in `s`: it starts at
/// the first `{` and ends at the `}` that brings the depth back to zero, braces
/// inside string literals (with backslash escapes) not counting.
pub open spec fn json_object_span(s: Seq<char>) -> Option<(int, int)> {
    match find_char(s, '{', 0) {
        None => None,
        Some(start) => match scan_end(s, start, scan_start()) {
            None => None,
            Some(end) => Some((start, end)),
        },
    }
}

proof fn lemma_scan_end_bounds(s: Seq<char>, i: int, st: ScanState)
    requires
        0 <= i,
    ensures
        scan_end(s, i, st) matches Some(e) ==> i < e <= s.len() && s[e - 1] == '}',
    decreases s.len() - i,
{
    if i < s.len() && !scan_closes(st, s[i]) {
        lemma_scan_end_bounds(s, i + 1, scan_step(st, s[i]));
    }
}

proof fn lemma_scan_end_subrange(s: Seq<char>, base: int, i: int, st: ScanState, e: int)
    requires
        0 <= base <= i,
        scan_end(s, i, st) == Some(e),
    ensures
        scan_end(s.subrange(base, e), i - base, st) == Some(e - base),
    decreases s.len() - i,
{
    lemma_scan_end_bounds(s, i, st);
    let sub = s.subrange(base, e);
    assert(sub[i - base] == s[i]);
    if !scan_closes(st, s[i]) {
        lemma_scan_end_subrange(s, base, i + 1, scan_step(st, s[i]), e);
    }
}

/// A located object starts at the first `{` of the text and ends with a `}`.
pub proof fn law_json_object_braces(s: Seq<char>)
    ensures
        json_object_span(s) matches Some(span) ==> {
            &&& 0 <= span.0 < span.1 <= s.len()
            &&& s[span.0] == '{'
            &&& s[span.1 - 1] == '}'
            &&& forall|j: int| 0 <= j < span.0 ==> s[j] != '{'
        },
{
    lemma_find_char(s, '{', 0);
    if let Some(start) = find_char(s, '{', 0) {
        lemma_scan_end_bounds(s, start, scan_start());
    }
}

/// Extracting the object again from an extracted object gives it back whole.
pub proof fn law_json_object_idempotent(s: Seq<char>)
    ensures
        json_object_span(s) matches Some(span) ==> json_object_span(s.subrange(span.0, span.1))
            == Some((0int, span.1 - span.0)),
{
    law_json_object_braces(s);
    if let Some(span) = json_object_span(s) {
        let sub = s.subrange(span.0, span.1);
        lemma_scan_end_subrange(s, span.0, span.0, scan_start(), span.1);
        assert(sub[0] == '{');
        assert(find_char(sub, '{', 0) == Some(0int));
    }
}

/// The body of a JSON string literal: characters other than `"` and `\`, and
/// escapes, each a backslash followed by exactly one character.
pub open spec fn json_string_body(b: Seq<char>) -> bool
    decreases b.len(),
{
    if b.len() == 0 {
        true
    } else if b[0] == '\\' {
        b.len() >= 2 && json_string_body(b.subrange(2, b.len() as int))
    } else {
        b[0] != '"' && json_string_body(b.drop_first())
    }
}

/// A piece of the contents of a JSON object.
pub enum JsonPiece {
    /// A character outside strings other than `"`, `{` and `}` (a bracket, a
    /// comma, a colon, a digit, a letter of `true`, white space, ...).
    Other(char),
    /// A string literal, given by the body between its quotes.
    Text(Seq<char>),
    /// A nested object, given by its contents.
    Object(Box<JsonPieces>),
}

/// The contents of a JSON object, piece after piece.
pub enum JsonPieces {
    Nil,
    Cons(Box<JsonPiece>, Box<JsonPieces>),
}

/// The text of a piece.
pub open spec fn piece_text(p: JsonPiece) -> Seq<char>
    decreases p,
{
    match p {
        JsonPiece::Other(c) => seq![c],
        JsonPiece::Text(b) => seq!['"'] + b + seq!['"'],
        JsonPiece::Object(ps) => seq!['{'] + pieces_text(*ps) + seq!['}'],
    }
}

/// The text of a sequence of pieces.
pub open spec fn pieces_text(ps: JsonPieces) -> Seq<char>
    decreases ps,
{
    match ps {
        JsonPieces::Nil => Seq::empty(),
        JsonPieces::Cons(p, rest) => piece_text(*p) + pieces_text(*rest),
    }
}

/// Every piece is well formed: other characters are not `"`, `{` or `}`, and
/// string bodies are well formed.
pub open spec fn piece_ok(p: JsonPiece) -> bool
    decreases p,
{
    match p {
        JsonPiece::Other(c) => c != '"' && c != '{' && c != '}',
        JsonPiece::Text(b) => json_string_body(b),
        JsonPiece::Object(ps) => pieces_ok(*ps),
    }
}

/// Every piece of the sequence is well formed.
pub open spec fn pieces_ok(ps: JsonPieces) -> bool
    decreases ps,
{
    match ps {
        JsonPieces::Nil => true,
        JsonPieces::Cons(p, rest) => piece_ok(*p) && pieces_ok(*rest),
    }
}

/// `s` holds `x` from index `i` on.
pub open spec fn holds_at(s: Seq<char>, i: int, x: Seq<char>) -> bool {
    0 <= i && i + x.len() <= s.len() && s.subrange(i, i + x.len()) == x
}

proof fn lemma_holds_at_index(s: Seq<char>, i: int, x: Seq<char>, k: int)
    requires
        holds_at(s, i, x),
        0 <= k < x.len(),
    ensures
        s[i + k] == x[k],
{
    assert(s.subrange(i, i + x.len())[k] == s[i + k]);
}

proof fn lemma_holds_at_split(s: Seq<char>, i: int, x: Seq<char>, y: Seq<char>)
    requires
        holds_at(s, i, x + y),
    ensures
        holds_at(s, i, x),
        holds_at(s, i + x.len(), y),
{
    let xy = x + y;
    assert forall|k: int| 0 <= k < xy.len() implies s[i + k] == xy[k] by {
        assert(s.subrange(i, i + xy.len())[k] == s[i + k]);
    }
    assert(s.subrange(i, i + x.len()) =~= x) by {
        assert forall|k: int| 0 <= k < x.len() implies s.subrange(i, i + x.len())[k] == x[k] by {
            assert(xy[k] == x[k]);
        }
    }
    assert(s.subrange(i + x.len(), i + x.len() + y.len()) =~= y) by {
        assert forall|k: int| 0 <= k < y.len() implies s.subrange(
            i + x.len(),
            i + x.len() + y.len(),
        )[k] == y[k] by {
            assert(xy[x.len() + k] == y[k]);
            assert(s[i + (x.len() + k)] == xy[x.len() + k]);
        }
    }
}

proof fn lemma_scan_string_body(s: Seq<char>, i: int, b: Seq<char>, st: ScanState)
    requires
        holds_at(s, i, b),
        json_string_body(b),
        st.in_string,
        !st.escaped,
    ensures
        scan_end(s, i, st) == scan_end(s, i + b.len(), st),
    decreases b.len(),
{
    if b.len() > 0 {
        lemma_holds_at_index(s, i, b, 0);
        if b[0] == '\\' {
            lemma_holds_at_index(s, i, b, 1);
            let rest = b.subrange(2, b.len() as int);
            assert(b =~= seq![b[0], b[1]] + rest);
            lemma_holds_at_split(s, i, seq![b[0], b[1]], rest);
            lemma_scan_string_body(s, i + 2, rest, st);
            let st1 = scan_step(st, s[i]);
            assert(st1 == ScanState { escaped: true, ..st });
            assert(scan_step(st1, s[i + 1]) == st);
        } else {
            let rest = b.drop_first();
            assert(b =~= seq![b[0]] + rest);
            lemma_holds_at_split(s, i, seq![b[0]], rest);
            lemma_scan_string_body(s, i + 1, rest, st);
            assert(scan_step(st, s[i]) == st);
        }
    }
}

proof fn lemma_scan_piece(s: Seq<char>, i: int, p: JsonPiece, d: int)
    requires
        holds_at(s, i, piece_text(p)),
        piece_ok(p),
        d >= 1,
    ensures
        scan_end(s, i, ScanState { depth: d, in_string: false, escaped: false }) == scan_end(
            s,
            i + piece_text(p).len(),
            ScanState { depth: d, in_string: false, escaped: false },
        ),
    decreases p,
{
    let st = ScanState { depth: d, in_string: false, escaped: false };
    match p {
        JsonPiece::Other(c) => {
            lemma_holds_at_index(s, i, piece_text(p), 0);
            assert(scan_step(st, s[i]) == st);
        },
        JsonPiece::Text(b) => {
            let t = piece_text(p);
            lemma_holds_at_index(s, i, t, 0);
            lemma_holds_at_split(s, i, seq!['"'] + b, seq!['"']);
            lemma_holds_at_split(s, i, seq!['"'], b);
            let inside = ScanState { depth: d, in_string: true, escaped: false };
            assert(scan_step(st, s[i]) == inside);
            lemma_scan_string_body(s, i + 1, b, inside);
            let j = i + 1 + b.len();
            lemma_holds_at_index(s, j, seq!['"'], 0);
            assert(scan_step(inside, s[j]) == st);
        },
        JsonPiece::Object(ps) => {
            let inner = pieces_text(*ps);
            lemma_holds_at_split(s, i, seq!['{'] + inner, seq!['}']);
            lemma_holds_at_split(s, i, seq!['{'], inner);
            lemma_holds_at_index(s, i, seq!['{'], 0);
            let deeper = ScanState { depth: d + 1, in_string: false, escaped: false };
            assert(scan_step(st, s[i]) == deeper);
            lemma_scan_pieces(s, i + 1, *ps, d + 1);
            let j = i + 1 + inner.len();
            lemma_holds_at_index(s, j, seq!['}'], 0);
            assert(!scan_closes(deeper, s[j]));
            assert(scan_step(deeper, s[j]) == st);
        },
    }
}

proof fn lemma_scan_pieces(s: Seq<char>, i: int, ps: JsonPieces, d: int)
    requires
        holds_at(s, i, pieces_text(ps)),
        pieces_ok(ps),
        d >= 1,
    ensures
        scan_end(s, i, ScanState { depth: d, in_string: false, escaped: false }) == scan_end(
            s,
            i + pieces_text(ps).len(),
            ScanState { depth: d, in_string: false, escaped: false },
        ),
    decreases ps,
{
    match ps {
        JsonPieces::Nil => {},
        JsonPieces::Cons(p, rest) => {
            lemma_holds_at_split(s, i, piece_text(*p), pieces_text(*rest));
            lemma_scan_piece(s, i, *p, d);
            lemma_scan_pieces(s, i + piece_text(*p).len(), *rest, d);
        },
    }
}

proof fn lemma_first_brace_at(s: Seq<char>, j: int, m: int)
    requires
        0 <= j <= m < s.len(),
        s[m] == '{',
        forall|k: int| j <= k < m ==> s[k] != '{',
    ensures
        find_char(s, '{', j) == Some(m),
    decreases m - j,
{
    if j < m {
        lemma_first_brace_at(s, j + 1, m);
    }
}

/// A JSON object, made of string literals (with their escapes, each escaping
/// exactly one character), nested objects and any other characters, that
/// follows text holding no `{` is found whole, whatever comes after it.
pub proof fn law_json_object_found_whole(prefix: Seq<char>, contents: JsonPieces, suffix: Seq<char>)
    requires
        forall|j: int| 0 <= j < prefix.len() ==> prefix[j] != '{',
        pieces_ok(contents),
    ensures
        ({
            let object = seq!['{'] + pieces_text(contents) + seq!['}'];
            json_object_span(prefix + object + suffix) == Some(
                (prefix.len() as int, (prefix.len() + object.len()) as int),
            )
        }),
{
    let inner = pieces_text(contents);
    let object = seq!['{'] + inner + seq!['}'];
    let s = prefix + object + suffix;
    let m = prefix.len() as int;
    assert(s.subrange(m, m + object.len()) =~= object);
    lemma_holds_at_split(s, m, seq!['{'] + inner, seq!['}']);
    lemma_holds_at_split(s, m, seq!['{'], inner);
    lemma_holds_at_index(s, m, seq!['{'], 0);
    assert forall|k: int| 0 <= k < m implies s[k] != '{' by {
        assert(s[k] == prefix[k]);
    }
    lemma_first_brace_at(s, 0, m);
    let one = ScanState { depth: 1, in_string: false, escaped: false };
    assert(scan_step(scan_start(), s[m]) == one);
    lemma_scan_pieces(s, m + 1, contents, 1);
    let j = m + 1 + inner.len();
    lemma_holds_at_index(s, j, seq!['}'], 0);
    assert(scan_closes(one, s[j]));
}

/// The first balanced `{...}` object of `text`, braces inside JSON strings not
/// counting; `None` when there is no `{` or the object never closes.
pub fn extract_json_object(text: &str) -> (r: Option<&str>)
    ensures
        json_object_span(text@) is None <==> r is None,
        json_object_span(text@) matches Some(span) ==> r.unwrap()@ == text@.subrange(span.0, span.1),
{
    let v = chars_of(text);
    let mut start: usize = 0;
    while start < v.len() && v[start] != '{'
        invariant
            v@ == text@,
            start <= v.len(),
            find_char(text@, '{', start as int) == find_char(text@, '{', 0),
        decreases v.len() - start,
    {
        start = start + 1;
    }
    if start == v.len() {
        return None;
    }
    assert(find_char(text@, '{', start as int) == Some(start as int));
    let mut depth: usize = 0;
    let mut in_string = false;
    let mut escaped = false;
    let mut i = start;
    while i < v.len()
        invariant
            v@ == text@,
            start < v.len(),
            v@[start as int] == '{',
            find_char(text@, '{', 0) == Some(start as int),
            start <= i <= v.len(),
            depth <= i - start,
            i > start ==> depth >= 1,
            i == start ==> depth == 0 && !in_string && !escaped,
            scan_end(text@, i as int, ScanState { depth: depth as int, in_string, escaped })
                == scan_end(text@, start as int, scan_start()),
        decreases v.len() - i,
    {
        let c = v[i];
        if escaped {
            escaped = false;
        } else if c == '\\' && in_string {
            escaped = true;
        } else if c == '"' {
            in_string = !in_string;
        } else if c == '{' && !in_string {
            depth = depth + 1;
        } else if c == '}' && !in_string {
            if depth == 1 {
                assert(scan_end(text@, i as int, ScanState { depth: depth as int, in_string, escaped })
                    == Some(i as int + 1));
                return Some(text.substring_char(start, i + 1));
            }
            depth = depth - 1;
        }
        i = i + 1;
    }
    None
}

/// What a proposed change does to its file.
#[derive(Clone, Copy, Debug, PartialEq, Eq, Structural)]
pub enum ChangeAction {
    Create,
    Update,
    Delete,
}

/// One proposed change: the path relative to the workspace root, the action,
/// the complete new text (for create and update) and an optional note.
#[derive(Debug)]
pub struct FileChange {
    pub path: String,
    pub action: ChangeAction,
    pub content: Option<String>,
    pub note: Option<String>,
}

/// The edit plan the model answers with.
#[derive(Debug)]
pub struct EditPlan {
    pub summary: String,
    pub changes: Vec<FileChange>,
}

/// The user message of an agent turn: the request, then the workspace context.
pub open spec fn agent_prompt(request: Seq<char>, context: Seq<char>) -> Seq<char> {
    "TASK:\n"@ + request + "\n\nWORKSPACE CONTEXT:\n"@ + context + "\n\nReturn strict JSON only."@
}

/// Builds the user message of an agent turn.
pub fn build_agent_prompt(request: &str, context: &str) -> (r: String)
    ensures
        r@ == agent_prompt(request@, context@),
{
    let mut r = String::from_str("TASK:\n");
    r.append(request);
    r.append("\n\nWORKSPACE CONTEXT:\n");
    r.append(context);
    r.append("\n\nReturn strict JSON only.");
    r
}

/// The conversation of one agent turn: the agent instructions, then the
/// request with the workspace context.
pub fn agent_turn_messages(request: &str, context: &str) -> (r: Vec<Message>)
    ensures
        r@.map_values(|m: Message| m@) == seq![
            message_of("system"@, spec_agent_system_prompt()),
            message_of("user"@, agent_prompt(request@, context@)),
        ],
{
    let prompt = build_agent_prompt(request, context);
    let mut messages: Vec<Message> = Vec::new();
    messages.push(Message::system(agent_system_prompt()));
    messages.push(Message::user(prompt.as_str()));
    assert(messages@.map_values(|m: Message| m@) =~= seq![
        message_of("system"@, spec_agent_system_prompt()),
        message_of("user"@, agent_prompt(request@, context@)),
    ]);
    messages
}

/// Longest answer (in bytes) quoted whole in the error about a missing plan.
pub const PREVIEW_BYTES: usize = 500;

/// The part of a model answer quoted when no JSON object could be found: the
/// whole answer up to `PREVIEW_BYTES` bytes, else its first `PREVIEW_BYTES`
/// bytes followed by `...`.
pub open spec fn response_preview_text(response: Seq<char>) -> Seq<char> {
    let bytes = encode_utf8(response);
    if bytes.len() > PREVIEW_BYTES {
        decode_utf8(bytes.subrange(0, PREVIEW_BYTES as int)) + "..."@
    } else {
        response
    }
}

/// The answer cannot be cut at `PREVIEW_BYTES` bytes: that byte is inside a
/// character.
pub open spec fn preview_cuts_a_character(response: Seq<char>) -> bool {
    let bytes = encode_utf8(response);
    bytes.len() > PREVIEW_BYTES && !is_char_boundary(bytes, PREVIEW_BYTES as int)
}

/// Quotes a model answer in the error about a missing plan.
pub fn response_preview(response: &str) -> (r: String)
    requires
        !preview_cuts_a_character(response@),
    ensures
        r@ == response_preview_text(response@),
{
    proof {
        encode_utf8_valid_utf8(response@);
        encode_utf8_decode_utf8(response@);
    }
    if response.as_bytes().len() > PREVIEW_BYTES {
        let (head, _tail) = response.split_at(PREVIEW_BYTES);
        proof {
            encode_utf8_decode_utf8(head@);
        }
        let mut r = head.to_owned();
        r.append("...");
        r
    } else {
        response.to_owned()
    }
}

/// Number of changes in `changes` whose action is `action`.
pub open spec fn count_action(changes: Seq<ChangeAction>, action: ChangeAction) -> nat
    decreases changes.len(),
{
    if changes.len() == 0 {
        0
    } else {
        count_action(changes.drop_last(), action) + if changes.last() == action {
            1nat
        } else {
            0nat
        }
    }
}

/// The actions of a plan's changes, in order.
pub open spec fn plan_actions(plan: &EditPlan) -> Seq<ChangeAction> {
    plan.changes@.map_values(|c: FileChange| c.action)
}

proof fn lemma_count_action_bounded(changes: Seq<ChangeAction>, action: ChangeAction)
    ensures
        count_action(changes, action) <= changes.len(),
    decreases changes.len(),
{
    if changes.len() > 0 {
        lemma_count_action_bounded(changes.drop_last(), action);
    }
}

/// How many changes of a plan create, update and delete files.
pub fn count_actions(plan: &EditPlan) -> (r: (usize, usize, usize))
    ensures
        r.0 == count_action(plan_actions(plan), ChangeAction::Create),
        r.1 == count_action(plan_actions(plan), ChangeAction::Update),
        r.2 == count_action(plan_actions(plan), ChangeAction::Delete),
{
    let ghost acts = plan_actions(plan);
    let mut creates: usize = 0;
    let mut updates: usize = 0;
    let mut deletes: usize = 0;
    let mut i: usize = 0;
    while i < plan.changes.len()
        invariant
            acts == plan_actions(plan),
            i <= plan.changes.len(),
            creates == count_action(acts.take(i as int), ChangeAction::Create),
            updates == count_action(acts.take(i as int), ChangeAction::Update),
            deletes == count_action(acts.take(i as int), ChangeAction::Delete),
        decreases plan.changes.len() - i,
    {
        proof {
            lemma_count_action_bounded(acts.take(i as int), ChangeAction::Create);
            lemma_count_action_bounded(acts.take(i as int), ChangeAction::Update);
            lemma_count_action_bounded(acts.take(i as int), ChangeAction::Delete);
            assert(acts.take(i + 1).drop_last() =~= acts.take(i as int));
        }
        match plan.changes[i].action {
            ChangeAction::Create => creates = creates + 1,
            ChangeAction::Update => updates = updates + 1,
            ChangeAction::Delete => deletes = deletes + 1,
        }
        i = i + 1;
    }
    assert(acts.take(plan.changes.len() as int) =~= acts);
    (creates, updates, deletes)
}

/// Symbol and word that announce an action.
pub open spec fn action_label_text(action: ChangeAction) -> (Seq<char>, Seq<char>) {
    match action {
        ChangeAction::Create => ("+"@, "CREATE"@),
        ChangeAction::Update => ("~"@, "UPDATE"@),
        ChangeAction::Delete => ("-"@, "DELETE"@),
    }
}

/// The symbol and the word shown for an action.
pub fn action_label(action: ChangeAction) -> (r: (&'static str, &'static str))
    ensures
        r.0@ == action_label_text(action).0,
        r.1@ == action_label_text(action).1,
{
    match action {
        ChangeAction::Create => ("+", "CREATE"),
        ChangeAction::Update => ("~", "UPDATE"),
        ChangeAction::Delete => ("-", "DELETE"),
    }
}

/// The unified diff that `similar` renders from `old` to `new` (line by line,
/// with the given file headers and context radius).
pub uninterp spec fn unified_diff_text(
    old: Seq<char>,
    new: Seq<char>,
    old_header: Seq<char>,
    new_header: Seq<char>,
    context_radius: usize,
) -> Seq<char>;

/// `similar::TextDiff::from_lines(old, new).unified_diff()` with the headers and
/// context radius set, rendered with `to_string`. The radius is kept at most
/// `usize::MAX / 2`: grouping the changes computes twice the radius, which
/// overflows above that. Claimed: the text depends on
/// these arguments only, and is empty when `old` and `new` are the same text
/// (the diff then has no hunk, and the headers are only written before a hunk).
/// The layout of the hunks is not stated.
#[verifier::external_body]
fn unified_diff(
    old: &str,
    new: &str,
    old_header: &str,
    new_header: &str,
    context_radius: usize,
) -> (r: String)
    requires
        context_radius <= usize::MAX / 2,
    ensures
        r@ == unified_diff_text(old@, new@, old_header@, new_header@, context_radius),
        old@ == new@ ==> r@ == Seq::<char>::empty(),
{
    similar::TextDiff::from_lines(old, new).unified_diff().header(old_header, new_header).context_radius(
        context_radius,
    ).to_string()
}

/// Lines of context kept around each change in a preview.
pub const PREVIEW_CONTEXT: usize = 2;

/// The diff shown for the file at `path` going from `old` to `new`.
pub open spec fn preview_diff(path: Seq<char>, old: Seq<char>, new: Seq<char>) -> Seq<char> {
    unified_diff_text(old, new, "a/"@ + path, "b/"@ + path, PREVIEW_CONTEXT)
}

/// What is shown of one proposed change before it is applied.
#[derive(Debug)]
pub enum ChangePreview {
    /// A deletion of an existing file: the diff that empties it, and how many
    /// lines go.
    Removal { diff: String, deletions: usize },
    /// A deletion of a file that could not be read.
    MissingFile,
    /// A creation or update: the diff from the current text (empty when the
    /// file cannot be read) and its added and removed line counts.
    Edit { diff: String, additions: usize, deletions: usize },
    /// A creation or update without content.
    NoContent,
}

/// Builds the preview of `change`, given the current text of its file
/// (`None` when it cannot be read).
pub fn preview_change(change: &FileChange, existing: Option<&str>) -> (r: ChangePreview)
    ensures
        match change.action {
            ChangeAction::Delete => match existing {
                Some(old) => r matches ChangePreview::Removal { diff, deletions } && diff@
                    == preview_diff(change.path@, old@, Seq::empty()) && deletions == diff_stats(
                    diff@,
                ).1,
                None => r is MissingFile,
            },
            _ => match change.content {
                Some(new) => r matches ChangePreview::Edit { diff, additions, deletions } && diff@
                    == preview_diff(
                    change.path@,
                    match existing {
                        Some(old) => old@,
                        None => Seq::empty(),
                    },
                    new@,
                ) && additions == diff_stats(diff@).0 && deletions == diff_stats(diff@).1,
                None => r is NoContent,
            },
        },
        // A proposal that leaves the file as it is shows an empty diff.
        (change.action != ChangeAction::Delete && change.content is Some && existing is Some
            && existing.unwrap()@ == change.content.unwrap()@) ==> (r matches ChangePreview::Edit {
            diff,
            additions,
            deletions,
        } && diff@.len() == 0 && additions == 0 && deletions == 0),
{
    let mut old_header = String::from_str("a/");
    old_header.append(change.path.as_str());
    let mut new_header = String::from_str("b/");
    new_header.append(change.path.as_str());
    match change.action {
        ChangeAction::Delete => match existing {
            Some(old) => {
                let diff = unified_diff(
                    old,
                    "",
                    old_header.as_str(),
                    new_header.as_str(),
                    PREVIEW_CONTEXT,
                );
                proof {
                    reveal_strlit("");
                    assert(""@ =~= Seq::<char>::empty());
                }
                let (_additions, deletions) = count_diff_stats(diff.as_str());
                ChangePreview::Removal { diff, deletions }
            },
            None => ChangePreview::MissingFile,
        },
        _ => match &change.content {
            Some(new) => {
                let old: &str = match existing {
                    Some(old) => old,
                    None => "",
                };
                proof {
                    reveal_strlit("");
                    assert(""@ =~= Seq::<char>::empty());
                }
                let diff = unified_diff(
                    old,
                    new.as_str(),
                    old_header.as_str(),
                    new_header.as_str(),
                    PREVIEW_CONTEXT,
                );
                let (additions, deletions) = count_diff_stats(diff.as_str());
                ChangePreview::Edit { diff, additions, deletions }
            },
            None => ChangePreview::NoContent,
        },
    }
}

/// `root` joined with the relative path `relative`, as `Path::join` does where
/// `/` is the only separator (Unix): an absolute `relative` replaces the root,
/// an empty root gives `relative`, and one `/` separates the two otherwise.
pub open spec fn joined_path(root: Seq<char>, relative: Seq<char>) -> Seq<char> {
    if relative.len() > 0 && relative[0] == '/' {
        relative
    } else if root.len() == 0 {
        relative
    } else if root.last() == '/' {
        root + relative
    } else {
        root + seq!['/'] + relative
    }
}

/// A relative path that does not start with `/` lands under the root: the
/// result starts with the root and ends with the relative path.
pub proof fn law_path_under_root(root: Seq<char>, relative: Seq<char>)
    requires
        relative.len() == 0 || relative[0] != '/',
    ensures
        root.is_prefix_of(joined_path(root, relative)),
        relative.is_suffix_of(joined_path(root, relative)),
{
    let j = joined_path(root, relative);
    assert(j.subrange(0, root.len() as int) =~= root);
    assert(j.subrange(j.len() - relative.len(), j.len() as int) =~= relative);
}

/// Where a change to `relative` lands inside the workspace rooted at `root`,
/// paths being `/`-separated (Unix).
pub fn normalize_path(root: &str, relative: &str) -> (r: String)
    ensures
        r@ == joined_path(root@, relative@),
{
    let vr = chars_of(relative);
    if vr.len() > 0 && vr[0] == '/' {
        return relative.to_owned();
    }
    let vroot = chars_of(root);
    if vroot.len() == 0 {
        return relative.to_owned();
    }
    let mut r = root.to_owned();
    if vroot[vroot.len() - 1] != '/' {
        r.append("/");
        proof {
            reveal_strlit("/");
            assert("/"@ =~= seq!['/']);
        }
    }
    r.append(relative);
    r
}

/// A file system operation that applies one change.
#[derive(Debug)]
pub enum FileOperation {
    /// Write `content` to `path`, creating its parent directories.
    Write { path: String, content: String },
    /// Remove the file at `path` if it exists.
    Remove { path: String },
}

/// A plan that cannot be applied.
#[derive(Debug)]
pub enum PlanError {
    /// A create or update of `path` came without content.
    MissingContent { path: String },
}

/// The operation that applies `change` inside the workspace rooted at `root`.
pub fn file_operation(change: &FileChange, root: &str) -> (r: Result<FileOperation, PlanError>)
    ensures
        match change.action {
            ChangeAction::Delete => r matches Ok(FileOperation::Remove { path }) && path@
                == joined_path(root@, change.path@),
            _ => match change.content {
                Some(c) => r matches Ok(FileOperation::Write { path, content }) && path@
                    == joined_path(root@, change.path@) && content@ == c@,
                None => r matches Err(PlanError::MissingContent { path }) && path@
                    == change.path@,
            },
        },
{
    let path = normalize_path(root, change.path.as_str());
    match change.action {
        ChangeAction::Delete => Ok(FileOperation::Remove { path }),
        _ => match &change.content {
            Some(c) => Ok(FileOperation::Write { path, content: c.clone() }),
            None => Err(PlanError::MissingContent { path: change.path.clone() }),
        },
    }
}

/// The answers that confirm a plan, once trimmed and put in ASCII lower case.
pub open spec fn is_confirmation_text(answer: Seq<char>) -> bool {
    let a = ascii_lower(trimmed(answer));
    a == "y"@ || a == "yes"@ || a == "o"@ || a == "oui"@
}

/// Only `y`, `yes`, `o` and `oui`, each letter in either case and white space
/// around ignored, confirm a plan; every other answer (`n`, `no`, `non`, an
/// empty line, ...) refuses it.
pub proof fn law_confirmation_words(answer: Seq<char>)
    ensures
        is_confirmation_text(answer) <==> ({
            let t = trimmed(answer);
            ||| t.len() == 1 && (t[0] == 'y' || t[0] == 'Y')
            ||| t.len() == 3 && (t[0] == 'y' || t[0] == 'Y') && (t[1] == 'e' || t[1] == 'E') && (
            t[2] == 's' || t[2] == 'S')
            ||| t.len() == 1 && (t[0] == 'o' || t[0] == 'O')
            ||| t.len() == 3 && (t[0] == 'o' || t[0] == 'O') && (t[1] == 'u' || t[1] == 'U') && (
            t[2] == 'i' || t[2] == 'I')
        }),
{
    reveal_strlit("y");
    reveal_strlit("yes");
    reveal_strlit("o");
    reveal_strlit("oui");
    let t = trimmed(answer);
    let l = ascii_lower(t);
    assert forall|k: int| 0 <= k < t.len() implies #[trigger] l[k] == ascii_lower_char(t[k]) by {}
    if l == "y"@ || l == "yes"@ || l == "o"@ || l == "oui"@ {
        assert(l.len() == t.len());
        assert forall|k: int| 0 <= k < t.len() implies (t[k] == l[k] || t[k] as u32 + 32 == l[k]
            as u32) by {
            assert(l[k] == ascii_lower_char(t[k]));
        }
        if t.len() > 0 {
            let c0 = t[0];
            assert(c0 == l[0] || c0 as u32 + 32 == l[0] as u32);
        }
    }
    if t.len() == 1 && (t[0] == 'y' || t[0] == 'Y') {
        assert(l =~= "y"@);
    }
    if t.len() == 3 && (t[0] == 'y' || t[0] == 'Y') && (t[1] == 'e' || t[1] == 'E') && (t[2] == 's'
        || t[2] == 'S') {
        assert(l =~= "yes"@);
    }
    if t.len() == 1 && (t[0] == 'o' || t[0] == 'O') {
        assert(l =~= "o"@);
    }
    if t.len() == 3 && (t[0] == 'o' || t[0] == 'O') && (t[1] == 'u' || t[1] == 'U') && (t[2] == 'i'
        || t[2] == 'I') {
        assert(l =~= "oui"@);
    }
}

/// Whether the user's answer confirms the plan (`y`, `yes`, `o` or `oui`, in
/// any ASCII case, surrounding white space ignored).
pub fn is_confirmation(answer: &str) -> (r: bool)
    ensures
        r == is_confirmation_text(answer@),
{
    let t = chars_of(trim_ws(answer));
    assert(t@.subrange(0, t@.len() as int) =~= t@);
    lower_case_equals(&t, 0, "y") || lower_case_equals(&t, 0, "yes") || lower_case_equals(
        &t,
        0,
        "o",
    ) || lower_case_equals(&t, 0, "oui")
}

} // verus!
