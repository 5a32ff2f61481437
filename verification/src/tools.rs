//! Tool calls on their way: who may run, where a call goes, what its result is kept as
//! and what is learned from it.

use vstd::prelude::*;
use crate::guard::{
    edited_path, fs_edit_path, guard_wf, is_test_fail, is_test_output, observed, output_seen,
    red_due, test_fail, test_output, EditGuard, GuardNote, GuardV,
};
use crate::json::{fields_of, opt_text, Json, JsonV};
use crate::message::{
    bytes_of, key_in, law_what_a_call_shows_is_observed, shown_by, shown_keys, MessageV,
};
use crate::oracle::{
    default_cmd, scoped_cmd, scoped_test_cmd, workspace_default_test_cmd, workspace_has_tests, Tree,
};
use crate::policy::EffortEvent;
use crate::outside::{json_text, print_json, settled_json};
use crate::text::{
    decimal, join, joined, lines, lines_of, list_has, push_new, same, show_u64, show_usize, text2,
    text3, text4, texts, with_new,
};
use crate::xml_tools::{calls_view, CallV, ToolCall};

verus! {

// ---------------------------------------------------------------------------
// Arguments
// ---------------------------------------------------------------------------

pub open spec fn text_or_none(v: JsonV, key: Seq<char>) -> Seq<char> {
    match v.text_at(key) {
        Some(s) => s,
        None => Seq::empty(),
    }
}

fn text_arg(v: &Json, key: &str) -> (r: String)
    ensures
        r@ == text_or_none(v@, key@),
{
    match v.text_at(key) {
        Some(s) => s.to_owned(),
        None => String::new(),
    }
}

/// The file that a write names, and what it writes.
pub fn write_path_body(call: &ToolCall) -> (r: (String, String))
    ensures
        r.0@ == (match edited_path(call.arguments@) {
            Some(p) => p,
            None => Seq::empty(),
        }),
        r.1@ == text_or_none(call.arguments@, "content"@),
{
    let path: String = match fs_edit_path(&call.arguments) {
        Some(p) => p,
        None => String::new(),
    };
    (path, text_arg(&call.arguments, "content"))
}

/// The command of a shell call.
pub fn bash_cmd(call: &ToolCall) -> (r: String)
    ensures
        r@ == text_or_none(call.arguments@, "command"@),
{
    text_arg(&call.arguments, "command")
}

/// The keys of the argument that stands for a call, in order.
pub open spec fn preview_keys() -> Seq<Seq<char>> {
    seq![
        "path"@,
        "file_path"@,
        "command"@,
        "code"@,
        "query"@,
        "blob"@,
        "name"@,
        "method"@,
        "server"@,
        "prompt"@,
    ]
}

/// The first of the keys, from `i` on, that is bound.
pub open spec fn first_bound(v: JsonV, keys: Seq<Seq<char>>, i: int) -> Option<JsonV>
    decreases keys.len() - i,
{
    if i < 0 || i >= keys.len() {
        None
    } else {
        match v.field(keys[i]) {
            Some(x) => Some(x),
            None => first_bound(v, keys, i + 1),
        }
    }
}

/// What stands for a call in a line: its first argument of note where it is a text,
/// else its sequence number.
pub open spec fn preview_of(args: JsonV) -> Seq<char> {
    match first_bound(args, preview_keys(), 0) {
        Some(JsonV::Str(s)) => s,
        _ => match args.field("seq"@) {
            Some(v) => json_text(settled_json(v)),
            None => "…"@,
        },
    }
}

fn keys_of_note() -> (r: Vec<String>)
    ensures
        texts(r@) == preview_keys(),
{
    let mut v: Vec<String> = Vec::new();
    v.push("path".to_owned());
    v.push("file_path".to_owned());
    v.push("command".to_owned());
    v.push("code".to_owned());
    v.push("query".to_owned());
    v.push("blob".to_owned());
    v.push("name".to_owned());
    v.push("method".to_owned());
    v.push("server".to_owned());
    v.push("prompt".to_owned());
    assert(texts(v@) =~= preview_keys());
    v
}

/// What stands for a call in a line.
pub fn preview_args(call: &ToolCall) -> (r: String)
    ensures
        r@ == preview_of(call.arguments@),
{
    let keys = keys_of_note();
    let ghost ks = preview_keys();
    let args = &call.arguments;
    let mut i: usize = 0;
    let mut found: Option<&Json> = None;
    while i < keys.len() && found.is_none()
        invariant
            i <= keys@.len(),
            texts(keys@) == ks,
            ks == preview_keys(),
            found is None ==> first_bound(args@, ks, 0) == first_bound(args@, ks, i as int),
            found matches Some(x) ==> first_bound(args@, ks, 0) == Some(x@),
        decreases keys.len() - i,
    {
        assert(ks[i as int] == keys@[i as int]@);
        found = args.get(keys[i].as_str());
        i = i + 1;
    }
    if let Some(x) = found {
        if let Some(s) = x.as_str() {
            return s.to_owned();
        }
    }
    match args.get("seq") {
        Some(v) => print_json(v),
        None => "…".to_owned(),
    }
}

/// A tool that can run beside others.
pub open spec fn parallel_tool(name: Seq<char>) -> bool {
    name == "read"@ || name == "view"@ || name == "search"@ || name == "web"@ || name == "ask"@
}

/// Whether the calls of a hop can run side by side: several, and none that changes
/// anything.
pub fn parallel_safe_batch(calls: &Vec<ToolCall>) -> (r: bool)
    ensures
        r == (calls@.len() > 1 && forall|i: int|
            0 <= i < calls@.len() ==> parallel_tool((#[trigger] calls@[i]).name@)),
{
    if calls.len() <= 1 {
        return false;
    }
    let mut i: usize = 0;
    while i < calls.len()
        invariant
            i <= calls@.len(),
            forall|j: int| 0 <= j < i ==> parallel_tool((#[trigger] calls@[j]).name@),
        decreases calls.len() - i,
    {
        let n = calls[i].name.as_str();
        if !(same(n, "read") || same(n, "view") || same(n, "search") || same(n, "web") || same(
            n,
            "ask",
        )) {
            assert(!parallel_tool(calls@[i as int].name@));
            return false;
        }
        i = i + 1;
    }
    true
}

// ---------------------------------------------------------------------------
// Who may run
// ---------------------------------------------------------------------------

/// What the user said of a call.
#[derive(Debug, Clone, Copy, PartialEq, Eq, Structural)]
pub enum Permit {
    Allow,
    Always,
    Deny,
}

/// Whether a call may run.
#[derive(Debug, Clone, Copy, PartialEq, Eq, Structural)]
pub enum ToolGate {
    Run,
    /// Run it, and do not ask again for this tool.
    RunAndRemember,
    PlanDenied,
    UserDenied,
}

/// Whether a call may run: while planning nothing is changed, and where
/// there is somebody to ask, they decide.
pub fn gate_tool(plan_mode: bool, mutating: bool, permit: Option<Permit>) -> (r: ToolGate)
    ensures
        r == (if plan_mode && mutating {
            ToolGate::PlanDenied
        } else {
            match permit {
                None => ToolGate::Run,
                Some(Permit::Allow) => ToolGate::Run,
                Some(Permit::Always) => ToolGate::RunAndRemember,
                Some(Permit::Deny) => ToolGate::UserDenied,
            }
        }),
{
    if plan_mode && mutating {
        return ToolGate::PlanDenied;
    }
    match permit {
        None => ToolGate::Run,
        Some(Permit::Allow) => ToolGate::Run,
        Some(Permit::Always) => ToolGate::RunAndRemember,
        Some(Permit::Deny) => ToolGate::UserDenied,
    }
}

/// What the model is told where it would overwrite a file that it has not seen.
pub open spec fn overwrite_text(raw: Seq<char>) -> Seq<char> {
    "Error: "@ + raw + " 已存在，且本会话未读过它。write 会整文件覆盖。先 read(path=\""@ + raw
        + "\") 确认内容；只改局部就用 edit。"@
}

/// Refuses a write that would overwrite a file whose content the transcript has never
/// shown. `canon` is the file as it is compared, `exists` whether it is there.
pub fn refuse_blind_overwrite(
    call: &ToolCall,
    observed: &Vec<String>,
    canon: &str,
    exists: bool,
) -> (r: Option<String>)
    ensures
        r is Some <==> call.name@ == "write"@ && edited_path(call.arguments@) is Some && !texts(
            observed@,
        ).contains(canon@) && exists,
        r matches Some(s) ==> s@ == overwrite_text(edited_path(call.arguments@)->0),
{
    if !same(call.name.as_str(), "write") {
        return None;
    }
    let raw: String = match fs_edit_path(&call.arguments) {
        Some(p) => p,
        None => {
            return None;
        },
    };
    if list_has(observed, canon) || !exists {
        return None;
    }
    let mut s = text4(
        "Error: ",
        raw.as_str(),
        " 已存在，且本会话未读过它。write 会整文件覆盖。先 read(path=\"",
        raw.as_str(),
    );
    s.append("\") 确认内容；只改局部就用 edit。");
    Some(s)
}

// ---------------------------------------------------------------------------
// Where a call goes
// ---------------------------------------------------------------------------

/// Where a call goes.
#[derive(Debug, PartialEq, Eq)]
pub enum Route {
    Ask,
    Recall,
    MemorySearch,
    Search,
    Web,
    Mcp,
    Skill,
    View,
    /// To the workspace.
    Native,
    /// Nowhere, and what the model is told.
    Unavailable(String),
}

pub ghost enum RouteV {
    Ask,
    Recall,
    MemorySearch,
    Search,
    Web,
    Mcp,
    Skill,
    View,
    Native,
    Unavailable(Seq<char>),
}

impl View for Route {
    type V = RouteV;

    open spec fn view(&self) -> RouteV {
        match self {
            Route::Ask => RouteV::Ask,
            Route::Recall => RouteV::Recall,
            Route::MemorySearch => RouteV::MemorySearch,
            Route::Search => RouteV::Search,
            Route::Web => RouteV::Web,
            Route::Mcp => RouteV::Mcp,
            Route::Skill => RouteV::Skill,
            Route::View => RouteV::View,
            Route::Native => RouteV::Native,
            Route::Unavailable(s) => RouteV::Unavailable(s@),
        }
    }
}

/// What a session has at hand.
#[derive(Debug, Clone, Copy, PartialEq, Eq)]
pub struct AtHand {
    pub memory: bool,
    pub index: bool,
    pub web: bool,
    /// Questions to the user are on.
    pub ask: bool,
}

/// Where a call goes.
pub open spec fn routed(name: Seq<char>, h: AtHand) -> RouteV {
    if name == "ask"@ {
        if h.ask {
            RouteV::Ask
        } else {
            RouteV::Unavailable(
                "Error: ask is off. Proceed without asking. User can /clarify or /plan."@,
            )
        }
    } else if name == "recall"@ {
        RouteV::Recall
    } else if name == "memory_search"@ {
        if h.memory {
            RouteV::MemorySearch
        } else {
            RouteV::Unavailable("Error: memory store unavailable."@)
        }
    } else if name == "search"@ {
        if h.index {
            RouteV::Search
        } else {
            RouteV::Unavailable("Error: code index unavailable."@)
        }
    } else if name == "web"@ {
        if h.web {
            RouteV::Web
        } else {
            RouteV::Unavailable("Error: web 工具未启用（config.toml [web] enabled）。"@)
        }
    } else if name == "mcp"@ {
        RouteV::Mcp
    } else if name == "skill"@ {
        RouteV::Skill
    } else if name == "view"@ {
        RouteV::View
    } else {
        RouteV::Native
    }
}

/// Where a call goes.
pub fn route_call(name: &str, h: AtHand) -> (r: Route)
    ensures
        r@ == routed(name@, h),
{
    if same(name, "ask") {
        if h.ask {
            Route::Ask
        } else {
            Route::Unavailable(
                "Error: ask is off. Proceed without asking. User can /clarify or /plan.".to_owned(),
            )
        }
    } else if same(name, "recall") {
        Route::Recall
    } else if same(name, "memory_search") {
        if h.memory {
            Route::MemorySearch
        } else {
            Route::Unavailable("Error: memory store unavailable.".to_owned())
        }
    } else if same(name, "search") {
        if h.index {
            Route::Search
        } else {
            Route::Unavailable("Error: code index unavailable.".to_owned())
        }
    } else if same(name, "web") {
        if h.web {
            Route::Web
        } else {
            Route::Unavailable("Error: web 工具未启用（config.toml [web] enabled）。".to_owned())
        }
    } else if same(name, "mcp") {
        Route::Mcp
    } else if same(name, "skill") {
        Route::Skill
    } else if same(name, "view") {
        Route::View
    } else {
        Route::Native
    }
}

/// What becomes of a call.
#[derive(Debug, PartialEq, Eq)]
pub enum Dispatch {
    PlanDenied,
    UserDenied,
    /// It would overwrite a file that was never shown, and what the model is told.
    Blind(String),
    Go(Route),
}

pub ghost enum DispatchV {
    PlanDenied,
    UserDenied,
    Blind(Seq<char>),
    Go(RouteV),
}

impl View for Dispatch {
    type V = DispatchV;

    open spec fn view(&self) -> DispatchV {
        match self {
            Dispatch::PlanDenied => DispatchV::PlanDenied,
            Dispatch::UserDenied => DispatchV::UserDenied,
            Dispatch::Blind(s) => DispatchV::Blind(s@),
            Dispatch::Go(r) => DispatchV::Go(r@),
        }
    }
}

/// What the workspace knows of the file that a call names.
#[derive(Debug, PartialEq, Eq)]
pub struct Target {
    /// The file as it is compared.
    pub canon: String,
    /// It is a file that is there.
    pub exists: bool,
}

/// Whether a call would overwrite a file whose content was never shown.
pub open spec fn overwrites_blindly(
    name: Seq<char>,
    args: JsonV,
    observed: Seq<Seq<char>>,
    canon: Seq<char>,
    exists: bool,
) -> bool {
    name == "write"@ && edited_path(args) is Some && !observed.contains(canon) && exists
}

/// What becomes of a call: whether it may run, then the file that it would overwrite, and
/// only then the way that its name leads.
pub open spec fn dispatched(
    name: Seq<char>,
    args: JsonV,
    gate: ToolGate,
    observed: Seq<Seq<char>>,
    canon: Seq<char>,
    exists: bool,
    h: AtHand,
) -> DispatchV {
    if gate == ToolGate::PlanDenied {
        DispatchV::PlanDenied
    } else if gate == ToolGate::UserDenied {
        DispatchV::UserDenied
    } else if overwrites_blindly(name, args, observed, canon, exists) {
        DispatchV::Blind(overwrite_text(edited_path(args)->0))
    } else {
        DispatchV::Go(routed(name, h))
    }
}

/// What becomes of a call.
pub fn dispatch_one(
    call: &ToolCall,
    gate: ToolGate,
    observed: &Vec<String>,
    target: &Target,
    h: AtHand,
) -> (r: Dispatch)
    ensures
        r@ == dispatched(
            call.name@,
            call.arguments@,
            gate,
            texts(observed@),
            target.canon@,
            target.exists,
            h,
        ),
{
    if gate == ToolGate::PlanDenied {
        return Dispatch::PlanDenied;
    }
    if gate == ToolGate::UserDenied {
        return Dispatch::UserDenied;
    }
    match refuse_blind_overwrite(call, observed, target.canon.as_str(), target.exists) {
        Some(s) => Dispatch::Blind(s),
        None => Dispatch::Go(route_call(call.name.as_str(), h)),
    }
}

/// Who answers a question to the user.
#[derive(Debug, Clone, Copy, PartialEq, Eq, Structural)]
pub enum AskStep {
    /// Questions are off.
    Off,
    /// Nobody: the recommended option is taken.
    Skip,
    /// The user.
    Put,
}

/// Who answers a question to the user. `permit_yolo` is whether permission is given
/// without asking, where there is somebody to ask for it.
pub fn run_ask(plan_mode: bool, clarify_mode: bool, permit_yolo: Option<bool>, can_put: bool) -> (r:
    AskStep)
    ensures
        r == (if !plan_mode && !clarify_mode {
            AskStep::Off
        } else if permit_yolo == Some(false) && can_put {
            AskStep::Put
        } else {
            AskStep::Skip
        }),
{
    if !plan_mode && !clarify_mode {
        return AskStep::Off;
    }
    let yolo: bool = match permit_yolo {
        Some(y) => y,
        None => true,
    };
    if !yolo && can_put {
        AskStep::Put
    } else {
        AskStep::Skip
    }
}

/// The file whose content is kept before a call runs: the one that a write replaces.
pub fn wants_prior(call: &ToolCall) -> (r: Option<String>)
    ensures
        opt_text(r) == (if call.name@ == "write"@ {
            edited_path(call.arguments@)
        } else {
            None
        }),
{
    if !same(call.name.as_str(), "write") {
        return None;
    }
    fs_edit_path(&call.arguments)
}

/// The calls as they are stored: the arguments as a text.
pub open spec fn stored_call(c: ToolCall) -> (Seq<char>, Seq<char>, Seq<char>) {
    (c.id@, c.name@, json_text(settled_json(c.arguments@)))
}

/// A call as it is stored.
#[derive(Debug, PartialEq, Eq)]
pub struct OpenAiToolCall {
    pub id: String,
    pub name: String,
    pub arguments: String,
}

impl View for OpenAiToolCall {
    type V = (Seq<char>, Seq<char>, Seq<char>);

    open spec fn view(&self) -> (Seq<char>, Seq<char>, Seq<char>) {
        (self.id@, self.name@, self.arguments@)
    }
}

/// The calls as they are stored, one for one.
pub fn openai_stored(calls: &Vec<ToolCall>) -> (r: Vec<OpenAiToolCall>)
    ensures
        r@.len() == calls@.len(),
        forall|i: int| 0 <= i < r@.len() ==> (#[trigger] r@[i])@ == stored_call(calls@[i]),
{
    let mut out: Vec<OpenAiToolCall> = Vec::new();
    let mut i: usize = 0;
    while i < calls.len()
        invariant
            i <= calls@.len(),
            out@.len() == i,
            forall|j: int| 0 <= j < i ==> (#[trigger] out@[j])@ == stored_call(calls@[j]),
        decreases calls.len() - i,
    {
        let c = &calls[i];
        out.push(
            OpenAiToolCall {
                id: c.id.as_str().to_owned(),
                name: c.name.as_str().to_owned(),
                arguments: print_json(&c.arguments),
            },
        );
        i = i + 1;
    }
    out
}

// ---------------------------------------------------------------------------
// Long results
// ---------------------------------------------------------------------------

/// How many lines of a search stay where the rest is folded.
pub const SEARCH_HEAD_LINES: usize = 12;

/// The first lines of a search.
pub open spec fn head_of(full: Seq<char>) -> Seq<char> {
    let ls = lines_of(full);
    joined(
        if ls.len() <= 12 {
            ls
        } else {
            ls.take(12)
        },
        "\n"@,
    )
}

/// The first lines of a search.
pub fn search_head(full: &str) -> (r: String)
    ensures
        r@ == head_of(full@),
{
    let mut ls = lines(full);
    let ghost all = texts(ls@);
    if ls.len() > SEARCH_HEAD_LINES {
        ls.truncate(SEARCH_HEAD_LINES);
        assert(texts(ls@) =~= all.take(12));
    }
    join(&ls, "\n")
}

/// Whether folding a search makes it shorter.
pub fn search_fold_shrinks(full: &str, spans: &str) -> (r: bool)
    ensures
        r == (bytes_of(head_of(full@)) + bytes_of(spans@) < bytes_of(full@)),
{
    let head = search_head(full);
    let a: usize = head.as_str().as_bytes().len();
    let b: usize = spans.as_bytes().len();
    let n: usize = full.as_bytes().len();
    a < n && b < n - a
}

/// A search folded to its first lines and the places that the index knows.
pub open spec fn folded(
    full: Seq<char>,
    query: Seq<char>,
    spans: Seq<char>,
    blob: Option<Seq<char>>,
) -> Seq<char> {
    head_of(full) + "\n["@ + decimal(lines_of(full).len()) + " lines total; head kept"@ + (
    match blob {
        Some(b) => "; full output in blob "@ + b + " — recall(blob=…)"@,
        None => Seq::empty(),
    }) + "]\n\n[index spans for `"@ + query + "`]\n"@ + spans
}

/// A search folded to its first lines and the places that the index knows.
pub fn search_fold_text(full: &str, query: &str, spans: &str, blob: Option<&str>) -> (r: String)
    ensures
        r@ == folded(
            full@,
            query@,
            spans@,
            match blob {
                Some(b) => Some(b@),
                None => None,
            },
        ),
{
    let ls = lines(full);
    assert(texts(ls@).len() == ls@.len());
    let mut out = text4(
        search_head(full).as_str(),
        "\n[",
        show_usize(ls.len()).as_str(),
        " lines total; head kept",
    );
    let kept: String = match blob {
        Some(b) => text3("; full output in blob ", b, " — recall(blob=…)"),
        None => String::new(),
    };
    assert(kept@ =~= (match blob {
        Some(b) => "; full output in blob "@ + b@ + " — recall(blob=…)"@,
        None => Seq::empty(),
    }));
    out.append(kept.as_str());
    out.append("]\n\n[index spans for `");
    out.append(query);
    out.append("`]\n");
    out.append(spans);
    out
}

/// The last `n` characters of a text.
pub open spec fn tail_of(s: Seq<char>, n: nat) -> Seq<char> {
    if s.len() <= n {
        s
    } else {
        s.skip(s.len() - n)
    }
}

/// The last `n` characters of a text.
pub fn tail_chars(s: &str, n: usize) -> (r: String)
    ensures
        r@ == tail_of(s@, n as nat),
{
    let len: usize = s.unicode_len();
    if len <= n {
        return s.to_owned();
    }
    assert(s@.subrange(len - n, len as int) =~= s@.skip(s@.len() - n));
    s.substring_char(len - n, len).to_owned()
}

// ---------------------------------------------------------------------------
// What is learned from a result
// ---------------------------------------------------------------------------

/// How a tool ended.
#[derive(Debug, Clone, Copy, PartialEq, Eq, Structural)]
pub enum ToolState {
    Success,
    Error,
    Interrupted,
}

/// Whether a result shows that a call was cut off from outside.
pub fn is_harness_fail(state: ToolState, text: &str) -> (r: bool)
    ensures
        r == (state == ToolState::Interrupted && text@ == "Error: tool task aborted"@),
{
    state == ToolState::Interrupted && same(text, "Error: tool task aborted")
}

/// The files that were read in a turn, and those whose content the transcript shows.
#[derive(Debug, PartialEq, Eq)]
pub struct TurnFiles {
    pub read: Vec<String>,
    pub observed: Vec<String>,
}

pub ghost struct FilesV {
    pub read: Seq<Seq<char>>,
    pub observed: Seq<Seq<char>>,
}

impl View for TurnFiles {
    type V = FilesV;

    open spec fn view(&self) -> FilesV {
        FilesV { read: texts(self.read@), observed: texts(self.observed@) }
    }
}

pub open spec fn reads(name: Seq<char>) -> bool {
    name == "read"@ || name == "view"@
}

/// The files after a call went well; `path` is the one it names, as it is compared.
pub open spec fn files_after(f: FilesV, name: Seq<char>, path: Option<Seq<char>>) -> FilesV {
    match path {
        Some(p) => FilesV {
            read: if reads(name) {
                with_new(f.read, p)
            } else {
                f.read
            },
            observed: if crate::message::shows_file(name) {
                with_new(f.observed, p)
            } else {
                f.observed
            },
        },
        None => f,
    }
}

impl TurnFiles {
    /// A call went well.
    pub fn record(&mut self, name: &str, path: Option<&str>)
        ensures
            final(self)@ == files_after(
                old(self)@,
                name@,
                match path {
                    Some(p) => Some(p@),
                    None => None,
                },
            ),
    {
        if let Some(p) = path {
            let reading: bool = same(name, "read") || same(name, "view");
            if reading {
                push_new(&mut self.read, p);
            }
            if reading || same(name, "write") || same(name, "edit") {
                push_new(&mut self.observed, p);
            }
        }
    }
}

/// The result of a call.
#[derive(Debug, PartialEq, Eq)]
pub struct ToolResult {
    pub state: ToolState,
    pub text: String,
    /// The file that the call names, as it is compared.
    pub path: Option<String>,
    /// What the file held before a write, where it was there.
    pub prior: Option<String>,
}

/// What a result does to the guard, and the notes that follow.
pub open spec fn guarded(
    g: GuardV,
    name: Seq<char>,
    args: JsonV,
    state: ToolState,
    text: Seq<char>,
    prior: Option<Seq<char>>,
) -> (GuardV, Seq<GuardNote>) {
    let (h, notes) = if state == ToolState::Success {
        observed(g, name, args, prior)
    } else {
        (g, Seq::empty())
    };
    (
        output_seen(h, name, text),
        notes + (if red_due(h, name, text) {
            seq![GuardNote::TestRed]
        } else {
            Seq::empty()
        }),
    )
}

/// What is learned from the result of one call: the files that it shows, and the notes
/// that the guard has on it.
pub fn settle_result(
    guard: &mut EditGuard,
    files: &mut TurnFiles,
    call: &ToolCall,
    result: &ToolResult,
) -> (r: Vec<GuardNote>)
    requires
        guard_wf(old(guard)@),
    ensures
        (final(guard)@, r@) == guarded(
            old(guard)@,
            call.name@,
            call.arguments@,
            result.state,
            result.text@,
            opt_text(result.prior),
        ),
        final(files)@ == (if result.state == ToolState::Success {
            files_after(old(files)@, call.name@, opt_text(result.path))
        } else {
            old(files)@
        }),
        guard_wf(final(guard)@),
{
    let name = call.name.as_str();
    let mut notes: Vec<GuardNote> = Vec::new();
    if result.state == ToolState::Success {
        let path: Option<&str> = match &result.path {
            Some(p) => Some(p.as_str()),
            None => None,
        };
        files.record(name, path);
        let prior: Option<&str> = match &result.prior {
            Some(p) => Some(p.as_str()),
            None => None,
        };
        notes = guard.observe(name, &call.arguments, prior);
    }
    let ghost before = notes@;
    let ghost h = guard@;
    match guard.observe_tool_output(name, result.text.as_str()) {
        Some(n) => {
            notes.push(n);
            assert(notes@ =~= before + seq![GuardNote::TestRed]);
        },
        None => {
            assert(notes@ =~= before + Seq::<GuardNote>::empty());
        },
    }
    notes
}

/// What a round of calls shows.
#[derive(Debug, PartialEq, Eq)]
pub struct Round {
    /// Some call was cut off from outside.
    pub harness: bool,
    pub notes: Vec<GuardNote>,
    /// The notes say that the same edits go back and forth.
    pub thrash: bool,
    /// What the round says of the effort: at once, and once more after the tests that
    /// it led to where the same edits go back and forth.
    pub effort: Vec<EffortEvent>,
}

/// What a round says of the effort.
pub open spec fn round_effort(harness: bool, thrash: bool) -> Seq<EffortEvent> {
    seq![
        if harness {
            EffortEvent::HarnessFail
        } else {
            EffortEvent::Clean
        },
    ] + (if thrash {
        seq![EffortEvent::Thrash]
    } else {
        Seq::empty()
    })
}

pub ghost struct ResultV {
    pub state: ToolState,
    pub text: Seq<char>,
    pub path: Option<Seq<char>>,
    pub prior: Option<Seq<char>>,
}

impl View for ToolResult {
    type V = ResultV;

    open spec fn view(&self) -> ResultV {
        ResultV {
            state: self.state,
            text: self.text@,
            path: opt_text(self.path),
            prior: opt_text(self.prior),
        }
    }
}

pub open spec fn results_view(rs: Seq<ToolResult>) -> Seq<ResultV> {
    Seq::new(rs.len(), |i: int| rs[i]@)
}

/// The files after one result.
pub open spec fn files_step(f: FilesV, c: CallV, r: ResultV) -> FilesV {
    if r.state == ToolState::Success {
        files_after(f, c.name, r.path)
    } else {
        f
    }
}

pub open spec fn guard_step(g: GuardV, c: CallV, r: ResultV) -> (GuardV, Seq<GuardNote>) {
    guarded(g, c.name, c.args, r.state, r.text, r.prior)
}

/// What the first `n` results of a round do to the guard, and the notes so far.
pub open spec fn guard_round(g: GuardV, cs: Seq<CallV>, rs: Seq<ResultV>, n: nat) -> (
    GuardV,
    Seq<GuardNote>,
)
    decreases n,
{
    if n == 0 {
        (g, Seq::empty())
    } else {
        let (h, notes) = guard_round(g, cs, rs, (n - 1) as nat);
        let (k, more) = guard_step(h, cs[n - 1], rs[n - 1]);
        (k, notes + more)
    }
}

/// What the first `n` results of a round show of files.
pub open spec fn files_round(f: FilesV, cs: Seq<CallV>, rs: Seq<ResultV>, n: nat) -> FilesV
    decreases n,
{
    if n == 0 {
        f
    } else {
        files_step(files_round(f, cs, rs, (n - 1) as nat), cs[n - 1], rs[n - 1])
    }
}

pub open spec fn cut_off(r: ResultV) -> bool {
    r.state == ToolState::Interrupted && r.text == "Error: tool task aborted"@
}

/// What a round of calls shows: each call's result in turn.
pub fn settle_round(
    guard: &mut EditGuard,
    files: &mut TurnFiles,
    calls: &Vec<ToolCall>,
    results: &Vec<ToolResult>,
) -> (r: Round)
    requires
        guard_wf(old(guard)@),
        calls@.len() == results@.len(),
    ensures
        (final(guard)@, r.notes@) == guard_round(
            old(guard)@,
            calls_view(calls@),
            results_view(results@),
            calls@.len(),
        ),
        final(files)@ == files_round(
            old(files)@,
            calls_view(calls@),
            results_view(results@),
            calls@.len(),
        ),
        r.harness == exists|i: int| 0 <= i < results@.len() && cut_off((#[trigger] results@[i])@),
        r.thrash == r.notes@.contains(GuardNote::Thrash),
        r.effort@ == round_effort(r.harness, r.thrash),
        guard_wf(final(guard)@),
{
    let mut harness: bool = false;
    let mut notes: Vec<GuardNote> = Vec::new();
    let mut thrash: bool = false;
    let ghost cs = calls_view(calls@);
    let ghost rs = results_view(results@);
    let mut i: usize = 0;
    while i < calls.len()
        invariant
            i <= calls@.len(),
            calls@.len() == results@.len(),
            cs == calls_view(calls@),
            rs == results_view(results@),
            guard_wf(guard@),
            (guard@, notes@) == guard_round(old(guard)@, cs, rs, i as nat),
            files@ == files_round(old(files)@, cs, rs, i as nat),
            harness == exists|j: int| 0 <= j < i && cut_off((#[trigger] results@[j])@),
            thrash == notes@.contains(GuardNote::Thrash),
        decreases calls.len() - i,
    {
        let res = &results[i];
        let ghost had = harness;
        if is_harness_fail(res.state, res.text.as_str()) {
            harness = true;
            assert(cut_off(results@[i as int]@));
        }
        assert(harness == (had || cut_off(results@[i as int]@)));
        let more = settle_result(guard, files, &calls[i], res);
        let ghost before = notes@;
        let ghost extra = more@;
        assert(cs[i as int] == calls@[i as int]@ && rs[i as int] == results@[i as int]@);
        let mut k: usize = 0;
        while k < more.len()
            invariant
                k <= more@.len(),
                more@ == extra,
                notes@ == before + extra.take(k as int),
                thrash == notes@.contains(GuardNote::Thrash),
            decreases more.len() - k,
        {
            let n = more[k];
            let ghost prev = notes@;
            notes.push(n);
            assert(notes@ =~= before + extra.take(k + 1));
            if n == GuardNote::Thrash {
                thrash = true;
                assert(notes@[notes@.len() - 1] == GuardNote::Thrash);
            }
            proof {
                if prev.contains(GuardNote::Thrash) {
                    let x = choose|x: int| 0 <= x < prev.len() && prev[x] == GuardNote::Thrash;
                    assert(notes@[x] == GuardNote::Thrash);
                }
                if notes@.contains(GuardNote::Thrash) && n != GuardNote::Thrash {
                    let x = choose|x: int|
                        0 <= x < notes@.len() && notes@[x] == GuardNote::Thrash;
                    assert(prev[x] == GuardNote::Thrash);
                }
            }
            k = k + 1;
        }
        assert(extra.take(extra.len() as int) =~= extra);
        proof {
            if exists|j: int| 0 <= j < i + 1 && cut_off((#[trigger] results@[j])@) {
                let j = choose|j: int| 0 <= j < i + 1 && cut_off((#[trigger] results@[j])@);
                assert(j == i || (0 <= j < i && cut_off(results@[j]@)));
            }
        }
        i = i + 1;
    }
    let mut effort: Vec<EffortEvent> = Vec::new();
    effort.push(
        if harness {
            EffortEvent::HarnessFail
        } else {
            EffortEvent::Clean
        },
    );
    if thrash {
        effort.push(EffortEvent::Thrash);
    }
    assert(effort@ =~= round_effort(harness, thrash));
    Round { harness, notes, thrash, effort }
}

/// What the model is told of a batch that is put off.
pub const DEFERRED_TEXT: &'static str =
    "Deferred: this batch repeated the visible answer or only staged/cleaned a scratch copy. Reassess using the trajectory observation, then choose the next step.";

// ---------------------------------------------------------------------------
// Running tests on the model's behalf
// ---------------------------------------------------------------------------

pub const ORACLE_TAIL_CHARS: usize = 2000;

/// The command that is run before the first edit of a turn that nobody watches.
pub fn snapshot_test_baseline(
    print: bool,
    plan_mode: bool,
    has_cmd: bool,
    tree: &Tree,
    python: &str,
) -> (r: Option<String>)
    ensures
        opt_text(r) == (if print && !plan_mode && !has_cmd && tree@.has_tests() {
            default_cmd(tree@, python@)
        } else {
            None
        }),
{
    if !print || plan_mode || has_cmd || !workspace_has_tests(tree) {
        return None;
    }
    workspace_default_test_cmd(tree, python)
}

/// What the tests before the first edit show.
#[derive(Debug, PartialEq, Eq)]
pub struct Baseline {
    pub red: bool,
    /// The command is quick enough to be used again.
    pub keep_cmd: bool,
    pub message: String,
}

/// What the tests before the first edit show: nothing where no tests ran.
pub fn baseline_result(out: &str, slow: bool) -> (r: Option<Baseline>)
    ensures
        r is Some <==> test_output("bash"@, out@),
        r matches Some(b) ==> b.red == test_fail("bash"@, out@) && b.keep_cmd == !slow && b.message@
            == "[baseline] 改动前测试"@ + (if test_fail("bash"@, out@) {
            "已经是红的"@
        } else {
            "全绿"@
        }) + "。\n"@ + tail_of(out@, 2000),
{
    if !is_test_output("bash", out) {
        return None;
    }
    let red: bool = is_test_fail("bash", out);
    let colour = if red {
        "已经是红的"
    } else {
        "全绿"
    };
    let message = text4(
        "[baseline] 改动前测试",
        colour,
        "。\n",
        tail_chars(out, ORACLE_TAIL_CHARS).as_str(),
    );
    Some(Baseline { red, keep_cmd: !slow, message })
}

/// What to do about tests after a round of edits.
#[derive(Debug, PartialEq, Eq)]
pub enum OracleStep {
    Skip,
    /// There is nothing to run; none is owed any more.
    MarkRan,
    Run(String),
}

/// What to do about tests after a round of edits: run the ones for the files that
/// changed, else the ones that ran before, unless the turn is planning or ending.
pub fn oracle_tests_if_needed(
    plan_mode: bool,
    stopping: bool,
    guard: &EditGuard,
    tree: &Tree,
    python: &str,
    known_cmd: Option<&str>,
) -> (r: OracleStep)
    ensures
        ({
            let wanted = !plan_mode && !stopping && guard@.prod && !guard@.test
                && !guard@.red_note_fired && !guard@.seen;
            let scoped = scoped_cmd(tree@, python@, guard@.code);
            &&& r is Skip <==> !wanted
            &&& r is MarkRan <==> wanted && scoped is None && known_cmd is None
            &&& r matches OracleStep::Run(s) ==> s@ == (match scoped {
                Some(c) => c,
                None => known_cmd->0@,
            })
        }),
{
    if plan_mode || stopping || !guard.wants_oracle() {
        return OracleStep::Skip;
    }
    match scoped_test_cmd(tree, python, guard.code_paths()) {
        Some(c) => OracleStep::Run(c),
        None => match known_cmd {
            Some(c) => OracleStep::Run(c.to_owned()),
            None => OracleStep::MarkRan,
        },
    }
}

/// The call by which tests run on the model's behalf; `runs` have been made before.
pub fn oracle_call(runs: u32, cmd: &str) -> (r: ToolCall)
    ensures
        r.id@ == "oracle-"@ + decimal(runs as nat),
        r.name@ == "bash"@,
        r.arguments@ == JsonV::Object(map!["command"@ => JsonV::Str(cmd@)]),
{
    let arguments = Json::object().with("command", Json::string(cmd));
    assert(fields_of(arguments@) =~= map!["command"@ => JsonV::Str(cmd@)]);
    ToolCall {
        id: text2("oracle-", show_u64(runs as u64).as_str()),
        name: "bash".to_owned(),
        arguments,
    }
}

/// What a run on the model's behalf shows.
#[derive(Debug, PartialEq, Eq)]
pub struct OracleReport {
    pub note: Option<GuardNote>,
    pub red: bool,
    /// The command ran tests, and is used again.
    pub keep_cmd: bool,
    /// What the run says of the effort.
    pub effort: EffortEvent,
    pub message: String,
}

/// A run on the model's behalf gave output.
pub fn oracle_result(guard: &mut EditGuard, out: &str) -> (r: OracleReport)
    ensures
        final(guard)@ == (GuardV { seen: true, ..output_seen(old(guard)@, "bash"@, out@) }),
        r.note == (if red_due(old(guard)@, "bash"@, out@) {
            Some(GuardNote::TestRed)
        } else {
            None
        }),
        r.red == test_fail("bash"@, out@),
        r.keep_cmd == test_output("bash"@, out@),
        r.effort == (if test_fail("bash"@, out@) {
            EffortEvent::TestFail
        } else {
            EffortEvent::TestsGreen
        }),
        r.message@ == "[oracle]\n"@ + tail_of(out@, 2000),
{
    let note = guard.observe_oracle_output(out);
    let red: bool = is_test_fail("bash", out);
    OracleReport {
        note,
        red,
        effort: if red {
            EffortEvent::TestFail
        } else {
            EffortEvent::TestsGreen
        },
        keep_cmd: is_test_output("bash", out),
        message: oracle_message(out),
    }
}

/// What the model is told of a run on its behalf.
pub fn oracle_message(out: &str) -> (r: String)
    ensures
        r@ == "[oracle]\n"@ + tail_of(out@, 2000),
{
    text2("[oracle]\n", tail_chars(out, ORACLE_TAIL_CHARS).as_str())
}

// ---------------------------------------------------------------------------
// Notes
// ---------------------------------------------------------------------------

/// What the model is told of a user's remark in the middle of a turn.
pub fn steer_note(note: &str) -> (r: String)
    ensures
        r@ == "Steer: "@ + note@,
{
    text2("Steer: ", note)
}

pub open spec fn state_word(s: ToolState) -> Seq<char> {
    match s {
        ToolState::Success => "finished"@,
        ToolState::Error => "failed"@,
        ToolState::Interrupted => "interrupted"@,
    }
}

/// What the model is told of a call that ended in the background.
pub open spec fn background_text(
    name: Seq<char>,
    s: ToolState,
    id: Seq<char>,
    text: Seq<char>,
    blob: Option<Seq<char>>,
) -> Seq<char> {
    "[background "@ + name + " "@ + state_word(s) + " id="@ + id + "]\n"@ + text + match blob {
        Some(b) => "\n[blob "@ + b + "]"@,
        None => Seq::empty(),
    }
}

/// What the model is told of a call that ended in the background.
pub fn background_note(name: &str, state: ToolState, id: &str, text: &str, blob: Option<&str>) -> (r:
    String)
    ensures
        r@ == background_text(
            name@,
            state,
            id@,
            text@,
            match blob {
                Some(b) => Some(b@),
                None => None,
            },
        ),
{
    let word = match state {
        ToolState::Success => "finished",
        ToolState::Error => "failed",
        ToolState::Interrupted => "interrupted",
    };
    let mut out = text4("[background ", name, " ", word);
    out.append(" id=");
    out.append(id);
    out.append("]\n");
    out.append(text);
    match blob {
        Some(b) => {
            out.append(text3("\n[blob ", b, "]").as_str());
        },
        None => {
            assert(out@ + Seq::<char>::empty() =~= out@);
        },
    }
    out
}

// ---------------------------------------------------------------------------
// Laws
// ---------------------------------------------------------------------------

/// A file that a call has shown can be overwritten after it.
pub proof fn law_seen_files_can_be_written(f: FilesV, name: Seq<char>, p: Seq<char>)
    requires
        crate::message::shows_file(name),
    ensures
        files_after(f, name, Some(p)).observed.contains(p),
        forall|q: Seq<char>| f.observed.contains(q) ==> #[trigger] files_after(
            f,
            name,
            Some(p),
        ).observed.contains(q),
{
    let o = files_after(f, name, Some(p)).observed;
    if !f.observed.contains(p) {
        assert(o[o.len() - 1] == p);
        assert forall|q: Seq<char>| f.observed.contains(q) implies #[trigger] o.contains(q) by {
            let i = choose|i: int| 0 <= i < f.observed.len() && f.observed[i] == q;
            assert(o[i] == q);
        }
    }
}

/// A file that is there and was never shown is not overwritten, whatever the user has
/// allowed; and while planning nothing is changed at all.
pub proof fn law_no_blind_overwrite(
    name: Seq<char>,
    args: JsonV,
    gate: ToolGate,
    observed: Seq<Seq<char>>,
    canon: Seq<char>,
    h: AtHand,
)
    ensures
        name == "write"@ && edited_path(args) is Some && !observed.contains(canon)
            ==> !(dispatched(name, args, gate, observed, canon, true, h) is Go),
        forall|exists: bool|
            !(#[trigger] dispatched(
                name,
                args,
                ToolGate::PlanDenied,
                observed,
                canon,
                exists,
                h,
            ) is Go),
{
}

/// A file that the transcript shows, by a read, view, write or edit whose result went
/// well, is never refused as a blind overwrite, by whatever name the write calls it,
/// as long as the two names have one key.
pub proof fn law_a_shown_file_may_be_overwritten(
    ms: Seq<MessageV>,
    resolved: Map<Seq<char>, Seq<char>>,
    i: int,
    k: int,
    name: Seq<char>,
    args: JsonV,
    path: Seq<char>,
    exists: bool,
)
    requires
        0 <= i < ms.len(),
        ms[i].role == "assistant"@,
        ms[i].tool_calls is Some,
        0 <= k < ms[i].tool_calls->0.len(),
        shown_by(ms, ms[i].tool_calls->0[k]) is Some,
        key_in(resolved, path) == key_in(resolved, shown_by(ms, ms[i].tool_calls->0[k])->0),
    ensures
        !overwrites_blindly(
            name,
            args,
            shown_keys(ms, resolved),
            key_in(resolved, path),
            exists,
        ),
{
    law_what_a_call_shows_is_observed(ms, resolved, i, k);
}

/// A folded search begins with the first lines of the whole.
pub proof fn law_fold_keeps_the_head(
    full: Seq<char>,
    query: Seq<char>,
    spans: Seq<char>,
    blob: Option<Seq<char>>,
)
    ensures
        head_of(full).is_prefix_of(folded(full, query, spans, blob)),
{
    let h = head_of(full);
    let f = folded(full, query, spans, blob);
    assert(f.take(h.len() as int) =~= h);
}

/// A call runs unless it is denied or would overwrite a file that was never shown, and
/// each refusal says which it is; a denial comes first.
pub proof fn law_what_keeps_a_call_from_running(
    name: Seq<char>,
    args: JsonV,
    gate: ToolGate,
    seen: Seq<Seq<char>>,
    canon: Seq<char>,
    exists: bool,
    h: AtHand,
)
    ensures
        ({
            let d = dispatched(name, args, gate, seen, canon, exists, h);
            let names = args.text_at("path"@) is Some || args.text_at("file_path"@) is Some;
            let blind = name == "write"@ && names && exists && !seen.contains(canon);
            let denied = gate == ToolGate::PlanDenied || gate == ToolGate::UserDenied;
            &&& gate == ToolGate::PlanDenied <==> d == DispatchV::PlanDenied
            &&& gate == ToolGate::UserDenied <==> d == DispatchV::UserDenied
            &&& d is Blind <==> !denied && blind
            &&& d is Go <==> !denied && !blind
        }),
{
}

/// Where a call goes by its name: to the user, the log, the memory, the index, the web, a
/// server, a skill or the viewer, where those are at hand; any other name is a tool of the
/// workspace.
pub proof fn law_where_a_call_goes(name: Seq<char>, h: AtHand)
    ensures
        routed("ask"@, h) == RouteV::Ask <==> h.ask,
        routed("memory_search"@, h) == RouteV::MemorySearch <==> h.memory,
        routed("search"@, h) == RouteV::Search <==> h.index,
        routed("web"@, h) == RouteV::Web <==> h.web,
        !h.ask ==> routed("ask"@, h) is Unavailable,
        !h.memory ==> routed("memory_search"@, h) is Unavailable,
        !h.index ==> routed("search"@, h) is Unavailable,
        !h.web ==> routed("web"@, h) is Unavailable,
        routed("recall"@, h) == RouteV::Recall,
        routed("mcp"@, h) == RouteV::Mcp,
        routed("skill"@, h) == RouteV::Skill,
        routed("view"@, h) == RouteV::View,
        routed("read"@, h) == RouteV::Native,
        routed("write"@, h) == RouteV::Native,
        routed("edit"@, h) == RouteV::Native,
        routed("bash"@, h) == RouteV::Native,
        name != "ask"@ && name != "recall"@ && name != "memory_search"@ && name != "search"@ && name
            != "web"@ && name != "mcp"@ && name != "skill"@ && name != "view"@ ==> routed(name, h)
            == RouteV::Native,
{
    reveal_strlit("ask");
    reveal_strlit("recall");
    reveal_strlit("memory_search");
    reveal_strlit("search");
    reveal_strlit("web");
    reveal_strlit("mcp");
    reveal_strlit("skill");
    reveal_strlit("view");
    reveal_strlit("read");
    reveal_strlit("write");
    reveal_strlit("edit");
    reveal_strlit("bash");
    assert("ask"@.len() == 3 && "web"@.len() == 3 && "mcp"@.len() == 3 && "recall"@.len() == 6
        && "search"@.len() == 6 && "memory_search"@.len() == 13 && "skill"@.len() == 5
        && "write"@.len() == 5 && "view"@.len() == 4 && "read"@.len() == 4 && "edit"@.len() == 4
        && "bash"@.len() == 4);
    assert("ask"@[0] == 'a' && "web"@[0] == 'w' && "mcp"@[0] == 'm' && "recall"@[0] == 'r'
        && "search"@[0] == 's' && "skill"@[0] == 's' && "write"@[0] == 'w' && "view"@[0] == 'v'
        && "read"@[0] == 'r' && "edit"@[0] == 'e' && "bash"@[0] == 'b');
}

/// Only calls that look can run beside others.
pub proof fn law_only_looking_runs_beside_others(name: Seq<char>)
    ensures
        parallel_tool(name) <==> seq!["read"@, "view"@, "search"@, "web"@, "ask"@].contains(name),
{
    let all = seq!["read"@, "view"@, "search"@, "web"@, "ask"@];
    assert(all[0] == "read"@ && all[1] == "view"@ && all[2] == "search"@ && all[3] == "web"@
        && all[4] == "ask"@);
}

/// What a call that went well leaves of the file it names: one that reads or views it has
/// read it, and one that writes or edits it too has shown it. No other call and no failure
/// leaves anything.
pub proof fn law_what_is_known_of_files(f: FilesV, c: CallV, r: ResultV, p: Seq<char>)
    requires
        r.path == Some(p),
    ensures
        ({
            let h = files_step(f, c, r);
            let looks = c.name == "read"@ || c.name == "view"@;
            let changes = c.name == "write"@ || c.name == "edit"@;
            &&& r.state != ToolState::Success ==> h == f
            &&& !looks && !changes ==> h == f
            &&& r.state == ToolState::Success && looks ==> h.read.contains(p) && h.observed.contains(
                p,
            )
            &&& r.state == ToolState::Success && changes ==> h.read == f.read
                && h.observed.contains(p)
            &&& forall|q: Seq<char>|
                q != p ==> (#[trigger] h.read.contains(q) <==> f.read.contains(q))
            &&& forall|q: Seq<char>|
                q != p ==> (#[trigger] h.observed.contains(q) <==> f.observed.contains(q))
        }),
{
    reveal_strlit("read");
    reveal_strlit("view");
    reveal_strlit("write");
    reveal_strlit("edit");
    assert("read"@[0] == 'r' && "view"@[0] == 'v' && "write"@[0] == 'w' && "edit"@[0] == 'e');
    lemma_with_new(f.read, p);
    lemma_with_new(f.observed, p);
}

proof fn lemma_with_new(list: Seq<Seq<char>>, p: Seq<char>)
    ensures
        with_new(list, p).contains(p),
        forall|q: Seq<char>|
            q != p ==> (#[trigger] with_new(list, p).contains(q) <==> list.contains(q)),
{
    let l = with_new(list, p);
    if !list.contains(p) {
        assert(l[l.len() - 1] == p);
        assert forall|q: Seq<char>| q != p implies (#[trigger] l.contains(q) <==> list.contains(
            q,
        )) by {
            if list.contains(q) {
                let i = choose|i: int| 0 <= i < list.len() && list[i] == q;
                assert(l[i] == q);
            }
            if l.contains(q) {
                let i = choose|i: int| 0 <= i < l.len() && l[i] == q;
                assert(list[i] == q);
            }
        }
    }
}

/// The results of a round are taken one after the other, each on what those before it left,
/// and no note is lost.
pub proof fn law_a_round_takes_results_in_order(
    g: GuardV,
    f: FilesV,
    cs: Seq<CallV>,
    rs: Seq<ResultV>,
    n: nat,
)
    requires
        n < cs.len(),
        n < rs.len(),
    ensures
        guard_round(g, cs, rs, 0) == (g, Seq::<GuardNote>::empty()),
        files_round(f, cs, rs, 0) == f,
        files_round(f, cs, rs, n + 1) == files_step(files_round(f, cs, rs, n), cs[n as int], rs[n as int]),
        guard_round(g, cs, rs, n).1.is_prefix_of(guard_round(g, cs, rs, n + 1).1),
        ({
            let (h, notes) = guard_round(g, cs, rs, n);
            let r = rs[n as int];
            let c = cs[n as int];
            let (k, more) = guard_round(g, cs, rs, n + 1);
            &&& r.state != ToolState::Success ==> k == output_seen(h, c.name, r.text)
            &&& r.state == ToolState::Success ==> k == output_seen(
                observed(h, c.name, c.args, r.prior).0,
                c.name,
                r.text,
            )
            &&& r.state != ToolState::Success && red_due(h, c.name, r.text) ==> more.last()
                == GuardNote::TestRed && more.len() == notes.len() + 1
            &&& r.state != ToolState::Success && !red_due(h, c.name, r.text) ==> more == notes
        }),
{
    let (h, notes) = guard_round(g, cs, rs, n);
    let (k, more) = guard_step(h, cs[n as int], rs[n as int]);
    assert(notes + more =~= guard_round(g, cs, rs, n + 1).1);
    assert(notes =~= (notes + more).take(notes.len() as int));
    let r = rs[n as int];
    if r.state != ToolState::Success && !red_due(h, cs[n as int].name, r.text) {
        assert(notes + more =~= notes);
    }
}

/// What stands for a call in a line is the file it names, where it names one, else its
/// command.
pub proof fn law_a_call_is_shown_by_its_file(args: JsonV)
    ensures
        args.text_at("path"@) matches Some(p) ==> preview_of(args) == p,
        args.field("path"@) is None && args.text_at("file_path"@) is Some ==> preview_of(args)
            == args.text_at("file_path"@)->0,
        args.field("path"@) is None && args.field("file_path"@) is None && args.text_at(
            "command"@,
        ) is Some ==> preview_of(args) == args.text_at("command"@)->0,
        !(args is Object) ==> preview_of(args) == "…"@,
{
    reveal_with_fuel(first_bound, 12);
    let ks = preview_keys();
    assert(ks[0] == "path"@ && ks[1] == "file_path"@ && ks[2] == "command"@);
}

/// A text is cut to its end, and never made longer.
pub proof fn law_the_tail_is_kept(s: Seq<char>, n: nat)
    ensures
        tail_of(s, n).len() <= n,
        s.len() <= n ==> tail_of(s, n) == s,
        s.len() > n ==> tail_of(s, n).len() == n && tail_of(s, n) == s.subrange(
            s.len() - n,
            s.len() as int,
        ),
{
}

/// What a round says of the effort: that it was clean, or that the harness failed it, and
/// that it went to and fro, where it did.
pub proof fn law_what_a_round_says_of_the_effort()
    ensures
        round_effort(false, false) == seq![EffortEvent::Clean],
        round_effort(true, false) == seq![EffortEvent::HarnessFail],
        round_effort(false, true) == seq![EffortEvent::Clean, EffortEvent::Thrash],
        round_effort(true, true) == seq![EffortEvent::HarnessFail, EffortEvent::Thrash],
{
    assert(round_effort(false, false) =~= seq![EffortEvent::Clean]);
    assert(round_effort(true, false) =~= seq![EffortEvent::HarnessFail]);
    assert(round_effort(false, true) =~= seq![EffortEvent::Clean, EffortEvent::Thrash]);
    assert(round_effort(true, true) =~= seq![EffortEvent::HarnessFail, EffortEvent::Thrash]);
}

/// What the model is told of a call that ended in the background: which one, how it ended,
/// and what it gave.
pub proof fn law_what_is_told_of_the_background(
    name: Seq<char>,
    id: Seq<char>,
    text: Seq<char>,
    blob: Seq<char>,
)
    ensures
        background_text(name, ToolState::Success, id, text, None) == "[background "@ + name + " "@
            + "finished"@ + " id="@ + id + "]\n"@ + text,
        background_text(name, ToolState::Error, id, text, None) == "[background "@ + name + " "@
            + "failed"@ + " id="@ + id + "]\n"@ + text,
        background_text(name, ToolState::Interrupted, id, text, None) == "[background "@ + name
            + " "@ + "interrupted"@ + " id="@ + id + "]\n"@ + text,
        background_text(name, ToolState::Success, id, text, Some(blob)) == background_text(
            name,
            ToolState::Success,
            id,
            text,
            None,
        ) + ("\n[blob "@ + blob + "]"@),
{
    let a = "[background "@ + name + " "@ + "finished"@ + " id="@ + id + "]\n"@ + text;
    let b = "[background "@ + name + " "@ + "failed"@ + " id="@ + id + "]\n"@ + text;
    let c = "[background "@ + name + " "@ + "interrupted"@ + " id="@ + id + "]\n"@ + text;
    assert(a + Seq::<char>::empty() =~= a);
    assert(b + Seq::<char>::empty() =~= b);
    assert(c + Seq::<char>::empty() =~= c);
}

/// A refused overwrite names the file, and says that it is an error.
pub proof fn law_a_refusal_names_the_file(raw: Seq<char>)
    ensures
        ("Error: "@ + raw).is_prefix_of(overwrite_text(raw)),
{
    let h = "Error: "@ + raw;
    assert(overwrite_text(raw).take(h.len() as int) =~= h);
}

/// A call is stored under its identifier and name, with its arguments as a text.
pub proof fn law_how_a_call_is_stored(c: ToolCall)
    ensures
        stored_call(c).0 == c.id@,
        stored_call(c).1 == c.name@,
        stored_call(c).2 == json_text(settled_json(c.arguments@)),
{
}

/// The head of a search is its first twelve lines, all of them where it has fewer.
pub proof fn law_the_head_is_the_first_lines(full: Seq<char>)
    ensures
        lines_of(full).len() <= 12 ==> head_of(full) == joined(lines_of(full), "\n"@),
        lines_of(full).len() > 12 ==> head_of(full) == joined(lines_of(full).take(12), "\n"@),
{
}

/// What stands for a call is the first of these that it binds, where that is a text; else its
/// sequence number.
pub proof fn law_the_first_argument_of_note_stands_for_a_call(
    args: JsonV,
    n: int,
    i: int,
    t: Seq<char>,
)
    requires
        args is Object,
        0 <= i < 10,
    ensures
        ({
            let keys = seq![
                "path"@,
                "file_path"@,
                "command"@,
                "code"@,
                "query"@,
                "blob"@,
                "name"@,
                "method"@,
                "server"@,
                "prompt"@,
            ];
            let none_before = forall|j: int|
                0 <= j < i ==> args.field(#[trigger] keys[j]) is None;
            &&& none_before && args.text_at(keys[i]) == Some(t) ==> preview_of(args) == t
            &&& (forall|j: int| 0 <= j < 10 ==> args.field(#[trigger] keys[j]) is None)
                && args.field("seq"@) == Some(JsonV::Int(n)) ==> preview_of(args) == json_text(
                settled_json(JsonV::Int(n)),
            )
            &&& (forall|j: int| 0 <= j < 10 ==> args.field(#[trigger] keys[j]) is None)
                && args.field("seq"@) is None ==> preview_of(args) == "…"@
        }),
{
    let keys = seq![
        "path"@,
        "file_path"@,
        "command"@,
        "code"@,
        "query"@,
        "blob"@,
        "name"@,
        "method"@,
        "server"@,
        "prompt"@,
    ];
    assert(keys =~= preview_keys());
    if forall|j: int| 0 <= j < 10 ==> args.field(#[trigger] keys[j]) is None {
        lemma_none_bound(args, keys, 0, 10);
    }
    if forall|j: int| 0 <= j < i ==> args.field(#[trigger] keys[j]) is None {
        lemma_none_bound(args, keys, 0, i);
    }
}

proof fn lemma_none_bound(v: JsonV, keys: Seq<Seq<char>>, k: int, i: int)
    requires
        0 <= k <= i <= keys.len(),
        forall|j: int| k <= j < i ==> v.field(#[trigger] keys[j]) is None,
    ensures
        first_bound(v, keys, k) == first_bound(v, keys, i),
    decreases i - k,
{
    if k < i {
        assert(v.field(keys[k]) is None);
        lemma_none_bound(v, keys, k + 1, i);
    }
}

} // verus!
