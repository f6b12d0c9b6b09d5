//! The edit workflow: a goal with its context files goes to the language
//! model, the edits it answers with are applied, Rust sources among them are
//! compiled, and the result is committed.
use vstd::prelude::*;
use crate::app_state::{after_msg, after_msgs, msg_views, sys_chat, sys_msg, AppMsg, MsgView, StateView};
use crate::text::{
    byte_len, byte_len_of, byte_prefix, chars_of, concat, has_infix, has_prefix, copy_string,
    copy_strings, decimal, file_name, file_name_of, first_index, is_boundary, join, last_name,
    lemma_first_index, owned, path_join, join_path, push_byte_prefix, split_on,
    push_decimal, push_str, same_text, slice_chars, string_of, views,
};

verus! {

/// A request from the chat to the edit workflow.
pub struct AiderRequest {
    pub goal: String,
    /// Absolute paths of the files to send as context.
    pub context_files: Vec<String>,
    pub repo_path: String,
    pub model: String,
    pub api_key: String,
    pub base_url: String,
}

/// The request as plain text values.
pub struct AiderRequestView {
    pub goal: Seq<char>,
    pub context_files: Seq<Seq<char>>,
    pub repo_path: Seq<char>,
    pub model: Seq<char>,
    pub api_key: Seq<char>,
    pub base_url: Seq<char>,
}

impl View for AiderRequest {
    type V = AiderRequestView;

    open spec fn view(&self) -> AiderRequestView {
        AiderRequestView {
            goal: self.goal@,
            context_files: views(self.context_files@),
            repo_path: self.repo_path@,
            model: self.model@,
            api_key: self.api_key@,
            base_url: self.base_url@,
        }
    }
}

// ─── File names ─────────────────────────────────────────────────────────────

/// The position of the last `c` in `s`, or -1.
pub open spec fn last_index(s: Seq<char>, c: char) -> int
    decreases s.len(),
{
    if s.len() == 0 {
        -1
    } else if s.last() == c {
        s.len() - 1
    } else {
        last_index(s.drop_last(), c)
    }
}

/// A file name without its extension (`Path::file_stem` on a name): all
/// of it when it holds no `.` after its first character.
pub open spec fn name_stem(n: Seq<char>) -> Seq<char> {
    let k = last_index(n, '.');
    if n == seq!['.', '.'] || k <= 0 {
        n
    } else {
        n.take(k)
    }
}

/// The extension of a file name (`Path::extension` on a name).
pub open spec fn name_ext(n: Seq<char>) -> Option<Seq<char>> {
    let k = last_index(n, '.');
    if n == seq!['.', '.'] || k <= 0 {
        None
    } else {
        Some(n.skip(k + 1))
    }
}

/// Whether a path names a Rust source file (extension `rs`).
pub open spec fn is_rust_source(p: Seq<char>) -> bool {
    match file_name(p) {
        Some(n) => name_ext(n) == Some("rs"@),
        None => false,
    }
}

/// The stem of a path's file name, empty when it has none.
pub open spec fn path_stem(p: Seq<char>) -> Seq<char> {
    match file_name(p) {
        Some(n) => name_stem(n),
        None => seq![],
    }
}

proof fn lemma_last_index(s: Seq<char>, c: char)
    ensures
        -1 <= last_index(s, c) < s.len(),
        last_index(s, c) >= 0 ==> s[last_index(s, c)] == c,
        forall|j: int| last_index(s, c) < j < s.len() ==> #[trigger] s[j] != c,
    decreases s.len(),
{
    if s.len() > 0 && s.last() != c {
        lemma_last_index(s.drop_last(), c);
        assert forall|j: int| last_index(s, c) < j < s.len() implies #[trigger] s[j] != c by {
            if j < s.len() - 1 {
                assert(s[j] == s.drop_last()[j]);
            }
        }
    }
}

fn find_last(v: &Vec<char>, c: char) -> (r: Option<usize>)
    ensures
        match r {
            Some(k) => k < v.len() && last_index(v@, c) == k,
            None => last_index(v@, c) == -1,
        },
{
    let mut j: usize = v.len();
    assert(v@.take(j as int) =~= v@);
    while j > 0
        invariant
            j <= v.len(),
            last_index(v@.take(j as int), c) == last_index(v@, c),
        decreases j,
    {
        assert(v@.take(j as int).last() == v@[j - 1]);
        if v[j - 1] == c {
            return Some(j - 1);
        }
        assert(v@.take(j as int).drop_last() =~= v@.take(j - 1));
        j = j - 1;
    }
    None
}

fn is_dot_dot(n: &Vec<char>) -> (r: bool)
    ensures
        r == (n@ == seq!['.', '.']),
{
    let r = n.len() == 2 && n[0] == '.' && n[1] == '.';
    proof {
        if n.len() == 2 && n@[0] == '.' && n@[1] == '.' {
            assert(n@ =~= seq!['.', '.']);
        }
    }
    r
}

/// Whether `path` names a Rust source file.
pub fn rust_source(path: &str) -> (r: bool)
    ensures
        r == is_rust_source(path@),
{
    match file_name_of(path) {
        None => false,
        Some(name) => {
            let n = chars_of(name.as_str());
            match find_last(&n, '.') {
                None => false,
                Some(k) => {
                    if is_dot_dot(&n) || k == 0 {
                        false
                    } else {
                        let e = slice_chars(&n, k + 1, n.len());
                        assert(e@ =~= n@.skip(k + 1));
                        let es = string_of(&e);
                        same_text(es.as_str(), "rs")
                    }
                },
            }
        },
    }
}

/// The stem of the file name of `path`.
pub fn stem_of(path: &str) -> (r: String)
    ensures
        r@ == path_stem(path@),
{
    match file_name_of(path) {
        None => String::new(),
        Some(name) => {
            let n = chars_of(name.as_str());
            match find_last(&n, '.') {
                None => name,
                Some(k) => {
                    if is_dot_dot(&n) || k == 0 {
                        name
                    } else {
                        let st = slice_chars(&n, 0, k);
                        assert(st@ =~= n@.take(k as int));
                        string_of(&st)
                    }
                },
            }
        },
    }
}

/// Where an edit to `file` lands: inside the repository, with an absolute
/// path reduced to its file name.
pub open spec fn edit_target(repo: Seq<char>, file: Seq<char>) -> Seq<char> {
    let rel = if file.len() > 0 && file[0] == '/' {
        match file_name(file) {
            Some(n) => n,
            None => file,
        }
    } else {
        file
    };
    path_join(repo, rel)
}

proof fn lemma_split_pieces(s: Seq<char>, c: char)
    ensures
        forall|i: int, j: int|
            0 <= i < split_on(s, c).len() && 0 <= j < split_on(s, c)[i].len() ==> #[trigger] split_on(
                s,
                c,
            )[i][j] != c,
    decreases s.len(),
{
    lemma_first_index(s, c);
    let k = first_index(s, c);
    let g = split_on(s, c);
    if k < 0 {
        assert(g == seq![s]);
        assert forall|i: int, j: int| 0 <= i < g.len() && 0 <= j < g[i].len() implies #[trigger] g[i][j]
            != c by {
            assert(g[i] == s);
        }
    } else {
        lemma_split_pieces(s.skip(k + 1), c);
        let rest = split_on(s.skip(k + 1), c);
        assert(g == seq![s.take(k)] + rest);
        assert forall|i: int, j: int| 0 <= i < g.len() && 0 <= j < g[i].len() implies #[trigger] g[i][j]
            != c by {
            if i == 0 {
                assert(g[0] == s.take(k));
                assert(g[0][j] == s[j]);
            } else {
                assert(g[i] == rest[i - 1]);
            }
        }
    }
}

proof fn lemma_last_name_piece(g: Seq<Seq<char>>)
    ensures
        last_name(g) matches Some(n) ==> n.len() > 0 && exists|i: int| 0 <= i < g.len() && g[i] == n,
    decreases g.len(),
{
    if g.len() > 0 {
        lemma_last_name_piece(g.drop_last());
        if last_name(g) != last_name(g.drop_last()) {
            assert(g[g.len() - 1] == g.last());
        } else if let Some(n) = last_name(g) {
            let i = choose|i: int| 0 <= i < g.drop_last().len() && g.drop_last()[i] == n;
            assert(g[i] == n);
        }
    }
}

proof fn lemma_file_name_plain(p: Seq<char>)
    ensures
        file_name(p) matches Some(n) ==> n.len() > 0 && n[0] != '/',
{
    let g = split_on(p, '/');
    lemma_split_pieces(p, '/');
    lemma_last_name_piece(g);
    if let Some(n) = file_name(p) {
        let i = choose|i: int| 0 <= i < g.len() && g[i] == n;
        assert(g[i][0] != '/');
    }
}

/// Every edit lands inside the repository: the path an edit is written to
/// starts with the repository path, whatever name the model gave it. The
/// one exception is an absolute name with no file name (such as `/`),
/// which is written as given.
pub proof fn lemma_edit_in_repo(repo: Seq<char>, file: Seq<char>)
    requires
        !(file.len() > 0 && file[0] == '/' && file_name(file) is None),
    ensures
        has_prefix(edit_target(repo, file), repo),
{
    lemma_file_name_plain(file);
    let t = edit_target(repo, file);
    assert(t.take(repo.len() as int) =~= repo);
}

/// The path an edit to `file` is written to.
pub fn resolve_edit_path(repo: &str, file: &str) -> (r: String)
    ensures
        r@ == edit_target(repo@, file@),
{
    let v = chars_of(file);
    let rel = if v.len() > 0 && v[0] == '/' {
        match file_name_of(file) {
            Some(n) => n,
            None => owned(file),
        }
    } else {
        owned(file)
    };
    join_path(repo, rel.as_str())
}

// ─── The workflow ───────────────────────────────────────────────────────────

/// A context file that could be read: its path relative to the repository
/// and its content.
pub struct ContextFile {
    pub rel: String,
    pub content: String,
}

/// What `Path::strip_prefix` gives for `path` and `base`: the rest of
/// `path` after the components of `base`, or `None` when `base` is not a
/// prefix of it. Path components are not restated here.
pub uninterp spec fn relative_path(path: Seq<char>, base: Seq<char>) -> Option<Seq<char>>;

/// `Path::strip_prefix`, the rest shown as text. Trusted: the result is the
/// one `relative_path` names for the two paths, and depends on nothing
/// else.
#[verifier::external_body]
fn strip_path_prefix(path: &str, base: &str) -> (r: Option<String>)
    ensures
        match r {
            Some(rest) => relative_path(path@, base@) == Some(rest@),
            None => relative_path(path@, base@) is None,
        },
{
    match std::path::Path::new(path).strip_prefix(base) {
        Ok(rest) => Some(rest.to_string_lossy().into_owned()),
        Err(_) => None,
    }
}

/// How a context file's path is shown to the model: relative to the
/// repository when `rel` (its rest after the repository) is known, else
/// the path as given.
pub open spec fn shown_path(rel: Option<Seq<char>>, abs: Seq<char>) -> Seq<char> {
    match rel {
        Some(r) => r,
        None => abs,
    }
}

/// The path shown for a context file, given its rest after the repository.
pub fn shown_context_path(rel: Option<String>, abs: &str) -> (r: String)
    ensures
        r@ == shown_path(
            match rel {
                Some(x) => Some(x@),
                None => None,
            },
            abs@,
        ),
{
    match rel {
        Some(x) => x,
        None => owned(abs),
    }
}

impl ContextFile {
    /// A context file read from `abs`, shown relative to the repository
    /// `repo` when it lies inside it.
    pub fn read(abs: &str, repo: &str, content: String) -> (f: ContextFile)
        ensures
            f.rel@ == shown_path(relative_path(abs@, repo@), abs@),
            f.content@ == content@,
    {
        let rel = strip_path_prefix(abs, repo);
        ContextFile { rel: shown_context_path(rel, abs), content }
    }
}

/// How compiling a Rust source ended.
pub enum CompileOutcome {
    Built,
    /// rustc failed; its standard error.
    Failed(String),
    /// rustc could not be started; the reason.
    NotStarted(String),
}

/// Where the workflow is.
#[derive(PartialEq, Eq, Structural, Clone, Copy)]
pub enum AiderPhase {
    ReadingContext,
    AwaitingReply,
    AwaitingEdits,
    Applying,
    /// Compiling the edit at this index.
    Compiling(usize),
    OpeningRepo,
    Committing,
    ReadingDiff,
    ReadingLog,
    Done,
}

/// What happened outside.
pub enum AiderEvent {
    /// The context files that could be read.
    ContextRead(Vec<ContextFile>),
    /// The model's answer, or why the call failed.
    Reply(Result<String, String>),
    /// The file names of the edits in the answer, or why it held none in
    /// the expected format.
    EditsParsed(Result<Vec<String>, String>),
    /// The edits were written, or why not.
    Applied(Result<(), String>),
    Compiled(CompileOutcome),
    /// Whether the repository could be opened.
    RepoOpened(bool),
    /// The new commit's id, or why committing failed.
    Committed(Result<String, String>),
    /// The diff since the commit, when it could be read.
    DiffRead(Option<String>),
    /// The last commits as (id, message), when they could be read.
    LogRead(Option<Vec<(String, String)>>),
}

/// What to do next.
pub enum AiderAction {
    /// Read the request's context files.
    ReadContext,
    /// Send this user message to the model.
    AskModel(String),
    /// Parse the edits (whole-file format) out of this answer.
    ParseEdits(String),
    /// Write the parsed edits, in order, to these paths.
    ApplyEdits(Vec<String>),
    /// Compile `source` into the binary `output`.
    Compile { source: String, output: String },
    OpenRepo,
    /// Commit these files with this message.
    Commit { message: String, files: Vec<String> },
    /// Read the diff since this commit.
    ReadDiff(String),
    /// Read this many of the last commits.
    ReadLog(usize),
    Stop,
}

/// An action as plain values.
pub enum ActionView {
    ReadContext,
    AskModel(Seq<char>),
    ParseEdits(Seq<char>),
    ApplyEdits(Seq<Seq<char>>),
    Compile { source: Seq<char>, output: Seq<char> },
    OpenRepo,
    Commit { message: Seq<char>, files: Seq<Seq<char>> },
    ReadDiff(Seq<char>),
    ReadLog(nat),
    Stop,
}

impl View for AiderAction {
    type V = ActionView;

    open spec fn view(&self) -> ActionView {
        match self {
            AiderAction::ReadContext => ActionView::ReadContext,
            AiderAction::AskModel(m) => ActionView::AskModel(m@),
            AiderAction::ParseEdits(r) => ActionView::ParseEdits(r@),
            AiderAction::ApplyEdits(p) => ActionView::ApplyEdits(views(p@)),
            AiderAction::Compile { source, output } => ActionView::Compile {
                source: source@,
                output: output@,
            },
            AiderAction::OpenRepo => ActionView::OpenRepo,
            AiderAction::Commit { message, files } => ActionView::Commit {
                message: message@,
                files: views(files@),
            },
            AiderAction::ReadDiff(s) => ActionView::ReadDiff(s@),
            AiderAction::ReadLog(n) => ActionView::ReadLog(*n as nat),
            AiderAction::Stop => ActionView::Stop,
        }
    }
}

/// A running workflow for one request.
pub struct AiderJob {
    pub request: AiderRequest,
    /// Where the parsed edits are written, in order.
    pub edits: Vec<String>,
    pub phase: AiderPhase,
}

/// The context section for one file.
pub open spec fn context_section(f: ContextFile) -> Seq<char> {
    "### "@ + f.rel@ + "\n```\n"@ + f.content@ + "\n```\n\n"@
}

/// The context text for the files that could be read.
pub open spec fn context_text(fs: Seq<ContextFile>) -> Seq<char> {
    concat(Seq::new(fs.len(), |i: int| context_section(fs[i])))
}

/// The message to the model: the goal, followed by the context after a
/// blank line when there is any.
pub open spec fn user_message(goal: Seq<char>, context: Seq<char>) -> Seq<char> {
    if context.len() == 0 {
        goal
    } else {
        goal + "\n\n"@ + context
    }
}

/// The error when no API key is set.
pub open spec fn missing_key_text() -> Seq<char> {
    "API-nyckel saknas.\nÖppna ⚙ API-inställningar i sidofältet och ange din nyckel."@
}

/// The commit message: `matsux: ` and the goal's first 72 bytes.
pub open spec fn commit_message(goal: Seq<char>) -> Seq<char> {
    "matsux: "@ + byte_prefix(goal, if byte_len(goal) < 72 { byte_len(goal) } else { 72 })
}

/// A commit id shortened to its first 8 bytes.
pub open spec fn short_id(sha: Seq<char>) -> Seq<char> {
    byte_prefix(sha, if byte_len(sha) < 8 { byte_len(sha) } else { 8 })
}

/// Whether `&s[..min(len, n)]` would cut inside a character.
pub open spec fn cut_ok(s: Seq<char>, n: int) -> bool {
    is_boundary(s, if byte_len(s) < n { byte_len(s) } else { n })
}

/// A git log line: the short id and the message.
pub open spec fn log_line(e: (String, String)) -> Seq<char> {
    short_id(e.0@) + " "@ + e.1@
}

/// The chat text after compiling into `output`.
pub open spec fn compile_text(o: CompileOutcome, output: Seq<char>) -> Seq<char> {
    match o {
        CompileOutcome::Built => "✅ Kompilerad → "@ + output,
        CompileOutcome::Failed(err) => "❌ Kompileringsfel:\n"@ + err@,
        CompileOutcome::NotStarted(e) => "❌ Kunde inte starta rustc: "@ + e@,
    }
}

/// The index of the first Rust source among `edits` from `from` on, or the
/// number of edits when there is none.
pub open spec fn next_rust(edits: Seq<Seq<char>>, from: int) -> int
    decreases edits.len() - from,
{
    if from >= edits.len() {
        edits.len() as int
    } else if is_rust_source(edits[from]) {
        from
    } else {
        next_rust(edits, from + 1)
    }
}

/// Where the binary of a source goes: the repository and the source's stem.
pub open spec fn binary_path(repo: Seq<char>, source: Seq<char>) -> Seq<char> {
    path_join(repo, path_stem(source))
}

/// Going on from edit `from`: compile the next Rust source, or open the
/// repository when none is left.
pub open spec fn compile_or_commit(repo: Seq<char>, edits: Seq<Seq<char>>, from: int) -> (
    AiderPhase,
    Seq<MsgView>,
    ActionView,
) {
    let k = next_rust(edits, from);
    if k < edits.len() {
        (
            AiderPhase::Compiling(k as usize),
            seq![MsgView::StatusSet("Kompilerar "@ + edits[k] + "…"@)],
            ActionView::Compile { source: edits[k], output: binary_path(repo, edits[k]) },
        )
    } else {
        (AiderPhase::OpeningRepo, seq![], ActionView::OpenRepo)
    }
}

/// Whether an event would cut a text inside a character where the workflow
/// shortens it (the goal for the commit message, commit ids to 8 bytes).
pub open spec fn event_cuts_ok(p: AiderPhase, goal: Seq<char>, e: AiderEvent) -> bool {
    match (p, e) {
        (AiderPhase::OpeningRepo, AiderEvent::RepoOpened(true)) => cut_ok(goal, 72),
        (AiderPhase::Committing, AiderEvent::Committed(Ok(sha))) => cut_ok(sha@, 8),
        (AiderPhase::ReadingLog, AiderEvent::LogRead(Some(l))) => forall|i: int|
            0 <= i < l@.len() ==> cut_ok((#[trigger] l@[i]).0@, 8),
        _ => true,
    }
}

/// One step of the workflow for request `r` with the edits `edits`: the
/// next phase, the messages to send and the next action. An event that
/// does not fit the phase ends the workflow without a message.
pub open spec fn aider_step(
    r: AiderRequestView,
    edits: Seq<Seq<char>>,
    p: AiderPhase,
    e: AiderEvent,
) -> (AiderPhase, Seq<MsgView>, ActionView) {
    match (p, e) {
        (AiderPhase::ReadingContext, AiderEvent::ContextRead(fs)) => if r.api_key.len() == 0 {
            (AiderPhase::Done, seq![MsgView::Error(missing_key_text())], ActionView::Stop)
        } else {
            (
                AiderPhase::AwaitingReply,
                seq![MsgView::StatusSet("Väntar på AI…"@)],
                ActionView::AskModel(user_message(r.goal, context_text(fs@))),
            )
        },
        (AiderPhase::AwaitingReply, AiderEvent::Reply(Err(err))) => (
            AiderPhase::Done,
            seq![MsgView::Error(err@)],
            ActionView::Stop,
        ),
        (AiderPhase::AwaitingReply, AiderEvent::Reply(Ok(answer))) => (
            AiderPhase::AwaitingEdits,
            seq![MsgView::ChatAppend { role: "ai"@, text: answer@ }],
            ActionView::ParseEdits(answer@),
        ),
        (AiderPhase::AwaitingEdits, AiderEvent::EditsParsed(Err(_))) => (
            AiderPhase::Done,
            seq![],
            ActionView::Stop,
        ),
        (AiderPhase::AwaitingEdits, AiderEvent::EditsParsed(Ok(names))) => if names@.len() == 0 {
            (
                AiderPhase::Done,
                seq![MsgView::StatusSet("Klar ✓ (inga kodfiler ändrades)"@)],
                ActionView::Stop,
            )
        } else {
            (
                AiderPhase::Applying,
                seq![
                    MsgView::StatusSet(
                        "Applicerar "@ + decimal(names@.len()) + " edit(s)…"@,
                    ),
                ],
                ActionView::ApplyEdits(
                    Seq::new(names@.len(), |i: int| edit_target(r.repo_path, names@[i]@)),
                ),
            )
        },
        (AiderPhase::Applying, AiderEvent::Applied(Err(err))) => (
            AiderPhase::Done,
            seq![MsgView::Error(err@)],
            ActionView::Stop,
        ),
        (AiderPhase::Applying, AiderEvent::Applied(Ok(()))) => {
            let next = compile_or_commit(r.repo_path, edits, 0);
            (
                next.0,
                seq![sys_msg("✅ Applicerade "@ + decimal(edits.len()) + " edit(s)"@)] + next.1,
                next.2,
            )
        },
        (AiderPhase::Compiling(k), AiderEvent::Compiled(o)) => {
            let next = compile_or_commit(r.repo_path, edits, k + 1);
            (
                next.0,
                seq![sys_msg(compile_text(o, binary_path(r.repo_path, edits[k as int])))]
                    + next.1,
                next.2,
            )
        },
        (AiderPhase::OpeningRepo, AiderEvent::RepoOpened(false)) => (
            AiderPhase::Done,
            seq![MsgView::StatusSet("Klar ✓"@)],
            ActionView::Stop,
        ),
        (AiderPhase::OpeningRepo, AiderEvent::RepoOpened(true)) => (
            AiderPhase::Committing,
            seq![],
            ActionView::Commit { message: commit_message(r.goal), files: edits },
        ),
        (AiderPhase::Committing, AiderEvent::Committed(Err(err))) => (
            AiderPhase::Done,
            seq![
                sys_msg("⚠  git commit misslyckades: "@ + err@),
                MsgView::StatusSet("Klar ✓"@),
            ],
            ActionView::Stop,
        ),
        (AiderPhase::Committing, AiderEvent::Committed(Ok(sha))) => (
            AiderPhase::ReadingDiff,
            seq![sys_msg("✅ git commit "@ + short_id(sha@))],
            ActionView::ReadDiff(sha@),
        ),
        (AiderPhase::ReadingDiff, AiderEvent::DiffRead(d)) => (
            AiderPhase::ReadingLog,
            match d {
                Some(diff) => seq![MsgView::DiffSet(diff@)],
                None => seq![],
            },
            ActionView::ReadLog(10),
        ),
        (AiderPhase::ReadingLog, AiderEvent::LogRead(l)) => (
            AiderPhase::Done,
            match l {
                Some(entries) => seq![
                    MsgView::GitLogSet(Seq::new(entries@.len(), |i: int| log_line(entries@[i]))),
                    MsgView::StatusSet("Klar ✓"@),
                ],
                None => seq![MsgView::StatusSet("Klar ✓"@)],
            },
            ActionView::Stop,
        ),
        _ => (AiderPhase::Done, seq![], ActionView::Stop),
    }
}

/// The event is the one the phase waits for.
pub open spec fn event_fits(p: AiderPhase, e: AiderEvent) -> bool {
    match (p, e) {
        (AiderPhase::ReadingContext, AiderEvent::ContextRead(_)) => true,
        (AiderPhase::AwaitingReply, AiderEvent::Reply(_)) => true,
        (AiderPhase::AwaitingEdits, AiderEvent::EditsParsed(_)) => true,
        (AiderPhase::Applying, AiderEvent::Applied(_)) => true,
        (AiderPhase::Compiling(_), AiderEvent::Compiled(_)) => true,
        (AiderPhase::OpeningRepo, AiderEvent::RepoOpened(_)) => true,
        (AiderPhase::Committing, AiderEvent::Committed(_)) => true,
        (AiderPhase::ReadingDiff, AiderEvent::DiffRead(_)) => true,
        (AiderPhase::ReadingLog, AiderEvent::LogRead(_)) => true,
        _ => false,
    }
}

proof fn lemma_mentions_klar(t: Seq<char>)
    requires
        t == "Klar ✓"@ || t == "Klar ✓ (inga kodfiler ändrades)"@,
    ensures
        has_infix(t, "Klar"@),
{
    reveal_strlit("Klar");
    reveal_strlit("Klar ✓");
    reveal_strlit("Klar ✓ (inga kodfiler ändrades)");
    assert(t.subrange(0, 0 + "Klar"@.len() as int) =~= "Klar"@);
}

/// A request that ends releases the window: its last messages leave it
/// not busy. The one exception is an answer without edits in the expected
/// format, which ends the request without a message.
pub proof fn lemma_finished_request_releases(
    s: StateView,
    r: AiderRequestView,
    edits: Seq<Seq<char>>,
    p: AiderPhase,
    e: AiderEvent,
)
    requires
        p != AiderPhase::Done,
        event_fits(p, e),
        !(e matches AiderEvent::EditsParsed(Err(_))),
        aider_step(r, edits, p, e).0 == AiderPhase::Done,
    ensures
        !after_msgs(s, aider_step(r, edits, p, e).1).busy,
{
    let ms = aider_step(r, edits, p, e).1;
    reveal_with_fuel(after_msgs, 3);
    match (p, e) {
        (AiderPhase::Applying, AiderEvent::Applied(Ok(()))) => {
            let next = compile_or_commit(r.repo_path, edits, 0);
            assert(next.0 != AiderPhase::Done);
        },
        (AiderPhase::Compiling(k), AiderEvent::Compiled(_)) => {
            let next = compile_or_commit(r.repo_path, edits, k + 1);
            assert(next.0 != AiderPhase::Done);
        },
        _ => {},
    }
    assert(ms.len() == 1 || ms.len() == 2);
    if ms.len() == 1 {
        assert(ms.drop_first() =~= Seq::<MsgView>::empty());
        match ms[0] {
            MsgView::StatusSet(t) => {
                lemma_mentions_klar(t);
            },
            _ => {},
        }
    } else {
        assert(ms.drop_first() =~= seq![ms[1]]);
        assert(ms.drop_first().drop_first() =~= Seq::<MsgView>::empty());
        match ms[1] {
            MsgView::StatusSet(t) => {
                lemma_mentions_klar(t);
            },
            _ => {},
        }
    }
}

/// The edits recorded when they are parsed.
pub open spec fn edits_after(r: AiderRequestView, edits: Seq<Seq<char>>, p: AiderPhase, e: AiderEvent) -> Seq<
    Seq<char>,
> {
    match (p, e) {
        (AiderPhase::AwaitingEdits, AiderEvent::EditsParsed(Ok(names))) => Seq::new(
            names@.len(),
            |i: int| edit_target(r.repo_path, names@[i]@),
        ),
        _ => edits,
    }
}

/// The workflow keeps compile indices within the edits.
pub open spec fn phase_ok(p: AiderPhase, edits: Seq<Seq<char>>) -> bool {
    match p {
        AiderPhase::Compiling(k) => k < edits.len(),
        _ => true,
    }
}

proof fn lemma_next_rust(edits: Seq<Seq<char>>, from: int)
    requires
        0 <= from,
    ensures
        from <= next_rust(edits, from) <= edits.len() || (from > edits.len() && next_rust(
            edits,
            from,
        ) == edits.len()),
        next_rust(edits, from) < edits.len() ==> is_rust_source(edits[next_rust(edits, from)]),
        forall|j: int| from <= j < next_rust(edits, from) ==> !is_rust_source(#[trigger] edits[j]),
    decreases edits.len() - from,
{
    if from < edits.len() && !is_rust_source(edits[from]) {
        lemma_next_rust(edits, from + 1);
    }
}

/// The phase after edit `from - 1` is dealt with compiles the next Rust
/// source from `from` on, with nothing but other files in between, or
/// opens the repository when no Rust source is left.
pub open spec fn compiles_next(edits: Seq<Seq<char>>, from: int, p: AiderPhase) -> bool {
    match p {
        AiderPhase::Compiling(k) => {
            &&& from <= k < edits.len()
            &&& is_rust_source(edits[k as int])
            &&& forall|j: int| from <= j < k ==> !is_rust_source(#[trigger] edits[j])
        },
        AiderPhase::OpeningRepo => forall|j: int|
            from <= j < edits.len() ==> !is_rust_source(#[trigger] edits[j]),
        _ => false,
    }
}

/// Every Rust source among the written edits is compiled, once and in
/// order: once the edits are written the first Rust source is compiled,
/// after each compile the next one, and the repository is opened when none
/// is left.
pub proof fn lemma_compiles_each_rust_source(
    r: AiderRequestView,
    edits: Seq<Seq<char>>,
    p: AiderPhase,
    e: AiderEvent,
)
    requires
        edits.len() <= usize::MAX,
        phase_ok(p, edits),
        (p == AiderPhase::Applying && e matches AiderEvent::Applied(Ok(_))) || (p is Compiling
            && e is Compiled),
    ensures
        compiles_next(
            edits,
            match p {
                AiderPhase::Compiling(k) => k + 1,
                _ => 0,
            },
            aider_step(r, edits, p, e).0,
        ),
{
    match p {
        AiderPhase::Compiling(k) => {
            lemma_next_rust(edits, k + 1);
        },
        _ => {
            lemma_next_rust(edits, 0);
        },
    }
}

/// The files compiled and committed are the files written. Once the
/// model's edits are parsed, the paths they are written to are exactly the
/// edits the workflow records, one per name and in order, each inside the
/// repository (but for an absolute name with no file name); a compile
/// takes its source from the recorded edits; and the commit lists exactly
/// the recorded edits.
pub proof fn lemma_written_files_recorded(
    r: AiderRequestView,
    edits: Seq<Seq<char>>,
    names: Vec<String>,
)
    requires
        names@.len() > 0,
        edits.len() <= usize::MAX,
    ensures
        ({
            let p = AiderPhase::AwaitingEdits;
            let e = AiderEvent::EditsParsed(Ok(names));
            let rec = edits_after(r, edits, p, e);
            &&& aider_step(r, edits, p, e).2 == ActionView::ApplyEdits(rec)
            &&& rec.len() == names@.len()
            &&& forall|i: int|
                0 <= i < names@.len() && !(names@[i]@.len() > 0 && names@[i]@[0] == '/'
                    && file_name(names@[i]@) is None) ==> has_prefix(#[trigger] rec[i], r.repo_path)
        }),
        aider_step(r, edits, AiderPhase::OpeningRepo, AiderEvent::RepoOpened(true)).2
            == (ActionView::Commit { message: commit_message(r.goal), files: edits }),
        ({
            let st = aider_step(r, edits, AiderPhase::Applying, AiderEvent::Applied(Ok(())));
            st.0 matches AiderPhase::Compiling(k) ==> st.2 == (ActionView::Compile {
                source: edits[k as int],
                output: binary_path(r.repo_path, edits[k as int]),
            })
        }),
{
    let p = AiderPhase::AwaitingEdits;
    let e = AiderEvent::EditsParsed(Ok(names));
    let rec = edits_after(r, edits, p, e);
    assert forall|i: int|
        0 <= i < names@.len() && !(names@[i]@.len() > 0 && names@[i]@[0] == '/' && file_name(
            names@[i]@,
        ) is None) implies has_prefix(#[trigger] rec[i], r.repo_path) by {
        lemma_edit_in_repo(r.repo_path, names@[i]@);
    }
    lemma_next_rust(edits, 0);
}

/// The context text.
pub fn build_context(fs: &Vec<ContextFile>) -> (r: String)
    ensures
        r@ == context_text(fs@),
{
    let ghost parts = Seq::new(fs@.len(), |i: int| context_section(fs@[i]));
    let mut out = String::new();
    let mut i: usize = 0;
    while i < fs.len()
        invariant
            i <= fs.len(),
            parts == Seq::new(fs@.len(), |i: int| context_section(fs@[i])),
            out@ == concat(parts.take(i as int)),
        decreases fs.len() - i,
    {
        assert(parts.take(i + 1).drop_last() =~= parts.take(i as int));
        assert(parts.take(i + 1).last() == context_section(fs@[i as int]));
        push_str(&mut out, "### ");
        push_str(&mut out, fs[i].rel.as_str());
        push_str(&mut out, "\n```\n");
        push_str(&mut out, fs[i].content.as_str());
        push_str(&mut out, "\n```\n\n");
        i = i + 1;
    }
    assert(parts.take(i as int) =~= parts);
    out
}

fn shortened(s: &str, n: usize) -> (r: String)
    requires
        cut_ok(s@, n as int),
    ensures
        r@ == byte_prefix(s@, if byte_len(s@) < n { byte_len(s@) } else { n as int }),
{
    let len: usize = byte_len_of(s);
    let k: usize = if len < n {
        len
    } else {
        n
    };
    let mut r = String::new();
    push_byte_prefix(&mut r, s, k);
    r
}

impl AiderJob {
    /// Starts the workflow for a request: the status says the context is
    /// being read, and the context files are to be read.
    pub fn start(request: AiderRequest) -> (r: (AiderJob, Vec<AppMsg>, AiderAction))
        ensures
            r.0.request@ == request@,
            r.0.edits@.len() == 0,
            r.0.phase == AiderPhase::ReadingContext,
            msg_views(r.1@) == seq![MsgView::StatusSet("Läser kontext…"@)],
            r.2@ == ActionView::ReadContext,
    {
        let mut msgs: Vec<AppMsg> = Vec::new();
        msgs.push(AppMsg::StatusSet(owned("Läser kontext…")));
        assert(msg_views(msgs@) =~= seq![MsgView::StatusSet("Läser kontext…"@)]);
        (
            AiderJob { request, edits: Vec::new(), phase: AiderPhase::ReadingContext },
            msgs,
            AiderAction::ReadContext,
        )
    }

    fn compile_or_commit_from(&mut self, from: usize, msgs: &mut Vec<AppMsg>) -> (a: AiderAction)
        requires
            from <= old(self).edits@.len(),
        ensures
            final(self).request@ == old(self).request@,
            final(self).edits@ == old(self).edits@,
            ({
                let next = compile_or_commit(
                    old(self).request@.repo_path,
                    views(old(self).edits@),
                    from as int,
                );
                &&& final(self).phase == next.0
                &&& msg_views(final(msgs)@) == msg_views(old(msgs)@) + next.1
                &&& a@ == next.2
            }),
            phase_ok(final(self).phase, views(final(self).edits@)),
    {
        let ghost ev = views(self.edits@);
        let mut k: usize = from;
        while k < self.edits.len() && !rust_source(self.edits[k].as_str())
            invariant
                from <= k <= self.edits@.len(),
                ev == views(self.edits@),
                next_rust(ev, from as int) == next_rust(ev, k as int),
            decreases self.edits@.len() - k,
        {
            k = k + 1;
        }
        proof {
            lemma_next_rust(ev, k as int);
        }
        let ghost before = msg_views(msgs@);
        if k < self.edits.len() {
            let src = copy_string(&self.edits[k]);
            let stem = stem_of(src.as_str());
            let output = join_path(self.request.repo_path.as_str(), stem.as_str());
            let mut st = owned("Kompilerar ");
            push_str(&mut st, src.as_str());
            push_str(&mut st, "…");
            msgs.push(AppMsg::StatusSet(st));
            assert(msg_views(msgs@) =~= before + seq![
                MsgView::StatusSet("Kompilerar "@ + ev[k as int] + "…"@),
            ]);
            self.phase = AiderPhase::Compiling(k);
            AiderAction::Compile { source: src, output }
        } else {
            assert(msg_views(msgs@) =~= before + Seq::<MsgView>::empty());
            self.phase = AiderPhase::OpeningRepo;
            AiderAction::OpenRepo
        }
    }

    /// Takes an event and says what to send and what to do next.
    pub fn step(&mut self, e: AiderEvent) -> (r: (Vec<AppMsg>, AiderAction))
        requires
            phase_ok(old(self).phase, views(old(self).edits@)),
            event_cuts_ok(old(self).phase, old(self).request@.goal, e),
        ensures
            final(self).request@ == old(self).request@,
            views(final(self).edits@) == edits_after(
                old(self).request@,
                views(old(self).edits@),
                old(self).phase,
                e,
            ),
            phase_ok(final(self).phase, views(final(self).edits@)),
            (final(self).phase, msg_views(r.0@), r.1@) == aider_step(
                old(self).request@,
                views(old(self).edits@),
                old(self).phase,
                e,
            ),
    {
        let ghost req = self.request@;
        let ghost ev = views(self.edits@);
        let ghost e0 = e;
        let ghost p0 = self.phase;
        let mut msgs: Vec<AppMsg> = Vec::new();
        match (self.phase, e) {
            (AiderPhase::ReadingContext, AiderEvent::ContextRead(fs)) => {
                if self.request.api_key.as_str().is_empty() {
                    msgs.push(
                        AppMsg::Error(
                            owned(
                                "API-nyckel saknas.\nÖppna ⚙ API-inställningar i sidofältet och ange din nyckel.",
                            ),
                        ),
                    );
                    self.phase = AiderPhase::Done;
                    assert(msg_views(msgs@) =~= seq![MsgView::Error(missing_key_text())]);
                    let res = (msgs, AiderAction::Stop);
                    assert((self.phase, msg_views(res.0@), res.1@) == aider_step(req, ev, p0, e0));
                    res
                } else {
                    let context = build_context(&fs);
                    let mut user = copy_string(&self.request.goal);
                    if !context.as_str().is_empty() {
                        push_str(&mut user, "\n\n");
                        push_str(&mut user, context.as_str());
                    }
                    msgs.push(AppMsg::StatusSet(owned("Väntar på AI…")));
                    self.phase = AiderPhase::AwaitingReply;
                    assert(msg_views(msgs@) =~= seq![MsgView::StatusSet("Väntar på AI…"@)]);
                    let res = (msgs, AiderAction::AskModel(user));
                    assert((self.phase, msg_views(res.0@), res.1@) == aider_step(req, ev, p0, e0));
                    res
                }
            },
            (AiderPhase::AwaitingReply, AiderEvent::Reply(Err(err))) => {
                let ghost errv = err@;
                msgs.push(AppMsg::Error(err));
                self.phase = AiderPhase::Done;
                assert(msg_views(msgs@) =~= seq![MsgView::Error(errv)]);
                let res = (msgs, AiderAction::Stop);
                assert((self.phase, msg_views(res.0@), res.1@) == aider_step(req, ev, p0, e0));
                res
            },
            (AiderPhase::AwaitingReply, AiderEvent::Reply(Ok(answer))) => {
                let copy = copy_string(&answer);
                msgs.push(AppMsg::ChatAppend { role: owned("ai"), text: answer });
                self.phase = AiderPhase::AwaitingEdits;
                assert(msg_views(msgs@) =~= seq![MsgView::ChatAppend { role: "ai"@, text: copy@ }]);
                let res = (msgs, AiderAction::ParseEdits(copy));
                assert((self.phase, msg_views(res.0@), res.1@) == aider_step(req, ev, p0, e0));
                res
            },
            (AiderPhase::AwaitingEdits, AiderEvent::EditsParsed(Err(_))) => {
                self.phase = AiderPhase::Done;
                assert(msg_views(msgs@) =~= Seq::<MsgView>::empty());
                let res = (msgs, AiderAction::Stop);
                assert((self.phase, msg_views(res.0@), res.1@) == aider_step(req, ev, p0, e0));
                res
            },
            (AiderPhase::AwaitingEdits, AiderEvent::EditsParsed(Ok(names))) => {
                if names.len() == 0 {
                    msgs.push(AppMsg::StatusSet(owned("Klar ✓ (inga kodfiler ändrades)")));
                    self.edits = Vec::new();
                    assert(views(self.edits@) =~= Seq::new(
                        names@.len(),
                        |i: int| edit_target(req.repo_path, names@[i]@),
                    ));
                    self.phase = AiderPhase::Done;
                    assert(msg_views(msgs@) =~= seq![
                        MsgView::StatusSet("Klar ✓ (inga kodfiler ändrades)"@),
                    ]);
                    let res = (msgs, AiderAction::Stop);
                    assert((self.phase, msg_views(res.0@), res.1@) == aider_step(req, ev, p0, e0));
                    res
                } else {
                    let mut paths: Vec<String> = Vec::new();
                    let mut i: usize = 0;
                    while i < names.len()
                        invariant
                            i <= names.len(),
                            paths@.len() == i,
                            forall|j: int|
                                0 <= j < i ==> #[trigger] paths@[j]@ == edit_target(
                                    self.request@.repo_path,
                                    names@[j]@,
                                ),
                        decreases names.len() - i,
                    {
                        paths.push(
                            resolve_edit_path(self.request.repo_path.as_str(), names[i].as_str()),
                        );
                        i = i + 1;
                    }
                    let mut st = owned("Applicerar ");
                    push_decimal(&mut st, names.len() as u64);
                    push_str(&mut st, " edit(s)…");
                    msgs.push(AppMsg::StatusSet(st));
                    self.edits = copy_strings(&paths);
                    self.phase = AiderPhase::Applying;
                    assert(views(paths@) =~= Seq::new(
                        names@.len(),
                        |i: int| edit_target(req.repo_path, names@[i]@),
                    ));
                    assert(views(self.edits@) =~= views(paths@));
                    assert(msg_views(msgs@) =~= seq![
                        MsgView::StatusSet(
                            "Applicerar "@ + decimal(names@.len()) + " edit(s)…"@,
                        ),
                    ]);
                    let res = (msgs, AiderAction::ApplyEdits(paths));
                    assert((self.phase, msg_views(res.0@), res.1@) == aider_step(req, ev, p0, e0));
                    res
                }
            },
            (AiderPhase::Applying, AiderEvent::Applied(Err(err))) => {
                let ghost errv = err@;
                msgs.push(AppMsg::Error(err));
                self.phase = AiderPhase::Done;
                assert(msg_views(msgs@) =~= seq![MsgView::Error(errv)]);
                let res = (msgs, AiderAction::Stop);
                assert((self.phase, msg_views(res.0@), res.1@) == aider_step(req, ev, p0, e0));
                res
            },
            (AiderPhase::Applying, AiderEvent::Applied(Ok(()))) => {
                let mut t = owned("✅ Applicerade ");
                push_decimal(&mut t, self.edits.len() as u64);
                push_str(&mut t, " edit(s)");
                msgs.push(sys_chat(t));
                assert(msg_views(msgs@) =~= seq![
                    sys_msg("✅ Applicerade "@ + decimal(ev.len()) + " edit(s)"@),
                ]);
                let a = self.compile_or_commit_from(0, &mut msgs);
                let res = (msgs, a);
                assert((self.phase, msg_views(res.0@), res.1@) == aider_step(req, ev, p0, e0));
                res
            },
            (AiderPhase::Compiling(k), AiderEvent::Compiled(o)) => {
                assert(k < self.edits.len());
                let stem = stem_of(self.edits[k].as_str());
                let output = join_path(self.request.repo_path.as_str(), stem.as_str());
                let ghost ov = output@;
                let ghost o0 = o;
                let text = match o {
                    CompileOutcome::Built => {
                        let mut t = owned("✅ Kompilerad → ");
                        push_str(&mut t, output.as_str());
                        t
                    },
                    CompileOutcome::Failed(err) => {
                        let mut t = owned("❌ Kompileringsfel:\n");
                        push_str(&mut t, err.as_str());
                        t
                    },
                    CompileOutcome::NotStarted(err) => {
                        let mut t = owned("❌ Kunde inte starta rustc: ");
                        push_str(&mut t, err.as_str());
                        t
                    },
                };
                assert(text@ == compile_text(o0, ov));
                msgs.push(sys_chat(text));
                assert(msg_views(msgs@) =~= seq![sys_msg(compile_text(o0, ov))]);
                let a = self.compile_or_commit_from(k + 1, &mut msgs);
                let res = (msgs, a);
                assert((self.phase, msg_views(res.0@), res.1@) == aider_step(req, ev, p0, e0));
                res
            },
            (AiderPhase::OpeningRepo, AiderEvent::RepoOpened(false)) => {
                msgs.push(AppMsg::StatusSet(owned("Klar ✓")));
                self.phase = AiderPhase::Done;
                assert(msg_views(msgs@) =~= seq![MsgView::StatusSet("Klar ✓"@)]);
                let res = (msgs, AiderAction::Stop);
                assert((self.phase, msg_views(res.0@), res.1@) == aider_step(req, ev, p0, e0));
                res
            },
            (AiderPhase::OpeningRepo, AiderEvent::RepoOpened(true)) => {
                let mut message = owned("matsux: ");
                let g = shortened(self.request.goal.as_str(), 72);
                push_str(&mut message, g.as_str());
                self.phase = AiderPhase::Committing;
                assert(msg_views(msgs@) =~= Seq::<MsgView>::empty());
                let files = copy_strings(&self.edits);
                assert(views(files@) =~= ev);
                let res = (msgs, AiderAction::Commit { message, files });
                assert((self.phase, msg_views(res.0@), res.1@) == aider_step(req, ev, p0, e0));
                res
            },
            (AiderPhase::Committing, AiderEvent::Committed(Err(err))) => {
                let mut t = owned("⚠  git commit misslyckades: ");
                push_str(&mut t, err.as_str());
                msgs.push(sys_chat(t));
                msgs.push(AppMsg::StatusSet(owned("Klar ✓")));
                self.phase = AiderPhase::Done;
                assert(msg_views(msgs@) =~= seq![
                    sys_msg("⚠  git commit misslyckades: "@ + err@),
                    MsgView::StatusSet("Klar ✓"@),
                ]);
                let res = (msgs, AiderAction::Stop);
                assert((self.phase, msg_views(res.0@), res.1@) == aider_step(req, ev, p0, e0));
                res
            },
            (AiderPhase::Committing, AiderEvent::Committed(Ok(sha))) => {
                let mut t = owned("✅ git commit ");
                let short = shortened(sha.as_str(), 8);
                push_str(&mut t, short.as_str());
                msgs.push(sys_chat(t));
                self.phase = AiderPhase::ReadingDiff;
                assert(msg_views(msgs@) =~= seq![sys_msg("✅ git commit "@ + short_id(sha@))]);
                let res = (msgs, AiderAction::ReadDiff(sha));
                assert((self.phase, msg_views(res.0@), res.1@) == aider_step(req, ev, p0, e0));
                res
            },
            (AiderPhase::ReadingDiff, AiderEvent::DiffRead(d)) => {
                match d {
                    Some(diff) => {
                        let ghost dv = diff@;
                        msgs.push(AppMsg::DiffSet(diff));
                        assert(msg_views(msgs@) =~= seq![MsgView::DiffSet(dv)]);
                    },
                    None => {
                        assert(msg_views(msgs@) =~= Seq::<MsgView>::empty());
                    },
                }
                self.phase = AiderPhase::ReadingLog;
                let res = (msgs, AiderAction::ReadLog(10));
                assert((self.phase, msg_views(res.0@), res.1@) == aider_step(req, ev, p0, e0));
                res
            },
            (AiderPhase::ReadingLog, AiderEvent::LogRead(l)) => {
                match l {
                    Some(entries) => {
                        let mut lines: Vec<String> = Vec::new();
                        let mut i: usize = 0;
                        while i < entries.len()
                            invariant
                                i <= entries.len(),
                                forall|j: int|
                                    0 <= j < entries@.len() ==> cut_ok(
                                        (#[trigger] entries@[j]).0@,
                                        8,
                                    ),
                                lines@.len() == i,
                                forall|j: int|
                                    0 <= j < i ==> #[trigger] lines@[j]@ == log_line(entries@[j]),
                            decreases entries.len() - i,
                        {
                            let ghost ent = entries@[i as int];
                            assert(cut_ok(ent.0@, 8));
                            let mut line = shortened(entries[i].0.as_str(), 8);
                            push_str(&mut line, " ");
                            push_str(&mut line, entries[i].1.as_str());
                            lines.push(line);
                            i = i + 1;
                        }
                        assert(views(lines@) =~= Seq::new(
                            entries@.len(),
                            |i: int| log_line(entries@[i]),
                        ));
                        msgs.push(AppMsg::GitLogSet(lines));
                        msgs.push(AppMsg::StatusSet(owned("Klar ✓")));
                        assert(msg_views(msgs@) =~= seq![
                            MsgView::GitLogSet(
                                Seq::new(entries@.len(), |i: int| log_line(entries@[i])),
                            ),
                            MsgView::StatusSet("Klar ✓"@),
                        ]);
                    },
                    None => {
                        msgs.push(AppMsg::StatusSet(owned("Klar ✓")));
                        assert(msg_views(msgs@) =~= seq![MsgView::StatusSet("Klar ✓"@)]);
                    },
                }
                self.phase = AiderPhase::Done;
                let res = (msgs, AiderAction::Stop);
                assert((self.phase, msg_views(res.0@), res.1@) == aider_step(req, ev, p0, e0));
                res
            },
            _ => {
                self.phase = AiderPhase::Done;
                assert(msg_views(msgs@) =~= Seq::<MsgView>::empty());
                let res = (msgs, AiderAction::Stop);
                assert((self.phase, msg_views(res.0@), res.1@) == aider_step(req, ev, p0, e0));
                res
            },
        }
    }
}

} // verus!
