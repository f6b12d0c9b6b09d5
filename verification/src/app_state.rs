//! The state behind the window: the chat, the status line, the files chosen
//! as context, the bottom panels and the settings being edited, with the
//! decisions that messages from the background tasks and the user's actions
//! make on it. Drawing it is left to the program around this library.
use vstd::prelude::*;
use crate::aider::AiderRequest;
use crate::config::{
    apply_provider, is_preset_at, model_views, preset_count, preset_key_hint, preset_models,
    providers, with_preset, Config, ConfigView,
};
use crate::text::{
    char_views, chars_of, copy_string, copy_strings, decimal, has_infix, has_prefix, join_path, owned,
    path_join, push_decimal, push_str, same_text, string_of, trim, trim_chars, views, CharClass,
};

verus! {

// ─── Messages from the background tasks ─────────────────────────────────────

/// A message from a background task to the window.
pub enum AppMsg {
    ChatAppend { role: String, text: String },
    StatusSet(String),
    DiffSet(String),
    GitLogSet(Vec<String>),
    Error(String),
    /// A cargo command started (`true`) or finished (`false`).
    CargoRunning(bool),
    /// The installed rustup toolchains.
    ToolchainsLoaded(Vec<String>),
}

/// A message as plain text values.
pub enum MsgView {
    ChatAppend { role: Seq<char>, text: Seq<char> },
    StatusSet(Seq<char>),
    DiffSet(Seq<char>),
    GitLogSet(Seq<Seq<char>>),
    Error(Seq<char>),
    CargoRunning(bool),
    ToolchainsLoaded(Seq<Seq<char>>),
}

impl View for AppMsg {
    type V = MsgView;

    open spec fn view(&self) -> MsgView {
        match self {
            AppMsg::ChatAppend { role, text } => MsgView::ChatAppend { role: role@, text: text@ },
            AppMsg::StatusSet(s) => MsgView::StatusSet(s@),
            AppMsg::DiffSet(d) => MsgView::DiffSet(d@),
            AppMsg::GitLogSet(l) => MsgView::GitLogSet(views(l@)),
            AppMsg::Error(e) => MsgView::Error(e@),
            AppMsg::CargoRunning(b) => MsgView::CargoRunning(*b),
            AppMsg::ToolchainsLoaded(l) => MsgView::ToolchainsLoaded(views(l@)),
        }
    }
}

/// The views of a list of messages.
pub open spec fn msg_views(s: Seq<AppMsg>) -> Seq<MsgView> {
    Seq::new(s.len(), |i: int| s[i]@)
}

/// A chat message from the system.
pub open spec fn sys_msg(text: Seq<char>) -> MsgView {
    MsgView::ChatAppend { role: "sys"@, text }
}

/// Builds a system chat message.
pub fn sys_chat(text: String) -> (m: AppMsg)
    ensures
        m@ == sys_msg(text@),
{
    AppMsg::ChatAppend { role: owned("sys"), text }
}

// ─── Chat, panels ───────────────────────────────────────────────────────────

/// One chat entry; `role` is `"du"` (the user), `"ai"` or `"sys"`.
pub struct ChatLine {
    pub role: String,
    pub text: String,
}

/// The bottom panel on show.
#[derive(PartialEq, Eq, Structural, Clone, Copy)]
pub enum Panel {
    Hidden,
    Diff,
    GitLog,
    Help,
}

/// The chat as (role, text) pairs.
pub open spec fn chat_view(c: Seq<ChatLine>) -> Seq<(Seq<char>, Seq<char>)> {
    Seq::new(c.len(), |i: int| (c[i].role@, c[i].text@))
}

/// The chat after a message from `role`: a message continues the last
/// entry, on a new line, when that entry has the same role, and starts a
/// new entry otherwise.
pub open spec fn chat_appended(
    chat: Seq<(Seq<char>, Seq<char>)>,
    role: Seq<char>,
    text: Seq<char>,
) -> Seq<(Seq<char>, Seq<char>)> {
    if chat.len() > 0 && chat.last().0 == role {
        chat.update(chat.len() - 1, (role, chat.last().1 + "\n"@ + text))
    } else {
        chat.push((role, text))
    }
}

/// Who wrote a chat entry, as the chat shows it.
#[derive(PartialEq, Eq, Structural, Clone, Copy)]
pub enum ChatRole {
    User,
    Ai,
    System,
}

/// The kind of a chat role: `du` is the user, `ai` the model, anything
/// else the system.
pub open spec fn role_kind_of(role: Seq<char>) -> ChatRole {
    if role == "du"@ {
        ChatRole::User
    } else if role == "ai"@ {
        ChatRole::Ai
    } else {
        ChatRole::System
    }
}

/// The label shown before an entry.
pub open spec fn role_label_text(k: ChatRole) -> Seq<char> {
    match k {
        ChatRole::User => " Du "@,
        ChatRole::Ai => " AI "@,
        ChatRole::System => "sys "@,
    }
}

/// The kind of a chat role.
pub fn role_kind(role: &str) -> (r: ChatRole)
    ensures
        r == role_kind_of(role@),
{
    if same_text(role, "du") {
        ChatRole::User
    } else if same_text(role, "ai") {
        ChatRole::Ai
    } else {
        ChatRole::System
    }
}

/// The label shown before an entry of this kind.
pub fn role_label(k: ChatRole) -> (r: String)
    ensures
        r@ == role_label_text(k),
{
    match k {
        ChatRole::User => owned(" Du "),
        ChatRole::Ai => owned(" AI "),
        ChatRole::System => owned("sys "),
    }
}

/// How the status line is coloured.
#[derive(PartialEq, Eq, Structural, Clone, Copy)]
pub enum StatusTone {
    Failed,
    Busy,
    Idle,
}

// ─── The state ──────────────────────────────────────────────────────────────

/// Everything the window shows and edits, apart from the channels and the
/// drawing context.
pub struct AppState {
    pub repo_path: String,
    pub model: String,
    /// Files under the repository that can be chosen, relative to it.
    pub files: Vec<String>,
    /// The chosen files, relative to the repository.
    pub context_files: Vec<String>,
    pub chat: Vec<ChatLine>,
    pub input: String,
    pub request_focus: bool,
    pub busy: bool,
    pub status: String,
    pub diff: String,
    pub git_log: Vec<String>,
    pub panel: Panel,
    pub toolchain_channel: String,
    pub toolchain_input: String,
    pub installed_toolchains: Vec<String>,
    pub cargo_busy: bool,
    pub cfg: Config,
    pub show_key: bool,
    pub selected_provider: usize,
}

/// The state as plain values.
pub struct StateView {
    pub repo_path: Seq<char>,
    pub model: Seq<char>,
    pub files: Seq<Seq<char>>,
    pub context_files: Seq<Seq<char>>,
    pub chat: Seq<(Seq<char>, Seq<char>)>,
    pub input: Seq<char>,
    pub request_focus: bool,
    pub busy: bool,
    pub status: Seq<char>,
    pub diff: Seq<char>,
    pub git_log: Seq<Seq<char>>,
    pub panel: Panel,
    pub toolchain_channel: Seq<char>,
    pub toolchain_input: Seq<char>,
    pub installed_toolchains: Seq<Seq<char>>,
    pub cargo_busy: bool,
    pub cfg: ConfigView,
    pub show_key: bool,
    pub selected_provider: usize,
}

impl View for AppState {
    type V = StateView;

    open spec fn view(&self) -> StateView {
        StateView {
            repo_path: self.repo_path@,
            model: self.model@,
            files: views(self.files@),
            context_files: views(self.context_files@),
            chat: chat_view(self.chat@),
            input: self.input@,
            request_focus: self.request_focus,
            busy: self.busy,
            status: self.status@,
            diff: self.diff@,
            git_log: views(self.git_log@),
            panel: self.panel,
            toolchain_channel: self.toolchain_channel@,
            toolchain_input: self.toolchain_input@,
            installed_toolchains: views(self.installed_toolchains@),
            cargo_busy: self.cargo_busy,
            cfg: self.cfg@,
            show_key: self.show_key,
            selected_provider: self.selected_provider,
        }
    }
}

/// The first chat entry: the repository and the model from the environment.
pub open spec fn welcome_text(repo: Seq<char>, env_model: Seq<char>) -> Seq<char> {
    "matsux-term  •  "@ + repo + "  •  modell: "@ + env_model
}

/// The state after a message from a background task.
pub open spec fn after_msg(s: StateView, m: MsgView) -> StateView {
    match m {
        MsgView::ChatAppend { role, text } => StateView {
            chat: chat_appended(s.chat, role, text),
            ..s
        },
        MsgView::StatusSet(t) => StateView {
            status: t,
            busy: if has_infix(t, "Klar"@) || has_infix(t, "Fel"@) {
                false
            } else {
                s.busy
            },
            ..s
        },
        MsgView::DiffSet(d) => StateView { diff: d, panel: Panel::Diff, ..s },
        MsgView::GitLogSet(l) => StateView { git_log: l, ..s },
        MsgView::CargoRunning(r) => StateView {
            cargo_busy: r,
            busy: if r {
                s.busy
            } else {
                false
            },
            ..s
        },
        MsgView::ToolchainsLoaded(l) => StateView { installed_toolchains: l, ..s },
        MsgView::Error(e) => StateView {
            chat: s.chat.push(("sys"@, "⚠  "@ + e)),
            busy: false,
            status: "Fel ✗"@,
            ..s
        },
    }
}

/// The state after a series of messages, applied in order.
pub open spec fn after_msgs(s: StateView, ms: Seq<MsgView>) -> StateView
    decreases ms.len(),
{
    if ms.len() == 0 {
        s
    } else {
        after_msgs(after_msg(s, ms[0]), ms.drop_first())
    }
}

/// Messages from the background tasks, however many, never touch what the
/// user edits: the input line, the chosen files, the file list, the
/// settings, the channel input and the selected preset stay as they were.
pub proof fn lemma_messages_keep_user_state(s: StateView, ms: Seq<MsgView>)
    ensures
        after_msgs(s, ms).input == s.input,
        after_msgs(s, ms).context_files == s.context_files,
        after_msgs(s, ms).files == s.files,
        after_msgs(s, ms).cfg == s.cfg,
        after_msgs(s, ms).toolchain_input == s.toolchain_input,
        after_msgs(s, ms).selected_provider == s.selected_provider,
        after_msgs(s, ms).show_key == s.show_key,
        after_msgs(s, ms).repo_path == s.repo_path,
    decreases ms.len(),
{
    if ms.len() > 0 {
        lemma_messages_keep_user_state(after_msg(s, ms[0]), ms.drop_first());
    }
}

/// Cargo's flag is kept apart from a request's: a cargo run starting marks
/// only cargo as running and leaves a request's busy flag as it was, and a
/// cargo run ending clears both; nothing else changes.
pub proof fn lemma_cargo_flag_apart(s: StateView, running: bool)
    ensures
        after_msg(s, MsgView::CargoRunning(running)).cargo_busy == running,
        after_msg(s, MsgView::CargoRunning(true)).busy == s.busy,
        !after_msg(s, MsgView::CargoRunning(false)).busy,
        after_msg(s, MsgView::CargoRunning(running)).chat == s.chat,
        after_msg(s, MsgView::CargoRunning(running)).status == s.status,
        after_msg(s, MsgView::CargoRunning(running)).input == s.input,
        after_msg(s, MsgView::CargoRunning(running)).panel == s.panel,
{
}

/// A request's busy flag only changes as the messages say: a status that
/// mentions `Klar` or `Fel`, and an error, end the request; any other
/// status, and every chat, diff, log and toolchain message, keep it.
pub proof fn lemma_request_busy(s: StateView, m: MsgView)
    ensures
        (m matches MsgView::StatusSet(t) && (has_infix(t, "Klar"@) || has_infix(t, "Fel"@)))
            ==> !after_msg(s, m).busy,
        (m matches MsgView::StatusSet(t) && !has_infix(t, "Klar"@) && !has_infix(t, "Fel"@))
            ==> after_msg(s, m).busy == s.busy,
        m is Error ==> !after_msg(s, m).busy && after_msg(s, m).status == "Fel ✗"@,
        (m is ChatAppend || m is DiffSet || m is GitLogSet || m is ToolchainsLoaded)
            ==> after_msg(s, m).busy == s.busy && after_msg(s, m).cargo_busy == s.cargo_busy,
{
}

/// The chat `b` grows from the non-empty chat `a`: it is at least as long,
/// every entry of `a` but the last is unchanged, and the last entry of `a`
/// keeps its role and its text, which the entry may have continued.
pub open spec fn chat_grows(
    a: Seq<(Seq<char>, Seq<char>)>,
    b: Seq<(Seq<char>, Seq<char>)>,
) -> bool {
    &&& b.len() >= a.len()
    &&& forall|i: int| 0 <= i < a.len() - 1 ==> #[trigger] b[i] == a[i]
    &&& b[a.len() - 1].0 == a.last().0
    &&& has_prefix(b[a.len() - 1].1, a.last().1)
}

proof fn lemma_chat_grows_refl(a: Seq<(Seq<char>, Seq<char>)>)
    requires
        a.len() > 0,
    ensures
        chat_grows(a, a),
{
    assert(a.last().1.take(a.last().1.len() as int) =~= a.last().1);
}

proof fn lemma_chat_grows_trans(
    a: Seq<(Seq<char>, Seq<char>)>,
    b: Seq<(Seq<char>, Seq<char>)>,
    c: Seq<(Seq<char>, Seq<char>)>,
)
    requires
        a.len() > 0,
        chat_grows(a, b),
        chat_grows(b, c),
    ensures
        chat_grows(a, c),
{
    let n = a.len() - 1;
    assert forall|i: int| 0 <= i < a.len() - 1 implies #[trigger] c[i] == a[i] by {
        assert(b[i] == a[i]);
        assert(c[i] == b[i]);
    }
    if b.len() > a.len() {
        assert(c[n] == b[n]);
    } else {
        let x = c[n].1;
        let y = b[n].1;
        let z = a.last().1;
        assert(x.take(y.len() as int) =~= y);
        assert(y.take(z.len() as int) =~= z);
        assert(x.take(z.len() as int) =~= y.take(z.len() as int));
    }
}

proof fn lemma_msg_grows_chat(s: StateView, m: MsgView)
    requires
        s.chat.len() > 0,
    ensures
        chat_grows(s.chat, after_msg(s, m).chat),
{
    let a = s.chat;
    let b = after_msg(s, m).chat;
    lemma_chat_grows_refl(a);
    match m {
        MsgView::ChatAppend { role, text } => {
            if a.last().0 == role {
                let t = a.last().1;
                assert(b[a.len() - 1].1 == t + "\n"@ + text);
                assert((t + "\n"@ + text).take(t.len() as int) =~= t);
            } else {
                assert(b == a.push((role, text)));
                assert(b[a.len() - 1] == a[a.len() - 1]);
            }
        },
        MsgView::Error(e) => {
            assert(b[a.len() - 1] == a[a.len() - 1]);
        },
        _ => {},
    }
}

/// Over any series of messages the chat never shrinks: it stays non-empty,
/// no entry but the last changes, and the last entry keeps its role while
/// its text may only be continued.
pub proof fn lemma_chat_only_grows(s: StateView, ms: Seq<MsgView>)
    requires
        s.chat.len() > 0,
    ensures
        chat_grows(s.chat, after_msgs(s, ms).chat),
    decreases ms.len(),
{
    if ms.len() == 0 {
        lemma_chat_grows_refl(s.chat);
    } else {
        let s1 = after_msg(s, ms[0]);
        lemma_msg_grows_chat(s, ms[0]);
        lemma_chat_only_grows(s1, ms.drop_first());
        lemma_chat_grows_trans(s.chat, s1.chat, after_msgs(s1, ms.drop_first()).chat);
    }
}

/// The state after the user sends the text `t` (already trimmed).
pub open spec fn after_submit(s: StateView, t: Seq<char>) -> StateView {
    StateView {
        input: seq![],
        chat: s.chat.push(("du"@, t)),
        busy: true,
        status: "Tänker…"@,
        request_focus: true,
        ..s
    }
}

/// Whether `x` occurs in `s`.
pub open spec fn occurs(s: Seq<Seq<char>>, x: Seq<char>) -> bool {
    exists|i: int| 0 <= i < s.len() && s[i] == x
}

/// The files of `files`, in order, that are not in `ctx`.
pub open spec fn missing_from(files: Seq<Seq<char>>, ctx: Seq<Seq<char>>) -> Seq<Seq<char>>
    decreases files.len(),
{
    if files.len() == 0 {
        seq![]
    } else if occurs(ctx, files.last()) {
        missing_from(files.drop_last(), ctx)
    } else {
        missing_from(files.drop_last(), ctx).push(files.last())
    }
}

/// The position of the first `x` in `s`, or -1.
pub open spec fn position_of(s: Seq<Seq<char>>, x: Seq<char>) -> int
    decreases s.len(),
{
    if s.len() == 0 {
        -1
    } else if s[0] == x {
        0
    } else {
        let r = position_of(s.drop_first(), x);
        if r < 0 {
            -1
        } else {
            r + 1
        }
    }
}

/// The chosen files after clicking `f`: its first occurrence is removed
/// when it is chosen, otherwise it is added at the end.
pub open spec fn toggled(ctx: Seq<Seq<char>>, f: Seq<char>) -> Seq<Seq<char>> {
    let k = position_of(ctx, f);
    if k < 0 {
        ctx.push(f)
    } else {
        ctx.remove(k)
    }
}

proof fn lemma_position_of(s: Seq<Seq<char>>, x: Seq<char>)
    ensures
        -1 <= position_of(s, x) < s.len(),
        position_of(s, x) >= 0 ==> s[position_of(s, x)] == x,
        forall|j: int|
            0 <= j < s.len() && (position_of(s, x) < 0 || j < position_of(s, x)) ==> #[trigger] s[j]
                != x,
    decreases s.len(),
{
    if s.len() > 0 && s[0] != x {
        lemma_position_of(s.drop_first(), x);
        assert forall|j: int|
            0 <= j < s.len() && (position_of(s, x) < 0 || j < position_of(s, x)) implies #[trigger] s[j]
            != x by {
            if j > 0 {
                assert(s[j] == s.drop_first()[j - 1]);
            }
        }
    }
}

proof fn lemma_position_at(s: Seq<Seq<char>>, x: Seq<char>, k: int)
    requires
        k == -1 || (0 <= k < s.len() && s[k] == x),
        forall|j: int| 0 <= j < s.len() && (k == -1 || j < k) ==> s[j] != x,
    ensures
        position_of(s, x) == k,
{
    lemma_position_of(s, x);
    let p = position_of(s, x);
    if p >= 0 {
        assert(s[p] == x);
    } else if k >= 0 {
        assert(s[k] == x);
    }
}

/// No text occurs twice.
pub open spec fn no_dups(s: Seq<Seq<char>>) -> bool {
    forall|i: int, j: int| 0 <= i < j < s.len() ==> s[i] != s[j]
}

/// Clicking a file flips whether it is chosen, and the chosen files never
/// hold a file twice.
pub proof fn lemma_toggle_flips(ctx: Seq<Seq<char>>, f: Seq<char>)
    requires
        no_dups(ctx),
    ensures
        occurs(toggled(ctx, f), f) == !occurs(ctx, f),
        no_dups(toggled(ctx, f)),
        forall|g: Seq<char>| g != f ==> (occurs(toggled(ctx, f), g) == occurs(ctx, g)),
{
    lemma_position_of(ctx, f);
    let k = position_of(ctx, f);
    let t = toggled(ctx, f);
    if k < 0 {
        assert(t == ctx.push(f));
        assert(!occurs(ctx, f));
        assert(t[ctx.len() as int] == f);
        assert forall|g: Seq<char>| g != f implies (occurs(t, g) == occurs(ctx, g)) by {
            if occurs(t, g) {
                let i = choose|i: int| 0 <= i < t.len() && t[i] == g;
                assert(ctx[i] == g);
            }
            if occurs(ctx, g) {
                let i = choose|i: int| 0 <= i < ctx.len() && ctx[i] == g;
                assert(t[i] == g);
            }
        }
    } else {
        assert(t == ctx.remove(k));
        assert(occurs(ctx, f)) by {
            assert(ctx[k] == f);
        }
        if occurs(t, f) {
            let i = choose|i: int| 0 <= i < t.len() && t[i] == f;
            if i < k {
                assert(ctx[i] == f);
            } else {
                assert(ctx[i + 1] == f);
                assert(ctx[k] == ctx[i + 1]);
            }
        }
        assert forall|a: int, b: int| 0 <= a < b < t.len() implies t[a] != t[b] by {
            let a2 = if a < k { a } else { a + 1 };
            let b2 = if b < k { b } else { b + 1 };
            assert(t[a] == ctx[a2] && t[b] == ctx[b2]);
        }
        assert forall|g: Seq<char>| g != f implies (occurs(t, g) == occurs(ctx, g)) by {
            if occurs(t, g) {
                let i = choose|i: int| 0 <= i < t.len() && t[i] == g;
                if i < k {
                    assert(ctx[i] == g);
                } else {
                    assert(ctx[i + 1] == g);
                }
            }
            if occurs(ctx, g) {
                let i = choose|i: int| 0 <= i < ctx.len() && ctx[i] == g;
                assert(i != k);
                if i < k {
                    assert(t[i] == g);
                } else {
                    assert(t[i - 1] == g);
                }
            }
        }
    }
}

/// Clicking a file twice chooses the same files again; a file that was not
/// chosen leaves the list exactly as it was.
pub proof fn lemma_toggle_twice(ctx: Seq<Seq<char>>, f: Seq<char>)
    requires
        no_dups(ctx),
    ensures
        forall|g: Seq<char>| occurs(toggled(toggled(ctx, f), f), g) == occurs(ctx, g),
        !occurs(ctx, f) ==> toggled(toggled(ctx, f), f) == ctx,
{
    lemma_toggle_flips(ctx, f);
    lemma_toggle_flips(toggled(ctx, f), f);
    if !occurs(ctx, f) {
        lemma_position_of(ctx, f);
        let t = ctx.push(f);
        assert(position_of(ctx, f) < 0) by {
            if position_of(ctx, f) >= 0 {
                assert(ctx[position_of(ctx, f)] == f);
            }
        }
        assert forall|j: int| 0 <= j < t.len() && j < ctx.len() implies t[j] != f by {
            assert(t[j] == ctx[j]);
        }
        assert(t[ctx.len() as int] == f);
        lemma_position_at(t, f, ctx.len() as int);
        assert(t.remove(ctx.len() as int) =~= ctx);
    }
}

/// Choosing all files adds every listed file that was missing, and keeps
/// the chosen files free of repeats.
pub proof fn lemma_choose_all(ctx: Seq<Seq<char>>, files: Seq<Seq<char>>)
    requires
        no_dups(ctx),
        no_dups(files),
    ensures
        no_dups(ctx + missing_from(files, ctx)),
        forall|x: Seq<char>| occurs(files, x) ==> occurs(ctx + missing_from(files, ctx), x),
        forall|x: Seq<char>|
            occurs(ctx + missing_from(files, ctx), x) ==> occurs(ctx, x) || occurs(files, x),
    decreases files.len(),
{
    let m = missing_from(files, ctx);
    let all = ctx + m;
    if files.len() == 0 {
        assert(m =~= Seq::<Seq<char>>::empty());
        assert(all =~= ctx);
    } else {
        let init = files.drop_last();
        assert forall|i: int, j: int| 0 <= i < j < init.len() implies init[i] != init[j] by {
            assert(init[i] == files[i] && init[j] == files[j]);
        }
        lemma_choose_all(ctx, init);
        let m0 = missing_from(init, ctx);
        let last = files.last();
        assert(!occurs(init, last)) by {
            if occurs(init, last) {
                let i = choose|i: int| 0 <= i < init.len() && init[i] == last;
                assert(files[i] == files[files.len() - 1]);
            }
        }
        assert forall|x: Seq<char>| occurs(files, x) implies occurs(init, x) || x == last by {
            let i = choose|i: int| 0 <= i < files.len() && files[i] == x;
            if i < files.len() - 1 {
                assert(init[i] == x);
            }
        }
        if occurs(ctx, last) {
            assert(m == m0);
            assert forall|x: Seq<char>| occurs(files, x) implies occurs(all, x) by {
                if x == last {
                    let i = choose|i: int| 0 <= i < ctx.len() && ctx[i] == x;
                    assert(all[i] == x);
                }
            }
            assert forall|x: Seq<char>| occurs(all, x) implies occurs(ctx, x) || occurs(files, x) by {
                if occurs(init, x) {
                    let i = choose|i: int| 0 <= i < init.len() && init[i] == x;
                    assert(files[i] == x);
                }
            }
        } else {
            assert(m == m0.push(last));
            let all0 = ctx + m0;
            assert(all =~= all0.push(last));
            assert(!occurs(all0, last)) by {
                if occurs(all0, last) {
                    assert(occurs(ctx, last) || occurs(init, last));
                }
            }
            assert forall|i: int, j: int| 0 <= i < j < all.len() implies all[i] != all[j] by {
                if j == all.len() - 1 {
                    assert(all[j] == last);
                    assert(all[i] == all0[i]);
                } else {
                    assert(all[i] == all0[i] && all[j] == all0[j]);
                }
            }
            assert forall|x: Seq<char>| occurs(files, x) implies occurs(all, x) by {
                if x == last {
                    assert(all[all.len() - 1] == x);
                } else {
                    let i = choose|i: int| 0 <= i < all0.len() && all0[i] == x;
                    assert(all[i] == x);
                }
            }
            assert forall|x: Seq<char>| occurs(all, x) implies occurs(ctx, x) || occurs(files, x) by {
                let i = choose|i: int| 0 <= i < all.len() && all[i] == x;
                if i == all.len() - 1 {
                    assert(files[files.len() - 1] == x);
                } else {
                    assert(all0[i] == x);
                    if occurs(init, x) {
                        let q = choose|q: int| 0 <= q < init.len() && init[q] == x;
                        assert(files[q] == x);
                    }
                }
            }
        }
    }
}

/// Finds the first `x` in `v`.
fn find_text(v: &Vec<String>, x: &String) -> (r: Option<usize>)
    ensures
        match r {
            Some(k) => k < v.len() && position_of(views(v@), x@) == k,
            None => position_of(views(v@), x@) == -1,
        },
{
    let ghost s = views(v@);
    let mut i: usize = 0;
    while i < v.len()
        invariant
            i <= v.len(),
            s == views(v@),
            forall|j: int| 0 <= j < i ==> s[j] != x@,
        decreases v.len() - i,
    {
        if same_text(v[i].as_str(), x.as_str()) {
            proof {
                lemma_position_at(s, x@, i as int);
            }
            return Some(i);
        }
        i = i + 1;
    }
    proof {
        lemma_position_at(s, x@, -1);
    }
    None
}

impl AppState {
    /// The state when the window opens: a welcome entry naming the
    /// repository and `env_model` (the model named by the environment), the
    /// toolchain channel read from `rust-toolchain.toml` (`stable` when
    /// there is none), and the model of the loaded settings.
    pub fn new(repo_path: String, env_model: String, toolchain: Option<String>, cfg: Config) -> (s:
        AppState)
        ensures
            s@.repo_path == repo_path@,
            s@.model == cfg@.model,
            s@.files == Seq::<Seq<char>>::empty(),
            s@.context_files == Seq::<Seq<char>>::empty(),
            s@.chat == seq![("sys"@, welcome_text(repo_path@, env_model@))],
            s@.input == Seq::<char>::empty(),
            s@.request_focus,
            !s@.busy,
            s@.status == "Klar"@,
            s@.diff == Seq::<char>::empty(),
            s@.git_log == Seq::<Seq<char>>::empty(),
            s@.panel == Panel::Hidden,
            s@.toolchain_channel == (match toolchain {
                Some(t) => t@,
                None => "stable"@,
            }),
            s@.toolchain_input == s@.toolchain_channel,
            s@.installed_toolchains == Seq::<Seq<char>>::empty(),
            !s@.cargo_busy,
            s@.cfg == cfg@,
            !s@.show_key,
            s@.selected_provider == 0,
    {
        let mut welcome = owned("matsux-term  •  ");
        push_str(&mut welcome, repo_path.as_str());
        push_str(&mut welcome, "  •  modell: ");
        push_str(&mut welcome, env_model.as_str());
        let toolchain_channel = match toolchain {
            Some(t) => t,
            None => owned("stable"),
        };
        let toolchain_input = copy_string(&toolchain_channel);
        let model = copy_string(&cfg.model);
        let mut chat: Vec<ChatLine> = Vec::new();
        chat.push(ChatLine { role: owned("sys"), text: welcome });
        let s = AppState {
            repo_path,
            model,
            files: Vec::new(),
            context_files: Vec::new(),
            chat,
            input: String::new(),
            request_focus: true,
            busy: false,
            status: owned("Klar"),
            diff: String::new(),
            git_log: Vec::new(),
            panel: Panel::Hidden,
            toolchain_channel,
            toolchain_input,
            installed_toolchains: Vec::new(),
            cargo_busy: false,
            cfg,
            show_key: false,
            selected_provider: 0,
        };
        assert(s@.chat =~= seq![("sys"@, welcome_text(s@.repo_path, env_model@))]);
        assert(s@.files =~= Seq::<Seq<char>>::empty());
        assert(s@.context_files =~= Seq::<Seq<char>>::empty());
        assert(s@.git_log =~= Seq::<Seq<char>>::empty());
        assert(s@.installed_toolchains =~= Seq::<Seq<char>>::empty());
        s
    }

    /// Adds a chat entry, or continues the last one when it has the same
    /// role.
    pub fn append_chat(&mut self, role: String, text: String)
        ensures
            final(self)@ == (StateView { chat: chat_appended(old(self)@.chat, role@, text@), ..old(self)@ }),
    {
        let n: usize = self.chat.len();
        if n > 0 && same_text(self.chat[n - 1].role.as_str(), role.as_str()) {
            let ghost before = chat_view(self.chat@);
            let last = self.chat.pop().unwrap();
            let mut t = last.text;
            push_str(&mut t, "\n");
            push_str(&mut t, text.as_str());
            self.chat.push(ChatLine { role, text: t });
            assert(chat_view(self.chat@) =~= chat_appended(before, role@, text@));
        } else {
            let ghost before = chat_view(self.chat@);
            self.chat.push(ChatLine { role, text });
            assert(chat_view(self.chat@) =~= chat_appended(before, role@, text@));
        }
    }

    /// Applies a message from a background task.
    pub fn apply_msg(&mut self, msg: AppMsg)
        ensures
            final(self)@ == after_msg(old(self)@, msg@),
    {
        match msg {
            AppMsg::ChatAppend { role, text } => {
                self.append_chat(role, text);
            },
            AppMsg::StatusSet(s) => {
                let v = chars_of(s.as_str());
                let klar = chars_of("Klar");
                let fel = chars_of("Fel");
                let done = crate::text::contains_chars(&v, &klar) || crate::text::contains_chars(
                    &v,
                    &fel,
                );
                self.status = s;
                if done {
                    self.busy = false;
                }
            },
            AppMsg::DiffSet(d) => {
                self.diff = d;
                self.panel = Panel::Diff;
            },
            AppMsg::GitLogSet(log) => {
                self.git_log = log;
            },
            AppMsg::CargoRunning(running) => {
                self.cargo_busy = running;
                if !running {
                    self.busy = false;
                }
            },
            AppMsg::ToolchainsLoaded(list) => {
                self.installed_toolchains = list;
            },
            AppMsg::Error(e) => {
                let mut text = owned("⚠  ");
                push_str(&mut text, e.as_str());
                let ghost before = chat_view(self.chat@);
                self.chat.push(ChatLine { role: owned("sys"), text });
                assert(chat_view(self.chat@) =~= before.push(("sys"@, "⚠  "@ + e@)));
                self.busy = false;
                self.status = owned("Fel ✗");
            },
        }
    }

    /// Sends the input line: nothing happens while a request is running or
    /// when the trimmed input is empty; otherwise the input is cleared, the
    /// text joins the chat as the user's, the window turns busy, and the
    /// request for the edit workflow is returned, with the chosen files
    /// made absolute under the repository and the current settings.
    pub fn submit(&mut self) -> (r: Option<AiderRequest>)
        ensures
            ({
                let t = trim(old(self)@.input);
                if t.len() == 0 || old(self)@.busy {
                    r is None && final(self)@ == old(self)@
                } else {
                    &&& final(self)@ == after_submit(old(self)@, t)
                    &&& r matches Some(req) && {
                        &&& req@.goal == t
                        &&& req@.context_files == Seq::new(
                            old(self)@.context_files.len(),
                            |i: int| path_join(old(self)@.repo_path, old(self)@.context_files[i]),
                        )
                        &&& req@.repo_path == old(self)@.repo_path
                        &&& req@.model == old(self)@.cfg.model
                        &&& req@.api_key == old(self)@.cfg.api_key
                        &&& req@.base_url == old(self)@.cfg.base_url
                    }
                }
            }),
    {
        let v = chars_of(self.input.as_str());
        let tv = trim_chars(&v, &CharClass::Whitespace);
        if tv.len() == 0 || self.busy {
            return None;
        }
        let text = string_of(&tv);
        self.input = String::new();
        let ghost before = chat_view(self.chat@);
        self.chat.push(ChatLine { role: owned("du"), text: copy_string(&text) });
        assert(chat_view(self.chat@) =~= before.push(("du"@, text@)));
        self.busy = true;
        self.status = owned("Tänker…");
        self.request_focus = true;
        let mut ctx: Vec<String> = Vec::new();
        let mut i: usize = 0;
        let ghost cf = views(self.context_files@);
        while i < self.context_files.len()
            invariant
                i <= self.context_files.len(),
                cf == views(self.context_files@),
                ctx@.len() == i,
                forall|j: int|
                    0 <= j < i ==> #[trigger] ctx@[j]@ == path_join(self.repo_path@, cf[j]),
            decreases self.context_files.len() - i,
        {
            ctx.push(join_path(self.repo_path.as_str(), self.context_files[i].as_str()));
            i = i + 1;
        }
        let req = AiderRequest {
            goal: text,
            context_files: ctx,
            repo_path: copy_string(&self.repo_path),
            model: copy_string(&self.cfg.model),
            api_key: copy_string(&self.cfg.api_key),
            base_url: copy_string(&self.cfg.base_url),
        };
        assert(req@.context_files =~= Seq::new(
            cf.len(),
            |i: int| path_join(self.repo_path@, cf[i]),
        ));
        Some(req)
    }

    /// Shows the panel `p`, or hides it when it is already on show.
    pub fn toggle_panel(&mut self, p: Panel)
        ensures
            final(self)@ == (StateView {
                panel: if old(self)@.panel == p {
                    Panel::Hidden
                } else {
                    p
                },
                ..old(self)@
            }),
    {
        self.panel = if self.panel == p {
            Panel::Hidden
        } else {
            p
        };
    }

    /// Chooses every listed file that is not chosen yet, keeping the order
    /// of the list after the files already chosen.
    pub fn choose_all_files(&mut self)
        ensures
            final(self)@ == (StateView {
                context_files: old(self)@.context_files + missing_from(
                    old(self)@.files,
                    old(self)@.context_files,
                ),
                ..old(self)@
            }),
    {
        let existing = copy_strings(&self.context_files);
        let ghost ex = views(existing@);
        let ghost fs = views(self.files@);
        let ghost start = views(self.context_files@);
        assert(ex =~= start);
        let mut i: usize = 0;
        while i < self.files.len()
            invariant
                i <= self.files.len(),
                ex == views(existing@),
                fs == views(self.files@),
                ex == start,
                views(self.context_files@) == start + missing_from(fs.take(i as int), ex),
                self.repo_path@ == old(self).repo_path@,
                self@ == (StateView { context_files: self@.context_files, ..old(self)@ }),
            decreases self.files.len() - i,
        {
            assert(fs.take(i + 1).drop_last() =~= fs.take(i as int));
            assert(fs.take(i + 1).last() == fs[i as int]);
            let found = find_text(&existing, &self.files[i]);
            proof {
                lemma_position_of(ex, fs[i as int]);
                if found is None {
                    if occurs(ex, fs[i as int]) {
                        let k = choose|k: int| 0 <= k < ex.len() && ex[k] == fs[i as int];
                        assert(ex[k] == fs[i as int]);
                    }
                } else {
                    assert(ex[position_of(ex, fs[i as int])] == fs[i as int]);
                }
            }
            if found.is_none() {
                let f = copy_string(&self.files[i]);
                let ghost before = views(self.context_files@);
                self.context_files.push(f);
                assert(views(self.context_files@) =~= before.push(f@));
            }
            i = i + 1;
        }
        assert(fs.take(i as int) =~= fs);
    }

    /// Drops every chosen file.
    pub fn clear_context(&mut self)
        ensures
            final(self)@ == (StateView { context_files: seq![], ..old(self)@ }),
    {
        self.context_files = Vec::new();
        assert(views(self.context_files@) =~= Seq::<Seq<char>>::empty());
    }

    /// Clicking a file: chosen files are dropped, others are chosen.
    pub fn toggle_context_file(&mut self, f: String)
        ensures
            final(self)@ == (StateView {
                context_files: toggled(old(self)@.context_files, f@),
                ..old(self)@
            }),
    {
        let ghost before = views(self.context_files@);
        match find_text(&self.context_files, &f) {
            Some(pos) => {
                self.context_files.remove(pos);
                assert(views(self.context_files@) =~= before.remove(pos as int));
            },
            None => {
                self.context_files.push(f);
                assert(views(self.context_files@) =~= before.push(f@));
            },
        }
    }

    /// The channel to write to `rust-toolchain.toml`: the trimmed channel
    /// input, unless that is empty.
    pub fn toolchain_to_save(&self) -> (r: Option<String>)
        ensures
            match r {
                Some(c) => c@ == trim(self@.toolchain_input) && c@.len() > 0,
                None => trim(self@.toolchain_input).len() == 0,
            },
    {
        let v = chars_of(self.toolchain_input.as_str());
        let t = trim_chars(&v, &CharClass::Whitespace);
        if t.len() == 0 {
            None
        } else {
            Some(string_of(&t))
        }
    }

    /// The channel was written: it becomes the current channel and the chat
    /// says so.
    pub fn toolchain_saved(&mut self, channel: String)
        ensures
            final(self)@ == (StateView {
                toolchain_channel: channel@,
                chat: old(self)@.chat.push(
                    ("sys"@, "✅ rust-toolchain.toml → channel = \""@ + channel@ + "\""@),
                ),
                ..old(self)@
            }),
    {
        let mut text = owned("✅ rust-toolchain.toml → channel = \"");
        push_str(&mut text, channel.as_str());
        push_str(&mut text, "\"");
        let ghost before = chat_view(self.chat@);
        self.chat.push(ChatLine { role: owned("sys"), text });
        assert(chat_view(self.chat@) =~= before.push(
            ("sys"@, "✅ rust-toolchain.toml → channel = \""@ + channel@ + "\""@),
        ));
        self.toolchain_channel = channel;
    }

    /// Writing the channel failed with `err`.
    pub fn toolchain_save_failed(&mut self, err: String)
        ensures
            final(self)@ == (StateView {
                chat: old(self)@.chat.push(
                    ("sys"@, "⚠  Kunde inte skriva rust-toolchain.toml: "@ + err@),
                ),
                ..old(self)@
            }),
    {
        let mut text = owned("⚠  Kunde inte skriva rust-toolchain.toml: ");
        push_str(&mut text, err.as_str());
        let ghost before = chat_view(self.chat@);
        self.chat.push(ChatLine { role: owned("sys"), text });
        assert(chat_view(self.chat@) =~= before.push(
            ("sys"@, "⚠  Kunde inte skriva rust-toolchain.toml: "@ + err@),
        ));
    }

    /// Clicking an installed toolchain puts it in the channel input.
    pub fn pick_toolchain(&mut self, tc: String)
        ensures
            final(self)@ == (StateView { toolchain_input: tc@, ..old(self)@ }),
    {
        self.toolchain_input = tc;
    }

    /// Choosing the preset at `i`: it becomes the selected preset and its
    /// base URL and first model are applied; an index past the presets
    /// changes nothing.
    pub fn select_provider(&mut self, i: usize)
        ensures
            final(self)@ == (if i < preset_count() {
                StateView {
                    selected_provider: i,
                    cfg: with_preset(old(self)@.cfg, i as int),
                    ..old(self)@
                }
            } else {
                old(self)@
            }),
    {
        let ps = providers();
        if i < ps.len() {
            self.selected_provider = i;
            let ghost p = ps@[i as int];
            assert(is_preset_at(p, i as int));
            apply_provider(&mut self.cfg, &ps[i]);
            assert(p.models@.len() == model_views(p).len());
            assert(p.models@.len() > 0 ==> p.models@[0]@ == model_views(p)[0]);
        }
    }

    /// Clicking a model shortcut makes it the model.
    pub fn pick_model(&mut self, m: String)
        ensures
            final(self)@ == (StateView { cfg: ConfigView { model: m@, ..old(self)@.cfg }, ..old(self)@ }),
    {
        self.cfg.model = m;
    }

    /// The settings were saved.
    pub fn config_saved(&mut self)
        ensures
            final(self)@ == (StateView {
                chat: old(self)@.chat.push(
                    ("sys"@, "✅ Inställningar sparade till ~/.matsux-term.toml"@),
                ),
                ..old(self)@
            }),
    {
        let ghost before = chat_view(self.chat@);
        self.chat.push(
            ChatLine { role: owned("sys"), text: owned("✅ Inställningar sparade till ~/.matsux-term.toml") },
        );
        assert(chat_view(self.chat@) =~= before.push(
            ("sys"@, "✅ Inställningar sparade till ~/.matsux-term.toml"@),
        ));
    }

    /// Saving the settings failed with `err`.
    pub fn config_save_failed(&mut self, err: String)
        ensures
            final(self)@ == (StateView {
                chat: old(self)@.chat.push(("sys"@, "⚠  Kunde inte spara: "@ + err@)),
                ..old(self)@
            }),
    {
        let mut text = owned("⚠  Kunde inte spara: ");
        push_str(&mut text, err.as_str());
        let ghost before = chat_view(self.chat@);
        self.chat.push(ChatLine { role: owned("sys"), text });
        assert(chat_view(self.chat@) =~= before.push(("sys"@, "⚠  Kunde inte spara: "@ + err@)));
    }

    /// Shows or hides the API key.
    pub fn toggle_show_key(&mut self)
        ensures
            final(self)@ == (StateView { show_key: !old(self)@.show_key, ..old(self)@ }),
    {
        self.show_key = !self.show_key;
    }

    /// The cargo buttons are usable while neither cargo nor a request runs.
    pub fn cargo_enabled(&self) -> (r: bool)
        ensures
            r == !(self@.cargo_busy || self@.busy),
    {
        !(self.cargo_busy || self.busy)
    }

    /// The status bar's note on the context: how many files are chosen,
    /// or a hint to choose some.
    pub fn context_note(&self) -> (r: String)
        ensures
            r@ == (if self@.context_files.len() > 0 {
                decimal(self@.context_files.len()) + " fil(er) i kontext"@
            } else {
                "välj filer till vänster"@
            }),
    {
        let n: usize = self.context_files.len();
        if n > 0 {
            let mut t = String::new();
            push_decimal(&mut t, n as u64);
            push_str(&mut t, " fil(er) i kontext");
            t
        } else {
            owned("välj filer till vänster")
        }
    }

    /// The placeholder of the input line.
    pub fn input_hint(&self) -> (r: String)
        ensures
            r@ == (if self@.busy {
                "⏳ AI tänker…"@
            } else {
                "Skriv din instruktion till AI…"@
            }),
    {
        if self.busy {
            owned("⏳ AI tänker…")
        } else {
            owned("Skriv din instruktion till AI…")
        }
    }

    /// The model as shown in the title bar.
    pub fn model_label(&self) -> (r: String)
        ensures
            r@ == "["@ + self@.model + "]"@,
    {
        let mut t = owned("[");
        push_str(&mut t, self.model.as_str());
        push_str(&mut t, "]");
        t
    }

    /// Whether an API key is set, and the note that says so.
    pub fn key_status(&self) -> (r: (bool, String))
        ensures
            r.0 == (self@.cfg.api_key.len() > 0),
            r.1@ == (if r.0 {
                "✓ Nyckel inställd"@
            } else {
                "⚠ Nyckel saknas"@
            }),
    {
        if self.cfg.api_key.as_str().is_empty() {
            (false, owned("⚠ Nyckel saknas"))
        } else {
            (true, owned("✓ Nyckel inställd"))
        }
    }

    /// The label of the button that shows or hides the key.
    pub fn show_key_label(&self) -> (r: String)
        ensures
            r@ == (if self@.show_key {
                "🙈"@
            } else {
                "👁"@
            }),
    {
        if self.show_key {
            owned("🙈")
        } else {
            owned("👁")
        }
    }

    /// The API key placeholder of the selected preset (`...` when none is
    /// selected).
    pub fn key_hint(&self) -> (r: String)
        ensures
            r@ == (if self@.selected_provider < preset_count() {
                preset_key_hint(self@.selected_provider as int)
            } else {
                "..."@
            }),
    {
        let ps = providers();
        if self.selected_provider < ps.len() {
            assert(is_preset_at(ps@[self.selected_provider as int], self.selected_provider as int));
            owned(ps[self.selected_provider].key_hint)
        } else {
            owned("...")
        }
    }

    /// The model shortcuts of the selected preset.
    pub fn preset_model_names(&self) -> (r: Vec<String>)
        ensures
            views(r@) == (if self@.selected_provider < preset_count() {
                preset_models(self@.selected_provider as int)
            } else {
                seq![]
            }),
    {
        let ps = providers();
        let mut out: Vec<String> = Vec::new();
        if self.selected_provider < ps.len() {
            let p = &ps[self.selected_provider];
            assert(is_preset_at(*p, self.selected_provider as int));
            let mut i: usize = 0;
            while i < p.models.len()
                invariant
                    i <= p.models@.len(),
                    views(out@) == model_views(*p).take(i as int),
                decreases p.models@.len() - i,
            {
                let ghost before = views(out@);
                out.push(owned(p.models[i]));
                assert(views(out@) =~= before.push(p.models@[i as int]@));
                assert(model_views(*p).take(i + 1) =~= model_views(*p).take(i as int).push(
                    p.models@[i as int]@,
                ));
                i = i + 1;
            }
            assert(model_views(*p).take(i as int) =~= model_views(*p));
        } else {
            assert(views(out@) =~= Seq::<Seq<char>>::empty());
        }
        out
    }

    /// How the status line is coloured: failed when the status mentions
    /// `Fel`, busy while a request runs, idle otherwise.
    pub fn status_tone(&self) -> (r: StatusTone)
        ensures
            r == (if has_infix(self@.status, "Fel"@) {
                StatusTone::Failed
            } else if self@.busy {
                StatusTone::Busy
            } else {
                StatusTone::Idle
            }),
    {
        let v = chars_of(self.status.as_str());
        let fel = chars_of("Fel");
        if crate::text::contains_chars(&v, &fel) {
            StatusTone::Failed
        } else if self.busy {
            StatusTone::Busy
        } else {
            StatusTone::Idle
        }
    }
}


} // verus!
