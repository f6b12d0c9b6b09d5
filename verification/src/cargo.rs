//! Cargo and rustup: the `rust-toolchain.toml` channel, the list of
//! installed toolchains, and the messages a cargo run sends to the chat
//! while its output streams in.
use vstd::prelude::*;
use crate::app_state::{
    after_msgs, msg_views, sys_chat, sys_msg, AppMsg, AppState, MsgView, StateView,
};
use crate::text::{
    char_views, chars_of, contains_chars, count_lead, find_char, first_index, has_infix,
    has_prefix, in_class, join, join_strings, lead_len, lemma_first_index_at, lines, lines_of,
    owned, push_str, slice_chars, starts_with_chars, string_of, strip_cr, trail_len, trim,
    trim_chars, trim_class, trim_start, views, words, words_of, CharClass,
};

verus! {

/// A cargo command to run in a repository.
pub struct CargoCmd {
    pub repo_path: String,
    /// Arguments passed to `cargo`, e.g. `["build", "--release"]`.
    pub args: Vec<String>,
}

// ─── rust-toolchain.toml ────────────────────────────────────────────────────

/// The file written for a channel.
pub open spec fn toolchain_file_text(channel: Seq<char>) -> Seq<char> {
    "[toolchain]\nchannel = \""@ + channel
        + "\"\ncomponents = [\"rustfmt\", \"clippy\"]\ntargets = [\"x86_64-unknown-linux-gnu\"]\n"@
}

/// The channel a line names: a trimmed line that starts with `channel` and
/// holds a `=` names what follows the first `=`, trimmed of whitespace and
/// then of double quotes.
pub open spec fn channel_in_line(l: Seq<char>) -> Option<Seq<char>> {
    let t = trim(l);
    if !has_prefix(t, "channel"@) {
        None
    } else {
        let k = first_index(t, '=');
        if k < 0 {
            None
        } else {
            Some(trim_class(trim(t.skip(k + 1)), CharClass::Is('"')))
        }
    }
}

/// The channel named by the first line that names one.
pub open spec fn first_channel(ls: Seq<Seq<char>>) -> Option<Seq<char>>
    decreases ls.len(),
{
    if ls.len() == 0 {
        None
    } else {
        match channel_in_line(ls[0]) {
            Some(c) => Some(c),
            None => first_channel(ls.drop_first()),
        }
    }
}

/// The channel that `rust-toolchain.toml` with this content names.
pub open spec fn toolchain_channel(content: Seq<char>) -> Option<Seq<char>> {
    first_channel(lines(content))
}

/// The content of `rust-toolchain.toml` for `channel`, with rustfmt,
/// clippy and the x86-64 Linux target.
pub fn toolchain_file_content(channel: &str) -> (r: String)
    ensures
        r@ == toolchain_file_text(channel@),
{
    let mut s = owned("[toolchain]\nchannel = \"");
    push_str(&mut s, channel);
    push_str(
        &mut s,
        "\"\ncomponents = [\"rustfmt\", \"clippy\"]\ntargets = [\"x86_64-unknown-linux-gnu\"]\n",
    );
    s
}

fn channel_of_line(l: &Vec<char>) -> (r: Option<Vec<char>>)
    ensures
        match r {
            Some(c) => channel_in_line(l@) == Some(c@),
            None => channel_in_line(l@) is None,
        },
{
    let t = trim_chars(l, &CharClass::Whitespace);
    let key = chars_of("channel");
    if !starts_with_chars(&t, &key) {
        return None;
    }
    assert(t@.skip(0) =~= t@);
    match find_char(&t, 0, '=') {
        None => None,
        Some(k) => {
            let rest = slice_chars(&t, k + 1, t.len());
            assert(rest@ =~= t@.skip(k + 1));
            let v = trim_chars(&rest, &CharClass::Whitespace);
            Some(trim_chars(&v, &CharClass::Is('"')))
        },
    }
}

/// The channel named in the content of `rust-toolchain.toml` (a line scan,
/// not a TOML parser).
pub fn parse_toolchain_channel(content: &str) -> (r: Option<String>)
    ensures
        match r {
            Some(c) => toolchain_channel(content@) == Some(c@),
            None => toolchain_channel(content@) is None,
        },
{
    let v = chars_of(content);
    let ls = lines_of(&v);
    let ghost all = char_views(ls@);
    let mut i: usize = 0;
    assert(all.skip(0) =~= all);
    while i < ls.len()
        invariant
            i <= ls.len(),
            all == char_views(ls@),
            all == lines(content@),
            first_channel(all.skip(i as int)) == first_channel(all),
        decreases ls.len() - i,
    {
        assert(all.skip(i as int)[0] == ls@[i as int]@);
        assert(all.skip(i as int).drop_first() =~= all.skip(i + 1));
        match channel_of_line(&ls[i]) {
            Some(c) => {
                return Some(string_of(&c));
            },
            None => {},
        }
        i = i + 1;
    }
    None
}

proof fn lemma_trim_class_unchanged(s: Seq<char>, cl: CharClass)
    requires
        s.len() > 0,
        !in_class(cl, s[0]),
        !in_class(cl, s.last()),
    ensures
        trim_class(s, cl) == s,
{
    assert(lead_len(s, cl) == 0);
    assert(s.skip(0) =~= s);
    assert(trail_len(s, cl) == 0);
    assert(s.take(s.len() as int) =~= s);
}

proof fn lemma_unquote(ch: Seq<char>)
    requires
        ch.len() > 0 ==> ch[0] != '"' && ch.last() != '"',
    ensures
        trim_class(seq!['"'] + ch + seq!['"'], CharClass::Is('"')) == ch,
{
    let q = CharClass::Is('"');
    let s = seq!['"'] + ch + seq!['"'];
    if ch.len() == 0 {
        assert(s =~= seq!['"', '"']);
        assert(s.drop_first() =~= seq!['"']);
        assert(s.drop_first().drop_first() =~= Seq::<char>::empty());
        assert(lead_len(s.drop_first().drop_first(), q) == 0);
        assert(lead_len(s.drop_first(), q) == 1);
        assert(lead_len(s, q) == 2);
        assert(s.skip(2) =~= Seq::<char>::empty());
        assert(trim_class(s, q) =~= ch);
    } else {
        assert(s.drop_first() =~= ch + seq!['"']);
        assert((ch + seq!['"'])[0] == ch[0]);
        assert(lead_len(s.drop_first(), q) == 0);
        assert(lead_len(s, q) == 1);
        let a = s.skip(1);
        assert(a =~= ch + seq!['"']);
        assert(a.drop_last() =~= ch);
        assert(trail_len(ch, q) == 0);
        assert(trail_len(a, q) == 1);
        assert(a.take(a.len() - 1) =~= ch);
    }
}

/// The first line of the file.
pub open spec fn toolchain_header() -> Seq<char> {
    seq!['[', 't', 'o', 'o', 'l', 'c', 'h', 'a', 'i', 'n', ']']
}

/// The channel line of the file.
pub open spec fn channel_line(ch: Seq<char>) -> Seq<char> {
    seq!['c', 'h', 'a', 'n', 'n', 'e', 'l', ' ', '=', ' ', '"'] + ch + seq!['"']
}

proof fn lemma_file_lines(ch: Seq<char>)
    requires
        forall|i: int| 0 <= i < ch.len() ==> ch[i] != '\n',
    ensures
        lines(toolchain_file_text(ch)).len() >= 2,
        lines(toolchain_file_text(ch))[0] == toolchain_header(),
        lines(toolchain_file_text(ch))[1] == channel_line(ch),
{
    reveal_strlit("[toolchain]\nchannel = \"");
    reveal_strlit(
        "\"\ncomponents = [\"rustfmt\", \"clippy\"]\ntargets = [\"x86_64-unknown-linux-gnu\"]\n",
    );
    let head = "[toolchain]\nchannel = \""@;
    let tail =
        "\"\ncomponents = [\"rustfmt\", \"clippy\"]\ntargets = [\"x86_64-unknown-linux-gnu\"]\n"@;
    let c = toolchain_file_text(ch);
    let first = toolchain_header();
    let line = channel_line(ch);
    assert(c == head + ch + tail);
    assert forall|j: int| 0 <= j < c.len() && j < 11 implies c[j] != '\n' by {
        assert(c[j] == head[j]);
    }
    assert(c[11] == head[11]);
    lemma_first_index_at(c, '\n', 11);
    assert(c.take(11) =~= first);
    let rest = c.skip(12);
    let n = line.len() as int;
    assert(rest =~= line + tail.skip(1));
    assert forall|j: int| 0 <= j < rest.len() && j < n implies rest[j] != '\n' by {
        assert(rest[j] == line[j]);
        if 11 <= j < 11 + ch.len() {
            assert(line[j] == ch[j - 11]);
        }
    }
    assert(rest[n] == tail[1]);
    lemma_first_index_at(rest, '\n', n);
    assert(rest.take(n) =~= line);
    assert(strip_cr(first) == first);
    assert(strip_cr(line) == line);
    assert(lines(c) == seq![first] + lines(rest));
    assert(lines(rest) == seq![line] + lines(rest.skip(n + 1)));
}

proof fn lemma_header_names_none()
    ensures
        channel_in_line(toolchain_header()) is None,
{
    reveal_strlit("channel");
    let first = toolchain_header();
    lemma_trim_class_unchanged(first, CharClass::Whitespace);
    assert(first.take(7)[0] != "channel"@[0]);
}

proof fn lemma_channel_line_names(ch: Seq<char>)
    requires
        ch.len() > 0 ==> ch[0] != '"' && ch.last() != '"',
    ensures
        channel_in_line(channel_line(ch)) == Some(ch),
{
    reveal_strlit("channel");
    let line = channel_line(ch);
    lemma_trim_class_unchanged(line, CharClass::Whitespace);
    assert(line.take(7) =~= "channel"@);
    assert forall|j: int| 0 <= j < line.len() && j < 8 implies line[j] != '=' by {}
    assert(line[8] == '=');
    lemma_first_index_at(line, '=', 8);
    let after = line.skip(9);
    let quoted = seq!['"'] + ch + seq!['"'];
    assert(after =~= seq![' '] + quoted);
    assert(after.drop_first() =~= quoted);
    assert(quoted[0] == '"');
    assert(lead_len(quoted, CharClass::Whitespace) == 0);
    assert(lead_len(after, CharClass::Whitespace) == 1);
    assert(after.skip(1) =~= quoted);
    assert(quoted.last() == '"');
    assert(trail_len(quoted, CharClass::Whitespace) == 0);
    assert(quoted.take(quoted.len() as int) =~= quoted);
    assert(trim(after) == quoted);
    lemma_unquote(ch);
}

/// Writing a channel to `rust-toolchain.toml` and reading the file back
/// gives the same channel, for every channel on one line that does not
/// begin or end with a double quote.
pub proof fn lemma_toolchain_roundtrip(ch: Seq<char>)
    requires
        forall|i: int| 0 <= i < ch.len() ==> ch[i] != '\n',
        ch.len() > 0 ==> ch[0] != '"' && ch.last() != '"',
    ensures
        toolchain_channel(toolchain_file_text(ch)) == Some(ch),
{
    lemma_file_lines(ch);
    lemma_header_names_none();
    lemma_channel_line_names(ch);
    let ls = lines(toolchain_file_text(ch));
    assert(first_channel(ls) == first_channel(ls.drop_first()));
    assert(ls.drop_first()[0] == ls[1]);
}

// ─── rustup toolchain list ──────────────────────────────────────────────────

/// How many times `c` occurs in `s` from position `i` on.
pub open spec fn count_from(s: Seq<char>, c: char, i: int) -> nat
    decreases s.len() - i,
{
    if i >= s.len() || i < 0 {
        0
    } else {
        count_from(s, c, i + 1) + if s[i] == c {
            1nat
        } else {
            0nat
        }
    }
}

/// Whether `c` is an ASCII letter.
pub open spec fn is_ascii_letter(c: char) -> bool {
    ('a' <= c <= 'z') || ('A' <= c <= 'Z')
}

/// Whether a host triple starts after position `k` of `s`: `s[k]` is a
/// `-`, and what follows is an architecture, vendor and system, at least
/// three `-`-separated parts, the first (the architecture) starting with a
/// letter. Channel names, versions and dates (`2024-05-01`) have parts
/// that start with a digit or fewer parts, so the cut keeps them.
pub open spec fn triple_at(s: Seq<char>, k: int) -> bool {
    &&& 0 <= k
    &&& k + 1 < s.len()
    &&& s[k] == '-'
    &&& is_ascii_letter(s[k + 1])
    &&& count_from(s, '-', k + 1) >= 2
}

/// The position of the first `-` at or after `from` that starts a host
/// triple, or the length of `s` when there is none.
pub open spec fn triple_start(s: Seq<char>, from: int) -> int
    decreases s.len() - from,
{
    if from >= s.len() {
        s.len() as int
    } else if triple_at(s, from) {
        from
    } else {
        triple_start(s, from + 1)
    }
}

/// A toolchain name without its host triple: `nightly-2024-05-01` from
/// `nightly-2024-05-01-x86_64-unknown-linux-gnu`, and the whole name when
/// it holds no triple.
pub open spec fn strip_host(s: Seq<char>) -> Seq<char> {
    s.take(triple_start(s, 0))
}

/// The toolchain a line of `rustup toolchain list` names: its first word
/// (which drops a `(default)` mark) without its host triple, unless that
/// is empty.
pub open spec fn toolchain_name(l: Seq<char>) -> Option<Seq<char>> {
    let w = words(l);
    if w.len() == 0 {
        None
    } else {
        let short = strip_host(w[0]);
        if short.len() == 0 {
            None
        } else {
            Some(short)
        }
    }
}

/// The names the lines give, in order.
pub open spec fn toolchain_names(ls: Seq<Seq<char>>) -> Seq<Seq<char>>
    decreases ls.len(),
{
    if ls.len() == 0 {
        seq![]
    } else {
        let rest = toolchain_names(ls.drop_last());
        match toolchain_name(ls.last()) {
            Some(n) => rest.push(n),
            None => rest,
        }
    }
}

fn dashes_from(w: &Vec<char>, from: usize) -> (r: usize)
    requires
        from <= w.len(),
    ensures
        r == count_from(w@, '-', from as int),
{
    let mut j: usize = w.len();
    let mut n: usize = 0;
    while j > from
        invariant
            from <= j <= w.len(),
            n == count_from(w@, '-', j as int),
            n <= w.len() - j,
        decreases j,
    {
        j = j - 1;
        if w[j] == '-' {
            n = n + 1;
        }
    }
    n
}

fn triple_follows(w: &Vec<char>, k: usize) -> (r: bool)
    requires
        k < w.len(),
    ensures
        r == triple_at(w@, k as int),
{
    if k + 1 >= w.len() || w[k] != '-' {
        return false;
    }
    let c = w[k + 1];
    if !(('a' <= c && c <= 'z') || ('A' <= c && c <= 'Z')) {
        return false;
    }
    dashes_from(w, k + 1) >= 2
}

/// The name without its host triple.
fn strip_host_of(w: &Vec<char>) -> (r: Vec<char>)
    ensures
        r@ == strip_host(w@),
{
    let mut k: usize = 0;
    while k < w.len() && !triple_follows(w, k)
        invariant
            k <= w.len(),
            triple_start(w@, k as int) == triple_start(w@, 0),
        decreases w.len() - k,
    {
        k = k + 1;
    }
    let r = slice_chars(w, 0, k);
    assert(r@ =~= w@.take(k as int));
    r
}

fn name_of_line(l: &Vec<char>) -> (r: Option<Vec<char>>)
    ensures
        match r {
            Some(n) => toolchain_name(l@) == Some(n@),
            None => toolchain_name(l@) is None,
        },
{
    let ws = words_of(l);
    if ws.len() == 0 {
        return None;
    }
    let w = &ws[0];
    assert(char_views(ws@)[0] == w@);
    let short = strip_host_of(w);
    if short.len() == 0 {
        None
    } else {
        Some(short)
    }
}

/// The installed toolchains in the output of `rustup toolchain list`,
/// without host triples and `(default)` marks.
pub fn parse_toolchain_list(output: &str) -> (r: Vec<String>)
    ensures
        views(r@) == toolchain_names(lines(output@)),
{
    let v = chars_of(output);
    let ls = lines_of(&v);
    let ghost all = char_views(ls@);
    let mut out: Vec<String> = Vec::new();
    let mut i: usize = 0;
    while i < ls.len()
        invariant
            i <= ls.len(),
            all == char_views(ls@),
            all == lines(output@),
            views(out@) == toolchain_names(all.take(i as int)),
        decreases ls.len() - i,
    {
        assert(all.take(i + 1).drop_last() =~= all.take(i as int));
        assert(all.take(i + 1).last() == ls@[i as int]@);
        let ghost before = views(out@);
        match name_of_line(&ls[i]) {
            Some(n) => {
                let s = string_of(&n);
                out.push(s);
                assert(views(out@) =~= before.push(n@));
            },
            None => {},
        }
        i = i + 1;
    }
    assert(all.take(i as int) =~= all);
    out
}

// ─── Cargo output ───────────────────────────────────────────────────────────

/// An output line as shown in the chat: errors and warnings get a coloured
/// mark, progress lines an indent, and any other line is unchanged.
pub open spec fn colorized(l: Seq<char>) -> Seq<char> {
    if has_prefix(trim_start(l), "error"@) {
        "🔴 "@ + l
    } else if has_prefix(trim_start(l), "warning"@) {
        "🟡 "@ + l
    } else if has_infix(l, "Compiling"@) || has_infix(l, "Finished"@) || has_infix(l, "Running"@) {
        "   "@ + l
    } else {
        l
    }
}

/// Prefixes a cargo output line with a visual hint based on its content.
pub fn colorize_cargo_line(line: &str) -> (r: String)
    ensures
        r@ == colorized(line@),
{
    let v = chars_of(line);
    let lead: usize = count_lead(&v, 0, &CharClass::Whitespace);
    assert(v@.skip(0) =~= v@);
    let t = slice_chars(&v, lead, v.len());
    assert(t@ =~= trim_start(v@));
    if starts_with_chars(&t, &chars_of("error")) {
        let mut s = owned("🔴 ");
        push_str(&mut s, line);
        s
    } else if starts_with_chars(&t, &chars_of("warning")) {
        let mut s = owned("🟡 ");
        push_str(&mut s, line);
        s
    } else if contains_chars(&v, &chars_of("Compiling")) || contains_chars(
        &v,
        &chars_of("Finished"),
    ) || contains_chars(&v, &chars_of("Running")) {
        let mut s = owned("   ");
        push_str(&mut s, line);
        s
    } else {
        owned(line)
    }
}

/// A cargo output line is never altered, only prefixed: the shown line
/// ends with the line itself.
pub proof fn lemma_colorized_keeps_line(l: Seq<char>)
    ensures
        colorized(l).len() >= l.len(),
        colorized(l).skip(colorized(l).len() - l.len()) == l,
{
    let c = colorized(l);
    assert(c.skip(c.len() - l.len()) =~= l);
}

/// The command as shown: `cargo` and the arguments, space separated.
pub open spec fn command_text(args: Seq<Seq<char>>) -> Seq<char> {
    "cargo "@ + join(args, " "@)
}

/// The command text for a list of arguments.
pub fn cargo_command_text(args: &Vec<String>) -> (r: String)
    ensures
        r@ == command_text(views(args@)),
{
    let mut s = owned("cargo ");
    let j = join_strings(args, " ");
    push_str(&mut s, j.as_str());
    s
}

/// The buttons of the cargo panel: label and arguments.
pub open spec fn cargo_buttons() -> Seq<(Seq<char>, Seq<Seq<char>>)> {
    seq![
        ("check"@, seq!["check"@]),
        ("build"@, seq!["build"@]),
        ("release"@, seq!["build"@, "--release"@]),
        ("test"@, seq!["test"@]),
        ("clippy"@, seq!["clippy"@]),
        ("clean"@, seq!["clean"@]),
    ]
}

/// Each cargo button runs the subcommand its label names, alone, except
/// `release`, which runs `build --release`; the buttons are `check`,
/// `build`, `release`, `test`, `clippy` and `clean`, in that order.
pub proof fn lemma_buttons_run_their_label()
    ensures
        cargo_buttons().len() == 6,
        cargo_buttons()[0].0 == "check"@,
        cargo_buttons()[1].0 == "build"@,
        cargo_buttons()[2].0 == "release"@,
        cargo_buttons()[3].0 == "test"@,
        cargo_buttons()[4].0 == "clippy"@,
        cargo_buttons()[5].0 == "clean"@,
        forall|i: int|
            0 <= i < cargo_buttons().len() && i != 2 ==> (#[trigger] cargo_buttons()[i]).1 == seq![
                cargo_buttons()[i].0,
            ],
        cargo_buttons()[2].1 == seq!["build"@, "--release"@],
{
    assert forall|i: int|
        0 <= i < cargo_buttons().len() && i != 2 implies (#[trigger] cargo_buttons()[i]).1 == seq![
            cargo_buttons()[i].0,
        ] by {
        assert(0 <= i < 6);
        if i == 0 {
        } else if i == 1 {
        } else if i == 3 {
        } else if i == 4 {
        } else {
            assert(i == 5);
        }
    }
}

fn one_arg(a: &str) -> (r: Vec<String>)
    ensures
        views(r@) == seq![a@],
{
    let mut v: Vec<String> = Vec::new();
    v.push(owned(a));
    assert(views(v@) =~= seq![a@]);
    v
}

/// The cargo panel's buttons, in order.
pub fn cargo_commands() -> (r: Vec<(String, Vec<String>)>)
    ensures
        r@.len() == cargo_buttons().len(),
        forall|i: int|
            0 <= i < r@.len() ==> (#[trigger] r@[i]).0@ == cargo_buttons()[i].0 && views(r@[i].1@)
                == cargo_buttons()[i].1,
{
    let mut r: Vec<(String, Vec<String>)> = Vec::new();
    r.push((owned("check"), one_arg("check")));
    r.push((owned("build"), one_arg("build")));
    let mut rel: Vec<String> = Vec::new();
    rel.push(owned("build"));
    rel.push(owned("--release"));
    assert(views(rel@) =~= seq!["build"@, "--release"@]);
    r.push((owned("release"), rel));
    r.push((owned("test"), one_arg("test")));
    r.push((owned("clippy"), one_arg("clippy")));
    r.push((owned("clean"), one_arg("clean")));
    r
}

impl AppState {
    /// A cargo button was clicked: cargo turns busy and the command for the
    /// repository is returned.
    pub fn request_cargo(&mut self, args: Vec<String>) -> (c: CargoCmd)
        ensures
            final(self)@ == (StateView { cargo_busy: true, ..old(self)@ }),
            c.repo_path@ == old(self)@.repo_path,
            views(c.args@) == views(args@),
    {
        self.cargo_busy = true;
        CargoCmd { repo_path: crate::text::copy_string(&self.repo_path), args }
    }
}

// ─── A cargo run ────────────────────────────────────────────────────────────

/// Where a cargo run is.
#[derive(PartialEq, Eq, Structural, Clone, Copy)]
pub enum CargoPhase {
    Spawning,
    ReadingStderr,
    ReadingStdout,
    Waiting,
    Done,
}

/// What happened outside.
pub enum CargoEvent {
    /// The process started (`true`) or could not be started.
    Spawned(bool),
    /// The next line of standard error, or its end.
    StderrLine(Option<String>),
    /// The next line of standard output, or its end.
    StdoutLine(Option<String>),
    /// The process ended, successfully or not.
    Exited(bool),
}

/// What to do next.
#[derive(PartialEq, Eq, Structural, Clone, Copy)]
pub enum CargoAction {
    Spawn,
    ReadStderr,
    ReadStdout,
    Wait,
    Stop,
}

/// A running cargo command.
pub struct CargoRun {
    /// `cargo` and its arguments, as shown.
    pub command: String,
    pub phase: CargoPhase,
}

/// The action that belongs to a phase.
pub open spec fn phase_action(p: CargoPhase) -> CargoAction {
    match p {
        CargoPhase::Spawning => CargoAction::Spawn,
        CargoPhase::ReadingStderr => CargoAction::ReadStderr,
        CargoPhase::ReadingStdout => CargoAction::ReadStdout,
        CargoPhase::Waiting => CargoAction::Wait,
        CargoPhase::Done => CargoAction::Stop,
    }
}

/// The messages that open a run.
pub open spec fn start_msgs(cmd: Seq<char>) -> Seq<MsgView> {
    seq![
        sys_msg("$ "@ + cmd),
        MsgView::StatusSet("Kör "@ + cmd + "…"@),
        MsgView::CargoRunning(true),
    ]
}

/// The messages that close a run.
pub open spec fn finish_msgs(cmd: Seq<char>, success: bool) -> Seq<MsgView> {
    seq![
        sys_msg(
            if success {
                "✅ "@ + cmd + " klar"@
            } else {
                "❌ "@ + cmd + " misslyckades"@
            },
        ),
        MsgView::StatusSet(
            if success {
                "Klar ✓"@
            } else {
                "Byggfel ✗"@
            },
        ),
        MsgView::CargoRunning(false),
    ]
}

/// One step of a run: the next phase, the messages to send and the next
/// action. Standard error is read to its end first, then standard output,
/// then the exit status is awaited; an event that does not fit the phase
/// changes nothing and asks for the phase's action again.
pub open spec fn cargo_step(p: CargoPhase, cmd: Seq<char>, e: CargoEvent) -> (
    CargoPhase,
    Seq<MsgView>,
    CargoAction,
) {
    match (p, e) {
        (CargoPhase::Spawning, CargoEvent::Spawned(false)) => (
            CargoPhase::Done,
            seq![
                MsgView::Error("Kunde inte starta cargo — är Rust installerat?"@),
                MsgView::CargoRunning(false),
            ],
            CargoAction::Stop,
        ),
        (CargoPhase::Spawning, CargoEvent::Spawned(true)) => (
            CargoPhase::ReadingStderr,
            seq![],
            CargoAction::ReadStderr,
        ),
        (CargoPhase::ReadingStderr, CargoEvent::StderrLine(Some(l))) => (
            CargoPhase::ReadingStderr,
            seq![sys_msg(colorized(l@))],
            CargoAction::ReadStderr,
        ),
        (CargoPhase::ReadingStderr, CargoEvent::StderrLine(None)) => (
            CargoPhase::ReadingStdout,
            seq![],
            CargoAction::ReadStdout,
        ),
        (CargoPhase::ReadingStdout, CargoEvent::StdoutLine(Some(l))) => (
            CargoPhase::ReadingStdout,
            seq![sys_msg(l@)],
            CargoAction::ReadStdout,
        ),
        (CargoPhase::ReadingStdout, CargoEvent::StdoutLine(None)) => (
            CargoPhase::Waiting,
            seq![],
            CargoAction::Wait,
        ),
        (CargoPhase::Waiting, CargoEvent::Exited(ok)) => (
            CargoPhase::Done,
            finish_msgs(cmd, ok),
            CargoAction::Stop,
        ),
        _ => (p, seq![], phase_action(p)),
    }
}

/// A cargo run that ends always releases the window: after its last
/// messages neither cargo nor a request counts as running.
pub proof fn lemma_cargo_end_releases(s: StateView, p: CargoPhase, cmd: Seq<char>, e: CargoEvent)
    requires
        p != CargoPhase::Done,
        cargo_step(p, cmd, e).0 == CargoPhase::Done,
    ensures
        !after_msgs(s, cargo_step(p, cmd, e).1).cargo_busy,
        !after_msgs(s, cargo_step(p, cmd, e).1).busy,
{
    let ms = cargo_step(p, cmd, e).1;
    assert(ms.len() >= 2);
    let last = ms.len() - 1;
    assert(ms[last] == MsgView::CargoRunning(false));
    reveal_with_fuel(after_msgs, 4);
    if ms.len() == 2 {
        assert(ms.drop_first() =~= seq![ms[1]]);
        assert(ms.drop_first().drop_first() =~= Seq::<MsgView>::empty());
    } else {
        assert(ms.len() == 3);
        assert(ms.drop_first() =~= seq![ms[1], ms[2]]);
        assert(ms.drop_first().drop_first() =~= seq![ms[2]]);
        assert(ms.drop_first().drop_first().drop_first() =~= Seq::<MsgView>::empty());
    }
}

impl CargoRun {
    /// Starts a run of `cargo` with `args`: the chat shows the command, the
    /// status says it runs, cargo turns busy, and the process is to be
    /// spawned.
    pub fn start(args: &Vec<String>) -> (r: (CargoRun, Vec<AppMsg>, CargoAction))
        ensures
            r.0.command@ == command_text(views(args@)),
            r.0.phase == CargoPhase::Spawning,
            msg_views(r.1@) == start_msgs(r.0.command@),
            r.2 == CargoAction::Spawn,
    {
        let command = cargo_command_text(args);
        let mut msgs: Vec<AppMsg> = Vec::new();
        let mut t = owned("$ ");
        push_str(&mut t, command.as_str());
        msgs.push(sys_chat(t));
        let mut st = owned("Kör ");
        push_str(&mut st, command.as_str());
        push_str(&mut st, "…");
        msgs.push(AppMsg::StatusSet(st));
        msgs.push(AppMsg::CargoRunning(true));
        assert(msg_views(msgs@) =~= start_msgs(command@));
        (CargoRun { command, phase: CargoPhase::Spawning }, msgs, CargoAction::Spawn)
    }

    /// Takes an event and says what to send and what to do next.
    pub fn step(&mut self, e: CargoEvent) -> (r: (Vec<AppMsg>, CargoAction))
        ensures
            final(self).command@ == old(self).command@,
            (final(self).phase, msg_views(r.0@), r.1) == cargo_step(
                old(self).phase,
                old(self).command@,
                e,
            ),
    {
        let ghost e0 = e;
        let mut msgs: Vec<AppMsg> = Vec::new();
        match (self.phase, e) {
            (CargoPhase::Spawning, CargoEvent::Spawned(false)) => {
                msgs.push(AppMsg::Error(owned("Kunde inte starta cargo — är Rust installerat?")));
                msgs.push(AppMsg::CargoRunning(false));
                self.phase = CargoPhase::Done;
                assert(msg_views(msgs@) =~= cargo_step(old(self).phase, self.command@, e0).1);
                (msgs, CargoAction::Stop)
            },
            (CargoPhase::Spawning, CargoEvent::Spawned(true)) => {
                self.phase = CargoPhase::ReadingStderr;
                assert(msg_views(msgs@) =~= Seq::<MsgView>::empty());
                (msgs, CargoAction::ReadStderr)
            },
            (CargoPhase::ReadingStderr, CargoEvent::StderrLine(Some(l))) => {
                msgs.push(sys_chat(colorize_cargo_line(l.as_str())));
                assert(msg_views(msgs@) =~= seq![sys_msg(colorized(l@))]);
                (msgs, CargoAction::ReadStderr)
            },
            (CargoPhase::ReadingStderr, CargoEvent::StderrLine(None)) => {
                self.phase = CargoPhase::ReadingStdout;
                assert(msg_views(msgs@) =~= Seq::<MsgView>::empty());
                (msgs, CargoAction::ReadStdout)
            },
            (CargoPhase::ReadingStdout, CargoEvent::StdoutLine(Some(l))) => {
                let ghost lv = l@;
                msgs.push(sys_chat(l));
                assert(msg_views(msgs@) =~= seq![sys_msg(lv)]);
                (msgs, CargoAction::ReadStdout)
            },
            (CargoPhase::ReadingStdout, CargoEvent::StdoutLine(None)) => {
                self.phase = CargoPhase::Waiting;
                assert(msg_views(msgs@) =~= Seq::<MsgView>::empty());
                (msgs, CargoAction::Wait)
            },
            (CargoPhase::Waiting, CargoEvent::Exited(ok)) => {
                let mut t = if ok {
                    owned("✅ ")
                } else {
                    owned("❌ ")
                };
                push_str(&mut t, self.command.as_str());
                if ok {
                    push_str(&mut t, " klar");
                } else {
                    push_str(&mut t, " misslyckades");
                }
                msgs.push(sys_chat(t));
                msgs.push(
                    AppMsg::StatusSet(
                        if ok {
                            owned("Klar ✓")
                        } else {
                            owned("Byggfel ✗")
                        },
                    ),
                );
                msgs.push(AppMsg::CargoRunning(false));
                self.phase = CargoPhase::Done;
                assert(msg_views(msgs@) =~= finish_msgs(self.command@, ok));
                (msgs, CargoAction::Stop)
            },
            _ => {
                assert(msg_views(msgs@) =~= Seq::<MsgView>::empty());
                let a = match self.phase {
                    CargoPhase::Spawning => CargoAction::Spawn,
                    CargoPhase::ReadingStderr => CargoAction::ReadStderr,
                    CargoPhase::ReadingStdout => CargoAction::ReadStdout,
                    CargoPhase::Waiting => CargoAction::Wait,
                    CargoPhase::Done => CargoAction::Stop,
                };
                (msgs, a)
            },
        }
    }
}

} // verus!
