//! Version control of a project directory through system Git. Each operation is a
//! step function: given what its earlier steps reported, it names the next thing to
//! run (a Git command or a file update) or gives the operation's result. Running
//! the commands and touching files is the caller's part.

use vstd::prelude::*;

use crate::text::{
    char_is_whitespace, chars_of, decimal, is_whitespace, push_decimal, push_str, string_from_chars,
};

verus! {

/// Error returned by version-control operations.
#[derive(Debug, PartialEq, Eq)]
pub enum VcsError {
    /// Filesystem failure, with its message.
    Io(String),
    /// Git command failed.
    Git {
        /// Command that failed.
        command: String,
        /// Exit code when available.
        code: Option<i32>,
        /// Standard error output.
        stderr: String,
    },
}

pub enum VcsErrorView {
    Io(Seq<char>),
    Git { command: Seq<char>, code: Option<i32>, stderr: Seq<char> },
}

impl View for VcsError {
    type V = VcsErrorView;

    open spec fn view(&self) -> VcsErrorView {
        match self {
            VcsError::Io(m) => VcsErrorView::Io(m@),
            VcsError::Git { command, code, stderr } => VcsErrorView::Git {
                command: command@,
                code: *code,
                stderr: stderr@,
            },
        }
    }
}

impl Clone for VcsError {
    fn clone(&self) -> (r: Self)
        ensures
            r@ == self@,
    {
        match self {
            VcsError::Io(m) => VcsError::Io(m.clone()),
            VcsError::Git { command, code, stderr } => VcsError::Git {
                command: command.clone(),
                code: *code,
                stderr: stderr.clone(),
            },
        }
    }
}

// ---------------------------------------------------------------------------
// Text
// ---------------------------------------------------------------------------

/// Decimal text of a signed number.
pub open spec fn signed_decimal(n: int) -> Seq<char> {
    if n < 0 { seq!['-'] + decimal((-n) as nat) } else { decimal(n as nat) }
}

/// Text with leading whitespace removed.
pub open spec fn trim_start(s: Seq<char>) -> Seq<char>
    decreases s.len(),
{
    if s.len() > 0 && is_whitespace(s[0]) { trim_start(s.drop_first()) } else { s }
}

/// Text with trailing whitespace removed.
pub open spec fn trim_end(s: Seq<char>) -> Seq<char>
    decreases s.len(),
{
    if s.len() > 0 && is_whitespace(s.last()) { trim_end(s.drop_last()) } else { s }
}

/// Text with whitespace removed at both ends, as `str::trim` does.
pub open spec fn trim_spec(s: Seq<char>) -> Seq<char> {
    trim_end(trim_start(s))
}

proof fn lemma_trim_start_at(s: Seq<char>, a: int)
    requires
        0 <= a <= s.len(),
        forall|j: int| 0 <= j < a ==> is_whitespace(#[trigger] s[j]),
        a == s.len() || !is_whitespace(s[a]),
    ensures
        trim_start(s) == s.subrange(a, s.len() as int),
    decreases a,
{
    if a == 0 {
        assert(s.subrange(0, s.len() as int) =~= s);
    } else {
        let d = s.drop_first();
        assert forall|j: int| 0 <= j < a - 1 implies is_whitespace(#[trigger] d[j]) by {
            assert(d[j] == s[j + 1]);
        }
        if a < s.len() {
            assert(d[a - 1] == s[a]);
        }
        lemma_trim_start_at(d, a - 1);
        assert(d.subrange(a - 1, d.len() as int) =~= s.subrange(a, s.len() as int));
    }
}

proof fn lemma_trim_end_at(s: Seq<char>, b: int)
    requires
        0 <= b <= s.len(),
        forall|j: int| b <= j < s.len() ==> is_whitespace(#[trigger] s[j]),
        b == 0 || !is_whitespace(s[b - 1]),
    ensures
        trim_end(s) == s.subrange(0, b),
    decreases s.len() - b,
{
    if b == s.len() {
        assert(s.subrange(0, b) =~= s);
    } else {
        let d = s.drop_last();
        assert forall|j: int| b <= j < d.len() implies is_whitespace(#[trigger] d[j]) by {
            assert(d[j] == s[j]);
        }
        if b > 0 {
            assert(d[b - 1] == s[b - 1]);
        }
        lemma_trim_end_at(d, b);
        assert(d.subrange(0, b) =~= s.subrange(0, b));
    }
}

/// Remove whitespace at both ends of a text.
pub fn trim(s: &str) -> (r: String)
    ensures
        r@ == trim_spec(s@),
{
    let chars = chars_of(s);
    let mut a: usize = 0;
    while a < chars.len() && char_is_whitespace(chars[a])
        invariant
            a <= chars@.len(),
            chars@ == s@,
            forall|j: int| 0 <= j < a ==> is_whitespace(#[trigger] chars@[j]),
        decreases chars@.len() - a,
    {
        a = a + 1;
    }
    proof {
        lemma_trim_start_at(chars@, a as int);
    }
    let ghost t = chars@.subrange(a as int, chars@.len() as int);
    let mut b: usize = chars.len();
    while b > a && char_is_whitespace(chars[b - 1])
        invariant
            a <= b <= chars@.len(),
            chars@ == s@,
            t == chars@.subrange(a as int, chars@.len() as int),
            forall|j: int| b <= j < chars@.len() ==> is_whitespace(#[trigger] chars@[j]),
        decreases b - a,
    {
        b = b - 1;
    }
    proof {
        assert forall|j: int| b - a <= j < t.len() implies is_whitespace(#[trigger] t[j]) by {
            assert(t[j] == chars@[j + a]);
        }
        if b > a {
            assert(t[b - a - 1] == chars@[b - 1]);
        }
        lemma_trim_end_at(t, b - a);
        assert(t.subrange(0, b - a) =~= chars@.subrange(a as int, b as int));
    }
    let mut out: Vec<char> = Vec::new();
    let mut i = a;
    while i < b
        invariant
            a <= i <= b <= chars@.len(),
            out@ == chars@.subrange(a as int, i as int),
        decreases b - i,
    {
        out.push(chars[i]);
        i = i + 1;
        assert(out@ =~= chars@.subrange(a as int, i as int));
    }
    string_from_chars(&out)
}

/// A line without the carriage return that ended it, if any.
pub open spec fn strip_cr(line: Seq<char>) -> Seq<char> {
    if line.len() > 0 && line.last() == '\r' { line.drop_last() } else { line }
}

/// The lines of `s[i..]`, as `str::lines` gives them, after lines `acc` and with the
/// text `cur` already read into the current line: a line ends at `\n` (its `\r` before
/// the `\n` dropped), and a last line without `\n` counts unless it is empty.
pub open spec fn lines_from(s: Seq<char>, i: int, cur: Seq<char>, acc: Seq<Seq<char>>) -> Seq<Seq<char>>
    decreases s.len() - i,
{
    if i >= s.len() {
        if cur.len() > 0 { acc.push(cur) } else { acc }
    } else if s[i] == '\n' {
        lines_from(s, i + 1, seq![], acc.push(strip_cr(cur)))
    } else {
        lines_from(s, i + 1, cur.push(s[i]), acc)
    }
}

/// The lines of a text.
pub open spec fn lines_spec(s: Seq<char>) -> Seq<Seq<char>> {
    lines_from(s, 0, seq![], seq![])
}

pub open spec fn strings_view(v: Seq<String>) -> Seq<Seq<char>> {
    v.map_values(|x: String| x@)
}

fn strip_cr_vec(cur: &Vec<char>) -> (r: String)
    ensures
        r@ == strip_cr(cur@),
{
    if cur.len() > 0 && cur[cur.len() - 1] == '\r' {
        let mut v: Vec<char> = Vec::new();
        let mut i: usize = 0;
        while i < cur.len() - 1
            invariant
                cur@.len() > 0,
                i <= cur@.len() - 1,
                v@ == cur@.subrange(0, i as int),
            decreases cur@.len() - 1 - i,
        {
            v.push(cur[i]);
            i = i + 1;
            assert(v@ =~= cur@.subrange(0, i as int));
        }
        assert(v@ =~= cur@.drop_last());
        string_from_chars(&v)
    } else {
        string_from_chars(cur)
    }
}

/// The lines of a command's output.
pub fn stdout_lines(text: &str) -> (lines: Vec<String>)
    ensures
        strings_view(lines@) == lines_spec(text@),
{
    let chars = chars_of(text);
    let mut acc: Vec<String> = Vec::new();
    let mut cur: Vec<char> = Vec::new();
    let mut i: usize = 0;
    assert(strings_view(acc@) =~= Seq::<Seq<char>>::empty());
    assert(cur@ =~= Seq::<char>::empty());
    assert(chars@ == text@);
    while i < chars.len()
        invariant
            i <= chars@.len(),
            chars@ == text@,
            lines_from(chars@, i as int, cur@, strings_view(acc@)) == lines_spec(text@),
        decreases chars@.len() - i,
    {
        if chars[i] == '\n' {
            let line = strip_cr_vec(&cur);
            let ghost before = strings_view(acc@);
            acc.push(line);
            assert(strings_view(acc@) =~= before.push(strip_cr(cur@)));
            cur = Vec::new();
            assert(cur@ =~= Seq::<char>::empty());
        } else {
            cur.push(chars[i]);
        }
        i = i + 1;
    }
    if cur.len() > 0 {
        let ghost before = strings_view(acc@);
        acc.push(string_from_chars(&cur));
        assert(strings_view(acc@) =~= before.push(cur@));
    }
    acc
}

/// The text of a failed Git command, as it is shown to the user.
pub open spec fn vcs_error_text(e: VcsErrorView) -> Seq<char> {
    match e {
        VcsErrorView::Io(m) => m,
        VcsErrorView::Git { command, code, stderr } => {
            let head = "git command failed: "@ + command;
            let with_code = match code {
                Some(c) => head + " (exit code "@ + signed_decimal(c as int) + ")"@,
                None => head,
            };
            let detail = trim_spec(stderr);
            if detail.len() == 0 { with_code } else { with_code + "\n"@ + detail }
        },
    }
}

fn push_signed(out: &mut Vec<char>, n: i32)
    ensures
        final(out)@ == old(out)@ + signed_decimal(n as int),
{
    if n < 0 {
        out.push('-');
        let m: u128 = if n == i32::MIN { 2147483648 } else { (-n) as u128 };
        push_decimal(out, m);
        assert(out@ =~= old(out)@ + signed_decimal(n as int));
    } else {
        push_decimal(out, n as u128);
    }
}

impl VcsError {
    /// The error's text.
    pub fn message(&self) -> (s: String)
        ensures
            s@ == vcs_error_text(self@),
    {
        match self {
            VcsError::Io(m) => m.clone(),
            VcsError::Git { command, code, stderr } => {
                let mut out: Vec<char> = Vec::new();
                push_str(&mut out, "git command failed: ");
                push_str(&mut out, command.as_str());
                match code {
                    Some(c) => {
                        push_str(&mut out, " (exit code ");
                        push_signed(&mut out, *c);
                        push_str(&mut out, ")");
                    },
                    None => {},
                }
                let detail = trim(stderr.as_str());
                if detail.as_str().is_empty() {
                } else {
                    push_str(&mut out, "\n");
                    push_str(&mut out, detail.as_str());
                }
                assert(out@ =~= vcs_error_text(self@));
                string_from_chars(&out)
            },
        }
    }
}

// ---------------------------------------------------------------------------
// Repository files
// ---------------------------------------------------------------------------

/// Text of a fresh `.gitignore`: generated files stay out of version control.
pub const GITIGNORE: &'static str = "cache/\nexports/\n.DS_Store\n";

/// Git LFS tracking rules for large media files, written to `.gitattributes`.
pub const LFS_ATTRIBUTES: &'static str = "*.wav filter=lfs diff=lfs merge=lfs -text\n*.aif filter=lfs diff=lfs merge=lfs -text\n*.aiff filter=lfs diff=lfs merge=lfs -text\n*.flac filter=lfs diff=lfs merge=lfs -text\n*.mp3 filter=lfs diff=lfs merge=lfs -text\n";

/// The text with `line` and a newline appended, unless one of its lines already is `line`.
pub open spec fn add_missing_line(text: Seq<char>, line: Seq<char>) -> Seq<char> {
    if lines_spec(text).contains(line) { text } else { text + line + "\n"@ }
}

/// The `.gitignore` text to write: the fresh text when there is none yet, otherwise the
/// existing text with each required entry appended where it is missing.
pub open spec fn merge_gitignore_spec(existing: Option<Seq<char>>) -> Seq<char> {
    match existing {
        None => GITIGNORE@,
        Some(t) => add_missing_line(add_missing_line(add_missing_line(t, "cache/"@), "exports/"@), ".DS_Store"@),
    }
}

fn has_line(text: &str, line: &str) -> (b: bool)
    ensures
        b == lines_spec(text@).contains(line@),
{
    let lines = stdout_lines(text);
    let ghost ls = strings_view(lines@);
    let mut i: usize = 0;
    while i < lines.len()
        invariant
            i <= lines@.len(),
            ls == strings_view(lines@),
            ls == lines_spec(text@),
            forall|j: int| 0 <= j < i ==> ls[j] != line@,
        decreases lines@.len() - i,
    {
        if crate::text::str_eq(lines[i].as_str(), line) {
            assert(ls[i as int] == line@);
            return true;
        }
        i = i + 1;
    }
    false
}

fn append_missing(text: String, line: &str) -> (r: String)
    ensures
        r@ == add_missing_line(text@, line@),
{
    if has_line(text.as_str(), line) {
        text
    } else {
        let mut out: Vec<char> = Vec::new();
        push_str(&mut out, text.as_str());
        push_str(&mut out, line);
        push_str(&mut out, "\n");
        string_from_chars(&out)
    }
}

/// The `.gitignore` text for a project, given the current file's text if there is one.
pub fn merge_gitignore(existing: Option<&str>) -> (r: String)
    ensures
        r@ == merge_gitignore_spec(
            match existing {
                Some(t) => Some(t@),
                None => None,
            },
        ),
{
    match existing {
        None => GITIGNORE.to_owned(),
        Some(t) => {
            let a = append_missing(t.to_owned(), "cache/");
            let b = append_missing(a, "exports/");
            append_missing(b, ".DS_Store")
        },
    }
}

// ---------------------------------------------------------------------------
// Operations
// ---------------------------------------------------------------------------

/// Git status summary for a project repository.
#[derive(Debug, PartialEq, Eq)]
pub struct GitStatus {
    /// True when the project directory has a Git repository.
    pub repository_exists: bool,
    /// Short status lines reported by Git.
    pub lines: Vec<String>,
}

#[verifier::ext_equal]
pub struct GitStatusView {
    pub repository_exists: bool,
    pub lines: Seq<Seq<char>>,
}

impl View for GitStatus {
    type V = GitStatusView;

    open spec fn view(&self) -> GitStatusView {
        GitStatusView { repository_exists: self.repository_exists, lines: strings_view(self.lines@) }
    }
}

/// Remote repository configuration.
#[derive(Debug, PartialEq, Eq)]
pub struct GitRemote {
    /// Remote name, commonly `origin`.
    pub name: String,
    /// Remote URL. SSH and HTTPS remotes are both left to system Git.
    pub url: String,
}

pub struct GitRemoteView {
    pub name: Seq<char>,
    pub url: Seq<char>,
}

impl View for GitRemote {
    type V = GitRemoteView;

    open spec fn view(&self) -> GitRemoteView {
        GitRemoteView { name: self.name@, url: self.url@ }
    }
}

/// What an operation asks to be done next.
#[derive(Debug, PartialEq, Eq)]
pub enum GitAction {
    /// Check whether the project directory holds a `.git` directory.
    CheckRepository,
    /// Run `git` with these arguments in the project directory.
    Run(Vec<String>),
    /// Write the text `merge_gitignore` gives for the current `.gitignore`.
    EnsureGitignore,
    /// Write `LFS_ATTRIBUTES` to `.gitattributes`.
    WriteLfsAttributes,
}

pub enum GitActionView {
    CheckRepository,
    Run(Seq<Seq<char>>),
    EnsureGitignore,
    WriteLfsAttributes,
}

impl View for GitAction {
    type V = GitActionView;

    open spec fn view(&self) -> GitActionView {
        match self {
            GitAction::CheckRepository => GitActionView::CheckRepository,
            GitAction::Run(args) => GitActionView::Run(strings_view(args@)),
            GitAction::EnsureGitignore => GitActionView::EnsureGitignore,
            GitAction::WriteLfsAttributes => GitActionView::WriteLfsAttributes,
        }
    }
}

/// What came of an action.
#[derive(Debug, PartialEq, Eq)]
pub enum GitEvent {
    /// Whether the repository exists.
    Repository(bool),
    /// The command succeeded with this standard output.
    Output(String),
    /// The command or the file update failed.
    Failed(VcsError),
    /// The file update succeeded.
    Written,
}

pub enum GitEventView {
    Repository(bool),
    Output(Seq<char>),
    Failed(VcsErrorView),
    Written,
}

impl View for GitEvent {
    type V = GitEventView;

    open spec fn view(&self) -> GitEventView {
        match self {
            GitEvent::Repository(b) => GitEventView::Repository(*b),
            GitEvent::Output(o) => GitEventView::Output(o@),
            GitEvent::Failed(e) => GitEventView::Failed(e@),
            GitEvent::Written => GitEventView::Written,
        }
    }
}

pub open spec fn events_view(v: Seq<GitEvent>) -> Seq<GitEventView> {
    v.map_values(|e: GitEvent| e@)
}

/// The next action, or the operation's result.
#[derive(Debug, PartialEq, Eq)]
pub enum GitStep<T> {
    Next(GitAction),
    Finished(Result<T, VcsError>),
}

pub enum GitStepView<V> {
    Next(GitActionView),
    Finished(Result<V, VcsErrorView>),
}

impl<T: View> View for GitStep<T> {
    type V = GitStepView<T::V>;

    open spec fn view(&self) -> GitStepView<T::V> {
        match self {
            GitStep::Next(a) => GitStepView::Next(a@),
            GitStep::Finished(Ok(v)) => GitStepView::Finished(Ok(v@)),
            GitStep::Finished(Err(e)) => GitStepView::Finished(Err(e@)),
        }
    }
}

/// The standard output an event reports; empty for any other event.
pub open spec fn output_of(e: GitEventView) -> Seq<char> {
    match e {
        GitEventView::Output(o) => o,
        _ => seq![],
    }
}

pub open spec fn run<V>(args: Seq<Seq<char>>) -> GitStepView<V> {
    GitStepView::Next(GitActionView::Run(args))
}

pub open spec fn failed<V>(e: GitEventView) -> GitStepView<V> {
    GitStepView::Finished(Err(e->Failed_0))
}

fn failure_of(e: &GitEvent) -> (r: Option<VcsError>)
    ensures
        match e@ {
            GitEventView::Failed(x) => r matches Some(y) && y@ == x,
            _ => r is None,
        },
{
    match e {
        GitEvent::Failed(x) => Some(x.clone()),
        _ => None,
    }
}

fn output_text(e: &GitEvent) -> (r: String)
    ensures
        r@ == output_of(e@),
{
    match e {
        GitEvent::Output(o) => o.clone(),
        _ => String::new(),
    }
}

fn args1(a: &str) -> (v: Vec<String>)
    ensures
        strings_view(v@) == seq![a@],
{
    let v = vec![a.to_owned()];
    assert(strings_view(v@) =~= seq![a@]);
    v
}

fn args2(a: &str, b: &str) -> (v: Vec<String>)
    ensures
        strings_view(v@) == seq![a@, b@],
{
    let v = vec![a.to_owned(), b.to_owned()];
    assert(strings_view(v@) =~= seq![a@, b@]);
    v
}

fn args4(a: &str, b: &str, c: &str, d: &str) -> (v: Vec<String>)
    ensures
        strings_view(v@) == seq![a@, b@, c@, d@],
{
    let v = vec![a.to_owned(), b.to_owned(), c.to_owned(), d.to_owned()];
    assert(strings_view(v@) =~= seq![a@, b@, c@, d@]);
    v
}

/// Steps of `init_git`: `git init`, then `.gitignore`, then `git lfs version`, and the
/// LFS attributes only when that succeeds.
pub open spec fn init_git_spec(ev: Seq<GitEventView>) -> GitStepView<()> {
    if ev.len() == 0 {
        run(seq!["init"@])
    } else if ev[0] is Failed {
        failed(ev[0])
    } else if ev.len() == 1 {
        GitStepView::Next(GitActionView::EnsureGitignore)
    } else if ev[1] is Failed {
        failed(ev[1])
    } else if ev.len() == 2 {
        run(seq!["lfs"@, "version"@])
    } else if ev[2] is Failed {
        GitStepView::Finished(Ok(()))
    } else if ev.len() == 3 {
        GitStepView::Next(GitActionView::WriteLfsAttributes)
    } else if ev[3] is Failed {
        failed(ev[3])
    } else {
        GitStepView::Finished(Ok(()))
    }
}

/// Initialize a Git repository for a project: the next step given the events so far.
pub fn init_git(events: &Vec<GitEvent>) -> (r: GitStep<()>)
    ensures
        r@ == init_git_spec(events_view(events@)),
{
    let n = events.len();
    if n == 0 {
        return GitStep::Next(GitAction::Run(args1("init")));
    }
    if let Some(e) = failure_of(&events[0]) {
        return GitStep::Finished(Err(e));
    }
    if n == 1 {
        return GitStep::Next(GitAction::EnsureGitignore);
    }
    if let Some(e) = failure_of(&events[1]) {
        return GitStep::Finished(Err(e));
    }
    if n == 2 {
        return GitStep::Next(GitAction::Run(args2("lfs", "version")));
    }
    if failure_of(&events[2]).is_some() {
        return GitStep::Finished(Ok(()));
    }
    if n == 3 {
        return GitStep::Next(GitAction::WriteLfsAttributes);
    }
    if let Some(e) = failure_of(&events[3]) {
        return GitStep::Finished(Err(e));
    }
    GitStep::Finished(Ok(()))
}

/// Steps of `add_remote`: list the remotes, then set the URL of the remote with this
/// name if there is one, or add it.
pub open spec fn add_remote_spec(name: Seq<char>, url: Seq<char>, ev: Seq<GitEventView>) -> GitStepView<
    GitRemoteView,
> {
    if ev.len() == 0 {
        run(seq!["remote"@])
    } else if ev[0] is Failed {
        failed(ev[0])
    } else if ev.len() == 1 {
        if lines_spec(output_of(ev[0])).contains(name) {
            run(seq!["remote"@, "set-url"@, name, url])
        } else {
            run(seq!["remote"@, "add"@, name, url])
        }
    } else if ev[1] is Failed {
        failed(ev[1])
    } else {
        GitStepView::Finished(Ok(GitRemoteView { name, url }))
    }
}

/// Add or update a Git remote: the next step given the events so far.
pub fn add_remote(name: &str, url: &str, events: &Vec<GitEvent>) -> (r: GitStep<GitRemote>)
    ensures
        r@ == add_remote_spec(name@, url@, events_view(events@)),
{
    let n = events.len();
    if n == 0 {
        return GitStep::Next(GitAction::Run(args1("remote")));
    }
    if let Some(e) = failure_of(&events[0]) {
        return GitStep::Finished(Err(e));
    }
    if n == 1 {
        let remotes = output_text(&events[0]);
        if has_line(remotes.as_str(), name) {
            return GitStep::Next(GitAction::Run(args4("remote", "set-url", name, url)));
        } else {
            return GitStep::Next(GitAction::Run(args4("remote", "add", name, url)));
        }
    }
    if let Some(e) = failure_of(&events[1]) {
        return GitStep::Finished(Err(e));
    }
    GitStep::Finished(Ok(GitRemote { name: name.to_owned(), url: url.to_owned() }))
}

/// Steps of `status`: check for the repository, then read `git status --short`.
pub open spec fn status_spec(ev: Seq<GitEventView>) -> GitStepView<GitStatusView> {
    if ev.len() == 0 {
        GitStepView::Next(GitActionView::CheckRepository)
    } else if !(ev[0] matches GitEventView::Repository(true)) {
        GitStepView::Finished(Ok(GitStatusView { repository_exists: false, lines: seq![] }))
    } else if ev.len() == 1 {
        run(seq!["status"@, "--short"@])
    } else if ev[1] is Failed {
        failed(ev[1])
    } else {
        GitStepView::Finished(
            Ok(GitStatusView { repository_exists: true, lines: lines_spec(output_of(ev[1])) }),
        )
    }
}

/// Read the Git status of a project: the next step given the events so far.
pub fn status(events: &Vec<GitEvent>) -> (r: GitStep<GitStatus>)
    ensures
        r@ == status_spec(events_view(events@)),
{
    let n = events.len();
    if n == 0 {
        return GitStep::Next(GitAction::CheckRepository);
    }
    let exists = match &events[0] {
        GitEvent::Repository(b) => *b,
        _ => false,
    };
    if !exists {
        let lines: Vec<String> = Vec::new();
        let st = GitStatus { repository_exists: false, lines };
        assert(st@ =~= (GitStatusView { repository_exists: false, lines: seq![] }));
        return GitStep::Finished(Ok(st));
    }
    if n == 1 {
        return GitStep::Next(GitAction::Run(args2("status", "--short")));
    }
    if let Some(e) = failure_of(&events[1]) {
        return GitStep::Finished(Err(e));
    }
    let out = output_text(&events[1]);
    GitStep::Finished(Ok(GitStatus { repository_exists: true, lines: stdout_lines(out.as_str()) }))
}

/// The arguments that commit all staged changes with a message.
pub open spec fn commit_args(message: Seq<char>) -> Seq<Seq<char>> {
    seq![
        "-c"@,
        "user.name=DAW"@,
        "-c"@,
        "user.email=daw@example.invalid"@,
        "commit"@,
        "-m"@,
        message,
    ]
}

/// Steps of `commit`: stage everything, then commit.
pub open spec fn commit_spec(message: Seq<char>, ev: Seq<GitEventView>) -> GitStepView<()> {
    if ev.len() == 0 {
        run(seq!["add"@, "."@])
    } else if ev[0] is Failed {
        failed(ev[0])
    } else if ev.len() == 1 {
        run(commit_args(message))
    } else if ev[1] is Failed {
        failed(ev[1])
    } else {
        GitStepView::Finished(Ok(()))
    }
}

/// Commit all project changes: the next step given the events so far.
pub fn commit(message: &str, events: &Vec<GitEvent>) -> (r: GitStep<()>)
    ensures
        r@ == commit_spec(message@, events_view(events@)),
{
    let n = events.len();
    if n == 0 {
        return GitStep::Next(GitAction::Run(args2("add", ".")));
    }
    if let Some(e) = failure_of(&events[0]) {
        return GitStep::Finished(Err(e));
    }
    if n == 1 {
        let v = vec![
            "-c".to_owned(),
            "user.name=DAW".to_owned(),
            "-c".to_owned(),
            "user.email=daw@example.invalid".to_owned(),
            "commit".to_owned(),
            "-m".to_owned(),
            message.to_owned(),
        ];
        assert(strings_view(v@) =~= commit_args(message@));
        return GitStep::Next(GitAction::Run(v));
    }
    if let Some(e) = failure_of(&events[1]) {
        return GitStep::Finished(Err(e));
    }
    GitStep::Finished(Ok(()))
}

/// Steps of an operation that runs one command.
pub open spec fn single_spec(args: Seq<Seq<char>>, ev: Seq<GitEventView>) -> GitStepView<()> {
    if ev.len() == 0 {
        run(args)
    } else if ev[0] is Failed {
        failed(ev[0])
    } else {
        GitStepView::Finished(Ok(()))
    }
}

fn single(args: Vec<String>, events: &Vec<GitEvent>) -> (r: GitStep<()>)
    ensures
        r@ == single_spec(strings_view(args@), events_view(events@)),
{
    if events.len() == 0 {
        return GitStep::Next(GitAction::Run(args));
    }
    if let Some(e) = failure_of(&events[0]) {
        return GitStep::Finished(Err(e));
    }
    GitStep::Finished(Ok(()))
}

/// Push a branch to a remote and track it: the next step given the events so far.
pub fn push(remote: &str, branch: &str, events: &Vec<GitEvent>) -> (r: GitStep<()>)
    ensures
        r@ == single_spec(seq!["push"@, "-u"@, remote@, branch@], events_view(events@)),
{
    single(args4("push", "-u", remote, branch), events)
}

/// Fast-forward a branch from a remote: the next step given the events so far.
pub fn pull(remote: &str, branch: &str, events: &Vec<GitEvent>) -> (r: GitStep<()>)
    ensures
        r@ == single_spec(seq!["pull"@, "--ff-only"@, remote@, branch@], events_view(events@)),
{
    single(args4("pull", "--ff-only", remote, branch), events)
}

/// Steps of `current_branch`: ask Git, and trim its answer.
pub open spec fn current_branch_spec(ev: Seq<GitEventView>) -> GitStepView<Seq<char>> {
    if ev.len() == 0 {
        run(seq!["branch"@, "--show-current"@])
    } else if ev[0] is Failed {
        failed(ev[0])
    } else {
        GitStepView::Finished(Ok(trim_spec(output_of(ev[0]))))
    }
}

/// The checked-out branch: the next step given the events so far.
pub fn current_branch(events: &Vec<GitEvent>) -> (r: GitStep<String>)
    ensures
        r@ == current_branch_spec(events_view(events@)),
{
    if events.len() == 0 {
        return GitStep::Next(GitAction::Run(args2("branch", "--show-current")));
    }
    if let Some(e) = failure_of(&events[0]) {
        return GitStep::Finished(Err(e));
    }
    let out = output_text(&events[0]);
    GitStep::Finished(Ok(trim(out.as_str())))
}

/// Steps of `git_lfs_available`: true when `git lfs version` succeeds.
pub open spec fn lfs_available_spec(ev: Seq<GitEventView>) -> GitStepView<bool> {
    if ev.len() == 0 {
        run(seq!["lfs"@, "version"@])
    } else {
        GitStepView::Finished(Ok(!(ev[0] is Failed)))
    }
}

/// Whether Git LFS is available: the next step given the events so far.
pub fn git_lfs_available(events: &Vec<GitEvent>) -> (r: GitStep<bool>)
    ensures
        r@ == lfs_available_spec(events_view(events@)),
{
    if events.len() == 0 {
        return GitStep::Next(GitAction::Run(args2("lfs", "version")));
    }
    GitStep::Finished(Ok(failure_of(&events[0]).is_none()))
}

/// The text of a Git command line, as error messages name it.
pub open spec fn command_line_spec(args: Seq<Seq<char>>) -> Seq<char>
    decreases args.len(),
{
    if args.len() == 0 {
        "git"@
    } else {
        command_line_spec(args.drop_last()) + " "@ + args.last()
    }
}

/// `git` followed by the arguments, separated by spaces.
pub fn git_command_line(args: &Vec<String>) -> (s: String)
    ensures
        s@ == command_line_spec(strings_view(args@)),
{
    let ghost a = strings_view(args@);
    let mut out: Vec<char> = Vec::new();
    push_str(&mut out, "git");
    let mut i: usize = 0;
    while i < args.len()
        invariant
            i <= args@.len(),
            a == strings_view(args@),
            out@ == command_line_spec(a.subrange(0, i as int)),
        decreases args@.len() - i,
    {
        push_str(&mut out, " ");
        push_str(&mut out, args[i].as_str());
        proof {
            let sub = a.subrange(0, i + 1);
            assert(sub.drop_last() =~= a.subrange(0, i as int));
            assert(sub.last() == a[i as int]);
        }
        i = i + 1;
    }
    assert(a.subrange(0, i as int) =~= a);
    string_from_chars(&out)
}

} // verus!
