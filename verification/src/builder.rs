//! Building with cargo: its arguments, its progress, and the program that it
//! made.
use crate::bytes::{lossy, utf8_lossy};
use crate::git::{arguments, captured, result_text, run_capture, CommandReply, ReplyText};
use crate::json::{json_of_text, parse_text, Json, JsonTree};
use crate::numbers::{
    decimal, is_digit, lemma_decimal_reads_back, parse_number, parse_unsigned,
};
use crate::paths::{joined, law_same_part_keeps_apart, same_place};
use crate::progress::unbroken;
use crate::text::{
    begins_with, cat3, cat4, chars_of, contains_text, find_char, is_white_space,
    lemma_find_char_is, lines, lines_of, occurs_at, occurs_in, position, repeat_char, replace_char,
    replace_text, same_text, slices, split_text, starts_with, string_of, texts,
    trim, trim_start, trim_start_text, trim_text, words, words_of,
};
use vstd::prelude::*;
use vstd::slice::slice_subrange;
use vstd::utf8::encode_utf8;

verus! {

/// Where cargo puts what it builds of a workspace.
pub fn target_dir(wt_ws_root: &str) -> (r: String)
    ensures
        r@ == joined(wt_ws_root@, "target"@),
{
    crate::paths::join(wt_ws_root, "target")
}

/// Workspaces in different places are built in different places.
pub proof fn law_target_dirs_are_apart(a: Seq<char>, b: Seq<char>)
    requires
        a.len() > 0,
        b.len() > 0,
        !same_place(a, b),
    ensures
        !same_place(joined(a, "target"@), joined(b, "target"@)),
{
    reveal_strlit("target");
    reveal_strlit("/");
    reveal_strlit(".");
    let name = "target"@;
    assert(!begins_with(name, "/"@)) by {
        assert(name.take(1)[0] == 't');
        assert("/"@[0] == '/');
    }
    lemma_find_char_is(name, '/', name.len());
    assert(split_text(name, '/')[0] == name);
    assert(name.len() == 6 && "."@.len() == 1);
    law_same_part_keeps_apart(a, b, name);
}

/// What cargo finds in its environment. The second pair of variables makes it
/// print its progress though no terminal reads it.
pub open spec fn cargo_env_text(root: Seq<char>, meter: bool) -> Seq<(Seq<char>, Seq<char>)> {
    let always = seq![
        ("RUSTFLAGS"@, "-C target-cpu=native"@),
        ("CARGO_TARGET_DIR"@, joined(root, "target"@)),
    ];
    if meter {
        always + seq![
            ("CARGO_TERM_PROGRESS_WHEN"@, "always"@),
            ("CARGO_TERM_PROGRESS_WIDTH"@, "80"@),
        ]
    } else {
        always
    }
}

pub open spec fn pair_texts(list: Seq<(&'static str, String)>) -> Seq<(Seq<char>, Seq<char>)> {
    Seq::new(list.len(), |i: int| (list[i].0@, list[i].1@))
}

pub fn cargo_env(wt_ws_root: &str, meter: bool) -> (r: Vec<(&'static str, String)>)
    ensures
        pair_texts(r@) == cargo_env_text(wt_ws_root@, meter),
{
    let mut out: Vec<(&'static str, String)> = Vec::new();
    out.push(("RUSTFLAGS", "-C target-cpu=native".to_owned()));
    out.push(("CARGO_TARGET_DIR", target_dir(wt_ws_root)));
    if meter {
        out.push(("CARGO_TERM_PROGRESS_WHEN", "always".to_owned()));
        out.push(("CARGO_TERM_PROGRESS_WIDTH", "80".to_owned()));
    }
    assert(pair_texts(out@) =~= cargo_env_text(wt_ws_root@, meter));
    out
}

// ---------------------------------------------------------------------------
// Profiles
// ---------------------------------------------------------------------------

/// The profiles that cargo has of its own.
pub open spec fn is_builtin(profile: Seq<char>) -> bool {
    profile == "release"@ || profile == "dev"@ || profile == "test"@ || profile == "bench"@
}

pub fn builtin_profile(profile: &str) -> (r: bool)
    ensures
        r == is_builtin(profile@),
{
    same_text(profile, "release") || same_text(profile, "dev") || same_text(profile, "test")
        || same_text(profile, "bench")
}

/// The arguments that give cargo a profile: none where the profile is cargo's own
/// or the manifest has a table for it, else one that makes it inherit `release`.
pub open spec fn profile_args(
    root: Seq<char>,
    profile: Seq<char>,
    manifest: Result<Seq<char>, Seq<char>>,
) -> Result<Seq<Seq<char>>, Seq<char>> {
    if is_builtin(profile) {
        Ok(seq![])
    } else {
        match manifest {
            Err(e) => Err("failed to read "@ + joined(root, "Cargo.toml"@) + ": "@ + e),
            Ok(text) => if occurs_in(text, "[profile."@ + profile + "]"@) {
                Ok(seq![])
            } else {
                Ok(seq!["--config"@, "profile."@ + profile + ".inherits=\"release\""@])
            },
        }
    }
}

/// What arguments or an error say.
pub open spec fn args_text(r: Result<Vec<String>, String>) -> Result<Seq<Seq<char>>, Seq<char>> {
    match r {
        Ok(args) => Ok(texts(args@)),
        Err(e) => Err(e@),
    }
}

/// The arguments that give cargo a profile. `manifest` is what was read of the
/// workspace's manifest, or why it could not be read; it does not matter for a
/// profile of cargo's own.
pub fn profile_config_args(wt_ws_root: &str, profile: &str, manifest: &Result<String, String>) -> (r:
    Result<Vec<String>, String>)
    ensures
        args_text(r) == profile_args(wt_ws_root@, profile@, result_text(*manifest)),
{
    let none: Vec<String> = Vec::new();
    assert(texts(none@) =~= seq![]);
    if builtin_profile(profile) {
        return Ok(none);
    }
    match manifest {
        Err(e) => Err(
            cat4("failed to read ", &crate::paths::join(wt_ws_root, "Cargo.toml"), ": ", e),
        ),
        Ok(text) => {
            let table: String = cat3("[profile.", profile, "]");
            if contains_text(text, &table) {
                Ok(none)
            } else {
                let setting: String = cat3("profile.", profile, ".inherits=\"release\"");
                let args: Vec<String> = arguments(&["--config", &setting]);
                assert(texts(args@) =~= seq!["--config"@, setting@]);
                Ok(args)
            }
        },
    }
}

/// One list of arguments behind another.
pub(crate) fn extended(front: Vec<String>, back: Vec<String>) -> (r: Vec<String>)
    ensures
        texts(r@) == texts(front@) + texts(back@),
{
    let mut out: Vec<String> = front;
    let mut rest: Vec<String> = back;
    out.append(&mut rest);
    assert(texts(out@) =~= texts(front@) + texts(back@));
    out
}

pub open spec fn bin_args_text(package: Seq<char>, bin: Seq<char>, profile: Seq<char>) -> Seq<
    Seq<char>,
> {
    seq![
        "build"@,
        "-p"@,
        package,
        "--bin"@,
        bin,
        "--profile"@,
        profile,
        "--message-format=json-render-diagnostics"@,
    ]
}

/// The arguments of cargo that build a program, behind those for its profile.
pub fn build_bin_args(config: Vec<String>, package: &str, bin: &str, profile: &str) -> (r: Vec<
    String,
>)
    ensures
        texts(r@) == texts(config@) + bin_args_text(package@, bin@, profile@),
{
    let back: Vec<String> = arguments(
        &[
            "build",
            "-p",
            package,
            "--bin",
            bin,
            "--profile",
            profile,
            "--message-format=json-render-diagnostics",
        ],
    );
    assert(texts(back@) =~= bin_args_text(package@, bin@, profile@));
    extended(config, back)
}

pub open spec fn bench_args_text(package: Seq<char>, bench: Seq<char>, profile: Seq<char>) -> Seq<
    Seq<char>,
> {
    seq!["bench"@, "-p"@, package, "--bench"@, bench, "--profile"@, profile, "--no-run"@]
}

/// The arguments of cargo that build a benchmark without running it, behind
/// those for its profile.
pub fn build_bench_args(config: Vec<String>, package: &str, bench: &str, profile: &str) -> (r: Vec<
    String,
>)
    ensures
        texts(r@) == texts(config@) + bench_args_text(package@, bench@, profile@),
{
    let back: Vec<String> = arguments(
        &["bench", "-p", package, "--bench", bench, "--profile", profile, "--no-run"],
    );
    assert(texts(back@) =~= bench_args_text(package@, bench@, profile@));
    extended(config, back)
}

/// Whether a benchmark was built, out of how cargo went.
pub fn build_bench(args: &[String], reply: &CommandReply) -> (r: Result<(), String>)
    ensures
        match captured("cargo"@, texts(args@), reply@) {
            Ok(_) => r is Ok,
            Err(e) => r matches Err(text) && text@ == e,
        },
{
    match run_capture("cargo", args, reply) {
        Ok(_) => Ok(()),
        Err(e) => Err(e),
    }
}

// ---------------------------------------------------------------------------
// The program that was built
// ---------------------------------------------------------------------------

/// A name as the compiler writes it: dashes are underscores.
pub open spec fn normal_name(name: Seq<char>) -> Seq<char> {
    replace_text(name, '-', '_')
}

pub fn normalize_name(name: &str) -> (r: String)
    ensures
        r@ == normal_name(name@),
{
    replace_char(name, '-', '_')
}

/// A normal name is its own normal form.
pub proof fn law_normal_name_is_stable(name: Seq<char>)
    ensures
        normal_name(normal_name(name)) == normal_name(name),
{
    assert(normal_name(normal_name(name)) =~= normal_name(name));
}

/// The program that a message of cargo announces for a target, if it is such a
/// message: it is about an artifact, of a target with that normal name, and
/// names an executable.
pub open spec fn artifact_of(message: JsonTree, wanted: Seq<char>) -> Option<Seq<char>> {
    if message.field_text("reason"@) != Some("compiler-artifact"@) {
        None
    } else {
        match message.field("target"@) {
            Some(target) => match target.field_text("name"@) {
                Some(name) if normal_name(name) == wanted => message.field_text("executable"@),
                _ => None,
            },
            None => None,
        }
    }
}

pub fn artifact_path(message: &Json, wanted: &str) -> (r: Option<String>)
    ensures
        match r {
            Some(path) => artifact_of(message.tree(), wanted@) == Some(path@),
            None => artifact_of(message.tree(), wanted@) is None,
        },
{
    match message.text_at("reason") {
        Some(reason) => {
            if !same_text(reason, "compiler-artifact") {
                return None;
            }
        },
        None => {
            return None;
        },
    }
    match message.get("target") {
        None => None,
        Some(target) => match target.text_at("name") {
            None => None,
            Some(name) => {
                if !same_text(&normalize_name(name), wanted) {
                    return None;
                }
                match message.text_at("executable") {
                    Some(path) => Some(path.to_owned()),
                    None => None,
                }
            },
        },
    }
}

/// The program that a line of cargo's output announces.
pub open spec fn line_artifact(line: Seq<char>, wanted: Seq<char>) -> Option<Seq<char>> {
    match json_of_text(line) {
        Ok(message) => artifact_of(message, wanted),
        Err(_) => None,
    }
}

/// The program that the last of the lines announces, among those that announce
/// one.
pub open spec fn last_artifact(lines: Seq<Seq<char>>, wanted: Seq<char>) -> Option<Seq<char>>
    decreases lines.len(),
{
    if lines.len() == 0 {
        None
    } else {
        match line_artifact(lines.last(), wanted) {
            Some(path) => Some(path),
            None => last_artifact(lines.drop_last(), wanted),
        }
    }
}

pub open spec fn built(args: Seq<Seq<char>>, bin: Seq<char>, reply: ReplyText) -> Result<
    Seq<char>,
    Seq<char>,
> {
    match captured("cargo"@, args, reply) {
        Err(e) => Err(e),
        Ok(stdout) => match last_artifact(lines_of(stdout), normal_name(bin)) {
            Some(path) => Ok(path),
            None => Err(
                "build succeeded but no executable artifact found for bin '"@ + bin + "'"@,
            ),
        },
    }
}

/// The program that cargo built, out of how it went with `args`.
pub fn build_bin(args: &[String], bin: &str, reply: &CommandReply) -> (r: Result<String, String>)
    ensures
        result_text(r) == built(texts(args@), bin@, reply@),
{
    let stdout: String = match run_capture("cargo", args, reply) {
        Ok(stdout) => stdout,
        Err(e) => {
            return Err(e);
        },
    };
    let wanted: String = normalize_name(bin);
    let chars: Vec<char> = chars_of(&stdout);
    let all: Vec<&[char]> = lines(&chars);
    let ghost goal = lines_of(stdout@);
    let mut i: usize = all.len();
    assert(goal.take(i as int) =~= goal);
    while i > 0
        invariant
            i <= all@.len(),
            goal == slices(all@),
            last_artifact(goal, wanted@) == last_artifact(goal.take(i as int), wanted@),
            wanted@ == normal_name(bin@),
            captured("cargo"@, texts(args@), reply@) == Ok::<Seq<char>, Seq<char>>(stdout@),
            goal == lines_of(stdout@),
        decreases i,
    {
        i = i - 1;
        assert(goal.take(i + 1).last() == all@[i as int]@);
        assert(goal.take(i + 1).drop_last() =~= goal.take(i as int));
        if let Ok(message) = parse_text(&string_of(all[i])) {
            if let Some(path) = artifact_path(&message, &wanted) {
                return Ok(path);
            }
        }
    }
    Err(cat3("build succeeded but no executable artifact found for bin '", bin, "'"))
}

// ---------------------------------------------------------------------------
// What cargo prints while it builds
// ---------------------------------------------------------------------------

/// A line of cargo's.
pub enum BuildLine {
    /// Its progress: so many crates of so many.
    Progress { done: u64, total: u64 },
    /// What it is doing.
    Status(String),
    /// A warning.
    Warning,
    /// Anything else.
    Other,
}

/// What a `BuildLine` says.
pub ghost enum BuildText {
    Progress(nat, nat),
    Status(Seq<char>),
    Warning,
    Other,
}

impl View for BuildLine {
    type V = BuildText;

    open spec fn view(&self) -> BuildText {
        match *self {
            BuildLine::Progress { done, total } => BuildText::Progress(done as nat, total as nat),
            BuildLine::Status(text) => BuildText::Status(text@),
            BuildLine::Warning => BuildText::Warning,
            BuildLine::Other => BuildText::Other,
        }
    }
}

/// `s` without colons at its end.
pub open spec fn without_colons(s: Seq<char>) -> Seq<char>
    decreases s.len(),
{
    if s.len() > 0 && s.last() == ':' {
        without_colons(s.drop_last())
    } else {
        s
    }
}

/// The counts in a word of the form `done/total`, colons at its end aside.
pub open spec fn counts_in(word: Seq<char>) -> Option<(nat, nat)> {
    let s = without_colons(word);
    let n = find_char(s, '/') as int;
    if n >= s.len() {
        None
    } else {
        match (
            parse_number(s.take(n), u64::MAX as nat),
            parse_number(s.skip(n + 1), u64::MAX as nat),
        ) {
            (Some(done), Some(total)) => Some((done, total)),
            _ => None,
        }
    }
}

/// The counts in the first word that has any.
pub open spec fn first_counts(words: Seq<Seq<char>>) -> Option<(nat, nat)>
    decreases words.len(),
{
    if words.len() == 0 {
        None
    } else {
        match counts_in(words[0]) {
            Some(counts) => Some(counts),
            None => first_counts(words.skip(1)),
        }
    }
}

fn word_counts(word: &[char]) -> (r: Option<(u64, u64)>)
    ensures
        match r {
            Some(c) => counts_in(word@) == Some((c.0 as nat, c.1 as nat)),
            None => counts_in(word@) is None,
        },
{
    let mut end: usize = word.len();
    assert(word@.take(end as int) =~= word@);
    while end > 0 && word[end - 1] == ':'
        invariant
            end <= word@.len(),
            without_colons(word@) == without_colons(word@.take(end as int)),
        decreases end,
    {
        assert(word@.take(end as int).drop_last() =~= word@.take(end - 1));
        end = end - 1;
    }
    let s: &[char] = slice_subrange(word, 0, end);
    assert(s@ =~= word@.take(end as int));
    assert(s@ == without_colons(word@));
    let n: usize = position(s, '/');
    if n >= s.len() {
        return None;
    }
    let front: &[char] = slice_subrange(s, 0, n);
    let back: &[char] = slice_subrange(s, n + 1, s.len());
    assert(front@ =~= s@.take(n as int));
    assert(back@ =~= s@.skip(n + 1));
    match (parse_unsigned(front, u64::MAX), parse_unsigned(back, u64::MAX)) {
        (Some(done), Some(total)) => Some((done, total)),
        _ => None,
    }
}

pub fn parse_build_progress(line: &[char]) -> (r: Option<(u64, u64)>)
    ensures
        match r {
            Some(c) => first_counts(words_of(line@, false)) == Some((c.0 as nat, c.1 as nat)),
            None => first_counts(words_of(line@, false)) is None,
        },
{
    let all: Vec<&[char]> = words(line, false);
    let ghost goal = slices(all@);
    let n: usize = all.len();
    let mut i: usize = 0;
    assert(goal.skip(0) =~= goal);
    while i < n
        invariant
            n == all@.len(),
            i <= n,
            goal == slices(all@),
            goal == words_of(line@, false),
            first_counts(goal) == first_counts(goal.skip(i as int)),
        decreases n - i,
    {
        assert(goal.skip(i as int)[0] == all@[i as int]@);
        assert(goal.skip(i as int).skip(1) =~= goal.skip(i + 1));
        if let Some(counts) = word_counts(all[i]) {
            return Some(counts);
        }
        i = i + 1;
    }
    None
}

/// The words that cargo begins a status line with.
pub open spec fn is_status(line: Seq<char>) -> bool {
    ||| begins_with(line, "Compiling "@)
    ||| begins_with(line, "Downloading "@)
    ||| begins_with(line, "Downloaded "@)
    ||| begins_with(line, "Updating "@)
    ||| begins_with(line, "Locking "@)
    ||| begins_with(line, "Blocking "@)
    ||| begins_with(line, "Checking "@)
}

/// What a line of cargo's is, white space at its ends aside.
pub open spec fn classified(line: Seq<char>) -> BuildText {
    let s = trim_text(line);
    match first_counts(words_of(s, false)) {
        Some((done, total)) if begins_with(s, "Building "@) => BuildText::Progress(done, total),
        _ => if is_status(s) {
            BuildText::Status(s)
        } else if begins_with(s, "warning"@) {
            BuildText::Warning
        } else {
            BuildText::Other
        },
    }
}

pub fn classify_build_line(line: &str) -> (r: BuildLine)
    ensures
        r@ == classified(line@),
{
    let chars: Vec<char> = chars_of(line);
    let s: &[char] = trim(&chars);
    if starts_with(s, "Building ") {
        if let Some((done, total)) = parse_build_progress(s) {
            return BuildLine::Progress { done, total };
        }
    }
    if starts_with(s, "Compiling ") || starts_with(s, "Downloading ") || starts_with(
        s,
        "Downloaded ",
    ) || starts_with(s, "Updating ") || starts_with(s, "Locking ") || starts_with(s, "Blocking ")
        || starts_with(s, "Checking ") {
        return BuildLine::Status(string_of(s));
    }
    if starts_with(s, "warning") {
        return BuildLine::Warning;
    }
    BuildLine::Other
}

/// What the status of a build shows on a line.
pub enum BarUpdate {
    Progress { done: u64, total: u64 },
    Message(String),
    Nothing,
}

/// What a `BarUpdate` says.
pub ghost enum BarText {
    Progress(nat, nat),
    Message(Seq<char>),
    Nothing,
}

impl View for BarUpdate {
    type V = BarText;

    open spec fn view(&self) -> BarText {
        match *self {
            BarUpdate::Progress { done, total } => BarText::Progress(done as nat, total as nat),
            BarUpdate::Message(text) => BarText::Message(text@),
            BarUpdate::Nothing => BarText::Nothing,
        }
    }
}

/// What is shown on a line: progress and what cargo is doing.
pub open spec fn shown(line: Seq<char>) -> BarText {
    match classified(line) {
        BuildText::Progress(done, total) => BarText::Progress(done, total),
        BuildText::Status(text) => BarText::Message(text),
        BuildText::Warning => BarText::Nothing,
        BuildText::Other => BarText::Nothing,
    }
}

/// What is kept of a build, and whether it held warnings.
pub ghost struct LogText {
    pub captured: Seq<u8>,
    pub warnings: bool,
}

/// A line of a build: progress is not kept, every other line is, with a line
/// feed, and a warning is noted.
pub open spec fn log_line(log: LogText, line: Seq<char>) -> LogText {
    LogText {
        captured: if classified(line) is Progress {
            log.captured
        } else {
            log.captured + encode_utf8(line).push(10u8)
        },
        warnings: log.warnings || classified(line) is Warning,
    }
}

pub open spec fn log_lines(log: LogText, lines: Seq<Seq<char>>) -> LogText
    decreases lines.len(),
{
    if lines.len() == 0 {
        log
    } else {
        log_line(log_lines(log, lines.drop_last()), lines.last())
    }
}

/// A build whose output is hidden behind a status: what is kept of it, and
/// whether it held warnings.
pub struct BuildLog {
    pub captured: Vec<u8>,
    pub warnings: bool,
}

impl View for BuildLog {
    type V = LogText;

    open spec fn view(&self) -> LogText {
        LogText { captured: self.captured@, warnings: self.warnings }
    }
}

impl BuildLog {
    pub fn new() -> (r: BuildLog)
        ensures
            r.captured@.len() == 0,
            !r.warnings,
    {
        BuildLog { captured: Vec::new(), warnings: false }
    }

    /// Takes a line, and says what is shown on it.
    pub fn on_line(&mut self, line: &str) -> (r: BarUpdate)
        ensures
            r@ == shown(line@),
            final(self)@ == log_line(old(self)@, line@),
    {
        let ghost start = self.captured@;
        let r: BarUpdate = match classify_build_line(line) {
            BuildLine::Progress { done, total } => {
                return BarUpdate::Progress { done, total };
            },
            BuildLine::Status(text) => BarUpdate::Message(text),
            BuildLine::Warning => {
                self.warnings = true;
                BarUpdate::Nothing
            },
            BuildLine::Other => BarUpdate::Nothing,
        };
        let bytes: &[u8] = line.as_bytes();
        let n: usize = bytes.len();
        let mut i: usize = 0;
        assert(start + encode_utf8(line@).take(0) =~= start);
        let ghost warned = self.warnings;
        while i < n
            invariant
                n == bytes@.len(),
                i <= n,
                bytes@ == encode_utf8(line@),
                self.captured@ == start + encode_utf8(line@).take(i as int),
                self.warnings == warned,
            decreases n - i,
        {
            self.captured.push(bytes[i]);
            assert((start + encode_utf8(line@).take(i as int)).push(bytes@[i as int]) =~= start
                + encode_utf8(line@).take(i + 1));
            i = i + 1;
        }
        self.captured.push(10u8);
        assert(self.captured@ =~= start + encode_utf8(line@).push(10u8));
        r
    }
}

pub open spec fn updates(list: Seq<BarUpdate>) -> Seq<BarText> {
    Seq::new(list.len(), |i: int| list[i]@)
}

/// What is shown on lines.
pub open spec fn shown_all(lines: Seq<Seq<char>>) -> Seq<BarText> {
    Seq::new(lines.len(), |i: int| shown(lines[i]))
}

/// The line that is being read, and the lines that ended before it.
pub ghost struct Cut {
    pub partial: Seq<u8>,
    /// A carriage return ended the last line, and nothing else came since.
    pub returned: bool,
    pub lines: Seq<Seq<char>>,
}

/// One byte: a line feed ends a line, a blank one too, unless a carriage return
/// has just ended it. A carriage return ends a line only where there is something
/// to end: a blank that is drawn over is no line.
pub open spec fn cut_byte(s: Cut, byte: u8) -> Cut {
    if s.partial.len() == 0 && byte == 10u8 && s.returned {
        Cut { partial: seq![], returned: false, lines: s.lines }
    } else if s.partial.len() == 0 && byte == 13u8 {
        s
    } else if byte == 10u8 || byte == 13u8 {
        Cut {
            partial: seq![],
            returned: byte == 13u8,
            lines: s.lines.push(utf8_lossy(s.partial)),
        }
    } else {
        Cut { partial: s.partial.push(byte), returned: false, lines: s.lines }
    }
}

/// A run of bytes, one after the other.
pub open spec fn cut_bytes(s: Cut, bytes: Seq<u8>) -> Cut
    decreases bytes.len(),
{
    if bytes.len() == 0 {
        s
    } else {
        cut_byte(cut_bytes(s, bytes.drop_last()), bytes.last())
    }
}

/// The lines that end in bytes, of any length and blank ones included.
pub open spec fn ended_lines(at: Cut, bytes: Seq<u8>) -> Seq<Seq<char>> {
    cut_bytes(Cut { lines: seq![], ..at }, bytes).lines
}

/// Where a line begins, at the start of all or behind a line feed.
pub open spec fn line_start() -> Cut {
    Cut { partial: seq![], returned: false, lines: seq![] }
}

/// The line that the end of the errors ends, if anything was read of one.
pub open spec fn last_line(partial: Seq<u8>) -> Seq<Seq<char>> {
    if partial.len() > 0 {
        seq![utf8_lossy(partial)]
    } else {
        seq![]
    }
}

/// Reads the errors of a build whose output is hidden behind a status. No line is
/// lost to its length: what was read of it is held until it ends.
pub struct BuildDrain {
    pub partial: Vec<u8>,
    pub returned: bool,
    pub log: BuildLog,
}

impl BuildDrain {
    /// Where the drain stands, with no line ended.
    pub open spec fn cut(self) -> Cut {
        Cut { partial: self.partial@, returned: self.returned, lines: seq![] }
    }

    pub fn new() -> (r: BuildDrain)
        ensures
            r.cut() == line_start(),
            r.log.captured@.len() == 0,
            !r.log.warnings,
    {
        let r: BuildDrain = BuildDrain {
            partial: Vec::new(),
            returned: false,
            log: BuildLog::new(),
        };
        assert(r.partial@ =~= seq![]);
        r
    }

    /// Takes a chunk, and says what is shown on the lines that end in it.
    pub fn push(&mut self, chunk: &[u8]) -> (r: Vec<BarUpdate>)
        ensures
            updates(r@) == shown_all(ended_lines(old(self).cut(), chunk@)),
            final(self).log@ == log_lines(old(self).log@, ended_lines(old(self).cut(), chunk@)),
            final(self).cut() == (Cut { lines: seq![], ..cut_bytes(old(self).cut(), chunk@) }),
    {
        let ghost log = self.log@;
        let ghost start = self.cut();
        let mut out: Vec<BarUpdate> = Vec::new();
        let n: usize = chunk.len();
        let mut i: usize = 0;
        assert(cut_bytes(start, chunk@.take(0)) == start);
        assert(updates(out@) =~= shown_all(start.lines));
        while i < n
            invariant
                n == chunk@.len(),
                i <= n,
                self.partial@ == cut_bytes(start, chunk@.take(i as int)).partial,
                self.returned == cut_bytes(start, chunk@.take(i as int)).returned,
                self.log@ == log_lines(log, cut_bytes(start, chunk@.take(i as int)).lines),
                updates(out@) == shown_all(cut_bytes(start, chunk@.take(i as int)).lines),
            decreases n - i,
        {
            let ghost before = cut_bytes(start, chunk@.take(i as int));
            assert(chunk@.take(i + 1).drop_last() =~= chunk@.take(i as int));
            assert(chunk@.take(i + 1).last() == chunk@[i as int]);
            let byte: u8 = chunk[i];
            let blank: bool = self.partial.len() == 0;
            if blank && byte == 10u8 && self.returned {
                self.returned = false;
                assert(self.partial@ =~= seq![]);
            } else if byte == 10u8 || (byte == 13u8 && !blank) {
                let line: String = lossy(&self.partial);
                let ghost shown_before = updates(out@);
                let update: BarUpdate = self.log.on_line(&line);
                out.push(update);
                self.partial = Vec::new();
                self.returned = byte == 13u8;
                assert(before.lines.push(line@).drop_last() =~= before.lines);
                assert(updates(out@) =~= shown_before.push(update@));
                assert(shown_all(before.lines.push(line@)) =~= shown_all(before.lines).push(
                    shown(line@),
                ));
                assert(self.partial@ =~= seq![]);
            } else if byte != 13u8 {
                self.partial.push(byte);
                self.returned = false;
            }
            i = i + 1;
        }
        assert(chunk@.take(n as int) =~= chunk@);
        out
    }

    /// Takes the end of the errors, and says what is shown on the line that it
    /// ends, if there is one.
    pub fn finish(&mut self) -> (r: Option<BarUpdate>)
        ensures
            match r {
                Some(update) => shown_all(last_line(old(self).partial@)) == seq![update@],
                None => last_line(old(self).partial@).len() == 0,
            },
            final(self).log@ == log_lines(old(self).log@, last_line(old(self).partial@)),
            final(self).cut() == line_start(),
    {
        self.returned = false;
        if self.partial.len() == 0 {
            assert(self.partial@ =~= seq![]);
            return None;
        }
        let line: String = lossy(&self.partial);
        let ghost lines = last_line(self.partial@);
        let ghost log = self.log@;
        self.partial = Vec::new();
        assert(self.partial@ =~= seq![]);
        let update: BarUpdate = self.log.on_line(&line);
        assert(lines.drop_last() =~= seq![]);
        assert(log_lines(log, lines.drop_last()) == log);
        assert(shown_all(lines) =~= seq![update@]);
        Some(update)
    }
}

/// Whether a line of a build is kept: every line but progress.
pub open spec fn is_kept(line: Seq<char>) -> bool {
    !(classified(line) is Progress)
}

/// Lines, each with a line feed.
pub open spec fn line_bytes(lines: Seq<Seq<char>>) -> Seq<u8>
    decreases lines.len(),
{
    if lines.len() == 0 {
        seq![]
    } else {
        line_bytes(lines.drop_last()) + encode_utf8(lines.last()).push(10u8)
    }
}

/// The log of a build holds every line but progress, in order, and warns where a
/// line did.
pub proof fn law_log_keeps_all_but_progress(log: LogText, lines: Seq<Seq<char>>)
    ensures
        log_lines(log, lines).captured == log.captured + line_bytes(
            lines.filter(|line: Seq<char>| is_kept(line)),
        ),
        log_lines(log, lines).warnings <==> log.warnings || exists|i: int|
            0 <= i < lines.len() && classified(#[trigger] lines[i]) is Warning,
    decreases lines.len(),
{
    let keep = |line: Seq<char>| is_kept(line);
    reveal(Seq::filter);
    if lines.len() == 0 {
        assert(log.captured + line_bytes(lines.filter(keep)) =~= log.captured);
    } else {
        let front = lines.drop_last();
        law_log_keeps_all_but_progress(log, front);
        let kept = front.filter(keep);
        if is_kept(lines.last()) {
            assert(lines.filter(keep) == kept.push(lines.last()));
            assert(kept.push(lines.last()).drop_last() =~= kept);
            assert(log.captured + (line_bytes(kept) + encode_utf8(lines.last()).push(10u8)) =~= (
            log.captured + line_bytes(kept)) + encode_utf8(lines.last()).push(10u8));
        }
        if exists|i: int| 0 <= i < lines.len() && classified(#[trigger] lines[i]) is Warning {
            let i = choose|i: int|
                0 <= i < lines.len() && classified(#[trigger] lines[i]) is Warning;
            assert(i < front.len() ==> front[i] == lines[i]);
        }
        if exists|i: int| 0 <= i < front.len() && classified(#[trigger] front[i]) is Warning {
            let i = choose|i: int|
                0 <= i < front.len() && classified(#[trigger] front[i]) is Warning;
            assert(front[i] == lines[i]);
        }
    }
}

proof fn lemma_log_on(log: LogText, a: Seq<Seq<char>>, b: Seq<Seq<char>>)
    ensures
        log_lines(log, a + b) == log_lines(log_lines(log, a), b),
    decreases b.len(),
{
    if b.len() == 0 {
        assert(a + b =~= a);
    } else {
        assert((a + b).drop_last() =~= a + b.drop_last());
        lemma_log_on(log, a, b.drop_last());
    }
}

proof fn lemma_cut_on(s: Cut, a: Seq<u8>, b: Seq<u8>)
    ensures
        cut_bytes(s, a + b) == cut_bytes(cut_bytes(s, a), b),
    decreases b.len(),
{
    if b.len() == 0 {
        assert(a + b =~= a);
    } else {
        assert((a + b).drop_last() =~= a + b.drop_last());
        lemma_cut_on(s, a, b.drop_last());
    }
}

proof fn lemma_cut_lines(s: Cut, bytes: Seq<u8>)
    ensures
        cut_bytes(s, bytes) == (Cut {
            lines: s.lines + ended_lines(s, bytes),
            ..cut_bytes(Cut { lines: seq![], ..s }, bytes)
        }),
    decreases bytes.len(),
{
    let none: Seq<Seq<char>> = seq![];
    if bytes.len() == 0 {
        assert(s.lines + none =~= s.lines);
    } else {
        let front = bytes.drop_last();
        lemma_cut_lines(s, front);
        let bare = cut_bytes(Cut { lines: none, ..s }, front);
        let line = utf8_lossy(bare.partial);
        assert(s.lines + bare.lines.push(line) =~= (s.lines + bare.lines).push(line));
    }
}

/// How the errors of a build are cut into chunks does not matter: two chunks
/// leave the drain, and show, what their whole does.
pub proof fn law_drain_chunks_do_not_matter(drain: BuildDrain, a: Seq<u8>, b: Seq<u8>)
    ensures
        ({
            let first = ended_lines(drain.cut(), a);
            let middle = Cut { lines: seq![], ..cut_bytes(drain.cut(), a) };
            let second = ended_lines(middle, b);
            let whole = ended_lines(drain.cut(), a + b);
            &&& log_lines(log_lines(drain.log@, first), second) == log_lines(drain.log@, whole)
            &&& shown_all(first) + shown_all(second) == shown_all(whole)
            &&& (Cut { lines: seq![], ..cut_bytes(middle, b) }) == (Cut {
                lines: seq![],
                ..cut_bytes(drain.cut(), a + b)
            })
        }),
{
    let start = drain.cut();
    lemma_cut_on(start, a, b);
    lemma_cut_lines(cut_bytes(start, a), b);
    let first = ended_lines(start, a);
    let second = ended_lines(cut_bytes(start, a), b);
    lemma_log_on(drain.log@, first, second);
    assert(shown_all(first) + shown_all(second) =~= shown_all(first + second));
}

/// A line that a carriage return and a line feed end is the same one line that a
/// line feed alone ends, blank or not.
pub proof fn law_both_line_ends_are_one(line: Seq<u8>)
    requires
        unbroken(line),
    ensures
        cut_bytes(line_start(), line.push(13u8).push(10u8)) == cut_bytes(
            line_start(),
            line.push(10u8),
        ),
        ended_lines(line_start(), line.push(10u8)) == seq![utf8_lossy(line)],
{
    let start = line_start();
    lemma_cut_unbroken(start, line);
    assert(start.partial + line =~= line);
    assert(line.push(10u8).drop_last() =~= line);
    assert(line.push(13u8).drop_last() =~= line);
    assert(line.push(13u8).push(10u8).drop_last() =~= line.push(13u8));
    let at_line = cut_bytes(start, line);
    let at_return = cut_bytes(start, line.push(13u8));
    assert(at_return == cut_byte(at_line, 13u8));
    assert(cut_bytes(start, line.push(13u8).push(10u8)) == cut_byte(at_return, 10u8));
    assert(cut_bytes(start, line.push(10u8)) == cut_byte(at_line, 10u8));
    if line.len() == 0 {
        assert(line =~= seq![]);
    }
    assert(start.lines.push(utf8_lossy(line)) =~= seq![utf8_lossy(line)]);
}

/// Lines as a build prints them, each with a line feed.
pub open spec fn printed(lines: Seq<Seq<u8>>) -> Seq<u8>
    decreases lines.len(),
{
    if lines.len() == 0 {
        seq![]
    } else {
        printed(lines.drop_last()) + lines.last().push(10u8)
    }
}

/// The texts of lines.
pub open spec fn line_texts(lines: Seq<Seq<u8>>) -> Seq<Seq<char>> {
    Seq::new(lines.len(), |i: int| utf8_lossy(lines[i]))
}

proof fn lemma_cut_unbroken(s: Cut, bytes: Seq<u8>)
    requires
        unbroken(bytes),
        !s.returned,
    ensures
        cut_bytes(s, bytes) == (Cut { partial: s.partial + bytes, ..s }),
    decreases bytes.len(),
{
    if bytes.len() == 0 {
        assert(s.partial + bytes =~= s.partial);
    } else {
        let front = bytes.drop_last();
        assert forall|i: int| 0 <= i < front.len() implies front[i] != 10u8 && front[i]
            != 13u8 by {
            assert(front[i] == bytes[i]);
        }
        lemma_cut_unbroken(s, front);
        assert(bytes.last() != 10u8 && bytes.last() != 13u8);
        assert((s.partial + front).push(bytes.last()) =~= s.partial + bytes);
    }
}

proof fn lemma_cut_printed(lines: Seq<Seq<u8>>)
    requires
        forall|i: int| 0 <= i < lines.len() ==> unbroken(#[trigger] lines[i]),
    ensures
        cut_bytes(line_start(), printed(lines)) == (Cut {
            lines: line_texts(lines),
            ..line_start()
        }),
    decreases lines.len(),
{
    let start = line_start();
    if lines.len() == 0 {
        assert(line_texts(lines) =~= seq![]);
    } else {
        let front = lines.drop_last();
        let last = lines.last();
        assert forall|i: int| 0 <= i < front.len() implies unbroken(#[trigger] front[i]) by {
            assert(front[i] == lines[i]);
        }
        lemma_cut_printed(front);
        lemma_cut_on(start, printed(front), last.push(10u8));
        let middle = cut_bytes(start, printed(front));
        assert(unbroken(lines[lines.len() - 1]));
        lemma_cut_unbroken(middle, last);
        assert(last.push(10u8).drop_last() =~= last);
        assert(middle.partial + last =~= last);
        assert(line_texts(front).push(utf8_lossy(last)) =~= line_texts(lines));
    }
}

/// Of a build that prints lines with line feeds and, last, perhaps a line without
/// one, every line but progress is captured, in order, blank ones and the longest
/// included, each with a line feed.
pub proof fn law_every_line_is_captured(log: LogText, lines: Seq<Seq<u8>>, last: Seq<u8>)
    requires
        forall|i: int| 0 <= i < lines.len() ==> unbroken(#[trigger] lines[i]),
        unbroken(last),
    ensures
        ({
            let bytes = printed(lines) + last;
            let ended = log_lines(log, ended_lines(line_start(), bytes));
            let all = line_texts(lines) + last_line(last);
            &&& ended_lines(line_start(), bytes) == line_texts(lines)
            &&& cut_bytes(line_start(), bytes).partial == last
            &&& log_lines(ended, last_line(last)).captured == log.captured + line_bytes(
                all.filter(|line: Seq<char>| is_kept(line)),
            )
        }),
{
    let start = line_start();
    lemma_cut_printed(lines);
    lemma_cut_on(start, printed(lines), last);
    lemma_cut_unbroken(Cut { lines: line_texts(lines), ..start }, last);
    assert(start.partial + last =~= last);
    lemma_log_on(log, line_texts(lines), last_line(last));
    law_log_keeps_all_but_progress(log, line_texts(lines) + last_line(last));
}

/// Bytes without a carriage return are lines with line feeds and, last, perhaps a
/// line without one.
pub proof fn law_bytes_are_lines(bytes: Seq<u8>) -> (r: (Seq<Seq<u8>>, Seq<u8>))
    requires
        !bytes.contains(13u8),
    ensures
        bytes == printed(r.0) + r.1,
        forall|i: int| 0 <= i < r.0.len() ==> unbroken(#[trigger] r.0[i]),
        unbroken(r.1),
    decreases bytes.len(),
{
    let none: Seq<Seq<u8>> = seq![];
    if bytes.len() == 0 {
        assert(bytes =~= printed(none) + bytes);
        (none, bytes)
    } else {
        let front = bytes.drop_last();
        let byte = bytes.last();
        assert(bytes[bytes.len() - 1] == byte);
        assert(!front.contains(13u8)) by {
            if front.contains(13u8) {
                let i = choose|i: int| 0 <= i < front.len() && front[i] == 13u8;
                assert(bytes[i] == 13u8);
            }
        }
        let (lines, last) = law_bytes_are_lines(front);
        assert(bytes =~= front.push(byte));
        if byte == 10u8 {
            let more = lines.push(last);
            let empty: Seq<u8> = seq![];
            assert(more.drop_last() =~= lines);
            assert(bytes =~= printed(more) + empty);
            assert forall|i: int| 0 <= i < more.len() implies unbroken(#[trigger] more[i]) by {
                if i < lines.len() {
                    assert(more[i] == lines[i]);
                }
            }
            (more, empty)
        } else {
            assert(bytes =~= printed(lines) + last.push(byte));
            (lines, last.push(byte))
        }
    }
}

/// Whether a line of a child's errors is passed on: cargo's `Finished` lines are
/// not.
pub open spec fn is_forwarded(line: Seq<u8>) -> bool {
    !begins_with(trim_start_text(utf8_lossy(line)), "Finished "@)
}

pub fn forward_stderr_line(line: &[u8]) -> (r: bool)
    ensures
        r == is_forwarded(line@),
{
    let text: String = lossy(line);
    let chars: Vec<char> = chars_of(&text);
    !starts_with(trim_start(&chars), "Finished ")
}

/// The line that is being read, and all that was passed on.
pub ghost struct Filtered {
    pub line: Seq<u8>,
    pub out: Seq<u8>,
}

pub open spec fn filter_byte(s: Filtered, byte: u8) -> Filtered {
    let line = s.line.push(byte);
    if byte == 10u8 {
        Filtered {
            line: seq![],
            out: if is_forwarded(line) {
                s.out + line
            } else {
                s.out
            },
        }
    } else {
        Filtered { line, out: s.out }
    }
}

pub open spec fn filter_bytes(s: Filtered, bytes: Seq<u8>) -> Filtered
    decreases bytes.len(),
{
    if bytes.len() == 0 {
        s
    } else {
        filter_byte(filter_bytes(s, bytes.drop_last()), bytes.last())
    }
}

/// Passes a child's errors on, line by line, but for cargo's `Finished` lines.
pub struct StderrFilter {
    pub line: Vec<u8>,
}

impl StderrFilter {
    pub fn new() -> (r: StderrFilter)
        ensures
            r.line@.len() == 0,
    {
        StderrFilter { line: Vec::new() }
    }

    /// Takes a chunk, and says what is passed on.
    pub fn push(&mut self, chunk: &[u8]) -> (r: Vec<u8>)
        ensures
            filter_bytes(Filtered { line: old(self).line@, out: seq![] }, chunk@) == (Filtered {
                line: final(self).line@,
                out: r@,
            }),
    {
        let ghost start = Filtered { line: self.line@, out: seq![] };
        let mut out: Vec<u8> = Vec::new();
        let n: usize = chunk.len();
        let mut i: usize = 0;
        assert(chunk@.take(0) =~= seq![]);
        assert(out@ =~= seq![]);
        while i < n
            invariant
                n == chunk@.len(),
                i <= n,
                filter_bytes(start, chunk@.take(i as int)) == (Filtered {
                    line: self.line@,
                    out: out@,
                }),
            decreases n - i,
        {
            let byte: u8 = chunk[i];
            proof {
                assert(chunk@.take(i + 1).drop_last() =~= chunk@.take(i as int));
                assert(chunk@.take(i + 1).last() == byte);
            }
            self.line.push(byte);
            if byte == 10u8 {
                let ghost line = self.line@;
                let ghost before = out@;
                let mut whole: Vec<u8> = Vec::new();
                std::mem::swap(&mut whole, &mut self.line);
                if forward_stderr_line(&whole) {
                    out.append(&mut whole);
                    assert(out@ =~= before + line);
                }
                assert(self.line@ =~= seq![]);
            }
            i = i + 1;
        }
        assert(chunk@.take(n as int) =~= chunk@);
        out
    }

    /// Says what is passed on of a line that nothing ended.
    pub fn finish(&mut self) -> (r: Vec<u8>)
        ensures
            r@ == (if is_forwarded(old(self).line@) {
                old(self).line@
            } else {
                seq![]
            }),
            final(self).line@.len() == 0,
    {
        let mut rest: Vec<u8> = Vec::new();
        std::mem::swap(&mut rest, &mut self.line);
        if forward_stderr_line(&rest) {
            rest
        } else {
            Vec::new()
        }
    }
}

proof fn lemma_filter_on(s: Filtered, a: Seq<u8>, b: Seq<u8>)
    ensures
        filter_bytes(s, a + b) == filter_bytes(filter_bytes(s, a), b),
    decreases b.len(),
{
    if b.len() == 0 {
        assert(a + b =~= a);
    } else {
        assert((a + b).drop_last() =~= a + b.drop_last());
        lemma_filter_on(s, a, b.drop_last());
    }
}

proof fn lemma_filter_out(s: Filtered, bytes: Seq<u8>)
    ensures
        ({
            let bare = filter_bytes(Filtered { line: s.line, out: seq![] }, bytes);
            filter_bytes(s, bytes) == (Filtered { line: bare.line, out: s.out + bare.out })
        }),
    decreases bytes.len(),
{
    let none: Seq<u8> = seq![];
    if bytes.len() == 0 {
        assert(s.out + none =~= s.out);
    } else {
        let front = bytes.drop_last();
        lemma_filter_out(s, front);
        let bare = filter_bytes(Filtered { line: s.line, out: none }, front);
        let line = bare.line.push(bytes.last());
        assert(s.out + (bare.out + line) =~= (s.out + bare.out) + line);
    }
}

/// How a child's errors are cut into chunks does not matter: what is passed on of
/// two chunks, one after the other, is what is passed on of their whole.
pub proof fn law_filter_chunks_do_not_matter(line: Seq<u8>, a: Seq<u8>, b: Seq<u8>)
    ensures
        ({
            let middle = filter_bytes(Filtered { line, out: seq![] }, a);
            let end = filter_bytes(Filtered { line: middle.line, out: seq![] }, b);
            filter_bytes(Filtered { line, out: seq![] }, a + b) == (Filtered {
                line: end.line,
                out: middle.out + end.out,
            })
        }),
{
    let start = Filtered { line, out: seq![] };
    lemma_filter_on(start, a, b);
    lemma_filter_out(filter_bytes(start, a), b);
}

proof fn lemma_filter_line(s: Filtered, line: Seq<u8>)
    requires
        forall|i: int| 0 <= i < line.len() ==> line[i] != 10u8,
    ensures
        filter_bytes(s, line) == (Filtered { line: s.line + line, out: s.out }),
    decreases line.len(),
{
    if line.len() == 0 {
        assert(s.line + line =~= s.line);
    } else {
        lemma_filter_line(s, line.drop_last());
        assert((s.line + line.drop_last()).push(line.last()) =~= s.line + line);
    }
}

/// Between lines, a line with its end is passed on whole or dropped whole.
pub proof fn law_filter_passes_whole_lines(s: Filtered, line: Seq<u8>)
    requires
        s.line.len() == 0,
        forall|i: int| 0 <= i < line.len() ==> line[i] != 10u8,
    ensures
        filter_bytes(s, line.push(10u8)) == (Filtered {
            line: seq![],
            out: if is_forwarded(line.push(10u8)) {
                s.out + line.push(10u8)
            } else {
                s.out
            },
        }),
{
    lemma_filter_line(s, line);
    assert(line.push(10u8).drop_last() =~= line);
    assert(s.line + line =~= line);
}

// ---------------------------------------------------------------------------
// What holds of a build
// ---------------------------------------------------------------------------

/// Cargo always builds for the machine that it runs on, into the target directory of
/// its own workspace; its progress is asked for exactly where it is shown.
pub proof fn law_builds_are_native(root: Seq<char>, meter: bool)
    ensures
        ({
            let env = cargo_env_text(root, meter);
            &&& env.len() == (if meter {
                4int
            } else {
                2
            })
            &&& env[0] == ("RUSTFLAGS"@, "-C target-cpu=native"@)
            &&& env[1] == ("CARGO_TARGET_DIR"@, joined(root, "target"@))
            &&& meter ==> env[2] == ("CARGO_TERM_PROGRESS_WHEN"@, "always"@) && env[3] == (
                "CARGO_TERM_PROGRESS_WIDTH"@,
                "80"@,
            )
        }),
{
}

/// A profile of cargo's own, and one that the manifest has a table for, at any
/// place, is used as it is. Any other inherits `release`. A manifest that cannot be
/// read matters only where the profile is not cargo's own.
pub proof fn law_unknown_profiles_inherit_release(
    root: Seq<char>,
    profile: Seq<char>,
    manifest: Result<Seq<char>, Seq<char>>,
)
    ensures
        ({
            let own = profile == "release"@ || profile == "dev"@ || profile == "test"@ || profile
                == "bench"@;
            let table = "[profile."@ + profile + "]"@;
            let args = profile_args(root, profile, manifest);
            &&& own ==> args == Ok::<Seq<Seq<char>>, Seq<char>>(seq![])
            &&& !own ==> match manifest {
                Err(_) => args is Err,
                Ok(text) => if exists|at: int|
                    0 <= at && at + table.len() <= text.len() && #[trigger] text.subrange(
                        at,
                        at + table.len(),
                    ) == table {
                    args == Ok::<Seq<Seq<char>>, Seq<char>>(seq![])
                } else {
                    args == Ok::<Seq<Seq<char>>, Seq<char>>(
                        seq!["--config"@, "profile."@ + profile + ".inherits=\"release\""@],
                    )
                },
            }
        }),
{
    let table = "[profile."@ + profile + "]"@;
    if let Ok(text) = manifest {
        if occurs_in(text, table) {
            let at = choose|at: int| occurs_at(text, table, at);
            assert(text.subrange(at, at + table.len()) == table);
        }
        if exists|at: int|
            0 <= at && at + table.len() <= text.len() && #[trigger] text.subrange(
                at,
                at + table.len(),
            ) == table {
            let at = choose|at: int|
                0 <= at && at + table.len() <= text.len() && #[trigger] text.subrange(
                    at,
                    at + table.len(),
                ) == table;
            assert(occurs_at(text, table, at));
        }
    }
}

/// Cargo is told the package, the program or benchmark and the profile that were
/// asked for, each behind its option; a benchmark is only built.
pub proof fn law_builds_are_told_their_target(
    package: Seq<char>,
    target: Seq<char>,
    profile: Seq<char>,
)
    ensures
        ({
            let bin = bin_args_text(package, target, profile);
            &&& bin.len() == 8
            &&& bin[0] == "build"@
            &&& bin[1] == "-p"@ && bin[2] == package
            &&& bin[3] == "--bin"@ && bin[4] == target
            &&& bin[5] == "--profile"@ && bin[6] == profile
            &&& bin[7] == "--message-format=json-render-diagnostics"@
        }),
        ({
            let bench = bench_args_text(package, target, profile);
            &&& bench.len() == 8
            &&& bench[0] == "bench"@
            &&& bench[1] == "-p"@ && bench[2] == package
            &&& bench[3] == "--bench"@ && bench[4] == target
            &&& bench[5] == "--profile"@ && bench[6] == profile
            &&& bench[7] == "--no-run"@
        }),
{
}

/// A name is written for the compiler with an underscore for every dash, and else
/// as it is.
pub proof fn law_dashes_are_underscores(name: Seq<char>, i: int)
    requires
        0 <= i < name.len(),
    ensures
        normal_name(name).len() == name.len(),
        normal_name(name)[i] == (if name[i] == '-' {
            '_'
        } else {
            name[i]
        }),
{
}

/// A message announces a program exactly where it is about an artifact, the name of
/// its target is the one wanted, dashes and underscores being alike, and it names an
/// executable: that one.
pub proof fn law_artifacts_name_their_program(
    message: JsonTree,
    name: Seq<char>,
    bin: Seq<char>,
    path: Seq<char>,
)
    requires
        message.field("target"@) matches Some(target) && target.field_text("name"@) == Some(name),
    ensures
        artifact_of(message, normal_name(bin)) == Some(path) <==> {
            &&& name.len() == bin.len()
            &&& message.field_text("reason"@) == Some("compiler-artifact"@)
            &&& message.field_text("executable"@) == Some(path)
            &&& forall|i: int|
                0 <= i < name.len() ==> (#[trigger] name[i]) == bin[i] || (name[i] == '-' && bin[i]
                    == '_') || (name[i] == '_' && bin[i] == '-')
        },
{
    let a = normal_name(name);
    let b = normal_name(bin);
    if name.len() == bin.len() && forall|i: int|
        0 <= i < name.len() ==> (#[trigger] name[i]) == bin[i] || (name[i] == '-' && bin[i] == '_')
            || (name[i] == '_' && bin[i] == '-') {
        assert forall|i: int| 0 <= i < a.len() implies a[i] == b[i] by {
            assert(name[i] == name[i]);
        }
        assert(a =~= b);
    }
    if a == b {
        assert(a.len() == name.len() && b.len() == bin.len());
        assert forall|i: int| 0 <= i < name.len() implies (#[trigger] name[i]) == bin[i] || (
        name[i] == '-' && bin[i] == '_') || (name[i] == '_' && bin[i] == '-') by {
            assert(a[i] == b[i]);
        }
    }
}

/// Of several lines that announce the program the last one counts, and a line that
/// announces none does not matter.
pub proof fn law_last_announcement_counts(lines: Seq<Seq<char>>, wanted: Seq<char>, i: int)
    requires
        0 <= i < lines.len(),
        forall|j: int| i < j < lines.len() ==> line_artifact(#[trigger] lines[j], wanted) is None,
    ensures
        line_artifact(lines[i], wanted) is Some ==> last_artifact(lines, wanted) == line_artifact(
            lines[i],
            wanted,
        ),
        line_artifact(lines[i], wanted) is None ==> last_artifact(lines, wanted) == last_artifact(
            lines.take(i),
            wanted,
        ),
        last_artifact(seq![], wanted) is None,
    decreases lines.len(),
{
    let front = lines.drop_last();
    if i < front.len() {
        assert(line_artifact(lines[lines.len() - 1], wanted) is None);
        assert forall|j: int| i < j < front.len() implies line_artifact(
            #[trigger] front[j],
            wanted,
        ) is None by {
            assert(front[j] == lines[j]);
        }
        law_last_announcement_counts(front, wanted, i);
        assert(front.take(i) =~= lines.take(i));
        assert(front[i] == lines[i]);
    } else {
        assert(front =~= lines.take(i));
    }
}

/// A program was built exactly where cargo succeeds and some line of its output
/// announces it; the program is the one that the lines announce last.
pub proof fn law_built_program_was_announced(
    args: Seq<Seq<char>>,
    bin: Seq<char>,
    reply: ReplyText,
)
    ensures
        match reply {
            ReplyText::Exited { ok, stdout, .. } => if ok {
                match last_artifact(lines_of(utf8_lossy(stdout)), normal_name(bin)) {
                    Some(path) => built(args, bin, reply) == Ok::<Seq<char>, Seq<char>>(path),
                    None => built(args, bin, reply) is Err,
                }
            } else {
                built(args, bin, reply) is Err
            },
            ReplyText::NotStarted(_) => built(args, bin, reply) is Err,
        },
{
}

/// Counts that are written with a slash between, and colons behind, are read back.
pub proof fn law_counts_read_back(done: nat, total: nat, colons: nat)
    requires
        done <= u64::MAX,
        total <= u64::MAX,
    ensures
        counts_in(decimal(done) + "/"@ + decimal(total) + repeat_char(':', colons)) == Some(
            (done, total),
        ),
{
    reveal_strlit("/");
    lemma_decimal_reads_back(done);
    lemma_decimal_reads_back(total);
    let a = decimal(done);
    let b = decimal(total);
    let bare = a + "/"@ + b;
    lemma_without_colons(bare, colons);
    assert(bare.last() == b[b.len() - 1]);
    assert(is_digit(b[b.len() - 1]));
    assert(without_colons(bare) == bare);
    assert forall|j: int| 0 <= j < a.len() implies bare[j] != '/' by {
        assert(is_digit(a[j]));
        assert(bare[j] == a[j]);
    }
    assert(bare[a.len() as int] == "/"@[0]);
    lemma_find_char_is(bare, '/', a.len());
    assert(bare.take(a.len() as int) =~= a);
    assert(bare.skip(a.len() as int + 1) =~= b);
}

proof fn lemma_without_colons(s: Seq<char>, colons: nat)
    ensures
        without_colons(s + repeat_char(':', colons)) == without_colons(s),
    decreases colons,
{
    let all = s + repeat_char(':', colons);
    if colons == 0 {
        assert(all =~= s);
    } else {
        lemma_without_colons(s, (colons - 1) as nat);
        assert(all.last() == ':');
        assert(all.drop_last() =~= s + repeat_char(':', (colons - 1) as nat));
    }
}

/// The first word that holds counts tells the progress.
pub proof fn law_first_counts_count(words: Seq<Seq<char>>, i: int)
    requires
        0 <= i <= words.len(),
        i < words.len() ==> counts_in(words[i]) is Some,
        forall|j: int| 0 <= j < i ==> counts_in(#[trigger] words[j]) is None,
    ensures
        first_counts(words) == (if i < words.len() {
            counts_in(words[i])
        } else {
            None
        }),
    decreases i,
{
    if i > 0 {
        let rest = words.skip(1);
        assert(counts_in(words[0]) is None);
        assert forall|j: int| 0 <= j < i - 1 implies counts_in(#[trigger] rest[j]) is None by {
            assert(rest[j] == words[j + 1]);
        }
        law_first_counts_count(rest, i - 1);
    }
}

/// What a line of cargo's is goes by its first word, white space before it aside:
/// `Building` with counts behind it is progress; what cargo compiles, downloads,
/// updates, locks, waits for or checks is shown; a warning is noted; all else is
/// only kept.
pub proof fn law_first_word_tells_a_line(line: Seq<char>)
    ensures
        ({
            let s = trim_text(line);
            let begins = |word: Seq<char>| word.len() <= s.len() && s.take(word.len() as int)
                == word;
            let counts = first_counts(words_of(s, false));
            let status = begins("Compiling "@) || begins("Downloading "@) || begins(
                "Downloaded "@,
            ) || begins("Updating "@) || begins("Locking "@) || begins("Blocking "@) || begins(
                "Checking "@,
            );
            &&& begins("Building "@) && counts is Some ==> classified(line)
                == BuildText::Progress((counts->0).0, (counts->0).1) && shown(line)
                == BarText::Progress((counts->0).0, (counts->0).1)
            &&& classified(line) is Progress <==> begins("Building "@) && counts is Some
            &&& status && !(classified(line) is Progress) ==> classified(line)
                == BuildText::Status(s) && shown(line) == BarText::Message(s)
            &&& classified(line) is Status ==> status
            &&& begins("warning"@) && !status && !(classified(line) is Progress) ==> classified(
                line,
            ) is Warning && shown(line) is Nothing
            &&& classified(line) is Warning ==> begins("warning"@)
            &&& classified(line) is Other ==> shown(line) is Nothing
        }),
{
}

/// A line of a child's errors is held back exactly where it begins, white space
/// aside, with `Finished`.
pub proof fn law_only_finished_is_held_back(line: Seq<u8>, i: int)
    requires
        0 <= i <= utf8_lossy(line).len(),
        forall|j: int| 0 <= j < i ==> is_white_space(#[trigger] utf8_lossy(line)[j]),
        i < utf8_lossy(line).len() ==> !is_white_space(utf8_lossy(line)[i]),
    ensures
        is_forwarded(line) <==> !{
            let rest = utf8_lossy(line).skip(i);
            "Finished "@.len() <= rest.len() && rest.take("Finished "@.len() as int)
                == "Finished "@
        },
{
    lemma_trim_start_is(utf8_lossy(line), i);
}

proof fn lemma_trim_start_is(s: Seq<char>, i: int)
    requires
        0 <= i <= s.len(),
        forall|j: int| 0 <= j < i ==> is_white_space(#[trigger] s[j]),
        i < s.len() ==> !is_white_space(s[i]),
    ensures
        trim_start_text(s) == s.skip(i),
    decreases i,
{
    if i == 0 {
        assert(s.skip(0) =~= s);
    } else {
        let rest = s.skip(1);
        assert(is_white_space(s[0]));
        assert forall|j: int| 0 <= j < i - 1 implies is_white_space(#[trigger] rest[j]) by {
            assert(rest[j] == s[j + 1]);
        }
        if i < s.len() {
            assert(rest[i - 1] == s[i]);
        }
        lemma_trim_start_is(rest, i - 1);
        assert(rest.skip(i - 1) =~= s.skip(i));
    }
}

/// A word without a slash holds no counts, and neither does one in which anything but
/// numbers stands around its first slash.
pub proof fn law_what_holds_no_counts(front: Seq<char>, back: Seq<char>, word: Seq<char>)
    requires
        !front.contains('/'),
        back.len() > 0,
        back.last() != ':',
        !word.contains('/'),
    ensures
        counts_in(word) is None,
        counts_in(front + seq!['/'] + back) is Some <==> parse_number(
            front,
            u64::MAX as nat,
        ) is Some && parse_number(back, u64::MAX as nat) is Some,
{
    let s = front + seq!['/'] + back;
    assert(s.last() == back.last());
    assert(without_colons(s) == s);
    assert forall|j: int| 0 <= j < front.len() implies s[j] != '/' by {
        assert(front.contains(front[j]));
    }
    lemma_find_char_is(s, '/', front.len());
    assert(s.take(front.len() as int) =~= front);
    assert(s.skip(front.len() as int + 1) =~= back);
    lemma_bare_word(word);
}

proof fn lemma_bare_word(word: Seq<char>)
    requires
        !word.contains('/'),
    ensures
        find_char(without_colons(word), '/') >= without_colons(word).len(),
    decreases word.len(),
{
    if word.len() > 0 && word.last() == ':' {
        let front = word.drop_last();
        assert(!front.contains('/')) by {
            if front.contains('/') {
                let i = choose|i: int| 0 <= i < front.len() && front[i] == '/';
                assert(word[i] == '/');
            }
        }
        lemma_bare_word(front);
    } else {
        assert forall|j: int| 0 <= j < word.len() implies word[j] != '/' by {
            assert(word.contains(word[j]));
        }
        lemma_find_char_is(word, '/', word.len());
    }
}

/// A carriage return ends what was drawn, and what was drawn over a blank is no line.
/// What is left at the end is a line where it is not empty.
pub proof fn law_drawn_lines_count(line: Seq<u8>)
    requires
        unbroken(line),
    ensures
        line.len() > 0 ==> ended_lines(line_start(), line.push(13u8)) == seq![utf8_lossy(line)],
        line.len() > 0 ==> last_line(line) == seq![utf8_lossy(line)],
        line.len() == 0 ==> ended_lines(line_start(), line.push(13u8)).len() == 0,
        line.len() == 0 ==> last_line(line).len() == 0,
{
    let start = line_start();
    lemma_cut_unbroken(start, line);
    assert(start.partial + line =~= line);
    assert(line.push(13u8).drop_last() =~= line);
    assert(start.lines.push(utf8_lossy(line)) =~= seq![utf8_lossy(line)]);
}

/// A line announces nothing where it is no JSON, and a message where it has no target
/// or the target no name. Where no line announces the program, that is told, as is a
/// manifest that cannot be read.
pub proof fn law_missing_programs_are_told(
    line: Seq<char>,
    message: JsonTree,
    wanted: Seq<char>,
    args: Seq<Seq<char>>,
    bin: Seq<char>,
    reply: ReplyText,
    root: Seq<char>,
    profile: Seq<char>,
    e: Seq<char>,
)
    ensures
        json_of_text(line) is Err ==> line_artifact(line, wanted) is None,
        json_of_text(line) == Ok::<JsonTree, Seq<char>>(message) ==> line_artifact(line, wanted)
            == artifact_of(message, wanted),
        message.field("target"@) is None ==> artifact_of(message, wanted) is None,
        message.field("target"@) matches Some(target) ==> (target.field_text("name"@) is None
            ==> artifact_of(message, wanted) is None),
        captured("cargo"@, args, reply) matches Err(e) ==> built(args, bin, reply) == Err::<
            Seq<char>,
            Seq<char>,
        >(e),
        captured("cargo"@, args, reply) matches Ok(stdout) ==> (last_artifact(
            lines_of(stdout),
            normal_name(bin),
        ) is None ==> built(args, bin, reply) == Err::<Seq<char>, Seq<char>>(
            "build succeeded but no executable artifact found for bin '"@ + bin + "'"@,
        )),
        profile_args(root, profile, Err(e)) is Err ==> profile_args(root, profile, Err(e)) == Err::<
            Seq<Seq<char>>,
            Seq<char>,
        >("failed to read "@ + joined(root, "Cargo.toml"@) + ": "@ + e),
{
}

} // verus!
