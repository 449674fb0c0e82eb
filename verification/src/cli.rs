//! The command line: the commands, the mode the program runs in, the
//! reading of an interactive line, tab completion, and the tables printed
//! for disks and partitions.
use vstd::prelude::*;
use crate::models::{Disk, Partition};
use crate::text::{
    char_is_whitespace, chars_of, decimal, decimal_string, push_str, same_text, spec_is_whitespace, spec_starts_with,
    starts_with_chars, string_from_chars, string_push, trim_chars, trim_ws,
};
use crate::workflow::{utf8_len, utf8_width};

verus! {

/// A command of the command line.
#[derive(Debug, Clone, PartialEq, Eq)]
pub enum Commands {
    /// List the physical disks.
    List,
    /// List the partitions of a disk.
    Parts { disk_id: String },
    /// Shrink a partition and install the ISO image beside it.
    ShrinkAndInstall { disk_id: String, partition_id: String, iso_path: String },
    /// Leave the interactive mode.
    Exit,
    /// Leave the interactive mode.
    Quit,
}

/// The program's arguments.
#[derive(Debug, Clone, PartialEq, Eq)]
pub struct IsekaiCli {
    /// Show virtual drives and loop devices too.
    pub debug: bool,
    /// Enter the interactive mode.
    pub cli: bool,
    /// A command to run once.
    pub command: Option<Commands>,
}

/// What the program does with its arguments.
#[derive(Debug, Clone, Copy, PartialEq, Eq, Structural)]
pub enum RunMode {
    /// Run the given command and exit.
    OneShot,
    /// Read commands interactively.
    Interactive,
    /// Serve requests from the user interface.
    Daemon,
}

impl IsekaiCli {
    /// Whether the program serves the user interface: neither the
    /// interactive flag nor a command was given.
    pub fn is_daemon(&self) -> (r: bool)
        ensures
            r == (!self.cli && self.command is None),
    {
        !self.cli && self.command.is_none()
    }

    /// The mode: a command runs once, else the interactive flag starts the
    /// interactive mode, else the daemon runs.
    pub fn run_mode(&self) -> (r: RunMode)
        ensures
            self.command is Some ==> r == RunMode::OneShot,
            self.command is None && self.cli ==> r == RunMode::Interactive,
            self.command is None && !self.cli ==> r == RunMode::Daemon,
    {
        if self.command.is_some() {
            RunMode::OneShot
        } else if self.cli {
            RunMode::Interactive
        } else {
            RunMode::Daemon
        }
    }
}

/// The interactive command line over a disk manager.
pub struct CliREPL<M> {
    pub disk_manager: M,
}

/// What an interactive line asks for.
#[derive(Debug, Clone, PartialEq, Eq)]
pub enum ReplInput {
    /// A blank line: read the next one.
    Blank,
    /// Quoting that does not close.
    Invalid,
    /// The arguments to parse: the program name, then the line's words.
    Args(Vec<String>),
}

/// How `shlex::split` divides a line into words, shell style; `None` where
/// the quoting is malformed.
pub uninterp spec fn shell_words(line: Seq<char>) -> Option<Seq<Seq<char>>>;

/// The views of a list of strings.
pub open spec fn string_list(s: Seq<String>) -> Seq<Seq<char>> {
    s.map_values(|x: String| x@)
}

/// `shlex::split`. Claims that its result is `shell_words` of the line:
/// the words, or `None` when the split reported an error.
#[verifier::external_body]
fn shell_split(line: &str) -> (r: Option<Vec<String>>)
    ensures
        match r {
            Some(v) => shell_words(line@) == Some(string_list(v@)),
            None => shell_words(line@) is None,
        },
{
    shlex::split(line)
}

impl<M> CliREPL<M> {
    /// A command line over `disk_manager`.
    pub fn new(disk_manager: M) -> (r: CliREPL<M>)
        ensures
            r.disk_manager == disk_manager,
    {
        CliREPL { disk_manager }
    }

    /// Whether a command ends the interactive mode.
    pub fn command_exits(command: &Commands) -> (r: bool)
        ensures
            r == (*command is Exit || *command is Quit),
    {
        match command {
            Commands::Exit | Commands::Quit => true,
            _ => false,
        }
    }

    /// Reads an interactive line: blank lines are skipped, the rest is split
    /// shell style and prefixed with the program name.
    pub fn read_line(line: &str) -> (r: ReplInput)
        ensures
            trim_ws(line@).len() == 0 ==> r is Blank,
            trim_ws(line@).len() > 0 ==> match shell_words(trim_ws(line@)) {
                Some(w) => r matches ReplInput::Args(a) && string_list(a@) == seq!["isekai"@] + w,
                None => r is Invalid,
            },
    {
        let cs = chars_of(line);
        let t = trim_chars(&cs);
        if t.len() == 0 {
            return ReplInput::Blank;
        }
        let input = string_from_chars(&t);
        match shell_split(input.as_str()) {
            None => ReplInput::Invalid,
            Some(tokens) => {
                let mut args: Vec<String> = Vec::new();
                args.push(String::from_str("isekai"));
                let mut i: usize = 0;
                while i < tokens.len()
                    invariant
                        i <= tokens@.len(),
                        string_list(args@) == seq!["isekai"@] + string_list(tokens@).take(i as int),
                    decreases tokens.len() - i,
                {
                    let ghost old_args = args@;
                    args.push(tokens[i].clone());
                    assert(args@ == old_args.push(tokens@[i as int]));
                    assert(string_list(args@) =~= string_list(old_args).push(tokens@[i as int]@));
                    assert(string_list(tokens@).take(i + 1) =~= string_list(tokens@).take(i as int).push(
                        tokens@[i as int]@,
                    ));
                    assert(string_list(args@) =~= seq!["isekai"@] + string_list(tokens@).take(i + 1));
                    i = i + 1;
                }
                assert(string_list(tokens@).take(tokens@.len() as int) =~= string_list(tokens@));
                ReplInput::Args(args)
            },
        }
    }
}

/// The words of `s`: its maximal runs of non-whitespace characters.
pub open spec fn split_ws(s: Seq<char>) -> Seq<Seq<char>>
    decreases s.len(),
{
    if s.len() == 0 {
        Seq::empty()
    } else {
        let prev = split_ws(s.drop_last());
        let c = s.last();
        if spec_is_whitespace(c) {
            prev
        } else if s.len() >= 2 && !spec_is_whitespace(s[s.len() - 2]) {
            prev.drop_last().push(prev.last().push(c))
        } else {
            prev.push(seq![c])
        }
    }
}

/// No word of `s` is longer, in UTF-8 bytes, than `s` itself.
proof fn lemma_words_fit(s: Seq<char>)
    ensures
        forall|i: int| 0 <= i < split_ws(s).len() ==> utf8_len(#[trigger] split_ws(s)[i]) <= utf8_len(s),
    decreases s.len(),
{
    if s.len() > 0 {
        let p = s.drop_last();
        lemma_words_fit(p);
        let prev = split_ws(p);
        let c = s.last();
        assert(utf8_len(s) == utf8_len(p) + utf8_width(c));
        if spec_is_whitespace(c) {
        } else if s.len() >= 2 && !spec_is_whitespace(s[s.len() - 2]) {
            lemma_last_char_starts_word(p);
            let t = prev.last();
            assert(t.push(c).drop_last() =~= t);
            assert(utf8_len(t.push(c)) == utf8_len(t) + utf8_width(c));
            let r = prev.drop_last().push(t.push(c));
            assert forall|i: int| 0 <= i < r.len() implies utf8_len(#[trigger] r[i]) <= utf8_len(s) by {
                if i < r.len() - 1 {
                    assert(r[i] == prev[i]);
                } else {
                    assert(r[i] == t.push(c));
                    assert(prev[prev.len() - 1] == t);
                }
            }
        } else {
            let r = prev.push(seq![c]);
            assert(seq![c].drop_last() =~= Seq::<char>::empty());
            assert(utf8_len(Seq::<char>::empty()) == 0);
            assert(seq![c].last() == c);
            assert(utf8_len(seq![c]) == utf8_width(c));
            assert forall|i: int| 0 <= i < r.len() implies utf8_len(#[trigger] r[i]) <= utf8_len(s) by {
                if i < r.len() - 1 {
                    assert(r[i] == prev[i]);
                }
            }
        }
    }
}

/// A text that ends in a word has at least one word.
proof fn lemma_last_char_starts_word(s: Seq<char>)
    requires
        s.len() > 0,
        !spec_is_whitespace(s.last()),
    ensures
        split_ws(s).len() > 0,
{
}

/// The word a completion replaces is no longer than the text before the
/// cursor, in UTF-8 bytes.
proof fn lemma_plan_word_fits(line: Seq<char>)
    ensures
        utf8_len(completion_plan(line).0) <= utf8_len(line),
{
    lemma_words_fit(line);
    let tokens = split_ws(line);
    if tokens.len() > 0 {
        assert(tokens.last() == tokens[tokens.len() - 1]);
    }
    assert(Seq::<char>::empty().len() == 0);
    assert(utf8_len(Seq::<char>::empty()) == 0);
}

/// `str::split_whitespace`, collected.
pub fn split_whitespace(s: &str) -> (r: Vec<String>)
    ensures
        string_list(r@) == split_ws(s@),
{
    let cs = chars_of(s);
    let mut words: Vec<String> = Vec::new();
    let mut in_word = false;
    let mut i: usize = 0;
    assert(cs@.take(0) =~= Seq::<char>::empty());
    while i < cs.len()
        invariant
            i <= cs@.len(),
            string_list(words@) == split_ws(cs@.take(i as int)),
            in_word == (i > 0 && !spec_is_whitespace(cs@[i - 1])),
            in_word ==> words@.len() > 0,
        decreases cs.len() - i,
    {
        let c = cs[i];
        let ghost prefix = cs@.take(i + 1);
        assert(prefix.drop_last() =~= cs@.take(i as int));
        assert(prefix.last() == c);
        if char_is_whitespace(c) {
            in_word = false;
        } else if in_word {
            assert(prefix[prefix.len() - 2] == cs@[i - 1]);
            let mut w = words.pop().unwrap();
            string_push(&mut w, c);
            words.push(w);
            assert(string_list(words@) =~= split_ws(prefix));
        } else {
            let mut w = String::new();
            string_push(&mut w, c);
            words.push(w);
            assert(w@ =~= seq![c]) by {
                assert(string_list(words@).last() == seq![c]);
            }
            assert(string_list(words@) =~= split_ws(prefix));
            in_word = true;
        }
        i = i + 1;
    }
    assert(cs@.take(cs@.len() as int) =~= cs@);
    words
}

/// A completion candidate: what is listed and what is inserted.
#[derive(Debug, Clone, PartialEq, Eq)]
pub struct Candidate {
    pub display: String,
    pub replacement: String,
}

/// What a completion needs from the disk manager.
#[derive(Debug, Clone, PartialEq, Eq)]
pub enum CompletionQuery {
    /// The command names.
    Commands,
    /// The disks, by stable identifier.
    Disks,
    /// The partitions of the given disk, by identifier.
    Partitions(String),
    /// The option names.
    Flags,
    /// Nothing: no candidates.
    Nothing,
}

/// How a line is completed: the word being completed, whether the
/// candidates replace it (else they are inserted at the cursor), and what
/// they are drawn from.
#[derive(Debug, Clone, PartialEq, Eq)]
pub struct CompletionPlan {
    pub word: String,
    pub replaces_word: bool,
    pub query: CompletionQuery,
}

/// The command names offered first.
pub open spec fn command_names() -> Seq<Seq<char>> {
    seq!["list"@, "parts"@, "shrink-and-install"@, "exit"@, "quit"@, "help"@]
}

/// The options of `shrink-and-install` offered.
pub open spec fn flag_names() -> Seq<Seq<char>> {
    seq!["--disk-id"@, "--iso-path"@, "--partition-id"@]
}

/// Whether a line before the cursor can be completed: completing a line
/// of whitespace that does not end in a space indexes a missing word.
pub open spec fn completable(line: Seq<char>) -> bool {
    split_ws(line).len() > 0 || spec_ends_with_space(line)
}

/// Whether `s` ends in a space character.
pub open spec fn spec_ends_with_space(s: Seq<char>) -> bool {
    s.len() > 0 && s.last() == ' '
}

/// The disk named after the last `--disk-id` option that has a value.
pub open spec fn disk_id_option(tokens: Seq<Seq<char>>) -> Option<Seq<char>>
    decreases tokens.len(),
{
    if tokens.len() < 2 {
        None
    } else if tokens[tokens.len() - 2] == "--disk-id"@ {
        Some(tokens.last())
    } else {
        disk_id_option(tokens.drop_last())
    }
}

/// The plan for completing the line `line` (the text before the cursor).
pub open spec fn completion_plan(line: Seq<char>) -> (Seq<char>, bool, CompletionQueryView) {
    let tokens = split_ws(line);
    let is_space = spec_ends_with_space(line);
    let word = if is_space || tokens.len() == 0 { Seq::empty() } else { tokens.last() };
    let n: int = if is_space { tokens.len() + 1int } else { tokens.len() as int };
    if n == 1 {
        (word, true, CompletionQueryView::Commands)
    } else if tokens[0] == "parts"@ && n == 2 {
        (word, true, CompletionQueryView::Disks)
    } else if tokens[0] == "shrink-and-install"@ {
        let prev = if n >= 2 && !is_space { tokens[tokens.len() - 2] } else if tokens.len() > 0 {
            tokens.last()
        } else {
            Seq::empty()
        };
        if prev == "--disk-id"@ {
            (word, true, CompletionQueryView::Disks)
        } else if prev == "--partition-id"@ {
            match disk_id_option(tokens) {
                Some(d) => (word, true, CompletionQueryView::Partitions(d)),
                None => (word, true, CompletionQueryView::Nothing),
            }
        } else if spec_starts_with(word, "--"@) || is_space {
            (word, true, CompletionQueryView::Flags)
        } else {
            (word, false, CompletionQueryView::Nothing)
        }
    } else {
        (word, false, CompletionQueryView::Nothing)
    }
}

/// The mathematical content of a `CompletionQuery`.
pub ghost enum CompletionQueryView {
    Commands,
    Disks,
    Partitions(Seq<char>),
    Flags,
    Nothing,
}

/// The view of a completion query.
pub open spec fn query_view(q: CompletionQuery) -> CompletionQueryView {
    match q {
        CompletionQuery::Commands => CompletionQueryView::Commands,
        CompletionQuery::Disks => CompletionQueryView::Disks,
        CompletionQuery::Partitions(d) => CompletionQueryView::Partitions(d@),
        CompletionQuery::Flags => CompletionQueryView::Flags,
        CompletionQuery::Nothing => CompletionQueryView::Nothing,
    }
}

/// The disk named after the last `--disk-id` option with a value.
fn find_disk_id_option(tokens: &Vec<String>) -> (r: Option<String>)
    ensures
        match disk_id_option(string_list(tokens@)) {
            Some(d) => r matches Some(x) && x@ == d,
            None => r is None,
        },
{
    let ghost v = string_list(tokens@);
    let mut k: usize = tokens.len();
    assert(v.take(k as int) =~= v);
    while k >= 2
        invariant
            k <= tokens@.len(),
            v == string_list(tokens@),
            disk_id_option(v) == disk_id_option(v.take(k as int)),
        decreases k,
    {
        let ghost t = v.take(k as int);
        assert(t[t.len() - 2] == tokens@[k - 2]@);
        if same_text(tokens[k - 2].as_str(), "--disk-id") {
            assert(t.last() == tokens@[k - 1]@);
            return Some(tokens[k - 1].clone());
        }
        assert(t.drop_last() =~= v.take(k - 1));
        k = k - 1;
    }
    None
}

/// Plans the completion of `line_until_cursor`.
pub fn plan_completion(line_until_cursor: &str) -> (r: CompletionPlan)
    requires
        completable(line_until_cursor@),
    ensures
        (r.word@, r.replaces_word, query_view(r.query)) == completion_plan(line_until_cursor@),
        utf8_len(r.word@) <= utf8_len(line_until_cursor@),
{
    proof {
        lemma_plan_word_fits(line_until_cursor@);
    }
    let tokens = split_whitespace(line_until_cursor);
    let ghost tv = string_list(tokens@);
    let cs = chars_of(line_until_cursor);
    let is_space = cs.len() > 0 && cs[cs.len() - 1] == ' ';
    let word = if is_space || tokens.len() == 0 { String::new() } else { tokens[tokens.len() - 1].clone() };
    let len = tokens.len();
    let one = if is_space { len == 0 } else { len == 1 };
    if one {
        return CompletionPlan { word, replaces_word: true, query: CompletionQuery::Commands };
    }
    assert(tokens.len() > 0);
    assert(tv[0] == tokens@[0]@);
    let two = if is_space { len == 1 } else { len == 2 };
    if same_text(tokens[0].as_str(), "parts") && two {
        return CompletionPlan { word, replaces_word: true, query: CompletionQuery::Disks };
    }
    if same_text(tokens[0].as_str(), "shrink-and-install") {
        let prev = if !is_space && len >= 2 {
            tokens[tokens.len() - 2].clone()
        } else {
            tokens[tokens.len() - 1].clone()
        };
        if same_text(prev.as_str(), "--disk-id") {
            return CompletionPlan { word, replaces_word: true, query: CompletionQuery::Disks };
        }
        if same_text(prev.as_str(), "--partition-id") {
            return match find_disk_id_option(&tokens) {
                Some(d) => CompletionPlan { word, replaces_word: true, query: CompletionQuery::Partitions(d) },
                None => CompletionPlan { word, replaces_word: true, query: CompletionQuery::Nothing },
            };
        }
        let wc = chars_of(word.as_str());
        let dashes = chars_of("--");
        if starts_with_chars(&wc, &dashes) || is_space {
            return CompletionPlan { word, replaces_word: true, query: CompletionQuery::Flags };
        }
        return CompletionPlan { word, replaces_word: false, query: CompletionQuery::Nothing };
    }
    CompletionPlan { word, replaces_word: false, query: CompletionQuery::Nothing }
}

/// The candidates among `names` that begin with `word`, each inserted as
/// itself.
pub open spec fn name_candidates(names: Seq<Seq<char>>, word: Seq<char>) -> Seq<Seq<char>>
    decreases names.len(),
{
    if names.len() == 0 {
        Seq::empty()
    } else {
        let prev = name_candidates(names.drop_last(), word);
        if spec_starts_with(names.last(), word) {
            prev.push(names.last())
        } else {
            prev
        }
    }
}

/// The views of a list of string slices.
pub open spec fn str_list(s: Seq<&str>) -> Seq<Seq<char>> {
    s.map_values(|x: &str| x@)
}

/// The candidates of `names` for `word`, in order.
fn filter_names(names: &Vec<&str>, word: &str) -> (r: Vec<Candidate>)
    ensures
        r@.map_values(|c: Candidate| c.display@) == name_candidates(str_list(names@), word@),
        forall|i: int| 0 <= i < r@.len() ==> (#[trigger] r@[i]).replacement@ == r@[i].display@,
{
    let ghost nv = str_list(names@);
    let wc = chars_of(word);
    let mut out: Vec<Candidate> = Vec::new();
    let mut i: usize = 0;
    assert(nv.take(0) =~= Seq::<Seq<char>>::empty());
    while i < names.len()
        invariant
            nv == str_list(names@),
            wc@ == word@,
            i <= names@.len(),
            out@.map_values(|c: Candidate| c.display@) == name_candidates(nv.take(i as int), word@),
            forall|j: int| 0 <= j < out@.len() ==> (#[trigger] out@[j]).replacement@ == out@[j].display@,
        decreases names.len() - i,
    {
        assert(nv.take(i + 1).drop_last() =~= nv.take(i as int));
        assert(nv.take(i + 1).last() == names@[i as int]@);
        let nc = chars_of(names[i]);
        if starts_with_chars(&nc, &wc) {
            out.push(Candidate { display: String::from_str(names[i]), replacement: String::from_str(names[i]) });
            assert(out@.map_values(|c: Candidate| c.display@) =~= name_candidates(nv.take(i + 1), word@));
        }
        i = i + 1;
    }
    assert(nv.take(names@.len() as int) =~= nv);
    out
}

/// The command names that complete `word`.
pub fn command_candidates(word: &str) -> (r: Vec<Candidate>)
    ensures
        r@.map_values(|c: Candidate| c.display@) == name_candidates(command_names(), word@),
        forall|i: int| 0 <= i < r@.len() ==> (#[trigger] r@[i]).replacement@ == r@[i].display@,
{
    let names = vec!["list", "parts", "shrink-and-install", "exit", "quit", "help"];
    assert(str_list(names@) =~= command_names());
    filter_names(&names, word)
}

/// The option names that complete `word`.
pub fn flag_candidates(word: &str) -> (r: Vec<Candidate>)
    ensures
        r@.map_values(|c: Candidate| c.display@) == name_candidates(flag_names(), word@),
        forall|i: int| 0 <= i < r@.len() ==> (#[trigger] r@[i]).replacement@ == r@[i].display@,
{
    let names = vec!["--disk-id", "--iso-path", "--partition-id"];
    assert(str_list(names@) =~= flag_names());
    filter_names(&names, word)
}

/// The (display, replacement) pairs of a list of candidates.
pub open spec fn candidate_views(s: Seq<Candidate>) -> Seq<(Seq<char>, Seq<char>)> {
    s.map_values(|c: Candidate| (c.display@, c.replacement@))
}

/// The disk candidates for `word`: each disk whose stable identifier
/// begins with it, listed as `id (name)` and inserted as the identifier.
pub open spec fn disk_candidate_list(disks: Seq<Disk>, word: Seq<char>) -> Seq<(Seq<char>, Seq<char>)>
    decreases disks.len(),
{
    if disks.len() == 0 {
        Seq::empty()
    } else {
        let prev = disk_candidate_list(disks.drop_last(), word);
        let d = disks.last();
        if spec_starts_with(d.stable_id@, word) {
            prev.push((d.stable_id@ + " ("@ + d.name@ + ")"@, d.stable_id@))
        } else {
            prev
        }
    }
}

/// The partition candidates for `word`: each partition whose identifier
/// begins with it, listed as `id (<size in MiB>MB <file system>)` and
/// inserted as the identifier.
pub open spec fn partition_candidate_list(parts: Seq<Partition>, word: Seq<char>) -> Seq<(Seq<char>, Seq<char>)>
    decreases parts.len(),
{
    if parts.len() == 0 {
        Seq::empty()
    } else {
        let prev = partition_candidate_list(parts.drop_last(), word);
        let p = parts.last();
        if spec_starts_with(p.id@, word) {
            prev.push((
                p.id@ + " ("@ + decimal((p.size_bytes / 1048576) as nat) + "MB "@ + p.file_system@ + ")"@,
                p.id@,
            ))
        } else {
            prev
        }
    }
}

/// The disks that complete `word`.
pub fn disk_candidates(disks: &Vec<Disk>, word: &str) -> (r: Vec<Candidate>)
    ensures
        candidate_views(r@) == disk_candidate_list(disks@, word@),
{
    let wc = chars_of(word);
    let mut out: Vec<Candidate> = Vec::new();
    let mut i: usize = 0;
    assert(disks@.take(0) =~= Seq::<Disk>::empty());
    while i < disks.len()
        invariant
            wc@ == word@,
            i <= disks@.len(),
            candidate_views(out@) == disk_candidate_list(disks@.take(i as int), word@),
        decreases disks.len() - i,
    {
        let d = &disks[i];
        assert(disks@.take(i + 1).drop_last() =~= disks@.take(i as int));
        assert(disks@.take(i + 1).last() == *d);
        let ic = chars_of(d.stable_id.as_str());
        if starts_with_chars(&ic, &wc) {
            let mut display = d.stable_id.clone();
            push_str(&mut display, " (");
            push_str(&mut display, d.name.as_str());
            push_str(&mut display, ")");
            let ghost before = out@;
            out.push(Candidate { display, replacement: d.stable_id.clone() });
            assert(candidate_views(out@) =~= candidate_views(before).push(
                (d.stable_id@ + " ("@ + d.name@ + ")"@, d.stable_id@),
            ));
        }
        i = i + 1;
    }
    assert(disks@.take(disks@.len() as int) =~= disks@);
    out
}

/// The partitions that complete `word`.
pub fn partition_candidates(parts: &Vec<Partition>, word: &str) -> (r: Vec<Candidate>)
    ensures
        candidate_views(r@) == partition_candidate_list(parts@, word@),
{
    let wc = chars_of(word);
    let mut out: Vec<Candidate> = Vec::new();
    let mut i: usize = 0;
    assert(parts@.take(0) =~= Seq::<Partition>::empty());
    while i < parts.len()
        invariant
            wc@ == word@,
            i <= parts@.len(),
            candidate_views(out@) == partition_candidate_list(parts@.take(i as int), word@),
        decreases parts.len() - i,
    {
        let p = &parts[i];
        assert(parts@.take(i + 1).drop_last() =~= parts@.take(i as int));
        assert(parts@.take(i + 1).last() == *p);
        let ic = chars_of(p.id.as_str());
        if starts_with_chars(&ic, &wc) {
            let mut display = p.id.clone();
            push_str(&mut display, " (");
            let mb = decimal_string(p.size_bytes / 1024 / 1024);
            push_str(&mut display, mb.as_str());
            push_str(&mut display, "MB ");
            push_str(&mut display, p.file_system.as_str());
            push_str(&mut display, ")");
            let ghost before = out@;
            out.push(Candidate { display, replacement: p.id.clone() });
            assert(candidate_views(out@) =~= candidate_views(before).push(
                (p.id@ + " ("@ + decimal((p.size_bytes / 1048576) as nat) + "MB "@ + p.file_system@ + ")"@, p.id@),
            ));
        }
        i = i + 1;
    }
    assert(parts@.take(parts@.len() as int) =~= parts@);
    out
}

/// Where the candidates are inserted: at the start of the word being
/// completed (its length in bytes before the cursor), or at the cursor.
pub fn completion_start(pos: usize, plan: &CompletionPlan) -> (r: usize)
    requires
        plan.replaces_word ==> utf8_len(plan.word@) <= pos,
    ensures
        r == (if plan.replaces_word { pos - utf8_len(plan.word@) } else { pos as int }),
{
    if !plan.replaces_word {
        return pos;
    }
    let cs = chars_of(plan.word.as_str());
    let mut n: usize = 0;
    let mut i: usize = 0;
    assert(cs@.take(0) =~= Seq::<char>::empty());
    while i < cs.len()
        invariant
            cs@ == plan.word@,
            i <= cs@.len(),
            n == utf8_len(cs@.take(i as int)),
            utf8_len(cs@) <= pos,
        decreases cs.len() - i,
    {
        let u = cs[i] as u32;
        let w: usize = if u < 0x80 { 1 } else if u < 0x800 { 2 } else if u < 0x10000 { 3 } else { 4 };
        assert(cs@.take(i + 1).drop_last() =~= cs@.take(i as int));
        proof {
            crate::workflow::lemma_utf8_len_prefix(cs@, i + 1);
        }
        n = n + w;
        i = i + 1;
    }
    assert(cs@.take(cs@.len() as int) =~= cs@);
    pos - n
}

/// `n` copies of `c`.
pub open spec fn repeat(c: char, n: nat) -> Seq<char> {
    Seq::new(n, |i: int| c)
}

/// `s` padded with spaces on the right to `width` characters, as the `<`
/// alignment of a format width does.
pub open spec fn pad_right(s: Seq<char>, width: nat) -> Seq<char> {
    if s.len() < width {
        s + repeat(' ', (width - s.len()) as nat)
    } else {
        s
    }
}

/// Appends `s` padded to `width` characters.
fn push_padded(out: &mut String, s: &str, width: usize)
    ensures
        final(out)@ == old(out)@ + pad_right(s@, width as nat),
{
    let cs = chars_of(s);
    push_str(out, s);
    let mut n: usize = cs.len();
    let ghost start = out@;
    while n < width
        invariant
            cs@ == s@,
            cs@.len() <= n <= width || (n == cs@.len() && n >= width),
            out@ == start + repeat(' ', (n - cs@.len()) as nat),
        decreases width - n,
    {
        string_push(out, ' ');
        assert(repeat(' ', (n + 1 - cs@.len()) as nat) =~= repeat(' ', (n - cs@.len()) as nat).push(' '));
        n = n + 1;
    }
    assert(final(out)@ =~= old(out)@ + pad_right(s@, width as nat)) by {
        if cs@.len() >= width {
            assert(repeat(' ', 0) =~= Seq::<char>::empty());
        }
    }
}

/// The line of dashes that frames the tables: 85 of them.
pub open spec fn rule_line() -> Seq<char> {
    repeat('-', 85)
}

/// A line of 85 dashes.
fn rule() -> (r: String)
    ensures
        r@ == rule_line(),
{
    let mut out = String::new();
    let mut i: usize = 0;
    while i < 85
        invariant
            i <= 85,
            out@ == repeat('-', i as nat),
        decreases 85 - i,
    {
        string_push(&mut out, '-');
        assert(repeat('-', (i + 1) as nat) =~= repeat('-', i as nat).push('-'));
        i = i + 1;
    }
    out
}

/// An identifier as a table shows it: one longer than 38 bytes is cut to
/// its first 35 bytes and `...`; `None` where byte 35 falls inside a
/// character (cutting there is refused).
pub open spec fn shown_id(id: Seq<char>) -> Option<Seq<char>> {
    if utf8_len(id) <= 38 {
        Some(id)
    } else if exists|k: int| 0 <= k <= id.len() && utf8_len(#[trigger] id.take(k)) == 35 {
        Some(id.take(choose|k: int| 0 <= k <= id.len() && utf8_len(#[trigger] id.take(k)) == 35) + "..."@)
    } else {
        None
    }
}

/// The prefix lengths grow one character at a time.
proof fn lemma_utf8_take_step(s: Seq<char>, k: int)
    requires
        0 <= k < s.len(),
    ensures
        utf8_len(s.take(k + 1)) == utf8_len(s.take(k)) + utf8_width(s[k]),
{
    assert(s.take(k + 1).drop_last() =~= s.take(k));
}

/// Prefixes of more characters take more bytes.
proof fn lemma_utf8_take_monotone(s: Seq<char>, j: int, k: int)
    requires
        0 <= j < k <= s.len(),
    ensures
        utf8_len(s.take(j)) < utf8_len(s.take(k)),
    decreases k - j,
{
    lemma_utf8_take_step(s, k - 1);
    if j < k - 1 {
        lemma_utf8_take_monotone(s, j, k - 1);
    }
}

/// The shown form of an identifier.
pub fn show_id(id: &str) -> (r: Option<String>)
    ensures
        opt_view(r) == shown_id(id@),
{
    let cs = chars_of(id);
    let mut b: usize = 0;
    let mut j: usize = 0;
    assert(cs@.take(0) =~= Seq::<char>::empty());
    while j < cs.len() && b < 35
        invariant
            cs@ == id@,
            j <= cs@.len(),
            b == utf8_len(cs@.take(j as int)),
            b <= 38,
            forall|q: int| 0 <= q < j ==> utf8_len(#[trigger] cs@.take(q)) < 35,
        decreases cs.len() - j,
    {
        let u = cs[j] as u32;
        let w: usize = if u < 0x80 { 1 } else if u < 0x800 { 2 } else if u < 0x10000 { 3 } else { 4 };
        proof {
            lemma_utf8_take_step(cs@, j as int);
        }
        b = b + w;
        j = j + 1;
    }
    let mut t: usize = b;
    let mut m: usize = j;
    while m < cs.len() && t <= 38
        invariant
            cs@ == id@,
            j <= m <= cs@.len(),
            t == utf8_len(cs@.take(m as int)),
            t <= 42,
        decreases cs.len() - m,
    {
        let u = cs[m] as u32;
        let w: usize = if u < 0x80 { 1 } else if u < 0x800 { 2 } else if u < 0x10000 { 3 } else { 4 };
        proof {
            lemma_utf8_take_step(cs@, m as int);
        }
        t = t + w;
        m = m + 1;
    }
    proof {
        assert(cs@.take(cs@.len() as int) =~= cs@);
        crate::workflow::lemma_utf8_len_prefix(cs@, m as int);
    }
    if t <= 38 {
        return Some(String::from_str(id));
    }
    assert(utf8_len(id@) > 38);
    if b == 35 {
        let ghost kk = choose|q: int| 0 <= q <= id@.len() && utf8_len(#[trigger] id@.take(q)) == 35;
        assert(utf8_len(id@.take(j as int)) == 35);
        proof {
            if kk < j {
                lemma_utf8_take_monotone(id@, kk, j as int);
            } else if kk > j {
                lemma_utf8_take_monotone(id@, j as int, kk);
            }
        }
        let mut out: String = String::new();
        let mut q: usize = 0;
        while q < j
            invariant
                q <= j <= cs@.len(),
                out@ == cs@.take(q as int),
            decreases j - q,
        {
            string_push(&mut out, cs[q]);
            assert(cs@.take(q + 1) =~= cs@.take(q as int).push(cs@[q as int]));
            q = q + 1;
        }
        push_str(&mut out, "...");
        return Some(out);
    }
    assert forall|q: int| 0 <= q <= id@.len() implies utf8_len(#[trigger] id@.take(q)) != 35 by {
        if q > j {
            lemma_utf8_take_monotone(id@, j as int, q);
        }
    }
    None
}

/// The view of an optional string.
pub open spec fn opt_view(s: Option<String>) -> Option<Seq<char>> {
    match s {
        Some(x) => Some(x@),
        None => None,
    }
}

/// The columns of a table line, separated by ` | `.
pub open spec fn table_line(cols: Seq<Seq<char>>) -> Seq<char>
    decreases cols.len(),
{
    if cols.len() == 0 {
        Seq::empty()
    } else if cols.len() == 1 {
        cols[0]
    } else {
        table_line(cols.drop_last()) + " | "@ + cols.last()
    }
}

/// The first `n` characters of `s` (all of it when shorter).
pub open spec fn take_chars(s: Seq<char>, n: nat) -> Seq<char> {
    if s.len() <= n { s } else { s.take(n as int) }
}

/// The disk table's header line.
pub open spec fn disk_header_text() -> Seq<char> {
    table_line(seq![pad_right("Stable ID"@, 40), pad_right("Name"@, 20), pad_right("Size (GB)"@, 10), pad_right("Sys"@, 5)])
}

/// The disk table's line for `d`, with its identifier shown as `id`.
pub open spec fn disk_row_text(d: Disk, id: Seq<char>) -> Seq<char> {
    table_line(seq![
        pad_right(id, 40),
        pad_right(take_chars(d.name@, 20), 20),
        pad_right(decimal(d.total_gb as nat), 10),
        pad_right(if d.is_system_drive { "*"@ } else { " "@ }, 5),
    ])
}

/// The partition table's header line.
pub open spec fn partition_header_text() -> Seq<char> {
    table_line(seq![pad_right("ID"@, 40), pad_right("Mount"@, 10), pad_right("Size (GB)"@, 10), pad_right("FS"@, 10)])
}

/// The mount column of a partition: its drive letter, or `-`.
pub open spec fn mount_text(p: Partition) -> Seq<char> {
    match p.drive_letter {
        Some(l) => l@,
        None => "-"@,
    }
}

/// The partition table's line for `p`, with its identifier shown as `id`.
pub open spec fn partition_row_text(p: Partition, id: Seq<char>) -> Seq<char> {
    table_line(seq![
        pad_right(id, 40),
        pad_right(mount_text(p), 10),
        pad_right(decimal(p.size_gb as nat), 10),
        pad_right(p.file_system@, 10),
    ])
}

/// Joins four padded columns with ` | `.
fn four_columns(a: &str, wa: usize, b: &str, wb: usize, c: &str, wc: usize, d: &str, wd: usize) -> (r: String)
    ensures
        r@ == table_line(seq![
            pad_right(a@, wa as nat),
            pad_right(b@, wb as nat),
            pad_right(c@, wc as nat),
            pad_right(d@, wd as nat),
        ]),
{
    let mut out = String::new();
    push_padded(&mut out, a, wa);
    push_str(&mut out, " | ");
    push_padded(&mut out, b, wb);
    push_str(&mut out, " | ");
    push_padded(&mut out, c, wc);
    push_str(&mut out, " | ");
    push_padded(&mut out, d, wd);
    let ghost cols = seq![
        pad_right(a@, wa as nat),
        pad_right(b@, wb as nat),
        pad_right(c@, wc as nat),
        pad_right(d@, wd as nat),
    ];
    assert(cols.drop_last() =~= seq![cols[0], cols[1], cols[2]]);
    assert(seq![cols[0], cols[1], cols[2]].drop_last() =~= seq![cols[0], cols[1]]);
    assert(seq![cols[0], cols[1]].drop_last() =~= seq![cols[0]]);
    assert(table_line(seq![cols[0]]) == cols[0]);
    assert(table_line(seq![cols[0], cols[1]]) == cols[0] + " | "@ + cols[1]);
    assert(table_line(seq![cols[0], cols[1], cols[2]]) == cols[0] + " | "@ + cols[1] + " | "@ + cols[2]);
    assert(table_line(cols) == cols[0] + " | "@ + cols[1] + " | "@ + cols[2] + " | "@ + cols[3]);
    assert(out@ =~= cols[0] + " | "@ + cols[1] + " | "@ + cols[2] + " | "@ + cols[3]);
    out
}

/// The first `n` characters of `s`.
fn first_chars(s: &str, n: usize) -> (r: String)
    ensures
        r@ == take_chars(s@, n as nat),
{
    let cs = chars_of(s);
    if cs.len() <= n {
        return String::from_str(s);
    }
    let mut out = String::new();
    let mut q: usize = 0;
    while q < n
        invariant
            n < cs@.len(),
            q <= n,
            out@ == cs@.take(q as int),
        decreases n - q,
    {
        string_push(&mut out, cs[q]);
        assert(cs@.take(q + 1) =~= cs@.take(q as int).push(cs@[q as int]));
        q = q + 1;
    }
    out
}

/// The line of dashes that frames a table.
pub fn table_rule() -> (r: String)
    ensures
        r@ == rule_line(),
{
    rule()
}

/// The header of the disk table.
pub fn disk_table_header() -> (r: String)
    ensures
        r@ == disk_header_text(),
{
    four_columns("Stable ID", 40, "Name", 20, "Size (GB)", 10, "Sys", 5)
}

/// The disk table's line for `disk`; `None` where its identifier cannot be
/// cut for display.
pub fn disk_row(disk: &Disk) -> (r: Option<String>)
    ensures
        match shown_id(disk.stable_id@) {
            Some(id) => r matches Some(line) && line@ == disk_row_text(*disk, id),
            None => r is None,
        },
{
    let id = match show_id(disk.stable_id.as_str()) {
        Some(id) => id,
        None => return None,
    };
    let name = first_chars(disk.name.as_str(), 20);
    let size = decimal_string(disk.total_gb as u64);
    let flag = if disk.is_system_drive { "*" } else { " " };
    Some(four_columns(id.as_str(), 40, name.as_str(), 20, size.as_str(), 10, flag, 5))
}

/// The header of the partition table.
pub fn partition_table_header() -> (r: String)
    ensures
        r@ == partition_header_text(),
{
    four_columns("ID", 40, "Mount", 10, "Size (GB)", 10, "FS", 10)
}

/// The partition table's line for `part`; `None` where its identifier
/// cannot be cut for display.
pub fn partition_row(part: &Partition) -> (r: Option<String>)
    ensures
        match shown_id(part.id@) {
            Some(id) => r matches Some(line) && line@ == partition_row_text(*part, id),
            None => r is None,
        },
{
    let id = match show_id(part.id.as_str()) {
        Some(id) => id,
        None => return None,
    };
    let mount: &str = match &part.drive_letter {
        Some(l) => l.as_str(),
        None => "-",
    };
    assert(mount@ == mount_text(*part));
    let size = decimal_string(part.size_gb as u64);
    let line = four_columns(id.as_str(), 40, mount, 10, size.as_str(), 10, part.file_system.as_str(), 10);
    Some(line)
}

/// Every offered name begins with the word being completed, and every name
/// that does is offered.
pub proof fn lemma_candidates_complete_the_word(names: Seq<Seq<char>>, word: Seq<char>)
    ensures
        forall|i: int| 0 <= i < name_candidates(names, word).len() ==> spec_starts_with(
            #[trigger] name_candidates(names, word)[i],
            word,
        ),
        forall|j: int| 0 <= j < names.len() && spec_starts_with(#[trigger] names[j], word) ==> name_candidates(
            names,
            word,
        ).contains(names[j]),
    decreases names.len(),
{
    if names.len() > 0 {
        lemma_candidates_complete_the_word(names.drop_last(), word);
        let prev = name_candidates(names.drop_last(), word);
        assert forall|j: int| 0 <= j < names.len() && spec_starts_with(#[trigger] names[j], word) implies name_candidates(
            names,
            word,
        ).contains(names[j]) by {
            if j < names.len() - 1 {
                assert(names.drop_last()[j] == names[j]);
                let k = choose|k: int| 0 <= k < prev.len() && prev[k] == names[j];
                if spec_starts_with(names.last(), word) {
                    assert(prev.push(names.last())[k] == names[j]);
                }
            } else {
                assert(prev.push(names.last())[prev.len() as int] == names[j]);
            }
        }
    }
}

} // verus!
