//! The command line: its grammar, and the commands it describes.

use crate::error;
use crate::error::Error;
use crate::model;
use crate::model::{has, join, pick, pick_last, Row};
use crate::text;
use crate::text::{same, to_chars};
use vstd::prelude::*;
use vstd::string::*;

verus! {

/// Show continuation state for the current workspace.
#[derive(Debug, Clone)]
pub struct StateShow {
    /// Override the detected workspace identifier.
    pub workspace: Option<String>,
}

/// Update continuation state. Omitted fields are preserved.
#[derive(Debug, Clone)]
pub struct StateSet {
    /// Override the detected workspace identifier.
    pub workspace: Option<String>,
    /// Last agent or session identifier associated with this checkpoint.
    pub session: Option<String>,
    /// Current high-level goal.
    pub goal: Option<String>,
    /// Optional external task reference.
    pub task: Option<String>,
    /// Compact resume checkpoint.
    pub checkpoint: Option<String>,
    /// Fields to clear: session, goal, task, or checkpoint.
    pub clear: Vec<String>,
}

/// Remove continuation state for the current workspace.
#[derive(Debug, Clone)]
pub struct StateClear {
    /// Override the detected workspace identifier.
    pub workspace: Option<String>,
}

/// Build agent-facing context from continuation state and durable memory.
#[derive(Debug, Clone)]
pub struct ContextCommand {
    /// Prompt or query to recall relevant memory for.
    pub query: String,
    /// Override the detected workspace identifier.
    pub workspace: Option<String>,
    /// Maximum number of memories.
    pub limit: Option<usize>,
    /// Maximum total memory-text bytes; 0 disables the budget.
    pub max_bytes: Option<usize>,
}

/// Store one durable memory.
#[derive(Debug, Clone)]
pub struct Remember {
    /// Memory text.
    pub text: String,
    /// Memory kind.
    pub kind: Option<String>,
    /// Actor that established the memory, such as user or agent.
    pub actor: Option<String>,
    /// Provenance type, such as cli, session, git, file, or url.
    pub source_type: Option<String>,
    /// Optional source locator or stable reference.
    pub source_ref: Option<String>,
}

/// Correct one active memory while preserving the superseded record.
#[derive(Debug, Clone)]
pub struct Correct {
    /// Full memory ID or an unambiguous ID prefix.
    pub id: String,
    /// Replacement memory text.
    pub text: String,
    /// Override the existing memory kind.
    pub kind: Option<String>,
    /// Actor that established the correction.
    pub actor: Option<String>,
    /// Provenance type for the correction.
    pub source_type: Option<String>,
    /// Optional source locator or stable reference for the correction.
    pub source_ref: Option<String>,
}

/// Search active memory. Lexical search is the default.
#[derive(Debug, Clone)]
pub struct Search {
    /// Search query.
    pub query: String,
    /// Use local embeddings and exact cosine similarity.
    pub semantic: bool,
    /// Maximum number of results.
    pub limit: Option<usize>,
}

/// Read one memory and its provenance.
#[derive(Debug, Clone)]
pub struct Get {
    /// Full memory ID or an unambiguous ID prefix.
    pub id: String,
}

/// Soft-delete one active memory from retrieval.
#[derive(Debug, Clone)]
pub struct Forget {
    /// Full memory ID or an unambiguous ID prefix.
    pub id: String,
}

/// Build missing semantic embeddings for active memories.
#[derive(Debug, Clone)]
pub struct IndexCommand {
    /// Maximum number of memories to embed.
    pub limit: Option<usize>,
    /// Do nothing when the embedding model is not already cached locally.
    pub cached_only: bool,
}

/// Write all active memories, one per line.
#[derive(Debug, Clone)]
pub struct Export {
    /// Write superseded memories too.
    pub include_superseded: bool,
}

/// Model of `StateShow`.
#[verifier::ext_equal]
pub struct StateShowView {
    pub workspace: Option<Seq<char>>,
}

/// Model of `StateSet`.
#[verifier::ext_equal]
pub struct StateSetView {
    pub workspace: Option<Seq<char>>,
    pub session: Option<Seq<char>>,
    pub goal: Option<Seq<char>>,
    pub task: Option<Seq<char>>,
    pub checkpoint: Option<Seq<char>>,
    pub clear: Seq<Seq<char>>,
}

/// Model of `StateClear`.
#[verifier::ext_equal]
pub struct StateClearView {
    pub workspace: Option<Seq<char>>,
}

/// Model of `ContextCommand`.
#[verifier::ext_equal]
pub struct ContextView {
    pub query: Seq<char>,
    pub workspace: Option<Seq<char>>,
    pub limit: Option<int>,
    pub max_bytes: Option<int>,
}

/// Model of `Remember`.
#[verifier::ext_equal]
pub struct RememberView {
    pub text: Seq<char>,
    pub kind: Option<Seq<char>>,
    pub actor: Option<Seq<char>>,
    pub source_type: Option<Seq<char>>,
    pub source_ref: Option<Seq<char>>,
}

/// Model of `Correct`.
#[verifier::ext_equal]
pub struct CorrectView {
    pub id: Seq<char>,
    pub text: Seq<char>,
    pub kind: Option<Seq<char>>,
    pub actor: Option<Seq<char>>,
    pub source_type: Option<Seq<char>>,
    pub source_ref: Option<Seq<char>>,
}

/// Model of `Search`.
#[verifier::ext_equal]
pub struct SearchView {
    pub query: Seq<char>,
    pub semantic: bool,
    pub limit: Option<int>,
}

/// Model of `Get`.
#[verifier::ext_equal]
pub struct GetView {
    pub id: Seq<char>,
}

/// Model of `Forget`.
#[verifier::ext_equal]
pub struct ForgetView {
    pub id: Seq<char>,
}

/// Model of `IndexCommand`.
#[verifier::ext_equal]
pub struct IndexView {
    pub limit: Option<int>,
    pub cached_only: bool,
}

/// Model of `Export`.
#[verifier::ext_equal]
pub struct ExportView {
    pub include_superseded: bool,
}

impl View for StateShow {
    type V = StateShowView;

    open spec fn view(&self) -> StateShowView {
        StateShowView {
            workspace: model::text_of(self.workspace),
        }
    }
}

impl View for StateSet {
    type V = StateSetView;

    open spec fn view(&self) -> StateSetView {
        StateSetView {
            workspace: model::text_of(self.workspace),
            session: model::text_of(self.session),
            goal: model::text_of(self.goal),
            task: model::text_of(self.task),
            checkpoint: model::text_of(self.checkpoint),
            clear: model::views(self.clear@),
        }
    }
}

impl View for StateClear {
    type V = StateClearView;

    open spec fn view(&self) -> StateClearView {
        StateClearView {
            workspace: model::text_of(self.workspace),
        }
    }
}

impl View for ContextCommand {
    type V = ContextView;

    open spec fn view(&self) -> ContextView {
        ContextView {
            query: self.query@,
            workspace: model::text_of(self.workspace),
            limit: size_of(self.limit),
            max_bytes: size_of(self.max_bytes),
        }
    }
}

impl View for Remember {
    type V = RememberView;

    open spec fn view(&self) -> RememberView {
        RememberView {
            text: self.text@,
            kind: model::text_of(self.kind),
            actor: model::text_of(self.actor),
            source_type: model::text_of(self.source_type),
            source_ref: model::text_of(self.source_ref),
        }
    }
}

impl View for Correct {
    type V = CorrectView;

    open spec fn view(&self) -> CorrectView {
        CorrectView {
            id: self.id@,
            text: self.text@,
            kind: model::text_of(self.kind),
            actor: model::text_of(self.actor),
            source_type: model::text_of(self.source_type),
            source_ref: model::text_of(self.source_ref),
        }
    }
}

impl View for Search {
    type V = SearchView;

    open spec fn view(&self) -> SearchView {
        SearchView {
            query: self.query@,
            semantic: self.semantic,
            limit: size_of(self.limit),
        }
    }
}

impl View for Get {
    type V = GetView;

    open spec fn view(&self) -> GetView {
        GetView {
            id: self.id@,
        }
    }
}

impl View for Forget {
    type V = ForgetView;

    open spec fn view(&self) -> ForgetView {
        ForgetView {
            id: self.id@,
        }
    }
}

impl View for IndexCommand {
    type V = IndexView;

    open spec fn view(&self) -> IndexView {
        IndexView {
            limit: size_of(self.limit),
            cached_only: self.cached_only,
        }
    }
}

impl View for Export {
    type V = ExportView;

    open spec fn view(&self) -> ExportView {
        ExportView {
            include_superseded: self.include_superseded,
        }
    }
}

/// A command about the state of a workspace.
#[derive(Debug, Clone)]
pub enum StateCommand {
    Show(StateShow),
    Update(StateSet),
    Clear(StateClear),
}

/// A command.
#[derive(Debug, Clone)]
pub enum Command {
    Init,
    Status,
    State(StateCommand),
    Context(ContextCommand),
    Remember(Remember),
    Correct(Correct),
    Search(Search),
    Get(Get),
    Forget(Forget),
    Index(IndexCommand),
    Export(Export),
}

/// A command line that runs a command.
#[derive(Debug, Clone)]
pub struct MemCli {
    /// Emit machine-readable JSON.
    pub json: bool,
    /// Use an exact database instead of the repo-local store.
    pub db: Option<String>,
    pub command: Command,
}

/// What a command line asks for.
#[derive(Debug, Clone)]
pub enum Request {
    Help,
    Version,
    Run(MemCli),
}

/// Model of a command.
pub enum CommandView {
    Init,
    Status,
    StateShow(StateShowView),
    StateSet(StateSetView),
    StateClear(StateClearView),
    Context(ContextView),
    Remember(RememberView),
    Correct(CorrectView),
    Search(SearchView),
    Get(GetView),
    Forget(ForgetView),
    Index(IndexView),
    Export(ExportView),
}

/// Model of what a command line asks for.
pub enum RequestView {
    Help,
    Version,
    Run { json: bool, db: Option<Seq<char>>, command: CommandView },
}

impl View for Command {
    type V = CommandView;

    open spec fn view(&self) -> CommandView {
        match *self {
            Command::Init => CommandView::Init,
            Command::Status => CommandView::Status,
            Command::State(StateCommand::Show(c)) => CommandView::StateShow(c@),
            Command::State(StateCommand::Update(c)) => CommandView::StateSet(c@),
            Command::State(StateCommand::Clear(c)) => CommandView::StateClear(c@),
            Command::Context(c) => CommandView::Context(c@),
            Command::Remember(c) => CommandView::Remember(c@),
            Command::Correct(c) => CommandView::Correct(c@),
            Command::Search(c) => CommandView::Search(c@),
            Command::Get(c) => CommandView::Get(c@),
            Command::Forget(c) => CommandView::Forget(c@),
            Command::Index(c) => CommandView::Index(c@),
            Command::Export(c) => CommandView::Export(c@),
        }
    }
}

impl View for Request {
    type V = RequestView;

    open spec fn view(&self) -> RequestView {
        match *self {
            Request::Help => RequestView::Help,
            Request::Version => RequestView::Version,
            Request::Run(cli) => RequestView::Run {
                json: cli.json,
                db: model::text_of(cli.db),
                command: cli.command@,
            },
        }
    }
}

/// The number of an optional size.
pub open spec fn size_of(o: Option<usize>) -> Option<int> {
    match o {
        Some(n) => Some(n as int),
        None => None,
    }
}

/// An option with its value.
#[derive(Debug, Clone)]
pub struct Setting {
    pub name: String,
    pub value: String,
}

/// Model of an option with its value.
#[verifier::ext_equal]
pub struct SettingView {
    pub name: Seq<char>,
    pub value: Seq<char>,
}

impl View for Setting {
    type V = SettingView;

    open spec fn view(&self) -> SettingView {
        SettingView { name: self.name@, value: self.value@ }
    }
}

impl Row for Setting {
    fn duplicate(&self) -> (r: Setting) {
        Setting { name: self.name.clone(), value: self.value.clone() }
    }
}

/// The words of a command line by their part: flags, options with values, and the
/// command with its arguments.
#[derive(Debug, Clone)]
pub struct Words {
    pub flags: Vec<String>,
    pub settings: Vec<Setting>,
    pub args: Vec<String>,
}

/// Model of the words of a command line by their part.
#[verifier::ext_equal]
pub struct WordsView {
    pub flags: Seq<Seq<char>>,
    pub settings: Seq<SettingView>,
    pub args: Seq<Seq<char>>,
}

impl View for Words {
    type V = WordsView;

    open spec fn view(&self) -> WordsView {
        WordsView {
            flags: model::views(self.flags@),
            settings: model::views(self.settings@),
            args: model::views(self.args@),
        }
    }
}

/// The name of a flag.
pub open spec fn flag_name(word: Seq<char>) -> Option<Seq<char>> {
    if word == "--json"@ {
        Some("json"@)
    } else if word == "--semantic"@ {
        Some("semantic"@)
    } else if word == "--cached-only"@ {
        Some("cached-only"@)
    } else if word == "--include-superseded"@ {
        Some("include-superseded"@)
    } else if word == "--help"@ || word == "-h"@ {
        Some("help"@)
    } else if word == "--version"@ || word == "-V"@ {
        Some("version"@)
    } else {
        None
    }
}

/// The name of an option that takes a value.
pub open spec fn setting_name(word: Seq<char>) -> Option<Seq<char>> {
    if word == "--db"@ {
        Some("db"@)
    } else if word == "--workspace"@ {
        Some("workspace"@)
    } else if word == "--session"@ {
        Some("session"@)
    } else if word == "--goal"@ {
        Some("goal"@)
    } else if word == "--task"@ {
        Some("task"@)
    } else if word == "--checkpoint"@ {
        Some("checkpoint"@)
    } else if word == "--clear"@ {
        Some("clear"@)
    } else if word == "--limit"@ || word == "-n"@ {
        Some("limit"@)
    } else if word == "--max-bytes"@ {
        Some("max-bytes"@)
    } else if word == "--kind"@ {
        Some("kind"@)
    } else if word == "--actor"@ {
        Some("actor"@)
    } else if word == "--source-type"@ {
        Some("source-type"@)
    } else if word == "--source-ref"@ {
        Some("source-ref"@)
    } else {
        None
    }
}

/// Number of characters before the first equals sign.
pub open spec fn head_len(word: Seq<char>) -> nat
    decreases word.len(),
{
    if word.len() == 0 || word[0] == '=' {
        0
    } else {
        1 + head_len(word.skip(1))
    }
}

/// What stands before the first equals sign.
pub open spec fn head(word: Seq<char>) -> Seq<char> {
    word.take(head_len(word) as int)
}

/// What stands behind the first equals sign, if there is one.
pub open spec fn tail(word: Seq<char>) -> Option<Seq<char>> {
    if head_len(word) < word.len() {
        Some(word.skip(head_len(word) as int + 1))
    } else {
        None
    }
}

/// Sorts the words of a command line by their part, behind those that were sorted
/// already. Behind a word `--` every word is an argument.
pub open spec fn sorted(words: Seq<Seq<char>>, done: WordsView, literal: bool) -> Result<
    WordsView,
    Seq<char>,
>
    decreases words.len(),
{
    if words.len() == 0 {
        Ok(done)
    } else {
        let word = words[0];
        let rest = words.skip(1);
        if literal {
            sorted(rest, WordsView { args: done.args.push(word), ..done }, true)
        } else if word == "--"@ {
            sorted(rest, done, true)
        } else if flag_name(word) is Some {
            sorted(rest, WordsView { flags: done.flags.push(flag_name(word)->0), ..done }, false)
        } else if setting_name(head(word)) is Some {
            let name = setting_name(head(word))->0;
            match tail(word) {
                Some(value) => sorted(
                    rest,
                    WordsView {
                        settings: done.settings.push(SettingView { name, value }),
                        ..done
                    },
                    false,
                ),
                None => if words.len() > 1 {
                    sorted(
                        words.skip(2),
                        WordsView {
                            settings: done.settings.push(SettingView { name, value: words[1] }),
                            ..done
                        },
                        false,
                    )
                } else {
                    Err("missing value for "@ + word)
                },
            }
        } else if word.len() > 1 && word[0] == '-' {
            Err("unexpected argument '"@ + word + "'"@)
        } else {
            sorted(rest, WordsView { args: done.args.push(word), ..done }, false)
        }
    }
}

/// No words.
pub open spec fn no_words() -> WordsView {
    WordsView { flags: Seq::empty(), settings: Seq::empty(), args: Seq::empty() }
}

/// The name of a flag.
fn name_of_flag(word: &str) -> (r: Option<String>)
    ensures
        model::text_of(r) == flag_name(word@),
{
    if same(word, "--json") {
        Some("json".to_owned())
    } else if same(word, "--semantic") {
        Some("semantic".to_owned())
    } else if same(word, "--cached-only") {
        Some("cached-only".to_owned())
    } else if same(word, "--include-superseded") {
        Some("include-superseded".to_owned())
    } else if same(word, "--help") || same(word, "-h") {
        Some("help".to_owned())
    } else if same(word, "--version") || same(word, "-V") {
        Some("version".to_owned())
    } else {
        None
    }
}

/// The name of an option that takes a value.
fn name_of_setting(word: &str) -> (r: Option<String>)
    ensures
        model::text_of(r) == setting_name(word@),
{
    if same(word, "--db") {
        Some("db".to_owned())
    } else if same(word, "--workspace") {
        Some("workspace".to_owned())
    } else if same(word, "--session") {
        Some("session".to_owned())
    } else if same(word, "--goal") {
        Some("goal".to_owned())
    } else if same(word, "--task") {
        Some("task".to_owned())
    } else if same(word, "--checkpoint") {
        Some("checkpoint".to_owned())
    } else if same(word, "--clear") {
        Some("clear".to_owned())
    } else if same(word, "--limit") || same(word, "-n") {
        Some("limit".to_owned())
    } else if same(word, "--max-bytes") {
        Some("max-bytes".to_owned())
    } else if same(word, "--kind") {
        Some("kind".to_owned())
    } else if same(word, "--actor") {
        Some("actor".to_owned())
    } else if same(word, "--source-type") {
        Some("source-type".to_owned())
    } else if same(word, "--source-ref") {
        Some("source-ref".to_owned())
    } else {
        None
    }
}

/// What stands before and behind the first equals sign.
fn split_word(word: &str) -> (r: (String, Option<String>))
    ensures
        r.0@ == head(word@),
        model::text_of(r.1) == tail(word@),
{
    let chars: Vec<char> = to_chars(word);
    let mut i: usize = 0;
    assert(chars@.skip(0) =~= chars@);
    while i < chars.len() && chars[i] != '='
        invariant
            i <= chars@.len(),
            head_len(chars@) == i + head_len(chars@.skip(i as int)),
        decreases chars@.len() - i,
    {
        assert(chars@.skip(i as int).skip(1) =~= chars@.skip(i + 1));
        i = i + 1;
    }
    let first: String = text::from_chars(&chars, 0, i);
    assert(first@ =~= head(word@));
    if i < chars.len() {
        let rest: String = text::from_chars(&chars, i + 1, chars.len());
        assert(rest@ =~= word@.skip(i + 1));
        (first, Some(rest))
    } else {
        (first, None)
    }
}

/// Tells whether a word has the form of a flag or an option.
fn is_dashed(word: &str) -> (r: bool)
    ensures
        r == (word@.len() > 1 && word@[0] == '-'),
{
    let chars: Vec<char> = to_chars(word);
    chars.len() > 1 && chars[0] == '-'
}

/// Sorts the words of a command line by their part.
pub fn sort_words(words: &Vec<String>) -> (r: Result<Words, Error>)
    ensures
        error::outcome(r) == sorted(model::views(words@), no_words(), false),
{
    let ghost all = model::views(words@);
    let mut out: Words = Words { flags: Vec::new(), settings: Vec::new(), args: Vec::new() };
    let mut literal: bool = false;
    let mut i: usize = 0;
    assert(all.skip(0) =~= all);
    assert(out@ =~= no_words());
    while i < words.len()
        invariant
            i <= words@.len(),
            all == model::views(words@),
            sorted(all, no_words(), false) == sorted(all.skip(i as int), out@, literal),
        decreases words@.len() - i,
    {
        let ghost rest = all.skip(i as int);
        let ghost before = out@;
        let word: &str = words[i].as_str();
        assert(rest[0] == word@);
        assert(rest.skip(1) =~= all.skip(i + 1));
        if literal {
            out.args.push(word.to_owned());
            assert(out@ =~= (WordsView { args: before.args.push(word@), ..before }));
        } else if same(word, "--") {
            literal = true;
        } else if let Some(flag) = name_of_flag(word) {
            let ghost name = flag@;
            out.flags.push(flag);
            assert(out@ =~= (WordsView { flags: before.flags.push(name), ..before }));
        } else {
            let (first, value): (String, Option<String>) = split_word(word);
            if let Some(name) = name_of_setting(first.as_str()) {
                if let Some(value) = value {
                    let setting: Setting = Setting { name, value };
                    let ghost added = setting@;
                    out.settings.push(setting);
                    assert(out@ =~= (WordsView {
                        settings: before.settings.push(added),
                        ..before
                    }));
                } else {
                    if i + 1 >= words.len() {
                        return Err(Error::of2("missing value for ", word));
                    }
                    let setting: Setting = Setting { name, value: words[i + 1].clone() };
                    let ghost added = setting@;
                    assert(rest[1] == words@[i + 1]@);
                    assert(rest.skip(2) =~= all.skip(i + 2));
                    out.settings.push(setting);
                    assert(out@ =~= (WordsView {
                        settings: before.settings.push(added),
                        ..before
                    }));
                    i = i + 1;
                }
            } else if is_dashed(word) {
                return Err(Error::of3("unexpected argument '", word, "'"));
            } else {
                out.args.push(word.to_owned());
                assert(out@ =~= (WordsView { args: before.args.push(word@), ..before }));
            }
        }
        i = i + 1;
    }
    assert(all.skip(i as int) =~= Seq::<Seq<char>>::empty());
    Ok(out)
}

/// The commands, without their arguments.
#[derive(Debug, Clone, Copy, PartialEq, Eq, Structural)]
pub enum Kind {
    Init,
    Status,
    StateShow,
    StateSet,
    StateClear,
    Context,
    Remember,
    Correct,
    Search,
    Get,
    Forget,
    Index,
    Export,
}

/// The command that the arguments begin with.
pub open spec fn kind_of(args: Seq<Seq<char>>) -> Result<Kind, Seq<char>>
    recommends
        args.len() > 0,
{
    let name = args[0];
    if name == "init"@ {
        Ok(Kind::Init)
    } else if name == "status"@ {
        Ok(Kind::Status)
    } else if name == "state"@ {
        if args.len() < 2 {
            Err("missing command for state"@)
        } else if args[1] == "show"@ {
            Ok(Kind::StateShow)
        } else if args[1] == "set"@ {
            Ok(Kind::StateSet)
        } else if args[1] == "clear"@ {
            Ok(Kind::StateClear)
        } else {
            Err("unknown command '"@ + args[1] + "'"@)
        }
    } else if name == "context"@ {
        Ok(Kind::Context)
    } else if name == "remember"@ {
        Ok(Kind::Remember)
    } else if name == "correct"@ {
        Ok(Kind::Correct)
    } else if name == "search"@ {
        Ok(Kind::Search)
    } else if name == "get"@ {
        Ok(Kind::Get)
    } else if name == "forget"@ {
        Ok(Kind::Forget)
    } else if name == "index"@ {
        Ok(Kind::Index)
    } else if name == "export"@ {
        Ok(Kind::Export)
    } else {
        Err("unknown command '"@ + name + "'"@)
    }
}

/// Number of words of a command with its arguments.
pub open spec fn arity(kind: Kind) -> int {
    match kind {
        Kind::Init | Kind::Status | Kind::Index | Kind::Export => 1,
        Kind::Correct => 3,
        _ => 2,
    }
}

/// The flags and options that a command takes.
pub open spec fn takes(kind: Kind, name: Seq<char>) -> bool {
    ||| name == "json"@ || name == "db"@
    ||| match kind {
        Kind::Init | Kind::Status | Kind::Get | Kind::Forget => false,
        Kind::StateShow | Kind::StateClear => name == "workspace"@,
        Kind::StateSet => name == "workspace"@ || name == "session"@ || name == "goal"@ || name
            == "task"@ || name == "checkpoint"@ || name == "clear"@,
        Kind::Context => name == "workspace"@ || name == "limit"@ || name == "max-bytes"@,
        Kind::Remember | Kind::Correct => name == "kind"@ || name == "actor"@ || name
            == "source-type"@ || name == "source-ref"@,
        Kind::Search => name == "semantic"@ || name == "limit"@,
        Kind::Index => name == "limit"@ || name == "cached-only"@,
        Kind::Export => name == "include-superseded"@,
    }
}

/// Selects the flags that a command does not take.
pub open spec fn stray_flag(kind: Kind) -> spec_fn(Seq<char>) -> bool {
    |name: Seq<char>| !takes(kind, name)
}

/// Selects the options that a command does not take.
pub open spec fn stray_setting(kind: Kind) -> spec_fn(SettingView) -> bool {
    |x: SettingView| !takes(kind, x.name)
}

/// Selects one name.
pub open spec fn named(name: Seq<char>) -> spec_fn(Seq<char>) -> bool {
    |x: Seq<char>| x == name
}

/// Selects the option with a name.
pub open spec fn setting_named(name: Seq<char>) -> spec_fn(SettingView) -> bool {
    |x: SettingView| x.name == name
}

/// The value of an option, if its name is the given one.
pub open spec fn value_if(name: Seq<char>) -> spec_fn(SettingView) -> Option<Seq<char>> {
    |x: SettingView|
        if x.name == name {
            Some(x.value)
        } else {
            None
        }
}

/// Holds when a flag is given.
pub open spec fn has_flag(words: WordsView, name: Seq<char>) -> bool {
    model::any_row(words.flags, named(name))
}

/// The value of an option: the last one that is given.
pub open spec fn value_of(words: WordsView, name: Seq<char>) -> Option<Seq<char>> {
    match model::last_row(words.settings, setting_named(name)) {
        Some(x) => Some(x.value),
        None => None,
    }
}

/// Why the words of a command are refused.
pub open spec fn words_refusal(words: WordsView, kind: Kind) -> Option<Seq<char>> {
    match model::first_row(words.flags, stray_flag(kind)) {
        Some(name) => Some("unexpected argument '--"@ + name + "'"@),
        None => match model::first_row(words.settings, stray_setting(kind)) {
            Some(x) => Some("unexpected argument '--"@ + x.name + "'"@),
            None => if words.args.len() < arity(kind) {
                Some("missing argument for "@ + words.args[0])
            } else if words.args.len() > arity(kind) {
                Some("unexpected argument '"@ + words.args[arity(kind)] + "'"@)
            } else {
                error::either(
                    size_refusal(words, "limit"@),
                    size_refusal(words, "max-bytes"@),
                )
            },
        },
    }
}

/// Why the value of an option that is a size is refused.
pub open spec fn size_refusal(words: WordsView, name: Seq<char>) -> Option<Seq<char>> {
    match value_of(words, name) {
        Some(value) => if text::size_value(value) is None {
            Some("invalid value '"@ + value + "' for --"@ + name)
        } else {
            None
        },
        None => None,
    }
}

/// The size that an option gives.
pub open spec fn size_given(words: WordsView, name: Seq<char>) -> Option<int> {
    match value_of(words, name) {
        Some(value) => text::size_value(value),
        None => None,
    }
}

/// The command that words describe.
pub open spec fn command_of(words: WordsView, kind: Kind) -> CommandView {
    let args = words.args;
    match kind {
        Kind::Init => CommandView::Init,
        Kind::Status => CommandView::Status,
        Kind::StateShow => CommandView::StateShow(
            StateShowView { workspace: value_of(words, "workspace"@) },
        ),
        Kind::StateSet => CommandView::StateSet(
            StateSetView {
                workspace: value_of(words, "workspace"@),
                session: value_of(words, "session"@),
                goal: value_of(words, "goal"@),
                task: value_of(words, "task"@),
                checkpoint: value_of(words, "checkpoint"@),
                clear: model::joined(words.settings, value_if("clear"@)),
            },
        ),
        Kind::StateClear => CommandView::StateClear(
            StateClearView { workspace: value_of(words, "workspace"@) },
        ),
        Kind::Context => CommandView::Context(
            ContextView {
                query: args[1],
                workspace: value_of(words, "workspace"@),
                limit: size_given(words, "limit"@),
                max_bytes: size_given(words, "max-bytes"@),
            },
        ),
        Kind::Remember => CommandView::Remember(
            RememberView {
                text: args[1],
                kind: value_of(words, "kind"@),
                actor: value_of(words, "actor"@),
                source_type: value_of(words, "source-type"@),
                source_ref: value_of(words, "source-ref"@),
            },
        ),
        Kind::Correct => CommandView::Correct(
            CorrectView {
                id: args[1],
                text: args[2],
                kind: value_of(words, "kind"@),
                actor: value_of(words, "actor"@),
                source_type: value_of(words, "source-type"@),
                source_ref: value_of(words, "source-ref"@),
            },
        ),
        Kind::Search => CommandView::Search(
            SearchView {
                query: args[1],
                semantic: has_flag(words, "semantic"@),
                limit: size_given(words, "limit"@),
            },
        ),
        Kind::Get => CommandView::Get(GetView { id: args[1] }),
        Kind::Forget => CommandView::Forget(ForgetView { id: args[1] }),
        Kind::Index => CommandView::Index(
            IndexView {
                limit: size_given(words, "limit"@),
                cached_only: has_flag(words, "cached-only"@),
            },
        ),
        Kind::Export => CommandView::Export(
            ExportView { include_superseded: has_flag(words, "include-superseded"@) },
        ),
    }
}

/// What sorted words ask for.
pub open spec fn request_of(words: WordsView) -> Result<RequestView, Seq<char>> {
    if has_flag(words, "help"@) {
        Ok(RequestView::Help)
    } else if has_flag(words, "version"@) {
        Ok(RequestView::Version)
    } else if words.args.len() == 0 {
        Ok(RequestView::Help)
    } else {
        match kind_of(words.args) {
            Err(message) => Err(message),
            Ok(kind) => match words_refusal(words, kind) {
                Some(message) => Err(message),
                None => Ok(
                    RequestView::Run {
                        json: has_flag(words, "json"@),
                        db: value_of(words, "db"@),
                        command: command_of(words, kind),
                    },
                ),
            },
        }
    }
}

/// What a command line asks for.
pub open spec fn parsed(words: Seq<Seq<char>>) -> Result<RequestView, Seq<char>> {
    match sorted(words, no_words(), false) {
        Err(message) => Err(message),
        Ok(words) => request_of(words),
    }
}

/// The command that the arguments begin with.
fn find_kind(args: &Vec<String>) -> (r: Result<Kind, Error>)
    requires
        args@.len() > 0,
    ensures
        match kind_of(model::views(args@)) {
            Ok(kind) => r matches Ok(given) && given == kind,
            Err(message) => r matches Err(e) && e@ == message,
        },
{
    let name: &str = args[0].as_str();
    assert(model::views(args@)[0] == name@);
    proof {
        lemma_state_is_no_other_command();
    }
    if same(name, "state") {
        if args.len() < 2 {
            return Err(Error::new("missing command for state"));
        }
        let sub: &str = args[1].as_str();
        assert(model::views(args@)[1] == sub@);
        return if same(sub, "show") {
            Ok(Kind::StateShow)
        } else if same(sub, "set") {
            Ok(Kind::StateSet)
        } else if same(sub, "clear") {
            Ok(Kind::StateClear)
        } else {
            Err(Error::of3("unknown command '", sub, "'"))
        };
    }
    if same(name, "init") {
        Ok(Kind::Init)
    } else if same(name, "status") {
        Ok(Kind::Status)
    } else if same(name, "context") {
        Ok(Kind::Context)
    } else if same(name, "remember") {
        Ok(Kind::Remember)
    } else if same(name, "correct") {
        Ok(Kind::Correct)
    } else if same(name, "search") {
        Ok(Kind::Search)
    } else if same(name, "get") {
        Ok(Kind::Get)
    } else if same(name, "forget") {
        Ok(Kind::Forget)
    } else if same(name, "index") {
        Ok(Kind::Index)
    } else if same(name, "export") {
        Ok(Kind::Export)
    } else {
        Err(Error::of3("unknown command '", name, "'"))
    }
}

proof fn lemma_state_is_no_other_command()
    ensures
        "state"@ != "init"@,
        "state"@ != "status"@,
{
    reveal_strlit("state");
    reveal_strlit("init");
    reveal_strlit("status");
    assert("state"@.len() == 5);
    assert("init"@.len() == 4);
    assert("status"@.len() == 6);
}

/// Tells whether a command takes a flag or an option.
fn is_taken(kind: Kind, name: &str) -> (r: bool)
    ensures
        r == takes(kind, name@),
{
    same(name, "json") || same(name, "db") || match kind {
        Kind::Init | Kind::Status | Kind::Get | Kind::Forget => false,
        Kind::StateShow | Kind::StateClear => same(name, "workspace"),
        Kind::StateSet => same(name, "workspace") || same(name, "session") || same(name, "goal")
            || same(name, "task") || same(name, "checkpoint") || same(name, "clear"),
        Kind::Context => same(name, "workspace") || same(name, "limit") || same(name, "max-bytes"),
        Kind::Remember | Kind::Correct => same(name, "kind") || same(name, "actor") || same(
            name,
            "source-type",
        ) || same(name, "source-ref"),
        Kind::Search => same(name, "semantic") || same(name, "limit"),
        Kind::Index => same(name, "limit") || same(name, "cached-only"),
        Kind::Export => same(name, "include-superseded"),
    }
}

impl Words {
    /// Tells whether a flag is given.
    fn has_flag(&self, name: &str) -> (r: bool)
        ensures
            r == has_flag(self@, name@),
    {
        let test = |x: &String| -> (r: bool)
            ensures
                r == named(name@)(x@),
            { same(x.as_str(), name) };
        has(&self.flags, test, Ghost(named(name@)))
    }

    /// The value of an option.
    fn value(&self, name: &str) -> (r: Option<String>)
        ensures
            model::text_of(r) == value_of(self@, name@),
    {
        let test = |x: &Setting| -> (r: bool)
            ensures
                r == setting_named(name@)(x@),
            { same(x.name.as_str(), name) };
        match pick_last(&self.settings, test, Ghost(setting_named(name@))) {
            Some(x) => Some(x.value),
            None => None,
        }
    }

    /// The values of an option that can be repeated.
    fn values(&self, name: &str) -> (r: Vec<String>)
        ensures
            model::views(r@) == model::joined(self@.settings, value_if(name@)),
    {
        let value = |x: &Setting| -> (r: Option<String>)
            ensures
                model::row_of(r) == value_if(name@)(x@),
            {
                if same(x.name.as_str(), name) {
                    Some(x.value.clone())
                } else {
                    None
                }
            };
        join(&self.settings, value, Ghost(value_if(name@)))
    }

    /// The size that an option gives.
    fn size(&self, name: &str) -> (r: Result<Option<usize>, Error>)
        ensures
            match size_refusal(self@, name@) {
                Some(message) => r matches Err(e) && e@ == message,
                None => r matches Ok(o) && size_of(o) == size_given(self@, name@),
            },
    {
        match self.value(name) {
            None => Ok(None),
            Some(value) => match text::parse_size(value.as_str()) {
                Some(n) => Ok(Some(n)),
                None => Err(Error::of4("invalid value '", value.as_str(), "' for --", name)),
            },
        }
    }

    /// Checks the words of a command.
    fn check(&self, kind: Kind) -> (r: Result<(), Error>)
        requires
            self.args@.len() > 0,
        ensures
            error::refusal(r) == words_refusal(self@, kind),
    {
        let flag = |x: &String| -> (r: bool)
            ensures
                r == stray_flag(kind)(x@),
            { !is_taken(kind, x.as_str()) };
        if let Some(name) = pick(&self.flags, flag, Ghost(stray_flag(kind))) {
            return Err(Error::of3("unexpected argument '--", name.as_str(), "'"));
        }
        let setting = |x: &Setting| -> (r: bool)
            ensures
                r == stray_setting(kind)(x@),
            { !is_taken(kind, x.name.as_str()) };
        if let Some(x) = pick(&self.settings, setting, Ghost(stray_setting(kind))) {
            return Err(Error::of3("unexpected argument '--", x.name.as_str(), "'"));
        }
        let wanted: usize = match kind {
            Kind::Init | Kind::Status | Kind::Index | Kind::Export => 1,
            Kind::Correct => 3,
            _ => 2,
        };
        assert(model::views(self.args@).len() == self.args@.len());
        if self.args.len() < wanted {
            assert(model::views(self.args@)[0] == self.args@[0]@);
            return Err(Error::of2("missing argument for ", self.args[0].as_str()));
        }
        if self.args.len() > wanted {
            assert(model::views(self.args@)[wanted as int] == self.args@[wanted as int]@);
            return Err(Error::of3("unexpected argument '", self.args[wanted].as_str(), "'"));
        }
        self.size("limit")?;
        self.size("max-bytes")?;
        Ok(())
    }

    /// The command that words describe, after they were checked.
    fn command(&self, kind: Kind) -> (r: Result<Command, Error>)
        requires
            words_refusal(self@, kind) is None,
        ensures
            r is Ok,
            r->Ok_0@ == command_of(self@, kind),
    {
        proof {
            assert(model::views(self.args@).len() == self.args@.len());
            if self.args@.len() > 1 {
                assert(model::views(self.args@)[1] == self.args@[1]@);
            }
            if self.args@.len() > 2 {
                assert(model::views(self.args@)[2] == self.args@[2]@);
            }
        }
        Ok(
            match kind {
                Kind::Init => Command::Init,
                Kind::Status => Command::Status,
                Kind::StateShow => Command::State(
                    StateCommand::Show(StateShow { workspace: self.value("workspace") }),
                ),
                Kind::StateSet => Command::State(
                    StateCommand::Update(
                        StateSet {
                            workspace: self.value("workspace"),
                            session: self.value("session"),
                            goal: self.value("goal"),
                            task: self.value("task"),
                            checkpoint: self.value("checkpoint"),
                            clear: self.values("clear"),
                        },
                    ),
                ),
                Kind::StateClear => Command::State(
                    StateCommand::Clear(StateClear { workspace: self.value("workspace") }),
                ),
                Kind::Context => Command::Context(
                    ContextCommand {
                        query: self.args[1].clone(),
                        workspace: self.value("workspace"),
                        limit: self.size("limit")?,
                        max_bytes: self.size("max-bytes")?,
                    },
                ),
                Kind::Remember => Command::Remember(
                    Remember {
                        text: self.args[1].clone(),
                        kind: self.value("kind"),
                        actor: self.value("actor"),
                        source_type: self.value("source-type"),
                        source_ref: self.value("source-ref"),
                    },
                ),
                Kind::Correct => Command::Correct(
                    Correct {
                        id: self.args[1].clone(),
                        text: self.args[2].clone(),
                        kind: self.value("kind"),
                        actor: self.value("actor"),
                        source_type: self.value("source-type"),
                        source_ref: self.value("source-ref"),
                    },
                ),
                Kind::Search => Command::Search(
                    Search {
                        query: self.args[1].clone(),
                        semantic: self.has_flag("semantic"),
                        limit: self.size("limit")?,
                    },
                ),
                Kind::Get => Command::Get(Get { id: self.args[1].clone() }),
                Kind::Forget => Command::Forget(Forget { id: self.args[1].clone() }),
                Kind::Index => Command::Index(
                    IndexCommand {
                        limit: self.size("limit")?,
                        cached_only: self.has_flag("cached-only"),
                    },
                ),
                Kind::Export => Command::Export(
                    Export { include_superseded: self.has_flag("include-superseded") },
                ),
            },
        )
    }
}

/// Reads a command line, without the name of the program.
pub fn parse_cli(words: &Vec<String>) -> (r: Result<Request, Error>)
    ensures
        error::outcome(r) == parsed(model::views(words@)),
{
    let words: Words = sort_words(words)?;
    if words.has_flag("help") {
        return Ok(Request::Help);
    }
    if words.has_flag("version") {
        return Ok(Request::Version);
    }
    assert(model::views(words.args@).len() == words.args@.len());
    if words.args.len() == 0 {
        return Ok(Request::Help);
    }
    let kind: Kind = find_kind(&words.args)?;
    words.check(kind)?;
    let command: Command = words.command(kind)?;
    Ok(
        Request::Run(
            MemCli { json: words.has_flag("json"), db: words.value("db"), command },
        ),
    )
}

} // verus!
