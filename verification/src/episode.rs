//! Episodes: raw history, kept with exact references to its sources.

use crate::clock;
use crate::clock::{draw_id, to_i64, unix_millis};
use crate::error;
use crate::error::Error;
use crate::like;
use crate::like::matches_prefix;
use crate::memory;
use crate::memory::validate_identity;
use crate::model;
use crate::model::{copy_text, has, join, pick, rewrite, select, top_by, Row};
use crate::order;
use crate::order::{Key, KeyView};
use crate::query;
use crate::query::history_query;
use crate::search::{Match, MatchView};
use crate::store::{Store, StoreView};
use crate::text;
use crate::text::{is_blank, same, trim};
use vstd::prelude::*;
use vstd::string::*;

verus! {

/// An episode to record.
#[derive(Debug)]
pub struct NewEpisode {
    pub project_id: Option<String>,
    pub workspace_id: Option<String>,
    pub source_type: String,
    pub source_ref: String,
    pub started_at: Option<i64>,
    pub metadata_json: Option<String>,
}

/// An entry to record in an episode.
#[derive(Debug)]
pub struct NewEpisodeEntry {
    pub source_ref: String,
    pub ordinal: Option<i64>,
    pub kind: String,
    pub role: Option<String>,
    pub text: String,
    pub occurred_at: Option<i64>,
    pub metadata_json: Option<String>,
}

/// A recorded episode, such as a session.
#[derive(Debug)]
pub struct Episode {
    pub id: String,
    pub project_id: Option<String>,
    pub workspace_id: Option<String>,
    pub source_type: String,
    pub source_ref: String,
    pub started_at: Option<i64>,
    pub ended_at: Option<i64>,
    pub summary: Option<String>,
    pub metadata_json: Option<String>,
}

/// An entry of an episode.
#[derive(Debug)]
pub struct EpisodeEntry {
    pub id: String,
    pub episode_id: String,
    pub source_ref: String,
    pub ordinal: i64,
    pub kind: String,
    pub role: Option<String>,
    pub text: String,
    pub occurred_at: Option<i64>,
    pub metadata_json: Option<String>,
}

/// Model of an episode to record.
#[verifier::ext_equal]
pub struct NewEpisodeView {
    pub project_id: Option<Seq<char>>,
    pub workspace_id: Option<Seq<char>>,
    pub source_type: Seq<char>,
    pub source_ref: Seq<char>,
    pub started_at: Option<int>,
    pub metadata_json: Option<Seq<char>>,
}

/// Model of an entry to record.
#[verifier::ext_equal]
pub struct NewEntryView {
    pub source_ref: Seq<char>,
    pub ordinal: Option<int>,
    pub kind: Seq<char>,
    pub role: Option<Seq<char>>,
    pub text: Seq<char>,
    pub occurred_at: Option<int>,
    pub metadata_json: Option<Seq<char>>,
}

/// Model of a recorded episode.
#[verifier::ext_equal]
pub struct EpisodeView {
    pub id: Seq<char>,
    pub project_id: Option<Seq<char>>,
    pub workspace_id: Option<Seq<char>>,
    pub source_type: Seq<char>,
    pub source_ref: Seq<char>,
    pub started_at: Option<int>,
    pub ended_at: Option<int>,
    pub summary: Option<Seq<char>>,
    pub metadata_json: Option<Seq<char>>,
}

/// Model of an entry.
#[verifier::ext_equal]
pub struct EntryView {
    pub id: Seq<char>,
    pub episode_id: Seq<char>,
    pub source_ref: Seq<char>,
    pub ordinal: int,
    pub kind: Seq<char>,
    pub role: Option<Seq<char>>,
    pub text: Seq<char>,
    pub occurred_at: Option<int>,
    pub metadata_json: Option<Seq<char>>,
}

impl View for NewEpisode {
    type V = NewEpisodeView;

    open spec fn view(&self) -> NewEpisodeView {
        NewEpisodeView {
            project_id: model::text_of(self.project_id),
            workspace_id: model::text_of(self.workspace_id),
            source_type: self.source_type@,
            source_ref: self.source_ref@,
            started_at: model::number_of(self.started_at),
            metadata_json: model::text_of(self.metadata_json),
        }
    }
}

impl View for NewEpisodeEntry {
    type V = NewEntryView;

    open spec fn view(&self) -> NewEntryView {
        NewEntryView {
            source_ref: self.source_ref@,
            ordinal: model::number_of(self.ordinal),
            kind: self.kind@,
            role: model::text_of(self.role),
            text: self.text@,
            occurred_at: model::number_of(self.occurred_at),
            metadata_json: model::text_of(self.metadata_json),
        }
    }
}

impl View for Episode {
    type V = EpisodeView;

    open spec fn view(&self) -> EpisodeView {
        EpisodeView {
            id: self.id@,
            project_id: model::text_of(self.project_id),
            workspace_id: model::text_of(self.workspace_id),
            source_type: self.source_type@,
            source_ref: self.source_ref@,
            started_at: model::number_of(self.started_at),
            ended_at: model::number_of(self.ended_at),
            summary: model::text_of(self.summary),
            metadata_json: model::text_of(self.metadata_json),
        }
    }
}

impl View for EpisodeEntry {
    type V = EntryView;

    open spec fn view(&self) -> EntryView {
        EntryView {
            id: self.id@,
            episode_id: self.episode_id@,
            source_ref: self.source_ref@,
            ordinal: self.ordinal as int,
            kind: self.kind@,
            role: model::text_of(self.role),
            text: self.text@,
            occurred_at: model::number_of(self.occurred_at),
            metadata_json: model::text_of(self.metadata_json),
        }
    }
}

impl Row for Episode {
    fn duplicate(&self) -> (r: Episode) {
        Episode {
            id: self.id.clone(),
            project_id: copy_text(&self.project_id),
            workspace_id: copy_text(&self.workspace_id),
            source_type: self.source_type.clone(),
            source_ref: self.source_ref.clone(),
            started_at: self.started_at,
            ended_at: self.ended_at,
            summary: copy_text(&self.summary),
            metadata_json: copy_text(&self.metadata_json),
        }
    }
}

impl Row for EpisodeEntry {
    fn duplicate(&self) -> (r: EpisodeEntry) {
        EpisodeEntry {
            id: self.id.clone(),
            episode_id: self.episode_id.clone(),
            source_ref: self.source_ref.clone(),
            ordinal: self.ordinal,
            kind: self.kind.clone(),
            role: copy_text(&self.role),
            text: self.text.clone(),
            occurred_at: self.occurred_at,
            metadata_json: copy_text(&self.metadata_json),
        }
    }
}

/// Selects the episode with an identifier.
pub open spec fn with_id(id: Seq<char>) -> spec_fn(EpisodeView) -> bool {
    |e: EpisodeView| e.id == id
}

/// The identifier of an episode.
pub open spec fn id_key() -> spec_fn(EpisodeView) -> Seq<char> {
    |e: EpisodeView| e.id
}

/// The source of an episode.
pub open spec fn source_key() -> spec_fn(EpisodeView) -> (Seq<char>, Seq<char>) {
    |e: EpisodeView| (e.source_type, e.source_ref)
}

/// The identifier of an entry.
pub open spec fn entry_id_key() -> spec_fn(EntryView) -> Seq<char> {
    |e: EntryView| e.id
}

/// The episode of an entry and its source in it.
pub open spec fn place_key() -> spec_fn(EntryView) -> (Seq<char>, Seq<char>) {
    |e: EntryView| (e.episode_id, e.source_ref)
}

/// An episode with its entries.
#[derive(Debug)]
pub struct EpisodeRecord {
    pub episode: Episode,
    pub entries: Vec<EpisodeEntry>,
}

/// An entry that a search of the history found.
#[derive(Debug)]
pub struct HistoryHit {
    pub episode_id: String,
    pub project_id: Option<String>,
    pub workspace_id: Option<String>,
    pub source_type: String,
    pub episode_source_ref: String,
    pub entry_id: String,
    pub entry_source_ref: String,
    pub ordinal: i64,
    pub kind: String,
    pub role: Option<String>,
    pub text: String,
    pub occurred_at: Option<i64>,
    pub rank: i64,
}

/// Model of a found entry: the entry, its episode, and its rank.
#[verifier::ext_equal]
pub struct HistoryView {
    pub episode_id: Seq<char>,
    pub project_id: Option<Seq<char>>,
    pub workspace_id: Option<Seq<char>>,
    pub source_type: Seq<char>,
    pub episode_source_ref: Seq<char>,
    pub entry_id: Seq<char>,
    pub entry_source_ref: Seq<char>,
    pub ordinal: int,
    pub kind: Seq<char>,
    pub role: Option<Seq<char>>,
    pub text: Seq<char>,
    pub occurred_at: Option<int>,
    pub rank: int,
}

impl View for HistoryHit {
    type V = HistoryView;

    open spec fn view(&self) -> HistoryView {
        HistoryView {
            episode_id: self.episode_id@,
            project_id: model::text_of(self.project_id),
            workspace_id: model::text_of(self.workspace_id),
            source_type: self.source_type@,
            episode_source_ref: self.episode_source_ref@,
            entry_id: self.entry_id@,
            entry_source_ref: self.entry_source_ref@,
            ordinal: self.ordinal as int,
            kind: self.kind@,
            role: model::text_of(self.role),
            text: self.text@,
            occurred_at: model::number_of(self.occurred_at),
            rank: self.rank as int,
        }
    }
}

impl Row for HistoryHit {
    fn duplicate(&self) -> (r: HistoryHit) {
        HistoryHit {
            episode_id: self.episode_id.clone(),
            project_id: copy_text(&self.project_id),
            workspace_id: copy_text(&self.workspace_id),
            source_type: self.source_type.clone(),
            episode_source_ref: self.episode_source_ref.clone(),
            entry_id: self.entry_id.clone(),
            entry_source_ref: self.entry_source_ref.clone(),
            ordinal: self.ordinal,
            kind: self.kind.clone(),
            role: copy_text(&self.role),
            text: self.text.clone(),
            occurred_at: self.occurred_at,
            rank: self.rank,
        }
    }
}

/// A found entry, and when its episode started.
struct HistoryRow {
    hit: HistoryHit,
    started_at: Option<i64>,
}

/// Model of a found entry, and of when its episode started.
#[verifier::ext_equal]
pub struct HistoryRowView {
    pub hit: HistoryView,
    pub started_at: Option<int>,
}

impl View for HistoryRow {
    type V = HistoryRowView;

    closed spec fn view(&self) -> HistoryRowView {
        HistoryRowView { hit: self.hit@, started_at: model::number_of(self.started_at) }
    }
}

impl Row for HistoryRow {
    fn duplicate(&self) -> (r: HistoryRow) {
        HistoryRow { hit: self.hit.duplicate(), started_at: self.started_at }
    }
}

impl Clone for HistoryHit {
    fn clone(&self) -> (r: HistoryHit)
        ensures
            r@ == self@,
    {
        self.duplicate()
    }
}

/// Why a text is not JSON, as `serde_json` reads it and shows its error; `None` for JSON.
pub uninterp spec fn json_refusal(text: Seq<char>) -> Option<Seq<char>>;

/// `serde_json::from_str` into a `serde_json::Value`: the text that shows its error, if it
/// fails. What it accepts, and what its error says, is a function of the text alone and
/// has the name `json_refusal`.
#[verifier::external_body]
fn read_json(text: &str) -> (r: Option<String>)
    ensures
        model::text_of(r) == json_refusal(text@),
{
    match serde_json::from_str::<serde_json::Value>(text) {
        Ok(_) => None,
        Err(e) => Some(e.to_string()),
    }
}

/// Why optional metadata is not JSON, if it is there.
pub open spec fn metadata_refusal(metadata: Option<Seq<char>>) -> Option<Seq<char>> {
    match metadata {
        Some(text) => json_refusal(text),
        None => None,
    }
}

/// Tells why optional metadata is not JSON, if it is there.
fn read_metadata(metadata: &Option<String>) -> (r: Option<String>)
    ensures
        model::text_of(r) == metadata_refusal(model::text_of(*metadata)),
{
    match metadata {
        Some(text) => read_json(text.as_str()),
        None => None,
    }
}

/// Why an episode is refused, given why its metadata is not JSON.
pub open spec fn episode_refusal(input: NewEpisodeView, unreadable: Option<Seq<char>>) -> Option<
    Seq<char>,
> {
    error::either(
        memory::identity_refusal(input.source_type, "episode source type"@),
        error::either(
            memory::identity_refusal(input.source_ref, "episode source reference"@),
            if input.project_id is None && input.workspace_id is Some {
                Some("episode workspace requires a project"@)
            } else {
                error::either(
                    memory::optional_refusal(input.project_id, "project identifier"@),
                    error::either(
                        memory::optional_refusal(input.workspace_id, "workspace identifier"@),
                        match unreadable {
                            Some(cause) => Some("episode metadata must be valid JSON: "@ + cause),
                            None => None,
                        },
                    ),
                )
            },
        ),
    )
}

/// Checks an episode, given why its metadata is not JSON.
pub fn check_episode(input: &NewEpisode, unreadable: &Option<String>) -> (r: Result<(), Error>)
    ensures
        error::refusal(r) == episode_refusal(input@, model::text_of(*unreadable)),
{
    validate_identity(input.source_type.as_str(), "episode source type")?;
    validate_identity(input.source_ref.as_str(), "episode source reference")?;
    if input.project_id.is_none() && input.workspace_id.is_some() {
        return Err(Error::new("episode workspace requires a project"));
    }
    memory::validate_optional(&input.project_id, "project identifier")?;
    memory::validate_optional(&input.workspace_id, "workspace identifier")?;
    if let Some(cause) = unreadable {
        return Err(Error::of2("episode metadata must be valid JSON: ", cause.as_str()));
    }
    Ok(())
}

/// Checks an episode.
pub fn validate_episode(input: &NewEpisode) -> (r: Result<(), Error>)
    ensures
        error::refusal(r) == episode_refusal(input@, metadata_refusal(input@.metadata_json)),
{
    check_episode(input, &read_metadata(&input.metadata_json))
}

/// Why an entry is refused, given why its metadata is not JSON.
pub open spec fn entry_refusal(input: NewEntryView, unreadable: Option<Seq<char>>) -> Option<
    Seq<char>,
> {
    error::either(
        memory::identity_refusal(input.source_ref, "episode entry source reference"@),
        error::either(
            memory::identity_refusal(input.kind, "episode entry kind"@),
            error::either(
                memory::identity_refusal(input.text, "episode entry text"@),
                if input.ordinal matches Some(n) && n < 0 {
                    Some("episode entry ordinal cannot be negative"@)
                } else {
                    error::either(
                        memory::optional_refusal(input.role, "episode entry role"@),
                        match unreadable {
                            Some(cause) => Some(
                                "episode entry metadata must be valid JSON: "@ + cause,
                            ),
                            None => None,
                        },
                    )
                },
            ),
        ),
    )
}

/// Checks an entry, given why its metadata is not JSON.
pub fn check_episode_entry(input: &NewEpisodeEntry, unreadable: &Option<String>) -> (r: Result<
    (),
    Error,
>)
    ensures
        error::refusal(r) == entry_refusal(input@, model::text_of(*unreadable)),
{
    validate_identity(input.source_ref.as_str(), "episode entry source reference")?;
    validate_identity(input.kind.as_str(), "episode entry kind")?;
    validate_identity(input.text.as_str(), "episode entry text")?;
    let negative: bool = match input.ordinal {
        Some(ordinal) => ordinal < 0,
        None => false,
    };
    if negative {
        return Err(Error::new("episode entry ordinal cannot be negative"));
    }
    memory::validate_optional(&input.role, "episode entry role")?;
    if let Some(cause) = unreadable {
        return Err(Error::of2("episode entry metadata must be valid JSON: ", cause.as_str()));
    }
    Ok(())
}

/// Checks an entry.
pub fn validate_episode_entry(input: &NewEpisodeEntry) -> (r: Result<(), Error>)
    ensures
        error::refusal(r) == entry_refusal(input@, metadata_refusal(input@.metadata_json)),
{
    check_episode_entry(input, &read_metadata(&input.metadata_json))
}

/// Selects the episodes whose identifier begins with a text.
pub open spec fn id_begins(prefix: Seq<char>) -> spec_fn(EpisodeView) -> bool {
    |e: EpisodeView| like::starts_folded(prefix, e.id)
}

/// The identifier that an identifier or a prefix of one stands for: itself if it
/// is an identifier, and otherwise the only one that begins with it.
pub open spec fn resolved(episodes: Seq<EpisodeView>, target: Seq<char>) -> Result<
    Seq<char>,
    Seq<char>,
> {
    let candidate = text::trimmed(target);
    let matches = episodes.filter(id_begins(candidate));
    if text::blank(target) {
        Err("episode ID cannot be empty"@)
    } else if model::any_row(episodes, with_id(candidate)) {
        Ok(candidate)
    } else if matches.len() == 0 {
        Err("episode not found: "@ + candidate)
    } else if matches.len() == 1 {
        Ok(matches[0].id)
    } else {
        Err("ambiguous episode ID prefix: "@ + candidate)
    }
}

/// Selects the episode with a source.
pub open spec fn with_source(source_type: Seq<char>, source_ref: Seq<char>) -> spec_fn(
    EpisodeView,
) -> bool {
    |e: EpisodeView| e.source_type == source_type && e.source_ref == source_ref
}

/// The episode that recording `input` creates.
pub open spec fn fresh_episode(input: NewEpisodeView, id: Seq<char>, now: int) -> EpisodeView {
    EpisodeView {
        id,
        project_id: input.project_id,
        workspace_id: input.workspace_id,
        source_type: input.source_type,
        source_ref: input.source_ref,
        started_at: match input.started_at {
            Some(t) => Some(t),
            None => Some(now),
        },
        ended_at: None,
        summary: None,
        metadata_json: input.metadata_json,
    }
}

/// The outcome of recording an episode whose source is already recorded.
pub open spec fn bound(e: EpisodeView, input: NewEpisodeView) -> Result<EpisodeView, Seq<char>> {
    if e.project_id != input.project_id || e.workspace_id != input.workspace_id {
        Err(
            "episode source "@ + input.source_type + ":"@ + input.source_ref
                + " is already bound to a different project/workspace"@,
        )
    } else {
        Ok(e)
    }
}

/// Holds when an identifier that is drawn can be that of an episode already.
pub open spec fn draws_taken(episodes: Seq<EpisodeView>) -> bool {
    exists|id: Seq<char>| #[trigger] clock::drawn(id) && model::any_row(episodes, with_id(id))
}

/// The outcome of recording an episode that was checked: the episode with the
/// same source if there is one, and otherwise a new one.
pub open spec fn ensured(
    episodes: Seq<EpisodeView>,
    input: NewEpisodeView,
    id: Seq<char>,
    now: int,
) -> Result<EpisodeView, Seq<char>> {
    match model::first_row(episodes, with_source(input.source_type, input.source_ref)) {
        Some(e) => bound(e, input),
        None => if model::any_row(episodes, with_id(id)) {
            Err("UNIQUE constraint failed: episodes.id"@)
        } else {
            Ok(fresh_episode(input, id, now))
        },
    }
}

/// The episodes after one was recorded.
pub open spec fn with_episode(
    episodes: Seq<EpisodeView>,
    input: NewEpisodeView,
    id: Seq<char>,
    now: int,
) -> Seq<EpisodeView> {
    if model::first_row(episodes, with_source(input.source_type, input.source_ref)) is None
        && !model::any_row(episodes, with_id(id)) {
        episodes.push(fresh_episode(input, id, now))
    } else {
        episodes
    }
}

/// Tells whether two optional texts are the same.
fn same_text(a: &Option<String>, b: &Option<String>) -> (r: bool)
    ensures
        r == (model::text_of(*a) == model::text_of(*b)),
{
    match (a, b) {
        (Some(a), Some(b)) => same(a.as_str(), b.as_str()),
        (None, None) => true,
        _ => false,
    }
}

impl Store {
    /// Tells whether an identifier is that of an episode.
    fn has_episode(&self, id: &str) -> (r: bool)
        ensures
            r == model::any_row(self@.episodes, with_id(id@)),
    {
        let test = |e: &Episode| -> (r: bool)
            ensures
                r == with_id(id@)(e@),
            { same(e.id.as_str(), id) };
        has(&self.episodes, test, Ghost(with_id(id@)))
    }

    /// The episode with a source.
    fn episode_by_source(&self, source_type: &str, source_ref: &str) -> (r: Option<Episode>)
        ensures
            model::row_of(r) == model::first_row(
                self@.episodes,
                with_source(source_type@, source_ref@),
            ),
    {
        let test = |e: &Episode| -> (r: bool)
            ensures
                r == with_source(source_type@, source_ref@)(e@),
            { same(e.source_type.as_str(), source_type) && same(e.source_ref.as_str(), source_ref) };
        pick(&self.episodes, test, Ghost(with_source(source_type@, source_ref@)))
    }

    /// The episode with an identifier.
    fn episode_by_id(&self, id: &str) -> (r: Option<Episode>)
        ensures
            model::row_of(r) == model::first_row(self@.episodes, with_id(id@)),
    {
        let test = |e: &Episode| -> (r: bool)
            ensures
                r == with_id(id@)(e@),
            { same(e.id.as_str(), id) };
        pick(&self.episodes, test, Ghost(with_id(id@)))
    }

    /// Records an episode under a given identifier at a given time, unless its
    /// source is already recorded.
    pub fn ensure_episode_with(&mut self, input: &NewEpisode, id: &str, now: i64) -> (r: Result<
        Episode,
        Error,
    >)
        ensures
            match episode_refusal(input@, metadata_refusal(input@.metadata_json)) {
                Some(message) => {
                    &&& error::outcome(r) == Err::<EpisodeView, Seq<char>>(message)
                    &&& *final(self) == *old(self)
                },
                None => {
                    &&& error::outcome(r) == ensured(old(self)@.episodes, input@, id@, now as int)
                    &&& final(self)@ == (StoreView {
                        episodes: with_episode(old(self)@.episodes, input@, id@, now as int),
                        ..old(self)@
                    })
                },
            },
            old(self)@.wf() ==> final(self)@.wf(),
    {
        validate_episode(input)?;
        self.add_episode(input, id, now)
    }

    /// Records an episode that was checked.
    pub fn add_episode(&mut self, input: &NewEpisode, id: &str, now: i64) -> (r: Result<
        Episode,
        Error,
    >)
        ensures
            error::outcome(r) == ensured(old(self)@.episodes, input@, id@, now as int),
            final(self)@ == (StoreView {
                episodes: with_episode(old(self)@.episodes, input@, id@, now as int),
                ..old(self)@
            }),
            old(self)@.wf() ==> final(self)@.wf(),
    {
        let ghost before = self@;
        let existing: Option<Episode> = self.episode_by_source(
            input.source_type.as_str(),
            input.source_ref.as_str(),
        );
        match existing {
            Some(e) => {
                if !same_text(&e.project_id, &input.project_id) || !same_text(
                    &e.workspace_id,
                    &input.workspace_id,
                ) {
                    return Err(
                        Error::of5(
                            "episode source ",
                            input.source_type.as_str(),
                            ":",
                            input.source_ref.as_str(),
                            " is already bound to a different project/workspace",
                        ),
                    );
                }
                Ok(e)
            },
            None => {
                if self.has_episode(id) {
                    return Err(Error::new("UNIQUE constraint failed: episodes.id"));
                }
                let started_at: Option<i64> = match input.started_at {
                    Some(t) => Some(t),
                    None => Some(now),
                };
                let new: Episode = Episode {
                    id: id.to_owned(),
                    project_id: copy_text(&input.project_id),
                    workspace_id: copy_text(&input.workspace_id),
                    source_type: input.source_type.clone(),
                    source_ref: input.source_ref.clone(),
                    started_at,
                    ended_at: None,
                    summary: None,
                    metadata_json: copy_text(&input.metadata_json),
                };
                self.episodes.push(new.duplicate());
                proof {
                    assert(new@ == fresh_episode(input@, id@, now as int));
                    assert(self@.episodes =~= before.episodes.push(new@));
                    if before.wf() {
                        lemma_episode_wf(before, input@, id@, now as int);
                    }
                }
                Ok(new)
            },
        }
    }

    /// Records an episode, unless its source is already recorded.
    pub fn ensure_episode(&mut self, input: NewEpisode) -> (r: Result<Episode, Error>)
        ensures
            match episode_refusal(input@, metadata_refusal(input@.metadata_json)) {
                Some(message) => {
                    &&& error::outcome(r) == Err::<EpisodeView, Seq<char>>(message)
                    &&& *final(self) == *old(self)
                },
                None => match model::first_row(
                    old(self)@.episodes,
                    with_source(input@.source_type, input@.source_ref),
                ) {
                    Some(e) => error::outcome(r) == bound(e, input@) && final(self)@ == old(self)@,
                    None => match r {
                        Ok(e) => {
                            &&& clock::drawn(e@.id)
                            &&& clock::hyphenated(e@.id)
                            &&& e@.started_at is Some
                            &&& input@.started_at is None ==> clock::clock_time(e@.started_at->0)
                            &&& e@ == fresh_episode(input@, e@.id, e@.started_at->0)
                            &&& !model::any_row(old(self)@.episodes, with_id(e@.id))
                            &&& final(self)@ == (StoreView {
                                episodes: old(self)@.episodes.push(e@),
                                ..old(self)@
                            })
                        },
                        Err(e) => {
                            &&& clock::clock_refusal(e@) || e@
                                == "UNIQUE constraint failed: episodes.id"@ && draws_taken(
                                old(self)@.episodes,
                            )
                            &&& final(self)@ == old(self)@
                        },
                    },
                },
            },
            old(self)@.wf() ==> final(self)@.wf(),
    {
        validate_episode(&input)?;
        if self.episode_by_source(input.source_type.as_str(), input.source_ref.as_str()).is_some() {
            return self.add_episode(&input, "", 0);
        }
        let now: i64 = unix_millis()?;
        let id: String = draw_id();
        self.add_episode(&input, id.as_str(), now)
    }

    /// The identifier that an identifier or an unambiguous prefix stands for.
    pub fn resolve_episode_id(&self, id_or_prefix: &str) -> (r: Result<String, Error>)
        ensures
            error::outcome(r) == resolved(self@.episodes, id_or_prefix@),
    {
        let candidate: String = trim(id_or_prefix);
        if is_blank(id_or_prefix) {
            return Err(Error::new("episode ID cannot be empty"));
        }
        if self.has_episode(candidate.as_str()) {
            return Ok(candidate);
        }
        let test = |e: &Episode| -> (r: bool)
            ensures
                r == id_begins(candidate@)(e@),
            { matches_prefix(candidate.as_str(), e.id.as_str()) };
        let matches: Vec<Episode> = select(&self.episodes, test, Ghost(id_begins(candidate@)));
        assert(model::views(matches@).len() == matches@.len());
        if matches.len() == 0 {
            Err(Error::of2("episode not found: ", candidate.as_str()))
        } else if matches.len() == 1 {
            assert(model::views(matches@)[0] == matches@[0]@);
            Ok(matches[0].id.clone())
        } else {
            Err(Error::of2("ambiguous episode ID prefix: ", candidate.as_str()))
        }
    }
}

/// What an identifier or a prefix stands for is the identifier of an episode.
pub proof fn lemma_resolved_is_there(episodes: Seq<EpisodeView>, target: Seq<char>)
    ensures
        resolved(episodes, target) matches Ok(id) ==> model::any_row(episodes, with_id(id)),
{
    let candidate = text::trimmed(target);
    let p = id_begins(candidate);
    let matches = episodes.filter(p);
    model::lemma_filter_contains(episodes, p);
    if matches.len() == 1 {
        assert(episodes.contains(matches[0]));
        let i = choose|i: int| 0 <= i < episodes.len() && episodes[i] == matches[0];
        assert(with_id(matches[0].id)(episodes[i]));
    }
}

/// Recording an episode keeps the constraints.
proof fn lemma_episode_wf(s: StoreView, input: NewEpisodeView, id: Seq<char>, now: int)
    requires
        s.wf(),
    ensures
        (StoreView { episodes: with_episode(s.episodes, input, id, now), ..s }).wf(),
{
    let p = with_source(input.source_type, input.source_ref);
    let t = StoreView { episodes: with_episode(s.episodes, input, id, now), ..s };
    if model::first_row(s.episodes, p) is None && !model::any_row(s.episodes, with_id(id)) {
        let new = fresh_episode(input, id, now);
        model::lemma_first_row(s.episodes, p);
        assert forall|i: int| 0 <= i < s.episodes.len() implies id_key()(#[trigger] s.episodes[i])
            != id_key()(new) && source_key()(s.episodes[i]) != source_key()(new) by {
            assert(!with_id(id)(s.episodes[i]));
            assert(!p(s.episodes[i]));
        }
        model::lemma_distinct_push(s.episodes, new, id_key());
        model::lemma_distinct_push(s.episodes, new, source_key());
        assert forall|k: int| 0 <= k < t.entries.len() implies model::any_row(
            t.episodes,
            with_id((#[trigger] t.entries[k]).episode_id),
        ) by {
            let q = with_id(s.entries[k].episode_id);
            assert(model::any_row(s.episodes, q));
            let i = choose|i: int| 0 <= i < s.episodes.len() && q(#[trigger] s.episodes[i]);
            assert(t.episodes[i] == s.episodes[i]);
        }
    }
    assert(t.embeddings_wf());
    assert(t.jobs_wf());
}

/// Selects the entries of an episode.
pub open spec fn entry_of(episode_id: Seq<char>) -> spec_fn(EntryView) -> bool {
    |e: EntryView| e.episode_id == episode_id
}

/// Selects the entry at a place.
pub open spec fn at_place(episode_id: Seq<char>, source_ref: Seq<char>) -> spec_fn(
    EntryView,
) -> bool {
    |e: EntryView| e.episode_id == episode_id && e.source_ref == source_ref
}

/// Selects the entry with an identifier.
pub open spec fn entry_with_id(id: Seq<char>) -> spec_fn(EntryView) -> bool {
    |e: EntryView| e.id == id
}

/// The ordinal behind those of the given entries.
pub open spec fn next_ordinal(entries: Seq<EntryView>) -> int
    decreases entries.len(),
{
    if entries.len() == 0 {
        0
    } else {
        let before = next_ordinal(entries.drop_last());
        let last = entries.last().ordinal + 1;
        if entries.len() == 1 || before < last {
            last
        } else {
            before
        }
    }
}

/// An entry after it was recorded again, if it is the one.
pub open spec fn rewrite_entry(id: Seq<char>, input: NewEntryView) -> spec_fn(
    EntryView,
) -> EntryView {
    |e: EntryView|
        if e.id == id {
            EntryView {
                ordinal: match input.ordinal {
                    Some(n) => n,
                    None => e.ordinal,
                },
                kind: input.kind,
                role: input.role,
                text: input.text,
                occurred_at: input.occurred_at,
                metadata_json: input.metadata_json,
                ..e
            }
        } else {
            e
        }
}

/// The entry that recording `input` creates.
pub open spec fn fresh_entry(
    input: NewEntryView,
    episode_id: Seq<char>,
    ordinal: int,
    id: Seq<char>,
) -> EntryView {
    EntryView {
        id,
        episode_id,
        source_ref: input.source_ref,
        ordinal,
        kind: input.kind,
        role: input.role,
        text: input.text,
        occurred_at: input.occurred_at,
        metadata_json: input.metadata_json,
    }
}

/// The ordinal of a new entry: the given one, and otherwise the next.
pub open spec fn ordinal_for(
    entries: Seq<EntryView>,
    episode_id: Seq<char>,
    input: NewEntryView,
) -> int {
    match input.ordinal {
        Some(n) => n,
        None => next_ordinal(entries.filter(entry_of(episode_id))),
    }
}

/// Holds when recording an entry adds a new one, which needs an identifier: there is
/// none at its place, and its ordinal is not too large.
pub open spec fn adds_entry(
    entries: Seq<EntryView>,
    episode_id: Seq<char>,
    input: NewEntryView,
) -> bool {
    &&& model::first_row(entries, at_place(episode_id, input.source_ref)) is None
    &&& ordinal_for(entries, episode_id, input) <= i64::MAX
}

/// The outcome of recording an entry of an episode: an entry at the same place is
/// rewritten, and otherwise a new one is added.
pub open spec fn recorded(
    entries: Seq<EntryView>,
    episode_id: Seq<char>,
    input: NewEntryView,
    id: Seq<char>,
) -> Result<EntryView, Seq<char>> {
    match model::first_row(entries, at_place(episode_id, input.source_ref)) {
        Some(e) => Ok(
            rewrite_entry(e.id, input)(model::first_row(entries, entry_with_id(e.id))->0),
        ),
        None => if ordinal_for(entries, episode_id, input) > i64::MAX {
            Err("episode entry ordinal overflow"@)
        } else if model::any_row(entries, entry_with_id(id)) {
            Err("UNIQUE constraint failed: episode_entries.id"@)
        } else {
            Ok(fresh_entry(input, episode_id, ordinal_for(entries, episode_id, input), id))
        },
    }
}

/// The entries after one was recorded.
pub open spec fn with_entry(
    entries: Seq<EntryView>,
    episode_id: Seq<char>,
    input: NewEntryView,
    id: Seq<char>,
) -> Seq<EntryView> {
    match model::first_row(entries, at_place(episode_id, input.source_ref)) {
        Some(e) => entries.map_values(rewrite_entry(e.id, input)),
        None => if recorded(entries, episode_id, input, id) is Ok {
            entries.push(recorded(entries, episode_id, input, id)->Ok_0)
        } else {
            entries
        },
    }
}

/// The entry after it was recorded again, if it is the one.
fn rewritten_entry(e: &EpisodeEntry, id: &str, input: &NewEpisodeEntry) -> (r: EpisodeEntry)
    ensures
        r@ == rewrite_entry(id@, input@)(e@),
{
    let mut out: EpisodeEntry = e.duplicate();
    if same(e.id.as_str(), id) {
        out.ordinal = match input.ordinal {
            Some(ordinal) => ordinal,
            None => e.ordinal,
        };
        out.kind = input.kind.clone();
        out.role = copy_text(&input.role);
        out.text = input.text.clone();
        out.occurred_at = input.occurred_at;
        out.metadata_json = copy_text(&input.metadata_json);
    }
    out
}

impl Store {
    /// The entries of an episode.
    fn entries_of(&self, episode_id: &str) -> (r: Vec<EpisodeEntry>)
        ensures
            model::views(r@) == self@.entries.filter(entry_of(episode_id@)),
    {
        let test = |e: &EpisodeEntry| -> (r: bool)
            ensures
                r == entry_of(episode_id@)(e@),
            { same(e.episode_id.as_str(), episode_id) };
        select(&self.entries, test, Ghost(entry_of(episode_id@)))
    }

    /// The ordinal of a new entry, unless it is too large.
    fn ordinal_for(&self, episode_id: &str, input: &NewEpisodeEntry) -> (r: Option<i64>)
        ensures
            match r {
                Some(n) => n == ordinal_for(self@.entries, episode_id@, input@),
                None => ordinal_for(self@.entries, episode_id@, input@) > i64::MAX,
            },
    {
        if let Some(ordinal) = input.ordinal {
            return Some(ordinal);
        }
        let rows: Vec<EpisodeEntry> = self.entries_of(episode_id);
        let ghost all = model::views(rows@);
        let mut next: i128 = 0;
        let mut i: usize = 0;
        assert(all.take(0) =~= Seq::<EntryView>::empty());
        while i < rows.len()
            invariant
                i <= rows@.len(),
                all == model::views(rows@),
                next == next_ordinal(all.take(i as int)),
                i64::MIN < next <= i64::MAX + 1,
            decreases rows@.len() - i,
        {
            let last: i128 = rows[i].ordinal as i128 + 1;
            assert(all.take(i + 1).drop_last() =~= all.take(i as int));
            assert(all[i as int] == rows@[i as int]@);
            if i == 0 || next < last {
                next = last;
            }
            i = i + 1;
        }
        assert(all.take(i as int) =~= all);
        if next > 0x7fff_ffff_ffff_ffff {
            None
        } else {
            Some(next as i64)
        }
    }

    /// The entry at a place.
    fn entry_at(&self, episode_id: &str, source_ref: &str) -> (r: Option<EpisodeEntry>)
        ensures
            model::row_of(r) == model::first_row(
                self@.entries,
                at_place(episode_id@, source_ref@),
            ),
    {
        let place = |e: &EpisodeEntry| -> (r: bool)
            ensures
                r == at_place(episode_id@, source_ref@)(e@),
            { same(e.episode_id.as_str(), episode_id) && same(e.source_ref.as_str(), source_ref) };
        pick(&self.entries, place, Ghost(at_place(episode_id@, source_ref@)))
    }

    /// Tells whether recording an entry adds a new one.
    fn adds_entry(&self, episode_id: &str, input: &NewEpisodeEntry) -> (r: bool)
        ensures
            r == adds_entry(self@.entries, episode_id@, input@),
    {
        self.entry_at(episode_id, input.source_ref.as_str()).is_none() && self.ordinal_for(
            episode_id,
            input,
        ).is_some()
    }

    /// Records an entry of an episode, both of them checked, under a given
    /// identifier.
    pub fn add_entry(&mut self, episode_id: &str, input: &NewEpisodeEntry, id: &str) -> (r: Result<
        EpisodeEntry,
        Error,
    >)
        ensures
            error::outcome(r) == recorded(old(self)@.entries, episode_id@, input@, id@),
            final(self)@ == (StoreView {
                entries: with_entry(old(self)@.entries, episode_id@, input@, id@),
                ..old(self)@
            }),
            old(self)@.wf() && model::any_row(old(self)@.episodes, with_id(episode_id@))
                ==> final(self)@.wf(),
    {
        let ghost before = self@;
        proof {
            if before.wf() && model::any_row(before.episodes, with_id(episode_id@)) {
                lemma_entry_wf(before, episode_id@, input@, id@);
            }
        }
        let source_ref: &str = input.source_ref.as_str();
        let existing: Option<EpisodeEntry> = self.entry_at(episode_id, source_ref);
        match existing {
            Some(e) => {
                let known: &str = e.id.as_str();
                let test = |x: &EpisodeEntry| -> (r: bool)
                    ensures
                        r == entry_with_id(known@)(x@),
                    { same(x.id.as_str(), known) };
                let first: Option<EpisodeEntry> = pick(
                    &self.entries,
                    test,
                    Ghost(entry_with_id(known@)),
                );
                proof {
                    model::lemma_first_row(before.entries, at_place(episode_id@, source_ref@));
                    let i = choose|i: int|
                        0 <= i < before.entries.len() && before.entries[i] == e@;
                    assert(entry_with_id(known@)(before.entries[i]));
                    model::lemma_first_row(before.entries, entry_with_id(known@));
                }
                let change = |x: &EpisodeEntry| -> (r: EpisodeEntry)
                    ensures
                        r@ == rewrite_entry(known@, input@)(x@),
                    { rewritten_entry(x, known, input) };
                self.entries = rewrite(&self.entries, change, Ghost(rewrite_entry(known@, input@)));
                match first {
                    Some(x) => Ok(rewritten_entry(&x, known, input)),
                    None => Ok(e),
                }
            },
            None => {
                let ordinal: i64 = match self.ordinal_for(episode_id, input) {
                    Some(ordinal) => ordinal,
                    None => {
                        return Err(Error::new("episode entry ordinal overflow"));
                    },
                };
                let test = |x: &EpisodeEntry| -> (r: bool)
                    ensures
                        r == entry_with_id(id@)(x@),
                    { same(x.id.as_str(), id) };
                if has(&self.entries, test, Ghost(entry_with_id(id@))) {
                    return Err(Error::new("UNIQUE constraint failed: episode_entries.id"));
                }
                let new: EpisodeEntry = EpisodeEntry {
                    id: id.to_owned(),
                    episode_id: episode_id.to_owned(),
                    source_ref: input.source_ref.clone(),
                    ordinal,
                    kind: input.kind.clone(),
                    role: copy_text(&input.role),
                    text: input.text.clone(),
                    occurred_at: input.occurred_at,
                    metadata_json: copy_text(&input.metadata_json),
                };
                self.entries.push(new.duplicate());
                assert(self@.entries =~= before.entries.push(new@));
                Ok(new)
            },
        }
    }

    /// Records an entry of an episode under a given identifier. An entry with the
    /// same source is rewritten.
    pub fn record_episode_entry_with(
        &mut self,
        episode_id_or_prefix: &str,
        input: &NewEpisodeEntry,
        id: &str,
    ) -> (r: Result<EpisodeEntry, Error>)
        ensures
            match entry_refusal(input@, metadata_refusal(input@.metadata_json)) {
                Some(message) => {
                    &&& error::outcome(r) == Err::<EntryView, Seq<char>>(message)
                    &&& *final(self) == *old(self)
                },
                None => match resolved(old(self)@.episodes, episode_id_or_prefix@) {
                    Err(message) => {
                        &&& error::outcome(r) == Err::<EntryView, Seq<char>>(message)
                        &&& *final(self) == *old(self)
                    },
                    Ok(episode_id) => {
                        &&& error::outcome(r) == recorded(
                            old(self)@.entries,
                            episode_id,
                            input@,
                            id@,
                        )
                        &&& final(self)@ == (StoreView {
                            entries: with_entry(old(self)@.entries, episode_id, input@, id@),
                            ..old(self)@
                        })
                    },
                },
            },
            old(self)@.wf() ==> final(self)@.wf(),
    {
        validate_episode_entry(input)?;
        let episode_id: String = self.resolve_episode_id(episode_id_or_prefix)?;
        proof {
            lemma_resolved_is_there(self@.episodes, episode_id_or_prefix@);
        }
        self.add_entry(episode_id.as_str(), input, id)
    }

    /// Records an entry of an episode. An entry with the same source is
    /// rewritten; only a new one gets a fresh identifier.
    pub fn record_episode_entry(
        &mut self,
        episode_id_or_prefix: &str,
        input: NewEpisodeEntry,
    ) -> (r: Result<EpisodeEntry, Error>)
        ensures
            match entry_refusal(input@, metadata_refusal(input@.metadata_json)) {
                Some(message) => {
                    &&& error::outcome(r) == Err::<EntryView, Seq<char>>(message)
                    &&& *final(self) == *old(self)
                },
                None => match resolved(old(self)@.episodes, episode_id_or_prefix@) {
                    Err(message) => {
                        &&& error::outcome(r) == Err::<EntryView, Seq<char>>(message)
                        &&& *final(self) == *old(self)
                    },
                    Ok(episode_id) => if adds_entry(old(self)@.entries, episode_id, input@) {
                        exists|id: Seq<char>|
                            clock::drawn(id) && error::outcome(r) == #[trigger] recorded(
                                old(self)@.entries,
                                episode_id,
                                input@,
                                id,
                            ) && final(self)@ == (StoreView {
                                entries: with_entry(old(self)@.entries, episode_id, input@, id),
                                ..old(self)@
                            })
                    } else {
                        &&& error::outcome(r) == recorded(
                            old(self)@.entries,
                            episode_id,
                            input@,
                            ""@,
                        )
                        &&& final(self)@ == (StoreView {
                            entries: with_entry(old(self)@.entries, episode_id, input@, ""@),
                            ..old(self)@
                        })
                    },
                },
            },
            old(self)@.wf() ==> final(self)@.wf(),
    {
        validate_episode_entry(&input)?;
        let episode_id: String = self.resolve_episode_id(episode_id_or_prefix)?;
        proof {
            lemma_resolved_is_there(self@.episodes, episode_id_or_prefix@);
        }
        if self.adds_entry(episode_id.as_str(), &input) {
            let id: String = draw_id();
            self.add_entry(episode_id.as_str(), &input, id.as_str())
        } else {
            self.add_entry(episode_id.as_str(), &input, "")
        }
    }
}

/// Recording an entry of an episode keeps the constraints.
proof fn lemma_entry_wf(s: StoreView, episode_id: Seq<char>, input: NewEntryView, id: Seq<char>)
    requires
        s.wf(),
        model::any_row(s.episodes, with_id(episode_id)),
    ensures
        (StoreView { entries: with_entry(s.entries, episode_id, input, id), ..s }).wf(),
{
    let t = StoreView { entries: with_entry(s.entries, episode_id, input, id), ..s };
    let p = at_place(episode_id, input.source_ref);
    match model::first_row(s.entries, p) {
        Some(e) => {
            let g = rewrite_entry(e.id, input);
            model::lemma_distinct_map(s.entries, g, entry_id_key());
            model::lemma_distinct_map(s.entries, g, place_key());
            assert forall|k: int| 0 <= k < t.entries.len() implies model::any_row(
                t.episodes,
                with_id((#[trigger] t.entries[k]).episode_id),
            ) by {
                assert(t.entries[k] == g(s.entries[k]));
                assert(model::any_row(s.episodes, with_id(s.entries[k].episode_id)));
            }
        },
        None => {
            if recorded(s.entries, episode_id, input, id) is Ok {
                let new = recorded(s.entries, episode_id, input, id)->Ok_0;
                model::lemma_first_row(s.entries, p);
                assert forall|i: int| 0 <= i < s.entries.len() implies entry_id_key()(
                    #[trigger] s.entries[i],
                ) != entry_id_key()(new) && place_key()(s.entries[i]) != place_key()(new) by {
                    assert(!entry_with_id(id)(s.entries[i]));
                    assert(!p(s.entries[i]));
                }
                model::lemma_distinct_push(s.entries, new, entry_id_key());
                model::lemma_distinct_push(s.entries, new, place_key());
                assert forall|k: int| 0 <= k < t.entries.len() implies model::any_row(
                    t.episodes,
                    with_id((#[trigger] t.entries[k]).episode_id),
                ) by {
                    if k < s.entries.len() {
                        assert(t.entries[k] == s.entries[k]);
                        assert(model::any_row(s.episodes, with_id(s.entries[k].episode_id)));
                    }
                }
            }
        },
    }
    assert(t.embeddings_wf());
    assert(t.jobs_wf());
}

/// An episode after it ended, if it is the one.
pub open spec fn end_at(id: Seq<char>, ended_at: int) -> spec_fn(EpisodeView) -> EpisodeView {
    |e: EpisodeView|
        if e.id == id {
            EpisodeView { ended_at: Some(ended_at), ..e }
        } else {
            e
        }
}

/// The time an episode ended: the given one, and otherwise the current one.
pub open spec fn end_time(ended_at: Option<int>, now: int) -> int {
    match ended_at {
        Some(t) => t,
        None => now,
    }
}

/// The order of the entries of an episode.
pub open spec fn by_ordinal() -> spec_fn(EntryView) -> KeyView {
    |e: EntryView| KeyView { first: e.ordinal, second: 0, third: 0, text: e.id }
}

impl Store {
    /// Marks an episode as ended, at the given time or else at `now`.
    pub fn end_episode_with(
        &mut self,
        episode_id_or_prefix: &str,
        ended_at: Option<i64>,
        now: i64,
    ) -> (r: Result<Episode, Error>)
        ensures
            match resolved(old(self)@.episodes, episode_id_or_prefix@) {
                Err(message) => {
                    &&& error::outcome(r) == Err::<EpisodeView, Seq<char>>(message)
                    &&& *final(self) == *old(self)
                },
                Ok(id) => {
                    let g = end_at(id, end_time(model::number_of(ended_at), now as int));
                    &&& error::outcome(r) == Ok::<EpisodeView, Seq<char>>(
                        g(model::first_row(old(self)@.episodes, with_id(id))->0),
                    )
                    &&& final(self)@ == (StoreView {
                        episodes: old(self)@.episodes.map_values(g),
                        ..old(self)@
                    })
                },
            },
            old(self)@.wf() ==> final(self)@.wf(),
    {
        let ghost before = self@;
        let id: String = self.resolve_episode_id(episode_id_or_prefix)?;
        let known: &str = id.as_str();
        let at: i64 = match ended_at {
            Some(t) => t,
            None => now,
        };
        proof {
            lemma_resolved_is_there(before.episodes, episode_id_or_prefix@);
            model::lemma_first_row(before.episodes, with_id(known@));
            if before.wf() {
                lemma_ended_wf(before, known@, at as int);
            }
        }
        let first: Option<Episode> = self.episode_by_id(known);
        let change = |e: &Episode| -> (r: Episode)
            ensures
                r@ == end_at(known@, at as int)(e@),
            {
                let mut out: Episode = e.duplicate();
                if same(e.id.as_str(), known) {
                    out.ended_at = Some(at);
                }
                out
            };
        self.episodes = rewrite(&self.episodes, change, Ghost(end_at(known@, at as int)));
        match first {
            Some(e) => {
                let mut out: Episode = e;
                out.ended_at = Some(at);
                Ok(out)
            },
            None => Err(Error::of2("episode not found: ", known)),
        }
    }

    /// Marks an episode as ended, at the given time or else at the current one.
    pub fn end_episode(&mut self, episode_id_or_prefix: &str, ended_at: Option<i64>) -> (r: Result<
        Episode,
        Error,
    >)
        ensures
            match resolved(old(self)@.episodes, episode_id_or_prefix@) {
                Err(message) => {
                    &&& error::outcome(r) == Err::<EpisodeView, Seq<char>>(message)
                    &&& *final(self) == *old(self)
                },
                Ok(id) => match r {
                    Ok(e) => {
                        let at = e@.ended_at->0;
                        &&& ended_at matches Some(t) ==> at == t
                        &&& ended_at is None ==> clock::clock_time(at)
                        &&& e@ == end_at(id, at)(
                            model::first_row(old(self)@.episodes, with_id(id))->0,
                        )
                        &&& final(self)@ == (StoreView {
                            episodes: old(self)@.episodes.map_values(end_at(id, at)),
                            ..old(self)@
                        })
                    },
                    Err(e) => clock::clock_refusal(e@) && *final(self) == *old(self),
                },
            },
            old(self)@.wf() ==> final(self)@.wf(),
    {
        let ghost before = self@;
        let id: String = self.resolve_episode_id(episode_id_or_prefix)?;
        let now: i64 = unix_millis()?;
        proof {
            lemma_resolved_is_there(before.episodes, episode_id_or_prefix@);
            model::lemma_first_row(before.episodes, with_id(id@));
        }
        self.end_episode_with(episode_id_or_prefix, ended_at, now)
    }

    /// An episode with all its entries, in their order.
    pub fn get_episode(&self, episode_id_or_prefix: &str) -> (r: Result<EpisodeRecord, Error>)
        ensures
            match resolved(self@.episodes, episode_id_or_prefix@) {
                Err(message) => r matches Err(e) && e@ == message,
                Ok(id) => r matches Ok(record) && {
                    &&& record.episode@ == model::first_row(self@.episodes, with_id(id))->0
                    &&& model::ranked(
                        model::views(record.entries@),
                        self@.entries.filter(entry_of(id)),
                        by_ordinal(),
                        self@.entries.filter(entry_of(id)).len() as int,
                    )
                },
            },
    {
        let id: String = self.resolve_episode_id(episode_id_or_prefix)?;
        proof {
            lemma_resolved_is_there(self@.episodes, episode_id_or_prefix@);
            model::lemma_first_row(self@.episodes, with_id(id@));
        }
        let rows: Vec<EpisodeEntry> = self.entries_of(id.as_str());
        let key_of = |e: &EpisodeEntry| -> (r: Key)
            ensures
                r@ == by_ordinal()(e@),
            { Key { first: e.ordinal as i128, second: 0, third: 0, text: e.id.clone() } };
        assert(model::views(rows@).len() == rows@.len());
        let entries: Vec<EpisodeEntry> = top_by(&rows, key_of, Ghost(by_ordinal()), rows.len());
        match self.episode_by_id(id.as_str()) {
            Some(episode) => Ok(EpisodeRecord { episode, entries }),
            None => Err(Error::of2("episode not found: ", id.as_str())),
        }
    }

    /// Identifiers of episodes that begin with a text, at most three of them: the text
    /// itself first if it is one, then by identifier.
    pub fn episode_id_candidates(&self, id_or_prefix: &str) -> (r: Vec<String>)
        ensures
            model::ranked(
                model::views(r@),
                model::joined(self@.episodes, candidate_id(text::trimmed(id_or_prefix@))),
                exact_first(text::trimmed(id_or_prefix@)),
                3,
            ),
    {
        let candidate: String = trim(id_or_prefix);
        let id_of = |e: &Episode| -> (r: Option<String>)
            ensures
                model::row_of(r) == candidate_id(candidate@)(e@),
            {
                if matches_prefix(candidate.as_str(), e.id.as_str()) {
                    Some(e.id.clone())
                } else {
                    None
                }
            };
        let ids: Vec<String> = join(&self.episodes, id_of, Ghost(candidate_id(candidate@)));
        let key_of = |id: &String| -> (r: Key)
            ensures
                r@ == exact_first(candidate@)(id@),
            {
                let first: i128 = if same(id.as_str(), candidate.as_str()) {
                    0
                } else {
                    1
                };
                Key { first, second: 0, third: 0, text: id.clone() }
            };
        top_by(&ids, key_of, Ghost(exact_first(candidate@)), 3)
    }
}

/// The identifier of an episode, if it begins with a text.
pub open spec fn candidate_id(candidate: Seq<char>) -> spec_fn(EpisodeView) -> Option<Seq<char>> {
    |e: EpisodeView|
        if id_begins(candidate)(e) {
            Some(e.id)
        } else {
            None
        }
}

/// The order of candidates: the exact identifier first, then by identifier.
pub open spec fn exact_first(candidate: Seq<char>) -> spec_fn(Seq<char>) -> KeyView {
    |id: Seq<char>|
        KeyView {
            first: if id == candidate {
                0
            } else {
                1
            },
            second: 0,
            third: 0,
            text: id,
        }
}

/// The candidates for a text are identifiers of episodes that begin with it, whatever
/// characters it has: the text itself first if it is one, the others by identifier, none
/// of them twice, and as many of the first of them as there are, up to three.
pub proof fn law_candidates_begin_with_the_text(
    episodes: Seq<EpisodeView>,
    candidate: Seq<char>,
    ids: Seq<Seq<char>>,
)
    requires
        model::distinct(episodes, id_key()),
        model::ranked(
            ids,
            model::joined(episodes, candidate_id(candidate)),
            exact_first(candidate),
            3,
        ),
    ensures
        ids.len() == (if episodes.filter(id_begins(candidate)).len() > 3 {
            3
        } else {
            episodes.filter(id_begins(candidate)).len() as int
        }),
        forall|i: int|
            0 <= i < ids.len() ==> like::starts_folded(candidate, #[trigger] ids[i])
                && model::any_row(episodes, with_id(ids[i])),
        forall|i: int, j: int| 0 <= i < j < ids.len() ==> #[trigger] ids[i] != #[trigger] ids[j],
        model::any_row(episodes, with_id(candidate)) ==> ids.len() > 0 && ids[0] == candidate,
        forall|i: int, j: int|
            0 <= i < j < ids.len() ==> #[trigger] ids[i] == candidate || order::text_le(
                ids[i],
                #[trigger] ids[j],
            ),
        forall|i: int, k: int|
            0 <= i < ids.len() && 0 <= k < episodes.len() && like::starts_folded(
                candidate,
                (#[trigger] episodes[k]).id,
            ) ==> ids.contains(episodes[k].id) || #[trigger] ids[i] == candidate
                || order::text_le(ids[i], episodes[k].id),
{
    let g = candidate_id(candidate);
    let p = id_begins(candidate);
    let key = exact_first(candidate);
    let source = model::joined(episodes, g);
    let kept = episodes.filter(model::gives(g));
    assert(model::gives(g) =~= p);
    model::law_ranked_rows(ids, source, key, 3);
    model::lemma_filter_contains(episodes, p);
    model::lemma_distinct_filter(episodes, p, id_key());
    let id = |x: Seq<char>| x;
    assert(model::distinct(source, id)) by {
        assert forall|i: int, j: int| 0 <= i < j < source.len() implies id(#[trigger] source[i])
            != id(#[trigger] source[j]) by {
            assert(id_key()(kept[i]) != id_key()(kept[j]));
        }
    }
    model::lemma_ranked_distinct(ids, source, key, 3, id);
    assert forall|i: int, j: int| 0 <= i < j < ids.len() implies #[trigger] ids[i]
        != #[trigger] ids[j] by {
        assert(id(ids[i]) != id(ids[j]));
    }
    assert forall|i: int| 0 <= i < ids.len() implies like::starts_folded(
        candidate,
        #[trigger] ids[i],
    ) && model::any_row(episodes, with_id(ids[i])) by {
        let k = choose|k: int| 0 <= k < source.len() && source[k] == ids[i];
        assert(p(kept[k]));
        let e = choose|e: int| 0 <= e < episodes.len() && episodes[e] == kept[k];
        assert(with_id(ids[i])(episodes[e]));
    }
    assert forall|k: int| 0 <= k < episodes.len() && p(#[trigger] episodes[k]) implies
        source.contains(episodes[k].id) by {
        assert(kept.contains(episodes[k]));
        let j = choose|j: int| 0 <= j < kept.len() && kept[j] == episodes[k];
        assert(source[j] == episodes[k].id);
    }
    assert forall|i: int, k: int|
        0 <= i < ids.len() && 0 <= k < episodes.len() && like::starts_folded(
            candidate,
            (#[trigger] episodes[k]).id,
        ) implies ids.contains(episodes[k].id) || #[trigger] ids[i] == candidate
        || order::text_le(ids[i], episodes[k].id) by {
        assert(p(episodes[k]));
        let j = choose|j: int| 0 <= j < source.len() && source[j] == episodes[k].id;
        assert(ids.contains(source[j]) || order::key_le(key(ids[i]), key(source[j])));
    }
    if model::any_row(episodes, with_id(candidate)) {
        let k = choose|k: int|
            0 <= k < episodes.len() && with_id(candidate)(#[trigger] episodes[k]);
        assert(p(episodes[k]));
        let j = choose|j: int| 0 <= j < source.len() && source[j] == candidate;
        assert(ids.len() > 0);
        assert(ids.contains(source[j]) || order::key_le(key(ids[0]), key(source[j])));
        if ids.contains(candidate) {
            let i = choose|i: int| 0 <= i < ids.len() && ids[i] == candidate;
            if i > 0 {
                assert(order::key_le(key(ids[0]), key(ids[i])));
            }
        }
    }
}

/// Ending an episode keeps the constraints.
proof fn lemma_ended_wf(s: StoreView, id: Seq<char>, at: int)
    requires
        s.wf(),
    ensures
        (StoreView { episodes: s.episodes.map_values(end_at(id, at)), ..s }).wf(),
{
    let g = end_at(id, at);
    let t = StoreView { episodes: s.episodes.map_values(g), ..s };
    model::lemma_distinct_map(s.episodes, g, id_key());
    model::lemma_distinct_map(s.episodes, g, source_key());
    assert forall|k: int| 0 <= k < t.entries.len() implies model::any_row(
        t.episodes,
        with_id((#[trigger] t.entries[k]).episode_id),
    ) by {
        let q = with_id(s.entries[k].episode_id);
        assert(model::any_row(s.episodes, q));
        let i = choose|i: int| 0 <= i < s.episodes.len() && q(#[trigger] s.episodes[i]);
        assert(t.episodes[i] == g(s.episodes[i]));
    }
    assert(t.embeddings_wf());
    assert(t.jobs_wf());
}

/// What a match of the full-text index finds: the entry, with its episode if that
/// belongs to the project.
pub open spec fn history_row(s: StoreView, project_id: Option<Seq<char>>) -> spec_fn(
    MatchView,
) -> Option<HistoryRowView> {
    |m: MatchView|
        match model::first_row(s.entries, entry_with_id(m.id)) {
            Some(entry) => match model::first_row(s.episodes, with_id(entry.episode_id)) {
                Some(e) => if e.project_id == project_id {
                    Some(
                        HistoryRowView {
                            hit: HistoryView {
                                episode_id: e.id,
                                project_id: e.project_id,
                                workspace_id: e.workspace_id,
                                source_type: e.source_type,
                                episode_source_ref: e.source_ref,
                                entry_id: entry.id,
                                entry_source_ref: entry.source_ref,
                                ordinal: entry.ordinal,
                                kind: entry.kind,
                                role: entry.role,
                                text: entry.text,
                                occurred_at: entry.occurred_at,
                                rank: m.rank,
                            },
                            started_at: e.started_at,
                        },
                    )
                } else {
                    None
                },
                None => None,
            },
            None => None,
        }
}

/// The found entry of a row.
pub open spec fn hit_of_row() -> spec_fn(HistoryRowView) -> HistoryView {
    |row: HistoryRowView| row.hit
}

/// Holds when `hits` are the first entries that the given matches find in the history of
/// a project.
pub open spec fn is_history(
    hits: Seq<HistoryView>,
    s: StoreView,
    project_id: Option<Seq<char>>,
    matches: Seq<MatchView>,
    limit: int,
) -> bool {
    exists|rows: Seq<HistoryRowView>| #[trigger]
        model::ranked(
            rows,
            model::joined(matches, history_row(s, project_id)),
            by_relevance(),
            limit,
        ) && hits == rows.map_values(hit_of_row())
}

/// The order of found entries: by rank, then the latest episode first, then by
/// ordinal. Episodes without a start come last.
pub open spec fn by_relevance() -> spec_fn(HistoryRowView) -> KeyView {
    |row: HistoryRowView|
        KeyView {
            first: row.hit.rank,
            second: match row.started_at {
                Some(t) => -t,
                None => 0x1_0000_0000_0000_0000,
            },
            third: row.hit.ordinal,
            text: Seq::empty(),
        }
}

/// Why a search of the history is refused.
pub open spec fn history_refusal(query: Seq<char>, limit: int) -> Option<Seq<char>> {
    if query::words(query).len() == 0 {
        Some("history query cannot be empty"@)
    } else if limit > i64::MAX {
        Some(clock::out_of_range())
    } else {
        None
    }
}

impl Store {
    /// What a match of the full-text index finds.
    fn find_in_history(&self, m: &Match, project_id: &Option<String>) -> (r: Option<HistoryRow>)
        ensures
            model::row_of(r) == history_row(self@, model::text_of(*project_id))(m@),
    {
        let id: &str = m.id.as_str();
        let test = |e: &EpisodeEntry| -> (r: bool)
            ensures
                r == entry_with_id(id@)(e@),
            { same(e.id.as_str(), id) };
        let entry: EpisodeEntry = match pick(&self.entries, test, Ghost(entry_with_id(id@))) {
            Some(entry) => entry,
            None => {
                return None;
            },
        };
        let episode: Episode = match self.episode_by_id(entry.episode_id.as_str()) {
            Some(episode) => episode,
            None => {
                return None;
            },
        };
        if !same_text(&episode.project_id, project_id) {
            return None;
        }
        let hit: HistoryHit = HistoryHit {
            episode_id: episode.id,
            project_id: episode.project_id,
            workspace_id: episode.workspace_id,
            source_type: episode.source_type,
            episode_source_ref: episode.source_ref,
            entry_id: entry.id,
            entry_source_ref: entry.source_ref,
            ordinal: entry.ordinal,
            kind: entry.kind,
            role: entry.role,
            text: entry.text,
            occurred_at: entry.occurred_at,
            rank: m.rank,
        };
        Some(HistoryRow { hit, started_at: episode.started_at })
    }

    /// The entries among the matches of the full-text index for a query, from the
    /// episodes of a project or, without one, from those without a project.
    pub fn history_search(
        &self,
        query: &str,
        project_id: &Option<String>,
        limit: usize,
        matches: &Vec<Match>,
    ) -> (r: Result<Vec<HistoryHit>, Error>)
        ensures
            match history_refusal(query@, limit as int) {
                Some(message) => r matches Err(e) && e@ == message,
                None => r matches Ok(hits) && is_history(
                    model::views(hits@),
                    self@,
                    model::text_of(*project_id),
                    model::views(matches@),
                    limit as int,
                ),
            },
    {
        history_query(query)?;
        to_i64(limit as u128)?;
        let ghost project = model::text_of(*project_id);
        let row_of_match = |m: &Match| -> (r: Option<HistoryRow>)
            ensures
                model::row_of(r) == history_row(self@, model::text_of(*project_id))(m@),
            { self.find_in_history(m, project_id) };
        let found: Vec<HistoryRow> = join(
            matches,
            row_of_match,
            Ghost(history_row(self@, project)),
        );
        let key_of = |row: &HistoryRow| -> (r: Key)
            ensures
                r@ == by_relevance()(row@),
            {
                let second: i128 = match row.started_at {
                    Some(t) => -(t as i128),
                    None => 0x1_0000_0000_0000_0000,
                };
                let key: Key = Key {
                    first: row.hit.rank as i128,
                    second,
                    third: row.hit.ordinal as i128,
                    text: String::new(),
                };
                assert(key.text@ =~= Seq::<char>::empty());
                key
            };
        let rows: Vec<HistoryRow> = top_by(&found, key_of, Ghost(by_relevance()), limit);
        let hits: Vec<HistoryHit> = hits_of_rows(&rows);
        assert(model::views(hits@) =~= model::views(rows@).map_values(hit_of_row()));
        assert(is_history(
            model::views(hits@),
            self@,
            project,
            model::views(matches@),
            limit as int,
        ));
        Ok(hits)
    }
}

/// The found entries of rows.
fn hits_of_rows(rows: &Vec<HistoryRow>) -> (r: Vec<HistoryHit>)
    ensures
        r@.len() == rows@.len(),
        forall|k: int| 0 <= k < rows@.len() ==> (#[trigger] r@[k])@ == rows@[k]@.hit,
{
    let mut out: Vec<HistoryHit> = Vec::new();
    let mut i: usize = 0;
    while i < rows.len()
        invariant
            i <= rows@.len(),
            out@.len() == i,
            forall|k: int| 0 <= k < i ==> (#[trigger] out@[k])@ == rows@[k]@.hit,
        decreases rows@.len() - i,
    {
        out.push(rows[i].hit.duplicate());
        i = i + 1;
    }
    out
}

/// Recording an episode again gives the same episode and changes nothing.
pub proof fn law_recording_an_episode_is_idempotent(
    episodes: Seq<EpisodeView>,
    input: NewEpisodeView,
    id: Seq<char>,
    now: int,
    again: Seq<char>,
    later: int,
)
    requires
        ensured(episodes, input, id, now) is Ok,
    ensures
        ensured(with_episode(episodes, input, id, now), input, again, later) == ensured(
            episodes,
            input,
            id,
            now,
        ),
        with_episode(with_episode(episodes, input, id, now), input, again, later) == with_episode(
            episodes,
            input,
            id,
            now,
        ),
{
    let p = with_source(input.source_type, input.source_ref);
    model::lemma_filter_push(episodes, fresh_episode(input, id, now), p);
}

/// Recording an entry again at the same place rewrites it: its identifier stays,
/// and without a new ordinal so does its ordinal.
pub proof fn law_recording_an_entry_again_keeps_its_identity(
    s: StoreView,
    episode_id: Seq<char>,
    input: NewEntryView,
    id: Seq<char>,
    e: EntryView,
)
    requires
        s.wf(),
        s.entries.contains(e),
        e.episode_id == episode_id,
        e.source_ref == input.source_ref,
    ensures
        recorded(s.entries, episode_id, input, id) == Ok::<EntryView, Seq<char>>(
            EntryView {
                ordinal: match input.ordinal {
                    Some(n) => n,
                    None => e.ordinal,
                },
                kind: input.kind,
                role: input.role,
                text: input.text,
                occurred_at: input.occurred_at,
                metadata_json: input.metadata_json,
                ..e
            },
        ),
        with_entry(s.entries, episode_id, input, id).len() == s.entries.len(),
{
    let p = at_place(episode_id, input.source_ref);
    let i = choose|i: int| 0 <= i < s.entries.len() && s.entries[i] == e;
    assert(p(s.entries[i]));
    model::lemma_first_row(s.entries, p);
    let f = model::first_row(s.entries, p)->0;
    let j = choose|j: int| 0 <= j < s.entries.len() && s.entries[j] == f;
    if i < j {
        assert(place_key()(s.entries[i]) != place_key()(s.entries[j]));
    } else if j < i {
        assert(place_key()(s.entries[j]) != place_key()(s.entries[i]));
    }
    let q = entry_with_id(e.id);
    assert(q(s.entries[i]));
    model::lemma_first_row(s.entries, q);
    let g = model::first_row(s.entries, q)->0;
    let k = choose|k: int| 0 <= k < s.entries.len() && s.entries[k] == g;
    if i < k {
        assert(entry_id_key()(s.entries[i]) != entry_id_key()(s.entries[k]));
    } else if k < i {
        assert(entry_id_key()(s.entries[k]) != entry_id_key()(s.entries[i]));
    }
}

/// The next ordinal is behind the ordinals of all entries, and right behind one of
/// them.
pub proof fn law_next_ordinal_is_behind_all(entries: Seq<EntryView>)
    ensures
        forall|i: int|
            0 <= i < entries.len() ==> (#[trigger] entries[i]).ordinal < next_ordinal(entries),
        entries.len() > 0 ==> exists|i: int|
            0 <= i < entries.len() && (#[trigger] entries[i]).ordinal + 1 == next_ordinal(entries),
    decreases entries.len(),
{
    if entries.len() > 0 {
        let front = entries.drop_last();
        law_next_ordinal_is_behind_all(front);
        assert forall|i: int| 0 <= i < entries.len() implies (#[trigger] entries[i]).ordinal
            < next_ordinal(entries) by {
            if i < front.len() {
                assert(front[i] == entries[i]);
            }
        }
        if front.len() == 0 || next_ordinal(front) < entries.last().ordinal + 1 {
            assert(entries[entries.len() - 1].ordinal + 1 == next_ordinal(entries));
        } else {
            let i = choose|i: int|
                0 <= i < front.len() && (#[trigger] front[i]).ordinal + 1 == next_ordinal(front);
            assert(entries[i] == front[i]);
        }
    }
}

/// A found entry belongs to an episode of the project that was searched and keeps
/// the exact references of both.
pub proof fn law_history_keeps_source_references(
    s: StoreView,
    project_id: Option<Seq<char>>,
    matches: Seq<MatchView>,
    hits: Seq<HistoryView>,
    limit: int,
)
    requires
        limit >= 0,
        is_history(hits, s, project_id, matches, limit),
    ensures
        forall|i: int|
            0 <= i < hits.len() ==> (#[trigger] hits[i]).project_id == project_id && exists|
                e: EpisodeView,
                entry: EntryView,
            |
                s.episodes.contains(e) && s.entries.contains(entry) && #[trigger] is_hit_of(
                    hits[i],
                    e,
                    entry,
                ),
{
    let g = history_row(s, project_id);
    let source = model::joined(matches, g);
    let rows = choose|rows: Seq<HistoryRowView>| #[trigger]
        model::ranked(rows, source, by_relevance(), limit) && hits == rows.map_values(
            hit_of_row(),
        );
    model::law_ranked_rows(rows, source, by_relevance(), limit);
    model::lemma_filter_contains(matches, model::gives(g));
    assert forall|i: int| 0 <= i < hits.len() implies (#[trigger] hits[i]).project_id == project_id
        && exists|e: EpisodeView, entry: EntryView|
        s.episodes.contains(e) && s.entries.contains(entry) && #[trigger] is_hit_of(
            hits[i],
            e,
            entry,
        ) by {
        assert(source.contains(rows[i]));
        let k = choose|k: int| 0 <= k < source.len() && source[k] == rows[i];
        let m = matches.filter(model::gives(g))[k];
        assert(model::gives(g)(m));
        model::lemma_first_row(s.entries, entry_with_id(m.id));
        let entry = model::first_row(s.entries, entry_with_id(m.id))->0;
        model::lemma_first_row(s.episodes, with_id(entry.episode_id));
        let e = model::first_row(s.episodes, with_id(entry.episode_id))->0;
        assert(is_hit_of(hits[i], e, entry));
    }
}

/// Holds when a found entry is an entry of an episode, with the references of both.
pub open spec fn is_hit_of(hit: HistoryView, e: EpisodeView, entry: EntryView) -> bool {
    &&& entry.episode_id == e.id
    &&& hit.episode_id == e.id
    &&& hit.source_type == e.source_type
    &&& hit.episode_source_ref == e.source_ref
    &&& hit.entry_id == entry.id
    &&& hit.entry_source_ref == entry.source_ref
    &&& hit.ordinal == entry.ordinal
    &&& hit.text == entry.text
}

} // verus!
