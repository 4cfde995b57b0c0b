//! What recording and searching the history is for.

use crate::episode;
use crate::episode::{
    EntryView, EpisodeView, HistoryRowView, HistoryView, NewEntryView, NewEpisodeView,
};
use crate::laws::text::{
    all_space, begins, law_blank_texts_are_white_space, law_keys_are_ordered_part_by_part,
    law_only_blank_queries_have_no_words, law_prefixes_are_literal,
};
use crate::laws::memory::lemma_two_selected;
use crate::memory;
use crate::model;
use crate::order;
use crate::search::MatchView;
use crate::store::StoreView;
use crate::text;
use vstd::prelude::*;

verus! {

/// Holds when a value is absent or more than white space.
pub open spec fn is_sound(value: Option<Seq<char>>) -> bool {
    value matches Some(v) ==> !all_space(v)
}

proof fn lemma_sound(value: Option<Seq<char>>, name: Seq<char>)
    ensures
        memory::optional_refusal(value, name) is None == is_sound(value),
{
    if let Some(v) = value {
        law_blank_texts_are_white_space(v);
    }
}

/// An episode is accepted exactly when its source is more than white space, its project and
/// workspace too where it has them, it has a project if it has a workspace, and its metadata
/// can be read.
pub proof fn law_sound_episodes_are_accepted(input: NewEpisodeView, unreadable: Option<Seq<char>>)
    ensures
        episode::episode_refusal(input, unreadable) is None <==> {
            &&& !all_space(input.source_type)
            &&& !all_space(input.source_ref)
            &&& !(input.project_id is None && input.workspace_id is Some)
            &&& is_sound(input.project_id)
            &&& is_sound(input.workspace_id)
            &&& unreadable is None
        },
{
    law_blank_texts_are_white_space(input.source_type);
    law_blank_texts_are_white_space(input.source_ref);
    lemma_sound(input.project_id, "project identifier"@);
    lemma_sound(input.workspace_id, "workspace identifier"@);
}

/// An entry is accepted exactly when its source, kind and text are more than white space, its
/// role too where it has one, its place is not negative, and its metadata can be read.
pub proof fn law_sound_entries_are_accepted(input: NewEntryView, unreadable: Option<Seq<char>>)
    ensures
        episode::entry_refusal(input, unreadable) is None <==> {
            &&& !all_space(input.source_ref)
            &&& !all_space(input.kind)
            &&& !all_space(input.text)
            &&& !(input.ordinal matches Some(n) && n < 0)
            &&& is_sound(input.role)
            &&& unreadable is None
        },
{
    law_blank_texts_are_white_space(input.source_ref);
    law_blank_texts_are_white_space(input.kind);
    law_blank_texts_are_white_space(input.text);
    lemma_sound(input.role, "episode entry role"@);
}

/// Absent metadata is accepted, and other metadata exactly where it is JSON.
pub proof fn law_metadata_is_absent_or_json(metadata: Option<Seq<char>>)
    ensures
        metadata is None ==> episode::metadata_refusal(metadata) is None,
        metadata matches Some(t) ==> episode::metadata_refusal(metadata) == episode::json_refusal(
            t,
        ),
{
}

/// A new episode has every field that it was given, begins when it says or else now, is not
/// ended, and stands behind all others.
pub proof fn law_a_new_episode_keeps_every_field(
    episodes: Seq<EpisodeView>,
    input: NewEpisodeView,
    id: Seq<char>,
    now: int,
)
    requires
        forall|i: int|
            0 <= i < episodes.len() ==> (#[trigger] episodes[i]).id != id && !(
            episodes[i].source_type == input.source_type && episodes[i].source_ref
                == input.source_ref),
    ensures
        ({
            let after = episode::with_episode(episodes, input, id, now);
            let e = after[episodes.len() as int];
            &&& after.len() == episodes.len() + 1
            &&& forall|i: int| 0 <= i < episodes.len() ==> #[trigger] after[i] == episodes[i]
            &&& e.id == id
            &&& e.project_id == input.project_id
            &&& e.workspace_id == input.workspace_id
            &&& e.source_type == input.source_type
            &&& e.source_ref == input.source_ref
            &&& e.started_at == Some(
                match input.started_at {
                    Some(t) => t,
                    None => now,
                },
            )
            &&& e.ended_at is None
            &&& e.summary is None
            &&& e.metadata_json == input.metadata_json
            &&& episode::ensured(episodes, input, id, now) == Ok::<EpisodeView, Seq<char>>(e)
        }),
{
    let p = episode::with_source(input.source_type, input.source_ref);
    assert(!model::any_row(episodes, p));
    model::lemma_first_row(episodes, p);
    assert(!model::any_row(episodes, episode::with_id(id)));
}

/// A source that is recorded already keeps its episode: it is given back as it is if its
/// project and workspace are the same, and refused otherwise; nothing changes.
pub proof fn law_a_recorded_source_keeps_its_episode(
    episodes: Seq<EpisodeView>,
    p: int,
    input: NewEpisodeView,
    id: Seq<char>,
    now: int,
)
    requires
        0 <= p < episodes.len(),
        episodes[p].source_type == input.source_type,
        episodes[p].source_ref == input.source_ref,
        forall|i: int|
            0 <= i < p ==> !((#[trigger] episodes[i]).source_type == input.source_type
                && episodes[i].source_ref == input.source_ref),
    ensures
        episode::with_episode(episodes, input, id, now) == episodes,
        episodes[p].project_id == input.project_id && episodes[p].workspace_id
            == input.workspace_id ==> episode::ensured(episodes, input, id, now) == Ok::<
            EpisodeView,
            Seq<char>,
        >(episodes[p]),
        episodes[p].project_id != input.project_id || episodes[p].workspace_id
            != input.workspace_id ==> episode::ensured(episodes, input, id, now) is Err,
{
    let q = episode::with_source(input.source_type, input.source_ref);
    model::lemma_first_row_at(episodes, q, p);
}

/// What an identifier or a prefix stands for: the episode whose identifier it is; else the
/// one whose identifier begins with it, ASCII case aside; and nothing where none does or
/// several do.
pub proof fn law_episodes_resolve_exactly_or_by_one_prefix(
    episodes: Seq<EpisodeView>,
    target: Seq<char>,
    k: int,
    l: int,
)
    ensures
        ({
            let c = text::trimmed(target);
            let exact = exists|i: int| 0 <= i < episodes.len() && (#[trigger] episodes[i]).id == c;
            let r = episode::resolved(episodes, target);
            &&& all_space(target) ==> r == Err::<Seq<char>, Seq<char>>(
                "episode ID cannot be empty"@,
            )
            &&& !all_space(target) && exact ==> r == Ok::<Seq<char>, Seq<char>>(c)
            &&& !all_space(target) && !exact && 0 <= k < episodes.len() && begins(
                c,
                episodes[k].id,
            ) && (forall|i: int|
                0 <= i < episodes.len() && i != k ==> !begins(c, (#[trigger] episodes[i]).id))
                ==> r == Ok::<Seq<char>, Seq<char>>(episodes[k].id)
            &&& !all_space(target) && !exact && 0 <= k < l < episodes.len() && begins(
                c,
                episodes[k].id,
            ) && begins(c, episodes[l].id) ==> r == Err::<Seq<char>, Seq<char>>(
                "ambiguous episode ID prefix: "@ + c,
            )
            &&& !all_space(target) && (forall|i: int|
                0 <= i < episodes.len() ==> !begins(c, (#[trigger] episodes[i]).id)) ==> r == Err::<
                Seq<char>,
                Seq<char>,
            >("episode not found: "@ + c)
        }),
{
    let c = text::trimmed(target);
    let p = episode::id_begins(c);
    let q = episode::with_id(c);
    law_blank_texts_are_white_space(target);
    let exact = exists|i: int| 0 <= i < episodes.len() && (#[trigger] episodes[i]).id == c;
    assert(exact == model::any_row(episodes, q)) by {
        if exact {
            let i = choose|i: int| 0 <= i < episodes.len() && (#[trigger] episodes[i]).id == c;
            assert(q(episodes[i]));
        }
    }
    assert forall|i: int| 0 <= i < episodes.len() implies p(#[trigger] episodes[i]) == begins(
        c,
        episodes[i].id,
    ) by {
        law_prefixes_are_literal(c, episodes[i].id);
    }
    model::lemma_first_row(episodes, p);
    if 0 <= k < episodes.len() && begins(c, episodes[k].id) && (forall|i: int|
        0 <= i < episodes.len() && i != k ==> !begins(c, (#[trigger] episodes[i]).id)) {
        let none = |m: EpisodeView| false;
        model::lemma_filter_without(episodes, p, none, k);
        model::lemma_first_row(episodes, none);
        model::lemma_filter_contains(episodes, p);
        assert(episodes.filter(p).contains(episodes[k]));
    }
    if 0 <= k < l < episodes.len() && begins(c, episodes[k].id) && begins(c, episodes[l].id) {
        lemma_two_selected(episodes, p, k, l);
    }
    if exact {
        let i = choose|i: int| 0 <= i < episodes.len() && (#[trigger] episodes[i]).id == c;
        assert(begins(c, episodes[i].id));
    }
    if forall|i: int| 0 <= i < episodes.len() ==> !begins(c, (#[trigger] episodes[i]).id) {
        assert(!model::any_row(episodes, p));
    }
}

/// Holds when an entry has the given fields.
pub open spec fn is_entry(
    e: EntryView,
    id: Seq<char>,
    episode_id: Seq<char>,
    ordinal: int,
    input: NewEntryView,
) -> bool {
    &&& e.id == id
    &&& e.episode_id == episode_id
    &&& e.source_ref == input.source_ref
    &&& e.ordinal == ordinal
    &&& e.kind == input.kind
    &&& e.role == input.role
    &&& e.text == input.text
    &&& e.occurred_at == input.occurred_at
    &&& e.metadata_json == input.metadata_json
}

/// Holds when `n` is the place behind all entries of an episode: one more than the last, or
/// zero without any.
pub open spec fn is_next(entries: Seq<EntryView>, episode_id: Seq<char>, n: int) -> bool {
    &&& forall|i: int|
        0 <= i < entries.len() && (#[trigger] entries[i]).episode_id == episode_id
            ==> entries[i].ordinal < n
    &&& {
        ||| n == 0 && forall|i: int|
            0 <= i < entries.len() ==> (#[trigger] entries[i]).episode_id != episode_id
        ||| exists|i: int|
            0 <= i < entries.len() && (#[trigger] entries[i]).episode_id == episode_id
                && entries[i].ordinal + 1 == n
    }
}

proof fn lemma_next(entries: Seq<EntryView>, episode_id: Seq<char>)
    ensures
        is_next(
            entries,
            episode_id,
            episode::next_ordinal(entries.filter(episode::entry_of(episode_id))),
        ),
{
    let p = episode::entry_of(episode_id);
    let own = entries.filter(p);
    let n = episode::next_ordinal(own);
    model::lemma_filter_contains(entries, p);
    episode::law_next_ordinal_is_behind_all(own);
    assert forall|i: int|
        0 <= i < entries.len() && (#[trigger] entries[i]).episode_id == episode_id implies
        entries[i].ordinal < n by {
        assert(p(entries[i]));
        assert(own.contains(entries[i]));
        let k = choose|k: int| 0 <= k < own.len() && own[k] == entries[i];
        assert(own[k].ordinal < n);
    }
    if own.len() > 0 {
        let k = choose|k: int| 0 <= k < own.len() && (#[trigger] own[k]).ordinal + 1 == n;
        assert(p(own[k]));
        let i = choose|i: int| 0 <= i < entries.len() && entries[i] == own[k];
        assert(entries[i].ordinal + 1 == n);
    } else {
        assert forall|i: int| 0 <= i < entries.len() implies (#[trigger] entries[i]).episode_id
            != episode_id by {
            if p(entries[i]) {
                assert(own.contains(entries[i]));
            }
        }
    }
}

/// A new entry has every field that it was given, whole and as given, stands at the place it
/// says or else behind all entries of its episode, and comes behind all other entries, which
/// stay.
pub proof fn law_a_new_entry_keeps_every_field(
    entries: Seq<EntryView>,
    episode_id: Seq<char>,
    input: NewEntryView,
    id: Seq<char>,
)
    requires
        forall|i: int|
            0 <= i < entries.len() ==> (#[trigger] entries[i]).id != id && !(entries[i].episode_id
                == episode_id && entries[i].source_ref == input.source_ref),
        input.ordinal matches Some(n) ==> n <= i64::MAX,
        input.ordinal is None ==> forall|i: int|
            0 <= i < entries.len() ==> (#[trigger] entries[i]).ordinal < i64::MAX,
    ensures
        ({
            let after = episode::with_entry(entries, episode_id, input, id);
            let e = after[entries.len() as int];
            &&& after.len() == entries.len() + 1
            &&& forall|i: int| 0 <= i < entries.len() ==> #[trigger] after[i] == entries[i]
            &&& is_entry(e, id, episode_id, e.ordinal, input)
            &&& match input.ordinal {
                Some(n) => e.ordinal == n,
                None => is_next(entries, episode_id, e.ordinal),
            }
            &&& episode::recorded(entries, episode_id, input, id) == Ok::<EntryView, Seq<char>>(e)
        }),
{
    let q = episode::at_place(episode_id, input.source_ref);
    assert(!model::any_row(entries, q));
    model::lemma_first_row(entries, q);
    assert(!model::any_row(entries, episode::entry_with_id(id)));
    lemma_next(entries, episode_id);
}

/// An entry whose source is recorded already is written anew: it keeps its identifier, its
/// episode and its source, and its place unless another is given; everything else is as
/// given. The other entries stay.
pub proof fn law_an_entry_is_written_anew(
    entries: Seq<EntryView>,
    p: int,
    input: NewEntryView,
    id: Seq<char>,
)
    requires
        0 <= p < entries.len(),
        entries[p].source_ref == input.source_ref,
        forall|i: int|
            0 <= i < entries.len() && i != p ==> (#[trigger] entries[i]).id != entries[p].id && !(
            entries[i].episode_id == entries[p].episode_id && entries[i].source_ref
                == input.source_ref),
    ensures
        ({
            let after = episode::with_entry(entries, entries[p].episode_id, input, id);
            &&& after.len() == entries.len()
            &&& forall|i: int|
                0 <= i < entries.len() && i != p ==> #[trigger] after[i] == entries[i]
            &&& is_entry(
                after[p],
                entries[p].id,
                entries[p].episode_id,
                match input.ordinal {
                    Some(n) => n,
                    None => entries[p].ordinal,
                },
                input,
            )
            &&& episode::recorded(entries, entries[p].episode_id, input, id) == Ok::<
                EntryView,
                Seq<char>,
            >(after[p])
        }),
{
    let q = episode::at_place(entries[p].episode_id, input.source_ref);
    model::lemma_first_row_at(entries, q, p);
    model::lemma_first_row_at(entries, episode::entry_with_id(entries[p].id), p);
}

/// Ending an episode sets when it ended, to the given time or else to now, and nothing else;
/// the other episodes stay.
pub proof fn law_ending_sets_only_the_end(
    episodes: Seq<EpisodeView>,
    p: int,
    ended_at: Option<int>,
    now: int,
)
    requires
        0 <= p < episodes.len(),
        forall|i: int|
            0 <= i < episodes.len() && i != p ==> (#[trigger] episodes[i]).id != episodes[p].id,
    ensures
        ({
            let g = episode::end_at(episodes[p].id, episode::end_time(ended_at, now));
            let after = episodes.map_values(g);
            let e = after[p];
            &&& forall|i: int|
                0 <= i < episodes.len() && i != p ==> #[trigger] after[i] == episodes[i]
            &&& e.ended_at == Some(
                match ended_at {
                    Some(t) => t,
                    None => now,
                },
            )
            &&& e.id == episodes[p].id && e.project_id == episodes[p].project_id && e.workspace_id
                == episodes[p].workspace_id && e.source_type == episodes[p].source_type
                && e.source_ref == episodes[p].source_ref && e.started_at
                == episodes[p].started_at && e.summary == episodes[p].summary && e.metadata_json
                == episodes[p].metadata_json
        }),
{
}

/// An episode is read with all of its entries and no others, each as it is stored: by their
/// place, and those of one place by identifier.
pub proof fn law_an_episode_is_read_with_its_entries(
    entries: Seq<EntryView>,
    id: Seq<char>,
    read: Seq<EntryView>,
)
    requires
        model::ranked(
            read,
            entries.filter(episode::entry_of(id)),
            episode::by_ordinal(),
            entries.filter(episode::entry_of(id)).len() as int,
        ),
    ensures
        forall|e: EntryView| #[trigger]
            read.contains(e) <==> entries.contains(e) && e.episode_id == id,
        forall|i: int, j: int|
            0 <= i < j < read.len() ==> {
                ||| (#[trigger] read[i]).ordinal < (#[trigger] read[j]).ordinal
                ||| read[i].ordinal == read[j].ordinal && order::text_le(read[i].id, read[j].id)
            },
{
    let p = episode::entry_of(id);
    let own = entries.filter(p);
    let key = episode::by_ordinal();
    model::law_ranked_rows(read, own, key, own.len() as int);
    model::lemma_filter_contains(entries, p);
    assert forall|e: EntryView| #[trigger] read.contains(e) implies entries.contains(e)
        && e.episode_id == id by {
        let i = choose|i: int| 0 <= i < read.len() && read[i] == e;
        assert(own.contains(read[i]));
        let k = choose|k: int| 0 <= k < own.len() && own[k] == e;
        assert(p(own[k]));
    }
    assert forall|e: EntryView| entries.contains(e) && e.episode_id
        == id implies #[trigger] read.contains(e) by {
        let i = choose|i: int| 0 <= i < entries.len() && entries[i] == e;
        assert(p(entries[i]));
        assert(own.contains(e));
        let k = choose|k: int| 0 <= k < own.len() && own[k] == e;
        model::lemma_ranked_all(read, own, key, own.len() as int, k);
    }
    assert forall|i: int, j: int| 0 <= i < j < read.len() implies {
        ||| (#[trigger] read[i]).ordinal < (#[trigger] read[j]).ordinal
        ||| read[i].ordinal == read[j].ordinal && order::text_le(read[i].id, read[j].id)
    } by {
        law_keys_are_ordered_part_by_part(key(read[i]), key(read[j]));
        law_keys_are_ordered_part_by_part(key(read[j]), key(read[i]));
    }
}

/// Holds when a hit shows an entry of an episode, whole and as they are stored, under the
/// rank of a match.
pub open spec fn shows(hit: HistoryView, e: EpisodeView, entry: EntryView, m: MatchView) -> bool {
    &&& entry.id == m.id
    &&& entry.episode_id == e.id
    &&& hit.episode_id == e.id
    &&& hit.project_id == e.project_id
    &&& hit.workspace_id == e.workspace_id
    &&& hit.source_type == e.source_type
    &&& hit.episode_source_ref == e.source_ref
    &&& hit.entry_id == entry.id
    &&& hit.entry_source_ref == entry.source_ref
    &&& hit.ordinal == entry.ordinal
    &&& hit.kind == entry.kind
    &&& hit.role == entry.role
    &&& hit.text == entry.text
    &&& hit.occurred_at == entry.occurred_at
    &&& hit.rank == m.rank
}

/// Holds when one row of the history may stand in front of another: by rank, then the
/// episode that began last, those without a beginning at the end, then by place.
pub open spec fn no_later(a: HistoryRowView, b: HistoryRowView) -> bool {
    ||| a.hit.rank < b.hit.rank
    ||| a.hit.rank == b.hit.rank && (match (a.started_at, b.started_at) {
        (Some(x), Some(y)) => x > y || (x == y && a.hit.ordinal <= b.hit.ordinal),
        (Some(_), None) => true,
        (None, Some(_)) => false,
        (None, None) => a.hit.ordinal <= b.hit.ordinal,
    })
}

/// Holds of rows whose times the database can hold.
pub open spec fn is_dated(row: HistoryRowView) -> bool {
    row.started_at matches Some(t) ==> i64::MIN <= t <= i64::MAX
}

proof fn lemma_by_relevance(a: HistoryRowView, b: HistoryRowView)
    requires
        is_dated(a),
        is_dated(b),
    ensures
        order::key_le(episode::by_relevance()(a), episode::by_relevance()(b)) == no_later(a, b),
{
    let key = episode::by_relevance();
    law_keys_are_ordered_part_by_part(key(a), key(b));
    law_keys_are_ordered_part_by_part(key(b), key(a));
}

/// What is found in the history is, for a match, an entry of an episode of the project, both
/// as they are stored, under the rank of the match; and no more than the limit allows.
pub proof fn law_history_shows_whole_entries(
    s: StoreView,
    project_id: Option<Seq<char>>,
    matches: Seq<MatchView>,
    hits: Seq<HistoryView>,
    limit: int,
    i: int,
) -> (r: (EpisodeView, EntryView, MatchView))
    requires
        limit >= 0,
        episode::is_history(hits, s, project_id, matches, limit),
        0 <= i < hits.len(),
    ensures
        hits.len() <= limit,
        s.episodes.contains(r.0),
        s.entries.contains(r.1),
        matches.contains(r.2),
        r.0.project_id == project_id,
        shows(hits[i], r.0, r.1, r.2),
{
    let g = episode::history_row(s, project_id);
    let key = episode::by_relevance();
    let source = model::joined(matches, g);
    let rows = choose|rows: Seq<HistoryRowView>| #[trigger]
        model::ranked(rows, source, key, limit) && hits == rows.map_values(
            episode::hit_of_row(),
        );
    let kept = matches.filter(model::gives(g));
    model::law_ranked_rows(rows, source, key, limit);
    model::lemma_filter_contains(matches, model::gives(g));
    assert(source.contains(rows[i]));
    let k = choose|k: int| 0 <= k < source.len() && source[k] == rows[i];
    let m = kept[k];
    assert(model::gives(g)(m));
    model::lemma_first_row(s.entries, episode::entry_with_id(m.id));
    let entry = model::first_row(s.entries, episode::entry_with_id(m.id))->0;
    model::lemma_first_row(s.episodes, episode::with_id(entry.episode_id));
    let e = model::first_row(s.episodes, episode::with_id(entry.episode_id))->0;
    assert(hits[i] == rows[i].hit);
    (e, entry, m)
}

/// Every match of an entry of the project is found: it is among the hits, whole and under
/// the rank of the match, or there are as many hits as the limit allows.
pub proof fn law_every_match_of_the_history_is_found(
    s: StoreView,
    project_id: Option<Seq<char>>,
    matches: Seq<MatchView>,
    hits: Seq<HistoryView>,
    limit: int,
    k: int,
    i: int,
    j: int,
)
    requires
        limit >= 0,
        episode::is_history(hits, s, project_id, matches, limit),
        0 <= k < matches.len(),
        0 <= i < s.entries.len(),
        0 <= j < s.episodes.len(),
        s.entries[i].id == matches[k].id,
        forall|l: int| 0 <= l < i ==> (#[trigger] s.entries[l]).id != s.entries[i].id,
        s.episodes[j].id == s.entries[i].episode_id,
        forall|l: int| 0 <= l < j ==> (#[trigger] s.episodes[l]).id != s.episodes[j].id,
        s.episodes[j].project_id == project_id,
    ensures
        hits.len() == limit || exists|h: HistoryView| #[trigger]
            hits.contains(h) && shows(h, s.episodes[j], s.entries[i], matches[k]),
{
    let g = episode::history_row(s, project_id);
    let key = episode::by_relevance();
    let source = model::joined(matches, g);
    let rows = choose|rows: Seq<HistoryRowView>| #[trigger]
        model::ranked(rows, source, key, limit) && hits == rows.map_values(
            episode::hit_of_row(),
        );
    let kept = matches.filter(model::gives(g));
    model::lemma_first_row_at(s.entries, episode::entry_with_id(matches[k].id), i);
    model::lemma_first_row_at(s.episodes, episode::with_id(s.entries[i].episode_id), j);
    assert(model::gives(g)(matches[k]));
    model::lemma_filter_contains(matches, model::gives(g));
    assert(kept.contains(matches[k]));
    let at = choose|at: int| 0 <= at < kept.len() && kept[at] == matches[k];
    model::law_ranked_rows(rows, source, key, limit);
    if limit >= source.len() {
        model::lemma_ranked_all(rows, source, key, limit, at);
        assert(rows.contains(source[at]));
        let l = choose|l: int| 0 <= l < rows.len() && rows[l] == source[at];
        assert(hits[l] == rows[l].hit);
        assert(hits.contains(hits[l]));
        assert(shows(hits[l], s.episodes[j], s.entries[i], matches[k]));
    }
}

/// The history is in order of rank, then of the episode that began last, then of place.
pub proof fn law_history_is_in_order(
    source: Seq<HistoryRowView>,
    rows: Seq<HistoryRowView>,
    limit: int,
)
    requires
        limit >= 0,
        model::ranked(rows, source, episode::by_relevance(), limit),
        forall|i: int| 0 <= i < source.len() ==> is_dated(#[trigger] source[i]),
    ensures
        forall|i: int, j: int|
            0 <= i < j < rows.len() ==> no_later(#[trigger] rows[i], #[trigger] rows[j]),
        forall|k: int, i: int|
            0 <= k < source.len() && 0 <= i < rows.len() ==> rows.contains(#[trigger] source[k])
                || no_later(#[trigger] rows[i], source[k]),
{
    let key = episode::by_relevance();
    model::law_ranked_rows(rows, source, key, limit);
    assert forall|i: int| 0 <= i < rows.len() implies is_dated(#[trigger] rows[i]) by {
        assert(source.contains(rows[i]));
    }
    assert forall|i: int, j: int| 0 <= i < j < rows.len() implies no_later(
        #[trigger] rows[i],
        #[trigger] rows[j],
    ) by {
        assert(is_dated(rows[i]) && is_dated(rows[j]));
        lemma_by_relevance(rows[i], rows[j]);
    }
    assert forall|k: int, i: int|
        0 <= k < source.len() && 0 <= i < rows.len() implies rows.contains(#[trigger] source[k])
        || no_later(#[trigger] rows[i], source[k]) by {
        assert(is_dated(rows[i]) && is_dated(source[k]));
        lemma_by_relevance(rows[i], source[k]);
    }
}

/// Hits of the history are in the order of their rank, then of when their episodes began, the
/// latest first and those without a beginning last, then of their place.
pub proof fn law_hits_of_the_history_are_in_order(
    s: StoreView,
    project_id: Option<Seq<char>>,
    matches: Seq<MatchView>,
    hits: Seq<HistoryView>,
    limit: int,
    i: int,
    j: int,
    a: int,
    b: int,
)
    requires
        limit >= 0,
        episode::is_history(hits, s, project_id, matches, limit),
        0 <= i < j < hits.len(),
        0 <= a < s.episodes.len(),
        0 <= b < s.episodes.len(),
        s.episodes[a].id == hits[i].episode_id,
        s.episodes[b].id == hits[j].episode_id,
        forall|k: int, l: int|
            0 <= k < l < s.episodes.len() ==> (#[trigger] s.episodes[k]).id != (
            #[trigger] s.episodes[l]).id,
        forall|k: int|
            0 <= k < s.episodes.len() ==> ((#[trigger] s.episodes[k]).started_at matches Some(t)
                ==> i64::MIN <= t <= i64::MAX),
    ensures
        no_later(
            HistoryRowView { hit: hits[i], started_at: s.episodes[a].started_at },
            HistoryRowView { hit: hits[j], started_at: s.episodes[b].started_at },
        ),
{
    let g = episode::history_row(s, project_id);
    let key = episode::by_relevance();
    let source = model::joined(matches, g);
    let rows = choose|rows: Seq<HistoryRowView>| #[trigger]
        model::ranked(rows, source, key, limit) && hits == rows.map_values(
            episode::hit_of_row(),
        );
    let kept = matches.filter(model::gives(g));
    model::lemma_filter_contains(matches, model::gives(g));
    assert forall|k: int| 0 <= k < source.len() implies is_dated(#[trigger] source[k])
        && is_begun_with_its_episode(s, source[k]) by {
        let m = kept[k];
        assert(model::gives(g)(m));
        model::lemma_first_row(s.entries, episode::entry_with_id(m.id));
        let entry = model::first_row(s.entries, episode::entry_with_id(m.id))->0;
        model::lemma_first_row(s.episodes, episode::with_id(entry.episode_id));
        let e = model::first_row(s.episodes, episode::with_id(entry.episode_id))->0;
        let l = choose|l: int| 0 <= l < s.episodes.len() && s.episodes[l] == e;
        assert(s.episodes[l].id == source[k].hit.episode_id);
        assert(s.episodes[l].started_at == source[k].started_at);
    }
    model::law_ranked_rows(rows, source, key, limit);
    law_history_is_in_order(source, rows, limit);
    assert(source.contains(rows[i]) && source.contains(rows[j]));
    assert(hits[i] == rows[i].hit && hits[j] == rows[j].hit);
    assert(rows[i].started_at == s.episodes[a].started_at) by {
        let k = choose|k: int| 0 <= k < source.len() && source[k] == rows[i];
        let l = choose|l: int|
            0 <= l < s.episodes.len() && (#[trigger] s.episodes[l]).id == source[k].hit.episode_id
                && s.episodes[l].started_at == source[k].started_at;
        assert(l == a);
    }
    assert(rows[j].started_at == s.episodes[b].started_at) by {
        let k = choose|k: int| 0 <= k < source.len() && source[k] == rows[j];
        let l = choose|l: int|
            0 <= l < s.episodes.len() && (#[trigger] s.episodes[l]).id == source[k].hit.episode_id
                && s.episodes[l].started_at == source[k].started_at;
        assert(l == b);
    }
    assert(no_later(rows[i], rows[j]));
}

/// Holds when a row of the history has the beginning of its episode.
pub open spec fn is_begun_with_its_episode(s: StoreView, row: HistoryRowView) -> bool {
    exists|l: int|
        0 <= l < s.episodes.len() && (#[trigger] s.episodes[l]).id == row.hit.episode_id
            && s.episodes[l].started_at == row.started_at
}

/// A search of the history is refused only without words, or for a limit that the database
/// cannot hold.
pub proof fn law_history_needs_words(query: Seq<char>, limit: int)
    ensures
        episode::history_refusal(query, limit) is None <==> !all_space(query) && limit
            <= i64::MAX,
        all_space(query) ==> episode::history_refusal(query, limit) == Some(
            "history query cannot be empty"@,
        ),
{
    law_only_blank_queries_have_no_words(query);
}

} // verus!
