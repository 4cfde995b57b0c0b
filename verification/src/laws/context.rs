//! What gathering the context of a task is for.

use crate::args::{CommandView, ContextView};
use crate::cli;
use crate::cli::{ContextOutput, DatabaseChoice};
use crate::embedding::EmbeddingView;
use crate::embedding_worker::EMBEDDING_MODEL_ID;
use crate::error::Error;
use crate::laws::commands::bounded;
use crate::laws::memory::one_each;
use crate::laws::search::{law_every_active_match_is_found, law_hits_come_from_matches, no_later};
use crate::laws::text::{all_space, law_blank_texts_are_white_space};
use crate::laws::vectors::{
    is_comparable, is_vector_of, lacks_a_vector, law_comparable_vectors_are_accepted,
    law_scores_are_of_whole_vectors, law_what_waits_lacks_a_vector,
};
use crate::laws::workspace::law_states_are_read_as_stored;
use crate::model;
use crate::recall;
use crate::run;
use crate::run::{Output, Place, Supplies};
use crate::search::{HitView, MatchView, SearchHit};
use crate::state::StateView;
use crate::store::StoreView;
use crate::vector;
use crate::vector_search;
use crate::vector_search::SemanticView;
use vstd::prelude::*;

verus! {

/// The bytes of the texts of the first hits.
pub open spec fn bytes_of(hits: Seq<HitView>, n: int) -> int
    decreases n,
{
    if n <= 0 {
        0
    } else {
        bytes_of(hits, n - 1) + vstd::utf8::encode_utf8(hits[n - 1].memory.text).len()
    }
}

proof fn lemma_bytes(hits: Seq<HitView>, n: int)
    requires
        0 <= n <= hits.len(),
    ensures
        cli::total_bytes(hits.take(n)) == bytes_of(hits, n),
    decreases n,
{
    if n > 0 {
        assert(hits.take(n).drop_last() =~= hits.take(n - 1));
        lemma_bytes(hits, n - 1);
    }
}

/// A context holds the first of the hits, whole and in their order, as many as fit into its
/// budget and not one less: the budget is what is given, or else thirty-two kibibytes, and
/// zero stands for no budget.
pub proof fn law_a_context_holds_what_fits(
    o: ContextOutput,
    root: Option<Seq<char>>,
    workspace: Seq<char>,
    state: Option<StateView>,
    hits: Seq<HitView>,
    max_bytes: Option<int>,
)
    requires
        cli::is_context(o, root, workspace, state, hits, max_bytes),
        max_bytes is Some ==> max_bytes->0 >= 0,
    ensures
        ({
            let budget = if max_bytes is Some {
                max_bytes->0
            } else {
                32_768int
            };
            let n = o.memories@.len() as int;
            &&& n <= hits.len()
            &&& forall|i: int| 0 <= i < n ==> (#[trigger] o.memories@[i])@ == hits[i].memory
            &&& budget == 0 ==> n == hits.len()
            &&& budget > 0 ==> bytes_of(hits, n) <= budget
            &&& budget > 0 && n < hits.len() ==> bytes_of(hits, n + 1) > budget
        }),
        o.workspace@ == workspace,
        root is Some <==> o.root is Some,
        root is Some ==> o.root->0@ == root->0,
        state is Some <==> o.state is Some,
        state is Some ==> o.state->0@ == state->0,
{
    let n = o.memories@.len() as int;
    lemma_bytes(hits, n);
    if n < hits.len() {
        lemma_bytes(hits, n + 1);
    }
    assert forall|i: int| 0 <= i < n implies (#[trigger] o.memories@[i])@ == hits[i].memory by {
        assert(model::views(o.memories@)[i] == o.memories@[i]@);
        assert(cli::memories_of(hits).take(n)[i] == hits[i].memory);
    }
}

/// Where a memory lacks a vector, the hits of a recall are those of a search by words: every
/// active memory that the index matches, or as many as the limit allows.
pub proof fn law_recall_finds_every_active_match<F: Fn(&Vec<u32>) -> i64>(
    s: StoreView,
    limit: int,
    vector: Option<Result<int, Seq<char>>>,
    score: F,
    matches: Seq<MatchView>,
    hits: Seq<HitView>,
    l: int,
    k: int,
    i: int,
)
    requires
        one_each(s.memories),
        limit >= 0,
        recall::recalls(s, limit, vector, score, matches, hits),
        vector is None || (0 <= l < s.memories.len() && lacks_a_vector(
            s,
            s.memories[l],
            EMBEDDING_MODEL_ID@,
        )),
    ensures
        hits.len() <= limit,
        forall|j: int|
            0 <= j < hits.len() ==> {
                &&& s.memories.contains((#[trigger] hits[j]).memory)
                &&& hits[j].memory.status == "active"@
                &&& matches.contains(MatchView { id: hits[j].memory.id, rank: hits[j].rank })
            },
        0 <= k < matches.len() && 0 <= i < s.memories.len() && s.memories[i].id == matches[k].id
            && s.memories[i].status == "active"@ ==> {
            let h = HitView { memory: s.memories[i], rank: matches[k].rank };
            ||| hits.contains(h)
            ||| hits.len() == limit && forall|j: int|
                0 <= j < hits.len() ==> no_later(#[trigger] hits[j], h)
        },
{
    law_what_waits_lacks_a_vector(s, EMBEDDING_MODEL_ID@);
    assert(!recall::answers(s, limit, vector));
    law_hits_come_from_matches(s, matches, limit, hits);
    if 0 <= k < matches.len() && 0 <= i < s.memories.len() && s.memories[i].id == matches[k].id
        && s.memories[i].status == "active"@ {
        law_every_active_match_is_found(s, matches, limit, hits, k, i);
    }
}

/// Where every memory has its vector and the query has one, a recall gives exactly those of
/// the best hits by score that score at least fifty-five hundredths, whole and in their
/// order. Places of scores are in the order of the scores.
pub proof fn law_recall_keeps_high_scores(found: Seq<SemanticView>, hit: HitView, i: int)
    ensures
        model::joined(found, recall::recalled()).contains(hit) <==> exists|j: int|
            0 <= j < found.len() && (#[trigger] found[j]).memory == hit.memory && found[j].score
                == hit.rank && hit.rank >= 0x3fe1_9999_9999_999a,
        (forall|j: int|
            0 <= j < found.len() ==> (#[trigger] found[j]).score >= 0x3fe1_9999_9999_999a)
            && 0 <= i < found.len() ==> model::joined(found, recall::recalled()).len()
            == found.len() && model::joined(found, recall::recalled())[i] == (HitView {
            memory: found[i].memory,
            rank: found[i].score,
        }),
{
    let g = recall::recalled();
    let kept = found.filter(model::gives(g));
    let hits = model::joined(found, g);
    model::lemma_filter_contains(found, model::gives(g));
    if hits.contains(hit) {
        let k = choose|k: int| 0 <= k < hits.len() && hits[k] == hit;
        assert(model::gives(g)(kept[k]));
        assert(found.contains(kept[k]));
        let j = choose|j: int| 0 <= j < found.len() && found[j] == kept[k];
        assert(found[j].memory == hit.memory);
    }
    if exists|j: int|
        0 <= j < found.len() && (#[trigger] found[j]).memory == hit.memory && found[j].score
            == hit.rank && hit.rank >= 0x3fe1_9999_9999_999a {
        let j = choose|j: int|
            0 <= j < found.len() && (#[trigger] found[j]).memory == hit.memory && found[j].score
                == hit.rank && hit.rank >= 0x3fe1_9999_9999_999a;
        assert(model::gives(g)(found[j]));
        assert(kept.contains(found[j]));
        let k = choose|k: int| 0 <= k < kept.len() && kept[k] == found[j];
        assert(hits[k] == hit);
    }
    if forall|j: int|
        0 <= j < found.len() ==> (#[trigger] found[j]).score >= 0x3fe1_9999_9999_999a {
        model::lemma_filter_all(found, model::gives(g));
    }
}

/// A recall goes by the vectors exactly where no active memory lacks one, the query has one
/// of the right size, and the limit can be met; and it is never refused then.
pub proof fn law_recall_goes_by_complete_vectors(
    s: StoreView,
    query: Seq<char>,
    limit: int,
    vector: Option<Result<int, Seq<char>>>,
)
    requires
        vector is None || vector->0 is Err || exists|i: int|
            0 <= i < s.memories.len() && lacks_a_vector(
                s,
                #[trigger] s.memories[i],
                EMBEDDING_MODEL_ID@,
            ),
        limit > 0,
        limit <= i64::MAX,
    ensures
        !recall::answers(s, limit, vector),
        recall::recall_refusal(s, query, limit, vector) is None <==> !all_space(query),
        all_space(query) ==> recall::recall_refusal(s, query, limit, vector) == Some(
            "query cannot be empty"@,
        ),
{
    law_what_waits_lacks_a_vector(s, EMBEDDING_MODEL_ID@);
    crate::laws::search::law_searches_need_words_and_a_limit(query, limit);
}

/// A context shows the workspace, its stored state, and the first of what a recall finds, ten
/// memories unless it says otherwise and never more than a hundred.
pub proof fn law_context_shows_the_state_and_what_is_recalled<F: Fn(&Vec<u32>) -> i64>(
    s: StoreView,
    after: Option<StoreView>,
    place: Place,
    c: ContextView,
    supplies: Supplies,
    score: F,
    r: Result<Output, Error>,
) -> (hits: Seq<HitView>)
    requires
        run::is_run(Some(s), after, place, CommandView::Context(c), supplies, score, r),
        !all_space(place.project.workspace_id@),
    ensures
        after == Some(s),
        supplies.asked && !all_space(c.query) ==> r is Ok && r->Ok_0 is Context,
        !supplies.asked && r is Ok && r->Ok_0 is Context ==> exists|i: int|
            0 <= i < s.memories.len() && lacks_a_vector(
                s,
                #[trigger] s.memories[i],
                EMBEDDING_MODEL_ID@,
            ),
        !supplies.asked && (forall|i: int|
            0 <= i < s.memories.len() ==> !lacks_a_vector(
                s,
                #[trigger] s.memories[i],
                EMBEDDING_MODEL_ID@,
            )) ==> r is Ok && r->Ok_0 is WantsVector,
        r matches Ok(Output::WantsVector { query, cached_only }) ==> query@ == c.query
            && cached_only,
        r matches Ok(Output::Context(o)) ==> {
            let w = place.project.workspace_id@;
            &&& o.workspace@ == w
            &&& match o.state {
                Some(x) => s.states.contains(x@) && x@.workspace == w,
                None => forall|i: int|
                    0 <= i < s.states.len() ==> (#[trigger] s.states[i]).workspace != w,
            }
            &&& recall::recalls(
                s,
                bounded(c.limit, 10, 100),
                recall::vector_outcome(supplies.vector),
                score,
                model::views(supplies.matches@),
                hits,
            )
            &&& o.memories@.len() <= hits.len()
            &&& forall|i: int|
                0 <= i < o.memories@.len() ==> (#[trigger] o.memories@[i])@ == hits[i].memory
            &&& c.max_bytes == Some(0int) ==> o.memories@.len() == hits.len()
        },
{
    let w = place.project.workspace_id@;
    let limit = bounded(c.limit, 10, 100);
    law_blank_texts_are_white_space(w);
    law_states_are_read_as_stored(s.states, w);
    law_what_waits_lacks_a_vector(s, EMBEDDING_MODEL_ID@);
    crate::laws::search::law_searches_need_words_and_a_limit(c.query, limit);
    let hits = if let Ok(Output::Context(o)) = r {
        let state = model::first_row(s.states, crate::state::of_workspace(w));
        choose|hits: Seq<HitView>|
            run::recalls(s, limit, supplies, score, hits) && #[trigger] cli::is_context(
                o,
                place.project@.root,
                w,
                state,
                hits,
                c.max_bytes,
            )
    } else {
        Seq::empty()
    };
    if let Ok(Output::Context(o)) = r {
        assert forall|i: int| 0 <= i < o.memories@.len() implies (#[trigger] o.memories@[i])@
            == hits[i].memory by {
            assert(model::views(o.memories@)[i] == o.memories@[i]@);
            assert(cli::memories_of(hits).take(o.memories@.len() as int)[i] == hits[i].memory);
        }
    }
    hits
}

/// Where no database is given or named, and the root of the repository has none, the nearest
/// directory with a store has it, up to the root.
pub proof fn law_the_nearest_store_is_taken(
    given: bool,
    named: bool,
    in_repository: bool,
    root_has_store: bool,
    root: Option<int>,
    has_store: Seq<bool>,
    k: int,
)
    requires
        root is Some ==> 0 <= root->0 < has_store.len(),
        has_store.len() <= usize::MAX,
        0 <= k < has_store.len(),
        in_repository && root is Some ==> k <= root->0,
        has_store[k],
        forall|i: int| 0 <= i < k ==> !#[trigger] has_store[i],
        !given && !named && !(in_repository && root_has_store),
    ensures
        cli::database_choice(given, named, in_repository, root_has_store, root, has_store)
            == DatabaseChoice::Ancestor(k as usize),
{
    let n = if in_repository {
        cli::reach(has_store, root)
    } else {
        has_store.len() as int
    };
    lemma_nearest(has_store, n, k);
}

proof fn lemma_nearest(has_store: Seq<bool>, n: int, k: int)
    requires
        0 <= k < n <= has_store.len(),
        has_store[k],
        forall|i: int| 0 <= i < k ==> !#[trigger] has_store[i],
    ensures
        cli::nearest(has_store, n) == Some(k),
    decreases n,
{
    if n == k + 1 {
        lemma_none_near(has_store, k);
    } else {
        lemma_nearest(has_store, n - 1, k);
    }
}

proof fn lemma_none_near(has_store: Seq<bool>, n: int)
    requires
        0 <= n <= has_store.len(),
        forall|i: int| 0 <= i < n ==> !#[trigger] has_store[i],
    ensures
        cli::nearest(has_store, n) is None,
    decreases n,
{
    if n > 0 {
        lemma_none_near(has_store, n - 1);
    }
}

/// A database that is given is used, and else the one that the environment names, and else
/// the one at the root of the repository. Where no directory up to the root has a store it is
/// the root's, and outside a repository that of the current directory.
pub proof fn law_a_given_database_is_used(
    named: bool,
    in_repository: bool,
    root_has_store: bool,
    root: Option<int>,
    has_store: Seq<bool>,
)
    requires
        root is Some ==> 0 <= root->0 < has_store.len(),
    ensures
        cli::database_choice(true, named, in_repository, root_has_store, root, has_store)
            == DatabaseChoice::Given,
        cli::database_choice(false, true, in_repository, root_has_store, root, has_store)
            == DatabaseChoice::Environment,
        cli::database_choice(false, false, true, true, root, has_store) == DatabaseChoice::Root,
        (forall|i: int|
            0 <= i < has_store.len() && (root is Some ==> i <= root->0)
                ==> !#[trigger] has_store[i]) ==> cli::database_choice(
            false,
            false,
            true,
            false,
            root,
            has_store,
        ) == DatabaseChoice::Root,
        (forall|i: int| 0 <= i < has_store.len() ==> !#[trigger] has_store[i])
            ==> cli::database_choice(false, false, false, root_has_store, root, has_store)
            == DatabaseChoice::Current,
{
    if forall|i: int|
        0 <= i < has_store.len() && (root is Some ==> i <= root->0) ==> !#[trigger] has_store[i] {
        lemma_none_near(has_store, cli::reach(has_store, root));
    }
    if forall|i: int| 0 <= i < has_store.len() ==> !#[trigger] has_store[i] {
        lemma_none_near(has_store, has_store.len() as int);
    }
}

/// A recall is answered with hits, or refused for a reason, and for none other.
pub proof fn law_a_recall_is_answered_or_refused<F: Fn(&Vec<u32>) -> i64>(
    r: Result<Vec<SearchHit>, Error>,
    s: StoreView,
    query: Seq<char>,
    limit: int,
    vector: Option<Result<int, Seq<char>>>,
    score: F,
    matches: Seq<MatchView>,
)
    requires
        recall::is_recall(r, s, query, limit, vector, score, matches),
        limit > 0,
        limit <= i64::MAX,
    ensures
        !all_space(query) ==> r is Ok,
        r matches Ok(hits) ==> recall::recalls(
            s,
            limit,
            vector,
            score,
            matches,
            model::views(hits@),
        ),
        r matches Err(e) ==> all_space(query) && e@ == "query cannot be empty"@,
{
    crate::laws::search::law_searches_need_words_and_a_limit(query, limit);
}

/// A recall goes by the vectors exactly where no active memory lacks one, the query has a
/// vector, every stored one can be compared with it, and the limit is not zero.
pub proof fn law_recall_goes_by_vectors_where_it_can(s: StoreView, limit: int, dimensions: int)
    requires
        limit >= 0,
        0 <= dimensions,
        4 * dimensions <= usize::MAX,
    ensures
        recall::answers(s, limit, Some(Ok(dimensions))) <==> {
            &&& limit > 0
            &&& forall|i: int|
                0 <= i < s.memories.len() ==> !lacks_a_vector(
                    s,
                    #[trigger] s.memories[i],
                    EMBEDDING_MODEL_ID@,
                )
            &&& forall|k: int|
                0 <= k < vector_search::scanned(s, EMBEDDING_MODEL_ID@).len() ==> is_comparable(
                    #[trigger] vector_search::scanned(s, EMBEDDING_MODEL_ID@)[k],
                    dimensions,
                )
        },
{
    recall::lemma_model_id_is_not_blank();
    law_blank_texts_are_white_space(EMBEDDING_MODEL_ID@);
    law_what_waits_lacks_a_vector(s, EMBEDDING_MODEL_ID@);
    law_comparable_vectors_are_accepted(s, EMBEDDING_MODEL_ID@, limit, Ok(dimensions));
}

/// A context that goes by vectors holds the memories whose whole vectors score best with the
/// query, each with a score of at least fifty-five hundredths.
pub proof fn law_recall_compares_whole_vectors<F: Fn(&Vec<u32>) -> i64>(
    s: StoreView,
    limit: int,
    vector: Option<Result<int, Seq<char>>>,
    score: F,
    matches: Seq<MatchView>,
    hits: Seq<HitView>,
    j: int,
) -> (r: (EmbeddingView, Vec<u32>))
    requires
        limit >= 0,
        recall::answers(s, limit, vector),
        recall::recalls(s, limit, vector, score, matches, hits),
        0 <= j < hits.len(),
    ensures
        hits[j].rank >= 0x3fe1_9999_9999_999a,
        s.memories.contains(hits[j].memory),
        hits[j].memory.status == "active"@,
        s.embeddings.contains(r.0),
        is_vector_of(
            r.0,
            hits[j].memory.id,
            EMBEDDING_MODEL_ID@,
            hits[j].memory.updated_at,
        ),
        r.1@ == vector::decoded(r.0.vector),
        call_ensures(score, (&r.1,), hits[j].rank as i64),
{
    let rows = vector_search::scanned(s, EMBEDDING_MODEL_ID@);
    let (found, scores) = choose|found: Seq<SemanticView>, scores: Seq<i64>| #[trigger]
        vector_search::is_best_by_score(found, rows, score, scores, limit) && hits
            == model::joined(found, recall::recalled());
    law_recall_keeps_high_scores(found, hits[j], 0);
    assert(hits.contains(hits[j]));
    let i = choose|i: int|
        0 <= i < found.len() && (#[trigger] found[i]).memory == hits[j].memory && found[i].score
            == hits[j].rank && hits[j].rank >= 0x3fe1_9999_9999_999a;
    law_scores_are_of_whole_vectors(s, EMBEDDING_MODEL_ID@, score, scores, limit, found, i)
}

} // verus!
