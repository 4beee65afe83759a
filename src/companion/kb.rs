//! Knowledge stores: the structured state record and the episodic memory.
use vstd::prelude::*;
use crate::companion::models::{
    AttachmentStyle, EmotionalState, FlirtyStyle, LoveLanguage, PersonalityStateMatrix,
    RelationshipStage,
};
use crate::rag::embedding::{embedding_of, EmbeddingModel};
use crate::rag::index::{is_added, is_search_result, VectorIndex};
use crate::text::{decimal_of, push_decimal, str_eq};

verus! {


/// Long-term memory of the agent: store a text, retrieve texts relevant to a query.
pub trait KnowledgeBase {
    /// The index of `user`, if one is loaded.
    spec fn user_index(&self, user: Seq<char>) -> Option<VectorIndex>;

    /// Stores `content` for `user_id` under the next id of the user's index
    /// (an empty one where none is loaded) and returns `mem-<user>-<id>`;
    /// refuses with `IndexFull` once every id is handed out. Other users'
    /// indexes are left as they were.
    fn store(&mut self, user_id: &str, content: &str) -> (r: Result<String, KbError>)
        ensures
            ({
                let before = old(self).user_index(user_id@);
                match r {
                    Ok(h) => {
                        &&& next_id_of(before) < u64::MAX
                        &&& h@ == memory_handle(user_id@, next_id_of(before))
                        &&& final(self).user_index(user_id@) matches Some(after)
                        &&& is_stored(before, after, content@, embedding_of(content@))
                    },
                    Err(e) => {
                        &&& next_id_of(before) == u64::MAX
                        &&& e == KbError::IndexFull
                        &&& final(self).user_index(user_id@) == before
                    },
                }
            }),
            forall|u: Seq<char>|
                u != user_id@ ==> final(self).user_index(u) == old(self).user_index(u),
    ;

    /// The `k` stored texts of `user_id` nearest to the embedding of `query`,
    /// nearest first; none where the user has no index.
    fn retrieve_context_by_query(&self, user_id: &str, query: &str, k: usize) -> (r: Vec<String>)
        ensures
            match self.user_index(user_id@) {
                Some(ix) => is_search_result(ix, embedding_of(query@), k as int, r@),
                None => r@.len() == 0,
            },
    ;
}

/// Why a knowledge store refused an operation.
#[derive(Debug, Clone, Copy, PartialEq, Eq, Structural)]
pub enum KbError {
    /// The user's index has handed out every id.
    IndexFull,
}

/// The structured state store: one personality record and one identity per user.
pub struct SemanticKB;

/// `m` is the record that a new user starts with, created at time `now`.
pub open spec fn is_default_matrix(m: PersonalityStateMatrix, now: i64) -> bool {
    &&& m.name@ == "Skylar"@
    &&& m.gender@ == "Female"@
    &&& m.primary_role@ == "Flirty Girlfriend"@
    &&& m.conservatism_level == 200_000
    &&& m.sexual_drive == 800_000
    &&& m.intimacy_openness == 900_000
    &&& m.attachment_style == AttachmentStyle::Secure
    &&& m.love_language == LoveLanguage::PhysicalTouch
    &&& m.flirty_style == FlirtyStyle::Bold
    &&& m.current_emotional_state == EmotionalState::Happy
    &&& m.relationship_stage == RelationshipStage::Dating
    &&& m.current_kinks_list@.len() == 2
    &&& m.current_kinks_list@[0]@ == "praise"@
    &&& m.current_kinks_list@[1]@ == "teasing"@
    &&& m.current_boundaries_list@.len() == 1
    &&& m.current_boundaries_list@[0]@ == "safe word 'exit'"@
    &&& m.anxiety_level == 100_000
    &&& m.avoidance_level == 100_000
    &&& m.sexual_energy == 500_000
    &&& m.last_interaction_time == now
}

/// The directory that holds the per-user files, a slash, `user_id` and `suffix`.
pub open spec fn user_file(user_id: Seq<char>, suffix: Seq<char>) -> Seq<char> {
    "./companion_data"@ + "/"@ + user_id + suffix
}

fn user_file_path(user_id: &str, suffix: &str) -> (r: String)
    ensures
        r@ == user_file(user_id@, suffix@),
{
    let mut p = String::from_str("./companion_data");
    p.append("/");
    p.append(user_id);
    p.append(suffix);
    p
}

impl SemanticKB {
    pub fn new() -> (r: Self) {
        SemanticKB
    }

    /// Where the personality record of `user_id` is kept.
    pub fn get_file_path(&self, user_id: &str) -> (r: String)
        ensures
            r@ == user_file(user_id@, ".json"@),
    {
        user_file_path(user_id, ".json")
    }

    /// Where the identity of the agent that serves `user_id` is kept.
    pub fn get_identity_file_path(&self, user_id: &str) -> (r: String)
        ensures
            r@ == user_file(user_id@, "_identity.json"@),
    {
        user_file_path(user_id, "_identity.json")
    }

    /// The record that a new user starts with, stamped with `now`.
    pub fn create_default_matrix(&self, user_id: &str, now: i64) -> (r: PersonalityStateMatrix)
        ensures
            is_default_matrix(r, now),
            r.wf(),
    {
        let mut kinks: Vec<String> = Vec::new();
        kinks.push(String::from_str("praise"));
        kinks.push(String::from_str("teasing"));
        let mut boundaries: Vec<String> = Vec::new();
        boundaries.push(String::from_str("safe word 'exit'"));
        PersonalityStateMatrix {
            name: String::from_str("Skylar"),
            gender: String::from_str("Female"),
            primary_role: String::from_str("Flirty Girlfriend"),
            conservatism_level: 200_000,
            sexual_drive: 800_000,
            intimacy_openness: 900_000,
            attachment_style: AttachmentStyle::Secure,
            love_language: LoveLanguage::PhysicalTouch,
            flirty_style: FlirtyStyle::Bold,
            current_kinks_list: kinks,
            current_boundaries_list: boundaries,
            current_emotional_state: EmotionalState::Happy,
            relationship_stage: RelationshipStage::Dating,
            anxiety_level: 100_000,
            avoidance_level: 100_000,
            sexual_energy: 500_000,
            last_interaction_time: now,
        }
    }
}

/// `a` and `b` hold the same values in every field.
pub open spec fn same_fields(a: PersonalityStateMatrix, b: PersonalityStateMatrix) -> bool {
    &&& a.name@ == b.name@
    &&& a.gender@ == b.gender@
    &&& a.primary_role@ == b.primary_role@
    &&& a.conservatism_level == b.conservatism_level
    &&& a.sexual_drive == b.sexual_drive
    &&& a.intimacy_openness == b.intimacy_openness
    &&& a.attachment_style == b.attachment_style
    &&& a.love_language == b.love_language
    &&& a.flirty_style == b.flirty_style
    &&& a.current_kinks_list@.len() == b.current_kinks_list@.len()
    &&& forall|i: int|
        0 <= i < a.current_kinks_list@.len() ==> (#[trigger] a.current_kinks_list@[i])@
            == b.current_kinks_list@[i]@
    &&& a.current_boundaries_list@.len() == b.current_boundaries_list@.len()
    &&& forall|i: int|
        0 <= i < a.current_boundaries_list@.len() ==> (#[trigger] a.current_boundaries_list@[i])@
            == b.current_boundaries_list@[i]@
    &&& a.current_emotional_state == b.current_emotional_state
    &&& a.relationship_stage == b.relationship_stage
    &&& a.anxiety_level == b.anxiety_level
    &&& a.avoidance_level == b.avoidance_level
    &&& a.sexual_energy == b.sexual_energy
    &&& a.last_interaction_time == b.last_interaction_time
}

/// The default record depends on the creation time alone: two default records
/// made at the same time, for any users, hold the same values in every field.
pub proof fn lemma_default_matrix_unique(a: PersonalityStateMatrix, b: PersonalityStateMatrix, now: i64)
    requires
        is_default_matrix(a, now),
        is_default_matrix(b, now),
    ensures
        same_fields(a, b),
{
    assert forall|i: int| 0 <= i < a.current_kinks_list@.len() implies (#[trigger] a.current_kinks_list@[i])@
        == b.current_kinks_list@[i]@ by {
        if i == 0 {
        } else {
            assert(i == 1);
        }
    }
}

/// The index of the first entry for `user`.
pub open spec fn index_for(entries: Seq<(String, VectorIndex)>, user: Seq<char>) -> Option<
    VectorIndex,
>
    decreases entries.len(),
{
    if entries.len() == 0 {
        None
    } else if entries[0].0@ == user {
        Some(entries[0].1)
    } else {
        index_for(entries.drop_first(), user)
    }
}

/// The id that the next memory in `index` gets; zero where no index is loaded.
pub open spec fn next_id_of(index: Option<VectorIndex>) -> u64 {
    match index {
        Some(ix) => ix.next_id,
        None => 0,
    }
}

/// `after` is `before` (an empty index where `before` is `None`) with one more
/// memory holding `text` and `embedding`.
pub open spec fn is_stored(
    before: Option<VectorIndex>,
    after: VectorIndex,
    text: Seq<char>,
    embedding: Seq<i32>,
) -> bool {
    match before {
        Some(b) => is_added(b, after, text, embedding),
        None => {
            &&& after.next_id == 1
            &&& after.items@.len() == 1
            &&& after.items@[0].id == 0
            &&& after.items@[0].embedding@ == embedding
            &&& after.items@[0].content@ == text
        },
    }
}

/// The handle of memory `id` of `user`: `mem-<user>-<id>`.
pub open spec fn memory_handle(user: Seq<char>, id: u64) -> Seq<char> {
    "mem-"@ + user + "-"@ + decimal_of(id as nat)
}

/// The episodic store: one vector index per user, loaded on demand.
///
/// Users are isolated: every operation on one user leaves the others' indexes as
/// they were.
pub struct EpisodicKB {
    pub embedding_model: EmbeddingModel,
    /// (user id, index) pairs; a user's index is the first entry under its id.
    pub per_user_index: Vec<(String, VectorIndex)>,
}

impl EpisodicKB {
    /// Each user has at most one entry.
    pub open spec fn wf(&self) -> bool {
        forall|i: int, j: int|
            0 <= i < j < self.per_user_index@.len() ==> (#[trigger] self.per_user_index@[i]).0@
                != (#[trigger] self.per_user_index@[j]).0@
    }

    pub fn new() -> (r: Self)
        ensures
            r.per_user_index@.len() == 0,
            r.wf(),
    {
        EpisodicKB { embedding_model: EmbeddingModel::new(), per_user_index: Vec::new() }
    }

    /// Where the index of `user_id` is kept.
    pub fn rag_file_path(&self, user_id: &str) -> (r: String)
        ensures
            r@ == user_file(user_id@, "_rag_index.json"@),
    {
        user_file_path(user_id, "_rag_index.json")
    }

    fn position(&self, user_id: &str) -> (r: Option<usize>)
        ensures
            match r {
                Some(p) => {
                    &&& p < self.per_user_index@.len()
                    &&& index_for(self.per_user_index@, user_id@) == Some(
                        self.per_user_index@[p as int].1,
                    )
                    &&& self.per_user_index@[p as int].0@ == user_id@
                    &&& forall|i: int|
                        0 <= i < p ==> (#[trigger] self.per_user_index@[i]).0@ != user_id@
                },
                None => {
                    &&& index_for(self.per_user_index@, user_id@) is None
                    &&& forall|i: int|
                        0 <= i < self.per_user_index@.len() ==> (
                        #[trigger] self.per_user_index@[i]).0@ != user_id@
                },
            },
    {
        let n = self.per_user_index.len();
        let mut i: usize = 0;
        assert(self.per_user_index@.subrange(0, n as int) =~= self.per_user_index@);
        while i < n
            invariant
                n == self.per_user_index@.len(),
                i <= n,
                index_for(self.per_user_index@, user_id@) == index_for(
                    self.per_user_index@.subrange(i as int, n as int),
                    user_id@,
                ),
                forall|j: int| 0 <= j < i ==> (#[trigger] self.per_user_index@[j]).0@ != user_id@,
            decreases n - i,
        {
            if str_eq(self.per_user_index[i].0.as_str(), user_id) {
                return Some(i);
            }
            assert(self.per_user_index@.subrange(i as int, n as int).drop_first()
                =~= self.per_user_index@.subrange(i + 1, n as int));
            i += 1;
        }
        None
    }

    /// Whether an index of `user_id` is loaded.
    pub fn is_loaded(&self, user_id: &str) -> (r: bool)
        ensures
            r == index_for(self.per_user_index@, user_id@) is Some,
    {
        self.position(user_id).is_some()
    }

    /// The loaded index of `user_id`, if any.
    pub fn get_index(&self, user_id: &str) -> (r: Option<&VectorIndex>)
        ensures
            match r {
                Some(ix) => index_for(self.per_user_index@, user_id@) == Some(*ix),
                None => index_for(self.per_user_index@, user_id@) is None,
            },
    {
        match self.position(user_id) {
            Some(p) => Some(&self.per_user_index[p].1),
            None => None,
        }
    }

    /// Installs `index` as the index of `user_id`, unless one is already loaded:
    /// of two racing loads, the first one stays.
    pub fn insert_if_absent(&mut self, user_id: &str, index: VectorIndex)
        ensures
            old(self).wf() ==> final(self).wf(),
            index_for(final(self).per_user_index@, user_id@) == match index_for(
                old(self).per_user_index@,
                user_id@,
            ) {
                Some(ix) => Some(ix),
                None => Some(index),
            },
            forall|u: Seq<char>|
                u != user_id@ ==> index_for(final(self).per_user_index@, u) == index_for(
                    old(self).per_user_index@,
                    u,
                ),
    {
        if self.position(user_id).is_none() {
            let ghost before = self.per_user_index@;
            let entry = (String::from_str(user_id), index);
            let ghost e = entry;
            self.per_user_index.push(entry);
            proof {
                lemma_index_for_push(before, e);
            }
        }
    }

    /// Stores `content` for `user_id` under the next id of the user's index,
    /// created empty where none is loaded; returns `mem-<user>-<id>`.
    pub fn store_memory(&mut self, user_id: &str, content: &str) -> (r: Result<String, KbError>)
        ensures
            old(self).wf() ==> final(self).wf(),
            ({
                let before = index_for(old(self).per_user_index@, user_id@);
                match r {
                    Ok(h) => {
                        &&& next_id_of(before) < u64::MAX
                        &&& h@ == memory_handle(user_id@, next_id_of(before))
                        &&& index_for(final(self).per_user_index@, user_id@) matches Some(after)
                        &&& is_stored(before, after, content@, embedding_of(content@))
                    },
                    Err(e) => {
                        &&& next_id_of(before) == u64::MAX
                        &&& e == KbError::IndexFull
                        &&& final(self).per_user_index@ == old(self).per_user_index@
                    },
                }
            }),
            forall|u: Seq<char>|
                u != user_id@ ==> index_for(final(self).per_user_index@, u) == index_for(
                    old(self).per_user_index@,
                    u,
                ),
    {
        let p = match self.position(user_id) {
            Some(p) => p,
            None => {
                let ghost before = self.per_user_index@;
                let entry = (String::from_str(user_id), VectorIndex::new());
                let ghost e = entry;
                self.per_user_index.push(entry);
                proof {
                    lemma_index_for_push(before, e);
                }
                self.per_user_index.len() - 1
            },
        };
        let ghost mid = self.per_user_index@;
        assert(index_for(mid, user_id@) == Some(mid[p as int].1));
        assert(mid[p as int].0@ == user_id@);
        if self.per_user_index[p].1.next_id == u64::MAX {
            return Err(KbError::IndexFull);
        }
        let embedding = self.embedding_model.embed_text(content);
        let (name, mut index) = self.per_user_index.remove(p);
        let id = index.add(content.to_owned(), embedding);
        self.per_user_index.insert(p, (name, index));
        proof {
            assert(self.per_user_index@ =~= mid.update(p as int, (name, index)));
            lemma_index_for_update(mid, p as int, self.per_user_index@);
        }
        let mut handle = String::from_str("mem-");
        handle.append(user_id);
        handle.append("-");
        push_decimal(&mut handle, id);
        Ok(handle)
    }

    /// The `k` texts of `user_id` nearest to `query` (see `VectorIndex::search`);
    /// none where the user has no index.
    pub fn retrieve(&self, user_id: &str, query: &str, k: usize) -> (r: Vec<String>)
        ensures
            match index_for(self.per_user_index@, user_id@) {
                Some(ix) => is_search_result(ix, embedding_of(query@), k as int, r@),
                None => r@.len() == 0,
            },
    {
        match self.get_index(user_id) {
            None => Vec::new(),
            Some(ix) => {
                let q = self.embedding_model.embed_text(query);
                ix.search(&q, k)
            },
        }
    }
}

impl KnowledgeBase for EpisodicKB {
    open spec fn user_index(&self, user: Seq<char>) -> Option<VectorIndex> {
        index_for(self.per_user_index@, user)
    }

    fn store(&mut self, user_id: &str, content: &str) -> Result<String, KbError> {
        self.store_memory(user_id, content)
    }

    fn retrieve_context_by_query(&self, user_id: &str, query: &str, k: usize) -> Vec<String> {
        self.retrieve(user_id, query, k)
    }
}

proof fn lemma_index_for_push(entries: Seq<(String, VectorIndex)>, e: (String, VectorIndex))
    requires
        index_for(entries, e.0@) is None,
    ensures
        index_for(entries.push(e), e.0@) == Some(e.1),
        forall|u: Seq<char>|
            u != e.0@ ==> index_for(#[trigger] entries.push(e), u) == index_for(entries, u),
    decreases entries.len(),
{
    if entries.len() > 0 {
        assert(entries.push(e).drop_first() =~= entries.drop_first().push(e));
        lemma_index_for_push(entries.drop_first(), e);
    } else {
        assert(entries.push(e)[0] == e);
    }
    assert forall|u: Seq<char>| u != e.0@ implies index_for(#[trigger] entries.push(e), u)
        == index_for(entries, u) by {
        lemma_index_for_push_other(entries, e, u);
    }
}

proof fn lemma_index_for_push_other(entries: Seq<(String, VectorIndex)>, e: (String, VectorIndex), u: Seq<char>)
    requires
        u != e.0@,
    ensures
        index_for(entries.push(e), u) == index_for(entries, u),
    decreases entries.len(),
{
    if entries.len() > 0 {
        assert(entries.push(e).drop_first() =~= entries.drop_first().push(e));
        lemma_index_for_push_other(entries.drop_first(), e, u);
    } else {
        assert(entries.push(e).drop_first() =~= entries);
    }
}

/// Replacing the index at the first entry of its user changes that user's index alone.
proof fn lemma_index_for_update(
    before: Seq<(String, VectorIndex)>,
    p: int,
    after: Seq<(String, VectorIndex)>,
)
    requires
        0 <= p < before.len(),
        forall|i: int| 0 <= i < p ==> (#[trigger] before[i]).0@ != before[p].0@,
        after.len() == before.len(),
        after[p].0 == before[p].0,
        forall|i: int| 0 <= i < before.len() && i != p ==> after[i] == before[i],
    ensures
        index_for(after, before[p].0@) == Some(after[p].1),
        forall|u: Seq<char>|
            u != before[p].0@ ==> index_for(after, u) == index_for(before, u),
    decreases p,
{
    assert(after.drop_first().len() == before.drop_first().len());
    let user = before[p].0@;
    if p == 0 {
        assert(after.drop_first() =~= before.drop_first());
        assert forall|u: Seq<char>| u != user implies index_for(after, u) == index_for(before, u) by {
            assert(after[0].0@ == before[0].0@);
        }
    } else {
        assert(after[0] == before[0]);
        assert(before.drop_first()[p - 1] == before[p]);
        assert(after.drop_first()[p - 1] == after[p]);
        assert forall|i: int| 0 <= i < p - 1 implies (#[trigger] before.drop_first()[i]).0@ != user by {
            assert(before.drop_first()[i] == before[i + 1]);
        }
        assert forall|i: int| 0 <= i < before.drop_first().len() && i != p - 1 implies after.drop_first()[i] == before.drop_first()[i] by {
            assert(after[i + 1] == before[i + 1]);
        }
        lemma_index_for_update(before.drop_first(), p - 1, after.drop_first());
        assert forall|u: Seq<char>| u != user implies index_for(after, u) == index_for(before, u) by {
            if before[0].0@ != u {
                assert(index_for(after, u) == index_for(after.drop_first(), u));
            }
        }
    }
}

} // verus!
