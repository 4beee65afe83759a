use pagi_companion_core::companion::kb::{EpisodicKB, KbError, KnowledgeBase};
use pagi_companion_core::rag::embedding::{EmbeddingModel, COMPONENT_HALF_RANGE, EMBEDDING_DIMENSION};
use pagi_companion_core::rag::index::{squared_distance, VectorIndex};

fn texts(v: &[&str]) -> Vec<String> {
    v.iter().map(|s| s.to_string()).collect()
}

#[test]
fn embedding_is_deterministic() {
    let m = EmbeddingModel::new();
    let a = m.embed_text("User's dog is named Sparky.");
    let b = EmbeddingModel::new().embed_text("User's dog is named Sparky.");
    assert_eq!(a, b);
    assert_eq!(a.len(), EMBEDDING_DIMENSION);
    assert!(a.iter().all(|x| -COMPONENT_HALF_RANGE <= *x && *x < COMPONENT_HALF_RANGE));
}

#[test]
fn different_texts_embed_differently() {
    let m = EmbeddingModel::new();
    assert_ne!(m.embed_text("A"), m.embed_text("B"));
}

#[test]
fn squared_distance_uses_common_prefix() {
    assert_eq!(squared_distance(&vec![0, 0], &vec![3, 4]), 25);
    assert_eq!(squared_distance(&vec![3, 4, 100], &vec![3, 4]), 0);
    assert_eq!(squared_distance(&vec![], &vec![1, 2]), 0);
    let far = squared_distance(&vec![i32::MIN, i32::MIN], &vec![i32::MAX, i32::MAX]);
    assert_eq!(far, 2 * (u32::MAX as u128) * (u32::MAX as u128));
}

#[test]
fn add_assigns_increasing_ids() {
    let mut ix = VectorIndex::new();
    assert_eq!(ix.add("a".to_string(), vec![1]), 0);
    assert_eq!(ix.add("b".to_string(), vec![2]), 1);
    assert_eq!(ix.add("a".to_string(), vec![1]), 2);
    assert_eq!(ix.next_id, 3);
    assert_eq!(ix.items.len(), 3);
    assert_eq!(ix.items[2].content, "a");
}

#[test]
fn search_orders_by_distance_then_age() {
    let mut ix = VectorIndex::new();
    ix.add("far".to_string(), vec![10, 10]);
    ix.add("near".to_string(), vec![1, 0]);
    ix.add("tie-old".to_string(), vec![0, 2]);
    ix.add("tie-new".to_string(), vec![2, 0]);
    ix.add("exact".to_string(), vec![0, 0]);
    assert_eq!(ix.search(&vec![0, 0], 5), texts(&["exact", "near", "tie-old", "tie-new", "far"]));
    assert_eq!(ix.search(&vec![0, 0], 2), texts(&["exact", "near"]));
}

#[test]
fn search_truncates_to_k_and_item_count() {
    let mut ix = VectorIndex::new();
    assert_eq!(ix.search(&vec![0], 3), Vec::<String>::new());
    ix.add("a".to_string(), vec![1]);
    ix.add("b".to_string(), vec![2]);
    assert_eq!(ix.search(&vec![0], 0).len(), 0);
    assert_eq!(ix.search(&vec![0], 1).len(), 1);
    assert_eq!(ix.search(&vec![0], 10), texts(&["a", "b"]));
}

#[test]
fn search_finds_stored_text_itself() {
    let m = EmbeddingModel::new();
    let mut ix = VectorIndex::new();
    for t in ["alpha", "beta", "gamma", "delta"] {
        ix.add(t.to_string(), m.embed_text(t));
    }
    for t in ["alpha", "beta", "gamma", "delta"] {
        assert_eq!(ix.search(&m.embed_text(t), 1), texts(&[t]));
    }
}

#[test]
fn parallel_search_matches_sequential_order() {
    let mut ix = VectorIndex::new();
    let mut expected: Vec<(u128, usize, String)> = Vec::new();
    for i in 0..100i32 {
        let v = vec![(i * 37) % 11, (i * 13) % 7];
        let t = format!("m{}", i);
        expected.push((squared_distance(&v, &vec![3, 3]), i as usize, t.clone()));
        ix.add(t, v);
    }
    expected.sort();
    let want: Vec<String> = expected.into_iter().take(20).map(|e| e.2).collect();
    assert_eq!(ix.search(&vec![3, 3], 20), want);
}

#[test]
fn store_then_retrieve_end_to_end() {
    let mut kb = EpisodicKB::new();
    assert_eq!(kb.store("u1", "A"), Ok("mem-u1-0".to_string()));
    assert_eq!(kb.store("u1", "B"), Ok("mem-u1-1".to_string()));
    assert_eq!(kb.retrieve_context_by_query("u1", "A", 1), texts(&["A"]));
    assert_eq!(kb.retrieve_context_by_query("u1", "B", 1), texts(&["B"]));
    assert_eq!(kb.retrieve_context_by_query("u1", "A", 5).len(), 2);
}

#[test]
fn users_are_isolated() {
    let mut kb = EpisodicKB::new();
    kb.store("u1", "A").unwrap();
    assert_eq!(kb.store("u2", "B"), Ok("mem-u2-0".to_string()));
    assert_eq!(kb.retrieve_context_by_query("u1", "B", 5), texts(&["A"]));
    assert_eq!(kb.retrieve_context_by_query("u3", "A", 5), Vec::<String>::new());
    assert!(kb.is_loaded("u2"));
    assert!(!kb.is_loaded("u3"));
}

#[test]
fn loaded_index_is_kept_on_second_insert() {
    let mut kb = EpisodicKB::new();
    let mut first = VectorIndex::new();
    first.add("kept".to_string(), vec![0]);
    kb.insert_if_absent("u1", first);
    kb.insert_if_absent("u1", VectorIndex::new());
    assert_eq!(kb.get_index("u1").map(|ix| ix.items.len()), Some(1));
    assert_eq!(kb.store("u1", "next"), Ok("mem-u1-1".to_string()));
}

#[test]
fn full_index_refuses_store() {
    let mut kb = EpisodicKB::new();
    kb.insert_if_absent("u1", VectorIndex { items: Vec::new(), next_id: u64::MAX });
    assert_eq!(kb.store("u1", "A"), Err(KbError::IndexFull));
    assert_eq!(kb.get_index("u1").map(|ix| ix.items.len()), Some(0));
}

#[test]
fn rag_file_path_names_user() {
    assert_eq!(EpisodicKB::new().rag_file_path("u1"), "./companion_data/u1_rag_index.json");
}
