use highscores::{AppState, Highscore, TOP_COUNT};

fn rec(score: u32, name: &str, version: &str) -> Highscore {
    Highscore { score, name: name.to_string(), version: version.to_string() }
}

fn fresh() -> AppState {
    AppState::load(":memory:").expect("in-memory database opens")
}

#[test]
fn insert_then_list_all_returns_that_record() {
    let store = fresh();
    store.insert(&rec(19, "abow", "0.0.1")).unwrap();
    assert_eq!(store.get_scores().unwrap(), vec![rec(19, "abow", "0.0.1")]);
}

#[test]
fn top_ten_orders_three_records() {
    let store = fresh();
    for s in [5u32, 50, 20] {
        store.insert(&rec(s, "p", "1.0")).unwrap();
    }
    let top = store.get_top_ten("1.0".to_string()).unwrap();
    let scores: Vec<u32> = top.iter().map(|r| r.score).collect();
    assert_eq!(scores, vec![50, 20, 5]);
}

#[test]
fn top_ten_clips_to_ten() {
    let store = fresh();
    for s in 0..25u32 {
        store.insert(&rec(s, "p", "1.0")).unwrap();
    }
    let top = store.get_top_ten("1.0".to_string()).unwrap();
    assert_eq!(top.len(), TOP_COUNT);
    assert_eq!(top[0].score, 24);
    assert_eq!(top[9].score, 15);
}

#[test]
fn unknown_version_is_empty_not_error() {
    let store = fresh();
    assert_eq!(store.get_versioned_scores("nope".to_string()), Ok(vec![]));
    assert_eq!(store.get_top_ten("nope".to_string()), Ok(vec![]));
}

#[test]
fn other_version_is_not_included() {
    let store = fresh();
    store.insert(&rec(7, "x", "2.0")).unwrap();
    store.insert(&rec(3, "y", "1.0")).unwrap();
    assert_eq!(store.get_versioned_scores("1.0".to_string()).unwrap(), vec![rec(3, "y", "1.0")]);
}

#[test]
fn init_twice_keeps_the_table() {
    let store = fresh();
    store.insert(&rec(1, "a", "v")).unwrap();
    store.init().unwrap();
    store.init().unwrap();
    assert_eq!(store.get_scores().unwrap(), vec![rec(1, "a", "v")]);
}

#[test]
fn two_inserts_both_appear_once() {
    let store = fresh();
    store.insert(&rec(1, "a", "v")).unwrap();
    store.insert(&rec(1, "a", "v")).unwrap();
    assert_eq!(store.get_scores().unwrap(), vec![rec(1, "a", "v"), rec(1, "a", "v")]);
}

#[test]
fn largest_score_round_trips_through_the_table() {
    let store = fresh();
    store.insert(&rec(u32::MAX, "max", "0.0.1")).unwrap();
    store.insert(&rec(0, "zero", "0.0.1")).unwrap();
    assert_eq!(
        store.get_versioned_scores("0.0.1".to_string()).unwrap(),
        vec![rec(u32::MAX, "max", "0.0.1"), rec(0, "zero", "0.0.1")]
    );
}
