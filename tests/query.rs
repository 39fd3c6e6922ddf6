use highscores::{
    answer_query, first_n, keep_version, order_by_score, records_from_rows, row_from_record,
    run_query, Highscore, Query, StoreError, StoredRow,
};

fn rec(score: u32, name: &str, version: &str) -> Highscore {
    Highscore { score, name: name.to_string(), version: version.to_string() }
}

fn scores(v: &[Highscore]) -> Vec<u32> {
    v.iter().map(|r| r.score).collect()
}

#[test]
fn keep_version_is_exact_and_case_sensitive() {
    let all = vec![rec(1, "a", "1.0"), rec(2, "b", "2.0"), rec(3, "c", "1.0"), rec(4, "d", "1.0 ")];
    let kept = keep_version(&all, &"1.0".to_string());
    assert_eq!(kept, vec![rec(1, "a", "1.0"), rec(3, "c", "1.0")]);
    assert!(keep_version(&all, &"1.O".to_string()).is_empty());
    assert!(keep_version(&vec![rec(5, "e", "V1")], &"v1".to_string()).is_empty());
}

#[test]
fn unknown_version_gives_empty_list() {
    let all = vec![rec(1, "a", "1.0")];
    assert_eq!(run_query(&all, &Query::of_version("nope".to_string())), Vec::<Highscore>::new());
    assert_eq!(run_query(&Vec::new(), &Query::of_version("nope".to_string())), Vec::<Highscore>::new());
}

#[test]
fn order_by_score_is_descending_and_stable() {
    let all = vec![rec(5, "a", "1"), rec(50, "b", "1"), rec(20, "c", "1"), rec(20, "d", "1"), rec(50, "e", "1")];
    let sorted = order_by_score(&all);
    assert_eq!(scores(&sorted), vec![50, 50, 20, 20, 5]);
    let names: Vec<&str> = sorted.iter().map(|r| r.name.as_str()).collect();
    assert_eq!(names, vec!["b", "e", "c", "d", "a"]);
}

#[test]
fn first_n_clips_to_available_count() {
    let all = vec![rec(3, "a", "1"), rec(2, "b", "1")];
    assert_eq!(first_n(all.clone(), 10), all);
    assert_eq!(first_n(all.clone(), 1), vec![rec(3, "a", "1")]);
    assert!(first_n(all, 0).is_empty());
}

#[test]
fn top_query_orders_and_limits() {
    let mut all = Vec::new();
    for i in 0..15u32 {
        all.push(rec(i * 7 % 15, "p", "1.0"));
        all.push(rec(1000 + i, "q", "2.0"));
    }
    let top = run_query(&all, &Query::top("1.0".to_string(), 10));
    assert_eq!(top.len(), 10);
    assert_eq!(scores(&top), vec![14, 13, 12, 11, 10, 9, 8, 7, 6, 5]);
    assert!(top.iter().all(|r| r.version == "1.0"));
}

#[test]
fn top_query_with_fewer_records_than_limit() {
    let all = vec![rec(5, "a", "1.0"), rec(50, "b", "1.0"), rec(20, "c", "1.0"), rec(99, "z", "2.0")];
    let top = run_query(&all, &Query::top("1.0".to_string(), 10));
    assert_eq!(scores(&top), vec![50, 20, 5]);
}

#[test]
fn all_query_keeps_stored_order() {
    let all = vec![rec(5, "a", "1.0"), rec(50, "b", "2.0"), rec(20, "c", "1.0")];
    assert_eq!(run_query(&all, &Query::all()), all);
}

#[test]
fn row_round_trip_keeps_every_field() {
    let r = rec(u32::MAX, "abow", "0.0.1");
    let row = row_from_record(&r);
    assert_eq!(row, ("0.0.1".to_string(), u32::MAX as i64, "abow".to_string()));
    assert_eq!(records_from_rows(&vec![row]), Ok(vec![r]));
}

#[test]
fn out_of_range_score_fails_whole_read() {
    let rows: Vec<StoredRow> = vec![
        ("1".to_string(), 3, "a".to_string()),
        ("1".to_string(), -1, "b".to_string()),
        ("1".to_string(), 1 << 40, "c".to_string()),
    ];
    assert_eq!(records_from_rows(&rows), Err(StoreError::BadRow(1)));
    let big: Vec<StoredRow> = vec![("1".to_string(), u32::MAX as i64 + 1, "c".to_string())];
    assert_eq!(answer_query(&big, &Query::all()), Err(StoreError::BadRow(0)));
}

#[test]
fn answer_query_decodes_then_filters() {
    let rows: Vec<StoredRow> = vec![
        ("1.0".to_string(), 5, "a".to_string()),
        ("2.0".to_string(), 7, "b".to_string()),
        ("1.0".to_string(), 9, "c".to_string()),
    ];
    let got = answer_query(&rows, &Query::top("1.0".to_string(), 10)).unwrap();
    assert_eq!(got, vec![rec(9, "c", "1.0"), rec(5, "a", "1.0")]);
}
