use csv_import::chunk::{
    calculate_chunk_count, estimate_rows_from_sample, generate_index_name, ChunkManager,
    MAX_DOCS_PER_INDEX,
};

#[test]
fn test_generate_index_name() {
    assert_eq!(generate_index_name("test", 1, 1), "test");
    assert_eq!(generate_index_name("test", 1, 2), "test_01");
    assert_eq!(generate_index_name("test", 2, 2), "test_02");
    assert_eq!(generate_index_name("test", 99, 100), "test_99");
    assert_eq!(generate_index_name("test", 100, 100), "test_100");
}

#[test]
fn test_calculate_chunk_count() {
    assert_eq!(calculate_chunk_count(100), 1);
    assert_eq!(calculate_chunk_count(MAX_DOCS_PER_INDEX as u64), 1);
    assert_eq!(calculate_chunk_count(MAX_DOCS_PER_INDEX as u64 + 1), 2);
    assert_eq!(calculate_chunk_count(MAX_DOCS_PER_INDEX as u64 * 2), 2);
}

#[test]
fn chunk_count_rounds_up_and_never_zero() {
    assert_eq!(calculate_chunk_count(0), 1);
    assert_eq!(calculate_chunk_count(MAX_DOCS_PER_INDEX as u64 * 2 + 1), 3);
    assert_eq!(calculate_chunk_count(MAX_DOCS_PER_INDEX as u64 * 5), 5);
    assert_eq!(calculate_chunk_count(u64::MAX), 8589934597);
}

#[test]
fn index_names_pad_to_two_digits() {
    assert_eq!(generate_index_name("logs", 7, 1000), "logs_07");
    assert_eq!(generate_index_name("logs", 1000, 1000), "logs_1000");
    assert_eq!(generate_index_name("logs", 3, 50), "logs_03");
    assert_eq!(generate_index_name("logs", 123, 5), "logs_123");
    assert_eq!(generate_index_name("logs", 0, 0), "logs_00");
    assert_eq!(generate_index_name("", 5, 2), "_05");
}

#[test]
fn index_names_of_distinct_chunks_differ() {
    let names: Vec<String> = (1..=120).map(|i| generate_index_name("idx", i, 120)).collect();
    for i in 0..names.len() {
        for j in (i + 1)..names.len() {
            assert_ne!(names[i], names[j]);
        }
    }
}

#[test]
fn single_chunk_manager_never_switches() {
    let mut m = ChunkManager::new("data".to_string(), 10);
    assert_eq!(m.total_chunks(), 1);
    for _ in 0..25 {
        assert!(!m.add_row());
    }
    assert_eq!(m.current_chunk_index(), 1);
    assert_eq!(m.current_index_name(), "data");
}

#[test]
fn empty_estimate_gives_one_chunk_that_never_switches() {
    let mut m = ChunkManager::new("data".to_string(), 0);
    assert_eq!(m.total_chunks(), 1);
    assert!(!m.add_row());
    assert_eq!(m.rows_in_current_chunk(), 1);
}

#[test]
fn multi_chunk_manager_switches_after_full_chunk() {
    let mut m = ChunkManager::new("big".to_string(), MAX_DOCS_PER_INDEX as u64 * 2 + 5);
    assert_eq!(m.total_chunks(), 3);
    assert_eq!(m.current_index_name(), "big_01");
    let names = m.add_rows(MAX_DOCS_PER_INDEX as u64 - 1);
    assert!(names.is_empty());
    assert_eq!(m.current_chunk_index(), 1);
    assert!(m.add_row());
    assert_eq!(m.current_chunk_index(), 2);
    assert_eq!(m.rows_in_current_chunk(), 0);
    assert_eq!(m.current_index_name(), "big_02");
    let names = m.add_rows(MAX_DOCS_PER_INDEX as u64);
    assert_eq!(names, vec!["big_03".to_string()]);
    assert_eq!(m.current_chunk_index(), 3);
    let names = m.add_rows(MAX_DOCS_PER_INDEX as u64 + 10);
    assert!(names.is_empty());
    assert_eq!(m.current_chunk_index(), 3);
    assert_eq!(m.rows_in_current_chunk(), MAX_DOCS_PER_INDEX as u64 + 10);
    assert_eq!(m.total_chunks(), 3);
    assert_eq!(m.current_index_name(), "big_03");
}

#[test]
fn row_estimate_from_sample() {
    assert_eq!(estimate_rows_from_sample(1000, &vec![]), 0);
    assert_eq!(estimate_rows_from_sample(1000, &vec![10, 10, 10]), 99);
    assert_eq!(estimate_rows_from_sample(1000, &vec![0, 0]), 0);
    assert_eq!(estimate_rows_from_sample(5, &vec![10]), 0);
    assert_eq!(estimate_rows_from_sample(10, &vec![10]), 0);
    assert_eq!(estimate_rows_from_sample(1001, &vec![9, 11]), 99);
}
