use loc::jobs::{JobTable, Joined};

#[test]
fn job_table_joins_running_job() {
    let mut table: JobTable<&str> = JobTable::new();
    assert!(table.find("a/b").is_none());
    let ticket = table.start("a/b".to_string(), "job1").unwrap();
    assert_eq!(ticket, 0);
    assert_eq!(table.find("a/b"), Some(&"job1"));
    assert!(table.find("a/c").is_none());
}

#[test]
fn job_table_only_creator_removes() {
    let mut table: JobTable<u32> = JobTable::new();
    let first = table.start("k".to_string(), 1).unwrap();
    table.finish("k", first);
    assert!(table.find("k").is_none());
    let second = table.start("k".to_string(), 2).unwrap();
    assert_ne!(first, second);
    // A stale holder of the first ticket cannot evict the newer job.
    table.finish("k", first);
    assert_eq!(table.find("k"), Some(&2));
    table.finish("k", second);
    assert!(table.find("k").is_none());
}

#[test]
fn job_table_keys_are_independent() {
    let mut table: JobTable<u32> = JobTable::new();
    let a = table.start("a".to_string(), 1).unwrap();
    let b = table.start("b".to_string(), 2).unwrap();
    table.finish("a", a);
    assert!(table.find("a").is_none());
    assert_eq!(table.find("b"), Some(&2));
    table.finish("b", b);
    assert!(table.find("b").is_none());
}

#[test]
fn join_or_start_makes_a_job_once() {
    let mut table: JobTable<u32> = JobTable::new();
    let mut made = 0;
    match table.join_or_start("k".to_string(), || { made += 1; 7 }) {
        Joined::Started(job, ticket) => {
            assert_eq!(job, 7);
            assert_eq!(ticket, 0);
        }
        _ => panic!("expected a new job"),
    }
    match table.join_or_start("k".to_string(), || { made += 1; 8 }) {
        Joined::Existing(job) => assert_eq!(job, 7),
        _ => panic!("expected the running job"),
    }
    assert_eq!(made, 1);
    assert_eq!(table.find("k"), Some(&7));
    table.finish("k", 0);
    match table.join_or_start("k".to_string(), || 9) {
        Joined::Started(job, ticket) => {
            assert_eq!(job, 9);
            assert_eq!(ticket, 1);
        }
        _ => panic!("expected a new job"),
    }
}
