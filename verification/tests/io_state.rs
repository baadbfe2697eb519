use dice::io_state::{
    all_counter_keys, io_in_flight_non_zero_counters, words_to_lines, DrawMode, IoCounterKey,
    IoState, Snapshot, TwoSnapshots,
};

fn empty_snapshot() -> Snapshot {
    Snapshot {
        io_in_flight_stat: 0,
        io_in_flight_copy: 0,
        io_in_flight_symlink: 0,
        io_in_flight_hardlink: 0,
        io_in_flight_mk_dir: 0,
        io_in_flight_read_dir: 0,
        io_in_flight_read_dir_eden: 0,
        io_in_flight_rm_dir: 0,
        io_in_flight_rm_dir_all: 0,
        io_in_flight_stat_eden: 0,
        io_in_flight_chmod: 0,
        io_in_flight_read_link: 0,
        io_in_flight_remove: 0,
        io_in_flight_rename: 0,
        io_in_flight_read: 0,
        io_in_flight_write: 0,
        io_in_flight_canonicalize: 0,
        io_in_flight_eden_settle: 0,
        rss: None,
        deferred_materializer_queue_size: 0,
        blocking_executor_io_queue_size: 0,
        user_cpu_us: 0,
        system_cpu_us: 0,
    }
}

#[test]
fn test_words_to_lines() {
    assert_eq!(vec![Vec::<u8>::new(); 0], words_to_lines(vec![], 5));
    assert_eq!(vec![b"ab".to_vec()], words_to_lines(vec![b"ab".to_vec()], 5));
    assert_eq!(
        vec![b"ab cd".to_vec()],
        words_to_lines(vec![b"ab".to_vec(), b"cd".to_vec()], 5)
    );
    assert_eq!(
        vec![b"ab".to_vec(), b"cd".to_vec()],
        words_to_lines(vec![b"ab".to_vec(), b"cd".to_vec()], 4)
    );
    assert_eq!(vec![b"abcd".to_vec()], words_to_lines(vec![b"abcd".to_vec()], 3));
}

#[test]
fn test_non_zero_counters() {
    let mut s = empty_snapshot();
    assert!(io_in_flight_non_zero_counters(&s).is_empty());
    s.io_in_flight_stat = 2;
    s.io_in_flight_write = 1;
    let nz = io_in_flight_non_zero_counters(&s);
    assert_eq!(nz.len(), 2);
    assert_eq!(nz[0], (IoCounterKey::Stat, 2));
    assert_eq!(nz[1], (IoCounterKey::Write, 1));
    assert_eq!(all_counter_keys().len(), 18);
}

#[test]
fn test_cpu_percents() {
    let mut t = TwoSnapshots { first: None, last: None };
    assert_eq!(t.cpu_percents(), None);
    let mut s0 = empty_snapshot();
    s0.user_cpu_us = 0;
    s0.system_cpu_us = 0;
    t.update(0, &s0);
    assert_eq!(t.cpu_percents(), None);
    let mut s1 = empty_snapshot();
    s1.user_cpu_us = 500_000;
    s1.system_cpu_us = 500_000;
    t.update(1000, &s1);
    assert_eq!(t.cpu_percents(), Some(100));
}

#[test]
fn test_render() {
    let mut state = IoState::default();
    assert!(state.render(DrawMode::Normal, 20, true).is_empty());
    let mut s = empty_snapshot();
    s.rss = Some(123);
    s.blocking_executor_io_queue_size = 2;
    s.io_in_flight_stat = 1;
    state.update(0, &s);
    assert!(state.render(DrawMode::Normal, 20, false).is_empty());
    assert!(state.render(DrawMode::Final, 20, true).is_empty());
    let lines = state.render(DrawMode::Normal, 20, true);
    assert_eq!(lines.len(), 2);
    assert_eq!(lines[0], b"RSS = 123  IO Queue = 2".to_vec());
    assert_eq!(lines[1], b"Stat = 1".to_vec());
}
