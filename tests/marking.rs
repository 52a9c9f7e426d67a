use closefds::assert_traits;
use closefds::fd_name::{parse_fd_name, NameError};
use closefds::flags::{cloexec_update, FD_CLOEXEC};
use closefds::keep_set::KeepSet;
use closefds::pass::{entry_action, EntryAction};

/// Runs one pass over a table of (descriptor, flag word) in memory, the way
/// a caller does over the descriptor directory; returns the number of writes.
fn run_pass(keep: &KeepSet, table: &mut Vec<(i32, i32)>) -> usize {
    let mut writes = 0;
    for entry in table.iter_mut() {
        let name = format!("{}", entry.0);
        match entry_action(keep, name.as_bytes()).unwrap() {
            EntryAction::Skip => {}
            EntryAction::Mark { fd, cloexec } => {
                assert_eq!(fd, entry.0);
                if let Some(w) = cloexec_update(entry.1, cloexec) {
                    entry.1 = w;
                    writes += 1;
                }
            }
        }
    }
    writes
}

#[test]
fn parses_descriptor_numbers() {
    assert_eq!(parse_fd_name(b"0"), Ok(0));
    assert_eq!(parse_fd_name(b"7"), Ok(7));
    assert_eq!(parse_fd_name(b"1024"), Ok(1024));
    assert_eq!(parse_fd_name(b"007"), Ok(7));
    assert_eq!(parse_fd_name(b""), Ok(0));
    assert_eq!(parse_fd_name(b"2147483647"), Ok(i32::MAX));
}

#[test]
fn rejects_names_that_are_not_numbers() {
    assert_eq!(parse_fd_name(b"."), Err(NameError::NotDecimal));
    assert_eq!(parse_fd_name(b"12a"), Err(NameError::NotDecimal));
    assert_eq!(parse_fd_name(b"-1"), Err(NameError::NotDecimal));
    assert_eq!(parse_fd_name(b"3\0"), Err(NameError::NotDecimal));
    assert_eq!(parse_fd_name(b"2147483648"), Err(NameError::TooLarge));
    assert_eq!(parse_fd_name(b"99999999999999"), Err(NameError::TooLarge));
}

#[test]
fn keep_set_is_sorted() {
    let k = KeepSet::new(vec![9, 2, 5, 2, 0]);
    assert_eq!(k.as_slice(), &[0, 2, 2, 5, 9]);
}

#[test]
fn keep_set_lookup_at_bounds() {
    let k = KeepSet::new(vec![40, 3, 17, 8]);
    assert!(k.contains(3));
    assert!(k.contains(40));
    assert!(k.contains(8));
    assert!(k.contains(17));
    assert!(!k.contains(2));
    assert!(!k.contains(41));
    assert!(!k.contains(9));
    let extremes = KeepSet::new(vec![i32::MAX, 0, i32::MIN]);
    assert!(extremes.contains(i32::MIN));
    assert!(extremes.contains(i32::MAX));
    assert!(extremes.contains(0));
    assert!(!extremes.contains(1));
    assert!(!extremes.contains(i32::MAX - 1));
    let single = KeepSet::new(vec![5]);
    assert!(single.contains(5));
    assert!(!single.contains(4));
    assert!(!single.contains(6));
    let empty = KeepSet::new(vec![]);
    assert!(!empty.contains(0));
}

#[test]
fn cloexec_bit_matches_platform() {
    assert_eq!(FD_CLOEXEC, libc::FD_CLOEXEC);
}

#[test]
fn flag_word_updates() {
    assert_eq!(cloexec_update(0, true), Some(1));
    assert_eq!(cloexec_update(1, true), None);
    assert_eq!(cloexec_update(0, false), None);
    assert_eq!(cloexec_update(1, false), Some(0));
    assert_eq!(cloexec_update(6, true), Some(7));
    assert_eq!(cloexec_update(7, false), Some(6));
    assert_eq!(cloexec_update(-1, false), Some(-2));
    assert_eq!(cloexec_update(-2, true), Some(-1));
}

#[test]
fn entry_decisions() {
    let k = KeepSet::new(vec![0, 1, 2, 5]);
    assert_eq!(entry_action(&k, b"."), Ok(EntryAction::Skip));
    assert_eq!(entry_action(&k, b".."), Ok(EntryAction::Skip));
    assert_eq!(entry_action(&k, b"..."), Err(NameError::NotDecimal));
    assert_eq!(entry_action(&k, b"x"), Err(NameError::NotDecimal));
    assert_eq!(entry_action(&k, b"5"), Ok(EntryAction::Mark { fd: 5, cloexec: false }));
    assert_eq!(entry_action(&k, b"6"), Ok(EntryAction::Mark { fd: 6, cloexec: true }));
    assert_eq!(entry_action(&k, b"0"), Ok(EntryAction::Mark { fd: 0, cloexec: false }));
    assert_eq!(entry_action(&k, b"4294967296"), Err(NameError::TooLarge));
}

#[test]
fn pass_marks_all_but_kept() {
    let k = KeepSet::new(vec![0, 1, 2, 7]);
    let mut table = vec![(0, 0), (1, 1), (2, 0), (3, 0), (4, 1), (7, 1), (9, 2)];
    run_pass(&k, &mut table);
    assert_eq!(table, vec![(0, 0), (1, 0), (2, 0), (3, 1), (4, 1), (7, 0), (9, 3)]);
}

#[test]
fn second_pass_writes_nothing() {
    let k = KeepSet::new(vec![1, 4]);
    let mut table = vec![(0, 0), (1, 1), (3, 0), (4, 0), (5, 1)];
    let first = run_pass(&k, &mut table);
    assert_eq!(first, 3);
    let after_first = table.clone();
    let second = run_pass(&k, &mut table);
    assert_eq!(second, 0);
    assert_eq!(table, after_first);
}

#[test]
fn keep_order_does_not_matter() {
    let a = KeepSet::new(vec![2, 11, 0, 6]);
    let b = KeepSet::new(vec![6, 0, 11, 2]);
    assert_eq!(a.as_slice(), b.as_slice());
    let mut ta = vec![(0, 1), (2, 1), (6, 0), (8, 0), (11, 1)];
    let mut tb = ta.clone();
    run_pass(&a, &mut ta);
    run_pass(&b, &mut tb);
    assert_eq!(ta, tb);
}

#[test]
fn duplicate_keep_numbers_are_harmless() {
    let dup = KeepSet::new(vec![3, 1, 3]);
    let plain = KeepSet::new(vec![1, 3]);
    let mut td = vec![(0, 0), (1, 1), (2, 0), (3, 1), (4, 0)];
    let mut tp = td.clone();
    run_pass(&dup, &mut td);
    run_pass(&plain, &mut tp);
    assert_eq!(td, tp);
    assert_eq!(td, vec![(0, 1), (1, 0), (2, 1), (3, 0), (4, 1)]);
}

#[test]
fn empty_keep_marks_everything() {
    let k = KeepSet::new(vec![]);
    let mut table = vec![(0, 0), (1, 0), (2, 1), (6, 4)];
    run_pass(&k, &mut table);
    for (_, flags) in &table {
        assert_eq!(flags & FD_CLOEXEC, FD_CLOEXEC);
    }
    assert_eq!(table, vec![(0, 1), (1, 1), (2, 1), (6, 5)]);
}

#[test]
fn shared_state_is_send_and_sync() {
    assert_traits();
}
