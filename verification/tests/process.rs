use minios::abi::syscall::{ECHILD, EINVAL, EMFILE, FIRST_FILE_FD, MAX_OPEN_FILES, SEEK_CUR, SEEK_END, SEEK_SET};
use minios::process::{FileDesc, Process, ProcessState, ProcessTable, MAX_PROCS};

fn desc(dir_cluster: u32, dir_index: u32) -> FileDesc {
    FileDesc {
        dir_cluster,
        dir_index,
        first_cluster: 0,
        size: 0,
    }
}

fn spawn(name: &'static str) -> Process {
    Process::new(name)
}

#[test]
fn table_cycles_over_live_slots() {
    let mut table = ProcessTable::new();

    assert_eq!(table.insert(spawn("p0")).expect("insert p0"), 0);
    assert_eq!(table.insert(spawn("p1")).expect("insert p1"), 1);
    assert_eq!(table.insert(spawn("p2")).expect("insert p2"), 2);

    let sequence: Vec<usize> = (0..7).map(|_| table.pick_next().unwrap()).collect();
    assert_eq!(sequence, [0, 1, 2, 0, 1, 2, 0]);

    let removed = table.take(1).expect("slot 1 is live");
    assert_eq!(removed.pid(), 1);

    let sequence: Vec<usize> = (0..4).map(|_| table.pick_next().unwrap()).collect();
    assert_eq!(sequence, [2, 0, 2, 0]);
    assert_eq!(table.len(), 2);
}

#[test]
fn table_rejects_overflow_and_returns_process() {
    let mut table = ProcessTable::new();

    for index in 0..MAX_PROCS {
        assert_eq!(table.insert(spawn("slot")).expect("insert process"), index);
    }
    assert_eq!(table.len(), MAX_PROCS);

    let rejected = table
        .insert(spawn("extra"))
        .expect_err("table must reject a fifth process");
    assert_eq!(rejected.name(), "extra");
}

#[test]
fn table_reports_empty_after_all_exit() {
    let mut table = ProcessTable::new();

    table.insert(spawn("p0")).expect("insert p0");
    table.insert(spawn("p1")).expect("insert p1");

    for pid in [0, 1] {
        table.take(pid).expect("slot is live");
    }

    assert!(table.is_empty());
    assert_eq!(table.pick_next(), None);
}

#[test]
fn blocked_slots_are_skipped_and_woken() {
    let mut table = ProcessTable::new();

    table.insert(spawn("p0")).expect("insert p0");
    table.insert(spawn("p1")).expect("insert p1");

    table.get_mut(0).expect("slot 0 is live").block_on_stdin();

    let sequence: Vec<usize> = (0..3).map(|_| table.pick_next().unwrap()).collect();
    assert_eq!(sequence, [1, 1, 1]);

    table.wake_all_blocked();
    let sequence: Vec<usize> = (0..4).map(|_| table.pick_next().unwrap()).collect();
    assert_eq!(sequence, [0, 1, 0, 1]);
}

#[test]
fn all_blocked_slots_still_report_live() {
    let mut table = ProcessTable::new();

    table.insert(spawn("p0")).expect("insert p0");
    table.get_mut(0).expect("slot 0 is live").block_on_stdin();

    assert_eq!(table.pick_next(), None);
    assert!(!table.is_empty());
}

#[test]
fn exit_ledger_records_and_reaps_each_status_once() {
    let mut table = ProcessTable::new();

    table.record_exit(7, 42);
    table.record_exit(8, 3);

    assert_eq!(table.take_exit(7), Some(42));
    assert_eq!(table.take_exit(7), None);
    assert_eq!(table.take_exit(9), None);
    assert_eq!(table.take_exit(8), Some(3));
}

#[test]
fn exit_ledger_is_bounded_and_drops_the_oldest() {
    let mut table = ProcessTable::new();

    for index in 0..MAX_PROCS + 1 {
        table.record_exit(index, index as u32);
    }

    assert_eq!(table.take_exit(0), None);
    assert_eq!(table.take_exit(MAX_PROCS), Some(MAX_PROCS as u32));
}

#[test]
fn waitpid_blocks_the_caller_and_survives_stdin_wakeup() {
    let mut table = ProcessTable::new();

    table.insert(spawn("parent")).expect("insert parent");
    table.insert(spawn("child")).expect("insert child");

    table.block_waitpid(0, 1).expect("live child must block");
    assert_eq!(table.get(0).unwrap().waiting_on(), Some(1));
    assert_eq!(table.pick_next(), Some(1));

    table.get_mut(0).unwrap().block_on_stdin();
    assert_eq!(table.get(0).unwrap().waiting_on(), Some(1));

    table.wake_all_blocked();
    assert!(table.get(0).unwrap().is_runnable());
    table.block_waitpid(0, 1).expect("retry must re-block");
    assert_eq!(table.get(0).unwrap().waiting_on(), Some(1));

    assert_eq!(table.block_waitpid(0, 0), Err(ECHILD));
    assert_eq!(table.block_waitpid(0, 99), Err(ECHILD));
    assert_eq!(table.get(0).unwrap().waiting_on(), Some(1));
}

#[test]
fn waiters_wake_when_the_target_exits() {
    let mut table = ProcessTable::new();

    for name in ["w0", "w1", "child"] {
        table.insert(spawn(name)).expect("insert");
    }
    table.block_waitpid(0, 2).expect("live child must block");
    table.block_waitpid(1, 2).expect("live child must block");
    assert_eq!(table.pick_next(), Some(2));

    table.wake_on_exit(2);
    let sequence: Vec<usize> = (0..3).map(|_| table.pick_next().unwrap()).collect();
    assert_eq!(sequence, [0, 1, 2]);
}

#[test]
fn waitpid_rejects_wait_cycles() {
    let mut table = ProcessTable::new();

    for name in ["a", "b", "c"] {
        table.insert(spawn(name)).expect("insert");
    }
    table.block_waitpid(0, 1).expect("a waits b");
    table.block_waitpid(1, 2).expect("b waits c");

    assert_eq!(table.block_waitpid(2, 0), Err(EINVAL));
    assert!(table.get(2).unwrap().is_runnable());
    assert_eq!(table.block_waitpid(2, 1), Err(EINVAL));
    assert!(table.get(2).unwrap().is_runnable());
}

#[test]
fn process_allocates_fds_up_to_the_table_limit() {
    let mut process = spawn("fd-proc");

    for index in 0..MAX_OPEN_FILES {
        let fd = process
            .alloc_fd(desc(9, index as u32), false)
            .expect("slot must be free");
        assert_eq!(fd, FIRST_FILE_FD + index);
    }
    assert_eq!(process.alloc_fd(desc(9, 99), false), Err(EMFILE));
}

#[test]
fn fd_tables_are_isolated_per_process() {
    let mut p0 = spawn("fd-a");
    let mut p1 = spawn("fd-b");

    let fd0 = p0.alloc_fd(desc(9, 0), false).expect("p0 slot must be free");
    let fd1 = p1.alloc_fd(desc(8, 7), true).expect("p1 slot must be free");
    assert_eq!(fd0, FIRST_FILE_FD);
    assert_eq!(fd1, FIRST_FILE_FD);

    assert_eq!(
        p0.fd_mut(fd0).map(|fd| fd.desc().dir_location()),
        Some((9, 0))
    );
    assert_eq!(
        p1.fd_mut(fd1).map(|fd| fd.desc().dir_location()),
        Some((8, 7))
    );
    assert!(p1.fd_mut(fd1 + 1).is_none());
}

#[test]
fn close_fd_frees_the_slot_and_rejects_unknown_fds() {
    let mut process = spawn("fd-close");

    let fd = process.alloc_fd(desc(9, 0), false).expect("slot must be free");
    assert!(process.close_fd(fd));
    assert!(!process.close_fd(fd));
    assert!(process.fd_mut(fd).is_none());
    assert!(!process.close_fd(0));
    assert!(!process.close_fd(FIRST_FILE_FD + 100));

    let again = process
        .alloc_fd(desc(9, 1), false)
        .expect("closed slot must be reusable");
    assert_eq!(again, fd);
}

#[test]
fn fd_tracks_offset_and_direction() {
    let mut process = spawn("fd-io");
    let fd = process.alloc_fd(desc(9, 0), true).expect("slot must be free");

    let entry = process.fd_mut(fd).expect("fd is live");
    assert!(entry.writable());
    assert_eq!(entry.offset(), 0);
    entry.advance(5);
    assert_eq!(entry.offset(), 5);
    entry.set_offset(100);
    assert_eq!(entry.offset(), 100);
    assert_eq!(entry.desc().dir_location(), (9, 0));
}

#[test]
fn revoke_file_fds_crosses_process_boundaries() {
    let mut table = ProcessTable::new();
    let mut p0 = spawn("fd-r0");
    let mut p1 = spawn("fd-r1");

    let keep0 = p0.alloc_fd(desc(9, 1), false).expect("p0 slot must be free");
    let gone0 = p0.alloc_fd(desc(4, 2), false).expect("p0 slot must be free");
    let gone1 = p1.alloc_fd(desc(4, 2), true).expect("p1 slot must be free");
    let keep1 = p1.alloc_fd(desc(9, 3), false).expect("p1 slot must be free");
    table.insert(p0).expect("insert p0");
    table.insert(p1).expect("insert p1");

    table.revoke_file_fds(4, 2);

    let p0 = table.get_mut(0).expect("p0 is live");
    assert!(p0.fd_mut(gone0).is_none());
    assert!(p0.fd_mut(keep0).is_some());
    let p1 = table.get_mut(1).expect("p1 is live");
    assert!(p1.fd_mut(gone1).is_none());
    assert!(p1.fd_mut(keep1).is_some());
}

#[test]
fn fresh_process_starts_with_empty_fd_table() {
    let mut table = ProcessTable::new();
    let mut p0 = spawn("fd-old");
    p0.alloc_fd(desc(9, 0), false).expect("slot must be free");
    p0.alloc_fd(desc(9, 1), false).expect("slot must be free");
    table.insert(p0).expect("insert p0");

    table.take(0).expect("pid 0 is live");

    let pid = table.insert(spawn("fd-new")).expect("insert p1");
    let fresh = table.get_mut(pid).expect("p1 is live");
    for fd in FIRST_FILE_FD..FIRST_FILE_FD + MAX_OPEN_FILES {
        assert!(fresh.fd_mut(fd).is_none());
    }
}

#[test]
fn insert_assigns_fresh_monotonic_pids() {
    let mut table = ProcessTable::new();

    assert_eq!(table.insert(spawn("mono-a")).expect("insert p0"), 0);
    assert_eq!(table.insert(spawn("mono-b")).expect("insert p1"), 1);
    assert_eq!(table.get(0).expect("p0 is live").pid(), 0);

    table.take(0).expect("pid 0 is live");

    let pid = table.insert(spawn("mono-c")).expect("insert p2");
    assert_eq!(pid, 2);
    assert_eq!(table.get(2).expect("p2 is live").pid(), 2);
    assert!(table.get(0).is_none());
}

#[test]
fn take_oldest_drains_in_spawn_order() {
    let mut table = ProcessTable::new();

    for name in ["d0", "d1", "d2"] {
        table.insert(spawn(name)).expect("insert process");
    }

    for expected_pid in 0..3usize {
        let process = table.take_oldest().expect("process must be live");
        assert_eq!(process.pid(), expected_pid);
    }
    assert!(table.take_oldest().is_none());
    assert!(table.is_empty());
}

#[test]
fn table_fill_never_moves_live_processes() {
    let mut table = ProcessTable::new();
    let mut pointers = Vec::new();

    for index in 0..MAX_PROCS {
        let name = ["fill-", "0123456789abcdef".get(index..index + 1).unwrap()].concat();
        table
            .insert(Process::new(Box::leak(name.into_boxed_str())))
            .expect("insert process");
        pointers.push(format!("{:p}", table.get(index).expect("process is live")));
    }

    for (pid, pointer) in pointers.iter().enumerate() {
        let process = table.get(pid).expect("process is live");
        assert_eq!(format!("{:p}", process), *pointer);
    }
}

#[test]
fn relocated_fds_follow_their_entry() {
    let mut table = ProcessTable::new();
    let mut p0 = spawn("mv");
    let fd = p0.alloc_fd(desc(4, 2), true).expect("slot must be free");
    table.insert(p0).expect("insert");
    table.relocate_file_fds(4, 2, 6, 1);
    let p0 = table.get_mut(0).unwrap();
    assert_eq!(p0.fd_mut(fd).unwrap().desc().dir_location(), (6, 1));
}

#[test]
fn stdin_block_does_not_replace_a_pid_wait() {
    let mut process = spawn("w");
    process.block_on_pid(3);
    process.block_on_stdin();
    assert_eq!(process.waiting_on(), Some(3));
    process.wake();
    process.block_on_stdin();
    assert_eq!(process.waiting_on(), None);
    assert!(!process.is_runnable());
    assert_eq!(ProcessState::Runnable, ProcessState::Runnable);
}

fn file_of_size(size: u32, offset: u64) -> minios::process::FileFd {
    minios::process::FileFd {
        desc: FileDesc { dir_cluster: 2, dir_index: 0, first_cluster: 3, size },
        offset,
        writable: false,
    }
}

#[test]
fn seek_moves_from_start_current_and_end() {
    let mut fd = file_of_size(100, 10);
    assert_eq!(fd.seek(5, SEEK_SET), Ok(5));
    assert_eq!(fd.seek(7, SEEK_CUR), Ok(12));
    assert_eq!(fd.seek(-12, SEEK_CUR), Ok(0));
    assert_eq!(fd.seek(-1, SEEK_END), Ok(99));
    assert_eq!(fd.seek(20, SEEK_END), Ok(120));
    assert_eq!(fd.offset(), 120);
}

#[test]
fn seek_refuses_negative_positions_and_unknown_whence() {
    let mut fd = file_of_size(100, 10);
    assert_eq!(fd.seek(-1, SEEK_SET), Err(EINVAL));
    assert_eq!(fd.seek(-11, SEEK_CUR), Err(EINVAL));
    assert_eq!(fd.seek(-101, SEEK_END), Err(EINVAL));
    assert_eq!(fd.seek(0, 3), Err(EINVAL));
    assert_eq!(fd.offset(), 10);
    let mut far = file_of_size(0, u64::MAX);
    assert_eq!(far.seek(1, SEEK_CUR), Err(EINVAL));
    assert_eq!(far.seek(0, SEEK_CUR), Ok(u64::MAX));
}
