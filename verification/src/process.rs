//! The books of the kernel's processes: their run states, their file
//! descriptors, and the table that picks which one runs next.
//!
//! A process here is what the scheduler reads and writes: its name, its pid,
//! whether it can run or what it waits for, and its file descriptors. The
//! address space, trap stack and saved context that a running process also
//! owns are built and switched by the kernel around these books.

use vstd::prelude::*;
use vstd::string::StringSliceAdditionalSpecFns;
use crate::abi::manifest::IMAGE_MAX_COUNT;
use crate::abi::syscall::{
    ECHILD, EINVAL, EMFILE, FIRST_FILE_FD, MAX_OPEN_FILES, SEEK_CUR, SEEK_END, SEEK_SET,
};

verus! {

/// How many processes can live at once: as many images as a manifest declares.
pub const MAX_PROCS: usize = IMAGE_MAX_COUNT;

/// Whether a process can be dispatched, or what it waits for.
#[derive(Debug, Clone, Copy, PartialEq, Eq, Structural)]
pub enum ProcessState {
    /// Ready for the next dispatch.
    Runnable,
    /// `read` stopped for input; a byte on stdin makes it runnable again.
    BlockedOnStdin,
    /// `waitpid` waits for the process with this pid to end.
    BlockedOnPid(usize),
}

/// Where a file lives on the FAT32 volume: the directory cluster and index of
/// its entry, which a write updates, and its first cluster and size.
#[derive(Debug, Clone, Copy, PartialEq, Eq, Structural)]
pub struct FileDesc {
    pub dir_cluster: u32,
    pub dir_index: u32,
    pub first_cluster: u32,
    pub size: u32,
}

impl FileDesc {
    /// The directory cluster and index of the file's entry.
    pub fn dir_location(&self) -> (r: (u32, u32))
        ensures
            r == (self.dir_cluster, self.dir_index),
    {
        (self.dir_cluster, self.dir_index)
    }

    /// Moves the entry's location, as a rename into another directory does.
    pub fn set_dir_location(&mut self, cluster: u32, index: u32)
        ensures
            *final(self) == (FileDesc { dir_cluster: cluster, dir_index: index, ..*old(self) }),
    {
        self.dir_cluster = cluster;
        self.dir_index = index;
    }
}

/// One open file of a process: where it lives, the next byte to read or
/// write, and whether it was opened for writing (`create`) or reading.
#[derive(Debug, Clone, Copy, PartialEq, Eq, Structural)]
pub struct FileFd {
    pub desc: FileDesc,
    pub offset: u64,
    pub writable: bool,
}

impl FileFd {
    pub fn desc(&self) -> (r: &FileDesc)
        ensures
            *r == self.desc,
    {
        &self.desc
    }

    /// The location record, for a write to update the size or first cluster.
    pub fn desc_mut(&mut self) -> (r: &mut FileDesc)
        ensures
            *r == old(self).desc,
            *final(self) == (FileFd { desc: *final(r), ..*old(self) }),
    {
        &mut self.desc
    }

    pub fn offset(&self) -> (r: u64)
        ensures
            r == self.offset,
    {
        self.offset
    }

    /// Sets the position, as `lseek` does.
    pub fn set_offset(&mut self, offset: u64)
        ensures
            *final(self) == (FileFd { offset, ..*old(self) }),
    {
        self.offset = offset;
    }

    /// Moves the position past `count` bytes read or written.
    pub fn advance(&mut self, count: u64)
        requires
            old(self).offset + count <= u64::MAX,
        ensures
            *final(self) == (FileFd { offset: (old(self).offset + count) as u64, ..*old(self) }),
    {
        self.offset = self.offset + count;
    }

    pub fn writable(&self) -> (r: bool)
        ensures
            r == self.writable,
    {
        self.writable
    }

    /// Moves the position as `lseek` does: to `offset` from the start, from
    /// the current position, or from the file's current size. A whence that
    /// is none of these, or a position below zero or past `u64::MAX`, is
    /// `EINVAL` and leaves the position as it was.
    pub fn seek(&mut self, offset: isize, whence: usize) -> (r: Result<u64, isize>)
        ensures
            ({
                let base: int = if whence == SEEK_SET {
                    0
                } else if whence == SEEK_CUR {
                    old(self).offset as int
                } else {
                    old(self).desc.size as int
                };
                if whence != SEEK_SET && whence != SEEK_CUR && whence != SEEK_END {
                    r == Err::<u64, isize>(EINVAL) && *final(self) == *old(self)
                } else if base + offset < 0 || base + offset > u64::MAX {
                    r == Err::<u64, isize>(EINVAL) && *final(self) == *old(self)
                } else {
                    r == Ok::<u64, isize>((base + offset) as u64) && *final(self) == (FileFd {
                        offset: (base + offset) as u64,
                        ..*old(self)
                    })
                }
            }),
    {
        let base: u64 = if whence == SEEK_SET {
            0
        } else if whence == SEEK_CUR {
            self.offset
        } else if whence == SEEK_END {
            self.desc.size as u64
        } else {
            return Err(EINVAL);
        };
        let next: i128 = base as i128 + offset as i128;
        if next < 0 || next > u64::MAX as i128 {
            return Err(EINVAL);
        }
        self.offset = next as u64;
        Ok(self.offset)
    }
}

/// The slot of descriptor `fd`, if `fd` is a file descriptor number.
pub open spec fn slot_of(fd: usize) -> int {
    fd - FIRST_FILE_FD
}

/// The first free slot of `slots`, or their number.
pub open spec fn first_free_slot(slots: Seq<Option<FileFd>>, i: int) -> int
    decreases slots.len() - i,
{
    if 0 <= i < slots.len() && slots[i] is Some {
        first_free_slot(slots, i + 1)
    } else {
        i
    }
}

/// The descriptors of one process; descriptor `FIRST_FILE_FD + i` is slot `i`.
#[derive(Debug)]
pub struct FileFdTable {
    slots: [Option<FileFd>; MAX_OPEN_FILES],
}

impl View for FileFdTable {
    type V = Seq<Option<FileFd>>;

    closed spec fn view(&self) -> Seq<Option<FileFd>> {
        self.slots@
    }
}

proof fn lemma_first_free_slot(slots: Seq<Option<FileFd>>, i: int)
    requires
        0 <= i <= slots.len(),
    ensures
        i <= first_free_slot(slots, i) <= slots.len(),
        first_free_slot(slots, i) < slots.len() ==> slots[first_free_slot(slots, i)] is None,
    decreases slots.len() - i,
{
    if i < slots.len() && slots[i] is Some {
        lemma_first_free_slot(slots, i + 1);
    }
}

impl FileFdTable {
    pub fn new() -> (r: Self)
        ensures
            r@ == Seq::new(MAX_OPEN_FILES as nat, |i: int| None::<FileFd>),
    {
        let slots: [Option<FileFd>; MAX_OPEN_FILES] = vstd::array::array_fill_for_copy_types(None);
        assert(slots@ =~= Seq::new(MAX_OPEN_FILES as nat, |i: int| None::<FileFd>));
        FileFdTable { slots }
    }

    /// The open file behind `fd`, to read or update in place.
    pub fn fd_mut(&mut self, fd: usize) -> (r: Option<&mut FileFd>)
        ensures
            !(FIRST_FILE_FD <= fd && slot_of(fd) < old(self)@.len() && old(self)@[slot_of(fd)] is Some)
                ==> r is None && final(self)@ == old(self)@,
            FIRST_FILE_FD <= fd && slot_of(fd) < old(self)@.len() && old(self)@[slot_of(fd)] is Some
                ==> (r matches Some(f) && *f == old(self)@[slot_of(fd)]->0 && final(self)@ == old(
                self,
            )@.update(slot_of(fd), Some(*final(f)))),
    {
        if fd < FIRST_FILE_FD || fd - FIRST_FILE_FD >= self.slots.len() {
            return None;
        }
        let slot = fd - FIRST_FILE_FD;
        if self.slots[slot].is_none() {
            return None;
        }
        match &mut self.slots[slot] {
            Some(entry) => Some(entry),
            None => None,
        }
    }

    /// Opens `desc` in the lowest free slot and returns its descriptor, or
    /// `EMFILE` when every slot is taken.
    pub fn alloc_fd(&mut self, desc: FileDesc, writable: bool) -> (r: Result<usize, isize>)
        ensures
            first_free_slot(old(self)@, 0) == old(self)@.len() ==> r == Err::<usize, isize>(EMFILE)
                && final(self)@ == old(self)@,
            first_free_slot(old(self)@, 0) < old(self)@.len() ==> r == Ok::<usize, isize>(
                (FIRST_FILE_FD + first_free_slot(old(self)@, 0)) as usize,
            ) && final(self)@ == old(self)@.update(
                first_free_slot(old(self)@, 0),
                Some(FileFd { desc, offset: 0, writable }),
            ),
    {
        let ghost before = self@;
        proof {
            lemma_first_free_slot(before, 0);
        }
        let mut i: usize = 0;
        while i < self.slots.len() && self.slots[i].is_some()
            invariant
                self@ == before,
                i <= before.len(),
                first_free_slot(before, 0) == first_free_slot(before, i as int),
            decreases before.len() - i,
        {
            i = i + 1;
        }
        if i == self.slots.len() {
            return Err(EMFILE);
        }
        self.slots[i] = Some(FileFd { desc, offset: 0, writable });
        Ok(FIRST_FILE_FD + i)
    }

    /// Closes `fd`; `false` when it was not open.
    pub fn close_fd(&mut self, fd: usize) -> (r: bool)
        ensures
            r == (FIRST_FILE_FD <= fd && slot_of(fd) < old(self)@.len() && old(self)@[slot_of(
                fd,
            )] is Some),
            r ==> final(self)@ == old(self)@.update(slot_of(fd), None),
            !r ==> final(self)@ == old(self)@,
    {
        if fd < FIRST_FILE_FD || fd - FIRST_FILE_FD >= self.slots.len() {
            return false;
        }
        let slot = fd - FIRST_FILE_FD;
        if self.slots[slot].is_none() {
            return false;
        }
        self.slots[slot] = None;
        true
    }

    /// Closes every descriptor open on the entry at `(dir_cluster, dir_index)`.
    pub fn revoke_fd_at(&mut self, dir_cluster: u32, dir_index: u32)
        ensures
            final(self)@ == revoked(old(self)@, dir_cluster, dir_index),
    {
        let ghost before = self@;
        let mut i: usize = 0;
        while i < self.slots.len()
            invariant
                self@.len() == before.len(),
                i <= before.len(),
                forall|k: int| 0 <= k < i ==> self@[k] == revoked(before, dir_cluster, dir_index)[k],
                forall|k: int| i <= k < before.len() ==> self@[k] == before[k],
            decreases before.len() - i,
        {
            if let Some(fd) = self.slots[i] {
                if fd.desc.dir_cluster == dir_cluster && fd.desc.dir_index == dir_index {
                    self.slots[i] = None;
                }
            }
            i = i + 1;
        }
        assert(self@ =~= revoked(before, dir_cluster, dir_index));
    }

    /// Points the descriptors open on `(old_cluster, old_index)` at
    /// `(new_cluster, new_index)`, where the entry moved.
    pub fn relocate_fd_at(&mut self, old_cluster: u32, old_index: u32, new_cluster: u32, new_index: u32)
        ensures
            final(self)@ == relocated(old(self)@, old_cluster, old_index, new_cluster, new_index),
    {
        let ghost before = self@;
        let mut i: usize = 0;
        while i < self.slots.len()
            invariant
                self@.len() == before.len(),
                i <= before.len(),
                forall|k: int|
                    0 <= k < i ==> self@[k] == relocated(
                        before,
                        old_cluster,
                        old_index,
                        new_cluster,
                        new_index,
                    )[k],
                forall|k: int| i <= k < before.len() ==> self@[k] == before[k],
            decreases before.len() - i,
        {
            if let Some(fd) = self.slots[i] {
                if fd.desc.dir_cluster == old_cluster && fd.desc.dir_index == old_index {
                    let mut moved = fd;
                    moved.desc.dir_cluster = new_cluster;
                    moved.desc.dir_index = new_index;
                    self.slots[i] = Some(moved);
                }
            }
            i = i + 1;
        }
        assert(self@ =~= relocated(before, old_cluster, old_index, new_cluster, new_index));
    }
}

/// Whether `slot` holds a descriptor open on `(cluster, index)`.
pub open spec fn open_on(slot: Option<FileFd>, cluster: u32, index: u32) -> bool {
    slot matches Some(fd) && fd.desc.dir_cluster == cluster && fd.desc.dir_index == index
}

/// `slots` with every descriptor open on `(cluster, index)` closed.
pub open spec fn revoked(slots: Seq<Option<FileFd>>, cluster: u32, index: u32) -> Seq<Option<FileFd>> {
    slots.map_values(
        |slot: Option<FileFd>|
            if open_on(slot, cluster, index) {
                None
            } else {
                slot
            },
    )
}

/// `slots` with every descriptor open on `(old_cluster, old_index)` moved.
pub open spec fn relocated(
    slots: Seq<Option<FileFd>>,
    old_cluster: u32,
    old_index: u32,
    new_cluster: u32,
    new_index: u32,
) -> Seq<Option<FileFd>> {
    slots.map_values(
        |slot: Option<FileFd>|
            if open_on(slot, old_cluster, old_index) {
                Some(
                    FileFd {
                        desc: FileDesc {
                            dir_cluster: new_cluster,
                            dir_index: new_index,
                            ..slot->0.desc
                        },
                        ..slot->0
                    },
                )
            } else {
                slot
            },
    )
}

// ---------------------------------------------------------------------------
// Processes.

/// A process as the scheduler keeps it. `pid` is `usize::MAX` until a table
/// numbers it.
#[derive(Debug)]
pub struct Process {
    name: &'static str,
    pid: usize,
    state: ProcessState,
    file_fds: FileFdTable,
}

pub struct ProcessView {
    pub name: Seq<u8>,
    pub pid: usize,
    pub state: ProcessState,
    pub fds: Seq<Option<FileFd>>,
}

impl View for Process {
    type V = ProcessView;

    closed spec fn view(&self) -> ProcessView {
        ProcessView {
            name: self.name.spec_bytes(),
            pid: self.pid,
            state: self.state,
            fds: self.file_fds@,
        }
    }
}

impl Process {
    /// The books of a freshly started process: runnable, no pid yet, no file open.
    pub fn new(name: &'static str) -> (r: Self)
        ensures
            r@ == (ProcessView {
                name: name.spec_bytes(),
                pid: usize::MAX,
                state: ProcessState::Runnable,
                fds: Seq::new(MAX_OPEN_FILES as nat, |i: int| None::<FileFd>),
            }),
    {
        Process { name, pid: usize::MAX, state: ProcessState::Runnable, file_fds: FileFdTable::new() }
    }

    pub fn name(&self) -> (r: &'static str)
        ensures
            r.spec_bytes() == self@.name,
    {
        self.name
    }

    /// The pid the table gave, or `usize::MAX` before that.
    pub fn pid(&self) -> (r: usize)
        ensures
            r == self@.pid,
    {
        self.pid
    }

    /// Waits for stdin, unless `waitpid` already made the process wait for a pid.
    pub fn block_on_stdin(&mut self)
        ensures
            final(self)@ == (ProcessView {
                state: if old(self)@.state == ProcessState::Runnable {
                    ProcessState::BlockedOnStdin
                } else {
                    old(self)@.state
                },
                ..old(self)@
            }),
    {
        if self.is_runnable() {
            self.state = ProcessState::BlockedOnStdin;
        }
    }

    /// Waits for the process `pid` to end.
    pub fn block_on_pid(&mut self, pid: usize)
        ensures
            final(self)@ == (ProcessView { state: ProcessState::BlockedOnPid(pid), ..old(self)@ }),
    {
        self.state = ProcessState::BlockedOnPid(pid);
    }

    /// The pid this process waits for, if it waits for one.
    pub fn waiting_on(&self) -> (r: Option<usize>)
        ensures
            r == waited_pid(self@.state),
    {
        match self.state {
            ProcessState::BlockedOnPid(pid) => Some(pid),
            _ => None,
        }
    }

    /// Makes the process runnable again.
    pub fn wake(&mut self)
        ensures
            final(self)@ == (ProcessView { state: ProcessState::Runnable, ..old(self)@ }),
    {
        self.state = ProcessState::Runnable;
    }

    pub fn is_runnable(&self) -> (r: bool)
        ensures
            r == (self@.state == ProcessState::Runnable),
    {
        match self.state {
            ProcessState::Runnable => true,
            _ => false,
        }
    }

    /// The open file behind `fd`, to read or update in place.
    pub fn fd_mut(&mut self, fd: usize) -> (r: Option<&mut FileFd>)
        ensures
            !(FIRST_FILE_FD <= fd && slot_of(fd) < old(self)@.fds.len() && old(self)@.fds[slot_of(
                fd,
            )] is Some) ==> r is None && final(self)@ == old(self)@,
            FIRST_FILE_FD <= fd && slot_of(fd) < old(self)@.fds.len() && old(self)@.fds[slot_of(fd)] is Some
                ==> (r matches Some(f) && *f == old(self)@.fds[slot_of(fd)]->0 && final(self)@ == (
            ProcessView { fds: old(self)@.fds.update(slot_of(fd), Some(*final(f))), ..old(self)@ })),
    {
        self.file_fds.fd_mut(fd)
    }

    /// Opens `desc` on the lowest free descriptor; `EMFILE` when none is free.
    pub fn alloc_fd(&mut self, desc: FileDesc, writable: bool) -> (r: Result<usize, isize>)
        ensures
            first_free_slot(old(self)@.fds, 0) == old(self)@.fds.len() ==> r == Err::<usize, isize>(
                EMFILE,
            ) && final(self)@ == old(self)@,
            first_free_slot(old(self)@.fds, 0) < old(self)@.fds.len() ==> r == Ok::<usize, isize>(
                (FIRST_FILE_FD + first_free_slot(old(self)@.fds, 0)) as usize,
            ) && final(self)@ == (ProcessView {
                fds: old(self)@.fds.update(
                    first_free_slot(old(self)@.fds, 0),
                    Some(FileFd { desc, offset: 0, writable }),
                ),
                ..old(self)@
            }),
    {
        self.file_fds.alloc_fd(desc, writable)
    }

    /// Closes `fd`; `false` when it was not open.
    pub fn close_fd(&mut self, fd: usize) -> (r: bool)
        ensures
            r == (FIRST_FILE_FD <= fd && slot_of(fd) < old(self)@.fds.len() && old(self)@.fds[slot_of(
                fd,
            )] is Some),
            r ==> final(self)@ == (ProcessView {
                fds: old(self)@.fds.update(slot_of(fd), None),
                ..old(self)@
            }),
            !r ==> final(self)@ == old(self)@,
    {
        self.file_fds.close_fd(fd)
    }

    /// Closes the descriptors open on the entry `(dir_cluster, dir_index)`.
    pub fn revoke_fd_at(&mut self, dir_cluster: u32, dir_index: u32)
        ensures
            final(self)@ == (ProcessView {
                fds: revoked(old(self)@.fds, dir_cluster, dir_index),
                ..old(self)@
            }),
    {
        self.file_fds.revoke_fd_at(dir_cluster, dir_index);
    }

    /// Follows the entry `(old_cluster, old_index)` to `(new_cluster, new_index)`.
    pub fn relocate_fd_at(&mut self, old_cluster: u32, old_index: u32, new_cluster: u32, new_index: u32)
        ensures
            final(self)@ == (ProcessView {
                fds: relocated(old(self)@.fds, old_cluster, old_index, new_cluster, new_index),
                ..old(self)@
            }),
    {
        self.file_fds.relocate_fd_at(old_cluster, old_index, new_cluster, new_index);
    }
}

/// The pid a process in `state` waits for, if any.
pub open spec fn waited_pid(state: ProcessState) -> Option<usize> {
    match state {
        ProcessState::BlockedOnPid(pid) => Some(pid),
        _ => None,
    }
}

// ---------------------------------------------------------------------------
// The process table.

/// The live processes in the order they were inserted, the next pid to hand
/// out, the pid dispatched last, and the exit statuses not yet collected by
/// `waitpid` (at most `MAX_PROCS`, oldest first).
pub struct ProcessTable {
    procs: Vec<Process>,
    next_pid: usize,
    last_picked: Option<usize>,
    exits: Vec<(usize, u32)>,
}

pub struct TableView {
    pub procs: Seq<ProcessView>,
    pub next_pid: usize,
    pub last_picked: Option<usize>,
    pub exits: Seq<(usize, u32)>,
}

/// The views of `procs`.
pub open spec fn process_views(procs: Seq<Process>) -> Seq<ProcessView> {
    procs.map_values(|p: Process| p@)
}

impl View for ProcessTable {
    type V = TableView;

    closed spec fn view(&self) -> TableView {
        TableView {
            procs: process_views(self.procs@),
            next_pid: self.next_pid,
            last_picked: self.last_picked,
            exits: self.exits@,
        }
    }
}

/// Pids rise in insertion order and stay below the next pid; the table and
/// its ledger hold at most `MAX_PROCS` entries each.
pub open spec fn table_ok(t: TableView) -> bool {
    &&& t.procs.len() <= MAX_PROCS
    &&& t.exits.len() <= MAX_PROCS
    &&& forall|i: int, j: int| 0 <= i < j < t.procs.len() ==> (#[trigger] t.procs[i]).pid < (
    #[trigger] t.procs[j]).pid
    &&& forall|i: int| 0 <= i < t.procs.len() ==> (#[trigger] t.procs[i]).pid < t.next_pid
}

/// The index of the live process with `pid`, or the number of processes.
pub open spec fn pid_index(procs: Seq<ProcessView>, pid: usize) -> int
    decreases procs.len(),
{
    if procs.len() == 0 {
        0
    } else if procs[0].pid == pid {
        0
    } else {
        1 + pid_index(procs.drop_first(), pid)
    }
}

/// Where the round-robin scan starts: right after the process dispatched
/// last, or at the front when that process is gone or none was dispatched.
pub open spec fn resume_index(t: TableView) -> int {
    match t.last_picked {
        Some(last) => if pid_index(t.procs, last) < t.procs.len() {
            pid_index(t.procs, last) + 1
        } else {
            0
        },
        None => 0,
    }
}

/// The first offset at or after `off` from `start` whose process can run,
/// going around the table; the number of processes when none can.
pub open spec fn runnable_offset(procs: Seq<ProcessView>, start: int, off: int) -> int
    decreases procs.len() - off,
{
    if 0 <= off < procs.len() && procs[(start + off) % (procs.len() as int)].state
        != ProcessState::Runnable {
        runnable_offset(procs, start, off + 1)
    } else {
        off
    }
}

/// The pid `pick_next` dispatches, if any.
pub open spec fn picked(t: TableView) -> Option<usize> {
    let off = runnable_offset(t.procs, resume_index(t), 0);
    if off < t.procs.len() {
        Some(t.procs[(resume_index(t) + off) % (t.procs.len() as int)].pid)
    } else {
        None
    }
}

/// What the live process `pid` waits for, if it is live and waits for a pid.
pub open spec fn waits_for(procs: Seq<ProcessView>, pid: usize) -> Option<usize> {
    if pid_index(procs, pid) < procs.len() {
        waited_pid(procs[pid_index(procs, pid)].state)
    } else {
        None
    }
}

/// Whether following the waits from `cursor`, for at most `steps` steps,
/// reaches `caller`.
pub open spec fn chain_reaches(procs: Seq<ProcessView>, cursor: usize, caller: usize, steps: nat) -> bool
    decreases steps,
{
    if steps == 0 {
        false
    } else {
        match waits_for(procs, cursor) {
            None => false,
            Some(next) => next == caller || chain_reaches(procs, next, caller, (steps - 1) as nat),
        }
    }
}

/// The index of the first exit status of `pid`, or the ledger's length.
pub open spec fn exit_index(exits: Seq<(usize, u32)>, pid: usize) -> int
    decreases exits.len(),
{
    if exits.len() == 0 {
        0
    } else if exits[0].0 == pid {
        0
    } else {
        1 + exit_index(exits.drop_first(), pid)
    }
}

/// The ledger after recording `(pid, code)`: the oldest entry goes when the
/// ledger is full.
pub open spec fn recorded(exits: Seq<(usize, u32)>, pid: usize, code: u32) -> Seq<(usize, u32)> {
    if exits.len() == MAX_PROCS {
        exits.drop_first().push((pid, code))
    } else {
        exits.push((pid, code))
    }
}

proof fn lemma_pid_index(procs: Seq<ProcessView>, pid: usize)
    ensures
        0 <= pid_index(procs, pid) <= procs.len(),
        pid_index(procs, pid) < procs.len() ==> procs[pid_index(procs, pid)].pid == pid,
        forall|k: int| 0 <= k < pid_index(procs, pid) ==> (#[trigger] procs[k]).pid != pid,
    decreases procs.len(),
{
    if procs.len() > 0 && procs[0].pid != pid {
        let rest = procs.drop_first();
        lemma_pid_index(rest, pid);
        assert forall|k: int| 0 <= k < pid_index(procs, pid) implies (#[trigger] procs[k]).pid != pid by {
            if k > 0 {
                assert(procs[k] == rest[k - 1]);
            }
        }
        if pid_index(procs, pid) < procs.len() {
            assert(procs[pid_index(procs, pid)] == rest[pid_index(rest, pid)]);
        }
    }
}

proof fn lemma_pid_index_at(procs: Seq<ProcessView>, pid: usize, i: int)
    requires
        0 <= i <= procs.len(),
        forall|k: int| 0 <= k < i ==> (#[trigger] procs[k]).pid != pid,
        i == procs.len() || procs[i].pid == pid,
    ensures
        pid_index(procs, pid) == i,
    decreases i,
{
    if i > 0 {
        let rest = procs.drop_first();
        assert forall|k: int| 0 <= k < i - 1 implies (#[trigger] rest[k]).pid != pid by {
            assert(rest[k] == procs[k + 1]);
        }
        if i < procs.len() {
            assert(rest[i - 1] == procs[i]);
        }
        lemma_pid_index_at(rest, pid, i - 1);
    }
}

proof fn lemma_exit_index(exits: Seq<(usize, u32)>, pid: usize)
    ensures
        0 <= exit_index(exits, pid) <= exits.len(),
        exit_index(exits, pid) < exits.len() ==> exits[exit_index(exits, pid)].0 == pid,
        forall|k: int| 0 <= k < exit_index(exits, pid) ==> (#[trigger] exits[k]).0 != pid,
    decreases exits.len(),
{
    if exits.len() > 0 && exits[0].0 != pid {
        let rest = exits.drop_first();
        lemma_exit_index(rest, pid);
        assert forall|k: int| 0 <= k < exit_index(exits, pid) implies (#[trigger] exits[k]).0 != pid by {
            if k > 0 {
                assert(exits[k] == rest[k - 1]);
            }
        }
        if exit_index(exits, pid) < exits.len() {
            assert(exits[exit_index(exits, pid)] == rest[exit_index(rest, pid)]);
        }
    }
}

proof fn lemma_exit_index_at(exits: Seq<(usize, u32)>, pid: usize, i: int)
    requires
        0 <= i <= exits.len(),
        forall|k: int| 0 <= k < i ==> (#[trigger] exits[k]).0 != pid,
        i == exits.len() || exits[i].0 == pid,
    ensures
        exit_index(exits, pid) == i,
    decreases i,
{
    if i > 0 {
        let rest = exits.drop_first();
        assert forall|k: int| 0 <= k < i - 1 implies (#[trigger] rest[k]).0 != pid by {
            assert(rest[k] == exits[k + 1]);
        }
        if i < exits.len() {
            assert(rest[i - 1] == exits[i]);
        }
        lemma_exit_index_at(rest, pid, i - 1);
    }
}

proof fn lemma_runnable_offset(procs: Seq<ProcessView>, start: int, off: int)
    requires
        0 <= off <= procs.len(),
    ensures
        off <= runnable_offset(procs, start, off) <= procs.len(),
        runnable_offset(procs, start, off) < procs.len() ==> procs[(start + runnable_offset(
            procs,
            start,
            off,
        )) % (procs.len() as int)].state == ProcessState::Runnable,
    decreases procs.len() - off,
{
    if off < procs.len() && procs[(start + off) % (procs.len() as int)].state
        != ProcessState::Runnable {
        lemma_runnable_offset(procs, start, off + 1);
    }
}

impl ProcessTable {
    /// An empty table. Room for `MAX_PROCS` processes is reserved up front, so
    /// a live process never moves while the table holds it.
    pub fn new() -> (r: Self)
        ensures
            table_ok(r@),
            r@ == (TableView {
                procs: Seq::empty(),
                next_pid: 0,
                last_picked: None,
                exits: Seq::empty(),
            }),
    {
        let r = ProcessTable {
            procs: Vec::with_capacity(MAX_PROCS),
            next_pid: 0,
            last_picked: None,
            exits: Vec::new(),
        };
        assert(process_views(r.procs@) =~= Seq::<ProcessView>::empty());
        r
    }

    pub fn len(&self) -> (r: usize)
        ensures
            r == self@.procs.len(),
    {
        self.procs.len()
    }

    pub fn is_empty(&self) -> (r: bool)
        ensures
            r == (self@.procs.len() == 0),
    {
        self.procs.len() == 0
    }

    /// The index of the live process `pid`, or the number of processes.
    fn index_of(&self, pid: usize) -> (r: usize)
        ensures
            r == pid_index(self@.procs, pid),
    {
        proof {
            lemma_pid_index(self@.procs, pid);
        }
        let mut i: usize = 0;
        while i < self.procs.len() && self.procs[i].pid != pid
            invariant
                i <= self.procs@.len(),
                forall|k: int| 0 <= k < i ==> (#[trigger] process_views(self.procs@)[k]).pid != pid,
            decreases self.procs@.len() - i,
        {
            assert(process_views(self.procs@)[i as int] == self.procs@[i as int]@);
            i = i + 1;
        }
        proof {
            if i < self.procs.len() {
                assert(process_views(self.procs@)[i as int] == self.procs@[i as int]@);
            }
            lemma_pid_index_at(self@.procs, pid, i as int);
        }
        i
    }

    /// Numbers `process` with the next pid and adds it; hands it back when
    /// the table is full or the pids are used up.
    pub fn insert(&mut self, process: Process) -> (r: Result<usize, Process>)
        requires
            table_ok(old(self)@),
        ensures
            table_ok(final(self)@),
            old(self)@.procs.len() == MAX_PROCS || old(self)@.next_pid == usize::MAX ==> (r matches Err(
                p,
            ) && p@ == process@ && final(self)@ == old(self)@),
            old(self)@.procs.len() < MAX_PROCS && old(self)@.next_pid < usize::MAX ==> r == Ok::<
                usize,
                Process,
            >(old(self)@.next_pid) && final(self)@ == (TableView {
                procs: old(self)@.procs.push(ProcessView { pid: old(self)@.next_pid, ..process@ }),
                next_pid: (old(self)@.next_pid + 1) as usize,
                ..old(self)@
            }),
    {
        if self.procs.len() == MAX_PROCS {
            return Err(process);
        }
        if self.next_pid == usize::MAX {
            return Err(process);
        }
        let pid = self.next_pid;
        self.next_pid = pid + 1;
        let mut process = process;
        process.pid = pid;
        let ghost before = self.procs@;
        self.procs.push(process);
        assert(process_views(self.procs@) =~= process_views(before).push(process@));
        Ok(pid)
    }

    pub fn get(&self, pid: usize) -> (r: Option<&Process>)
        ensures
            pid_index(self@.procs, pid) < self@.procs.len() ==> (r matches Some(p) && p@
                == self@.procs[pid_index(self@.procs, pid)]),
            pid_index(self@.procs, pid) >= self@.procs.len() ==> r is None,
    {
        let i = self.index_of(pid);
        if i < self.procs.len() {
            Some(&self.procs[i])
        } else {
            None
        }
    }

    pub fn get_mut(&mut self, pid: usize) -> (r: Option<&mut Process>)
        ensures
            pid_index(old(self)@.procs, pid) < old(self)@.procs.len() ==> (r matches Some(p) && p@
                == old(self)@.procs[pid_index(old(self)@.procs, pid)] && final(self)@ == (
            TableView {
                procs: old(self)@.procs.update(pid_index(old(self)@.procs, pid), final(p)@),
                ..old(self)@
            })),
            pid_index(old(self)@.procs, pid) >= old(self)@.procs.len() ==> r is None
                && final(self)@ == old(self)@,
    {
        let i = self.index_of(pid);
        if i < self.procs.len() {
            let ghost before = self.procs@;
            let r = &mut self.procs[i];
            proof {
                assert(process_views(before.update(i as int, *final(r))) =~= process_views(
                    before,
                ).update(i as int, final(r)@));
            }
            Some(r)
        } else {
            None
        }
    }

    /// Takes the process `pid` out of the table; the others keep their order.
    pub fn take(&mut self, pid: usize) -> (r: Option<Process>)
        requires
            table_ok(old(self)@),
        ensures
            table_ok(final(self)@),
            pid_index(old(self)@.procs, pid) < old(self)@.procs.len() ==> (r matches Some(p) && p@
                == old(self)@.procs[pid_index(old(self)@.procs, pid)] && final(self)@ == (
            TableView {
                procs: old(self)@.procs.remove(pid_index(old(self)@.procs, pid)),
                ..old(self)@
            })),
            pid_index(old(self)@.procs, pid) >= old(self)@.procs.len() ==> r is None
                && final(self)@ == old(self)@,
    {
        let i = self.index_of(pid);
        if i >= self.procs.len() {
            return None;
        }
        let ghost before = self.procs@;
        let p = self.procs.remove(i);
        proof {
            assert(process_views(self.procs@) =~= process_views(before).remove(i as int));
            let v = process_views(self.procs@);
            let w = process_views(before);
            assert forall|a: int, b: int| 0 <= a < b < v.len() implies (#[trigger] v[a]).pid < (
            #[trigger] v[b]).pid by {
                let wa = if a < i {
                    a
                } else {
                    a + 1
                };
                let wb = if b < i {
                    b
                } else {
                    b + 1
                };
                assert(v[a] == w[wa] && v[b] == w[wb]);
            }
            assert forall|a: int| 0 <= a < v.len() implies (#[trigger] v[a]).pid < self.next_pid by {
                let wa = if a < i {
                    a
                } else {
                    a + 1
                };
                assert(v[a] == w[wa]);
            }
        }
        Some(p)
    }

    /// Takes out the process inserted first, to drain the table.
    pub fn take_oldest(&mut self) -> (r: Option<Process>)
        requires
            table_ok(old(self)@),
        ensures
            table_ok(final(self)@),
            old(self)@.procs.len() == 0 ==> r is None && final(self)@ == old(self)@,
            old(self)@.procs.len() > 0 ==> (r matches Some(p) && p@ == old(self)@.procs[0]
                && final(self)@ == (TableView { procs: old(self)@.procs.drop_first(), ..old(self)@ })),
    {
        if self.procs.len() == 0 {
            return None;
        }
        let ghost before = self.procs@;
        let p = self.procs.remove(0);
        proof {
            assert(process_views(self.procs@) =~= process_views(before).drop_first());
            let v = process_views(self.procs@);
            let w = process_views(before);
            assert forall|a: int, b: int| 0 <= a < b < v.len() implies (#[trigger] v[a]).pid < (
            #[trigger] v[b]).pid by {
                assert(v[a] == w[a + 1] && v[b] == w[b + 1]);
            }
            assert forall|a: int| 0 <= a < v.len() implies (#[trigger] v[a]).pid < self.next_pid by {
                assert(v[a] == w[a + 1]);
            }
        }
        Some(p)
    }

    /// The live processes in insertion order.
    pub fn processes(&self) -> (r: &[Process])
        ensures
            process_views(r@) == self@.procs,
    {
        self.procs.as_slice()
    }

    /// Picks the next process to run, round robin: the first runnable one
    /// after the process picked last, going around the table. `None` when
    /// the table is empty or every process is blocked.
    pub fn pick_next(&mut self) -> (r: Option<usize>)
        requires
            table_ok(old(self)@),
        ensures
            r == picked(old(self)@),
            r is Some ==> final(self)@ == (TableView { last_picked: r, ..old(self)@ }),
            r is None ==> final(self)@ == old(self)@,
    {
        let ghost t = self@;
        let n = self.procs.len();
        let start = match self.last_picked {
            Some(last) => {
                let i = self.index_of(last);
                if i < n {
                    i + 1
                } else {
                    0
                }
            },
            None => 0,
        };
        assert(start == resume_index(t));
        proof {
            lemma_runnable_offset(t.procs, start as int, 0);
        }
        let mut offset: usize = 0;
        while offset < n
            invariant
                self@ == t,
                old(self)@ == t,
                n == t.procs.len(),
                n <= MAX_PROCS,
                start == resume_index(t),
                start <= n,
                offset <= n,
                runnable_offset(t.procs, start as int, 0) == runnable_offset(
                    t.procs,
                    start as int,
                    offset as int,
                ),
            decreases n - offset,
        {
            let index = (start + offset) % n;
            assert(process_views(self.procs@)[index as int] == self.procs@[index as int]@);
            if self.procs[index].is_runnable() {
                let pid = self.procs[index].pid;
                self.last_picked = Some(pid);
                return Some(pid);
            }
            offset = offset + 1;
        }
        None
    }

    /// Makes every blocked process runnable: a byte reached stdin. Processes
    /// waiting for a pid wake too and block again if they still must wait.
    pub fn wake_all_blocked(&mut self)
        ensures
            final(self)@ == (TableView {
                procs: old(self)@.procs.map_values(
                    |p: ProcessView| ProcessView { state: ProcessState::Runnable, ..p },
                ),
                ..old(self)@
            }),
    {
        let ghost before = self@;
        let mut i: usize = 0;
        while i < self.procs.len()
            invariant
                i <= self.procs@.len(),
                self.procs@.len() == before.procs.len(),
                self.next_pid == before.next_pid,
                self.last_picked == before.last_picked,
                self.exits@ == before.exits,
                forall|k: int|
                    0 <= k < i ==> (#[trigger] process_views(self.procs@)[k]) == (ProcessView {
                        state: ProcessState::Runnable,
                        ..before.procs[k]
                    }),
                forall|k: int|
                    i <= k < self.procs@.len() ==> (#[trigger] process_views(self.procs@)[k])
                        == before.procs[k],
            decreases self.procs@.len() - i,
        {
            let ghost prev = self.procs@;
            let mut p = self.procs.remove(i);
            if !p.is_runnable() {
                p.wake();
            }
            self.procs.insert(i, p);
            proof {
                assert(self.procs@ =~= prev.update(i as int, p));
                assert(process_views(self.procs@) =~= process_views(prev).update(i as int, p@));
                assert(process_views(prev)[i as int] == before.procs[i as int]);
            }
            i = i + 1;
        }
        assert(self@.procs =~= before.procs.map_values(
            |p: ProcessView| ProcessView { state: ProcessState::Runnable, ..p },
        ));
    }

    /// Records that `pid` ended with `code`, dropping the oldest status when
    /// the ledger is full.
    pub fn record_exit(&mut self, pid: usize, code: u32)
        requires
            table_ok(old(self)@),
        ensures
            table_ok(final(self)@),
            final(self)@ == (TableView { exits: recorded(old(self)@.exits, pid, code), ..old(self)@ }),
    {
        if self.exits.len() == MAX_PROCS {
            self.exits.remove(0);
        }
        self.exits.push((pid, code));
    }

    /// Collects the status `pid` ended with: each recorded status once.
    pub fn take_exit(&mut self, pid: usize) -> (r: Option<u32>)
        requires
            table_ok(old(self)@),
        ensures
            table_ok(final(self)@),
            exit_index(old(self)@.exits, pid) < old(self)@.exits.len() ==> r == Some(
                old(self)@.exits[exit_index(old(self)@.exits, pid)].1,
            ) && final(self)@ == (TableView {
                exits: old(self)@.exits.remove(exit_index(old(self)@.exits, pid)),
                ..old(self)@
            }),
            exit_index(old(self)@.exits, pid) >= old(self)@.exits.len() ==> r is None
                && final(self)@ == old(self)@,
    {
        let ghost before = self.exits@;
        proof {
            lemma_exit_index(before, pid);
        }
        let mut i: usize = 0;
        while i < self.exits.len() && self.exits[i].0 != pid
            invariant
                self.exits@ == before,
                i <= before.len(),
                forall|k: int| 0 <= k < i ==> (#[trigger] before[k]).0 != pid,
            decreases before.len() - i,
        {
            i = i + 1;
        }
        proof {
            lemma_exit_index_at(before, pid, i as int);
        }
        if i == self.exits.len() {
            return None;
        }
        let (_, code) = self.exits.remove(i);
        Some(code)
    }

    /// Whether the waits followed from `target`, at most as many as there are
    /// processes, reach `caller`.
    fn wait_chain_reaches(&self, target: usize, caller: usize) -> (r: bool)
        ensures
            r == chain_reaches(self@.procs, target, caller, self@.procs.len()),
    {
        let n = self.procs.len();
        let mut cursor = target;
        let mut steps: usize = 0;
        while steps < n
            invariant
                steps <= n,
                n == self@.procs.len(),
                chain_reaches(self@.procs, target, caller, n as nat) == chain_reaches(
                    self@.procs,
                    cursor,
                    caller,
                    (n - steps) as nat,
                ),
            decreases n - steps,
        {
            let i = self.index_of(cursor);
            proof {
                lemma_pid_index(self@.procs, cursor);
            }
            if i == n {
                return false;
            }
            assert(process_views(self.procs@)[i as int] == self.procs@[i as int]@);
            let next = match self.procs[i].waiting_on() {
                Some(next) => next,
                None => {
                    return false;
                },
            };
            if next == caller {
                return true;
            }
            cursor = next;
            steps = steps + 1;
        }
        false
    }

    /// Makes `caller` wait for `target` to end. `ECHILD` when `caller` would
    /// wait for itself or `target` is not live; `EINVAL` when the waits that
    /// `target` is part of lead back to `caller`, which would never wake.
    pub fn block_waitpid(&mut self, caller: usize, target: usize) -> (r: Result<(), isize>)
        requires
            table_ok(old(self)@),
            pid_index(old(self)@.procs, caller) < old(self)@.procs.len(),
        ensures
            table_ok(final(self)@),
            caller == target ==> r == Err::<(), isize>(ECHILD) && final(self)@ == old(self)@,
            caller != target && pid_index(old(self)@.procs, target) >= old(self)@.procs.len() ==> r
                == Err::<(), isize>(ECHILD) && final(self)@ == old(self)@,
            caller != target && pid_index(old(self)@.procs, target) < old(self)@.procs.len()
                && chain_reaches(old(self)@.procs, target, caller, old(self)@.procs.len()) ==> r
                == Err::<(), isize>(EINVAL) && final(self)@ == old(self)@,
            caller != target && pid_index(old(self)@.procs, target) < old(self)@.procs.len()
                && !chain_reaches(old(self)@.procs, target, caller, old(self)@.procs.len()) ==> r
                is Ok && final(self)@ == (TableView {
                procs: old(self)@.procs.update(
                    pid_index(old(self)@.procs, caller),
                    ProcessView {
                        state: ProcessState::BlockedOnPid(target),
                        ..old(self)@.procs[pid_index(old(self)@.procs, caller)]
                    },
                ),
                ..old(self)@
            }),
    {
        if caller == target {
            return Err(ECHILD);
        }
        proof {
            lemma_pid_index(self@.procs, target);
        }
        if self.index_of(target) == self.procs.len() {
            return Err(ECHILD);
        }
        if self.wait_chain_reaches(target, caller) {
            return Err(EINVAL);
        }
        let i = self.index_of(caller);
        let ghost prev = self.procs@;
        let mut p = self.procs.remove(i);
        p.block_on_pid(target);
        self.procs.insert(i, p);
        proof {
            assert(self.procs@ =~= prev.update(i as int, p));
            assert(process_views(self.procs@) =~= process_views(prev).update(i as int, p@));
            assert(process_views(prev)[i as int] == prev[i as int]@);
            let v = process_views(self.procs@);
            let w = process_views(prev);
            assert forall|a: int, b: int| 0 <= a < b < v.len() implies (#[trigger] v[a]).pid < (
            #[trigger] v[b]).pid by {
                assert(v[a].pid == w[a].pid && v[b].pid == w[b].pid);
            }
            assert forall|a: int| 0 <= a < v.len() implies (#[trigger] v[a]).pid < self.next_pid by {
                assert(v[a].pid == w[a].pid);
            }
        }
        Ok(())
    }

    /// Closes, in every process, the descriptors open on the entry
    /// `(dir_cluster, dir_index)`, whose clusters `unlink` just freed.
    pub fn revoke_file_fds(&mut self, dir_cluster: u32, dir_index: u32)
        ensures
            final(self)@ == (TableView {
                procs: old(self)@.procs.map_values(
                    |p: ProcessView| ProcessView { fds: revoked(p.fds, dir_cluster, dir_index), ..p },
                ),
                ..old(self)@
            }),
    {
        let ghost before = self@;
        let mut i: usize = 0;
        while i < self.procs.len()
            invariant
                i <= self.procs@.len(),
                self.procs@.len() == before.procs.len(),
                self.next_pid == before.next_pid,
                self.last_picked == before.last_picked,
                self.exits@ == before.exits,
                forall|k: int|
                    0 <= k < i ==> (#[trigger] process_views(self.procs@)[k]) == (ProcessView {
                        fds: revoked(before.procs[k].fds, dir_cluster, dir_index),
                        ..before.procs[k]
                    }),
                forall|k: int|
                    i <= k < self.procs@.len() ==> (#[trigger] process_views(self.procs@)[k])
                        == before.procs[k],
            decreases self.procs@.len() - i,
        {
            let ghost prev = self.procs@;
            let mut p = self.procs.remove(i);
            p.revoke_fd_at(dir_cluster, dir_index);
            self.procs.insert(i, p);
            proof {
                assert(self.procs@ =~= prev.update(i as int, p));
                assert(process_views(self.procs@) =~= process_views(prev).update(i as int, p@));
                assert(process_views(prev)[i as int] == before.procs[i as int]);
            }
            i = i + 1;
        }
        assert(self@.procs =~= before.procs.map_values(
            |p: ProcessView| ProcessView { fds: revoked(p.fds, dir_cluster, dir_index), ..p },
        ));
    }

    /// Points, in every process, the descriptors open on the entry
    /// `(old_cluster, old_index)` at its new place `(new_cluster, new_index)`.
    pub fn relocate_file_fds(&mut self, old_cluster: u32, old_index: u32, new_cluster: u32, new_index: u32)
        ensures
            final(self)@ == (TableView {
                procs: old(self)@.procs.map_values(
                    |p: ProcessView|
                        ProcessView {
                            fds: relocated(p.fds, old_cluster, old_index, new_cluster, new_index),
                            ..p
                        },
                ),
                ..old(self)@
            }),
    {
        let ghost before = self@;
        let mut i: usize = 0;
        while i < self.procs.len()
            invariant
                i <= self.procs@.len(),
                self.procs@.len() == before.procs.len(),
                self.next_pid == before.next_pid,
                self.last_picked == before.last_picked,
                self.exits@ == before.exits,
                forall|k: int|
                    0 <= k < i ==> (#[trigger] process_views(self.procs@)[k]) == (ProcessView {
                        fds: relocated(
                            before.procs[k].fds,
                            old_cluster,
                            old_index,
                            new_cluster,
                            new_index,
                        ),
                        ..before.procs[k]
                    }),
                forall|k: int|
                    i <= k < self.procs@.len() ==> (#[trigger] process_views(self.procs@)[k])
                        == before.procs[k],
            decreases self.procs@.len() - i,
        {
            let ghost prev = self.procs@;
            let mut p = self.procs.remove(i);
            p.relocate_fd_at(old_cluster, old_index, new_cluster, new_index);
            self.procs.insert(i, p);
            proof {
                assert(self.procs@ =~= prev.update(i as int, p));
                assert(process_views(self.procs@) =~= process_views(prev).update(i as int, p@));
                assert(process_views(prev)[i as int] == before.procs[i as int]);
            }
            i = i + 1;
        }
        assert(self@.procs =~= before.procs.map_values(
            |p: ProcessView|
                ProcessView {
                    fds: relocated(p.fds, old_cluster, old_index, new_cluster, new_index),
                    ..p
                },
        ));
    }

    /// Wakes every process waiting for `pid`, which ended.
    pub fn wake_on_exit(&mut self, pid: usize)
        ensures
            final(self)@ == (TableView {
                procs: old(self)@.procs.map_values(
                    |p: ProcessView|
                        if p.state == ProcessState::BlockedOnPid(pid) {
                            ProcessView { state: ProcessState::Runnable, ..p }
                        } else {
                            p
                        },
                ),
                ..old(self)@
            }),
    {
        let ghost before = self@;
        let mut i: usize = 0;
        while i < self.procs.len()
            invariant
                i <= self.procs@.len(),
                self.procs@.len() == before.procs.len(),
                self.next_pid == before.next_pid,
                self.last_picked == before.last_picked,
                self.exits@ == before.exits,
                forall|k: int|
                    0 <= k < i ==> (#[trigger] process_views(self.procs@)[k]) == (if before.procs[k].state
                        == ProcessState::BlockedOnPid(pid) {
                        ProcessView { state: ProcessState::Runnable, ..before.procs[k] }
                    } else {
                        before.procs[k]
                    }),
                forall|k: int|
                    i <= k < self.procs@.len() ==> (#[trigger] process_views(self.procs@)[k])
                        == before.procs[k],
            decreases self.procs@.len() - i,
        {
            let ghost prev = self.procs@;
            let mut p = self.procs.remove(i);
            if p.waiting_on() == Some(pid) {
                p.wake();
            }
            self.procs.insert(i, p);
            proof {
                assert(self.procs@ =~= prev.update(i as int, p));
                assert(process_views(self.procs@) =~= process_views(prev).update(i as int, p@));
                assert(process_views(prev)[i as int] == before.procs[i as int]);
            }
            i = i + 1;
        }
        assert(self@.procs =~= before.procs.map_values(
            |p: ProcessView|
                if p.state == ProcessState::BlockedOnPid(pid) {
                    ProcessView { state: ProcessState::Runnable, ..p }
                } else {
                    p
                },
        ));
    }

}

// ---------------------------------------------------------------------------
// What the table guarantees across calls.

/// A pid handed out by `insert` belongs to no live process: pids are never
/// reused, so an exit report cannot name a different live process.
pub proof fn lemma_inserted_pid_is_fresh(t: TableView)
    requires
        table_ok(t),
    ensures
        pid_index(t.procs, t.next_pid) == t.procs.len(),
{
    lemma_pid_index(t.procs, t.next_pid);
    if pid_index(t.procs, t.next_pid) < t.procs.len() {
        assert(t.procs[pid_index(t.procs, t.next_pid)].pid < t.next_pid);
    }
}

/// A status recorded for a pid with none pending can be collected, and
/// only once.
pub proof fn lemma_exit_collected_once(exits: Seq<(usize, u32)>, pid: usize, code: u32)
    requires
        exit_index(exits, pid) == exits.len(),
        exits.len() <= MAX_PROCS,
    ensures
        ({
            let after = recorded(exits, pid, code);
            let i = exit_index(after, pid);
            &&& i < after.len()
            &&& after[i].1 == code
            &&& exit_index(after.remove(i), pid) == after.remove(i).len()
        }),
{
    lemma_exit_index(exits, pid);
    let after = recorded(exits, pid, code);
    let n = after.len() - 1;
    assert(after[n] == (pid, code));
    assert forall|k: int| 0 <= k < n implies (#[trigger] after[k]).0 != pid by {
        if exits.len() == MAX_PROCS {
            assert(after[k] == exits[k + 1]);
        } else {
            assert(after[k] == exits[k]);
        }
    }
    lemma_exit_index_at(after, pid, n);
    let rest = after.remove(n);
    assert forall|k: int| 0 <= k < rest.len() implies (#[trigger] rest[k]).0 != pid by {
        assert(rest[k] == after[k]);
    }
    lemma_exit_index_at(rest, pid, rest.len() as int);
}

/// `pick_next` dispatches only runnable processes, and returns `None` only
/// when no live process can run.
pub proof fn lemma_pick_is_runnable(t: TableView)
    ensures
        picked(t) matches Some(pid) ==> exists|i: int|
            0 <= i < t.procs.len() && (#[trigger] t.procs[i]).pid == pid && t.procs[i].state
                == ProcessState::Runnable,
        picked(t) is None ==> forall|i: int|
            0 <= i < t.procs.len() ==> (#[trigger] t.procs[i]).state != ProcessState::Runnable,
{
    let n = t.procs.len() as int;
    let start = resume_index(t);
    if let Some(last) = t.last_picked {
        lemma_pid_index(t.procs, last);
    }
    lemma_runnable_offset(t.procs, start, 0);
    let off = runnable_offset(t.procs, start, 0);
    if off < n {
        let i = (start + off) % n;
        assert(0 <= i < n) by (nonlinear_arith)
            requires
                n > 0,
                i == (start + off) % n,
        ;
        assert(t.procs[i].pid == picked(t)->0);
    } else if n > 0 {
        assert forall|i: int| 0 <= i < n implies (#[trigger] t.procs[i]).state
            != ProcessState::Runnable by {
            let o = if i >= start % n {
                i - start % n
            } else {
                i - start % n + n
            };
            assert(0 <= o < n && (start + o) % n == i) by (nonlinear_arith)
                requires
                    n > 0,
                    0 <= i < n,
                    start >= 0,
                    o == if i >= start % n {
                        i - start % n
                    } else {
                        i - start % n + n
                    },
            ;
            lemma_offset_blocked(t.procs, start, 0, o);
        }
    }
}

/// The offsets skipped on the way to `runnable_offset` hold blocked processes.
proof fn lemma_offset_blocked(procs: Seq<ProcessView>, start: int, off: int, o: int)
    requires
        0 <= off <= o < runnable_offset(procs, start, off),
        runnable_offset(procs, start, off) <= procs.len(),
    ensures
        procs[(start + o) % (procs.len() as int)].state != ProcessState::Runnable,
    decreases o - off,
{
    if off < o {
        lemma_offset_blocked(procs, start, off + 1, o);
    }
}

} // verus!
