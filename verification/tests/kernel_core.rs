use kernel::KernelError;
use kernel::cpu::{Cpu, Signal, send_ipi, signal_up, start_others, take_ipi, IPI_RESCHED};
use kernel::kalloc::PageAllocator;
use kernel::lock::SpinLock;
use kernel::lock::SleepLock;
use kernel::proc::{Kernel, ProcState, TrapFrame, WaitOutcome};
use kernel::trap::{TrapOutcome, DEVICE_CHAN_BASE};
use kernel::vm::{PageTable, Perm};
use kernel::screen::Cga;
use kernel::shell::{handle_command, start_gui, str_eq};

#[test]
fn allocator_exhaust_and_recover() {
    let mut a = PageAllocator::new(1, 4);
    let mut got = Vec::new();
    for _ in 0..4 {
        got.push(a.allocate().unwrap());
    }
    assert_eq!(a.allocate(), Err(KernelError::OutOfMemory));
    a.free(got[3]);
    assert_eq!(a.allocate(), Ok(got[3]));
}

#[test]
fn allocator_balanced_pair_restores_count() {
    let mut a = PageAllocator::new(10, 3);
    assert_eq!(a.free_pages(), 3);
    let p = a.allocate().unwrap();
    assert_eq!(a.free_pages(), 2);
    a.free(p);
    assert_eq!(a.free_pages(), 3);
}

#[test]
fn spinlock_masks_interrupts_until_outermost_release() {
    let mut cpu = Cpu::init(0);
    cpu.intr_on = true;
    let mut l1: SpinLock<u64> = SpinLock::new(7);
    let mut l2: SpinLock<u64> = SpinLock::new(8);
    l1.acquire(&mut cpu);
    assert!(!cpu.intr_on && cpu.noff == 1);
    l2.acquire(&mut cpu);
    assert!(!cpu.intr_on && cpu.noff == 2);
    l2.release(&mut cpu);
    assert!(!cpu.intr_on);
    l1.release(&mut cpu);
    assert!(cpu.intr_on && cpu.noff == 0);
    assert_eq!(*l1.get(0), 7);
}

#[test]
fn bringup_reports_missing_core() {
    let mut cpus = vec![Cpu::init(0), Cpu::init(1), Cpu::init(2)];
    cpus[0].started = true;
    let mut signals = vec![Signal::new(), Signal::new(), Signal::new()];
    signal_up(&mut signals[1]);
    let failed = start_others(&mut cpus, &signals);
    assert!(cpus[1].started);
    assert!(!cpus[2].started);
    assert_eq!(cpus[1].init_pulses, 1);
    assert_eq!(cpus[1].startup_pulses, 2);
    assert_eq!(failed, vec![2]);
}

#[test]
fn ipi_queue_is_fifo() {
    let mut cpus = vec![Cpu::init(0), Cpu::init(1)];
    cpus[1].lapic_init();
    send_ipi(&mut cpus, 1, IPI_RESCHED);
    assert_eq!(take_ipi(&mut cpus[1]), Some(IPI_RESCHED));
    assert_eq!(take_ipi(&mut cpus[1]), None);
}

fn make_live(k: &mut Kernel, slot: usize, pid: u64) {
    let root = k.alloc.allocate().unwrap();
    let kstack = k.alloc.allocate().unwrap();
    k.procs[slot].state = ProcState::Runnable;
    k.procs[slot].pid = pid;
    k.procs[slot].space.root = root;
    k.procs[slot].kstack = kstack;
    k.next_pid = pid + 1;
}

#[test]
fn sleep_then_wakeup_then_scheduled() {
    let mut k = Kernel::new(2, 1, 16);
    make_live(&mut k, 0, 1);
    make_live(&mut k, 1, 2);
    // process 0 runs on core 0 and holds lock l
    k.procs[0].state = ProcState::Running;
    k.cpus[0].current = Some(0);
    k.cpus[0].noff = 1;
    let mut l: SpinLock<u64> = SpinLock::new(0);
    l.locked = true;
    l.owner = 0;
    k.sleep(0, 7, &mut l);
    assert_eq!(k.procs[0].state, ProcState::Sleeping);
    assert_eq!(k.procs[0].chan, 7);
    assert_eq!(k.cpus[0].current, None);
    assert!(!l.locked);
    // another core wakes channel 7 under the table lock
    k.table_lock.locked = true;
    k.table_lock.owner = 1;
    k.wakeup(1, 7);
    k.table_lock.locked = false;
    assert_eq!(k.procs[0].state, ProcState::Runnable);
    // and the scheduler picks it up again
    let picked = k.schedule(0);
    assert_eq!(picked, Some(0));
    assert_eq!(k.procs[0].state, ProcState::Running);
    assert_eq!(k.cpus[0].current, Some(0));
}

#[test]
fn scheduler_scan_is_first_runnable_and_deterministic() {
    let mut a = Kernel::new(1, 1, 16);
    make_live(&mut a, 2, 1);
    make_live(&mut a, 5, 2);
    let mut b = Kernel::new(1, 1, 16);
    make_live(&mut b, 2, 1);
    make_live(&mut b, 5, 2);
    assert_eq!(a.schedule(0), Some(2));
    assert_eq!(b.schedule(0), Some(2));
}

#[test]
fn yield_returns_process_to_runnable() {
    let mut k = Kernel::new(1, 1, 16);
    make_live(&mut k, 3, 1);
    assert_eq!(k.schedule(0), Some(3));
    k.yield_(0);
    assert_eq!(k.procs[3].state, ProcState::Runnable);
    assert_eq!(k.cpus[0].current, None);
}

#[test]
fn screen_put_string_lands_on_cells() {
    let mut c = Cga::new();
    c.put_string_at(2, 1, "ok");
    assert_eq!(c.cells[80 + 2], 'o');
    assert_eq!(c.cells[80 + 3], 'k');
    assert_eq!(c.cells[0], ' ');
}

#[test]
fn handle_command_line_counts() {
    let mut c = Cga::new();
    assert_eq!(handle_command(&mut c, "help"), 10);
    assert_eq!(handle_command(&mut c, "info"), 3);
    assert_eq!(handle_command(&mut c, "echo hi"), 1);
    assert_eq!(handle_command(&mut c, "bogus"), 2);
    assert_eq!(handle_command(&mut c, ""), 0);
    assert_eq!(handle_command(&mut c, "clear"), 0);
}

#[test]
fn echo_paints_message() {
    let mut c = Cga::new();
    handle_command(&mut c, "echo hi");
    assert_eq!(c.cells[22 * 80 + 5], 'E');
    assert_eq!(c.cells[22 * 80 + 11], 'h');
    assert_eq!(c.cells[22 * 80 + 12], 'i');
}

#[test]
fn handle_command_trims_its_input() {
    let mut c = Cga::new();
    assert_eq!(handle_command(&mut c, "  help "), 10);
    assert_eq!(handle_command(&mut c, "\thelp\n"), 10);
}

#[test]
fn create_then_exit_marks_zombie_and_wakes_parent() {
    let mut k = Kernel::new(2, 1, 64);
    let parent = k.create(0).unwrap();
    assert_eq!(k.schedule(0), Some(parent));
    let child = k.create(0).unwrap();
    assert_eq!(k.procs[child].parent, Some(parent));
    // parent waits for the child on its own wait channel
    k.procs[parent].state = ProcState::Sleeping;
    k.procs[parent].chan = kernel::proc::WAIT_CHAN_BASE + parent as u64;
    k.cpus[0].current = None;
    // the child runs on core 1 and exits
    assert_eq!(k.schedule(1), Some(child));
    k.exit(1, 42);
    assert_eq!(k.procs[child].state, ProcState::Zombie);
    assert_eq!(k.procs[child].exit_status, 42);
    assert_eq!(k.procs[parent].state, ProcState::Runnable);
    assert_eq!(k.cpus[1].current, None);
}

#[test]
fn create_reports_table_full_and_out_of_memory() {
    let mut k = Kernel::new(1, 1, 200);
    for _ in 0..kernel::proc::NPROC {
        k.create(0).unwrap();
    }
    assert_eq!(k.create(0), Err(KernelError::TableFull));
    let mut poor = Kernel::new(1, 1, 1);
    assert_eq!(poor.create(0), Err(KernelError::OutOfMemory));
}

#[test]
fn bringup_timeout_is_typed() {
    let sig = Signal::new();
    assert_eq!(kernel::cpu::check_ready(&sig), Err(KernelError::BringupTimeout));
}

#[test]
fn router_init_masks_all_lines_and_enable_routes_one() {
    let io0 = kernel::ioapic::init(23);
    assert_eq!(io0.entries.len(), 24);
    assert!(!io0.entries[4].enabled);
    assert_eq!(io0.entries[4].vector, 36);
    let mut io = io0;
    kernel::ioapic::enable(&mut io, 4, 2);
    assert!(io.entries[4].enabled);
    assert_eq!(io.entries[4].vector, 36);
    assert_eq!(io.entries[4].dest, 2);
    assert!(!io.entries[5].enabled);
}

#[test]
fn gui_pages_paint_prompt_and_frames() {
    let mut c = Cga::new();
    start_gui(&mut c);
    assert_eq!(c.cells[22 * 80 + 5], 'u'); // "uzeyiros> " prompt
    assert_eq!(c.cells[15 * 80 + 5], '+'); // info box corner
    assert!(str_eq("abc", "abc"));
    assert!(!str_eq("abc", "abd"));
}

#[test]
fn exit_then_wait_returns_status_and_frees_slot() {
    let mut k = Kernel::new(2, 1, 200);
    let parent = k.create(0).unwrap();
    assert_eq!(k.schedule(0), Some(parent));
    let child = k.create(0).unwrap();
    let child_pid = k.procs[child].pid;
    // no child has exited yet: the parent parks on its wait channel
    assert_eq!(k.wait(0), WaitOutcome::Parked);
    assert_eq!(k.procs[parent].state, ProcState::Sleeping);
    // the child runs on the other core and exits; the parent is woken
    assert_eq!(k.schedule(1), Some(child));
    k.exit(1, 42);
    assert_eq!(k.procs[parent].state, ProcState::Runnable);
    // the parent resumes and reaps: status 42, slot UNUSED again
    assert_eq!(k.schedule(0), Some(parent));
    assert_eq!(k.wait(0), WaitOutcome::Reaped { pid: child_pid, status: 42 });
    assert_eq!(k.procs[child].state, ProcState::Unused);
    assert_eq!(k.procs[child].kstack, 0);
    // and the slot is reusable by the next create
    assert_eq!(k.create(0), Ok(child));
}

#[test]
fn wait_with_no_children_says_so() {
    let mut k = Kernel::new(1, 1, 200);
    let a = k.create(0).unwrap();
    assert_eq!(k.schedule(0), Some(a));
    assert_eq!(k.wait(0), WaitOutcome::NoChildren);
}

#[test]
fn sleep_lock_parks_second_taker_and_release_hands_over() {
    let mut k = Kernel::new(2, 1, 200);
    let a = k.create(0).unwrap();
    assert_eq!(k.schedule(0), Some(a));
    let b = k.create(0).unwrap();
    assert_eq!(k.schedule(1), Some(b));
    let mut sl = SleepLock::new(9);
    assert!(k.acquire_sleep_lock(0, &mut sl));
    assert_eq!(sl.owner_pid, k.procs[a].pid);
    assert!(!k.acquire_sleep_lock(1, &mut sl));
    assert_eq!(k.procs[b].state, ProcState::Sleeping);
    assert_eq!(k.procs[b].chan, 9);
    k.release_sleep_lock(&mut sl);
    assert!(!sl.locked);
    assert_eq!(k.procs[b].state, ProcState::Runnable);
}

#[test]
fn timer_trap_preempts_the_current_process() {
    let mut k = Kernel::new(1, 1, 200);
    let a = k.create(0).unwrap();
    assert_eq!(k.schedule(0), Some(a));
    let mut f = TrapFrame::zeroed();
    f.vector = 32;
    assert_eq!(k.dispatch(0, f), TrapOutcome::Yielded);
    assert_eq!(k.procs[a].state, ProcState::Runnable);
    assert_eq!(k.cpus[0].current, None);
    assert_eq!(k.procs[a].tf.vector, 32);
}

#[test]
fn syscall_trap_hands_arguments_and_result_round_trips() {
    let mut k = Kernel::new(1, 1, 200);
    let a = k.create(0).unwrap();
    assert_eq!(k.schedule(0), Some(a));
    let mut f = TrapFrame::zeroed();
    f.vector = 64;
    f.op = 7;
    f.arg0 = 11;
    f.arg3 = 44;
    assert_eq!(
        k.dispatch(0, f),
        TrapOutcome::Syscall { op: 7, arg0: 11, arg1: 0, arg2: 0, arg3: 44 }
    );
    k.complete_syscall(0, 99);
    assert_eq!(k.procs[a].tf.ret, 99);
}

#[test]
fn fault_trap_kills_the_current_child() {
    let mut k = Kernel::new(2, 1, 200);
    let parent = k.create(0).unwrap();
    assert_eq!(k.schedule(0), Some(parent));
    let child = k.create(0).unwrap();
    assert_eq!(k.schedule(1), Some(child));
    let mut f = TrapFrame::zeroed();
    f.vector = 13;
    assert_eq!(k.dispatch(1, f), TrapOutcome::Killed);
    assert_eq!(k.procs[child].state, ProcState::Zombie);
    assert_eq!(k.procs[child].exit_status, 13);
    assert_eq!(k.cpus[1].current, None);
}

#[test]
fn device_trap_wakes_the_line_channel() {
    let mut k = Kernel::new(1, 1, 200);
    let a = k.create(0).unwrap();
    k.procs[a].state = ProcState::Sleeping;
    k.procs[a].chan = DEVICE_CHAN_BASE + 3;
    let mut f = TrapFrame::zeroed();
    f.vector = 35;
    assert_eq!(k.dispatch(0, f), TrapOutcome::Resumed);
    assert_eq!(k.procs[a].state, ProcState::Runnable);
}

#[test]
fn map_range_round_trip_and_unmap_range() {
    let mut a = PageAllocator::new(1, 16);
    let mut t = PageTable::empty();
    t.root = a.allocate().unwrap();
    let perm = Perm { writable: true, user: true, executable: false };
    t.map_range(&mut a, 100, 4, perm).unwrap();
    for v in 100..104u64 {
        let pte = t.lookup(v).unwrap();
        assert_eq!(pte.vpn, v);
        assert_eq!(pte.perm, perm);
    }
    assert!(t.lookup(104).is_none());
    assert_eq!(t.map_range(&mut a, 102, 2, perm), Err(KernelError::AlreadyMapped));
    assert_eq!(t.map_range(&mut a, 200, 100, perm), Err(KernelError::OutOfMemory));
    t.unmap_range(&mut a, 100, 4).unwrap();
    assert!(t.lookup(100).is_none());
    assert_eq!(a.free_pages(), 15);
    assert_eq!(t.unmap_range(&mut a, 100, 1), Err(KernelError::UnmapOfUnmapped));
}

#[test]
fn duplicate_copies_structure_with_disjoint_user_frames() {
    let mut a = PageAllocator::new(1, 32);
    let mut t = PageTable::empty();
    t.root = a.allocate().unwrap();
    let perm = Perm { writable: true, user: true, executable: true };
    t.map_range(&mut a, 0, 3, perm).unwrap();
    let d = t.duplicate(&mut a).unwrap();
    assert_ne!(d.root, t.root);
    for v in 0..3u64 {
        let p1 = t.lookup(v).unwrap();
        let p2 = d.lookup(v).unwrap();
        assert_eq!(p2.perm, p1.perm);
        assert_ne!(p2.pfn, p1.pfn);
    }
}

#[test]
fn replace_space_swaps_user_mappings_wholesale() {
    let mut k = Kernel::new(1, 1, 200);
    let a = k.create(0).unwrap();
    assert_eq!(k.schedule(0), Some(a));
    let perm = Perm { writable: true, user: true, executable: true };
    k.replace_space(0, 10, 3, perm).unwrap();
    assert_eq!(k.procs[a].space.lookup(11).unwrap().perm, perm);
    let free_before = k.alloc.free_pages();
    // the second image: the old root and three pages come back, a root and
    // five pages go out
    k.replace_space(0, 50, 5, perm).unwrap();
    assert!(k.procs[a].space.lookup(11).is_none());
    assert_eq!(k.procs[a].space.lookup(54).unwrap().perm, perm);
    assert_eq!(k.alloc.free_pages(), free_before + 4 - 6);
    // and a new image that cannot fit is refused before anything is torn down
    assert_eq!(k.replace_space(0, 0, 1000, perm), Err(KernelError::OutOfMemory));
    assert_eq!(k.procs[a].space.lookup(54).unwrap().perm, perm);
}
