use tisuos::memory::config::PAGE_SIZE;
use tisuos::memory::page::PageManager;
use tisuos::memory::program_memory::program_area::{Area, ProgramArea};
use tisuos::task::info::{Info, PipeUnit};
use tisuos::task::process::MAX_HEAP_SIZE;
use tisuos::task::resource::Resource;
use tisuos::task::scheduler::Scheduler;
use tisuos::task::task_info::{Environment, Register, TaskState};
use tisuos::task::task_manager::{start_init_process, TaskManager};
use tisuos::task::task_pool::TaskPool;
use tisuos::task::thread::Thread;
use tisuos::uart::{divisor_bytes, input_ready, DIVISOR};

const BASE: usize = 0x8000_0000;
const MEMORY_END: usize = 0x8800_0000;
const ENTRY: usize = 0x1000;
const PROCESS_EXIT: usize = 0x8000_1234;

fn manager() -> PageManager {
    PageManager::new(BASE, BASE + 1024 * PAGE_SIZE, BASE + 4096 * PAGE_SIZE, PAGE_SIZE)
}

fn program() -> ProgramArea {
    let mut p = ProgramArea::new(ENTRY, true);
    p.push_area(Area::new(0x1000, 0x3000, 0x8030_0000, 0x8030_2000));
    p
}

fn caller_env() -> Environment {
    let mut env = Environment::new();
    env.regs[13] = 7;
    env.regs[14] = 8;
    env.regs[15] = 9;
    env
}

fn stack_top(tid: usize) -> usize {
    MEMORY_END + MAX_HEAP_SIZE + (tid + 1) * 64 * 2 * PAGE_SIZE
}

/// A pool with program 1, main thread 1, made by a caller with a3..a5 set.
fn pool_with_one(pm: &mut PageManager) -> TaskPool {
    let mut pool = TaskPool::new();
    let r = pool.create(program(), &caller_env(), 1, 1, MEMORY_END, PROCESS_EXIT, pm);
    assert_eq!(r, Some(1));
    pool
}

#[test]
fn resource_keeps_files_and_releases_the_first() {
    let mut r = Resource::new(3);
    r.push_file(5);
    r.push_file(6);
    r.push_file(5);
    r.release_file(5);
    assert_eq!(r.files, vec![6, 5]);
    r.release_file(9);
    assert_eq!(r.files, vec![6, 5]);
    assert_eq!(r.pid, 3);
}

#[test]
fn pipe_gives_values_in_order() {
    let mut p = PipeUnit::new(4);
    assert_eq!(p.pop(), None);
    p.push(1);
    p.push(2);
    assert_eq!(p.pop(), Some(1));
    p.push(3);
    assert_eq!(p.pop(), Some(2));
    assert_eq!(p.pop(), Some(3));
    assert_eq!(p.pop(), None);
}

#[test]
fn environment_argument_registers() {
    let env = caller_env();
    assert_eq!(env.a3(), 7);
    assert_eq!(env.a4(), 8);
    assert_eq!(env.a5(), 9);
    assert_eq!(env.a2(), 0);
    assert_eq!(Register::SP.val(), 2);
    assert_eq!(Register::A0.val(), 10);
}

#[test]
fn created_main_thread_sleeps_at_the_entry() {
    let mut pm = manager();
    let pool = pool_with_one(&mut pm);
    let info = pool.get_task_exec(1).unwrap();
    assert_eq!(info.state, TaskState::Sleeping);
    assert!(info.is_main);
    assert_eq!(info.priority, 1);
    assert_eq!(info.pid, 1);
    assert_eq!(info.env.epc, ENTRY);
    assert_eq!(info.env.regs[10], 7);
    assert_eq!(info.env.regs[11], 8);
    assert_eq!(info.env.regs[12], 9);
    assert_eq!(info.env.regs[1], PROCESS_EXIT);
    assert_eq!(info.env.regs[2], stack_top(1));
    assert_eq!(info.stack_top, stack_top(1));
    let prog = pool.get_task_prog(1).unwrap();
    assert_eq!(prog.pid, 1);
    assert_eq!(prog.state, TaskState::Running);
    assert_eq!(pool.process[0].tid, vec![1]);
    assert!(pool.get_task_exec(2).is_none());
    assert!(pool.get_task_prog(2).is_none());
}

#[test]
fn threads_stay_in_order_of_number() {
    let mut pm = manager();
    let mut pool = TaskPool::new();
    assert_eq!(pool.create(program(), &caller_env(), 5, 9, MEMORY_END, PROCESS_EXIT, &mut pm), Some(9));
    assert_eq!(pool.create(program(), &caller_env(), 2, 3, MEMORY_END, PROCESS_EXIT, &mut pm), Some(3));
    assert_eq!(pool.thread[0].info.tid, 3);
    assert_eq!(pool.thread[1].info.tid, 9);
    assert_eq!(pool.process[0].info.pid, 2);
    assert_eq!(pool.process[1].info.pid, 5);
    assert_eq!(pool.thread_index(9), Some(1));
    assert_eq!(pool.process_index(5), Some(1));
    assert_eq!(pool.thread_index(4), None);
}

#[test]
fn fork_copies_the_running_thread() {
    let mut pm = manager();
    let mut pool = pool_with_one(&mut pm);
    assert_eq!(pool.start_running(1, 0), Ok(()));
    let mut env = pool.get_task_exec(1).unwrap().env;
    env.epc = 0x2000;
    env.regs[2] = stack_top(1) - 0x10;
    env.regs[5] = 42;
    let (id, copies) = pool.fork(&env, 2, MEMORY_END, &mut pm).unwrap();
    assert_eq!(id, 2);
    assert_eq!(copies.len(), 1);
    let src = pool.get_task_exec(1).unwrap();
    assert_eq!(src.env.epc, 0x2000);
    let t = pool.get_task_exec(2).unwrap();
    assert_eq!(t.state, TaskState::Waiting);
    assert!(!t.is_main);
    assert_eq!(t.pid, 1);
    assert_eq!(t.env.epc, 0x2004);
    assert_eq!(t.env.regs[10], 0);
    assert_eq!(t.env.regs[5], 42);
    assert_eq!(t.env.regs[2], stack_top(2) - 0x10);
    assert_eq!(pool.process[0].tid, vec![1, 2]);
}

#[test]
fn branch_starts_the_named_function() {
    let mut pm = manager();
    let mut pool = pool_with_one(&mut pm);
    assert_eq!(pool.start_running(1, 0), Ok(()));
    let mut env = pool.get_task_exec(1).unwrap().env;
    env.regs[11] = 0x5000;
    env.regs[12] = 77;
    assert_eq!(pool.branch(&env, 4, MEMORY_END, 0x6000), Some(4));
    let t = pool.get_task_exec(4).unwrap();
    assert_eq!(t.state, TaskState::Waiting);
    assert_eq!(t.env.epc, 0x5000);
    assert_eq!(t.env.regs[10], 77);
    assert_eq!(t.env.regs[1], 0x6000);
    assert_eq!(t.env.regs[2], stack_top(4));
    assert_eq!(pool.process[0].tid, vec![1, 4]);
}

#[test]
fn thread_branch_has_an_empty_stack() {
    let mut pm = manager();
    let pool = pool_with_one(&mut pm);
    let t = Thread::branch(&pool.thread[0], 6, MEMORY_END, 0x6000);
    assert_eq!(t.info.tid, 6);
    assert_eq!(t.stack.stack_top, stack_top(6));
    assert_eq!(t.stack.stack_bottom, stack_top(6));
    let i = Info::from_thread(&t);
    assert_eq!(i.tid, 6);
    assert_eq!(i.pid, 1);
    assert_eq!(i.stack_top, stack_top(6));
}

#[test]
fn ending_a_thread_wakes_its_waiters() {
    let mut pm = manager();
    let mut pool = pool_with_one(&mut pm);
    assert_eq!(pool.start_running(1, 0), Ok(()));
    let env = pool.get_task_exec(1).unwrap().env;
    assert_eq!(pool.branch(&env, 2, MEMORY_END, 0x6000), Some(2));
    pool.wait_task(1, 2);
    assert_eq!(pool.get_task_exec(1).unwrap().state, TaskState::Sleeping);
    assert_eq!(pool.remove_task(2), Ok(()));
    assert_eq!(pool.get_task_exec(1).unwrap().state, TaskState::Waiting);
    assert!(pool.get_task_exec(2).is_none());
    assert_eq!(pool.process[0].tid, vec![1]);
}

#[test]
fn waiting_for_a_missing_thread_wakes_at_once() {
    let mut pm = manager();
    let mut pool = pool_with_one(&mut pm);
    pool.wait_task(1, 8);
    assert_eq!(pool.get_task_exec(1).unwrap().state, TaskState::Waiting);
    assert!(pool.waiting_list.is_empty());
}

#[test]
fn ending_a_program_takes_all_its_threads() {
    let mut pm = manager();
    let mut pool = pool_with_one(&mut pm);
    assert_eq!(pool.create(program(), &caller_env(), 2, 5, MEMORY_END, PROCESS_EXIT, &mut pm), Some(5));
    assert_eq!(pool.start_running(1, 0), Ok(()));
    let env = pool.get_task_exec(1).unwrap().env;
    assert_eq!(pool.branch(&env, 3, MEMORY_END, 0x6000), Some(3));
    pool.wait_task(5, 3);
    assert_eq!(pool.get_task_exec(5).unwrap().state, TaskState::Sleeping);
    assert_eq!(pool.remove_program(1), Ok(()));
    assert!(pool.get_task_exec(1).is_none());
    assert!(pool.get_task_exec(3).is_none());
    assert_eq!(pool.get_task_exec(5).unwrap().state, TaskState::Waiting);
    assert_eq!(pool.process.len(), 1);
    assert_eq!(pool.process[0].info.pid, 2);
}

#[test]
fn join_wakes_the_program_when_all_have_joined() {
    let mut pm = manager();
    let mut pool = pool_with_one(&mut pm);
    assert_eq!(pool.start_running(1, 0), Ok(()));
    let env = pool.get_task_exec(1).unwrap().env;
    assert_eq!(pool.branch(&env, 2, MEMORY_END, 0x6000), Some(2));
    pool.join(2);
    assert_eq!(pool.get_task_exec(2).unwrap().state, TaskState::Sleeping);
    assert_eq!(pool.process[0].join_num, 1);
    pool.join(1);
    assert_eq!(pool.get_task_exec(1).unwrap().state, TaskState::Waiting);
    assert_eq!(pool.get_task_exec(2).unwrap().state, TaskState::Waiting);
    assert_eq!(pool.process[0].join_num, 0);
}

#[test]
fn timers_go_off_when_due() {
    let mut pm = manager();
    let mut pool = pool_with_one(&mut pm);
    pool.set_timer(1, 100);
    let info = pool.get_task_exec(1).unwrap();
    assert_eq!(info.state, TaskState::Sleeping);
    assert_eq!(info.trigger_time, 100);
    pool.check_timer(50);
    assert_eq!(pool.get_task_exec(1).unwrap().state, TaskState::Sleeping);
    assert_eq!(pool.time_list, vec![100]);
    pool.check_timer(100);
    let info = pool.get_task_exec(1).unwrap();
    assert_eq!(info.state, TaskState::Waiting);
    assert_eq!(info.trigger_time, 0);
    assert!(pool.time_list.is_empty());
    assert!(pool.wait_time_list.is_empty());
}

#[test]
fn timers_are_kept_in_order() {
    let mut pm = manager();
    let mut pool = pool_with_one(&mut pm);
    assert_eq!(pool.create(program(), &caller_env(), 2, 2, MEMORY_END, PROCESS_EXIT, &mut pm), Some(2));
    pool.set_timer(1, 300);
    pool.set_timer(2, 200);
    assert_eq!(pool.time_list, vec![200, 300]);
    assert_eq!(pool.wait_time_list, vec![(200, 2), (300, 1)]);
    pool.check_timer(250);
    assert_eq!(pool.get_task_exec(2).unwrap().state, TaskState::Waiting);
    assert_eq!(pool.get_task_exec(1).unwrap().state, TaskState::Sleeping);
    assert_eq!(pool.time_list, vec![300]);
}

#[test]
fn scheduler_rotates_by_priority() {
    let mut pm = manager();
    let mut pool = pool_with_one(&mut pm);
    assert_eq!(pool.create(program(), &caller_env(), 2, 2, MEMORY_END, PROCESS_EXIT, &mut pm), Some(2));
    assert_eq!(pool.set_state(1, TaskState::Waiting), Ok(()));
    assert_eq!(pool.set_state(2, TaskState::Waiting), Ok(()));
    let mut s = Scheduler::new();
    // Both have priority 1: the later one wins, the earlier gains a point.
    assert_eq!(s.schedule(&mut pool), Some(2));
    assert_eq!(pool.get_task_exec(1).unwrap().priority, 2);
    assert_eq!(pool.get_task_exec(2).unwrap().priority, 0);
    assert_eq!(s.schedule(&mut pool), Some(1));
    assert_eq!(pool.get_task_exec(1).unwrap().priority, 0);
    assert_eq!(pool.get_task_exec(2).unwrap().priority, 0);
}

#[test]
fn scheduler_without_waiting_threads_picks_none() {
    let mut pm = manager();
    let mut pool = pool_with_one(&mut pm);
    let mut s = Scheduler::new();
    assert_eq!(s.schedule(&mut pool), None);
    pool.set_priority(1, 5);
    assert_eq!(pool.get_task_exec(1).unwrap().priority, 5);
}

#[test]
fn set_state_of_a_missing_thread_fails() {
    let mut pool = TaskPool::new();
    assert_eq!(pool.set_state(1, TaskState::Waiting), Err(()));
    assert_eq!(pool.save_running(1, &Environment::new()), Err(()));
    assert_eq!(pool.start_running(1, 0), Err(()));
    assert_eq!(pool.set_env(1, &Environment::new()), Err(()));
    assert_eq!(pool.find_running(0), None);
}

#[test]
fn manager_schedules_onto_the_hart() {
    let mut pm = manager();
    let mut pool = pool_with_one(&mut pm);
    assert_eq!(pool.set_state(1, TaskState::Waiting), Ok(()));
    let mut mgr = TaskManager::new(Scheduler::new(), pool);
    let mut env = Environment::new();
    env.hartid = 1;
    let info = mgr.schedule(&env, 0).unwrap();
    assert_eq!(info.tid, 1);
    assert_eq!(info.state, TaskState::Running);
    assert_eq!(info.env.hartid, 1);
    let (e, p) = mgr.get_current_task(1).unwrap();
    assert_eq!(e.tid, 1);
    assert_eq!(p.pid, 1);
    assert!(mgr.get_current_task(0).is_none());
    // The running thread stops with the registers it is scheduled away with.
    env.epc = 0x1234;
    let next = mgr.schedule(&env, 0).unwrap();
    assert_eq!(next.tid, 1);
    assert_eq!(next.env.epc, 0x1234);
}

#[test]
fn manager_wait_and_sleep_step_past_the_call() {
    let mut pm = manager();
    let pool = pool_with_one(&mut pm);
    let mut mgr = TaskManager::new(Scheduler::new(), pool);
    assert_eq!(mgr.start(1, 0).unwrap().state, TaskState::Running);
    let mut env = Environment::new();
    env.epc = 0x100;
    mgr.wait_task(&env, 9);
    let info = mgr.get_task_exec(1).unwrap();
    assert_eq!(info.state, TaskState::Waiting);
    assert_eq!(info.env.epc, 0x104);
    assert_eq!(mgr.sleep_task(1, &env), Ok(()));
    assert_eq!(mgr.get_task_exec(1).unwrap().state, TaskState::Sleeping);
    mgr.wake_task(1);
    assert_eq!(mgr.get_task_exec(1).unwrap().state, TaskState::Waiting);
    assert_eq!(mgr.sleep_task(3, &env), Err(()));
}

#[test]
fn manager_sleep_timer_counts_from_now() {
    let mut pm = manager();
    let pool = pool_with_one(&mut pm);
    let mut mgr = TaskManager::new(Scheduler::new(), pool);
    mgr.start(1, 0);
    let env = Environment::new();
    mgr.sleep_timer(&env, 30, 1000);
    let info = mgr.get_task_exec(1).unwrap();
    assert_eq!(info.trigger_time, 1030);
    assert_eq!(info.state, TaskState::Sleeping);
    assert_eq!(info.env.epc, 4);
}

#[test]
fn manager_kills_a_main_thread_with_its_program() {
    let mut pm = manager();
    let mut pool = pool_with_one(&mut pm);
    assert_eq!(pool.start_running(1, 0), Ok(()));
    let env = pool.get_task_exec(1).unwrap().env;
    assert_eq!(pool.branch(&env, 2, MEMORY_END, 0x6000), Some(2));
    let mut mgr = TaskManager::new(Scheduler::new(), pool);
    assert_eq!(mgr.get_program_info(1).unwrap().pid, 1);
    mgr.kill_task(2);
    assert!(mgr.get_task_exec(2).is_none());
    assert!(mgr.get_task_exec(1).is_some());
    mgr.program_exit(1);
    assert!(mgr.get_task_exec(1).is_none());
    assert!(mgr.get_program_info(1).is_none());
    assert!(mgr.task_pool.process.is_empty());
}

#[test]
fn heap_of_a_program_starts_at_the_end_of_memory() {
    let mut pm = manager();
    let mut pool = pool_with_one(&mut pm);
    let (va, pa) = pool.alloc_heap(64, 1, &mut pm).unwrap();
    assert!(va >= MEMORY_END);
    assert_eq!(pool.virt_to_phy(1, va, MEMORY_END), pa);
    // An address in the program's area goes through the area.
    assert_eq!(pool.virt_to_phy(1, 0x1800, MEMORY_END), 0x8030_0800);
    // A stack address goes through the thread's stack.
    let top = stack_top(1);
    let pa_top = pool.virt_to_phy(1, top - 8, MEMORY_END);
    assert_eq!(pa_top, pool.thread[0].stack.area[0].pst + (top - 8 - pool.thread[0].stack.area[0].vst));
}

#[test]
fn stack_expands_by_steps_until_full() {
    let mut pm = manager();
    let mut pool = pool_with_one(&mut pm);
    let before = pool.thread[0].stack.stack_bottom;
    assert_eq!(pool.expand_stack(1, &mut pm), Ok(()));
    assert_eq!(pool.thread[0].stack.stack_bottom, before - 16 * PAGE_SIZE);
    assert_eq!(pool.expand_stack(1, &mut pm), Ok(()));
    assert_eq!(pool.expand_stack(1, &mut pm), Ok(()));
    assert_eq!(pool.expand_stack(1, &mut pm), Err(()));
}

#[test]
fn files_go_to_the_threads_program() {
    let mut pm = manager();
    let mut pool = pool_with_one(&mut pm);
    pool.push_file(1, 10);
    pool.push_file(1, 11);
    pool.release_file(1, 10);
    assert_eq!(pool.process[0].resource.files, vec![11]);
}

#[test]
fn uart_divisor_and_line_status() {
    assert_eq!(divisor_bytes(DIVISOR), (0x50, 0x02));
    assert!(input_ready(0x61));
    assert!(!input_ready(0x60));
}

#[test]
fn init_process_runs_on_hart_zero() {
    let mut pm = manager();
    let mut mgr = TaskManager::new(Scheduler::new(), TaskPool::new());
    let info = start_init_process(
        &mut mgr, 0x8000_4000, 0x8000_0000, 0x8001_0000, 0x8001_0000, 0x8002_0000, 0, 0, MEMORY_END, &mut pm,
    )
    .unwrap();
    assert_eq!(info.tid, 0);
    assert_eq!(info.state, TaskState::Running);
    assert_eq!(info.env.epc, 0x8000_4000);
    assert_eq!(info.env.hartid, 0);
    assert!(info.is_main && info.is_kernel);
    assert_eq!(mgr.task_pool.process[0].program.area.len(), 4);
}

#[test]
fn closures_find_select_and_change_threads() {
    let mut pm = manager();
    let mut pool = pool_with_one(&mut pm);
    assert_eq!(pool.create(program(), &caller_env(), 2, 5, MEMORY_END, PROCESS_EXIT, &mut pm), Some(5));
    assert_eq!(pool.create(program(), &caller_env(), 3, 7, MEMORY_END, PROCESS_EXIT, &mut pm), Some(7));
    assert_eq!(pool.find(|i| i.pid >= 2), Some(5));
    assert_eq!(pool.find(|i| i.pid > 9), None);
    assert_eq!(pool.select(|i| i.tid != 5), Some(vec![1, 7]));
    assert_eq!(pool.select(|i| i.tid > 100), None);
    assert_eq!(pool.set_task_exec(7, |i| tisuos::task::task_info::ExecutionInfo { priority: 9, ..i }), Ok(()));
    assert_eq!(pool.get_task_exec(7).unwrap().priority, 9);
    assert_eq!(pool.set_task_exec(8, |i| i), Err(()));
    pool.operation_all(|i| tisuos::task::task_info::ExecutionInfo { trigger_time: 3, ..i });
    assert!(pool.thread.iter().all(|t| t.info.trigger_time == 3));
    assert_eq!(
        pool.set_task_prog(2, |p| tisuos::task::task_info::ProgramInfo { state: TaskState::Sleeping, ..p }),
        Ok(())
    );
    assert_eq!(pool.process[1].info.state, TaskState::Sleeping);
    assert_eq!(pool.set_task_prog(4, |p| p), Err(()));
    let mgr = TaskManager::new(Scheduler::new(), pool);
    assert_eq!(mgr.find(|i| i.tid == 7), Some(7));
}
