use deet::debugger::Breakpoint;
use deet::inferior::{addresses, breakpoint_behind, Inferior, InstallFailure, Status, TraceError};
use deet::tracing::WaitEvent;
use std::collections::HashMap;

const NO_SUCH_PROCESS: i32 = i32::MAX;
const ESRCH: i32 = 3;
const ECHILD: i32 = 10;

#[test]
fn only_a_stop_leaves_the_process_alive() {
    assert!(!Status::Stopped(5, 0x1000).terminal());
    assert!(Status::Exited(0).terminal());
    assert!(Status::Exited(1).terminal());
    assert!(Status::Signaled(11).terminal());
}

#[test]
fn a_wait_report_becomes_a_status() {
    assert_eq!(Status::from_event(WaitEvent::Exited(3), 0x77), Some(Status::Exited(3)));
    assert_eq!(Status::from_event(WaitEvent::Signaled(9), 0x77), Some(Status::Signaled(9)));
    assert_eq!(
        Status::from_event(WaitEvent::Stopped(5), 0x401001),
        Some(Status::Stopped(5, 0x401001))
    );
    assert_eq!(Status::from_event(WaitEvent::Other, 0x77), None);
}

#[test]
fn a_trap_is_found_one_byte_behind_the_instruction_pointer() {
    let mut table: HashMap<usize, Option<Breakpoint>> = HashMap::new();
    table.insert(0x401000, Some(Breakpoint { addr: 0x401000, orig_byte: 0x55 }));
    table.insert(0x401010, None);
    assert_eq!(
        breakpoint_behind(0x401001, &table),
        Some(Breakpoint { addr: 0x401000, orig_byte: 0x55 })
    );
    assert_eq!(breakpoint_behind(0x401000, &table), None);
    assert_eq!(breakpoint_behind(0x401002, &table), None);
    assert_eq!(breakpoint_behind(0x401011, &table), None);
    assert_eq!(breakpoint_behind(0, &table), None);
    assert_eq!(breakpoint_behind(1, &table), None);
}

#[test]
fn a_breakpoint_at_address_zero_is_found_from_one() {
    let mut table: HashMap<usize, Option<Breakpoint>> = HashMap::new();
    table.insert(0, Some(Breakpoint { addr: 0, orig_byte: 0x90 }));
    assert_eq!(breakpoint_behind(1, &table), Some(Breakpoint { addr: 0, orig_byte: 0x90 }));
    assert_eq!(breakpoint_behind(0, &table), None);
}

#[test]
fn the_hit_is_named_by_its_place_in_the_table() {
    let mut table: HashMap<usize, Option<Breakpoint>> = HashMap::new();
    table.insert(0x2000, Some(Breakpoint { addr: 0x9999, orig_byte: 0x12 }));
    assert_eq!(
        breakpoint_behind(0x2001, &table),
        Some(Breakpoint { addr: 0x2000, orig_byte: 0x12 })
    );
}

#[test]
fn addresses_lists_every_key_once() {
    let mut table: HashMap<usize, Option<Breakpoint>> = HashMap::new();
    assert!(addresses(&table).is_empty());
    table.insert(3, None);
    table.insert(1, Some(Breakpoint { addr: 1, orig_byte: 0 }));
    table.insert(2, None);
    let mut listed = addresses(&table);
    listed.sort();
    assert_eq!(listed, vec![1, 2, 3]);
}

#[test]
fn no_process_no_inferior() {
    let mut table: HashMap<usize, Option<Breakpoint>> = HashMap::new();
    table.insert(0x401000, None);
    table.insert(0x401010, Some(Breakpoint { addr: 0x401010, orig_byte: 0x48 }));
    let before = table.clone();
    let (inferior, failures) = Inferior::new(None, &mut table);
    assert!(inferior.is_none());
    assert!(failures.is_empty());
    assert_eq!(table, before);
}

#[test]
fn breakpoints_that_cannot_be_written_become_pending() {
    let mut table: HashMap<usize, Option<Breakpoint>> = HashMap::new();
    table.insert(0x401000, None);
    table.insert(0x401010, Some(Breakpoint { addr: 0x401010, orig_byte: 0x48 }));
    let (inferior, mut failures) = Inferior::new(Some(NO_SUCH_PROCESS), &mut table);
    let inferior = inferior.unwrap();
    assert_eq!(inferior.pid(), NO_SUCH_PROCESS);
    failures.sort_by_key(|failure| failure.addr);
    assert_eq!(
        failures,
        vec![
            InstallFailure { addr: 0x401000, error: TraceError::Os(ESRCH) },
            InstallFailure { addr: 0x401010, error: TraceError::Os(ESRCH) },
        ]
    );
    assert_eq!(table.len(), 2);
    assert_eq!(table.get(&0x401000), Some(&None));
    assert_eq!(table.get(&0x401010), Some(&None));
}

#[test]
fn requests_to_a_process_that_is_not_there_fail_with_the_errno() {
    let mut table: HashMap<usize, Option<Breakpoint>> = HashMap::new();
    let (inferior, _) = Inferior::new(Some(NO_SUCH_PROCESS), &mut table);
    let mut inferior = inferior.unwrap();
    assert_eq!(inferior.write_byte(0x401000, 0xcc), Err(TraceError::Os(ESRCH)));
    assert_eq!(inferior.continue_exec(&table), Err(TraceError::Os(ESRCH)));
    assert_eq!(inferior.wait(None), Err(TraceError::Os(ECHILD)));
    assert_eq!(inferior.pid(), NO_SUCH_PROCESS);
}

#[test]
fn a_wait_comes_to_what_the_two_answers_say() {
    assert_eq!(Status::after_wait(Err(ECHILD), Ok(7)), Err(TraceError::Os(ECHILD)));
    assert_eq!(Status::after_wait(Ok(WaitEvent::Exited(3)), Err(ESRCH)), Ok(Status::Exited(3)));
    assert_eq!(Status::after_wait(Ok(WaitEvent::Signaled(9)), Ok(7)), Ok(Status::Signaled(9)));
    assert_eq!(
        Status::after_wait(Ok(WaitEvent::Stopped(5)), Ok(0x401001)),
        Ok(Status::Stopped(5, 0x401001))
    );
    assert_eq!(
        Status::after_wait(Ok(WaitEvent::Stopped(5)), Err(ESRCH)),
        Err(TraceError::Os(ESRCH))
    );
    assert_eq!(
        Status::after_wait(Ok(WaitEvent::Other), Ok(7)),
        Err(TraceError::UnexpectedStatus)
    );
}

#[test]
fn reads_of_a_process_that_is_not_there_fail_with_the_errno() {
    let mut table: HashMap<usize, Option<Breakpoint>> = HashMap::new();
    let (inferior, _) = Inferior::new(Some(NO_SUCH_PROCESS), &mut table);
    let mut inferior = inferior.unwrap();
    assert_eq!(inferior.read_word(0x401000), Err(ESRCH));
    assert!(inferior.registers().is_err());
}
