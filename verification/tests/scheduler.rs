use bitoxide::f64_total::F64Total;
use bitoxide::netscript::Arg;
use bitoxide::netscript::BitburnerError;
use bitoxide::netscript::FilenameOrPID;
use bitoxide::netscript::RunningScript;
use bitoxide::netscript::Shims;
use bitoxide::netscript::ThreadOrOptions;
use bitoxide::netscript::NS;
use bitoxide::run::executor::BitburnerExecutor;
use bitoxide::run::executor::RamCell;
use bitoxide::run::executor::RamChange;
use bitoxide::run::executor::TaskResult;
use bitoxide::run::process::BitburnerProcess;
use bitoxide::run::process::Poll;
use bitoxide::run::reactor::WakeDelay;
use bitoxide::run::waker::TaskId;
use std::cell::Cell;
use std::cell::RefCell;

/// A host that launches workers which run for a fixed time each.
struct Host {
    clock: Cell<u64>,
    next_pid: Cell<u32>,
    run_time: Cell<u64>,
    refuse_launch: Cell<bool>,
    refuse_kill: Cell<bool>,
    fail_is_running: Cell<bool>,
    /// (pid, script, start, end, killed)
    workers: RefCell<Vec<(u32, String, u64, u64, bool)>>,
    peak_running: Cell<usize>,
    log: RefCell<Vec<String>>,
}

impl Host {
    fn new(run_time: u64) -> Host {
        Host {
            clock: Cell::new(0),
            next_pid: Cell::new(42),
            run_time: Cell::new(run_time),
            refuse_launch: Cell::new(false),
            refuse_kill: Cell::new(false),
            fail_is_running: Cell::new(false),
            workers: RefCell::new(vec![]),
            peak_running: Cell::new(0),
            log: RefCell::new(vec![]),
        }
    }

    fn running(&self, pid: u32) -> bool {
        let now = self.clock.get();
        self.workers.borrow().iter().any(|w| w.0 == pid && !w.4 && now < w.3)
    }

    fn running_count(&self) -> usize {
        let now = self.clock.get();
        self.workers.borrow().iter().filter(|w| !w.4 && now < w.3).count()
    }

    fn launches(&self) -> Vec<(u32, u64)> {
        self.workers.borrow().iter().map(|w| (w.0, w.2)).collect()
    }
}

impl Shims for &Host {
    type Server = ();
    type Port = ();

    fn args_shim(&self) -> Vec<Arg> {
        vec![]
    }

    fn pid_shim(&self) -> u32 {
        1
    }

    fn weaken_analyze_shim(&self, _threads: u32, _cores: Option<u32>) -> F64Total {
        unreachable!()
    }

    fn hack_analyze_shim(&self, _host: &str) -> Result<F64Total, BitburnerError> {
        unreachable!()
    }

    fn hack_analyze_security_shim(&self, _threads: u32, _hostname: Option<&str>) -> Result<F64Total, BitburnerError> {
        unreachable!()
    }

    fn hack_analyze_chance_shim(&self, _host: &str) -> Result<F64Total, BitburnerError> {
        unreachable!()
    }

    fn growth_analyze_shim(&self, _host: &str, _multiplier: F64Total, _cores: Option<u32>) -> Result<F64Total, BitburnerError> {
        unreachable!()
    }

    fn growth_analyze_security_shim(&self, _threads: u32, _hostname: Option<&str>, _cores: Option<u32>) -> Result<F64Total, BitburnerError> {
        unreachable!()
    }

    fn print_shim(&self, to_print: &str) {
        self.log.borrow_mut().push(to_print.to_owned());
    }

    fn tprint_shim(&self, _to_print: &str) {}

    fn clear_log_shim(&self) {}

    fn disable_log_shim(&self, _fun: &str) -> Result<(), BitburnerError> {
        Ok(())
    }

    fn enable_log_shim(&self, _fun: &str) -> Result<(), BitburnerError> {
        Ok(())
    }

    fn tail_shim(&self, _filename: &Option<FilenameOrPID>, _host: Option<&str>, _args: &Vec<Arg>) -> Result<(), BitburnerError> {
        Ok(())
    }

    fn scan_shim(&self, _host: Option<&str>) -> Result<Vec<String>, BitburnerError> {
        unreachable!()
    }

    fn nuke_shim(&self, _host: &str) -> Result<(), BitburnerError> {
        unreachable!()
    }

    fn brutessh_shim(&self, _host: &str) -> Result<(), BitburnerError> {
        unreachable!()
    }

    fn ftpcrack_shim(&self, _host: &str) -> Result<(), BitburnerError> {
        unreachable!()
    }

    fn relaysmtp_shim(&self, _host: &str) -> Result<(), BitburnerError> {
        unreachable!()
    }

    fn httpworm_shim(&self, _host: &str) -> Result<(), BitburnerError> {
        unreachable!()
    }

    fn sqlinject_shim(&self, _host: &str) -> Result<(), BitburnerError> {
        unreachable!()
    }

    fn run_shim(&self, script: &str, _thread_or_options: &Option<ThreadOrOptions>, _args: &Vec<Arg>) -> Result<u32, BitburnerError> {
        if script == "missing.js" {
            return Err(BitburnerError::new("run: no such script"));
        }
        if self.refuse_launch.get() {
            return Ok(0);
        }
        let pid = self.next_pid.get();
        self.next_pid.set(pid + 1);
        let now = self.clock.get();
        self.workers.borrow_mut().push((pid, script.to_owned(), now, now + self.run_time.get(), false));
        self.peak_running.set(self.peak_running.get().max(self.running_count()));
        Ok(pid)
    }

    fn kill_shim(&self, pid: u32) -> bool {
        if self.refuse_kill.get() {
            return false;
        }
        let was_running = self.running(pid);
        for worker in self.workers.borrow_mut().iter_mut() {
            if worker.0 == pid {
                worker.4 = true;
            }
        }
        was_running
    }

    fn has_root_access_shim(&self, _host: &str) -> Result<bool, BitburnerError> {
        unreachable!()
    }

    fn get_hostname_shim(&self) -> String {
        "home".to_owned()
    }

    fn get_hacking_level_shim(&self) -> u32 {
        unreachable!()
    }

    fn get_server_shim(&self, _host: Option<&str>) -> Result<(), BitburnerError> {
        Ok(())
    }

    fn get_server_money_available_shim(&self, _host: &str) -> Result<F64Total, BitburnerError> {
        unreachable!()
    }

    fn get_server_max_money_shim(&self, _host: &str) -> Result<F64Total, BitburnerError> {
        unreachable!()
    }

    fn get_server_growth_shim(&self, _host: &str) -> Result<F64Total, BitburnerError> {
        unreachable!()
    }

    fn get_server_security_level_shim(&self, _host: &str) -> Result<F64Total, BitburnerError> {
        unreachable!()
    }

    fn get_server_min_security_level_shim(&self, _host: &str) -> Result<F64Total, BitburnerError> {
        unreachable!()
    }

    fn get_server_base_security_level_shim(&self, _host: &str) -> Result<F64Total, BitburnerError> {
        unreachable!()
    }

    fn get_server_max_ram_shim(&self, _host: &str) -> Result<u64, BitburnerError> {
        unreachable!()
    }

    fn get_server_used_ram_shim(&self, _host: &str) -> Result<u64, BitburnerError> {
        unreachable!()
    }

    fn get_server_required_hacking_level_shim(&self, _host: &str) -> Result<u32, BitburnerError> {
        unreachable!()
    }

    fn get_server_num_ports_required_shim(&self, _host: &str) -> Result<u32, BitburnerError> {
        unreachable!()
    }

    fn server_exists_shim(&self, _host: &str) -> bool {
        true
    }

    fn get_port_handle_shim(&self, _port_number: u32) -> Result<(), BitburnerError> {
        Ok(())
    }

    fn is_running_shim(&self, script: &FilenameOrPID, _host: Option<&str>, _args: &Vec<Arg>) -> Result<bool, BitburnerError> {
        if self.fail_is_running.get() {
            return Err(BitburnerError::new("isRunning: invalid process"));
        }
        match script {
            FilenameOrPID::Pid(pid) => Ok(self.running(*pid)),
            FilenameOrPID::Name(_) => Ok(false),
        }
    }

    fn get_running_script_shim(&self, _filename: &Option<FilenameOrPID>, _hostname: Option<&str>, _args: &Vec<Arg>) -> Result<Option<RunningScript>, BitburnerError> {
        Ok(None)
    }

    fn get_hack_time_shim(&self, _host: &str) -> Result<u64, BitburnerError> {
        Ok(125)
    }

    fn get_grow_time_shim(&self, _host: &str) -> Result<u64, BitburnerError> {
        Ok(400)
    }

    fn get_weaken_time_shim(&self, _host: &str) -> Result<u64, BitburnerError> {
        Ok(500)
    }
}

fn worker(script: &str, duration_hint: u64, ram_hint: u64) -> BitburnerProcess {
    BitburnerProcess::new(script.to_owned(), None, vec![Arg::from_str("home")], duration_hint, ram_hint)
}

/// Runs the executor against the host's clock, asserting the budget at
/// every round. Returns the result and the number of rounds.
fn run(executor: &mut BitburnerExecutor, host: &Host, max_rounds: usize) -> (TaskResult, usize) {
    let ns = NS::new(host);
    let max = executor.get_ram_cell().get_max();
    for round in 1..=max_rounds {
        assert!(executor.get_ram_cell().get() <= max);
        let sleep_for = executor.sleep_for(host.clock.get());
        assert!(sleep_for >= 1);
        host.clock.set(host.clock.get() + sleep_for);
        let done = executor.turn(&ns, host.clock.get());
        assert!(executor.get_ram_cell().get() <= max);
        if let Some(result) = done {
            return (result, round);
        }
    }
    panic!("the run did not end within {max_rounds} rounds");
}

#[test]
fn launch_under_budget() {
    let host = Host::new(500);
    let mut executor = BitburnerExecutor::new(1500);
    let ns = NS::new(&host);
    let weaken = bitoxide::run::weaken_process(&ns, "home", Some(ThreadOrOptions::Threads(1))).unwrap();
    assert_eq!(weaken.ram_hint(), 175);
    assert_eq!(weaken.duration_hint(), 500);
    let task = executor.register(weaken);
    assert_eq!(task, TaskId { index: 0 });
    let (result, _) = run(&mut executor, &host, 10);
    assert_eq!(result, Ok(()));
    assert!(host.clock.get() <= 600);
    assert_eq!(executor.get_ram_cell().get(), 1500);
    assert_eq!(host.launches(), vec![(42, 1)]);
    let process = executor.task(task).unwrap();
    assert!(process.is_launched());
    assert!(process.is_released());
    assert_eq!(process.pid(), Some(42));
    assert!(executor.task(TaskId { index: 1 }).is_none());
}

#[test]
fn ram_is_taken_while_the_worker_runs() {
    let host = Host::new(500);
    let ns = NS::new(&host);
    let mut executor = BitburnerExecutor::new(1500);
    executor.register(worker("weaken.js", 500, 175));
    host.clock.set(1);
    assert_eq!(executor.turn(&ns, 1), None);
    assert_eq!(executor.get_ram_cell().get(), 1325);
    assert_eq!(executor.sleep_for(1), 500);
    host.clock.set(300);
    assert_eq!(executor.turn(&ns, 300), None);
    assert_eq!(executor.get_ram_cell().get(), 1325);
    host.clock.set(501);
    assert_eq!(executor.turn(&ns, 501), Some(Ok(())));
    assert_eq!(executor.get_ram_cell().get(), 1500);
}

#[test]
fn launch_fails() {
    let host = Host::new(500);
    host.refuse_launch.set(true);
    let mut executor = BitburnerExecutor::new(1500);
    executor.register(worker("weaken.js", 500, 175));
    let (result, rounds) = run(&mut executor, &host, 10);
    assert_eq!(result, Err("Failed to launch weaken.js".to_owned()));
    assert_eq!(rounds, 1);
    assert_eq!(executor.get_ram_cell().get(), 1500);
    assert!(host.launches().is_empty());
}

#[test]
fn host_error_on_launch_ends_the_task() {
    let host = Host::new(500);
    let mut executor = BitburnerExecutor::new(1500);
    executor.register(worker("missing.js", 500, 175));
    let (result, rounds) = run(&mut executor, &host, 10);
    assert_eq!(result, Err("run: no such script".to_owned()));
    assert_eq!(rounds, 1);
    assert_eq!(executor.get_ram_cell().get(), 1500);
}

#[test]
fn host_error_while_running_ends_the_task_and_the_kill_returns_the_ram() {
    let host = Host::new(500);
    let ns = NS::new(&host);
    let mut executor = BitburnerExecutor::new(1500);
    executor.register(worker("weaken.js", 500, 175));
    host.clock.set(1);
    assert_eq!(executor.turn(&ns, 1), None);
    host.fail_is_running.set(true);
    host.clock.set(501);
    assert_eq!(executor.turn(&ns, 501), Some(Err("isRunning: invalid process".to_owned())));
    // The failed task still holds its RAM
    assert_eq!(executor.get_ram_cell().get(), 1325);
    // Nothing is killed while the host cannot say what runs
    assert_eq!(executor.kill_all(&ns), 0);
    assert_eq!(executor.get_ram_cell().get(), 1325);
    host.fail_is_running.set(false);
    host.clock.set(400);
    assert_eq!(executor.kill_all(&ns), 1);
    assert_eq!(executor.get_ram_cell().get(), 1500);
    assert_eq!(executor.kill_all(&ns), 0);
    assert_eq!(executor.get_ram_cell().get(), 1500);
}

#[test]
fn ram_serialization() {
    let host = Host::new(100);
    let mut executor = BitburnerExecutor::new(300);
    for _ in 0..3 {
        executor.register(worker("weaken.js", 100, 200));
    }
    let (result, _) = run(&mut executor, &host, 100);
    assert_eq!(result, Ok(()));
    assert_eq!(host.peak_running.get(), 1);
    let starts: Vec<u64> = host.launches().iter().map(|l| l.1).collect();
    assert_eq!(starts, vec![1, 101, 201]);
    assert_eq!(host.clock.get(), 301);
    assert_eq!(executor.get_ram_cell().get(), 300);
    assert_eq!(executor.task_count(), 3);
}

#[test]
fn deadlock() {
    let host = Host::new(100);
    let ns = NS::new(&host);
    let mut executor = BitburnerExecutor::new(100);
    executor.register(worker("weaken.js", 100, 200));
    let (result, rounds) = run(&mut executor, &host, 10);
    assert_eq!(result, Err("All tasks waiting on RAM release".to_owned()));
    assert!(rounds <= 2);
    assert!(host.launches().is_empty());
    assert_eq!(executor.kill_all(&ns), 0);
    assert_eq!(executor.get_ram_cell().get(), 100);
}

#[test]
fn retry_on_overrun() {
    let host = Host::new(200);
    let ns = NS::new(&host);
    let mut executor = BitburnerExecutor::new(1500);
    let task = executor.register(worker("weaken.js", 100, 175));
    host.clock.set(1);
    assert_eq!(executor.turn(&ns, 1), None);
    assert_eq!(executor.sleep_for(1), 100);
    // At the expected end the worker still runs
    host.clock.set(101);
    assert_eq!(executor.turn(&ns, 101), None);
    // Polled after the expected end, the task backs off
    host.clock.set(102);
    assert_eq!(executor.turn(&ns, 102), None);
    assert_eq!(executor.task(task).unwrap().schedule_wake(102), WakeDelay::Retry);
    assert_eq!(executor.sleep_for(102), 25);
    host.clock.set(127);
    assert_eq!(executor.turn(&ns, 127), None);
    assert_eq!(executor.sleep_for(127), 25);
    let (result, _) = run(&mut executor, &host, 20);
    assert_eq!(result, Ok(()));
    assert!(host.clock.get() >= 201 && host.clock.get() <= 230);
    assert_eq!(executor.get_ram_cell().get(), 1500);
}

#[test]
fn independent_tasks_within_budget_all_complete() {
    let host = Host::new(100);
    let mut executor = BitburnerExecutor::new(1000);
    for _ in 0..5 {
        executor.register(worker("weaken.js", 100, 200));
    }
    let (result, rounds) = run(&mut executor, &host, 10);
    assert_eq!(result, Ok(()));
    assert_eq!(rounds, 2);
    assert_eq!(host.peak_running.get(), 5);
    assert_eq!(host.launches().len(), 5);
    assert!(host.launches().iter().all(|l| l.1 == 1));
    assert_eq!(executor.get_ram_cell().get(), 1000);
}

#[test]
fn tasks_over_budget_complete_in_waves() {
    // 4 tasks of 200 each with a budget of 400: total / budget = 2 waves
    let host = Host::new(100);
    let mut executor = BitburnerExecutor::new(400);
    for _ in 0..4 {
        executor.register(worker("weaken.js", 100, 200));
    }
    let (result, _) = run(&mut executor, &host, 20);
    assert_eq!(result, Ok(()));
    let starts: Vec<u64> = host.launches().iter().map(|l| l.1).collect();
    assert_eq!(starts, vec![1, 1, 101, 101]);
    assert_eq!(host.peak_running.get(), 2);
    assert_eq!(host.clock.get(), 201);
    assert_eq!(executor.get_ram_cell().get(), 400);
}

#[test]
fn tasks_are_polled_in_the_order_they_were_woken() {
    let host = Host::new(100);
    let mut executor = BitburnerExecutor::new(10_000);
    executor.register(worker("hack.js", 100, 170));
    executor.register(worker("grow.js", 100, 175));
    executor.register(worker("weaken.js", 100, 175));
    let (result, _) = run(&mut executor, &host, 10);
    assert_eq!(result, Ok(()));
    let scripts: Vec<String> = host.workers.borrow().iter().map(|w| w.1.clone()).collect();
    assert_eq!(scripts, vec!["hack.js", "grow.js", "weaken.js"]);
}

#[test]
fn an_executor_without_tasks_ends_at_once() {
    let host = Host::new(100);
    let mut executor = BitburnerExecutor::new(5);
    assert_eq!(executor.sleep_for(0), 1);
    assert_eq!(executor.sleep_for(77), 1);
    let (result, rounds) = run(&mut executor, &host, 3);
    assert_eq!(result, Ok(()));
    assert_eq!(rounds, 1);
    assert_eq!(executor.verdict(9), Some(Ok(())));
}

#[test]
fn process_poll_step_by_step() {
    let host = Host::new(50);
    let ns = NS::new(&host);
    let mut cell = RamCell::new(300);
    let mut process = worker("weaken.js", 50, 200);
    let mut second = worker("weaken.js", 50, 200);
    assert!(!process.is_launched());
    assert!(process.can_launch(&cell));
    assert_eq!(process.schedule_wake(0), WakeDelay::AfterNextRamRelease);
    assert_eq!(process.is_finished(&ns).unwrap(), false);
    assert_eq!(process.is_running(&ns).unwrap(), false);
    assert!(!process.kill(&ns, &mut cell));

    host.clock.set(10);
    assert_eq!(process.poll(&ns, 10, &mut cell), Poll::Pending(WakeDelay::WakeAt(60)));
    assert_eq!(cell.get(), 100);
    assert!(process.is_launched());
    assert!(!second.can_launch(&cell));
    assert_eq!(second.poll(&ns, 10, &mut cell), Poll::Pending(WakeDelay::AfterNextRamRelease));
    assert_eq!(cell.get(), 100);

    host.clock.set(30);
    assert_eq!(process.poll(&ns, 30, &mut cell), Poll::Pending(WakeDelay::WakeAt(60)));
    assert_eq!(process.is_running(&ns).unwrap(), true);
    assert_eq!(process.is_finished(&ns).unwrap(), false);
    host.clock.set(60);
    assert_eq!(process.poll(&ns, 60, &mut cell), Poll::Ready(Ok(())));
    assert_eq!(cell.get(), 300);
    assert!(process.is_released());
    // A later poll changes nothing
    assert_eq!(process.poll(&ns, 70, &mut cell), Poll::Ready(Ok(())));
    assert_eq!(cell.get(), 300);
    assert!(!process.kill(&ns, &mut cell));
    assert_eq!(cell.get(), 300);
}

#[test]
fn kill_returns_the_ram_only_when_the_host_confirms() {
    let host = Host::new(50);
    let ns = NS::new(&host);
    let mut cell = RamCell::new(300);
    let mut process = worker("weaken.js", 50, 200);
    assert_eq!(process.run(&ns, 5, &mut cell), Ok(()));
    assert_eq!(cell.get(), 100);
    host.refuse_kill.set(true);
    assert!(!process.kill(&ns, &mut cell));
    assert_eq!(cell.get(), 100);
    host.refuse_kill.set(false);
    assert!(process.kill(&ns, &mut cell));
    assert_eq!(cell.get(), 300);
    assert!(process.is_released());
    // The worker no longer runs: nothing more to kill or to give back
    assert!(!process.kill(&ns, &mut cell));
    assert_eq!(cell.get(), 300);
    assert_eq!(process.poll(&ns, 6, &mut cell), Poll::Ready(Ok(())));
    assert_eq!(cell.get(), 300);
}

#[test]
fn record_steps_follow_the_answers() {
    let mut cell = RamCell::new(300);
    let mut process = worker("weaken.js", 50, 200);
    assert_eq!(process.record_launch(Ok(0), 5, &mut cell), Err("Failed to launch weaken.js".to_owned()));
    assert_eq!(process.record_launch(Err(BitburnerError::new("boom")), 5, &mut cell), Err("boom".to_owned()));
    assert!(!process.is_launched());
    assert_eq!(cell.get(), 300);
    assert_eq!(process.record_launch(Ok(9), 5, &mut cell), Ok(()));
    assert_eq!(process.pid(), Some(9));
    assert_eq!(cell.get(), 100);
    // Never polled: an immediate poll is asked for once the end has passed
    assert_eq!(process.schedule_wake(54), WakeDelay::WakeAt(55));
    assert_eq!(process.schedule_wake(55), WakeDelay::Immediate);
    assert_eq!(process.record_running(Ok(true), 20, &mut cell), Poll::Pending(WakeDelay::WakeAt(55)));
    assert_eq!(process.record_running(Err(BitburnerError::new("gone")), 20, &mut cell), Poll::Ready(Err("gone".to_owned())));
    assert_eq!(cell.get(), 100);
    assert!(!process.record_kill(false, true, &mut cell));
    assert!(!process.record_kill(true, false, &mut cell));
    assert_eq!(cell.get(), 100);
    assert_eq!(process.record_running(Ok(false), 20, &mut cell), Poll::Ready(Ok(())));
    assert_eq!(cell.get(), 300);
    assert!(!process.record_kill(true, true, &mut cell) || cell.get() == 300);
    assert_eq!(cell.get(), 300);
}

#[test]
fn ram_cell_updates() {
    let mut cell = RamCell::new(175);
    assert_eq!(cell.get(), 175);
    assert_eq!(cell.get_max(), 175);
    assert!(cell.can_afford(175));
    assert!(!cell.can_afford(176));
    cell.update(RamChange::Use(175));
    assert_eq!(cell.get(), 0);
    assert!(cell.can_afford(0));
    cell.update(RamChange::Release(100));
    assert_eq!(cell.get(), 100);
    assert_eq!(cell.get_max(), 175);
}

#[test]
fn worker_processes_take_their_ram_per_thread() {
    let host = Host::new(1);
    let ns = NS::new(&host);
    let hack = bitoxide::run::hack_process(&ns, "n00dles", Some(ThreadOrOptions::Threads(3))).unwrap();
    assert_eq!(hack.ram_hint(), 510);
    assert_eq!(hack.duration_hint(), 125);
    let grow = bitoxide::run::grow_process(&ns, "n00dles", None).unwrap();
    assert_eq!(grow.ram_hint(), 175);
    assert_eq!(grow.duration_hint(), 400);
    let weaken = bitoxide::run::weaken_process(&ns, "n00dles", Some(ThreadOrOptions::Threads(u32::MAX))).unwrap();
    assert_eq!(weaken.ram_hint(), 175 * (u32::MAX as u64));
    assert_eq!(weaken.duration_hint(), 500);
}

#[test]
fn a_process_notes_what_it_does_in_the_log() {
    let host = Host::new(500);
    let ns = NS::new(&host);
    let mut executor = BitburnerExecutor::new(200);
    executor.register(worker("weaken.js", 500, 175));
    executor.register(worker("grow.js", 500, 175));
    host.clock.set(1);
    assert_eq!(executor.turn(&ns, 1), None);
    host.clock.set(1501);
    assert_eq!(executor.turn(&ns, 1501), None);
    assert_eq!(executor.kill_all(&ns), 1);
    assert_eq!(
        *host.log.borrow(),
        vec![
            "weaken.js being polled at 0.001",
            "weaken.js updated ram: Use(1.750)",
            "weaken.js scheduled wake: WakeAt(0.501)",
            "grow.js being polled at 0.001",
            "grow.js scheduled wake: AfterNextRamRelease",
            "weaken.js being polled at 1.501",
            "weaken.js updated ram: Release(1.750)",
            "grow.js being polled at 1.501",
            "grow.js updated ram: Use(1.750)",
            "grow.js scheduled wake: WakeAt(2.001)",
            "weaken.js dropping",
            "grow.js dropping",
            "grow.js updated ram: Release(1.750)",
            "grow.js killed",
        ]
    );
}

#[test]
fn policies_and_changes_are_shown_in_seconds_and_gigabytes() {
    assert_eq!(WakeDelay::Immediate.describe(), "Immediate");
    assert_eq!(WakeDelay::Retry.describe(), "Retry");
    assert_eq!(WakeDelay::AfterNextRamRelease.describe(), "AfterNextRamRelease");
    assert_eq!(WakeDelay::WakeAt(0).describe(), "WakeAt(0.000)");
    assert_eq!(WakeDelay::WakeAt(12345).describe(), "WakeAt(12.345)");
    assert_eq!(RamChange::Use(170).describe(), "Use(1.700)");
    assert_eq!(RamChange::Release(5).describe(), "Release(0.050)");
    assert_eq!(RamChange::Use(123456).describe(), "Use(1234.560)");
}
