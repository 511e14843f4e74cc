use bitoxide::batch::calculate_batch_threads;
use bitoxide::batch::BatchThreads;
use bitoxide::f64_total::F64Total;
use bitoxide::find_servers::compare_names;
use bitoxide::find_servers::find_all_server_names;
use bitoxide::find_servers::find_hackable_servers;
use bitoxide::find_servers::is_hackable;
use bitoxide::find_servers::rank_by_rate;
use bitoxide::find_servers::visit;
use bitoxide::find_servers::Rank;
use bitoxide::find_servers::RatedServer;
use bitoxide::find_servers::ServerNames;
use bitoxide::has_level;
use bitoxide::netscript::check_threads;
use bitoxide::netscript::no_root_access;
use bitoxide::netscript::server_missing;
use bitoxide::netscript::Arg;
use bitoxide::netscript::BasicHGWOptions;
use bitoxide::netscript::BitburnerError;
use bitoxide::netscript::FilenameOrPID;
use bitoxide::netscript::PortData;
use bitoxide::netscript::RunOptions;
use bitoxide::netscript::RunningScript;
use bitoxide::netscript::Shims;
use bitoxide::netscript::ThreadOrOptions;
use bitoxide::netscript::NS;
use bitoxide::run::executor::BitburnerExecutor;
use bitoxide::thread_search::binary_search;
use bitoxide::thread_search::get_threads_for_full_weaken;
use bitoxide::thread_search::split_thread_solve;
use bitoxide::thread_search::threads_for_full_weaken;
use bitoxide::thread_search::weaken_analyze_threads;
use bitoxide::thread_search::MAX_SEARCH_THREADS;
use bitoxide::try_root;
use bitoxide::weaken_all::weaken_all;
use std::cell::Cell;
use std::cell::RefCell;

fn total(x: f64) -> F64Total {
    F64Total::from_bits(x.to_bits())
}

/// One server of the simulated network.
struct Server {
    name: &'static str,
    neighbors: Vec<&'static str>,
    scan_fails: bool,
    root_access: bool,
    required_level: u32,
    min_security: f64,
    security: f64,
    /// Threads that a full weaken takes.
    threads_needed: u32,
    rate: f64,
}

fn server(name: &'static str, neighbors: &[&'static str]) -> Server {
    Server {
        name,
        neighbors: neighbors.to_vec(),
        scan_fails: false,
        root_access: true,
        required_level: 1,
        min_security: 1.0,
        security: 1.0,
        threads_needed: 0,
        rate: 0.0,
    }
}

/// A host with a network of servers, on which workers run for 500 ms.
struct Net {
    servers: Vec<Server>,
    hacking_level: u32,
    max_ram: u64,
    used_ram: u64,
    clock: Cell<u64>,
    /// (pid, target, threads, start)
    launches: RefCell<Vec<(u32, String, u32, u64)>>,
    failing_programs: Vec<&'static str>,
    programs_run: RefCell<Vec<String>>,
    log: RefCell<Vec<String>>,
    own_threads: Option<u32>,
}

impl Net {
    fn new(servers: Vec<Server>) -> Net {
        Net {
            servers,
            hacking_level: 10,
            max_ram: 2000,
            used_ram: 500,
            clock: Cell::new(0),
            launches: RefCell::new(vec![]),
            failing_programs: vec![],
            programs_run: RefCell::new(vec![]),
            log: RefCell::new(vec![]),
            own_threads: Some(4),
        }
    }

    fn find(&self, name: &str) -> Result<&Server, BitburnerError> {
        match self.servers.iter().find(|s| s.name == name) {
            Some(server) => Ok(server),
            None => Err(BitburnerError::new("invalid hostname")),
        }
    }

    fn program(&self, program: &str, host: &str) -> Result<(), BitburnerError> {
        self.programs_run.borrow_mut().push(format!("{program} {host}"));
        if self.failing_programs.contains(&program) {
            Err(BitburnerError::new("program missing"))
        } else {
            Ok(())
        }
    }

    fn running(&self, pid: u32) -> bool {
        let now = self.clock.get();
        self.launches.borrow().iter().any(|l| l.0 == pid && now < l.3 + 500)
    }
}

impl Shims for &Net {
    type Server = String;
    type Port = u32;

    fn args_shim(&self) -> Vec<Arg> {
        vec![Arg::Bool(true), Arg::F64(total(7.0)), Arg::from_str("text")]
    }

    fn pid_shim(&self) -> u32 {
        17
    }

    fn weaken_analyze_shim(&self, threads: u32, _cores: Option<u32>) -> F64Total {
        total(0.05 * threads as f64)
    }

    fn hack_analyze_shim(&self, _host: &str) -> Result<F64Total, BitburnerError> {
        Ok(total(0.01))
    }

    fn hack_analyze_security_shim(&self, threads: u32, _hostname: Option<&str>) -> Result<F64Total, BitburnerError> {
        Ok(total(0.002 * threads as f64))
    }

    fn hack_analyze_chance_shim(&self, _host: &str) -> Result<F64Total, BitburnerError> {
        Ok(total(0.5))
    }

    fn growth_analyze_shim(&self, _host: &str, multiplier: F64Total, _cores: Option<u32>) -> Result<F64Total, BitburnerError> {
        Ok(multiplier)
    }

    fn growth_analyze_security_shim(&self, threads: u32, _hostname: Option<&str>, _cores: Option<u32>) -> Result<F64Total, BitburnerError> {
        Ok(total(0.004 * threads as f64))
    }

    fn print_shim(&self, to_print: &str) {
        self.log.borrow_mut().push(to_print.to_owned())
    }

    fn tprint_shim(&self, to_print: &str) {
        self.log.borrow_mut().push(format!("terminal: {to_print}"))
    }

    fn clear_log_shim(&self) {
        self.log.borrow_mut().clear()
    }

    fn disable_log_shim(&self, fun: &str) -> Result<(), BitburnerError> {
        self.log.borrow_mut().push(format!("disable {fun}"));
        Ok(())
    }

    fn enable_log_shim(&self, fun: &str) -> Result<(), BitburnerError> {
        self.log.borrow_mut().push(format!("enable {fun}"));
        Ok(())
    }

    fn tail_shim(&self, _filename: &Option<FilenameOrPID>, _host: Option<&str>, _args: &Vec<Arg>) -> Result<(), BitburnerError> {
        Ok(())
    }

    fn scan_shim(&self, host: Option<&str>) -> Result<Vec<String>, BitburnerError> {
        let found = self.find(host.unwrap_or("home"))?;
        if found.scan_fails { return Err(BitburnerError::new("scan failed"));
        } Ok(found.neighbors.iter().map(|n| n.to_string()).collect())
    }

    fn nuke_shim(&self, host: &str) -> Result<(), BitburnerError> {
        self.program("nuke", host)
    }

    fn brutessh_shim(&self, host: &str) -> Result<(), BitburnerError> {
        self.program("brutessh", host)
    }

    fn ftpcrack_shim(&self, host: &str) -> Result<(), BitburnerError> {
        self.program("ftpcrack", host)
    }

    fn relaysmtp_shim(&self, host: &str) -> Result<(), BitburnerError> {
        self.program("relaysmtp", host)
    }

    fn httpworm_shim(&self, host: &str) -> Result<(), BitburnerError> {
        self.program("httpworm", host)
    }

    fn sqlinject_shim(&self, host: &str) -> Result<(), BitburnerError> {
        self.program("sqlinject", host)
    }

    fn run_shim(&self, _script: &str, thread_or_options: &Option<ThreadOrOptions>, args: &Vec<Arg>) -> Result<u32, BitburnerError> {
        let target = match &args[0] { Arg::String(name) => name.clone(), _ => panic!() };
        let pid = 100 + self.launches.borrow().len() as u32;
        let threads = ThreadOrOptions::threads(thread_or_options);
        self.launches.borrow_mut().push((pid, target, threads, self.clock.get()));
        Ok(pid)
    }

    fn kill_shim(&self, pid: u32) -> bool {
        self.running(pid)
    }

    fn has_root_access_shim(&self, host: &str) -> Result<bool, BitburnerError> {
        Ok(self.find(host)?.root_access)
    }

    fn get_hostname_shim(&self) -> String {
        "home".to_owned()
    }

    fn get_hacking_level_shim(&self) -> u32 {
        self.hacking_level
    }

    fn get_server_shim(&self, host: Option<&str>) -> Result<String, BitburnerError> {
        Ok(self.find(host.unwrap_or("home"))?.name.to_owned())
    }

    fn get_server_money_available_shim(&self, _host: &str) -> Result<F64Total, BitburnerError> {
        Ok(total(1e6))
    }

    fn get_server_max_money_shim(&self, _host: &str) -> Result<F64Total, BitburnerError> {
        Ok(total(1e7))
    }

    fn get_server_growth_shim(&self, _host: &str) -> Result<F64Total, BitburnerError> {
        Ok(total(30.0))
    }

    fn get_server_security_level_shim(&self, host: &str) -> Result<F64Total, BitburnerError> {
        Ok(total(self.find(host)?.security))
    }

    fn get_server_min_security_level_shim(&self, host: &str) -> Result<F64Total, BitburnerError> {
        Ok(total(self.find(host)?.min_security))
    }

    fn get_server_base_security_level_shim(&self, host: &str) -> Result<F64Total, BitburnerError> {
        Ok(total(self.find(host)?.min_security * 3.0))
    }

    fn get_server_max_ram_shim(&self, host: &str) -> Result<u64, BitburnerError> {
        self.find(host)?;
        Ok(self.max_ram)
    }

    fn get_server_used_ram_shim(&self, host: &str) -> Result<u64, BitburnerError> {
        self.find(host)?;
        Ok(self.used_ram)
    }

    fn get_server_required_hacking_level_shim(&self, host: &str) -> Result<u32, BitburnerError> {
        Ok(self.find(host)?.required_level)
    }

    fn get_server_num_ports_required_shim(&self, host: &str) -> Result<u32, BitburnerError> {
        self.find(host)?;
        Ok(2)
    }

    fn server_exists_shim(&self, host: &str) -> bool {
        self.find(host).is_ok()
    }

    fn get_port_handle_shim(&self, port_number: u32) -> Result<u32, BitburnerError> {
        Ok(port_number)
    }

    fn is_running_shim(&self, script: &FilenameOrPID, _host: Option<&str>, _args: &Vec<Arg>) -> Result<bool, BitburnerError> {
        match script { FilenameOrPID::Pid(pid) => Ok(self.running(*pid)), FilenameOrPID::Name(_) => Ok(false) }
    }

    fn get_running_script_shim(&self, _filename: &Option<FilenameOrPID>, _hostname: Option<&str>, args: &Vec<Arg>) -> Result<Option<RunningScript>, BitburnerError> {
        Ok(self.own_threads.map(|threads| RunningScript { args: args.clone(), filename: "own.js".to_owned(), logs: vec![], offline_exp_gained: total(0.0), offline_money_made: total(0.0), offline_running_time: total(0.0), online_exp_gained: total(0.0), online_money_made: total(0.0), online_running_time: total(0.0), pid: 17, ram_usage: 260, server: "home".to_owned(), title: "own.js".to_owned(), threads, temporary: false }))
    }

    fn get_hack_time_shim(&self, host: &str) -> Result<u64, BitburnerError> {
        self.find(host)?;
        Ok(125)
    }

    fn get_grow_time_shim(&self, host: &str) -> Result<u64, BitburnerError> {
        self.find(host)?;
        Ok(400)
    }

    fn get_weaken_time_shim(&self, host: &str) -> Result<u64, BitburnerError> {
        self.find(host)?;
        Ok(500)
    }
}

fn network() -> Vec<Server> {
    vec![
        server("home", &["n00dles", "foodnstuff"]),
        server("n00dles", &["home", "zer0"]),
        server("foodnstuff", &["home"]),
        server("zer0", &["n00dles", "CSEC", "home"]),
        server("CSEC", &["zer0"]),
    ]
}

#[test]
fn all_server_names_are_found_in_ascending_order() {
    let net = Net::new(network());
    let ns = NS::new(&net);
    assert_eq!(find_all_server_names(&ns, "home", false), vec!["CSEC", "foodnstuff", "n00dles", "zer0"]);
    assert_eq!(find_all_server_names(&ns, "home", true), vec!["CSEC", "foodnstuff", "home", "n00dles", "zer0"]);
    assert_eq!(find_all_server_names(&ns, "CSEC", false), vec!["CSEC", "foodnstuff", "n00dles", "zer0"]);
    assert!(find_all_server_names(&ns, "nowhere", true).is_empty());
}

#[test]
fn a_server_whose_scan_fails_is_left_out() {
    let mut servers = network();
    servers[3].scan_fails = true;
    let net = Net::new(servers);
    let ns = NS::new(&net);
    assert_eq!(find_all_server_names(&ns, "home", true), vec!["foodnstuff", "home", "n00dles"]);
}

#[test]
fn names_are_compared_byte_by_byte() {
    assert_eq!(compare_names("abc", "abd"), Rank::Before);
    assert_eq!(compare_names("abd", "abc"), Rank::After);
    assert_eq!(compare_names("abc", "abc"), Rank::Same);
    assert_eq!(compare_names("ab", "abc"), Rank::Before);
    assert_eq!(compare_names("abc", "ab"), Rank::After);
    assert_eq!(compare_names("", ""), Rank::Same);
    assert_eq!(compare_names("", "a"), Rank::Before);
    assert_eq!(compare_names("Z", "a"), Rank::Before);
    assert_eq!(compare_names("é", "z"), Rank::After);
    for a in ["", "a", "B", "home", "hom", "zer0", "é", "日本"] {
        for b in ["", "a", "B", "home", "hom", "zer0", "é", "日本"] {
            let expected = match a.cmp(b) {
                std::cmp::Ordering::Less => Rank::Before,
                std::cmp::Ordering::Equal => Rank::Same,
                std::cmp::Ordering::Greater => Rank::After,
            };
            assert_eq!(compare_names(a, b), expected);
        }
    }
}

#[test]
fn server_names_are_a_sorted_set() {
    let mut names = ServerNames::new();
    assert!(names.insert("zer0".to_owned()));
    assert!(names.insert("home".to_owned()));
    assert!(names.insert("n00dles".to_owned()));
    assert!(!names.insert("home".to_owned()));
    assert_eq!(names.len(), 3);
    assert!(names.contains("home"));
    assert!(!names.contains("hom"));
    assert!(!names.remove("CSEC"));
    assert!(names.remove("home"));
    assert!(!names.contains("home"));
    assert_eq!(names.into_vec(), vec!["n00dles", "zer0"]);
}

#[test]
fn visit_adds_the_unvisited_neighbours() {
    let mut visited = ServerNames::new();
    visited.insert("home".to_owned());
    let mut to_visit = vec!["x".to_owned()];
    // Already visited: nothing changes
    visit(&mut visited, &mut to_visit, "home".to_owned(), Some(vec!["a".to_owned()]));
    assert_eq!(to_visit, vec!["x"]);
    // The scan failed: nothing changes
    visit(&mut visited, &mut to_visit, "a".to_owned(), None);
    assert_eq!(to_visit, vec!["x"]);
    assert!(!visited.contains("a"));
    visit(
        &mut visited,
        &mut to_visit,
        "a".to_owned(),
        Some(vec!["home".to_owned(), "b".to_owned(), "a".to_owned(), "b".to_owned()]),
    );
    assert_eq!(to_visit, vec!["x", "b", "a", "b"]);
    assert!(visited.contains("a"));
    assert_eq!(visited.len(), 2);
}

#[test]
fn rank_by_rate_puts_the_highest_first_and_keeps_ties_in_order() {
    let rated = |name: &str, rate: f64| RatedServer { name: name.to_owned(), rate: total(rate) };
    let servers = vec![
        rated("a", 1.0),
        rated("b", 5.0),
        rated("c", 1.0),
        rated("d", 0.0),
        rated("e", 5.0),
        rated("f", f64::NAN),
        rated("g", -0.0),
    ];
    assert_eq!(rank_by_rate(&servers), vec!["f", "b", "e", "a", "c", "d", "g"]);
    assert!(rank_by_rate(&vec![]).is_empty());
}

#[test]
fn hackable_needs_root_access_and_the_level() {
    let ok = |b: bool| -> Result<bool, BitburnerError> { Ok(b) };
    let level = |l: u32| -> Result<u32, BitburnerError> { Ok(l) };
    assert!(is_hackable(&ok(true), &level(10), 10));
    assert!(is_hackable(&ok(true), &level(0), 10));
    assert!(!is_hackable(&ok(true), &level(11), 10));
    assert!(!is_hackable(&ok(false), &level(1), 10));
    assert!(!is_hackable(&Err(BitburnerError::new("x")), &level(1), 10));
    assert!(!is_hackable(&ok(true), &Err(BitburnerError::new("x")), 10));
}

#[test]
fn hackable_servers_are_ranked_by_rate() {
    let mut servers = network();
    servers[1].rate = 2.0;
    servers[2].rate = 9.0;
    servers[3].rate = 2.0;
    servers[3].required_level = 11;
    servers[4].rate = 2.0;
    let net = Net::new(servers);
    let ns = NS::new(&net);
    let rate = |name: &str| total(net.find(name).unwrap().rate);
    assert_eq!(find_hackable_servers(&ns, &rate), vec!["foodnstuff", "CSEC", "n00dles"]);
    let mut servers = network();
    servers[2].root_access = false;
    let net = Net::new(servers);
    let ns = NS::new(&net);
    let rate = |_name: &str| total(1.0);
    assert_eq!(find_hackable_servers(&ns, &rate), vec!["CSEC", "n00dles", "zer0"]);
}

#[test]
fn try_root_runs_the_programs_in_turn() {
    let net = Net::new(network());
    let ns = NS::new(&net);
    assert!(try_root(&ns, "n00dles"));
    assert_eq!(*net.programs_run.borrow(), vec!["brutessh n00dles", "ftpcrack n00dles", "nuke n00dles"]);
}

#[test]
fn try_root_stops_at_the_first_failure() {
    let mut net = Net::new(network());
    net.failing_programs = vec!["ftpcrack"];
    let ns = NS::new(&net);
    assert!(!try_root(&ns, "n00dles"));
    assert_eq!(*net.programs_run.borrow(), vec!["brutessh n00dles", "ftpcrack n00dles"]);
    let mut net = Net::new(network());
    net.failing_programs = vec!["nuke"];
    assert!(!try_root(&NS::new(&net), "n00dles"));
    let mut net = Net::new(network());
    net.failing_programs = vec!["brutessh"];
    assert!(!try_root(&NS::new(&net), "n00dles"));
    assert_eq!(net.programs_run.borrow().len(), 1);
}

#[test]
fn try_root_needs_the_hacking_level() {
    let mut servers = network();
    servers[1].required_level = 11;
    let net = Net::new(servers);
    let ns = NS::new(&net);
    assert!(!try_root(&ns, "n00dles"));
    assert!(!try_root(&ns, "nowhere"));
    assert!(net.programs_run.borrow().is_empty());
    let none: Result<u32, BitburnerError> = Err(BitburnerError::new("x"));
    assert!(!has_level(10, &none));
    let required: Result<u32, BitburnerError> = Ok(10);
    assert!(has_level(10, &required));
    assert!(!has_level(9, &required));
}

#[test]
fn test_binary_search() {
    let cases: Vec<Vec<i32>> = vec![
        vec![0],
        vec![-1],
        vec![-3, -2, -1, 0, 1, 2],
        vec![-3, -2, -1],
        vec![1, 2, 3],
        vec![-1, 5],
        vec![5, -1, 7, -2, 9],
        vec![-5, 3, -1, 4, -2, 8, 0],
        vec![i32::MIN, i32::MAX],
    ];
    for xs in cases {
        let pred = |idx: u32| xs[idx as usize] >= 0;
        let idx = binary_search(&pred, 0, xs.len() as u32 - 1) as usize;
        if xs[xs.len() - 1] >= 0 {
            assert!(xs[idx] >= 0)
        }
        if xs[0] < 0 && xs.len() > 1 {
            assert!(xs[idx - 1] < 0)
        }
    }
}

#[test]
fn binary_search_finds_the_first_true() {
    for first in 0..=20u32 {
        let pred = |t: u32| t >= first;
        assert_eq!(binary_search(&pred, 0, 20), first);
    }
    let never = |_t: u32| false;
    let always = |_t: u32| true;
    assert_eq!(binary_search(&never, 0, 20), 20);
    // The left bound is the first where the predicate holds there
    assert_eq!(binary_search(&always, 0, 20), 0);
    assert_eq!(binary_search(&always, 0, 1), 0);
    assert_eq!(binary_search(&always, 7, 7), 7);
    assert_eq!(binary_search(&never, 7, 8), 8);
    assert_eq!(binary_search(&always, u32::MAX - 1, u32::MAX), u32::MAX - 1);
    assert_eq!(binary_search(&never, u32::MAX - 1, u32::MAX), u32::MAX);
    let high = |t: u32| t >= u32::MAX - 3;
    assert_eq!(binary_search(&high, 0, u32::MAX), u32::MAX - 3);
}

#[test]
fn weaken_threads_are_the_fewest_that_are_enough() {
    for needed in [1u32, 2, 3, 4, 5, 7, 8, 9, 100, 1 << 20, (1 << 20) + 1, MAX_SEARCH_THREADS] {
        let enough = |t: u32| t >= needed;
        assert_eq!(weaken_analyze_threads(&enough), needed);
    }
    let never = |_t: u32| false;
    assert_eq!(weaken_analyze_threads(&never), MAX_SEARCH_THREADS);
    let always = |_t: u32| true;
    assert_eq!(weaken_analyze_threads(&always), 1);
}

#[test]
fn split_thread_solve_finds_the_smallest_share() {
    // 0.05 per thread of the first job has to match 0.002 per thread of the second
    let satisfied = |high: u32, low: u32| 50 * high >= 2 * low;
    assert_eq!(split_thread_solve(52, &satisfied), 2);
    assert_eq!(split_thread_solve(26, &satisfied), 1);
    assert_eq!(split_thread_solve(0, &satisfied), 0);
    let never = |_high: u32, _low: u32| false;
    assert_eq!(split_thread_solve(9, &never), 9);
}

#[test]
fn full_weaken_needs_no_thread_at_the_lowest_level() {
    let enough = |t: u32| t >= 6;
    assert_eq!(threads_for_full_weaken(total(1.0), total(1.0), &enough), 0);
    assert_eq!(threads_for_full_weaken(total(1.0), total(0.5), &enough), 0);
    assert_eq!(threads_for_full_weaken(total(1.0), total(1.3), &enough), 6);
    let mut servers = network();
    servers[1].security = 1.3;
    let net = Net::new(servers);
    let ns = NS::new(&net);
    assert_eq!(get_threads_for_full_weaken(&ns, "n00dles", &enough), Ok(6));
    assert_eq!(get_threads_for_full_weaken(&ns, "zer0", &enough), Ok(0));
    assert_eq!(get_threads_for_full_weaken(&ns, "nowhere", &enough), Err(BitburnerError::new("invalid hostname")));
}

#[test]
fn batch_threads_take_their_weakens_from_the_search() {
    let undoes_hack = |t: u32| 50 * t >= 2 * 30;
    let undoes_grow = |t: u32| 50 * t >= 4 * 300;
    assert_eq!(
        calculate_batch_threads(30, 300, &undoes_hack, &undoes_grow),
        BatchThreads { hack: 30, hack_weaken: 2, grow: 300, grow_weaken: 24 }
    );
}

fn run(executor: &mut BitburnerExecutor, net: &Net) -> Result<(), String> {
    let ns = NS::new(net);
    for _ in 0..100 {
        let sleep_for = executor.sleep_for(net.clock.get());
        net.clock.set(net.clock.get() + sleep_for);
        if let Some(result) = executor.turn(&ns, net.clock.get()) {
            return result;
        }
    }
    panic!("the run did not end");
}

#[test]
fn weaken_all_launches_the_most_profitable_target_first() {
    let mut servers = network();
    // Two servers above their lowest security level
    servers[1].security = 1.2;
    servers[1].threads_needed = 4;
    servers[1].rate = 5.0;
    servers[2].security = 1.4;
    servers[2].threads_needed = 8;
    servers[2].rate = 9.0;
    servers[3].rate = 20.0;
    let net = Net::new(servers);
    let ns = NS::new(&net);
    let enough = |name: &str, threads: u32| threads >= net.find(name).unwrap().threads_needed;
    let rate = |name: &str| total(net.find(name).unwrap().rate);
    let mut executor = weaken_all(&ns, &enough, &rate).unwrap();
    assert_eq!(executor.task_count(), 2);
    // 20 GB of which 5 GB are in use
    assert_eq!(executor.get_ram_cell().get(), 1500);
    assert_eq!(*net.log.borrow(), vec!["disable ALL", "enable ALL"]);
    assert_eq!(run(&mut executor, &net), Ok(()));
    assert_eq!(
        *net.launches.borrow(),
        vec![(100, "foodnstuff".to_owned(), 8, 1), (101, "n00dles".to_owned(), 4, 501)]
    );
    assert_eq!(executor.get_ram_cell().get(), 1500);
}

#[test]
fn weaken_all_with_nothing_to_weaken_registers_nothing() {
    let net = Net::new(network());
    let ns = NS::new(&net);
    let enough = |_name: &str, _threads: u32| true;
    let rate = |_name: &str| total(1.0);
    let mut executor = weaken_all(&ns, &enough, &rate).unwrap();
    assert_eq!(executor.task_count(), 0);
    assert_eq!(run(&mut executor, &net), Ok(()));
    assert!(net.launches.borrow().is_empty());
}

#[test]
fn weaken_all_without_free_ram_has_no_budget() {
    let mut net = Net::new(network());
    net.used_ram = 2500;
    let ns = NS::new(&net);
    let enough = |_name: &str, _threads: u32| true;
    let rate = |_name: &str| total(1.0);
    let executor = weaken_all(&ns, &enough, &rate).unwrap();
    assert_eq!(executor.get_ram_cell().get(), 0);
    assert_eq!(executor.get_ram_cell().get_max(), 0);
}

#[test]
fn weaken_all_gives_the_error_of_the_host() {
    let mut servers = network();
    servers[0].name = "elsewhere";
    let net = Net::new(servers);
    let ns = NS::new(&net);
    let enough = |_name: &str, _threads: u32| true;
    let rate = |_name: &str| total(1.0);
    assert_eq!(weaken_all(&ns, &enough, &rate).err(), Some("invalid hostname".to_owned()));
}

#[test]
fn check_hgw_args_reports_what_is_wrong() {
    let mut servers = network();
    servers[2].root_access = false;
    let net = Net::new(servers);
    let ns = NS::new(&net);
    let threads = |threads: u32| Some(BasicHGWOptions { threads: Some(threads), stock: None, additional_msec: None });
    assert_eq!(ns.check_hgw_args("n00dles", None), Ok(()));
    assert_eq!(ns.check_hgw_args("n00dles", threads(4)), Ok(()));
    assert_eq!(
        ns.check_hgw_args("n00dles", Some(BasicHGWOptions { threads: None, stock: Some(true), additional_msec: Some(total(5.0)) })),
        Ok(())
    );
    assert_eq!(ns.check_hgw_args("nowhere", None), Err("Server nowhere does not exist".to_owned()));
    assert_eq!(ns.check_hgw_args("foodnstuff", None), Err("No root access to foodnstuff".to_owned()));
    assert_eq!(
        ns.check_hgw_args("n00dles", threads(5)),
        Err("Not enough threads available: requested 5, script has access to 4".to_owned())
    );
    assert_eq!(
        *net.log.borrow(),
        vec![
            "ERROR Server nowhere does not exist",
            "ERROR No root access to foodnstuff",
            "ERROR Not enough threads available: requested 5, script has access to 4",
        ]
    );
    let mut lonely = Net::new(network());
    lonely.own_threads = None;
    assert_eq!(
        NS::new(&lonely).check_hgw_args("n00dles", threads(1)),
        Err("Not enough threads available: requested 1, script has access to 0".to_owned())
    );
}

#[test]
fn messages_of_the_argument_check() {
    assert_eq!(server_missing("x"), "Server x does not exist");
    assert_eq!(no_root_access("x"), "No root access to x");
    assert_eq!(check_threads(None, 0), Ok(()));
    assert_eq!(check_threads(Some(3), 3), Ok(()));
    assert_eq!(
        check_threads(Some(u32::MAX), 1200),
        Err("Not enough threads available: requested 4294967295, script has access to 1200".to_owned())
    );
}

#[test]
fn the_interface_hands_the_calls_through() {
    let net = Net::new(network());
    let ns = NS::new(&net);
    assert_eq!(ns.pid(), 17);
    assert_eq!(ns.args(), vec![Arg::Bool(true), Arg::F64(total(7.0)), Arg::String("text".to_owned())]);
    ns.print("one");
    ns.tprint("two");
    assert_eq!(*net.log.borrow(), vec!["one", "terminal: two"]);
    ns.clear_log();
    assert!(net.log.borrow().is_empty());
    assert_eq!(ns.disable_log("scan"), Ok(()));
    assert_eq!(ns.enable_log("scan"), Ok(()));
    assert_eq!(ns.scan(Some("CSEC")), Ok(vec!["zer0".to_owned()]));
    assert_eq!(ns.scan(None), Ok(vec!["n00dles".to_owned(), "foodnstuff".to_owned()]));
    assert_eq!(ns.nuke("CSEC"), Ok(()));
    assert_eq!(ns.brute_ssh("CSEC"), Ok(()));
    assert_eq!(ns.ftpcrack("CSEC"), Ok(()));
    assert!(!ns.kill(5));
    assert_eq!(ns.has_root_access("CSEC"), Ok(true));
    assert_eq!(ns.has_root_access("nowhere"), Err(BitburnerError::new("invalid hostname")));
    assert_eq!(ns.get_hostname(), "home");
    assert_eq!(ns.get_hacking_level(), 10);
    assert_eq!(ns.get_server(None), Ok("home".to_owned()));
    assert_eq!(ns.get_server_required_hacking_level("CSEC"), Ok(1));
    assert_eq!(ns.get_server_num_ports_required("CSEC"), Ok(2));
    assert!(ns.server_exists("CSEC"));
    assert!(!ns.server_exists("nowhere"));
    assert_eq!(ns.get_port_handle(3), Ok(3));
    assert_eq!(ns.get_server_max_ram("home"), Ok(2000));
    assert_eq!(ns.get_server_used_ram("home"), Ok(500));
    assert_eq!(ns.weaken_analyze(2, None), total(0.1));
    assert_eq!(ns.get_weaken_time("CSEC"), Ok(500));
    assert_eq!(ns.get_hack_time("CSEC"), Ok(125));
    assert_eq!(ns.get_grow_time("CSEC"), Ok(400));
    assert_eq!(ns.run("weaken.js", Some(ThreadOrOptions::Threads(2)), &vec![Arg::from_str("CSEC")]), Ok(100));
    assert_eq!(ns.is_running(FilenameOrPID::from_pid(100), None, &vec![]), Ok(true));
    assert_eq!(ns.is_running(FilenameOrPID::from_name("weaken.js"), None, &vec![]), Ok(false));
    assert!(ns.kill(100));
    assert_eq!(ns.get_running_script(None, None, vec![]).unwrap().unwrap().threads, 4);
    assert_eq!(ns.tail(None, None, vec![]), Ok(()));
    assert_eq!(ns.shims().get_hacking_level_shim(), 10);
}

#[test]
fn values_of_the_host_become_arguments() {
    assert_eq!(Arg::from_value(Some(true), Some(total(1.0)), Some("x".to_owned())), Some(Arg::Bool(true)));
    assert_eq!(Arg::from_value(None, Some(total(1.0)), Some("x".to_owned())), Some(Arg::F64(total(1.0))));
    assert_eq!(Arg::from_value(None, None, Some("x".to_owned())), Some(Arg::String("x".to_owned())));
    assert_eq!(Arg::from_value(None, None, None), None);
    assert_eq!(PortData::from_value(Some(total(1.0)), Some("x".to_owned())), Some(PortData::Number(total(1.0))));
    assert_eq!(PortData::from_value(None, Some("x".to_owned())), Some(PortData::String("x".to_owned())));
    assert_eq!(PortData::from_value(None, None), None);
}

#[test]
fn thread_counts_of_launch_settings() {
    let options = RunOptions { threads: Some(6), temporary: None, ram_override: None, prevent_duplicates: None };
    assert_eq!(ThreadOrOptions::threads(&None), 1);
    assert_eq!(ThreadOrOptions::threads(&Some(ThreadOrOptions::from_threads(3))), 3);
    assert_eq!(ThreadOrOptions::threads(&Some(ThreadOrOptions::from_options(options))), 6);
    let bare = RunOptions { threads: None, ..options };
    assert_eq!(ThreadOrOptions::threads(&Some(ThreadOrOptions::Options(bare))), 1);
    let error = BitburnerError::from_string("boom".to_owned());
    assert_eq!(error.message(), "boom");
    assert_eq!(error, BitburnerError::new("boom"));
    assert_eq!(error.into_string(), "boom");
}
