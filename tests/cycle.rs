use ec2_monitor::report::{fit_column, process_label, report_row, summarize};
use ec2_monitor::{
    command_output, current_process, monitor_cycle, parse_csv_count, process_instance,
    InstanceInfo, InstanceResults, MonitorError, MonitorState, ProbeReport, TaskOutcome, TimeStep,
};

fn instance(name: &str, ip: Option<&str>) -> InstanceInfo {
    InstanceInfo {
        instance_id: format!("i-{}", name),
        name: name.to_string(),
        instance_type: "c8g.48xlarge".to_string(),
        public_ip: ip.map(|s| s.to_string()),
        private_ip: None,
    }
}

fn probe(step: u64) -> ProbeReport {
    ProbeReport {
        timestep: format!("TimeStep {}: Time 3.25", step),
        csv_count: 7,
        free_disk_space: "120G".to_string(),
        current_process: "zcsvs".to_string(),
    }
}

fn sample(step: u64) -> TimeStep {
    TimeStep { step, time: "0.5".to_string(), total_step: 18_000, step_increase: None }
}

fn success(inst: &InstanceInfo, step: u64) -> TaskOutcome {
    Ok(process_instance(inst, Ok(probe(step))))
}

#[test]
fn delta_is_increase_of_step() {
    let mut state = MonitorState::new();
    let key = "run_7ms".to_string();
    let first = state.advance(&key, sample(100));
    assert_eq!(first.step_increase, None);
    let second = state.advance(&key, sample(150));
    assert_eq!(second.step_increase, Some(50));
    assert_eq!(state.previous(&key).unwrap().step, 150);
}

#[test]
fn delta_is_clamped_at_zero() {
    let mut state = MonitorState::new();
    let key = "run_7ms".to_string();
    state.advance(&key, sample(500));
    let back = state.advance(&key, sample(300));
    assert_eq!(back.step_increase, Some(0));
    // the delta is a single-cycle quantity: it is not accumulated
    let next = state.advance(&key, sample(310));
    assert_eq!(next.step_increase, Some(10));
}

#[test]
fn deltas_are_kept_per_instance() {
    let mut state = MonitorState::new();
    let a = "a_2ms".to_string();
    let b = "b_2ms".to_string();
    state.advance(&a, sample(10));
    assert_eq!(state.advance(&b, sample(1000)).step_increase, None);
    assert_eq!(state.advance(&a, sample(40)).step_increase, Some(30));
}

#[test]
fn history_median() {
    let mut state = MonitorState::new();
    let key = "x_2ms".to_string();
    assert_eq!(state.median_eta(&key), None);
    state.record_eta(&key, 30);
    state.record_eta(&key, 60);
    state.record_eta(&key, 45);
    assert_eq!(state.median_eta(&key), Some("45m".to_string()));
}

#[test]
fn command_failure_needs_stderr_text() {
    match command_output("out", 2, "  bad thing \n") {
        Err(MonitorError::SshCommandFailed { code, stderr }) => {
            assert_eq!(code, 2);
            assert_eq!(stderr, "  bad thing \n");
        }
        other => panic!("unexpected {:?}", other),
    }
    assert_eq!(command_output("  out \n", 1, " \n").unwrap(), "out");
    assert_eq!(command_output("\tok\n", 0, "warning").unwrap(), "ok");
}

#[test]
fn csv_count_parsing() {
    assert_eq!(parse_csv_count("  42\n"), 42);
    assert_eq!(parse_csv_count("-3"), -3);
    assert_eq!(parse_csv_count("+8"), 8);
    assert_eq!(parse_csv_count("abc"), 0);
    assert_eq!(parse_csv_count(""), 0);
    assert_eq!(parse_csv_count("2147483648"), 0);
    assert_eq!(parse_csv_count("-2147483648"), i32::MIN);
    assert_eq!(parse_csv_count("-+1"), 0);
}

#[test]
fn process_priority() {
    assert_eq!(current_process("x", "y", "z"), "s3 sync");
    assert_eq!(current_process("", "y", "z"), "finalize");
    assert_eq!(current_process("", "", "z"), "zcsvs");
    assert_eq!(current_process("", "", ""), "none");
}

#[test]
fn instance_without_address_fails() {
    let inst = instance("a_2ms", None);
    assert!(matches!(process_instance(&inst, Ok(probe(1))), Err(MonitorError::NoPublicIp)));
}

#[test]
fn probe_error_passes_through() {
    let inst = instance("a_2ms", Some("1.2.3.4"));
    match process_instance(&inst, Err(MonitorError::AuthenticationFailed)) {
        Err(MonitorError::AuthenticationFailed) => {}
        other => panic!("unexpected {:?}", other),
    }
}

#[test]
fn probe_fields_fill_the_result() {
    let inst = instance("a_2ms", Some("1.2.3.4"));
    let r = process_instance(&inst, Ok(probe(12))).unwrap();
    assert_eq!(r.name, "a_2ms");
    assert_eq!(r.public_ip.as_deref(), Some("1.2.3.4"));
    assert_eq!(r.timestep_result.as_ref().unwrap().step, 12);
    assert_eq!(r.timestep_result.as_ref().unwrap().total_step, 24_000);
    assert_eq!(r.csv_count, Some(7));
    assert_eq!(r.free_disk_space.as_deref(), Some("120G"));
    assert_eq!(r.current_process.as_deref(), Some("zcsvs"));
    assert!(r.connection_error.is_none());
}

#[test]
fn bad_category_fails_the_instance() {
    let inst = instance("a_4ms", Some("1.2.3.4"));
    assert!(matches!(
        process_instance(&inst, Ok(probe(12))),
        Err(MonitorError::InvalidWindSpeed { .. })
    ));
}

#[test]
fn one_transport_failure_is_isolated() {
    let mut state = MonitorState::new();
    let names = ["n1_2ms", "n2_7ms", "n3_12ms", "n4_17ms", "n5_2ms"];
    let instances: Vec<InstanceInfo> =
        names.iter().map(|n| instance(n, Some("10.0.0.1"))).collect();
    let mut outcomes: Vec<TaskOutcome> = Vec::new();
    for (i, inst) in instances.iter().enumerate() {
        if i == 2 {
            outcomes.push(Ok(Err(MonitorError::SshConnection("connection refused".to_string()))));
        } else {
            outcomes.push(success(inst, 100));
        }
    }
    let results = monitor_cycle(&mut state, &instances, outcomes);
    assert_eq!(results.len(), 5);
    for (i, r) in results.iter().enumerate() {
        assert_eq!(r.name, names[i]);
        if i == 2 {
            assert_eq!(
                r.connection_error.as_deref(),
                Some("Processing error: SSH connection error: connection refused")
            );
            assert!(r.timestep_result.is_none());
            assert!(r.csv_count.is_none());
            assert!(r.free_disk_space.is_none());
            assert!(r.current_process.is_none());
        } else {
            assert!(r.connection_error.is_none());
            assert_eq!(r.timestep_result.as_ref().unwrap().step, 100);
            assert_eq!(r.csv_count, Some(7));
            assert_eq!(r.free_disk_space.as_deref(), Some("120G"));
            assert_eq!(r.current_process.as_deref(), Some("zcsvs"));
            assert_eq!(r.eta, None);
        }
    }
    assert!(state.previous(&names[2].to_string()).is_none());
    assert_eq!(state.previous(&names[3].to_string()).unwrap().step, 100);
}

#[test]
fn cycles_build_history_and_median() {
    let mut state = MonitorState::new();
    let inst = instance("job_7ms", Some("10.0.0.2"));
    let instances = vec![inst.clone()];
    let r1 = monitor_cycle(&mut state, &instances, vec![success(&inst, 1_000)]);
    assert_eq!(r1[0].eta, None);
    assert_eq!(state.median_eta(&inst.name), None);
    // 100 steps in 6 minutes, 16900 left: 1014 minutes
    let r2 = monitor_cycle(&mut state, &instances, vec![success(&inst, 1_100)]);
    assert_eq!(r2[0].timestep_result.as_ref().unwrap().step_increase, Some(100));
    assert_eq!(r2[0].eta.as_deref(), Some("16h 54m"));
    assert_eq!(state.median_eta(&inst.name), Some("16h 54m".to_string()));
    // no progress: stalled, and nothing recorded
    let r3 = monitor_cycle(&mut state, &instances, vec![success(&inst, 1_100)]);
    assert_eq!(r3[0].eta.as_deref(), Some("Stalled"));
    // 200 steps in 6 minutes, 16700 left: 501 minutes; median of [1014, 501] is 757.5
    let r4 = monitor_cycle(&mut state, &instances, vec![success(&inst, 1_300)]);
    assert_eq!(r4[0].eta.as_deref(), Some("8h 21m"));
    assert_eq!(state.median_eta(&inst.name), Some("12h 38m".to_string()));
}

#[test]
fn task_and_address_failures() {
    let mut state = MonitorState::new();
    let a = instance("a_2ms", None);
    let b = instance("b_2ms", Some("10.0.0.3"));
    let instances = vec![a.clone(), b.clone()];
    let outcomes: Vec<TaskOutcome> = vec![
        Ok(process_instance(&a, Ok(probe(1)))),
        Err("task 7 panicked".to_string()),
    ];
    let results = monitor_cycle(&mut state, &instances, outcomes);
    assert_eq!(results[0].connection_error.as_deref(), Some("No public IP available"));
    assert_eq!(results[0].public_ip, None);
    assert_eq!(results[1].connection_error.as_deref(), Some("Task error: task 7 panicked"));
    assert_eq!(results[1].instance_id, "i-b_2ms");
}

#[test]
fn empty_cycle() {
    let mut state = MonitorState::new();
    let results = monitor_cycle(&mut state, &Vec::new(), Vec::new());
    assert!(results.is_empty());
}

#[test]
fn column_fitting() {
    assert_eq!(fit_column("short"), "short");
    assert_eq!(fit_column("exactly_eighteen_c"), "exactly_eighteen_c");
    assert_eq!(fit_column("a_name_that_is_too_long"), "a_name_that_is_...");
    assert_eq!(fit_column("ééééééééééééééééééé"), "ééééééééééééééé...");
}

#[test]
fn process_cells() {
    assert_eq!(process_label(&Some("zcsvs".to_string())), "🟢 zcsvs");
    assert_eq!(process_label(&Some("finalize".to_string())), "🟡 finalize");
    assert_eq!(process_label(&Some("s3 sync".to_string())), "🔵 s3 sync");
    assert_eq!(process_label(&Some("none".to_string())), "⚪ none");
    assert_eq!(process_label(&Some("other".to_string())), "other");
    assert_eq!(process_label(&None), "❌ Failed");
}

fn failed(name: &str, error: &str) -> InstanceResults {
    InstanceResults {
        name: name.to_string(),
        connection_error: Some(error.to_string()),
        ..Default::default()
    }
}

#[test]
fn rows_and_summary() {
    let mut state = MonitorState::new();
    let ok_inst = instance("ok_2ms", Some("10.0.0.4"));
    let ok = process_instance(&ok_inst, Ok(probe(5))).unwrap();
    state.record_eta(&ok_inst.name, 90);
    let row = report_row(&state, &ok);
    assert_eq!(row.name, "ok_2ms");
    assert_eq!(row.median_eta, "1h 30m");
    assert_eq!(row.csv_count, "7");
    assert_eq!(row.free_disk, "120G");
    assert_eq!(row.process, "🟢 zcsvs");
    assert_eq!(row.status, "✅ Success");
    assert!(!row.failed);

    let bad = failed("bad_2ms", "Processing error: something long");
    let row = report_row(&state, &bad);
    assert_eq!(row.median_eta, "N/A");
    assert_eq!(row.csv_count, "❌ Failed");
    assert_eq!(row.process, "❌ Failed");
    assert_eq!(row.status, "Processing erro...");
    assert!(row.failed);

    let mut idle = process_instance(&ok_inst, Ok(probe(5))).unwrap();
    idle.current_process = Some("none".to_string());
    let summary = summarize(&vec![ok, bad, idle]);
    assert_eq!(summary.total, 3);
    assert_eq!(summary.successful, 2);
    assert_eq!(summary.zcsvs, 1);
    assert_eq!(summary.finalize, 0);
    assert_eq!(summary.s3_sync, 0);
    assert_eq!(summary.idle, 1);
}

#[test]
fn instance_from_inventory_record() {
    let tags = vec![
        (Some("Owner".to_string()), Some("lab".to_string())),
        (Some("Name".to_string()), Some("run_a_7ms".to_string())),
        (Some("Name".to_string()), Some("other".to_string())),
    ];
    let info = InstanceInfo::from_inventory(
        Some("i-1".to_string()),
        tags,
        Some("c8g.48xlarge".to_string()),
        Some("1.2.3.4".to_string()),
        None,
    );
    assert_eq!(info.instance_id, "i-1");
    assert_eq!(info.name, "run_a_7ms");
    assert_eq!(info.instance_type, "c8g.48xlarge");
    assert_eq!(info.public_ip.as_deref(), Some("1.2.3.4"));
    assert_eq!(info.private_ip, None);
}

#[test]
fn instance_from_inventory_defaults() {
    let info = InstanceInfo::from_inventory(None, vec![], None, None, Some("10.0.0.9".to_string()));
    assert_eq!(info.instance_id, "unknown");
    assert_eq!(info.name, "unknown");
    assert_eq!(info.instance_type, "unknown");
    // a first Name tag without a value falls back to the id
    let tags = vec![(Some("Name".to_string()), None), (Some("Name".to_string()), Some("x".to_string()))];
    let info = InstanceInfo::from_inventory(Some("i-2".to_string()), tags, None, None, None);
    assert_eq!(info.name, "i-2");
}

#[test]
fn sub_minute_estimate_is_recorded() {
    let mut state = MonitorState::new();
    let inst = instance("end_7ms", Some("10.0.0.5"));
    let instances = vec![inst.clone()];
    monitor_cycle(&mut state, &instances, vec![success(&inst, 17_986)]);
    // 13 steps in 6 minutes with 1 step left: 6/13 of a minute
    let r = monitor_cycle(&mut state, &instances, vec![success(&inst, 17_999)]);
    assert_eq!(r[0].eta.as_deref(), Some("0m"));
    assert_eq!(state.median_eta(&inst.name), Some("0m".to_string()));
}

#[test]
fn failing_instance_leaves_others_as_without_it() {
    let names = ["n1_2ms", "n2_7ms", "n3_12ms", "n4_17ms", "n5_2ms"];
    let all: Vec<InstanceInfo> = names.iter().map(|n| instance(n, Some("10.0.0.1"))).collect();
    let kept: Vec<InstanceInfo> =
        all.iter().enumerate().filter(|(i, _)| *i != 2).map(|(_, x)| x.clone()).collect();
    let mut with_failure = MonitorState::new();
    let mut without = MonitorState::new();
    for (round, step) in [100u64, 250].iter().enumerate() {
        let outcomes: Vec<TaskOutcome> = all
            .iter()
            .enumerate()
            .map(|(i, inst)| {
                if i == 2 {
                    Ok(Err(MonitorError::SshConnection(format!("refused {}", round))))
                } else {
                    success(inst, *step + i as u64)
                }
            })
            .collect();
        let r_all = monitor_cycle(&mut with_failure, &all, outcomes);
        let outcomes: Vec<TaskOutcome> = all
            .iter()
            .enumerate()
            .filter(|(i, _)| *i != 2)
            .map(|(i, inst)| success(inst, *step + i as u64))
            .collect();
        let r_kept = monitor_cycle(&mut without, &kept, outcomes);
        let others: Vec<&InstanceResults> =
            r_all.iter().enumerate().filter(|(i, _)| *i != 2).map(|(_, r)| r).collect();
        assert_eq!(others.len(), r_kept.len());
        for (a, b) in others.iter().zip(r_kept.iter()) {
            assert_eq!(a.name, b.name);
            assert_eq!(a.eta, b.eta);
            assert_eq!(a.connection_error, b.connection_error);
            assert_eq!(
                a.timestep_result.as_ref().map(|t| (t.step, t.step_increase)),
                b.timestep_result.as_ref().map(|t| (t.step, t.step_increase))
            );
        }
    }
    for inst in &kept {
        assert_eq!(with_failure.median_eta(&inst.name), without.median_eta(&inst.name));
    }
    assert!(with_failure.previous(&names[2].to_string()).is_none());
    assert_eq!(with_failure.median_eta(&names[2].to_string()), None);
}
