use rls_core::queue::{
    aggregate_job_results, resolution_result, BuildAction, BuildPriority, BuildQueue, BuildResult,
    JobOutcome, NextBuild, Rechecked,
};

/// Runs the first build of a session to completion: the request escalates to
/// `Cargo`, the worker performs a full resolution pass against a simulated
/// build-system adapter with one primary unit, and the invocation is cached.
fn bootstrap(q: &mut BuildQueue, dir: &str, token: u64) {
    let out = q.request_build(dir.to_string(), BuildPriority::Normal, token);
    assert!(out.spawn);
    assert!(out.squashed.is_empty());
    let build = match q.next_build() {
        NextBuild::Run(b) => b,
        NextBuild::Idle => panic!("a request was queued, the worker must find it"),
    };
    // No invocation is cached yet, so the request was escalated.
    assert_eq!(build.priority, BuildPriority::Cargo);
    let action = q.run_build(build.build_dir.clone(), build.priority);
    assert!(matches!(action, BuildAction::FullResolution));
    q.begin_full_resolution();
    q.plan_emplace_unit(1, true, vec![format!("{}/lib.rs", dir)]);
    q.plan_cache_invocation(1, "rustc --crate-name lib".to_string());
    q.cache_invocation_context(vec!["rustc".to_string()], Vec::new());
    let result = resolution_result::<u64>(Some((Vec::new(), Vec::new())));
    assert!(matches!(result, BuildResult::Success(_, _)));
    q.complete_build(&build.built_files, &result);
    q.finish_build();
    match q.next_build() {
        NextBuild::Idle => {}
        NextBuild::Run(_) => panic!("both slots were drained"),
    }
}

#[test]
fn scenario_idle_normal_promoted_runs_without_wait() {
    let mut q = BuildQueue::new(500);
    bootstrap(&mut q, "/proj", 1);
    // A Normal request on an idle queue is promoted to Immediate and runs
    // with no debounce wait; its callback sees Success, never Squashed.
    let out = q.request_build("/proj".to_string(), BuildPriority::Normal, 2);
    assert!(out.spawn);
    assert!(out.squashed.is_empty());
    let build = match q.next_build() {
        NextBuild::Run(b) => b,
        NextBuild::Idle => panic!("a request was queued, the worker must find it"),
    };
    assert_eq!(build.priority, BuildPriority::Immediate);
    assert_eq!(build.token, 2);
    let action = q.run_build(build.build_dir.clone(), build.priority);
    let jobs = match action {
        BuildAction::RunJobs(jobs) => jobs,
        _ => panic!("nothing is dirty and the plan is cached: incremental path"),
    };
    assert!(jobs.is_empty());
    let result = aggregate_job_results::<u64>(Vec::new());
    assert!(matches!(result, BuildResult::Success(_, _)));
    q.complete_build(&build.built_files, &result);
    q.finish_build();
}

#[test]
fn scenario_debounced_normal_squashed_by_newer() {
    let mut q = BuildQueue::new(500);
    bootstrap(&mut q, "/proj", 1);
    // Occupy the worker so the next Normal request is not promoted.
    let out = q.request_build("/proj".to_string(), BuildPriority::Normal, 2);
    assert!(out.spawn);
    let running = match q.next_build() {
        NextBuild::Run(b) => b,
        NextBuild::Idle => panic!("a request was queued, the worker must find it"),
    };
    // While token 2 runs, a Normal edit arrives: it waits in the Normal slot.
    let out3 = q.request_build("/proj".to_string(), BuildPriority::Normal, 3);
    assert!(!out3.spawn);
    assert!(out3.squashed.is_empty());
    let result = aggregate_job_results::<u64>(Vec::new());
    q.complete_build(&running.built_files, &result);
    q.finish_build();
    // The worker dequeues token 3 at Normal priority and sleeps out the
    // debounce; token 4 arrives before the interval elapses.
    let woken = match q.next_build() {
        NextBuild::Run(b) => b,
        NextBuild::Idle => panic!("token 3 is pending"),
    };
    assert_eq!(woken.priority, BuildPriority::Normal);
    let out4 = q.request_build("/proj".to_string(), BuildPriority::Normal, 4);
    assert!(!out4.spawn);
    // On waking, the worker finds newer work: token 3 is squashed.
    match q.recheck_after_wait(woken) {
        Rechecked::Stale(t) => assert_eq!(t, 3),
        Rechecked::Proceed(_) => panic!("a newer request arrived during the wait"),
    }
    // Token 4 survives its own debounce and executes.
    let woken4 = match q.next_build() {
        NextBuild::Run(b) => b,
        NextBuild::Idle => panic!("token 4 is pending"),
    };
    let build = match q.recheck_after_wait(woken4) {
        Rechecked::Proceed(b) => b,
        Rechecked::Stale(_) => panic!("nothing arrived during the second wait"),
    };
    assert_eq!(build.token, 4);
    let action = q.run_build(build.build_dir.clone(), build.priority);
    assert!(matches!(action, BuildAction::RunJobs(_)));
    let result = aggregate_job_results::<u64>(Vec::new());
    assert!(matches!(result, BuildResult::Success(_, _)));
    q.complete_build(&build.built_files, &result);
    q.finish_build();
    assert!(matches!(q.next_build(), NextBuild::Idle));
}

#[test]
fn scenario_full_squashes_pending_full_and_normal() {
    let mut q = BuildQueue::new(500);
    bootstrap(&mut q, "/proj", 1);
    let out_a = q.request_build("/proj".to_string(), BuildPriority::Cargo, 10);
    assert!(out_a.spawn);
    assert!(out_a.squashed.is_empty());
    let out_b = q.request_build("/proj".to_string(), BuildPriority::Normal, 11);
    assert!(!out_b.spawn);
    assert!(out_b.squashed.is_empty());
    // The second Full request squashes both the pending Normal and the
    // pending Full, and occupies the priority slot itself.
    let out_c = q.request_build("/proj".to_string(), BuildPriority::Cargo, 12);
    assert!(!out_c.spawn);
    assert_eq!(out_c.squashed, vec![11, 10]);
    let build = match q.next_build() {
        NextBuild::Run(b) => b,
        NextBuild::Idle => panic!("the second Full request is pending"),
    };
    assert_eq!(build.token, 12);
    assert_eq!(build.priority, BuildPriority::Cargo);
    let action = q.run_build(build.build_dir.clone(), build.priority);
    assert!(matches!(action, BuildAction::FullResolution));
}

#[test]
fn normal_burst_squashes_all_but_last() {
    let mut q = BuildQueue::new(500);
    bootstrap(&mut q, "/proj", 1);
    // Make the queue busy so Normal requests are not promoted.
    q.request_build("/proj".to_string(), BuildPriority::Cargo, 20);
    let mut squashed: Vec<u64> = Vec::new();
    for token in [21u64, 22, 23] {
        let out = q.request_build("/proj".to_string(), BuildPriority::Normal, token);
        squashed.extend(out.squashed);
    }
    // All but the last of the burst were squashed.
    assert_eq!(squashed, vec![21, 22]);
    // Priority-class work is served before the surviving Normal request.
    let first = match q.next_build() {
        NextBuild::Run(b) => b,
        NextBuild::Idle => panic!("two requests are pending"),
    };
    assert_eq!(first.token, 20);
    q.finish_build();
    let second = match q.next_build() {
        NextBuild::Run(b) => b,
        NextBuild::Idle => panic!("the last Normal request is pending"),
    };
    assert_eq!(second.token, 23);
}

#[test]
fn building_flag_rises_once_per_busy_period() {
    let mut q = BuildQueue::new(500);
    let out1 = q.request_build("/proj".to_string(), BuildPriority::Cargo, 1);
    let out2 = q.request_build("/proj".to_string(), BuildPriority::Cargo, 2);
    let out3 = q.request_build("/proj".to_string(), BuildPriority::Normal, 3);
    assert!(out1.spawn);
    assert!(!out2.spawn);
    assert!(!out3.spawn);
    // Drain the queue: the worker releases the flag only once both slots are
    // empty.
    loop {
        match q.next_build() {
            NextBuild::Run(_) => q.finish_build(),
            NextBuild::Idle => break,
        }
    }
    // A new busy period begins with a fresh spawn.
    let out4 = q.request_build("/proj".to_string(), BuildPriority::Cargo, 4);
    assert!(out4.spawn);
}

#[test]
fn changed_directory_without_full_priority_aborts() {
    let mut q = BuildQueue::new(500);
    bootstrap(&mut q, "/proj", 1);
    let action = q.run_build("/elsewhere".to_string(), BuildPriority::Normal);
    assert!(matches!(action, BuildAction::Abort));
    // The same directory at Full priority is accepted.
    let action2 = q.run_build("/elsewhere".to_string(), BuildPriority::Cargo);
    assert!(matches!(action2, BuildAction::FullResolution));
}

#[test]
fn failed_resolution_reports_error() {
    let result = resolution_result::<u64>(None);
    assert!(matches!(result, BuildResult::Error));
}

#[test]
fn dirty_file_cleared_only_when_snapshot_covers_it() {
    let mut q = BuildQueue::new(500);
    bootstrap(&mut q, "/proj", 1);
    q.mark_file_dirty("/proj/lib.rs".to_string(), 7);
    let out = q.request_build("/proj".to_string(), BuildPriority::Normal, 2);
    assert!(out.spawn);
    let build = match q.next_build() {
        NextBuild::Run(b) => b,
        NextBuild::Idle => panic!("a request was queued, the worker must find it"),
    };
    let action = q.run_build(build.build_dir.clone(), build.priority);
    assert!(matches!(action, BuildAction::RunJobs(_)));
    // Edits land after the snapshot was taken but before the build
    // completes.
    q.mark_file_dirty("/proj/lib.rs".to_string(), 8);
    q.mark_file_dirty("/proj/other.rs".to_string(), 1);
    let result = aggregate_job_results::<u64>(vec![JobOutcome {
        success: true,
        messages: Vec::new(),
        analyses: Vec::new(),
    }]);
    q.complete_build(&build.built_files, &result);
    q.finish_build();
    // The raced file stays dirty at its newer version; the file never in the
    // snapshot stays dirty too.
    assert!(matches!(q.next_build(), NextBuild::Idle));
    assert_eq!(q.file_dirty_version(&"/proj/lib.rs".to_string()), Some(8));
    assert_eq!(q.file_dirty_version(&"/proj/other.rs".to_string()), Some(1));
    // A later build whose snapshot covers both versions clears them; the
    // plan learns the second file's unit first.
    q.plan_emplace_unit(2, true, vec!["/proj/other.rs".to_string()]);
    q.plan_cache_invocation(2, "rustc --crate-name other".to_string());
    let out2 = q.request_build("/proj".to_string(), BuildPriority::Normal, 3);
    assert!(out2.spawn);
    let build2 = match q.next_build() {
        NextBuild::Run(b) => b,
        NextBuild::Idle => panic!("a request was queued, the worker must find it"),
    };
    let action2 = q.run_build(build2.build_dir.clone(), build2.priority);
    assert!(matches!(action2, BuildAction::RunJobs(_)));
    let result2 = aggregate_job_results::<u64>(Vec::new());
    q.complete_build(&build2.built_files, &result2);
    q.finish_build();
    assert_eq!(q.file_dirty_version(&"/proj/lib.rs".to_string()), None);
    assert_eq!(q.file_dirty_version(&"/proj/other.rs".to_string()), None);
}

#[test]
fn aggregate_reports_failure_and_keeps_order() {
    let results = vec![
        JobOutcome {
            success: true,
            messages: vec!["warning: a".to_string()],
            analyses: vec![1u64],
        },
        JobOutcome {
            success: false,
            messages: vec!["error: b".to_string()],
            analyses: vec![2u64],
        },
    ];
    match aggregate_job_results(results) {
        BuildResult::Failure(messages, analyses) => {
            assert_eq!(messages, vec!["warning: a".to_string(), "error: b".to_string()]);
            assert_eq!(analyses, vec![1, 2]);
        }
        _ => panic!("one unit failed, so the build failed"),
    }
    let ok = vec![JobOutcome {
        success: true,
        messages: vec!["warning: a".to_string()],
        analyses: vec![9u64],
    }];
    assert!(matches!(aggregate_job_results(ok), BuildResult::Success(_, _)));
}
