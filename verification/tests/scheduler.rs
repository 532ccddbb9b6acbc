use ulid::Ulid;
use zrunner::capacity::{HostCapacity, Limits};
use zrunner::environment::Environment;
use zrunner::ids::job_group;
use zrunner::protocol::{
    CompileSlots, ExclusivityRequest, Job, JobProfile, ResourceRequest, JOB_SCHEMA,
};
use zrunner::scheduler::{Scheduler, SchedulerError};

fn numbered(id: u128, priority: i32) -> Job {
    Job {
        schema: JOB_SCHEMA.to_owned(),
        id,
        runner: "debian1".to_owned(),
        group: job_group(id),
        project: None,
        cwd: "/tmp".to_owned(),
        argv: vec!["true".to_owned()],
        env: Environment::new(),
        priority,
        profile: JobProfile::Generic,
        rust_codegen_backend: None,
        resources: ResourceRequest { compile_slots: CompileSlots::Exact(1), memory_mib: 512 },
        locks: Vec::new(),
        exclusive: None,
        timeout_seconds: 10,
        retry_on_runner_restart: 0,
        output_ttl_seconds: 10,
    }
}

fn job(priority: i32) -> Job {
    numbered(Ulid::new().0, priority)
}

fn calm_host() -> HostCapacity {
    HostCapacity { available_memory_mib: 16_000, ..HostCapacity::default() }
}

fn started(scheduler: &mut Scheduler, limits: &Limits, host: &HostCapacity) -> Option<u128> {
    scheduler.next(limits, host).unwrap().map(|pair| pair.0.id)
}

#[test]
fn higher_priority_runs_first_then_fifo() {
    let mut scheduler = Scheduler::default();
    let low = job(0);
    let high = job(50);
    scheduler.enqueue(low.clone(), "alpha".to_owned()).unwrap();
    scheduler.enqueue(high.clone(), "alpha".to_owned()).unwrap();
    let host = HostCapacity { available_memory_mib: 16_000, ..HostCapacity::default() };
    let (selected, _) = scheduler.next(&Limits::default(), &host).unwrap().unwrap();
    assert_eq!(selected.id, high.id);
}

#[test]
fn reprioritizing_running_or_unknown_job_is_a_nonfatal_noop() {
    let mut scheduler = Scheduler::default();
    let running = job(0);
    scheduler.enqueue(running.clone(), "alpha".to_owned()).unwrap();
    let host = HostCapacity { available_memory_mib: 16_000, ..HostCapacity::default() };
    scheduler.next(&Limits::default(), &host).unwrap().unwrap();

    assert!(!scheduler.set_priority(running.id, 100));
    assert!(!scheduler.set_priority(Ulid::new().0, 100));
}

#[test]
fn ordinary_docker_build_can_share_host_capacity() {
    let mut scheduler = Scheduler::default();
    let running = job(50);
    let mut docker = job(100);
    docker.profile = JobProfile::DockerBuild;
    scheduler.enqueue(running.clone(), "alpha".to_owned()).unwrap();
    let host = HostCapacity { available_memory_mib: 16_000, ..HostCapacity::default() };
    scheduler.next(&Limits::default(), &host).unwrap().unwrap();
    scheduler.enqueue(docker, "beta".to_owned()).unwrap();
    assert!(scheduler.next(&Limits::default(), &host).unwrap().is_some());
}

#[test]
fn explicit_exclusive_job_drains_then_blocks_the_host() {
    let mut scheduler = Scheduler::default();
    let mut docker = job(100);
    docker.profile = JobProfile::DockerBuild;
    docker.exclusive = Some(ExclusivityRequest { reason: "qualify bounded builder".to_owned() });
    let ordinary = job(110);
    scheduler.enqueue(ordinary.clone(), "alpha".to_owned()).unwrap();
    let host = HostCapacity { available_memory_mib: 16_000, ..HostCapacity::default() };
    scheduler.next(&Limits::default(), &host).unwrap().unwrap();
    scheduler.enqueue(docker.clone(), "beta".to_owned()).unwrap();
    assert!(scheduler.next(&Limits::default(), &host).unwrap().is_none());
    scheduler.finish(ordinary.id).unwrap();
    let (selected, _) = scheduler.next(&Limits::default(), &host).unwrap().unwrap();
    assert_eq!(selected.id, docker.id);
    scheduler.enqueue(job(50), "alpha".to_owned()).unwrap();
    assert!(scheduler.next(&Limits::default(), &host).unwrap().is_none());
}

#[test]
fn blocked_ordinary_head_does_not_strand_capacity() {
    let mut scheduler = Scheduler::default();
    let mut lock_owner = job(110);
    lock_owner.locks.push("shared".to_owned());
    let mut blocked = job(100);
    blocked.locks.push("shared".to_owned());
    let backfill = job(50);
    scheduler.enqueue(lock_owner.clone(), "alpha".to_owned()).unwrap();
    scheduler.enqueue(blocked, "alpha".to_owned()).unwrap();
    scheduler.enqueue(backfill.clone(), "beta".to_owned()).unwrap();
    let host = HostCapacity { available_memory_mib: 16_000, ..HostCapacity::default() };
    scheduler.next(&Limits::default(), &host).unwrap().unwrap();
    let (selected, _) = scheduler.next(&Limits::default(), &host).unwrap().unwrap();
    assert_eq!(selected.id, backfill.id);
}

#[test]
fn represents_waiting_projects_before_admitting_a_duplicate() {
    let mut scheduler = Scheduler::default();
    let limits = Limits { max_running_jobs: 4, max_compile_slots: 4, ..Limits::default() };
    let host = HostCapacity { available_memory_mib: 16_000, ..HostCapacity::default() };
    let fission_first = job(100);
    let fission_second = job(90);
    let worka = job(80);
    let keldra = job(70);
    let infra = job(60);
    scheduler.enqueue(fission_first.clone(), "fission".to_owned()).unwrap();
    scheduler.enqueue(fission_second.clone(), "fission".to_owned()).unwrap();
    scheduler.enqueue(worka.clone(), "worka".to_owned()).unwrap();
    scheduler.enqueue(keldra.clone(), "keldra".to_owned()).unwrap();
    scheduler.enqueue(infra.clone(), "infra".to_owned()).unwrap();

    let mut selected = Vec::new();
    for _ in 0..4 {
        selected.push(scheduler.next(&limits, &host).unwrap().unwrap().0.id);
    }

    assert_eq!(selected, vec![fission_first.id, worka.id, keldra.id, infra.id]);
    assert_eq!(scheduler.queued_len(), 1);
}

#[test]
fn one_project_can_fill_spare_capacity_when_nobody_else_waits() {
    let mut scheduler = Scheduler::default();
    let limits = Limits { max_running_jobs: 4, max_compile_slots: 4, ..Limits::default() };
    let host = HostCapacity { available_memory_mib: 16_000, ..HostCapacity::default() };
    for priority in [40, 30, 20, 10] {
        scheduler.enqueue(job(priority), "fission".to_owned()).unwrap();
    }

    for _ in 0..4 {
        assert!(scheduler.next(&limits, &host).unwrap().is_some());
    }
    assert_eq!(scheduler.queued_len(), 0);
}

#[test]
fn equal_priorities_run_in_the_order_of_their_identifiers() {
    let mut scheduler = Scheduler::default();
    let limits = Limits { max_running_jobs: 4, ..Limits::default() };
    for id in [30, 10, 20] {
        assert_eq!(scheduler.enqueue(numbered(id, 0), "alpha".to_owned()), Ok(true));
    }
    let host = calm_host();
    assert_eq!(started(&mut scheduler, &limits, &host), Some(10));
    assert_eq!(started(&mut scheduler, &limits, &host), Some(20));
    assert_eq!(started(&mut scheduler, &limits, &host), Some(30));
    assert_eq!(started(&mut scheduler, &limits, &host), None);
}

#[test]
fn known_jobs_are_not_enqueued_twice() {
    let mut scheduler = Scheduler::default();
    assert_eq!(scheduler.enqueue(numbered(1, 0), "alpha".to_owned()), Ok(true));
    assert_eq!(scheduler.enqueue(numbered(1, 9), "beta".to_owned()), Ok(false));
    assert_eq!(scheduler.queued_len(), 1);
    assert_eq!(started(&mut scheduler, &Limits::default(), &calm_host()), Some(1));
    assert_eq!(scheduler.enqueue(numbered(1, 0), "alpha".to_owned()), Ok(false));
    assert_eq!(scheduler.queued_len(), 0);
}

#[test]
fn faulty_submissions_are_refused() {
    let mut scheduler = Scheduler::default();
    let mut faulty = numbered(1, 0);
    faulty.argv.clear();
    assert_eq!(
        scheduler.enqueue(faulty, "alpha".to_owned()),
        Err("argv must contain a program")
    );
    assert_eq!(
        scheduler.enqueue(numbered(1, 0), String::new()),
        Err("job project is required")
    );
    assert!(!scheduler.contains(1));
    assert_eq!(scheduler.queued_len(), 0);
}

#[test]
fn cancelling_takes_only_waiting_jobs_away() {
    let mut scheduler = Scheduler::default();
    scheduler.enqueue(numbered(1, 0), "alpha".to_owned()).unwrap();
    scheduler.enqueue(numbered(2, 0), "alpha".to_owned()).unwrap();
    assert_eq!(started(&mut scheduler, &Limits::default(), &calm_host()), Some(1));
    assert!(scheduler.cancel_queued(1).is_none());
    assert_eq!(scheduler.cancel_queued(2).map(|job| job.id), Some(2));
    assert!(scheduler.cancel_queued(2).is_none());
    assert!(!scheduler.contains(2));
    assert!(scheduler.contains(1));
}

#[test]
fn cancelled_jobs_return_to_their_old_place() {
    let mut scheduler = Scheduler::default();
    let limits = Limits { max_running_jobs: 4, ..Limits::default() };
    for id in [1, 2, 3] {
        scheduler.enqueue(numbered(id, 5), "alpha".to_owned()).unwrap();
    }
    let cancelled = scheduler.cancel_queued(2).unwrap();
    scheduler.enqueue(cancelled, "alpha".to_owned()).unwrap();
    let host = calm_host();
    assert_eq!(started(&mut scheduler, &limits, &host), Some(1));
    assert_eq!(started(&mut scheduler, &limits, &host), Some(2));
    assert_eq!(started(&mut scheduler, &limits, &host), Some(3));
}

#[test]
fn changed_priorities_reorder_the_line_and_can_be_changed_back() {
    let mut scheduler = Scheduler::default();
    let limits = Limits { max_running_jobs: 4, ..Limits::default() };
    for id in [1, 2, 3] {
        scheduler.enqueue(numbered(id, 0), "alpha".to_owned()).unwrap();
    }
    assert!(scheduler.set_priority(3, 10));
    assert!(scheduler.set_priority(1, 20));
    assert!(scheduler.set_priority(1, 0));
    let host = calm_host();
    let (first, _) = scheduler.next(&limits, &host).unwrap().unwrap();
    assert_eq!((first.id, first.priority), (3, 10));
    assert_eq!(started(&mut scheduler, &limits, &host), Some(1));
    assert_eq!(started(&mut scheduler, &limits, &host), Some(2));
}

#[test]
fn finishing_frees_locks_slots_and_the_place() {
    let mut scheduler = Scheduler::default();
    let limits = Limits { max_running_jobs: 1, ..Limits::default() };
    let mut first = numbered(1, 0);
    first.locks.push("device".to_owned());
    let mut second = numbered(2, 0);
    second.locks.push("device".to_owned());
    scheduler.enqueue(first, "alpha".to_owned()).unwrap();
    scheduler.enqueue(second, "alpha".to_owned()).unwrap();
    let host = calm_host();
    assert_eq!(started(&mut scheduler, &limits, &host), Some(1));
    assert_eq!(started(&mut scheduler, &limits, &host), None);
    assert!(scheduler.finish(2).is_none());
    assert_eq!(scheduler.finish(1).map(|job| job.id), Some(1));
    assert!(scheduler.finish(1).is_none());
    assert_eq!(started(&mut scheduler, &limits, &host), Some(2));
}

#[test]
fn held_locks_keep_a_job_waiting() {
    let mut scheduler = Scheduler::default();
    let mut first = numbered(1, 0);
    first.locks = vec!["a".to_owned(), "b".to_owned()];
    let mut second = numbered(2, 0);
    second.locks = vec!["c".to_owned(), "b".to_owned()];
    scheduler.enqueue(first, "alpha".to_owned()).unwrap();
    scheduler.enqueue(second, "alpha".to_owned()).unwrap();
    let host = calm_host();
    assert_eq!(started(&mut scheduler, &Limits::default(), &host), Some(1));
    assert_eq!(started(&mut scheduler, &Limits::default(), &host), None);
}

#[test]
fn allocations_follow_the_request_and_the_free_slots() {
    let mut scheduler = Scheduler::default();
    let limits = Limits { max_running_jobs: 4, ..Limits::default() };
    let mut automatic = numbered(1, 30);
    automatic.resources = ResourceRequest::default();
    let mut zero = numbered(2, 20);
    zero.resources =
        ResourceRequest { compile_slots: CompileSlots::Exact(0), memory_mib: 1000 };
    let mut last = numbered(3, 10);
    last.resources = ResourceRequest::default();
    scheduler.enqueue(automatic, "alpha".to_owned()).unwrap();
    scheduler.enqueue(zero, "alpha".to_owned()).unwrap();
    scheduler.enqueue(last, "alpha".to_owned()).unwrap();
    let host = calm_host();
    let first = scheduler.next(&limits, &host).unwrap().unwrap().1;
    assert_eq!((first.compile_slots, first.memory_mib), (4, 512));
    let second = scheduler.next(&limits, &host).unwrap().unwrap().1;
    assert_eq!((second.compile_slots, second.memory_mib), (1, 1000));
    let third = scheduler.next(&limits, &host).unwrap().unwrap().1;
    assert_eq!((third.compile_slots, third.memory_mib), (1, 512));
    scheduler.enqueue(numbered(4, 0), "alpha".to_owned()).unwrap();
    assert!(scheduler.next(&limits, &host).unwrap().is_none());
}

#[test]
fn oversized_memory_is_an_error_with_the_job_in_words() {
    let mut scheduler = Scheduler::default();
    let mut large = numbered(0x41414141414141414141414141414141, 0);
    large.resources.memory_mib = 12_289;
    scheduler.enqueue(large, "alpha".to_owned()).unwrap();
    let error = scheduler.next(&Limits::default(), &calm_host()).unwrap_err();
    assert_eq!(
        error,
        SchedulerError::MemoryLimit { job: 0x41414141414141414141414141414141 }
    );
    assert_eq!(
        error.message(),
        "job 21850M2GA1850M2GA1850M2GA1 requests more memory than the host limit"
    );
    assert_eq!(scheduler.queued_len(), 0);
    assert!(!scheduler.contains(0x41414141414141414141414141414141));
}

#[test]
fn strained_hosts_start_nothing() {
    let limits = Limits::default();
    let hosts = [
        HostCapacity { available_memory_mib: 4607, ..calm_host() },
        HostCapacity { cpu_pressure_some_avg10: 2501, ..calm_host() },
        HostCapacity { memory_pressure_full_avg10: 201, ..calm_host() },
        HostCapacity { io_pressure_full_avg10: 801, ..calm_host() },
    ];
    for host in &hosts {
        let mut scheduler = Scheduler::default();
        scheduler.enqueue(numbered(1, 0), "alpha".to_owned()).unwrap();
        assert_eq!(started(&mut scheduler, &limits, host), None);
    }
    let mut scheduler = Scheduler::default();
    scheduler.enqueue(numbered(1, 0), "alpha".to_owned()).unwrap();
    let brim = HostCapacity {
        available_memory_mib: 4608,
        cpu_pressure_some_avg10: 2500,
        memory_pressure_full_avg10: 200,
        io_pressure_full_avg10: 800,
    };
    assert_eq!(started(&mut scheduler, &limits, &brim), Some(1));
}

#[test]
fn oversized_slot_requests_are_an_error_with_the_job_in_words() {
    let mut scheduler = Scheduler::default();
    let mut wide = numbered(1, 50);
    wide.resources.compile_slots = CompileSlots::Exact(7);
    scheduler.enqueue(wide, "alpha".to_owned()).unwrap();
    let error = scheduler.next(&Limits::default(), &calm_host()).unwrap_err();
    assert_eq!(error, SchedulerError::SlotLimit { job: 1 });
    assert_eq!(
        error.message(),
        "job 00000000000000000000000001 requests more compile slots than the host limit"
    );
    assert!(!scheduler.contains(1));
}

#[test]
fn oversized_jobs_do_not_block_those_behind_them() {
    let mut scheduler = Scheduler::default();
    let mut large = numbered(1, 50);
    large.resources.memory_mib = u64::MAX;
    let mut wide = numbered(2, 40);
    wide.resources.compile_slots = CompileSlots::Exact(7);
    wide.exclusive = Some(ExclusivityRequest { reason: "x".to_owned() });
    scheduler.enqueue(large, "alpha".to_owned()).unwrap();
    scheduler.enqueue(wide, "alpha".to_owned()).unwrap();
    scheduler.enqueue(numbered(3, 0), "alpha".to_owned()).unwrap();
    let limits = Limits::default();
    let host = calm_host();
    assert_eq!(
        scheduler.next(&limits, &host).unwrap_err(),
        SchedulerError::MemoryLimit { job: 1 }
    );
    assert_eq!(
        scheduler.next(&limits, &host).unwrap_err(),
        SchedulerError::SlotLimit { job: 2 }
    );
    assert_eq!(started(&mut scheduler, &limits, &host), Some(3));
    assert_eq!(scheduler.queued_len(), 0);
}

#[test]
fn memory_set_aside_for_running_jobs_counts() {
    let mut scheduler = Scheduler::default();
    for (id, project) in [(1, "alpha"), (2, "beta")] {
        let mut job = numbered(id, 0);
        job.resources.memory_mib = 8000;
        scheduler.enqueue(job, project.to_owned()).unwrap();
    }
    let limits = Limits::default();
    let host = calm_host();
    assert_eq!(started(&mut scheduler, &limits, &host), Some(1));
    assert_eq!(started(&mut scheduler, &limits, &host), None);
    let short = HostCapacity { available_memory_mib: 20_095, ..host };
    assert_eq!(started(&mut scheduler, &limits, &short), None);
    let enough = HostCapacity { available_memory_mib: 20_096, ..host };
    assert_eq!(started(&mut scheduler, &limits, &enough), Some(2));
}

#[test]
fn memory_is_free_again_once_a_job_has_ended() {
    let mut scheduler = Scheduler::default();
    for id in [1, 2] {
        let mut job = numbered(id, 0);
        job.resources.memory_mib = 8000;
        scheduler.enqueue(job, "alpha".to_owned()).unwrap();
    }
    let limits = Limits::default();
    let host = calm_host();
    assert_eq!(started(&mut scheduler, &limits, &host), Some(1));
    assert_eq!(started(&mut scheduler, &limits, &host), None);
    scheduler.finish(1).unwrap();
    assert_eq!(started(&mut scheduler, &limits, &host), Some(2));
}

#[test]
fn cancelling_at_once_leaves_the_line_as_it_was() {
    let mut scheduler = Scheduler::default();
    let limits = Limits { max_running_jobs: 4, ..Limits::default() };
    scheduler.enqueue(numbered(1, 0), "alpha".to_owned()).unwrap();
    scheduler.enqueue(numbered(3, 0), "alpha".to_owned()).unwrap();
    scheduler.enqueue(numbered(2, 9), "beta".to_owned()).unwrap();
    assert_eq!(scheduler.cancel_queued(2).map(|job| job.id), Some(2));
    let host = calm_host();
    assert_eq!(started(&mut scheduler, &limits, &host), Some(1));
    assert_eq!(started(&mut scheduler, &limits, &host), Some(3));
    assert_eq!(started(&mut scheduler, &limits, &host), None);
}

#[test]
fn finishing_at_once_leaves_what_cancelling_leaves() {
    let host = calm_host();
    let limits = Limits::default();
    let mut one = Scheduler::default();
    let mut other = Scheduler::default();
    for scheduler in [&mut one, &mut other] {
        let mut first = numbered(1, 5);
        first.locks.push("device".to_owned());
        let mut second = numbered(2, 0);
        second.locks.push("device".to_owned());
        scheduler.enqueue(first, "alpha".to_owned()).unwrap();
        scheduler.enqueue(second, "alpha".to_owned()).unwrap();
    }
    assert_eq!(started(&mut one, &limits, &host), Some(1));
    one.finish(1).unwrap();
    other.cancel_queued(1).unwrap();
    for scheduler in [&mut one, &mut other] {
        assert!(!scheduler.contains(1));
        assert_eq!(scheduler.queued_len(), 1);
        assert_eq!(started(scheduler, &limits, &host), Some(2));
    }
}

#[test]
fn earlier_submissions_go_first_at_equal_priority() {
    let mut scheduler = Scheduler::default();
    let later = Ulid::from_parts(1_700_000_000_001, 0).0;
    let earlier = Ulid::from_parts(1_700_000_000_000, u128::MAX >> 48).0;
    scheduler.enqueue(numbered(later, 0), "alpha".to_owned()).unwrap();
    scheduler.enqueue(numbered(earlier, 0), "alpha".to_owned()).unwrap();
    assert_eq!(started(&mut scheduler, &Limits::default(), &calm_host()), Some(earlier));
}

#[test]
fn urgent_arrivals_do_not_displace_running_jobs() {
    let mut scheduler = Scheduler::default();
    let limits = Limits { max_running_jobs: 1, ..Limits::default() };
    let host = calm_host();
    scheduler.enqueue(numbered(1, 0), "alpha".to_owned()).unwrap();
    assert_eq!(started(&mut scheduler, &limits, &host), Some(1));
    scheduler.enqueue(numbered(2, 100), "beta".to_owned()).unwrap();
    assert_eq!(started(&mut scheduler, &limits, &host), None);
    assert!(scheduler.contains(1));
    assert_eq!(scheduler.finish(1).map(|job| job.id), Some(1));
    assert_eq!(started(&mut scheduler, &limits, &host), Some(2));
}

#[test]
fn waiting_jobs_are_those_put_in_line_and_not_taken_out() {
    let mut scheduler = Scheduler::default();
    let limits = Limits::default();
    let host = calm_host();
    for id in 1..=5 {
        scheduler.enqueue(numbered(id, 0), "alpha".to_owned()).unwrap();
    }
    scheduler.enqueue(numbered(5, 0), "alpha".to_owned()).unwrap();
    let mut large = numbered(6, 9);
    large.resources.memory_mib = u64::MAX;
    scheduler.enqueue(large, "alpha".to_owned()).unwrap();
    assert_eq!(scheduler.queued_len(), 6);
    assert!(scheduler.set_priority(4, 1));
    assert_eq!(scheduler.queued_len(), 6);
    assert!(scheduler.next(&limits, &host).is_err());
    assert_eq!(started(&mut scheduler, &limits, &host), Some(4));
    assert!(scheduler.cancel_queued(2).is_some());
    assert!(scheduler.cancel_queued(2).is_none());
    scheduler.finish(4).unwrap();
    assert_eq!(scheduler.queued_len(), 6 - 1 - 1 - 1);
}

#[test]
fn extreme_priorities_are_ordered() {
    let mut scheduler = Scheduler::default();
    let limits = Limits { max_running_jobs: 4, ..Limits::default() };
    let host = calm_host();
    scheduler.enqueue(numbered(1, i32::MIN), "alpha".to_owned()).unwrap();
    scheduler.enqueue(numbered(2, i32::MAX), "alpha".to_owned()).unwrap();
    scheduler.enqueue(numbered(u128::MAX, 0), "alpha".to_owned()).unwrap();
    scheduler.enqueue(numbered(0, 0), "alpha".to_owned()).unwrap();
    assert_eq!(started(&mut scheduler, &limits, &host), Some(2));
    assert_eq!(started(&mut scheduler, &limits, &host), Some(0));
    assert_eq!(started(&mut scheduler, &limits, &host), Some(u128::MAX));
    assert_eq!(started(&mut scheduler, &limits, &host), Some(1));
}
