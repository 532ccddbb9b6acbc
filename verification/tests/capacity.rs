use zrunner::capacity::{
    combine_samples, mem_available_mib, pressure_avg10, ConfigLimits, HostCapacity, Limits,
    MeanCapacity,
};

#[test]
fn default_limits_are_those_of_the_first_host() {
    assert_eq!(
        Limits::default(),
        Limits {
            max_running_jobs: 2,
            max_compile_slots: 6,
            host_memory_reserve_mib: 4096,
            max_job_memory_mib: 12288,
            cpu_pressure_limit: 2500,
            memory_pressure_limit: 200,
            io_pressure_limit: 800,
        }
    );
}

#[test]
fn configured_limits_replace_defaults_one_by_one() {
    let config = ConfigLimits {
        max_running_jobs: Some(3),
        max_compile_slots: None,
        host_memory_reserve_mib: Some(1),
        max_job_memory_mib: None,
        cpu_pressure_limit: Some(5),
        memory_pressure_limit: None,
        io_pressure_limit: Some(0),
    };
    assert_eq!(
        config.limits(),
        Limits {
            max_running_jobs: 3,
            max_compile_slots: 6,
            host_memory_reserve_mib: 1,
            max_job_memory_mib: 12288,
            cpu_pressure_limit: 5,
            memory_pressure_limit: 200,
            io_pressure_limit: 0,
        }
    );
}

#[test]
fn memory_is_read_in_mib() {
    let report = "MemTotal:       32768000 kB\nMemFree:         100 kB\nMemAvailable:   2047 kB\n";
    assert_eq!(mem_available_mib(report), Ok(1));
    assert_eq!(mem_available_mib("MemAvailable:1048576"), Ok(1024));
    assert_eq!(mem_available_mib("MemAvailable: 18446744073709551615 kB"), Ok(18014398509481983));
}

#[test]
fn unreadable_memory_is_an_error() {
    let absent = Err("MemAvailable is absent from /proc/meminfo");
    assert_eq!(mem_available_mib("MemFree: 100 kB\n"), absent);
    assert_eq!(mem_available_mib(" MemAvailable: 100 kB\n"), absent);
    assert_eq!(mem_available_mib("MemAvailable:   \nMemAvailable: 4096"), absent);
    assert_eq!(mem_available_mib(""), absent);
    assert_eq!(mem_available_mib("MemAvailable: many kB"), Err("parse MemAvailable"));
    assert_eq!(
        mem_available_mib("MemAvailable: 18446744073709551616 kB"),
        Err("parse MemAvailable")
    );
}

#[test]
fn pressures_are_read_by_class() {
    let report = "some avg10=1.25 avg60=0.00 avg300=0.00 total=1\r\nfull avg10=0.50 avg60=0.00 avg300=0.00 total=2\n";
    assert_eq!(pressure_avg10(report, "/proc/pressure/io", "some"), Ok("1.25".to_owned()));
    assert_eq!(pressure_avg10(report, "/proc/pressure/io", "full"), Ok("0.50".to_owned()));
    assert_eq!(
        pressure_avg10(report, "/proc/pressure/io", "none"),
        Err("missing none pressure in /proc/pressure/io".to_owned())
    );
    assert_eq!(
        pressure_avg10("some avg60=1\n", "/p", "some"),
        Err("missing avg10 pressure".to_owned())
    );
}

fn sample(memory: u64, cpu: i64, full: i64, io: i64) -> HostCapacity {
    HostCapacity {
        available_memory_mib: memory,
        cpu_pressure_some_avg10: cpu,
        memory_pressure_full_avg10: full,
        io_pressure_full_avg10: io,
    }
}

#[test]
fn samples_are_combined_to_least_memory_and_mean_pressure() {
    assert_eq!(
        combine_samples(&Vec::new()),
        MeanCapacity {
            available_memory_mib: 0,
            samples: 1,
            cpu_pressure_total: 0,
            memory_pressure_total: 0,
            io_pressure_total: 0,
        }
    );
    assert_eq!(
        combine_samples(&vec![sample(9, 10, 1, 0), sample(7, 20, 2, 0), sample(8, 30, 2, 1)]),
        MeanCapacity {
            available_memory_mib: 7,
            samples: 3,
            cpu_pressure_total: 60,
            memory_pressure_total: 5,
            io_pressure_total: 1,
        }
    );
    let half = combine_samples(&vec![sample(0, 1, 0, 0), sample(0, 2, 0, 0)]);
    assert_eq!(half.cpu_pressure_total as f64 / half.samples as f64, 1.5);
}

#[test]
fn means_in_hundredths_are_rounded_up() {
    let mean = combine_samples(&vec![sample(9, 10, 1, 0), sample(7, 20, 2, 0), sample(8, 30, 2, 1)]);
    assert_eq!(mean.in_hundredths(), sample(7, 20, 2, 1));
    assert_eq!(combine_samples(&Vec::new()).in_hundredths(), HostCapacity::default());
    assert_eq!(
        combine_samples(&vec![sample(5, -3, 4, 7)]).in_hundredths(),
        sample(5, -3, 4, 7)
    );
    assert_eq!(
        combine_samples(&vec![sample(0, i64::MAX, -1, 0), sample(0, i64::MAX, -2, 0)])
            .in_hundredths(),
        sample(0, i64::MAX, -1, 0)
    );
}

#[test]
fn rounded_means_compare_with_limits_as_the_means_do() {
    let above = combine_samples(&vec![sample(0, 2500, 0, 0), sample(0, 2501, 0, 0)]);
    assert!(!above.in_hundredths().is_calm(&Limits::default()));
    let even = combine_samples(&vec![sample(0, 2499, 0, 0), sample(0, 2501, 0, 0)]);
    assert!(even.in_hundredths().is_calm(&Limits::default()));
}
