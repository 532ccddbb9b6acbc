use zrunner::capacity::ConfigLimits;
use zrunner::cli::{
    default_root, default_runner, default_zboard, parse_arguments, Config, Invocation,
};
use zrunner::policy::ExclusivePolicy;
use zrunner::transport::board_arguments;

fn parse(arguments: &[&str]) -> Result<Invocation, String> {
    parse_arguments(&arguments.iter().map(|argument| argument.to_string()).collect())
}

#[test]
fn help_is_the_default() {
    assert_eq!(parse(&[]), Ok(Invocation::Help));
    for word in ["help", "--help", "-h"] {
        assert_eq!(parse(&[word]), Ok(Invocation::Help));
        assert_eq!(parse(&[word, "more"]), Ok(Invocation::Help));
    }
}

#[test]
fn commands_are_told_apart() {
    assert_eq!(parse(&["example-job"]), Ok(Invocation::ExampleJob));
    assert_eq!(parse(&["example-job", "more"]), Ok(Invocation::ExampleJob));
    assert_eq!(parse(&["daemon"]), Ok(Invocation::Daemon { config: None }));
    assert_eq!(
        parse(&["daemon", "--config", "a.json"]),
        Ok(Invocation::Daemon { config: Some("a.json".to_owned()) })
    );
    assert_eq!(
        parse(&["daemon", "--config", "a.json", "--config", "--config"]),
        Ok(Invocation::Daemon { config: Some("--config".to_owned()) })
    );
}

#[test]
fn wrong_arguments_are_named() {
    assert_eq!(parse(&["serve"]), Err("unknown command 'serve'".to_owned()));
    assert_eq!(parse(&[""]), Err("unknown command ''".to_owned()));
    assert_eq!(parse(&["daemon", "--fast"]), Err("unknown option '--fast'".to_owned()));
    assert_eq!(parse(&["daemon", "--config"]), Err("--config requires a path".to_owned()));
    assert_eq!(
        parse(&["daemon", "--config", "a", "b"]),
        Err("unknown option 'b'".to_owned())
    );
}

#[test]
fn runners_are_named_after_their_host() {
    assert_eq!(default_runner(Some("mini\n")), "mini");
    assert_eq!(default_runner(Some(" \t\n")), "");
    assert_eq!(default_runner(None), "debian1");
}

#[test]
fn the_board_is_started_for_the_runner() {
    let config = Config {
        zboard: default_zboard(),
        board_root: default_root(),
        runner: "mini".to_owned(),
        docker_builder: None,
        exclusive: ExclusivePolicy { allowed_projects: Vec::new(), allowed_profiles: Vec::new() },
        limits: ConfigLimits {
            max_running_jobs: Some(9),
            max_compile_slots: None,
            host_memory_reserve_mib: None,
            max_job_memory_mib: None,
            cpu_pressure_limit: None,
            memory_pressure_limit: None,
            io_pressure_limit: None,
        },
    };
    assert_eq!(config.zboard, "zboard");
    assert_eq!(config.limits().max_running_jobs, 9);
    assert_eq!(
        board_arguments(&config, "/src"),
        [
            "run",
            "--root",
            "/home/zcourts/projects/projects/.ai/message-board",
            "--project",
            "zrunner",
            "--session",
            "mini",
            "--path",
            "/src",
        ]
    );
}
