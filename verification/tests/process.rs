use std::collections::HashSet;
use zrunner::process::{
    parse_process_stat, process_groups_for_tree, process_groups_have_live_members, ProcessStat,
};

#[test]
fn parses_proc_stat_with_parentheses_in_the_command_name() {
    let stat = "123 (cargo (worker)) S 42 77 77 0 -1";
    let parsed = parse_process_stat(123, stat).unwrap();
    assert_eq!(parsed.pid, 123);
    assert_eq!(parsed.state, 'S');
    assert_eq!(parsed.parent, 42);
    assert_eq!(parsed.group, 77);
}

#[test]
fn negative_groups_are_read() {
    let parsed = parse_process_stat(1, "1 (a) Z 0 -1 0").unwrap();
    assert_eq!((parsed.state, parsed.parent, parsed.group), ('Z', 0, -1));
}

#[test]
fn unreadable_stats_are_none() {
    for stat in [
        "",
        "123 (cargo) ",
        "123 (cargo) S",
        "123 (cargo) S 42",
        "123 (cargo) S x 77",
        "123 (cargo) S 42 x",
        "123 (cargo) S -42 77",
        "123 (cargo) S 4294967296 77",
        "123 (cargo) S 42 2147483648",
        "123 cargo S 42 77",
    ] {
        assert_eq!(parse_process_stat(123, stat), None, "{stat}");
    }
}

fn process(pid: u32, parent: u32, group: i32) -> ProcessStat {
    ProcessStat { pid, state: 'S', parent, group }
}

#[test]
fn a_tree_reaches_every_descendant_in_any_order() {
    let processes = vec![
        process(40, 30, 40),
        process(30, 20, 20),
        process(20, 10, 20),
        process(10, 1, 10),
        process(50, 1, 50),
        process(60, 50, 60),
    ];
    assert_eq!(process_groups_for_tree(10, &processes), HashSet::from([10, 20, 40]));
    assert_eq!(process_groups_for_tree(50, &processes), HashSet::from([50, 60]));
}

#[test]
fn a_root_that_is_gone_still_names_its_group() {
    assert_eq!(process_groups_for_tree(7, &Vec::new()), HashSet::from([7]));
    assert_eq!(
        process_groups_for_tree(7, &vec![process(8, 7, 9)]),
        HashSet::from([7, 9])
    );
}

#[test]
fn processes_that_are_their_own_ancestors_do_no_harm() {
    let processes = vec![process(5, 6, 5), process(6, 5, 6), process(7, 7, 7)];
    assert_eq!(process_groups_for_tree(5, &processes), HashSet::from([5, 6]));
    assert_eq!(process_groups_for_tree(1, &processes), HashSet::from([1]));
}

#[test]
fn zombies_are_not_alive() {
    let groups = HashSet::from([20, 40]);
    let zombie = ProcessStat { state: 'Z', ..process(2, 1, 20) };
    assert!(!process_groups_have_live_members(&groups, &Vec::new()));
    assert!(!process_groups_have_live_members(&groups, &vec![zombie, process(3, 1, 30)]));
    assert!(process_groups_have_live_members(&groups, &vec![zombie, process(4, 1, 40)]));
}
