use ketch::builder::{
    abort_error, choose_script, compile_args, link_command, no_script_error, object_path,
    script_candidates, BuildAction, Orchestrator,
};
use ketch::config::parse_string;
use ketch::project::{Project, ProjectType};

fn project(text: &str) -> Project {
    Project::from_config(parse_string(text).unwrap()).unwrap()
}

#[test]
fn object_path_flattens_separators_and_swaps_extension() {
    assert_eq!(object_path("./src/main.c"), "./build/main.o");
    assert_eq!(object_path("./src/dir/x.c"), "./build/dir_x.o");
    assert_eq!(object_path("./src/a/b/c.c"), "./build/a_b_c.o");
}

#[test]
fn shared_compile_gets_fpic() {
    let p = project("(name a)(version 1)(type shared)(flags -O2)");
    let args = compile_args(&p, false, "./src/main.c");
    assert!(args.contains(&"-fpic".to_string()));
}

#[test]
fn binary_and_static_compiles_get_no_fpic() {
    for t in ["binary", "static"] {
        let p = project(&format!("(name a)(version 1)(type {})(flags -O2)", t));
        let args = compile_args(&p, false, "./src/main.c");
        assert!(!args.contains(&"-fpic".to_string()));
    }
}

#[test]
fn compile_args_exact_order() {
    let p = project("(name a)(version 1)(flags -O2 -g)(standard gnu23)");
    let args = compile_args(&p, true, "./src/dir/x.c");
    assert_eq!(
        args,
        vec![
            "-O2".to_string(),
            "-g".to_string(),
            "-O3".to_string(),
            "-std=gnu2x".to_string(),
            "-c".to_string(),
            "./src/dir/x.c".to_string(),
            "-o".to_string(),
            "./build/dir_x.o".to_string()
        ]
    );
}

#[test]
fn static_link_is_ar_rcs() {
    let p = project("(name foo)(version 1)(type static)");
    let (prog, args) = link_command(&p, &vec!["a.o".to_string(), "b.o".to_string()]);
    assert_eq!(prog, "ar");
    assert_eq!(
        args,
        vec![
            "rcs".to_string(),
            "a.o".to_string(),
            "b.o".to_string(),
            "libfoo.a".to_string()
        ]
    );
}

#[test]
fn binary_link_names_the_program() {
    let p = project("(name foo)(version 1)(cc clang)");
    let (prog, args) = link_command(&p, &vec!["x.o".to_string()]);
    assert_eq!(prog, "clang");
    assert_eq!(args, vec!["x.o".to_string(), "-o".to_string(), "foo".to_string()]);
}

#[test]
fn shared_link_builds_a_shared_object() {
    let p = project("(name foo)(version 1)(type shared)");
    let (prog, args) = link_command(&p, &vec!["x.o".to_string()]);
    assert_eq!(prog, "cc");
    assert_eq!(
        args,
        vec![
            "x.o".to_string(),
            "-shared".to_string(),
            "-o".to_string(),
            "libfoo.so".to_string()
        ]
    );
}

fn files3() -> Vec<String> {
    vec![
        "./src/a.c".to_string(),
        "./src/b.c".to_string(),
        "./src/c.c".to_string(),
    ]
}

fn expect_invoke(a: BuildAction) -> (String, Vec<String>) {
    match a {
        BuildAction::Invoke(p, args) => (p, args),
        _ => panic!("expected an invocation"),
    }
}

#[test]
fn successful_binary_build_compiles_then_links() {
    let p = project("(name foo)(version 1)");
    let mut orch = Orchestrator::new(p, false, files3());
    for src in ["./src/a.c", "./src/b.c", "./src/c.c"] {
        let (prog, args) = expect_invoke(orch.next_action());
        assert_eq!(prog, "cc");
        assert!(args.contains(&src.to_string()));
        orch.report(true);
    }
    let (prog, args) = expect_invoke(orch.next_action());
    assert_eq!(prog, "cc");
    assert_eq!(
        args,
        vec![
            "./build/a.o".to_string(),
            "./build/b.o".to_string(),
            "./build/c.o".to_string(),
            "-o".to_string(),
            "foo".to_string()
        ]
    );
    orch.report(true);
    match orch.next_action() {
        BuildAction::Finish(Ok(())) => {}
        _ => panic!("expected a successful finish"),
    }
}

#[test]
fn second_failure_stops_the_build() {
    let p = project("(name foo)(version 1)");
    let mut orch = Orchestrator::new(p, false, files3());
    let (_, args) = expect_invoke(orch.next_action());
    assert!(args.contains(&"./src/a.c".to_string()));
    orch.report(true);
    let (_, args) = expect_invoke(orch.next_action());
    assert!(args.contains(&"./src/b.c".to_string()));
    orch.report(false);
    match orch.next_action() {
        BuildAction::Finish(Err(e)) => {
            assert_eq!(e.0, "Aborting at first failed command.");
        }
        _ => panic!("the third file must not be compiled and the link must not run"),
    }
}

#[test]
fn before_timing_runs_only_the_hook() {
    let p = project("(name foo)(version 1)(buildscript before)");
    let mut orch = Orchestrator::new(p, false, files3());
    assert!(matches!(orch.next_action(), BuildAction::RunHook));
    orch.report(true);
    assert!(matches!(orch.next_action(), BuildAction::Finish(Ok(()))));
}

#[test]
fn repeat_timing_interleaves_the_hook() {
    let p = project("(name foo)(version 1)(buildscript repeat)");
    let files = vec!["./src/a.c".to_string(), "./src/b.c".to_string()];
    let mut orch = Orchestrator::new(p, false, files);
    for src in ["./src/a.c", "./src/b.c"] {
        let (_, args) = expect_invoke(orch.next_action());
        assert!(args.contains(&src.to_string()));
        orch.report(true);
        assert!(matches!(orch.next_action(), BuildAction::RunHook));
        orch.report(true);
    }
    let (prog, _) = expect_invoke(orch.next_action());
    assert_eq!(prog, "cc");
}

#[test]
fn after_timing_runs_the_hook_past_the_link() {
    let p = project("(name foo)(version 1)(buildscript after)");
    let mut orch = Orchestrator::new(p, false, vec!["./src/a.c".to_string()]);
    orch.next_action();
    orch.report(true);
    orch.next_action();
    orch.report(true);
    assert!(matches!(orch.next_action(), BuildAction::RunHook));
    orch.report(true);
    assert!(matches!(orch.next_action(), BuildAction::Finish(Ok(()))));
}

#[test]
fn release_appends_optimisation() {
    let p = project("(name foo)(version 1)(flags -g)");
    let args = compile_args(&p, true, "./src/a.c");
    assert_eq!(args[1], "-O3");
    let args = compile_args(&p, false, "./src/a.c");
    assert!(!args.contains(&"-O3".to_string()));
}

#[test]
fn no_sources_goes_straight_to_the_link() {
    let p = project("(name foo)(version 1)");
    let mut orch = Orchestrator::new(p, false, vec![]);
    let (prog, args) = expect_invoke(orch.next_action());
    assert_eq!(prog, "cc");
    assert_eq!(args, vec!["-o".to_string(), "foo".to_string()]);
}

#[test]
fn script_candidates_in_order() {
    let c = script_candidates();
    assert_eq!(c.len(), 3);
    assert_eq!(c[0], ("./build.sh".to_string(), "sh".to_string()));
    assert_eq!(c[1], ("./build.pl".to_string(), "perl".to_string()));
    assert_eq!(c[2], ("./build.py".to_string(), "python3".to_string()));
}

#[test]
fn first_existing_script_wins() {
    assert_eq!(choose_script(&vec![false, true, true]), Some(1));
    assert_eq!(choose_script(&vec![true, false, false]), Some(0));
    assert_eq!(choose_script(&vec![false, false, false]), None);
}

#[test]
fn hook_error_messages() {
    assert_eq!(
        no_script_error().0,
        "No buildscript found. Possible build scripts: ./build.sh,./build.pl,./build.py."
    );
    assert_eq!(abort_error().0, "Aborting at first failed command.");
}
