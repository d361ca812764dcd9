use pypi_deps::manifest::read_manifest;
use pypi_deps::registry::{check_status, FetchError, PkgMetadata, Response};
use pypi_deps::requirement::Dep;
use pypi_deps::run::{Action, Report, Run};
use pypi_deps::tools::Tool;
use std::collections::HashMap;

fn answer(requires_dist: Vec<&str>) -> Response {
    Response {
        info: PkgMetadata {
            version: String::from("9.9"),
            requires_dist: Some(requires_dist.into_iter().map(String::from).collect()),
        },
        releases: HashMap::new(),
    }
}

fn fetch_name(action: Action) -> String {
    match action {
        Action::Fetch(name) => name,
        Action::Write(_) => panic!("the run ended early"),
    }
}

fn written(action: Action) -> String {
    match action {
        Action::Write(text) => text,
        Action::Fetch(_) => panic!("the run is not over"),
    }
}

#[test]
fn failed_fetch_leaves_a_section_without_block() {
    let tools = vec![Tool::new("ghost", "0.1"), Tool::new("requests", "2.31.0")];
    let mut run = Run::new(tools);

    assert_eq!(fetch_name(run.next_action()), "ghost");
    let failure = check_status(404).unwrap_err();
    assert_eq!(run.record(Err(failure)), Report::Failed { error: FetchError::NotFound { status: 404 } });

    assert_eq!(fetch_name(run.next_action()), "requests");
    let report = run.record(Ok(answer(vec!["idna<4,>=2.5", "urllib3>=1.21.1"])));
    assert_eq!(report, Report::Found { count: 2 });

    assert!(run.is_done());
    assert_eq!(
        written(run.next_action()),
        "[ghost]\nversion = \"0.1\"\n\n[requests]\nversion = \"2.31.0\"\ndependencies = [\n    \"idna<4,==2.5\",\n    \"urllib3==1.21.1\",\n]\n\n"
    );
}

#[test]
fn run_without_tools_writes_at_once() {
    let run = Run::new(Vec::new());
    assert!(run.is_done());
    assert_eq!(written(run.next_action()), "");
}

#[test]
fn tools_are_asked_for_in_input_order() {
    let tools = vec![Tool::new("a", "1"), Tool::new("b", "2"), Tool::new("c", "3")];
    let mut run = Run::new(tools);
    let mut asked = Vec::new();
    while !run.is_done() {
        assert_eq!(run.current().name, fetch_name(run.next_action()));
        asked.push(fetch_name(run.next_action()));
        run.record(Err(FetchError::Transport));
    }
    assert_eq!(asked, vec!["a", "b", "c"]);
    assert_eq!(run.found().len(), 0);
    assert_eq!(
        written(run.next_action()),
        "[a]\nversion = \"1\"\n\n[b]\nversion = \"2\"\n\n[c]\nversion = \"3\"\n\n"
    );
}

#[test]
fn every_kind_of_failure_is_passed_over() {
    let tools = vec![Tool::new("a", "1"), Tool::new("b", "2"), Tool::new("c", "3")];
    let mut run = Run::new(tools);
    assert_eq!(run.record(Err(FetchError::Transport)), Report::Failed { error: FetchError::Transport });
    assert_eq!(run.record(Err(FetchError::Decode)), Report::Failed { error: FetchError::Decode });
    assert_eq!(run.record(Ok(answer(vec![]))), Report::Found { count: 0 });
    assert!(run.is_done());
    assert_eq!(run.found().len(), 1);
    assert_eq!(run.found().entries[0].tool, "c");
}

#[test]
fn record_without_requirement_list_counts_nothing() {
    let mut run = Run::new(vec![Tool::new("a", "1")]);
    let bare = Response {
        info: PkgMetadata { version: String::from("1"), requires_dist: None },
        releases: HashMap::new(),
    };
    assert_eq!(run.record(Ok(bare)), Report::Found { count: 0 });
    assert_eq!(written(run.next_action()), "[a]\nversion = \"1\"\n\n");
}

#[test]
fn manifest_of_a_run_reads_back() {
    let tools = vec![Tool::new("a", "1"), Tool::new("b", "2"), Tool::new("c", "3")];
    let mut run = Run::new(tools);
    run.record(Ok(answer(vec!["x>=1", "y", "z==3; extra == 'q'"])));
    run.record(Err(FetchError::Decode));
    run.record(Ok(answer(vec!["x>=1", "w~='2.0'"])));
    let text = written(run.next_action());
    assert_eq!(
        read_manifest(&text),
        vec![
            Dep::new_dep("x", "1"),
            Dep::new_dep("y", "latest"),
            Dep::new_dep("x", "1"),
            Dep::new_dep("w", "2.0"),
        ]
    );
}
