use pypi_deps::manifest::{read_manifest, render};
use pypi_deps::requirement::Dep;
use pypi_deps::resolved::ResolvedSet;
use pypi_deps::tools::Tool;

fn two_tools() -> Vec<Tool> {
    vec![Tool::new("toolname", "1.2.3"), Tool::new("second", "0.1")]
}

#[test]
fn section_with_dependencies() {
    let tools = vec![Tool::new("toolname", "1.2.3")];
    let mut resolved = ResolvedSet::new();
    resolved.record(
        String::from("toolname"),
        vec![Dep::new_dep("pkg", "1.0.0"), Dep::new_dep("otherpkg", "latest")],
    );
    assert_eq!(
        render(&tools, &resolved),
        "[toolname]\nversion = \"1.2.3\"\ndependencies = [\n    \"pkg==1.0.0\",\n    \"otherpkg==latest\",\n]\n\n"
    );
}

#[test]
fn tool_without_entry_has_no_block() {
    let tools = vec![Tool::new("toolname", "1.2.3")];
    assert_eq!(render(&tools, &ResolvedSet::new()), "[toolname]\nversion = \"1.2.3\"\n\n");
}

#[test]
fn tool_with_empty_list_has_no_block() {
    let tools = vec![Tool::new("toolname", "1.2.3")];
    let mut resolved = ResolvedSet::new();
    resolved.record(String::from("toolname"), Vec::new());
    assert_eq!(render(&tools, &resolved), "[toolname]\nversion = \"1.2.3\"\n\n");
}

#[test]
fn no_tool_gives_an_empty_manifest() {
    let mut resolved = ResolvedSet::new();
    resolved.record(String::from("unlisted"), vec![Dep::new_dep("a", "1")]);
    assert_eq!(render(&Vec::new(), &resolved), "");
}

#[test]
fn sections_follow_input_order() {
    let mut resolved = ResolvedSet::new();
    resolved.record(String::from("second"), vec![Dep::new_dep("b", "2")]);
    resolved.record(String::from("toolname"), vec![Dep::new_dep("a", "1")]);
    assert_eq!(
        render(&two_tools(), &resolved),
        "[toolname]\nversion = \"1.2.3\"\ndependencies = [\n    \"a==1\",\n]\n\n[second]\nversion = \"0.1\"\ndependencies = [\n    \"b==2\",\n]\n\n"
    );
}

#[test]
fn first_entry_of_a_tool_is_the_one_listed() {
    let tools = vec![Tool::new("t", "1")];
    let mut resolved = ResolvedSet::new();
    resolved.record(String::from("t"), vec![Dep::new_dep("first", "1")]);
    resolved.record(String::from("t"), vec![Dep::new_dep("second", "2")]);
    assert_eq!(
        render(&tools, &resolved),
        "[t]\nversion = \"1\"\ndependencies = [\n    \"first==1\",\n]\n\n"
    );
}

#[test]
fn duplicates_are_listed_as_often_as_they_occur() {
    let tools = vec![Tool::new("t", "1")];
    let mut resolved = ResolvedSet::new();
    resolved.record(String::from("t"), vec![Dep::new_dep("a", "1"), Dep::new_dep("a", "1")]);
    assert_eq!(
        render(&tools, &resolved),
        "[t]\nversion = \"1\"\ndependencies = [\n    \"a==1\",\n    \"a==1\",\n]\n\n"
    );
}

#[test]
fn reading_a_rendered_manifest_gives_the_dependencies_back() {
    let first = vec![
        Dep::new_dep("pkg", "1.0.0"),
        Dep::new_dep("otherpkg", "latest"),
        Dep::new_dep("pkg", "1.0.0"),
    ];
    let second = vec![Dep::new_dep("b", "2==3"), Dep::new_dep("c", "")];
    let mut resolved = ResolvedSet::new();
    resolved.record(String::from("toolname"), first.clone());
    resolved.record(String::from("second"), second.clone());
    let text = render(&two_tools(), &resolved);
    let mut expected = first;
    expected.extend(second);
    assert_eq!(read_manifest(&text), expected);
}

#[test]
fn reading_passes_over_other_lines() {
    let text = "[t]\nversion = \"1\"\ndependencies = [\n    \"a==1\",\n   \"b==2\",\n    \"c\",\n    \"d==4\"\n    \"e==5\",\n]\n\n";
    assert_eq!(read_manifest(text), vec![Dep::new_dep("a", "1"), Dep::new_dep("e", "5")]);
}

#[test]
fn reading_a_text_without_final_line_feed() {
    assert_eq!(read_manifest("    \"a==1\","), vec![Dep::new_dep("a", "1")]);
    assert_eq!(read_manifest(""), Vec::<Dep>::new());
    assert_eq!(read_manifest("\n\n"), Vec::<Dep>::new());
}

#[test]
fn reading_splits_at_the_first_mark() {
    assert_eq!(read_manifest("    \"a==1==2\",\n"), vec![Dep::new_dep("a", "1==2")]);
    assert_eq!(read_manifest("    \"==\",\n"), vec![Dep::new_dep("", "")]);
    assert_eq!(read_manifest("    \"é==ü\",\n"), vec![Dep::new_dep("é", "ü")]);
}

#[test]
fn a_name_that_ends_in_the_mark_does_not_read_back() {
    let tools = vec![Tool::new("t", "1")];
    let mut resolved = ResolvedSet::new();
    resolved.record(String::from("t"), vec![Dep::new_dep("a=", "1")]);
    let text = render(&tools, &resolved);
    assert_eq!(read_manifest(&text), vec![Dep::new_dep("a", "=1")]);
}
