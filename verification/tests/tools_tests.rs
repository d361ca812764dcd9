use pypi_deps::tools::{Tool, ToolsList};

#[test]
fn new_tool_copies_both_fields() {
    let tool = Tool::new("black", "24.1.0");
    assert_eq!(tool.name, "black");
    assert_eq!(tool.version, "24.1.0");
}

#[test]
fn list_keeps_the_order_of_its_tools() {
    let list = ToolsList { tools: vec![Tool::new("b", "2"), Tool::new("a", "1")] };
    let names: Vec<&str> = list.tools.iter().map(|tool| tool.name.as_str()).collect();
    assert_eq!(names, vec!["b", "a"]);
}
