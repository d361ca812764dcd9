use pypi_deps::requirement::{keep_dependencies, should_include, Dep};

fn dep(name: &str, version: &str) -> Option<Dep> {
    Some(Dep::new_dep(name, version))
}

#[test]
fn new_dep_copies_both_fields() {
    let d = Dep::new_dep("requests", "2.0");
    assert_eq!(d.name, "requests");
    assert_eq!(d.version, "2.0");
}

#[test]
fn minimum_version_is_split_at_the_operator() {
    assert_eq!(Dep::does_need_dist("requests>=2.0"), dep("requests", "2.0"));
}

#[test]
fn bare_name_gets_latest() {
    assert_eq!(Dep::does_need_dist("click"), dep("click", "latest"));
}

#[test]
fn what_follows_the_first_space_is_ignored() {
    assert_eq!(Dep::does_need_dist("numpy (>=1.20,<2.0)"), dep("numpy", "latest"));
    assert_eq!(Dep::does_need_dist("numpy>=1.20 extra"), dep("numpy", "1.20"));
}

#[test]
fn quotes_round_the_version_are_stripped() {
    assert_eq!(Dep::does_need_dist("a=='1.0'"), dep("a", "1.0"));
    assert_eq!(Dep::does_need_dist("a==\"1.0\""), dep("a", "1.0"));
    assert_eq!(Dep::does_need_dist("a==\"'1.0'\""), dep("a", "1.0"));
}

#[test]
fn two_character_operator_wins_over_its_last_character() {
    assert_eq!(Dep::does_need_dist("x>=1"), dep("x", "1"));
    assert_eq!(Dep::does_need_dist("x<=1"), dep("x", "1"));
}

#[test]
fn every_operator_splits() {
    assert_eq!(Dep::does_need_dist("a==1"), dep("a", "1"));
    assert_eq!(Dep::does_need_dist("a>=1"), dep("a", "1"));
    assert_eq!(Dep::does_need_dist("a<=1"), dep("a", "1"));
    assert_eq!(Dep::does_need_dist("a~=1"), dep("a", "1"));
    assert_eq!(Dep::does_need_dist("a!=1"), dep("a", "1"));
    assert_eq!(Dep::does_need_dist("a>1"), dep("a", "1"));
    assert_eq!(Dep::does_need_dist("a<1"), dep("a", "1"));
}

#[test]
fn operator_of_least_rank_wins_wherever_it_stands() {
    assert_eq!(Dep::does_need_dist("a>=1,==2"), dep("a>=1,", "2"));
    assert_eq!(Dep::does_need_dist("a<2,>=1"), dep("a<2,", "1"));
    assert_eq!(Dep::does_need_dist("a<2,>1"), dep("a<2,", "1"));
}

#[test]
fn first_occurrence_of_the_operator_splits() {
    assert_eq!(Dep::does_need_dist("a==1==2"), dep("a", "1==2"));
    assert_eq!(Dep::does_need_dist("a===1"), dep("a", "=1"));
}

#[test]
fn marker_after_semicolon_is_cut_off() {
    assert_eq!(
        Dep::does_need_dist("requests>=2.0; python_version < '3.8'"),
        dep("requests", "2.0")
    );
    assert_eq!(Dep::does_need_dist("requests>=2.0;extra == 'http'"), dep("requests", "2.0"));
    assert_eq!(Dep::does_need_dist("requests (>=2.0,<3); extra == 'http'"), dep("requests", "latest"));
}

#[test]
fn semicolon_is_cut_before_the_space() {
    assert_eq!(Dep::does_need_dist("a;b c"), dep("a", "latest"));
    assert_eq!(Dep::does_need_dist("a b;c"), dep("a", "latest"));
}

#[test]
fn empty_token_gives_nothing() {
    assert_eq!(Dep::does_need_dist(""), None);
    assert_eq!(Dep::does_need_dist("; extra == 'x'"), None);
    assert_eq!(Dep::does_need_dist(" leading"), None);
    assert_eq!(Dep::does_need_dist(" ; python_version"), None);
}

#[test]
fn quote_inside_the_version_stays() {
    assert_eq!(Dep::does_need_dist("a=='1\"2'"), dep("a", "1\"2"));
}

#[test]
fn quote_in_the_name_stays() {
    assert_eq!(Dep::does_need_dist("'a'=='2.0'"), dep("'a'", "2.0"));
}

#[test]
fn version_of_quotes_only_is_empty() {
    assert_eq!(Dep::does_need_dist("a==''"), dep("a", ""));
    assert_eq!(Dep::does_need_dist("a=='"), dep("a", ""));
    assert_eq!(Dep::does_need_dist("a=="), dep("a", ""));
}

#[test]
fn token_that_begins_with_its_operator_has_an_empty_name() {
    assert_eq!(Dep::does_need_dist("==1.0"), dep("", "1.0"));
}

#[test]
fn positions_count_characters() {
    assert_eq!(Dep::does_need_dist("pä€>=1.0é"), dep("pä€", "1.0é"));
    assert_eq!(Dep::does_need_dist("日本語 >=1"), dep("日本語", "latest"));
}

#[test]
fn structural_equality_of_dependencies() {
    assert_eq!(Dep::new_dep("a", "1"), Dep::new_dep("a", "1"));
    assert_ne!(Dep::new_dep("a", "1"), Dep::new_dep("a", "2"));
    assert_ne!(Dep::new_dep("a", "1"), Dep::new_dep("b", "1"));
}

#[test]
fn pinned_text_joins_name_and_version() {
    assert_eq!(Dep::new_dep("pkg", "1.0.0").to_txt_str(), "pkg==1.0.0");
    assert_eq!(Dep::new_dep("otherpkg", "latest").to_txt_str(), "otherpkg==latest");
    assert_eq!(Dep::new_dep("", "").to_txt_str(), "==");
}

#[test]
fn markers_suppress_inclusion() {
    assert!(!should_include("requests>=2.0; extra == 'http'"));
    assert!(!should_include("requests>=2.0; python_version < '3.8'"));
    assert!(!should_include("extra == "));
    assert!(!should_include("python_version"));
    assert!(!should_include("a; python_version >= '3' and extra == 'x'"));
}

#[test]
fn marker_anywhere_in_the_string_suppresses_inclusion() {
    assert!(!should_include("python_version_tools>=1.0"));
    assert!(!should_include("a=='extra == '"));
}

#[test]
fn requirement_without_marker_is_included() {
    assert!(should_include("requests>=2.0"));
    assert!(should_include(""));
    assert!(should_include("a; extra=='x'"));
    assert!(should_include("a; extra =="));
    assert!(should_include("a; python_versio"));
    assert!(should_include("a; sys_platform == 'win32'"));
}

#[test]
fn kept_dependencies_follow_the_list() {
    let raws = vec![
        String::from("urllib3>=1.21.1"),
        String::from("PySocks!=1.5.7; extra == 'socks'"),
        String::from(""),
        String::from("idna"),
        String::from("idna"),
        String::from("typing; python_version < '3.5'"),
        String::from("certifi>=2017.4.17"),
    ];
    let deps = keep_dependencies(&raws);
    assert_eq!(
        deps,
        vec![
            Dep::new_dep("urllib3", "1.21.1"),
            Dep::new_dep("idna", "latest"),
            Dep::new_dep("idna", "latest"),
            Dep::new_dep("certifi", "2017.4.17"),
        ]
    );
}

#[test]
fn no_requirement_gives_no_dependency() {
    assert_eq!(keep_dependencies(&Vec::new()), Vec::<Dep>::new());
}
