use pypi_deps::text::{find_char, find_pattern, matches_at, slice, to_chars};

#[test]
fn characters_of_a_string() {
    assert_eq!(to_chars("aé€"), vec!['a', 'é', '€']);
    assert_eq!(to_chars(""), Vec::<char>::new());
}

#[test]
fn slice_copies_the_range() {
    let v = to_chars("abcdef");
    assert_eq!(slice(&v, 1, 4), vec!['b', 'c', 'd']);
    assert_eq!(slice(&v, 2, 2), Vec::<char>::new());
    assert_eq!(slice(&v, 0, 6), v);
}

#[test]
fn find_char_gives_the_first_position() {
    let v = to_chars("a;b;c");
    assert_eq!(find_char(&v, 0, ';'), 1);
    assert_eq!(find_char(&v, 1, ';'), 1);
    assert_eq!(find_char(&v, 2, ';'), 3);
    assert_eq!(find_char(&v, 4, ';'), 5);
    assert_eq!(find_char(&v, 5, ';'), 5);
    assert_eq!(find_char(&v, 0, 'x'), 5);
}

#[test]
fn matches_at_checks_one_position() {
    let v = to_chars("x>=1");
    let op = to_chars(">=");
    assert!(matches_at(&v, &op, 1));
    assert!(!matches_at(&v, &op, 0));
    assert!(!matches_at(&v, &op, 2));
    assert!(!matches_at(&v, &op, 3));
    assert!(!matches_at(&v, &op, 4));
    assert!(!matches_at(&v, &op, 100));
    assert!(matches_at(&v, &Vec::new(), 4));
    assert!(!matches_at(&v, &Vec::new(), 5));
}

#[test]
fn find_pattern_gives_the_first_occurrence() {
    let v = to_chars("abcabc");
    assert_eq!(find_pattern(&v, &to_chars("bc")), Some(1));
    assert_eq!(find_pattern(&v, &to_chars("abc")), Some(0));
    assert_eq!(find_pattern(&v, &to_chars("c")), Some(2));
    assert_eq!(find_pattern(&v, &to_chars("cab")), Some(2));
    assert_eq!(find_pattern(&v, &to_chars("abcabc")), Some(0));
    assert_eq!(find_pattern(&v, &to_chars("ca ")), None);
    assert_eq!(find_pattern(&v, &to_chars("abcabca")), None);
    assert_eq!(find_pattern(&v, &Vec::new()), Some(0));
    assert_eq!(find_pattern(&Vec::new(), &Vec::new()), Some(0));
    assert_eq!(find_pattern(&Vec::new(), &to_chars("a")), None);
}

#[test]
fn find_pattern_at_the_very_end() {
    assert_eq!(find_pattern(&to_chars("ab=="), &to_chars("==")), Some(2));
}
