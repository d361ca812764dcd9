use pypi_deps::locate::{input_file_name, next_move, Move};

fn search(present: &[bool]) -> Option<usize> {
    let mut at = 0;
    loop {
        match next_move(present[at], at + 1 < present.len()) {
            Move::Found => return Some(at),
            Move::Climb => at += 1,
            Move::GiveUp => return None,
        }
    }
}

#[test]
fn input_file_is_named_by_convention() {
    assert_eq!(input_file_name(), "pkgs.json");
}

#[test]
fn file_at_hand_ends_the_search() {
    assert_eq!(next_move(true, true), Move::Found);
    assert_eq!(next_move(true, false), Move::Found);
}

#[test]
fn missing_file_sends_the_search_up() {
    assert_eq!(next_move(false, true), Move::Climb);
}

#[test]
fn missing_file_at_the_root_ends_the_search() {
    assert_eq!(next_move(false, false), Move::GiveUp);
}

#[test]
fn search_finds_the_nearest_directory() {
    assert_eq!(search(&[true]), Some(0));
    assert_eq!(search(&[false, false, true, false, true]), Some(2));
    assert_eq!(search(&[false, false, false, true]), Some(3));
}

#[test]
fn search_fails_when_no_directory_has_the_file() {
    assert_eq!(search(&[false]), None);
    assert_eq!(search(&[false, false, false]), None);
}
