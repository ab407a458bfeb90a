use alpha_g_elogger::chronobox::{board_name, find_chronobox_channel, ResolveError};
use alpha_g_elogger::odb::Json;

fn odb_with(cb01: &str, cb02: &str, cb03: &str, cb04: &str) -> Json {
    let board = |names: &str| format!("{{\"Settings\": {{\"names\": {}}}}}", names);
    Json::parse(&format!(
        "{{\"Equipment\": {{\"cb01\": {}, \"cb02\": {}, \"cb03\": {}, \"cb04\": {}}}}}",
        board(cb01),
        board(cb02),
        board(cb03),
        board(cb04)
    ))
    .unwrap()
}

#[test]
fn boards_are_searched_in_their_order() {
    assert_eq!(board_name(0), "cb01");
    assert_eq!(board_name(1), "cb02");
    assert_eq!(board_name(2), "cb03");
    assert_eq!(board_name(3), "cb04");
}

#[test]
fn a_name_on_one_board_resolves_to_its_board_and_position() {
    let odb = odb_with("[\"a\", \"b\"]", "[\"c\", \"d\", \"e\"]", "[]", "[\"f\"]");
    let channel = find_chronobox_channel("e", &odb).unwrap();
    assert_eq!(channel.board_name, "cb02");
    assert_eq!(channel.channel_number, 2);
    let channel = find_chronobox_channel("a", &odb).unwrap();
    assert_eq!(channel.board_name, "cb01");
    assert_eq!(channel.channel_number, 0);
    let channel = find_chronobox_channel("f", &odb).unwrap();
    assert_eq!(channel.board_name, "cb04");
    assert_eq!(channel.channel_number, 0);
}

#[test]
fn a_name_on_no_board_is_absent() {
    let odb = odb_with("[\"a\", \"b\"]", "[\"c\"]", "[]", "[\"f\"]");
    match find_chronobox_channel("z", &odb) {
        Err(ResolveError::Absent { channel }) => assert_eq!(channel, "z"),
        other => panic!("unexpected outcome: {:?}", other),
    }
}

#[test]
fn a_name_on_two_boards_is_ambiguous() {
    let odb = odb_with("[\"a\", \"b\"]", "[\"c\"]", "[\"b\"]", "[\"f\"]");
    match find_chronobox_channel("b", &odb) {
        Err(ResolveError::Ambiguous { channel }) => assert_eq!(channel, "b"),
        other => panic!("unexpected outcome: {:?}", other),
    }
}

#[test]
fn a_name_twice_on_one_board_is_ambiguous() {
    let odb = odb_with("[\"a\", \"b\", \"a\"]", "[]", "[]", "[]");
    assert!(matches!(
        find_chronobox_channel("a", &odb),
        Err(ResolveError::Ambiguous { .. })
    ));
}

#[test]
fn a_name_three_times_is_ambiguous() {
    let odb = odb_with("[\"a\"]", "[\"a\"]", "[]", "[\"a\"]");
    assert!(matches!(
        find_chronobox_channel("a", &odb),
        Err(ResolveError::Ambiguous { .. })
    ));
}

#[test]
fn a_board_without_names_ends_the_search() {
    let odb = Json::parse(
        "{\"Equipment\": {\"cb01\": {\"Settings\": {\"names\": [\"a\"]}}, \
         \"cb02\": {\"Settings\": {}}, \
         \"cb03\": {\"Settings\": {\"names\": [\"a\"]}}}}",
    )
    .unwrap();
    match find_chronobox_channel("a", &odb) {
        Err(ResolveError::NamesMissing { board }) => assert_eq!(board, "cb02"),
        other => panic!("unexpected outcome: {:?}", other),
    }
}

#[test]
fn names_that_are_no_array_count_as_missing() {
    let odb = odb_with("\"a\"", "[]", "[]", "[]");
    match find_chronobox_channel("a", &odb) {
        Err(ResolveError::NamesMissing { board }) => assert_eq!(board, "cb01"),
        other => panic!("unexpected outcome: {:?}", other),
    }
    let empty = Json::parse("{}").unwrap();
    match find_chronobox_channel("a", &empty) {
        Err(ResolveError::NamesMissing { board }) => assert_eq!(board, "cb01"),
        other => panic!("unexpected outcome: {:?}", other),
    }
}

#[test]
fn a_list_with_an_item_that_is_no_string_is_malformed() {
    let odb = odb_with("[null, \"chA\"]", "[]", "[]", "[]");
    match find_chronobox_channel("chA", &odb) {
        Err(ResolveError::NamesMalformed { board }) => assert_eq!(board, "cb01"),
        other => panic!("unexpected outcome: {:?}", other),
    }
    let odb = odb_with("[\"chA\"]", "[\"chB\"]", "[\"chC\", 7]", "[]");
    for name in ["chA", "chB", "chC", "nowhere"] {
        match find_chronobox_channel(name, &odb) {
            Err(ResolveError::NamesMalformed { board }) => assert_eq!(board, "cb03"),
            other => panic!("unexpected outcome: {:?}", other),
        }
    }
}

#[test]
fn the_first_board_at_fault_is_named() {
    let odb = Json::parse(
        "{\"Equipment\": {\"cb01\": {\"Settings\": {\"names\": [\"a\"]}}, \
         \"cb02\": {\"Settings\": {\"names\": [\"a\", {}]}}, \
         \"cb03\": {\"Settings\": {}}}}",
    )
    .unwrap();
    assert!(matches!(
        find_chronobox_channel("a", &odb),
        Err(ResolveError::NamesMalformed { board }) if board == "cb02"
    ));
    let odb = Json::parse(
        "{\"Equipment\": {\"cb01\": {\"Settings\": {\"names\": [\"a\"]}}, \
         \"cb03\": {\"Settings\": {\"names\": [1]}}}}",
    )
    .unwrap();
    assert!(matches!(
        find_chronobox_channel("a", &odb),
        Err(ResolveError::NamesMissing { board }) if board == "cb02"
    ));
}

fn many_names(count: usize) -> String {
    let mut names = String::from("[");
    for i in 0..count {
        if i > 0 {
            names.push_str(", ");
        }
        names.push_str(&format!("\"ch{}\"", i));
    }
    names.push(']');
    names
}

#[test]
fn the_channel_number_is_the_position_in_the_list() {
    let odb = odb_with("[]", &many_names(256), "[]", "[]");
    for position in [0usize, 1, 100, 254, 255] {
        let channel = find_chronobox_channel(&format!("ch{}", position), &odb).unwrap();
        assert_eq!(channel.board_name, "cb02");
        assert_eq!(channel.channel_number as usize, position);
    }
}

#[test]
fn a_position_beyond_the_last_channel_number_is_no_number() {
    let odb = odb_with(&many_names(300), "[]", "[]", "[]");
    assert_eq!(find_chronobox_channel("ch255", &odb).unwrap().channel_number, 255);
    for position in [256usize, 257, 299] {
        let name = format!("ch{}", position);
        match find_chronobox_channel(&name, &odb) {
            Err(ResolveError::OutOfRange { channel }) => assert_eq!(channel, name),
            other => panic!("unexpected outcome: {:?}", other),
        }
    }
}

#[test]
fn a_name_twice_beyond_the_last_channel_number_is_ambiguous() {
    let mut names = many_names(300);
    names.pop();
    names.push_str(", \"ch299\"]");
    let odb = odb_with(&names, "[]", "[]", "[]");
    assert!(matches!(
        find_chronobox_channel("ch299", &odb),
        Err(ResolveError::Ambiguous { .. })
    ));
}

#[test]
fn resolve_errors_say_what_failed() {
    assert_eq!(
        ResolveError::NamesMissing { board: String::from("cb03") }.message(),
        "failed to find chronobox names array of `cb03` in the ODB"
    );
    assert_eq!(
        ResolveError::NamesMalformed { board: String::from("cb03") }.message(),
        "failed to read chronobox names array of `cb03` in the ODB"
    );
    assert_eq!(
        ResolveError::OutOfRange { channel: String::from("PMT") }.message(),
        "failed to number the channel with name `PMT` in the ODB"
    );
    assert_eq!(
        ResolveError::Absent { channel: String::from("PMT") }.message(),
        "failed to find a channel with name `PMT` in the ODB"
    );
    assert_eq!(
        ResolveError::Ambiguous { channel: String::from("PMT") }.message(),
        "failed to find a unique channel with name `PMT` in the ODB"
    );
}
