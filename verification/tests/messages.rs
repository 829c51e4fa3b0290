use turtle_control::astar::Pos;
use turtle_control::chunks::BlockData;
use turtle_control::coordinates::Coordinate;
use turtle_control::server::{
    FileVerification, Heading, TurtleInstruction, TurtleReadable, classify_instruction, get_path, parse_heading,
    file_data_message, lies_within_folder, run_length_encode_string, verify_file_request, ws_receive_blocks, ws_verify_file,
};

#[test]
fn run_length_encoding_example() {
    assert_eq!(run_length_encode_string(&"dlllrrrruudr".to_string()), "dl3r4u2dr");
}

#[test]
fn run_length_encoding_edges() {
    assert_eq!(run_length_encode_string(&"d".to_string()), "d");
    assert_eq!(run_length_encode_string(&"u".to_string()), "u");
    assert_eq!(run_length_encode_string(&"ab".to_string()), "ab");
    assert_eq!(run_length_encode_string(&"aaaa".to_string()), "a4");
    assert_eq!(run_length_encode_string(&"aaaaaaaaaaaab".to_string()), "a12b");
    assert_eq!(run_length_encode_string(&"ffffffffffff".to_string()), "f12");
    assert_eq!(run_length_encode_string(&"\u{e9}\u{e9}a".to_string()), "\u{e9}2a");
    assert_eq!(run_length_encode_string(&"a\u{e9}".to_string()), "a\u{e9}");
}

#[test]
fn headings() {
    assert_eq!(parse_heading("n"), Heading::North);
    assert_eq!(parse_heading("e"), Heading::East);
    assert_eq!(parse_heading("s"), Heading::South);
    assert_eq!(parse_heading("w"), Heading::West);
    assert_eq!(parse_heading("north"), Heading::Unknown);
    assert_eq!(parse_heading(""), Heading::Unknown);
}

#[test]
fn path_to_instructions() {
    let path = vec![Pos(0, 0, 0), Pos(1, 0, 0), Pos(2, 0, 0), Pos(2, 1, 0)];
    assert_eq!(get_path(Some((path.clone(), 3)), &"e".to_string()), Some("f2u".to_string()));
    assert_eq!(get_path(Some((path.clone(), 3)), &"n".to_string()), Some("rf2u".to_string()));
    assert_eq!(get_path(Some((path.clone(), 3)), &"w".to_string()), Some("l2f2u".to_string()));
    assert_eq!(get_path(Some((path, 3)), &"x".to_string()), Some("ER2ER2u".to_string()));
}

#[test]
fn path_turns_in_every_direction() {
    let path = vec![Pos(0, 0, 0), Pos(0, 0, -1), Pos(-1, 0, -1), Pos(-1, 0, 0), Pos(0, 0, 0), Pos(0, -1, 0)];
    assert_eq!(get_path(Some((path, 5)), &"n".to_string()), Some("flflflfd".to_string()));
    let back = vec![Pos(0, 0, 0), Pos(0, 0, 1), Pos(0, 0, 0)];
    assert_eq!(get_path(Some((back, 2)), &"n".to_string()), Some("l2fl2f".to_string()));
}

#[test]
fn path_with_a_jump_is_an_error() {
    let path = vec![Pos(0, 0, 0), Pos(2, 0, 0), Pos(3, 0, 0)];
    assert_eq!(get_path(Some((path, 2)), &"e".to_string()), Some("ER2ER2".to_string()));
}

#[test]
fn single_move_path_gives_its_letter() {
    let path = vec![Pos(0, 0, 0), Pos(0, 1, 0)];
    assert_eq!(get_path(Some((path, 1)), &"e".to_string()), Some("u".to_string()));
    let forward = vec![Pos(0, 0, 0), Pos(1, 0, 0)];
    assert_eq!(get_path(Some((forward, 1)), &"e".to_string()), Some("f".to_string()));
}

#[test]
fn path_already_at_goal_gives_empty_text() {
    assert_eq!(get_path(Some((vec![Pos(4, 5, 6)], 0)), &"n".to_string()), Some(String::new()));
}

#[test]
fn no_path_gives_nothing() {
    assert_eq!(get_path(None, &"e".to_string()), None);
}

#[test]
fn instructions_by_name() {
    assert_eq!(classify_instruction("register"), TurtleInstruction::Register);
    assert_eq!(classify_instruction("sendBlocks"), TurtleInstruction::SendBlocks);
    assert_eq!(classify_instruction("verifyFile"), TurtleInstruction::VerifyFile);
    assert_eq!(classify_instruction("ping"), TurtleInstruction::Ping);
    assert_eq!(classify_instruction("Ping"), TurtleInstruction::Unknown);
    assert_eq!(classify_instruction(""), TurtleInstruction::Unknown);
}

#[test]
fn turtle_message() {
    let m = TurtleReadable::new("status", "successful");
    assert_eq!(m.instruction, "status");
    assert_eq!(m.data, "successful");
}

#[test]
fn file_verification_answers() {
    match ws_verify_file("startup.lua", None, &"abc".to_string()) {
        FileVerification::Reply(m) => {
            assert_eq!(m.instruction, "fileNotFound");
            assert_eq!(m.data, "startup.lua");
        }
        FileVerification::SendFile => panic!("expected a reply"),
    }
    match ws_verify_file("startup.lua", Some("abc".to_string()), &"abc".to_string()) {
        FileVerification::Reply(m) => {
            assert_eq!(m.instruction, "fileIdentical");
            assert_eq!(m.data, "startup.lua");
        }
        FileVerification::SendFile => panic!("expected a reply"),
    }
    assert!(matches!(
        ws_verify_file("startup.lua", Some("abd".to_string()), &"abc".to_string()),
        FileVerification::SendFile
    ));
}

#[test]
fn reported_blocks_go_to_their_chunks() {
    let blocks = vec![
        (BlockData::from_parts("minecraft:stone".to_string(), Vec::new()).unwrap(), Coordinate::new(-1, 17, 33)),
        (BlockData::from_parts("minecraft:dirt".to_string(), Vec::new()).unwrap(), Coordinate::new(0, 0, 0)),
    ];
    let p = ws_receive_blocks(&blocks);
    assert_eq!(p.len(), 2);
    assert_eq!(p[0].chunk, Coordinate::new(-1, 1, 2));
    assert_eq!(p[0].local, Coordinate::new(15, 1, 1));
    assert_eq!(p[0].block.name(), "minecraft:stone");
    assert_eq!(p[1].chunk, Coordinate::new(0, 0, 0));
    assert_eq!(p[1].local, Coordinate::new(0, 0, 0));
    assert_eq!(p[1].block.name(), "minecraft:dirt");
}

#[test]
fn verify_file_requests() {
    assert_eq!(
        verify_file_request("[\"startup.lua\", \"abc123\"]"),
        Some(("startup.lua".to_string(), "abc123".to_string()))
    );
    assert_eq!(verify_file_request("[\"a\\\"b\", \"\"]"), Some(("a\"b".to_string(), String::new())));
    assert_eq!(verify_file_request("[\"only one\"]"), None);
    assert_eq!(verify_file_request("{\"a\": 1}"), None);
    assert_eq!(verify_file_request("not json"), None);
}

#[test]
fn file_data_messages() {
    let m = file_data_message("startup.lua", "print(\"hi\")");
    assert_eq!(m.instruction, "fileData");
    assert_eq!(m.data, "{\"content\":\"print(\\\"hi\\\")\",\"file_name\":\"startup.lua\"}");
}

#[test]
fn script_paths_inside_the_folder() {
    assert!(lies_within_folder(b"/srv/lua/startup.lua", b"/srv/lua"));
    assert!(lies_within_folder(b"/srv/lua", b"/srv/lua"));
    assert!(lies_within_folder(b"/srv/lua/a/b.lua", b"/srv/lua"));
    assert!(lies_within_folder(b"/etc/passwd", b"/"));
    assert!(!lies_within_folder(b"/srv/luac/x.lua", b"/srv/lua"));
    assert!(!lies_within_folder(b"/etc/passwd", b"/srv/lua"));
    assert!(!lies_within_folder(b"/srv", b"/srv/lua"));
}

#[test]
fn long_runs_are_counted_in_full() {
    let input = "b".repeat(123) + "c";
    assert_eq!(run_length_encode_string(&input), "b123c");
}
