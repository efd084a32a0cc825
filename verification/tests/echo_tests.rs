use mozaic::echo::{decimal_string, format_echo_line, is_stop, Echo};
use mozaic::game_host::Controller;
use mozaic::types::{Data, HostMsg, PlayerMsg};

#[test]
fn decimal_notation_is_exact() {
    assert_eq!(decimal_string(0), "0");
    assert_eq!(decimal_string(7), "7");
    assert_eq!(decimal_string(10), "10");
    assert_eq!(decimal_string(12345), "12345");
    assert_eq!(decimal_string(u64::MAX), "18446744073709551615");
}

#[test]
fn echo_lines_are_formatted_exactly() {
    assert_eq!(format_echo_line(10, &String::from("hi")), "10: hi\n");
    assert_eq!(format_echo_line(0, &String::from("")), "0: \n");
}

#[test]
fn stop_is_recognised_in_any_letter_case() {
    assert!(is_stop(&String::from("stop")));
    assert!(is_stop(&String::from("STOP")));
    assert!(is_stop(&String::from("StOp")));
    assert!(!is_stop(&String::from("stol")));
    assert!(!is_stop(&String::from("stopp")));
    assert!(!is_stop(&String::from("")));
}

fn answer(id: u64, text: &str) -> PlayerMsg {
    PlayerMsg { id, data: Some(Data { value: String::from(text) }) }
}

#[test]
fn echo_sends_each_line_to_every_remaining_player() {
    let mut game = Echo::new(vec![10, 11]);
    let out = game.on_step(vec![answer(10, "hi")]);
    assert_eq!(out, vec![
        HostMsg::Data(Data { value: String::from("10: hi\n") }, Some(10)),
        HostMsg::Data(Data { value: String::from("10: hi\n") }, Some(11)),
    ]);
    assert!(game.is_done().is_none());
}

#[test]
fn echo_marks_a_silent_player_as_timed_out() {
    let mut game = Echo::new(vec![10]);
    let out = game.on_step(vec![PlayerMsg { id: 11, data: None }]);
    assert_eq!(out, vec![
        HostMsg::Data(Data { value: String::from("11: TIMEOUT\n") }, Some(10)),
    ]);
}

#[test]
fn echo_kicks_whoever_says_stop_and_then_ends() {
    let mut game = Echo::new(vec![10]);
    let out = game.on_step(vec![answer(10, "Stop")]);
    assert_eq!(out, vec![HostMsg::Kick(10)]);
    assert_eq!(game.is_done(), Some(String::from("{\"testing\":123}")));
}

#[test]
fn echo_state_is_the_fixed_roster_note() {
    let mut game = Echo::new(vec![10]);
    assert_eq!(game.get_state(), "{\"Some\":\"players\"}");
}
