use tcp_chat::terminal::message_body;

#[test]
fn relayed_line_shows_the_text_after_the_port() {
    assert_eq!(message_body("127.0.0.1:8080: hi there"), " hi there");
}

#[test]
fn further_colons_become_apostrophes() {
    assert_eq!(message_body("a:b:c:d"), "c'd");
    assert_eq!(message_body("1.1.1.1:1: time is 10:30"), " time is 10'30");
}

#[test]
fn fewer_than_three_pieces_show_nothing() {
    assert_eq!(message_body("a:b"), "");
    assert_eq!(message_body(":"), "");
    assert_eq!(message_body("a::"), "");
}

#[test]
fn shown_text_never_holds_a_colon() {
    for line in ["x:y:z:w", "::::", "h:p:é:ü"] {
        assert!(!message_body(line).contains(':'));
    }
    assert_eq!(message_body("h:p:é:ü"), "é'ü");
}
