use streaming_echo::request::{echo_request, request_label};

#[test]
fn first_label_is_msg_01() {
    assert_eq!(request_label(0), "msg 01");
    assert_eq!(request_label(1), "msg 02");
}

#[test]
fn labels_pad_to_two_digits() {
    assert_eq!(request_label(8), "msg 09");
    assert_eq!(request_label(9), "msg 10");
    assert_eq!(request_label(98), "msg 99");
}

#[test]
fn labels_grow_past_two_digits() {
    assert_eq!(request_label(99), "msg 100");
    assert_eq!(request_label(1233), "msg 1234");
}

#[test]
fn label_of_largest_index() {
    let expected = format!("msg {}", (usize::MAX as u128) + 1);
    assert_eq!(request_label(usize::MAX), expected);
}

#[test]
fn request_carries_its_label() {
    assert_eq!(echo_request(2).message, "msg 03");
}
