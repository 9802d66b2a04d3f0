use streaming_echo::cause::{is_broken_pipe, match_for_io_error, CauseLayer, IoKind};

#[test]
fn empty_chain_has_no_io_error() {
    assert_eq!(match_for_io_error(&vec![]), None);
    assert!(!is_broken_pipe(&vec![]));
}

#[test]
fn chain_without_io_error() {
    let chain = vec![CauseLayer::Opaque, CauseLayer::H2(None), CauseLayer::Opaque];
    assert_eq!(match_for_io_error(&chain), None);
    assert!(!is_broken_pipe(&chain));
}

#[test]
fn io_error_found_deep_in_chain() {
    let chain = vec![CauseLayer::Opaque, CauseLayer::H2(None), CauseLayer::Io(IoKind::BrokenPipe)];
    assert_eq!(match_for_io_error(&chain), Some(IoKind::BrokenPipe));
    assert!(is_broken_pipe(&chain));
}

#[test]
fn io_error_inside_h2_error() {
    let chain = vec![CauseLayer::Opaque, CauseLayer::H2(Some(IoKind::BrokenPipe))];
    assert_eq!(match_for_io_error(&chain), Some(IoKind::BrokenPipe));
    assert!(is_broken_pipe(&chain));
}

#[test]
fn first_io_error_wins() {
    let chain = vec![CauseLayer::H2(Some(IoKind::Other)), CauseLayer::Io(IoKind::BrokenPipe)];
    assert_eq!(match_for_io_error(&chain), Some(IoKind::Other));
    assert!(!is_broken_pipe(&chain));
}
