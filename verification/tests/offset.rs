use template_cache::offset::locate;
use template_cache::{Offset, PositionError, SENTINEL};

#[test]
fn sentinel_is_zero() {
    assert_eq!(SENTINEL, 0);
}

#[test]
fn offsets_inside_the_buffer_resolve_to_themselves() {
    assert_eq!(locate(100, 0), Ok(0));
    assert_eq!(locate(100, 10), Ok(10));
    assert_eq!(locate(100, 99), Ok(99));
    assert_eq!(locate(1, 0), Ok(0));
}

#[test]
fn offsets_outside_the_buffer_do_not_resolve() {
    assert_eq!(locate(100, 100), Err(PositionError { offset: 100, len: 100 }));
    assert_eq!(locate(100, 9999), Err(PositionError { offset: 9999, len: 100 }));
    assert_eq!(locate(0, 0), Err(PositionError { offset: 0, len: 0 }));
    assert_eq!(
        locate(65536, Offset::MAX),
        Err(PositionError { offset: Offset::MAX, len: 65536 })
    );
}
