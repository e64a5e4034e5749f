use template_cache::{PopulateError, PositionError, TemplateCache};

/// Decodes the position itself; fails on positions that are multiples of 7.
fn position_unless_seventh(_: &[u8], position: usize) -> Result<usize, String> {
    if position % 7 == 0 {
        Err(format!("nothing at {}", position))
    } else {
        Ok(position)
    }
}

#[test]
fn build_yields_the_populated_cache() {
    let data = [0u8; 100];
    let cache = TemplateCache::build(&data, &[0, 10, 10, 50], position_unless_seventh)
        .expect("both templates are well formed");
    assert_eq!(cache.len(), 2);
    assert_eq!(cache.get(10), Some(&10));
    assert_eq!(cache.get(50), Some(&50));
    assert_eq!(cache.get(0), None);
    assert_eq!(cache.get(99), None);
}

#[test]
fn build_of_no_candidates_is_empty() {
    let data = [0u8; 100];
    let cache = TemplateCache::build(&data, &[0, 0], position_unless_seventh)
        .expect("nothing is read");
    assert_eq!(cache.len(), 0);
    let none = TemplateCache::build(&[], &[], position_unless_seventh).expect("nothing is read");
    assert_eq!(none.len(), 0);
}

#[test]
fn build_fails_on_an_offset_outside_the_buffer() {
    let data = [0u8; 100];
    let outcome = TemplateCache::build(&data, &[10, 9999], position_unless_seventh);
    assert_eq!(
        outcome.err(),
        Some(PopulateError::Position(PositionError { offset: 9999, len: 100 }))
    );
}

#[test]
fn build_fails_on_a_malformed_template() {
    let data = [0u8; 100];
    let outcome = TemplateCache::build(&data, &[10, 21, 9999], position_unless_seventh);
    assert_eq!(
        outcome.err(),
        Some(PopulateError::Decode { offset: 21, cause: String::from("nothing at 21") })
    );
}
