use corrosive::hashing::dynamic_hasher;

#[test]
fn fnv_of_empty_text_is_the_offset_basis() {
    assert_eq!(dynamic_hasher(""), 14695981039346656037);
}

#[test]
fn fnv_of_a() {
    assert_eq!(dynamic_hasher("a"), 0xaf63dc4c8601ec8c);
}

#[test]
fn fnv_differs_by_text() {
    assert_ne!(dynamic_hasher("textures/a.png"), dynamic_hasher("textures/b.png"));
}
