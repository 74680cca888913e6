use spares::text::char_is_whitespace;

#[test]
fn whitespace_is_what_std_takes_for_whitespace_on_every_char() {
    for c in (0u32..=0x10FFFF).filter_map(char::from_u32) {
        assert_eq!(char_is_whitespace(c), c.is_whitespace(), "{:?}", c);
    }
}
