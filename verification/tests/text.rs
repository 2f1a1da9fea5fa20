use blaster::text::decimal_text;

#[test]
fn numbers_are_written_in_decimal() {
    for n in [0usize, 7, 10, 21, 99, 100, 1_234_567_890, usize::MAX] {
        assert_eq!(decimal_text(n), n.to_string());
    }
}
