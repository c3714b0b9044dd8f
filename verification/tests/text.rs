use harvester::text::{append_decimal, decimal_string};

#[test]
fn numerals_match_the_standard_rendering() {
    for n in [0u32, 1, 9, 10, 11, 99, 100, 101, 4_294_967_295, 1_000_000, 907] {
        assert_eq!(decimal_string(n), n.to_string());
    }
}

#[test]
fn appending_keeps_what_was_there() {
    let mut text = String::from("id-");
    append_decimal(&mut text, 42);
    append_decimal(&mut text, 0);
    assert_eq!(text, "id-420");
}
