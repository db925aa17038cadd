use rls_core::actions::find_word_at_pos;

fn assert_range(test_str: &'static str, range: (usize, usize)) {
    assert!(test_str.chars().filter(|c| *c == '|').count() == 1);
    let col = test_str.find('|').unwrap();
    let line = test_str.replace('|', "");
    let (start, end) = find_word_at_pos(&line, col);
    assert_eq!(range, (start, end), "Assertion failed for {:?}", test_str);
}

#[test]
fn test_find_word_at_pos() {
    assert_range("|struct Def {", (0, 6));
    assert_range("stru|ct Def {", (0, 6));
    assert_range("struct| Def {", (0, 6));

    assert_range("struct |Def {", (7, 10));
    assert_range("struct De|f {", (7, 10));
    assert_range("struct Def| {", (7, 10));

    assert_range("struct Def |{", (11, 11));

    assert_range("|span::Position<T>", (0, 4));
    assert_range(" |span::Position<T>", (1, 5));
    assert_range("sp|an::Position<T>", (0, 4));
    assert_range("span|::Position<T>", (0, 4));
    assert_range("span::|Position<T>", (6, 14));
    assert_range("span::Position|<T>", (6, 14));
    assert_range("span::Position<|T>", (15, 16));
    assert_range("span::Position<T|>", (15, 16));
}
