use noisy_clippy::spanset::insert_span;
use noisy_clippy::spanset::sorted_spans;
use noisy_clippy::source::LineColumn;
use noisy_clippy::source::Span;
use noisy_clippy::text::blank;
use noisy_clippy::text::chars_of;
use noisy_clippy::text::compare_bytes;
use noisy_clippy::text::compare_strs;
use noisy_clippy::text::push_decimal;
use noisy_clippy::text::same_str;
use noisy_clippy::text::split_lines;
use noisy_clippy::text::Order;

fn lines_of(text: &str) -> Vec<String> {
    let chars: Vec<char> = text.chars().collect();
    split_lines(&chars).into_iter().map(|line| line.into_iter().collect()).collect()
}

#[test]
fn lines_are_split_as_std_splits_them() {
    let texts = [
        "",
        "\n",
        "a",
        "a\n",
        "a\nb",
        "a\r\nb\r\n",
        "a\rb\n",
        "a\r",
        "a\r\n\r\n",
        "\r\n",
        "\r",
        "\n\n\n",
        "a\n\nb\n",
        "a\r\r\nb",
        "é\nü\r\n",
        "last\r\nline\r",
    ];
    for text in texts {
        let expected: Vec<String> = text.lines().map(|l| l.to_owned()).collect();
        assert_eq!(lines_of(text), expected);
    }
    assert_eq!(lines_of("a\r\nb\n\nc"), vec!["a", "b", "", "c"]);
    assert_eq!(lines_of("x\r"), vec!["x\r"]);
}

#[test]
fn blank_lines_hold_white_space_only() {
    let is_blank = |text: &str| blank(&text.chars().collect::<Vec<char>>());
    assert!(is_blank(""));
    assert!(is_blank(" \t\r"));
    assert!(is_blank("\u{a0}\u{2003}\u{3000}"));
    assert!(!is_blank(" a "));
    assert!(!is_blank("\u{200b}"));
    assert!(!is_blank("_"));
    for text in ["", " ", "  x", "\t\t", "\u{85}", "\u{feff}", "0"] {
        assert_eq!(is_blank(text), text.trim().is_empty());
    }
}

#[test]
fn numbers_in_decimal() {
    for n in [0u64, 1, 9, 10, 11, 99, 100, 101, 12345, 1000000, u64::MAX] {
        let mut out = String::from("n=");
        push_decimal(&mut out, n);
        assert_eq!(out, format!("n={}", n));
    }
}

#[test]
fn strings_compare_byte_by_byte() {
    let ascending = ["", "A", "Z", "a", "a-", "a_", "aa", "b", "é", "😀"];
    for (i, a) in ascending.iter().enumerate() {
        for (j, b) in ascending.iter().enumerate() {
            let expected = if i < j {
                Order::Before
            } else if i == j {
                Order::Same
            } else {
                Order::After
            };
            assert_eq!(compare_strs(a, b), expected);
            assert_eq!(compare_bytes(a.as_bytes(), b.as_bytes()), expected);
            assert_eq!(same_str(a, b), i == j);
        }
    }
    assert_eq!(compare_bytes(&[1, 2, 3], &[1, 2]), Order::After);
    assert_eq!(compare_bytes(&[1, 2], &[1, 3]), Order::Before);
    assert_eq!(compare_bytes(&[0xff], &[0x00, 0xff]), Order::After);
}

#[test]
fn characters_are_copied_in_order() {
    assert_eq!(chars_of("aé😀\n"), vec!['a', 'é', '😀', '\n']);
    assert_eq!(chars_of(""), Vec::<char>::new());
}

fn span(a: usize, b: usize, c: usize, d: usize) -> Span {
    Span::new(LineColumn::new(a, b), LineColumn::new(c, d))
}

#[test]
fn span_sets_are_in_order_and_hold_no_span_twice() {
    let global = vec![span(3, 0, 3, 1), span(1, 5, 1, 9), span(3, 0, 3, 1)];
    let local = vec![span(2, 0, 2, 1), span(1, 5, 1, 9), span(1, 5, 1, 7), span(1, 0, 9, 0)];
    let set = sorted_spans(&global, &local);
    assert_eq!(set, vec![span(1, 0, 9, 0), span(1, 5, 1, 7), span(1, 5, 1, 9), span(2, 0, 2, 1), span(3, 0, 3, 1)]);
    assert_eq!(sorted_spans(&Vec::new(), &Vec::new()), Vec::<Span>::new());
    let mut set = vec![span(1, 0, 1, 1), span(3, 0, 3, 1)];
    insert_span(&mut set, span(2, 0, 2, 1));
    insert_span(&mut set, span(0, 0, 0, 0));
    insert_span(&mut set, span(4, 0, 4, 0));
    insert_span(&mut set, span(3, 0, 3, 1));
    assert_eq!(set, vec![span(0, 0, 0, 0), span(1, 0, 1, 1), span(2, 0, 2, 1), span(3, 0, 3, 1), span(4, 0, 4, 0)]);
}
