use kaleidoscope::number::{integer_part_of, is_float_literal_text};

fn chars(text: &str) -> Vec<char> {
    text.chars().collect()
}

#[test]
fn well_formed_literals() {
    for text in ["0", "60", "1.5", ".5", "5.", "1e3", "1.5E2", ".5e0", "5.e1", "007"] {
        assert!(is_float_literal_text(&chars(text)), "{}", text);
        assert!(text.parse::<f64>().is_ok(), "{}", text);
    }
}

#[test]
fn malformed_literals() {
    for text in ["", ".", "1.2.3", "1a", "1e", ".e5", "e5", "1e5.", "1e5e5", "1.e", "0x10", "1f"] {
        assert!(!is_float_literal_text(&chars(text)), "{}", text);
        assert!(text.parse::<f64>().is_err(), "{}", text);
    }
}

#[test]
fn literal_form_agrees_with_float_parsing_on_short_texts() {
    let alphabet = ['0', '7', '.', 'e', 'E', 'a'];
    let mut texts: Vec<String> = vec![String::new()];
    for _ in 0..5 {
        let mut longer = Vec::new();
        for t in &texts {
            for c in alphabet {
                let mut s = t.clone();
                s.push(c);
                longer.push(s);
            }
        }
        for t in &longer {
            let starts = t.starts_with(|c: char| c == '.' || c.is_ascii_digit());
            if starts {
                assert_eq!(is_float_literal_text(&chars(t)), t.parse::<f64>().is_ok(), "{}", t);
            }
        }
        texts = longer;
    }
}

#[test]
fn integer_part_without_exponent() {
    assert_eq!(integer_part_of(&chars("0")), 0);
    assert_eq!(integer_part_of(&chars("60")), 60);
    assert_eq!(integer_part_of(&chars("60.99")), 60);
    assert_eq!(integer_part_of(&chars(".99")), 0);
    assert_eq!(integer_part_of(&chars("007.")), 7);
}

#[test]
fn integer_part_with_exponent() {
    assert_eq!(integer_part_of(&chars("1e3")), 1000);
    assert_eq!(integer_part_of(&chars("1.5e1")), 15);
    assert_eq!(integer_part_of(&chars("1.25e1")), 12);
    assert_eq!(integer_part_of(&chars("1.25E2")), 125);
    assert_eq!(integer_part_of(&chars("1.25e4")), 12500);
    assert_eq!(integer_part_of(&chars(".5e0")), 0);
    assert_eq!(integer_part_of(&chars("0.0e99999999999999999999999")), 0);
}

#[test]
fn integer_part_agrees_with_float_truncation_on_small_values() {
    for text in ["0", "1", "60", "12.5", "99.999", "3e2", "2.5e3", "123456.789e2", ".001e4"] {
        let expected = text.parse::<f64>().unwrap() as usize;
        assert_eq!(integer_part_of(&chars(text)), expected, "{}", text);
    }
}

#[test]
fn integer_part_saturates() {
    assert_eq!(integer_part_of(&chars("18446744073709551615")), usize::MAX);
    assert_eq!(integer_part_of(&chars("18446744073709551616")), usize::MAX);
    assert_eq!(integer_part_of(&chars("99999999999999999999999999")), usize::MAX);
    assert_eq!(integer_part_of(&chars("1e30")), usize::MAX);
    assert_eq!(integer_part_of(&chars("1e99999999999999999999999")), usize::MAX);
    assert_eq!(integer_part_of(&chars("0.001e99999999999999999999999")), usize::MAX);
}
