use invman::date::Date;
use invman::invoice::{Denomination, Invoice};
use invman::naming::{first_word_of, output_stem};

fn invoice(from: &str, to: &str, num: u32, ver: u32, y: i32, m: u8, d: u8) -> Invoice {
    Invoice::builder()
        .uuid(1)
        .num(num)
        .ver(ver)
        .date(Date::from_calendar_date(y, m, d).unwrap())
        .denom(Denomination::USD)
        .to(to.to_string())
        .from(from.to_string())
        .build()
}

#[test]
fn first_words() {
    assert_eq!(first_word_of("  Acme, Inc.\n123 Street"), "acme");
    assert_eq!(first_word_of("(Foo)Bar! baz"), "foo)bar");
    assert_eq!(first_word_of(""), "");
    assert_eq!(first_word_of(" \t\n "), "");
    assert_eq!(first_word_of("---"), "");
    assert_eq!(first_word_of("株式会社テスト 東京"), "株式会社テスト");
    assert_eq!(first_word_of("ÉCOLE x"), "École");
}

#[test]
fn punctuation_is_stripped_by_alphanumeric_test() {
    assert_eq!(first_word_of("\"Zoë\","), "zoë");
    assert_eq!(first_word_of("7-Eleven"), "7-eleven");
    assert_eq!(first_word_of("¿Qué?"), "qué");
    assert_eq!(first_word_of("《株式会社》"), "株式会社");
}

#[test]
fn stems() {
    assert_eq!(output_stem(&invoice("Alice Smith", "Bob's Co", 12, 1, 2024, 3, 5)), "alice_bob's_invoice12_240305");
    assert_eq!(output_stem(&invoice("Alice", "Bob", 3, 2, 2005, 11, 20)), "alice_bob_invoice3_v2_051120");
    assert_eq!(output_stem(&invoice("", "", 0, 0, 2100, 1, 1)), "__invoice0_000101");
    assert_eq!(output_stem(&invoice("A", "B", 1, 1, -5, 1, 2)), "a_b_invoice1_-50102");
    assert_eq!(output_stem(&invoice("A", "B", 1, 1, -2023, 1, 2)), "a_b_invoice1_-230102");
}

#[test]
fn name_keys_are_single_words() {
    for name in ["  Acme Corp", "\u{3000}山田 太郎", "a\tb", "x\u{2003}y z", ""] {
        assert!(!first_word_of(name).chars().any(char::is_whitespace));
    }
}

#[test]
fn name_key_of_a_key_is_itself() {
    for name in ["  Acme, Inc.", "株式会社テスト", "(Foo)Bar!", "ÉCOLE x", "", "---", "Zoë"] {
        let k = first_word_of(name);
        assert_eq!(first_word_of(&k), k);
    }
}
