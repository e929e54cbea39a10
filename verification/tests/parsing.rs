use sales_taxes_kata::amount::parse_amount;
use sales_taxes_kata::text::{chars_of, find, lines};
use sales_taxes_kata::{Category, Imported, Item, ItemError, Tax};

fn amount(cents: u64) -> f64 {
    cents as f64 / 100.0
}

fn close(left: f64, right: f64) -> bool {
    let gap = (left - right).abs();
    gap <= f64::EPSILON || gap <= left.abs().max(right.abs()) * f64::EPSILON
}

fn read(text: &str) -> Option<i64> {
    parse_amount(&chars_of(text))
}

#[test]
fn test_parse_item_invalid_format() {
    let input = "1 bottle of perfume 18.99";
    assert!(Item::from_str(input).is_err());
}

#[test]
fn test_parse_item_invalid_price() {
    let input = "1 bottle of perfume at invalid";
    assert!(Item::from_str(input).is_err());
}

#[test]
fn test_parse_item_negative_price() {
    let input = "1 bottle of perfume at -18.99";
    assert!(Item::from_str(input).is_err());
}

#[test]
fn test_parse_item_imported_perfume() {
    let input = "1 imported bottle of perfume at 27.99";
    let item = Item::from_str(input).unwrap();
    assert!(matches!(item.imported(), Imported::Yes));
    assert!(matches!(item.category(), Category::Other(_)));
    assert!(close(amount(item.clean_price()), 27.99));
}

#[test]
fn test_parse_item_regular_perfume() {
    let input = "1 bottle of perfume at 18.99";
    let item = Item::from_str(input).unwrap();
    assert!(matches!(item.imported(), Imported::No));
    assert!(matches!(item.category(), Category::Other(_)));
    assert!(close(amount(item.clean_price()), 18.99));
}

#[test]
fn each_error_has_its_kind() {
    assert_eq!(
        Item::from_str("1 bottle of perfume 18.99").unwrap_err(),
        ItemError::MissingSeparator
    );
    assert_eq!(Item::from_str("").unwrap_err(), ItemError::MissingSeparator);
    assert_eq!(Item::from_str("1 book at12.49").unwrap_err(), ItemError::MissingSeparator);
    assert_eq!(Item::from_str("1 book AT 12.49").unwrap_err(), ItemError::MissingSeparator);
    assert_eq!(
        Item::from_str("1 bottle of perfume at invalid").unwrap_err(),
        ItemError::InvalidPrice
    );
    assert_eq!(
        Item::from_str("1 bottle of perfume at -18.99").unwrap_err(),
        ItemError::InvalidPrice
    );
    assert_eq!(Item::from_str("1 book at ").unwrap_err(), ItemError::InvalidPrice);
    assert_eq!(Item::from_str("1 book at  12.49").unwrap_err(), ItemError::InvalidPrice);
    assert_eq!(Item::from_str("1 book at 12.49 ").unwrap_err(), ItemError::InvalidPrice);
}

#[test]
fn a_second_separator_is_an_error() {
    assert_eq!(
        Item::from_str("1 book at 12.49 at 13.49").unwrap_err(),
        ItemError::MissingSeparator
    );
    assert_eq!(Item::from_str("1 book at  at 12.49").unwrap_err(), ItemError::MissingSeparator);
    // The two separators share a blank: the line has two parts, and the
    // second is no price.
    assert_eq!(Item::from_str("1 book at at 12.49").unwrap_err(), ItemError::InvalidPrice);
}

#[test]
fn the_description_decides_the_category() {
    let pills = Item::from_str("1 packet of headache pills at 9.75").unwrap();
    assert_eq!(
        pills.category(),
        &Category::Medical("1 packet of headache pills".to_string())
    );
    assert_eq!(pills.imported(), Imported::No);
    assert_eq!(pills.get_prices(), (975, 0));

    let chocolates = Item::from_str("1 box of imported chocolates at 11.25").unwrap();
    assert_eq!(
        chocolates.category(),
        &Category::Food("1 box of imported chocolates".to_string())
    );
    assert_eq!(chocolates.imported(), Imported::Yes);
    assert_eq!(chocolates.get_prices(), (1125, 55));

    let perfume = Item::from_str("1 imported bottle of perfume at 27.99").unwrap();
    assert_eq!(
        perfume.category(),
        &Category::Other("1 imported bottle of perfume".to_string())
    );
    assert_eq!(perfume.get_prices(), (2799, 420));

    let book = Item::from_str("1 book at 12.49").unwrap();
    assert_eq!(book.category(), &Category::Other("1 book".to_string()));
    assert_eq!(book.get_prices(), (1249, 125));
}

#[test]
fn pills_come_before_chocolate_and_perfume() {
    let item = Item::from_str("chocolate pills with perfume at 1.00").unwrap();
    assert!(matches!(item.category(), Category::Medical(_)));
    let item = Item::from_str("perfume of chocolate at 1.00").unwrap();
    assert!(matches!(item.category(), Category::Food(_)));
}

#[test]
fn keywords_are_case_sensitive() {
    let item = Item::from_str("Imported Pills at 1.00").unwrap();
    assert_eq!(item.imported(), Imported::No);
    assert!(matches!(item.category(), Category::Other(_)));
}

#[test]
fn the_whole_description_is_the_name() {
    let item = Item::from_str("1 imported bottle of perfume at 27.99").unwrap();
    assert_eq!(item.to_string(), "1 imported 1 imported bottle of perfume: 32.19");
    let item = Item::from_str(" at 5").unwrap();
    assert_eq!(item.category(), &Category::Other("".to_string()));
    assert_eq!(item.to_string(), "1 : 5.50");
    let item = Item::from_str("thé vert at 2.00").unwrap();
    assert_eq!(item.category(), &Category::Other("thé vert".to_string()));
}

#[test]
fn amounts_in_every_form() {
    assert_eq!(read("12.49"), Some(1249));
    assert_eq!(read("12.4"), Some(1240));
    assert_eq!(read("12."), Some(1200));
    assert_eq!(read("12"), Some(1200));
    assert_eq!(read(".5"), Some(50));
    assert_eq!(read(".05"), Some(5));
    assert_eq!(read("0"), Some(0));
    assert_eq!(read("007.10"), Some(710));
    assert_eq!(read("+3.20"), Some(320));
    assert_eq!(read("-3.20"), Some(-320));
    assert_eq!(read("-0.00"), Some(0));
}

#[test]
fn what_is_no_amount() {
    for text in [
        "", ".", "-", "+", "+-1", "--1", "1.234", "1.2.3", "1,20", "1e3", "inf", "NaN", " 1", "1 ",
        "1.x", "x.1", "١٢", "12.4a",
    ] {
        assert_eq!(read(text), None, "{:?}", text);
    }
}

#[test]
fn the_largest_amounts() {
    assert_eq!(read("92233720368547758.07"), Some(i64::MAX));
    assert_eq!(read("-92233720368547758.07"), Some(-i64::MAX));
    assert_eq!(read("92233720368547758.08"), None);
    assert_eq!(read("-92233720368547758.08"), None);
    assert_eq!(read("92233720368547759"), None);
    assert_eq!(read("99999999999999999999999999999999999999999"), None);
    assert_eq!(read("00000000000000000000000000000000000000001"), Some(100));
    assert_eq!(
        Item::from_str("x at 92233720368547758.08").unwrap_err(),
        ItemError::InvalidPrice
    );
}

#[test]
fn a_price_of_zero_with_a_sign() {
    let item = Item::from_str("sample at -0.00").unwrap();
    assert_eq!(item.get_prices(), (0, 0));
    let item = Item::from_str("sample at +1.00").unwrap();
    assert_eq!(item.get_prices(), (100, 10));
}

#[test]
fn finding_a_word() {
    let text = chars_of("a box of chocolates");
    assert_eq!(find(&text, &chars_of("box")), Some(2));
    assert_eq!(find(&text, &chars_of("o")), Some(3));
    assert_eq!(find(&text, &chars_of("chocolates")), Some(9));
    assert_eq!(find(&text, &chars_of("chocolates!")), None);
    assert_eq!(find(&text, &chars_of("")), Some(0));
    assert_eq!(find(&chars_of(""), &chars_of("")), Some(0));
    assert_eq!(find(&chars_of(""), &chars_of("a")), None);
    assert_eq!(find(&chars_of("aab"), &chars_of("ab")), Some(1));
}

#[test]
fn the_characters_of_a_text() {
    assert_eq!(chars_of("thé"), vec!['t', 'h', 'é']);
    assert_eq!(chars_of(""), Vec::<char>::new());
}

#[test]
fn splitting_into_lines() {
    assert_eq!(lines("a\nb"), vec!["a", "b"]);
    assert_eq!(lines("a"), vec!["a"]);
    assert_eq!(lines(""), vec![""]);
    assert_eq!(lines("a\n"), vec!["a", ""]);
    assert_eq!(lines("\n\nb"), vec!["", "", "b"]);
    assert_eq!(lines("é\nü"), vec!["é", "ü"]);
}
