use cache_aside::codec::{decode_page, encode_page};
use cache_aside::item::Item;
use cache_aside::keys::cache_key;
use cache_aside::text::{chars_to_string, dec_u64, pad_u64};

fn item(id: u64, title: &str, content: &str) -> Item {
    Item {
        id,
        title: String::from(title),
        content: String::from(content),
    }
}

#[test]
fn round_trip_plain_items() {
    let items = vec![
        item(1, "first", "hello"),
        item(2, "second", "world"),
        item(3, "", ""),
    ];
    let text = encode_page(&items);
    let back = decode_page(&text).expect("an encoded page must decode");
    assert_eq!(back.len(), 3);
    for (a, b) in items.iter().zip(back.iter()) {
        assert_eq!(a.id, b.id);
        assert_eq!(a.title, b.title);
        assert_eq!(a.content, b.content);
    }
}

#[test]
fn round_trip_hostile_text_needs_no_escaping() {
    let items = vec![
        item(7, "0000000000000000000042", "digits that look like a length"),
        item(u64::MAX, "newline\nand \"quotes\"", "snowman \u{2603} and emoji \u{1f600}"),
    ];
    let text = encode_page(&items);
    let back = decode_page(&text).expect("an encoded page must decode");
    assert_eq!(back.len(), 2);
    for (a, b) in items.iter().zip(back.iter()) {
        assert_eq!(a.id, b.id);
        assert_eq!(a.title, b.title);
        assert_eq!(a.content, b.content);
    }
}

#[test]
fn round_trip_empty_page() {
    let items: Vec<Item> = Vec::new();
    let text = encode_page(&items);
    assert_eq!(text, "00000000000000000000");
    let back = decode_page(&text).expect("the empty page must decode");
    assert!(back.is_empty());
}

#[test]
fn exact_encoding_of_one_item() {
    let items = vec![item(42, "ab", "xyz")];
    let text = encode_page(&items);
    let expected = [
        "00000000000000000001",
        "00000000000000000042",
        "00000000000000000002",
        "ab",
        "00000000000000000003",
        "xyz",
    ]
    .join("");
    assert_eq!(text, expected);
}

#[test]
fn malformed_text_decodes_to_nothing() {
    // too short to hold a count
    assert!(decode_page("").is_none());
    assert!(decode_page("123").is_none());
    // a count that is not digits
    assert!(decode_page("0000000000000000000x").is_none());
    // a count promising an item that is not there
    assert!(decode_page("00000000000000000001").is_none());
    // a field length pointing past the end
    let short = [
        "00000000000000000001",
        "00000000000000000042",
        "00000000000000000009",
        "ab",
    ]
    .join("");
    assert!(decode_page(&short).is_none());
    // trailing garbage after a well-formed page
    let good = encode_page(&vec![item(1, "a", "b")]);
    let mut bad = good.clone();
    bad.push('!');
    assert!(decode_page(&good).is_some());
    assert!(decode_page(&bad).is_none());
    // a count too large for a machine word
    assert!(decode_page("99999999999999999999").is_none());
}

#[test]
fn key_derivation_is_the_documented_format() {
    assert_eq!(cache_key("post", 1), "post_page_1");
    assert_eq!(cache_key("post", 25), "post_page_25");
    assert_eq!(cache_key("user", 10), "user_page_10");
    assert_eq!(cache_key("", 0), "_page_0");
    assert_eq!(cache_key("a", u64::MAX), format!("a_page_{}", u64::MAX));
}

#[test]
fn decimal_helpers_render_exactly() {
    assert_eq!(chars_to_string(&dec_u64(0)), "0");
    assert_eq!(chars_to_string(&dec_u64(905)), "905");
    assert_eq!(chars_to_string(&pad_u64(7, 5)), "00007");
    assert_eq!(chars_to_string(&pad_u64(12345, 5)), "12345");
}
