//! Text, JSON values and the document cache.
use pdf_mcp::cache::DocCache;
use pdf_mcp::json::{Json, Number};
use pdf_mcp::resize::resize_dims;
use pdf_mcp::text::{decimal, integer_text, is_blank, joined, same, trim, trim_end};

#[test]
fn second_call_opens_nothing() {
    let mut cache = DocCache::new();
    assert!(!cache.holds("/a.pdf"));
    assert_eq!(cache.open_doc("/a.pdf", Ok(())), Ok(()));
    assert!(cache.holds("/a.pdf"));
    assert_eq!(cache.open_doc("/a.pdf", Err("unread".to_string())), Ok(()));
    assert_eq!(cache.open_doc("/b.pdf", Ok(())), Ok(()));
    assert!(!cache.holds("/a.pdf"));
}

#[test]
fn failure_keeps_the_document() {
    let mut cache = DocCache::new();
    assert_eq!(
        cache.open_doc("/a.pdf", Err("no such file".to_string())),
        Err("Failed to open /a.pdf: no such file".to_string())
    );
    assert!(!cache.holds("/a.pdf"));
    cache.open_doc("/a.pdf", Ok(())).unwrap();
    assert!(cache.open_doc("/b.pdf", Err("bad".to_string())).is_err());
    assert!(cache.holds("/a.pdf"));
}

#[test]
fn texts_are_trimmed_as_std_does() {
    for s in ["", " ", "a", " a b \n", "\u{a0}x\u{3000}", "\u{200b}", "é\t", "\u{85}\u{2028}q\u{1680}"] {
        assert_eq!(trim(s), s.trim());
        assert_eq!(trim_end(s), s.trim_end());
        assert_eq!(is_blank(s), s.trim().is_empty());
    }
}

#[test]
fn white_space_is_that_of_unicode() {
    for u in 0..=0x10ffffu32 {
        if let Some(c) = char::from_u32(u) {
            assert_eq!(pdf_mcp::text::is_white(c), c.is_whitespace(), "{u:x}");
        }
    }
}

#[test]
fn numbers_are_written_in_decimal() {
    for n in [0, 7, 10, 99, 100, 12345, u64::MAX] {
        assert_eq!(decimal(n), n.to_string());
    }
    for n in [0i128, -1, -32700, i64::MIN as i128, u64::MAX as i128] {
        assert_eq!(integer_text(n), n.to_string());
    }
    assert_eq!(joined("ab", "é"), "abé");
    assert!(same("é", "é"));
    assert!(!same("e", "é"));
}

#[test]
fn members_are_found_by_key() {
    let v = Json::object()
        .with("a", Json::text("x"))
        .with("b", Json::integer(-4))
        .with("c", Json::unsigned(u64::MAX));
    assert_eq!(v.text_at("a"), Some("x".to_string()));
    assert_eq!(v.text_at("b"), None);
    assert_eq!(v.integer_at("a"), None);
    assert_eq!(v.integer_at("b"), Some(-4));
    assert_eq!(v.integer_at("c"), Some(u64::MAX as i128));
    assert_eq!(v.u64_at("c"), Some(u64::MAX));
    assert_eq!(v.u64_at("b"), None);
    assert_eq!(v.double_at("b").unwrap().bits, (-4.0f64).to_bits());
    assert_eq!(v.double_at("c").unwrap().bits, (u64::MAX as f64).to_bits());
    assert!(v.has("a") && !v.has("d"));
    assert_eq!(v.clone(), v);
    assert_eq!(Json::text("a").get("a"), None);
    assert_eq!(Json::Null.with("a", Json::Null), Json::Null);
    assert_eq!(Json::integer(5), Json::Number(Number::PosInt(5)));
}

#[test]
fn sizes_keep_the_aspect_ratio() {
    assert_eq!(resize_dims(1275, 1650, Some(1275), None), None);
    assert_eq!(resize_dims(100, 200, Some(100), None), None);
    assert_eq!(resize_dims(100, 200, None, Some(200)), None);
    assert_eq!(resize_dims(100, 200, Some(100), Some(7)), None);
    assert_eq!(resize_dims(100, 200, Some(50), Some(200)), Some((50, 100)));
    assert_eq!(resize_dims(3, 2, Some(100), None), Some((100, 67)));
    assert_eq!(resize_dims(1000, 1, Some(10), None), Some((10, 0)));
    assert_eq!(resize_dims(0, 5, Some(10), None), Some((10, u32::MAX)));
    assert_eq!(resize_dims(0, 0, None, Some(10)), Some((0, 10)));
}
