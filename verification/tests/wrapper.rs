use substr_iterator::{SubstrWrapper, Trigram, TrigramIter};

#[test]
fn should_display() {
    let subsets: Vec<Trigram> = vec![['今', '天', '我'], ['天', '我', '吃'], ['我', '吃', '饭']];
    let displayed: Vec<String> = subsets
        .into_iter()
        .map(|v| SubstrWrapper(v).render())
        .collect();
    assert_eq!(displayed, vec!["今天我", "天我吃", "我吃饭"]);
    assert_eq!(SubstrWrapper(['a', 'b', 'c']).render(), "abc");
}

#[test]
fn should_render_first_window() {
    let mut iter = TrigramIter::from("whatever");
    let item = SubstrWrapper(iter.next().unwrap());
    assert_eq!(item.render(), "wha");
}

#[test]
fn should_parse() {
    let parsed = SubstrWrapper::<3>::from_str("abc").unwrap();
    assert_eq!(parsed, SubstrWrapper(['a', 'b', 'c']));
    let parsed = SubstrWrapper::<3>::from_str("今天我").unwrap();
    assert_eq!(parsed, SubstrWrapper(['今', '天', '我']));
}

#[test]
fn should_not_parse_too_long_fragment() {
    let err = SubstrWrapper::<3>::from_str("abcd").unwrap_err();
    assert_eq!(err.expected, 3);
    assert_eq!(err.current, 4);
}

#[test]
fn should_not_parse_too_short_fragment() {
    let err = SubstrWrapper::<3>::from_str("ab").unwrap_err();
    assert_eq!(err.expected, 3);
    assert_eq!(err.current, 2);
    let err = SubstrWrapper::<3>::from_str("").unwrap_err();
    assert_eq!(err.expected, 3);
    assert_eq!(err.current, 0);
}

#[test]
fn should_count_characters_not_bytes() {
    // three characters of three bytes each: nine bytes, yet a valid trigram
    let parsed = SubstrWrapper::<3>::from_str("今天我").unwrap();
    assert_eq!(parsed.render(), "今天我");
    let err = SubstrWrapper::<2>::from_str("今天我").unwrap_err();
    assert_eq!(err.expected, 2);
    assert_eq!(err.current, 3);
}

#[test]
fn should_round_trip() {
    let values: Vec<Trigram> = vec![['a', 'b', 'c'], ['今', '天', '我'], [' ', '\t', '0']];
    for value in values {
        let wrapped = SubstrWrapper(value);
        let parsed = SubstrWrapper::<3>::from_str(wrapped.render().as_str()).unwrap();
        assert_eq!(parsed, wrapped);
    }
}

#[test]
fn should_report_length_mismatch() {
    let err = SubstrWrapper::<3>::from_str("abcd").unwrap_err();
    assert_eq!(err.message(), "invalid length 4, expected 3");
    let err = SubstrWrapper::<10>::from_str("abcd").unwrap_err();
    assert_eq!(err.message(), "invalid length 4, expected 10");
    let err = SubstrWrapper::<12>::from_str("").unwrap_err();
    assert_eq!(err.message(), "invalid length 0, expected 12");
}

#[test]
fn should_expose_inner_window() {
    let value: Trigram = ['a', 'b', 'c'];
    let wrapped = SubstrWrapper::<3>::from(value);
    assert_eq!(wrapped.inner(), value);
    assert_eq!(wrapped, SubstrWrapper(value));
}

#[test]
fn should_order_windows_by_characters() {
    let a = SubstrWrapper(['a', 'b', 'c']);
    let b = SubstrWrapper(['a', 'b', 'd']);
    assert!(a < b);
    assert_eq!(a.clone(), a);
}
