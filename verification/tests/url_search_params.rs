use url_wasm::url_search_params::URLSearchParams;

#[test]
fn has_returns_correct() {
    let mut params = URLSearchParams::new(None);
    params.set("name".to_string(), "value".to_string());
    assert_eq!(params.has("name".to_string()), true);
    assert_eq!(params.has("unknown".to_string()), false);
}

#[test]
fn append_should_care_about_order() {
    let mut params = URLSearchParams::new(None);
    params.append("name".to_string(), "value1".to_string());
    params.append("name".to_string(), "value2".to_string());
    assert_eq!(
        params.get("name".to_string()).unwrap(),
        "value1".to_string()
    );
}

#[test]
fn sort_should_update() {
    let mut params = URLSearchParams::new(None);
    params.set("a".to_string(), "a_value".to_string());
    params.set("c".to_string(), "c_value".to_string());
    params.set("b".to_string(), "b_value".to_string());
    assert_eq!(params.to_js_string(), "a=a_value&c=c_value&b=b_value");
    params.sort();
    assert_eq!(params.to_js_string(), "a=a_value&b=b_value&c=c_value");
}

#[test]
fn new_without_init_is_empty() {
    let params = URLSearchParams::new(None);
    assert_eq!(params.to_js_string(), "".to_string());
    assert_eq!(params.keys().len(), 0);
    assert_eq!(params.values().len(), 0);
}

#[test]
fn new_should_accept_string() {
    let params = URLSearchParams::new(Some("name=url&type=parser".to_string()));
    assert_eq!(params.values(), vec!["url".to_string(), "parser".to_string()]);
    assert_eq!(params.keys(), vec!["type".to_string(), "name".to_string()]);
}

#[test]
fn new_should_accept_strings_starting_with_questionmark() {
    let params = URLSearchParams::new(Some("?name=url".to_string()));
    assert_eq!(params.values(), vec!["url".to_string()]);
    assert_eq!(params.keys(), vec!["name".to_string()]);
}

#[test]
fn new_keeps_parts_with_an_equals_sign_only() {
    let params = URLSearchParams::new(Some("a&b=1&=&c=d=e&f=".to_string()));
    assert_eq!(params.to_js_string(), "b=1&=&c=d&f=");
}

#[test]
fn new_should_accept_array() {
    let params = URLSearchParams::from_pairs(vec![
        vec!["name".to_string(), "value".to_string()],
        vec!["name".to_string(), "second-value".to_string(), "ignored".to_string()],
        vec!["alone".to_string()],
    ]);
    assert_eq!(params.to_js_string(), "name=value&name=second-value".to_string());
}

#[test]
fn append_keeps_every_value() {
    let mut params = URLSearchParams::new(None);
    params.append("name".to_string(), "value1".to_string());
    params.append("name".to_string(), "value2".to_string());
    assert_eq!(params.to_js_string(), "name=value1&name=value2".to_string());
}

#[test]
fn delete_should_literally_delete() {
    let mut params = URLSearchParams::new(None);
    params.set("hello".to_string(), "world".to_string());
    assert_eq!(params.to_js_string(), "hello=world".to_string());
    params.delete("hello".to_string());
    assert_eq!(params.to_js_string(), "".to_string());
    assert_eq!(params.has("hello".to_string()), false);
}

#[test]
fn delete_keeps_other_names_in_order() {
    let mut params = URLSearchParams::new(Some("a=1&b=2&a=3&c=4".to_string()));
    params.delete("a".to_string());
    assert_eq!(params.to_js_string(), "b=2&c=4");
}

#[test]
fn get_should_return_value() {
    let mut params = URLSearchParams::new(None);
    params.set("hello".to_string(), "world".to_string());
    assert_eq!(params.get("hello".to_string()).unwrap(), "world".to_string());
    assert_eq!(params.get("unknown".to_string()), None);
}

#[test]
fn get_all_should_filter_by_name() {
    let mut params = URLSearchParams::new(None);
    params.set("name".to_string(), "first-value".to_string());
    params.append("other".to_string(), "x".to_string());
    params.append("name".to_string(), "second-value".to_string());
    assert_eq!(
        params.get_all("name".to_string()),
        vec!["first-value".to_string(), "second-value".to_string()]
    );
}

#[test]
fn get_all_returns_empty_array() {
    let params = URLSearchParams::new(None);
    assert_eq!(params.get_all("unknown".to_string()).len(), 0);
}

#[test]
fn keys_should_return_all_unique_keys() {
    let mut params = URLSearchParams::new(None);
    params.append("common".to_string(), "value1".to_string());
    params.append("common".to_string(), "value2".to_string());
    params.append("common".to_string(), "value3".to_string());
    params.set("hello".to_string(), "world".to_string());
    params.set("abc".to_string(), "first".to_string());
    assert_eq!(
        params.keys(),
        vec!["abc".to_string(), "hello".to_string(), "common".to_string()]
    );
}

#[test]
fn keys_put_a_later_name_first() {
    let mut params = URLSearchParams::new(None);
    params.set("name".to_string(), "value".to_string());
    params.set("version".to_string(), "1.0.0".to_string());
    params.append("name".to_string(), "other".to_string());
    assert_eq!(params.keys(), vec!["name".to_string(), "version".to_string()]);
}

#[test]
fn set_should_update_and_override() {
    let mut params = URLSearchParams::new(None);
    params.set("name".to_string(), "value".to_string());
    assert_eq!(params.has("name".to_string()), true);
    params.append("mutate".to_string(), "value".to_string());
    params.append("mutate".to_string(), "value2".to_string());
    assert_eq!(params.to_js_string(), "name=value&mutate=value&mutate=value2".to_string());
    params.set("mutate".to_string(), "overriden".to_string());
    assert_eq!(params.to_js_string(), "name=value&mutate=overriden".to_string());
}

#[test]
fn set_keeps_the_place_of_the_first_pair() {
    let mut params = URLSearchParams::new(Some("a=1&b=2&a=4&c=5".to_string()));
    params.set("a".to_string(), "3".to_string());
    assert_eq!(params.to_js_string(), "a=3&b=2&c=5");
    assert_eq!(params.get_all("a".to_string()), vec!["3".to_string()]);
    params.set("d".to_string(), "6".to_string());
    assert_eq!(params.to_js_string(), "a=3&b=2&c=5&d=6");
}

#[test]
fn sort_is_stable() {
    let mut params = URLSearchParams::new(Some("b=1&a=1&b=2&a=2".to_string()));
    params.sort();
    assert_eq!(params.to_js_string(), "a=1&a=2&b=1&b=2");
}

#[test]
fn sort_uses_code_points() {
    let mut params = URLSearchParams::new(Some("é=1&z=2&a=3&B=4&ab=5".to_string()));
    params.sort();
    assert_eq!(params.to_js_string(), "B=4&a=3&ab=5&z=2&é=1");
}

#[test]
fn to_js_string_should_return_string() {
    let mut params = URLSearchParams::new(None);
    assert_eq!(params.to_js_string(), "".to_string());
    params.set("hello".to_string(), "world".to_string());
    assert_eq!(params.to_js_string(), "hello=world".to_string());
}

#[test]
fn values_should_return_only_values() {
    let mut params = URLSearchParams::new(None);
    assert_eq!(params.values().len(), 0);
    params.set("name".to_string(), "value".to_string());
    params.set("second".to_string(), "second-value".to_string());
    assert_eq!(params.values(), vec!["value".to_string(), "second-value".to_string()]);
}

#[test]
fn entries_keep_the_order() {
    let params = URLSearchParams::new(Some("x=1&y=2&x=3".to_string()));
    assert_eq!(
        params.entries(),
        vec![
            ("x".to_string(), "1".to_string()),
            ("y".to_string(), "2".to_string()),
            ("x".to_string(), "3".to_string()),
        ]
    );
}

#[test]
fn query_string_reads_back_as_the_same_pairs() {
    let mut params = URLSearchParams::new(None);
    params.append("b".to_string(), "2".to_string());
    params.append("a".to_string(), "".to_string());
    params.append("".to_string(), "x".to_string());
    params.append("b".to_string(), "3".to_string());
    let text = params.to_js_string();
    assert_eq!(text, "b=2&a=&=x&b=3");
    let back = URLSearchParams::new(Some(text));
    assert_eq!(back.entries(), params.entries());
    let empty = URLSearchParams::new(Some(URLSearchParams::new(None).to_js_string()));
    assert_eq!(empty.entries(), vec![]);
}

#[test]
fn query_string_with_a_question_mark_name_does_not_read_back() {
    let mut params = URLSearchParams::new(None);
    params.append("?a".to_string(), "1".to_string());
    let back = URLSearchParams::new(Some(params.to_js_string()));
    assert_eq!(back.entries(), vec![("a".to_string(), "1".to_string())]);
}

#[test]
fn documented_examples() {
    let mut p = URLSearchParams::new(None);
    assert_eq!(p.to_js_string(), "".to_string());
    p.append("name".to_string(), "value1".to_string());
    p.append("name".to_string(), "value2".to_string());
    assert_eq!(p.to_js_string(), "name=value1&name=value2".to_string());
    let mut q = URLSearchParams::new(None);
    q.set("name".to_string(), "value".to_string());
    assert_eq!(q.has("name".to_string()), true);
    assert_eq!(q.get("name".to_string()).unwrap(), "value".to_string());
    assert_eq!(q.to_js_string(), "name=value");
    q.delete("name".to_string());
    assert_eq!(q.has("name".to_string()), false);
}
