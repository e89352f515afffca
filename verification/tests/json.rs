use wikipedia2jpdb::json::{field_of, Json, JsonNumber};

fn obj(entries: Vec<(&str, Json)>) -> Json {
    Json::Object(entries.into_iter().map(|(k, v)| (k.to_string(), v)).collect())
}

#[test]
fn get_finds_the_first_member_of_that_name() {
    let v = obj(vec![("a", Json::Bool(true)), ("b", Json::Null), ("a", Json::Bool(false))]);
    assert!(matches!(v.get("a"), Some(Json::Bool(true))));
    assert!(matches!(v.get("b"), Some(Json::Null)));
    assert!(v.get("c").is_none());
    assert!(Json::Array(vec![]).get("a").is_none());
}

#[test]
fn field_of_follows_a_path() {
    let v = obj(vec![("query", obj(vec![("pages", Json::String("x".to_string()))]))]);
    let pages = field_of(field_of(Some(&v), "query"), "pages");
    assert_eq!(pages.and_then(|p| p.as_str()), Some("x"));
    assert!(field_of(field_of(Some(&v), "nothing"), "pages").is_none());
    assert!(field_of(None, "query").is_none());
}

#[test]
fn numbers_read_as_integers() {
    let small = Json::Number(JsonNumber::PosInt(7));
    let huge = Json::Number(JsonNumber::PosInt(u64::MAX));
    let negative = Json::Number(JsonNumber::NegInt(-3));
    let float = Json::Number(JsonNumber::Float);
    assert_eq!(small.as_u64(), Some(7));
    assert_eq!(small.as_i64(), Some(7));
    assert_eq!(huge.as_u64(), Some(u64::MAX));
    assert_eq!(huge.as_i64(), None);
    assert_eq!(negative.as_u64(), None);
    assert_eq!(negative.as_i64(), Some(-3));
    assert_eq!(float.as_u64(), None);
    assert_eq!(float.as_i64(), None);
    assert_eq!(Json::String("7".to_string()).as_u64(), None);
}

#[test]
fn arrays_and_objects() {
    let a = Json::Array(vec![Json::Null, Json::Bool(false)]);
    assert_eq!(a.as_array().map(|v| v.len()), Some(2));
    assert!(a.as_object().is_none());
    let o = obj(vec![("k", Json::Null)]);
    assert_eq!(o.as_object().map(|e| e[0].0.clone()), Some("k".to_string()));
    assert!(o.as_array().is_none());
}
