use chronicle::doc_path::{read_path, split_path, take_path, take_value, DocPath, DocShape, PathError};

#[test]
fn path_is_split_at_dots() {
    assert_eq!("a.b.c".into_segments(), vec!["a", "b", "c"]);
    assert_eq!("output.native_tokens".into_segments(), vec!["output", "native_tokens"]);
}

#[test]
fn path_without_dots_is_one_segment() {
    assert_eq!("milestone_index".into_segments(), vec!["milestone_index"]);
    assert_eq!(split_path(""), vec![""]);
}

#[test]
fn empty_segments_are_kept() {
    assert_eq!(split_path("a..b."), vec!["a", "", "b", ""]);
    assert_eq!(split_path("."), vec!["", ""]);
}

#[test]
fn list_path_is_kept() {
    let path = vec!["x.y".to_string(), "z".to_string()];
    assert_eq!(path.clone().into_segments(), path);
}

fn sample() -> Vec<(String, DocShape)> {
    vec![
        (
            "a".to_string(),
            DocShape::Document(vec![("x".to_string(), DocShape::Value(0)), ("b".to_string(), DocShape::Value(1))]),
        ),
        ("b".to_string(), DocShape::Null),
        ("c".to_string(), DocShape::Value(2)),
    ]
}

#[test]
fn read_looks_the_last_field_up_where_it_started() {
    let doc = sample();
    assert_eq!(read_path(&doc, &"c".into_segments()), Ok(vec![2]));
    // The walk goes through `a`, but `b` is then read from the top document, where it is null.
    assert_eq!(read_path(&doc, &"a.b".into_segments()), Err(PathError::NullValue("b".to_string())));
    assert_eq!(read_path(&doc, &"a.x".into_segments()), Err(PathError::MissingKey("x".to_string())));
}

#[test]
fn take_looks_the_last_field_up_in_the_document_reached() {
    let doc = sample();
    assert_eq!(take_path(&doc, &"a.b".into_segments()), Ok(vec![0, 1]));
    assert_eq!(take_path(&doc, &"a.x".into_segments()), Ok(vec![0, 0]));
    assert_eq!(take_path(&doc, &"b".into_segments()), Err(PathError::NullValue("b".to_string())));
}

#[test]
fn paths_that_cannot_be_followed() {
    let doc = sample();
    assert_eq!(take_path(&doc, &"z.b".into_segments()), Err(PathError::NotPresent));
    assert_eq!(take_path(&doc, &"c.b".into_segments()), Err(PathError::UnexpectedType));
    assert_eq!(read_path(&doc, &"b.q".into_segments()), Err(PathError::UnexpectedType));
    assert_eq!(read_path(&doc, &Vec::new()), Err(PathError::MissingKey(String::new())));
    assert_eq!(take_path(&doc, &"a.q".into_segments()), Err(PathError::MissingKey("q".to_string())));
}

#[test]
fn taking_a_value_removes_it_from_its_document() {
    let mut doc = vec![(
        "a".to_string(),
        DocShape::Document(vec![("b".to_string(), DocShape::Value(0)), ("c".to_string(), DocShape::Value(1))]),
    )];
    assert_eq!(take_value(&mut doc, &"a.b".into_segments()), Ok(DocShape::Value(0)));
    let rest = vec![("a".to_string(), DocShape::Document(vec![("c".to_string(), DocShape::Value(1))]))];
    assert_eq!(doc, rest);
    assert_eq!(take_value(&mut doc, &"a.b".into_segments()), Err(PathError::MissingKey("b".to_string())));
    assert_eq!(doc, rest);
    assert_eq!(take_value(&mut doc, &"a".into_segments()), Ok(DocShape::Document(vec![("c".to_string(), DocShape::Value(1))])));
    assert_eq!(doc, vec![]);
}
