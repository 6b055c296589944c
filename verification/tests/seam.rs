use panedrive::{leaves, validate, Condition, Json};

fn obj(entries: Vec<(&str, Json)>) -> Json {
    Json::object(entries.into_iter().map(|(k, v)| (k.to_string(), v)).collect())
}

#[test]
fn leaves_flattens_nested_objects_and_arrays() {
    let v = obj(vec![
        ("bag", obj(vec![("count", Json::integer(2)), ("open", Json::boolean(true))])),
        ("focus", Json::string("fleet")),
        (
            "rows",
            Json::array(vec![
                obj(vec![("name", Json::string("a"))]),
                obj(vec![("name", Json::string("b"))]),
            ]),
        ),
    ]);
    let got: Vec<(String, &str)> = leaves(&v).into_iter().map(|l| (l.path, l.kind)).collect();
    assert!(got.contains(&("focus".to_string(), "string")));
    assert!(got.contains(&("bag.count".to_string(), "number")));
    assert!(got.contains(&("bag.open".to_string(), "bool")));
    assert!(got.contains(&("rows.0.name".to_string(), "string")));
    assert!(got.contains(&("rows.1.name".to_string(), "string")));
    assert_eq!(got.len(), 5);
}

#[test]
fn validate_accepts_an_object_with_leaves() {
    let report = validate(&obj(vec![("focus", Json::string("fleet"))]));
    assert!(report.ok);
    assert_eq!(report.paths, 1);
    assert!(report.problems.is_empty());
}

#[test]
fn validate_rejects_non_object_roots_and_empty_objects() {
    let array = validate(&Json::array(vec![Json::integer(1), Json::integer(2), Json::integer(3)]));
    assert!(!array.ok);
    assert!(array.problems[0].contains("array"));
    assert!(!array.problems[0].contains("scalar"));

    let scalar = validate(&Json::string("scalar"));
    assert!(!scalar.ok);
    assert!(scalar.problems[0].contains("scalar"));
    assert!(!scalar.problems[0].contains("array"));

    let empty = validate(&obj(vec![]));
    assert!(!empty.ok);
    assert!(empty.problems[0].contains("empty"));
    assert_eq!(empty.paths, 0);
}

#[test]
fn leaves_report_values_in_document_order() {
    let v = obj(vec![
        ("a", Json::null()),
        ("b", Json::array(vec![Json::number("1.5"), Json::array(vec![Json::boolean(false)])])),
        ("c", obj(vec![])),
    ]);
    let got: Vec<(String, String, &str)> =
        leaves(&v).into_iter().map(|l| (l.path, l.value, l.kind)).collect();
    assert_eq!(
        got,
        vec![
            ("a".to_string(), "null".to_string(), "null"),
            ("b.0".to_string(), "1.5".to_string(), "number"),
            ("b.1.0".to_string(), "false".to_string(), "bool"),
        ]
    );
    let scalar_root = leaves(&Json::integer(7));
    assert_eq!(scalar_root.len(), 1);
    assert_eq!(scalar_root[0].path, "");
    assert_eq!(validate(&Json::array(vec![Json::integer(1)])).paths, 1);
}

#[test]
fn every_listed_leaf_can_be_asserted_with_its_value() {
    let v = obj(vec![
        ("bag", obj(vec![("count", Json::number("2.0")), ("open", Json::boolean(true))])),
        ("focus", Json::string("fleet")),
        ("rows", Json::array(vec![obj(vec![("name", Json::string("a"))]), Json::null()])),
    ]);
    let ls = leaves(&v);
    assert_eq!(ls.len(), 5);
    for l in &ls {
        let cond = Condition::parse(&format!("{}={}", l.path, l.value)).unwrap();
        assert!(cond.eval(&v), "{} should hold", cond.to_spec());
        assert!(Condition::parse(&l.path).unwrap().eval(&v));
    }
}

#[test]
fn validate_rejects_an_object_without_scalar_leaves() {
    let report = validate(&obj(vec![("a", obj(vec![]))]));
    assert!(!report.ok);
    assert_eq!(report.paths, 0);
    assert_eq!(report.problems.len(), 1);
    assert!(report.problems[0].contains("no scalar leaves"));
    let arrays_only = validate(&obj(vec![("rows", Json::array(vec![]))]));
    assert!(!arrays_only.ok);
}

#[test]
fn path_rows_pad_every_path_to_the_longest() {
    let v = obj(vec![
        ("bag", obj(vec![("count", Json::integer(2))])),
        ("focus", Json::string("fleet")),
        ("open", Json::boolean(true)),
    ]);
    let ls = leaves(&v);
    let rows = panedrive::seam::path_rows(&ls);
    let width = ls.iter().map(|l| l.path.len()).max().unwrap_or(0);
    let expected: Vec<String> = ls
        .iter()
        .map(|l| format!("{:<width$} = {}  ({})", l.path, l.value, l.kind))
        .collect();
    assert_eq!(rows, expected);
    assert_eq!(rows[0], "bag.count = 2  (number)");
    assert_eq!(rows[1], "focus     = fleet  (string)");
}
