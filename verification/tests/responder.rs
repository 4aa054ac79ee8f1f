use mockserve::catalog::{aggregate, find_entity, registration_indices};
use mockserve::schema::{Entity, PrimitiveType, Property};
use mockserve::source::{Comment, Decl, DeclKind, Member, SourceUnit, TypeAnnotation};
use mockserve::synth::{respond, synthesize, MockValue};

fn entity(route: &str, props: Vec<(&str, PrimitiveType)>) -> Entity {
    Entity {
        route: String::from(route),
        props: props
            .into_iter()
            .map(|(name, ty)| Property { name: String::from(name), ty })
            .collect(),
    }
}

#[test]
fn aggregation_concatenates_in_visiting_order() {
    let unit_a = SourceUnit {
        comments: vec![Comment { text: String::from(" route /a"), attached_to: 0 }],
        decls: vec![Decl { start: 0, kind: DeclKind::PropertyBag(vec![]) }],
    };
    let unit_b = SourceUnit {
        comments: vec![
            Comment { text: String::from(" route /b"), attached_to: 0 },
            Comment { text: String::from(" route /c"), attached_to: 7 },
        ],
        decls: vec![
            Decl { start: 0, kind: DeclKind::PropertyBag(vec![]) },
            Decl { start: 7, kind: DeclKind::PropertyBag(vec![]) },
        ],
    };
    let catalog = aggregate(&vec![unit_a, unit_b]);
    let routes: Vec<&str> = catalog.iter().map(|e| e.route.as_str()).collect();
    assert_eq!(routes, vec!["/a", "/b", "/c"]);
}

#[test]
fn duplicate_routes_both_stay_in_catalog() {
    let unit = SourceUnit {
        comments: vec![
            Comment { text: String::from(" route /dup"), attached_to: 0 },
            Comment { text: String::from(" route /dup"), attached_to: 9 },
        ],
        decls: vec![
            Decl {
                start: 0,
                kind: DeclKind::PropertyBag(vec![
                    Member::Field(String::from("first"), TypeAnnotation::BooleanKeyword),
                ]),
            },
            Decl {
                start: 9,
                kind: DeclKind::PropertyBag(vec![
                    Member::Field(String::from("second"), TypeAnnotation::NumberKeyword),
                ]),
            },
        ],
    };
    let catalog = aggregate(&vec![unit]);
    assert_eq!(catalog.len(), 2);
    assert_eq!(catalog[0].route, "/dup");
    assert_eq!(catalog[1].route, "/dup");
}

#[test]
fn first_registered_entity_wins_resolution() {
    let catalog = vec![
        entity("/dup", vec![("first", PrimitiveType::Boolean)]),
        entity("/dup", vec![("second", PrimitiveType::Number)]),
        entity("/other", vec![]),
    ];
    let resolved = find_entity(&catalog, "/dup").expect("route is registered");
    assert_eq!(resolved.props[0].name, "first");

    // Registration keeps exactly one handler per route: the first.
    let idx = registration_indices(&catalog);
    assert_eq!(idx, vec![0, 2]);

    // Repeated requests are served by the same resolved entity.
    for _ in 0..10 {
        let body = respond(&catalog, "/dup").expect("route is registered");
        assert_eq!(body.fields.len(), 1);
        assert_eq!(body.fields[0].key, "first");
        assert!(matches!(body.fields[0].value, MockValue::Bool(_)));
    }
}

#[test]
fn unregistered_route_yields_nothing() {
    let catalog = vec![entity("/a", vec![])];
    assert!(respond(&catalog, "/missing").is_none());
}

#[test]
fn synthesized_values_type_check() {
    let e = entity(
        "/users",
        vec![
            ("id", PrimitiveType::Number),
            ("name", PrimitiveType::String),
            ("active", PrimitiveType::Boolean),
        ],
    );
    for _ in 0..50 {
        let body = synthesize(&e);
        assert_eq!(body.fields.len(), 3);
        assert_eq!(body.fields[0].key, "id");
        match &body.fields[0].value {
            MockValue::Int(n) => assert!((0..=999).contains(n)),
            other => panic!("id should be a number, got {:?}", other),
        }
        assert_eq!(body.fields[1].key, "name");
        match &body.fields[1].value {
            MockValue::Text(s) => assert!(!s.is_empty()),
            other => panic!("name should be text, got {:?}", other),
        }
        assert_eq!(body.fields[2].key, "active");
        assert!(matches!(body.fields[2].value, MockValue::Bool(_)));
    }
}

#[test]
fn duplicate_property_names_yield_one_key_with_last_type() {
    let e = entity(
        "/dup-name",
        vec![
            ("x", PrimitiveType::Boolean),
            ("y", PrimitiveType::String),
            ("x", PrimitiveType::Number),
        ],
    );
    for _ in 0..10 {
        let body = synthesize(&e);
        // JSON keys are unique: "x" appears once, at its first position,
        // typed per its last occurrence.
        assert_eq!(body.fields.len(), 2);
        assert_eq!(body.fields[0].key, "x");
        assert!(matches!(body.fields[0].value, MockValue::Int(_)));
        assert_eq!(body.fields[1].key, "y");
        assert!(matches!(body.fields[1].value, MockValue::Text(_)));
    }
}

#[test]
fn extraction_keeps_duplicate_names_but_response_holds_key_once() {
    let unit = SourceUnit {
        comments: vec![Comment { text: String::from(" route /d"), attached_to: 0 }],
        decls: vec![
            Decl {
                start: 0,
                kind: DeclKind::PropertyBag(vec![
                    Member::Field(String::from("x"), TypeAnnotation::BooleanKeyword),
                    Member::Field(String::from("x"), TypeAnnotation::NumberKeyword),
                ]),
            },
        ],
    };
    let catalog = aggregate(&vec![unit]);
    // The schema preserves both declarations, as written.
    assert_eq!(catalog[0].props.len(), 2);
    // The response object holds the key once, valued per the last one.
    let body = respond(&catalog, "/d").expect("route is registered");
    assert_eq!(body.fields.len(), 1);
    assert_eq!(body.fields[0].key, "x");
    assert!(matches!(body.fields[0].value, MockValue::Int(_)));
}

#[test]
fn end_to_end_users_example() {
    let unit = SourceUnit {
        comments: vec![Comment { text: String::from(" route /users"), attached_to: 14 }],
        decls: vec![
            Decl {
                start: 14,
                kind: DeclKind::PropertyBag(vec![
                    Member::Field(String::from("id"), TypeAnnotation::NumberKeyword),
                    Member::Field(String::from("name"), TypeAnnotation::StringKeyword),
                    Member::Field(String::from("active"), TypeAnnotation::BooleanKeyword),
                ]),
            },
        ],
    };
    let catalog = aggregate(&vec![unit]);
    assert_eq!(catalog.len(), 1);
    let body = respond(&catalog, "/users").expect("route is registered");
    let keys: Vec<&str> = body.fields.iter().map(|f| f.key.as_str()).collect();
    assert_eq!(keys, vec!["id", "name", "active"]);
    assert!(matches!(body.fields[0].value, MockValue::Int(_)));
    assert!(matches!(body.fields[1].value, MockValue::Text(_)));
    assert!(matches!(body.fields[2].value, MockValue::Bool(_)));
}

#[test]
fn end_to_end_unsupported_member_dropped() {
    let unit = SourceUnit {
        comments: vec![Comment { text: String::from(" route /x"), attached_to: 0 }],
        decls: vec![
            Decl {
                start: 0,
                kind: DeclKind::PropertyBag(vec![
                    Member::Field(String::from("a"), TypeAnnotation::NumberKeyword),
                    Member::Field(String::from("b"), TypeAnnotation::Unsupported),
                ]),
            },
        ],
    };
    let catalog = aggregate(&vec![unit]);
    let body = respond(&catalog, "/x").expect("route is registered");
    assert_eq!(body.fields.len(), 1);
    assert_eq!(body.fields[0].key, "a");
    assert!(matches!(body.fields[0].value, MockValue::Int(_)));
}
