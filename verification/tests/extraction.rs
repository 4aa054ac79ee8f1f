use mockserve::extract::extract;
use mockserve::schema::PrimitiveType;
use mockserve::source::{Comment, Decl, DeclKind, Member, SourceUnit, TypeAnnotation};

fn users_unit() -> SourceUnit {
    SourceUnit {
        comments: vec![Comment { text: String::from(" route /users"), attached_to: 14 }],
        decls: vec![
            Decl {
                start: 14,
                kind: DeclKind::PropertyBag(vec![
                    Member::Field(String::from("id"), TypeAnnotation::NumberKeyword),
                    Member::Field(String::from("name"), TypeAnnotation::StringKeyword),
                    Member::Field(String::from("active"), TypeAnnotation::BooleanKeyword),
                ]),
            },
        ],
    }
}

#[test]
fn single_annotated_declaration() {
    let entities = extract(&users_unit());
    assert_eq!(entities.len(), 1);
    let e = &entities[0];
    assert_eq!(e.route, "/users");
    assert_eq!(e.props.len(), 3);
    assert_eq!(e.props[0].name, "id");
    assert!(matches!(e.props[0].ty, PrimitiveType::Number));
    assert_eq!(e.props[1].name, "name");
    assert!(matches!(e.props[1].ty, PrimitiveType::String));
    assert_eq!(e.props[2].name, "active");
    assert!(matches!(e.props[2].ty, PrimitiveType::Boolean));
}

#[test]
fn mixed_member_types_keep_supported_in_order() {
    let unit = SourceUnit {
        comments: vec![Comment { text: String::from(" route /x"), attached_to: 0 }],
        decls: vec![
            Decl {
                start: 0,
                kind: DeclKind::PropertyBag(vec![
                    Member::Field(String::from("a"), TypeAnnotation::NumberKeyword),
                    Member::Field(String::from("b"), TypeAnnotation::Unsupported),
                    Member::Other,
                    Member::Field(String::from("c"), TypeAnnotation::StringKeyword),
                ]),
            },
        ],
    };
    let entities = extract(&unit);
    assert_eq!(entities.len(), 1);
    let e = &entities[0];
    assert_eq!(e.props.len(), 2);
    assert_eq!(e.props[0].name, "a");
    assert!(matches!(e.props[0].ty, PrimitiveType::Number));
    assert_eq!(e.props[1].name, "c");
    assert!(matches!(e.props[1].ty, PrimitiveType::String));
}

#[test]
fn comment_without_route_marker_is_ignored() {
    let mut unit = users_unit();
    unit.comments[0].text = String::from(" fix this later");
    assert_eq!(extract(&unit).len(), 0);
}

#[test]
fn comment_without_route_path_is_ignored() {
    let mut unit = users_unit();
    unit.comments[0].text = String::from(" route ");
    assert_eq!(extract(&unit).len(), 0);
}

#[test]
fn comment_attached_to_nothing_is_ignored() {
    let mut unit = users_unit();
    unit.comments[0].attached_to = 99;
    assert_eq!(extract(&unit).len(), 0);
}

#[test]
fn comment_attached_to_non_property_bag_is_ignored() {
    let unit = SourceUnit {
        comments: vec![Comment { text: String::from(" route /y"), attached_to: 3 }],
        decls: vec![Decl { start: 3, kind: DeclKind::Other }],
    };
    assert_eq!(extract(&unit).len(), 0);
}

#[test]
fn interface_with_no_supported_members_still_yields_entity() {
    let unit = SourceUnit {
        comments: vec![Comment { text: String::from(" route /empty"), attached_to: 0 }],
        decls: vec![
            Decl {
                start: 0,
                kind: DeclKind::PropertyBag(vec![
                    Member::Field(String::from("xs"), TypeAnnotation::Unsupported),
                ]),
            },
        ],
    };
    let entities = extract(&unit);
    assert_eq!(entities.len(), 1);
    assert_eq!(entities[0].route, "/empty");
    assert_eq!(entities[0].props.len(), 0);
}

#[test]
fn marker_may_sit_inside_first_token() {
    let unit = SourceUnit {
        comments: vec![Comment { text: String::from("@route /tagged"), attached_to: 0 }],
        decls: vec![Decl { start: 0, kind: DeclKind::PropertyBag(vec![]) }],
    };
    let entities = extract(&unit);
    assert_eq!(entities.len(), 1);
    assert_eq!(entities[0].route, "/tagged");
}

#[test]
fn first_matching_declaration_wins_attachment() {
    let unit = SourceUnit {
        comments: vec![Comment { text: String::from(" route /dup"), attached_to: 5 }],
        decls: vec![
            Decl { start: 5, kind: DeclKind::Other },
            Decl {
                start: 5,
                kind: DeclKind::PropertyBag(vec![
                    Member::Field(String::from("a"), TypeAnnotation::NumberKeyword),
                ]),
            },
        ],
    };
    // The first declaration at the attachment position is the one matched,
    // and it is not a property bag, so the comment yields nothing.
    assert_eq!(extract(&unit).len(), 0);
}
