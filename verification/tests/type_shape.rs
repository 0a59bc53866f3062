use urva::type_shape::{token_type, GenericArg, TypeOut, TypeShape};

fn path(source: usize, last: &str, args: Vec<TypeShape>) -> TypeShape {
    TypeShape::Path {
        source,
        last: last.to_string(),
        args: if args.is_empty() { None } else { Some(args.into_iter().map(GenericArg::Type).collect()) },
    }
}

#[test]
fn a_plain_type_is_kept() {
    assert!(matches!(token_type(&path(0, "String", Vec::new())), TypeOut::Same(0)));
}

#[test]
fn boxes_are_looked_through_inside_options_and_vectors() {
    // Option<Box<Vec<Box<u8>>>>
    let ty = path(0, "Option", vec![path(1, "Box", vec![path(2, "Vec", vec![path(3, "Box", vec![path(4, "u8", Vec::new())])])])]);
    match token_type(&ty) {
        TypeOut::Rewrap { source: 0, inner } => match *inner {
            TypeOut::Rewrap { source: 2, inner } => assert!(matches!(*inner, TypeOut::Same(4))),
            other => panic!("unexpected inner shape: {}", matches!(other, TypeOut::Same(_))),
        },
        _ => panic!("expected the option to be kept"),
    }
}

#[test]
fn groups_are_peeled_before_a_wrapper_is_recognised() {
    let ty = TypeShape::Group { source: 0, inner: Box::new(path(1, "Box", vec![path(2, "i64", Vec::new())])) };
    assert!(matches!(token_type(&ty), TypeOut::Same(2)));
    let other = TypeShape::Group { source: 5, inner: Box::new(TypeShape::Other { source: 6 }) };
    assert!(matches!(token_type(&other), TypeOut::Same(5)));
}

#[test]
fn a_wrapper_with_other_arguments_is_kept() {
    let ty = TypeShape::Path { source: 7, last: "Box".to_string(), args: Some(vec![GenericArg::NotType]) };
    assert!(matches!(token_type(&ty), TypeOut::Same(7)));
    let two = path(8, "Vec", vec![path(9, "u8", Vec::new()), path(10, "u8", Vec::new())]);
    assert!(matches!(token_type(&two), TypeOut::Same(8)));
}
