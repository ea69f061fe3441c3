use yarte_codegen::messages::{gen_messages, Arg, Fields, MsgEnum, MsgError, Shape, Variant};

fn variant(ident: &str, attrs: Vec<&str>, fields: Fields, discriminant: bool) -> Variant {
    Variant {
        ident: ident.to_string(),
        attrs: attrs.into_iter().map(String::from).collect(),
        fields,
        discriminant,
    }
}

fn sample(discriminant: bool) -> MsgEnum {
    MsgEnum {
        ident: "Msg".to_string(),
        variants: vec![
            variant("Increment", vec![], Fields::Unit, false),
            variant("SetName", vec![], Fields::Named(vec!["first".to_string(), "last".to_string()]), false),
            variant("Move", vec!["on_move"], Fields::Unnamed(2), discriminant),
        ],
    }
}

#[test]
fn one_arm_per_variant() {
    let (arms, out) = gen_messages(&sample(false)).ok().unwrap();
    assert_eq!(arms.len(), 3);
    assert_eq!(arms[0].func, "increment");
    assert_eq!(arms[0].shape, Shape::Unit);
    assert!(arms[0].args.is_empty());
    assert_eq!(arms[1].func, "set_name");
    assert_eq!(arms[1].shape, Shape::Named);
    assert!(matches!(&arms[1].args[..], [Arg::Field(a), Arg::Field(b)] if a == "first" && b == "last"));
    assert_eq!(arms[2].func, "on_move");
    assert_eq!(arms[2].variant, "Move");
    assert!(matches!(&arms[2].args[..], [Arg::Index(0), Arg::Index(1)]));
    assert_eq!(out.ident, "Msg");
    assert!(out.variants[2].attrs.is_empty());
    assert_eq!(out.variants[1].ident, "SetName");
}

#[test]
fn discriminant_is_rejected() {
    assert!(matches!(gen_messages(&sample(true)), Err(MsgError::Discriminant(2))));
}

#[test]
fn several_attributes_fall_back_to_snake_case() {
    let e = MsgEnum {
        ident: "M".to_string(),
        variants: vec![variant("HTTPRequest", vec!["a", "b"], Fields::Unit, false)],
    };
    let (arms, out) = gen_messages(&e).ok().unwrap();
    assert_eq!(arms[0].func, "http_request");
    assert_eq!(out.variants[0].attrs.len(), 2);
}

#[test]
fn empty_enum_has_no_arms() {
    let e = MsgEnum { ident: "M".to_string(), variants: vec![] };
    let (arms, _) = gen_messages(&e).ok().unwrap();
    assert!(arms.is_empty());
}
