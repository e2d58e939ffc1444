use macro_workshop::debug::{add_trait_bounds, extract_debug, generics_contains};
use macro_workshop::syntax::{
    AttrPath, AttrValue, Attribute, Data, DeriveInput, Field, GenericArgument, GenericParam,
    Generics, Meta, PathArguments, PathSegment, Ty, TyKind,
};

fn seg(name: &str, args: Option<Vec<GenericArgument>>) -> PathSegment {
    PathSegment {
        ident: name.to_string(),
        arguments: match args {
            Some(a) => PathArguments::AngleBracketed(a),
            None => PathArguments::Bare,
        },
    }
}

fn path(segs: Vec<PathSegment>) -> Ty {
    Ty { kind: TyKind::Path(segs), text: String::new() }
}

fn simple(name: &str) -> Ty {
    path(vec![seg(name, None)])
}

fn wrapped(outer: &str, inner: Ty) -> Ty {
    path(vec![seg(outer, Some(vec![GenericArgument::Type(inner)]))])
}

fn segs(ty: &Ty) -> &Vec<PathSegment> {
    match &ty.kind {
        TyKind::Path(s) => s,
        _ => panic!("not a path"),
    }
}

fn debug_attr(value: AttrValue) -> Attribute {
    Attribute {
        path: AttrPath { leading_colon: false, segments: vec![seg("debug", None)] },
        meta: Meta::NameValue(value),
        text: String::new(),
    }
}

fn field(name: &str, ty: Ty, attrs: Vec<Attribute>) -> Field {
    Field { attrs, ident: name.to_string(), ty }
}

fn type_param(name: &str) -> GenericParam {
    GenericParam::Type { ident: name.to_string(), bounds: vec![] }
}

#[test]
fn debug_format_is_read_from_the_first_debug_attribute() {
    let f = field("bitmask", simple("u8"), vec![debug_attr(AttrValue::Str("0b{:08b}".to_string()))]);
    assert_eq!(extract_debug(&f), Some("0b{:08b}".to_string()));
    let g = field(
        "bitmask",
        simple("u8"),
        vec![debug_attr(AttrValue::Other), debug_attr(AttrValue::Str("{}".to_string()))],
    );
    assert_eq!(extract_debug(&g), None);
    assert_eq!(extract_debug(&field("name", simple("String"), vec![])), None);
}

#[test]
fn type_parameters_get_a_debug_bound() {
    let g = Generics {
        params: vec![
            GenericParam::Lifetime,
            GenericParam::Type { ident: "T".to_string(), bounds: vec!["Clone".to_string()] },
            GenericParam::Const,
        ],
    };
    let b = add_trait_bounds(g);
    assert!(matches!(b.params[0], GenericParam::Lifetime));
    match &b.params[1] {
        GenericParam::Type { ident, bounds } => {
            assert_eq!(ident, "T");
            assert_eq!(bounds, &vec!["Clone".to_string(), "std::fmt::Debug".to_string()]);
        }
        _ => panic!("expected a type parameter"),
    }
    assert!(matches!(b.params[2], GenericParam::Const));
}

#[test]
fn generics_are_found_inside_paths_but_not_phantom_data() {
    let t = Some("T".to_string());
    assert!(generics_contains(segs(&simple("T")), &t));
    assert!(generics_contains(segs(&wrapped("Vec", simple("T"))), &t));
    assert!(generics_contains(segs(&wrapped("Box", wrapped("Option", simple("T")))), &t));
    assert!(!generics_contains(segs(&wrapped("PhantomData", simple("T"))), &t));
    assert!(!generics_contains(segs(&simple("String")), &t));
    assert!(!generics_contains(segs(&simple("T")), &None));
    // `T::Value` names `T` in its first segment
    assert!(generics_contains(&vec![seg("T", None), seg("Value", None)], &t));
}

fn input(fields: Vec<Field>, params: Vec<GenericParam>) -> DeriveInput {
    DeriveInput { ident: "Field".to_string(), generics: Generics { params }, data: Data::NamedStruct(fields) }
}

#[test]
fn derive_plans_the_debug_impl() {
    let plan = macro_workshop::debug::derive(&input(
        vec![
            field("name", Ty { kind: TyKind::Other, text: "& 'static str".to_string() }, vec![]),
            field("bitmask", simple("u8"), vec![debug_attr(AttrValue::Str("0b{:08b}".to_string()))]),
        ],
        vec![],
    ));
    assert!(!plan.need_generics);
    assert_eq!(plan.type_param, None);
    assert_eq!(plan.formats, vec![None, Some("0b{:08b}".to_string())]);
}

#[test]
fn derive_needs_generics_when_a_field_names_the_parameter() {
    let plan = macro_workshop::debug::derive(&input(
        vec![
            field("marker", wrapped("PhantomData", simple("T")), vec![]),
            field(
                "pair",
                Ty { kind: TyKind::Tuple(vec![simple("u8"), wrapped("Vec", simple("T"))]), text: String::new() },
                vec![],
            ),
        ],
        vec![type_param("T")],
    ));
    assert_eq!(plan.type_param, Some("T".to_string()));
    assert!(plan.need_generics);
    let only_marker = macro_workshop::debug::derive(&input(
        vec![field("marker", wrapped("PhantomData", simple("T")), vec![])],
        vec![type_param("T")],
    ));
    assert!(!only_marker.need_generics);
}
