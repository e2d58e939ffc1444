use macro_workshop::builder::{
    attr_builder_each, each_attr_panic, extract_inner_from, AttrPanic, EachPlan,
};
use macro_workshop::syntax::{
    AttrPath, Attribute, Data, DeriveInput, Field, GenericArgument, Generics, Meta, PathArguments,
    PathSegment, TokenTree, Ty, TyKind,
};

fn seg(name: &str, args: Option<Vec<GenericArgument>>) -> PathSegment {
    PathSegment {
        ident: name.to_string(),
        arguments: match args {
            Some(a) => PathArguments::AngleBracketed(a),
            None => PathArguments::Bare,
        },
    }
}

fn path_ty(text: &str, segs: Vec<PathSegment>) -> Ty {
    Ty { kind: TyKind::Path(segs), text: text.to_string() }
}

fn simple(name: &str) -> Ty {
    path_ty(name, vec![seg(name, None)])
}

fn wrapped(outer: &str, inner: Ty) -> Ty {
    let text = format!("{}<{}>", outer, inner.text);
    path_ty(&text, vec![seg(outer, Some(vec![GenericArgument::Type(inner)]))])
}

fn ident(s: &str) -> TokenTree {
    TokenTree::Ident(s.to_string())
}

fn punct(c: char) -> TokenTree {
    TokenTree::Punct { ch: c, joint: false }
}

fn lit(s: &str) -> TokenTree {
    TokenTree::Literal(s.to_string())
}

fn builder_attr(meta: Meta) -> Attribute {
    Attribute {
        path: AttrPath { leading_colon: false, segments: vec![seg("builder", None)] },
        meta,
        text: "# [builder (..)]".to_string(),
    }
}

fn doc_attr() -> Attribute {
    Attribute {
        path: AttrPath { leading_colon: false, segments: vec![seg("doc", None)] },
        meta: Meta::NameValue(macro_workshop::syntax::AttrValue::Str("text".to_string())),
        text: "# [doc = \"text\"]".to_string(),
    }
}

fn field(name: &str, ty: Ty, attrs: Vec<Attribute>) -> Field {
    Field { attrs, ident: name.to_string(), ty }
}

fn each(tokens: Vec<TokenTree>) -> Attribute {
    builder_attr(Meta::List(tokens))
}

#[test]
fn extract_inner_of_option() {
    let ty = wrapped("Option", simple("String"));
    let inner = extract_inner_from(&ty, "Option").unwrap();
    assert_eq!(inner.text, "String");
    assert!(extract_inner_from(&ty, "Vec").is_none());
}

#[test]
fn extract_inner_reads_the_last_segment() {
    let ty = path_ty(
        "std::option::Option<u8>",
        vec![
            seg("std", None),
            seg("option", None),
            seg("Option", Some(vec![GenericArgument::Type(simple("u8"))])),
        ],
    );
    assert_eq!(extract_inner_from(&ty, "Option").unwrap().text, "u8");
}

#[test]
fn extract_inner_skips_lifetimes_and_needs_arguments() {
    let ty = path_ty(
        "Cow<'a, str>",
        vec![seg("Cow", Some(vec![GenericArgument::Other, GenericArgument::Type(simple("str"))]))],
    );
    assert_eq!(extract_inner_from(&ty, "Cow").unwrap().text, "str");
    assert!(extract_inner_from(&simple("Option"), "Option").is_none());
    let tuple = Ty { kind: TyKind::Tuple(vec![]), text: "()".to_string() };
    assert!(extract_inner_from(&tuple, "Option").is_none());
}

#[test]
fn plain_field_gets_a_setter() {
    let f = field("executable", simple("String"), vec![doc_attr()]);
    match attr_builder_each(&f) {
        Some(EachPlan::Setter { ty }) => assert_eq!(ty.text, "String"),
        _ => panic!("expected a setter"),
    }
}

#[test]
fn option_field_setter_takes_inner_type() {
    let f = field("current_dir", wrapped("Option", simple("String")), vec![]);
    match attr_builder_each(&f) {
        Some(EachPlan::Setter { ty }) => assert_eq!(ty.text, "String"),
        _ => panic!("expected a setter"),
    }
}

#[test]
fn each_with_other_name_gives_pusher_and_setter() {
    let f = field(
        "args",
        wrapped("Vec", simple("String")),
        vec![each(vec![ident("each"), punct('='), lit("\"arg\"")])],
    );
    match attr_builder_each(&f) {
        Some(EachPlan::EachAndSetter { each, elem, ty }) => {
            assert_eq!(each, "arg");
            assert_eq!(elem.text, "String");
            assert_eq!(ty.text, "Vec<String>");
        }
        _ => panic!("expected a pusher and a setter"),
    }
}

#[test]
fn each_with_field_name_gives_pusher_only() {
    let f = field(
        "env",
        wrapped("Vec", simple("String")),
        vec![each(vec![ident("each"), punct('='), lit("\"env\"")])],
    );
    match attr_builder_each(&f) {
        Some(EachPlan::Each { elem }) => assert_eq!(elem.text, "String"),
        _ => panic!("expected a pusher"),
    }
}

#[test]
fn misspelled_each_is_a_compile_error() {
    let f = field(
        "env",
        wrapped("Vec", simple("String")),
        vec![doc_attr(), each(vec![ident("eac"), punct('='), lit("\"env\"")])],
    );
    match attr_builder_each(&f) {
        Some(EachPlan::Error { attr }) => assert_eq!(attr, 1),
        _ => panic!("expected an error"),
    }
    assert_eq!(each_attr_panic(&f), None);
}

#[test]
fn malformed_builder_attributes_abort() {
    let vec_ty = || wrapped("Vec", simple("String"));
    let not_list = field("v", vec_ty(), vec![builder_attr(Meta::Path)]);
    assert_eq!(each_attr_panic(&not_list), Some(AttrPanic::NotList));
    let not_vec = field(
        "v",
        simple("String"),
        vec![each(vec![ident("each"), punct('='), lit("\"x\"")])],
    );
    assert_eq!(each_attr_panic(&not_vec), Some(AttrPanic::NotVec));
    let empty = field("v", vec_ty(), vec![each(vec![])]);
    assert_eq!(each_attr_panic(&empty), Some(AttrPanic::MissingEquals));
    let only_each = field("v", vec_ty(), vec![each(vec![ident("each")])]);
    assert_eq!(each_attr_panic(&only_each), Some(AttrPanic::MissingEquals));
    let no_eq = field("v", vec_ty(), vec![each(vec![ident("each"), punct(':'), lit("\"x\"")])]);
    assert_eq!(each_attr_panic(&no_eq), Some(AttrPanic::NotEquals));
    let no_name = field("v", vec_ty(), vec![each(vec![ident("each"), punct('=')])]);
    assert_eq!(each_attr_panic(&no_name), Some(AttrPanic::NoName));
    let not_lit = field("v", vec_ty(), vec![each(vec![ident("each"), punct('='), ident("x")])]);
    assert_eq!(each_attr_panic(&not_lit), Some(AttrPanic::NotLiteral));
}

#[test]
fn quotes_are_trimmed_from_the_name() {
    let f = field(
        "args",
        wrapped("Vec", simple("String")),
        vec![each(vec![ident("each"), punct('='), lit("\"\"arg\"\"")])],
    );
    match attr_builder_each(&f) {
        Some(EachPlan::EachAndSetter { each, .. }) => assert_eq!(each, "arg"),
        _ => panic!("expected a pusher and a setter"),
    }
}

#[test]
fn derive_plans_the_command_builder() {
    let input = DeriveInput {
        ident: "Command".to_string(),
        generics: Generics { params: vec![] },
        data: Data::NamedStruct(vec![
            field("executable", simple("String"), vec![]),
            field(
                "args",
                wrapped("Vec", simple("String")),
                vec![each(vec![ident("each"), punct('='), lit("\"arg\"")])],
            ),
            field(
                "env",
                wrapped("Vec", simple("String")),
                vec![each(vec![ident("each"), punct('='), lit("\"env\"")])],
            ),
            field("current_dir", wrapped("Option", simple("String")), vec![]),
        ]),
    };
    let plan = macro_workshop::builder::derive(&input);
    assert_eq!(plan.builder_name, "CommandBuilder");
    let wraps: Vec<bool> = plan.fields.iter().map(|f| f.wrap_in_option).collect();
    assert_eq!(wraps, vec![true, true, true, false]);
    let required: Vec<bool> = plan.fields.iter().map(|f| f.required).collect();
    assert_eq!(required, vec![true, true, true, false]);
    assert!(matches!(plan.fields[0].accessors, EachPlan::Setter { .. }));
    assert!(matches!(plan.fields[1].accessors, EachPlan::EachAndSetter { .. }));
    assert!(matches!(plan.fields[2].accessors, EachPlan::Each { .. }));
    assert!(matches!(plan.fields[3].accessors, EachPlan::Setter { .. }));
}

#[test]
fn qualified_option_is_wrapped_but_not_required() {
    let ty = path_ty(
        "std::option::Option<u8>",
        vec![
            seg("std", None),
            seg("option", None),
            seg("Option", Some(vec![GenericArgument::Type(simple("u8"))])),
        ],
    );
    let input = DeriveInput {
        ident: "S".to_string(),
        generics: Generics { params: vec![] },
        data: Data::NamedStruct(vec![field("x", ty, vec![])]),
    };
    let plan = macro_workshop::builder::derive(&input);
    assert!(plan.fields[0].wrap_in_option);
    assert!(!plan.fields[0].required);
}

#[test]
fn each_names_must_be_identifiers() {
    let vec_ty = || wrapped("Vec", simple("String"));
    for bad in ["\"a b\"", "\"r#x\"", "\"5\"", "\"\"", "\" a\"", "\"a-b\""] {
        let f = field("v", vec_ty(), vec![each(vec![ident("each"), punct('='), lit(bad)])]);
        assert_eq!(each_attr_panic(&f), Some(AttrPanic::InvalidName), "{}", bad);
    }
    for good in ["\"fn\"", "\"_x\"", "\"élan\""] {
        let f = field("v", vec_ty(), vec![each(vec![ident("each"), punct('='), lit(good)])]);
        assert_eq!(each_attr_panic(&f), None, "{}", good);
    }
}
