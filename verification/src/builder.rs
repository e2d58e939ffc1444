//! The `Builder` derive: for a struct with named fields, a companion
//! `<Name>Builder` struct whose fields are all optional, a setter per field
//! (or a one-at-a-time pusher for `#[builder(each = "..")]` fields) and a
//! `build` method that fails when a required field was never set.
use vstd::prelude::*;
use vstd::string::StrSliceExecFns;
use vstd::string::StringExecFns;
use crate::syntax::{Attribute, Data, DeriveInput, Field, GenericArgument, Meta, PathArguments, PathSegment, TokenTree, Ty, TyKind};
use crate::text::{string_eq_str, trim_matches_quotes, trim_quotes};

verus! {

/// The first type among generic arguments, if any.
pub open spec fn first_type_arg(args: Seq<GenericArgument>) -> Option<Ty>
    decreases args.len(),
{
    if args.len() == 0 {
        None
    } else {
        match args[0] {
            GenericArgument::Type(t) => Some(t),
            GenericArgument::Other => first_type_arg(args.drop_first()),
        }
    }
}

/// For a path type whose last segment is `outer<..>`, the first type
/// argument between its angle brackets; `None` for every other type.
pub open spec fn spec_extract_inner_from(ty: Ty, outer: Seq<char>) -> Option<Ty> {
    match ty.kind {
        TyKind::Path(segs) => {
            if segs@.len() == 0 {
                None
            } else if segs@.last().ident@ != outer {
                None
            } else {
                match segs@.last().arguments {
                    PathArguments::AngleBracketed(args) => first_type_arg(args@),
                    _ => None,
                }
            }
        },
        _ => None,
    }
}

/// Looks inside a wrapper type: `extract_inner_from(Option<T>, "Option")` is
/// `T` (also written `std::option::Option<T>`); any other shape gives `None`.
pub fn extract_inner_from<'a>(ty: &'a Ty, outer: &str) -> (r: Option<&'a Ty>)
    ensures
        match r {
            Some(t) => spec_extract_inner_from(*ty, outer@) == Some(*t),
            None => spec_extract_inner_from(*ty, outer@) is None,
        },
{
    let segs = match &ty.kind {
        TyKind::Path(segs) => segs,
        _ => return None,
    };
    if segs.len() == 0 {
        return None;
    }
    let segment = &segs[segs.len() - 1];
    if !string_eq_str(&segment.ident, outer) {
        return None;
    }
    let args = match &segment.arguments {
        PathArguments::AngleBracketed(args) => args,
        _ => return None,
    };
    let mut k: usize = 0;
    assert(args@.subrange(0, args@.len() as int) =~= args@);
    while k < args.len()
        invariant
            ty.kind == TyKind::Path(*segs),
            segs@.len() > 0,
            segs@.last() == *segment,
            segment.ident@ == outer@,
            segment.arguments == PathArguments::AngleBracketed(*args),
            k <= args@.len(),
            first_type_arg(args@) == first_type_arg(args@.subrange(k as int, args@.len() as int)),
        decreases args@.len() - k,
    {
        assert(args@.subrange(k as int, args@.len() as int).drop_first()
            =~= args@.subrange(k + 1, args@.len() as int));
        assert(args@.subrange(k as int, args@.len() as int)[0] == args@[k as int]);
        match &args[k] {
            GenericArgument::Type(inner) => {
                assert(first_type_arg(args@) == Some(*inner));
                return Some(inner);
            },
            GenericArgument::Other => {},
        }
        k = k + 1;
    }
    None
}

/// Whether an attribute is `#[builder(..)]`: a one-segment path `builder`.
pub open spec fn is_builder_attr(a: Attribute) -> bool {
    a.path.segments@.len() == 1 && a.path.segments@[0].ident@ == "builder"@
}

/// `i` is the position of the first `#[builder]` attribute.
pub open spec fn is_first_builder_attr(attrs: Seq<Attribute>, i: int) -> bool {
    &&& 0 <= i < attrs.len()
    &&& is_builder_attr(attrs[i])
    &&& forall|j: int| 0 <= j < i ==> !is_builder_attr(#[trigger] attrs[j])
}

/// The ways in which reading a `#[builder]` attribute aborts the expansion.
#[derive(Clone, Copy, Debug, PartialEq, Eq, Structural)]
pub enum AttrPanic {
    /// The attribute is not of the form `#[builder(..)]`.
    NotList,
    /// The field's type is not a `Vec<..>`.
    NotVec,
    /// There is no second token.
    MissingEquals,
    /// The second token is not `=`.
    NotEquals,
    /// Nothing follows the `=`.
    NoName,
    /// What follows the `=` is not a literal.
    NotLiteral,
    /// The literal, without its quotes, is not an identifier.
    InvalidName,
}

/// What `syn` makes of the text read as one identifier, keywords included,
/// printed back: `None` when the text is not exactly one identifier token.
pub uninterp spec fn lexed_ident(text: Seq<char>) -> Option<Seq<char>>;

/// Reads the text with `syn::parse::Parser::parse_str` and
/// `syn::ext::IdentExt::parse_any`, and prints the identifier back with its
/// `to_string`.  Claims only that the outcome is a function of the text, named
/// [`lexed_ident`].
#[verifier::external_body]
fn lex_ident(text: &str) -> (r: Option<String>)
    ensures
        match r {
            Some(s) => lexed_ident(text@) == Some(s@),
            None => lexed_ident(text@) is None,
        },
{
    syn::parse::Parser::parse_str(<syn::Ident as syn::ext::IdentExt>::parse_any, text).ok().map(
        |ident| ident.to_string(),
    )
}

/// Whether `proc_macro2::Ident::new` takes the text as the name of an
/// identifier: the text is one identifier token exactly as written (so no
/// space, no comment, not empty, not a number), and not a raw identifier.
pub open spec fn is_ident_name(s: Seq<char>) -> bool {
    &&& lexed_ident(s) == Some(s)
    &&& !(s.len() >= 2 && s[0] == 'r' && s[1] == '#')
}

fn ident_name_ok(s: &String) -> (r: bool)
    ensures
        r == is_ident_name(s@),
{
    let lexed = match lex_ident(s.as_str()) {
        Some(l) => l,
        None => return false,
    };
    if lexed != *s {
        return false;
    }
    let text = s.as_str();
    let raw = text.unicode_len() >= 2 && text.get_char(0) == 'r' && text.get_char(1) == '#';
    !raw
}

/// What the accessors of a field are, in terms of plain values.
pub enum EachOutcome {
    /// A plain setter named like the field.
    Setter,
    /// Only a one-at-a-time pusher, named like the field.
    Each,
    /// A pusher with the given name, and a plain setter named like the field.
    EachAndSetter(Seq<char>),
    /// A compile error on the tokens of the attribute at this position.
    Error(int),
    /// The expansion aborts.
    Panic(AttrPanic),
}

/// The accessors that the attribute at position `i` asks for.
pub open spec fn outcome_for_attr(f: Field, i: int) -> EachOutcome {
    match f.attrs@[i].meta {
        Meta::List(toks) => {
            let t = toks@;
            if spec_extract_inner_from(f.ty, "Vec"@) is None {
                EachOutcome::Panic(AttrPanic::NotVec)
            } else if t.len() >= 1 && t[0].text() != "each"@ {
                EachOutcome::Error(i)
            } else if t.len() < 2 {
                EachOutcome::Panic(AttrPanic::MissingEquals)
            } else if t[1].text() != "="@ {
                EachOutcome::Panic(AttrPanic::NotEquals)
            } else if t.len() < 3 {
                EachOutcome::Panic(AttrPanic::NoName)
            } else {
                match t[2] {
                    TokenTree::Literal(s) => {
                        let name = trim_quotes(s@);
                        if !is_ident_name(name) {
                            EachOutcome::Panic(AttrPanic::InvalidName)
                        } else if name == f.ident@ {
                            EachOutcome::Each
                        } else {
                            EachOutcome::EachAndSetter(name)
                        }
                    },
                    _ => EachOutcome::Panic(AttrPanic::NotLiteral),
                }
            }
        },
        _ => EachOutcome::Panic(AttrPanic::NotList),
    }
}

/// The accessors of a field: decided by its first `#[builder]` attribute,
/// a plain setter when it has none.
pub open spec fn spec_each_outcome(f: Field) -> EachOutcome {
    if exists|i: int| is_first_builder_attr(f.attrs@, i) {
        outcome_for_attr(f, choose|i: int| is_first_builder_attr(f.attrs@, i))
    } else {
        EachOutcome::Setter
    }
}

/// The type a plain setter takes: the inner type of an `Option<T>` field,
/// the field's own type otherwise.
pub open spec fn setter_ty(f: Field) -> Ty {
    match spec_extract_inner_from(f.ty, "Option"@) {
        Some(t) => t,
        None => f.ty,
    }
}

/// The element type of a `Vec<T>` field.
pub open spec fn vec_elem_ty(f: Field) -> Ty {
    spec_extract_inner_from(f.ty, "Vec"@).unwrap()
}

/// The accessor methods generated for one field of the builder.
pub enum EachPlan<'a> {
    /// `pub fn <field>(&mut self, <field>: ty) -> &mut Self`
    Setter { ty: &'a Ty },
    /// `pub fn <field>(&mut self, <field>: elem) -> &mut Self`, pushing one element.
    Each { elem: &'a Ty },
    /// A pusher `pub fn <each>(&mut self, <each>: elem)` and a setter named like the field.
    EachAndSetter { each: String, elem: &'a Ty, ty: &'a Ty },
    /// `expected \`builder(each = "...")\``, on the tokens of the attribute at `attr`.
    Error { attr: usize },
}

impl<'a> EachPlan<'a> {
    /// The plan carries out the outcome that the field's attributes ask for.
    pub open spec fn agrees_with(self, f: Field) -> bool {
        match self {
            EachPlan::Setter { ty } => spec_each_outcome(f) is Setter && *ty == setter_ty(f),
            EachPlan::Each { elem } => spec_each_outcome(f) is Each && *elem == vec_elem_ty(f),
            EachPlan::EachAndSetter { each, elem, ty } => {
                &&& spec_each_outcome(f) == EachOutcome::EachAndSetter(each@)
                &&& *elem == vec_elem_ty(f)
                &&& *ty == setter_ty(f)
            },
            EachPlan::Error { attr } => spec_each_outcome(f) == EachOutcome::Error(attr as int),
        }
    }
}

proof fn lemma_first_builder_attr_unique(attrs: Seq<Attribute>, i: int, j: int)
    requires
        is_first_builder_attr(attrs, i),
        is_first_builder_attr(attrs, j),
    ensures
        i == j,
{
    if i < j {
        assert(!is_builder_attr(attrs[i]));
    } else if j < i {
        assert(!is_builder_attr(attrs[j]));
    }
}

fn setter_type_of(f: &Field) -> (r: &Ty)
    ensures
        *r == setter_ty(*f),
{
    match extract_inner_from(&f.ty, "Option") {
        Some(t) => t,
        None => &f.ty,
    }
}

fn is_builder_attribute(a: &Attribute) -> (r: bool)
    ensures
        r == is_builder_attr(*a),
{
    a.path.segments.len() == 1 && string_eq_str(&a.path.segments[0].ident, "builder")
}

/// The accessors of a field, or the way in which reading its attribute aborts.
fn each_outcome(f: &Field) -> (r: Result<EachPlan<'_>, AttrPanic>)
    ensures
        match r {
            Ok(p) => p.agrees_with(*f),
            Err(e) => spec_each_outcome(*f) == EachOutcome::Panic(e),
        },
{
    let mut i: usize = 0;
    while i < f.attrs.len()
        invariant
            i <= f.attrs@.len(),
            forall|j: int| 0 <= j < i ==> !is_builder_attr(#[trigger] f.attrs@[j]),
        decreases f.attrs@.len() - i,
    {
        if is_builder_attribute(&f.attrs[i]) {
            proof {
                assert(is_first_builder_attr(f.attrs@, i as int));
                let c = choose|c: int| is_first_builder_attr(f.attrs@, c);
                lemma_first_builder_attr_unique(f.attrs@, i as int, c);
            }
            return each_outcome_for_attr(f, i);
        }
        i = i + 1;
    }
    assert(!exists|c: int| is_first_builder_attr(f.attrs@, c));
    Ok(EachPlan::Setter { ty: setter_type_of(f) })
}

fn each_outcome_for_attr(f: &Field, i: usize) -> (r: Result<EachPlan<'_>, AttrPanic>)
    requires
        i < f.attrs@.len(),
    ensures
        match r {
            Ok(p) => match p {
                EachPlan::Setter { .. } => false,
                EachPlan::Each { elem } => outcome_for_attr(*f, i as int) is Each && *elem == vec_elem_ty(*f),
                EachPlan::EachAndSetter { each, elem, ty } => {
                    &&& outcome_for_attr(*f, i as int) == EachOutcome::EachAndSetter(each@)
                    &&& *elem == vec_elem_ty(*f)
                    &&& *ty == setter_ty(*f)
                },
                EachPlan::Error { attr } => outcome_for_attr(*f, i as int) == EachOutcome::Error(attr as int),
            },
            Err(e) => outcome_for_attr(*f, i as int) == EachOutcome::Panic(e),
        },
{
    let toks = match &f.attrs[i].meta {
        Meta::List(toks) => toks,
        _ => return Err(AttrPanic::NotList),
    };
    let elem = match extract_inner_from(&f.ty, "Vec") {
        Some(elem) => elem,
        None => return Err(AttrPanic::NotVec),
    };
    if toks.len() >= 1 && !token_text_is(&toks[0], "each") {
        return Ok(EachPlan::Error { attr: i });
    }
    if toks.len() < 2 {
        return Err(AttrPanic::MissingEquals);
    }
    if !token_text_is(&toks[1], "=") {
        return Err(AttrPanic::NotEquals);
    }
    if toks.len() < 3 {
        return Err(AttrPanic::NoName);
    }
    match &toks[2] {
        TokenTree::Literal(s) => {
            let name = trim_matches_quotes(s.as_str());
            if !ident_name_ok(&name) {
                Err(AttrPanic::InvalidName)
            } else if name == f.ident {
                Ok(EachPlan::Each { elem })
            } else {
                Ok(EachPlan::EachAndSetter { each: name, elem, ty: setter_type_of(f) })
            }
        },
        _ => Err(AttrPanic::NotLiteral),
    }
}

/// Whether a token prints exactly as `s`.
fn token_text_is(t: &TokenTree, s: &str) -> (r: bool)
    ensures
        r == (t.text() == s@),
{
    let printed: &String = match t {
        TokenTree::Group { text: g, .. } => g,
        TokenTree::Ident(name) => name,
        TokenTree::Literal(lit) => lit,
        TokenTree::Punct { ch, .. } => {
            if s.unicode_len() != 1 {
                return false;
            }
            let c = s.get_char(0);
            assert(s@ =~= seq![c]);
            proof {
                if seq![*ch] == s@ {
                    assert(seq![*ch][0] == s@[0]);
                }
            }
            return c == *ch;
        },
    };
    string_eq_str(printed, s)
}

/// Whether reading a field's `#[builder]` attribute aborts the expansion.
pub open spec fn each_attr_panics(f: Field) -> bool {
    spec_each_outcome(f) is Panic
}

/// The accessor methods of one field of the builder: a setter named like the
/// field, or, for `#[builder(each = "name")]` on a `Vec` field, a pusher of
/// one element (plus the setter when `name` differs from the field's name),
/// or a compile error when the attribute's first token is not `each`.
/// Always `Some`.
pub fn attr_builder_each(f: &Field) -> (r: Option<EachPlan<'_>>)
    requires
        !each_attr_panics(*f),
    ensures
        r matches Some(p) && p.agrees_with(*f),
{
    match each_outcome(f) {
        Ok(p) => Some(p),
        Err(_) => None,
    }
}

/// How reading a field's `#[builder]` attribute aborts the expansion, if it does.
pub fn each_attr_panic(f: &Field) -> (r: Option<AttrPanic>)
    ensures
        r is None <==> !each_attr_panics(*f),
        r matches Some(e) ==> spec_each_outcome(*f) == EachOutcome::Panic(e),
{
    match each_outcome(f) {
        Ok(_) => None,
        Err(e) => Some(e),
    }
}

/// A type whose path is empty: no parsed type has that shape.
pub open spec fn is_empty_path(ty: Ty) -> bool {
    ty.kind matches TyKind::Path(segs) && segs@.len() == 0
}

/// Whether the builder keeps a field under its own type, which it does when
/// the type is a path whose first segment is `Option`; every other field is
/// kept as `std::option::Option<type>`.
pub open spec fn kept_as_is(ty: Ty) -> bool {
    ty.kind matches TyKind::Path(segs) && segs@[0].ident@ == "Option"@
}

/// Whether `build` requires the field to have been set: every field whose
/// type is not an `Option<..>` (by its last path segment).
pub open spec fn is_required(ty: Ty) -> bool {
    spec_extract_inner_from(ty, "Option"@) is None
}

/// The builder's name for a struct: the struct's name followed by `Builder`.
pub open spec fn builder_name(ident: Seq<char>) -> Seq<char> {
    ident + "Builder"@
}

/// What the builder does with one field of the struct.
pub struct BuilderField<'a> {
    /// The builder stores the field as `std::option::Option<type>` (else as its own type).
    pub wrap_in_option: bool,
    /// The accessor methods for the field.
    pub accessors: EachPlan<'a>,
    /// `build` fails with "<field> is not set" when the field was never set
    /// (else it clones the stored value).
    pub required: bool,
}

/// The expansion of `#[derive(Builder)]`: a struct `<builder_name>` with one
/// field per field of the input, all starting as `None`, the accessors, a
/// `build` method, and `<input>::builder()`.
pub struct BuilderPlan<'a> {
    pub builder_name: String,
    pub fields: Vec<BuilderField<'a>>,
}

/// The derive input can be expanded: a struct with named fields, no field
/// type with an empty path, and no field whose `#[builder]` attribute aborts.
pub open spec fn derive_accepts(input: DeriveInput) -> bool {
    input.data matches Data::NamedStruct(fields) && forall|k: int|
        0 <= k < fields@.len() ==> {
            &&& !is_empty_path(#[trigger] fields@[k].ty)
            &&& !each_attr_panics(fields@[k])
        }
}

/// The fields of a struct with named fields.
pub open spec fn named_fields(input: DeriveInput) -> Seq<Field> {
    match input.data {
        Data::NamedStruct(fields) => fields@,
        Data::Other => Seq::empty(),
    }
}

/// The plan agrees, field by field, with what the fields ask for.
pub open spec fn plan_agrees(plan: BuilderPlan, input: DeriveInput) -> bool {
    let fields = named_fields(input);
    &&& plan.builder_name@ == builder_name(input.ident@)
    &&& plan.fields@.len() == fields.len()
    &&& forall|k: int| 0 <= k < fields.len() ==> {
        let pf = #[trigger] plan.fields@[k];
        &&& pf.wrap_in_option == !kept_as_is(fields[k].ty)
        &&& pf.accessors.agrees_with(fields[k])
        &&& pf.required == is_required(fields[k].ty)
    }
}

fn first_segment_is_option(ty: &Ty) -> (r: bool)
    requires
        !is_empty_path(*ty),
    ensures
        r == kept_as_is(*ty),
{
    match &ty.kind {
        TyKind::Path(segs) => string_eq_str(&segs[0].ident, "Option"),
        _ => false,
    }
}

/// Plans `#[derive(Builder)]` for a struct with named fields.
pub fn derive(input: &DeriveInput) -> (r: BuilderPlan<'_>)
    requires
        derive_accepts(*input),
    ensures
        plan_agrees(r, *input),
{
    let fields = match &input.data {
        Data::NamedStruct(fields) => fields,
        Data::Other => {
            assert(false);
            return BuilderPlan { builder_name: String::new(), fields: Vec::new() };
        },
    };
    let builder_name = input.ident.clone().concat("Builder");
    let mut planned: Vec<BuilderField<'_>> = Vec::new();
    let mut k: usize = 0;
    while k < fields.len()
        invariant
            input.data == Data::NamedStruct(*fields),
            derive_accepts(*input),
            k <= fields@.len(),
            planned@.len() == k,
            forall|j: int| 0 <= j < k ==> {
                let pf = #[trigger] planned@[j];
                &&& pf.wrap_in_option == !kept_as_is(fields@[j].ty)
                &&& pf.accessors.agrees_with(fields@[j])
                &&& pf.required == is_required(fields@[j].ty)
            },
        decreases fields@.len() - k,
    {
        let f = &fields[k];
        assert(!is_empty_path(fields@[k as int].ty) && !each_attr_panics(fields@[k as int]));
        let wrap_in_option = !first_segment_is_option(&f.ty);
        let accessors = match attr_builder_each(f) {
            Some(p) => p,
            None => {
                assert(false);
                return BuilderPlan { builder_name, fields: planned };
            },
        };
        let required = extract_inner_from(&f.ty, "Option").is_none();
        planned.push(BuilderField { wrap_in_option, accessors, required });
        k = k + 1;
    }
    BuilderPlan { builder_name, fields: planned }
}

/// The only segment of a one-segment path type.
pub open spec fn single_segment(ty: Ty) -> Option<PathSegment> {
    match ty.kind {
        TyKind::Path(segs) => if segs@.len() == 1 {
            Some(segs@[0])
        } else {
            None
        },
        _ => None,
    }
}

/// The generic arguments between a segment's angle brackets.
pub open spec fn angle_args(seg: PathSegment) -> Seq<GenericArgument> {
    match seg.arguments {
        PathArguments::AngleBracketed(args) => args@,
        _ => Seq::empty(),
    }
}

/// Law: a field declared `Option<T>` is kept as it is by the builder, `build`
/// does not require it, and its setter takes a `T`.
pub proof fn lemma_option_field_is_optional(f: Field, seg: PathSegment, t: Ty)
    requires
        single_segment(f.ty) == Some(seg),
        seg.ident@ == "Option"@,
        seg.arguments is AngleBracketed,
        first_type_arg(angle_args(seg)) == Some(t),
    ensures
        kept_as_is(f.ty),
        !is_required(f.ty),
        setter_ty(f) == t,
{
}

/// Law: a field whose type is a one-segment path other than `Option` is
/// stored as `Option<type>`, `build` requires it, and its setter takes the
/// field's type.
pub proof fn lemma_plain_field_is_required(f: Field, seg: PathSegment)
    requires
        single_segment(f.ty) == Some(seg),
        seg.ident@ != "Option"@,
    ensures
        !kept_as_is(f.ty),
        is_required(f.ty),
        setter_ty(f) == f.ty,
{
}

/// Law: the builder keeps a field under its own type exactly when that type
/// is a path whose first segment is `Option`; a field of any other type (a
/// tuple, a reference, an array, or a path that starts otherwise) is stored
/// as `std::option::Option<type>`.
pub proof fn lemma_builder_storage(plan: BuilderPlan, input: DeriveInput, k: int)
    requires
        derive_accepts(input),
        plan_agrees(plan, input),
        0 <= k < named_fields(input).len(),
    ensures
        !(named_fields(input)[k].ty.kind is Path) ==> plan.fields@[k].wrap_in_option,
        named_fields(input)[k].ty.kind matches TyKind::Path(segs) ==> (plan.fields@[k].wrap_in_option
            <==> segs@[0].ident@ != "Option"@),
{
    let pf = plan.fields@[k];
}

/// Law: looking inside a wrapper type finds the first type argument of a
/// path type whose last segment is the wrapper's name, skipping arguments
/// that are not types (lifetimes, constants, ...), whatever the segments
/// before it (`Option<T>` and `std::option::Option<T>` alike).
pub proof fn lemma_extract_inner_found(ty: Ty, outer: Seq<char>, args: Seq<GenericArgument>, i: int, t: Ty)
    requires
        ty.kind is Path,
        ty.kind->Path_0@.len() > 0,
        ty.kind->Path_0@.last().ident@ == outer,
        ty.kind->Path_0@.last().arguments is AngleBracketed,
        ty.kind->Path_0@.last().arguments->AngleBracketed_0@ == args,
        0 <= i < args.len(),
        args[i] == GenericArgument::Type(t),
        forall|j: int| 0 <= j < i ==> #[trigger] args[j] is Other,
    ensures
        spec_extract_inner_from(ty, outer) == Some(t),
{
    lemma_first_type_arg(args, i, t);
}

proof fn lemma_first_type_arg(args: Seq<GenericArgument>, i: int, t: Ty)
    requires
        0 <= i < args.len(),
        args[i] == GenericArgument::Type(t),
        forall|j: int| 0 <= j < i ==> #[trigger] args[j] is Other,
    ensures
        first_type_arg(args) == Some(t),
    decreases i,
{
    if i > 0 {
        assert(args[0] is Other);
        assert forall|j: int| 0 <= j < i - 1 implies #[trigger] args.drop_first()[j] is Other by {
            assert(args.drop_first()[j] == args[j + 1]);
        }
        lemma_first_type_arg(args.drop_first(), i - 1, t);
    }
}

/// Law: every other type has nothing inside for the wrapper: a type that is
/// not a path, a path whose last segment has another name, a last segment
/// without angle brackets, or angle brackets that hold no type.
pub proof fn lemma_extract_inner_none(ty: Ty, outer: Seq<char>)
    ensures
        !(ty.kind is Path) ==> spec_extract_inner_from(ty, outer) is None,
        ty.kind is Path && ty.kind->Path_0@.len() > 0 && ty.kind->Path_0@.last().ident@ != outer
            ==> spec_extract_inner_from(ty, outer) is None,
        ty.kind is Path && ty.kind->Path_0@.len() > 0 && !(ty.kind->Path_0@.last().arguments is AngleBracketed)
            ==> spec_extract_inner_from(ty, outer) is None,
        ty.kind is Path && ty.kind->Path_0@.len() > 0 && ty.kind->Path_0@.last().arguments is AngleBracketed && (
        forall|j: int|
            0 <= j < ty.kind->Path_0@.last().arguments->AngleBracketed_0@.len()
                ==> #[trigger] ty.kind->Path_0@.last().arguments->AngleBracketed_0@[j] is Other)
            ==> spec_extract_inner_from(ty, outer) is None,
{
    if ty.kind is Path && ty.kind->Path_0@.len() > 0 && ty.kind->Path_0@.last().arguments is AngleBracketed {
        let args = ty.kind->Path_0@.last().arguments->AngleBracketed_0@;
        if forall|j: int| 0 <= j < args.len() ==> #[trigger] args[j] is Other {
            lemma_no_type_arg(args);
        }
    }
}

proof fn lemma_no_type_arg(args: Seq<GenericArgument>)
    requires
        forall|j: int| 0 <= j < args.len() ==> #[trigger] args[j] is Other,
    ensures
        first_type_arg(args) is None,
    decreases args.len(),
{
    if args.len() > 0 {
        assert(args[0] is Other);
        assert forall|j: int| 0 <= j < args.len() - 1 implies #[trigger] args.drop_first()[j] is Other by {
            assert(args.drop_first()[j] == args[j + 1]);
        }
        lemma_no_type_arg(args.drop_first());
    }
}

/// Law: the builder is named after the struct with `Builder` appended and
/// has one entry per field, in order; `build` requires exactly the fields
/// that are not `Option<..>` (by the last segment of their path), and a
/// plain setter takes the type inside such an `Option`, else the field's type.
pub proof fn lemma_builder_plan(plan: BuilderPlan, input: DeriveInput, k: int)
    requires
        derive_accepts(input),
        plan_agrees(plan, input),
        0 <= k < named_fields(input).len(),
    ensures
        plan.builder_name@ == input.ident@ + "Builder"@,
        plan.fields@.len() == named_fields(input).len(),
        plan.fields@[k].required <==> spec_extract_inner_from(named_fields(input)[k].ty, "Option"@) is None,
        plan.fields@[k].accessors matches EachPlan::Setter { ty } ==> (spec_extract_inner_from(
            named_fields(input)[k].ty,
            "Option"@,
        ) matches Some(inner) ==> *ty == inner) && (spec_extract_inner_from(named_fields(input)[k].ty, "Option"@)
            is None ==> *ty == named_fields(input)[k].ty),
        plan.fields@[k].accessors matches EachPlan::Each { elem } ==> spec_extract_inner_from(
            named_fields(input)[k].ty,
            "Vec"@,
        ) == Some(*elem),
        plan.fields@[k].accessors matches EachPlan::EachAndSetter { elem, ty, .. } ==> spec_extract_inner_from(
            named_fields(input)[k].ty,
            "Vec"@,
        ) == Some(*elem) && (spec_extract_inner_from(named_fields(input)[k].ty, "Option"@) is None ==> *ty
            == named_fields(input)[k].ty),
{
    let pf = plan.fields@[k];
}

/// Law: the first `#[builder]` attribute of a field decides its accessors.
/// It aborts the expansion unless it is a list `#[builder(..)]` on a `Vec`
/// field; a list whose first token is not `each` gives a compile error on
/// that attribute; a list that stops before the `=`, or whose second token
/// is not `=`, or that stops after it, or where a non-literal follows it,
/// aborts.
pub proof fn lemma_builder_attr_refusals(f: Field, i: int)
    requires
        0 <= i < f.attrs@.len(),
        f.attrs@[i].path.segments@.len() == 1,
        f.attrs@[i].path.segments@[0].ident@ == "builder"@,
        forall|j: int|
            0 <= j < i ==> !(#[trigger] f.attrs@[j].path.segments@.len() == 1 && f.attrs@[j].path.segments@[0].ident@
                == "builder"@),
    ensures
        !(f.attrs@[i].meta is List) ==> spec_each_outcome(f) == EachOutcome::Panic(AttrPanic::NotList),
        f.attrs@[i].meta is List && spec_extract_inner_from(f.ty, "Vec"@) is None ==> spec_each_outcome(f)
            == EachOutcome::Panic(AttrPanic::NotVec),
        f.attrs@[i].meta is List && spec_extract_inner_from(f.ty, "Vec"@) is Some ==> {
            let t = f.attrs@[i].meta->List_0@;
            &&& t.len() >= 1 && t[0].text() != "each"@ ==> spec_each_outcome(f) == EachOutcome::Error(i)
            &&& t.len() <= 1 && !(t.len() == 1 && t[0].text() != "each"@) ==> spec_each_outcome(f)
                == EachOutcome::Panic(AttrPanic::MissingEquals)
            &&& t.len() >= 2 && t[0].text() == "each"@ && t[1].text() != "="@ ==> spec_each_outcome(f)
                == EachOutcome::Panic(AttrPanic::NotEquals)
            &&& t.len() == 2 && t[0].text() == "each"@ && t[1].text() == "="@ ==> spec_each_outcome(f)
                == EachOutcome::Panic(AttrPanic::NoName)
            &&& t.len() >= 3 && t[0].text() == "each"@ && t[1].text() == "="@ && !(t[2] is Literal)
                ==> spec_each_outcome(f) == EachOutcome::Panic(AttrPanic::NotLiteral)
        },
{
    assert(is_first_builder_attr(f.attrs@, i));
    let c = choose|c: int| is_first_builder_attr(f.attrs@, c);
    lemma_first_builder_attr_unique(f.attrs@, i, c);
}

/// Law: a field none of whose attributes is `#[builder..]` gets a plain
/// setter, whatever other attributes it carries.
pub proof fn lemma_no_builder_attr_setter(f: Field)
    requires
        forall|j: int|
            0 <= j < f.attrs@.len() ==> !(#[trigger] f.attrs@[j].path.segments@.len() == 1
                && f.attrs@[j].path.segments@[0].ident@ == "builder"@),
    ensures
        spec_each_outcome(f) == EachOutcome::Setter,
{
    if exists|i: int| is_first_builder_attr(f.attrs@, i) {
        let i = choose|i: int| is_first_builder_attr(f.attrs@, i);
        assert(is_builder_attr(f.attrs@[i]));
    }
}

/// Law: a name given by `each` must be one identifier token as written and
/// not a raw identifier (`r#..`): text that does not lex back to itself, such
/// as `a b`, and raw identifiers are refused.
pub proof fn lemma_ident_names(s: Seq<char>)
    ensures
        lexed_ident(s) != Some(s) ==> !is_ident_name(s),
        s.len() >= 2 && s[0] == 'r' && s[1] == '#' ==> !is_ident_name(s),
        lexed_ident(s) == Some(s) && !(s.len() >= 2 && s[0] == 'r' && s[1] == '#') ==> is_ident_name(s),
{
}

/// Law: a field without a `#[builder]` attribute gets a plain setter.
pub proof fn lemma_unmarked_field_gets_setter(f: Field)
    requires
        forall|k: int| 0 <= k < f.attrs@.len() ==> !is_builder_attr(#[trigger] f.attrs@[k]),
    ensures
        spec_each_outcome(f) is Setter,
{
}

/// Law: `#[builder(each = "name")]` on a `Vec<T>` field, as its first
/// `#[builder]` attribute, gives a pusher of `T` named `name`, alone when
/// `name` is the field's own name and beside the setter otherwise; a `name`
/// that is not an identifier aborts the expansion.
pub proof fn lemma_each_attribute(f: Field, i: int, toks: Vec<TokenTree>, each: String, lit: String)
    requires
        is_first_builder_attr(f.attrs@, i),
        f.attrs@[i].meta == Meta::List(toks),
        toks@.len() >= 3,
        toks@[0] == TokenTree::Ident(each),
        each@ == "each"@,
        toks@[1] is Punct,
        toks@[1]->ch == '=',
        toks@[2] == TokenTree::Literal(lit),
        spec_extract_inner_from(f.ty, "Vec"@) is Some,
    ensures
        !is_ident_name(trim_quotes(lit@)) ==> spec_each_outcome(f) == EachOutcome::Panic(AttrPanic::InvalidName),
        is_ident_name(trim_quotes(lit@)) && trim_quotes(lit@) == f.ident@ ==> spec_each_outcome(f) is Each,
        is_ident_name(trim_quotes(lit@)) && trim_quotes(lit@) != f.ident@ ==> spec_each_outcome(f)
            == EachOutcome::EachAndSetter(trim_quotes(lit@)),
{
    let c = choose|c: int| is_first_builder_attr(f.attrs@, c);
    lemma_first_builder_attr_unique(f.attrs@, i, c);
    assert(toks@[1].text() =~= "="@) by {
        reveal_strlit("=");
    }
}

} // verus!
