//! The `CustomDebug` derive: a `Debug` impl that prints every named field,
//! through the format string of a `#[debug = "..."]` attribute when the field
//! has one, and that asks for `Debug` on the item's type parameters.
use vstd::prelude::*;
use vstd::string::StringExecFns;
use crate::syntax::{
    Attribute, AttrValue, Data, DeriveInput, Field, GenericArgument, GenericParam, Generics, Meta,
    PathArguments, PathSegment, TyKind,
};
use crate::text::{string_eq_str, views};

verus! {

/// Whether an attribute is `#[debug = ..]`: a one-segment path `debug` with a value.
pub open spec fn is_debug_attr(a: Attribute) -> bool {
    &&& a.meta is NameValue
    &&& a.path.segments@.len() == 1
    &&& a.path.segments@[0].ident@ == "debug"@
}

/// The format string of the first `#[debug = ..]` attribute, if its value
/// is a string literal.
pub open spec fn spec_extract_debug(attrs: Seq<Attribute>) -> Option<Seq<char>>
    decreases attrs.len(),
{
    if attrs.len() == 0 {
        None
    } else if is_debug_attr(attrs[0]) {
        match attrs[0].meta {
            Meta::NameValue(AttrValue::Str(s)) => Some(s@),
            _ => None,
        }
    } else {
        spec_extract_debug(attrs.drop_first())
    }
}

/// Law: the format string comes from the first attribute written
/// `#[debug = value]` (a one-segment path `debug` with a value): it is the
/// value when that is a string literal, and there is none otherwise; the
/// attributes before it, whatever their names, play no part.
pub proof fn lemma_extract_debug_first_debug_attr(attrs: Seq<Attribute>, i: int)
    requires
        0 <= i < attrs.len(),
        attrs[i].meta is NameValue,
        attrs[i].path.segments@.len() == 1,
        attrs[i].path.segments@[0].ident@ == "debug"@,
        forall|j: int|
            0 <= j < i ==> !(#[trigger] attrs[j].meta is NameValue && attrs[j].path.segments@.len() == 1
                && attrs[j].path.segments@[0].ident@ == "debug"@),
    ensures
        spec_extract_debug(attrs) == match attrs[i].meta {
            Meta::NameValue(AttrValue::Str(s)) => Some(s@),
            _ => None,
        },
    decreases i,
{
    if i > 0 {
        assert(!is_debug_attr(attrs[0]));
        assert forall|j: int|
            0 <= j < i - 1 implies !(#[trigger] attrs.drop_first()[j].meta is NameValue
            && attrs.drop_first()[j].path.segments@.len() == 1
            && attrs.drop_first()[j].path.segments@[0].ident@ == "debug"@) by {
            assert(attrs.drop_first()[j] == attrs[j + 1]);
        }
        lemma_extract_debug_first_debug_attr(attrs.drop_first(), i - 1);
    }
}

/// Law: a field none of whose attributes is written `#[debug = value]` has
/// no format string, whatever other `name = value` attributes (such as doc
/// comments) it carries.
pub proof fn lemma_extract_debug_needs_debug_attr(attrs: Seq<Attribute>)
    requires
        forall|j: int|
            0 <= j < attrs.len() ==> !(#[trigger] attrs[j].meta is NameValue && attrs[j].path.segments@.len()
                == 1 && attrs[j].path.segments@[0].ident@ == "debug"@),
    ensures
        spec_extract_debug(attrs) is None,
    decreases attrs.len(),
{
    if attrs.len() > 0 {
        assert(!is_debug_attr(attrs[0]));
        assert forall|j: int|
            0 <= j < attrs.len() - 1 implies !(#[trigger] attrs.drop_first()[j].meta is NameValue
            && attrs.drop_first()[j].path.segments@.len() == 1
            && attrs.drop_first()[j].path.segments@[0].ident@ == "debug"@) by {
            assert(attrs.drop_first()[j] == attrs[j + 1]);
        }
        lemma_extract_debug_needs_debug_attr(attrs.drop_first());
    }
}

/// The format string a field asks to be printed with, from its first
/// `#[debug = "..."]` attribute (`None` when that attribute's value is not a
/// string literal, or when there is no such attribute).
pub fn extract_debug(field: &Field) -> (r: Option<String>)
    ensures
        match r {
            Some(s) => spec_extract_debug(field.attrs@) == Some(s@),
            None => spec_extract_debug(field.attrs@) is None,
        },
{
    let attrs = &field.attrs;
    let mut k: usize = 0;
    assert(attrs@.subrange(0, attrs@.len() as int) =~= attrs@);
    while k < attrs.len()
        invariant
            attrs@ == field.attrs@,
            k <= attrs@.len(),
            spec_extract_debug(attrs@) == spec_extract_debug(attrs@.subrange(k as int, attrs@.len() as int)),
        decreases attrs@.len() - k,
    {
        let a = &attrs[k];
        assert(attrs@.subrange(k as int, attrs@.len() as int)[0] == attrs@[k as int]);
        assert(attrs@.subrange(k as int, attrs@.len() as int).drop_first()
            =~= attrs@.subrange(k + 1, attrs@.len() as int));
        let is_debug = match &a.meta {
            Meta::NameValue(_) => a.path.segments.len() == 1 && string_eq_str(
                &a.path.segments[0].ident,
                "debug",
            ),
            _ => false,
        };
        if is_debug {
            return match &a.meta {
                Meta::NameValue(AttrValue::Str(s)) => {
                    let c = s.clone();
                    assert(c@ == s@);
                    Some(c)
                },
                _ => None,
            };
        }
        k = k + 1;
    }
    None
}

/// The bound that `CustomDebug` adds to every type parameter.
pub open spec fn debug_bound() -> Seq<char> {
    "std::fmt::Debug"@
}

/// `new` is `old` with `std::fmt::Debug` added to the bounds of a type parameter.
pub open spec fn bounded_param(old: GenericParam, new: GenericParam) -> bool {
    match (old, new) {
        (GenericParam::Type { ident: i1, bounds: b1 }, GenericParam::Type { ident: i2, bounds: b2 }) => {
            i2@ == i1@ && views(b2@) == views(b1@).push(debug_bound())
        },
        (GenericParam::Lifetime, GenericParam::Lifetime) => true,
        (GenericParam::Const, GenericParam::Const) => true,
        _ => false,
    }
}

/// Every parameter of `new` is the parameter of `old` at the same place,
/// a type parameter with `std::fmt::Debug` added to its bounds.
pub open spec fn bounded_generics(old: Seq<GenericParam>, new: Seq<GenericParam>) -> bool {
    new.len() == old.len() && forall|k: int| 0 <= k < old.len() ==> bounded_param(#[trigger] old[k], new[k])
}

fn bound_param(p: GenericParam) -> (r: GenericParam)
    ensures
        bounded_param(p, r),
{
    match p {
        GenericParam::Type { ident, bounds } => {
            let mut bounds = bounds;
            let ghost before = bounds@;
            bounds.push(<String as StringExecFns>::from_str("std::fmt::Debug"));
            assert(views(bounds@) =~= views(before).push(debug_bound()));
            GenericParam::Type { ident, bounds }
        },
        GenericParam::Lifetime => GenericParam::Lifetime,
        GenericParam::Const => GenericParam::Const,
    }
}

/// Adds `std::fmt::Debug` to the bounds of every type parameter.
pub fn add_trait_bounds(generics: Generics) -> (r: Generics)
    ensures
        bounded_generics(generics.params@, r.params@),
{
    let mut params = generics.params;
    let ghost old = params@;
    let mut out: Vec<GenericParam> = Vec::new();
    let n = params.len();
    let mut k: usize = 0;
    while k < n
        invariant
            n == old.len(),
            k <= n,
            params@ == old.subrange(k as int, n as int),
            out@.len() == k,
            forall|j: int| 0 <= j < k ==> bounded_param(#[trigger] old[j], out@[j]),
        decreases n - k,
    {
        assert(params@[0] == old[k as int]);
        let p = params.remove(0);
        assert(params@ =~= old.subrange(k + 1, n as int));
        out.push(bound_param(p));
        k = k + 1;
    }
    Generics { params: out }
}

fn clone_param(p: &GenericParam) -> (r: GenericParam)
    ensures
        match (*p, r) {
            (GenericParam::Type { ident: i1, bounds: b1 }, GenericParam::Type { ident: i2, bounds: b2 }) =>
                i2@ == i1@ && views(b2@) == views(b1@),
            (GenericParam::Lifetime, GenericParam::Lifetime) => true,
            (GenericParam::Const, GenericParam::Const) => true,
            _ => false,
        },
{
    match p {
        GenericParam::Type { ident, bounds } => {
            let mut copy: Vec<String> = Vec::new();
            let mut k: usize = 0;
            while k < bounds.len()
                invariant
                    k <= bounds@.len(),
                    views(copy@) == views(bounds@.subrange(0, k as int)),
                decreases bounds@.len() - k,
            {
                let c = bounds[k].clone();
                assert(c@ == bounds@[k as int]@);
                let ghost prev = copy@;
                copy.push(c);
                assert(views(copy@) =~= views(prev).push(c@));
                assert(views(bounds@.subrange(0, k + 1)) =~= views(bounds@.subrange(0, k as int)).push(c@));
                k = k + 1;
            }
            assert(bounds@.subrange(0, bounds@.len() as int) =~= bounds@);
            GenericParam::Type { ident: ident.clone(), bounds: copy }
        },
        GenericParam::Lifetime => GenericParam::Lifetime,
        GenericParam::Const => GenericParam::Const,
    }
}

/// Whether a path names the type parameter `g`: some segment other than
/// `PhantomData` is `g`, or has `g` somewhere in the path types between its
/// angle brackets.
pub open spec fn path_mentions(segs: Seq<PathSegment>, g: Option<Seq<char>>) -> bool
    decreases segs,
{
    if segs.len() == 0 {
        false
    } else {
        proof {
            assert(decreases_to!(segs => segs.drop_last()));
        }
        segment_mentions(segs.last(), g) || path_mentions(segs.drop_last(), g)
    }
}

/// Whether a path segment (other than `PhantomData`) names `g` or has it in
/// its angle-bracketed path types.
pub open spec fn segment_mentions(seg: PathSegment, g: Option<Seq<char>>) -> bool
    decreases seg,
{
    seg.ident@ != "PhantomData"@ && (g == Some(seg.ident@) || match seg.arguments {
        PathArguments::AngleBracketed(args) => args_mention(args@, g),
        _ => false,
    })
}

/// Whether one of the path types among generic arguments names `g`.
pub open spec fn args_mention(args: Seq<GenericArgument>, g: Option<Seq<char>>) -> bool
    decreases args,
{
    if args.len() == 0 {
        false
    } else {
        proof {
            assert(decreases_to!(args => args.drop_last()));
        }
        let here = match args.last() {
            GenericArgument::Type(ty) => match ty.kind {
                TyKind::Path(p) => path_mentions(p@, g),
                _ => false,
            },
            GenericArgument::Other => false,
        };
        here || args_mention(args.drop_last(), g)
    }
}

/// The plain value of an optional name.
pub open spec fn opt_view(g: Option<String>) -> Option<Seq<char>> {
    match g {
        Some(s) => Some(s@),
        None => None,
    }
}

fn segment_contains(seg: &PathSegment, g: &Option<String>) -> (r: bool)
    ensures
        r == segment_mentions(*seg, opt_view(*g)),
    decreases seg, 1int,
{
    if string_eq_str(&seg.ident, "PhantomData") {
        return false;
    }
    let named = match g {
        Some(x) => *x == seg.ident,
        None => false,
    };
    if named {
        return true;
    }
    match &seg.arguments {
        PathArguments::AngleBracketed(args) => {
            proof {
                assert(decreases_to!(*seg => seg.arguments));
            }
            args_contain(args, g)
        },
        _ => false,
    }
}

fn args_contain(args: &Vec<GenericArgument>, g: &Option<String>) -> (r: bool)
    ensures
        r == args_mention(args@, opt_view(*g)),
    decreases args, 0int,
{
    let mut k: usize = args.len();
    assert(args@.subrange(0, k as int) =~= args@);
    while k > 0
        invariant
            k <= args@.len(),
            args_mention(args@, opt_view(*g)) == args_mention(args@.subrange(0, k as int), opt_view(*g)),
        decreases k,
    {
        let ghost pre = args@.subrange(0, k as int);
        assert(pre.drop_last() =~= args@.subrange(0, k - 1));
        assert(pre.last() == args@[k - 1]);
        let here = match &args[k - 1] {
            GenericArgument::Type(ty) => match &ty.kind {
                TyKind::Path(p) => {
                    proof {
                        assert(decreases_to!(*args => args@));
                        assert(decreases_to!(args@ => args@[k - 1]));
                    }
                    generics_contains(p, g)
                },
                _ => false,
            },
            GenericArgument::Other => false,
        };
        if here {
            return true;
        }
        k = k - 1;
    }
    false
}

/// Whether a path names the type parameter `g` (see [`path_mentions`]).
pub fn generics_contains(p: &Vec<PathSegment>, g: &Option<String>) -> (r: bool)
    ensures
        r == path_mentions(p@, opt_view(*g)),
    decreases p, 2int,
{
    let mut k: usize = p.len();
    assert(p@.subrange(0, k as int) =~= p@);
    while k > 0
        invariant
            k <= p@.len(),
            path_mentions(p@, opt_view(*g)) == path_mentions(p@.subrange(0, k as int), opt_view(*g)),
        decreases k,
    {
        let ghost pre = p@.subrange(0, k as int);
        assert(pre.drop_last() =~= p@.subrange(0, k - 1));
        assert(pre.last() == p@[k - 1]);
        proof {
            assert(decreases_to!(*p => p@));
            assert(decreases_to!(p@ => p@[k - 1]));
        }
        if segment_contains(&p[k - 1], g) {
            return true;
        }
        k = k - 1;
    }
    false
}

/// The type parameter that the impl's need for generics is judged by: the
/// first generic parameter, when it is a type parameter.
pub open spec fn first_type_param(params: Seq<GenericParam>) -> Option<Seq<char>> {
    if params.len() > 0 && params[0] is Type {
        Some(params[0]->Type_ident@)
    } else {
        None
    }
}

/// Whether one of the tuple's path elements names `g`.
pub open spec fn elems_mention(elems: Seq<crate::syntax::Ty>, g: Option<Seq<char>>) -> bool
    decreases elems.len(),
{
    if elems.len() == 0 {
        false
    } else {
        let here = match elems.last().kind {
            TyKind::Path(p) => path_mentions(p@, g),
            _ => false,
        };
        here || elems_mention(elems.drop_last(), g)
    }
}

/// Whether a field's type names `g`: a path type that does, or a tuple with
/// such a path element.
pub open spec fn field_mentions(f: Field, g: Option<Seq<char>>) -> bool {
    match f.ty.kind {
        TyKind::Path(p) => path_mentions(p@, g),
        TyKind::Tuple(elems) => elems_mention(elems@, g),
        TyKind::Other => false,
    }
}

/// Whether some field's type names `g`.
pub open spec fn fields_mention(fields: Seq<Field>, g: Option<Seq<char>>) -> bool
    decreases fields.len(),
{
    if fields.len() == 0 {
        false
    } else {
        field_mentions(fields.last(), g) || fields_mention(fields.drop_last(), g)
    }
}

/// The plan of `#[derive(CustomDebug)]`: `impl<..> std::fmt::Debug for Name<..>`
/// that prints the struct's name and every field, in order.
pub struct DebugPlan {
    /// The item's generics with `std::fmt::Debug` on every type parameter.
    pub bounded: Generics,
    /// The first generic parameter, when it is a type parameter.
    pub type_param: Option<String>,
    /// Some field's type names that parameter: the impl declares the bounded
    /// generics (else it repeats the type's generic arguments after `impl`).
    pub need_generics: bool,
    /// Per field, the format string of its `#[debug = "..."]` attribute.
    pub formats: Vec<Option<String>>,
}

/// The fields of a struct with named fields.
pub open spec fn struct_fields(input: DeriveInput) -> Seq<Field> {
    match input.data {
        Data::NamedStruct(fields) => fields@,
        Data::Other => Seq::empty(),
    }
}

/// The plan agrees with the input.
pub open spec fn debug_plan_agrees(plan: DebugPlan, input: DeriveInput) -> bool {
    let fields = struct_fields(input);
    &&& bounded_generics(input.generics.params@, plan.bounded.params@)
    &&& opt_view(plan.type_param) == first_type_param(input.generics.params@)
    &&& plan.need_generics == fields_mention(fields, first_type_param(input.generics.params@))
    &&& plan.formats@.len() == fields.len()
    &&& forall|k: int| 0 <= k < fields.len() ==> opt_view(#[trigger] plan.formats@[k])
        == spec_extract_debug(fields[k].attrs@)
}

fn field_contains(f: &Field, g: &Option<String>) -> (r: bool)
    ensures
        r == field_mentions(*f, opt_view(*g)),
{
    match &f.ty.kind {
        TyKind::Path(p) => generics_contains(p, g),
        TyKind::Tuple(elems) => {
            let mut k: usize = elems.len();
            assert(elems@.subrange(0, k as int) =~= elems@);
            while k > 0
                invariant
                    f.ty.kind == TyKind::Tuple(*elems),
                    k <= elems@.len(),
                    elems_mention(elems@, opt_view(*g)) == elems_mention(
                        elems@.subrange(0, k as int),
                        opt_view(*g),
                    ),
                decreases k,
            {
                let ghost pre = elems@.subrange(0, k as int);
                assert(pre.drop_last() =~= elems@.subrange(0, k - 1));
                assert(pre.last() == elems@[k - 1]);
                let here = match &elems[k - 1].kind {
                    TyKind::Path(p) => generics_contains(p, g),
                    _ => false,
                };
                if here {
                    return true;
                }
                k = k - 1;
            }
            false
        },
        TyKind::Other => false,
    }
}

/// Plans `#[derive(CustomDebug)]` for a struct with named fields.
///
/// The derive never emits this impl: after the plan it adds the where
/// predicate `<item's generics as written>: std::fmt::Debug`, which never
/// parses (`: std::fmt::Debug` without generics, `<T>: ...` with them), so
/// the expansion aborts on every input.  The plan is what it computes before.
pub fn derive(input: &DeriveInput) -> (r: DebugPlan)
    requires
        input.data is NamedStruct,
    ensures
        debug_plan_agrees(r, *input),
{
    let fields = match &input.data {
        Data::NamedStruct(fields) => fields,
        Data::Other => {
            assert(false);
            return DebugPlan {
                bounded: Generics { params: Vec::new() },
                type_param: None,
                need_generics: false,
                formats: Vec::new(),
            };
        },
    };
    // the generics, with `Debug` on every type parameter
    let mut copy: Vec<GenericParam> = Vec::new();
    let mut k: usize = 0;
    while k < input.generics.params.len()
        invariant
            k <= input.generics.params@.len(),
            copy@.len() == k,
            forall|j: int| 0 <= j < k ==> match (#[trigger] input.generics.params@[j], copy@[j]) {
                (GenericParam::Type { ident: i1, bounds: b1 }, GenericParam::Type { ident: i2, bounds: b2 }) =>
                    i2@ == i1@ && views(b2@) == views(b1@),
                (GenericParam::Lifetime, GenericParam::Lifetime) => true,
                (GenericParam::Const, GenericParam::Const) => true,
                _ => false,
            },
        decreases input.generics.params@.len() - k,
    {
        copy.push(clone_param(&input.generics.params[k]));
        k = k + 1;
    }
    let bounded = add_trait_bounds(Generics { params: copy });
    let type_param = if bounded.params.len() > 0 {
        match &bounded.params[0] {
            GenericParam::Type { ident, .. } => Some(ident.clone()),
            _ => None,
        }
    } else {
        None
    };
    assert(opt_view(type_param) == first_type_param(input.generics.params@)) by {
        if input.generics.params@.len() > 0 {
            assert(bounded_param(copy@[0], bounded.params@[0]));
        }
    }
    // does some field's type name the type parameter?
    let mut need_generics = false;
    let mut formats: Vec<Option<String>> = Vec::new();
    let mut k: usize = 0;
    while k < fields.len()
        invariant
            input.data == Data::NamedStruct(*fields),
            k <= fields@.len(),
            need_generics == fields_mention(fields@.subrange(0, k as int), opt_view(type_param)),
            formats@.len() == k,
            forall|j: int| 0 <= j < k ==> opt_view(#[trigger] formats@[j]) == spec_extract_debug(
                fields@[j].attrs@,
            ),
        decreases fields@.len() - k,
    {
        let f = &fields[k];
        assert(fields@.subrange(0, k + 1).drop_last() =~= fields@.subrange(0, k as int));
        assert(fields@.subrange(0, k + 1).last() == fields@[k as int]);
        if !need_generics {
            need_generics = field_contains(f, &type_param);
        }
        formats.push(extract_debug(f));
        k = k + 1;
    }
    assert(fields@.subrange(0, fields@.len() as int) =~= fields@);
    DebugPlan { bounded, type_param, need_generics, formats }
}

/// Law: without a type parameter to look for, no path mentions one.
pub proof fn lemma_path_mentions_nothing(segs: Seq<PathSegment>)
    ensures
        !path_mentions(segs, None),
    decreases segs,
{
    if segs.len() > 0 {
        assert(decreases_to!(segs => segs.drop_last()));
        lemma_segment_mentions_nothing(segs.last());
        lemma_path_mentions_nothing(segs.drop_last());
    }
}

/// Law: without a type parameter to look for, no path segment mentions one.
pub proof fn lemma_segment_mentions_nothing(seg: PathSegment)
    ensures
        !segment_mentions(seg, None),
    decreases seg,
{
    match seg.arguments {
        PathArguments::AngleBracketed(args) => {
            assert(decreases_to!(seg => seg.arguments));
            lemma_args_mention_nothing(args@);
        },
        _ => {},
    }
}

/// Law: without a type parameter to look for, no generic argument mentions one.
pub proof fn lemma_args_mention_nothing(args: Seq<GenericArgument>)
    ensures
        !args_mention(args, None),
    decreases args,
{
    if args.len() > 0 {
        assert(decreases_to!(args => args.drop_last()));
        match args.last() {
            GenericArgument::Type(ty) => match ty.kind {
                TyKind::Path(p) => {
                    lemma_path_mentions_nothing(p@);
                },
                _ => {},
            },
            GenericArgument::Other => {},
        }
        lemma_args_mention_nothing(args.drop_last());
    }
}

/// Law: an item whose first generic parameter is not a type parameter (or
/// that has none) never needs its generics on the impl.
pub proof fn lemma_no_type_param_no_generics(fields: Seq<Field>)
    ensures
        !fields_mention(fields, None),
    decreases fields.len(),
{
    if fields.len() > 0 {
        lemma_no_type_param_no_generics(fields.drop_last());
        let f = fields.last();
        match f.ty.kind {
            TyKind::Path(p) => lemma_path_mentions_nothing(p@),
            TyKind::Tuple(elems) => lemma_elems_mention_nothing(elems@),
            TyKind::Other => {},
        }
    }
}

proof fn lemma_elems_mention_nothing(elems: Seq<crate::syntax::Ty>)
    ensures
        !elems_mention(elems, None),
    decreases elems.len(),
{
    if elems.len() > 0 {
        lemma_elems_mention_nothing(elems.drop_last());
        match elems.last().kind {
            TyKind::Path(p) => lemma_path_mentions_nothing(p@),
            _ => {},
        }
    }
}

/// Law: the plan bounds every type parameter of the item by
/// `std::fmt::Debug`, after the bounds it already had, keeps its name and
/// leaves the other parameters as they are, in order; the parameter it
/// judges the impl's generics by is the first one, when that is a type
/// parameter.
pub proof fn lemma_debug_plan_generics(plan: DebugPlan, input: DeriveInput, k: int)
    requires
        debug_plan_agrees(plan, input),
        0 <= k < input.generics.params@.len(),
    ensures
        plan.bounded.params@.len() == input.generics.params@.len(),
        input.generics.params@[k] is Type ==> plan.bounded.params@[k] is Type
            && plan.bounded.params@[k]->Type_ident@ == input.generics.params@[k]->Type_ident@
            && views(plan.bounded.params@[k]->Type_bounds@) == views(input.generics.params@[k]->Type_bounds@).push(
            "std::fmt::Debug"@,
        ),
        input.generics.params@[k] is Lifetime ==> plan.bounded.params@[k] is Lifetime,
        input.generics.params@[k] is Const ==> plan.bounded.params@[k] is Const,
        input.generics.params@[0] is Type ==> opt_view(plan.type_param) == Some(
            input.generics.params@[0]->Type_ident@,
        ),
        !(input.generics.params@[0] is Type) ==> plan.type_param is None,
{
    assert(bounded_param(input.generics.params@[k], plan.bounded.params@[k]));
}

/// Law: a path segment named `PhantomData` never names the type parameter;
/// any other segment does when it is the parameter itself, and otherwise
/// only through the path types between its angle brackets.
pub proof fn lemma_segment_mentions(seg: PathSegment, g: Option<Seq<char>>)
    ensures
        seg.ident@ == "PhantomData"@ ==> !segment_mentions(seg, g),
        seg.ident@ != "PhantomData"@ && g == Some(seg.ident@) ==> segment_mentions(seg, g),
        seg.ident@ != "PhantomData"@ && g != Some(seg.ident@) ==> (segment_mentions(seg, g) <==> (
        seg.arguments is AngleBracketed && args_mention(seg.arguments->AngleBracketed_0@, g))),
{
}

/// Law: a path names the type parameter when one of its segments does.
pub proof fn lemma_path_mentions_some_segment(segs: Seq<PathSegment>, g: Option<Seq<char>>)
    ensures
        path_mentions(segs, g) <==> exists|i: int| 0 <= i < segs.len() && segment_mentions(#[trigger] segs[i], g),
    decreases segs.len(),
{
    if segs.len() > 0 {
        lemma_path_mentions_some_segment(segs.drop_last(), g);
        if exists|i: int| 0 <= i < segs.len() && segment_mentions(#[trigger] segs[i], g) {
            let i = choose|i: int| 0 <= i < segs.len() && segment_mentions(#[trigger] segs[i], g);
            if i < segs.len() - 1 {
                assert(segs.drop_last()[i] == segs[i]);
            }
        }
        if path_mentions(segs.drop_last(), g) {
            let i = choose|i: int| 0 <= i < segs.len() - 1 && segment_mentions(#[trigger] segs.drop_last()[i], g);
            assert(segs[i] == segs.drop_last()[i]);
        }
    }
}

/// Law: generic arguments name the type parameter when one of them is a
/// path type that does; lifetimes, constants and other types never do.
pub proof fn lemma_args_mention_some_path(args: Seq<GenericArgument>, g: Option<Seq<char>>)
    ensures
        args_mention(args, g) <==> exists|j: int|
            0 <= j < args.len() && #[trigger] args[j] is Type && args[j]->Type_0.kind is Path && path_mentions(
                args[j]->Type_0.kind->Path_0@,
                g,
            ),
    decreases args.len(),
{
    if args.len() > 0 {
        lemma_args_mention_some_path(args.drop_last(), g);
        let last = args.len() - 1;
        assert(args.last() == args[last]);
        if exists|j: int|
            0 <= j < args.len() && #[trigger] args[j] is Type && args[j]->Type_0.kind is Path && path_mentions(
                args[j]->Type_0.kind->Path_0@,
                g,
            ) {
            let j = choose|j: int|
                0 <= j < args.len() && #[trigger] args[j] is Type && args[j]->Type_0.kind is Path && path_mentions(
                    args[j]->Type_0.kind->Path_0@,
                    g,
                );
            if j < last {
                assert(args.drop_last()[j] == args[j]);
            }
        }
        if args_mention(args.drop_last(), g) {
            let j = choose|j: int|
                0 <= j < args.len() - 1 && #[trigger] args.drop_last()[j] is Type && args.drop_last()[j]->Type_0.kind is Path
                    && path_mentions(args.drop_last()[j]->Type_0.kind->Path_0@, g);
            assert(args[j] == args.drop_last()[j]);
        }
    }
}

/// Law: the impl needs the item's generics exactly when some field's type
/// names the judged type parameter: a path type that does, or a tuple one
/// of whose elements is such a path type; other types never do.
pub proof fn lemma_need_generics(plan: DebugPlan, input: DeriveInput)
    requires
        debug_plan_agrees(plan, input),
    ensures
        plan.need_generics <==> exists|k: int|
            0 <= k < struct_fields(input).len() && field_mentions(
                #[trigger] struct_fields(input)[k],
                first_type_param(input.generics.params@),
            ),
{
    lemma_fields_mention_some_field(struct_fields(input), first_type_param(input.generics.params@));
}

/// Law: fields name the type parameter when one of them does.
pub proof fn lemma_fields_mention_some_field(fields: Seq<Field>, g: Option<Seq<char>>)
    ensures
        fields_mention(fields, g) <==> exists|k: int| 0 <= k < fields.len() && field_mentions(#[trigger] fields[k], g),
    decreases fields.len(),
{
    if fields.len() > 0 {
        lemma_fields_mention_some_field(fields.drop_last(), g);
        if exists|k: int| 0 <= k < fields.len() && field_mentions(#[trigger] fields[k], g) {
            let k = choose|k: int| 0 <= k < fields.len() && field_mentions(#[trigger] fields[k], g);
            if k < fields.len() - 1 {
                assert(fields.drop_last()[k] == fields[k]);
            }
        }
        if fields_mention(fields.drop_last(), g) {
            let k = choose|k: int| 0 <= k < fields.len() - 1 && field_mentions(#[trigger] fields.drop_last()[k], g);
            assert(fields[k] == fields.drop_last()[k]);
        }
    }
}

/// Law: a field's type names the type parameter when it is a path type that
/// does, or a tuple one of whose elements is a path type that does.
pub proof fn lemma_field_mentions(f: Field, g: Option<Seq<char>>)
    ensures
        f.ty.kind is Path ==> (field_mentions(f, g) <==> path_mentions(f.ty.kind->Path_0@, g)),
        f.ty.kind is Tuple ==> (field_mentions(f, g) <==> exists|j: int|
            0 <= j < f.ty.kind->Tuple_0@.len() && #[trigger] f.ty.kind->Tuple_0@[j].kind is Path && path_mentions(
                f.ty.kind->Tuple_0@[j].kind->Path_0@,
                g,
            )),
        f.ty.kind is Other ==> !field_mentions(f, g),
{
    if f.ty.kind is Tuple {
        lemma_elems_mention_some_path(f.ty.kind->Tuple_0@, g);
    }
}

proof fn lemma_elems_mention_some_path(elems: Seq<crate::syntax::Ty>, g: Option<Seq<char>>)
    ensures
        elems_mention(elems, g) <==> exists|j: int|
            0 <= j < elems.len() && #[trigger] elems[j].kind is Path && path_mentions(elems[j].kind->Path_0@, g),
    decreases elems.len(),
{
    if elems.len() > 0 {
        lemma_elems_mention_some_path(elems.drop_last(), g);
        let last = elems.len() - 1;
        assert(elems.last() == elems[last]);
        if exists|j: int| 0 <= j < elems.len() && #[trigger] elems[j].kind is Path && path_mentions(elems[j].kind->Path_0@, g) {
            let j = choose|j: int|
                0 <= j < elems.len() && #[trigger] elems[j].kind is Path && path_mentions(elems[j].kind->Path_0@, g);
            if j < last {
                assert(elems.drop_last()[j] == elems[j]);
            }
        }
        if elems_mention(elems.drop_last(), g) {
            let j = choose|j: int|
                0 <= j < elems.len() - 1 && #[trigger] elems.drop_last()[j].kind is Path && path_mentions(
                    elems.drop_last()[j].kind->Path_0@,
                    g,
                );
            assert(elems[j] == elems.drop_last()[j]);
        }
    }
}

} // verus!
