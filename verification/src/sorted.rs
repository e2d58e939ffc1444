//! `#[sorted]` on an enum insists that its variants are in alphabetical
//! order; `#[sorted::check]` on a function insists on the same for the
//! tuple-struct arms of every `match` in it, and that a wildcard arm comes last.
use vstd::prelude::*;
use vstd::string::StringExecFns;
use crate::syntax::{Attribute, PathArguments};
use crate::text::{
    lemma_lex_lt_irreflexive, lemma_lex_lt_total, lemma_lex_lt_transitive, lex_lt,
    string_eq_str, string_lt, views,
};

verus! {

/// Some name after position `i` sorts strictly before the name at `i`.
pub open spec fn has_later_smaller(keys: Seq<Seq<char>>, i: int) -> bool {
    exists|j: int| i < j < keys.len() && lex_lt(#[trigger] keys[j], keys[i])
}

/// No name sorts strictly before a name that comes earlier.
pub open spec fn keys_sorted(keys: Seq<Seq<char>>) -> bool {
    forall|i: int, j: int| 0 <= i < j < keys.len() ==> !lex_lt(#[trigger] keys[j], #[trigger] keys[i])
}

/// `i` is the first position whose name is out of place: a later name sorts
/// before it, and no earlier position has that property.
pub open spec fn is_first_misplaced(keys: Seq<Seq<char>>, i: int) -> bool {
    &&& 0 <= i < keys.len()
    &&& has_later_smaller(keys, i)
    &&& forall|k: int| 0 <= k < i ==> !has_later_smaller(keys, k)
}

/// `j` is the name that belongs at the misplaced position `i`: the first
/// occurrence of the smallest name after `i`.
pub open spec fn is_displacing(keys: Seq<Seq<char>>, i: int, j: int) -> bool {
    &&& i < j < keys.len()
    &&& lex_lt(keys[j], keys[i])
    &&& forall|k: int| i < k < keys.len() ==> !lex_lt(#[trigger] keys[k], keys[j])
    &&& forall|k: int| i < k < j ==> #[trigger] keys[k] != keys[j]
}

/// Compares a list of names with its sorted order: `None` when it already is
/// sorted, else `(i, j)` where `i` is the first position at which the sorted
/// order differs and `j` is the position of the name that the sorted order
/// puts at `i`.
pub fn first_misordered(names: &Vec<String>) -> (r: Option<(usize, usize)>)
    ensures
        r is None <==> keys_sorted(views(names@)),
        r matches Some((i, j)) ==> is_first_misplaced(views(names@), i as int)
            && is_displacing(views(names@), i as int, j as int),
{
    let ghost keys = views(names@);
    let n = names.len();
    let mut i: usize = 0;
    while i < n
        invariant
            n == names@.len(),
            keys == views(names@),
            keys.len() == n,
            i <= n,
            forall|k: int| 0 <= k < i ==> !has_later_smaller(keys, k),
        decreases n - i,
    {
        if i + 1 < n {
            let mut cur: usize = i + 1;
            let mut k: usize = i + 2;
            proof {
                lemma_lex_lt_irreflexive(keys[cur as int]);
            }
            while k < n
                invariant
                    n == names@.len(),
                    keys == views(names@),
                    keys.len() == n,
                    i < cur < k <= n,
                    forall|m: int| i < m < k ==> !lex_lt(#[trigger] keys[m], keys[cur as int]),
                    forall|m: int| i < m < cur ==> #[trigger] keys[m] != keys[cur as int],
                decreases n - k,
            {
                if string_lt(&names[k], &names[cur]) {
                    proof {
                        assert forall|m: int| i < m < k + 1 implies !lex_lt(
                            #[trigger] keys[m],
                            keys[k as int],
                        ) by {
                            if m < k {
                                if lex_lt(keys[m], keys[k as int]) {
                                    lemma_lex_lt_transitive(keys[m], keys[k as int], keys[cur as int]);
                                }
                            } else {
                                lemma_lex_lt_irreflexive(keys[k as int]);
                            }
                        }
                        assert forall|m: int| i < m < k implies #[trigger] keys[m] != keys[k as int] by {
                            if keys[m] == keys[k as int] {
                                assert(!lex_lt(keys[m], keys[cur as int]));
                            }
                        }
                    }
                    cur = k;
                }
                k = k + 1;
            }
            if string_lt(&names[cur], &names[i]) {
                assert(lex_lt(keys[cur as int], keys[i as int]));
                assert(has_later_smaller(keys, i as int));
                assert(!keys_sorted(keys));
                return Some((i, cur));
            }
            proof {
                assert forall|j: int| i < j < keys.len() implies !lex_lt(
                    #[trigger] keys[j],
                    keys[i as int],
                ) by {
                    lemma_lex_lt_total(keys[j], keys[cur as int]);
                    if lex_lt(keys[j], keys[i as int]) && lex_lt(keys[cur as int], keys[j]) {
                        lemma_lex_lt_transitive(keys[cur as int], keys[j], keys[i as int]);
                    }
                }
            }
        }
        i = i + 1;
    }
    assert forall|a: int, b: int| 0 <= a < b < keys.len() implies !lex_lt(
        #[trigger] keys[b],
        #[trigger] keys[a],
    ) by {
        assert(!has_later_smaller(keys, a));
    }
    None
}

/// The message of a misordering: "`later` should sort before `earlier`".
pub open spec fn misorder_message(later: Seq<char>, earlier: Seq<char>) -> Seq<char> {
    later + " should sort before "@ + earlier
}

/// A compile error about the order of names.
pub struct SortError {
    pub message: String,
    /// The position of the name that the error points at.
    pub at: usize,
}

/// Checks that the names, in their given order, are sorted; otherwise the
/// error names the first name out of place (`earlier`) and the name that
/// belongs there (`later`), and points at `later`.
pub open spec fn spec_check_order(names: Seq<String>, err: SortError) -> bool {
    let keys = views(names);
    exists|i: int|
        #![trigger is_first_misplaced(keys, i)]
        is_first_misplaced(keys, i) && is_displacing(keys, i, err.at as int)
            && err.message@ == misorder_message(keys[err.at as int], keys[i])
}

fn order_error(names: &Vec<String>, i: usize, j: usize) -> (e: SortError)
    requires
        i < names@.len(),
        j < names@.len(),
    ensures
        e.at == j,
        e.message@ == misorder_message(names@[j as int]@, names@[i as int]@),
{
    let message = names[j].clone().concat(" should sort before ").concat(names[i].as_str());
    SortError { message, at: j }
}

/// Checks the variants of an enum: `Ok` when their names are in sorted
/// order, else the error of the first one out of place.
pub fn handle_enum(variants: &Vec<String>) -> (r: Result<(), SortError>)
    ensures
        r is Ok <==> keys_sorted(views(variants@)),
        r matches Err(e) ==> spec_check_order(variants@, e),
{
    match first_misordered(variants) {
        None => Ok(()),
        Some((i, j)) => {
            let e = order_error(variants, i, j);
            assert(views(variants@)[j as int] == variants@[j as int]@);
            assert(views(variants@)[i as int] == variants@[i as int]@);
            assert(is_first_misplaced(views(variants@), i as int));
            Err(e)
        },
    }
}

/// The item `#[sorted]` is applied to.
pub enum SortedItem {
    /// An enum, by the names of its variants in order.
    Enum(Vec<String>),
    /// Any other item.
    Other,
}

/// What `#[sorted]` expands to.
pub enum SortedOutcome {
    /// The item, unchanged.
    Accepted,
    /// The item, followed by the error.
    Misordered(SortError),
    /// Only the error "expected enum or match expression", on the attribute's arguments.
    NotEnum,
}

/// `#[sorted]`: accepts an enum whose variants are sorted, reports the first
/// variant out of place otherwise, and rejects every item that is not an enum.
pub fn sorted(item: &SortedItem) -> (r: SortedOutcome)
    ensures
        match *item {
            SortedItem::Enum(names) => match r {
                SortedOutcome::Accepted => keys_sorted(views(names@)),
                SortedOutcome::Misordered(e) => !keys_sorted(views(names@)) && spec_check_order(names@, e),
                SortedOutcome::NotEnum => false,
            },
            SortedItem::Other => r is NotEnum,
        },
{
    match item {
        SortedItem::Enum(names) => match handle_enum(names) {
            Ok(()) => SortedOutcome::Accepted,
            Err(e) => SortedOutcome::Misordered(e),
        },
        SortedItem::Other => SortedOutcome::NotEnum,
    }
}

/// The pattern of a `match` arm, as far as `#[sorted::check]` reads it.
pub enum Pat {
    /// `A::B::C(..)`: the path's first segment and the segments after it.
    TupleStruct { head: String, tail: Vec<String> },
    /// `[..]` with this many elements.
    Slice(usize),
    /// `_`
    Wild,
    /// Any other pattern.
    Other,
}

/// One arm of a `match`; `id` names the arm, so that an error can point at it.
pub struct Arm {
    pub pat: Pat,
    pub id: usize,
}

/// A `match` expression: its attributes, its arms, and the `match`
/// expressions inside it (outside other inner `match`es), in source order.
pub struct MatchExpr {
    pub attrs: Vec<Attribute>,
    pub arms: Vec<Arm>,
    pub nested: Vec<MatchExpr>,
}

/// A compile error of `#[sorted::check]`.
pub struct CheckError {
    pub message: String,
    /// The arm the error points at.
    pub arm: usize,
    /// The error points at the arm's path (else at its whole pattern).
    pub at_path: bool,
}

/// The plain value of a [`CheckError`].
pub struct Fault {
    pub message: Seq<char>,
    pub arm: usize,
    pub at_path: bool,
}

impl CheckError {
    pub open spec fn fault(self) -> Fault {
        Fault { message: self.message@, arm: self.arm, at_path: self.at_path }
    }
}

/// The plain value of an optional [`CheckError`].
pub open spec fn fault_of(e: Option<CheckError>) -> Option<Fault> {
    match e {
        Some(e) => Some(e.fault()),
        None => None,
    }
}

/// Whether an attribute is exactly `#[sorted]` (a bare one-segment path).
pub open spec fn is_sorted_attr(a: Attribute) -> bool {
    &&& !a.path.leading_colon
    &&& a.path.segments@.len() == 1
    &&& a.path.segments@[0].arguments is Bare
    &&& a.path.segments@[0].ident@ == "sorted"@
}

/// How the last `#[sorted]` attribute prints, if there is one.
pub open spec fn last_sorted_attr(attrs: Seq<Attribute>) -> Option<Seq<char>>
    decreases attrs.len(),
{
    if attrs.len() == 0 {
        None
    } else if is_sorted_attr(attrs.last()) {
        Some(attrs.last().text@)
    } else {
        last_sorted_attr(attrs.drop_last())
    }
}

/// The message for an empty slice pattern.
pub open spec fn unsupported_message(sort: Option<Seq<char>>) -> Seq<char> {
    "unsupported by "@ + match sort {
        Some(t) => t,
        None => Seq::empty(),
    }
}

/// The message for a wildcard arm that is not the last arm.
pub open spec fn wild_message() -> Seq<char> {
    "wild arm should at the end of match block"@
}

/// The error left after looking at the first `k` arms, starting from `err`:
/// an empty slice pattern, or a wildcard arm that is not the last arm,
/// replaces the error so far.
pub open spec fn arms_fault(arms: Seq<Arm>, k: int, err: Option<Fault>, sort: Option<Seq<char>>) -> Option<Fault>
    decreases k,
{
    if k <= 0 || k > arms.len() {
        err
    } else {
        let e = arms_fault(arms, k - 1, err, sort);
        let a = arms[k - 1];
        match a.pat {
            Pat::Slice(n) => if n == 0 {
                Some(Fault { message: unsupported_message(sort), arm: a.id, at_path: false })
            } else {
                e
            },
            Pat::Wild => if k - 1 != arms.len() - 1 {
                Some(Fault { message: wild_message(), arm: a.id, at_path: false })
            } else {
                e
            },
            _ => e,
        }
    }
}

/// A path written out with `::` between its segments.
pub open spec fn path_text(head: Seq<char>, tail: Seq<Seq<char>>) -> Seq<char>
    decreases tail.len(),
{
    if tail.len() == 0 {
        head
    } else {
        path_text(head, tail.drop_last()) + "::"@ + tail.last()
    }
}

/// The paths of the tuple-struct patterns among the arms, with their arms, in order.
pub open spec fn tuple_struct_paths(arms: Seq<Arm>) -> Seq<(Seq<char>, usize)>
    decreases arms.len(),
{
    if arms.len() == 0 {
        Seq::empty()
    } else {
        let before = tuple_struct_paths(arms.drop_last());
        match arms.last().pat {
            Pat::TupleStruct { head, tail } => before.push((path_text(head@, views(tail@)), arms.last().id)),
            _ => before,
        }
    }
}

/// The path texts of a list of (path, arm) pairs.
pub open spec fn path_keys(paths: Seq<(Seq<char>, usize)>) -> Seq<Seq<char>> {
    paths.map_values(|p: (Seq<char>, usize)| p.0)
}

/// The error for tuple-struct paths that are out of order: the first path
/// out of place and the path that belongs there, pointing at the latter.
pub open spec fn order_fault(paths: Seq<(Seq<char>, usize)>) -> Fault {
    let keys = path_keys(paths);
    let i = choose|i: int| is_first_misplaced(keys, i);
    let j = choose|j: int| is_displacing(keys, i, j);
    Fault { message: misorder_message(keys[j], keys[i]), arm: paths[j].1, at_path: true }
}

/// What `#[sorted::check]` is left with after visiting one `match`,
/// starting from the error `err` found so far: the arms are looked at in
/// order; then, if the tuple-struct arms are out of order, that error ends
/// the visit of this `match`; else the inner `match`es are visited in turn.
pub open spec fn spec_visit(m: MatchExpr, err: Option<Fault>) -> Option<Fault>
    decreases m, 0int,
{
    let e = arms_fault(m.arms@, m.arms@.len() as int, err, last_sorted_attr(m.attrs@));
    let paths = tuple_struct_paths(m.arms@);
    if !keys_sorted(path_keys(paths)) {
        Some(order_fault(paths))
    } else {
        proof {
            assert(decreases_to!(m => m.nested));
            assert(decreases_to!(m.nested => m.nested@));
        }
        spec_visit_all(m.nested@, m.nested@.len() as int, e)
    }
}

/// The error left after visiting the first `k` of the `match`es in turn.
pub open spec fn spec_visit_all(ms: Seq<MatchExpr>, k: int, err: Option<Fault>) -> Option<Fault>
    decreases ms, k,
{
    if k <= 0 || k > ms.len() {
        err
    } else {
        proof {
            assert(decreases_to!(ms => ms[k - 1]));
        }
        spec_visit(ms[k - 1], spec_visit_all(ms, k - 1, err))
    }
}

proof fn lemma_first_misplaced_unique(keys: Seq<Seq<char>>, a: int, b: int)
    requires
        is_first_misplaced(keys, a),
        is_first_misplaced(keys, b),
    ensures
        a == b,
{
}

proof fn lemma_displacing_unique(keys: Seq<Seq<char>>, i: int, a: int, b: int)
    requires
        is_displacing(keys, i, a),
        is_displacing(keys, i, b),
    ensures
        a == b,
{
    lemma_lex_lt_total(keys[a], keys[b]);
    if a < b {
        assert(keys[a] != keys[b]);
    } else if b < a {
        assert(keys[b] != keys[a]);
    }
}

/// Whether an attribute is exactly `#[sorted]`; `#[sorted::check]` removes
/// such attributes from the `match` expressions.
pub fn is_sorted_attribute(a: &Attribute) -> (r: bool)
    ensures
        r == is_sorted_attr(*a),
{
    if a.path.leading_colon || a.path.segments.len() != 1 {
        return false;
    }
    match a.path.segments[0].arguments {
        PathArguments::Bare => string_eq_str(&a.path.segments[0].ident, "sorted"),
        _ => false,
    }
}

fn path_string(head: &String, tail: &Vec<String>) -> (r: String)
    ensures
        r@ == path_text(head@, views(tail@)),
{
    let mut acc = head.clone();
    let mut k: usize = 0;
    while k < tail.len()
        invariant
            k <= tail@.len(),
            acc@ == path_text(head@, views(tail@.subrange(0, k as int))),
        decreases tail@.len() - k,
    {
        assert(views(tail@.subrange(0, k + 1)).drop_last() =~= views(tail@.subrange(0, k as int)));
        acc = acc.concat("::").concat(tail[k].as_str());
        k = k + 1;
    }
    assert(tail@.subrange(0, tail@.len() as int) =~= tail@);
    acc
}

/// Checks one `match` and the `match` expressions inside it, starting from
/// the error found so far (see [`spec_visit`]), and removes the `#[sorted]`
/// attributes of every `match` it visits (see [`stripped`]).
pub fn visit_expr_match(m: &mut MatchExpr, err: Option<CheckError>) -> (r: Option<CheckError>)
    ensures
        fault_of(r) == spec_visit(*old(m), fault_of(err)),
        stripped(*old(m), *final(m)),
    decreases *old(m), 1int,
{
    let ghost err0 = fault_of(err);
    // the last `#[sorted]` attribute
    let mut sort: Option<&String> = None;
    let mut a: usize = 0;
    while a < m.attrs.len()
        invariant
            a <= m.attrs@.len(),
            last_sorted_attr(m.attrs@.subrange(0, a as int)) == match sort {
                Some(t) => Some(t@),
                None => None::<Seq<char>>,
            },
        decreases m.attrs@.len() - a,
    {
        assert(m.attrs@.subrange(0, a + 1).drop_last() =~= m.attrs@.subrange(0, a as int));
        if is_sorted_attribute(&m.attrs[a]) {
            sort = Some(&m.attrs[a].text);
        }
        a = a + 1;
    }
    assert(m.attrs@.subrange(0, m.attrs@.len() as int) =~= m.attrs@);
    let ghost sort_text = last_sorted_attr(m.attrs@);
    // the arms
    let mut err = err;
    let mut keys: Vec<String> = Vec::new();
    let mut ids: Vec<usize> = Vec::new();
    let len = m.arms.len();
    let mut k: usize = 0;
    while k < len
        invariant
            len == m.arms@.len(),
            k <= len,
            sort_text == match sort {
                Some(t) => Some(t@),
                None => None::<Seq<char>>,
            },
            fault_of(err) == arms_fault(m.arms@, k as int, err0, sort_text),
            keys@.len() == ids@.len(),
            tuple_struct_paths(m.arms@.subrange(0, k as int)).len() == keys@.len(),
            forall|q: int| 0 <= q < keys@.len() ==> tuple_struct_paths(m.arms@.subrange(0, k as int))[q]
                == (#[trigger] keys@[q]@, ids@[q]),
        decreases len - k,
    {
        let arm = &m.arms[k];
        assert(m.arms@.subrange(0, k + 1).drop_last() =~= m.arms@.subrange(0, k as int));
        assert(m.arms@.subrange(0, k + 1).last() == m.arms@[k as int]);
        match &arm.pat {
            Pat::TupleStruct { head, tail } => {
                keys.push(path_string(head, tail));
                ids.push(arm.id);
            },
            Pat::Slice(n) => {
                if *n == 0 {
                    let text = match sort {
                        Some(t) => t.as_str(),
                        None => "",
                    };
                    proof {
                        reveal_strlit("");
                    }
                    let message = <String as StringExecFns>::from_str("unsupported by ").concat(text);
                    err = Some(CheckError { message, arm: arm.id, at_path: false });
                }
            },
            Pat::Wild => {
                if k != len - 1 {
                    let message = <String as StringExecFns>::from_str(
                        "wild arm should at the end of match block",
                    );
                    err = Some(CheckError { message, arm: arm.id, at_path: false });
                }
            },
            Pat::Other => {},
        }
        k = k + 1;
    }
    assert(m.arms@.subrange(0, len as int) =~= m.arms@);
    let ghost paths = tuple_struct_paths(m.arms@);
    assert(keys@.map_values(|s: String| s@) =~= path_keys(paths));
    // the `#[sorted]` attributes go
    let mut attrs: Vec<Attribute> = Vec::new();
    std::mem::swap(&mut attrs, &mut m.attrs);
    m.attrs = strip_sorted_attrs(attrs);
    // the order of the tuple-struct arms
    match first_misordered(&keys) {
        Some((i, j)) => {
            let message = keys[j].clone().concat(" should sort before ").concat(keys[i].as_str());
            proof {
                let ki = choose|x: int| is_first_misplaced(path_keys(paths), x);
                lemma_first_misplaced_unique(path_keys(paths), i as int, ki);
                let kj = choose|x: int| is_displacing(path_keys(paths), ki, x);
                lemma_displacing_unique(path_keys(paths), ki, j as int, kj);
            }
            return Some(CheckError { message, arm: ids[j], at_path: true });
        },
        None => {},
    }
    // the inner `match` expressions
    proof {
        assert(decreases_to!(*old(m) => old(m).nested));
    }
    visit_all(&mut m.nested, err)
}

/// `attrs` without the `#[sorted]` attributes, the others kept in order.
pub open spec fn strip_attrs(attrs: Seq<Attribute>) -> Seq<Attribute>
    decreases attrs.len(),
{
    if attrs.len() == 0 {
        Seq::empty()
    } else {
        let before = strip_attrs(attrs.drop_last());
        if is_sorted_attr(attrs.last()) {
            before
        } else {
            before.push(attrs.last())
        }
    }
}

/// `new` is the `match` `old` after `#[sorted::check]` visited it: its
/// `#[sorted]` attributes are gone and its arms are as they were; when its
/// tuple-struct arms are in order, its inner `match`es were visited in turn,
/// else they are as they were.
pub open spec fn stripped(old: MatchExpr, new: MatchExpr) -> bool
    decreases old, 0int,
{
    &&& new.attrs@ == strip_attrs(old.attrs@)
    &&& new.arms@ == old.arms@
    &&& if keys_sorted(path_keys(tuple_struct_paths(old.arms@))) {
        &&& new.nested@.len() == old.nested@.len()
        &&& {
            proof {
                assert(decreases_to!(old => old.nested));
                assert(decreases_to!(old.nested => old.nested@));
            }
            stripped_all(old.nested@, new.nested@, old.nested@.len() as int)
        }
    } else {
        new.nested@ == old.nested@
    }
}

/// The first `k` `match`es of `news` are those of `olds` after a visit.
pub open spec fn stripped_all(olds: Seq<MatchExpr>, news: Seq<MatchExpr>, k: int) -> bool
    decreases olds, k,
{
    if k <= 0 || k > olds.len() || k > news.len() {
        k <= 0
    } else {
        proof {
            assert(decreases_to!(olds => olds[k - 1]));
        }
        stripped(olds[k - 1], news[k - 1]) && stripped_all(olds, news, k - 1)
    }
}

proof fn lemma_stripped_all_push(olds: Seq<MatchExpr>, news: Seq<MatchExpr>, x: MatchExpr, k: int)
    requires
        0 <= k <= news.len(),
    ensures
        stripped_all(olds, news.push(x), k) == stripped_all(olds, news, k),
    decreases k,
{
    if k > 0 {
        lemma_stripped_all_push(olds, news, x, k - 1);
        assert(news.push(x)[k - 1] == news[k - 1]);
    }
}

fn strip_sorted_attrs(attrs: Vec<Attribute>) -> (r: Vec<Attribute>)
    ensures
        r@ == strip_attrs(attrs@),
{
    let ghost olds = attrs@;
    let mut rest = attrs;
    let mut kept: Vec<Attribute> = Vec::new();
    let n = rest.len();
    let mut k: usize = 0;
    while k < n
        invariant
            n == olds.len(),
            k <= n,
            rest@ == olds.subrange(k as int, n as int),
            kept@ == strip_attrs(olds.subrange(0, k as int)),
        decreases n - k,
    {
        assert(rest@[0] == olds[k as int]);
        let a = rest.remove(0);
        assert(rest@ =~= olds.subrange(k + 1, n as int));
        assert(olds.subrange(0, k + 1).drop_last() =~= olds.subrange(0, k as int));
        if !is_sorted_attribute(&a) {
            kept.push(a);
        }
        k = k + 1;
    }
    assert(olds.subrange(0, n as int) =~= olds);
    kept
}

/// Checks the `match`es in turn, starting from the error found so far, and
/// removes the `#[sorted]` attributes of every `match` visited.
fn visit_all(ms: &mut Vec<MatchExpr>, err: Option<CheckError>) -> (r: Option<CheckError>)
    ensures
        fault_of(r) == spec_visit_all(old(ms)@, old(ms)@.len() as int, fault_of(err)),
        final(ms)@.len() == old(ms)@.len(),
        stripped_all(old(ms)@, final(ms)@, old(ms)@.len() as int),
    decreases *old(ms), 0int,
{
    let ghost olds = ms@;
    let ghost err0 = fault_of(err);
    let mut rest: Vec<MatchExpr> = Vec::new();
    std::mem::swap(&mut rest, ms);
    let mut err = err;
    let n = rest.len();
    let mut q: usize = 0;
    while q < n
        invariant
            olds == old(ms)@,
            n == olds.len(),
            q <= n,
            rest@ == olds.subrange(q as int, n as int),
            ms@.len() == q,
            stripped_all(olds, ms@, q as int),
            fault_of(err) == spec_visit_all(olds, q as int, err0),
        decreases n - q,
    {
        assert(rest@[0] == olds[q as int]);
        let mut e = rest.remove(0);
        assert(rest@ =~= olds.subrange(q + 1, n as int));
        proof {
            assert(decreases_to!(*old(ms) => old(ms)@));
            assert(decreases_to!(old(ms)@ => old(ms)@[q as int]));
        }
        let ghost e0 = e;
        err = visit_expr_match(&mut e, err);
        let ghost prev = ms@;
        ms.push(e);
        proof {
            lemma_stripped_all_push(olds, prev, e, q as int);
            assert(ms@[q as int] == e);
        }
        q = q + 1;
    }
    err
}

/// The item `#[sorted::check]` is applied to.
pub enum CheckedItem {
    /// A function, by the `match` expressions in its body (outside other
    /// `match`es), in source order.
    Fn(Vec<MatchExpr>),
    /// Any other item.
    Other,
}

/// `#[sorted::check]`: visits every `match` of a function in turn, reports
/// the last error found, if any (see [`spec_visit`]), and removes the
/// `#[sorted]` attributes of the `match`es it visits (see [`stripped`]);
/// other items pass unchecked and unchanged.
pub fn check(item: &mut CheckedItem) -> (r: Option<CheckError>)
    ensures
        fault_of(r) == match *old(item) {
            CheckedItem::Fn(ms) => spec_visit_all(ms@, ms@.len() as int, None),
            CheckedItem::Other => None,
        },
        match (*old(item), *final(item)) {
            (CheckedItem::Fn(olds), CheckedItem::Fn(news)) => news@.len() == olds@.len()
                && stripped_all(olds@, news@, olds@.len() as int),
            (CheckedItem::Other, CheckedItem::Other) => true,
            _ => false,
        },
{
    match item {
        CheckedItem::Fn(ms) => visit_all(ms, None),
        CheckedItem::Other => None,
    }
}

proof fn lemma_first_misplaced_from(keys: Seq<Seq<char>>, i: int) -> (f: int)
    requires
        0 <= i <= keys.len(),
        forall|k: int| 0 <= k < i ==> !has_later_smaller(keys, k),
        exists|k: int| i <= k < keys.len() && has_later_smaller(keys, k),
    ensures
        is_first_misplaced(keys, f),
    decreases keys.len() - i,
{
    if has_later_smaller(keys, i) {
        i
    } else {
        lemma_first_misplaced_from(keys, i + 1)
    }
}

/// The first occurrence of a smallest name among positions `i + 1 .. k`.
proof fn lemma_smallest_after(keys: Seq<Seq<char>>, i: int, k: int) -> (j: int)
    requires
        0 <= i,
        i + 1 < k <= keys.len(),
    ensures
        i < j < k,
        forall|m: int| i < m < k ==> !lex_lt(#[trigger] keys[m], keys[j]),
        forall|m: int| i < m < j ==> #[trigger] keys[m] != keys[j],
    decreases k,
{
    if k == i + 2 {
        lemma_lex_lt_irreflexive(keys[i + 1]);
        i + 1
    } else {
        let c = lemma_smallest_after(keys, i, k - 1);
        if lex_lt(keys[k - 1], keys[c]) {
            assert forall|m: int| i < m < k implies !lex_lt(#[trigger] keys[m], keys[k - 1]) by {
                if m < k - 1 {
                    if lex_lt(keys[m], keys[k - 1]) {
                        lemma_lex_lt_transitive(keys[m], keys[k - 1], keys[c]);
                    }
                } else {
                    lemma_lex_lt_irreflexive(keys[k - 1]);
                }
            }
            assert forall|m: int| i < m < k - 1 implies #[trigger] keys[m] != keys[k - 1] by {
                if keys[m] == keys[k - 1] {
                    assert(!lex_lt(keys[m], keys[c]));
                }
            }
            k - 1
        } else {
            c
        }
    }
}

/// Law: names that are not in sorted order always have a first name out of
/// place and a name that belongs in its place, so that the error that
/// `#[sorted]` reports is well defined; that name sorts strictly before the
/// misplaced one and comes after it.
pub proof fn lemma_unsorted_names_have_culprit(keys: Seq<Seq<char>>)
    requires
        !keys_sorted(keys),
    ensures
        exists|i: int| #[trigger] is_first_misplaced(keys, i),
        forall|i: int| #[trigger] is_first_misplaced(keys, i) ==> exists|j: int| is_displacing(keys, i, j),
{
    let (a, b) = choose|a: int, b: int| 0 <= a < b < keys.len() && lex_lt(#[trigger] keys[b], #[trigger] keys[a]);
    assert(has_later_smaller(keys, a));
    let f = lemma_first_misplaced_from(keys, 0);
    assert forall|i: int| #[trigger] is_first_misplaced(keys, i) implies exists|j: int| is_displacing(keys, i, j) by {
        let w = choose|w: int| i < w < keys.len() && lex_lt(#[trigger] keys[w], keys[i]);
        let j = lemma_smallest_after(keys, i, keys.len() as int);
        lemma_lex_lt_total(keys[w], keys[j]);
        if !lex_lt(keys[j], keys[i]) {
            if keys[w] != keys[j] {
                lemma_lex_lt_transitive(keys[j], keys[w], keys[i]);
            }
        }
        assert(is_displacing(keys, i, j));
    }
}

/// Law: a sorted list of names is never reported, and an error always points
/// at a name that sorts strictly before the earlier name it is compared with.
pub proof fn lemma_sorted_check_sound(names: Seq<String>, err: SortError)
    requires
        spec_check_order(names, err),
    ensures
        !keys_sorted(views(names)),
        exists|i: int| 0 <= i < err.at && lex_lt(views(names)[err.at as int], views(names)[i]),
{
    let keys = views(names);
    let i = choose|i: int| #![trigger is_first_misplaced(keys, i)] is_first_misplaced(keys, i)
        && is_displacing(keys, i, err.at as int) && err.message@ == misorder_message(
        keys[err.at as int],
        keys[i],
    );
    assert(lex_lt(keys[err.at as int], keys[i]));
}

/// A `match` that `#[sorted::check]` passes over: no empty slice pattern, a
/// wildcard arm only as the last arm, tuple-struct arms in sorted order, and
/// every inner `match` of the same kind.
pub open spec fn is_clean(m: MatchExpr) -> bool
    decreases m, 0int,
{
    &&& forall|k: int| 0 <= k < m.arms@.len() ==> !(#[trigger] m.arms@[k].pat matches Pat::Slice(n) && n == 0)
    &&& forall|k: int| 0 <= k < m.arms@.len() - 1 ==> !(#[trigger] m.arms@[k].pat is Wild)
    &&& keys_sorted(path_keys(tuple_struct_paths(m.arms@)))
    &&& {
        proof {
            assert(decreases_to!(m => m.nested));
            assert(decreases_to!(m.nested => m.nested@));
        }
        all_clean(m.nested@, m.nested@.len() as int)
    }
}

/// The first `k` of the `match`es are clean.
pub open spec fn all_clean(ms: Seq<MatchExpr>, k: int) -> bool
    decreases ms, k,
{
    if k <= 0 || k > ms.len() {
        true
    } else {
        proof {
            assert(decreases_to!(ms => ms[k - 1]));
        }
        is_clean(ms[k - 1]) && all_clean(ms, k - 1)
    }
}

proof fn lemma_clean_arms(arms: Seq<Arm>, k: int, err: Option<Fault>, sort: Option<Seq<char>>)
    requires
        0 <= k <= arms.len(),
        forall|q: int| 0 <= q < arms.len() ==> !(#[trigger] arms[q].pat matches Pat::Slice(n) && n == 0),
        forall|q: int| 0 <= q < arms.len() - 1 ==> !(#[trigger] arms[q].pat is Wild),
    ensures
        arms_fault(arms, k, err, sort) == err,
    decreases k,
{
    if k > 0 {
        lemma_clean_arms(arms, k - 1, err, sort);
        let a = arms[k - 1];
        assert(!(a.pat matches Pat::Slice(n) && n == 0));
        if k - 1 != arms.len() - 1 {
            assert(!(a.pat is Wild));
        }
    }
}

/// Law: `#[sorted::check]` finds nothing in a clean `match` and leaves the
/// error found so far as it was.
pub proof fn lemma_clean_match_passes(m: MatchExpr, err: Option<Fault>)
    requires
        is_clean(m),
    ensures
        spec_visit(m, err) == err,
    decreases m, 0int,
{
    lemma_clean_arms(m.arms@, m.arms@.len() as int, err, last_sorted_attr(m.attrs@));
    assert(decreases_to!(m => m.nested));
    assert(decreases_to!(m.nested => m.nested@));
    lemma_clean_matches_pass(m.nested@, m.nested@.len() as int, err);
}

/// Law: visiting clean `match`es in turn leaves the error found so far as it was.
pub proof fn lemma_clean_matches_pass(ms: Seq<MatchExpr>, k: int, err: Option<Fault>)
    requires
        all_clean(ms, k),
    ensures
        spec_visit_all(ms, k, err) == err,
    decreases ms, k,
{
    if 0 < k <= ms.len() {
        lemma_clean_matches_pass(ms, k - 1, err);
        assert(decreases_to!(ms => ms[k - 1]));
        lemma_clean_match_passes(ms[k - 1], err);
    }
}

/// Law: when `#[sorted]` refuses an enum, the error names the variant that
/// belongs at the first place where the order goes wrong (the first of the
/// smallest names after that place) and the variant found there, as
/// "`later` should sort before `earlier`", and points at the former; every
/// variant before that place is in order with all that follow it.
pub proof fn lemma_sort_error_message(names: Seq<String>, err: SortError)
    requires
        spec_check_order(names, err),
    ensures
        exists|i: int|
            {
                &&& 0 <= i < err.at < names.len()
                &&& err.message@ == names[err.at as int]@ + " should sort before "@ + names[i]@
                &&& lex_lt(names[err.at as int]@, names[i]@)
                &&& forall|k: int| i < k < names.len() ==> !lex_lt(#[trigger] names[k]@, names[err.at as int]@)
                &&& forall|k: int| i < k < err.at ==> #[trigger] names[k]@ != names[err.at as int]@
                &&& forall|k: int, m: int| 0 <= k < i && k < m < names.len() ==> !lex_lt(#[trigger] names[m]@, #[trigger] names[k]@)
            },
{
    let keys = views(names);
    let i = choose|i: int| #![trigger is_first_misplaced(keys, i)] is_first_misplaced(keys, i)
        && is_displacing(keys, i, err.at as int) && err.message@ == misorder_message(
        keys[err.at as int],
        keys[i],
    );
    assert forall|k: int| i < k < names.len() implies !lex_lt(#[trigger] names[k]@, names[err.at as int]@) by {
        assert(keys[k] == names[k]@);
    }
    assert forall|k: int| i < k < err.at implies #[trigger] names[k]@ != names[err.at as int]@ by {
        assert(keys[k] == names[k]@);
    }
    assert forall|k: int, m: int| 0 <= k < i && k < m < names.len() implies !lex_lt(#[trigger] names[m]@, #[trigger] names[k]@) by {
        assert(!has_later_smaller(keys, k));
        assert(keys[k] == names[k]@ && keys[m] == names[m]@);
    }
}

/// Law: a wildcard arm that is not the last arm is reported, at that arm's
/// pattern, when no later arm is an empty slice pattern or another such
/// wildcard.
pub proof fn lemma_wild_arm_reported(arms: Seq<Arm>, k: int, err: Option<Fault>, sort: Option<Seq<char>>)
    requires
        0 <= k < arms.len() - 1,
        arms[k].pat is Wild,
        forall|q: int| k < q < arms.len() ==> !(#[trigger] arms[q].pat matches Pat::Slice(n) && n == 0),
        forall|q: int| k < q < arms.len() - 1 ==> !(#[trigger] arms[q].pat is Wild),
    ensures
        arms_fault(arms, arms.len() as int, err, sort) == Some(
            Fault { message: "wild arm should at the end of match block"@, arm: arms[k].id, at_path: false },
        ),
{
    lemma_later_arms_keep(arms, k + 1, arms.len() as int, err, sort);
}

/// Law: an empty slice pattern is reported as "unsupported by" followed by
/// the last `#[sorted]` attribute as written (nothing when there is none), at
/// that arm's pattern, when no later arm is another empty slice pattern or
/// a wildcard arm that is not the last arm.
pub proof fn lemma_empty_slice_reported(arms: Seq<Arm>, k: int, err: Option<Fault>, sort: Option<Seq<char>>)
    requires
        0 <= k < arms.len(),
        arms[k].pat == Pat::Slice(0),
        forall|q: int| k < q < arms.len() ==> !(#[trigger] arms[q].pat matches Pat::Slice(n) && n == 0),
        forall|q: int| k < q < arms.len() - 1 ==> !(#[trigger] arms[q].pat is Wild),
    ensures
        arms_fault(arms, arms.len() as int, err, sort) == Some(
            Fault {
                message: "unsupported by "@ + match sort {
                    Some(t) => t,
                    None => Seq::empty(),
                },
                arm: arms[k].id,
                at_path: false,
            },
        ),
{
    lemma_later_arms_keep(arms, k + 1, arms.len() as int, err, sort);
}

proof fn lemma_later_arms_keep(arms: Seq<Arm>, from: int, k: int, err: Option<Fault>, sort: Option<Seq<char>>)
    requires
        1 <= from <= k <= arms.len(),
        forall|q: int| from <= q < arms.len() ==> !(#[trigger] arms[q].pat matches Pat::Slice(n) && n == 0),
        forall|q: int| from <= q < arms.len() - 1 ==> !(#[trigger] arms[q].pat is Wild),
    ensures
        arms_fault(arms, k, err, sort) == arms_fault(arms, from, err, sort),
    decreases k,
{
    if k > from {
        lemma_later_arms_keep(arms, from, k - 1, err, sort);
        let a = arms[k - 1];
        assert(!(a.pat matches Pat::Slice(n) && n == 0));
        if k - 1 != arms.len() - 1 {
            assert(!(a.pat is Wild));
        }
    }
}

/// Law: when the tuple-struct arms of a `match` are out of order, the visit
/// ends there with the error that names the path belonging at the first
/// place where the order goes wrong and the path found there, as "`later`
/// should sort before `earlier`", pointing at the former's path.
pub proof fn lemma_unsorted_arms_reported(m: MatchExpr, err: Option<Fault>)
    requires
        !keys_sorted(path_keys(tuple_struct_paths(m.arms@))),
    ensures
        spec_visit(m, err) matches Some(f) && f.at_path && exists|i: int, j: int|
            #![trigger is_displacing(path_keys(tuple_struct_paths(m.arms@)), i, j)]
            {
                &&& is_first_misplaced(path_keys(tuple_struct_paths(m.arms@)), i)
                &&& is_displacing(path_keys(tuple_struct_paths(m.arms@)), i, j)
                &&& f.message == tuple_struct_paths(m.arms@)[j].0 + " should sort before "@
                    + tuple_struct_paths(m.arms@)[i].0
                &&& f.arm == tuple_struct_paths(m.arms@)[j].1
            },
{
    let paths = tuple_struct_paths(m.arms@);
    let keys = path_keys(paths);
    lemma_unsorted_names_have_culprit(keys);
    let i = choose|i: int| is_first_misplaced(keys, i);
    let j = choose|j: int| is_displacing(keys, i, j);
    assert(keys[i] == paths[i].0 && keys[j] == paths[j].0);
}

/// Law: names are in sorted order exactly when each name is equal to, or
/// sorts before, the name that follows it (repeated names are in order).
pub proof fn lemma_sorted_by_neighbours(keys: Seq<Seq<char>>)
    ensures
        keys_sorted(keys) <==> forall|i: int|
            0 <= i < keys.len() - 1 ==> #[trigger] keys[i] == keys[i + 1] || lex_lt(keys[i], keys[i + 1]),
{
    if forall|i: int| 0 <= i < keys.len() - 1 ==> #[trigger] keys[i] == keys[i + 1] || lex_lt(keys[i], keys[i + 1]) {
        assert forall|i: int, j: int| 0 <= i < j < keys.len() implies !lex_lt(#[trigger] keys[j], #[trigger] keys[i]) by {
            lemma_chain_le(keys, i, j);
            if lex_lt(keys[j], keys[i]) {
                if keys[i] == keys[j] {
                    lemma_lex_lt_irreflexive(keys[i]);
                } else {
                    lemma_lex_lt_transitive(keys[j], keys[i], keys[j]);
                    lemma_lex_lt_irreflexive(keys[j]);
                }
            }
        }
    }
    if keys_sorted(keys) {
        assert forall|i: int| 0 <= i < keys.len() - 1 implies #[trigger] keys[i] == keys[i + 1] || lex_lt(keys[i], keys[i + 1]) by {
            assert(!lex_lt(keys[i + 1], keys[i]));
            lemma_lex_lt_total(keys[i], keys[i + 1]);
        }
    }
}

proof fn lemma_chain_le(keys: Seq<Seq<char>>, i: int, j: int)
    requires
        0 <= i <= j < keys.len(),
        forall|q: int| 0 <= q < keys.len() - 1 ==> #[trigger] keys[q] == keys[q + 1] || lex_lt(keys[q], keys[q + 1]),
    ensures
        keys[i] == keys[j] || lex_lt(keys[i], keys[j]),
    decreases j - i,
{
    if i < j {
        lemma_chain_le(keys, i, j - 1);
        assert(keys[j - 1] == keys[j] || lex_lt(keys[j - 1], keys[j]));
        if keys[i] != keys[j - 1] && keys[j - 1] != keys[j] {
            lemma_lex_lt_transitive(keys[i], keys[j - 1], keys[j]);
        }
    }
}

/// Law: the attributes that `#[sorted::check]` treats as `#[sorted]` are
/// those whose path is the one segment `sorted`, without generic arguments
/// and without a leading `::` (so not `#[a::sorted]`), whatever follows the
/// path.
pub proof fn lemma_sorted_attr_shape(a: Attribute)
    ensures
        is_sorted_attr(a) <==> !a.path.leading_colon && a.path.segments@.len() == 1
            && a.path.segments@[0].arguments is Bare && a.path.segments@[0].ident@ == "sorted"@,
{
}

/// Law: `#[sorted::check]` removes from a `match` exactly its `#[sorted]`
/// attributes and keeps the others in order: none is left, and a `match`
/// without one keeps all its attributes.
pub proof fn lemma_strip_attrs(attrs: Seq<Attribute>)
    ensures
        forall|k: int| 0 <= k < strip_attrs(attrs).len() ==> !is_sorted_attr(#[trigger] strip_attrs(attrs)[k]),
        strip_attrs(attrs).len() <= attrs.len(),
        (forall|k: int| 0 <= k < attrs.len() ==> !is_sorted_attr(#[trigger] attrs[k])) ==> strip_attrs(attrs) == attrs,
    decreases attrs.len(),
{
    if attrs.len() > 0 {
        lemma_strip_attrs(attrs.drop_last());
        let before = strip_attrs(attrs.drop_last());
        if forall|k: int| 0 <= k < attrs.len() ==> !is_sorted_attr(#[trigger] attrs[k]) {
            assert forall|k: int| 0 <= k < attrs.len() - 1 implies !is_sorted_attr(#[trigger] attrs.drop_last()[k]) by {
                assert(attrs.drop_last()[k] == attrs[k]);
            }
            assert(!is_sorted_attr(attrs[attrs.len() - 1]));
            assert(attrs.drop_last().push(attrs.last()) =~= attrs);
        }
        if !is_sorted_attr(attrs.last()) {
            assert forall|k: int| 0 <= k < strip_attrs(attrs).len() implies !is_sorted_attr(#[trigger] strip_attrs(attrs)[k]) by {
                if k < before.len() {
                    assert(strip_attrs(attrs)[k] == before[k]);
                }
            }
        }
    }
}

/// Law: the `#[sorted]` attribute that an empty slice pattern's message
/// names is the last one of the `match`, as written; there is none when the
/// `match` has no `#[sorted]` attribute.
pub proof fn lemma_last_sorted_attr(attrs: Seq<Attribute>, i: int)
    ensures
        0 <= i < attrs.len() && is_sorted_attr(attrs[i]) && (forall|k: int| i < k < attrs.len() ==> !is_sorted_attr(#[trigger] attrs[k]))
            ==> last_sorted_attr(attrs) == Some(attrs[i].text@),
        (forall|k: int| 0 <= k < attrs.len() ==> !is_sorted_attr(#[trigger] attrs[k])) ==> last_sorted_attr(attrs) is None,
    decreases attrs.len(),
{
    if attrs.len() > 0 {
        lemma_last_sorted_attr(attrs.drop_last(), i);
        let last = attrs.len() - 1;
        assert(attrs.last() == attrs[last]);
        if 0 <= i < attrs.len() && is_sorted_attr(attrs[i]) && (forall|k: int| i < k < attrs.len() ==> !is_sorted_attr(#[trigger] attrs[k])) {
            if i < last {
                assert(!is_sorted_attr(attrs[last]));
                assert(attrs.drop_last()[i] == attrs[i]);
                assert forall|k: int| i < k < attrs.len() - 1 implies !is_sorted_attr(#[trigger] attrs.drop_last()[k]) by {
                    assert(attrs.drop_last()[k] == attrs[k]);
                }
            }
        }
        if forall|k: int| 0 <= k < attrs.len() ==> !is_sorted_attr(#[trigger] attrs[k]) {
            assert(!is_sorted_attr(attrs[last]));
            assert forall|k: int| 0 <= k < attrs.len() - 1 implies !is_sorted_attr(#[trigger] attrs.drop_last()[k]) by {
                assert(attrs.drop_last()[k] == attrs[k]);
            }
        }
    }
}

/// Law: a path is written as its first segment followed by `::` and each
/// further segment in turn: `A` alone, `A::B`, and one more `::C` for each
/// segment added.
pub proof fn lemma_path_text(head: Seq<char>, tail: Seq<Seq<char>>, x: Seq<char>)
    ensures
        tail.len() == 0 ==> path_text(head, tail) == head,
        tail.len() == 1 ==> path_text(head, tail) == head + "::"@ + tail[0],
        path_text(head, tail.push(x)) == path_text(head, tail) + "::"@ + x,
{
    assert(tail.push(x).drop_last() =~= tail);
    if tail.len() == 1 {
        assert(tail.drop_last() =~= Seq::<Seq<char>>::empty());
        assert(path_text(head, tail.drop_last()) == head);
        assert(tail.last() == tail[0]);
    }
}

/// Law: when every arm of a `match` is a tuple-struct pattern, the paths
/// compared are those of all the arms, in the arms' order, each with its arm.
pub proof fn lemma_all_tuple_struct_paths(arms: Seq<Arm>)
    requires
        forall|k: int| 0 <= k < arms.len() ==> #[trigger] arms[k].pat is TupleStruct,
    ensures
        tuple_struct_paths(arms).len() == arms.len(),
        forall|k: int|
            0 <= k < arms.len() ==> #[trigger] tuple_struct_paths(arms)[k] == (
                path_text(arms[k].pat->TupleStruct_head@, views(arms[k].pat->TupleStruct_tail@)),
                arms[k].id,
            ),
    decreases arms.len(),
{
    if arms.len() > 0 {
        assert forall|k: int| 0 <= k < arms.len() - 1 implies #[trigger] arms.drop_last()[k].pat is TupleStruct by {
            assert(arms.drop_last()[k] == arms[k]);
        }
        lemma_all_tuple_struct_paths(arms.drop_last());
        assert(arms.last().pat is TupleStruct);
        assert forall|k: int| 0 <= k < arms.len() implies #[trigger] tuple_struct_paths(arms)[k] == (
            path_text(arms[k].pat->TupleStruct_head@, views(arms[k].pat->TupleStruct_tail@)),
            arms[k].id,
        ) by {
            if k < arms.len() - 1 {
                assert(arms.drop_last()[k] == arms[k]);
            }
        }
    }
}

} // verus!
