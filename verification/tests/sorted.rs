use macro_workshop::sorted::{
    check, first_misordered, handle_enum, is_sorted_attribute, sorted, Arm, CheckedItem, MatchExpr,
    Pat, SortedItem, SortedOutcome,
};
use macro_workshop::syntax::{AttrPath, Attribute, Meta, PathArguments, PathSegment};

fn names(v: &[&str]) -> Vec<String> {
    v.iter().map(|s| s.to_string()).collect()
}

fn sorted_attr() -> Attribute {
    Attribute {
        path: AttrPath {
            leading_colon: false,
            segments: vec![PathSegment { ident: "sorted".to_string(), arguments: PathArguments::Bare }],
        },
        meta: Meta::Path,
        text: "# [sorted]".to_string(),
    }
}

fn tuple(path: &str, id: usize) -> Arm {
    let mut segs = path.split("::").map(|s| s.to_string());
    let head = segs.next().unwrap();
    Arm { pat: Pat::TupleStruct { head, tail: segs.collect() }, id }
}

fn arm(pat: Pat, id: usize) -> Arm {
    Arm { pat, id }
}

fn matching(attrs: Vec<Attribute>, arms: Vec<Arm>, nested: Vec<MatchExpr>) -> MatchExpr {
    MatchExpr { attrs, arms, nested }
}

#[test]
fn sorted_variants_are_accepted() {
    assert!(handle_enum(&names(&["Card", "Deck", "Hand", "Shoe"])).is_ok());
    assert!(handle_enum(&names(&[])).is_ok());
    assert!(handle_enum(&names(&["A", "A", "B"])).is_ok());
}

#[test]
fn the_first_variant_out_of_place_is_reported() {
    let e = handle_enum(&names(&["ThatFailed", "ThisFailed", "SomethingFailed", "WhoKnowsWhatFailed"]))
        .unwrap_err();
    assert_eq!(e.message, "SomethingFailed should sort before ThatFailed");
    assert_eq!(e.at, 2);
}

#[test]
fn the_first_of_equal_smallest_names_is_reported() {
    assert_eq!(first_misordered(&names(&["B", "A", "A"])), Some((0, 1)));
    assert_eq!(first_misordered(&names(&["A", "C", "B", "B"])), Some((1, 2)));
    assert_eq!(first_misordered(&names(&["A", "B"])), None);
}

#[test]
fn ordering_is_by_characters() {
    // uppercase letters sort before lowercase ones; a prefix sorts first
    assert!(handle_enum(&names(&["Zed", "apple"])).is_ok());
    assert!(handle_enum(&names(&["Ab", "Abc"])).is_ok());
    let e = handle_enum(&names(&["Abc", "Ab"])).unwrap_err();
    assert_eq!(e.message, "Ab should sort before Abc");
}

#[test]
fn sorted_rejects_non_enums() {
    assert!(matches!(sorted(&SortedItem::Other), SortedOutcome::NotEnum));
    assert!(matches!(sorted(&SortedItem::Enum(names(&["A", "B"]))), SortedOutcome::Accepted));
    match sorted(&SortedItem::Enum(names(&["B", "A"]))) {
        SortedOutcome::Misordered(e) => assert_eq!((e.message.as_str(), e.at), ("A should sort before B", 1)),
        _ => panic!("expected an error"),
    }
}

#[test]
fn sorted_attribute_is_recognized() {
    assert!(is_sorted_attribute(&sorted_attr()));
    let mut other = sorted_attr();
    other.path.leading_colon = true;
    assert!(!is_sorted_attribute(&other));
}

#[test]
fn byte_slice_match_passes() {
    // the `match bytes { [a] => .., [a, b] => .., _other => None }` of the example program
    let m = matching(
        vec![sorted_attr()],
        vec![arm(Pat::Slice(1), 0), arm(Pat::Slice(2), 1), arm(Pat::Other, 2)],
        vec![],
    );
    assert!(check(&mut CheckedItem::Fn(vec![m])).is_none());
}

#[test]
fn misordered_paths_are_reported_at_the_path() {
    let m = matching(
        vec![sorted_attr()],
        vec![tuple("Error::Io", 10), tuple("Error::Fmt", 11)],
        vec![],
    );
    let e = check(&mut CheckedItem::Fn(vec![m])).unwrap();
    assert_eq!(e.message, "Error::Fmt should sort before Error::Io");
    assert_eq!(e.arm, 11);
    assert!(e.at_path);
}

#[test]
fn a_wildcard_must_come_last() {
    let m = matching(vec![], vec![arm(Pat::Wild, 3), tuple("A", 4)], vec![]);
    let e = check(&mut CheckedItem::Fn(vec![m])).unwrap();
    assert_eq!(e.message, "wild arm should at the end of match block");
    assert_eq!(e.arm, 3);
    assert!(!e.at_path);
    let last = matching(vec![], vec![tuple("A", 4), arm(Pat::Wild, 5)], vec![]);
    assert!(check(&mut CheckedItem::Fn(vec![last])).is_none());
}

#[test]
fn empty_slices_are_unsupported() {
    let with_attr = matching(vec![sorted_attr()], vec![arm(Pat::Slice(0), 7)], vec![]);
    let e = check(&mut CheckedItem::Fn(vec![with_attr])).unwrap();
    assert_eq!(e.message, "unsupported by # [sorted]");
    assert_eq!(e.arm, 7);
    let without = matching(vec![], vec![arm(Pat::Slice(0), 8)], vec![]);
    assert_eq!(check(&mut CheckedItem::Fn(vec![without])).unwrap().message, "unsupported by ");
}

#[test]
fn inner_matches_are_checked_and_the_last_error_wins() {
    let inner = matching(vec![], vec![tuple("B", 21), tuple("A", 22)], vec![]);
    let outer = matching(vec![], vec![tuple("X", 1), tuple("Y", 2)], vec![inner]);
    let e = check(&mut CheckedItem::Fn(vec![outer])).unwrap();
    assert_eq!(e.arm, 22);
    let first = matching(vec![], vec![arm(Pat::Wild, 1), tuple("A", 2)], vec![]);
    let second = matching(vec![], vec![arm(Pat::Wild, 3), tuple("A", 4)], vec![]);
    assert_eq!(check(&mut CheckedItem::Fn(vec![first, second])).unwrap().arm, 3);
}

#[test]
fn an_order_error_stops_the_visit_of_inner_matches() {
    let inner = matching(vec![], vec![arm(Pat::Wild, 30), tuple("A", 31)], vec![]);
    let outer = matching(vec![], vec![tuple("B", 1), tuple("A", 2)], vec![inner]);
    assert_eq!(check(&mut CheckedItem::Fn(vec![outer])).unwrap().arm, 2);
}

#[test]
fn other_items_pass_unchecked() {
    assert!(check(&mut CheckedItem::Other).is_none());
}

fn doc_attr() -> Attribute {
    Attribute {
        path: AttrPath {
            leading_colon: false,
            segments: vec![PathSegment { ident: "doc".to_string(), arguments: PathArguments::Bare }],
        },
        meta: Meta::Path,
        text: "# [doc]".to_string(),
    }
}

fn attr_texts(m: &MatchExpr) -> Vec<String> {
    m.attrs.iter().map(|a| a.text.clone()).collect()
}

#[test]
fn sorted_attributes_are_removed_from_visited_matches() {
    let inner = matching(vec![sorted_attr(), doc_attr()], vec![tuple("A", 5)], vec![]);
    let outer = matching(vec![doc_attr(), sorted_attr(), sorted_attr()], vec![tuple("X", 1)], vec![inner]);
    let mut item = CheckedItem::Fn(vec![outer]);
    assert!(check(&mut item).is_none());
    match &item {
        CheckedItem::Fn(ms) => {
            assert_eq!(attr_texts(&ms[0]), vec!["# [doc]".to_string()]);
            assert_eq!(attr_texts(&ms[0].nested[0]), vec!["# [doc]".to_string()]);
        }
        CheckedItem::Other => panic!("the item changed kind"),
    }
}

#[test]
fn matches_inside_a_misordered_match_keep_their_attributes() {
    let inner = matching(vec![sorted_attr()], vec![tuple("A", 5)], vec![]);
    let outer = matching(vec![sorted_attr()], vec![tuple("B", 1), tuple("A", 2)], vec![inner]);
    let mut item = CheckedItem::Fn(vec![outer]);
    assert_eq!(check(&mut item).unwrap().arm, 2);
    match &item {
        CheckedItem::Fn(ms) => {
            assert!(ms[0].attrs.is_empty());
            assert_eq!(attr_texts(&ms[0].nested[0]), vec!["# [sorted]".to_string()]);
        }
        CheckedItem::Other => panic!("the item changed kind"),
    }
}
