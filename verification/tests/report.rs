use garde::builder::{FlatBuilder, IndexedBuilder, KeyedBuilder};
use garde::error::Error;
use garde::path::{Path, Segment};
use garde::report::Report;

fn flat(path: &Path, messages: &[&str]) -> Report {
    let mut builder = FlatBuilder::new(path.share());
    for message in messages {
        builder.push(Error::new(message));
    }
    builder.finish()
}

#[test]
fn empty_path_renders_as_nothing() {
    assert_eq!(Path::empty().render(), "");
    assert!(Path::empty().is_empty());
}

#[test]
fn path_renders_keys_and_indices() {
    let path = Path::empty()
        .join(Segment::key("a"))
        .join(Segment::key("b"))
        .join(Segment::index(2))
        .join(Segment::key("c"));
    assert_eq!(path.render(), "a.b[2].c");
    assert!(!path.is_empty());
}

#[test]
fn path_that_starts_with_an_index() {
    let path = Path::empty().join(Segment::index(0)).join(Segment::index(12345)).join(Segment::key("x"));
    assert_eq!(path.render(), "[0][12345].x");
}

#[test]
fn index_renders_in_decimal() {
    assert_eq!(Path::empty().join(Segment::index(10)).render(), "[10]");
    assert_eq!(Path::empty().join(Segment::index(907)).render(), "[907]");
    assert_eq!(
        Path::empty().join(Segment::index(usize::MAX)).render(),
        format!("[{}]", usize::MAX)
    );
    assert_eq!(garde::text::decimal_string(0), "0");
    assert_eq!(garde::text::decimal_string(9), "9");
    assert_eq!(garde::text::decimal_string(1000), "1000");
}

#[test]
fn join_leaves_the_prefix_as_it_was() {
    let prefix = Path::empty().join(Segment::key("a"));
    let left = prefix.join(Segment::key("b"));
    let right = prefix.join(Segment::index(1));
    assert_eq!(prefix.render(), "a");
    assert_eq!(left.render(), "a.b");
    assert_eq!(right.render(), "a[1]");
}

#[test]
fn paths_are_equal_when_their_segments_are() {
    let a = Path::empty().join(Segment::key("a")).join(Segment::index(1));
    let b = Path::empty().join(Segment::key("a")).join(Segment::index(1));
    let c = Path::empty().join(Segment::key("a")).join(Segment::index(2));
    let d = Path::empty().join(Segment::key("a"));
    let e = Path::empty().join(Segment::key("b")).join(Segment::index(1));
    assert!(a.same(&b));
    assert!(a.same(&a.share()));
    assert!(!a.same(&c));
    assert!(!a.same(&d));
    assert!(!d.same(&a));
    assert!(!a.same(&e));
    assert!(Path::empty().same(&Path::empty()));
    assert!(!Path::empty().same(&d));
    assert!(a == b);
    assert!(a != c);
    assert_eq!(a, b);
    assert_ne!(d, e);
}

#[test]
fn segments_compare_by_kind_and_content() {
    assert!(Segment::key("a").same(&Segment::key("a")));
    assert!(!Segment::key("a").same(&Segment::key("b")));
    assert!(Segment::index(1).same(&Segment::index(1)));
    assert!(!Segment::index(1).same(&Segment::index(2)));
    assert!(!Segment::key("1").same(&Segment::index(1)));
    assert!(!Segment::index(1).same(&Segment::key("1")));
    assert_eq!(Segment::key("a"), Segment::key("a"));
    assert_ne!(Segment::key("a"), Segment::index(0));
}

#[test]
fn error_keeps_its_message() {
    let error = Error::new("length out of bounds");
    assert_eq!(error.message(), "length out of bounds");
    assert_eq!(error.clone().message(), "length out of bounds");
    assert_eq!(Error::new("").message(), "");
    assert_eq!(Error::new("same"), Error::new("same"));
    assert_ne!(Error::new("same"), Error::new("other"));
}

#[test]
fn flat_builder_without_errors_finishes_empty() {
    let report = FlatBuilder::new(Path::empty()).finish();
    assert!(report.is_empty());
    assert_eq!(report.render(), "");
    assert!(report.leaves().is_empty());
}

#[test]
fn flat_report_keeps_the_order_of_its_errors() {
    let path = Path::empty().join(Segment::key("name"));
    let report = flat(&path, &["first", "second", "third"]);
    assert!(!report.is_empty());
    assert_eq!(report.render(), "name: first\nname: second\nname: third\n");
}

#[test]
fn builders_leave_out_empty_children() {
    let root = Path::empty();
    let mut keyed = KeyedBuilder::new();
    keyed.insert("a", flat(&root.join(Segment::key("a")), &[]));
    keyed.insert("b", IndexedBuilder::new().finish());
    keyed.insert("c", KeyedBuilder::new().finish());
    let report = keyed.finish();
    assert!(report.is_empty());
    match report {
        Report::Keyed(children) => assert!(children.is_empty()),
        _ => panic!("a keyed builder gives a keyed report"),
    }
    let mut indexed = IndexedBuilder::new();
    indexed.insert(0, flat(&root.join(Segment::index(0)), &[]));
    match indexed.finish() {
        Report::Indexed(children) => assert!(children.is_empty()),
        _ => panic!("an indexed builder gives an indexed report"),
    }
}

#[test]
fn builders_keep_the_order_of_insertion() {
    let root = Path::empty();
    let mut list = IndexedBuilder::new();
    list.insert(2, flat(&root.join(Segment::key("l")).join(Segment::index(2)), &["late"]));
    list.insert(0, flat(&root.join(Segment::key("l")).join(Segment::index(0)), &["early"]));
    let mut keyed = KeyedBuilder::new();
    keyed.insert("z", flat(&root.join(Segment::key("z")), &["last name first"]));
    keyed.insert("l", list.finish());
    keyed.insert("a", flat(&root.join(Segment::key("a")), &["one", "two"]));
    let report = keyed.finish();
    assert_eq!(
        report.render(),
        "z: last name first\nl[2]: late\nl[0]: early\na: one\na: two\n"
    );
    match &report {
        Report::Keyed(children) => {
            let names: Vec<&str> = children.iter().map(|child| child.0.as_str()).collect();
            assert_eq!(names, vec!["z", "l", "a"]);
        }
        _ => panic!("a keyed builder gives a keyed report"),
    }
}

#[test]
fn leaves_can_be_walked_again() {
    let root = Path::empty();
    let mut keyed = KeyedBuilder::new();
    keyed.insert("a", flat(&root.join(Segment::key("a")), &["one", "two"]));
    keyed.insert("b", flat(&root.join(Segment::key("b")), &["three"]));
    let report = keyed.finish();
    let first: Vec<(String, String)> = report
        .leaves()
        .iter()
        .map(|(path, error)| (path.render(), error.message().to_string()))
        .collect();
    let second: Vec<(String, String)> = report
        .leaves()
        .iter()
        .map(|(path, error)| (path.render(), error.message().to_string()))
        .collect();
    assert_eq!(first, second);
    assert_eq!(
        first,
        vec![
            ("a".to_string(), "one".to_string()),
            ("a".to_string(), "two".to_string()),
            ("b".to_string(), "three".to_string()),
        ]
    );
    assert_eq!(report.render(), "a: one\na: two\nb: three\n");
}

#[test]
fn report_built_by_hand_with_an_empty_child_is_still_empty() {
    let report = Report::Keyed(vec![(
        "a".into(),
        Report::Indexed(vec![(0, Report::Flat(Path::empty(), vec![]))]),
    )]);
    assert!(report.is_empty());
    let report = Report::Keyed(vec![
        ("a".into(), Report::Flat(Path::empty(), vec![])),
        ("b".into(), Report::Indexed(vec![(4, Report::Flat(Path::empty(), vec![Error::new("x")]))])),
    ]);
    assert!(!report.is_empty());
    assert_eq!(report.render(), ": x\n");
}
