use path_router::pattern::{Pattern, PatternError, Segment};

fn literal(text: &str) -> Segment {
    Segment::Literal(text.to_string())
}

fn dynamic(name: &str) -> Segment {
    Segment::Dynamic(name.to_string())
}

fn wildcard(name: &str) -> Segment {
    Segment::Wildcard(name.to_string())
}

#[test]
fn parse_reads_each_kind_of_segment() {
    let pattern = Pattern::parse("/user/:id/posts/*rest").unwrap();
    assert_eq!(
        pattern.segments(),
        &vec![literal("user"), dynamic("id"), literal("posts"), wildcard("rest")]
    );
}

#[test]
fn parse_ignores_one_leading_and_one_trailing_separator() {
    let with_both = Pattern::parse("/a/b/").unwrap();
    let with_none = Pattern::parse("a/b").unwrap();
    assert_eq!(with_both, with_none);
    assert_eq!(with_both.segments(), &vec![literal("a"), literal("b")]);
}

#[test]
fn parse_keeps_empty_segments_inside_the_text() {
    let pattern = Pattern::parse("/a//b").unwrap();
    assert_eq!(pattern.segments(), &vec![literal("a"), literal(""), literal("b")]);
    let doubled = Pattern::parse("/a//").unwrap();
    assert_eq!(doubled.segments(), &vec![literal("a"), literal("")]);
}

#[test]
fn parse_of_the_root_has_no_segments() {
    assert!(Pattern::parse("/").unwrap().segments().is_empty());
    assert!(Pattern::parse("").unwrap().segments().is_empty());
}

#[test]
fn parse_takes_a_mark_inside_a_segment_literally() {
    let pattern = Pattern::parse("/a:b/c*d").unwrap();
    assert_eq!(pattern.segments(), &vec![literal("a:b"), literal("c*d")]);
}

#[test]
fn parse_keeps_marks_inside_a_name() {
    let pattern = Pattern::parse("/::x/*:y").unwrap();
    assert_eq!(pattern.segments(), &vec![dynamic(":x"), wildcard(":y")]);
}

#[test]
fn parse_handles_text_beyond_ascii() {
    let pattern = Pattern::parse("/caf\u{e9}/:\u{540d}\u{524d}").unwrap();
    assert_eq!(
        pattern.segments(),
        &vec![literal("caf\u{e9}"), dynamic("\u{540d}\u{524d}")]
    );
}

#[test]
fn parse_rejects_an_empty_dynamic_name() {
    assert_eq!(Pattern::parse("/user/:"), Err(PatternError::EmptyName));
    assert_eq!(Pattern::parse("/user/:/posts"), Err(PatternError::EmptyName));
}

#[test]
fn parse_rejects_an_empty_wildcard_name() {
    assert_eq!(Pattern::parse("/files/*"), Err(PatternError::EmptyName));
}

#[test]
fn parse_rejects_a_wildcard_before_the_end() {
    assert_eq!(
        Pattern::parse("/files/*rest/edit"),
        Err(PatternError::MisplacedWildcard)
    );
    assert_eq!(Pattern::parse("/*rest/:id"), Err(PatternError::MisplacedWildcard));
}

#[test]
fn parse_rejects_two_wildcards() {
    assert_eq!(Pattern::parse("/a/*x/*y"), Err(PatternError::MisplacedWildcard));
    assert_eq!(Pattern::parse("/*x/*x"), Err(PatternError::MisplacedWildcard));
}

#[test]
fn parse_rejects_a_name_bound_twice() {
    assert_eq!(Pattern::parse("/:id/:id"), Err(PatternError::DuplicateName));
    assert_eq!(Pattern::parse("/:a/x/*a"), Err(PatternError::DuplicateName));
}

#[test]
fn parse_accepts_a_name_that_equals_a_literal() {
    let pattern = Pattern::parse("/id/:id").unwrap();
    assert_eq!(pattern.segments(), &vec![literal("id"), dynamic("id")]);
}

#[test]
fn parse_reports_the_first_faulty_segment() {
    assert_eq!(Pattern::parse("/:a/:a/:"), Err(PatternError::DuplicateName));
    assert_eq!(Pattern::parse("/:/:a/:a"), Err(PatternError::EmptyName));
    assert_eq!(Pattern::parse("/*a/:b/:b"), Err(PatternError::MisplacedWildcard));
}

#[test]
fn parse_reports_the_first_defect_of_a_segment() {
    assert_eq!(Pattern::parse("/*/x"), Err(PatternError::EmptyName));
    assert_eq!(Pattern::parse("/:a/*a/x"), Err(PatternError::MisplacedWildcard));
}

#[test]
fn from_segments_validates_as_parse_does() {
    let good = Pattern::from_segments(vec![literal("files"), wildcard("rest")]).unwrap();
    assert_eq!(good, Pattern::parse("/files/*rest").unwrap());
    assert_eq!(
        Pattern::from_segments(vec![wildcard("rest"), literal("files")]),
        Err(PatternError::MisplacedWildcard)
    );
    assert_eq!(
        Pattern::from_segments(vec![dynamic("")]),
        Err(PatternError::EmptyName)
    );
    assert_eq!(
        Pattern::from_segments(vec![dynamic("a"), literal("x"), dynamic("a")]),
        Err(PatternError::DuplicateName)
    );
}

#[test]
fn segment_from_text_reads_the_first_character() {
    assert_eq!(Segment::from_text("about"), literal("about"));
    assert_eq!(Segment::from_text(":id"), dynamic("id"));
    assert_eq!(Segment::from_text("*rest"), wildcard("rest"));
    assert_eq!(Segment::from_text(""), literal(""));
    assert_eq!(Segment::from_text(":"), dynamic(""));
    assert_eq!(Segment::from_text("*"), wildcard(""));
}

#[test]
fn segment_name_is_that_of_a_named_segment() {
    assert_eq!(literal("about").name(), None);
    assert_eq!(dynamic("id").name(), Some(&"id".to_string()));
    assert_eq!(wildcard("rest").name(), Some(&"rest".to_string()));
}
