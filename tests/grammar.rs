use paneboard::fraction::Fraction;
use paneboard::model::{DisplayMoveTarget, MirrorMode, ParsedForm, TraverseOrder};
use paneboard::parse::parse_measure_ref;
use paneboard::model::MeasureRef;
use paneboard::xml::XmlAttr;

fn attrs(pairs: &[(&str, &str)]) -> Vec<XmlAttr> {
    pairs.iter().map(|(k, v)| XmlAttr { key: k.to_string(), value: v.to_string() }).collect()
}

#[test]
fn display_move_targets_and_wrap_default() {
    let d = ParsedForm::parse_display_move(&attrs(&[("key", "pagedown"), ("target", "next")])).unwrap();
    assert_eq!(d.key, "pagedown");
    assert_eq!(d.target, DisplayMoveTarget::Next { wrap: true });
    let d = ParsedForm::parse_display_move(&attrs(&[("key", "k"), ("target", "prev"), ("wrap", "false")])).unwrap();
    assert_eq!(d.target, DisplayMoveTarget::Prev { wrap: false });
    let d = ParsedForm::parse_display_move(&attrs(&[("key", "k"), ("target", "2")])).unwrap();
    assert_eq!(d.target, DisplayMoveTarget::Index(2));
    let d = ParsedForm::parse_display_move(&attrs(&[("key", "k"), ("next", "true")])).unwrap();
    assert_eq!(d.target, DisplayMoveTarget::Next { wrap: true });
    assert!(ParsedForm::parse_display_move(&attrs(&[("key", "k"), ("target", "up")])).is_err());
    assert!(ParsedForm::parse_display_move(&attrs(&[("target", "next")])).is_err());
    assert!(ParsedForm::parse_display_move(&attrs(&[("key", "k"), ("target", "next"), ("prev", "true")])).is_err());
}

#[test]
fn layout_action_defaults_and_words() {
    let a = ParsedForm::parse_layout_action(&attrs(&[("key", "home"), ("layout", "q")])).unwrap();
    assert_eq!((a.key.as_str(), a.layout.as_str()), ("home", "q"));
    assert_eq!(a.traverse, TraverseOrder::XfYf);
    assert_eq!((a.mirror_x, a.mirror_y), (MirrorMode::Keep, MirrorMode::Keep));
    let a = ParsedForm::parse_layout_action(&attrs(&[
        ("key", "k"),
        ("layout", "q"),
        ("traverse", "YRXF"),
        ("mirrorX", "flip"),
    ]))
    .unwrap();
    assert_eq!(a.traverse, TraverseOrder::YrXf);
    assert_eq!(a.mirror_x, MirrorMode::Flip);
    assert!(ParsedForm::parse_layout_action(&attrs(&[("key", "k"), ("layout", "q"), ("mirrorY", "Flip")])).is_err());
    assert!(ParsedForm::parse_layout_action(&attrs(&[("key", "k")])).is_err());
}

#[test]
fn pane_and_measure_attributes() {
    let p = ParsedForm::parse_pane(&attrs(&[("x", "1/2"), ("y", "0"), ("width", "2/4"), ("height", "1")])).unwrap();
    assert_eq!(p.width, Fraction { num: 1, den: 2 });
    assert!(ParsedForm::parse_pane(&attrs(&[("x", "1/2"), ("y", "0"), ("width", "1/2")])).is_err());
    assert!(ParsedForm::parse_pane(&attrs(&[("x", "1/0"), ("y", "0"), ("width", "1"), ("height", "1")])).is_err());
    let m = ParsedForm::parse_measure(&attrs(&[("name", "gap"), ("value", "12")])).unwrap();
    assert_eq!(m, ("gap".to_string(), 12));
    assert!(ParsedForm::parse_measure(&attrs(&[("name", "gap"), ("value", "x")])).is_err());
    assert!(ParsedForm::parse_measure(&attrs(&[("value", "3")])).is_err());
}

#[test]
fn measure_refs_and_includes() {
    assert!(matches!(parse_measure_ref("1200"), MeasureRef::Literal(1200)));
    assert!(matches!(parse_measure_ref("wide"), MeasureRef::Name(ref n) if n == "wide"));
    let inc = ParsedForm::parse_include(&attrs(&[("layout", "B"), ("minWidth", "1000"), ("nameContains", "dell")])).unwrap();
    assert_eq!(inc.layout.as_deref(), Some("B"));
    assert_eq!(inc.condition.min_width, Some(1000));
    assert!(ParsedForm::parse_include(&attrs(&[("minWidth", "wide")])).is_err());
}
