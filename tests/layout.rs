use paneboard::conditions::DisplayProps;
use paneboard::display::{realize_pane, realize_panes, PixelRect, VisibleFrame};
use paneboard::form::Form;
use paneboard::model::{ParsedForm, Platform};
use paneboard::order::PaneFrac;
use paneboard::fraction::Fraction;

const GRID: &str = r#"<Form>
  <Frame name="grid2x2">
    <Pane x="0" y="0" width="1/2" height="1/2"/>
    <Pane x="1/2" y="0" width="1/2" height="1/2"/>
    <Pane x="0" y="1/2" width="1/2" height="1/2"/>
    <Pane x="1/2" y="1/2" width="1/2" height="1/2"/>
  </Frame>
  <Layout name="quadrants">
    <Shape frame="grid2x2"><Include/><Include/><Include/><Include/></Shape>
  </Layout>
  <LayoutAction key="home" layout="quadrants" traverse="xfyf" mirrorX="keep" mirrorY="keep"/>
  <LayoutAction key="end" layout="quadrants" mirrorX="flip" mirrorY="keep"/>
</Form>"#;

fn display(w: u32, h: u32, name: &str) -> DisplayProps {
    DisplayProps { width: w, height: h, name: name.to_string() }
}

fn frame_1080() -> VisibleFrame {
    VisibleFrame { min_x: 0, min_y: 0, width: 1920, height: 1080 }
}

fn px(p: &PaneFrac) -> (i64, i64, i64, i64) {
    let r: PixelRect = realize_pane(&frame_1080(), p);
    (r.x, r.y, r.width, r.height)
}

fn form(xml: &str) -> Form {
    Form::from_config(xml, Platform::MacOS).expect("configuration loads")
}

#[test]
fn quadrant_tile_cycles_in_traverse_order() {
    let mut f = form(GRID);
    let d = display(1920, 1080, "Built-in");
    let mut seen = Vec::new();
    for _ in 0..5 {
        let (pane, _) = f.get_next_pane("home", &d).expect("a pane");
        seen.push(px(&pane));
    }
    assert_eq!(seen[0], (0, 0, 960, 540));
    assert_eq!(seen[1], (0, 540, 960, 540));
    assert_eq!(seen[2], (960, 0, 960, 540));
    assert_eq!(seen[3], (960, 540, 960, 540));
    assert_eq!(seen[4], seen[0]);
}

#[test]
fn mirror_flip_x_starts_top_right() {
    let mut f = form(GRID);
    let d = display(1920, 1080, "Built-in");
    let mut seen = Vec::new();
    for _ in 0..4 {
        let (pane, _) = f.get_next_pane("end", &d).expect("a pane");
        seen.push(px(&pane));
    }
    assert_eq!(seen, vec![(960, 0, 960, 540), (960, 540, 960, 540), (0, 0, 960, 540), (0, 540, 960, 540)]);
}

#[test]
fn mirror_flip_x_moves_the_large_pane_right() {
    let xml = r#"<Form>
      <Frame name="split">
        <Pane x="0" y="0" width="2/3" height="1"/>
        <Pane x="2/3" y="0" width="1/3" height="1"/>
      </Frame>
      <Layout name="s"><Shape frame="split"><Include/><Include/></Shape></Layout>
      <LayoutAction key="k" layout="s"/>
      <LayoutAction key="f" layout="s" mirrorX="flip"/>
      <LayoutAction key="v" layout="s" mirrorY="flip"/>
    </Form>"#;
    let mut f = form(xml);
    let d = display(1920, 1080, "X");
    assert_eq!(px(&f.get_next_pane("k", &d).unwrap().0), (0, 0, 1280, 1080));
    assert_eq!(px(&f.get_next_pane("f", &d).unwrap().0), (640, 0, 1280, 1080));
    assert_eq!(px(&f.get_next_pane("f", &d).unwrap().0), (0, 0, 640, 1080));
    assert_eq!(px(&f.get_next_pane("v", &d).unwrap().0), (0, 0, 1280, 1080));
}

#[test]
fn session_resets_on_release_and_on_other_key() {
    let mut f = form(GRID);
    let d = display(1920, 1080, "Built-in");
    assert_eq!(f.get_next_pane("home", &d).unwrap().1, 0);
    assert_eq!(f.get_next_pane("home", &d).unwrap().1, 1);
    f.reset_layout_session();
    assert_eq!(f.get_next_pane("home", &d).unwrap().1, 0);
    assert_eq!(f.get_next_pane("end", &d).unwrap().1, 0);
    assert!(f.get_next_pane("unbound", &d).is_none());
}

#[test]
fn conditional_drop_elides_portrait_child_on_landscape() {
    let xml = r#"<Form>
      <Frame name="thirds">
        <Pane x="0" y="0" width="1/3" height="1"/>
        <Pane x="1/3" y="0" width="1/3" height="1"/>
        <Pane x="2/3" y="0" width="1/3" height="1"/>
      </Frame>
      <Layout name="cols">
        <Shape frame="thirds"><Include/><Include whenOrientation="portrait"/><Include/></Shape>
      </Layout>
      <LayoutAction key="a" layout="cols"/>
    </Form>"#;
    let f = form(xml);
    let panes = f.panes_for_action("a", &display(1920, 1080, "X")).expect("panes");
    assert_eq!(panes.len(), 2);
    let xs: Vec<(u32, u32)> = panes.iter().map(|p| (p.x.num, p.x.den)).collect();
    assert_eq!(xs, vec![(0, 1), (2, 3)]);
    let portrait = f.panes_for_action("a", &display(1080, 1920, "X")).expect("panes");
    assert_eq!(portrait.len(), 3);
}

#[test]
fn include_chain_resolves_nested_layouts() {
    let xml = r#"<Form>
      <Frame name="halves">
        <Pane x="0" y="0" width="1/2" height="1"/>
        <Pane x="1/2" y="0" width="1/2" height="1"/>
      </Frame>
      <Layout name="C"><Shape frame="halves"><Include/><Include/></Shape></Layout>
      <Layout name="B"><Shape frame="halves"><Include layout="C"/><Include/></Shape></Layout>
      <Layout name="A"><Shape frame="halves"><Include layout="B"/><Include/></Shape></Layout>
      <LayoutAction key="a" layout="A"/>
    </Form>"#;
    let f = form(xml);
    let panes = f.panes_for_action("a", &display(1920, 1080, "X")).expect("panes");
    assert_eq!(panes.len(), 4);
    let widths: Vec<(u32, u32)> = panes.iter().map(|p| (p.width.num, p.width.den)).collect();
    assert_eq!(widths, vec![(1, 2), (1, 4), (1, 8), (1, 8)]);
}

#[test]
fn include_cycle_fails_instead_of_looping() {
    let xml = r#"<Form>
      <Frame name="full"><Pane x="0" y="0" width="1" height="1"/></Frame>
      <Layout name="A"><Shape frame="full"><Include layout="B"/></Shape></Layout>
      <Layout name="B"><Shape frame="full"><Include layout="A"/></Shape></Layout>
      <LayoutAction key="a" layout="A"/>
    </Form>"#;
    let f = form(xml);
    assert!(f.panes_for_action("a", &display(1920, 1080, "X")).is_none());
}

#[test]
fn display_quirk_reduces_design_height() {
    let xml = r#"<Form>
      <DisplayQuirk nameContains="TV" platform="macos" minBottomInset="60"/>
      <DisplayQuirk nameContains="Some" platform="macos" minBottomInset="20"/>
      <DisplayQuirk nameContains="TV" platform="windows" minBottomInset="90"/>
    </Form>"#;
    let f = form(xml);
    assert_eq!(f.design_height("SomeTV", 1080, 0, 0, 25), 1080 - 25 - 60);
    assert_eq!(f.design_height("SomeTV", 1055, 25, 0, 25), 1055 - 60);
    assert_eq!(f.design_height("Other", 1055, 25, 0, 25), 1055);
    let vf = VisibleFrame { min_x: 0, min_y: 0, width: 1920, height: f.design_height("SomeTV", 1055, 25, 0, 25) };
    let g = form(GRID);
    let panes = g.panes_for_action("home", &display(1920, 995, "SomeTV")).unwrap();
    for r in realize_panes(&vf, &panes) {
        assert!(r.y + r.height <= 995);
    }
}

#[test]
fn small_panes_are_filtered() {
    let half = Fraction { num: 1, den: 2 };
    let zero = Fraction { num: 0, den: 1 };
    let p = PaneFrac { x: zero, y: zero, width: half, height: half };
    let small = VisibleFrame { min_x: 10, min_y: 20, width: 150, height: 400 };
    assert!(realize_panes(&small, &vec![p]).is_empty());
    let big = VisibleFrame { min_x: 10, min_y: 20, width: 400, height: 400 };
    assert_eq!(realize_panes(&big, &vec![p]), vec![PixelRect { x: 10, y: 20, width: 200, height: 200 }]);
}

#[test]
fn realisation_halves_with_width() {
    let f = Fraction { num: 1, den: 3 };
    let p = PaneFrac { x: f, y: f, width: f, height: f };
    let full = realize_pane(&VisibleFrame { min_x: 0, min_y: 0, width: 1800, height: 900 }, &p);
    let half = realize_pane(&VisibleFrame { min_x: 0, min_y: 0, width: 900, height: 900 }, &p);
    let none = realize_pane(&VisibleFrame { min_x: 0, min_y: 0, width: 0, height: 900 }, &p);
    assert_eq!((full.x, full.width), (600, 600));
    assert_eq!((half.x, half.width), (300, 300));
    assert_eq!((none.x, none.width), (0, 0));
}

#[test]
fn sort_is_by_area_when_areas_differ() {
    let xml = r#"<Form>
      <Frame name="uneven">
        <Pane x="0" y="0" width="1/4" height="1"/>
        <Pane x="1/4" y="0" width="3/4" height="1"/>
      </Frame>
      <Layout name="u"><Shape frame="uneven"><Include/><Include/></Shape></Layout>
      <LayoutAction key="a" layout="u" traverse="xfyf"/>
      <LayoutAction key="b" layout="u" traverse="xryr"/>
    </Form>"#;
    let f = form(xml);
    let d = display(1920, 1080, "X");
    let a = f.panes_for_action("a", &d).unwrap();
    let b = f.panes_for_action("b", &d).unwrap();
    assert_eq!(a, b);
    assert_eq!((a[0].width.num, a[0].width.den), (3, 4));
}

#[test]
fn space_rejects_display() {
    let xml = r#"<Form>
      <Measure name="wide" value="2000"/>
      <Space name="big"><Match minWidth="wide"/><Exclude nameContains="Proj"/></Space>
      <Frame name="full"><Pane x="0" y="0" width="1" height="1"/></Frame>
      <Layout name="L" space="big"><Needs measure="wide"/><Shape frame="full"><Include/></Shape></Layout>
      <LayoutAction key="a" layout="L"/>
    </Form>"#;
    let f = form(xml);
    assert!(f.panes_for_action("a", &display(1920, 1080, "X")).is_none());
    assert!(f.panes_for_action("a", &display(2560, 1440, "X")).is_some());
    assert!(f.panes_for_action("a", &display(2560, 1440, "Projector")).is_none());
}

#[test]
fn include_name_test_ignores_case() {
    let xml = r#"<Form>
      <Frame name="halves">
        <Pane x="0" y="0" width="1/2" height="1"/>
        <Pane x="1/2" y="0" width="1/2" height="1"/>
      </Frame>
      <Layout name="L"><Shape frame="halves"><Include nameContains="dell"/><Include/></Shape></Layout>
      <LayoutAction key="a" layout="L"/>
    </Form>"#;
    let f = form(xml);
    assert_eq!(f.panes_for_action("a", &display(1920, 1080, "DELL U2720")).unwrap().len(), 2);
    assert_eq!(f.panes_for_action("a", &display(1920, 1080, "LG")).unwrap().len(), 1);
}

#[test]
fn validation_failures_are_reported() {
    let xml = r#"<Form>
      <Frame name="halves">
        <Pane x="0" y="0" width="1/2" height="1"/>
        <Pane x="1/2" y="0" width="1/2" height="1"/>
      </Frame>
      <Layout name="L" space="nowhere"><Shape frame="halves"><Include/></Shape></Layout>
      <LayoutAction key="a" layout="missing"/>
    </Form>"#;
    let errors = Form::from_config(xml, Platform::MacOS).err().expect("invalid");
    assert_eq!(errors.len(), 3);
    let parsed = ParsedForm::from_xml(xml).unwrap();
    assert!(parsed.validate().is_err());
}

#[test]
fn parse_errors_are_positioned() {
    let bad = r#"<Form><Frame name="f"><Pane x="1/0" y="0" width="1" height="1"/></Frame></Form>"#;
    let e = ParsedForm::from_xml(bad).err().expect("error");
    assert!(e.starts_with("at byte "), "{}", e);
    assert!(ParsedForm::from_xml("<Form><Frame name=\"f\"></Frame></Form>").is_err());
    assert!(ParsedForm::from_xml("<Form><Layout name=\"l\"><Shape/></Layout></Form>").is_err());
    assert!(ParsedForm::from_xml("<Form><LayoutAction key=\"a\" layout=\"l\" traverse=\"zz\"/></Form>").is_err());
    assert!(ParsedForm::from_xml("<Form><Measure name=\"m\" value=\"-1\"/></Form>").is_err());
    assert!(ParsedForm::from_xml("<Form><DisplayQuirk nameContains=\"a\" platform=\"beos\" minBottomInset=\"1\"/></Form>").is_err());
    assert!(ParsedForm::from_xml("<Form></Wrong>").is_err());
}

#[test]
fn multiple_top_level_shapes_concatenate() {
    let xml = r#"<Form>
      <Frame name="full"><Pane x="0" y="0" width="1" height="1"/></Frame>
      <Frame name="halves">
        <Pane x="0" y="0" width="1/2" height="1"/>
        <Pane x="1/2" y="0" width="1/2" height="1"/>
      </Frame>
      <Layout name="L">
        <Shape frame="full"><Include/></Shape>
        <Shape frame="halves"><Leaf/><Drop/></Shape>
      </Layout>
      <LayoutAction key="a" layout="L"/>
    </Form>"#;
    let f = form(xml);
    let panes = f.panes_for_action("a", &display(1920, 1080, "X")).unwrap();
    assert_eq!(panes.len(), 2);
    assert_eq!((panes[0].width.num, panes[0].width.den), (1, 1));
}

#[test]
fn default_config_loads() {
    let f = form(paneboard::config::get_default_config());
    assert!(f.has_layout_action("home"));
    assert!(f.has_display_move("pageup"));
    assert!(!f.has_display_move("home"));
    assert_eq!(f.execute_display_move("pagedown", 1, 2), Some(0));
    assert_eq!(f.execute_display_move("pageup", 0, 3), Some(2));
}

#[test]
fn arity_message_names_counts_and_frame() {
    let xml = r#"<Form>
      <Frame name="halves">
        <Pane x="0" y="0" width="1/2" height="1"/>
        <Pane x="1/2" y="0" width="1/2" height="1"/>
      </Frame>
      <Layout name="L"><Shape frame="halves"><Include/></Shape></Layout>
    </Form>"#;
    let errors = ParsedForm::from_xml(xml).unwrap().validate().err().unwrap();
    assert_eq!(errors, vec!["Layout 'L': child count 1 != pane count 2 of frame 'halves'".to_string()]);
}
