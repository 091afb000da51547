//! The configuration shipped with the program.
use vstd::prelude::*;

verus! {

/// The default configuration: quadrants, halves and full screen, and moves
/// between displays.
pub const DEFAULT_FORM_XML: &'static str = "<Form>
  <Frame name=\"grid2x2\">
    <Pane x=\"0\" y=\"0\" width=\"1/2\" height=\"1/2\"/>
    <Pane x=\"1/2\" y=\"0\" width=\"1/2\" height=\"1/2\"/>
    <Pane x=\"0\" y=\"1/2\" width=\"1/2\" height=\"1/2\"/>
    <Pane x=\"1/2\" y=\"1/2\" width=\"1/2\" height=\"1/2\"/>
  </Frame>
  <Frame name=\"halves\">
    <Pane x=\"0\" y=\"0\" width=\"1/2\" height=\"1\"/>
    <Pane x=\"1/2\" y=\"0\" width=\"1/2\" height=\"1\"/>
  </Frame>
  <Frame name=\"full\">
    <Pane x=\"0\" y=\"0\" width=\"1\" height=\"1\"/>
  </Frame>
  <Layout name=\"quadrants\">
    <Shape frame=\"grid2x2\"><Include/><Include/><Include/><Include/></Shape>
  </Layout>
  <Layout name=\"halves\">
    <Shape frame=\"halves\"><Include/><Include/></Shape>
  </Layout>
  <Layout name=\"full\">
    <Shape frame=\"full\"><Include/></Shape>
  </Layout>
  <LayoutAction key=\"home\" layout=\"quadrants\"/>
  <LayoutAction key=\"end\" layout=\"halves\"/>
  <LayoutAction key=\"delete\" layout=\"full\"/>
  <DisplayMove key=\"pageup\" target=\"prev\"/>
  <DisplayMove key=\"pagedown\" target=\"next\"/>
</Form>
";

/// The embedded default configuration.
pub fn get_default_config() -> (r: &'static str)
    ensures
        r@ == DEFAULT_FORM_XML@,
{
    DEFAULT_FORM_XML
}

} // verus!
