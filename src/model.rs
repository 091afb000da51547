//! The parse tree of a layout configuration: measures, spaces, frames,
//! layouts and their shape trees, key bindings and display quirks.
use vstd::prelude::*;
use crate::fraction::Fraction;
use crate::text::str_eq;

verus! {

/// Screen orientation predicate; `Never` fails on every display.
#[derive(Debug, Clone, Copy, PartialEq, Eq, Structural)]
pub enum Orientation {
    Portrait,
    Landscape,
    Never,
}

/// A size threshold: a literal pixel count or the name of a Measure.
#[derive(Debug, Clone)]
pub enum MeasureRef {
    Name(String),
    Literal(u32),
}

/// Platform a display quirk applies to.
#[derive(Debug, Clone, Copy, PartialEq, Eq, Structural)]
pub enum Platform {
    MacOS,
    Windows,
    Linux,
}

/// One Match or Exclude rule of a Space; its attributes are AND-joined.
#[derive(Debug, Clone)]
pub struct SpaceRule {
    pub name_contains: Option<String>,
    pub when_orientation: Option<Orientation>,
    pub min_width: Option<MeasureRef>,
    pub min_height: Option<MeasureRef>,
    pub under_width: Option<MeasureRef>,
    pub under_height: Option<MeasureRef>,
}

/// A named predicate over displays.
#[derive(Debug, Clone)]
pub struct ParsedSpace {
    pub name: String,
    pub matches: Vec<SpaceRule>,
    pub excludes: Vec<SpaceRule>,
}

/// A rectangle in fractions, relative to its enclosing rectangle.
#[derive(Debug, Clone, Copy)]
pub struct ParsedPane {
    pub x: Fraction,
    pub y: Fraction,
    pub width: Fraction,
    pub height: Fraction,
}

/// A named sequence of panes.
#[derive(Debug, Clone)]
pub struct ParsedFrame {
    pub name: String,
    pub panes: Vec<ParsedPane>,
}

/// Conditions of an Include, AND-joined; sizes are literal pixels.
#[derive(Debug, Clone)]
pub struct IncludeCondition {
    pub when_orientation: Option<Orientation>,
    pub min_width: Option<u32>,
    pub under_width: Option<u32>,
    pub min_height: Option<u32>,
    pub under_height: Option<u32>,
    pub name_contains: Option<String>,
}

/// Terminal pane, reference to another layout, or conditional drop.
#[derive(Debug, Clone)]
pub struct LayoutInclude {
    pub layout: Option<String>,
    pub condition: IncludeCondition,
}

/// A node of a shape tree: a frame and one child per pane of it.
#[derive(Debug)]
pub struct ParsedShape {
    pub frame: String,
    pub when_orientation: Option<Orientation>,
    pub min_width: Option<MeasureRef>,
    pub min_height: Option<MeasureRef>,
    pub under_width: Option<MeasureRef>,
    pub under_height: Option<MeasureRef>,
    pub children: Vec<ShapeChild>,
}

#[derive(Debug)]
pub enum ShapeChild {
    Shape(ParsedShape),
    Include(LayoutInclude),
}

/// A named shape tree with an optional space and its declared measures.
#[derive(Debug)]
pub struct ParsedLayout {
    pub name: String,
    pub space: Option<String>,
    pub needed_measures: Vec<String>,
    pub root_shape: ParsedShape,
}

/// Order among panes of equal area: primary axis and direction, then secondary.
#[derive(Debug, Clone, Copy, PartialEq, Eq, Structural)]
pub enum TraverseOrder {
    XfYf,
    XfYr,
    XrYf,
    XrYr,
    YfXf,
    YfXr,
    YrXf,
    YrXr,
}

#[derive(Debug, Clone, Copy, PartialEq, Eq, Structural)]
pub enum MirrorMode {
    Keep,
    Flip,
}

/// Binding from a key to a layout.
#[derive(Debug, Clone)]
pub struct ParsedLayoutAction {
    pub key: String,
    pub layout: String,
    pub traverse: TraverseOrder,
    pub mirror_x: MirrorMode,
    pub mirror_y: MirrorMode,
}

/// Where a display move goes.
#[derive(Debug, Clone, Copy, PartialEq, Eq, Structural)]
pub enum DisplayMoveTarget {
    Next { wrap: bool },
    Prev { wrap: bool },
    Index(usize),
}

#[derive(Debug, Clone)]
pub struct ParsedDisplayMove {
    pub key: String,
    pub target: DisplayMoveTarget,
}

/// Bottom inset for displays whose name contains a substring.
#[derive(Debug, Clone)]
pub struct ParsedDisplayQuirk {
    pub name_contains: String,
    pub platform: Platform,
    pub min_bottom_inset: u32,
}

/// A whole configuration. Named tables keep every definition in document
/// order; where a name is defined twice the later definition wins.
#[derive(Debug)]
pub struct ParsedForm {
    pub measures: Vec<(String, u32)>,
    pub display_quirks: Vec<ParsedDisplayQuirk>,
    pub spaces: Vec<ParsedSpace>,
    pub frames: Vec<ParsedFrame>,
    pub layouts: Vec<ParsedLayout>,
    pub layout_actions: Vec<ParsedLayoutAction>,
    pub display_moves: Vec<ParsedDisplayMove>,
}

/// The name of the synthetic frame that joins several top-level shapes.
pub open spec fn multi_frame() -> Seq<char> {
    seq!['_', '_', 'm', 'u', 'l', 't', 'i', '_', '_']
}

/// Whether `name` is the synthetic frame that joins several top-level shapes.
pub fn is_multi_frame(name: &str) -> (r: bool)
    ensures
        r == (name@ == multi_frame()),
{
    proof {
        reveal_strlit("__multi__");
    }
    let r = str_eq(name, "__multi__");
    assert("__multi__"@ =~= multi_frame());
    r
}

/// A fresh string holding the synthetic frame's name.
pub fn multi_frame_name() -> (r: String)
    ensures
        r@ == multi_frame(),
{
    proof {
        reveal_strlit("__multi__");
    }
    let r = String::from_str("__multi__");
    assert(r@ =~= multi_frame());
    r
}

/// Index of the last entry whose name is `name` among the first `n` names.
pub open spec fn last_named(names: Seq<Seq<char>>, name: Seq<char>, n: int) -> Option<int>
    decreases n,
{
    if n <= 0 {
        None
    } else if names[n - 1] == name {
        Some(n - 1)
    } else {
        last_named(names, name, n - 1)
    }
}

/// Index of the last entry with the given name.
pub open spec fn find_last(names: Seq<Seq<char>>, name: Seq<char>) -> Option<int> {
    last_named(names, name, names.len() as int)
}

pub proof fn lemma_last_named_range(names: Seq<Seq<char>>, name: Seq<char>, n: int)
    requires
        n <= names.len(),
    ensures
        last_named(names, name, n) matches Some(i) ==> 0 <= i < n && names[i] == name,
        last_named(names, name, n) is None ==> forall|j: int| 0 <= j < n ==> names[j] != name,
    decreases n,
{
    if n > 0 {
        lemma_last_named_range(names, name, n - 1);
    }
}

pub proof fn lemma_find_last(names: Seq<Seq<char>>, name: Seq<char>)
    ensures
        find_last(names, name) matches Some(i) ==> 0 <= i < names.len() && names[i] == name,
        find_last(names, name) is None ==> forall|j: int| 0 <= j < names.len() ==> names[j] != name,
{
    lemma_last_named_range(names, name, names.len() as int);
}

pub open spec fn measure_names(ms: Seq<(String, u32)>) -> Seq<Seq<char>> {
    ms.map_values(|m: (String, u32)| m.0@)
}

pub open spec fn space_names(ss: Seq<ParsedSpace>) -> Seq<Seq<char>> {
    ss.map_values(|s: ParsedSpace| s.name@)
}

pub open spec fn frame_names(fs: Seq<ParsedFrame>) -> Seq<Seq<char>> {
    fs.map_values(|f: ParsedFrame| f.name@)
}

pub open spec fn layout_names(ls: Seq<ParsedLayout>) -> Seq<Seq<char>> {
    ls.map_values(|l: ParsedLayout| l.name@)
}

/// Position of the measure named `name`, the last one where several are.
pub fn find_measure(ms: &Vec<(String, u32)>, name: &str) -> (r: Option<usize>)
    ensures
        match r {
            Some(i) => find_last(measure_names(ms@), name@) == Some(i as int) && i < ms@.len()
                && ms@[i as int].0@ == name@,
            None => find_last(measure_names(ms@), name@) is None,
        },
{
    let mut i: usize = ms.len();
    while i > 0
        invariant
            i <= ms.len(),
            find_last(measure_names(ms@), name@) == last_named(measure_names(ms@), name@, i as int),
        decreases i,
    {
        if str_eq(ms[i - 1].0.as_str(), name) {
            return Some(i - 1);
        }
        i = i - 1;
    }
    None
}

/// Position of the space named `name`.
pub fn find_space(ss: &Vec<ParsedSpace>, name: &str) -> (r: Option<usize>)
    ensures
        match r {
            Some(i) => find_last(space_names(ss@), name@) == Some(i as int) && i < ss@.len()
                && ss@[i as int].name@ == name@,
            None => find_last(space_names(ss@), name@) is None,
        },
{
    let mut i: usize = ss.len();
    while i > 0
        invariant
            i <= ss.len(),
            find_last(space_names(ss@), name@) == last_named(space_names(ss@), name@, i as int),
        decreases i,
    {
        if str_eq(ss[i - 1].name.as_str(), name) {
            return Some(i - 1);
        }
        i = i - 1;
    }
    None
}

/// Position of the frame named `name`.
pub fn find_frame(fs: &Vec<ParsedFrame>, name: &str) -> (r: Option<usize>)
    ensures
        match r {
            Some(i) => find_last(frame_names(fs@), name@) == Some(i as int) && i < fs@.len()
                && fs@[i as int].name@ == name@,
            None => find_last(frame_names(fs@), name@) is None,
        },
{
    let mut i: usize = fs.len();
    while i > 0
        invariant
            i <= fs.len(),
            find_last(frame_names(fs@), name@) == last_named(frame_names(fs@), name@, i as int),
        decreases i,
    {
        if str_eq(fs[i - 1].name.as_str(), name) {
            return Some(i - 1);
        }
        i = i - 1;
    }
    None
}

/// Position of the layout named `name`.
pub fn find_layout(ls: &Vec<ParsedLayout>, name: &str) -> (r: Option<usize>)
    ensures
        match r {
            Some(i) => find_last(layout_names(ls@), name@) == Some(i as int) && i < ls@.len()
                && ls@[i as int].name@ == name@,
            None => find_last(layout_names(ls@), name@) is None,
        },
{
    let mut i: usize = ls.len();
    while i > 0
        invariant
            i <= ls.len(),
            find_last(layout_names(ls@), name@) == last_named(layout_names(ls@), name@, i as int),
        decreases i,
    {
        if str_eq(ls[i - 1].name.as_str(), name) {
            return Some(i - 1);
        }
        i = i - 1;
    }
    None
}

} // verus!
