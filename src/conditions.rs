//! Conditional evaluation of Include directives, Space rules and shape
//! predicates against a display's properties.
use vstd::prelude::*;
use crate::model::{
    IncludeCondition, MeasureRef, Orientation, ParsedSpace, SpaceRule, find_last, find_measure,
    measure_names, lemma_find_last,
};
use crate::text::{seq_contains, str_contains};

verus! {

/// A display as the layout conditions see it: design size in pixels and name.
#[derive(Debug, Clone)]
pub struct DisplayProps {
    pub width: u32,
    pub height: u32,
    pub name: String,
}

/// Landscape when at least as wide as tall.
pub open spec fn orientation_of(width: u32, height: u32) -> Orientation {
    if width >= height {
        Orientation::Landscape
    } else {
        Orientation::Portrait
    }
}

pub fn display_orientation(d: &DisplayProps) -> (r: Orientation)
    ensures
        r == orientation_of(d.width, d.height),
{
    if d.width >= d.height {
        Orientation::Landscape
    } else {
        Orientation::Portrait
    }
}

/// What `str::to_lowercase` gives for a string.
pub uninterp spec fn lower_of(s: Seq<char>) -> Seq<char>;

/// Relies on `str::to_lowercase`: the result depends on the characters alone,
/// and an empty string stays empty.
#[verifier::external_body]
pub(crate) fn lowercase(s: &str) -> (r: String)
    ensures
        r@ == lower_of(s@),
        s@.len() == 0 ==> r@.len() == 0,
{
    s.to_lowercase()
}

/// An Include's condition on a display, every present attribute required.
/// The name test ignores case.
pub open spec fn include_holds(c: IncludeCondition, d: DisplayProps) -> bool {
    &&& (c.when_orientation matches Some(o) ==> o != Orientation::Never && o == orientation_of(
        d.width,
        d.height,
    ))
    &&& (c.name_contains matches Some(n) ==> seq_contains(lower_of(d.name@), lower_of(n@)))
    &&& (c.min_width matches Some(w) ==> d.width >= w)
    &&& (c.under_width matches Some(w) ==> d.width < w)
    &&& (c.min_height matches Some(h) ==> d.height >= h)
    &&& (c.under_height matches Some(h) ==> d.height < h)
}

impl IncludeCondition {
    /// Checks every present condition against the display.
    pub fn matches(&self, display: &DisplayProps) -> (r: bool)
        ensures
            r == include_holds(*self, *display),
    {
        if let Some(o) = self.when_orientation {
            if o == Orientation::Never || o != display_orientation(display) {
                return false;
            }
        }
        if let Some(n) = &self.name_contains {
            let hay = lowercase(display.name.as_str());
            let needle = lowercase(n.as_str());
            if !str_contains(hay.as_str(), needle.as_str()) {
                return false;
            }
        }
        if let Some(w) = self.min_width {
            if display.width < w {
                return false;
            }
        }
        if let Some(w) = self.under_width {
            if display.width >= w {
                return false;
            }
        }
        if let Some(h) = self.min_height {
            if display.height < h {
                return false;
            }
        }
        if let Some(h) = self.under_height {
            if display.height >= h {
                return false;
            }
        }
        true
    }
}

/// A threshold's pixel value: the literal, or the named measure (0 if undeclared).
pub open spec fn measure_value(measures: Seq<(String, u32)>, m: MeasureRef) -> u32 {
    match m {
        MeasureRef::Literal(n) => n,
        MeasureRef::Name(name) => match find_last(measure_names(measures), name@) {
            Some(i) => measures[i].1,
            None => 0,
        },
    }
}

/// Resolves a threshold against the declared measures.
pub fn resolve_measure_ref(measures: &Vec<(String, u32)>, mref: &MeasureRef) -> (r: u32)
    ensures
        r == measure_value(measures@, *mref),
{
    match mref {
        MeasureRef::Literal(n) => {
            let v: u32 = *n;
            v
        },
        MeasureRef::Name(name) => {
            match find_measure(measures, name.as_str()) {
                Some(i) => measures[i].1,
                None => 0,
            }
        },
    }
}

/// A Space rule on a display; the name test is case-sensitive.
pub open spec fn rule_holds(measures: Seq<(String, u32)>, r: SpaceRule, d: DisplayProps) -> bool {
    &&& (r.name_contains matches Some(n) ==> seq_contains(d.name@, n@))
    &&& (r.when_orientation matches Some(o) ==> o == orientation_of(d.width, d.height))
    &&& (r.min_width matches Some(m) ==> d.width >= measure_value(measures, m))
    &&& (r.min_height matches Some(m) ==> d.height >= measure_value(measures, m))
    &&& (r.under_width matches Some(m) ==> d.width < measure_value(measures, m))
    &&& (r.under_height matches Some(m) ==> d.height < measure_value(measures, m))
}

/// Whether a rule holds on a display.
pub fn rule_matches_display(measures: &Vec<(String, u32)>, rule: &SpaceRule, display: &DisplayProps) -> (r:
    bool)
    ensures
        r == rule_holds(measures@, *rule, *display),
{
    if let Some(n) = &rule.name_contains {
        if !str_contains(display.name.as_str(), n.as_str()) {
            return false;
        }
    }
    if let Some(o) = rule.when_orientation {
        if o != display_orientation(display) {
            return false;
        }
    }
    if let Some(m) = &rule.min_width {
        if display.width < resolve_measure_ref(measures, m) {
            return false;
        }
    }
    if let Some(m) = &rule.min_height {
        if display.height < resolve_measure_ref(measures, m) {
            return false;
        }
    }
    if let Some(m) = &rule.under_width {
        if display.width >= resolve_measure_ref(measures, m) {
            return false;
        }
    }
    if let Some(m) = &rule.under_height {
        if display.height >= resolve_measure_ref(measures, m) {
            return false;
        }
    }
    true
}

/// A Space holds when some Match rule holds (or there is none) and no Exclude rule does.
pub open spec fn space_holds(measures: Seq<(String, u32)>, s: ParsedSpace, d: DisplayProps) -> bool {
    &&& (s.matches@.len() == 0 || exists|i: int|
        0 <= i < s.matches@.len() && rule_holds(measures, #[trigger] s.matches@[i], d))
    &&& !exists|i: int| 0 <= i < s.excludes@.len() && rule_holds(measures, #[trigger] s.excludes@[i], d)
}

/// Whether a Space selects the display.
pub fn space_matches_display(measures: &Vec<(String, u32)>, space: &ParsedSpace, display: &DisplayProps) -> (r:
    bool)
    ensures
        r == space_holds(measures@, *space, *display),
{
    let mut any_match = space.matches.len() == 0;
    let mut i: usize = 0;
    while i < space.matches.len() && !any_match
        invariant
            i <= space.matches@.len(),
            any_match == (space.matches@.len() == 0 || exists|j: int|
                0 <= j < i && rule_holds(measures@, #[trigger] space.matches@[j], *display)),
        decreases space.matches@.len() - i,
    {
        if rule_matches_display(measures, &space.matches[i], display) {
            any_match = true;
        }
        i = i + 1;
    }
    if !any_match {
        return false;
    }
    let mut j: usize = 0;
    while j < space.excludes.len()
        invariant
            j <= space.excludes@.len(),
            forall|k: int| 0 <= k < j ==> !rule_holds(measures@, #[trigger] space.excludes@[k], *display),
        decreases space.excludes@.len() - j,
    {
        if rule_matches_display(measures, &space.excludes[j], display) {
            return false;
        }
        j = j + 1;
    }
    true
}

} // verus!
