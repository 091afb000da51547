//! Reference integrity and shape arity of a parsed configuration.
use vstd::prelude::*;
use crate::text::{decimal_string, message};
use crate::model::{
    MeasureRef, ParsedForm, ParsedShape, ShapeChild, find_frame, find_last, find_layout, find_measure, find_space,
    frame_names, is_multi_frame, layout_names, measure_names, multi_frame, space_names,
};

verus! {

/// `name` is among the declared names.
pub open spec fn declared(needs: Seq<String>, name: Seq<char>) -> bool {
    exists|k: int| 0 <= k < needs.len() && needs[k]@ == name
}

/// A threshold that names a measure names one the layout declares.
pub open spec fn ref_declared(m: Option<MeasureRef>, needs: Seq<String>) -> bool {
    match m {
        Some(MeasureRef::Name(n)) => declared(needs, n@),
        _ => true,
    }
}

/// Every frame a shape tree names exists, each shape has exactly one child
/// per pane of its frame, and every measure its shapes use is declared.
pub open spec fn shape_valid(frames: Seq<crate::model::ParsedFrame>, needs: Seq<String>, shape: ParsedShape) -> bool
    decreases shape,
{
    &&& ref_declared(shape.min_width, needs)
    &&& ref_declared(shape.min_height, needs)
    &&& ref_declared(shape.under_width, needs)
    &&& ref_declared(shape.under_height, needs)
    &&& (shape.frame@ != multi_frame() ==> match find_last(frame_names(frames), shape.frame@) {
        None => false,
        Some(fi) => frames[fi].panes@.len() == shape.children@.len(),
    })
    &&& forall|i: int|
        0 <= i < shape.children@.len() ==> match #[trigger] shape.children@[i] {
            ShapeChild::Shape(cs) => shape_valid(frames, needs, cs),
            ShapeChild::Include(_) => true,
        }
}

/// One message for a threshold naming an undeclared measure.
pub open spec fn ref_error(m: Option<MeasureRef>, needs: Seq<String>) -> nat {
    if ref_declared(m, needs) { 0 } else { 1 }
}

/// The messages a shape's own thresholds give.
pub open spec fn own_errors(shape: ParsedShape, needs: Seq<String>) -> nat {
    ref_error(shape.min_width, needs) + ref_error(shape.min_height, needs) + ref_error(shape.under_width, needs)
        + ref_error(shape.under_height, needs)
}

/// A shape that is not the joining frame names no frame or the wrong number of children.
pub open spec fn frame_mismatch(frames: Seq<crate::model::ParsedFrame>, shape: ParsedShape) -> bool {
    shape.frame@ != multi_frame() && match find_last(frame_names(frames), shape.frame@) {
        None => true,
        Some(fi) => frames[fi].panes@.len() != shape.children@.len(),
    }
}

/// How many messages checking a shape tree gives: one per undeclared
/// measure of each visited shape, one for a missing frame or an arity
/// mismatch (whose children are then not visited).
pub open spec fn shape_errors(frames: Seq<crate::model::ParsedFrame>, needs: Seq<String>, shape: ParsedShape) -> nat
    decreases shape, shape.children@.len() + 1,
{
    own_errors(shape, needs) + if frame_mismatch(frames, shape) {
        1
    } else {
        children_errors(frames, needs, shape, shape.children@.len() as int)
    }
}

/// The messages of the first `i` children of a shape.
pub open spec fn children_errors(
    frames: Seq<crate::model::ParsedFrame>,
    needs: Seq<String>,
    shape: ParsedShape,
    i: int,
) -> nat
    decreases shape, if i > 0 { i } else { 0 },
{
    if i <= 0 || i > shape.children@.len() {
        0
    } else {
        children_errors(frames, needs, shape, i - 1) + match shape.children@[i - 1] {
            ShapeChild::Shape(cs) => shape_errors(frames, needs, cs),
            ShapeChild::Include(_) => 0,
        }
    }
}

/// The whole configuration passes validation.
pub open spec fn form_valid(f: ParsedForm) -> bool {
    &&& forall|i: int|
        0 <= i < f.layout_actions@.len() ==> find_last(
            layout_names(f.layouts@),
            (#[trigger] f.layout_actions@[i]).layout@,
        ) is Some
    &&& forall|i: int|
        0 <= i < f.layouts@.len() ==> {
            let l = #[trigger] f.layouts@[i];
            &&& (l.space matches Some(s) ==> find_last(space_names(f.spaces@), s@) is Some)
            &&& forall|k: int|
                0 <= k < l.needed_measures@.len() ==> find_last(
                    measure_names(f.measures@),
                    (#[trigger] l.needed_measures@[k])@,
                ) is Some
            &&& shape_valid(f.frames@, l.needed_measures@, l.root_shape)
        }
}

fn is_declared(needs: &Vec<String>, name: &str) -> (r: bool)
    ensures
        r == declared(needs@, name@),
{
    let mut i: usize = 0;
    while i < needs.len()
        invariant
            i <= needs@.len(),
            forall|k: int| 0 <= k < i ==> needs@[k]@ != name@,
        decreases needs@.len() - i,
    {
        if crate::text::str_eq(needs[i].as_str(), name) {
            return true;
        }
        i = i + 1;
    }
    false
}

fn check_ref(m: &Option<MeasureRef>, needs: &Vec<String>, layout_name: &str, errors: &mut Vec<String>) -> (r: bool)
    ensures
        r == ref_declared(*m, needs@),
        final(errors)@.len() == old(errors)@.len() + ref_error(*m, needs@),
        final(errors)@.subrange(0, old(errors)@.len() as int) == old(errors)@,
{
    match m {
        Some(MeasureRef::Name(n)) => {
            if is_declared(needs, n.as_str()) {
                true
            } else {
                errors.push(
                    message(
                        &[
                            "Layout '",
                            layout_name,
                            "' uses Measure '",
                            n.as_str(),
                            "' in Shape but does not declare it in <Needs>",
                        ],
                    ),
                );
                false
            }
        },
        _ => true,
    }
}

/// Checks a shape tree, adding a message for each problem found. A shape
/// whose child count differs from its frame's pane count is not descended into.
pub fn validate_shape_tree(
    shape: &ParsedShape,
    layout_name: &str,
    frames: &Vec<crate::model::ParsedFrame>,
    needs: &Vec<String>,
    errors: &mut Vec<String>,
) -> (r: bool)
    ensures
        r == shape_valid(frames@, needs@, *shape),
        final(errors)@.len() == old(errors)@.len() + shape_errors(frames@, needs@, *shape),
        final(errors)@.subrange(0, old(errors)@.len() as int) == old(errors)@,
        !r ==> final(errors)@.len() > old(errors)@.len(),
    decreases shape,
{
    let ghost e0 = errors@;
    let a = check_ref(&shape.min_width, needs, layout_name, errors);
    let b = check_ref(&shape.min_height, needs, layout_name, errors);
    let c = check_ref(&shape.under_width, needs, layout_name, errors);
    let d = check_ref(&shape.under_height, needs, layout_name, errors);
    let mut ok = a && b && c && d;
    if !is_multi_frame(shape.frame.as_str()) {
        match find_frame(frames, shape.frame.as_str()) {
            None => {
                errors.push(message(&["Layout '", layout_name, "' references undefined Frame '", shape.frame.as_str(), "'"]));
                return false;
            },
            Some(fi) => {
                if frames[fi].panes.len() != shape.children.len() {
                    let children = decimal_string(shape.children.len());
                    let panes = decimal_string(frames[fi].panes.len());
                    errors.push(
                        message(
                            &[
                                "Layout '",
                                layout_name,
                                "': child count ",
                                children.as_str(),
                                " != pane count ",
                                panes.as_str(),
                                " of frame '",
                                shape.frame.as_str(),
                                "'",
                            ],
                        ),
                    );
                    return false;
                }
            },
        }
    }
    let ghost start = errors@.len();
    let ghost e1 = errors@;
    proof {
        assert(!frame_mismatch(frames@, *shape));
        assert(start == e0.len() + own_errors(*shape, needs@));
    }
    let mut all_children = true;
    let mut i: usize = 0;
    while i < shape.children.len()
        invariant
            i <= shape.children@.len(),
            errors@.len() >= start,
            errors@.len() == start + children_errors(frames@, needs@, *shape, i as int),
            start == e0.len() + own_errors(*shape, needs@),
            errors@.subrange(0, e0.len() as int) == e0,
            e1.len() == start,
            all_children == forall|k: int|
                0 <= k < i ==> match #[trigger] shape.children@[k] {
                    ShapeChild::Shape(cs) => shape_valid(frames@, needs@, cs),
                    ShapeChild::Include(_) => true,
                },
            !all_children ==> errors@.len() > start,
        decreases shape.children@.len() - i,
    {
        match &shape.children[i] {
            ShapeChild::Shape(cs) => {
                if !validate_shape_tree(cs, layout_name, frames, needs, errors) {
                    all_children = false;
                }
            },
            ShapeChild::Include(_) => {},
        }
        i = i + 1;
    }
    ok = ok && all_children;
    ok
}

/// Messages for the first `i` layout actions: one per undefined layout.
pub open spec fn action_errors(f: ParsedForm, i: int) -> nat
    decreases i,
{
    if i <= 0 {
        0
    } else {
        action_errors(f, i - 1) + if find_last(layout_names(f.layouts@), f.layout_actions@[i - 1].layout@) is Some {
            0nat
        } else {
            1nat
        }
    }
}

/// Messages for the first `m` declared needs: one per undefined measure.
pub open spec fn needs_errors(f: ParsedForm, needs: Seq<String>, m: int) -> nat
    decreases m,
{
    if m <= 0 {
        0
    } else {
        needs_errors(f, needs, m - 1) + if find_last(measure_names(f.measures@), needs[m - 1]@) is Some {
            0nat
        } else {
            1nat
        }
    }
}

/// Messages for one layout: an undefined space, undefined needs, and its shape tree.
pub open spec fn layout_errors(f: ParsedForm, l: crate::model::ParsedLayout) -> nat {
    (if l.space matches Some(s) && find_last(space_names(f.spaces@), s@) is None { 1nat } else { 0nat })
        + needs_errors(f, l.needed_measures@, l.needed_measures@.len() as int) + shape_errors(
        f.frames@,
        l.needed_measures@,
        l.root_shape,
    )
}

/// Messages for the first `j` layouts.
pub open spec fn layouts_errors(f: ParsedForm, j: int) -> nat
    decreases j,
{
    if j <= 0 {
        0
    } else {
        layouts_errors(f, j - 1) + layout_errors(f, f.layouts@[j - 1])
    }
}

/// All messages validation gives: one per violation.
pub open spec fn violations(f: ParsedForm) -> nat {
    action_errors(f, f.layout_actions@.len() as int) + layouts_errors(f, f.layouts@.len() as int)
}

impl ParsedForm {
    /// Checks references and shape arity; `Ok` exactly when the
    /// configuration is valid, else every problem found as a message.
    pub fn validate(&self) -> (r: Result<(), Vec<String>>)
        ensures
            r is Ok <==> form_valid(*self),
            r matches Err(errors) ==> errors@.len() > 0 && errors@.len() == violations(*self),
    {
        let mut errors: Vec<String> = Vec::new();
        let mut ok = true;
        let mut i: usize = 0;
        while i < self.layout_actions.len()
            invariant
                i <= self.layout_actions@.len(),
                ok == forall|k: int|
                    0 <= k < i ==> find_last(layout_names(self.layouts@), (#[trigger] self.layout_actions@[k]).layout@) is Some,
                !ok ==> errors@.len() > 0,
                errors@.len() == action_errors(*self, i as int),
            decreases self.layout_actions@.len() - i,
        {
            let action = &self.layout_actions[i];
            if find_layout(&self.layouts, action.layout.as_str()).is_none() {
                errors.push(message(&["LayoutAction key='", action.key.as_str(), "' references undefined Layout '", action.layout.as_str(), "'"]));
                ok = false;
            }
            i = i + 1;
        }
        let mut j: usize = 0;
        let mut layouts_ok = true;
        while j < self.layouts.len()
            invariant
                j <= self.layouts@.len(),
                layouts_ok == forall|k: int|
                    0 <= k < j ==> {
                        let l = #[trigger] self.layouts@[k];
                        &&& (l.space matches Some(s) ==> find_last(space_names(self.spaces@), s@) is Some)
                        &&& forall|m: int|
                            0 <= m < l.needed_measures@.len() ==> find_last(
                                measure_names(self.measures@),
                                (#[trigger] l.needed_measures@[m])@,
                            ) is Some
                        &&& shape_valid(self.frames@, l.needed_measures@, l.root_shape)
                    },
                !ok ==> errors@.len() > 0,
                !layouts_ok ==> errors@.len() > 0,
                errors@.len() == action_errors(*self, self.layout_actions@.len() as int) + layouts_errors(
                    *self,
                    j as int,
                ),
            decreases self.layouts@.len() - j,
        {
            let layout = &self.layouts[j];
            let ghost base = errors@.len();
            let mut this_ok = true;
            if let Some(s) = &layout.space {
                if find_space(&self.spaces, s.as_str()).is_none() {
                    errors.push(message(&["Layout '", layout.name.as_str(), "' references undefined Space '", s.as_str(), "'"]));
                    this_ok = false;
                }
            }
            let mut m: usize = 0;
            let mut needs_ok = true;
            while m < layout.needed_measures.len()
                invariant
                    m <= layout.needed_measures@.len(),
                    needs_ok == forall|q: int|
                        0 <= q < m ==> find_last(measure_names(self.measures@), (#[trigger] layout.needed_measures@[q])@) is Some,
                    !needs_ok ==> errors@.len() > 0,
                    !ok ==> errors@.len() > 0,
                    !this_ok ==> errors@.len() > 0,
                    !layouts_ok ==> errors@.len() > 0,
                    errors@.len() == base + (if layout.space matches Some(s) && find_last(
                        space_names(self.spaces@),
                        s@,
                    ) is None {
                        1nat
                    } else {
                        0nat
                    }) + needs_errors(*self, layout.needed_measures@, m as int),
                decreases layout.needed_measures@.len() - m,
            {
                let name = &layout.needed_measures[m];
                if find_measure(&self.measures, name.as_str()).is_none() {
                    errors.push(message(&["Layout '", layout.name.as_str(), "' needs undefined Measure '", name.as_str(), "'"]));
                    needs_ok = false;
                }
                m = m + 1;
            }
            let shape_ok = validate_shape_tree(
                &layout.root_shape,
                layout.name.as_str(),
                &self.frames,
                &layout.needed_measures,
                &mut errors,
            );
            if !(this_ok && needs_ok && shape_ok) {
                layouts_ok = false;
            }
            j = j + 1;
        }
        if ok && layouts_ok {
            Ok(())
        } else {
            Err(errors)
        }
    }
}

} // verus!
