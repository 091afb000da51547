//! The configuration grammar: a `<Form>` document of measures, quirks,
//! spaces, frames, layouts, layout actions and display moves.
use vstd::prelude::*;
use crate::conditions::{lower_of, lowercase};
use crate::flatten::{frames_wf, pane_wf};
use crate::fraction::{Fraction, fraction_text};
use crate::model::{
    DisplayMoveTarget, IncludeCondition, LayoutInclude, MeasureRef, MirrorMode, Orientation, ParsedDisplayMove,
    ParsedDisplayQuirk, ParsedForm, ParsedFrame, ParsedLayout, ParsedLayoutAction, ParsedPane, ParsedShape,
    ParsedSpace, Platform, ShapeChild, SpaceRule, TraverseOrder, multi_frame_name,
};
use crate::text::{decimal_string, decimal_u32, decimal_usize, message, parse_u32, parse_usize, str_eq};
use crate::xml::{Token, XmlAttr, doc_tokens, xml_tokens};

verus! {

/// A parse failure: the message and the index of the event where it arose.
pub type Failure = (String, usize);

/// Every frame has at least one pane and all pane parts are in lowest terms.
pub open spec fn frames_ok(frames: Seq<ParsedFrame>) -> bool {
    frames_wf(frames) && forall|i: int| 0 <= i < frames.len() ==> (#[trigger] frames[i]).panes@.len() > 0
}

impl ParsedForm {
    pub open spec fn wf(&self) -> bool {
        frames_ok(self.frames@)
    }
}

/// The value of the last attribute named `key`.
pub open spec fn last_value(attrs: Seq<XmlAttr>, key: Seq<char>) -> Option<Seq<char>>
    decreases attrs.len(),
{
    if attrs.len() == 0 {
        None
    } else if attrs.last().key@ == key {
        Some(attrs.last().value@)
    } else {
        last_value(attrs.drop_last(), key)
    }
}

/// The fraction the last attribute named `key` holds.
pub open spec fn fraction_attr(attrs: Seq<XmlAttr>, key: Seq<char>) -> Option<Fraction> {
    match last_value(attrs, key) {
        Some(v) => fraction_text(v),
        None => None,
    }
}

pub open spec fn is_pane_key(k: Seq<char>) -> bool {
    k == "x"@ || k == "y"@ || k == "width"@ || k == "height"@
}

/// Every coordinate attribute reads as a fraction.
pub open spec fn pane_values_read(attrs: Seq<XmlAttr>) -> bool {
    forall|i: int| 0 <= i < attrs.len() && is_pane_key(attrs[i].key@) ==> fraction_text(#[trigger] attrs[i].value@) is Some
}

/// What `<Pane>` attributes give: each coordinate from its last attribute,
/// provided every coordinate attribute reads and all four are present.
pub open spec fn pane_of(attrs: Seq<XmlAttr>) -> Option<ParsedPane> {
    if !pane_values_read(attrs) {
        None
    } else {
        match (
            fraction_attr(attrs, "x"@),
            fraction_attr(attrs, "y"@),
            fraction_attr(attrs, "width"@),
            fraction_attr(attrs, "height"@),
        ) {
            (Some(x), Some(y), Some(w), Some(h)) => Some(ParsedPane { x, y, width: w, height: h }),
            _ => None,
        }
    }
}

/// Every `value` attribute reads as a 32-bit decimal.
pub open spec fn measure_values_read(attrs: Seq<XmlAttr>) -> bool {
    forall|i: int| 0 <= i < attrs.len() && attrs[i].key@ == "value"@ ==> decimal_u32(#[trigger] attrs[i].value@) is Some
}

proof fn lemma_pane_keys_differ()
    ensures
        "x"@ != "y"@ && "x"@ != "width"@ && "x"@ != "height"@ && "y"@ != "width"@ && "y"@ != "height"@
            && "width"@ != "height"@,
{
    reveal_strlit("x");
    reveal_strlit("y");
    reveal_strlit("width");
    reveal_strlit("height");
    assert("x"@.len() != "width"@.len());
    assert("x"@.len() != "height"@.len());
    assert("y"@.len() != "width"@.len());
    assert("y"@.len() != "height"@.len());
    assert("width"@.len() != "height"@.len());
    assert("x"@[0] != "y"@[0]);
}

proof fn lemma_last_value_step(attrs: Seq<XmlAttr>, i: int, key: Seq<char>)
    requires
        0 <= i < attrs.len(),
    ensures
        last_value(attrs.subrange(0, i + 1), key) == (if attrs[i].key@ == key {
            Some(attrs[i].value@)
        } else {
            last_value(attrs.subrange(0, i), key)
        }),
{
    assert(attrs.subrange(0, i + 1).drop_last() =~= attrs.subrange(0, i));
}

fn text_is(s: &String, lit: &str) -> (r: bool)
    ensures
        r == (s@ == lit@),
{
    str_eq(s.as_str(), lit)
}

fn fail(parts: &[&str], at: usize) -> (r: Failure)
    ensures
        r.1 == at,
{
    (message(parts), at)
}

/// An orientation word.
pub open spec fn orientation_word(v: Seq<char>) -> Option<Orientation> {
    if v == "portrait"@ {
        Some(Orientation::Portrait)
    } else if v == "landscape"@ {
        Some(Orientation::Landscape)
    } else if v == "never"@ {
        Some(Orientation::Never)
    } else {
        None
    }
}

fn parse_orientation(value: &String) -> (r: Result<Orientation, String>)
    ensures
        match r {
            Ok(o) => orientation_word(value@) == Some(o),
            Err(_) => orientation_word(value@) is None,
        },
{
    if text_is(value, "portrait") {
        Ok(Orientation::Portrait)
    } else if text_is(value, "landscape") {
        Ok(Orientation::Landscape)
    } else if text_is(value, "never") {
        Ok(Orientation::Never)
    } else {
        Err(message(&["invalid orientation: ", value.as_str()]))
    }
}

/// A mirror mode word.
pub open spec fn mirror_word(v: Seq<char>) -> Option<MirrorMode> {
    if v == "keep"@ {
        Some(MirrorMode::Keep)
    } else if v == "flip"@ {
        Some(MirrorMode::Flip)
    } else {
        None
    }
}

/// A traverse order word (already in lower case).
pub open spec fn traverse_word(v: Seq<char>) -> Option<TraverseOrder> {
    if v == "xfyf"@ {
        Some(TraverseOrder::XfYf)
    } else if v == "xfyr"@ {
        Some(TraverseOrder::XfYr)
    } else if v == "xryf"@ {
        Some(TraverseOrder::XrYf)
    } else if v == "xryr"@ {
        Some(TraverseOrder::XrYr)
    } else if v == "yfxf"@ {
        Some(TraverseOrder::YfXf)
    } else if v == "yfxr"@ {
        Some(TraverseOrder::YfXr)
    } else if v == "yrxf"@ {
        Some(TraverseOrder::YrXf)
    } else if v == "yrxr"@ {
        Some(TraverseOrder::YrXr)
    } else {
        None
    }
}

fn parse_mirror(value: &String, which: &str) -> (r: Result<MirrorMode, String>)
    ensures
        match r {
            Ok(m) => mirror_word(value@) == Some(m),
            Err(_) => mirror_word(value@) is None,
        },
{
    if text_is(value, "keep") {
        Ok(MirrorMode::Keep)
    } else if text_is(value, "flip") {
        Ok(MirrorMode::Flip)
    } else {
        Err(message(&["invalid ", which, ": ", value.as_str()]))
    }
}

fn parse_traverse(value: &String) -> (r: Result<TraverseOrder, String>)
    ensures
        match r {
            Ok(t) => traverse_word(lower_of(value@)) == Some(t),
            Err(_) => traverse_word(lower_of(value@)) is None,
        },
{
    let v = lowercase(value.as_str());
    if text_is(&v, "xfyf") {
        Ok(TraverseOrder::XfYf)
    } else if text_is(&v, "xfyr") {
        Ok(TraverseOrder::XfYr)
    } else if text_is(&v, "xryf") {
        Ok(TraverseOrder::XrYf)
    } else if text_is(&v, "xryr") {
        Ok(TraverseOrder::XrYr)
    } else if text_is(&v, "yfxf") {
        Ok(TraverseOrder::YfXf)
    } else if text_is(&v, "yfxr") {
        Ok(TraverseOrder::YfXr)
    } else if text_is(&v, "yrxf") {
        Ok(TraverseOrder::YrXf)
    } else if text_is(&v, "yrxr") {
        Ok(TraverseOrder::YrXr)
    } else {
        Err(message(&["invalid traverse order: ", value.as_str()]))
    }
}

fn literal_pixels(value: &String, attr: &str) -> (r: Result<u32, String>)
    ensures
        match r {
            Ok(v) => decimal_u32(value@) == Some(v),
            Err(_) => decimal_u32(value@) is None,
        },
{
    match parse_u32(value.as_str()) {
        Some(v) => Ok(v),
        None => Err(message(&["Include ", attr, " must be literal pixels: ", value.as_str()])),
    }
}

impl ParsedForm {
    /// Parses a configuration document: `Ok` exactly when its tokens form
    /// an accepted configuration.
    pub fn from_xml(xml: &str) -> (r: Result<ParsedForm, String>)
        requires
            xml@.len() < usize::MAX,
        ensures
            r is Ok <==> form_accepts(doc_tokens(xml@), 0, false),
            r matches Ok(f) ==> f.wf() && form_items(f) == top_items(doc_tokens(xml@), 0, false),
    {
        let tokens = xml_tokens(xml);
        Self::from_tokens(&tokens)
    }

    /// Reads the top-level elements inside `<Form>`; an element's failure is
    /// reported with the byte position reached.
    pub fn from_tokens(events: &Vec<(Token, usize)>) -> (r: Result<ParsedForm, String>)
        ensures
            r is Ok <==> form_accepts(toks(events@), 0, false),
            r matches Ok(f) ==> f.wf() && form_items(f) == top_items(toks(events@), 0, false),
    {
        let ghost ts = toks(events@);
        let mut measures: Vec<(String, u32)> = Vec::new();
        let mut display_quirks: Vec<ParsedDisplayQuirk> = Vec::new();
        let mut spaces: Vec<ParsedSpace> = Vec::new();
        let mut frames: Vec<ParsedFrame> = Vec::new();
        let mut layouts: Vec<ParsedLayout> = Vec::new();
        let mut layout_actions: Vec<ParsedLayoutAction> = Vec::new();
        let mut display_moves: Vec<ParsedDisplayMove> = Vec::new();
        let mut in_form = false;
        let mut i: usize = 0;
        proof {
            lemma_element_words_differ();
        }
        while i < events.len()
            invariant
                element_words_differ(),
                ts == toks(events@),
                i <= events@.len(),
                frames_ok(frames@),
                form_accepts(ts, 0, false) == form_accepts(ts, i as int, in_form),
                measure_views(measures@) + top_items(ts, i as int, in_form).0 == top_items(ts, 0, false).0,
                action_views(layout_actions@) + top_items(ts, i as int, in_form).1 == top_items(ts, 0, false).1,
                move_views(display_moves@) + top_items(ts, i as int, in_form).2 == top_items(ts, 0, false).2,
                frame_views(frames@) + top_items(ts, i as int, in_form).3 == top_items(ts, 0, false).3,
                space_views(spaces@) + top_items(ts, i as int, in_form).4 == top_items(ts, 0, false).4,
                quirk_views(display_quirks@) + top_items(ts, i as int, in_form).5 == top_items(ts, 0, false).5,
                layout_views(layouts@) + top_items(ts, i as int, in_form).6 == top_items(ts, 0, false).6,
            decreases events@.len() - i,
        {
            let pos = events[i].1;
            let step: Result<usize, Failure> = match &events[i].0 {
                Token::Start { name, attrs } => {
                    if text_is(name, "Form") {
                        in_form = true;
                        Ok(i + 1)
                    } else if in_form && (text_is(name, "Measure") || text_is(name, "Space") || text_is(name, "Frame")
                        || text_is(name, "Layout")) {
                        match attrs {
                            None => Err(fail(&["attribute error"], i)),
                            Some(a) => {
                                if text_is(name, "Measure") {
                                    match Self::parse_measure(a) {
                                        Ok(m) => {
                                            measures.push(m);
                                            Ok(i + 1)
                                        },
                                        Err(m) => Err((m, i)),
                                    }
                                } else if text_is(name, "Space") {
                                    match Self::parse_space(events, i + 1, a) {
                                        Ok((s, j)) => {
                                            spaces.push(s);
                                            Ok(j)
                                        },
                                        Err(f) => Err(f),
                                    }
                                } else if text_is(name, "Frame") {
                                    match Self::parse_frame(events, i + 1, a) {
                                        Ok((fr, j)) => {
                                            proof {
                                                assert forall|x: int, y: int|
                                                    0 <= x < frames@.push(fr).len() && 0 <= y < frames@.push(
                                                        fr,
                                                    )[x].panes@.len() implies pane_wf(
                                                    #[trigger] frames@.push(fr)[x].panes@[y],
                                                ) by {
                                                    if x < frames@.len() {
                                                        assert(frames@.push(fr)[x] == frames@[x]);
                                                    }
                                                }
                                            }
                                            let ghost fv = frame_views(frames@);
                                            frames.push(fr);
                                            proof {
                                                assert(frame_views(frames@) =~= fv.push((fr.name@, fr.panes@)));
                                                let rest = top_items(ts, j as int, in_form).3;
                                                assert(top_items(ts, i as int, in_form).3 == seq![(fr.name@, fr.panes@)]
                                                    + rest);
                                                assert(fv.push((fr.name@, fr.panes@)) + rest =~= fv + (seq![
                                                    (fr.name@, fr.panes@),
                                                ] + rest));
                                                                                        }
                                            Ok(j)
                                        },
                                        Err(f) => Err(f),
                                    }
                                } else {
                                    match Self::parse_layout(events, i + 1, a) {
                                        Ok((l, j)) => {
                                            layouts.push(l);
                                            Ok(j)
                                        },
                                        Err(f) => Err(f),
                                    }
                                }
                            },
                        }
                    } else {
                        Ok(i + 1)
                    }
                },
                Token::Empty { name, attrs } => {
                    if in_form && (text_is(name, "Measure") || text_is(name, "DisplayQuirk") || text_is(
                        name,
                        "LayoutAction",
                    ) || text_is(name, "DisplayMove")) {
                        match attrs {
                            None => Err(fail(&["attribute error"], i)),
                            Some(a) => {
                                if text_is(name, "Measure") {
                                    match Self::parse_measure(a) {
                                        Ok(m) => {
                                            measures.push(m);
                                            Ok(i + 1)
                                        },
                                        Err(m) => Err((m, i)),
                                    }
                                } else if text_is(name, "DisplayQuirk") {
                                    match Self::parse_display_quirk(a) {
                                        Ok(q) => {
                                            display_quirks.push(q);
                                            Ok(i + 1)
                                        },
                                        Err(m) => Err((m, i)),
                                    }
                                } else if text_is(name, "LayoutAction") {
                                    match Self::parse_layout_action(a) {
                                        Ok(x) => {
                                            layout_actions.push(x);
                                            Ok(i + 1)
                                        },
                                        Err(m) => Err((m, i)),
                                    }
                                } else {
                                    match Self::parse_display_move(a) {
                                        Ok(d) => {
                                            display_moves.push(d);
                                            Ok(i + 1)
                                        },
                                        Err(m) => Err((m, i)),
                                    }
                                }
                            },
                        }
                    } else {
                        Ok(i + 1)
                    }
                },
                Token::Eof => Ok(events.len()),
                Token::Error { message: m } => {
                    return Err(message(&["XML parse error at byte ", decimal_string(pos).as_str(), ": ", m.as_str()]));
                },
                Token::Truncated => {
                    return Err(message(&["document has more tokens than characters"]));
                },
                _ => Ok(i + 1),
            };
            match step {
                Ok(j) => {
                    if j <= i || j > events.len() {
                        return Err(message(&["unexpected end of document"]));
                    }
                    i = j;
                },
                Err((m, at)) => {
                    let p = if at < events.len() {
                        events[at].1
                    } else {
                        pos
                    };
                    return Err(message(&["at byte ", decimal_string(p).as_str(), ": ", m.as_str()]));
                },
            }
        }
        Ok(ParsedForm { measures, display_quirks, spaces, frames, layouts, layout_actions, display_moves })
    }


    /// `<Measure name value/>`: a named non-negative pixel count, from the
    /// last `name` and `value` attributes; every `value` must read as a
    /// 32-bit decimal.
    pub fn parse_measure(attrs: &Vec<XmlAttr>) -> (r: Result<(String, u32), String>)
        ensures
            r is Ok <==> measure_values_read(attrs@) && last_value(attrs@, "name"@) is Some && last_value(
                attrs@,
                "value"@,
            ) is Some,
            r matches Ok((n, v)) ==> Some(n@) == last_value(attrs@, "name"@) && Some(v) == decimal_u32(
                last_value(attrs@, "value"@).unwrap(),
            ),
    {
        let mut name: Option<String> = None;
        let mut value: Option<u32> = None;
        let mut i: usize = 0;
        proof {
            reveal_strlit("name");
            reveal_strlit("value");
            assert("name"@[0] != "value"@[0]);
        }
        while i < attrs.len()
            invariant
                "name"@ != "value"@,
                i <= attrs@.len(),
                measure_values_read(attrs@.subrange(0, i as int)),
                match name {
                    Some(n) => last_value(attrs@.subrange(0, i as int), "name"@) == Some(n@),
                    None => last_value(attrs@.subrange(0, i as int), "name"@) is None,
                },
                match value {
                    Some(v) => last_value(attrs@.subrange(0, i as int), "value"@) matches Some(t)
                        && decimal_u32(t) == Some(v),
                    None => last_value(attrs@.subrange(0, i as int), "value"@) is None,
                },
            decreases attrs@.len() - i,
        {
            let a = &attrs[i];
            proof {
                lemma_last_value_step(attrs@, i as int, "name"@);
                lemma_last_value_step(attrs@, i as int, "value"@);
            }
            if text_is(&a.key, "name") {
                name = Some(a.value.clone());
            } else if text_is(&a.key, "value") {
                match parse_u32(a.value.as_str()) {
                    Some(v) => value = Some(v),
                    None => {
                        proof {
                            assert(!measure_values_read(attrs@)) by {
                                assert(attrs@[i as int].key@ == "value"@);
                            }
                        }
                        return Err(message(&["invalid measure value: ", a.value.as_str()]));
                    },
                }
            }
            proof {
                let next = attrs@.subrange(0, i + 1);
                assert forall|k: int| 0 <= k < next.len() && next[k].key@ == "value"@ implies decimal_u32(
                    #[trigger] next[k].value@,
                ) is Some by {
                    if k < i {
                        assert(next[k] == attrs@.subrange(0, i as int)[k]);
                    }
                }
            }
            i = i + 1;
        }
        assert(attrs@.subrange(0, attrs@.len() as int) =~= attrs@);
        match (name, value) {
            (Some(n), Some(v)) => Ok((n, v)),
            _ => Err(String::from_str("Measure missing required attributes")),
        }
    }

    /// `<DisplayQuirk nameContains platform minBottomInset/>`.
    fn parse_display_quirk(attrs: &Vec<XmlAttr>) -> (r: Result<ParsedDisplayQuirk, String>)
        ensures
            r is Ok <==> quirk_ok(attrs@),
            r matches Ok(q) ==> (q.name_contains@, q.platform, q.min_bottom_inset) == quirk_item(attrs@),
    {
        let mut name_contains: Option<String> = None;
        let mut platform: Option<Platform> = None;
        let mut inset: Option<u32> = None;
        let mut i: usize = 0;
        proof {
            lemma_element_words_differ();
        }
        while i < attrs.len()
            invariant
                element_words_differ(),
                i <= attrs@.len(),
                quirk_values_read(attrs@.subrange(0, i as int)),
                match name_contains {
                    Some(n) => last_value(attrs@.subrange(0, i as int), "nameContains"@) == Some(n@),
                    None => last_value(attrs@.subrange(0, i as int), "nameContains"@) is None,
                },
                match platform {
                    Some(p) => last_value(attrs@.subrange(0, i as int), "platform"@) matches Some(v) && platform_of(v)
                        == Some(p),
                    None => last_value(attrs@.subrange(0, i as int), "platform"@) is None,
                },
                match inset {
                    Some(n) => last_value(attrs@.subrange(0, i as int), "minBottomInset"@) matches Some(v)
                        && decimal_u32(v) == Some(n),
                    None => last_value(attrs@.subrange(0, i as int), "minBottomInset"@) is None,
                },
            decreases attrs@.len() - i,
        {
            let a = &attrs[i];
            proof {
                lemma_last_value_step(attrs@, i as int, "nameContains"@);
                lemma_last_value_step(attrs@, i as int, "platform"@);
                lemma_last_value_step(attrs@, i as int, "minBottomInset"@);
            }
            if text_is(&a.key, "nameContains") {
                name_contains = Some(a.value.clone());
            } else if text_is(&a.key, "platform") {
                if text_is(&a.value, "macos") {
                    platform = Some(Platform::MacOS);
                } else if text_is(&a.value, "windows") {
                    platform = Some(Platform::Windows);
                } else if text_is(&a.value, "linux") {
                    platform = Some(Platform::Linux);
                } else {
                    proof {
                        assert(!quirk_values_read(attrs@)) by {
                            assert(attrs@[i as int].key@ == "platform"@);
                        }
                    }
                    return Err(message(&["invalid platform: ", a.value.as_str()]));
                }
            } else if text_is(&a.key, "minBottomInset") {
                match parse_u32(a.value.as_str()) {
                    Some(v) => inset = Some(v),
                    None => {
                        proof {
                            assert(!quirk_values_read(attrs@)) by {
                                assert(attrs@[i as int].key@ == "minBottomInset"@);
                            }
                        }
                        return Err(message(&["invalid minBottomInset value: ", a.value.as_str()]));
                    },
                }
            }
            proof {
                let next = attrs@.subrange(0, i + 1);
                assert forall|k: int| 0 <= k < next.len() implies quirk_value_ok(#[trigger] next[k]) by {
                    if k < i {
                        assert(next[k] == attrs@.subrange(0, i as int)[k]);
                    }
                }
            }
            i = i + 1;
        }
        assert(attrs@.subrange(0, attrs@.len() as int) =~= attrs@);
        match (name_contains, platform, inset) {
            (Some(nc), Some(p), Some(v)) => Ok(ParsedDisplayQuirk { name_contains: nc, platform: p, min_bottom_inset: v }),
            _ => Err(String::from_str("DisplayQuirk missing required attributes")),
        }
    }

    fn name_attr(attrs: &Vec<XmlAttr>) -> (r: Option<String>)
        ensures
            match r {
                Some(n) => last_value(attrs@, "name"@) == Some(n@),
                None => last_value(attrs@, "name"@) is None,
            },
    {
        let mut name: Option<String> = None;
        let mut i: usize = 0;
        while i < attrs.len()
            invariant
                i <= attrs@.len(),
                match name {
                    Some(n) => last_value(attrs@.subrange(0, i as int), "name"@) == Some(n@),
                    None => last_value(attrs@.subrange(0, i as int), "name"@) is None,
                },
            decreases attrs@.len() - i,
        {
            proof {
                lemma_last_value_step(attrs@, i as int, "name"@);
            }
            if text_is(&attrs[i].key, "name") {
                name = Some(attrs[i].value.clone());
            }
            i = i + 1;
        }
        assert(attrs@.subrange(0, attrs@.len() as int) =~= attrs@);
        name
    }

    /// `<Space name>` with `Match` and `Exclude` rules, up to `</Space>`.
    fn parse_space(events: &Vec<(Token, usize)>, start: usize, attrs: &Vec<XmlAttr>) -> (r: Result<
        (ParsedSpace, usize),
        Failure,
    >)
        requires
            element_words_differ(),
        ensures
            r is Ok <==> last_value(attrs@, "name"@) is Some && space_end(toks(events@), start as int) is Some,
            r matches Ok((_, j)) ==> space_end(toks(events@), start as int) == Some(j as int) && start < j
                <= events@.len(),
            r matches Ok((sp, _)) ==> Some(sp.name@) == last_value(attrs@, "name"@),
    {
        let ghost ts = toks(events@);
        let name = match Self::name_attr(attrs) {
            Some(n) => n,
            None => return Err(fail(&["Space missing name attribute"], start)),
        };
        let mut matches: Vec<SpaceRule> = Vec::new();
        let mut excludes: Vec<SpaceRule> = Vec::new();
        let mut j: usize = start;
        while j < events.len()
            invariant
                element_words_differ(),
                ts == toks(events@),
                start <= j,
                space_end(ts, start as int) == space_end(ts, j as int),
                last_value(attrs@, "name"@) == Some(name@),
            decreases events@.len() - j,
        {
            match &events[j].0 {
                Token::Empty { name: tag, attrs: ta } => {
                    if text_is(tag, "Match") || text_is(tag, "Exclude") {
                        let a = match ta {
                            Some(a) => a,
                            None => return Err(fail(&["attribute error"], j)),
                        };
                        let rule = match Self::parse_space_rule(a) {
                            Ok(r) => r,
                            Err(m) => return Err((m, j)),
                        };
                        if text_is(tag, "Match") {
                            matches.push(rule);
                        } else {
                            excludes.push(rule);
                        }
                    }
                },
                Token::End { name: n } => {
                    if text_is(n, "Space") {
                        return Ok((ParsedSpace { name, matches, excludes }, j + 1));
                    }
                },
                Token::Eof => return Err(fail(&["unexpected EOF in Space"], j)),
                Token::Error { message: m } => return Err(fail(&["XML parse error: ", m.as_str()], j)),
                Token::Truncated => return Err(fail(&["unexpected end of document in Space"], j)),
                _ => {},
            }
            j = j + 1;
        }
        Err(fail(&["unexpected EOF in Space"], j))
    }

    /// One `Match` or `Exclude` rule; sizes take a literal or a measure name.
    fn parse_space_rule(attrs: &Vec<XmlAttr>) -> (r: Result<SpaceRule, String>)
        ensures
            r is Ok <==> orientations_read(attrs@),
    {
        let mut rule = SpaceRule {
            name_contains: None,
            when_orientation: None,
            min_width: None,
            min_height: None,
            under_width: None,
            under_height: None,
        };
        let mut i: usize = 0;
        proof {
            lemma_element_words_differ();
        }
        while i < attrs.len()
            invariant
                element_words_differ(),
                i <= attrs@.len(),
                orientations_read(attrs@.subrange(0, i as int)),
            decreases attrs@.len() - i,
        {
            let a = &attrs[i];
            if text_is(&a.key, "nameContains") {
                rule.name_contains = Some(a.value.clone());
            } else if text_is(&a.key, "whenOrientation") {
                match parse_orientation(&a.value) {
                    Ok(o) => rule.when_orientation = Some(o),
                    Err(m) => {
                        proof {
                            assert(!orientations_read(attrs@)) by {
                                assert(attrs@[i as int].key@ == "whenOrientation"@);
                            }
                        }
                        return Err(m);
                    },
                }
            } else if text_is(&a.key, "minWidth") {
                rule.min_width = Some(parse_measure_ref(a.value.as_str()));
            } else if text_is(&a.key, "minHeight") {
                rule.min_height = Some(parse_measure_ref(a.value.as_str()));
            } else if text_is(&a.key, "underWidth") {
                rule.under_width = Some(parse_measure_ref(a.value.as_str()));
            } else if text_is(&a.key, "underHeight") {
                rule.under_height = Some(parse_measure_ref(a.value.as_str()));
            }
            proof {
                let next = attrs@.subrange(0, i + 1);
                assert forall|k: int| 0 <= k < next.len() implies orientation_read(#[trigger] next[k]) by {
                    if k < i {
                        assert(next[k] == attrs@.subrange(0, i as int)[k]);
                    }
                }
            }
            i = i + 1;
        }
        assert(attrs@.subrange(0, attrs@.len() as int) =~= attrs@);
        Ok(rule)
    }

    /// `<Frame name>` with its `Pane`s, up to `</Frame>`; at least one pane.
    #[verifier::rlimit(60)]
    fn parse_frame(events: &Vec<(Token, usize)>, start: usize, attrs: &Vec<XmlAttr>) -> (r: Result<
        (ParsedFrame, usize),
        Failure,
    >)
        requires
            element_words_differ(),
        ensures
            r is Ok <==> last_value(attrs@, "name"@) is Some && frame_end(toks(events@), start as int, 0) is Some,
            r matches Ok((f, j)) ==> frame_end(toks(events@), start as int, 0) == Some(j as int) && start < j
                <= events@.len() && f.panes@.len() > 0 && forall|k: int|
                0 <= k < f.panes@.len() ==> pane_wf(#[trigger] f.panes@[k]),
            r matches Ok((f, _)) ==> Some(f.name@) == last_value(attrs@, "name"@) && f.panes@ == frame_panes(
                toks(events@),
                start as int,
            ),
    {
        let ghost ts = toks(events@);
        let name = match Self::name_attr(attrs) {
            Some(n) => n,
            None => return Err(fail(&["Frame missing name attribute"], start)),
        };
        let mut panes: Vec<ParsedPane> = Vec::new();
        let mut j: usize = start;
        while j < events.len()
            invariant
                element_words_differ(),
                ts == toks(events@),
                forall|k: int| 0 <= k < panes@.len() ==> pane_wf(#[trigger] panes@[k]),
                start <= j,
                frame_end(ts, start as int, 0) == frame_end(ts, j as int, panes@.len()),
                panes@ + frame_panes(ts, j as int) == frame_panes(ts, start as int),
                last_value(attrs@, "name"@) == Some(name@),
                last_value(attrs@, "name"@) is Some,
            decreases events@.len() - j,
        {
            match &events[j].0 {
                Token::Empty { name: tag, attrs: ta } => {
                    if text_is(tag, "Pane") {
                        let a = match ta {
                            Some(a) => a,
                            None => return Err(fail(&["attribute error"], j)),
                        };
                        match Self::parse_pane(a) {
                            Ok(p) => panes.push(p),
                            Err(m) => return Err((m, j)),
                        }
                    }
                },
                Token::End { name: n } => {
                    if text_is(n, "Frame") {
                        if panes.len() == 0 {
                            return Err(fail(&["Frame '", name.as_str(), "' has no Panes"], j));
                        }
                        return Ok((ParsedFrame { name, panes }, j + 1));
                    }
                },
                Token::Eof => return Err(fail(&["unexpected EOF in Frame"], j)),
                Token::Error { message: m } => return Err(fail(&["XML parse error: ", m.as_str()], j)),
                Token::Truncated => return Err(fail(&["unexpected end of document in Frame"], j)),
                _ => {},
            }
            j = j + 1;
        }
        Err(fail(&["unexpected EOF in Frame"], j))
    }


    /// `<Pane x y width height/>`, each a fraction.
    #[verifier::rlimit(40)]
    pub fn parse_pane(attrs: &Vec<XmlAttr>) -> (r: Result<ParsedPane, String>)
        ensures
            match r {
                Ok(p) => pane_of(attrs@) == Some(p) && pane_wf(p),
                Err(_) => pane_of(attrs@) is None,
            },
    {
        let mut x: Option<Fraction> = None;
        let mut y: Option<Fraction> = None;
        let mut w: Option<Fraction> = None;
        let mut h: Option<Fraction> = None;
        let mut i: usize = 0;
        proof {
            lemma_pane_keys_differ();
        }
        while i < attrs.len()
            invariant
                "x"@ != "y"@ && "x"@ != "width"@ && "x"@ != "height"@ && "y"@ != "width"@ && "y"@ != "height"@
                    && "width"@ != "height"@,
                i <= attrs@.len(),
                pane_values_read(attrs@.subrange(0, i as int)),
                x == fraction_attr(attrs@.subrange(0, i as int), "x"@),
                y == fraction_attr(attrs@.subrange(0, i as int), "y"@),
                w == fraction_attr(attrs@.subrange(0, i as int), "width"@),
                h == fraction_attr(attrs@.subrange(0, i as int), "height"@),
                x matches Some(f) ==> f.wf(),
                y matches Some(f) ==> f.wf(),
                w matches Some(f) ==> f.wf(),
                h matches Some(f) ==> f.wf(),
            decreases attrs@.len() - i,
        {
            let a = &attrs[i];
            proof {
                lemma_last_value_step(attrs@, i as int, "x"@);
                lemma_last_value_step(attrs@, i as int, "y"@);
                lemma_last_value_step(attrs@, i as int, "width"@);
                lemma_last_value_step(attrs@, i as int, "height"@);
            }
            let is_x = text_is(&a.key, "x");
            let is_y = text_is(&a.key, "y");
            let is_w = text_is(&a.key, "width");
            let is_h = text_is(&a.key, "height");
            if is_x || is_y || is_w || is_h {
                let f = match Fraction::parse(a.value.as_str()) {
                    Ok(f) => f,
                    Err(m) => {
                        proof {
                            assert(!pane_values_read(attrs@)) by {
                                assert(is_pane_key(attrs@[i as int].key@));
                            }
                        }
                        return Err(m);
                    },
                };
                if is_x {
                    x = Some(f);
                } else if is_y {
                    y = Some(f);
                } else if is_w {
                    w = Some(f);
                } else {
                    h = Some(f);
                }
            }
            proof {
                let next = attrs@.subrange(0, i + 1);
                assert forall|k: int| 0 <= k < next.len() && is_pane_key(next[k].key@) implies fraction_text(
                    #[trigger] next[k].value@,
                ) is Some by {
                    if k < i {
                        assert(next[k] == attrs@.subrange(0, i as int)[k]);
                    }
                }
            }
            i = i + 1;
        }
        assert(attrs@.subrange(0, attrs@.len() as int) =~= attrs@);
        match (x, y, w, h) {
            (Some(x), Some(y), Some(w), Some(h)) => Ok(ParsedPane { x, y, width: w, height: h }),
            _ => Err(String::from_str("Pane missing required attributes (x, y, width, height)")),
        }
    }

    /// `<Layout name space?>` with `Needs` and one or more `Shape`s; several
    /// top-level shapes are joined under the synthetic multi frame.
    fn parse_layout(events: &Vec<(Token, usize)>, start: usize, attrs: &Vec<XmlAttr>) -> (r: Result<
        (ParsedLayout, usize),
        Failure,
    >)
        requires
            element_words_differ(),
        ensures
            r is Ok <==> last_value(attrs@, "name"@) is Some && layout_end(toks(events@), start as int, 0) is Some,
            r matches Ok((_, j)) ==> layout_end(toks(events@), start as int, 0) == Some(j as int) && start < j
                <= events@.len(),
            r matches Ok((l, _)) ==> Some(l.name@) == last_value(attrs@, "name"@) && opt_view(l.space)
                == last_value(attrs@, "space"@),
    {
        let ghost ts = toks(events@);
        let name = match Self::name_attr(attrs) {
            Some(n) => n,
            None => return Err(fail(&["Layout missing name attribute"], start)),
        };
        let mut space: Option<String> = None;
        let mut i: usize = 0;
        while i < attrs.len()
            invariant
                i <= attrs@.len(),
                opt_view(space) == last_value(attrs@.subrange(0, i as int), "space"@),
            decreases attrs@.len() - i,
        {
            proof {
                lemma_last_value_step(attrs@, i as int, "space"@);
            }
            if text_is(&attrs[i].key, "space") {
                space = Some(attrs[i].value.clone());
            }
            i = i + 1;
        }
        assert(attrs@.subrange(0, attrs@.len() as int) =~= attrs@);
        let mut needed_measures: Vec<String> = Vec::new();
        let mut roots: Vec<ParsedShape> = Vec::new();
        let mut j: usize = start;
        while j < events.len()
            invariant
                element_words_differ(),
                ts == toks(events@),
                start <= j,
                layout_end(ts, start as int, 0) == layout_end(ts, j as int, roots@.len()),
                last_value(attrs@, "name"@) == Some(name@),
                opt_view(space) == last_value(attrs@, "space"@),
            decreases events@.len() - j,
        {
            match &events[j].0 {
                Token::Empty { name: tag, attrs: ta } => {
                    if text_is(tag, "Needs") {
                        let a = match ta {
                            Some(a) => a,
                            None => return Err(fail(&["attribute error"], j)),
                        };
                        let mut k: usize = 0;
                        while k < a.len()
                            decreases a@.len() - k,
                        {
                            if text_is(&a[k].key, "measure") {
                                needed_measures.push(a[k].value.clone());
                            }
                            k = k + 1;
                        }
                    } else if text_is(tag, "Shape") {
                        return Err(fail(&["Shape with no children not allowed at Layout level (must have children or use <Leaf/>)"], j));
                    }
                    j = j + 1;
                },
                Token::Start { name: tag, attrs: ta } => {
                    if text_is(tag, "Shape") {
                        let a = match ta {
                            Some(a) => a,
                            None => return Err(fail(&["attribute error"], j)),
                        };
                        match Self::parse_shape(events, j + 1, a) {
                            Ok((s, next)) => {
                                let ghost n0 = roots@.len();
                                roots.push(s);
                                assert(roots@.len() == n0 + 1);
                                j = next;
                            },
                            Err(f) => return Err(f),
                        }
                    } else {
                        j = j + 1;
                    }
                },
                Token::End { name: n } => {
                    if text_is(n, "Layout") {
                        if roots.len() == 0 {
                            return Err(fail(&["Layout '", name.as_str(), "' missing Shape"], j));
                        }
                        let root_shape = if roots.len() == 1 {
                            roots.pop().unwrap()
                        } else {
                            let mut children: Vec<ShapeChild> = Vec::new();
                            let mut rs = roots;
                            while rs.len() > 0
                                decreases rs@.len(),
                            {
                                let s = rs.remove(0);
                                children.push(ShapeChild::Shape(s));
                            }
                            ParsedShape {
                                frame: multi_frame_name(),
                                when_orientation: None,
                                min_width: None,
                                min_height: None,
                                under_width: None,
                                under_height: None,
                                children,
                            }
                        };
                        return Ok((ParsedLayout { name, space, needed_measures, root_shape }, j + 1));
                    }
                    j = j + 1;
                },
                Token::Eof => return Err(fail(&["unexpected EOF in Layout"], j)),
                Token::Error { message: m } => return Err(fail(&["XML parse error: ", m.as_str()], j)),
                Token::Truncated => return Err(fail(&["unexpected end of document in Layout"], j)),
                _ => {
                    j = j + 1;
                },
            }
        }
        Err(fail(&["unexpected EOF in Layout"], j))
    }

    /// A `Shape` and its children, up to its `</Shape>`. `<Leaf/>` is an
    /// unconditional Include and `<Drop/>` one that never holds.
    fn parse_shape(events: &Vec<(Token, usize)>, start: usize, attrs: &Vec<XmlAttr>) -> (r: Result<
        (ParsedShape, usize),
        Failure,
    >)
        requires
            element_words_differ(),
        ensures
            r is Ok <==> shape_attrs_ok(attrs@) && shape_end(toks(events@), start as int) is Some,
            r matches Ok((_, j)) ==> shape_end(toks(events@), start as int) == Some(j as int) && start < j
                <= events@.len(),
        decreases events@.len() - start,
    {
        let ghost ts = toks(events@);
        let mut shape = match Self::parse_shape_attrs(attrs) {
            Ok(s) => s,
            Err(m) => return Err((m, start)),
        };
        let mut j: usize = start;
        while j < events.len()
            invariant
                element_words_differ(),
                ts == toks(events@),
                start <= j,
                shape_end(ts, start as int) == shape_end(ts, j as int),
                shape_attrs_ok(attrs@),
            decreases events@.len() - j,
        {
            match &events[j].0 {
                Token::Start { name: tag, attrs: ta } => {
                    if text_is(tag, "Shape") {
                        let a = match ta {
                            Some(a) => a,
                            None => return Err(fail(&["attribute error"], j)),
                        };
                        match Self::parse_shape(events, j + 1, a) {
                            Ok((child, next)) => {
                                shape.children.push(ShapeChild::Shape(child));
                                j = next;
                            },
                            Err(f) => return Err(f),
                        }
                    } else {
                        j = j + 1;
                    }
                },
                Token::Empty { name: tag, attrs: ta } => {
                    if text_is(tag, "Shape") {
                        return Err(fail(&["Empty Shape (<Shape/>) not allowed as child (use <Include/>)"], j));
                    } else if text_is(tag, "Include") {
                        let a = match ta {
                            Some(a) => a,
                            None => return Err(fail(&["attribute error"], j)),
                        };
                        match Self::parse_include(a) {
                            Ok(inc) => shape.children.push(ShapeChild::Include(inc)),
                            Err(m) => return Err((m, j)),
                        }
                    } else if text_is(tag, "Leaf") || text_is(tag, "Drop") {
                        let never = text_is(tag, "Drop");
                        let inc = LayoutInclude {
                            layout: None,
                            condition: IncludeCondition {
                                when_orientation: if never {
                                    Some(Orientation::Never)
                                } else {
                                    None
                                },
                                min_width: None,
                                under_width: None,
                                min_height: None,
                                under_height: None,
                                name_contains: None,
                            },
                        };
                        shape.children.push(ShapeChild::Include(inc));
                    }
                    j = j + 1;
                },
                Token::End { name: n } => {
                    if text_is(n, "Shape") {
                        return Ok((shape, j + 1));
                    }
                    j = j + 1;
                },
                Token::Eof => return Err(fail(&["unexpected EOF in Shape"], j)),
                Token::Error { message: m } => return Err(fail(&["XML parse error: ", m.as_str()], j)),
                Token::Truncated => return Err(fail(&["unexpected end of document in Shape"], j)),
                _ => {
                    j = j + 1;
                },
            }
        }
        Err(fail(&["unexpected EOF in Shape"], j))
    }

    /// The attributes of a `Shape`: a required `frame` and optional predicates.
    fn parse_shape_attrs(attrs: &Vec<XmlAttr>) -> (r: Result<ParsedShape, String>)
        ensures
            r is Ok <==> shape_attrs_ok(attrs@),
            r matches Ok(s) ==> s.children@.len() == 0,
    {
        let mut frame: Option<String> = None;
        let mut when_orientation: Option<Orientation> = None;
        let mut min_width: Option<MeasureRef> = None;
        let mut min_height: Option<MeasureRef> = None;
        let mut under_width: Option<MeasureRef> = None;
        let mut under_height: Option<MeasureRef> = None;
        let mut i: usize = 0;
        proof {
            lemma_element_words_differ();
        }
        while i < attrs.len()
            invariant
                element_words_differ(),
                i <= attrs@.len(),
                orientations_read(attrs@.subrange(0, i as int)),
                frame is Some == last_value(attrs@.subrange(0, i as int), "frame"@) is Some,
            decreases attrs@.len() - i,
        {
            let a = &attrs[i];
            proof {
                lemma_last_value_step(attrs@, i as int, "frame"@);
            }
            if text_is(&a.key, "frame") {
                frame = Some(a.value.clone());
            } else if text_is(&a.key, "whenOrientation") {
                match parse_orientation(&a.value) {
                    Ok(o) => when_orientation = Some(o),
                    Err(m) => {
                        proof {
                            assert(!orientations_read(attrs@)) by {
                                assert(attrs@[i as int].key@ == "whenOrientation"@);
                            }
                        }
                        return Err(m);
                    },
                }
            } else if text_is(&a.key, "minWidth") {
                min_width = Some(parse_measure_ref(a.value.as_str()));
            } else if text_is(&a.key, "minHeight") {
                min_height = Some(parse_measure_ref(a.value.as_str()));
            } else if text_is(&a.key, "underWidth") {
                under_width = Some(parse_measure_ref(a.value.as_str()));
            } else if text_is(&a.key, "underHeight") {
                under_height = Some(parse_measure_ref(a.value.as_str()));
            }
            proof {
                let next = attrs@.subrange(0, i + 1);
                assert forall|k: int| 0 <= k < next.len() implies orientation_read(#[trigger] next[k]) by {
                    if k < i {
                        assert(next[k] == attrs@.subrange(0, i as int)[k]);
                    }
                }
            }
            i = i + 1;
        }
        assert(attrs@.subrange(0, attrs@.len() as int) =~= attrs@);
        match frame {
            Some(f) => Ok(
                ParsedShape { frame: f, when_orientation, min_width, min_height, under_width, under_height, children: Vec::new() },
            ),
            None => Err(String::from_str("Shape missing required 'frame' attribute")),
        }
    }


    /// `<Include layout? whenOrientation? minWidth? underWidth? minHeight?
    /// underHeight? nameContains?/>`; sizes are literal pixels only.
    pub fn parse_include(attrs: &Vec<XmlAttr>) -> (r: Result<LayoutInclude, String>)
        ensures
            match r {
                Ok(inc) => include_of(attrs@) == Some(include_view(inc)),
                Err(_) => include_of(attrs@) is None,
            },
    {
        let mut inc = LayoutInclude {
            layout: None,
            condition: IncludeCondition {
                when_orientation: None,
                min_width: None,
                under_width: None,
                min_height: None,
                under_height: None,
                name_contains: None,
            },
        };
        let mut i: usize = 0;
        proof {
            lemma_include_words_differ();
            assert(attrs@.subrange(0, 0) =~= Seq::<XmlAttr>::empty());
        }
        while i < attrs.len()
            invariant
                include_words_differ(),
                i <= attrs@.len(),
                include_of(attrs@.subrange(0, i as int)) == Some(include_view(inc)),
            decreases attrs@.len() - i,
        {
            let a = &attrs[i];
            proof {
                assert(attrs@.subrange(0, i + 1).drop_last() =~= attrs@.subrange(0, i as int));
                assert(attrs@.subrange(0, i + 1).last() == attrs@[i as int]);
            }
            if text_is(&a.key, "layout") {
                inc.layout = Some(a.value.clone());
            } else if text_is(&a.key, "whenOrientation") {
                match parse_orientation(&a.value) {
                    Ok(o) => inc.condition.when_orientation = Some(o),
                    Err(m) => {
                        proof {
                            lemma_include_none(attrs@, i as int + 1);
                        }
                        return Err(m);
                    },
                }
            } else if text_is(&a.key, "minWidth") {
                match literal_pixels(&a.value, "minWidth") {
                    Ok(v) => inc.condition.min_width = Some(v),
                    Err(m) => {
                        proof {
                            lemma_include_none(attrs@, i as int + 1);
                        }
                        return Err(m);
                    },
                }
            } else if text_is(&a.key, "underWidth") {
                match literal_pixels(&a.value, "underWidth") {
                    Ok(v) => inc.condition.under_width = Some(v),
                    Err(m) => {
                        proof {
                            lemma_include_none(attrs@, i as int + 1);
                        }
                        return Err(m);
                    },
                }
            } else if text_is(&a.key, "minHeight") {
                match literal_pixels(&a.value, "minHeight") {
                    Ok(v) => inc.condition.min_height = Some(v),
                    Err(m) => {
                        proof {
                            lemma_include_none(attrs@, i as int + 1);
                        }
                        return Err(m);
                    },
                }
            } else if text_is(&a.key, "underHeight") {
                match literal_pixels(&a.value, "underHeight") {
                    Ok(v) => inc.condition.under_height = Some(v),
                    Err(m) => {
                        proof {
                            lemma_include_none(attrs@, i as int + 1);
                        }
                        return Err(m);
                    },
                }
            } else if text_is(&a.key, "nameContains") {
                inc.condition.name_contains = Some(a.value.clone());
            }
            i = i + 1;
        }
        assert(attrs@.subrange(0, attrs@.len() as int) =~= attrs@);
        Ok(inc)
    }

    /// `<LayoutAction key layout traverse? mirrorX? mirrorY?/>`; traverse
    /// defaults to `xfyf` (and ignores case), mirrors to `keep`.
    pub fn parse_layout_action(attrs: &Vec<XmlAttr>) -> (r: Result<ParsedLayoutAction, String>)
        ensures
            match r {
                Ok(a) => action_of(attrs@) == Some((a.key@, a.layout@, a.traverse, a.mirror_x, a.mirror_y)),
                Err(_) => action_of(attrs@) is None,
            },
    {
        let mut key: Option<String> = None;
        let mut layout: Option<String> = None;
        let mut traverse = TraverseOrder::XfYf;
        let mut mirror_x = MirrorMode::Keep;
        let mut mirror_y = MirrorMode::Keep;
        let mut i: usize = 0;
        proof {
            lemma_action_words_differ();
            assert(attrs@.subrange(0, 0) =~= Seq::<XmlAttr>::empty());
        }
        while i < attrs.len()
            invariant
                action_words_differ(),
                i <= attrs@.len(),
                action_scan(attrs@.subrange(0, i as int)) == Some(
                    (
                        match key {
                            Some(k) => Some(k@),
                            None => None,
                        },
                        match layout {
                            Some(l) => Some(l@),
                            None => None,
                        },
                        traverse,
                        mirror_x,
                        mirror_y,
                    ),
                ),
            decreases attrs@.len() - i,
        {
            let a = &attrs[i];
            proof {
                assert(attrs@.subrange(0, i + 1).drop_last() =~= attrs@.subrange(0, i as int));
                assert(attrs@.subrange(0, i + 1).last() == attrs@[i as int]);
            }
            if text_is(&a.key, "key") {
                key = Some(a.value.clone());
            } else if text_is(&a.key, "layout") {
                layout = Some(a.value.clone());
            } else if text_is(&a.key, "traverse") {
                match parse_traverse(&a.value) {
                    Ok(t) => traverse = t,
                    Err(m) => {
                        proof {
                            lemma_action_scan_none(attrs@, i as int + 1);
                        }
                        return Err(m);
                    },
                }
            } else if text_is(&a.key, "mirrorX") {
                match parse_mirror(&a.value, "mirrorX") {
                    Ok(m) => mirror_x = m,
                    Err(m) => {
                        proof {
                            lemma_action_scan_none(attrs@, i as int + 1);
                        }
                        return Err(m);
                    },
                }
            } else if text_is(&a.key, "mirrorY") {
                match parse_mirror(&a.value, "mirrorY") {
                    Ok(m) => mirror_y = m,
                    Err(m) => {
                        proof {
                            lemma_action_scan_none(attrs@, i as int + 1);
                        }
                        return Err(m);
                    },
                }
            }
            i = i + 1;
        }
        assert(attrs@.subrange(0, attrs@.len() as int) =~= attrs@);
        match (key, layout) {
            (Some(k), Some(l)) => Ok(ParsedLayoutAction { key: k, layout: l, traverse, mirror_x, mirror_y }),
            _ => Err(String::from_str("LayoutAction missing required attributes (key, layout)")),
        }
    }

    /// `<DisplayMove key target wrap?/>`: target `next`, `prev` or an index
    /// (the legacy `next`, `prev` and `index` attributes too); wrap defaults
    /// to true.
    pub fn parse_display_move(attrs: &Vec<XmlAttr>) -> (r: Result<ParsedDisplayMove, String>)
        ensures
            match r {
                Ok(d) => move_of(attrs@) == Some((d.key@, d.target)),
                Err(_) => move_of(attrs@) is None,
            },
    {
        let mut key: Option<String> = None;
        let mut next = false;
        let mut prev = false;
        let mut index: Option<usize> = None;
        let mut wrap = true;
        let mut i: usize = 0;
        proof {
            lemma_move_words_differ();
            assert(attrs@.subrange(0, 0) =~= Seq::<XmlAttr>::empty());
        }
        while i < attrs.len()
            invariant
                move_words_differ(),
                i <= attrs@.len(),
                move_scan(attrs@.subrange(0, i as int)) == Some(
                    (
                        match key {
                            Some(k) => Some(k@),
                            None => None,
                        },
                        next,
                        prev,
                        index,
                        wrap,
                    ),
                ),
            decreases attrs@.len() - i,
        {
            let a = &attrs[i];
            proof {
                assert(attrs@.subrange(0, i + 1).drop_last() =~= attrs@.subrange(0, i as int));
                assert(attrs@.subrange(0, i + 1).last() == attrs@[i as int]);
            }
            if text_is(&a.key, "key") {
                key = Some(a.value.clone());
            } else if text_is(&a.key, "target") {
                if text_is(&a.value, "next") {
                    next = true;
                } else if text_is(&a.value, "prev") {
                    prev = true;
                } else {
                    match parse_usize(a.value.as_str()) {
                        Some(v) => index = Some(v),
                        None => {
                            proof {
                                lemma_move_scan_none(attrs@, i as int + 1);
                            }
                            return Err(message(&["invalid target: ", a.value.as_str()]));
                        },
                    }
                }
            } else if text_is(&a.key, "next") {
                if text_is(&a.value, "true") {
                    next = true;
                }
            } else if text_is(&a.key, "prev") {
                if text_is(&a.value, "true") {
                    prev = true;
                }
            } else if text_is(&a.key, "index") {
                match parse_usize(a.value.as_str()) {
                    Some(v) => index = Some(v),
                    None => {
                        proof {
                            lemma_move_scan_none(attrs@, i as int + 1);
                        }
                        return Err(message(&["invalid index: ", a.value.as_str()]));
                    },
                }
            } else if text_is(&a.key, "wrap") {
                wrap = text_is(&a.value, "true");
            }
            i = i + 1;
        }
        assert(attrs@.subrange(0, attrs@.len() as int) =~= attrs@);
        let key = match key {
            Some(k) => k,
            None => return Err(String::from_str("DisplayMove missing key attribute")),
        };
        let target = match (next, prev, index) {
            (true, false, None) => DisplayMoveTarget::Next { wrap },
            (false, true, None) => DisplayMoveTarget::Prev { wrap },
            (false, false, Some(i)) => DisplayMoveTarget::Index(i),
            _ => return Err(String::from_str("DisplayMove must specify exactly one of: next, prev, or index")),
        };
        Ok(ParsedDisplayMove { key, target })
    }
}

/// An Include as plain values: layout, orientation, the four sizes, name.
pub type IncludeView = (Option<Seq<char>>, Option<Orientation>, Option<u32>, Option<u32>, Option<u32>, Option<u32>, Option<Seq<char>>);

pub open spec fn opt_view(s: Option<String>) -> Option<Seq<char>> {
    match s {
        Some(v) => Some(v@),
        None => None,
    }
}

pub open spec fn include_view(inc: LayoutInclude) -> IncludeView {
    (
        opt_view(inc.layout),
        inc.condition.when_orientation,
        inc.condition.min_width,
        inc.condition.under_width,
        inc.condition.min_height,
        inc.condition.under_height,
        opt_view(inc.condition.name_contains),
    )
}

/// The attribute words of an Include are distinct.
pub open spec fn include_words_differ() -> bool {
    let w = seq!["layout"@, "whenOrientation"@, "minWidth"@, "underWidth"@, "minHeight"@, "underHeight"@, "nameContains"@];
    forall|i: int, j: int| 0 <= i < j < 7 ==> w[i] != w[j]
}

proof fn lemma_include_words_differ()
    ensures
        include_words_differ(),
{
    reveal_strlit("layout");
    reveal_strlit("whenOrientation");
    reveal_strlit("minWidth");
    reveal_strlit("underWidth");
    reveal_strlit("minHeight");
    reveal_strlit("underHeight");
    reveal_strlit("nameContains");
    let w = seq!["layout"@, "whenOrientation"@, "minWidth"@, "underWidth"@, "minHeight"@, "underHeight"@, "nameContains"@];
    assert(w[0].len() == 6 && w[1].len() == 15 && w[2].len() == 8 && w[3].len() == 10);
    assert(w[4].len() == 9 && w[5].len() == 11 && w[6].len() == 12);
}

/// A size attribute of an Include: a literal pixel count.
pub open spec fn pixels(v: Seq<char>) -> Option<u32> {
    decimal_u32(v)
}

/// What Include attributes give; `None` once an orientation or size fails to read.
pub open spec fn include_of(attrs: Seq<XmlAttr>) -> Option<IncludeView>
    decreases attrs.len(),
{
    if attrs.len() == 0 {
        Some((None, None, None, None, None, None, None))
    } else {
        match include_of(attrs.drop_last()) {
            None => None,
            Some((l, o, mw, uw, mh, uh, n)) => {
                let key = attrs.last().key@;
                let v = attrs.last().value@;
                if key == "layout"@ {
                    Some((Some(v), o, mw, uw, mh, uh, n))
                } else if key == "whenOrientation"@ {
                    match orientation_word(v) {
                        Some(o2) => Some((l, Some(o2), mw, uw, mh, uh, n)),
                        None => None,
                    }
                } else if key == "minWidth"@ {
                    match pixels(v) {
                        Some(p) => Some((l, o, Some(p), uw, mh, uh, n)),
                        None => None,
                    }
                } else if key == "underWidth"@ {
                    match pixels(v) {
                        Some(p) => Some((l, o, mw, Some(p), mh, uh, n)),
                        None => None,
                    }
                } else if key == "minHeight"@ {
                    match pixels(v) {
                        Some(p) => Some((l, o, mw, uw, Some(p), uh, n)),
                        None => None,
                    }
                } else if key == "underHeight"@ {
                    match pixels(v) {
                        Some(p) => Some((l, o, mw, uw, mh, Some(p), n)),
                        None => None,
                    }
                } else if key == "nameContains"@ {
                    Some((l, o, mw, uw, mh, uh, Some(v)))
                } else {
                    Some((l, o, mw, uw, mh, uh, n))
                }
            },
        }
    }
}

proof fn lemma_include_none(attrs: Seq<XmlAttr>, i: int)
    requires
        0 <= i <= attrs.len(),
        include_of(attrs.subrange(0, i)) is None,
    ensures
        include_of(attrs) is None,
    decreases attrs.len() - i,
{
    if i < attrs.len() {
        assert(attrs.subrange(0, i + 1).drop_last() =~= attrs.subrange(0, i));
        lemma_include_none(attrs, i + 1);
    } else {
        assert(attrs.subrange(0, i) =~= attrs);
    }
}

/// The attribute words of a layout action are distinct.
pub open spec fn action_words_differ() -> bool {
    &&& "key"@ != "layout"@ && "key"@ != "traverse"@ && "key"@ != "mirrorX"@ && "key"@ != "mirrorY"@
    &&& "layout"@ != "traverse"@ && "layout"@ != "mirrorX"@ && "layout"@ != "mirrorY"@
    &&& "traverse"@ != "mirrorX"@ && "traverse"@ != "mirrorY"@ && "mirrorX"@ != "mirrorY"@
}

proof fn lemma_action_words_differ()
    ensures
        action_words_differ(),
{
    reveal_strlit("key");
    reveal_strlit("layout");
    reveal_strlit("traverse");
    reveal_strlit("mirrorX");
    reveal_strlit("mirrorY");
    assert("key"@.len() == 3 && "layout"@.len() == 6 && "traverse"@.len() == 8);
    assert("mirrorX"@.len() == 7 && "mirrorY"@.len() == 7);
    assert("mirrorX"@[6] != "mirrorY"@[6]);
}

/// The layout-action attributes read so far: key, layout, traverse and the
/// two mirror modes; `None` once a traverse or mirror word fails to read.
pub open spec fn action_scan(attrs: Seq<XmlAttr>) -> Option<
    (Option<Seq<char>>, Option<Seq<char>>, TraverseOrder, MirrorMode, MirrorMode),
>
    decreases attrs.len(),
{
    if attrs.len() == 0 {
        Some((None, None, TraverseOrder::XfYf, MirrorMode::Keep, MirrorMode::Keep))
    } else {
        match action_scan(attrs.drop_last()) {
            None => None,
            Some((k, l, t, mx, my)) => {
                let key = attrs.last().key@;
                let v = attrs.last().value@;
                if key == "key"@ {
                    Some((Some(v), l, t, mx, my))
                } else if key == "layout"@ {
                    Some((k, Some(v), t, mx, my))
                } else if key == "traverse"@ {
                    match traverse_word(lower_of(v)) {
                        Some(t2) => Some((k, l, t2, mx, my)),
                        None => None,
                    }
                } else if key == "mirrorX"@ {
                    match mirror_word(v) {
                        Some(m) => Some((k, l, t, m, my)),
                        None => None,
                    }
                } else if key == "mirrorY"@ {
                    match mirror_word(v) {
                        Some(m) => Some((k, l, t, mx, m)),
                        None => None,
                    }
                } else {
                    Some((k, l, t, mx, my))
                }
            },
        }
    }
}

proof fn lemma_action_scan_none(attrs: Seq<XmlAttr>, i: int)
    requires
        0 <= i <= attrs.len(),
        action_scan(attrs.subrange(0, i)) is None,
    ensures
        action_scan(attrs) is None,
    decreases attrs.len() - i,
{
    if i < attrs.len() {
        assert(attrs.subrange(0, i + 1).drop_last() =~= attrs.subrange(0, i));
        lemma_action_scan_none(attrs, i + 1);
    } else {
        assert(attrs.subrange(0, i) =~= attrs);
    }
}

/// What layout-action attributes give: key, layout, traverse and mirrors.
pub open spec fn action_of(attrs: Seq<XmlAttr>) -> Option<
    (Seq<char>, Seq<char>, TraverseOrder, MirrorMode, MirrorMode),
> {
    match action_scan(attrs) {
        Some((Some(k), Some(l), t, mx, my)) => Some((k, l, t, mx, my)),
        _ => None,
    }
}

/// The attribute words of a display move are distinct.
pub open spec fn move_words_differ() -> bool {
    &&& "key"@ != "target"@ && "key"@ != "next"@ && "key"@ != "prev"@ && "key"@ != "index"@ && "key"@ != "wrap"@
    &&& "target"@ != "next"@ && "target"@ != "prev"@ && "target"@ != "index"@ && "target"@ != "wrap"@
    &&& "next"@ != "prev"@ && "next"@ != "index"@ && "next"@ != "wrap"@
    &&& "prev"@ != "index"@ && "prev"@ != "wrap"@ && "index"@ != "wrap"@
}

proof fn lemma_move_words_differ()
    ensures
        move_words_differ(),
{
    reveal_strlit("key");
    reveal_strlit("target");
    reveal_strlit("next");
    reveal_strlit("prev");
    reveal_strlit("index");
    reveal_strlit("wrap");
    assert("key"@.len() == 3 && "target"@.len() == 6 && "index"@.len() == 5);
    assert("next"@.len() == 4 && "prev"@.len() == 4 && "wrap"@.len() == 4);
    assert("next"@[0] != "prev"@[0]);
    assert("next"@[0] != "wrap"@[0]);
    assert("prev"@[0] != "wrap"@[0]);
}

/// The display-move attributes read so far: key, next, prev, index, wrap;
/// `None` once a target or index fails to read.
pub open spec fn move_scan(attrs: Seq<XmlAttr>) -> Option<(Option<Seq<char>>, bool, bool, Option<usize>, bool)>
    decreases attrs.len(),
{
    if attrs.len() == 0 {
        Some((None, false, false, None, true))
    } else {
        match move_scan(attrs.drop_last()) {
            None => None,
            Some((k, n, p, ix, w)) => {
                let key = attrs.last().key@;
                let v = attrs.last().value@;
                if key == "key"@ {
                    Some((Some(v), n, p, ix, w))
                } else if key == "target"@ {
                    if v == "next"@ {
                        Some((k, true, p, ix, w))
                    } else if v == "prev"@ {
                        Some((k, n, true, ix, w))
                    } else {
                        match decimal_usize(v) {
                            Some(i) => Some((k, n, p, Some(i), w)),
                            None => None,
                        }
                    }
                } else if key == "next"@ {
                    Some((k, n || v == "true"@, p, ix, w))
                } else if key == "prev"@ {
                    Some((k, n, p || v == "true"@, ix, w))
                } else if key == "index"@ {
                    match decimal_usize(v) {
                        Some(i) => Some((k, n, p, Some(i), w)),
                        None => None,
                    }
                } else if key == "wrap"@ {
                    Some((k, n, p, ix, v == "true"@))
                } else {
                    Some((k, n, p, ix, w))
                }
            },
        }
    }
}

proof fn lemma_move_scan_none(attrs: Seq<XmlAttr>, i: int)
    requires
        0 <= i <= attrs.len(),
        move_scan(attrs.subrange(0, i)) is None,
    ensures
        move_scan(attrs) is None,
    decreases attrs.len() - i,
{
    if i < attrs.len() {
        assert(attrs.subrange(0, i + 1).drop_last() =~= attrs.subrange(0, i));
        lemma_move_scan_none(attrs, i + 1);
    } else {
        assert(attrs.subrange(0, i) =~= attrs);
    }
}

/// What display-move attributes give: the key and exactly one target.
pub open spec fn move_of(attrs: Seq<XmlAttr>) -> Option<(Seq<char>, DisplayMoveTarget)> {
    match move_scan(attrs) {
        Some((Some(k), true, false, None, w)) => Some((k, DisplayMoveTarget::Next { wrap: w })),
        Some((Some(k), false, true, None, w)) => Some((k, DisplayMoveTarget::Prev { wrap: w })),
        Some((Some(k), false, false, Some(i), _)) => Some((k, DisplayMoveTarget::Index(i))),
        _ => None,
    }
}

/// A size threshold: a literal when the text reads as a 32-bit decimal,
/// else a measure name.
pub fn parse_measure_ref(s: &str) -> (r: MeasureRef)
    ensures
        match crate::text::decimal_u32(s@) {
            Some(v) => r == MeasureRef::Literal(v),
            None => r matches MeasureRef::Name(n) && n@ == s@,
        },
{
    match parse_u32(s) {
        Some(v) => MeasureRef::Literal(v),
        None => MeasureRef::Name(String::from_str(s)),
    }
}


/// The tokens of a token list with positions.
pub open spec fn toks(events: Seq<(Token, usize)>) -> Seq<Token> {
    events.map_values(|p: (Token, usize)| p.0)
}

/// Attribute words whose distinctness the grammar relies on.
pub open spec fn element_words_differ() -> bool {
    &&& "nameContains"@ != "whenOrientation"@
    &&& "frame"@ != "whenOrientation"@
    &&& "nameContains"@ != "platform"@
    &&& "nameContains"@ != "minBottomInset"@
    &&& "platform"@ != "minBottomInset"@
    &&& "Space"@ != "Frame"@
    &&& "Layout"@ != "Frame"@
}

proof fn lemma_element_words_differ()
    ensures
        element_words_differ(),
{
    reveal_strlit("nameContains");
    reveal_strlit("whenOrientation");
    reveal_strlit("frame");
    reveal_strlit("platform");
    reveal_strlit("minBottomInset");
    assert("nameContains"@.len() == 12 && "whenOrientation"@.len() == 15 && "frame"@.len() == 5);
    assert("platform"@.len() == 8 && "minBottomInset"@.len() == 14);
    reveal_strlit("Space");
    reveal_strlit("Frame");
    reveal_strlit("Layout");
    assert("Space"@[0] != "Frame"@[0]);
    assert("Layout"@.len() != "Frame"@.len());
}

/// The platform a word names.
pub open spec fn platform_of(v: Seq<char>) -> Option<Platform> {
    if v == "macos"@ {
        Some(Platform::MacOS)
    } else if v == "windows"@ {
        Some(Platform::Windows)
    } else if v == "linux"@ {
        Some(Platform::Linux)
    } else {
        None
    }
}

/// A platform word.
pub open spec fn platform_word(v: Seq<char>) -> bool {
    platform_of(v) is Some
}

/// A display quirk's name test, platform and inset, as read from its attributes.
pub open spec fn quirk_item(a: Seq<XmlAttr>) -> (Seq<char>, Platform, u32) {
    (
        last_value(a, "nameContains"@).unwrap(),
        platform_of(last_value(a, "platform"@).unwrap()).unwrap(),
        decimal_u32(last_value(a, "minBottomInset"@).unwrap()).unwrap(),
    )
}

/// A display-quirk attribute reads: a platform word, a 32-bit inset.
pub open spec fn quirk_value_ok(a: XmlAttr) -> bool {
    (a.key@ == "platform"@ ==> platform_word(a.value@)) && (a.key@ == "minBottomInset"@ ==> decimal_u32(
        a.value@,
    ) is Some)
}

pub open spec fn quirk_values_read(attrs: Seq<XmlAttr>) -> bool {
    forall|k: int| 0 <= k < attrs.len() ==> quirk_value_ok(#[trigger] attrs[k])
}

/// `<DisplayQuirk>` attributes are accepted: every value reads and all three are present.
pub open spec fn quirk_ok(attrs: Seq<XmlAttr>) -> bool {
    quirk_values_read(attrs) && last_value(attrs, "nameContains"@) is Some && last_value(attrs, "platform"@) is Some
        && last_value(attrs, "minBottomInset"@) is Some
}

/// An orientation attribute holds an orientation word.
pub open spec fn orientation_read(a: XmlAttr) -> bool {
    a.key@ == "whenOrientation"@ ==> orientation_word(a.value@) is Some
}

pub open spec fn orientations_read(attrs: Seq<XmlAttr>) -> bool {
    forall|k: int| 0 <= k < attrs.len() ==> orientation_read(#[trigger] attrs[k])
}

/// `Shape` attributes are accepted: orientations read and a frame is named.
pub open spec fn shape_attrs_ok(attrs: Seq<XmlAttr>) -> bool {
    orientations_read(attrs) && last_value(attrs, "frame"@) is Some
}

/// `<Measure>` attributes are accepted.
pub open spec fn measure_ok(attrs: Seq<XmlAttr>) -> bool {
    measure_values_read(attrs) && last_value(attrs, "name"@) is Some && last_value(attrs, "value"@) is Some
}

/// Where the body of a `Space` starting at token `j` ends (just past
/// `</Space>`); `None` when a rule fails to read or the document ends first.
pub open spec fn space_end(ts: Seq<Token>, j: int) -> Option<int>
    decreases ts.len() - j,
{
    if j < 0 || j >= ts.len() {
        None
    } else {
        match ts[j] {
            Token::Empty { name, attrs } => if name@ == "Match"@ || name@ == "Exclude"@ {
                match attrs {
                    Some(a) => if orientations_read(a@) {
                        space_end(ts, j + 1)
                    } else {
                        None
                    },
                    None => None,
                }
            } else {
                space_end(ts, j + 1)
            },
            Token::End { name } => if name@ == "Space"@ {
                Some(j + 1)
            } else {
                space_end(ts, j + 1)
            },
            Token::Eof => None,
            Token::Error { .. } => None,
            Token::Truncated => None,
            _ => space_end(ts, j + 1),
        }
    }
}

/// Where the body of a `Frame` starting at token `j` ends, with `n` panes
/// read before; `None` when a pane fails to read, no pane was given, or the
/// document ends first.
pub open spec fn frame_end(ts: Seq<Token>, j: int, n: nat) -> Option<int>
    decreases ts.len() - j,
{
    if j < 0 || j >= ts.len() {
        None
    } else {
        match ts[j] {
            Token::Empty { name, attrs } => if name@ == "Pane"@ {
                match attrs {
                    Some(a) => if pane_of(a@) is Some {
                        frame_end(ts, j + 1, n + 1)
                    } else {
                        None
                    },
                    None => None,
                }
            } else {
                frame_end(ts, j + 1, n)
            },
            Token::End { name } => if name@ == "Frame"@ {
                if n > 0 { Some(j + 1) } else { None }
            } else {
                frame_end(ts, j + 1, n)
            },
            Token::Eof => None,
            Token::Error { .. } => None,
            Token::Truncated => None,
            _ => frame_end(ts, j + 1, n),
        }
    }
}

/// Where the body of a `Shape` starting at token `j` ends (just past its
/// `</Shape>`); `None` when a child fails to read or the document ends first.
pub open spec fn shape_end(ts: Seq<Token>, j: int) -> Option<int>
    decreases ts.len() - j,
{
    if j < 0 || j >= ts.len() {
        None
    } else {
        match ts[j] {
            Token::Start { name, attrs } => if name@ == "Shape"@ {
                match attrs {
                    Some(a) => if shape_attrs_ok(a@) {
                        match shape_end(ts, j + 1) {
                            Some(k) => if j < k && k <= ts.len() {
                                shape_end(ts, k)
                            } else {
                                None
                            },
                            None => None,
                        }
                    } else {
                        None
                    },
                    None => None,
                }
            } else {
                shape_end(ts, j + 1)
            },
            Token::Empty { name, attrs } => if name@ == "Shape"@ {
                None
            } else if name@ == "Include"@ {
                match attrs {
                    Some(a) => if include_of(a@) is Some {
                        shape_end(ts, j + 1)
                    } else {
                        None
                    },
                    None => None,
                }
            } else {
                shape_end(ts, j + 1)
            },
            Token::End { name } => if name@ == "Shape"@ {
                Some(j + 1)
            } else {
                shape_end(ts, j + 1)
            },
            Token::Eof => None,
            Token::Error { .. } => None,
            Token::Truncated => None,
            _ => shape_end(ts, j + 1),
        }
    }
}

/// Where the body of a `Layout` starting at token `j` ends, with `n`
/// top-level shapes read before; `None` when an element fails to read, no
/// shape was given, or the document ends first.
pub open spec fn layout_end(ts: Seq<Token>, j: int, n: nat) -> Option<int>
    decreases ts.len() - j,
{
    if j < 0 || j >= ts.len() {
        None
    } else {
        match ts[j] {
            Token::Empty { name, attrs } => if name@ == "Needs"@ {
                if attrs is Some {
                    layout_end(ts, j + 1, n)
                } else {
                    None
                }
            } else if name@ == "Shape"@ {
                None
            } else {
                layout_end(ts, j + 1, n)
            },
            Token::Start { name, attrs } => if name@ == "Shape"@ {
                match attrs {
                    Some(a) => if shape_attrs_ok(a@) {
                        match shape_end(ts, j + 1) {
                            Some(k) => if j < k && k <= ts.len() {
                                layout_end(ts, k, n + 1)
                            } else {
                                None
                            },
                            None => None,
                        }
                    } else {
                        None
                    },
                    None => None,
                }
            } else {
                layout_end(ts, j + 1, n)
            },
            Token::End { name } => if name@ == "Layout"@ {
                if n > 0 { Some(j + 1) } else { None }
            } else {
                layout_end(ts, j + 1, n)
            },
            Token::Eof => None,
            Token::Error { .. } => None,
            Token::Truncated => None,
            _ => layout_end(ts, j + 1, n),
        }
    }
}

/// Whether the tokens from `i` on are accepted, `in_form` telling whether
/// `<Form>` has been opened: every element inside it reads, and the
/// document holds no XML error.
pub open spec fn form_accepts(ts: Seq<Token>, i: int, in_form: bool) -> bool
    decreases ts.len() - i,
{
    if i < 0 || i >= ts.len() {
        true
    } else {
        match ts[i] {
            Token::Start { name, attrs } => if name@ == "Form"@ {
                form_accepts(ts, i + 1, true)
            } else if in_form && (name@ == "Measure"@ || name@ == "Space"@ || name@ == "Frame"@ || name@
                == "Layout"@) {
                match attrs {
                    None => false,
                    Some(a) => {
                        let next = if name@ == "Measure"@ {
                            if measure_ok(a@) { Some(i + 1) } else { None }
                        } else if name@ == "Space"@ {
                            if last_value(a@, "name"@) is Some { space_end(ts, i + 1) } else { None }
                        } else if name@ == "Frame"@ {
                            if last_value(a@, "name"@) is Some { frame_end(ts, i + 1, 0) } else { None }
                        } else {
                            if last_value(a@, "name"@) is Some { layout_end(ts, i + 1, 0) } else { None }
                        };
                        match next {
                            Some(k) => i < k <= ts.len() && form_accepts(ts, k, in_form),
                            None => false,
                        }
                    },
                }
            } else {
                form_accepts(ts, i + 1, in_form)
            },
            Token::Empty { name, attrs } => if in_form && (name@ == "Measure"@ || name@ == "DisplayQuirk"@ || name@
                == "LayoutAction"@ || name@ == "DisplayMove"@) {
                match attrs {
                    None => false,
                    Some(a) => {
                        let ok = if name@ == "Measure"@ {
                            measure_ok(a@)
                        } else if name@ == "DisplayQuirk"@ {
                            quirk_ok(a@)
                        } else if name@ == "LayoutAction"@ {
                            action_of(a@) is Some
                        } else {
                            move_of(a@) is Some
                        };
                        ok && form_accepts(ts, i + 1, in_form)
                    },
                }
            } else {
                form_accepts(ts, i + 1, in_form)
            },
            Token::Eof => true,
            Token::Error { .. } => false,
            Token::Truncated => false,
            _ => form_accepts(ts, i + 1, in_form),
        }
    }
}



/// A measure's name and value, as `parse_measure` reads them.
pub open spec fn measure_item(a: Seq<XmlAttr>) -> (Seq<char>, u32) {
    (last_value(a, "name"@).unwrap(), decimal_u32(last_value(a, "value"@).unwrap()).unwrap())
}

pub type ActionView = (Seq<char>, Seq<char>, TraverseOrder, MirrorMode, MirrorMode);

pub type MoveView = (Seq<char>, DisplayMoveTarget);

/// What the top-level elements from token `i` on contribute, in document
/// order (following the same path as `form_accepts`): measures, layout
/// actions, display moves, frames, space names, quirks, and layouts (name
/// and space).
pub open spec fn top_items(ts: Seq<Token>, i: int, in_form: bool) -> TopItems
    decreases ts.len() - i,
{
    let none = (Seq::empty(), Seq::empty(), Seq::empty(), Seq::empty(), Seq::empty(), Seq::empty(), Seq::empty());
    if i < 0 || i >= ts.len() {
        none
    } else {
        match ts[i] {
            Token::Start { name, attrs } => if name@ == "Form"@ {
                top_items(ts, i + 1, true)
            } else if in_form && (name@ == "Measure"@ || name@ == "Space"@ || name@ == "Frame"@ || name@
                == "Layout"@) {
                match attrs {
                    None => none,
                    Some(a) => {
                        let next = if name@ == "Measure"@ {
                            if measure_ok(a@) { Some(i + 1) } else { None }
                        } else if name@ == "Space"@ {
                            if last_value(a@, "name"@) is Some { space_end(ts, i + 1) } else { None }
                        } else if name@ == "Frame"@ {
                            if last_value(a@, "name"@) is Some { frame_end(ts, i + 1, 0) } else { None }
                        } else {
                            if last_value(a@, "name"@) is Some { layout_end(ts, i + 1, 0) } else { None }
                        };
                        match next {
                            Some(k) => if i < k <= ts.len() {
                                let r = top_items(ts, k, in_form);
                                if name@ == "Measure"@ {
                                    (seq![measure_item(a@)] + r.0, r.1, r.2, r.3, r.4, r.5, r.6)
                                } else if name@ == "Space"@ {
                                    (r.0, r.1, r.2, r.3, seq![last_value(a@, "name"@).unwrap()] + r.4, r.5, r.6)
                                } else if name@ == "Frame"@ {
                                    (
                                        r.0,
                                        r.1,
                                        r.2,
                                        seq![(last_value(a@, "name"@).unwrap(), frame_panes(ts, i + 1))] + r.3,
                                        r.4,
                                        r.5,
                                        r.6,
                                    )
                                } else {
                                    (
                                        r.0,
                                        r.1,
                                        r.2,
                                        r.3,
                                        r.4,
                                        r.5,
                                        seq![(last_value(a@, "name"@).unwrap(), last_value(a@, "space"@))] + r.6,
                                    )
                                }
                            } else {
                                none
                            },
                            None => none,
                        }
                    },
                }
            } else {
                top_items(ts, i + 1, in_form)
            },
            Token::Empty { name, attrs } => if in_form && (name@ == "Measure"@ || name@ == "DisplayQuirk"@ || name@
                == "LayoutAction"@ || name@ == "DisplayMove"@) {
                match attrs {
                    None => none,
                    Some(a) => {
                        let r = top_items(ts, i + 1, in_form);
                        if name@ == "Measure"@ {
                            if measure_ok(a@) {
                                (seq![measure_item(a@)] + r.0, r.1, r.2, r.3, r.4, r.5, r.6)
                            } else {
                                none
                            }
                        } else if name@ == "DisplayQuirk"@ {
                            if quirk_ok(a@) {
                                (r.0, r.1, r.2, r.3, r.4, seq![quirk_item(a@)] + r.5, r.6)
                            } else {
                                none
                            }
                        } else if name@ == "LayoutAction"@ {
                            match action_of(a@) {
                                Some(x) => (r.0, seq![x] + r.1, r.2, r.3, r.4, r.5, r.6),
                                None => none,
                            }
                        } else {
                            match move_of(a@) {
                                Some(x) => (r.0, r.1, seq![x] + r.2, r.3, r.4, r.5, r.6),
                                None => none,
                            }
                        }
                    },
                }
            } else {
                top_items(ts, i + 1, in_form)
            },
            Token::Eof => none,
            Token::Error { .. } => none,
            Token::Truncated => none,
            _ => top_items(ts, i + 1, in_form),
        }
    }
}

/// The contents `top_items` gathers.
pub type TopItems = (
    Seq<(Seq<char>, u32)>,
    Seq<ActionView>,
    Seq<MoveView>,
    Seq<(Seq<char>, Seq<ParsedPane>)>,
    Seq<Seq<char>>,
    Seq<(Seq<char>, Platform, u32)>,
    Seq<(Seq<char>, Option<Seq<char>>)>,
);

pub open spec fn space_views(s: Seq<ParsedSpace>) -> Seq<Seq<char>> {
    s.map_values(|x: ParsedSpace| x.name@)
}

pub open spec fn quirk_views(q: Seq<ParsedDisplayQuirk>) -> Seq<(Seq<char>, Platform, u32)> {
    q.map_values(|x: ParsedDisplayQuirk| (x.name_contains@, x.platform, x.min_bottom_inset))
}

pub open spec fn layout_views(l: Seq<ParsedLayout>) -> Seq<(Seq<char>, Option<Seq<char>>)> {
    l.map_values(|x: ParsedLayout| (x.name@, opt_view(x.space)))
}

/// The contents of a parsed form that `top_items` describes.
pub open spec fn form_items(f: ParsedForm) -> TopItems {
    (
        measure_views(f.measures@),
        action_views(f.layout_actions@),
        move_views(f.display_moves@),
        frame_views(f.frames@),
        space_views(f.spaces@),
        quirk_views(f.display_quirks@),
        layout_views(f.layouts@),
    )
}

pub open spec fn measure_views(m: Seq<(String, u32)>) -> Seq<(Seq<char>, u32)> {
    m.map_values(|x: (String, u32)| (x.0@, x.1))
}

pub open spec fn action_views(a: Seq<ParsedLayoutAction>) -> Seq<ActionView> {
    a.map_values(|x: ParsedLayoutAction| (x.key@, x.layout@, x.traverse, x.mirror_x, x.mirror_y))
}

pub open spec fn move_views(m: Seq<ParsedDisplayMove>) -> Seq<MoveView> {
    m.map_values(|x: ParsedDisplayMove| (x.key@, x.target))
}

/// The panes of a `Frame` body from token `j` on, along the path of `frame_end`.
pub open spec fn frame_panes(ts: Seq<Token>, j: int) -> Seq<ParsedPane>
    decreases ts.len() - j,
{
    if j < 0 || j >= ts.len() {
        Seq::empty()
    } else {
        match ts[j] {
            Token::Empty { name, attrs } => if name@ == "Pane"@ {
                match attrs {
                    Some(a) => match pane_of(a@) {
                        Some(p) => seq![p] + frame_panes(ts, j + 1),
                        None => Seq::empty(),
                    },
                    None => Seq::empty(),
                }
            } else {
                frame_panes(ts, j + 1)
            },
            Token::End { name } => if name@ == "Frame"@ {
                Seq::empty()
            } else {
                frame_panes(ts, j + 1)
            },
            Token::Eof => Seq::empty(),
            Token::Error { .. } => Seq::empty(),
            Token::Truncated => Seq::empty(),
            _ => frame_panes(ts, j + 1),
        }
    }
}

pub open spec fn frame_views(f: Seq<ParsedFrame>) -> Seq<(Seq<char>, Seq<ParsedPane>)> {
    f.map_values(|x: ParsedFrame| (x.name@, x.panes@))
}

} // verus!
