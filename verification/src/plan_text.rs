//! What is written for a report, read off its plan alone: the text that is
//! written as a report is drawn is the encoding of the plan that comes out.
use vstd::prelude::*;
use crate::encode::{byte_len, digits_spec, flag_spec, half_range, text_spec};
use crate::inputs::{
    attach_spec, color_spec, config_spec, config_text, named_spec, Color, CharSet, ConfigChoice,
    IndexType, LabelAttach,
};
use crate::pools::{code_spec, kind_name_spec, message_spec};
use crate::report::{
    bodies_of, head_spec, kind_spec, report_spec, source_plan_spec, sources_spec, span_spec,
    step_count_spec, steps_spec, label_color_spec, label_message_spec, label_place_spec, label_spec, labels_spec,
    messages_text, pick_source_spec, picks_spec, setting_ok, step_body_spec, step_spec,
    tag_spec, text_of, KindPlan, LabelPlan, ReportModel, Setting, SourceModel, StepModel,
};
use crate::rng::{below_value, step};

verus! {

/// The digit that stands for a named colour.
pub open spec fn named_digit(c: Color) -> nat {
    match c {
        Color::Black => 1,
        Color::Red => 2,
        Color::Green => 3,
        Color::Yellow => 4,
        Color::Blue => 5,
        Color::Magenta => 6,
        Color::Cyan => 7,
        Color::White => 8,
        Color::BrightBlack => 9,
        Color::BrightRed => 10,
        Color::BrightGreen => 11,
        Color::BrightYellow => 12,
        Color::BrightBlue => 13,
        Color::BrightMagenta => 14,
        Color::BrightCyan => 15,
        Color::BrightWhite => 16,
        _ => 0,
    }
}

/// What is written for a colour: a numbered one as `17` and its number, red,
/// green and blue as `18` and the three, a named one as its digit.
pub open spec fn color_text(c: Color) -> Seq<char> {
    match c {
        Color::Fixed(n) => digits_spec(17, 1) + digits_spec(n as nat, 2),
        Color::Rgb(r, g, b) => digits_spec(18, 1) + digits_spec(r as nat, 2) + digits_spec(
            g as nat,
            2,
        ) + digits_spec(b as nat, 2),
        _ => digits_spec(named_digit(c), 1),
    }
}

/// What is written for a colour drawn from `s` is that colour's text.
pub proof fn lemma_color_text(s: u64)
    ensures
        color_spec(s).1 == color_text(color_spec(s).2),
{
    let t = crate::rng::below_value(s, 4);
    if t <= 1 {
        let k = crate::rng::below_value(crate::rng::step(s), 17);
        assert(named_digit(named_spec(k as int)) == k);
    }
}

/// The digit that stands for an attachment.
pub open spec fn attach_digit(a: LabelAttach) -> u64 {
    match a {
        LabelAttach::Start => 0,
        LabelAttach::Middle => 1,
        LabelAttach::End => 2,
    }
}

/// What is written for a configuration, read off it.
pub open spec fn config_text_of(c: ConfigChoice) -> Seq<char> {
    config_text(
        (
            c.cross_gap,
            c.compact,
            c.underlines,
            c.multiline_arrows,
            c.color,
            c.char_set == CharSet::Ascii,
            c.index_type == IndexType::Byte,
        ),
        attach_digit(c.label_attach),
        c.tab_width,
    )
}

/// What is written for a configuration drawn from `s` is that
/// configuration's text.
pub proof fn lemma_config_text(s: u64)
    ensures
        config_spec(s).1 == config_text_of(config_spec(s).2),
{
    let a = crate::rng::below_value(crate::rng::step(s), 3);
    assert(attach_digit(attach_spec(a as int)) == a);
}


/// What is written for a label's message: a flag, then the message.
pub open spec fn message_text(m: Option<u64>) -> Seq<char> {
    match m {
        Some(k) => flag_spec(true) + text_spec(message_spec(k as int)),
        None => flag_spec(false),
    }
}

/// What is written for a label's colour: a flag, then the colour.
pub open spec fn label_color_text(c: Option<Color>) -> Seq<char> {
    match c {
        Some(c) => flag_spec(true) + color_text(c),
        None => flag_spec(false),
    }
}

/// What is written for a label: its source, start and end, its message, its
/// colour, its order and its priority.
pub open spec fn label_text(l: LabelPlan) -> Seq<char> {
    digits_spec(l.source as nat, 1) + digits_spec(l.start as nat, 2) + digits_spec(l.end as nat, 2)
        + message_text(l.message) + label_color_text(l.color) + digits_spec(
        (l.order + 32) as nat,
        1,
    ) + digits_spec((l.priority + 32) as nat, 1)
}

/// What is written for labels, one after another.
pub open spec fn labels_text(ls: Seq<LabelPlan>) -> Seq<char>
    decreases ls.len(),
{
    if ls.len() == 0 {
        seq![]
    } else {
        labels_text(ls.drop_last()) + label_text(ls.last())
    }
}

/// What is written for a label drawn from `s` is that label's text.
pub proof fn lemma_label_text(s: u64, set: Setting)
    requires
        setting_ok(set),
    ensures
        label_spec(s, set).1 == label_text(label_spec(s, set).2),
{
    let (s1, source) = pick_source_spec(s, set.with_ids, set.count);
    let body = text_of(set.bodies, source as int);
    crate::encode::lemma_byte_len_at_most_four(body);
    let anchors = if set.dense {
        Some(set.anchors)
    } else {
        None
    };
    crate::inputs::lemma_range_bounded(s1, body, anchors);
    let (s2, start, end) = crate::inputs::range_spec(s1, body, anchors);
    if set.dense {
        let k = below_value(step(s1), set.anchors.len() as u64) as int;
        assert(set.anchors[k] < 16);
    }
    assert(end <= 4096);
    assert((start as usize) as nat == start);
    assert((end as usize) as nat == end);
    let (t2, o2, msg) = label_message_spec(label_place_spec(s, set).0);
    let (t3, o3, color) = label_color_spec(t2);
    if color is Some {
        lemma_color_text(step(t2));
    }
}

/// What is written for labels drawn from `s` is their text, and there are
/// as many as were asked for.
pub proof fn lemma_labels_text(s: u64, set: Setting, k: nat)
    requires
        setting_ok(set),
    ensures
        labels_spec(s, set, k).1 == labels_text(labels_spec(s, set, k).2),
        labels_spec(s, set, k).2.len() == k,
    decreases k,
{
    if k > 0 {
        lemma_labels_text(s, set, (k - 1) as nat);
        let (s1, o1, v1) = labels_spec(s, set, (k - 1) as nat);
        lemma_label_text(s1, set);
        let v = labels_spec(s, set, k).2;
        assert(v.drop_last() =~= v1);
    }
}

/// The tag that a step's kind is written with.
pub open spec fn step_tag(st: StepModel) -> nat {
    match st {
        StepModel::Code(_) => 0,
        StepModel::NumericCode(_) => 1,
        StepModel::Message(_) => 2,
        StepModel::Note(_) => 3,
        StepModel::Help(_) => 4,
        StepModel::SetNote(_) => 5,
        StepModel::SetHelp(_) => 6,
        StepModel::Config(_) => 7,
        StepModel::Notes(_) => 8,
        StepModel::Helps(_) => 9,
        StepModel::Label(_) => 10,
        StepModel::Labels(_) => 11,
    }
}

/// What is written for a step: its tag, then what it holds.
pub open spec fn step_text(st: StepModel) -> Seq<char> {
    digits_spec(step_tag(st), 1) + match st {
        StepModel::Code(k) => text_spec(code_spec(k as int)),
        StepModel::NumericCode(n) => digits_spec((n + half_range(2)) as nat, 2),
        StepModel::Message(k) => text_spec(message_spec(k as int)),
        StepModel::Note(k) => text_spec(message_spec(k as int)),
        StepModel::Help(k) => text_spec(message_spec(k as int)),
        StepModel::SetNote(k) => text_spec(message_spec(k as int)),
        StepModel::SetHelp(k) => text_spec(message_spec(k as int)),
        StepModel::Config(c) => config_text_of(c),
        StepModel::Notes(ms) => digits_spec(ms.len(), 1) + messages_text(ms),
        StepModel::Helps(ms) => digits_spec(ms.len(), 1) + messages_text(ms),
        StepModel::Label(l) => label_text(l),
        StepModel::Labels(ls) => digits_spec(ls.len(), 1) + labels_text(ls),
    }
}

/// `k` messages are drawn as `k` messages.
pub proof fn lemma_picks_len(s: u64, k: nat)
    ensures
        picks_spec(s, k).1.len() == k,
    decreases k,
{
    if k > 0 {
        lemma_picks_len(s, (k - 1) as nat);
    }
}

/// What is written for a step drawn from `s` is that step's text.
pub proof fn lemma_step_text(s: u64, set: Setting)
    requires
        setting_ok(set),
    ensures
        step_spec(s, set).1 == step_text(step_spec(s, set).2),
{
    let (s1, tag) = tag_spec(s, set.dense);
    let (s2, o, st) = step_body_spec(s1, set, tag);
    assert(tag < 12);
    if tag == 1 {
        let n = below_value(s1, 300) - 150;
        assert((n as i64) as int == n);
    } else if tag == 7 {
        lemma_config_text(s1);
    } else if tag == 8 || tag == 9 {
        lemma_picks_len(step(s1), below_value(s1, 3) as nat);
    } else if tag == 10 {
        lemma_label_text(s1, set);
    } else if tag == 11 {
        let n = below_value(s1, if set.dense { 6 } else { 4 });
        lemma_labels_text(step(s1), set, n as nat);
    }
}


/// What is written for steps, one after another.
pub open spec fn steps_text(sts: Seq<StepModel>) -> Seq<char>
    decreases sts.len(),
{
    if sts.len() == 0 {
        seq![]
    } else {
        steps_text(sts.drop_last()) + step_text(sts.last())
    }
}

/// What is written for steps drawn from `s` is their text, and there are as
/// many as were asked for.
pub proof fn lemma_steps_text(s: u64, set: Setting, k: nat)
    requires
        setting_ok(set),
    ensures
        steps_spec(s, set, k).1 == steps_text(steps_spec(s, set, k).2),
        steps_spec(s, set, k).2.len() == k,
    decreases k,
{
    reveal(steps_spec);
    if k > 0 {
        lemma_steps_text(s, set, (k - 1) as nat);
        let (s1, o1, v1) = steps_spec(s, set, (k - 1) as nat);
        lemma_step_text(s1, set);
        let v = steps_spec(s, set, k).2;
        assert(v.drop_last() =~= v1);
    }
}

/// What is written for a source: its name, its text and its line offset.
pub open spec fn source_text(src: SourceModel) -> Seq<char> {
    text_spec(src.name) + text_spec(src.body) + digits_spec(src.offset, 2)
}

/// What is written for sources, one after another.
pub open spec fn sources_text(ss: Seq<SourceModel>) -> Seq<char>
    decreases ss.len(),
{
    if ss.len() == 0 {
        seq![]
    } else {
        sources_text(ss.drop_last()) + source_text(ss.last())
    }
}

/// What is written for sources drawn from `s` is their text; there are as
/// many as were asked for, and their texts are short.
pub proof fn lemma_sources_text(s: u64, dense: bool, k: nat)
    ensures
        sources_spec(s, dense, k).1 == sources_text(sources_spec(s, dense, k).2),
        sources_spec(s, dense, k).2.len() == k,
        forall|i: int|
            0 <= i < k ==> (#[trigger] sources_spec(s, dense, k).2[i]).body.len() <= 12 * 42,
    decreases k,
{
    reveal(sources_spec);
    if k > 0 {
        lemma_sources_text(s, dense, (k - 1) as nat);
        let (s1, o1, v1) = sources_spec(s, dense, (k - 1) as nat);
        let k1 = (k - 1) as nat;
        let t = if k1 == 0 {
            step(s1)
        } else {
            s1
        };
        crate::inputs::lemma_source_short(t, dense);
        let v = sources_spec(s, dense, k).2;
        assert(v.drop_last() =~= v1);
        assert(source_plan_spec(s1, dense, k1).1 == source_text(source_plan_spec(s1, dense, k1).2));
    }
}

/// What is written for a report's kind: its digit, and for a custom kind its
/// name and colour.
pub open spec fn kind_text(k: KindPlan) -> Seq<char> {
    match k {
        KindPlan::Error => digits_spec(0, 1),
        KindPlan::Warning => digits_spec(1, 1),
        KindPlan::Advice => digits_spec(2, 1),
        KindPlan::Custom(n, c) => digits_spec(3, 1) + text_spec(kind_name_spec(n as int))
            + color_text(c),
    }
}

/// What is written for a kind drawn from `s` is that kind's text.
pub proof fn lemma_kind_text(s: u64)
    ensures
        kind_spec(s).1 == kind_text(kind_spec(s).2),
{
    reveal(kind_spec);
    lemma_color_text(step(step(s)));
}

/// What is written for a report: whether its spans name sources, the number
/// of its sources and the sources, its kind, its span (source, start, end),
/// the number of its steps and the steps.
pub open spec fn report_text(r: ReportModel) -> Seq<char> {
    flag_spec(r.with_ids) + digits_spec(r.sources.len(), 1) + sources_text(r.sources) + kind_text(
        r.kind,
    ) + digits_spec(r.span_source as nat, 1) + digits_spec(r.span.0, 2) + digits_spec(r.span.1, 2)
        + digits_spec(r.steps.len(), 1) + steps_text(r.steps)
}

/// What is written as a report is drawn is the text of the report that
/// comes out: its sources, kind and span, and the steps the report is built
/// with, in order.
pub proof fn lemma_report_text(s: u64)
    ensures
        report_spec(s).1 == report_text(report_spec(s).2),
{
    reveal(head_spec);
    reveal(span_spec);
    let (s1, with_ids, dense, anchors, count) = head_spec(s);
    lemma_sources_text(s1, dense, count as nat);
    let (s2, sources_text_, sources) = sources_spec(s1, dense, count as nat);
    lemma_kind_text(s2);
    let (s3, kind_text_, kind) = kind_spec(s2);
    let (s4, span_text, span) = span_spec(s3, with_ids, count, bodies_of(sources));
    let n = step_count_spec(s4, dense);
    let set = Setting { with_ids, dense, anchors, count, bodies: bodies_of(sources) };
    assert(setting_ok(set)) by {
        assert forall|i: int| 0 <= i < 3 implies #[trigger] set.anchors[i] < 16 by {}
        assert forall|i: int| 0 <= i < set.bodies.len() implies #[trigger] set.bodies[i].len()
            <= 12 * 42 by {
            assert(set.bodies[i] == sources[i].body);
        }
    }
    lemma_steps_text(step(s4), set, n as nat);
}

} // verus!
