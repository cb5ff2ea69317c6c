//! One random report: its sources, its kind and span, and the steps that
//! build it, drawn from the generator and written down as they are drawn.
//! The plan that comes out is what a report builder is to be given, step by
//! step, in the same order.
use vstd::prelude::*;
use crate::encode::{
    byte_len, digits, digits_spec, flag, flag_spec, half_range, lemma_byte_len_at_most_four,
    lemma_one_digit, signed, text, text_spec,
};
use crate::inputs::{
    color_spec, config_spec, random_color, random_config, random_range, random_source,
    range_spec, source_spec, Color, ConfigChoice,
};
use crate::pools::{
    code, code_spec, kind_name, kind_name_spec, lemma_pools_short, message, message_spec, CODES,
    MESSAGES, NAMES,
};
use crate::rng::{below_value, chance_value, step, Rng};
use std::ops::Range;
use vstd::arithmetic::power2::{lemma2_to64, pow2};

verus! {

// --- plans --------------------------------------------------------------------------

/// A source of a report: its name, its text, and the offset added to its
/// printed line numbers.
pub struct SourcePlan {
    pub name: String,
    pub body: String,
    pub offset: u64,
}

/// A source as values.
pub struct SourceModel {
    pub name: Seq<char>,
    pub body: Seq<char>,
    pub offset: nat,
}

impl View for SourcePlan {
    type V = SourceModel;

    open spec fn view(&self) -> SourceModel {
        SourceModel { name: self.name@, body: self.body@, offset: self.offset as nat }
    }
}

/// The kind of a report; a custom kind has a name, by its index in the pool
/// of names, and a colour.
#[derive(Clone, Copy, Debug, PartialEq, Eq, Structural)]
pub enum KindPlan {
    Error,
    Warning,
    Advice,
    Custom(u64, Color),
}

/// A label: the source it points into (by index; the index past the last
/// source names one the cache lacks), its span, its message (by index in the
/// pool of messages), its colour, order and priority.
#[derive(Clone, Copy, Debug, PartialEq, Eq, Structural)]
pub struct LabelPlan {
    pub source: u64,
    pub start: usize,
    pub end: usize,
    pub message: Option<u64>,
    pub color: Option<Color>,
    pub order: i64,
    pub priority: i64,
}

/// One step that builds a report. Messages and codes are given by their
/// index in their pools.
pub enum StepPlan {
    /// `with_code` with a string code.
    Code(u64),
    /// `with_code` with a number.
    NumericCode(i64),
    /// `with_message`.
    Message(u64),
    /// `with_note`.
    Note(u64),
    /// `with_help`.
    Help(u64),
    /// `set_note`.
    SetNote(u64),
    /// `set_help`.
    SetHelp(u64),
    /// `with_config`.
    Config(ConfigChoice),
    /// `with_notes`.
    Notes(Vec<u64>),
    /// `with_helps`.
    Helps(Vec<u64>),
    /// `with_label`.
    Label(LabelPlan),
    /// `with_labels`.
    Labels(Vec<LabelPlan>),
}

/// A step as values.
pub enum StepModel {
    Code(u64),
    NumericCode(i64),
    Message(u64),
    Note(u64),
    Help(u64),
    SetNote(u64),
    SetHelp(u64),
    Config(ConfigChoice),
    Notes(Seq<u64>),
    Helps(Seq<u64>),
    Label(LabelPlan),
    Labels(Seq<LabelPlan>),
}

impl View for StepPlan {
    type V = StepModel;

    open spec fn view(&self) -> StepModel {
        match self {
            StepPlan::Code(k) => StepModel::Code(*k),
            StepPlan::NumericCode(n) => StepModel::NumericCode(*n),
            StepPlan::Message(k) => StepModel::Message(*k),
            StepPlan::Note(k) => StepModel::Note(*k),
            StepPlan::Help(k) => StepModel::Help(*k),
            StepPlan::SetNote(k) => StepModel::SetNote(*k),
            StepPlan::SetHelp(k) => StepModel::SetHelp(*k),
            StepPlan::Config(c) => StepModel::Config(*c),
            StepPlan::Notes(ms) => StepModel::Notes(ms@),
            StepPlan::Helps(ms) => StepModel::Helps(ms@),
            StepPlan::Label(l) => StepModel::Label(*l),
            StepPlan::Labels(ls) => StepModel::Labels(ls@),
        }
    }
}

/// A whole report: whether its spans name their sources, its sources, its
/// kind, its span (a source index and a range), and its steps in order.
pub struct ReportPlan {
    pub with_ids: bool,
    pub sources: Vec<SourcePlan>,
    pub kind: KindPlan,
    pub span_source: u64,
    pub span: Range<usize>,
    pub steps: Vec<StepPlan>,
}

/// The name a label or span gives for source `i`: the source's own name,
/// or `missing.rs` for the source the cache lacks.
pub open spec fn source_name_spec(sources: Seq<SourceModel>, i: int) -> Seq<char> {
    if 0 <= i < sources.len() {
        sources[i].name
    } else {
        "missing.rs"@
    }
}

impl ReportPlan {
    /// The name of source `i`, as spans and labels with ids give it.
    pub fn source_name(&self, i: u64) -> (name: String)
        ensures
            name@ == source_name_spec(self@.sources, i as int),
    {
        if (i as usize) < self.sources.len() && i < (self.sources.len() as u64) {
            self.sources[i as usize].name.clone()
        } else {
            "missing.rs".to_owned()
        }
    }
}

/// A report as values.
pub struct ReportModel {
    pub with_ids: bool,
    pub sources: Seq<SourceModel>,
    pub kind: KindPlan,
    pub span_source: u64,
    pub span: (nat, nat),
    pub steps: Seq<StepModel>,
}

impl View for ReportPlan {
    type V = ReportModel;

    open spec fn view(&self) -> ReportModel {
        ReportModel {
            with_ids: self.with_ids,
            sources: self.sources@.map_values(|s: SourcePlan| s@),
            kind: self.kind,
            span_source: self.span_source,
            span: (self.span.start as nat, self.span.end as nat),
            steps: self.steps@.map_values(|s: StepPlan| s@),
        }
    }
}

// --- the draws, as values -----------------------------------------------------------

/// What the draws of a report's steps and labels depend on: whether spans
/// name sources, whether the report is dense, the anchors of its labels,
/// how many sources it has, and their texts.
pub struct Setting {
    pub with_ids: bool,
    pub dense: bool,
    pub anchors: Seq<usize>,
    pub count: u64,
    pub bodies: Seq<Seq<char>>,
}

/// The text of source `i`, or nothing for the source the cache lacks.
pub open spec fn text_of(bodies: Seq<Seq<char>>, i: int) -> Seq<char> {
    if 0 <= i < bodies.len() {
        bodies[i]
    } else {
        seq![]
    }
}

/// A source index drawn from `s`: with ids, one time in twenty the index of
/// the source the cache lacks; else one of the `count` sources.
pub open spec fn pick_source_spec(s: u64, with_ids: bool, count: u64) -> (u64, u64) {
    if with_ids && chance_value(s, 5) {
        (step(s), count)
    } else if with_ids {
        (step(step(s)), below_value(step(s), count))
    } else {
        (step(s), below_value(s, count))
    }
}

/// The name `file{k}.rs` of the `k`th source, for the three a report can
/// have (`k` from 0 to 2; any larger `k` gets `file2.rs`). One time in five
/// the first is named `日本/src.rs` instead.
pub open spec fn file_name_spec(k: int) -> Seq<char> {
    if k == 0 {
        "file0.rs"@
    } else if k == 1 {
        "file1.rs"@
    } else {
        "file2.rs"@
    }
}

/// The name that a first source sometimes has.
pub open spec fn wide_name_spec() -> Seq<char> {
    "日本/src.rs"@
}

/// The `k`th source of a report drawn from `s`: the state after it, what is
/// written for it (name, text, line offset) and the source.
pub open spec fn source_plan_spec(s: u64, dense: bool, k: nat) -> (u64, Seq<char>, SourceModel) {
    let wide = k == 0 && chance_value(s, 20);
    let s1 = if k == 0 {
        step(s)
    } else {
        s
    };
    let name = if wide {
        wide_name_spec()
    } else {
        file_name_spec(k as int)
    };
    let (s2, body) = source_spec(s1, dense);
    let (s3, offset) = if chance_value(s2, 20) {
        (step(step(s2)), below_value(step(s2), 2000) as nat)
    } else {
        (step(s2), 0nat)
    };
    (
        s3,
        text_spec(name) + text_spec(body) + digits_spec(offset, 2),
        SourceModel { name, body, offset },
    )
}

/// The first `k` sources of a report drawn from `s`.
#[verifier::opaque]
pub open spec fn sources_spec(s: u64, dense: bool, k: nat) -> (u64, Seq<char>, Seq<SourceModel>)
    decreases k,
{
    if k == 0 {
        (s, seq![], seq![])
    } else {
        let (s1, o1, v1) = sources_spec(s, dense, (k - 1) as nat);
        let (s2, o2, v2) = source_plan_spec(s1, dense, (k - 1) as nat);
        (s2, o1 + o2, v1.push(v2))
    }
}

/// The kind of a report drawn from `s`: the state after it, what is written
/// for it, and the kind. A custom kind has a name from the pool and a
/// random colour.
#[verifier::opaque]
pub open spec fn kind_spec(s: u64) -> (u64, Seq<char>, KindPlan) {
    let tag = below_value(s, 4);
    let s1 = step(s);
    if tag == 0 {
        (s1, digits_spec(0, 1), KindPlan::Error)
    } else if tag == 1 {
        (s1, digits_spec(1, 1), KindPlan::Warning)
    } else if tag == 2 {
        (s1, digits_spec(2, 1), KindPlan::Advice)
    } else {
        let name = below_value(s1, NAMES);
        let (s2, o, c) = color_spec(step(s1));
        (
            s2,
            digits_spec(3, 1) + text_spec(kind_name_spec(name as int)) + o,
            KindPlan::Custom(name, c),
        )
    }
}

/// `k` messages drawn from `s`, as their indices.
pub open spec fn picks_spec(s: u64, k: nat) -> (u64, Seq<u64>)
    decreases k,
{
    if k == 0 {
        (s, seq![])
    } else {
        let (s1, v) = picks_spec(s, (k - 1) as nat);
        (step(s1), v.push(below_value(s1, MESSAGES)))
    }
}

/// The messages with the given indices, written one after another.
pub open spec fn messages_text(ms: Seq<u64>) -> Seq<char>
    decreases ms.len(),
{
    if ms.len() == 0 {
        seq![]
    } else {
        messages_text(ms.drop_last()) + text_spec(message_spec(ms.last() as int))
    }
}

/// An order or priority drawn from `s` with a chance of `percent`: the
/// state after it and the value, from -3 to 3, or 0.
pub open spec fn small_spec(s: u64, percent: u64) -> (u64, i64) {
    if chance_value(s, percent) {
        (step(step(s)), (below_value(step(s), 7) - 3) as i64)
    } else {
        (step(s), 0i64)
    }
}

/// Where a label drawn from `s` points: the state after it, what is written
/// for it (source index, start, end) and the three values.
pub open spec fn label_place_spec(s: u64, set: Setting) -> (u64, Seq<char>, (u64, nat, nat)) {
    let (s1, source) = pick_source_spec(s, set.with_ids, set.count);
    let (s2, start, end) = range_spec(
        s1,
        text_of(set.bodies, source as int),
        if set.dense {
            Some(set.anchors)
        } else {
            None
        },
    );
    (
        s2,
        digits_spec(source as nat, 1) + digits_spec(start, 2) + digits_spec(end, 2),
        (source, start, end),
    )
}

/// A label's message drawn from `s`, four times in five: the state after
/// it, what is written for it (a flag, then the message) and its index.
pub open spec fn label_message_spec(s: u64) -> (u64, Seq<char>, Option<u64>) {
    if chance_value(s, 80) {
        let k = below_value(step(s), MESSAGES);
        (step(step(s)), flag_spec(true) + text_spec(message_spec(k as int)), Some(k))
    } else {
        (step(s), flag_spec(false), None)
    }
}

/// A label's colour drawn from `s`, seven times in ten: the state after it,
/// what is written for it (a flag, then the colour) and the colour.
pub open spec fn label_color_spec(s: u64) -> (u64, Seq<char>, Option<Color>) {
    if chance_value(s, 70) {
        let (t, o, c) = color_spec(step(s));
        (t, flag_spec(true) + o, Some(c))
    } else {
        (step(s), flag_spec(false), None)
    }
}

/// A label drawn from `s`: the state after it, what is written for it, and
/// the label. Its order is drawn half the time in dense reports, else three
/// times in ten; its priority three times in ten.
pub open spec fn label_spec(s: u64, set: Setting) -> (u64, Seq<char>, LabelPlan) {
    let (s1, o1, place) = label_place_spec(s, set);
    let (s2, o2, msg) = label_message_spec(s1);
    let (s3, o3, color) = label_color_spec(s2);
    let (s4, order) = small_spec(s3, if set.dense { 50 } else { 30 });
    let (s5, priority) = small_spec(s4, 30);
    (
        s5,
        o1 + o2 + o3 + digits_spec((order + 32) as nat, 1) + digits_spec((priority + 32) as nat, 1),
        LabelPlan {
            source: place.0,
            start: place.1 as usize,
            end: place.2 as usize,
            message: msg,
            color,
            order,
            priority,
        },
    )
}

/// `k` labels drawn from `s`.
pub open spec fn labels_spec(s: u64, set: Setting, k: nat) -> (u64, Seq<char>, Seq<LabelPlan>)
    decreases k,
{
    if k == 0 {
        (s, seq![], seq![])
    } else {
        let (s1, o1, v1) = labels_spec(s, set, (k - 1) as nat);
        let (s2, o2, v2) = label_spec(s1, set);
        (s2, o1 + o2, v1.push(v2))
    }
}

/// The tag of a step drawn from `s`: the state after it and the tag. Dense
/// reports add labels three times in five.
pub open spec fn tag_spec(s: u64, dense: bool) -> (u64, u64) {
    if dense && chance_value(s, 60) {
        (step(step(s)), (10 + below_value(step(s), 2)) as u64)
    } else if dense {
        (step(step(s)), below_value(step(s), 12))
    } else {
        (step(s), below_value(s, 12))
    }
}

/// What a step with the given tag draws from `s`: the state after it, what
/// is written for it (after its tag), and the step.
pub open spec fn step_body_spec(s: u64, set: Setting, tag: u64) -> (u64, Seq<char>, StepModel) {
    if tag == 0 {
        let k = below_value(s, CODES);
        (step(s), text_spec(code_spec(k as int)), StepModel::Code(k))
    } else if tag == 1 {
        let n = below_value(s, 300) - 150;
        (step(s), digits_spec((n + half_range(2)) as nat, 2), StepModel::NumericCode(n as i64))
    } else if 2 <= tag <= 6 {
        let k = below_value(s, MESSAGES);
        (
            step(s),
            text_spec(message_spec(k as int)),
            if tag == 2 {
                StepModel::Message(k)
            } else if tag == 3 {
                StepModel::Note(k)
            } else if tag == 4 {
                StepModel::Help(k)
            } else if tag == 5 {
                StepModel::SetNote(k)
            } else {
                StepModel::SetHelp(k)
            },
        )
    } else if tag == 7 {
        let (s1, o, c) = config_spec(s);
        (s1, o, StepModel::Config(c))
    } else if tag == 8 || tag == 9 {
        let n = below_value(s, 3);
        let (s1, ms) = picks_spec(step(s), n as nat);
        (
            s1,
            digits_spec(n as nat, 1) + messages_text(ms),
            if tag == 8 {
                StepModel::Notes(ms)
            } else {
                StepModel::Helps(ms)
            },
        )
    } else if tag == 10 {
        let (s1, o, l) = label_spec(s, set);
        (s1, o, StepModel::Label(l))
    } else {
        let n = below_value(
            s,
            if set.dense {
                6
            } else {
                4
            },
        );
        let (s1, o, ls) = labels_spec(step(s), set, n as nat);
        (s1, digits_spec(n as nat, 1) + o, StepModel::Labels(ls))
    }
}

/// A step drawn from `s`: its tag, then what the tag draws.
pub open spec fn step_spec(s: u64, set: Setting) -> (u64, Seq<char>, StepModel) {
    let (s1, tag) = tag_spec(s, set.dense);
    let (s2, o, st) = step_body_spec(s1, set, tag);
    (s2, digits_spec(tag as nat, 1) + o, st)
}

/// `k` steps drawn from `s`.
#[verifier::opaque]
pub open spec fn steps_spec(s: u64, set: Setting, k: nat) -> (u64, Seq<char>, Seq<StepModel>)
    decreases k,
{
    if k == 0 {
        (s, seq![], seq![])
    } else {
        let (s1, o1, v1) = steps_spec(s, set, (k - 1) as nat);
        let (s2, o2, v2) = step_spec(s1, set);
        (s2, o1 + o2, v1.push(v2))
    }
}

/// The bodies of the sources, in order.
pub open spec fn bodies_of(sources: Seq<SourceModel>) -> Seq<Seq<char>> {
    sources.map_values(|s: SourceModel| s.body)
}

/// The span of a report drawn from `s`: the state after it, what is written
/// for it (source index, start, end), and the three values.
#[verifier::opaque]
pub open spec fn span_spec(s: u64, with_ids: bool, count: u64, bodies: Seq<Seq<char>>) -> (
    u64,
    Seq<char>,
    (u64, nat, nat),
) {
    let (s1, source) = pick_source_spec(s, with_ids, count);
    let (s2, start, end) = range_spec(s1, text_of(bodies, source as int), None);
    (
        s2,
        digits_spec(source as nat, 1) + digits_spec(start, 2) + digits_spec(end, 2),
        (source, start, end),
    )
}

/// The number of steps of a report drawn from `s`: four to thirteen when
/// dense, else up to eleven.
pub open spec fn step_count_spec(s: u64, dense: bool) -> u64 {
    if dense {
        (4 + below_value(s, 10)) as u64
    } else {
        below_value(s, 12)
    }
}

/// A report drawn from `s`: the state after it, what is written for it, and
/// the report.
///
/// Three times in four its spans name their sources, of which it then has
/// one to three; else it has one unnamed source. Two times in five it is
/// dense: short crowded lines, labels spanning from three shared anchors,
/// and more steps, most of them labels.
pub open spec fn report_spec(s0: u64) -> (u64, Seq<char>, ReportModel) {
    let (s1, with_ids, dense, anchors, count) = head_spec(s0);
    let (s2, sources_text, sources) = sources_spec(s1, dense, count as nat);
    let (s3, kind_text, kind) = kind_spec(s2);
    let (s4, span_text, span) = span_spec(s3, with_ids, count, bodies_of(sources));
    let n = step_count_spec(s4, dense);
    let set = Setting { with_ids, dense, anchors, count, bodies: bodies_of(sources) };
    let (s5, steps_text, steps) = steps_spec(step(s4), set, n as nat);
    (
        s5,
        flag_spec(with_ids) + digits_spec(count as nat, 1) + sources_text + kind_text + span_text
            + digits_spec(n as nat, 1) + steps_text,
        ReportModel {
            with_ids,
            sources,
            kind,
            span_source: span.0,
            span: (span.1, span.2),
            steps,
        },
    )
}

/// The head of a report: whether its spans name sources, whether it is
/// dense, its anchors and its number of sources.
#[verifier::opaque]
pub open spec fn head_spec(s0: u64) -> (u64, bool, bool, Seq<usize>, u64) {
    let with_ids = chance_value(s0, 75);
    let s1 = step(s0);
    let dense = chance_value(s1, 40);
    let s2 = step(s1);
    let anchors = seq![
        below_value(s2, 16) as usize,
        below_value(step(s2), 16) as usize,
        below_value(step(step(s2)), 16) as usize,
    ];
    let s3 = step(step(step(s2)));
    if with_ids {
        (step(s3), with_ids, dense, anchors, (1 + below_value(s3, 3)) as u64)
    } else {
        (s3, with_ids, dense, anchors, 1u64)
    }
}

// --- the draws ----------------------------------------------------------------------

/// What the steps of a report are drawn with, from its values: the texts of
/// its sources.
pub open spec fn setting_of(
    with_ids: bool,
    dense: bool,
    anchors: Seq<usize>,
    count: u64,
    sources: Seq<SourcePlan>,
) -> Setting {
    Setting {
        with_ids,
        dense,
        anchors,
        count,
        bodies: bodies_of(sources.map_values(|s: SourcePlan| s@)),
    }
}

/// The limits that the draws keep to: one to three sources, short texts,
/// three small anchors.
pub open spec fn setting_ok(set: Setting) -> bool {
    &&& 1 <= set.count <= 3
    &&& set.bodies.len() == set.count
    &&& set.anchors.len() == 3
    &&& forall|i: int| 0 <= i < 3 ==> #[trigger] set.anchors[i] < 16
    &&& forall|i: int| 0 <= i < set.bodies.len() ==> #[trigger] set.bodies[i].len() <= 12 * 42
}

/// A source index, as `pick_source_spec` draws it.
fn pick_source(rng: &mut Rng, with_ids: bool, count: u64) -> (r: u64)
    requires
        count > 0,
    ensures
        (final(rng).0, r) == pick_source_spec(old(rng).0, with_ids, count),
        r <= count,
{
    if with_ids && rng.chance(5) {
        count
    } else {
        rng.below(count)
    }
}

/// The text of source `i`, or nothing for the source the cache lacks.
fn body_of(sources: &Vec<SourcePlan>, i: u64) -> (r: &str)
    ensures
        r@ == text_of(bodies_of(sources@.map_values(|s: SourcePlan| s@)), i as int),
{
    proof {
        reveal_strlit("");
    }
    if (i as usize) < sources.len() && i < (sources.len() as u64) {
        sources[i as usize].body.as_str()
    } else {
        ""
    }
}

/// Texts short enough for the encoding.
proof fn lemma_short_text(s: Seq<char>)
    requires
        s.len() <= 12 * 42,
    ensures
        byte_len(s) <= 2016,
        byte_len(s) < pow2(18),
        byte_len(s) + 64 <= usize::MAX,
{
    lemma_byte_len_at_most_four(s);
    lemma2_to64();
}

/// An order or priority, as `small_spec` draws it.
fn random_small(rng: &mut Rng, percent: u64) -> (r: i64)
    ensures
        (final(rng).0, r) == small_spec(old(rng).0, percent),
        -3 <= r <= 3,
{
    if rng.chance(percent) {
        rng.below(7) as i64 - 3
    } else {
        0
    }
}

/// Where a label points, written down as it is drawn.
fn random_label_place(
    rng: &mut Rng,
    out: &mut String,
    with_ids: bool,
    dense: bool,
    anchors: &Vec<usize>,
    count: u64,
    sources: &Vec<SourcePlan>,
) -> (r: (u64, usize, usize))
    requires
        setting_ok(setting_of(with_ids, dense, anchors@, count, sources@)),
    ensures
        ({
            let (s, o, v) = label_place_spec(
                old(rng).0,
                setting_of(with_ids, dense, anchors@, count, sources@),
            );
            final(rng).0 == s && final(out)@ == old(out)@ + o && r.0 == v.0 && r.1 == v.1 && r.2
                == v.2
        }),
        r.0 <= 3,
        r.2 < 4096,
{
    let ghost set = setting_of(with_ids, dense, anchors@, count, sources@);
    let ghost start_out = out@;
    let source = pick_source(rng, with_ids, count);
    let body = body_of(sources, source);
    proof {
        lemma_short_text(body@);
    }
    let range = if dense {
        random_range(rng, body, Some(anchors.as_slice()))
    } else {
        random_range(rng, body, None)
    };
    proof {
        lemma2_to64();
    }
    digits(out, source, 1);
    digits(out, range.start as u64, 2);
    digits(out, range.end as u64, 2);
    assert(out@ =~= start_out + label_place_spec(old(rng).0, set).1);
    (source, range.start, range.end)
}

/// A label's message, written down as it is drawn.
fn random_label_message(rng: &mut Rng, out: &mut String) -> (r: Option<u64>)
    ensures
        ({
            let (s, o, v) = label_message_spec(old(rng).0);
            final(rng).0 == s && final(out)@ == old(out)@ + o && r == v
        }),
{
    let ghost start_out = out@;
    if rng.chance(80) {
        let k = rng.below(MESSAGES);
        flag(out, true);
        let t = message(k);
        proof {
            lemma_pools_short();
            lemma_short_text(t@);
        }
        text(out, t);
        assert(out@ =~= start_out + label_message_spec(old(rng).0).1);
        Some(k)
    } else {
        flag(out, false);
        None
    }
}

/// A label's colour, written down as it is drawn.
fn random_label_color(rng: &mut Rng, out: &mut String) -> (r: Option<Color>)
    ensures
        ({
            let (s, o, v) = label_color_spec(old(rng).0);
            final(rng).0 == s && final(out)@ == old(out)@ + o && r == v
        }),
{
    let ghost start_out = out@;
    if rng.chance(70) {
        flag(out, true);
        let c = random_color(rng, out);
        assert(out@ =~= start_out + label_color_spec(old(rng).0).1);
        Some(c)
    } else {
        flag(out, false);
        None
    }
}

/// One label, written down as it is drawn.
fn random_label(
    rng: &mut Rng,
    out: &mut String,
    with_ids: bool,
    dense: bool,
    anchors: &Vec<usize>,
    count: u64,
    sources: &Vec<SourcePlan>,
) -> (l: LabelPlan)
    requires
        setting_ok(setting_of(with_ids, dense, anchors@, count, sources@)),
    ensures
        ({
            let (s, o, v) = label_spec(
                old(rng).0,
                setting_of(with_ids, dense, anchors@, count, sources@),
            );
            final(rng).0 == s && final(out)@ == old(out)@ + o && l == v
        }),
{
    let ghost set = setting_of(with_ids, dense, anchors@, count, sources@);
    let ghost start_out = out@;
    let place = random_label_place(rng, out, with_ids, dense, anchors, count, sources);
    let msg = random_label_message(rng, out);
    let color = random_label_color(rng, out);
    let order = random_small(
        rng,
        if dense {
            50
        } else {
            30
        },
    );
    let priority = random_small(rng, 30);
    assert(half_range(1) == 32) by {
        lemma2_to64();
    }
    signed(out, order, 1);
    signed(out, priority, 1);
    assert(out@ =~= start_out + label_spec(old(rng).0, set).1);
    LabelPlan {
        source: place.0,
        start: place.1,
        end: place.2,
        message: msg,
        color,
        order,
        priority,
    }
}


/// `n` labels, written down as they are drawn.
fn random_labels(
    rng: &mut Rng,
    out: &mut String,
    with_ids: bool,
    dense: bool,
    anchors: &Vec<usize>,
    count: u64,
    sources: &Vec<SourcePlan>,
    n: u64,
) -> (ls: Vec<LabelPlan>)
    requires
        setting_ok(setting_of(with_ids, dense, anchors@, count, sources@)),
    ensures
        ({
            let (s, o, v) = labels_spec(
                old(rng).0,
                setting_of(with_ids, dense, anchors@, count, sources@),
                n as nat,
            );
            final(rng).0 == s && final(out)@ == old(out)@ + o && ls@ == v
        }),
{
    let ghost set = setting_of(with_ids, dense, anchors@, count, sources@);
    let ghost s0 = rng.0;
    let ghost start_out = out@;
    let mut ls: Vec<LabelPlan> = Vec::new();
    let mut i: u64 = 0;
    while i < n
        invariant
            i <= n,
            setting_ok(set),
            set == setting_of(with_ids, dense, anchors@, count, sources@),
            ({
                let (s, o, v) = labels_spec(s0, set, i as nat);
                rng.0 == s && out@ == start_out + o && ls@ == v
            }),
        decreases n - i,
    {
        let l = random_label(rng, out, with_ids, dense, anchors, count, sources);
        ls.push(l);
        i = i + 1;
        assert(out@ =~= start_out + labels_spec(s0, set, i as nat).1);
    }
    ls
}

/// `n` message indices, as `picks_spec` draws them.
fn random_picks(rng: &mut Rng, n: u64) -> (ms: Vec<u64>)
    ensures
        ({
            let (s, v) = picks_spec(old(rng).0, n as nat);
            final(rng).0 == s && ms@ == v
        }),
        forall|i: int| 0 <= i < ms@.len() ==> #[trigger] ms@[i] < MESSAGES,
{
    let ghost s0 = rng.0;
    let mut ms: Vec<u64> = Vec::new();
    let mut i: u64 = 0;
    while i < n
        invariant
            i <= n,
            ({
                let (s, v) = picks_spec(s0, i as nat);
                rng.0 == s && ms@ == v
            }),
            forall|j: int| 0 <= j < ms@.len() ==> #[trigger] ms@[j] < MESSAGES,
        decreases n - i,
    {
        let k = rng.below(MESSAGES);
        ms.push(k);
        i = i + 1;
    }
    ms
}

/// Writes the messages with the given indices, one after another.
fn write_messages(out: &mut String, ms: &Vec<u64>)
    requires
        forall|i: int| 0 <= i < ms@.len() ==> #[trigger] ms@[i] < MESSAGES,
    ensures
        final(out)@ == old(out)@ + messages_text(ms@),
{
    let ghost start_out = out@;
    let mut i: usize = 0;
    while i < ms.len()
        invariant
            i <= ms@.len(),
            forall|j: int| 0 <= j < ms@.len() ==> #[trigger] ms@[j] < MESSAGES,
            out@ == start_out + messages_text(ms@.take(i as int)),
        decreases ms@.len() - i,
    {
        let t = message(ms[i]);
        proof {
            lemma_pools_short();
            lemma_short_text(t@);
        }
        text(out, t);
        proof {
            assert(ms@.take(i + 1).drop_last() =~= ms@.take(i as int));
        }
        i = i + 1;
        assert(out@ =~= start_out + messages_text(ms@.take(i as int)));
    }
    assert(ms@.take(i as int) =~= ms@);
}

/// What a step with the given tag draws, written down as it is drawn.
fn random_step_body(
    rng: &mut Rng,
    out: &mut String,
    with_ids: bool,
    dense: bool,
    anchors: &Vec<usize>,
    count: u64,
    sources: &Vec<SourcePlan>,
    tag: u64,
) -> (st: StepPlan)
    requires
        setting_ok(setting_of(with_ids, dense, anchors@, count, sources@)),
        tag < 12,
    ensures
        ({
            let (s, o, v) = step_body_spec(
                old(rng).0,
                setting_of(with_ids, dense, anchors@, count, sources@),
                tag,
            );
            final(rng).0 == s && final(out)@ == old(out)@ + o && st@ == v
        }),
{
    let ghost set = setting_of(with_ids, dense, anchors@, count, sources@);
    let ghost start_out = out@;
    proof {
        lemma_pools_short();
    }
    match tag {
        0 => {
            let k = rng.below(CODES);
            let t = code(k);
            proof {
                lemma_short_text(t@);
            }
            text(out, t);
            StepPlan::Code(k)
        },
        1 => {
            let n = rng.below(300) as i64 - 150;
            assert(half_range(2) == 2048) by {
                lemma2_to64();
            }
            signed(out, n, 2);
            StepPlan::NumericCode(n)
        },
        2 | 3 | 4 | 5 | 6 => {
            let k = rng.below(MESSAGES);
            let t = message(k);
            proof {
                lemma_short_text(t@);
            }
            text(out, t);
            if tag == 2 {
                StepPlan::Message(k)
            } else if tag == 3 {
                StepPlan::Note(k)
            } else if tag == 4 {
                StepPlan::Help(k)
            } else if tag == 5 {
                StepPlan::SetNote(k)
            } else {
                StepPlan::SetHelp(k)
            }
        },
        7 => {
            let c = random_config(rng, out);
            StepPlan::Config(c)
        },
        8 | 9 => {
            let n = rng.below(3);
            let ms = random_picks(rng, n);
            proof {
                lemma_one_digit(n as nat);
            }
            digits(out, n, 1);
            write_messages(out, &ms);
            assert(out@ =~= start_out + step_body_spec(old(rng).0, set, tag).1);
            if tag == 8 {
                StepPlan::Notes(ms)
            } else {
                StepPlan::Helps(ms)
            }
        },
        10 => {
            let l = random_label(rng, out, with_ids, dense, anchors, count, sources);
            StepPlan::Label(l)
        },
        _ => {
            let n = rng.below(
                if dense {
                    6
                } else {
                    4
                },
            );
            proof {
                lemma_one_digit(n as nat);
            }
            digits(out, n, 1);
            let ls = random_labels(rng, out, with_ids, dense, anchors, count, sources, n);
            assert(out@ =~= start_out + step_body_spec(old(rng).0, set, tag).1);
            StepPlan::Labels(ls)
        },
    }
}

/// One step, written down as it is drawn: its tag, then what it draws.
fn random_step(
    rng: &mut Rng,
    out: &mut String,
    with_ids: bool,
    dense: bool,
    anchors: &Vec<usize>,
    count: u64,
    sources: &Vec<SourcePlan>,
) -> (st: StepPlan)
    requires
        setting_ok(setting_of(with_ids, dense, anchors@, count, sources@)),
    ensures
        ({
            let (s, o, v) = step_spec(
                old(rng).0,
                setting_of(with_ids, dense, anchors@, count, sources@),
            );
            final(rng).0 == s && final(out)@ == old(out)@ + o && st@ == v
        }),
{
    let ghost set = setting_of(with_ids, dense, anchors@, count, sources@);
    let ghost start_out = out@;
    let tag = if dense && rng.chance(60) {
        10 + rng.below(2)
    } else {
        rng.below(12)
    };
    proof {
        lemma_one_digit(tag as nat);
    }
    digits(out, tag, 1);
    let st = random_step_body(rng, out, with_ids, dense, anchors, count, sources, tag);
    assert(out@ =~= start_out + step_spec(old(rng).0, set).1);
    st
}


/// `n` steps, written down as they are drawn.
fn random_steps(
    rng: &mut Rng,
    out: &mut String,
    with_ids: bool,
    dense: bool,
    anchors: &Vec<usize>,
    count: u64,
    sources: &Vec<SourcePlan>,
    n: u64,
) -> (sts: Vec<StepPlan>)
    requires
        setting_ok(setting_of(with_ids, dense, anchors@, count, sources@)),
    ensures
        ({
            let (s, o, v) = steps_spec(
                old(rng).0,
                setting_of(with_ids, dense, anchors@, count, sources@),
                n as nat,
            );
            final(rng).0 == s && final(out)@ == old(out)@ + o && sts@.map_values(
                |st: StepPlan| st@,
            ) == v
        }),
{
    reveal(steps_spec);
    let ghost set = setting_of(with_ids, dense, anchors@, count, sources@);
    let ghost s0 = rng.0;
    let ghost start_out = out@;
    let mut sts: Vec<StepPlan> = Vec::new();
    let mut i: u64 = 0;
    while i < n
        invariant
            i <= n,
            setting_ok(set),
            set == setting_of(with_ids, dense, anchors@, count, sources@),
            ({
                let (s, o, v) = steps_spec(s0, set, i as nat);
                rng.0 == s && out@ == start_out + o && sts@.map_values(|st: StepPlan| st@) == v
            }),
        decreases n - i,
    {
        proof {
            reveal(steps_spec);
        }
        let ghost before = sts@;
        let st = random_step(rng, out, with_ids, dense, anchors, count, sources);
        sts.push(st);
        i = i + 1;
        assert(sts@.map_values(|st: StepPlan| st@) =~= before.map_values(|st: StepPlan| st@).push(
            st@,
        ));
        assert(out@ =~= start_out + steps_spec(s0, set, i as nat).1);
    }
    sts
}

/// The name `file{k}.rs` of the `k`th source, `k` from 0 to 2 (`file2.rs`
/// for any larger `k`).
fn file_name(k: u64) -> (r: &'static str)
    ensures
        r@ == file_name_spec(k as int),
{
    match k {
        0 => "file0.rs",
        1 => "file1.rs",
        _ => "file2.rs",
    }
}

/// The names of sources are short.
proof fn lemma_names_short(k: int)
    ensures
        file_name_spec(k).len() <= 8,
        wide_name_spec().len() <= 9,
{
    reveal_strlit("file0.rs");
    reveal_strlit("file1.rs");
    reveal_strlit("file2.rs");
    reveal_strlit("日本/src.rs");
}

/// The `k`th source of a report, written down as it is drawn.
fn random_source_plan(rng: &mut Rng, out: &mut String, dense: bool, k: u64) -> (p: SourcePlan)
    ensures
        ({
            let (s, o, v) = source_plan_spec(old(rng).0, dense, k as nat);
            final(rng).0 == s && final(out)@ == old(out)@ + o && p@ == v
        }),
        p.body@.len() <= 12 * 42,
{
    let ghost start_out = out@;
    let name: String = if k == 0 && rng.chance(20) {
        "日本/src.rs".to_owned()
    } else {
        file_name(k).to_owned()
    };
    let body = random_source(rng, dense);
    let offset = if rng.chance(20) {
        rng.below(2000)
    } else {
        0
    };
    proof {
        lemma_names_short(k as int);
        lemma_short_text(name@);
        lemma_short_text(body@);
        lemma2_to64();
    }
    text(out, name.as_str());
    text(out, body.as_str());
    digits(out, offset, 2);
    assert(out@ =~= start_out + source_plan_spec(old(rng).0, dense, k as nat).1);
    SourcePlan { name, body, offset }
}

/// The `count` sources of a report, written down as they are drawn.
fn random_sources(rng: &mut Rng, out: &mut String, dense: bool, count: u64) -> (ps: Vec<
    SourcePlan,
>)
    ensures
        ({
            let (s, o, v) = sources_spec(old(rng).0, dense, count as nat);
            final(rng).0 == s && final(out)@ == old(out)@ + o && ps@.map_values(
                |p: SourcePlan| p@,
            ) == v
        }),
        forall|i: int| 0 <= i < ps@.len() ==> (#[trigger] ps@[i]).body@.len() <= 12 * 42,
        ps@.len() == count,
{
    reveal(sources_spec);
    let ghost s0 = rng.0;
    let ghost start_out = out@;
    let mut ps: Vec<SourcePlan> = Vec::new();
    let mut k: u64 = 0;
    while k < count
        invariant
            k <= count,
            ps@.len() == k,
            ({
                let (s, o, v) = sources_spec(s0, dense, k as nat);
                rng.0 == s && out@ == start_out + o && ps@.map_values(|p: SourcePlan| p@) == v
            }),
            forall|i: int| 0 <= i < ps@.len() ==> (#[trigger] ps@[i]).body@.len() <= 12 * 42,
        decreases count - k,
    {
        proof {
            reveal(sources_spec);
        }
        let ghost before = ps@;
        let p = random_source_plan(rng, out, dense, k);
        ps.push(p);
        k = k + 1;
        assert(ps@.map_values(|p: SourcePlan| p@) =~= before.map_values(|p: SourcePlan| p@).push(
            ps@.last()@,
        ));
        assert(out@ =~= start_out + sources_spec(s0, dense, k as nat).1);
    }
    ps
}

/// The kind of a report, written down as it is drawn.
fn random_kind(rng: &mut Rng, out: &mut String) -> (k: KindPlan)
    ensures
        ({
            let (s, o, v) = kind_spec(old(rng).0);
            final(rng).0 == s && final(out)@ == old(out)@ + o && k == v
        }),
{
    reveal(kind_spec);
    let ghost start_out = out@;
    let tag = rng.below(4);
    proof {
        lemma_one_digit(tag as nat);
    }
    digits(out, tag, 1);
    match tag {
        0 => KindPlan::Error,
        1 => KindPlan::Warning,
        2 => KindPlan::Advice,
        _ => {
            let k = rng.below(NAMES);
            let name = kind_name(k);
            proof {
                lemma_pools_short();
                lemma_short_text(name@);
            }
            text(out, name);
            let c = random_color(rng, out);
            assert(out@ =~= start_out + kind_spec(old(rng).0).1);
            KindPlan::Custom(k, c)
        },
    }
}


/// The head of a report, drawn.
fn random_head(rng: &mut Rng) -> (r: (bool, bool, Vec<usize>, u64))
    ensures
        ({
            let (s, w, d, a, c) = head_spec(old(rng).0);
            final(rng).0 == s && r.0 == w && r.1 == d && r.2@ == a && r.3 == c
        }),
        1 <= r.3 <= 3,
        r.2@.len() == 3,
        forall|i: int| 0 <= i < 3 ==> #[trigger] r.2@[i] < 16,
{
    reveal(head_spec);
    let with_ids = rng.chance(75);
    let dense = rng.chance(40);
    let mut anchors: Vec<usize> = Vec::new();
    let a0 = rng.below(16) as usize;
    let a1 = rng.below(16) as usize;
    let a2 = rng.below(16) as usize;
    anchors.push(a0);
    anchors.push(a1);
    anchors.push(a2);
    assert(anchors@ =~= seq![a0, a1, a2]);
    let count = if with_ids {
        1 + rng.below(3)
    } else {
        1
    };
    (with_ids, dense, anchors, count)
}

/// The span of a report, written down as it is drawn.
fn random_span(
    rng: &mut Rng,
    out: &mut String,
    with_ids: bool,
    count: u64,
    sources: &Vec<SourcePlan>,
) -> (r: (u64, Range<usize>))
    requires
        1 <= count <= 3,
        forall|i: int| 0 <= i < sources@.len() ==> (#[trigger] sources@[i]).body@.len() <= 12 * 42,
    ensures
        ({
            let (s, o, v) = span_spec(
                old(rng).0,
                with_ids,
                count,
                bodies_of(sources@.map_values(|p: SourcePlan| p@)),
            );
            final(rng).0 == s && final(out)@ == old(out)@ + o && r.0 == v.0 && r.1.start == v.1
                && r.1.end == v.2
        }),
{
    reveal(span_spec);
    let ghost start_out = out@;
    let source = pick_source(rng, with_ids, count);
    let body = body_of(sources, source);
    proof {
        let bodies = bodies_of(sources@.map_values(|p: SourcePlan| p@));
        if 0 <= source < bodies.len() {
            assert(bodies[source as int] == sources@[source as int].body@);
        }
        lemma_short_text(body@);
        lemma2_to64();
    }
    let span = random_range(rng, body, None);
    digits(out, source, 1);
    digits(out, span.start as u64, 2);
    digits(out, span.end as u64, 2);
    assert(out@ =~= start_out + span_spec(
        old(rng).0,
        with_ids,
        count,
        bodies_of(sources@.map_values(|p: SourcePlan| p@)),
    ).1);
    (source, span)
}

/// One report, with ids (`String`) or without (`()`), written as the steps
/// that build it; the plan of those steps comes back, for a report builder
/// to be given.
pub fn random_report(rng: &mut Rng, out: &mut String) -> (plan: ReportPlan)
    ensures
        final(rng).0 == report_spec(old(rng).0).0,
        final(out)@ == old(out)@ + report_spec(old(rng).0).1,
        plan@ == report_spec(old(rng).0).2,
{
    let ghost start_out = out@;
    let (with_ids, dense, anchors, count) = random_head(rng);
    proof {
        lemma_one_digit(count as nat);
    }
    flag(out, with_ids);
    digits(out, count, 1);
    let sources = random_sources(rng, out, dense, count);
    let kind = random_kind(rng, out);
    let (span_source, span) = random_span(rng, out, with_ids, count, &sources);
    let n = if dense {
        4 + rng.below(10)
    } else {
        rng.below(12)
    };
    proof {
        lemma_one_digit(n as nat);
    }
    digits(out, n, 1);
    let ghost set = setting_of(with_ids, dense, anchors@, count, sources@);
    assert(setting_ok(set)) by {
        let bodies = set.bodies;
        assert forall|i: int| 0 <= i < bodies.len() implies #[trigger] bodies[i].len() <= 12 * 42 by {
            assert(bodies[i] == sources@[i].body@);
        }
    }
    let steps = random_steps(rng, out, with_ids, dense, &anchors, count, &sources, n);
    assert(out@ =~= start_out + report_spec(old(rng).0).1);
    ReportPlan { with_ids, sources, kind, span_source, span, steps }
}

// --- laws on the sources ------------------------------------------------------------

/// The first `k` sources drawn: `k` of them, each named by its place.
proof fn lemma_sources_named(s: u64, dense: bool, k: nat)
    ensures
        sources_spec(s, dense, k).2.len() == k,
        forall|i: int|
            0 <= i < k ==> (#[trigger] sources_spec(s, dense, k).2[i]).name == file_name_spec(i)
                || (i == 0 && sources_spec(s, dense, k).2[i].name == wide_name_spec()),
    decreases k,
{
    reveal(sources_spec);
    if k > 0 {
        lemma_sources_named(s, dense, (k - 1) as nat);
    }
}

/// The sources of a report have names that tell them apart: there are one
/// to three, the first is `file0.rs` or `日本/src.rs`, and the `i`th after it
/// is `file{i}.rs`, so no two sources share a name and a label or span
/// naming one source is never drawn against another.
pub proof fn lemma_source_names_distinct(s: u64)
    ensures
        ({
            let sources = report_spec(s).2.sources;
            &&& 1 <= sources.len() <= 3
            &&& sources[0].name == "file0.rs"@ || sources[0].name == "日本/src.rs"@
            &&& forall|i: int|
                1 <= i < sources.len() ==> (#[trigger] sources[i]).name == "file"@ + seq![
                    (48 + i) as char,
                ] + ".rs"@
            &&& forall|i: int, j: int|
                0 <= i < j < sources.len() ==> (#[trigger] sources[i]).name != (
                #[trigger] sources[j]).name
        }),
{
    reveal(head_spec);
    let (s1, with_ids, dense, anchors, count) = head_spec(s);
    lemma_sources_named(s1, dense, count as nat);
    let sources = report_spec(s).2.sources;
    assert(sources == sources_spec(s1, dense, count as nat).2);
    reveal_strlit("file0.rs");
    reveal_strlit("file1.rs");
    reveal_strlit("file2.rs");
    reveal_strlit("日本/src.rs");
    reveal_strlit("file");
    reveal_strlit(".rs");
    assert("file"@ + seq!['1'] + ".rs"@ =~= "file1.rs"@);
    assert("file"@ + seq!['2'] + ".rs"@ =~= "file2.rs"@);
    assert forall|i: int| 1 <= i < sources.len() implies (#[trigger] sources[i]).name == "file"@
        + seq![(48 + i) as char] + ".rs"@ by {
        assert(sources[i].name == file_name_spec(i));
        if i == 1 {
            assert(((48 + i) as char) == '1');
        } else {
            assert(((48 + i) as char) == '2');
        }
    }
    assert forall|i: int, j: int|
        0 <= i < j < sources.len() implies (#[trigger] sources[i]).name != (
        #[trigger] sources[j]).name by {
        let a = sources[i].name;
        let b = sources[j].name;
        if a.len() == 8 && b.len() == 8 {
            assert(a[4] != b[4]);
        } else {
            assert(a.len() != 8 ==> a[0] != b[0]);
            assert(a.len() != b.len() || a[0] != b[0]);
        }
    }
}

} // verus!
