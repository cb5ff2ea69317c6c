//! All the cases, in the order they are written: random reports until
//! enough have been drawn, then colour generators, then texts split into
//! lines. Drawing a report is left to the caller, who gives back what was
//! drawn, or nothing where the drawing failed; the cases go on from there.
use vstd::prelude::*;
use crate::colors::{
    color_case_spec, color_head_text, colors_text, random_color_case, write_color_case, ColorCase,
};
use crate::encode::{byte_len, lemma_long_literal_reads_back, read_string, text, text_spec};
use crate::file_text::{
    colors_opening, decimal_spec, file_text, file_text_spec, fits, fits_literal, heading_colors,
    heading_end, heading_reports, heading_start, lines_opening, WIDTH,
};
use crate::lines::{line_case, line_case_spec};
use crate::report::{random_report, report_spec, ReportPlan};
use crate::rng::Rng;
use vstd::arithmetic::power2::pow2;

verus! {

/// The state the generator starts from, so that the cases are the same on
/// every run.
pub const SEED: u64 = 0xa21a_d0e5_5eed_0042;

/// How many reports are kept.
pub const REPORTS: u64 = 1200;

/// How many colour generators are tried.
pub const COLOR_CASES: u64 = 200;

/// How many texts are split into lines.
pub const LINE_CASES: u64 = 300;

/// `k` colour cases drawn from `s`.
pub open spec fn color_cases_spec(s: u64, k: nat) -> (u64, Seq<ColorCase>)
    decreases k,
{
    if k == 0 {
        (s, seq![])
    } else {
        let (s1, v) = color_cases_spec(s, (k - 1) as nat);
        let (s2, c) = color_case_spec(s1);
        (s2, v.push(c))
    }
}

/// What is written for colour cases, each with the colours its generator
/// made.
pub open spec fn color_cases_text(cases: Seq<ColorCase>, colors: Seq<Seq<u8>>) -> Seq<char>
    decreases cases.len(),
{
    if cases.len() == 0 || colors.len() == 0 {
        seq![]
    } else {
        color_cases_text(cases.drop_last(), colors.drop_last()) + color_head_text(cases.last())
            + colors_text(colors.last())
    }
}

/// `k` line cases drawn from `s`: the state after them and what is written
/// for them.
pub open spec fn line_cases_spec(s: u64, k: nat) -> (u64, Seq<char>)
    decreases k,
{
    if k == 0 {
        (s, seq![])
    } else {
        let (s1, o1) = line_cases_spec(s, (k - 1) as nat);
        let (s2, o2) = line_case_spec(s1);
        (s2, o1 + o2)
    }
}

/// The colour generators to try, drawn.
pub fn color_cases(rng: &mut Rng) -> (cases: Vec<ColorCase>)
    ensures
        (final(rng).0, cases@) == color_cases_spec(old(rng).0, COLOR_CASES as nat),
        forall|i: int|
            0 <= i < cases@.len() ==> (#[trigger] cases@[i]).kind < 3 && cases@[i].m < 80000
                && 1 <= cases@[i].n <= 20,
{
    let ghost s0 = rng.0;
    let mut cases: Vec<ColorCase> = Vec::new();
    let mut i: u64 = 0;
    while i < COLOR_CASES
        invariant
            i <= COLOR_CASES,
            (rng.0, cases@) == color_cases_spec(s0, i as nat),
            forall|j: int|
                0 <= j < cases@.len() ==> (#[trigger] cases@[j]).kind < 3 && cases@[j].m < 80000
                    && 1 <= cases@[j].n <= 20,
        decreases COLOR_CASES - i,
    {
        let c = random_color_case(rng);
        cases.push(c);
        i = i + 1;
    }
    cases
}

/// The colour cases, each written with the colours its generator made: as
/// many as the case asks for.
pub fn write_color_cases(out: &mut String, cases: &Vec<ColorCase>, colors: &Vec<Vec<u8>>)
    requires
        forall|i: int|
            0 <= i < cases@.len() ==> (#[trigger] cases@[i]).kind < 64 && cases@[i].m < 262144
                && cases@[i].n < 64,
        cases@.len() == colors@.len(),
        forall|i: int| 0 <= i < cases@.len() ==> (#[trigger] colors@[i])@.len() == cases@[i].n,
    ensures
        final(out)@ == old(out)@ + color_cases_text(
            cases@,
            colors@.map_values(|c: Vec<u8>| c@),
        ),
{
    let ghost start_out = out@;
    let ghost all = colors@.map_values(|c: Vec<u8>| c@);
    let mut i: usize = 0;
    while i < cases.len()
        invariant
            i <= cases@.len(),
            cases@.len() == colors@.len(),
            forall|j: int| 0 <= j < cases@.len() ==> (#[trigger] colors@[j])@.len() == cases@[j].n,
            all == colors@.map_values(|c: Vec<u8>| c@),
            forall|j: int|
                0 <= j < cases@.len() ==> (#[trigger] cases@[j]).kind < 64 && cases@[j].m < 262144
                    && cases@[j].n < 64,
            out@ == start_out + color_cases_text(cases@.take(i as int), all.take(i as int)),
        decreases cases@.len() - i,
    {
        let c = &cases[i];
        write_color_case(out, c, &colors[i]);
        proof {
            assert(cases@.take(i + 1).drop_last() =~= cases@.take(i as int));
            assert(all.take(i + 1).drop_last() =~= all.take(i as int));
            assert(all.take(i + 1).last() == colors@[i as int]@);
        }
        i = i + 1;
        assert(out@ =~= start_out + color_cases_text(cases@.take(i as int), all.take(i as int)));
    }
    assert(cases@.take(i as int) =~= cases@);
    assert(all.take(i as int) =~= all);
}

/// The texts split into lines, written down as they are drawn; the number
/// of them comes back.
pub fn line_cases(rng: &mut Rng, out: &mut String) -> (count: usize)
    ensures
        final(rng).0 == line_cases_spec(old(rng).0, LINE_CASES as nat).0,
        final(out)@ == old(out)@ + line_cases_spec(old(rng).0, LINE_CASES as nat).1,
        count == LINE_CASES,
{
    let ghost s0 = rng.0;
    let ghost start_out = out@;
    let mut i: u64 = 0;
    while i < LINE_CASES
        invariant
            i <= LINE_CASES,
            rng.0 == line_cases_spec(s0, i as nat).0,
            out@ == start_out + line_cases_spec(s0, i as nat).1,
        decreases LINE_CASES - i,
    {
        line_case(rng, out);
        i = i + 1;
        assert(out@ =~= start_out + line_cases_spec(s0, i as nat).1);
    }
    LINE_CASES as usize
}


/// The drawings so far, replayed from the seed: each entry is what came back
/// for one report drawn, its drawing or nothing. The result is the state
/// after them, the reports kept (each as its steps and then its drawing),
/// and how many were kept and dropped.
pub open spec fn replay(drawings: Seq<Option<Seq<char>>>) -> (u64, Seq<char>, nat, nat)
    decreases drawings.len(),
{
    if drawings.len() == 0 {
        (SEED, seq![], 0, 0)
    } else {
        let (s, kept, made, dropped) = replay(drawings.drop_last());
        let (s1, steps, _plan) = report_spec(s);
        match drawings.last() {
            Some(d) => (s1, kept + steps + text_spec(d), made + 1, dropped),
            None => (s1, kept, made, dropped + 1),
        }
    }
}

/// What came back for the reports does not move the generator: after as
/// many reports drawn, whichever were kept or dropped, the state is the same,
/// and so are the colour generators and line cases drawn after them. Every
/// report drawn is either kept or dropped.
pub proof fn lemma_drawings_leave_state(
    first: Seq<Option<Seq<char>>>,
    second: Seq<Option<Seq<char>>>,
)
    requires
        first.len() == second.len(),
    ensures
        replay(first).0 == replay(second).0,
        replay(first).2 + replay(first).3 == first.len(),
    decreases first.len(),
{
    if first.len() > 0 {
        lemma_drawings_leave_state(first.drop_last(), second.drop_last());
    }
}

/// Whether every colour case is one that `color_cases` draws.
pub open spec fn drawn_cases(plan: Seq<ColorCase>) -> bool {
    forall|i: int|
        0 <= i < plan.len() ==> (#[trigger] plan[i]).kind < 3 && plan[i].m < 80000 && 1
            <= plan[i].n <= 20
}

/// The whole file that the drawings and the colours make, from the seed:
/// the reports, then the colour generators drawn after them with the
/// colours each made, then the line cases drawn after those. Nothing where
/// one of the three texts is too long to be written as a literal.
pub open spec fn cases_file_spec(
    drawings: Seq<Option<Seq<char>>>,
    colors: Seq<Seq<u8>>,
) -> Option<Seq<char>> {
    let (s, reports, _made, _dropped) = replay(drawings);
    let (s1, plan) = color_cases_spec(s, COLOR_CASES as nat);
    let colors_written = color_cases_text(plan, colors);
    let lines_written = line_cases_spec(s1, LINE_CASES as nat).1;
    if fits_literal(reports) && fits_literal(colors_written) && fits_literal(lines_written) {
        Some(
            file_text_spec(
                reports,
                colors_written,
                lines_written,
                REPORTS as nat,
                COLOR_CASES as nat,
                LINE_CASES as nat,
            ),
        )
    } else {
        None
    }
}

/// The heading of the file, with its three counts.
pub open spec fn heading(made: nat, color_count: nat, line_count: nat) -> Seq<char> {
    heading_start() + decimal_spec(made) + heading_reports() + decimal_spec(color_count)
        + heading_colors() + decimal_spec(line_count) + heading_end()
}

/// The finished file is the heading, counting `REPORTS` reports,
/// `COLOR_CASES` colour generators and `LINE_CASES` texts, then three
/// literals, each under its own definition: the one under `reports` reads
/// back to the reports kept, the one under `colors` to what is written for
/// the colour generators drawn after them with their colours, and the one
/// under `lines` to the line cases drawn after those.
pub proof fn lemma_file_sections_read_back(
    drawings: Seq<Option<Seq<char>>>,
    colors: Seq<Seq<u8>>,
)
    ensures
        ({
            let (s, kept, _made, _dropped) = replay(drawings);
            let (s1, plan) = color_cases_spec(s, COLOR_CASES as nat);
            let colors_written = color_cases_text(plan, colors);
            let lines_written = line_cases_spec(s1, LINE_CASES as nat).1;
            cases_file_spec(drawings, colors) matches Some(f) ==> exists|
                r: Seq<char>,
                c: Seq<char>,
                l: Seq<char>,
            |
                #![trigger read_string(r), read_string(c), read_string(l)]
                {
                    &&& f == heading(REPORTS as nat, COLOR_CASES as nat, LINE_CASES as nat) + r
                        + colors_opening() + c + lines_opening() + l + seq!['\n']
                    &&& read_string(r) == Some(kept)
                    &&& read_string(c) == Some(colors_written)
                    &&& read_string(l) == Some(lines_written)
                }
        }),
{
    let (s, kept, _made, _dropped) = replay(drawings);
    let (s1, plan) = color_cases_spec(s, COLOR_CASES as nat);
    let colors_written = color_cases_text(plan, colors);
    let lines_written = line_cases_spec(s1, LINE_CASES as nat).1;
    let w = WIDTH as nat;
    lemma_long_literal_reads_back(kept, w);
    lemma_long_literal_reads_back(colors_written, w);
    lemma_long_literal_reads_back(lines_written, w);
    if let Some(f) = cases_file_spec(drawings, colors) {
        let r = crate::encode::long_literal_spec(kept, w);
        let c = crate::encode::long_literal_spec(colors_written, w);
        let l = crate::encode::long_literal_spec(lines_written, w);
        assert(f == heading(REPORTS as nat, COLOR_CASES as nat, LINE_CASES as nat) + r
            + colors_opening() + c + lines_opening() + l + seq!['\n']);
    }
}

/// The cases so far, as values: the generator's state, the reports kept
/// (each written as its steps and then its drawing), how many were kept and
/// dropped, the steps of the report being drawn, what came back for each
/// report drawn, whether a report is out for drawing, whether the colour
/// generators have been drawn, and those generators.
pub struct CasesModel {
    pub state: u64,
    pub reports: Seq<char>,
    pub made: nat,
    pub dropped: nat,
    pub pending: Seq<char>,
    pub drawings: Seq<Option<Seq<char>>>,
    pub awaiting: bool,
    pub colors_drawn: bool,
    pub plan: Seq<ColorCase>,
}

/// The cases being written.
pub struct Cases {
    rng: Rng,
    reports: String,
    made: u64,
    dropped: u64,
    pending: String,
    drawings: Ghost<Seq<Option<Seq<char>>>>,
    awaiting: bool,
    colors_drawn: bool,
    plan: Vec<ColorCase>,
}

impl View for Cases {
    type V = CasesModel;

    closed spec fn view(&self) -> CasesModel {
        CasesModel {
            state: self.rng.0,
            reports: self.reports@,
            made: self.made as nat,
            dropped: self.dropped as nat,
            pending: self.pending@,
            drawings: self.drawings@,
            awaiting: self.awaiting,
            colors_drawn: self.colors_drawn,
            plan: self.plan@,
        }
    }
}

/// A copy of the colour cases.
fn copy_cases(cases: &Vec<ColorCase>) -> (r: Vec<ColorCase>)
    ensures
        r@ == cases@,
{
    let mut r: Vec<ColorCase> = Vec::new();
    let mut i: usize = 0;
    while i < cases.len()
        invariant
            i <= cases@.len(),
            r@ == cases@.take(i as int),
        decreases cases@.len() - i,
    {
        r.push(cases[i]);
        i = i + 1;
        assert(r@ =~= cases@.take(i as int));
    }
    assert(cases@.take(i as int) =~= cases@);
    r
}

impl Cases {
    /// Whether the cases hold together: the reports and counts are what
    /// replaying the drawings gives; the generator is where that replay
    /// leaves it, or past the report out for drawing, or past the colour
    /// generators once they are drawn; and no more than `REPORTS` are kept.
    pub open spec fn wf(&self) -> bool {
        let m = self@;
        let (s, kept, made, dropped) = replay(m.drawings);
        &&& m.reports == kept
        &&& m.made == made
        &&& m.dropped == dropped
        &&& m.made <= REPORTS
        &&& if m.colors_drawn {
            &&& !m.awaiting
            &&& m.made == REPORTS
            &&& m.state == color_cases_spec(s, COLOR_CASES as nat).0
            &&& m.plan == color_cases_spec(s, COLOR_CASES as nat).1
            &&& drawn_cases(m.plan)
        } else if m.awaiting {
            &&& m.state == report_spec(s).0
            &&& m.pending == report_spec(s).1
        } else {
            m.state == s
        }
    }

    /// No cases yet, and the generator at its seed.
    pub fn new() -> (c: Cases)
        ensures
            c@ == (CasesModel {
                state: SEED,
                reports: seq![],
                made: 0,
                dropped: 0,
                pending: seq![],
                drawings: seq![],
                awaiting: false,
                colors_drawn: false,
                plan: seq![],
            }),
            c.wf(),
    {
        Cases {
            rng: Rng(SEED),
            reports: String::new(),
            made: 0,
            dropped: 0,
            pending: String::new(),
            drawings: Ghost(Seq::empty()),
            awaiting: false,
            colors_drawn: false,
            plan: Vec::new(),
        }
    }

    /// How many reports have been kept.
    pub fn made(&self) -> (r: u64)
        ensures
            r == self@.made,
    {
        self.made
    }

    /// How many reports have been dropped.
    pub fn dropped(&self) -> (r: u64)
        ensures
            r == self@.dropped,
    {
        self.dropped
    }

    /// Whether reports are still wanted: fewer than `REPORTS` have been kept.
    /// Once none are, exactly `REPORTS` have been.
    pub fn wants_reports(&self) -> (r: bool)
        ensures
            r == (self@.made < REPORTS),
            self.wf() && !r ==> self@.made == REPORTS,
    {
        self.made < REPORTS
    }

    /// Draws the next report: its steps are held until the report's drawing
    /// comes back, and its plan is returned for drawing.
    pub fn next_report(&mut self) -> (plan: ReportPlan)
        requires
            old(self).wf(),
            !old(self)@.awaiting,
            !old(self)@.colors_drawn,
        ensures
            final(self)@ == (CasesModel {
                state: report_spec(old(self)@.state).0,
                pending: report_spec(old(self)@.state).1,
                awaiting: true,
                ..old(self)@
            }),
            plan@ == report_spec(old(self)@.state).2,
            final(self).wf(),
    {
        let mut steps = String::new();
        let plan = random_report(&mut self.rng, &mut steps);
        self.pending = steps;
        self.awaiting = true;
        plan
    }

    /// Takes the drawing of the report last drawn: a report that was drawn
    /// is kept, as its steps and then its drawing; one whose drawing failed
    /// is dropped, and leaves no trace.
    pub fn record(&mut self, drawn: Option<String>)
        requires
            old(self).wf(),
            old(self)@.awaiting,
            old(self)@.made < REPORTS,
            old(self)@.dropped < u64::MAX,
            drawn matches Some(d) ==> byte_len(d@) < pow2(18),
        ensures
            final(self)@.state == old(self)@.state,
            final(self)@.pending == Seq::<char>::empty(),
            !final(self)@.awaiting,
            final(self)@.colors_drawn == old(self)@.colors_drawn,
            final(self)@.plan == old(self)@.plan,
            match drawn {
                Some(d) => {
                    &&& final(self)@.reports == old(self)@.reports + old(self)@.pending
                        + text_spec(d@)
                    &&& final(self)@.made == old(self)@.made + 1
                    &&& final(self)@.dropped == old(self)@.dropped
                    &&& final(self)@.drawings == old(self)@.drawings.push(Some(d@))
                },
                None => {
                    &&& final(self)@.reports == old(self)@.reports
                    &&& final(self)@.made == old(self)@.made
                    &&& final(self)@.dropped == old(self)@.dropped + 1
                    &&& final(self)@.drawings == old(self)@.drawings.push(None)
                },
            },
            final(self).wf(),
    {
        let mut steps = String::new();
        std::mem::swap(&mut steps, &mut self.pending);
        self.awaiting = false;
        match drawn {
            Some(d) => {
                let ghost before = self.reports@;
                self.reports.append(steps.as_str());
                text(&mut self.reports, d.as_str());
                assert(self.reports@ =~= before + steps@ + text_spec(d@));
                self.made = self.made + 1;
                proof {
                    let ghost h = self.drawings@.push(Some(d@));
                    assert(h.drop_last() =~= self.drawings@);
                    self.drawings = Ghost(h);
                }
            },
            None => {
                self.dropped = self.dropped + 1;
                proof {
                    let ghost h = self.drawings@.push(None);
                    assert(h.drop_last() =~= self.drawings@);
                    self.drawings = Ghost(h);
                }
            },
        }
    }

    /// Draws the colour generators to try, once the reports are done, and
    /// keeps them for the file.
    pub fn color_cases(&mut self) -> (cases: Vec<ColorCase>)
        requires
            old(self).wf(),
            !old(self)@.awaiting,
            !old(self)@.colors_drawn,
            old(self)@.made >= REPORTS,
        ensures
            final(self)@ == (CasesModel {
                state: color_cases_spec(old(self)@.state, COLOR_CASES as nat).0,
                colors_drawn: true,
                plan: cases@,
                ..old(self)@
            }),
            cases@ == color_cases_spec(old(self)@.state, COLOR_CASES as nat).1,
            drawn_cases(cases@),
            final(self).wf(),
    {
        let cases = color_cases(&mut self.rng);
        self.plan = copy_cases(&cases);
        self.colors_drawn = true;
        cases
    }

    /// The reports kept.
    pub fn into_reports(self) -> (reports: String)
        ensures
            reports@ == self@.reports,
    {
        self.reports
    }

    /// The whole file, once the reports are kept and the colour generators
    /// drawn: the reports, the colour generators each with the colours it
    /// made (`colors`, one list for each, as many as it asks for), and the
    /// line cases drawn after them. The heading counts `REPORTS` reports,
    /// which is how many were kept. Nothing where a text is too long to be
    /// written as a literal.
    pub fn finish(self, colors: &Vec<Vec<u8>>) -> (file: Option<String>)
        requires
            self.wf(),
            self@.colors_drawn,
            colors@.len() == self@.plan.len(),
            forall|i: int|
                0 <= i < colors@.len() ==> (#[trigger] colors@[i])@.len() == self@.plan[i].n,
        ensures
            self@.made == REPORTS,
            match file {
                Some(f) => cases_file_spec(
                    self@.drawings,
                    colors@.map_values(|c: Vec<u8>| c@),
                ) == Some(f@),
                None => cases_file_spec(
                    self@.drawings,
                    colors@.map_values(|c: Vec<u8>| c@),
                ) is None,
            },
    {
        let mut colors_written = String::new();
        write_color_cases(&mut colors_written, &self.plan, colors);
        let mut rng = Rng(self.rng.0);
        let mut lines_written = String::new();
        line_cases(&mut rng, &mut lines_written);
        let reports = self.reports;
        if fits(reports.as_str()) && fits(colors_written.as_str()) && fits(
            lines_written.as_str(),
        ) {
            Some(
                file_text(
                    reports.as_str(),
                    colors_written.as_str(),
                    lines_written.as_str(),
                    REPORTS,
                    COLOR_CASES,
                    LINE_CASES,
                ),
            )
        } else {
            None
        }
    }
}

} // verus!
