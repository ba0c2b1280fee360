//! The report renderer: composes feature metadata, aggregate usage
//! percentages and the compressed per-browser ranges into an ordered
//! sequence of styled lines. It performs no output itself; a separate
//! collaborator maps style tags to device styling.

use vstd::prelude::*;
use vstd::string::*;

use crate::compress::compress;
use crate::compress::compress_ok;
use crate::compress::first_missing;
use crate::compress::spec_compress;
use crate::compress::CellModel;
use crate::compress::VersionGridCell;
use crate::data::assoc_find;
use crate::data::assoc_get;
use crate::data::Browser;
use crate::data::BrowserModel;
use crate::data::CanIUse;
use crate::data::Feature;
use crate::data::FeatureModel;
use crate::errors::Error;
use crate::errors::ErrorModel;

verus! {

/// The semantic emphasis a piece of rendered text carries. The two
/// non-plain tags are the closed set the report uses: full support and
/// partial support.
#[derive(Clone, Copy, PartialEq, Eq, Structural, Debug)]
pub enum Style {
    Plain,
    FullSupport,
    PartialSupport,
}

/// A stretch of text within one line, carrying one style.
pub struct Segment {
    pub text: String,
    pub style: Style,
}

/// The mathematical shape of a `Segment`.
pub ghost struct SegmentModel {
    pub text: Seq<char>,
    pub style: Style,
}

impl DeepView for Segment {
    type V = SegmentModel;

    open spec fn deep_view(&self) -> SegmentModel {
        SegmentModel { text: self.text@, style: self.style }
    }
}

/// One line of the report: its styled segments, in order. A line without
/// segments is a blank separator.
pub struct StyledLine {
    pub segments: Vec<Segment>,
}

impl DeepView for StyledLine {
    type V = Seq<SegmentModel>;

    open spec fn deep_view(&self) -> Seq<SegmentModel> {
        self.segments.deep_view()
    }
}

/// The character a single decimal digit renders as.
pub open spec fn spec_digit(d: nat) -> Seq<char> {
    if d == 0 {
        "0"@
    } else if d == 1 {
        "1"@
    } else if d == 2 {
        "2"@
    } else if d == 3 {
        "3"@
    } else if d == 4 {
        "4"@
    } else if d == 5 {
        "5"@
    } else if d == 6 {
        "6"@
    } else if d == 7 {
        "7"@
    } else if d == 8 {
        "8"@
    } else {
        "9"@
    }
}

/// The usual decimal rendering of a natural number, most significant
/// digit first, no leading zeros.
pub open spec fn spec_decimal(n: nat) -> Seq<char>
    decreases n,
{
    if n < 10 {
        spec_digit(n)
    } else {
        spec_decimal(n / 10) + spec_digit(n % 10)
    }
}

/// The rendering of a percentage held in hundredths of a percent: the
/// integer part, then a fractional part with trailing zeros trimmed and
/// omitted entirely when zero (`9743` renders as `97.43`, `9740` as
/// `97.4`, `9700` as `97`).
pub open spec fn spec_percent(n: nat) -> Seq<char> {
    let whole = n / 100;
    let frac = n % 100;
    if frac == 0 {
        spec_decimal(whole)
    } else if frac % 10 == 0 {
        spec_decimal(whole) + "."@ + spec_digit(frac / 10)
    } else {
        spec_decimal(whole) + "."@ + spec_digit(frac / 10) + spec_digit(frac % 10)
    }
}

/// The one-character string a decimal digit renders as.
fn digit_str(d: u64) -> (r: &'static str)
    requires
        d < 10,
    ensures
        r@ == spec_digit(d as nat),
{
    match d {
        0 => "0",
        1 => "1",
        2 => "2",
        3 => "3",
        4 => "4",
        5 => "5",
        6 => "6",
        7 => "7",
        8 => "8",
        _ => "9",
    }
}

/// The decimal rendering of `n`.
pub fn decimal_string(n: u64) -> (r: String)
    ensures
        r@ == spec_decimal(n as nat),
    decreases n,
{
    if n < 10 {
        String::from_str(digit_str(n))
    } else {
        let mut s = decimal_string(n / 10);
        s.append(digit_str(n % 10));
        s
    }
}

/// A line of a single plain segment.
pub open spec fn plain_line(text: Seq<char>) -> Seq<SegmentModel> {
    seq![SegmentModel { text: text, style: Style::Plain }]
}

/// How one compressed cell renders: the start version, an arrow to the
/// stop version when the cell spans more than one, then the support level.
pub open spec fn spec_cell_text(c: CellModel) -> Seq<char> {
    match c.stop {
        Some(stop) => c.start + " → "@ + stop + " = "@ + c.support,
        None => c.start + " = "@ + c.support,
    }
}

/// The global-support line: the full and partial percentages under their
/// style tags, closed by their exact arithmetic sum.
pub open spec fn spec_percent_line(y: u32, a: u32) -> Seq<SegmentModel> {
    seq![
        SegmentModel { text: "Global Support: "@, style: Style::Plain },
        SegmentModel { text: spec_percent(y as nat) + "%"@, style: Style::FullSupport },
        SegmentModel { text: " + "@, style: Style::Plain },
        SegmentModel { text: spec_percent(a as nat) + "%"@, style: Style::PartialSupport },
        SegmentModel { text: " = "@ + spec_percent((y + a) as nat) + "%"@, style: Style::Plain },
    ]
}

/// The header of a feature's report: title, spec URL, the global-support
/// line, the two legend lines, the description, and a blank separator.
pub open spec fn spec_header_lines(f: FeatureModel) -> Seq<Seq<SegmentModel>> {
    seq![
        plain_line("Feature: "@ + f.title),
        plain_line("Spec: "@ + f.spec_url),
        spec_percent_line(f.usage_perc_y, f.usage_perc_a),
        seq![
            SegmentModel { text: " - "@, style: Style::Plain },
            SegmentModel { text: "Full"@, style: Style::FullSupport },
            SegmentModel { text: " support"@, style: Style::Plain },
        ],
        seq![
            SegmentModel { text: " - "@, style: Style::Plain },
            SegmentModel { text: "Partial"@, style: Style::PartialSupport },
            SegmentModel { text: " support"@, style: Style::Plain },
        ],
        plain_line(f.description),
        Seq::<SegmentModel>::empty(),
    ]
}

/// The line one compressed cell renders as.
pub open spec fn cell_line_model(c: CellModel) -> Seq<SegmentModel> {
    plain_line(spec_cell_text(c))
}

/// One line per compressed cell, in order.
pub open spec fn cell_lines(cells: Seq<CellModel>) -> Seq<Seq<SegmentModel>> {
    cells.map_values(|c: CellModel| cell_line_model(c))
}

/// One browser's block: its display name, one line per compressed cell,
/// and a blank separator.
pub open spec fn spec_browser_block(b: BrowserModel, cells: Seq<CellModel>) -> Seq<
    Seq<SegmentModel>,
> {
    seq![plain_line(b.browser)] + cell_lines(cells) + seq![Seq::<SegmentModel>::empty()]
}

/// The blocks of every browser the feature has stats for, in the stats'
/// own order; the first failure aborts the whole rendering. A stats key
/// absent from `agents` is a `BrowserNotFound`; a present version without
/// a stats entry surfaces as the compressor's `LookupError`.
pub open spec fn spec_browser_blocks(
    agents: Seq<(Seq<char>, BrowserModel)>,
    stats: Seq<(Seq<char>, Seq<(Seq<char>, Seq<char>)>)>,
) -> Result<Seq<Seq<SegmentModel>>, ErrorModel>
    decreases stats.len(),
{
    if stats.len() == 0 {
        Ok(Seq::empty())
    } else {
        let key = stats[0].0;
        let bstats = stats[0].1;
        match assoc_find(agents, key) {
            Option::None => Err(ErrorModel::BrowserNotFound(key)),
            Option::Some(b) => match first_missing(b.versions, bstats) {
                Option::Some(v) => Err(ErrorModel::LookupError { version: v, browser: key }),
                Option::None => match spec_browser_blocks(agents, stats.drop_first()) {
                    Err(e) => Err(e),
                    Ok(rest) => Ok(
                        spec_browser_block(b, spec_compress(b.versions, bstats)) + rest,
                    ),
                },
            },
        }
    }
}

/// A feature's full report: the header, then every browser block.
pub open spec fn spec_print_feature(
    agents: Seq<(Seq<char>, BrowserModel)>,
    f: FeatureModel,
) -> Result<Seq<Seq<SegmentModel>>, ErrorModel> {
    match spec_browser_blocks(agents, f.stats) {
        Ok(blocks) => Ok(spec_header_lines(f) + blocks),
        Err(e) => Err(e),
    }
}

/// Looking a feature up by key and rendering its report: an absent key is
/// a `FeatureNotFound`.
pub open spec fn spec_use_feature(
    data: Seq<(Seq<char>, FeatureModel)>,
    agents: Seq<(Seq<char>, BrowserModel)>,
    key: Seq<char>,
) -> Result<Seq<Seq<SegmentModel>>, ErrorModel> {
    match assoc_find(data, key) {
        Option::None => Err(ErrorModel::FeatureNotFound(key)),
        Option::Some(f) => spec_print_feature(agents, f),
    }
}

/// The rendering of a percentage held in hundredths of a percent.
pub fn percent_string(n: u64) -> (r: String)
    ensures
        r@ == spec_percent(n as nat),
{
    let whole = n / 100;
    let frac = n % 100;
    if frac == 0 {
        decimal_string(whole)
    } else if frac % 10 == 0 {
        let mut s = decimal_string(whole);
        s.append(".");
        s.append(digit_str(frac / 10));
        s
    } else {
        let mut s = decimal_string(whole);
        s.append(".");
        s.append(digit_str(frac / 10));
        s.append(digit_str(frac % 10));
        s
    }
}

/// A line of one plain segment holding `text`.
fn plain_styled(text: String) -> (r: StyledLine)
    ensures
        r.deep_view() == plain_line(text@),
{
    let ghost t = text@;
    let mut segments: Vec<Segment> = Vec::new();
    segments.push(Segment { text, style: Style::Plain });
    let r = StyledLine { segments };
    proof {
        assert(r.deep_view() =~= plain_line(t));
    }
    r
}

/// The line one compressed cell renders as.
pub fn cell_line(cell: &VersionGridCell) -> (r: StyledLine)
    ensures
        r.deep_view() == cell_line_model(cell.deep_view()),
{
    let mut text = cell.start.clone();
    match &cell.stop {
        Some(stop) => {
            text.append(" → ");
            text.append(stop.as_str());
            text.append(" = ");
            text.append(cell.support.as_str());
            proof {
                assert(cell.deep_view().stop == Some(stop@));
            }
        },
        None => {
            text.append(" = ");
            text.append(cell.support.as_str());
            proof {
                assert(cell.deep_view().stop is None);
            }
        },
    }
    plain_styled(text)
}

/// The header of a feature's report.
fn header_lines(feature: &Feature) -> (r: Vec<StyledLine>)
    ensures
        r.deep_view() == spec_header_lines(feature.deep_view()),
{
    let ghost fm = feature.deep_view();
    let mut lines: Vec<StyledLine> = Vec::new();

    let mut title = String::from_str("Feature: ");
    title.append(feature.title.as_str());
    lines.push(plain_styled(title));

    let mut spec_url = String::from_str("Spec: ");
    spec_url.append(feature.spec_url.as_str());
    lines.push(plain_styled(spec_url));

    let mut full_pct = percent_string(feature.usage_perc_y as u64);
    full_pct.append("%");
    let mut partial_pct = percent_string(feature.usage_perc_a as u64);
    partial_pct.append("%");
    let total: u64 = feature.usage_perc_y as u64 + feature.usage_perc_a as u64;
    let total_pct = percent_string(total);
    let mut total_text = String::from_str(" = ");
    total_text.append(total_pct.as_str());
    total_text.append("%");
    let mut pct_segments: Vec<Segment> = Vec::new();
    pct_segments.push(Segment { text: String::from_str("Global Support: "), style: Style::Plain });
    pct_segments.push(Segment { text: full_pct, style: Style::FullSupport });
    pct_segments.push(Segment { text: String::from_str(" + "), style: Style::Plain });
    pct_segments.push(Segment { text: partial_pct, style: Style::PartialSupport });
    pct_segments.push(Segment { text: total_text, style: Style::Plain });
    let pct_line = StyledLine { segments: pct_segments };
    proof {
        assert(pct_line.deep_view() =~= spec_percent_line(fm.usage_perc_y, fm.usage_perc_a));
    }
    lines.push(pct_line);

    let mut full_segments: Vec<Segment> = Vec::new();
    full_segments.push(Segment { text: String::from_str(" - "), style: Style::Plain });
    full_segments.push(Segment { text: String::from_str("Full"), style: Style::FullSupport });
    full_segments.push(Segment { text: String::from_str(" support"), style: Style::Plain });
    let full_legend = StyledLine { segments: full_segments };
    proof {
        assert(full_legend.deep_view() =~= spec_header_lines(fm)[3]);
    }
    lines.push(full_legend);

    let mut partial_segments: Vec<Segment> = Vec::new();
    partial_segments.push(Segment { text: String::from_str(" - "), style: Style::Plain });
    partial_segments.push(
        Segment { text: String::from_str("Partial"), style: Style::PartialSupport },
    );
    partial_segments.push(Segment { text: String::from_str(" support"), style: Style::Plain });
    let partial_legend = StyledLine { segments: partial_segments };
    proof {
        assert(partial_legend.deep_view() =~= spec_header_lines(fm)[4]);
    }
    lines.push(partial_legend);

    lines.push(plain_styled(feature.description.clone()));

    let blank = StyledLine { segments: Vec::new() };
    proof {
        assert(blank.deep_view() =~= Seq::<SegmentModel>::empty());
    }
    lines.push(blank);

    proof {
        assert(lines.deep_view() =~= spec_header_lines(fm));
    }
    lines
}

/// One browser's block of report lines.
fn browser_block(browser: &Browser, cells: &Vec<VersionGridCell>) -> (r: Vec<StyledLine>)
    ensures
        r.deep_view() == spec_browser_block(browser.deep_view(), cells.deep_view()),
{
    let ghost bm = browser.deep_view();
    let ghost cm = cells.deep_view();
    let mut lines: Vec<StyledLine> = Vec::new();
    lines.push(plain_styled(browser.browser.clone()));
    proof {
        assert(cell_lines(cm.take(0)) =~= Seq::<Seq<SegmentModel>>::empty());
        assert(lines.deep_view() =~= seq![plain_line(bm.browser)] + cell_lines(cm.take(0)));
    }
    let mut i: usize = 0;
    while i < cells.len()
        invariant
            0 <= i <= cells.len(),
            cm == cells.deep_view(),
            bm == browser.deep_view(),
            lines.deep_view() == seq![plain_line(bm.browser)] + cell_lines(cm.take(i as int)),
        decreases cells.len() - i,
    {
        let ghost prev = lines.deep_view();
        lines.push(cell_line(&cells[i]));
        proof {
            assert(cm.take(i + 1) =~= cm.take(i as int).push(cm[i as int]));
            assert(cell_lines(cm.take(i + 1)) =~= cell_lines(cm.take(i as int)).push(
                cell_line_model(cm[i as int]),
            ));
            assert(lines.deep_view() =~= prev.push(cell_line_model(cm[i as int])));
            assert(lines.deep_view() =~= seq![plain_line(bm.browser)] + cell_lines(
                cm.take(i + 1),
            ));
        }
        i += 1;
    }
    let blank = StyledLine { segments: Vec::new() };
    proof {
        assert(blank.deep_view() =~= Seq::<SegmentModel>::empty());
    }
    lines.push(blank);
    proof {
        assert(cm.take(cm.len() as int) =~= cm);
        assert(lines.deep_view() =~= spec_browser_block(bm, cm));
    }
    lines
}

/// Renders one feature's full report against the corpus's browsers:
/// the header lines, then, for each browser key in the feature's stats in
/// their stored order, that browser's block of compressed support ranges.
/// The result is exactly what `spec_print_feature` says: the first stats
/// key absent from the corpus's browsers aborts with `BrowserNotFound`,
/// and the first present version without a stats entry aborts with
/// `LookupError`; nothing is skipped and nothing substituted.
pub fn print_feature(caniuse: &CanIUse, feature: &Feature) -> (r: Result<Vec<StyledLine>, Error>)
    ensures
        r matches Ok(lines) ==> spec_print_feature(caniuse.agents.deep_view(), feature.deep_view())
            == Ok::<Seq<Seq<SegmentModel>>, ErrorModel>(lines.deep_view()),
        r matches Err(e) ==> spec_print_feature(caniuse.agents.deep_view(), feature.deep_view())
            == Err::<Seq<Seq<SegmentModel>>, ErrorModel>(e@),
{
    let ghost am = caniuse.agents.deep_view();
    let ghost fm = feature.deep_view();
    let mut lines = header_lines(feature);
    proof {
        assert(fm.stats.skip(0) =~= fm.stats);
    }
    let mut bi: usize = 0;
    while bi < feature.stats.len()
        invariant
            0 <= bi <= feature.stats.len(),
            am == caniuse.agents.deep_view(),
            fm == feature.deep_view(),
            spec_print_feature(am, fm) == (match spec_browser_blocks(
                am,
                fm.stats.skip(bi as int),
            ) {
                Ok(rest) => Ok::<Seq<Seq<SegmentModel>>, ErrorModel>(lines.deep_view() + rest),
                Err(e) => Err::<Seq<Seq<SegmentModel>>, ErrorModel>(e),
            }),
        decreases feature.stats.len() - bi,
    {
        let ghost remaining = fm.stats.skip(bi as int);
        proof {
            assert(remaining[0] == fm.stats[bi as int]);
            assert(remaining.drop_first() =~= fm.stats.skip(bi + 1));
        }
        let entry = &feature.stats[bi];
        proof {
            assert(fm.stats[bi as int] == (entry.0@, entry.1.deep_view()));
        }
        match assoc_get(&caniuse.agents, &entry.0) {
            None => {
                return Err(Error::BrowserNotFound(entry.0.clone()));
            },
            Some(browser) => {
                match compress(&browser.versions, &entry.1, &entry.0) {
                    Err(e) => {
                        return Err(e);
                    },
                    Ok(cells) => {
                        let ghost prev = lines.deep_view();
                        let mut block = browser_block(browser, &cells);
                        let ghost block_model = block.deep_view();
                        lines.append(&mut block);
                        proof {
                            assert(lines.deep_view() =~= prev + block_model);
                            if let Ok(rest) = spec_browser_blocks(am, fm.stats.skip(bi + 1)) {
                                assert((prev + block_model) + rest =~= prev + (block_model + rest));
                            }
                        }
                    },
                }
            },
        }
        bi += 1;
    }
    proof {
        assert(fm.stats.skip(fm.stats.len() as int) =~= Seq::<
            (Seq<char>, Seq<(Seq<char>, Seq<char>)>),
        >::empty());
        assert(lines.deep_view() + Seq::<Seq<SegmentModel>>::empty() =~= lines.deep_view());
    }
    Ok(lines)
}

/// Looks `feature` up in the corpus and renders its report; an absent key
/// yields `FeatureNotFound`, carrying the key, if and only if no feature
/// has it.
pub fn use_feature(caniuse: &CanIUse, feature: &String) -> (r: Result<Vec<StyledLine>, Error>)
    ensures
        r matches Ok(lines) ==> spec_use_feature(
            caniuse.data.deep_view(),
            caniuse.agents.deep_view(),
            feature@,
        ) == Ok::<Seq<Seq<SegmentModel>>, ErrorModel>(lines.deep_view()),
        r matches Err(e) ==> spec_use_feature(
            caniuse.data.deep_view(),
            caniuse.agents.deep_view(),
            feature@,
        ) == Err::<Seq<Seq<SegmentModel>>, ErrorModel>(e@),
{
    match assoc_get(&caniuse.data, feature) {
        Some(found) => print_feature(caniuse, found),
        None => Err(Error::FeatureNotFound(feature.clone())),
    }
}

/// Browser blocks fail only over browsers and their stats: never with a
/// `FeatureNotFound`.
proof fn lemma_blocks_error_kind(
    agents: Seq<(Seq<char>, BrowserModel)>,
    stats: Seq<(Seq<char>, Seq<(Seq<char>, Seq<char>)>)>,
)
    ensures
        spec_browser_blocks(agents, stats) matches Err(e) ==> (e is BrowserNotFound
            || e is LookupError),
    decreases stats.len(),
{
    if stats.len() > 0 {
        lemma_blocks_error_kind(agents, stats.drop_first());
    }
}

/// Error propagation, the feature side: requesting a feature key absent
/// from the corpus yields exactly `FeatureNotFound` carrying that key, and
/// a present key never yields it.
pub proof fn lemma_missing_feature(
    data: Seq<(Seq<char>, FeatureModel)>,
    agents: Seq<(Seq<char>, BrowserModel)>,
    key: Seq<char>,
)
    ensures
        assoc_find(data, key) is None <==> spec_use_feature(data, agents, key) == Err::<
            Seq<Seq<SegmentModel>>,
            ErrorModel,
        >(ErrorModel::FeatureNotFound(key)),
{
    match assoc_find(data, key) {
        Option::None => {},
        Option::Some(f) => {
            lemma_blocks_error_kind(agents, f.stats);
        },
    }
}

/// Error propagation, the browser side: when a feature's stats name a
/// browser absent from the corpus's browsers, and every earlier stats
/// entry's browser is registered with all its present versions covered,
/// rendering fails with exactly `BrowserNotFound` carrying that key.
pub proof fn lemma_unregistered_browser_fails(
    agents: Seq<(Seq<char>, BrowserModel)>,
    stats: Seq<(Seq<char>, Seq<(Seq<char>, Seq<char>)>)>,
    i: int,
)
    requires
        0 <= i < stats.len(),
        assoc_find(agents, stats[i].0) is None,
        forall|j: int|
            0 <= j < i ==> (assoc_find(agents, (#[trigger] stats[j]).0) matches Some(b)
                && compress_ok(b.versions, stats[j].1)),
    ensures
        spec_browser_blocks(agents, stats) == Err::<Seq<Seq<SegmentModel>>, ErrorModel>(
            ErrorModel::BrowserNotFound(stats[i].0),
        ),
    decreases i,
{
    if i > 0 {
        let rest = stats.drop_first();
        assert forall|j: int|
            0 <= j < i - 1 implies (assoc_find(agents, (#[trigger] rest[j]).0) matches Some(b)
            && compress_ok(b.versions, rest[j].1)) by {
            assert(rest[j] == stats[j + 1]);
        }
        assert(rest[i - 1] == stats[i]);
        lemma_unregistered_browser_fails(agents, rest, i - 1);
    }
}

/// The rendered total percentage is the exact arithmetic sum of the full
/// and partial percentages: the closing segment of the global-support line
/// reads ` = `, then the rendering of `usage_perc_y + usage_perc_a`, then
/// `%` — never a recomputed or rounded value.
pub proof fn lemma_total_is_sum(f: FeatureModel)
    ensures
        spec_header_lines(f)[2] == spec_percent_line(f.usage_perc_y, f.usage_perc_a),
        spec_percent_line(f.usage_perc_y, f.usage_perc_a)[4].text == " = "@ + spec_percent(
            (f.usage_perc_y + f.usage_perc_a) as nat,
        ) + "%"@,
{
}

} // verus!
