//! The colour signature of each domino value: the channel ranges its pips show,
//! the expected ratio of white to other pixels, and the leeway granted around the ranges.

use vstd::prelude::*;
use core::ops::Range;

verus! {

/// The red, green and blue ranges of a pip colour.
pub struct ColorRange {
    pub r: Range<u8>,
    pub g: Range<u8>,
    pub b: Range<u8>,
}

/// What identifies one domino value in a photographed half.
pub struct DominoRange {
    /// The expected ratio of white to other pixels, in thousandths.
    pub ratio: Range<u32>,
    /// How far the colour ranges are widened before pixels are matched against them.
    pub leeway: u8,
    pub color_range: ColorRange,
    pub value: u8,
}

impl Default for ColorRange {
    /// Each channel range is `0..255`.
    fn default() -> (range: Self)
        ensures
            range.r.start == 0 && range.r.end == 255,
            range.g.start == 0 && range.g.end == 255,
            range.b.start == 0 && range.b.end == 255,
    {
        ColorRange { r: 0..255, g: 0..255, b: 0..255 }
    }
}

impl Default for DominoRange {
    /// An empty ratio range, a leeway of 10, full colour ranges and the value 0.
    fn default() -> (range: Self)
        ensures
            range.ratio.start == 0 && range.ratio.end == 0,
            range.leeway == 10,
            range.color_range.r.start == 0 && range.color_range.r.end == 255,
            range.color_range.g.start == 0 && range.color_range.g.end == 255,
            range.color_range.b.start == 0 && range.color_range.b.end == 255,
            range.value == 0,
    {
        DominoRange { ratio: 0..0, leeway: 10, color_range: ColorRange::default(), value: 0 }
    }
}

/// The leeway that every entry of the tables grants.
pub const DEFAULT_LEEWAY: u8 = 10;

/// The six channel bounds of a domino range: red start and end, green start and
/// end, blue start and end.
pub open spec fn channel_bounds(d: DominoRange) -> (u8, u8, u8, u8, u8, u8) {
    (
        d.color_range.r.start,
        d.color_range.r.end,
        d.color_range.g.start,
        d.color_range.g.end,
        d.color_range.b.start,
        d.color_range.b.end,
    )
}

/// The ratio bounds, in thousandths, that both tables give value `value`.
pub open spec fn table_ratio(value: int) -> (u32, u32) {
    if value == 0 {
        (1000, 99000)
    } else if value == 10 {
        (1375, 1375)
    } else {
        (6910, 6910)
    }
}

/// The channel bounds of values 0 to 12 in the table the library uses.
pub open spec fn library_table() -> Seq<(u8, u8, u8, u8, u8, u8)> {
    seq![
        (240, 240, 228, 228, 200, 200),
        (40, 100, 100, 150, 100, 190),
        (65, 85, 130, 150, 25, 45),
        (190, 255, 30, 80, 30, 70),
        (135, 155, 65, 85, 30, 50),
        (15, 35, 65, 85, 120, 160),
        (200, 255, 110, 160, 0, 50),
        (180, 210, 35, 70, 80, 130),
        (15, 60, 110, 190, 110, 160),
        (55, 100, 20, 70, 40, 110),
        (215, 255, 60, 100, 0, 40),
        (120, 150, 35, 65, 50, 85),
        (130, 170, 130, 170, 120, 140),
    ]
}

/// The channel bounds of values 0 to 12 in the table the command-line tool uses.
pub open spec fn command_line_table() -> Seq<(u8, u8, u8, u8, u8, u8)> {
    seq![
        (240, 240, 228, 228, 200, 200),
        (60, 80, 100, 130, 110, 150),
        (65, 85, 130, 150, 25, 45),
        (190, 220, 35, 55, 30, 50),
        (135, 155, 65, 85, 30, 50),
        (15, 35, 65, 85, 120, 160),
        (200, 255, 110, 160, 0, 50),
        (160, 190, 35, 70, 75, 100),
        (30, 60, 110, 150, 90, 120),
        (75, 95, 25, 55, 55, 100),
        (200, 255, 80, 120, 50, 70),
        (110, 130, 35, 65, 50, 85),
        (130, 170, 130, 170, 120, 140),
    ]
}

/// The table `dominoes` lists values 0 to 12 in order, with the given channel
/// bounds, the shared ratios and the default leeway.
pub open spec fn is_table(dominoes: Seq<DominoRange>, bounds: Seq<(u8, u8, u8, u8, u8, u8)>) -> bool {
    &&& dominoes.len() == 13
    &&& bounds.len() == 13
    &&& forall|i: int|
        0 <= i < 13 ==> {
            &&& (#[trigger] dominoes[i]).value == i
            &&& dominoes[i].leeway == DEFAULT_LEEWAY
            &&& channel_bounds(dominoes[i]) == bounds[i]
            &&& (dominoes[i].ratio.start, dominoes[i].ratio.end) == table_ratio(i)
        }
}

/// The entries of the table with the given channel bounds.
pub open spec fn table_entries(bounds: Seq<(u8, u8, u8, u8, u8, u8)>) -> Seq<DominoRange> {
    Seq::new(
        13,
        |i: int|
            DominoRange {
                ratio: Range { start: table_ratio(i).0, end: table_ratio(i).1 },
                leeway: DEFAULT_LEEWAY,
                color_range: ColorRange {
                    r: Range { start: bounds[i].0, end: bounds[i].1 },
                    g: Range { start: bounds[i].2, end: bounds[i].3 },
                    b: Range { start: bounds[i].4, end: bounds[i].5 },
                },
                value: i as u8,
            },
    )
}

/// The table the library uses.
pub open spec fn library_dominoes() -> Seq<DominoRange> {
    table_entries(library_table())
}

/// The table the command-line tool uses.
pub open spec fn command_line_dominoes() -> Seq<DominoRange> {
    table_entries(command_line_table())
}

/// A table is determined by its channel bounds.
pub proof fn lemma_table_is_entries(dominoes: Seq<DominoRange>, bounds: Seq<(u8, u8, u8, u8, u8, u8)>)
    requires
        is_table(dominoes, bounds),
    ensures
        dominoes == table_entries(bounds),
{
    let entries = table_entries(bounds);
    assert forall|i: int| 0 <= i < 13 implies #[trigger] dominoes[i] == entries[i] by {
        let d = dominoes[i];
        assert(d.value == i);
        assert(channel_bounds(d) == bounds[i]);
        assert(d.color_range.r == entries[i].color_range.r);
        assert(d.color_range.g == entries[i].color_range.g);
        assert(d.color_range.b == entries[i].color_range.b);
        assert(d.color_range == entries[i].color_range);
        assert(d.ratio == entries[i].ratio);
    }
    assert(dominoes =~= entries);
}

/// The colours the library matches pips against, value by value: red start and
/// end, green start and end, blue start and end, each widened by a leeway of 10.
pub proof fn lemma_library_colours()
    ensures
        library_dominoes().len() == 13,
        forall|v: int| 0 <= v < 13 ==> (#[trigger] library_dominoes()[v]).value == v && library_dominoes()[v].leeway == 10,
        channel_bounds(library_dominoes()[0]) == (240u8, 240u8, 228u8, 228u8, 200u8, 200u8),
        channel_bounds(library_dominoes()[1]) == (40u8, 100u8, 100u8, 150u8, 100u8, 190u8),
        channel_bounds(library_dominoes()[2]) == (65u8, 85u8, 130u8, 150u8, 25u8, 45u8),
        channel_bounds(library_dominoes()[3]) == (190u8, 255u8, 30u8, 80u8, 30u8, 70u8),
        channel_bounds(library_dominoes()[4]) == (135u8, 155u8, 65u8, 85u8, 30u8, 50u8),
        channel_bounds(library_dominoes()[5]) == (15u8, 35u8, 65u8, 85u8, 120u8, 160u8),
        channel_bounds(library_dominoes()[6]) == (200u8, 255u8, 110u8, 160u8, 0u8, 50u8),
        channel_bounds(library_dominoes()[7]) == (180u8, 210u8, 35u8, 70u8, 80u8, 130u8),
        channel_bounds(library_dominoes()[8]) == (15u8, 60u8, 110u8, 190u8, 110u8, 160u8),
        channel_bounds(library_dominoes()[9]) == (55u8, 100u8, 20u8, 70u8, 40u8, 110u8),
        channel_bounds(library_dominoes()[10]) == (215u8, 255u8, 60u8, 100u8, 0u8, 40u8),
        channel_bounds(library_dominoes()[11]) == (120u8, 150u8, 35u8, 65u8, 50u8, 85u8),
        channel_bounds(library_dominoes()[12]) == (130u8, 170u8, 130u8, 170u8, 120u8, 140u8),
{
}

/// The colours the command-line tool matches pips against, value by value: red
/// start and end, green start and end, blue start and end, each widened by a leeway of 10.
pub proof fn lemma_command_line_colours()
    ensures
        command_line_dominoes().len() == 13,
        forall|v: int| 0 <= v < 13 ==> (#[trigger] command_line_dominoes()[v]).value == v && command_line_dominoes()[v].leeway == 10,
        channel_bounds(command_line_dominoes()[0]) == (240u8, 240u8, 228u8, 228u8, 200u8, 200u8),
        channel_bounds(command_line_dominoes()[1]) == (60u8, 80u8, 100u8, 130u8, 110u8, 150u8),
        channel_bounds(command_line_dominoes()[2]) == (65u8, 85u8, 130u8, 150u8, 25u8, 45u8),
        channel_bounds(command_line_dominoes()[3]) == (190u8, 220u8, 35u8, 55u8, 30u8, 50u8),
        channel_bounds(command_line_dominoes()[4]) == (135u8, 155u8, 65u8, 85u8, 30u8, 50u8),
        channel_bounds(command_line_dominoes()[5]) == (15u8, 35u8, 65u8, 85u8, 120u8, 160u8),
        channel_bounds(command_line_dominoes()[6]) == (200u8, 255u8, 110u8, 160u8, 0u8, 50u8),
        channel_bounds(command_line_dominoes()[7]) == (160u8, 190u8, 35u8, 70u8, 75u8, 100u8),
        channel_bounds(command_line_dominoes()[8]) == (30u8, 60u8, 110u8, 150u8, 90u8, 120u8),
        channel_bounds(command_line_dominoes()[9]) == (75u8, 95u8, 25u8, 55u8, 55u8, 100u8),
        channel_bounds(command_line_dominoes()[10]) == (200u8, 255u8, 80u8, 120u8, 50u8, 70u8),
        channel_bounds(command_line_dominoes()[11]) == (110u8, 130u8, 35u8, 65u8, 50u8, 85u8),
        channel_bounds(command_line_dominoes()[12]) == (130u8, 170u8, 130u8, 170u8, 120u8, 140u8),
{
}

/// One entry of a table.
fn domino(value: u8, bounds: (u8, u8, u8, u8, u8, u8), ratio: (u32, u32)) -> (d: DominoRange)
    ensures
        d.value == value,
        d.leeway == DEFAULT_LEEWAY,
        channel_bounds(d) == bounds,
        (d.ratio.start, d.ratio.end) == ratio,
{
    DominoRange {
        ratio: ratio.0..ratio.1,
        color_range: ColorRange { r: bounds.0..bounds.1, g: bounds.2..bounds.3, b: bounds.4..bounds.5 },
        value,
        ..DominoRange::default()
    }
}

/// Builds a table from its thirteen channel bounds.
fn build_table(bounds: [(u8, u8, u8, u8, u8, u8); 13]) -> (dominoes: Vec<DominoRange>)
    ensures
        is_table(dominoes@, bounds@),
{
    let mut dominoes: Vec<DominoRange> = Vec::new();
    let mut value: u8 = 0;
    while value < 13
        invariant
            value <= 13,
            dominoes@.len() == value,
            forall|i: int|
                0 <= i < value ==> {
                    &&& (#[trigger] dominoes@[i]).value == i
                    &&& dominoes@[i].leeway == DEFAULT_LEEWAY
                    &&& channel_bounds(dominoes@[i]) == bounds@[i]
                    &&& (dominoes@[i].ratio.start, dominoes@[i].ratio.end) == table_ratio(i)
                },
        decreases 13 - value,
    {
        let ratio = if value == 0 {
            (1000, 99000)
        } else if value == 10 {
            (1375, 1375)
        } else {
            (6910, 6910)
        };
        dominoes.push(domino(value, bounds[value as usize], ratio));
        value = value + 1;
    }
    dominoes
}

/// The colour signatures of values 0 to 12 that the library matches pixels against.
pub fn construct_dominoes() -> (dominoes: Vec<DominoRange>)
    ensures
        is_table(dominoes@, library_table()),
        dominoes@ == library_dominoes(),
{
    let bounds = [
        (240, 240, 228, 228, 200, 200),
        (40, 100, 100, 150, 100, 190),
        (65, 85, 130, 150, 25, 45),
        (190, 255, 30, 80, 30, 70),
        (135, 155, 65, 85, 30, 50),
        (15, 35, 65, 85, 120, 160),
        (200, 255, 110, 160, 0, 50),
        (180, 210, 35, 70, 80, 130),
        (15, 60, 110, 190, 110, 160),
        (55, 100, 20, 70, 40, 110),
        (215, 255, 60, 100, 0, 40),
        (120, 150, 35, 65, 50, 85),
        (130, 170, 130, 170, 120, 140),
    ];
    assert(bounds@ =~= library_table());
    let dominoes = build_table(bounds);
    proof {
        lemma_table_is_entries(dominoes@, library_table());
    }
    dominoes
}

/// The colour signatures of values 0 to 12 that the command-line tool matches pixels against.
pub fn construct_command_line_dominoes() -> (dominoes: Vec<DominoRange>)
    ensures
        is_table(dominoes@, command_line_table()),
        dominoes@ == command_line_dominoes(),
{
    let bounds = [
        (240, 240, 228, 228, 200, 200),
        (60, 80, 100, 130, 110, 150),
        (65, 85, 130, 150, 25, 45),
        (190, 220, 35, 55, 30, 50),
        (135, 155, 65, 85, 30, 50),
        (15, 35, 65, 85, 120, 160),
        (200, 255, 110, 160, 0, 50),
        (160, 190, 35, 70, 75, 100),
        (30, 60, 110, 150, 90, 120),
        (75, 95, 25, 55, 55, 100),
        (200, 255, 80, 120, 50, 70),
        (110, 130, 35, 65, 50, 85),
        (130, 170, 130, 170, 120, 140),
    ];
    assert(bounds@ =~= command_line_table());
    let dominoes = build_table(bounds);
    proof {
        lemma_table_is_entries(dominoes@, command_line_table());
    }
    dominoes
}

} // verus!
