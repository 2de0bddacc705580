//! Styles, the byte ranges that carry them, and the sinks that take styled
//! text.
use std::ops::Range;
use std::str::FromStr;
use vstd::prelude::*;

pub use crate::sink::ColorlessString;

verus! {

/// A terminal color.
#[derive(Clone, Copy, Debug, PartialEq, Eq)]
pub enum Color {
    Black,
    Blue,
    Green,
    Red,
    Cyan,
    Magenta,
    Yellow,
    White,
    Ansi256(u8),
    Rgb(u8, u8, u8),
}

/// A style: the colors and attributes that a run of text is shown in.
#[derive(Clone, Copy, Debug, PartialEq, Eq)]
pub struct Spec {
    pub fg: Option<Color>,
    pub bg: Option<Color>,
    pub bold: bool,
    pub intense: bool,
    pub underline: bool,
}

/// A list of styles, each with the half-open range of data indices that it
/// covers.
pub type Colors = Vec<(Spec, Range<usize>)>;

/// The color that `termcolor` reads out of a text, if it reads one.
pub uninterp spec fn parsed_color(name: Seq<char>) -> Option<Color>;

/// Calls `atty::is` for standard output, which asks the system whether that
/// stream is a terminal. The answer depends on how the process was started,
/// so nothing is claimed of it.
#[verifier::external_body]
pub(crate) fn stdout_is_terminal() -> bool {
    atty::is(atty::Stream::Stdout)
}

/// Calls `termcolor::Color::from_str`, which reads a color's English name in
/// any case, one number, or three numbers separated by commas. Nothing is
/// claimed of which texts it accepts: the result is only given its name.
#[verifier::external_body]
fn parse_color(name: &str) -> (color: Option<Color>)
    ensures
        color == parsed_color(name@),
{
    match termcolor::Color::from_str(name) {
        Ok(termcolor::Color::Black) => Some(Color::Black),
        Ok(termcolor::Color::Blue) => Some(Color::Blue),
        Ok(termcolor::Color::Green) => Some(Color::Green),
        Ok(termcolor::Color::Red) => Some(Color::Red),
        Ok(termcolor::Color::Cyan) => Some(Color::Cyan),
        Ok(termcolor::Color::Magenta) => Some(Color::Magenta),
        Ok(termcolor::Color::Yellow) => Some(Color::Yellow),
        Ok(termcolor::Color::White) => Some(Color::White),
        Ok(termcolor::Color::Ansi256(n)) => Some(Color::Ansi256(n)),
        Ok(termcolor::Color::Rgb(r, g, b)) => Some(Color::Rgb(r, g, b)),
        _ => None,
    }
}

/// The style that shows text in the foreground color `color`, bold or not,
/// and sets nothing else.
pub open spec fn foreground(color: Color, bold: bool) -> Spec {
    Spec { fg: Some(color), bg: None, bold, intense: false, underline: false }
}

impl Spec {
    /// A style without colors or attributes.
    pub fn new() -> (spec: Spec)
        ensures
            spec == (Spec { fg: None, bg: None, bold: false, intense: false, underline: false }),
    {
        Spec { fg: None, bg: None, bold: false, intense: false, underline: false }
    }

    /// A style with the given foreground color, bold or not, and nothing else.
    pub fn with_fg(color: Color, bold: bool) -> (spec: Spec)
        ensures
            spec == foreground(color, bold),
    {
        Spec { fg: Some(color), bg: None, bold, intense: false, underline: false }
    }

    /// The style that shows text in the foreground color that `color`
    /// names, without attributes; `None` where `termcolor` reads no color
    /// out of the text.
    pub fn named(color: &str) -> (spec: Option<Spec>)
        ensures
            spec == Self::for_parsed(parsed_color(color@)),
    {
        Self::from_parsed(parse_color(color))
    }

    /// What [`Spec::named`] makes of a parsed color.
    pub open spec fn for_parsed(parsed: Option<Color>) -> Option<Spec> {
        match parsed {
            Some(color) => Some(foreground(color, false)),
            None => None,
        }
    }

    /// The style for a parsed color: the color as foreground, no attributes.
    pub fn from_parsed(parsed: Option<Color>) -> (spec: Option<Spec>)
        ensures
            spec == Self::for_parsed(parsed),
    {
        match parsed {
            Some(color) => Some(Spec::with_fg(color, false)),
            None => None,
        }
    }
}

/// Whether the half-open range holds the index.
pub open spec fn covers(range: Range<usize>, index: int) -> bool {
    range.start <= index < range.end
}

/// The style that a data index is shown in: that of the first range of the
/// list that covers the index, or none where no range does.
pub open spec fn style_at(colors: Seq<(Spec, Range<usize>)>, index: int) -> Option<Spec>
    decreases colors.len(),
{
    if colors.len() == 0 {
        None
    } else if covers(colors[0].1, index) {
        Some(colors[0].0)
    } else {
        style_at(colors.drop_first(), index)
    }
}

/// Whether range `at` covers the index and no range before it does.
pub open spec fn first_cover(colors: Seq<(Spec, Range<usize>)>, index: int, at: int) -> bool {
    &&& 0 <= at < colors.len()
    &&& covers(colors[at].1, index)
    &&& forall|k: int| 0 <= k < at ==> !#[trigger] covers(colors[k].1, index)
}

/// Whether no range of the list covers the index.
pub open spec fn uncovered(colors: Seq<(Spec, Range<usize>)>, index: int) -> bool {
    forall|k: int| 0 <= k < colors.len() ==> !#[trigger] covers(colors[k].1, index)
}

/// Whether the ranges stand in the order of their starts.
pub open spec fn sorted_by_start(colors: Seq<(Spec, Range<usize>)>) -> bool {
    forall|i: int, j: int|
        0 <= i <= j < colors.len() ==> (#[trigger] colors[i]).1.start <= (#[trigger] colors[j]).1.start
}

/// Whether the ranges stand in the order of their starts.
pub fn is_sorted_by_start(colors: &Colors) -> (sorted: bool)
    ensures
        sorted == sorted_by_start(colors@),
{
    let mut at: usize = 1;
    while at < colors.len()
        invariant
            1 <= at,
            forall|i: int, j: int|
                0 <= i <= j < at && j < colors@.len() ==> (#[trigger] colors@[i]).1.start <= (
                #[trigger] colors@[j]).1.start,
        decreases colors@.len() - at,
    {
        if colors[at - 1].1.start > colors[at].1.start {
            return false;
        }
        proof {
            assert forall|i: int, j: int| 0 <= i <= j < at + 1 && j < colors@.len() implies (
            #[trigger] colors@[i]).1.start <= (#[trigger] colors@[j]).1.start by {
                if j == at && i < at {
                    assert(colors@[i].1.start <= colors@[at - 1].1.start);
                }
            }
        }
        at += 1;
    }
    true
}

/// An index whose first covering range is `at` has that range's style.
pub proof fn lemma_style_of_first_cover(colors: Seq<(Spec, Range<usize>)>, index: int, at: int)
    requires
        first_cover(colors, index, at),
    ensures
        style_at(colors, index) == Some(colors[at].0),
    decreases colors.len(),
{
    if at > 0 {
        let rest = colors.drop_first();
        assert(!covers(colors[0].1, index));
        assert forall|k: int| 0 <= k < at - 1 implies !#[trigger] covers(rest[k].1, index) by {
            assert(!covers(colors[k + 1].1, index));
        }
        lemma_style_of_first_cover(rest, index, at - 1);
    }
}

/// An index that no range covers has no style.
pub proof fn lemma_style_of_uncovered(colors: Seq<(Spec, Range<usize>)>, index: int)
    requires
        uncovered(colors, index),
    ensures
        style_at(colors, index) is None,
    decreases colors.len(),
{
    if colors.len() > 0 {
        let rest = colors.drop_first();
        assert(!covers(colors[0].1, index));
        assert forall|k: int| 0 <= k < rest.len() implies !#[trigger] covers(rest[k].1, index) by {
            assert(!covers(colors[k + 1].1, index));
        }
        lemma_style_of_uncovered(rest, index);
    }
}

/// The first range that covers the index, given one that does.
pub proof fn lemma_least_cover(colors: Seq<(Spec, Range<usize>)>, index: int, bound: int) -> (at:
    int)
    requires
        0 <= bound < colors.len(),
        covers(colors[bound].1, index),
    ensures
        first_cover(colors, index, at),
        at <= bound,
    decreases bound,
{
    if exists|k: int| 0 <= k < bound && #[trigger] covers(colors[k].1, index) {
        let k = choose|k: int| 0 <= k < bound && #[trigger] covers(colors[k].1, index);
        lemma_least_cover(colors, index, k)
    } else {
        bound
    }
}

/// Color locality of the lookup: an index has a style exactly when some
/// range covers it, the style is then that of the first such range, and an
/// index outside every range has none.
pub proof fn lemma_style_at_is_local(colors: Seq<(Spec, Range<usize>)>, index: int)
    ensures
        style_at(colors, index) is None <==> uncovered(colors, index),
        forall|at: int|
            first_cover(colors, index, at) ==> style_at(colors, index) == Some(
                (#[trigger] colors[at]).0,
            ),
        forall|k: int|
            0 <= k < colors.len() && #[trigger] covers(colors[k].1, index) ==> style_at(
                colors,
                index,
            ) is Some,
{
    assert forall|at: int| first_cover(colors, index, at) implies style_at(colors, index) == Some(
        (#[trigger] colors[at]).0,
    ) by {
        lemma_style_of_first_cover(colors, index, at);
    }
    assert forall|k: int|
        0 <= k < colors.len() && #[trigger] covers(colors[k].1, index) implies style_at(
        colors,
        index,
    ) is Some by {
        let at = lemma_least_cover(colors, index, k);
        lemma_style_of_first_cover(colors, index, at);
    }
    if uncovered(colors, index) {
        lemma_style_of_uncovered(colors, index);
    }
}

/// The ranges of the list that start at `start`, in the order in which the
/// list has them.
pub open spec fn starting_at(colors: Seq<(Spec, Range<usize>)>, start: usize) -> Seq<
    (Spec, Range<usize>),
>
    decreases colors.len(),
{
    if colors.len() == 0 {
        Seq::empty()
    } else if colors.last().1.start == start {
        starting_at(colors.drop_last(), start).push(colors.last())
    } else {
        starting_at(colors.drop_last(), start)
    }
}

/// Whether `sorted` is `colors` put in the order of the ranges' starts, with
/// ranges of one start left in the order in which `colors` has them.
pub open spec fn stably_sorted(
    sorted: Seq<(Spec, Range<usize>)>,
    colors: Seq<(Spec, Range<usize>)>,
) -> bool {
    &&& sorted_by_start(sorted)
    &&& sorted.len() == colors.len()
    &&& forall|start: usize| #[trigger] starting_at(sorted, start) == starting_at(colors, start)
}

/// The ranges that start at one place, taken from two lists in a row, are
/// those of the first list followed by those of the second.
pub proof fn lemma_starting_at_concat(
    front: Seq<(Spec, Range<usize>)>,
    back: Seq<(Spec, Range<usize>)>,
    start: usize,
)
    ensures
        starting_at(front + back, start) == starting_at(front, start) + starting_at(back, start),
    decreases back.len(),
{
    if back.len() == 0 {
        assert(front + back =~= front);
        assert(starting_at(front, start) + starting_at(back, start) =~= starting_at(front, start));
    } else {
        let whole = front + back;
        assert(whole.drop_last() =~= front + back.drop_last());
        assert(whole.last() == back.last());
        lemma_starting_at_concat(front, back.drop_last(), start);
        if back.last().1.start == start {
            assert((starting_at(front, start) + starting_at(back.drop_last(), start)).push(
                back.last(),
            ) =~= starting_at(front, start) + starting_at(back.drop_last(), start).push(
                back.last(),
            ));
        }
    }
}

/// A list none of whose ranges starts at `start` has nothing to show for it.
pub proof fn lemma_starting_at_absent(colors: Seq<(Spec, Range<usize>)>, start: usize)
    requires
        forall|k: int| 0 <= k < colors.len() ==> (#[trigger] colors[k]).1.start != start,
    ensures
        starting_at(colors, start) == Seq::<(Spec, Range<usize>)>::empty(),
    decreases colors.len(),
{
    if colors.len() > 0 {
        let front = colors.drop_last();
        assert(colors.last() == colors[colors.len() - 1]);
        assert forall|k: int| 0 <= k < front.len() implies (#[trigger] front[k]).1.start
            != start by {
            assert(front[k] == colors[k]);
        }
        lemma_starting_at_absent(front, start);
    }
}

/// A list of one range shows that range for its own start and nothing for
/// any other.
pub proof fn lemma_starting_at_single(item: (Spec, Range<usize>), start: usize)
    ensures
        starting_at(seq![item], start) == if item.1.start == start {
            seq![item]
        } else {
            Seq::empty()
        },
{
    let one = seq![item];
    assert(one.drop_last() =~= Seq::empty());
    assert(one.last() == item);
    assert(starting_at(one.drop_last(), start) =~= Seq::empty());
    assert(Seq::<(Spec, Range<usize>)>::empty().push(item) =~= one);
}

/// A range of the list is among the ranges that start where it starts.
pub proof fn lemma_starting_at_member(colors: Seq<(Spec, Range<usize>)>, k: int) -> (at: int)
    requires
        0 <= k < colors.len(),
    ensures
        0 <= at < starting_at(colors, colors[k].1.start).len(),
        starting_at(colors, colors[k].1.start)[at] == colors[k],
    decreases colors.len(),
{
    let start = colors[k].1.start;
    let front = colors.drop_last();
    if k == colors.len() - 1 {
        starting_at(front, start).len() as int
    } else {
        assert(front[k] == colors[k]);
        lemma_starting_at_member(front, k)
    }
}

/// A range among those that start at `start` is a range of the list, and
/// starts there.
pub proof fn lemma_starting_at_source(
    colors: Seq<(Spec, Range<usize>)>,
    start: usize,
    at: int,
) -> (k: int)
    requires
        0 <= at < starting_at(colors, start).len(),
    ensures
        0 <= k < colors.len(),
        colors[k] == starting_at(colors, start)[at],
        colors[k].1.start == start,
    decreases colors.len(),
{
    let front = colors.drop_last();
    if colors.last().1.start == start && at == starting_at(front, start).len() {
        colors.len() - 1
    } else {
        let k = lemma_starting_at_source(front, start, at);
        assert(front[k] == colors[k]);
        k
    }
}

/// Sorting keeps the ranges: each range of the list that was sorted is a
/// range of the sorted list, and the other way round.
pub proof fn lemma_sorting_keeps_the_ranges(
    sorted: Seq<(Spec, Range<usize>)>,
    colors: Seq<(Spec, Range<usize>)>,
    k: int,
) -> (at: int)
    requires
        forall|start: usize| #[trigger] starting_at(sorted, start) == starting_at(colors, start),
        0 <= k < colors.len(),
    ensures
        0 <= at < sorted.len(),
        sorted[at] == colors[k],
{
    let start = colors[k].1.start;
    let among = lemma_starting_at_member(colors, k);
    assert(starting_at(sorted, start) == starting_at(colors, start));
    lemma_starting_at_source(sorted, start, among)
}

/// Sorting changes no index's coverage: an index is covered by a range of
/// the sorted list exactly when it is covered by a range of the list that
/// was sorted. So an index has a style exactly when one of the ranges that
/// were given covers it.
pub proof fn lemma_sorting_keeps_coverage(
    sorted: Seq<(Spec, Range<usize>)>,
    colors: Seq<(Spec, Range<usize>)>,
    index: int,
)
    requires
        stably_sorted(sorted, colors),
    ensures
        uncovered(sorted, index) <==> uncovered(colors, index),
        style_at(sorted, index) is None <==> uncovered(colors, index),
{
    lemma_style_at_is_local(sorted, index);
    if !uncovered(colors, index) {
        let k = choose|k: int| 0 <= k < colors.len() && #[trigger] covers(colors[k].1, index);
        let at = lemma_sorting_keeps_the_ranges(sorted, colors, k);
        assert(covers(sorted[at].1, index));
    }
    if !uncovered(sorted, index) {
        let k = choose|k: int| 0 <= k < sorted.len() && #[trigger] covers(sorted[k].1, index);
        assert forall|start: usize| #[trigger]
            starting_at(colors, start) == starting_at(sorted, start) by {
            assert(starting_at(sorted, start) == starting_at(colors, start));
        }
        let at = lemma_sorting_keeps_the_ranges(colors, sorted, k);
        assert(covers(colors[at].1, index));
    }
}

/// Which range wins where several cover an index: in a sorted list the
/// first covering range starts no later than any range covering the index,
/// and it is the first covering range, in the order in which they were
/// given, among the ranges with that start.
pub proof fn lemma_least_start_wins(
    sorted: Seq<(Spec, Range<usize>)>,
    colors: Seq<(Spec, Range<usize>)>,
    index: int,
    at: int,
)
    requires
        stably_sorted(sorted, colors),
        first_cover(sorted, index, at),
    ensures
        style_at(sorted, index) == Some(sorted[at].0),
        style_at(sorted, index) == style_at(starting_at(colors, sorted[at].1.start), index),
        forall|k: int|
            0 <= k < colors.len() && #[trigger] covers(colors[k].1, index) ==> sorted[at].1.start
                <= colors[k].1.start,
{
    let winner = sorted[at];
    let start = winner.1.start;
    lemma_style_of_first_cover(sorted, index, at);
    assert forall|k: int|
        0 <= k < colors.len() && #[trigger] covers(colors[k].1, index) implies start
        <= colors[k].1.start by {
        let place = lemma_sorting_keeps_the_ranges(sorted, colors, k);
        assert(covers(sorted[place].1, index));
        assert(place >= at);
        assert(sorted[at].1.start <= sorted[place].1.start);
    }
    let front = sorted.take(at);
    let back = sorted.skip(at + 1);
    let one = seq![winner];
    assert(sorted =~= (front + one) + back);
    lemma_starting_at_concat(front + one, back, start);
    lemma_starting_at_concat(front, one, start);
    lemma_starting_at_single(winner, start);
    let same = starting_at(sorted, start);
    let before = starting_at(front, start);
    assert(same == starting_at(colors, start));
    assert(same =~= (before + one) + starting_at(back, start));
    assert(same[before.len() as int] == winner);
    assert forall|k: int| 0 <= k < before.len() implies !#[trigger] covers(
        same[k].1,
        index,
    ) by {
        let source = lemma_starting_at_source(front, start, k);
        assert(front[source] == sorted[source]);
        assert(!covers(sorted[source].1, index));
        assert(same[k] == before[k]);
    }
    lemma_style_of_first_cover(same, index, before.len() as int);
}

/// Puts the ranges in the order of their starts. Ranges with the same start
/// keep the order in which they were given.
pub fn sort_by_start(colors: Colors) -> (sorted: Colors)
    ensures
        stably_sorted(sorted@, colors@),
{
    let ghost given = colors@;
    let mut rest = colors;
    let mut sorted: Colors = Vec::new();
    proof {
        assert(given.skip(given.len() as int) =~= Seq::empty());
    }
    while rest.len() > 0
        invariant
            rest@ == given.take(rest@.len() as int),
            rest@.len() <= given.len(),
            sorted@.len() + rest@.len() == given.len(),
            sorted_by_start(sorted@),
            forall|start: usize| #[trigger]
                starting_at(sorted@, start) == starting_at(given.skip(rest@.len() as int), start),
        decreases rest@.len(),
    {
        let ghost before = sorted@;
        let ghost left = rest@.len() as int;
        let item = rest.pop().unwrap();
        let ghost moved = item;
        let mut at: usize = 0;
        while at < sorted.len() && sorted[at].1.start < item.1.start
            invariant
                at <= sorted@.len(),
                forall|k: int| 0 <= k < at ==> (#[trigger] sorted@[k]).1.start < item.1.start,
            decreases sorted@.len() - at,
        {
            at += 1;
        }
        sorted.insert(at, item);
        proof {
            let front = before.take(at as int);
            let back = before.skip(at as int);
            let one = seq![moved];
            assert(before =~= front + back);
            assert(sorted@ =~= (front + one) + back);
            assert(given.skip(left - 1) =~= one + given.skip(left));
            assert(moved == given[left - 1]);
            assert forall|start: usize| #[trigger]
                starting_at(sorted@, start) == starting_at(given.skip(left - 1), start) by {
                lemma_starting_at_concat(front, back, start);
                lemma_starting_at_concat(front + one, back, start);
                lemma_starting_at_concat(front, one, start);
                lemma_starting_at_concat(one, given.skip(left), start);
                lemma_starting_at_single(moved, start);
                assert(starting_at(before, start) == starting_at(given.skip(left), start));
                if moved.1.start == start {
                    assert forall|k: int| 0 <= k < front.len() implies (#[trigger] front[k]).1.start
                        != start by {
                        assert(front[k] == before[k]);
                    }
                    lemma_starting_at_absent(front, start);
                    assert(starting_at(one, start) =~= one);
                    assert(starting_at(sorted@, start) =~= one + starting_at(back, start));
                    assert(starting_at(before, start) =~= starting_at(back, start));
                } else {
                    assert(starting_at(one, start) =~= Seq::empty());
                    assert(starting_at(front + one, start) =~= starting_at(front, start));
                    assert(one + given.skip(left) =~= given.skip(left - 1));
                    assert(starting_at(one, start) + starting_at(given.skip(left), start)
                        =~= starting_at(given.skip(left), start));
                }
            }
            assert forall|i: int, j: int| 0 <= i <= j < sorted@.len() implies (
            #[trigger] sorted@[i]).1.start <= (#[trigger] sorted@[j]).1.start by {
                if i < at && j > at {
                    assert(sorted@[i] == before[i]);
                    assert(sorted@[j] == before[j - 1]);
                } else if i < at && j < at {
                    assert(sorted@[i] == before[i]);
                    assert(sorted@[j] == before[j]);
                } else if i > at {
                    assert(sorted@[i] == before[i - 1]);
                    assert(sorted@[j] == before[j - 1]);
                } else if i == at && j > at {
                    assert(sorted@[j] == before[j - 1]);
                    assert(before[at as int].1.start <= before[j - 1].1.start);
                } else if i < at && j == at {
                    assert(sorted@[i] == before[i]);
                }
            }
        }
    }
    proof {
        assert(given.skip(0) =~= given);
    }
    sorted
}

/// A cursor over a list of color ranges that is sorted by start.
///
/// It answers which style a data index has. The index is given relative to
/// an offset, the data index at which the current row begins. While the
/// indices asked for do not go down, the cursor only moves forward through
/// the list, so a whole pass costs the list's length plus the number of
/// questions; an index lower than the one before starts the walk anew.
#[derive(Clone, Copy)]
pub struct ColorRange<'a> {
    colors: &'a Colors,
    offset: usize,
    position: usize,
    floor: usize,
}

impl<'a> ColorRange<'a> {
    /// The list of ranges that the cursor walks.
    pub closed spec fn ranges(self) -> Seq<(Spec, Range<usize>)> {
        self.colors@
    }

    /// The data index that queries are relative to.
    pub closed spec fn base(self) -> int {
        self.offset as int
    }

    /// The cursor's invariant: the list is sorted by start, and every range
    /// that the cursor has passed ends at or before the last index asked
    /// for.
    pub closed spec fn wf(self) -> bool {
        &&& sorted_by_start(self.colors@)
        &&& self.position <= self.colors@.len()
        &&& forall|k: int| 0 <= k < self.position ==> (#[trigger] self.colors@[k]).1.end <= self.floor
    }

    /// A cursor at the start of `colors`, with offset 0.
    pub fn new(colors: &'a Colors) -> (cursor: Self)
        requires
            sorted_by_start(colors@),
        ensures
            cursor.wf(),
            cursor.ranges() == colors@,
            cursor.base() == 0,
    {
        ColorRange { colors: colors, offset: 0, position: 0, floor: 0 }
    }

    /// Declares that the following queries are relative to `offset`.
    pub fn update_offset(&mut self, offset: usize)
        requires
            old(self).wf(),
        ensures
            final(self).wf(),
            final(self).ranges() == old(self).ranges(),
            final(self).base() == offset,
    {
        self.offset = offset;
    }

    /// The style of the data index `idx` places after the offset, if it has
    /// one.
    pub fn get(&mut self, idx: usize) -> (style: Option<&'a Spec>)
        requires
            old(self).wf(),
        ensures
            final(self).wf(),
            final(self).ranges() == old(self).ranges(),
            final(self).base() == old(self).base(),
            style is Some <==> style_at(old(self).ranges(), old(self).base() + idx) is Some,
            style matches Some(spec) ==> style_at(old(self).ranges(), old(self).base() + idx)
                == Some(*spec),
    {
        let colors: &'a Colors = self.colors;
        if idx > usize::MAX - self.offset {
            proof {
                lemma_style_of_uncovered(colors@, self.offset + idx);
            }
            return None;
        }
        let index: usize = self.offset + idx;
        if index < self.floor {
            self.position = 0;
        }
        self.floor = index;
        while self.position < colors.len() && colors[self.position].1.end <= index
            invariant
                self.colors == colors,
                self.floor == index,
                self.offset == old(self).offset,
                self.wf(),
            decreases colors.len() - self.position,
        {
            self.position += 1;
        }
        if self.position < colors.len() && colors[self.position].1.start <= index {
            proof {
                lemma_style_of_first_cover(colors@, index as int, self.position as int);
            }
            Some(&colors[self.position].0)
        } else {
            proof {
                assert forall|k: int| 0 <= k < colors@.len() implies !#[trigger] covers(
                    colors@[k].1,
                    index as int,
                ) by {
                    if k >= self.position {
                        assert(colors@[self.position as int].1.start <= colors@[k].1.start);
                    }
                }
                lemma_style_of_uncovered(colors@, index as int);
            }
            None
        }
    }
}

/// The style that shows text in red.
pub fn red() -> (spec: Spec)
    ensures
        spec == foreground(Color::Red, false),
{
    Spec::with_fg(Color::Red, false)
}

/// The style that shows text in bold red.
pub fn red_bold() -> (spec: Spec)
    ensures
        spec == foreground(Color::Red, true),
{
    Spec::with_fg(Color::Red, true)
}

/// The style that shows text in blue.
pub fn blue() -> (spec: Spec)
    ensures
        spec == foreground(Color::Blue, false),
{
    Spec::with_fg(Color::Blue, false)
}

/// The style that shows text in bold blue.
pub fn blue_bold() -> (spec: Spec)
    ensures
        spec == foreground(Color::Blue, true),
{
    Spec::with_fg(Color::Blue, true)
}

/// The style that shows text in green.
pub fn green() -> (spec: Spec)
    ensures
        spec == foreground(Color::Green, false),
{
    Spec::with_fg(Color::Green, false)
}

/// The style that shows text in bold green.
pub fn green_bold() -> (spec: Spec)
    ensures
        spec == foreground(Color::Green, true),
{
    Spec::with_fg(Color::Green, true)
}

/// The style that shows text in yellow.
pub fn yellow() -> (spec: Spec)
    ensures
        spec == foreground(Color::Yellow, false),
{
    Spec::with_fg(Color::Yellow, false)
}

/// The style that shows text in bold yellow.
pub fn yellow_bold() -> (spec: Spec)
    ensures
        spec == foreground(Color::Yellow, true),
{
    Spec::with_fg(Color::Yellow, true)
}

/// The style that shows text in magenta.
pub fn magenta() -> (spec: Spec)
    ensures
        spec == foreground(Color::Magenta, false),
{
    Spec::with_fg(Color::Magenta, false)
}

/// The style that shows text in bold magenta.
pub fn magenta_bold() -> (spec: Spec)
    ensures
        spec == foreground(Color::Magenta, true),
{
    Spec::with_fg(Color::Magenta, true)
}

/// The style that shows text in black.
pub fn black() -> (spec: Spec)
    ensures
        spec == foreground(Color::Black, false),
{
    Spec::with_fg(Color::Black, false)
}

/// The style that shows text in bold black.
pub fn black_bold() -> (spec: Spec)
    ensures
        spec == foreground(Color::Black, true),
{
    Spec::with_fg(Color::Black, true)
}

/// The style that shows text in cyan.
pub fn cyan() -> (spec: Spec)
    ensures
        spec == foreground(Color::Cyan, false),
{
    Spec::with_fg(Color::Cyan, false)
}

/// The style that shows text in bold cyan.
pub fn cyan_bold() -> (spec: Spec)
    ensures
        spec == foreground(Color::Cyan, true),
{
    Spec::with_fg(Color::Cyan, true)
}

/// The style that shows text in white.
pub fn white() -> (spec: Spec)
    ensures
        spec == foreground(Color::White, false),
{
    Spec::with_fg(Color::White, false)
}

/// The style that shows text in bold white.
pub fn white_bold() -> (spec: Spec)
    ensures
        spec == foreground(Color::White, true),
{
    Spec::with_fg(Color::White, true)
}

} // verus!
