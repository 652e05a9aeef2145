//! A plot of the mean values of rasters over time.

use crate::operator::{InputRange, Operator, OperatorError};
use crate::pixel::PixelValue;
use std::collections::BTreeMap;
use vstd::prelude::*;
use vstd::std_specs::cmp::OrdSpec;
use vstd::std_specs::iter::IteratorSpec;

verus! {

broadcast use vstd::std_specs::btree::group_btree_axioms;

/// Where the tick on the time axis is positioned.
#[derive(Debug, Clone, Copy, PartialEq, Eq, Structural)]
pub enum TemporalRasterMeanPlotTimePosition {
    Start,
    Center,
    End,
}

/// The parameters of a plot of mean values.
#[derive(Debug, Clone, Copy, PartialEq, Eq, Structural)]
pub struct TemporalRasterMeanPlotParams {
    pub time_position: TemporalRasterMeanPlotTimePosition,
}

/// A plot that shows the mean values of rasters over time as an area plot.
#[derive(Debug)]
pub struct TemporalRasterMeanPlot<R, V> {
    pub operator: Operator<TemporalRasterMeanPlotParams, R, V>,
}

/// A plot whose inputs are as they must be.
#[derive(Debug)]
pub struct InitializedTemporalRasterMeanPlot<R> {
    pub params: TemporalRasterMeanPlotParams,
    pub raster_source: R,
}

impl<R, V> TemporalRasterMeanPlot<R, V> {
    /// Checks the inputs: the plot takes one raster and nothing else. A wrong number of rasters
    /// is reported as a wrong number of vector inputs.
    pub fn initialize(self) -> (r: Result<InitializedTemporalRasterMeanPlot<R>, OperatorError>)
        ensures
            match r {
                Ok(plot) => {
                    &&& self.operator.vector_sources@.len() == 0
                    &&& self.operator.raster_sources@ == seq![plot.raster_source]
                    &&& plot.params == self.operator.params
                },
                Err(OperatorError::InvalidNumberOfVectorInputs { expected, found }) => if 0
                    < self.operator.vector_sources@.len() {
                    expected == (InputRange { start: 0, end: 1 }) && found
                        == self.operator.vector_sources@.len()
                } else {
                    &&& self.operator.raster_sources@.len() != 1
                    &&& expected == (InputRange { start: 1, end: 2 })
                    &&& found == self.operator.raster_sources@.len()
                },
                Err(_) => false,
            },
    {
        let Operator { params, raster_sources, vector_sources } = self.operator;
        if vector_sources.len() != 0 {
            return Err(
                OperatorError::InvalidNumberOfVectorInputs {
                    expected: InputRange { start: 0, end: 1 },
                    found: vector_sources.len(),
                },
            );
        }
        if raster_sources.len() != 1 {
            return Err(
                OperatorError::InvalidNumberOfVectorInputs {
                    expected: InputRange { start: 1, end: 2 },
                    found: raster_sources.len(),
                },
            );
        }
        let ghost sources = raster_sources@;
        let mut raster_sources = raster_sources;
        let raster_source = raster_sources.pop().unwrap();
        assert(sources =~= seq![raster_source]);
        Ok(InitializedTemporalRasterMeanPlot { params, raster_source })
    }
}

/// A time interval that does not end before it starts, in milliseconds since the epoch.
#[derive(Debug, Clone, Copy)]
pub struct TimeInterval {
    start: i64,
    end: i64,
}

/// A time interval ends before it starts.
#[derive(Debug, Clone, Copy)]
pub struct TimeIntervalEndBeforeStart {
    pub start: i64,
    pub end: i64,
}

impl View for TimeInterval {
    type V = (int, int);

    closed spec fn view(&self) -> (int, int) {
        (self.start as int, self.end as int)
    }
}

impl TimeInterval {
    #[verifier::type_invariant]
    spec fn ordered(self) -> bool {
        self.start <= self.end
    }

    /// The interval from `start` to `end`.
    pub fn new(start: i64, end: i64) -> (r: Result<Self, TimeIntervalEndBeforeStart>)
        ensures
            match r {
                Ok(interval) => start <= end && interval@ == (start as int, end as int),
                Err(e) => start > end && e.start == start && e.end == end,
            },
    {
        if start <= end {
            Ok(Self { start, end })
        } else {
            Err(TimeIntervalEndBeforeStart { start, end })
        }
    }

    /// The start of the interval.
    pub fn start(&self) -> (r: i64)
        ensures
            r == self@.0,
    {
        self.start
    }

    /// The end of the interval.
    pub fn end(&self) -> (r: i64)
        ensures
            r == self@.1,
            self@.0 <= self@.1,
    {
        proof {
            use_type_invariant(self);
        }
        self.end
    }
}

/// The point in time that stands for an interval: its start, its end, or the middle between the
/// two, rounded down.
pub open spec fn projected(
    time_interval: (int, int),
    time_position: TemporalRasterMeanPlotTimePosition,
) -> int {
    match time_position {
        TemporalRasterMeanPlotTimePosition::Start => time_interval.0,
        TemporalRasterMeanPlotTimePosition::Center => (time_interval.0 + time_interval.1) / 2,
        TemporalRasterMeanPlotTimePosition::End => time_interval.1,
    }
}

/// The middle between two numbers, rounded down.
fn average_floor(a: i64, b: i64) -> (r: i64)
    requires
        a <= b,
    ensures
        r == (a + b) / 2,
{
    let distance: u64 = (b as i128 - a as i128) as u64;
    let middle: i128 = a as i128 + (distance / 2) as i128;
    middle as i64
}

/// The point in time that stands for an interval.
pub fn time_interval_projection(
    time_interval: TimeInterval,
    time_position: TemporalRasterMeanPlotTimePosition,
) -> (r: i64)
    ensures
        r == projected(time_interval@, time_position),
{
    match time_position {
        TemporalRasterMeanPlotTimePosition::Start => time_interval.start(),
        TemporalRasterMeanPlotTimePosition::Center => {
            let end: i64 = time_interval.end();
            average_floor(time_interval.start(), end)
        },
        TemporalRasterMeanPlotTimePosition::End => time_interval.end(),
    }
}

/// The point in time that stands for an interval lies in it.
pub proof fn law_projection_within_interval(
    time_interval: (int, int),
    time_position: TemporalRasterMeanPlotTimePosition,
)
    requires
        time_interval.0 <= time_interval.1,
    ensures
        time_interval.0 <= projected(time_interval, time_position) <= time_interval.1,
{
}

/// Whether a value counts: it is a number, and does not stand for missing data.
pub open spec fn counts(value: PixelValue, no_data: Option<PixelValue>) -> bool {
    !value.nan() && !(no_data matches Some(missing) && value.same(missing))
}

/// The values that count, in their order.
pub open spec fn counted(values: Seq<PixelValue>, no_data: Option<PixelValue>) -> Seq<PixelValue> {
    values.filter(|value: PixelValue| counts(value, no_data))
}

/// A mean and the number of values that it is the mean of.
pub struct MeanView<M> {
    pub mean: M,
    pub n: nat,
}

/// Whether one value takes a mean to another one. The function `step` gets the mean, the value
/// and the new number of values.
pub open spec fn adds<M, F: Fn(M, PixelValue, usize) -> M>(
    step: F,
    before: MeanView<M>,
    value: PixelValue,
    after: MeanView<M>,
) -> bool {
    &&& after.n == before.n + 1
    &&& call_ensures(step, (before.mean, value, after.n as usize), after.mean)
}

/// Whether a list of values leads from one mean to the next, beginning with the first one.
pub open spec fn is_course<M, F: Fn(M, PixelValue, usize) -> M>(
    step: F,
    values: Seq<PixelValue>,
    course: Seq<MeanView<M>>,
) -> bool {
    &&& course.len() == values.len() + 1
    &&& forall|i: int|
        0 <= i < values.len() ==> adds(step, course[i], #[trigger] values[i], course[i + 1])
}

/// Whether a list of values, one after the other, takes a mean to another one.
pub open spec fn accumulates<M, F: Fn(M, PixelValue, usize) -> M>(
    step: F,
    before: MeanView<M>,
    values: Seq<PixelValue>,
    after: MeanView<M>,
) -> bool {
    exists|course: Seq<MeanView<M>>| #[trigger]
        is_course(step, values, course) && course.first() == before && course.last() == after
}

/// Calculates a mean value by value.
#[derive(Debug)]
pub struct MeanCalculator<M> {
    mean: M,
    n: usize,
}

impl<M> View for MeanCalculator<M> {
    type V = MeanView<M>;

    closed spec fn view(&self) -> MeanView<M> {
        MeanView { mean: self.mean, n: self.n as nat }
    }
}

impl<M: Copy> MeanCalculator<M> {
    /// The mean of no values.
    pub fn new(zero: M) -> (r: Self)
        ensures
            r@ == (MeanView { mean: zero, n: 0 }),
    {
        Self { mean: zero, n: 0 }
    }

    /// Adds the values that count.
    pub fn add<F: Fn(M, PixelValue, usize) -> M>(
        &mut self,
        values: &Vec<PixelValue>,
        no_data: Option<PixelValue>,
        step: &F,
    )
        requires
            old(self)@.n + counted(values@, no_data).len() <= usize::MAX,
            forall|mean: M, value: PixelValue, n: usize| call_requires(*step, (mean, value, n)),
        ensures
            accumulates(*step, old(self)@, counted(values@, no_data), final(self)@),
    {
        match no_data {
            Some(no_data) => self.add_with_no_data(values, no_data, step),
            None => self.add_without_no_data(values, step),
        }
    }

    fn add_without_no_data<F: Fn(M, PixelValue, usize) -> M>(
        &mut self,
        values: &Vec<PixelValue>,
        step: &F,
    )
        requires
            old(self)@.n + counted(values@, None).len() <= usize::MAX,
            forall|mean: M, value: PixelValue, n: usize| call_requires(*step, (mean, value, n)),
        ensures
            accumulates(*step, old(self)@, counted(values@, None), final(self)@),
    {
        let ghost start = self@;
        assert(values@.take(0) =~= Seq::empty());
        proof {
            lemma_counted_empty(None);
            lemma_accumulates_nothing(*step, start);
        }
        for i in 0..values.len()
            invariant
                start.n + counted(values@, None).len() <= usize::MAX,
                forall|mean: M, value: PixelValue, n: usize| call_requires(*step, (mean, value, n)),
                accumulates(*step, start, counted(values@.take(i as int), None), self@),
        {
            proof {
                lemma_counted_step(values@, i as int, None);
                lemma_accumulates_count(*step, start, counted(values@.take(i as int), None), self@);
            }
            let ghost before = self@;
            self.add_single_value(values[i], step);
            proof {
                if counts(values@[i as int], None) {
                    lemma_accumulates_step(
                        *step,
                        start,
                        counted(values@.take(i as int), None),
                        before,
                        values@[i as int],
                        self@,
                    );
                }
            }
        }
        assert(values@.take(values@.len() as int) =~= values@);
    }

    fn add_with_no_data<F: Fn(M, PixelValue, usize) -> M>(
        &mut self,
        values: &Vec<PixelValue>,
        no_data: PixelValue,
        step: &F,
    )
        requires
            old(self)@.n + counted(values@, Some(no_data)).len() <= usize::MAX,
            forall|mean: M, value: PixelValue, n: usize| call_requires(*step, (mean, value, n)),
        ensures
            accumulates(*step, old(self)@, counted(values@, Some(no_data)), final(self)@),
    {
        let ghost start = self@;
        assert(values@.take(0) =~= Seq::empty());
        proof {
            lemma_counted_empty(Some(no_data));
            lemma_accumulates_nothing(*step, start);
        }
        for i in 0..values.len()
            invariant
                start.n + counted(values@, Some(no_data)).len() <= usize::MAX,
                forall|mean: M, value: PixelValue, n: usize| call_requires(*step, (mean, value, n)),
                accumulates(*step, start, counted(values@.take(i as int), Some(no_data)), self@),
        {
            proof {
                lemma_counted_step(values@, i as int, Some(no_data));
                lemma_accumulates_count(
                    *step,
                    start,
                    counted(values@.take(i as int), Some(no_data)),
                    self@,
                );
            }
            let ghost before = self@;
            if !values[i].is_same(no_data) {
                self.add_single_value(values[i], step);
            }
            proof {
                if counts(values@[i as int], Some(no_data)) {
                    lemma_accumulates_step(
                        *step,
                        start,
                        counted(values@.take(i as int), Some(no_data)),
                        before,
                        values@[i as int],
                        self@,
                    );
                }
            }
        }
        assert(values@.take(values@.len() as int) =~= values@);
    }

    fn add_single_value<F: Fn(M, PixelValue, usize) -> M>(&mut self, value: PixelValue, step: &F)
        requires
            !value.nan() ==> old(self)@.n < usize::MAX,
            forall|mean: M, value: PixelValue, n: usize| call_requires(*step, (mean, value, n)),
        ensures
            value.nan() ==> final(self)@ == old(self)@,
            !value.nan() ==> adds(*step, old(self)@, value, final(self)@),
    {
        if value.is_nan() {
            return;
        }
        self.n = self.n + 1;
        self.mean = step(self.mean, value, self.n);
    }

    /// The mean.
    pub fn mean(&self) -> (r: M)
        ensures
            r == self@.mean,
    {
        self.mean
    }

    /// The number of values.
    pub fn count(&self) -> (r: usize)
        ensures
            r == self@.n,
    {
        self.n
    }
}

proof fn lemma_counted_empty(no_data: Option<PixelValue>)
    ensures
        counted(Seq::empty(), no_data) == Seq::<PixelValue>::empty(),
{
    reveal(Seq::filter);
}

/// One more value is one more that counts, or none.
proof fn lemma_counted_step(values: Seq<PixelValue>, i: int, no_data: Option<PixelValue>)
    requires
        0 <= i < values.len(),
    ensures
        counted(values.take(i + 1), no_data) == if counts(values[i], no_data) {
            counted(values.take(i), no_data).push(values[i])
        } else {
            counted(values.take(i), no_data)
        },
        counted(values.take(i + 1), no_data).len() <= counted(values, no_data).len(),
    decreases values.len() - i,
{
    reveal(Seq::filter);
    assert(values.take(i + 1).drop_last() =~= values.take(i));
    if i + 1 < values.len() {
        lemma_counted_step(values, i + 1, no_data);
    } else {
        assert(values.take(i + 1) =~= values);
    }
}

/// One more value leads one step further.
proof fn lemma_accumulates_step<M, F: Fn(M, PixelValue, usize) -> M>(
    step: F,
    before: MeanView<M>,
    values: Seq<PixelValue>,
    between: MeanView<M>,
    value: PixelValue,
    after: MeanView<M>,
)
    requires
        accumulates(step, before, values, between),
        adds(step, between, value, after),
    ensures
        accumulates(step, before, values.push(value), after),
{
    let course = choose|course: Seq<MeanView<M>>| #[trigger]
        is_course(step, values, course) && course.first() == before && course.last() == between;
    let longer = course.push(after);
    let all = values.push(value);
    assert forall|i: int| 0 <= i < all.len() implies adds(
        step,
        longer[i],
        #[trigger] all[i],
        longer[i + 1],
    ) by {
        if i < values.len() {
            assert(all[i] == values[i]);
        }
    }
    assert(is_course(step, all, longer));
    assert(longer.first() == before && longer.last() == after);
}

proof fn lemma_accumulates_nothing<M, F: Fn(M, PixelValue, usize) -> M>(
    step: F,
    mean: MeanView<M>,
)
    ensures
        accumulates(step, mean, Seq::empty(), mean),
{
    let course = seq![mean];
    assert(is_course(step, Seq::empty(), course));
    assert(course.first() == mean && course.last() == mean);
}

/// Every value is counted.
proof fn lemma_accumulates_count<M, F: Fn(M, PixelValue, usize) -> M>(
    step: F,
    before: MeanView<M>,
    values: Seq<PixelValue>,
    after: MeanView<M>,
)
    requires
        accumulates(step, before, values, after),
    ensures
        after.n == before.n + values.len(),
{
    let course = choose|course: Seq<MeanView<M>>| #[trigger]
        is_course(step, values, course) && course.first() == before && course.last() == after;
    lemma_course_count(step, values, course, values.len() as int);
}

proof fn lemma_course_count<M, F: Fn(M, PixelValue, usize) -> M>(
    step: F,
    values: Seq<PixelValue>,
    course: Seq<MeanView<M>>,
    i: int,
)
    requires
        is_course(step, values, course),
        0 <= i <= values.len(),
    ensures
        course[i].n == course[0].n + i,
    decreases i,
{
    if i > 0 {
        lemma_course_count(step, values, course, i - 1);
        assert(adds(step, course[i - 1], values[i - 1], course[i]));
    }
}

/// A mean over some values and then over others is a mean over all of them, and counts them.
pub proof fn law_means_compose<M, F: Fn(M, PixelValue, usize) -> M>(
    step: F,
    start: MeanView<M>,
    first: Seq<PixelValue>,
    middle: MeanView<M>,
    second: Seq<PixelValue>,
    end: MeanView<M>,
)
    requires
        accumulates(step, start, first, middle),
        accumulates(step, middle, second, end),
    ensures
        accumulates(step, start, first + second, end),
        end.n == start.n + first.len() + second.len(),
{
    lemma_accumulates_count(step, start, first, middle);
    lemma_accumulates_count(step, middle, second, end);
    let one = choose|course: Seq<MeanView<M>>| #[trigger]
        is_course(step, first, course) && course.first() == start && course.last() == middle;
    let two = choose|course: Seq<MeanView<M>>| #[trigger]
        is_course(step, second, course) && course.first() == middle && course.last() == end;
    let course = one + two.drop_first();
    let values = first + second;
    assert forall|i: int| 0 <= i < values.len() implies adds(
        step,
        course[i],
        #[trigger] values[i],
        course[i + 1],
    ) by {
        if i < first.len() {
            assert(adds(step, one[i], first[i], one[i + 1]));
        } else {
            let k = i - first.len();
            assert(adds(step, two[k], second[k], two[k + 1]));
        }
    }
    assert(is_course(step, values, course));
    assert(course.first() == start && course.last() == end);
}

/// Whether a step has one result for the same arguments.
pub open spec fn single_valued<M, F: Fn(M, PixelValue, usize) -> M>(step: F) -> bool {
    forall|before: M, value: PixelValue, n: usize, a: M, b: M| #[trigger]
        call_ensures(step, (before, value, n), a) && #[trigger] call_ensures(
            step,
            (before, value, n),
            b,
        ) ==> a == b
}

/// The same values take the same mean to the same result.
proof fn lemma_accumulates_unique<M, F: Fn(M, PixelValue, usize) -> M>(
    step: F,
    start: MeanView<M>,
    values: Seq<PixelValue>,
    a: MeanView<M>,
    b: MeanView<M>,
)
    requires
        single_valued(step),
        accumulates(step, start, values, a),
        accumulates(step, start, values, b),
    ensures
        a == b,
{
    let one = choose|course: Seq<MeanView<M>>| #[trigger]
        is_course(step, values, course) && course.first() == start && course.last() == a;
    let two = choose|course: Seq<MeanView<M>>| #[trigger]
        is_course(step, values, course) && course.first() == start && course.last() == b;
    lemma_course_unique(step, values, one, two, values.len() as int);
}

proof fn lemma_course_unique<M, F: Fn(M, PixelValue, usize) -> M>(
    step: F,
    values: Seq<PixelValue>,
    one: Seq<MeanView<M>>,
    two: Seq<MeanView<M>>,
    i: int,
)
    requires
        single_valued(step),
        is_course(step, values, one),
        is_course(step, values, two),
        one[0] == two[0],
        0 <= i <= values.len(),
    ensures
        one[i] == two[i],
    decreases i,
{
    if i > 0 {
        lemma_course_unique(step, values, one, two, i - 1);
        assert(adds(step, one[i - 1], values[i - 1], one[i]));
        assert(adds(step, two[i - 1], values[i - 1], two[i]));
    }
}

/// With a step that has one result for the same arguments, adding values in two parts and adding
/// them at once give the same mean and the same number of values; adding no values changes
/// nothing.
pub proof fn law_parts_equal_whole<M, F: Fn(M, PixelValue, usize) -> M>(
    step: F,
    start: MeanView<M>,
    first: Seq<PixelValue>,
    second: Seq<PixelValue>,
    no_data: Option<PixelValue>,
    middle: MeanView<M>,
    in_parts: MeanView<M>,
    at_once: MeanView<M>,
)
    requires
        single_valued(step),
        accumulates(step, start, counted(first, no_data), middle),
        accumulates(step, middle, counted(second, no_data), in_parts),
        accumulates(step, start, counted(first + second, no_data), at_once),
    ensures
        in_parts == at_once,
        first.len() == 0 ==> middle == start,
{
    let pred = |value: PixelValue| counts(value, no_data);
    Seq::filter_distributes_over_add(first, second, pred);
    assert(counted(first + second, no_data) =~= counted(first, no_data) + counted(
        second,
        no_data,
    ));
    law_means_compose(
        step,
        start,
        counted(first, no_data),
        middle,
        counted(second, no_data),
        in_parts,
    );
    lemma_accumulates_unique(
        step,
        start,
        counted(first + second, no_data),
        in_parts,
        at_once,
    );
    if first.len() == 0 {
        assert(first =~= Seq::empty());
        lemma_counted_empty(no_data);
    }
}

/// Whether values in two parts, the first one added before the second one, take a mean to another
/// one.
pub open spec fn accumulates_parts<M, F: Fn(M, PixelValue, usize) -> M>(
    step: F,
    start: MeanView<M>,
    first: Seq<PixelValue>,
    second: Seq<PixelValue>,
    end: MeanView<M>,
) -> bool {
    exists|middle: MeanView<M>| #[trigger]
        accumulates(step, start, first, middle) && accumulates(step, middle, second, end)
}

/// Whatever the step, the results of adding values in two parts are the results of adding them at
/// once.
pub proof fn law_parts_reach_what_whole_reaches<M, F: Fn(M, PixelValue, usize) -> M>(
    step: F,
    start: MeanView<M>,
    first: Seq<PixelValue>,
    second: Seq<PixelValue>,
    no_data: Option<PixelValue>,
    end: MeanView<M>,
)
    ensures
        accumulates(step, start, counted(first + second, no_data), end) <==> accumulates_parts(
            step,
            start,
            counted(first, no_data),
            counted(second, no_data),
            end,
        ),
{
    let a = counted(first, no_data);
    let b = counted(second, no_data);
    Seq::filter_distributes_over_add(first, second, |value: PixelValue| counts(value, no_data));
    assert(counted(first + second, no_data) =~= a + b);
    if accumulates(step, start, a + b, end) {
        let course = choose|course: Seq<MeanView<M>>| #[trigger]
            is_course(step, a + b, course) && course.first() == start && course.last() == end;
        let n = a.len() as int;
        let one = course.take(n + 1);
        let two = course.skip(n);
        assert forall|i: int| 0 <= i < a.len() implies adds(
            step,
            one[i],
            #[trigger] a[i],
            one[i + 1],
        ) by {
            assert((a + b)[i] == a[i]);
        }
        assert forall|i: int| 0 <= i < b.len() implies adds(
            step,
            two[i],
            #[trigger] b[i],
            two[i + 1],
        ) by {
            assert((a + b)[n + i] == b[i]);
        }
        assert(is_course(step, a, one) && one.first() == start && one.last() == course[n]);
        assert(is_course(step, b, two) && two.first() == course[n] && two.last() == end);
        assert(accumulates(step, start, a, course[n]));
    }
    if accumulates_parts(step, start, a, b, end) {
        let middle = choose|middle: MeanView<M>| #[trigger]
            accumulates(step, start, a, middle) && accumulates(step, middle, b, end);
        law_means_compose(step, start, a, middle, b, end);
    }
}

/// The mean that a tile adds to.
pub open spec fn mean_at<M>(means: Map<i64, MeanView<M>>, time: i64, zero: M) -> MeanView<M> {
    if means.contains_key(time) {
        means[time]
    } else {
        MeanView { mean: zero, n: 0 }
    }
}

/// A tile of a raster: its time interval, its values, and the value that stands for missing data.
pub struct TileView {
    pub time: (int, int),
    pub values: Seq<PixelValue>,
    pub no_data: Option<PixelValue>,
}

impl TileView {
    /// The point in time that stands for the tile.
    pub open spec fn at(self, position: TemporalRasterMeanPlotTimePosition) -> i64 {
        projected(self.time, position) as i64
    }

    /// The values of the tile that count.
    pub open spec fn counted(self) -> Seq<PixelValue> {
        counted(self.values, self.no_data)
    }
}

/// Whether a tile takes means to other ones: its values that count are added to the mean at its
/// point in time, and the other means stay as they are.
pub open spec fn adds_tile<M, F: Fn(M, PixelValue, usize) -> M>(
    step: F,
    position: TemporalRasterMeanPlotTimePosition,
    zero: M,
    before: Map<i64, MeanView<M>>,
    tile: TileView,
    after: Map<i64, MeanView<M>>,
) -> bool {
    let at = tile.at(position);
    &&& after == before.insert(at, after[at])
    &&& accumulates(step, mean_at(before, at, zero), tile.counted(), after[at])
}

/// Whether tiles lead from one set of means to the next, beginning without means.
pub open spec fn is_tile_course<M, F: Fn(M, PixelValue, usize) -> M>(
    step: F,
    position: TemporalRasterMeanPlotTimePosition,
    zero: M,
    tiles: Seq<TileView>,
    course: Seq<Map<i64, MeanView<M>>>,
) -> bool {
    &&& course.len() == tiles.len() + 1
    &&& course[0] == Map::<i64, MeanView<M>>::empty()
    &&& forall|i: int|
        0 <= i < tiles.len() ==> adds_tile(
            step,
            position,
            zero,
            course[i],
            #[trigger] tiles[i],
            course[i + 1],
        )
}

/// The values that count in the first `n` tiles at a point in time, tile by tile.
pub open spec fn counted_at(
    tiles: Seq<TileView>,
    position: TemporalRasterMeanPlotTimePosition,
    time: i64,
    n: nat,
) -> Seq<PixelValue>
    decreases n,
{
    if n == 0 || n > tiles.len() {
        Seq::empty()
    } else {
        let before = counted_at(tiles, position, time, (n - 1) as nat);
        if tiles[n - 1].at(position) == time {
            before + tiles[n - 1].counted()
        } else {
            before
        }
    }
}

/// After any tiles there is a mean for exactly the points in time that stand for them, and each
/// mean is that of all values that count in the tiles at its point in time, in their order.
pub proof fn law_means_cover_tiles<M, F: Fn(M, PixelValue, usize) -> M>(
    step: F,
    position: TemporalRasterMeanPlotTimePosition,
    zero: M,
    tiles: Seq<TileView>,
    course: Seq<Map<i64, MeanView<M>>>,
)
    requires
        is_tile_course(step, position, zero, tiles, course),
    ensures
        forall|time: i64| #[trigger]
            course.last().contains_key(time) <==> exists|i: int|
                0 <= i < tiles.len() && (#[trigger] tiles[i]).at(position) == time,
        forall|time: i64| #[trigger]
            course.last().contains_key(time) ==> accumulates(
                step,
                MeanView { mean: zero, n: 0 },
                counted_at(tiles, position, time, tiles.len()),
                course.last()[time],
            ),
{
    assert forall|time: i64| #[trigger] course.last().contains_key(time) <==> exists|i: int|
        0 <= i < tiles.len() && (#[trigger] tiles[i]).at(position) == time by {
        lemma_mean_covers_tiles(step, position, zero, tiles, course, time, tiles.len());
    }
    assert forall|time: i64| #[trigger] course.last().contains_key(time) implies accumulates(
        step,
        MeanView { mean: zero, n: 0 },
        counted_at(tiles, position, time, tiles.len()),
        course.last()[time],
    ) by {
        lemma_mean_covers_tiles(step, position, zero, tiles, course, time, tiles.len());
    }
}

/// What holds of a point in time after the first `n` tiles.
proof fn lemma_mean_covers_tiles<M, F: Fn(M, PixelValue, usize) -> M>(
    step: F,
    position: TemporalRasterMeanPlotTimePosition,
    zero: M,
    tiles: Seq<TileView>,
    course: Seq<Map<i64, MeanView<M>>>,
    time: i64,
    n: nat,
)
    requires
        is_tile_course(step, position, zero, tiles, course),
        n <= tiles.len(),
    ensures
        course[n as int].contains_key(time) <==> exists|i: int|
            0 <= i < n && (#[trigger] tiles[i]).at(position) == time,
        accumulates(
            step,
            MeanView { mean: zero, n: 0 },
            counted_at(tiles, position, time, n),
            mean_at(course[n as int], time, zero),
        ),
    decreases n,
{
    let fresh = MeanView { mean: zero, n: 0 };
    if n == 0 {
        lemma_accumulates_nothing(step, fresh);
    } else {
        let k = n - 1;
        lemma_mean_covers_tiles(step, position, zero, tiles, course, time, k as nat);
        let tile = tiles[k];
        assert(adds_tile(step, position, zero, course[k], tile, course[n as int]));
        if tile.at(position) == time {
            law_means_compose(
                step,
                fresh,
                counted_at(tiles, position, time, k as nat),
                mean_at(course[k], time, zero),
                tile.counted(),
                course[n as int][time],
            );
        } else if course[n as int].contains_key(time) {
            let i = choose|i: int| 0 <= i < k && (#[trigger] tiles[i]).at(position) == time;
            assert(0 <= i < n && tiles[i].at(position) == time);
        }
    }
}

/// The means of rasters by their points in time.
#[derive(Debug)]
pub struct TemporalRasterMeanPlotQueryProcessor<M> {
    time_position: TemporalRasterMeanPlotTimePosition,
    zero: M,
    means: BTreeMap<i64, MeanCalculator<M>>,
}

/// The points of an area plot.
#[derive(Debug)]
pub struct AreaLineChart<M> {
    pub timestamps: Vec<i64>,
    pub values: Vec<M>,
}

impl<R> InitializedTemporalRasterMeanPlot<R> {
    /// The processor of the plot, before any tiles. The mean of no values is `zero`.
    pub fn query_processor<M: Copy>(&self, zero: M) -> (r: TemporalRasterMeanPlotQueryProcessor<M>)
        ensures
            r.position() == self.params.time_position,
            r.zero_mean() == zero,
            r@ == Map::<i64, MeanView<M>>::empty(),
    {
        TemporalRasterMeanPlotQueryProcessor::new(self.params.time_position, zero)
    }
}

impl<M: Copy> TemporalRasterMeanPlotQueryProcessor<M> {
    /// Where the tick on the time axis is positioned.
    pub closed spec fn position(&self) -> TemporalRasterMeanPlotTimePosition {
        self.time_position
    }

    /// The mean of no values.
    pub closed spec fn zero_mean(&self) -> M {
        self.zero
    }

    /// The means so far.
    pub closed spec fn view(&self) -> Map<i64, MeanView<M>> {
        self.means@.map_values(|mean: MeanCalculator<M>| mean@)
    }

    /// No means yet.
    pub fn new(time_position: TemporalRasterMeanPlotTimePosition, zero: M) -> (r: Self)
        ensures
            r.position() == time_position,
            r.zero_mean() == zero,
            r@ == Map::<i64, MeanView<M>>::empty(),
    {
        let r = Self { time_position, zero, means: BTreeMap::new() };
        assert(r@ =~= Map::empty());
        r
    }

    /// The number of values that the mean for a time interval is the mean of.
    pub fn count_at(&self, time: TimeInterval) -> (r: usize)
        ensures
            r == mean_at(
                self@,
                projected(time@, self.position()) as i64,
                self.zero_mean(),
            ).n,
    {
        let time: i64 = time_interval_projection(time, self.time_position);
        match self.means.get(&time) {
            Some(mean) => mean.count(),
            None => 0,
        }
    }

    /// Adds the values of a tile to the mean for its time interval.
    pub fn calculate_means<F: Fn(M, PixelValue, usize) -> M>(
        &mut self,
        time: TimeInterval,
        values: &Vec<PixelValue>,
        no_data: Option<PixelValue>,
        step: &F,
    )
        requires
            mean_at(
                old(self)@,
                projected(time@, old(self).position()) as i64,
                old(self).zero_mean(),
            ).n + counted(values@, no_data).len() <= usize::MAX,
            forall|mean: M, value: PixelValue, n: usize| call_requires(*step, (mean, value, n)),
        ensures
            final(self).position() == old(self).position(),
            final(self).zero_mean() == old(self).zero_mean(),
            adds_tile(
                *step,
                old(self).position(),
                old(self).zero_mean(),
                old(self)@,
                TileView { time: time@, values: values@, no_data },
                final(self)@,
            ),
    {
        let ghost before = self@;
        let at: i64 = time_interval_projection(time, self.time_position);
        let mut mean = match self.means.remove(&at) {
            Some(mean) => mean,
            None => MeanCalculator::new(self.zero),
        };
        mean.add(values, no_data, step);
        let ghost after = mean@;
        self.means.insert(at, mean);
        assert(self@[at] == after);
        assert(self@ =~= before.insert(at, after));
    }

    /// The points in time, in ascending order, with their means.
    pub fn generate_plot(&self) -> (r: AreaLineChart<M>)
        ensures
            r.timestamps@.len() == r.values@.len(),
            forall|i: int, j: int|
                0 <= i < j < r.timestamps@.len() ==> r.timestamps@[i] < r.timestamps@[j],
            forall|time: i64| #[trigger] self@.contains_key(time) <==> r.timestamps@.contains(time),
            forall|i: int|
                0 <= i < r.timestamps@.len() ==> #[trigger] r.values@[i]
                    == self@[r.timestamps@[i]].mean,
    {
        let mut timestamps: Vec<i64> = Vec::new();
        let mut values: Vec<M> = Vec::new();
        let entries = self.means.iter();
        let ghost all = entries.remaining();
        let ghost keys = all.map_values(|entry: (&i64, &MeanCalculator<M>)| *entry.0);
        assert(vstd::std_specs::btree::increasing_seq(keys));
        assert forall|i: int, j: int| 0 <= i < j < all.len() implies *all[i].0 < *all[j].0 by {
            assert(keys[i].cmp_spec(&keys[j]) is Less);
        }
        assert forall|i: int| 0 <= i < all.len() implies self.means@.contains_key(
            *(#[trigger] all[i]).0,
        ) && self.means@[*all[i].0] == *all[i].1 by {}
        assert forall|time: i64| self.means@.contains_key(time) implies exists|i: int|
            0 <= i < all.len() && *(#[trigger] all[i]).0 == time by {
            assert(all.contains((&time, &self.means@[time])));
        }
        for entry in it: entries
            invariant
                it.seq() == all,
                timestamps@.len() == it.index(),
                values@.len() == it.index(),
                forall|k: int|
                    0 <= k < it.index() ==> (#[trigger] timestamps@[k]) == *all[k].0,
                forall|k: int| 0 <= k < it.index() ==> (#[trigger] values@[k]) == all[k].1@.mean,
        {
            timestamps.push(*entry.0);
            values.push(entry.1.mean());
        }
        assert forall|time: i64| #[trigger] self@.contains_key(time) <==> timestamps@.contains(
            time,
        ) by {
            if self@.contains_key(time) {
                let i = choose|i: int| 0 <= i < all.len() && *(#[trigger] all[i]).0 == time;
                assert(timestamps@[i] == time);
            }
            if timestamps@.contains(time) {
                let i = choose|i: int| 0 <= i < timestamps@.len() && timestamps@[i] == time;
                assert(self.means@.contains_key(*all[i].0));
            }
        }
        AreaLineChart { timestamps, values }
    }
}

/// The start of an interval is the earliest, its end the latest instant of it, and its center is as
/// far from the one as from the other, up to the last millisecond.
pub proof fn law_projection_positions(time_interval: (int, int), instant: int)
    requires
        time_interval.0 <= instant <= time_interval.1,
    ensures
        ({
            let start = projected(time_interval, TemporalRasterMeanPlotTimePosition::Start);
            let center = projected(time_interval, TemporalRasterMeanPlotTimePosition::Center);
            let end = projected(time_interval, TemporalRasterMeanPlotTimePosition::End);
            &&& start <= instant <= end
            &&& start == end <==> time_interval.0 == time_interval.1
            &&& 0 <= (end - center) - (center - start) <= 1
        }),
{
}

/// What is not a number, or the value for missing data, does not count wherever it stands; every
/// other value counts, at its place.
pub proof fn law_missing_data_are_left_out(
    front: Seq<PixelValue>,
    value: PixelValue,
    back: Seq<PixelValue>,
    no_data: Option<PixelValue>,
)
    ensures
        value.nan() || (no_data is Some && value.same(no_data->0)) ==> counted(
            front.push(value) + back,
            no_data,
        ) == counted(front + back, no_data),
        !value.nan() && (no_data is None || !value.same(no_data->0)) ==> counted(
            front.push(value) + back,
            no_data,
        ) == counted(front, no_data).push(value) + counted(back, no_data),
{
    let keep = |value: PixelValue| counts(value, no_data);
    Seq::filter_distributes_over_add(front.push(value), back, keep);
    Seq::filter_distributes_over_add(front, back, keep);
    assert(front.push(value).drop_last() =~= front);
    reveal(Seq::filter);
}

/// When values are added to nothing, each of them comes with its number: the first one as the
/// first, and the last mean is that of as many values as there are.
pub proof fn law_values_are_numbered<M, F: Fn(M, PixelValue, usize) -> M>(
    step: F,
    values: Seq<PixelValue>,
    course: Seq<MeanView<M>>,
    i: int,
)
    requires
        is_course(step, values, course),
        course[0].n == 0,
        values.len() <= usize::MAX,
        0 <= i < values.len(),
    ensures
        course[i].n == i,
        course[i + 1].n == i + 1,
        call_ensures(step, (course[i].mean, values[i], (i + 1) as usize), course[i + 1].mean),
    decreases i,
{
    if i > 0 {
        law_values_are_numbered(step, values, course, i - 1);
    }
    assert(adds(step, course[i], values[i], course[i + 1]));
}

} // verus!
