use vstd::prelude::*;
use vstd::arithmetic::div_mod::{lemma_fundamental_div_mod, lemma_fundamental_div_mod_converse};
use vstd::arithmetic::mul::lemma_mul_is_commutative;
use crate::error::NumericalError;
use crate::nest::{LoopNest, Position};
use crate::shape::{elementwise_of, Shape};

verus! {

/// One term of a convolution: the kernel of `channel`, laid on that channel
/// with its top left corner at `(row, col)`, multiplied with what it covers
/// entry by entry and summed up, is added to the output cell `(row, col)`.
#[derive(Clone, Copy, Debug, PartialEq, Eq, Structural)]
pub struct ConvolutionStep {
    pub row: usize,
    pub col: usize,
    pub channel: usize,
}

/// The terms of one multi-channel convolution, in the order in which they are
/// added up.
///
/// Every channel has a kernel of its own. The kernel is slid over the channel
/// as it stands, without being flipped. The output cells are filled row by
/// row; each cell takes its terms in the order of the channels.
#[derive(Clone, Copy, Debug)]
pub struct ConvolutionPlan {
    kernel: Shape,
    channel: Shape,
    channels: usize,
}

/// Whether all shapes of a list are the same.
pub open spec fn uniform(shapes: Seq<Shape>) -> bool {
    forall|i: int| 0 <= i < shapes.len() ==> #[trigger] shapes[i] == shapes[0]
}

/// Number of cells of the output of a kernel slid over a channel in which it
/// fits: one cell for every place the kernel can take.
pub open spec fn output_entries(kernel: Shape, channel: Shape) -> int {
    (channel.nrows - kernel.nrows + 1) * (channel.ncols - kernel.ncols + 1)
}

/// The fault, if any, for which a convolution is turned down.
///
/// - Kernels and channels that are not equal in number, or none at all, are
///   an `InvalidArgument`.
/// - Kernels of different shapes, channels of different shapes, a kernel
///   with more rows or more columns than a channel, and an output with more
///   cells than can be counted are a `DimensionMismatch`.
pub open spec fn convolution_fault(kernels: Seq<Shape>, channels: Seq<Shape>) -> Option<
    NumericalError,
> {
    if kernels.len() != channels.len() || kernels.len() == 0 {
        Some(NumericalError::InvalidArgument)
    } else if !uniform(kernels) || !uniform(channels) || kernels[0].nrows > channels[0].nrows
        || kernels[0].ncols > channels[0].ncols || output_entries(kernels[0], channels[0])
        > usize::MAX {
        Some(NumericalError::DimensionMismatch)
    } else {
        None
    }
}

impl ConvolutionPlan {
    pub closed spec fn spec_kernel(&self) -> Shape {
        self.kernel
    }

    pub closed spec fn spec_channel(&self) -> Shape {
        self.channel
    }

    pub closed spec fn spec_channels(&self) -> usize {
        self.channels
    }

    /// What `new` establishes of every plan it hands out.
    pub open spec fn wf(&self) -> bool {
        &&& self.channels() >= 1
        &&& self.kernel().nrows <= self.channel().nrows
        &&& self.kernel().ncols <= self.channel().ncols
        &&& output_entries(self.kernel(), self.channel()) <= usize::MAX
    }

    /// Shape of the output: one cell for every place of the kernel on a
    /// channel.
    pub open spec fn spec_output(&self) -> Shape {
        output_shape(self.kernel(), self.channel())
    }

    /// Number of terms of the whole convolution.
    pub open spec fn count(&self) -> nat {
        (self.output().nrows * self.output().ncols * self.channels()) as nat
    }

    /// Whether `step` is a term of this convolution.
    pub open spec fn contains(&self, step: ConvolutionStep) -> bool {
        step.row < self.output().nrows && step.col < self.output().ncols && step.channel
            < self.channels()
    }

    /// Number of terms that are added before `step`.
    pub open spec fn rank(&self, step: ConvolutionStep) -> nat {
        ((step.row * self.output().ncols + step.col) * self.channels() + step.channel) as nat
    }

    /// The term that `r` terms precede.
    pub open spec fn step_at(&self, r: nat) -> ConvolutionStep {
        ConvolutionStep {
            row: ((r / self.channels() as nat) / self.output().ncols as nat) as usize,
            col: ((r / self.channels() as nat) % self.output().ncols as nat) as usize,
            channel: (r % self.channels() as nat) as usize,
        }
    }

    /// Shape of the entry-by-entry product of the kernel with what it covers
    /// at `step`, or the fault of cutting the window or of multiplying.
    pub open spec fn term_shape(&self, step: ConvolutionStep) -> Result<Shape, NumericalError> {
        elementwise_of(
            Ok(self.kernel()),
            self.channel().window(step.row, step.col, self.kernel()),
        )
    }

    spec fn nest(&self) -> LoopNest {
        LoopNest {
            outer: self.spec_output().nrows as u128,
            middle: self.spec_output().ncols,
            inner: self.channels,
        }
    }

    spec fn position(step: ConvolutionStep) -> Position {
        Position { outer: step.row as u128, middle: step.col, inner: step.channel }
    }

    spec fn step_of(p: Position) -> ConvolutionStep {
        ConvolutionStep { row: p.outer as usize, col: p.middle, channel: p.inner }
    }

    proof fn lemma_output(&self)
        requires
            self.wf(),
        ensures
            self.output().nrows == self.channel().nrows - self.kernel().nrows + 1,
            self.output().ncols == self.channel().ncols - self.kernel().ncols + 1,
    {
        let h = self.channel().nrows - self.kernel().nrows + 1;
        let w = self.channel().ncols - self.kernel().ncols + 1;
        assert(h <= usize::MAX && w <= usize::MAX) by (nonlinear_arith)
            requires
                h >= 1,
                w >= 1,
                h * w <= usize::MAX,
        ;
    }

    /// Plans the convolution of channels of the shapes `channels` with
    /// kernels of the shapes `kernels`; the kernel at an index belongs to the
    /// channel at that index.
    ///
    /// Fails with the fault that `convolution_fault` names, and only then.
    pub fn new(kernels: &Vec<Shape>, channels: &Vec<Shape>) -> (made: Result<
        ConvolutionPlan,
        NumericalError,
    >)
        ensures
            match made {
                Ok(plan) => convolution_fault(kernels@, channels@) is None && plan.wf()
                    && plan.kernel() == kernels@[0] && plan.channel() == channels@[0]
                    && plan.channels() == kernels@.len(),
                Err(fault) => convolution_fault(kernels@, channels@) == Some(fault),
            },
    {
        let n: usize = kernels.len();
        if n != channels.len() || n == 0 {
            return Err(NumericalError::InvalidArgument);
        }
        let kernel: Shape = kernels[0];
        let channel: Shape = channels[0];
        let mut i: usize = 1;
        while i < n
            invariant
                1 <= i <= n,
                n == kernels@.len(),
                n == channels@.len(),
                kernel == kernels@[0],
                channel == channels@[0],
                forall|j: int| 0 <= j < i ==> kernels@[j] == kernel,
                forall|j: int| 0 <= j < i ==> channels@[j] == channel,
            decreases n - i,
        {
            let k: Shape = kernels[i];
            let c: Shape = channels[i];
            if k.nrows != kernel.nrows || k.ncols != kernel.ncols || c.nrows != channel.nrows
                || c.ncols != channel.ncols {
                assert(!uniform(kernels@) || !uniform(channels@));
                return Err(NumericalError::DimensionMismatch);
            }
            i += 1;
        }
        assert(uniform(kernels@) && uniform(channels@));
        if kernel.nrows > channel.nrows || kernel.ncols > channel.ncols {
            return Err(NumericalError::DimensionMismatch);
        }
        let rows: usize = channel.nrows - kernel.nrows;
        let cols: usize = channel.ncols - kernel.ncols;
        if rows == usize::MAX || cols == usize::MAX {
            assert(output_entries(kernel, channel) > usize::MAX) by (nonlinear_arith)
                requires
                    output_entries(kernel, channel) == (rows + 1) * (cols + 1),
                    rows == usize::MAX || cols == usize::MAX,
                    rows >= 0,
                    cols >= 0,
            ;
            return Err(NumericalError::DimensionMismatch);
        }
        match (rows + 1).checked_mul(cols + 1) {
            Some(_) => Ok(ConvolutionPlan { kernel, channel, channels: n }),
            None => Err(NumericalError::DimensionMismatch),
        }
    }

    /// Shape that all kernels share.
    #[verifier::when_used_as_spec(spec_kernel)]
    pub fn kernel(&self) -> (shape: Shape)
        ensures
            shape == self.spec_kernel(),
    {
        self.kernel
    }

    /// Shape that all channels share.
    #[verifier::when_used_as_spec(spec_channel)]
    pub fn channel(&self) -> (shape: Shape)
        ensures
            shape == self.spec_channel(),
    {
        self.channel
    }

    /// Number of channels, which is the number of kernels.
    #[verifier::when_used_as_spec(spec_channels)]
    pub fn channels(&self) -> (n: usize)
        ensures
            n == self.spec_channels(),
    {
        self.channels
    }

    /// Shape of the output. Every cell starts at zero and collects one term
    /// per channel.
    #[verifier::when_used_as_spec(spec_output)]
    pub fn output(&self) -> (shape: Shape)
        requires
            self.wf(),
        ensures
            shape == self.spec_output(),
    {
        proof {
            self.lemma_output();
        }
        Shape {
            nrows: self.channel.nrows - self.kernel.nrows + 1,
            ncols: self.channel.ncols - self.kernel.ncols + 1,
        }
    }

    proof fn lemma_nest_at(&self, r: nat)
        requires
            self.wf(),
            r < self.count(),
        ensures
            self.nest().count() == self.count(),
            self.nest().contains(self.nest().at(r)),
            Self::step_of(self.nest().at(r)) == self.step_at(r),
            Self::position(self.step_at(r)) == self.nest().at(r),
    {
        self.nest().lemma_rank_at(r);
    }

    /// Every term of the convolution has a place of its own in the order,
    /// and `step_at` finds the term from its place.
    pub proof fn lemma_step_at_rank(&self, step: ConvolutionStep)
        requires
            self.wf(),
            self.contains(step),
        ensures
            self.rank(step) < self.count(),
            self.step_at(self.rank(step)) == step,
    {
        self.nest().lemma_at_rank(Self::position(step));
        self.lemma_nest_at(self.rank(step));
        assert(Self::step_of(Self::position(step)) == step);
    }

    /// Every place below `count` holds a term of the convolution.
    pub proof fn lemma_rank_step_at(&self, r: nat)
        requires
            self.wf(),
            r < self.count(),
        ensures
            self.contains(self.step_at(r)),
            self.rank(self.step_at(r)) == r,
    {
        self.nest().lemma_rank_at(r);
        self.lemma_nest_at(r);
    }

    /// At every term the kernel lies wholly on its channel, so the window it
    /// covers has the kernel's shape and their product is defined; and the
    /// term's cell is a cell of the output.
    pub proof fn lemma_term_defined(&self, step: ConvolutionStep)
        requires
            self.wf(),
            self.contains(step),
        ensures
            self.term_shape(step) == Ok::<Shape, NumericalError>(self.kernel()),
            step.row + self.kernel().nrows <= self.channel().nrows,
            step.col + self.kernel().ncols <= self.channel().ncols,
            self.output().window(step.row, step.col, Shape { nrows: 1, ncols: 1 }) is Ok,
    {
        self.lemma_output();
    }

    /// The first term of the convolution.
    pub fn first(&self) -> (start: Option<ConvolutionStep>)
        requires
            self.wf(),
        ensures
            start == if self.count() > 0 {
                Some(self.step_at(0))
            } else {
                None::<ConvolutionStep>
            },
    {
        let out = self.output();
        let nest = LoopNest { outer: out.nrows as u128, middle: out.ncols, inner: self.channels };
        match nest.first() {
            Some(p) => {
                proof {
                    self.lemma_nest_at(0);
                }
                Some(ConvolutionStep { row: p.outer as usize, col: p.middle, channel: p.inner })
            },
            None => None,
        }
    }

    /// The term that follows `step`, if there is one.
    ///
    /// The terms of a cell follow each other in the order of the channels;
    /// the cells follow each other along a row, and the rows from the top
    /// down. A step that is no term of this convolution has no successor.
    pub fn next(&self, step: ConvolutionStep) -> (following: Option<ConvolutionStep>)
        requires
            self.wf(),
        ensures
            following == if self.contains(step) && self.rank(step) + 1 < self.count() {
                Some(self.step_at(self.rank(step) + 1))
            } else {
                None::<ConvolutionStep>
            },
    {
        let out = self.output();
        let nest = LoopNest { outer: out.nrows as u128, middle: out.ncols, inner: self.channels };
        let p = Position { outer: step.row as u128, middle: step.col, inner: step.channel };
        assert(p == Self::position(step));
        match nest.next(p) {
            Some(q) => {
                proof {
                    self.lemma_nest_at((self.rank(step) + 1) as nat);
                }
                Some(ConvolutionStep { row: q.outer as usize, col: q.middle, channel: q.inner })
            },
            None => None,
        }
    }
}

/// The outcome of a convolution: the cells of the output, row after row.
pub struct Convolved<T> {
    /// Shape of the output.
    pub shape: Shape,
    /// The cell at `(row, col)` stands at index `row * shape.ncols + col`.
    pub cells: Vec<T>,
}

/// Shape of the output of a kernel slid over a channel in which it fits.
pub open spec fn output_shape(kernel: Shape, channel: Shape) -> Shape {
    Shape {
        nrows: (channel.nrows - kernel.nrows + 1) as usize,
        ncols: (channel.ncols - kernel.ncols + 1) as usize,
    }
}

/// Whether `sums` lists what the cell at `(row, col)` holds before its first
/// term and after each of the terms of the first `channels` channels: it
/// starts at `zero`, and every later entry is what one call of `add_term`
/// returned for the entry before it and the term whose turn it was.
pub open spec fn cell_trace<T, F: Fn(T, ConvolutionStep) -> T>(
    add_term: F,
    zero: T,
    row: usize,
    col: usize,
    channels: nat,
    sums: Seq<T>,
) -> bool {
    &&& sums.len() == channels + 1
    &&& sums[0] == zero
    &&& forall|c: int|
        0 <= c < channels ==> call_ensures(
            add_term,
            (#[trigger] sums[c], ConvolutionStep { row, col, channel: c as usize }),
            sums[c + 1],
        )
}

/// Whether `cell` can be what the cell at `(row, col)` holds when the terms
/// of all `channels` channels have been added to `zero`, in the order of the
/// channels.
pub open spec fn cell_holds<T, F: Fn(T, ConvolutionStep) -> T>(
    add_term: F,
    zero: T,
    row: usize,
    col: usize,
    channels: nat,
    cell: T,
) -> bool {
    exists|sums: Seq<T>| #[trigger]
        cell_trace(add_term, zero, row, col, channels, sums) && sums.last() == cell
}

proof fn lemma_next_term(r: int, c: int)
    requires
        0 <= r,
        0 < c,
    ensures
        r % c + 1 == c ==> (r + 1) / c == r / c + 1 && (r + 1) % c == 0,
        r % c + 1 != c ==> (r + 1) / c == r / c && (r + 1) % c == r % c + 1,
{
    lemma_fundamental_div_mod(r, c);
    lemma_mul_is_commutative(c, r / c);
    if r % c + 1 == c {
        assert(r + 1 == (r / c + 1) * c + 0) by (nonlinear_arith)
            requires
                r == (r / c) * c + r % c,
                r % c + 1 == c,
        ;
        lemma_fundamental_div_mod_converse(r + 1, c, r / c + 1, 0);
    } else {
        lemma_fundamental_div_mod_converse(r + 1, c, r / c, r % c + 1);
    }
}

/// Convolves channels of the shapes `channels` with kernels of the shapes
/// `kernel`; the kernel at an index belongs to the channel at that index.
///
/// Every cell of the output starts at `zero` and takes one term per channel,
/// in the order of the channels. `add_term` takes what a cell holds so far
/// and a term, and returns the cell with that term added: the kernel of the
/// term's channel, laid on the channel with its top left corner at the cell's
/// row and column, multiplied with what it covers entry by entry and summed
/// up. The kernel is not flipped.
///
/// Fails with the fault that `convolution_fault` names, and only then.
pub fn convolution<T: Copy, F: Fn(T, ConvolutionStep) -> T>(
    kernel: &Vec<Shape>,
    channels: &Vec<Shape>,
    zero: T,
    add_term: F,
) -> (convolved: Result<Convolved<T>, NumericalError>)
    requires
        convolution_fault(kernel@, channels@) is None ==> forall|sum: T, term: ConvolutionStep|
            term.row < output_shape(kernel@[0], channels@[0]).nrows && term.col < output_shape(
                kernel@[0],
                channels@[0],
            ).ncols && term.channel < kernel@.len() ==> call_requires(add_term, (sum, term)),
    ensures
        match convolved {
            Ok(output) => {
                &&& convolution_fault(kernel@, channels@) is None
                &&& output.shape == output_shape(kernel@[0], channels@[0])
                &&& output.cells.len() == output.shape.entries()
                &&& forall|row: usize, col: usize|
                    row < output.shape.nrows && col < output.shape.ncols ==> cell_holds(
                        add_term,
                        zero,
                        row,
                        col,
                        kernel@.len(),
                        #[trigger] output.cells@[row * output.shape.ncols + col],
                    )
            },
            Err(fault) => convolution_fault(kernel@, channels@) == Some(fault),
        },
{
    let plan = match ConvolutionPlan::new(kernel, channels) {
        Ok(plan) => plan,
        Err(fault) => {
            return Err(fault);
        },
    };
    let shape = plan.output();
    let depth: usize = plan.channels();
    let ghost width = shape.ncols as int;
    let mut cells: Vec<T> = Vec::new();
    let mut sum = zero;
    let ghost mut sums: Seq<T> = seq![zero];
    let ghost mut r: nat = 0;
    let mut step = plan.first();
    proof {
        plan.lemma_output();
    }
    while step.is_some()
        invariant
            forall|sum: T, term: ConvolutionStep|
                plan.contains(term) ==> call_requires(add_term, (sum, term)),
            plan.wf(),
            shape == plan.output(),
            depth == plan.channels(),
            depth == kernel@.len(),
            width == shape.ncols,
            r <= plan.count(),
            step == if r < plan.count() {
                Some(plan.step_at(r))
            } else {
                None::<ConvolutionStep>
            },
            cells.len() == r as int / depth as int,
            sums.len() == r as int % depth as int + 1,
            sums[0] == zero,
            sums.last() == sum,
            forall|c: int|
                0 <= c < r as int % depth as int ==> call_ensures(
                    add_term,
                    (
                        #[trigger] sums[c],
                        ConvolutionStep {
                            row: ((r as int / depth as int) / width) as usize,
                            col: ((r as int / depth as int) % width) as usize,
                            channel: c as usize,
                        },
                    ),
                    sums[c + 1],
                ),
            forall|k: int|
                0 <= k < cells.len() ==> cell_holds(
                    add_term,
                    zero,
                    (k / width) as usize,
                    (k % width) as usize,
                    depth as nat,
                    #[trigger] cells@[k],
                ),
        decreases plan.count() - r,
    {
        let term = step.unwrap();
        proof {
            plan.lemma_rank_step_at(r);
            lemma_next_term(r as int, depth as int);
        }
        sum = add_term(sum, term);
        proof {
            sums = sums.push(sum);
        }
        if term.channel + 1 == depth {
            proof {
                assert(cell_trace(add_term, zero, term.row, term.col, depth as nat, sums));
            }
            cells.push(sum);
            sum = zero;
            proof {
                sums = seq![zero];
            }
        }
        step = plan.next(term);
        proof {
            r = r + 1;
        }
    }
    proof {
        let h = shape.nrows as int;
        let w = shape.ncols as int;
        let d = depth as int;
        assert(plan.count() == (h * w) * d);
        lemma_fundamental_div_mod_converse(r as int, d, h * w, 0);
        assert forall|row: usize, col: usize| row < shape.nrows && col < shape.ncols implies cell_holds(
            add_term,
            zero,
            row,
            col,
            kernel@.len(),
            #[trigger] cells@[row * shape.ncols + col],
        ) by {
            let k = row * w + col;
            lemma_fundamental_div_mod_converse(k, w, row as int, col as int);
            assert(k < h * w) by (nonlinear_arith)
                requires
                    k == row * w + col,
                    0 <= row < h,
                    0 <= col < w,
            ;
        }
    }
    Ok(Convolved { shape, cells })
}

/// Whether `add_term` returns one result only for any sum and term.
pub open spec fn term_deterministic<T, F: Fn(T, ConvolutionStep) -> T>(add_term: F) -> bool {
    forall|sum: T, term: ConvolutionStep, one: T, other: T|
        #[trigger] call_ensures(add_term, (sum, term), one) && #[trigger] call_ensures(
            add_term,
            (sum, term),
            other,
        ) ==> one == other
}

proof fn lemma_sums_agree<T, F: Fn(T, ConvolutionStep) -> T>(
    add_term: F,
    zero: T,
    row: usize,
    col: usize,
    channels: nat,
    one: Seq<T>,
    other: Seq<T>,
    c: nat,
)
    requires
        term_deterministic(add_term),
        cell_trace(add_term, zero, row, col, channels, one),
        cell_trace(add_term, zero, row, col, channels, other),
        c <= channels,
    ensures
        one[c as int] == other[c as int],
    decreases c,
{
    if c > 0 {
        lemma_sums_agree(add_term, zero, row, col, channels, one, other, (c - 1) as nat);
        let k = c - 1;
        let term = ConvolutionStep { row, col, channel: k as usize };
        assert(call_ensures(add_term, (one[k], term), one[k + 1]));
        assert(call_ensures(add_term, (other[k], term), other[k + 1]));
    }
}

/// A convolution holds no chance: where `add_term` returns one result only,
/// what a cell holds in the end is determined by the cell, the number of
/// channels and the value it starts from.
pub proof fn lemma_cell_is_determined<T, F: Fn(T, ConvolutionStep) -> T>(
    add_term: F,
    zero: T,
    row: usize,
    col: usize,
    channels: nat,
    once: T,
    again: T,
)
    requires
        term_deterministic(add_term),
        cell_holds(add_term, zero, row, col, channels, once),
        cell_holds(add_term, zero, row, col, channels, again),
    ensures
        once == again,
{
    let one = choose|sums: Seq<T>| #[trigger]
        cell_trace(add_term, zero, row, col, channels, sums) && sums.last() == once;
    let other = choose|sums: Seq<T>| #[trigger]
        cell_trace(add_term, zero, row, col, channels, sums) && sums.last() == again;
    lemma_sums_agree(add_term, zero, row, col, channels, one, other, channels);
}

/// Channels add up one after the other: what a cell holds once the first
/// `part` of its channels have been added is what a convolution of those
/// channels alone leaves in it, and the channels after them are added to
/// that.
pub proof fn lemma_cell_of_first_channels<T, F: Fn(T, ConvolutionStep) -> T>(
    add_term: F,
    zero: T,
    row: usize,
    col: usize,
    channels: nat,
    sums: Seq<T>,
    part: nat,
)
    requires
        cell_trace(add_term, zero, row, col, channels, sums),
        part <= channels,
    ensures
        cell_trace(add_term, zero, row, col, part, sums.take(part as int + 1)),
        cell_holds(add_term, zero, row, col, part, sums[part as int]),
{
    let first = sums.take(part as int + 1);
    assert forall|c: int| 0 <= c < part implies call_ensures(
        add_term,
        (#[trigger] first[c], ConvolutionStep { row, col, channel: c as usize }),
        first[c + 1],
    ) by {
        assert(first[c] == sums[c] && first[c + 1] == sums[c + 1]);
    }
    assert(first.last() == sums[part as int]);
}

} // verus!
