use vstd::prelude::*;
use vstd::arithmetic::div_mod::{lemma_fundamental_div_mod, lemma_fundamental_div_mod_converse};
use crate::error::NumericalError;
use crate::nest::{LoopNest, Position};
use crate::shape::{elementwise_of, product_of, Shape};

verus! {

/// The model that is fitted: what turns a weighted sum into a guess.
#[derive(Clone, Copy, Debug, PartialEq, Eq, Structural)]
pub enum Model {
    /// The guess is the weighted sum itself.
    Linear,
    /// The guess is the sigmoid of the weighted sum.
    Logistic,
}

/// How many samples one update of the parameters looks at.
#[derive(Clone, Copy, Debug, PartialEq, Eq, Structural)]
pub enum Strategy {
    /// One update per round, from all samples at once.
    Batch,
    /// One update per block of `size` consecutive samples.
    MiniBatch { size: usize },
    /// One update per sample and feature: a single parameter moves at a time.
    Stochastic,
}

/// One update of the parameters.
#[derive(Clone, Copy, Debug, PartialEq, Eq, Structural)]
pub enum FitStep {
    /// All parameters move at once, from the `len` samples that start at row
    /// `start`.
    Block { epoch: u128, start: usize, len: usize },
    /// The parameter of `feature` moves, from the sample at row `sample`.
    Coordinate { epoch: u128, sample: usize, feature: usize },
}

/// The updates of one fit, in the order in which they are made.
///
/// A fit makes `epochs` rounds over the samples. Samples are taken in their
/// given order, never shuffled, and every update sees the parameters as the
/// update before it left them.
#[derive(Clone, Copy, Debug)]
pub struct FitPlan {
    model: Model,
    strategy: Strategy,
    samples: usize,
    features: usize,
    epochs: u128,
}

/// The fault, if any, for which a fit is turned down, whatever the model.
///
/// `x` holds one sample per row, `y` one target per row in a single column,
/// `theta` the initial parameters in a single row with one column per column
/// of `x`. Faults are looked for in this order:
///
/// - a mini-batch size of zero is an `InvalidArgument`;
/// - shapes other than those above are a `DimensionMismatch`;
/// - where at least one round is made, a mini-batch size that does not
///   divide the number of samples is an `IndexOutOfRange`: the last block of
///   the round would end beyond the last sample.
///
/// A fit of no round cuts no block, so any mini-batch size but zero will do
/// for it.
pub open spec fn fit_fault(strategy: Strategy, x: Shape, y: Shape, theta: Shape, epochs: u128)
    -> Option<NumericalError> {
    if strategy matches Strategy::MiniBatch { size } && size == 0 {
        Some(NumericalError::InvalidArgument)
    } else if x.nrows != y.nrows || y.ncols != 1 || theta.nrows != 1 || theta.ncols != x.ncols {
        Some(NumericalError::DimensionMismatch)
    } else if epochs > 0 && (strategy matches Strategy::MiniBatch { size } && x.nrows % size
        != 0) {
        Some(NumericalError::IndexOutOfRange)
    } else {
        None
    }
}

/// Shape of the parameters after one block update, or the fault of the first
/// matrix operation of the update that is undefined.
///
/// `xb` and `yb` are the shapes of the block's samples and targets. The
/// guesses are `theta` times the transposed samples, one guess per sample in
/// a row. Their distance to the targets is the difference to the transposed
/// targets, which lie in a row as well. The logistic model multiplies the
/// distance entry by entry with the guesses and with their complements. The
/// distance times the samples, scaled, is subtracted from `theta`.
pub open spec fn block_update_shape(model: Model, theta: Shape, xb: Shape, yb: Shape) -> Result<
    Shape,
    NumericalError,
> {
    let guesses = theta.product(xb.transposed());
    let distance = elementwise_of(guesses, Ok(yb.transposed()));
    let weighted = match model {
        Model::Linear => distance,
        Model::Logistic => elementwise_of(elementwise_of(distance, guesses), guesses),
    };
    let delta = product_of(weighted, Ok(xb));
    elementwise_of(Ok(theta), delta)
}

impl FitPlan {
    pub closed spec fn spec_model(&self) -> Model {
        self.model
    }

    pub closed spec fn spec_strategy(&self) -> Strategy {
        self.strategy
    }

    pub closed spec fn spec_samples(&self) -> usize {
        self.samples
    }

    pub closed spec fn spec_features(&self) -> usize {
        self.features
    }

    pub closed spec fn spec_epochs(&self) -> u128 {
        self.epochs
    }

    /// Shape of the samples: one row per sample, one column per feature.
    pub open spec fn x(&self) -> Shape {
        Shape { nrows: self.samples(), ncols: self.features() }
    }

    /// Shape of the targets: one row per sample.
    pub open spec fn y(&self) -> Shape {
        Shape { nrows: self.samples(), ncols: 1 }
    }

    /// Shape of the parameters: one column per feature.
    pub open spec fn theta(&self) -> Shape {
        Shape { nrows: 1, ncols: self.features() }
    }

    /// What `new` establishes of every plan it hands out.
    pub open spec fn wf(&self) -> bool {
        fit_fault(self.strategy(), self.x(), self.y(), self.theta(), self.epochs()) is None
    }

    /// Number of updates of one round.
    pub open spec fn per_epoch(&self) -> nat {
        match self.strategy() {
            Strategy::Batch => 1,
            Strategy::MiniBatch { size } => (self.samples() / size) as nat,
            Strategy::Stochastic => (self.samples() * self.features()) as nat,
        }
    }

    /// Number of updates of the whole fit.
    pub open spec fn count(&self) -> nat {
        (self.epochs() * self.per_epoch()) as nat
    }

    /// Whether `step` is an update of this fit.
    pub open spec fn contains(&self, step: FitStep) -> bool {
        match (self.strategy(), step) {
            (Strategy::Batch, FitStep::Block { epoch, start, len }) => epoch < self.epochs()
                && start == 0 && len == self.samples(),
            (Strategy::MiniBatch { size }, FitStep::Block { epoch, start, len }) => epoch
                < self.epochs() && len == size && start % size == 0 && start + size
                <= self.samples(),
            (Strategy::Stochastic, FitStep::Coordinate { epoch, sample, feature }) => epoch
                < self.epochs() && sample < self.samples() && feature < self.features(),
            _ => false,
        }
    }

    /// Number of updates that are made before `step`.
    pub open spec fn rank(&self, step: FitStep) -> nat {
        match (self.strategy(), step) {
            (Strategy::MiniBatch { size }, FitStep::Block { epoch, start, len }) => (epoch * (
            self.samples() / size) + start / size) as nat,
            (_, FitStep::Block { epoch, start, len }) => epoch as nat,
            (_, FitStep::Coordinate { epoch, sample, feature }) => ((epoch * self.samples()
                + sample) * self.features() + feature) as nat,
        }
    }

    /// The update that `r` updates precede.
    pub open spec fn step_at(&self, r: nat) -> FitStep {
        match self.strategy() {
            Strategy::Batch => FitStep::Block { epoch: r as u128, start: 0, len: self.samples() },
            Strategy::MiniBatch { size } => {
                let blocks = (self.samples() / size) as nat;
                FitStep::Block {
                    epoch: (r / blocks) as u128,
                    start: ((r % blocks) * size) as usize,
                    len: size,
                }
            },
            Strategy::Stochastic => FitStep::Coordinate {
                epoch: ((r / self.features() as nat) / self.samples() as nat) as u128,
                sample: ((r / self.features() as nat) % self.samples() as nat) as usize,
                feature: (r % self.features() as nat) as usize,
            },
        }
    }

    /// Shape of the parameters after `step`, or the fault of the first
    /// operation of the step that is undefined: cutting the step's rows out
    /// of the samples and the targets, then the update itself.
    pub open spec fn update_shape(&self, step: FitStep) -> Result<Shape, NumericalError> {
        match step {
            FitStep::Block { epoch, start, len } => match (
                self.x().row_block(start, len),
                self.y().row_block(start, len),
            ) {
                (Ok(xb), Ok(yb)) => block_update_shape(self.model(), self.theta(), xb, yb),
                (Err(fault), _) => Err(fault),
                (_, Err(fault)) => Err(fault),
            },
            FitStep::Coordinate { epoch, sample, feature } => match (
                self.x().window(sample, 0, self.theta()),
                self.y().window(sample, 0, Shape { nrows: 1, ncols: 1 }),
                self.theta().window(0, feature, Shape { nrows: 1, ncols: 1 }),
            ) {
                (Ok(row), Ok(target), Ok(parameter)) => Ok(self.theta()),
                (Err(fault), _, _) => Err(fault),
                (_, Err(fault), _) => Err(fault),
                (_, _, Err(fault)) => Err(fault),
            },
        }
    }

    spec fn nest(&self) -> LoopNest {
        match self.strategy {
            Strategy::Batch => LoopNest { outer: self.epochs, middle: 1, inner: 1 },
            Strategy::MiniBatch { size } => LoopNest {
                outer: self.epochs,
                middle: (self.samples / size) as usize,
                inner: 1,
            },
            Strategy::Stochastic => LoopNest {
                outer: self.epochs,
                middle: self.samples,
                inner: self.features,
            },
        }
    }

    spec fn position(&self, step: FitStep) -> Position {
        match (self.strategy, step) {
            (Strategy::MiniBatch { size }, FitStep::Block { epoch, start, len }) => Position {
                outer: epoch,
                middle: (start / size) as usize,
                inner: 0,
            },
            (_, FitStep::Block { epoch, start, len }) => Position {
                outer: epoch,
                middle: 0,
                inner: 0,
            },
            (_, FitStep::Coordinate { epoch, sample, feature }) => Position {
                outer: epoch,
                middle: sample,
                inner: feature,
            },
        }
    }

    spec fn step_of(&self, p: Position) -> FitStep {
        match self.strategy {
            Strategy::Batch => FitStep::Block { epoch: p.outer, start: 0, len: self.samples },
            Strategy::MiniBatch { size } => FitStep::Block {
                epoch: p.outer,
                start: (p.middle * size) as usize,
                len: size,
            },
            Strategy::Stochastic => FitStep::Coordinate {
                epoch: p.outer,
                sample: p.middle,
                feature: p.inner,
            },
        }
    }

    proof fn lemma_nest_count(&self)
        requires
            self.wf(),
        ensures
            self.nest().count() == self.count(),
    {
        let e = self.epochs as int;
        match self.strategy {
            Strategy::Batch => {
                assert(e * 1 * 1 == e * 1) by (nonlinear_arith);
            },
            Strategy::MiniBatch { size } => {
                let q = self.samples as int / size as int;
                assert(e * q * 1 == e * q) by (nonlinear_arith);
            },
            Strategy::Stochastic => {
                let n = self.samples as int;
                let k = self.features as int;
                assert(e * n * k == e * (n * k)) by (nonlinear_arith);
            },
        }
    }

    proof fn lemma_nest_step(&self, step: FitStep)
        requires
            self.wf(),
        ensures
            self.contains(step) ==> self.nest().contains(self.position(step)) && self.step_of(
                self.position(step),
            ) == step && self.rank(step) == self.nest().rank(self.position(step)),
    {
        let e = self.epochs as int;
        match (self.strategy, step) {
            (Strategy::MiniBatch { size }, FitStep::Block { epoch, start, len }) => {
                let b = size as int;
                let n = self.samples as int;
                let q = n / b;
                let m = start as int / b;
                lemma_fundamental_div_mod(n, b);
                lemma_fundamental_div_mod(start as int, b);
                assert((epoch * q + m) * 1 + 0 == epoch * q + m) by (nonlinear_arith);
                if self.contains(step) {
                    assert(m < q) by (nonlinear_arith)
                        requires
                            start == b * m,
                            n == b * q,
                            start + b <= n,
                            b > 0,
                    ;
                    assert(m * b == start) by (nonlinear_arith)
                        requires
                            start == b * m,
                    ;
                }
            },
            (_, FitStep::Block { epoch, start, len }) => {
                assert((epoch * 1 + 0) * 1 + 0 == epoch) by (nonlinear_arith);
            },
            (_, FitStep::Coordinate { epoch, sample, feature }) => {},
        }
    }

    proof fn lemma_nest_position(&self, p: Position)
        requires
            self.wf(),
            self.nest().contains(p),
        ensures
            self.contains(self.step_of(p)),
            self.position(self.step_of(p)) == p,
            self.strategy matches Strategy::MiniBatch { size } ==> p.middle * size + size
                <= self.samples,
    {
        match self.strategy {
            Strategy::Batch => {},
            Strategy::MiniBatch { size } => {
                let b = size as int;
                let n = self.samples as int;
                let q = n / b;
                let m = p.middle as int;
                lemma_fundamental_div_mod(n, b);
                assert(m * b + b <= n) by (nonlinear_arith)
                    requires
                        m < q,
                        n == b * q,
                        b > 0,
                ;
                assert(0 <= m * b) by (nonlinear_arith)
                    requires
                        0 <= m,
                        0 < b,
                ;
                lemma_fundamental_div_mod_converse(m * b, b, m, 0);
            },
            Strategy::Stochastic => {},
        }
    }

    proof fn lemma_nest_at(&self, r: nat)
        requires
            self.wf(),
            r < self.count(),
        ensures
            self.step_of(self.nest().at(r)) == self.step_at(r),
    {
        self.lemma_nest_count();
        self.nest().lemma_rank_at(r);
    }

    /// Plans the fit of `model` by `strategy` on samples of shape `x`, targets
    /// of shape `y` and initial parameters of shape `initial_theta`.
    ///
    /// Fails with the fault that `fit_fault` names, and only then. The size
    /// of a mini-batch and the shapes are checked whatever the number of
    /// rounds; a plan of no round has no update, and running it returns the
    /// initial parameters.
    pub fn new(
        model: Model,
        strategy: Strategy,
        x: Shape,
        y: Shape,
        initial_theta: Shape,
        epochs: u128,
    ) -> (made: Result<FitPlan, NumericalError>)
        ensures
            match made {
                Ok(plan) => fit_fault(strategy, x, y, initial_theta, epochs) is None && plan.wf()
                    && plan.model() == model && plan.strategy() == strategy && plan.x() == x
                    && plan.y() == y && plan.theta() == initial_theta && plan.epochs() == epochs,
                Err(fault) => fit_fault(strategy, x, y, initial_theta, epochs) == Some(fault),
            },
    {
        if let Strategy::MiniBatch { size } = strategy {
            if size == 0 {
                return Err(NumericalError::InvalidArgument);
            }
        }
        if x.nrows != y.nrows || y.ncols != 1 || initial_theta.nrows != 1 || initial_theta.ncols
            != x.ncols {
            return Err(NumericalError::DimensionMismatch);
        }
        if let Strategy::MiniBatch { size } = strategy {
            if epochs > 0 && x.nrows % size != 0 {
                return Err(NumericalError::IndexOutOfRange);
            }
        }
        Ok(FitPlan { model, strategy, samples: x.nrows, features: x.ncols, epochs })
    }

    /// The model that is fitted.
    #[verifier::when_used_as_spec(spec_model)]
    pub fn model(&self) -> (model: Model)
        ensures
            model == self.spec_model(),
    {
        self.model
    }

    /// The strategy by which it is fitted.
    #[verifier::when_used_as_spec(spec_strategy)]
    pub fn strategy(&self) -> (strategy: Strategy)
        ensures
            strategy == self.spec_strategy(),
    {
        self.strategy
    }

    /// Number of samples.
    #[verifier::when_used_as_spec(spec_samples)]
    pub fn samples(&self) -> (n: usize)
        ensures
            n == self.spec_samples(),
    {
        self.samples
    }

    /// Number of features, which is the number of parameters.
    #[verifier::when_used_as_spec(spec_features)]
    pub fn features(&self) -> (n: usize)
        ensures
            n == self.spec_features(),
    {
        self.features
    }

    /// Number of rounds.
    #[verifier::when_used_as_spec(spec_epochs)]
    pub fn epochs(&self) -> (n: u128)
        ensures
            n == self.spec_epochs(),
    {
        self.epochs
    }

    fn loops(&self) -> (nest: LoopNest)
        requires
            self.wf(),
        ensures
            nest == self.nest(),
    {
        match self.strategy {
            Strategy::Batch => LoopNest { outer: self.epochs, middle: 1, inner: 1 },
            Strategy::MiniBatch { size } => LoopNest {
                outer: self.epochs,
                middle: self.samples / size,
                inner: 1,
            },
            Strategy::Stochastic => LoopNest {
                outer: self.epochs,
                middle: self.samples,
                inner: self.features,
            },
        }
    }

    fn step_from(&self, p: Position) -> (step: FitStep)
        requires
            self.wf(),
            self.nest().contains(p),
        ensures
            step == self.step_of(p),
    {
        match self.strategy {
            Strategy::Batch => FitStep::Block { epoch: p.outer, start: 0, len: self.samples },
            Strategy::MiniBatch { size } => {
                proof {
                    self.lemma_nest_position(p);
                }
                FitStep::Block { epoch: p.outer, start: p.middle * size, len: size }
            },
            Strategy::Stochastic => FitStep::Coordinate {
                epoch: p.outer,
                sample: p.middle,
                feature: p.inner,
            },
        }
    }

    /// The first update of the fit, if it has any.
    pub fn first(&self) -> (start: Option<FitStep>)
        requires
            self.wf(),
        ensures
            start == if self.count() > 0 {
                Some(self.step_at(0))
            } else {
                None::<FitStep>
            },
    {
        proof {
            self.lemma_nest_count();
        }
        let nest = self.loops();
        match nest.first() {
            Some(p) => {
                proof {
                    nest.lemma_rank_at(0);
                    self.lemma_nest_at(0);
                }
                Some(self.step_from(p))
            },
            None => None,
        }
    }

    /// The update that follows `step`, if there is one.
    ///
    /// A round of blocks takes them from the first row down. A round of
    /// single parameters takes the samples from the first row down and, for
    /// each sample, the features from the first column on. After the last
    /// update of a round the next round starts over. A step that is no
    /// update of this fit has no successor.
    pub fn next(&self, step: FitStep) -> (following: Option<FitStep>)
        requires
            self.wf(),
        ensures
            following == if self.contains(step) && self.rank(step) + 1 < self.count() {
                Some(self.step_at(self.rank(step) + 1))
            } else {
                None::<FitStep>
            },
    {
        let p = match (self.strategy, step) {
            (Strategy::Batch, FitStep::Block { epoch, start, len }) => {
                if start != 0 || len != self.samples || epoch >= self.epochs {
                    return None;
                }
                Position { outer: epoch, middle: 0, inner: 0 }
            },
            (Strategy::MiniBatch { size }, FitStep::Block { epoch, start, len }) => {
                if len != size || start % size != 0 || epoch >= self.epochs || start
                    > self.samples || size > self.samples - start {
                    return None;
                }
                Position { outer: epoch, middle: start / size, inner: 0 }
            },
            (Strategy::Stochastic, FitStep::Coordinate { epoch, sample, feature }) => {
                if epoch >= self.epochs || sample >= self.samples || feature >= self.features {
                    return None;
                }
                Position { outer: epoch, middle: sample, inner: feature }
            },
            _ => {
                return None;
            },
        };
        proof {
            assert(self.contains(step));
            assert(p == self.position(step));
            self.lemma_nest_count();
            self.lemma_nest_step(step);
        }
        let nest = self.loops();
        match nest.next(p) {
            Some(q) => {
                proof {
                    nest.lemma_rank_at((self.rank(step) + 1) as nat);
                    self.lemma_nest_at((self.rank(step) + 1) as nat);
                }
                Some(self.step_from(q))
            },
            None => None,
        }
    }
}

impl FitPlan {
    /// Every update of the fit has a place of its own in the order, and
    /// `step_at` finds the update from its place.
    pub proof fn lemma_step_at_rank(&self, step: FitStep)
        requires
            self.wf(),
            self.contains(step),
        ensures
            self.rank(step) < self.count(),
            self.step_at(self.rank(step)) == step,
    {
        self.lemma_nest_count();
        self.lemma_nest_step(step);
        self.nest().lemma_at_rank(self.position(step));
        self.lemma_nest_at(self.rank(step));
    }

    /// Every place below `count` holds an update of the fit.
    pub proof fn lemma_rank_step_at(&self, r: nat)
        requires
            self.wf(),
            r < self.count(),
        ensures
            self.contains(self.step_at(r)),
            self.rank(self.step_at(r)) == r,
    {
        self.lemma_nest_count();
        self.nest().lemma_rank_at(r);
        self.lemma_nest_at(r);
        self.lemma_nest_position(self.nest().at(r));
        self.lemma_nest_step(self.step_at(r));
    }

    /// Every matrix operation of every update of a plan is defined, and the
    /// update leaves the parameters in the shape they had.
    pub proof fn lemma_update_defined(&self, step: FitStep)
        requires
            self.wf(),
            self.contains(step),
        ensures
            self.update_shape(step) == Ok::<Shape, NumericalError>(self.theta()),
    {
    }

    /// A block of any number of samples fits either model: with samples,
    /// targets and parameters in their proper shapes every matrix operation
    /// of the block's update is defined, and the parameters keep their shape.
    pub proof fn lemma_block_fits(model: Model, len: usize, features: usize)
        ensures
            block_update_shape(
                model,
                Shape { nrows: 1, ncols: features },
                Shape { nrows: len, ncols: features },
                Shape { nrows: len, ncols: 1 },
            ) == Ok::<Shape, NumericalError>(Shape { nrows: 1, ncols: features }),
    {
    }

    /// In each round of a mini-batch fit every sample lies in exactly one
    /// block: the blocks follow each other without gap or overlap and end
    /// with the last sample.
    pub proof fn lemma_block_of_sample(&self, size: usize, epoch: u128, sample: usize)
        requires
            self.wf(),
            self.strategy() == (Strategy::MiniBatch { size }),
            epoch < self.epochs(),
            sample < self.samples(),
        ensures
            sample % size <= sample,
            self.contains(
                FitStep::Block { epoch, start: (sample - sample % size) as usize, len: size },
            ),
            forall|start: usize|
                start <= sample < start + size && #[trigger] self.contains(
                    FitStep::Block { epoch, start, len: size },
                ) ==> start == sample - sample % size,
    {
        let b = size as int;
        let n = self.samples() as int;
        let i = sample as int;
        lemma_fundamental_div_mod(i, b);
        lemma_fundamental_div_mod(n, b);
        let first = b * (i / b);
        assert(0 <= i / b) by (nonlinear_arith)
            requires
                0 <= i,
                0 < b,
        ;
        assert(0 <= first) by (nonlinear_arith)
            requires
                first == b * (i / b),
                0 <= i / b,
                0 < b,
        ;
        assert(first == (i / b) * b + 0) by (nonlinear_arith)
            requires
                first == b * (i / b),
        ;
        lemma_fundamental_div_mod_converse(first, b, i / b, 0);
        assert(first + b <= n) by (nonlinear_arith)
            requires
                first == b * (i / b),
                n == b * (n / b),
                first <= i < n,
                0 < b,
        ;
        assert forall|start: usize|
            start <= sample < start + size && #[trigger] self.contains(
                FitStep::Block { epoch, start, len: size },
            ) implies start == sample - sample % size by {
            let k = start as int / b;
            lemma_fundamental_div_mod(start as int, b);
            assert(i == k * b + (i - start)) by (nonlinear_arith)
                requires
                    start == b * k,
            ;
            lemma_fundamental_div_mod_converse(i, b, k, i - start);
        }
    }

    /// A mini-batch fit whose block holds all samples makes the updates of a
    /// batch fit: one block per round, from the first sample to the last.
    pub proof fn lemma_one_block_is_batch(&self, batch: &FitPlan, r: nat)
        requires
            self.wf(),
            batch.wf(),
            self.strategy() == (Strategy::MiniBatch { size: self.samples() }),
            batch.strategy() == Strategy::Batch,
            batch.samples() == self.samples(),
            batch.epochs() == self.epochs(),
        ensures
            self.count() == batch.count(),
            r < self.count() ==> self.step_at(r) == batch.step_at(r),
    {
        let n = self.samples() as int;
        assert(n / n == 1) by (nonlinear_arith)
            requires
                n > 0,
        ;
        assert((r as int) / 1 == r && (r as int) % 1 == 0);
        assert(self.epochs() * 1 == self.epochs());
        if r < self.count() {
            assert(((r % 1) * n) == 0) by (nonlinear_arith)
                requires
                    (r as int) % 1 == 0,
            ;
        }
    }
}

impl FitPlan {
    /// Whether `states` lists the parameters as they stand before the first
    /// update, between any two updates and after the last one: every state
    /// but the first is what one call of `update` returned for the state
    /// before it and the update whose turn it was.
    pub open spec fn is_trace<S, F: Fn(S, FitStep) -> S>(&self, update: F, states: Seq<S>) -> bool {
        &&& states.len() == self.count() + 1
        &&& forall|r: int|
            0 <= r < self.count() ==> call_ensures(
                update,
                (#[trigger] states[r], self.step_at(r as nat)),
                states[r + 1],
            )
    }

    /// Whether `fitted` can be what `init` has become when all updates of the
    /// fit have been made in order.
    pub open spec fn fits<S, F: Fn(S, FitStep) -> S>(&self, update: F, init: S, fitted: S) -> bool {
        exists|states: Seq<S>| #[trigger]
            self.is_trace(update, states) && states.first() == init && states.last() == fitted
    }

    /// Makes all updates of the fit, in order, on the parameters `init`.
    ///
    /// Every update of the plan is handed to `update` exactly once, together
    /// with the parameters as the update before it returned them; what the
    /// last call returns is the result. With no update to make the result is
    /// `init` itself.
    pub fn run<S, F: Fn(S, FitStep) -> S>(&self, init: S, update: F) -> (fitted: S)
        requires
            self.wf(),
            forall|state: S, step: FitStep|
                self.contains(step) ==> call_requires(update, (state, step)),
        ensures
            self.fits(update, init, fitted),
            self.count() == 0 ==> fitted == init,
    {
        let ghost mut states: Seq<S> = seq![init];
        let mut state = init;
        let mut step = self.first();
        let ghost mut r: nat = 0;
        while step.is_some()
            invariant
                self.wf(),
                forall|state: S, step: FitStep|
                    self.contains(step) ==> call_requires(update, (state, step)),
                r <= self.count(),
                step == if r < self.count() {
                    Some(self.step_at(r))
                } else {
                    None::<FitStep>
                },
                states.len() == r + 1,
                states[0] == init,
                states[r as int] == state,
                forall|k: int|
                    0 <= k < r ==> call_ensures(
                        update,
                        (#[trigger] states[k], self.step_at(k as nat)),
                        states[k + 1],
                    ),
            decreases self.count() - r,
        {
            let current = step.unwrap();
            proof {
                self.lemma_rank_step_at(r);
            }
            state = update(state, current);
            step = self.next(current);
            proof {
                states = states.push(state);
                r = r + 1;
            }
        }
        proof {
            assert(self.is_trace(update, states));
        }
        state
    }
}

/// Whether `update` returns one result only for any state and step.
pub open spec fn deterministic<S, F: Fn(S, FitStep) -> S>(update: F) -> bool {
    forall|state: S, step: FitStep, one: S, other: S|
        #[trigger] call_ensures(update, (state, step), one) && #[trigger] call_ensures(
            update,
            (state, step),
            other,
        ) ==> one == other
}

impl FitPlan {
    proof fn lemma_traces_agree<S, F: Fn(S, FitStep) -> S>(
        &self,
        update: F,
        one: Seq<S>,
        other: Seq<S>,
        r: nat,
    )
        requires
            deterministic(update),
            self.is_trace(update, one),
            self.is_trace(update, other),
            one.first() == other.first(),
            r <= self.count(),
        ensures
            one[r as int] == other[r as int],
        decreases r,
    {
        if r > 0 {
            self.lemma_traces_agree(update, one, other, (r - 1) as nat);
            let k = r - 1;
            assert(call_ensures(update, (one[k], self.step_at(k as nat)), one[k + 1]));
            assert(call_ensures(update, (other[k], self.step_at(k as nat)), other[k + 1]));
        }
    }

    /// A fit holds no chance: where `update` returns one result only for any
    /// state and step, the parameters that a fit ends with are determined by
    /// the plan and the initial parameters, so that two runs on the same
    /// inputs end with the same parameters.
    pub proof fn lemma_fit_is_determined<S, F: Fn(S, FitStep) -> S>(
        &self,
        update: F,
        init: S,
        once: S,
        again: S,
    )
        requires
            deterministic(update),
            self.fits(update, init, once),
            self.fits(update, init, again),
        ensures
            once == again,
    {
        let one = choose|states: Seq<S>| #[trigger]
            self.is_trace(update, states) && states.first() == init && states.last() == once;
        let other = choose|states: Seq<S>| #[trigger]
            self.is_trace(update, states) && states.first() == init && states.last() == again;
        self.lemma_traces_agree(update, one, other, self.count());
    }

    /// A mini-batch fit whose block holds all samples ends with what a batch
    /// fit ends with, where both make their updates by the same `update`.
    pub proof fn lemma_one_block_fits_as_batch<S, F: Fn(S, FitStep) -> S>(
        &self,
        batch: &FitPlan,
        update: F,
        init: S,
        fitted: S,
    )
        requires
            self.wf(),
            batch.wf(),
            self.strategy() == (Strategy::MiniBatch { size: self.samples() }),
            batch.strategy() == Strategy::Batch,
            batch.samples() == self.samples(),
            batch.epochs() == self.epochs(),
        ensures
            self.fits(update, init, fitted) <==> batch.fits(update, init, fitted),
    {
        self.lemma_one_block_is_batch(batch, 0);
        if self.fits(update, init, fitted) {
            let states = choose|states: Seq<S>| #[trigger]
                self.is_trace(update, states) && states.first() == init && states.last()
                    == fitted;
            assert forall|r: int| 0 <= r < batch.count() implies call_ensures(
                update,
                (#[trigger] states[r], batch.step_at(r as nat)),
                states[r + 1],
            ) by {
                self.lemma_one_block_is_batch(batch, r as nat);
            }
            assert(batch.is_trace(update, states));
        }
        if batch.fits(update, init, fitted) {
            let states = choose|states: Seq<S>| #[trigger]
                batch.is_trace(update, states) && states.first() == init && states.last()
                    == fitted;
            assert forall|r: int| 0 <= r < self.count() implies call_ensures(
                update,
                (#[trigger] states[r], self.step_at(r as nat)),
                states[r + 1],
            ) by {
                self.lemma_one_block_is_batch(batch, r as nat);
            }
            assert(self.is_trace(update, states));
        }
    }
}

} // verus!
