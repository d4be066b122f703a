use vstd::prelude::*;
use crate::error::NumericalError;
use crate::nest::{LoopNest, Position};

verus! {

/// Direction in which the gradient method moves a variable.
#[derive(Clone, Copy, Debug, PartialEq, Eq, Structural)]
pub enum GradientMode {
    /// Ascent: the variable grows by the step size times its derivative.
    Asc,
    /// Descent: the variable shrinks by the step size times its derivative.
    Desc,
}

/// One update of the gradient method: in round `epoch`, the variable at
/// index `variable` is moved along its own derivative, which is evaluated on
/// the values as they stand at that moment.
#[derive(Clone, Copy, Debug, PartialEq, Eq, Structural)]
pub struct GradientStep {
    pub epoch: u128,
    pub variable: usize,
}

/// The updates of one run of the gradient method, in the order in which they
/// are made.
///
/// A run makes `epochs` rounds. Each round updates every variable once, in
/// index order, so a later variable of a round is updated from values in
/// which the earlier ones have already moved.
#[derive(Clone, Copy, Debug)]
pub struct GradientPlan {
    variables: usize,
    epochs: u128,
    mode: GradientMode,
}

impl GradientPlan {
    pub closed spec fn spec_variables(&self) -> usize {
        self.variables
    }

    pub closed spec fn spec_epochs(&self) -> u128 {
        self.epochs
    }

    pub closed spec fn spec_mode(&self) -> GradientMode {
        self.mode
    }

    /// Number of updates of the whole run.
    pub open spec fn count(&self) -> nat {
        (self.epochs() * self.variables()) as nat
    }

    /// Whether `step` is an update of this run.
    pub open spec fn contains(&self, step: GradientStep) -> bool {
        step.epoch < self.epochs() && step.variable < self.variables()
    }

    /// Number of updates that are made before `step`.
    pub open spec fn rank(&self, step: GradientStep) -> nat {
        (step.epoch * self.variables() + step.variable) as nat
    }

    /// The update that `r` updates precede.
    pub open spec fn step_at(&self, r: nat) -> GradientStep {
        GradientStep {
            epoch: (r / self.variables() as nat) as u128,
            variable: (r % self.variables() as nat) as usize,
        }
    }

    spec fn nest(&self) -> LoopNest {
        LoopNest { outer: self.epochs, middle: self.variables, inner: 1 }
    }

    spec fn position(step: GradientStep) -> Position {
        Position { outer: step.epoch, middle: step.variable, inner: 0 }
    }

    proof fn lemma_nest(&self)
        ensures
            self.nest().count() == self.count(),
            forall|step: GradientStep| #[trigger]
                self.contains(step) == self.nest().contains(Self::position(step)),
            forall|step: GradientStep| #[trigger]
                self.rank(step) == self.nest().rank(Self::position(step)),
            forall|r: nat| #[trigger] Self::position(self.step_at(r)) == self.nest().at(r),
    {
        assert(self.epochs * self.variables * 1 == self.epochs * self.variables)
            by (nonlinear_arith);
        assert forall|step: GradientStep| #[trigger]
            self.rank(step) == self.nest().rank(Self::position(step)) by {
            let a = step.epoch * self.variables + step.variable;
            assert(a * 1 + 0 == a) by (nonlinear_arith);
        }
    }

    /// Plans a run over `values` variables for which `derivatives`
    /// derivative functions are at hand.
    ///
    /// The derivative at an index belongs to the variable at that index.
    /// Fails with `InvalidArgument` when a variable is left without a
    /// derivative; derivatives beyond the last variable are never evaluated.
    pub fn new(values: usize, derivatives: usize, epochs: u128, mode: GradientMode) -> (made:
        Result<GradientPlan, NumericalError>)
        ensures
            derivatives < values ==> made == Err::<GradientPlan, NumericalError>(
                NumericalError::InvalidArgument,
            ),
            derivatives >= values ==> made is Ok && made->Ok_0.variables() == values
                && made->Ok_0.epochs() == epochs && made->Ok_0.mode() == mode,
    {
        if derivatives < values {
            Err(NumericalError::InvalidArgument)
        } else {
            Ok(GradientPlan { variables: values, epochs, mode })
        }
    }

    /// Number of variables that every round updates.
    #[verifier::when_used_as_spec(spec_variables)]
    pub fn variables(&self) -> (n: usize)
        ensures
            n == self.spec_variables(),
    {
        self.variables
    }

    /// Number of rounds.
    #[verifier::when_used_as_spec(spec_epochs)]
    pub fn epochs(&self) -> (n: u128)
        ensures
            n == self.spec_epochs(),
    {
        self.epochs
    }

    /// Direction of every update of the run.
    #[verifier::when_used_as_spec(spec_mode)]
    pub fn mode(&self) -> (mode: GradientMode)
        ensures
            mode == self.spec_mode(),
    {
        self.mode
    }

    /// Every update of the run has a place of its own in the order, and
    /// `step_at` finds the update from its place.
    pub proof fn lemma_step_at_rank(&self, step: GradientStep)
        requires
            self.contains(step),
        ensures
            self.rank(step) < self.count(),
            self.step_at(self.rank(step)) == step,
    {
        self.lemma_nest();
        self.nest().lemma_at_rank(Self::position(step));
        assert(Self::position(self.step_at(self.rank(step))) == Self::position(step));
    }

    /// Every place below `count` holds an update of the run: round
    /// `r / variables`, variable `r % variables`.
    pub proof fn lemma_rank_step_at(&self, r: nat)
        requires
            r < self.count(),
        ensures
            self.contains(self.step_at(r)),
            self.rank(self.step_at(r)) == r,
    {
        self.lemma_nest();
        self.nest().lemma_rank_at(r);
        assert(Self::position(self.step_at(r)) == self.nest().at(r));
    }

    /// The first update of the run, if it has any.
    pub fn first(&self) -> (start: Option<GradientStep>)
        ensures
            start == if self.count() > 0 {
                Some(self.step_at(0))
            } else {
                None::<GradientStep>
            },
    {
        proof {
            self.lemma_nest();
        }
        let nest = LoopNest { outer: self.epochs, middle: self.variables, inner: 1 };
        match nest.first() {
            Some(p) => {
                assert(Self::position(self.step_at(0)) == p);
                Some(GradientStep { epoch: p.outer, variable: p.middle })
            },
            None => None,
        }
    }

    /// The update that follows `step`, if there is one.
    ///
    /// Within a round the variables follow each other in index order; after
    /// the last variable the next round starts at the first. A step that is
    /// no update of this run has no successor.
    pub fn next(&self, step: GradientStep) -> (following: Option<GradientStep>)
        ensures
            following == if self.contains(step) && self.rank(step) + 1 < self.count() {
                Some(self.step_at(self.rank(step) + 1))
            } else {
                None::<GradientStep>
            },
    {
        proof {
            self.lemma_nest();
        }
        let nest = LoopNest { outer: self.epochs, middle: self.variables, inner: 1 };
        let p = Position { outer: step.epoch, middle: step.variable, inner: 0 };
        assert(p == Self::position(step));
        match nest.next(p) {
            Some(q) => {
                assert(Self::position(self.step_at(self.rank(step) + 1)) == q);
                Some(GradientStep { epoch: q.outer, variable: q.middle })
            },
            None => None,
        }
    }
}

/// Whether `moved` can be what one step in the direction of `mode` makes of
/// `value` and its derivative `delta`: ascent is one call of `ascend`,
/// descent one call of `descend`.
pub open spec fn gradient_moves<T, U: Fn(T, T) -> T, W: Fn(T, T) -> T>(
    ascend: U,
    descend: W,
    mode: GradientMode,
    value: T,
    delta: T,
    moved: T,
) -> bool {
    match mode {
        GradientMode::Asc => call_ensures(ascend, (value, delta), moved),
        GradientMode::Desc => call_ensures(descend, (value, delta), moved),
    }
}

/// Whether `after` can be what one update of the variable at `variable`
/// makes of `before`: the variable's derivative is evaluated on `before` as
/// a whole, the step that `mode` picks turns the variable's value and that
/// derivative into the new value, and no other variable changes.
pub open spec fn gradient_update<
    T,
    D: Fn(&Vec<T>) -> T,
    U: Fn(T, T) -> T,
    W: Fn(T, T) -> T,
>(
    derivatives: Seq<D>,
    ascend: U,
    descend: W,
    mode: GradientMode,
    variable: int,
    before: Vec<T>,
    after: Vec<T>,
) -> bool {
    exists|delta: T| #[trigger]
        call_ensures(derivatives[variable], (&before,), delta) && gradient_moves(
            ascend,
            descend,
            mode,
            before@[variable],
            delta,
            after@[variable],
        ) && after@ == before@.update(variable, after@[variable])
}

/// Whether `states` lists the values as they stand before the first update,
/// between any two updates and after the last one of `epochs` rounds, each
/// of which updates every variable once, in index order.
pub open spec fn gradient_trace<
    T,
    D: Fn(&Vec<T>) -> T,
    U: Fn(T, T) -> T,
    W: Fn(T, T) -> T,
>(
    derivatives: Seq<D>,
    ascend: U,
    descend: W,
    mode: GradientMode,
    variables: nat,
    epochs: nat,
    states: Seq<Vec<T>>,
) -> bool {
    &&& states.len() == epochs * variables + 1
    &&& forall|r: int|
        0 <= r < epochs * variables ==> gradient_update(
            derivatives,
            ascend,
            descend,
            mode,
            r % variables as int,
            #[trigger] states[r],
            states[r + 1],
        )
}

/// Whether the step that `mode` picks may be called on any value and
/// derivative.
pub open spec fn gradient_may_move<T, U: Fn(T, T) -> T, W: Fn(T, T) -> T>(
    ascend: U,
    descend: W,
    mode: GradientMode,
) -> bool {
    match mode {
        GradientMode::Asc => forall|value: T, delta: T| call_requires(ascend, (value, delta)),
        GradientMode::Desc => forall|value: T, delta: T| call_requires(descend, (value, delta)),
    }
}

/// Runs the gradient method: `epochs` rounds, each of which moves every
/// variable once, in index order, along its own derivative.
///
/// The derivative at an index belongs to the variable at that index and is
/// evaluated on the values as they stand when the variable's turn comes, so
/// it sees what the variables before it have become in the same round.
/// `ascend` takes a variable's value and its derivative and returns the
/// value moved one step up the derivative; `descend` returns it moved one
/// step down. `mode` decides which of the two makes every update of the run;
/// the other is never called.
///
/// Fails with `InvalidArgument` when a variable is left without a
/// derivative; derivatives beyond the last variable are never evaluated.
pub fn gradient<T: Copy, D: Fn(&Vec<T>) -> T, U: Fn(T, T) -> T, W: Fn(T, T) -> T>(
    initial_values: &Vec<T>,
    derivatives: &Vec<D>,
    ascend: U,
    descend: W,
    epochs: u128,
    mode: GradientMode,
) -> (moved: Result<Vec<T>, NumericalError>)
    requires
        forall|i: int, values: Vec<T>|
            0 <= i < initial_values.len() <= derivatives.len() && values.len()
                == initial_values.len() ==> call_requires(derivatives[i], (&values,)),
        derivatives.len() >= initial_values.len() ==> gradient_may_move(ascend, descend, mode),
    ensures
        derivatives.len() < initial_values.len() ==> moved == Err::<Vec<T>, NumericalError>(
            NumericalError::InvalidArgument,
        ),
        derivatives.len() >= initial_values.len() ==> moved is Ok && exists|states: Seq<Vec<T>>|
         #[trigger]
            gradient_trace(
                derivatives@,
                ascend,
                descend,
                mode,
                initial_values.len() as nat,
                epochs as nat,
                states,
            ) && states.first()@ == initial_values@ && states.last() == moved->Ok_0,
        moved is Ok ==> moved->Ok_0.len() == initial_values.len(),
        epochs == 0 && moved is Ok ==> moved->Ok_0@ == initial_values@,
{
    let plan = match GradientPlan::new(initial_values.len(), derivatives.len(), epochs, mode) {
        Ok(plan) => plan,
        Err(fault) => {
            return Err(fault);
        },
    };
    let n: usize = initial_values.len();
    let mut values: Vec<T> = Vec::new();
    let mut i: usize = 0;
    while i < n
        invariant
            i <= n,
            n == initial_values.len(),
            values@ == initial_values@.take(i as int),
        decreases n - i,
    {
        values.push(initial_values[i]);
        i += 1;
    }
    assert(values@ == initial_values@);
    let ghost mut states: Seq<Vec<T>> = seq![values];
    let ghost mut r: nat = 0;
    let mut step = plan.first();
    while step.is_some()
        invariant
            forall|i: int, values: Vec<T>|
                0 <= i < initial_values.len() <= derivatives.len() && values.len()
                    == initial_values.len() ==> call_requires(derivatives[i], (&values,)),
            gradient_may_move(ascend, descend, mode),
            plan.variables() == n,
            plan.epochs() == epochs,
            plan.mode() == mode,
            n == initial_values.len(),
            n <= derivatives.len(),
            values.len() == n,
            r <= plan.count(),
            step == if r < plan.count() {
                Some(plan.step_at(r))
            } else {
                None::<GradientStep>
            },
            states.len() == r + 1,
            states[0]@ == initial_values@,
            states[r as int] == values,
            forall|k: int|
                0 <= k < r ==> gradient_update(
                    derivatives@,
                    ascend,
                    descend,
                    mode,
                    k % n as int,
                    #[trigger] states[k],
                    states[k + 1],
                ),
        decreases plan.count() - r,
    {
        let current = step.unwrap();
        proof {
            plan.lemma_rank_step_at(r);
        }
        let ghost before = values;
        let delta = (derivatives[current.variable])(&values);
        let value = match plan.mode() {
            GradientMode::Asc => ascend(values[current.variable], delta),
            GradientMode::Desc => descend(values[current.variable], delta),
        };
        values.set(current.variable, value);
        step = plan.next(current);
        proof {
            assert(current.variable == r % n as nat);
            assert(call_ensures(derivatives@[current.variable as int], (&before,), delta));
            assert(gradient_moves(
                ascend,
                descend,
                mode,
                before@[current.variable as int],
                delta,
                value,
            ));
            assert(gradient_update(
                derivatives@,
                ascend,
                descend,
                mode,
                r as int % n as int,
                before,
                values,
            ));
            states = states.push(values);
            r = r + 1;
        }
    }
    proof {
        assert(gradient_trace(
            derivatives@,
            ascend,
            descend,
            mode,
            n as nat,
            epochs as nat,
            states,
        ));
    }
    Ok(values)
}

/// Whether the derivatives and the step that `mode` picks return one result
/// only: a derivative for any values, the step for any value and derivative.
pub open spec fn gradient_deterministic<
    T,
    D: Fn(&Vec<T>) -> T,
    U: Fn(T, T) -> T,
    W: Fn(T, T) -> T,
>(derivatives: Seq<D>, ascend: U, descend: W, mode: GradientMode) -> bool {
    &&& forall|i: int, values: Vec<T>, again: Vec<T>, one: T, other: T|
        0 <= i < derivatives.len() && values@ == again@ && #[trigger] call_ensures(
            derivatives[i],
            (&values,),
            one,
        ) && #[trigger] call_ensures(derivatives[i], (&again,), other) ==> one == other
    &&& forall|value: T, delta: T, one: T, other: T|
        #[trigger] gradient_moves(ascend, descend, mode, value, delta, one)
            && #[trigger] gradient_moves(ascend, descend, mode, value, delta, other) ==> one
            == other
}

proof fn lemma_traces_agree<T, D: Fn(&Vec<T>) -> T, U: Fn(T, T) -> T, W: Fn(T, T) -> T>(
    derivatives: Seq<D>,
    ascend: U,
    descend: W,
    mode: GradientMode,
    variables: nat,
    epochs: nat,
    one: Seq<Vec<T>>,
    other: Seq<Vec<T>>,
    r: nat,
)
    requires
        gradient_deterministic(derivatives, ascend, descend, mode),
        gradient_trace(derivatives, ascend, descend, mode, variables, epochs, one),
        gradient_trace(derivatives, ascend, descend, mode, variables, epochs, other),
        one.first()@ == other.first()@,
        variables <= derivatives.len(),
        r <= epochs * variables,
    ensures
        one[r as int]@ == other[r as int]@,
    decreases r,
{
    if r > 0 {
        lemma_traces_agree(
            derivatives,
            ascend,
            descend,
            mode,
            variables,
            epochs,
            one,
            other,
            (r - 1) as nat,
        );
        let k = r - 1;
        let i = k % variables as int;
        assert(0 <= i < variables) by (nonlinear_arith)
            requires
                0 <= k,
                0 < variables,
                i == k % variables as int,
        ;
        assert(gradient_update(derivatives, ascend, descend, mode, i, one[k], one[k + 1]));
        assert(gradient_update(derivatives, ascend, descend, mode, i, other[k], other[k + 1]));
    }
}

/// The gradient method holds no chance: where the derivatives and the step
/// that `mode` picks return one result only, the values that a run ends with
/// are determined by the values it starts from, so that two runs on the same
/// inputs end with the same values.
pub proof fn lemma_gradient_is_determined<
    T,
    D: Fn(&Vec<T>) -> T,
    U: Fn(T, T) -> T,
    W: Fn(T, T) -> T,
>(
    derivatives: Seq<D>,
    ascend: U,
    descend: W,
    mode: GradientMode,
    variables: nat,
    epochs: nat,
    one: Seq<Vec<T>>,
    other: Seq<Vec<T>>,
)
    requires
        gradient_deterministic(derivatives, ascend, descend, mode),
        gradient_trace(derivatives, ascend, descend, mode, variables, epochs, one),
        gradient_trace(derivatives, ascend, descend, mode, variables, epochs, other),
        one.first()@ == other.first()@,
        variables <= derivatives.len(),
    ensures
        one.last()@ == other.last()@,
{
    lemma_traces_agree(
        derivatives,
        ascend,
        descend,
        mode,
        variables,
        epochs,
        one,
        other,
        epochs * variables,
    );
}

} // verus!
