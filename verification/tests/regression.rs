use nalgebra::DMatrix;
use neural_nets::{FitPlan, FitStep, Model, NumericalError, Shape, Strategy};

type Matrix = DMatrix<f64>;

fn create_matrix(nrows: usize, ncols: usize, data: Vec<f64>) -> Matrix {
    Shape::for_data(nrows, ncols, data.len()).expect("data must fill the matrix");
    DMatrix::from_row_iterator(nrows, ncols, data)
}

fn shape_of(m: &Matrix) -> Shape {
    Shape::new(m.nrows(), m.ncols())
}

fn sigmoid(x: f64) -> f64 {
    1.0 / (1.0 + (-x).exp())
}

fn block_delta(plan: &FitPlan, theta: &Matrix, x: &Matrix, y: &Matrix, start: usize, len: usize) -> Matrix {
    let xb = x.rows(start, len);
    let yb = y.rows(start, len);
    let factor = 1.0 / len as f64;
    match plan.model() {
        Model::Linear => (theta * xb.transpose() - yb.transpose()) * xb.scale(factor),
        Model::Logistic => {
            let gx = (theta * xb.transpose()).map(sigmoid);
            let gx_minus_y = &gx - yb.transpose();
            let one_minus_gx = gx.map(|v| 1.0 - v);
            let delta = gx_minus_y.component_mul(&gx).component_mul(&one_minus_gx);
            (delta * xb).scale(factor)
        }
    }
}

fn coordinate_delta(plan: &FitPlan, theta: &Matrix, x: &Matrix, y: &Matrix, sample: usize, feature: usize) -> f64 {
    let guess = theta.component_mul(&x.rows(sample, 1)).sum();
    match plan.model() {
        Model::Linear => (guess - y[(sample, 0)]) * x[(sample, feature)],
        Model::Logistic => {
            let gx = sigmoid(guess);
            (gx - y[(sample, 0)]) * gx * (1.0 - gx) * x[(sample, feature)]
        }
    }
}

fn fit(
    model: Model,
    strategy: Strategy,
    x: &Matrix,
    y: &Matrix,
    initial_theta: &Matrix,
    alpha: f64,
    epochs: u128,
) -> Result<Matrix, NumericalError> {
    let plan = FitPlan::new(model, strategy, shape_of(x), shape_of(y), shape_of(initial_theta), epochs)?;
    Ok(plan.run(initial_theta.clone(), |mut theta, update| {
        match update {
            FitStep::Block { start, len, .. } => {
                theta -= alpha * block_delta(&plan, &theta, x, y, start, len);
            }
            FitStep::Coordinate { sample, feature, .. } => {
                let delta = coordinate_delta(&plan, &theta, x, y, sample, feature);
                theta[(0, feature)] -= alpha * delta;
            }
        }
        theta
    }))
}

fn predict_linear(theta: &Matrix, x: &Matrix) -> f64 {
    shape_of(theta).elementwise(shape_of(x)).expect("input must have the shape of theta");
    theta.component_mul(x).sum()
}

fn predict_logistic(theta: &Matrix, x: &Matrix) -> bool {
    sigmoid(predict_linear(theta, x)) > 0.5
}

fn bits(m: &Matrix) -> Vec<u64> {
    m.iter().map(|v| v.to_bits()).collect()
}

struct LinearData {
    x: Matrix,
    y: Matrix,
    initial_theta: Matrix,
    predictions: Vec<(Matrix, f64)>,
}

fn linear_data() -> LinearData {
    LinearData {
        x: create_matrix(3, 2, vec![1.0, 50.0, 1.0, 60.0, 1.0, 100.0]),
        y: create_matrix(3, 1, vec![120.0, 150.0, 250.0]),
        initial_theta: create_matrix(1, 2, vec![1.0, 1.0]),
        predictions: vec![
            (create_matrix(1, 2, vec![1.0, 50.0]), 120.0),
            (create_matrix(1, 2, vec![1.0, 60.0]), 150.0),
            (create_matrix(1, 2, vec![1.0, 100.0]), 250.0),
        ],
    }
}

fn squared_error(data: &LinearData, theta: &Matrix) -> f64 {
    data.predictions
        .iter()
        .fold(0.0, |acc, (input, output)| acc + (output - predict_linear(theta, input)).powi(2))
}

struct LogicalAndData {
    x: Matrix,
    y: Matrix,
    initial_theta: Matrix,
    predictions: Vec<(Matrix, bool)>,
}

fn logical_and_data() -> LogicalAndData {
    LogicalAndData {
        x: create_matrix(
            4,
            3,
            vec![1.0, 0.0, 0.0, 1.0, 0.0, 1.0, 1.0, 1.0, 0.0, 1.0, 1.0, 1.0],
        ),
        y: create_matrix(4, 1, vec![0.0, 0.0, 0.0, 1.0]),
        initial_theta: create_matrix(1, 3, vec![1.0, 1.0, 1.0]),
        predictions: vec![
            (create_matrix(1, 3, vec![1.0, 0.0, 0.0]), false),
            (create_matrix(1, 3, vec![1.0, 0.0, 1.0]), false),
            (create_matrix(1, 3, vec![1.0, 1.0, 0.0]), false),
            (create_matrix(1, 3, vec![1.0, 1.0, 1.0]), true),
        ],
    }
}

#[test]
fn mini_batch_linear_regression_3_samples() {
    let data = linear_data();
    let theta = fit(
        Model::Linear,
        Strategy::MiniBatch { size: 1 },
        &data.x,
        &data.y,
        &data.initial_theta,
        0.0001,
        1000,
    )
    .unwrap();
    let mean_squared_error = squared_error(&data, &theta);

    assert!(mean_squared_error < 30.0);
}

#[test]
fn linear_regression_mini_batch_linear_regression_3_samples() {
    let data = linear_data();
    let plan = FitPlan::new(
        Model::Linear,
        Strategy::MiniBatch { size: 1 },
        shape_of(&data.x),
        shape_of(&data.y),
        shape_of(&data.initial_theta),
        1000,
    )
    .unwrap();
    let mut theta = data.initial_theta.clone();
    let mut step = plan.first();
    let mut updates = 0;
    while let Some(update) = step {
        if let FitStep::Block { start, len, .. } = update {
            theta -= 0.0001 * block_delta(&plan, &theta, &data.x, &data.y, start, len);
        }
        updates += 1;
        step = plan.next(update);
    }
    let mean_squared_error = squared_error(&data, &theta);

    assert_eq!(updates, 3000);
    assert!(mean_squared_error < 30.0);
}

#[test]
fn mini_batch_logistic_regression_on_logical_and_problem() {
    let data = logical_and_data();
    let theta = fit(
        Model::Logistic,
        Strategy::MiniBatch { size: 1 },
        &data.x,
        &data.y,
        &data.initial_theta,
        0.5,
        1000,
    )
    .unwrap();

    for (input, output) in data.predictions {
        let result = predict_logistic(&theta, &input);
        assert_eq!(result, output);
    }
}

#[test]
fn batch_linear_regression_3_samples() {
    let data = linear_data();
    let theta =
        fit(Model::Linear, Strategy::Batch, &data.x, &data.y, &data.initial_theta, 0.0001, 1000)
            .unwrap();
    assert!(squared_error(&data, &theta) < 30.0);
}

#[test]
fn stochastic_linear_regression_3_samples() {
    let data = linear_data();
    let theta = fit(
        Model::Linear,
        Strategy::Stochastic,
        &data.x,
        &data.y,
        &data.initial_theta,
        0.0001,
        1000,
    )
    .unwrap();
    assert!(squared_error(&data, &theta) < 30.0);
}

#[test]
fn batch_logistic_regression_on_logical_and_problem() {
    let data = logical_and_data();
    let theta =
        fit(Model::Logistic, Strategy::Batch, &data.x, &data.y, &data.initial_theta, 0.5, 1000)
            .unwrap();
    for (input, output) in data.predictions {
        assert_eq!(predict_logistic(&theta, &input), output);
    }
}

#[test]
fn stochastic_logistic_regression_on_logical_and_problem() {
    let data = logical_and_data();
    let theta = fit(
        Model::Logistic,
        Strategy::Stochastic,
        &data.x,
        &data.y,
        &data.initial_theta,
        0.5,
        1000,
    )
    .unwrap();
    for (input, output) in data.predictions {
        assert_eq!(predict_logistic(&theta, &input), output);
    }
}

#[test]
fn logistic_mini_batches_of_two_fit_the_logical_and_problem() {
    let data = logical_and_data();
    let theta = fit(
        Model::Logistic,
        Strategy::MiniBatch { size: 2 },
        &data.x,
        &data.y,
        &data.initial_theta,
        0.5,
        1000,
    )
    .unwrap();
    for (input, output) in data.predictions {
        assert_eq!(predict_logistic(&theta, &input), output);
    }
}

#[test]
fn one_linear_update_by_hand() {
    // theta = [1, 1], sample [1, 2] with target 5: guess 3, distance -2.
    let x = create_matrix(1, 2, vec![1.0, 2.0]);
    let y = create_matrix(1, 1, vec![5.0]);
    let theta0 = create_matrix(1, 2, vec![1.0, 1.0]);
    let batch = fit(Model::Linear, Strategy::Batch, &x, &y, &theta0, 0.5, 1).unwrap();
    assert_eq!(batch, create_matrix(1, 2, vec![2.0, 3.0]));
    // One parameter at a time: theta[0] becomes 2, so the guess for the
    // second parameter is 4 and its distance -1.
    let stochastic = fit(Model::Linear, Strategy::Stochastic, &x, &y, &theta0, 0.5, 1).unwrap();
    assert_eq!(stochastic, create_matrix(1, 2, vec![2.0, 2.0]));
}

#[test]
fn one_logistic_update_by_hand() {
    // theta = [0], sample [1] with target 1: guess 0.5, slope 0.25.
    let x = create_matrix(1, 1, vec![1.0]);
    let y = create_matrix(1, 1, vec![1.0]);
    let theta0 = create_matrix(1, 1, vec![0.0]);
    for strategy in [Strategy::Batch, Strategy::MiniBatch { size: 1 }, Strategy::Stochastic] {
        let theta = fit(Model::Logistic, strategy, &x, &y, &theta0, 1.0, 1).unwrap();
        assert_eq!(theta, create_matrix(1, 1, vec![0.125]));
    }
}

#[test]
fn predictions_take_the_weighted_sum() {
    let theta = create_matrix(1, 3, vec![-1.5, 1.0, 1.0]);
    assert_eq!(predict_linear(&theta, &create_matrix(1, 3, vec![1.0, 1.0, 1.0])), 0.5);
    assert!(predict_logistic(&theta, &create_matrix(1, 3, vec![1.0, 1.0, 1.0])));
    assert!(!predict_logistic(&theta, &create_matrix(1, 3, vec![1.0, 0.0, 1.0])));
    // A weighted sum of exactly zero gives a guess of exactly one half: not above it.
    let flat = create_matrix(1, 3, vec![0.0, 0.0, 0.0]);
    assert!(!predict_logistic(&flat, &create_matrix(1, 3, vec![1.0, 1.0, 1.0])));
}

#[test]
fn fitting_twice_gives_the_same_bits() {
    let linear = linear_data();
    let and = logical_and_data();
    for strategy in [Strategy::Batch, Strategy::MiniBatch { size: 1 }, Strategy::Stochastic] {
        let once = fit(Model::Linear, strategy, &linear.x.clone(), &linear.y.clone(), &linear.initial_theta.clone(), 0.0001, 50).unwrap();
        let again = fit(Model::Linear, strategy, &linear.x.clone(), &linear.y.clone(), &linear.initial_theta.clone(), 0.0001, 50).unwrap();
        assert_eq!(bits(&once), bits(&again));
        let once = fit(Model::Logistic, strategy, &and.x.clone(), &and.y.clone(), &and.initial_theta.clone(), 0.5, 50).unwrap();
        let again = fit(Model::Logistic, strategy, &and.x.clone(), &and.y.clone(), &and.initial_theta.clone(), 0.5, 50).unwrap();
        assert_eq!(bits(&once), bits(&again));
    }
}

#[test]
fn logistic_mini_batch_of_all_samples_is_batch() {
    let and = logical_and_data();
    let batch = fit(Model::Logistic, Strategy::Batch, &and.x, &and.y, &and.initial_theta, 0.5, 100).unwrap();
    let whole = fit(Model::Logistic, Strategy::MiniBatch { size: 4 }, &and.x, &and.y, &and.initial_theta, 0.5, 100).unwrap();
    assert_eq!(bits(&batch), bits(&whole));
}

#[test]
fn linear_mini_batch_of_the_only_sample_is_batch() {
    let x = create_matrix(1, 2, vec![1.0, 50.0]);
    let y = create_matrix(1, 1, vec![120.0]);
    let theta0 = create_matrix(1, 2, vec![1.0, 1.0]);
    let batch = fit(Model::Linear, Strategy::Batch, &x, &y, &theta0, 0.0001, 100).unwrap();
    let whole = fit(Model::Linear, Strategy::MiniBatch { size: 1 }, &x, &y, &theta0, 0.0001, 100).unwrap();
    assert_eq!(bits(&batch), bits(&whole));
}

#[test]
fn linear_mini_batch_of_all_samples_is_batch() {
    let data = linear_data();
    for epochs in [1, 2, 1000] {
        let batch =
            fit(Model::Linear, Strategy::Batch, &data.x, &data.y, &data.initial_theta, 0.0001, epochs)
                .unwrap();
        let whole = fit(
            Model::Linear,
            Strategy::MiniBatch { size: 3 },
            &data.x,
            &data.y,
            &data.initial_theta,
            0.0001,
            epochs,
        )
        .unwrap();
        assert_eq!(bits(&batch), bits(&whole));
    }
}

#[test]
fn linear_mini_batch_of_all_samples_fits_3_samples() {
    let data = linear_data();
    let theta = fit(
        Model::Linear,
        Strategy::MiniBatch { size: 3 },
        &data.x,
        &data.y,
        &data.initial_theta,
        0.0001,
        1000,
    )
    .unwrap();
    assert_eq!(shape_of(&theta), Shape::new(1, 2));
    assert!(squared_error(&data, &theta) < 30.0);
}

#[test]
fn linear_block_of_two_samples_takes_the_batch_step() {
    // The guesses are [0, 0], their distance to the targets [-1, -1]; times
    // the samples scaled by one half that is [-0.5, -0.5].
    let x = create_matrix(2, 2, vec![1.0, 0.0, 0.0, 1.0]);
    let y = create_matrix(2, 1, vec![1.0, 1.0]);
    let theta0 = create_matrix(1, 2, vec![0.0, 0.0]);
    let expected = create_matrix(1, 2, vec![0.5, 0.5]);
    let blocks = fit(Model::Linear, Strategy::MiniBatch { size: 2 }, &x, &y, &theta0, 1.0, 1);
    assert_eq!(blocks, Ok(expected.clone()));
    let batch = fit(Model::Linear, Strategy::Batch, &x, &y, &theta0, 1.0, 1);
    assert_eq!(batch, Ok(expected));
}

#[test]
fn linear_mini_batches_of_several_samples_fit() {
    // Four samples on the line y = 2x + 1, taken two at a time.
    let x = create_matrix(4, 2, vec![1.0, 0.0, 1.0, 1.0, 1.0, 2.0, 1.0, 3.0]);
    let y = create_matrix(4, 1, vec![1.0, 3.0, 5.0, 7.0]);
    let theta0 = create_matrix(1, 2, vec![0.0, 0.0]);
    let theta =
        fit(Model::Linear, Strategy::MiniBatch { size: 2 }, &x, &y, &theta0, 0.1, 2000).unwrap();
    assert!((theta[(0, 0)] - 1.0).abs() < 1e-6);
    assert!((theta[(0, 1)] - 2.0).abs() < 1e-6);

    // The first block alone: guesses [0, 0], distance [-1, -3], so the
    // parameters move by half of [1 + 3, 0 + 3] times the step size.
    let one_block = fit(Model::Linear, Strategy::MiniBatch { size: 2 }, &x.rows(0, 2).into_owned(), &y.rows(0, 2).into_owned(), &theta0, 1.0, 1);
    assert_eq!(one_block, Ok(create_matrix(1, 2, vec![2.0, 1.5])));
}

#[test]
fn mini_batch_size_that_does_not_divide_the_samples_is_out_of_range() {
    let and = logical_and_data();
    let result = fit(Model::Logistic, Strategy::MiniBatch { size: 3 }, &and.x, &and.y, &and.initial_theta, 0.5, 10);
    assert_eq!(result, Err(NumericalError::IndexOutOfRange));
    let result = fit(Model::Logistic, Strategy::MiniBatch { size: 5 }, &and.x, &and.y, &and.initial_theta, 0.5, 10);
    assert_eq!(result, Err(NumericalError::IndexOutOfRange));
    // Without a round no block is cut, and the initial parameters come back.
    let result = fit(Model::Logistic, Strategy::MiniBatch { size: 3 }, &and.x, &and.y, &and.initial_theta, 0.5, 0);
    assert_eq!(result, Ok(and.initial_theta.clone()));
    let linear = linear_data();
    let result = fit(Model::Linear, Strategy::MiniBatch { size: 2 }, &linear.x, &linear.y, &linear.initial_theta, 0.0001, 10);
    assert_eq!(result, Err(NumericalError::IndexOutOfRange));
}

#[test]
fn mini_batch_size_zero_is_an_invalid_argument() {
    let and = logical_and_data();
    for model in [Model::Linear, Model::Logistic] {
        let result = fit(model, Strategy::MiniBatch { size: 0 }, &and.x, &and.y, &and.initial_theta, 0.5, 10);
        assert_eq!(result, Err(NumericalError::InvalidArgument));
    }
    // The size is looked at before the shapes are.
    let plan = FitPlan::new(Model::Logistic, Strategy::MiniBatch { size: 0 }, Shape::new(4, 3), Shape::new(5, 1), Shape::new(1, 3), 1);
    assert!(matches!(plan, Err(NumericalError::InvalidArgument)));
}

#[test]
fn fit_rejects_shapes_that_do_not_belong_together() {
    let x = Shape::new(4, 3);
    let y = Shape::new(4, 1);
    let theta = Shape::new(1, 3);
    for model in [Model::Linear, Model::Logistic] {
        for strategy in [Strategy::Batch, Strategy::MiniBatch { size: 1 }, Strategy::Stochastic] {
            assert!(FitPlan::new(model, strategy, x, y, theta, 1).is_ok());
            for (bad_x, bad_y, bad_theta) in [
                (x, Shape::new(3, 1), theta),
                (x, Shape::new(4, 2), theta),
                (x, Shape::new(1, 4), theta),
                (x, y, Shape::new(1, 2)),
                (x, y, Shape::new(3, 1)),
                (x, y, Shape::new(2, 3)),
            ] {
                assert!(matches!(
                    FitPlan::new(model, strategy, bad_x, bad_y, bad_theta, 1),
                    Err(NumericalError::DimensionMismatch)
                ));
            }
        }
    }
}

#[test]
fn fit_steps_run_in_order() {
    let x = Shape::new(4, 2);
    let y = Shape::new(4, 1);
    let theta = Shape::new(1, 2);

    let collect = |strategy: Strategy| {
        let plan = FitPlan::new(Model::Logistic, strategy, x, y, theta, 2).unwrap();
        let mut seen = Vec::new();
        let mut step = plan.first();
        while let Some(update) = step {
            seen.push(update);
            step = plan.next(update);
        }
        seen
    };

    assert_eq!(
        collect(Strategy::Batch),
        vec![
            FitStep::Block { epoch: 0, start: 0, len: 4 },
            FitStep::Block { epoch: 1, start: 0, len: 4 },
        ]
    );
    assert_eq!(
        collect(Strategy::MiniBatch { size: 2 }),
        vec![
            FitStep::Block { epoch: 0, start: 0, len: 2 },
            FitStep::Block { epoch: 0, start: 2, len: 2 },
            FitStep::Block { epoch: 1, start: 0, len: 2 },
            FitStep::Block { epoch: 1, start: 2, len: 2 },
        ]
    );
    assert_eq!(collect(Strategy::MiniBatch { size: 4 }), collect(Strategy::Batch));
    let mut coordinates = Vec::new();
    for epoch in 0..2 {
        for sample in 0..4 {
            for feature in 0..2 {
                coordinates.push(FitStep::Coordinate { epoch, sample, feature });
            }
        }
    }
    assert_eq!(collect(Strategy::Stochastic), coordinates);
}

#[test]
fn fit_next_knows_no_foreign_step() {
    let plan = FitPlan::new(
        Model::Logistic,
        Strategy::MiniBatch { size: 2 },
        Shape::new(4, 2),
        Shape::new(4, 1),
        Shape::new(1, 2),
        1,
    )
    .unwrap();
    assert_eq!(plan.next(FitStep::Block { epoch: 0, start: 1, len: 2 }), None);
    assert_eq!(plan.next(FitStep::Block { epoch: 0, start: 0, len: 4 }), None);
    assert_eq!(plan.next(FitStep::Block { epoch: 0, start: 4, len: 2 }), None);
    assert_eq!(plan.next(FitStep::Block { epoch: 1, start: 0, len: 2 }), None);
    assert_eq!(plan.next(FitStep::Coordinate { epoch: 0, sample: 0, feature: 0 }), None);
    assert_eq!(plan.next(FitStep::Block { epoch: 0, start: 2, len: 2 }), None);
    assert_eq!(
        plan.next(FitStep::Block { epoch: 0, start: 0, len: 2 }),
        Some(FitStep::Block { epoch: 0, start: 2, len: 2 })
    );
}

#[test]
fn fit_without_samples_or_epochs_leaves_theta_alone() {
    let data = linear_data();
    let theta =
        fit(Model::Linear, Strategy::Stochastic, &data.x, &data.y, &data.initial_theta, 0.1, 0)
            .unwrap();
    assert_eq!(theta, data.initial_theta);
    let none = FitPlan::new(
        Model::Linear,
        Strategy::MiniBatch { size: 3 },
        Shape::new(0, 2),
        Shape::new(0, 1),
        Shape::new(1, 2),
        5,
    )
    .unwrap();
    assert_eq!(none.first(), None);
    assert_eq!(none.samples(), 0);
    assert_eq!(none.features(), 2);
    assert_eq!(none.epochs(), 5);
}

#[test]
fn fit_of_no_round_returns_the_initial_parameters() {
    let linear = linear_data();
    let and = logical_and_data();
    for strategy in [
        Strategy::Batch,
        Strategy::MiniBatch { size: 1 },
        Strategy::MiniBatch { size: 2 },
        Strategy::MiniBatch { size: 5 },
        Strategy::Stochastic,
    ] {
        let theta = fit(Model::Linear, strategy, &linear.x, &linear.y, &linear.initial_theta, 0.0001, 0);
        assert_eq!(theta.map(|t| bits(&t)), Ok(bits(&linear.initial_theta)));
        let theta = fit(Model::Logistic, strategy, &and.x, &and.y, &and.initial_theta, 0.5, 0);
        assert_eq!(theta.map(|t| bits(&t)), Ok(bits(&and.initial_theta)));
    }
    let plan = FitPlan::new(
        Model::Linear,
        Strategy::MiniBatch { size: 2 },
        Shape::new(3, 2),
        Shape::new(3, 1),
        Shape::new(1, 2),
        0,
    )
    .unwrap();
    assert_eq!(plan.first(), None);
    assert_eq!(plan.next(FitStep::Block { epoch: 0, start: 0, len: 2 }), None);
}

#[test]
fn fit_of_no_round_still_checks_size_and_shapes() {
    let and = logical_and_data();
    let result = fit(Model::Logistic, Strategy::MiniBatch { size: 0 }, &and.x, &and.y, &and.initial_theta, 0.5, 0);
    assert_eq!(result, Err(NumericalError::InvalidArgument));
    let result = fit(Model::Logistic, Strategy::MiniBatch { size: 3 }, &and.x, &and.initial_theta, &and.initial_theta, 0.5, 0);
    assert_eq!(result, Err(NumericalError::DimensionMismatch));
    let result = fit(Model::Linear, Strategy::Batch, &and.x, &and.y, &and.x, 0.5, 0);
    assert_eq!(result, Err(NumericalError::DimensionMismatch));
}
