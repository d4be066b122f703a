//! Shapes, argument checks and iteration schedules of a small toolkit for
//! gradient based fitting and multi-channel convolution.

pub mod convolution;
pub mod dot;
pub mod error;
pub mod gradient;
pub mod nest;
pub mod regression;
pub mod shape;

pub use convolution::{convolution, ConvolutionPlan, ConvolutionStep, Convolved};
pub use dot::{dot_product_and_sum, paired_len};
pub use error::NumericalError;
pub use gradient::{gradient, GradientMode, GradientPlan, GradientStep};
pub use nest::{LoopNest, Position};
pub use regression::{FitPlan, FitStep, Model, Strategy};
pub use shape::Shape;
