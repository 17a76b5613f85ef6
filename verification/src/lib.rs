//! Exact rational arithmetic and a left-endpoint Riemann-sum integrator.
//!
//! The `Fraction` type carries a signed numerator over a signed denominator
//! and offers arithmetic, reduction by greatest common divisors, and
//! comparison. The integrator sums `f(x) * step` over `[min, max)` one step
//! at a time, entirely in fraction arithmetic. Every operation reports
//! division by zero and fixed-width overflow explicitly instead of producing
//! undefined values.

pub mod rat;
pub mod gcd;
pub mod fraction;
pub mod integrator;

pub use rat::Rat;
pub use fraction::Fraction;
pub use fraction::FractionError;
pub use gcd::gcd;
pub use integrator::integral;
pub use integrator::Integrand;
pub use integrator::Square;
pub use integrator::Identity;
pub use integrator::ConstOne;
