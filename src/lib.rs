//! Medoid-silhouette k-medoids clustering (PAM BUILD followed by a
//! silhouette-driven SWAP search) over a dissimilarity matrix.
//!
//! Distances are unsigned integers. Losses are exact fixed-point numbers:
//! an `i128` value `v` stands for `v / LOSS_SCALE`.

pub mod arrayadapter;
pub mod reco;
pub mod assign;
pub mod swap;
pub mod initialize;
pub mod pammedsil;

pub use arrayadapter::{ArrayAdapter, LowerTriangle};
pub use reco::{ratio_loss, DistancePair, Reco, LOSS_SCALE, NO_MEDOID};

pub use assign::{initial_assignment, do_swap};
pub use pammedsil::{pammedsil, pammedsil_swap};
pub use swap::{find_best_swap, swap_step, StepOutcome};
