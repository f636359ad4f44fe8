//! An automatic-differentiation engine built around instruction tapes.
//!
//! A numeric computation is expressed over the dual scalar type `AFloat`,
//! which carries a value together with a directional derivative (tapeless
//! forward mode).  When the computation is run against a recording context
//! (`AContext`), every elementary operation is also appended to an
//! instruction tape.  The frozen tape (`ATape`) can then be replayed at new
//! inputs (zero order), propagated forward (directional derivatives) or
//! backward (adjoints).
//!
//! On top of the tape interpreters sit:
//! - the abs-normal decomposition, which separates the smooth structure of a
//!   piecewise-smooth tape from its absolute-value kinks,
//! - the generalized-Jacobian driver, which resolves the Jacobian ambiguity
//!   at kinks by a fixed-point sign iteration, and
//! - the binomial checkpointing scheduler, which lets reverse traversals of a
//!   long step sequence run in bounded memory.
//!
//! All arithmetic is stated over the abstract `Scalar` trait, whose
//! operations are modelled by per-type spec functions; a caller supplies the
//! concrete numeric type.

pub mod scalar;
pub use scalar::Scalar;

pub mod operation;
pub use operation::{OpCode, Operation};

pub mod afloat;
pub use afloat::AFloat;

pub mod tape;
pub use tape::ATape;

pub mod acontext;
pub use acontext::AContext;

pub mod dense;

pub mod checkpointing;
pub use checkpointing::{beta, find_t, next_checkpoint, reverse_sequence, schedule};

pub mod abs_normal;
pub use abs_normal::{abs_normal, AbsNormalForm, AbsNormalTape, AnfPart};

pub mod generalized_jacobian;
pub use generalized_jacobian::{bit_iter, generalized_jacobian, generalized_jacobian_chain,
    generalized_jacobian_tape, BitIter, GeneralizedJacobian};

pub mod function;
pub use function::{jacobian_forward, jacobian_reverse, tape_of, tape_of_link, Chain, Function};

pub mod errors;
pub use errors::adv_error;
