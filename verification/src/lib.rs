//! A verified STARK verifier.
//!
//! `verification::verify` decides whether a proof shows that a trace satisfies the constraints of
//! an AIR. Its contract says for every proof what is returned. Each of these modules holds a step:
//!
//! - `preprocessed` and `layout`: the domains of a proof, and the commitment to the part of the
//!   trace that the verifier knows;
//! - `shape`: how many values a proof must open;
//! - `transcript`: what goes through the challenger, and the challenges that come of it;
//! - `openings`: the claims that the commitment scheme is asked about;
//! - `quotient`, `bus` and `constraints`: what the opened values must satisfy.
//!
//! A proof system is described by `config::StarkGenericConfig`, an AIR by `air::MidenAir`. `field`
//! and `domain` say what is asked of the algebra; `goldilocks` and `coset` are an instance of it.
//! That they are one rests on `primality`, `residues` and `subgroups`.
//!
//! `laws` and `acceptance` state what holds of the verifier as a whole, above all when a proof is
//! accepted. `interpolation` and `subgroups` show that recomposition gives the quotient. The
//! modules whose names end in `_laws` say of each step, in terms of what goes into it alone, what
//! comes out.

pub mod acceptance;
pub mod air;
pub mod algebra;
pub mod bus;
pub mod bus_laws;
pub mod config;
pub mod constraint_laws;
pub mod constraints;
pub mod coset;
pub mod domain;
pub mod error;
pub mod field;
pub mod field_laws;
pub mod goldilocks;
pub mod interpolation;
pub mod laws;
pub mod layout;
pub mod layout_laws;
pub mod opening_laws;
pub mod openings;
pub mod preprocessed;
pub mod primality;
pub mod quotient;
pub mod quotient_laws;
pub mod residues;
pub mod shape;
pub mod shape_laws;
pub mod stark_proof;
pub mod subgroups;
pub mod transcript;
pub mod transcript_laws;
pub mod verdict_laws;
pub mod verification;
