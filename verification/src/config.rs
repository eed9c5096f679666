//! What a proof system is made of: its fields and domains, its commitment scheme, and the
//! transcript from which its challenges are drawn.

use vstd::prelude::*;
use crate::domain::PolynomialSpace;
use crate::field::{ExtensionField, Field};
use crate::quotient::vectors_of;

verus! {

/// One step of a transcript.
pub enum TranscriptItem<F, EF, Com> {
    /// A value of the base field was observed.
    Value(F),
    /// A commitment was observed.
    Commitment(Com),
    /// A value of the extension was observed.
    Element(EF),
    /// A challenge was drawn.
    Draw,
}

/// A sequence that a spec function takes or gives, for implementations of the traits here that
/// are not themselves verified and have to write its type.
pub type Sequence<T> = Seq<T>;

/// The items of a transcript, first to last.
pub type Transcript<F, EF, Com> = Seq<TranscriptItem<F, EF, Com>>;

/// A table of values, row after row.
#[derive(Debug)]
pub struct RowMajorMatrix<F> {
    pub values: Vec<F>,
    pub width: usize,
}

/// For each commitment, for each matrix under it, the matrix's domain, and the points at which it
/// was opened, each with the values claimed there.
pub type OpeningClaims<Com, D, EF> = Seq<(Com, Seq<(D, Seq<(EF, Seq<EF>)>)>)>;

/// Opened points as the claims that they make.
pub open spec fn points_of<EF>(points: Seq<(EF, &Vec<EF>)>) -> Seq<(EF, Seq<EF>)> {
    points.map_values(|p: (EF, &Vec<EF>)| (p.0, p.1@))
}

/// Opened matrices as the claims that they make.
pub open spec fn matrices_of<D, EF>(matrices: Seq<(D, Vec<(EF, &Vec<EF>)>)>) -> Seq<
    (D, Seq<(EF, Seq<EF>)>),
> {
    matrices.map_values(|m: (D, Vec<(EF, &Vec<EF>)>)| (m.0, points_of(m.1@)))
}

/// Opened commitments as the claims that they make.
pub open spec fn claims_of<Com, D, EF>(
    claims: Seq<(&Com, Vec<(D, Vec<(EF, &Vec<EF>)>)>)>,
) -> OpeningClaims<Com, D, EF> {
    claims.map_values(|c: (&Com, Vec<(D, Vec<(EF, &Vec<EF>)>)>)| (*c.0, matrices_of(c.1@)))
}

/// A proof system.
///
/// Its commitment scheme and its challenger are deterministic: what they return is a function of
/// what they are given, and of the transcript so far.
pub trait StarkGenericConfig: Sized {
    /// The field of the trace.
    type Val: Field;

    /// The field of the challenges.
    type Challenge: ExtensionField<Self::Val>;

    type Domain: PolynomialSpace<Self::Val, Self::Challenge>;

    type Commitment;

    type OpeningProof;

    /// Why the commitment scheme rejects an opening.
    type PcsError;

    /// The state from which challenges are drawn.
    type Challenger;

    /// By how many bits the trace is lengthened to hide it.
    spec fn is_zk_spec(&self) -> usize;

    /// Whether the commitment scheme hides what is committed to.
    spec fn pcs_zk_spec(&self) -> bool;

    /// The domain on which columns of the given length are interpolated, where there is one.
    spec fn natural_domain_spec(&self, degree: usize) -> Option<Self::Domain>;

    /// The commitment to a matrix of the given values and width, over a domain.
    spec fn commitment_spec(
        &self,
        domain: Self::Domain,
        values: Seq<Self::Val>,
        width: usize,
    ) -> Self::Commitment;

    /// What went through a challenger since it was made.
    spec fn transcript(&self, challenger: Self::Challenger) -> Transcript<
        Self::Val,
        Self::Challenge,
        Self::Commitment,
    >;

    /// The challenge that is drawn after a transcript.
    spec fn draw_spec(
        &self,
        transcript: Transcript<Self::Val, Self::Challenge, Self::Commitment>,
    ) -> Self::Challenge;

    /// What the commitment scheme says of claims, given the argument for them and the transcript
    /// before it.
    spec fn opening_verdict(
        &self,
        claims: OpeningClaims<Self::Commitment, Self::Domain, Self::Challenge>,
        proof: Self::OpeningProof,
        transcript: Transcript<Self::Val, Self::Challenge, Self::Commitment>,
    ) -> Result<(), Self::PcsError>;

    /// The values at a point of the polynomials that repeat the given columns along a domain.
    spec fn periodic_spec(
        table: Seq<Seq<Self::Val>>,
        domain: Self::Domain,
        point: Self::Challenge,
    ) -> Seq<Self::Challenge>;

    fn is_zk(&self) -> (r: usize)
        ensures
            r == self.is_zk_spec(),
    ;

    fn pcs_zk(&self) -> (r: bool)
        ensures
            r == self.pcs_zk_spec(),
    ;

    fn natural_domain_for_degree(&self, degree: usize) -> (r: Option<Self::Domain>)
        ensures
            r == self.natural_domain_spec(degree),
    ;

    /// Commits to a matrix. The commitment is a function of the matrix where nothing is hidden.
    fn commit(&self, domain: Self::Domain, matrix: &RowMajorMatrix<Self::Val>) -> (r:
        Self::Commitment)
        ensures
            self.is_zk_spec() == 0 ==> r == self.commitment_spec(
                domain,
                matrix.values@,
                matrix.width,
            ),
    ;

    fn initialise_challenger(&self) -> (r: Self::Challenger)
        ensures
            self.transcript(r) == Seq::<
                TranscriptItem<Self::Val, Self::Challenge, Self::Commitment>,
            >::empty(),
    ;

    fn observe(&self, challenger: &mut Self::Challenger, value: Self::Val)
        ensures
            self.transcript(*final(challenger)) == self.transcript(*old(challenger)).push(
                TranscriptItem::Value(value),
            ),
    ;

    fn observe_commitment(&self, challenger: &mut Self::Challenger, commitment: &Self::Commitment)
        ensures
            self.transcript(*final(challenger)) == self.transcript(*old(challenger)).push(
                TranscriptItem::Commitment(*commitment),
            ),
    ;

    fn observe_algebra_element(&self, challenger: &mut Self::Challenger, element: Self::Challenge)
        ensures
            self.transcript(*final(challenger)) == self.transcript(*old(challenger)).push(
                TranscriptItem::Element(element),
            ),
    ;

    fn sample_algebra_element(&self, challenger: &mut Self::Challenger) -> (r: Self::Challenge)
        ensures
            r == self.draw_spec(self.transcript(*old(challenger))),
            self.transcript(*final(challenger)) == self.transcript(*old(challenger)).push(
                TranscriptItem::Draw,
            ),
    ;

    /// Whether the opening argument shows what is claimed.
    fn verify_openings(
        &self,
        claims: Vec<
            (
                &Self::Commitment,
                Vec<(Self::Domain, Vec<(Self::Challenge, &Vec<Self::Challenge>)>)>,
            ),
        >,
        proof: &Self::OpeningProof,
        challenger: &mut Self::Challenger,
    ) -> (r: Result<(), Self::PcsError>)
        ensures
            r == self.opening_verdict(
                claims_of(claims@),
                *proof,
                self.transcript(*old(challenger)),
            ),
    ;

    fn evaluate_periodic_at_point(
        table: &Vec<Vec<Self::Val>>,
        domain: Self::Domain,
        point: Self::Challenge,
    ) -> (r: Vec<Self::Challenge>)
        ensures
            r@ == Self::periodic_spec(vectors_of(table@), domain, point),
    ;
}

} // verus!
