use std::cell::RefCell;

use miden_stark_verifier::air::{
    AirWithBoundaryConstraints, ConstraintPoint, MidenAir, VerifierConstraintFolder,
};
use miden_stark_verifier::bus::{BusType, bus_logup_boundary_varlen, bus_multiset_boundary_varlen};
use miden_stark_verifier::config::{
    OpeningClaims, RowMajorMatrix, Sequence, StarkGenericConfig, Transcript,
};
use miden_stark_verifier::constraints::{
    try_verify_constraints, verifier_row_to_ext, verify_constraints,
};
use miden_stark_verifier::coset::Coset;
use miden_stark_verifier::domain::{LagrangeSelectors, PolynomialSpace};
use miden_stark_verifier::error::VerificationError;
use miden_stark_verifier::field::{ExtensionField, Field};
use miden_stark_verifier::goldilocks::{Felt, QuadFelt};
use miden_stark_verifier::layout::plan_layout;
use miden_stark_verifier::preprocessed::{
    process_preprocessed_trace, try_process_preprocessed_trace,
};
use miden_stark_verifier::quotient::recompose_quotient_from_chunks;
use miden_stark_verifier::stark_proof::{Commitments, OpenedValues, Proof};
use miden_stark_verifier::verification::{try_verify, verify, verify_opened};

fn f(n: u64) -> Felt {
    Felt::new(n)
}

fn q(a: u64, b: u64) -> QuadFelt {
    QuadFelt::new(f(a), f(b))
}

fn lift(x: Felt) -> QuadFelt {
    QuadFelt::from_base(x)
}

/// A coset, which may be told to know no next point, or to come apart in too few parts.
#[derive(Clone, Copy, Debug, PartialEq)]
struct Space {
    coset: Coset,
    no_next: bool,
    one_part: bool,
}

impl PolynomialSpace<Felt, QuadFelt> for Space {
    fn size(self) -> usize {
        self.coset.size()
    }

    fn first_point(self) -> Felt {
        self.coset.first_point()
    }

    fn vanishing_poly_at_point(self, x: QuadFelt) -> QuadFelt {
        self.coset.vanishing_poly_at_point(x)
    }

    fn vanishing_poly_at_base_point(self, x: Felt) -> Felt {
        self.coset.vanishing_poly_at_base_point(x)
    }

    fn next_point(self, x: QuadFelt) -> Option<QuadFelt> {
        if self.no_next { None } else { self.coset.next_point(x) }
    }

    fn selectors_at_point(self, x: QuadFelt) -> Option<LagrangeSelectors<QuadFelt>> {
        self.coset.selectors_at_point(x)
    }

    fn create_disjoint_domain(self, min_size: usize) -> Option<Space> {
        Some(Space { coset: self.coset.create_disjoint_domain(min_size)?, ..self })
    }

    fn split_domains(self, num_chunks: usize) -> Option<Vec<Space>> {
        let parts = self.coset.split_domains(num_chunks)?;
        let count = if self.one_part { 1 } else { parts.len() };
        Some(parts.iter().take(count).map(|c| Space { coset: *c, ..self }).collect())
    }

    // What follows is for proofs alone, and never runs.

    fn is_space(self) -> bool {
        unreachable!()
    }

    fn size_spec(self) -> usize {
        unreachable!()
    }

    fn first_point_spec(self) -> Felt {
        unreachable!()
    }

    fn vanishing_spec(self, _: QuadFelt) -> QuadFelt {
        unreachable!()
    }

    fn vanishing_base_spec(self, _: Felt) -> Felt {
        unreachable!()
    }

    fn next_point_spec(self, _: QuadFelt) -> Option<QuadFelt> {
        unreachable!()
    }

    fn selectors_spec(self, _: QuadFelt) -> Option<LagrangeSelectors<QuadFelt>> {
        unreachable!()
    }

    fn disjoint_domain_spec(self, _: usize) -> Option<Space> {
        unreachable!()
    }

    fn split_spec(self, _: usize) -> Option<Sequence<Space>> {
        unreachable!()
    }

    fn law_vanishes_at_first_point(self) {}

    fn law_vanishing_closed(self, _: Felt) {}

    fn law_vanishing_extends(self, _: Felt) {}
}

#[derive(Clone, Copy, Debug, PartialEq)]
enum Item {
    Value(Felt),
    Commitment(u64),
    Element(QuadFelt),
    Draw,
}

fn draw(items: &[Item]) -> QuadFelt {
    let mut h: u64 = 0xcbf2_9ce4_8422_2325;
    let mut mix = |n: u64| h = (h ^ n).wrapping_mul(0x0100_0000_01b3).rotate_left(17);
    for item in items {
        match item {
            Item::Value(x) => {
                mix(1);
                mix(x.as_canonical_u64());
            }
            Item::Commitment(c) => {
                mix(2);
                mix(*c);
            }
            Item::Element(x) => {
                mix(3);
                mix(x.coefficients().0.as_canonical_u64());
                mix(x.coefficients().1.as_canonical_u64());
            }
            Item::Draw => mix(4),
        }
    }
    q(h, h.rotate_left(32) ^ 0x5555)
}

type Claims = Vec<(u64, Vec<(Space, Vec<(QuadFelt, Vec<QuadFelt>)>)>)>;

struct Config {
    is_zk: usize,
    hiding: bool,
    no_next: bool,
    one_part: bool,
    asked: RefCell<Option<(Claims, Vec<Item>)>>,
}

impl Config {
    fn plain() -> Config {
        Config { is_zk: 0, hiding: false, no_next: false, one_part: false, asked: RefCell::new(None) }
    }

    fn hiding() -> Config {
        Config { is_zk: 1, hiding: true, ..Config::plain() }
    }

    fn domain(&self, log_size: usize) -> Space {
        self.natural_domain_for_degree(1 << log_size).unwrap()
    }
}

impl StarkGenericConfig for Config {
    type Val = Felt;
    type Challenge = QuadFelt;
    type Domain = Space;
    type Commitment = u64;
    type OpeningProof = bool;
    type PcsError = &'static str;
    type Challenger = Vec<Item>;

    fn is_zk(&self) -> usize {
        self.is_zk
    }

    fn pcs_zk(&self) -> bool {
        self.hiding
    }

    fn natural_domain_for_degree(&self, degree: usize) -> Option<Space> {
        if !degree.is_power_of_two() {
            return None;
        }
        let coset = Coset::new(Felt::one(), degree.trailing_zeros() as usize)?;
        Some(Space { coset, no_next: self.no_next, one_part: self.one_part })
    }

    fn commit(&self, domain: Space, matrix: &RowMajorMatrix<Felt>) -> u64 {
        let mut c = 1000 + domain.size() as u64 + 7 * matrix.width as u64;
        for v in &matrix.values {
            c = c.wrapping_mul(31).wrapping_add(v.as_canonical_u64());
        }
        c
    }

    fn initialise_challenger(&self) -> Vec<Item> {
        vec![]
    }

    fn observe(&self, challenger: &mut Vec<Item>, value: Felt) {
        challenger.push(Item::Value(value));
    }

    fn observe_commitment(&self, challenger: &mut Vec<Item>, commitment: &u64) {
        challenger.push(Item::Commitment(*commitment));
    }

    fn observe_algebra_element(&self, challenger: &mut Vec<Item>, element: QuadFelt) {
        challenger.push(Item::Element(element));
    }

    fn sample_algebra_element(&self, challenger: &mut Vec<Item>) -> QuadFelt {
        let challenge = draw(challenger);
        challenger.push(Item::Draw);
        challenge
    }

    fn verify_openings(
        &self,
        claims: Vec<(&u64, Vec<(Space, Vec<(QuadFelt, &Vec<QuadFelt>)>)>)>,
        proof: &bool,
        challenger: &mut Vec<Item>,
    ) -> Result<(), &'static str> {
        let claims = claims
            .into_iter()
            .map(|(c, matrices)| {
                let matrices = matrices
                    .into_iter()
                    .map(|(d, points)| {
                        (d, points.into_iter().map(|(x, values)| (x, values.clone())).collect())
                    })
                    .collect();
                (*c, matrices)
            })
            .collect();
        *self.asked.borrow_mut() = Some((claims, challenger.clone()));
        if *proof { Ok(()) } else { Err("not opened") }
    }

    fn evaluate_periodic_at_point(
        table: &Vec<Vec<Felt>>,
        domain: Space,
        point: QuadFelt,
    ) -> Vec<QuadFelt> {
        table
            .iter()
            .map(|column| point.mul(lift(column[0])).add(QuadFelt::from_usize(domain.size())))
            .collect()
    }

    // What follows is for proofs alone, and never runs.

    fn is_zk_spec(&self) -> usize {
        unreachable!()
    }

    fn pcs_zk_spec(&self) -> bool {
        unreachable!()
    }

    fn natural_domain_spec(&self, _: usize) -> Option<Space> {
        unreachable!()
    }

    fn commitment_spec(&self, _: Space, _: Sequence<Felt>, _: usize) -> u64 {
        unreachable!()
    }

    fn transcript(&self, _: Vec<Item>) -> Transcript<Felt, QuadFelt, u64> {
        unreachable!()
    }

    fn draw_spec(&self, _: Transcript<Felt, QuadFelt, u64>) -> QuadFelt {
        unreachable!()
    }

    fn opening_verdict(
        &self,
        _: OpeningClaims<u64, Space, QuadFelt>,
        _: bool,
        _: Transcript<Felt, QuadFelt, u64>,
    ) -> Result<(), &'static str> {
        unreachable!()
    }

    fn periodic_spec(_: Sequence<Sequence<Felt>>, _: Space, _: QuadFelt) -> Sequence<QuadFelt> {
        unreachable!()
    }
}

struct Air {
    width: usize,
    aux_width: usize,
    num_randomness: usize,
    bus_types: Vec<BusType>,
    preprocessed: Option<(Vec<u64>, usize)>,
    periodic: Vec<Vec<Felt>>,
    log_quotient_degree: usize,
    seen: RefCell<Option<(Vec<QuadFelt>, QuadFelt)>>,
}

impl Air {
    fn small() -> Air {
        Air {
            width: 2,
            aux_width: 0,
            num_randomness: 0,
            bus_types: vec![],
            preprocessed: None,
            periodic: vec![],
            log_quotient_degree: 0,
            seen: RefCell::new(None),
        }
    }

    fn full() -> Air {
        Air {
            width: 3,
            aux_width: 2,
            num_randomness: 2,
            bus_types: vec![BusType::MultisetBus, BusType::LogupBus],
            preprocessed: Some(((1..17).collect(), 2)),
            periodic: vec![vec![f(3), f(4)], vec![f(5)]],
            log_quotient_degree: 1,
            seen: RefCell::new(None),
        }
    }
}

fn fold(acc: &mut QuadFelt, alpha: QuadFelt, values: &[QuadFelt]) {
    for v in values {
        *acc = acc.mul(alpha).add(*v);
    }
}

impl MidenAir<Config> for Air {
    fn width(&self) -> usize {
        self.width
    }

    fn aux_width(&self) -> usize {
        self.aux_width
    }

    fn num_randomness(&self) -> usize {
        self.num_randomness
    }

    fn bus_types(&self) -> Vec<BusType> {
        self.bus_types.clone()
    }

    fn preprocessed_trace(&self) -> Option<RowMajorMatrix<Felt>> {
        let (values, width) = self.preprocessed.as_ref()?;
        Some(RowMajorMatrix { values: values.iter().map(|v| f(*v)).collect(), width: *width })
    }

    fn periodic_table(&self) -> Vec<Vec<Felt>> {
        self.periodic.clone()
    }

    fn log_quotient_degree(&self, _: usize, _: usize, _: usize, _: usize, _: usize) -> usize {
        self.log_quotient_degree
    }

    fn eval(&self, folder: &mut VerifierConstraintFolder<'_, Config>) {
        *self.seen.borrow_mut() = Some((folder.randomness.to_vec(), folder.alpha));
        let alpha = folder.alpha;
        let mut acc = folder.accumulator;
        fold(&mut acc, alpha, folder.main_local);
        fold(&mut acc, alpha, folder.main_next);
        fold(&mut acc, alpha, folder.aux_local);
        fold(&mut acc, alpha, folder.aux_next);
        if let Some((local, next)) = folder.preprocessed {
            fold(&mut acc, alpha, local);
            fold(&mut acc, alpha, next);
        }
        fold(&mut acc, alpha, folder.randomness);
        fold(&mut acc, alpha, folder.aux_bus_boundary_values);
        for v in folder.public_values {
            fold(&mut acc, alpha, &[lift(*v)]);
        }
        fold(&mut acc, alpha, folder.periodic_values);
        fold(&mut acc, alpha, &[folder.is_first_row, folder.is_last_row, folder.is_transition]);
        folder.accumulator = acc;
    }

    fn eval_with_boundary(&self, folder: &mut VerifierConstraintFolder<'_, Config>) {
        self.eval(folder);
        let alpha = folder.alpha;
        fold(&mut folder.accumulator, alpha, &[q(77, 78)]);
    }

    // What follows is for proofs alone, and never runs.

    fn width_spec(&self) -> usize {
        unreachable!()
    }

    fn aux_width_spec(&self) -> usize {
        unreachable!()
    }

    fn num_randomness_spec(&self) -> usize {
        unreachable!()
    }

    fn bus_types_spec(&self) -> Sequence<BusType> {
        unreachable!()
    }

    fn preprocessed_spec(&self) -> Option<(Sequence<Felt>, usize)> {
        unreachable!()
    }

    fn periodic_table_spec(&self) -> Sequence<Sequence<Felt>> {
        unreachable!()
    }

    fn log_quotient_degree_spec(&self, _: usize, _: usize, _: usize, _: usize, _: usize) -> usize {
        unreachable!()
    }

    fn eval_spec(&self, _: ConstraintPoint<Felt, QuadFelt>) -> QuadFelt {
        unreachable!()
    }

    fn eval_with_boundary_spec(&self, _: ConstraintPoint<Felt, QuadFelt>) -> QuadFelt {
        unreachable!()
    }
}

fn row(len: usize, seed: u64) -> Vec<QuadFelt> {
    (0..len as u64).map(|i| q(seed + i, seed * 3 + 2 * i)).collect()
}

fn joined(coordinates: &[QuadFelt]) -> Vec<QuadFelt> {
    coordinates.chunks(2).map(|c| c[0].add(q(0, 1).mul(c[1]))).collect()
}

/// The transcript up to the instance, in the order in which it is to be observed.
fn instance_items(config: &Config, air: &Air, proof: &Proof<Config>, public: &[Felt]) -> Vec<Item> {
    let width = air.preprocessed.as_ref().map_or(0, |p| p.1);
    let mut items = vec![
        Item::Value(f(proof.degree_bits as u64)),
        Item::Value(f((proof.degree_bits - config.is_zk) as u64)),
        Item::Value(f(width as u64)),
        Item::Commitment(proof.commitments.trace),
    ];
    if width > 0 {
        let domain = config.domain(proof.degree_bits);
        items.push(Item::Commitment(config.commit(domain, &air.preprocessed_trace().unwrap())));
    }
    items.extend(public.iter().map(|v| Item::Value(*v)));
    items
}

struct Drawn {
    randomness: Vec<QuadFelt>,
    alpha: QuadFelt,
    zeta: QuadFelt,
    items: Vec<Item>,
}

fn drawn(config: &Config, air: &Air, proof: &Proof<Config>, public: &[Felt]) -> Drawn {
    let mut items = instance_items(config, air, proof, public);
    let mut randomness = vec![];
    for _ in 0..air.num_randomness {
        randomness.push(draw(&items));
        items.push(Item::Draw);
    }
    if air.num_randomness > 0 {
        items.push(Item::Commitment(proof.commitments.aux.unwrap()));
        items.extend(proof.aux_finals.iter().map(|v| Item::Element(*v)));
    }
    let alpha = draw(&items);
    items.push(Item::Draw);
    items.push(Item::Commitment(proof.commitments.quotient_chunks));
    if let Some(c) = proof.commitments.random {
        items.push(Item::Commitment(c));
    }
    let zeta = draw(&items);
    items.push(Item::Draw);
    Drawn { randomness, alpha, zeta, items }
}

/// The constraints of `Air`, with those on the boundary, written out.
fn folded(air: &Air, proof: &Proof<Config>, public: &[Felt], d: &Drawn, domain: Space) -> QuadFelt {
    let opened = &proof.opened_values;
    let mut values = vec![];
    values.extend(&opened.trace_local);
    values.extend(&opened.trace_next);
    if let (Some(local), Some(next)) = (&opened.aux_trace_local, &opened.aux_trace_next) {
        values.extend(joined(local));
        values.extend(joined(next));
    }
    if let (Some(local), Some(next)) = (&opened.preprocessed_local, &opened.preprocessed_next) {
        values.extend(local);
        values.extend(next);
    }
    values.extend(&d.randomness);
    values.extend(&proof.aux_finals);
    values.extend(public.iter().map(|v| lift(*v)));
    values.extend(Config::evaluate_periodic_at_point(&air.periodic, domain, d.zeta));
    let s = domain.selectors_at_point(d.zeta).unwrap();
    values.extend([s.is_first_row, s.is_last_row, s.is_transition]);
    values.push(q(77, 78));
    let mut acc = QuadFelt::zero();
    fold(&mut acc, d.alpha, &values);
    acc
}

/// A proof whose openings are all accepted, with a quotient that matches the constraints.
fn honest(
    config: &Config,
    air: &Air,
    degree_bits: usize,
    public: &[Felt],
    tables: &[&[&[Felt]]],
) -> Proof<Config> {
    let has_aux = air.num_randomness > 0;
    let aux_row = |seed: u64| if has_aux { Some(row(2 * air.aux_width, seed)) } else { None };
    let pre_row = |seed: u64| air.preprocessed.as_ref().map(|p| row(p.1, seed));
    let num_chunks = 1 << (air.log_quotient_degree + config.is_zk);
    let mut proof = Proof {
        commitments: Commitments {
            trace: 11,
            aux: if has_aux { Some(22) } else { None },
            quotient_chunks: 33,
            random: if config.hiding { Some(44) } else { None },
        },
        opened_values: OpenedValues {
            trace_local: row(air.width, 100),
            trace_next: row(air.width, 200),
            aux_trace_local: aux_row(300),
            aux_trace_next: aux_row(400),
            preprocessed_local: pre_row(500),
            preprocessed_next: pre_row(600),
            quotient_chunks: vec![vec![QuadFelt::zero(); 2]; num_chunks],
            random: if config.hiding { Some(row(2, 700)) } else { None },
        },
        opening_proof: true,
        aux_finals: row(if has_aux { air.aux_width } else { 0 }, 800),
        degree_bits,
    };
    let instance = instance_items(config, air, &proof, public);
    let mut randomness = vec![];
    for i in 0..air.num_randomness {
        let mut items = instance.clone();
        items.extend(vec![Item::Draw; i]);
        randomness.push(draw(&items));
    }
    for (i, bus_type) in air.bus_types.iter().enumerate() {
        proof.aux_finals[i] = match bus_type {
            BusType::MultisetBus => bus_multiset_boundary_varlen(&randomness, tables[i]),
            BusType::LogupBus => bus_logup_boundary_varlen(&randomness, tables[i]),
        };
    }
    let d = drawn(config, air, &proof, public);
    let domain = config.domain(degree_bits - config.is_zk);
    let inv_vanishing = domain.selectors_at_point(d.zeta).unwrap().inv_vanishing;
    let target = folded(air, &proof, public, &d, domain).mul(inv_vanishing);
    let layout = plan_layout(config, air, degree_bits, config.domain(degree_bits), 0, 0).unwrap();
    proof.opened_values.quotient_chunks[0][0] = QuadFelt::one();
    let coefficient = recompose_quotient_from_chunks(
        &layout.quotient_chunks_domains,
        &proof.opened_values.quotient_chunks,
        d.zeta,
    );
    proof.opened_values.quotient_chunks[0][0] = target.mul(coefficient.try_inverse().unwrap());
    proof
}

type Said = Option<Result<(), VerificationError<&'static str>>>;

fn number(said: Said) -> u8 {
    match said {
        Some(Err(VerificationError::MyError(n))) => n,
        other => panic!("{:?}", other),
    }
}

fn accepted(said: Said) -> bool {
    matches!(said, Some(Ok(())))
}

const ROW_A: [u64; 1] = [5];
const ROW_B: [u64; 1] = [6];

/// Runs a case of the full AIR, with one table for each of its two buses.
fn with_full<T>(case: impl Fn(&Config, &Air, &[Felt], &[&[&[Felt]]]) -> T) -> T {
    let a: Vec<Felt> = ROW_A.iter().map(|v| f(*v)).collect();
    let b: Vec<Felt> = ROW_B.iter().map(|v| f(*v)).collect();
    let first = [&a[..], &b[..]];
    let second = [&b[..]];
    let tables = [&first[..], &second[..]];
    case(&Config::plain(), &Air::full(), &[f(1), f(2)], &tables)
}

#[test]
fn a_small_proof_is_accepted() {
    let (config, air) = (Config::plain(), Air::small());
    let proof = honest(&config, &air, 3, &[f(9)], &[]);
    assert!(accepted(try_verify(&config, &air, &proof, &[f(9)], &[])));
    assert!(verify(&config, &air, &proof, &[f(9)], &[]).is_ok());
    let d = drawn(&config, &air, &proof, &[f(9)]);
    let (claims, items) = config.asked.borrow().clone().unwrap();
    assert_eq!(items, d.items);
    assert_eq!(
        items,
        vec![
            Item::Value(f(3)),
            Item::Value(f(3)),
            Item::Value(f(0)),
            Item::Commitment(11),
            Item::Value(f(9)),
            Item::Draw,
            Item::Commitment(33),
            Item::Draw,
        ]
    );
    let domain = config.domain(3);
    let next = domain.next_point(d.zeta).unwrap();
    let opened = &proof.opened_values;
    assert_eq!(
        claims,
        vec![
            (
                11,
                vec![(
                    domain,
                    vec![(d.zeta, opened.trace_local.clone()), (next, opened.trace_next.clone())]
                )]
            ),
            (33, vec![(domain, vec![(d.zeta, opened.quotient_chunks[0].clone())])]),
        ]
    );
}

#[test]
fn a_proof_with_every_part_is_accepted() {
    with_full(|config, air, public, tables| {
        let proof = honest(config, air, 3, public, tables);
        assert!(accepted(try_verify(config, air, &proof, public, tables)));
        let d = drawn(config, air, &proof, public);
        let (claims, items) = config.asked.borrow().clone().unwrap();
        assert_eq!(items, d.items);
        let domain = config.domain(3);
        let preprocessed = config.commit(domain, &air.preprocessed_trace().unwrap());
        assert_eq!(
            items,
            vec![
                Item::Value(f(3)),
                Item::Value(f(3)),
                Item::Value(f(2)),
                Item::Commitment(11),
                Item::Commitment(preprocessed),
                Item::Value(f(1)),
                Item::Value(f(2)),
                Item::Draw,
                Item::Draw,
                Item::Commitment(22),
                Item::Element(proof.aux_finals[0]),
                Item::Element(proof.aux_finals[1]),
                Item::Draw,
                Item::Commitment(33),
                Item::Draw,
            ]
        );
        assert_eq!(claims.iter().map(|c| c.0).collect::<Vec<_>>(), vec![11, 33, 22, preprocessed]);
        let next = domain.next_point(d.zeta).unwrap();
        let opened = &proof.opened_values;
        assert_eq!(
            claims[2].1,
            vec![(
                domain,
                vec![
                    (d.zeta, opened.aux_trace_local.clone().unwrap()),
                    (next, opened.aux_trace_next.clone().unwrap())
                ]
            )]
        );
        assert_eq!(
            claims[3].1,
            vec![(
                domain,
                vec![
                    (d.zeta, opened.preprocessed_local.clone().unwrap()),
                    (next, opened.preprocessed_next.clone().unwrap())
                ]
            )]
        );
        assert_eq!(claims[1].1.len(), 2);
        assert_eq!(claims[1].1[1], (domain, vec![(d.zeta, opened.quotient_chunks[1].clone())]));
    });
}

#[test]
fn a_hiding_proof_is_accepted() {
    let (config, air) = (Config::hiding(), Air::small());
    let proof = honest(&config, &air, 4, &[], &[]);
    assert_eq!(proof.opened_values.quotient_chunks.len(), 2);
    assert!(accepted(try_verify(&config, &air, &proof, &[], &[])));
    let d = drawn(&config, &air, &proof, &[]);
    let (claims, items) = config.asked.borrow().clone().unwrap();
    assert_eq!(
        items,
        vec![
            Item::Value(f(4)),
            Item::Value(f(3)),
            Item::Value(f(0)),
            Item::Commitment(11),
            Item::Draw,
            Item::Commitment(33),
            Item::Commitment(44),
            Item::Draw,
        ]
    );
    assert_eq!(claims.iter().map(|c| c.0).collect::<Vec<_>>(), vec![44, 11, 33]);
    let random = proof.opened_values.random.clone().unwrap();
    assert_eq!(claims[0].1, vec![(config.domain(4), vec![(d.zeta, random)])]);
    // the next point is that of the trace before it was lengthened
    let next = config.domain(3).next_point(d.zeta).unwrap();
    assert_eq!(claims[1].1[0].0, config.domain(4));
    assert_eq!(claims[1].1[0].1[1].0, next);
    // each chunk of half the quotient's domain was committed to on a domain of twice its size
    assert_eq!(claims[2].1[0].0, config.domain(4));
}

#[test]
fn openings_that_are_refused() {
    with_full(|config, air, public, tables| {
        let mut proof = honest(config, air, 3, public, tables);
        proof.opening_proof = false;
        assert!(matches!(
            try_verify(config, air, &proof, public, tables),
            Some(Err(VerificationError::InvalidOpeningArgument("not opened")))
        ));
        // so they are where the buses do not match either
        assert!(matches!(
            try_verify(config, air, &proof, public, &[]),
            Some(Err(VerificationError::InvalidOpeningArgument("not opened")))
        ));
    });
}

#[test]
fn constraints_that_do_not_hold() {
    with_full(|config, air, public, tables| {
        let proof = honest(config, air, 3, public, tables);
        let mismatch = |proof: &Proof<Config>| {
            matches!(
                try_verify(config, air, proof, public, tables),
                Some(Err(VerificationError::OodEvaluationMismatch { index: None }))
            )
        };
        assert!(!mismatch(&proof));
        let mut other = honest(config, air, 3, public, tables);
        other.opened_values.quotient_chunks[1][1] = q(1, 0);
        assert!(mismatch(&other));
        let mut other = honest(config, air, 3, public, tables);
        other.opened_values.trace_next[2] = q(1, 0);
        assert!(mismatch(&other));
        let mut other = honest(config, air, 3, public, tables);
        other.opened_values.aux_trace_local.as_mut().unwrap()[3] = q(1, 0);
        assert!(mismatch(&other));
        let mut other = honest(config, air, 3, public, tables);
        other.opened_values.preprocessed_next.as_mut().unwrap()[0] = q(1, 0);
        assert!(mismatch(&other));
    });
}

#[test]
fn other_public_values_or_commitments_are_refused() {
    with_full(|config, air, public, tables| {
        let proof = honest(config, air, 3, public, tables);
        assert!(!accepted(try_verify(config, air, &proof, &[public[0], f(3)], tables)));
        let mut other = honest(config, air, 3, public, tables);
        other.commitments.trace = 12;
        assert!(!accepted(try_verify(config, air, &other, public, tables)));
        let mut other = honest(config, air, 3, public, tables);
        other.commitments.aux = Some(23);
        assert!(!accepted(try_verify(config, air, &other, public, tables)));
        let mut other = honest(config, air, 3, public, tables);
        other.commitments.quotient_chunks = 34;
        assert!(!accepted(try_verify(config, air, &other, public, tables)));
    });
}

#[test]
fn challenges_do_not_see_what_comes_after() {
    with_full(|config, air, public, tables| {
        let seen = |proof: &Proof<Config>| {
            try_verify(config, air, proof, public, tables);
            let (claims, _) = config.asked.borrow().clone().unwrap();
            let (randomness, alpha) = air.seen.borrow().clone().unwrap();
            (randomness, alpha, claims[0].1[0].1[0].0)
        };
        let (randomness, alpha, zeta) = seen(&honest(config, air, 3, public, tables));
        let mut other = honest(config, air, 3, public, tables);
        other.commitments.aux = Some(23);
        let (other_randomness, other_alpha, other_zeta) = seen(&other);
        assert_eq!(randomness, other_randomness);
        assert_ne!(alpha, other_alpha);
        assert_ne!(zeta, other_zeta);
        let mut other = honest(config, air, 3, public, tables);
        other.commitments.quotient_chunks = 34;
        let (other_randomness, other_alpha, other_zeta) = seen(&other);
        assert_eq!(randomness, other_randomness);
        assert_eq!(alpha, other_alpha);
        assert_ne!(zeta, other_zeta);
        let mut other = honest(config, air, 3, public, tables);
        other.opened_values.trace_local[0] = q(1, 1);
        assert_eq!(seen(&other), (randomness, alpha, zeta));
    });
}

#[test]
fn shapes_that_are_refused() {
    with_full(|config, air, public, tables| {
        let said = |change: &dyn Fn(&mut Proof<Config>)| {
            let mut proof = honest(config, air, 3, public, tables);
            change(&mut proof);
            number(try_verify(config, air, &proof, public, tables))
        };
        assert_eq!(said(&|p| p.opened_values.preprocessed_local = None), 2);
        assert_eq!(said(&|p| p.opened_values.preprocessed_next = Some(row(3, 1))), 2);
        assert_eq!(said(&|p| p.opened_values.trace_local = row(2, 1)), 100);
        assert_eq!(said(&|p| p.opened_values.trace_next = row(4, 1)), 101);
        assert_eq!(said(&|p| p.opened_values.quotient_chunks.push(row(2, 1))), 102);
        assert_eq!(said(&|p| p.opened_values.quotient_chunks[1] = row(1, 1)), 103);
        assert_eq!(said(&|p| p.opened_values.aux_trace_local = None), 104);
        assert_eq!(said(&|p| p.opened_values.aux_trace_next = None), 105);
        assert_eq!(said(&|p| p.opened_values.aux_trace_local = Some(row(3, 1))), 106);
        assert_eq!(said(&|p| p.opened_values.aux_trace_next = Some(row(5, 1))), 107);
        assert_eq!(said(&|p| p.aux_finals = row(1, 1)), 108);
        assert_eq!(said(&|p| p.commitments.aux = None), 4);
        // the first of several is said
        assert_eq!(
            said(&|p| {
                p.aux_finals = row(1, 1);
                p.opened_values.trace_next = row(4, 1);
            }),
            101
        );
    });
}

#[test]
fn shapes_that_are_refused_without_auxiliary_columns() {
    let (config, air) = (Config::plain(), Air::small());
    let said = |change: &dyn Fn(&mut Proof<Config>)| {
        let mut proof = honest(&config, &air, 3, &[], &[]);
        change(&mut proof);
        number(try_verify(&config, &air, &proof, &[], &[]))
    };
    assert_eq!(said(&|p| p.opened_values.preprocessed_local = Some(row(1, 1))), 2);
    assert_eq!(said(&|p| p.opened_values.aux_trace_local = Some(vec![])), 109);
    assert_eq!(said(&|p| p.opened_values.aux_trace_next = Some(vec![])), 110);
    assert_eq!(said(&|p| p.aux_finals = row(1, 1)), 111);
    assert_eq!(said(&|p| p.commitments.aux = Some(22)), 5);
}

#[test]
fn hiding_values_of_another_number_are_refused() {
    let (config, air) = (Config::hiding(), Air::small());
    let mut proof = honest(&config, &air, 4, &[], &[]);
    proof.opened_values.random = Some(row(3, 1));
    assert_eq!(number(try_verify(&config, &air, &proof, &[], &[])), 3);
}

#[test]
fn a_domain_in_too_few_parts_is_refused() {
    let config = Config { one_part: true, ..Config::plain() };
    let air = Air { log_quotient_degree: 1, ..Air::small() };
    let proof = honest(&Config::plain(), &air, 3, &[], &[]);
    assert_eq!(number(try_verify(&config, &air, &proof, &[], &[])), 6);
}

#[test]
fn hiding_must_match_the_commitment_scheme() {
    let air = Air::small();
    for config in [Config::plain(), Config::hiding()] {
        let mut proof = honest(&config, &air, 4, &[], &[]);
        proof.opened_values.random = if config.hiding { None } else { Some(row(2, 1)) };
        let said = try_verify(&config, &air, &proof, &[], &[]);
        assert!(matches!(said, Some(Err(VerificationError::RandomizationError))));
        let mut proof = honest(&config, &air, 4, &[], &[]);
        proof.commitments.random = if config.hiding { None } else { Some(1) };
        let said = try_verify(&config, &air, &proof, &[], &[]);
        assert!(matches!(said, Some(Err(VerificationError::RandomizationError))));
    }
}

#[test]
fn a_domain_without_a_next_point_is_refused() {
    let config = Config { no_next: true, ..Config::plain() };
    let proof = honest(&config, &Air::small(), 3, &[], &[]);
    let said = try_verify(&config, &Air::small(), &proof, &[], &[]);
    assert!(matches!(said, Some(Err(VerificationError::NextPointUnavailable))));
}

#[test]
fn buses_that_do_not_match_are_refused() {
    with_full(|config, air, public, tables| {
        let proof = honest(config, air, 3, public, tables);
        assert_eq!(number(try_verify(config, air, &proof, public, &tables[..1])), 11);
        let swapped = [tables[1], tables[0]];
        assert!(matches!(
            try_verify(config, air, &proof, public, &swapped),
            Some(Err(VerificationError::InvalidBusBoundaryValues))
        ));
        // the order of the rows is free
        let turned = [tables[0][1], tables[0][0]];
        assert!(accepted(try_verify(config, air, &proof, public, &[&turned[..], tables[1]])));
        // a row that is longer than the randomness determines nothing
        let long = [f(1), f(2)];
        let rows = [&long[..]];
        assert!(try_verify(config, air, &proof, public, &[&rows[..], tables[1]]).is_none());
    });
}

#[test]
fn without_buses_the_tables_are_not_read() {
    let air = Air { bus_types: vec![], ..Air::full() };
    let config = Config::plain();
    let proof = honest(&config, &air, 3, &[], &[]);
    assert!(accepted(try_verify(&config, &air, &proof, &[], &[])));
}

#[test]
fn nothing_is_said_where_an_operation_is_not_defined() {
    let config = Config::plain();
    let none = |config: &Config, air: &Air, proof: &Proof<Config>| {
        try_verify(config, air, proof, &[], &[]).is_none()
    };
    let proof = |degree_bits: usize| Proof {
        degree_bits,
        ..honest(&Config::plain(), &Air::small(), 3, &[], &[])
    };
    // no word, or no subgroup, is that long
    assert!(none(&config, &Air::small(), &proof(64)));
    assert!(none(&config, &Air::small(), &proof(33)));
    assert!(none(&config, &Air { log_quotient_degree: 30, ..Air::small() }, &proof(3)));
    assert!(none(&config, &Air { log_quotient_degree: 64, ..Air::small() }, &proof(3)));
    // the trace is shorter than what hides it
    assert!(none(&Config { is_zk: 4, ..Config::plain() }, &Air::small(), &proof(3)));
    // the preprocessed trace does not fill the domain, or is to be hidden
    let tall = Air { preprocessed: Some((vec![1; 16], 1)), ..Air::small() };
    let mut opened = proof(3);
    opened.opened_values.preprocessed_local = Some(row(1, 1));
    opened.opened_values.preprocessed_next = Some(row(1, 1));
    assert!(none(&config, &tall, &opened));
    let fits = Air { preprocessed: Some((vec![1; 8], 1)), ..Air::small() };
    assert!(none(&Config::hiding(), &fits, &opened));
    // the auxiliary columns are more than can be counted
    let wide = Air { num_randomness: 1, aux_width: usize::MAX, ..Air::small() };
    let mut opened = proof(3);
    opened.opened_values.aux_trace_local = Some(vec![]);
    opened.opened_values.aux_trace_next = Some(vec![]);
    assert!(none(&config, &wide, &opened));
}

#[test]
fn preprocessed_traces() {
    let config = Config::plain();
    let air = Air { preprocessed: Some((vec![1; 8], 1)), ..Air::small() };
    let mut opened = honest(&config, &air, 3, &[], &[]).opened_values;
    let found = try_process_preprocessed_trace(&config, &air, &opened, config.domain(3));
    let commitment = config.commit(config.domain(3), &air.preprocessed_trace().unwrap());
    assert!(matches!(found, Some(Ok((1, Some(c)))) if c == commitment));
    let found = process_preprocessed_trace(&config, &air, &opened, config.domain(3));
    assert!(matches!(found, Ok((1, Some(c))) if c == commitment));
    assert!(try_process_preprocessed_trace(&config, &air, &opened, config.domain(4)).is_none());
    let hidden = Config::hiding();
    assert!(try_process_preprocessed_trace(&hidden, &air, &opened, config.domain(3)).is_none());
    opened.preprocessed_next = Some(vec![]);
    assert!(matches!(
        try_process_preprocessed_trace(&config, &air, &opened, config.domain(3)),
        Some(Err(VerificationError::MyError(2)))
    ));
    // a trace without columns is as good as none
    let empty = Air { preprocessed: Some((vec![], 0)), ..Air::small() };
    opened.preprocessed_local = None;
    let found = try_process_preprocessed_trace(&Config::hiding(), &empty, &opened, config.domain(3));
    assert!(matches!(found, Some(Ok((0, None)))));
}

#[test]
fn layout_of_the_quotient() {
    let config = Config::hiding();
    let air = Air { log_quotient_degree: 1, ..Air::small() };
    let layout = plan_layout(&config, &air, 4, config.domain(4), 0, 0).unwrap();
    assert_eq!(layout.init_trace_domain, config.domain(3));
    assert_eq!(layout.quotient_degree, 4);
    let whole = Coset::new(f(7), 5).unwrap();
    let chunks: Vec<Coset> = layout.quotient_chunks_domains.iter().map(|d| d.coset).collect();
    assert_eq!(chunks, whole.split_domains(4).unwrap());
    assert_eq!(layout.randomized_quotient_chunks_domains, vec![config.domain(4); 4]);
}

#[test]
fn rows_of_coordinates() {
    assert_eq!(
        verifier_row_to_ext::<Felt, QuadFelt>(&[q(1, 0), q(2, 0), q(3, 1), q(0, 5)]),
        Some(vec![q(1, 2), q(38, 1)])
    );
    assert_eq!(verifier_row_to_ext::<Felt, QuadFelt>(&[]), Some(vec![]));
    assert_eq!(verifier_row_to_ext::<Felt, QuadFelt>(&[q(1, 0)]), None);
}

#[test]
fn constraints_against_a_quotient() {
    let air = Air::small();
    let domain = Config::plain().domain(1);
    let (local, next) = (row(2, 1), row(2, 5));
    let (alpha, zeta) = (q(3, 0), q(3, 0));
    let check = |aux: Option<&[QuadFelt]>, aux_next: Option<&[QuadFelt]>, quotient: QuadFelt| {
        verify_constraints::<Config, Air, u8>(
            &air, &local, &next, None, None, aux, aux_next, &[], &[], &[], domain, zeta, alpha,
            quotient,
        )
    };
    // at 3, with a domain of 1 and -1: the selectors are 4, 2 and 4, and the inverse of 8
    let mut acc = QuadFelt::zero();
    fold(&mut acc, alpha, &[local[0], local[1], next[0], next[1], q(4, 0), q(2, 0), q(4, 0)]);
    let quotient = acc.mul(q(8, 0).try_inverse().unwrap());
    assert!(check(None, None, quotient).is_ok());
    assert_eq!(acc, quotient.mul(domain.vanishing_poly_at_point(zeta)));
    assert!(matches!(
        check(None, None, quotient.add(QuadFelt::one())),
        Err(VerificationError::OodEvaluationMismatch { index: None })
    ));
    let (even, odd) = (row(2, 1), row(3, 1));
    assert!(matches!(
        check(Some(&odd), Some(&odd), quotient),
        Err(VerificationError::MyError(0))
    ));
    assert!(matches!(
        check(Some(&even), Some(&odd), quotient),
        Err(VerificationError::MyError(1))
    ));
    // one row without the other counts for nothing
    assert!(check(Some(&odd), None, quotient).is_ok());
    // the constraints on the boundary are among those of the wrapped AIR
    let bounded = AirWithBoundaryConstraints { inner: &air };
    let said = try_verify_constraints::<Config, _, u8>(
        &bounded, &local, &next, None, None, None, None, &[], &[], &[], domain, zeta, alpha,
        quotient,
    );
    assert!(matches!(said, Some(Err(VerificationError::OodEvaluationMismatch { index: None }))));
    fold(&mut acc, alpha, &[q(77, 78)]);
    let said = try_verify_constraints::<Config, _, u8>(
        &bounded, &local, &next, None, None, None, None, &[], &[], &[], domain, zeta, alpha,
        acc.mul(q(8, 0).try_inverse().unwrap()),
    );
    assert!(matches!(said, Some(Ok(()))));
    // on the domain the vanishing polynomial has no inverse
    let said = try_verify_constraints::<Config, _, u8>(
        &air, &local, &next, None, None, None, None, &[], &[], &[], domain, q(1, 0), alpha, quotient,
    );
    assert!(said.is_none());
}

#[test]
fn what_follows_the_openings() {
    with_full(|config, air, public, tables| {
        let proof = honest(config, air, 3, public, tables);
        let d = drawn(config, air, &proof, public);
        let layout = plan_layout(config, air, 3, config.domain(3), 2, 2).unwrap();
        let said = |openings: Result<(), &'static str>, alpha: QuadFelt| {
            verify_opened(
                openings,
                air,
                &proof,
                public,
                tables,
                &layout,
                &d.randomness,
                alpha,
                d.zeta,
            )
        };
        assert!(accepted(said(Ok(()), d.alpha)));
        assert!(matches!(
            said(Err("no"), d.alpha),
            Some(Err(VerificationError::InvalidOpeningArgument("no")))
        ));
        assert!(matches!(
            said(Ok(()), d.alpha.add(QuadFelt::one())),
            Some(Err(VerificationError::OodEvaluationMismatch { index: None }))
        ));
    });
}
