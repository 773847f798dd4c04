use vstd::prelude::*;

use crate::letter::{index_to_letter, Letter};
use crate::machine::plug_board::mapping_involution;
use crate::machine::reflector::{spec_pair_covers, spec_reflector_pairs_ok, Reflector, mapping_derangement_involution};
use crate::machine::rotor::{rotor_wf, spec_target_hit, Rotor};

verus! {

/// ID representing a rotor with a specific wiring.
#[derive(Debug, Clone, Copy, PartialEq, Eq, Structural, Hash)]
pub enum RotorId {
    /// Rotor I, turns over at R
    I,
    /// Rotor II, turns over at F
    II,
    /// Rotor III, turns over at W
    III,
    /// Rotor IV, turns over at K
    IV,
    /// Rotor V, turns over at A
    V,
}

/// ID representing a reflector with a specific wiring.
#[derive(Debug, Clone, Copy, PartialEq, Eq, Structural, Hash)]
pub enum ReflectorId {
    A,
    B,
    C,
}

/// The forward table of a rotor: applied on the signal's way back from
/// the reflector.
pub open spec fn rotor_fwd_table(id: RotorId) -> Seq<int> {
    match id {
        RotorId::I => seq![20int, 22int, 24int, 6int, 0int, 3int, 5int, 15int, 21int, 25int, 1int, 4int, 2int, 10int, 12int, 19int, 7int, 23int, 18int, 11int, 17int, 8int, 13int, 16int, 14int, 9int],
        RotorId::II => seq![0int, 9int, 15int, 2int, 25int, 22int, 17int, 11int, 5int, 1int, 3int, 10int, 14int, 19int, 24int, 20int, 16int, 6int, 4int, 13int, 7int, 23int, 12int, 8int, 21int, 18int],
        RotorId::III => seq![19int, 0int, 6int, 1int, 15int, 2int, 18int, 3int, 16int, 4int, 20int, 5int, 21int, 13int, 25int, 7int, 24int, 8int, 23int, 9int, 22int, 11int, 17int, 10int, 14int, 12int],
        RotorId::IV => seq![7int, 25int, 22int, 21int, 0int, 17int, 19int, 13int, 11int, 6int, 20int, 15int, 23int, 16int, 2int, 4int, 9int, 12int, 1int, 18int, 10int, 3int, 24int, 14int, 8int, 5int],
        RotorId::V => seq![16int, 2int, 24int, 11int, 23int, 22int, 4int, 13int, 5int, 19int, 25int, 14int, 18int, 12int, 21int, 9int, 20int, 3int, 10int, 6int, 8int, 0int, 17int, 15int, 7int, 1int],
    }
}

/// The inverse table of a rotor: applied on the signal's way towards
/// the reflector.
pub open spec fn rotor_rev_table(id: RotorId) -> Seq<int> {
    match id {
        RotorId::I => seq![4int, 10int, 12int, 5int, 11int, 6int, 3int, 16int, 21int, 25int, 13int, 19int, 14int, 22int, 24int, 7int, 23int, 20int, 18int, 15int, 0int, 8int, 1int, 17int, 2int, 9int],
        RotorId::II => seq![0int, 9int, 3int, 10int, 18int, 8int, 17int, 20int, 23int, 1int, 11int, 7int, 22int, 19int, 12int, 2int, 16int, 6int, 25int, 13int, 15int, 24int, 5int, 21int, 14int, 4int],
        RotorId::III => seq![1int, 3int, 5int, 7int, 9int, 11int, 2int, 15int, 17int, 19int, 23int, 21int, 25int, 13int, 24int, 4int, 8int, 22int, 6int, 0int, 10int, 12int, 20int, 18int, 16int, 14int],
        RotorId::IV => seq![4int, 18int, 14int, 21int, 15int, 25int, 9int, 0int, 24int, 16int, 20int, 8int, 17int, 7int, 23int, 11int, 13int, 5int, 19int, 6int, 10int, 3int, 2int, 12int, 22int, 1int],
        RotorId::V => seq![21int, 25int, 1int, 17int, 6int, 8int, 19int, 24int, 20int, 15int, 18int, 3int, 13int, 7int, 11int, 23int, 0int, 22int, 12int, 9int, 16int, 14int, 5int, 4int, 2int, 10int],
    }
}

/// The turnover position of a rotor.
pub open spec fn rotor_turnover(id: RotorId) -> int {
    match id {
        RotorId::I => 17,
        RotorId::II => 5,
        RotorId::III => 22,
        RotorId::IV => 10,
        RotorId::V => 0,
    }
}

/// The wiring table of a reflector.
pub open spec fn reflector_table(id: ReflectorId) -> Seq<int> {
    match id {
        ReflectorId::A => seq![4int, 9int, 12int, 25int, 0int, 11int, 24int, 23int, 21int, 1int, 22int, 5int, 2int, 17int, 16int, 20int, 14int, 13int, 19int, 18int, 15int, 8int, 10int, 7int, 6int, 3int],
        ReflectorId::B => seq![24int, 17int, 20int, 7int, 16int, 18int, 11int, 3int, 15int, 23int, 13int, 6int, 14int, 10int, 12int, 8int, 4int, 1int, 5int, 25int, 2int, 22int, 21int, 9int, 0int, 19int],
        ReflectorId::C => seq![5int, 21int, 15int, 9int, 8int, 0int, 14int, 24int, 4int, 3int, 17int, 25int, 23int, 22int, 6int, 2int, 19int, 10int, 20int, 16int, 18int, 1int, 13int, 12int, 7int, 11int],
    }
}

/// The thirteen wiring pairs of a reflector.
pub open spec fn reflector_pairs(id: ReflectorId) -> Seq<(int, int)> {
    match id {
        ReflectorId::A => seq![(0int, 4int), (1int, 9int), (2int, 12int), (3int, 25int), (5int, 11int), (6int, 24int), (7int, 23int), (8int, 21int), (10int, 22int), (13int, 17int), (14int, 16int), (15int, 20int), (18int, 19int)],
        ReflectorId::B => seq![(0int, 24int), (1int, 17int), (2int, 20int), (3int, 7int), (4int, 16int), (5int, 18int), (6int, 11int), (8int, 15int), (9int, 23int), (10int, 13int), (12int, 14int), (19int, 25int), (21int, 22int)],
        ReflectorId::C => seq![(0int, 5int), (1int, 21int), (2int, 15int), (3int, 9int), (4int, 8int), (6int, 14int), (7int, 24int), (10int, 17int), (11int, 25int), (12int, 23int), (13int, 22int), (16int, 19int), (18int, 20int)],
    }
}

/// For each alphabet position, the index of the reflector pair that
/// touches it.
pub open spec fn reflector_cover_index(id: ReflectorId) -> Seq<int> {
    match id {
        ReflectorId::A => seq![0int, 1int, 2int, 3int, 0int, 4int, 5int, 6int, 7int, 1int, 8int, 4int, 2int, 9int, 10int, 11int, 10int, 9int, 12int, 12int, 11int, 7int, 8int, 6int, 5int, 3int],
        ReflectorId::B => seq![0int, 1int, 2int, 3int, 4int, 5int, 6int, 3int, 7int, 8int, 9int, 6int, 10int, 9int, 10int, 7int, 4int, 1int, 5int, 11int, 2int, 12int, 12int, 8int, 0int, 11int],
        ReflectorId::C => seq![0int, 1int, 2int, 3int, 4int, 0int, 5int, 6int, 4int, 3int, 7int, 8int, 9int, 10int, 5int, 2int, 11int, 7int, 12int, 11int, 12int, 1int, 10int, 9int, 6int, 8int],
    }
}

/// The two tables of every rotor are mutually inverse permutations of
/// the alphabet.
pub proof fn lemma_rotor_tables(id: RotorId)
    ensures
        rotor_fwd_table(id).len() == 26,
        rotor_rev_table(id).len() == 26,
        forall|c: int|
            0 <= c < 26 ==> 0 <= #[trigger] rotor_fwd_table(id)[c] < 26 && 0 <= #[trigger] rotor_rev_table(id)[c] < 26,
        forall|c: int|
            0 <= c < 26 ==> rotor_rev_table(id)[#[trigger] rotor_fwd_table(id)[c]] == c
                && rotor_fwd_table(id)[#[trigger] rotor_rev_table(id)[c]] == c,
{
}

/// The name of a rotor, as written on its wheel.
pub open spec fn spec_rotor_name(id: RotorId) -> Seq<char> {
    match id {
        RotorId::I => "I"@,
        RotorId::II => "II"@,
        RotorId::III => "III"@,
        RotorId::IV => "IV"@,
        RotorId::V => "V"@,
    }
}

/// The name of a reflector.
pub open spec fn spec_reflector_name(id: ReflectorId) -> Seq<char> {
    match id {
        ReflectorId::A => "A"@,
        ReflectorId::B => "B"@,
        ReflectorId::C => "C"@,
    }
}

impl RotorId {
    /// The rotor's name.
    pub fn name(&self) -> (r: String)
        ensures
            r@ == spec_rotor_name(*self),
    {
        match self {
            RotorId::I => "I".to_owned(),
            RotorId::II => "II".to_owned(),
            RotorId::III => "III".to_owned(),
            RotorId::IV => "IV".to_owned(),
            RotorId::V => "V".to_owned(),
        }
    }

    /// All five rotor IDs, in order.
    pub fn all() -> (r: Vec<RotorId>)
        ensures
            r@ == seq![RotorId::I, RotorId::II, RotorId::III, RotorId::IV, RotorId::V],
    {
        let mut v: Vec<RotorId> = Vec::new();
        v.push(RotorId::I);
        v.push(RotorId::II);
        v.push(RotorId::III);
        v.push(RotorId::IV);
        v.push(RotorId::V);
        proof {
            assert(v@ =~= seq![RotorId::I, RotorId::II, RotorId::III, RotorId::IV, RotorId::V]);
        }
        v
    }

    /// Returns the turnover positions and the wiring of the rotor, the
    /// wiring listed as one target letter per source letter with the
    /// sources in alphabetical order.
    pub fn get_rotor_config(&self) -> (r: (Vec<Letter>, Vec<(Letter, Letter)>))
        ensures
            r.0@.map_values(|l: Letter| l@) == seq![rotor_turnover(*self)],
            r.1@.len() == 26,
            forall|i: int|
                0 <= i < 26 ==> (#[trigger] r.1@[i]).0@ == i && r.1@[i].1@ == rotor_fwd_table(*self)[i],
    {
        match self {
            RotorId::I => {
                let turnover = vec![Letter::R];
                let mut pairs: Vec<(Letter, Letter)> = Vec::new();
                pairs.push((Letter::A, Letter::U));
                pairs.push((Letter::B, Letter::W));
                pairs.push((Letter::C, Letter::Y));
                pairs.push((Letter::D, Letter::G));
                pairs.push((Letter::E, Letter::A));
                pairs.push((Letter::F, Letter::D));
                pairs.push((Letter::G, Letter::F));
                pairs.push((Letter::H, Letter::P));
                pairs.push((Letter::I, Letter::V));
                pairs.push((Letter::J, Letter::Z));
                pairs.push((Letter::K, Letter::B));
                pairs.push((Letter::L, Letter::E));
                pairs.push((Letter::M, Letter::C));
                pairs.push((Letter::N, Letter::K));
                pairs.push((Letter::O, Letter::M));
                pairs.push((Letter::P, Letter::T));
                pairs.push((Letter::Q, Letter::H));
                pairs.push((Letter::R, Letter::X));
                pairs.push((Letter::S, Letter::S));
                pairs.push((Letter::T, Letter::L));
                pairs.push((Letter::U, Letter::R));
                pairs.push((Letter::V, Letter::I));
                pairs.push((Letter::W, Letter::N));
                pairs.push((Letter::X, Letter::Q));
                pairs.push((Letter::Y, Letter::O));
                pairs.push((Letter::Z, Letter::J));
                proof {
                    assert(turnover@.map_values(|l: Letter| l@) =~= seq![rotor_turnover(RotorId::I)]);
                }
                (turnover, pairs)
            },
            RotorId::II => {
                let turnover = vec![Letter::F];
                let mut pairs: Vec<(Letter, Letter)> = Vec::new();
                pairs.push((Letter::A, Letter::A));
                pairs.push((Letter::B, Letter::J));
                pairs.push((Letter::C, Letter::P));
                pairs.push((Letter::D, Letter::C));
                pairs.push((Letter::E, Letter::Z));
                pairs.push((Letter::F, Letter::W));
                pairs.push((Letter::G, Letter::R));
                pairs.push((Letter::H, Letter::L));
                pairs.push((Letter::I, Letter::F));
                pairs.push((Letter::J, Letter::B));
                pairs.push((Letter::K, Letter::D));
                pairs.push((Letter::L, Letter::K));
                pairs.push((Letter::M, Letter::O));
                pairs.push((Letter::N, Letter::T));
                pairs.push((Letter::O, Letter::Y));
                pairs.push((Letter::P, Letter::U));
                pairs.push((Letter::Q, Letter::Q));
                pairs.push((Letter::R, Letter::G));
                pairs.push((Letter::S, Letter::E));
                pairs.push((Letter::T, Letter::N));
                pairs.push((Letter::U, Letter::H));
                pairs.push((Letter::V, Letter::X));
                pairs.push((Letter::W, Letter::M));
                pairs.push((Letter::X, Letter::I));
                pairs.push((Letter::Y, Letter::V));
                pairs.push((Letter::Z, Letter::S));
                proof {
                    assert(turnover@.map_values(|l: Letter| l@) =~= seq![rotor_turnover(RotorId::II)]);
                }
                (turnover, pairs)
            },
            RotorId::III => {
                let turnover = vec![Letter::W];
                let mut pairs: Vec<(Letter, Letter)> = Vec::new();
                pairs.push((Letter::A, Letter::T));
                pairs.push((Letter::B, Letter::A));
                pairs.push((Letter::C, Letter::G));
                pairs.push((Letter::D, Letter::B));
                pairs.push((Letter::E, Letter::P));
                pairs.push((Letter::F, Letter::C));
                pairs.push((Letter::G, Letter::S));
                pairs.push((Letter::H, Letter::D));
                pairs.push((Letter::I, Letter::Q));
                pairs.push((Letter::J, Letter::E));
                pairs.push((Letter::K, Letter::U));
                pairs.push((Letter::L, Letter::F));
                pairs.push((Letter::M, Letter::V));
                pairs.push((Letter::N, Letter::N));
                pairs.push((Letter::O, Letter::Z));
                pairs.push((Letter::P, Letter::H));
                pairs.push((Letter::Q, Letter::Y));
                pairs.push((Letter::R, Letter::I));
                pairs.push((Letter::S, Letter::X));
                pairs.push((Letter::T, Letter::J));
                pairs.push((Letter::U, Letter::W));
                pairs.push((Letter::V, Letter::L));
                pairs.push((Letter::W, Letter::R));
                pairs.push((Letter::X, Letter::K));
                pairs.push((Letter::Y, Letter::O));
                pairs.push((Letter::Z, Letter::M));
                proof {
                    assert(turnover@.map_values(|l: Letter| l@) =~= seq![rotor_turnover(RotorId::III)]);
                }
                (turnover, pairs)
            },
            RotorId::IV => {
                let turnover = vec![Letter::K];
                let mut pairs: Vec<(Letter, Letter)> = Vec::new();
                pairs.push((Letter::A, Letter::H));
                pairs.push((Letter::B, Letter::Z));
                pairs.push((Letter::C, Letter::W));
                pairs.push((Letter::D, Letter::V));
                pairs.push((Letter::E, Letter::A));
                pairs.push((Letter::F, Letter::R));
                pairs.push((Letter::G, Letter::T));
                pairs.push((Letter::H, Letter::N));
                pairs.push((Letter::I, Letter::L));
                pairs.push((Letter::J, Letter::G));
                pairs.push((Letter::K, Letter::U));
                pairs.push((Letter::L, Letter::P));
                pairs.push((Letter::M, Letter::X));
                pairs.push((Letter::N, Letter::Q));
                pairs.push((Letter::O, Letter::C));
                pairs.push((Letter::P, Letter::E));
                pairs.push((Letter::Q, Letter::J));
                pairs.push((Letter::R, Letter::M));
                pairs.push((Letter::S, Letter::B));
                pairs.push((Letter::T, Letter::S));
                pairs.push((Letter::U, Letter::K));
                pairs.push((Letter::V, Letter::D));
                pairs.push((Letter::W, Letter::Y));
                pairs.push((Letter::X, Letter::O));
                pairs.push((Letter::Y, Letter::I));
                pairs.push((Letter::Z, Letter::F));
                proof {
                    assert(turnover@.map_values(|l: Letter| l@) =~= seq![rotor_turnover(RotorId::IV)]);
                }
                (turnover, pairs)
            },
            RotorId::V => {
                let turnover = vec![Letter::A];
                let mut pairs: Vec<(Letter, Letter)> = Vec::new();
                pairs.push((Letter::A, Letter::Q));
                pairs.push((Letter::B, Letter::C));
                pairs.push((Letter::C, Letter::Y));
                pairs.push((Letter::D, Letter::L));
                pairs.push((Letter::E, Letter::X));
                pairs.push((Letter::F, Letter::W));
                pairs.push((Letter::G, Letter::E));
                pairs.push((Letter::H, Letter::N));
                pairs.push((Letter::I, Letter::F));
                pairs.push((Letter::J, Letter::T));
                pairs.push((Letter::K, Letter::Z));
                pairs.push((Letter::L, Letter::O));
                pairs.push((Letter::M, Letter::S));
                pairs.push((Letter::N, Letter::M));
                pairs.push((Letter::O, Letter::V));
                pairs.push((Letter::P, Letter::J));
                pairs.push((Letter::Q, Letter::U));
                pairs.push((Letter::R, Letter::D));
                pairs.push((Letter::S, Letter::K));
                pairs.push((Letter::T, Letter::G));
                pairs.push((Letter::U, Letter::I));
                pairs.push((Letter::V, Letter::A));
                pairs.push((Letter::W, Letter::R));
                pairs.push((Letter::X, Letter::P));
                pairs.push((Letter::Y, Letter::H));
                pairs.push((Letter::Z, Letter::B));
                proof {
                    assert(turnover@.map_values(|l: Letter| l@) =~= seq![rotor_turnover(RotorId::V)]);
                }
                (turnover, pairs)
            },
        }
    }

    /// Create a rotor in the given state from this rotor ID.
    pub fn make_rotor(&self, starting_position: Letter, can_double_step: bool) -> (r: Rotor)
        ensures
            rotor_wf(r@),
            r@.fwd == rotor_fwd_table(*self),
            r@.rev == rotor_rev_table(*self),
            r@.pos == starting_position@,
            r@.turnover == seq![rotor_turnover(*self)],
            r@.cds == can_double_step,
    {
        let (turnover, mappings) = self.get_rotor_config();
        proof {
            lemma_rotor_tables(*self);
            assert forall|i: int, j: int|
                0 <= i < 26 && 0 <= j < 26 && i != j implies (#[trigger] mappings@[i]).1@ != (
            #[trigger] mappings@[j]).1@ by {
                assert(rotor_rev_table(*self)[rotor_fwd_table(*self)[i]] == i);
                assert(rotor_rev_table(*self)[rotor_fwd_table(*self)[j]] == j);
            }
            assert forall|c: int| 0 <= c < 26 implies #[trigger] spec_target_hit(mappings@, c) by {
                let i = rotor_rev_table(*self)[c];
                assert((mappings@[i]).1@ == rotor_fwd_table(*self)[i] == c);
            }
        }
        let r = Rotor::new(self.name(), mappings.as_slice(), turnover, can_double_step, starting_position);
        proof {
            assert forall|i: int| 0 <= i < 26 implies #[trigger] r@.fwd[i] == rotor_fwd_table(
                *self,
            )[i] by {
                assert((mappings@[i]).1@ == rotor_fwd_table(*self)[i]);
            }
            assert(r@.fwd =~= rotor_fwd_table(*self));
            assert forall|x: int| 0 <= x < 26 implies #[trigger] r@.rev[x] == rotor_rev_table(*self)[x] by {
                let i = rotor_rev_table(*self)[x];
                assert(r@.fwd[i] == x);
                assert(r@.rev[r@.fwd[i]] == i);
            }
            assert(r@.rev =~= rotor_rev_table(*self));
        }
        r
    }
}

impl ReflectorId {
    /// The reflector's name.
    pub fn name(&self) -> (r: String)
        ensures
            r@ == spec_reflector_name(*self),
    {
        match self {
            ReflectorId::A => "A".to_owned(),
            ReflectorId::B => "B".to_owned(),
            ReflectorId::C => "C".to_owned(),
        }
    }

    /// All three reflector IDs, in order.
    pub fn all() -> (r: Vec<ReflectorId>)
        ensures
            r@ == seq![ReflectorId::A, ReflectorId::B, ReflectorId::C],
    {
        let mut v: Vec<ReflectorId> = Vec::new();
        v.push(ReflectorId::A);
        v.push(ReflectorId::B);
        v.push(ReflectorId::C);
        proof {
            assert(v@ =~= seq![ReflectorId::A, ReflectorId::B, ReflectorId::C]);
        }
        v
    }

    /// The thirteen wiring pairs of this reflector.
    pub fn get_reflector_config(&self) -> (r: Vec<(Letter, Letter)>)
        ensures
            r@.len() == 13,
            forall|k: int|
                0 <= k < 13 ==> (#[trigger] r@[k]).0@ == reflector_pairs(*self)[k].0
                    && r@[k].1@ == reflector_pairs(*self)[k].1,
    {
        match self {
            ReflectorId::A => {
                let mut pairs: Vec<(Letter, Letter)> = Vec::new();
                pairs.push((Letter::A, Letter::E));
                pairs.push((Letter::B, Letter::J));
                pairs.push((Letter::C, Letter::M));
                pairs.push((Letter::D, Letter::Z));
                pairs.push((Letter::F, Letter::L));
                pairs.push((Letter::G, Letter::Y));
                pairs.push((Letter::H, Letter::X));
                pairs.push((Letter::I, Letter::V));
                pairs.push((Letter::K, Letter::W));
                pairs.push((Letter::N, Letter::R));
                pairs.push((Letter::O, Letter::Q));
                pairs.push((Letter::P, Letter::U));
                pairs.push((Letter::S, Letter::T));
                pairs
            },
            ReflectorId::B => {
                let mut pairs: Vec<(Letter, Letter)> = Vec::new();
                pairs.push((Letter::A, Letter::Y));
                pairs.push((Letter::B, Letter::R));
                pairs.push((Letter::C, Letter::U));
                pairs.push((Letter::D, Letter::H));
                pairs.push((Letter::E, Letter::Q));
                pairs.push((Letter::F, Letter::S));
                pairs.push((Letter::G, Letter::L));
                pairs.push((Letter::I, Letter::P));
                pairs.push((Letter::J, Letter::X));
                pairs.push((Letter::K, Letter::N));
                pairs.push((Letter::M, Letter::O));
                pairs.push((Letter::T, Letter::Z));
                pairs.push((Letter::V, Letter::W));
                pairs
            },
            ReflectorId::C => {
                let mut pairs: Vec<(Letter, Letter)> = Vec::new();
                pairs.push((Letter::A, Letter::F));
                pairs.push((Letter::B, Letter::V));
                pairs.push((Letter::C, Letter::P));
                pairs.push((Letter::D, Letter::J));
                pairs.push((Letter::E, Letter::I));
                pairs.push((Letter::G, Letter::O));
                pairs.push((Letter::H, Letter::Y));
                pairs.push((Letter::K, Letter::R));
                pairs.push((Letter::L, Letter::Z));
                pairs.push((Letter::M, Letter::X));
                pairs.push((Letter::N, Letter::W));
                pairs.push((Letter::Q, Letter::T));
                pairs.push((Letter::S, Letter::U));
                pairs
            },
        }
    }

    /// Create a reflector from this reflector ID.
    pub fn make_reflector(&self) -> (r: Reflector)
        ensures
            mapping_derangement_involution(r@),
            r@ == reflector_table(*self),
    {
        let cfg = self.get_reflector_config();
        proof {
            assert forall|c: int| 0 <= c < 26 implies #[trigger] spec_pair_covers(cfg@, c) by {
                let k = reflector_cover_index(*self)[c];
                assert(0 <= k < 13);
                assert((cfg@[k]).0@ == c || (cfg@[k]).1@ == c);
            }
            assert(spec_reflector_pairs_ok(cfg@));
        }
        let r = Reflector::new(cfg.as_slice());
        proof {
            assert forall|c: int| 0 <= c < 26 implies #[trigger] r@[c] == reflector_table(*self)[c] by {
                let k = reflector_cover_index(*self)[c];
                assert(0 <= k < 13);
                assert((cfg@[k]).0@ == c || (cfg@[k]).1@ == c);
            }
            assert(r@ =~= reflector_table(*self));
        }
        r
    }
}

} // verus!
