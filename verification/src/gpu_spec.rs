//! GPU models and sets of GPU models.

use vstd::prelude::*;

verus! {

/// The GPU models that a node can carry and a task can ask for.
#[derive(Clone, Copy, Debug, PartialEq, Eq, Structural, Hash)]
pub enum GpuModel {
    A10,
    G2,
    G3,
    P100,
    T4,
    V100M16,
    V100M32,
}

/// The bits of all seven models.
pub const ALL_MODELS: u64 = 0x7f;

impl GpuModel {
    /// The bit that stands for this model in a `GpuSpec`.
    pub open spec fn mask(self) -> u64 {
        match self {
            GpuModel::A10 => 1,
            GpuModel::G2 => 2,
            GpuModel::G3 => 4,
            GpuModel::P100 => 8,
            GpuModel::T4 => 16,
            GpuModel::V100M16 => 32,
            GpuModel::V100M32 => 64,
        }
    }

    /// The name of this model as ASCII bytes: `A10`, `G2`, `G3`, `P100`, `T4`,
    /// `V100M16`, `V100M32`.
    pub open spec fn name(self) -> Seq<u8> {
        match self {
            GpuModel::A10 => seq![65u8, 49u8, 48u8],
            GpuModel::G2 => seq![71u8, 50u8],
            GpuModel::G3 => seq![71u8, 51u8],
            GpuModel::P100 => seq![80u8, 49u8, 48u8, 48u8],
            GpuModel::T4 => seq![84u8, 52u8],
            GpuModel::V100M16 => seq![86u8, 49u8, 48u8, 48u8, 77u8, 49u8, 54u8],
            GpuModel::V100M32 => seq![86u8, 49u8, 48u8, 48u8, 77u8, 51u8, 50u8],
        }
    }

    /// The bit that stands for this model in a `GpuSpec`.
    pub fn bit(self) -> (b: u64)
        ensures
            b == self.mask(),
    {
        match self {
            GpuModel::A10 => 1,
            GpuModel::G2 => 2,
            GpuModel::G3 => 4,
            GpuModel::P100 => 8,
            GpuModel::T4 => 16,
            GpuModel::V100M16 => 32,
            GpuModel::V100M32 => 64,
        }
    }
}

/// The model that a name stands for, if any. Names are matched exactly.
pub open spec fn model_named(name: Seq<u8>) -> Option<GpuModel> {
    if name == GpuModel::A10.name() {
        Some(GpuModel::A10)
    } else if name == GpuModel::G2.name() {
        Some(GpuModel::G2)
    } else if name == GpuModel::G3.name() {
        Some(GpuModel::G3)
    } else if name == GpuModel::P100.name() {
        Some(GpuModel::P100)
    } else if name == GpuModel::T4.name() {
        Some(GpuModel::T4)
    } else if name == GpuModel::V100M16.name() {
        Some(GpuModel::V100M16)
    } else if name == GpuModel::V100M32.name() {
        Some(GpuModel::V100M32)
    } else {
        None
    }
}

/// A set of GPU models, kept as a bit mask. The empty set means "no preference".
#[derive(Clone, Copy, Debug, PartialEq, Eq, Structural, Hash)]
pub struct GpuSpec(u64);

impl View for GpuSpec {
    type V = Set<GpuModel>;

    open spec fn view(&self) -> Set<GpuModel> {
        Set::new(|m: GpuModel| self.has(m))
    }
}

/// A mask of known bits that is not 0 has the bit of some model.
proof fn lemma_some_bit(x: u64)
    by (bit_vector)
    requires
        x != 0,
        x <= 0x7f,
    ensures
        x & 1 != 0 || x & 2 != 0 || x & 4 != 0 || x & 8 != 0 || x & 16 != 0 || x & 32 != 0 || x
            & 64 != 0,
{
}

/// How the bit of one model behaves under `&` and `|`.
proof fn lemma_and_bit(a: u64, b: u64, k: u64)
    by (bit_vector)
    requires
        k == 1 || k == 2 || k == 4 || k == 8 || k == 16 || k == 32 || k == 64,
    ensures
        ((a & b) & k != 0) <==> (a & k != 0 && b & k != 0),
        ((a | b) & k != 0) <==> (a & k != 0 || b & k != 0),
        0u64 & k == 0,
        k <= 0x7f,
{
}

/// The bits of two models overlap only where the models are the same.
proof fn lemma_two_bits(j: u64, k: u64)
    by (bit_vector)
    requires
        j == 1 || j == 2 || j == 4 || j == 8 || j == 16 || j == 32 || j == 64,
        k == 1 || k == 2 || k == 4 || k == 8 || k == 16 || k == 32 || k == 64,
    ensures
        (j & k != 0) <==> j == k,
{
}

/// Two masks of known bits are united to a mask of known bits.
proof fn lemma_or_bound(a: u64, b: u64)
    by (bit_vector)
    requires
        a <= 0x7f,
        b <= 0x7f,
    ensures
        (a | b) <= 0x7f,
{
}

impl GpuSpec {
    #[verifier::type_invariant]
    /// Every bit of the mask stands for a model.
    spec fn known_bits_only(self) -> bool {
        self.0 <= ALL_MODELS
    }

    /// The bit mask behind the set.
    pub closed spec fn spec_bits(self) -> u64 {
        self.0
    }

    /// Whether the set holds model `m`.
    pub open spec fn has(self, m: GpuModel) -> bool {
        self.spec_bits() & m.mask() != 0
    }

    /// Whether the two sets share a model.
    pub open spec fn spec_intersects(self, other: GpuSpec) -> bool {
        exists|m: GpuModel| self.has(m) && other.has(m)
    }

    /// The empty set: no preference.
    pub fn empty() -> (r: GpuSpec)
        ensures
            r@ == Set::<GpuModel>::empty(),
            r.spec_bits() == 0,
    {
        let r = GpuSpec(0);
        proof {
            assert forall|m: GpuModel| !r.has(m) by {
                lemma_and_bit(0, 0, m.mask());
            }
            assert(r@ =~= Set::<GpuModel>::empty());
        }
        r
    }

    /// The set that holds `m` alone.
    pub fn single(m: GpuModel) -> (r: GpuSpec)
        ensures
            r@ == set![m],
            r.spec_bits() == m.mask(),
    {
        proof {
            lemma_and_bit(0, 0, m.mask());
        }
        let r = GpuSpec(m.bit());
        proof {
            assert forall|n: GpuModel| r.has(n) == (n == m) by {
                lemma_two_bits(m.mask(), n.mask());
            }
            assert(r@ =~= set![m]);
        }
        r
    }

    /// The bit mask of the set: bit `m.mask()` is set exactly for the models `m` in it.
    pub fn bits(&self) -> (b: u64)
        ensures
            b == self.spec_bits(),
            b <= ALL_MODELS,
    {
        proof {
            use_type_invariant(self);
        }
        self.0
    }

    /// The set with the given bit mask; `None` where a bit stands for no model.
    pub fn from_bits(bits: u64) -> (r: Option<GpuSpec>)
        ensures
            r is Some <==> bits <= ALL_MODELS,
            r matches Some(s) ==> s.spec_bits() == bits,
    {
        if bits <= ALL_MODELS {
            Some(GpuSpec(bits))
        } else {
            None
        }
    }

    /// Whether the set holds no model.
    pub fn is_empty(&self) -> (r: bool)
        ensures
            r == (self@ == Set::<GpuModel>::empty()),
    {
        proof {
            use_type_invariant(self);
            let x = self.0;
            if x == 0 {
                assert forall|m: GpuModel| !self.has(m) by {
                    lemma_and_bit(0, 0, m.mask());
                }
                assert(self@ =~= Set::<GpuModel>::empty());
            } else {
                lemma_some_bit(x);
                assert(self.has(GpuModel::A10) || self.has(GpuModel::G2) || self.has(GpuModel::G3)
                    || self.has(GpuModel::P100) || self.has(GpuModel::T4) || self.has(
                    GpuModel::V100M16,
                ) || self.has(GpuModel::V100M32));
                let m = choose|m: GpuModel| self.has(m);
                assert(self@.contains(m));
            }
        }
        self.0 == 0
    }

    /// Whether the set holds model `m`.
    pub fn contains(&self, m: GpuModel) -> (r: bool)
        ensures
            r == self@.contains(m),
    {
        self.0 & m.bit() != 0
    }

    /// Whether the two sets share at least one model.
    pub fn intersects(&self, other: GpuSpec) -> (r: bool)
        ensures
            r == self.spec_intersects(other),
            r == !self@.disjoint(other@),
    {
        let x = self.0 & other.0;
        proof {
            use_type_invariant(self);
            use_type_invariant(other);
            let a = self.0;
            let b = other.0;
            if x != 0 {
                assert(x <= 0x7f) by (bit_vector)
                    requires
                        x == a & b,
                        a <= 0x7f,
                ;
                lemma_some_bit(x);
                lemma_and_bit(a, b, 1);
                lemma_and_bit(a, b, 2);
                lemma_and_bit(a, b, 4);
                lemma_and_bit(a, b, 8);
                lemma_and_bit(a, b, 16);
                lemma_and_bit(a, b, 32);
                lemma_and_bit(a, b, 64);
                assert((self.has(GpuModel::A10) && other.has(GpuModel::A10)) || (self.has(
                    GpuModel::G2,
                ) && other.has(GpuModel::G2)) || (self.has(GpuModel::G3) && other.has(GpuModel::G3))
                    || (self.has(GpuModel::P100) && other.has(GpuModel::P100)) || (self.has(
                    GpuModel::T4,
                ) && other.has(GpuModel::T4)) || (self.has(GpuModel::V100M16) && other.has(
                    GpuModel::V100M16,
                )) || (self.has(GpuModel::V100M32) && other.has(GpuModel::V100M32)));
                let m = choose|m: GpuModel| self.has(m) && other.has(m);
                assert(self@.contains(m) && other@.contains(m));
            } else {
                assert forall|m: GpuModel| !(self.has(m) && other.has(m)) by {
                    lemma_and_bit(a, b, m.mask());
                }
                assert(self@.disjoint(other@));
            }
        }
        x != 0
    }

    /// The models of either set.
    pub fn union(self, other: GpuSpec) -> (r: GpuSpec)
        ensures
            r@ == self@.union(other@),
            r.spec_bits() == self.spec_bits() | other.spec_bits(),
    {
        proof {
            use_type_invariant(self);
            use_type_invariant(other);
            lemma_or_bound(self.0, other.0);
        }
        let r = GpuSpec(self.0 | other.0);
        proof {
            assert forall|m: GpuModel| r.has(m) == (self.has(m) || other.has(m)) by {
                lemma_and_bit(self.0, other.0, m.mask());
            }
            assert(r@ =~= self@.union(other@));
        }
        r
    }
}

impl Default for GpuSpec {
    /// The empty set.
    fn default() -> (r: GpuSpec)
        ensures
            r@ == Set::<GpuModel>::empty(),
            r.spec_bits() == 0,
    {
        GpuSpec::empty()
    }
}

} // verus!
