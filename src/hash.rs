//! Dispatch over permutation families, and the two-to-one compression built on it.

use vstd::prelude::*;
use crate::field::{fr_from_u64, lemma_modulus_facts, mod_add, modulus, mont_r, Felt};
use crate::skyscraper::permutation::{lemma_rounds_reduced, permute_spec, permute_state_inplace, RoundSchedule};
use crate::state::State;

verus! {

/// A permutation of the three-lane state, as a hash family provides it.
pub trait StatePermutation {
    /// The configuration is usable.
    spec fn wf(&self) -> bool;

    /// The permutation on the raw lanes (x, y, z).
    spec fn spec_permute(&self, s: (int, int, int)) -> (int, int, int);

    fn permute_inplace(&self, s: &mut State)
        requires
            self.wf(),
            old(s).wf(),
        ensures
            final(s).wf(),
            final(s)@ == self.spec_permute(old(s)@),
    ;
}

impl StatePermutation for RoundSchedule {
    open spec fn wf(&self) -> bool {
        RoundSchedule::wf(self)
    }

    /// Skyscraper permutes the x and y lanes and leaves z as it is.
    open spec fn spec_permute(&self, s: (int, int, int)) -> (int, int, int) {
        let p = permute_spec(self.blocks@, self.constants_raw(), s.0, s.1);
        (p.0, p.1, s.2)
    }

    fn permute_inplace(&self, s: &mut State) {
        permute_state_inplace(self, s);
    }
}

/// The permutation families, each carrying its implementation.
pub enum Hash<P, G> {
    Poseidon2(P),
    Griffin(G),
    Skyscraper(RoundSchedule),
}

impl<P: StatePermutation, G: StatePermutation> Hash<P, G> {
    /// The selected family is usable.
    pub open spec fn wf(&self) -> bool {
        match self {
            Hash::Poseidon2(p) => p.wf(),
            Hash::Griffin(g) => g.wf(),
            Hash::Skyscraper(k) => StatePermutation::wf(k),
        }
    }

    /// The selected family's permutation on raw lanes.
    pub open spec fn spec_permute(&self, s: (int, int, int)) -> (int, int, int) {
        match self {
            Hash::Poseidon2(p) => p.spec_permute(s),
            Hash::Griffin(g) => g.spec_permute(s),
            Hash::Skyscraper(k) => k.spec_permute(s),
        }
    }
}

/// Applies the selected family's permutation to a copy of `s`.
pub fn permute<P: StatePermutation, G: StatePermutation>(h: &Hash<P, G>, s: State) -> (r: State)
    requires
        h.wf(),
        s.wf(),
    ensures
        r.wf(),
        r@ == h.spec_permute(s@),
{
    let mut u = s;
    permute_inplace(h, &mut u);
    u
}

/// Applies the selected family's permutation to `s` in place.
pub fn permute_inplace<P: StatePermutation, G: StatePermutation>(h: &Hash<P, G>, s: &mut State)
    requires
        h.wf(),
        old(s).wf(),
    ensures
        final(s).wf(),
        final(s)@ == h.spec_permute(old(s)@),
{
    match h {
        Hash::Poseidon2(p) => p.permute_inplace(s),
        Hash::Griffin(g) => g.permute_inplace(s),
        Hash::Skyscraper(k) => k.permute_inplace(s),
    }
}

/// Two-to-one compression: the x lane of the permutation of (x, y, 0).
pub fn compress<P: StatePermutation, G: StatePermutation>(h: &Hash<P, G>, x: Felt, y: Felt) -> (r: Felt)
    requires
        h.wf(),
        x.wf(),
        y.wf(),
    ensures
        r.wf(),
        r.raw() == h.spec_permute((x.raw(), y.raw(), 0)).0,
{
    let mut u = State { x: x, y: y, z: Felt::zero() };
    permute_inplace(h, &mut u);
    u.x
}

/// Keyed two-to-one compression: the x lane of the permutation of (x, y, key),
/// with the key embedded as a field element.
pub fn keyed_compress<P: StatePermutation, G: StatePermutation>(h: &Hash<P, G>, key: u64, x: Felt, y: Felt) -> (r: Felt)
    requires
        h.wf(),
        x.wf(),
        y.wf(),
    ensures
        r.wf(),
        r.raw() == h.spec_permute((x.raw(), y.raw(), (key as int * mont_r()) % modulus())).0,
{
    let mut u = State { x: x, y: y, z: fr_from_u64(key) };
    permute_inplace(h, &mut u);
    u.x
}

/// Permuting equal states gives equal results: `permute` and `permute_inplace`
/// both yield the family's permutation of the input lanes, a function of them alone.
pub proof fn lemma_permute_deterministic<P: StatePermutation, G: StatePermutation>(
    h: &Hash<P, G>,
    s1: State,
    s2: State,
)
    requires
        s1@ == s2@,
    ensures
        h.spec_permute(s1@) == h.spec_permute(s2@),
{
}

/// For the Skyscraper family, the dispatcher's compression (the permuted x lane)
/// and the module's own compression (x plus the permuted x lane) differ on
/// every input whose x is not zero.
pub proof fn lemma_compress_divergence<P: StatePermutation, G: StatePermutation>(
    h: &Hash<P, G>,
    x: Felt,
    y: Felt,
)
    requires
        h is Skyscraper,
        x.wf(),
        y.wf(),
        x.raw() != 0,
    ensures
        h.spec_permute((x.raw(), y.raw(), 0)).0 != mod_add(
            x.raw(),
            permute_spec(h->Skyscraper_0.blocks@, h->Skyscraper_0.constants_raw(), x.raw(), y.raw()).0,
        ),
{
    let k = h->Skyscraper_0;
    lemma_modulus_facts();
    lemma_rounds_reduced(k.blocks@, k.constants_raw(), k.blocks@.len(), x.raw(), y.raw());
    let v = permute_spec(k.blocks@, k.constants_raw(), x.raw(), y.raw()).0;
    let a = x.raw();
    let p = modulus();
    assert(0 <= v < p);
    if a + v < p {
        vstd::arithmetic::div_mod::lemma_small_mod((a + v) as nat, p as nat);
    } else {
        vstd::arithmetic::div_mod::lemma_fundamental_div_mod_converse_mod(a + v, p, 1, a + v - p);
    }
}

} // verus!
