use vstd::prelude::*;

verus! {

/// Texel filter of a sampler.
#[derive(Clone, Copy, PartialEq, Eq, Structural, Debug, Hash)]
pub enum Filter {
    Nearest,
    Linear,
    Cubic,
}

/// How a sub-image is sampled. Sub-images with equal descriptions share one
/// sampler object.
#[derive(Clone, Copy, PartialEq, Eq, Structural, Debug, Hash)]
pub struct SamplerDesc {
    pub mag_filter: Filter,
    pub min_filter: Filter,
}

impl Default for SamplerDesc {
    fn default() -> (r: SamplerDesc)
        ensures
            r == (SamplerDesc { mag_filter: Filter::Linear, min_filter: Filter::Nearest }),
    {
        SamplerDesc { mag_filter: Filter::Linear, min_filter: Filter::Nearest }
    }
}

/// The descriptions after `d` has been made sure of: unchanged when present,
/// else `d` appended in a new slot.
pub open spec fn with_sampler(descs: Seq<SamplerDesc>, d: SamplerDesc) -> Seq<SamplerDesc> {
    if descs.contains(d) {
        descs
    } else {
        descs.push(d)
    }
}

/// Making sure of `d` creates a sampler object exactly when `d` has none yet.
pub open spec fn creates_sampler(descs: Seq<SamplerDesc>, d: SamplerDesc) -> bool {
    !descs.contains(d)
}

/// Sampler descriptions that have a sampler object, one slot each, in the
/// order they were first asked for. The objects themselves live with whoever
/// creates them, indexed by slot.
pub struct SamplerCache {
    descs: Vec<SamplerDesc>,
}

impl View for SamplerCache {
    type V = Seq<SamplerDesc>;

    closed spec fn view(&self) -> Seq<SamplerDesc> {
        self.descs@
    }
}

impl SamplerCache {
    /// No description is present twice.
    pub open spec fn wf(&self) -> bool {
        self@.no_duplicates()
    }

    pub fn new() -> (r: SamplerCache)
        ensures
            r.wf(),
            r@ == Seq::<SamplerDesc>::empty(),
    {
        SamplerCache { descs: Vec::new() }
    }

    /// Number of slots.
    pub fn len(&self) -> (r: usize)
        ensures
            r == self@.len(),
    {
        self.descs.len()
    }

    /// Description held in `slot`.
    pub fn desc_at(&self, slot: usize) -> (r: SamplerDesc)
        requires
            slot < self@.len(),
        ensures
            r == self@[slot as int],
    {
        self.descs[slot]
    }

    /// Slot of `d`, if it has one.
    pub fn slot_of(&self, d: &SamplerDesc) -> (r: Option<usize>)
        ensures
            r is None <==> !self@.contains(*d),
            r matches Some(s) ==> s < self@.len() && self@[s as int] == *d,
    {
        let mut i: usize = 0;
        while i < self.descs.len()
            invariant
                i <= self.descs@.len(),
                forall|k: int| 0 <= k < i ==> self.descs@[k] != *d,
            decreases self.descs@.len() - i,
        {
            if self.descs[i] == *d {
                return Some(i);
            }
            i = i + 1;
        }
        None
    }

    /// The slot of `d`, giving it a new one when absent. `created` tells
    /// whether a new slot was made, for which a sampler object must be created.
    pub fn get_or_insert(&mut self, d: SamplerDesc) -> (r: (usize, bool))
        requires
            old(self).wf(),
        ensures
            final(self).wf(),
            final(self)@ == with_sampler(old(self)@, d),
            r.1 == creates_sampler(old(self)@, d),
            r.0 < final(self)@.len(),
            final(self)@[r.0 as int] == d,
    {
        match self.slot_of(&d) {
            Some(s) => (s, false),
            None => {
                self.descs.push(d);
                (self.descs.len() - 1, true)
            },
        }
    }
}

/// Asking twice for the same description creates at most one sampler object:
/// the second request finds the first's slot.
pub proof fn lemma_sampler_reuse(descs: Seq<SamplerDesc>, d: SamplerDesc)
    ensures
        !creates_sampler(with_sampler(descs, d), d),
        with_sampler(with_sampler(descs, d), d) == with_sampler(descs, d),
{
    if !descs.contains(d) {
        assert(descs.push(d)[descs.len() as int] == d);
    }
}

} // verus!
