//! The choice of a SIMD instruction set from the features of the CPU, the
//! number that the choice is cached under, and the bulk encoder that each
//! instruction set runs.

use vstd::prelude::*;

use crate::encode::python::BulkEncoder;

verus! {

/// A SIMD instruction set that the encoders can use.
#[derive(Clone, Copy, Debug, PartialEq, Eq, Structural)]
pub enum SimdIsa {
    Scalar,
    Sse2,
    Sse41,
    Avx2,
    Avx512,
    Neon,
    Neon32,
}

/// The CPU features that the choice of an instruction set depends on, as
/// the running CPU reports them (features of another architecture are
/// reported absent).
#[derive(Clone, Copy, Debug, PartialEq, Eq, Structural)]
pub struct CpuFeatures {
    pub avx512f: bool,
    pub avx512bw: bool,
    pub avx512vbmi: bool,
    pub avx2: bool,
    pub sse41: bool,
    pub sse2: bool,
    /// NEON on AArch64.
    pub neon: bool,
    /// NEON on 32-bit ARM.
    pub neon32: bool,
}

impl SimdIsa {
    /// The first instruction set that `features` offer, in the order
    /// AVX-512 (F, BW and VBMI, all three of which the AVX-512 encoder
    /// needs), AVX2, SSE4.1, SSE2, NEON on AArch64, NEON on 32-bit ARM;
    /// none gives `Scalar`.
    pub open spec fn best(features: CpuFeatures) -> SimdIsa {
        if features.avx512f && features.avx512bw && features.avx512vbmi {
            SimdIsa::Avx512
        } else if features.avx2 {
            SimdIsa::Avx2
        } else if features.sse41 {
            SimdIsa::Sse41
        } else if features.sse2 {
            SimdIsa::Sse2
        } else if features.neon {
            SimdIsa::Neon
        } else if features.neon32 {
            SimdIsa::Neon32
        } else {
            SimdIsa::Scalar
        }
    }

    /// How capable an instruction set is: AVX-512 over AVX2 over SSE4.1
    /// over SSE2 over NEON on AArch64 over NEON on 32-bit ARM over none.
    pub open spec fn rank(self) -> int {
        match self {
            SimdIsa::Scalar => 0,
            SimdIsa::Neon32 => 1,
            SimdIsa::Neon => 2,
            SimdIsa::Sse2 => 3,
            SimdIsa::Sse41 => 4,
            SimdIsa::Avx2 => 5,
            SimdIsa::Avx512 => 6,
        }
    }

    /// A CPU with `features` offers this instruction set: it has every
    /// feature that the instruction set's encoder needs.
    pub open spec fn offered_by(self, features: CpuFeatures) -> bool {
        match self {
            SimdIsa::Scalar => true,
            SimdIsa::Neon32 => features.neon32,
            SimdIsa::Neon => features.neon,
            SimdIsa::Sse2 => features.sse2,
            SimdIsa::Sse41 => features.sse41,
            SimdIsa::Avx2 => features.avx2,
            SimdIsa::Avx512 => features.avx512f && features.avx512bw && features.avx512vbmi,
        }
    }

    /// The instruction set to use on a CPU with `features`: the most
    /// capable one that the CPU offers.
    pub fn detect(features: CpuFeatures) -> (isa: SimdIsa)
        ensures
            isa == SimdIsa::best(features),
            isa.offered_by(features),
            forall|other: SimdIsa| #[trigger] other.offered_by(features) ==> other.rank() <= isa.rank(),
    {
        proof {
            lemma_best_is_most_capable(features);
        }
        if features.avx512f && features.avx512bw && features.avx512vbmi {
            return SimdIsa::Avx512;
        }
        if features.avx2 {
            return SimdIsa::Avx2;
        }
        if features.sse41 {
            return SimdIsa::Sse41;
        }
        if features.sse2 {
            return SimdIsa::Sse2;
        }
        if features.neon {
            return SimdIsa::Neon;
        }
        if features.neon32 {
            return SimdIsa::Neon32;
        }
        SimdIsa::Scalar
    }

    /// The number of an instruction set.
    pub open spec fn code_of(self) -> usize {
        match self {
            SimdIsa::Scalar => 0,
            SimdIsa::Sse2 => 1,
            SimdIsa::Sse41 => 2,
            SimdIsa::Avx2 => 3,
            SimdIsa::Avx512 => 4,
            SimdIsa::Neon => 5,
            SimdIsa::Neon32 => 6,
        }
    }

    /// The instruction set numbered `code`, if any.
    pub open spec fn decode(code: usize) -> Option<SimdIsa> {
        if code == 0 {
            Some(SimdIsa::Scalar)
        } else if code == 1 {
            Some(SimdIsa::Sse2)
        } else if code == 2 {
            Some(SimdIsa::Sse41)
        } else if code == 3 {
            Some(SimdIsa::Avx2)
        } else if code == 4 {
            Some(SimdIsa::Avx512)
        } else if code == 5 {
            Some(SimdIsa::Neon)
        } else if code == 6 {
            Some(SimdIsa::Neon32)
        } else {
            None
        }
    }

    /// The number under which this instruction set is cached.
    pub fn code(self) -> (code: usize)
        ensures
            code == self.code_of(),
    {
        match self {
            SimdIsa::Scalar => 0,
            SimdIsa::Sse2 => 1,
            SimdIsa::Sse41 => 2,
            SimdIsa::Avx2 => 3,
            SimdIsa::Avx512 => 4,
            SimdIsa::Neon => 5,
            SimdIsa::Neon32 => 6,
        }
    }

    /// The instruction set cached under `code`, or `None` for a number that
    /// names none (such as the mark of a cache not yet filled).
    pub fn from_code(code: usize) -> (isa: Option<SimdIsa>)
        ensures
            isa == SimdIsa::decode(code),
    {
        if code == 0 {
            Some(SimdIsa::Scalar)
        } else if code == 1 {
            Some(SimdIsa::Sse2)
        } else if code == 2 {
            Some(SimdIsa::Sse41)
        } else if code == 3 {
            Some(SimdIsa::Avx2)
        } else if code == 4 {
            Some(SimdIsa::Avx512)
        } else if code == 5 {
            Some(SimdIsa::Neon)
        } else if code == 6 {
            Some(SimdIsa::Neon32)
        } else {
            None
        }
    }

    /// The bulk encoder for this instruction set.
    pub open spec fn encoder_of(self) -> BulkEncoder {
        match self {
            SimdIsa::Avx512 => BulkEncoder::Avx512,
            SimdIsa::Avx2 => BulkEncoder::Avx2,
            SimdIsa::Sse41 => BulkEncoder::Ssse3,
            SimdIsa::Neon => BulkEncoder::Neon64,
            SimdIsa::Neon32 => BulkEncoder::Neon32,
            SimdIsa::Sse2 => BulkEncoder::Scalar,
            SimdIsa::Scalar => BulkEncoder::Scalar,
        }
    }

    /// The bulk encoder to run for this instruction set (SSE4.1 implies
    /// SSSE3; SSE2 alone has no block encoder of its own).
    pub fn encoder(self) -> (encoder: BulkEncoder)
        ensures
            encoder == self.encoder_of(),
    {
        match self {
            SimdIsa::Avx512 => BulkEncoder::Avx512,
            SimdIsa::Avx2 => BulkEncoder::Avx2,
            SimdIsa::Sse41 => BulkEncoder::Ssse3,
            SimdIsa::Neon => BulkEncoder::Neon64,
            SimdIsa::Neon32 => BulkEncoder::Neon32,
            SimdIsa::Sse2 => BulkEncoder::Scalar,
            SimdIsa::Scalar => BulkEncoder::Scalar,
        }
    }
}

impl SimdIsa {
    /// The entry point of `kernel` may run on a CPU whose instruction set
    /// is this one: the portable kernel always, each other kernel only on
    /// its own instruction set (SSSE3 on SSE4.1).
    pub open spec fn runs(self, kernel: BulkEncoder) -> bool {
        match kernel {
            BulkEncoder::Scalar => true,
            BulkEncoder::Ssse3 => self == SimdIsa::Sse41,
            BulkEncoder::Avx2 => self == SimdIsa::Avx2,
            BulkEncoder::Avx512 => self == SimdIsa::Avx512,
            BulkEncoder::Neon64 => self == SimdIsa::Neon,
            BulkEncoder::Neon32 => self == SimdIsa::Neon32,
        }
    }

    /// Whether the entry point of `kernel` may run on a CPU whose
    /// instruction set is this one.
    pub fn supports(self, kernel: BulkEncoder) -> (ok: bool)
        ensures
            ok == self.runs(kernel),
            ok == (kernel == BulkEncoder::Scalar || kernel == self.encoder_of()),
            ok == (kernel == BulkEncoder::Scalar || kernel_isa(kernel) == Some(self)),
    {
        match kernel {
            BulkEncoder::Scalar => true,
            BulkEncoder::Ssse3 => self == SimdIsa::Sse41,
            BulkEncoder::Avx2 => self == SimdIsa::Avx2,
            BulkEncoder::Avx512 => self == SimdIsa::Avx512,
            BulkEncoder::Neon64 => self == SimdIsa::Neon,
            BulkEncoder::Neon32 => self == SimdIsa::Neon32,
        }
    }
}

/// The instruction set that a block encoder is built for; the portable
/// encoder needs none.
pub open spec fn kernel_isa(kernel: BulkEncoder) -> Option<SimdIsa> {
    match kernel {
        BulkEncoder::Scalar => None,
        BulkEncoder::Ssse3 => Some(SimdIsa::Sse41),
        BulkEncoder::Avx2 => Some(SimdIsa::Avx2),
        BulkEncoder::Avx512 => Some(SimdIsa::Avx512),
        BulkEncoder::Neon64 => Some(SimdIsa::Neon),
        BulkEncoder::Neon32 => Some(SimdIsa::Neon32),
    }
}

/// Every feature that `smaller` reports is reported by `larger` too.
pub open spec fn features_within(smaller: CpuFeatures, larger: CpuFeatures) -> bool {
    &&& smaller.avx512f ==> larger.avx512f
    &&& smaller.avx512bw ==> larger.avx512bw
    &&& smaller.avx512vbmi ==> larger.avx512vbmi
    &&& smaller.avx2 ==> larger.avx2
    &&& smaller.sse41 ==> larger.sse41
    &&& smaller.sse2 ==> larger.sse2
    &&& smaller.neon ==> larger.neon
    &&& smaller.neon32 ==> larger.neon32
}

/// The choice law: the instruction set chosen for `features` is one that
/// they offer, and no instruction set that they offer is more capable;
/// so a CPU with AVX-512F, AVX-512BW and AVX-512VBMI gets AVX-512 whatever
/// else it has.
pub proof fn lemma_best_is_most_capable(features: CpuFeatures)
    ensures
        SimdIsa::best(features).offered_by(features),
        forall|other: SimdIsa|
            #[trigger] other.offered_by(features) ==> other.rank() <= SimdIsa::best(features).rank(),
        features.avx512f && features.avx512bw && features.avx512vbmi ==> SimdIsa::best(features)
            == SimdIsa::Avx512,
{
    assert forall|other: SimdIsa| #[trigger] other.offered_by(features) implies other.rank()
        <= SimdIsa::best(features).rank() by {
        match other {
            SimdIsa::Scalar => {},
            SimdIsa::Neon32 => {},
            SimdIsa::Neon => {},
            SimdIsa::Sse2 => {},
            SimdIsa::Sse41 => {},
            SimdIsa::Avx2 => {},
            SimdIsa::Avx512 => {},
        }
    }
}

/// Only one instruction set fits the choice law: an offered one that no
/// offered one outranks is the one chosen.
pub proof fn lemma_most_capable_is_unique(features: CpuFeatures, isa: SimdIsa)
    requires
        isa.offered_by(features),
        forall|other: SimdIsa| #[trigger] other.offered_by(features) ==> other.rank() <= isa.rank(),
    ensures
        isa == SimdIsa::best(features),
{
    lemma_best_is_most_capable(features);
    assert(SimdIsa::best(features).rank() <= isa.rank());
    assert(isa.rank() <= SimdIsa::best(features).rank());
}

/// The choice is monotone: a CPU with more features never gets a less
/// capable instruction set.
pub proof fn lemma_best_monotone(smaller: CpuFeatures, larger: CpuFeatures)
    requires
        features_within(smaller, larger),
    ensures
        SimdIsa::best(smaller).rank() <= SimdIsa::best(larger).rank(),
{
    lemma_best_is_most_capable(smaller);
    lemma_best_is_most_capable(larger);
    let chosen = SimdIsa::best(smaller);
    assert(chosen.offered_by(larger));
}

/// The entry-point law: an entry point runs on the instruction set that
/// its encoder is built for, and on no other (the portable one on all);
/// each instruction set runs its own encoder, which its CPU offers.
pub proof fn lemma_entry_points(isa: SimdIsa, kernel: BulkEncoder, features: CpuFeatures)
    ensures
        isa.runs(isa.encoder_of()),
        isa.runs(kernel) <==> (kernel == BulkEncoder::Scalar || kernel_isa(kernel) == Some(isa)),
        isa.encoder_of() == BulkEncoder::Scalar || kernel_isa(isa.encoder_of()) == Some(isa),
        isa.encoder_of() == BulkEncoder::Scalar <==> (isa == SimdIsa::Scalar || isa == SimdIsa::Sse2),
        SimdIsa::best(features).runs(kernel) && kernel != BulkEncoder::Scalar ==> kernel_isa(
            kernel,
        ).unwrap().offered_by(features),
{
    lemma_best_is_most_capable(features);
}

/// The AVX-512 kernel is chosen, and may run, only on a CPU with
/// AVX-512F, AVX-512BW and AVX-512VBMI.
pub proof fn lemma_avx512_needs_vbmi(features: CpuFeatures)
    ensures
        SimdIsa::best(features).runs(BulkEncoder::Avx512) ==> features.avx512f
            && features.avx512bw && features.avx512vbmi,
        SimdIsa::best(features).encoder_of() == BulkEncoder::Avx512 ==> features.avx512f
            && features.avx512bw && features.avx512vbmi,
{
}

/// The cache law: an instruction set read back from the number it was
/// stored under is that instruction set, and no instruction set is stored
/// under `usize::MAX`, the mark of an empty cache.
pub proof fn lemma_code_round_trip(isa: SimdIsa)
    ensures
        SimdIsa::decode(isa.code_of()) == Some(isa),
        isa.code_of() != usize::MAX,
        SimdIsa::decode(usize::MAX) is None,
{
}

/// Decoding is one to one: two numbers that name an instruction set name
/// different ones.
pub proof fn lemma_decode_injective(a: usize, b: usize)
    requires
        SimdIsa::decode(a) is Some,
        SimdIsa::decode(a) == SimdIsa::decode(b),
    ensures
        a == b,
{
}

} // verus!
