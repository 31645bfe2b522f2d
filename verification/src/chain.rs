//! The chain of trust: what the firmware measures at boot, what the host
//! expects it to measure, and the host's comparison of the two.
use vstd::prelude::*;

use crate::digest::{pcr_extend, sha256};
use crate::kem::{kem_check, ml_kem_768_shared_secret, CIPHERTEXT_LEN, SEED_LEN};
use crate::report::{parse_pcr, pcr_value};

verus! {

/// Stages the firmware verifies: `.text`, `.rodata`, and the ML-KEM check.
pub const TOTAL_STAGES: usize = 3;

/// A register before any measurement: 32 zero bytes.
pub open spec fn zero_pcr() -> Seq<u8> {
    Seq::new(32, |i: int| 0u8)
}

/// `PCR[0..3]` for the given `.text` and `.rodata` sections and ML-KEM
/// shared secret: `PCR[0] = SHA-256(zeros || text)`, `PCR[1] =
/// SHA-256(PCR[0] || rodata)`, `PCR[2] = SHA-256(zeros || secret)`.
pub open spec fn chain_pcrs(text: Seq<u8>, rodata: Seq<u8>, secret: Seq<u8>) -> Seq<Seq<u8>> {
    let pcr0 = sha256(zero_pcr() + text);
    seq![pcr0, sha256(pcr0 + rodata), sha256(zero_pcr() + secret)]
}

/// What the firmware records while it boots.
pub struct BootMeasurement {
    pub pcr0: [u8; 32],
    pub pcr1: [u8; 32],
    pub pcr2: [u8; 32],
    /// The shared secret decapsulated from the embedded ciphertext.
    pub shared_secret: [u8; 32],
    /// The shared secret is the expected one.
    pub kem_ok: bool,
    /// How many of the `TOTAL_STAGES` stages verified.
    pub stages_passed: usize,
}

impl BootMeasurement {
    /// The three registers, in order.
    pub open spec fn pcrs(&self) -> Seq<Seq<u8>> {
        seq![self.pcr0@, self.pcr1@, self.pcr2@]
    }

    /// The chain-of-trust outcome: every stage passed.
    pub fn passed(&self) -> (ok: bool)
        ensures
            ok == (self.stages_passed == TOTAL_STAGES),
    {
        self.stages_passed == TOTAL_STAGES
    }
}

/// The firmware's boot sequence: measure `.text` into `PCR[0]`, chain
/// `.rodata` into `PCR[1]`, decapsulate the embedded ciphertext with the
/// embedded key seed and compare with the expected secret, and measure the
/// decapsulated secret into `PCR[2]`. The two section stages always pass;
/// the third passes when the secret is the expected one.
pub fn measure_boot(
    text: &[u8],
    rodata: &[u8],
    seed: &[u8],
    ciphertext: &[u8],
    expected_secret: &[u8],
) -> (m: BootMeasurement)
    requires
        seed@.len() == SEED_LEN,
        ciphertext@.len() == CIPHERTEXT_LEN,
    ensures
        m.shared_secret@ == ml_kem_768_shared_secret(seed@, ciphertext@),
        m.pcrs() == chain_pcrs(text@, rodata@, m.shared_secret@),
        m.pcr0@ == sha256(Seq::new(32, |i: int| 0u8) + text@),
        m.pcr1@ == sha256(m.pcr0@ + rodata@),
        m.pcr2@ == sha256(Seq::new(32, |i: int| 0u8) + m.shared_secret@),
        m.kem_ok == (m.shared_secret@ == expected_secret@),
        m.stages_passed == if m.kem_ok {
            3usize
        } else {
            2usize
        },
{
    let mut stages_passed: usize = 0;
    let mut pcr0 = [0u8; 32];
    assert(pcr0@ =~= zero_pcr());
    pcr_extend(&mut pcr0, text);
    stages_passed = stages_passed + 1;

    let mut pcr1 = pcr0;
    pcr_extend(&mut pcr1, rodata);
    stages_passed = stages_passed + 1;

    let (shared_secret, kem_ok) = kem_check(seed, ciphertext, expected_secret);
    if kem_ok {
        stages_passed = stages_passed + 1;
    }
    let mut pcr2 = [0u8; 32];
    assert(pcr2@ =~= zero_pcr());
    pcr_extend(&mut pcr2, shared_secret.as_slice());
    let m = BootMeasurement { pcr0, pcr1, pcr2, shared_secret, kem_ok, stages_passed };
    assert(m.pcrs() =~= chain_pcrs(text@, rodata@, m.shared_secret@));
    assert(zero_pcr() =~= Seq::new(32, |i: int| 0u8));
    m
}

/// The registers the host expects the firmware to report, computed from the
/// sections of the firmware image and the shared secret the host derived.
pub fn expected_pcrs(text: &[u8], rodata: &[u8], secret: &[u8]) -> (pcrs: [[u8; 32]; 3])
    ensures
        pcrs@.map_values(|p: [u8; 32]| p@) == chain_pcrs(text@, rodata@, secret@),
        pcrs[0]@ == sha256(Seq::new(32, |i: int| 0u8) + text@),
        pcrs[1]@ == sha256(pcrs[0]@ + rodata@),
        pcrs[2]@ == sha256(Seq::new(32, |i: int| 0u8) + secret@),
{
    let mut pcr0 = [0u8; 32];
    assert(pcr0@ =~= zero_pcr());
    pcr_extend(&mut pcr0, text);
    let mut pcr1 = pcr0;
    pcr_extend(&mut pcr1, rodata);
    let mut pcr2 = [0u8; 32];
    assert(pcr2@ =~= zero_pcr());
    pcr_extend(&mut pcr2, secret);
    let pcrs = [pcr0, pcr1, pcr2];
    assert(zero_pcr() =~= Seq::new(32, |i: int| 0u8));
    assert(pcrs@.map_values(|p: [u8; 32]| p@) =~= chain_pcrs(text@, rodata@, secret@));
    pcrs
}

/// The registers the firmware reported, and whether each is the expected one.
pub struct ReportedPcrs {
    pub values: [[u8; 32]; 3],
    pub matches: [bool; 3],
}

/// The host's comparison of the registers the firmware printed in `output`
/// with the expected ones: `Ok` with the values read and one outcome per
/// register, or `Err` with the first register whose line could not be read.
pub fn compare_reported_pcrs(expected: &[[u8; 32]; 3], output: &str) -> (r: Result<ReportedPcrs, usize>)
    ensures
        match r {
            Ok(reported) => forall|i: int|
                #![trigger reported.matches@[i]]
                #![trigger reported.values@[i]]
                0 <= i < 3 ==> {
                    &&& pcr_value(output@, i as nat) == Some(reported.values@[i]@)
                    &&& reported.matches@[i] == (reported.values@[i]@ == expected@[i]@)
                },
            Err(i) => {
                &&& i < 3
                &&& pcr_value(output@, i as nat) is None
                &&& forall|j: int| 0 <= j < i ==> (#[trigger] pcr_value(output@, j as nat)) is Some
            },
        },
{
    let mut matches = [false; 3];
    let mut values = [[0u8; 32]; 3];
    let mut i: usize = 0;
    while i < 3
        invariant
            i <= 3,
            forall|j: int|
                #![trigger matches@[j]]
                #![trigger values@[j]]
                #![trigger pcr_value(output@, j as nat)]
                0 <= j < i ==> {
                    &&& pcr_value(output@, j as nat) == Some(values@[j]@)
                    &&& matches@[j] == (values@[j]@ == expected@[j]@)
                },
        decreases 3 - i,
    {
        match parse_pcr(output, i) {
            None => {
                return Err(i);
            },
            Some(reported) => {
                let same = crate::kem::bytes_equal(reported.as_slice(), expected[i].as_slice());
                let ghost before_m = matches@;
                let ghost before_v = values@;
                matches[i] = same;
                values[i] = reported;
                assert forall|j: int| 0 <= j < i + 1 implies {
                    &&& pcr_value(output@, j as nat) == Some(values@[j]@)
                    &&& #[trigger] matches@[j] == (values@[j]@ == expected@[j]@)
                } by {
                    if j < i {
                        assert(before_m[j] == matches@[j]);
                        assert(before_v[j] == values@[j]);
                    }
                }
            },
        }
        i = i + 1;
    }
    Ok(ReportedPcrs { values, matches })
}

/// The host's outcome: every reported register matched.
pub fn all_match(matches: &[bool; 3]) -> (ok: bool)
    ensures
        ok == (forall|i: int| 0 <= i < 3 ==> matches@[i]),
{
    matches[0] && matches[1] && matches[2]
}

/// The chain the host and the firmware both compute measures every byte it
/// is given: `PCR[0]` is the digest of 32 zero bytes followed by the whole
/// `.text` section, `PCR[1]` the digest of `PCR[0]` followed by the whole
/// `.rodata` section, and `PCR[2]` the digest of 32 zero bytes followed by
/// the whole shared secret.
pub proof fn lemma_chain_pcrs(text: Seq<u8>, rodata: Seq<u8>, secret: Seq<u8>)
    ensures
        chain_pcrs(text, rodata, secret).len() == 3,
        chain_pcrs(text, rodata, secret)[0] == sha256(Seq::new(32, |i: int| 0u8) + text),
        chain_pcrs(text, rodata, secret)[1] == sha256(chain_pcrs(text, rodata, secret)[0] + rodata),
        chain_pcrs(text, rodata, secret)[2] == sha256(Seq::new(32, |i: int| 0u8) + secret),
{
    assert(zero_pcr() =~= Seq::new(32, |i: int| 0u8));
}

} // verus!
