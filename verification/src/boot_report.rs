//! The report the firmware prints while it boots, line by line.
use vstd::prelude::*;

use crate::chain::{chain_pcrs, measure_boot, BootMeasurement, TOTAL_STAGES};
use crate::digest::sha256;
use crate::kem::{ml_kem_768_shared_secret, CIPHERTEXT_LEN, SEED_LEN};
use crate::hex::{hex_chars, hex_padded8, push_hex_chars, push_hex_padded8};
use crate::report::{pcr_line, pcr_line_text, pcr_prefix, prefix_chars};
use crate::text::{chars_of, decimal, decimal_chars, string_from_chars};

verus! {

broadcast use vstd::string::group_string_axioms;

/// Where the measured sections sit in the image, and the sizes of the
/// embedded keys, as the report shows them.
#[derive(Clone, Copy)]
pub struct ImageInfo {
    pub text_address: usize,
    pub text_len: usize,
    pub rodata_address: usize,
    pub rodata_len: usize,
    pub dk_len: usize,
    pub ek_len: usize,
    pub ct_len: usize,
}

/// The layout of an image whose `.text` and `.rodata` sections start at the
/// given addresses and hold the given bytes, with the given key seed,
/// encapsulation key and ciphertext.
pub open spec fn image_layout(
    text_address: usize,
    text: Seq<u8>,
    rodata_address: usize,
    rodata: Seq<u8>,
    dk: Seq<u8>,
    ek: Seq<u8>,
    ct: Seq<u8>,
) -> ImageInfo {
    ImageInfo {
        text_address,
        text_len: text.len() as usize,
        rodata_address,
        rodata_len: rodata.len() as usize,
        dk_len: dk.len() as usize,
        ek_len: ek.len() as usize,
        ct_len: ct.len() as usize,
    }
}

impl ImageInfo {
    /// The layout of the image that holds these sections and keys: each
    /// section's address, and the length of each section and key.
    pub fn new(
        text_address: usize,
        text: &[u8],
        rodata_address: usize,
        rodata: &[u8],
        dk: &[u8],
        ek: &[u8],
        ct: &[u8],
    ) -> (image: ImageInfo)
        ensures
            image == image_layout(text_address, text@, rodata_address, rodata@, dk@, ek@, ct@),
            image.text_len == text@.len(),
            image.rodata_len == rodata@.len(),
            image.dk_len == dk@.len(),
            image.ek_len == ek@.len(),
            image.ct_len == ct@.len(),
    {
        ImageInfo {
            text_address,
            text_len: text.len(),
            rodata_address,
            rodata_len: rodata.len(),
            dk_len: dk.len(),
            ek_len: ek.len(),
            ct_len: ct.len(),
        }
    }
}

/// The text of each line.
pub open spec fn lines_view(lines: Seq<String>) -> Seq<Seq<char>> {
    lines.map_values(|l: String| l@)
}

/// `          addr   = 0x{:08x}`.
pub open spec fn addr_line(address: nat) -> Seq<char> {
    "          addr   = 0x"@ + hex_padded8(address)
}

/// `          size   = {} bytes`.
pub open spec fn size_line(len: nat) -> Seq<char> {
    "          size   = "@ + decimal(len) + " bytes"@
}

/// `          <label>{}<unit>` for one of the key sizes.
pub open spec fn key_line(label: Seq<char>, len: nat, unit: Seq<char>) -> Seq<char> {
    label + decimal(len) + unit
}

/// The attestation table's row for one register.
pub open spec fn table_line(index: nat, pcr: Seq<u8>) -> Seq<char> {
    "          |   "@ + pcr_prefix(index) + hex_chars(pcr) + "  |"@
}

/// `<passed>/<total>` stages.
pub open spec fn stage_count(passed: nat) -> Seq<char> {
    decimal(passed) + "/"@ + decimal(TOTAL_STAGES as nat)
}

/// The report up to and including the key sizes of stage 3.
pub open spec fn report_head(m: BootMeasurement, image: ImageInfo) -> Seq<Seq<char>> {
    seq![
        ""@,
        "========================================"@,
        "  Fortis -- Bare-Metal Chain of Trust"@,
        "  RISC-V 64 -- QEMU virt -- no_std"@,
        "========================================"@,
        ""@,
        "[stage 0] UART: ns16550a @ 0x10000000"@,
        "          crypto: SHA-256 (FIPS 180-4) + ML-KEM-768 (FIPS 203)"@,
        ""@,
        "[stage 1] Measuring .text section (SHA-256)..."@,
        addr_line(image.text_address as nat),
        size_line(image.text_len as nat),
        pcr_line_text(0, m.pcr0@),
        "          [OK] stage 0 verified"@,
        ""@,
        "[stage 2] Measuring .rodata section (SHA-256)..."@,
        addr_line(image.rodata_address as nat),
        size_line(image.rodata_len as nat),
        pcr_line_text(1, m.pcr1@),
        "          [OK] stage 1 verified"@,
        ""@,
        "[stage 3] Post-quantum verification (ML-KEM-768)"@,
        "          algo  = ML-KEM-768 (FIPS 203)"@,
        key_line("          dk    = "@, image.dk_len as nat, " bytes (seed-based)"@),
        key_line("          ek    = "@, image.ek_len as nat, " bytes (encapsulation key)"@),
        key_line("          ct    = "@, image.ct_len as nat, " bytes (ciphertext)"@),
    ]
}

/// The outcome of the ML-KEM check: the secret when it matched.
pub open spec fn report_kem(m: BootMeasurement) -> Seq<Seq<char>> {
    if m.kem_ok {
        seq![
            "          [OK] ML-KEM-768 shared secret decapsulated correctly"@,
            "          SS = 0x"@ + hex_chars(m.shared_secret@),
        ]
    } else {
        seq!["          [FAIL] ML-KEM-768 shared secret MISMATCH"@]
    }
}

/// `PCR[2]`, the attestation report and the chain-of-trust outcome.
pub open spec fn report_tail(m: BootMeasurement) -> Seq<Seq<char>> {
    seq![
        pcr_line_text(2, m.pcr2@),
        ""@,
        "[stage 4] Attestation report"@,
        "          +----------------------------------------------+"@,
        "          | PCR Bank (measurement registers):            |"@,
        table_line(0, m.pcr0@),
        table_line(1, m.pcr1@),
        table_line(2, m.pcr2@),
        "          | Stages verified: "@ + stage_count(m.stages_passed as nat)
            + "                        |"@,
        "          | Crypto: SHA-256 + ML-KEM-768                 |"@,
        "          | Platform: RISC-V 64 · QEMU virt · no_std    |"@,
        "          +----------------------------------------------+"@,
        ""@,
        "================================================"@,
        (if m.stages_passed == TOTAL_STAGES {
            "  CHAIN OF TRUST: PASSED ("@
        } else {
            "  CHAIN OF TRUST: FAILED ("@
        }) + stage_count(m.stages_passed as nat) + " stages)"@,
        "================================================"@,
        ""@,
        "Stack: no_std, no heap, bare-metal RISC-V 64"@,
        "Crypto: SHA-256 (FIPS 180-4) + ML-KEM-768 (FIPS 203)"@,
        "Note:   .text and .rodata are real binary sections,"@,
        "        measured via linker symbols (not hardcoded strings)."@,
        "        Verified externally by scripts/verify."@,
        ""@,
        "[done] halted."@,
    ]
}

/// The whole report, one entry per printed line.
pub open spec fn firmware_report_text(m: BootMeasurement, image: ImageInfo) -> Seq<Seq<char>> {
    report_head(m, image) + report_kem(m) + report_tail(m)
}

fn push_line(lines: &mut Vec<String>, line: String)
    ensures
        lines_view(final(lines)@) == lines_view(old(lines)@).push(line@),
{
    let ghost text = line@;
    lines.push(line);
    assert(lines_view(lines@) =~= lines_view(old(lines)@).push(text));
}

fn push_text(lines: &mut Vec<String>, text: &Vec<char>)
    ensures
        lines_view(final(lines)@) == lines_view(old(lines)@).push(text@),
{
    let line = string_from_chars(text);
    push_line(lines, line);
}

fn push_str(lines: &mut Vec<String>, text: &str)
    ensures
        lines_view(final(lines)@) == lines_view(old(lines)@).push(text@),
{
    let chars = chars_of(text);
    push_text(lines, &chars);
}

fn push_pieces(lines: &mut Vec<String>, first: &str, middle: &Vec<char>, last: &str)
    ensures
        lines_view(final(lines)@) == lines_view(old(lines)@).push(first@ + middle@ + last@),
{
    let mut chars = chars_of(first);
    let mut m = middle.clone();
    let mut l = chars_of(last);
    assert(m@ == middle@);
    chars.append(&mut m);
    chars.append(&mut l);
    push_text(lines, &chars);
}

fn head_lines(m: &BootMeasurement, image: &ImageInfo) -> (lines: Vec<String>)
    ensures
        lines_view(lines@) == report_head(*m, *image),
{
    let mut lines: Vec<String> = Vec::new();
    push_str(&mut lines, "");
    push_str(&mut lines, "========================================");
    push_str(&mut lines, "  Fortis -- Bare-Metal Chain of Trust");
    push_str(&mut lines, "  RISC-V 64 -- QEMU virt -- no_std");
    push_str(&mut lines, "========================================");
    push_str(&mut lines, "");
    push_str(&mut lines, "[stage 0] UART: ns16550a @ 0x10000000");
    push_str(&mut lines, "          crypto: SHA-256 (FIPS 180-4) + ML-KEM-768 (FIPS 203)");
    push_str(&mut lines, "");
    push_str(&mut lines, "[stage 1] Measuring .text section (SHA-256)...");
    let mut addr = chars_of("          addr   = 0x");
    push_hex_padded8(&mut addr, image.text_address);
    push_text(&mut lines, &addr);
    push_pieces(&mut lines, "          size   = ", &decimal_chars(image.text_len), " bytes");
    let l0 = pcr_line(0, &m.pcr0);
    push_line(&mut lines, l0);
    push_str(&mut lines, "          [OK] stage 0 verified");
    push_str(&mut lines, "");
    push_str(&mut lines, "[stage 2] Measuring .rodata section (SHA-256)...");
    let mut addr = chars_of("          addr   = 0x");
    push_hex_padded8(&mut addr, image.rodata_address);
    push_text(&mut lines, &addr);
    push_pieces(&mut lines, "          size   = ", &decimal_chars(image.rodata_len), " bytes");
    let l1 = pcr_line(1, &m.pcr1);
    push_line(&mut lines, l1);
    push_str(&mut lines, "          [OK] stage 1 verified");
    push_str(&mut lines, "");
    push_str(&mut lines, "[stage 3] Post-quantum verification (ML-KEM-768)");
    push_str(&mut lines, "          algo  = ML-KEM-768 (FIPS 203)");
    push_pieces(&mut lines, "          dk    = ", &decimal_chars(image.dk_len), " bytes (seed-based)");
    push_pieces(
        &mut lines,
        "          ek    = ",
        &decimal_chars(image.ek_len),
        " bytes (encapsulation key)",
    );
    push_pieces(&mut lines, "          ct    = ", &decimal_chars(image.ct_len), " bytes (ciphertext)");
    assert(lines_view(lines@) =~= report_head(*m, *image));
    lines
}

fn kem_lines(m: &BootMeasurement) -> (lines: Vec<String>)
    ensures
        lines_view(lines@) == report_kem(*m),
{
    let mut lines: Vec<String> = Vec::new();
    if m.kem_ok {
        push_str(&mut lines, "          [OK] ML-KEM-768 shared secret decapsulated correctly");
        let mut ss = chars_of("          SS = 0x");
        push_hex_chars(&mut ss, m.shared_secret.as_slice());
        push_text(&mut lines, &ss);
    } else {
        push_str(&mut lines, "          [FAIL] ML-KEM-768 shared secret MISMATCH");
    }
    assert(lines_view(lines@) =~= report_kem(*m));
    lines
}

fn push_table_line(lines: &mut Vec<String>, index: usize, pcr: &[u8; 32])
    ensures
        lines_view(final(lines)@) == lines_view(old(lines)@).push(table_line(index as nat, pcr@)),
{
    let mut chars = chars_of("          |   ");
    let mut prefix = prefix_chars(index);
    chars.append(&mut prefix);
    push_hex_chars(&mut chars, pcr.as_slice());
    let mut end = chars_of("  |");
    chars.append(&mut end);
    push_text(lines, &chars);
}

fn stage_count_chars(stages: usize) -> (v: Vec<char>)
    ensures
        v@ == stage_count(stages as nat),
{
    let mut v = decimal_chars(stages);
    let mut slash = chars_of("/");
    let mut total = decimal_chars(TOTAL_STAGES);
    v.append(&mut slash);
    v.append(&mut total);
    v
}

fn tail_lines(m: &BootMeasurement) -> (lines: Vec<String>)
    ensures
        lines_view(lines@) == report_tail(*m),
{
    let mut lines: Vec<String> = Vec::new();
    let l2 = pcr_line(2, &m.pcr2);
    push_line(&mut lines, l2);
    push_str(&mut lines, "");
    push_str(&mut lines, "[stage 4] Attestation report");
    push_str(&mut lines, "          +----------------------------------------------+");
    push_str(&mut lines, "          | PCR Bank (measurement registers):            |");
    push_table_line(&mut lines, 0, &m.pcr0);
    push_table_line(&mut lines, 1, &m.pcr1);
    push_table_line(&mut lines, 2, &m.pcr2);
    push_pieces(
        &mut lines,
        "          | Stages verified: ",
        &stage_count_chars(m.stages_passed),
        "                        |",
    );
    push_str(&mut lines, "          | Crypto: SHA-256 + ML-KEM-768                 |");
    push_str(&mut lines, "          | Platform: RISC-V 64 · QEMU virt · no_std    |");
    push_str(&mut lines, "          +----------------------------------------------+");
    push_str(&mut lines, "");
    push_str(&mut lines, "================================================");
    if m.stages_passed == TOTAL_STAGES {
        push_pieces(
            &mut lines,
            "  CHAIN OF TRUST: PASSED (",
            &stage_count_chars(m.stages_passed),
            " stages)",
        );
    } else {
        push_pieces(
            &mut lines,
            "  CHAIN OF TRUST: FAILED (",
            &stage_count_chars(m.stages_passed),
            " stages)",
        );
    }
    push_str(&mut lines, "================================================");
    push_str(&mut lines, "");
    push_str(&mut lines, "Stack: no_std, no heap, bare-metal RISC-V 64");
    push_str(&mut lines, "Crypto: SHA-256 (FIPS 180-4) + ML-KEM-768 (FIPS 203)");
    push_str(&mut lines, "Note:   .text and .rodata are real binary sections,");
    push_str(&mut lines, "        measured via linker symbols (not hardcoded strings).");
    push_str(&mut lines, "        Verified externally by scripts/verify.");
    push_str(&mut lines, "");
    push_str(&mut lines, "[done] halted.");
    assert(lines_view(lines@) =~= report_tail(*m));
    lines
}

/// The lines the firmware prints for a boot measured as `m`, in order: the
/// banner, each stage with its `PCR[i]` line, the attestation table and the
/// chain-of-trust outcome.
pub fn firmware_report(m: &BootMeasurement, image: &ImageInfo) -> (lines: Vec<String>)
    ensures
        lines_view(lines@) == firmware_report_text(*m, *image),
{
    let mut lines = head_lines(m, image);
    let ghost head = lines_view(lines@);
    let mut kem = kem_lines(m);
    let ghost kv = lines_view(kem@);
    let mut tail = tail_lines(m);
    let ghost tv = lines_view(tail@);
    lines.append(&mut kem);
    assert(lines_view(lines@) =~= head + kv);
    lines.append(&mut tail);
    assert(lines_view(lines@) =~= head + kv + tv);
    lines
}

/// The firmware's whole boot: measures `.text` and `.rodata` and checks
/// the embedded key material (as `measure_boot` does), and gives the
/// measurement with the lines the firmware prints for it, whose addresses and
/// sizes are those of the sections and keys handed in.
pub fn measured_boot_report(
    text_address: usize,
    text: &[u8],
    rodata_address: usize,
    rodata: &[u8],
    seed: &[u8],
    encapsulation_key: &[u8],
    ciphertext: &[u8],
    expected_secret: &[u8],
) -> (r: (BootMeasurement, Vec<String>))
    requires
        seed@.len() == SEED_LEN,
        ciphertext@.len() == CIPHERTEXT_LEN,
    ensures
        r.0.shared_secret@ == ml_kem_768_shared_secret(seed@, ciphertext@),
        r.0.pcrs() == chain_pcrs(text@, rodata@, r.0.shared_secret@),
        r.0.pcr0@ == sha256(Seq::new(32, |i: int| 0u8) + text@),
        r.0.pcr1@ == sha256(r.0.pcr0@ + rodata@),
        r.0.pcr2@ == sha256(Seq::new(32, |i: int| 0u8) + r.0.shared_secret@),
        r.0.kem_ok == (r.0.shared_secret@ == expected_secret@),
        r.0.stages_passed == if r.0.kem_ok {
            3usize
        } else {
            2usize
        },
        lines_view(r.1@) == firmware_report_text(
            r.0,
            image_layout(
                text_address,
                text@,
                rodata_address,
                rodata@,
                seed@,
                encapsulation_key@,
                ciphertext@,
            ),
        ),
{
    let m = measure_boot(text, rodata, seed, ciphertext, expected_secret);
    let image = ImageInfo::new(
        text_address,
        text,
        rodata_address,
        rodata,
        seed,
        encapsulation_key,
        ciphertext,
    );
    let lines = firmware_report(&m, &image);
    (m, lines)
}

} // verus!
