//! What the firmware's printed report tells the host: the registers the
//! firmware measured, and the chain-of-trust outcome.
use vstd::prelude::*;

use crate::boot_report::{firmware_report_text, image_layout, report_head, report_kem, report_tail, ImageInfo};
use crate::chain::{chain_pcrs, BootMeasurement, TOTAL_STAGES};
use crate::uart::crlf;
use crate::uart_laws::{join_lines_lf, lemma_uart_lines, no_line_feed};
use vstd::utf8::{decode_utf8, encode_utf8, encode_utf8_decode_utf8};
use crate::hex::{hex_chars, hex_digit, hex_digits, hex_padded8};
use crate::laws::{
    join_lines, lemma_decimal_digits, lemma_find_from_none, lemma_join_lines_free,
    lemma_output_pcr_roundtrip, lemma_pcr_line_other_index,
};
use crate::report::{pcr_line_text, pcr_prefix, pcr_value};
use crate::text::{decimal, find_from, lemma_find_from, occurs_at};

verus! {

broadcast use vstd::string::group_string_axioms;

/// No `P` in `s` is directly followed by `C` (so `s` cannot hold `PCR[`).
pub open spec fn pc_free(s: Seq<char>) -> bool {
    forall|m: int| 0 <= m && m + 1 < s.len() ==> !(#[trigger] s[m] == 'P' && s[m + 1] == 'C')
}

spec fn pc_free_from(s: Seq<char>, i: int) -> bool
    decreases s.len() - i,
{
    if i < 0 || i + 1 >= s.len() {
        true
    } else {
        !(s[i] == 'P' && s[i + 1] == 'C') && pc_free_from(s, i + 1)
    }
}

proof fn lemma_pc_free_from(s: Seq<char>, i: int)
    requires
        0 <= i,
        pc_free_from(s, i),
    ensures
        forall|m: int| i <= m && m + 1 < s.len() ==> !(#[trigger] s[m] == 'P' && s[m + 1] == 'C'),
    decreases s.len() - i,
{
    if i + 1 < s.len() {
        lemma_pc_free_from(s, i + 1);
    }
}

proof fn lemma_pc_free_concat(a: Seq<char>, b: Seq<char>)
    requires
        pc_free(a),
        pc_free(b),
        a.len() == 0 || a.last() != 'P',
    ensures
        pc_free(a + b),
{
    let s = a + b;
    assert forall|m: int| 0 <= m && m + 1 < s.len() implies !(#[trigger] s[m] == 'P' && s[m + 1]
        == 'C') by {
        if m + 1 < a.len() {
            assert(s[m] == a[m] && s[m + 1] == a[m + 1]);
        } else if m >= a.len() {
            assert(s[m] == b[m - a.len()] && s[m + 1] == b[m + 1 - a.len()]);
        } else {
            assert(s[m] == a.last());
        }
    }
}

proof fn lemma_no_p(s: Seq<char>)
    requires
        forall|m: int| 0 <= m < s.len() ==> #[trigger] s[m] != 'P',
    ensures
        pc_free(s),
        s.len() == 0 || s.last() != 'P',
{
}

/// Numbers as the report prints them hold no `P`.
proof fn lemma_numbers_free(n: nat, bytes: Seq<u8>)
    ensures
        pc_free(decimal(n)),
        decimal(n).last() != 'P',
        pc_free(hex_padded8(n)),
        hex_padded8(n).len() == 0 || hex_padded8(n).last() != 'P',
        pc_free(hex_chars(bytes)),
        hex_chars(bytes).len() == 0 || hex_chars(bytes).last() != 'P',
{
    lemma_decimal_digits(n);
    lemma_numbers_lack(n, bytes, 'P');
    lemma_no_p(decimal(n));
    lemma_no_p(hex_padded8(n));
    lemma_no_p(hex_chars(bytes));
}

/// A line without `PC` holds no register's prefix.
proof fn lemma_pc_free_no_prefix(s: Seq<char>, index: nat)
    requires
        pc_free(s),
    ensures
        find_from(s, pcr_prefix(index), 0) is None,
{
    reveal_strlit("PCR[");
    let q = pcr_prefix(index);
    assert(q[0] == 'P' && q[1] == 'C');
    assert forall|m: int| 0 <= m implies !occurs_at(s, q, m) by {
        if occurs_at(s, q, m) {
            assert(s.subrange(m, m + q.len())[0] == s[m]);
            assert(s.subrange(m, m + q.len())[1] == s[m + 1]);
        }
    }
    lemma_find_from_none(s, q, 0);
}

/// A line without `PCR[` holds no register's prefix.
proof fn lemma_no_pcr_no_prefix(s: Seq<char>, index: nat)
    requires
        find_from(s, "PCR["@, 0) is None,
    ensures
        find_from(s, pcr_prefix(index), 0) is None,
{
    reveal_strlit("PCR[");
    let q = pcr_prefix(index);
    lemma_find_from(s, "PCR["@, 0);
    assert forall|m: int| 0 <= m implies !occurs_at(s, q, m) by {
        if occurs_at(s, q, m) {
            assert forall|t: int| 0 <= t < 4 implies s.subrange(m, m + 4)[t] == "PCR["@[t] by {
                assert(s.subrange(m, m + q.len())[t] == s[m + t]);
                assert(q[t] == "PCR["@[t]);
            }
            assert(s.subrange(m, m + 4) =~= "PCR["@);
            assert(occurs_at(s, "PCR["@, m));
        }
    }
    lemma_find_from_none(s, q, 0);
}

proof fn lemma_literal(s: Seq<char>)
    requires
        pc_free_from(s, 0),
    ensures
        pc_free(s),
{
    lemma_pc_free_from(s, 0);
}

/// Every line of the report before the `PCR[2]` line, other than the
/// `PCR[0]` and `PCR[1]` lines, holds no `PC`.
proof fn lemma_report_lines_free(m: BootMeasurement, image: ImageInfo)
    ensures
        forall|j: int|
            0 <= j < 26 && j != 12 && j != 18 ==> pc_free(#[trigger] report_head(m, image)[j]),
        forall|j: int| 0 <= j < report_kem(m).len() ==> pc_free(#[trigger] report_kem(m)[j]),
        report_head(m, image).len() == 26,
        report_head(m, image)[12] == pcr_line_text(0, m.pcr0@),
        report_head(m, image)[18] == pcr_line_text(1, m.pcr1@),
        report_tail(m)[0] == pcr_line_text(2, m.pcr2@),
{
    reveal_with_fuel(pc_free_from, 70);
    let h = report_head(m, image);
    reveal_strlit("");
    reveal_strlit("========================================");
    reveal_strlit("  Fortis -- Bare-Metal Chain of Trust");
    reveal_strlit("  RISC-V 64 -- QEMU virt -- no_std");
    reveal_strlit("[stage 0] UART: ns16550a @ 0x10000000");
    reveal_strlit("          crypto: SHA-256 (FIPS 180-4) + ML-KEM-768 (FIPS 203)");
    reveal_strlit("[stage 1] Measuring .text section (SHA-256)...");
    reveal_strlit("          addr   = 0x");
    reveal_strlit("          size   = ");
    reveal_strlit(" bytes");
    reveal_strlit("          [OK] stage 0 verified");
    reveal_strlit("[stage 2] Measuring .rodata section (SHA-256)...");
    reveal_strlit("          [OK] stage 1 verified");
    reveal_strlit("[stage 3] Post-quantum verification (ML-KEM-768)");
    reveal_strlit("          algo  = ML-KEM-768 (FIPS 203)");
    reveal_strlit("          dk    = ");
    reveal_strlit(" bytes (seed-based)");
    reveal_strlit("          ek    = ");
    reveal_strlit(" bytes (encapsulation key)");
    reveal_strlit("          ct    = ");
    reveal_strlit(" bytes (ciphertext)");
    reveal_strlit("          [OK] ML-KEM-768 shared secret decapsulated correctly");
    reveal_strlit("          SS = 0x");
    reveal_strlit("          [FAIL] ML-KEM-768 shared secret MISMATCH");
    lemma_literal(""@);
    lemma_literal("========================================"@);
    lemma_literal("  Fortis -- Bare-Metal Chain of Trust"@);
    lemma_literal("  RISC-V 64 -- QEMU virt -- no_std"@);
    lemma_literal("[stage 0] UART: ns16550a @ 0x10000000"@);
    lemma_literal("          crypto: SHA-256 (FIPS 180-4) + ML-KEM-768 (FIPS 203)"@);
    lemma_literal("[stage 1] Measuring .text section (SHA-256)..."@);
    lemma_literal("          addr   = 0x"@);
    lemma_literal("          size   = "@);
    lemma_literal(" bytes"@);
    lemma_literal("          [OK] stage 0 verified"@);
    lemma_literal("[stage 2] Measuring .rodata section (SHA-256)..."@);
    lemma_literal("          [OK] stage 1 verified"@);
    lemma_literal("[stage 3] Post-quantum verification (ML-KEM-768)"@);
    lemma_literal("          algo  = ML-KEM-768 (FIPS 203)"@);
    lemma_literal("          dk    = "@);
    lemma_literal(" bytes (seed-based)"@);
    lemma_literal("          ek    = "@);
    lemma_literal(" bytes (encapsulation key)"@);
    lemma_literal("          ct    = "@);
    lemma_literal(" bytes (ciphertext)"@);
    lemma_literal("          [OK] ML-KEM-768 shared secret decapsulated correctly"@);
    lemma_literal("          SS = 0x"@);
    lemma_literal("          [FAIL] ML-KEM-768 shared secret MISMATCH"@);
    // The lines with numbers in them.
    lemma_numbers_free(image.text_address as nat, m.shared_secret@);
    lemma_pc_free_concat("          addr   = 0x"@, hex_padded8(image.text_address as nat));
    lemma_numbers_free(image.rodata_address as nat, m.shared_secret@);
    lemma_pc_free_concat("          addr   = 0x"@, hex_padded8(image.rodata_address as nat));
    lemma_numbers_free(image.text_len as nat, m.shared_secret@);
    lemma_pc_free_concat("          size   = "@, decimal(image.text_len as nat));
    lemma_pc_free_concat("          size   = "@ + decimal(image.text_len as nat), " bytes"@);
    lemma_numbers_free(image.rodata_len as nat, m.shared_secret@);
    lemma_pc_free_concat("          size   = "@, decimal(image.rodata_len as nat));
    lemma_pc_free_concat("          size   = "@ + decimal(image.rodata_len as nat), " bytes"@);
    lemma_numbers_free(image.dk_len as nat, m.shared_secret@);
    lemma_pc_free_concat("          dk    = "@, decimal(image.dk_len as nat));
    lemma_pc_free_concat(
        "          dk    = "@ + decimal(image.dk_len as nat),
        " bytes (seed-based)"@,
    );
    lemma_numbers_free(image.ek_len as nat, m.shared_secret@);
    lemma_pc_free_concat("          ek    = "@, decimal(image.ek_len as nat));
    lemma_pc_free_concat(
        "          ek    = "@ + decimal(image.ek_len as nat),
        " bytes (encapsulation key)"@,
    );
    lemma_numbers_free(image.ct_len as nat, m.shared_secret@);
    lemma_pc_free_concat("          ct    = "@, decimal(image.ct_len as nat));
    lemma_pc_free_concat(
        "          ct    = "@ + decimal(image.ct_len as nat),
        " bytes (ciphertext)"@,
    );
    lemma_pc_free_concat("          SS = 0x"@, hex_chars(m.shared_secret@));
}

/// The host reads back what the firmware printed: when the firmware's
/// report follows any lines that do not mention `PCR[` (the boot loader's
/// own output, say), the value the host reads for each of `PCR[0]`,
/// `PCR[1]`, `PCR[2]` is the register the firmware measured.
pub proof fn lemma_firmware_report_roundtrip(
    before: Seq<Seq<char>>,
    m: BootMeasurement,
    image: ImageInfo,
    index: nat,
)
    requires
        index < 3,
        forall|j: int| 0 <= j < before.len() ==> find_from(#[trigger] before[j], "PCR["@, 0) is None,
    ensures
        pcr_value(join_lines(before + firmware_report_text(m, image)), index) == Some(
            m.pcrs()[index as int],
        ),
{
    let report = firmware_report_text(m, image);
    let lines = before + report;
    let b = before.len() as int;
    let head = report_head(m, image);
    let kem = report_kem(m);
    let tail = report_tail(m);
    lemma_report_lines_free(m, image);
    assert(report == head + kem + tail);
    let k = if index == 0 {
        b + 12
    } else if index == 1 {
        b + 18
    } else {
        b + 26 + kem.len()
    };
    let pcr = m.pcrs()[index as int];
    assert(lines[k] == pcr_line_text(index, pcr)) by {
        if index == 0 {
            assert(lines[k] == head[12]);
        } else if index == 1 {
            assert(lines[k] == head[18]);
        } else {
            assert(lines[k] == tail[0]);
        }
    }
    assert forall|j: int| 0 <= j < k implies find_from(#[trigger] lines[j], pcr_prefix(index), 0)
        is None by {
        if j < b {
            assert(lines[j] == before[j]);
            lemma_no_pcr_no_prefix(before[j], index);
        } else if j < b + 26 {
            let r = j - b;
            assert(lines[j] == head[r]);
            if r == 12 {
                lemma_pcr_line_other_index(0, m.pcr0@, index);
            } else if r == 18 {
                lemma_pcr_line_other_index(1, m.pcr1@, index);
            } else {
                lemma_pc_free_no_prefix(head[r], index);
            }
        } else {
            let r = j - b - 26;
            assert(lines[j] == kem[r]);
            lemma_pc_free_no_prefix(kem[r], index);
        }
    }
    lemma_output_pcr_roundtrip(lines, k, index, pcr);
}

/// The host accepts a boot the firmware measured: when the firmware
/// measured `text` and `rodata` (as `measure_boot` promises) and the host
/// derived the same shared secret, every register the host reads from the
/// firmware's output equals the one it expects (`expected_pcrs` of the same
/// sections and secret), so `compare_reported_pcrs` finds all three equal.
pub proof fn lemma_host_accepts_measured_boot(
    before: Seq<Seq<char>>,
    m: BootMeasurement,
    image: ImageInfo,
    text: Seq<u8>,
    rodata: Seq<u8>,
    host_secret: Seq<u8>,
)
    requires
        m.pcrs() == chain_pcrs(text, rodata, m.shared_secret@),
        host_secret == m.shared_secret@,
        forall|j: int| 0 <= j < before.len() ==> find_from(#[trigger] before[j], "PCR["@, 0) is None,
    ensures
        forall|i: nat|
            i < 3 ==> #[trigger] pcr_value(join_lines(before + firmware_report_text(m, image)), i)
                == Some(chain_pcrs(text, rodata, host_secret)[i as int]),
{
    assert forall|i: nat| i < 3 implies #[trigger] pcr_value(
        join_lines(before + firmware_report_text(m, image)),
        i,
    ) == Some(chain_pcrs(text, rodata, host_secret)[i as int]) by {
        lemma_firmware_report_roundtrip(before, m, image, i);
    }
}

/// End to end, on the wire: when the firmware prints each line of its
/// report with `\n` through the UART (after any earlier lines that hold
/// neither `PCR[` nor a line feed), the bytes sent decode as UTF-8 to the
/// lines ended by `\r\n`, and from that text the host reads for each of
/// `PCR[0..3]` the register it expects for the same sections and secret.
pub proof fn lemma_host_reads_firmware_uart(
    before: Seq<Seq<char>>,
    m: BootMeasurement,
    image: ImageInfo,
    text: Seq<u8>,
    rodata: Seq<u8>,
    host_secret: Seq<u8>,
)
    requires
        m.pcrs() == chain_pcrs(text, rodata, m.shared_secret@),
        host_secret == m.shared_secret@,
        forall|j: int| 0 <= j < before.len() ==> find_from(#[trigger] before[j], "PCR["@, 0) is None,
        forall|j: int| 0 <= j < before.len() ==> no_line_feed(#[trigger] before[j]),
    ensures
        ({
            let lines = before + firmware_report_text(m, image);
            let received = decode_utf8(crlf(encode_utf8(join_lines_lf(lines))));
            &&& received == join_lines(lines)
            &&& forall|i: nat|
                i < 3 ==> #[trigger] pcr_value(received, i) == Some(
                    chain_pcrs(text, rodata, host_secret)[i as int],
                )
        }),
{
    let report = firmware_report_text(m, image);
    let lines = before + report;
    lemma_report_no_line_feed(m, image);
    assert forall|j: int| 0 <= j < lines.len() implies no_line_feed(#[trigger] lines[j]) by {
        if j < before.len() {
            assert(lines[j] == before[j]);
        } else {
            assert(lines[j] == report[j - before.len()]);
        }
    }
    lemma_uart_lines(lines);
    encode_utf8_decode_utf8(join_lines(lines));
    lemma_host_accepts_measured_boot(before, m, image, text, rodata, host_secret);
}

/// The layout `measured_boot_report` prints is that of the sections and
/// keys it was handed: each section's own address, and each section's and
/// key's own length.
pub proof fn lemma_image_layout(
    text_address: usize,
    text: Seq<u8>,
    rodata_address: usize,
    rodata: Seq<u8>,
    dk: Seq<u8>,
    ek: Seq<u8>,
    ct: Seq<u8>,
)
    requires
        text.len() <= usize::MAX,
        rodata.len() <= usize::MAX,
        dk.len() <= usize::MAX,
        ek.len() <= usize::MAX,
        ct.len() <= usize::MAX,
    ensures
        ({
            let image = image_layout(text_address, text, rodata_address, rodata, dk, ek, ct);
            &&& image.text_address == text_address
            &&& image.text_len == text.len()
            &&& image.rodata_address == rodata_address
            &&& image.rodata_len == rodata.len()
            &&& image.dk_len == dk.len()
            &&& image.ek_len == ek.len()
            &&& image.ct_len == ct.len()
        }),
{
}

/// The report prints each register where it belongs, and only that
/// register: stage 1's line shows `PCR[0]`, stage 2's `PCR[1]`, stage 3's
/// `PCR[2]`, the attestation table's three rows show `PCR[0]`, `PCR[1]`,
/// `PCR[2]` in turn, and a matching secret is shown as decapsulated.
pub proof fn lemma_report_registers(m: BootMeasurement, image: ImageInfo)
    ensures
        ({
            let r = firmware_report_text(m, image);
            let n = r.len() as int;
            &&& n >= 50
            &&& r[12] == "          PCR[0] = 0x"@ + hex_chars(m.pcr0@)
            &&& r[18] == "          PCR[1] = 0x"@ + hex_chars(m.pcr1@)
            &&& r[n - 24] == "          PCR[2] = 0x"@ + hex_chars(m.pcr2@)
            &&& r[n - 19] == "          |   PCR[0] = 0x"@ + hex_chars(m.pcr0@) + "  |"@
            &&& r[n - 18] == "          |   PCR[1] = 0x"@ + hex_chars(m.pcr1@) + "  |"@
            &&& r[n - 17] == "          |   PCR[2] = 0x"@ + hex_chars(m.pcr2@) + "  |"@
            &&& m.kem_ok ==> r[27] == "          SS = 0x"@ + hex_chars(m.shared_secret@)
        }),
{
    reveal_strlit("          ");
    reveal_strlit("          |   ");
    reveal_strlit("  |");
    reveal_strlit("PCR[");
    reveal_strlit("] = 0x");
    reveal_strlit("          PCR[0] = 0x");
    reveal_strlit("          PCR[1] = 0x");
    reveal_strlit("          PCR[2] = 0x");
    reveal_strlit("          |   PCR[0] = 0x");
    reveal_strlit("          |   PCR[1] = 0x");
    reveal_strlit("          |   PCR[2] = 0x");
    assert(decimal(0) =~= seq!['0']);
    assert(decimal(1) =~= seq!['1']);
    assert(decimal(2) =~= seq!['2']);
    let r = firmware_report_text(m, image);
    let n = r.len() as int;
    let head = report_head(m, image);
    let kem = report_kem(m);
    let tail = report_tail(m);
    assert(head.len() == 26);
    assert(tail.len() == 24);
    assert(r == head + kem + tail);
    assert(r[12] == head[12]);
    assert(r[18] == head[18]);
    assert(r[n - 24] == tail[0]);
    assert(r[n - 19] == tail[5]);
    assert(r[n - 18] == tail[6]);
    assert(r[n - 17] == tail[7]);
    assert(head[12] =~= "          PCR[0] = 0x"@ + hex_chars(m.pcr0@));
    assert(head[18] =~= "          PCR[1] = 0x"@ + hex_chars(m.pcr1@));
    assert(tail[0] =~= "          PCR[2] = 0x"@ + hex_chars(m.pcr2@));
    assert(tail[5] =~= "          |   PCR[0] = 0x"@ + hex_chars(m.pcr0@) + "  |"@);
    assert(tail[6] =~= "          |   PCR[1] = 0x"@ + hex_chars(m.pcr1@) + "  |"@);
    assert(tail[7] =~= "          |   PCR[2] = 0x"@ + hex_chars(m.pcr2@) + "  |"@);
    if m.kem_ok {
        assert(r[27] == kem[1]);
    }
}

/// The report shows where each section was measured and how long each
/// section and key is: the `.text` lines of stage 1, the `.rodata` lines
/// of stage 2, and the key sizes of stage 3.
pub proof fn lemma_report_image(m: BootMeasurement, image: ImageInfo)
    ensures
        ({
            let r = firmware_report_text(m, image);
            &&& r.len() >= 26
            &&& r[10] == "          addr   = 0x"@ + hex_padded8(image.text_address as nat)
            &&& r[11] == "          size   = "@ + decimal(image.text_len as nat) + " bytes"@
            &&& r[16] == "          addr   = 0x"@ + hex_padded8(image.rodata_address as nat)
            &&& r[17] == "          size   = "@ + decimal(image.rodata_len as nat) + " bytes"@
            &&& r[23] == "          dk    = "@ + decimal(image.dk_len as nat) + " bytes (seed-based)"@
            &&& r[24] == "          ek    = "@ + decimal(image.ek_len as nat)
                + " bytes (encapsulation key)"@
            &&& r[25] == "          ct    = "@ + decimal(image.ct_len as nat) + " bytes (ciphertext)"@
        }),
{
    let r = firmware_report_text(m, image);
    let head = report_head(m, image);
    assert(head.len() == 26);
    assert(r == head + report_kem(m) + report_tail(m));
    assert(r[10] == head[10]);
    assert(r[11] == head[11]);
    assert(r[16] == head[16]);
    assert(r[17] == head[17]);
    assert(r[23] == head[23]);
    assert(r[24] == head[24]);
    assert(r[25] == head[25]);
}

/// The attestation table's stage count, the sixteenth line from the end,
/// is the boot's own count of verified stages out of three.
pub proof fn lemma_report_stage_count(m: BootMeasurement, image: ImageInfo)
    ensures
        ({
            let r = firmware_report_text(m, image);
            &&& r.len() >= 16
            &&& r[r.len() - 16] == "          | Stages verified: "@ + decimal(m.stages_passed as nat)
                + "/3                        |"@
        }),
{
    reveal_strlit("/");
    reveal_strlit("                        |");
    reveal_strlit("/3                        |");
    assert(decimal(3) =~= seq!['3']);
    let r = firmware_report_text(m, image);
    let tail = report_tail(m);
    assert(tail.len() == 24);
    assert(r == report_head(m, image) + report_kem(m) + tail);
    assert(r[r.len() - 16] == tail[8]);
    assert(tail[8] =~= "          | Stages verified: "@ + decimal(m.stages_passed as nat)
        + "/3                        |"@);
}

/// The report's chain-of-trust line, the tenth from the end, for a boot
/// whose stage count is the one `measure_boot` gives: it reads
/// `CHAIN OF TRUST: PASSED (3/3 stages)` exactly when the decapsulated secret
/// was the expected one, and `CHAIN OF TRUST: FAILED (2/3 stages)` otherwise.
pub proof fn lemma_report_verdict(m: BootMeasurement, image: ImageInfo)
    requires
        m.stages_passed == if m.kem_ok {
            3usize
        } else {
            2usize
        },
    ensures
        ({
            let report = firmware_report_text(m, image);
            &&& report.len() >= 10
            &&& (report[report.len() - 10] == "  CHAIN OF TRUST: PASSED (3/3 stages)"@) == m.kem_ok
            &&& !m.kem_ok ==> report[report.len() - 10] == "  CHAIN OF TRUST: FAILED (2/3 stages)"@
            &&& report[report.len() - 16] == if m.kem_ok {
                "          | Stages verified: 3/3                        |"@
            } else {
                "          | Stages verified: 2/3                        |"@
            }
        }),
{
    lemma_report_stage_count(m, image);
    reveal_strlit("/3                        |");
    reveal_strlit("          | Stages verified: ");
    reveal_strlit("          | Stages verified: 3/3                        |");
    reveal_strlit("          | Stages verified: 2/3                        |");
    reveal_strlit("  CHAIN OF TRUST: PASSED (");
    reveal_strlit("  CHAIN OF TRUST: FAILED (");
    reveal_strlit(" stages)");
    reveal_strlit("/");
    reveal_strlit("  CHAIN OF TRUST: PASSED (3/3 stages)");
    reveal_strlit("  CHAIN OF TRUST: FAILED (2/3 stages)");
    let report = firmware_report_text(m, image);
    let head = report_head(m, image);
    let kem = report_kem(m);
    let tail = report_tail(m);
    assert(tail.len() == 24);
    assert(report == head + kem + tail);
    assert(report[report.len() - 10] == tail[14]);
    assert(decimal(3) =~= seq!['3']);
    assert(decimal(2) =~= seq!['2']);
    let passed = "  CHAIN OF TRUST: PASSED (3/3 stages)"@;
    let failed = "  CHAIN OF TRUST: FAILED (2/3 stages)"@;
    let stages = report[report.len() - 16];
    if m.kem_ok {
        assert(tail[14] =~= passed);
        assert(stages =~= "          | Stages verified: 3/3                        |"@);
    } else {
        assert(stages =~= "          | Stages verified: 2/3                        |"@);
        assert(tail[14] =~= failed);
        assert(failed[18] != passed[18]);
    }
}

/// No line of the firmware's report holds a line feed.
proof fn lemma_report_no_line_feed(m: BootMeasurement, image: ImageInfo)
    ensures
        forall|j: int|
            0 <= j < firmware_report_text(m, image).len() ==> no_line_feed(
                #[trigger] firmware_report_text(m, image)[j],
            ),
{
    broadcast use lemma_lacks_concat, lemma_lines_lack_push;
    reveal_with_fuel(lacks_from, 70);
    reveal_strlit("");
    lemma_lacks_literal(""@, '\n');
    reveal_strlit("          ");
    lemma_lacks_literal("          "@, '\n');
    reveal_strlit("                        |");
    lemma_lacks_literal("                        |"@, '\n');
    reveal_strlit("          +----------------------------------------------+");
    lemma_lacks_literal("          +----------------------------------------------+"@, '\n');
    reveal_strlit("          SS = 0x");
    lemma_lacks_literal("          SS = 0x"@, '\n');
    reveal_strlit("          [FAIL] ML-KEM-768 shared secret MISMATCH");
    lemma_lacks_literal("          [FAIL] ML-KEM-768 shared secret MISMATCH"@, '\n');
    reveal_strlit("          [OK] ML-KEM-768 shared secret decapsulated correctly");
    lemma_lacks_literal("          [OK] ML-KEM-768 shared secret decapsulated correctly"@, '\n');
    reveal_strlit("          [OK] stage 0 verified");
    lemma_lacks_literal("          [OK] stage 0 verified"@, '\n');
    reveal_strlit("          [OK] stage 1 verified");
    lemma_lacks_literal("          [OK] stage 1 verified"@, '\n');
    reveal_strlit("          addr   = 0x");
    lemma_lacks_literal("          addr   = 0x"@, '\n');
    reveal_strlit("          algo  = ML-KEM-768 (FIPS 203)");
    lemma_lacks_literal("          algo  = ML-KEM-768 (FIPS 203)"@, '\n');
    reveal_strlit("          crypto: SHA-256 (FIPS 180-4) + ML-KEM-768 (FIPS 203)");
    lemma_lacks_literal("          crypto: SHA-256 (FIPS 180-4) + ML-KEM-768 (FIPS 203)"@, '\n');
    reveal_strlit("          ct    = ");
    lemma_lacks_literal("          ct    = "@, '\n');
    reveal_strlit("          dk    = ");
    lemma_lacks_literal("          dk    = "@, '\n');
    reveal_strlit("          ek    = ");
    lemma_lacks_literal("          ek    = "@, '\n');
    reveal_strlit("          size   = ");
    lemma_lacks_literal("          size   = "@, '\n');
    reveal_strlit("          |   ");
    lemma_lacks_literal("          |   "@, '\n');
    reveal_strlit("          | Crypto: SHA-256 + ML-KEM-768                 |");
    lemma_lacks_literal("          | Crypto: SHA-256 + ML-KEM-768                 |"@, '\n');
    reveal_strlit("          | PCR Bank (measurement registers):            |");
    lemma_lacks_literal("          | PCR Bank (measurement registers):            |"@, '\n');
    reveal_strlit("          | Platform: RISC-V 64 · QEMU virt · no_std    |");
    lemma_lacks_literal("          | Platform: RISC-V 64 · QEMU virt · no_std    |"@, '\n');
    reveal_strlit("          | Stages verified: ");
    lemma_lacks_literal("          | Stages verified: "@, '\n');
    reveal_strlit("        Verified externally by scripts/verify.");
    lemma_lacks_literal("        Verified externally by scripts/verify."@, '\n');
    reveal_strlit("        measured via linker symbols (not hardcoded strings).");
    lemma_lacks_literal("        measured via linker symbols (not hardcoded strings)."@, '\n');
    reveal_strlit("  CHAIN OF TRUST: FAILED (");
    lemma_lacks_literal("  CHAIN OF TRUST: FAILED ("@, '\n');
    reveal_strlit("  CHAIN OF TRUST: PASSED (");
    lemma_lacks_literal("  CHAIN OF TRUST: PASSED ("@, '\n');
    reveal_strlit("  Fortis -- Bare-Metal Chain of Trust");
    lemma_lacks_literal("  Fortis -- Bare-Metal Chain of Trust"@, '\n');
    reveal_strlit("  RISC-V 64 -- QEMU virt -- no_std");
    lemma_lacks_literal("  RISC-V 64 -- QEMU virt -- no_std"@, '\n');
    reveal_strlit("  |");
    lemma_lacks_literal("  |"@, '\n');
    reveal_strlit(" bytes");
    lemma_lacks_literal(" bytes"@, '\n');
    reveal_strlit(" bytes (ciphertext)");
    lemma_lacks_literal(" bytes (ciphertext)"@, '\n');
    reveal_strlit(" bytes (encapsulation key)");
    lemma_lacks_literal(" bytes (encapsulation key)"@, '\n');
    reveal_strlit(" bytes (seed-based)");
    lemma_lacks_literal(" bytes (seed-based)"@, '\n');
    reveal_strlit(" stages)");
    lemma_lacks_literal(" stages)"@, '\n');
    reveal_strlit("/");
    lemma_lacks_literal("/"@, '\n');
    reveal_strlit("========================================");
    lemma_lacks_literal("========================================"@, '\n');
    reveal_strlit("================================================");
    lemma_lacks_literal("================================================"@, '\n');
    reveal_strlit("Crypto: SHA-256 (FIPS 180-4) + ML-KEM-768 (FIPS 203)");
    lemma_lacks_literal("Crypto: SHA-256 (FIPS 180-4) + ML-KEM-768 (FIPS 203)"@, '\n');
    reveal_strlit("Note:   .text and .rodata are real binary sections,");
    lemma_lacks_literal("Note:   .text and .rodata are real binary sections,"@, '\n');
    reveal_strlit("Stack: no_std, no heap, bare-metal RISC-V 64");
    lemma_lacks_literal("Stack: no_std, no heap, bare-metal RISC-V 64"@, '\n');
    reveal_strlit("[done] halted.");
    lemma_lacks_literal("[done] halted."@, '\n');
    reveal_strlit("[stage 0] UART: ns16550a @ 0x10000000");
    lemma_lacks_literal("[stage 0] UART: ns16550a @ 0x10000000"@, '\n');
    reveal_strlit("[stage 1] Measuring .text section (SHA-256)...");
    lemma_lacks_literal("[stage 1] Measuring .text section (SHA-256)..."@, '\n');
    reveal_strlit("[stage 2] Measuring .rodata section (SHA-256)...");
    lemma_lacks_literal("[stage 2] Measuring .rodata section (SHA-256)..."@, '\n');
    reveal_strlit("[stage 3] Post-quantum verification (ML-KEM-768)");
    lemma_lacks_literal("[stage 3] Post-quantum verification (ML-KEM-768)"@, '\n');
    reveal_strlit("[stage 4] Attestation report");
    lemma_lacks_literal("[stage 4] Attestation report"@, '\n');
    lemma_numbers_lack(image.text_address as nat, m.pcr0@, '\n');
    lemma_numbers_lack(image.rodata_address as nat, m.pcr1@, '\n');
    lemma_numbers_lack(image.text_len as nat, m.pcr2@, '\n');
    lemma_numbers_lack(image.rodata_len as nat, m.shared_secret@, '\n');
    lemma_numbers_lack(image.dk_len as nat, m.pcr0@, '\n');
    lemma_numbers_lack(image.ek_len as nat, m.pcr0@, '\n');
    lemma_numbers_lack(image.ct_len as nat, m.pcr0@, '\n');
    lemma_numbers_lack(m.stages_passed as nat, m.pcr0@, '\n');
    lemma_numbers_lack(TOTAL_STAGES as nat, m.pcr0@, '\n');
    lemma_prefix_lacks(0, '\n');
    lemma_prefix_lacks(1, '\n');
    lemma_prefix_lacks(2, '\n');
    let r = firmware_report_text(m, image);
    let h = report_head(m, image);
    let k = report_kem(m);
    let t = report_tail(m);
    assert(lines_lack(Seq::<Seq<char>>::empty(), '\n'));
    assert(lines_lack(h, '\n'));
    assert(lines_lack(k, '\n'));
    assert(lines_lack(t, '\n'));
    lemma_lines_lack_concat(h, k, '\n');
    lemma_lines_lack_concat(h + k, t, '\n');
    assert(r == h + k + t);
    assert forall|j: int| 0 <= j < r.len() implies no_line_feed(#[trigger] r[j]) by {
        assert(lacks(r[j], '\n'));
    }
}

/// No line of `lines` holds `c`.
spec fn lines_lack(lines: Seq<Seq<char>>, c: char) -> bool {
    forall|j: int| 0 <= j < lines.len() ==> lacks(#[trigger] lines[j], c)
}

broadcast proof fn lemma_lines_lack_push(lines: Seq<Seq<char>>, line: Seq<char>, c: char)
    requires
        lines_lack(lines, c),
        lacks(line, c),
    ensures
        #[trigger] lines_lack(lines.push(line), c),
{
    assert forall|j: int| 0 <= j < lines.len() + 1 implies lacks(#[trigger] lines.push(line)[j], c) by {
        if j < lines.len() {
            assert(lines.push(line)[j] == lines[j]);
        }
    }
}

proof fn lemma_lines_lack_concat(a: Seq<Seq<char>>, b: Seq<Seq<char>>, c: char)
    requires
        lines_lack(a, c),
        lines_lack(b, c),
    ensures
        lines_lack(a + b, c),
{
    assert forall|j: int| 0 <= j < (a + b).len() implies lacks(#[trigger] (a + b)[j], c) by {
        if j < a.len() {
            assert((a + b)[j] == a[j]);
        } else {
            assert((a + b)[j] == b[j - a.len()]);
        }
    }
}

/// `s` does not hold the character `c`.
spec fn lacks(s: Seq<char>, c: char) -> bool {
    forall|i: int| 0 <= i < s.len() ==> #[trigger] s[i] != c
}

spec fn lacks_from(s: Seq<char>, c: char, i: int) -> bool
    decreases s.len() - i,
{
    if i < 0 || i >= s.len() {
        true
    } else {
        s[i] != c && lacks_from(s, c, i + 1)
    }
}

proof fn lemma_lacks_from(s: Seq<char>, c: char, i: int)
    requires
        0 <= i,
        lacks_from(s, c, i),
    ensures
        forall|m: int| i <= m < s.len() ==> #[trigger] s[m] != c,
    decreases s.len() - i,
{
    if i < s.len() {
        lemma_lacks_from(s, c, i + 1);
    }
}

proof fn lemma_lacks_literal(s: Seq<char>, c: char)
    requires
        lacks_from(s, c, 0),
    ensures
        lacks(s, c),
{
    lemma_lacks_from(s, c, 0);
}

broadcast proof fn lemma_lacks_concat(a: Seq<char>, b: Seq<char>, c: char)
    requires
        lacks(a, c),
        lacks(b, c),
    ensures
        #[trigger] lacks(a + b, c),
{
    assert forall|i: int| 0 <= i < (a + b).len() implies #[trigger] (a + b)[i] != c by {
        if i >= a.len() {
            assert((a + b)[i] == b[i - a.len()]);
        }
    }
}

/// Decimal and lower-case hex digits, as the report prints numbers, hold no
/// character that is neither a digit nor one of `a`..`f`.
proof fn lemma_numbers_lack(n: nat, bytes: Seq<u8>, c: char)
    requires
        !('0' <= c <= '9'),
        !('a' <= c <= 'f'),
    ensures
        lacks(decimal(n), c),
        lacks(hex_padded8(n), c),
        lacks(hex_chars(bytes), c),
{
    lemma_decimal_digits(n);
    lemma_hex_digits_lack(n, c);
    let d = hex_digits(n);
    let h = hex_padded8(n);
    assert forall|m: int| 0 <= m < h.len() implies #[trigger] h[m] != c by {
        if d.len() < 8 {
            let pad = (8 - d.len()) as int;
            if m >= pad {
                assert(h[m] == d[m - pad]);
            }
        }
    }
    let x = hex_chars(bytes);
    assert forall|m: int| 0 <= m < x.len() implies #[trigger] x[m] != c by {
        let b = bytes[m / 2];
        assert(x[m] == hex_digit(b as int / 16) as char || x[m] == hex_digit(b as int % 16) as char);
    }
}

proof fn lemma_prefix_lacks(index: nat, c: char)
    requires
        !('0' <= c <= '9'),
        c != 'P' && c != 'C' && c != 'R' && c != '[' && c != ']' && c != ' ' && c != '=' && c
            != 'x',
    ensures
        lacks(pcr_prefix(index), c),
{
    lemma_decimal_digits(index);
    reveal_strlit("PCR[");
    reveal_strlit("] = 0x");
    let q = pcr_prefix(index);
    let dl = decimal(index).len() as int;
    assert forall|t: int| 0 <= t < q.len() implies #[trigger] q[t] != c by {
        if 4 <= t < 4 + dl {
            assert(q[t] == decimal(index)[t - 4]);
        }
    }
}

proof fn lemma_hex_digits_lack(n: nat, c: char)
    requires
        !('0' <= c <= '9'),
        !('a' <= c <= 'f'),
    ensures
        lacks(hex_digits(n), c),
    decreases n,
{
    if n >= 16 {
        lemma_hex_digits_lack(n / 16, c);
        let d = hex_digits(n);
        assert forall|m: int| 0 <= m < d.len() implies #[trigger] d[m] != c by {
            if m < d.len() - 1 {
                assert(d[m] == hex_digits(n / 16)[m]);
            }
        }
    }
}

/// `s` cannot hold `PASSED`: it has no `D`, or it has no `P`.
spec fn passed_free(s: Seq<char>) -> bool {
    lacks(s, 'D') || lacks(s, 'P')
}

/// No line of `lines` can hold `PASSED`.
spec fn lines_passed_free(lines: Seq<Seq<char>>) -> bool {
    forall|j: int| 0 <= j < lines.len() ==> passed_free(#[trigger] lines[j])
}

broadcast proof fn lemma_lines_passed_free_push(lines: Seq<Seq<char>>, line: Seq<char>)
    requires
        lines_passed_free(lines),
        passed_free(line),
    ensures
        #[trigger] lines_passed_free(lines.push(line)),
{
    assert forall|j: int| 0 <= j < lines.len() + 1 implies passed_free(
        #[trigger] lines.push(line)[j],
    ) by {
        if j < lines.len() {
            assert(lines.push(line)[j] == lines[j]);
        }
    }
}

proof fn lemma_head_passed_free(m: BootMeasurement, image: ImageInfo)
    ensures
        lines_passed_free(report_head(m, image)),
{
    broadcast use lemma_lacks_concat, lemma_lines_passed_free_push;
    reveal_with_fuel(lacks_from, 70);
    reveal_strlit("");
    lemma_lacks_literal(""@, 'D');
    reveal_strlit("========================================");
    lemma_lacks_literal("========================================"@, 'D');
    reveal_strlit("  Fortis -- Bare-Metal Chain of Trust");
    lemma_lacks_literal("  Fortis -- Bare-Metal Chain of Trust"@, 'D');
    reveal_strlit("  RISC-V 64 -- QEMU virt -- no_std");
    lemma_lacks_literal("  RISC-V 64 -- QEMU virt -- no_std"@, 'D');
    reveal_strlit("[stage 0] UART: ns16550a @ 0x10000000");
    lemma_lacks_literal("[stage 0] UART: ns16550a @ 0x10000000"@, 'D');
    reveal_strlit("          crypto: SHA-256 (FIPS 180-4) + ML-KEM-768 (FIPS 203)");
    lemma_lacks_literal("          crypto: SHA-256 (FIPS 180-4) + ML-KEM-768 (FIPS 203)"@, 'D');
    reveal_strlit("[stage 1] Measuring .text section (SHA-256)...");
    lemma_lacks_literal("[stage 1] Measuring .text section (SHA-256)..."@, 'D');
    reveal_strlit("          addr   = 0x");
    lemma_lacks_literal("          addr   = 0x"@, 'D');
    reveal_strlit("          size   = ");
    lemma_lacks_literal("          size   = "@, 'D');
    reveal_strlit(" bytes");
    lemma_lacks_literal(" bytes"@, 'D');
    reveal_strlit("          [OK] stage 0 verified");
    lemma_lacks_literal("          [OK] stage 0 verified"@, 'D');
    reveal_strlit("[stage 2] Measuring .rodata section (SHA-256)...");
    lemma_lacks_literal("[stage 2] Measuring .rodata section (SHA-256)..."@, 'D');
    reveal_strlit("          [OK] stage 1 verified");
    lemma_lacks_literal("          [OK] stage 1 verified"@, 'D');
    reveal_strlit("[stage 3] Post-quantum verification (ML-KEM-768)");
    lemma_lacks_literal("[stage 3] Post-quantum verification (ML-KEM-768)"@, 'D');
    reveal_strlit("          algo  = ML-KEM-768 (FIPS 203)");
    lemma_lacks_literal("          algo  = ML-KEM-768 (FIPS 203)"@, 'D');
    reveal_strlit("          dk    = ");
    lemma_lacks_literal("          dk    = "@, 'D');
    reveal_strlit(" bytes (seed-based)");
    lemma_lacks_literal(" bytes (seed-based)"@, 'D');
    reveal_strlit("          ek    = ");
    lemma_lacks_literal("          ek    = "@, 'D');
    reveal_strlit(" bytes (encapsulation key)");
    lemma_lacks_literal(" bytes (encapsulation key)"@, 'D');
    reveal_strlit("          ct    = ");
    lemma_lacks_literal("          ct    = "@, 'D');
    reveal_strlit(" bytes (ciphertext)");
    lemma_lacks_literal(" bytes (ciphertext)"@, 'D');
    reveal_strlit("          ");
    lemma_lacks_literal("          "@, 'D');
    lemma_numbers_lack(image.text_address as nat, m.pcr0@, 'D');
    lemma_numbers_lack(image.rodata_address as nat, m.pcr1@, 'D');
    lemma_numbers_lack(image.text_len as nat, m.pcr0@, 'D');
    lemma_numbers_lack(image.rodata_len as nat, m.pcr0@, 'D');
    lemma_numbers_lack(image.dk_len as nat, m.pcr0@, 'D');
    lemma_numbers_lack(image.ek_len as nat, m.pcr0@, 'D');
    lemma_numbers_lack(image.ct_len as nat, m.pcr0@, 'D');
    lemma_prefix_lacks(0, 'D');
    lemma_prefix_lacks(1, 'D');
    assert(lines_passed_free(Seq::<Seq<char>>::empty()));
    assert(lines_passed_free(report_head(m, image)));
}

proof fn lemma_kem_passed_free(m: BootMeasurement)
    ensures
        lines_passed_free(report_kem(m)),
{
    broadcast use lemma_lacks_concat, lemma_lines_passed_free_push;
    reveal_with_fuel(lacks_from, 70);
    reveal_strlit("          [OK] ML-KEM-768 shared secret decapsulated correctly");
    lemma_lacks_literal("          [OK] ML-KEM-768 shared secret decapsulated correctly"@, 'D');
    reveal_strlit("          SS = 0x");
    lemma_lacks_literal("          SS = 0x"@, 'D');
    reveal_strlit("          [FAIL] ML-KEM-768 shared secret MISMATCH");
    lemma_lacks_literal("          [FAIL] ML-KEM-768 shared secret MISMATCH"@, 'D');
    lemma_numbers_lack(0, m.shared_secret@, 'D');
    assert(lines_passed_free(Seq::<Seq<char>>::empty()));
    assert(lines_passed_free(report_kem(m)));
}

proof fn lemma_tail_passed_free(m: BootMeasurement)
    requires
        !m.kem_ok,
        m.stages_passed == 2,
    ensures
        lines_passed_free(report_tail(m)),
{
    broadcast use lemma_lacks_concat, lemma_lines_passed_free_push;
    reveal_with_fuel(lacks_from, 70);
    reveal_strlit("");
    lemma_lacks_literal(""@, 'D');
    reveal_strlit("          ");
    lemma_lacks_literal("          "@, 'D');
    reveal_strlit("[stage 4] Attestation report");
    lemma_lacks_literal("[stage 4] Attestation report"@, 'D');
    reveal_strlit("          +----------------------------------------------+");
    lemma_lacks_literal("          +----------------------------------------------+"@, 'D');
    reveal_strlit("          | PCR Bank (measurement registers):            |");
    lemma_lacks_literal("          | PCR Bank (measurement registers):            |"@, 'D');
    reveal_strlit("          |   ");
    lemma_lacks_literal("          |   "@, 'D');
    reveal_strlit("  |");
    lemma_lacks_literal("  |"@, 'D');
    reveal_strlit("          | Stages verified: ");
    lemma_lacks_literal("          | Stages verified: "@, 'D');
    reveal_strlit("/");
    lemma_lacks_literal("/"@, 'D');
    reveal_strlit("                        |");
    lemma_lacks_literal("                        |"@, 'D');
    reveal_strlit("          | Crypto: SHA-256 + ML-KEM-768                 |");
    lemma_lacks_literal("          | Crypto: SHA-256 + ML-KEM-768                 |"@, 'D');
    reveal_strlit("          | Platform: RISC-V 64 · QEMU virt · no_std    |");
    lemma_lacks_literal("          | Platform: RISC-V 64 · QEMU virt · no_std    |"@, 'D');
    reveal_strlit("================================================");
    lemma_lacks_literal("================================================"@, 'D');
    reveal_strlit("Stack: no_std, no heap, bare-metal RISC-V 64");
    lemma_lacks_literal("Stack: no_std, no heap, bare-metal RISC-V 64"@, 'D');
    reveal_strlit("Crypto: SHA-256 (FIPS 180-4) + ML-KEM-768 (FIPS 203)");
    lemma_lacks_literal("Crypto: SHA-256 (FIPS 180-4) + ML-KEM-768 (FIPS 203)"@, 'D');
    reveal_strlit("Note:   .text and .rodata are real binary sections,");
    lemma_lacks_literal("Note:   .text and .rodata are real binary sections,"@, 'D');
    reveal_strlit("        measured via linker symbols (not hardcoded strings).");
    lemma_lacks_literal("        measured via linker symbols (not hardcoded strings)."@, 'D');
    reveal_strlit("        Verified externally by scripts/verify.");
    lemma_lacks_literal("        Verified externally by scripts/verify."@, 'D');
    reveal_strlit("[done] halted.");
    lemma_lacks_literal("[done] halted."@, 'D');
    reveal_strlit("  CHAIN OF TRUST: FAILED (");
    lemma_lacks_literal("  CHAIN OF TRUST: FAILED ("@, 'P');
    reveal_strlit(" stages)");
    lemma_lacks_literal(" stages)"@, 'P');
    lemma_lacks_literal(" stages)"@, 'D');
    lemma_lacks_literal("/"@, 'P');
    lemma_decimal_digits(2);
    lemma_decimal_digits(3);
    lemma_numbers_lack(2, m.pcr0@, 'D');
    lemma_numbers_lack(3, m.pcr1@, 'D');
    lemma_numbers_lack(0, m.pcr2@, 'D');
    lemma_prefix_lacks(0, 'D');
    lemma_prefix_lacks(1, 'D');
    lemma_prefix_lacks(2, 'D');
    assert(lacks(decimal(2), 'P'));
    assert(lacks(decimal(3), 'P'));
    assert(lines_passed_free(Seq::<Seq<char>>::empty()));
    assert(lines_passed_free(report_tail(m)));
}

/// A boot whose key check failed is never reported as passed: after any
/// earlier lines that do not hold `PASSED`, the text the host receives
/// holds no `PASSED` anywhere.
pub proof fn lemma_failed_boot_not_passed(
    before: Seq<Seq<char>>,
    m: BootMeasurement,
    image: ImageInfo,
)
    requires
        !m.kem_ok,
        m.stages_passed == 2,
        forall|j: int| 0 <= j < before.len() ==> find_from(#[trigger] before[j], "PASSED"@, 0) is None,
    ensures
        find_from(join_lines(before + firmware_report_text(m, image)), "PASSED"@, 0) is None,
{
    reveal_strlit("PASSED");
    let word = "PASSED"@;
    let report = firmware_report_text(m, image);
    let lines = before + report;
    lemma_head_passed_free(m, image);
    lemma_kem_passed_free(m);
    lemma_tail_passed_free(m);
    let h = report_head(m, image);
    let k = report_kem(m);
    let t = report_tail(m);
    assert(report == h + k + t);
    assert forall|j: int| 0 <= j < lines.len() implies find_from(#[trigger] lines[j], word, 0)
        is None by {
        if j >= before.len() {
            let r = j - before.len();
            let line = lines[j];
            if r < h.len() {
                assert(line == h[r]);
            } else if r < h.len() + k.len() {
                assert(line == k[r - h.len()]);
            } else {
                assert(line == t[r - h.len() - k.len()]);
            }
            assert(passed_free(line));
            assert forall|p: int| 0 <= p implies !occurs_at(line, word, p) by {
                if occurs_at(line, word, p) {
                    assert(line.subrange(p, p + 6)[0] == line[p]);
                    assert(line.subrange(p, p + 6)[5] == line[p + 5]);
                }
            }
            lemma_find_from_none(line, word, 0);
        } else {
            assert(lines[j] == before[j]);
        }
    }
    lemma_join_lines_free(lines, word);
    lemma_find_from_none(join_lines(lines), word, 0);
}

} // verus!
