use fortis::chain::{all_match, compare_reported_pcrs, expected_pcrs, measure_boot, TOTAL_STAGES};
use fortis::const_array::{find_const_array, parse_const_array, ConstArrayError};
use fortis::digest::pcr_extend;
use fortis::elf::{firmware_sections, ElfError, FirmwareSection};
use fortis::hex::{hex_fmt, hex_str};
use fortis::kem::kem_check;
use fortis::report::{parse_pcr, pcr_line};
use fortis::uart::{transmit_ready, uart_puts};
use fortis::boot_report::{firmware_report, measured_boot_report, ImageInfo};

use ml_kem::array::Array;
use ml_kem::kem::Decapsulate;
use ml_kem::{DecapsulationKey, MlKem768};

fn unhex(s: &str) -> Vec<u8> {
    (0..s.len() / 2)
        .map(|i| u8::from_str_radix(&s[2 * i..2 * i + 2], 16).unwrap())
        .collect()
}

fn arr32(v: &[u8]) -> [u8; 32] {
    let mut a = [0u8; 32];
    a.copy_from_slice(v);
    a
}

const KEYS_SRC: &str = "//! keys\n\
pub const DK: [u8; 4] = [\n    0x01, 0x02,\n    0xab, 0xFF,\n];\n\
pub const SS: [u8; 2] = [0x10, 0x20];\n";

#[test]
fn hex_fmt_writes_lowercase_and_terminator() {
    let mut buf = [0x55u8; 65];
    hex_fmt(&[0xbe, 0xef, 0x01], &mut buf);
    assert_eq!(&buf[..6], b"beef01");
    assert_eq!(buf[6], 0);
    assert!(buf[7..].iter().all(|&b| b == 0x55));
}

#[test]
fn hex_fmt_full_digest() {
    let mut buf = [0xffu8; 65];
    let hash = [0xa5u8; 32];
    hex_fmt(&hash, &mut buf);
    assert_eq!(&buf[..64], "a5".repeat(32).as_bytes());
    assert_eq!(buf[64], 0);
}

#[test]
fn hex_fmt_empty() {
    let mut buf = [7u8; 65];
    hex_fmt(&[], &mut buf);
    assert_eq!(buf[0], 0);
    assert!(buf[1..].iter().all(|&b| b == 7));
}

#[test]
fn hex_str_is_lowercase_pairs() {
    let mut b = [0u8; 32];
    b[0] = 0x0f;
    b[1] = 0xa0;
    b[31] = 0xff;
    let s = hex_str(&b);
    assert_eq!(s.len(), 64);
    assert!(s.starts_with("0fa0"));
    assert!(s.ends_with("ff"));
}

#[test]
fn pcr_extend_known_vector() {
    let mut pcr = [0u8; 32];
    pcr_extend(&mut pcr, b"abc");
    assert_eq!(
        pcr.to_vec(),
        unhex("365aa7d8f7f9402c4b9434502b4cc89ddb09fe50d7cd95b493b834c62d5a5370")
    );
}

#[test]
fn pcr_extend_chains() {
    let mut pcr = [0u8; 32];
    pcr_extend(&mut pcr, b"text");
    assert_eq!(
        pcr.to_vec(),
        unhex("09527ef56e9dff5fb3c891047b2321c7de7e0be00323f7ef9628b7fcdc9680af")
    );
    pcr_extend(&mut pcr, b"rodata");
    assert_eq!(
        pcr.to_vec(),
        unhex("a486852ba14e52159ba6dafa93370fb63e30ccc4d2462d76d51f96f1080ad13d")
    );
}

#[test]
fn expected_pcrs_follow_the_chain() {
    let p = expected_pcrs(b"text", b"rodata", b"abc");
    assert_eq!(
        p[0].to_vec(),
        unhex("09527ef56e9dff5fb3c891047b2321c7de7e0be00323f7ef9628b7fcdc9680af")
    );
    assert_eq!(
        p[1].to_vec(),
        unhex("a486852ba14e52159ba6dafa93370fb63e30ccc4d2462d76d51f96f1080ad13d")
    );
    assert_eq!(
        p[2].to_vec(),
        unhex("365aa7d8f7f9402c4b9434502b4cc89ddb09fe50d7cd95b493b834c62d5a5370")
    );
}

fn kem_fixture() -> ([u8; 64], Vec<u8>, [u8; 32]) {
    let mut seed = [0u8; 64];
    for (i, b) in seed.iter_mut().enumerate() {
        *b = (i * 7 + 3) as u8;
    }
    let dk = DecapsulationKey::<MlKem768>::from_seed(Array::from(seed));
    let m = Array::from([0x42u8; 32]);
    let (ct, k) = dk.encapsulation_key().encapsulate_deterministic(&m);
    (seed, ct.as_slice().to_vec(), arr32(k.as_slice()))
}

#[test]
fn kem_check_roundtrip() {
    let (seed, ct, k) = kem_fixture();
    let (secret, ok) = kem_check(&seed, &ct, &k);
    assert!(ok);
    assert_eq!(secret, k);
}

#[test]
fn kem_check_detects_mismatch() {
    let (seed, ct, k) = kem_fixture();
    let mut wrong = k;
    wrong[0] ^= 1;
    let (secret, ok) = kem_check(&seed, &ct, &wrong);
    assert!(!ok);
    assert_eq!(secret, k);
}

#[test]
fn kem_check_matches_library_decapsulation() {
    let (seed, mut ct, _) = kem_fixture();
    ct[5] ^= 0x80;
    let dk = DecapsulationKey::<MlKem768>::from_seed(Array::from(seed));
    let direct = dk.decapsulate(&Array::try_from(ct.as_slice()).unwrap());
    let (secret, _) = kem_check(&seed, &ct, &[0u8; 32]);
    assert_eq!(secret.to_vec(), direct.as_slice().to_vec());
}

#[test]
fn measure_boot_all_stages_pass() {
    let (seed, ct, k) = kem_fixture();
    let m = measure_boot(b"text", b"rodata", &seed, &ct, &k);
    assert!(m.kem_ok);
    assert_eq!(m.stages_passed, TOTAL_STAGES);
    assert!(m.passed());
    let e = expected_pcrs(b"text", b"rodata", &k);
    assert_eq!(m.pcr0, e[0]);
    assert_eq!(m.pcr1, e[1]);
    assert_eq!(m.pcr2, e[2]);
    assert_eq!(m.shared_secret, k);
}

#[test]
fn measure_boot_fails_on_wrong_secret() {
    let (seed, ct, k) = kem_fixture();
    let m = measure_boot(b"text", b"rodata", &seed, &ct, &[0u8; 32]);
    assert!(!m.kem_ok);
    assert_eq!(m.stages_passed, 2);
    assert!(!m.passed());
    // PCR[2] measures the secret actually received.
    assert_eq!(m.pcr2, expected_pcrs(b"", b"", &k)[2]);
}

#[test]
fn pcr_line_format() {
    let mut p = [0u8; 32];
    p[0] = 0xab;
    let line = pcr_line(1, &p);
    assert_eq!(line, format!("          PCR[1] = 0xab{}", "00".repeat(31)));
    assert_eq!(pcr_line(12, &p)[10..20].to_string(), "PCR[12] = ");
}

#[test]
fn parse_pcr_reads_back_printed_line() {
    let mut p = [0u8; 32];
    for (i, b) in p.iter_mut().enumerate() {
        *b = (i * 9) as u8;
    }
    let out = format!("banner\r\n{}\r\n          [OK] stage 0 verified\r\n", pcr_line(0, &p));
    assert_eq!(parse_pcr(&out, 0), Some(p));
    assert_eq!(parse_pcr(&out, 1), None);
}

#[test]
fn parse_pcr_takes_first_line_and_accepts_uppercase() {
    let out = format!(
        "PCR[2] = 0x{}\nPCR[2] = 0x{}\n",
        "AB".repeat(32),
        "cd".repeat(32)
    );
    assert_eq!(parse_pcr(&out, 2), Some([0xab; 32]));
}

#[test]
fn parse_pcr_rejects_wrong_length() {
    let short = format!("PCR[0] = 0x{}\n", "a".repeat(63));
    let long = format!("PCR[0] = 0x{}\n", "a".repeat(65));
    assert_eq!(parse_pcr(&short, 0), None);
    assert_eq!(parse_pcr(&long, 0), None);
    assert_eq!(parse_pcr("", 0), None);
}

#[test]
fn parse_pcr_index_is_decimal() {
    let out = format!("x PCR[10] = 0x{}  |", "0f".repeat(32));
    assert_eq!(parse_pcr(&out, 10), Some([0x0f; 32]));
    assert_eq!(parse_pcr(&out, 1), None);
}

#[test]
fn compare_reported_pcrs_verdicts() {
    let e = expected_pcrs(b"a", b"b", b"c");
    let mut wrong = e[1];
    wrong[31] ^= 0xff;
    let out = format!(
        "{}\n{}\n{}\n",
        pcr_line(0, &e[0]),
        pcr_line(1, &wrong),
        pcr_line(2, &e[2])
    );
    let r = compare_reported_pcrs(&e, &out).unwrap();
    assert_eq!(r.matches, [true, false, true]);
    assert_eq!(r.values, [e[0], wrong, e[2]]);
    assert!(!all_match(&r.matches));
    let good = format!(
        "{}\n{}\n{}\n",
        pcr_line(0, &e[0]),
        pcr_line(1, &e[1]),
        pcr_line(2, &e[2])
    );
    let r = compare_reported_pcrs(&e, &good).unwrap();
    assert!(all_match(&r.matches));
    assert_eq!(r.values, e);
}

#[test]
fn compare_reported_pcrs_missing_line() {
    let e = expected_pcrs(b"a", b"b", b"c");
    let out = format!("{}\n", pcr_line(0, &e[0]));
    assert!(matches!(compare_reported_pcrs(&e, &out), Err(1)));
    assert!(matches!(compare_reported_pcrs(&e, ""), Err(0)));
}

#[test]
fn const_array_reads_declaration() {
    assert_eq!(parse_const_array(KEYS_SRC, "DK", 4), vec![0x01, 0x02, 0xab, 0xff]);
    assert_eq!(parse_const_array(KEYS_SRC, "SS", 2), vec![0x10, 0x20]);
}

#[test]
fn const_array_errors() {
    assert!(matches!(find_const_array(KEYS_SRC, "CT", 2), Err(ConstArrayError::NotFound)));
    assert!(matches!(find_const_array(KEYS_SRC, "D", 4), Err(ConstArrayError::NotFound)));
    assert!(matches!(
        find_const_array(KEYS_SRC, "DK", 5),
        Err(ConstArrayError::WrongLength(4))
    ));
    assert!(matches!(
        find_const_array("pub const A: [u8; 1] 0x01", "A", 1),
        Err(ConstArrayError::MissingInitializer)
    ));
    assert!(matches!(
        find_const_array("pub const A: [u8; 1] = [0x01", "A", 1),
        Err(ConstArrayError::Unterminated)
    ));
    match find_const_array("pub const A: [u8; 2] = [0x01, 0xzz];", "A", 2) {
        Err(ConstArrayError::InvalidHex(t)) => assert_eq!(t, vec!['z', 'z']),
        other => panic!("unexpected {:?}", other),
    }
    match find_const_array("pub const A: [u8; 1] = [0x100];", "A", 1) {
        Err(ConstArrayError::InvalidHex(t)) => assert_eq!(t, vec!['1', '0', '0']),
        other => panic!("unexpected {:?}", other),
    }
}

#[test]
fn const_array_element_forms() {
    let src = "pub const A: [u8; 5] = [ 0x0x1, 0x+12,\t0xFf ,, 00ff, 7, ];";
    assert_eq!(parse_const_array(src, "A", 5), vec![1, 0x12, 0xff, 0xff, 7]);
    assert!(matches!(
        find_const_array("pub const A: [u8; 1] = [+0x12];", "A", 1),
        Err(ConstArrayError::InvalidHex(_))
    ));
    assert!(matches!(
        find_const_array("pub const A: [u8; 1] = [0x-1];", "A", 1),
        Err(ConstArrayError::InvalidHex(_))
    ));
    assert_eq!(parse_const_array("pub const A: [u8; 0] = [];", "A", 0), Vec::<u8>::new());
    assert_eq!(
        parse_const_array("pub const A: [u8; 1] = [\u{a0}0x05\u{3000}];", "A", 1),
        vec![5]
    );
}

#[test]
fn const_array_reads_written_out_declaration() {
    for n in [0usize, 1, 2, 16] {
        let bytes: Vec<u8> = (0..n).map(|i| (i * 17 + 3) as u8).collect();
        let src = format!(
            "pub const KEY: [u8; {}] = [{}];",
            bytes.len(),
            bytes.iter().map(|x| format!("0x{:02x}", x)).collect::<Vec<_>>().join(", ")
        );
        assert_eq!(parse_const_array(&src, "KEY", bytes.len()), bytes);
    }
}

#[test]
fn uart_puts_expands_newlines() {
    let mut tx = Vec::new();
    uart_puts(&mut tx, "a\nb");
    uart_puts(&mut tx, "\n");
    assert_eq!(tx, b"a\r\nb\r\n".to_vec());
    let mut tx2 = vec![1u8];
    uart_puts(&mut tx2, "é");
    assert_eq!(tx2, vec![1, 0xc3, 0xa9]);
}

fn elf_image(text: &[u8], rodata: &[u8]) -> Vec<u8> {
    elf_image_with(text, rodata, false)
}

fn elf_image_with(text: &[u8], rodata: &[u8], rodata_out_of_file: bool) -> Vec<u8> {
    let shstrtab = b"\0.text\0.rodata\0.shstrtab\0";
    let text_off = 64usize;
    let rodata_off = text_off + text.len();
    let shstr_off = rodata_off + rodata.len();
    let mut sh_off = shstr_off + shstrtab.len();
    sh_off = (sh_off + 7) & !7;
    let mut v = vec![0u8; sh_off];
    v[0..4].copy_from_slice(b"\x7fELF");
    v[4] = 2;
    v[5] = 1;
    v[6] = 1;
    v[16..18].copy_from_slice(&2u16.to_le_bytes());
    v[18..20].copy_from_slice(&0xf3u16.to_le_bytes());
    v[20..24].copy_from_slice(&1u32.to_le_bytes());
    v[40..48].copy_from_slice(&(sh_off as u64).to_le_bytes());
    v[52..54].copy_from_slice(&64u16.to_le_bytes());
    v[58..60].copy_from_slice(&64u16.to_le_bytes());
    v[60..62].copy_from_slice(&4u16.to_le_bytes());
    v[62..64].copy_from_slice(&3u16.to_le_bytes());
    v[text_off..rodata_off].copy_from_slice(text);
    v[rodata_off..shstr_off].copy_from_slice(rodata);
    v[shstr_off..shstr_off + shstrtab.len()].copy_from_slice(shstrtab);
    let mut sh = |name: u32, ty: u32, flags: u64, addr: u64, off: usize, size: usize| {
        let mut h = vec![0u8; 64];
        h[0..4].copy_from_slice(&name.to_le_bytes());
        h[4..8].copy_from_slice(&ty.to_le_bytes());
        h[8..16].copy_from_slice(&flags.to_le_bytes());
        h[16..24].copy_from_slice(&addr.to_le_bytes());
        h[24..32].copy_from_slice(&(off as u64).to_le_bytes());
        h[32..40].copy_from_slice(&(size as u64).to_le_bytes());
        h[48..56].copy_from_slice(&1u64.to_le_bytes());
        v.extend_from_slice(&h);
    };
    sh(0, 0, 0, 0, 0, 0);
    sh(1, 1, 6, 0x8020_0000, text_off, text.len());
    let rodata_at = if rodata_out_of_file { 1 << 40 } else { rodata_off };
    sh(7, 1, 2, 0x8020_1000, rodata_at, rodata.len());
    sh(15, 3, 0, 0, shstr_off, shstrtab.len());
    v
}

#[test]
fn firmware_sections_from_elf() {
    let image = elf_image(b"\x13\x00\x00\x00code", b"constants");
    let s = firmware_sections(&image).unwrap();
    assert_eq!(s.text, b"\x13\x00\x00\x00code".to_vec());
    assert_eq!(s.text_address, 0x8020_0000);
    assert_eq!(s.rodata, b"constants".to_vec());
    assert_eq!(s.rodata_address, 0x8020_1000);
}

#[test]
fn firmware_sections_errors() {
    assert_eq!(
        firmware_sections(b"not an elf").err(),
        Some((FirmwareSection::Text, ElfError::Malformed))
    );
    let mut image = elf_image(b"code", b"ro");
    // Rename `.rodata` so that it is no longer found.
    let pos = image.windows(7).position(|w| w == b".rodata").unwrap();
    image[pos + 1] = b'x';
    assert_eq!(
        firmware_sections(&image).err(),
        Some((FirmwareSection::Rodata, ElfError::MissingSection))
    );
    let image = elf_image_with(b"code", b"ro", true);
    assert_eq!(
        firmware_sections(&image).err(),
        Some((FirmwareSection::Rodata, ElfError::UnreadableSection))
    );
}

#[test]
fn transmit_ready_tests_bit_5() {
    assert!(transmit_ready(0x20));
    assert!(transmit_ready(0x60));
    assert!(!transmit_ready(0x00));
    assert!(!transmit_ready(0xdf));
}

fn image_info() -> ImageInfo {
    ImageInfo {
        text_address: 0x8020_0000,
        text_len: 4096,
        rodata_address: 0x8020_1000,
        rodata_len: 512,
        dk_len: 64,
        ek_len: 1184,
        ct_len: 1088,
    }
}

#[test]
fn firmware_report_lines() {
    let (seed, ct, k) = kem_fixture();
    let m = measure_boot(b"text", b"rodata", &seed, &ct, &k);
    let lines = firmware_report(&m, &image_info());
    assert_eq!(lines.len(), 52);
    assert_eq!(lines[10], "          addr   = 0x80200000");
    assert_eq!(lines[11], "          size   = 4096 bytes");
    assert_eq!(lines[12], pcr_line(0, &m.pcr0));
    assert_eq!(lines[18], pcr_line(1, &m.pcr1));
    assert_eq!(lines[24], "          ek    = 1184 bytes (encapsulation key)");
    assert_eq!(lines[27], format!("          SS = 0x{}", hex_str(&k)));
    assert_eq!(lines[28], pcr_line(2, &m.pcr2));
    assert_eq!(lines[36], "          | Stages verified: 3/3                        |");
    assert_eq!(lines[42], "  CHAIN OF TRUST: PASSED (3/3 stages)");
    assert!(lines.iter().filter(|l| l.contains("CHAIN OF TRUST")).count() == 1);
    assert_eq!(lines[51], "[done] halted.");
}

#[test]
fn firmware_report_failed_kem() {
    let (seed, ct, _) = kem_fixture();
    let mut image = image_info();
    image.text_address = 0x1f;
    let m = measure_boot(b"text", b"rodata", &seed, &ct, &[0u8; 32]);
    let lines = firmware_report(&m, &image);
    assert_eq!(lines.len(), 51);
    assert_eq!(lines[10], "          addr   = 0x0000001f");
    assert_eq!(lines[26], "          [FAIL] ML-KEM-768 shared secret MISMATCH");
    assert_eq!(lines[41], "  CHAIN OF TRUST: FAILED (2/3 stages)");
    assert_eq!(lines[lines.len() - 10], lines[41]);
    assert!(!lines.iter().any(|l| l.contains("PASSED")));
}

#[test]
fn host_reads_firmware_output() {
    let (seed, ct, k) = kem_fixture();
    let m = measure_boot(b"text", b"rodata", &seed, &ct, &k);
    let mut wire = Vec::new();
    uart_puts(&mut wire, "OpenSBI v1.3\n   Platform Name : riscv-virtio\n");
    for line in firmware_report(&m, &image_info()) {
        uart_puts(&mut wire, &line);
        uart_puts(&mut wire, "\n");
    }
    let received = String::from_utf8_lossy(&wire);
    let expected = expected_pcrs(b"text", b"rodata", &k);
    let r = compare_reported_pcrs(&expected, &received).unwrap();
    assert!(all_match(&r.matches));
    assert_eq!(r.values, [m.pcr0, m.pcr1, m.pcr2]);
}

#[test]
fn image_info_takes_section_and_key_lengths() {
    let text = [0x13u8; 300];
    let rodata = [7u8; 45];
    let ek = [0u8; 1184];
    let image = ImageInfo::new(0x8020_0000, &text, 0x8020_2000, &rodata, &[1u8; 64], &ek, &[2u8; 1088]);
    assert_eq!(image.text_address, 0x8020_0000);
    assert_eq!(image.text_len, 300);
    assert_eq!(image.rodata_address, 0x8020_2000);
    assert_eq!(image.rodata_len, 45);
    assert_eq!(image.dk_len, 64);
    assert_eq!(image.ek_len, 1184);
    assert_eq!(image.ct_len, 1088);
}

#[test]
fn measured_boot_report_prints_measured_sizes() {
    let (seed, ct, k) = kem_fixture();
    let text = [0x13u8; 300];
    let rodata = b"constants";
    let ek = [0u8; 1184];
    let (m, lines) =
        measured_boot_report(0x8020_0000, &text, 0x8020_1000, rodata, &seed, &ek, &ct, &k);
    assert_eq!(m.pcr0, measure_boot(&text, rodata, &seed, &ct, &k).pcr0);
    assert!(m.kem_ok);
    assert_eq!(lines.len(), 52);
    assert_eq!(lines[10], "          addr   = 0x80200000");
    assert_eq!(lines[11], "          size   = 300 bytes");
    assert_eq!(lines[16], "          addr   = 0x80201000");
    assert_eq!(lines[17], "          size   = 9 bytes");
    assert_eq!(lines[23], "          dk    = 64 bytes (seed-based)");
    assert_eq!(lines[24], "          ek    = 1184 bytes (encapsulation key)");
    assert_eq!(lines[25], "          ct    = 1088 bytes (ciphertext)");
    assert_eq!(lines[42], "  CHAIN OF TRUST: PASSED (3/3 stages)");
    let (m, lines) =
        measured_boot_report(0x8020_0000, &text, 0x8020_1000, rodata, &seed, &ek, &ct, &[9u8; 32]);
    assert!(!m.kem_ok);
    assert_eq!(m.stages_passed, 2);
    assert_eq!(lines[lines.len() - 10], "  CHAIN OF TRUST: FAILED (2/3 stages)");
}

#[test]
fn uart_bytes_without_carriage_returns_are_the_text() {
    let text = "a\nb\r\n\n\rc\n";
    let mut wire = Vec::new();
    uart_puts(&mut wire, text);
    assert_eq!(wire, b"a\r\nb\r\r\n\r\n\rc\r\n".to_vec());
    let mut back: Vec<u8> = Vec::new();
    for &b in &wire {
        if b == b'\n' && back.last() == Some(&b'\r') {
            back.pop();
        }
        back.push(b);
    }
    assert_eq!(back, text.as_bytes());
    let line_feeds = text.bytes().filter(|&b| b == b'\n').count();
    assert_eq!(wire.len(), text.len() + line_feeds);
}

#[test]
fn parse_pcr_reads_bare_record() {
    let pcr = [0x3cu8; 32];
    let output = format!("boot\nPCR[1] = 0x{}", hex_str(&pcr));
    assert_eq!(parse_pcr(&output, 1), Some(pcr));
    let output = format!("PCR[2] = 0x{}.", hex_str(&pcr));
    assert_eq!(parse_pcr(&output, 2), Some(pcr));
    assert_eq!(parse_pcr(&output, 1), None);
}
