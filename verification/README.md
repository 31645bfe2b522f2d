# fortis

Measured-boot logic for a bare-metal RISC-V chain of trust, with its
behaviour stated in Verus contracts and proved.

- `src/` — the library:
  - `digest` — SHA-256 (through `sha2`) and PCR extend;
  - `kem` — ML-KEM-768 decapsulation (through `ml-kem`) and the secret check;
  - `elf` — reading `.text`/`.rodata` from the firmware image (through `object`);
  - `chain` — the firmware's measurement, the host's expected PCRs, and the
    host's comparison of the two;
  - `boot_report` — the lines the firmware prints while it boots, with the
    addresses and sizes of the sections and keys it was handed;
  - `hex`, `report` — the hex text the firmware prints and its parser;
  - `const_array` — reading `pub const NAME: [u8; N] = [..];` from key files;
  - `uart` — the byte stream sent to the UART (`\n` as `\r\n`);
  - `laws`, `boot_laws`, `uart_laws`, `const_array_laws` — properties across
    functions: the host reads back, from the bytes the UART sends, the
    registers the firmware measured; the report says `PASSED (3/3 stages)`
    exactly when the key check succeeded, and a failed boot's output holds no
    `PASSED`; dropping the `\r` before each
    `\n` on the wire gives back the printed bytes; key files read back what
    was written.
- `app/` — the host verifier program (files, QEMU) and the UART/MMIO side of
  the firmware.
- `tests/` — tests of the library on concrete values.

`ml-kem` is built without its `alloc` feature, so the decapsulation key
is held inline rather than boxed, and the measurement (`measure_boot`,
`pcr_extend`, `kem_check`, `hex_fmt`) makes no allocation of its own. The
report (`firmware_report`, `measured_boot_report`), `uart_puts` and the
host-side parsers build `Vec`s and `String`s, so a firmware that prints
through them needs a heap. None of this is part of the proved contracts.
