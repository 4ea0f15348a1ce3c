use physmem::arch::cpuinfo::{
    status_report, vector_table_address, ControlBits, HIGH_VECTORS,
};
use physmem::kernel::console::{key_action, KeyAction};

#[test]
fn status_with_everything_off() {
    let bits = ControlBits { mmu: false, hivecs: false, exception_endian: false, tex_remap: false };
    let report = status_report(&bits);
    assert_eq!(report.mmu, "MMU is off.");
    assert_eq!(report.hivecs, "Hivecs are off.");
    assert_eq!(report.endianness, "Exceptions are taken in little endian ");
    assert_eq!(report.instruction_set, "and in arm mode.");
    assert_eq!(report.tex_remap, "Tex Remap disabled.");
}

#[test]
fn status_with_everything_on() {
    let bits = ControlBits { mmu: true, hivecs: true, exception_endian: true, tex_remap: true };
    let report = status_report(&bits);
    assert_eq!(report.mmu, "MMU is on.");
    assert_eq!(report.hivecs, "Hivecs are on.");
    assert_eq!(report.endianness, "Exceptions are taken in big endian ");
    assert_eq!(report.instruction_set, "and in thumb mode.");
    assert_eq!(report.tex_remap, "Tex Remap enabled.");
}

#[test]
fn status_texts_go_by_their_own_bits() {
    let bits = ControlBits { mmu: true, hivecs: false, exception_endian: false, tex_remap: true };
    let report = status_report(&bits);
    assert_eq!(report.mmu, "MMU is on.");
    assert_eq!(report.hivecs, "Hivecs are off.");
    assert_eq!(report.endianness, "Exceptions are taken in little endian ");
    assert_eq!(report.instruction_set, "and in arm mode.");
    assert_eq!(report.tex_remap, "Tex Remap enabled.");
}

#[test]
fn vector_table_place() {
    assert_eq!(HIGH_VECTORS, 0xffff_ff00);
    assert_eq!(vector_table_address(true, 0x8000_5000), 0xffff_ff00);
    assert_eq!(vector_table_address(false, 0x8000_5000), 0x8000_5000);
    assert_eq!(vector_table_address(false, 0), 0);
}

#[test]
fn keys_of_the_console() {
    assert_eq!(key_action('q'), KeyAction::BreakThenEcho);
    assert_eq!(key_action('p'), KeyAction::Panic);
    assert_eq!(key_action('a'), KeyAction::Echo);
    assert_eq!(key_action('Q'), KeyAction::Echo);
    assert_eq!(key_action('P'), KeyAction::Echo);
    assert_eq!(key_action('\n'), KeyAction::Echo);
}
