use kernelcore::IoApic;
use kernelcore::Lapic;
use kernelcore::LoadingError;
use kernelcore::ProgramHeaderEntry;
use kernelcore::TimerDivideConfig;

fn put_u64(buf: &mut [u8], off: usize, v: u64) {
    buf[off..off + 8].copy_from_slice(&v.to_le_bytes());
}

fn put_u16(buf: &mut [u8], off: usize, v: u16) {
    buf[off..off + 2].copy_from_slice(&v.to_le_bytes());
}

fn header_only_elf() -> Vec<u8> {
    let mut b = vec![0u8; 0x100];
    b[0] = 0x7f;
    b[1] = 0x45;
    b[2] = 0x4c;
    b[3] = 0x46;
    b[4] = 2;
    b[5] = 1;
    b[0x10] = 2;
    put_u64(&mut b, 0x18, 0xbeef);
    put_u64(&mut b, 0x20, 0x40);
    put_u16(&mut b, 0x36, 56);
    put_u16(&mut b, 0x38, 1);
    put_u64(&mut b, 0x40, 1 | (5u64 << 32));
    put_u64(&mut b, 0x48, 0);
    put_u64(&mut b, 0x50, 0x10000);
    put_u64(&mut b, 0x60, 8);
    put_u64(&mut b, 0x68, 32);
    put_u64(&mut b, 0x70, 4096);
    b
}

#[test]
fn elf_headers_parse_exactly() {
    let b = header_only_elf();
    let hs = kernelcore::parse_program_headers(&b).unwrap();
    assert_eq!(hs.len(), 1);
    let h: ProgramHeaderEntry = hs[0];
    assert_eq!(h.segment_type, 1 | (5u64 << 32));
    assert_eq!(h.offset, 0);
    assert_eq!(h.virtual_address, 0x10000);
    assert_eq!(h.image_size, 8);
    assert_eq!(h.mem_size, 32);
    assert_eq!(kernelcore::entry_point(&b), 0xbeef);
}

#[test]
fn elf_rejects_bad_magic_and_short_images() {
    let mut b = header_only_elf();
    b[1] = b'F';
    assert_eq!(kernelcore::parse_program_headers(&b), Err(LoadingError::InvalidHeader));
    let short = vec![0x7f, 0x45, 0x4c, 0x46];
    assert_eq!(kernelcore::parse_program_headers(&short), Err(LoadingError::InvalidHeader));
    let mut b = header_only_elf();
    b[4] = 1; // 32-bit
    assert_eq!(kernelcore::parse_program_headers(&b), Err(LoadingError::InvalidHeader));
    let mut b = header_only_elf();
    put_u16(&mut b, 0x36, 40); // undersized program headers
    assert_eq!(kernelcore::parse_program_headers(&b), Err(LoadingError::InvalidHeader));
    let mut b = header_only_elf();
    put_u64(&mut b, 0x20, 0xfff0); // header table past the image
    assert_eq!(kernelcore::parse_program_headers(&b), Err(LoadingError::InvalidHeader));
}

#[test]
fn lapic_enable_and_timer_sequence() {
    let mut apic = Lapic::new(0xff);
    // the enable sequence: spurious vector with bit 8, flat destination
    // format, task priority accepting everything
    assert_eq!(apic.lapic_id(), 0);
    apic.configure_timer(0x31, 1_000_000, TimerDivideConfig::DivideBy16);
    apic.end_of_interrupt();
    let _ = apic;
}

#[test]
fn timer_divide_encodings() {
    assert_eq!(TimerDivideConfig::DivideBy2.value(), 0b0000);
    assert_eq!(TimerDivideConfig::DivideBy16.value(), 0b0011);
    assert_eq!(TimerDivideConfig::DivideBy32.value(), 0b1000);
    assert_eq!(TimerDivideConfig::DivideBy1.value(), 0b1011);
}

#[test]
fn ioapic_routes_the_keyboard() {
    let mut io = IoApic::new();
    io.set_ioredtbl(1, 0x41, 0);
    let _ = io;
}

#[test]
fn keyboard_gsi_prefers_the_override() {
    let overrides = vec![(3u8, 9u32), (1u8, 20u32)];
    assert_eq!(kernelcore::keyboard_gsi(&overrides, 0), 20);
    let none: Vec<(u8, u32)> = vec![];
    assert_eq!(kernelcore::keyboard_gsi(&none, 0), 1);
    let other = vec![(3u8, 9u32)];
    assert_eq!(kernelcore::keyboard_gsi(&other, 4), 5);
}
