use kernelcore::Kernel;
use kernelcore::MemoryRegion;
use kernelcore::SyscallOutcome;

fn put_u64(buf: &mut [u8], off: usize, v: u64) {
    buf[off..off + 8].copy_from_slice(&v.to_le_bytes());
}

fn put_u16(buf: &mut [u8], off: usize, v: u16) {
    buf[off..off + 2].copy_from_slice(&v.to_le_bytes());
}

/// A minimal static ELF64 executable: one read-write-execute load segment
/// of 16 bytes at 0x400000, entry point 0x401000.
fn tiny_elf() -> Vec<u8> {
    let mut b = vec![0u8; 4096 + 16];
    b[0] = 0x7f;
    b[1] = 0x45;
    b[2] = 0x4c;
    b[3] = 0x46;
    b[4] = 2; // 64-bit
    b[5] = 1; // little-endian
    b[0x10] = 2; // executable
    put_u64(&mut b, 0x18, 0x401000); // entry
    put_u64(&mut b, 0x20, 0x40); // program headers start
    put_u16(&mut b, 0x36, 56); // program header size
    put_u16(&mut b, 0x38, 1); // one header
    // the load segment: p_type 1, p_flags rwx
    put_u64(&mut b, 0x40, 1 | (7u64 << 32));
    put_u64(&mut b, 0x48, 4096); // file offset
    put_u64(&mut b, 0x50, 0x400000); // virtual address
    put_u64(&mut b, 0x60, 16); // file size
    put_u64(&mut b, 0x68, 16); // memory size
    put_u64(&mut b, 0x70, 4096); // alignment
    for i in 0..16 {
        b[4096 + i] = 0xc0 + i as u8;
    }
    b
}

fn tar_with(name: &str, contents: &[u8]) -> Vec<u8> {
    let mut a = vec![0u8; 512];
    a[..name.len()].copy_from_slice(name.as_bytes());
    let size = format!("{:011o}", contents.len());
    a[124..124 + 11].copy_from_slice(size.as_bytes());
    a.extend_from_slice(contents);
    while a.len() % 512 != 0 {
        a.push(0);
    }
    a.extend_from_slice(&[0u8; 512]);
    a
}

fn regions() -> Vec<MemoryRegion> {
    vec![
        MemoryRegion { start: 0, end: 0x8000, usable: false },
        MemoryRegion { start: 0x8000, end: 0x10000, usable: true },
        MemoryRegion { start: 0x10000, end: 0x400000, usable: true },
    ]
}

fn booted() -> Kernel {
    let image = tar_with("init", &tiny_elf());
    Kernel::boot(&regions(), &image, 25, 80, 42).unwrap()
}

const EFAULT: u64 = -14i64 as u64;
const ENOTTY: u64 = -25i64 as u64;
const ENOSYS: u64 = -38i64 as u64;
const EINVAL: u64 = -22i64 as u64;

#[test]
fn boot_reaches_user_entry() {
    // the init thread enters user space at the image's entry point: the
    // saved context carries the entry (handed to rcx by the trampoline)
    // and the user stack top
    let mut k = booted();
    let tid = k.processes.get_process(1).unwrap().thread;
    let th = k.threads.get(&tid).unwrap();
    assert_eq!(th.context.rbp, 0x401000);
    assert_eq!(th.context.rbx, 0x7fff_ffff_0000);
    // the scheduler dispatches the init thread first
    let switch = k.scheduler.yield_execution();
    assert_eq!(switch, Some((None, tid)));
}

#[test]
fn boot_loads_the_segment_and_stack() {
    let k = booted();
    let p = k.processes.get_process(1).unwrap();
    // segment bytes visible at their virtual addresses
    assert_eq!(p.aspace.read_byte(0x400000), Some(0xc0));
    assert_eq!(p.aspace.read_byte(0x40000f), Some(0xcf));
    assert_eq!(p.brk_initial, 0x400010);
    assert_eq!(p.brk, 0x400010);
    // System-V stack: argc, then the argv pointers, then the strings
    let argc = p.aspace.read_bytes(0x7fff_ffff_0000, 8).unwrap();
    assert_eq!(u64::from_le_bytes(argc.try_into().unwrap()), 3);
    let argv0 = p.aspace.read_bytes(0x7fff_ffff_0008, 8).unwrap();
    let argv0 = u64::from_le_bytes(argv0.try_into().unwrap());
    let s = p.aspace.read_bytes(argv0, 11).unwrap();
    assert_eq!(&s[..10], b"/init/init");
    assert_eq!(s[10], 0);
    // argv[argc] is the NUL slot
    let term = p.aspace.read_bytes(0x7fff_ffff_0000 + 8 + 24, 8).unwrap();
    assert_eq!(u64::from_le_bytes(term.try_into().unwrap()), 0);
}

#[test]
fn execve_rejects_malformed_images() {
    // a malformed image fails with InvalidHeader and leaves the user
    // mappings cleared
    let mut k = booted();
    let mut p = k.processes.take_process(1).unwrap();
    let mut th = k.threads.remove(&p.thread).unwrap();
    let mut bad = tiny_elf();
    bad[0] = 0;
    let r = p.execve(&mut k.pmm, &mut th, &bad, &vec![]);
    assert_eq!(r, Err(kernelcore::LoadingError::InvalidHeader));
    assert_eq!(p.aspace.read_byte(0x400000), None);
    assert_eq!(p.aspace.read_byte(0x7fff_ffff_0000), None);
}

#[test]
fn fork_copies_and_then_diverges() {
    // parent writes 0xAA; fork; the child sees 0xAA; the child's write of
    // 0x55 stays private
    let mut k = booted();
    let addr = 0x400008;
    let mut p = k.processes.take_process(1).unwrap();
    assert!(p.aspace.write_byte(addr, 0xaa));
    k.processes.add_process(p);
    let r = k.sys_fork(1);
    assert_eq!(r, SyscallOutcome::Ret(2));
    assert_eq!(
        k.processes.get_process(2).unwrap().aspace.read_byte(addr),
        Some(0xaa)
    );
    let mut child = k.processes.take_process(2).unwrap();
    assert!(child.aspace.write_byte(addr, 0x55));
    assert_eq!(child.aspace.read_byte(addr), Some(0x55));
    k.processes.add_process(child);
    assert_eq!(
        k.processes.get_process(1).unwrap().aspace.read_byte(addr),
        Some(0xaa)
    );
    // distinct backing frames
    let pf = k.processes.get_process(1).unwrap().aspace.translate(0x400).unwrap().0;
    let cf = k.processes.get_process(2).unwrap().aspace.translate(0x400).unwrap().0;
    assert_ne!(pf, cf);
    // the child's kernel stack carries the forked-entry trampoline
    let ctid = k.processes.get_process(2).unwrap().thread;
    let cth = k.threads.get(&ctid).unwrap();
    assert_eq!(cth.kstack[cth.kstack.len() - 7], 2);
}

#[test]
fn brk_reports_and_moves_the_break() {
    let mut k = booted();
    // brk(0) reports the current break
    assert_eq!(k.sys_brk(1, 0), 0x400010);
    // below the initial break: a no-op reporting the current break
    assert_eq!(k.sys_brk(1, 0x3fffff), 0x400010);
    // grow by three pages: fresh pages read zero
    assert_eq!(k.sys_brk(1, 0x403010), 0x403010);
    let p = k.processes.get_process(1).unwrap();
    assert_eq!(p.aspace.read_byte(0x401000), Some(0));
    assert_eq!(p.aspace.read_byte(0x402fff), Some(0));
    assert_eq!(p.brk, 0x403010);
    // shrink back: the vacated pages are gone
    assert_eq!(k.sys_brk(1, 0x400010), 0x400010);
    let p = k.processes.get_process(1).unwrap();
    assert_eq!(p.aspace.read_byte(0x401000), None);
    assert_eq!(p.aspace.read_byte(0x402fff), None);
    // the first page of the break region stays mapped with its contents
    assert_eq!(p.aspace.read_byte(0x400008), Some(0xc8));
}

#[test]
fn kernel_half_pointers_fault() {
    // a buffer with bit 63 set returns -EFAULT and consumes nothing
    let mut k = booted();
    let r = k.handle_syscall_inner(1, 1, 0, 0xffff_8000_0000_0000, 1, 0);
    assert_eq!(r, SyscallOutcome::Ret(EFAULT));
    let r = k.handle_syscall_inner(1, 0, 0, 0x7fff_ffff_ffff_ffff, 2, 0);
    assert_eq!(r, SyscallOutcome::Ret(EFAULT));
    // zero-length buffers with a valid base are accepted past validation
    let r = k.handle_syscall_inner(1, 0, 99, 0x400000, 0, 0);
    assert_ne!(r, SyscallOutcome::Ret(EFAULT));
}

#[test]
fn open_write_read_console_through_syscalls() {
    let mut k = booted();
    // stage "/dev/console" and "hi\n" in the process's memory
    let mut p = k.processes.take_process(1).unwrap();
    let path = b"/dev/console\0";
    for (i, b) in path.iter().enumerate() {
        assert!(p.aspace.write_byte(0x400000 + i as u64, *b));
    }
    k.processes.add_process(p);
    let fd = k.sys_open(1, 0x400000, 1);
    assert_eq!(fd, 0);
    let mut p = k.processes.take_process(1).unwrap();
    for (i, b) in b"hi\n".iter().enumerate() {
        assert!(p.aspace.write_byte(0x400020 + i as u64, *b));
    }
    k.processes.add_process(p);
    // write(fd, "hi\n", 3) returns 3 and the text shows on the screen
    let r = k.handle_syscall_inner(1, 1, fd, 0x400020, 3, 0);
    assert_eq!(r, SyscallOutcome::Ret(3));
    assert_eq!(k.vfs.console_char_at(1, 0, 0), Some(b'h'));
    assert_eq!(k.vfs.console_char_at(1, 0, 1), Some(b'i'));
    assert_eq!(k.vfs.console_cursor_of(1), Some((1, 0)));
    // reading with write-only access is -EBADF
    let r = k.handle_syscall_inner(1, 0, fd, 0x400020, 3, 0);
    assert_eq!(r, SyscallOutcome::Ret(-9i64 as u64));
}

#[test]
fn console_read_blocks_then_wakes() {
    // the read blocks, the keystrokes arrive, the woken retry succeeds
    let mut k = booted();
    let mut p = k.processes.take_process(1).unwrap();
    let path = b"/dev/console\0";
    for (i, b) in path.iter().enumerate() {
        assert!(p.aspace.write_byte(0x400000 + i as u64, *b));
    }
    k.processes.add_process(p);
    let fd = k.sys_open(1, 0x400000, 2);
    let r = k.handle_syscall_inner(1, 0, fd, 0x400040, 16, 0);
    assert_eq!(r, SyscallOutcome::Block);
    // the thread parks as the console waiter
    let tid = k.processes.get_process(1).unwrap().thread;
    k.block_on_console(1, tid);
    // keystrokes a, b, enter from the interrupt path wake it
    k.on_scancode(1, 0x1e);
    k.on_scancode(1, 0x30);
    k.on_scancode(1, 0x1c);
    // the retried read completes
    let r = k.handle_syscall_inner(1, 0, fd, 0x400040, 16, 0);
    assert_eq!(r, SyscallOutcome::Ret(3));
    let p = k.processes.get_process(1).unwrap();
    let got = p.aspace.read_bytes(0x400040, 3).unwrap();
    assert_eq!(got, b"ab\n");
}

#[test]
fn small_syscalls_answer_exactly() {
    let mut k = booted();
    assert_eq!(k.handle_syscall_inner(1, 16, 0, 0, 0, 0), SyscallOutcome::Ret(ENOTTY));
    assert_eq!(k.handle_syscall_inner(1, 3, 5, 0, 0, 0), SyscallOutcome::Ret(0));
    assert_eq!(k.handle_syscall_inner(1, 9999, 0, 0, 0, 0), SyscallOutcome::Ret(ENOSYS));
    assert_eq!(k.handle_syscall_inner(1, 60, 7, 0, 0, 0), SyscallOutcome::Exit(7));
    assert_eq!(k.handle_syscall_inner(1, 231, 3, 0, 0, 0), SyscallOutcome::Exit(3));
    // arch_prctl: set FS succeeds for a user address, rejects others
    assert_eq!(k.handle_syscall_inner(1, 158, 0x1002, 0x5000, 0, 0), SyscallOutcome::Ret(0));
    assert_eq!(k.fs_base, 0x5000);
    assert_eq!(
        k.handle_syscall_inner(1, 158, 0x1002, 0xffff_8000_0000_0000, 0, 0),
        SyscallOutcome::Ret(EFAULT)
    );
    assert_eq!(k.handle_syscall_inner(1, 158, 0x1001, 0, 0, 0), SyscallOutcome::Ret(EINVAL));
}

#[test]
fn execve_syscall_replaces_the_program() {
    let mut k = booted();
    let mut p = k.processes.take_process(1).unwrap();
    let path = b"/init/init\0";
    for (i, b) in path.iter().enumerate() {
        assert!(p.aspace.write_byte(0x400000 + i as u64, *b));
    }
    k.processes.add_process(p);
    let r = k.sys_execve(1, 0x400000, 0);
    assert_eq!(r, SyscallOutcome::Exec);
    // the thread restarts at the user-space entry trampoline
    let tid = k.processes.get_process(1).unwrap().thread;
    let th = k.threads.get(&tid).unwrap();
    assert_eq!(th.kstack[th.kstack.len() - 1], 1);
    assert_eq!(th.context.rbp, 0x401000);
}

#[test]
fn offsets_move_only_for_the_written_descriptor() {
    // a write on one descriptor never changes any other descriptor's
    // offset; fork shares descriptors, so the child sees the advance
    let mut k = booted();
    let mut p = k.processes.take_process(1).unwrap();
    for (i, b) in b"/dev/console\0".iter().enumerate() {
        assert!(p.aspace.write_byte(0x400000 + i as u64, *b));
    }
    k.processes.add_process(p);
    let fd_a = k.sys_open(1, 0x400000, 1) as u32;
    let fd_b = k.sys_open(1, 0x400000, 1) as u32;
    assert_ne!(fd_a, fd_b);
    let r = k.sys_fork(1);
    assert_eq!(r, SyscallOutcome::Ret(2));
    // write three bytes through fd_a of the parent
    let mut p = k.processes.take_process(1).unwrap();
    for (i, b) in b"ok
".iter().enumerate() {
        assert!(p.aspace.write_byte(0x400020 + i as u64, *b));
    }
    k.processes.add_process(p);
    let r = k.handle_syscall_inner(1, 1, fd_a as u64, 0x400020, 3, 0);
    assert_eq!(r, SyscallOutcome::Ret(3));
    // fd_a advanced; fd_b did not
    let ha = *k.processes.get_process(1).unwrap().files.get(&fd_a).unwrap();
    let hb = *k.processes.get_process(1).unwrap().files.get(&fd_b).unwrap();
    assert_eq!(k.descriptors.get(&ha).unwrap().offset, 3);
    assert_eq!(k.descriptors.get(&hb).unwrap().offset, 0);
    // the child's fd_a is the same shared descriptor
    let hc = *k.processes.get_process(2).unwrap().files.get(&fd_a).unwrap();
    assert_eq!(hc, ha);
    assert_eq!(k.descriptors.get(&hc).unwrap().offset, 3);
}

#[test]
fn execve_loads_an_unaligned_segment() {
    // linkers commonly emit segments whose virtual address is not
    // page-aligned; the loader must place the bytes at that address
    let mut k = booted();
    let mut b = tiny_elf();
    put_u64(&mut b, 0x50, 0x400123); // unaligned virtual address
    let mut p = k.processes.take_process(1).unwrap();
    let mut th = k.threads.remove(&p.thread).unwrap();
    let r = p.execve(&mut k.pmm, &mut th, &b, &vec![b"init".to_vec()]);
    assert!(r.is_ok());
    assert_eq!(p.aspace.read_byte(0x400123), Some(0xc0));
    assert_eq!(p.aspace.read_byte(0x400123 + 15), Some(0xcf));
    // bytes before the segment on the same page read as zero
    assert_eq!(p.aspace.read_byte(0x400122), Some(0));
}
