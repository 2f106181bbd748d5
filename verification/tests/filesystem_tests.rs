use kernelcore::Console;
use kernelcore::Devfs;
use kernelcore::FileType;
use kernelcore::Filesystem;
use kernelcore::Inode;
use kernelcore::MountedFilesystem;
use kernelcore::Ramdisk;
use kernelcore::VirtualFileSystem;

fn console_inode() -> Inode {
    Inode {
        dev: 1,
        inode: 1,
        file_type: FileType::Device,
        size: 0,
        major: Some(1),
        minor: Some(1),
    }
}

/// A one-file ustar archive, as the boot environment would hand it over.
fn tar_with(name: &str, contents: &[u8]) -> Vec<u8> {
    let mut a = vec![0u8; 512];
    a[..name.len()].copy_from_slice(name.as_bytes());
    let size = format!("{:011o}", contents.len());
    a[124..124 + 11].copy_from_slice(size.as_bytes());
    a.extend_from_slice(contents);
    while a.len() % 512 != 0 {
        a.push(0);
    }
    a.extend_from_slice(&[0u8; 512]);
    a
}

#[test]
fn tar_parse_one_file() {
    let archive = tar_with("./hello", b"hello world!");
    let disk = Ramdisk::from_tar(2, &archive);
    let root = disk.inode(2, 0).unwrap();
    assert_eq!(root.file_type, FileType::Directory);
    let entries = disk.readdir(&root).unwrap();
    assert_eq!(entries.len(), 1);
    // the leading "./" is stripped from the stored name
    assert_eq!(entries[0].name, "hello");
    assert_eq!(entries[0].inode, 1);
    let file = disk.inode(2, 1).unwrap();
    assert_eq!(file.size, 12);
    let mut disk = disk;
    let data = disk.read(&file, 0, 100).unwrap();
    assert_eq!(data, b"hello world!");
}

#[test]
fn ramdisk_read_spans_and_offsets() {
    let files = vec![("a".to_string(), b"0123456789".to_vec())];
    let mut disk = Ramdisk::from_files(2, &files);
    let file = disk.inode(2, 1).unwrap();
    assert_eq!(disk.read(&file, 3, 4).unwrap(), b"3456");
    assert_eq!(disk.read(&file, 8, 10).unwrap(), b"89");
    assert_eq!(disk.read(&file, 10, 4).unwrap(), b"");
    assert_eq!(disk.read(&file, 100, 4).unwrap(), b"");
}

#[test]
fn ramdisk_is_read_only() {
    let files = vec![("a".to_string(), b"x".to_vec())];
    let mut disk = Ramdisk::from_files(2, &files);
    let file = disk.inode(2, 1).unwrap();
    assert!(disk.write(&file, 0, b"y").is_err());
    assert_eq!(disk.read(&file, 0, 1).unwrap(), b"x");
}

fn demo_vfs() -> VirtualFileSystem {
    let console = Console::new(8, 16);
    let devfs = Devfs::init(console, 1);
    let files = vec![("init".to_string(), b"ELFDATA".to_vec())];
    let disk = Ramdisk::from_files(2, &files);
    let mut vfs = VirtualFileSystem::new();
    vfs.mount(1, MountedFilesystem::Dev(devfs), "dev", 0).unwrap();
    vfs.mount(2, MountedFilesystem::Disk(disk), "init", 0).unwrap();
    vfs
}

#[test]
fn traverse_crosses_mounts() {
    let vfs = demo_vfs();
    let root = vfs.root();
    let node = vfs.traverse_fs(&root, "/init/init").unwrap();
    assert_eq!(node.dev, 2);
    assert_eq!(node.inode, 1);
    assert_eq!(node.size, 7);
    let con = vfs.traverse_fs(&root, "/dev/console").unwrap();
    assert_eq!((con.dev, con.inode), (1, 1));
    assert_eq!((con.major, con.minor), (Some(1), Some(1)));
}

#[test]
fn traverse_ignores_empty_segments() {
    // leading and doubled separators give the same result
    let vfs = demo_vfs();
    let root = vfs.root();
    let a = vfs.traverse_fs(&root, "/init/init").unwrap();
    let b = vfs.traverse_fs(&root, "init/init").unwrap();
    let c = vfs.traverse_fs(&root, "//init///init/").unwrap();
    assert_eq!((a.dev, a.inode), (b.dev, b.inode));
    assert_eq!((a.dev, a.inode), (c.dev, c.inode));
}

#[test]
fn traverse_composes() {
    // resolving "/a/b" equals resolving "a" and then "b" from there
    let vfs = demo_vfs();
    let root = vfs.root();
    let dir = vfs.traverse_fs(&root, "/init").unwrap();
    let via_dir = vfs.traverse_fs(&dir, "init").unwrap();
    let direct = vfs.traverse_fs(&root, "/init/init").unwrap();
    assert_eq!((via_dir.dev, via_dir.inode), (direct.dev, direct.inode));
}

#[test]
fn traverse_missing_is_not_found() {
    let vfs = demo_vfs();
    let root = vfs.root();
    assert!(vfs.traverse_fs(&root, "/nope").is_err());
    assert!(vfs.traverse_fs(&root, "/init/nope").is_err());
}

#[test]
fn read_whole_file_through_vfs() {
    let mut vfs = demo_vfs();
    let data = kernelcore::read(&mut vfs, "/init/init").unwrap();
    assert_eq!(data, b"ELFDATA");
}

#[test]
fn console_write_shows_text_and_moves_cursor() {
    // write to the console: screen shows the text, cursor on the next line
    let mut vfs = demo_vfs();
    let con = console_inode();
    let n = vfs.write(&con, 0, b"hi\n").unwrap();
    assert_eq!(n, 3);
    assert_eq!(vfs.console_char_at(1, 0, 0), Some(b'h'));
    assert_eq!(vfs.console_char_at(1, 0, 1), Some(b'i'));
    assert_eq!(vfs.console_cursor_of(1), Some((1, 0)));
}

#[test]
fn console_grid_scrolls_and_backspaces() {
    let mut console = Console::new(3, 8);
    console.write(b"one\ntwo\nthree\nfour");
    // three rows: after four lines the first scrolled away
    assert_eq!(console.char_at(0, 0), b't');
    assert_eq!(console.char_at(0, 1), b'w');
    assert_eq!(console.char_at(1, 0), b't');
    assert_eq!(console.char_at(2, 0), b'f');
    let mut c2 = Console::new(3, 8);
    c2.write(b"ab\x08c");
    assert_eq!(c2.char_at(0, 0), b'a');
    assert_eq!(c2.char_at(0, 1), b'c');
}

#[test]
fn keyboard_scancodes_complete_a_line() {
    // keystrokes a, b, enter arrive from the interrupt path; the read
    // returns the completed line
    let console = Console::new(8, 16);
    let mut devfs = Devfs::init(console, 1);
    assert_eq!(devfs.push_scancode(0x1e), None);
    assert_eq!(devfs.push_scancode(0x30), None);
    assert_eq!(devfs.push_scancode(0x1c), None);
    let got = devfs.read(&console_inode(), 0, 16).unwrap();
    assert_eq!(got, b"ab\n");
    // the echo reached the console grid
    assert_eq!(devfs.console_char_at(0, 0), b'a');
    assert_eq!(devfs.console_char_at(0, 1), b'b');
}

#[test]
fn keyboard_read_blocks_until_newline() {
    let console = Console::new(8, 16);
    let mut devfs = Devfs::init(console, 1);
    devfs.push_scancode(0x1e);
    // only "a" is pending: a 16-byte read must wait
    assert!(devfs.read(&console_inode(), 0, 16).is_err());
    devfs.set_waiting(Some(7));
    // the next scancode reports the waiter to wake
    assert_eq!(devfs.push_scancode(0x1c), Some(7));
    let got = devfs.read(&console_inode(), 0, 16).unwrap();
    assert_eq!(got, b"a\n");
}

#[test]
fn zero_length_console_read_succeeds() {
    // a zero-length read completes at once, with nothing consumed
    let console = Console::new(8, 16);
    let mut devfs = Devfs::init(console, 1);
    let got = devfs.read(&console_inode(), 0, 0).unwrap();
    assert_eq!(got.len(), 0);
}

#[test]
fn end_of_file_byte_arrives_as_nul() {
    // control-D ends the read; the end-of-file byte travels as NUL and
    // the count includes it
    let console = Console::new(8, 16);
    let mut devfs = Devfs::init(console, 1);
    devfs.push_scancode(0x1e); // a
    devfs.push_scancode(0x1d); // control down
    devfs.push_scancode(0x20); // d
    devfs.push_scancode(0x9d); // control up
    let got = devfs.read(&console_inode(), 0, 16).unwrap();
    assert_eq!(got, vec![b'a', 0]);
}

#[test]
fn devfs_lists_the_console() {
    let console = Console::new(8, 16);
    let devfs = Devfs::init(console, 1);
    let root = devfs.inode(1, 0).unwrap();
    let entries = devfs.readdir(&root).unwrap();
    assert_eq!(entries.len(), 1);
    assert_eq!(entries[0].name, "console");
    assert_eq!(entries[0].inode, 1);
}

#[test]
fn vfs_routes_errors() {
    let mut vfs = demo_vfs();
    // an unknown device id
    let bad = Inode { dev: 9, inode: 1, file_type: FileType::File, size: 0, major: None, minor: None };
    assert!(vfs.read(&bad, 0, 4).is_err());
    // a directory is the wrong kind for read
    let root = vfs.root();
    assert!(vfs.read(&root, 0, 4).is_err());
}

#[test]
fn tar_parses_several_files() {
    // two files in one archive, indexed in order
    let mut a = tar_with("first", b"11");
    a.truncate(a.len() - 512); // drop the terminator, append another entry
    let second = tar_with("second", b"2222");
    a.extend_from_slice(&second);
    let mut disk = Ramdisk::from_tar(2, &a);
    let root = disk.inode(2, 0).unwrap();
    let entries = disk.readdir(&root).unwrap();
    assert_eq!(entries.len(), 2);
    assert_eq!(entries[0].name, "first");
    assert_eq!(entries[1].name, "second");
    let f2 = disk.inode(2, 2).unwrap();
    assert_eq!(disk.read(&f2, 0, 8).unwrap(), b"2222");
}

#[test]
fn scancode_ring_drops_the_oldest_on_overflow() {
    // 120 keystrokes overflow the 100-slot ring; the oldest are lost and
    // the completed line holds what stayed
    let console = Console::new(50, 80);
    let mut devfs = Devfs::init(console, 1);
    for _ in 0..120 {
        devfs.push_scancode(0x1e); // a
    }
    devfs.push_scancode(0x1c); // enter, displacing one more
    let got = devfs.read(&console_inode(), 0, 200).unwrap();
    assert_eq!(got.len(), 100);
    assert_eq!(*got.last().unwrap(), b'\n');
    assert!(got[..99].iter().all(|b| *b == b'a'));
}

#[test]
fn lone_newline_line_reads_as_zero_bytes() {
    // an empty line (enter alone) completes a pending read with a
    // zero-length success; the newline is consumed
    let console = Console::new(8, 16);
    let mut devfs = Devfs::init(console, 1);
    devfs.push_scancode(0x1c); // enter
    let got = devfs.read(&console_inode(), 0, 16).unwrap();
    assert_eq!(got.len(), 0);
    // the newline is gone: the next read must wait again
    assert!(devfs.read(&console_inode(), 0, 16).is_err());
}
