//! Device filesystem: one character device, `console`, at (major 1,
//! minor 1), fed by the PS/2 keyboard and writing to the framebuffer
//! console grid.
//!
//! The keyboard interrupt pushes raw scancodes into a fixed-size lossy
//! ring (the oldest scancode is dropped on overflow) and reports which
//! thread, if any, waits for input. Scancodes are decoded to characters
//! lazily inside `read`: decoded bytes are echoed to the console and
//! appended to a pending-input line. A read completes once the pending
//! input fills the caller's buffer or ends in a newline or an end-of-file
//! byte (0x04, handed over as NUL); otherwise it asks to wait.

use vstd::prelude::*;

use crate::console::Console;
use crate::ramdisk::copy_range;
use crate::vfs::DirectoryEntry;
use crate::vfs::FileType;
use crate::vfs::Filesystem;
use crate::vfs::FilesystemError;
use crate::vfs::Inode;
use crossbeam_queue::ArrayQueue;
use pc_keyboard::layouts::Us104Key;
use pc_keyboard::DecodedKey;
use pc_keyboard::EventDecoder;
use pc_keyboard::HandleControl;
use pc_keyboard::KeyEvent;
use pc_keyboard::ScancodeSet1;

verus! {

/// End-of-file marker byte received from the keyboard (control-D).
pub const EOF_BYTE: u8 = 4;

/// How many raw scancodes the ring keeps before dropping the oldest.
pub const SCANCODE_QUEUE_CAPACITY: usize = 100;

#[verifier::external_type_specification]
#[verifier::external_body]
#[verifier::reject_recursive_types(T)]
pub struct ExArrayQueue<T>(ArrayQueue<T>);

#[verifier::external_type_specification]
#[verifier::external_body]
pub struct ExKeyEvent(KeyEvent);

/// The keyboard decoding state: scancode-set-1 stream state plus the
/// US 104-key event decoder with letters mapped to Unicode. Opaque to the
/// verifier; only the trusted wrappers below touch it.
#[verifier::external_body]
pub struct KeyDecoder {
    scancode_set: ScancodeSet1,
    event_decoder: EventDecoder<Us104Key>,
}

/// What the scancode ring holds, oldest first.
pub uninterp spec fn queue_contents(q: ArrayQueue<u8>) -> Seq<u8>;

/// The fixed capacity the ring was created with.
pub uninterp spec fn queue_capacity(q: ArrayQueue<u8>) -> nat;

/// Relies on crossbeam_queue::ArrayQueue::new: an empty queue with the
/// given capacity (which must not be zero: new panics on zero).
#[verifier::external_body]
fn scancode_queue_new(cap: usize) -> (q: ArrayQueue<u8>)
    requires
        cap > 0,
    ensures
        queue_contents(q) == Seq::<u8>::empty(),
        queue_capacity(q) == cap,
{
    ArrayQueue::new(cap)
}

/// Relies on crossbeam_queue::ArrayQueue::force_push: appends the value;
/// when the queue is full the oldest element is dropped to make room.
#[verifier::external_body]
fn scancode_queue_force_push(q: &mut ArrayQueue<u8>, v: u8)
    ensures
        queue_capacity(*final(q)) == queue_capacity(*old(q)),
        queue_contents(*old(q)).len() < queue_capacity(*old(q)) ==> queue_contents(*final(q))
            == queue_contents(*old(q)).push(v),
        queue_contents(*old(q)).len() >= queue_capacity(*old(q)) ==> queue_contents(*final(q))
            == queue_contents(*old(q)).drop_first().push(v),
{
    q.force_push(v);
}

/// Relies on crossbeam_queue::ArrayQueue::pop_mut: removes and returns the
/// oldest element, or nothing when the queue is empty.
#[verifier::external_body]
fn scancode_queue_pop(q: &mut ArrayQueue<u8>) -> (r: Option<u8>)
    ensures
        queue_capacity(*final(q)) == queue_capacity(*old(q)),
        match r {
            Option::Some(v) => queue_contents(*old(q)).len() > 0 && v == queue_contents(*old(q))[0]
                && queue_contents(*final(q)) == queue_contents(*old(q)).drop_first(),
            Option::None => queue_contents(*old(q)).len() == 0 && queue_contents(*final(q))
                == queue_contents(*old(q)),
        },
{
    q.pop_mut()
}

/// Relies on pc_keyboard::ScancodeSet1::new and
/// pc_keyboard::EventDecoder::new: fresh decoding state for scancode set 1
/// and the US 104-key layout, letters mapped to Unicode.
#[verifier::external_body]
fn key_decoder_new() -> KeyDecoder {
    KeyDecoder {
        scancode_set: ScancodeSet1::new(),
        event_decoder: EventDecoder::new(Us104Key, HandleControl::MapLettersToUnicode),
    }
}

/// Relies on pc_keyboard::ScancodeSet::advance_state for set 1: feeds one
/// byte of the scancode stream and yields a key event once one completes.
/// Malformed scancodes are dropped (nothing can be promised of the
/// decoder's opaque state).
#[verifier::external_body]
fn advance_scancode(dec: &mut KeyDecoder, code: u8) -> (r: Option<KeyEvent>) {
    match pc_keyboard::ScancodeSet::advance_state(&mut dec.scancode_set, code) {
        Ok(ev) => ev,
        Err(_) => None,
    }
}

/// Relies on pc_keyboard::EventDecoder::process_keyevent: turns a key
/// event into at most one decoded key; only Unicode keys carry input.
#[verifier::external_body]
fn decode_keyevent(dec: &mut KeyDecoder, ev: KeyEvent) -> (r: Option<char>) {
    match dec.event_decoder.process_keyevent(ev) {
        Some(DecodedKey::Unicode(c)) => Some(c),
        Some(DecodedKey::RawKey(_)) => None,
        None => None,
    }
}

/// The UTF-8 encoding of a character.
pub uninterp spec fn utf8_bytes(c: char) -> Seq<u8>;

/// Relies on char::encode_utf8: the UTF-8 encoding of the character, one
/// to four bytes, a single byte with the character's value when it is
/// ASCII.
#[verifier::external_body]
fn encode_char(c: char) -> (r: Vec<u8>)
    ensures
        r@ == utf8_bytes(c),
        1 <= r@.len() <= 4,
        (c as u32) < 128 ==> r@ =~= seq![(c as u8)],
{
    let mut buf = [0u8; 4];
    let s: &str = c.encode_utf8(&mut buf);
    s.as_bytes().to_vec()
}

/// A console read may complete when the pending input already fills the
/// request, or a line has been finished with newline or the end-of-file
/// byte.
pub open spec fn read_ready(pending: Seq<u8>, count: usize) -> bool {
    ||| pending.len() >= count
    ||| (pending.len() > 0 && (pending.last() == 10u8 || pending.last() == EOF_BYTE))
}

/// The pending line is a lone newline: an empty line was entered, which
/// a read reports as a zero-length success, consuming the newline.
pub open spec fn lone_newline(pending: Seq<u8>) -> bool {
    pending.len() == 1 && pending[0] == 10u8
}

/// The pending input with a trailing end-of-file byte replaced by NUL.
pub open spec fn eof_swapped(pending: Seq<u8>) -> Seq<u8> {
    if pending.len() > 0 && pending.last() == EOF_BYTE {
        pending.update(pending.len() - 1, 0u8)
    } else {
        pending
    }
}

pub open spec fn take_len(pending: Seq<u8>, count: usize) -> int {
    if count <= pending.len() {
        count as int
    } else {
        pending.len() as int
    }
}

/// What a completed read of `count` bytes returns: the pending prefix
/// with a trailing end-of-file byte as NUL; a lone newline is an empty
/// line and yields nothing.
pub open spec fn consumed_bytes(pending: Seq<u8>, count: usize) -> Seq<u8> {
    if lone_newline(pending) {
        Seq::empty()
    } else {
        eof_swapped(pending).take(take_len(pending, count))
    }
}

/// What stays pending after a completed read of `count` bytes; a lone
/// newline is consumed whole.
pub open spec fn pending_rest(pending: Seq<u8>, count: usize) -> Seq<u8> {
    if lone_newline(pending) {
        Seq::empty()
    } else {
        eof_swapped(pending).skip(take_len(pending, count))
    }
}

/// Mathematical state of the device filesystem.
pub struct DevfsView {
    pub dev: u32,
    pub console: crate::console::ConsoleView,
    pub pending: Seq<u8>,
    pub queue: Seq<u8>,
    pub waiting: Option<u32>,
    pub root_entries: Seq<DirectoryEntry>,
}

/// The device filesystem: a root directory and the `console` device.
pub struct Devfs {
    console: Console,
    root: Inode,
    console_inode: Inode,
    root_entries: Vec<DirectoryEntry>,
    pending_input: Vec<u8>,
    scancodes: ArrayQueue<u8>,
    decoder: KeyDecoder,
    waiting_thread: Option<u32>,
}

impl View for Devfs {
    type V = DevfsView;

    closed spec fn view(&self) -> DevfsView {
        DevfsView {
            dev: self.root.dev,
            console: self.console@,
            pending: self.pending_input@,
            queue: queue_contents(self.scancodes),
            waiting: self.waiting_thread,
            root_entries: self.root_entries@,
        }
    }
}

impl Devfs {
    pub open spec fn spec_root_inode(dev: u32) -> Inode {
        Inode {
            dev,
            inode: 0,
            file_type: FileType::Directory,
            size: 0,
            major: Option::None,
            minor: Option::None,
        }
    }

    pub open spec fn spec_console_inode(dev: u32) -> Inode {
        Inode {
            dev,
            inode: 1,
            file_type: FileType::Device,
            size: 0,
            major: Option::Some(1),
            minor: Option::Some(1),
        }
    }

    /// Builds the device filesystem around an initialised console.
    pub fn init(console: Console, dev: u32) -> (r: Devfs)
        requires
            console@.wf(),
        ensures
            r.inv(),
            r@.dev == dev,
            r@.console == console@,
            r@.pending == Seq::<u8>::empty(),
            r@.queue == Seq::<u8>::empty(),
            r@.waiting is None,
            r@.root_entries.len() == 1,
            r@.root_entries[0].name@ == "console"@,
            r@.root_entries[0].inode == 1,
            r@.root_entries[0].dev == dev,
    {
        let mut root_entries: Vec<DirectoryEntry> = Vec::new();
        root_entries.push(
            DirectoryEntry { name: String::from_str("console"), inode: 1, dev },
        );
        Devfs {
            root_entries,
            console,
            root: Inode {
                dev,
                inode: 0,
                file_type: FileType::Directory,
                size: 0,
                major: Option::None,
                minor: Option::None,
            },
            console_inode: Inode {
                dev,
                inode: 1,
                file_type: FileType::Device,
                size: 0,
                major: Option::Some(1),
                minor: Option::Some(1),
            },
            pending_input: Vec::new(),
            scancodes: scancode_queue_new(SCANCODE_QUEUE_CAPACITY),
            decoder: key_decoder_new(),
            waiting_thread: Option::None,
        }
    }

    /// The keyboard interrupt path: stores a raw scancode, dropping the
    /// oldest one when the ring is full, and reports the thread (if any)
    /// that waits for console input so the caller can wake it.
    pub fn push_scancode(&mut self, scancode: u8) -> (wake: Option<u32>)
        requires
            old(self).inv(),
        ensures
            final(self).inv(),
            wake == old(self)@.waiting,
            final(self)@.dev == old(self)@.dev,
            final(self)@.console == old(self)@.console,
            final(self)@.pending == old(self)@.pending,
            final(self)@.waiting == old(self)@.waiting,
            old(self)@.queue.len() < SCANCODE_QUEUE_CAPACITY ==> final(self)@.queue == old(
                self,
            )@.queue.push(scancode),
            old(self)@.queue.len() >= SCANCODE_QUEUE_CAPACITY ==> final(self)@.queue == old(
                self,
            )@.queue.drop_first().push(scancode),
    {
        scancode_queue_force_push(&mut self.scancodes, scancode);
        self.waiting_thread
    }

    /// Records (or clears) the single thread waiting for console input.
    pub fn set_waiting(&mut self, tid: Option<u32>)
        requires
            old(self).inv(),
        ensures
            final(self).inv(),
            final(self)@ == (DevfsView { waiting: tid, ..old(self)@ }),
    {
        self.waiting_thread = tid;
    }

    /// Drains and decodes buffered scancodes while the pending line is
    /// shorter than `count` bytes. Decoded characters echo on the console
    /// and their UTF-8 bytes extend the pending input; what they are
    /// depends on the keyboard decoder alone.
    fn pump(&mut self, count: usize)
        requires
            old(self).inv(),
        ensures
            final(self).inv(),
            final(self)@.dev == old(self)@.dev,
            final(self)@.waiting == old(self)@.waiting,
            exists|extra: Seq<u8>| final(self)@.pending == old(self)@.pending + extra,
            old(self)@.queue.len() == 0 ==> final(self)@.pending == old(self)@.pending,
            final(self)@.pending.len() >= count || final(self)@.queue.len() == 0,
    {
        proof {
            assert(self@.pending =~= old(self)@.pending + Seq::<u8>::empty());
        }
        loop
            invariant
                self.inv(),
                self@.dev == old(self)@.dev,
                self@.waiting == old(self)@.waiting,
                exists|extra: Seq<u8>| self@.pending == old(self)@.pending + extra,
                old(self)@.queue.len() == 0 ==> (self@.pending == old(self)@.pending
                    && self@.queue == old(self)@.queue),
            ensures
                self@.pending.len() >= count || self@.queue.len() == 0,
            decreases self@.queue.len(),
        {
            if self.pending_input.len() >= count {
                break;
            }
            let popped = scancode_queue_pop(&mut self.scancodes);
            match popped {
                Option::None => {
                    break;
                },
                Option::Some(scancode) => {
                    let ev = advance_scancode(&mut self.decoder, scancode);
                    match ev {
                        Option::None => {},
                        Option::Some(ev) => {
                            match decode_keyevent(&mut self.decoder, ev) {
                                Option::None => {},
                                Option::Some(key) => {
                                    let ghost before = self@.pending;
                                    let bytes = encode_char(key);
                                    self.console.write(bytes.as_slice());
                                    let ghost q0 = self@.queue;
                                    let mut k: usize = 0;
                                    while k < bytes.len()
                                        invariant
                                            0 <= k <= bytes@.len(),
                                            self@.pending == before + bytes@.take(k as int),
                                            self@.dev == old(self)@.dev,
                                            self@.waiting == old(self)@.waiting,
                                            self@.queue == q0,
                                            self.inv(),
                                        decreases bytes@.len() - k,
                                    {
                                        self.pending_input.push(bytes[k]);
                                        proof {
                                            assert(self@.pending =~= before + bytes@.take(k + 1));
                                        }
                                        k = k + 1;
                                    }
                                    proof {
                                        let prior = choose|extra: Seq<u8>|
                                            before == old(self)@.pending + extra;
                                        assert(self@.pending =~= old(self)@.pending + (prior
                                            + bytes@.take(bytes@.len() as int)));
                                    }
                                },
                            }
                        },
                    }
                },
            }
        }
    }

    /// The completion step of a console read: assuming the pending line is
    /// ready, hand out its first `count` bytes (a trailing end-of-file
    /// byte travels as NUL) and keep the rest pending.
    fn consume_pending(&mut self, count: usize) -> (out: Vec<u8>)
        requires
            old(self).inv(),
        ensures
            final(self).inv(),
            out@ == consumed_bytes(old(self)@.pending, count),
            final(self)@ == (DevfsView {
                pending: pending_rest(old(self)@.pending, count),
                ..old(self)@
            }),
    {
        let len: usize = self.pending_input.len();
        if len == 1 && self.pending_input[0] == 10u8 {
            // an empty line: report zero bytes and drop the newline
            self.pending_input = Vec::new();
            proof {
                assert(self@.pending =~= pending_rest(old(self)@.pending, count));
                assert(Seq::<u8>::empty() =~= consumed_bytes(old(self)@.pending, count));
            }
            return Vec::new();
        }
        if len > 0 {
            let last = self.pending_input[len - 1];
            if last == EOF_BYTE {
                self.pending_input.set(len - 1, 0u8);
            }
        }
        let n: usize = if count <= len {
            count
        } else {
            len
        };
        let out = copy_range(&self.pending_input, 0, n);
        let rest = copy_range(&self.pending_input, n, len - n);
        self.pending_input = rest;
        proof {
            assert(out@ =~= consumed_bytes(old(self)@.pending, count));
            assert(self@.pending =~= pending_rest(old(self)@.pending, count));
        }
        out
    }
}

impl Filesystem for Devfs {
    closed spec fn inv(&self) -> bool {
        &&& self@.console.wf()
        &&& self.root == Devfs::spec_root_inode(self@.dev)
        &&& self.console_inode == Devfs::spec_console_inode(self@.dev)
        &&& queue_capacity(self.scancodes) == SCANCODE_QUEUE_CAPACITY as nat
    }

    open spec fn spec_open(&self, inode: Inode) -> Result<(), FilesystemError> {
        if inode.major == Option::Some(1u32) && inode.minor == Option::Some(1u32) {
            Result::Ok(())
        } else {
            Result::Err(FilesystemError::NotFound)
        }
    }

    open spec fn spec_close(&self, inode: Inode) -> Result<(), FilesystemError> {
        self.spec_open(inode)
    }

    open spec fn spec_readdir(&self, inode: Inode) -> Result<Seq<DirectoryEntry>, FilesystemError> {
        if inode.dev == self@.dev && inode.inode == 0 {
            Result::Ok(self@.root_entries)
        } else {
            Result::Err(FilesystemError::NotFound)
        }
    }

    open spec fn spec_inode(&self, dev: u32, ino: u32) -> Result<Inode, FilesystemError> {
        if dev != self@.dev {
            Result::Err(FilesystemError::NotFound)
        } else if ino == 0 {
            Result::Ok(Devfs::spec_root_inode(self@.dev))
        } else if ino == 1 {
            Result::Ok(Devfs::spec_console_inode(self@.dev))
        } else {
            Result::Err(FilesystemError::NotFound)
        }
    }

    /// A console read decodes what the keyboard buffered (some byte
    /// sequence `extra`, decided by the key decoder) and then either
    /// completes exactly as `consumed_bytes` describes, or reports
    /// `WouldBlock` with everything kept pending. Reads on any other inode
    /// fail with `NotFound`.
    open spec fn read_post(
        &self,
        pre: Self,
        inode: Inode,
        offset: u64,
        count: usize,
        r: Result<Vec<u8>, FilesystemError>,
    ) -> bool {
        if !(inode.major == Option::Some(1u32) && inode.minor == Option::Some(1u32)) {
            &&& self@ == pre@
            &&& r == Result::<Vec<u8>, FilesystemError>::Err(FilesystemError::NotFound)
        } else {
            exists|extra: Seq<u8>|
                #![trigger pre@.pending + extra]
                {
                    let mid = pre@.pending + extra;
                    &&& self@.dev == pre@.dev
                    &&& self@.waiting == pre@.waiting
                    &&& (pre@.queue.len() == 0 ==> extra == Seq::<u8>::empty())
                    &&& (mid.len() >= count || self@.queue.len() == 0)
                    &&& if read_ready(mid, count) {
                        &&& r is Ok
                        &&& r->Ok_0@ == consumed_bytes(mid, count)
                        &&& self@.pending == pending_rest(mid, count)
                    } else {
                        &&& r == Result::<Vec<u8>, FilesystemError>::Err(
                            FilesystemError::WouldBlock,
                        )
                        &&& self@.pending == mid
                    }
                }
        }
    }

    /// A console write puts every byte on the console grid and reports the
    /// full length; writes on any other inode fail with `NotFound`.
    open spec fn write_post(
        &self,
        pre: Self,
        inode: Inode,
        offset: u64,
        data: Seq<u8>,
        r: Result<usize, FilesystemError>,
    ) -> bool {
        if inode.major == Option::Some(1u32) && inode.minor == Option::Some(1u32) {
            &&& self@ == DevfsView { console: pre@.console.put_seq(data), ..pre@ }
            &&& r == Result::<usize, FilesystemError>::Ok(data.len() as usize)
        } else {
            &&& self@ == pre@
            &&& r == Result::<usize, FilesystemError>::Err(FilesystemError::NotFound)
        }
    }

    fn open(&self, inode: &Inode) -> (r: Result<(), FilesystemError>) {
        match (inode.major, inode.minor) {
            (Option::Some(1u32), Option::Some(1u32)) => Result::Ok(()),
            _ => Result::Err(FilesystemError::NotFound),
        }
    }

    fn close(&self, inode: &Inode) -> (r: Result<(), FilesystemError>) {
        match (inode.major, inode.minor) {
            (Option::Some(1u32), Option::Some(1u32)) => Result::Ok(()),
            _ => Result::Err(FilesystemError::NotFound),
        }
    }

    fn read(&mut self, inode: &Inode, offset: u64, count: usize) -> (r: Result<
        Vec<u8>,
        FilesystemError,
    >) {
        let is_console = match (inode.major, inode.minor) {
            (Option::Some(1u32), Option::Some(1u32)) => true,
            _ => false,
        };
        if !is_console {
            return Result::Err(FilesystemError::NotFound);
        }
        self.pump(count);
        let ghost mid = self@.pending;
        let len: usize = self.pending_input.len();
        let ready = if len >= count {
            true
        } else if len > 0 {
            let last = self.pending_input[len - 1];
            last == 10u8 || last == EOF_BYTE
        } else {
            false
        };
        let ghost mid_queue = self@.queue;
        if ready {
            let out = self.consume_pending(count);
            proof {
                let extra = choose|extra: Seq<u8>| mid == old(self)@.pending + extra;
                assert(read_ready(mid, count));
                if old(self)@.queue.len() == 0 {
                    assert(mid == old(self)@.pending);
                    assert(old(self)@.pending + Seq::<u8>::empty() =~= mid);
                    assert(extra =~= Seq::<u8>::empty());
                }
            }
            Result::Ok(out)
        } else {
            proof {
                let extra = choose|extra: Seq<u8>| mid == old(self)@.pending + extra;
                assert(!read_ready(mid, count));
                if old(self)@.queue.len() == 0 {
                    assert(mid == old(self)@.pending);
                    assert(extra =~= Seq::<u8>::empty());
                }
            }
            Result::Err(FilesystemError::WouldBlock)
        }
    }

    fn write(&mut self, inode: &Inode, offset: u64, data: &[u8]) -> (r: Result<
        usize,
        FilesystemError,
    >) {
        let is_console = match (inode.major, inode.minor) {
            (Option::Some(1u32), Option::Some(1u32)) => true,
            _ => false,
        };
        if !is_console {
            return Result::Err(FilesystemError::NotFound);
        }
        let n = self.console.write(data);
        Result::Ok(n)
    }

    fn readdir(&self, inode: &Inode) -> (r: Result<Vec<DirectoryEntry>, FilesystemError>) {
        if inode.dev == self.root.dev && inode.inode == 0 {
            Result::Ok(crate::vfs::clone_dirents(&self.root_entries))
        } else {
            Result::Err(FilesystemError::NotFound)
        }
    }

    fn inode(&self, dev: u32, ino: u32) -> (r: Result<Inode, FilesystemError>) {
        if dev != self.root.dev {
            return Result::Err(FilesystemError::NotFound);
        }
        if ino == 0 {
            Result::Ok(self.root)
        } else if ino == 1 {
            Result::Ok(self.console_inode)
        } else {
            Result::Err(FilesystemError::NotFound)
        }
    }
}

impl Devfs {
    /// Writes bytes straight to the console grid, for the boot log.
    pub fn console_write(&mut self, data: &[u8])
        requires
            old(self).inv(),
        ensures
            final(self).inv(),
            final(self)@ == (DevfsView {
                console: old(self)@.console.put_seq(data@),
                ..old(self)@
            }),
    {
        self.console.write(data);
    }

    /// The character shown at console cell (r, c), for embedders and tests.
    pub fn console_char_at(&self, r: usize, c: usize) -> (b: u8)
        requires
            self.inv(),
            r < self@.console.rows,
            c < self@.console.cols,
        ensures
            b == self@.console.char_at(r as int, c as int),
    {
        self.console.char_at(r, c)
    }

    pub fn console_size(&self) -> (rc: (usize, usize))
        ensures
            rc.0 == self@.console.rows,
            rc.1 == self@.console.cols,
    {
        (self.console.rows(), self.console.cols())
    }

    pub fn console_cursor(&self) -> (rc: (usize, usize))
        ensures
            rc.0 == self@.console.row,
            rc.1 == self@.console.col,
    {
        self.console.cursor()
    }
}

} // verus!
