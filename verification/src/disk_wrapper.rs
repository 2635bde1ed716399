//! A byte-addressed disk over a device that is read and written in whole blocks.
//!
//! The device itself belongs to the caller. A transfer is a conversation: [`DiskWrapper::io`] is
//! told what the device last did and answers with the next thing to ask of it, until it answers
//! [`DiskAction::Done`]. A device call that fails ends the transfer; the position then stands
//! where the completed blocks left it.
use vstd::arithmetic::div_mod::*;
use vstd::arithmetic::mul::*;
use vstd::prelude::*;

use crate::text;

verus! {

/// Where to move the position to.
#[derive(Clone, Copy, Debug, PartialEq, Eq, Structural)]
pub enum SeekPos {
    /// From the start of the disk.
    Start(u64),
    /// From its end.
    End(i64),
    /// From the current position.
    Current(i64),
}

/// What a transfer asks of the device. Each request starts with a seek to `at`.
#[derive(Debug, PartialEq, Eq)]
pub enum DiskAction {
    /// Read exactly `len` bytes at `at`.
    Read { at: u64, len: usize },
    /// Write all of `bytes` at `at`.
    Write { at: u64, bytes: Vec<u8> },
    /// Nothing more: `count` bytes were transferred.
    Done { count: usize },
}

/// What the device did.
#[derive(Debug)]
pub enum DiskEvent {
    /// Nothing yet.
    Begin,
    /// It read these bytes.
    ReadDone(Vec<u8>),
    /// It wrote what it was given.
    WriteDone,
}

/// How far a transfer has come.
#[derive(Clone, Copy, Debug, PartialEq, Eq, Structural)]
pub enum Phase {
    /// Nothing was asked yet.
    Start,
    /// The device is transferring the whole buffer at once.
    Whole,
    /// The device is reading the block under the position.
    Fetch,
    /// The device is writing that block back.
    Store,
    /// Everything was transferred.
    End,
}

/// One read into, or one write from, a buffer.
#[derive(Debug)]
pub struct Transfer {
    write: bool,
    data: Vec<u8>,
    done: usize,
    phase: Phase,
}

/// The state of a disk: its size in bytes, the block buffer, and the position.
#[derive(Debug)]
pub struct DiskWrapper {
    size: u64,
    block: Vec<u8>,
    seek: u64,
}

/// A disk as numbers and bytes.
pub struct DiskView {
    pub size: int,
    pub block: Seq<u8>,
    pub seek: int,
}

/// A transfer as numbers and bytes.
pub struct TransferView {
    pub write: bool,
    pub data: Seq<u8>,
    pub done: int,
    pub phase: Phase,
}

/// A request as numbers and bytes.
pub enum ActionView {
    Read { at: int, len: int },
    Write { at: int, bytes: Seq<u8> },
    Done { count: int },
}

/// An event as bytes.
pub enum EventView {
    Begin,
    ReadDone(Seq<u8>),
    WriteDone,
}

impl View for DiskWrapper {
    type V = DiskView;

    closed spec fn view(&self) -> DiskView {
        DiskView { size: self.size as int, block: self.block@, seek: self.seek as int }
    }
}

impl View for Transfer {
    type V = TransferView;

    closed spec fn view(&self) -> TransferView {
        TransferView {
            write: self.write,
            data: self.data@,
            done: self.done as int,
            phase: self.phase,
        }
    }
}

impl View for DiskAction {
    type V = ActionView;

    open spec fn view(&self) -> ActionView {
        match self {
            DiskAction::Read { at, len } => ActionView::Read { at: *at as int, len: *len as int },
            DiskAction::Write { at, bytes } => ActionView::Write { at: *at as int, bytes: bytes@ },
            DiskAction::Done { count } => ActionView::Done { count: *count as int },
        }
    }
}

impl View for DiskEvent {
    type V = EventView;

    open spec fn view(&self) -> EventView {
        match self {
            DiskEvent::Begin => EventView::Begin,
            DiskEvent::ReadDone(bytes) => EventView::ReadDone(bytes@),
            DiskEvent::WriteDone => EventView::WriteDone,
        }
    }
}

/// `base` with `patch` laid over it from index `at` on.
pub open spec fn overlay(base: Seq<u8>, at: int, patch: Seq<u8>) -> Seq<u8> {
    Seq::new(
        base.len(),
        |i: int|
            if at <= i < at + patch.len() {
                patch[i - at]
            } else {
                base[i]
            },
    )
}

/// Where the block under the position begins.
pub open spec fn block_start(d: DiskView) -> int {
    d.seek / (d.block.len() as int) * (d.block.len() as int)
}

/// How far into its block the position is.
pub open spec fn block_offset(d: DiskView) -> int {
    d.seek % (d.block.len() as int)
}

/// How many bytes the block under the position contributes to the transfer.
pub open spec fn chunk(d: DiskView, t: TransferView) -> int {
    let left = t.data.len() - t.done;
    let room = d.block.len() - block_offset(d);
    if left <= room {
        left
    } else {
        room
    }
}

/// Does the transfer consist of whole blocks?
pub open spec fn aligned(d: DiskView, t: TransferView) -> bool {
    d.seek % (d.block.len() as int) == 0 && t.data.len() as int % (d.block.len() as int) == 0
}

/// The state after `n` more bytes.
pub open spec fn advanced(d: DiskView, t: TransferView, n: int) -> (DiskView, TransferView) {
    (DiskView { seek: d.seek + n, ..d }, TransferView { done: t.done + n, ..t })
}

/// Goes on with the next block, or ends.
pub open spec fn next_block(d: DiskView, t: TransferView) -> (DiskView, TransferView, ActionView) {
    if t.done < t.data.len() {
        (
            d,
            TransferView { phase: Phase::Fetch, ..t },
            ActionView::Read { at: block_start(d), len: d.block.len() as int },
        )
    } else {
        (d, TransferView { phase: Phase::End, ..t }, ActionView::Done { count: t.done })
    }
}

/// One step of a transfer: what the device did, and what follows from it.
///
/// Whole blocks go to the device in one piece. Otherwise each block under the position is read,
/// and the part of it that the transfer covers is copied out of it, or replaced and written back.
pub open spec fn io_step(d: DiskView, t: TransferView, e: EventView) -> (
    DiskView,
    TransferView,
    ActionView,
) {
    match (t.phase, e) {
        (Phase::Start, EventView::Begin) => if aligned(d, t) {
            let whole = TransferView { phase: Phase::Whole, ..t };
            if t.write {
                (d, whole, ActionView::Write { at: d.seek, bytes: t.data })
            } else {
                (d, whole, ActionView::Read { at: d.seek, len: t.data.len() as int })
            }
        } else {
            next_block(d, t)
        },
        (Phase::Whole, EventView::ReadDone(bytes)) => {
            let (d2, t2) = advanced(d, TransferView { data: bytes, ..t }, t.data.len() as int);
            next_block(d2, t2)
        },
        (Phase::Whole, EventView::WriteDone) => {
            let (d2, t2) = advanced(d, t, t.data.len() as int);
            next_block(d2, t2)
        },
        (Phase::Fetch, EventView::ReadDone(bytes)) => {
            let n = chunk(d, t);
            let off = block_offset(d);
            if t.write {
                let patched = overlay(bytes, off, t.data.subrange(t.done, t.done + n));
                (
                    DiskView { block: patched, ..d },
                    TransferView { phase: Phase::Store, ..t },
                    ActionView::Write { at: block_start(d), bytes: patched },
                )
            } else {
                let filled = overlay(t.data, t.done, bytes.subrange(off, off + n));
                let (d2, t2) = advanced(
                    DiskView { block: bytes, ..d },
                    TransferView { data: filled, ..t },
                    n,
                );
                next_block(d2, t2)
            }
        },
        (Phase::Store, EventView::WriteDone) => {
            let (d2, t2) = advanced(d, t, chunk(d, t));
            next_block(d2, t2)
        },
        _ => (d, t, ActionView::Done { count: t.done }),
    }
}

/// Is this an event that the transfer is waiting for?
pub open spec fn expects(d: DiskView, t: TransferView, e: EventView) -> bool {
    match (t.phase, e) {
        (Phase::Start, EventView::Begin) => t.done == 0,
        (Phase::Whole, EventView::ReadDone(bytes)) => !t.write && t.done == 0 && bytes.len()
            == t.data.len(),
        (Phase::Whole, EventView::WriteDone) => t.write && t.done == 0,
        (Phase::Fetch, EventView::ReadDone(bytes)) => t.done < t.data.len() && bytes.len()
            == d.block.len(),
        (Phase::Store, EventView::WriteDone) => t.write && t.done < t.data.len(),
        _ => false,
    }
}

/// Copies `src[from..from + n]` over `dst[at..at + n]`.
fn copy_over(dst: &mut Vec<u8>, at: usize, src: &Vec<u8>, from: usize, n: usize)
    requires
        at + n <= old(dst)@.len(),
        from + n <= src@.len(),
    ensures
        final(dst)@ == overlay(old(dst)@, at as int, src@.subrange(from as int, from + n)),
{
    let ghost base = dst@;
    let room: usize = dst.len();
    let avail: usize = src.len();
    let mut i: usize = 0;
    assert(dst@ =~= overlay(base, at as int, src@.subrange(from as int, from as int)));
    while i < n
        invariant
            i <= n,
            at + n <= room,
            from + n <= avail,
            room == base.len(),
            avail == src@.len(),
            dst@.len() == base.len(),
            dst@ == overlay(base, at as int, src@.subrange(from as int, from + i)),
        decreases n - i,
    {
        dst.set(at + i, src[from + i]);
        i = i + 1;
        assert(dst@ =~= overlay(base, at as int, src@.subrange(from as int, from + i)));
    }
}

/// A copy of the bytes.
fn copy_bytes(src: &Vec<u8>) -> (r: Vec<u8>)
    ensures
        r@ == src@,
{
    let mut r: Vec<u8> = Vec::new();
    r.extend_from_slice(src.as_slice());
    assert(r@ =~= src@);
    r
}

/// What was found out about the sector size of a target.
#[derive(Clone, Copy, Debug, PartialEq, Eq, Structural)]
pub enum BlockReport {
    /// No sector size of its own: an image file, or a platform that is not asked.
    Image,
    /// The block size in the file's status, which a Redox block driver fills in.
    Status(u64),
    /// What the ioctl for the logical sector size returned and stored.
    Sector { rc: i32, sector_size: i32 },
}

/// The system that the installer runs on, as far as a sector size depends on it.
#[derive(Clone, Copy, Debug, PartialEq, Eq, Structural)]
pub enum TargetOs {
    Redox,
    Linux,
    Other,
}

/// What counts of all that a system can say of a target.
///
/// A regular file that no driver serves is an image: it has no sector size of its own, whatever its
/// status says. On Redox the block driver fills the status in. On Linux the status is a hint for
/// input and output, so a block device is asked for its logical sector size.
pub open spec fn report_of(
    os: TargetOs,
    regular_file: bool,
    block_device: bool,
    st_blksize: u64,
    rc: i32,
    sector_size: i32,
) -> BlockReport {
    if regular_file {
        BlockReport::Image
    } else {
        match os {
            TargetOs::Redox => BlockReport::Status(st_blksize),
            TargetOs::Linux => if block_device {
                BlockReport::Sector { rc, sector_size }
            } else {
                BlockReport::Image
            },
            TargetOs::Other => BlockReport::Image,
        }
    }
}

/// What counts of all that a system says of a target. The last two are what the ioctl for the
/// logical sector size returned and stored; they count for a block device on Linux only.
pub fn block_report(
    os: TargetOs,
    regular_file: bool,
    block_device: bool,
    st_blksize: u64,
    rc: i32,
    sector_size: i32,
) -> (r: BlockReport)
    ensures
        r == report_of(os, regular_file, block_device, st_blksize, rc, sector_size),
{
    if regular_file {
        return BlockReport::Image;
    }
    match os {
        TargetOs::Redox => BlockReport::Status(st_blksize),
        TargetOs::Linux => {
            if block_device {
                BlockReport::Sector { rc, sector_size }
            } else {
                BlockReport::Image
            }
        },
        TargetOs::Other => BlockReport::Image,
    }
}

/// Why a sector size cannot be used.
#[derive(Clone, Copy, Debug, PartialEq, Eq, Structural)]
pub enum BlockSizeError {
    /// The device was asked and the call failed.
    Os,
    /// The device gave a size that no device has.
    Reported(i32),
}

/// What is said of a size that no device has.
pub open spec fn size_error_text(size: int) -> Seq<char> {
    "device reported a logical block size of "@ + text::signed_decimal(size)
}

impl BlockSizeError {
    /// What to say of the error; a failed call is described by the operating system.
    pub fn describe(&self) -> (r: Option<String>)
        ensures
            match *self {
                BlockSizeError::Os => r is None,
                BlockSizeError::Reported(size) => r is Some && r->Some_0@ == size_error_text(
                    size as int,
                ),
            },
    {
        match self {
            BlockSizeError::Os => None,
            BlockSizeError::Reported(size) => {
                let mut r = "device reported a logical block size of ".to_owned();
                r.append(text::to_signed_decimal(*size).as_str());
                Some(r)
            },
        }
    }
}

/// The block size that a report comes to.
pub open spec fn reported_size(report: BlockReport) -> Result<usize, BlockSizeError> {
    match report {
        BlockReport::Image => Ok(512),
        BlockReport::Status(size) => if size == 0 {
            Err(BlockSizeError::Reported(0))
        } else {
            Ok(size as usize)
        },
        BlockReport::Sector { rc, sector_size } => if rc != 0 {
            Err(BlockSizeError::Os)
        } else if sector_size <= 0 {
            Err(BlockSizeError::Reported(sector_size))
        } else {
            Ok(sector_size as usize)
        },
    }
}

/// Every image file counts in blocks of 512 bytes, on every system and whatever its status says.
pub proof fn law_an_image_file_has_small_blocks(
    os: TargetOs,
    block_device: bool,
    st_blksize: u64,
    rc: i32,
    sector_size: i32,
)
    ensures
        reported_size(report_of(os, true, block_device, st_blksize, rc, sector_size)) == Ok::<
            usize,
            BlockSizeError,
        >(512),
{
}

/// The logical block size of a target: asked of the device, not assumed.
///
/// An image file counts in 512-byte blocks. A device that reports nothing usable is an error, so
/// that no partition table is laid out on a guess.
pub fn logical_block_size(report: BlockReport) -> (r: Result<usize, BlockSizeError>)
    ensures
        r == reported_size(report),
{
    match report {
        BlockReport::Image => Ok(512),
        BlockReport::Status(size) => {
            if size == 0 {
                return Err(BlockSizeError::Reported(0));
            }
            Ok(size as usize)
        },
        BlockReport::Sector { rc, sector_size } => {
            if rc != 0 {
                return Err(BlockSizeError::Os);
            }
            if sector_size <= 0 {
                return Err(BlockSizeError::Reported(sector_size));
            }
            Ok(sector_size as usize)
        },
    }
}

/// The number nearest to `n` between 0 and `high`.
fn clamp_to(n: i64, high: i64) -> (r: u64)
    requires
        0 <= high,
    ensures
        r == clamped(n as int, high as int),
{
    if n > high {
        high as u64
    } else if n < 0 {
        0
    } else {
        n as u64
    }
}

impl Transfer {
    /// A read that fills a buffer, which comes with what it held before.
    pub fn read(buffer: Vec<u8>) -> (t: Transfer)
        ensures
            t@ == (TransferView { write: false, data: buffer@, done: 0, phase: Phase::Start }),
    {
        Transfer { write: false, data: buffer, done: 0, phase: Phase::Start }
    }

    /// A write of these bytes.
    pub fn write(bytes: Vec<u8>) -> (t: Transfer)
        ensures
            t@ == (TransferView { write: true, data: bytes@, done: 0, phase: Phase::Start }),
    {
        Transfer { write: true, data: bytes, done: 0, phase: Phase::Start }
    }

    /// The buffer.
    pub fn into_data(self) -> (r: Vec<u8>)
        ensures
            r@ == self@.data,
    {
        self.data
    }
}

impl DiskWrapper {
    /// A disk has blocks to transfer.
    pub open spec fn well_formed(self) -> bool {
        self@.block.len() > 0
    }

    /// Takes a device of `size` bytes, whose sector size is as reported. The position is 0 and the
    /// block buffer is zeroed.
    pub fn open(size: u64, report: BlockReport) -> (r: Result<DiskWrapper, BlockSizeError>)
        ensures
            match report {
                BlockReport::Image => r is Ok && r->Ok_0@.block.len() == 512,
                BlockReport::Status(n) => if n == 0 {
                    r == Err::<DiskWrapper, _>(BlockSizeError::Reported(0))
                } else {
                    r is Ok && r->Ok_0@.block.len() == n as usize
                },
                BlockReport::Sector { rc, sector_size } => if rc != 0 {
                    r == Err::<DiskWrapper, _>(BlockSizeError::Os)
                } else if sector_size <= 0 {
                    r == Err::<DiskWrapper, _>(BlockSizeError::Reported(sector_size))
                } else {
                    r is Ok && r->Ok_0@.block.len() == sector_size
                },
            },
            match reported_size(report) {
                Ok(n) => r is Ok && r->Ok_0@.block.len() == n,
                Err(e) => r is Err && r->Err_0 == e,
            },
            r matches Ok(w) ==> w@.size == size && w@.seek == 0 && w@.block == Seq::new(
                w@.block.len(),
                |i: int| 0u8,
            ),
            (report matches BlockReport::Status(n) ==> n <= usize::MAX) ==> (r matches Ok(w)
                ==> w.well_formed()),
    {
        match logical_block_size(report) {
            Ok(n) => {
                let block: Vec<u8> = vec![0u8; n];
                assert(block@ =~= Seq::new(n as nat, |i: int| 0u8));
                Ok(DiskWrapper { size, block, seek: 0 })
            },
            Err(e) => Err(e),
        }
    }

    /// The length of a block.
    pub fn block_size(&self) -> (r: usize)
        ensures
            r == self@.block.len(),
    {
        self.block.len()
    }

    /// The length of the disk.
    pub fn size(&self) -> (r: u64)
        ensures
            r == self@.size,
    {
        self.size
    }

    /// The current position.
    pub fn position(&self) -> (r: u64)
        ensures
            r == self@.seek,
    {
        self.seek
    }

    /// Moves the position and returns it.
    pub fn seek(&mut self, pos: SeekPos) -> (r: u64)
        requires
            old(self)@.seek <= i64::MAX,
            old(self)@.size <= i64::MAX,
        ensures
            r == seek_target(old(self)@, pos),
            final(self)@ == (DiskView { seek: r as int, ..old(self)@ }),
    {
        let current: i64 = self.seek as i64;
        let end: i64 = self.size as i64;
        self.seek = match pos {
            SeekPos::Start(offset) => if offset < self.size {
                offset
            } else {
                self.size
            },
            SeekPos::End(offset) => clamp_to(end.wrapping_add(offset), end),
            SeekPos::Current(offset) => clamp_to(current.wrapping_add(offset), end),
        };
        self.seek
    }

    /// Goes on with the next block, or ends.
    fn next(&self, t: &mut Transfer) -> (action: DiskAction)
        requires
            self.well_formed(),
            old(t)@.done <= old(t)@.data.len(),
        ensures
            (self@, final(t)@, action@) == next_block(self@, old(t)@),
    {
        if t.done < t.data.len() {
            let block_len: u64 = self.block.len() as u64;
            t.phase = Phase::Fetch;
            proof {
                lemma_block(self@.seek, block_len as int);
            }
            DiskAction::Read { at: self.seek / block_len * block_len, len: self.block.len() }
        } else {
            t.phase = Phase::End;
            DiskAction::Done { count: t.done }
        }
    }

    /// One step of a transfer.
    pub fn io(&mut self, t: &mut Transfer, event: DiskEvent) -> (action: DiskAction)
        requires
            old(self).well_formed(),
            expects(old(self)@, old(t)@, event@),
            old(self)@.seek + old(t)@.data.len() - old(t)@.done <= u64::MAX,
        ensures
            (final(self)@, final(t)@, action@) == io_step(old(self)@, old(t)@, event@),
            final(self).well_formed(),
    {
        let block_len: u64 = self.block.len() as u64;
        let len: usize = t.data.len();
        proof {
            lemma_block(self@.seek, block_len as int);
        }
        match event {
            DiskEvent::Begin => {
                if self.seek % block_len == 0 && len as u64 % block_len == 0 {
                    t.phase = Phase::Whole;
                    if t.write {
                        return DiskAction::Write { at: self.seek, bytes: copy_bytes(&t.data) };
                    }
                    return DiskAction::Read { at: self.seek, len };
                }
                self.next(t)
            },
            DiskEvent::ReadDone(bytes) => {
                if t.phase == Phase::Whole {
                    t.data = bytes;
                    t.done = len;
                    self.seek = self.seek + len as u64;
                    return self.next(t);
                }
                let offset: usize = (self.seek % block_len) as usize;
                let room: usize = self.block.len() - offset;
                let left: usize = len - t.done;
                let n: usize = if left <= room {
                    left
                } else {
                    room
                };
                self.block = bytes;
                if t.write {
                    copy_over(&mut self.block, offset, &t.data, t.done, n);
                    t.phase = Phase::Store;
                    return DiskAction::Write {
                        at: self.seek / block_len * block_len,
                        bytes: copy_bytes(&self.block),
                    };
                }
                copy_over(&mut t.data, t.done, &self.block, offset, n);
                t.done = t.done + n;
                self.seek = self.seek + n as u64;
                self.next(t)
            },
            DiskEvent::WriteDone => {
                let n: usize = if t.phase == Phase::Whole {
                    len
                } else {
                    let offset: usize = (self.seek % block_len) as usize;
                    let room: usize = self.block.len() - offset;
                    let left: usize = len - t.done;
                    if left <= room {
                        left
                    } else {
                        room
                    }
                };
                t.done = t.done + n;
                self.seek = self.seek + n as u64;
                self.next(t)
            },
        }
    }
}

/// Addition of signed 64-bit numbers that wraps around at the ends of their range.
pub open spec fn wrapped(n: int) -> int {
    if n > i64::MAX {
        n - 0x1_0000_0000_0000_0000
    } else if n < i64::MIN {
        n + 0x1_0000_0000_0000_0000
    } else {
        n
    }
}

/// The number nearest to `n` between 0 and `high`.
pub open spec fn clamped(n: int, high: int) -> int {
    if n > high {
        high
    } else if n < 0 {
        0
    } else {
        n
    }
}

/// Where a seek ends.
pub open spec fn seek_target(d: DiskView, pos: SeekPos) -> int {
    match pos {
        SeekPos::Start(offset) => clamped(offset as int, d.size),
        SeekPos::End(offset) => clamped(wrapped(d.size + offset), d.size),
        SeekPos::Current(offset) => clamped(wrapped(d.seek + offset), d.size),
    }
}

/// A seek never leaves the disk.
pub proof fn law_seek_stays_on_disk(d: DiskView, pos: SeekPos)
    requires
        0 <= d.size,
    ensures
        0 <= seek_target(d, pos) <= d.size,
{
}

/// A seek goes to the offset from its base, and to the nearer end where that is off the disk, as
/// long as the sum is a signed 64-bit number.
pub proof fn law_seek_clamps(d: DiskView, offset: i64)
    requires
        0 <= d.size <= i64::MAX,
        0 <= d.seek <= i64::MAX,
    ensures
        d.size + offset <= i64::MAX ==> seek_target(d, SeekPos::End(offset)) == clamped(
            d.size + offset,
            d.size,
        ),
        d.seek + offset <= i64::MAX ==> seek_target(d, SeekPos::Current(offset)) == clamped(
            d.seek + offset,
            d.size,
        ),
{
}

/// A position lies in its block.
proof fn lemma_block(x: int, n: int)
    requires
        0 <= x,
        0 < n,
    ensures
        0 <= x % n < n,
        x / n * n + x % n == x,
        0 <= x / n * n <= x,
        0 <= x / n,
{
    lemma_fundamental_div_mod(x, n);
    lemma_mul_is_commutative(x / n, n);
    lemma_div_pos_is_pos(x, n);
    lemma_mul_nonnegative(x / n, n);
}

/// What a device that holds `disk` does with a request: it reads what is there, it replaces what
/// is there, and it refuses what reaches past its end.
pub open spec fn serve(disk: Seq<u8>, a: ActionView) -> Option<(Seq<u8>, EventView)> {
    match a {
        ActionView::Read { at, len } => if len == 0 {
            Some((disk, EventView::ReadDone(Seq::empty())))
        } else if 0 <= at && at + len <= disk.len() {
            Some((disk, EventView::ReadDone(disk.subrange(at, at + len))))
        } else {
            None
        },
        ActionView::Write { at, bytes } => if bytes.len() == 0 || (0 <= at && at + bytes.len()
            <= disk.len()) {
            Some((overlay(disk, at, bytes), EventView::WriteDone))
        } else {
            None
        },
        ActionView::Done { .. } => None,
    }
}

/// How far a phase is from the next byte.
pub open spec fn rank(p: Phase) -> int {
    match p {
        Phase::Start => 3,
        Phase::Fetch => 2,
        Phase::Store => 1,
        Phase::Whole => 1,
        Phase::End => 0,
    }
}

/// Is `a` what a transfer in this state has just asked?
pub open spec fn pending(d: DiskView, t: TransferView, a: ActionView) -> bool {
    &&& d.block.len() > 0
    &&& 0 <= d.seek
    &&& match t.phase {
        Phase::Start => false,
        Phase::Whole => t.done == 0 && (if t.write {
            a == (ActionView::Write { at: d.seek, bytes: t.data })
        } else {
            a == (ActionView::Read { at: d.seek, len: t.data.len() as int })
        }),
        Phase::Fetch => 0 <= t.done < t.data.len() && a == (ActionView::Read {
            at: block_start(d),
            len: d.block.len() as int,
        }),
        Phase::Store => 0 <= t.done < t.data.len() && t.write && a == (ActionView::Write {
            at: block_start(d),
            bytes: d.block,
        }),
        Phase::End => t.done == t.data.len() && a == (ActionView::Done { count: t.done }),
    }
}

/// The rest of a transfer with a device that holds `disk`: the final state and what the device
/// then holds, or `None` if the device refused a request.
pub open spec fn conclude(
    d: DiskView,
    t: TransferView,
    a: ActionView,
    disk: Seq<u8>,
) -> Option<(DiskView, TransferView, Seq<u8>)>
    decreases t.data.len() - t.done, rank(t.phase),
    when pending(d, t, a)
    via conclude_terminates
{
    match a {
        ActionView::Done { .. } => Some((d, t, disk)),
        _ => match serve(disk, a) {
            None => None,
            Some((disk2, e)) => {
                let (d2, t2, a2) = io_step(d, t, e);
                conclude(d2, t2, a2, disk2)
            },
        },
    }
}

#[via_fn]
proof fn conclude_terminates(d: DiskView, t: TransferView, a: ActionView, disk: Seq<u8>) {
    lemma_block(d.seek, d.block.len() as int);
}

/// A device that does what it is asked gives the event that the transfer waits for, the next
/// request follows from it, and the end of the transfer's range does not move.
pub proof fn law_transfer_goes_on(d: DiskView, t: TransferView, a: ActionView, disk: Seq<u8>)
    requires
        pending(d, t, a),
        serve(disk, a) is Some,
    ensures
        ({
            let e = serve(disk, a)->Some_0.1;
            let (d2, t2, a2) = io_step(d, t, e);
            &&& expects(d, t, e)
            &&& pending(d2, t2, a2)
            &&& d2.seek + t2.data.len() - t2.done == d.seek + t.data.len() - t.done
        }),
{
    lemma_block(d.seek, d.block.len() as int);
    let e = serve(disk, a)->Some_0.1;
    let (d2, t2, a2) = io_step(d, t, e);
    lemma_block(d2.seek, d2.block.len() as int);
}

/// A whole transfer with a device that holds `disk`.
pub open spec fn transfer(d: DiskView, t: TransferView, disk: Seq<u8>) -> Option<
    (DiskView, TransferView, Seq<u8>),
> {
    let (d2, t2, a) = io_step(d, t, EventView::Begin);
    conclude(d2, t2, a, disk)
}

/// The first multiple of `n` that is no less than `x`.
pub open spec fn round_up(x: int, n: int) -> int {
    (x + n - 1) / n * n
}

/// A block that begins before `y` ends within the blocks that `y` needs.
proof fn lemma_block_fits(x: int, y: int, n: int)
    requires
        0 <= x < y,
        0 < n,
    ensures
        x / n * n + n <= round_up(y, n),
{
    lemma_div_is_ordered(x + n, y + n - 1, n);
    lemma_div_plus_one(x, n);
    assert((x + n) / n == x / n + 1);
    lemma_mul_inequality(x / n + 1, (y + n - 1) / n, n);
    lemma_mul_is_distributive_add_other_way(n, x / n, 1);
}

/// What needs no more than `x` needs no more than its blocks.
proof fn lemma_round_up(x: int, n: int)
    requires
        0 <= x,
        0 < n,
    ensures
        x <= round_up(x, n),
        x % n == 0 ==> round_up(x, n) == x,
{
    lemma_block(x + n - 1, n);
    if x % n == 0 {
        lemma_block(x, n);
        lemma_fundamental_div_mod_converse(x + n - 1, n, x / n, n - 1);
        lemma_mul_is_commutative(x / n, n);
    }
}

/// The blocks that are still to be read, from the next one on.
proof fn lemma_read_blocks(d: DiskView, t: TransferView, disk: Seq<u8>)
    requires
        d.block.len() > 0,
        0 <= d.seek,
        !t.write,
        0 <= t.done <= t.data.len(),
        t.done < t.data.len() ==> round_up(
            d.seek + t.data.len() - t.done,
            d.block.len() as int,
        ) <= disk.len(),
    ensures
        ({
            let (d1, t1, a1) = next_block(d, t);
            &&& pending(d1, t1, a1)
            &&& conclude(d1, t1, a1, disk) matches Some((d2, t2, disk2))
            &&& disk2 == disk
            &&& d2.size == d.size
            &&& d2.block.len() == d.block.len()
            &&& d2.seek == d.seek + t.data.len() - t.done
            &&& !t2.write
            &&& t2.done == t.data.len()
            &&& t2.phase == Phase::End
            &&& t2.data == Seq::new(
                t.data.len(),
                |i: int|
                    if i < t.done {
                        t.data[i]
                    } else {
                        disk[d.seek + i - t.done]
                    },
            )
        }),
    decreases t.data.len() - t.done,
{
    let n = d.block.len() as int;
    let (d1, t1, a1) = next_block(d, t);
    lemma_block(d.seek, n);
    if t.done < t.data.len() {
        lemma_block_fits(d.seek, d.seek + t.data.len() - t.done, n);
        let at = block_start(d);
        let bytes = disk.subrange(at, at + n);
        assert(serve(disk, a1) == Some((disk, EventView::ReadDone(bytes))));
        let c = chunk(d, t);
        let off = block_offset(d);
        let filled = overlay(t1.data, t1.done, bytes.subrange(off, off + c));
        let (d2, t2) = advanced(
            DiskView { block: bytes, ..d1 },
            TransferView { data: filled, ..t1 },
            c,
        );
        assert(io_step(d1, t1, EventView::ReadDone(bytes)) == next_block(d2, t2));
        assert(next_block(d2, t2) == next_block(d2, TransferView { phase: t.phase, ..t2 }));
        lemma_read_blocks(d2, TransferView { phase: t.phase, ..t2 }, disk);
        let out = conclude(d1, t1, a1, disk)->Some_0.1;
        assert(out.data =~= Seq::new(
            t.data.len(),
            |i: int|
                if i < t.done {
                    t.data[i]
                } else {
                    disk[d.seek + i - t.done]
                },
        ));
    } else {
        assert(t.data =~= Seq::new(
            t.data.len(),
            |i: int|
                if i < t.done {
                    t.data[i]
                } else {
                    disk[d.seek + i - t.done]
                },
        ));
    }
}

/// The blocks that are still to be written, from the next one on.
proof fn lemma_write_blocks(d: DiskView, t: TransferView, disk: Seq<u8>)
    requires
        d.block.len() > 0,
        0 <= d.seek,
        t.write,
        0 <= t.done <= t.data.len(),
        t.done < t.data.len() ==> round_up(
            d.seek + t.data.len() - t.done,
            d.block.len() as int,
        ) <= disk.len(),
    ensures
        ({
            let (d1, t1, a1) = next_block(d, t);
            &&& pending(d1, t1, a1)
            &&& conclude(d1, t1, a1, disk) matches Some((d2, t2, disk2))
            &&& disk2 == overlay(disk, d.seek, t.data.skip(t.done))
            &&& d2.size == d.size
            &&& d2.block.len() == d.block.len()
            &&& d2.seek == d.seek + t.data.len() - t.done
            &&& t2 == (TransferView { done: t.data.len() as int, phase: Phase::End, ..t })
        }),
    decreases t.data.len() - t.done,
{
    let n = d.block.len() as int;
    let (d1, t1, a1) = next_block(d, t);
    lemma_block(d.seek, n);
    if t.done < t.data.len() {
        lemma_block_fits(d.seek, d.seek + t.data.len() - t.done, n);
        let at = block_start(d);
        let bytes = disk.subrange(at, at + n);
        assert(serve(disk, a1) == Some((disk, EventView::ReadDone(bytes))));
        let c = chunk(d, t);
        let off = block_offset(d);
        let patched = overlay(bytes, off, t.data.subrange(t.done, t.done + c));
        let d2 = DiskView { block: patched, ..d1 };
        let t2 = TransferView { phase: Phase::Store, ..t1 };
        let a2 = ActionView::Write { at, bytes: patched };
        assert(io_step(d1, t1, EventView::ReadDone(bytes)) == (d2, t2, a2));
        let disk2 = overlay(disk, at, patched);
        assert(serve(disk, a2) == Some((disk2, EventView::WriteDone)));
        assert(conclude(d1, t1, a1, disk) == conclude(d2, t2, a2, disk));
        assert(chunk(d2, t2) == c);
        let (d3, t3) = advanced(d2, t2, c);
        assert(io_step(d2, t2, EventView::WriteDone) == next_block(d3, t3));
        assert(next_block(d3, t3) == next_block(d3, TransferView { phase: t.phase, ..t3 }));
        lemma_write_blocks(d3, TransferView { phase: t.phase, ..t3 }, disk2);
        assert(overlay(disk2, d3.seek, t.data.skip(t3.done)) =~= overlay(
            disk,
            d.seek,
            t.data.skip(t.done),
        ));
    } else {
        assert(overlay(disk, d.seek, t.data.skip(t.done)) =~= disk);
    }
}

/// What ends within `k` blocks needs no more than `k` blocks.
proof fn lemma_round_up_within(y: int, k: int, n: int)
    requires
        0 <= y <= k * n,
        0 < n,
    ensures
        round_up(y, n) <= k * n,
{
    lemma_mul_is_commutative(k, n);
    lemma_fundamental_div_mod_converse(k * n + n - 1, n, k, n - 1);
    lemma_div_is_ordered(y + n - 1, k * n + n - 1, n);
    lemma_mul_inequality((y + n - 1) / n, k, n);
}

/// The blocks that are still to be transferred, where the device does not have them all.
proof fn lemma_blocks_refused(d: DiskView, t: TransferView, disk: Seq<u8>)
    requires
        d.block.len() > 0,
        0 <= d.seek,
        0 <= t.done < t.data.len(),
        round_up(d.seek + t.data.len() - t.done, d.block.len() as int) > disk.len(),
    ensures
        ({
            let (d1, t1, a1) = next_block(d, t);
            conclude(d1, t1, a1, disk) is None
        }),
    decreases t.data.len() - t.done,
{
    let n = d.block.len() as int;
    let (d1, t1, a1) = next_block(d, t);
    lemma_block(d.seek, n);
    let at = block_start(d);
    if at + n <= disk.len() {
        let k = d.seek / n + 1;
        lemma_mul_is_distributive_add_other_way(n, d.seek / n, 1);
        if d.seek + t.data.len() - t.done <= at + n {
            lemma_round_up_within(d.seek + t.data.len() - t.done, k, n);
        }
        let bytes = disk.subrange(at, at + n);
        let c = chunk(d, t);
        let off = block_offset(d);
        assert(serve(disk, a1) == Some((disk, EventView::ReadDone(bytes))));
        if t.write {
            let patched = overlay(bytes, off, t.data.subrange(t.done, t.done + c));
            let d2 = DiskView { block: patched, ..d1 };
            let t2 = TransferView { phase: Phase::Store, ..t1 };
            let a2 = ActionView::Write { at, bytes: patched };
            assert(io_step(d1, t1, EventView::ReadDone(bytes)) == (d2, t2, a2));
            let disk2 = overlay(disk, at, patched);
            assert(serve(disk, a2) == Some((disk2, EventView::WriteDone)));
            assert(conclude(d1, t1, a1, disk) == conclude(d2, t2, a2, disk));
            let (d3, t3) = advanced(d2, t2, c);
            assert(io_step(d2, t2, EventView::WriteDone) == next_block(d3, t3));
            lemma_blocks_refused(d3, t3, disk2);
        } else {
            let filled = overlay(t1.data, t1.done, bytes.subrange(off, off + c));
            let (d2, t2) = advanced(
                DiskView { block: bytes, ..d1 },
                TransferView { data: filled, ..t1 },
                c,
            );
            assert(io_step(d1, t1, EventView::ReadDone(bytes)) == next_block(d2, t2));
            lemma_blocks_refused(d2, t2, disk);
        }
    }
}

/// Does the device have every block that the transfer touches?
pub open spec fn blocks_present(d: DiskView, t: TransferView, disk: Seq<u8>) -> bool {
    t.data.len() == 0 || round_up(d.seek + t.data.len(), d.block.len() as int) <= disk.len()
}

/// A transfer that has not begun, on a disk with blocks.
pub open spec fn fresh(d: DiskView, t: TransferView) -> bool {
    &&& d.block.len() > 0
    &&& 0 <= d.seek
    &&& t.done == 0
    &&& t.phase == Phase::Start
}

/// A whole-block transfer needs exactly its own bytes.
proof fn lemma_aligned(d: DiskView, t: TransferView, disk: Seq<u8>)
    requires
        fresh(d, t),
        aligned(d, t),
    ensures
        blocks_present(d, t, disk) <==> (t.data.len() == 0 || d.seek + t.data.len() <= disk.len()),
{
    let n = d.block.len() as int;
    lemma_mod_adds(d.seek, t.data.len() as int, n);
    lemma_round_up(d.seek + t.data.len(), n);
    lemma_small_mod(0, n as nat);
    lemma_block(d.seek + t.data.len(), n);
}

/// A transfer goes through exactly when the device has every block that it touches, whether or
/// not it is made of whole blocks.
pub proof fn law_transfer_needs_its_blocks(d: DiskView, t: TransferView, disk: Seq<u8>)
    requires
        fresh(d, t),
    ensures
        transfer(d, t, disk) is Some <==> blocks_present(d, t, disk),
{
    let (d1, t1, a1) = io_step(d, t, EventView::Begin);
    if aligned(d, t) {
        lemma_aligned(d, t, disk);
        assert(pending(d1, t1, a1));
        if blocks_present(d, t, disk) {
            if t.write {
                law_write_replaces_exactly_its_range(d, t, disk);
            } else {
                law_read_returns_what_is_there(d, t, disk);
            }
        }
    } else if blocks_present(d, t, disk) {
        if t.write {
            lemma_write_blocks(d, t, disk);
        } else {
            lemma_read_blocks(d, t, disk);
        }
    } else {
        lemma_blocks_refused(d, t, disk);
    }
}

/// A read returns the bytes that the disk holds from the position on, changes nothing on the disk,
/// and moves the position past them.
pub proof fn law_read_returns_what_is_there(d: DiskView, t: TransferView, disk: Seq<u8>)
    requires
        fresh(d, t),
        !t.write,
        blocks_present(d, t, disk),
    ensures
        transfer(d, t, disk) matches Some((d2, t2, disk2)) && {
            &&& disk2 == disk
            &&& t2.data == Seq::new(t.data.len(), |i: int| disk[d.seek + i])
            &&& t2.done == t.data.len()
            &&& d2.seek == d.seek + t.data.len()
            &&& d2.size == d.size
            &&& d2.block.len() == d.block.len()
        },
{
    let (d1, t1, a1) = io_step(d, t, EventView::Begin);
    let want = Seq::new(t.data.len(), |i: int| disk[d.seek + i]);
    if aligned(d, t) {
        lemma_aligned(d, t, disk);
        let bytes = if t.data.len() == 0 {
            Seq::empty()
        } else {
            disk.subrange(d.seek, d.seek + t.data.len())
        };
        assert(serve(disk, a1) == Some((disk, EventView::ReadDone(bytes))));
        assert(bytes =~= want);
        let (d2, t2) = advanced(d1, TransferView { data: bytes, ..t1 }, t.data.len() as int);
        assert(io_step(d1, t1, EventView::ReadDone(bytes)) == next_block(d2, t2));
        lemma_read_blocks(d2, t2, disk);
        assert(conclude(d1, t1, a1, disk)->Some_0.1.data =~= want);
    } else {
        lemma_read_blocks(d, t, disk);
        assert(transfer(d, t, disk)->Some_0.1.data =~= want);
    }
}

/// A write replaces exactly the bytes from the position on by its own, leaves every other byte of
/// the disk as it was, and moves the position past them.
pub proof fn law_write_replaces_exactly_its_range(d: DiskView, t: TransferView, disk: Seq<u8>)
    requires
        fresh(d, t),
        t.write,
        blocks_present(d, t, disk),
    ensures
        transfer(d, t, disk) matches Some((d2, t2, disk2)) && {
            &&& disk2 == overlay(disk, d.seek, t.data)
            &&& t2.data == t.data
            &&& t2.done == t.data.len()
            &&& d2.seek == d.seek + t.data.len()
            &&& d2.size == d.size
            &&& d2.block.len() == d.block.len()
        },
{
    let (d1, t1, a1) = io_step(d, t, EventView::Begin);
    assert(t.data.skip(0) =~= t.data);
    if aligned(d, t) {
        lemma_aligned(d, t, disk);
        let disk1 = overlay(disk, d.seek, t.data);
        assert(serve(disk, a1) == Some((disk1, EventView::WriteDone)));
        let (d2, t2) = advanced(d1, t1, t.data.len() as int);
        assert(io_step(d1, t1, EventView::WriteDone) == next_block(d2, t2));
        lemma_write_blocks(d2, t2, disk1);
        assert(overlay(disk1, d2.seek, t2.data.skip(t2.done)) =~= disk1);
    } else {
        lemma_write_blocks(d, t, disk);
    }
}

/// What was written is what a later read at the same position returns.
pub proof fn law_read_back(d: DiskView, w: TransferView, r: TransferView, disk: Seq<u8>)
    requires
        fresh(d, w),
        w.write,
        fresh(d, r),
        !r.write,
        r.data.len() == w.data.len(),
        blocks_present(d, w, disk),
    ensures
        transfer(d, w, disk) matches Some((d2, _, disk2)) && transfer(
            DiskView { seek: d.seek, ..d2 },
            r,
            disk2,
        ) matches Some((_, r2, disk3)) && r2.data == w.data && disk3 == disk2,
{
    law_write_replaces_exactly_its_range(d, w, disk);
    let (d2, w2, disk2) = transfer(d, w, disk)->Some_0;
    let d3 = DiskView { seek: d.seek, ..d2 };
    law_read_returns_what_is_there(d3, r, disk2);
    lemma_round_up(d.seek + w.data.len(), d.block.len() as int);
    assert(transfer(d3, r, disk2)->Some_0.1.data =~= w.data);
}

/// The state of a transfer with a device that holds `disk`, after the device served `n` more
/// requests; it stays as it is at a request that is refused, and at the end.
pub open spec fn served(
    d: DiskView,
    t: TransferView,
    a: ActionView,
    disk: Seq<u8>,
    n: nat,
) -> (DiskView, TransferView, ActionView, Seq<u8>)
    decreases n,
{
    if n == 0 {
        (d, t, a, disk)
    } else {
        let (d1, t1, a1, disk1) = served(d, t, a, disk, (n - 1) as nat);
        match serve(disk1, a1) {
            None => (d1, t1, a1, disk1),
            Some((disk2, e)) => {
                let (d2, t2, a2) = io_step(d1, t1, e);
                (d2, t2, a2, disk2)
            },
        }
    }
}

/// Has a transfer `t0` from position `s` on, with a device that held `disk0`, come so far that
/// exactly its first `t.done` bytes are transferred?
pub open spec fn so_far(
    s: int,
    t0: TransferView,
    disk0: Seq<u8>,
    d: DiskView,
    t: TransferView,
    disk: Seq<u8>,
) -> bool {
    &&& 0 <= t.done <= t0.data.len()
    &&& d.seek == s + t.done
    &&& t.write == t0.write
    &&& if t0.write {
        &&& t.data == t0.data
        &&& disk == overlay(disk0, s, t0.data.take(t.done))
    } else {
        &&& disk == disk0
        &&& t.data == Seq::new(
            t0.data.len(),
            |i: int|
                if i < t.done {
                    disk0[s + i]
                } else {
                    t0.data[i]
                },
        )
    }
}

/// Is the block that is about to be written back the one under the position, with the bytes of the
/// transfer in it and all others as they are on the device?
spec fn store_is_right(d: DiskView, t: TransferView, disk: Seq<u8>) -> bool {
    t.phase == Phase::Store ==> {
        let at = block_start(d);
        let n = d.block.len() as int;
        &&& at + n <= disk.len()
        &&& d.block == overlay(
            disk.subrange(at, at + n),
            block_offset(d),
            t.data.subrange(t.done, t.done + chunk(d, t)),
        )
    }
}

/// One more served request keeps the account of what is transferred.
proof fn lemma_one_more_served(
    s: int,
    t0: TransferView,
    disk0: Seq<u8>,
    d: DiskView,
    t: TransferView,
    a: ActionView,
    disk: Seq<u8>,
)
    requires
        pending(d, t, a),
        so_far(s, t0, disk0, d, t, disk),
        store_is_right(d, t, disk),
        disk.len() == disk0.len(),
        0 <= s,
        serve(disk, a) is Some,
    ensures
        ({
            let (disk2, e) = serve(disk, a)->Some_0;
            let (d2, t2, a2) = io_step(d, t, e);
            &&& pending(d2, t2, a2)
            &&& so_far(s, t0, disk0, d2, t2, disk2)
            &&& store_is_right(d2, t2, disk2)
            &&& disk2.len() == disk0.len()
        }),
{
    law_transfer_goes_on(d, t, a, disk);
    let n = d.block.len() as int;
    lemma_block(d.seek, n);
    let (disk2, e) = serve(disk, a)->Some_0;
    let (d2, t2, a2) = io_step(d, t, e);
    let c = chunk(d, t);
    let off = block_offset(d);
    let at = block_start(d);
    match t.phase {
        Phase::Whole => {
            if t.write {
                assert(t.data.take(t.data.len() as int) =~= t.data);
                assert(disk2 =~= overlay(disk0, s, t0.data));
            } else {
                assert(t2.data =~= Seq::new(
                    t0.data.len(),
                    |i: int|
                        if i < t2.done {
                            disk0[s + i]
                        } else {
                            t0.data[i]
                        },
                ));
            }
        },
        Phase::Fetch => {
            if t.write {
                assert(chunk(d2, t2) == c);
            } else {
                assert(t2.data =~= Seq::new(
                    t0.data.len(),
                    |i: int|
                        if i < t2.done {
                            disk0[s + i]
                        } else {
                            t0.data[i]
                        },
                ));
            }
        },
        Phase::Store => {
            assert(t2.done == t.done + c);
            assert(disk2 =~= overlay(disk0, s, t0.data.take(t2.done)));
        },
        _ => {},
    }
}

/// A transfer that a device breaks off stands where the completed requests left it. After any number
/// of served requests the position has moved by the bytes that are transferred, and exactly those
/// are: a read has filled that much of its buffer and changed nothing on the disk, a write has
/// replaced that much of the disk and nothing else. A transfer of whole blocks has moved nothing
/// until it ends.
pub proof fn law_a_broken_transfer_stands_where_it_got(
    d: DiskView,
    t: TransferView,
    disk: Seq<u8>,
    n: nat,
)
    requires
        fresh(d, t),
    ensures
        ({
            let (d1, t1, a1) = io_step(d, t, EventView::Begin);
            let (d2, t2, a2, disk2) = served(d1, t1, a1, disk, n);
            &&& so_far(d.seek, t, disk, d2, t2, disk2)
            &&& d2.size == d.size
            &&& t2.phase == Phase::Whole ==> t2.done == 0 && d2 == d && t2.data == t.data && disk2
                == disk
        }),
{
    let (d1, t1, a1) = io_step(d, t, EventView::Begin);
    lemma_all_served(d, t, disk, n);
    let (d2, t2, a2, disk2) = served(d1, t1, a1, disk, n);
    if t2.phase == Phase::Whole {
        lemma_whole_is_untouched(d, t, disk, n);
    }
}

/// A transfer of whole blocks that has not ended is as it began.
proof fn lemma_whole_is_untouched(d: DiskView, t: TransferView, disk: Seq<u8>, n: nat)
    requires
        fresh(d, t),
        ({
            let (d1, t1, a1) = io_step(d, t, EventView::Begin);
            served(d1, t1, a1, disk, n).1.phase == Phase::Whole
        }),
    ensures
        ({
            let (d1, t1, a1) = io_step(d, t, EventView::Begin);
            &&& served(d1, t1, a1, disk, n) == (d1, t1, a1, disk)
            &&& d1 == d
            &&& t1.data == t.data
            &&& t1.done == 0
        }),
    decreases n,
{
    let (d1, t1, a1) = io_step(d, t, EventView::Begin);
    if n > 0 {
        let m = (n - 1) as nat;
        lemma_all_served(d, t, disk, m);
        let (d2, t2, a2, disk2) = served(d1, t1, a1, disk, m);
        if serve(disk2, a2) is Some {
            law_transfer_goes_on(d2, t2, a2, disk2);
        }
        lemma_whole_is_untouched(d, t, disk, m);
    }
}

/// The account holds after any number of served requests.
proof fn lemma_all_served(d: DiskView, t: TransferView, disk: Seq<u8>, n: nat)
    requires
        fresh(d, t),
    ensures
        ({
            let (d1, t1, a1) = io_step(d, t, EventView::Begin);
            let (d2, t2, a2, disk2) = served(d1, t1, a1, disk, n);
            &&& pending(d2, t2, a2)
            &&& so_far(d.seek, t, disk, d2, t2, disk2)
            &&& store_is_right(d2, t2, disk2)
            &&& disk2.len() == disk.len()
            &&& d2.size == d.size
        }),
    decreases n,
{
    let (d1, t1, a1) = io_step(d, t, EventView::Begin);
    if n == 0 {
        lemma_block(d.seek, d.block.len() as int);
        if t.write {
            assert(overlay(disk, d.seek, t.data.take(0)) =~= disk);
        } else {
            assert(t1.data =~= Seq::new(
                t.data.len(),
                |i: int|
                    if i < 0 {
                        disk[d.seek + i]
                    } else {
                        t.data[i]
                    },
            ));
        }
    } else {
        let m = (n - 1) as nat;
        lemma_all_served(d, t, disk, m);
        let (d2, t2, a2, disk2) = served(d1, t1, a1, disk, m);
        if serve(disk2, a2) is Some {
            lemma_one_more_served(d.seek, t, disk, d2, t2, a2, disk2);
        }
    }
}

/// A seek from the start ends at exactly the offset that was asked for, wherever on the disk that is,
/// and at the end of the disk for every offset beyond it.
pub proof fn law_a_seek_from_the_start_ends_where_asked(d: DiskView, offset: u64)
    requires
        0 <= d.size,
    ensures
        offset <= d.size ==> seek_target(d, SeekPos::Start(offset)) == offset,
        offset >= d.size ==> seek_target(d, SeekPos::Start(offset)) == d.size,
{
}

/// A seek from the end or from the position goes as far as it was asked to, and to the end or the
/// start of the disk where that is off it. Where the sum does not fit its type it wraps around to a
/// negative one, which is off the start.
pub proof fn law_a_relative_seek_goes_as_far_as_asked(d: DiskView, offset: i64)
    requires
        0 <= d.size <= i64::MAX,
        0 <= d.seek <= i64::MAX,
    ensures
        0 <= d.size + offset <= d.size ==> seek_target(d, SeekPos::End(offset)) == d.size + offset,
        0 <= d.seek + offset <= d.size ==> seek_target(d, SeekPos::Current(offset)) == d.seek
            + offset,
        d.size < d.size + offset <= i64::MAX ==> seek_target(d, SeekPos::End(offset)) == d.size,
        d.size < d.seek + offset <= i64::MAX ==> seek_target(d, SeekPos::Current(offset)) == d.size,
        d.size + offset < 0 || d.size + offset > i64::MAX ==> seek_target(d, SeekPos::End(offset))
            == 0,
        d.seek + offset < 0 || d.seek + offset > i64::MAX ==> seek_target(
            d,
            SeekPos::Current(offset),
        ) == 0,
{
}

/// Seeking to a position and seeking there step by step are the same: from wherever the disk stands,
/// the distance to a place on it leads to that place.
pub proof fn law_seeks_agree(d: DiskView, at: u64)
    requires
        0 <= d.seek <= i64::MAX,
        0 <= d.size <= i64::MAX,
        at <= d.size,
    ensures
        seek_target(d, SeekPos::Start(at)) == at,
        seek_target(d, SeekPos::Current((at - d.seek) as i64)) == at,
        seek_target(d, SeekPos::End((at - d.size) as i64)) == at,
{
}

/// The block size is the one that the device reported, whatever it is; a report that says nothing
/// usable is an error that tells what was reported.
pub proof fn law_the_reported_block_size_is_used(n: u64, rc: i32, sector_size: i32)
    ensures
        0 < n <= usize::MAX ==> reported_size(BlockReport::Status(n)) is Ok && reported_size(
            BlockReport::Status(n),
        )->Ok_0 as int == n,
        reported_size(BlockReport::Status(0)) == Err::<usize, _>(BlockSizeError::Reported(0)),
        rc == 0 && sector_size > 0 ==> reported_size(BlockReport::Sector { rc, sector_size }) is Ok
            && reported_size(BlockReport::Sector { rc, sector_size })->Ok_0 as int == sector_size,
        rc == 0 && sector_size <= 0 ==> reported_size(BlockReport::Sector { rc, sector_size })
            == Err::<usize, _>(BlockSizeError::Reported(sector_size)),
        rc != 0 ==> reported_size(BlockReport::Sector { rc, sector_size }) == Err::<usize, _>(
            BlockSizeError::Os,
        ),
{
}

/// A device is asked in the way of its system: its status on Redox, the ioctl on Linux. Elsewhere
/// nothing is asked.
pub proof fn law_a_device_is_asked_in_the_way_of_its_system(
    block_device: bool,
    st_blksize: u64,
    rc: i32,
    sector_size: i32,
)
    ensures
        report_of(TargetOs::Redox, false, block_device, st_blksize, rc, sector_size)
            == BlockReport::Status(st_blksize),
        report_of(TargetOs::Linux, false, true, st_blksize, rc, sector_size) == (
        BlockReport::Sector { rc, sector_size }),
        report_of(TargetOs::Linux, false, false, st_blksize, rc, sector_size)
            == BlockReport::Image,
        report_of(TargetOs::Other, false, block_device, st_blksize, rc, sector_size)
            == BlockReport::Image,
{
}

/// The size that was reported stands in the error, with its sign.
pub proof fn law_the_size_error_names_the_size(n: nat)
    ensures
        size_error_text(n as int) == "device reported a logical block size of "@ + text::decimal(n),
        n > 0 ==> size_error_text(-n) == "device reported a logical block size of -"@
            + text::decimal(n),
{
    reveal_strlit("device reported a logical block size of ");
    reveal_strlit("device reported a logical block size of -");
    text::law_signed_decimal_writes_the_sign(n);
    if n > 0 {
        assert(size_error_text(-n) =~= "device reported a logical block size of -"@
            + text::decimal(n));
    }
}

/// After a write every byte of its range is the byte that was written, and every other byte of the
/// disk is what it was; the disk keeps its length.
pub proof fn law_each_byte_is_written_or_left(
    d: DiskView,
    t: TransferView,
    disk: Seq<u8>,
    j: int,
)
    requires
        fresh(d, t),
        t.write,
        blocks_present(d, t, disk),
        0 <= j < disk.len(),
    ensures
        transfer(d, t, disk) matches Some((d2, t2, disk2)) && {
            &&& disk2.len() == disk.len()
            &&& d.seek <= j < d.seek + t.data.len() ==> disk2[j] == t.data[j - d.seek]
            &&& j < d.seek || j >= d.seek + t.data.len() ==> disk2[j] == disk[j]
        },
{
    law_write_replaces_exactly_its_range(d, t, disk);
}

/// However far a write has come, every byte that its position passed is the byte that was written,
/// and every other byte is what it was.
pub proof fn law_each_byte_of_a_broken_write_is_written_or_left(
    d: DiskView,
    t: TransferView,
    disk: Seq<u8>,
    n: nat,
    j: int,
)
    requires
        fresh(d, t),
        t.write,
        0 <= j < disk.len(),
    ensures
        ({
            let (d1, t1, a1) = io_step(d, t, EventView::Begin);
            let (d2, t2, a2, disk2) = served(d1, t1, a1, disk, n);
            &&& disk2.len() == disk.len()
            &&& d.seek <= d2.seek <= d.seek + t.data.len()
            &&& d.seek <= j < d2.seek ==> disk2[j] == t.data[j - d.seek]
            &&& j < d.seek || j >= d2.seek ==> disk2[j] == disk[j]
        }),
{
    lemma_all_served(d, t, disk, n);
}

/// A transfer of whole blocks is one request, for all of it; any other begins by reading the one
/// block in which the position lies, and one of nothing ends at once.
pub proof fn law_whole_blocks_go_in_one_piece(d: DiskView, t: TransferView)
    requires
        fresh(d, t),
    ensures
        ({
            let n = d.block.len() as int;
            let len = t.data.len() as int;
            let a = io_step(d, t, EventView::Begin).2;
            if d.seek % n == 0 && len % n == 0 {
                a == if t.write {
                    ActionView::Write { at: d.seek, bytes: t.data }
                } else {
                    ActionView::Read { at: d.seek, len }
                }
            } else if len > 0 {
                a == ActionView::Read { at: d.seek - d.seek % n, len: n }
            } else {
                a == ActionView::Done { count: 0 }
            }
        }),
{
    lemma_block(d.seek, d.block.len() as int);
}

/// The length of a block never changes during a transfer.
proof fn lemma_block_length_stays(d: DiskView, t: TransferView, disk: Seq<u8>, n: nat)
    requires
        fresh(d, t),
    ensures
        ({
            let (d1, t1, a1) = io_step(d, t, EventView::Begin);
            served(d1, t1, a1, disk, n).0.block.len() == d.block.len()
        }),
    decreases n,
{
    if n > 0 {
        let (d1, t1, a1) = io_step(d, t, EventView::Begin);
        let m = (n - 1) as nat;
        lemma_block_length_stays(d, t, disk, m);
        lemma_all_served(d, t, disk, m);
    }
}

/// Every request of a transfer begins at a block and moves whole blocks, however far the transfer
/// has come; at its end all of its bytes count.
pub proof fn law_requests_move_whole_blocks(d: DiskView, t: TransferView, disk: Seq<u8>, n: nat)
    requires
        fresh(d, t),
    ensures
        ({
            let size = d.block.len() as int;
            let (d1, t1, a1) = io_step(d, t, EventView::Begin);
            match served(d1, t1, a1, disk, n).2 {
                ActionView::Read { at, len } => at % size == 0 && len % size == 0,
                ActionView::Write { at, bytes } => at % size == 0 && bytes.len() as int % size == 0,
                ActionView::Done { count } => count == t.data.len(),
            }
        }),
{
    let size = d.block.len() as int;
    let (d1, t1, a1) = io_step(d, t, EventView::Begin);
    let (d2, t2, a2, disk2) = served(d1, t1, a1, disk, n);
    lemma_all_served(d, t, disk, n);
    lemma_block_length_stays(d, t, disk, n);
    lemma_block(d2.seek, size);
    lemma_mod_multiples_basic(d2.seek / size, size);
    lemma_mod_self_0(size);
    if t2.phase == Phase::Whole {
        lemma_whole_is_untouched(d, t, disk, n);
    }
}

} // verus!
