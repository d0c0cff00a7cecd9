//! The boxes that an MP4 stream is made of, and whether a box can be handed to a reader of boxes.
//!
//! The reader walks through nested boxes by their sizes. A box of size zero takes it back to where
//! it was, for ever; a few sizes in metadata lead it out of memory or are too small to subtract
//! from; and a size may lead beyond the last position that can be counted. What is said here keeps
//! it from all of these, and refuses no box that the reader would have come through.
use crate::outside;
use vstd::prelude::*;

verus! {

pub const META: u32 = 0x6d657461;
pub const HDLR: u32 = 0x68646c72;
pub const ILST: u32 = 0x696c7374;
pub const DATA: u32 = 0x64617461;
/// The handler of metadata that is kept in items.
pub const MDIR: u32 = 0x6d646972;

/// Four bytes as a number, the first the highest.
pub open spec fn be32(s: Seq<u8>, p: int) -> u32 {
    (s[p] * 0x100_0000 + s[p + 1] * 0x1_0000 + s[p + 2] * 0x100 + s[p + 3]) as u32
}

/// Eight bytes as a number, the first the highest.
pub open spec fn be64(s: Seq<u8>, p: int) -> u64 {
    (be32(s, p) * 0x1_0000_0000 + be32(s, p + 4)) as u64
}

pub fn read_be32(s: &[u8], p: usize) -> (n: u32)
    requires
        p + 4 <= s@.len(),
    ensures
        n == be32(s@, p as int),
{
    let n: usize = s.len();
    assert(p + 4 <= n);
    s[p] as u32 * 0x100_0000 + s[p + 1] as u32 * 0x1_0000 + s[p + 2] as u32 * 0x100 + s[p + 3]
        as u32
}

pub fn read_be64(s: &[u8], p: usize) -> (n: u64)
    requires
        p + 8 <= s@.len(),
    ensures
        n == be64(s@, p as int),
{
    let n: usize = s.len();
    assert(p + 8 <= n);
    read_be32(s, p) as u64 * 0x1_0000_0000 + read_be32(s, p + 4) as u64
}

/// The header of a box: its type, its size and where its body starts. The size counts eight bytes
/// of header.
#[derive(Debug, Clone, Copy, PartialEq, Eq, Structural)]
pub struct BoxHeader {
    pub kind: u32,
    pub size: u64,
    pub body: u128,
}

impl BoxHeader {
    /// Where the box ends.
    pub open spec fn next(self) -> int {
        self.body - 8 + self.size
    }
}

/// The header at a position. `None` if the bytes do not reach, or a long size is too small.
pub open spec fn header_at(s: Seq<u8>, p: int) -> Option<BoxHeader> {
    if p + 8 > s.len() || s.len() > u64::MAX {
        None
    } else {
        let n = be32(s, p);
        let kind = be32(s, p + 4);
        if n != 1 {
            Some(BoxHeader { kind, size: n as u64, body: (p + 8) as u128 })
        } else if p + 16 > s.len() {
            None
        } else {
            let long = be64(s, p + 8);
            if long == 0 {
                Some(BoxHeader { kind, size: 0, body: (p + 16) as u128 })
            } else if long < 16 {
                None
            } else {
                Some(BoxHeader { kind, size: (long - 8) as u64, body: (p + 16) as u128 })
            }
        }
    }
}

fn read_header(s: &[u8], p: u128) -> (r: Option<BoxHeader>)
    ensures
        r == header_at(s@, p as int),
        r matches Some(h) ==> p + 8 <= h.body <= s@.len(),
{
    let len: u128 = s.len() as u128;
    if p > len || len - p < 8 {
        return None;
    }
    let at: usize = p as usize;
    let n: u32 = read_be32(s, at);
    let kind: u32 = read_be32(s, at + 4);
    if n != 1 {
        return Some(BoxHeader { kind, size: n as u64, body: p + 8 });
    }
    if len - p < 16 {
        return None;
    }
    let long: u64 = read_be64(s, at + 8);
    if long == 0 {
        Some(BoxHeader { kind, size: 0, body: p + 16 })
    } else if long < 16 {
        None
    } else {
        Some(BoxHeader { kind, size: long - 8, body: p + 16 })
    }
}

/// The boxes that hold boxes.
#[derive(Debug, Clone, Copy, PartialEq, Eq, Structural)]
pub enum Container {
    Moof,
    Traf,
    Moov,
    Trak,
    Mdia,
    Minf,
    Dinf,
    Stbl,
    Mvex,
    Udta,
    Ilst,
    Item,
}

impl Container {
    /// What a box of a type inside a container holds, if it holds boxes.
    pub open spec fn inner(self, kind: u32) -> Option<Container> {
        match self {
            Container::Moof => if kind == 0x74726166 {
                Some(Container::Traf)
            } else {
                None
            },
            Container::Moov => if kind == 0x7472616b {
                Some(Container::Trak)
            } else if kind == 0x6d766578 {
                Some(Container::Mvex)
            } else if kind == 0x75647461 {
                Some(Container::Udta)
            } else {
                None
            },
            Container::Trak => if kind == 0x6d646961 {
                Some(Container::Mdia)
            } else {
                None
            },
            Container::Mdia => if kind == 0x6d696e66 {
                Some(Container::Minf)
            } else {
                None
            },
            Container::Minf => if kind == 0x64696e66 {
                Some(Container::Dinf)
            } else if kind == 0x7374626c {
                Some(Container::Stbl)
            } else {
                None
            },
            Container::Ilst => if kind == 0xa96e616d || kind == 0xa9646179 || kind == 0x636f7672
                || kind == 0x64657363 {
                Some(Container::Item)
            } else {
                None
            },
            _ => None,
        }
    }

    fn inner_of(self, kind: u32) -> (r: Option<Container>)
        ensures
            r == self.inner(kind),
    {
        match self {
            Container::Moof => if kind == 0x74726166 {
                Some(Container::Traf)
            } else {
                None
            },
            Container::Moov => if kind == 0x7472616b {
                Some(Container::Trak)
            } else if kind == 0x6d766578 {
                Some(Container::Mvex)
            } else if kind == 0x75647461 {
                Some(Container::Udta)
            } else {
                None
            },
            Container::Trak => if kind == 0x6d646961 {
                Some(Container::Mdia)
            } else {
                None
            },
            Container::Mdia => if kind == 0x6d696e66 {
                Some(Container::Minf)
            } else {
                None
            },
            Container::Minf => if kind == 0x64696e66 {
                Some(Container::Dinf)
            } else if kind == 0x7374626c {
                Some(Container::Stbl)
            } else {
                None
            },
            Container::Ilst => if kind == 0xa96e616d || kind == 0xa9646179 || kind == 0x636f7672
                || kind == 0x64657363 {
                Some(Container::Item)
            } else {
                None
            },
            _ => None,
        }
    }

    /// Whether a container may hold metadata.
    pub open spec fn has_meta(self) -> bool {
        self is Moov || self is Trak || self is Udta
    }

    fn may_hold_meta(self) -> (b: bool)
        ensures
            b == self.has_meta(),
    {
        match self {
            Container::Moov | Container::Trak | Container::Udta => true,
            _ => false,
        }
    }

    /// How deep a container can nest.
    pub open spec fn rank(self) -> nat {
        match self {
            Container::Moov => 6,
            Container::Trak => 5,
            Container::Mdia => 4,
            Container::Udta => 4,
            Container::Minf => 3,
            Container::Ilst => 2,
            Container::Moof => 2,
            Container::Dinf => 1,
            Container::Stbl => 1,
            Container::Mvex => 1,
            Container::Item => 1,
            Container::Traf => 1,
        }
    }
}

/// What is left from `p` to `end`.
pub open spec fn left(p: int, end: int) -> nat {
    if p < end {
        (end - p) as nat
    } else {
        0
    }
}

/// Whether the boxes of a container from `p` up to `end` can be read: none that is reached has the
/// size zero or ends beyond what can be counted, and the same holds of the boxes inside them. The
/// data of an item fits into the bytes. A box that is larger than its container, or broken off,
/// ends the reading.
pub open spec fn nested_ok(s: Seq<u8>, c: Container, p: int, end: int, size: u64) -> bool
    decreases c.rank(), left(p, end),
{
    if p >= end || p < 0 {
        true
    } else {
        match header_at(s, p) {
            None => true,
            Some(h) => {
                if h.size > size {
                    true
                } else {
                    &&& h.size > 0
                    &&& h.next() <= u64::MAX
                    &&& match c.inner(h.kind) {
                        Some(d) => nested_ok(s, d, h.body as int, h.next(), h.size),
                        None => c is Item && h.kind == DATA ==> 16 <= h.size <= s.len(),
                    }
                    &&& nested_ok(s, c, h.next(), end, size)
                }
            },
        }
    }
}

/// Where the boxes from `p` on first reach `end`.
pub open spec fn chain_end(s: Seq<u8>, p: int, end: int) -> int
    decreases left(p, end),
{
    if p >= end {
        p
    } else {
        match header_at(s, p) {
            Some(h) if h.size > 0 && p >= 0 => chain_end(s, h.next(), end),
            _ => p,
        }
    }
}

/// Where the boxes of a metadata box start: behind a word of zeros, or at once if a handler comes
/// first. `None` if it starts in neither way.
pub open spec fn meta_content(s: Seq<u8>, h: BoxHeader) -> Option<int> {
    if h.body + 4 > s.len() {
        None
    } else if be32(s, h.body as int) == 0 {
        Some(h.body + 4)
    } else if h.body + 8 > s.len() {
        None
    } else if be32(s, h.body + 4) == HDLR {
        Some(h.body as int)
    } else {
        None
    }
}

/// The handler that the boxes of a metadata box name: the last one counts.
pub open spec fn handler_of(s: Seq<u8>, p: int, end: int, found: Option<u32>) -> Option<u32>
    decreases left(p, end),
{
    if p >= end {
        found
    } else {
        match header_at(s, p) {
            Some(h) if h.size > 0 && p >= 0 => handler_of(
                s,
                h.next(),
                end,
                if h.kind == HDLR && h.body + 12 <= s.len() {
                    Some(be32(s, h.body + 8))
                } else {
                    found
                },
            ),
            _ => found,
        }
    }
}

/// What is asked of a box of metadata: first of every box, then by the handler.
pub open spec fn meta_box_ok(s: Seq<u8>, h: BoxHeader, handler: Option<u32>) -> bool {
    &&& h.size > 0
    &&& h.next() <= u64::MAX
    &&& match handler {
        None => h.kind == HDLR ==> h.size <= s.len(),
        Some(t) => if t == MDIR {
            h.kind == ILST ==> nested_ok(s, Container::Ilst, h.body as int, h.next(), h.size)
        } else {
            h.kind != HDLR ==> 8 <= h.size <= s.len()
        },
    }
}

/// Whether the boxes of a metadata box from `p` on are as asked.
pub open spec fn meta_boxes_ok(s: Seq<u8>, p: int, end: int, handler: Option<u32>) -> bool
    decreases left(p, end),
{
    if p >= end || p < 0 {
        true
    } else {
        match header_at(s, p) {
            None => true,
            Some(h) => if h.size > 0 {
                meta_box_ok(s, h, handler) && meta_boxes_ok(s, h.next(), end, handler)
            } else {
                false
            },
        }
    }
}

/// Whether a metadata box can be read.
pub open spec fn meta_ok(s: Seq<u8>, h: BoxHeader) -> bool {
    match meta_content(s, h) {
        None => true,
        Some(p) => {
            &&& meta_boxes_ok(s, p, h.next(), None)
            &&& match handler_of(s, p, h.next(), None) {
                None => true,
                Some(t) => meta_boxes_ok(s, p, h.next(), Some(t)),
            }
        },
    }
}

/// Where the reader stands behind a metadata box.
pub open spec fn after_meta(s: Seq<u8>, h: BoxHeader) -> int {
    match meta_content(s, h) {
        None => h.next(),
        Some(p) => chain_end(s, p, h.next()),
    }
}

proof fn lemma_chain_end_is_ahead(s: Seq<u8>, p: int, end: int)
    ensures
        chain_end(s, p, end) >= p,
    decreases left(p, end),
{
    if p < end {
        if let Some(h) = header_at(s, p) {
            if h.size > 0 && p >= 0 {
                lemma_chain_end_is_ahead(s, h.next(), end);
            }
        }
    }
}

/// Whether the boxes of a container that may hold metadata can be read.
pub open spec fn readable(s: Seq<u8>, c: Container, p: int, end: int, size: u64) -> bool
    decreases c.rank(), left(p, end),
{
    if p >= end || p < 0 {
        true
    } else {
        match header_at(s, p) {
            None => true,
            Some(h) => {
                if h.size > size {
                    true
                } else if h.size == 0 {
                    false
                } else if h.kind == META {
                    meta_ok(s, h) && (after_meta(s, h) > p ==> readable(
                        s,
                        c,
                        after_meta(s, h),
                        end,
                        size,
                    ))
                } else {
                    &&& match c.inner(h.kind) {
                        Some(d) => if d.has_meta() {
                            readable(s, d, h.body as int, h.next(), h.size)
                        } else {
                            nested_ok(s, d, h.body as int, h.next(), h.size)
                        },
                        None => true,
                    }
                    &&& readable(s, c, h.next(), end, size)
                }
            },
        }
    }
}

/// Whether a whole movie fragment box can be read.
pub open spec fn moof_ok(s: Seq<u8>) -> bool {
    nested_ok(s, Container::Moof, 8, s.len() - 8, (s.len() - 8) as u64)
}

/// Whether a whole movie box can be read.
pub open spec fn moov_ok(s: Seq<u8>) -> bool {
    readable(s, Container::Moov, 8, s.len() - 8, (s.len() - 8) as u64)
}

fn check_nested(s: &[u8], c: Container, p: u128, end: u128, size: u64) -> (b: bool)
    requires
        end <= 0x4_0000_0000_0000_0000,
    ensures
        b == nested_ok(s@, c, p as int, end as int, size),
    decreases c.rank(),
{
    let len: u128 = s.len() as u128;
    let mut q: u128 = p;
    while q < end
        invariant
            len == s@.len(),
            len <= usize::MAX,
            end <= 0x4_0000_0000_0000_0000,
            nested_ok(s@, c, p as int, end as int, size) == nested_ok(
                s@,
                c,
                q as int,
                end as int,
                size,
            ),
        decreases (if q < end { end - q } else { 0 }),
    {
        let h = match read_header(s, q) {
            Some(h) => h,
            None => {
                return true;
            },
        };
        if h.size > size {
            return true;
        }
        if h.size == 0 {
            return false;
        }
        let next: u128 = h.body - 8 + h.size as u128;
        if next > u64::MAX as u128 {
            return false;
        }
        match c.inner_of(h.kind) {
            Some(d) => {
                if !check_nested(s, d, h.body, next, h.size) {
                    return false;
                }
            },
            None => {
                if c == Container::Item && h.kind == DATA && (h.size < 16 || h.size as u128 > len) {
                    return false;
                }
            },
        }
        q = next;
    }
    true
}

fn check_meta_boxes(s: &[u8], p: u128, end: u128, handler: Option<u32>) -> (b: bool)
    requires
        end <= 0x4_0000_0000_0000_0000,
    ensures
        b == meta_boxes_ok(s@, p as int, end as int, handler),
{
    let len: u128 = s.len() as u128;
    let mut q: u128 = p;
    while q < end
        invariant
            len == s@.len(),
            len <= usize::MAX,
            end <= 0x4_0000_0000_0000_0000,
            meta_boxes_ok(s@, p as int, end as int, handler) == meta_boxes_ok(
                s@,
                q as int,
                end as int,
                handler,
            ),
        decreases (if q < end { end - q } else { 0 }),
    {
        let h = match read_header(s, q) {
            Some(h) => h,
            None => {
                return true;
            },
        };
        if h.size == 0 {
            return false;
        }
        let next: u128 = h.body - 8 + h.size as u128;
        if next > u64::MAX as u128 {
            return false;
        }
        let fits = h.size as u128 <= len;
        let ok = match handler {
            None => h.kind != HDLR || fits,
            Some(t) => if t == MDIR {
                h.kind != ILST || check_nested(s, Container::Ilst, h.body, next, h.size)
            } else {
                h.kind == HDLR || (h.size >= 8 && fits)
            },
        };
        if !ok {
            return false;
        }
        q = next;
    }
    true
}

fn find_handler(s: &[u8], p: u128, end: u128) -> (r: (Option<u32>, u128))
    requires
        end <= 0x4_0000_0000_0000_0000,
        p <= 0x4_0000_0000_0000_0000,
    ensures
        r.0 == handler_of(s@, p as int, end as int, None),
        r.1 == chain_end(s@, p as int, end as int),
        p <= r.1 <= 0x4_0000_0000_0000_0000,
{
    let len: u128 = s.len() as u128;
    let mut q: u128 = p;
    let mut found: Option<u32> = None;
    while q < end
        invariant
            len == s@.len(),
            len <= usize::MAX,
            end <= 0x4_0000_0000_0000_0000,
            p <= q <= 0x4_0000_0000_0000_0000,
            handler_of(s@, p as int, end as int, None) == handler_of(
                s@,
                q as int,
                end as int,
                found,
            ),
            chain_end(s@, p as int, end as int) == chain_end(s@, q as int, end as int),
        decreases (if q < end { end - q } else { 0 }),
    {
        let h = match read_header(s, q) {
            Some(h) => h,
            None => {
                return (found, q);
            },
        };
        if h.size == 0 {
            return (found, q);
        }
        if h.kind == HDLR && h.body + 12 <= len {
            found = Some(read_be32(s, h.body as usize + 8));
        }
        q = h.body - 8 + h.size as u128;
    }
    (found, q)
}

fn check_meta(s: &[u8], h: &BoxHeader) -> (r: Option<u128>)
    requires
        h.size > 0,
        8 <= h.body <= s@.len(),
    ensures
        match r {
            Some(p) => meta_ok(s@, *h) && p == after_meta(s@, *h) && p
                <= 0x4_0000_0000_0000_0000,
            None => !meta_ok(s@, *h),
        },
{
    let len: u128 = s.len() as u128;
    let next: u128 = h.body - 8 + h.size as u128;
    if h.body + 4 > len {
        return Some(next);
    }
    let at: usize = h.body as usize;
    let p: u128 = if read_be32(s, at) == 0 {
        h.body + 4
    } else if h.body + 8 > len {
        return Some(next);
    } else if read_be32(s, at + 4) == HDLR {
        h.body
    } else {
        return Some(next);
    };
    if !check_meta_boxes(s, p, next, None) {
        return None;
    }
    let (handler, after) = find_handler(s, p, next);
    if handler.is_some() && !check_meta_boxes(s, p, next, handler) {
        return None;
    }
    Some(after)
}

fn check_readable(s: &[u8], c: Container, p: u128, end: u128, size: u64) -> (b: bool)
    requires
        end <= 0x4_0000_0000_0000_0000,
    ensures
        b == readable(s@, c, p as int, end as int, size),
    decreases c.rank(),
{
    let len: u128 = s.len() as u128;
    let mut q: u128 = p;
    while q < end
        invariant
            len == s@.len(),
            len <= usize::MAX,
            end <= 0x4_0000_0000_0000_0000,
            readable(s@, c, p as int, end as int, size) == readable(
                s@,
                c,
                q as int,
                end as int,
                size,
            ),
        decreases (if q < end { end - q } else { 0 }),
    {
        let h = match read_header(s, q) {
            Some(h) => h,
            None => {
                return true;
            },
        };
        if h.size > size {
            return true;
        }
        if h.size == 0 {
            return false;
        }
        let next: u128 = h.body - 8 + h.size as u128;
        if h.kind == META {
            match check_meta(s, &h) {
                Some(after) => {
                    proof {
                        if let Some(x) = meta_content(s@, h) {
                            lemma_chain_end_is_ahead(s@, x, h.next());
                        }
                    }
                    q = after;
                },
                None => {
                    return false;
                },
            }
        } else {
            match c.inner_of(h.kind) {
                Some(d) => {
                    let ok = if d.may_hold_meta() {
                        check_readable(s, d, h.body, next, h.size)
                    } else {
                        check_nested(s, d, h.body, next, h.size)
                    };
                    if !ok {
                        return false;
                    }
                },
                None => {},
            }
            q = next;
        }
    }
    true
}

/// Whether a whole movie fragment box can be read.
pub fn check_moof(s: &[u8]) -> (b: bool)
    requires
        8 <= s@.len(),
    ensures
        b == moof_ok(s@),
{
    let n: u64 = s.len() as u64 - 8;
    check_nested(s, Container::Moof, 8, n as u128, n)
}

/// Whether a whole movie box can be read.
pub fn check_moov(s: &[u8]) -> (b: bool)
    requires
        8 <= s@.len(),
    ensures
        b == moov_ok(s@),
{
    let n: u64 = s.len() as u64 - 8;
    check_readable(s, Container::Moov, 8, n as u128, n)
}

/// A number written in four bytes, the highest first, is read back, wherever it stands and
/// whatever stands around it.
pub proof fn law_four_bytes_are_read_back(s: Seq<u8>, p: int, n: u32)
    requires
        0 <= p,
        p + 4 <= s.len(),
        s.subrange(p, p + 4) == outside::big_endian(n as nat, 4),
    ensures
        be32(s, p) == n,
{
    reveal_with_fuel(outside::big_endian, 5);
    let b = s.subrange(p, p + 4);
    let m = n as nat;
    assert(b[0] == s[p] && b[1] == s[p + 1] && b[2] == s[p + 2] && b[3] == s[p + 3]);
    assert(b[3] == m % 256);
    assert(b[2] == (m / 256) % 256);
    assert(b[1] == (m / 256 / 256) % 256);
    assert(b[0] == (m / 256 / 256 / 256) % 256);
}

proof fn lemma_big_endian_halves(n: nat)
    ensures
        outside::big_endian(n, 8) == outside::big_endian(n / 0x1_0000_0000, 4)
            + outside::big_endian(n, 4),
        outside::big_endian(n, 4) == outside::big_endian(n % 0x1_0000_0000, 4),
        outside::big_endian(n, 4).len() == 4,
        outside::big_endian(n / 0x1_0000_0000, 4).len() == 4,
{
    reveal_with_fuel(outside::big_endian, 5);
    let m = n % 0x1_0000_0000;
    let h = n / 0x1_0000_0000;
    assert(n / 256 / 256 / 256 / 256 == h);
    assert(m % 256 == n % 256);
    assert((m / 256) % 256 == (n / 256) % 256);
    assert((m / 256 / 256) % 256 == (n / 256 / 256) % 256);
    assert((m / 256 / 256 / 256) % 256 == (n / 256 / 256 / 256) % 256);
    assert(outside::big_endian(n, 4) =~= outside::big_endian(m, 4));
    let top = outside::big_endian(h, 4);
    assert(outside::big_endian(n / 256 / 256 / 256 / 256, 4) == top);
    assert(outside::big_endian(n, 8) =~= top + outside::big_endian(n, 4));
}

/// A number written in eight bytes, the highest first, is read back.
pub proof fn law_eight_bytes_are_read_back(s: Seq<u8>, p: int, n: u64)
    requires
        0 <= p,
        p + 8 <= s.len(),
        s.subrange(p, p + 8) == outside::big_endian(n as nat, 8),
    ensures
        be64(s, p) == n,
{
    let m = n as nat;
    lemma_big_endian_halves(m);
    let high = (m / 0x1_0000_0000) as u32;
    let low = (m % 0x1_0000_0000) as u32;
    let b = s.subrange(p, p + 8);
    assert(s.subrange(p, p + 4) =~= b.subrange(0, 4));
    assert(s.subrange(p + 4, p + 8) =~= b.subrange(4, 8));
    assert(b.subrange(0, 4) =~= outside::big_endian(high as nat, 4));
    assert(b.subrange(4, 8) =~= outside::big_endian(low as nat, 4));
    law_four_bytes_are_read_back(s, p, high);
    law_four_bytes_are_read_back(s, p + 4, low);
}

/// The header of a box is read back from where it was written: its kind, where its content starts,
/// and where the next box does, which is as many bytes behind its own start as it says. A size that
/// does not fit the four bytes stands behind the kind.
pub proof fn law_headers_are_read_back(s: Seq<u8>, p: int, kind: u32, size: u64)
    requires
        0 <= p,
        s.len() <= u64::MAX,
        size >= 16,
        p + 16 <= s.len(),
        s.subrange(p + 4, p + 8) == outside::big_endian(kind as nat, 4),
    ensures
        s.subrange(p, p + 4) == outside::big_endian(1, 4) && s.subrange(p + 8, p + 16)
            == outside::big_endian(size as nat, 8) ==> (header_at(s, p) matches Some(h) && h.kind
            == kind && h.body == p + 16 && h.next() == p + size),
        size <= u32::MAX && s.subrange(p, p + 4) == outside::big_endian(size as nat, 4) ==> (
        header_at(s, p) matches Some(h) && h.kind == kind && h.body == p + 8 && h.next() == p
            + size),
{
    law_four_bytes_are_read_back(s, p + 4, kind);
    if s.subrange(p, p + 4) == outside::big_endian(1, 4) {
        law_four_bytes_are_read_back(s, p, 1);
        if s.subrange(p + 8, p + 16) == outside::big_endian(size as nat, 8) {
            law_eight_bytes_are_read_back(s, p + 8, size);
        }
    }
    if size <= u32::MAX && s.subrange(p, p + 4) == outside::big_endian(size as nat, 4) {
        law_four_bytes_are_read_back(s, p, size as u32);
    }
}

/// Boxes are read one behind the other: a box that holds no others and has a size is passed over,
/// one that does is read first, and a box of no size is never passed. A box that says more than its
/// container holds ends the reading.
pub proof fn law_boxes_are_read_one_behind_the_other(
    s: Seq<u8>,
    c: Container,
    p: int,
    end: int,
    size: u64,
    h: BoxHeader,
)
    requires
        0 <= p < end,
        header_at(s, p) == Some(h),
    ensures
        h.size > size ==> nested_ok(s, c, p, end, size) && readable(s, c, p, end, size),
        h.size == 0 ==> !nested_ok(s, c, p, end, size) && !readable(s, c, p, end, size),
        0 < h.size <= size && h.next() <= u64::MAX && c.inner(h.kind) is None && !(c is Item)
            ==> nested_ok(s, c, p, end, size) == nested_ok(s, c, h.next(), end, size),
        0 < h.size <= size && h.next() <= u64::MAX ==> (c.inner(h.kind) matches Some(d) ==> nested_ok(
            s,
            c,
            p,
            end,
            size,
        ) == (nested_ok(s, d, h.body as int, h.next(), h.size) && nested_ok(
            s,
            c,
            h.next(),
            end,
            size,
        ))),
        0 < h.size <= size && h.next() > u64::MAX ==> !nested_ok(s, c, p, end, size),
{
}

/// What is behind the end of a container is not read.
pub proof fn law_reading_ends_with_the_container(
    s: Seq<u8>,
    c: Container,
    p: int,
    end: int,
    size: u64,
)
    requires
        p >= end,
    ensures
        nested_ok(s, c, p, end, size),
        readable(s, c, p, end, size),
{
}

} // verus!
