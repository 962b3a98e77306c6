//! Piece geometry and file layout of a torrent.
//!
//! A torrent is one flat run of bytes. It is cut into pieces of equal length,
//! the last of which may be shorter, and the files follow each other in it
//! without gaps, so a piece may span several files.

use std::ops::Range;

use vstd::arithmetic::div_mod::{lemma_div_is_ordered, lemma_fundamental_div_mod};
use vstd::arithmetic::mul::{lemma_mul_inequality, lemma_mul_is_distributive_add_other_way};
use vstd::prelude::*;

verus! {

/// `a / b` rounded up, for `a >= 0` and `b > 0`.
pub open spec fn ceil_div(a: int, b: int) -> int {
    if a == 0 {
        0
    } else {
        (a - 1) / b + 1
    }
}

/// The number of bytes that the runs `[a, a_end)` and `[b, b_end)` share.
pub open spec fn overlap(a: int, a_end: int, b: int, b_end: int) -> int {
    let start = if a <= b { b } else { a };
    let end = if a_end <= b_end { a_end } else { b_end };
    if start <= end {
        end - start
    } else {
        0
    }
}

/// The length of a torrent and of its pieces.
#[derive(Clone, Copy, Debug)]
pub struct Lengths {
    /// The total length of the torrent in bytes.
    pub total_length: u64,
    /// The length in bytes of each piece but the last, which may be shorter.
    pub piece_length: u32,
}

impl Lengths {
    /// A torrent has at least one byte, and its pieces are numbered by `u32`.
    pub open spec fn wf(self) -> bool {
        &&& self.total_length > 0
        &&& self.piece_length > 0
        &&& self.pieces() <= u32::MAX
    }

    /// The number of pieces.
    pub open spec fn pieces(self) -> int {
        ceil_div(self.total_length as int, self.piece_length as int)
    }

    /// Where piece `index` starts in the torrent.
    pub open spec fn piece_offset(self, index: int) -> int {
        index * self.piece_length
    }

    /// Where piece `index` ends in the torrent.
    pub open spec fn piece_end(self, index: int) -> int {
        let end = self.piece_offset(index + 1);
        if end <= self.total_length {
            end
        } else {
            self.total_length as int
        }
    }

    /// The number of pieces.
    pub fn total_pieces(&self) -> (n: u32)
        requires
            self.wf(),
        ensures
            n == self.pieces(),
    {
        ((self.total_length - 1) / (self.piece_length as u64) + 1) as u32
    }

    /// The length of piece `index`.
    pub fn piece_length_of(&self, index: u32) -> (len: u32)
        requires
            self.wf(),
            index < self.pieces(),
        ensures
            len == self.piece_end(index as int) - self.piece_offset(index as int),
            len > 0,
    {
        proof {
            lemma_piece_bounds(*self, index as int);
        }
        let start: u64 = (index as u64) * (self.piece_length as u64);
        let left: u64 = self.total_length - start;
        if left < self.piece_length as u64 {
            left as u32
        } else {
            self.piece_length
        }
    }

    /// How many bytes of piece `piece_id` lie in the file of `file_len` bytes
    /// at `file_offset`.
    pub fn size_of_piece_in_file(&self, piece_id: u32, file_offset: u64, file_len: u64) -> (size:
        u64)
        requires
            file_offset + file_len <= u64::MAX,
        ensures
            size == overlap(
                self.piece_offset(piece_id as int),
                self.piece_offset(piece_id + 1),
                file_offset as int,
                file_offset + file_len,
            ),
    {
        proof {
            let pl = self.piece_length as int;
            lemma_mul_inequality(piece_id as int, u32::MAX as int, pl);
            lemma_mul_inequality(pl, u32::MAX as int, u32::MAX as int);
            lemma_mul_is_distributive_add_other_way(pl, piece_id as int, 1);
            vstd::arithmetic::mul::lemma_mul_is_commutative(pl, u32::MAX as int);
            vstd::arithmetic::mul::lemma_mul_nonnegative(piece_id as int, pl);
        }
        let piece_offset: u64 = (piece_id as u64) * (self.piece_length as u64);
        let piece_end: u64 = piece_offset + (self.piece_length as u64);
        let file_end: u64 = file_offset + file_len;
        let start: u64 = if piece_offset <= file_offset {
            file_offset
        } else {
            piece_offset
        };
        let end: u64 = if piece_end <= file_end {
            piece_end
        } else {
            file_end
        };
        if start <= end {
            end - start
        } else {
            0
        }
    }

    /// The pieces that hold a byte of the run `[offset, offset + len)`.
    pub open spec fn spec_pieces_within(self, offset: int, len: int) -> (int, int) {
        let start = offset / (self.piece_length as int);
        if len == 0 {
            (start, start)
        } else {
            (start, ceil_div(offset + len, self.piece_length as int))
        }
    }

    /// The pieces that hold a byte of the run `[offset, offset + len)`.
    pub fn iter_pieces_within_offset(&self, offset: u64, len: u64) -> (range: Range<u32>)
        requires
            self.wf(),
            offset + len <= self.total_length,
        ensures
            (range.start as int, range.end as int) == self.spec_pieces_within(
                offset as int,
                len as int,
            ),
            range.start <= range.end <= self.pieces(),
    {
        proof {
            lemma_pieces_within(*self, offset as int, len as int);
        }
        let start: u32 = (offset / (self.piece_length as u64)) as u32;
        let end: u32 = if len == 0 {
            start
        } else {
            ((offset + len - 1) / (self.piece_length as u64) + 1) as u32
        };
        Range { start, end }
    }
}

/// Where a piece lies: every piece starts before the torrent's end, the last
/// one reaches it, and no offset leaves `u64`.
pub proof fn lemma_piece_bounds(l: Lengths, index: int)
    requires
        l.wf(),
        0 <= index < l.pieces(),
    ensures
        0 <= l.piece_offset(index) < l.total_length,
        l.piece_offset(index + 1) == l.piece_offset(index) + l.piece_length,
        l.piece_offset(index) < l.piece_end(index) <= l.total_length,
        index + 1 == l.pieces() ==> l.piece_end(index) == l.total_length,
        index + 1 < l.pieces() ==> l.piece_end(index) == l.piece_offset(index + 1),
{
    let pl = l.piece_length as int;
    let t = l.total_length as int;
    lemma_fundamental_div_mod(t - 1, pl);
    lemma_mul_is_distributive_add_other_way(pl, index, 1);
    assert(index <= (t - 1) / pl);
    lemma_mul_inequality(index, (t - 1) / pl, pl);
    vstd::arithmetic::mul::lemma_mul_is_commutative(pl, (t - 1) / pl);
    vstd::arithmetic::mul::lemma_mul_nonnegative(index, pl);
    if index + 1 == l.pieces() {
        assert(index == (t - 1) / pl);
        vstd::arithmetic::div_mod::lemma_mod_bound(t - 1, pl);
        assert(l.piece_offset(index + 1) >= t);
    } else {
        lemma_mul_inequality(index + 1, (t - 1) / pl, pl);
    }
}

/// A byte run inside the torrent lies in pieces of the torrent.
pub proof fn lemma_pieces_within(l: Lengths, offset: int, len: int)
    requires
        l.wf(),
        0 <= offset,
        0 <= len,
        offset + len <= l.total_length,
    ensures
        ({
            let (start, end) = l.spec_pieces_within(offset, len);
            &&& 0 <= start <= end <= l.pieces()
            &&& l.piece_offset(start) <= offset < l.piece_offset(start + 1)
            &&& len > 0 ==> l.piece_offset(end - 1) < offset + len <= l.piece_offset(end)
        }),
{
    let pl = l.piece_length as int;
    let t = l.total_length as int;
    let start = offset / pl;
    lemma_fundamental_div_mod(offset, pl);
    vstd::arithmetic::div_mod::lemma_mod_bound(offset, pl);
    vstd::arithmetic::mul::lemma_mul_is_commutative(pl, start);
    lemma_mul_is_distributive_add_other_way(pl, start, 1);
    vstd::arithmetic::div_mod::lemma_div_pos_is_pos(offset, pl);
    if len > 0 {
        let q = (offset + len - 1) / pl;
        lemma_div_is_ordered(offset, offset + len - 1, pl);
        lemma_div_is_ordered(offset + len - 1, t - 1, pl);
        lemma_fundamental_div_mod(offset + len - 1, pl);
        vstd::arithmetic::div_mod::lemma_mod_bound(offset + len - 1, pl);
        vstd::arithmetic::mul::lemma_mul_is_commutative(pl, q);
        lemma_mul_is_distributive_add_other_way(pl, q, 1);
    } else {
        lemma_div_is_ordered(offset, t, pl);
        lemma_fundamental_div_mod(t - 1, pl);
        vstd::arithmetic::div_mod::lemma_mod_bound(t - 1, pl);
        let q = (t - 1) / pl;
        vstd::arithmetic::mul::lemma_mul_is_commutative(pl, q);
        lemma_mul_is_distributive_add_other_way(pl, q, 1);
        if start > q + 1 {
            lemma_mul_inequality(q + 2, start, pl);
            lemma_mul_is_distributive_add_other_way(pl, q + 1, 1);
        }
    }
}

/// A byte of piece `index` has `index` as its piece number.
pub proof fn lemma_piece_of_byte(l: Lengths, index: int, byte: int)
    requires
        l.piece_length > 0,
        0 <= index,
        l.piece_offset(index) <= byte < l.piece_offset(index + 1),
    ensures
        byte / (l.piece_length as int) == index,
{
    let pl = l.piece_length as int;
    lemma_mul_is_distributive_add_other_way(pl, index, 1);
    vstd::arithmetic::div_mod::lemma_fundamental_div_mod_converse(
        byte,
        pl,
        index,
        byte - l.piece_offset(index),
    );
}

/// A byte lies in the piece whose number it has, and that is a piece of the
/// torrent if the byte is one of the torrent's.
pub proof fn lemma_byte_in_piece(l: Lengths, byte: int)
    requires
        l.wf(),
        0 <= byte < l.total_length,
    ensures
        ({
            let index = byte / (l.piece_length as int);
            &&& 0 <= index < l.pieces()
            &&& l.piece_offset(index) <= byte < l.piece_end(index)
        }),
{
    let pl = l.piece_length as int;
    let index = byte / pl;
    lemma_fundamental_div_mod(byte, pl);
    vstd::arithmetic::div_mod::lemma_mod_bound(byte, pl);
    vstd::arithmetic::mul::lemma_mul_is_commutative(pl, index);
    lemma_mul_is_distributive_add_other_way(pl, index, 1);
    vstd::arithmetic::div_mod::lemma_div_pos_is_pos(byte, pl);
    lemma_div_is_ordered(byte, l.total_length - 1, pl);
}

/// A file as the torrent's metadata lists it.
#[derive(Debug)]
pub struct FileEntry {
    pub relative_filename: String,
    pub len: u64,
    /// Padding files only align the next file to a piece; they are never read.
    pub padding: bool,
}

/// A file of the torrent and where it lies in it.
#[derive(Debug)]
pub struct FileInfo {
    pub relative_filename: String,
    pub offset_in_torrent: u64,
    /// The pieces that hold a byte of this file.
    pub piece_range: Range<u32>,
    pub len: u64,
    pub padding: bool,
}

/// A torrent's files and its division into pieces.
#[derive(Debug)]
pub struct TorrentInfo {
    pub lengths: Lengths,
    pub files: Vec<FileInfo>,
}

/// Why a list of files makes no torrent.
#[derive(Clone, Copy, Debug, PartialEq, Eq, Structural)]
pub enum LayoutError {
    /// The pieces have no length.
    ZeroPieceLength,
    /// The lengths of the files add up to more than `u64` holds.
    TotalTooLarge,
    /// The files hold no byte.
    ZeroLength,
    /// The pieces outnumber what `u32` holds.
    TooManyPieces,
}

/// The lengths of the first `n` files, added up.
pub open spec fn listed_length(entries: Seq<FileEntry>, n: int) -> int
    decreases n,
{
    if n <= 0 {
        0
    } else {
        listed_length(entries, n - 1) + entries[n - 1].len
    }
}

impl FileInfo {
    /// Where the file ends in the torrent.
    pub open spec fn end(self) -> int {
        self.offset_in_torrent + self.len
    }
}

impl TorrentInfo {
    /// The files follow each other from the torrent's first byte to its last,
    /// and each knows the pieces that it lies in.
    pub open spec fn wf(self) -> bool {
        &&& self.lengths.wf()
        &&& self.files.len() > 0
        &&& self.files[0].offset_in_torrent == 0
        &&& self.files[self.files.len() - 1].end() == self.lengths.total_length
        &&& forall|i: int, j: int|
            0 <= i < self.files.len() && j == i + 1 && j < self.files.len()
                ==> (#[trigger] self.files[i]).end() == (
            #[trigger] self.files[j]).offset_in_torrent
        &&& forall|i: int|
            0 <= i < self.files.len() ==> self.located(#[trigger] self.files[i])
    }

    /// The file lies inside the torrent, in the pieces that it names.
    pub open spec fn located(self, f: FileInfo) -> bool {
        &&& f.end() <= self.lengths.total_length
        &&& (f.piece_range.start as int, f.piece_range.end as int)
            == self.lengths.spec_pieces_within(f.offset_in_torrent as int, f.len as int)
        &&& f.piece_range.start <= f.piece_range.end <= self.lengths.pieces()
    }

    /// The files are the listed ones, in the listed order.
    pub open spec fn lists(self, entries: Seq<FileEntry>) -> bool {
        &&& self.files.len() == entries.len()
        &&& forall|i: int|
            #![trigger self.files[i]]
            #![trigger entries[i]]
            0 <= i < entries.len() ==> {
                &&& self.files[i].relative_filename@ == entries[i].relative_filename@
                &&& self.files[i].len == entries[i].len
                &&& self.files[i].padding == entries[i].padding
                &&& self.files[i].offset_in_torrent == listed_length(entries, i)
            }
    }

    /// Lays the listed files out one after the other.
    pub fn new(piece_length: u32, entries: &Vec<FileEntry>) -> (r: Result<Self, LayoutError>)
        ensures
            ({
                let total = listed_length(entries@, entries@.len() as int);
                &&& r == Err::<Self, LayoutError>(LayoutError::ZeroPieceLength) <==> piece_length == 0
                &&& r == Err::<Self, LayoutError>(LayoutError::TotalTooLarge) <==> piece_length > 0 && total
                    > u64::MAX
                &&& r == Err::<Self, LayoutError>(LayoutError::ZeroLength) <==> piece_length > 0 && total == 0
                &&& r == Err::<Self, LayoutError>(LayoutError::TooManyPieces) <==> piece_length > 0 && 0 < total
                    <= u64::MAX && ceil_div(total, piece_length as int) > u32::MAX
                &&& r matches Ok(info) ==> {
                    &&& info.wf()
                    &&& info.lengths.piece_length == piece_length
                    &&& info.lengths.total_length == total
                    &&& info.lists(entries@)
                }
            }),
    {
        if piece_length == 0 {
            return Err(LayoutError::ZeroPieceLength);
        }
        let n: usize = entries.len();
        let mut total: u64 = 0;
        for i in 0..n
            invariant
                n == entries.len(),
                piece_length > 0,
                total == listed_length(entries@, i as int),
        {
            proof {
                lemma_listed_length_grows(entries@, i as int + 1, n as int);
            }
            match total.checked_add(entries[i].len) {
                Some(sum) => {
                    total = sum;
                },
                None => {
                    return Err(LayoutError::TotalTooLarge);
                },
            }
        }
        if total == 0 {
            return Err(LayoutError::ZeroLength);
        }
        if (total - 1) / (piece_length as u64) >= u32::MAX as u64 {
            return Err(LayoutError::TooManyPieces);
        }
        let lengths = Lengths { total_length: total, piece_length };
        let mut files: Vec<FileInfo> = Vec::new();
        let mut offset: u64 = 0;
        for i in 0..n
            invariant
                n == entries.len(),
                lengths.wf(),
                lengths.total_length == total,
                lengths.piece_length == piece_length,
                total == listed_length(entries@, n as int),
                offset == listed_length(entries@, i as int),
                files.len() == i,
                forall|j: int|
                    #![trigger files[j]]
                    #![trigger entries[j]]
                    0 <= j < i ==> {
                        &&& files[j].relative_filename@ == entries[j].relative_filename@
                        &&& files[j].len == entries[j].len
                        &&& files[j].padding == entries[j].padding
                        &&& files[j].offset_in_torrent == listed_length(entries@, j)
                        &&& files[j].end() == listed_length(entries@, j + 1)
                        &&& files[j].end() <= total
                        &&& (files[j].piece_range.start as int, files[j].piece_range.end as int)
                            == lengths.spec_pieces_within(
                            files[j].offset_in_torrent as int,
                            files[j].len as int,
                        )
                        &&& files[j].piece_range.start <= files[j].piece_range.end
                            <= lengths.pieces()
                    },
        {
            let entry = &entries[i];
            proof {
                lemma_listed_length_grows(entries@, i as int + 1, n as int);
            }
            files.push(
                FileInfo {
                    relative_filename: entry.relative_filename.clone(),
                    offset_in_torrent: offset,
                    piece_range: lengths.iter_pieces_within_offset(offset, entry.len),
                    len: entry.len,
                    padding: entry.padding,
                },
            );
            offset = offset + entry.len;
        }
        let info = TorrentInfo { lengths, files };
        assert(info.files[0].offset_in_torrent == listed_length(entries@, 0));
        assert(info.files[n - 1].end() == listed_length(entries@, n as int));
        Ok(info)
    }
}

/// Adding files never makes the sum of their lengths smaller.
proof fn lemma_listed_length_grows(entries: Seq<FileEntry>, i: int, j: int)
    requires
        0 <= i <= j,
    ensures
        0 <= listed_length(entries, i) <= listed_length(entries, j),
    decreases j,
{
    if i < j {
        lemma_listed_length_grows(entries, i, j - 1);
    } else if i > 0 {
        lemma_listed_length_grows(entries, i - 1, j - 1);
    }
}

// ---------------------------------------------------------------------------
// What the geometry means
// ---------------------------------------------------------------------------

/// Two runs share nothing where one is empty, and one byte more at the end of
/// a run is shared exactly if the other run holds it. It does not matter which
/// run is named first.
pub proof fn law_overlap_counts_shared_bytes(a: int, a_end: int, b: int, b_end: int)
    requires
        a <= a_end,
        b <= b_end,
    ensures
        overlap(a, a, b, b_end) == 0,
        overlap(a, a_end + 1, b, b_end) == overlap(a, a_end, b, b_end) + if b <= a_end < b_end {
            1int
        } else {
            0
        },
        overlap(a, a_end, b, b_end) == overlap(b, b_end, a, a_end),
{
}

/// Pieces lie one behind the other from the first byte to the last. Each has
/// the piece length, but for the last, which has what is left, and none is
/// empty.
pub proof fn law_pieces_fill_the_torrent(l: Lengths, index: int)
    requires
        l.wf(),
        0 <= index < l.pieces(),
    ensures
        l.pieces() > 0,
        l.piece_offset(0) == 0,
        index + 1 < l.pieces() ==> l.piece_end(index) == l.piece_offset(index + 1)
            && l.piece_end(index) - l.piece_offset(index) == l.piece_length,
        index + 1 == l.pieces() ==> l.piece_end(index) == l.total_length && 0 < l.piece_end(index)
            - l.piece_offset(index) <= l.piece_length,
{
    lemma_piece_bounds(l, index);
    assert(l.piece_offset(0) == 0);
}

/// Every byte of the torrent lies in exactly one of its pieces.
pub proof fn law_each_byte_has_one_piece(l: Lengths, byte: int)
    requires
        l.wf(),
        0 <= byte < l.total_length,
    ensures
        exists|i: int|
            0 <= i < l.pieces() && #[trigger] l.piece_offset(i) <= byte < l.piece_end(i),
        forall|i: int, j: int|
            0 <= i < l.pieces() && 0 <= j < l.pieces() && #[trigger] l.piece_offset(i) <= byte
                < l.piece_end(i) && #[trigger] l.piece_offset(j) <= byte < l.piece_end(j) ==> i == j,
{
    lemma_byte_in_piece(l, byte);
    let k = byte / (l.piece_length as int);
    assert(l.piece_offset(k) <= byte < l.piece_end(k));
    assert forall|i: int, j: int|
        0 <= i < l.pieces() && 0 <= j < l.pieces() && #[trigger] l.piece_offset(i) <= byte
            < l.piece_end(i) && #[trigger] l.piece_offset(j) <= byte < l.piece_end(j) implies i
        == j by {
        lemma_piece_of_byte(l, i, byte);
        lemma_piece_of_byte(l, j, byte);
    }
}

/// The pieces of a run are exactly those that hold a byte of it; a run of no
/// bytes has none.
pub proof fn law_pieces_of_a_run(l: Lengths, offset: int, len: int, index: int)
    requires
        l.wf(),
        0 <= offset,
        0 <= len,
        offset + len <= l.total_length,
        0 <= index < l.pieces(),
    ensures
        l.spec_pieces_within(offset, len).0 <= index < l.spec_pieces_within(offset, len).1
            <==> overlap(l.piece_offset(index), l.piece_end(index), offset, offset + len) > 0,
        len == 0 ==> l.spec_pieces_within(offset, len).0 == l.spec_pieces_within(offset, len).1,
{
    let (start, end) = l.spec_pieces_within(offset, len);
    lemma_pieces_within(l, offset, len);
    lemma_piece_bounds(l, index);
    let pl = l.piece_length as int;
    if index < start {
        lemma_mul_inequality(index + 1, start, pl);
    } else if index > start {
        lemma_mul_inequality(start + 1, index, pl);
    }
    if len > 0 {
        if index >= end {
            lemma_mul_inequality(end, index, pl);
        } else if index < end - 1 {
            lemma_mul_inequality(index + 1, end - 1, pl);
        }
    }
}

/// No files have no length, and each file adds its own.
pub proof fn law_lengths_add_up(entries: Seq<FileEntry>, n: int)
    requires
        0 <= n < entries.len(),
    ensures
        listed_length(entries, 0) == 0,
        listed_length(entries, n + 1) == listed_length(entries, n) + entries[n].len,
{
}

/// The files of a torrent are those of its list: each has the name, the length
/// and the padding that the list gives, starts where the one before it ends,
/// the first at the start of the torrent and the last ending with it, and its
/// pieces are those that hold one of its bytes.
pub proof fn law_files_follow_the_list(info: TorrentInfo, entries: Seq<FileEntry>, i: int)
    requires
        info.wf(),
        info.lists(entries),
        0 <= i < entries.len(),
    ensures
        info.files.len() == entries.len(),
        info.files[i].relative_filename@ == entries[i].relative_filename@,
        info.files[i].len == entries[i].len,
        info.files[i].padding == entries[i].padding,
        i == 0 ==> info.files[i].offset_in_torrent == 0,
        i > 0 ==> info.files[i].offset_in_torrent == info.files[i - 1].offset_in_torrent
            + info.files[i - 1].len,
        i == entries.len() - 1 ==> info.files[i].offset_in_torrent + info.files[i].len
            == info.lengths.total_length,
        forall|p: int|
            0 <= p < info.lengths.pieces() ==> (info.files[i].piece_range.start <= p
                < info.files[i].piece_range.end <==> overlap(
                #[trigger] info.lengths.piece_offset(p),
                info.lengths.piece_end(p),
                info.files[i].offset_in_torrent as int,
                info.files[i].offset_in_torrent + info.files[i].len,
            ) > 0),
        info.files[i].piece_range.start <= info.files[i].piece_range.end,
        info.files[i].piece_range.end <= info.lengths.pieces(),
{
    let f = info.files[i];
    assert(info.located(f));
    assert(entries[i] == entries[i]);
    if i > 0 {
        assert(info.files[i - 1].end() == f.offset_in_torrent);
    }
    assert forall|p: int| 0 <= p < info.lengths.pieces() implies (f.piece_range.start <= p
        < f.piece_range.end <==> overlap(
        #[trigger] info.lengths.piece_offset(p),
        info.lengths.piece_end(p),
        f.offset_in_torrent as int,
        f.offset_in_torrent + f.len,
    ) > 0) by {
        law_pieces_of_a_run(info.lengths, f.offset_in_torrent as int, f.len as int, p);
    }
}

/// The pieces of a length are as few as hold it: so many that all of it fits,
/// and one less would not do.
pub proof fn law_as_few_pieces_as_hold_the_length(a: int, b: int)
    requires
        0 <= a,
        0 < b,
    ensures
        a == 0 ==> ceil_div(a, b) == 0,
        a > 0 ==> (ceil_div(a, b) - 1) * b < a <= ceil_div(a, b) * b,
{
    if a > 0 {
        let q = (a - 1) / b;
        lemma_fundamental_div_mod(a - 1, b);
        vstd::arithmetic::div_mod::lemma_mod_bound(a - 1, b);
        vstd::arithmetic::mul::lemma_mul_is_commutative(b, q);
        lemma_mul_is_distributive_add_other_way(b, q, 1);
    }
}

} // verus!
