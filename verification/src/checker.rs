//! Standalone, read-only verification of torrent data on disk.
//!
//! The caller opens the files and hashes the pieces. This module decides which
//! files are opened, refuses every change to them, and turns the per-piece
//! outcome into per-file and whole-torrent figures.

use std::ops::Range;

use vstd::prelude::*;
use vstd::string::StringExecFns;

use crate::text::{decimal, sentence, to_decimal};
use crate::torrent_info::{
    lemma_byte_in_piece, lemma_piece_bounds, lemma_piece_of_byte, lemma_pieces_within, overlap,
    FileInfo, Lengths, TorrentInfo,
};

verus! {

/// Why a check could not be made.
#[derive(Debug)]
pub enum CheckError {
    /// Error verifying torrent data.
    Verify(String),
}

impl CheckError {
    /// What to tell the user.
    pub open spec fn text(self) -> Seq<char> {
        match self {
            CheckError::Verify(cause) => "error verifying torrent data: "@ + cause@,
        }
    }

    /// What to tell the user.
    pub fn message(&self) -> (text: String)
        ensures
            text@ == self.text(),
    {
        match self {
            CheckError::Verify(cause) => {
                let mut text: String = "error verifying torrent data: ".to_owned();
                text.append(cause.as_str());
                text
            },
        }
    }
}

/// Per-file outcome of a [`check_torrent`] run.
#[derive(Debug)]
pub struct FileCheckResult {
    pub file_index: usize,
    pub relative_filename: String,
    pub len: u64,
    /// Bytes of this file covered by hash-verified pieces.
    pub have_bytes: u64,
    pub piece_range: Range<u32>,
    /// Verified pieces overlapping this file (a piece spanning two files
    /// counts for both).
    pub pieces_have: u32,
    pub padding: bool,
    /// False if the file could not be opened (e.g. doesn't exist).
    pub found_on_disk: bool,
}

/// Outcome of a [`check_torrent`] run.
#[derive(Debug)]
pub struct CheckResult {
    pub total_bytes: u64,
    /// Bytes covered by hash-verified pieces.
    pub have_bytes: u64,
    pub total_pieces: u32,
    pub have_piece_count: u32,
    /// Per-piece verification status, indexed by piece id.
    pub have_pieces: Vec<bool>,
    pub files: Vec<FileCheckResult>,
}

/// Whether `have` marks the piece that byte `byte` of the torrent lies in.
pub open spec fn is_covered(have: Seq<bool>, piece_length: int, byte: int) -> bool {
    have[byte / piece_length]
}

/// How many of the bytes in `[from, to)` lie in a piece that `have` marks.
pub open spec fn covered_bytes(have: Seq<bool>, piece_length: int, from: int, to: int) -> int
    decreases to - from,
{
    if to <= from {
        0
    } else {
        covered_bytes(have, piece_length, from, to - 1) + if is_covered(
            have,
            piece_length,
            to - 1,
        ) {
            1int
        } else {
            0
        }
    }
}

/// How many of the pieces in `[from, to)` are marked in `have`.
pub open spec fn marked_pieces(have: Seq<bool>, from: int, to: int) -> int
    decreases to - from,
{
    if to <= from {
        0
    } else {
        marked_pieces(have, from, to - 1) + if have[to - 1] {
            1int
        } else {
            0
        }
    }
}

impl FileCheckResult {
    /// The result is that of file `index`, whose handle is there if `opened`,
    /// for the pieces marked in `have`.
    pub open spec fn reports(
        self,
        info: TorrentInfo,
        index: int,
        opened: bool,
        have: Seq<bool>,
    ) -> bool {
        let file = info.files[index];
        &&& self.file_index == index
        &&& self.relative_filename@ == file.relative_filename@
        &&& self.len == file.len
        &&& self.have_bytes == covered_bytes(
            have,
            info.lengths.piece_length as int,
            file.offset_in_torrent as int,
            file.end(),
        )
        &&& self.piece_range == file.piece_range
        &&& self.pieces_have == marked_pieces(
            have,
            file.piece_range.start as int,
            file.piece_range.end as int,
        )
        &&& self.padding == file.padding
        &&& self.found_on_disk == (file.padding || opened)
    }

    /// The number of pieces that the file lies in.
    pub fn total_pieces(&self) -> (n: u32)
        requires
            self.piece_range.start <= self.piece_range.end,
        ensures
            n == self.piece_range.end - self.piece_range.start,
    {
        self.piece_range.end - self.piece_range.start
    }
}

impl CheckResult {
    /// The result is that of `info`, of which the files with a `true` in
    /// `opened` have a handle, for the pieces marked in `have`.
    pub open spec fn reports(self, info: TorrentInfo, opened: Seq<bool>, have: Seq<bool>) -> bool {
        let pieces = info.lengths.pieces();
        &&& self.total_bytes == info.lengths.total_length
        &&& self.have_bytes == covered_bytes(
            have,
            info.lengths.piece_length as int,
            0,
            info.lengths.total_length as int,
        )
        &&& self.total_pieces == pieces
        &&& self.have_piece_count == marked_pieces(have, 0, pieces)
        &&& self.have_pieces@ == have.take(pieces)
        &&& self.files.len() == info.files.len()
        &&& forall|i: int|
            0 <= i < self.files.len() ==> (#[trigger] self.files[i]).reports(
                info,
                i,
                opened[i],
                have,
            )
    }
}

/// Why a storage access was refused.
#[derive(Clone, Copy, Debug, PartialEq, Eq, Structural)]
pub enum StorageError {
    /// The file is a padding file, or could not be opened.
    NotPresent { file_id: usize },
    /// The storage is read-only.
    ReadOnly,
}

impl StorageError {
    /// What to tell the user.
    pub open spec fn text(self) -> Seq<char> {
        match self {
            StorageError::NotPresent { file_id } => "file "@ + decimal(file_id as nat)
                + " not present on disk"@,
            StorageError::ReadOnly => "read-only storage"@,
        }
    }

    /// What to tell the user.
    pub fn message(&self) -> (text: String)
        ensures
            text@ == self.text(),
    {
        match self {
            StorageError::NotPresent { file_id } => sentence(
                "file ",
                to_decimal(*file_id).as_str(),
                " not present on disk",
            ),
            StorageError::ReadOnly => "read-only storage".to_owned(),
        }
    }
}

/// Read-only storage over whatever already exists on disk, by handles of type
/// `F`. Files that are missing produce read errors, which the check treats as
/// "pieces not present".
#[derive(Debug)]
pub struct ReadOnlyFilesystemStorage<F> {
    /// `None` is a padding file (never read) or a file that could not be opened.
    pub files: Vec<Option<F>>,
}

impl<F> ReadOnlyFilesystemStorage<F> {
    /// For each file whether there is a handle to read it by.
    pub open spec fn opened(self) -> Seq<bool> {
        self.files@.map_values(|f: Option<F>| f is Some)
    }

    /// A storage of no files.
    pub fn new() -> (storage: Self)
        ensures
            storage.files@ == Seq::<Option<F>>::empty(),
    {
        ReadOnlyFilesystemStorage { files: Vec::new() }
    }

    /// Whether the check opens the file: padding files are never read.
    pub fn wants(file: &FileInfo) -> (wants: bool)
        ensures
            wants == !file.padding,
    {
        !file.padding
    }

    /// Takes the outcome of opening the next file.
    pub fn add_file(&mut self, file: &FileInfo, opened: Option<F>)
        ensures
            final(self).files@ == old(self).files@.push(
                if file.padding {
                    None
                } else {
                    opened
                },
            ),
    {
        if file.padding {
            self.files.push(None);
        } else {
            self.files.push(opened);
        }
    }

    /// Nothing is set up: the files are opened before the storage is made.
    pub fn init(&mut self) -> (r: Result<(), StorageError>)
        ensures
            r == Ok::<(), StorageError>(()),
            *final(self) == *old(self),
    {
        Ok(())
    }

    /// The handle that file `file_id` is read by.
    pub fn pread_exact(&self, file_id: usize) -> (r: Result<&F, StorageError>)
        ensures
            match r {
                Ok(f) => file_id < self.files.len() && self.files[file_id as int] == Some(*f),
                Err(e) => {
                    &&& e == StorageError::NotPresent { file_id }
                    &&& file_id < self.files.len() ==> self.files[file_id as int] is None
                },
            },
    {
        if file_id < self.files.len() {
            if let Some(f) = &self.files[file_id] {
                return Ok(f);
            }
        }
        Err(StorageError::NotPresent { file_id })
    }

    /// Refused.
    pub fn pwrite_all(&self, _file_id: usize, _offset: u64, _buf: &[u8]) -> (r: Result<
        (),
        StorageError,
    >)
        ensures
            r == Err::<(), StorageError>(StorageError::ReadOnly),
    {
        Err(StorageError::ReadOnly)
    }

    /// Refused.
    pub fn pwrite_all_vectored(
        &self,
        _file_id: usize,
        _offset: u64,
        _bufs: (&[u8], &[u8]),
    ) -> (r: Result<usize, StorageError>)
        ensures
            r == Err::<usize, StorageError>(StorageError::ReadOnly),
    {
        Err(StorageError::ReadOnly)
    }

    /// Refused.
    pub fn remove_file(&self, _file_id: usize, _filename: &str) -> (r: Result<(), StorageError>)
        ensures
            r == Err::<(), StorageError>(StorageError::ReadOnly),
    {
        Err(StorageError::ReadOnly)
    }

    /// Refused.
    pub fn remove_directory_if_empty(&self, _path: &str) -> (r: Result<(), StorageError>)
        ensures
            r == Err::<(), StorageError>(StorageError::ReadOnly),
    {
        Err(StorageError::ReadOnly)
    }

    /// Refused.
    pub fn ensure_file_length(&self, _file_id: usize, _length: u64) -> (r: Result<
        (),
        StorageError,
    >)
        ensures
            r == Err::<(), StorageError>(StorageError::ReadOnly),
    {
        Err(StorageError::ReadOnly)
    }

    /// Refused.
    pub fn take(&self) -> (r: Result<Self, StorageError>)
        ensures
            r == Err::<Self, StorageError>(StorageError::ReadOnly),
    {
        Err(StorageError::ReadOnly)
    }

    /// Refused.
    pub fn on_piece_completed(&self, _piece_index: u32) -> (r: Result<(), StorageError>)
        ensures
            r == Err::<(), StorageError>(StorageError::ReadOnly),
    {
        Err(StorageError::ReadOnly)
    }
}

/// The figures of one file.
fn check_file(info: &TorrentInfo, index: usize, opened: bool, have: &Vec<bool>) -> (r:
    FileCheckResult)
    requires
        info.wf(),
        index < info.files.len(),
        info.lengths.pieces() <= have.len(),
    ensures
        r.reports(*info, index as int, opened, have@),
{
    let file: &FileInfo = &info.files[index];
    let start: u32 = file.piece_range.start;
    let end: u32 = file.piece_range.end;
    let mut have_bytes: u64 = 0;
    let mut pieces_have: u32 = 0;
    let ghost l = info.lengths;
    let ghost pl = info.lengths.piece_length as int;
    let ghost from = file.offset_in_torrent as int;
    let ghost to = file.end();
    // The first byte of the file that piece `i` or a later one may hold.
    let ghost reach = |i: int|
        if l.piece_offset(i) <= from {
            from
        } else if l.piece_offset(i) <= to {
            l.piece_offset(i)
        } else {
            to
        };
    proof {
        lemma_pieces_within(l, from, file.len as int);
    }
    let mut piece_id: u32 = start;
    while piece_id < end
        invariant
            info.wf(),
            index < info.files.len(),
            *file == info.files[index as int],
            info.located(*file),
            l == info.lengths,
            pl == l.piece_length,
            from == file.offset_in_torrent,
            to == file.end(),
            start == file.piece_range.start,
            end == file.piece_range.end,
            start <= piece_id <= end,
            end <= l.pieces() <= have.len(),
            reach == (|i: int|
                if l.piece_offset(i) <= from {
                    from
                } else if l.piece_offset(i) <= to {
                    l.piece_offset(i)
                } else {
                    to
                }),
            pieces_have == marked_pieces(have@, start as int, piece_id as int),
            pieces_have <= piece_id - start,
            have_bytes == covered_bytes(have@, pl, from, reach(piece_id as int)),
            have_bytes <= reach(piece_id as int) - from,
        decreases end - piece_id,
    {
        let ghost i = piece_id as int;
        proof {
            lemma_piece_bounds(l, i);
            lemma_covered_split(have@, pl, from, reach(i), reach(i + 1));
            assert forall|b: int| reach(i) <= b < reach(i + 1) implies is_covered(
                have@,
                pl,
                b,
            ) == have@[i] by {
                lemma_piece_of_byte(l, i, b);
            }
            lemma_covered_uniform(have@, pl, reach(i), reach(i + 1), have@[i]);
        }
        if have[piece_id as usize] {
            pieces_have = pieces_have + 1;
            have_bytes =
            have_bytes + info.lengths.size_of_piece_in_file(
                piece_id,
                file.offset_in_torrent,
                file.len,
            );
        }
        piece_id = piece_id + 1;
    }
    FileCheckResult {
        file_index: index,
        relative_filename: file.relative_filename.clone(),
        len: file.len,
        have_bytes,
        piece_range: Range { start, end },
        pieces_have,
        padding: file.padding,
        found_on_disk: file.padding || opened,
    }
}

/// Turns the outcome of hashing every readable piece of `info` into figures
/// for the torrent and for each of its files.
///
/// `initial_check` marks the pieces whose hash matched. It may be longer than
/// the number of pieces, as a bitfield padded to whole bytes is.
pub fn check_torrent<F>(
    info: &TorrentInfo,
    storage: &ReadOnlyFilesystemStorage<F>,
    initial_check: Result<Vec<bool>, String>,
) -> (r: Result<CheckResult, CheckError>)
    requires
        info.wf(),
        storage.files.len() == info.files.len(),
        initial_check matches Ok(have) ==> info.lengths.pieces() <= have.len(),
    ensures
        match initial_check {
            Ok(have) => r matches Ok(result) && result.reports(*info, storage.opened(), have@),
            Err(e) => r == Err::<CheckResult, CheckError>(CheckError::Verify(e)),
        },
{
    let have: Vec<bool> = match initial_check {
        Ok(have) => have,
        Err(e) => {
            return Err(CheckError::Verify(e));
        },
    };
    let ghost l = info.lengths;
    let ghost pl = info.lengths.piece_length as int;
    let total_pieces: u32 = info.lengths.total_pieces();
    let mut have_bytes: u64 = 0;
    let mut have_piece_count: u32 = 0;
    let mut have_pieces: Vec<bool> = Vec::new();
    for piece_id in 0..total_pieces
        invariant
            info.wf(),
            l == info.lengths,
            pl == l.piece_length,
            total_pieces == l.pieces(),
            total_pieces <= have.len(),
            have_piece_count == marked_pieces(have@, 0, piece_id as int),
            have_piece_count <= piece_id,
            have_bytes == covered_bytes(have@, pl, 0, checked_to(l, piece_id as int)),
            have_bytes <= checked_to(l, piece_id as int) <= l.total_length,
            have_pieces@ == have@.take(piece_id as int),
    {
        let ghost i = piece_id as int;
        proof {
            lemma_piece_bounds(l, i);
            if i > 0 {
                lemma_piece_bounds(l, i - 1);
                assert(l.piece_offset(i - 1 + 1) == l.piece_offset(i));
            } else {
                assert(l.piece_offset(0) == 0);
            }
            assert(checked_to(l, i) == l.piece_offset(i));
            lemma_covered_split(have@, pl, 0, checked_to(l, i), checked_to(l, i + 1));
            assert forall|b: int| checked_to(l, i) <= b < checked_to(l, i + 1) implies is_covered(
                have@,
                pl,
                b,
            ) == have@[i] by {
                lemma_piece_of_byte(l, i, b);
            }
            lemma_covered_uniform(have@, pl, checked_to(l, i), checked_to(l, i + 1), have@[i]);
            assert(have@.take(i + 1) == have@.take(i).push(have@[i]));
        }
        if have[piece_id as usize] {
            have_bytes = have_bytes + info.lengths.piece_length_of(piece_id) as u64;
            have_piece_count = have_piece_count + 1;
        }
        have_pieces.push(have[piece_id as usize]);
    }
    proof {
        lemma_piece_bounds(l, total_pieces - 1);
    }
    let n: usize = info.files.len();
    let mut files: Vec<FileCheckResult> = Vec::new();
    for idx in 0..n
        invariant
            info.wf(),
            n == info.files.len(),
            n == storage.files.len(),
            info.lengths.pieces() <= have.len(),
            files.len() == idx,
            forall|j: int|
                0 <= j < idx ==> (#[trigger] files[j]).reports(
                    *info,
                    j,
                    storage.opened()[j],
                    have@,
                ),
    {
        let opened: bool = storage.files[idx].is_some();
        files.push(check_file(info, idx, opened, &have));
    }
    Ok(
        CheckResult {
            total_bytes: info.lengths.total_length,
            have_bytes,
            total_pieces,
            have_piece_count,
            have_pieces,
            files,
        },
    )
}

/// The end of the bytes that the first `pieces` pieces hold.
spec fn checked_to(l: Lengths, pieces: int) -> int {
    if pieces <= 0 {
        0
    } else {
        l.piece_end(pieces - 1)
    }
}

/// The covered bytes of a run are those of its two parts.
proof fn lemma_covered_split(have: Seq<bool>, piece_length: int, from: int, mid: int, to: int)
    requires
        from <= mid <= to,
    ensures
        covered_bytes(have, piece_length, from, to) == covered_bytes(have, piece_length, from, mid)
            + covered_bytes(have, piece_length, mid, to),
    decreases to - mid,
{
    if mid < to {
        lemma_covered_split(have, piece_length, from, mid, to - 1);
    }
}

/// A run in which every byte is covered counts in full, one in which none is
/// counts nothing.
proof fn lemma_covered_uniform(
    have: Seq<bool>,
    piece_length: int,
    from: int,
    to: int,
    marked: bool,
)
    requires
        from <= to,
        forall|b: int|
            from <= b < to ==> #[trigger] is_covered(have, piece_length, b) == marked,
    ensures
        covered_bytes(have, piece_length, from, to) == if marked {
            to - from
        } else {
            0
        },
    decreases to - from,
{
    if from < to {
        lemma_covered_uniform(have, piece_length, from, to - 1, marked);
    }
}

/// The number of covered bytes of a run lies between none and all of them.
proof fn lemma_covered_bounds(have: Seq<bool>, piece_length: int, from: int, to: int)
    requires
        from <= to,
    ensures
        0 <= covered_bytes(have, piece_length, from, to) <= to - from,
    decreases to - from,
{
    if from < to {
        lemma_covered_bounds(have, piece_length, from, to - 1);
    }
}

/// A run counts in full only if each of its bytes is covered.
proof fn lemma_covered_full(have: Seq<bool>, piece_length: int, from: int, to: int, byte: int)
    requires
        from <= byte < to,
        covered_bytes(have, piece_length, from, to) == to - from,
    ensures
        is_covered(have, piece_length, byte),
{
    lemma_covered_split(have, piece_length, from, byte, to);
    lemma_covered_split(have, piece_length, byte, byte + 1, to);
    lemma_covered_bounds(have, piece_length, from, byte);
    lemma_covered_bounds(have, piece_length, byte + 1, to);
    assert(covered_bytes(have, piece_length, byte, byte) == 0);
    assert(covered_bytes(have, piece_length, byte, byte + 1) == if is_covered(
        have,
        piece_length,
        byte,
    ) {
        1int
    } else {
        0
    });
}

/// Runs count alike where the same bytes are covered.
proof fn lemma_covered_agree(
    have: Seq<bool>,
    other: Seq<bool>,
    piece_length: int,
    from: int,
    to: int,
)
    requires
        forall|b: int|
            from <= b < to ==> #[trigger] is_covered(have, piece_length, b) == is_covered(
                other,
                piece_length,
                b,
            ),
    ensures
        covered_bytes(have, piece_length, from, to) == covered_bytes(
            other,
            piece_length,
            from,
            to,
        ),
    decreases to - from,
{
    if from < to {
        lemma_covered_agree(have, other, piece_length, from, to - 1);
    }
}

/// The number of marked pieces lies between none and all; it is all of them
/// only if each is marked.
proof fn lemma_marked_bounds(have: Seq<bool>, from: int, to: int)
    requires
        from <= to,
    ensures
        0 <= marked_pieces(have, from, to) <= to - from,
        marked_pieces(have, from, to) == to - from <==> forall|i: int|
            from <= i < to ==> have[i],
        marked_pieces(have, from, to) == 0 <==> forall|i: int| from <= i < to ==> !have[i],
    decreases to - from,
{
    if from < to {
        lemma_marked_bounds(have, from, to - 1);
    }
}

/// With all pieces but one marked, all but that one are counted.
proof fn lemma_marked_but_one(have: Seq<bool>, from: int, to: int, missing: int)
    requires
        from <= to,
        forall|i: int| from <= i < to ==> have[i] == (i != missing),
    ensures
        marked_pieces(have, from, to) == to - from - if from <= missing < to {
            1int
        } else {
            0
        },
    decreases to - from,
{
    if from < to {
        assert(have[to - 1] == (to - 1 != missing));
        lemma_marked_but_one(have, from, to - 1, missing);
    }
}

/// With all pieces but one marked, a run loses the bytes that it shares with
/// that piece.
proof fn lemma_covered_but_one(have: Seq<bool>, l: Lengths, from: int, to: int, missing: int)
    requires
        l.wf(),
        0 <= missing < l.pieces(),
        0 <= from <= to <= l.total_length,
        forall|i: int| 0 <= i < l.pieces() ==> have[i] == (i != missing),
    ensures
        covered_bytes(have, l.piece_length as int, from, to) == to - from - overlap(
            l.piece_offset(missing),
            l.piece_end(missing),
            from,
            to,
        ),
    decreases to - from,
{
    lemma_piece_bounds(l, missing);
    if from < to {
        lemma_covered_but_one(have, l, from, to - 1, missing);
        lemma_byte_in_piece(l, to - 1);
        let index = (to - 1) / (l.piece_length as int);
        assert(have[index] == (index != missing));
        if l.piece_offset(missing) <= to - 1 < l.piece_end(missing) {
            lemma_piece_of_byte(l, missing, to - 1);
        }
    }
}

/// No figure of a result exceeds what there is to find.
pub proof fn law_figures_are_bounded(
    info: TorrentInfo,
    opened: Seq<bool>,
    have: Seq<bool>,
    result: CheckResult,
)
    requires
        info.wf(),
        info.lengths.pieces() <= have.len(),
        result.reports(info, opened, have),
    ensures
        result.have_bytes <= result.total_bytes,
        result.have_piece_count <= result.total_pieces,
        result.have_pieces.len() == result.total_pieces,
        forall|i: int|
            0 <= i < result.files.len() ==> {
                let file = #[trigger] result.files[i];
                &&& file.have_bytes <= file.len
                &&& file.pieces_have <= file.piece_range.end - file.piece_range.start
            },
{
    let pl = info.lengths.piece_length as int;
    lemma_covered_bounds(have, pl, 0, info.lengths.total_length as int);
    lemma_marked_bounds(have, 0, info.lengths.pieces());
    assert forall|i: int| 0 <= i < result.files.len() implies {
        let file = #[trigger] result.files[i];
        &&& file.have_bytes <= file.len
        &&& file.pieces_have <= file.piece_range.end - file.piece_range.start
    } by {
        let f = info.files[i];
        assert(info.located(f));
        lemma_covered_bounds(have, pl, f.offset_in_torrent as int, f.end());
        lemma_marked_bounds(have, f.piece_range.start as int, f.piece_range.end as int);
    }
}

/// The torrent is complete exactly when every piece is verified: then all its
/// bytes and all its pieces are there, and otherwise some of both are missing.
pub proof fn law_complete_iff_all_verified(
    info: TorrentInfo,
    opened: Seq<bool>,
    have: Seq<bool>,
    result: CheckResult,
)
    requires
        info.wf(),
        info.lengths.pieces() <= have.len(),
        result.reports(info, opened, have),
    ensures
        result.have_bytes == result.total_bytes <==> forall|i: int|
            0 <= i < result.have_pieces.len() ==> result.have_pieces[i],
        result.have_piece_count == result.total_pieces <==> forall|i: int|
            0 <= i < result.have_pieces.len() ==> result.have_pieces[i],
{
    let l = info.lengths;
    let pl = l.piece_length as int;
    let total = l.total_length as int;
    lemma_marked_bounds(have, 0, l.pieces());
    assert(forall|i: int|
        #![trigger result.have_pieces[i]]
        #![trigger have[i]]
        0 <= i < l.pieces() ==> result.have_pieces[i] == have[i]);
    if forall|i: int| 0 <= i < l.pieces() ==> have[i] {
        assert forall|b: int| 0 <= b < total implies #[trigger] is_covered(have, pl, b)
            == true by {
            lemma_byte_in_piece(l, b);
        }
        lemma_covered_uniform(have, pl, 0, total, true);
    }
    if result.have_bytes == total {
        assert forall|i: int| 0 <= i < l.pieces() implies have[i] by {
            lemma_piece_bounds(l, i);
            lemma_covered_full(have, pl, 0, total, l.piece_offset(i));
            lemma_piece_of_byte(l, i, l.piece_offset(i));
        }
    }
}

/// A file is complete exactly when every piece that it lies in is verified.
pub proof fn law_file_complete_iff_its_pieces_verified(
    info: TorrentInfo,
    opened: Seq<bool>,
    have: Seq<bool>,
    result: CheckResult,
    index: int,
)
    requires
        info.wf(),
        info.lengths.pieces() <= have.len(),
        result.reports(info, opened, have),
        0 <= index < result.files.len(),
    ensures
        ({
            let file = result.files[index];
            let all = forall|i: int|
                file.piece_range.start <= i < file.piece_range.end ==> result.have_pieces[i];
            &&& file.have_bytes == file.len <==> all
            &&& file.pieces_have == file.piece_range.end - file.piece_range.start <==> all
        }),
{
    let l = info.lengths;
    let pl = l.piece_length as int;
    let f = info.files[index];
    assert(result.files[index].reports(info, index, opened[index], have));
    assert(info.located(f));
    let from = f.offset_in_torrent as int;
    let to = f.end();
    let start = f.piece_range.start as int;
    let end = f.piece_range.end as int;
    lemma_pieces_within(l, from, f.len as int);
    lemma_marked_bounds(have, start, end);
    assert(forall|i: int|
        #![trigger result.have_pieces[i]]
        #![trigger have[i]]
        0 <= i < l.pieces() ==> result.have_pieces[i] == have[i]);
    if forall|i: int| start <= i < end ==> have[i] {
        assert forall|b: int| from <= b < to implies #[trigger] is_covered(have, pl, b)
            == true by {
            lemma_byte_within(l, from, f.len as int, b);
        }
        lemma_covered_uniform(have, pl, from, to, true);
    }
    if result.files[index].have_bytes == f.len {
        assert forall|i: int| start <= i < end implies have[i] by {
            let byte = lemma_piece_meets_run(l, from, f.len as int, i);
            lemma_covered_full(have, pl, from, to, byte);
        }
    }
}

/// A file none of whose pieces is verified, such as one that is missing from
/// the disk, has no byte and no piece.
pub proof fn law_file_without_pieces_is_empty(
    info: TorrentInfo,
    opened: Seq<bool>,
    have: Seq<bool>,
    result: CheckResult,
    index: int,
)
    requires
        info.wf(),
        info.lengths.pieces() <= have.len(),
        result.reports(info, opened, have),
        0 <= index < result.files.len(),
        forall|i: int|
            info.files[index].piece_range.start <= i < info.files[index].piece_range.end
                ==> !have[i],
    ensures
        result.files[index].have_bytes == 0,
        result.files[index].pieces_have == 0,
{
    let l = info.lengths;
    let pl = l.piece_length as int;
    let f = info.files[index];
    assert(result.files[index].reports(info, index, opened[index], have));
    assert(info.located(f));
    let from = f.offset_in_torrent as int;
    let to = f.end();
    lemma_marked_bounds(have, f.piece_range.start as int, f.piece_range.end as int);
    assert forall|b: int| from <= b < to implies #[trigger] is_covered(have, pl, b) == false by {
        lemma_byte_within(l, from, f.len as int, b);
    }
    lemma_covered_uniform(have, pl, from, to, false);
}

/// A file's figures rest on the pieces that it lies in alone: two runs that
/// agree on those report the same of the file.
pub proof fn law_file_figures_rest_on_its_pieces(
    info: TorrentInfo,
    opened: Seq<bool>,
    have: Seq<bool>,
    result: CheckResult,
    other_opened: Seq<bool>,
    other_have: Seq<bool>,
    other: CheckResult,
    index: int,
)
    requires
        info.wf(),
        info.lengths.pieces() <= have.len(),
        info.lengths.pieces() <= other_have.len(),
        result.reports(info, opened, have),
        other.reports(info, other_opened, other_have),
        0 <= index < info.files.len(),
        forall|i: int|
            info.files[index].piece_range.start <= i < info.files[index].piece_range.end
                ==> have[i] == other_have[i],
    ensures
        result.files[index].have_bytes == other.files[index].have_bytes,
        result.files[index].pieces_have == other.files[index].pieces_have,
{
    let l = info.lengths;
    let pl = l.piece_length as int;
    let f = info.files[index];
    assert(result.files[index].reports(info, index, opened[index], have));
    assert(other.files[index].reports(info, index, other_opened[index], other_have));
    assert(info.located(f));
    let from = f.offset_in_torrent as int;
    assert forall|b: int| from <= b < f.end() implies #[trigger] is_covered(have, pl, b)
        == is_covered(other_have, pl, b) by {
        lemma_byte_within(l, from, f.len as int, b);
    }
    lemma_covered_agree(have, other_have, pl, from, f.end());
    lemma_marked_agree(
        have,
        other_have,
        f.piece_range.start as int,
        f.piece_range.end as int,
    );
}

/// With exactly one piece not verified, the torrent lacks that piece and its
/// bytes, and each file lacks the bytes that it shares with that piece and,
/// if there are any, that one piece.
pub proof fn law_one_bad_piece(
    info: TorrentInfo,
    opened: Seq<bool>,
    have: Seq<bool>,
    result: CheckResult,
    missing: int,
)
    requires
        info.wf(),
        info.lengths.pieces() <= have.len(),
        result.reports(info, opened, have),
        0 <= missing < info.lengths.pieces(),
        forall|i: int| 0 <= i < info.lengths.pieces() ==> have[i] == (i != missing),
    ensures
        result.have_piece_count == result.total_pieces - 1,
        result.have_bytes == result.total_bytes - (info.lengths.piece_end(missing)
            - info.lengths.piece_offset(missing)),
        result.have_bytes < result.total_bytes,
        forall|i: int|
            0 <= i < result.files.len() ==> {
                let file = #[trigger] result.files[i];
                &&& file.have_bytes == file.len - overlap(
                    info.lengths.piece_offset(missing),
                    info.lengths.piece_end(missing),
                    info.files[i].offset_in_torrent as int,
                    info.files[i].end(),
                )
                &&& file.pieces_have == file.piece_range.end - file.piece_range.start - if
                    file.piece_range.start <= missing < file.piece_range.end {
                    1int
                } else {
                    0
                }
            },
{
    let l = info.lengths;
    lemma_piece_bounds(l, missing);
    lemma_marked_but_one(have, 0, l.pieces(), missing);
    lemma_covered_but_one(have, l, 0, l.total_length as int, missing);
    assert forall|i: int| 0 <= i < result.files.len() implies {
        let file = #[trigger] result.files[i];
        &&& file.have_bytes == file.len - overlap(
            info.lengths.piece_offset(missing),
            info.lengths.piece_end(missing),
            info.files[i].offset_in_torrent as int,
            info.files[i].end(),
        )
        &&& file.pieces_have == file.piece_range.end - file.piece_range.start - if
            file.piece_range.start <= missing < file.piece_range.end {
            1int
        } else {
            0
        }
    } by {
        let f = info.files[i];
        assert(info.located(f));
        lemma_covered_but_one(have, l, f.offset_in_torrent as int, f.end(), missing);
        lemma_marked_but_one(
            have,
            f.piece_range.start as int,
            f.piece_range.end as int,
            missing,
        );
    }
}

/// The bytes that the first `n` files have, added up.
pub open spec fn bytes_in_files(files: Seq<FileCheckResult>, n: int) -> int
    decreases n,
{
    if n <= 0 {
        0
    } else {
        bytes_in_files(files, n - 1) + files[n - 1].have_bytes
    }
}

/// Pieces spanning two files count for both, but bytes are not counted twice:
/// what the files have adds up to what the torrent has.
pub proof fn law_files_add_up_to_torrent(
    info: TorrentInfo,
    opened: Seq<bool>,
    have: Seq<bool>,
    result: CheckResult,
)
    requires
        info.wf(),
        result.reports(info, opened, have),
    ensures
        bytes_in_files(result.files@, result.files.len() as int) == result.have_bytes,
{
    lemma_files_add_up(info, opened, have, result, info.files.len() as int);
}

/// The first `n` files have the covered bytes up to where the last of them ends.
proof fn lemma_files_add_up(
    info: TorrentInfo,
    opened: Seq<bool>,
    have: Seq<bool>,
    result: CheckResult,
    n: int,
)
    requires
        info.wf(),
        result.reports(info, opened, have),
        1 <= n <= info.files.len(),
    ensures
        bytes_in_files(result.files@, n) == covered_bytes(
            have,
            info.lengths.piece_length as int,
            0,
            info.files[n - 1].end(),
        ),
    decreases n,
{
    let f = info.files[n - 1];
    assert(result.files[n - 1].reports(info, n - 1, opened[n - 1], have));
    if n > 1 {
        lemma_files_add_up(info, opened, have, result, n - 1);
        assert(info.files[n - 2].end() == f.offset_in_torrent);
        lemma_covered_split(
            have,
            info.lengths.piece_length as int,
            0,
            f.offset_in_torrent as int,
            f.end(),
        );
    } else {
        assert(bytes_in_files(result.files@, 0) == 0);
    }
}

/// Pieces count alike where the same ones are marked.
proof fn lemma_marked_agree(have: Seq<bool>, other: Seq<bool>, from: int, to: int)
    requires
        forall|i: int| from <= i < to ==> have[i] == other[i],
    ensures
        marked_pieces(have, from, to) == marked_pieces(other, from, to),
    decreases to - from,
{
    if from < to {
        lemma_marked_agree(have, other, from, to - 1);
    }
}

/// The piece of a byte in a run is among the pieces of the run.
proof fn lemma_byte_within(l: Lengths, offset: int, len: int, byte: int)
    requires
        l.wf(),
        0 <= offset,
        offset + len <= l.total_length,
        offset <= byte < offset + len,
    ensures
        l.spec_pieces_within(offset, len).0 <= byte / (l.piece_length as int)
            < l.spec_pieces_within(offset, len).1,
{
    let pl = l.piece_length as int;
    vstd::arithmetic::div_mod::lemma_div_is_ordered(offset, byte, pl);
    vstd::arithmetic::div_mod::lemma_div_is_ordered(byte, offset + len - 1, pl);
}

/// Each piece of a run holds a byte of it.
proof fn lemma_piece_meets_run(l: Lengths, offset: int, len: int, index: int) -> (byte: int)
    requires
        l.wf(),
        0 <= offset,
        0 <= len,
        offset + len <= l.total_length,
        l.spec_pieces_within(offset, len).0 <= index < l.spec_pieces_within(offset, len).1,
    ensures
        offset <= byte < offset + len,
        byte / (l.piece_length as int) == index,
{
    lemma_pieces_within(l, offset, len);
    lemma_piece_bounds(l, index);
    let (start, end) = l.spec_pieces_within(offset, len);
    if index == start {
        offset
    } else {
        let pl = l.piece_length as int;
        vstd::arithmetic::mul::lemma_mul_inequality(start + 1, index, pl);
        vstd::arithmetic::mul::lemma_mul_inequality(index, end - 1, pl);
        lemma_piece_of_byte(l, index, l.piece_offset(index));
        l.piece_offset(index)
    }
}

// ---------------------------------------------------------------------------
// What the figures count
// ---------------------------------------------------------------------------

/// The count of verified pieces is that of the marked indices: a range may be
/// cut anywhere, an empty one counts nothing, and one piece counts one exactly
/// if it is marked.
pub proof fn law_pieces_are_counted_one_by_one(have: Seq<bool>, from: int, mid: int, to: int)
    requires
        from <= mid <= to,
    ensures
        marked_pieces(have, from, to) == marked_pieces(have, from, mid) + marked_pieces(
            have,
            mid,
            to,
        ),
        marked_pieces(have, mid, mid) == 0,
        marked_pieces(have, mid, mid + 1) == if have[mid] {
            1int
        } else {
            0
        },
    decreases to - mid,
{
    assert(marked_pieces(have, mid, mid) == 0);
    if mid < to {
        law_pieces_are_counted_one_by_one(have, from, mid, to - 1);
    }
}

/// The count of verified bytes is that of the bytes in marked pieces: a run may
/// be cut anywhere, an empty one counts nothing, and one byte counts one
/// exactly if the piece that holds it is marked.
pub proof fn law_bytes_are_counted_one_by_one(
    have: Seq<bool>,
    l: Lengths,
    from: int,
    mid: int,
    to: int,
    piece: int,
)
    requires
        l.wf(),
        from <= mid <= to,
        0 <= piece < l.pieces(),
        l.piece_offset(piece) <= mid < l.piece_end(piece),
    ensures
        covered_bytes(have, l.piece_length as int, from, to) == covered_bytes(
            have,
            l.piece_length as int,
            from,
            mid,
        ) + covered_bytes(have, l.piece_length as int, mid, to),
        covered_bytes(have, l.piece_length as int, mid, mid) == 0,
        covered_bytes(have, l.piece_length as int, mid, mid + 1) == if have[piece] {
            1int
        } else {
            0
        },
{
    let pl = l.piece_length as int;
    lemma_covered_split(have, pl, from, mid, to);
    lemma_piece_of_byte(l, piece, mid);
    assert(covered_bytes(have, pl, mid, mid) == 0);
}

/// One piece more counts once, where it lies in the range.
proof fn lemma_marked_one_more(have: Seq<bool>, from: int, to: int, piece: int)
    requires
        0 <= from <= to <= have.len(),
        0 <= piece < have.len(),
        !have[piece],
    ensures
        marked_pieces(have.update(piece, true), from, to) == marked_pieces(have, from, to) + if from
            <= piece < to {
            1int
        } else {
            0
        },
    decreases to - from,
{
    if from < to {
        lemma_marked_one_more(have, from, to - 1, piece);
    }
}

/// One piece more adds the bytes of a run that lie in it.
proof fn lemma_covered_one_more(have: Seq<bool>, l: Lengths, from: int, to: int, piece: int)
    requires
        l.wf(),
        l.pieces() <= have.len(),
        0 <= piece < l.pieces(),
        !have[piece],
        0 <= from <= to <= l.total_length,
    ensures
        covered_bytes(have.update(piece, true), l.piece_length as int, from, to) == covered_bytes(
            have,
            l.piece_length as int,
            from,
            to,
        ) + overlap(l.piece_offset(piece), l.piece_end(piece), from, to),
    decreases to - from,
{
    lemma_piece_bounds(l, piece);
    if from < to {
        lemma_covered_one_more(have, l, from, to - 1, piece);
        lemma_byte_in_piece(l, to - 1);
        if l.piece_offset(piece) <= to - 1 < l.piece_end(piece) {
            lemma_piece_of_byte(l, piece, to - 1);
        }
    }
}

/// Two checks of which the second has verified one piece more: the torrent has
/// that piece and its bytes more, each file the bytes that it shares with the
/// piece, and the piece itself if there are any. Nothing else differs.
pub proof fn law_one_more_piece(
    info: TorrentInfo,
    opened: Seq<bool>,
    have: Seq<bool>,
    fewer: CheckResult,
    more: CheckResult,
    piece: int,
)
    requires
        info.wf(),
        info.lengths.pieces() <= have.len(),
        0 <= piece < info.lengths.pieces(),
        !have[piece],
        fewer.reports(info, opened, have),
        more.reports(info, opened, have.update(piece, true)),
    ensures
        more.have_piece_count == fewer.have_piece_count + 1,
        more.have_bytes == fewer.have_bytes + (info.lengths.piece_end(piece)
            - info.lengths.piece_offset(piece)),
        more.total_bytes == fewer.total_bytes,
        more.total_pieces == fewer.total_pieces,
        forall|i: int|
            0 <= i < fewer.have_pieces.len() ==> #[trigger] more.have_pieces[i]
                == (fewer.have_pieces[i] || i == piece),
        more.files.len() == fewer.files.len(),
        forall|i: int|
            #![trigger more.files[i]]
            0 <= i < more.files.len() ==> {
                &&& more.files[i].have_bytes == fewer.files[i].have_bytes + overlap(
                    info.lengths.piece_offset(piece),
                    info.lengths.piece_end(piece),
                    info.files[i].offset_in_torrent as int,
                    info.files[i].offset_in_torrent + info.files[i].len,
                )
                &&& more.files[i].pieces_have == fewer.files[i].pieces_have + if
                    info.files[i].piece_range.start <= piece < info.files[i].piece_range.end {
                    1int
                } else {
                    0
                }
                &&& more.files[i].found_on_disk == fewer.files[i].found_on_disk
            },
{
    let l = info.lengths;
    lemma_piece_bounds(l, piece);
    lemma_marked_one_more(have, 0, l.pieces(), piece);
    lemma_covered_one_more(have, l, 0, l.total_length as int, piece);
    assert forall|i: int|
        #![trigger more.files[i]]
        0 <= i < more.files.len() implies {
        &&& more.files[i].have_bytes == fewer.files[i].have_bytes + overlap(
            info.lengths.piece_offset(piece),
            info.lengths.piece_end(piece),
            info.files[i].offset_in_torrent as int,
            info.files[i].offset_in_torrent + info.files[i].len,
        )
        &&& more.files[i].pieces_have == fewer.files[i].pieces_have + if
            info.files[i].piece_range.start <= piece < info.files[i].piece_range.end {
            1int
        } else {
            0
        }
        &&& more.files[i].found_on_disk == fewer.files[i].found_on_disk
    } by {
        let f = info.files[i];
        assert(info.located(f));
        assert(fewer.files[i].reports(info, i, opened[i], have));
        lemma_covered_one_more(have, l, f.offset_in_torrent as int, f.end(), piece);
        lemma_marked_one_more(
            have,
            f.piece_range.start as int,
            f.piece_range.end as int,
            piece,
        );
    }
}

/// With no piece verified there is no byte and no piece, in the torrent and in
/// each file.
pub proof fn law_nothing_verified(
    info: TorrentInfo,
    opened: Seq<bool>,
    have: Seq<bool>,
    result: CheckResult,
)
    requires
        info.wf(),
        info.lengths.pieces() <= have.len(),
        result.reports(info, opened, have),
        forall|i: int| 0 <= i < info.lengths.pieces() ==> !have[i],
    ensures
        result.have_bytes == 0,
        result.have_piece_count == 0,
        forall|i: int|
            0 <= i < result.files.len() ==> (#[trigger] result.files[i]).have_bytes == 0
                && result.files[i].pieces_have == 0,
{
    let l = info.lengths;
    let pl = l.piece_length as int;
    lemma_marked_bounds(have, 0, l.pieces());
    assert forall|b: int| 0 <= b < l.total_length implies #[trigger] is_covered(have, pl, b)
        == false by {
        lemma_byte_in_piece(l, b);
    }
    lemma_covered_uniform(have, pl, 0, l.total_length as int, false);
    assert forall|i: int| 0 <= i < result.files.len() implies (
    #[trigger] result.files[i]).have_bytes == 0 && result.files[i].pieces_have == 0 by {
        assert(info.located(info.files[i]));
        law_file_without_pieces_is_empty(info, opened, have, result, i);
    }
}

/// A check reports the torrent and the files that it was made of: the pieces as
/// they were found, the files in their order, each with its name, its length,
/// its pieces and whether it is padding, and as found exactly if it is padding
/// or was opened.
pub proof fn law_report_is_of_the_torrent(
    info: TorrentInfo,
    opened: Seq<bool>,
    have: Seq<bool>,
    result: CheckResult,
)
    requires
        info.wf(),
        info.lengths.pieces() <= have.len(),
        result.reports(info, opened, have),
    ensures
        result.total_bytes == info.lengths.total_length,
        result.total_pieces == info.lengths.pieces(),
        result.have_pieces.len() == info.lengths.pieces(),
        forall|i: int|
            0 <= i < result.have_pieces.len() ==> #[trigger] result.have_pieces[i] == have[i],
        result.files.len() == info.files.len(),
        forall|i: int|
            #![trigger result.files[i]]
            0 <= i < result.files.len() ==> {
                &&& result.files[i].file_index == i
                &&& result.files[i].relative_filename@ == info.files[i].relative_filename@
                &&& result.files[i].len == info.files[i].len
                &&& result.files[i].piece_range == info.files[i].piece_range
                &&& result.files[i].padding == info.files[i].padding
                &&& result.files[i].found_on_disk == (info.files[i].padding || opened[i])
            },
{
}

/// A file is read by the handle that it was opened with, or not at all: what
/// the storage says was opened is what has a handle.
pub proof fn law_opened_files_have_handles<F>(storage: ReadOnlyFilesystemStorage<F>)
    ensures
        storage.opened().len() == storage.files.len(),
        forall|i: int|
            0 <= i < storage.files.len() ==> #[trigger] storage.opened()[i] == (
            storage.files[i] is Some),
{
}

/// A refusal tells what it is about.
pub proof fn law_refusals_in_words(cause: String, file_id: usize)
    ensures
        CheckError::Verify(cause).text() == "error verifying torrent data: "@ + cause@,
        (StorageError::NotPresent { file_id }).text() == "file "@ + decimal(file_id as nat)
            + " not present on disk"@,
        StorageError::ReadOnly.text() == "read-only storage"@,
{
}

} // verus!
