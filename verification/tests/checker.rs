use librqbit::checker::{
    check_torrent, CheckError, CheckResult, FileCheckResult, ReadOnlyFilesystemStorage,
    StorageError,
};
use librqbit::torrent_info::{FileEntry, LayoutError, Lengths, TorrentInfo};

fn entry(name: &str, len: u64, padding: bool) -> FileEntry {
    FileEntry {
        relative_filename: name.to_string(),
        len,
        padding,
    }
}

fn open_all(info: &TorrentInfo, disk: &[Option<Vec<u8>>]) -> ReadOnlyFilesystemStorage<Vec<u8>> {
    let mut storage = ReadOnlyFilesystemStorage::new();
    for (file, contents) in info.files.iter().zip(disk) {
        storage.add_file(file, contents.clone());
    }
    storage
}

/// Marks the pieces whose bytes are those of `original`, in a bitfield padded
/// to whole bytes.
fn initial_check(
    info: &TorrentInfo,
    storage: &ReadOnlyFilesystemStorage<Vec<u8>>,
    original: &[u8],
) -> Vec<bool> {
    let mut data: Vec<Option<u8>> = Vec::new();
    for (i, file) in info.files.iter().enumerate() {
        for at in 0..file.len as usize {
            data.push(if file.padding {
                Some(0)
            } else {
                storage.pread_exact(i).ok().and_then(|f| f.get(at).copied())
            });
        }
    }
    let mut have: Vec<bool> = data
        .chunks(info.lengths.piece_length as usize)
        .zip(original.chunks(info.lengths.piece_length as usize))
        .map(|(found, wanted)| found.iter().zip(wanted).all(|(f, w)| *f == Some(*w)))
        .collect();
    while have.len() % 8 != 0 {
        have.push(false);
    }
    have
}

fn check(info: &TorrentInfo, disk: &[Option<Vec<u8>>], original: &[u8]) -> CheckResult {
    let storage = open_all(info, disk);
    let have = initial_check(info, &storage, original);
    check_torrent(info, &storage, Ok(have)).unwrap()
}

#[test]
fn test_check_torrent() {
    const FILE_LEN: usize = 1000 * 1000;
    let contents: Vec<Vec<u8>> = (0..3usize)
        .map(|f| {
            (0..FILE_LEN)
                .map(|i| (i * 31 + f * 7 + i / 251) as u8)
                .collect()
        })
        .collect();
    let original: Vec<u8> = contents.concat();
    // Small pieces that don't divide the file length evenly, so some pieces
    // span two files.
    let info = TorrentInfo::new(
        32768,
        &vec![
            entry("0.data", FILE_LEN as u64, false),
            entry("1.data", FILE_LEN as u64, false),
            entry("2.data", FILE_LEN as u64, false),
        ],
    )
    .unwrap();
    let mut disk: Vec<Option<Vec<u8>>> = contents.into_iter().map(Some).collect();

    // All data present: everything verifies.
    let r = check(&info, &disk, &original);
    assert_eq!(r.have_bytes, r.total_bytes);
    assert_eq!(r.have_piece_count, r.total_pieces);
    assert!(r.have_pieces.iter().all(|p| *p));
    assert_eq!(r.files.len(), 3);
    for f in &r.files {
        assert!(f.found_on_disk);
        assert_eq!(f.have_bytes, f.len);
        assert_eq!(f.pieces_have, f.total_pieces());
    }
    assert_eq!(
        r.files.iter().map(|f| f.have_bytes).sum::<u64>(),
        // Pieces spanning two files count for both, but byte counts don't double.
        r.total_bytes
    );

    // Corrupt one byte in the middle of the second file: exactly one piece
    // fails verification.
    if let Some(f) = disk[1].as_mut() {
        f[FILE_LEN / 2] = !f[FILE_LEN / 2];
    }
    let r = check(&info, &disk, &original);
    assert_eq!(r.have_piece_count, r.total_pieces - 1);
    assert!(r.have_bytes < r.total_bytes);
    assert_eq!(r.files[0].have_bytes, r.files[0].len);
    assert!(r.files[1].have_bytes < r.files[1].len);
    assert_eq!(r.files[2].have_bytes, r.files[2].len);

    // Delete the second file entirely: all its pieces are missing, the other
    // files only lose pieces they share with it.
    disk[1] = None;
    let r = check(&info, &disk, &original);
    assert!(r.files[0].found_on_disk);
    assert!(!r.files[1].found_on_disk);
    assert!(r.files[2].found_on_disk);
    assert_eq!(r.files[1].pieces_have, 0);
    assert_eq!(r.files[1].have_bytes, 0);
    assert!(r.files[0].have_bytes > 0);
    assert!(r.files[2].have_bytes > 0);
}

#[test]
fn figures_of_a_torrent_in_which_pieces_span_files() {
    let info = TorrentInfo::new(
        32768,
        &vec![
            entry("0.data", 1_000_000, false),
            entry("1.data", 1_000_000, false),
            entry("2.data", 1_000_000, false),
        ],
    )
    .unwrap();
    assert_eq!(info.lengths.total_pieces(), 92);
    assert_eq!(info.lengths.piece_length_of(0), 32768);
    assert_eq!(info.lengths.piece_length_of(91), 3_000_000 - 91 * 32768);
    assert_eq!(info.files[0].piece_range, 0..31);
    assert_eq!(info.files[1].piece_range, 30..62);
    assert_eq!(info.files[2].piece_range, 61..92);
    assert_eq!(info.files[1].offset_in_torrent, 1_000_000);

    // Only piece 30 is there: the end of the first file, the start of the
    // second.
    let mut have = vec![false; 96];
    have[30] = true;
    let storage = open_all(&info, &[Some(vec![]), None, Some(vec![])]);
    let r = check_torrent(&info, &storage, Ok(have)).unwrap();
    assert_eq!(r.total_bytes, 3_000_000);
    assert_eq!(r.have_bytes, 32768);
    assert_eq!(r.total_pieces, 92);
    assert_eq!(r.have_piece_count, 1);
    assert_eq!(r.have_pieces.len(), 92);
    assert_eq!(r.files[0].have_bytes, 1_000_000 - 30 * 32768);
    assert_eq!(r.files[1].have_bytes, 31 * 32768 - 1_000_000);
    assert_eq!(r.files[2].have_bytes, 0);
    assert_eq!(r.files[0].pieces_have, 1);
    assert_eq!(r.files[1].pieces_have, 1);
    assert_eq!(r.files[2].pieces_have, 0);
    assert_eq!(r.files[1].total_pieces(), 32);
    assert_eq!(r.files[1].file_index, 1);
    assert_eq!(r.files[1].relative_filename, "1.data");
    assert!(!r.files[1].found_on_disk);
}

#[test]
fn padding_files_are_never_opened_and_count_as_found() {
    let info = TorrentInfo::new(
        16,
        &vec![
            entry("a", 10, false),
            entry(".pad/6", 6, true),
            entry("b", 4, false),
        ],
    )
    .unwrap();
    assert!(ReadOnlyFilesystemStorage::<u8>::wants(&info.files[0]));
    assert!(!ReadOnlyFilesystemStorage::<u8>::wants(&info.files[1]));

    // A handle for the padding file is not kept.
    let storage = open_all(&info, &[Some(vec![1]), Some(vec![2]), None]);
    assert_eq!(storage.pread_exact(0), Ok(&vec![1]));
    assert_eq!(
        storage.pread_exact(1),
        Err(StorageError::NotPresent { file_id: 1 })
    );
    let r = check_torrent(&info, &storage, Ok(vec![true, false])).unwrap();
    assert!(r.files[1].padding);
    assert!(r.files[1].found_on_disk);
    assert_eq!(r.files[1].have_bytes, 6);
    assert!(!r.files[2].found_on_disk);
    assert_eq!(r.files[2].have_bytes, 0);
    assert_eq!(r.have_bytes, 16);
}

#[test]
fn empty_files_lie_in_no_piece() {
    let info = TorrentInfo::new(
        4,
        &vec![
            entry("empty", 0, false),
            entry("a", 8, false),
            entry("end", 0, false),
        ],
    )
    .unwrap();
    let storage = open_all(&info, &[None, None, None]);
    let r = check_torrent(&info, &storage, Ok(vec![true, true])).unwrap();
    assert_eq!(r.files[0].total_pieces(), 0);
    assert_eq!(r.files[0].have_bytes, 0);
    assert_eq!(r.files[1].have_bytes, 8);
    assert_eq!(r.files[2].total_pieces(), 0);
}

#[test]
fn a_failed_check_is_an_error() {
    let info = TorrentInfo::new(4, &vec![entry("a", 8, false)]).unwrap();
    let storage = open_all(&info, &[None]);
    let r = check_torrent(&info, &storage, Err("disk on fire".to_string()));
    match r {
        Err(e) => {
            assert_eq!(e.message(), "error verifying torrent data: disk on fire");
            assert!(matches!(e, CheckError::Verify(cause) if cause == "disk on fire"));
        }
        Ok(r) => panic!("{:?}", r),
    }
}

#[test]
fn the_storage_refuses_every_change() {
    let mut storage = ReadOnlyFilesystemStorage {
        files: vec![Some(7u8)],
    };
    assert_eq!(storage.init(), Ok(()));
    assert_eq!(storage.pread_exact(0), Ok(&7));
    assert_eq!(
        storage.pread_exact(3),
        Err(StorageError::NotPresent { file_id: 3 })
    );
    assert_eq!(storage.pwrite_all(0, 0, &[1]), Err(StorageError::ReadOnly));
    assert_eq!(
        storage.pwrite_all_vectored(0, 0, (&[1], &[2])),
        Err(StorageError::ReadOnly)
    );
    assert_eq!(storage.remove_file(0, "a"), Err(StorageError::ReadOnly));
    assert_eq!(
        storage.remove_directory_if_empty("d"),
        Err(StorageError::ReadOnly)
    );
    assert_eq!(storage.ensure_file_length(0, 9), Err(StorageError::ReadOnly));
    assert!(matches!(storage.take(), Err(StorageError::ReadOnly)));
    assert_eq!(storage.on_piece_completed(0), Err(StorageError::ReadOnly));
    assert_eq!(storage.files, vec![Some(7u8)]);
    assert_eq!(StorageError::ReadOnly.message(), "read-only storage");
    assert_eq!(
        StorageError::NotPresent { file_id: 120 }.message(),
        "file 120 not present on disk"
    );
}

#[test]
fn lists_of_files_that_make_no_torrent() {
    assert!(matches!(
        TorrentInfo::new(0, &vec![entry("a", 1, false)]),
        Err(LayoutError::ZeroPieceLength)
    ));
    assert!(matches!(
        TorrentInfo::new(1, &vec![entry("a", u64::MAX, false), entry("b", 1, false)]),
        Err(LayoutError::TotalTooLarge)
    ));
    assert!(matches!(
        TorrentInfo::new(1, &vec![entry("a", 0, false)]),
        Err(LayoutError::ZeroLength)
    ));
    assert!(matches!(
        TorrentInfo::new(1, &vec![entry("a", 1 << 33, false)]),
        Err(LayoutError::TooManyPieces)
    ));
}

#[test]
fn pieces_within_a_stretch_of_the_torrent() {
    let lengths = Lengths {
        total_length: 100,
        piece_length: 30,
    };
    assert_eq!(lengths.total_pieces(), 4);
    assert_eq!(lengths.piece_length_of(2), 30);
    assert_eq!(lengths.piece_length_of(3), 10);
    assert_eq!(lengths.iter_pieces_within_offset(29, 2), 0..2);
    assert_eq!(lengths.iter_pieces_within_offset(30, 30), 1..2);
    assert_eq!(lengths.iter_pieces_within_offset(90, 10), 3..4);
    assert_eq!(lengths.size_of_piece_in_file(0, 20, 50), 10);
    assert_eq!(lengths.size_of_piece_in_file(1, 20, 50), 30);
    assert_eq!(lengths.size_of_piece_in_file(3, 20, 50), 0);
}

#[test]
fn total_pieces_counts_the_range() {
    let f = FileCheckResult {
        file_index: 0,
        relative_filename: "a".to_string(),
        len: 1,
        have_bytes: 0,
        piece_range: 3..10,
        pieces_have: 0,
        padding: false,
        found_on_disk: true,
    };
    assert_eq!(f.total_pieces(), 7);
}
