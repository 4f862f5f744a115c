//! Installing bundles onto a FAT32 volume in memory, with a checker of the
//! volume's structure as the oracle.
//!
//! What matters is whether the volume afterwards is one that anybody else
//! would call well formed: a bundle that installs and leaves a card with
//! crossed or lost clusters is a bundle that installed and broke a board. So
//! the volume is laid out by hand, written through the installer, and walked
//! entry by entry.

use resident_fat::{BlockDevice, File, FileSystem};
use rpi_loader::apply::{Action, Error, Event, Installer, Notice, Progress, Report, SCRATCH};
use rpi_loader::bundle::{encode, Entry, Format, Role};

/// Thirty-four megabytes, the smallest that is clear of the 65,525 clusters
/// FAT32 requires at 512 bytes per cluster.
const IMAGE_BYTES: u64 = 34 * 1024 * 1024;

const SECTOR: usize = 512;
const RESERVED: usize = 32;
const FAT_SECTORS: usize = 536;
const DATA_START: usize = RESERVED + 2 * FAT_SECTORS;
const CLUSTERS: usize = IMAGE_BYTES as usize / SECTOR - DATA_START;

const FORMAT: Format = Format {
    magic: *b"TEST",
    max_entries: 16,
};

/// A volume in memory, so a test can hand the same bytes to the installer and
/// then to a checker.
struct Ram {
    blocks: Vec<u8>,
    /// Every device call, which is how the skip test proves a write did not
    /// happen rather than merely that the bytes are unchanged.
    reads: usize,
    writes: usize,
}

#[derive(Debug)]
struct OutOfRange;

impl BlockDevice for Ram {
    type Error = OutOfRange;

    fn read(&mut self, start_block: u64, blocks: &mut [u8]) -> Result<(), OutOfRange> {
        let at = start_block as usize * 512;
        let end = at + blocks.len();
        if end > self.blocks.len() {
            return Err(OutOfRange);
        }
        blocks.copy_from_slice(&self.blocks[at..end]);
        self.reads += 1;
        Ok(())
    }

    fn write(&mut self, start_block: u64, blocks: &[u8]) -> Result<(), OutOfRange> {
        let at = start_block as usize * 512;
        let end = at + blocks.len();
        if end > self.blocks.len() {
            return Err(OutOfRange);
        }
        self.blocks[at..end].copy_from_slice(blocks);
        self.writes += 1;
        Ok(())
    }

    fn block_count(&mut self) -> Result<Option<u64>, OutOfRange> {
        Ok(Some(self.blocks.len() as u64 / 512))
    }
}

fn put(image: &mut [u8], at: usize, bytes: &[u8]) {
    image[at..at + bytes.len()].copy_from_slice(bytes);
}

fn get_u16(image: &[u8], at: usize) -> usize {
    u16::from_le_bytes([image[at], image[at + 1]]) as usize
}

fn get_u32(image: &[u8], at: usize) -> u32 {
    u32::from_le_bytes([image[at], image[at + 1], image[at + 2], image[at + 3]])
}

/// A freshly formatted FAT32 volume, one sector to a cluster.
fn blank_volume() -> Ram {
    let mut image = vec![0u8; IMAGE_BYTES as usize];
    let total = (IMAGE_BYTES as usize / SECTOR) as u32;

    let mut boot = vec![0u8; SECTOR];
    put(&mut boot, 0x00, &[0xEB, 0x58, 0x90]);
    put(&mut boot, 0x03, b"mkfs.fat");
    put(&mut boot, 0x0B, &(SECTOR as u16).to_le_bytes());
    boot[0x0D] = 1;
    put(&mut boot, 0x0E, &(RESERVED as u16).to_le_bytes());
    boot[0x10] = 2;
    boot[0x15] = 0xF8;
    put(&mut boot, 0x18, &32u16.to_le_bytes());
    put(&mut boot, 0x1A, &8u16.to_le_bytes());
    put(&mut boot, 0x20, &total.to_le_bytes());
    put(&mut boot, 0x24, &(FAT_SECTORS as u32).to_le_bytes());
    put(&mut boot, 0x2C, &2u32.to_le_bytes());
    put(&mut boot, 0x30, &1u16.to_le_bytes());
    put(&mut boot, 0x32, &6u16.to_le_bytes());
    boot[0x40] = 0x80;
    boot[0x42] = 0x29;
    put(&mut boot, 0x43, &0x1234_5678u32.to_le_bytes());
    put(&mut boot, 0x47, b"TEST       ");
    put(&mut boot, 0x52, b"FAT32   ");
    put(&mut boot, 0x1FE, &[0x55, 0xAA]);

    let mut info = vec![0u8; SECTOR];
    put(&mut info, 0x000, &0x4161_5252u32.to_le_bytes());
    put(&mut info, 0x1E4, &0x6141_7272u32.to_le_bytes());
    put(&mut info, 0x1E8, &(CLUSTERS as u32 - 1).to_le_bytes());
    put(&mut info, 0x1EC, &2u32.to_le_bytes());
    put(&mut info, 0x1FE, &[0x55, 0xAA]);

    for first in [0, 6] {
        put(&mut image, first * SECTOR, &boot);
        put(&mut image, (first + 1) * SECTOR, &info);
    }
    for copy in 0..2 {
        let table = (RESERVED + copy * FAT_SECTORS) * SECTOR;
        put(&mut image, table, &0x0FFF_FFF8u32.to_le_bytes());
        put(&mut image, table + 4, &0x0FFF_FFFFu32.to_le_bytes());
        put(&mut image, table + 8, &0x0FFF_FFF8u32.to_le_bytes());
    }
    let root = DATA_START * SECTOR;
    put(&mut image, root, b"TEST       ");
    image[root + 11] = 0x08;

    Ram {
        blocks: image,
        reads: 0,
        writes: 0,
    }
}

/// The clusters of the chain that begins at `first`, each marked as used.
fn chain(image: &[u8], first: u32, used: &mut [bool]) -> Vec<u32> {
    let mut clusters = Vec::new();
    let mut at = first;
    loop {
        assert!(
            at >= 2 && (at as usize) < CLUSTERS + 2,
            "cluster {at} is outside the volume"
        );
        assert!(!used[at as usize], "cluster {at} is in two chains");
        used[at as usize] = true;
        clusters.push(at);
        let next = get_u32(image, RESERVED * SECTOR + at as usize * 4) & 0x0FFF_FFFF;
        if next >= 0x0FFF_FFF8 {
            return clusters;
        }
        at = next;
    }
}

/// The checksum that ties a long name to its short one.
fn short_checksum(name: &[u8]) -> u8 {
    name.iter()
        .fold(0u8, |sum, &b| sum.rotate_right(1).wrapping_add(b))
}

/// Walks the directory that begins at `first`, and everything below it.
fn check_directory(image: &[u8], first: u32, parent: Option<u32>, used: &mut [bool]) {
    let clusters = chain(image, first, used);
    let mut names: Vec<Vec<u8>> = Vec::new();
    let mut pending: Vec<u8> = Vec::new();
    let mut index = 0;
    'entries: for cluster in clusters {
        let base = (DATA_START + cluster as usize - 2) * SECTOR;
        for slot in 0..SECTOR / 32 {
            let entry = &image[base + slot * 32..base + slot * 32 + 32];
            if entry[0] == 0 {
                break 'entries;
            }
            index += 1;
            if entry[0] == 0xE5 {
                assert!(pending.is_empty(), "a long name without a short one");
                continue;
            }
            if entry[11] & 0x3F == 0x0F {
                pending.push(entry[13]);
                continue;
            }
            for sum in pending.drain(..) {
                assert_eq!(sum, short_checksum(&entry[..11]), "a long name of another file");
            }
            if entry[11] & 0x08 != 0 {
                continue;
            }
            let start = ((get_u16(entry, 20) as u32) << 16) | get_u16(entry, 26) as u32;
            let size = get_u32(entry, 28) as usize;
            if &entry[..11] == b".          " {
                assert_eq!((index, start), (1, first));
                continue;
            }
            if &entry[..11] == b"..         " {
                assert_eq!((index, start), (2, parent.expect("the root has no parent")));
                continue;
            }
            assert!(!names.contains(&entry[..11].to_vec()), "a name twice");
            names.push(entry[..11].to_vec());
            if entry[11] & 0x10 != 0 {
                assert_eq!(size, 0, "a directory with a size");
                let up = if parent.is_none() { 0 } else { first };
                check_directory(image, start, Some(up), used);
            } else if size == 0 {
                assert_eq!(start, 0, "an empty file with a chain");
            } else {
                let held = chain(image, start, used).len();
                assert_eq!(held, size.div_ceil(SECTOR), "a chain of the wrong length");
            }
        }
    }
    assert!(pending.is_empty(), "a long name without a short one");
}

/// Walks a whole volume: the copies of the table agree, no cluster is in two
/// chains or in none, every chain is as long as its file, the volume is marked
/// clean and its count of free clusters is right.
fn check_volume(volume: &Ram) {
    let image = &volume.blocks;
    let table = RESERVED * SECTOR;
    let copy = (RESERVED + FAT_SECTORS) * SECTOR;
    let bytes = FAT_SECTORS * SECTOR;
    assert!(
        image[table..table + bytes] == image[copy..copy + bytes],
        "the copies of the table differ"
    );
    assert_eq!(image[0x41] & 1, 0, "the volume is marked dirty");
    assert_ne!(
        get_u32(image, table + 4) & 0x0800_0000,
        0,
        "the table is marked dirty"
    );

    let mut used = vec![false; CLUSTERS + 2];
    check_directory(image, 2, None, &mut used);
    let mut free = 0;
    for cluster in 2..CLUSTERS + 2 {
        let entry = get_u32(image, table + cluster * 4) & 0x0FFF_FFFF;
        assert_eq!(entry != 0, used[cluster], "cluster {cluster} is lost or free");
        if entry == 0 {
            free += 1;
        }
    }
    assert_eq!(get_u32(image, SECTOR + 0x1E8), free, "wrong count of free clusters");
}

/// Installs a bundle: does what the installer asks, one action at a time.
fn apply<D: BlockDevice, P: Progress>(
    volume: &mut FileSystem<D>,
    format: &Format,
    bundle: &[u8],
    progress: &mut P,
) -> Result<Report, Error<D::Error>> {
    let mut installer: Installer<'_, D::Error> = Installer::new(format, bundle)?;
    let mut scratch = vec![0u8; SCRATCH];
    let mut file: Option<File> = None;
    loop {
        let event = match installer.action() {
            Action::Tell(notice, entry) => {
                match notice {
                    Notice::Starting => progress.starting(entry),
                    Notice::Wrote => progress.wrote(entry),
                    Notice::Verified => progress.verified(entry),
                    Notice::Skipped => progress.skipped(entry),
                }
                Event::Done
            }
            Action::Open(path) => match volume.open(path) {
                Ok(opened) => {
                    let len = opened.len();
                    file = Some(opened);
                    Event::Opened(len)
                }
                Err(resident_fat::Error::NotFound { .. }) => Event::Missing,
                Err(error) => Event::Failed(error),
            },
            Action::Read(at) => {
                let opened = file.as_ref().expect("a file is open");
                match volume.read_at(opened, u64::from(at), &mut scratch) {
                    Ok(read) => Event::Read(&scratch[..read]),
                    Err(error) => Event::Failed(error),
                }
            }
            Action::OpenDir(path) => match volume.open_dir(path) {
                Ok(_) => Event::Done,
                Err(error) => Event::Failed(error),
            },
            Action::CreateDir(path) => match volume.create_dir(path) {
                Ok(_) => Event::Done,
                Err(error) => Event::Failed(error),
            },
            Action::Write(entry) => match volume.write_file(entry.path, entry.data) {
                Ok(_) => Event::Done,
                Err(error) => Event::Failed(error),
            },
            Action::Sync => match volume.sync() {
                Ok(()) => Event::Done,
                Err(error) => Event::Failed(error),
            },
            Action::Finish => return installer.outcome(),
        };
        installer = installer.next(event);
    }
}

/// Records the order entries were handled in, and how.
#[derive(Default)]
struct Order {
    events: Vec<String>,
}

impl Progress for Order {
    fn wrote(&mut self, entry: Entry<'_>) {
        self.events.push(format!("wrote {}", entry.path));
    }

    fn skipped(&mut self, entry: Entry<'_>) {
        self.events.push(format!("skipped {}", entry.path));
    }
}

fn file<'a>(path: &'a str, data: &'a [u8]) -> Entry<'a> {
    Entry {
        role: Role::File,
        path,
        data,
    }
}

/// Reads a file back off a volume the way anything else would.
fn read(volume: &mut FileSystem<Ram>, path: &str) -> Vec<u8> {
    let handle = volume
        .open(path)
        .unwrap_or_else(|e| panic!("opening {path}: {e:?}"));
    volume.read_all(&handle).expect("reading it")
}

#[test]
fn installs_every_entry_where_its_path_says() {
    let entries = [
        Entry {
            role: Role::Kernel,
            path: "KERNEL7.IMG",
            data: b"kernel bytes",
        },
        file("WWW/INDEX.HTM", b"<html>"),
        file("WWW/CSS/SITE.CSS", b"body{}"),
        Entry {
            role: Role::Config,
            path: "CONFIG.TXT",
            data: b"arm_64bit=0\n",
        },
    ];
    let bytes = encode(&FORMAT, &entries).unwrap();

    let mut volume = FileSystem::mount(blank_volume()).expect("mounting");
    let report = apply(&mut volume, &FORMAT, &bytes, &mut ()).expect("applying");

    assert_eq!(report.written, 4);
    assert_eq!(report.skipped, 0);
    assert_eq!(report.kernel_len, Some(12));

    assert_eq!(read(&mut volume, "KERNEL7.IMG"), b"kernel bytes");
    assert_eq!(read(&mut volume, "CONFIG.TXT"), b"arm_64bit=0\n");
    // Nested, on a volume that had no such directories a moment ago.
    assert_eq!(read(&mut volume, "WWW/INDEX.HTM"), b"<html>");
    assert_eq!(read(&mut volume, "WWW/CSS/SITE.CSS"), b"body{}");

    check_volume(volume.device());
}

#[test]
fn other_files_and_directories_stay_as_they_were() {
    let mut volume = FileSystem::mount(blank_volume()).expect("mounting");
    volume.create_dir("LOGS").expect("making a directory");
    volume.write_file("LOGS/A.TXT", b"kept").expect("writing");
    volume.write_file("CMDLINE.TXT", b"quiet").expect("writing");

    let bytes = encode(&FORMAT, &[file("WWW/CSS/SITE.CSS", b"body{}")]).unwrap();
    apply(&mut volume, &FORMAT, &bytes, &mut ()).expect("applying");

    assert_eq!(read(&mut volume, "LOGS/A.TXT"), b"kept");
    assert_eq!(read(&mut volume, "CMDLINE.TXT"), b"quiet");
    for directory in ["LOGS", "WWW", "WWW/CSS"] {
        assert!(volume.open_dir(directory).is_ok(), "no {directory}");
    }
    check_volume(volume.device());
}

#[test]
fn the_kernel_is_written_last() {
    // The whole safety argument in one assertion: with one boot image, that
    // write is the commit, so everything that could fail has to have failed
    // already.
    let entries = [
        Entry {
            role: Role::Kernel,
            path: "KERNEL7.IMG",
            data: b"kernel",
        },
        Entry {
            role: Role::Firmware,
            path: "BOOTCODE.BIN",
            data: b"boot",
        },
        Entry {
            role: Role::Config,
            path: "CONFIG.TXT",
            data: b"x=1\n",
        },
        file("WWW/INDEX.HTM", b"<html>"),
    ];
    let bytes = encode(&FORMAT, &entries).unwrap();

    let mut volume = FileSystem::mount(blank_volume()).expect("mounting");
    let mut order = Order::default();
    apply(&mut volume, &FORMAT, &bytes, &mut order).expect("applying");

    assert_eq!(
        order.events,
        vec![
            "wrote WWW/INDEX.HTM",
            "wrote BOOTCODE.BIN",
            "wrote CONFIG.TXT",
            "wrote KERNEL7.IMG",
        ],
        "entries were not written in role order"
    );
}

#[test]
fn an_unchanged_entry_is_read_and_not_rewritten() {
    let entries = [
        Entry {
            role: Role::Firmware,
            path: "START.ELF",
            data: &[0xA5; 40_000],
        },
        Entry {
            role: Role::Firmware,
            path: "FIXUP.DAT",
            data: b"fixup",
        },
        file("SETTINGS.CFG", b"zone=1"),
    ];
    let bytes = encode(&FORMAT, &entries).unwrap();

    let mut volume = FileSystem::mount(blank_volume()).expect("mounting");
    apply(&mut volume, &FORMAT, &bytes, &mut ()).expect("first install");

    // Same bundle again. Nothing has changed, so nothing should be written.
    let before = volume.device().writes;
    let mut order = Order::default();
    let report = apply(&mut volume, &FORMAT, &bytes, &mut order).expect("second install");

    assert_eq!(report.written, 0);
    assert_eq!(report.skipped, 3);
    assert!(
        order
            .events
            .iter()
            .all(|event| event.starts_with("skipped")),
        "{:?}",
        order.events
    );
    // The device is the witness, not the byte contents: an installer that
    // wrote the same bytes back would pass a content check and cost the card
    // the same erase cycles.
    assert_eq!(
        volume.device().writes,
        before,
        "the card was written to for an update that changed nothing"
    );

    check_volume(volume.device());
}

#[test]
fn a_changed_entry_beside_unchanged_ones_is_the_only_one_written() {
    let unchanged: &[u8] = &[0x5A; 20_000];
    let first = [
        Entry {
            role: Role::Firmware,
            path: "START.ELF",
            data: unchanged,
        },
        Entry {
            role: Role::Firmware,
            path: "FIXUP.DAT",
            data: b"fixup",
        },
        file("SETTINGS.CFG", b"zone=1"),
    ];
    let mut volume = FileSystem::mount(blank_volume()).expect("mounting");
    apply(
        &mut volume,
        &FORMAT,
        &encode(&FORMAT, &first).unwrap(),
        &mut (),
    )
    .expect("first");

    let second = [
        Entry {
            role: Role::Firmware,
            path: "START.ELF",
            data: unchanged,
        },
        Entry {
            role: Role::Firmware,
            path: "FIXUP.DAT",
            data: b"fixup",
        },
        file("SETTINGS.CFG", b"zone=2"),
    ];
    let mut order = Order::default();
    let report = apply(
        &mut volume,
        &FORMAT,
        &encode(&FORMAT, &second).unwrap(),
        &mut order,
    )
    .expect("second");

    assert_eq!(report.written, 1);
    assert_eq!(report.skipped, 2);
    assert_eq!(read(&mut volume, "SETTINGS.CFG"), b"zone=2");
    check_volume(volume.device());
}

#[test]
fn a_same_length_change_is_still_noticed() {
    // The length check is the fast path, not the answer. Two files of equal
    // length and different content must not be mistaken for each other.
    let mut volume = FileSystem::mount(blank_volume()).expect("mounting");
    let before = [file("A.TXT", b"aaaaaaaa")];
    apply(
        &mut volume,
        &FORMAT,
        &encode(&FORMAT, &before).unwrap(),
        &mut (),
    )
    .expect("first");

    let after = [file("A.TXT", b"bbbbbbbb")];
    let report = apply(
        &mut volume,
        &FORMAT,
        &encode(&FORMAT, &after).unwrap(),
        &mut (),
    )
    .expect("second");

    assert_eq!(report.written, 1, "a same-length change was skipped");
    assert_eq!(read(&mut volume, "A.TXT"), b"bbbbbbbb");
}

#[test]
fn a_bundle_with_no_kernel_installs_and_reports_none() {
    let entries = [file("WWW/INDEX.HTM", b"<html>")];
    let bytes = encode(&FORMAT, &entries).unwrap();

    let mut volume = FileSystem::mount(blank_volume()).expect("mounting");
    let report = apply(&mut volume, &FORMAT, &bytes, &mut ()).expect("applying");

    assert_eq!(
        report,
        Report {
            kernel_len: None,
            written: 1,
            skipped: 0,
        }
    );
    check_volume(volume.device());
}

#[test]
fn a_rejected_bundle_writes_nothing() {
    let mut volume = FileSystem::mount(blank_volume()).expect("mounting");
    let bytes = encode(&FORMAT, &[file("A.TXT", b"a")]).unwrap();

    let other = Format {
        magic: *b"OTHR",
        max_entries: 16,
    };
    let before = volume.device().writes;
    apply(&mut volume, &other, &bytes, &mut ()).expect_err("should be refused");

    assert_eq!(
        volume.device().writes,
        before,
        "a bundle refused at the header still touched the card"
    );
}

#[test]
fn a_failed_install_leaves_a_volume_fsck_accepts() {
    // The install runs out of room part-way through, which is the shape of
    // every real failure here: some entries are on the card and some are
    // not. What must not happen is that the volume itself is left corrupt,
    // because that is a card that has to be reformatted rather than an
    // update that has to be retried.
    // On the heap rather than a repeat-expression literal, which would be
    // promoted to a static of the same size and put it in the binary.
    let huge = vec![0x11u8; IMAGE_BYTES as usize + 1024 * 1024];
    let entries = [file("SMALL.TXT", b"fits"), file("HUGE.BIN", &huge)];
    let bytes = encode(&FORMAT, &entries).unwrap();

    let mut volume = FileSystem::mount(blank_volume()).expect("mounting");
    apply(&mut volume, &FORMAT, &bytes, &mut ()).expect_err("should not fit");

    // The entry that did fit is there and readable; the one that did not is
    // not half-written into the directory.
    assert_eq!(read(&mut volume, "SMALL.TXT"), b"fits");
    check_volume(volume.device());
}

// --- Without a volume -----------------------------------------------------------

/// Answers an installer until it finishes, by what `answer` makes of each
/// action, and lists the actions.
fn drive<'a>(
    bytes: &'a [u8],
    mut answer: impl FnMut(&Action<'a>) -> Event<'static, OutOfRange>,
) -> (Result<Report, Error<OutOfRange>>, Vec<String>) {
    let mut installer: Installer<'_, OutOfRange> = Installer::new(&FORMAT, bytes).unwrap();
    let mut seen = Vec::new();
    loop {
        let action = installer.action();
        seen.push(match &action {
            Action::Tell(notice, entry) => format!("{notice:?} {}", entry.path),
            Action::Open(path) => format!("open {path}"),
            Action::Read(at) => format!("read {at}"),
            Action::OpenDir(path) => format!("opendir {path}"),
            Action::CreateDir(path) => format!("mkdir {path}"),
            Action::Write(entry) => format!("write {}", entry.path),
            Action::Sync => "sync".to_string(),
            Action::Finish => return (installer.outcome(), seen),
        });
        installer = installer.next(answer(&action));
    }
}

#[test]
fn an_entry_goes_through_every_stage() {
    let bytes = encode(&FORMAT, &[file("WWW/CSS/A.TXT", b"abc")]).unwrap();
    let mut written = false;
    let (result, seen) = drive(&bytes, |action| match action {
        Action::Open(_) if written => Event::Opened(3),
        Action::Open(_) => Event::Missing,
        Action::Read(0) => Event::Read(b"ab"),
        Action::Read(_) => Event::Read(b"c"),
        Action::OpenDir("WWW") => Event::Done,
        Action::OpenDir(_) => Event::Failed(resident_fat::Error::device(OutOfRange)),
        Action::Write(_) => {
            written = true;
            Event::Done
        }
        _ => Event::Done,
    });
    assert_eq!(
        seen,
        vec![
            "Starting WWW/CSS/A.TXT",
            "open WWW/CSS/A.TXT",
            "opendir WWW",
            "opendir WWW/CSS",
            "mkdir WWW/CSS",
            "write WWW/CSS/A.TXT",
            "Wrote WWW/CSS/A.TXT",
            "open WWW/CSS/A.TXT",
            "read 0",
            "read 2",
            "Verified WWW/CSS/A.TXT",
            "sync",
        ]
    );
    assert_eq!(
        result.unwrap(),
        Report {
            kernel_len: None,
            written: 1,
            skipped: 0
        }
    );
}

#[test]
fn a_read_back_that_differs_fails_the_install() {
    let bytes = encode(&FORMAT, &[file("A.TXT", b"abc"), file("B.TXT", b"b")]).unwrap();
    for (len, data) in [(3, &b"abd"[..]), (2, b"ab"), (3, b"")] {
        let (result, seen) = drive(&bytes, |action| match action {
            Action::Open(_) => Event::Opened(len),
            Action::Read(_) => Event::Read(data),
            _ => Event::Done,
        });
        let error = result.unwrap_err();
        assert!(matches!(error, Error::VerifyFailed));
        assert_eq!(error.http_status(), 500);
        // The volume is synced all the same, and the next entry is not tried.
        assert_eq!(seen.last().unwrap(), "sync");
        assert!(!seen.iter().any(|action| action.contains("B.TXT")));
    }
}

#[test]
fn a_failure_of_the_card_is_reported_after_a_sync() {
    let bytes = encode(&FORMAT, &[file("A.TXT", b"abc")]).unwrap();
    let (result, seen) = drive(&bytes, |action| match action {
        Action::Open(_) => Event::Failed(resident_fat::Error::device(OutOfRange)),
        _ => Event::Done,
    });
    let error = result.unwrap_err();
    assert!(matches!(error, Error::Storage(_)));
    assert_eq!(error.http_status(), 500);
    assert_eq!(seen, vec!["Starting A.TXT", "open A.TXT", "sync"]);

    // A failed sync fails an install that went well.
    let (result, _) = drive(&bytes, |action| match action {
        Action::Open(_) => Event::Opened(3),
        Action::Read(_) => Event::Read(b"abc"),
        Action::Sync => Event::Failed(resident_fat::Error::device(OutOfRange)),
        _ => Event::Done,
    });
    assert!(matches!(result, Err(Error::Storage(_))));
}

#[test]
fn a_rejected_bundle_is_the_senders_fault() {
    let rejected = Installer::<'_, OutOfRange>::new(&FORMAT, b"short");
    match rejected {
        Err(error) => {
            assert_eq!(error.http_status(), 400);
            assert!(matches!(error, Error::Bundle(rpi_loader::bundle::Error::TooShort)));
        }
        Ok(_) => panic!("accepted"),
    }
    assert_eq!(Report::default().written, 0);
}
