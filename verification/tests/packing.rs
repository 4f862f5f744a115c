//! Packing a project: the manifest's sources, read from a tree of files in
//! memory, into a bundle that parses.

use std::collections::BTreeMap;

use rpi_loader::bundle::{Bundle, Entry, Format, Role};
use rpi_loader::manifest::{
    output_name, pack, parse_magic, refused_role, relative_path, report, unpacked_line, Contents,
    FileRole, FileSpec, KernelSpec, Loaded, Loading, Manifest, Tree, Wanted, DEFAULT_MAX_ENTRIES,
};
use rpi_loader::upload::{reply_text, show, trim_end, upload_line, verdict};

/// A project's files, by path.
struct Project {
    files: BTreeMap<&'static str, &'static [u8]>,
}

impl Project {
    fn new(files: &[(&'static str, &'static [u8])]) -> Self {
        Project {
            files: files.iter().copied().collect(),
        }
    }

    /// Adds what is under `directory` to `into`, last first, so that the order
    /// cannot come from here.
    fn collect(&self, directory: &str, prefix: &str, into: &mut Tree) {
        let mut names: Vec<&str> = self
            .files
            .keys()
            .filter_map(|path| path.strip_prefix(directory)?.strip_prefix('/'))
            .map(|rest| rest.split('/').next().unwrap())
            .collect();
        names.dedup();
        for name in names.into_iter().rev() {
            let Some(relative) = relative_path(prefix, name) else {
                continue;
            };
            let path = format!("{directory}/{name}");
            match self.files.get(path.as_str()) {
                Some(data) => into.insert(relative, data.to_vec()),
                None => self.collect(&path, &relative, into),
            }
        }
    }

    fn load(&self, manifest: Manifest<&'static str>) -> Result<Vec<Loaded>, String> {
        let mut loading = Loading::new(manifest);
        loop {
            let path = match loading.wanted() {
                Wanted::Read { path, .. } => *path,
                Wanted::Refused(path) => return Err(format!("{path}: {}", refused_role())),
                Wanted::Nothing => return Ok(loading.into_loaded()),
            };
            let name = path.rsplit('/').next().unwrap();
            let contents = match self.files.get(path) {
                Some(data) => Contents::File(data.to_vec()),
                None if loading.wants_file() => return Err(format!("reading {path}")),
                None => {
                    let mut tree = Tree::new();
                    self.collect(path, "", &mut tree);
                    Contents::Directory(tree)
                }
            };
            loading = loading.take(name, contents);
        }
    }

    fn pack(&self, manifest: Manifest<&'static str>) -> Result<Vec<u8>, String> {
        let format = manifest.format()?;
        let loaded = self.load(manifest)?;
        pack(&format, &loaded).map_err(|error| error.message().to_string())
    }
}

fn manifest(
    magic: &str,
    name: &str,
    kernel: Option<KernelSpec<&'static str>>,
    files: Vec<FileSpec<&'static str>>,
) -> Manifest<&'static str> {
    Manifest {
        magic: magic.to_string(),
        name: name.to_string(),
        max_entries: None,
        kernel,
        files,
    }
}

fn spec(source: &'static str, dest: Option<&str>, role: FileRole) -> FileSpec<&'static str> {
    FileSpec {
        source,
        dest: dest.map(str::to_string),
        role,
    }
}

/// Parses a packed bundle the way a device would, and hands back what a device
/// would see.
fn entries(bytes: &[u8], magic: &[u8; 4]) -> Vec<(Role, String, Vec<u8>)> {
    let format = Format {
        magic: *magic,
        max_entries: 32,
    };
    let bundle = Bundle::parse(&format, bytes).expect("the packed bundle should parse");
    bundle
        .iter()
        .collect()
        .into_iter()
        .map(|Entry { role, path, data }| (role, path.to_owned(), data.to_vec()))
        .collect()
}

fn whole() -> (Project, Manifest<&'static str>) {
    let project = Project::new(&[
        ("target/kernel7.img", b"kernel"),
        ("www/index.htm", b"<html>"),
        ("www/css/site.css", b"body{}"),
        ("www/.hidden", b"not this one"),
        ("vendor/start.elf", b"start"),
        ("vendor/fixup.dat", b"fixup"),
        ("config.txt", b"arm_64bit=0\n"),
    ]);
    let described = manifest(
        "WATR",
        "water",
        Some(KernelSpec {
            source: "target/kernel7.img",
            dest: Some("KERNEL7.IMG".to_string()),
        }),
        vec![
            spec("www", Some("WWW"), FileRole::File),
            spec("vendor/start.elf", Some("START.ELF"), FileRole::Firmware),
            spec("vendor/fixup.dat", Some("FIXUP.DAT"), FileRole::Firmware),
            spec("config.txt", Some("CONFIG.TXT"), FileRole::Config),
        ],
    );
    (project, described)
}

#[test]
fn packs_a_whole_project() {
    let (project, described) = whole();
    let bytes = project.pack(described).unwrap();
    assert_eq!(
        entries(&bytes, b"WATR"),
        vec![
            (Role::Kernel, "KERNEL7.IMG".into(), b"kernel".to_vec()),
            // Nested, and sorted, so the same tree always packs to the same
            // bytes.
            (Role::File, "WWW/css/site.css".into(), b"body{}".to_vec()),
            (Role::File, "WWW/index.htm".into(), b"<html>".to_vec()),
            (Role::Firmware, "START.ELF".into(), b"start".to_vec()),
            (Role::Firmware, "FIXUP.DAT".into(), b"fixup".to_vec()),
            (Role::Config, "CONFIG.TXT".into(), b"arm_64bit=0\n".to_vec()),
        ],
        "a dotfile was packed, or the order was not what the tree says"
    );
}

#[test]
fn a_bundle_needs_no_kernel() {
    let project = Project::new(&[("settings.cfg", b"zone=1")]);
    let files = vec![spec("settings.cfg", Some("SETTINGS.CFG"), FileRole::File)];
    let bytes = project
        .pack(manifest("BSMT", "basement", None, files))
        .unwrap();
    assert_eq!(
        entries(&bytes, b"BSMT"),
        vec![(Role::File, "SETTINGS.CFG".into(), b"zone=1".to_vec())]
    );
}

#[test]
fn a_destination_defaults_to_the_source_file_name() {
    let project = Project::new(&[("vendor/CA.PEM", b"-----BEGIN")]);
    let files = vec![spec("vendor/CA.PEM", None, FileRole::File)];
    let bytes = project.pack(manifest("WATR", "water", None, files)).unwrap();
    assert_eq!(entries(&bytes, b"WATR")[0].1, "CA.PEM".to_owned());
}

#[test]
fn the_magic_must_be_four_characters() {
    let project = Project::new(&[("a.txt", b"a")]);
    let files = vec![spec("a.txt", Some("A.TXT"), FileRole::File)];
    let error = project
        .pack(manifest("WAT", "water", None, files))
        .unwrap_err();
    assert!(error.contains("four ASCII characters"), "{error}");
}

#[test]
fn a_kernel_role_in_files_is_refused() {
    // Two ways to name the boot image is two ways to name two of them, and
    // the container allows only one.
    let project = Project::new(&[("target/kernel7.img", b"kernel")]);
    let files = vec![spec(
        "target/kernel7.img",
        Some("KERNEL7.IMG"),
        FileRole::Kernel,
    )];
    let error = project
        .pack(manifest("WATR", "water", None, files))
        .unwrap_err();
    assert!(error.contains("[kernel] table"), "{error}");
    assert_eq!(
        error,
        "target/kernel7.img: role = \"kernel\" is not allowed in [[files]]; \
         name the boot image in the [kernel] table instead"
    );
}

#[test]
fn the_containers_rules_are_enforced_while_packing() {
    let project = Project::new(&[("vendor/start.elf", b"start")]);
    let files = vec![spec(
        "vendor/start.elf",
        Some("START.ELF"),
        FileRole::Firmware,
    )];
    let error = project
        .pack(manifest("WATR", "water", None, files))
        .unwrap_err();
    assert!(error.contains("firmware file without its pair"), "{error}");
}

#[test]
fn a_magic_is_four_ascii_bytes() {
    assert_eq!(parse_magic("WATR"), Ok(*b"WATR"));
    assert_eq!(
        parse_magic("WAT"),
        Err("magic must be exactly four ASCII characters, not \"WAT\"".to_string())
    );
    // Four bytes, but two characters.
    assert_eq!(
        parse_magic("\u{e9}\u{e9}"),
        Err("magic must be exactly four ASCII characters, not \"\u{e9}\u{e9}\"".to_string())
    );
    assert_eq!(
        parse_magic("a\"b"),
        Err("magic must be exactly four ASCII characters, not \"a\\\"b\"".to_string())
    );
}

#[test]
fn the_entry_ceiling_has_a_default() {
    let mut described = manifest("WATR", "water", None, Vec::new());
    assert_eq!(
        described.format().unwrap().max_entries,
        DEFAULT_MAX_ENTRIES
    );
    assert_eq!(DEFAULT_MAX_ENTRIES, 32);
    described.max_entries = Some(5);
    assert_eq!(described.format().unwrap().max_entries, 5);
    assert_eq!(output_name("water"), "water.bundle");
}

#[test]
fn a_tree_keeps_its_files_in_order_and_the_last_of_a_path() {
    let mut tree = Tree::new();
    for (path, data) in [
        ("b", "1"),
        ("a/z", "2"),
        ("a", "3"),
        ("B", "4"),
        ("b", "5"),
        ("a-b", "6"),
    ] {
        tree.insert(path.to_string(), data.as_bytes().to_vec());
    }
    let files: Vec<(String, Vec<u8>)> = tree
        .into_files()
        .into_iter()
        .map(|file| (file.path, file.data))
        .collect();
    assert_eq!(
        files,
        vec![
            ("B".to_string(), b"4".to_vec()),
            ("a".to_string(), b"3".to_vec()),
            ("a-b".to_string(), b"6".to_vec()),
            ("a/z".to_string(), b"2".to_vec()),
            ("b".to_string(), b"5".to_vec()),
        ]
    );
}

#[test]
fn hidden_names_are_left_out_and_paths_use_slashes() {
    assert_eq!(relative_path("", ".git"), None);
    assert_eq!(relative_path("www", ".hidden"), None);
    assert_eq!(relative_path("", "a.txt"), Some("a.txt".to_string()));
    assert_eq!(
        relative_path("www/css", "site.css"),
        Some("www/css/site.css".to_string())
    );
}

#[test]
fn the_report_lines_up() {
    let (project, described) = whole();
    let loaded = project.load(described).unwrap();
    assert_eq!(
        report(&loaded),
        vec![
            "  KERNEL7.IMG               6  kernel",
            "  WWW/css/site.css          6",
            "  WWW/index.htm             6",
            "  START.ELF                 5  firmware",
            "  FIXUP.DAT                 5  firmware",
            "  CONFIG.TXT               12  config",
        ]
    );
    let entry = Entry {
        role: Role::File,
        path: "A.TXT",
        data: b"abc",
    };
    assert_eq!(unpacked_line(&entry), "          3  A.TXT");
}

#[test]
fn an_answer_in_json_is_laid_out() {
    assert_eq!(
        reply_text("{\"written\":2,\"skipped\":[]}\n").as_deref(),
        Some("{\n  \"skipped\": [],\n  \"written\": 2\n}")
    );
    assert_eq!(reply_text(" \"ok\" ").as_deref(), Some("\"ok\""));
}

#[test]
fn any_other_answer_is_shown_as_it_came() {
    assert_eq!(
        reply_text("  checksum mismatch \r\n\u{2003}").as_deref(),
        Some("  checksum mismatch")
    );
    assert_eq!(reply_text("").as_deref(), Some(""));
    assert_eq!(reply_text("{\"written\":").as_deref(), Some("{\"written\":"));
    assert_eq!(show("{} ", None).as_deref(), Some("{}"));
    assert_eq!(show("{}", Some(Some("x ".to_string()))).as_deref(), Some("x "));
    assert_eq!(show("{}", Some(None)), None);
    for text in ["", " ", "a", "a b \u{3000}", "\u{e9}\u{a0}", "\u{200b}"] {
        assert_eq!(trim_end(text), text.trim_end());
    }
}

#[test]
fn a_board_accepts_with_a_success_status_only() {
    assert_eq!(verdict(200, "200 OK"), Ok(()));
    assert_eq!(verdict(299, "299 <unknown status code>"), Ok(()));
    assert_eq!(
        verdict(400, "400 Bad Request"),
        Err("the board rejected the bundle (400 Bad Request)".to_string())
    );
    assert!(verdict(199, "199").is_err());
    assert!(verdict(300, "300").is_err());
}

#[test]
fn an_upload_is_announced() {
    assert_eq!(
        upload_line(4096, "http://pi.local/update"),
        "uploading 4096 bytes to http://pi.local/update"
    );
}

#[test]
fn a_tree_does_not_depend_on_the_order_its_files_come_in() {
    let files = [("b", "1"), ("a/z", "2"), ("a", "3"), ("a-b", "6")];
    let gathered = |order: [usize; 4]| -> Vec<(String, Vec<u8>)> {
        let mut tree = Tree::new();
        for i in order {
            tree.insert(files[i].0.to_string(), files[i].1.as_bytes().to_vec());
        }
        tree.into_files()
            .into_iter()
            .map(|file| (file.path, file.data))
            .collect()
    };
    let first = gathered([0, 1, 2, 3]);
    assert_eq!(first.len(), 4);
    for order in [[3, 2, 1, 0], [2, 0, 3, 1], [1, 3, 0, 2]] {
        assert_eq!(gathered(order), first);
    }
}

#[test]
fn a_directory_is_not_taken_for_the_kernel() {
    let project = Project::new(&[("target/kernel7.img", b"kernel"), ("www/a", b"a")]);
    let described = || {
        manifest(
            "WATR",
            "water",
            Some(KernelSpec {
                source: "target",
                dest: Some("KERNEL7.IMG".to_string()),
            }),
            vec![spec("www", Some("WWW"), FileRole::File)],
        )
    };
    assert_eq!(project.pack(described()), Err("reading target".to_string()));

    // Handed over all the same, it is not packed.
    let mut loading = Loading::new(described());
    assert!(loading.wants_file());
    let mut tree = Tree::new();
    tree.insert("kernel7.img".to_string(), b"kernel".to_vec());
    loading = loading.take("target", Contents::Directory(tree));
    assert!(loading.wants_file());
    assert!(matches!(loading.wanted(), Wanted::Read { path: &"target", .. }));

    // A file is, and what follows may be a directory.
    loading = loading.take("target", Contents::File(b"kernel".to_vec()));
    assert!(!loading.wants_file());
    let mut tree = Tree::new();
    tree.insert("a".to_string(), b"a".to_vec());
    loading = loading.take("www", Contents::Directory(tree));
    assert!(matches!(loading.wanted(), Wanted::Nothing));
    assert!(!loading.wants_file());
    let loaded: Vec<(Role, String)> = loading
        .into_loaded()
        .into_iter()
        .map(|entry| (entry.role, entry.path))
        .collect();
    assert_eq!(
        loaded,
        [
            (Role::Kernel, "KERNEL7.IMG".to_string()),
            (Role::File, "WWW/a".to_string()),
        ]
    );
}
