//! Packing a bundle from a manifest: which files go in, under which paths and
//! in which order.
//!
//! [`Loading`] decides and its driver reads: the driver reads the source at
//! hand and hands over what it found there.

use vstd::prelude::*;

use crate::bundle::{Entry, Error, Format, Role};
use crate::layout::EntryView;

verus! {

/// Entries a bundle may hold unless the manifest says otherwise.
pub const DEFAULT_MAX_ENTRIES: usize = 32;

/// A project's manifest: what its card holds. `P` is a path on this machine.
#[derive(Debug)]
pub struct Manifest<P> {
    /// Four ASCII bytes identifying the application, matching what its
    /// firmware was built with.
    pub magic: String,
    /// Names the default output file.
    pub name: String,
    /// Entry ceiling, if this project's firmware differs from the default.
    pub max_entries: Option<usize>,
    /// The boot image. Absent for an update that replaces no kernel.
    pub kernel: Option<KernelSpec<P>>,
    /// Everything else.
    pub files: Vec<FileSpec<P>>,
}

/// The boot image.
#[derive(Debug)]
pub struct KernelSpec<P> {
    /// The built image.
    pub source: P,
    /// What to call it in the bundle. Defaults to the source's file name.
    pub dest: Option<String>,
}

/// A file, or a directory of them.
#[derive(Debug)]
pub struct FileSpec<P> {
    /// A file to pack, or a directory whose contents to pack.
    pub source: P,
    /// Where it lands on the card. For a directory, the directory it lands
    /// in. Defaults to the source's file name.
    pub dest: Option<String>,
    /// How the device should treat it.
    pub role: FileRole,
}

/// The roles a file may claim.
#[derive(Clone, Copy, Debug, PartialEq, Eq, Structural)]
pub enum FileRole {
    /// Anything the application owns.
    File,
    /// A Raspberry Pi firmware file.
    Firmware,
    /// `config.txt`.
    Config,
    /// Refused: the boot image has its own place, and accepting it here would
    /// be a way to say it twice.
    Kernel,
}

/// A file that was read, owning what [`Entry`] borrows.
#[derive(Debug)]
pub struct Loaded {
    /// How the device should treat it.
    pub role: Role,
    /// Where it goes, relative to the root of the volume.
    pub path: String,
    /// The file's contents.
    pub data: Vec<u8>,
}

impl View for Loaded {
    type V = EntryView;

    open spec fn view(&self) -> EntryView {
        EntryView { role: self.role, path: vstd::utf8::encode_utf8(self.path@), data: self.data@ }
    }
}

/// The entries that were loaded.
pub open spec fn entries(loaded: Seq<Loaded>) -> Seq<EntryView> {
    loaded.map_values(|file: Loaded| file@)
}

// --- The format ----------------------------------------------------------------

/// The text of a complaint about a magic.
pub open spec fn bad_magic(magic: Seq<char>) -> Seq<u8> {
    vstd::utf8::encode_utf8("magic must be exactly four ASCII characters, not "@)
        + vstd::utf8::encode_utf8(crate::text::quoted(magic))
}

/// Whether a magic is four ASCII characters.
pub open spec fn is_magic(magic: Seq<char>) -> bool {
    let bytes = vstd::utf8::encode_utf8(magic);
    bytes.len() == 4 && forall|i: int| 0 <= i < bytes.len() ==> bytes[i] < 0x80
}

/// Parses a magic into the four bytes a bundle's header holds.
pub fn parse_magic(magic: &str) -> (res: Result<[u8; 4], String>)
    ensures
        match res {
            Ok(bytes) => is_magic(magic@) && bytes@ == vstd::utf8::encode_utf8(magic@),
            Err(text) => !is_magic(magic@) && vstd::utf8::encode_utf8(text@) == bad_magic(magic@),
        },
{
    let bytes = magic.as_bytes();
    if bytes.len() == 4 && bytes[0] < 0x80 && bytes[1] < 0x80 && bytes[2] < 0x80 && bytes[3]
        < 0x80 {
        let four: [u8; 4] = [bytes[0], bytes[1], bytes[2], bytes[3]];
        proof {
            assert(four@ =~= bytes@);
        }
        return Ok(four);
    }
    let mut text: Vec<u8> = Vec::new();
    crate::text::push_text(&mut text, "magic must be exactly four ASCII characters, not ");
    crate::text::push_text(&mut text, crate::text::quote(magic).as_str());
    proof {
        assert(text@ =~= bad_magic(magic@));
    }
    Err(crate::text::to_text(&text))
}

impl<P> Manifest<P> {
    /// The format of the bundle.
    pub fn format(&self) -> (res: Result<Format, String>)
        ensures
            match res {
                Ok(format) => {
                    &&& is_magic(self.magic@)
                    &&& format.magic@ == vstd::utf8::encode_utf8(self.magic@)
                    &&& format.max_entries == match self.max_entries {
                        Some(max) => max,
                        None => DEFAULT_MAX_ENTRIES,
                    }
                    &&& self.max_entries is None ==> format.max_entries == 32
                },
                Err(text) => !is_magic(self.magic@) && vstd::utf8::encode_utf8(text@) == bad_magic(
                    self.magic@,
                ),
            },
    {
        let magic = match parse_magic(self.magic.as_str()) {
            Ok(magic) => magic,
            Err(text) => return Err(text),
        };
        let max_entries: usize = match self.max_entries {
            Some(max) => max,
            None => DEFAULT_MAX_ENTRIES,
        };
        Ok(Format { magic, max_entries })
    }
}

/// The name of the output file where none is given, in a directory beside the
/// manifest.
pub fn output_name(name: &str) -> (res: String)
    ensures
        vstd::utf8::encode_utf8(res@) == vstd::utf8::encode_utf8(name@) + vstd::utf8::encode_utf8(
            ".bundle"@,
        ),
{
    let mut text: Vec<u8> = Vec::new();
    crate::text::push_text(&mut text, name);
    crate::text::push_text(&mut text, ".bundle");
    proof {
        assert(text@ =~= vstd::utf8::encode_utf8(name@) + vstd::utf8::encode_utf8(".bundle"@));
    }
    crate::text::to_text(&text)
}

// --- A directory of files --------------------------------------------------------

/// A file found under a directory, by its path relative to it.
#[derive(Debug)]
pub struct Found {
    /// The path relative to the directory.
    pub path: String,
    /// The file's contents.
    pub data: Vec<u8>,
}

/// A file found, as a value: the bytes of its path, and its contents.
pub open spec fn pair(found: Found) -> (Seq<u8>, Seq<u8>) {
    (vstd::utf8::encode_utf8(found.path@), found.data@)
}

/// The files found, as values.
pub open spec fn pairs(found: Seq<Found>) -> Seq<(Seq<u8>, Seq<u8>)> {
    found.map_values(|file: Found| pair(file))
}

/// Whether files stand in the order of their paths, with none twice.
pub open spec fn is_ascending(files: Seq<(Seq<u8>, Seq<u8>)>) -> bool {
    forall|i: int, j: int|
        0 <= i < j < files.len() ==> crate::order::precedes(
            (#[trigger] files[i]).0,
            (#[trigger] files[j]).0,
        )
}

/// The files with one more, which replaces one of the same path.
pub open spec fn placed(files: Seq<(Seq<u8>, Seq<u8>)>, file: (Seq<u8>, Seq<u8>)) -> Seq<
    (Seq<u8>, Seq<u8>),
>
    decreases files.len(),
{
    if files.len() == 0 {
        seq![file]
    } else if crate::order::precedes(files.last().0, file.0) {
        files.push(file)
    } else if files.last().0 == file.0 {
        files.drop_last().push(file)
    } else {
        placed(files.drop_last(), file).push(files.last())
    }
}

/// Placing a file keeps the order.
pub proof fn placing_keeps_the_order(files: Seq<(Seq<u8>, Seq<u8>)>, file: (Seq<u8>, Seq<u8>))
    requires
        is_ascending(files),
    ensures
        is_ascending(placed(files, file)),
        placed(files, file).len() > 0,
        placed(files, file).last().0 == if files.len() > 0 && crate::order::precedes(
            file.0,
            files.last().0,
        ) {
            files.last().0
        } else {
            file.0
        },
    decreases files.len(),
{
    let out = placed(files, file);
    if files.len() > 0 {
        let last = files.last();
        let init = files.drop_last();
        crate::order::order_is_total(last.0, file.0);
        placing_keeps_the_order(init, file);
        if crate::order::precedes(last.0, file.0) {
            assert forall|i: int, j: int| 0 <= i < j < out.len() implies crate::order::precedes(
                (#[trigger] out[i]).0,
                (#[trigger] out[j]).0,
            ) by {
                if j == files.len() && i < files.len() - 1 {
                    assert(crate::order::precedes(files[i].0, last.0));
                    crate::order::order_is_transitive(files[i].0, last.0, file.0);
                }
            }
        } else if last.0 == file.0 {
            assert forall|i: int, j: int| 0 <= i < j < out.len() implies crate::order::precedes(
                (#[trigger] out[i]).0,
                (#[trigger] out[j]).0,
            ) by {
                assert(out[i].0 == files[i].0 && out[j].0 == files[j].0);
            }
        } else {
            let fewer = placed(init, file);
            assert forall|i: int, j: int| 0 <= i < j < out.len() implies crate::order::precedes(
                (#[trigger] out[i]).0,
                (#[trigger] out[j]).0,
            ) by {
                if j == fewer.len() {
                    if init.len() > 0 {
                        assert(crate::order::precedes(init.last().0, last.0)) by {
                            assert(init.last() == files[files.len() - 2]);
                        }
                    }
                    assert(crate::order::precedes(fewer.last().0, last.0));
                    if i < fewer.len() - 1 {
                        assert(crate::order::precedes(fewer[i].0, fewer.last().0));
                        crate::order::order_is_transitive(fewer[i].0, fewer.last().0, last.0);
                    }
                }
            }
        }
    }
}

/// After placing a file it is there, and every other path has what it had.
pub proof fn what_is_placed_is_there(
    files: Seq<(Seq<u8>, Seq<u8>)>,
    file: (Seq<u8>, Seq<u8>),
    other: (Seq<u8>, Seq<u8>),
)
    requires
        is_ascending(files),
    ensures
        placed(files, file).contains(file),
        other.0 != file.0 ==> (placed(files, file).contains(other) <==> files.contains(other)),
    decreases files.len(),
{
    let out = placed(files, file);
    if files.len() == 0 {
        assert(out[0] == file);
    } else {
        let last = files.last();
        let init = files.drop_last();
        assert(files =~= init.push(last));
        assert(files.contains(other) <==> init.contains(other) || last == other) by {
            lemma_contains_push(init, last, other);
        }
        if crate::order::precedes(last.0, file.0) {
            lemma_contains_push(files, file, other);
            lemma_contains_push(files, file, file);
        } else if last.0 == file.0 {
            lemma_contains_push(init, file, other);
            lemma_contains_push(init, file, file);
        } else {
            what_is_placed_is_there(init, file, other);
            lemma_contains_push(placed(init, file), last, other);
            lemma_contains_push(placed(init, file), last, file);
        }
    }
}

proof fn lemma_contains_push(
    files: Seq<(Seq<u8>, Seq<u8>)>,
    file: (Seq<u8>, Seq<u8>),
    other: (Seq<u8>, Seq<u8>),
)
    ensures
        files.push(file).contains(other) <==> files.contains(other) || file == other,
{
    let more = files.push(file);
    if files.contains(other) {
        let at = choose|i: int| 0 <= i < files.len() && files[i] == other;
        assert(more[at] == other);
    }
    if more.contains(other) {
        let at = choose|i: int| 0 <= i < more.len() && more[i] == other;
        if at < files.len() {
            assert(files[at] == other);
        }
    }
    assert(more[files.len() as int] == file);
}

/// The files that come of placing these one after another.
pub open spec fn gathered(files: Seq<(Seq<u8>, Seq<u8>)>) -> Seq<(Seq<u8>, Seq<u8>)>
    decreases files.len(),
{
    if files.len() == 0 {
        Seq::empty()
    } else {
        placed(gathered(files.drop_last()), files.last())
    }
}

/// Whether no path has two different contents.
pub open spec fn is_settled(files: Seq<(Seq<u8>, Seq<u8>)>) -> bool {
    forall|i: int, j: int|
        0 <= i < files.len() && 0 <= j < files.len() && (#[trigger] files[i]).0 == (
        #[trigger] files[j]).0 ==> files[i] == files[j]
}

/// What was gathered stands in order and is what was placed.
proof fn lemma_gathered(files: Seq<(Seq<u8>, Seq<u8>)>)
    requires
        is_settled(files),
    ensures
        is_ascending(gathered(files)),
        forall|file: (Seq<u8>, Seq<u8>)| #[trigger]
            gathered(files).contains(file) <==> files.contains(file),
    decreases files.len(),
{
    if files.len() > 0 {
        let init = files.drop_last();
        let last = files.last();
        assert forall|i: int, j: int|
            0 <= i < init.len() && 0 <= j < init.len() && (#[trigger] init[i]).0 == (
            #[trigger] init[j]).0 implies init[i] == init[j] by {
            assert(init[i] == files[i] && init[j] == files[j]);
        }
        lemma_gathered(init);
        let before = gathered(init);
        let after = gathered(files);
        placing_keeps_the_order(before, last);
        assert(files =~= init.push(last));
        assert forall|file: (Seq<u8>, Seq<u8>)| #[trigger]
            after.contains(file) <==> files.contains(file) by {
            what_is_placed_is_there(before, last, file);
            lemma_contains_push(init, last, file);
            if file.0 == last.0 {
                if after.contains(file) {
                    let i = choose|i: int| 0 <= i < after.len() && after[i] == file;
                    let j = choose|j: int| 0 <= j < after.len() && after[j] == last;
                    crate::order::order_is_total(file.0, last.0);
                    assert(i == j) by {
                        if i < j {
                            assert(crate::order::precedes(after[i].0, after[j].0));
                        } else if j < i {
                            assert(crate::order::precedes(after[j].0, after[i].0));
                        }
                    }
                }
                if files.contains(file) {
                    let i = choose|i: int| 0 <= i < files.len() && files[i] == file;
                    assert(files[i].0 == files[files.len() - 1].0);
                }
            }
        }
    }
}

/// There is one way to put files in order.
proof fn lemma_one_order(a: Seq<(Seq<u8>, Seq<u8>)>, b: Seq<(Seq<u8>, Seq<u8>)>)
    requires
        is_ascending(a),
        is_ascending(b),
        forall|file: (Seq<u8>, Seq<u8>)| #[trigger] a.contains(file) <==> b.contains(file),
    ensures
        a == b,
    decreases a.len(),
{
    if a.len() == 0 || b.len() == 0 {
        if a.len() > 0 {
            assert(a.contains(a[0]) && b.contains(a[0]));
        }
        if b.len() > 0 {
            assert(b.contains(b[0]) && a.contains(b[0]));
        }
        assert(a =~= b);
    } else {
        let x = a.last();
        let y = b.last();
        assert(a.contains(x) && b.contains(y));
        assert(b.contains(x) && a.contains(y));
        let i = choose|i: int| 0 <= i < b.len() && b[i] == x;
        let j = choose|j: int| 0 <= j < a.len() && a[j] == y;
        crate::order::order_is_total(x.0, y.0);
        assert(x == y) by {
            if i < b.len() - 1 && j < a.len() - 1 {
                assert(crate::order::precedes(b[i].0, b[b.len() - 1].0));
                assert(crate::order::precedes(a[j].0, a[a.len() - 1].0));
            }
        }
        let fewer = a.drop_last();
        let others = b.drop_last();
        assert(a =~= fewer.push(x));
        assert(b =~= others.push(x));
        assert forall|file: (Seq<u8>, Seq<u8>)| #[trigger]
            fewer.contains(file) <==> others.contains(file) by {
            lemma_contains_push(fewer, x, file);
            lemma_contains_push(others, x, file);
            crate::order::order_is_total(x.0, x.0);
            if fewer.contains(x) {
                let k = choose|k: int| 0 <= k < fewer.len() && fewer[k] == x;
                assert(crate::order::precedes(a[k].0, a[a.len() - 1].0));
            }
            if others.contains(x) {
                let k = choose|k: int| 0 <= k < others.len() && others[k] == x;
                assert(crate::order::precedes(b[k].0, b[b.len() - 1].0));
            }
            assert(a.contains(file) <==> b.contains(file));
        }
        lemma_one_order(fewer, others);
    }
}

/// What is gathered does not depend on the order the files come in: the same
/// files, listed in any order, give the same files in the same order.
pub proof fn gathering_does_not_depend_on_the_order(
    a: Seq<(Seq<u8>, Seq<u8>)>,
    b: Seq<(Seq<u8>, Seq<u8>)>,
)
    requires
        is_settled(a),
        forall|file: (Seq<u8>, Seq<u8>)| #[trigger] a.contains(file) <==> b.contains(file),
    ensures
        gathered(a) == gathered(b),
{
    assert forall|i: int, j: int|
        0 <= i < b.len() && 0 <= j < b.len() && (#[trigger] b[i]).0 == (
        #[trigger] b[j]).0 implies b[i] == b[j] by {
        assert(b.contains(b[i]) && b.contains(b[j]));
        assert(a.contains(b[i]) && a.contains(b[j]));
        let x = choose|x: int| 0 <= x < a.len() && a[x] == b[i];
        let y = choose|y: int| 0 <= y < a.len() && a[y] == b[j];
        assert(a[x].0 == a[y].0);
    }
    lemma_gathered(a);
    lemma_gathered(b);
    assert forall|file: (Seq<u8>, Seq<u8>)| #[trigger]
        gathered(a).contains(file) <==> gathered(b).contains(file) by {
        assert(a.contains(file) <==> b.contains(file));
    }
    lemma_one_order(gathered(a), gathered(b));
}

/// Every file under a directory, by path. The order that entries are packed in
/// has to depend on their names alone: two runs over the same tree should
/// produce the same bytes, whatever order the filesystem lists them in.
#[derive(Debug)]
pub struct Tree {
    files: Vec<Found>,
}

impl View for Tree {
    type V = Seq<(Seq<u8>, Seq<u8>)>;

    closed spec fn view(&self) -> Seq<(Seq<u8>, Seq<u8>)> {
        pairs(self.files@)
    }
}

impl Tree {
    #[verifier::type_invariant]
    spec fn holds(self) -> bool {
        is_ascending(pairs(self.files@))
    }

    /// An empty one.
    pub fn new() -> (res: Tree)
        ensures
            res@ == Seq::<(Seq<u8>, Seq<u8>)>::empty(),
    {
        let files: Vec<Found> = Vec::new();
        proof {
            assert(pairs(files@) =~= Seq::<(Seq<u8>, Seq<u8>)>::empty());
        }
        Tree { files }
    }

    /// Adds a file, which replaces one of the same path.
    pub fn insert(&mut self, path: String, data: Vec<u8>)
        ensures
            final(self)@ == placed(
                old(self)@,
                (vstd::utf8::encode_utf8(path@), data@),
            ),
    {
        proof {
            use_type_invariant(&*self);
        }
        let mut held = Tree::new();
        core::mem::swap(&mut held, self);
        let mut files = held.files;
        let ghost before = pairs(files@);
        let file = Found { path, data };
        let ghost value = pair(file);
        proof {
            placing_keeps_the_order(before, value);
            assert(before.take(before.len() as int) =~= before);
            assert(placed(before, value) =~= placed(before.take(before.len() as int), value)
                + before.skip(before.len() as int));
        }
        let mut at: usize = files.len();
        while at > 0 && crate::order::comes_before(
            file.path.as_str().as_bytes(),
            files[at - 1].path.as_str().as_bytes(),
        )
            invariant
                at <= files@.len(),
                before == pairs(files@),
                value == pair(file),
                is_ascending(before),
                placed(before, value) == placed(before.take(at as int), value) + before.skip(
                    at as int,
                ),
            decreases at,
        {
            proof {
                let now = before.take(at as int);
                assert(now.last() == pair(files@[at - 1]));
                assert(now.drop_last() =~= before.take(at - 1));
                crate::order::order_is_total(now.last().0, value.0);
                assert(placed(now, value) + before.skip(at as int) =~= placed(
                    before.take(at - 1),
                    value,
                ) + before.skip(at - 1));
            }
            at -= 1;
        }
        let same = at > 0 && crate::text::equal_bytes(
            file.path.as_str().as_bytes(),
            files[at - 1].path.as_str().as_bytes(),
        );
        proof {
            if at > 0 {
                let now = before.take(at as int);
                assert(now.last() == pair(files@[at - 1]));
                crate::order::order_is_total(now.last().0, value.0);
            }
        }
        if same {
            files.set(at - 1, file);
            proof {
                assert(pairs(files@) =~= before.take(at as int).drop_last().push(value)
                    + before.skip(at as int));
            }
        } else {
            files.insert(at, file);
            proof {
                assert(pairs(files@) =~= before.take(at as int).push(value) + before.skip(
                    at as int,
                ));
                if at == 0 {
                    assert(before.take(0).push(value) =~= seq![value]);
                }
            }
        }
        *self = Tree { files };
    }

    /// The files, in order.
    pub fn into_files(self) -> (res: Vec<Found>)
        ensures
            pairs(res@) == self@,
            is_ascending(self@),
    {
        proof {
            use_type_invariant(&self);
        }
        self.files
    }
}

/// The path of `name` under `prefix`, or nothing if it is hidden: anything
/// beginning with a dot is left out at every level. The separator is always a
/// slash, never the platform's, because what goes into a bundle is a path on a
/// FAT volume.
pub fn relative_path(prefix: &str, name: &str) -> (res: Option<String>)
    ensures
        ({
            let before = vstd::utf8::encode_utf8(prefix@);
            let bytes = vstd::utf8::encode_utf8(name@);
            match res {
                None => bytes.len() > 0 && bytes[0] == 0x2E,
                Some(path) => {
                    &&& !(bytes.len() > 0 && bytes[0] == 0x2E)
                    &&& vstd::utf8::encode_utf8(path@) == if before.len() == 0 {
                        bytes
                    } else {
                        before + vstd::utf8::encode_utf8("/"@) + bytes
                    }
                },
            }
        }),
{
    let bytes = name.as_bytes();
    if bytes.len() > 0 && bytes[0] == 0x2E {
        return None;
    }
    let mut path: Vec<u8> = Vec::new();
    if prefix.as_bytes().len() > 0 {
        crate::text::push_text(&mut path, prefix);
        crate::text::push_text(&mut path, "/");
    }
    crate::text::push_text(&mut path, name);
    proof {
        assert(vstd::utf8::encode_utf8(prefix@).len() == 0 ==> path@ =~= bytes@);
        assert(vstd::utf8::encode_utf8(prefix@).len() > 0 ==> path@ =~= vstd::utf8::encode_utf8(
            prefix@,
        ) + vstd::utf8::encode_utf8("/"@) + bytes@);
    }
    Some(crate::text::to_text(&path))
}

// --- Loading what a manifest names -------------------------------------------------

/// A source to pack.
#[derive(Debug)]
pub struct Source<P> {
    /// Where it is.
    pub path: P,
    /// Where it lands, if that is given.
    pub dest: Option<String>,
    /// How the device should treat it, unless it claims a role it may not.
    pub role: Option<Role>,
}

/// The role that a file's role stands for.
pub open spec fn role_of(role: FileRole) -> Option<Role> {
    match role {
        FileRole::File => Some(Role::File),
        FileRole::Firmware => Some(Role::Firmware),
        FileRole::Config => Some(Role::Config),
        FileRole::Kernel => None,
    }
}

/// The source that a file is.
pub open spec fn source_of<P>(spec: FileSpec<P>) -> Source<P> {
    Source { path: spec.source, dest: spec.dest, role: role_of(spec.role) }
}

/// The sources of a manifest: the kernel first, then the files as they come.
pub open spec fn sources<P>(manifest: Manifest<P>) -> Seq<Source<P>> {
    let files = manifest.files@.map_values(|spec: FileSpec<P>| source_of(spec));
    match manifest.kernel {
        Some(kernel) => seq![
            Source { path: kernel.source, dest: kernel.dest, role: Some(Role::Kernel) },
        ] + files,
        None => files,
    }
}

/// What a source turned out to hold.
#[derive(Debug)]
pub enum Contents {
    /// It is a file.
    File(Vec<u8>),
    /// It is a directory.
    Directory(Tree),
}

/// The entries that a directory packed as `dest` gives.
pub open spec fn tree_entries(role: Role, dest: Seq<u8>, files: Seq<(Seq<u8>, Seq<u8>)>) -> Seq<
    EntryView,
> {
    files.map_values(
        |file: (Seq<u8>, Seq<u8>)|
            EntryView {
                role,
                path: dest + vstd::utf8::encode_utf8("/"@) + file.0,
                data: file.1,
            },
    )
}

/// The entries that a source packed as `dest` gives.
pub open spec fn contents_entries(role: Role, dest: Seq<u8>, contents: Contents) -> Seq<EntryView> {
    match contents {
        Contents::File(data) => seq![EntryView { role, path: dest, data: data@ }],
        Contents::Directory(tree) => tree_entries(role, dest, tree@),
    }
}

/// Whether a source has to be a file: the boot image is one, and only what
/// `[[files]]` names may be a directory.
pub open spec fn must_be_file<P>(source: Source<P>) -> bool {
    source.role == Some(Role::Kernel)
}

/// Where a loading stands, as a value.
pub struct LoadState<P> {
    /// What is to be loaded.
    pub sources: Seq<Source<P>>,
    /// The source at hand.
    pub at: int,
    /// What is loaded.
    pub entries: Seq<EntryView>,
}

/// What to do next.
#[derive(Debug)]
pub enum Wanted<'a, P> {
    /// Read this source, as a file if [`Loading::wants_file`]. A file name to
    /// call it by is needed if `unnamed`.
    Read { path: &'a P, unnamed: bool },
    /// Nothing: this source claims a role that it may not.
    Refused(&'a P),
    /// Nothing: everything is loaded.
    Nothing,
}

/// A manifest's files, on the way into a bundle.
#[derive(Debug)]
pub struct Loading<P> {
    sources: Vec<Source<P>>,
    at: usize,
    loaded: Vec<Loaded>,
}

impl<P> View for Loading<P> {
    type V = LoadState<P>;

    closed spec fn view(&self) -> LoadState<P> {
        LoadState {
            sources: self.sources@,
            at: self.at as int,
            entries: entries(self.loaded@),
        }
    }
}

/// The path of a file within a directory that is packed as `dest`.
fn within(dest: &str, path: &str) -> (res: String)
    ensures
        vstd::utf8::encode_utf8(res@) == vstd::utf8::encode_utf8(dest@) + vstd::utf8::encode_utf8(
            "/"@,
        ) + vstd::utf8::encode_utf8(path@),
{
    let mut text: Vec<u8> = Vec::new();
    crate::text::push_text(&mut text, dest);
    crate::text::push_text(&mut text, "/");
    crate::text::push_text(&mut text, path);
    proof {
        assert(text@ =~= vstd::utf8::encode_utf8(dest@) + vstd::utf8::encode_utf8("/"@)
            + vstd::utf8::encode_utf8(path@));
    }
    crate::text::to_text(&text)
}

/// Adds the files of a directory that is packed as `dest`.
fn add_tree(loaded: &mut Vec<Loaded>, role: Role, dest: &str, tree: Tree)
    ensures
        entries(final(loaded)@) == entries(old(loaded)@) + tree_entries(
            role,
            vstd::utf8::encode_utf8(dest@),
            tree@,
        ),
{
    let ghost before = entries(loaded@);
    let ghost bytes = vstd::utf8::encode_utf8(dest@);
    let ghost all = tree@;
    let mut rest: Vec<Found> = tree.into_files();
    let ghost listed = rest@;
    let ghost mut done: int = 0;
    proof {
        assert(listed.skip(0) =~= listed);
        assert(tree_entries(role, bytes, all.take(0)) =~= Seq::<EntryView>::empty());
        assert(before + Seq::<EntryView>::empty() =~= before);
    }
    while rest.len() > 0
        invariant
            0 <= done <= all.len(),
            bytes == vstd::utf8::encode_utf8(dest@),
            all == pairs(listed),
            rest@ == listed.skip(done),
            entries(loaded@) == before + tree_entries(role, bytes, all.take(done)),
        decreases rest@.len(),
    {
        let ghost held = loaded@;
        let file = rest.remove(0);
        proof {
            assert(file == listed[done]);
            assert(all[done] == pair(file));
            assert(rest@ =~= listed.skip(done + 1));
        }
        let path = within(dest, file.path.as_str());
        loaded.push(Loaded { role, path, data: file.data });
        proof {
            let now = loaded@.last()@;
            assert(entries(loaded@) =~= entries(held).push(now));
            assert(tree_entries(role, bytes, all.take(done + 1)) =~= tree_entries(
                role,
                bytes,
                all.take(done),
            ).push(now));
            assert(entries(loaded@) =~= before + tree_entries(role, bytes, all.take(done + 1)));
            done = done + 1;
        }
    }
    proof {
        assert(all.take(done) =~= all);
    }
}

impl<P> Loading<P> {
    #[verifier::type_invariant]
    spec fn holds(self) -> bool {
        self.at <= self.sources@.len()
    }

    /// Begins one.
    pub fn new(manifest: Manifest<P>) -> (res: Loading<P>)
        ensures
            res@ == (LoadState { sources: sources(manifest), at: 0, entries: Seq::empty() }),
    {
        let ghost whole = manifest;
        let ghost files = manifest.files@.map_values(|spec: FileSpec<P>| source_of(spec));
        let mut all: Vec<Source<P>> = Vec::new();
        if let Some(kernel) = manifest.kernel {
            all.push(Source { path: kernel.source, dest: kernel.dest, role: Some(Role::Kernel) });
        }
        let ghost first = all@;
        let mut rest: Vec<FileSpec<P>> = manifest.files;
        let ghost given = rest@;
        let ghost mut done: int = 0;
        proof {
            assert(given.skip(0) =~= given);
            assert(first + files.take(0) =~= first);
        }
        while rest.len() > 0
            invariant
                0 <= done <= given.len(),
                files == given.map_values(|spec: FileSpec<P>| source_of(spec)),
                rest@ == given.skip(done),
                all@ == first + files.take(done),
            decreases rest@.len(),
        {
            let spec = rest.remove(0);
            let ghost was = spec;
            proof {
                assert(spec == given[done]);
                assert(rest@ =~= given.skip(done + 1));
            }
            let role = match spec.role {
                FileRole::File => Some(Role::File),
                FileRole::Firmware => Some(Role::Firmware),
                FileRole::Config => Some(Role::Config),
                FileRole::Kernel => None,
            };
            all.push(Source { path: spec.source, dest: spec.dest, role });
            proof {
                assert(files[done] == source_of(was));
                assert(all@ =~= first + files.take(done + 1));
                done = done + 1;
            }
        }
        let loaded: Vec<Loaded> = Vec::new();
        proof {
            assert(files.take(done) =~= files);
            assert(all@ =~= sources(whole));
            assert(entries(loaded@) =~= Seq::<EntryView>::empty());
        }
        Loading { sources: all, at: 0, loaded }
    }

    /// What to do next.
    pub fn wanted(&self) -> (res: Wanted<'_, P>)
        ensures
            ({
                let now = self@;
                if now.at >= now.sources.len() {
                    res is Nothing
                } else {
                    let source = now.sources[now.at];
                    match res {
                        Wanted::Read { path, unnamed } => source.role is Some && *path
                            == source.path && unnamed == (source.dest is None),
                        Wanted::Refused(path) => source.role is None && *path == source.path,
                        Wanted::Nothing => false,
                    }
                }
            }),
    {
        if self.at >= self.sources.len() {
            return Wanted::Nothing;
        }
        let source = &self.sources[self.at];
        if source.role.is_none() {
            Wanted::Refused(&source.path)
        } else {
            Wanted::Read { path: &source.path, unnamed: source.dest.is_none() }
        }
    }

    /// Whether the source at hand has to be a file. A directory in its place is an
    /// error, which is the driver's to report.
    pub fn wants_file(&self) -> (res: bool)
        ensures
            res == (self@.at < self@.sources.len() && must_be_file(self@.sources[self@.at])),
    {
        if self.at >= self.sources.len() {
            return false;
        }
        match self.sources[self.at].role {
            Some(Role::Kernel) => true,
            _ => false,
        }
    }

    /// Takes what the source at hand holds, and its file name. A directory is not
    /// taken for a source that has to be a file, which then still stands.
    pub fn take(self, name: &str, contents: Contents) -> (res: Loading<P>)
        ensures
            ({
                let now = self@;
                if now.at >= now.sources.len() || now.sources[now.at].role is None || (must_be_file(
                    now.sources[now.at],
                ) && contents is Directory) {
                    res@ == now
                } else {
                    let source = now.sources[now.at];
                    let dest = match source.dest {
                        Some(dest) => vstd::utf8::encode_utf8(dest@),
                        None => vstd::utf8::encode_utf8(name@),
                    };
                    res@ == (LoadState {
                        at: now.at + 1,
                        entries: now.entries + contents_entries(source.role->0, dest, contents),
                        ..now
                    })
                }
            }),
    {
        proof {
            use_type_invariant(&self);
        }
        let Loading { sources, at, mut loaded } = self;
        if at >= sources.len() {
            return Loading { sources, at, loaded };
        }
        let role = match sources[at].role {
            Some(role) => role,
            None => return Loading { sources, at, loaded },
        };
        let dest: String = match &sources[at].dest {
            Some(dest) => dest.clone(),
            None => name.to_owned(),
        };
        let ghost before = entries(loaded@);
        match contents {
            Contents::File(data) => {
                loaded.push(Loaded { role, path: dest, data });
                proof {
                    assert(entries(loaded@) =~= before + seq![loaded@.last()@]);
                }
            },
            Contents::Directory(tree) => {
                if role == Role::Kernel {
                    return Loading { sources, at, loaded };
                }
                add_tree(&mut loaded, role, dest.as_str(), tree)
            },
        }
        Loading { sources, at: at + 1, loaded }
    }

    /// What is loaded.
    pub fn into_loaded(self) -> (res: Vec<Loaded>)
        ensures
            entries(res@) == self@.entries,
    {
        self.loaded
    }
}

/// What is wrong with a file that claims to be the kernel.
pub fn refused_role() -> (res: &'static str)
    ensures
        res@
            == "role = \"kernel\" is not allowed in [[files]]; name the boot image in the [kernel] table instead"@,
{
    "role = \"kernel\" is not allowed in [[files]]; name the boot image in the [kernel] table instead"
}

/// Builds the bundle of what was loaded.
pub fn pack(format: &Format, loaded: &Vec<Loaded>) -> (res: Result<Vec<u8>, Error>)
    ensures
        match res {
            Ok(bytes) => crate::layout::encoded(*format, entries(loaded@)) == Ok::<Seq<u8>, Error>(
                bytes@,
            ),
            Err(error) => crate::layout::encoded(*format, entries(loaded@)) == Err::<
                Seq<u8>,
                Error,
            >(error),
        },
{
    let mut list: Vec<Entry<'_>> = Vec::new();
    let mut at: usize = 0;
    while at < loaded.len()
        invariant
            at <= loaded@.len(),
            list@.len() == at,
            forall|i: int| 0 <= i < at ==> (#[trigger] list@[i])@ == loaded@[i]@,
        decreases loaded@.len() - at,
    {
        let file = &loaded[at];
        list.push(Entry { role: file.role, path: file.path.as_str(), data: file.data.as_slice() });
        at += 1;
    }
    proof {
        assert(crate::bundle::views(list@) =~= entries(loaded@));
    }
    crate::bundle::encode(format, list.as_slice())
}

// --- Saying what was packed --------------------------------------------------------

/// How wide the column of paths is.
pub open spec fn path_width(loaded: Seq<Loaded>) -> nat
    decreases loaded.len(),
{
    if loaded.len() == 0 {
        0
    } else {
        let others = path_width(loaded.drop_last());
        let last = loaded.last()@.path.len();
        if last > others {
            last
        } else {
            others
        }
    }
}

/// What is said of a role.
pub open spec fn role_text(role: Role) -> Seq<char> {
    match role {
        Role::File => ""@,
        Role::Kernel => "  kernel"@,
        Role::Firmware => "  firmware"@,
        Role::Config => "  config"@,
    }
}

/// The line for a file that was packed.
pub open spec fn file_text(file: Loaded, width: nat) -> Seq<u8> {
    vstd::utf8::encode_utf8("  "@) + crate::table::left(file.path@, width)
        + vstd::utf8::encode_utf8("  "@) + crate::table::right(file.data@.len(), 9)
        + vstd::utf8::encode_utf8(role_text(file.role))
}

/// The line for a file that was packed.
fn file_line(file: &Loaded, width: usize) -> (res: String)
    ensures
        vstd::utf8::encode_utf8(res@) == file_text(*file, width as nat),
{
    let role = match file.role {
        Role::File => "",
        Role::Kernel => "  kernel",
        Role::Firmware => "  firmware",
        Role::Config => "  config",
    };
    let mut line: Vec<u8> = Vec::new();
    crate::text::push_text(&mut line, "  ");
    crate::table::push_left(&mut line, file.path.as_str(), width);
    crate::text::push_text(&mut line, "  ");
    crate::table::push_right(&mut line, file.data.len() as u64, 9);
    crate::text::push_text(&mut line, role);
    proof {
        assert(line@ =~= file_text(*file, width as nat));
    }
    crate::text::to_text(&line)
}

/// The lines for what was packed.
pub fn report(loaded: &Vec<Loaded>) -> (res: Vec<String>)
    ensures
        res@.len() == loaded@.len(),
        forall|i: int|
            0 <= i < loaded@.len() ==> vstd::utf8::encode_utf8((#[trigger] res@[i])@) == file_text(
                loaded@[i],
                path_width(loaded@),
            ),
{
    let mut width: usize = 0;
    let mut at: usize = 0;
    while at < loaded.len()
        invariant
            at <= loaded@.len(),
            width == path_width(loaded@.take(at as int)),
        decreases loaded@.len() - at,
    {
        proof {
            assert(loaded@.take(at + 1).drop_last() =~= loaded@.take(at as int));
        }
        let len: usize = loaded[at].path.as_str().as_bytes().len();
        if len > width {
            width = len;
        }
        at += 1;
    }
    proof {
        assert(loaded@.take(at as int) =~= loaded@);
    }
    let mut lines: Vec<String> = Vec::new();
    let mut at: usize = 0;
    while at < loaded.len()
        invariant
            at <= loaded@.len(),
            width == path_width(loaded@),
            lines@.len() == at,
            forall|i: int|
                0 <= i < at ==> vstd::utf8::encode_utf8((#[trigger] lines@[i])@) == file_text(
                    loaded@[i],
                    width as nat,
                ),
        decreases loaded@.len() - at,
    {
        lines.push(file_line(&loaded[at], width));
        at += 1;
    }
    lines
}

/// The line for an entry that is unpacked.
pub fn unpacked_line(entry: &Entry<'_>) -> (res: String)
    ensures
        vstd::utf8::encode_utf8(res@) == vstd::utf8::encode_utf8("  "@) + crate::table::right(
            entry.data@.len(),
            9,
        ) + vstd::utf8::encode_utf8("  "@) + vstd::utf8::encode_utf8(entry.path@),
{
    let mut line: Vec<u8> = Vec::new();
    crate::text::push_text(&mut line, "  ");
    crate::table::push_right(&mut line, entry.data.len() as u64, 9);
    crate::text::push_text(&mut line, "  ");
    crate::text::push_text(&mut line, entry.path);
    proof {
        assert(line@ =~= vstd::utf8::encode_utf8("  "@) + crate::table::right(
            entry.data@.len(),
            9,
        ) + vstd::utf8::encode_utf8("  "@) + vstd::utf8::encode_utf8(entry.path@));
    }
    crate::text::to_text(&line)
}

} // verus!
