//! Import of a 32-bit app from an .ipa, which the user picks in a document
//! picker.
//!
//! The launcher's "Load .ipa" button asks for the picker. When the user picks an
//! .ipa, its Payload/*.app is extracted into the writable apps directory and the
//! path recorded; the app-picker run loop polls for it and launches the app. A
//! problem just means "nothing was imported".
use crate::window::deeplink::{index_of_byte, lemma_index_of_byte, starts_with};
use crate::window::host::HostId;
use std::io::Read;
use vstd::prelude::*;
use vstd::string::*;
use vstd::utf8::encode_utf8;

verus! {

/// `std::io::Cursor`, through which an archive in memory is read.
#[verifier::external_type_specification]
#[verifier::external_body]
#[verifier::reject_recursive_types(T)]
pub struct ExCursor<T>(std::io::Cursor<T>);

/// `zip::ZipArchive`, an archive that has been opened.
#[verifier::external_type_specification]
#[verifier::external_body]
#[verifier::reject_recursive_types(R)]
pub struct ExZipArchive<R>(zip::ZipArchive<R>);

/// The files in an archive: the name and the contents of each, none for one that
/// cannot be accessed. Contents end where they cannot be read on.
pub uninterp spec fn zip_entries(archive: zip::ZipArchive<std::io::Cursor<Vec<u8>>>) -> Seq<
    Option<(Seq<char>, Seq<u8>)>,
>;

/// The files in the archive that `bytes` are; none where they are no archive.
pub uninterp spec fn zip_listing(bytes: Seq<u8>) -> Option<Seq<Option<(Seq<char>, Seq<u8>)>>>;

/// Opens an archive with `zip::ZipArchive::new`. Whether that succeeds, and what
/// the archive then holds, depends on its bytes alone.
#[verifier::external_body]
fn zip_open(bytes: Vec<u8>) -> (r: Option<zip::ZipArchive<std::io::Cursor<Vec<u8>>>>)
    ensures
        match r {
            Some(archive) => zip_listing(bytes@) == Some(zip_entries(archive)),
            None => zip_listing(bytes@) is None,
        },
{
    zip::ZipArchive::new(std::io::Cursor::new(bytes)).ok()
}

/// The number of files in an archive, by `zip::ZipArchive::len`.
#[verifier::external_body]
fn zip_len(archive: &zip::ZipArchive<std::io::Cursor<Vec<u8>>>) -> (r: usize)
    ensures
        r == zip_entries(*archive).len(),
{
    archive.len()
}

/// The name of a file in an archive, by `zip::ZipArchive::by_index` and
/// `zip::read::ZipFile::name`. The archive keeps its files.
#[verifier::external_body]
fn zip_name(archive: &mut zip::ZipArchive<std::io::Cursor<Vec<u8>>>, index: usize) -> (r: Option<
    String,
>)
    requires
        index < zip_entries(*old(archive)).len(),
    ensures
        zip_entries(*final(archive)) == zip_entries(*old(archive)),
        match r {
            Some(name) => zip_entries(*old(archive))[index as int] matches Some(entry) && entry.0
                == name@,
            None => zip_entries(*old(archive))[index as int] is None,
        },
{
    archive.by_index(index).ok().map(|entry| entry.name().to_string())
}

/// The contents of a file in an archive, by `zip::ZipArchive::by_index` and
/// reading the `zip::read::ZipFile` to its end, or up to an error. The archive
/// keeps its files.
#[verifier::external_body]
fn zip_data(archive: &mut zip::ZipArchive<std::io::Cursor<Vec<u8>>>, index: usize) -> (r: Option<
    Vec<u8>,
>)
    requires
        index < zip_entries(*old(archive)).len(),
    ensures
        zip_entries(*final(archive)) == zip_entries(*old(archive)),
        match r {
            Some(data) => zip_entries(*old(archive))[index as int] matches Some(entry) && entry.1
                == data@,
            None => zip_entries(*old(archive))[index as int] is None,
        },
{
    let mut entry = archive.by_index(index).ok()?;
    let mut data = Vec::new();
    let _ = entry.read_to_end(&mut data);
    Some(data)
}

/// What to do for a file of an archive. Paths are relative to the apps
/// directory.
pub enum ImportOp {
    /// To make this directory.
    MakeDir(Vec<u8>),
    /// To write a file, and to make the directory that it is in.
    WriteFile(Vec<u8>, Vec<u8>),
}

pub enum ImportOpView {
    MakeDir(Seq<u8>),
    WriteFile(Seq<u8>, Seq<u8>),
}

impl ImportOpView {
    /// The path that is made or written.
    pub open spec fn path(self) -> Seq<u8> {
        match self {
            ImportOpView::MakeDir(path) => path,
            ImportOpView::WriteFile(path, _) => path,
        }
    }
}

impl View for ImportOp {
    type V = ImportOpView;

    open spec fn view(&self) -> ImportOpView {
        match self {
            ImportOp::MakeDir(path) => ImportOpView::MakeDir(path@),
            ImportOp::WriteFile(path, data) => ImportOpView::WriteFile(path@, data@),
        }
    }
}

/// A name with slashes for backslashes.
pub open spec fn with_slashes(name: Seq<u8>) -> Seq<u8> {
    Seq::new(
        name.len(),
        |i: int|
            if name[i] == 0x5c {
                0x2f
            } else {
                name[i]
            },
    )
}

/// The path of a file inside `Payload/`, if it is there.
pub open spec fn payload_path(name: Seq<u8>) -> Option<Seq<u8>> {
    let path = with_slashes(name);
    let prefix = "Payload/".spec_bytes();
    if starts_with(path, prefix) && path.len() > prefix.len() {
        Some(path.skip(prefix.len() as int))
    } else {
        None
    }
}

pub open spec fn lower(c: u8) -> u8 {
    if 0x41 <= c <= 0x5a {
        (c + 0x20) as u8
    } else {
        c
    }
}

/// Whether a directory's name is that of an app: it ends in ".app", in any case.
pub open spec fn is_app_name(name: Seq<u8>) -> bool {
    let n = name.len() as int;
    &&& n >= 4
    &&& lower(name[n - 4]) == 0x2e
    &&& lower(name[n - 3]) == 0x61
    &&& lower(name[n - 2]) == 0x70
    &&& lower(name[n - 1]) == 0x70
}

/// The first part of a path.
pub open spec fn first_part(path: Seq<u8>) -> Seq<u8> {
    path.take(index_of_byte(path, 0x2f))
}

/// How many directories a part of a path leads down. An empty part and `.` lead
/// nowhere, and `..` leads up.
pub open spec fn descent(part: Seq<u8>) -> int {
    if part == seq![0x2eu8, 0x2e] {
        -1
    } else if part.len() == 0 || part == seq![0x2eu8] {
        0
    } else {
        1
    }
}

/// Whether a path that starts `depth` directories down never leads up beyond
/// where those are counted from.
pub open spec fn stays_below(path: Seq<u8>, depth: int) -> bool
    decreases path.len(),
{
    let n = index_of_byte(path, 0x2f);
    let next = depth + descent(path.take(n));
    &&& next >= 0
    &&& 0 <= n < path.len() ==> stays_below(path.skip(n + 1), next)
}

/// Whether a path leads to a place inside the directory that its first part
/// names: that part is a name, so that the path is no absolute one, and the rest
/// never leads out of there again.
pub open spec fn stays_inside(path: Seq<u8>) -> bool {
    let n = index_of_byte(path, 0x2f);
    &&& descent(path.take(n)) == 1
    &&& 0 <= n < path.len() ==> stays_below(path.skip(n + 1), 0)
}

/// Where a file of an archive is extracted to, if it is: only what is in an
/// app's directory inside `Payload/` is.
pub open spec fn extracted_path(name: Seq<u8>) -> Option<Seq<u8>> {
    match payload_path(name) {
        Some(path) if is_app_name(first_part(path)) && stays_inside(path) => Some(path),
        _ => None,
    }
}

/// The app's directory that a file belongs to, if it belongs to one.
pub open spec fn app_of(name: Seq<u8>) -> Option<Seq<u8>> {
    match payload_path(name) {
        Some(path) if is_app_name(first_part(path)) => Some(first_part(path)),
        _ => None,
    }
}

/// What to do for a file of an archive, if anything: a name that ends in a slash
/// is a directory's.
pub open spec fn op_of(name: Seq<u8>, data: Seq<u8>) -> Option<ImportOpView> {
    match extracted_path(name) {
        Some(path) => Some(
            if path.last() == 0x2f {
                ImportOpView::MakeDir(path)
            } else {
                ImportOpView::WriteFile(path, data)
            },
        ),
        None => None,
    }
}

/// The directory of the app among the first `n` files of an archive: that of the
/// first file that belongs to one.
pub open spec fn app_among(entries: Seq<Option<(Seq<char>, Seq<u8>)>>, n: int) -> Option<Seq<u8>>
    decreases n,
{
    if n <= 0 {
        None
    } else {
        match app_among(entries, n - 1) {
            Some(app) => Some(app),
            None => match entries[n - 1] {
                Some((name, _)) => app_of(encode_utf8(name)),
                None => None,
            },
        }
    }
}

/// What to do for the file with the given index, if anything.
pub open spec fn op_at(entries: Seq<Option<(Seq<char>, Seq<u8>)>>, i: int) -> Option<ImportOpView> {
    match entries[i] {
        Some((name, data)) => op_of(encode_utf8(name), data),
        None => None,
    }
}

/// The index of the first file from `i` on for which there is something to do.
pub open spec fn next_op_index(entries: Seq<Option<(Seq<char>, Seq<u8>)>>, i: int) -> int
    decreases entries.len() - i,
{
    if i >= entries.len() || op_at(entries, i) is Some {
        i
    } else {
        next_op_index(entries, i + 1)
    }
}

fn to_slashes(name: &str) -> (r: Vec<u8>)
    ensures
        r@ == with_slashes(name.spec_bytes()),
{
    let bytes = name.as_bytes();
    let mut r: Vec<u8> = Vec::new();
    let mut i: usize = 0;
    while i < bytes.len()
        invariant
            i <= bytes@.len(),
            r@ == with_slashes(bytes@).take(i as int),
        decreases bytes@.len() - i,
    {
        let c: u8 = bytes[i];
        r.push(
            if c == 0x5c {
                0x2f
            } else {
                c
            },
        );
        i += 1;
        assert(r@ =~= with_slashes(bytes@).take(i as int));
    }
    assert(r@ =~= with_slashes(bytes@));
    r
}

fn to_lower(c: u8) -> (r: u8)
    ensures
        r == lower(c),
{
    if 0x41 <= c && c <= 0x5a {
        c + 0x20
    } else {
        c
    }
}

/// The path of a file inside `Payload/`, if it is there.
pub fn strip_payload(name: &str) -> (r: Option<Vec<u8>>)
    ensures
        match r {
            Some(path) => payload_path(name.spec_bytes()) == Some(path@),
            None => payload_path(name.spec_bytes()) is None,
        },
{
    let path: Vec<u8> = to_slashes(name);
    let prefix = "Payload/".as_bytes();
    if path.len() <= prefix.len() {
        return None;
    }
    let mut i: usize = 0;
    while i < prefix.len()
        invariant
            prefix@ == "Payload/".spec_bytes(),
            path@ == with_slashes(name.spec_bytes()),
            i <= prefix@.len() < path@.len(),
            forall|j: int| 0 <= j < i ==> path@[j] == prefix@[j],
        decreases prefix@.len() - i,
    {
        if path[i] != prefix[i] {
            assert(path@.take(prefix@.len() as int)[i as int] != prefix@[i as int]);
            return None;
        }
        i += 1;
    }
    assert(path@.take(prefix@.len() as int) =~= prefix@);
    let mut rest: Vec<u8> = Vec::new();
    rest.extend_from_slice(&path[i..path.len()]);
    assert(rest@ =~= path@.skip(prefix@.len() as int));
    Some(rest)
}

/// The app's directory that a file with the given path inside `Payload/` is in,
/// if it is in one.
pub fn app_dir_of(path: &Vec<u8>) -> (r: Option<Vec<u8>>)
    ensures
        match r {
            Some(dir) => is_app_name(first_part(path@)) && dir@ == first_part(path@),
            None => !is_app_name(first_part(path@)),
        },
{
    let mut n: usize = 0;
    proof {
        lemma_index_of_byte(path@, 0x2f);
    }
    while n < path.len() && path[n] != 0x2f
        invariant
            n <= index_of_byte(path@, 0x2f) <= path@.len(),
            index_of_byte(path@, 0x2f) < path@.len() ==> path@[index_of_byte(path@, 0x2f)] == 0x2f,
            forall|i: int| 0 <= i < index_of_byte(path@, 0x2f) ==> path@[i] != 0x2f,
        decreases path@.len() - n,
    {
        n += 1;
    }
    let mut dir: Vec<u8> = Vec::new();
    dir.extend_from_slice(&path[0..n]);
    assert(dir@ =~= first_part(path@));
    if n >= 4 && to_lower(dir[n - 4]) == 0x2e && to_lower(dir[n - 3]) == 0x61 && to_lower(
        dir[n - 2],
    ) == 0x70 && to_lower(dir[n - 1]) == 0x70 {
        Some(dir)
    } else {
        None
    }
}

/// How many directories the part of `path` from `start` up to `end` leads down.
fn descent_of(path: &Vec<u8>, start: usize, end: usize) -> (r: i128)
    requires
        start <= end <= path@.len(),
    ensures
        r == descent(path@.subrange(start as int, end as int)),
{
    let ghost part = path@.subrange(start as int, end as int);
    if end - start == 2 && path[start] == 0x2e && path[start + 1] == 0x2e {
        assert(part =~= seq![0x2eu8, 0x2e]);
        return -1;
    }
    assert(part != seq![0x2eu8, 0x2e]) by {
        if part == seq![0x2eu8, 0x2e] {
            assert(part.len() == 2 && part[0] == 0x2e && part[1] == 0x2e);
        }
    }
    if end == start {
        return 0;
    }
    if end - start == 1 && path[start] == 0x2e {
        assert(part =~= seq![0x2eu8]);
        return 0;
    }
    assert(part != seq![0x2eu8]) by {
        if part == seq![0x2eu8] {
            assert(part.len() == 1 && part[0] == 0x2e);
        }
    }
    1
}

/// Where the part of `path` that starts at `start` ends.
fn part_end(path: &Vec<u8>, start: usize) -> (end: usize)
    requires
        start <= path@.len(),
    ensures
        end == start + index_of_byte(path@.skip(start as int), 0x2f),
        start <= end <= path@.len(),
{
    let ghost rest = path@.skip(start as int);
    proof {
        lemma_index_of_byte(rest, 0x2f);
    }
    let mut end: usize = start;
    while end < path.len() && path[end] != 0x2f
        invariant
            start <= end <= path@.len(),
            rest == path@.skip(start as int),
            end - start <= index_of_byte(rest, 0x2f) <= rest.len(),
            index_of_byte(rest, 0x2f) < rest.len() ==> rest[index_of_byte(rest, 0x2f)] == 0x2f,
            forall|i: int| 0 <= i < index_of_byte(rest, 0x2f) ==> rest[i] != 0x2f,
        decreases path@.len() - end,
    {
        assert(rest[end - start] == path@[end as int]);
        end += 1;
    }
    if end < path.len() {
        assert(rest[end - start] == path@[end as int]);
    }
    end
}

/// Whether a path leads to a place inside the directory that its first part
/// names.
pub fn keeps_inside(path: &Vec<u8>) -> (r: bool)
    ensures
        r == stays_inside(path@),
{
    assert(path@.skip(0) =~= path@);
    let first: usize = part_end(path, 0);
    assert(path@.subrange(0, first as int) =~= path@.take(first as int));
    if descent_of(path, 0, first) != 1 {
        return false;
    }
    if first >= path.len() {
        return true;
    }
    let mut start: usize = first + 1;
    let mut depth: i128 = 0;
    loop
        invariant
            start <= path@.len(),
            0 <= depth <= start,
            stays_inside(path@) == stays_below(path@.skip(start as int), depth as int),
        decreases path@.len() - start,
    {
        let ghost rest = path@.skip(start as int);
        let end: usize = part_end(path, start);
        assert(rest.take(end - start) =~= path@.subrange(start as int, end as int));
        depth = depth + descent_of(path, start, end);
        if depth < 0 {
            return false;
        }
        if end >= path.len() {
            return true;
        }
        assert(rest.skip(end - start + 1) =~= path@.skip(end + 1));
        start = end + 1;
    }
}

/// What to do for a file that is extracted to the given path: a path that ends
/// in a slash is a directory's.
pub fn op_for(path: Vec<u8>, data: Vec<u8>) -> (r: ImportOp)
    requires
        path@.len() > 0,
    ensures
        r@ == if path@.last() == 0x2f {
            ImportOpView::MakeDir(path@)
        } else {
            ImportOpView::WriteFile(path@, data@)
        },
{
    if path[path.len() - 1] == 0x2f {
        ImportOp::MakeDir(path)
    } else {
        ImportOp::WriteFile(path, data)
    }
}

/// An import under way.
pub struct IpaImport {
    archive: zip::ZipArchive<std::io::Cursor<Vec<u8>>>,
    len: usize,
    next: usize,
    app_dir: Option<Vec<u8>>,
}

impl IpaImport {
    pub closed spec fn entries(&self) -> Seq<Option<(Seq<char>, Seq<u8>)>> {
        zip_entries(self.archive)
    }

    pub closed spec fn next_index(&self) -> int {
        self.next as int
    }

    pub closed spec fn app(&self) -> Option<Seq<u8>> {
        match self.app_dir {
            Some(dir) => Some(dir@),
            None => None,
        }
    }

    pub closed spec fn len_wf(&self) -> bool {
        self.len == zip_entries(self.archive).len()
    }

    /// The app that has been found is the one among the files so far.
    pub open spec fn wf(&self) -> bool {
        &&& self.len_wf()
        &&& 0 <= self.next_index() <= self.entries().len()
        &&& self.app() == app_among(self.entries(), self.next_index())
    }

    /// Opens an .ipa, which is an archive, if `bytes` are one.
    pub fn open(bytes: Vec<u8>) -> (r: Option<IpaImport>)
        ensures
            match r {
                Some(import) => {
                    &&& import.wf()
                    &&& zip_listing(bytes@) == Some(import.entries())
                    &&& import.next_index() == 0
                },
                None => zip_listing(bytes@) is None,
            },
    {
        match zip_open(bytes) {
            Some(archive) => {
                let len: usize = zip_len(&archive);
                Some(IpaImport { archive, len, next: 0, app_dir: None })
            },
            None => None,
        }
    }

    /// What to do next, if anything is left.
    pub fn next_op(&mut self) -> (r: Option<ImportOp>)
        requires
            old(self).wf(),
        ensures
            final(self).wf(),
            final(self).entries() == old(self).entries(),
            ({
                let entries = old(self).entries();
                let i = next_op_index(entries, old(self).next_index());
                match r {
                    Some(op) => {
                        &&& i < entries.len()
                        &&& op_at(entries, i) == Some(op@)
                        &&& final(self).next_index() == i + 1
                    },
                    None => {
                        &&& i >= entries.len()
                        &&& final(self).next_index() == entries.len()
                    },
                }
            }),
    {
        let ghost entries = self.entries();
        while self.next < self.len
            invariant
                self.wf(),
                entries == self.entries(),
                entries == old(self).entries(),
                next_op_index(entries, old(self).next_index()) == next_op_index(
                    entries,
                    self.next_index(),
                ),
            decreases entries.len() - self.next_index(),
        {
            let index: usize = self.next;
            let name: Option<String> = zip_name(&mut self.archive, index);
            self.next = index + 1;
            if let Some(name) = name {
                if let Some(path) = strip_payload(name.as_str()) {
                    if let Some(dir) = app_dir_of(&path) {
                        if self.app_dir.is_none() {
                            self.app_dir = Some(dir);
                        }
                        assert(self.app() == app_among(entries, self.next_index()));
                        if keeps_inside(&path) {
                            let data: Vec<u8> = if path[path.len() - 1] == 0x2f {
                                Vec::new()
                            } else {
                                match zip_data(&mut self.archive, index) {
                                    Some(data) => data,
                                    None => {
                                        assert(false);
                                        Vec::new()
                                    },
                                }
                            };
                            return Some(op_for(path, data));
                        }
                    }
                }
            }
            assert(self.app() == app_among(entries, self.next_index()));
        }
        None
    }

    /// The name of the directory of the app that was found, in the apps
    /// directory.
    pub fn imported_app(&self) -> (r: Option<Vec<u8>>)
        requires
            self.wf(),
        ensures
            match r {
                Some(dir) => app_among(self.entries(), self.next_index()) == Some(dir@),
                None => app_among(self.entries(), self.next_index()) is None,
            },
    {
        match &self.app_dir {
            Some(dir) => Some(dir.clone()),
            None => None,
        }
    }
}

/// An import finds an app if and only if some file of the archive belongs to an
/// app's directory, and it is that of the first such file.
pub proof fn law_first_app_is_found(entries: Seq<Option<(Seq<char>, Seq<u8>)>>, n: int)
    requires
        0 <= n <= entries.len(),
    ensures
        match app_among(entries, n) {
            Some(app) => exists|i: int|
                {
                    &&& 0 <= i < n
                    &&& #[trigger] entry_app(entries, i) == Some(app)
                    &&& forall|j: int| 0 <= j < i ==> #[trigger] entry_app(entries, j) is None
                },
            None => forall|i: int| 0 <= i < n ==> #[trigger] entry_app(entries, i) is None,
        },
    decreases n,
{
    if n > 0 {
        law_first_app_is_found(entries, n - 1);
        assert(entry_app(entries, n - 1) == match entries[n - 1] {
            Some((name, _)) => app_of(encode_utf8(name)),
            None => None,
        });
    }
}

/// The app's directory that the file with the given index belongs to.
pub open spec fn entry_app(entries: Seq<Option<(Seq<char>, Seq<u8>)>>, i: int) -> Option<Seq<u8>> {
    match entries[i] {
        Some((name, _)) => app_of(encode_utf8(name)),
        None => None,
    }
}

/// What an import makes or writes is inside the directory of an app in the apps
/// directory, and came from `Payload/`.
pub proof fn law_import_stays_inside(entries: Seq<Option<(Seq<char>, Seq<u8>)>>, i: int)
    requires
        0 <= i < entries.len(),
    ensures
        op_at(entries, i) matches Some(op) ==> {
            &&& stays_inside(op.path())
            &&& is_app_name(first_part(op.path()))
            &&& entries[i] matches Some(entry) && payload_path(encode_utf8(entry.0)) == Some(
                op.path(),
            )
        },
{
}

/// What an import writes is the file's contents, byte for byte. A name that ends
/// in a slash is a directory's, and any other a file's.
pub proof fn law_import_writes_contents(entries: Seq<Option<(Seq<char>, Seq<u8>)>>, i: int)
    requires
        0 <= i < entries.len(),
    ensures
        op_at(entries, i) matches Some(op) ==> {
            &&& entries[i] is Some
            &&& match op {
                ImportOpView::WriteFile(path, data) => {
                    &&& path.len() > 0 && path.last() != 0x2f
                    &&& data == entries[i]->Some_0.1
                },
                ImportOpView::MakeDir(path) => path.len() > 0 && path.last() == 0x2f,
            }
        },
{
    reveal_strlit("Payload/");
}

proof fn lemma_without_dots(path: Seq<u8>, depth: int)
    requires
        depth >= 0,
        forall|j: int| 0 <= j < path.len() - 1 ==> !(#[trigger] path[j] == 0x2e && path[j + 1] == 0x2e),
    ensures
        stays_below(path, depth),
    decreases path.len(),
{
    lemma_index_of_byte(path, 0x2f);
    let n = index_of_byte(path, 0x2f);
    let part = path.take(n);
    if part == seq![0x2eu8, 0x2e] {
        assert(part.len() == 2 && part[0] == 0x2e && part[1] == 0x2e);
        assert(part[0] == path[0] && part[1] == path[1]);
        assert(!(path[0] == 0x2e && path[0int + 1] == 0x2e));
    }
    if n < path.len() {
        let rest = path.skip(n + 1);
        assert forall|j: int| 0 <= j < rest.len() - 1 implies !(#[trigger] rest[j] == 0x2e && rest[j
            + 1] == 0x2e) by {
            assert(rest[j] == path[n + 1 + j]);
            assert(path[n + 1 + j + 1] == rest[j + 1]);
        }
        lemma_without_dots(rest, depth + descent(part));
    }
}

proof fn lemma_index_in_front(dir: Seq<u8>, rest: Seq<u8>)
    requires
        forall|j: int| 0 <= j < dir.len() ==> #[trigger] dir[j] != 0x2f,
    ensures
        index_of_byte(dir + seq![0x2fu8] + rest, 0x2f) == dir.len(),
{
    let path = dir + seq![0x2fu8] + rest;
    lemma_index_of_byte(path, 0x2f);
    assert(path[dir.len() as int] == 0x2f);
    let n = index_of_byte(path, 0x2f);
    if n < dir.len() {
        assert(path[n] == dir[n]);
    }
}

/// Every file of an app is imported: where a file's name is `Payload/`, the name
/// of a directory in ".app", in any case, a slash and a rest without `..`, it is
/// extracted under that name without `Payload/`, with its contents, or made if it
/// is a directory. The directory is the app's.
pub proof fn law_app_files_are_imported(
    entries: Seq<Option<(Seq<char>, Seq<u8>)>>,
    i: int,
    dir: Seq<u8>,
    rest: Seq<u8>,
)
    requires
        0 <= i < entries.len(),
        entries[i] is Some,
        encode_utf8(entries[i]->Some_0.0) == "Payload/".spec_bytes() + (dir + seq![0x2fu8] + rest),
        forall|j: int| 0 <= j < dir.len() ==> #[trigger] dir[j] != 0x2f && dir[j] != 0x5c,
        forall|j: int| 0 <= j < rest.len() ==> #[trigger] rest[j] != 0x5c,
        dir.len() >= 4,
        dir[dir.len() - 4] == 0x2e,
        dir[dir.len() - 3] == 0x61 || dir[dir.len() - 3] == 0x41,
        dir[dir.len() - 2] == 0x70 || dir[dir.len() - 2] == 0x50,
        dir[dir.len() - 1] == 0x70 || dir[dir.len() - 1] == 0x50,
        forall|j: int| 0 <= j < rest.len() - 1 ==> !(#[trigger] rest[j] == 0x2e && rest[j + 1] == 0x2e),
    ensures
        ({
            let path = dir + seq![0x2fu8] + rest;
            &&& op_at(entries, i) == Some(
                if rest.len() == 0 || rest.last() == 0x2f {
                    ImportOpView::MakeDir(path)
                } else {
                    ImportOpView::WriteFile(path, entries[i]->Some_0.1)
                },
            )
            &&& entry_app(entries, i) == Some(dir)
        }),
{
    reveal_strlit("Payload/");
    vstd::utf8::is_ascii_chars_encode_utf8("Payload/"@);
    let path = dir + seq![0x2fu8] + rest;
    let prefix = "Payload/".spec_bytes();
    let name = encode_utf8(entries[i]->Some_0.0);
    assert forall|j: int| 0 <= j < name.len() implies #[trigger] name[j] != 0x5c by {
        if j >= 8 {
            assert(name[j] == path[j - 8]);
            if j - 8 > dir.len() {
                assert(path[j - 8] == rest[j - 8 - dir.len() - 1]);
            } else if j - 8 < dir.len() {
                assert(path[j - 8] == dir[j - 8]);
            }
        } else {
            assert(name[j] == prefix[j]);
        }
    }
    assert(with_slashes(name) =~= name);
    assert(name.take(prefix.len() as int) =~= prefix);
    assert(name.skip(prefix.len() as int) =~= path);
    lemma_index_in_front(dir, rest);
    assert(path.take(dir.len() as int) =~= dir);
    assert(path.skip(dir.len() as int + 1) =~= rest);
    assert(path.last() == if rest.len() == 0 {
        0x2f
    } else {
        rest.last()
    });
    lemma_without_dots(rest, 0);
}

/// The app that a file belongs to is the directory in `Payload/` that its name goes
/// on with, whatever follows that, if it is one in ".app", in any case.
pub proof fn law_app_is_the_directory(name: Seq<u8>, dir: Seq<u8>, rest: Seq<u8>)
    requires
        name == "Payload/".spec_bytes() + (dir + rest),
        rest.len() == 0 || rest[0] == 0x2f,
        dir.len() + rest.len() > 0,
        forall|j: int| 0 <= j < dir.len() ==> #[trigger] dir[j] != 0x2f && dir[j] != 0x5c,
        forall|j: int| 0 <= j < rest.len() ==> #[trigger] rest[j] != 0x5c,
    ensures
        app_of(name) == if dir.len() >= 4 && dir[dir.len() - 4] == 0x2e && (dir[dir.len() - 3]
            == 0x61 || dir[dir.len() - 3] == 0x41) && (dir[dir.len() - 2] == 0x70 || dir[dir.len()
            - 2] == 0x50) && (dir[dir.len() - 1] == 0x70 || dir[dir.len() - 1] == 0x50) {
            Some(dir)
        } else {
            None
        },
{
    reveal_strlit("Payload/");
    vstd::utf8::is_ascii_chars_encode_utf8("Payload/"@);
    let prefix = "Payload/".spec_bytes();
    let path = dir + rest;
    assert forall|j: int| 0 <= j < name.len() implies #[trigger] name[j] != 0x5c by {
        if j >= 8 {
            assert(name[j] == path[j - 8]);
            if j - 8 >= dir.len() {
                assert(path[j - 8] == rest[j - 8 - dir.len()]);
            } else {
                assert(path[j - 8] == dir[j - 8]);
            }
        } else {
            assert(name[j] == prefix[j]);
        }
    }
    assert(with_slashes(name) =~= name);
    assert(name.take(prefix.len() as int) =~= prefix);
    assert(name.skip(prefix.len() as int) =~= path);
    lemma_index_of_byte(path, 0x2f);
    let n = index_of_byte(path, 0x2f);
    if n < dir.len() {
        assert(path[n] == dir[n]);
    }
    if rest.len() > 0 {
        assert(path[dir.len() as int] == rest[0]);
    }
    assert(path.take(dir.len() as int) =~= dir);
}

/// Nothing belongs to an app that is not in `Payload/`: the name of whatever does
/// starts with that, in just this case, and has something behind it.
pub proof fn law_only_payload_has_apps(name: Seq<u8>, data: Seq<u8>, j: int)
    requires
        0 <= j < 7,
    ensures
        app_of(name) is Some ==> name.len() > 8 && name[j] == "Payload/".spec_bytes()[j] && (name[7]
            == 0x2f || name[7] == 0x5c),
        op_of(name, data) is Some ==> app_of(name) is Some,
{
    reveal_strlit("Payload/");
    vstd::utf8::is_ascii_chars_encode_utf8("Payload/"@);
    let prefix = "Payload/".spec_bytes();
    let path = with_slashes(name);
    if starts_with(path, prefix) {
        assert(path.take(8)[j] == path[j]);
        assert(path.take(8)[7] == path[7]);
        assert(prefix[j] != 0x2f && prefix[7] == 0x2f);
    }
}

/// It does not matter whether the parts of a name are set apart by slashes or by
/// backslashes.
pub proof fn law_backslashes_are_slashes(a: Seq<u8>, b: Seq<u8>, data: Seq<u8>)
    requires
        a.len() == b.len(),
        forall|j: int|
            0 <= j < a.len() ==> #[trigger] a[j] == b[j] || (a[j] == 0x2f && b[j] == 0x5c) || (a[j]
                == 0x5c && b[j] == 0x2f),
    ensures
        op_of(a, data) == op_of(b, data),
        app_of(a) == app_of(b),
{
    assert(with_slashes(a) =~= with_slashes(b));
}

/// Where a path leads from a place, as the names of the directories on the way
/// there; nowhere if it leads up from the top.
pub open spec fn reached(at: Seq<Seq<u8>>, path: Seq<u8>) -> Option<Seq<Seq<u8>>>
    decreases path.len(),
{
    let n = index_of_byte(path, 0x2f);
    let part = path.take(n);
    if part == seq![0x2eu8, 0x2e] && at.len() == 0 {
        None
    } else {
        let next = if part == seq![0x2eu8, 0x2e] {
            at.drop_last()
        } else if part.len() == 0 || part == seq![0x2eu8] {
            at
        } else {
            at.push(part)
        };
        if 0 <= n < path.len() {
            reached(next, path.skip(n + 1))
        } else {
            Some(next)
        }
    }
}

proof fn lemma_reached(at: Seq<Seq<u8>>, path: Seq<u8>, depth: int)
    requires
        at.len() == 1 + depth,
        depth >= 0,
        stays_below(path, depth),
    ensures
        reached(at, path) matches Some(place) && place.len() >= 1 && place[0] == at[0],
    decreases path.len(),
{
    lemma_index_of_byte(path, 0x2f);
    let n = index_of_byte(path, 0x2f);
    let part = path.take(n);
    let next = if part == seq![0x2eu8, 0x2e] {
        at.drop_last()
    } else if part.len() == 0 || part == seq![0x2eu8] {
        at
    } else {
        at.push(part)
    };
    if n < path.len() {
        lemma_reached(next, path.skip(n + 1), depth + descent(part));
    }
}

/// Whatever the files of an archive are called, the place that is made or written
/// is the directory of an app in the apps directory, or lies in it: the path has no
/// slash in front, and followed from the apps directory it does not lead out.
pub proof fn law_import_lands_in_an_app(entries: Seq<Option<(Seq<char>, Seq<u8>)>>, i: int)
    requires
        0 <= i < entries.len(),
    ensures
        op_at(entries, i) matches Some(op) ==> {
            &&& op.path()[0] != 0x2f
            &&& reached(Seq::empty(), op.path()) matches Some(place) && {
                &&& place.len() >= 1
                &&& place[0].len() >= 4
                &&& place[0][place[0].len() - 4] == 0x2e
                &&& Some(place[0]) == entry_app(entries, i)
            }
        },
{
    reveal_strlit("Payload/");
    if let Some(op) = op_at(entries, i) {
        let path = op.path();
        lemma_index_of_byte(path, 0x2f);
        let n = index_of_byte(path, 0x2f);
        let part = path.take(n);
        assert(part.len() > 0);
        assert(part[0] == path[0]);
        if n < path.len() {
            let at = Seq::<Seq<u8>>::empty().push(part);
            lemma_reached(at, path.skip(n + 1), 0);
        }
    }
}

/// No file is passed over: from a file on, the next one for which there is
/// something to do is the first for which there is.
pub proof fn law_no_file_is_passed_over(entries: Seq<Option<(Seq<char>, Seq<u8>)>>, i: int)
    requires
        0 <= i <= entries.len(),
    ensures
        i <= next_op_index(entries, i) <= entries.len(),
        next_op_index(entries, i) < entries.len() ==> op_at(entries, next_op_index(entries, i))
            is Some,
        forall|j: int| i <= j < next_op_index(entries, i) ==> #[trigger] op_at(entries, j) is None,
    decreases entries.len() - i,
{
    if i < entries.len() && op_at(entries, i) is None {
        law_no_file_is_passed_over(entries, i + 1);
    }
}

/// The document picker, and what was picked in it.
pub struct IpaPicker {
    imported: Option<Vec<u8>>,
    presents: u64,
    /// Whether the class of the picker's delegate has been registered.
    registered: bool,
    /// The delegate of the picker that is on screen; 0 is none.
    delegate: HostId,
}

/// What must be done to put the picker on screen. The answer to each of these is
/// an object, or 0 for none.
#[derive(Copy, Clone, Eq, PartialEq, Debug, Structural)]
pub enum ShowStep {
    /// To register the class of its delegate. The answer does not matter.
    RegisterClass,
    /// To look that class up.
    FindClass,
    /// To make a delegate of the class, and to retain it.
    MakeDelegate { class: HostId },
    /// To make a picker for generic data files: .ipa has no standard type.
    MakePicker,
    /// To let the picker have its delegate, and to find the root view controller.
    FindRoot { picker: HostId, delegate: HostId },
    /// To present the picker, and to hide the overlay, which would cover it. The
    /// answer does not matter.
    Present { root: HostId, picker: HostId },
    /// Nothing: the picker is on screen, or it cannot be.
    Done,
}

/// What comes after a step of putting the picker on screen. `delegate` is the one
/// that was made.
pub open spec fn next_show_step(step: ShowStep, answer: HostId, delegate: HostId) -> ShowStep {
    match step {
        ShowStep::RegisterClass => ShowStep::FindClass,
        ShowStep::FindClass if answer != 0 => ShowStep::MakeDelegate { class: answer },
        ShowStep::MakeDelegate { .. } if answer != 0 => ShowStep::MakePicker,
        ShowStep::MakePicker if answer != 0 => ShowStep::FindRoot { picker: answer, delegate },
        ShowStep::FindRoot { picker, .. } if answer != 0 => ShowStep::Present {
            root: answer,
            picker,
        },
        _ => ShowStep::Done,
    }
}

/// The picker comes on screen once each object that it needs is there: the class
/// is that of the delegate that is made, the picker and its delegate are the ones
/// that were made, and the root presents that picker. Where one is missing,
/// nothing more is done.
pub proof fn law_picker_is_shown(
    class: HostId,
    delegate: HostId,
    picker: HostId,
    root: HostId,
    any: HostId,
    step: ShowStep,
)
    requires
        class != 0,
        delegate != 0,
        picker != 0,
        root != 0,
    ensures
        ({
            let found = next_show_step(ShowStep::RegisterClass, any, any);
            let made = next_show_step(found, class, any);
            let with_delegate = next_show_step(made, delegate, delegate);
            let with_picker = next_show_step(with_delegate, picker, delegate);
            let with_root = next_show_step(with_picker, root, delegate);
            &&& found is FindClass
            &&& made == (ShowStep::MakeDelegate { class })
            &&& with_delegate is MakePicker
            &&& with_picker == (ShowStep::FindRoot { picker, delegate })
            &&& with_root == (ShowStep::Present { root, picker })
            &&& next_show_step(with_root, any, delegate) is Done
        }),
        !(step is RegisterClass) ==> next_show_step(step, 0, delegate) is Done,
{
}

impl IpaPicker {
    /// The path of an app that was imported and has not been taken yet.
    pub closed spec fn imported(&self) -> Option<Seq<u8>> {
        match self.imported {
            Some(path) => Some(path@),
            None => None,
        }
    }

    /// How many times the picker has still to be put on screen.
    pub closed spec fn presents(&self) -> int {
        self.presents as int
    }

    /// Whether the class of the picker's delegate has been registered.
    pub closed spec fn registered(&self) -> bool {
        self.registered
    }

    /// The delegate of the picker that is on screen; 0 is none.
    pub closed spec fn delegate(&self) -> HostId {
        self.delegate
    }

    pub fn new() -> (r: IpaPicker)
        ensures
            r.imported() is None,
            r.presents() == 0,
            !r.registered(),
            r.delegate() == 0,
    {
        IpaPicker { imported: None, presents: 0, registered: false, delegate: 0 }
    }

    /// The first thing to do to put the picker on screen. The class of its
    /// delegate is registered once.
    pub fn begin_show(&mut self) -> (r: ShowStep)
        ensures
            r == if old(self).registered() {
                ShowStep::FindClass
            } else {
                ShowStep::RegisterClass
            },
            final(self).registered(),
            final(self).imported() == old(self).imported(),
            final(self).presents() == old(self).presents(),
            final(self).delegate() == old(self).delegate(),
    {
        if self.registered {
            ShowStep::FindClass
        } else {
            self.registered = true;
            ShowStep::RegisterClass
        }
    }

    /// What to do next to put the picker on screen, given the answer to `step`.
    /// Where an object is missing, the picker cannot be shown.
    pub fn go_on(&mut self, step: ShowStep, answer: HostId) -> (r: ShowStep)
        ensures
            r == next_show_step(step, answer, old(self).delegate()),
            final(self).delegate() == if step is MakeDelegate && answer != 0 {
                answer
            } else {
                old(self).delegate()
            },
            final(self).registered() == old(self).registered(),
            final(self).imported() == old(self).imported(),
            final(self).presents() == old(self).presents(),
    {
        match step {
            ShowStep::RegisterClass => ShowStep::FindClass,
            ShowStep::FindClass => {
                if answer == 0 {
                    return ShowStep::Done;
                }
                ShowStep::MakeDelegate { class: answer }
            },
            ShowStep::MakeDelegate { .. } => {
                if answer == 0 {
                    return ShowStep::Done;
                }
                self.delegate = answer;
                ShowStep::MakePicker
            },
            ShowStep::MakePicker => {
                if answer == 0 {
                    return ShowStep::Done;
                }
                ShowStep::FindRoot { picker: answer, delegate: self.delegate }
            },
            ShowStep::FindRoot { picker, .. } => {
                if answer == 0 {
                    return ShowStep::Done;
                }
                ShowStep::Present { root: answer, picker }
            },
            ShowStep::Present { .. } => ShowStep::Done,
            ShowStep::Done => ShowStep::Done,
        }
    }

    /// The picker has been dismissed. Returns its delegate, which must be
    /// released, if it has one.
    pub fn dismissed(&mut self) -> (r: Option<HostId>)
        ensures
            r == if old(self).delegate() != 0 {
                Some(old(self).delegate())
            } else {
                None
            },
            final(self).delegate() == 0,
            final(self).registered() == old(self).registered(),
            final(self).imported() == old(self).imported(),
            final(self).presents() == old(self).presents(),
    {
        let d: u64 = self.delegate;
        self.delegate = 0;
        if d != 0 {
            Some(d)
        } else {
            None
        }
    }

    /// Takes one request to put the picker on screen, if there is any.
    pub fn take_present(&mut self) -> (r: bool)
        ensures
            r == (old(self).presents() > 0),
            final(self).presents() == old(self).presents() - (if r {
                1int
            } else {
                0
            }),
            final(self).imported() == old(self).imported(),
            final(self).registered() == old(self).registered(),
            final(self).delegate() == old(self).delegate(),
    {
        if self.presents > 0 {
            self.presents = self.presents - 1;
            true
        } else {
            false
        }
    }

    /// Records what an import has come to: the path of the app, if there is one.
    pub fn handle_import(&mut self, app_path: Option<Vec<u8>>)
        ensures
            final(self).imported() == match app_path {
                Some(path) => Some(path@),
                None => old(self).imported(),
            },
            final(self).presents() == old(self).presents(),
            final(self).registered() == old(self).registered(),
            final(self).delegate() == old(self).delegate(),
    {
        if let Some(path) = app_path {
            self.imported = Some(path);
        }
    }
}

/// Take the path of an app just imported, if any.
pub fn take_imported_app(picker: &mut IpaPicker) -> (r: Option<Vec<u8>>)
    ensures
        match r {
            Some(path) => old(picker).imported() == Some(path@),
            None => old(picker).imported() is None,
        },
        final(picker).imported() is None,
        final(picker).presents() == old(picker).presents(),
        final(picker).registered() == old(picker).registered(),
        final(picker).delegate() == old(picker).delegate(),
{
    picker.imported.take()
}

/// Ask for the document picker. It is put on screen from the main thread, later:
/// the launcher's code runs on a coroutine stack, from which that would hang.
pub fn present(picker: &mut IpaPicker)
    ensures
        final(picker).presents() == if old(picker).presents() < u64::MAX {
            old(picker).presents() + 1
        } else {
            old(picker).presents()
        },
        final(picker).imported() == old(picker).imported(),
        final(picker).registered() == old(picker).registered(),
        final(picker).delegate() == old(picker).delegate(),
{
    if picker.presents < u64::MAX {
        picker.presents = picker.presents + 1;
    }
}

/// Ask for the document picker, so that the user can choose an `.ipa` to import
/// and launch.
pub fn ios_present_ipa_picker(picker: &mut IpaPicker)
    ensures
        final(picker).presents() == if old(picker).presents() < u64::MAX {
            old(picker).presents() + 1
        } else {
            old(picker).presents()
        },
        final(picker).imported() == old(picker).imported(),
        final(picker).registered() == old(picker).registered(),
        final(picker).delegate() == old(picker).delegate(),
{
    present(picker);
}

/// Take the path of an app just imported via the document picker, if any.
pub fn ios_take_imported_app(picker: &mut IpaPicker) -> (r: Option<Vec<u8>>)
    ensures
        match r {
            Some(path) => old(picker).imported() == Some(path@),
            None => old(picker).imported() is None,
        },
        final(picker).imported() is None,
        final(picker).presents() == old(picker).presents(),
        final(picker).registered() == old(picker).registered(),
        final(picker).delegate() == old(picker).delegate(),
{
    take_imported_app(picker)
}

/// Every file that an import writes, it writes whole: the data are the contents of
/// the file of the archive that the path is the name of.
pub proof fn law_next_op_writes_whole_files(op: ImportOp)
    ensures
        forall|import: &mut IpaImport|
            #[trigger] call_ensures(IpaImport::next_op, (import,), Some(op)) && import.wf() ==> (
            op matches ImportOp::WriteFile(path, data) ==> exists|i: int|
                {
                    &&& import.next_index() <= i < import.entries().len()
                    &&& (#[trigger] import.entries()[i]) is Some
                    &&& data@ == import.entries()[i]->Some_0.1
                    &&& payload_path(encode_utf8(import.entries()[i]->Some_0.0)) == Some(path@)
                    &&& final(import).next_index() == i + 1
                }),
{
    assert forall|import: &mut IpaImport|
        #[trigger] call_ensures(
            IpaImport::next_op,
            (import,),
            Some(op),
        ) && import.wf() implies (op matches ImportOp::WriteFile(path, data) ==> exists|i: int|
        {
            &&& import.next_index() <= i < import.entries().len()
            &&& (#[trigger] import.entries()[i]) is Some
            &&& data@ == import.entries()[i]->Some_0.1
            &&& payload_path(encode_utf8(import.entries()[i]->Some_0.0)) == Some(path@)
            &&& final(import).next_index() == i + 1
        }) by {
        let entries = import.entries();
        let i = next_op_index(entries, import.next_index());
        law_no_file_is_passed_over(entries, import.next_index());
        law_import_writes_contents(entries, i);
        law_import_stays_inside(entries, i);
        assert(entries[i] is Some);
    }
}

/// The picker is put on screen as often as it is asked for, and an app that was imported
/// is taken once.
pub proof fn law_requests_for_the_picker(shown: bool, path: Vec<u8>, taken: Option<Vec<u8>>)
    ensures
        forall|p: &mut IpaPicker|
            #[trigger] call_ensures(present, (p,), ()) && p.presents() < u64::MAX ==> final(
                p).presents() == p.presents() + 1 && final(p).imported() == p.imported(),
        forall|p: &mut IpaPicker|
            #[trigger] call_ensures(IpaPicker::take_present, (p,), shown) ==> {
                &&& shown <==> p.presents() > 0
                &&& shown ==> final(p).presents() == p.presents() - 1
                &&& !shown ==> final(p).presents() == p.presents()
                &&& final(p).imported() == p.imported()
            },
        forall|p: &mut IpaPicker|
            #[trigger] call_ensures(IpaPicker::handle_import, (p, Some(path)), ()) ==> final(
                p).imported() == Some(path@),
        forall|p: &mut IpaPicker|
            #[trigger] call_ensures(IpaPicker::handle_import, (p, None::<Vec<u8>>), ()) ==> final(
                p).imported() == p.imported(),
        forall|p: &mut IpaPicker|
            #[trigger] call_ensures(take_imported_app, (p,), taken) ==> {
                &&& final(p).imported() is None
                &&& taken is Some <==> p.imported() is Some
                &&& taken is Some ==> p.imported() == Some(taken->Some_0@)
            },
{
}

/// Once every file has been looked at, the app that was imported is the directory that
/// the first file of one belongs to, and there is one exactly where there is such a
/// file.
pub proof fn law_imported_app(import: IpaImport, r: Option<Vec<u8>>, i: int)
    requires
        import.wf(),
        import.next_index() == import.entries().len(),
        call_ensures(IpaImport::imported_app, (&import,), r),
        0 <= i < import.entries().len(),
        forall|j: int| 0 <= j < i ==> #[trigger] entry_app(import.entries(), j) is None,
    ensures
        entry_app(import.entries(), i) is Some ==> r is Some && entry_app(import.entries(), i)
            == Some(r->Some_0@),
        entry_app(import.entries(), i) is None && i + 1 == import.entries().len() ==> r is None,
{
    let entries = import.entries();
    let n = entries.len() as int;
    law_first_app_is_found(entries, n);
    if let Some(app) = app_among(entries, n) {
        let k = choose|k: int|
            {
                &&& 0 <= k < n
                &&& #[trigger] entry_app(entries, k) == Some(app)
                &&& forall|j: int| 0 <= j < k ==> #[trigger] entry_app(entries, j) is None
            };
        if k < i {
            assert(entry_app(entries, k) is None);
        } else if i < k {
            assert(entry_app(entries, i) is None);
        }
    } else {
        assert(entry_app(entries, i) is None);
    }
}

} // verus!
