//! The files of the installed packages.
//!
//! Every package has a head, which lists its files. The caller reads the package database or the
//! package directory, and the heads; [`PackageScan::package_files`] says which head comes next and
//! collects the list of files to copy.
use vstd::prelude::*;

use pkgar::ext::EntryExt;

use crate::text;

verus! {

/// The package database, relative to the root of a system.
pub const PACKAGES_TOML_PATH: &'static str = "etc/pkg/packages.toml";

/// Where the package database keeps the heads, relative to the root of a system.
pub const PACKAGES_HEAD_DIR: &'static str = "var/lib/packages";

/// The key to the heads of a package directory, relative to the root of a system.
pub const PKEY_PATH: &'static str = "pkg/id_ed25519.pub.toml";

/// What a package database says: the remotes of which it has the public key, and the installed
/// packages with the remote that each came from.
#[derive(Debug)]
pub struct PackageDb {
    pub pubkeys: Vec<String>,
    pub installed: Vec<(String, String)>,
}

/// A package database as characters.
pub struct DbView {
    pub pubkeys: Seq<Seq<char>>,
    pub installed: Seq<(Seq<char>, Seq<char>)>,
}

impl View for PackageDb {
    type V = DbView;

    open spec fn view(&self) -> DbView {
        DbView {
            pubkeys: text::texts(self.pubkeys@),
            installed: self.installed@.map_values(|p: (String, String)| (p.0@, p.1@)),
        }
    }
}

/// How many bytes come before the first zero.
pub open spec fn before_nul(field: Seq<u8>) -> nat
    decreases field.len(),
{
    if field.len() == 0 || field[0] == 0 {
        0
    } else {
        1 + before_nul(field.drop_first())
    }
}

/// The path that a field of fixed length holds: what comes before the first zero.
pub open spec fn path_of(field: Seq<u8>) -> Seq<u8> {
    field.take(before_nul(field) as int)
}

/// Does a component of the path begin here?
pub open spec fn component_start(path: Seq<u8>, i: int) -> bool {
    0 <= i < path.len() && (i == 0 || path[i - 1] == 47)
}

/// Does the path lead only downwards from where it is applied? It does not start at the root or
/// with `.`, and none of its components is `..`.
pub open spec fn leads_down(path: Seq<u8>) -> bool {
    &&& !(path.len() > 0 && path[0] == 47)
    &&& !(path.len() > 0 && path[0] == 46 && (path.len() == 1 || path[1] == 47))
    &&& forall|i: int| #[trigger]
        component_start(path, i) ==> !(i + 1 < path.len() && path[i] == 46 && path[i + 1] == 46 && (
        i + 2 == path.len() || path[i + 2] == 47))
}

/// The first component of a path that does not lead down: the root, a leading `.`, or `..`.
pub open spec fn odd_component(path: Seq<u8>) -> Seq<char> {
    if path.len() > 0 && path[0] == 47 {
        "/"@
    } else if path.len() > 0 && path[0] == 46 && (path.len() == 1 || path[1] == 47) {
        "."@
    } else {
        ".."@
    }
}

/// What is said of a path that does not lead down; the path is written as `shown`.
pub open spec fn path_refusal(path: Seq<u8>, shown: Seq<char>) -> Seq<char> {
    "Invalid component '"@ + odd_component(path) + "' in path '"@ + shown
        + "' while parsing entry"@
}

/// How `std::path::Display` writes a path that is not UTF-8.
pub uninterp spec fn lossy_path(path: Seq<u8>) -> Seq<char>;

/// How a path is written: its text, if it is text.
pub open spec fn shown_path(path: Seq<u8>) -> Seq<char> {
    if vstd::utf8::valid_utf8(path) {
        vstd::utf8::decode_utf8(path)
    } else {
        lossy_path(path)
    }
}

/// `pkgar::ext::EntryExt::check_path`, of an entry whose path field holds these bytes: the path up
/// to the first zero, if all its components are normal ones in the sense of
/// `std::path::Component` (neither the root, nor a leading `.`, nor `..`), and otherwise what the
/// error says, which names the first component that is not normal and the path. The path is
/// handed out as text, so one that is accepted must be UTF-8; in the error, one that is not is
/// written with stand-ins, and which is left unsaid.
#[verifier::external_body]
fn check_path(field: &[u8; 256]) -> (r: Result<String, String>)
    requires
        leads_down(path_of(field@)) ==> vstd::utf8::valid_utf8(path_of(field@)),
    ensures
        match r {
            Ok(path) => leads_down(path_of(field@)) && path@ == vstd::utf8::decode_utf8(
                path_of(field@),
            ),
            Err(reason) => !leads_down(path_of(field@)) && reason@ == path_refusal(
                path_of(field@),
                if vstd::utf8::valid_utf8(path_of(field@)) {
                    vstd::utf8::decode_utf8(path_of(field@))
                } else {
                    lossy_path(path_of(field@))
                },
            ),
        },
{
    let entry = pkgar_core::Entry { blake3: [0; 32], offset: 0, size: 0, mode: 0, path: *field };
    match entry.check_path() {
        Ok(path) => Ok(path.to_str().unwrap().to_owned()),
        Err(err) => Err(err.to_string()),
    }
}

/// What a scan asks for.
#[derive(Debug)]
pub enum ScanAction {
    /// Read the package database.
    ReadDatabase,
    /// Read the key to the heads of the package directory.
    ReadKey,
    /// List the package directory.
    OpenDirectory,
    /// The next name in the package directory.
    NextItem,
    /// Read the head at `path`, relative to the root, with this key of the database; the package
    /// directory has only one key.
    ReadHead { path: String, key: usize },
    /// Nothing more: these are the files.
    Finish { files: Vec<String> },
    /// Nothing more: the files cannot be listed, for this reason.
    Fail { reason: String },
}

/// What was done for a scan.
#[derive(Debug)]
pub enum ScanEvent {
    /// Nothing yet.
    Begin,
    /// The package database says this.
    Database(PackageDb),
    /// It was done.
    Done,
    /// This name is in the package directory.
    Item(String),
    /// There are no more names in the package directory.
    NoItem,
    /// The head has entries with these path fields.
    Entries(Vec<[u8; 256]>),
    /// It could not be done, for this reason.
    Failed(String),
}

/// What a scan is waiting for.
#[derive(Clone, Copy, Debug, PartialEq, Eq, Structural)]
pub enum ScanStep {
    Start,
    Database,
    Key,
    Directory,
    Item,
    Head,
    End,
}

/// Where the heads come from.
#[derive(Clone, Copy, Debug, PartialEq, Eq, Structural)]
pub enum ScanSource {
    /// The package database names the packages and their keys.
    Database,
    /// Every head in the package directory counts, with one key for all.
    Directory,
}

/// The collecting of the files of all packages.
#[derive(Debug)]
pub struct PackageScan {
    source: ScanSource,
    step: ScanStep,
    files: Vec<String>,
    db: PackageDb,
    at: usize,
    head: String,
}

/// A scan as characters.
#[verifier::ext_equal]
pub struct ScanView {
    pub source: ScanSource,
    pub step: ScanStep,
    /// The files so far.
    pub files: Seq<Seq<char>>,
    pub db: DbView,
    /// The packages of the database that were asked for so far.
    pub at: nat,
    /// The head that is being read.
    pub head: Seq<char>,
}

/// A request as characters.
pub enum ScanActionView {
    ReadDatabase,
    ReadKey,
    OpenDirectory,
    NextItem,
    ReadHead { path: Seq<char>, key: usize },
    Finish { files: Seq<Seq<char>> },
    Fail { reason: Seq<char> },
}

/// An event as characters.
pub enum ScanEventView {
    Begin,
    Database(DbView),
    Done,
    Item(Seq<char>),
    NoItem,
    Entries(Seq<Seq<u8>>),
    Failed(Seq<char>),
}

impl View for PackageScan {
    type V = ScanView;

    closed spec fn view(&self) -> ScanView {
        ScanView {
            source: self.source,
            step: self.step,
            files: text::texts(self.files@),
            db: self.db@,
            at: self.at as nat,
            head: self.head@,
        }
    }
}

impl View for ScanAction {
    type V = ScanActionView;

    open spec fn view(&self) -> ScanActionView {
        match self {
            ScanAction::ReadDatabase => ScanActionView::ReadDatabase,
            ScanAction::ReadKey => ScanActionView::ReadKey,
            ScanAction::OpenDirectory => ScanActionView::OpenDirectory,
            ScanAction::NextItem => ScanActionView::NextItem,
            ScanAction::ReadHead { path, key } => ScanActionView::ReadHead {
                path: path@,
                key: *key,
            },
            ScanAction::Finish { files } => ScanActionView::Finish { files: text::texts(files@) },
            ScanAction::Fail { reason } => ScanActionView::Fail { reason: reason@ },
        }
    }
}

/// The path fields of a list of entries.
pub open spec fn fields(entries: Seq<[u8; 256]>) -> Seq<Seq<u8>> {
    entries.map_values(|e: [u8; 256]| e@)
}

impl View for ScanEvent {
    type V = ScanEventView;

    open spec fn view(&self) -> ScanEventView {
        match self {
            ScanEvent::Begin => ScanEventView::Begin,
            ScanEvent::Database(db) => ScanEventView::Database(db@),
            ScanEvent::Done => ScanEventView::Done,
            ScanEvent::Item(name) => ScanEventView::Item(name@),
            ScanEvent::NoItem => ScanEventView::NoItem,
            ScanEvent::Entries(entries) => ScanEventView::Entries(fields(entries@)),
            ScanEvent::Failed(reason) => ScanEventView::Failed(reason@),
        }
    }
}

/// Is this the name of a head? It has something before its extension, which is `pkgar_head`.
pub open spec fn is_head(name: Seq<char>) -> bool {
    name.len() > ".pkgar_head"@.len() && name.skip(name.len() - ".pkgar_head"@.len())
        == ".pkgar_head"@
}

/// Is this the name of a head?
pub fn names_head(name: &str) -> (r: bool)
    ensures
        r == is_head(name@),
{
    let cs = text::chars_of(name);
    let end = text::chars_of(".pkgar_head");
    if cs.len() <= end.len() {
        return false;
    }
    let total: usize = cs.len();
    let start: usize = total - end.len();
    let mut i: usize = 0;
    while i < end.len()
        invariant
            i <= end@.len(),
            total == cs@.len(),
            start + end@.len() == cs@.len(),
            cs@ == name@,
            end@ == ".pkgar_head"@,
            forall|j: int| 0 <= j < i ==> cs@[start + j] == #[trigger] end@[j],
            start > 0,
        decreases end@.len() - i,
    {
        if cs[start + i] != end[i] {
            assert(name@.skip(start as int)[i as int] != end@[i as int]);
            return false;
        }
        i = i + 1;
    }
    assert(name@.skip(start as int) =~= ".pkgar_head"@);
    true
}

/// The first key of this remote, if there is one.
pub open spec fn key_of(pubkeys: Seq<Seq<char>>, remote: Seq<char>) -> Option<usize>
    decreases pubkeys.len(),
{
    if pubkeys.len() == 0 {
        None
    } else {
        match key_of(pubkeys.drop_last(), remote) {
            Some(i) => Some(i),
            None => if pubkeys.last() == remote {
                Some((pubkeys.len() - 1) as usize)
            } else {
                None
            },
        }
    }
}

/// The first key of this remote, if there is one.
fn find_key(pubkeys: &Vec<String>, remote: &String) -> (r: Option<usize>)
    ensures
        r == key_of(text::texts(pubkeys@), remote@),
{
    let ghost all = text::texts(pubkeys@);
    let mut found: Option<usize> = None;
    let mut i: usize = 0;
    while i < pubkeys.len()
        invariant
            i <= pubkeys@.len(),
            all == text::texts(pubkeys@),
            found == key_of(all.take(i as int), remote@),
        decreases pubkeys@.len() - i,
    {
        assert(all.take(i + 1).drop_last() =~= all.take(i as int));
        assert(all.take(i + 1).last() == pubkeys@[i as int]@);
        if found.is_none() && text::same_text(pubkeys[i].as_str(), remote.as_str()) {
            found = Some(i);
        }
        i = i + 1;
    }
    assert(all.take(i as int) =~= all);
    found
}

/// A key that is found belongs to the remote, and one is found if there is one.
pub proof fn lemma_key_of(pubkeys: Seq<Seq<char>>, remote: Seq<char>)
    requires
        pubkeys.len() <= usize::MAX,
    ensures
        match key_of(pubkeys, remote) {
            Some(i) => 0 <= i < pubkeys.len() && pubkeys[i as int] == remote,
            None => !pubkeys.contains(remote),
        },
    decreases pubkeys.len(),
{
    if pubkeys.len() > 0 {
        lemma_key_of(pubkeys.drop_last(), remote);
        if key_of(pubkeys, remote) is None {
            assert forall|i: int| 0 <= i < pubkeys.len() implies pubkeys[i] != remote by {
                if i < pubkeys.len() - 1 {
                    assert(pubkeys.drop_last()[i] == pubkeys[i]);
                }
            }
        }
    }
}

/// Where the package database keeps the head of a package.
pub open spec fn head_of(package: Seq<char>) -> Seq<char> {
    "var/lib/packages"@ + "/"@ + package + ".pkgar_head"@
}

/// Where the package directory keeps a head.
pub open spec fn item_path(name: Seq<char>) -> Seq<char> {
    "pkg/"@ + name
}

/// What is said of a package whose remote has no key.
pub open spec fn no_key(package: Seq<char>, remote: Seq<char>) -> Seq<char> {
    "package "@ + package + " names remote "@ + remote
        + ", which has no public key in the package database"@
}

/// The files that these entries name, in their order, up to the first that does not lead down; and
/// whether all do.
pub open spec fn named_files(entries: Seq<Seq<u8>>) -> (Seq<Seq<char>>, bool)
    decreases entries.len(),
{
    if entries.len() == 0 {
        (Seq::empty(), true)
    } else {
        let (files, all) = named_files(entries.drop_last());
        if all && leads_down(path_of(entries.last())) {
            (files.push(vstd::utf8::decode_utf8(path_of(entries.last()))), true)
        } else {
            (files, false)
        }
    }
}

/// The path of the first entry that does not lead down; nothing if all do.
pub open spec fn first_refused(entries: Seq<Seq<u8>>) -> Seq<u8>
    decreases entries.len(),
{
    if entries.len() == 0 {
        Seq::empty()
    } else if !leads_down(path_of(entries[0])) {
        path_of(entries[0])
    } else {
        first_refused(entries.drop_first())
    }
}

/// What is said of entries that do not all lead down: it is said of the first of those.
pub open spec fn entries_refusal(entries: Seq<Seq<u8>>) -> Seq<char> {
    path_refusal(first_refused(entries), shown_path(first_refused(entries)))
}

/// Is every path that leads down text, as far as the entries are looked at?
pub open spec fn are_text(entries: Seq<Seq<u8>>) -> bool {
    forall|i: int|
        #![trigger entries[i]]
        0 <= i < entries.len() && named_files(entries.take(i)).1 && leads_down(path_of(entries[i]))
            ==> vstd::utf8::valid_utf8(path_of(entries[i]))
}

/// Is this an event that the scan is waiting for?
pub open spec fn scan_awaits(s: ScanView, e: ScanEventView) -> bool {
    match e {
        ScanEventView::Begin => s.step == ScanStep::Start,
        ScanEventView::Database(_) => s.step == ScanStep::Database,
        ScanEventView::Done => s.step == ScanStep::Key || s.step == ScanStep::Directory,
        ScanEventView::Item(_) | ScanEventView::NoItem => s.step == ScanStep::Item,
        ScanEventView::Entries(entries) => s.step == ScanStep::Head && are_text(entries),
        ScanEventView::Failed(_) => s.step != ScanStep::Start && s.step != ScanStep::End,
    }
}

/// The scan is over, with this result.
pub open spec fn scan_end(s: ScanView, a: ScanActionView) -> (ScanView, ScanActionView) {
    (ScanView { step: ScanStep::End, ..s }, a)
}

/// The next package of the database, or the end.
pub open spec fn next_package(s: ScanView) -> (ScanView, ScanActionView) {
    if s.at < s.db.installed.len() {
        let (package, remote) = s.db.installed[s.at as int];
        match key_of(s.db.pubkeys, remote) {
            Some(key) => (
                ScanView { step: ScanStep::Head, at: s.at + 1, head: head_of(package), ..s },
                ScanActionView::ReadHead { path: head_of(package), key },
            ),
            None => scan_end(
                s,
                ScanActionView::Fail { reason: no_key(package, remote) },
            ),
        }
    } else {
        scan_end(s, ScanActionView::Finish { files: s.files })
    }
}

/// What comes next, once a head was dealt with.
pub open spec fn next_head(s: ScanView) -> (ScanView, ScanActionView) {
    match s.source {
        ScanSource::Database => next_package(s),
        ScanSource::Directory => (
            ScanView { step: ScanStep::Item, ..s },
            ScanActionView::NextItem,
        ),
    }
}

/// One step of a scan: what was done for it, and what follows.
///
/// The list holds the database itself, or the key; then for each package its files and its head.
pub open spec fn scan_next(s: ScanView, e: ScanEventView) -> (ScanView, ScanActionView) {
    match e {
        ScanEventView::Begin => match s.source {
            ScanSource::Database => (
                ScanView { step: ScanStep::Database, ..s },
                ScanActionView::ReadDatabase,
            ),
            ScanSource::Directory => (
                ScanView { step: ScanStep::Key, ..s },
                ScanActionView::ReadKey,
            ),
        },
        ScanEventView::Failed(reason) => scan_end(
            s,
            ScanActionView::Fail {
                reason: if s.step == ScanStep::Database {
                    "cannot read the package database: "@ + reason
                } else {
                    reason
                },
            },
        ),
        ScanEventView::Database(db) => next_package(
            ScanView { db, at: 0, files: s.files.push("etc/pkg/packages.toml"@), ..s },
        ),
        ScanEventView::Done => if s.step == ScanStep::Key {
            (
                ScanView {
                    step: ScanStep::Directory,
                    files: s.files.push("pkg/id_ed25519.pub.toml"@),
                    ..s
                },
                ScanActionView::OpenDirectory,
            )
        } else {
            (ScanView { step: ScanStep::Item, ..s }, ScanActionView::NextItem)
        },
        ScanEventView::Item(name) => if is_head(name) {
            (
                ScanView { step: ScanStep::Head, head: item_path(name), ..s },
                ScanActionView::ReadHead { path: item_path(name), key: 0 },
            )
        } else {
            (s, ScanActionView::NextItem)
        },
        ScanEventView::NoItem => scan_end(s, ScanActionView::Finish { files: s.files }),
        ScanEventView::Entries(entries) => {
            let (named, all) = named_files(entries);
            if all {
                next_head(ScanView { files: s.files + named + seq![s.head], ..s })
            } else {
                scan_end(
                    ScanView { files: s.files + named, ..s },
                    ScanActionView::Fail { reason: entries_refusal(entries) },
                )
            }
        },
    }
}

/// Adds one text to a list.
fn add_text(files: &mut Vec<String>, t: String)
    ensures
        text::texts(final(files)@) == text::texts(old(files)@).push(t@),
{
    files.push(t);
    assert(text::texts(files@) =~= text::texts(old(files)@).push(t@));
}

/// Adds the files that these entries name.
fn add_files(files: &mut Vec<String>, entries: &Vec<[u8; 256]>) -> (r: Result<(), String>)
    requires
        are_text(fields(entries@)),
    ensures
        text::texts(final(files)@) == text::texts(old(files)@) + named_files(fields(entries@)).0,
        r is Ok == named_files(fields(entries@)).1,
        r matches Err(reason) ==> reason@ == entries_refusal(fields(entries@)),
{
    let ghost all = fields(entries@);
    let ghost before = text::texts(files@);
    let mut i: usize = 0;
    assert(all.take(0) =~= Seq::empty());
    assert(all.skip(0) =~= all);
    assert(before =~= before + Seq::empty());
    while i < entries.len()
        invariant
            i <= entries@.len(),
            before == text::texts(old(files)@),
            all == fields(entries@),
            are_text(all),
            named_files(all.take(i as int)).1,
            first_refused(all) == first_refused(all.skip(i as int)),
            text::texts(files@) == before + named_files(all.take(i as int)).0,
        decreases entries@.len() - i,
    {
        let ghost so_far = text::texts(files@);
        assert(all[i as int] == entries@[i as int]@);
        assert(all.skip(i as int)[0] == all[i as int]);
        assert(all.skip(i as int).drop_first() =~= all.skip(i + 1));
        match check_path(&entries[i]) {
            Ok(path) => {
                proof {
                    lemma_goes_on(all, i as int);
                }
                add_text(files, path);
                assert(so_far.push(path@) =~= before + named_files(all.take(i as int)).0.push(
                    path@,
                ));
            },
            Err(err) => {
                proof {
                    lemma_stops(all, i as int);
                }
                return Err(err);
            },
        }
        i = i + 1;
    }
    assert(all.take(i as int) =~= all);
    Ok(())
}

/// An entry that leads down is added to those before it.
proof fn lemma_goes_on(entries: Seq<Seq<u8>>, i: int)
    requires
        0 <= i < entries.len(),
        named_files(entries.take(i)).1,
        leads_down(path_of(entries[i])),
    ensures
        named_files(entries.take(i + 1)) == (
            named_files(entries.take(i)).0.push(vstd::utf8::decode_utf8(path_of(entries[i]))),
            true,
        ),
{
    assert(entries.take(i + 1).drop_last() =~= entries.take(i));
}

/// Nothing is looked at after an entry that does not lead down.
proof fn lemma_stops(entries: Seq<Seq<u8>>, i: int)
    requires
        0 <= i < entries.len(),
        named_files(entries.take(i)).1,
        !leads_down(path_of(entries[i])),
    ensures
        named_files(entries) == (named_files(entries.take(i)).0, false),
    decreases entries.len(),
{
    if i == entries.len() - 1 {
        assert(entries.drop_last() =~= entries.take(i));
    } else {
        let shorter = entries.drop_last();
        assert(shorter.take(i) =~= entries.take(i));
        lemma_stops(shorter, i);
    }
}

impl PackageScan {
    /// A scan that adds to these files.
    pub fn new(source: ScanSource, files: Vec<String>) -> (r: PackageScan)
        ensures
            r@ == (ScanView {
                source,
                step: ScanStep::Start,
                files: text::texts(files@),
                db: DbView { pubkeys: Seq::empty(), installed: Seq::empty() },
                at: 0,
                head: Seq::empty(),
            }),
    {
        let db = PackageDb { pubkeys: Vec::new(), installed: Vec::new() };
        assert(db@.pubkeys =~= Seq::empty());
        assert(db@.installed =~= Seq::empty());
        PackageScan { source, step: ScanStep::Start, files, db, at: 0, head: String::new() }
    }

    /// The scan is over, with all files.
    fn finish(&mut self) -> (action: ScanAction)
        ensures
            (final(self)@, action@) == scan_end(
                old(self)@,
                ScanActionView::Finish { files: old(self)@.files },
            ),
    {
        self.step = ScanStep::End;
        let mut files: Vec<String> = Vec::new();
        let mut i: usize = 0;
        while i < self.files.len()
            invariant
                i <= self.files@.len(),
                text::texts(files@) == text::texts(self.files@).take(i as int),
            decreases self.files@.len() - i,
        {
            add_text(&mut files, self.files[i].clone());
            i = i + 1;
            assert(text::texts(files@) =~= text::texts(self.files@).take(i as int));
        }
        assert(text::texts(files@) =~= text::texts(self.files@));
        ScanAction::Finish { files }
    }

    /// The scan is over, without a result.
    fn fail(&mut self, reason: String) -> (action: ScanAction)
        ensures
            (final(self)@, action@) == scan_end(
                old(self)@,
                ScanActionView::Fail { reason: reason@ },
            ),
    {
        self.step = ScanStep::End;
        ScanAction::Fail { reason }
    }

    /// The next package of the database, or the end.
    fn next_package(&mut self) -> (action: ScanAction)
        ensures
            (final(self)@, action@) == next_package(old(self)@),
    {
        if self.at >= self.db.installed.len() {
            return self.finish();
        }
        let at = self.at;
        assert(self@.db.installed[at as int] == (
            self.db.installed@[at as int].0@,
            self.db.installed@[at as int].1@,
        ));
        let package = self.db.installed[at].0.clone();
        let remote = self.db.installed[at].1.clone();
        match find_key(&self.db.pubkeys, &remote) {
            Some(key) => {
                let mut path = PACKAGES_HEAD_DIR.to_owned();
                path.append("/");
                path.append(package.as_str());
                path.append(".pkgar_head");
                self.step = ScanStep::Head;
                self.at = at + 1;
                self.head = path.clone();
                ScanAction::ReadHead { path, key }
            },
            None => {
                let mut reason = "package ".to_owned();
                reason.append(package.as_str());
                reason.append(" names remote ");
                reason.append(remote.as_str());
                reason.append(", which has no public key in the package database");
                self.fail(reason)
            },
        }
    }

    /// One step of the scan.
    pub fn package_files(&mut self, event: ScanEvent) -> (action: ScanAction)
        requires
            scan_awaits(old(self)@, event@),
        ensures
            (final(self)@, action@) == scan_next(old(self)@, event@),
    {
        match event {
            ScanEvent::Begin => match self.source {
                ScanSource::Database => {
                    self.step = ScanStep::Database;
                    ScanAction::ReadDatabase
                },
                ScanSource::Directory => {
                    self.step = ScanStep::Key;
                    ScanAction::ReadKey
                },
            },
            ScanEvent::Failed(reason) => {
                if self.step == ScanStep::Database {
                    let mut told = "cannot read the package database: ".to_owned();
                    told.append(reason.as_str());
                    return self.fail(told);
                }
                self.fail(reason)
            },
            ScanEvent::Database(db) => {
                add_text(&mut self.files, PACKAGES_TOML_PATH.to_owned());
                self.db = db;
                self.at = 0;
                self.next_package()
            },
            ScanEvent::Done => {
                if self.step == ScanStep::Key {
                    self.step = ScanStep::Directory;
                    add_text(&mut self.files, PKEY_PATH.to_owned());
                    return ScanAction::OpenDirectory;
                }
                self.step = ScanStep::Item;
                ScanAction::NextItem
            },
            ScanEvent::Item(name) => {
                if names_head(name.as_str()) {
                    let mut path = "pkg/".to_owned();
                    path.append(name.as_str());
                    self.step = ScanStep::Head;
                    self.head = path.clone();
                    return ScanAction::ReadHead { path, key: 0 };
                }
                ScanAction::NextItem
            },
            ScanEvent::NoItem => self.finish(),
            ScanEvent::Entries(entries) => {
                match add_files(&mut self.files, &entries) {
                    Ok(()) => {
                        let head = self.head.clone();
                        add_text(&mut self.files, head);
                        assert(self@.files =~= old(self)@.files + named_files(fields(entries@)).0
                            + seq![old(self)@.head]);
                        match self.source {
                            ScanSource::Database => self.next_package(),
                            ScanSource::Directory => {
                                self.step = ScanStep::Item;
                                ScanAction::NextItem
                            },
                        }
                    },
                    Err(reason) => self.fail(reason),
                }
            },
        }
    }
}

/// Every file that is taken from a head lies below the root: its path does not start at the root or
/// with `.`, and has no `..` in it.
pub proof fn law_listed_files_lead_down(entries: Seq<Seq<u8>>, i: int)
    requires
        are_text(entries),
        0 <= i < named_files(entries).0.len(),
    ensures
        leads_down(vstd::utf8::encode_utf8(named_files(entries).0[i])),
    decreases entries.len(),
{
    let before = entries.drop_last();
    assert(are_text(before)) by {
        assert forall|j: int|
            #![trigger before[j]]
            0 <= j < before.len() && named_files(before.take(j)).1 && leads_down(
                path_of(before[j]),
            ) implies vstd::utf8::valid_utf8(path_of(before[j])) by {
            assert(before.take(j) =~= entries.take(j));
            assert(entries[j] == before[j]);
        }
    }
    let (files, all) = named_files(before);
    if i < files.len() {
        law_listed_files_lead_down(before, i);
    } else {
        let path = path_of(entries.last());
        assert(before =~= entries.take(entries.len() - 1));
        assert(entries[entries.len() - 1] == entries.last());
        vstd::utf8::decode_utf8_encode_utf8(path);
    }
}

/// A head with an entry that does not lead down ends the scan, and what is said is said of the first
/// such entry.
pub proof fn law_the_first_bad_entry_is_named(s: ScanView, entries: Seq<Seq<u8>>, i: int)
    requires
        0 <= i < entries.len(),
        !leads_down(path_of(entries[i])),
        forall|j: int| 0 <= j < i ==> leads_down(path_of(#[trigger] entries[j])),
    ensures
        scan_next(s, ScanEventView::Entries(entries)).1 == (ScanActionView::Fail {
            reason: path_refusal(path_of(entries[i]), shown_path(path_of(entries[i]))),
        }),
{
    lemma_first_refused(entries, i);
    lemma_all_named(entries, i);
    lemma_stops(entries, i);
}

/// The first entry that does not lead down is found.
proof fn lemma_first_refused(entries: Seq<Seq<u8>>, i: int)
    requires
        0 <= i < entries.len(),
        !leads_down(path_of(entries[i])),
        forall|j: int| 0 <= j < i ==> leads_down(path_of(#[trigger] entries[j])),
    ensures
        first_refused(entries) == path_of(entries[i]),
    decreases i,
{
    if i > 0 {
        let rest = entries.drop_first();
        assert(leads_down(path_of(entries[0])));
        assert forall|j: int| 0 <= j < i - 1 implies leads_down(path_of(#[trigger] rest[j])) by {
            assert(rest[j] == entries[j + 1]);
        }
        lemma_first_refused(rest, i - 1);
    }
}

/// Entries that lead down are all named.
proof fn lemma_all_named(entries: Seq<Seq<u8>>, n: int)
    requires
        0 <= n <= entries.len(),
        forall|j: int| 0 <= j < n ==> leads_down(path_of(#[trigger] entries[j])),
    ensures
        named_files(entries.take(n)).1,
    decreases n,
{
    if n > 0 {
        lemma_all_named(entries, n - 1);
        assert(leads_down(path_of(entries[n - 1])));
        lemma_goes_on(entries, n - 1);
    }
}

/// A head is read with a key of the remote that its package came from, and with no other.
pub proof fn law_key_belongs_to_the_remote(s: ScanView)
    requires
        s.at < s.db.installed.len(),
        s.db.pubkeys.len() <= usize::MAX,
    ensures
        match next_package(s).1 {
            ScanActionView::ReadHead { path, key } => {
                &&& path == head_of(s.db.installed[s.at as int].0)
                &&& 0 <= key < s.db.pubkeys.len()
                &&& s.db.pubkeys[key as int] == s.db.installed[s.at as int].1
            },
            _ => true,
        },
{
    lemma_key_of(s.db.pubkeys, s.db.installed[s.at as int].1);
}

/// A package whose remote has no key ends the scan, and what is said names the package and the
/// remote.
pub proof fn law_a_package_without_a_key_fails(s: ScanView)
    requires
        s.at < s.db.installed.len(),
        s.db.pubkeys.len() <= usize::MAX,
        !s.db.pubkeys.contains(s.db.installed[s.at as int].1),
    ensures
        next_package(s).1 == (ScanActionView::Fail {
            reason: no_key(s.db.installed[s.at as int].0, s.db.installed[s.at as int].1),
        }),
{
    lemma_key_of(s.db.pubkeys, s.db.installed[s.at as int].1);
}

/// How a scan ends whose heads, from this one on, have these entries.
pub open spec fn scanned(
    s: ScanView,
    a: ScanActionView,
    heads: Seq<Seq<Seq<u8>>>,
    at: int,
) -> ScanActionView
    decreases heads.len() - at,
{
    if a is ReadHead && 0 <= at < heads.len() {
        let (s2, a2) = scan_next(s, ScanEventView::Entries(heads[at]));
        scanned(s2, a2, heads, at + 1)
    } else {
        a
    }
}

/// For each package from this one on, its files and its head.
pub open spec fn listing(db: DbView, heads: Seq<Seq<Seq<u8>>>, at: int) -> Seq<Seq<char>>
    decreases heads.len() - at,
{
    if 0 <= at < heads.len() {
        named_files(heads[at]).0 + seq![head_of(db.installed[at].0)] + listing(db, heads, at + 1)
    } else {
        Seq::empty()
    }
}

/// Where every remote has its key and every entry leads down, a scan of the database lists the
/// database itself and then, package for package, the files and the head.
pub proof fn law_database_scan_lists_everything(
    s: ScanView,
    db: DbView,
    heads: Seq<Seq<Seq<u8>>>,
)
    requires
        s.source == ScanSource::Database,
        s.step == ScanStep::Database,
        heads.len() == db.installed.len(),
        db.pubkeys.len() <= usize::MAX,
        forall|i: int|
            0 <= i < db.installed.len() ==> db.pubkeys.contains(#[trigger] db.installed[i].1),
        forall|i: int| 0 <= i < heads.len() ==> named_files(#[trigger] heads[i]).1,
    ensures
        ({
            let (s2, a2) = scan_next(s, ScanEventView::Database(db));
            scanned(s2, a2, heads, 0) == (ScanActionView::Finish {
                files: s.files + seq!["etc/pkg/packages.toml"@] + listing(db, heads, 0),
            })
        }),
{
    let start = ScanView { db, at: 0, files: s.files.push("etc/pkg/packages.toml"@), ..s };
    lemma_scan_lists_the_rest(start, heads);
    assert(start.files =~= s.files + seq!["etc/pkg/packages.toml"@]);
}

/// From any package on, the scan of a database lists what is left.
proof fn lemma_scan_lists_the_rest(s: ScanView, heads: Seq<Seq<Seq<u8>>>)
    requires
        s.source == ScanSource::Database,
        s.at <= s.db.installed.len(),
        heads.len() == s.db.installed.len(),
        s.db.pubkeys.len() <= usize::MAX,
        forall|i: int|
            0 <= i < s.db.installed.len() ==> s.db.pubkeys.contains(
                #[trigger] s.db.installed[i].1,
            ),
        forall|i: int| 0 <= i < heads.len() ==> named_files(#[trigger] heads[i]).1,
    ensures
        ({
            let (s2, a2) = next_package(s);
            scanned(s2, a2, heads, s.at as int) == (ScanActionView::Finish {
                files: s.files + listing(s.db, heads, s.at as int),
            })
        }),
    decreases heads.len() - s.at,
{
    let at = s.at as int;
    if at < heads.len() {
        let (s2, a2) = next_package(s);
        let package = s.db.installed[at];
        lemma_key_of(s.db.pubkeys, package.1);
        assert(a2 is ReadHead);
        let named = named_files(heads[at]).0;
        let s3 = ScanView { files: s2.files + named + seq![s2.head], ..s2 };
        assert(scan_next(s2, ScanEventView::Entries(heads[at])) == next_package(s3));
        lemma_scan_lists_the_rest(s3, heads);
        assert(s3.files + listing(s.db, heads, at + 1) =~= s.files + listing(s.db, heads, at));
    } else {
        assert(s.files + listing(s.db, heads, at) =~= s.files);
    }
}

/// How a scan ends that finds these names in the package directory, from this one on, each with the
/// entries that its head has if it is one.
pub open spec fn walked(
    s: ScanView,
    a: ScanActionView,
    items: Seq<(Seq<char>, Seq<Seq<u8>>)>,
    at: int,
) -> ScanActionView
    decreases items.len() - at,
{
    if a !is NextItem {
        a
    } else if 0 <= at < items.len() {
        let (s2, a2) = scan_next(s, ScanEventView::Item(items[at].0));
        if a2 is ReadHead {
            let (s3, a3) = scan_next(s2, ScanEventView::Entries(items[at].1));
            walked(s3, a3, items, at + 1)
        } else {
            walked(s2, a2, items, at + 1)
        }
    } else {
        scan_next(s, ScanEventView::NoItem).1
    }
}

/// For each head in the package directory, from this name on, its files and itself.
pub open spec fn directory_listing(
    items: Seq<(Seq<char>, Seq<Seq<u8>>)>,
    at: int,
) -> Seq<Seq<char>>
    decreases items.len() - at,
{
    if 0 <= at < items.len() {
        (if is_head(items[at].0) {
            named_files(items[at].1).0 + seq![item_path(items[at].0)]
        } else {
            Seq::empty()
        }) + directory_listing(items, at + 1)
    } else {
        Seq::empty()
    }
}

/// Where every entry leads down, a scan of the package directory lists the key and then, head for
/// head, the files and the head; other names are passed over.
pub proof fn law_directory_scan_lists_every_head(
    s: ScanView,
    items: Seq<(Seq<char>, Seq<Seq<u8>>)>,
)
    requires
        s.source == ScanSource::Directory,
        s.step == ScanStep::Key,
        forall|i: int| 0 <= i < items.len() ==> named_files((#[trigger] items[i]).1).1,
    ensures
        ({
            let (s2, a2) = scan_next(s, ScanEventView::Done);
            let (s3, a3) = scan_next(s2, ScanEventView::Done);
            a2 is OpenDirectory && walked(s3, a3, items, 0) == (ScanActionView::Finish {
                files: s.files + seq!["pkg/id_ed25519.pub.toml"@] + directory_listing(items, 0),
            })
        }),
{
    let (s2, a2) = scan_next(s, ScanEventView::Done);
    let (s3, a3) = scan_next(s2, ScanEventView::Done);
    lemma_walk_lists_the_rest(s3, items, 0);
    assert(s3.files =~= s.files + seq!["pkg/id_ed25519.pub.toml"@]);
}

/// From any name on, the scan of a package directory lists what is left.
proof fn lemma_walk_lists_the_rest(s: ScanView, items: Seq<(Seq<char>, Seq<Seq<u8>>)>, at: int)
    requires
        s.source == ScanSource::Directory,
        0 <= at <= items.len(),
        forall|i: int| 0 <= i < items.len() ==> named_files((#[trigger] items[i]).1).1,
    ensures
        walked(s, ScanActionView::NextItem, items, at) == (ScanActionView::Finish {
            files: s.files + directory_listing(items, at),
        }),
    decreases items.len() - at,
{
    if at < items.len() {
        assert(named_files(items[at].1).1);
        let (s2, a2) = scan_next(s, ScanEventView::Item(items[at].0));
        if is_head(items[at].0) {
            let (s3, a3) = scan_next(s2, ScanEventView::Entries(items[at].1));
            lemma_walk_lists_the_rest(s3, items, at + 1);
            assert(s3.files + directory_listing(items, at + 1) =~= s.files + directory_listing(
                items,
                at,
            ));
        } else {
            lemma_walk_lists_the_rest(s2, items, at + 1);
            assert(s2.files + directory_listing(items, at + 1) =~= s.files + directory_listing(
                items,
                at,
            ));
        }
    } else {
        assert(s.files + directory_listing(items, at) =~= s.files);
    }
}

/// The head of a package is at `var/lib/packages/`, then the whole name of the package, then
/// `.pkgar_head`.
proof fn lemma_head_of(package: Seq<char>)
    ensures
        head_of(package) == "var/lib/packages/"@ + package + ".pkgar_head"@,
{
    reveal_strlit("var/lib/packages");
    reveal_strlit("/");
    reveal_strlit("var/lib/packages/");
    assert("var/lib/packages"@ + "/"@ =~= "var/lib/packages/"@);
}

/// The head that is read for a package of the database is at `var/lib/packages/`, then the whole name
/// of the package, then `.pkgar_head`; once its entries are known it is listed under that path,
/// behind the files that it names.
pub proof fn law_a_head_is_found_by_the_whole_name(
    s: ScanView,
    package: Seq<char>,
    remote: Seq<char>,
    entries: Seq<Seq<u8>>,
)
    requires
        s.source == ScanSource::Database,
        s.at < s.db.installed.len(),
        s.db.installed[s.at as int] == (package, remote),
        s.db.pubkeys.contains(remote),
        s.db.pubkeys.len() <= usize::MAX,
        forall|i: int| 0 <= i < entries.len() ==> leads_down(path_of(#[trigger] entries[i])),
    ensures
        ({
            let path = "var/lib/packages/"@ + package + ".pkgar_head"@;
            let (s1, a1) = next_package(s);
            let (s2, a2) = scan_next(s1, ScanEventView::Entries(entries));
            &&& a1 is ReadHead
            &&& a1->path == path
            &&& s2.files.len() == s.files.len() + entries.len() + 1
            &&& s2.files.take(s.files.len() as int) == s.files
            &&& s2.files.last() == path
            &&& forall|i: int|
                0 <= i < entries.len() ==> #[trigger] s2.files[s.files.len() + i]
                    == vstd::utf8::decode_utf8(path_of(entries[i]))
        }),
{
    lemma_key_of(s.db.pubkeys, remote);
    lemma_head_of(package);
    let (s1, a1) = next_package(s);
    let (s2, a2) = scan_next(s1, ScanEventView::Entries(entries));
    law_named_files_are_the_paths(entries);
    let named = named_files(entries).0;
    assert(s2.files == s.files + named + seq![s1.head]);
    assert(s2.files.take(s.files.len() as int) =~= s.files);
    assert forall|i: int| 0 <= i < entries.len() implies #[trigger] s2.files[s.files.len() + i]
        == vstd::utf8::decode_utf8(path_of(entries[i])) by {
        assert(s2.files[s.files.len() + i] == named[i]);
    }
}

/// Two packages with different names have different heads.
pub proof fn law_different_packages_have_different_heads(a: Seq<char>, b: Seq<char>)
    requires
        head_of(a) == head_of(b),
    ensures
        a == b,
{
    let before = "var/lib/packages/"@;
    let after = ".pkgar_head"@;
    lemma_head_of(a);
    lemma_head_of(b);
    let n = before.len() as int;
    assert(head_of(a).len() == n + a.len() + after.len());
    assert(head_of(b).len() == n + b.len() + after.len());
    assert(head_of(a).subrange(n, n + a.len()) =~= a);
    assert(head_of(b).subrange(n, n + b.len()) =~= b);
}

/// Entries that all lead down name one file each, in their order: the text of the path.
pub proof fn law_named_files_are_the_paths(entries: Seq<Seq<u8>>)
    requires
        forall|i: int| 0 <= i < entries.len() ==> leads_down(path_of(#[trigger] entries[i])),
    ensures
        named_files(entries).1,
        named_files(entries).0.len() == entries.len(),
        forall|i: int|
            0 <= i < entries.len() ==> #[trigger] named_files(entries).0[i]
                == vstd::utf8::decode_utf8(path_of(entries[i])),
    decreases entries.len(),
{
    if entries.len() > 0 {
        let before = entries.drop_last();
        assert forall|i: int| 0 <= i < before.len() implies leads_down(
            path_of(#[trigger] before[i]),
        ) by {
            assert(before[i] == entries[i]);
        }
        law_named_files_are_the_paths(before);
        assert(leads_down(path_of(entries[entries.len() - 1])));
        assert forall|i: int| 0 <= i < entries.len() implies #[trigger] named_files(entries).0[i]
            == vstd::utf8::decode_utf8(path_of(entries[i])) by {
            if i < before.len() {
                assert(named_files(before).0[i] == named_files(entries).0[i]);
                assert(before[i] == entries[i]);
            }
        }
    }
}

/// The path of a field is everything before its first zero, and the whole field if it has none.
pub proof fn law_a_path_ends_at_the_first_zero(path: Seq<u8>, rest: Seq<u8>)
    requires
        forall|i: int| 0 <= i < path.len() ==> #[trigger] path[i] != 0,
    ensures
        path_of(path) == path,
        path_of(path.push(0) + rest) == path,
{
    lemma_before_nul(path, Seq::empty());
    assert(path + Seq::<u8>::empty() =~= path);
    assert(path.take(path.len() as int) =~= path);
    let tail = seq![0u8] + rest;
    lemma_before_nul(path, tail);
    assert(path + tail =~= path.push(0) + rest);
    assert((path + tail).take(path.len() as int) =~= path);
}

/// As many bytes come before the first zero as there are.
proof fn lemma_before_nul(path: Seq<u8>, rest: Seq<u8>)
    requires
        forall|i: int| 0 <= i < path.len() ==> #[trigger] path[i] != 0,
        rest.len() > 0 ==> rest[0] == 0,
    ensures
        before_nul(path + rest) == path.len(),
    decreases path.len(),
{
    if path.len() > 0 {
        let tail = path.drop_first();
        assert(path[0] != 0);
        assert forall|i: int| 0 <= i < tail.len() implies #[trigger] tail[i] != 0 by {
            assert(tail[i] == path[i + 1]);
        }
        assert((path + rest).drop_first() =~= tail + rest);
        lemma_before_nul(tail, rest);
    } else {
        assert(path + rest =~= rest);
    }
}

/// A path does not lead down if it starts at the root, if it starts with the component `.`, or if one
/// of its components is `..`; these are the only ones.
pub proof fn law_what_leads_down(before: Seq<u8>, after: Seq<u8>, path: Seq<u8>)
    ensures
        !leads_down(seq![47u8] + after),
        !leads_down(seq![46u8]),
        !leads_down(seq![46u8, 47u8] + after),
        !leads_down(seq![46u8, 46u8]),
        !leads_down(seq![46u8, 46u8, 47u8] + after),
        !leads_down(before + seq![47u8, 46u8, 46u8]),
        !leads_down(before + seq![47u8, 46u8, 46u8, 47u8] + after),
        path.len() > 0 && path[0] != 47 && path[0] != 46 && (forall|i: int|
            0 <= i && i + 2 < path.len() && #[trigger] path[i] == 47 && path[i + 1] == 46
                ==> path[i + 2] != 46) ==> leads_down(path),
        path.len() == 0 ==> leads_down(path),
{
    let a = seq![47u8] + after;
    assert(a[0] == 47);
    let b = seq![46u8, 47u8] + after;
    assert(b[0] == 46 && b[1] == 47);
    let c = seq![46u8, 46u8];
    assert(component_start(c, 0));
    let d = seq![46u8, 46u8, 47u8] + after;
    assert(component_start(d, 0));
    assert(d[0] == 46 && d[1] == 46 && d[2] == 47);
    let n = before.len() as int;
    let e = before + seq![47u8, 46u8, 46u8];
    assert(e[n] == 47 && e[n + 1] == 46 && e[n + 2] == 46);
    assert(component_start(e, n + 1));
    let f = before + seq![47u8, 46u8, 46u8, 47u8] + after;
    assert(f[n] == 47 && f[n + 1] == 46 && f[n + 2] == 46 && f[n + 3] == 47);
    assert(component_start(f, n + 1));
    if path.len() > 0 && path[0] != 47 && path[0] != 46 && (forall|i: int|
        0 <= i && i + 2 < path.len() && #[trigger] path[i] == 47 && path[i + 1] == 46 ==> path[i
            + 2] != 46) {
        assert forall|i: int| #[trigger] component_start(path, i) implies !(i + 1 < path.len()
            && path[i] == 46 && path[i + 1] == 46 && (i + 2 == path.len() || path[i + 2] == 47)) by {
            if i > 0 {
                assert(path[i - 1] == 47);
            }
        }
    }
}

/// A name is that of a head exactly if it is something, more than nothing, with `.pkgar_head` behind
/// it.
pub proof fn law_a_head_is_known_by_its_extension(stem: Seq<char>, name: Seq<char>)
    ensures
        stem.len() > 0 ==> is_head(stem + ".pkgar_head"@),
        is_head(name) ==> name.len() > 11 && name == name.take(name.len() - 11) + ".pkgar_head"@,
        !is_head(".pkgar_head"@),
{
    reveal_strlit(".pkgar_head");
    let full = stem + ".pkgar_head"@;
    assert(full.skip(full.len() - 11) =~= ".pkgar_head"@);
    if is_head(name) {
        assert(name =~= name.take(name.len() - 11) + name.skip(name.len() - 11));
    }
}

/// A scan begins with the database or with the key, whichever it was made for. The key is listed, and
/// then the directory; each name in it that is a head's is read from `pkg/`, and every other is
/// passed over with nothing changed. At the end what was collected is handed out.
pub proof fn law_a_directory_is_scanned_name_by_name(s: ScanView, name: Seq<char>)
    ensures
        s.source == ScanSource::Database ==> scan_next(s, ScanEventView::Begin).1 is ReadDatabase
            && scan_next(s, ScanEventView::Begin).0.step == ScanStep::Database,
        s.source == ScanSource::Directory ==> scan_next(s, ScanEventView::Begin).1 is ReadKey
            && scan_next(s, ScanEventView::Begin).0.step == ScanStep::Key,
        scan_next(s, ScanEventView::Begin).0.files == s.files,
        s.step == ScanStep::Key ==> scan_next(s, ScanEventView::Done).1 is OpenDirectory
            && scan_next(s, ScanEventView::Done).0.step == ScanStep::Directory && scan_next(
            s,
            ScanEventView::Done,
        ).0.files == s.files.push("pkg/id_ed25519.pub.toml"@),
        s.step == ScanStep::Directory ==> scan_next(s, ScanEventView::Done).1 is NextItem
            && scan_next(s, ScanEventView::Done).0.step == ScanStep::Item && scan_next(
            s,
            ScanEventView::Done,
        ).0.files == s.files,
        is_head(name) ==> scan_next(s, ScanEventView::Item(name)).1 == (ScanActionView::ReadHead {
            path: "pkg/"@ + name,
            key: 0,
        }) && scan_next(s, ScanEventView::Item(name)).0.head == "pkg/"@ + name && scan_next(
            s,
            ScanEventView::Item(name),
        ).0.files == s.files,
        !is_head(name) ==> scan_next(s, ScanEventView::Item(name)) == (s, ScanActionView::NextItem),
        scan_next(s, ScanEventView::NoItem).1 == (ScanActionView::Finish { files: s.files }),
{
}

/// The database is listed first, and its first package is asked for; a database without packages
/// lists only itself.
pub proof fn law_the_database_is_listed_first(s: ScanView, db: DbView)
    requires
        s.source == ScanSource::Database,
    ensures
        ({
            let (s2, a2) = scan_next(s, ScanEventView::Database(db));
            &&& s2.files == s.files.push("etc/pkg/packages.toml"@)
            &&& db.installed.len() == 0 ==> a2 == (ScanActionView::Finish {
                files: s.files.push("etc/pkg/packages.toml"@),
            })
            &&& db.installed.len() > 0 && key_of(db.pubkeys, db.installed[0].1) is Some
                ==> a2 is ReadHead && a2->path == "var/lib/packages/"@ + db.installed[0].0
                + ".pkgar_head"@ && s2.at == 1
        }),
{
    if db.installed.len() > 0 {
        lemma_head_of(db.installed[0].0);
    }
}

/// What is said of a package whose remote has no key names both; a database that cannot be read is
/// said to be one, and any other reason is passed on as it is.
pub proof fn law_a_failed_scan_says_why(
    s: ScanView,
    package: Seq<char>,
    remote: Seq<char>,
    reason: Seq<char>,
)
    ensures
        no_key(package, remote) == "package "@ + package + " names remote "@ + remote
            + ", which has no public key in the package database"@,
        s.step == ScanStep::Database ==> scan_next(s, ScanEventView::Failed(reason)).1 == (
        ScanActionView::Fail { reason: "cannot read the package database: "@ + reason }),
        s.step != ScanStep::Database ==> scan_next(s, ScanEventView::Failed(reason)).1 == (
        ScanActionView::Fail { reason }),
{
}

/// The key of a remote is the first of its name.
pub proof fn law_the_first_key_of_a_remote_counts(
    pubkeys: Seq<Seq<char>>,
    remote: Seq<char>,
    i: int,
)
    requires
        0 <= i < pubkeys.len() <= usize::MAX,
        pubkeys[i] == remote,
        forall|j: int| 0 <= j < i ==> #[trigger] pubkeys[j] != remote,
    ensures
        key_of(pubkeys, remote) is Some,
        key_of(pubkeys, remote)->Some_0 as int == i,
    decreases pubkeys.len(),
{
    let before = pubkeys.drop_last();
    lemma_key_of(before, remote);
    if i < before.len() {
        assert(before[i] == remote);
        assert forall|j: int| 0 <= j < i implies #[trigger] before[j] != remote by {
            assert(before[j] == pubkeys[j]);
        }
        law_the_first_key_of_a_remote_counts(before, remote, i);
    } else {
        if key_of(before, remote) is Some {
            let j = key_of(before, remote)->Some_0 as int;
            assert(before[j] == pubkeys[j]);
        }
    }
}

/// Every file of every package is listed, and so is every head, each under its own path.
pub proof fn law_every_file_of_every_package_is_listed(
    db: DbView,
    heads: Seq<Seq<Seq<u8>>>,
    at: int,
    i: int,
    j: int,
)
    requires
        0 <= at <= i < heads.len(),
        0 <= j < heads[i].len(),
        forall|k: int| 0 <= k < heads[i].len() ==> leads_down(path_of(#[trigger] heads[i][k])),
    ensures
        listing(db, heads, at).contains(vstd::utf8::decode_utf8(path_of(heads[i][j]))),
        listing(db, heads, at).contains(
            "var/lib/packages/"@ + db.installed[i].0 + ".pkgar_head"@,
        ),
    decreases i - at,
{
    let named = named_files(heads[at]).0;
    let head = seq![head_of(db.installed[at].0)];
    let rest = listing(db, heads, at + 1);
    let all = listing(db, heads, at);
    assert(all == named + head + rest);
    let file = vstd::utf8::decode_utf8(path_of(heads[i][j]));
    let path = "var/lib/packages/"@ + db.installed[i].0 + ".pkgar_head"@;
    if i == at {
        law_named_files_are_the_paths(heads[at]);
        lemma_head_of(db.installed[at].0);
        assert(all[j] == named[j]);
        assert(all[named.len() as int] == head[0]);
    } else {
        law_every_file_of_every_package_is_listed(db, heads, at + 1, i, j);
        let m = choose|m: int| 0 <= m < rest.len() && rest[m] == file;
        let n = choose|n: int| 0 <= n < rest.len() && rest[n] == path;
        assert(all[named.len() + 1 + m] == file);
        assert(all[named.len() + 1 + n] == path);
    }
}

/// What is said of a path that does not lead down names the component that it may not have, and the
/// path.
pub proof fn law_a_refused_path_is_told_with_its_component(after: Seq<u8>, path: Seq<u8>)
    ensures
        odd_component(seq![47u8] + after) == "/"@,
        odd_component(seq![46u8]) == "."@,
        odd_component(seq![46u8, 47u8] + after) == "."@,
        !leads_down(path) && path[0] != 47 && !(path[0] == 46 && (path.len() == 1 || path[1] == 47))
            ==> odd_component(path) == ".."@,
        path_refusal(path, shown_path(path)) == "Invalid component '"@ + odd_component(path)
            + "' in path '"@ + shown_path(path) + "' while parsing entry"@,
{
    let a = seq![47u8] + after;
    assert(a[0] == 47);
    let b = seq![46u8, 47u8] + after;
    assert(b[0] == 46 && b[1] == 47);
}

/// Once the entries of a head are known, its files and then the head itself are added to the list,
/// and the scan goes on: with the next name of the directory, with the next package of the database,
/// or to its end when there is none left.
pub proof fn law_a_scan_goes_on_after_each_head(s: ScanView, entries: Seq<Seq<u8>>)
    requires
        s.step == ScanStep::Head,
        s.at <= s.db.installed.len(),
        s.db.pubkeys.len() <= usize::MAX,
        forall|i: int| 0 <= i < entries.len() ==> leads_down(path_of(#[trigger] entries[i])),
    ensures
        ({
            let (s2, a2) = scan_next(s, ScanEventView::Entries(entries));
            let files = s.files + Seq::new(
                entries.len(),
                |i: int| vstd::utf8::decode_utf8(path_of(entries[i])),
            ) + seq![s.head];
            &&& s2.files == files
            &&& s2.source == s.source
            &&& s2.db == s.db
            &&& s.source == ScanSource::Directory ==> a2 is NextItem && s2.step == ScanStep::Item
            &&& s.source == ScanSource::Database && s.at == s.db.installed.len() ==> a2 == (
            ScanActionView::Finish { files })
            &&& s.source == ScanSource::Database && s.at < s.db.installed.len()
                && s.db.pubkeys.contains(s.db.installed[s.at as int].1) ==> a2 is ReadHead
                && a2->path == "var/lib/packages/"@ + s.db.installed[s.at as int].0
                + ".pkgar_head"@ && s2.at == s.at + 1 && s2.step == ScanStep::Head
        }),
{
    law_named_files_are_the_paths(entries);
    assert(named_files(entries).0 =~= Seq::new(
        entries.len(),
        |i: int| vstd::utf8::decode_utf8(path_of(entries[i])),
    ));
    if s.at < s.db.installed.len() {
        lemma_head_of(s.db.installed[s.at as int].0);
        lemma_key_of(s.db.pubkeys, s.db.installed[s.at as int].1);
    }
}

/// Whatever a scan asks for, it takes every answer to it: any database, any name, any head whose paths
/// are text, and any failure.
pub proof fn law_every_answer_to_a_scan_is_awaited(
    s: ScanView,
    e: ScanEventView,
    db: DbView,
    name: Seq<char>,
    entries: Seq<Seq<u8>>,
    reason: Seq<char>,
)
    requires
        scan_awaits(s, e),
    ensures
        ({
            let (t, a) = scan_next(s, e);
            &&& a is ReadDatabase ==> scan_awaits(t, ScanEventView::Database(db))
            &&& a is ReadKey || a is OpenDirectory ==> scan_awaits(t, ScanEventView::Done)
            &&& a is NextItem ==> scan_awaits(t, ScanEventView::Item(name)) && scan_awaits(
                t,
                ScanEventView::NoItem,
            )
            &&& a is ReadHead && (forall|i: int|
                0 <= i < entries.len() ==> vstd::utf8::valid_utf8(
                    path_of(#[trigger] entries[i]),
                )) ==> scan_awaits(t, ScanEventView::Entries(entries))
            &&& !(a is Finish || a is Fail) ==> scan_awaits(t, ScanEventView::Failed(reason))
        }),
{
}

/// A path that is text is shown as that text.
pub proof fn law_a_path_is_shown_as_its_text(text: Seq<char>)
    ensures
        shown_path(vstd::utf8::encode_utf8(text)) == text,
{
    vstd::utf8::encode_utf8_valid_utf8(text);
    vstd::utf8::encode_utf8_decode_utf8(text);
}

} // verus!
