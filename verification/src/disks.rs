//! Finding the disks of a machine, showing them, and asking which one to erase.
//!
//! On Redox the path of a disk is its identity, and two disks can differ in one character of it.
//! So a disk is named by its whole path, typed exactly as shown, and never by its place in a list.
use vstd::prelude::*;

use crate::text;

verus! {

/// What we can honestly say about whether a disk can be unplugged.
///
/// `Unknown` is a real answer and is printed as such: anything here is inferred from the
/// interface, and an inference stated as a fact is how someone ends up erasing the wrong disk with
/// confidence.
#[derive(Debug, Clone, Copy, PartialEq, Eq, Structural)]
pub enum Removable {
    Yes,
    No,
    Unknown,
}

/// How a removability is printed.
pub open spec fn description(r: Removable) -> Seq<char> {
    match r {
        Removable::Yes => "yes (inferred from the interface)"@,
        Removable::No => "no (inferred from the interface)"@,
        Removable::Unknown =>
            "unknown -- Redox exposes no removability flag for this interface"@,
    }
}

impl Removable {
    /// How the answer is printed.
    pub fn describe(self) -> (r: &'static str)
        ensures
            r@ == description(self),
    {
        match self {
            Removable::Yes => "yes (inferred from the interface)",
            Removable::No => "no (inferred from the interface)",
            Removable::Unknown => "unknown -- Redox exposes no removability flag for this interface",
        }
    }
}

/// What follows the last `-` of a scheme's name; the whole name if there is none.
pub open spec fn driver(scheme_dir: Seq<char>) -> Seq<char> {
    text::pieces(scheme_dir, '-').last()
}

/// The interface that a driver stands for: the driver itself, but for the one that was measured.
pub open spec fn interface_name(driver: Seq<char>) -> Seq<char> {
    if driver == "nvme"@ {
        "NVMe"@
    } else {
        driver
    }
}

/// Whether a disk behind a driver can be unplugged. Only `nvme` was ever measured.
pub open spec fn removability(driver: Seq<char>) -> Removable {
    if driver == "nvme"@ {
        Removable::No
    } else {
        Removable::Unknown
    }
}

/// Interface and removability, derived from the name of the disk scheme's directory. What follows
/// the last `-` names the driver, and that is all that is trusted: only `nvme` is backed by
/// measurement, and everything else is handed back as it stands.
pub fn interface_of(scheme_dir: &str) -> (r: (String, Removable))
    ensures
        r.0@ == interface_name(driver(scheme_dir@)),
        r.1 == removability(driver(scheme_dir@)),
{
    let parts = text::split(scheme_dir, '-');
    let ghost all = text::pieces(scheme_dir@, '-');
    let token = parts[parts.len() - 1].clone();
    assert(token@ == all.last());
    if text::same_text(token.as_str(), "nvme") {
        ("NVMe".to_owned(), Removable::No)
    } else {
        (token, Removable::Unknown)
    }
}

/// The components of a path, from its pieces: empty pieces and `.` do not count.
pub open spec fn components(parts: Seq<Seq<char>>) -> Seq<Seq<char>>
    decreases parts.len(),
{
    if parts.len() == 0 {
        Seq::empty()
    } else if parts.last().len() == 0 || parts.last() == "."@ {
        components(parts.drop_last())
    } else {
        components(parts.drop_last()).push(parts.last())
    }
}

/// The name of the directory that a path lies in; nothing if the path shows none.
pub open spec fn parent_name(path: Seq<char>) -> Seq<char> {
    let c = components(text::pieces(path, '/'));
    if c.len() >= 2 && c[c.len() - 2] != ".."@ {
        c[c.len() - 2]
    } else {
        Seq::empty()
    }
}

/// The scheme directory of a disk path: `/scheme/disk.pci-...-nvme/1` gives `disk.pci-...-nvme`.
pub fn scheme_dir_of(path: &str) -> (r: String)
    ensures
        r@ == parent_name(path@),
{
    let parts = text::split(path, '/');
    let ghost all = text::pieces(path@, '/');
    let mut kept: Vec<usize> = Vec::new();
    let mut i: usize = 0;
    assert(all.take(0) =~= Seq::empty());
    while i < parts.len()
        invariant
            i <= parts@.len(),
            all == text::texts(parts@),
            kept@.len() == components(all.take(i as int)).len(),
            forall|k: int|
                0 <= k < kept@.len() ==> (#[trigger] kept@[k]) < i && components(
                    all.take(i as int),
                )[k] == all[kept@[k] as int],
        decreases parts@.len() - i,
    {
        let ghost prefix = all.take(i + 1);
        assert(prefix.drop_last() =~= all.take(i as int));
        assert(prefix.last() == parts@[i as int]@);
        if !parts[i].as_str().is_empty() && !text::same_text(parts[i].as_str(), ".") {
            kept.push(i);
        }
        i = i + 1;
    }
    assert(all.take(i as int) =~= all);
    let n: usize = kept.len();
    if n >= 2 {
        let at: usize = kept[n - 2];
        assert(parts@[at as int]@ == all[at as int]);
        if !text::same_text(parts[at].as_str(), "..") {
            return parts[at].clone();
        }
    }
    String::new()
}

/// Does what was typed name the disk with this path? Exactly, but for white space around it.
pub open spec fn names_disk(typed: Seq<char>, path: Seq<char>) -> bool {
    text::trimmed(typed).len() > 0 && text::trimmed(typed) == path
}

/// Does what the operator typed name the disk they were shown?
///
/// Compared as an exact string after trimming, never as a path: a path comparison would take
/// `/scheme/disk/1/` for `/scheme/disk/1`, and normalisation that the operator cannot see must not
/// happen in the one prompt whose answer erases a disk. A path that is no text (`None`) cannot be
/// retyped reliably and is refused.
pub fn confirms(typed: &str, path: Option<&str>) -> (r: bool)
    ensures
        r == (path is Some && names_disk(typed@, path->Some_0@)),
{
    let typed = text::trim(typed);
    match path {
        Some(p) => !typed.as_str().is_empty() && text::same_text(typed.as_str(), p),
        None => false,
    }
}

/// A disk as it is shown.
#[derive(Debug)]
pub struct DiskRow {
    /// Its path, which is its identity.
    pub path: String,
    /// Its size, written out.
    pub size: String,
}

/// How one disk is shown.
pub open spec fn row_text(path: Seq<char>, size: Seq<char>) -> Seq<char> {
    let d = driver(parent_name(path));
    "\n  \u{1b}[1m"@ + path + "\u{1b}[0m\n      size:       "@ + size + "\n      interface:  "@
        + interface_name(d) + "\n      removable:  "@ + description(removability(d)) + "\n"@
}

/// How a list of disks is shown.
pub open spec fn rows_text(rows: Seq<DiskRow>) -> Seq<char>
    decreases rows.len(),
{
    if rows.len() == 0 {
        Seq::empty()
    } else {
        rows_text(rows.drop_last()) + row_text(rows.last().path@, rows.last().size@)
    }
}

/// Shows the disks and asks which one to erase. Without disks there is nothing to ask, and the
/// error says so.
pub fn disk_menu(rows: &Vec<DiskRow>) -> (r: Result<String, String>)
    ensures
        match r {
            Ok(menu) => rows@.len() > 0 && menu@ == "\nDisks found:\n"@ + rows_text(rows@)
                + "\n\u{1b}[1mEVERYTHING on the disk you name will be ERASED.\u{1b}[0m\nType its full path exactly as shown above, or 'q' to quit.\nDisk to erase: "@,
            Err(message) => rows@.len() == 0 && message@
                == "redox_installer_tui: no RedoxFS partition found\nredox_installer_tui: this tool is used to overwrite unmounted RedoxFS disk in Redox OS\n"@,
        },
{
    if rows.len() == 0 {
        return Err(
            "redox_installer_tui: no RedoxFS partition found\nredox_installer_tui: this tool is used to overwrite unmounted RedoxFS disk in Redox OS\n".to_owned(),
        );
    }
    let ghost head = "\nDisks found:\n"@;
    let mut r = "\nDisks found:\n".to_owned();
    let mut i: usize = 0;
    assert(rows@.take(0) =~= Seq::empty());
    assert(r@ =~= head + rows_text(rows@.take(0)));
    while i < rows.len()
        invariant
            i <= rows@.len(),
            r@ == head + rows_text(rows@.take(i as int)),
        decreases rows@.len() - i,
    {
        assert(rows@.take(i + 1).drop_last() =~= rows@.take(i as int));
        let scheme = scheme_dir_of(rows[i].path.as_str());
        let (interface, removable) = interface_of(scheme.as_str());
        r.append("\n  \u{1b}[1m");
        r.append(rows[i].path.as_str());
        r.append("\u{1b}[0m\n      size:       ");
        r.append(rows[i].size.as_str());
        r.append("\n      interface:  ");
        r.append(interface.as_str());
        r.append("\n      removable:  ");
        r.append(removable.describe());
        r.append("\n");
        i = i + 1;
        assert(r@ =~= head + rows_text(rows@.take(i as int)));
    }
    assert(rows@.take(i as int) =~= rows@);
    r.append(
        "\n\u{1b}[1mEVERYTHING on the disk you name will be ERASED.\u{1b}[0m\nType its full path exactly as shown above, or 'q' to quit.\nDisk to erase: ",
    );
    Ok(r)
}

/// What came of reading a line.
#[derive(Debug)]
pub enum LineRead {
    /// The input ended.
    End,
    /// Reading failed, for this reason.
    Failed(String),
    /// This line was typed.
    Line(String),
}

/// What follows from an answer.
#[derive(Debug, PartialEq, Eq)]
pub enum Choice {
    /// Erase the disk with this path.
    Erase(String),
    /// Say this and stop: nothing was written.
    Stop(String),
    /// Say this and ask again.
    Again(String),
}

/// The paths of a list of disks.
pub open spec fn paths_of(disks: Seq<(String, u64)>) -> Seq<Seq<char>> {
    disks.map_values(|d: (String, u64)| d.0@)
}

/// Is the answer the letter that quits?
pub open spec fn quits(typed: Seq<char>) -> bool {
    typed == seq!['q'] || typed == seq!['Q']
}

/// What is said to an answer that names no disk, quoted.
pub open spec fn refusal(quoted: Seq<char>) -> Seq<char> {
    "\nrefused: "@ + quoted
        + " does not name any disk listed above. Nothing was written.\n"@
}

/// Says that an answer, quoted, names no disk.
pub fn say_refused(quoted: &str) -> (r: String)
    ensures
        r@ == refusal(quoted@),
{
    let mut r = "\nrefused: ".to_owned();
    r.append(quoted);
    r.append(" does not name any disk listed above. Nothing was written.\n");
    r
}

/// What follows from an answer to [`disk_menu`].
pub open spec fn decides(disks: Seq<(String, u64)>, input: LineRead, choice: Choice) -> bool {
    match input {
        LineRead::End => choice is Stop && choice->Stop_0@
            == "redox_installer_tui: failed to read line: end of input\n"@,
        LineRead::Failed(reason) => choice is Stop && choice->Stop_0@
            == "redox_installer_tui: failed to read line: "@ + reason@ + "\n"@,
        LineRead::Line(line) => {
            let typed = text::trimmed(line@);
            if quits(typed) {
                choice is Stop && choice->Stop_0@
                    == "redox_installer_tui: nothing was written; quitting at the operator's request\n"@
            } else if typed.len() > 0 && paths_of(disks).contains(typed) {
                choice is Erase && choice->Erase_0@ == typed
            } else {
                choice is Again && choice->Again_0@ == refusal(text::debug_text(typed))
            }
        },
    }
}

/// Takes the answer to [`disk_menu`]. A disk is erased only if it is listed and its whole path was
/// typed; the end of the input and `q` write nothing.
pub fn choose_disk(disks: &Vec<(String, u64)>, input: LineRead) -> (r: Choice)
    ensures
        decides(disks@, input, r),
{
    let line = match input {
        LineRead::End => {
            return Choice::Stop(
                "redox_installer_tui: failed to read line: end of input\n".to_owned(),
            );
        },
        LineRead::Failed(reason) => {
            let mut message = "redox_installer_tui: failed to read line: ".to_owned();
            message.append(reason.as_str());
            message.append("\n");
            return Choice::Stop(message);
        },
        LineRead::Line(line) => line,
    };
    let typed = text::trim(line.as_str());
    proof {
        reveal_strlit("q");
        reveal_strlit("Q");
        assert("q"@ =~= seq!['q']);
        assert("Q"@ =~= seq!['Q']);
        text::lemma_trimmed_again(line@);
    }
    if text::same_text(typed.as_str(), "q") || text::same_text(typed.as_str(), "Q") {
        return Choice::Stop(
            "redox_installer_tui: nothing was written; quitting at the operator's request\n".to_owned(),
        );
    }
    let ghost paths = paths_of(disks@);
    let mut i: usize = 0;
    while i < disks.len()
        invariant
            i <= disks@.len(),
            paths == paths_of(disks@),
            typed@ == text::trimmed(line@),
            text::trimmed(typed@) == typed@,
            forall|k: int| 0 <= k < i ==> !(typed@.len() > 0 && #[trigger] paths[k] == typed@),
            input == LineRead::Line(line),
            !quits(typed@),
        decreases disks@.len() - i,
    {
        assert(paths[i as int] == disks@[i as int].0@);
        if confirms(typed.as_str(), Some(disks[i].0.as_str())) {
            assert(paths.contains(typed@));
            return Choice::Erase(disks[i].0.clone());
        }
        i = i + 1;
    }
    let quoted = text::quote(typed.as_str());
    Choice::Again(say_refused(quoted.as_str()))
}

/// What is known of an entry of a disk scheme.
#[derive(Debug)]
pub struct DiskEntry {
    /// Its name, if that is text.
    pub name: Option<String>,
    /// Its path.
    pub path: String,
    /// Its size in bytes, if that could be found out.
    pub size: Option<u64>,
}

/// A scheme and the entries that were listed in it.
#[derive(Debug)]
pub struct Scheme {
    /// Its name, if that is text.
    pub name: Option<String>,
    /// Its entries; none if the scheme is no directory or could not be listed.
    pub entries: Vec<DiskEntry>,
}

/// The name of a scheme that holds disks.
pub open spec fn holds_disks(name: Seq<char>) -> bool {
    "disk"@.is_prefix_of(name)
}

/// The name of a whole disk: a partition has a `p` in its name.
pub open spec fn whole_disk(name: Seq<char>) -> bool {
    !name.contains('p')
}

/// Is this the name of a scheme that holds disks?
pub fn is_disk_scheme(name: &str) -> (r: bool)
    ensures
        r == holds_disks(name@),
{
    text::starts_with(name, "disk")
}

/// Is this the name of a whole disk rather than of a partition?
pub fn is_whole_disk(name: &str) -> (r: bool)
    ensures
        r == whole_disk(name@),
{
    !text::has_char(name, 'p')
}

/// Is the entry a whole disk that has a size?
pub open spec fn is_disk(e: DiskEntry) -> bool {
    e.name is Some && whole_disk(e.name->Some_0@) && e.size is Some && e.size->Some_0 > 0
}

/// The disks among these entries, in their order.
pub open spec fn disks_in(entries: Seq<DiskEntry>) -> Seq<(Seq<char>, u64)>
    decreases entries.len(),
{
    if entries.len() == 0 {
        Seq::empty()
    } else if is_disk(entries.last()) {
        disks_in(entries.drop_last()).push((entries.last().path@, entries.last().size->Some_0))
    } else {
        disks_in(entries.drop_last())
    }
}

/// The disks of these schemes, in their order.
pub open spec fn disks_of(schemes: Seq<Scheme>) -> Seq<(Seq<char>, u64)>
    decreases schemes.len(),
{
    if schemes.len() == 0 {
        Seq::empty()
    } else {
        let s = schemes.last();
        if s.name is Some && holds_disks(s.name->Some_0@) {
            disks_of(schemes.drop_last()) + disks_in(s.entries@)
        } else {
            disks_of(schemes.drop_last())
        }
    }
}

/// What a list of disks says.
pub open spec fn disk_views(disks: Seq<(String, u64)>) -> Seq<(Seq<char>, u64)> {
    disks.map_values(|d: (String, u64)| (d.0@, d.1))
}

/// Adds the disks among these entries.
fn add_disks(paths: &mut Vec<(String, u64)>, entries: &Vec<DiskEntry>)
    ensures
        disk_views(final(paths)@) == disk_views(old(paths)@) + disks_in(entries@),
{
    let ghost start = disk_views(paths@);
    let mut i: usize = 0;
    assert(entries@.take(0) =~= Seq::empty());
    assert(start + disks_in(entries@.take(0)) =~= start);
    while i < entries.len()
        invariant
            i <= entries@.len(),
            disk_views(paths@) == start + disks_in(entries@.take(i as int)),
        decreases entries@.len() - i,
    {
        let ghost before = disk_views(paths@);
        assert(entries@.take(i + 1).drop_last() =~= entries@.take(i as int));
        match (&entries[i].name, entries[i].size) {
            (Some(name), Some(size)) => {
                if is_whole_disk(name.as_str()) && size > 0 {
                    let path = entries[i].path.clone();
                    paths.push((path, size));
                    assert(disk_views(paths@) =~= before.push((path@, size)));
                    assert(disk_views(paths@) =~= start + disks_in(entries@.take(i + 1)));
                }
            },
            _ => {},
        }
        i = i + 1;
    }
    assert(entries@.take(i as int) =~= entries@);
}

/// Adds the disks of a machine to a list: the entries of its disk schemes that are whole disks with
/// a size.
pub fn disk_paths(paths: &mut Vec<(String, u64)>, schemes: &Vec<Scheme>)
    ensures
        disk_views(final(paths)@) == disk_views(old(paths)@) + disks_of(schemes@),
{
    let ghost start = disk_views(paths@);
    let mut i: usize = 0;
    assert(schemes@.take(0) =~= Seq::empty());
    assert(start + disks_of(schemes@.take(0)) =~= start);
    while i < schemes.len()
        invariant
            i <= schemes@.len(),
            disk_views(paths@) == start + disks_of(schemes@.take(i as int)),
        decreases schemes@.len() - i,
    {
        assert(schemes@.take(i + 1).drop_last() =~= schemes@.take(i as int));
        match &schemes[i].name {
            Some(name) => {
                if is_disk_scheme(name.as_str()) {
                    add_disks(paths, &schemes[i].entries);
                    assert(disk_views(paths@) =~= start + disks_of(schemes@.take(i + 1)));
                }
            },
            None => {},
        }
        i = i + 1;
    }
    assert(schemes@.take(i as int) =~= schemes@);
}

/// One answer never names two disks: a path that differs in a single character from the one that
/// was typed is another disk, and is refused.
pub proof fn law_one_answer_names_one_disk(typed: Seq<char>, disk: Seq<char>, other: Seq<char>)
    requires
        names_disk(typed, disk),
        other != disk,
    ensures
        !names_disk(typed, other),
{
}

/// White space around the path is the only latitude: it changes nothing, be it the newline of the
/// terminal.
pub proof fn law_space_around_the_path_is_ignored(
    before: Seq<char>,
    path: Seq<char>,
    after: Seq<char>,
)
    requires
        forall|i: int| 0 <= i < before.len() ==> text::is_space(#[trigger] before[i]),
        forall|i: int| 0 <= i < after.len() ==> text::is_space(#[trigger] after[i]),
        path.len() > 0,
        !text::is_space(path[0]),
        !text::is_space(path.last()),
    ensures
        names_disk(before + path + after, path),
{
    assert(before + path + after =~= before + (path + after));
    text::lemma_trim_start_of(before, path + after);
    assert((path + after)[0] == path[0]);
    text::lemma_trim_end_of(path, after);
}

/// A disk is erased only on a line that is its path, and only if it is listed: no other line, no
/// end of input, and no reading error writes anything.
pub proof fn law_only_a_listed_disk_is_erased(
    disks: Seq<(String, u64)>,
    input: LineRead,
    choice: Choice,
)
    requires
        decides(disks, input, choice),
        choice is Erase,
    ensures
        input is Line,
        names_disk(input->Line_0@, choice->Erase_0@),
        paths_of(disks).contains(choice->Erase_0@),
{
}

/// Removability is claimed for the one interface that was measured, and for no other.
pub proof fn law_removability_is_not_guessed(scheme_dir: Seq<char>)
    ensures
        removability(driver(scheme_dir)) != Removable::Unknown ==> driver(scheme_dir) == "nvme"@,
{
}

/// The interface is what follows the last `-` of the scheme's name, as it stands, but for `nvme`,
/// which is the only one of which removability is known.
pub proof fn law_the_interface_follows_the_last_dash(before: Seq<char>, token: Seq<char>)
    requires
        !token.contains('-'),
    ensures
        ({
            let name = before + seq!['-'] + token;
            &&& token != "nvme"@ ==> interface_name(driver(name)) == token && removability(
                driver(name),
            ) == Removable::Unknown
            &&& token == "nvme"@ ==> interface_name(driver(name)) == "NVMe"@ && removability(
                driver(name),
            ) == Removable::No
        }),
{
    text::law_pieces_join(before, token, '-');
    text::law_a_text_without_separator_is_one_piece(token, '-');
    assert(text::pieces(before + seq!['-'] + token, '-').last() == token);
}

/// A scheme's name without a `-` is its own interface.
pub proof fn law_a_name_without_dash_is_the_interface(name: Seq<char>)
    requires
        !name.contains('-'),
    ensures
        name != "nvme"@ ==> interface_name(driver(name)) == name && removability(driver(name))
            == Removable::Unknown,
        name == "nvme"@ ==> interface_name(driver(name)) == "NVMe"@ && removability(driver(name))
            == Removable::No,
{
    text::law_a_text_without_separator_is_one_piece(name, '-');
}

/// Each answer to whether a disk can be unplugged has its own words, and says when it is inferred.
pub proof fn law_removability_is_described_in_words()
    ensures
        description(Removable::Yes) == "yes (inferred from the interface)"@,
        description(Removable::No) == "no (inferred from the interface)"@,
        description(Removable::Unknown)
            == "unknown -- Redox exposes no removability flag for this interface"@,
{
}

/// The components of two lists of pieces are those of the one and those of the other.
proof fn lemma_components_join(a: Seq<Seq<char>>, b: Seq<Seq<char>>)
    ensures
        components(a + b) == components(a) + components(b),
    decreases b.len(),
{
    if b.len() > 0 {
        assert((a + b).drop_last() =~= a + b.drop_last());
        lemma_components_join(a, b.drop_last());
        assert(components(a + b) =~= components(a) + components(b));
    } else {
        assert(a + b =~= a);
        assert(components(a) + components(b) =~= components(a));
    }
}

/// Is this a name that a path can have between its separators, other than `.`?
pub open spec fn is_name(name: Seq<char>) -> bool {
    name.len() > 0 && name != "."@ && !name.contains('/')
}

/// A name is its own only component.
proof fn lemma_name_is_component(name: Seq<char>)
    requires
        is_name(name),
    ensures
        components(text::pieces(name, '/')) == seq![name],
{
    text::law_a_text_without_separator_is_one_piece(name, '/');
    assert(seq![name].drop_last() =~= Seq::empty());
    assert(components(Seq::empty()) =~= Seq::empty());
    assert(components(seq![name]) =~= seq![name]);
}

/// The scheme directory of a path is the name before the last one, whatever comes before that; `..`
/// names none.
pub proof fn law_the_scheme_is_the_name_before_the_last(
    before: Seq<char>,
    dir: Seq<char>,
    name: Seq<char>,
)
    requires
        is_name(dir),
        is_name(name),
    ensures
        dir != ".."@ ==> parent_name(before + seq!['/'] + dir + seq!['/'] + name) == dir,
        dir != ".."@ ==> parent_name(dir + seq!['/'] + name) == dir,
        dir == ".."@ ==> parent_name(before + seq!['/'] + dir + seq!['/'] + name) == Seq::<
            char,
        >::empty(),
{
    let head = before + seq!['/'] + dir;
    lemma_name_is_component(dir);
    lemma_name_is_component(name);
    text::law_pieces_join(before, dir, '/');
    text::law_pieces_join(head, name, '/');
    text::law_pieces_join(dir, name, '/');
    lemma_components_join(text::pieces(before, '/'), text::pieces(dir, '/'));
    lemma_components_join(text::pieces(head, '/'), text::pieces(name, '/'));
    lemma_components_join(text::pieces(dir, '/'), text::pieces(name, '/'));
}

/// A path of one name lies in no directory that it shows.
pub proof fn law_a_single_name_shows_no_scheme(name: Seq<char>)
    requires
        is_name(name),
    ensures
        parent_name(name) == Seq::<char>::empty(),
        parent_name(seq!['/'] + name) == Seq::<char>::empty(),
{
    lemma_name_is_component(name);
    let none = Seq::<char>::empty();
    text::law_a_text_without_separator_is_one_piece(none, '/');
    text::law_pieces_join(none, name, '/');
    assert(none + seq!['/'] + name =~= seq!['/'] + name);
    lemma_components_join(seq![none], text::pieces(name, '/'));
    assert(seq![none].drop_last() =~= Seq::empty());
    assert(components(Seq::empty()) =~= Seq::empty());
    assert(components(seq![none]) =~= Seq::empty());
}

/// Repeated separators, `.` between separators, and either of them at the end change nothing.
pub proof fn law_empty_names_and_dots_do_not_count(a: Seq<char>, b: Seq<char>)
    ensures
        parent_name(a + seq!['/'] + seq!['/'] + b) == parent_name(a + seq!['/'] + b),
        parent_name(a + seq!['/'] + "."@ + seq!['/'] + b) == parent_name(a + seq!['/'] + b),
        parent_name(a + seq!['/']) == parent_name(a),
        parent_name(a + seq!['/'] + "."@) == parent_name(a),
{
    reveal_strlit(".");
    let none = Seq::<char>::empty();
    let pa = text::pieces(a, '/');
    let pb = text::pieces(b, '/');
    text::law_a_text_without_separator_is_one_piece(none, '/');
    assert(!"."@.contains('/'));
    text::law_a_text_without_separator_is_one_piece("."@, '/');
    assert(seq![none].drop_last() =~= Seq::empty());
    assert(seq!["."@].drop_last() =~= Seq::empty());
    assert(components(Seq::empty()) =~= Seq::empty());
    assert(components(seq![none]) =~= Seq::empty());
    assert(components(seq!["."@]) =~= Seq::empty());
    text::law_pieces_join(a, b, '/');
    lemma_components_join(pa, pb);
    text::law_pieces_join(a, none, '/');
    assert(a + seq!['/'] + none =~= a + seq!['/']);
    lemma_components_join(pa, seq![none]);
    assert(components(pa) + components(seq![none]) =~= components(pa));
    text::law_pieces_join(a, "."@, '/');
    lemma_components_join(pa, seq!["."@]);
    assert(components(pa) + components(seq!["."@]) =~= components(pa));
    text::law_pieces_join(a + seq!['/'], b, '/');
    lemma_components_join(text::pieces(a + seq!['/'], '/'), pb);
    text::law_pieces_join(a + seq!['/'] + "."@, b, '/');
    lemma_components_join(text::pieces(a + seq!['/'] + "."@, '/'), pb);
}

/// What was typed names a disk exactly if it is the disk's path, which must be more than nothing,
/// with nothing but white space around it.
pub proof fn law_a_line_names_what_stands_in_its_middle(
    before: Seq<char>,
    middle: Seq<char>,
    after: Seq<char>,
    path: Seq<char>,
)
    requires
        forall|i: int| 0 <= i < before.len() ==> text::is_space(#[trigger] before[i]),
        forall|i: int| 0 <= i < after.len() ==> text::is_space(#[trigger] after[i]),
        middle.len() > 0 ==> !text::is_space(middle[0]) && !text::is_space(
            middle[middle.len() - 1],
        ),
    ensures
        names_disk(before + middle + after, path) <==> middle.len() > 0 && middle == path,
{
    text::law_trimming_leaves_the_middle(before, middle, after);
}

/// Every listed disk can be chosen, wherever in the list it stands: a line that is its path, with any
/// white space around it, erases it. The path is one that can be typed: it is not empty, has no white
/// space around it, and is not the letter that quits.
pub proof fn law_every_listed_disk_can_be_chosen(
    disks: Seq<(String, u64)>,
    k: int,
    before: Seq<char>,
    after: Seq<char>,
    line: String,
    choice: Choice,
)
    requires
        0 <= k < disks.len(),
        disks[k].0@.len() > 0,
        !text::is_space(disks[k].0@[0]),
        !text::is_space(disks[k].0@[disks[k].0@.len() - 1]),
        disks[k].0@ != seq!['q'],
        disks[k].0@ != seq!['Q'],
        forall|i: int| 0 <= i < before.len() ==> text::is_space(#[trigger] before[i]),
        forall|i: int| 0 <= i < after.len() ==> text::is_space(#[trigger] after[i]),
        line@ == before + disks[k].0@ + after,
        decides(disks, LineRead::Line(line), choice),
    ensures
        choice is Erase,
        choice->Erase_0@ == disks[k].0@,
{
    text::law_trimming_leaves_the_middle(before, disks[k].0@, after);
    assert(paths_of(disks)[k] == disks[k].0@);
    assert(paths_of(disks).contains(disks[k].0@));
}

/// A line that is the letter q, large or small, with any white space around it, stops without
/// erasing, and so does a line that cannot be read; each says why.
pub proof fn law_quitting_erases_nothing(
    disks: Seq<(String, u64)>,
    before: Seq<char>,
    letter: char,
    after: Seq<char>,
    line: String,
    reason: String,
    choice: Choice,
)
    requires
        letter == 'q' || letter == 'Q',
        forall|i: int| 0 <= i < before.len() ==> text::is_space(#[trigger] before[i]),
        forall|i: int| 0 <= i < after.len() ==> text::is_space(#[trigger] after[i]),
        line@ == before + seq![letter] + after,
    ensures
        decides(disks, LineRead::Line(line), choice) ==> choice is Stop && choice->Stop_0@
            == "redox_installer_tui: nothing was written; quitting at the operator's request\n"@,
        decides(disks, LineRead::End, choice) ==> choice is Stop && choice->Stop_0@
            == "redox_installer_tui: failed to read line: end of input\n"@,
        decides(disks, LineRead::Failed(reason), choice) ==> choice is Stop && choice->Stop_0@
            == "redox_installer_tui: failed to read line: "@ + reason@ + "\n"@,
{
    text::law_trimming_leaves_the_middle(before, seq![letter], after);
}

/// Every other line is refused and asked for again, and what was typed is shown: one that is no
/// listed path, and one of white space alone.
pub proof fn law_any_other_line_is_asked_again(
    disks: Seq<(String, u64)>,
    before: Seq<char>,
    middle: Seq<char>,
    after: Seq<char>,
    line: String,
    choice: Choice,
)
    requires
        forall|i: int| 0 <= i < before.len() ==> text::is_space(#[trigger] before[i]),
        forall|i: int| 0 <= i < after.len() ==> text::is_space(#[trigger] after[i]),
        middle.len() > 0 ==> !text::is_space(middle[0]) && !text::is_space(
            middle[middle.len() - 1],
        ),
        middle != seq!['q'],
        middle != seq!['Q'],
        middle.len() == 0 || forall|k: int| 0 <= k < disks.len() ==> (#[trigger] disks[k]).0@ != middle,
        line@ == before + middle + after,
        decides(disks, LineRead::Line(line), choice),
    ensures
        choice is Again,
        choice->Again_0@ == "\nrefused: "@ + text::debug_text(middle)
            + " does not name any disk listed above. Nothing was written.\n"@,
{
    text::law_trimming_leaves_the_middle(before, middle, after);
    if middle.len() > 0 && paths_of(disks).contains(middle) {
        let k = choose|k: int| 0 <= k < paths_of(disks).len() && paths_of(disks)[k] == middle;
        assert(disks[k].0@ == middle);
    }
}

/// The rows of the menu stand one below the other, each for its own disk: its path, its size, its
/// interface and whether it can be unplugged.
pub proof fn law_each_disk_has_its_row(rows: Seq<DiskRow>, row: DiskRow, name: Seq<char>)
    requires
        name == driver(parent_name(row.path@)),
    ensures
        rows_text(rows.push(row)) == rows_text(rows) + ("\n  \u{1b}[1m"@ + row.path@
            + "\u{1b}[0m\n      size:       "@ + row.size@ + "\n      interface:  "@ + (if name
            == "nvme"@ {
            "NVMe"@
        } else {
            name
        }) + "\n      removable:  "@ + (if name == "nvme"@ {
            "no (inferred from the interface)"@
        } else {
            "unknown -- Redox exposes no removability flag for this interface"@
        }) + "\n"@),
        rows_text(Seq::empty()) == Seq::<char>::empty(),
{
    assert(rows.push(row).drop_last() =~= rows);
}

/// A scheme holds disks exactly if its name begins with the letters of `disk`, and an entry is a
/// whole disk exactly if there is no `p` anywhere in its name.
pub proof fn law_names_tell_schemes_and_partitions(name: Seq<char>)
    ensures
        holds_disks(name) <==> name.len() >= 4 && name[0] == 'd' && name[1] == 'i' && name[2] == 's'
            && name[3] == 'k',
        whole_disk(name) <==> forall|i: int| 0 <= i < name.len() ==> #[trigger] name[i] != 'p',
{
    reveal_strlit("disk");
    if name.len() >= 4 && name[0] == 'd' && name[1] == 'i' && name[2] == 's' && name[3] == 'k' {
        assert(name.subrange(0, 4) =~= "disk"@);
    }
    if holds_disks(name) {
        assert("disk"@ == name.subrange(0, "disk"@.len() as int));
        assert("disk"@[0] == name[0]);
        assert("disk"@[1] == name[1]);
        assert("disk"@[2] == name[2]);
        assert("disk"@[3] == name[3]);
    }
}

/// The disks of two lists of schemes are those of the one and those of the other, in this order.
pub proof fn law_schemes_are_listed_one_after_the_other(a: Seq<Scheme>, b: Seq<Scheme>)
    ensures
        disks_of(a + b) == disks_of(a) + disks_of(b),
    decreases b.len(),
{
    if b.len() > 0 {
        assert((a + b).drop_last() =~= a + b.drop_last());
        law_schemes_are_listed_one_after_the_other(a, b.drop_last());
        assert(disks_of(a + b) =~= disks_of(a) + disks_of(b));
    } else {
        assert(a + b =~= a);
        assert(disks_of(a) + disks_of(b) =~= disks_of(a));
    }
}

/// The disks among two lists of entries are those of the one and those of the other, in this order.
pub proof fn law_entries_are_listed_one_after_the_other(a: Seq<DiskEntry>, b: Seq<DiskEntry>)
    ensures
        disks_in(a + b) == disks_in(a) + disks_in(b),
    decreases b.len(),
{
    if b.len() > 0 {
        assert((a + b).drop_last() =~= a + b.drop_last());
        law_entries_are_listed_one_after_the_other(a, b.drop_last());
        assert(disks_in(a + b) =~= disks_in(a) + disks_in(b));
    } else {
        assert(a + b =~= a);
        assert(disks_in(a) + disks_in(b) =~= disks_in(a));
    }
}

/// A scheme whose name begins with `disk` gives the disks among its entries, any other gives none; an
/// entry gives one disk, its path with its size, if its name is text without a `p` and its size is
/// known and more than nothing, and none otherwise.
pub proof fn law_one_scheme_and_one_entry(s: Scheme, e: DiskEntry)
    ensures
        s.name is Some && s.name->Some_0@.len() >= 4 && s.name->Some_0@.take(4) == "disk"@
            ==> disks_of(seq![s]) == disks_in(s.entries@),
        s.name is None || s.name->Some_0@.len() < 4 || s.name->Some_0@.take(4) != "disk"@
            ==> disks_of(seq![s]) == Seq::<(Seq<char>, u64)>::empty(),
        e.name is Some && e.size is Some && e.size->Some_0 > 0 && (forall|i: int|
            0 <= i < e.name->Some_0@.len() ==> #[trigger] e.name->Some_0@[i] != 'p') ==> disks_in(
            seq![e],
        ) == seq![(e.path@, e.size->Some_0)],
        e.name is None || e.size is None || e.size == Some(0u64) || (exists|i: int|
            0 <= i < e.name->Some_0@.len() && #[trigger] e.name->Some_0@[i] == 'p') ==> disks_in(
            seq![e],
        ) == Seq::<(Seq<char>, u64)>::empty(),
{
    reveal_strlit("disk");
    assert(seq![s].drop_last() =~= Seq::empty());
    assert(seq![e].drop_last() =~= Seq::empty());
    assert(disks_of(Seq::empty()) =~= Seq::empty());
    assert(disks_in(Seq::empty()) =~= Seq::empty());
    assert(Seq::<(Seq<char>, u64)>::empty() + disks_in(s.entries@) =~= disks_in(s.entries@));
    if s.name is Some {
        let name = s.name->Some_0@;
        law_names_tell_schemes_and_partitions(name);
        if name.len() >= 4 {
            assert(name.take(4) =~= name.subrange(0, 4));
            if name.take(4) == "disk"@ {
                assert(name[0] == "disk"@[0] && name[1] == "disk"@[1]);
                assert(name[2] == "disk"@[2] && name[3] == "disk"@[3]);
            } else if holds_disks(name) {
                assert(name.take(4) =~= "disk"@);
            }
        }
    }
    if e.name is Some {
        law_names_tell_schemes_and_partitions(e.name->Some_0@);
    }
    assert(Seq::<(Seq<char>, u64)>::empty().push((e.path@, e.size->Some_0)) =~= seq![
        (e.path@, e.size->Some_0),
    ]);
}

} // verus!
