//! Applications a person may decline while installing, and the removal that honours the answer.
//!
//! An installed system is a clone of the live one, so an application that was declined is removed
//! afterwards, file by file. The manifest names the files.
use vstd::prelude::*;

use crate::text;
use crate::toml_tree;
use crate::toml_tree::Node;
use crate::toml_tree::Toml;

verus! {

/// Where the image keeps the list. Absolute, and read from the live system the installer runs on.
pub const MANIFEST_PATH: &'static str = "/usr/share/eos/optional-apps.toml";

/// An application that may be declined.
#[derive(Clone, Debug, PartialEq)]
pub struct OptionalApp {
    /// Human-readable name, shown in the prompt.
    pub title: String,
    /// One line explaining what it is, so the choice is informed.
    pub summary: String,
    /// Every path this application owns, absolute, as it appears in the installed system.
    pub files: Vec<String>,
    /// The package name, which is the key of the application's table.
    pub name: String,
}

/// An application as characters.
pub struct AppView {
    pub title: Seq<char>,
    pub summary: Seq<char>,
    pub files: Seq<Seq<char>>,
    pub name: Seq<char>,
}

impl View for OptionalApp {
    type V = AppView;

    open spec fn view(&self) -> AppView {
        AppView {
            title: self.title@,
            summary: self.summary@,
            files: text::texts(self.files@),
            name: self.name@,
        }
    }
}

/// What a list of applications says.
pub open spec fn app_views(apps: Seq<OptionalApp>) -> Seq<AppView> {
    apps.map_values(|a: OptionalApp| a@)
}

/// What is wrong with one entry of a manifest.
#[derive(Clone, Copy, Debug, PartialEq, Eq, Structural)]
pub enum Fault {
    /// It is neither a table nor an array.
    NotATable,
    /// It has no title, or the title is not a string.
    Title,
    /// It has no summary, or the summary is not a string.
    Summary,
    /// It has no list of files, or the list is not an array of strings.
    Files,
}

/// What is said of a fault.
pub open spec fn fault_text(fault: Fault) -> Seq<char> {
    match fault {
        Fault::NotATable => "not a table"@,
        Fault::Title => "no usable `title`"@,
        Fault::Summary => "no usable `summary`"@,
        Fault::Files => "no usable `files`"@,
    }
}

impl Fault {
    /// What to say of the fault.
    pub fn describe(self) -> (r: &'static str)
        ensures
            r@ == fault_text(self),
    {
        match self {
            Fault::NotATable => "not a table",
            Fault::Title => "no usable `title`",
            Fault::Summary => "no usable `summary`",
            Fault::Files => "no usable `files`",
        }
    }
}

/// Why a text is no manifest.
#[derive(Debug)]
pub enum ManifestError {
    /// It is not TOML.
    Syntax(toml::de::Error),
    /// The entry with this key is not an application.
    Entry(String, Fault),
}

/// The value of the first entry with this key.
pub open spec fn find(entries: Seq<(Seq<char>, Node)>, key: Seq<char>) -> Option<Node>
    decreases entries.len(),
{
    if entries.len() == 0 {
        None
    } else if entries[0].0 == key {
        Some(entries[0].1)
    } else {
        find(entries.drop_first(), key)
    }
}

/// One of the three members of an application: by its key in a table, by its place in an array.
pub open spec fn member(node: Node, key: Seq<char>, place: int) -> Option<Node> {
    match node {
        Node::Table(entries) => find(entries, key),
        Node::List(items) => if place < items.len() {
            Some(items[place])
        } else {
            None
        },
        _ => None,
    }
}

/// The characters of a string.
pub open spec fn as_text(node: Option<Node>) -> Option<Seq<char>> {
    match node {
        Some(Node::Text(s)) => Some(s),
        _ => None,
    }
}

/// The strings of an array that holds nothing else.
pub open spec fn as_texts(node: Option<Node>) -> Option<Seq<Seq<char>>> {
    match node {
        Some(Node::List(items)) => if forall|i: int|
            0 <= i < items.len() ==> (#[trigger] items[i]) is Text {
            Some(items.map_values(|n: Node| n->Text_0))
        } else {
            None
        },
        _ => None,
    }
}

/// The application that an entry of the manifest describes. What else its table holds is ignored.
pub open spec fn app_of(name: Seq<char>, node: Node) -> Result<AppView, Fault> {
    if !(node is Table || node is List) {
        Err(Fault::NotATable)
    } else if as_text(member(node, "title"@, 0)) is None {
        Err(Fault::Title)
    } else if as_text(member(node, "summary"@, 1)) is None {
        Err(Fault::Summary)
    } else if as_texts(member(node, "files"@, 2)) is None {
        Err(Fault::Files)
    } else {
        Ok(
            AppView {
                title: as_text(member(node, "title"@, 0))->Some_0,
                summary: as_text(member(node, "summary"@, 1))->Some_0,
                files: as_texts(member(node, "files"@, 2))->Some_0,
                name,
            },
        )
    }
}

/// The applications of a manifest, one for each entry, or the first entry that is none.
pub open spec fn apps_of(doc: Seq<(Seq<char>, Node)>) -> Result<Seq<AppView>, (Seq<char>, Fault)>
    decreases doc.len(),
{
    if doc.len() == 0 {
        Ok(Seq::empty())
    } else {
        match apps_of(doc.drop_last()) {
            Err(e) => Err(e),
            Ok(before) => match app_of(doc.last().0, doc.last().1) {
                Err(fault) => Err((doc.last().0, fault)),
                Ok(app) => Ok(before.push(app)),
            },
        }
    }
}

/// Finds the value of a key.
fn lookup<'a>(entries: &'a Vec<(String, Toml)>, key: &str) -> (r: Option<&'a Toml>)
    ensures
        match r {
            Some(v) => find(toml_tree::document(entries@), key@) == Some(v.node()),
            None => find(toml_tree::document(entries@), key@) is None,
        },
{
    let ghost doc = toml_tree::document(entries@);
    let mut i: usize = 0;
    assert(doc.skip(0) =~= doc);
    while i < entries.len()
        invariant
            i <= entries@.len(),
            doc == toml_tree::document(entries@),
            find(doc, key@) == find(doc.skip(i as int), key@),
        decreases entries@.len() - i,
    {
        assert(doc.skip(i as int)[0] == (entries@[i as int].0@, entries@[i as int].1.node()));
        if text::same_text(entries[i].0.as_str(), key) {
            return Some(&entries[i].1);
        }
        assert(doc.skip(i as int).drop_first() =~= doc.skip(i + 1));
        i = i + 1;
    }
    None
}

/// One of the three members of an application.
fn take_member<'a>(node: &'a Toml, key: &str, place: usize) -> (r: Option<&'a Toml>)
    ensures
        match r {
            Some(v) => member(node.node(), key@, place as int) == Some(v.node()),
            None => member(node.node(), key@, place as int) is None,
        },
{
    match node {
        Toml::Table(entries) => {
            assert(node.node()->Table_0 =~= toml_tree::document(entries@));
            lookup(entries, key)
        },
        Toml::List(items) => {
            if place < items.len() {
                assert(node.node()->List_0[place as int] == items@[place as int].node());
                Some(&items[place])
            } else {
                None
            }
        },
        _ => None,
    }
}

/// The characters of a string.
fn take_text(node: Option<&Toml>) -> (r: Option<String>)
    ensures
        match node {
            Some(n) => match r {
                Some(s) => as_text(Some(n.node())) == Some(s@),
                None => as_text(Some(n.node())) is None,
            },
            None => r is None,
        },
{
    match node {
        Some(Toml::Text(s)) => Some(s.clone()),
        _ => None,
    }
}

/// The strings of an array that holds nothing else.
fn take_texts(node: Option<&Toml>) -> (r: Option<Vec<String>>)
    ensures
        match node {
            Some(n) => match r {
                Some(v) => as_texts(Some(n.node())) == Some(text::texts(v@)),
                None => as_texts(Some(n.node())) is None,
            },
            None => r is None,
        },
{
    match node {
        Some(Toml::List(items)) => {
            let ghost nodes = node->Some_0.node()->List_0;
            let mut out: Vec<String> = Vec::new();
            let mut i: usize = 0;
            while i < items.len()
                invariant
                    i <= items@.len(),
                    out@.len() == i,
                    nodes.len() == items@.len(),
                    node is Some,
                    node->Some_0.node() == Node::List(nodes),
                    forall|j: int| 0 <= j < items@.len() ==> #[trigger] nodes[j] == items@[j].node(),
                    forall|j: int|
                        0 <= j < i ==> #[trigger] nodes[j] is Text && nodes[j]->Text_0 == out@[j]@,
                decreases items@.len() - i,
            {
                assert(nodes[i as int] == items@[i as int].node());
                match &items[i] {
                    Toml::Text(s) => {
                        out.push(s.clone());
                    },
                    _ => {
                        assert(!(nodes[i as int] is Text));
                        return None;
                    },
                }
                i = i + 1;
            }
            assert(nodes.map_values(|n: Node| n->Text_0) =~= text::texts(out@));
            Some(out)
        },
        _ => None,
    }
}

/// Makes an application of an entry of the manifest.
fn make_app(name: &String, node: &Toml) -> (r: Result<OptionalApp, Fault>)
    ensures
        match r {
            Ok(app) => app_of(name@, node.node()) == Ok::<AppView, Fault>(app@),
            Err(fault) => app_of(name@, node.node()) == Err::<AppView, Fault>(fault),
        },
{
    match node {
        Toml::Text(_) => {
            return Err(Fault::NotATable);
        },
        Toml::Other => {
            return Err(Fault::NotATable);
        },
        _ => {},
    }
    let title = match take_text(take_member(node, "title", 0)) {
        Some(s) => s,
        None => {
            return Err(Fault::Title);
        },
    };
    let summary = match take_text(take_member(node, "summary", 1)) {
        Some(s) => s,
        None => {
            return Err(Fault::Summary);
        },
    };
    let files = match take_texts(take_member(node, "files", 2)) {
        Some(v) => v,
        None => {
            return Err(Fault::Files);
        },
    };
    Ok(OptionalApp { title, summary, files, name: name.clone() })
}

/// The applications that the entries of a manifest describe, in their order. The key of an entry
/// becomes the application's name.
pub fn collect_apps(entries: &Vec<(String, Toml)>) -> (r: Result<Vec<OptionalApp>, ManifestError>)
    ensures
        match apps_of(toml_tree::document(entries@)) {
            Ok(apps) => r is Ok && app_views(r->Ok_0@) == apps,
            Err((key, fault)) => r is Err && r->Err_0 is Entry && r->Err_0->Entry_0@ == key
                && r->Err_0->Entry_1 == fault,
        },
{
    let ghost doc = toml_tree::document(entries@);
    let mut apps: Vec<OptionalApp> = Vec::new();
    let mut i: usize = 0;
    assert(doc.take(0) =~= Seq::empty());
    assert(app_views(apps@) =~= Seq::empty());
    while i < entries.len()
        invariant
            i <= entries@.len(),
            doc == toml_tree::document(entries@),
            apps_of(doc.take(i as int)) == Ok::<Seq<AppView>, (Seq<char>, Fault)>(app_views(apps@)),
        decreases entries@.len() - i,
    {
        let ghost prefix = doc.take(i + 1);
        assert(prefix.drop_last() =~= doc.take(i as int));
        assert(prefix.last() == (entries@[i as int].0@, entries@[i as int].1.node()));
        match make_app(&entries[i].0, &entries[i].1) {
            Ok(app) => {
                let ghost before = app_views(apps@);
                apps.push(app);
                assert(app_views(apps@) =~= before.push(app@));
            },
            Err(fault) => {
                proof {
                    lemma_apps_of_prefix(doc, i + 1);
                }
                return Err(ManifestError::Entry(entries[i].0.clone(), fault));
            },
        }
        i = i + 1;
    }
    assert(doc.take(i as int) =~= doc);
    Ok(apps)
}

/// The first entry that is no application decides.
proof fn lemma_apps_of_prefix(doc: Seq<(Seq<char>, Node)>, n: int)
    requires
        0 <= n <= doc.len(),
        apps_of(doc.take(n)) is Err,
    ensures
        apps_of(doc) == apps_of(doc.take(n)),
    decreases doc.len(),
{
    if n == doc.len() {
        assert(doc.take(n) =~= doc);
    } else {
        assert(doc.drop_last().take(n) =~= doc.take(n));
        lemma_apps_of_prefix(doc.drop_last(), n);
    }
}

/// Reads a manifest: one application for each top-level key, in the order of the keys, with the
/// key as its name.
pub fn parse(text: &str) -> (r: Result<Vec<OptionalApp>, ManifestError>)
    ensures
        match toml_tree::toml_document(text@) {
            None => r is Err && r->Err_0 is Syntax,
            Some(doc) => match apps_of(doc) {
                Ok(apps) => r is Ok && app_views(r->Ok_0@) == apps,
                Err((key, fault)) => r is Err && r->Err_0 is Entry && r->Err_0->Entry_0@ == key
                    && r->Err_0->Entry_1 == fault,
            },
        },
        r matches Ok(apps) ==> text::strictly_sorted(names(app_views(apps@))),
{
    match toml_tree::read_document(text) {
        Err(e) => Err(ManifestError::Syntax(e)),
        Ok(entries) => {
            proof {
                law_the_key_becomes_the_name(toml_tree::document(entries@));
            }
            collect_apps(&entries)
        },
    }
}

/// The names of a list of applications.
pub open spec fn names(apps: Seq<AppView>) -> Seq<Seq<char>> {
    apps.map_values(|a: AppView| a.name)
}

/// The applications of a manifest are named by its keys, in the same order.
pub proof fn law_the_key_becomes_the_name(doc: Seq<(Seq<char>, Node)>)
    ensures
        apps_of(doc) matches Ok(apps) ==> names(apps) == toml_tree::keys(doc),
    decreases doc.len(),
{
    if doc.len() > 0 {
        law_the_key_becomes_the_name(doc.drop_last());
        if apps_of(doc) is Ok {
            let before = apps_of(doc.drop_last())->Ok_0;
            assert(names(apps_of(doc)->Ok_0) =~= names(before).push(doc.last().0));
            assert(toml_tree::keys(doc) =~= toml_tree::keys(doc.drop_last()).push(doc.last().0));
        }
    } else {
        assert(names(Seq::empty()) =~= toml_tree::keys(doc));
    }
}

/// What a manifest comes to.
#[derive(Debug)]
pub enum Offer {
    /// These applications may be declined.
    Apps(Vec<OptionalApp>),
    /// There is nothing to choose.
    Nothing,
    /// The manifest cannot be used: there is nothing to choose, and this is why.
    Unreadable(ManifestError),
}

/// What a manifest with this text offers.
pub open spec fn offers(offer: Offer, text: Seq<char>) -> bool {
    match toml_tree::toml_document(text) {
        None => offer is Unreadable && offer->Unreadable_0 is Syntax,
        Some(doc) => match apps_of(doc) {
            Ok(apps) => if apps.len() == 0 {
                offer is Nothing
            } else {
                offer is Apps && app_views(offer->Apps_0@) == apps
            },
            Err((key, fault)) => offer is Unreadable && offer->Unreadable_0 is Entry
                && offer->Unreadable_0->Entry_0@ == key && offer->Unreadable_0->Entry_1 == fault,
        },
    }
}

/// What the text of the manifest offers. A manifest that is not there offers no choice: the
/// installer must work on an image that ships no optional applications.
pub fn read(text: Option<&str>) -> (r: Offer)
    ensures
        match text {
            None => r is Nothing,
            Some(t) => offers(r, t@),
        },
{
    match text {
        None => Offer::Nothing,
        Some(t) => match parse(t) {
            Ok(apps) => {
                if apps.len() > 0 {
                    Offer::Apps(apps)
                } else {
                    Offer::Nothing
                }
            },
            Err(e) => Offer::Unreadable(e),
        },
    }
}

/// Says that the manifest at this path offers no choice, for this reason.
pub fn say_unreadable(path: &str, reason: &str) -> (r: String)
    ensures
        r@ == "optional apps: "@ + path@ + " is not readable ("@ + reason@
            + "); offering no choice"@,
{
    let mut r = "optional apps: ".to_owned();
    r.append(path);
    r.append(" is not readable (");
    r.append(reason);
    r.append("); offering no choice");
    r
}

/// The line of the menu for application number `n`.
pub open spec fn menu_line(n: nat, app: AppView) -> Seq<char> {
    "  "@ + text::decimal(n) + ". "@ + app.title + " - "@ + app.summary + "\n"@
}

/// The lines of the menu, numbered from 1.
pub open spec fn menu_lines(apps: Seq<AppView>) -> Seq<char>
    decreases apps.len(),
{
    if apps.len() == 0 {
        Seq::empty()
    } else {
        menu_lines(apps.drop_last()) + menu_line(apps.len(), apps.last())
    }
}

/// The question that is shown before a line is read.
pub fn menu(apps: &[OptionalApp]) -> (r: String)
    ensures
        r@ == "\nOptional applications. All are installed unless you say otherwise.\n"@ + menu_lines(
            app_views(apps@),
        ) + "Numbers to LEAVE OUT, separated by spaces (empty = keep all): "@,
{
    let ghost views = app_views(apps@);
    let ghost head = "\nOptional applications. All are installed unless you say otherwise.\n"@;
    let mut r = "\nOptional applications. All are installed unless you say otherwise.\n".to_owned();
    let mut i: usize = 0;
    assert(views.take(0) =~= Seq::empty());
    assert(r@ =~= head + menu_lines(views.take(0)));
    while i < apps.len()
        invariant
            i <= apps@.len(),
            views == app_views(apps@),
            r@ == head + menu_lines(views.take(i as int)),
        decreases apps@.len() - i,
    {
        assert(views.take(i + 1).drop_last() =~= views.take(i as int));
        assert(views.take(i + 1).last() == apps@[i as int]@);
        r.append("  ");
        r.append(text::to_decimal(i as u64 + 1).as_str());
        r.append(". ");
        r.append(apps[i].title.as_str());
        r.append(" - ");
        r.append(apps[i].summary.as_str());
        r.append("\n");
        i = i + 1;
        assert(r@ =~= head + menu_lines(views.take(i as int)));
    }
    assert(views.take(i as int) =~= views);
    r.append("Numbers to LEAVE OUT, separated by spaces (empty = keep all): ");
    r
}

/// The application that a word of the answer names, counted from 0.
pub open spec fn choice(word: Seq<char>, count: nat) -> Option<nat> {
    match text::number(word) {
        Some(n) => if 1 <= n <= count {
            Some((n - 1) as nat)
        } else {
            None
        },
        None => None,
    }
}

/// Does some word of the answer name application `i`?
pub open spec fn names_app(words: Seq<Seq<char>>, count: nat, i: int) -> bool {
    exists|k: int| 0 <= k < words.len() && choice(#[trigger] words[k], count) == Some(i as nat)
}

/// The line that says that a word, quoted, was ignored.
pub open spec fn ignored_line(quoted: Seq<char>, count: nat) -> Seq<char> {
    "  ignoring "@ + quoted + ": not one of 1.."@ + text::decimal(count) + "\n"@
}

/// What is said of the words that name no application, in their order.
pub open spec fn complaints(words: Seq<Seq<char>>, count: nat) -> Seq<char>
    decreases words.len(),
{
    if words.len() == 0 {
        Seq::empty()
    } else if choice(words.last(), count) is None {
        complaints(words.drop_last(), count) + ignored_line(
            text::debug_text(words.last()),
            count,
        )
    } else {
        complaints(words.drop_last(), count)
    }
}

/// Says that a word, quoted, was ignored.
pub fn say_ignored(quoted: &str, count: usize) -> (r: String)
    ensures
        r@ == ignored_line(quoted@, count as nat),
{
    let mut r = "  ignoring ".to_owned();
    r.append(quoted);
    r.append(": not one of 1..");
    r.append(text::to_decimal(count as u64).as_str());
    r.append("\n");
    r
}

/// Are the numbers in ascending order, each there once?
pub open spec fn ascending(v: Seq<usize>) -> bool {
    forall|i: int, j: int| 0 <= i < j < v.len() ==> v[i] < v[j]
}

/// Puts a number where it belongs, unless it is there already.
fn put(v: &mut Vec<usize>, n: usize)
    requires
        ascending(old(v)@),
    ensures
        ascending(final(v)@),
        forall|x: usize| #[trigger] final(v)@.contains(x) <==> (old(v)@.contains(x) || x == n),
{
    let ghost before = v@;
    let mut at: usize = 0;
    while at < v.len() && v[at] < n
        invariant
            at <= v@.len(),
            v@ == before,
            ascending(v@),
            forall|j: int| 0 <= j < at ==> v@[j] < n,
        decreases v@.len() - at,
    {
        at = at + 1;
    }
    if at < v.len() && v[at] == n {
        assert(v@.contains(n));
        return;
    }
    v.insert(at, n);
    assert(v@ == before.insert(at as int, n));
    assert forall|x: usize| #[trigger] v@.contains(x) <==> (before.contains(x) || x == n) by {
        if before.contains(x) {
            let j = choose|j: int| 0 <= j < before.len() && before[j] == x;
            if j < at {
                assert(v@[j] == x);
            } else {
                assert(v@[j + 1] == x);
            }
        }
        if x == n {
            assert(v@[at as int] == n);
        }
        if v@.contains(x) && x != n {
            let j = choose|j: int| 0 <= j < v@.len() && v@[j] == x;
            if j < at {
                assert(before[j] == x);
            } else {
                assert(before[j - 1] == x);
            }
        }
    }
}

/// What an answer comes to.
#[derive(Debug, PartialEq, Eq)]
pub struct Answer {
    /// The applications to leave out, counted from 0, in ascending order.
    pub declined: Vec<usize>,
    /// What is said in return.
    pub reply: String,
}

/// Takes the answer to the [`menu`]: the line as it was read, empty at the end of the input.
///
/// The default is to keep everything: an empty line, no line at all, and words that are no number
/// from the menu decline nothing.
pub fn prompt(apps: &[OptionalApp], line: &str) -> (r: Answer)
    ensures
        ascending(r.declined@),
        forall|i: usize| #[trigger]
            r.declined@.contains(i) <==> names_app(text::words(line@), apps@.len(), i as int),
        r.reply@ == (if line@.len() == 0 {
            "\n"@
        } else {
            complaints(text::words(line@), apps@.len())
        }),
{
    let mut declined: Vec<usize> = Vec::new();
    if line.is_empty() {
        assert(text::words(line@).len() == 0);
        return Answer { declined, reply: "\n".to_owned() };
    }
    let words = text::split_words(line);
    let count: usize = apps.len();
    let ghost all = text::words(line@);
    let mut reply = String::new();
    let mut i: usize = 0;
    assert(all.take(0) =~= Seq::empty());
    while i < words.len()
        invariant
            i <= words@.len(),
            all == text::texts(words@),
            count == apps@.len(),
            ascending(declined@),
            forall|x: usize| #[trigger]
                declined@.contains(x) <==> names_app(all.take(i as int), count as nat, x as int),
            reply@ == complaints(all.take(i as int), count as nat),
        decreases words@.len() - i,
    {
        let ghost prefix = all.take(i + 1);
        let ghost word = words@[i as int]@;
        assert(prefix.drop_last() =~= all.take(i as int));
        assert(prefix.last() == word);
        let ghost before = declined@;
        let picked: Option<usize> = match text::parse_usize(words[i].as_str()) {
            Some(n) => if n >= 1 && n <= count {
                Some((n - 1) as usize)
            } else {
                None
            },
            None => None,
        };
        assert(match picked {
            Some(n) => choice(word, count as nat) == Some(n as nat),
            None => choice(word, count as nat) is None,
        });
        match picked {
            Some(n) => {
                put(&mut declined, n);
            },
            None => {
                let quoted = text::quote(words[i].as_str());
                reply.append(say_ignored(quoted.as_str(), count).as_str());
            },
        }
        assert forall|x: usize| #[trigger] declined@.contains(x) <==> names_app(
            prefix,
            count as nat,
            x as int,
        ) by {
            if names_app(all.take(i as int), count as nat, x as int) {
                let k = choose|k: int|
                    0 <= k < all.take(i as int).len() && choice(
                        #[trigger] all.take(i as int)[k],
                        count as nat,
                    ) == Some(x as nat);
                assert(choice(prefix[k], count as nat) == Some(x as nat));
            }
            if names_app(prefix, count as nat, x as int) {
                let k = choose|k: int|
                    0 <= k < prefix.len() && choice(#[trigger] prefix[k], count as nat) == Some(
                        x as nat,
                    );
                if k < i {
                    assert(choice(all.take(i as int)[k], count as nat) == Some(x as nat));
                }
            }
            if choice(word, count as nat) == Some(x as nat) {
                assert(choice(prefix[i as int], count as nat) == Some(x as nat));
            }
            assert(before.contains(x) == names_app(all.take(i as int), count as nat, x as int));
        }
        i = i + 1;
    }
    assert(all.take(i as int) =~= all);
    Answer { declined, reply }
}

/// What a removal actually did. That a file was already gone is not an error and is not reported
/// as one.
#[derive(Clone, Debug, PartialEq)]
pub struct Removal {
    /// Files that existed and were deleted.
    pub removed: Vec<String>,
    /// Files the manifest named that were not there: already in the desired state.
    pub absent: Vec<String>,
    /// Files that existed and could not be deleted, with the reason.
    pub failed: Vec<(String, String)>,
}

/// A removal as characters.
pub struct RemovalView {
    pub removed: Seq<Seq<char>>,
    pub absent: Seq<Seq<char>>,
    pub failed: Seq<(Seq<char>, Seq<char>)>,
}

impl View for Removal {
    type V = RemovalView;

    open spec fn view(&self) -> RemovalView {
        RemovalView {
            removed: text::texts(self.removed@),
            absent: text::texts(self.absent@),
            failed: self.failed@.map_values(|f: (String, String)| (f.0@, f.1@)),
        }
    }
}

/// A removal that did nothing.
pub open spec fn nothing_removed() -> RemovalView {
    RemovalView { removed: Seq::empty(), absent: Seq::empty(), failed: Seq::empty() }
}

impl Default for Removal {
    fn default() -> (r: Removal)
        ensures
            r@ == nothing_removed(),
    {
        let r = Removal { removed: Vec::new(), absent: Vec::new(), failed: Vec::new() };
        assert(r@.removed =~= Seq::empty());
        assert(r@.absent =~= Seq::empty());
        assert(r@.failed =~= Seq::empty());
        r
    }
}

impl Removal {
    /// Did every file reach the desired state?
    pub fn is_clean(&self) -> (r: bool)
        ensures
            r == (self@.failed.len() == 0),
    {
        self.failed.is_empty()
    }
}

/// A file to be removed.
#[derive(Debug, PartialEq, Eq)]
pub struct RemovalStep {
    /// The file as the manifest names it.
    pub file: String,
    /// Its path below the root of the target, or `None` if the file is refused.
    pub target: Option<String>,
}

/// A step as characters.
pub struct StepView {
    pub file: Seq<char>,
    pub target: Option<Seq<char>>,
}

impl View for RemovalStep {
    type V = StepView;

    open spec fn view(&self) -> StepView {
        StepView {
            file: self.file@,
            target: match self.target {
                Some(t) => Some(t@),
                None => None,
            },
        }
    }
}

/// What a list of steps says.
pub open spec fn step_views(steps: Seq<RemovalStep>) -> Seq<StepView> {
    steps.map_values(|s: RemovalStep| s@)
}

/// The path of a file below the root: without the separators at its start.
pub open spec fn below_root(file: Seq<char>) -> Seq<char> {
    text::strip_leading(file, '/')
}

/// Does the path go up at some component?
pub open spec fn escapes(file: Seq<char>) -> bool {
    text::pieces(below_root(file), '/').contains(".."@)
}

/// What to do with a file: a path that goes up is refused rather than followed.
pub open spec fn step_of(file: Seq<char>) -> StepView {
    StepView {
        file,
        target: if escapes(file) {
            None
        } else {
            Some(below_root(file))
        },
    }
}

/// The files of a list of applications, application by application.
pub open spec fn files_of(apps: Seq<AppView>) -> Seq<Seq<char>>
    decreases apps.len(),
{
    if apps.len() == 0 {
        Seq::empty()
    } else {
        files_of(apps.drop_last()) + apps.last().files
    }
}

/// The steps for a list of files.
pub open spec fn steps_of(files: Seq<Seq<char>>) -> Seq<StepView> {
    files.map_values(|f: Seq<char>| step_of(f))
}

/// Decides what to do with one file.
fn make_step(file: &String) -> (r: RemovalStep)
    ensures
        r@ == step_of(file@),
{
    let target = text::trim_leading(file.as_str(), '/');
    let parts = text::split(target.as_str(), '/');
    let ghost all = text::pieces(target@, '/');
    let mut i: usize = 0;
    while i < parts.len()
        invariant
            i <= parts@.len(),
            all == text::texts(parts@),
            all == text::pieces(below_root(file@), '/'),
            forall|j: int| 0 <= j < i ==> all[j] != ".."@,
        decreases parts@.len() - i,
    {
        assert(all[i as int] == parts@[i as int]@);
        if text::same_text(parts[i].as_str(), "..") {
            assert(all.contains(".."@));
            return RemovalStep { file: file.clone(), target: None };
        }
        i = i + 1;
    }
    RemovalStep { file: file.clone(), target: Some(target) }
}

/// The applications that a list of references says.
pub open spec fn ref_views(apps: Seq<&OptionalApp>) -> Seq<AppView> {
    apps.map_values(|a: &OptionalApp| a@)
}

/// What has to be done to remove the declined applications from a target: one step for each of
/// their files, in the order of the manifest. A step that is not refused is carried out by a
/// [`FileRemoval`], and [`report`] tells what became of them all.
pub fn remove(declined: &[&OptionalApp]) -> (r: Vec<RemovalStep>)
    ensures
        step_views(r@) == steps_of(files_of(ref_views(declined@))),
{
    let ghost apps = ref_views(declined@);
    let mut r: Vec<RemovalStep> = Vec::new();
    let mut i: usize = 0;
    assert(apps.take(0) =~= Seq::empty());
    assert(step_views(r@) =~= steps_of(Seq::empty()));
    while i < declined.len()
        invariant
            i <= declined@.len(),
            apps == ref_views(declined@),
            step_views(r@) == steps_of(files_of(apps.take(i as int))),
        decreases declined@.len() - i,
    {
        let ghost base = files_of(apps.take(i as int));
        assert(apps.take(i + 1).drop_last() =~= apps.take(i as int));
        assert(apps.take(i + 1).last() == declined@[i as int]@);
        let files = &declined[i].files;
        let ghost own = text::texts(files@);
        let mut k: usize = 0;
        assert(base + own.take(0) =~= base);
        while k < files.len()
            invariant
                k <= files@.len(),
                own == text::texts(files@),
                step_views(r@) == steps_of(base + own.take(k as int)),
            decreases files@.len() - k,
        {
            let ghost before = step_views(r@);
            let step = make_step(&files[k]);
            r.push(step);
            assert(step_views(r@) =~= before.push(step@));
            assert(steps_of(base + own.take(k + 1)) =~= steps_of(base + own.take(k as int)).push(
                step_of(own[k as int]),
            ));
            k = k + 1;
        }
        assert(own.take(k as int) =~= own);
        i = i + 1;
    }
    assert(apps.take(i as int) =~= apps);
    r
}

/// What became of a step that was carried out.
#[derive(Debug, PartialEq, Eq)]
pub enum Deletion {
    /// There was no such file.
    Absent,
    /// The file was deleted.
    Removed,
    /// The path leaves the root by way of a link: it was not followed.
    Outside,
    /// The file could not be looked up, or it was there and could not be deleted, for this reason.
    Failed(String),
}

/// The outcome of a step as characters.
pub enum DeletionView {
    Absent,
    Removed,
    Outside,
    Failed(Seq<char>),
}

impl View for Deletion {
    type V = DeletionView;

    open spec fn view(&self) -> DeletionView {
        match self {
            Deletion::Absent => DeletionView::Absent,
            Deletion::Removed => DeletionView::Removed,
            Deletion::Outside => DeletionView::Outside,
            Deletion::Failed(reason) => DeletionView::Failed(reason@),
        }
    }
}

/// What a list of outcomes says.
pub open spec fn deletion_views(outcomes: Seq<Deletion>) -> Seq<DeletionView> {
    outcomes.map_values(|o: Deletion| o@)
}

/// What a lookup comes to: nothing yet if the file is there, that it is absent if the system says
/// that there is no such file, and a failure for any other reason.
pub open spec fn lookup_outcome(found: bool, not_found: bool, reason: Seq<char>) -> Option<
    DeletionView,
> {
    if found {
        None
    } else if not_found {
        Some(DeletionView::Absent)
    } else {
        Some(DeletionView::Failed(reason))
    }
}

/// What a lookup comes to. `None` means that the file is there, to be deleted; a file counts as
/// absent only if the system says that there is none.
pub fn looked_up(found: bool, not_found: bool, reason: String) -> (r: Option<Deletion>)
    ensures
        lookup_outcome(found, not_found, reason@) == (match r {
            Some(outcome) => Some(outcome@),
            None => None,
        }),
{
    if found {
        None
    } else if not_found {
        Some(Deletion::Absent)
    } else {
        Some(Deletion::Failed(reason))
    }
}

/// Does a directory lie below a root, or is it the root? Both are where they really are: absolute,
/// and without links.
pub open spec fn lies_below(root: Seq<u8>, dir: Seq<u8>) -> bool {
    &&& root.is_prefix_of(dir)
    &&& dir.len() == root.len() || (root.len() > 0 && root.last() == 47) || dir[root.len() as int]
        == 47
}

/// Does a directory lie below a root, or is it the root?
fn is_below(root: &Vec<u8>, dir: &Vec<u8>) -> (r: bool)
    ensures
        r == lies_below(root@, dir@),
{
    if dir.len() < root.len() {
        return false;
    }
    let mut i: usize = 0;
    while i < root.len()
        invariant
            i <= root@.len() <= dir@.len(),
            forall|j: int| 0 <= j < i ==> root@[j] == dir@[j],
        decreases root@.len() - i,
    {
        if root[i] != dir[i] {
            assert(dir@.subrange(0, root@.len() as int)[i as int] != root@[i as int]);
            return false;
        }
        i = i + 1;
    }
    assert(dir@.subrange(0, root@.len() as int) =~= root@);
    dir.len() == root.len() || (root.len() > 0 && root[root.len() - 1] == 47) || dir[root.len()]
        == 47
}

/// The directory that a path names: what comes before its last separator, and nothing if it has
/// none.
pub open spec fn directory_of(target: Seq<char>) -> Seq<char>
    decreases target.len(),
{
    if target.len() == 0 {
        Seq::empty()
    } else if target.last() == '/' {
        target.drop_last()
    } else {
        directory_of(target.drop_last())
    }
}

/// The directory that a path names.
fn make_directory(target: &str) -> (r: String)
    ensures
        r@ == directory_of(target@),
{
    let cs = text::chars_of(target);
    let mut n: usize = cs.len();
    assert(cs@.take(n as int) =~= target@);
    while n > 0
        invariant
            n <= cs@.len(),
            directory_of(target@) == directory_of(cs@.take(n as int)),
        decreases n,
    {
        assert(cs@.take(n as int).drop_last() =~= cs@.take(n - 1));
        n = n - 1;
        if cs[n] == '/' {
            assert(cs@.take(n as int) =~= cs@.subrange(0, n as int));
            return text::string_of(&cs, 0, n);
        }
    }
    assert(cs@.take(0) =~= Seq::empty());
    String::new()
}

/// What the removal of one file asks for.
#[derive(Debug, PartialEq, Eq)]
pub enum RemovalAction {
    /// Find out where the root really is, and where the directory `dir` below it is.
    Resolve { dir: String },
    /// Look the file up, without following it if it is a link.
    LookUp,
    /// Delete the file.
    Delete,
    /// Nothing more: this became of the step.
    Conclude(Deletion),
}

/// What was done for the removal of one file.
#[derive(Debug)]
pub enum RemovalEvent {
    /// Nothing yet.
    Begin,
    /// The root and the directory are really there.
    Resolved { root: Vec<u8>, dir: Vec<u8> },
    /// What was looked up was found, or it was not: because there is none, or for another reason.
    LookedUp { found: bool, not_found: bool, reason: String },
    /// The file was deleted.
    Deleted,
    /// The file was not deleted, for this reason.
    NotDeleted(String),
}

/// What the removal of one file is waiting for.
#[derive(Clone, Copy, Debug, PartialEq, Eq, Structural)]
pub enum RemovalPhase {
    Start,
    Directory,
    File,
    Deletion,
    End,
}

/// The removal of one file.
#[derive(Debug)]
pub struct FileRemoval {
    target: String,
    phase: RemovalPhase,
}

/// The removal of one file, as characters.
pub struct FileRemovalView {
    pub target: Seq<char>,
    pub phase: RemovalPhase,
}

/// A request as characters.
pub enum RemovalActionView {
    Resolve { dir: Seq<char> },
    LookUp,
    Delete,
    Conclude(DeletionView),
}

/// An event as characters.
pub enum RemovalEventView {
    Begin,
    Resolved { root: Seq<u8>, dir: Seq<u8> },
    LookedUp { found: bool, not_found: bool, reason: Seq<char> },
    Deleted,
    NotDeleted(Seq<char>),
}

impl View for FileRemoval {
    type V = FileRemovalView;

    closed spec fn view(&self) -> FileRemovalView {
        FileRemovalView { target: self.target@, phase: self.phase }
    }
}

impl View for RemovalAction {
    type V = RemovalActionView;

    open spec fn view(&self) -> RemovalActionView {
        match self {
            RemovalAction::Resolve { dir } => RemovalActionView::Resolve { dir: dir@ },
            RemovalAction::LookUp => RemovalActionView::LookUp,
            RemovalAction::Delete => RemovalActionView::Delete,
            RemovalAction::Conclude(outcome) => RemovalActionView::Conclude(outcome@),
        }
    }
}

impl View for RemovalEvent {
    type V = RemovalEventView;

    open spec fn view(&self) -> RemovalEventView {
        match self {
            RemovalEvent::Begin => RemovalEventView::Begin,
            RemovalEvent::Resolved { root, dir } => RemovalEventView::Resolved {
                root: root@,
                dir: dir@,
            },
            RemovalEvent::LookedUp { found, not_found, reason } => RemovalEventView::LookedUp {
                found: *found,
                not_found: *not_found,
                reason: reason@,
            },
            RemovalEvent::Deleted => RemovalEventView::Deleted,
            RemovalEvent::NotDeleted(reason) => RemovalEventView::NotDeleted(reason@),
        }
    }
}

/// Is this an event that the removal is waiting for? A directory that was found is resolved.
pub open spec fn removal_awaits(f: FileRemovalView, e: RemovalEventView) -> bool {
    match e {
        RemovalEventView::Begin => f.phase == RemovalPhase::Start,
        RemovalEventView::Resolved { .. } => f.phase == RemovalPhase::Directory,
        RemovalEventView::LookedUp { found, .. } => f.phase == RemovalPhase::File || (f.phase
            == RemovalPhase::Directory && !found),
        RemovalEventView::Deleted | RemovalEventView::NotDeleted(_) => f.phase
            == RemovalPhase::Deletion,
    }
}

/// The removal waits for something else.
pub open spec fn removal_at(f: FileRemovalView, phase: RemovalPhase) -> FileRemovalView {
    FileRemovalView { phase, ..f }
}

/// The removal is over.
pub open spec fn concluded(f: FileRemovalView, outcome: DeletionView) -> (
    FileRemovalView,
    RemovalActionView,
) {
    (removal_at(f, RemovalPhase::End), RemovalActionView::Conclude(outcome))
}

/// One step of the removal of a file. Its directory must really lie below the root, or a link on
/// the way leads out of it: then the path is refused rather than followed.
pub open spec fn removal_next(f: FileRemovalView, e: RemovalEventView) -> (
    FileRemovalView,
    RemovalActionView,
) {
    match e {
        RemovalEventView::Begin => (
            removal_at(f, RemovalPhase::Directory),
            RemovalActionView::Resolve { dir: directory_of(f.target) },
        ),
        RemovalEventView::Resolved { root, dir } => if lies_below(root, dir) {
            (removal_at(f, RemovalPhase::File), RemovalActionView::LookUp)
        } else {
            concluded(f, DeletionView::Outside)
        },
        RemovalEventView::LookedUp { found, not_found, reason } => match lookup_outcome(
            found,
            not_found,
            reason,
        ) {
            None => (removal_at(f, RemovalPhase::Deletion), RemovalActionView::Delete),
            Some(outcome) => concluded(f, outcome),
        },
        RemovalEventView::Deleted => concluded(f, DeletionView::Removed),
        RemovalEventView::NotDeleted(reason) => concluded(f, DeletionView::Failed(reason)),
    }
}

impl FileRemoval {
    /// The removal of the file at this path below the root.
    pub fn new(target: String) -> (r: FileRemoval)
        ensures
            r@ == (FileRemovalView { target: target@, phase: RemovalPhase::Start }),
    {
        FileRemoval { target, phase: RemovalPhase::Start }
    }

    /// One step of the removal.
    pub fn remove_file(&mut self, event: RemovalEvent) -> (action: RemovalAction)
        requires
            removal_awaits(old(self)@, event@),
        ensures
            (final(self)@, action@) == removal_next(old(self)@, event@),
    {
        match event {
            RemovalEvent::Begin => {
                self.phase = RemovalPhase::Directory;
                RemovalAction::Resolve { dir: make_directory(self.target.as_str()) }
            },
            RemovalEvent::Resolved { root, dir } => {
                if is_below(&root, &dir) {
                    self.phase = RemovalPhase::File;
                    return RemovalAction::LookUp;
                }
                self.phase = RemovalPhase::End;
                RemovalAction::Conclude(Deletion::Outside)
            },
            RemovalEvent::LookedUp { found, not_found, reason } => {
                match looked_up(found, not_found, reason) {
                    None => {
                        self.phase = RemovalPhase::Deletion;
                        RemovalAction::Delete
                    },
                    Some(outcome) => {
                        self.phase = RemovalPhase::End;
                        RemovalAction::Conclude(outcome)
                    },
                }
            },
            RemovalEvent::Deleted => {
                self.phase = RemovalPhase::End;
                RemovalAction::Conclude(Deletion::Removed)
            },
            RemovalEvent::NotDeleted(reason) => {
                self.phase = RemovalPhase::End;
                RemovalAction::Conclude(Deletion::Failed(reason))
            },
        }
    }
}

/// A removal with one more file in it. A refused file failed, whatever else happened to it.
pub open spec fn noted(r: RemovalView, step: StepView, outcome: DeletionView) -> RemovalView {
    if step.target is None {
        RemovalView { failed: r.failed.push((step.file, "path escapes the target root"@)), ..r }
    } else {
        match outcome {
            DeletionView::Absent => RemovalView { absent: r.absent.push(step.file), ..r },
            DeletionView::Removed => RemovalView { removed: r.removed.push(step.file), ..r },
            DeletionView::Outside => RemovalView {
                failed: r.failed.push((step.file, "path escapes the target root"@)),
                ..r
            },
            DeletionView::Failed(reason) => RemovalView {
                failed: r.failed.push((step.file, reason)),
                ..r
            },
        }
    }
}

/// The removal that these outcomes of these steps make up.
pub open spec fn tally(steps: Seq<StepView>, outcomes: Seq<DeletionView>) -> RemovalView
    decreases steps.len(),
{
    if steps.len() == 0 {
        nothing_removed()
    } else {
        noted(tally(steps.drop_last(), outcomes.drop_last()), steps.last(), outcomes.last())
    }
}

/// Reports on a removal, step by step. A step that was refused has some outcome too, which does not
/// count.
pub fn report(steps: &[RemovalStep], outcomes: &[Deletion]) -> (r: Removal)
    requires
        steps@.len() == outcomes@.len(),
    ensures
        r@ == tally(step_views(steps@), deletion_views(outcomes@)),
{
    let ghost ss = step_views(steps@);
    let ghost os = deletion_views(outcomes@);
    let mut r = Removal::default();
    let mut i: usize = 0;
    while i < steps.len()
        invariant
            i <= steps@.len(),
            steps@.len() == outcomes@.len(),
            ss == step_views(steps@),
            os == deletion_views(outcomes@),
            r@ == tally(ss.take(i as int), os.take(i as int)),
        decreases steps@.len() - i,
    {
        assert(ss.take(i + 1).drop_last() =~= ss.take(i as int));
        assert(os.take(i + 1).drop_last() =~= os.take(i as int));
        assert(ss.take(i + 1).last() == steps@[i as int]@);
        assert(os.take(i + 1).last() == outcomes@[i as int]@);
        let ghost before = r@;
        let file = steps[i].file.clone();
        match &steps[i].target {
            None => {
                r.failed.push((file, "path escapes the target root".to_owned()));
            },
            Some(_) => {
                match &outcomes[i] {
                    Deletion::Absent => {
                        r.absent.push(file);
                    },
                    Deletion::Removed => {
                        r.removed.push(file);
                    },
                    Deletion::Outside => {
                        r.failed.push((file, "path escapes the target root".to_owned()));
                    },
                    Deletion::Failed(reason) => {
                        r.failed.push((file, reason.clone()));
                    },
                }
            },
        }
        let ghost want = noted(before, ss[i as int], os[i as int]);
        assert(r@.removed =~= want.removed);
        assert(r@.absent =~= want.absent);
        assert(r@.failed =~= want.failed);
        i = i + 1;
    }
    assert(ss.take(i as int) =~= ss);
    assert(os.take(i as int) =~= os);
    r
}

/// An answer without words declines nothing: an empty line, a line of white space, and no line at
/// all keep every application.
pub proof fn law_no_words_keep_everything(line: Seq<char>, count: nat, i: int)
    requires
        forall|k: int| 0 <= k < line.len() ==> text::is_space(#[trigger] line[k]),
    ensures
        !names_app(text::words(line), count, i),
        complaints(text::words(line), count) == Seq::<char>::empty(),
    decreases line.len(),
{
    if line.len() > 0 {
        assert(text::is_space(line[0]));
        assert forall|k: int| 0 <= k < line.drop_first().len() implies text::is_space(
            #[trigger] line.drop_first()[k],
        ) by {
            assert(line.drop_first()[k] == line[k + 1]);
        }
        law_no_words_keep_everything(line.drop_first(), count, i);
    }
}

/// Only an application of the menu can be declined.
pub proof fn law_declined_is_on_the_menu(words: Seq<Seq<char>>, count: nat, i: int)
    requires
        names_app(words, count, i),
        0 <= i,
    ensures
        i < count,
{
}

/// How far below its start a path has gone after these components.
pub open spec fn depth(parts: Seq<Seq<char>>) -> int
    decreases parts.len(),
{
    if parts.len() == 0 {
        0
    } else if parts.last() == ".."@ {
        depth(parts.drop_last()) - 1
    } else if parts.last() == "."@ || parts.last().len() == 0 {
        depth(parts.drop_last())
    } else {
        depth(parts.drop_last()) + 1
    }
}

/// A file that is not refused lies below the root: its path there does not begin with a separator,
/// so it is relative, and no prefix of it leads above where it started.
pub proof fn law_target_stays_below_the_root(file: Seq<char>, n: int)
    requires
        step_of(file).target is Some,
        0 <= n <= text::pieces(step_of(file).target->Some_0, '/').len(),
    ensures
        ({
            let target = step_of(file).target->Some_0;
            &&& target.len() > 0 ==> target[0] != '/'
            &&& depth(text::pieces(target, '/').take(n)) >= 0
        }),
    decreases n,
{
    lemma_strip_leading(file, '/');
    let parts = text::pieces(below_root(file), '/');
    if n > 0 {
        law_target_stays_below_the_root(file, n - 1);
        assert(parts.take(n).drop_last() =~= parts.take(n - 1));
        assert(parts.take(n).last() == parts[n - 1]);
        assert(parts.contains(parts[n - 1]));
    }
}

/// What is left does not begin with what was stripped.
proof fn lemma_strip_leading(s: Seq<char>, c: char)
    ensures
        text::strip_leading(s, c).len() > 0 ==> text::strip_leading(s, c)[0] != c,
    decreases s.len(),
{
    if s.len() > 0 && s[0] == c {
        lemma_strip_leading(s.drop_first(), c);
    }
}

/// A file is deleted only once it was found, and it is looked up only once its directory was found
/// to lie below the root.
pub proof fn law_nothing_outside_the_root_is_deleted(f: FileRemovalView, e: RemovalEventView)
    requires
        removal_awaits(f, e),
    ensures
        removal_next(f, e).1 is Delete ==> f.phase == RemovalPhase::File && e is LookedUp,
        removal_next(f, e).0.phase == RemovalPhase::File ==> (e matches RemovalEventView::Resolved {
            root,
            dir,
        } && lies_below(root, dir)),
{
}

/// A path that leaves the root by way of a link is refused rather than followed: nothing is looked
/// up or deleted, and the file is reported as failed, with nothing removed for it.
pub proof fn law_a_link_out_of_the_root_is_refused(
    r: RemovalView,
    file: Seq<char>,
    root: Seq<u8>,
    dir: Seq<u8>,
)
    requires
        step_of(file).target is Some,
        !lies_below(root, dir),
    ensures
        ({
            let target = step_of(file).target->Some_0;
            let start = FileRemovalView { target, phase: RemovalPhase::Start };
            let (f1, a1) = removal_next(start, RemovalEventView::Begin);
            let (f2, a2) = removal_next(f1, RemovalEventView::Resolved { root, dir });
            let report = noted(r, step_of(file), DeletionView::Outside);
            &&& a1 == (RemovalActionView::Resolve { dir: directory_of(target) })
            &&& a2 == RemovalActionView::Conclude(DeletionView::Outside)
            &&& report.failed == r.failed.push((file, "path escapes the target root"@))
            &&& report.removed == r.removed
            &&& report.absent == r.absent
        }),
{
}

/// A file counts as absent only if the system says that there is none: any other reason why it could
/// not be looked up is a failure.
pub proof fn law_absent_means_not_there(found: bool, not_found: bool, reason: Seq<char>)
    ensures
        lookup_outcome(found, not_found, reason) is None <==> found,
        lookup_outcome(found, not_found, reason) == Some(DeletionView::Absent) <==> !found
            && not_found,
{
}

/// Every file of a removal is reported once: it was removed, or absent, or it failed.
pub proof fn law_every_file_is_reported_once(steps: Seq<StepView>, outcomes: Seq<DeletionView>)
    requires
        steps.len() == outcomes.len(),
    ensures
        ({
            let r = tally(steps, outcomes);
            let files = steps.map_values(|s: StepView| s.file);
            let failed = r.failed.map_values(|f: (Seq<char>, Seq<char>)| f.0);
            files.to_multiset() == r.removed.to_multiset().add(r.absent.to_multiset()).add(
                failed.to_multiset(),
            )
        }),
    decreases steps.len(),
{
    broadcast use vstd::seq_lib::group_to_multiset_ensures;

    let r = tally(steps, outcomes);
    let files = steps.map_values(|s: StepView| s.file);
    let failed = r.failed.map_values(|f: (Seq<char>, Seq<char>)| f.0);
    if steps.len() == 0 {
        assert(files =~= Seq::empty());
        assert(failed =~= Seq::empty());
        assert(files.to_multiset() =~= r.removed.to_multiset().add(r.absent.to_multiset()).add(
            failed.to_multiset(),
        ));
    } else {
        let r0 = tally(steps.drop_last(), outcomes.drop_last());
        let files0 = steps.drop_last().map_values(|s: StepView| s.file);
        let failed0 = r0.failed.map_values(|f: (Seq<char>, Seq<char>)| f.0);
        law_every_file_is_reported_once(steps.drop_last(), outcomes.drop_last());
        assert(files =~= files0.push(steps.last().file));
        if r.failed.len() > r0.failed.len() {
            assert(failed =~= failed0.push(steps.last().file));
        } else {
            assert(failed =~= failed0);
        }
        assert(files.to_multiset() =~= r.removed.to_multiset().add(r.absent.to_multiset()).add(
            failed.to_multiset(),
        ));
    }
}

/// A removal fails on exactly the files that were refused, by their path or for a link in it, and
/// those that could not be looked up or deleted. In particular a file that is missing is no failure.
pub proof fn law_clean_unless_refused_or_failed(steps: Seq<StepView>, outcomes: Seq<DeletionView>)
    requires
        steps.len() == outcomes.len(),
    ensures
        tally(steps, outcomes).failed.len() == 0 <==> forall|i: int|
            0 <= i < steps.len() ==> (#[trigger] steps[i]).target is Some && !(outcomes[i] is Failed
                || outcomes[i] is Outside),
    decreases steps.len(),
{
    if steps.len() > 0 {
        let s0 = steps.drop_last();
        let o0 = outcomes.drop_last();
        law_clean_unless_refused_or_failed(s0, o0);
        let clean = |ss: Seq<StepView>, os: Seq<DeletionView>|
            forall|i: int|
                0 <= i < ss.len() ==> (#[trigger] ss[i]).target is Some && !(os[i] is Failed || os[i] is Outside);
        assert(steps.last() == steps[steps.len() - 1]);
        assert(outcomes.last() == outcomes[steps.len() - 1]);
        assert(forall|i: int| 0 <= i < s0.len() ==> #[trigger] s0[i] == steps[i] && o0[i] == outcomes[i]);
        if clean(s0, o0) && steps.last().target is Some && !(outcomes.last() is Failed || outcomes.last() is Outside) {
            assert forall|i: int| 0 <= i < steps.len() implies (#[trigger] steps[i]).target is Some
                && !(outcomes[i] is Failed || outcomes[i] is Outside) by {
                if i < s0.len() {
                    assert(s0[i] == steps[i]);
                }
            }
        }
        if clean(steps, outcomes) {
            assert forall|i: int| 0 <= i < s0.len() implies (#[trigger] s0[i]).target is Some && !(
            o0[i] is Failed || o0[i] is Outside) by {
                assert(s0[i] == steps[i]);
            }
        }
    }
}

/// Where a directory really is.
pub enum Resolution {
    At(Seq<u8>),
    Missing,
    Blocked(Seq<char>),
}

/// A file system in which files are removed: which files are there changes, and everything else is
/// laid down here.
pub struct World {
    /// Where the root really is.
    pub root: Seq<u8>,
    /// Where a directory below the root really is, while these files are there. Links are files.
    pub real: spec_fn(Set<Seq<char>>, Seq<char>) -> Resolution,
    /// Which file a path is, whose directory is really there. Two paths may be one file.
    pub place: spec_fn(Seq<u8>, Seq<char>) -> Seq<char>,
    /// Why a file cannot be looked up, if it cannot.
    pub blocked: spec_fn(Seq<char>) -> Option<Seq<char>>,
    /// Why a file cannot be deleted, if it cannot.
    pub stuck: spec_fn(Seq<char>) -> Option<Seq<char>>,
}

/// Deleting a file does not move a directory. If the file was a link on the way to the directory,
/// the directory is not found any more.
pub open spec fn deleting_moves_nothing(w: World) -> bool {
    forall|files: Set<Seq<char>>, file: Seq<char>, dir: Seq<char>| #[trigger]
        (w.real)(files.remove(file), dir) == (w.real)(files, dir) || (w.real)(
            files.remove(file),
            dir,
        ) is Missing
}

/// The file that a path is, while these files are there; nothing if its directory is not found.
pub open spec fn file_at(w: World, files: Set<Seq<char>>, target: Seq<char>) -> Option<Seq<char>> {
    match (w.real)(files, directory_of(target)) {
        Resolution::At(dir) => Some((w.place)(dir, target)),
        _ => None,
    }
}

/// What the file system does with a request for the file at this path: the files that are there
/// then, and what it answers.
pub open spec fn answered(
    w: World,
    files: Set<Seq<char>>,
    target: Seq<char>,
    a: RemovalActionView,
) -> (Set<Seq<char>>, RemovalEventView) {
    let missing = RemovalEventView::LookedUp {
        found: false,
        not_found: true,
        reason: Seq::empty(),
    };
    match a {
        RemovalActionView::Resolve { dir } => (
            files,
            match (w.real)(files, dir) {
                Resolution::At(dir) => RemovalEventView::Resolved { root: w.root, dir },
                Resolution::Missing => missing,
                Resolution::Blocked(reason) => RemovalEventView::LookedUp {
                    found: false,
                    not_found: false,
                    reason,
                },
            },
        ),
        RemovalActionView::LookUp => (
            files,
            match file_at(w, files, target) {
                Some(file) => match (w.blocked)(file) {
                    Some(reason) => RemovalEventView::LookedUp {
                        found: false,
                        not_found: false,
                        reason,
                    },
                    None => RemovalEventView::LookedUp {
                        found: files.contains(file),
                        not_found: !files.contains(file),
                        reason: Seq::empty(),
                    },
                },
                None => missing,
            },
        ),
        RemovalActionView::Delete => match file_at(w, files, target) {
            Some(file) => match (w.stuck)(file) {
                Some(reason) => (files, RemovalEventView::NotDeleted(reason)),
                None => (files.remove(file), RemovalEventView::Deleted),
            },
            None => (files, RemovalEventView::NotDeleted(Seq::empty())),
        },
        RemovalActionView::Conclude(_) => (files, RemovalEventView::Begin),
    }
}

/// How many requests a removal can still make.
pub open spec fn requests_left(phase: RemovalPhase) -> int {
    match phase {
        RemovalPhase::Start => 4,
        RemovalPhase::Directory => 3,
        RemovalPhase::File => 2,
        RemovalPhase::Deletion => 1,
        RemovalPhase::End => 0,
    }
}

/// The rest of the removal of one file: the files that are there then, and what became of the step.
pub open spec fn removal_of(
    w: World,
    files: Set<Seq<char>>,
    f: FileRemovalView,
    e: RemovalEventView,
) -> (Set<Seq<char>>, DeletionView)
    decreases requests_left(f.phase),
    when removal_awaits(f, e)
{
    let (f2, a) = removal_next(f, e);
    match a {
        RemovalActionView::Conclude(outcome) => (files, outcome),
        _ => {
            let (files2, e2) = answered(w, files, f.target, a);
            removal_of(w, files2, f2, e2)
        },
    }
}

/// All steps of a removal, one after the other: the files that are there then, and what became of
/// each step.
pub open spec fn removal_of_all(w: World, files: Set<Seq<char>>, steps: Seq<StepView>) -> (
    Set<Seq<char>>,
    Seq<DeletionView>,
)
    decreases steps.len(),
{
    if steps.len() == 0 {
        (files, Seq::empty())
    } else {
        let (files2, outcomes) = removal_of_all(w, files, steps.drop_last());
        match steps.last().target {
            None => (files2, outcomes.push(DeletionView::Outside)),
            Some(target) => {
                let start = FileRemovalView { target, phase: RemovalPhase::Start };
                let (files3, outcome) = removal_of(w, files2, start, RemovalEventView::Begin);
                (files3, outcomes.push(outcome))
            },
        }
    }
}

/// Is there nothing at this path, for one who is free to look?
spec fn vacant(w: World, files: Set<Seq<char>>, target: Seq<char>) -> bool {
    match (w.real)(files, directory_of(target)) {
        Resolution::At(dir) => {
            let file = (w.place)(dir, target);
            lies_below(w.root, dir) && (w.blocked)(file) is None && !files.contains(file)
        },
        Resolution::Missing => true,
        Resolution::Blocked(_) => false,
    }
}

/// What becomes of one file: nothing is there afterwards if it did not fail, and nothing changes if
/// nothing was there.
proof fn lemma_one_removal(w: World, files: Set<Seq<char>>, target: Seq<char>)
    requires
        deleting_moves_nothing(w),
    ensures
        ({
            let start = FileRemovalView { target, phase: RemovalPhase::Start };
            let (files2, outcome) = removal_of(w, files, start, RemovalEventView::Begin);
            &&& outcome is Removed || outcome is Absent ==> vacant(w, files2, target)
            &&& vacant(w, files, target) ==> files2 == files && outcome is Absent
            &&& files2 == files || exists|file: Seq<char>| files2 == #[trigger] files.remove(file)
        }),
{
    reveal_with_fuel(removal_of, 5);
    match file_at(w, files, target) {
        Some(file) => {
            let dir = directory_of(target);
            assert((w.real)(files.remove(file), dir) == (w.real)(files, dir) || (w.real)(
                files.remove(file),
                dir,
            ) is Missing);
        },
        None => {},
    }
}

/// Where nothing is, deleting another file leaves nothing.
proof fn lemma_stays_vacant(
    w: World,
    files: Set<Seq<char>>,
    file: Seq<char>,
    target: Seq<char>,
)
    requires
        deleting_moves_nothing(w),
        vacant(w, files, target),
    ensures
        vacant(w, files.remove(file), target),
{
    let dir = directory_of(target);
    assert((w.real)(files.remove(file), dir) == (w.real)(files, dir) || (w.real)(
        files.remove(file),
        dir,
    ) is Missing);
}

/// After a removal in which nothing failed, nothing is at any of its paths.
proof fn lemma_all_vacant(w: World, files: Set<Seq<char>>, steps: Seq<StepView>)
    requires
        deleting_moves_nothing(w),
        forall|i: int|
            0 <= i < steps.len() ==> (#[trigger] steps[i]).target is Some && {
                let outcome = removal_of_all(w, files, steps).1[i];
                outcome is Removed || outcome is Absent
            },
    ensures
        removal_of_all(w, files, steps).1.len() == steps.len(),
        forall|i: int|
            0 <= i < steps.len() ==> vacant(
                w,
                removal_of_all(w, files, steps).0,
                (#[trigger] steps[i]).target->Some_0,
            ),
    decreases steps.len(),
{
    if steps.len() > 0 {
        let before = steps.drop_last();
        lemma_outcome_count(w, files, steps);
        lemma_outcome_count(w, files, before);
        let (files2, outcomes2) = removal_of_all(w, files, before);
        let (files3, outcomes3) = removal_of_all(w, files, steps);
        let last = steps.len() - 1;
        assert(steps[last].target is Some);
        let target = steps[last].target->Some_0;
        assert forall|i: int| 0 <= i < before.len() implies (#[trigger] before[i]).target is Some
            && {
            let outcome = outcomes2[i];
            outcome is Removed || outcome is Absent
        } by {
            assert(before[i] == steps[i]);
            assert(outcomes3[i] == outcomes2[i]);
        }
        lemma_all_vacant(w, files, before);
        lemma_one_removal(w, files2, target);
        assert(outcomes3[last] is Removed || outcomes3[last] is Absent);
        assert forall|i: int| 0 <= i < steps.len() implies vacant(
            w,
            files3,
            (#[trigger] steps[i]).target->Some_0,
        ) by {
            if i < last {
                assert(before[i] == steps[i]);
                if files3 != files2 {
                    let file = choose|file: Seq<char>| files3 == #[trigger] files2.remove(file);
                    lemma_stays_vacant(w, files2, file, steps[i].target->Some_0);
                }
            }
        }
    }
}

/// Something becomes of every step.
proof fn lemma_outcome_count(w: World, files: Set<Seq<char>>, steps: Seq<StepView>)
    ensures
        removal_of_all(w, files, steps).1.len() == steps.len(),
    decreases steps.len(),
{
    if steps.len() > 0 {
        lemma_outcome_count(w, files, steps.drop_last());
    }
}

/// Where nothing is at any path, a removal finds every file absent and changes nothing.
proof fn lemma_all_absent(w: World, files: Set<Seq<char>>, steps: Seq<StepView>)
    requires
        deleting_moves_nothing(w),
        forall|i: int|
            0 <= i < steps.len() ==> (#[trigger] steps[i]).target is Some && vacant(
                w,
                files,
                steps[i].target->Some_0,
            ),
    ensures
        removal_of_all(w, files, steps).0 == files,
        tally(steps, removal_of_all(w, files, steps).1) == (RemovalView {
            removed: Seq::empty(),
            absent: steps.map_values(|s: StepView| s.file),
            failed: Seq::empty(),
        }),
    decreases steps.len(),
{
    let files_named = steps.map_values(|s: StepView| s.file);
    if steps.len() > 0 {
        let before = steps.drop_last();
        assert forall|i: int| 0 <= i < before.len() implies (#[trigger] before[i]).target is Some
            && vacant(w, files, before[i].target->Some_0) by {
            assert(before[i] == steps[i]);
        }
        lemma_all_absent(w, files, before);
        let last = steps.len() - 1;
        assert(steps[last].target is Some);
        lemma_one_removal(w, files, steps[last].target->Some_0);
        let (_, outcomes) = removal_of_all(w, files, steps);
        assert(outcomes.drop_last() =~= removal_of_all(w, files, before).1);
        assert(files_named =~= before.map_values(|s: StepView| s.file).push(steps.last().file));
    } else {
        assert(files_named =~= Seq::empty());
    }
}

/// A second removal after a clean one finds every file absent, in the order of the manifest, fails
/// on none, and changes nothing.
pub proof fn law_a_second_removal_changes_nothing(
    w: World,
    files: Set<Seq<char>>,
    declined: Seq<AppView>,
)
    requires
        deleting_moves_nothing(w),
        ({
            let steps = steps_of(files_of(declined));
            tally(steps, removal_of_all(w, files, steps).1).failed.len() == 0
        }),
    ensures
        ({
            let steps = steps_of(files_of(declined));
            let (files1, _) = removal_of_all(w, files, steps);
            let (files2, outcomes2) = removal_of_all(w, files1, steps);
            &&& files2 == files1
            &&& tally(steps, outcomes2) == (RemovalView {
                removed: Seq::empty(),
                absent: files_of(declined),
                failed: Seq::empty(),
            })
        }),
{
    let steps = steps_of(files_of(declined));
    let (files1, outcomes1) = removal_of_all(w, files, steps);
    lemma_outcome_count(w, files, steps);
    law_clean_unless_refused_or_failed(steps, outcomes1);
    lemma_all_vacant(w, files, steps);
    lemma_all_absent(w, files1, steps);
    assert(steps.map_values(|s: StepView| s.file) =~= files_of(declined));
}

/// The first entry with a key is the one that is found.
proof fn lemma_find(entries: Seq<(Seq<char>, Node)>, key: Seq<char>, at: int)
    requires
        0 <= at < entries.len(),
        entries[at].0 == key,
        forall|i: int| 0 <= i < at ==> (#[trigger] entries[i]).0 != key,
    ensures
        find(entries, key) == Some(entries[at].1),
    decreases entries.len(),
{
    if at > 0 {
        let rest = entries.drop_first();
        assert(entries[0].0 != key);
        assert forall|i: int| 0 <= i < at - 1 implies (#[trigger] rest[i]).0 != key by {
            assert(rest[i] == entries[i + 1]);
        }
        lemma_find(rest, key, at - 1);
    }
}

/// What is found has the key.
proof fn lemma_found(entries: Seq<(Seq<char>, Node)>, key: Seq<char>)
    ensures
        find(entries, key) is Some ==> exists|i: int|
            0 <= i < entries.len() && (#[trigger] entries[i]).0 == key && find(entries, key)
                == Some(entries[i].1),
    decreases entries.len(),
{
    if entries.len() > 0 && entries[0].0 != key {
        let rest = entries.drop_first();
        lemma_found(rest, key);
        if find(rest, key) is Some {
            let i = choose|i: int|
                0 <= i < rest.len() && (#[trigger] rest[i]).0 == key && find(rest, key) == Some(
                    rest[i].1,
                );
            assert(entries[i + 1] == rest[i]);
        }
    }
}

/// An array of strings holds these strings.
proof fn lemma_texts(files: Seq<Seq<char>>)
    ensures
        as_texts(Some(Node::List(files.map_values(|f: Seq<char>| Node::Text(f))))) == Some(files),
{
    let items = files.map_values(|f: Seq<char>| Node::Text(f));
    assert(items.map_values(|n: Node| n->Text_0) =~= files);
}

/// A table with a title, a summary and a list of files, at whatever places and whatever else it holds,
/// makes the application with that title, that summary and those files, named by its key.
pub proof fn law_a_table_makes_its_application(
    name: Seq<char>,
    entries: Seq<(Seq<char>, Node)>,
    title: (int, Seq<char>),
    summary: (int, Seq<char>),
    files: (int, Seq<Seq<char>>),
)
    requires
        forall|i: int, j: int|
            0 <= i < j < entries.len() ==> (#[trigger] entries[i]).0 != (#[trigger] entries[j]).0,
        0 <= title.0 < entries.len(),
        0 <= summary.0 < entries.len(),
        0 <= files.0 < entries.len(),
        entries[title.0] == ("title"@, Node::Text(title.1)),
        entries[summary.0] == ("summary"@, Node::Text(summary.1)),
        entries[files.0] == (
            "files"@,
            Node::List(files.1.map_values(|f: Seq<char>| Node::Text(f))),
        ),
    ensures
        app_of(name, Node::Table(entries)) == Ok::<AppView, Fault>(
            AppView { title: title.1, summary: summary.1, files: files.1, name },
        ),
{
    lemma_find(entries, "title"@, title.0);
    lemma_find(entries, "summary"@, summary.0);
    lemma_find(entries, "files"@, files.0);
    lemma_texts(files.1);
}

/// An array makes an application too: of its first three values, in that order.
pub proof fn law_an_array_makes_its_application(
    name: Seq<char>,
    title: Seq<char>,
    summary: Seq<char>,
    files: Seq<Seq<char>>,
    more: Seq<Node>,
)
    ensures
        ({
            let list = Node::List(files.map_values(|f: Seq<char>| Node::Text(f)));
            let items = seq![Node::Text(title), Node::Text(summary), list] + more;
            app_of(name, Node::List(items)) == Ok::<AppView, Fault>(
                AppView { title, summary, files, name },
            )
        }),
{
    let list = Node::List(files.map_values(|f: Seq<char>| Node::Text(f)));
    let items = seq![Node::Text(title), Node::Text(summary), list] + more;
    assert(items[0] == Node::Text(title));
    assert(items[1] == Node::Text(summary));
    assert(items[2] == list);
    lemma_texts(files);
}

/// Is this value an array of strings?
pub open spec fn lists_texts(node: Node) -> bool {
    node matches Node::List(items) && forall|i: int|
        0 <= i < items.len() ==> (#[trigger] items[i]) is Text
}

/// A table without a string as its title is refused for its title; with one, but without a string as
/// its summary, for its summary; with both, but without an array of strings as its files, for its
/// files.
pub proof fn law_a_member_that_is_missing_is_named(
    name: Seq<char>,
    entries: Seq<(Seq<char>, Node)>,
    title: int,
    summary: int,
)
    ensures
        ({
            let r = app_of(name, Node::Table(entries));
            let titled = 0 <= title < entries.len() && entries[title].0 == "title"@
                && entries[title].1 is Text && forall|i: int|
                0 <= i < title ==> (#[trigger] entries[i]).0 != "title"@;
            let summed = 0 <= summary < entries.len() && entries[summary].0 == "summary"@
                && entries[summary].1 is Text && forall|i: int|
                0 <= i < summary ==> (#[trigger] entries[i]).0 != "summary"@;
            &&& (forall|i: int|
                0 <= i < entries.len() && (#[trigger] entries[i]).0 == "title"@ ==> !(
                entries[i].1 is Text)) ==> r == Err::<AppView, Fault>(Fault::Title)
            &&& titled && (forall|i: int|
                0 <= i < entries.len() && (#[trigger] entries[i]).0 == "summary"@ ==> !(
                entries[i].1 is Text)) ==> r == Err::<AppView, Fault>(Fault::Summary)
            &&& titled && summed && (forall|i: int|
                0 <= i < entries.len() && (#[trigger] entries[i]).0 == "files"@ ==> !lists_texts(
                    entries[i].1,
                )) ==> r == Err::<AppView, Fault>(Fault::Files)
        }),
{
    lemma_found(entries, "title"@);
    lemma_found(entries, "summary"@);
    lemma_found(entries, "files"@);
    if 0 <= title < entries.len() && entries[title].0 == "title"@ && entries[title].1 is Text && (
    forall|i: int| 0 <= i < title ==> (#[trigger] entries[i]).0 != "title"@) {
        lemma_find(entries, "title"@, title);
    }
    if 0 <= summary < entries.len() && entries[summary].0 == "summary"@ && entries[summary].1
        is Text && (forall|i: int| 0 <= i < summary ==> (#[trigger] entries[i]).0 != "summary"@) {
        lemma_find(entries, "summary"@, summary);
    }
}

/// An array is refused for the first of its three values that does not fit or is not there; a value
/// that is neither table nor array is refused as such.
pub proof fn law_a_value_that_does_not_fit_is_named(name: Seq<char>, node: Node)
    ensures
        ({
            let r = app_of(name, node);
            &&& node is Text || node is Other ==> r == Err::<AppView, Fault>(Fault::NotATable)
            &&& node matches Node::List(items) ==> {
                let titled = items.len() > 0 && items[0] is Text;
                let summed = items.len() > 1 && items[1] is Text;
                let listed = items.len() > 2 && lists_texts(items[2]);
                &&& !titled ==> r == Err::<AppView, Fault>(Fault::Title)
                &&& titled && !summed ==> r == Err::<AppView, Fault>(Fault::Summary)
                &&& titled && summed && !listed ==> r == Err::<AppView, Fault>(Fault::Files)
            }
        }),
{
}

/// What is said of each fault.
pub proof fn law_faults_are_told_in_words()
    ensures
        fault_text(Fault::NotATable) == "not a table"@,
        fault_text(Fault::Title) == "no usable `title`"@,
        fault_text(Fault::Summary) == "no usable `summary`"@,
        fault_text(Fault::Files) == "no usable `files`"@,
{
}

/// A manifest whose entries are all applications offers each of them, in its place.
pub proof fn law_every_entry_makes_its_application(doc: Seq<(Seq<char>, Node)>)
    requires
        forall|i: int|
            0 <= i < doc.len() ==> app_of((#[trigger] doc[i]).0, doc[i].1) is Ok,
    ensures
        apps_of(doc) is Ok,
        apps_of(doc)->Ok_0.len() == doc.len(),
        forall|i: int|
            0 <= i < doc.len() ==> app_of((#[trigger] doc[i]).0, doc[i].1) == Ok::<AppView, Fault>(
                apps_of(doc)->Ok_0[i],
            ),
    decreases doc.len(),
{
    if doc.len() > 0 {
        let before = doc.drop_last();
        assert forall|i: int| 0 <= i < before.len() implies app_of(
            (#[trigger] before[i]).0,
            before[i].1,
        ) is Ok by {
            assert(before[i] == doc[i]);
        }
        law_every_entry_makes_its_application(before);
        assert(app_of(doc[doc.len() - 1].0, doc[doc.len() - 1].1) is Ok);
        assert forall|i: int| 0 <= i < doc.len() implies app_of((#[trigger] doc[i]).0, doc[i].1)
            == Ok::<AppView, Fault>(apps_of(doc)->Ok_0[i]) by {
            if i < before.len() {
                assert(before[i] == doc[i]);
            }
        }
    }
}

/// The first entry that is no application makes the manifest unusable, and is named with its fault,
/// whatever comes after it.
pub proof fn law_the_first_entry_that_is_none_is_named(doc: Seq<(Seq<char>, Node)>, at: int)
    requires
        0 <= at < doc.len(),
        forall|i: int| 0 <= i < at ==> app_of((#[trigger] doc[i]).0, doc[i].1) is Ok,
        app_of(doc[at].0, doc[at].1) is Err,
    ensures
        apps_of(doc) == Err::<Seq<AppView>, (Seq<char>, Fault)>(
            (doc[at].0, app_of(doc[at].0, doc[at].1)->Err_0),
        ),
{
    let prefix = doc.take(at + 1);
    let before = doc.take(at);
    assert(prefix.drop_last() =~= before);
    assert(prefix.last() == doc[at]);
    assert forall|i: int| 0 <= i < before.len() implies app_of(
        (#[trigger] before[i]).0,
        before[i].1,
    ) is Ok by {
        assert(before[i] == doc[i]);
    }
    law_every_entry_makes_its_application(before);
    lemma_apps_of_prefix(doc, at + 1);
}

/// A manifest with applications offers them all and no others; an empty one offers no choice; one with
/// an entry that is none, or that is not TOML, offers no choice and says why.
pub proof fn law_a_manifest_offers_its_applications(
    offer: Offer,
    text: Seq<char>,
    doc: Seq<(Seq<char>, Node)>,
)
    requires
        offers(offer, text),
    ensures
        toml_tree::toml_document(text) is None ==> offer is Unreadable,
        toml_tree::toml_document(text) == Some(doc) && doc.len() == 0 ==> offer is Nothing,
        toml_tree::toml_document(text) == Some(doc) && doc.len() > 0 && (forall|i: int|
            0 <= i < doc.len() ==> app_of((#[trigger] doc[i]).0, doc[i].1) is Ok) ==> offer is Apps
            && offer->Apps_0@.len() == doc.len() && forall|i: int|
            0 <= i < doc.len() ==> app_of(doc[i].0, doc[i].1) == Ok::<AppView, Fault>(
                (#[trigger] offer->Apps_0@[i])@,
            ),
        toml_tree::toml_document(text) == Some(doc) && (exists|i: int|
            0 <= i < doc.len() && app_of((#[trigger] doc[i]).0, doc[i].1) is Err) ==> offer
            is Unreadable,
{
    if forall|i: int| 0 <= i < doc.len() ==> app_of((#[trigger] doc[i]).0, doc[i].1) is Ok {
        law_every_entry_makes_its_application(doc);
        if toml_tree::toml_document(text) == Some(doc) && doc.len() > 0 {
            let views = app_views(offer->Apps_0@);
            assert forall|i: int| 0 <= i < doc.len() implies app_of(doc[i].0, doc[i].1) == Ok::<
                AppView,
                Fault,
            >((#[trigger] offer->Apps_0@[i])@) by {
                assert(views[i] == offer->Apps_0@[i]@);
            }
        }
    } else {
        lemma_one_bad_entry(doc);
    }
}

/// One entry that is no application is enough.
proof fn lemma_one_bad_entry(doc: Seq<(Seq<char>, Node)>)
    requires
        exists|i: int| 0 <= i < doc.len() && app_of((#[trigger] doc[i]).0, doc[i].1) is Err,
    ensures
        apps_of(doc) is Err,
    decreases doc.len(),
{
    let i = choose|i: int|
        0 <= i < doc.len() && app_of((#[trigger] doc[i]).0, doc[i].1) is Err;
    if i < doc.len() - 1 {
        assert(doc.drop_last()[i] == doc[i]);
        lemma_one_bad_entry(doc.drop_last());
    }
}

/// Each application has a line on the menu: its number, counted from 1, its title and its summary.
pub proof fn law_each_application_has_its_line(apps: Seq<AppView>, app: AppView)
    ensures
        menu_lines(Seq::empty()) == Seq::<char>::empty(),
        menu_lines(apps.push(app)) == menu_lines(apps) + ("  "@ + text::decimal(apps.len() + 1)
            + ". "@ + app.title + " - "@ + app.summary + "\n"@),
{
    assert(apps.push(app).drop_last() =~= apps);
}

/// A number of the menu, as the menu writes it, names its application. What is no number from 1 to
/// their count names none.
pub proof fn law_a_number_names_its_application(word: Seq<char>, count: nat, n: nat)
    ensures
        1 <= n <= count ==> choice(text::decimal(n), count) == Some((n - 1) as nat),
        n == 0 || n > count ==> choice(text::decimal(n), count) is None,
        text::number(word) is None ==> choice(word, count) is None,
        text::number(word) == Some(n) ==> choice(word, count) == choice(text::decimal(n), count),
{
    text::law_a_written_number_is_read_back(n);
}

/// An application is declined by its number on the menu among the words of the answer, and by nothing
/// else.
pub proof fn law_an_application_is_declined_by_its_number(
    words: Seq<Seq<char>>,
    count: nat,
    i: int,
    k: int,
)
    requires
        0 <= i,
    ensures
        0 <= k < words.len() && i < count && words[k] == text::decimal((i + 1) as nat)
            ==> names_app(words, count, i),
        names_app(words, count, i) ==> i < count && exists|k: int|
            0 <= k < words.len() && text::number(#[trigger] words[k]) == Some((i + 1) as nat),
{
    text::law_a_written_number_is_read_back((i + 1) as nat);
    if 0 <= k < words.len() && i < count && words[k] == text::decimal((i + 1) as nat) {
        assert(choice(words[k], count) == Some(i as nat));
    }
    if names_app(words, count, i) {
        let k = choose|k: int|
            0 <= k < words.len() && choice(#[trigger] words[k], count) == Some(i as nat);
        assert(text::number(words[k]) == Some((i + 1) as nat));
    }
}

/// Each word that is no number of the menu is told, quoted, with what it could have been; a word that
/// is one is not told.
pub proof fn law_each_word_that_names_nothing_is_told(
    words: Seq<Seq<char>>,
    word: Seq<char>,
    count: nat,
)
    ensures
        complaints(Seq::empty(), count) == Seq::<char>::empty(),
        (text::number(word) matches Some(n) && 1 <= n <= count) ==> complaints(
            words.push(word),
            count,
        ) == complaints(words, count),
        !(text::number(word) matches Some(n) && 1 <= n <= count) ==> complaints(
            words.push(word),
            count,
        ) == complaints(words, count) + ("  ignoring "@ + text::debug_text(word)
            + ": not one of 1.."@ + text::decimal(count) + "\n"@),
{
    assert(words.push(word).drop_last() =~= words);
}

/// What is declined is in order, each application once.
pub proof fn law_declined_once(declined: Seq<usize>, i: int, j: int)
    requires
        ascending(declined),
        0 <= i < declined.len(),
        0 <= j < declined.len(),
    ensures
        i < j <==> declined[i] < declined[j],
        i == j <==> declined[i] == declined[j],
{
}

/// A file is removed at its path without the separators at its start, unless some component of the
/// path goes up: then it is refused. It is named as the manifest names it.
pub proof fn law_a_file_is_removed_below_the_root(before: Seq<char>, rest: Seq<char>)
    requires
        forall|i: int| 0 <= i < before.len() ==> #[trigger] before[i] == '/',
        rest.len() > 0 ==> rest[0] != '/',
    ensures
        step_of(before + rest).file == before + rest,
        text::pieces(rest, '/').contains(".."@) ==> step_of(before + rest).target is None,
        !text::pieces(rest, '/').contains(".."@) ==> step_of(before + rest).target == Some(rest),
{
    text::law_stripping_takes_the_start_off(before, rest, '/');
}

/// A path that goes up is refused, wherever it does: as a whole, at its start, at its end or on the
/// way.
pub proof fn law_a_path_that_goes_up_is_refused(
    before: Seq<char>,
    head: Seq<char>,
    tail: Seq<char>,
)
    requires
        forall|i: int| 0 <= i < before.len() ==> #[trigger] before[i] == '/',
        head.len() > 0 ==> head[0] != '/',
        head.len() > 0,
    ensures
        step_of(before + ".."@).target is None,
        step_of(before + (".."@ + seq!['/'] + tail)).target is None,
        step_of(before + (head + seq!['/'] + ".."@)).target is None,
        step_of(before + (head + seq!['/'] + (".."@ + seq!['/'] + tail))).target is None,
{
    reveal_strlit("..");
    let up = ".."@;
    assert(!up.contains('/'));
    text::law_a_text_without_separator_is_one_piece(up, '/');
    text::law_pieces_join(up, tail, '/');
    text::law_pieces_join(head, up, '/');
    text::law_pieces_join(head, up + seq!['/'] + tail, '/');
    let h = text::pieces(head, '/');
    let t = text::pieces(tail, '/');
    assert(seq![up][0] == up);
    assert((seq![up] + t)[0] == up);
    assert((h + seq![up])[h.len() as int] == up);
    assert((h + (seq![up] + t))[h.len() as int] == up);
    law_a_file_is_removed_below_the_root(before, up);
    law_a_file_is_removed_below_the_root(before, up + seq!['/'] + tail);
    law_a_file_is_removed_below_the_root(before, head + seq!['/'] + up);
    law_a_file_is_removed_below_the_root(before, head + seq!['/'] + (up + seq!['/'] + tail));
}

/// The files of each application come one after the other, and each gets its step.
pub proof fn law_each_file_gets_its_step(apps: Seq<AppView>, app: AppView, i: int)
    ensures
        files_of(Seq::empty()) == Seq::<Seq<char>>::empty(),
        files_of(apps.push(app)) == files_of(apps) + app.files,
        steps_of(files_of(apps)).len() == files_of(apps).len(),
        0 <= i < files_of(apps).len() ==> steps_of(files_of(apps))[i] == step_of(files_of(apps)[i]),
{
    assert(apps.push(app).drop_last() =~= apps);
}

/// A root lies below itself, and so does everything behind it and a separator; a name that only begins
/// like it does not, nor does what begins otherwise or is shorter.
pub proof fn law_what_lies_below_a_root(root: Seq<u8>, rest: Seq<u8>, c: u8, dir: Seq<u8>, i: int)
    ensures
        lies_below(root, root),
        lies_below(root, root + seq![47u8] + rest),
        lies_below(seq![47u8], seq![47u8] + rest),
        root.len() > 0 && root[root.len() - 1] == 47 ==> lies_below(root, root + rest),
        root.len() > 0 && root[root.len() - 1] != 47 && c != 47 ==> !lies_below(
            root,
            root + seq![c] + rest,
        ),
        dir.len() < root.len() ==> !lies_below(root, dir),
        0 <= i < root.len() && i < dir.len() && root[i] != dir[i] ==> !lies_below(root, dir),
{
    let a = root + seq![47u8] + rest;
    assert(root.is_prefix_of(root)) by {
        assert(root.subrange(0, root.len() as int) =~= root);
    }
    assert(root.is_prefix_of(a)) by {
        assert(a.subrange(0, root.len() as int) =~= root);
    }
    let slash = seq![47u8];
    assert(slash.is_prefix_of(slash + rest)) by {
        assert((slash + rest).subrange(0, 1) =~= slash);
    }
    assert(root.is_prefix_of(root + rest)) by {
        assert((root + rest).subrange(0, root.len() as int) =~= root);
    }
    assert((root + seq![c] + rest)[root.len() as int] == c);
    if 0 <= i < root.len() && i < dir.len() && root[i] != dir[i] && root.is_prefix_of(dir) {
        assert(dir.subrange(0, root.len() as int)[i] == dir[i]);
    }
}

/// The directory of a path is what comes before its last separator; a path without one has none.
pub proof fn law_a_directory_is_what_comes_before_the_name(dir: Seq<char>, name: Seq<char>)
    requires
        !name.contains('/'),
    ensures
        directory_of(dir + seq!['/'] + name) == dir,
        directory_of(name) == Seq::<char>::empty(),
    decreases name.len(),
{
    let path = dir + seq!['/'] + name;
    if name.len() > 0 {
        let shorter = name.drop_last();
        assert(name.contains(name[name.len() - 1]));
        assert(!shorter.contains('/')) by {
            if shorter.contains('/') {
                let k = choose|k: int| 0 <= k < shorter.len() && shorter[k] == '/';
                assert(name[k] == '/');
            }
        }
        assert(path.drop_last() =~= dir + seq!['/'] + shorter);
        law_a_directory_is_what_comes_before_the_name(dir, shorter);
    } else {
        assert(path.last() == '/');
        assert(path.drop_last() =~= dir);
    }
}

/// A file's directory is resolved first; below the root the file is looked up, and outside it is
/// refused; one that is there is deleted. What came of each request is what the removal concludes.
pub proof fn law_a_removal_goes_request_by_request(
    f: FileRemovalView,
    root: Seq<u8>,
    dir: Seq<u8>,
    reason: Seq<char>,
)
    ensures
        ({
            let begun = removal_next(f, RemovalEventView::Begin);
            let resolved = removal_next(f, RemovalEventView::Resolved { root, dir });
            let there = removal_next(
                f,
                RemovalEventView::LookedUp { found: true, not_found: false, reason },
            );
            let gone = removal_next(
                f,
                RemovalEventView::LookedUp { found: false, not_found: true, reason },
            );
            let hidden = removal_next(
                f,
                RemovalEventView::LookedUp { found: false, not_found: false, reason },
            );
            let deleted = removal_next(f, RemovalEventView::Deleted);
            let kept = removal_next(f, RemovalEventView::NotDeleted(reason));
            let over = FileRemovalView { target: f.target, phase: RemovalPhase::End };
            &&& begun.0 == (FileRemovalView { target: f.target, phase: RemovalPhase::Directory })
            &&& begun.1 == (RemovalActionView::Resolve { dir: directory_of(f.target) })
            &&& lies_below(root, dir) ==> resolved == (
                FileRemovalView { target: f.target, phase: RemovalPhase::File },
                RemovalActionView::LookUp,
            )
            &&& !lies_below(root, dir) ==> resolved == (
                over,
                RemovalActionView::Conclude(DeletionView::Outside),
            )
            &&& there == (
                FileRemovalView { target: f.target, phase: RemovalPhase::Deletion },
                RemovalActionView::Delete,
            )
            &&& gone == (over, RemovalActionView::Conclude(DeletionView::Absent))
            &&& hidden == (over, RemovalActionView::Conclude(DeletionView::Failed(reason)))
            &&& deleted == (over, RemovalActionView::Conclude(DeletionView::Removed))
            &&& kept == (over, RemovalActionView::Conclude(DeletionView::Failed(reason)))
        }),
{
}

/// Every answer to a request of the removal is one that it waits for.
pub proof fn law_every_answer_to_a_removal_is_awaited(
    f: FileRemovalView,
    e: RemovalEventView,
    root: Seq<u8>,
    dir: Seq<u8>,
    found: bool,
    not_found: bool,
    reason: Seq<char>,
)
    requires
        removal_awaits(f, e),
    ensures
        ({
            let (g, a) = removal_next(f, e);
            let looked = RemovalEventView::LookedUp { found, not_found, reason };
            &&& a is Resolve ==> removal_awaits(g, RemovalEventView::Resolved { root, dir })
            &&& a is Resolve && !found ==> removal_awaits(g, looked)
            &&& a is LookUp ==> removal_awaits(g, looked)
            &&& a is Delete ==> removal_awaits(g, RemovalEventView::Deleted) && removal_awaits(
                g,
                RemovalEventView::NotDeleted(reason),
            )
        }),
{
}

/// In a file system: a file whose directory lies below the root is removed if it is there and can be
/// deleted, and only it; if it is not there, it is absent; and if it cannot be looked up or deleted,
/// the removal fails for that reason. Outside the root nothing is touched. A directory that is missing
/// makes the file absent, and one that cannot be resolved makes the removal fail.
pub proof fn law_what_becomes_of_a_file(w: World, files: Set<Seq<char>>, target: Seq<char>)
    ensures
        ({
            let start = FileRemovalView { target, phase: RemovalPhase::Start };
            let (left, outcome) = removal_of(w, files, start, RemovalEventView::Begin);
            match (w.real)(files, directory_of(target)) {
                Resolution::At(dir) => {
                    let file = (w.place)(dir, target);
                    let blocked = (w.blocked)(file);
                    let stuck = (w.stuck)(file);
                    let below = lies_below(w.root, dir);
                    &&& !below ==> left == files && outcome == DeletionView::Outside
                    &&& below && blocked is Some ==> left == files && outcome
                        == DeletionView::Failed(blocked->Some_0)
                    &&& below && blocked is None && !files.contains(file) ==> left == files
                        && outcome == DeletionView::Absent
                    &&& below && blocked is None && files.contains(file) && stuck is Some ==> left
                        == files && outcome == DeletionView::Failed(stuck->Some_0)
                    &&& below && blocked is None && files.contains(file) && stuck is None ==> left
                        == files.remove(file) && outcome == DeletionView::Removed
                },
                Resolution::Missing => left == files && outcome == DeletionView::Absent,
                Resolution::Blocked(reason) => left == files && outcome == DeletionView::Failed(
                    reason,
                ),
            }
        }),
{
    reveal_with_fuel(removal_of, 5);
}

/// A report tells of each file what became of it, in order: removed, absent, or failed with its reason;
/// one that was refused, by its path or by a link, failed because its path escapes the root.
pub proof fn law_a_report_tells_what_became_of_each_file(
    steps: Seq<StepView>,
    outcomes: Seq<DeletionView>,
    step: StepView,
    outcome: DeletionView,
)
    requires
        steps.len() == outcomes.len(),
    ensures
        ({
            let r = tally(steps, outcomes);
            let s = tally(steps.push(step), outcomes.push(outcome));
            let refused = step.target is None || outcome is Outside;
            &&& tally(Seq::empty(), Seq::empty()) == (RemovalView {
                removed: Seq::empty(),
                absent: Seq::empty(),
                failed: Seq::empty(),
            })
            &&& refused ==> s == (RemovalView {
                removed: r.removed,
                absent: r.absent,
                failed: r.failed.push((step.file, "path escapes the target root"@)),
            })
            &&& !refused && outcome is Removed ==> s == (RemovalView {
                removed: r.removed.push(step.file),
                absent: r.absent,
                failed: r.failed,
            })
            &&& !refused && outcome is Absent ==> s == (RemovalView {
                removed: r.removed,
                absent: r.absent.push(step.file),
                failed: r.failed,
            })
            &&& !refused && outcome is Failed ==> s == (RemovalView {
                removed: r.removed,
                absent: r.absent,
                failed: r.failed.push((step.file, outcome->Failed_0)),
            })
        }),
{
    assert(steps.push(step).drop_last() =~= steps);
    assert(outcomes.push(outcome).drop_last() =~= outcomes);
}

} // verus!
