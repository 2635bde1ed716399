//! Copying one file or link into the installed system.
//!
//! The file system belongs to the caller. A copy is a conversation: [`CopyFile::copy_file`] is told
//! what the file system last did and answers with the next thing to ask of it, until it answers
//! [`CopyAction::Finish`] or [`CopyAction::Fail`].
use vstd::prelude::*;

verus! {

/// What a copy asks of the file system.
#[derive(Debug, PartialEq, Eq)]
pub enum CopyAction {
    /// Say whether something is at the destination.
    ProbeDest,
    /// Say whether the destination's directory is a link.
    ProbeParent,
    /// Create the destination's directory and those above it.
    CreateParent,
    /// Say what is at the source.
    ProbeSource,
    /// Read the link at the source.
    ReadLink,
    /// Make a link to `target` at the destination.
    MakeLink { target: String },
    /// Open the source for reading.
    OpenSource,
    /// Create the destination with this mode; it must not be there yet.
    CreateDest { mode: u32 },
    /// Read some bytes of the source.
    ReadChunk,
    /// Write the first `count` bytes that were read.
    WriteChunk { count: usize },
    /// Nothing more: the copy is there.
    Finish,
    /// Nothing more: the copy failed, for this reason.
    Fail { message: String },
}

/// What the file system did.
#[derive(Debug)]
pub enum CopyEvent {
    /// Nothing yet.
    Begin,
    /// The answer to a question.
    Answer(bool),
    /// It did what it was asked.
    Done,
    /// At the source is a link, or a file with this mode.
    Source { symlink: bool, mode: u32 },
    /// The link leads there.
    Target(String),
    /// It read this many bytes; none at the end of the file.
    Chunk(usize),
    /// It could not, for this reason.
    Failed(String),
}

/// What a copy is waiting for.
#[derive(Clone, Copy, Debug, PartialEq, Eq, Structural)]
pub enum CopyStep {
    Start,
    Dest,
    Parent,
    Directory,
    Source,
    LinkRead,
    LinkMade,
    Open,
    Create,
    Read,
    Write,
    End,
}

/// The copy of one file or link.
#[derive(Debug)]
pub struct CopyFile {
    src: String,
    dest: String,
    parent: Option<String>,
    keep_existing: bool,
    step: CopyStep,
    mode: u32,
    link: String,
}

/// A copy as characters.
pub struct CopyView {
    pub src: Seq<char>,
    pub dest: Seq<char>,
    pub parent: Option<Seq<char>>,
    pub keep_existing: bool,
    pub step: CopyStep,
    pub mode: u32,
    pub link: Seq<char>,
}

/// A request as characters.
pub enum CopyActionView {
    ProbeDest,
    ProbeParent,
    CreateParent,
    ProbeSource,
    ReadLink,
    MakeLink { target: Seq<char> },
    OpenSource,
    CreateDest { mode: u32 },
    ReadChunk,
    WriteChunk { count: usize },
    Finish,
    Fail { message: Seq<char> },
}

/// An event as characters.
pub enum CopyEventView {
    Begin,
    Answer(bool),
    Done,
    Source { symlink: bool, mode: u32 },
    Target(Seq<char>),
    Chunk(usize),
    Failed(Seq<char>),
}

impl View for CopyFile {
    type V = CopyView;

    closed spec fn view(&self) -> CopyView {
        CopyView {
            src: self.src@,
            dest: self.dest@,
            parent: match self.parent {
                Some(p) => Some(p@),
                None => None,
            },
            keep_existing: self.keep_existing,
            step: self.step,
            mode: self.mode,
            link: self.link@,
        }
    }
}

impl View for CopyAction {
    type V = CopyActionView;

    open spec fn view(&self) -> CopyActionView {
        match self {
            CopyAction::ProbeDest => CopyActionView::ProbeDest,
            CopyAction::ProbeParent => CopyActionView::ProbeParent,
            CopyAction::CreateParent => CopyActionView::CreateParent,
            CopyAction::ProbeSource => CopyActionView::ProbeSource,
            CopyAction::ReadLink => CopyActionView::ReadLink,
            CopyAction::MakeLink { target } => CopyActionView::MakeLink { target: target@ },
            CopyAction::OpenSource => CopyActionView::OpenSource,
            CopyAction::CreateDest { mode } => CopyActionView::CreateDest { mode: *mode },
            CopyAction::ReadChunk => CopyActionView::ReadChunk,
            CopyAction::WriteChunk { count } => CopyActionView::WriteChunk { count: *count },
            CopyAction::Finish => CopyActionView::Finish,
            CopyAction::Fail { message } => CopyActionView::Fail { message: message@ },
        }
    }
}

impl View for CopyEvent {
    type V = CopyEventView;

    open spec fn view(&self) -> CopyEventView {
        match self {
            CopyEvent::Begin => CopyEventView::Begin,
            CopyEvent::Answer(yes) => CopyEventView::Answer(*yes),
            CopyEvent::Done => CopyEventView::Done,
            CopyEvent::Source { symlink, mode } => CopyEventView::Source {
                symlink: *symlink,
                mode: *mode,
            },
            CopyEvent::Target(target) => CopyEventView::Target(target@),
            CopyEvent::Chunk(count) => CopyEventView::Chunk(*count),
            CopyEvent::Failed(reason) => CopyEventView::Failed(reason@),
        }
    }
}

/// Can the request that the copy is waiting for fail?
pub open spec fn can_fail(step: CopyStep) -> bool {
    match step {
        CopyStep::Directory | CopyStep::Source | CopyStep::LinkRead | CopyStep::LinkMade
        | CopyStep::Open | CopyStep::Create | CopyStep::Read | CopyStep::Write => true,
        _ => false,
    }
}

/// Is this an event that the copy is waiting for?
pub open spec fn awaits(c: CopyView, e: CopyEventView) -> bool {
    match e {
        CopyEventView::Begin => c.step == CopyStep::Start,
        CopyEventView::Answer(_) => c.step == CopyStep::Dest || c.step == CopyStep::Parent,
        CopyEventView::Done => c.step == CopyStep::Directory || c.step == CopyStep::LinkMade
            || c.step == CopyStep::Open || c.step == CopyStep::Create || c.step
            == CopyStep::Write,
        CopyEventView::Source { .. } => c.step == CopyStep::Source,
        CopyEventView::Target(_) => c.step == CopyStep::LinkRead,
        CopyEventView::Chunk(_) => c.step == CopyStep::Read,
        CopyEventView::Failed(_) => can_fail(c.step),
    }
}

/// What failed.
pub open spec fn failure(c: CopyView) -> Seq<char> {
    match c.step {
        CopyStep::Directory => "failed to create directory "@ + (match c.parent {
            Some(p) => p,
            None => Seq::empty(),
        }),
        CopyStep::Source => "failed to read metadata of "@ + c.src,
        CopyStep::LinkRead => "failed to read link "@ + c.src,
        CopyStep::LinkMade => "failed to copy link "@ + c.src + " ("@ + c.link + ") to "@ + c.dest,
        CopyStep::Open => "failed to open file "@ + c.src,
        CopyStep::Create => "failed to create file "@ + c.dest,
        CopyStep::Read => "failed to read file "@ + c.src,
        CopyStep::Write => "failed to write file "@ + c.dest,
        _ => Seq::empty(),
    }
}

/// A copy that waits for something else.
pub open spec fn at(c: CopyView, step: CopyStep) -> CopyView {
    CopyView { step, ..c }
}

/// The destination is free: next is its directory, if it has one.
pub open spec fn dest_is_free(c: CopyView) -> (CopyView, CopyActionView) {
    match c.parent {
        Some(_) => (at(c, CopyStep::Parent), CopyActionView::ProbeParent),
        None => (at(c, CopyStep::Source), CopyActionView::ProbeSource),
    }
}

/// One step of a copy: what the file system did, and what follows from it.
///
/// What is already at the destination may be kept. The directory is created unless it is a link,
/// which may lead anywhere. A link is copied as a link; the bytes of a file are copied until it
/// ends.
pub open spec fn copy_next(c: CopyView, e: CopyEventView) -> (CopyView, CopyActionView) {
    match e {
        CopyEventView::Failed(reason) => (
            at(c, CopyStep::End),
            CopyActionView::Fail { message: failure(c) + ": "@ + reason },
        ),
        CopyEventView::Begin => if c.keep_existing {
            (at(c, CopyStep::Dest), CopyActionView::ProbeDest)
        } else {
            dest_is_free(c)
        },
        CopyEventView::Answer(yes) => if c.step == CopyStep::Dest {
            if yes {
                (at(c, CopyStep::End), CopyActionView::Finish)
            } else {
                dest_is_free(c)
            }
        } else if yes {
            (at(c, CopyStep::Source), CopyActionView::ProbeSource)
        } else {
            (at(c, CopyStep::Directory), CopyActionView::CreateParent)
        },
        CopyEventView::Source { symlink, mode } => if symlink {
            (at(c, CopyStep::LinkRead), CopyActionView::ReadLink)
        } else {
            (CopyView { step: CopyStep::Open, mode, ..c }, CopyActionView::OpenSource)
        },
        CopyEventView::Target(target) => (
            CopyView { step: CopyStep::LinkMade, link: target, ..c },
            CopyActionView::MakeLink { target },
        ),
        CopyEventView::Chunk(count) => if count == 0 {
            (at(c, CopyStep::End), CopyActionView::Finish)
        } else {
            (at(c, CopyStep::Write), CopyActionView::WriteChunk { count })
        },
        CopyEventView::Done => match c.step {
            CopyStep::Directory => (at(c, CopyStep::Source), CopyActionView::ProbeSource),
            CopyStep::Open => (
                at(c, CopyStep::Create),
                CopyActionView::CreateDest { mode: c.mode },
            ),
            CopyStep::LinkMade => (at(c, CopyStep::End), CopyActionView::Finish),
            _ => (at(c, CopyStep::Read), CopyActionView::ReadChunk),
        },
    }
}

impl CopyFile {
    /// The copy of `src` to `dest`, which lies in the directory `parent`. Where `keep_existing`
    /// holds, what is already at the destination is left alone: the configuration of a system is
    /// installed before its packages and has to win.
    pub fn new(src: String, dest: String, parent: Option<String>, keep_existing: bool) -> (r:
        CopyFile)
        ensures
            r@ == (CopyView {
                src: src@,
                dest: dest@,
                parent: match parent {
                    Some(p) => Some(p@),
                    None => None,
                },
                keep_existing,
                step: CopyStep::Start,
                mode: 0,
                link: Seq::empty(),
            }),
    {
        CopyFile {
            src,
            dest,
            parent,
            keep_existing,
            step: CopyStep::Start,
            mode: 0,
            link: String::new(),
        }
    }

    /// The destination is free: next is its directory, if it has one.
    fn go_on(&mut self) -> (action: CopyAction)
        ensures
            (final(self)@, action@) == dest_is_free(old(self)@),
    {
        match &self.parent {
            Some(_) => {
                self.step = CopyStep::Parent;
                CopyAction::ProbeParent
            },
            None => {
                self.step = CopyStep::Source;
                CopyAction::ProbeSource
            },
        }
    }

    /// What failed.
    fn say_failure(&self) -> (r: String)
        ensures
            r@ == failure(self@),
    {
        match self.step {
            CopyStep::Directory => {
                let mut r = "failed to create directory ".to_owned();
                match &self.parent {
                    Some(p) => {
                        r.append(p.as_str());
                    },
                    None => {
                        assert(r@ =~= r@ + Seq::<char>::empty());
                    },
                }
                r
            },
            CopyStep::Source => {
                let mut r = "failed to read metadata of ".to_owned();
                r.append(self.src.as_str());
                r
            },
            CopyStep::LinkRead => {
                let mut r = "failed to read link ".to_owned();
                r.append(self.src.as_str());
                r
            },
            CopyStep::LinkMade => {
                let mut r = "failed to copy link ".to_owned();
                r.append(self.src.as_str());
                r.append(" (");
                r.append(self.link.as_str());
                r.append(") to ");
                r.append(self.dest.as_str());
                r
            },
            CopyStep::Open => {
                let mut r = "failed to open file ".to_owned();
                r.append(self.src.as_str());
                r
            },
            CopyStep::Create => {
                let mut r = "failed to create file ".to_owned();
                r.append(self.dest.as_str());
                r
            },
            CopyStep::Read => {
                let mut r = "failed to read file ".to_owned();
                r.append(self.src.as_str());
                r
            },
            CopyStep::Write => {
                let mut r = "failed to write file ".to_owned();
                r.append(self.dest.as_str());
                r
            },
            _ => String::new(),
        }
    }

    /// One step of the copy.
    pub fn copy_file(&mut self, event: CopyEvent) -> (action: CopyAction)
        requires
            awaits(old(self)@, event@),
        ensures
            (final(self)@, action@) == copy_next(old(self)@, event@),
    {
        match event {
            CopyEvent::Failed(reason) => {
                let mut message = self.say_failure();
                message.append(": ");
                message.append(reason.as_str());
                self.step = CopyStep::End;
                CopyAction::Fail { message }
            },
            CopyEvent::Begin => {
                if self.keep_existing {
                    self.step = CopyStep::Dest;
                    return CopyAction::ProbeDest;
                }
                self.go_on()
            },
            CopyEvent::Answer(yes) => {
                if self.step == CopyStep::Dest {
                    if yes {
                        self.step = CopyStep::End;
                        return CopyAction::Finish;
                    }
                    return self.go_on();
                }
                if yes {
                    self.step = CopyStep::Source;
                    CopyAction::ProbeSource
                } else {
                    self.step = CopyStep::Directory;
                    CopyAction::CreateParent
                }
            },
            CopyEvent::Source { symlink, mode } => {
                if symlink {
                    self.step = CopyStep::LinkRead;
                    return CopyAction::ReadLink;
                }
                self.step = CopyStep::Open;
                self.mode = mode;
                CopyAction::OpenSource
            },
            CopyEvent::Target(target) => {
                self.step = CopyStep::LinkMade;
                self.link = target.clone();
                CopyAction::MakeLink { target }
            },
            CopyEvent::Chunk(count) => {
                if count == 0 {
                    self.step = CopyStep::End;
                    return CopyAction::Finish;
                }
                self.step = CopyStep::Write;
                CopyAction::WriteChunk { count }
            },
            CopyEvent::Done => match self.step {
                CopyStep::Directory => {
                    self.step = CopyStep::Source;
                    CopyAction::ProbeSource
                },
                CopyStep::Open => {
                    self.step = CopyStep::Create;
                    CopyAction::CreateDest { mode: self.mode }
                },
                CopyStep::LinkMade => {
                    self.step = CopyStep::End;
                    CopyAction::Finish
                },
                _ => {
                    self.step = CopyStep::Read;
                    CopyAction::ReadChunk
                },
            },
        }
    }
}

/// What is already at the destination is left alone where it is to be kept: the copy ends after
/// the one question.
pub proof fn law_existing_file_is_left_alone(c: CopyView)
    requires
        c.keep_existing,
    ensures
        copy_next(c, CopyEventView::Begin).1 == CopyActionView::ProbeDest,
        ({
            let asked = copy_next(c, CopyEventView::Begin).0;
            copy_next(asked, CopyEventView::Answer(true)).1 == CopyActionView::Finish
        }),
{
}

/// Everything that can go wrong ends the copy, with a reason.
pub proof fn law_a_failure_ends_the_copy(c: CopyView, reason: Seq<char>)
    requires
        can_fail(c.step),
    ensures
        ({
            let (c2, a) = copy_next(c, CopyEventView::Failed(reason));
            c2.step == CopyStep::End && a == (CopyActionView::Fail {
                message: failure(c) + ": "@ + reason,
            })
        }),
{
}

/// A link is copied as a link to where it leads, whatever that is; no file is created for it.
pub proof fn law_a_link_stays_a_link(c: CopyView, mode: u32, target: Seq<char>)
    requires
        c.step == CopyStep::Source,
    ensures
        ({
            let (c1, a1) = copy_next(c, CopyEventView::Source { symlink: true, mode });
            let (c2, a2) = copy_next(c1, CopyEventView::Target(target));
            let (c3, a3) = copy_next(c2, CopyEventView::Done);
            &&& awaits(c1, CopyEventView::Target(target))
            &&& awaits(c2, CopyEventView::Done)
            &&& a1 == CopyActionView::ReadLink
            &&& a2 == (CopyActionView::MakeLink { target })
            &&& a3 == CopyActionView::Finish
        }),
{
}

/// A file is created with the mode of its source.
pub proof fn law_the_mode_is_kept(c: CopyView, mode: u32)
    requires
        c.step == CopyStep::Source,
    ensures
        ({
            let (c1, a1) = copy_next(c, CopyEventView::Source { symlink: false, mode });
            let (c2, a2) = copy_next(c1, CopyEventView::Done);
            let (c3, a3) = copy_next(c2, CopyEventView::Done);
            &&& a1 == CopyActionView::OpenSource
            &&& a2 == (CopyActionView::CreateDest { mode })
            &&& a3 == CopyActionView::ReadChunk
            &&& c3.step == CopyStep::Read
        }),
{
}

/// What a copy that reads these chunks, one after the other, writes until it finishes.
pub open spec fn written(c: CopyView, chunks: Seq<Seq<u8>>) -> Seq<u8>
    decreases chunks.len(),
{
    if chunks.len() == 0 {
        Seq::empty()
    } else {
        let (c2, a) = copy_next(c, CopyEventView::Chunk(chunks[0].len() as usize));
        match a {
            CopyActionView::WriteChunk { count } => {
                let (c3, next) = copy_next(c2, CopyEventView::Done);
                chunks[0].take(count as int) + (if next is ReadChunk {
                    written(c3, chunks.drop_first())
                } else {
                    Seq::empty()
                })
            },
            _ => Seq::empty(),
        }
    }
}

/// A file is copied byte for byte: what is written is what was read, in order, up to the first
/// empty chunk, which is the end of the file.
pub proof fn law_bytes_are_copied(c: CopyView, chunks: Seq<Seq<u8>>, end: int)
    requires
        c.step == CopyStep::Read,
        0 <= end < chunks.len(),
        chunks[end].len() == 0,
        forall|i: int| 0 <= i < end ==> 0 < (#[trigger] chunks[i]).len() <= usize::MAX,
    ensures
        written(c, chunks) == chunks.take(end).flatten(),
    decreases end,
{
    let (c2, a) = copy_next(c, CopyEventView::Chunk(chunks[0].len() as usize));
    let (c3, next) = copy_next(c2, CopyEventView::Done);
    if end == 0 {
        assert(chunks.take(0) =~= Seq::empty());
        assert(chunks.take(0).flatten() =~= Seq::empty());
    } else {
        let rest = chunks.drop_first();
        assert(0 < chunks[0].len() <= usize::MAX);
        assert forall|i: int| 0 <= i < end - 1 implies 0 < (#[trigger] rest[i]).len()
            <= usize::MAX by {
            assert(rest[i] == chunks[i + 1]);
        }
        law_bytes_are_copied(c3, rest, end - 1);
        assert(chunks.take(end).drop_first() =~= rest.take(end - 1));
        assert(chunks[0].take(chunks[0].len() as int) =~= chunks[0]);
        assert(chunks.take(end).first() == chunks[0]);
    }
}

/// Whether or not what exists is kept, the source is looked at only once the destination's directory
/// was created, or was found to be a link, or there is none; and a directory is left as it is only if
/// it is a link.
pub proof fn law_the_directory_comes_before_the_source(c: CopyView, e: CopyEventView)
    requires
        awaits(c, e),
    ensures
        copy_next(c, e).1 is ProbeSource ==> {
            ||| c.step == CopyStep::Directory && e is Done
            ||| c.step == CopyStep::Parent && e == CopyEventView::Answer(true)
            ||| c.parent is None && (c.step == CopyStep::Start || c.step == CopyStep::Dest)
        },
        copy_next(c, e).0.step == CopyStep::Directory <==> copy_next(c, e).1 is CreateParent,
        copy_next(c, e).1 is CreateParent <==> c.step == CopyStep::Parent && e
            == CopyEventView::Answer(false),
        copy_next(c, e).0.step == CopyStep::Parent <==> copy_next(c, e).1 is ProbeParent,
        copy_next(c, e).0.step == CopyStep::Source <==> copy_next(c, e).1 is ProbeSource,
{
}

/// A directory that is not a link is created, and then the source is looked at; one that is a link is
/// left alone. This holds for every copy.
pub proof fn law_a_directory_is_created_unless_it_is_a_link(c: CopyView)
    requires
        c.step == CopyStep::Parent,
    ensures
        ({
            let (c1, a1) = copy_next(c, CopyEventView::Answer(false));
            let (c2, a2) = copy_next(c1, CopyEventView::Done);
            &&& a1 == CopyActionView::CreateParent
            &&& awaits(c1, CopyEventView::Done)
            &&& a2 == CopyActionView::ProbeSource
            &&& c2.step == CopyStep::Source
        }),
        copy_next(c, CopyEventView::Answer(true)).1 == CopyActionView::ProbeSource,
        copy_next(c, CopyEventView::Answer(true)).0.step == CopyStep::Source,
{
}

/// A copy begins at the destination if what is there is to be kept, and goes on with the directory if
/// nothing is; otherwise it begins with the directory. Without a directory it goes to the source.
pub proof fn law_a_copy_begins_at_its_destination(c: CopyView)
    requires
        c.step == CopyStep::Start,
    ensures
        ({
            let (c1, a1) = copy_next(c, CopyEventView::Begin);
            let free = if c.keep_existing {
                copy_next(c1, CopyEventView::Answer(false))
            } else {
                (c1, a1)
            };
            &&& c.keep_existing ==> a1 == CopyActionView::ProbeDest && c1.step == CopyStep::Dest
            &&& c.keep_existing ==> copy_next(c1, CopyEventView::Answer(true)).1
                == CopyActionView::Finish
            &&& c.parent is Some ==> free.1 == CopyActionView::ProbeParent && free.0.step
                == CopyStep::Parent
            &&& c.parent is None ==> free.1 == CopyActionView::ProbeSource && free.0.step
                == CopyStep::Source
        }),
{
}

/// From the source on, a file is opened, created with the mode that it has, and read; a link is read
/// and made again as it was read. Each chunk that is read is written, as much of it as was read, and
/// then the next is read; an empty one ends the copy. This holds for every copy.
pub proof fn law_a_copy_goes_on_to_its_end(
    c: CopyView,
    mode: u32,
    target: Seq<char>,
    count: usize,
)
    ensures
        c.step == CopyStep::Source ==> {
            let file = copy_next(c, CopyEventView::Source { symlink: false, mode });
            let link = copy_next(c, CopyEventView::Source { symlink: true, mode });
            &&& file.1 == CopyActionView::OpenSource && file.0.step == CopyStep::Open
                && file.0.mode == mode
            &&& link.1 == CopyActionView::ReadLink && link.0.step == CopyStep::LinkRead
        },
        c.step == CopyStep::Open ==> copy_next(c, CopyEventView::Done).1 == (
        CopyActionView::CreateDest { mode: c.mode }) && copy_next(c, CopyEventView::Done).0.step
            == CopyStep::Create,
        c.step == CopyStep::Create || c.step == CopyStep::Write ==> copy_next(
            c,
            CopyEventView::Done,
        ).1 == CopyActionView::ReadChunk && copy_next(c, CopyEventView::Done).0.step
            == CopyStep::Read,
        c.step == CopyStep::Read && count > 0 ==> copy_next(c, CopyEventView::Chunk(count)).1 == (
        CopyActionView::WriteChunk { count }) && copy_next(c, CopyEventView::Chunk(count)).0.step
            == CopyStep::Write,
        c.step == CopyStep::Read ==> copy_next(c, CopyEventView::Chunk(0)).1
            == CopyActionView::Finish,
        c.step == CopyStep::LinkRead ==> copy_next(c, CopyEventView::Target(target)).1 == (
        CopyActionView::MakeLink { target }) && copy_next(c, CopyEventView::Target(target)).0.step
            == CopyStep::LinkMade && copy_next(c, CopyEventView::Target(target)).0.link == target,
        c.step == CopyStep::LinkMade ==> copy_next(c, CopyEventView::Done).1
            == CopyActionView::Finish,
{
}

/// What is copied, where to, and whether what exists is kept never change; the mode changes only when
/// the source tells it, and the link only when it is read.
pub proof fn law_a_copy_keeps_its_paths(c: CopyView, e: CopyEventView)
    requires
        awaits(c, e),
    ensures
        ({
            let c2 = copy_next(c, e).0;
            &&& c2.src == c.src
            &&& c2.dest == c.dest
            &&& c2.parent == c.parent
            &&& c2.keep_existing == c.keep_existing
            &&& !(e is Source) ==> c2.mode == c.mode
            &&& !(e is Target) ==> c2.link == c.link
            &&& c2.step == CopyStep::End <==> copy_next(c, e).1 is Finish || copy_next(c, e).1 is Fail
        }),
{
}

/// A failure says what could not be done, to which of the two paths, and why.
pub proof fn law_a_failure_says_what_and_why(c: CopyView, reason: Seq<char>)
    requires
        can_fail(c.step),
    ensures
        ({
            let said = copy_next(c, CopyEventView::Failed(reason)).1;
            let message = said->message;
            &&& said is Fail
            &&& c.step == CopyStep::Directory && c.parent is Some ==> message
                == "failed to create directory "@ + c.parent->Some_0 + ": "@ + reason
            &&& c.step == CopyStep::Source ==> message == "failed to read metadata of "@ + c.src
                + ": "@ + reason
            &&& c.step == CopyStep::LinkRead ==> message == "failed to read link "@ + c.src + ": "@
                + reason
            &&& c.step == CopyStep::LinkMade ==> message == "failed to copy link "@ + c.src + " ("@
                + c.link + ") to "@ + c.dest + ": "@ + reason
            &&& c.step == CopyStep::Open ==> message == "failed to open file "@ + c.src + ": "@
                + reason
            &&& c.step == CopyStep::Create ==> message == "failed to create file "@ + c.dest + ": "@
                + reason
            &&& c.step == CopyStep::Read ==> message == "failed to read file "@ + c.src + ": "@
                + reason
            &&& c.step == CopyStep::Write ==> message == "failed to write file "@ + c.dest + ": "@
                + reason
        }),
{
}

/// The state of a copy after these events.
pub open spec fn copied(c: CopyView, events: Seq<CopyEventView>) -> CopyView
    decreases events.len(),
{
    if events.len() == 0 {
        c
    } else {
        copy_next(copied(c, events.drop_last()), events.last()).0
    }
}

/// Is the copy past the destination's directory, and not over?
pub open spec fn past_directory(step: CopyStep) -> bool {
    match step {
        CopyStep::Source | CopyStep::LinkRead | CopyStep::LinkMade | CopyStep::Open
        | CopyStep::Create | CopyStep::Read | CopyStep::Write => true,
        _ => false,
    }
}

/// Was the directory created at event number `k`, or found to be a link?
pub open spec fn directory_settled(c: CopyView, events: Seq<CopyEventView>, k: int) -> bool {
    let before = copied(c, events.take(k));
    ||| before.step == CopyStep::Directory && events[k] is Done
    ||| before.step == CopyStep::Parent && events[k] == CopyEventView::Answer(true)
}

/// Is every event one that the copy waits for?
pub open spec fn in_turn(c: CopyView, events: Seq<CopyEventView>) -> bool {
    forall|k: int|
        0 <= k < events.len() ==> awaits(copied(c, events.take(k)), #[trigger] events[k])
}

/// One more event: what settles the directory is on the way from before it to past it.
proof fn lemma_directory_is_settled_on_the_way(c: CopyView, e: CopyEventView)
    requires
        awaits(c, e),
        c.parent is Some,
        past_directory(copy_next(c, e).0.step),
        !past_directory(c.step),
    ensures
        (c.step == CopyStep::Directory && e is Done) || (c.step == CopyStep::Parent && e
            == CopyEventView::Answer(true)),
{
}

/// The directory of a copy never changes.
proof fn lemma_parent_stays(c: CopyView, events: Seq<CopyEventView>)
    ensures
        copied(c, events).parent == c.parent,
    decreases events.len(),
{
    if events.len() > 0 {
        lemma_parent_stays(c, events.drop_last());
    }
}

/// In every run of a copy that has a directory, the source is looked at and the destination created
/// only after the directory was created or found to be a link.
pub proof fn law_no_file_without_its_directory(c: CopyView, events: Seq<CopyEventView>)
    requires
        c.step == CopyStep::Start,
        c.parent is Some,
        in_turn(c, events),
        past_directory(copied(c, events).step),
    ensures
        exists|k: int| 0 <= k < events.len() && #[trigger] directory_settled(c, events, k),
    decreases events.len(),
{
    let last = events.len() - 1;
    let front = events.drop_last();
    assert(front =~= events.take(last));
    let before = copied(c, front);
    assert(awaits(copied(c, events.take(last)), events[last]));
    lemma_parent_stays(c, front);
    if past_directory(before.step) {
        assert(in_turn(c, front)) by {
            assert forall|k: int| 0 <= k < front.len() implies awaits(
                copied(c, front.take(k)),
                #[trigger] front[k],
            ) by {
                assert(front.take(k) =~= events.take(k));
                assert(front[k] == events[k]);
            }
        }
        law_no_file_without_its_directory(c, front);
        let k = choose|k: int| 0 <= k < front.len() && #[trigger] directory_settled(c, front, k);
        assert(front.take(k) =~= events.take(k));
        assert(directory_settled(c, events, k));
    } else {
        lemma_directory_is_settled_on_the_way(before, events[last]);
        assert(directory_settled(c, events, last));
    }
}

/// Whatever a copy asks for, it takes every answer to it, and any failure of what can fail.
pub proof fn law_every_answer_to_a_copy_is_awaited(
    c: CopyView,
    e: CopyEventView,
    yes: bool,
    mode: u32,
    target: Seq<char>,
    count: usize,
    reason: Seq<char>,
)
    requires
        awaits(c, e),
    ensures
        ({
            let (d, a) = copy_next(c, e);
            let fails = awaits(d, CopyEventView::Failed(reason));
            &&& a is ProbeDest || a is ProbeParent ==> awaits(d, CopyEventView::Answer(yes))
            &&& a is CreateParent || a is MakeLink || a is OpenSource || a is CreateDest || a
                is WriteChunk ==> awaits(d, CopyEventView::Done) && fails
            &&& a is ProbeSource ==> awaits(d, CopyEventView::Source { symlink: yes, mode })
                && fails
            &&& a is ReadLink ==> awaits(d, CopyEventView::Target(target)) && fails
            &&& a is ReadChunk ==> awaits(d, CopyEventView::Chunk(count)) && fails
        }),
{
}

} // verus!
