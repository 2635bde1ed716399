use eos_installer::copy::{CopyAction, CopyEvent, CopyFile};

fn copy(keep_existing: bool) -> CopyFile {
    CopyFile::new(
        "/src/f".to_string(),
        "/mnt/d/f".to_string(),
        Some("/mnt/d".to_string()),
        keep_existing,
    )
}

fn fail(message: &str) -> CopyAction {
    CopyAction::Fail { message: message.to_string() }
}

fn failed() -> CopyEvent {
    CopyEvent::Failed("E".to_string())
}

/// A copy that was told all this.
fn told(events: Vec<CopyEvent>) -> CopyFile {
    let mut c = copy(false);
    for event in events {
        c.copy_file(event);
    }
    c
}

#[test]
fn an_existing_destination_is_left_alone() {
    let mut c = copy(true);
    assert_eq!(c.copy_file(CopyEvent::Begin), CopyAction::ProbeDest);
    assert_eq!(c.copy_file(CopyEvent::Answer(true)), CopyAction::Finish);
    let mut c = copy(true);
    c.copy_file(CopyEvent::Begin);
    assert_eq!(c.copy_file(CopyEvent::Answer(false)), CopyAction::ProbeParent);
}

#[test]
fn a_file_is_copied_until_it_ends() {
    let mut c = copy(false);
    assert_eq!(c.copy_file(CopyEvent::Begin), CopyAction::ProbeParent);
    assert_eq!(c.copy_file(CopyEvent::Answer(false)), CopyAction::CreateParent);
    assert_eq!(c.copy_file(CopyEvent::Done), CopyAction::ProbeSource);
    assert_eq!(
        c.copy_file(CopyEvent::Source { symlink: false, mode: 0o755 }),
        CopyAction::OpenSource
    );
    assert_eq!(c.copy_file(CopyEvent::Done), CopyAction::CreateDest { mode: 0o755 });
    assert_eq!(c.copy_file(CopyEvent::Done), CopyAction::ReadChunk);
    assert_eq!(c.copy_file(CopyEvent::Chunk(3)), CopyAction::WriteChunk { count: 3 });
    assert_eq!(c.copy_file(CopyEvent::Done), CopyAction::ReadChunk);
    assert_eq!(c.copy_file(CopyEvent::Chunk(1)), CopyAction::WriteChunk { count: 1 });
    assert_eq!(c.copy_file(CopyEvent::Done), CopyAction::ReadChunk);
    assert_eq!(c.copy_file(CopyEvent::Chunk(0)), CopyAction::Finish);
}

#[test]
fn bytes_are_copied_in_order() {
    let source: Vec<u8> = (0..100).collect();
    let mut c = told(vec![
        CopyEvent::Begin,
        CopyEvent::Answer(true),
        CopyEvent::Source { symlink: false, mode: 0 },
        CopyEvent::Done,
    ]);
    let mut dest: Vec<u8> = Vec::new();
    let mut at = 0;
    let mut chunk: Vec<u8> = Vec::new();
    let mut action = c.copy_file(CopyEvent::Done);
    loop {
        let event = match action {
            CopyAction::ReadChunk => {
                let end = (at + 7).min(source.len());
                chunk = source[at..end].to_vec();
                at = end;
                CopyEvent::Chunk(chunk.len())
            }
            CopyAction::WriteChunk { count } => {
                dest.extend_from_slice(&chunk[..count]);
                CopyEvent::Done
            }
            CopyAction::Finish => break,
            other => panic!("{:?}", other),
        };
        action = c.copy_file(event);
    }
    assert_eq!(dest, source);
}

#[test]
fn a_link_is_copied_as_a_link() {
    let mut c = copy(false);
    c.copy_file(CopyEvent::Begin);
    assert_eq!(c.copy_file(CopyEvent::Answer(true)), CopyAction::ProbeSource);
    assert_eq!(
        c.copy_file(CopyEvent::Source { symlink: true, mode: 0 }),
        CopyAction::ReadLink
    );
    assert_eq!(
        c.copy_file(CopyEvent::Target("../x".to_string())),
        CopyAction::MakeLink { target: "../x".to_string() }
    );
    assert_eq!(c.copy_file(CopyEvent::Done), CopyAction::Finish);
}

#[test]
fn without_a_directory_none_is_created() {
    let mut c = CopyFile::new("s".to_string(), "/".to_string(), None, false);
    assert_eq!(c.copy_file(CopyEvent::Begin), CopyAction::ProbeSource);
}

#[test]
fn each_failure_is_told() {
    let begin = || CopyEvent::Begin;
    let link = || CopyEvent::Answer(true);
    let file = || CopyEvent::Source { symlink: false, mode: 0 };
    let mut c = told(vec![begin(), CopyEvent::Answer(false)]);
    assert_eq!(c.copy_file(failed()), fail("failed to create directory /mnt/d: E"));
    let mut c = told(vec![begin(), link()]);
    assert_eq!(c.copy_file(failed()), fail("failed to read metadata of /src/f: E"));
    let mut c = told(vec![begin(), link(), CopyEvent::Source { symlink: true, mode: 0 }]);
    assert_eq!(c.copy_file(failed()), fail("failed to read link /src/f: E"));
    let mut c = told(vec![
        begin(),
        link(),
        CopyEvent::Source { symlink: true, mode: 0 },
        CopyEvent::Target("t".to_string()),
    ]);
    assert_eq!(
        c.copy_file(failed()),
        fail("failed to copy link /src/f (t) to /mnt/d/f: E")
    );
    let mut c = told(vec![begin(), link(), file()]);
    assert_eq!(c.copy_file(failed()), fail("failed to open file /src/f: E"));
    let mut c = told(vec![begin(), link(), file(), CopyEvent::Done]);
    assert_eq!(c.copy_file(failed()), fail("failed to create file /mnt/d/f: E"));
    let mut c = told(vec![begin(), link(), file(), CopyEvent::Done, CopyEvent::Done]);
    assert_eq!(c.copy_file(failed()), fail("failed to read file /src/f: E"));
    let mut c = told(vec![
        begin(),
        link(),
        file(),
        CopyEvent::Done,
        CopyEvent::Done,
        CopyEvent::Chunk(1),
    ]);
    assert_eq!(c.copy_file(failed()), fail("failed to write file /mnt/d/f: E"));
}
