use eos_installer::disk_wrapper::{
    block_report, logical_block_size, BlockReport, BlockSizeError, DiskAction, DiskEvent,
    DiskWrapper, SeekPos, TargetOs, Transfer,
};

/// Runs a transfer on a device that holds these bytes; `None` if the device refuses a request.
fn run(disk: &mut DiskWrapper, mut t: Transfer, bytes: &mut Vec<u8>) -> Option<(Vec<u8>, usize, usize)> {
    let mut calls = 0;
    let mut action = disk.io(&mut t, DiskEvent::Begin);
    loop {
        let event = match action {
            DiskAction::Read { at, len } => {
                calls += 1;
                let at = at as usize;
                DiskEvent::ReadDone(bytes.get(at..at + len)?.to_vec())
            }
            DiskAction::Write { at, bytes: data } => {
                calls += 1;
                let at = at as usize;
                bytes.get_mut(at..at + data.len())?.copy_from_slice(&data);
                DiskEvent::WriteDone
            }
            DiskAction::Done { count } => return Some((t.into_data(), count, calls)),
        };
        action = disk.io(&mut t, event);
    }
}

fn device(len: usize) -> Vec<u8> {
    (0..len).map(|i| (i % 251) as u8).collect()
}

fn disk_of(size: u64, block: i32) -> DiskWrapper {
    DiskWrapper::open(size, BlockReport::Sector { rc: 0, sector_size: block }).unwrap()
}

#[test]
fn reads_return_what_is_there() {
    for block in [1, 2, 4, 7, 16] {
        for at in 0..20u64 {
            for len in 0..20usize {
                let mut bytes = device(64);
                let before = bytes.clone();
                let mut disk = disk_of(64, block);
                assert_eq!(disk.seek(SeekPos::Start(at)), at);
                let (data, count, _) = run(&mut disk, Transfer::read(vec![0xee; len]), &mut bytes).unwrap();
                assert_eq!(count, len);
                assert_eq!(data, &before[at as usize..at as usize + len]);
                assert_eq!(bytes, before);
                assert_eq!(disk.position(), at + len as u64);
            }
        }
    }
}

#[test]
fn writes_replace_exactly_their_range_and_are_read_back() {
    for block in [1, 2, 4, 7, 16] {
        for at in 0..20u64 {
            for len in 0..20usize {
                let mut bytes = device(64);
                let mut expected = bytes.clone();
                let data: Vec<u8> = (0..len).map(|i| 200 + i as u8).collect();
                expected[at as usize..at as usize + len].copy_from_slice(&data);
                let mut disk = disk_of(64, block);
                disk.seek(SeekPos::Start(at));
                let (_, count, _) = run(&mut disk, Transfer::write(data.clone()), &mut bytes).unwrap();
                assert_eq!(count, len);
                assert_eq!(bytes, expected);
                assert_eq!(disk.position(), at + len as u64);
                disk.seek(SeekPos::Start(at));
                let (back, _, _) = run(&mut disk, Transfer::read(vec![0; len]), &mut bytes).unwrap();
                assert_eq!(back, data);
            }
        }
    }
}

#[test]
fn whole_blocks_go_in_one_piece() {
    let mut bytes = device(64);
    let mut disk = disk_of(64, 8);
    disk.seek(SeekPos::Start(8));
    let (_, _, calls) = run(&mut disk, Transfer::read(vec![0; 24]), &mut bytes).unwrap();
    assert_eq!(calls, 1);
    let (_, _, calls) = run(&mut disk, Transfer::write(vec![0; 9]), &mut bytes).unwrap();
    assert_eq!(calls, 4);
}

#[test]
fn a_transfer_needs_every_block_that_it_touches() {
    // 60 bytes hold seven blocks of 8 and a part of one.
    let mut bytes = device(60);
    let mut disk = disk_of(60, 8);
    disk.seek(SeekPos::Start(50));
    assert!(run(&mut disk, Transfer::read(vec![0; 7]), &mut bytes).is_none());
    // The position stands where the completed blocks left it.
    assert_eq!(disk.position(), 56);
    disk.seek(SeekPos::Start(50));
    assert!(run(&mut disk, Transfer::read(vec![0; 6]), &mut bytes).is_some());
    disk.seek(SeekPos::Start(56));
    assert!(run(&mut disk, Transfer::read(vec![0; 8]), &mut bytes).is_none());
    assert_eq!(disk.position(), 56);
    assert!(run(&mut disk, Transfer::read(Vec::new()), &mut bytes).is_some());
}

#[test]
fn seeking_stays_on_the_disk() {
    let mut disk = disk_of(100, 10);
    assert_eq!(disk.seek(SeekPos::Start(7)), 7);
    assert_eq!(disk.seek(SeekPos::Start(1000)), 100);
    assert_eq!(disk.seek(SeekPos::End(-30)), 70);
    assert_eq!(disk.seek(SeekPos::End(5)), 100);
    assert_eq!(disk.seek(SeekPos::End(-101)), 0);
    assert_eq!(disk.seek(SeekPos::Current(40)), 40);
    assert_eq!(disk.seek(SeekPos::Current(-10)), 30);
    assert_eq!(disk.seek(SeekPos::Current(-31)), 0);
    assert_eq!(disk.seek(SeekPos::Current(i64::MAX)), 100);
    assert_eq!(disk.seek(SeekPos::Current(i64::MIN)), 0);
    // The sum wraps around, so this ends at the start.
    assert_eq!(disk.seek(SeekPos::End(i64::MAX)), 0);
    assert_eq!(disk.size(), 100);
    assert_eq!(disk.block_size(), 10);
}

#[test]
fn the_block_size_is_asked_of_the_device() {
    assert_eq!(logical_block_size(BlockReport::Image), Ok(512));
    assert_eq!(logical_block_size(BlockReport::Status(4096)), Ok(4096));
    assert_eq!(
        logical_block_size(BlockReport::Sector { rc: 0, sector_size: 4096 }),
        Ok(4096)
    );
    assert_eq!(
        logical_block_size(BlockReport::Status(0)),
        Err(BlockSizeError::Reported(0))
    );
    assert_eq!(
        logical_block_size(BlockReport::Sector { rc: 0, sector_size: -5 }),
        Err(BlockSizeError::Reported(-5))
    );
    assert_eq!(
        logical_block_size(BlockReport::Sector { rc: -1, sector_size: 512 }),
        Err(BlockSizeError::Os)
    );
    assert_eq!(
        BlockSizeError::Reported(-5).describe(),
        Some("device reported a logical block size of -5".to_string())
    );
    assert_eq!(
        BlockSizeError::Reported(0).describe(),
        Some("device reported a logical block size of 0".to_string())
    );
    assert_eq!(BlockSizeError::Os.describe(), None);
    assert!(DiskWrapper::open(1, BlockReport::Status(0)).is_err());
    let disk = DiskWrapper::open(1, BlockReport::Image).unwrap();
    assert_eq!((disk.size(), disk.block_size(), disk.position()), (1, 512, 0));
}

#[test]
fn an_image_file_has_blocks_of_512_everywhere() {
    for os in [TargetOs::Redox, TargetOs::Linux, TargetOs::Other] {
        let report = block_report(os, true, false, 4096, 0, 4096);
        assert_eq!(report, BlockReport::Image);
        assert_eq!(logical_block_size(report), Ok(512));
    }
}

#[test]
fn a_device_is_asked_in_the_way_of_its_system() {
    assert_eq!(
        block_report(TargetOs::Redox, false, false, 4096, 0, 0),
        BlockReport::Status(4096)
    );
    assert_eq!(
        block_report(TargetOs::Linux, false, true, 4096, 0, 512),
        BlockReport::Sector { rc: 0, sector_size: 512 }
    );
    assert_eq!(
        block_report(TargetOs::Linux, false, false, 4096, 0, 0),
        BlockReport::Image
    );
    assert_eq!(
        block_report(TargetOs::Other, false, true, 4096, 0, 4096),
        BlockReport::Image
    );
}

#[test]
fn a_broken_write_has_replaced_what_the_position_passed() {
    let mut bytes = device(60);
    let mut expected = bytes.clone();
    let mut disk = disk_of(60, 8);
    disk.seek(SeekPos::Start(42));
    assert!(run(&mut disk, Transfer::write(vec![0xee; 17]), &mut bytes).is_none());
    assert_eq!(disk.position(), 56);
    for b in &mut expected[42..56] {
        *b = 0xee;
    }
    assert_eq!(bytes, expected);
    // Whole blocks move nothing until all are there.
    disk.seek(SeekPos::Start(48));
    assert!(run(&mut disk, Transfer::write(vec![0xdd; 16]), &mut bytes).is_none());
    assert_eq!(disk.position(), 48);
    assert_eq!(bytes, expected);
}
