use curtail::parse::SizeSpecError;
use curtail::{decide, effective_capacity, parse_size, BoundedLogWriter};

#[test]
fn decide_no_collapse_when_chunk_fits() {
    assert_eq!(decide(4000, 100, 8192, 4096), 0);
    assert_eq!(decide(0, 8192, 8192, 4096), 0);
    assert_eq!(decide(8192, 0, 8192, 4096), 0);
}

#[test]
fn decide_rounds_overflow_up_to_block() {
    // overflow of 808 bytes needs one whole block
    assert_eq!(decide(8000, 1000, 8192, 4096), 4096);
    // overflow of exactly one block needs exactly one block
    assert_eq!(decide(8192, 4096, 8192, 4096), 4096);
    // one byte more needs a second block
    assert_eq!(decide(8192, 4097, 8192, 4096), 8192);
    assert_eq!(decide(0, 9000, 8192, 4096), 4096);
}

#[test]
fn decide_is_deterministic() {
    let first = decide(5000, 4000, 8192, 4096);
    let second = decide(5000, 4000, 8192, 4096);
    assert_eq!(first, second);
    assert_eq!(first, 4096);
}

#[test]
fn effective_capacity_rounds_to_blocks_with_two_block_floor() {
    assert_eq!(effective_capacity(16384, 4096), 16384);
    assert_eq!(effective_capacity(9000, 4096), 8192);
    assert_eq!(effective_capacity(1000, 4096), 8192);
    assert_eq!(effective_capacity(0, 512), 1024);
    assert_eq!(effective_capacity(2048, 512), 2048);
}

#[test]
fn parse_size_accepts_plain_byte_counts() {
    assert_eq!(parse_size("512"), Ok(512));
    assert_eq!(parse_size("0"), Ok(0));
}

#[test]
fn parse_size_accepts_unit_suffixes() {
    assert_eq!(parse_size("16K"), Ok(16384));
    assert_eq!(parse_size("16k"), Ok(16384));
    assert_eq!(parse_size("2M"), Ok(2097152));
    assert_eq!(parse_size("2m"), Ok(2097152));
    assert_eq!(parse_size("1G"), Ok(1073741824));
    assert_eq!(parse_size("1g"), Ok(1073741824));
}

#[test]
fn parse_size_rejects_empty_input() {
    assert_eq!(parse_size(""), Err(SizeSpecError::Empty));
}

#[test]
fn parse_size_rejects_missing_number() {
    assert_eq!(parse_size("k"), Err(SizeSpecError::InvalidNumber));
    assert_eq!(parse_size("+5k"), Err(SizeSpecError::InvalidNumber));
    assert_eq!(parse_size(" 16"), Err(SizeSpecError::InvalidNumber));
}

#[test]
fn parse_size_rejects_unknown_suffix() {
    assert_eq!(parse_size("10X"), Err(SizeSpecError::InvalidUnit));
    assert_eq!(parse_size("16kb"), Err(SizeSpecError::InvalidUnit));
    assert_eq!(parse_size("1.5k"), Err(SizeSpecError::InvalidUnit));
}

#[test]
fn parse_size_rejects_byte_counts_over_usize() {
    assert_eq!(
        parse_size("99999999999999999999999"),
        Err(SizeSpecError::Overflow)
    );
    assert_eq!(
        parse_size("1000000000000000000g"),
        Err(SizeSpecError::Overflow)
    );
}

#[test]
fn oversized_chunk_is_kept_and_collapsed_on_the_next_write() {
    // capacity of two 4096-byte blocks: effective capacity 8192
    let mut writer = BoundedLogWriter::new(8192, 4096);
    assert_eq!(writer.capacity, 8192);
    let chunk: Vec<u8> = (0..9000).map(|i| (i % 256) as u8).collect();
    writer.write(&chunk);
    // the chunk alone exceeds the capacity and the file was empty, so the
    // collapse was clamped to nothing and every byte was kept
    assert_eq!(writer.file.data.len(), 9000);
    assert_eq!(writer.file.pos, 9000);
    // the next write performs the one collapse: overflow 808 rounds up to
    // one 4096-byte block, leaving 9000 - 4096 bytes, cursor at end-of-file
    writer.write(&[]);
    assert_eq!(writer.file.data.len(), 4904);
    assert_eq!(writer.file.pos, 4904);
    assert_eq!(writer.file.data, chunk[4096..].to_vec());
}

#[test]
fn repeated_writes_keep_the_file_bounded() {
    let mut writer = BoundedLogWriter::new(8192, 4096);
    let chunk = vec![9u8; 1000];
    for _ in 0..200 {
        writer.write(&chunk);
        // every chunk fits under the capacity, so the file never exceeds it
        assert!(writer.file.data.len() <= 8192);
        assert_eq!(writer.file.pos, writer.file.data.len());
    }
    // the length has stabilized: collapses keep at least the newest bytes
    assert!(writer.file.data.len() > 4096);
}

#[test]
fn chunk_larger_than_capacity_collapses_the_whole_file() {
    // requested capacity below two blocks is raised to two blocks
    let mut writer = BoundedLogWriter::new(0, 512);
    assert_eq!(writer.capacity, 1024);
    writer.write(&vec![1u8; 700]);
    assert_eq!(writer.file.data.len(), 700);
    // overflow 1676 rounds up to 2048, more than the file holds: the clamp
    // collapses the whole file and only the new chunk remains
    writer.write(&vec![2u8; 2000]);
    assert_eq!(writer.file.data.len(), 2000);
    assert!(writer.file.data.iter().all(|&b| b == 2));
    assert_eq!(writer.file.pos, 2000);
}

#[test]
fn parsed_size_drives_the_writer_like_the_command_line() {
    // default size specification, block size as a filesystem would report it
    let requested = parse_size("16K").unwrap();
    let mut writer = BoundedLogWriter::new(requested, 4096);
    assert_eq!(writer.capacity, 16384);
    for _ in 0..50 {
        writer.write(&vec![3u8; 1024]);
        assert!(writer.file.data.len() <= 16384);
    }
}
