use accreader::reader::AccReader;
use accreader::reader::ReaderError;
use accreader::source::ByteSource;
use accreader::source::MemSource;
use accreader::source::SeekFrom;
use accreader::source::SourceError;

fn reader_over(bytes: &[u8], cap: usize) -> AccReader<MemSource> {
    AccReader::with_capacity(cap, MemSource::new(bytes.to_vec()))
}

/// Counts newline-delimited lines by successive fill / peek / consume, the
/// way a line-oriented parser drives the reader.  A final segment without a
/// trailing newline counts as a line.
fn count_lines(acc: &mut AccReader<MemSource>) -> usize {
    let mut count: usize = 0;
    let mut pending = false;
    loop {
        let n = acc.fill_buf().unwrap();
        if n == 0 {
            if pending {
                count += 1;
            }
            return count;
        }
        let (k, saw_newline) = {
            let w = acc.current_slice();
            let mut j: usize = 0;
            let mut found: Option<usize> = None;
            while j < w.len() {
                if w[j] == b'\n' {
                    found = Some(j);
                    break;
                }
                j += 1;
            }
            match found {
                Some(j) => (j + 1, true),
                None => (w.len(), false),
            }
        };
        if saw_newline {
            count += 1;
            pending = false;
        } else {
            pending = true;
        }
        acc.consume(k);
    }
}

#[test]
fn acc_reader_test() {
    let buf = b"AAAA\nAAAB\nAAACAAADAAAEAAAF\ndabcdEEEE";
    let mut acc = reader_over(&buf[..], 20);
    assert_eq!(4, count_lines(&mut acc));
}

#[test]
fn grow() {
    let buf = b"abcdefghilmnopqrst";
    let mut acc = reader_over(&buf[..], 4);
    acc.fill_buf().unwrap();
    assert_eq!(b"abcd", acc.data());
    acc.consume(2);
    assert_eq!(b"cd", acc.data());
    acc.grow(4);
    assert_eq!(b"cd", acc.data());
    acc.fill_buf().unwrap();
    assert_eq!(b"cdefghil", acc.data());
}

#[test]
fn consume_advances_index_and_shrinks_window() {
    let mut acc = reader_over(b"abcdefgh", 8);
    assert_eq!(Ok(8), acc.fill_buf());
    assert_eq!(8, acc.unconsumed_len());
    acc.consume(3);
    assert_eq!(5, acc.unconsumed_len());
    assert_eq!(b"defgh", acc.data());
    acc.consume(5);
    assert_eq!(0, acc.unconsumed_len());
    // an in-window relative seek of zero reports the absolute index
    assert_eq!(Ok(8), acc.seek(SeekFrom::Current(0)));
}

#[test]
fn consume_clamps_to_window() {
    let mut acc = reader_over(b"abcd", 4);
    acc.fill_buf().unwrap();
    acc.consume(100);
    assert_eq!(0, acc.unconsumed_len());
    // the index advanced by the clamped amount only
    assert_eq!(Ok(4), acc.seek(SeekFrom::Current(0)));
}

#[test]
fn peek_is_idempotent() {
    let mut acc = reader_over(b"hello world", 8);
    acc.fill_buf().unwrap();
    let first = acc.current_slice().to_vec();
    let second = acc.current_slice().to_vec();
    assert_eq!(first, second);
    assert_eq!(&first[..], acc.data());
    assert_eq!(b"hello wo", &first[..]);
}

#[test]
fn fill_on_full_buffer_is_owed_success() {
    let mut acc = reader_over(b"abcdefgh", 4);
    assert_eq!(Ok(4), acc.fill_buf());
    let source_pos = acc.get_ref().position();
    // the buffer is full at offset zero: no source call, success owed
    assert_eq!(Ok(4), acc.fill_buf());
    assert_eq!(b"abcd", acc.data());
    assert_eq!(source_pos, acc.get_ref().position());
    // a read covering exactly the full buffer is owed success too
    let mut dest = vec![0u8; 4];
    assert_eq!(Ok(4), acc.read(&mut dest));
    assert_eq!(b"abcd", &dest[..]);
}

#[test]
fn capacity_reports_unconsumed_length() {
    let mut acc = reader_over(b"abcdef", 4);
    assert_eq!(0, acc.capacity());
    assert_eq!(4, acc.buffer_capacity());
    acc.fill_buf().unwrap();
    assert_eq!(4, acc.capacity());
    acc.consume(3);
    assert_eq!(1, acc.capacity());
    assert_eq!(4, acc.buffer_capacity());
}

#[test]
fn read_small_request_stays_in_buffer() {
    let mut acc = reader_over(b"abcdefgh", 6);
    acc.fill_buf().unwrap();
    let source_pos = acc.get_ref().position();
    let mut dest = vec![0u8; 3];
    assert_eq!(Ok(3), acc.read(&mut dest));
    assert_eq!(b"abc", &dest[..]);
    assert_eq!(b"def", acc.data());
    // no source I/O happened
    assert_eq!(source_pos, acc.get_ref().position());
}

#[test]
fn read_triggers_fill_when_buffer_short() {
    let mut acc = reader_over(b"abcdefgh", 4);
    let mut dest = vec![0u8; 4];
    assert_eq!(Ok(4), acc.read(&mut dest));
    assert_eq!(b"abcd", &dest[..]);
    assert_eq!(Ok(4), acc.read(&mut dest));
    assert_eq!(b"efgh", &dest[..]);
    assert_eq!(Ok(0), acc.read(&mut dest));
}

#[test]
fn read_oversized_drains_then_reads_direct() {
    let mut acc = reader_over(b"abcdefghij", 4);
    acc.fill_buf().unwrap();
    acc.consume(1);
    // window is "bcd" (3 bytes), request is 6 > buffer capacity 4
    let mut dest = vec![0u8; 6];
    let r = acc.read(&mut dest);
    // the returned count covers the direct read alone, not the drained
    // window
    assert_eq!(Ok(3), r);
    assert_eq!(b"bcdefg", &dest[..]);
    assert_eq!(0, acc.unconsumed_len());
    assert_eq!(7, acc.get_ref().position());
    // the absolute index kept step with the source
    assert_eq!(Ok(7), acc.seek(SeekFrom::Current(0)));
    assert_eq!(Ok(3), acc.fill_buf());
    assert_eq!(b"hij", acc.data());
}

#[test]
fn round_trip_reproduces_source_bytes() {
    let source = b"The quick brown fox jumps over the lazy dog";
    let mut acc = reader_over(&source[..], 8);
    let sizes: [usize; 6] = [3, 5, 2, 7, 8, 1];
    let mut collected: Vec<u8> = Vec::new();
    let mut at: usize = 0;
    loop {
        let mut dest = vec![0u8; sizes[at % sizes.len()]];
        at += 1;
        let n = acc.read(&mut dest).unwrap();
        if n == 0 {
            break;
        }
        collected.extend_from_slice(&dest[..n]);
    }
    assert_eq!(&source[..], &collected[..]);
}

#[test]
fn seek_absolute_in_window_skips_source() {
    let mut acc = reader_over(b"0123456789", 10);
    acc.fill_buf().unwrap();
    let source_pos = acc.get_ref().position();
    assert_eq!(Ok(4), acc.seek(SeekFrom::Start(4)));
    assert_eq!(b"456789", acc.data());
    assert_eq!(source_pos, acc.get_ref().position());
}

#[test]
fn seek_relative_in_window_skips_source() {
    let mut acc = reader_over(b"0123456789", 10);
    acc.fill_buf().unwrap();
    let source_pos = acc.get_ref().position();
    assert_eq!(Ok(3), acc.seek(SeekFrom::Current(3)));
    assert_eq!(b"3456789", acc.data());
    assert_eq!(source_pos, acc.get_ref().position());
}

#[test]
fn seek_out_of_window_hits_source_and_refills() {
    let mut acc = reader_over(b"0123456789", 4);
    acc.fill_buf().unwrap();
    assert_eq!(4, acc.get_ref().position());
    assert_eq!(Ok(6), acc.seek(SeekFrom::Start(6)));
    assert_eq!(b"6789", acc.data());
    // the source was seeked and then read for the eager refill
    assert_eq!(10, acc.get_ref().position());
}

#[test]
fn seek_end_relative_always_hits_source() {
    let mut acc = reader_over(b"0123456789", 4);
    acc.fill_buf().unwrap();
    assert_eq!(Ok(8), acc.seek(SeekFrom::End(-2)));
    assert_eq!(b"89", acc.data());
}

#[test]
fn seek_negative_relative_falls_through_to_source() {
    let mut acc = reader_over(b"0123456789", 4);
    acc.fill_buf().unwrap();
    acc.consume(2);
    // the source's own cursor is at 4 (one past the buffered window), so a
    // relative seek served by the source resolves against 4, not against
    // the reader's index 2 — the documented fall-through behaviour
    assert_eq!(Ok(3), acc.seek(SeekFrom::Current(-1)));
    assert_eq!(b"3456", acc.data());
}

#[test]
fn seek_error_leaves_reader_unchanged() {
    let mut acc = reader_over(b"0123456789", 4);
    acc.fill_buf().unwrap();
    acc.consume(1);
    let before = acc.data().to_vec();
    let source_pos = acc.get_ref().position();
    // resolves to a negative offset: the source rejects it, and the error
    // carries the seek tag, so the reader is contractually unchanged
    assert_eq!(Err(ReaderError::Seek(SourceError)), acc.seek(SeekFrom::Current(-100)));
    assert_eq!(&before[..], acc.data());
    assert_eq!(source_pos, acc.get_ref().position());
}

#[test]
fn grow_preserves_window_exactly() {
    let mut acc = reader_over(b"abcdefghij", 4);
    acc.fill_buf().unwrap();
    acc.consume(2);
    let before = acc.data().to_vec();
    acc.grow(16);
    assert_eq!(&before[..], acc.data());
    assert_eq!(20, acc.buffer_capacity());
    acc.fill_buf().unwrap();
    assert_eq!(b"cdefghij", acc.data());
}

#[test]
fn constructors_and_source_access() {
    let acc = AccReader::new(MemSource::new(b"xyz".to_vec()));
    assert_eq!(4096, acc.buffer_capacity());
    assert_eq!(0, acc.get_ref().position());

    let mut acc = reader_over(b"xyz", 2);
    acc.fill_buf().unwrap();
    assert_eq!(b"xy", acc.data());
    // direct source access through get_mut bypasses the buffer
    let src = acc.get_mut();
    assert_eq!(Ok(0), src.seek(SeekFrom::Start(0)));
    assert_eq!(0, acc.get_ref().position());
    // unwrapping discards the two buffered-but-unconsumed bytes
    let mut src = acc.into_inner();
    let mut dest = vec![0u8; 3];
    assert_eq!(Ok(3), src.read_into(&mut dest, 0));
    assert_eq!(b"xyz", &dest[..]);
}

#[test]
fn reset_buffer_position_compacts_window() {
    let mut acc = reader_over(b"abcdef", 6);
    acc.fill_buf().unwrap();
    acc.consume(4);
    assert_eq!(b"ef", acc.data());
    acc.reset_buffer_position();
    assert_eq!(b"ef", acc.data());
    assert_eq!(2, acc.unconsumed_len());
}

#[test]
fn mem_source_short_reads_and_eof() {
    let mut src = MemSource::new(b"abc".to_vec());
    let mut dest = vec![0u8; 8];
    assert_eq!(Ok(3), src.read_into(&mut dest, 4));
    assert_eq!(vec![0, 0, 0, 0, b'a', b'b', b'c', 0], dest);
    assert_eq!(Ok(0), src.read_into(&mut dest, 0));
    assert_eq!(Ok(2), src.seek(SeekFrom::Current(-1)));
    assert_eq!(Err(SourceError), src.seek(SeekFrom::End(-4)));
    assert_eq!(2, src.position());
}
