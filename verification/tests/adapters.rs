use codecflow::oneshot::{decode_all, encode_all};
use codecflow::read::{ReadAdapter, ReadStatus};
use codecflow::stream::StreamAdapter;
use codecflow::write::WriteAdapter;
use codecflow::{Error, Format, Level};

fn pseudo_random(len: usize) -> Vec<u8> {
    let mut state: u64 = 0x9E3779B97F4A7C15;
    let mut out = Vec::with_capacity(len);
    for _ in 0..len {
        state = state.wrapping_mul(6364136223846793005).wrapping_add(1442695040888963407);
        out.push((state >> 29) as u8);
    }
    out
}

/// Encodes chunks through a StreamAdapter, interleaving an empty chunk (a
/// "not ready" round) before and after each real chunk.
fn stream_encode_with_idle_rounds(fmt: Format, chunks: &[&[u8]]) -> Vec<u8> {
    let mut adapter = StreamAdapter::new_encode(fmt, Level::Fastest).unwrap();
    let mut coded = Vec::new();
    for chunk in chunks {
        coded.extend_from_slice(&adapter.push_chunk(&[]).unwrap());
        coded.extend_from_slice(&adapter.push_chunk(chunk).unwrap());
        coded.extend_from_slice(&adapter.push_chunk(&[]).unwrap());
    }
    coded.extend_from_slice(&adapter.finish().unwrap());
    coded
}

fn stream_decode(fmt: Format, chunks: &[&[u8]]) -> Result<Vec<u8>, Error> {
    let mut adapter = StreamAdapter::new_decode(fmt);
    let mut plain = Vec::new();
    for chunk in chunks {
        plain.extend_from_slice(&adapter.push_chunk(chunk)?);
    }
    plain.extend_from_slice(&adapter.finish()?);
    Ok(plain)
}

#[test]
fn stream_encode_two_chunks() {
    for fmt in [Format::Deflate, Format::Zlib, Format::Gzip] {
        let coded = stream_encode_with_idle_rounds(fmt, &[&[1, 2, 3], &[4, 5, 6]]);
        let plain = decode_all(fmt, &coded).unwrap();
        assert_eq!(plain, vec![1, 2, 3, 4, 5, 6]);
    }
}

#[test]
fn stream_encode_chunking_does_not_change_decoded_bytes() {
    let input = pseudo_random(8192);
    let one = stream_encode_with_idle_rounds(Format::Zlib, &[&input]);
    let parts: Vec<&[u8]> = input.chunks(7).collect();
    let many = stream_encode_with_idle_rounds(Format::Zlib, &parts);
    assert_eq!(
        decode_all(Format::Zlib, &one).unwrap(),
        decode_all(Format::Zlib, &many).unwrap()
    );
    assert_eq!(decode_all(Format::Zlib, &one).unwrap(), input);
}

#[test]
fn stream_decode_in_small_chunks() {
    let input = pseudo_random(65_536);
    let coded = encode_all(Format::Zlib, Level::Fastest, &input).unwrap();
    let chunks: Vec<&[u8]> = coded.chunks(1024).collect();
    assert_eq!(stream_decode(Format::Zlib, &chunks).unwrap(), input);
    let tiny: Vec<&[u8]> = coded.chunks(2).collect();
    assert_eq!(stream_decode(Format::Zlib, &tiny).unwrap(), input);
}

#[test]
fn stream_decode_missing_end_is_reported() {
    let input = pseudo_random(4096);
    let coded = encode_all(Format::Gzip, Level::Default, &input).unwrap();
    let cut = &coded[..coded.len() - 5];
    assert_eq!(stream_decode(Format::Gzip, &[cut]), Err(Error::UnexpectedEof));
}

#[test]
fn stream_decode_of_empty_stream() {
    let coded = encode_all(Format::Zlib, Level::Default, &[]).unwrap();
    assert_eq!(stream_decode(Format::Zlib, &[&coded]).unwrap(), Vec::<u8>::new());
}

/// Drives a ReadAdapter over `upstream`, offering it in `step`-byte pieces
/// with an idle (empty, not-yet-ended) round before each piece, and taking
/// produced bytes out at most `sip` at a time.
fn read_to_end(mut adapter: ReadAdapter, upstream: &[u8], step: usize, sip: usize) -> Vec<u8> {
    let mut out = Vec::new();
    let mut offered = 0;
    loop {
        let piece_end = upstream.len().min(offered + step);
        let piece = &upstream[offered..piece_end];
        let eof = offered == upstream.len();
        if !eof {
            // an idle round: upstream not ready yet
            let (n, status) = adapter.fill(&[], false).unwrap();
            assert_eq!(n, 0);
            if status == ReadStatus::NeedInput {
                // nothing observable changed; go on with the real piece
            }
        }
        let (consumed, status) = adapter.fill(piece, eof).unwrap();
        offered += consumed;
        match status {
            ReadStatus::Ready => {
                while adapter.available() > 0 {
                    let part = adapter.take(sip);
                    out.extend_from_slice(&part);
                }
            },
            ReadStatus::NeedInput => {},
            ReadStatus::Eof => return out,
        }
    }
}

#[test]
fn read_adapter_encodes_and_decodes() {
    let input = pseudo_random(20_000);
    for fmt in [Format::Deflate, Format::Zlib, Format::Gzip] {
        let encoder = ReadAdapter::new_encode(fmt, Level::Default).unwrap();
        let coded = read_to_end(encoder, &input, 997, 333);
        assert_eq!(decode_all(fmt, &coded).unwrap(), input);

        let decoder = ReadAdapter::new_decode(fmt);
        let plain = read_to_end(decoder, &coded, 1024, 4096);
        assert_eq!(plain, input);
    }
}

#[test]
fn read_adapter_decodes_byte_by_byte() {
    let input = pseudo_random(2048);
    let coded = encode_all(Format::Zlib, Level::Best, &input).unwrap();
    let decoder = ReadAdapter::new_decode(Format::Zlib);
    let plain = read_to_end(decoder, &coded, 1, 1);
    assert_eq!(plain, input);
}

#[test]
fn read_adapter_reports_corrupt_input() {
    let mut decoder = ReadAdapter::new_decode(Format::Zlib);
    let garbage = [0xff, 0xfe, 0xfd, 0xfc, 0xfb, 0xfa];
    let r = decoder.fill(&garbage, true);
    assert_eq!(r, Err(Error::CorruptInput));
}

/// Drives a WriteAdapter: writes all of `input`, closing at the end, while
/// the downstream sink accepts at most `limit` bytes per round.
fn write_through(mut adapter: WriteAdapter, input: &[u8], limit: usize) -> Vec<u8> {
    let mut sink = Vec::new();
    let mut written = 0;
    while written < input.len() {
        let n = adapter.write(&input[written..]).unwrap();
        written += n;
        drain(&mut adapter, &mut sink, limit);
    }
    let mut flushed = adapter.flush().unwrap();
    while !flushed {
        drain(&mut adapter, &mut sink, limit);
        flushed = adapter.flush().unwrap();
    }
    // flushing again right away must be accepted and change nothing
    assert_eq!(adapter.flush(), Ok(true));
    let mut closed = adapter.close().unwrap();
    while !closed {
        drain(&mut adapter, &mut sink, limit);
        closed = adapter.close().unwrap();
    }
    // closing again must be a benign no-op, not an error
    assert_eq!(adapter.close(), Ok(true));
    // and a write after close must be refused
    assert_eq!(adapter.write(&[1]), Err(Error::WriteAfterClose));
    sink
}

fn drain(adapter: &mut WriteAdapter, sink: &mut Vec<u8>, limit: usize) {
    loop {
        let pending = adapter.pending_output();
        if pending.is_empty() {
            return;
        }
        let n = pending.len().min(limit);
        sink.extend_from_slice(&pending[..n]);
        adapter.ack_output(n);
    }
}

#[test]
fn write_adapter_encodes_with_tiny_downstream() {
    let input = vec![1, 2, 3, 4, 5, 6];
    for fmt in [Format::Deflate, Format::Zlib, Format::Gzip] {
        let adapter = WriteAdapter::new_encode(fmt, Level::Fastest).unwrap();
        let coded = write_through(adapter, &input, 2);
        assert_eq!(decode_all(fmt, &coded).unwrap(), input);
    }
}

#[test]
fn write_adapter_encodes_large_input() {
    let input = pseudo_random(65_536);
    let adapter = WriteAdapter::new_encode(Format::Zlib, Level::Default).unwrap();
    let coded = write_through(adapter, &input, 4096);
    assert_eq!(decode_all(Format::Zlib, &coded).unwrap(), input);
}

#[test]
fn write_adapter_decodes() {
    let input = pseudo_random(10_000);
    let coded = encode_all(Format::Gzip, Level::Default, &input).unwrap();
    let adapter = WriteAdapter::new_decode(Format::Gzip);
    let plain = write_through(adapter, &coded, 512);
    assert_eq!(plain, input);
}

#[test]
fn write_adapter_poison_is_sticky() {
    let mut adapter = WriteAdapter::new_encode(Format::Zlib, Level::Default).unwrap();
    assert!(adapter.write(&[1, 2, 3]).is_ok());
    adapter.poison();
    assert_eq!(adapter.write(&[4]), Err(Error::DownstreamIo));
    assert_eq!(adapter.flush(), Err(Error::DownstreamIo));
    assert_eq!(adapter.close(), Err(Error::DownstreamIo));
}

#[test]
fn write_adapter_rejects_invalid_level() {
    assert!(matches!(
        WriteAdapter::new_encode(Format::Zlib, Level::Precise(200)),
        Err(Error::InvalidLevel)
    ));
}

#[test]
fn stream_encode_of_no_chunks() {
    for fmt in [Format::Deflate, Format::Zlib, Format::Gzip] {
        let mut adapter = StreamAdapter::new_encode(fmt, Level::Default).unwrap();
        let coded = adapter.finish().unwrap();
        assert!(!coded.is_empty());
        assert_eq!(decode_all(fmt, &coded).unwrap(), Vec::<u8>::new());
    }
}

#[test]
fn stream_encode_single_byte_chunks() {
    let input = pseudo_random(8192);
    let parts: Vec<&[u8]> = input.chunks(1).collect();
    let coded = stream_encode_with_idle_rounds(Format::Zlib, &parts);
    assert_eq!(decode_all(Format::Zlib, &coded).unwrap(), input);
}

#[test]
fn write_adapter_flush_between_writes() {
    let input = pseudo_random(10_000);
    let mut adapter = WriteAdapter::new_encode(Format::Zlib, Level::Default).unwrap();
    let mut sink = Vec::new();
    for chunk in input.chunks(777) {
        let mut written = 0;
        while written < chunk.len() {
            let n = adapter.write(&chunk[written..]).unwrap();
            written += n;
            drain(&mut adapter, &mut sink, 64);
        }
        let mut flushed = adapter.flush().unwrap();
        while !flushed {
            drain(&mut adapter, &mut sink, 64);
            flushed = adapter.flush().unwrap();
        }
        assert_eq!(adapter.flush(), Ok(true));
    }
    let mut closed = adapter.close().unwrap();
    while !closed {
        drain(&mut adapter, &mut sink, 64);
        closed = adapter.close().unwrap();
    }
    assert_eq!(decode_all(Format::Zlib, &sink).unwrap(), input);
}

#[test]
fn read_adapter_encodes_empty_input() {
    for fmt in [Format::Deflate, Format::Zlib, Format::Gzip] {
        let encoder = ReadAdapter::new_encode(fmt, Level::Fastest).unwrap();
        let coded = read_to_end(encoder, &[], 1, 16);
        assert_eq!(decode_all(fmt, &coded).unwrap(), Vec::<u8>::new());
    }
}

#[test]
fn read_adapter_eof_is_absorbing() {
    let coded = encode_all(Format::Zlib, Level::Default, &[7, 7, 7]).unwrap();
    let mut decoder = ReadAdapter::new_decode(Format::Zlib);
    let plain = {
        let mut out = Vec::new();
        loop {
            let (_, status) = decoder.fill(&coded[out.len()..], true).unwrap();
            match status {
                ReadStatus::Ready => {
                    while decoder.available() > 0 {
                        out.extend_from_slice(&decoder.take(16));
                    }
                },
                ReadStatus::Eof => break,
                ReadStatus::NeedInput => {},
            }
        }
        out
    };
    assert_eq!(plain, vec![7, 7, 7]);
    // after end of stream, every further fill reports end of stream again
    assert_eq!(decoder.fill(&[1, 2, 3], false), Ok((0, ReadStatus::Eof)));
    assert_eq!(decoder.fill(&[], true), Ok((0, ReadStatus::Eof)));
}

#[test]
fn read_adapter_replays_its_error() {
    let mut decoder = ReadAdapter::new_decode(Format::Gzip);
    let garbage = [0x00, 0x01, 0x02, 0x03, 0x04, 0x05, 0x06, 0x07, 0x08, 0x09, 0x0a];
    let first = decoder.fill(&garbage, true);
    assert!(first.is_err());
    // terminal: the same error comes back, with no fresh work done
    assert_eq!(decoder.fill(&garbage, true), first);
    assert_eq!(decoder.fill(&[], false), first);
}

#[test]
fn write_adapter_decode_replays_corrupt_input() {
    let mut adapter = WriteAdapter::new_decode(Format::Zlib);
    let garbage = [0xff, 0xfe, 0xfd, 0xfc];
    assert_eq!(adapter.write(&garbage), Err(Error::CorruptInput));
    assert_eq!(adapter.write(&[1]), Err(Error::CorruptInput));
    assert_eq!(adapter.flush(), Err(Error::CorruptInput));
    assert_eq!(adapter.close(), Err(Error::CorruptInput));
}
