use oxifive::arena::{Arena, Handle};
use oxifive::data_storage::{parse_data_storage_message, DataStorage};
use oxifive::dataspace::parse_dataspace_message;
use oxifive::datatype::{parse_datatype_message, DatatypeEncoding};
use oxifive::error::Error;
use oxifive::filter_pipeline::{parse_filter_pipeline_message, FilterPipeline, FilterType};
use oxifive::filters::{invert_filters, unshuffle};
use oxifive::link::{parse_link_message, LinkFlags, LinkTarget};
use oxifive::message::MessageType;
use oxifive::padding::padded_size;

fn shuffle(bytes: &[u8], e: usize) -> Vec<u8> {
    let n = bytes.len() / e;
    let mut out = vec![0; bytes.len()];
    for i in 0..n {
        for b in 0..e {
            out[b * n + i] = bytes[i * e + b];
        }
    }
    out
}

fn compress(bytes: &[u8]) -> Vec<u8> {
    let mut enc = flate2::write::ZlibEncoder::new(Vec::new(), flate2::Compression::default());
    std::io::Write::write_all(&mut enc, bytes).unwrap();
    enc.finish().unwrap()
}

fn filter(filter_type: FilterType, name: &str) -> FilterPipeline {
    FilterPipeline { filter_type, name: name.to_string() }
}

#[test]
fn padded_size_rounds_up_to_eight() {
    assert_eq!(padded_size(0), 0);
    assert_eq!(padded_size(1), 8);
    assert_eq!(padded_size(8), 8);
    assert_eq!(padded_size(9), 16);
    assert_eq!(padded_size(13), 16);
}

#[test]
fn unshuffle_transposes_bytes() {
    // two elements of three bytes: stored as byte 0 of each, byte 1, byte 2
    let stored = vec![10, 20, 11, 21, 12, 22];
    assert_eq!(unshuffle(&stored, 3), vec![10, 11, 12, 20, 21, 22]);
    // trailing bytes past the last whole element become zero
    assert_eq!(unshuffle(&vec![1, 2, 3, 4, 9], 2), vec![1, 3, 2, 4, 0]);
    assert_eq!(unshuffle(&vec![5, 6, 7], 1), vec![5, 6, 7]);
}

#[test]
fn shuffle_then_deflate_is_undone() {
    let original: Vec<u8> = (0u8..48).map(|x| x.wrapping_mul(37)).collect();
    for e in [1usize, 2, 4, 8] {
        let stored = compress(&shuffle(&original, e));
        let filters = vec![
            filter(FilterType::ShuffleFilter, "shuffle"),
            filter(FilterType::GzipDeflateFilter, "deflate"),
        ];
        assert_eq!(invert_filters(&filters, stored, e).unwrap(), original);
    }
}

#[test]
fn inflate_changes_the_bytes() {
    let stored = compress(&[1, 2, 3, 4, 5]);
    let filters = vec![filter(FilterType::GzipDeflateFilter, "deflate")];
    assert_eq!(invert_filters(&filters, stored, 1).unwrap(), vec![1, 2, 3, 4, 5]);
}

#[test]
fn empty_pipeline_keeps_the_bytes() {
    assert_eq!(invert_filters(&vec![], vec![4, 5, 6], 1).unwrap(), vec![4, 5, 6]);
}

#[test]
fn unknown_filter_is_unsupported() {
    let filters = vec![filter(FilterType::SzipFilter, "szip")];
    assert!(matches!(invert_filters(&filters, vec![1, 2], 1), Err(Error::Unsupported)));
}

#[test]
fn corrupt_stream_fails_to_inflate() {
    let filters = vec![filter(FilterType::GzipDeflateFilter, "deflate")];
    assert!(matches!(invert_filters(&filters, vec![0, 1, 2, 3], 1), Err(Error::Decompression)));
}

#[test]
fn filter_pipeline_message_is_parsed_in_order() {
    let mut m = vec![1, 2, 0, 0, 0, 0, 0, 0];
    // shuffle, name "shuffle\0" (8 bytes), one client value plus padding
    m.extend_from_slice(&[2, 0, 8, 0, 0, 0, 1, 0]);
    m.extend_from_slice(b"shuffle\0");
    m.extend_from_slice(&[4, 0, 0, 0, 0, 0, 0, 0]);
    // deflate, name "deflate\0", one client value plus padding
    m.extend_from_slice(&[1, 0, 8, 0, 0, 0, 1, 0]);
    m.extend_from_slice(b"deflate\0");
    m.extend_from_slice(&[6, 0, 0, 0, 0, 0, 0, 0]);
    let fs = parse_filter_pipeline_message(&m).unwrap();
    assert_eq!(fs.len(), 2);
    assert_eq!(fs[0].filter_type, FilterType::ShuffleFilter);
    assert_eq!(fs[0].name, "shuffle");
    assert_eq!(fs[1].filter_type, FilterType::GzipDeflateFilter);
    assert_eq!(fs[1].name, "deflate");
}

#[test]
fn filter_pipeline_errors() {
    assert!(matches!(parse_filter_pipeline_message(&[2, 0, 0, 0, 0, 0, 0, 0]), Err(Error::Format)));
    assert!(matches!(parse_filter_pipeline_message(&[]), Err(Error::Io)));
    assert!(matches!(parse_filter_pipeline_message(&[1, 1, 0, 0, 0, 0, 0, 0]), Err(Error::Io)));
    let unknown = [1, 1, 0, 0, 0, 0, 0, 0, 99, 0, 0, 0, 0, 0, 0, 0];
    assert!(matches!(parse_filter_pipeline_message(&unknown), Err(Error::Format)));
    // a filter name must hold at least its closing NUL
    let unnamed = [1, 1, 0, 0, 0, 0, 0, 0, 2, 0, 0, 0, 0, 0, 0, 0];
    assert!(matches!(parse_filter_pipeline_message(&unnamed), Err(Error::Format)));
}

#[test]
fn dataspace_versions() {
    let mut v1 = vec![1, 2, 0, 0, 0, 0, 0, 0];
    v1.extend_from_slice(&3u64.to_le_bytes());
    v1.extend_from_slice(&5u64.to_le_bytes());
    assert_eq!(parse_dataspace_message(&v1).unwrap().shape, vec![3, 5]);
    let mut v2 = vec![2, 1, 0, 1];
    v2.extend_from_slice(&7u64.to_le_bytes());
    assert_eq!(parse_dataspace_message(&v2).unwrap().shape, vec![7]);
    assert!(matches!(parse_dataspace_message(&[3, 0, 0, 0]), Err(Error::Format)));
    assert!(matches!(parse_dataspace_message(&[2, 1, 0, 1, 0]), Err(Error::Io)));
}

#[test]
fn datatype_message() {
    let dt = parse_datatype_message(&[0x11, 0x20, 0x3f, 0, 4, 0, 0, 0]).unwrap();
    assert_eq!(dt.encoding, DatatypeEncoding::FloatingPoint);
    assert_eq!(dt.size, 4);
    assert_eq!(dt.class_bit_field_0, 0x20);
    assert!(matches!(parse_datatype_message(&[0x1f, 0, 0, 0, 4, 0, 0, 0]), Err(Error::Format)));
    assert!(matches!(parse_datatype_message(&[0x10, 0, 0]), Err(Error::Io)));
}

#[test]
fn data_storage_messages() {
    let mut c = vec![3, 1];
    c.extend_from_slice(&100u64.to_le_bytes());
    c.extend_from_slice(&16u64.to_le_bytes());
    match parse_data_storage_message(&c).unwrap() {
        DataStorage::Contiguous { address, size } => {
            assert_eq!(address, 100);
            assert_eq!(size, 16);
        }
        _ => panic!("expected contiguous storage"),
    }
    let mut k = vec![3, 2, 3];
    k.extend_from_slice(&200u64.to_le_bytes());
    for x in [10u32, 20, 4] {
        k.extend_from_slice(&x.to_le_bytes());
    }
    match parse_data_storage_message(&k).unwrap() {
        DataStorage::Chunked { chunk_shape, address } => {
            assert_eq!(address, 200);
            assert_eq!(chunk_shape, vec![10, 20, 4]);
        }
        _ => panic!("expected chunked storage"),
    }
    assert!(matches!(parse_data_storage_message(&[2, 1]), Err(Error::Format)));
    assert!(matches!(parse_data_storage_message(&[3, 0]), Err(Error::Format)));
    assert!(matches!(parse_data_storage_message(&[3, 5]), Err(Error::Format)));
    assert!(matches!(parse_data_storage_message(&[3, 1, 0]), Err(Error::Io)));
}

#[test]
fn link_messages() {
    let mut hard = vec![1, 0, 3];
    hard.extend_from_slice(b"abc");
    hard.extend_from_slice(&42u64.to_le_bytes());
    let l = parse_link_message(&hard).unwrap();
    assert_eq!(l.name, "abc");
    assert!(matches!(l.target, LinkTarget::Hard { address: 42 }));

    // two-byte name length, creation order and character set present
    let mut wide = vec![1, 0b1_0101];
    wide.extend_from_slice(&9u64.to_le_bytes());
    wide.push(1);
    wide.extend_from_slice(&2u16.to_le_bytes());
    wide.extend_from_slice("é".as_bytes());
    wide.extend_from_slice(&7u64.to_le_bytes());
    let l = parse_link_message(&wide).unwrap();
    assert_eq!(l.name, "é");
    assert!(matches!(l.target, LinkTarget::Hard { address: 7 }));

    let mut soft = vec![1, 0b1000, 1, 1, b's'];
    soft.extend_from_slice(&2u16.to_le_bytes());
    soft.extend_from_slice(b"/t");
    match parse_link_message(&soft).unwrap().target {
        LinkTarget::Soft { name } => assert_eq!(name, "/t"),
        _ => panic!("expected a soft link"),
    }

    assert!(matches!(parse_link_message(&[1, 0b1000, 64, 1, b'x']), Err(Error::Unsupported)));
    assert!(matches!(parse_link_message(&[1, 0b1000, 5, 1, b'x']), Err(Error::Format)));
    assert!(matches!(parse_link_message(&[1, 0, 2, 0xff, 0xfe, 0, 0, 0, 0, 0, 0, 0, 0]), Err(Error::Utf8)));
    assert!(matches!(parse_link_message(&[1, 0, 9, b'x']), Err(Error::Io)));
}

#[test]
fn link_flags() {
    let f = LinkFlags::new(0b1100);
    assert!(f.contains(8));
    assert!(f.contains(4));
    assert!(!f.contains(16));
    assert_eq!(LinkFlags::empty().bits, 0);
}

#[test]
fn message_tags() {
    assert_eq!(MessageType::from_tag(0).unwrap(), MessageType::Nil);
    assert_eq!(MessageType::from_tag(16).unwrap(), MessageType::ObjectContinuation);
    assert_eq!(MessageType::from_tag(24).unwrap(), MessageType::FileSpaceInfo);
    assert!(matches!(MessageType::from_tag(23), Err(Error::Format)));
    assert!(matches!(MessageType::from_tag(300), Err(Error::Format)));
}

#[test]
fn arena_handles() {
    let mut arena: Arena<String> = Arena::new();
    let a = arena.append("root".to_string());
    let b = arena.append("child".to_string());
    assert_eq!(a.index, 0);
    assert_eq!(b.index, 1);
    assert_eq!(arena.get(&b), "child");
    arena.get_mut(&a).push_str("/");
    assert_eq!(arena.get(&a), "root/");
    assert_eq!(arena.len(), 2);
    let h: Handle<String> = Handle::new(1);
    assert_eq!(arena.get(&h.clone()), "child");
}

#[test]
fn error_messages() {
    assert_eq!(Error::NotFound.message(), "name not found in group");
    assert!(!Error::Io.message().is_empty());
}
