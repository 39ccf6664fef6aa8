use oxifive::dataset::ElementType;
use oxifive::error::Error;
use oxifive::file::FileReader;
use oxifive::group::Object;
use oxifive::link::LinkTarget;

// ---- little helpers that lay out file structures ----

fn put_u16(v: &mut Vec<u8>, x: u16) {
    v.extend_from_slice(&x.to_le_bytes());
}

fn put_u32(v: &mut Vec<u8>, x: u32) {
    v.extend_from_slice(&x.to_le_bytes());
}

fn put_u64(v: &mut Vec<u8>, x: u64) {
    v.extend_from_slice(&x.to_le_bytes());
}

/// Superblock (version 0) followed by the root symbol-table entry.
fn superblock(root_header: u64) -> Vec<u8> {
    let mut v = vec![137, 72, 68, 70, 13, 10, 26, 10];
    v.extend_from_slice(&[0, 0, 0, 0, 0, 8, 8, 0]);
    put_u16(&mut v, 4);
    put_u16(&mut v, 16);
    put_u32(&mut v, 0);
    put_u64(&mut v, 0);
    put_u64(&mut v, u64::MAX);
    put_u64(&mut v, 0);
    put_u64(&mut v, u64::MAX);
    // root symbol-table entry
    put_u64(&mut v, 0);
    put_u64(&mut v, root_header);
    put_u32(&mut v, 0);
    put_u32(&mut v, 0);
    v.extend_from_slice(&[0u8; 16]);
    assert_eq!(v.len(), 96);
    v
}

/// A version-2 object header holding the given (type, body) messages.
fn header_v2(messages: &[(u8, Vec<u8>)]) -> Vec<u8> {
    let mut body = vec![];
    for (t, m) in messages {
        body.push(*t);
        put_u16(&mut body, m.len() as u16);
        body.push(0);
        body.extend_from_slice(m);
    }
    let mut v = b"OHDR".to_vec();
    v.push(2);
    v.push(0b10); // chunk-0 size stored in four bytes
    put_u32(&mut v, body.len() as u32);
    v.extend_from_slice(&body);
    v.extend_from_slice(&[0, 0, 0, 0]); // checksum
    v
}

fn hard_link(name: &str, address: u64) -> (u8, Vec<u8>) {
    let mut v = vec![1, 0, name.len() as u8];
    v.extend_from_slice(name.as_bytes());
    put_u64(&mut v, address);
    (6, v)
}

fn soft_link(name: &str, target: &str) -> (u8, Vec<u8>) {
    let mut v = vec![1, 0b1000, 1, name.len() as u8];
    v.extend_from_slice(name.as_bytes());
    put_u16(&mut v, target.len() as u16);
    v.extend_from_slice(target.as_bytes());
    (6, v)
}

fn dataspace(shape: &[u64]) -> (u8, Vec<u8>) {
    let mut v = vec![2, shape.len() as u8, 0, 1];
    for &x in shape {
        put_u64(&mut v, x);
    }
    (1, v)
}

fn datatype(class: u8, size: u32) -> (u8, Vec<u8>) {
    let mut v = vec![0x10 | class, 0, 0, 0];
    put_u32(&mut v, size);
    (3, v)
}

fn contiguous(address: u64, size: u64) -> (u8, Vec<u8>) {
    let mut v = vec![3, 1];
    put_u64(&mut v, address);
    put_u64(&mut v, size);
    (8, v)
}

fn chunked(address: u64, chunk_shape: &[u32]) -> (u8, Vec<u8>) {
    let mut v = vec![3, 2, chunk_shape.len() as u8];
    put_u64(&mut v, address);
    for &x in chunk_shape {
        put_u32(&mut v, x);
    }
    (8, v)
}

/// A filter pipeline message: (filter id, name) in registration order.
fn pipeline(filters: &[(u16, &str, Vec<u32>)]) -> (u8, Vec<u8>) {
    let mut v = vec![1, filters.len() as u8, 0, 0, 0, 0, 0, 0];
    for (id, name, cd) in filters {
        put_u16(&mut v, *id);
        let name_len = name.len() + 1;
        put_u16(&mut v, name_len as u16);
        put_u16(&mut v, 0);
        put_u16(&mut v, cd.len() as u16);
        let padded = (name_len + 7) / 8 * 8;
        let mut n = name.as_bytes().to_vec();
        n.resize(padded, 0);
        v.extend_from_slice(&n);
        for &c in cd {
            put_u32(&mut v, c);
        }
        if cd.len() % 2 == 1 {
            put_u32(&mut v, 0);
        }
    }
    (11, v)
}

/// A level-0 chunk B-tree node: (chunk size, filter mask, offsets, address).
fn chunk_tree(keys: &[(u32, u32, Vec<u64>, u64)]) -> Vec<u8> {
    let mut v = b"TREE".to_vec();
    v.push(1);
    v.push(0);
    put_u16(&mut v, keys.len() as u16);
    put_u64(&mut v, u64::MAX);
    put_u64(&mut v, u64::MAX);
    for (size, mask, offsets, address) in keys {
        put_u32(&mut v, *size);
        put_u32(&mut v, *mask);
        for &o in offsets {
            put_u64(&mut v, o);
        }
        put_u64(&mut v, *address);
    }
    v
}

/// Lays out blocks one after another from the end of the superblock; each
/// block is built from the addresses of all blocks.
struct Layout {
    sizes: Vec<usize>,
}

impl Layout {
    fn addresses(&self) -> Vec<u64> {
        let mut a = vec![];
        let mut p = 96u64;
        for s in &self.sizes {
            a.push(p);
            p += *s as u64;
        }
        a
    }
}

/// Builds a file whose root header is block 0; `make` builds each block from
/// the addresses of all blocks (called twice: once for sizes, once for real).
fn build(n: usize, make: &dyn Fn(&[u64]) -> Vec<Vec<u8>>) -> Vec<u8> {
    let blocks = make(&vec![0u64; n]);
    let layout = Layout { sizes: blocks.iter().map(|b| b.len()).collect() };
    let addresses = layout.addresses();
    let blocks = make(&addresses);
    let mut file = superblock(addresses[0]);
    for b in blocks {
        file.extend_from_slice(&b);
    }
    file
}

fn shuffle(bytes: &[u8], e: usize) -> Vec<u8> {
    let n = bytes.len() / e;
    let mut out = vec![0; bytes.len()];
    for i in 0..n {
        for b in 0..e {
            out[b * n + i] = bytes[i * e + b];
        }
    }
    out
}

fn compress(bytes: &[u8]) -> Vec<u8> {
    let mut enc = flate2::write::ZlibEncoder::new(Vec::new(), flate2::Compression::default());
    std::io::Write::write_all(&mut enc, bytes).unwrap();
    enc.finish().unwrap()
}

fn f32_bytes(values: &[f32]) -> Vec<u8> {
    values.iter().flat_map(|x| x.to_le_bytes()).collect()
}

fn as_f32(bytes: &[u8]) -> Vec<f32> {
    bytes.chunks(4).map(|c| f32::from_le_bytes([c[0], c[1], c[2], c[3]])).collect()
}

/// root -> "group" -> "data": f32 [1,3,2], one chunk, shuffle + deflate.
fn simple_file() -> Vec<u8> {
    let values = [1.0f32, 2.0, 8.0, 3.0, 4.0, 9.0];
    let stored = compress(&shuffle(&f32_bytes(&values), 4));
    build(5, &|a: &[u64]| {
        vec![
            header_v2(&[hard_link("group", a[1])]),
            header_v2(&[hard_link("data", a[2])]),
            header_v2(&[
                dataspace(&[1, 3, 2]),
                datatype(1, 4),
                pipeline(&[(2, "shuffle", vec![4]), (1, "deflate", vec![6])]),
                chunked(a[3], &[1, 3, 2, 4]),
            ]),
            chunk_tree(&[(stored.len() as u32, 0, vec![0, 0, 0, 0], a[4])]),
            stored.clone(),
        ]
    })
}

#[test]
fn read_simple() {
    let file = FileReader::new(simple_file()).unwrap();
    let group = file.group("group").expect("group not found");
    let data = group.dataset("data").unwrap();
    let array = data.read(ElementType::F32).unwrap();
    assert_eq!(array.shape, vec![1, 3, 2]);
    assert_eq!(as_f32(&array.bytes), vec![1.0, 2.0, 8.0, 3.0, 4.0, 9.0]);
}

/// root holds "bytes" (contiguous u8 [4]), "wide" (f64 [2]), "link" (soft),
/// "broken" (points at garbage) and "sub" (an empty group).
fn mixed_file() -> Vec<u8> {
    build(7, &|a: &[u64]| {
        vec![
            header_v2(&[
                hard_link("bytes", a[1]),
                hard_link("wide", a[2]),
                soft_link("link", "/bytes"),
                hard_link("broken", a[5]),
                hard_link("sub", a[6]),
            ]),
            header_v2(&[dataspace(&[4]), datatype(0, 1), contiguous(a[3], 4)]),
            header_v2(&[dataspace(&[2]), datatype(1, 8), contiguous(a[4], 16)]),
            vec![0, 1, 2, 3],
            f32_bytes(&[0.0, 0.0, 0.0, 0.0]),
            vec![7, 7, 7, 7, 7, 7, 7, 7],
            header_v2(&[]),
        ]
    })
}

#[test]
fn contiguous_u8_dataset() {
    let file = FileReader::new(mixed_file()).unwrap();
    let data = file.dataset("bytes").unwrap();
    assert_eq!(data.shape(), vec![4]);
    let array = data.read(ElementType::U8).unwrap();
    assert_eq!(array.shape, vec![4]);
    assert_eq!(array.element_size, 1);
    assert_eq!(array.bytes, vec![0, 1, 2, 3]);
}

#[test]
fn absent_name_is_not_found() {
    let file = FileReader::new(mixed_file()).unwrap();
    assert!(matches!(file.object("missing"), Err(Error::NotFound)));
    assert!(matches!(file.group("missing"), Err(Error::NotFound)));
    let sub = file.group("sub").unwrap();
    assert!(matches!(sub.dataset("x"), Err(Error::NotFound)));
}

#[test]
fn double_read_as_single_is_type_mismatch() {
    let file = FileReader::new(mixed_file()).unwrap();
    let wide = file.dataset("wide").unwrap();
    assert_eq!(wide.datatype().size, 8);
    assert!(matches!(wide.read(ElementType::F32), Err(Error::TypeMismatch)));
    assert!(matches!(wide.read(ElementType::U8), Err(Error::TypeMismatch)));
    assert_eq!(wide.read(ElementType::F64).unwrap().bytes.len(), 16);
}

#[test]
fn soft_link_is_unsupported() {
    let file = FileReader::new(mixed_file()).unwrap();
    assert!(matches!(file.object("link"), Err(Error::Unsupported)));
}

#[test]
fn root_keys_each_once() {
    let file = FileReader::new(mixed_file()).unwrap();
    let mut keys = file.keys();
    keys.sort();
    assert_eq!(keys, vec!["broken", "bytes", "link", "sub", "wide"]);
    assert_eq!(file.as_group().keys().len(), 5);
}

#[test]
fn malformed_child_leaves_other_lookups_working() {
    let file = FileReader::new(mixed_file()).unwrap();
    assert!(matches!(file.object("broken"), Err(Error::Format)));
    assert!(matches!(file.object("link"), Err(Error::Unsupported)));
    let data = file.dataset("bytes").unwrap();
    assert_eq!(data.read(ElementType::U8).unwrap().bytes, vec![0, 1, 2, 3]);
}

#[test]
fn classification_and_downcasts() {
    let file = FileReader::new(mixed_file()).unwrap();
    assert!(matches!(file.object("sub"), Ok(Object::Group(_))));
    assert!(matches!(file.object("bytes"), Ok(Object::Dataset(_))));
    assert!(matches!(file.group("bytes"), Err(Error::Format)));
    assert!(matches!(file.dataset("sub"), Err(Error::Format)));
    let obj = file.object("bytes").unwrap();
    assert!(matches!(obj.object("x"), Err(Error::Format)));
    let root = Object::Group(file.as_group());
    assert!(root.dataset("bytes").is_ok());
    assert!(root.group("sub").is_ok());
}

#[test]
fn read_shape_matches_dataspace() {
    let file = FileReader::new(simple_file()).unwrap();
    let data = file.group("group").unwrap().dataset("data").unwrap();
    assert_eq!(data.read(ElementType::F32).unwrap().shape, data.shape());
}

/// A 2-D u8 dataset [3,3] tiled by 2x2 chunks, unfiltered; the chunk at
/// origin (2,2) is missing, so that element stays zero.
fn tiled_file() -> Vec<u8> {
    build(6, &|a: &[u64]| {
        vec![
            header_v2(&[hard_link("grid", a[1])]),
            header_v2(&[dataspace(&[3, 3]), datatype(0, 1), chunked(a[2], &[2, 2, 1])]),
            chunk_tree(&[
                (4, 0, vec![0, 0, 0], a[3]),
                (4, 0, vec![0, 2, 0], a[4]),
                (4, 0, vec![2, 0, 0], a[5]),
            ]),
            vec![1, 2, 4, 5],
            vec![3, 30, 6, 60],
            vec![7, 8, 70, 80],
        ]
    })
}

#[test]
fn boundary_chunks_are_clipped_and_missing_stay_zero() {
    let file = FileReader::new(tiled_file()).unwrap();
    let data = file.dataset("grid").unwrap();
    let array = data.read(ElementType::U8).unwrap();
    assert_eq!(array.shape, vec![3, 3]);
    assert_eq!(array.bytes, vec![1, 2, 3, 4, 5, 6, 7, 8, 0]);
}

#[test]
fn nonzero_filter_mask_is_unsupported() {
    let stored = compress(&[1u8, 2, 3, 4]);
    let file = build(4, &|a: &[u64]| {
        vec![
            header_v2(&[hard_link("d", a[1])]),
            header_v2(&[
                dataspace(&[4]),
                datatype(0, 1),
                pipeline(&[(1, "deflate", vec![6])]),
                chunked(a[2], &[4, 1]),
            ]),
            chunk_tree(&[(stored.len() as u32, 1, vec![0, 0], a[3])]),
            stored.clone(),
        ]
    });
    let file = FileReader::new(file).unwrap();
    let d = file.dataset("d").unwrap();
    assert!(matches!(d.read(ElementType::U8), Err(Error::Unsupported)));
}

#[test]
fn corrupt_deflate_stream_is_decompression_error() {
    let file = build(4, &|a: &[u64]| {
        vec![
            header_v2(&[hard_link("d", a[1])]),
            header_v2(&[
                dataspace(&[4]),
                datatype(0, 1),
                pipeline(&[(1, "deflate", vec![6])]),
                chunked(a[2], &[4, 1]),
            ]),
            chunk_tree(&[(6, 0, vec![0, 0], a[3])]),
            vec![1, 2, 3, 4, 5, 6],
        ]
    });
    let file = FileReader::new(file).unwrap();
    let d = file.dataset("d").unwrap();
    assert!(matches!(d.read(ElementType::U8), Err(Error::Decompression)));
}

#[test]
fn contiguous_size_mismatch_is_shape_error() {
    let file = build(3, &|a: &[u64]| {
        vec![
            header_v2(&[hard_link("d", a[1])]),
            header_v2(&[dataspace(&[5]), datatype(0, 1), contiguous(a[2], 4)]),
            vec![1, 2, 3, 4],
        ]
    });
    let file = FileReader::new(file).unwrap();
    let d = file.dataset("d").unwrap();
    assert!(matches!(d.read(ElementType::U8), Err(Error::Shape)));
}

#[test]
fn contiguous_past_end_is_io_error() {
    let file = build(2, &|a: &[u64]| {
        vec![
            header_v2(&[hard_link("d", a[1])]),
            header_v2(&[dataspace(&[4]), datatype(0, 1), contiguous(1 << 20, 4)]),
        ]
    });
    let file = FileReader::new(file).unwrap();
    let d = file.dataset("d").unwrap();
    assert!(matches!(d.read(ElementType::U8), Err(Error::Io)));
}

#[test]
fn bad_signature_is_format_error() {
    let mut file = simple_file();
    file[1] = b'X';
    assert!(matches!(FileReader::new(file), Err(Error::Format)));
}

#[test]
fn wrong_superblock_version_is_format_error() {
    let mut file = simple_file();
    file[8] = 2;
    assert!(matches!(FileReader::new(file), Err(Error::Format)));
}

#[test]
fn wrong_offset_size_is_format_error() {
    let mut file = simple_file();
    file[13] = 4;
    assert!(matches!(FileReader::new(file), Err(Error::Format)));
}

#[test]
fn short_file_is_io_error() {
    assert!(matches!(FileReader::new(vec![137, 72, 68]), Err(Error::Io)));
    assert!(matches!(FileReader::new(vec![]), Err(Error::Io)));
}

#[test]
fn unknown_header_version_is_format_error() {
    let file = build(1, &|_a: &[u64]| vec![vec![9, 9, 9, 9]]);
    assert!(matches!(FileReader::new(file), Err(Error::Format)));
}

#[test]
fn phase_change_flag_is_format_error() {
    let file = build(1, &|_a: &[u64]| {
        let mut h = header_v2(&[]);
        h[5] |= 0b1_0000;
        vec![h]
    });
    assert!(matches!(FileReader::new(file), Err(Error::Format)));
}

/// A root header whose messages continue in an "OCHK" chunk.
#[test]
fn continuation_chunk_is_followed() {
    let file = build(3, &|a: &[u64]| {
        let mut cont = vec![];
        put_u64(&mut cont, a[1]);
        let mut chunk = b"OCHK".to_vec();
        let (t, m) = hard_link("later", a[2]);
        chunk.push(t);
        put_u16(&mut chunk, m.len() as u16);
        chunk.push(0);
        chunk.extend_from_slice(&m);
        put_u64(&mut cont, chunk.len() as u64 + 4);
        chunk.extend_from_slice(&[0, 0, 0, 0]);
        vec![
            header_v2(&[hard_link("first", a[2]), (16, cont)]),
            chunk,
            header_v2(&[]),
        ]
    });
    let file = FileReader::new(file).unwrap();
    let mut keys = file.keys();
    keys.sort();
    assert_eq!(keys, vec!["first", "later"]);
    assert!(file.group("later").is_ok());
}

#[test]
fn continuation_with_wrong_signature_is_format_error() {
    let file = build(2, &|a: &[u64]| {
        let mut cont = vec![];
        put_u64(&mut cont, a[1]);
        put_u64(&mut cont, 8);
        vec![header_v2(&[(16, cont)]), b"XXXX0000".to_vec()]
    });
    assert!(matches!(FileReader::new(file), Err(Error::Format)));
}

/// A version-1 root group: symbol table message, group B-tree, symbol-table
/// node and local heap.
fn v1_file() -> Vec<u8> {
    v1_file_with(2)
}

/// The version-1 file, with the given cache type on the entry "beta".
fn v1_file_with(beta_cache: u32) -> Vec<u8> {
    build(5, &|a: &[u64]| {
        // block 0: v1 object header with one symbol table message
        let mut msg = vec![];
        put_u64(&mut msg, a[1]);
        put_u64(&mut msg, a[3]);
        let mut h = vec![1, 0];
        put_u16(&mut h, 1);
        put_u32(&mut h, 1);
        put_u32(&mut h, 8 + msg.len() as u32);
        put_u32(&mut h, 0);
        put_u16(&mut h, 17);
        put_u16(&mut h, msg.len() as u16);
        h.extend_from_slice(&[0, 0, 0, 0]);
        h.extend_from_slice(&msg);
        // block 1: group B-tree leaf with one symbol-table node
        let mut t = b"TREE".to_vec();
        t.push(0);
        t.push(0);
        put_u16(&mut t, 1);
        put_u64(&mut t, u64::MAX);
        put_u64(&mut t, u64::MAX);
        put_u64(&mut t, 0);
        put_u64(&mut t, a[2]);
        // block 2: symbol-table node with two entries
        let mut s = b"SNOD".to_vec();
        s.push(1);
        s.push(0);
        put_u16(&mut s, 2);
        for (name_offset, target, cache, scratch) in [(1u64, a[4], 0u32, 0u32), (7, 0, beta_cache, 13)] {
            put_u64(&mut s, name_offset);
            put_u64(&mut s, target);
            put_u32(&mut s, cache);
            put_u32(&mut s, 0);
            put_u32(&mut s, scratch);
            s.extend_from_slice(&[0u8; 12]);
        }
        // block 3: local heap header; data segment is block 3's tail
        let mut data = vec![0u8];
        data.extend_from_slice(b"alpha\0");
        data.extend_from_slice(b"beta\0\0");
        data.extend_from_slice(b"/alpha\0");
        let mut hp = b"HEAP".to_vec();
        hp.extend_from_slice(&[0, 0, 0, 0]);
        put_u64(&mut hp, data.len() as u64);
        put_u64(&mut hp, u64::MAX);
        put_u64(&mut hp, a[3] + 32);
        hp.extend_from_slice(&data);
        // block 4: an empty v2 group
        vec![h, t, s, hp, header_v2(&[])]
    })
}

#[test]
fn version_one_group_names_come_from_heap() {
    let file = FileReader::new(v1_file()).unwrap();
    let mut keys = file.keys();
    keys.sort();
    assert_eq!(keys, vec!["alpha", "beta"]);
    assert!(matches!(file.object("alpha"), Ok(Object::Group(_))));
    assert!(matches!(file.object("beta"), Err(Error::Unsupported)));
}

#[test]
fn every_hard_link_is_followed_and_classified() {
    let file = FileReader::new(mixed_file()).unwrap();
    let mut groups = 0;
    let mut datasets = 0;
    for link in file.data_object.links.iter() {
        let followed = link.follow(&file);
        match (&link.target, link.name.as_str()) {
            (LinkTarget::Soft { .. }, _) => assert!(matches!(followed, Err(Error::Unsupported))),
            (LinkTarget::Hard { .. }, "broken") => assert!(followed.is_err()),
            (LinkTarget::Hard { .. }, name) => match followed.unwrap() {
                Object::Group(_) => {
                    groups += 1;
                    assert!(file.group(name).is_ok());
                }
                Object::Dataset(_) => {
                    datasets += 1;
                    assert!(file.dataset(name).is_ok());
                }
            },
        }
    }
    assert_eq!((groups, datasets), (1, 2));
}

#[test]
fn unsupported_message_in_one_child_leaves_siblings_readable() {
    let file = build(4, &|a: &[u64]| {
        let (t, mut bad_space) = dataspace(&[2]);
        bad_space[0] = 3; // dataspace version 3 is not supported
        vec![
            header_v2(&[hard_link("odd", a[1]), hard_link("fine", a[2])]),
            header_v2(&[(t, bad_space), datatype(0, 1), contiguous(a[3], 2)]),
            header_v2(&[dataspace(&[2]), datatype(0, 1), contiguous(a[3], 2)]),
            vec![5, 6],
        ]
    });
    let file = FileReader::new(file).unwrap();
    assert!(matches!(file.dataset("odd"), Err(Error::Format)));
    assert_eq!(file.dataset("fine").unwrap().read(ElementType::U8).unwrap().bytes, vec![5, 6]);
    assert!(matches!(file.dataset("odd"), Err(Error::Format)));
}

#[test]
fn unknown_cache_type_is_format_error() {
    assert!(matches!(FileReader::new(v1_file_with(3)), Err(Error::Format)));
    assert!(FileReader::new(v1_file_with(1)).is_ok());
}

#[test]
fn short_header_with_wrong_signature_is_format_error() {
    let mut file = superblock(96);
    file.extend_from_slice(b"OXYZ");
    assert!(matches!(FileReader::new(file), Err(Error::Format)));
    let mut file = superblock(96);
    file.extend_from_slice(b"OHDR");
    assert!(matches!(FileReader::new(file), Err(Error::Io)));
}
