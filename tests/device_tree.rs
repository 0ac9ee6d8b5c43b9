use mm::dtb::{parse, DeviceTree, DeviceTreeError, SliceRead};

fn be(v: u32) -> [u8; 4] {
    v.to_be_bytes()
}

fn pad4(b: &mut Vec<u8>) {
    while b.len() % 4 != 0 {
        b.push(0);
    }
}

const STRINGS: &[u8] = b"#address-cells\0#size-cells\0model\0reg\0";

/// A blob with a root node (three properties) and one child `cpu@0`.
fn sample_blob(version: u32, name: &[u8]) -> Vec<u8> {
    let mut st = Vec::new();
    st.extend_from_slice(&be(1));
    st.extend_from_slice(b"\0");
    pad4(&mut st);
    for (off, val) in [(0u32, be(2).to_vec()), (15, be(1).to_vec()), (27, b"board".to_vec())] {
        st.extend_from_slice(&be(3));
        st.extend_from_slice(&be(val.len() as u32));
        st.extend_from_slice(&be(off));
        st.extend_from_slice(&val);
        pad4(&mut st);
    }
    st.extend_from_slice(&be(1));
    st.extend_from_slice(name);
    st.push(0);
    pad4(&mut st);
    st.extend_from_slice(&be(3));
    st.extend_from_slice(&be(4));
    st.extend_from_slice(&be(33));
    st.extend_from_slice(&be(0x80));
    st.extend_from_slice(&be(2));
    st.extend_from_slice(&be(2));
    st.extend_from_slice(&be(9));

    let off_struct = 40u32;
    let off_strings = off_struct + st.len() as u32;
    let total = off_strings + STRINGS.len() as u32;
    let mut blob = Vec::new();
    for v in [0xd00dfeed, total, off_struct, off_strings, 0, version, 16, 0, 0, 0] {
        blob.extend_from_slice(&be(v));
    }
    blob.extend_from_slice(&st);
    blob.extend_from_slice(STRINGS);
    blob
}

#[test]
fn read_be_u32_reads_big_endian() {
    let b: &[u8] = &[0x12, 0x34, 0x56, 0x78, 0x9a];
    assert_eq!(b.read_be_u32(0).unwrap(), 0x12345678);
    assert_eq!(b.read_be_u32(1).unwrap(), 0x3456789a);
    assert!(matches!(b.read_be_u32(2), Err(DeviceTreeError::SliceReadError)));
    assert!(matches!(b.read_be_u32(usize::MAX), Err(DeviceTreeError::SliceReadError)));
}

#[test]
fn read_be_u64_reads_two_words() {
    let b: &[u8] = &[0, 0, 0, 1, 0, 0, 0, 2];
    assert_eq!(b.read_be_u64(0).unwrap(), 0x1_0000_0002);
    assert!(matches!(b.read_be_u64(1), Err(DeviceTreeError::SliceReadError)));
}

#[test]
fn read_bstring0_stops_at_nul() {
    let b: &[u8] = b"ab\0cd";
    assert_eq!(b.read_bstring0(0).unwrap(), b"ab");
    assert_eq!(b.read_bstring0(2).unwrap(), b"");
    assert!(matches!(b.read_bstring0(3), Err(DeviceTreeError::SliceReadError)));
    assert!(matches!(b.read_bstring0(9), Err(DeviceTreeError::SliceReadError)));
}

#[test]
fn subslice_needs_end_inside() {
    let b: &[u8] = &[1, 2, 3, 4];
    assert_eq!(b.subslice(1, 3).unwrap(), &[2, 3]);
    assert!(matches!(b.subslice(1, 4), Err(DeviceTreeError::SliceReadError)));
}

#[test]
fn init_reads_header() {
    let blob = sample_blob(17, b"cpu@0");
    let dt = DeviceTree::init(0x4000_0000, &blob).unwrap();
    assert_eq!(dt.off_struct(), 40);
    assert_eq!(dt.totalsize(), blob.len());
    assert_eq!(dt.ptr(), 0x4000_0000);
}

#[test]
fn init_refuses_bad_headers() {
    let mut blob = sample_blob(17, b"cpu@0");
    blob[0] = 0;
    assert!(matches!(DeviceTree::init(0, &blob), Err(DeviceTreeError::BadMagicNumber)));
    let old = sample_blob(16, b"cpu@0");
    assert!(matches!(DeviceTree::init(0, &old), Err(DeviceTreeError::VersionNotSupported)));
    let short = &sample_blob(17, b"cpu@0")[..20];
    assert!(matches!(DeviceTree::init(0, short), Err(DeviceTreeError::SliceReadError)));
}

#[test]
fn parse_walks_nodes_in_preorder() {
    let blob = sample_blob(17, b"cpu@0");
    let nodes = parse(0x4000_0000, &blob).unwrap();
    assert_eq!(nodes.len(), 2);
    let root = &nodes[0];
    assert_eq!(root.name, "");
    assert_eq!((root.addr_cells, root.size_cells), (2, 1));
    let names: Vec<&str> = root.props.iter().map(|p| p.name.as_str()).collect();
    assert_eq!(names, ["#address-cells", "#size-cells", "model"]);
    assert_eq!(root.props[2].value, b"board");
    let cpu = &nodes[1];
    assert_eq!(cpu.name, "cpu@0");
    assert_eq!((cpu.addr_cells, cpu.size_cells), (2, 1));
    assert_eq!(cpu.props.len(), 1);
    assert_eq!(cpu.props[0].name, "reg");
    assert_eq!(cpu.props[0].value, vec![0, 0, 0, 0x80]);
}

#[test]
fn parse_method_returns_end_offset() {
    let blob = sample_blob(17, b"cpu@0");
    let dt = DeviceTree::init(0, &blob).unwrap();
    let (nodes, end) = dt.parse(&blob, dt.off_struct(), 0, 0).unwrap();
    assert_eq!(nodes.len(), 2);
    // The word after the root's end token is the end-of-blob token.
    assert_eq!((&blob[..]).read_be_u32(end).unwrap(), 9);
}

#[test]
fn parse_reports_unexpected_token() {
    let blob = sample_blob(17, b"cpu@0");
    let dt = DeviceTree::init(0, &blob).unwrap();
    assert!(matches!(dt.parse(&blob, 44, 0, 0), Err(DeviceTreeError::ParseError(44))));
}

#[test]
fn parse_reports_bad_utf8_name() {
    let blob = sample_blob(17, &[0xff, 0xfe]);
    assert!(matches!(parse(0, &blob), Err(DeviceTreeError::Utf8Error)));
}
