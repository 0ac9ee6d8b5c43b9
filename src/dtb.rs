use vstd::prelude::*;
use vstd::slice::{slice_subrange, slice_to_vec};
use vstd::utf8::{decode_utf8, valid_utf8};

verus! {

/// Magic number at the start of a device-tree blob.
pub const MAGIC_NUMBER: u32 = 0xd00dfeed;
/// The only blob version understood.
pub const SUPPORTED_VERSION: u32 = 17;
/// Token that opens a node.
pub const OF_DT_BEGIN_NODE: u32 = 0x00000001;
/// Token that closes a node.
pub const OF_DT_END_NODE: u32 = 0x00000002;
/// Token that introduces a property.
pub const OF_DT_PROP: u32 = 0x00000003;

/// Why reading a device-tree blob failed.
#[derive(Clone, Copy, PartialEq, Eq, Structural, Debug)]
pub enum DeviceTreeError {
    BadMagicNumber,
    SliceReadError,
    VersionNotSupported,
    /// An unexpected token at this offset.
    ParseError(usize),
    Utf8Error,
}

/// The big-endian 32-bit number in the four bytes at `pos`.
pub open spec fn be_u32(b: Seq<u8>, pos: int) -> int {
    b[pos] * 0x1000000 + b[pos + 1] * 0x10000 + b[pos + 2] * 0x100 + b[pos + 3]
}

/// The 32-bit number at `pos`, or `SliceReadError` when the four bytes do
/// not all lie in `b`.
pub open spec fn read_u32_spec(b: Seq<u8>, pos: int) -> Result<u32, DeviceTreeError> {
    if 0 <= pos && pos + 4 <= b.len() {
        Ok(be_u32(b, pos) as u32)
    } else {
        Err(DeviceTreeError::SliceReadError)
    }
}

/// The 64-bit number at `pos`: the 32-bit number there, then the one after.
pub open spec fn read_u64_spec(b: Seq<u8>, pos: int) -> Result<u64, DeviceTreeError> {
    if 0 <= pos && pos + 8 <= b.len() {
        Ok((be_u32(b, pos) * 0x100000000 + be_u32(b, pos + 4)) as u64)
    } else {
        Err(DeviceTreeError::SliceReadError)
    }
}

/// The offset of the first zero byte at or after `pos`, if any.
pub open spec fn nul_at(b: Seq<u8>, pos: int) -> Option<int>
    decreases b.len() - pos,
{
    if pos < 0 || pos >= b.len() {
        None
    } else if b[pos] == 0 {
        Some(pos)
    } else {
        nul_at(b, pos + 1)
    }
}

/// Reads numbers and strings out of a byte slice, checking every bound.
pub trait SliceRead: View<V = Seq<u8>> {
    /// The big-endian 32-bit number at `pos`.
    fn read_be_u32(&self, pos: usize) -> (r: Result<u32, DeviceTreeError>)
        ensures
            r == read_u32_spec(self@, pos as int),
    ;

    /// The big-endian 64-bit number at `pos`.
    fn read_be_u64(&self, pos: usize) -> (r: Result<u64, DeviceTreeError>)
        ensures
            r == read_u64_spec(self@, pos as int),
    ;

    /// The bytes from `pos` up to, not including, the next zero byte.
    fn read_bstring0(&self, pos: usize) -> (r: Result<&[u8], DeviceTreeError>)
        ensures
            match nul_at(self@, pos as int) {
                Some(e) => r is Ok && r->Ok_0@ == self@.subrange(pos as int, e),
                None => r == Err::<&[u8], DeviceTreeError>(DeviceTreeError::SliceReadError),
            },
    ;

    /// The bytes `[start, end)`; refused unless `end` lies strictly inside
    /// the slice.
    fn subslice(&self, start: usize, end: usize) -> (r: Result<&[u8], DeviceTreeError>)
        requires
            start <= end,
        ensures
            end < self@.len() ==> r is Ok && r->Ok_0@ == self@.subrange(start as int, end as int),
            end >= self@.len() ==> r == Err::<&[u8], DeviceTreeError>(DeviceTreeError::SliceReadError),
    ;
}

impl SliceRead for [u8] {
    fn read_be_u32(&self, pos: usize) -> (r: Result<u32, DeviceTreeError>) {
        if !(pos <= self.len() && 4 <= self.len() - pos) {
            return Err(DeviceTreeError::SliceReadError);
        }
        Ok((self[pos] as u32) * 0x1000000 + (self[pos + 1] as u32) * 0x10000 + (self[pos + 2] as u32)
            * 0x100 + (self[pos + 3] as u32))
    }

    fn read_be_u64(&self, pos: usize) -> (r: Result<u64, DeviceTreeError>) {
        if !(pos <= self.len() && 8 <= self.len() - pos) {
            return Err(DeviceTreeError::SliceReadError);
        }
        let hi = self.read_be_u32(pos)?;
        let lo = self.read_be_u32(pos + 4)?;
        Ok((hi as u64) * 0x100000000 + (lo as u64))
    }

    fn read_bstring0(&self, pos: usize) -> (r: Result<&[u8], DeviceTreeError>) {
        let mut cur = pos;
        while cur < self.len()
            invariant
                pos <= cur,
                nul_at(self@, pos as int) == nul_at(self@, cur as int),
            decreases self.len() - cur,
        {
            if self[cur] == 0 {
                return Ok(slice_subrange(self, pos, cur));
            }
            cur += 1;
        }
        Err(DeviceTreeError::SliceReadError)
    }

    fn subslice(&self, start: usize, end: usize) -> (r: Result<&[u8], DeviceTreeError>) {
        if !(end < self.len()) {
            return Err(DeviceTreeError::SliceReadError);
        }
        Ok(slice_subrange(self, start, end))
    }
}

/// One property of a node: its name and its raw value.
pub struct DtProp {
    pub name: String,
    pub value: Vec<u8>,
}

impl View for DtProp {
    type V = (Seq<char>, Seq<u8>);

    open spec fn view(&self) -> (Seq<char>, Seq<u8>) {
        (self.name@, self.value@)
    }
}

/// One node: its name, the `#address-cells` and `#size-cells` in force for
/// it, and its properties in order.
pub struct DtNode {
    pub name: String,
    pub addr_cells: usize,
    pub size_cells: usize,
    pub props: Vec<DtProp>,
}

/// A node as plain values: name, address cells, size cells, properties.
pub type NodeModel = (Seq<char>, usize, usize, Seq<(Seq<char>, Seq<u8>)>);

impl View for DtNode {
    type V = NodeModel;

    open spec fn view(&self) -> NodeModel {
        (self.name@, self.addr_cells, self.size_cells, self.props@.map_values(|p: DtProp| p@))
    }
}

/// The models of a sequence of nodes.
pub open spec fn nodes_model(s: Seq<DtNode>) -> Seq<NodeModel> {
    s.map_values(|n: DtNode| n@)
}

/// The bytes of the name `#address-cells`.
pub open spec fn address_cells_name() -> Seq<u8> {
    seq![35u8, 97, 100, 100, 114, 101, 115, 115, 45, 99, 101, 108, 108, 115]
}

/// The bytes of the name `#size-cells`.
pub open spec fn size_cells_name() -> Seq<u8> {
    seq![35u8, 115, 105, 122, 101, 45, 99, 101, 108, 108, 115]
}

/// `x` rounded up to a multiple of 4.
pub open spec fn align4(x: int) -> int {
    (x + 3) / 4 * 4
}

/// The cell count that a property sets: the number at the start of `val`
/// when the property is named `which`, else `cur` unchanged.
pub open spec fn cells_after(name: Seq<u8>, which: Seq<u8>, val: Seq<u8>, cur: usize) -> Result<
    usize,
    DeviceTreeError,
> {
    if name == which {
        match read_u32_spec(val, 0) {
            Ok(v) => Ok(v as usize),
            Err(e) => Err(e),
        }
    } else {
        Ok(cur)
    }
}

/// The run of properties at `pos` of blob `b`, whose string table starts at
/// `so`: their models, the cell counts after them, and the offset of the
/// first token that is not a property.
pub open spec fn props_spec(b: Seq<u8>, so: int, pos: int, ac: usize, sc: usize) -> Result<
    (Seq<(Seq<char>, Seq<u8>)>, usize, usize, int),
    DeviceTreeError,
>
    decreases b.len() + 4 - pos,
{
    match read_u32_spec(b, pos) {
        Err(e) => Err(e),
        Ok(t) => if t != OF_DT_PROP {
            Ok((seq![], ac, sc, pos))
        } else {
            match read_u32_spec(b, pos + 4) {
                Err(e) => Err(e),
                Ok(size) => match read_u32_spec(b, pos + 8) {
                    Err(e) => Err(e),
                    Ok(noff) => {
                        let vs = pos + 12;
                        let ve = vs + size;
                        if ve >= b.len() {
                            Err(DeviceTreeError::SliceReadError)
                        } else {
                            let val = b.subrange(vs, ve);
                            match nul_at(b, so + noff) {
                                None => Err(DeviceTreeError::SliceReadError),
                                Some(e) => {
                                    let nb = b.subrange(so + noff, e);
                                    if !valid_utf8(nb) {
                                        Err(DeviceTreeError::Utf8Error)
                                    } else {
                                        match cells_after(nb, address_cells_name(), val, ac) {
                                            Err(x) => Err(x),
                                            Ok(ac2) => match cells_after(nb, size_cells_name(), val, sc) {
                                                Err(x) => Err(x),
                                                Ok(sc2) => match props_spec(b, so, align4(ve), ac2, sc2) {
                                                    Err(x) => Err(x),
                                                    Ok(rest) => Ok((
                                                        seq![(decode_utf8(nb), val)] + rest.0,
                                                        rest.1,
                                                        rest.2,
                                                        rest.3,
                                                    )),
                                                },
                                            },
                                        }
                                    }
                                },
                            }
                        }
                    },
                },
            }
        },
    }
}

/// The node at `pos` of blob `b` and all its descendants, in pre-order, and
/// the offset just past its end token.
pub open spec fn node_spec(b: Seq<u8>, so: int, pos: int, ac: usize, sc: usize) -> Result<
    (Seq<NodeModel>, int),
    DeviceTreeError,
>
    decreases b.len() + 4 - pos, 1int,
{
    match read_u32_spec(b, pos) {
        Err(e) => Err(e),
        Ok(t) => if t != OF_DT_BEGIN_NODE {
            Err(DeviceTreeError::ParseError(pos as usize))
        } else {
            match nul_at(b, pos + 4) {
                None => Err(DeviceTreeError::SliceReadError),
                Some(e) => match props_spec(b, so, align4(e + 1), ac, sc) {
                    Err(x) => Err(x),
                    Ok(pr) => {
                        let nb = b.subrange(pos + 4, e);
                        if !valid_utf8(nb) {
                            Err(DeviceTreeError::Utf8Error)
                        } else if pr.3 <= pos || pr.3 > b.len() {
                            Err(DeviceTreeError::ParseError(pos as usize))
                        } else {
                            match children_spec(b, so, pr.3, pr.1, pr.2) {
                                Err(x) => Err(x),
                                Ok(ch) => match read_u32_spec(b, ch.1) {
                                    Err(x) => Err(x),
                                    Ok(t2) => if t2 != OF_DT_END_NODE {
                                        Err(DeviceTreeError::ParseError(ch.1 as usize))
                                    } else {
                                        Ok((seq![(decode_utf8(nb), pr.1, pr.2, pr.0)] + ch.0, ch.1 + 4))
                                    },
                                },
                            }
                        }
                    },
                },
            }
        },
    }
}

/// The run of sibling nodes at `pos`: all of them with their descendants,
/// in pre-order, and the offset of the first token that opens no node.
pub open spec fn children_spec(b: Seq<u8>, so: int, pos: int, ac: usize, sc: usize) -> Result<
    (Seq<NodeModel>, int),
    DeviceTreeError,
>
    decreases b.len() + 4 - pos, 2int,
{
    match read_u32_spec(b, pos) {
        Err(e) => Err(e),
        Ok(t) => if t != OF_DT_BEGIN_NODE {
            Ok((seq![], pos))
        } else {
            match node_spec(b, so, pos, ac, sc) {
                Err(x) => Err(x),
                Ok(n) => if n.1 <= pos || n.1 > b.len() {
                    Err(DeviceTreeError::ParseError(pos as usize))
                } else {
                    match children_spec(b, so, n.1, ac, sc) {
                        Err(x) => Err(x),
                        Ok(m) => Ok((n.0 + m.0, m.1)),
                    }
                },
            }
        },
    }
}

/// Relies on `std::str::from_utf8`: it accepts exactly the valid UTF-8 byte
/// sequences, and the string then holds the characters those bytes encode.
#[verifier::external_body]
fn utf8_string(b: &[u8]) -> (r: Option<String>)
    ensures
        r is Some <==> valid_utf8(b@),
        r matches Some(s) ==> s@ == decode_utf8(b@),
{
    match std::str::from_utf8(b) {
        Ok(s) => Some(s.to_string()),
        Err(_) => None,
    }
}

/// Whether the two byte slices are equal.
pub fn bytes_equal(a: &[u8], b: &[u8]) -> (r: bool)
    ensures
        r == (a@ == b@),
{
    if a.len() != b.len() {
        return false;
    }
    let mut i: usize = 0;
    while i < a.len()
        invariant
            a@.len() == b@.len(),
            i <= a@.len(),
            forall|j: int| 0 <= j < i ==> a@[j] == b@[j],
        decreases a.len() - i,
    {
        if a[i] != b[i] {
            return false;
        }
        i += 1;
    }
    assert(a@ =~= b@);
    true
}

/// `x` rounded up to a multiple of 4.
pub fn align_up4(x: usize) -> (r: usize)
    requires
        x + 3 <= usize::MAX,
    ensures
        r == align4(x as int),
{
    (x + 3) / 4 * 4
}

fn cells_from(name: &[u8], which: &Vec<u8>, val: &[u8], cur: usize) -> (r: Result<usize, DeviceTreeError>)
    ensures
        r == cells_after(name@, which@, val@, cur),
{
    if bytes_equal(name, which.as_slice()) {
        let v = val.read_be_u32(0)?;
        Ok(v as usize)
    } else {
        Ok(cur)
    }
}

/// The header of a device-tree blob: where the blob lies, its size, and
/// where its structure block and string table start.
pub struct DeviceTree {
    ptr: usize,
    totalsize: usize,
    off_struct: usize,
    off_strings: usize,
}

/// What the header at the start of `b` gives: the blob's size and the
/// offsets of its structure block and string table; refused when the magic
/// number or the version is wrong, or the header is cut short.
pub open spec fn header_spec(b: Seq<u8>) -> Result<(u32, u32, u32), DeviceTreeError> {
    match read_u32_spec(b, 0) {
        Err(e) => Err(e),
        Ok(m) => if m != MAGIC_NUMBER {
            Err(DeviceTreeError::BadMagicNumber)
        } else {
            match read_u32_spec(b, 20) {
                Err(e) => Err(e),
                Ok(v) => if v != SUPPORTED_VERSION {
                    Err(DeviceTreeError::VersionNotSupported)
                } else {
                    Ok((be_u32(b, 4) as u32, be_u32(b, 8) as u32, be_u32(b, 12) as u32))
                },
            }
        },
    }
}

impl DeviceTree {
    pub closed spec fn ptr_spec(&self) -> usize {
        self.ptr
    }

    pub closed spec fn totalsize_spec(&self) -> usize {
        self.totalsize
    }

    pub closed spec fn off_strings_spec(&self) -> usize {
        self.off_strings
    }

    pub closed spec fn off_struct_spec(&self) -> usize {
        self.off_struct
    }

    /// The offset of the structure block, where the root node starts.
    pub fn off_struct(&self) -> (r: usize)
        ensures
            r == self.off_struct_spec(),
    {
        self.off_struct
    }

    /// Reads the header of the blob at address `ptr`, whose bytes from the
    /// start are `header`.
    pub fn init(ptr: usize, header: &[u8]) -> (r: Result<Self, DeviceTreeError>)
        ensures
            match header_spec(header@) {
                Ok((size, st, strs)) => r is Ok && r->Ok_0.ptr_spec() == ptr
                    && r->Ok_0.totalsize_spec() == size && r->Ok_0.off_struct_spec() == st
                    && r->Ok_0.off_strings_spec() == strs,
                Err(e) => r is Err && r->Err_0 == e,
            },
    {
        if header.read_be_u32(0)? != MAGIC_NUMBER {
            return Err(DeviceTreeError::BadMagicNumber);
        }
        if header.read_be_u32(20)? != SUPPORTED_VERSION {
            return Err(DeviceTreeError::VersionNotSupported);
        }
        let totalsize = header.read_be_u32(4)? as usize;
        let off_struct = header.read_be_u32(8)? as usize;
        let off_strings = header.read_be_u32(12)? as usize;
        Ok(DeviceTree { ptr, totalsize, off_struct, off_strings })
    }

    /// The address of the blob.
    pub fn ptr(&self) -> (r: usize)
        ensures
            r == self.ptr_spec(),
    {
        self.ptr
    }

    /// The size of the blob in bytes.
    pub fn totalsize(&self) -> (r: usize)
        ensures
            r == self.totalsize_spec(),
    {
        self.totalsize
    }

    fn parse_props(&self, buf: &[u8], pos: usize, ac: usize, sc: usize) -> (r: Result<
        (Vec<DtProp>, usize, usize, usize),
        DeviceTreeError,
    >)
        requires
            buf@.len() + 4 <= usize::MAX,
        ensures
            match props_spec(buf@, self.off_strings as int, pos as int, ac, sc) {
                Ok(m) => r is Ok && r->Ok_0.0@.map_values(|p: DtProp| p@) == m.0
                    && r->Ok_0.1 == m.1 && r->Ok_0.2 == m.2 && r->Ok_0.3 == m.3
                    && pos <= m.3 && m.3 + 4 <= buf@.len(),
                Err(e) => r is Err && r->Err_0 == e,
            },
        decreases buf@.len() + 4 - pos,
    {
        let t = buf.read_be_u32(pos)?;
        if t != OF_DT_PROP {
            let v: Vec<DtProp> = Vec::new();
            assert(v@.map_values(|p: DtProp| p@) =~= Seq::<(Seq<char>, Seq<u8>)>::empty());
            return Ok((v, ac, sc, pos));
        }
        let val_size = buf.read_be_u32(pos + 4)? as usize;
        let name_offset = buf.read_be_u32(pos + 8)? as usize;
        let val_start = pos + 12;
        if val_size >= buf.len() - val_start {
            return Err(DeviceTreeError::SliceReadError);
        }
        let val_end = val_start + val_size;
        let val = buf.subslice(val_start, val_end)?;
        if name_offset > usize::MAX - self.off_strings {
            proof {
                assert(nul_at(buf@, self.off_strings + name_offset) is None);
            }
            return Err(DeviceTreeError::SliceReadError);
        }
        let raw_name = buf.read_bstring0(self.off_strings + name_offset)?;
        let name = match utf8_string(raw_name) {
            Some(s) => s,
            None => {
                return Err(DeviceTreeError::Utf8Error);
            },
        };
        let addr_key: Vec<u8> = vec![35u8, 97, 100, 100, 114, 101, 115, 115, 45, 99, 101, 108, 108, 115];
        let size_key: Vec<u8> = vec![35u8, 115, 105, 122, 101, 45, 99, 101, 108, 108, 115];
        assert(addr_key@ =~= address_cells_name());
        assert(size_key@ =~= size_cells_name());
        let ac2 = cells_from(raw_name, &addr_key, val, ac)?;
        let sc2 = cells_from(raw_name, &size_key, val, sc)?;
        let next = align_up4(val_end);
        let (rest, ac3, sc3, end) = self.parse_props(buf, next, ac2, sc2)?;
        let mut props: Vec<DtProp> = Vec::new();
        props.push(DtProp { name, value: slice_to_vec(val) });
        let ghost first = props@;
        let mut rest = rest;
        let ghost rest0 = rest@;
        props.append(&mut rest);
        proof {
            let f = |p: DtProp| p@;
            assert(props@.map_values(f) =~= first.map_values(f) + rest0.map_values(f));
        }
        Ok((props, ac3, sc3, end))
    }
}

proof fn lemma_nul_at(b: Seq<u8>, pos: int)
    ensures
        nul_at(b, pos) matches Some(e) ==> pos <= e < b.len() && 0 <= pos,
    decreases b.len() - pos,
{
    if 0 <= pos < b.len() && b[pos] != 0 {
        lemma_nul_at(b, pos + 1);
    }
}

impl DeviceTree {
    /// Parses the node that starts at `pos` of the blob `buf`, with the cell
    /// counts of its parent, and all its descendants. Returns them in
    /// pre-order with the offset just past the node's end token: exactly what
    /// `node_spec` gives.
    pub fn parse(&self, buf: &[u8], pos: usize, addr_cells: usize, size_cells: usize) -> (r:
        Result<(Vec<DtNode>, usize), DeviceTreeError>)
        requires
            buf@.len() + 4 <= usize::MAX,
        ensures
            match node_spec(buf@, self.off_strings_spec() as int, pos as int, addr_cells, size_cells) {
                Ok(m) => r is Ok && nodes_model(r->Ok_0.0@) == m.0 && r->Ok_0.1 == m.1 && pos < m.1
                    <= buf@.len(),
                Err(e) => r is Err && r->Err_0 == e,
            },
        decreases buf@.len() + 4 - pos, 1int,
    {
        let t = buf.read_be_u32(pos)?;
        if t != OF_DT_BEGIN_NODE {
            return Err(DeviceTreeError::ParseError(pos));
        }
        let name_at = pos + 4;
        proof {
            lemma_nul_at(buf@, name_at as int);
        }
        let raw_name = buf.read_bstring0(name_at)?;
        let e = name_at + raw_name.len();
        let props_at = align_up4(e + 1);
        let (props, ac, sc, kids_at) = self.parse_props(buf, props_at, addr_cells, size_cells)?;
        let name = match utf8_string(raw_name) {
            Some(s) => s,
            None => {
                return Err(DeviceTreeError::Utf8Error);
            },
        };
        let (kids, end_at) = self.parse_children(buf, kids_at, ac, sc)?;
        let t2 = buf.read_be_u32(end_at)?;
        if t2 != OF_DT_END_NODE {
            return Err(DeviceTreeError::ParseError(end_at));
        }
        let mut nodes: Vec<DtNode> = Vec::new();
        nodes.push(DtNode { name, addr_cells: ac, size_cells: sc, props });
        let ghost first = nodes@;
        let mut kids = kids;
        let ghost kids0 = kids@;
        nodes.append(&mut kids);
        proof {
            assert(nodes_model(nodes@) =~= nodes_model(first) + nodes_model(kids0));
        }
        Ok((nodes, end_at + 4))
    }

    /// Parses the run of sibling nodes at `pos`, each with the cell counts
    /// `ac` and `sc`: exactly what `children_spec` gives.
    fn parse_children(&self, buf: &[u8], pos: usize, ac: usize, sc: usize) -> (r: Result<
        (Vec<DtNode>, usize),
        DeviceTreeError,
    >)
        requires
            buf@.len() + 4 <= usize::MAX,
        ensures
            match children_spec(buf@, self.off_strings_spec() as int, pos as int, ac, sc) {
                Ok(m) => r is Ok && nodes_model(r->Ok_0.0@) == m.0 && r->Ok_0.1 == m.1 && pos <= m.1
                    && m.1 + 4 <= buf@.len(),
                Err(e) => r is Err && r->Err_0 == e,
            },
        decreases buf@.len() + 4 - pos, 2int,
    {
        let t = buf.read_be_u32(pos)?;
        if t != OF_DT_BEGIN_NODE {
            let v: Vec<DtNode> = Vec::new();
            assert(nodes_model(v@) =~= Seq::<NodeModel>::empty());
            return Ok((v, pos));
        }
        let (nodes, e) = self.parse(buf, pos, ac, sc)?;
        let (more, f) = self.parse_children(buf, e, ac, sc)?;
        let mut nodes = nodes;
        let ghost first = nodes@;
        let mut more = more;
        let ghost more0 = more@;
        nodes.append(&mut more);
        proof {
            assert(nodes_model(nodes@) =~= nodes_model(first) + nodes_model(more0));
        }
        Ok((nodes, f))
    }
}

/// Reads the blob at address `dtb_va`, whose bytes are `buf`, and returns all
/// its nodes in pre-order, starting with the root and cell counts of 0.
pub fn parse(dtb_va: usize, buf: &[u8]) -> (r: Result<Vec<DtNode>, DeviceTreeError>)
    requires
        buf@.len() + 4 <= usize::MAX,
    ensures
        match header_spec(buf@) {
            Err(e) => r == Err::<Vec<DtNode>, DeviceTreeError>(e),
            Ok((_, st, strs)) => match node_spec(buf@, strs as int, st as int, 0, 0) {
                Ok(m) => r is Ok && nodes_model(r->Ok_0@) == m.0,
                Err(e) => r is Err && r->Err_0 == e,
            },
        },
{
    let dt = DeviceTree::init(dtb_va, buf)?;
    let (nodes, _) = dt.parse(buf, dt.off_struct(), 0, 0)?;
    Ok(nodes)
}

} // verus!
