//! GX display-list geometry: indexed vertices grouped in draw primitives, decoded from the
//! vertex buffers of a mesh and turned into a triangle list.
use vstd::prelude::*;

verus! {

/// Whether bit `n` of the vertex descriptor `vcd` is set.
pub open spec fn descriptor_bit(vcd: i32, n: u32) -> bool {
    (vcd >> n) & 1 == 1
}

/// The kind of a GX draw primitive, as numbered in the primitive header of a vertex buffer.
#[derive(Debug, Clone, Copy, PartialEq, Eq, Structural)]
pub enum PrimitiveType {
    Quads,
    Quads2,
    Triangles,
    TriangleStrip,
    TriangleFan,
    Lines,
    LineStrip,
    Points,
}

/// The primitive kind numbered `v` (`v < 8`).
pub open spec fn primitive_type_of(v: int) -> PrimitiveType {
    if v == 0 {
        PrimitiveType::Quads
    } else if v == 1 {
        PrimitiveType::Quads2
    } else if v == 2 {
        PrimitiveType::Triangles
    } else if v == 3 {
        PrimitiveType::TriangleStrip
    } else if v == 4 {
        PrimitiveType::TriangleFan
    } else if v == 5 {
        PrimitiveType::Lines
    } else if v == 6 {
        PrimitiveType::LineStrip
    } else {
        PrimitiveType::Points
    }
}

impl PrimitiveType {
    /// The GX command byte that draws this primitive kind.
    pub open spec fn spec_hex(self) -> u8 {
        match self {
            PrimitiveType::Quads => 0x80,
            PrimitiveType::Quads2 => 0x88,
            PrimitiveType::Triangles => 0x90,
            PrimitiveType::TriangleStrip => 0x98,
            PrimitiveType::TriangleFan => 0xA0,
            PrimitiveType::Lines => 0xA8,
            PrimitiveType::LineStrip => 0xB0,
            PrimitiveType::Points => 0xB8,
        }
    }

    /// The primitive kind numbered `value`.
    pub fn from_u8(value: u8) -> (t: Self)
        requires
            value < 8,
        ensures
            t == primitive_type_of(value as int),
    {
        match value {
            0 => PrimitiveType::Quads,
            1 => PrimitiveType::Quads2,
            2 => PrimitiveType::Triangles,
            3 => PrimitiveType::TriangleStrip,
            4 => PrimitiveType::TriangleFan,
            5 => PrimitiveType::Lines,
            6 => PrimitiveType::LineStrip,
            _ => PrimitiveType::Points,
        }
    }

    /// The GX command byte that draws this primitive kind.
    pub fn to_hex(&self) -> (h: u8)
        ensures
            h == self.spec_hex(),
    {
        match self {
            PrimitiveType::Quads => 0x80,
            PrimitiveType::Quads2 => 0x88,
            PrimitiveType::Triangles => 0x90,
            PrimitiveType::TriangleStrip => 0x98,
            PrimitiveType::TriangleFan => 0xA0,
            PrimitiveType::Lines => 0xA8,
            PrimitiveType::LineStrip => 0xB0,
            PrimitiveType::Points => 0xB8,
        }
    }
}

/// The command byte of primitive kind `v` is `0x80 + 8 * v`, so distinct kinds have distinct bytes.
pub proof fn lemma_hex_of_kind(v: int)
    requires
        0 <= v < 8,
    ensures
        primitive_type_of(v).spec_hex() == 0x80 + 8 * v,
{
}

/// A vertex attribute of the GX vertex descriptor; each owns one slot of an indexed vertex and
/// one bit of the descriptor bitfield.
#[derive(Debug, Clone, Copy, PartialEq, Eq, Structural)]
pub enum GXAttr {
    PNMTXIDX,
    TEX0MTXIDX,
    TEX1MTXIDX,
    TEX2MTXIDX,
    TEX3MTXIDX,
    TEX4MTXIDX,
    TEX5MTXIDX,
    TEX6MTXIDX,
    TEX7MTXIDX,
    POS,
    NRM,
    CLR0,
    CLR1,
    TEX0,
    TEX1,
    TEX2,
    TEX3,
    TEX4,
    TEX5,
    TEX6,
    TEX7,
}

impl GXAttr {
    /// The slot of this attribute.
    pub open spec fn spec_index(self) -> u32 {
        match self {
            GXAttr::PNMTXIDX => 0,
            GXAttr::TEX0MTXIDX => 1,
            GXAttr::TEX1MTXIDX => 2,
            GXAttr::TEX2MTXIDX => 3,
            GXAttr::TEX3MTXIDX => 4,
            GXAttr::TEX4MTXIDX => 5,
            GXAttr::TEX5MTXIDX => 6,
            GXAttr::TEX6MTXIDX => 7,
            GXAttr::TEX7MTXIDX => 8,
            GXAttr::POS => 9,
            GXAttr::NRM => 10,
            GXAttr::CLR0 => 11,
            GXAttr::CLR1 => 12,
            GXAttr::TEX0 => 13,
            GXAttr::TEX1 => 14,
            GXAttr::TEX2 => 15,
            GXAttr::TEX3 => 16,
            GXAttr::TEX4 => 17,
            GXAttr::TEX5 => 18,
            GXAttr::TEX6 => 19,
            GXAttr::TEX7 => 20,
        }
    }

    /// The slot of this attribute, which is also its bit in the vertex descriptor.
    pub fn index(&self) -> (i: u32)
        ensures
            i == self.spec_index(),
            i < 21,
    {
        match self {
            GXAttr::PNMTXIDX => 0,
            GXAttr::TEX0MTXIDX => 1,
            GXAttr::TEX1MTXIDX => 2,
            GXAttr::TEX2MTXIDX => 3,
            GXAttr::TEX3MTXIDX => 4,
            GXAttr::TEX4MTXIDX => 5,
            GXAttr::TEX5MTXIDX => 6,
            GXAttr::TEX6MTXIDX => 7,
            GXAttr::TEX7MTXIDX => 8,
            GXAttr::POS => 9,
            GXAttr::NRM => 10,
            GXAttr::CLR0 => 11,
            GXAttr::CLR1 => 12,
            GXAttr::TEX0 => 13,
            GXAttr::TEX1 => 14,
            GXAttr::TEX2 => 15,
            GXAttr::TEX3 => 16,
            GXAttr::TEX4 => 17,
            GXAttr::TEX5 => 18,
            GXAttr::TEX6 => 19,
            GXAttr::TEX7 => 20,
        }
    }

    /// Whether the vertex descriptor `vcd` has the bit of `attr` set.
    pub fn has_attribute(vcd: i32, attr: &Self) -> (b: bool)
        ensures
            b == descriptor_bit(vcd, attr.spec_index()),
    {
        let n = attr.index();
        let mask: i32 = 1i32 << n;
        let b = (vcd & mask) != 0;
        assert(n < 21 ==> (((vcd & (1i32 << n)) != 0) == (((vcd >> n) & 1) == 1))) by (bit_vector);
        b
    }
}

/// One vertex of a primitive: an index into an attribute table for each of the 26 slots.
#[derive(Debug, Clone, Copy)]
pub struct IndexedVertex {
    pub indices: [u16; 26],
}

impl View for IndexedVertex {
    type V = Seq<u16>;

    open spec fn view(&self) -> Seq<u16> {
        self.indices@
    }
}

/// One draw primitive: its kind and its vertices in drawing order.
pub struct Primitive {
    pub prim_type: PrimitiveType,
    pub vertices: Vec<IndexedVertex>,
}

impl View for Primitive {
    type V = (PrimitiveType, Seq<Seq<u16>>);

    open spec fn view(&self) -> (PrimitiveType, Seq<Seq<u16>>) {
        (self.prim_type, self.vertices@.map_values(|v: IndexedVertex| v@))
    }
}


/// The little-endian 16-bit value at `off` in `s`.
pub open spec fn le_u16(s: Seq<u8>, off: int) -> int {
    s[off] + s[off + 1] * 256
}

/// The big-endian 24-bit value at `off` in `s`.
pub open spec fn be_u24(s: Seq<u8>, off: int) -> int {
    s[off] * 65536 + s[off + 1] * 256 + s[off + 2]
}

/// The 26 slot indices of the vertex stored (little-endian) at `off` in `s`.
pub open spec fn vertex_at(s: Seq<u8>, off: int) -> Seq<u16> {
    Seq::new(26, |p: int| le_u16(s, off + 2 * p) as u16)
}

/// The `n` consecutive 52-byte vertices stored at `off` in `s`.
pub open spec fn vertices_at(s: Seq<u8>, off: int, n: nat) -> Seq<Seq<u16>> {
    Seq::new(n, |j: int| vertex_at(s, off + 52 * j))
}

/// The primitives stored in `s` from `cursor` on. Each starts with a 4-byte header (a kind
/// byte, then a big-endian 24-bit vertex count) followed by its vertices. Decoding stops at the
/// end of the buffer, at a header with no vertex, or at one whose vertices do not fit; it fails
/// with the kind byte of the first header it reaches whose kind is unknown.
pub open spec fn decode_from(s: Seq<u8>, cursor: int) -> Result<Seq<(PrimitiveType, Seq<Seq<u16>>)>, u8>
    decreases s.len() - cursor,
{
    if cursor < 0 || cursor + 4 > s.len() {
        Ok(Seq::empty())
    } else {
        let n = be_u24(s, cursor + 1);
        let body = cursor + 4;
        if n <= 0 || body + 52 * n > s.len() {
            Ok(Seq::empty())
        } else if s[cursor] >= 8 {
            Err(s[cursor])
        } else {
            match decode_from(s, body + 52 * n) {
                Ok(rest) => Ok(
                    seq![(primitive_type_of(s[cursor] as int), vertices_at(s, body, n as nat))] + rest,
                ),
                Err(k) => Err(k),
            }
        }
    }
}

/// The primitives of a whole vertex buffer.
pub open spec fn decode_buffer_spec(s: Seq<u8>) -> Result<Seq<(PrimitiveType, Seq<Seq<u16>>)>, u8> {
    decode_from(s, 0)
}

/// The vertex data of one group of primitives that share skinning matrices.
pub struct MatrixPrimitiveData {
    pub vertex_data_buffer: Vec<u8>,
}

/// The vertex data of a mesh, one buffer per matrix primitive.
pub struct MeshData {
    pub mprims: Vec<MatrixPrimitiveData>,
}

/// The vertex buffers of `m`, in order.
pub open spec fn mesh_buffers(m: MeshData) -> Seq<Seq<u8>> {
    m.mprims@.map_values(|p: MatrixPrimitiveData| p.vertex_data_buffer@)
}

/// The primitives of all buffers `bufs`, buffer after buffer; the first failure of a buffer
/// is the failure of all.
pub open spec fn decode_buffers(bufs: Seq<Seq<u8>>) -> Result<Seq<(PrimitiveType, Seq<Seq<u16>>)>, u8>
    decreases bufs.len(),
{
    if bufs.len() == 0 {
        Ok(Seq::empty())
    } else {
        match decode_buffers(bufs.drop_last()) {
            Err(k) => Err(k),
            Ok(a) => match decode_buffer_spec(bufs.last()) {
                Ok(b) => Ok(a + b),
                Err(k) => Err(k),
            },
        }
    }
}

/// The views of the primitives of `v`.
pub open spec fn primitive_views(v: Seq<Primitive>) -> Seq<(PrimitiveType, Seq<Seq<u16>>)> {
    v.map_values(|p: Primitive| p@)
}

/// Reads the vertex stored at `off`.
fn read_vertex(buf: &Vec<u8>, off: usize) -> (v: IndexedVertex)
    requires
        off + 52 <= buf@.len(),
    ensures
        v@ == vertex_at(buf@, off as int),
{
    let len = buf.len();
    let mut indices = [0u16; 26];
    let mut i: usize = 0;
    while i < 26
        invariant
            off + 52 <= buf@.len(),
            len == buf@.len(),
            i <= 26,
            forall|p: int| 0 <= p < i ==> indices@[p] == le_u16(buf@, off + 2 * p) as u16,
        decreases 26 - i,
    {
        let c = off + 2 * i;
        indices[i] = buf[c] as u16 + (buf[c + 1] as u16) * 256;
        i = i + 1;
    }
    let v = IndexedVertex { indices };
    assert(v@ =~= vertex_at(buf@, off as int));
    v
}

/// The kind byte and the vertex count of the header at `cursor`.
fn read_header(buf: &Vec<u8>, cursor: usize) -> (r: (u8, usize))
    requires
        cursor + 4 <= buf@.len(),
    ensures
        r.0 == buf@[cursor as int],
        r.1 == be_u24(buf@, cursor + 1),
{
    let len = buf.len();
    let b1 = buf[cursor + 1] as u32;
    let b2 = buf[cursor + 2] as u32;
    let b3 = buf[cursor + 3] as u32;
    let n = b1 * 65536 + b2 * 256 + b3;
    (buf[cursor], n as usize)
}

/// Whether the vertices of a primitive with `n` vertices whose body starts at `body` lie
/// inside `len` bytes; the test cannot overflow.
fn body_fits(len: usize, body: usize, n: usize) -> (b: bool)
    requires
        body <= len,
        n < 16777216,
    ensures
        b == (body + 52 * n <= len),
{
    n * 52 <= len - body
}

/// Decodes the primitives of one vertex buffer and appends them to `prims`.
fn decode_buffer(buf: &Vec<u8>, prims: &mut Vec<Primitive>)
    requires
        decode_buffer_spec(buf@) is Ok,
    ensures
        primitive_views(final(prims)@) == primitive_views(old(prims)@) + decode_buffer_spec(
            buf@,
        ).unwrap(),
{
    let ghost s = buf@;
    let ghost start = primitive_views(prims@);
    let len = buf.len();
    let mut cursor: usize = 0;
    let mut more = true;
    while more && buf.len() >= 4 && cursor <= buf.len() - 4
        invariant
            s == buf@,
            len == s.len(),
            cursor <= s.len(),
            decode_from(s, cursor as int) is Ok,
            decode_from(s, 0) is Ok,
            more ==> start + decode_from(s, 0).unwrap() == primitive_views(prims@) + decode_from(
                s,
                cursor as int,
            ).unwrap(),
            !more ==> start + decode_from(s, 0).unwrap() == primitive_views(prims@),
        decreases s.len() - cursor + if more { 1int } else { 0int },
    {
        let (kind, n) = read_header(buf, cursor);
        let body = cursor + 4;
        if n == 0 || !body_fits(buf.len(), body, n) {
            more = false;
            assert(start + decode_from(s, 0).unwrap() =~= primitive_views(prims@));
        } else {
            let ghost rest = decode_from(s, body + 52 * n).unwrap();
            let mut vertices: Vec<IndexedVertex> = Vec::new();
            let mut j: usize = 0;
            while j < n
                invariant
                    s == buf@,
                    len == s.len(),
                    body + 52 * n <= s.len(),
                    j <= n,
                    vertices@.map_values(|v: IndexedVertex| v@) == vertices_at(s, body as int, j as nat),
                decreases n - j,
            {
                assert(body + 52 * j + 52 <= body + 52 * n) by (nonlinear_arith)
                    requires
                        j < n,
                ;
                let v = read_vertex(buf, body + 52 * j);
                let ghost prev = vertices@;
                vertices.push(v);
                proof {
                    prev.lemma_push_map_commute(|v: IndexedVertex| v@, v);
                }
                j = j + 1;
                assert(vertices@.map_values(|v: IndexedVertex| v@) =~= vertices_at(
                    s,
                    body as int,
                    j as nat,
                ));
            }
            let prim = Primitive { prim_type: PrimitiveType::from_u8(kind), vertices };
            let ghost before = primitive_views(prims@);
            prims.push(prim);
            assert(primitive_views(prims@) =~= before.push(prim@));
            cursor = body + 52 * n;
            assert(seq![prim@] + rest =~= decode_from(s, (cursor - 52 * n - 4) as int).unwrap());
            assert(start + decode_from(s, 0).unwrap() =~= primitive_views(prims@) + decode_from(
                s,
                cursor as int,
            ).unwrap());
        }
    }
    if more {
        assert(decode_from(s, cursor as int) == Ok::<Seq<(PrimitiveType, Seq<Seq<u16>>)>, u8>(Seq::empty()));
        assert(start + decode_from(s, 0).unwrap() =~= primitive_views(prims@));
    }
}

/// The failure of a decoding, if any: the unknown kind byte it stopped at.
pub open spec fn failure_of(r: Result<Seq<(PrimitiveType, Seq<Seq<u16>>)>, u8>) -> Option<u8> {
    match r {
        Ok(_) => None,
        Err(k) => Some(k),
    }
}

/// The unknown kind byte of the first primitive header that decoding one vertex buffer
/// reaches, if any.
fn buffer_unknown_kind(buf: &Vec<u8>) -> (r: Option<u8>)
    ensures
        r == failure_of(decode_buffer_spec(buf@)),
{
    let ghost s = buf@;
    let mut cursor: usize = 0;
    while buf.len() >= 4 && cursor <= buf.len() - 4
        invariant
            s == buf@,
            cursor <= s.len(),
            failure_of(decode_from(s, 0)) == failure_of(decode_from(s, cursor as int)),
        decreases s.len() - cursor,
    {
        let (kind, n) = read_header(buf, cursor);
        let body = cursor + 4;
        if n == 0 || !body_fits(buf.len(), body, n) {
            return None;
        }
        if kind >= 8 {
            return Some(kind);
        }
        cursor = body + 52 * n;
    }
    None
}

/// The unknown kind byte of the first primitive header that decoding `mesh` reaches, if any;
/// `decode_matrix_primitive` may be called on `mesh` exactly when there is none.
pub fn first_unknown_kind(mesh: &MeshData) -> (r: Option<u8>)
    ensures
        r == failure_of(decode_buffers(mesh_buffers(*mesh))),
{
    let ghost bufs = mesh_buffers(*mesh);
    let mut k: usize = 0;
    while k < mesh.mprims.len()
        invariant
            bufs == mesh_buffers(*mesh),
            k <= bufs.len(),
            decode_buffers(bufs.take(k as int)) is Ok,
        decreases bufs.len() - k,
    {
        assert(bufs.take(k + 1).drop_last() =~= bufs.take(k as int));
        let found = buffer_unknown_kind(&mesh.mprims[k].vertex_data_buffer);
        if found.is_some() {
            proof {
                lemma_decode_prefix_failure(bufs, k as int + 1);
            }
            return found;
        }
        k = k + 1;
    }
    assert(bufs.take(k as int) =~= bufs);
    None
}

/// Once a prefix of the buffers fails, all buffers fail the same way.
proof fn lemma_decode_prefix_failure(bufs: Seq<Seq<u8>>, k: int)
    requires
        0 <= k <= bufs.len(),
        decode_buffers(bufs.take(k)) is Err,
    ensures
        decode_buffers(bufs) == decode_buffers(bufs.take(k)),
    decreases bufs.len() - k,
{
    if k < bufs.len() {
        assert(bufs.take(k + 1).drop_last() =~= bufs.take(k));
        lemma_decode_prefix_failure(bufs, k + 1);
    } else {
        assert(bufs.take(k) =~= bufs);
    }
}

/// Decodes the primitives of all vertex buffers of `mesh`, buffer after buffer.
pub fn decode_matrix_primitive(mesh: &MeshData) -> (prims: Vec<Primitive>)
    requires
        decode_buffers(mesh_buffers(*mesh)) is Ok,
    ensures
        primitive_views(prims@) == decode_buffers(mesh_buffers(*mesh)).unwrap(),
{
    let ghost bufs = mesh_buffers(*mesh);
    let mut prims: Vec<Primitive> = Vec::new();
    let mut k: usize = 0;
    while k < mesh.mprims.len()
        invariant
            bufs == mesh_buffers(*mesh),
            k <= bufs.len(),
            decode_buffers(bufs) is Ok,
            decode_buffers(bufs.take(k as int)) is Ok,
            primitive_views(prims@) == decode_buffers(bufs.take(k as int)).unwrap(),
        decreases bufs.len() - k,
    {
        assert(bufs.take(k + 1).drop_last() =~= bufs.take(k as int));
        proof {
            if decode_buffer_spec(bufs[k as int]) is Err {
                lemma_decode_prefix_failure(bufs, k + 1);
            }
        }
        decode_buffer(&mesh.mprims[k].vertex_data_buffer, &mut prims);
        k = k + 1;
    }
    assert(bufs.take(k as int) =~= bufs);
    prims
}


/// Corner `r` (`r < 6`) of the two triangles that split a quad with corners 0, 1, 2, 3.
pub open spec fn quad_corner(r: int) -> int {
    if r == 0 {
        0
    } else if r == 1 {
        1
    } else if r == 2 {
        2
    } else if r == 3 {
        0
    } else if r == 4 {
        2
    } else {
        3
    }
}

/// The triangle list of a quad primitive of `n` vertices whose first vertex is numbered `o`:
/// each run of four vertices, starting at every multiple of four below `n`, gives two triangles.
pub open spec fn quad_indices(n: int, o: int) -> Seq<int> {
    Seq::new((((n + 3) / 4) * 6) as nat, |k: int| o + 4 * (k / 6) + quad_corner(k % 6))
}

/// The triangle list of a triangle primitive: its vertices in order.
pub open spec fn list_indices(n: int, o: int) -> Seq<int> {
    Seq::new(n as nat, |k: int| o + k)
}

/// How many triangles a strip or fan of `n` vertices has.
pub open spec fn strip_triangles(n: int) -> int {
    if n >= 2 {
        n - 2
    } else {
        0
    }
}

/// Corner `r` of the triangle that ends at vertex `i` of a strip; every other triangle is
/// flipped so that all keep the same winding.
pub open spec fn strip_corner(i: int, r: int) -> int {
    if r == 0 {
        i - 2
    } else if r == 1 {
        if i % 2 == 0 {
            i - 1
        } else {
            i
        }
    } else {
        if i % 2 == 0 {
            i
        } else {
            i - 1
        }
    }
}

/// The triangle list of a triangle strip of `n` vertices numbered from `o`.
pub open spec fn strip_indices(n: int, o: int) -> Seq<int> {
    Seq::new((3 * strip_triangles(n)) as nat, |k: int| o + strip_corner(k / 3 + 2, k % 3))
}

/// Corner `r` of the triangle that ends at vertex `i` of a fan: the hub, then two neighbours.
pub open spec fn fan_corner(i: int, r: int) -> int {
    if r == 0 {
        0
    } else if r == 1 {
        i - 1
    } else {
        i
    }
}

/// The triangle list of a triangle fan of `n` vertices numbered from `o`.
pub open spec fn fan_indices(n: int, o: int) -> Seq<int> {
    Seq::new((3 * strip_triangles(n)) as nat, |k: int| o + fan_corner(k / 3 + 2, k % 3))
}

/// The triangle list of a primitive of kind `t` with `n` vertices numbered from `o`; lines
/// and points give no triangle.
pub open spec fn primitive_indices(t: PrimitiveType, n: int, o: int) -> Seq<int> {
    match t {
        PrimitiveType::Quads | PrimitiveType::Quads2 => quad_indices(n, o),
        PrimitiveType::Triangles => list_indices(n, o),
        PrimitiveType::TriangleStrip => strip_indices(n, o),
        PrimitiveType::TriangleFan => fan_indices(n, o),
        _ => Seq::empty(),
    }
}

/// How many vertices the primitives `ps` hold together.
pub open spec fn vertex_total(ps: Seq<(PrimitiveType, Seq<Seq<u16>>)>) -> nat
    decreases ps.len(),
{
    if ps.len() == 0 {
        0
    } else {
        vertex_total(ps.drop_last()) + ps.last().1.len()
    }
}

/// The vertices of all primitives `ps`, primitive after primitive.
pub open spec fn all_vertices(ps: Seq<(PrimitiveType, Seq<Seq<u16>>)>) -> Seq<Seq<u16>>
    decreases ps.len(),
{
    if ps.len() == 0 {
        Seq::empty()
    } else {
        all_vertices(ps.drop_last()) + ps.last().1
    }
}

/// The triangle list of all primitives `ps`, each numbering its vertices after those of the
/// primitives before it.
pub open spec fn topology_indices(ps: Seq<(PrimitiveType, Seq<Seq<u16>>)>) -> Seq<int>
    decreases ps.len(),
{
    if ps.len() == 0 {
        Seq::empty()
    } else {
        topology_indices(ps.drop_last()) + primitive_indices(
            ps.last().0,
            ps.last().1.len() as int,
            vertex_total(ps.drop_last()) as int,
        )
    }
}

/// The values of `v` as integers.
pub open spec fn index_values(v: Seq<u32>) -> Seq<int> {
    v.map_values(|x: u32| x as int)
}

/// Dividing `m * q + r` by `m` gives back `q` and `r`.
proof fn lemma_div_mod_exact(q: int, r: int, m: int)
    by (nonlinear_arith)
    requires
        0 <= q,
        0 <= r < m,
    ensures
        (m * q + r) / m == q,
        (m * q + r) % m == r,
{
}

/// Appending to a sequence appends its value.
proof fn lemma_index_values_push(v: Seq<u32>, x: u32)
    ensures
        index_values(v.push(x)) == index_values(v).push(x as int),
{
    assert(index_values(v.push(x)) =~= index_values(v).push(x as int));
}

/// Appends the triangle list of a quad primitive.
fn push_quads(indices: &mut Vec<u32>, n: usize, offset: u32)
    requires
        n == 0 || offset + primitive_reach(PrimitiveType::Quads, n as int) <= u32::MAX + 1,
    ensures
        index_values(final(indices)@) == index_values(old(indices)@) + quad_indices(n as int, offset as int),
{
    let ghost start = index_values(indices@);
    let count = n / 4 + if n % 4 != 0 { 1 } else { 0 };
    assert(count == (n + 3) / 4);
    let mut q: usize = 0;
    while q < count
        invariant
            count == 0 || offset + 4 * count <= u32::MAX + 1,
            count == (n + 3) / 4,
            q <= count,
            index_values(indices@) == start + Seq::new(
                (q * 6) as nat,
                |k: int| offset + 4 * (k / 6) + quad_corner(k % 6),
            ),
        decreases count - q,
    {
        assert(4 * q + 4 <= 4 * count) by (nonlinear_arith)
            requires
                q < count,
        ;
        let i = 4 * q;
        let v0 = offset + i as u32;
        let v1 = offset + i as u32 + 1;
        let v2 = offset + i as u32 + 2;
        let v3 = offset + i as u32 + 3;
        let ghost prev = indices@;
        indices.push(v0);
        indices.push(v1);
        indices.push(v2);
        indices.push(v0);
        indices.push(v2);
        indices.push(v3);
        proof {
            lemma_index_values_push(prev, v0);
            lemma_index_values_push(prev.push(v0), v1);
            lemma_index_values_push(prev.push(v0).push(v1), v2);
            lemma_index_values_push(prev.push(v0).push(v1).push(v2), v0);
            lemma_index_values_push(prev.push(v0).push(v1).push(v2).push(v0), v2);
            lemma_index_values_push(prev.push(v0).push(v1).push(v2).push(v0).push(v2), v3);
            lemma_div_mod_exact(q as int, 0, 6);
            lemma_div_mod_exact(q as int, 1, 6);
            lemma_div_mod_exact(q as int, 2, 6);
            lemma_div_mod_exact(q as int, 3, 6);
            lemma_div_mod_exact(q as int, 4, 6);
            lemma_div_mod_exact(q as int, 5, 6);
        }
        q = q + 1;
        assert(index_values(indices@) =~= start + Seq::new(
            (q * 6) as nat,
            |k: int| offset + 4 * (k / 6) + quad_corner(k % 6),
        ));
    }
}

/// Appends the triangle list of a triangle primitive.
fn push_triangles(indices: &mut Vec<u32>, n: usize, offset: u32)
    requires
        n == 0 || offset + n <= u32::MAX + 1,
    ensures
        index_values(final(indices)@) == index_values(old(indices)@) + list_indices(n as int, offset as int),
{
    let ghost start = index_values(indices@);
    let mut i: usize = 0;
    while i < n
        invariant
            n == 0 || offset + n <= u32::MAX + 1,
            i <= n,
            index_values(indices@) == start + list_indices(i as int, offset as int),
        decreases n - i,
    {
        let ghost prev = indices@;
        let v = offset + i as u32;
        indices.push(v);
        proof {
            lemma_index_values_push(prev, v);
        }
        i = i + 1;
        assert(index_values(indices@) =~= start + list_indices(i as int, offset as int));
    }
}

/// Appends the triangle list of a triangle strip.
fn push_strip(indices: &mut Vec<u32>, n: usize, offset: u32)
    requires
        n < 3 || offset + n <= u32::MAX + 1,
    ensures
        index_values(final(indices)@) == index_values(old(indices)@) + strip_indices(n as int, offset as int),
{
    let ghost start = index_values(indices@);
    let mut i: usize = 2;
    while i < n
        invariant
            n < 3 || offset + n <= u32::MAX + 1,
            2 <= i,
            i <= n || i == 2,
            index_values(indices@) == start + Seq::new(
                (3 * (i - 2)) as nat,
                |k: int| offset + strip_corner(k / 3 + 2, k % 3),
            ),
        decreases n - i,
    {
        let parity = (i % 2) as u32;
        let v0 = offset + i as u32 - 2;
        let v1 = offset + i as u32 - (1 - parity);
        let v2 = offset + i as u32 - parity;
        let ghost prev = indices@;
        indices.push(v0);
        indices.push(v1);
        indices.push(v2);
        proof {
            lemma_index_values_push(prev, v0);
            lemma_index_values_push(prev.push(v0), v1);
            lemma_index_values_push(prev.push(v0).push(v1), v2);
        }
        let ghost j: int = (i - 2) as int;
        i = i + 1;
        assert(index_values(indices@) =~= start + Seq::new(
            (3 * (i - 2)) as nat,
            |k: int| offset + strip_corner(k / 3 + 2, k % 3),
        )) by {
            lemma_div_mod_exact(j, 0, 3);
            lemma_div_mod_exact(j, 1, 3);
            lemma_div_mod_exact(j, 2, 3);
        }
    }
    assert(i - 2 == strip_triangles(n as int));
    assert(Seq::new(
        (3 * (i - 2)) as nat,
        |k: int| offset + strip_corner(k / 3 + 2, k % 3),
    ) =~= strip_indices(n as int, offset as int));
}

/// Appends the triangle list of a triangle fan.
fn push_fan(indices: &mut Vec<u32>, n: usize, offset: u32)
    requires
        n < 3 || offset + n <= u32::MAX + 1,
    ensures
        index_values(final(indices)@) == index_values(old(indices)@) + fan_indices(n as int, offset as int),
{
    let ghost start = index_values(indices@);
    let mut i: usize = 2;
    while i < n
        invariant
            n < 3 || offset + n <= u32::MAX + 1,
            2 <= i,
            i <= n || i == 2,
            index_values(indices@) == start + Seq::new(
                (3 * (i - 2)) as nat,
                |k: int| offset + fan_corner(k / 3 + 2, k % 3),
            ),
        decreases n - i,
    {
        let v0 = offset;
        let v1 = offset + i as u32 - 1;
        let v2 = offset + i as u32;
        let ghost prev = indices@;
        indices.push(v0);
        indices.push(v1);
        indices.push(v2);
        proof {
            lemma_index_values_push(prev, v0);
            lemma_index_values_push(prev.push(v0), v1);
            lemma_index_values_push(prev.push(v0).push(v1), v2);
        }
        let ghost j: int = (i - 2) as int;
        i = i + 1;
        assert(index_values(indices@) =~= start + Seq::new(
            (3 * (i - 2)) as nat,
            |k: int| offset + fan_corner(k / 3 + 2, k % 3),
        )) by {
            lemma_div_mod_exact(j, 0, 3);
            lemma_div_mod_exact(j, 1, 3);
            lemma_div_mod_exact(j, 2, 3);
        }
    }
    assert(i - 2 == strip_triangles(n as int));
    assert(Seq::new(
        (3 * (i - 2)) as nat,
        |k: int| offset + fan_corner(k / 3 + 2, k % 3),
    ) =~= fan_indices(n as int, offset as int));
}


/// The vertex list is as long as the total of the primitives' vertex counts.
pub proof fn lemma_vertex_count(ps: Seq<(PrimitiveType, Seq<Seq<u16>>)>)
    ensures
        all_vertices(ps).len() == vertex_total(ps),
    decreases ps.len(),
{
    if ps.len() > 0 {
        lemma_vertex_count(ps.drop_last());
    }
}

/// The first `k + 1` primitives hold no more vertices than all of them.
proof fn lemma_vertex_total_prefix(ps: Seq<(PrimitiveType, Seq<Seq<u16>>)>, k: int)
    requires
        0 <= k < ps.len(),
    ensures
        vertex_total(ps.take(k + 1)) == vertex_total(ps.take(k)) + ps[k].1.len(),
        vertex_total(ps.take(k + 1)) <= vertex_total(ps),
    decreases ps.len() - k,
{
    assert(ps.take(k + 1).drop_last() =~= ps.take(k));
    if k + 1 < ps.len() {
        lemma_vertex_total_prefix(ps, k + 1);
    } else {
        assert(ps.take(k + 1) =~= ps);
    }
}

/// Appends the triangle list of a primitive of kind `t` with `n` vertices numbered from `offset`.
fn push_primitive_indices(indices: &mut Vec<u32>, t: PrimitiveType, n: usize, offset: u32)
    requires
        primitive_reach(t, n as int) == 0 || offset + primitive_reach(t, n as int) <= u32::MAX + 1,
    ensures
        index_values(final(indices)@) == index_values(old(indices)@) + primitive_indices(
            t,
            n as int,
            offset as int,
        ),
{
    match t {
        PrimitiveType::Quads | PrimitiveType::Quads2 => push_quads(indices, n, offset),
        PrimitiveType::Triangles => push_triangles(indices, n, offset),
        PrimitiveType::TriangleStrip => push_strip(indices, n, offset),
        PrimitiveType::TriangleFan => push_fan(indices, n, offset),
        _ => {
            assert(index_values(indices@) =~= index_values(indices@) + primitive_indices(
                t,
                n as int,
                offset as int,
            ));
        },
    }
}

/// How many vertex numbers, from its first one, the triangle list of a primitive of kind `t`
/// with `n` vertices computes: none for lines and points and for strips and fans of fewer than
/// three vertices; for quads up to the next multiple of four, since a last run of fewer than
/// four vertices is still drawn as a whole quad; otherwise `n`.
pub open spec fn primitive_reach(t: PrimitiveType, n: int) -> int {
    match t {
        PrimitiveType::Quads | PrimitiveType::Quads2 => 4 * ((n + 3) / 4),
        PrimitiveType::Triangles => n,
        PrimitiveType::TriangleStrip | PrimitiveType::TriangleFan => if n >= 3 {
            n
        } else {
            0
        },
        _ => 0,
    }
}

/// Whether every vertex number that building the triangle list of `ps` computes fits in a
/// `u32`: for each primitive that computes any, its first vertex number plus its reach is at
/// most `u32::MAX + 1`, so its last vertex number is at most `u32::MAX`.
pub open spec fn indices_fit(ps: Seq<(PrimitiveType, Seq<Seq<u16>>)>) -> bool {
    forall|k: int|
        0 <= k < ps.len() && primitive_reach(#[trigger] ps[k].0, ps[k].1.len() as int) > 0
            ==> vertex_total(ps.take(k)) + primitive_reach(ps[k].0, ps[k].1.len() as int)
            <= u32::MAX + 1
}

/// Tells whether `indices_fit` holds of `primitives`, so that `build_mesh_topology` may be
/// called on them.
pub fn indices_fit_u32(primitives: &Vec<Primitive>) -> (b: bool)
    ensures
        b == indices_fit(primitive_views(primitives@)),
{
    let ghost ps = primitive_views(primitives@);
    let cap: u64 = 0x1_0000_0001;
    let mut total: u64 = 0;
    let mut k: usize = 0;
    while k < primitives.len()
        invariant
            ps == primitive_views(primitives@),
            cap == 0x1_0000_0001,
            k <= ps.len(),
            total == if vertex_total(ps.take(k as int)) < cap {
                vertex_total(ps.take(k as int)) as int
            } else {
                cap as int
            },
            forall|i: int|
                0 <= i < k && primitive_reach(#[trigger] ps[i].0, ps[i].1.len() as int) > 0
                    ==> vertex_total(ps.take(i)) + primitive_reach(ps[i].0, ps[i].1.len() as int)
                    <= u32::MAX + 1,
        decreases ps.len() - k,
    {
        let prim = &primitives[k];
        proof {
            assert(ps[k as int] == prim@);
            lemma_vertex_total_prefix(ps, k as int);
        }
        let len = prim.vertices.len();
        let ghost reach_k = primitive_reach(ps[k as int].0, ps[k as int].1.len() as int);
        let draws = match prim.prim_type {
            PrimitiveType::Quads | PrimitiveType::Quads2 | PrimitiveType::Triangles => len > 0,
            PrimitiveType::TriangleStrip | PrimitiveType::TriangleFan => len >= 3,
            _ => false,
        };
        assert(draws == (reach_k > 0)) by {
            if len > 0 {
                assert(4 * ((len + 3) / 4) > 0);
            }
        }
        if draws {
            if len as u64 > 0x1_0000_0000 {
                assert(reach_k >= len) by {
                    assert(4 * ((len + 3) / 4) >= len);
                }
                return false;
            }
            let n = len as u64;
            let reach: u64 = match prim.prim_type {
                PrimitiveType::Quads | PrimitiveType::Quads2 => (n + 3) / 4 * 4,
                _ => n,
            };
            assert(reach == reach_k);
            if total + reach > 0x1_0000_0000 {
                return false;
            }
        }
        let n = len as u64;
        if n >= cap - total {
            total = cap;
        } else {
            total = total + n;
        }
        k = k + 1;
        proof {
            assert forall|i: int|
                0 <= i < k && primitive_reach(#[trigger] ps[i].0, ps[i].1.len() as int) > 0
                    implies vertex_total(ps.take(i)) + primitive_reach(ps[i].0, ps[i].1.len() as int)
                    <= u32::MAX + 1 by {
                if i == k - 1 {
                    assert(ps.take(i) == ps.take(k - 1));
                }
            }
        }
    }
    assert(ps.take(k as int) =~= ps);
    true
}

/// Concatenates the vertices of all primitives and builds the triangle list that draws them:
/// quads are split in two triangles, strips and fans are unrolled, lines and points are left
/// out. Each primitive numbers its vertices after those of the primitives before it.
pub fn build_mesh_topology(primitives: &Vec<Primitive>) -> (r: (Vec<IndexedVertex>, Vec<u32>))
    requires
        indices_fit(primitive_views(primitives@)),
    ensures
        r.0@.map_values(|v: IndexedVertex| v@) == all_vertices(primitive_views(primitives@)),
        index_values(r.1@) == topology_indices(primitive_views(primitives@)),
{
    let ghost ps = primitive_views(primitives@);
    let mut vertices: Vec<IndexedVertex> = Vec::new();
    let mut indices: Vec<u32> = Vec::new();
    let mut k: usize = 0;
    while k < primitives.len()
        invariant
            ps == primitive_views(primitives@),
            indices_fit(ps),
            k <= ps.len(),
            vertices@.map_values(|v: IndexedVertex| v@) == all_vertices(ps.take(k as int)),
            index_values(indices@) == topology_indices(ps.take(k as int)),
        decreases ps.len() - k,
    {
        let prim = &primitives[k];
        proof {
            assert(ps.take(k + 1).drop_last() =~= ps.take(k as int));
            assert(ps[k as int] == prim@);
            lemma_vertex_total_prefix(ps, k as int);
            lemma_vertex_count(ps.take(k as int));
            assert(primitive_reach(ps[k as int].0, ps[k as int].1.len() as int) > 0 ==> vertex_total(
                ps.take(k as int),
            ) + primitive_reach(ps[k as int].0, ps[k as int].1.len() as int) <= u32::MAX + 1);
            assert(vertices@.len() == vertex_total(ps.take(k as int)));
        }
        let offset = vertices.len() as u32;
        let ghost before = vertices@.map_values(|v: IndexedVertex| v@);
        let n = prim.vertices.len();
        let mut j: usize = 0;
        while j < n
            invariant
                n == prim.vertices@.len(),
                j <= n,
                vertices@.map_values(|v: IndexedVertex| v@) == before + prim@.1.take(j as int),
            decreases n - j,
        {
            let v = prim.vertices[j];
            let ghost prev = vertices@;
            vertices.push(v);
            proof {
                prev.lemma_push_map_commute(|v: IndexedVertex| v@, v);
                assert(prim@.1.take(j + 1) =~= prim@.1.take(j as int).push(v@));
            }
            j = j + 1;
        }
        assert(prim@.1.take(n as int) =~= prim@.1);
        push_primitive_indices(&mut indices, prim.prim_type, n, offset);
        k = k + 1;
    }
    assert(ps.take(k as int) =~= ps);
    (vertices, indices)
}


/// Whether the primitive kind is drawn as quads.
pub open spec fn is_quad_kind(t: PrimitiveType) -> bool {
    t == PrimitiveType::Quads || t == PrimitiveType::Quads2
}

/// The triangle list of one primitive refers only to its own vertices, provided a quad
/// primitive has a multiple of four vertices.
proof fn lemma_primitive_indices_in_range(t: PrimitiveType, n: int, o: int)
    requires
        n >= 0,
        is_quad_kind(t) ==> n % 4 == 0,
    ensures
        forall|j: int|
            0 <= j < primitive_indices(t, n, o).len() ==> o <= #[trigger] primitive_indices(
                t,
                n,
                o,
            )[j] < o + n,
{
    let s = primitive_indices(t, n, o);
    assert forall|j: int| 0 <= j < s.len() implies o <= #[trigger] s[j] < o + n by {
        if is_quad_kind(t) {
            let q = j / 6;
            let r = j % 6;
            assert(j < ((n + 3) / 4) * 6);
            assert((n + 3) / 4 == n / 4);
            assert(q < n / 4) by (nonlinear_arith)
                requires
                    q == j / 6,
                    0 <= j < (n / 4) * 6,
            ;
            assert(4 * q + 3 < n) by (nonlinear_arith)
                requires
                    0 <= q < n / 4,
                    n % 4 == 0,
                    n >= 0,
            ;
            assert(0 <= r < 6);
            assert(0 <= q);
        } else if t == PrimitiveType::TriangleStrip || t == PrimitiveType::TriangleFan {
            assert(j < 3 * (n - 2));
            assert(j / 3 < n - 2);
            assert(0 <= j / 3);
            assert(0 <= j % 3 < 3);
        }
    }
}

/// Every index of the triangle list names a vertex of the concatenated vertex list, provided
/// every quad primitive has a multiple of four vertices. (A quad primitive with one vertex
/// yields the indices 0, 1, 2, 0, 2, 3 over a single vertex.)
pub proof fn lemma_topology_in_range(ps: Seq<(PrimitiveType, Seq<Seq<u16>>)>)
    requires
        forall|k: int| 0 <= k < ps.len() && is_quad_kind(#[trigger] ps[k].0) ==> ps[k].1.len() % 4 == 0,
    ensures
        forall|j: int|
            0 <= j < topology_indices(ps).len() ==> 0 <= #[trigger] topology_indices(ps)[j]
                < vertex_total(ps),
    decreases ps.len(),
{
    if ps.len() > 0 {
        let init = ps.drop_last();
        assert forall|k: int| 0 <= k < init.len() && is_quad_kind(#[trigger] init[k].0) implies init[k].1.len() % 4 == 0 by {
            assert(init[k] == ps[k]);
        }
        lemma_topology_in_range(init);
        let last = ps.last();
        assert(last == ps[ps.len() - 1]);
        lemma_primitive_indices_in_range(last.0, last.1.len() as int, vertex_total(init) as int);
        let a = topology_indices(init);
        let b = primitive_indices(last.0, last.1.len() as int, vertex_total(init) as int);
        assert forall|j: int| 0 <= j < topology_indices(ps).len() implies 0 <= #[trigger] topology_indices(ps)[j]
            < vertex_total(ps) by {
            if j < a.len() {
                assert(topology_indices(ps)[j] == a[j]);
            } else {
                assert(topology_indices(ps)[j] == b[j - a.len()]);
            }
        }
    }
}

/// The triangle list of one primitive holds whole triangles, provided a triangle primitive has
/// a multiple of three vertices.
proof fn lemma_primitive_whole_triangles(t: PrimitiveType, n: int, o: int)
    requires
        n >= 0,
        t == PrimitiveType::Triangles ==> n % 3 == 0,
    ensures
        primitive_indices(t, n, o).len() % 3 == 0,
{
    if is_quad_kind(t) {
        let c = (n + 3) / 4;
        assert((c * 6) % 3 == 0) by (nonlinear_arith)
            requires
                c >= 0,
        ;
    }
}

/// The triangle list is made of whole triangles, provided every triangle primitive has a
/// multiple of three vertices. (A triangle primitive with four vertices adds four indices.)
pub proof fn lemma_topology_whole_triangles(ps: Seq<(PrimitiveType, Seq<Seq<u16>>)>)
    requires
        forall|k: int|
            0 <= k < ps.len() && #[trigger] ps[k].0 == PrimitiveType::Triangles ==> ps[k].1.len() % 3
                == 0,
    ensures
        topology_indices(ps).len() % 3 == 0,
    decreases ps.len(),
{
    if ps.len() > 0 {
        let init = ps.drop_last();
        assert forall|k: int|
            0 <= k < init.len() && #[trigger] init[k].0 == PrimitiveType::Triangles implies init[k].1.len()
                % 3 == 0 by {
            assert(init[k] == ps[k]);
        }
        lemma_topology_whole_triangles(init);
        let last = ps.last();
        assert(last == ps[ps.len() - 1]);
        lemma_primitive_whole_triangles(last.0, last.1.len() as int, vertex_total(init) as int);
    }
}

/// Every primitive decoded from a buffer has at least one vertex.
pub proof fn lemma_decoded_primitives_nonempty(s: Seq<u8>, cursor: int)
    requires
        decode_from(s, cursor) is Ok,
    ensures
        forall|k: int|
            0 <= k < decode_from(s, cursor).unwrap().len() ==> (#[trigger] decode_from(
                s,
                cursor,
            ).unwrap()[k]).1.len() > 0,
    decreases s.len() - cursor,
{
    if cursor >= 0 && cursor + 4 <= s.len() {
        let n = be_u24(s, cursor + 1);
        let body = cursor + 4;
        if n > 0 && body + 52 * n <= s.len() && s[cursor] < 8 {
            lemma_decoded_primitives_nonempty(s, body + 52 * n);
            let rest = decode_from(s, body + 52 * n).unwrap();
            let all = decode_from(s, cursor).unwrap();
            assert forall|k: int| 0 <= k < all.len() implies (#[trigger] all[k]).1.len() > 0 by {
                if k > 0 {
                    assert(all[k] == rest[k - 1]);
                }
            }
        }
    }
}

/// For each vertex, the index it holds in the slot of `attr`.
pub fn attribute_indices(vertices: &Vec<IndexedVertex>, attr: GXAttr) -> (r: Vec<usize>)
    ensures
        r@.len() == vertices@.len(),
        forall|j: int|
            0 <= j < vertices@.len() ==> #[trigger] r@[j] == vertices@[j]@[attr.spec_index() as int],
{
    let slot = attr.index() as usize;
    let mut r: Vec<usize> = Vec::with_capacity(vertices.len());
    let mut j: usize = 0;
    while j < vertices.len()
        invariant
            slot == attr.spec_index(),
            slot < 26,
            j <= vertices@.len(),
            r@.len() == j,
            forall|i: int| 0 <= i < j ==> #[trigger] r@[i] == vertices@[i]@[slot as int],
        decreases vertices@.len() - j,
    {
        r.push(vertices[j].indices[slot] as usize);
        j = j + 1;
    }
    r
}


/// The GX vertex-attribute table: each attribute's slot in an indexed vertex, which is also its
/// bit in the vertex descriptor, is its GX attribute number, counting in declaration order.
pub proof fn lemma_attribute_numbers()
    ensures
        GXAttr::PNMTXIDX.spec_index() == 0,
        GXAttr::TEX0MTXIDX.spec_index() == 1,
        GXAttr::TEX1MTXIDX.spec_index() == 2,
        GXAttr::TEX2MTXIDX.spec_index() == 3,
        GXAttr::TEX3MTXIDX.spec_index() == 4,
        GXAttr::TEX4MTXIDX.spec_index() == 5,
        GXAttr::TEX5MTXIDX.spec_index() == 6,
        GXAttr::TEX6MTXIDX.spec_index() == 7,
        GXAttr::TEX7MTXIDX.spec_index() == 8,
        GXAttr::POS.spec_index() == 9,
        GXAttr::NRM.spec_index() == 10,
        GXAttr::CLR0.spec_index() == 11,
        GXAttr::CLR1.spec_index() == 12,
        GXAttr::TEX0.spec_index() == 13,
        GXAttr::TEX1.spec_index() == 14,
        GXAttr::TEX2.spec_index() == 15,
        GXAttr::TEX3.spec_index() == 16,
        GXAttr::TEX4.spec_index() == 17,
        GXAttr::TEX5.spec_index() == 18,
        GXAttr::TEX6.spec_index() == 19,
        GXAttr::TEX7.spec_index() == 20,
{
}

/// The GX primitive table: the kind numbered `v` in a primitive header and the command byte that
/// draws it, counting in declaration order.
pub proof fn lemma_primitive_kinds()
    ensures
        primitive_type_of(0) == PrimitiveType::Quads,
        PrimitiveType::Quads.spec_hex() == 0x80,
        primitive_type_of(1) == PrimitiveType::Quads2,
        PrimitiveType::Quads2.spec_hex() == 0x88,
        primitive_type_of(2) == PrimitiveType::Triangles,
        PrimitiveType::Triangles.spec_hex() == 0x90,
        primitive_type_of(3) == PrimitiveType::TriangleStrip,
        PrimitiveType::TriangleStrip.spec_hex() == 0x98,
        primitive_type_of(4) == PrimitiveType::TriangleFan,
        PrimitiveType::TriangleFan.spec_hex() == 0xA0,
        primitive_type_of(5) == PrimitiveType::Lines,
        PrimitiveType::Lines.spec_hex() == 0xA8,
        primitive_type_of(6) == PrimitiveType::LineStrip,
        PrimitiveType::LineStrip.spec_hex() == 0xB0,
        primitive_type_of(7) == PrimitiveType::Points,
        PrimitiveType::Points.spec_hex() == 0xB8,
{
}

/// The triangle list of a primitive depends on where its vertices start only by a shift: started
/// at `o` it is the list started at 0 with `o` added to every entry.
pub proof fn lemma_primitive_indices_shift(t: PrimitiveType, n: int, o: int)
    requires
        n >= 0,
    ensures
        primitive_indices(t, n, o).len() == primitive_indices(t, n, 0).len(),
        forall|j: int|
            0 <= j < primitive_indices(t, n, o).len() ==> #[trigger] primitive_indices(t, n, o)[j]
                == o + primitive_indices(t, n, 0)[j],
{
}

/// Each triangle of a primitive's triangle list, with vertices numbered from `o`: a triangle
/// primitive lists its vertices in order; quad `q` gives the triangles `(4q, 4q+1, 4q+2)` and
/// `(4q, 4q+2, 4q+3)`; triangle `k` of a strip is `(k, k+1, k+2)` when `k` is even and
/// `(k, k+2, k+1)` when it is odd, counted within the strip, so every triangle keeps the winding
/// of the first; triangle `k` of a fan is `(0, k+1, k+2)`. Strips and fans have `n - 2`
/// triangles, and quads one pair per started run of four vertices.
pub proof fn lemma_primitive_triangles(t: PrimitiveType, n: int, o: int)
    requires
        n >= 0,
    ensures
        t == PrimitiveType::Triangles ==> primitive_indices(t, n, o).len() == n && forall|j: int|
            0 <= j < n ==> #[trigger] primitive_indices(t, n, o)[j] == o + j,
        is_quad_kind(t) ==> primitive_indices(t, n, o).len() == 6 * ((n + 3) / 4) && forall|q: int|
            0 <= q < (n + 3) / 4 ==> {
                let s = #[trigger] primitive_indices(t, n, o).subrange(6 * q, 6 * q + 6);
                s == seq![o + 4 * q, o + 4 * q + 1, o + 4 * q + 2, o + 4 * q, o + 4 * q + 2, o + 4 * q + 3]
            },
        t == PrimitiveType::TriangleStrip ==> primitive_indices(t, n, o).len() == 3 * strip_triangles(n)
            && forall|k: int|
            0 <= k < strip_triangles(n) ==> #[trigger] primitive_indices(t, n, o).subrange(3 * k, 3 * k + 3)
                == if k % 2 == 0 {
                seq![o + k, o + k + 1, o + k + 2]
            } else {
                seq![o + k, o + k + 2, o + k + 1]
            },
        t == PrimitiveType::TriangleFan ==> primitive_indices(t, n, o).len() == 3 * strip_triangles(n)
            && forall|k: int|
            0 <= k < strip_triangles(n) ==> #[trigger] primitive_indices(t, n, o).subrange(3 * k, 3 * k + 3)
                == seq![o, o + k + 1, o + k + 2],
        !is_quad_kind(t) && t != PrimitiveType::Triangles && t != PrimitiveType::TriangleStrip && t
            != PrimitiveType::TriangleFan ==> primitive_indices(t, n, o).len() == 0,
{
    let s = primitive_indices(t, n, o);
    if is_quad_kind(t) {
        assert forall|q: int| 0 <= q < (n + 3) / 4 implies {
            let w = #[trigger] s.subrange(6 * q, 6 * q + 6);
            w == seq![o + 4 * q, o + 4 * q + 1, o + 4 * q + 2, o + 4 * q, o + 4 * q + 2, o + 4 * q + 3]
        } by {
            assert(6 * q + 6 <= 6 * ((n + 3) / 4)) by (nonlinear_arith)
                requires
                    q < (n + 3) / 4,
            ;
            lemma_div_mod_exact(q, 0, 6);
            lemma_div_mod_exact(q, 1, 6);
            lemma_div_mod_exact(q, 2, 6);
            lemma_div_mod_exact(q, 3, 6);
            lemma_div_mod_exact(q, 4, 6);
            lemma_div_mod_exact(q, 5, 6);
            assert(s.subrange(6 * q, 6 * q + 6) =~= seq![
                o + 4 * q,
                o + 4 * q + 1,
                o + 4 * q + 2,
                o + 4 * q,
                o + 4 * q + 2,
                o + 4 * q + 3,
            ]);
        }
    } else if t == PrimitiveType::TriangleStrip || t == PrimitiveType::TriangleFan {
        assert forall|k: int| 0 <= k < strip_triangles(n) implies #[trigger] s.subrange(3 * k, 3 * k + 3)
            == if t == PrimitiveType::TriangleFan {
            seq![o, o + k + 1, o + k + 2]
        } else if k % 2 == 0 {
            seq![o + k, o + k + 1, o + k + 2]
        } else {
            seq![o + k, o + k + 2, o + k + 1]
        } by {
            lemma_div_mod_exact(k, 0, 3);
            lemma_div_mod_exact(k, 1, 3);
            lemma_div_mod_exact(k, 2, 3);
            assert((k + 2) % 2 == k % 2);
            if t == PrimitiveType::TriangleFan {
                assert(s.subrange(3 * k, 3 * k + 3) =~= seq![o, o + k + 1, o + k + 2]);
            } else if k % 2 == 0 {
                assert(s.subrange(3 * k, 3 * k + 3) =~= seq![o + k, o + k + 1, o + k + 2]);
            } else {
                assert(s.subrange(3 * k, 3 * k + 3) =~= seq![o + k, o + k + 2, o + k + 1]);
            }
        }
    }
}


/// How a vertex buffer is laid out: when decoding it yields a primitive, the first one's kind is
/// numbered by byte 0, its vertex count is the big-endian 24-bit number in bytes 1-3, its
/// vertices follow the header 52 bytes apiece with slot `q` of vertex `j` the little-endian
/// 16-bit number at `4 + 52j + 2q`, and the remaining primitives are decoded from right after it.
pub proof fn lemma_first_primitive_layout(s: Seq<u8>)
    requires
        decode_from(s, 0) is Ok,
        decode_from(s, 0).unwrap().len() > 0,
    ensures
        ({
            let p = decode_from(s, 0).unwrap()[0];
            let n = (s[1] * 256 + s[2]) * 256 + s[3];
            &&& s.len() >= 4
            &&& s[0] < 8
            &&& p.0 == primitive_type_of(s[0] as int)
            &&& p.1.len() == n
            &&& 4 + 52 * n <= s.len()
            &&& forall|j: int, q: int|
                0 <= j < n && 0 <= q < 26 ==> #[trigger] p.1[j][q] == s[4 + 52 * j + 2 * q] + 256 * s[4 + 52
                    * j + 2 * q + 1]
            &&& decode_from(s, 4 + 52 * n) is Ok
            &&& decode_from(s, 0).unwrap() == seq![p] + decode_from(s, 4 + 52 * n).unwrap()
        }),
{
    let n = be_u24(s, 1);
    assert(n == (s[1] * 256 + s[2]) * 256 + s[3]);
    let p = decode_from(s, 0).unwrap()[0];
    assert forall|j: int, q: int| 0 <= j < n && 0 <= q < 26 implies #[trigger] p.1[j][q] == s[4 + 52 * j
        + 2 * q] + 256 * s[4 + 52 * j + 2 * q + 1] by {
        assert(p.1[j] == vertex_at(s, 4 + 52 * j));
        let v = le_u16(s, 4 + 52 * j + 2 * q);
        assert(0 <= v < 65536);
    }
}

} // verus!
