//! The arena map as sent in a verify message: an 8 by 16 grid of blocks,
//! one bit layer per block type.
use vstd::prelude::*;

verus! {

/// Rows of the grid.
pub const VERTICAL_BLOCKS: usize = 8;

/// Columns of the grid.
pub const HORIZONTAL_BLOCKS: usize = 16;

/// Cells of the grid; cell `col * VERTICAL_BLOCKS + row` is at `(row, col)`.
pub const CELL_COUNT: usize = 128;

/// Bytes of one bit layer: one bit per cell, cell `i` at bit `i % 8` of byte `i / 8`.
pub const LAYER_BYTES: usize = 16;

/// Bytes of a map: the grass layer, then the ice layer.
pub const MAP_BYTES: usize = 32;

/// The types of blocks.
#[derive(Debug, Clone, Copy, PartialEq, Eq, Structural)]
pub enum BlockType {
    GrassBlock,
    IceBlock,
}

/// Why bytes do not hold a map.
#[derive(Debug, Clone, Copy, PartialEq, Eq, Structural)]
pub enum MapError {
    /// Fewer than `MAP_BYTES` bytes.
    Truncated,
    /// A cell holds blocks of two types.
    Overlap,
}

/// The block type of bit layer `layer`.
pub open spec fn layer_type(layer: int) -> BlockType {
    if layer == 0 {
        BlockType::GrassBlock
    } else {
        BlockType::IceBlock
    }
}

/// Whether bit `r` of `byte` is set.
pub open spec fn bit_of(byte: u8, r: int) -> bool {
    (byte >> (r as u8)) & 1u8 == 1u8
}

/// Whether layer `layer` of the map bytes `b` has cell `i` set.
pub open spec fn layer_bit(b: Seq<u8>, layer: int, i: int) -> bool {
    bit_of(b[LAYER_BYTES * layer + i / 8], i % 8)
}

/// Whether some cell of the map bytes `b` is set in both layers.
pub open spec fn layers_overlap(b: Seq<u8>) -> bool {
    exists|i: int| 0 <= i < CELL_COUNT && #[trigger] layer_bit(b, 0, i) && layer_bit(b, 1, i)
}

/// The block in cell `i` of the map bytes `b`.
pub open spec fn cell_of(b: Seq<u8>, i: int) -> Option<BlockType> {
    if layer_bit(b, 0, i) {
        Some(BlockType::GrassBlock)
    } else if layer_bit(b, 1, i) {
        Some(BlockType::IceBlock)
    } else {
        None
    }
}

/// The outcome of reading a map from bytes; bytes after the two layers are
/// ignored.
pub open spec fn map_result(b: Seq<u8>) -> Result<Seq<Option<BlockType>>, MapError> {
    if b.len() < MAP_BYTES {
        Err(MapError::Truncated)
    } else if layers_overlap(b) {
        Err(MapError::Overlap)
    } else {
        Ok(Seq::new(CELL_COUNT as nat, |i: int| cell_of(b, i)))
    }
}

/// Whether bit `i` of the layer `x` is set.
pub open spec fn u128_bit(x: u128, i: int) -> bool {
    (x >> (i as u32)) & 1u128 == 1u128
}

/// The block in cell `i` of the grid given as a grass layer and an ice layer.
pub open spec fn cell_of_layers(grass: u128, ice: u128, i: int) -> Option<BlockType> {
    if u128_bit(grass, i) {
        Some(BlockType::GrassBlock)
    } else if u128_bit(ice, i) {
        Some(BlockType::IceBlock)
    } else {
        None
    }
}

/// Whether `b` are the bytes of the grid `cells`: exactly the cells of each
/// type are set in that type's layer.
pub open spec fn encodes(b: Seq<u8>, cells: Seq<Option<BlockType>>) -> bool {
    &&& b.len() == MAP_BYTES
    &&& forall|layer: int, i: int|
        0 <= layer < 2 && 0 <= i < CELL_COUNT ==> #[trigger] layer_bit(b, layer, i) == (cells[i]
            == Some(layer_type(layer)))
}

proof fn lemma_set_bit(byte: u8, r: u8, s: u8)
    requires
        r < 8,
        s < 8,
    ensures
        ((byte | (1u8 << r)) >> s) & 1u8 == if s == r {
            1u8
        } else {
            (byte >> s) & 1u8
        },
{
    assert(((byte | (1u8 << r)) >> s) & 1u8 == if s == r {
        1u8
    } else {
        (byte >> s) & 1u8
    }) by (bit_vector)
        requires
            r < 8,
            s < 8,
    ;
}

proof fn lemma_zero_bits(s: u8)
    requires
        s < 8,
    ensures
        (0u8 >> s) & 1u8 == 0u8,
{
    assert((0u8 >> s) & 1u8 == 0u8) by (bit_vector);
}

/// The byte whose bit `r` says whether cell `8 * k + r` holds `t`.
fn layer_byte(cells: &Vec<Option<BlockType>>, k: usize, t: BlockType) -> (r: u8)
    requires
        cells@.len() == CELL_COUNT,
        k < LAYER_BYTES,
    ensures
        forall|s: int| 0 <= s < 8 ==> #[trigger] bit_of(r, s) == (cells@[8 * k + s] == Some(t)),
{
    let mut byte: u8 = 0;
    let mut r: u8 = 0;
    proof {
        assert forall|s: int| 0 <= s < 8 implies !#[trigger] bit_of(0u8, s) by {
            lemma_zero_bits(s as u8);
        }
    }
    while r < 8
        invariant
            cells@.len() == CELL_COUNT,
            k < LAYER_BYTES,
            r <= 8,
            forall|s: int| 0 <= s < r ==> #[trigger] bit_of(byte, s) == (cells@[8 * k + s] == Some(t)),
            forall|s: int| r <= s < 8 ==> !#[trigger] bit_of(byte, s),
        decreases 8 - r,
    {
        let before = byte;
        if cells[8 * k + r as usize] == Some(t) {
            byte = byte | (1u8 << r);
            proof {
                assert forall|s: int| 0 <= s < 8 implies #[trigger] bit_of(byte, s) == if s == r {
                    true
                } else {
                    bit_of(before, s)
                } by {
                    lemma_set_bit(before, r, s as u8);
                }
            }
        }
        r = r + 1;
    }
    byte
}

/// The arena map: which block, if any, is in each cell of the grid.
#[derive(Debug, Clone)]
pub struct ArenaMap {
    cells: Vec<Option<BlockType>>,
}

impl View for ArenaMap {
    type V = Seq<Option<BlockType>>;

    closed spec fn view(&self) -> Seq<Option<BlockType>> {
        self.cells@
    }
}

impl ArenaMap {
    /// The grid has `CELL_COUNT` cells.
    pub closed spec fn wf(&self) -> bool {
        self.cells@.len() == CELL_COUNT
    }

    /// The map whose grass and ice cells are the set bits of `grass` and
    /// `ice`. Fails when a cell is set in both.
    pub fn from_mapblocks(grass: u128, ice: u128) -> (r: Result<ArenaMap, MapError>)
        ensures
            r.is_ok() <==> forall|i: int| 0 <= i < CELL_COUNT ==> !(#[trigger] u128_bit(grass, i) && u128_bit(ice, i)),
            r matches Ok(m) ==> m.wf() && m@ == Seq::new(CELL_COUNT as nat, |i: int| cell_of_layers(grass, ice, i)),
            r matches Err(e) ==> e == MapError::Overlap,
    {
        let mut cells: Vec<Option<BlockType>> = Vec::new();
        let mut i: usize = 0;
        while i < CELL_COUNT
            invariant
                i <= CELL_COUNT,
                cells@ =~= Seq::new(i as nat, |j: int| cell_of_layers(grass, ice, j)),
                forall|j: int| 0 <= j < i ==> !(#[trigger] u128_bit(grass, j) && u128_bit(ice, j)),
            decreases CELL_COUNT - i,
        {
            let g = (grass >> (i as u32)) & 1u128 == 1u128;
            let c = (ice >> (i as u32)) & 1u128 == 1u128;
            if g && c {
                assert(u128_bit(grass, i as int) && u128_bit(ice, i as int));
                return Err(MapError::Overlap);
            }
            if g {
                cells.push(Some(BlockType::GrassBlock));
            } else if c {
                cells.push(Some(BlockType::IceBlock));
            } else {
                cells.push(None);
            }
            i = i + 1;
        }
        Ok(ArenaMap { cells })
    }

    /// A map whose rows alternate between grass and ice, starting with grass
    /// on the top row, covering every cell.
    pub fn default_map() -> (r: ArenaMap)
        ensures
            r.wf(),
            forall|i: int| 0 <= i < CELL_COUNT ==> #[trigger] r@[i] == Some(
                if i % 2 == 0 {
                    BlockType::GrassBlock
                } else {
                    BlockType::IceBlock
                },
            ),
    {
        let mut cells: Vec<Option<BlockType>> = Vec::new();
        let mut i: usize = 0;
        while i < CELL_COUNT
            invariant
                i <= CELL_COUNT,
                cells@.len() == i,
                forall|j: int| 0 <= j < i ==> #[trigger] cells@[j] == Some(
                    if j % 2 == 0 {
                        BlockType::GrassBlock
                    } else {
                        BlockType::IceBlock
                    },
                ),
            decreases CELL_COUNT - i,
        {
            if i % 2 == 0 {
                cells.push(Some(BlockType::GrassBlock));
            } else {
                cells.push(Some(BlockType::IceBlock));
            }
            i = i + 1;
        }
        ArenaMap { cells }
    }

    /// The block at `(row, col)`, if any.
    pub fn block_at(&self, row: usize, col: usize) -> (r: Option<BlockType>)
        requires
            self.wf(),
            row < VERTICAL_BLOCKS,
            col < HORIZONTAL_BLOCKS,
        ensures
            r == self@[col * VERTICAL_BLOCKS + row],
    {
        self.cells[col * VERTICAL_BLOCKS + row]
    }

    /// The first row at or below `row` in column `col` that holds a block.
    pub fn first_row_below(&self, row: usize, col: usize) -> (r: Option<usize>)
        requires
            self.wf(),
            col < HORIZONTAL_BLOCKS,
        ensures
            r matches Some(found) ==> row <= found < VERTICAL_BLOCKS && self@[col * VERTICAL_BLOCKS
                + found] is Some && forall|s: int|
                row <= s < found ==> #[trigger] self@[col * VERTICAL_BLOCKS + s] is None,
            r is None ==> forall|s: int|
                row <= s < VERTICAL_BLOCKS ==> #[trigger] self@[col * VERTICAL_BLOCKS + s] is None,
    {
        let mut s: usize = row;
        while s < VERTICAL_BLOCKS
            invariant
                self.wf(),
                col < HORIZONTAL_BLOCKS,
                row <= s,
                forall|t: int| row <= t < s ==> #[trigger] self@[col * VERTICAL_BLOCKS + t] is None,
            decreases VERTICAL_BLOCKS - s,
        {
            if self.cells[col * VERTICAL_BLOCKS + s].is_some() {
                return Some(s);
            }
            s = s + 1;
        }
        None
    }

    /// The bytes of the map: the grass layer, then the ice layer.
    pub fn to_bytes(&self) -> (r: Vec<u8>)
        requires
            self.wf(),
        ensures
            encodes(r@, self@),
    {
        let mut v: Vec<u8> = Vec::new();
        let mut layer: usize = 0;
        while layer < 2
            invariant
                self.wf(),
                layer <= 2,
                v@.len() == LAYER_BYTES * layer,
                forall|l: int, i: int|
                    0 <= l < layer && 0 <= i < CELL_COUNT ==> #[trigger] layer_bit(v@, l, i) == (
                    self@[i] == Some(layer_type(l))),
            decreases 2 - layer,
        {
            let t = if layer == 0 {
                BlockType::GrassBlock
            } else {
                BlockType::IceBlock
            };
            let mut k: usize = 0;
            while k < LAYER_BYTES
                invariant
                    self.wf(),
                    layer < 2,
                    t == layer_type(layer as int),
                    k <= LAYER_BYTES,
                    v@.len() == LAYER_BYTES * layer + k,
                    forall|l: int, i: int|
                        0 <= l < layer && 0 <= i < CELL_COUNT ==> #[trigger] layer_bit(v@, l, i) == (
                        self@[i] == Some(layer_type(l))),
                    forall|i: int|
                        0 <= i < 8 * k ==> #[trigger] layer_bit(v@, layer as int, i) == (self@[i]
                            == Some(t)),
                decreases LAYER_BYTES - k,
            {
                let byte = layer_byte(&self.cells, k, t);
                let ghost before = v@;
                v.push(byte);
                proof {
                    assert forall|l: int, i: int|
                        0 <= l < layer && 0 <= i < CELL_COUNT implies #[trigger] layer_bit(v@, l, i)
                        == (self@[i] == Some(layer_type(l))) by {
                        assert(v@[LAYER_BYTES * l + i / 8] == before[LAYER_BYTES * l + i / 8]);
                        assert(layer_bit(before, l, i) == (self@[i] == Some(layer_type(l))));
                        assert(layer_bit(v@, l, i) == layer_bit(before, l, i));
                    }
                    assert forall|i: int| 0 <= i < 8 * (k + 1) implies #[trigger] layer_bit(
                        v@,
                        layer as int,
                        i,
                    ) == (self@[i] == Some(t)) by {
                        if i < 8 * k {
                            assert(v@[LAYER_BYTES * layer + i / 8] == before[LAYER_BYTES * layer + i / 8]);
                            assert(layer_bit(before, layer as int, i) == (self@[i] == Some(t)));
                            assert(layer_bit(v@, layer as int, i) == layer_bit(before, layer as int, i));
                        } else {
                            assert(i / 8 == k);
                            assert(v@[LAYER_BYTES * layer + i / 8] == byte);
                            assert(8 * k + i % 8 == i);
                            assert(bit_of(byte, i % 8) == (self@[8 * k + i % 8] == Some(t)));
                            assert(layer_bit(v@, layer as int, i) == bit_of(byte, i % 8));
                        }
                    }
                }
                k = k + 1;
            }
            layer = layer + 1;
        }
        v
    }

    /// Reads a map from the first `MAP_BYTES` bytes of `b`. Fails when there
    /// are fewer, or when a cell is set in both layers.
    pub fn from_bytes(b: &[u8]) -> (r: Result<ArenaMap, MapError>)
        ensures
            r matches Ok(m) ==> m.wf() && map_result(b@) == Ok::<Seq<Option<BlockType>>, MapError>(m@),
            r matches Err(e) ==> map_result(b@) == Err::<Seq<Option<BlockType>>, MapError>(e),
    {
        if b.len() < MAP_BYTES {
            return Err(MapError::Truncated);
        }
        let mut cells: Vec<Option<BlockType>> = Vec::new();
        let mut i: usize = 0;
        while i < CELL_COUNT
            invariant
                b@.len() >= MAP_BYTES,
                i <= CELL_COUNT,
                cells@ =~= Seq::new(i as nat, |j: int| cell_of(b@, j)),
                forall|j: int| 0 <= j < i ==> !(#[trigger] layer_bit(b@, 0, j) && layer_bit(b@, 1, j)),
            decreases CELL_COUNT - i,
        {
            let shift: u8 = (i % 8) as u8;
            let grass = (b[i / 8] >> shift) & 1u8 == 1u8;
            let ice = (b[LAYER_BYTES + i / 8] >> shift) & 1u8 == 1u8;
            if grass && ice {
                assert(layer_bit(b@, 0, i as int) && layer_bit(b@, 1, i as int));
                return Err(MapError::Overlap);
            }
            if grass {
                cells.push(Some(BlockType::GrassBlock));
            } else if ice {
                cells.push(Some(BlockType::IceBlock));
            } else {
                cells.push(None);
            }
            i = i + 1;
        }
        Ok(ArenaMap { cells })
    }
}

/// Reading back the bytes of a map gives that map.
pub proof fn lemma_map_round_trip(b: Seq<u8>, cells: Seq<Option<BlockType>>)
    requires
        cells.len() == CELL_COUNT,
        encodes(b, cells),
    ensures
        map_result(b) == Ok::<Seq<Option<BlockType>>, MapError>(cells),
{
    assert forall|i: int| 0 <= i < CELL_COUNT implies !(#[trigger] layer_bit(b, 0, i) && layer_bit(b, 1, i)) by {
        assert(layer_bit(b, 0, i) == (cells[i] == Some(layer_type(0))));
        assert(layer_bit(b, 1, i) == (cells[i] == Some(layer_type(1))));
    }
    assert forall|i: int| 0 <= i < CELL_COUNT implies cell_of(b, i) == cells[i] by {
        assert(layer_bit(b, 0, i) == (cells[i] == Some(layer_type(0))));
        assert(layer_bit(b, 1, i) == (cells[i] == Some(layer_type(1))));
        match cells[i] {
            Some(BlockType::GrassBlock) => {},
            Some(BlockType::IceBlock) => {},
            None => {},
        }
    }
    assert(Seq::new(CELL_COUNT as nat, |i: int| cell_of(b, i)) =~= cells);
}

} // verus!
