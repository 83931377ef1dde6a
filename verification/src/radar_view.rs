//! The radar view: what a player sees of the 3×3 cells around it and of the wall
//! segments between them, and its packing into eleven bytes written as text.
//!
//! Bytes 0 to 2 hold the twelve horizontal wall states and bytes 3 to 5 the twelve
//! vertical ones, two bits each. Each group of three bytes is a 24-bit value with
//! its least significant byte first, and the walls are its 2-bit fields from the
//! most significant down: wall `i` lies in byte `2 - i / 4` of its group. Bytes 6
//! to 10 hold the nine cells, four bits each, high half of a byte before its low
//! half; the low half of byte 10 belongs to no cell.

use crate::base64::{
    canonical, decode, decoding, encode, encoding, lemma_decode_encode, lemma_encode_decode,
};
use crate::errors::CodecError;
use vstd::prelude::*;
use vstd::slice::slice_subrange;

verus! {

/// What is known of a wall segment.
#[derive(Debug, PartialEq, Eq, Clone, Copy, Structural)]
pub enum WallState {
    Undefined,
    Open,
    Wall,
}

/// What lies on a cell.
#[derive(Debug, PartialEq, Eq, Clone, Copy, Structural)]
pub enum Element {
    Nothing,
    Clue,
    Target,
}

/// Who stands on a cell.
#[derive(Debug, PartialEq, Eq, Clone, Copy, Structural)]
pub enum Entity {
    Nobody,
    Ally,
    Enemy,
    Monster,
}

/// A cell of the radar view: seen, with what is on it, or out of sight.
#[derive(Debug, PartialEq, Eq, Clone, Copy, Structural)]
pub enum Cell {
    Valid { element: Element, entity: Entity },
    Invalid,
}

impl WallState {
    /// The 2-bit value that stands for this state.
    pub open spec fn code(self) -> int {
        match self {
            WallState::Undefined => 0,
            WallState::Open => 1,
            WallState::Wall => 2,
        }
    }

    /// The state that a 2-bit value stands for; 3 and anything above stand for none.
    pub open spec fn of_code(bits: int) -> Result<WallState, CodecError> {
        if bits == 0 {
            Ok(WallState::Undefined)
        } else if bits == 1 {
            Ok(WallState::Open)
        } else if bits == 2 {
            Ok(WallState::Wall)
        } else {
            Err(CodecError::InvalidWallState)
        }
    }

    /// Reads a state from its 2-bit value.
    pub fn from_bits(bits: u8) -> (state: Result<WallState, CodecError>)
        ensures
            state == WallState::of_code(bits as int),
    {
        match bits {
            0 => Ok(WallState::Undefined),
            1 => Ok(WallState::Open),
            2 => Ok(WallState::Wall),
            _ => Err(CodecError::InvalidWallState),
        }
    }

    /// Gives the 2-bit value of a state.
    pub fn to_bits(&self) -> (bits: u8)
        ensures
            bits == self.code(),
    {
        match self {
            WallState::Undefined => 0,
            WallState::Open => 1,
            WallState::Wall => 2,
        }
    }
}

impl Element {
    /// The 2-bit value that stands for this element.
    pub open spec fn code(self) -> int {
        match self {
            Element::Nothing => 0,
            Element::Clue => 1,
            Element::Target => 2,
        }
    }
}

impl Entity {
    /// The 2-bit value that stands for this entity.
    pub open spec fn code(self) -> int {
        match self {
            Entity::Nobody => 0,
            Entity::Ally => 1,
            Entity::Enemy => 2,
            Entity::Monster => 3,
        }
    }
}

impl Cell {
    /// The 4-bit value that stands for this cell: `1111` for a cell out of sight,
    /// else the element's two bits above the entity's.
    pub open spec fn code(self) -> int {
        match self {
            Cell::Invalid => 15,
            Cell::Valid { element, entity } => element.code() * 4 + entity.code(),
        }
    }

    /// The cell that a byte stands for. The value 15 is the cell out of sight. Of
    /// any other value the two lowest bits are the entity and the two above them
    /// the element, where `11` is no element; higher bits are not looked at.
    pub open spec fn of_code(bits: int) -> Result<Cell, CodecError> {
        let element_bits = bits / 4 % 4;
        let entity_bits = bits % 4;
        if bits == 15 {
            Ok(Cell::Invalid)
        } else if element_bits == 3 {
            Err(CodecError::InvalidElement)
        } else {
            Ok(
                Cell::Valid {
                    element: if element_bits == 0 {
                        Element::Nothing
                    } else if element_bits == 1 {
                        Element::Clue
                    } else {
                        Element::Target
                    },
                    entity: if entity_bits == 0 {
                        Entity::Nobody
                    } else if entity_bits == 1 {
                        Entity::Ally
                    } else if entity_bits == 2 {
                        Entity::Enemy
                    } else {
                        Entity::Monster
                    },
                },
            )
        }
    }

    /// Reads a cell from its 4-bit value.
    pub fn from_bits(bits: u8) -> (cell: Result<Cell, CodecError>)
        ensures
            cell == Cell::of_code(bits as int),
    {
        if bits == 0b1111 {
            return Ok(Cell::Invalid);
        }
        let element_bits = (bits >> 2) & 0b11;
        let entity_bits = bits & 0b11;
        assert(element_bits == bits / 4 % 4 && entity_bits == bits % 4) by (bit_vector)
            requires
                element_bits == (bits >> 2) & 0b11,
                entity_bits == bits & 0b11,
        ;
        let element = match element_bits {
            0b00 => Element::Nothing,
            0b01 => Element::Clue,
            0b10 => Element::Target,
            _ => { return Err(CodecError::InvalidElement); },
        };
        let entity = match entity_bits {
            0b00 => Entity::Nobody,
            0b01 => Entity::Ally,
            0b10 => Entity::Enemy,
            _ => Entity::Monster,
        };
        Ok(Cell::Valid { element, entity })
    }

    /// Gives the 4-bit value of a cell.
    pub fn to_bits(&self) -> (bits: u8)
        ensures
            bits == self.code(),
    {
        match self {
            Cell::Invalid => 0b1111,
            Cell::Valid { element, entity } => {
                let element_bits: u8 = match element {
                    Element::Nothing => 0b00,
                    Element::Clue => 0b01,
                    Element::Target => 0b10,
                };
                let entity_bits: u8 = match entity {
                    Entity::Nobody => 0b00,
                    Entity::Ally => 0b01,
                    Entity::Enemy => 0b10,
                    Entity::Monster => 0b11,
                };
                assert((element_bits << 2) | entity_bits == element_bits * 4 + entity_bits)
                    by (bit_vector)
                    requires
                        element_bits < 4,
                        entity_bits < 4,
                ;
                (element_bits << 2) | entity_bits
            },
        }
    }
}

/// A radar view: the states of the twelve horizontal and the twelve vertical
/// wall segments, and the nine cells, row by row.
#[derive(Debug, PartialEq, Eq)]
pub struct RadarView {
    pub horizontal: Vec<WallState>,
    pub vertical: Vec<WallState>,
    pub cells: Vec<Cell>,
}

/// A radar view as three sequences.
pub struct RadarModel {
    pub horizontal: Seq<WallState>,
    pub vertical: Seq<WallState>,
    pub cells: Seq<Cell>,
}

impl RadarModel {
    /// The view holds twelve, twelve and nine elements.
    pub open spec fn well_formed(self) -> bool {
        &&& self.horizontal.len() == 12
        &&& self.vertical.len() == 12
        &&& self.cells.len() == 9
    }
}

impl View for RadarView {
    type V = RadarModel;

    open spec fn view(&self) -> RadarModel {
        RadarModel { horizontal: self.horizontal@, vertical: self.vertical@, cells: self.cells@ }
    }
}

/// The `r`-th 2-bit field of a byte, counted from its most significant bits.
pub open spec fn quarter_of(byte: int, r: int) -> int {
    if r == 0 {
        byte / 64
    } else if r == 1 {
        byte / 16 % 4
    } else if r == 2 {
        byte / 4 % 4
    } else {
        byte % 4
    }
}

/// The 2-bit value of wall `i` in a group of three bytes.
pub open spec fn wall_code(bytes: Seq<u8>, i: int) -> int {
    quarter_of(bytes[2 - i / 4] as int, i % 4)
}

/// The first `count` walls that a group of bytes holds. A group that is not of
/// three bytes is refused for its length, and one in which a wall has the value 3
/// for that wall.
pub open spec fn walls_decoding(bytes: Seq<u8>, count: int) -> Result<
    Seq<WallState>,
    CodecError,
> {
    if bytes.len() != 3 {
        Err(CodecError::InvalidLength)
    } else if exists|i: int| 0 <= i < count && #[trigger] wall_code(bytes, i) == 3 {
        Err(CodecError::InvalidWallState)
    } else {
        Ok(Seq::new(count as nat, |i: int| WallState::of_code(wall_code(bytes, i)).unwrap()))
    }
}

/// The 4-bit value of cell `i` in a group of five bytes.
pub open spec fn cell_code(bytes: Seq<u8>, i: int) -> int {
    if i % 2 == 0 {
        bytes[i / 2] as int / 16
    } else {
        bytes[i / 2] as int % 16
    }
}

/// The nine cells that a group of bytes holds. A group that is not of five bytes
/// is refused for its length, and one in which a cell has no element for that
/// cell. The low half of the last byte is not looked at.
pub open spec fn cells_decoding(bytes: Seq<u8>) -> Result<Seq<Cell>, CodecError> {
    if bytes.len() != 5 {
        Err(CodecError::InvalidLength)
    } else if exists|i: int| 0 <= i < 9 && Cell::of_code(#[trigger] cell_code(bytes, i)) is Err {
        Err(CodecError::InvalidElement)
    } else {
        Ok(Seq::new(9, |i: int| Cell::of_code(cell_code(bytes, i)).unwrap()))
    }
}

/// The radar view that eleven bytes hold. The horizontal walls are read first,
/// then the vertical ones, then the cells, and the first failure is the outcome.
pub open spec fn unpacking(bytes: Seq<u8>) -> Result<RadarModel, CodecError> {
    if bytes.len() != 11 {
        Err(CodecError::InvalidLength)
    } else {
        match walls_decoding(bytes.subrange(0, 3), 12) {
            Err(e) => Err(e),
            Ok(horizontal) => match walls_decoding(bytes.subrange(3, 6), 12) {
                Err(e) => Err(e),
                Ok(vertical) => match cells_decoding(bytes.subrange(6, 11)) {
                    Err(e) => Err(e),
                    Ok(cells) => Ok(RadarModel { horizontal, vertical, cells }),
                },
            },
        }
    }
}

/// The radar view that a text stands for, or why it stands for none.
pub open spec fn radar_decoding(text: Seq<char>) -> Result<RadarModel, CodecError> {
    match decoding(text) {
        Err(e) => Err(e),
        Ok(bytes) => unpacking(bytes),
    }
}

/// The byte that holds the four walls from index `k` on.
pub open spec fn wall_byte(walls: Seq<WallState>, k: int) -> u8 {
    (walls[k].code() * 64 + walls[k + 1].code() * 16 + walls[k + 2].code() * 4 + walls[k
        + 3].code()) as u8
}

/// The three bytes that hold twelve walls.
pub open spec fn walls_encoding(walls: Seq<WallState>) -> Result<Seq<u8>, CodecError> {
    if walls.len() != 12 {
        Err(CodecError::InvalidLength)
    } else {
        Ok(seq![wall_byte(walls, 8), wall_byte(walls, 4), wall_byte(walls, 0)])
    }
}

/// The byte that holds the cells `2 * q` and `2 * q + 1`; after the ninth cell
/// the bits are zero.
pub open spec fn cell_byte(cells: Seq<Cell>, q: int) -> u8 {
    (cells[2 * q].code() * 16 + (if 2 * q + 1 < cells.len() {
        cells[2 * q + 1].code()
    } else {
        0
    })) as u8
}

/// The five bytes that hold nine cells.
pub open spec fn cells_encoding(cells: Seq<Cell>) -> Result<Seq<u8>, CodecError> {
    if cells.len() != 9 {
        Err(CodecError::InvalidLength)
    } else {
        Ok(Seq::new(5, |q: int| cell_byte(cells, q)))
    }
}

/// The eleven bytes that hold a radar view of twelve, twelve and nine elements.
pub open spec fn packing(view: RadarModel) -> Result<Seq<u8>, CodecError> {
    if view.well_formed() {
        Ok(
            walls_encoding(view.horizontal).unwrap() + walls_encoding(view.vertical).unwrap()
                + cells_encoding(view.cells).unwrap(),
        )
    } else {
        Err(CodecError::InvalidLength)
    }
}

/// The text that stands for a radar view.
pub open spec fn radar_encoding(view: RadarModel) -> Result<Seq<char>, CodecError> {
    match packing(view) {
        Err(e) => Err(e),
        Ok(bytes) => Ok(encoding(bytes)),
    }
}

/// A result with what it holds seen as a sequence.
pub open spec fn seq_result<T>(result: Result<Vec<T>, CodecError>) -> Result<Seq<T>, CodecError> {
    match result {
        Ok(items) => Ok(items@),
        Err(e) => Err(e),
    }
}

/// The 2-bit field that a shift of the 24-bit value brings down is the wall's
/// field of its byte.
proof fn lemma_wall_field(b0: u32, b1: u32, b2: u32, i: u32, shift: u32)
    by (bit_vector)
    requires
        b0 < 256,
        b1 < 256,
        b2 < 256,
        i < 12,
        shift + 2 * i == 22,
    ensures
        ({
            let field = ((b0 | (b1 << 8) | (b2 << 16)) >> shift) & 3;
            let b = if i / 4 == 0 {
                b2
            } else if i / 4 == 1 {
                b1
            } else {
                b0
            };
            &&& field < 4
            &&& i % 4 == 0 ==> field == b / 64
            &&& i % 4 == 1 ==> field == b / 16 % 4
            &&& i % 4 == 2 ==> field == b / 4 % 4
            &&& i % 4 == 3 ==> field == b % 4
        }),
{
}

/// Reads the first `expected_count` walls from a group of three bytes.
pub fn decode_walls(bytes: &[u8], expected_count: usize) -> (walls: Result<
    Vec<WallState>,
    CodecError,
>)
    requires
        expected_count <= 12,
    ensures
        seq_result(walls) == walls_decoding(bytes@, expected_count as int),
{
    if bytes.len() != 3 {
        return Err(CodecError::InvalidLength);
    }
    let combined: u32 = (bytes[0] as u32) | ((bytes[1] as u32) << 8) | ((bytes[2] as u32) << 16);
    let mut walls: Vec<WallState> = Vec::with_capacity(expected_count);
    let mut i: usize = 0;
    while i < expected_count
        invariant
            i <= expected_count <= 12,
            bytes@.len() == 3,
            combined == (bytes@[0] as u32) | ((bytes@[1] as u32) << 8) | ((bytes@[2] as u32)
                << 16),
            walls@.len() == i,
            forall|t: int| 0 <= t < i ==> #[trigger] wall_code(bytes@, t) != 3,
            forall|t: int|
                0 <= t < i ==> walls@[t] == WallState::of_code(wall_code(bytes@, t)).unwrap(),
        decreases expected_count - i,
    {
        let shift = 22 - i * 2;
        let two_bits = ((combined >> shift) & 0b11) as u8;
        proof {
            lemma_wall_field(
                bytes@[0] as u32,
                bytes@[1] as u32,
                bytes@[2] as u32,
                i as u32,
                shift as u32,
            );
            assert(two_bits == wall_code(bytes@, i as int));
        }
        let wall = match WallState::from_bits(two_bits) {
            Ok(wall) => wall,
            Err(e) => {
                return Err(e);
            },
        };
        walls.push(wall);
        i += 1;
    }
    assert(walls@ =~= walls_decoding(bytes@, expected_count as int).unwrap());
    Ok(walls)
}

/// Reads the nine cells from a group of five bytes.
pub fn decode_cells(bytes: &[u8]) -> (cells: Result<Vec<Cell>, CodecError>)
    ensures
        seq_result(cells) == cells_decoding(bytes@),
{
    if bytes.len() != 5 {
        return Err(CodecError::InvalidLength);
    }
    let mut cells: Vec<Cell> = Vec::with_capacity(9);
    let mut q: usize = 0;
    while q < 5
        invariant
            q <= 5,
            bytes@.len() == 5,
            cells@.len() == (if q == 5 { 9int } else { 2 * q }),
            forall|t: int|
                0 <= t < cells@.len() ==> Cell::of_code(#[trigger] cell_code(bytes@, t)) is Ok,
            forall|t: int|
                0 <= t < cells@.len() ==> cells@[t] == Cell::of_code(
                    cell_code(bytes@, t),
                ).unwrap(),
        decreases 5 - q,
    {
        let byte = bytes[q];
        let high = (byte >> 4) & 0x0F;
        let low = byte & 0x0F;
        proof {
            assert(high == byte / 16 && low == byte % 16) by (bit_vector)
                requires
                    high == (byte >> 4) & 0x0F,
                    low == byte & 0x0F,
            ;
            assert(high == cell_code(bytes@, 2 * q));
            assert(low == cell_code(bytes@, 2 * q + 1));
        }
        match Cell::from_bits(high) {
            Ok(cell) => cells.push(cell),
            Err(e) => {
                return Err(e);
            },
        }
        if cells.len() < 9 {
            match Cell::from_bits(low) {
                Ok(cell) => cells.push(cell),
                Err(e) => {
                    return Err(e);
                },
            }
        }
        q += 1;
    }
    assert(cells@ =~= cells_decoding(bytes@).unwrap());
    Ok(cells)
}

/// The outcome of decoding, with the radar view as its model.
pub open spec fn radar_result(result: Result<RadarView, CodecError>) -> Result<
    RadarModel,
    CodecError,
> {
    match result {
        Ok(view) => Ok(view@),
        Err(e) => Err(e),
    }
}

/// Reads a radar view from its text.
pub fn decode_radarview(encoded: &str) -> (radar: Result<RadarView, CodecError>)
    ensures
        radar_result(radar) == radar_decoding(encoded@),
{
    let bytes = match decode(encoded) {
        Ok(bytes) => bytes,
        Err(e) => {
            return Err(e);
        },
    };
    if bytes.len() != 11 {
        return Err(CodecError::InvalidLength);
    }
    let horizontal = match decode_walls(slice_subrange(bytes.as_slice(), 0, 3), 12) {
        Ok(walls) => walls,
        Err(e) => {
            return Err(e);
        },
    };
    let vertical = match decode_walls(slice_subrange(bytes.as_slice(), 3, 6), 12) {
        Ok(walls) => walls,
        Err(e) => {
            return Err(e);
        },
    };
    let cells = match decode_cells(slice_subrange(bytes.as_slice(), 6, 11)) {
        Ok(cells) => cells,
        Err(e) => {
            return Err(e);
        },
    };
    Ok(RadarView { horizontal, vertical, cells })
}

/// What the fields of the 24-bit value are once a wall has been shifted in.
proof fn lemma_push_wall(combined: u32, bits: u32, width: u32, at: u32)
    by (bit_vector)
    requires
        width <= 22,
        combined >> width == 0,
        bits < 4,
        at <= 20,
    ensures
        ((combined << 2) | bits) >> ((width + 2) as u32) == 0,
        ((combined << 2) | bits) & 3 == bits,
        (((combined << 2) | bits) >> ((at + 2) as u32)) & 3 == (combined >> at) & 3,
{
}

/// The three bytes of a 24-bit value, each as its four 2-bit fields.
proof fn lemma_wall_bytes(combined: u32)
    by (bit_vector)
    ensures
        combined as u8 == ((combined >> 6) & 3) * 64 + ((combined >> 4) & 3) * 16 + ((combined
            >> 2) & 3) * 4 + ((combined >> 0) & 3),
        (combined >> 8) as u8 == ((combined >> 14) & 3) * 64 + ((combined >> 12) & 3) * 16 + ((
        combined >> 10) & 3) * 4 + ((combined >> 8) & 3),
        (combined >> 16) as u8 == ((combined >> 22) & 3) * 64 + ((combined >> 20) & 3) * 16 + ((
        combined >> 18) & 3) * 4 + ((combined >> 16) & 3),
{
}

/// The outcome of encoding a part, with the bytes as a sequence.
pub open spec fn array_result<const N: usize>(result: Result<[u8; N], CodecError>) -> Result<
    Seq<u8>,
    CodecError,
> {
    match result {
        Ok(bytes) => Ok(bytes@),
        Err(e) => Err(e),
    }
}

/// Writes twelve walls as three bytes.
pub fn encode_walls(walls: &[WallState]) -> (bytes: Result<[u8; 3], CodecError>)
    ensures
        array_result(bytes) == walls_encoding(walls@),
{
    if walls.len() != 12 {
        return Err(CodecError::InvalidLength);
    }
    let mut combined: u32 = 0;
    let mut k: usize = 0;
    assert(combined >> 0 == 0) by (bit_vector)
        requires
            combined == 0,
    ;
    while k < 12
        invariant
            k <= 12,
            walls@.len() == 12,
            combined >> ((2 * k) as u32) == 0,
            forall|t: int|
                0 <= t < k ==> (combined >> ((2 * (k - 1 - t)) as u32)) & 3 == (
                #[trigger] walls@[t]).code(),
        decreases 12 - k,
    {
        let bits = walls[k].to_bits() as u32;
        proof {
            lemma_push_wall(combined, bits, (2 * k) as u32, 0);
            assert forall|t: int| 0 <= t < k implies ((((combined << 2) | bits) >> ((2 * (k
                - t)) as u32)) & 3 == (#[trigger] walls@[t]).code()) by {
                lemma_push_wall(combined, bits, (2 * k) as u32, (2 * (k - 1 - t)) as u32);
            }
            assert((((combined << 2) | bits) >> 0u32) & 3 == bits) by (bit_vector)
                requires
                    bits < 4,
            ;
        }
        combined = (combined << 2) | bits;
        k += 1;
    }
    proof {
        lemma_wall_bytes(combined);
    }
    let bytes = [combined as u8, (combined >> 8) as u8, (combined >> 16) as u8];
    Ok(bytes)
}

/// What the fields of the 40-bit value are once a cell has been shifted in.
proof fn lemma_push_cell(buffer: u64, bits: u64, width: u64, at: u64)
    by (bit_vector)
    requires
        width <= 36,
        buffer >> width == 0,
        bits < 16,
        at <= 32,
    ensures
        ((buffer << 4) | bits) >> ((width + 4) as u64) == 0,
        ((buffer << 4) | bits) & 15 == bits,
        (((buffer << 4) | bits) >> ((at + 4) as u64)) & 15 == (buffer >> at) & 15,
{
}

/// The five bytes of a 40-bit value, each as its two 4-bit fields, where the
/// value is one of 36 bits shifted up by four.
proof fn lemma_cell_bytes(buffer: u64)
    by (bit_vector)
    requires
        buffer >> 36 == 0,
    ensures
        ((buffer << 4) >> 32) as u8 == ((buffer >> 32) & 15) * 16 + ((buffer >> 28) & 15),
        ((buffer << 4) >> 24) as u8 == ((buffer >> 24) & 15) * 16 + ((buffer >> 20) & 15),
        ((buffer << 4) >> 16) as u8 == ((buffer >> 16) & 15) * 16 + ((buffer >> 12) & 15),
        ((buffer << 4) >> 8) as u8 == ((buffer >> 8) & 15) * 16 + ((buffer >> 4) & 15),
        (buffer << 4) as u8 == ((buffer >> 0) & 15) * 16,
{
}

/// Writes nine cells as five bytes.
pub fn encode_cells(cells: &[Cell]) -> (bytes: Result<[u8; 5], CodecError>)
    ensures
        array_result(bytes) == cells_encoding(cells@),
{
    if cells.len() != 9 {
        return Err(CodecError::InvalidLength);
    }
    let mut buffer: u64 = 0;
    let mut k: usize = 0;
    assert(buffer >> 0 == 0) by (bit_vector)
        requires
            buffer == 0,
    ;
    while k < 9
        invariant
            k <= 9,
            cells@.len() == 9,
            buffer >> ((4 * k) as u64) == 0,
            forall|t: int|
                0 <= t < k ==> (buffer >> ((4 * (k - 1 - t)) as u64)) & 15 == (
                #[trigger] cells@[t]).code(),
        decreases 9 - k,
    {
        let bits = cells[k].to_bits() as u64;
        proof {
            lemma_push_cell(buffer, bits, (4 * k) as u64, 0);
            assert forall|t: int| 0 <= t < k implies ((((buffer << 4) | bits) >> ((4 * (k
                - t)) as u64)) & 15 == (#[trigger] cells@[t]).code()) by {
                lemma_push_cell(buffer, bits, (4 * k) as u64, (4 * (k - 1 - t)) as u64);
            }
            assert((((buffer << 4) | bits) >> 0u64) & 15 == bits) by (bit_vector)
                requires
                    bits < 16,
            ;
        }
        buffer = (buffer << 4) | bits;
        k += 1;
    }
    proof {
        lemma_cell_bytes(buffer);
    }
    buffer <<= 4;
    let bytes = [
        (buffer >> 32) as u8,
        (buffer >> 24) as u8,
        (buffer >> 16) as u8,
        (buffer >> 8) as u8,
        buffer as u8,
    ];
    assert(bytes@ =~= cells_encoding(cells@).unwrap());
    Ok(bytes)
}

/// The outcome of encoding, with the text as a sequence of characters.
pub open spec fn text_result(result: Result<String, CodecError>) -> Result<
    Seq<char>,
    CodecError,
> {
    match result {
        Ok(text) => Ok(text@),
        Err(e) => Err(e),
    }
}

/// Writes a radar view as text. A view that does not hold twelve, twelve and
/// nine elements is refused for its length.
pub fn encode_radarview(radar: &RadarView) -> (encoded: Result<String, CodecError>)
    ensures
        text_result(encoded) == radar_encoding(radar@),
{
    let horizontal_bytes = match encode_walls(radar.horizontal.as_slice()) {
        Ok(bytes) => bytes,
        Err(e) => {
            return Err(e);
        },
    };
    let vertical_bytes = match encode_walls(radar.vertical.as_slice()) {
        Ok(bytes) => bytes,
        Err(e) => {
            return Err(e);
        },
    };
    let cell_bytes = match encode_cells(radar.cells.as_slice()) {
        Ok(bytes) => bytes,
        Err(e) => {
            return Err(e);
        },
    };
    let mut bytes: Vec<u8> = Vec::with_capacity(11);
    bytes.extend_from_slice(horizontal_bytes.as_slice());
    bytes.extend_from_slice(vertical_bytes.as_slice());
    bytes.extend_from_slice(cell_bytes.as_slice());
    assert(bytes@ =~= packing(radar@).unwrap());
    Ok(encode(bytes.as_slice()))
}

/// The 24-bit value of a group of three bytes, the least significant first.
pub open spec fn value_24(bytes: Seq<u8>) -> int {
    bytes[0] + 0x100 * bytes[1] + 0x1_0000 * bytes[2]
}

/// The `k`-th power of 4.
pub open spec fn power_of_4(k: nat) -> int
    decreases k,
{
    if k == 0 {
        1
    } else {
        4 * power_of_4((k - 1) as nat)
    }
}

/// The twelve 2-bit fields of a 24-bit value, each in its byte.
proof fn lemma_fields_of_value(b0: u32, b1: u32, b2: u32)
    by (bit_vector)
    requires
        b0 < 256,
        b1 < 256,
        b2 < 256,
    ensures
        ({
            let v = b0 + 0x100 * b1 + 0x1_0000 * b2;
            &&& v / 0x40_0000 % 4 == b2 / 64
            &&& v / 0x10_0000 % 4 == b2 / 16 % 4
            &&& v / 0x4_0000 % 4 == b2 / 4 % 4
            &&& v / 0x1_0000 % 4 == b2 % 4
            &&& v / 0x4000 % 4 == b1 / 64
            &&& v / 0x1000 % 4 == b1 / 16 % 4
            &&& v / 0x400 % 4 == b1 / 4 % 4
            &&& v / 0x100 % 4 == b1 % 4
            &&& v / 0x40 % 4 == b0 / 64
            &&& v / 0x10 % 4 == b0 / 16 % 4
            &&& v / 0x4 % 4 == b0 / 4 % 4
            &&& v / 0x1 % 4 == b0 % 4
        }),
{
}

/// The walls are the 2-bit fields of the 24-bit value of their group, from the
/// most significant down: wall `i` lies at the bits `22 - 2 * i` and above.
pub proof fn lemma_wall_code_is_field(bytes: Seq<u8>, i: int)
    requires
        bytes.len() == 3,
        0 <= i < 12,
    ensures
        wall_code(bytes, i) == value_24(bytes) / power_of_4((11 - i) as nat) % 4,
{
    reveal_with_fuel(power_of_4, 12);
    lemma_fields_of_value(bytes[0] as u32, bytes[1] as u32, bytes[2] as u32);
}

/// A state and its 2-bit value determine each other, and so do a cell and its
/// 4-bit value.
pub proof fn lemma_codes(state: WallState, cell: Cell)
    ensures
        0 <= state.code() < 3,
        WallState::of_code(state.code()) == Ok::<WallState, CodecError>(state),
        0 <= cell.code() < 16,
        Cell::of_code(cell.code()) == Ok::<Cell, CodecError>(cell),
{
}

/// The group of bytes written for twelve walls holds the value of each.
proof fn lemma_wall_code_written(walls: Seq<WallState>, q: int, r: int)
    requires
        walls.len() == 12,
        0 <= q < 3,
        0 <= r < 4,
    ensures
        wall_code(walls_encoding(walls).unwrap(), 4 * q + r) == walls[4 * q + r].code(),
{
    let k = 4 * q;
    lemma_codes(walls[k], Cell::Invalid);
    lemma_codes(walls[k + 1], Cell::Invalid);
    lemma_codes(walls[k + 3], Cell::Invalid);
    let bytes = walls_encoding(walls).unwrap();
    assert(bytes[2 - q] == wall_byte(walls, k));
}

/// Reading undoes writing for a group of twelve walls.
pub proof fn lemma_walls_round_trip(walls: Seq<WallState>)
    requires
        walls.len() == 12,
    ensures
        walls_decoding(walls_encoding(walls).unwrap(), 12) == Ok::<Seq<WallState>, CodecError>(
            walls,
        ),
{
    let bytes = walls_encoding(walls).unwrap();
    assert forall|i: int| 0 <= i < 12 implies #[trigger] wall_code(bytes, i) != 3
        && WallState::of_code(wall_code(bytes, i)).unwrap() == walls[i] by {
        lemma_wall_code_written(walls, i / 4, i % 4);
    }
    assert(walls_decoding(bytes, 12).unwrap() =~= walls);
}

/// The group of bytes written for nine cells holds the value of each.
proof fn lemma_cell_code_written(cells: Seq<Cell>, q: int, r: int)
    requires
        cells.len() == 9,
        0 <= q < 5,
        0 <= r < 2,
        2 * q + r < 9,
    ensures
        cell_code(cells_encoding(cells).unwrap(), 2 * q + r) == cells[2 * q + r].code(),
{
}

/// Reading undoes writing for a group of nine cells.
pub proof fn lemma_cells_round_trip(cells: Seq<Cell>)
    requires
        cells.len() == 9,
    ensures
        cells_decoding(cells_encoding(cells).unwrap()) == Ok::<Seq<Cell>, CodecError>(cells),
{
    let bytes = cells_encoding(cells).unwrap();
    assert forall|i: int| 0 <= i < 9 implies Cell::of_code(#[trigger] cell_code(bytes, i)) is Ok
        && Cell::of_code(cell_code(bytes, i)).unwrap() == cells[i] by {
        lemma_cell_code_written(cells, i / 2, i % 2);
        lemma_codes(WallState::Open, cells[i]);
    }
    assert(cells_decoding(bytes).unwrap() =~= cells);
}

/// Unpacking undoes packing.
pub proof fn lemma_unpack_pack(view: RadarModel)
    requires
        view.well_formed(),
    ensures
        unpacking(packing(view).unwrap()) == Ok::<RadarModel, CodecError>(view),
{
    let bytes = packing(view).unwrap();
    assert(bytes.subrange(0, 3) =~= walls_encoding(view.horizontal).unwrap());
    assert(bytes.subrange(3, 6) =~= walls_encoding(view.vertical).unwrap());
    assert(bytes.subrange(6, 11) =~= cells_encoding(view.cells).unwrap());
    lemma_walls_round_trip(view.horizontal);
    lemma_walls_round_trip(view.vertical);
    lemma_cells_round_trip(view.cells);
}

/// Round trip: a radar view of twelve, twelve and nine elements is read back,
/// unchanged, from the text written for it.
pub proof fn lemma_decode_encode_radarview(view: RadarModel)
    requires
        view.well_formed(),
    ensures
        radar_encoding(view) matches Ok(text) && radar_decoding(text) == Ok::<
            RadarModel,
            CodecError,
        >(view),
{
    lemma_decode_encode(packing(view).unwrap());
    lemma_unpack_pack(view);
}

/// The bits of eleven bytes that belong to no wall and no cell: the low half of
/// the last byte.
pub open spec fn spare_bits(bytes: Seq<u8>) -> int {
    bytes[10] as int % 16
}

/// The byte written for the walls read from byte `2 - q` of a group is that byte.
proof fn lemma_wall_byte_written_back(bytes: Seq<u8>, q: int)
    requires
        walls_decoding(bytes, 12) is Ok,
        0 <= q < 3,
    ensures
        wall_byte(walls_decoding(bytes, 12).unwrap(), 4 * q) == bytes[2 - q],
{
    let k = 4 * q;
}

/// Writing undoes reading for a group that holds twelve walls.
proof fn lemma_walls_written_back(bytes: Seq<u8>)
    requires
        walls_decoding(bytes, 12) is Ok,
    ensures
        walls_encoding(walls_decoding(bytes, 12).unwrap()) == Ok::<Seq<u8>, CodecError>(bytes),
{
    let walls = walls_decoding(bytes, 12).unwrap();
    let again = walls_encoding(walls).unwrap();
    lemma_wall_byte_written_back(bytes, 0);
    lemma_wall_byte_written_back(bytes, 1);
    assert(again =~= bytes);
}

/// Writing undoes reading for a group that holds nine cells, but for the low
/// half of its last byte, which is written as zero.
proof fn lemma_cells_written_back(bytes: Seq<u8>)
    requires
        cells_decoding(bytes) is Ok,
    ensures
        cells_encoding(cells_decoding(bytes).unwrap()) is Ok,
        cells_encoding(cells_decoding(bytes).unwrap()).unwrap().len() == 5,
        forall|q: int|
            0 <= q < 4 ==> cells_encoding(cells_decoding(bytes).unwrap()).unwrap()[q]
                == bytes[q],
        cells_encoding(cells_decoding(bytes).unwrap()).unwrap()[4] == bytes[4] - bytes[4] % 16,
{
}

/// Packing undoes unpacking exactly where the spare bits are zero.
pub proof fn lemma_pack_unpack(bytes: Seq<u8>)
    requires
        unpacking(bytes) is Ok,
    ensures
        unpacking(bytes).unwrap().well_formed(),
        packing(unpacking(bytes).unwrap()) == Ok::<Seq<u8>, CodecError>(bytes) <==> spare_bits(
            bytes,
        ) == 0,
{
    let view = unpacking(bytes).unwrap();
    lemma_walls_written_back(bytes.subrange(0, 3));
    lemma_walls_written_back(bytes.subrange(3, 6));
    lemma_cells_written_back(bytes.subrange(6, 11));
    let again = packing(view).unwrap();
    if spare_bits(bytes) == 0 {
        assert(again =~= bytes);
    } else {
    }
}

/// Canonical texts: a text that decodes to a radar view is written back
/// unchanged for that view if and only if the bits that belong to no wall and no
/// cell are zero, in its last symbol and in the last byte it stands for.
pub proof fn lemma_encode_decode_radarview(text: Seq<char>)
    requires
        radar_decoding(text) is Ok,
    ensures
        radar_encoding(radar_decoding(text).unwrap()) == Ok::<Seq<char>, CodecError>(text) <==> (
        canonical(text) && spare_bits(decoding(text).unwrap()) == 0),
{
    let bytes = decoding(text).unwrap();
    let view = unpacking(bytes).unwrap();
    lemma_pack_unpack(bytes);
    let again = packing(view).unwrap();
    lemma_encode_decode(text);
    lemma_decode_encode(again);
}

/// A text is refused for its length wherever the bytes that it stands for are
/// not eleven, and with the error of the byte decoding where it stands for none.
pub proof fn lemma_wrong_length_is_rejected(text: Seq<char>)
    ensures
        decoding(text) matches Ok(bytes) && bytes.len() != 11 ==> radar_decoding(text) == Err::<
            RadarModel,
            CodecError,
        >(CodecError::InvalidLength),
        decoding(text) matches Err(e) ==> radar_decoding(text) == Err::<RadarModel, CodecError>(e),
{
}

/// A text of eleven bytes in which a horizontal or a vertical wall has the value
/// 3 is refused for that wall, whatever else it holds.
pub proof fn lemma_wall_value_3_is_rejected(text: Seq<char>, i: int)
    requires
        decoding(text) matches Ok(bytes) && bytes.len() == 11 && (wall_code(
            bytes.subrange(0, 3),
            i,
        ) == 3 || wall_code(bytes.subrange(3, 6), i) == 3),
        0 <= i < 12,
    ensures
        radar_decoding(text) == Err::<RadarModel, CodecError>(CodecError::InvalidWallState),
{
}

/// The 4-bit value `1111` is the cell out of sight and never an error: where it
/// stands in a text of eleven bytes whose walls are valid, the text is refused
/// only for another cell, and the view of a text that decodes has `Invalid`
/// there.
pub proof fn lemma_cell_value_15_is_invalid(text: Seq<char>, i: int)
    requires
        decoding(text) matches Ok(bytes) && bytes.len() == 11 && cell_code(
            bytes.subrange(6, 11),
            i,
        ) == 15,
        0 <= i < 9,
    ensures
        Cell::of_code(15) == Ok::<Cell, CodecError>(Cell::Invalid),
        radar_decoding(text) matches Ok(view) ==> view.cells[i] == Cell::Invalid,
        radar_decoding(text) == Err::<RadarModel, CodecError>(CodecError::InvalidElement)
            ==> exists|j: int|
            0 <= j < 9 && j != i && Cell::of_code(
                #[trigger] cell_code(decoding(text).unwrap().subrange(6, 11), j),
            ) is Err,
{
}

} // verus!
