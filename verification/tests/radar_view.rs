use maze_game::errors::CodecError;
use maze_game::radar_view::WallState::{Open, Undefined, Wall};
use maze_game::radar_view::{
    decode_cells, decode_radarview, decode_walls, encode_cells, encode_radarview, encode_walls,
    Cell, Element, Entity, RadarView, WallState,
};

#[test]
fn test_decode_encode() {
    let encoded = "ieysGjGO8papd/a";
    let radar = decode_radarview(encoded).unwrap();
    let re_encoded = encode_radarview(&radar).unwrap();

    println!("{:?}", radar);
    assert_eq!(encoded, re_encoded);
}

fn free() -> Cell {
    Cell::Valid { element: Element::Nothing, entity: Entity::Nobody }
}

#[test]
fn decode_reads_walls_and_cells_of_the_sample() {
    let radar = decode_radarview("ieysGjGO8papd/a").unwrap();
    assert_eq!(
        radar.horizontal,
        vec![
            Undefined, Open, Undefined, Wall, Open, Undefined, Open, Wall, Undefined, Wall,
            Undefined, Undefined
        ]
    );
    assert_eq!(
        radar.vertical,
        vec![
            Undefined, Wall, Wall, Undefined, Wall, Open, Wall, Undefined, Wall, Undefined,
            Undefined, Undefined
        ]
    );
    assert_eq!(
        radar.cells,
        vec![
            Cell::Invalid,
            free(),
            Cell::Invalid,
            free(),
            free(),
            Cell::Invalid,
            free(),
            Cell::Invalid,
            Cell::Invalid
        ]
    );
}

#[test]
fn wall_bits_are_0_1_2_and_3_is_refused() {
    assert_eq!(WallState::from_bits(0), Ok(WallState::Undefined));
    assert_eq!(WallState::from_bits(1), Ok(WallState::Open));
    assert_eq!(WallState::from_bits(2), Ok(WallState::Wall));
    assert_eq!(WallState::from_bits(3), Err(CodecError::InvalidWallState));
    assert_eq!(WallState::from_bits(200), Err(CodecError::InvalidWallState));
    assert_eq!(WallState::Undefined.to_bits(), 0);
    assert_eq!(WallState::Open.to_bits(), 1);
    assert_eq!(WallState::Wall.to_bits(), 2);
}

#[test]
fn cell_bits_hold_the_element_above_the_entity() {
    assert_eq!(Cell::from_bits(0b0000), Ok(free()));
    assert_eq!(
        Cell::from_bits(0b0110),
        Ok(Cell::Valid { element: Element::Clue, entity: Entity::Enemy })
    );
    assert_eq!(
        Cell::from_bits(0b1001),
        Ok(Cell::Valid { element: Element::Target, entity: Entity::Ally })
    );
    assert_eq!(
        Cell::from_bits(0b1011),
        Ok(Cell::Valid { element: Element::Target, entity: Entity::Monster })
    );
    assert_eq!(Cell::Valid { element: Element::Clue, entity: Entity::Enemy }.to_bits(), 0b0110);
    assert_eq!(Cell::Valid { element: Element::Target, entity: Entity::Monster }.to_bits(), 0b1011);
    assert_eq!(Cell::Invalid.to_bits(), 0b1111);
}

#[test]
fn cell_bits_1111_are_invalid_and_never_an_error() {
    assert_eq!(Cell::from_bits(0b1111), Ok(Cell::Invalid));
}

#[test]
fn cell_bits_with_element_3_are_refused() {
    assert_eq!(Cell::from_bits(0b1100), Err(CodecError::InvalidElement));
    assert_eq!(Cell::from_bits(0b1101), Err(CodecError::InvalidElement));
    assert_eq!(Cell::from_bits(0b1110), Err(CodecError::InvalidElement));
}

#[test]
fn every_cell_comes_back_from_its_bits() {
    let elements = [Element::Nothing, Element::Clue, Element::Target];
    let entities = [Entity::Nobody, Entity::Ally, Entity::Enemy, Entity::Monster];
    for element in elements {
        for entity in entities {
            let cell = Cell::Valid { element, entity };
            assert_eq!(Cell::from_bits(cell.to_bits()), Ok(cell));
            assert!(cell.to_bits() < 12);
        }
    }
    assert_eq!(Cell::from_bits(Cell::Invalid.to_bits()), Ok(Cell::Invalid));
}

#[test]
fn walls_are_packed_most_significant_pair_first_least_significant_byte_first() {
    // Wall 0 in the two highest bits of the third byte, wall 11 in the two
    // lowest bits of the first byte.
    let mut walls = vec![Undefined; 12];
    walls[0] = Wall;
    walls[11] = Open;
    assert_eq!(encode_walls(&walls), Ok([0b0000_0001, 0, 0b1000_0000]));
    assert_eq!(decode_walls(&[0b0000_0001, 0, 0b1000_0000], 12), Ok(walls));
    assert_eq!(
        decode_walls(&[0x20, 0x46, 0x12], 12),
        Ok(vec![
            Undefined, Open, Undefined, Wall, Open, Undefined, Open, Wall, Undefined, Wall,
            Undefined, Undefined
        ])
    );
}

#[test]
fn decode_walls_reads_only_the_walls_asked_for() {
    // The last wall has the value 3; the first eleven are read without it.
    assert_eq!(decode_walls(&[0b0000_0011, 0, 0], 11), Ok(vec![WallState::Undefined; 11]));
    assert_eq!(decode_walls(&[0b0000_0011, 0, 0], 12), Err(CodecError::InvalidWallState));
    assert_eq!(decode_walls(&[0, 0, 0], 0), Ok(vec![]));
}

#[test]
fn decode_walls_refuses_other_lengths_than_three() {
    assert_eq!(decode_walls(&[0, 0], 12), Err(CodecError::InvalidLength));
    assert_eq!(decode_walls(&[0, 0, 0, 0], 12), Err(CodecError::InvalidLength));
}

#[test]
fn cells_are_packed_high_half_first() {
    let cells = vec![
        Cell::Valid { element: Element::Clue, entity: Entity::Ally },
        Cell::Invalid,
        free(),
        free(),
        free(),
        free(),
        free(),
        free(),
        Cell::Valid { element: Element::Target, entity: Entity::Monster },
    ];
    assert_eq!(encode_cells(&cells), Ok([0x5F, 0, 0, 0, 0xB0]));
    assert_eq!(decode_cells(&[0x5F, 0, 0, 0, 0xB0]), Ok(cells));
}

#[test]
fn decode_cells_does_not_look_at_the_spare_half_byte() {
    let nine_free = vec![free(); 9];
    assert_eq!(decode_cells(&[0, 0, 0, 0, 0x00]), Ok(nine_free.clone()));
    assert_eq!(decode_cells(&[0, 0, 0, 0, 0x05]), Ok(nine_free.clone()));
    assert_eq!(decode_cells(&[0, 0, 0, 0, 0x0C]), Ok(nine_free.clone()));
    assert_eq!(decode_cells(&[0, 0, 0, 0, 0x0F]), Ok(nine_free));
}

#[test]
fn decode_cells_refuses_a_cell_without_element() {
    assert_eq!(decode_cells(&[0xC0, 0, 0, 0, 0]), Err(CodecError::InvalidElement));
    assert_eq!(decode_cells(&[0, 0x0D, 0, 0, 0]), Err(CodecError::InvalidElement));
    assert_eq!(decode_cells(&[0, 0, 0, 0, 0xE0]), Err(CodecError::InvalidElement));
}

#[test]
fn decode_cells_refuses_other_lengths_than_five() {
    assert_eq!(decode_cells(&[0, 0, 0, 0]), Err(CodecError::InvalidLength));
    assert_eq!(decode_cells(&[0, 0, 0, 0, 0, 0]), Err(CodecError::InvalidLength));
}

#[test]
fn encode_refuses_views_of_other_sizes() {
    let good = RadarView {
        horizontal: vec![WallState::Open; 12],
        vertical: vec![WallState::Wall; 12],
        cells: vec![free(); 9],
    };
    assert!(encode_radarview(&good).is_ok());
    let short_walls = RadarView {
        horizontal: vec![WallState::Open; 11],
        vertical: vec![WallState::Wall; 12],
        cells: vec![free(); 9],
    };
    assert_eq!(encode_radarview(&short_walls), Err(CodecError::InvalidLength));
    let long_walls = RadarView {
        horizontal: vec![WallState::Open; 12],
        vertical: vec![WallState::Wall; 13],
        cells: vec![free(); 9],
    };
    assert_eq!(encode_radarview(&long_walls), Err(CodecError::InvalidLength));
    let ten_cells = RadarView {
        horizontal: vec![WallState::Open; 12],
        vertical: vec![WallState::Wall; 12],
        cells: vec![free(); 10],
    };
    assert_eq!(encode_radarview(&ten_cells), Err(CodecError::InvalidLength));
    assert_eq!(encode_walls(&[WallState::Open; 3]), Err(CodecError::InvalidLength));
    assert_eq!(encode_cells(&[Cell::Invalid; 8]), Err(CodecError::InvalidLength));
}

#[test]
fn encoded_view_has_fifteen_characters() {
    let view = RadarView {
        horizontal: vec![WallState::Open; 12],
        vertical: vec![WallState::Wall; 12],
        cells: vec![Cell::Invalid; 9],
    };
    // Bytes 55 55 55 aa aa aa ff ff ff ff f0.
    assert_eq!(encode_radarview(&view).unwrap(), "vvvvQQQQ//////a");
    assert_eq!(encode_radarview(&view).unwrap().len(), 15);
}

#[test]
fn decode_undoes_encode() {
    let view = RadarView {
        horizontal: vec![
            Wall, Open, Undefined, Wall, Wall, Open, Open, Undefined, Wall, Undefined, Open, Wall,
        ],
        vertical: vec![
            Open, Open, Wall, Undefined, Undefined, Wall, Open, Wall, Wall, Wall, Undefined, Open,
        ],
        cells: vec![
            Cell::Valid { element: Element::Nothing, entity: Entity::Ally },
            Cell::Valid { element: Element::Clue, entity: Entity::Nobody },
            Cell::Invalid,
            Cell::Valid { element: Element::Target, entity: Entity::Enemy },
            free(),
            Cell::Valid { element: Element::Clue, entity: Entity::Monster },
            Cell::Invalid,
            Cell::Valid { element: Element::Target, entity: Entity::Nobody },
            Cell::Valid { element: Element::Nothing, entity: Entity::Monster },
        ],
    };
    let text = encode_radarview(&view).unwrap();
    assert_eq!(decode_radarview(&text), Ok(view));
}

#[test]
fn decode_refuses_text_of_other_lengths_than_eleven_bytes() {
    // Ten bytes, twelve bytes, no byte.
    assert_eq!(decode_radarview("ieysGjGO8papd/"), Err(CodecError::InvalidLength));
    assert_eq!(decode_radarview("ieysGjGO8papd/aa"), Err(CodecError::InvalidLength));
    assert_eq!(decode_radarview(""), Err(CodecError::InvalidLength));
    // Thirteen characters: refused by the byte decoding, for its own length.
    assert_eq!(decode_radarview("ieysGjGO8papd"), Err(CodecError::InvalidLength));
}

#[test]
fn decode_refuses_text_outside_the_alphabet() {
    assert_eq!(decode_radarview("ieysGjGO8papd=a"), Err(CodecError::InvalidCharacter));
}

#[test]
fn decode_refuses_a_wall_of_value_3() {
    // The first character holds the six highest bits of byte 0: walls 8, 9, 10.
    // '/' is 63, so wall 8 has the value 3.
    assert_eq!(decode_radarview("/eysGjGO8papd/a"), Err(CodecError::InvalidWallState));
    // A vertical wall of value 3, with valid horizontal walls: byte 5 is 0xC0.
    let text = maze_game::base64::encode(&[0, 0, 0, 0, 0, 0xC0, 0, 0, 0, 0, 0]);
    assert_eq!(decode_radarview(&text), Err(CodecError::InvalidWallState));
}

#[test]
fn decode_reports_a_wall_before_a_cell() {
    let text = maze_game::base64::encode(&[3, 0, 0, 0, 0, 0, 0xC0, 0, 0, 0, 0]);
    assert_eq!(decode_radarview(&text), Err(CodecError::InvalidWallState));
    let text = maze_game::base64::encode(&[0, 0, 0, 0, 0, 0, 0xC0, 0, 0, 0, 0]);
    assert_eq!(decode_radarview(&text), Err(CodecError::InvalidElement));
}

#[test]
fn decode_reads_all_cells_invalid() {
    let text = maze_game::base64::encode(&[0, 0, 0, 0, 0, 0, 0xFF, 0xFF, 0xFF, 0xFF, 0xF0]);
    let radar = decode_radarview(&text).unwrap();
    assert_eq!(radar.cells, vec![Cell::Invalid; 9]);
}

#[test]
fn text_with_spare_bits_decodes_but_is_not_written_back() {
    // The last symbol 'b' has a leftover bit; the view is that of the sample.
    let sample = decode_radarview("ieysGjGO8papd/a").unwrap();
    let radar = decode_radarview("ieysGjGO8papd/b").unwrap();
    assert_eq!(radar, sample);
    assert_eq!(encode_radarview(&radar).unwrap(), "ieysGjGO8papd/a");
    // The low half of the last byte is 4: the bytes differ, the view does not.
    let text = maze_game::base64::encode(&[
        0x20, 0x46, 0x12, 0x80, 0x98, 0x28, 0xF0, 0xF0, 0x0F, 0x0F, 0xF4,
    ]);
    assert_ne!(text, "ieysGjGO8papd/a");
    let radar = decode_radarview(&text).unwrap();
    assert_eq!(radar, sample);
    assert_eq!(encode_radarview(&radar).unwrap(), "ieysGjGO8papd/a");
}
