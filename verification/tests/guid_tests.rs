use casc::guid::Guid;

#[test]
fn to_raw_packs_the_fields() {
    let g = Guid { engine: 1, type_: 2, platform: 3, region: 4, locale: 5, index: 0x123 };
    // type 2 stores as 1 << 4, bit-reversed into 0x800 in the twelve-bit
    // field.
    assert_eq!(g.to_raw(), 0x1800_3205_0000_0123);
}

#[test]
fn from_unpacks_the_fields() {
    let g = Guid::from(0x1800_3205_0000_0123u64);
    assert_eq!(g.engine, 1);
    assert_eq!(g.type_, 2);
    assert_eq!(g.platform, 3);
    assert_eq!(g.region, 4);
    assert_eq!(g.locale, 5);
    assert_eq!(g.index, 0x123);
}

#[test]
fn packing_round_trips() {
    let g = Guid { engine: 0xF, type_: 0x1000, platform: 0xF, region: 0x1F, locale: 0x1F,
        index: 0xFFFF_FFFF };
    assert_eq!(Guid::from(g.to_raw()), g);
    let g = Guid { engine: 0, type_: 1, platform: 0, region: 0, locale: 0, index: 0 };
    assert_eq!(Guid::from(g.to_raw()), g);
}

#[test]
fn fields_beyond_their_width_are_masked() {
    let wide = Guid { engine: 0xFF, type_: 1, platform: 0xFF, region: 0xFF, locale: 0xFF,
        index: 1 };
    let narrow = Guid { engine: 0xF, type_: 1, platform: 0xF, region: 0x1F, locale: 0x1F,
        index: 1 };
    assert_eq!(wide.to_raw(), narrow.to_raw());
}
