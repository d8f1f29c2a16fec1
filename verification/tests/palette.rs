use attractors::palette::{palette_by_name, PaletteName};

#[test]
fn palette_by_name_known_names() {
    assert_eq!(palette_by_name("dusk"), Ok(PaletteName::Dusk));
    assert_eq!(palette_by_name("ember"), Ok(PaletteName::Ember));
    assert_eq!(palette_by_name("aurora"), Ok(PaletteName::Aurora));
}

#[test]
fn palette_by_name_ignores_ascii_case() {
    assert_eq!(palette_by_name("DUSK"), Ok(PaletteName::Dusk));
    assert_eq!(palette_by_name("Ember"), Ok(PaletteName::Ember));
    assert_eq!(palette_by_name("aUrOrA"), Ok(PaletteName::Aurora));
}

#[test]
fn palette_by_name_unknown_lists_the_palettes() {
    assert_eq!(
        palette_by_name("sunset"),
        Err("unknown palette \"sunset\"; available palettes: dusk, ember, aurora".to_string())
    );
    assert_eq!(
        palette_by_name("say \"hi\""),
        Err("unknown palette \"say \\\"hi\\\"\"; available palettes: dusk, ember, aurora"
            .to_string())
    );
    assert!(palette_by_name("").is_err());
    assert!(palette_by_name("dusk ").is_err());
}
