use multiplayer_fps_v3::display::textures::{Color, TextureMap, TextureType};

#[test]
fn registered_codes_are_found() {
    let mut textures: TextureMap<String> = TextureMap::new();
    assert!(textures.get(4).is_none());
    assert!(!textures.contains(4));
    assert_eq!(textures.add_color(4, Color { r: 9, g: 8, b: 7, a: 6 }), Ok(()));
    assert_eq!(textures.add_texture(5, String::from("bricks")), Ok(()));
    assert!(textures.contains(4));
    match textures.get(4) {
        Some(TextureType::Color(c)) => assert_eq!(*c, Color { r: 9, g: 8, b: 7, a: 6 }),
        _ => panic!("code 4 is a color"),
    }
    match textures.get(5) {
        Some(TextureType::Texture(t)) => assert_eq!(t, "bricks"),
        _ => panic!("code 5 is a texture"),
    }
    assert!(textures.get(6).is_none());
}

#[test]
fn taken_code_keeps_what_it_stands_for() {
    let mut textures: TextureMap<u32> = TextureMap::new();
    let red = Color { r: 255, g: 0, b: 10, a: 100 };
    textures.add_color(200, red).unwrap();
    textures.add_texture(7, 1).unwrap();
    assert_eq!(
        textures.add_color(200, Color { r: 1, g: 1, b: 1, a: 1 }),
        Err(String::from("the code 200 is already used for the color Color { r: 255, g: 0, b: 10, a: 100 }"))
    );
    assert_eq!(
        textures.add_texture(200, 2),
        Err(format!("the code {} is already used for the color {:?}", 200, red))
    );
    assert_eq!(
        textures.add_color(7, red),
        Err(String::from("the code 7 is already used for a texture"))
    );
    assert_eq!(
        textures.add_texture(7, 3),
        Err(String::from("the code 7 is already used for a texute"))
    );
    match textures.get(200) {
        Some(TextureType::Color(c)) => assert_eq!(*c, red),
        _ => panic!("code 200 is still the first color"),
    }
    match textures.get(7) {
        Some(TextureType::Texture(t)) => assert_eq!(*t, 1),
        _ => panic!("code 7 is still the first texture"),
    }
}

#[test]
fn every_code_is_spelled_in_decimal() {
    for code in [0u8, 9, 10, 99, 100, 101, 255] {
        let mut textures: TextureMap<u32> = TextureMap::new();
        textures.add_texture(code, 0).unwrap();
        assert_eq!(
            textures.add_color(code, Color { r: 0, g: 0, b: 0, a: 0 }),
            Err(format!("the code {} is already used for a texture", code))
        );
    }
}

#[test]
fn clones_hold_the_same_codes() {
    let mut textures: TextureMap<u32> = TextureMap::new();
    textures.add_texture(1, 11).unwrap();
    let copy = textures.clone();
    textures.add_texture(2, 22).unwrap();
    assert!(copy.contains(1));
    assert!(!copy.contains(2));
    let kind = TextureType::<u32>::Color(Color { r: 1, g: 2, b: 3, a: 4 });
    match kind.clone() {
        TextureType::Color(c) => assert_eq!(c, Color { r: 1, g: 2, b: 3, a: 4 }),
        TextureType::Texture(_) => panic!("a color stays a color"),
    }
}
