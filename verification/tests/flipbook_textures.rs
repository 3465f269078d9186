use sprinkles_editor::flipbook_textures::{
    flipbook_embeds_code, flipbook_list_code, flipbook_textures, is_texture_file_name,
    parse_grid_size, stem_to_display_name, texture_entry_of, FlipbookTexture,
};

#[test]
fn display_name_capitalizes_words() {
    assert_eq!(stem_to_display_name("fire_burst-8x4"), "Fire Burst 8x4");
    assert_eq!(stem_to_display_name("explosion"), "Explosion");
}

#[test]
fn display_name_keeps_empty_words() {
    assert_eq!(stem_to_display_name("a__b"), "A  B");
    assert_eq!(stem_to_display_name(""), "");
    assert_eq!(stem_to_display_name("_x"), " X");
}

#[test]
fn display_name_uses_unicode_uppercase() {
    assert_eq!(stem_to_display_name("ßig_écho"), "SSig Écho");
}

#[test]
fn grid_size_from_suffix() {
    assert_eq!(parse_grid_size("smoke_4x8"), (4, 8));
    assert_eq!(parse_grid_size("fire_burst_8x4"), (8, 4));
    assert_eq!(parse_grid_size("a_+3x+2"), (3, 2));
    assert_eq!(parse_grid_size("a_007x1"), (7, 1));
}

#[test]
fn grid_size_falls_back_to_one_cell() {
    assert_eq!(parse_grid_size("smoke"), (1, 1));
    assert_eq!(parse_grid_size("smoke_big"), (1, 1));
    assert_eq!(parse_grid_size("smoke_0x4"), (1, 1));
    assert_eq!(parse_grid_size("smoke_4x0"), (1, 1));
    assert_eq!(parse_grid_size("smoke_4x"), (1, 1));
    assert_eq!(parse_grid_size("smoke_x4"), (1, 1));
    assert_eq!(parse_grid_size("smoke_-4x4"), (1, 1));
    assert_eq!(parse_grid_size("smoke_4x4x4"), (1, 1));
    assert_eq!(parse_grid_size("smoke_4294967296x2"), (1, 1));
    assert_eq!(parse_grid_size("smoke_4294967295x2"), (4294967295, 2));
    assert_eq!(parse_grid_size("4x4"), (1, 1));
}

#[test]
fn texture_extensions() {
    assert!(is_texture_file_name("a.png"));
    assert!(is_texture_file_name("a.PNG"));
    assert!(is_texture_file_name("a.b.TgA"));
    assert!(!is_texture_file_name("a.jpg"));
    assert!(!is_texture_file_name(".png"));
    assert!(!is_texture_file_name("png"));
    assert!(!is_texture_file_name("a.png.txt"));
}

#[test]
fn texture_entry_fields() {
    let t = texture_entry_of("fire_burst_8x4.png");
    assert_eq!(t.file_name, "fire_burst_8x4.png");
    assert_eq!(t.display_name, "Fire Burst 8x4");
    assert_eq!(t.relative_path, "assets/brackeys_vfx_bundle/flipbooks/fire_burst_8x4.png");
    assert_eq!((t.columns, t.rows), (8, 4));
}

#[test]
fn catalogue_is_filtered_and_sorted() {
    let names = vec![
        "smoke_2x2.tga".to_string(),
        "notes.txt".to_string(),
        "Blast_4x4.png".to_string(),
        "arc.png".to_string(),
    ];
    let entries = flipbook_textures(&names);
    let paths: Vec<&str> = entries.iter().map(|e| e.relative_path.as_str()).collect();
    assert_eq!(
        paths,
        vec![
            "assets/brackeys_vfx_bundle/flipbooks/Blast_4x4.png",
            "assets/brackeys_vfx_bundle/flipbooks/arc.png",
            "assets/brackeys_vfx_bundle/flipbooks/smoke_2x2.tga",
        ]
    );
    assert_eq!(entries[0].display_name, "Blast 4x4");
    assert_eq!(entries[1].file_name, "arc.png");
    assert_eq!((entries[2].columns, entries[2].rows), (2, 2));
}

#[test]
fn catalogue_order_does_not_depend_on_listing() {
    let a = flipbook_textures(&vec!["b.png".to_string(), "a.png".to_string()]);
    let b = flipbook_textures(&vec!["a.png".to_string(), "b.png".to_string()]);
    let pa: Vec<String> = a.iter().map(|e| e.relative_path.clone()).collect();
    let pb: Vec<String> = b.iter().map(|e| e.relative_path.clone()).collect();
    assert_eq!(pa, pb);
}

fn entry(display: &str, path: &str, columns: u32, rows: u32) -> FlipbookTexture {
    FlipbookTexture {
        file_name: path.rsplit('/').next().unwrap().to_string(),
        display_name: display.to_string(),
        relative_path: path.to_string(),
        columns,
        rows,
    }
}

#[test]
fn list_code_text() {
    let code = flipbook_list_code(&vec![entry("Smoke 4x8", "assets/x/smoke_4x8.png", 4, 8)]);
    let expected = "/// Flipbook sprite-sheet textures from the Brackeys VFX Bundle, as `(display_name, embedded_path, columns, rows)` tuples.\npub const FLIPBOOK_TEXTURES: &[(&str, &str, u32, u32)] = &[\n    (\"Smoke 4x8\", \"embedded://bevy_sprinkles/textures/assets/x/smoke_4x8.png\", 4, 8),\n];\n";
    assert_eq!(code, expected);
}

#[test]
fn list_code_empty() {
    let code = flipbook_list_code(&vec![]);
    assert!(code.ends_with("= &[\n];\n"));
}

#[test]
fn embeds_code_text() {
    let code = flipbook_embeds_code(&vec![entry("A", "p/a.png", 1, 1)]);
    let expected = "{\n    let embedded = app.world_mut().resource_mut::<bevy::asset::io::embedded::EmbeddedAssetRegistry>();\n    embedded.insert_asset(\n        std::path::PathBuf::from(concat!(env!(\"CARGO_MANIFEST_DIR\"), \"/src/textures/p/a.png\")),\n        std::path::Path::new(\"bevy_sprinkles/textures/p/a.png\"),\n        include_bytes!(concat!(env!(\"CARGO_MANIFEST_DIR\"), \"/src/textures/p/a.png\")),\n    );\n}\n";
    assert_eq!(code, expected);
}

#[test]
fn large_numbers_in_list_code() {
    let code = flipbook_list_code(&vec![entry("X", "x", 4294967295, 10)]);
    assert!(code.contains("\"embedded://bevy_sprinkles/textures/x\", 4294967295, 10),\n"));
}
