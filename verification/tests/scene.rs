use sundile_assets::error::AssetError;
use sundile_assets::scene::{default_scene, SceneBuilder};
use sundile_assets::texture_atlas::{SpriteSheet, TextureAtlasBuilder, TextureSize};
use sundile_assets::type_map::{AssetTypeMap, AssetTypeMapFns};

const MODEL: u64 = 11;
const TEXT: u64 = 12;

fn registry() -> AssetTypeMap<Vec<u32>> {
    let mut assets = AssetTypeMap::new();
    assets.try_insert_asset("models", MODEL, "cube", vec![1]).unwrap();
    assets
}

#[test]
fn sprite_sheet_new_keeps_lengths() {
    let sheet = SpriteSheet::new(16, 32, 1, 2, 3, 4);
    assert_eq!(sheet.sprite_width, 16);
    assert_eq!(sheet.sprite_height, 32);
    assert_eq!(sheet.separation_x, 1);
    assert_eq!(sheet.separation_y, 2);
    assert_eq!(sheet.offset_x, 3);
    assert_eq!(sheet.offset_y, 4);
}

#[test]
fn sprite_sheet_full_is_one_sprite() {
    let sheet = SpriteSheet::full(TextureSize { width: 640, height: 480 });
    assert_eq!(sheet, SpriteSheet::new(640, 480, 0, 0, 0, 0));
}

#[test]
fn texture_atlas_builder_keeps_last_of_a_name() {
    let builder = TextureAtlasBuilder::new()
        .with_sprite_sheet("hero", 1u8, SpriteSheet::new(8, 8, 0, 0, 0, 0))
        .with_texture("sky", 2u8, TextureSize { width: 100, height: 50 })
        .with_texture("hero", 3u8, TextureSize { width: 64, height: 64 });
    assert_eq!(builder.get("hero"), Some(&(3u8, SpriteSheet::new(64, 64, 0, 0, 0, 0))));
    assert_eq!(builder.get("sky"), Some(&(2u8, SpriteSheet::new(100, 50, 0, 0, 0, 0))));
    assert_eq!(builder.get("sea"), None);
    let empty: TextureAtlasBuilder<u8> = TextureAtlasBuilder::new();
    assert_eq!(empty.get("hero"), None);
}

#[test]
fn scene_adds_an_instance_by_take_and_put_back() {
    let mut scene = SceneBuilder::new(registry());
    let mut model = scene.take_for_instance("models", MODEL, "cube").unwrap();
    assert_eq!(
        scene.assets.try_get_asset("models", MODEL, "cube").unwrap_err(),
        AssetError::AssetNotFound("cube".to_string())
    );
    model.push(2);
    assert!(scene.put_back("models", MODEL, "cube", model));
    assert_eq!(*scene.assets.try_get_asset("models", MODEL, "cube").unwrap(), vec![1, 2]);
}

#[test]
fn scene_take_and_put_back_failures() {
    let mut scene = SceneBuilder::new(registry());
    assert_eq!(scene.take_for_instance("models", TEXT, "cube").unwrap_err(), AssetError::InvalidType);
    assert_eq!(
        scene.take_for_instance("texts", TEXT, "cube").unwrap_err(),
        AssetError::AssetTypeNotFound("texts".to_string())
    );
    let shared = scene.assets.try_get_asset("models", MODEL, "cube").unwrap();
    assert_eq!(scene.take_for_instance("models", MODEL, "cube").unwrap_err(), AssetError::InvalidTake);
    assert!(!scene.put_back("models", TEXT, "cube", vec![9]));
    assert_eq!(*scene.assets.try_get_asset("models", MODEL, "cube").unwrap(), vec![1]);
    assert!(scene.put_back("models", MODEL, "cube", vec![9]));
    assert_eq!(*shared, vec![1]);
    assert_eq!(*scene.assets.try_get_asset("models", MODEL, "cube").unwrap(), vec![9]);
    assert!(scene.put_back("texts", TEXT, "hello", vec![7]));
    assert_eq!(*scene.assets.try_get_asset("texts", TEXT, "hello").unwrap(), vec![7]);
}

#[test]
fn default_scene_leaves_the_registry() {
    let assets = default_scene(SceneBuilder::new(registry()));
    assert_eq!(*assets.try_get_asset("models", MODEL, "cube").unwrap(), vec![1]);
}

#[test]
fn combine_and_get_for_callers_who_know() {
    let mut assets = registry();
    let mut other = AssetTypeMap::new();
    other.try_insert_asset("models", MODEL, "ball", vec![2]).unwrap();
    other.try_insert_asset("texts", TEXT, "hello", vec![3]).unwrap();
    assets.combine(other);
    assert_eq!(*assets.get_asset("models", MODEL, "cube"), vec![1]);
    assert_eq!(*assets.get_asset("models", MODEL, "ball"), vec![2]);
    assert_eq!(*assets.get_asset("texts", TEXT, "hello"), vec![3]);
}

#[test]
fn combine_of_registries_that_disagree_keeps_the_kind() {
    let mut assets = registry();
    let mut other = AssetTypeMap::new();
    other.try_insert_asset("models", TEXT, "cube", vec![5]).unwrap();
    assets.combine(other);
    assert_eq!(*assets.get_asset("models", MODEL, "cube"), vec![1]);
    assert!(assets.try_get_asset("models", TEXT, "cube").is_err());
}
