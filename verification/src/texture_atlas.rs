//! How textures are cut into sprites: the grid of a sprite sheet, and the
//! list of textures from which an atlas is to be built.

use crate::name_map::NameMap;
use vstd::prelude::*;

verus! {

/// The size of a texture, in pixels.
#[derive(Debug, Clone, Copy, PartialEq, Eq, Structural)]
pub struct TextureSize {
    pub width: u32,
    pub height: u32,
}

/// The grid by which a texture is cut into sprites. All lengths are in pixels.
#[derive(Debug, Clone, Copy, PartialEq, Eq, Structural)]
pub struct SpriteSheet {
    pub sprite_width: u32,
    pub sprite_height: u32,
    pub separation_x: u32,
    pub separation_y: u32,
    pub offset_x: u32,
    pub offset_y: u32,
}

impl SpriteSheet {
    /// The grid with these lengths.
    pub fn new(
        sprite_width: u32,
        sprite_height: u32,
        separation_x: u32,
        separation_y: u32,
        offset_x: u32,
        offset_y: u32,
    ) -> (sheet: Self)
        ensures
            sheet == (SpriteSheet {
                sprite_width,
                sprite_height,
                separation_x,
                separation_y,
                offset_x,
                offset_y,
            }),
    {
        SpriteSheet { sprite_width, sprite_height, separation_x, separation_y, offset_x, offset_y }
    }

    /// The grid of one sprite that is the whole texture.
    pub open spec fn whole(size: TextureSize) -> Self {
        SpriteSheet {
            sprite_width: size.width,
            sprite_height: size.height,
            separation_x: 0,
            separation_y: 0,
            offset_x: 0,
            offset_y: 0,
        }
    }

    /// The grid of one sprite that is the whole texture.
    pub fn full(size: TextureSize) -> (sheet: Self)
        ensures
            sheet == Self::whole(size),
    {
        SpriteSheet {
            sprite_width: size.width,
            sprite_height: size.height,
            separation_x: 0,
            separation_y: 0,
            offset_x: 0,
            offset_y: 0,
        }
    }
}

/// The textures that an atlas is to be built from, each with its grid, by
/// the name of the sprite. `T` is the handle by which a texture is known.
#[derive(Debug)]
pub struct TextureAtlasBuilder<T> {
    map: NameMap<(T, SpriteSheet)>,
}

impl<T> View for TextureAtlasBuilder<T> {
    type V = Map<Seq<char>, (T, SpriteSheet)>;

    closed spec fn view(&self) -> Map<Seq<char>, (T, SpriteSheet)> {
        self.map@
    }
}

impl<T> TextureAtlasBuilder<T> {
    /// No name occurs twice.
    pub closed spec fn wf(&self) -> bool {
        self.map.wf()
    }

    /// A builder without textures.
    pub fn new() -> (b: Self)
        ensures
            b.wf(),
            b@ == Map::<Seq<char>, (T, SpriteSheet)>::empty(),
    {
        TextureAtlasBuilder { map: NameMap::new() }
    }

    /// Adds a texture that is cut by `sprite_sheet`, in place of an earlier
    /// one of that name.
    pub fn with_sprite_sheet(self, name: &str, texture: T, sprite_sheet: SpriteSheet) -> (b: Self)
        requires
            self.wf(),
        ensures
            b.wf(),
            b@ == self@.insert(name@, (texture, sprite_sheet)),
    {
        let mut map = self.map;
        map.insert(name.to_owned(), (texture, sprite_sheet));
        TextureAtlasBuilder { map }
    }

    /// Adds a texture of size `size` as one sprite, in place of an earlier
    /// one of that name.
    pub fn with_texture(self, name: &str, texture: T, size: TextureSize) -> (b: Self)
        requires
            self.wf(),
        ensures
            b.wf(),
            b@ == self@.insert(name@, (texture, SpriteSheet::whole(size))),
    {
        self.with_sprite_sheet(name, texture, SpriteSheet::full(size))
    }

    /// The texture and grid under `name`, if there is one.
    pub fn get(&self, name: &str) -> (r: Option<&(T, SpriteSheet)>)
        requires
            self.wf(),
        ensures
            match r {
                Some(found) => self@.contains_key(name@) && *found == self@[name@],
                None => !self@.contains_key(name@),
            },
    {
        let key = name.to_owned();
        self.map.get(&key)
    }
}

} // verus!
