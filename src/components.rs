use vstd::prelude::*;

verus! {

/// A grid cell plus a draw-order layer; `z` only matters when drawing.
#[derive(Clone, Copy, Debug, PartialEq, Eq, Structural)]
pub struct Position {
    pub x: u8,
    pub y: u8,
    pub z: u8,
}

/// The colour that pairs a box with the spots it may rest on.
#[derive(Clone, Copy, Debug, PartialEq, Eq, Structural)]
pub enum BoxColour {
    Red,
    Blue,
}

impl BoxColour {
    /// The colour's name as it appears in image file names.
    pub fn name(&self) -> (r: &'static str)
        ensures
            *self == BoxColour::Red ==> r@ == "red"@,
            *self == BoxColour::Blue ==> r@ == "blue"@,
    {
        match self {
            BoxColour::Red => "red",
            BoxColour::Blue => "blue",
        }
    }
}

#[derive(Clone, Copy, Debug, PartialEq, Eq, Structural)]
pub enum RenderableKind {
    Static,
    Animated,
}

/// The image paths an entity is drawn with: one for a still image, several
/// frames for an animation.
#[derive(Debug)]
pub struct Renderable {
    pub paths: Vec<String>,
}

impl Renderable {
    pub fn new_static(path: String) -> (r: Renderable)
        ensures
            r.paths@.len() == 1,
            r.paths@[0]@ == path@,
    {
        let mut paths: Vec<String> = Vec::new();
        paths.push(path);
        Renderable { paths }
    }

    pub fn new_animated(paths: Vec<String>) -> (r: Renderable)
        ensures
            r.paths@ == paths@,
    {
        Renderable { paths }
    }

    /// The characters of each path, frame by frame.
    pub open spec fn paths_view(&self) -> Seq<Seq<char>> {
        self.paths@.map_values(|p: String| p@)
    }

    pub open spec fn spec_kind(&self) -> RenderableKind {
        if self.paths@.len() == 1 {
            RenderableKind::Static
        } else {
            RenderableKind::Animated
        }
    }

    /// A renderable with exactly one path is still; any other is animated.
    pub fn kind(&self) -> (r: RenderableKind)
        ensures
            r == self.spec_kind(),
    {
        if self.paths.len() == 1 {
            RenderableKind::Static
        } else {
            RenderableKind::Animated
        }
    }

    /// The path of animation frame `index`, wrapping around the frames.
    pub fn path(&self, index: usize) -> (r: String)
        requires
            self.paths@.len() > 0,
        ensures
            r@ == self.paths@[(index as int) % (self.paths@.len() as int)]@,
    {
        self.paths[index % self.paths.len()].clone()
    }
}

/// The tags an entity carries besides its position. The
/// well-formedness of a world asks that `movable` and `immovable` are never
/// both set and that every player is movable.
#[derive(Clone, Copy, Debug, PartialEq, Eq, Structural)]
pub struct Tags {
    pub player: bool,
    pub wall: bool,
    /// The `Box` component: present on boxes, with their colour.
    pub box_colour: Option<BoxColour>,
    /// The `BoxSpot` component: present on target spots, with their colour.
    pub spot_colour: Option<BoxColour>,
    pub movable: bool,
    pub immovable: bool,
}

/// One row of the component store: every entity has a position.
#[derive(Clone, Copy, Debug, PartialEq, Eq, Structural)]
pub struct EntityRecord {
    pub position: Position,
    pub tags: Tags,
}

/// The four directions a push can go in.
#[derive(Clone, Copy, Debug, PartialEq, Eq, Structural)]
pub enum Direction {
    Up,
    Down,
    Left,
    Right,
}

} // verus!
