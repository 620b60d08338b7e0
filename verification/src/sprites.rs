use vstd::prelude::*;

verus! {

/// The index of a sprite sheet in [`Sprites`].
pub type Handle = usize;

/// A rectangle of a sprite sheet's image, in pixels.
#[derive(Clone, Copy, Debug, PartialEq, Eq, Structural)]
pub struct Rect {
    pub x: u32,
    pub y: u32,
    pub w: u32,
    pub h: u32,
}

/// One frame of a sprite sheet: where it lies in the image and how long it shows, in ms.
#[derive(Clone, Copy, Debug, PartialEq, Eq, Structural)]
pub struct SpriteFrame {
    pub rect: Rect,
    pub duration: u32,
}

/// A named animation: the frames from `start_frame` to `end_frame`, both included.
pub struct SpriteTag {
    name: String,
    start_frame: u32,
    end_frame: u32,
}

/// A sprite sheet: its name, its image, its frames and its animations.
pub struct SpriteSheet<I> {
    name: String,
    image: I,
    frames: Vec<SpriteFrame>,
    tags: Vec<SpriteTag>,
}

/// The frame rectangle of an Aseprite export.
pub struct Frame {
    pub x: u32,
    pub y: u32,
    pub w: u32,
    pub h: u32,
}

/// A frame of an Aseprite export, with its duration in ms.
pub struct FrameData {
    pub duration: u32,
    pub frame: Frame,
}

/// A tag of an Aseprite export: the frames `from` to `to`, both included.
pub struct FrameTag {
    pub name: String,
    pub from: u32,
    pub to: u32,
}

/// The metadata of an Aseprite export.
pub struct Metadata {
    pub image: String,
    pub frame_tags: Vec<FrameTag>,
}

/// An Aseprite sprite sheet export.
pub struct Data {
    pub frames: Vec<FrameData>,
    pub meta: Metadata,
}

impl SpriteTag {
    pub fn name(&self) -> (n: &str)
        ensures
            n@ == self.spec_name(),
    {
        self.name.as_str()
    }

    pub fn start_frame(&self) -> (f: u32)
        ensures
            f == self.spec_start_frame(),
    {
        self.start_frame
    }

    pub fn end_frame(&self) -> (f: u32)
        ensures
            f == self.spec_end_frame(),
    {
        self.end_frame
    }

    pub closed spec fn spec_name(&self) -> Seq<char> {
        self.name@
    }

    pub closed spec fn spec_start_frame(&self) -> u32 {
        self.start_frame
    }

    pub closed spec fn spec_end_frame(&self) -> u32 {
        self.end_frame
    }
}

impl<I> SpriteSheet<I> {
    pub fn name(&self) -> (n: &str)
        ensures
            n@ == self.spec_name(),
    {
        self.name.as_str()
    }

    pub fn image(&self) -> (i: &I)
        ensures
            *i == self.spec_image(),
    {
        &self.image
    }

    pub fn frame_count(&self) -> (n: usize)
        ensures
            n == self.spec_frames().len(),
    {
        self.frames.len()
    }

    pub fn tag_count(&self) -> (n: usize)
        ensures
            n == self.spec_tags().len(),
    {
        self.tags.len()
    }

    pub fn frame(&self, index: usize) -> (f: SpriteFrame)
        requires
            index < self.spec_frames().len(),
        ensures
            f == self.spec_frames()[index as int],
    {
        self.frames[index]
    }

    pub fn tag(&self, index: usize) -> (t: &SpriteTag)
        requires
            index < self.spec_tags().len(),
        ensures
            *t == self.spec_tags()[index as int],
    {
        &self.tags[index]
    }

    pub closed spec fn spec_name(&self) -> Seq<char> {
        self.name@
    }

    pub closed spec fn spec_image(&self) -> I {
        self.image
    }

    pub closed spec fn spec_frames(&self) -> Seq<SpriteFrame> {
        self.frames@
    }

    pub closed spec fn spec_tags(&self) -> Seq<SpriteTag> {
        self.tags@
    }
}

impl Data {
    /// The sheet frame that an exported frame becomes.
    pub open spec fn sheet_frame(f: FrameData) -> SpriteFrame {
        SpriteFrame {
            rect: Rect { x: f.frame.x, y: f.frame.y, w: f.frame.w, h: f.frame.h },
            duration: f.duration,
        }
    }

    /// `as_sprite_sheet` runs without a panic: with no tags there must be a frame, since
    /// the default animation ends at the last frame.
    pub open spec fn can_build_sheet(&self) -> bool {
        self.meta.frame_tags@.len() > 0 || self.frames@.len() > 0
    }

    /// `sheet` is the sprite sheet named `name` with image `image` that this export
    /// describes: one frame per exported frame, one animation per exported tag, and with
    /// no exported tag a single animation "default" over all frames.
    pub open spec fn describes<I>(&self, sheet: SpriteSheet<I>, name: Seq<char>, image: I) -> bool {
        &&& sheet.spec_name() == name
        &&& sheet.spec_image() == image
        &&& sheet.spec_frames().len() == self.frames@.len()
        &&& forall|i: int|
            0 <= i < self.frames@.len() ==> #[trigger] sheet.spec_frames()[i] == Self::sheet_frame(
                self.frames@[i],
            )
        &&& if self.meta.frame_tags@.len() == 0 {
            &&& sheet.spec_tags().len() == 1
            &&& sheet.spec_tags()[0].spec_name() == "default"@
            &&& sheet.spec_tags()[0].spec_start_frame() == 0
            &&& sheet.spec_tags()[0].spec_end_frame() == (self.frames@.len() - 1) as u32
        } else {
            &&& sheet.spec_tags().len() == self.meta.frame_tags@.len()
            &&& forall|i: int|
                0 <= i < self.meta.frame_tags@.len() ==> {
                    &&& #[trigger] sheet.spec_tags()[i].spec_name()
                        == self.meta.frame_tags@[i].name@
                    &&& sheet.spec_tags()[i].spec_start_frame() == self.meta.frame_tags@[i].from
                    &&& sheet.spec_tags()[i].spec_end_frame() == self.meta.frame_tags@[i].to
                }
        }
    }

    /// The sprite sheet that this export describes, named `name`, with `image`.
    pub fn as_sprite_sheet<I>(&self, name: &str, image: I) -> (sheet: SpriteSheet<I>)
        requires
            self.can_build_sheet(),
        ensures
            self.describes(sheet, name@, image),
    {
        let mut frames: Vec<SpriteFrame> = Vec::new();
        let n = self.frames.len();
        let mut i: usize = 0;
        while i < n
            invariant
                n == self.frames@.len(),
                i <= n,
                frames@.len() == i,
                forall|k: int|
                    0 <= k < i ==> #[trigger] frames@[k] == Self::sheet_frame(self.frames@[k]),
            decreases n - i,
        {
            let f = &self.frames[i];
            frames.push(
                SpriteFrame {
                    rect: Rect { x: f.frame.x, y: f.frame.y, w: f.frame.w, h: f.frame.h },
                    duration: f.duration,
                },
            );
            i = i + 1;
        }
        let mut tags: Vec<SpriteTag> = Vec::new();
        let m = self.meta.frame_tags.len();
        let mut j: usize = 0;
        while j < m
            invariant
                m == self.meta.frame_tags@.len(),
                j <= m,
                tags@.len() == j,
                forall|k: int|
                    0 <= k < j ==> {
                        &&& #[trigger] tags@[k].name@ == self.meta.frame_tags@[k].name@
                        &&& tags@[k].start_frame == self.meta.frame_tags@[k].from
                        &&& tags@[k].end_frame == self.meta.frame_tags@[k].to
                    },
            decreases m - j,
        {
            let t = &self.meta.frame_tags[j];
            tags.push(SpriteTag { name: t.name.clone(), start_frame: t.from, end_frame: t.to });
            j = j + 1;
        }

        // if there are no tags let's assume that the entire spritesheet is a single animation
        if tags.len() == 0 {
            let default_name = "default".to_owned();
            let last_frame = (frames.len() - 1) as u32;
            tags.push(SpriteTag { name: default_name, start_frame: 0, end_frame: last_frame });
        }

        let sheet = SpriteSheet { name: name.to_owned(), image, frames, tags };
        assert forall|k: int| 0 <= k < self.frames@.len() implies #[trigger] sheet.spec_frames()[k]
            == Self::sheet_frame(self.frames@[k]) by {
            assert(sheet.spec_frames()[k] == sheet.frames@[k]);
        }
        if m == 0 {
            assert(sheet.spec_tags().len() == 1);
            assert(sheet.spec_tags()[0].spec_name() == "default"@);
            assert(sheet.spec_tags()[0].spec_end_frame() == (self.frames@.len() - 1) as u32);
        } else {
            assert forall|k: int| 0 <= k < self.meta.frame_tags@.len() implies {
                &&& #[trigger] sheet.spec_tags()[k].spec_name() == self.meta.frame_tags@[k].name@
                &&& sheet.spec_tags()[k].spec_start_frame() == self.meta.frame_tags@[k].from
                &&& sheet.spec_tags()[k].spec_end_frame() == self.meta.frame_tags@[k].to
            } by {
                assert(sheet.spec_tags()[k] == sheet.tags@[k]);
            }
        }
        sheet
    }
}

/// A list of sprite sheets; a sheet's handle is its index.
pub struct Sprites<I> {
    sprite_sheets: Vec<SpriteSheet<I>>,
}

impl<I> View for Sprites<I> {
    type V = Seq<SpriteSheet<I>>;

    closed spec fn view(&self) -> Seq<SpriteSheet<I>> {
        self.sprite_sheets@
    }
}

/// `h` is the first handle of `sheets` whose sheet is named `name`.
pub open spec fn is_first_named<I>(sheets: Seq<SpriteSheet<I>>, name: Seq<char>, h: int) -> bool {
    &&& 0 <= h < sheets.len()
    &&& sheets[h].spec_name() == name
    &&& forall|k: int| 0 <= k < h ==> sheets[k].spec_name() != name
}

/// The frame that follows `frame` in an animation from `start` to `end`: the next one,
/// or `start` again after `end`.
pub open spec fn spec_next_frame(frame: u32, start: u32, end: u32) -> u32 {
    if frame + 1 > end {
        start
    } else {
        (frame + 1) as u32
    }
}

impl<I> Sprites<I> {
    pub fn new() -> (s: Self)
        ensures
            s@ == Seq::<SpriteSheet<I>>::empty(),
    {
        Self { sprite_sheets: Vec::new() }
    }

    /// The handle of the first sheet named `name`.
    pub fn find_by_name(&self, name: &str) -> (r: Option<Handle>)
        ensures
            match r {
                Some(h) => is_first_named(self@, name@, h as int),
                None => forall|k: int| 0 <= k < self@.len() ==> self@[k].spec_name() != name@,
            },
    {
        let wanted = name.to_owned();
        let n = self.sprite_sheets.len();
        let mut i: usize = 0;
        while i < n
            invariant
                n == self@.len(),
                i <= n,
                wanted@ == name@,
                forall|k: int| 0 <= k < i ==> self@[k].spec_name() != name@,
            decreases n - i,
        {
            if self.sprite_sheets[i].name == wanted {
                return Some(i);
            }
            i = i + 1;
        }
        None
    }

    /// Adds the sheet that `data` describes, named `name`, with `image`; returns its handle.
    pub fn load_sprite_sheet(&mut self, name: &str, data: &Data, image: I) -> (handle: Handle)
        requires
            data.can_build_sheet(),
        ensures
            handle == old(self)@.len(),
            final(self)@.len() == old(self)@.len() + 1,
            final(self)@.drop_last() == old(self)@,
            data.describes(final(self)@[handle as int], name@, image),
    {
        let sprite = data.as_sprite_sheet(name, image);
        let handle = self.sprite_sheets.len();
        self.sprite_sheets.push(sprite);
        assert(self@.drop_last() =~= old(self)@);
        handle
    }

    /// The number of sheets.
    pub fn len(&self) -> (n: usize)
        ensures
            n == self@.len(),
    {
        self.sprite_sheets.len()
    }

    pub fn get(&self, handle: Handle) -> (sheet: &SpriteSheet<I>)
        requires
            handle < self@.len(),
        ensures
            *sheet == self@[handle as int],
    {
        &self.sprite_sheets[handle]
    }

    /// How long frame `frame` of sheet `handle` shows, in ms.
    pub fn frame_duration(&self, handle: Handle, frame: u32) -> (d: u32)
        requires
            handle < self@.len(),
            frame < self@[handle as int].spec_frames().len(),
        ensures
            d == self@[handle as int].spec_frames()[frame as int].duration,
    {
        let sprite_sheet = self.get(handle);
        sprite_sheet.frames[frame as usize].duration
    }

    /// The frame that follows `frame` in animation `tag` of sheet `handle`.
    pub fn next_frame(&self, handle: Handle, tag: u32, frame: u32) -> (next: u32)
        requires
            handle < self@.len(),
            tag < self@[handle as int].spec_tags().len(),
            frame < u32::MAX,
        ensures
            next == spec_next_frame(
                frame,
                self@[handle as int].spec_tags()[tag as int].spec_start_frame(),
                self@[handle as int].spec_tags()[tag as int].spec_end_frame(),
            ),
    {
        let sprite_sheet = self.get(handle);
        let current_tag = &sprite_sheet.tags[tag as usize];
        let mut current_frame = frame + 1;
        if current_frame > current_tag.end_frame {
            current_frame = current_tag.start_frame;
        }
        current_frame
    }
}

/// A sheet added under a name that no sheet had yet is what looking that name up finds.
pub proof fn law_find_finds_loaded_sheet<I>(
    sheets: Seq<SpriteSheet<I>>,
    sheet: SpriteSheet<I>,
    name: Seq<char>,
)
    requires
        forall|k: int| 0 <= k < sheets.len() ==> sheets[k].spec_name() != name,
        sheet.spec_name() == name,
    ensures
        is_first_named(sheets.push(sheet), name, sheets.len() as int),
{
    assert forall|k: int| 0 <= k < sheets.len() implies sheets.push(sheet)[k].spec_name() != name by {
        assert(sheets.push(sheet)[k] == sheets[k]);
    }
}

/// Stepping through an animation never leaves it: from any frame at or after the tag's
/// first frame (inside the tag, or past its last frame after a switch of tags), the next
/// frame lies between the tag's first and last frame; it is the following frame while that
/// is inside the tag, and the first frame once the following one would pass the last.
pub proof fn law_next_frame_stays_in_tag(frame: u32, start: u32, end: u32)
    requires
        start <= frame,
        start <= end,
    ensures
        start <= spec_next_frame(frame, start, end) <= end,
        frame < end ==> spec_next_frame(frame, start, end) == frame + 1,
        frame + 1 > end ==> spec_next_frame(frame, start, end) == start,
{
}

/// A sheet built from an export always has at least one animation.
pub proof fn law_sheet_has_an_animation<I>(data: Data, sheet: SpriteSheet<I>, name: Seq<char>, image: I)
    requires
        data.describes(sheet, name, image),
    ensures
        sheet.spec_tags().len() >= 1,
{
}

} // verus!
