//! What the player asks of its host: input, rendering and audio. The null backends
//! do nothing; a player without a screen or a keyboard runs on them.

use vstd::prelude::*;

verus! {

/// A key of the keyboard.
#[derive(Clone, Copy, Debug, PartialEq, Eq, Structural)]
pub enum KeyCode {
    Unknown,
    /// A key, by its code.
    Key(u8),
}

/// The image of the mouse cursor.
#[derive(Clone, Copy, Debug, PartialEq, Eq, Structural)]
pub enum MouseCursor {
    /// The arrow.
    Arrow,
    /// The hand that marks a button or a link.
    Hand,
    /// The text beam.
    IBeam,
    /// The hand that drags.
    Grab,
}

/// The input that a host provides.
pub trait InputBackend {
    fn is_key_down(&self, key: KeyCode) -> bool;

    fn last_key_code(&self) -> KeyCode;

    fn last_key_char(&self) -> Option<char>;

    fn mouse_visible(&self) -> bool;

    fn hide_mouse(&mut self);

    fn show_mouse(&mut self);

    /// Changes the image of the mouse cursor.
    fn set_mouse_cursor(&mut self, cursor: MouseCursor);

    /// Sets the clipboard to the given content.
    fn set_clipboard_content(&mut self, content: String);
}

/// The input of a host without keyboard and mouse: no key is down, and the
/// mouse is always visible.
pub struct NullInputBackend {}

impl NullInputBackend {
    pub fn new() -> (r: NullInputBackend) {
        NullInputBackend {  }
    }
}

impl InputBackend for NullInputBackend {
    fn is_key_down(&self, key: KeyCode) -> (r: bool)
        ensures
            !r,
    {
        false
    }

    fn last_key_code(&self) -> (r: KeyCode)
        ensures
            r == KeyCode::Unknown,
    {
        KeyCode::Unknown
    }

    fn last_key_char(&self) -> (r: Option<char>)
        ensures
            r is None,
    {
        None
    }

    fn mouse_visible(&self) -> (r: bool)
        ensures
            r,
    {
        true
    }

    fn hide_mouse(&mut self) {
    }

    fn show_mouse(&mut self) {
    }

    fn set_mouse_cursor(&mut self, cursor: MouseCursor) {
    }

    fn set_clipboard_content(&mut self, content: String) {
    }
}

/// The size of the area that is drawn on, in pixels.
#[derive(Clone, Copy, Debug, PartialEq, Eq, Structural)]
pub struct ViewportDimensions {
    pub width: u32,
    pub height: u32,
}

/// A reference to a shape that a renderer holds.
#[derive(Clone, Copy, Debug, PartialEq, Eq, Structural)]
pub struct ShapeHandle(pub usize);

/// A reference to a bitmap that a renderer holds.
#[derive(Clone, Copy, Debug, PartialEq, Eq, Structural)]
pub struct BitmapHandle(pub usize);

/// A bitmap that a renderer holds, and its size.
#[derive(Clone, Copy, Debug, PartialEq, Eq, Structural)]
pub struct BitmapInfo {
    pub handle: BitmapHandle,
    pub width: u16,
    pub height: u16,
}

/// A bitmap: its size and its pixels, four bytes each.
#[derive(Debug)]
pub struct Bitmap {
    pub width: u32,
    pub height: u32,
    pub data: Vec<u8>,
}

/// Why a renderer could not do what it was asked.
#[derive(Clone, Copy, Debug, PartialEq, Eq, Structural)]
pub enum RenderError {
    Unimplemented,
}

/// Where a shape finds the bitmaps it is filled with.
pub trait BitmapSource {
    fn bitmap(&self, id: u16) -> Option<BitmapInfo>;
}

/// A source without bitmaps.
pub struct NullBitmapSource;

impl BitmapSource for NullBitmapSource {
    fn bitmap(&self, id: u16) -> (r: Option<BitmapInfo>)
        ensures
            r is None,
    {
        None
    }
}

/// The rendering that a host provides.
pub trait RenderBackend {
    fn viewport_dimensions(&self) -> ViewportDimensions;

    fn set_viewport_dimensions(&mut self, dimensions: ViewportDimensions);

    fn get_bitmap_pixels(&mut self, bitmap: BitmapHandle) -> Option<Bitmap>;

    fn register_bitmap(&mut self, bitmap: Bitmap) -> Result<BitmapHandle, RenderError>;

    fn unregister_bitmap(&mut self, bitmap: BitmapHandle);

    fn update_texture(&mut self, bitmap: BitmapHandle, width: u32, height: u32, rgba: Vec<u8>) -> Result<
        (),
        RenderError,
    >;
}

/// A renderer that draws nothing. It remembers the size of its viewport.
pub struct NullRenderer {
    pub dimensions: ViewportDimensions,
}

impl NullRenderer {
    pub fn new(dimensions: ViewportDimensions) -> (r: NullRenderer)
        ensures
            r.dimensions == dimensions,
    {
        NullRenderer { dimensions }
    }
}

impl RenderBackend for NullRenderer {
    fn viewport_dimensions(&self) -> (r: ViewportDimensions)
        ensures
            r == self.dimensions,
    {
        self.dimensions
    }

    fn set_viewport_dimensions(&mut self, dimensions: ViewportDimensions)
        ensures
            final(self).dimensions == dimensions,
    {
        self.dimensions = dimensions;
    }

    fn get_bitmap_pixels(&mut self, bitmap: BitmapHandle) -> (r: Option<Bitmap>)
        ensures
            r is None,
            final(self).dimensions == old(self).dimensions,
    {
        None
    }

    fn register_bitmap(&mut self, bitmap: Bitmap) -> (r: Result<BitmapHandle, RenderError>)
        ensures
            r == Ok::<BitmapHandle, RenderError>(BitmapHandle(0)),
            final(self).dimensions == old(self).dimensions,
    {
        Ok(BitmapHandle(0))
    }

    fn unregister_bitmap(&mut self, bitmap: BitmapHandle)
        ensures
            final(self).dimensions == old(self).dimensions,
    {
    }

    fn update_texture(
        &mut self,
        bitmap: BitmapHandle,
        width: u32,
        height: u32,
        rgba: Vec<u8>,
    ) -> (r: Result<(), RenderError>)
        ensures
            r is Ok,
            final(self).dimensions == old(self).dimensions,
    {
        Ok(())
    }
}


/// A reference to a sound that an audio backend holds: the two numbers of
/// an index into its arena.
#[derive(Clone, Copy, Debug, PartialEq, Eq, Structural)]
pub struct SoundHandle(pub usize, pub u64);

/// A reference to a sound that plays.
#[derive(Clone, Copy, Debug, PartialEq, Eq, Structural)]
pub struct SoundInstanceHandle(pub usize, pub u64);

/// A reference to the sound stream of a timeline.
#[derive(Clone, Copy, Debug, PartialEq, Eq, Structural)]
pub struct AudioStreamHandle(pub usize, pub u64);

/// A sound of a movie: the character it is, and its encoded data.
#[derive(Debug)]
pub struct Sound {
    pub id: u16,
    pub data: Vec<u8>,
}

/// Why an audio backend could not do what it was asked.
#[derive(Clone, Copy, Debug, PartialEq, Eq, Structural)]
pub enum AudioError {
    /// The backend holds no more sounds.
    Full,
}

/// The audio that a host provides.
pub trait AudioBackend {
    fn play(&mut self);

    fn pause(&mut self);

    fn register_sound(&mut self, sound: &Sound) -> Result<SoundHandle, AudioError>;

    /// Starts a sound that is not tied to a timeline.
    fn start_sound(&mut self, sound: SoundHandle) -> Result<SoundInstanceHandle, AudioError>;

    /// Starts the sound stream of a timeline.
    fn start_stream(&mut self, clip_id: u16, clip_frame: u16) -> Result<AudioStreamHandle, AudioError>;

    /// Stops a sound that plays. A sound that does not play stays as it is.
    fn stop_sound(&mut self, sound: SoundInstanceHandle);

    /// Stops a sound stream.
    fn stop_stream(&mut self, stream: AudioStreamHandle);

    fn stop_all_sounds(&mut self);

    fn is_sound_playing_with_handle(&mut self, handle: SoundHandle) -> bool;
}

/// `generational_arena::Arena`: a collection that hands out an index for
/// each entry it takes. Nothing is known of what is inside; what it holds is
/// named below.
#[verifier::external_type_specification]
#[verifier::external_body]
#[verifier::reject_recursive_types(T)]
pub struct ExArena<T>(generational_arena::Arena<T>);

/// The indices under which an arena holds an entry, each as its two
/// numbers: the position and the generation.
pub uninterp spec fn arena_held(arena: generational_arena::Arena<()>) -> Set<(usize, u64)>;

/// How many entries were removed from an arena since it was made. The arena
/// counts them in 64 bits.
pub uninterp spec fn arena_removals(arena: generational_arena::Arena<()>) -> nat;

/// `generational_arena::Arena::new`: an arena that holds nothing, and from
/// which nothing was removed.
#[verifier::external_body]
fn arena_new() -> (r: generational_arena::Arena<()>)
    ensures
        arena_held(r) == Set::<(usize, u64)>::empty(),
        arena_removals(r) == 0,
{
    generational_arena::Arena::new()
}

/// `generational_arena::Arena::insert`, and `Index::into_raw_parts` of the
/// index it returns: the arena holds one entry more, under an index that it
/// did not hold before. Its other entries stay.
#[verifier::external_body]
fn arena_insert(arena: &mut generational_arena::Arena<()>) -> (r: (usize, u64))
    ensures
        !arena_held(*old(arena)).contains(r),
        arena_held(*final(arena)) == arena_held(*old(arena)).insert(r),
        arena_removals(*final(arena)) == arena_removals(*old(arena)),
{
    arena.insert(()).into_raw_parts()
}

/// `generational_arena::Arena::remove`, on the index that
/// `Index::from_raw_parts` makes of the two numbers: the entry under the
/// index is removed, and the result says whether there was one. An index
/// under which the arena holds nothing changes nothing. The arena counts
/// the removal; the count has to have room for it.
#[verifier::external_body]
fn arena_remove(arena: &mut generational_arena::Arena<()>, position: usize, generation: u64) -> (r:
    Option<()>)
    requires
        arena_removals(*old(arena)) < u64::MAX,
    ensures
        r is Some == arena_held(*old(arena)).contains((position, generation)),
        arena_held(*final(arena)) == arena_held(*old(arena)).remove((position, generation)),
        arena_removals(*final(arena)) == arena_removals(*old(arena)) + (if r is Some {
            1nat
        } else {
            0nat
        }),
{
    arena.remove(generational_arena::Index::from_raw_parts(position, generation))
}

/// The streams of a backend, and how many of them were stopped.
struct Streams {
    arena: generational_arena::Arena<()>,
    stopped: u64,
}

/// The audio of a host without sound: it keeps account of the sounds and
/// streams it is given, and plays none.
pub struct NullAudioBackend {
    sounds: generational_arena::Arena<()>,
    streams: Streams,
}

impl NullAudioBackend {
    #[verifier::type_invariant]
    spec fn counted(&self) -> bool {
        self.streams.stopped == arena_removals(self.streams.arena)
    }

    /// The sounds that were registered, each by the two numbers of its
    /// handle.
    pub closed spec fn sounds(&self) -> Set<(usize, u64)> {
        arena_held(self.sounds)
    }

    /// The streams that were started and not stopped.
    pub closed spec fn streams(&self) -> Set<(usize, u64)> {
        arena_held(self.streams.arena)
    }

    /// How many streams were stopped.
    pub closed spec fn stopped(&self) -> nat {
        arena_removals(self.streams.arena)
    }

    pub fn new() -> (r: NullAudioBackend)
        ensures
            r.sounds() == Set::<(usize, u64)>::empty(),
            r.streams() == Set::<(usize, u64)>::empty(),
            r.stopped() == 0,
    {
        NullAudioBackend { sounds: arena_new(), streams: Streams { arena: arena_new(), stopped: 0 } }
    }
}

impl AudioBackend for NullAudioBackend {
    fn play(&mut self)
        ensures
            final(self).sounds() == old(self).sounds(),
            final(self).streams() == old(self).streams(),
            final(self).stopped() == old(self).stopped(),
    {
    }

    fn pause(&mut self)
        ensures
            final(self).sounds() == old(self).sounds(),
            final(self).streams() == old(self).streams(),
            final(self).stopped() == old(self).stopped(),
    {
    }

    fn register_sound(&mut self, sound: &Sound) -> (r: Result<SoundHandle, AudioError>)
        ensures
            r matches Ok(h) && !old(self).sounds().contains((h.0, h.1)) && final(self).sounds()
                == old(self).sounds().insert((h.0, h.1)),
            final(self).streams() == old(self).streams(),
            final(self).stopped() == old(self).stopped(),
    {
        proof {
            use_type_invariant(&*self);
        }
        let mut sounds = arena_new();
        core::mem::swap(&mut sounds, &mut self.sounds);
        let parts = arena_insert(&mut sounds);
        self.sounds = sounds;
        Ok(SoundHandle(parts.0, parts.1))
    }

    fn start_sound(&mut self, sound: SoundHandle) -> (r: Result<SoundInstanceHandle, AudioError>)
        ensures
            final(self).sounds() == old(self).sounds(),
            final(self).streams() == old(self).streams(),
            final(self).stopped() == old(self).stopped(),
            r == Ok::<SoundInstanceHandle, AudioError>(SoundInstanceHandle(0, 0)),
    {
        Ok(SoundInstanceHandle(0, 0))
    }

    fn start_stream(&mut self, clip_id: u16, clip_frame: u16) -> (r: Result<
        AudioStreamHandle,
        AudioError,
    >)
        ensures
            final(self).sounds() == old(self).sounds(),
            r matches Ok(h) && !old(self).streams().contains((h.0, h.1)) && final(self).streams()
                == old(self).streams().insert((h.0, h.1)),
            final(self).stopped() == old(self).stopped(),
    {
        proof {
            use_type_invariant(&*self);
        }
        let mut streams = Streams { arena: arena_new(), stopped: 0 };
        core::mem::swap(&mut streams, &mut self.streams);
        let parts = arena_insert(&mut streams.arena);
        self.streams = streams;
        Ok(AudioStreamHandle(parts.0, parts.1))
    }

    fn stop_sound(&mut self, sound: SoundInstanceHandle)
        ensures
            final(self).sounds() == old(self).sounds(),
            final(self).streams() == old(self).streams(),
            final(self).stopped() == old(self).stopped(),
    {
    }

    /// Stops a stream: it is no longer among the streams. A backend that
    /// has stopped as many streams as it can count leaves the stream where
    /// it is.
    fn stop_stream(&mut self, stream: AudioStreamHandle)
        ensures
            final(self).sounds() == old(self).sounds(),
            final(self).streams() == (if old(self).stopped() < u64::MAX {
                old(self).streams().remove((stream.0, stream.1))
            } else {
                old(self).streams()
            }),
            final(self).stopped() == (if old(self).stopped() < u64::MAX && old(self).streams().contains(
                (stream.0, stream.1),
            ) {
                old(self).stopped() + 1
            } else {
                old(self).stopped()
            }),
    {
        proof {
            use_type_invariant(&*self);
        }
        let mut streams = Streams { arena: arena_new(), stopped: 0 };
        core::mem::swap(&mut streams, &mut self.streams);
        if streams.stopped < u64::MAX {
            match arena_remove(&mut streams.arena, stream.0, stream.1) {
                Some(_) => {
                    streams.stopped = streams.stopped + 1;
                },
                None => {},
            }
        }
        self.streams = streams;
    }

    fn stop_all_sounds(&mut self)
        ensures
            final(self).sounds() == old(self).sounds(),
            final(self).streams() == old(self).streams(),
            final(self).stopped() == old(self).stopped(),
    {
    }

    fn is_sound_playing_with_handle(&mut self, handle: SoundHandle) -> (r: bool)
        ensures
            !r,
            final(self).sounds() == old(self).sounds(),
            final(self).streams() == old(self).streams(),
            final(self).stopped() == old(self).stopped(),
    {
        false
    }
}

} // verus!
