//! The sequence of source images on display: which image is current, how
//! playback moves through the sequence, and who is told when the current
//! image changes.

use vstd::prelude::*;
use crate::projection::playback::{advanced_direction, advanced_frame, Playback};
use crate::projection::worker::TextureId;
use crate::projection::Planet;
use crate::subscriber::{
    delivered, live_in, Subscriber, SubscriberArena, SubscriberCollection, SubscriberId,
};

verus! {

/// Frames per second at which a new view plays its sequence.
pub const DEFAULT_FPS: u32 = 25;

/// What subscribers are told when the current image changes: its position
/// in the sequence and its texture.
pub type CurrentImage = (usize, TextureId);

/// The size that all of `sizes` have in common; none if there is no image,
/// or if two images differ in size.
pub open spec fn common_size(sizes: Seq<[u32; 2]>) -> Option<[u32; 2]> {
    if sizes.len() > 0 && (forall|i: int| 0 <= i < sizes.len() ==> #[trigger] sizes[i]@ == sizes[0]@) {
        Some(sizes[0])
    } else {
        None
    }
}

/// Checks that all images have the same width and height, and returns them.
pub fn check_sizes_match(sizes: &Vec<[u32; 2]>) -> (size: Option<[u32; 2]>)
    ensures
        size == common_size(sizes@),
{
    if sizes.len() == 0 {
        return None;
    }
    let first = sizes[0];
    let mut i: usize = 1;
    while i < sizes.len()
        invariant
            1 <= i <= sizes.len(),
            first == sizes@[0],
            forall|j: int| 0 <= j < i ==> #[trigger] sizes@[j]@ == first@,
        decreases sizes.len() - i,
    {
        if sizes[i][0] != first[0] || sizes[i][1] != first[1] {
            assert(sizes@[i as int]@ != first@);
            return None;
        }
        assert(sizes@[i as int]@ =~= first@);
        i = i + 1;
    }
    Some(first)
}

/// Shows source images, one at a time.
pub struct SourceView {
    playback: Playback,
    fps: u32,
    images: Vec<TextureId>,
    current_img_idx: usize,
    image_size: [u32; 2],
    planet: Option<Planet>,
    current_image_subscribers: SubscriberCollection<CurrentImage>,
}

impl SourceView {
    /// The textures of the images, in the order of the sequence.
    pub closed spec fn spec_images(&self) -> Seq<TextureId> {
        self.images@
    }

    pub closed spec fn spec_current_image_idx(&self) -> int {
        self.current_img_idx as int
    }

    pub closed spec fn spec_image_size(&self) -> [u32; 2] {
        self.image_size
    }

    pub closed spec fn spec_fps(&self) -> u32 {
        self.fps
    }

    /// The planet selected; `None` means "custom".
    pub closed spec fn spec_planet(&self) -> Option<Planet> {
        self.planet
    }

    pub closed spec fn spec_playback(&self) -> Playback {
        self.playback
    }

    /// Who is told of a change of the current image, oldest first.
    pub closed spec fn spec_subscribers(&self) -> Seq<SubscriberId> {
        self.current_image_subscribers@
    }

    /// What subscribers are told while image `index` is current.
    pub open spec fn current_image_at(&self, index: int) -> CurrentImage {
        (index as usize, self.spec_images()[index])
    }

    /// There is at least one image; the current image and the first frame
    /// of playback are images of the sequence. Every view that `new` makes is
    /// so, and every method keeps it so.
    pub closed spec fn wf(&self) -> bool {
        &&& self.images@.len() > 0
        &&& self.current_img_idx < self.images@.len()
        &&& self.playback.wf()
        &&& self.playback.spec_first_frame() matches Some(first) ==> first < self.images@.len()
    }

    /// What every view has.
    pub proof fn lemma_wf(&self)
        requires
            self.wf(),
        ensures
            self.spec_images().len() > 0,
            0 <= self.spec_current_image_idx() < self.spec_images().len(),
            self.spec_playback().wf(),
    {
    }

    /// A view of `src_images`, which all have the size `image_size`: the
    /// first image is current, playback is stopped, nobody is subscribed.
    pub fn new(src_images: Vec<TextureId>, image_size: [u32; 2]) -> (view: SourceView)
        requires
            src_images@.len() > 0,
            image_size@[0] > 0,
            image_size@[1] > 0,
        ensures
            view.wf(),
            view.spec_images() == src_images@,
            view.spec_current_image_idx() == 0,
            view.spec_image_size() == image_size,
            view.spec_fps() == DEFAULT_FPS,
            view.spec_planet() == Some(Planet::Jupiter),
            !view.spec_playback().spec_enabled(),
            view.spec_playback().spec_initial_bouncing_back() == Some(false),
            view.spec_playback().spec_current_bouncing_back() == Some(false),
            view.spec_subscribers() == Seq::<SubscriberId>::empty(),
    {
        SourceView {
            playback: Playback::new(),
            fps: DEFAULT_FPS,
            images: src_images,
            current_img_idx: 0,
            image_size,
            planet: Some(Planet::Jupiter),
            current_image_subscribers: SubscriberCollection::new(),
        }
    }

    pub fn texture_ids(&self) -> (ids: Vec<TextureId>)
        ensures
            ids@ == self.spec_images(),
    {
        self.images.clone()
    }

    pub fn num_images(&self) -> (count: usize)
        requires
            self.wf(),
        ensures
            count == self.spec_images().len(),
            count > 0,
    {
        self.images.len()
    }

    pub fn current_image(&self) -> (texture: TextureId)
        requires
            self.wf(),
        ensures
            0 <= self.spec_current_image_idx() < self.spec_images().len(),
            texture == self.spec_images()[self.spec_current_image_idx()],
    {
        self.images[self.current_img_idx]
    }

    pub fn image_size(&self) -> (size: [u32; 2])
        ensures
            size == self.spec_image_size(),
    {
        self.image_size
    }

    pub fn current_image_idx(&self) -> (index: usize)
        requires
            self.wf(),
        ensures
            index == self.spec_current_image_idx(),
            index < self.spec_images().len(),
    {
        self.current_img_idx
    }

    pub fn fps(&self) -> (fps: u32)
        ensures
            fps == self.spec_fps(),
    {
        self.fps
    }

    pub fn planet(&self) -> (planet: Option<Planet>)
        ensures
            planet == self.spec_planet(),
    {
        self.planet
    }

    pub fn playing(&self) -> (playing: bool)
        ensures
            playing == self.spec_playback().spec_enabled(),
    {
        self.playback.playing()
    }

    pub fn bouncing_back_enabled(&self) -> (enabled: bool)
        ensures
            enabled == self.spec_playback().spec_initial_bouncing_back() is Some,
    {
        self.playback.bouncing_back_enabled()
    }

    /// Selects a planet, or "custom" with `None`.
    pub fn set_planet(&mut self, planet: Option<Planet>)
        requires
            old(self).wf(),
        ensures
            final(self).wf(),
            final(self).spec_planet() == planet,
            final(self).spec_images() == old(self).spec_images(),
            final(self).spec_current_image_idx() == old(self).spec_current_image_idx(),
            final(self).spec_image_size() == old(self).spec_image_size(),
            final(self).spec_fps() == old(self).spec_fps(),
            final(self).spec_playback() == old(self).spec_playback(),
            final(self).spec_subscribers() == old(self).spec_subscribers(),
    {
        self.planet = planet;
    }

    /// Subscribes `subscriber` to changes of the current image.
    pub fn subscribe_current_img(&mut self, subscriber: SubscriberId)
        requires
            old(self).wf(),
        ensures
            final(self).wf(),
            final(self).spec_subscribers() == old(self).spec_subscribers().push(subscriber),
            final(self).spec_images() == old(self).spec_images(),
            final(self).spec_current_image_idx() == old(self).spec_current_image_idx(),
            final(self).spec_image_size() == old(self).spec_image_size(),
            final(self).spec_fps() == old(self).spec_fps(),
            final(self).spec_planet() == old(self).spec_planet(),
            final(self).spec_playback() == old(self).spec_playback(),
    {
        self.current_image_subscribers.add(subscriber);
    }

    /// Replaces the sequence by `src_images`, which all have the size
    /// `image_size`. The first image becomes current, the subscribers are
    /// told of it, and playback starts over from it.
    pub fn set_images<S: Subscriber<CurrentImage>>(
        &mut self,
        src_images: Vec<TextureId>,
        image_size: [u32; 2],
        arena: &mut SubscriberArena<S>,
    )
        requires
            old(self).wf(),
            src_images@.len() > 0,
        ensures
            final(self).wf(),
            final(self).spec_images() == src_images@,
            final(self).spec_image_size() == image_size,
            final(self).spec_current_image_idx() == 0,
            final(self).spec_fps() == old(self).spec_fps(),
            final(self).spec_planet() == old(self).spec_planet(),
            final(self).spec_subscribers() == old(self).spec_subscribers().filter(
                live_in(old(arena)@),
            ),
            final(arena)@ == delivered(
                old(arena)@,
                old(self).spec_subscribers(),
                (0usize, src_images@[0]),
            ),
            final(self).spec_playback().spec_enabled() == old(self).spec_playback().spec_enabled(),
            final(self).spec_playback().spec_first_frame() == Some(0usize),
            final(self).spec_playback().spec_initial_bouncing_back() == old(self).spec_playback().spec_current_bouncing_back(),
            final(self).spec_playback().spec_current_bouncing_back() == old(self).spec_playback().spec_current_bouncing_back(),
    {
        let first = src_images[0];
        self.current_img_idx = 0;
        self.playback.reset(0);
        self.images = src_images;
        self.image_size = image_size;
        self.current_image_subscribers.notify(arena, &(0, first));
    }

    /// Makes image `idx` current and tells the subscribers, if there is such
    /// an image; does nothing otherwise. Returns whether there is.
    pub fn set_image_idx<S: Subscriber<CurrentImage>>(
        &mut self,
        idx: usize,
        arena: &mut SubscriberArena<S>,
    ) -> (accepted: bool)
        requires
            old(self).wf(),
        ensures
            final(self).wf(),
            accepted == (idx < old(self).spec_images().len()),
            final(self).spec_images() == old(self).spec_images(),
            final(self).spec_image_size() == old(self).spec_image_size(),
            final(self).spec_fps() == old(self).spec_fps(),
            final(self).spec_planet() == old(self).spec_planet(),
            final(self).spec_playback() == old(self).spec_playback(),
            accepted ==> {
                &&& final(self).spec_current_image_idx() == idx
                &&& final(self).spec_subscribers() == old(self).spec_subscribers().filter(
                    live_in(old(arena)@),
                )
                &&& final(arena)@ == delivered(
                    old(arena)@,
                    old(self).spec_subscribers(),
                    old(self).current_image_at(idx as int),
                )
            },
            !accepted ==> {
                &&& final(self).spec_current_image_idx() == old(self).spec_current_image_idx()
                &&& final(self).spec_subscribers() == old(self).spec_subscribers()
                &&& final(arena)@ == old(arena)@
            },
    {
        if idx >= self.images.len() {
            return false;
        }
        self.current_img_idx = idx;
        let texture = self.images[idx];
        self.current_image_subscribers.notify(arena, &(idx, texture));
        true
    }

    /// Sets the speed of playback and starts the count of elapsed frames
    /// over at the current image.
    pub fn set_fps(&mut self, fps: u32)
        requires
            old(self).wf(),
        ensures
            final(self).wf(),
            final(self).spec_fps() == fps,
            final(self).spec_images() == old(self).spec_images(),
            final(self).spec_current_image_idx() == old(self).spec_current_image_idx(),
            final(self).spec_image_size() == old(self).spec_image_size(),
            final(self).spec_planet() == old(self).spec_planet(),
            final(self).spec_subscribers() == old(self).spec_subscribers(),
            final(self).spec_playback().spec_enabled() == old(self).spec_playback().spec_enabled(),
            final(self).spec_playback().spec_first_frame() == Some(
                old(self).spec_current_image_idx() as usize,
            ),
            final(self).spec_playback().spec_initial_bouncing_back() == old(self).spec_playback().spec_current_bouncing_back(),
            final(self).spec_playback().spec_current_bouncing_back() == old(self).spec_playback().spec_current_bouncing_back(),
    {
        self.fps = fps;
        self.playback.reset(self.current_img_idx);
    }

    /// Starts playback at the current image if it is stopped, stops it if
    /// it runs.
    pub fn toggle_playing(&mut self)
        requires
            old(self).wf(),
        ensures
            final(self).wf(),
            final(self).spec_images() == old(self).spec_images(),
            final(self).spec_current_image_idx() == old(self).spec_current_image_idx(),
            final(self).spec_image_size() == old(self).spec_image_size(),
            final(self).spec_fps() == old(self).spec_fps(),
            final(self).spec_planet() == old(self).spec_planet(),
            final(self).spec_subscribers() == old(self).spec_subscribers(),
            final(self).spec_playback().spec_enabled() == !old(self).spec_playback().spec_enabled(),
            final(self).spec_playback().spec_enabled() ==> final(self).spec_playback().spec_first_frame() == Some(
                old(self).spec_current_image_idx() as usize,
            ),
    {
        self.playback.toggle_playing(self.current_img_idx);
    }

    /// Switches between plain wraparound and bouncing back and forth.
    pub fn toggle_bouncing_back(&mut self)
        requires
            old(self).wf(),
        ensures
            final(self).wf(),
            final(self).spec_images() == old(self).spec_images(),
            final(self).spec_current_image_idx() == old(self).spec_current_image_idx(),
            final(self).spec_image_size() == old(self).spec_image_size(),
            final(self).spec_fps() == old(self).spec_fps(),
            final(self).spec_planet() == old(self).spec_planet(),
            final(self).spec_subscribers() == old(self).spec_subscribers(),
            final(self).spec_playback().spec_enabled() == old(self).spec_playback().spec_enabled(),
            final(self).spec_playback().spec_initial_bouncing_back() is Some == old(self).spec_playback().spec_initial_bouncing_back() is None,
    {
        self.playback.toggle_bouncing_back();
    }

    /// Moves playback on to where it is `elapsed_frames` frame intervals
    /// after it was started or reset. If that makes another image current,
    /// the subscribers are told. Returns whether it does.
    pub fn play<S: Subscriber<CurrentImage>>(
        &mut self,
        elapsed_frames: usize,
        arena: &mut SubscriberArena<S>,
    ) -> (changed: bool)
        requires
            old(self).wf(),
        ensures
            final(self).wf(),
            final(self).spec_images() == old(self).spec_images(),
            final(self).spec_image_size() == old(self).spec_image_size(),
            final(self).spec_fps() == old(self).spec_fps(),
            final(self).spec_planet() == old(self).spec_planet(),
            final(self).spec_playback().spec_enabled() == old(self).spec_playback().spec_enabled(),
            final(self).spec_playback().spec_first_frame() == old(self).spec_playback().spec_first_frame(),
            final(self).spec_playback().spec_initial_bouncing_back() == old(self).spec_playback().spec_initial_bouncing_back(),
            !old(self).spec_playback().spec_enabled() ==> {
                &&& !changed
                &&& final(self).spec_playback().spec_current_bouncing_back() == old(
                    self,
                ).spec_playback().spec_current_bouncing_back()
            },
            old(self).spec_playback().spec_enabled() ==> {
                let playback = old(self).spec_playback();
                &&& final(self).spec_current_image_idx() == advanced_frame(
                    playback.spec_first_frame()->0 as int,
                    elapsed_frames as int,
                    old(self).spec_images().len() as int,
                    playback.spec_initial_bouncing_back(),
                )
                &&& final(self).spec_playback().spec_current_bouncing_back() == advanced_direction(
                    playback.spec_first_frame()->0 as int,
                    elapsed_frames as int,
                    old(self).spec_images().len() as int,
                    playback.spec_initial_bouncing_back(),
                    playback.spec_current_bouncing_back(),
                )
            },
            changed == (final(self).spec_current_image_idx() != old(self).spec_current_image_idx()),
            changed ==> {
                &&& final(self).spec_subscribers() == old(self).spec_subscribers().filter(
                    live_in(old(arena)@),
                )
                &&& final(arena)@ == delivered(
                    old(arena)@,
                    old(self).spec_subscribers(),
                    old(self).current_image_at(final(self).spec_current_image_idx()),
                )
            },
            !changed ==> {
                &&& final(self).spec_subscribers() == old(self).spec_subscribers()
                &&& final(arena)@ == old(arena)@
            },
    {
        let prev_frame = self.current_img_idx;
        match self.playback.play(elapsed_frames, self.images.len()) {
            None => false,
            Some(frame) => {
                if frame != prev_frame {
                    self.current_img_idx = frame;
                    let texture = self.images[frame];
                    self.current_image_subscribers.notify(arena, &(frame, texture));
                    true
                } else {
                    false
                }
            },
        }
    }
}

} // verus!
