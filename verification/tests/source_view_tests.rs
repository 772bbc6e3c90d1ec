use vislumino::projection::source_view::{check_sizes_match, CurrentImage, SourceView, DEFAULT_FPS};
use vislumino::projection::Planet;
use vislumino::subscriber::{Subscriber, SubscriberArena};

struct Follower {
    seen: Vec<CurrentImage>,
}

impl Subscriber<CurrentImage> for Follower {
    fn notified(mut self, value: CurrentImage) -> Self {
        self.seen.push(value);
        self
    }

    fn notify(&mut self, value: &CurrentImage) {
        self.seen.push(*value);
    }
}

fn follower() -> Follower {
    Follower { seen: vec![] }
}

#[test]
fn sizes_match_when_all_are_equal() {
    assert_eq!(check_sizes_match(&vec![[4, 3], [4, 3], [4, 3]]), Some([4, 3]));
    assert_eq!(check_sizes_match(&vec![[4, 3]]), Some([4, 3]));
    assert_eq!(check_sizes_match(&vec![]), None);
    assert_eq!(check_sizes_match(&vec![[4, 3], [4, 3], [3, 4]]), None);
    assert_eq!(check_sizes_match(&vec![[4, 3], [4, 2]]), None);
    assert_eq!(check_sizes_match(&vec![[4, 3], [5, 3]]), None);
}

#[test]
fn new_view_shows_the_first_image() {
    let view = SourceView::new(vec![11, 12, 13], [640, 480]);
    assert_eq!(view.num_images(), 3);
    assert_eq!(view.current_image_idx(), 0);
    assert_eq!(view.current_image(), 11);
    assert_eq!(view.image_size(), [640, 480]);
    assert_eq!(view.texture_ids(), vec![11, 12, 13]);
    assert_eq!(view.fps(), DEFAULT_FPS);
    assert_eq!(view.fps(), 25);
    assert_eq!(view.planet(), Some(Planet::Jupiter));
    assert!(!view.playing());
    assert!(view.bouncing_back_enabled());
}

#[test]
fn choosing_an_image_tells_the_subscribers() {
    let mut arena = SubscriberArena::new();
    let a = arena.insert(follower());
    let b = arena.insert(follower());
    let mut view = SourceView::new(vec![11, 12, 13], [640, 480]);
    view.subscribe_current_img(a);
    view.subscribe_current_img(b);
    assert!(view.set_image_idx(2, &mut arena));
    assert_eq!(view.current_image_idx(), 2);
    assert_eq!(arena.get(a).unwrap().seen, vec![(2, 13)]);
    assert_eq!(arena.get(b).unwrap().seen, vec![(2, 13)]);
    // no such image: nothing happens
    assert!(!view.set_image_idx(3, &mut arena));
    assert_eq!(view.current_image_idx(), 2);
    assert_eq!(arena.get(a).unwrap().seen, vec![(2, 13)]);
}

#[test]
fn destroyed_view_is_no_longer_told() {
    let mut arena = SubscriberArena::new();
    let a = arena.insert(follower());
    let b = arena.insert(follower());
    let mut view = SourceView::new(vec![11, 12, 13], [640, 480]);
    view.subscribe_current_img(a);
    view.subscribe_current_img(b);
    view.set_image_idx(1, &mut arena);
    arena.remove(a);
    view.set_image_idx(2, &mut arena);
    assert_eq!(arena.get(b).unwrap().seen, vec![(1, 12), (2, 13)]);
    assert!(arena.get(a).is_none());
}

#[test]
fn new_images_start_at_the_first() {
    let mut arena = SubscriberArena::new();
    let a = arena.insert(follower());
    let mut view = SourceView::new(vec![11, 12, 13], [640, 480]);
    view.subscribe_current_img(a);
    view.set_image_idx(2, &mut arena);
    view.set_images(vec![21, 22], [320, 200], &mut arena);
    assert_eq!(view.num_images(), 2);
    assert_eq!(view.current_image_idx(), 0);
    assert_eq!(view.current_image(), 21);
    assert_eq!(view.image_size(), [320, 200]);
    assert_eq!(arena.get(a).unwrap().seen, vec![(2, 13), (0, 21)]);
}

#[test]
fn playback_moves_the_current_image_and_tells_the_subscribers() {
    let mut arena = SubscriberArena::new();
    let a = arena.insert(follower());
    let mut view = SourceView::new(vec![10, 11, 12, 13, 14], [640, 480]);
    view.subscribe_current_img(a);
    // stopped: nothing moves
    assert!(!view.play(3, &mut arena));
    view.set_image_idx(2, &mut arena);
    view.toggle_playing();
    assert!(view.playing());
    assert!(!view.play(0, &mut arena));
    assert!(view.play(3, &mut arena));
    assert_eq!(view.current_image_idx(), 3);
    assert!(!view.play(3, &mut arena));
    assert!(view.play(7, &mut arena));
    assert_eq!(view.current_image_idx(), 1);
    assert_eq!(arena.get(a).unwrap().seen, vec![(2, 12), (3, 13), (1, 11)]);
    view.toggle_playing();
    assert!(!view.play(9, &mut arena));
}

#[test]
fn playback_without_bouncing_wraps_around() {
    let mut arena: SubscriberArena<Follower> = SubscriberArena::new();
    let mut view = SourceView::new(vec![10, 11, 12, 13, 14], [640, 480]);
    view.set_image_idx(2, &mut arena);
    view.toggle_playing();
    view.toggle_bouncing_back();
    assert!(!view.bouncing_back_enabled());
    assert!(view.play(3, &mut arena));
    assert_eq!(view.current_image_idx(), 0);
}

#[test]
fn changing_the_speed_restarts_the_count_at_the_current_image() {
    let mut arena: SubscriberArena<Follower> = SubscriberArena::new();
    let mut view = SourceView::new(vec![10, 11, 12, 13, 14], [640, 480]);
    view.toggle_playing();
    assert!(view.play(2, &mut arena));
    view.set_fps(50);
    assert_eq!(view.fps(), 50);
    assert!(view.play(1, &mut arena));
    assert_eq!(view.current_image_idx(), 3);
}

#[test]
fn planet_can_be_changed() {
    let mut view = SourceView::new(vec![10], [1, 1]);
    view.set_planet(None);
    assert_eq!(view.planet(), None);
    view.set_planet(Some(Planet::Mars));
    assert_eq!(view.planet(), Some(Planet::Mars));
}
