use vislumino::channel::Polled;
use vislumino::gui::{LongTaskDialog, ProgressMsg};
use vislumino::image::{Image, PixelFormat};
use vislumino::projection::image_loading::{handle_image_loading, load_images_task, ImageLoading, LoadingStep};
use vislumino::projection::worker::{LoadImagesResultMsg, MainToWorkerMsg, Worker, WorkerEvent, WorkerOutput};
use vislumino::img_seq::ImgSeqError;
use vislumino::projection::{DragRotation, ExportDialog, Planet, ProjectionType, NUM_PLANETS};

#[test]
fn planets_have_names() {
    assert_eq!(Planet::Jupiter.name(), "Jupiter");
    assert_eq!(Planet::Mars.name(), "Mars");
}

#[test]
fn planets_rotate() {
    assert_eq!(Planet::Jupiter.sidereal_rotation(), 35730);
    assert_eq!(Planet::Mars.sidereal_rotation(), 88643);
}

#[test]
fn planets_are_numbered_in_order() {
    assert_eq!(Planet::Jupiter.as_index(), 0);
    assert_eq!(Planet::Mars.as_index(), 1);
    assert_eq!(NUM_PLANETS, 2);
    for index in 0..NUM_PLANETS {
        assert_eq!(Planet::from_index(index).unwrap().as_index(), index);
    }
    assert_eq!(Planet::from_index(2), None);
}

#[test]
fn view_settings_compare() {
    assert!(ProjectionType::Equirectangular != ProjectionType::LambertCylindricalEqualArea);
    assert!(DragRotation::NSEW != DragRotation::Free);
}

#[test]
fn export_dialog_starts_without_bounce_back() {
    let dialog = ExportDialog::new("Export".to_string(), Some("/tmp/out".to_string()));
    assert_eq!(dialog.title(), "Export");
    assert_eq!(dialog.output_path(), "/tmp/out");
    assert!(dialog.has_output_path());
    assert!(!dialog.bounce_back());
    assert!(dialog.confirm().is_ok());
}

#[test]
fn export_dialog_without_a_folder_cannot_be_confirmed() {
    let mut dialog = ExportDialog::new("Export".to_string(), None);
    assert!(!dialog.has_output_path());
    let message_box = dialog.confirm().unwrap_err();
    assert_eq!(message_box.title, "Error");
    assert_eq!(message_box.message, "Output folder not selected.");
    dialog.set_output_path("somewhere".to_string());
    dialog.set_bounce_back(true);
    assert!(dialog.confirm().is_ok());
    assert_eq!(dialog.output_path(), "somewhere");
    assert!(dialog.bounce_back());
    assert_eq!(dialog.title(), "Export");
}

#[test]
fn progress_message_keeps_its_parts() {
    let msg = ProgressMsg::new("Loaded a.png.".to_string(), 3, 7);
    assert_eq!(msg.info(), "Loaded a.png.");
    assert_eq!(msg.done(), 3);
    assert_eq!(msg.total(), 7);
}

#[test]
fn image_sequence_error_says_what_it_was_given() {
    let error = ImgSeqError::new("no such frame".to_string());
    assert_eq!(error.to_string(), "no such frame");
}

#[test]
fn long_task_dialog_shows_the_last_report() {
    let (_sender, receiver) = crossbeam::channel::bounded(1);
    let mut dialog = LongTaskDialog::new("Image Loading".to_string(), "".to_string(), receiver);
    assert_eq!(dialog.title(), "Image Loading");
    assert_eq!(dialog.info(), "");
    assert_eq!(dialog.progress(), (0, 1));
    assert!(dialog.update(Polled::Empty));
    assert_eq!(dialog.progress(), (0, 1));
    assert!(dialog.update(Polled::Message(ProgressMsg::new("Loaded a.png.".to_string(), 2, 5))));
    assert_eq!(dialog.info(), "Loaded a.png.");
    assert_eq!(dialog.progress(), (2, 5));
    assert!(dialog.update(Polled::Empty));
    assert_eq!(dialog.info(), "Loaded a.png.");
    assert!(!dialog.update(Polled::Disconnected));
    assert_eq!(dialog.progress(), (2, 5));
    assert_eq!(dialog.title(), "Image Loading");
}

#[test]
fn long_task_dialog_follows_its_channel() {
    let (sender, receiver) = crossbeam::channel::bounded(1);
    let mut dialog = LongTaskDialog::new("Exporting".to_string(), "".to_string(), receiver);
    assert!(dialog.handle_long_task());
    assert_eq!(dialog.progress(), (0, 1));
    sender.try_send(ProgressMsg::new("Saved 1.".to_string(), 0, 3)).unwrap();
    // the report that waits is kept, the next one is dropped
    assert!(sender.try_send(ProgressMsg::new("Saved 2.".to_string(), 1, 3)).is_err());
    assert!(dialog.handle_long_task());
    assert_eq!(dialog.info(), "Saved 1.");
    assert_eq!(dialog.progress(), (0, 3));
    assert!(dialog.handle_long_task());
    assert_eq!(dialog.info(), "Saved 1.");
    sender.try_send(ProgressMsg::new("Saved 3.".to_string(), 2, 3)).unwrap();
    drop(sender);
    // what was sent before the sender went away is still read
    assert!(dialog.handle_long_task());
    assert_eq!(dialog.info(), "Saved 3.");
    assert!(!dialog.handle_long_task());
    assert_eq!(dialog.info(), "Saved 3.");
    assert_eq!(dialog.progress(), (2, 3));
}

#[test]
fn image_loading_follows_its_channel() {
    let (sender, receiver) = crossbeam::channel::unbounded();
    let loading = ImageLoading { textures: vec![1, 2], receiver };
    assert!(matches!(loading.poll(), LoadingStep::Pending));
    sender.send(LoadImagesResultMsg::Error("a.png is broken".to_string())).unwrap();
    match loading.poll() {
        LoadingStep::Failed(message_box) => {
            assert_eq!(message_box.title, "Error");
            assert_eq!(message_box.message, "Failed to load images: a.png is broken.");
        }
        _ => panic!("a failed batch shows a message box"),
    }
    assert!(matches!(loading.poll(), LoadingStep::Pending));
    sender.send(LoadImagesResultMsg::Cancelled).unwrap();
    assert!(matches!(loading.poll(), LoadingStep::Cancelled));
    drop(sender);
    assert!(matches!(loading.poll(), LoadingStep::Lost));
}

#[test]
fn answer_of_the_worker_decides_how_loading_ends() {
    assert!(matches!(handle_image_loading(Polled::Empty), LoadingStep::Pending));
    assert!(matches!(handle_image_loading(Polled::Disconnected), LoadingStep::Lost));
    assert!(matches!(handle_image_loading(Polled::Message(LoadImagesResultMsg::Cancelled)), LoadingStep::Cancelled));
    match handle_image_loading(Polled::Message(LoadImagesResultMsg::Error("no disk".to_string()))) {
        LoadingStep::Failed(message_box) => {
            assert_eq!(message_box.title, "Error");
            assert_eq!(message_box.message, "Failed to load images: no disk.");
        }
        _ => panic!("a failed batch shows a message box"),
    }

    let task = load_images_task(12, 12, vec![5], vec!["only.png".to_string()]);
    assert_eq!(task.dimensions, [12, 12]);
    assert_eq!(task.pixel_format, PixelFormat::RGB8);
    assert_eq!(task.items, vec![(5, "only.png".to_string())]);
    let mut pixels = vec![0u8; 12 * 12 * 3];
    for y in 0..12i64 {
        for x in 0..12i64 {
            if (x - 6) * (x - 6) + (y - 5) * (y - 5) <= 9 {
                for c in 0..3 {
                    pixels[((y * 12 + x) * 3 + c) as usize] = 90;
                }
            }
        }
    }
    let mut worker = Worker::new();
    worker.handle(WorkerEvent::Command(MainToWorkerMsg::LoadImages(task)));
    worker.handle(WorkerEvent::Polled(false));
    let mut outputs = worker.handle(WorkerEvent::ImageLoaded(Image::new(12, 12, PixelFormat::RGB8, pixels).unwrap()));
    match outputs.pop() {
        Some(WorkerOutput::Result(result)) => match handle_image_loading(Polled::Message(result)) {
            LoadingStep::Loaded(info) => assert_eq!(info.diameter, 6),
            _ => panic!("the batch is loaded"),
        },
        _ => panic!("the batch ends with a result"),
    }
}
