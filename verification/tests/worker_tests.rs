use vislumino::image::{Image, PixelFormat};
use vislumino::projection::worker::{
    output_file_name, progress_after_saving, Awaited, LoadImages, LoadImagesResultMsg, MainToWorkerMsg,
    Projection, Worker, WorkerEvent, WorkerOutput,
};
use vislumino::projection::ProjectionType;

fn rgb_disk(width: u32, height: u32, cx: i64, cy: i64, radius: i64) -> Image {
    let mut pixels = vec![0u8; (width * height * 3) as usize];
    for y in 0..height as i64 {
        for x in 0..width as i64 {
            if (x - cx) * (x - cx) + (y - cy) * (y - cy) <= radius * radius {
                let at = ((y * width as i64 + x) * 3) as usize;
                pixels[at] = 250;
                pixels[at + 1] = 200;
                pixels[at + 2] = 150;
            }
        }
    }
    Image::new(width, height, PixelFormat::RGB8, pixels).unwrap()
}

fn batch(paths: &[&str]) -> LoadImages {
    LoadImages {
        dimensions: [40, 30],
        pixel_format: PixelFormat::RGB8,
        items: paths.iter().enumerate().map(|(i, p)| (100 + i as u32, p.to_string())).collect(),
    }
}

fn projection(count: usize, bounce_back: bool) -> Projection {
    Projection {
        source_texture_ids: (0..count as u32).map(|i| 7 + i).collect(),
        output_dir: "out".to_string(),
        bounce_back,
        projection_type: ProjectionType::Equirectangular,
    }
}

#[test]
fn worker_starts_idle_and_stops_when_disconnected() {
    let mut worker = Worker::new();
    assert_eq!(worker.awaits(), Awaited::Command);
    assert!(!worker.is_running());
    assert!(worker.handle(WorkerEvent::Disconnected).is_empty());
    assert_eq!(worker.awaits(), Awaited::Nothing);
    assert!(!worker.is_running());
}

#[test]
fn loading_a_batch_reports_each_image_and_the_disk() {
    let mut worker = Worker::new();
    let outputs = worker.handle(WorkerEvent::Command(MainToWorkerMsg::LoadImages(batch(&["a.png", "b.png"]))));
    assert!(outputs.is_empty());
    assert!(worker.is_running());
    assert_eq!(worker.awaits(), Awaited::Poll);
    assert!(worker.handle(WorkerEvent::Polled(false)).is_empty());
    assert_eq!(worker.awaits(), Awaited::Image { index: 0 });

    let outputs = worker.handle(WorkerEvent::ImageLoaded(rgb_disk(40, 30, 20, 14, 8)));
    assert_eq!(outputs.len(), 2);
    match &outputs[0] {
        WorkerOutput::StoreImage { texture, image } => {
            assert_eq!(*texture, 100);
            assert_eq!(image.width(), 40);
        }
        _ => panic!("the image is stored first"),
    }
    match &outputs[1] {
        WorkerOutput::Progress(msg) => {
            assert_eq!(msg.info(), "Loaded a.png.");
            assert_eq!((msg.done(), msg.total()), (0, 2));
        }
        _ => panic!("progress is reported after the image is stored"),
    }
    assert_eq!(worker.awaits(), Awaited::Poll);
    assert!(worker.handle(WorkerEvent::Polled(false)).is_empty());
    assert_eq!(worker.awaits(), Awaited::Image { index: 1 });

    // the second image is not searched for a disk
    let black = Image::new(40, 30, PixelFormat::RGB8, vec![0; 40 * 30 * 3]).unwrap();
    let outputs = worker.handle(WorkerEvent::ImageLoaded(black));
    assert_eq!(outputs.len(), 3);
    assert!(matches!(&outputs[0], WorkerOutput::StoreImage { texture: 101, .. }));
    match &outputs[1] {
        WorkerOutput::Progress(msg) => {
            assert_eq!(msg.info(), "Loaded b.png.");
            assert_eq!((msg.done(), msg.total()), (1, 2));
        }
        _ => panic!("progress is reported"),
    }
    match &outputs[2] {
        WorkerOutput::Result(LoadImagesResultMsg::Success(info)) => {
            assert_eq!(info.diameter, 16);
            assert_eq!(info.center.moment_x(), 20 * info.center.mass());
            assert_eq!(info.center.moment_y(), 14 * info.center.mass());
        }
        _ => panic!("the batch ends with success"),
    }
    assert_eq!(worker.awaits(), Awaited::Command);
    assert!(!worker.is_running());
}

#[test]
fn cancel_before_the_first_image_ends_the_batch() {
    let mut worker = Worker::new();
    worker.handle(WorkerEvent::Command(MainToWorkerMsg::LoadImages(batch(&["a.png"]))));
    let outputs = worker.handle(WorkerEvent::Polled(true));
    assert_eq!(outputs.len(), 1);
    assert!(matches!(&outputs[0], WorkerOutput::Result(LoadImagesResultMsg::Cancelled)));
    assert_eq!(worker.awaits(), Awaited::Command);
}

#[test]
fn cancel_in_the_middle_of_a_batch_ends_it_without_further_progress() {
    let mut worker = Worker::new();
    worker.handle(WorkerEvent::Command(MainToWorkerMsg::LoadImages(batch(&["a.png", "b.png", "c.png"]))));
    worker.handle(WorkerEvent::Polled(false));
    let outputs = worker.handle(WorkerEvent::ImageLoaded(rgb_disk(40, 30, 20, 14, 8)));
    assert_eq!(outputs.len(), 2);
    let outputs = worker.handle(WorkerEvent::Polled(true));
    assert_eq!(outputs.len(), 1);
    assert!(matches!(&outputs[0], WorkerOutput::Result(LoadImagesResultMsg::Cancelled)));
    assert!(!worker.is_running());
    // the worker takes the next job
    let outputs = worker.handle(WorkerEvent::Command(MainToWorkerMsg::Projection(projection(0, false))));
    assert_eq!(outputs.len(), 1);
    assert!(matches!(&outputs[0], WorkerOutput::ProjectionDone { cancelled: false }));
}

#[test]
fn image_that_cannot_be_decoded_fails_the_batch() {
    let mut worker = Worker::new();
    worker.handle(WorkerEvent::Command(MainToWorkerMsg::LoadImages(batch(&["a.png", "b.png"]))));
    worker.handle(WorkerEvent::Polled(false));
    let outputs = worker.handle(WorkerEvent::ImageFailed("not an image".to_string()));
    assert_eq!(outputs.len(), 1);
    match &outputs[0] {
        WorkerOutput::Result(LoadImagesResultMsg::Error(message)) => assert_eq!(message, "not an image"),
        _ => panic!("the batch fails"),
    }
    assert_eq!(worker.awaits(), Awaited::Command);
}

#[test]
fn image_of_other_dimensions_fails_the_batch() {
    let mut worker = Worker::new();
    worker.handle(WorkerEvent::Command(MainToWorkerMsg::LoadImages(batch(&["a.png"]))));
    worker.handle(WorkerEvent::Polled(false));
    let outputs = worker.handle(WorkerEvent::ImageLoaded(rgb_disk(41, 30, 20, 14, 8)));
    assert_eq!(outputs.len(), 1);
    match &outputs[0] {
        WorkerOutput::Result(LoadImagesResultMsg::Error(message)) => {
            assert_eq!(message, "unexpected image dimensions (expected 40x30, found 41x30)")
        }
        _ => panic!("the batch fails"),
    }
    assert!(!worker.is_running());
}

#[test]
fn image_of_other_height_fails_the_batch() {
    let mut worker = Worker::new();
    worker.handle(WorkerEvent::Command(MainToWorkerMsg::LoadImages(batch(&["a.png"]))));
    worker.handle(WorkerEvent::Polled(false));
    let outputs = worker.handle(WorkerEvent::ImageLoaded(rgb_disk(40, 1200, 20, 14, 8)));
    match &outputs[0] {
        WorkerOutput::Result(LoadImagesResultMsg::Error(message)) => {
            assert_eq!(message, "unexpected image dimensions (expected 40x30, found 40x1200)")
        }
        _ => panic!("the batch fails"),
    }
}

#[test]
fn image_of_other_pixel_format_fails_the_batch() {
    let mut worker = Worker::new();
    worker.handle(WorkerEvent::Command(MainToWorkerMsg::LoadImages(batch(&["a.png"]))));
    worker.handle(WorkerEvent::Polled(false));
    let gray = Image::new(40, 30, PixelFormat::Mono8, vec![0; 1200]).unwrap();
    let outputs = worker.handle(WorkerEvent::ImageLoaded(gray));
    assert_eq!(outputs.len(), 1);
    match &outputs[0] {
        WorkerOutput::Result(LoadImagesResultMsg::Error(message)) => {
            assert_eq!(message, "unexpected pixel format (expected RGB8, found Mono8)")
        }
        _ => panic!("the batch fails"),
    }
}

#[test]
fn first_image_without_a_disk_fails_the_batch_after_it_is_stored() {
    let mut worker = Worker::new();
    worker.handle(WorkerEvent::Command(MainToWorkerMsg::LoadImages(batch(&["a.png", "b.png"]))));
    worker.handle(WorkerEvent::Polled(false));
    let black = Image::new(40, 30, PixelFormat::RGB8, vec![0; 40 * 30 * 3]).unwrap();
    let outputs = worker.handle(WorkerEvent::ImageLoaded(black));
    assert_eq!(outputs.len(), 2);
    assert!(matches!(&outputs[0], WorkerOutput::StoreImage { texture: 100, .. }));
    match &outputs[1] {
        WorkerOutput::Result(LoadImagesResultMsg::Error(message)) => {
            assert_eq!(message, "could not find planetary disk")
        }
        _ => panic!("the batch fails"),
    }
    assert_eq!(worker.awaits(), Awaited::Command);
}

#[test]
fn image_with_wide_channels_has_no_disk() {
    let mut worker = Worker::new();
    let mut task = batch(&["a.png"]);
    task.pixel_format = PixelFormat::Mono16;
    worker.handle(WorkerEvent::Command(MainToWorkerMsg::LoadImages(task)));
    worker.handle(WorkerEvent::Polled(false));
    let wide = Image::new(40, 30, PixelFormat::Mono16, vec![255; 2400]).unwrap();
    let outputs = worker.handle(WorkerEvent::ImageLoaded(wide));
    assert_eq!(outputs.len(), 2);
    assert!(matches!(&outputs[1], WorkerOutput::Result(LoadImagesResultMsg::Error(_))));
}

fn rendered(output: &WorkerOutput) -> (usize, usize, u32, String, Option<String>) {
    match output {
        WorkerOutput::RenderFrame { frame, total, source, file_name, mirrored_file_name } => {
            (*frame, *total, *source, file_name.clone(), mirrored_file_name.clone())
        }
        _ => panic!("a frame is rendered"),
    }
}

#[test]
fn projection_saves_numbered_files() {
    let mut worker = Worker::new();
    assert!(worker.handle(WorkerEvent::Command(MainToWorkerMsg::Projection(projection(3, false)))).is_empty());
    assert_eq!(worker.awaits(), Awaited::Poll);
    let outputs = worker.handle(WorkerEvent::Polled(false));
    assert_eq!(outputs.len(), 1);
    assert_eq!(rendered(&outputs[0]), (0, 3, 7, "output_00001.png".to_string(), None));
    let outputs = worker.handle(WorkerEvent::Polled(false));
    assert_eq!(rendered(&outputs[0]), (1, 3, 8, "output_00002.png".to_string(), None));
    assert!(worker.is_running());
    let outputs = worker.handle(WorkerEvent::Polled(false));
    assert_eq!(outputs.len(), 2);
    assert_eq!(rendered(&outputs[0]), (2, 3, 9, "output_00003.png".to_string(), None));
    assert!(matches!(&outputs[1], WorkerOutput::ProjectionDone { cancelled: false }));
    assert_eq!(worker.awaits(), Awaited::Command);
}

#[test]
fn bounce_back_saves_every_frame_but_the_last_twice() {
    let mut worker = Worker::new();
    worker.handle(WorkerEvent::Command(MainToWorkerMsg::Projection(projection(3, true))));
    let outputs = worker.handle(WorkerEvent::Polled(false));
    assert_eq!(
        rendered(&outputs[0]),
        (0, 3, 7, "output_00001.png".to_string(), Some("output_00005.png".to_string()))
    );
    let outputs = worker.handle(WorkerEvent::Polled(false));
    assert_eq!(
        rendered(&outputs[0]),
        (1, 3, 8, "output_00002.png".to_string(), Some("output_00004.png".to_string()))
    );
    let outputs = worker.handle(WorkerEvent::Polled(false));
    assert_eq!(rendered(&outputs[0]), (2, 3, 9, "output_00003.png".to_string(), None));
    assert!(matches!(&outputs[1], WorkerOutput::ProjectionDone { cancelled: false }));
}

#[test]
fn bounce_back_of_a_single_frame_saves_it_once() {
    let mut worker = Worker::new();
    worker.handle(WorkerEvent::Command(MainToWorkerMsg::Projection(projection(1, true))));
    let outputs = worker.handle(WorkerEvent::Polled(false));
    assert_eq!(outputs.len(), 2);
    assert_eq!(rendered(&outputs[0]), (0, 1, 7, "output_00001.png".to_string(), None));
}

#[test]
fn cancel_ends_a_projection_without_another_frame() {
    let mut worker = Worker::new();
    worker.handle(WorkerEvent::Command(MainToWorkerMsg::Projection(projection(5, true))));
    assert_eq!(worker.handle(WorkerEvent::Polled(false)).len(), 1);
    let outputs = worker.handle(WorkerEvent::Polled(true));
    assert_eq!(outputs.len(), 1);
    assert!(matches!(&outputs[0], WorkerOutput::ProjectionDone { cancelled: true }));
    assert_eq!(worker.awaits(), Awaited::Command);
    assert!(!worker.is_running());
}

#[test]
fn output_files_are_numbered_with_five_digits() {
    assert_eq!(output_file_name(1), "output_00001.png");
    assert_eq!(output_file_name(12345), "output_12345.png");
    assert_eq!(output_file_name(123456), "output_123456.png");
    assert_eq!(output_file_name(0), "output_00000.png");
}

#[test]
fn progress_after_saving_names_the_files() {
    let msg = progress_after_saving("out/output_00002.png", None, 1, 4);
    assert_eq!(msg.info(), "Saved out/output_00002.png.");
    assert_eq!((msg.done(), msg.total()), (1, 4));
    let msg = progress_after_saving("out/output_00002.png", Some("output_00006.png"), 1, 4);
    assert_eq!(msg.info(), "Saved out/output_00002.png, output_00006.png.");
}

#[test]
fn progress_report_is_dropped_while_the_last_one_waits() {
    // the progress channel holds one report; offering never waits
    let (sender, receiver) = crossbeam::channel::bounded(1);
    let mut worker = Worker::new();
    worker.handle(WorkerEvent::Command(MainToWorkerMsg::LoadImages(batch(&["a.png", "b.png", "c.png"]))));
    let black = || Image::new(40, 30, PixelFormat::RGB8, vec![0; 40 * 30 * 3]).unwrap();
    let mut accepted = vec![];
    for (index, image) in [rgb_disk(40, 30, 20, 14, 8), black(), black()].into_iter().enumerate() {
        worker.handle(WorkerEvent::Polled(false));
        for output in worker.handle(WorkerEvent::ImageLoaded(image)) {
            if let WorkerOutput::Progress(msg) = output {
                accepted.push((index, sender.try_send(msg).is_ok()));
            }
        }
    }
    assert_eq!(accepted, vec![(0, true), (1, false), (2, false)]);
    assert_eq!(receiver.try_recv().unwrap().info(), "Loaded a.png.");
    assert!(receiver.try_recv().is_err());
    assert!(!worker.is_running());
}

#[test]
fn worker_says_which_inputs_it_can_get() {
    let mut worker = Worker::new();
    assert!(!worker.accepts(&WorkerEvent::Command(MainToWorkerMsg::Cancel)));
    assert!(!worker.accepts(&WorkerEvent::Polled(false)));
    assert!(!worker.accepts(&WorkerEvent::ImageFailed("x".to_string())));
    assert!(!worker.accepts(&WorkerEvent::Command(MainToWorkerMsg::LoadImages(batch(&[])))));
    assert!(worker.accepts(&WorkerEvent::Command(MainToWorkerMsg::Projection(projection(0, false)))));
    assert!(worker.accepts(&WorkerEvent::Disconnected));
    worker.handle(WorkerEvent::Command(MainToWorkerMsg::LoadImages(batch(&["a.png"]))));
    assert!(worker.accepts(&WorkerEvent::Polled(true)));
    assert!(!worker.accepts(&WorkerEvent::Disconnected));
    assert!(!worker.accepts(&WorkerEvent::Command(MainToWorkerMsg::Cancel)));
    worker.handle(WorkerEvent::Polled(false));
    assert!(worker.accepts(&WorkerEvent::ImageFailed("x".to_string())));
    assert!(!worker.accepts(&WorkerEvent::Polled(true)));
    worker.handle(WorkerEvent::ImageFailed("x".to_string()));
    worker.handle(WorkerEvent::Disconnected);
    assert!(!worker.accepts(&WorkerEvent::Disconnected));
    assert!(!worker.accepts(&WorkerEvent::Polled(false)));
}
