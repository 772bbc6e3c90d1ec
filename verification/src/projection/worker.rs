//! Decisions of the background worker.
//!
//! The worker runs one job at a time: loading a batch of images, or
//! projecting and saving a sequence of frames. What it does between two
//! inputs is decided here: [`Worker::handle`] takes the input that the worker
//! was waiting for and returns the outputs to perform, in order. Waiting for
//! commands, decoding files, drawing and sending are left to the thread that
//! drives the worker.

use vstd::prelude::*;
use vstd::string::*;
use crate::disk::{detected, find_planetary_disk, DiskInfo};
use crate::gui::{ProgressMsg, ProgressView};
use crate::image::{Image, PixelFormat};
use crate::projection::ProjectionType;
use crate::text::{decimal, decimal_digits, zero_padded, zero_padded_digits};

verus! {

/// Handle of a texture that lives on the graphics device.
pub type TextureId = u32;

/// Number of digits to which the number of an output file is padded.
pub const FILE_NUMBER_WIDTH: usize = 5;

/// A batch of image files to load, each into the texture named beside it.
pub struct LoadImages {
    /// Width and height that every image must have.
    pub dimensions: [u32; 2],
    /// Pixel format that every image must have.
    pub pixel_format: PixelFormat,
    pub items: Vec<(TextureId, String)>,
}

/// A sequence of source images to project and save as numbered files.
pub struct Projection {
    pub source_texture_ids: Vec<TextureId>,
    pub output_dir: String,
    /// If true, outputs processed images twice (except the last one), in
    /// forward and reverse order.
    pub bounce_back: bool,
    pub projection_type: ProjectionType,
}

/// How a batch of images ended.
pub enum LoadImagesResultMsg {
    Success(DiskInfo),
    Error(String),
    Cancelled,
}

pub enum ResultView {
    Success(DiskInfo),
    Error(Seq<char>),
    Cancelled,
}

impl LoadImagesResultMsg {
    pub open spec fn view(&self) -> ResultView {
        match self {
            LoadImagesResultMsg::Success(info) => ResultView::Success(*info),
            LoadImagesResultMsg::Error(message) => ResultView::Error(message@),
            LoadImagesResultMsg::Cancelled => ResultView::Cancelled,
        }
    }
}

/// A command to the worker.
pub enum MainToWorkerMsg {
    Cancel,
    Projection(Projection),
    LoadImages(LoadImages),
}

/// An input of the worker.
pub enum WorkerEvent {
    /// A command arrived while the worker was waiting for one.
    Command(MainToWorkerMsg),
    /// The command channel is closed for good.
    Disconnected,
    /// The command channel was looked at without waiting; `true` if a
    /// cancellation was found in it.
    Polled(bool),
    /// The image file asked for was decoded.
    ImageLoaded(Image),
    /// The image file asked for could not be decoded.
    ImageFailed(String),
}

/// What the worker waits for.
#[derive(Copy, Clone, PartialEq, Eq, Structural, Debug)]
pub enum Awaited {
    /// The next command, however long it takes.
    Command,
    /// A look at the command channel, without waiting.
    Poll,
    /// The decoded image of item `index` of the batch.
    Image { index: usize },
    /// Nothing: the worker has stopped.
    Nothing,
}

/// Something for the driving thread to do.
pub enum WorkerOutput {
    /// Write `image` into `texture`.
    StoreImage { texture: TextureId, image: Image },
    /// Project frame `frame` (counted from zero) of `total` from `source`,
    /// and save the projection under each of the file names.
    RenderFrame {
        frame: usize,
        total: usize,
        source: TextureId,
        file_name: String,
        mirrored_file_name: Option<String>,
    },
    /// Offer a progress report, to be dropped if the last one is still
    /// waiting to be read.
    Progress(ProgressMsg),
    /// Send the result of the batch of images; the job is over.
    Result(LoadImagesResultMsg),
    /// Release what belongs to the projection job; the job is over.
    ProjectionDone { cancelled: bool },
}

pub enum OutputView {
    StoreImage { texture: TextureId, image: Image },
    RenderFrame {
        frame: int,
        total: int,
        source: TextureId,
        file_name: Seq<char>,
        mirrored_file_name: Option<Seq<char>>,
    },
    Progress(ProgressView),
    Result(ResultView),
    ProjectionDone { cancelled: bool },
}

impl WorkerOutput {
    pub open spec fn view(&self) -> OutputView {
        match self {
            WorkerOutput::StoreImage { texture, image } => OutputView::StoreImage {
                texture: *texture,
                image: *image,
            },
            WorkerOutput::RenderFrame { frame, total, source, file_name, mirrored_file_name } =>
                OutputView::RenderFrame {
                frame: *frame as int,
                total: *total as int,
                source: *source,
                file_name: file_name@,
                mirrored_file_name: match mirrored_file_name {
                    Some(name) => Some(name@),
                    None => None,
                },
            },
            WorkerOutput::Progress(msg) => OutputView::Progress(msg@),
            WorkerOutput::Result(result) => OutputView::Result(result@),
            WorkerOutput::ProjectionDone { cancelled } => OutputView::ProjectionDone {
                cancelled: *cancelled,
            },
        }
    }
}

impl OutputView {
    /// Whether the output ends a job.
    pub open spec fn is_terminal(self) -> bool {
        self is Result || self is ProjectionDone
    }
}

/// What a list of outputs says.
pub open spec fn output_views(outputs: Seq<WorkerOutput>) -> Seq<OutputView> {
    Seq::new(outputs.len(), |i: int| outputs[i]@)
}

/// Name of output file number `number`; the first file has number 1.
pub open spec fn output_file_name_text(number: nat) -> Seq<char> {
    "output_"@ + zero_padded_digits(number, FILE_NUMBER_WIDTH as nat) + ".png"@
}

/// Number of the file that holds frame `frame`, counted from zero.
pub open spec fn file_number(frame: int) -> nat {
    (frame + 1) as nat
}

/// Number of the second file of frame `frame` in a back-and-forth sequence
/// of `total` frames: the file numbers run up to the last frame and down
/// again to the first.
pub open spec fn mirrored_file_number(frame: int, total: int) -> nat {
    (2 * total - (frame + 1)) as nat
}

/// Report on a loaded image file.
pub open spec fn loaded_message(path: Seq<char>) -> Seq<char> {
    "Loaded "@ + path + "."@
}

/// Report on a saved projection, and on its second file if there is one.
pub open spec fn saved_message(path: Seq<char>, mirrored_file_name: Option<Seq<char>>) -> Seq<
    char,
> {
    match mirrored_file_name {
        Some(name) => "Saved "@ + path + ", "@ + name + "."@,
        None => "Saved "@ + path + "."@,
    }
}

pub open spec fn dimensions_message(expected: Seq<u32>, width: int, height: int) -> Seq<char> {
    "unexpected image dimensions (expected "@ + decimal_digits(expected[0] as nat) + "x"@
        + decimal_digits(expected[1] as nat) + ", found "@ + decimal_digits(width as nat) + "x"@
        + decimal_digits(height as nat) + ")"@
}

pub open spec fn pixel_format_message(expected: PixelFormat, found: PixelFormat) -> Seq<char> {
    "unexpected pixel format (expected "@ + expected.spec_name() + ", found "@
        + found.spec_name() + ")"@
}

pub open spec fn disk_not_found_message() -> Seq<char> {
    "could not find planetary disk"@
}

/// Why `image` cannot be item of the batch `task`, if it cannot.
pub open spec fn mismatch(task: LoadImages, image: Image) -> Option<Seq<char>> {
    if image.spec_width() != task.dimensions@[0] || image.spec_height() != task.dimensions@[1] {
        Some(dimensions_message(task.dimensions@, image.spec_width(), image.spec_height()))
    } else if image.spec_pixel_format() != task.pixel_format {
        Some(pixel_format_message(task.pixel_format, image.spec_pixel_format()))
    } else {
        None
    }
}

/// The disk in `image`, if one is found.
pub open spec fn disk_in(image: Image) -> Option<DiskInfo> {
    match image.spec_gray() {
        Some(raster) => detected(raster),
        None => None,
    }
}

/// State of the worker between two inputs.
pub enum WorkerState {
    /// No job is running.
    Idle,
    /// Loading images: about to look for a cancellation before item `index`.
    LoadCheckpoint { batch: LoadImages, index: usize, disk_info: Option<DiskInfo> },
    /// Loading images: item `index` is being decoded.
    LoadDecoding { batch: LoadImages, index: usize, disk_info: Option<DiskInfo> },
    /// Projecting: about to look for a cancellation before frame `index`.
    Projecting { task: Projection, index: usize },
    /// The command channel is closed; the worker is finished.
    Stopped,
}

impl WorkerState {
    /// The job in progress has an item left to work on, and the disk is
    /// known as soon as the first image is loaded.
    pub open spec fn wf(self) -> bool {
        match self {
            WorkerState::Idle => true,
            WorkerState::LoadCheckpoint { batch, index, disk_info } => {
                index < batch.items@.len() && (index > 0 ==> disk_info is Some)
            },
            WorkerState::LoadDecoding { batch, index, disk_info } => {
                index < batch.items@.len() && (index > 0 ==> disk_info is Some)
            },
            WorkerState::Projecting { task, index } => index < task.source_texture_ids@.len(),
            WorkerState::Stopped => true,
        }
    }

    /// Whether a job is in progress.
    pub open spec fn is_running(self) -> bool {
        !(self is Idle) && !(self is Stopped)
    }

    pub open spec fn awaits(self) -> Awaited {
        match self {
            WorkerState::Idle => Awaited::Command,
            WorkerState::LoadCheckpoint { .. } => Awaited::Poll,
            WorkerState::LoadDecoding { index, .. } => Awaited::Image { index },
            WorkerState::Projecting { .. } => Awaited::Poll,
            WorkerState::Stopped => Awaited::Nothing,
        }
    }

    /// Whether `event` is an input that the worker can get in this state. A
    /// cancellation that arrives while no job runs, and a batch of no images,
    /// are not among them.
    pub open spec fn accepts(self, event: WorkerEvent) -> bool {
        match self.awaits() {
            Awaited::Command => match event {
                WorkerEvent::Command(MainToWorkerMsg::Cancel) => false,
                WorkerEvent::Command(MainToWorkerMsg::LoadImages(batch)) => batch.items@.len() > 0,
                WorkerEvent::Command(MainToWorkerMsg::Projection(_)) => true,
                WorkerEvent::Disconnected => true,
                _ => false,
            },
            Awaited::Poll => event is Polled,
            Awaited::Image { .. } => event is ImageLoaded || event is ImageFailed,
            Awaited::Nothing => false,
        }
    }

    /// The disk of the batch once `image` is loaded as item `index`: it is
    /// looked for in the first image.
    pub open spec fn disk_after(index: usize, disk_info: Option<DiskInfo>, image: Image) -> Option<
        DiskInfo,
    > {
        if index == 0 {
            disk_in(image)
        } else {
            disk_info
        }
    }

    /// The state after `event`.
    pub open spec fn next(self, event: WorkerEvent) -> WorkerState {
        match (self, event) {
            (WorkerState::Idle, WorkerEvent::Command(MainToWorkerMsg::LoadImages(batch))) => {
                WorkerState::LoadCheckpoint { batch, index: 0, disk_info: None }
            },
            (WorkerState::Idle, WorkerEvent::Command(MainToWorkerMsg::Projection(task))) => {
                if task.source_texture_ids@.len() == 0 {
                    WorkerState::Idle
                } else {
                    WorkerState::Projecting { task, index: 0 }
                }
            },
            (WorkerState::Idle, WorkerEvent::Disconnected) => WorkerState::Stopped,
            (WorkerState::LoadCheckpoint { batch, index, disk_info }, WorkerEvent::Polled(false)) => {
                WorkerState::LoadDecoding { batch, index, disk_info }
            },
            (
                WorkerState::LoadDecoding { batch, index, disk_info },
                WorkerEvent::ImageLoaded(image),
            ) => {
                let found = Self::disk_after(index, disk_info, image);
                if mismatch(batch, image) is Some || found is None || index + 1
                    == batch.items@.len() {
                    WorkerState::Idle
                } else {
                    WorkerState::LoadCheckpoint {
                        batch,
                        index: (index + 1) as usize,
                        disk_info: found,
                    }
                }
            },
            (WorkerState::Projecting { task, index }, WorkerEvent::Polled(false)) => {
                if index + 1 == task.source_texture_ids@.len() {
                    WorkerState::Idle
                } else {
                    WorkerState::Projecting { task, index: (index + 1) as usize }
                }
            },
            (WorkerState::Stopped, _) => WorkerState::Stopped,
            _ => WorkerState::Idle,
        }
    }

    /// What is to be done once `image` is loaded as item `index` of `batch`.
    pub open spec fn outputs_of_image(
        batch: LoadImages,
        index: usize,
        disk_info: Option<DiskInfo>,
        image: Image,
    ) -> Seq<OutputView> {
        let stored = OutputView::StoreImage { texture: batch.items@[index as int].0, image };
        let progress = OutputView::Progress(
            ProgressView {
                info: loaded_message(batch.items@[index as int].1@),
                done: index as int,
                total: batch.items@.len() as int,
            },
        );
        match mismatch(batch, image) {
            Some(message) => seq![OutputView::Result(ResultView::Error(message))],
            None => match Self::disk_after(index, disk_info, image) {
                None => seq![
                    stored,
                    OutputView::Result(ResultView::Error(disk_not_found_message())),
                ],
                Some(info) => if index + 1 == batch.items@.len() {
                    seq![stored, progress, OutputView::Result(ResultView::Success(info))]
                } else {
                    seq![stored, progress]
                },
            },
        }
    }

    /// What is to be done for frame `index` of the projection `task`.
    pub open spec fn outputs_of_frame(task: Projection, index: usize) -> Seq<OutputView> {
        let total = task.source_texture_ids@.len() as int;
        let render = OutputView::RenderFrame {
            frame: index as int,
            total,
            source: task.source_texture_ids@[index as int],
            file_name: output_file_name_text(file_number(index as int)),
            mirrored_file_name: if task.bounce_back && index < total - 1 {
                Some(output_file_name_text(mirrored_file_number(index as int, total)))
            } else {
                None
            },
        };
        if index + 1 == total {
            seq![render, OutputView::ProjectionDone { cancelled: false }]
        } else {
            seq![render]
        }
    }

    /// What is to be done on `event`, in order.
    pub open spec fn outputs(self, event: WorkerEvent) -> Seq<OutputView> {
        match (self, event) {
            (WorkerState::Idle, WorkerEvent::Command(MainToWorkerMsg::Projection(task))) => {
                if task.source_texture_ids@.len() == 0 {
                    seq![OutputView::ProjectionDone { cancelled: false }]
                } else {
                    Seq::empty()
                }
            },
            (WorkerState::LoadCheckpoint { .. }, WorkerEvent::Polled(true)) => {
                seq![OutputView::Result(ResultView::Cancelled)]
            },
            (WorkerState::LoadDecoding { .. }, WorkerEvent::ImageFailed(message)) => {
                seq![OutputView::Result(ResultView::Error(message@))]
            },
            (
                WorkerState::LoadDecoding { batch, index, disk_info },
                WorkerEvent::ImageLoaded(image),
            ) => Self::outputs_of_image(batch, index, disk_info, image),
            (WorkerState::Projecting { .. }, WorkerEvent::Polled(true)) => {
                seq![OutputView::ProjectionDone { cancelled: true }]
            },
            (WorkerState::Projecting { task, index }, WorkerEvent::Polled(false)) => {
                Self::outputs_of_frame(task, index)
            },
            _ => Seq::empty(),
        }
    }
}

/// Name of output file number `number`.
pub fn output_file_name(number: u128) -> (name: String)
    ensures
        name@ == output_file_name_text(number as nat),
{
    let mut name = String::from_str("output_");
    let digits = zero_padded(number, FILE_NUMBER_WIDTH);
    name.append(digits.as_str());
    name.append(".png");
    name
}

/// Report on a saved projection: the path of its file and, if it was saved
/// twice, the name of the second file.
pub fn progress_after_saving(
    output_path: &str,
    mirrored_file_name: Option<&str>,
    frame: usize,
    total: usize,
) -> (msg: ProgressMsg)
    requires
        frame < total,
    ensures
        msg@ == (ProgressView {
            info: saved_message(
                output_path@,
                match mirrored_file_name {
                    Some(name) => Some(name@),
                    None => None,
                },
            ),
            done: frame as int,
            total: total as int,
        }),
{
    let mut info = String::from_str("Saved ");
    info.append(output_path);
    match mirrored_file_name {
        Some(name) => {
            info.append(", ");
            info.append(name);
        },
        None => {},
    }
    info.append(".");
    ProgressMsg::new(info, frame, total)
}

fn dimensions_mismatch(expected: &[u32; 2], width: u32, height: u32) -> (message: String)
    ensures
        message@ == dimensions_message(expected@, width as int, height as int),
{
    let mut message = String::from_str("unexpected image dimensions (expected ");
    message.append(decimal(expected[0] as u128).as_str());
    message.append("x");
    message.append(decimal(expected[1] as u128).as_str());
    message.append(", found ");
    message.append(decimal(width as u128).as_str());
    message.append("x");
    message.append(decimal(height as u128).as_str());
    message.append(")");
    message
}

fn pixel_format_mismatch(expected: PixelFormat, found: PixelFormat) -> (message: String)
    ensures
        message@ == pixel_format_message(expected, found),
{
    let mut message = String::from_str("unexpected pixel format (expected ");
    message.append(expected.name());
    message.append(", found ");
    message.append(found.name());
    message.append(")");
    message
}

/// Holds `image` against what the batch `task` says of its images.
fn check_image(task: &LoadImages, image: &Image) -> (result: Result<(), String>)
    ensures
        match mismatch(*task, *image) {
            Some(message) => result matches Err(text) && text@ == message,
            None => result is Ok,
        },
{
    if image.width() != task.dimensions[0] || image.height() != task.dimensions[1] {
        Err(dimensions_mismatch(&task.dimensions, image.width(), image.height()))
    } else if image.pixel_format() != task.pixel_format {
        Err(pixel_format_mismatch(task.pixel_format, image.pixel_format()))
    } else {
        Ok(())
    }
}

/// Looks for the disk in `image`.
fn find_disk(image: &Image) -> (found: Option<DiskInfo>)
    ensures
        found == disk_in(*image),
{
    match image.to_mono8() {
        Some(gray) => match find_planetary_disk(&gray) {
            Ok(info) => Some(info),
            Err(_) => None,
        },
        None => None,
    }
}

/// The background worker: the job in progress and how far it has come.
pub struct Worker {
    state: WorkerState,
}

impl Worker {
    pub closed spec fn view(&self) -> WorkerState {
        self.state
    }

    #[verifier::type_invariant]
    pub closed spec fn wf(&self) -> bool {
        self.state.wf()
    }

    /// A worker without a job.
    pub fn new() -> (worker: Worker)
        ensures
            worker@ is Idle,
    {
        Worker { state: WorkerState::Idle }
    }

    /// What the worker waits for.
    pub fn awaits(&self) -> (awaited: Awaited)
        ensures
            awaited == self@.awaits(),
            self@.wf(),
    {
        proof {
            use_type_invariant(self);
        }
        match &self.state {
            WorkerState::Idle => Awaited::Command,
            WorkerState::LoadCheckpoint { .. } => Awaited::Poll,
            WorkerState::LoadDecoding { index, .. } => Awaited::Image { index: *index },
            WorkerState::Projecting { .. } => Awaited::Poll,
            WorkerState::Stopped => Awaited::Nothing,
        }
    }

    /// Whether a job is in progress.
    pub fn is_running(&self) -> (running: bool)
        ensures
            running == self@.is_running(),
    {
        match &self.state {
            WorkerState::Idle => false,
            WorkerState::Stopped => false,
            _ => true,
        }
    }

    /// Whether `event` is an input that the worker can get now.
    pub fn accepts(&self, event: &WorkerEvent) -> (accepted: bool)
        ensures
            accepted == self@.accepts(*event),
    {
        match (&self.state, event) {
            (WorkerState::Idle, WorkerEvent::Command(MainToWorkerMsg::LoadImages(batch))) => {
                batch.items.len() > 0
            },
            (WorkerState::Idle, WorkerEvent::Command(MainToWorkerMsg::Projection(_))) => true,
            (WorkerState::Idle, WorkerEvent::Disconnected) => true,
            (WorkerState::LoadCheckpoint { .. }, WorkerEvent::Polled(_)) => true,
            (WorkerState::Projecting { .. }, WorkerEvent::Polled(_)) => true,
            (WorkerState::LoadDecoding { .. }, WorkerEvent::ImageLoaded(_)) => true,
            (WorkerState::LoadDecoding { .. }, WorkerEvent::ImageFailed(_)) => true,
            _ => false,
        }
    }

    /// Takes the input that the worker was waiting for, moves the job on and
    /// returns what is to be done, in order.
    pub fn handle(&mut self, event: WorkerEvent) -> (outputs: Vec<WorkerOutput>)
        requires
            old(self)@.accepts(event),
        ensures
            final(self)@ == old(self)@.next(event),
            output_views(outputs@) == old(self)@.outputs(event),
            final(self)@.wf(),
    {
        proof {
            use_type_invariant(&*self);
        }
        let mut state = WorkerState::Idle;
        core::mem::swap(&mut state, &mut self.state);
        let mut outputs: Vec<WorkerOutput> = Vec::new();
        let next = match (state, event) {
            (WorkerState::Idle, WorkerEvent::Command(MainToWorkerMsg::LoadImages(batch))) => {
                WorkerState::LoadCheckpoint { batch, index: 0, disk_info: None }
            },
            (WorkerState::Idle, WorkerEvent::Command(MainToWorkerMsg::Projection(task))) => {
                if task.source_texture_ids.len() == 0 {
                    outputs.push(WorkerOutput::ProjectionDone { cancelled: false });
                    WorkerState::Idle
                } else {
                    WorkerState::Projecting { task, index: 0 }
                }
            },
            (WorkerState::Idle, WorkerEvent::Disconnected) => WorkerState::Stopped,
            (WorkerState::LoadCheckpoint { batch, index, disk_info }, WorkerEvent::Polled(cancel)) => {
                if cancel {
                    outputs.push(WorkerOutput::Result(LoadImagesResultMsg::Cancelled));
                    WorkerState::Idle
                } else {
                    WorkerState::LoadDecoding { batch, index, disk_info }
                }
            },
            (WorkerState::LoadDecoding { .. }, WorkerEvent::ImageFailed(message)) => {
                outputs.push(WorkerOutput::Result(LoadImagesResultMsg::Error(message)));
                WorkerState::Idle
            },
            (
                WorkerState::LoadDecoding { batch, index, disk_info },
                WorkerEvent::ImageLoaded(image),
            ) => {
                match check_image(&batch, &image) {
                    Err(message) => {
                        outputs.push(WorkerOutput::Result(LoadImagesResultMsg::Error(message)));
                        WorkerState::Idle
                    },
                    Ok(()) => {
                        let found = if index == 0 {
                            find_disk(&image)
                        } else {
                            disk_info
                        };
                        let texture = batch.items[index].0;
                        outputs.push(WorkerOutput::StoreImage { texture, image });
                        match found {
                            None => {
                                let message = String::from_str("could not find planetary disk");
                                outputs.push(
                                    WorkerOutput::Result(LoadImagesResultMsg::Error(message)),
                                );
                                WorkerState::Idle
                            },
                            Some(info) => {
                                let mut text = String::from_str("Loaded ");
                                text.append(batch.items[index].1.as_str());
                                text.append(".");
                                let progress = ProgressMsg::new(text, index, batch.items.len());
                                outputs.push(WorkerOutput::Progress(progress));
                                if index + 1 == batch.items.len() {
                                    outputs.push(
                                        WorkerOutput::Result(LoadImagesResultMsg::Success(info)),
                                    );
                                    WorkerState::Idle
                                } else {
                                    WorkerState::LoadCheckpoint {
                                        batch,
                                        index: index + 1,
                                        disk_info: found,
                                    }
                                }
                            },
                        }
                    },
                }
            },
            (WorkerState::Projecting { task, index }, WorkerEvent::Polled(cancel)) => {
                if cancel {
                    outputs.push(WorkerOutput::ProjectionDone { cancelled: true });
                    WorkerState::Idle
                } else {
                    let total = task.source_texture_ids.len();
                    let mirrored_file_name = if task.bounce_back && index < total - 1 {
                        Some(output_file_name(2 * (total as u128) - (index as u128 + 1)))
                    } else {
                        None
                    };
                    outputs.push(
                        WorkerOutput::RenderFrame {
                            frame: index,
                            total,
                            source: task.source_texture_ids[index],
                            file_name: output_file_name(index as u128 + 1),
                            mirrored_file_name,
                        },
                    );
                    if index + 1 == total {
                        outputs.push(WorkerOutput::ProjectionDone { cancelled: false });
                        WorkerState::Idle
                    } else {
                        WorkerState::Projecting { task, index: index + 1 }
                    }
                }
            },
            (WorkerState::Stopped, _) => WorkerState::Stopped,
            _ => WorkerState::Idle,
        };
        assert(output_views(outputs@) =~= old(self)@.outputs(event));
        self.state = next;
        outputs
    }
}

/// The outputs of a run of inputs, one after the other.
pub open spec fn run_outputs(state: WorkerState, events: Seq<WorkerEvent>) -> Seq<OutputView>
    decreases events.len(),
{
    if events.len() == 0 {
        Seq::empty()
    } else {
        run_outputs(state, events.drop_last()) + run_state(state, events.drop_last()).outputs(
            events.last(),
        )
    }
}

/// The state after a run of inputs.
pub open spec fn run_state(state: WorkerState, events: Seq<WorkerEvent>) -> WorkerState
    decreases events.len(),
{
    if events.len() == 0 {
        state
    } else {
        run_state(state, events.drop_last()).next(events.last())
    }
}

/// Whether the job in progress in `state` is still in progress after each of
/// `events`, each being an input that the worker can get at that point.
pub open spec fn keeps_running(state: WorkerState, events: Seq<WorkerEvent>) -> bool
    decreases events.len(),
{
    if events.len() == 0 {
        state.is_running()
    } else {
        &&& keeps_running(state, events.drop_last())
        &&& run_state(state, events.drop_last()).accepts(events.last())
        &&& run_state(state, events.drop_last()).next(events.last()).is_running()
    }
}

/// Every step keeps the state well-formed, ends at most one job, and says so
/// last: an output that ends a job comes after all others of the step, and
/// comes exactly when a job that was in progress, or has just been started,
/// is no longer in progress.
pub proof fn lemma_step(state: WorkerState, event: WorkerEvent)
    requires
        state.wf(),
        state.accepts(event),
    ensures
        state.next(event).wf(),
        forall|i: int|
            0 <= i < state.outputs(event).len() - 1 ==> !(#[trigger] state.outputs(
                event,
            )[i]).is_terminal(),
        state.is_running() ==> (state.next(event).is_running() <==> !(state.outputs(event).len() > 0
            && state.outputs(event).last().is_terminal())),
        state.is_running() ==> state.next(event).is_running() || state.next(event) is Idle,
        !state.is_running() ==> forall|i: int|
            0 <= i < state.outputs(event).len() ==> (#[trigger] state.outputs(
                event,
            )[i]) is ProjectionDone,
{
}

/// A cancellation that is seen at a checkpoint ends the job at once: the
/// worker says that the job was cancelled, says nothing else, and is idle.
pub proof fn lemma_cancel_at_checkpoint(state: WorkerState)
    requires
        state.wf(),
        state.awaits() == Awaited::Poll,
    ensures
        state.accepts(WorkerEvent::Polled(true)),
        state.next(WorkerEvent::Polled(true)) is Idle,
        state is Projecting ==> state.outputs(WorkerEvent::Polled(true)) == seq![
            OutputView::ProjectionDone { cancelled: true },
        ],
        !(state is Projecting) ==> state.outputs(WorkerEvent::Polled(true)) == seq![
            OutputView::Result(ResultView::Cancelled),
        ],
{
}

/// While a job stays in progress the worker reports no result.
pub proof fn lemma_running_job_has_no_result(state: WorkerState, events: Seq<WorkerEvent>)
    requires
        state.wf(),
        keeps_running(state, events),
    ensures
        run_state(state, events).wf(),
        run_state(state, events).is_running(),
        forall|i: int|
            0 <= i < run_outputs(state, events).len() ==> !(#[trigger] run_outputs(
                state,
                events,
            )[i]).is_terminal(),
    decreases events.len(),
{
    if events.len() > 0 {
        lemma_running_job_has_no_result(state, events.drop_last());
        let before = run_state(state, events.drop_last());
        lemma_step(before, events.last());
        let earlier = run_outputs(state, events.drop_last());
        let step = before.outputs(events.last());
        assert forall|i: int| 0 <= i < run_outputs(state, events).len() implies !(
        #[trigger] run_outputs(state, events)[i]).is_terminal() by {
            if i < earlier.len() {
                assert(run_outputs(state, events)[i] == earlier[i]);
            } else {
                assert(run_outputs(state, events)[i] == step[i - earlier.len()]);
            }
        }
    }
}

/// A job that is cancelled before it completes ends as cancelled and in no
/// other way: whatever came in while the job was in progress, once a
/// cancellation is seen at a checkpoint the outputs of the whole job hold
/// exactly one that ends it, the last, and it says that the job was
/// cancelled. Nothing is reported after it: the worker is idle.
pub proof fn lemma_cancelled_job(state: WorkerState, events: Seq<WorkerEvent>)
    requires
        state.wf(),
        keeps_running(state, events),
        run_state(state, events).awaits() == Awaited::Poll,
    ensures
        ({
            let all = events.push(WorkerEvent::Polled(true));
            let outputs = run_outputs(state, all);
            &&& run_state(state, all) is Idle
            &&& outputs.len() == run_outputs(state, events).len() + 1
            &&& forall|i: int|
                0 <= i < outputs.len() - 1 ==> !(#[trigger] outputs[i]).is_terminal()
            &&& outputs.last() == if run_state(state, events) is Projecting {
                OutputView::ProjectionDone { cancelled: true }
            } else {
                OutputView::Result(ResultView::Cancelled)
            }
        }),
{
    let all = events.push(WorkerEvent::Polled(true));
    assert(all.drop_last() =~= events);
    assert(all.last() == WorkerEvent::Polled(true));
    lemma_running_job_has_no_result(state, events);
    lemma_cancel_at_checkpoint(run_state(state, events));
    let outputs = run_outputs(state, all);
    assert forall|i: int| 0 <= i < outputs.len() - 1 implies !(#[trigger] outputs[i]).is_terminal() by {
        assert(outputs[i] == run_outputs(state, events)[i]);
    }
}

} // verus!
