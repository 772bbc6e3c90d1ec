//! The interactive side of loading a batch of images: what is asked of the
//! worker, and what its answer leads to.

use vstd::prelude::*;
use vstd::string::*;
use crossbeam::channel::Receiver;
use crate::channel::{try_receive, Polled};
use crate::disk::DiskInfo;
use crate::gui::MessageBox;
use crate::image::PixelFormat;
use crate::projection::worker::{LoadImages, LoadImagesResultMsg, TextureId};

verus! {

/// A batch of images that the worker has been asked to load.
pub struct ImageLoading {
    /// The textures that the images are loaded into.
    pub textures: Vec<TextureId>,
    /// Where the worker says how the batch ended.
    pub receiver: Receiver<LoadImagesResultMsg>,
}

/// Where the loading of a batch of images stands.
pub enum LoadingStep {
    /// The worker has not answered yet.
    Pending,
    /// All images are loaded; the disk was found in the first.
    Loaded(DiskInfo),
    /// The batch failed; the box says why.
    Failed(MessageBox),
    /// The batch was cancelled.
    Cancelled,
    /// The worker is gone without an answer.
    Lost,
}

pub open spec fn load_failure_message(reason: Seq<char>) -> Seq<char> {
    "Failed to load images: "@ + reason + "."@
}

/// The batch that asks for `paths` to be loaded into `textures`, one each,
/// as RGB images of the given size.
pub fn load_images_task(
    width: u32,
    height: u32,
    textures: Vec<TextureId>,
    paths: Vec<String>,
) -> (task: LoadImages)
    requires
        textures@.len() == paths@.len(),
    ensures
        task.dimensions@ == seq![width, height],
        task.pixel_format == PixelFormat::RGB8,
        task.items@.len() == paths@.len(),
        forall|i: int|
            0 <= i < paths@.len() ==> (#[trigger] task.items@[i]).0 == textures@[i]
                && task.items@[i].1@ == paths@[i]@,
{
    let mut items: Vec<(TextureId, String)> = Vec::new();
    let mut i: usize = 0;
    while i < paths.len()
        invariant
            i <= paths.len(),
            textures@.len() == paths@.len(),
            items@.len() == i,
            forall|j: int|
                0 <= j < i ==> (#[trigger] items@[j]).0 == textures@[j] && items@[j].1@
                    == paths@[j]@,
        decreases paths.len() - i,
    {
        items.push((textures[i], paths[i].clone()));
        i = i + 1;
    }
    let dimensions = [width, height];
    assert(dimensions@ =~= seq![width, height]);
    LoadImages { dimensions, pixel_format: PixelFormat::RGB8, items }
}

/// Whether `step` is what `polled`, found in the channel of results, leads
/// to: no answer leaves the loading pending, an answer ends it as it says, a
/// failure with a message box, and a channel without a sender means that the
/// worker is lost.
pub open spec fn leads_to(polled: Polled<LoadImagesResultMsg>, step: LoadingStep) -> bool {
    match polled {
        Polled::Empty => step is Pending,
        Polled::Disconnected => step is Lost,
        Polled::Message(LoadImagesResultMsg::Success(info)) => step == LoadingStep::Loaded(info),
        Polled::Message(LoadImagesResultMsg::Error(reason)) => {
            &&& step matches LoadingStep::Failed(message_box)
            &&& message_box.title@ == "Error"@
            &&& message_box.message@ == load_failure_message(reason@)
        },
        Polled::Message(LoadImagesResultMsg::Cancelled) => step is Cancelled,
    }
}

/// Decides what the answer of the worker, if there is one, leads to.
pub fn handle_image_loading(polled: Polled<LoadImagesResultMsg>) -> (step: LoadingStep)
    ensures
        leads_to(polled, step),
{
    match polled {
        Polled::Empty => LoadingStep::Pending,
        Polled::Disconnected => LoadingStep::Lost,
        Polled::Message(LoadImagesResultMsg::Success(info)) => LoadingStep::Loaded(info),
        Polled::Message(LoadImagesResultMsg::Error(reason)) => {
            let mut message = String::from_str("Failed to load images: ");
            message.append(reason.as_str());
            message.append(".");
            LoadingStep::Failed(MessageBox { title: String::from_str("Error"), message })
        },
        Polled::Message(LoadImagesResultMsg::Cancelled) => LoadingStep::Cancelled,
    }
}

impl ImageLoading {
    /// Looks whether the worker has answered, without waiting for it, and
    /// decides what the answer leads to.
    pub fn poll(&self) -> (step: LoadingStep)
        ensures
            exists|polled: Polled<LoadImagesResultMsg>| #[trigger] leads_to(polled, step),
    {
        let polled = try_receive(&self.receiver);
        let step = handle_image_loading(polled);
        assert(leads_to(polled, step));
        step
    }
}

} // verus!
