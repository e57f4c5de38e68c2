use vstd::prelude::*;

verus! {

/// Number of frames the renderer keeps in flight, each with its own command
/// buffer, uniform buffer, semaphores and fence.
pub const MAX_FRAMES_IN_FLIGHT: usize = 2;

/// The frame slot that follows `frame`.
pub open spec fn next_frame_spec(frame: int) -> int {
    (frame + 1) % (MAX_FRAMES_IN_FLIGHT as int)
}

/// The frame slot that follows `frame`, wrapping after the last one.
pub fn next_frame(frame: usize) -> (r: usize)
    requires
        frame < MAX_FRAMES_IN_FLIGHT,
    ensures
        r == next_frame_spec(frame as int),
        r == (frame + 1) % 2,
        r < MAX_FRAMES_IN_FLIGHT,
{
    (frame + 1) % MAX_FRAMES_IN_FLIGHT
}

/// Where the drawing of the current frame stands.
#[derive(Debug, Clone, Copy, PartialEq, Eq, Structural)]
pub enum FrameStage {
    /// No frame is being drawn.
    Idle,
    WaitingForFence,
    AcquiringImage,
    ResettingFence,
    ResettingCommandBuffer,
    BeginningCommandBuffer,
    Recording,
    Submitting,
    Presenting,
}

/// The next piece of outside work the renderer must perform for a frame.
#[derive(Debug, Clone, Copy, PartialEq, Eq, Structural)]
pub enum FrameAction {
    /// Wait until the frame slot's fence is signalled.
    WaitForFence { frame: usize },
    /// Acquire the next swapchain image, signalling the slot's
    /// image-available semaphore.
    AcquireImage { frame: usize },
    /// Reset the frame slot's fence.
    ResetFence { frame: usize },
    /// Reset the frame slot's command buffer.
    ResetCommandBuffer { frame: usize },
    /// Begin the frame slot's command buffer for one-time submission.
    BeginCommandBuffer { frame: usize },
    /// Record the render pass into the slot's command buffer, targeting the
    /// framebuffer of swapchain image `image_index`, and end the buffer.
    RecordCommands { frame: usize, image_index: u32 },
    /// Submit the slot's command buffer, signalling its fence.
    Submit { frame: usize },
    /// Present swapchain image `image_index`.
    Present { frame: usize, image_index: u32 },
    /// The frame was drawn; nothing more to do.
    Finished,
    /// A step failed with this Vulkan result code; the frame is abandoned.
    Failed { result: i32 },
}

/// What became of the last piece of outside work.
#[derive(Debug, Clone, Copy, PartialEq, Eq, Structural)]
pub enum StepOutcome {
    /// It succeeded.
    Done,
    /// Image acquisition succeeded with this swapchain image.
    ImageAcquired(u32),
    /// It failed with this Vulkan result code.
    Failed(i32),
}

/// Sequences the drawing of frames over a fixed set of frame slots, one
/// step of outside work at a time.
pub struct FrameLoop {
    current_frame: usize,
    image_count: usize,
    stage: FrameStage,
    image_index: u32,
}

impl FrameLoop {
    #[verifier::type_invariant]
    spec fn wf(self) -> bool {
        &&& self.current_frame < MAX_FRAMES_IN_FLIGHT
        &&& !(self.stage == FrameStage::Idle || self.stage == FrameStage::WaitingForFence
            || self.stage == FrameStage::AcquiringImage) ==> self.image_index < self.image_count
    }

    /// The frame slot in use.
    pub closed spec fn frame_slot(self) -> usize {
        self.current_frame
    }

    /// The number of swapchain images (and framebuffers).
    pub closed spec fn images(self) -> usize {
        self.image_count
    }

    /// Where the current frame stands.
    pub closed spec fn stage_of(self) -> FrameStage {
        self.stage
    }

    /// The swapchain image acquired for the current frame.
    pub closed spec fn acquired_image(self) -> u32 {
        self.image_index
    }

    /// A loop at frame slot 0, drawing to a swapchain of `image_count` images.
    pub fn new(image_count: usize) -> (r: FrameLoop)
        ensures
            r.frame_slot() == 0,
            r.images() == image_count,
            r.stage_of() == FrameStage::Idle,
    {
        FrameLoop { current_frame: 0, image_count, stage: FrameStage::Idle, image_index: 0 }
    }

    /// The frame slot in use.
    pub fn current_frame(&self) -> (r: usize)
        ensures
            r == self.frame_slot(),
            r < MAX_FRAMES_IN_FLIGHT,
    {
        proof {
            use_type_invariant(self);
        }
        self.current_frame
    }

    /// Where the current frame stands.
    pub fn stage(&self) -> (r: FrameStage)
        ensures
            r == self.stage_of(),
    {
        self.stage
    }

    /// Starts drawing a frame in the current slot: its fence is waited on
    /// first.
    pub fn begin_frame(&mut self) -> (r: FrameAction)
        requires
            old(self).stage_of() == FrameStage::Idle,
        ensures
            r == (FrameAction::WaitForFence { frame: old(self).frame_slot() }),
            final(self).stage_of() == FrameStage::WaitingForFence,
            final(self).frame_slot() == old(self).frame_slot(),
            final(self).images() == old(self).images(),
    {
        proof {
            use_type_invariant(&*self);
        }
        self.stage = FrameStage::WaitingForFence;
        FrameAction::WaitForFence { frame: self.current_frame }
    }

    /// Takes the outcome of the last action and gives the next one. A
    /// failure abandons the frame and leaves the slot unchanged; after a
    /// successful present the loop moves to the next slot.
    pub fn step(&mut self, outcome: StepOutcome) -> (r: FrameAction)
        requires
            old(self).stage_of() != FrameStage::Idle,
            old(self).stage_of() == FrameStage::AcquiringImage ==> !(outcome is Done),
            old(self).stage_of() != FrameStage::AcquiringImage ==> !(outcome is ImageAcquired),
            outcome matches StepOutcome::ImageAcquired(i) ==> i < old(self).images(),
        ensures
            final(self).images() == old(self).images(),
            outcome matches StepOutcome::Failed(e) ==> {
                &&& r == FrameAction::Failed { result: e }
                &&& final(self).stage_of() == FrameStage::Idle
                &&& final(self).frame_slot() == old(self).frame_slot()
            },
            !(outcome is Failed) ==> {
                let f = old(self).frame_slot();
                match old(self).stage_of() {
                    FrameStage::WaitingForFence => r == FrameAction::AcquireImage { frame: f }
                        && final(self).stage_of() == FrameStage::AcquiringImage
                        && final(self).frame_slot() == f,
                    FrameStage::AcquiringImage => r == FrameAction::ResetFence { frame: f }
                        && final(self).stage_of() == FrameStage::ResettingFence
                        && final(self).frame_slot() == f
                        && final(self).acquired_image() == outcome->ImageAcquired_0,
                    FrameStage::ResettingFence => r == FrameAction::ResetCommandBuffer {
                        frame: f,
                    } && final(self).stage_of() == FrameStage::ResettingCommandBuffer
                        && final(self).frame_slot() == f && final(self).acquired_image()
                        == old(self).acquired_image(),
                    FrameStage::ResettingCommandBuffer => r == FrameAction::BeginCommandBuffer {
                        frame: f,
                    } && final(self).stage_of() == FrameStage::BeginningCommandBuffer
                        && final(self).frame_slot() == f && final(self).acquired_image()
                        == old(self).acquired_image(),
                    FrameStage::BeginningCommandBuffer => r == FrameAction::RecordCommands {
                        frame: f,
                        image_index: old(self).acquired_image(),
                    } && final(self).stage_of() == FrameStage::Recording
                        && final(self).frame_slot() == f && final(self).acquired_image()
                        == old(self).acquired_image(),
                    FrameStage::Recording => r == FrameAction::Submit { frame: f }
                        && final(self).stage_of() == FrameStage::Submitting
                        && final(self).frame_slot() == f && final(self).acquired_image()
                        == old(self).acquired_image(),
                    FrameStage::Submitting => r == FrameAction::Present {
                        frame: f,
                        image_index: old(self).acquired_image(),
                    } && final(self).stage_of() == FrameStage::Presenting
                        && final(self).frame_slot() == f,
                    FrameStage::Presenting => r == FrameAction::Finished
                        && final(self).stage_of() == FrameStage::Idle
                        && final(self).frame_slot() == next_frame_spec(f as int)
                        && final(self).frame_slot() == (f + 1) % 2,
                    FrameStage::Idle => false,
                }
            },
    {
        proof {
            use_type_invariant(&*self);
        }
        let frame = self.current_frame;
        match outcome {
            StepOutcome::Failed(e) => {
                self.stage = FrameStage::Idle;
                return FrameAction::Failed { result: e };
            },
            _ => {},
        }
        match self.stage {
            FrameStage::WaitingForFence => {
                self.stage = FrameStage::AcquiringImage;
                FrameAction::AcquireImage { frame }
            },
            FrameStage::AcquiringImage => {
                let image = match outcome {
                    StepOutcome::ImageAcquired(i) => i,
                    _ => 0,
                };
                self.image_index = image;
                self.stage = FrameStage::ResettingFence;
                FrameAction::ResetFence { frame }
            },
            FrameStage::ResettingFence => {
                self.stage = FrameStage::ResettingCommandBuffer;
                FrameAction::ResetCommandBuffer { frame }
            },
            FrameStage::ResettingCommandBuffer => {
                self.stage = FrameStage::BeginningCommandBuffer;
                FrameAction::BeginCommandBuffer { frame }
            },
            FrameStage::BeginningCommandBuffer => {
                self.stage = FrameStage::Recording;
                FrameAction::RecordCommands { frame, image_index: self.image_index }
            },
            FrameStage::Recording => {
                self.stage = FrameStage::Submitting;
                FrameAction::Submit { frame }
            },
            FrameStage::Submitting => {
                self.stage = FrameStage::Presenting;
                FrameAction::Present { frame, image_index: self.image_index }
            },
            FrameStage::Presenting => {
                self.current_frame = next_frame(frame);
                self.stage = FrameStage::Idle;
                FrameAction::Finished
            },
            FrameStage::Idle => FrameAction::Finished,
        }
    }
}

/// After `MAX_FRAMES_IN_FLIGHT` completed frames the loop is back at the
/// slot it started from, having used every slot once.
pub proof fn lemma_frames_cycle(frame: int)
    requires
        0 <= frame < MAX_FRAMES_IN_FLIGHT,
    ensures
        next_frame_spec(next_frame_spec(frame)) == frame,
        next_frame_spec(frame) != frame,
        0 <= next_frame_spec(frame) < MAX_FRAMES_IN_FLIGHT,
{
}

/// The frame slot reached from slot `frame` after `n` completed frames.
pub open spec fn frame_after(frame: int, n: nat) -> int
    decreases n,
{
    if n == 0 {
        frame
    } else {
        next_frame_spec(frame_after(frame, (n - 1) as nat))
    }
}

/// `n` completed frames take the loop from slot `frame` to slot
/// `(frame + n) % MAX_FRAMES_IN_FLIGHT`, which is always a valid slot.
pub proof fn lemma_frames_after(frame: int, n: nat)
    requires
        0 <= frame < MAX_FRAMES_IN_FLIGHT,
    ensures
        frame_after(frame, n) == (frame + n) % (MAX_FRAMES_IN_FLIGHT as int),
        0 <= frame_after(frame, n) < MAX_FRAMES_IN_FLIGHT,
    decreases n,
{
    if n > 0 {
        lemma_frames_after(frame, (n - 1) as nat);
        let m = MAX_FRAMES_IN_FLIGHT as int;
        let k = frame + n - 1;
        assert(((k % m) + 1) % m == (k + 1) % m) by {
            vstd::arithmetic::div_mod::lemma_add_mod_noop(k, 1, m);
            vstd::arithmetic::div_mod::lemma_small_mod(1, m as nat);
        }
    }
}

} // verus!
