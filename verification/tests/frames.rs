use vulkan_ubershader_ui_demo::frame::{
    next_frame, FrameAction, FrameLoop, FrameStage, StepOutcome, MAX_FRAMES_IN_FLIGHT,
};

fn draw_successfully(l: &mut FrameLoop, image: u32) -> Vec<FrameAction> {
    let mut actions = vec![l.begin_frame()];
    let mut outcome = StepOutcome::Done;
    loop {
        let a = l.step(outcome);
        actions.push(a);
        match a {
            FrameAction::AcquireImage { .. } => outcome = StepOutcome::ImageAcquired(image),
            FrameAction::Finished | FrameAction::Failed { .. } => break,
            _ => outcome = StepOutcome::Done,
        }
    }
    actions
}

#[test]
fn frame_slots_cycle() {
    assert_eq!(MAX_FRAMES_IN_FLIGHT, 2);
    assert_eq!(next_frame(0), 1);
    assert_eq!(next_frame(1), 0);
}

#[test]
fn a_successful_frame_runs_every_step_in_order() {
    let mut l = FrameLoop::new(3);
    let actions = draw_successfully(&mut l, 2);
    assert_eq!(
        actions,
        vec![
            FrameAction::WaitForFence { frame: 0 },
            FrameAction::AcquireImage { frame: 0 },
            FrameAction::ResetFence { frame: 0 },
            FrameAction::ResetCommandBuffer { frame: 0 },
            FrameAction::BeginCommandBuffer { frame: 0 },
            FrameAction::RecordCommands { frame: 0, image_index: 2 },
            FrameAction::Submit { frame: 0 },
            FrameAction::Present { frame: 0, image_index: 2 },
            FrameAction::Finished,
        ]
    );
    assert_eq!(l.current_frame(), 1);
    assert_eq!(l.stage(), FrameStage::Idle);
    let second = draw_successfully(&mut l, 0);
    assert_eq!(second[0], FrameAction::WaitForFence { frame: 1 });
    assert_eq!(second[7], FrameAction::Present { frame: 1, image_index: 0 });
    assert_eq!(l.current_frame(), 0);
}

#[test]
fn a_failed_step_abandons_the_frame() {
    let mut l = FrameLoop::new(2);
    assert_eq!(l.begin_frame(), FrameAction::WaitForFence { frame: 0 });
    assert_eq!(l.step(StepOutcome::Done), FrameAction::AcquireImage { frame: 0 });
    assert_eq!(l.step(StepOutcome::Failed(-1000001004)), FrameAction::Failed { result: -1000001004 });
    assert_eq!(l.current_frame(), 0);
    assert_eq!(l.stage(), FrameStage::Idle);
    assert_eq!(l.begin_frame(), FrameAction::WaitForFence { frame: 0 });
}

#[test]
fn n_frames_move_the_slot_by_n() {
    let mut l = FrameLoop::new(2);
    for n in 1..=5usize {
        let actions = draw_successfully(&mut l, 1);
        assert_eq!(*actions.last().unwrap(), FrameAction::Finished);
        assert_eq!(l.current_frame(), n % MAX_FRAMES_IN_FLIGHT);
    }
}
