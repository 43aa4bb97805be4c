use epd_counter::frame::{Color, ConfigurationError, FrameBuffer};
use epd_counter::refresh::{DriverError, RefreshAction, RefreshController, RefreshState};
use epd_counter::render::{IterationStep, RenderLoop};

struct FakeDriver {
    commits: usize,
    fulls: usize,
    partials: usize,
    fail_partial_number: Option<usize>,
}

impl FakeDriver {
    fn new() -> Self {
        FakeDriver { commits: 0, fulls: 0, partials: 0, fail_partial_number: None }
    }

    fn perform(&mut self, action: RefreshAction) -> Result<(), DriverError> {
        match action {
            RefreshAction::CommitReferenceFrame => self.commits += 1,
            RefreshAction::FullRefresh => self.fulls += 1,
            RefreshAction::PartialRefresh => {
                self.partials += 1;
                if self.fail_partial_number == Some(self.partials) {
                    return Err(DriverError::Transport);
                }
            }
        }
        Ok(())
    }
}

fn run_iteration(lp: &mut RenderLoop, driver: &mut FakeDriver) -> Vec<RefreshState> {
    let mut seen = vec![lp.controller().state()];
    loop {
        let action = lp.next_action();
        let outcome = driver.perform(action);
        let step = lp.record(outcome);
        seen.push(lp.controller().state());
        if step == IterationStep::Done {
            return seen;
        }
    }
}

#[test]
fn first_iteration_runs_startup_once() {
    let mut lp = RenderLoop::new();
    let mut driver = FakeDriver::new();
    let seen = run_iteration(&mut lp, &mut driver);
    assert_eq!(
        seen,
        vec![
            RefreshState::Uninitialized,
            RefreshState::FullFramePending,
            RefreshState::Steady,
            RefreshState::Steady
        ]
    );
    assert_eq!(driver.commits, 1);
    assert_eq!(driver.fulls, 1);
    assert_eq!(driver.partials, 1);
    assert_eq!(lp.count(), 1);
}

#[test]
fn tenth_iteration_stays_steady() {
    let mut lp = RenderLoop::new();
    let mut driver = FakeDriver::new();
    for _ in 0..9 {
        run_iteration(&mut lp, &mut driver);
    }
    let partials_before = driver.partials;
    let seen = run_iteration(&mut lp, &mut driver);
    assert_eq!(seen, vec![RefreshState::Steady, RefreshState::Steady]);
    assert_eq!(driver.partials, partials_before + 1);
    assert_eq!(driver.fulls, 1);
    assert_eq!(driver.commits, 1);
    assert_eq!(lp.count(), 10);
}

#[test]
fn transport_error_keeps_steady_state() {
    let mut lp = RenderLoop::new();
    let mut driver = FakeDriver::new();
    driver.fail_partial_number = Some(4);
    for _ in 0..3 {
        run_iteration(&mut lp, &mut driver);
    }
    let seen = run_iteration(&mut lp, &mut driver);
    assert_eq!(seen, vec![RefreshState::Steady, RefreshState::Steady]);
    assert_eq!(lp.count(), 4);
    let seen = run_iteration(&mut lp, &mut driver);
    assert_eq!(seen, vec![RefreshState::Steady, RefreshState::Steady]);
    assert_eq!(driver.fulls, 1);
    assert_eq!(driver.commits, 1);
    assert_eq!(driver.partials, 5);
    assert_eq!(lp.count(), 5);
}

#[test]
fn failed_startup_request_is_retried() {
    let mut c = RefreshController::new();
    assert_eq!(c.next_action(), RefreshAction::CommitReferenceFrame);
    assert_eq!(c.record(Err(DriverError::Transport)), Err(DriverError::Transport));
    assert_eq!(c.state(), RefreshState::Uninitialized);
    assert_eq!(c.next_action(), RefreshAction::CommitReferenceFrame);
    assert_eq!(c.record(Ok(())), Ok(()));
    assert_eq!(c.next_action(), RefreshAction::FullRefresh);
    assert_eq!(c.record(Err(DriverError::Transport)), Err(DriverError::Transport));
    assert_eq!(c.state(), RefreshState::FullFramePending);
    assert_eq!(c.record(Ok(())), Ok(()));
    assert_eq!(c.state(), RefreshState::Steady);
    assert_eq!(c.next_action(), RefreshAction::PartialRefresh);
}

#[test]
fn failed_startup_ends_iteration_and_advances_counter() {
    let mut lp = RenderLoop::new();
    assert_eq!(lp.record(Err(DriverError::Transport)), IterationStep::Done);
    assert_eq!(lp.count(), 1);
    assert_eq!(lp.controller().state(), RefreshState::Uninitialized);
    assert_eq!(lp.record(Ok(())), IterationStep::Continue);
    assert_eq!(lp.count(), 1);
}

#[test]
fn new_frame_is_all_off() {
    let f = FrameBuffer::new(128, 296);
    assert_eq!(f.width(), 128);
    assert_eq!(f.height(), 296);
    assert_eq!(f.buffer().len(), 128 * 296 / 8);
    assert!(f.buffer().iter().all(|b| *b == 0xFF));
}

#[test]
fn frame_length_rounds_up() {
    let f = FrameBuffer::new(3, 3);
    assert_eq!(f.buffer().len(), 2);
    let g = FrameBuffer::new(0, 10);
    assert_eq!(g.buffer().len(), 0);
}

#[test]
fn clear_sets_every_pixel() {
    let mut f = FrameBuffer::new(16, 4);
    f.clear(Color::On);
    assert!(f.buffer().iter().all(|b| *b == 0));
    f.clear(Color::Off);
    assert!(f.buffer().iter().all(|b| *b == 0xFF));
    assert_eq!(f.buffer().len(), 8);
}

#[test]
fn set_pixel_touches_one_bit() {
    let mut f = FrameBuffer::new(16, 2);
    f.set_pixel(3, 1, Color::On);
    assert_eq!(f.buffer(), &[0xFF, 0xFF, 0xEF, 0xFF]);
    f.set_pixel(9, 0, Color::On);
    assert_eq!(f.buffer(), &[0xFF, 0xBF, 0xEF, 0xFF]);
    f.set_pixel(3, 1, Color::Off);
    assert_eq!(f.buffer(), &[0xFF, 0xBF, 0xFF, 0xFF]);
}

#[test]
fn set_pixel_outside_is_ignored() {
    let mut f = FrameBuffer::new(8, 1);
    f.set_pixel(8, 0, Color::On);
    f.set_pixel(0, 1, Color::On);
    assert_eq!(f.buffer(), &[0xFF]);
}

#[test]
fn geometry_must_match_panel() {
    let f = FrameBuffer::new(128, 296);
    assert_eq!(f.check_geometry(128, 296), Ok(()));
    assert_eq!(f.check_geometry(296, 128), Err(ConfigurationError::GeometryMismatch));
    assert_eq!(f.check_geometry(128, 295), Err(ConfigurationError::GeometryMismatch));
}
