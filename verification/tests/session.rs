use media_player::error::PlayerError;
use media_player::session::{advance, exit_code, first_step, play_notice, Progress, Step};

const KINDS: [PlayerError; 5] = [
    PlayerError::NotFound,
    PlayerError::DecodeError,
    PlayerError::DeviceUnavailable,
    PlayerError::EmptySignal,
    PlayerError::InvalidBandIndex,
];

/// Follows `advance` from the first operation; returns how the run ended and
/// which operations were performed.
fn run(decode: bool, visualize: bool, play: bool) -> (Progress, Vec<Step>) {
    let mut performed = Vec::new();
    let mut step = first_step();
    loop {
        performed.push(step);
        let succeeded = match step {
            Step::Decode => decode,
            Step::Visualize => visualize,
            Step::Play => play,
        };
        match advance(step, succeeded) {
            Progress::Continue(next) => step = next,
            ended => return (ended, performed),
        }
    }
}

#[test]
fn a_run_decodes_draws_and_plays() {
    assert_eq!(first_step(), Step::Decode);
    assert_eq!(advance(Step::Decode, true), Progress::Continue(Step::Visualize));
    assert_eq!(advance(Step::Visualize, true), Progress::Continue(Step::Play));
    assert_eq!(advance(Step::Play, true), Progress::Succeeded);
}

#[test]
fn a_failure_ends_the_run_at_its_operation() {
    for step in [Step::Decode, Step::Visualize, Step::Play] {
        assert_eq!(advance(step, false), Progress::Failed(step));
    }
}

#[test]
fn a_missing_file_fails_the_run_before_anything_is_drawn() {
    for visualize in [false, true] {
        for play in [false, true] {
            let (ended, performed) = run(false, visualize, play);
            assert_eq!(ended, Progress::Failed(Step::Decode));
            assert_eq!(performed, vec![Step::Decode]);
        }
    }
}

#[test]
fn a_run_ends_at_the_first_failure() {
    for play in [false, true] {
        let (ended, performed) = run(true, false, play);
        assert_eq!(ended, Progress::Failed(Step::Visualize));
        assert_eq!(performed, vec![Step::Decode, Step::Visualize]);
    }
    let (ended, performed) = run(true, true, false);
    assert_eq!(ended, Progress::Failed(Step::Play));
    assert_eq!(performed, vec![Step::Decode, Step::Visualize, Step::Play]);
}

#[test]
fn a_run_without_failures_performs_all_three() {
    let (ended, performed) = run(true, true, true);
    assert_eq!(ended, Progress::Succeeded);
    assert_eq!(performed, vec![Step::Decode, Step::Visualize, Step::Play]);
}

#[test]
fn the_exit_code_tells_success_from_failure() {
    assert_eq!(exit_code(true), 0);
    assert_eq!(exit_code(false), 1);
}

#[test]
fn a_failed_play_action_is_shown_and_a_good_one_is_not() {
    assert_eq!(play_notice(Ok(())), None);
    for kind in KINDS {
        assert_eq!(play_notice(Err(kind)), Some(kind.message()));
    }
}

#[test]
fn every_kind_of_failure_has_its_own_text() {
    assert_eq!(PlayerError::NotFound.message(), "file not found");
    assert_eq!(PlayerError::DecodeError.message(), "the audio file could not be decoded");
    assert_eq!(PlayerError::DeviceUnavailable.message(), "no audio output device is available");
    assert_eq!(PlayerError::EmptySignal.message(), "the signal holds no samples");
    assert_eq!(PlayerError::InvalidBandIndex.message(), "no such equalizer band");
    for (i, a) in KINDS.iter().enumerate() {
        for (j, b) in KINDS.iter().enumerate() {
            assert_eq!(a.message() == b.message(), i == j);
        }
    }
}
