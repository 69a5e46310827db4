use media_player::error::PlayerError;
use media_player::waveform::{
    amplitude_axis_label, artifact_path, index_axis_label, plan_waveform, PlotPoint,
    AMPLITUDE_AXIS_MAX, AMPLITUDE_AXIS_MIN, CANVAS_HEIGHT, CANVAS_WIDTH,
};

#[test]
fn the_empty_buffer_has_no_plot() {
    assert_eq!(plan_waveform(&Vec::new()).err(), Some(PlayerError::EmptySignal));
}

#[test]
fn one_sample_gives_a_plot_of_one_point() {
    let plot = plan_waveform(&vec![-1234]).unwrap();
    assert_eq!(plot.line, vec![PlotPoint { index: 0, amplitude: -1234 }]);
    assert_eq!(plot.index_axis_end, 1);
    assert_eq!(plot.width, 800);
    assert_eq!(plot.height, 400);
}

#[test]
fn the_line_joins_every_sample_in_order() {
    let samples = vec![0i16, 5, -5, i16::MAX, i16::MIN, 17];
    let plot = plan_waveform(&samples).unwrap();
    assert_eq!(plot.index_axis_end, 6);
    assert_eq!(plot.line.len(), 6);
    for (i, point) in plot.line.iter().enumerate() {
        assert_eq!(point.index, i);
        assert_eq!(point.amplitude, samples[i] as i32);
    }
}

#[test]
fn the_amplitude_axis_spans_the_whole_sample_range() {
    for samples in [vec![1i16, 2, 3], vec![i16::MIN, i16::MAX], vec![0; 100]] {
        let plot = plan_waveform(&samples).unwrap();
        assert_eq!(plot.amplitude_axis_min, -32768);
        assert_eq!(plot.amplitude_axis_max, 32767);
    }
    assert_eq!(AMPLITUDE_AXIS_MIN, i16::MIN as i32);
    assert_eq!(AMPLITUDE_AXIS_MAX, i16::MAX as i32);
}

#[test]
fn the_canvas_and_its_texts_are_fixed() {
    assert_eq!(CANVAS_WIDTH, 800);
    assert_eq!(CANVAS_HEIGHT, 400);
    assert_eq!(index_axis_label(), "Sample Index");
    assert_eq!(amplitude_axis_label(), "Amplitude");
    assert_eq!(artifact_path(), "waveform.png");
}

#[test]
fn three_seconds_of_signal_give_one_point_per_sample() {
    let samples: Vec<i16> = (0..132300).map(|i| (i % 2000 - 1000) as i16).collect();
    let plot = plan_waveform(&samples).unwrap();
    assert_eq!(plot.line.len(), 132300);
    assert_eq!(plot.index_axis_end, 132300);
    assert_eq!(plot.line[132299], PlotPoint { index: 132299, amplitude: samples[132299] as i32 });
}
