//! The plan of the amplitude plot: a canvas of fixed size, an amplitude axis
//! that always spans the whole range of a sample, and one point per sample,
//! in order, joined by a line. Drawing and writing the image is left to the
//! caller.

use vstd::prelude::*;
use crate::error::PlayerError;

verus! {

/// The width of the canvas, in pixels.
pub const CANVAS_WIDTH: u32 = 800;

/// The height of the canvas, in pixels.
pub const CANVAS_HEIGHT: u32 = 400;

/// The lower end of the amplitude axis.
pub const AMPLITUDE_AXIS_MIN: i32 = -32768;

/// The upper end of the amplitude axis.
pub const AMPLITUDE_AXIS_MAX: i32 = 32767;

/// A point of the line: the index of a sample and its amplitude.
#[derive(Clone, Copy, Debug, PartialEq, Eq, Structural)]
pub struct PlotPoint {
    pub index: usize,
    pub amplitude: i32,
}

/// What is to be drawn. The index axis runs from 0 to `index_axis_end`, the
/// amplitude axis from `amplitude_axis_min` to `amplitude_axis_max`; `line`
/// holds the points in the order in which they are joined.
#[derive(Debug)]
pub struct WaveformPlot {
    pub width: u32,
    pub height: u32,
    pub index_axis_end: usize,
    pub amplitude_axis_min: i32,
    pub amplitude_axis_max: i32,
    pub line: Vec<PlotPoint>,
}

/// The text beside the index axis.
pub open spec fn index_axis_text() -> Seq<char> {
    "Sample Index"@
}

/// The text beside the amplitude axis.
pub open spec fn amplitude_axis_text() -> Seq<char> {
    "Amplitude"@
}

/// The name of the image file.
pub open spec fn artifact_name() -> Seq<char> {
    "waveform.png"@
}

/// The text beside the index axis.
pub fn index_axis_label() -> (text: &'static str)
    ensures
        text@ == index_axis_text(),
{
    "Sample Index"
}

/// The text beside the amplitude axis.
pub fn amplitude_axis_label() -> (text: &'static str)
    ensures
        text@ == amplitude_axis_text(),
{
    "Amplitude"
}

/// The path that the image is written to; a file there is overwritten.
pub fn artifact_path() -> (text: &'static str)
    ensures
        text@ == artifact_name(),
{
    "waveform.png"
}

/// The line of a buffer: the point `(i, samples[i])` for each position.
pub open spec fn line_of(samples: Seq<i16>) -> Seq<PlotPoint> {
    Seq::new(
        samples.len(),
        |i: int| (PlotPoint { index: i as usize, amplitude: samples[i] as i32 }),
    )
}

/// Whether a plot is the plot of a buffer.
pub open spec fn is_plot_of(plot: WaveformPlot, samples: Seq<i16>) -> bool {
    &&& plot.width == 800
    &&& plot.height == 400
    &&& plot.index_axis_end == samples.len()
    &&& plot.amplitude_axis_min == -32768
    &&& plot.amplitude_axis_max == 32767
    &&& plot.line@ == line_of(samples)
}

/// Plans the plot of a buffer. The buffer without samples has no plot:
/// `EmptySignal`.
pub fn plan_waveform(samples: &Vec<i16>) -> (r: Result<WaveformPlot, PlayerError>)
    ensures
        samples@.len() == 0 ==> (r matches Err(e) && e == PlayerError::EmptySignal),
        samples@.len() > 0 ==> (r matches Ok(plot) && is_plot_of(plot, samples@)),
{
    let n: usize = samples.len();
    if n == 0 {
        return Err(PlayerError::EmptySignal);
    }
    let mut line: Vec<PlotPoint> = Vec::new();
    let mut i: usize = 0;
    while i < n
        invariant
            i <= n,
            n == samples@.len(),
            line@.len() == i,
            forall|j: int|
                0 <= j < i ==> line@[j] == (PlotPoint {
                    index: j as usize,
                    amplitude: samples@[j] as i32,
                }),
        decreases n - i,
    {
        line.push(PlotPoint { index: i, amplitude: samples[i] as i32 });
        i = i + 1;
    }
    assert(line@ =~= line_of(samples@));
    Ok(
        WaveformPlot {
            width: CANVAS_WIDTH,
            height: CANVAS_HEIGHT,
            index_axis_end: n,
            amplitude_axis_min: AMPLITUDE_AXIS_MIN,
            amplitude_axis_max: AMPLITUDE_AXIS_MAX,
            line,
        },
    )
}

/// Every point of a plot lies within its axes, whatever the peak of the
/// signal, and the points follow each other one index apart.
pub proof fn lemma_line_within_axes(samples: Seq<i16>, i: int)
    requires
        0 <= i < samples.len(),
        samples.len() <= usize::MAX,
    ensures
        line_of(samples)[i].index == i,
        line_of(samples)[i].index < samples.len(),
        -32768 <= line_of(samples)[i].amplitude <= 32767,
        line_of(samples)[i].amplitude == samples[i],
{
}

} // verus!
