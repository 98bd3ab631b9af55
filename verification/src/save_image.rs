//! Which frames are written to disk, and under which names.
//!
//! Writing the file is the caller's part.

use vstd::prelude::*;
use vstd::string::StringExecFns;
use crate::resources::{FrameCount, ImageFilePrefix, Samples};

verus! {

/// The step of a render that writes the image of a frame to a file.
#[derive(Debug, Default)]
pub struct SaveImage;

/// The decimal digit for a number below ten.
pub open spec fn digit(d: int) -> char {
    if d == 0 {
        '0'
    } else if d == 1 {
        '1'
    } else if d == 2 {
        '2'
    } else if d == 3 {
        '3'
    } else if d == 4 {
        '4'
    } else if d == 5 {
        '5'
    } else if d == 6 {
        '6'
    } else if d == 7 {
        '7'
    } else if d == 8 {
        '8'
    } else {
        '9'
    }
}

/// A number in decimal, with zeros in front where it has fewer than `width`
/// digits.
pub open spec fn padded(n: nat, width: nat) -> Seq<char>
    decreases n + width,
{
    if n < 10 && width <= 1 {
        seq![digit(n as int)]
    } else {
        padded(
            n / 10,
            if width == 0 {
                0
            } else {
                (width - 1) as nat
            },
        ).push(digit((n % 10) as int))
    }
}

/// The ending of the name of an image file.
pub open spec fn extension() -> Seq<char> {
    seq!['.', 'p', 'n', 'g']
}

/// The name of the file for a frame: the prefix, the number of the frame in
/// at least five digits, and the ending.
pub open spec fn frame_file_name(prefix: Seq<char>, frame: u32) -> Seq<char> {
    prefix + padded(frame as nat, 5) + extension()
}

/// The number of samples as the count of frames is held against it: its low
/// thirty-two bits.
pub open spec fn frames_wanted(samples: usize) -> int {
    samples as int % 0x1_0000_0000
}

/// Whether the frame with the given number is written: samples are wanted,
/// the frame is not beyond them, and there is a prefix to name the file with.
pub open spec fn is_saved(samples: usize, frame: u32, prefix: Seq<char>) -> bool {
    samples >= 1 && frame <= frames_wanted(samples) && prefix.len() >= 1
}

/// The text of one decimal digit.
fn digit_text(d: u32) -> (text: &'static str)
    requires
        d < 10,
    ensures
        text@ == seq![digit(d as int)],
{
    proof {
        reveal_strlit("0");
        reveal_strlit("1");
        reveal_strlit("2");
        reveal_strlit("3");
        reveal_strlit("4");
        reveal_strlit("5");
        reveal_strlit("6");
        reveal_strlit("7");
        reveal_strlit("8");
        reveal_strlit("9");
    }
    let text = if d == 0 {
        "0"
    } else if d == 1 {
        "1"
    } else if d == 2 {
        "2"
    } else if d == 3 {
        "3"
    } else if d == 4 {
        "4"
    } else if d == 5 {
        "5"
    } else if d == 6 {
        "6"
    } else if d == 7 {
        "7"
    } else if d == 8 {
        "8"
    } else {
        "9"
    };
    assert(text@ =~= seq![digit(d as int)]);
    text
}

/// Appends a number in decimal, in at least `width` digits.
fn append_padded(text: &mut String, n: u32, width: u32)
    ensures
        final(text)@ == old(text)@ + padded(n as nat, width as nat),
    decreases n + width,
{
    if n < 10 && width <= 1 {
        text.append(digit_text(n));
    } else {
        let narrower = if width == 0 {
            0
        } else {
            width - 1
        };
        append_padded(text, n / 10, narrower);
        text.append(digit_text(n % 10));
        assert(text@ =~= old(text)@ + padded(n as nat, width as nat));
    }
}

/// The name of the file for a frame: see `frame_file_name`.
pub fn file_name(prefix: &str, frame: u32) -> (name: String)
    ensures
        name@ == frame_file_name(prefix@, frame),
{
    let mut name = String::from_str(prefix);
    append_padded(&mut name, frame, 5);
    proof {
        reveal_strlit(".png");
    }
    name.append(".png");
    assert(name@ =~= frame_file_name(prefix@, frame));
    name
}

impl SaveImage {
    /// Whether the render is over: samples are wanted, and more frames have
    /// been counted than that.
    pub fn is_done(samples: &Samples, frame_count: &FrameCount) -> (done: bool)
        ensures
            done == (samples.0 > 0 && frame_count.0 > frames_wanted(samples.0)),
    {
        let wanted = (samples.0 as u64) % 0x1_0000_0000;
        samples.0 > 0 && frame_count.0 as u64 > wanted
    }

    /// Counts a frame and names the file to write its image to, if it is to
    /// be written: see `is_saved`. The count stops at the greatest number
    /// that it can hold.
    pub fn run(&mut self, prefix: &ImageFilePrefix, samples: &Samples, frame_count: &mut FrameCount) -> (name:
        Option<String>)
        ensures
            final(frame_count).0 == if old(frame_count).0 == u32::MAX {
                u32::MAX
            } else {
                (old(frame_count).0 + 1) as u32
            },
            name is Some <==> is_saved(samples.0, final(frame_count).0, prefix.0@),
            name matches Some(text) ==> text@ == frame_file_name(prefix.0@, final(frame_count).0),
    {
        if frame_count.0 < u32::MAX {
            frame_count.0 = frame_count.0 + 1;
        }
        let frame = frame_count.0;
        let wanted = (samples.0 as u64) % 0x1_0000_0000;
        let text = prefix.0.as_str();
        if samples.0 < 1 || frame as u64 > wanted || text.is_empty() {
            return None;
        }
        Some(file_name(text, frame))
    }
}

} // verus!
