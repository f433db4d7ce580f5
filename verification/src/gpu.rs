//! Hardware-encoder detection from an encoder listing.
//!
//! Querying the encoder binary happens outside the library; the text it
//! prints is interpreted here.

use crate::strutil::{chars_of, contains_sub, is_substr};
use crate::transcode::HwAccel;
use vstd::prelude::*;

verus! {

/// Detected GPU capabilities.
#[derive(Debug, Clone, Copy, PartialEq, Eq, Structural)]
pub struct GpuCapabilities {
    pub nvenc: bool,
    pub vaapi: bool,
    pub qsv: bool,
    pub videotoolbox: bool,
}

impl GpuCapabilities {
    /// Pick the best available HW accelerator, or `None` for CPU encoding.
    /// Preference order: NVENC, QSV, VAAPI, VideoToolbox.
    pub fn best(&self) -> (r: Option<HwAccel>)
        ensures
            r == (if self.nvenc {
                Some(HwAccel::Nvenc)
            } else if self.qsv {
                Some(HwAccel::Qsv)
            } else if self.vaapi {
                Some(HwAccel::Vaapi)
            } else if self.videotoolbox {
                Some(HwAccel::VideoToolbox)
            } else {
                None
            }),
    {
        if self.nvenc {
            Some(HwAccel::Nvenc)
        } else if self.qsv {
            Some(HwAccel::Qsv)
        } else if self.vaapi {
            Some(HwAccel::Vaapi)
        } else if self.videotoolbox {
            Some(HwAccel::VideoToolbox)
        } else {
            None
        }
    }

    /// Read the capabilities out of an encoder listing: each back end is
    /// available exactly when its H.264 encoder name occurs in the text.
    pub fn from_encoder_list(encoders: &str) -> (r: GpuCapabilities)
        ensures
            r.nvenc == is_substr(encoders@, "h264_nvenc"@),
            r.vaapi == is_substr(encoders@, "h264_vaapi"@),
            r.qsv == is_substr(encoders@, "h264_qsv"@),
            r.videotoolbox == is_substr(encoders@, "h264_videotoolbox"@),
    {
        let ev = chars_of(encoders);
        let nv = chars_of("h264_nvenc");
        let va = chars_of("h264_vaapi");
        let qs = chars_of("h264_qsv");
        let vt = chars_of("h264_videotoolbox");
        GpuCapabilities {
            nvenc: contains_sub(&ev, &nv),
            vaapi: contains_sub(&ev, &va),
            qsv: contains_sub(&ev, &qs),
            videotoolbox: contains_sub(&ev, &vt),
        }
    }
}

} // verus!
