//! An MP3 stream in a MPEG-1 container.

use vstd::prelude::*;
use vstd::string::StringExecFns;

use super::AudioError;
use crate::text::{push_signed_decimal, signed_decimal};

verus! {

/// The sample rate of the codec.
pub const SAMPLE_RATE: u32 = 44100;

/// The frame length, in milliseconds. The MP3 codec uses 576 or 1152 samples (depending on the
/// flags used to initialize the codec), but the sample rate is not cleanly divisible by that. The
/// closest would be 20ms, but that causes stuttering, so 40ms it is!
pub const FRAME_LEN_MS: u64 = 40;

/// The internal delay of the codec, in samples.
pub const INTERNAL_DELAY: usize = 576;

/// The maximum size of an encoded frame: five quarters of the frame length times the sample rate,
/// and 7200 bytes.
pub const MAX_FRAME_LEN: usize = 5 * 40 * 44100 / 4 + 7200;

/// The quality that the codec is set to.
pub const QUALITY: i32 = 7;

/// The code of a generic error of the codec.
pub const LAME_GENERICERROR: i32 = -1;

/// The code for running out of memory.
pub const LAME_NOMEM: i32 = -10;

/// The code for a bitrate that is not supported.
pub const LAME_BADBITRATE: i32 = -11;

/// The code for a sample rate that is not supported.
pub const LAME_BADSAMPFREQ: i32 = -12;

/// The code of an internal error of the codec.
pub const LAME_INTERNALERROR: i32 = -13;

/// The code for a frontend that could not read.
pub const FRONTEND_READERROR: i32 = -80;

/// The code for a frontend that could not write.
pub const FRONTEND_WRITEERROR: i32 = -81;

/// The code for a file that is too large for the frontend.
pub const FRONTEND_FILETOOLARGE: i32 = -82;

/// An error of the codec.
#[derive(Clone, Copy, Debug, PartialEq, Eq, Structural)]
pub enum LameError {
    Generic,
    OutOfMemory,
    BadBitrate,
    BadSampleRate,
    Internal,
    FrontendRead,
    FrontendWrite,
    FrontendFileTooLarge,
    Unknown(i32),
}

impl LameError {
    /// The text of an error.
    pub open spec fn text(self) -> Seq<char> {
        match self {
            LameError::Generic => "lame: generic error"@,
            LameError::OutOfMemory => "lame: out of memory"@,
            LameError::BadBitrate => "lame: unsupported bitrate"@,
            LameError::BadSampleRate => "lame: unsupported sample rate"@,
            LameError::Internal => "lame: internal error"@,
            LameError::FrontendRead => "lame: frontend read error"@,
            LameError::FrontendWrite => "lame: frontend write error"@,
            LameError::FrontendFileTooLarge => "lame: frontend file too large"@,
            LameError::Unknown(num) => "lame: unknown error: "@ + signed_decimal(num as int),
        }
    }

    /// The text of the error.
    pub fn to_string(&self) -> (text: String)
        ensures
            text@ == self.text(),
    {
        match self {
            LameError::Generic => "lame: generic error".to_owned(),
            LameError::OutOfMemory => "lame: out of memory".to_owned(),
            LameError::BadBitrate => "lame: unsupported bitrate".to_owned(),
            LameError::BadSampleRate => "lame: unsupported sample rate".to_owned(),
            LameError::Internal => "lame: internal error".to_owned(),
            LameError::FrontendRead => "lame: frontend read error".to_owned(),
            LameError::FrontendWrite => "lame: frontend write error".to_owned(),
            LameError::FrontendFileTooLarge => "lame: frontend file too large".to_owned(),
            LameError::Unknown(num) => {
                let mut text = "lame: unknown error: ".to_owned();
                push_signed_decimal(&mut text, *num as i64);
                text
            },
        }
    }
}

/// What a result of the codec stands for: every negative one is an error.
pub open spec fn checked(num: i32) -> Result<i32, LameError> {
    if num >= 0 {
        Ok(num)
    } else {
        Err(
            if num == LAME_GENERICERROR {
                LameError::Generic
            } else if num == LAME_NOMEM {
                LameError::OutOfMemory
            } else if num == LAME_BADBITRATE {
                LameError::BadBitrate
            } else if num == LAME_BADSAMPFREQ {
                LameError::BadSampleRate
            } else if num == LAME_INTERNALERROR {
                LameError::Internal
            } else if num == FRONTEND_READERROR {
                LameError::FrontendRead
            } else if num == FRONTEND_WRITEERROR {
                LameError::FrontendWrite
            } else if num == FRONTEND_FILETOOLARGE {
                LameError::FrontendFileTooLarge
            } else {
                LameError::Unknown(num)
            },
        )
    }
}

/// Checks the result of a function of the codec.
///
/// Returns the error if the result of the function call is negative, and the result of the function
/// as-is otherwise.
pub fn check_err(num: i32) -> (r: Result<i32, LameError>)
    ensures
        r == checked(num),
{
    if num == LAME_GENERICERROR {
        return Err(LameError::Generic);
    } else if num == LAME_NOMEM {
        return Err(LameError::OutOfMemory);
    } else if num == LAME_BADBITRATE {
        return Err(LameError::BadBitrate);
    } else if num == LAME_BADSAMPFREQ {
        return Err(LameError::BadSampleRate);
    } else if num == LAME_INTERNALERROR {
        return Err(LameError::Internal);
    } else if num == FRONTEND_READERROR {
        return Err(LameError::FrontendRead);
    } else if num == FRONTEND_WRITEERROR {
        return Err(LameError::FrontendWrite);
    } else if num == FRONTEND_FILETOOLARGE {
        return Err(LameError::FrontendFileTooLarge);
    } else if num < 0 {
        return Err(LameError::Unknown(num));
    }
    Ok(num)
}

/// How to set up the codec. The bitrate is in kilobits per second.
#[derive(Clone, Copy, Debug, PartialEq, Eq, Structural)]
pub struct Mp3Settings {
    pub channels: i32,
    pub bitrate: i32,
    pub quality: i32,
}

/// Mp3Encoder is a MPEG-1 Audio Layer III streaming compliant codec that can be played in a browser
/// using Media Source Extensions. It takes the packets that the codec has made.
#[derive(Clone, Copy, Debug, PartialEq, Eq, Structural)]
pub struct Mp3Encoder {
    pub channels: u8,
    pub kbps: u16,
}

impl Mp3Encoder {
    /// Whether there is a codec for these parameters.
    pub open spec fn well_formed(self) -> bool {
        self.channels == 1 || self.channels == 2
    }

    /// Creates a new instance of a Mp3Encoder for the given number of channels, which is 1 or 2.
    pub fn new(channels: u8, kbps: u16) -> (r: Result<Mp3Encoder, AudioError>)
        ensures
            r == (if channels == 1 || channels == 2 {
                Ok(Mp3Encoder { channels, kbps })
            } else {
                Err(AudioError::InvalidChannels(channels))
            }),
    {
        if channels != 1 && channels != 2 {
            return Err(AudioError::InvalidChannels(channels));
        }
        Ok(Mp3Encoder { channels, kbps })
    }

    /// How to set up the codec.
    pub fn settings(&self) -> (settings: Mp3Settings)
        ensures
            settings == (Mp3Settings {
                channels: self.channels as i32,
                bitrate: self.kbps as i32,
                quality: QUALITY,
            }),
    {
        Mp3Settings { channels: self.channels as i32, bitrate: self.kbps as i32, quality: QUALITY }
    }

    /// The preferred sample rate for this encoder.
    pub fn sample_rate(&self) -> (rate: u32)
        ensures
            rate == SAMPLE_RATE,
    {
        SAMPLE_RATE
    }

    /// The frame length, in milliseconds.
    pub fn frame_len_ms(&self) -> (len: u64)
        ensures
            len == FRAME_LEN_MS,
    {
        FRAME_LEN_MS
    }

    /// The number of channels.
    pub fn channels(&self) -> (channels: u8)
        ensures
            channels == self.channels,
    {
        self.channels
    }

    /// The internal delay of the codec, in samples.
    pub fn internal_delay(&self) -> (delay: usize)
        ensures
            delay == INTERNAL_DELAY,
    {
        INTERNAL_DELAY
    }

    /// The number of samples to encode on each channel, where there are `input_len` of them in all.
    pub fn samples_per_channel(&self, input_len: usize) -> (n: usize)
        requires
            self.well_formed(),
        ensures
            n == input_len / self.channels as usize,
    {
        input_len / self.channels as usize
    }

    /// The maximum size of an encoded frame.
    pub fn max_frame_len(&self) -> (len: usize)
        ensures
            len == MAX_FRAME_LEN,
    {
        MAX_FRAME_LEN
    }
}

} // verus!
