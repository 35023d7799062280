//! The media pipeline's configuration and health: which source runs, the
//! settings it reads, and the counters it reports.
use core::time::Duration;
use std::path::PathBuf;
use std::time::{SystemTime, UNIX_EPOCH};
use vstd::prelude::*;

pub mod file_h264;
pub mod macos_screen;

verus! {

#[verifier::external_type_specification]
#[verifier::external_body]
pub struct ExPathBuf(std::path::PathBuf);

#[verifier::external_type_specification]
#[verifier::external_body]
pub struct ExSystemTime(std::time::SystemTime);

/// A decimal digit character.
pub open spec fn is_decimal_digit(c: char) -> bool {
    48 <= (c as u32) && (c as u32) <= 57
}

/// The number that decimal digits spell.
pub open spec fn decimal_value(digits: Seq<char>) -> int
    decreases digits.len(),
{
    if digits.len() == 0 {
        0
    } else {
        decimal_value(digits.drop_last()) * 10 + ((digits.last() as u32) - 48)
    }
}

/// What `str::parse::<i32>` gives for a text: an optional `+` or `-`, then one
/// or more decimal digits and nothing else, with a value that fits in `i32`.
pub open spec fn parsed_i32(text: Seq<char>) -> Option<i32> {
    let signed = text.len() > 0 && (text[0] == '-' || text[0] == '+');
    let digits = if signed {
        text.drop_first()
    } else {
        text
    };
    let magnitude = decimal_value(digits);
    let value = if text.len() > 0 && text[0] == '-' {
        -magnitude
    } else {
        magnitude
    };
    if digits.len() > 0 && (forall|i: int| 0 <= i < digits.len() ==> is_decimal_digit(
        #[trigger] digits[i],
    )) && i32::MIN <= value <= i32::MAX {
        Some(value as i32)
    } else {
        None
    }
}

/// Calls `str::parse::<i32>` (`<i32 as FromStr>::from_str`). Its documentation
/// accepts exactly an optional `+` or `-` sign followed by ASCII digits, and
/// reports an error for an empty text, a lone sign, any other character and a
/// value outside `i32`; the contract states that as `parsed_i32`.
#[verifier::external_body]
fn parse_i32(text: &str) -> (r: Option<i32>)
    ensures
        r == parsed_i32(text@),
{
    text.parse::<i32>().ok()
}

/// Whether two texts are the same characters.
pub fn same_text(a: &str, b: &str) -> (r: bool)
    ensures
        r == (a@ == b@),
{
    a.to_owned() == b.to_owned()
}

/// The environment settings that the pipeline reads; `None` for a variable
/// that is unset or not valid Unicode.
pub struct PipelineEnv {
    /// `POC_SOURCE`
    pub source: Option<String>,
    /// `POC_DISPLAY_ID`
    pub display_id: Option<String>,
    /// `POC_FPS`
    pub fps: Option<String>,
    /// `POC_MAX_WIDTH`
    pub max_width: Option<String>,
    /// `POC_TARGET_BITRATE_BPS`
    pub target_bitrate_bps: Option<String>,
    /// `POC_VIDEO_FILE`, unset when `None`
    pub video_file: Option<PathBuf>,
    /// `POC_FILE_LOOP`
    pub file_loop: Option<String>,
}

/// The number that a setting asks for: its text parsed as an `i32`, if it is
/// set and parses.
pub open spec fn requested(value: Option<String>) -> Option<i32> {
    match value {
        Some(text) => parsed_i32(text@),
        None => None,
    }
}

/// An integer setting: its parsed value when it is set and parses, else the
/// default.
pub open spec fn spec_env_i32(value: Option<String>, default: i32) -> i32 {
    match value {
        Some(text) => match parsed_i32(text@) {
            Some(v) => v,
            None => default,
        },
        None => default,
    }
}

/// An integer setting: its parsed value when it is set and parses, else the
/// default.
pub fn env_i32(value: &Option<String>, default: i32) -> (r: i32)
    ensures
        r == spec_env_i32(*value, default),
{
    match value {
        Some(text) => match parse_i32(text.as_str()) {
            Some(v) => v,
            None => default,
        },
        None => default,
    }
}

/// The larger of `value` and `floor`.
pub open spec fn at_least(value: i32, floor: i32) -> i32 {
    if value < floor {
        floor
    } else {
        value
    }
}

/// The counters and state that a running pipeline reports.
pub struct PipelineHealth {
    pub source: &'static str,
    pub pipeline_ready: bool,
    pub raw_frames: u64,
    pub encode_attempts: u64,
    pub encoded_frames: u64,
    pub dropped_frames: u64,
    pub last_raw_frame_at_ms: u64,
    pub last_encode_attempt_at_ms: u64,
    pub last_encoded_at_ms: u64,
    pub last_error: Option<String>,
}

/// The source backend that a pipeline runs, with its settings.
pub enum SourceConfig {
    MacosScreen(macos_screen::PipelineConfig),
    FileH264(file_h264::FileH264Config),
    Camera,
    CameraAudio,
    ScreenAudio,
}

/// The source a pipeline runs.
pub struct PipelineConfig {
    pub source: SourceConfig,
}

/// The error for a `POC_SOURCE` that names no source.
pub open spec fn unsupported_source_message(name: Seq<char>) -> Seq<char> {
    "unsupported POC_SOURCE `"@ + name
        + "`; expected one of screen, file, camera, camera-audio, screen-audio"@
}

/// Error of the camera source, which has no implementation yet.
pub const CAMERA_UNSUPPORTED: &'static str =
    "POC_SOURCE=camera is not implemented yet; add an AVFoundation capture source module first";

/// Error of the camera-with-audio source, which has no implementation yet.
pub const CAMERA_AUDIO_UNSUPPORTED: &'static str =
    "POC_SOURCE=camera-audio is not implemented yet; the server currently publishes H264 video only";

/// Error of the screen-with-audio source, which has no implementation yet.
pub const SCREEN_AUDIO_UNSUPPORTED: &'static str =
    "POC_SOURCE=screen-audio is not implemented yet; the server currently publishes H264 video only";

impl PipelineConfig {
    /// Chooses the source from `POC_SOURCE` (`screen` when unset) and reads
    /// that source's settings. An unknown name, or a file source without a
    /// file, is an error.
    pub fn from_env(env: PipelineEnv) -> (r: Result<Self, String>)
        ensures
            ({
                let name = match env.source {
                    Some(s) => s@,
                    None => "screen"@,
                };
                match r {
                    Ok(config) => {
                        &&& name == "screen"@ ==> (config.source matches SourceConfig::MacosScreen(
                            screen,
                        ) && screen == macos_screen::spec_screen_config(env))
                        &&& name == "file"@ ==> (config.source matches SourceConfig::FileH264(file)
                            && file_h264::spec_file_config(env) == Some(file))
                        &&& name == "camera"@ ==> config.source is Camera
                        &&& name == "camera-audio"@ ==> config.source is CameraAudio
                        &&& name == "screen-audio"@ ==> config.source is ScreenAudio
                        &&& name == "screen"@ || name == "file"@ || name == "camera"@ || name
                            == "camera-audio"@ || name == "screen-audio"@
                    },
                    Err(e) => if name == "file"@ {
                        &&& file_h264::spec_file_config(env) is None
                        &&& e@ == file_h264::VIDEO_FILE_REQUIRED@
                    } else {
                        &&& name != "screen"@ && name != "camera"@ && name != "camera-audio"@
                            && name != "screen-audio"@
                        &&& e@ == unsupported_source_message(name)
                    },
                }
            }),
    {
        proof {
            reveal_strlit("screen");
            reveal_strlit("file");
            reveal_strlit("camera");
            reveal_strlit("camera-audio");
            reveal_strlit("screen-audio");
            assert("screen"@.len() == 6 && "screen"@[0] == 's');
            assert("file"@.len() == 4);
            assert("camera"@.len() == 6 && "camera"@[0] == 'c');
            assert("camera-audio"@.len() == 12 && "camera-audio"@[0] == 'c');
            assert("screen-audio"@.len() == 12 && "screen-audio"@[0] == 's');
        }
        let name: String = match &env.source {
            Some(s) => s.clone(),
            None => "screen".to_owned(),
        };
        let source = if same_text(name.as_str(), "screen") {
            SourceConfig::MacosScreen(macos_screen::PipelineConfig::from_env(&env))
        } else if same_text(name.as_str(), "file") {
            match file_h264::FileH264Config::from_env(env) {
                Ok(file) => SourceConfig::FileH264(file),
                Err(e) => return Err(e),
            }
        } else if same_text(name.as_str(), "camera") {
            SourceConfig::Camera
        } else if same_text(name.as_str(), "camera-audio") {
            SourceConfig::CameraAudio
        } else if same_text(name.as_str(), "screen-audio") {
            SourceConfig::ScreenAudio
        } else {
            let mut message = "unsupported POC_SOURCE `".to_owned();
            message.append(name.as_str());
            message.append("`; expected one of screen, file, camera, camera-audio, screen-audio");
            return Err(message);
        };
        Ok(PipelineConfig { source })
    }
}

impl SourceConfig {
    /// The name that health reports give for this source.
    pub fn source_name(&self) -> (name: &'static str)
        ensures
            name@ == match self {
                SourceConfig::MacosScreen(_) => "screen"@,
                SourceConfig::FileH264(_) => "file"@,
                SourceConfig::Camera => "camera"@,
                SourceConfig::CameraAudio => "camera-audio"@,
                SourceConfig::ScreenAudio => "screen-audio"@,
            },
    {
        match self {
            SourceConfig::MacosScreen(_) => "screen",
            SourceConfig::FileH264(_) => "file",
            SourceConfig::Camera => "camera",
            SourceConfig::CameraAudio => "camera-audio",
            SourceConfig::ScreenAudio => "screen-audio",
        }
    }

    /// Whether a pipeline can start this source: the screen and file sources
    /// can; the others are refused with the reason.
    pub fn check_supported(&self) -> (r: Result<(), String>)
        ensures
            match self {
                SourceConfig::MacosScreen(_) => r is Ok,
                SourceConfig::FileH264(_) => r is Ok,
                SourceConfig::Camera => r matches Err(e) && e@ == CAMERA_UNSUPPORTED@,
                SourceConfig::CameraAudio => r matches Err(e) && e@ == CAMERA_AUDIO_UNSUPPORTED@,
                SourceConfig::ScreenAudio => r matches Err(e) && e@ == SCREEN_AUDIO_UNSUPPORTED@,
            },
    {
        match self {
            SourceConfig::MacosScreen(_) => Ok(()),
            SourceConfig::FileH264(_) => Ok(()),
            SourceConfig::Camera => Err(CAMERA_UNSUPPORTED.to_owned()),
            SourceConfig::CameraAudio => Err(CAMERA_AUDIO_UNSUPPORTED.to_owned()),
            SourceConfig::ScreenAudio => Err(SCREEN_AUDIO_UNSUPPORTED.to_owned()),
        }
    }
}

/// Calls `SystemTime::now()`. Nothing is stated of the result: it is the
/// machine's clock.
#[verifier::external_body]
fn system_time_now() -> SystemTime {
    SystemTime::now()
}

/// Calls `SystemTime::duration_since(UNIX_EPOCH)`, `None` where the time lies
/// before the epoch. Nothing is stated of the result: a `SystemTime` is opaque
/// here.
#[verifier::external_body]
fn elapsed_since_unix_epoch(time: &SystemTime) -> Option<Duration> {
    time.duration_since(UNIX_EPOCH).ok()
}

/// Calls `Duration::as_millis`, the whole milliseconds of a duration. Nothing
/// is stated of the result: a `Duration` is opaque here.
#[verifier::external_body]
fn duration_as_millis(duration: &Duration) -> u128 {
    duration.as_millis()
}

/// A timestamp in milliseconds: the elapsed milliseconds cut to 64 bits, or
/// zero where the clock reads before the epoch.
pub fn unix_ms_from_elapsed(elapsed_millis: Option<u128>) -> (ms: u64)
    ensures
        ms == match elapsed_millis {
            Some(m) => m as u64,
            None => 0u64,
        },
{
    match elapsed_millis {
        Some(m) => #[verifier::truncate] (m as u64),
        None => 0,
    }
}

/// Milliseconds since the Unix epoch by the machine's clock, zero before it.
pub fn now_unix_ms() -> u64 {
    let now = system_time_now();
    let elapsed = match elapsed_since_unix_epoch(&now) {
        Some(d) => Some(duration_as_millis(&d)),
        None => None,
    };
    unix_ms_from_elapsed(elapsed)
}

} // verus!
