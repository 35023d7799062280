//! Settings of the source that replays an Annex-B H.264 file.
use core::time::Duration;
use std::path::PathBuf;
use vstd::prelude::*;
use vstd::string::StringExecFns;

use crate::h264::model::{annex_b_access_units, annex_b_nal_units, has_aud};
use crate::h264::{
    access_unit_bytes, all_cover, parse_annex_b_access_units, EncodedAccessUnit,
    AUD_WITHOUT_VIDEO_ERROR, NO_ACCESS_UNIT_ERROR,
};

use super::{at_least, env_i32, requested, same_text, spec_env_i32, PipelineEnv};

verus! {

/// Frames per second when `POC_FPS` is unset.
pub const DEFAULT_TARGET_FPS: i32 = 15;

/// Error of a file source without `POC_VIDEO_FILE`.
pub const VIDEO_FILE_REQUIRED: &'static str = "POC_VIDEO_FILE is required when POC_SOURCE=file";

/// Settings of the file source.
pub struct FileH264Config {
    pub path: PathBuf,
    pub fps: i32,
    pub loop_forever: bool,
}

/// Whether `POC_FILE_LOOP` asks for looping: unset means yes; set, only
/// `1`, `true`, `TRUE`, `yes` and `YES` do.
pub open spec fn spec_loop_flag(value: Option<String>) -> bool {
    match value {
        Some(text) => text@ == "1"@ || text@ == "true"@ || text@ == "TRUE"@ || text@ == "yes"@
            || text@ == "YES"@,
        None => true,
    }
}

/// The file settings that an environment gives, if it names a file.
pub open spec fn spec_file_config(env: PipelineEnv) -> Option<FileH264Config> {
    match env.video_file {
        Some(path) => Some(
            FileH264Config {
                path,
                fps: at_least(spec_env_i32(env.fps, DEFAULT_TARGET_FPS), 1),
                loop_forever: spec_loop_flag(env.file_loop),
            },
        ),
        None => None,
    }
}

/// The file settings name the file that the environment names, with no
/// settings at all when it names none; they run at the number of frames per
/// second that the environment asks for when that is at least one, at one
/// when it asks for less, and at fifteen when the variable is unset or does
/// not parse; they loop unless `POC_FILE_LOOP` is set to something other than
/// `1`, `true`, `TRUE`, `yes` or `YES`.
pub proof fn lemma_file_config_follows_env(env: PipelineEnv)
    ensures
        env.video_file is None ==> spec_file_config(env) is None,
        env.video_file is Some ==> ({
            let c = spec_file_config(env)->0;
            &&& spec_file_config(env) is Some
            &&& c.path == env.video_file->0
            &&& match requested(env.fps) {
                Some(v) => (v >= 1 ==> c.fps == v) && (v < 1 ==> c.fps == 1),
                None => c.fps == 15,
            }
            &&& (env.file_loop is None ==> c.loop_forever)
            &&& (env.file_loop is Some ==> (c.loop_forever <==> (env.file_loop->0@ == "1"@
                || env.file_loop->0@ == "true"@ || env.file_loop->0@ == "TRUE"@
                || env.file_loop->0@ == "yes"@ || env.file_loop->0@ == "YES"@)))
        }),
{
}

/// Whether `POC_FILE_LOOP` asks for looping.
pub fn loop_flag(value: &Option<String>) -> (r: bool)
    ensures
        r == spec_loop_flag(*value),
{
    match value {
        Some(text) => {
            let t = text.as_str();
            same_text(t, "1") || same_text(t, "true") || same_text(t, "TRUE") || same_text(
                t,
                "yes",
            ) || same_text(t, "YES")
        },
        None => true,
    }
}

impl FileH264Config {
    /// Reads the file settings; a missing `POC_VIDEO_FILE` is an error.
    pub fn from_env(env: PipelineEnv) -> (r: Result<Self, String>)
        ensures
            match r {
                Ok(config) => spec_file_config(env) == Some(config),
                Err(e) => spec_file_config(env) is None && e@ == VIDEO_FILE_REQUIRED@,
            },
    {
        let fps = env_i32(&env.fps, DEFAULT_TARGET_FPS);
        let loop_forever = loop_flag(&env.file_loop);
        match env.video_file {
            None => Err(VIDEO_FILE_REQUIRED.to_owned()),
            Some(path) => Ok(
                FileH264Config {
                    path,
                    fps: if fps < 1 {
                        1
                    } else {
                        fps
                    },
                    loop_forever,
                },
            ),
        }
    }
}

/// Milliseconds per frame at `fps` frames per second (at least one).
pub fn frame_duration_millis(fps: i32) -> (ms: u64)
    ensures
        ms == 1000int / (at_least(fps, 1) as int),
{
    let per_second = if fps < 1 {
        1
    } else {
        fps
    };
    (1000 / per_second) as u64
}

/// The error of a file that parses to no access unit.
pub open spec fn no_access_units_message(path: Seq<char>) -> Seq<char> {
    "no access units found in "@ + path + "; expected an Annex-B H264 elementary stream"@
}

/// The access units to replay from the bytes of a file shown as
/// `path_text`, each covering `frame_duration`: those that
/// `parse_annex_b_access_units` gives, its error, or an error naming the file
/// when there are none.
pub fn replay_access_units(bytes: &[u8], frame_duration: Duration, path_text: &str) -> (r: Result<
    Vec<EncodedAccessUnit>,
    String,
>)
    ensures
        match r {
            Ok(units) => {
                &&& annex_b_access_units(bytes@).len() > 0
                &&& access_unit_bytes(units@) == annex_b_access_units(bytes@)
                &&& all_cover(units@, frame_duration)
            },
            Err(e) => {
                let nals = annex_b_nal_units(bytes@);
                &&& annex_b_access_units(bytes@).len() == 0
                &&& e@ == if nals.len() == 0 {
                    no_access_units_message(path_text@)
                } else if has_aud(nals) {
                    AUD_WITHOUT_VIDEO_ERROR@
                } else {
                    NO_ACCESS_UNIT_ERROR@
                }
            },
        },
{
    let units = match parse_annex_b_access_units(bytes, frame_duration) {
        Ok(units) => units,
        Err(e) => return Err(e),
    };
    if units.len() == 0 {
        let mut message = "no access units found in ".to_owned();
        message.append(path_text);
        message.append("; expected an Annex-B H264 elementary stream");
        return Err(message);
    }
    Ok(units)
}

/// Where replay stands: the access unit to publish next out of `unit_count`,
/// and whether replay starts over after the last one.
pub struct ReplayCursor {
    pub next_index: usize,
    pub unit_count: usize,
    pub loop_forever: bool,
}

impl ReplayCursor {
    /// The cursor points at an access unit or just past the last one.
    pub open spec fn well_formed(self) -> bool {
        self.next_index <= self.unit_count
    }

    /// Replay of `unit_count` access units from the first.
    pub fn new(unit_count: usize, loop_forever: bool) -> (cursor: Self)
        ensures
            cursor.well_formed(),
            cursor.next_index == 0,
            cursor.unit_count == unit_count,
            cursor.loop_forever == loop_forever,
    {
        ReplayCursor { next_index: 0, unit_count, loop_forever }
    }

    /// The position of the access unit to publish next: the units in order,
    /// then again from the first when looping, else none.
    pub fn next(&mut self) -> (index: Option<usize>)
        requires
            old(self).well_formed(),
        ensures
            final(self).well_formed(),
            final(self).unit_count == old(self).unit_count,
            final(self).loop_forever == old(self).loop_forever,
            if old(self).next_index < old(self).unit_count {
                &&& index == Some(old(self).next_index)
                &&& final(self).next_index == old(self).next_index + 1
            } else if old(self).loop_forever && old(self).unit_count > 0 {
                &&& index == Some(0usize)
                &&& final(self).next_index == 1
            } else {
                &&& index is None
                &&& final(self).next_index == old(self).next_index
            },
    {
        if self.next_index < self.unit_count {
            let index = self.next_index;
            self.next_index = index + 1;
            Some(index)
        } else if self.loop_forever && self.unit_count > 0 {
            self.next_index = 1;
            Some(0)
        } else {
            None
        }
    }
}

} // verus!
