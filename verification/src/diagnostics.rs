//! The audio environment report: what the default microphone, the default
//! output device and the local ffmpeg look like, in the words shown to the
//! user.
use vstd::prelude::*;
use crate::audio::ffmpeg_missing_detail;
use crate::text::{append_str, decimal, decimal_string, join, lit, views};

verus! {

broadcast use vstd::string::group_string_axioms;

/// How a stream format is described: `48000 Hz / 1 channel(s) / F32`.
pub open spec fn config_detail(sample_rate: nat, channels: nat, sample_format: Seq<char>) -> Seq<
    char,
> {
    decimal(sample_rate) + " Hz / "@ + decimal(channels) + " channel(s) / "@ + sample_format
}

/// A device's default stream format; `sample_format` is the format's name
/// as its audio library spells it (`F32`, `I16`, ...).
pub fn audio_config_detail(sample_rate: u32, channels: u16, sample_format: &str) -> (r: String)
    ensures
        r@ == config_detail(sample_rate as nat, channels as nat, sample_format@),
{
    let mut r = decimal_string(sample_rate as u64);
    append_str(&mut r, " Hz / ");
    append_str(&mut r, decimal_string(channels as u64).as_str());
    append_str(&mut r, " channel(s) / ");
    append_str(&mut r, sample_format);
    r
}

pub open spec fn system_detail(config: Seq<char>) -> Seq<char> {
    config
        + ". Output device detected; system-audio recording still depends on WASAPI loopback support and will be verified when recording starts."@
}

/// The detail shown for the default output device.
pub fn system_audio_diagnostic_detail(sample_rate: u32, channels: u16, sample_format: &str) -> (r:
    String)
    ensures
        r@ == system_detail(config_detail(sample_rate as nat, channels as nat, sample_format@)),
{
    let mut r = audio_config_detail(sample_rate, channels, sample_format);
    append_str(
        &mut r,
        ". Output device detected; system-audio recording still depends on WASAPI loopback support and will be verified when recording starts.",
    );
    r
}

/// What was found of a default audio device.
pub enum DeviceProbe {
    /// No default device.
    Missing,
    /// A device whose name may be unknown and whose default stream format
    /// could not be read.
    ConfigError { name: Option<String>, error: String },
    /// A device whose name may be unknown, with its default stream format.
    Ready { name: Option<String>, sample_rate: u32, channels: u16, sample_format: String },
}

/// The report on the audio environment.
pub struct NativeAudioDiagnostics {
    pub microphone_available: bool,
    pub microphone_name: Option<String>,
    pub microphone_detail: Option<String>,
    pub system_audio_available: bool,
    pub system_audio_name: Option<String>,
    pub system_audio_detail: Option<String>,
    pub ffmpeg_installed: bool,
    pub ffmpeg_path: Option<String>,
    pub ffmpeg_detail: Option<String>,
    pub message: String,
}

pub open spec fn opt_str(o: Option<String>) -> Option<Seq<char>> {
    match o {
        Some(s) => Some(s@),
        None => None,
    }
}

/// Availability, name and detail of a device; `output` selects the output
/// device's wording.
pub open spec fn device_report(probe: DeviceProbe, output: bool) -> (bool, Option<Seq<char>>, Option<
    Seq<char>,
>) {
    let fallback = if output {
        "Default speaker"@
    } else {
        "Default microphone"@
    };
    match probe {
        DeviceProbe::Missing => (
            false,
            None,
            Some(
                if output {
                    "No default system output device was found."@
                } else {
                    "No default microphone input device was found."@
                },
            ),
        ),
        DeviceProbe::ConfigError { name, error } => (
            false,
            Some(
                match name {
                    Some(n) => n@,
                    None => fallback,
                },
            ),
            Some(error@),
        ),
        DeviceProbe::Ready { name, sample_rate, channels, sample_format } => (
            true,
            Some(
                match name {
                    Some(n) => n@,
                    None => fallback,
                },
            ),
            Some(
                if output {
                    system_detail(config_detail(sample_rate as nat, channels as nat, sample_format@))
                } else {
                    config_detail(sample_rate as nat, channels as nat, sample_format@)
                },
            ),
        ),
    }
}

fn report_device(probe: DeviceProbe, output: bool) -> (r: (bool, Option<String>, Option<String>))
    ensures
        (r.0, opt_str(r.1), opt_str(r.2)) == device_report(probe, output),
{
    let fallback = if output {
        "Default speaker"
    } else {
        "Default microphone"
    };
    match probe {
        DeviceProbe::Missing => {
            let detail = if output {
                lit("No default system output device was found.")
            } else {
                lit("No default microphone input device was found.")
            };
            (false, None, Some(detail))
        },
        DeviceProbe::ConfigError { name, error } => {
            let name = match name {
                Some(n) => n,
                None => lit(fallback),
            };
            (false, Some(name), Some(error))
        },
        DeviceProbe::Ready { name, sample_rate, channels, sample_format } => {
            let name = match name {
                Some(n) => n,
                None => lit(fallback),
            };
            let detail = if output {
                system_audio_diagnostic_detail(sample_rate, channels, sample_format.as_str())
            } else {
                audio_config_detail(sample_rate, channels, sample_format.as_str())
            };
            (true, Some(name), Some(detail))
        },
    }
}

/// The whole report. `ffmpeg` is the installed ffmpeg's path, `None` when
/// none was found, or why the search failed; `ffmpeg_roots` are the folders
/// that were searched.
pub fn native_audio_diagnostics(
    microphone: DeviceProbe,
    speaker: DeviceProbe,
    ffmpeg: Result<Option<String>, String>,
    ffmpeg_roots: &Vec<String>,
) -> (r: NativeAudioDiagnostics)
    ensures
        (r.microphone_available, opt_str(r.microphone_name), opt_str(r.microphone_detail))
            == device_report(microphone, false),
        (r.system_audio_available, opt_str(r.system_audio_name), opt_str(r.system_audio_detail))
            == device_report(speaker, true),
        r.ffmpeg_installed == (ffmpeg matches Ok(Some(_))),
        opt_str(r.ffmpeg_path) == (match ffmpeg {
            Ok(Some(p)) => Some(p@),
            _ => None::<Seq<char>>,
        }),
        opt_str(r.ffmpeg_detail) == Some(
            match ffmpeg {
                Ok(Some(_)) => "Local ffmpeg runtime is installed."@,
                Ok(None) => "ffmpeg.exe was not found. Place ffmpeg.exe under one of these folders, or add ffmpeg to PATH: "@
                    + join(views(ffmpeg_roots@).push("system PATH"@), " | "@)
                    + ". Hi-Voicer will not download ffmpeg automatically."@,
                Err(e) => e@,
            },
        ),
        r.message@ == (if r.microphone_available && r.system_audio_available && r.ffmpeg_installed {
            "Native audio environment looks ready."@
        } else {
            "Native audio environment needs attention before all recording and processing modes are available."@
        }),
{
    let (microphone_available, microphone_name, microphone_detail) = report_device(
        microphone,
        false,
    );
    let (system_audio_available, system_audio_name, system_audio_detail) = report_device(
        speaker,
        true,
    );
    let (ffmpeg_installed, ffmpeg_path, ffmpeg_detail) = match ffmpeg {
        Ok(Some(path)) => (true, Some(path), Some(lit("Local ffmpeg runtime is installed."))),
        Ok(None) => (false, None, Some(ffmpeg_missing_detail(ffmpeg_roots))),
        Err(error) => (false, None, Some(error)),
    };
    let message = if microphone_available && system_audio_available && ffmpeg_installed {
        lit("Native audio environment looks ready.")
    } else {
        lit(
            "Native audio environment needs attention before all recording and processing modes are available.",
        )
    };
    NativeAudioDiagnostics {
        microphone_available,
        microphone_name,
        microphone_detail,
        system_audio_available,
        system_audio_name,
        system_audio_detail,
        ffmpeg_installed,
        ffmpeg_path,
        ffmpeg_detail,
        message,
    }
}

} // verus!
