//! Encoding presets: each maps to an output file extension and a fixed
//! ffmpeg argument list.

use vstd::prelude::*;

verus! {

/// A high-level encoding preset.
#[derive(Copy, Clone, Debug)]
pub enum Preset {
    Wav,
    Flac,
    FlacComp10,
    LibopusLow,
    Libopus,
    LibopusHigh,
    LibopusUltra,
    Libmp3lameLow,
    Libmp3lame,
    Libmp3lameHigh,
    Libmp3lameUltra,
    LibfdkAacLow,
    LibfdkAac,
    LibfdkAacHigh,
    LibfdkAacUltra,
    LibvorbisLow,
    Libvorbis,
    LibvorbisHigh,
    LibvorbisUltra,
}

impl Preset {
    /// The output file extension this preset produces.
    pub open spec fn spec_ext(self) -> Seq<char> {
        match self {
            Preset::Wav => "wav"@,
            Preset::Flac | Preset::FlacComp10 => "flac"@,
            Preset::Libopus | Preset::LibopusLow | Preset::LibopusHigh | Preset::LibopusUltra
                => "ogg"@,
            Preset::LibfdkAac | Preset::LibfdkAacLow | Preset::LibfdkAacHigh
                | Preset::LibfdkAacUltra => "m4a"@,
            Preset::Libmp3lame | Preset::Libmp3lameLow | Preset::Libmp3lameHigh
                | Preset::Libmp3lameUltra => "mp3"@,
            Preset::Libvorbis | Preset::LibvorbisLow | Preset::LibvorbisHigh
                | Preset::LibvorbisUltra => "ogg"@,
        }
    }

    pub fn ext(self) -> (r: &'static str)
        ensures
            r@ == self.spec_ext(),
    {
        match self {
            Preset::Wav => "wav",
            Preset::Flac | Preset::FlacComp10 => "flac",
            Preset::Libopus | Preset::LibopusLow | Preset::LibopusHigh | Preset::LibopusUltra
                => "ogg",
            Preset::LibfdkAac | Preset::LibfdkAacLow | Preset::LibfdkAacHigh
                | Preset::LibfdkAacUltra => "m4a",
            Preset::Libmp3lame | Preset::Libmp3lameLow | Preset::Libmp3lameHigh
                | Preset::Libmp3lameUltra => "mp3",
            Preset::Libvorbis | Preset::LibvorbisLow | Preset::LibvorbisHigh
                | Preset::LibvorbisUltra => "ogg",
        }
    }

    /// The ffmpeg arguments this preset stands for.
    pub open spec fn spec_ffmpeg_args(self) -> Seq<Seq<char>> {
        match self {
            Preset::Wav => seq!["-f"@, "wav"@],
            Preset::Flac => seq!["-f"@, "flac"@, "-c:a"@, "flac"@, "-compression_level"@, "8"@],
            Preset::FlacComp10 => seq![
                "-f"@,
                "flac"@,
                "-c:a"@,
                "flac"@,
                "-compression_level"@,
                "10"@,
            ],
            Preset::LibopusLow => seq!["-f"@, "oga"@, "-c:a"@, "libopus"@, "-b:a"@, "48k"@],
            Preset::Libopus => seq!["-f"@, "oga"@, "-c:a"@, "libopus"@, "-b:a"@, "128k"@],
            Preset::LibopusHigh => seq!["-f"@, "oga"@, "-c:a"@, "libopus"@, "-b:a"@, "192k"@],
            Preset::LibopusUltra => seq!["-f"@, "oga"@, "-c:a"@, "libopus"@, "-b:a"@, "256k"@],
            Preset::Libmp3lameLow => seq!["-f"@, "mp3"@, "-c:a"@, "libmp3lame"@, "-b:a"@, "64k"@],
            Preset::Libmp3lame => seq!["-f"@, "mp3"@, "-c:a"@, "libmp3lame"@, "-b:a"@, "128k"@],
            Preset::Libmp3lameHigh => seq![
                "-f"@,
                "mp3"@,
                "-c:a"@,
                "libmp3lame"@,
                "-b:a"@,
                "224k"@,
            ],
            Preset::Libmp3lameUltra => seq![
                "-f"@,
                "mp3"@,
                "-c:a"@,
                "libmp3lame"@,
                "-b:a"@,
                "320k"@,
            ],
            Preset::LibfdkAacLow => seq!["-f"@, "mp4"@, "-c:a"@, "libfdk_aac"@, "-b:a"@, "64k"@],
            Preset::LibfdkAac => seq!["-f"@, "mp4"@, "-c:a"@, "libfdk_aac"@, "-b:a"@, "128k"@],
            Preset::LibfdkAacHigh => seq![
                "-f"@,
                "mp4"@,
                "-c:a"@,
                "libfdk_aac"@,
                "-b:a"@,
                "192k"@,
            ],
            Preset::LibfdkAacUltra => seq![
                "-f"@,
                "mp4"@,
                "-c:a"@,
                "libfdk_aac"@,
                "-b:a"@,
                "256k"@,
                "-cutoff"@,
                "18000"@,
            ],
            Preset::LibvorbisLow => seq!["-f"@, "oga"@, "-c:a"@, "libvorbis"@, "-q"@, "2.0"@],
            Preset::Libvorbis => seq!["-f"@, "oga"@, "-c:a"@, "libvorbis"@, "-q"@, "5.0"@],
            Preset::LibvorbisHigh => seq!["-f"@, "oga"@, "-c:a"@, "libvorbis"@, "-q"@, "6.5"@],
            Preset::LibvorbisUltra => seq!["-f"@, "oga"@, "-c:a"@, "libvorbis"@, "-q"@, "8.0"@],
        }
    }

    pub fn ffmpeg_args(self) -> (r: Vec<&'static str>)
        ensures
            r@.map_values(|s: &str| s@) == self.spec_ffmpeg_args(),
    {
        let r: Vec<&'static str> = match self {
            Preset::Wav => vec!["-f", "wav"],
            Preset::Flac => vec!["-f", "flac", "-c:a", "flac", "-compression_level", "8"],
            Preset::FlacComp10 => vec!["-f", "flac", "-c:a", "flac", "-compression_level", "10"],
            Preset::LibopusLow => vec!["-f", "oga", "-c:a", "libopus", "-b:a", "48k"],
            Preset::Libopus => vec!["-f", "oga", "-c:a", "libopus", "-b:a", "128k"],
            Preset::LibopusHigh => vec!["-f", "oga", "-c:a", "libopus", "-b:a", "192k"],
            Preset::LibopusUltra => vec!["-f", "oga", "-c:a", "libopus", "-b:a", "256k"],
            Preset::Libmp3lameLow => vec!["-f", "mp3", "-c:a", "libmp3lame", "-b:a", "64k"],
            Preset::Libmp3lame => vec!["-f", "mp3", "-c:a", "libmp3lame", "-b:a", "128k"],
            Preset::Libmp3lameHigh => vec!["-f", "mp3", "-c:a", "libmp3lame", "-b:a", "224k"],
            Preset::Libmp3lameUltra => vec!["-f", "mp3", "-c:a", "libmp3lame", "-b:a", "320k"],
            Preset::LibfdkAacLow => vec!["-f", "mp4", "-c:a", "libfdk_aac", "-b:a", "64k"],
            Preset::LibfdkAac => vec!["-f", "mp4", "-c:a", "libfdk_aac", "-b:a", "128k"],
            Preset::LibfdkAacHigh => vec!["-f", "mp4", "-c:a", "libfdk_aac", "-b:a", "192k"],
            Preset::LibfdkAacUltra => vec![
                "-f",
                "mp4",
                "-c:a",
                "libfdk_aac",
                "-b:a",
                "256k",
                "-cutoff",
                "18000",
            ],
            Preset::LibvorbisLow => vec!["-f", "oga", "-c:a", "libvorbis", "-q", "2.0"],
            Preset::Libvorbis => vec!["-f", "oga", "-c:a", "libvorbis", "-q", "5.0"],
            Preset::LibvorbisHigh => vec!["-f", "oga", "-c:a", "libvorbis", "-q", "6.5"],
            Preset::LibvorbisUltra => vec!["-f", "oga", "-c:a", "libvorbis", "-q", "8.0"],
        };
        proof {
            assert(r@.map_values(|s: &str| s@) =~= self.spec_ffmpeg_args());
        }
        r
    }
}

} // verus!
