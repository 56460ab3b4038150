//! Frame sources.
//!
//! [`FrameSource`] is a trait so the same detector runs against a live camera,
//! a video file, or a directory of images with no code change.

pub mod camera;
pub mod replay;

use std::str::FromStr;

use vstd::prelude::*;

use crate::config::CaptureConfig;
use crate::decimal::{decimal, decimal_of, law_decimal_reads_back, unsigned_of, unsigned_value};
use crate::error::{DetectError, ErrorView};
use crate::number::Number;
use crate::text::{
    chars_of, index_from, law_a_split_comes_together, owned, quote, quoted, spells, split_once, split_once_spec,
    string_of,
};
use crate::types::Frame;

verus! {

broadcast use vstd::string::group_string_axioms;

/// The file that a helper program is installed as.
pub open spec fn helper_file_spec(program: Seq<char>, windows: bool) -> Seq<char> {
    if windows {
        program + ".exe"@
    } else {
        program
    }
}

/// Name the file that a helper program is installed as.
pub fn helper_file(program: &str, windows: bool) -> (r: String)
    ensures
        r@ == helper_file_spec(program@, windows),
{
    if windows {
        owned(program).concat(".exe")
    } else {
        owned(program)
    }
}

/// What to tell someone who does not have ffmpeg.
pub const FFMPEG_MISSING_HELP: &'static str = "This app needs a free tool called ffmpeg to read your webcam, and it is not installed yet.\n\nTo install it, open the Start menu, type \"Terminal\" or \"PowerShell\", open it, then copy and paste this line and press Enter:\n\n    winget install --id Gyan.FFmpeg -e\n\nIf that does not work, download it from https://www.gyan.dev/ffmpeg/builds/ (choose \"release essentials\"), unzip it, and add its \"bin\" folder to your PATH.\n\nWhen it has finished installing, close this app and open it again.";

/// Where frames come from.
pub trait FrameSource: Send {
    /// `Ok(None)` means the source is exhausted: end of file, end of directory.
    /// A live camera never returns `None`; it blocks.
    fn next_frame(&mut self) -> Result<Option<Frame>, DetectError>;

    fn resolution(&self) -> (u32, u32);

    /// Human-readable identity, recorded in the session report.
    fn name(&self) -> (r: String)
        default_ensures
            r@ == "unknown"@,
    {
        owned("unknown")
    }

    /// Declared frame rate, when the source knows one.
    fn nominal_fps(&self) -> (r: Option<Number>)
        default_ensures
            r is None,
    {
        None
    }
}

/// How a source is named on the command line and in config.
///
/// ```text
/// camera:0                 device index 0
/// file:samples/phone.mp4   video file, decoded via ffmpeg
/// dir:samples/frames       directory of images, sorted by filename
/// ```
#[derive(Debug, Clone, PartialEq, Eq)]
pub enum SourceSpec {
    Camera { index: u32 },
    File { path: String },
    Dir { path: String },
}

/// What a [`SourceSpec`] says.
pub ghost enum SourceView {
    Camera { index: u32 },
    File { path: Seq<char> },
    Dir { path: Seq<char> },
}

impl View for SourceSpec {
    type V = SourceView;

    open spec fn view(&self) -> SourceView {
        match self {
            SourceSpec::Camera { index } => SourceView::Camera { index: *index },
            SourceSpec::File { path } => SourceView::File { path: path@ },
            SourceSpec::Dir { path } => SourceView::Dir { path: path@ },
        }
    }
}

/// Why a text names no source.
pub open spec fn source_error(s: Seq<char>, why: Seq<char>) -> ErrorView {
    ErrorView::Source { name: s, why }
}

/// The source that a text names, or why it names none. Only the first colon
/// separates: paths may hold more of them.
pub open spec fn source_named(s: Seq<char>) -> Result<SourceView, ErrorView> {
    match split_once_spec(s, ':') {
        None => Err(source_error(s, "expected one of camera:<index>, file:<path>, dir:<path>"@)),
        Some((kind, rest)) => {
            if kind == "camera"@ || kind == "cam"@ {
                match unsigned_value(rest, u32::MAX as nat) {
                    Some(index) => Ok(SourceView::Camera { index: index as u32 }),
                    None => Err(source_error(s, "camera index must be a number, got "@ + quoted(rest))),
                }
            } else if kind == "file"@ {
                Ok(SourceView::File { path: rest })
            } else if kind == "dir"@ {
                Ok(SourceView::Dir { path: rest })
            } else {
                Err(
                    source_error(
                        s,
                        "unknown source kind "@ + quoted(kind) + "; expected camera, file or dir"@,
                    ),
                )
            }
        },
    }
}

/// How a source is written.
pub open spec fn source_text(v: SourceView) -> Seq<char> {
    match v {
        SourceView::Camera { index } => "camera:"@ + decimal(index as nat),
        SourceView::File { path } => "file:"@ + path,
        SourceView::Dir { path } => "dir:"@ + path,
    }
}

/// What has to be opened, and how.
#[derive(Debug, Clone, PartialEq, Eq)]
pub enum Opening {
    Camera { capture: CaptureConfig },
    File { path: String },
    Dir { path: String, fps: u32 },
}

impl SourceSpec {
    /// Read a source from its command-line form.
    pub fn from_str(s: &str) -> (r: Result<Self, DetectError>)
        ensures
            match (r, source_named(s@)) {
                (Ok(spec), Ok(v)) => spec@ == v,
                (Err(e), Err(v)) => e@ == v,
                _ => false,
            },
    {
        let chars = chars_of(s);
        let Some((kind, rest)) = split_once(chars.as_slice(), ':') else {
            return Err(DetectError::source(s, "expected one of camera:<index>, file:<path>, dir:<path>"));
        };
        let tail = string_of(rest);
        if spells(kind, "camera") || spells(kind, "cam") {
            match unsigned_of(tail.as_str(), u32::MAX as u64) {
                Some(index) => Ok(SourceSpec::Camera { index: index as u32 }),
                None => Err(
                    DetectError::source(
                        s,
                        owned("camera index must be a number, got ").concat(quote(tail.as_str()).as_str()).as_str(),
                    ),
                ),
            }
        } else if spells(kind, "file") {
            Ok(SourceSpec::File { path: tail })
        } else if spells(kind, "dir") {
            Ok(SourceSpec::Dir { path: tail })
        } else {
            let shown = quote(string_of(kind).as_str());
            Err(
                DetectError::source(
                    s,
                    owned("unknown source kind ").concat(shown.as_str()).concat(
                        "; expected camera, file or dir",
                    ).as_str(),
                ),
            )
        }
    }

    /// Write the source in its command-line form.
    pub fn to_string(&self) -> (r: String)
        ensures
            r@ == source_text(self@),
    {
        match self {
            SourceSpec::Camera { index } => owned("camera:").concat(decimal_of(*index as u64).as_str()),
            SourceSpec::File { path } => owned("file:").concat(path.as_str()),
            SourceSpec::Dir { path } => owned("dir:").concat(path.as_str()),
        }
    }

    /// Work out what has to be opened. The spec's index wins over the configured
    /// one, and a directory plays at one frame per second at least.
    pub fn open(&self, capture: &CaptureConfig) -> (r: Opening)
        ensures
            match (self, r) {
                (SourceSpec::Camera { index }, Opening::Camera { capture: c }) => c == (CaptureConfig {
                    device_index: *index,
                    ..*capture
                }),
                (SourceSpec::File { path }, Opening::File { path: p }) => p@ == path@,
                (SourceSpec::Dir { path }, Opening::Dir { path: p, fps }) => p@ == path@ && fps == (
                if capture.fps == 0 { 1u32 } else { capture.fps }),
                _ => false,
            },
    {
        match self {
            SourceSpec::Camera { index } => Opening::Camera {
                capture: CaptureConfig {
                    device_index: *index,
                    width: capture.width,
                    height: capture.height,
                    fps: capture.fps,
                    prefer_mjpeg: capture.prefer_mjpeg,
                },
            },
            SourceSpec::File { path } => Opening::File { path: path.clone() },
            SourceSpec::Dir { path } => Opening::Dir {
                path: path.clone(),
                fps: if capture.fps == 0 { 1 } else { capture.fps },
            },
        }
    }
}

impl FromStr for SourceSpec {
    type Err = DetectError;

    fn from_str(s: &str) -> (r: Result<Self, DetectError>)
        ensures
            match (r, source_named(s@)) {
                (Ok(spec), Ok(v)) => spec@ == v,
                (Err(e), Err(v)) => e@ == v,
                _ => false,
            },
    {
        SourceSpec::from_str(s)
    }
}

proof fn lemma_split_after(head: Seq<char>, tail: Seq<char>)
    requires
        forall|i: int| 0 <= i < head.len() ==> head[i] != ':',
    ensures
        split_once_spec(head + seq![':'] + tail, ':') == Some((head, tail)),
{
    let s = head + seq![':'] + tail;
    lemma_first_colon(s, head.len() as int, 0);
    assert(s.take(head.len() as int) =~= head);
    assert(s.skip(head.len() as int + 1) =~= tail);
}

proof fn lemma_first_colon(s: Seq<char>, at: int, from: int)
    requires
        0 <= from <= at < s.len(),
        s[at] == ':',
        forall|i: int| from <= i < at ==> s[i] != ':',
    ensures
        index_from(s, ':', from) == Some(at),
    decreases at - from,
{
    if from < at {
        lemma_first_colon(s, at, from + 1);
    }
}

/// A source reads back from the form it is written in.
pub proof fn law_written_sources_read_back(v: SourceView)
    ensures
        source_named(source_text(v)) == Ok::<SourceView, ErrorView>(v),
{
    reveal_strlit("camera:");
    reveal_strlit("camera");
    reveal_strlit("cam");
    reveal_strlit("file:");
    reveal_strlit("file");
    reveal_strlit("dir:");
    reveal_strlit("dir");
    assert("camera"@.len() == 6 && "cam"@.len() == 3 && "file"@.len() == 4 && "dir"@.len() == 3);
    match v {
        SourceView::Camera { index } => {
            let tail = decimal(index as nat);
            assert(source_text(v) =~= "camera"@ + seq![':'] + tail);
            lemma_split_after("camera"@, tail);
            law_decimal_reads_back(index as nat, u32::MAX as nat);
        },
        SourceView::File { path } => {
            assert(source_text(v) =~= "file"@ + seq![':'] + path);
            lemma_split_after("file"@, path);
        },
        SourceView::Dir { path } => {
            assert(source_text(v) =~= "dir"@ + seq![':'] + path);
            lemma_split_after("dir"@, path);
            assert("dir"@[0] != "cam"@[0]);
        },
    }
}

/// A source is named by its kind and, behind the first colon, by what it is: a
/// camera by its number, a file or a directory by its path. Whatever else comes
/// before the colon names no source, and neither does a text without one.
pub proof fn law_a_source_is_named_by_its_kind(kind: Seq<char>, rest: Seq<char>)
    requires
        !kind.contains(':'),
    ensures
        ({
            let s = kind + seq![':'] + rest;
            let number = unsigned_value(rest, 0xffff_ffff);
            &&& kind == "camera"@ || kind == "cam"@ ==> (number matches Some(n) ==> source_named(s) == Ok::<
                SourceView,
                ErrorView,
            >(SourceView::Camera { index: n as u32 })) && (number is None ==> source_named(s) == Err::<
                SourceView,
                ErrorView,
            >(ErrorView::Source { name: s, why: "camera index must be a number, got "@ + quoted(rest) }))
            &&& kind == "file"@ ==> source_named(s) == Ok::<SourceView, ErrorView>(SourceView::File { path: rest })
            &&& kind == "dir"@ ==> source_named(s) == Ok::<SourceView, ErrorView>(SourceView::Dir { path: rest })
            &&& kind != "camera"@ && kind != "cam"@ && kind != "file"@ && kind != "dir"@ ==> source_named(s) == Err::<
                SourceView,
                ErrorView,
            >(
                ErrorView::Source {
                    name: s,
                    why: "unknown source kind "@ + quoted(kind) + "; expected camera, file or dir"@,
                },
            )
        }),
        source_named(kind) == Err::<SourceView, ErrorView>(
            ErrorView::Source {
                name: kind,
                why: "expected one of camera:<index>, file:<path>, dir:<path>"@,
            },
        ),
{
    law_a_split_comes_together(kind, ':', kind, rest);
    reveal_strlit("camera");
    reveal_strlit("cam");
    reveal_strlit("file");
    reveal_strlit("dir");
    assert("camera"@.len() == 6 && "cam"@.len() == 3 && "file"@.len() == 4 && "dir"@.len() == 3);
    assert("dir"@[0] != "cam"@[0]);
}

/// A helper is called by its name, with the ending of programs where programs
/// have one.
pub proof fn law_programs_have_their_ending(program: Seq<char>)
    ensures
        helper_file_spec(program, true) == program + ".exe"@,
        helper_file_spec(program, false) == program,
{
}

} // verus!
