//! Replay sources: a video file, or a directory of images.
//!
//! Tuning happens against recorded footage, so the replay path is the primary
//! development surface. Video is decoded by ffmpeg; reading files and running
//! programs is the caller's part.

use std::sync::Arc;
use std::time::Instant;

use vstd::prelude::*;
use vstd::slice::slice_subrange;

use crate::config::{sorted_texts, texts_view};
use crate::decimal::{decimal, decimal_of, unsigned_of, unsigned_value};
use crate::error::{DetectError, ErrorView};
use crate::number::Number;
use crate::text::{
    chars_of, is_sorted, last_index_of, last_index_spec, law_a_split_comes_together, law_the_last_of_a_character, lines,
    lines_spec, owned, spells, strs_view, split_once, split_once_spec, string_of, trim, trim_spec,
};
use crate::types::{subject_view, Frame};

verus! {

broadcast use vstd::string::group_string_axioms;

// ---------------------------------------------------------------------------
// video file
// ---------------------------------------------------------------------------

/// What ffmpeg has to be told to decode a file.
pub open spec fn decode_args_spec(path: Seq<char>) -> Seq<Seq<char>> {
    seq!["-v"@, "error"@, "-nostdin"@, "-i"@, path]
}

/// Put together what ffmpeg has to be told to decode a file.
pub fn decode_args(path: &str) -> (r: Vec<String>)
    ensures
        texts_view(r@) == decode_args_spec(path@),
{
    let mut r: Vec<String> = Vec::new();
    r.push(owned("-v"));
    r.push(owned("error"));
    r.push(owned("-nostdin"));
    r.push(owned("-i"));
    r.push(owned(path));
    assert(texts_view(r@) =~= decode_args_spec(path@));
    r
}

/// What ffprobe has to be told to measure a file.
pub open spec fn probe_args_spec(path: Seq<char>) -> Seq<Seq<char>> {
    seq![
        "-v"@,
        "error"@,
        "-select_streams"@,
        "v:0"@,
        "-show_entries"@,
        "stream=width,height,avg_frame_rate"@,
        "-of"@,
        "default=noprint_wrappers=1"@,
        path,
    ]
}

/// Put together what ffprobe has to be told to measure a file.
pub fn probe_args(path: &str) -> (r: Vec<String>)
    ensures
        texts_view(r@) == probe_args_spec(path@),
{
    let mut r: Vec<String> = Vec::new();
    r.push(owned("-v"));
    r.push(owned("error"));
    r.push(owned("-select_streams"));
    r.push(owned("v:0"));
    r.push(owned("-show_entries"));
    r.push(owned("stream=width,height,avg_frame_rate"));
    r.push(owned("-of"));
    r.push(owned("default=noprint_wrappers=1"));
    r.push(owned(path));
    assert(texts_view(r@) =~= probe_args_spec(path@));
    r
}

/// A frame rate as ffprobe writes it: a fraction.
#[derive(Debug, Clone, PartialEq, Eq)]
pub struct Rate {
    pub numerator: String,
    pub denominator: String,
}

/// What a list of rates says, in order.
pub open spec fn rates_view(s: Seq<Rate>) -> Seq<(Seq<char>, Seq<char>)> {
    s.map_values(|r: Rate| (r.numerator@, r.denominator@))
}

/// What a probe found out about a video.
#[derive(Debug, Clone, PartialEq, Eq)]
pub struct VideoProbe {
    pub width: u32,
    pub height: u32,
    /// Every rate stated, in order: the last one that is positive counts.
    pub rates: Vec<Rate>,
}

/// What the lines of a probe have said so far.
pub ghost struct Probed {
    pub width: Option<u32>,
    pub height: Option<u32>,
    pub rates: Seq<(Seq<char>, Seq<char>)>,
}

/// A side length as a probe writes it.
pub open spec fn side_named(s: Seq<char>) -> Option<u32> {
    match unsigned_value(trim_spec(s), u32::MAX as nat) {
        Some(v) => Some(v as u32),
        None => None,
    }
}

impl Probed {
    /// What one more line adds. A later value replaces an earlier one.
    pub open spec fn read(self, line: Seq<char>) -> Probed {
        match split_once_spec(line, '=') {
            Some((key, value)) => {
                let key = trim_spec(key);
                if key == "width"@ {
                    Probed { width: side_named(value), ..self }
                } else if key == "height"@ {
                    Probed { height: side_named(value), ..self }
                } else if key == "avg_frame_rate"@ {
                    match split_once_spec(trim_spec(value), '/') {
                        Some(rate) => Probed { rates: self.rates.push(rate), ..self },
                        None => self,
                    }
                } else {
                    self
                }
            },
            None => self,
        }
    }
}

/// What the lines of a probe say together.
pub open spec fn probed(listing: Seq<Seq<char>>) -> Probed
    decreases listing.len(),
{
    if listing.len() == 0 {
        Probed { width: None, height: None, rates: Seq::empty() }
    } else {
        probed(listing.drop_last()).read(listing.last())
    }
}

fn read_side(s: &[char]) -> (r: Option<u32>)
    ensures
        r == side_named(s@),
{
    match unsigned_of(string_of(trim(s)).as_str(), u32::MAX as u64) {
        Some(v) => Some(v as u32),
        None => None,
    }
}

/// Understand what ffprobe found out about the video called `name`. Without
/// both a width and a height there is no video to show.
pub fn probe_video(name: &str, printed: &str) -> (r: Result<VideoProbe, DetectError>)
    ensures
        ({
            let p = probed(lines_spec(printed@));
            match r {
                Ok(v) => p.width == Some(v.width) && p.height == Some(v.height) && v.width > 0 && v.height > 0
                    && rates_view(v.rates@) == p.rates,
                Err(e) => !(p.width is Some && p.height is Some && p.width->0 > 0 && p.height->0 > 0) && e@ == (
                ErrorView::Source {
                    name: name@,
                    why: "ffprobe reported no video stream dimensions"@,
                }),
            }
        }),
{
    let chars = chars_of(printed);
    let listing = lines(chars.as_slice());
    let ghost all = lines_spec(printed@);
    let mut width: Option<u32> = None;
    let mut height: Option<u32> = None;
    let mut rates: Vec<Rate> = Vec::new();
    let n: usize = listing.len();
    assert(rates_view(rates@) =~= Seq::empty());
    assert(all.take(0) =~= Seq::empty());
    for i in 0..n
        invariant
            n == listing@.len(),
            all == listing@.map_values(|l: &[char]| l@),
            (Probed { width, height, rates: rates_view(rates@) }) == probed(all.take(i as int)),
    {
        let line = listing[i];
        let ghost before = rates_view(rates@);
        assert(all.take(i + 1).drop_last() =~= all.take(i as int));
        assert(all.take(i + 1).last() == line@);
        if let Some((key, value)) = split_once(line, '=') {
            let key = trim(key);
            if spells(key, "width") {
                width = read_side(value);
            } else if spells(key, "height") {
                height = read_side(value);
            } else if spells(key, "avg_frame_rate") {
                if let Some((num, den)) = split_once(trim(value), '/') {
                    rates.push(Rate { numerator: string_of(num), denominator: string_of(den) });
                    assert(rates_view(rates@) =~= before.push((num@, den@)));
                }
            }
        }
    }
    assert(all.take(n as int) =~= all);
    match (width, height) {
        (Some(w), Some(h)) if w > 0 && h > 0 => Ok(VideoProbe { width: w, height: h, rates }),
        _ => Err(DetectError::source(name, "ffprobe reported no video stream dimensions")),
    }
}

/// What to say when ffprobe fails on the video called `name`.
pub fn probe_failure(name: &str, printed: &str) -> (r: DetectError)
    ensures
        r@ == (ErrorView::Source { name: name@, why: "ffprobe failed: "@ + trim_spec(printed@) }),
{
    let chars = chars_of(printed);
    DetectError::source(
        name,
        owned("ffprobe failed: ").concat(string_of(trim(chars.as_slice())).as_str()).as_str(),
    )
}

/// A video file that can be decoded, apart from the process that decodes it.
#[derive(Debug)]
pub struct VideoFileSource {
    path: String,
    width: u32,
    height: u32,
    fps: Number,
}

/// What a [`VideoFileSource`] remembers.
pub ghost struct VideoState {
    pub path: Seq<char>,
    pub width: u32,
    pub height: u32,
    pub fps: Number,
}

impl View for VideoFileSource {
    type V = VideoState;

    closed spec fn view(&self) -> VideoState {
        VideoState { path: self.path@, width: self.width, height: self.height, fps: self.fps }
    }
}

impl VideoFileSource {
    /// Insist on the file before any program is run on it.
    pub fn require(path: &str, exists: bool) -> (r: Result<(), DetectError>)
        ensures
            r is Ok <==> exists,
            r matches Err(e) ==> e@ == (ErrorView::Source { name: path@, why: "file does not exist"@ }),
    {
        if exists {
            Ok(())
        } else {
            Err(DetectError::source(path, "file does not exist"))
        }
    }

    /// A file that was measured and turned out to play at `fps`.
    pub fn new(path: &str, probe: &VideoProbe, fps: Number) -> (r: Self)
        ensures
            r@ == (VideoState { path: path@, width: probe.width, height: probe.height, fps }),
    {
        VideoFileSource { path: owned(path), width: probe.width, height: probe.height, fps }
    }

    pub fn resolution(&self) -> (r: (u32, u32))
        ensures
            r == (self@.width, self@.height),
    {
        (self.width, self.height)
    }

    pub fn name(&self) -> (r: String)
        ensures
            r@ == "file:"@ + self@.path,
    {
        owned("file:").concat(self.path.as_str())
    }

    /// Declared frame rate.
    pub fn nominal_fps(&self) -> (r: Number)
        ensures
            r == self@.fps,
    {
        self.fps
    }
}

// ---------------------------------------------------------------------------
// image directory
// ---------------------------------------------------------------------------

/// A character with capital ASCII letters made small.
pub open spec fn small(c: char) -> char {
    if 'A' <= c && c <= 'Z' {
        ((c as int) + 32) as char
    } else {
        c
    }
}

fn small_of(c: char) -> (r: char)
    ensures
        r == small(c),
{
    if 'A' <= c && c <= 'Z' {
        let code: u8 = c as u8 + 32;
        code as char
    } else {
        c
    }
}

/// What follows the last dot of a file name, unless that dot comes first.
pub open spec fn extension(name: Seq<char>) -> Option<Seq<char>> {
    match last_index_spec(name, '.') {
        Some(i) => if i > 0 {
            Some(name.skip(i + 1))
        } else {
            None
        },
        None => None,
    }
}

/// Whether a file of that name is taken for an image.
pub open spec fn is_image(name: Seq<char>) -> bool {
    match extension(name) {
        Some(e) => {
            let e = e.map_values(|c: char| small(c));
            e == "png"@ || e == "jpg"@ || e == "jpeg"@ || e == "bmp"@ || e == "webp"@
        },
        None => false,
    }
}

fn names_image(name: &str) -> (r: bool)
    ensures
        r == is_image(name@),
{
    let chars = chars_of(name);
    let n: usize = chars.len();
    let Some(dot) = last_index_of(chars.as_slice(), '.') else {
        return false;
    };
    if dot == 0 {
        return false;
    }
    let tail = slice_subrange(chars.as_slice(), dot + 1, n);
    assert(tail@ =~= name@.skip(dot + 1));
    let m: usize = tail.len();
    let mut ext: Vec<char> = Vec::new();
    for i in 0..m
        invariant
            m == tail@.len(),
            ext@ == tail@.take(i as int).map_values(|c: char| small(c)),
    {
        ext.push(small_of(tail[i]));
        assert(ext@ =~= tail@.take(i + 1).map_values(|c: char| small(c)));
    }
    assert(tail@.take(m as int) =~= tail@);
    let ext = ext.as_slice();
    spells(ext, "png") || spells(ext, "jpg") || spells(ext, "jpeg") || spells(ext, "bmp") || spells(ext, "webp")
}

/// The image names in a list, in the order they stand in.
pub open spec fn images_of(names: Seq<Seq<char>>) -> Seq<Seq<char>>
    decreases names.len(),
{
    if names.len() == 0 {
        Seq::empty()
    } else {
        let before = images_of(names.drop_last());
        if is_image(names.last()) {
            before.push(names.last())
        } else {
            before
        }
    }
}

/// Pick the images out of what a directory holds, sorted by name. A directory
/// without any is an error.
pub fn list_images(dir: &str, names: &Vec<String>) -> (r: Result<Vec<String>, DetectError>)
    ensures
        ({
            let found = images_of(texts_view(names@));
            match r {
                Ok(files) => found.len() > 0 && is_sorted(found, texts_view(files@)),
                Err(e) => found.len() == 0 && e@ == (ErrorView::Source {
                    name: dir@,
                    why: "no images found (looked for png, jpg, jpeg, bmp, webp)"@,
                }),
            }
        }),
{
    let n: usize = names.len();
    let ghost all = texts_view(names@);
    let ghost found = images_of(all);
    let mut keys: Vec<&str> = Vec::new();
    assert(all.take(0) =~= Seq::empty());
    assert(strs_view(keys@) =~= Seq::empty());
    for i in 0..n
        invariant
            n == names@.len(),
            all == texts_view(names@),
            strs_view(keys@) == images_of(all.take(i as int)),
    {
        let ghost before = strs_view(keys@);
        assert(all.take(i + 1).drop_last() =~= all.take(i as int));
        assert(all.take(i + 1).last() == names@[i as int]@);
        if names_image(names[i].as_str()) {
            keys.push(names[i].as_str());
            assert(strs_view(keys@) =~= before.push(names@[i as int]@));
        }
    }
    assert(all.take(n as int) =~= all);
    let m: usize = keys.len();
    assert(found.len() == m);
    if m == 0 {
        return Err(DetectError::source(dir, "no images found (looked for png, jpg, jpeg, bmp, webp)"));
    }
    Ok(sorted_texts(&keys))
}

/// A directory of images, sorted by filename. Name frames zero-padded so the
/// lexicographic order is also the temporal one.
#[derive(Debug)]
pub struct ImageDirSource {
    dir: String,
    files: Vec<String>,
    next: usize,
    width: u32,
    height: u32,
    fps: u32,
    seq: u64,
}

/// What an [`ImageDirSource`] remembers.
pub ghost struct ImageDirState {
    pub dir: Seq<char>,
    pub files: Seq<Seq<char>>,
    pub next: nat,
    pub width: u32,
    pub height: u32,
    pub fps: u32,
    pub seq: u64,
}

impl View for ImageDirSource {
    type V = ImageDirState;

    closed spec fn view(&self) -> ImageDirState {
        ImageDirState {
            dir: self.dir@,
            files: texts_view(self.files@),
            next: self.next as nat,
            width: self.width,
            height: self.height,
            fps: self.fps,
            seq: self.seq,
        }
    }
}

impl ImageDirState {
    /// The cursor stays within the files, and no frame is counted that was not
    /// asked for.
    pub open spec fn inv(self) -> bool {
        self.next <= self.files.len() && self.seq <= self.next
    }

    /// The file that is read next, if any is left.
    pub open spec fn due(self) -> Option<Seq<char>> {
        if self.next < self.files.len() {
            Some(self.files[self.next as int])
        } else {
            None
        }
    }

    /// What is remembered once the next file was asked for.
    pub open spec fn asked(self) -> ImageDirState {
        if self.next < self.files.len() {
            ImageDirState { next: self.next + 1, ..self }
        } else {
            self
        }
    }

    /// What is remembered once a frame was made of a picture.
    pub open spec fn accepted(self) -> ImageDirState {
        ImageDirState { seq: (self.seq + 1) as u64, ..self }
    }
}

impl ImageDirSource {
    /// Start at the first file. Dimensions come from it; the rest must match,
    /// because a resolution change would corrupt every model's letterboxing.
    pub fn new(dir: &str, files: Vec<String>, width: u32, height: u32, fps: u32) -> (r: Self)
        ensures
            r@.inv(),
            r@ == (ImageDirState {
                dir: dir@,
                files: texts_view(files@),
                next: 0,
                width,
                height,
                fps,
                seq: 0,
            }),
    {
        Self { dir: owned(dir), files, next: 0, width, height, fps, seq: 0 }
    }

    pub fn len(&self) -> (r: usize)
        ensures
            r == self@.files.len(),
    {
        self.files.len()
    }

    pub fn is_empty(&self) -> (r: bool)
        ensures
            r == (self@.files.len() == 0),
    {
        self.files.len() == 0
    }

    pub fn resolution(&self) -> (r: (u32, u32))
        ensures
            r == (self@.width, self@.height),
    {
        (self.width, self.height)
    }

    /// Declared frame rate.
    pub fn nominal_fps(&self) -> (r: u32)
        ensures
            r == self@.fps,
    {
        self.fps
    }

    /// The number that the next frame will carry.
    pub fn seq(&self) -> (r: u64)
        ensures
            r == self@.seq,
    {
        self.seq
    }

    pub fn name(&self) -> (r: String)
        ensures
            r@ == "dir:"@ + self@.dir,
    {
        owned("dir:").concat(self.dir.as_str())
    }

    /// The file to read next. Moves on whether or not it can be read; an
    /// exhausted source stays exhausted.
    pub fn next_file(&mut self) -> (r: Option<String>)
        requires
            old(self)@.inv(),
        ensures
            final(self)@.inv(),
            final(self)@ == old(self)@.asked(),
            subject_view(r) == old(self)@.due(),
    {
        let n: usize = self.files.len();
        if self.next < n {
            let name = self.files[self.next].clone();
            assert(self@.files[self.next as int] == self.files@[self.next as int]@);
            self.next = self.next + 1;
            Some(name)
        } else {
            None
        }
    }

    /// Make a frame of the picture read from `path`, which has to be as large as
    /// the first one.
    pub fn accept(&mut self, path: &str, width: u32, height: u32, data: Vec<u8>) -> (r: Result<Frame, DetectError>)
        requires
            old(self)@.inv(),
            old(self)@.seq < old(self)@.next,
        ensures
            final(self)@.inv(),
            match r {
                Ok(frame) => {
                    &&& width == old(self)@.width && height == old(self)@.height
                    &&& frame.data@ == data@
                    &&& frame.width == width && frame.height == height
                    &&& frame.seq == old(self)@.seq
                    &&& final(self)@ == old(self)@.accepted()
                },
                Err(e) => {
                    &&& !(width == old(self)@.width && height == old(self)@.height)
                    &&& final(self)@ == old(self)@
                    &&& e@ == (ErrorView::Source {
                        name: path@,
                        why: "resolution changed mid-sequence: expected "@ + decimal(old(self)@.width as nat) + "x"@
                            + decimal(old(self)@.height as nat) + ", got "@ + decimal(width as nat) + "x"@ + decimal(
                            height as nat,
                        ),
                    })
                },
            },
    {
        if width != self.width || height != self.height {
            let why = owned("resolution changed mid-sequence: expected ").concat(
                decimal_of(self.width as u64).as_str(),
            ).concat("x").concat(decimal_of(self.height as u64).as_str()).concat(", got ").concat(
                decimal_of(width as u64).as_str(),
            ).concat("x").concat(decimal_of(height as u64).as_str());
            return Err(DetectError::source(path, why.as_str()));
        }
        let frame = Frame { data: Arc::new(data), width, height, seq: self.seq, captured_at: Instant::now() };
        self.seq = self.seq + 1;
        Ok(frame)
    }
}

/// A directory after `n` rounds of asking for a file and, where there was one,
/// making a frame of it.
pub open spec fn played(start: ImageDirState, n: nat) -> ImageDirState
    decreases n,
{
    if n == 0 {
        start
    } else {
        let before = played(start, (n - 1) as nat);
        match before.due() {
            Some(_) => before.asked().accepted(),
            None => before.asked(),
        }
    }
}

/// A directory of pictures is played once, in order: the first rounds hand out
/// one file each, numbered from zero, and every round after them hands out
/// nothing.
pub proof fn law_a_directory_is_played_in_order_and_ends(start: ImageDirState, n: nat)
    requires
        start.next == 0,
        start.seq == 0,
        start.files.len() <= u64::MAX,
    ensures
        n < start.files.len() ==> played(start, n).due() == Some(start.files[n as int]) && played(start, n).seq == n,
        n >= start.files.len() ==> played(start, n).due() is None && played(start, n + 1) == played(start, n),
        played(start, n) == (ImageDirState {
            next: if n < start.files.len() { n } else { start.files.len() },
            seq: (if n < start.files.len() { n } else { start.files.len() }) as u64,
            ..start
        }),
    decreases n,
{
    if n > 0 {
        law_a_directory_is_played_in_order_and_ends(start, (n - 1) as nat);
    }
}

/// The ending of a name is what stands behind its last dot. A name that begins
/// with its only dot, or has none, has no ending.
pub proof fn law_an_ending_stands_behind_the_last_dot(stem: Seq<char>, ending: Seq<char>)
    requires
        !ending.contains('.'),
    ensures
        stem.len() > 0 ==> extension(stem + seq!['.'] + ending) == Some(ending),
        extension(seq!['.'] + ending) is None,
        extension(stem + seq!['.'] + ending) is None <==> stem.len() == 0,
        extension(ending) is None,
{
    let name = stem + seq!['.'] + ending;
    law_the_last_of_a_character(name, '.');
    law_the_last_of_a_character(ending, '.');
    assert(name[stem.len() as int] == '.');
    if let Some(i) = last_index_spec(name, '.') {
        if i > stem.len() {
            assert(ending[i - stem.len() - 1] == name[i]);
            assert(ending.contains('.'));
        }
        if i < stem.len() {
            assert(name[stem.len() as int] != '.');
        }
        assert(name.skip(i + 1) =~= ending);
    }
    if let Some(i) = last_index_spec(ending, '.') {
        assert(ending.contains('.'));
    }
    let hidden = seq!['.'] + ending;
    law_the_last_of_a_character(hidden, '.');
    assert(hidden[0] == '.');
    if let Some(i) = last_index_spec(hidden, '.') {
        if i > 0 {
            assert(ending[i - 1] == hidden[i]);
            assert(ending.contains('.'));
        }
    }
}

/// Letters are read as small ones: `A` to `Z` become `a` to `z`, and everything
/// else stays as it is.
pub proof fn law_letters_are_read_small(c: char)
    ensures
        'A' <= c && c <= 'Z' ==> small(c) as int == c as int + 32 && 'a' <= small(c) && small(c) <= 'z',
        !('A' <= c && c <= 'Z') ==> small(c) == c,
{
}

/// Whether a text reads as another when its letters are read small.
pub open spec fn reads_small(s: Seq<char>, as_text: Seq<char>) -> bool {
    s.len() == as_text.len() && forall|i: int| 0 <= i < s.len() ==> small(#[trigger] s[i]) == as_text[i]
}

/// An image is known by its ending, in large letters or small.
pub proof fn law_images_are_known_by_their_ending(stem: Seq<char>, ending: Seq<char>)
    requires
        !ending.contains('.'),
    ensures
        is_image(stem + seq!['.'] + ending) <==> stem.len() > 0 && (reads_small(ending, "png"@) || reads_small(
            ending,
            "jpg"@,
        ) || reads_small(ending, "jpeg"@) || reads_small(ending, "bmp"@) || reads_small(ending, "webp"@)),
        !is_image(ending),
{
    law_an_ending_stands_behind_the_last_dot(stem, ending);
    lemma_reads_small(ending, "png"@);
    lemma_reads_small(ending, "jpg"@);
    lemma_reads_small(ending, "jpeg"@);
    lemma_reads_small(ending, "bmp"@);
    lemma_reads_small(ending, "webp"@);
}

proof fn lemma_reads_small(s: Seq<char>, as_text: Seq<char>)
    ensures
        reads_small(s, as_text) <==> s.map_values(|c: char| small(c)) == as_text,
{
    let e = s.map_values(|c: char| small(c));
    if reads_small(s, as_text) {
        assert(e =~= as_text);
    }
    if e == as_text {
        assert forall|i: int| 0 <= i < s.len() implies small(#[trigger] s[i]) == as_text[i] by {
            assert(e[i] == small(s[i]));
        }
    }
}

/// A list of names holds the images among them, in order, and nothing else.
pub proof fn law_only_images_are_listed(names: Seq<Seq<char>>, name: Seq<char>)
    ensures
        images_of(Seq::empty()) == Seq::<Seq<char>>::empty(),
        is_image(name) ==> images_of(names.push(name)) == images_of(names).push(name),
        !is_image(name) ==> images_of(names.push(name)) == images_of(names),
{
    assert(names.push(name).drop_last() =~= names);
}

/// A directory is gone through file by file, in order, and each file that was
/// taken is counted; neither changes anything else.
pub proof fn law_files_are_asked_for_one_by_one(st: ImageDirState)
    ensures
        st.next < st.files.len() ==> st.due() == Some(st.files[st.next as int]) && st.asked() == (ImageDirState {
            next: st.next + 1,
            ..st
        }),
        st.next >= st.files.len() ==> st.due() is None && st.asked() == st,
        st.seq < u64::MAX ==> st.accepted().seq == st.seq + 1,
        st.accepted() == (ImageDirState { seq: st.accepted().seq, ..st }),
{
}

/// A probe is read line by line. A line that gives a width, a height or a rate
/// sets that one, the rate after those before it, and no other line says
/// anything.
pub proof fn law_a_probe_is_read_line_by_line(
    listing: Seq<Seq<char>>,
    p: Probed,
    key: Seq<char>,
    value: Seq<char>,
    num: Seq<char>,
    den: Seq<char>,
)
    requires
        !key.contains('='),
        !num.contains('/'),
    ensures
        probed(Seq::empty()) == (Probed { width: None, height: None, rates: Seq::empty() }),
        probed(listing.push(key)) == probed(listing).read(key),
        p.read(key) == p,
        ({
            let n = p.read(key + seq!['='] + value);
            let side = match unsigned_value(trim_spec(value), 0xffff_ffff) {
                Some(v) => Some(v as u32),
                None => None,
            };
            &&& trim_spec(key) == "width"@ ==> n == (Probed { width: side, ..p })
            &&& trim_spec(key) == "height"@ ==> n == (Probed { height: side, ..p })
            &&& trim_spec(key) == "avg_frame_rate"@ && trim_spec(value) == num + seq!['/'] + den ==> n == (Probed {
                rates: p.rates.push((num, den)),
                ..p
            })
            &&& trim_spec(key) == "avg_frame_rate"@ && !trim_spec(value).contains('/') ==> n == p
            &&& trim_spec(key) != "width"@ && trim_spec(key) != "height"@ && trim_spec(key) != "avg_frame_rate"@ ==> n
                == p
        }),
{
    assert(listing.push(key).drop_last() =~= listing);
    law_a_split_comes_together(key, '=', key, value);
    law_a_split_comes_together(trim_spec(value), '/', num, den);
    reveal_strlit("width");
    reveal_strlit("height");
    reveal_strlit("avg_frame_rate");
    assert("width"@.len() == 5);
    assert("height"@.len() == 6);
    assert("avg_frame_rate"@.len() == 14);
}

/// The helpers are asked for what is needed and nothing else: to decode the file
/// to standard output without a prompt, or to say the size and the rate of its
/// first video stream.
pub proof fn law_the_file_is_the_last_word(path: Seq<char>)
    ensures
        decode_args_spec(path).len() == 5 && decode_args_spec(path)[3] == "-i"@ && decode_args_spec(path)[4] == path,
        decode_args_spec(path)[0] == "-v"@ && decode_args_spec(path)[1] == "error"@ && decode_args_spec(path)[2]
            == "-nostdin"@,
        probe_args_spec(path).len() == 9 && probe_args_spec(path).last() == path,
        probe_args_spec(path)[0] == "-v"@ && probe_args_spec(path)[1] == "error"@,
        probe_args_spec(path)[2] == "-select_streams"@ && probe_args_spec(path)[3] == "v:0"@,
        probe_args_spec(path)[4] == "-show_entries"@ && probe_args_spec(path)[5]
            == "stream=width,height,avg_frame_rate"@,
        probe_args_spec(path)[6] == "-of"@ && probe_args_spec(path)[7] == "default=noprint_wrappers=1"@,
{
}

/// Rates are told by their two halves, in order.
pub proof fn law_rates_are_told_by_their_halves(rates: Seq<Rate>, i: int)
    requires
        0 <= i < rates.len(),
    ensures
        rates_view(rates).len() == rates.len(),
        rates_view(rates)[i] == (rates[i].numerator@, rates[i].denominator@),
{
}

} // verus!
